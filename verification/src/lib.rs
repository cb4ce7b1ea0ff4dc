pub mod cli;
pub mod text;
pub mod json;
pub mod diff;
pub mod error;
pub mod req;
pub mod res;
pub mod xdiff;
pub mod xreq;

pub use req::RequestProfile;
pub use res::{ResponseExt, ResponseProfile};
pub use xdiff::{DiffConfig, DiffProfile};
pub use xreq::RequestConfig;

use vstd::prelude::*;

verus! {

/// Ad-hoc key/value overrides supplied by the caller for one invocation,
/// already classified into the three categories a request profile knows.
#[derive(Debug, Clone, PartialEq, Eq)]
pub struct ExtraArgs {
    pub headers: Vec<(String, String)>,
    pub query: Vec<(String, String)>,
    pub body: Vec<(String, String)>,
}

impl ExtraArgs {
    pub fn new() -> (r: ExtraArgs)
        ensures
            r.headers@.len() == 0,
            r.query@.len() == 0,
            r.body@.len() == 0,
    {
        ExtraArgs { headers: Vec::new(), query: Vec::new(), body: Vec::new() }
    }
}

} // verus!
