use vstd::prelude::*;
use crate::req::{RequestProfile, valid_profile};
use crate::xdiff::{name_idx, ValidateConfig};
use crate::error::{Error, ErrorKind};

verus! {

/// The registry of single request profiles, keyed by name.
#[derive(Debug, PartialEq, Eq)]
pub struct RequestConfig {
    pub profiles: Vec<(String, RequestProfile)>,
}

impl RequestConfig {
    pub fn new(profiles: Vec<(String, RequestProfile)>) -> (r: RequestConfig)
        ensures
            r.profiles == profiles,
    {
        RequestConfig { profiles }
    }

    /// Looks a profile up by name; `None` exactly where no entry has it.
    #[verifier::loop_isolation(false)]
    pub fn get_profile(&self, name: &str) -> (r: Option<&RequestProfile>)
        ensures
            r is Some <==> name_idx(self.profiles@, name@, 0) < self.profiles@.len(),
            r matches Some(p) ==> *p == self.profiles@[name_idx(self.profiles@, name@, 0)].1,
    {
        let n: usize = self.profiles.len();
        let mut i: usize = 0;
        while i < n
            invariant
                i <= n,
                name_idx(self.profiles@, name@, 0) == name_idx(self.profiles@, name@, i as int),
            decreases n - i,
        {
            if crate::text::str_eq(self.profiles[i].0.as_str(), name) {
                return Some(&self.profiles[i].1);
            }
            i += 1;
        }
        None
    }

    /// The first entry at or after `i` whose profile is structurally
    /// invalid, or the length.
    pub open spec fn first_invalid(ps: Seq<(String, RequestProfile)>, i: int) -> int
        decreases ps.len() - i,
    {
        if i < 0 || i >= ps.len() {
            ps.len() as int
        } else if !valid_profile(ps[i].1) {
            i
        } else {
            Self::first_invalid(ps, i + 1)
        }
    }
}

impl RequestConfig {
    /// Checks every profile in the registry, and names the first invalid
    /// one.
    #[verifier::loop_isolation(false)]
    pub fn validate(&self) -> (r: Result<(), Error>)
        ensures
            r is Ok <==> Self::first_invalid(self.profiles@, 0) == self.profiles@.len(),
            r is Err ==> r->Err_0.kind == ErrorKind::Validation && r->Err_0.profile == Some(
                self.profiles@[Self::first_invalid(self.profiles@, 0)].0,
            ),
    {
        let n: usize = self.profiles.len();
        let mut i: usize = 0;
        while i < n
            invariant
                i <= n,
                Self::first_invalid(self.profiles@, 0) == Self::first_invalid(
                    self.profiles@,
                    i as int,
                ),
            decreases n - i,
        {
            if let Err(e) = self.profiles[i].1.validate() {
                return Err(e.in_profile(self.profiles[i].0.clone()));
            }
            i += 1;
        }
        Ok(())
    }
}

impl ValidateConfig for RequestConfig {
    open spec fn spec_valid(&self) -> bool {
        Self::first_invalid(self.profiles@, 0) == self.profiles@.len()
    }

    fn validate(&self) -> (r: Result<(), Error>) {
        RequestConfig::validate(self)
    }
}

} // verus!
