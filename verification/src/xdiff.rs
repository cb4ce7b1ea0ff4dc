use vstd::prelude::*;
use crate::req::{RequestProfile, valid_profile};
use crate::res::{ResponseExt, ResponseProfile, canonical_text};
use crate::diff::{diff_text, spec_diff_text};
use crate::error::{Error, ErrorKind, Side};
pub use crate::res::is_default;

verus! {

/// What one send came back with: a response, or a transport failure with
/// its description.
#[derive(Debug)]
pub enum SendOutcome {
    Delivered(ResponseExt),
    Failed(String),
}

/// One comparable scenario: two request profiles and the one
/// normalization policy applied to both sides.
#[derive(Debug, PartialEq, Eq)]
pub struct DiffProfile {
    pub req1: RequestProfile,
    pub req2: RequestProfile,
    pub res: ResponseProfile,
}

impl DiffProfile {
    pub fn new(req1: RequestProfile, req2: RequestProfile, res: ResponseProfile) -> (r:
        DiffProfile)
        ensures
            r.req1 == req1,
            r.req2 == req2,
            r.res == res,
    {
        DiffProfile { req1, req2, res }
    }

    /// Checks both request profiles, fail fast: an error names the side
    /// that is structurally invalid.
    pub fn validate(&self) -> (r: Result<(), Error>)
        ensures
            r is Ok <==> (valid_profile(self.req1) && valid_profile(self.req2)),
            r is Err ==> r->Err_0.kind == ErrorKind::Validation,
            r is Err ==> (r->Err_0.side == Some(Side::Req1) <==> !valid_profile(self.req1)),
            r is Err && valid_profile(self.req1) ==> r->Err_0.side == Some(Side::Req2),
    {
        if let Err(e) = self.req1.validate() {
            return Err(e.on_side(Side::Req1));
        }
        if let Err(e) = self.req2.validate() {
            return Err(e.on_side(Side::Req2));
        }
        Ok(())
    }

    /// The rendered diff of the two send outcomes under this profile's
    /// policy. A structurally invalid profile fails first, before either
    /// outcome is looked at; then a failed send aborts the whole
    /// operation with a transport error naming its side — nothing is
    /// normalized or diffed then; and a response whose declared-JSON body
    /// does not parse aborts likewise, naming its side.
    pub fn diff(&self, out1: SendOutcome, out2: SendOutcome) -> (r: Result<String, Error>)
        ensures
            !(valid_profile(self.req1) && valid_profile(self.req2)) ==> r is Err && r->Err_0.kind
                == ErrorKind::Validation && (r->Err_0.side == Some(Side::Req1) <==> !valid_profile(
                self.req1,
            )) && (valid_profile(self.req1) ==> r->Err_0.side == Some(Side::Req2)),
            valid_profile(self.req1) && valid_profile(self.req2) && out1 is Failed ==> r is Err
                && r->Err_0.kind == ErrorKind::Transport && r->Err_0.side == Some(Side::Req1),
            valid_profile(self.req1) && valid_profile(self.req2) && out1 is Delivered
                && out2 is Failed ==> r is Err && r->Err_0.kind == ErrorKind::Transport
                && r->Err_0.side == Some(Side::Req2),
            valid_profile(self.req1) && valid_profile(self.req2) && out1 is Delivered
                && out2 is Delivered ==> {
                let c1 = canonical_text(out1->Delivered_0, self.res);
                let c2 = canonical_text(out2->Delivered_0, self.res);
                match r {
                    Ok(t) => c1 is Some && c2 is Some && t@ == spec_diff_text(
                        c1->Some_0,
                        c2->Some_0,
                    ),
                    Err(e) => (c1 is None && e.kind == ErrorKind::ResponseParse && e.side == Some(
                        Side::Req1,
                    )) || (c1 is Some && c2 is None && e.kind == ErrorKind::ResponseParse && e.side
                        == Some(Side::Req2)),
                }
            },
    {
        if let Err(e) = self.validate() {
            return Err(e);
        }
        let r1 = match out1 {
            SendOutcome::Delivered(r1) => r1,
            SendOutcome::Failed(detail) => {
                return Err(Error::with_detail(ErrorKind::Transport, detail).on_side(Side::Req1));
            },
        };
        let r2 = match out2 {
            SendOutcome::Delivered(r2) => r2,
            SendOutcome::Failed(detail) => {
                return Err(Error::with_detail(ErrorKind::Transport, detail).on_side(Side::Req2));
            },
        };
        let text1 = match r1.filter_text(&self.res) {
            Ok(t) => t,
            Err(e) => {
                return Err(e.on_side(Side::Req1));
            },
        };
        let text2 = match r2.filter_text(&self.res) {
            Ok(t) => t,
            Err(e) => {
                return Err(e.on_side(Side::Req2));
            },
        };
        Ok(diff_text(text1.as_str(), text2.as_str()))
    }
}

/// The first position at or after `i` whose name is `name`, or the length.
pub open spec fn name_idx<T>(ps: Seq<(String, T)>, name: Seq<char>, i: int) -> int
    decreases ps.len() - i,
{
    if i < 0 || i >= ps.len() {
        ps.len() as int
    } else if ps[i].0@ == name {
        i
    } else {
        name_idx(ps, name, i + 1)
    }
}

/// The registry: named diff profiles, loaded once and then only read.
/// Entry order carries no meaning; lookups take the first match.
#[derive(Debug, PartialEq, Eq)]
pub struct DiffConfig {
    pub profiles: Vec<(String, DiffProfile)>,
}

impl DiffConfig {
    pub fn new(profiles: Vec<(String, DiffProfile)>) -> (r: DiffConfig)
        ensures
            r.profiles == profiles,
    {
        DiffConfig { profiles }
    }

    /// Looks a profile up by name; `None` exactly where no entry has it.
    #[verifier::loop_isolation(false)]
    pub fn get_profile(&self, name: &str) -> (r: Option<&DiffProfile>)
        ensures
            r is Some <==> name_idx(self.profiles@, name@, 0) < self.profiles@.len(),
            r matches Some(p) ==> *p == self.profiles@[name_idx(self.profiles@, name@, 0)].1,
    {
        let n: usize = self.profiles.len();
        let mut i: usize = 0;
        while i < n
            invariant
                i <= n,
                name_idx(self.profiles@, name@, 0) == name_idx(self.profiles@, name@, i as int),
            decreases n - i,
        {
            if crate::text::str_eq(self.profiles[i].0.as_str(), name) {
                return Some(&self.profiles[i].1);
            }
            i += 1;
        }
        None
    }

    /// Looks a profile up by name, or reports that the registry holds no
    /// profile of that name.
    pub fn profile_named(&self, name: &str) -> (r: Result<&DiffProfile, Error>)
        ensures
            r is Ok <==> name_idx(self.profiles@, name@, 0) < self.profiles@.len(),
            r matches Ok(p) ==> *p == self.profiles@[name_idx(self.profiles@, name@, 0)].1,
            r matches Err(e) ==> e.kind == ErrorKind::ProfileNotFound && (e.profile matches Some(
                n,
            ) && n@ == name@),
    {
        match self.get_profile(name) {
            Some(p) => Ok(p),
            None => Err(Error::new(ErrorKind::ProfileNotFound).in_profile(name.to_owned())),
        }
    }

    /// The first entry at or after `i` whose profile is structurally
    /// invalid, or the length.
    pub open spec fn first_invalid(ps: Seq<(String, DiffProfile)>, i: int) -> int
        decreases ps.len() - i,
    {
        if i < 0 || i >= ps.len() {
            ps.len() as int
        } else if !(valid_profile(ps[i].1.req1) && valid_profile(ps[i].1.req2)) {
            i
        } else {
            Self::first_invalid(ps, i + 1)
        }
    }

    /// Checks every profile in the registry, and names the first invalid
    /// one.
    #[verifier::loop_isolation(false)]
    pub fn validate(&self) -> (r: Result<(), Error>)
        ensures
            r is Ok <==> Self::first_invalid(self.profiles@, 0) == self.profiles@.len(),
            r is Err ==> r->Err_0.kind == ErrorKind::Validation && r->Err_0.profile == Some(
                self.profiles@[Self::first_invalid(self.profiles@, 0)].0,
            ),
    {
        let n: usize = self.profiles.len();
        let mut i: usize = 0;
        while i < n
            invariant
                i <= n,
                Self::first_invalid(self.profiles@, 0) == Self::first_invalid(
                    self.profiles@,
                    i as int,
                ),
            decreases n - i,
        {
            if let Err(e) = self.profiles[i].1.validate() {
                return Err(e.in_profile(self.profiles[i].0.clone()));
            }
            i += 1;
        }
        Ok(())
    }
}

/// What a loaded configuration must satisfy before it is used.
pub trait ValidateConfig {
    /// The structural condition the configuration promises.
    spec fn spec_valid(&self) -> bool;

    /// Checks it, reporting the first violation instead of failing
    /// silently.
    fn validate(&self) -> (r: Result<(), Error>)
        ensures
            r is Ok <==> self.spec_valid(),
    ;
}

impl ValidateConfig for DiffConfig {
    open spec fn spec_valid(&self) -> bool {
        Self::first_invalid(self.profiles@, 0) == self.profiles@.len()
    }

    fn validate(&self) -> (r: Result<(), Error>)
    {
        DiffConfig::validate(self)
    }
}

} // verus!
