use vstd::prelude::*;

verus! {

/// Which of the two requests of a diff profile an error belongs to.
#[derive(Debug, Clone, Copy, PartialEq, Eq, Structural)]
pub enum Side {
    Req1,
    Req2,
}

/// The kinds of failure this library distinguishes.
#[derive(Debug, Clone, Copy, PartialEq, Eq, Structural)]
pub enum ErrorKind {
    /// Malformed profile structure or a bad URL.
    Config,
    /// `params` or `body` is present but not object-shaped.
    Validation,
    /// An override header name or value holds characters illegal in HTTP.
    RequestBuild,
    /// The network round trip itself failed.
    Transport,
    /// A response declared JSON but its body does not parse.
    ResponseParse,
    /// A profile name is absent from the registry.
    ProfileNotFound,
    /// The resolved content type cannot encode the body.
    Serialization,
}

/// A failure, with enough context to say which side of which profile it
/// came from.
#[derive(Debug, Clone, PartialEq, Eq)]
pub struct Error {
    pub kind: ErrorKind,
    pub side: Option<Side>,
    pub profile: Option<String>,
    pub detail: String,
}

impl Error {
    pub fn new(kind: ErrorKind) -> (r: Error)
        ensures
            r.kind == kind,
            r.side is None,
            r.profile is None,
            r.detail@.len() == 0,
    {
        Error { kind, side: None, profile: None, detail: String::new() }
    }

    pub fn with_detail(kind: ErrorKind, detail: String) -> (r: Error)
        ensures
            r.kind == kind,
            r.side is None,
            r.profile is None,
            r.detail == detail,
    {
        Error { kind, side: None, profile: None, detail }
    }

    /// The same error, attributed to one side of a diff profile.
    pub fn on_side(self, side: Side) -> (r: Error)
        ensures
            r.kind == self.kind,
            r.side == Some(side),
            r.profile == self.profile,
            r.detail == self.detail,
    {
        Error { side: Some(side), ..self }
    }

    /// The same error, attributed to a named profile.
    pub fn in_profile(self, name: String) -> (r: Error)
        ensures
            r.kind == self.kind,
            r.side == self.side,
            r.profile == Some(name),
            r.detail == self.detail,
    {
        Error { profile: Some(name), ..self }
    }
}

} // verus!
