use vstd::prelude::*;
use vstd::string::*;
use crate::text::{lower, lower_all, seq_contains_str, contains_ci, dec_str, u16_dec};
use crate::json::{
    JsonValue, JsonSpec, json_parse_of, parse_json, obj_filter, obj_filter_fields, jpretty,
    to_pretty_text,
};
use crate::req::content_type_of;
use crate::error::{Error, ErrorKind};

verus! {

/// The normalization policy: which response headers and which top-level
/// body fields to drop before comparing.
#[derive(Debug, Clone, PartialEq, Eq)]
pub struct ResponseProfile {
    pub skip_headers: Vec<String>,
    pub skip_body: Vec<String>,
}

impl ResponseProfile {
    pub fn new(skip_headers: Vec<String>, skip_body: Vec<String>) -> (r: ResponseProfile)
        ensures
            r.skip_headers == skip_headers,
            r.skip_body == skip_body,
    {
        ResponseProfile { skip_headers, skip_body }
    }
}

impl Default for ResponseProfile {
    /// The policy that drops nothing.
    fn default() -> (r: ResponseProfile)
        ensures
            r.skip_headers@.len() == 0,
            r.skip_body@.len() == 0,
    {
        ResponseProfile { skip_headers: Vec::new(), skip_body: Vec::new() }
    }
}

/// Whether a normalization policy is the default one, which drops nothing.
pub fn is_default(v: &ResponseProfile) -> (r: bool)
    ensures
        r == (v.skip_headers@.len() == 0 && v.skip_body@.len() == 0),
{
    v.skip_headers.len() == 0 && v.skip_body.len() == 0
}

/// One received response, reduced to the plain values normalization
/// reads: protocol version, status code and reason, the headers in
/// receipt order, and the body text.
#[derive(Debug, Clone, PartialEq, Eq)]
pub struct ResponseExt {
    pub version: String,
    pub status: u16,
    pub reason: String,
    pub headers: Vec<(String, String)>,
    pub body: String,
}

/// The status line of the canonical text.
pub open spec fn status_line(version: Seq<char>, status: int, reason: Seq<char>) -> Seq<char> {
    version + seq![' '] + dec_str(status) + seq![' '] + reason + seq!['\n']
}

/// The header block of the canonical text: `name: value` per line, in
/// receipt order, names in `skip` (case-insensitively) left out.
pub open spec fn headers_text(
    hs: Seq<(Seq<char>, Seq<char>)>,
    skip: Seq<Seq<char>>,
    i: int,
) -> Seq<char>
    decreases hs.len() - i,
{
    if i < 0 || i >= hs.len() {
        Seq::empty()
    } else if seq_contains_str(lower_all(skip), lower(hs[i].0)) {
        headers_text(hs, skip, i + 1)
    } else {
        hs[i].0 + seq![':', ' '] + hs[i].1 + seq!['\n'] + headers_text(hs, skip, i + 1)
    }
}

/// The body section of the canonical text: under a JSON content type the
/// body is parsed (`None` where that fails), object bodies are filtered
/// and pretty-printed, non-object JSON yields an empty section; any other
/// content type passes the body through unchanged.
pub open spec fn body_section(ct: Option<Seq<char>>, body: Seq<char>, skip: Seq<Seq<char>>) -> Option<
    Seq<char>,
> {
    if ct == Some("application/json"@) {
        match json_parse_of(body) {
            Option::None => None,
            Option::Some(j) => match j {
                JsonSpec::Obj(f) => Some(
                    jpretty(JsonSpec::Obj(obj_filter(f, skip, 0)), Seq::<char>::empty()),
                ),
                _ => Some(Seq::empty()),
            },
        }
    } else {
        Some(body)
    }
}

/// The whole canonical text of a response under a policy: status line,
/// filtered headers, a blank separator, then the body section. `None`
/// means the declared-JSON body did not parse.
pub open spec fn canonical_text(r: ResponseExt, p: ResponseProfile) -> Option<Seq<char>> {
    match body_section(
        content_type_of(r.headers.deep_view()),
        r.body@,
        p.skip_body.deep_view(),
    ) {
        Option::None => None,
        Option::Some(b) => Some(
            status_line(r.version@, r.status as int, r.reason@) + headers_text(
                r.headers.deep_view(),
                p.skip_headers.deep_view(),
                0,
            ) + seq!['\n'] + b,
        ),
    }
}

impl ResponseExt {
    /// Normalizes the response into its canonical text, as
    /// `canonical_text` says; fails exactly where a declared-JSON body
    /// does not parse.
    #[verifier::loop_isolation(false)]
    pub fn filter_text(&self, profile: &ResponseProfile) -> (r: Result<String, Error>)
        ensures
            r is Ok <==> canonical_text(*self, *profile) is Some,
            r is Ok ==> r->Ok_0@ == canonical_text(*self, *profile)->Some_0,
            r is Err ==> r->Err_0.kind == ErrorKind::ResponseParse && r->Err_0.side is None
                && r->Err_0.profile is None && r->Err_0.detail@ == Seq::<char>::empty(),
    {
        let body = match get_body_text(self, &profile.skip_body) {
            Ok(b) => b,
            Err(e) => {
                return Err(e);
            },
        };
        let mut out = get_status_text(self);
        let hdrs = get_header_text(self, &profile.skip_headers);
        out.append(hdrs.as_str());
        out.append(body.as_str());
        proof {
            assert(out@ =~= canonical_text(*self, *profile)->Some_0);
        }
        Ok(out)
    }

    /// The names of the response headers, in receipt order.
    pub fn get_headers_keys(&self) -> (r: Vec<String>)
        ensures
            r@.len() == self.headers@.len(),
            forall|i: int| 0 <= i < r@.len() ==> r@[i]@ == self.headers@[i].0@,
    {
        let mut acc: Vec<String> = Vec::new();
        let n: usize = self.headers.len();
        let mut i: usize = 0;
        while i < n
            invariant
                n == self.headers@.len(),
                i <= n,
                acc@.len() == i,
                forall|j: int| 0 <= j < i ==> acc@[j]@ == self.headers@[j].0@,
            decreases n - i,
        {
            acc.push(self.headers[i].0.clone());
            i += 1;
        }
        acc
    }
}

/// The status line: protocol version, then numeric code and reason.
pub fn get_status_text(res: &ResponseExt) -> (r: String)
    ensures
        r@ == status_line(res.version@, res.status as int, res.reason@),
{
    let mut out = res.version.clone();
    out.push(' ');
    let code = u16_dec(res.status);
    out.append(code.as_str());
    out.push(' ');
    out.append(res.reason.as_str());
    out.push('\n');
    proof {
        assert(out@ =~= status_line(res.version@, res.status as int, res.reason@));
    }
    out
}

/// The filtered header block followed by the blank separator line.
#[verifier::loop_isolation(false)]
pub fn get_header_text(res: &ResponseExt, skip_headers: &Vec<String>) -> (r: String)
    ensures
        r@ == headers_text(res.headers.deep_view(), skip_headers.deep_view(), 0) + seq!['\n'],
{
    let ghost hv = res.headers.deep_view();
    let ghost sv = skip_headers.deep_view();
    let n: usize = res.headers.len();
    let mut out: String = String::new();
    let mut i: usize = 0;
    while i < n
        invariant
            i <= n,
            out@ + headers_text(hv, sv, i as int) == headers_text(hv, sv, 0),
        decreases n - i,
    {
        let ghost mid = out@;
        proof {
            assert(hv[i as int] == (res.headers@[i as int].0@, res.headers@[i as int].1@));
        }
        if !contains_ci(skip_headers, res.headers[i].0.as_str()) {
            out.append(res.headers[i].0.as_str());
            out.push(':');
            out.push(' ');
            out.append(res.headers[i].1.as_str());
            out.push('\n');
            proof {
                let ghost piece = hv[i as int].0 + seq![':', ' '] + hv[i as int].1 + seq!['\n'];
                assert(out@ =~= mid + piece);
                assert(mid + (piece + headers_text(hv, sv, i + 1)) =~= (mid + piece)
                    + headers_text(hv, sv, i + 1));
            }
        }
        i += 1;
    }
    out.push('\n');
    proof {
        assert(out@ + headers_text(hv, sv, n as int) =~= out@);
        assert((headers_text(hv, sv, 0) + Seq::<char>::empty()) + seq!['\n'] =~= headers_text(
            hv,
            sv,
            0,
        ) + seq!['\n']);
    }
    out
}

/// The body section of the canonical text, as `body_section` says.
pub fn get_body_text(res: &ResponseExt, skip_body: &Vec<String>) -> (r: Result<String, Error>)
    ensures
        r is Ok <==> body_section(
            content_type_of(res.headers.deep_view()),
            res.body@,
            skip_body.deep_view(),
        ) is Some,
        r is Ok ==> r->Ok_0@ == body_section(
            content_type_of(res.headers.deep_view()),
            res.body@,
            skip_body.deep_view(),
        )->Some_0,
        r is Err ==> r->Err_0.kind == ErrorKind::ResponseParse && r->Err_0.side is None
            && r->Err_0.profile is None && r->Err_0.detail@ == Seq::<char>::empty(),
{
    let is_json = match crate::req::get_content_type(&res.headers) {
        Some(ct) => crate::text::str_eq(ct.as_str(), "application/json"),
        None => false,
    };
    if is_json {
        match parse_json(res.body.as_str()) {
            Ok(JsonValue::Obj(f)) => {
                let kept = obj_filter_fields(&f, skip_body);
                Ok(to_pretty_text(&JsonValue::Obj(kept)))
            },
            Ok(_) => Ok(String::new()),
            Err(()) => Err(Error::new(ErrorKind::ResponseParse)),
        }
    } else {
        Ok(res.body.clone())
    }
}

} // verus!
