use vstd::prelude::*;
use vstd::string::*;
use crate::text::{lower, ascii_lowercase, str_eq, find_from, find_char};
use crate::json::{
    JsonValue, JsonSpec, obj_set, obj_jv, spec_parse_scalar, parse_scalar, deep_clone,
    obj_set_field, form_of, form_urlencode, jtext, to_json_text, query_string, query_string_of,
};
use crate::error::{Error, ErrorKind};
use crate::ExtraArgs;

verus! {

/// The HTTP verb of a request profile.
#[derive(Debug, Clone, Copy, PartialEq, Eq, Structural)]
pub enum Method {
    Get,
    Post,
    Put,
    Delete,
    Head,
    Options,
    Patch,
}

impl Default for Method {
    /// A profile that names no verb sends a GET.
    fn default() -> (r: Method)
        ensures
            r == Method::Get,
    {
        Method::Get
    }
}

pub open spec fn method_text(m: Method) -> Seq<char> {
    match m {
        Method::Get => "GET"@,
        Method::Post => "POST"@,
        Method::Put => "PUT"@,
        Method::Delete => "DELETE"@,
        Method::Head => "HEAD"@,
        Method::Options => "OPTIONS"@,
        Method::Patch => "PATCH"@,
    }
}

impl Method {
    pub fn as_str(&self) -> (r: &'static str)
        ensures
            r@ == method_text(*self),
    {
        match self {
            Method::Get => "GET",
            Method::Post => "POST",
            Method::Put => "PUT",
            Method::Delete => "DELETE",
            Method::Head => "HEAD",
            Method::Options => "OPTIONS",
            Method::Patch => "PATCH",
        }
    }
}

/// One parameterized HTTP request: where it goes, what it asks, and what
/// it carries. `params` and `body`, where present, must be object-shaped;
/// `validate` checks that and everything downstream relies on it.
#[derive(Debug, PartialEq, Eq)]
pub struct RequestProfile {
    pub method: Method,
    pub url: String,
    pub params: Option<JsonValue>,
    pub headers: Vec<(String, String)>,
    pub body: Option<JsonValue>,
}

pub open spec fn opt_jv(o: Option<JsonValue>) -> Option<JsonSpec> {
    match o {
        Option::None => None,
        Option::Some(v) => Some(v.jv()),
    }
}

pub open spec fn obj_shaped(o: Option<JsonValue>) -> bool {
    match o {
        Option::None => true,
        Option::Some(v) => v.jv() is Obj,
    }
}

pub open spec fn valid_profile(p: RequestProfile) -> bool {
    obj_shaped(p.params) && obj_shaped(p.body)
}

/// The object fields behind an optional body or params value; absent or
/// non-object values count as no fields.
pub open spec fn opt_fields(o: Option<JsonValue>) -> Seq<(Seq<char>, JsonSpec)> {
    match o {
        Option::None => Seq::empty(),
        Option::Some(v) => match v.jv() {
            JsonSpec::Obj(f) => f,
            _ => Seq::empty(),
        },
    }
}

/// The first header position at or after `i` whose name equals `name`
/// ASCII-case-insensitively, or the length.
pub open spec fn header_idx(hs: Seq<(Seq<char>, Seq<char>)>, name: Seq<char>, i: int) -> int
    decreases hs.len() - i,
{
    if i < 0 || i >= hs.len() {
        hs.len() as int
    } else if lower(hs[i].0) == lower(name) {
        i
    } else {
        header_idx(hs, name, i + 1)
    }
}

/// Sets a header: the last write per name wins; an existing header keeps
/// its position and spelling, a new one is appended.
pub open spec fn headers_set(
    hs: Seq<(Seq<char>, Seq<char>)>,
    name: Seq<char>,
    value: Seq<char>,
) -> Seq<(Seq<char>, Seq<char>)> {
    let j = header_idx(hs, name, 0);
    if j < hs.len() {
        hs.update(j, (hs[j].0, value))
    } else {
        hs.push((name, value))
    }
}

/// Applies the header overrides from `i` on, in order.
pub open spec fn headers_merge(
    hs: Seq<(Seq<char>, Seq<char>)>,
    ovs: Seq<(Seq<char>, Seq<char>)>,
    i: int,
) -> Seq<(Seq<char>, Seq<char>)>
    decreases ovs.len() - i,
{
    if i < 0 || i >= ovs.len() {
        hs
    } else {
        headers_merge(headers_set(hs, ovs[i].0, ovs[i].1), ovs, i + 1)
    }
}

pub open spec fn header_lookup(hs: Seq<(Seq<char>, Seq<char>)>, name: Seq<char>) -> Option<
    Seq<char>,
> {
    let j = header_idx(hs, name, 0);
    if j < hs.len() {
        Some(hs[j].1)
    } else {
        None
    }
}

/// The response or request content type: the value of the first
/// `Content-Type` header, parameters after `;` cut off.
pub open spec fn content_type_of(hs: Seq<(Seq<char>, Seq<char>)>) -> Option<Seq<char>> {
    match header_lookup(hs, "content-type"@) {
        Option::None => None,
        Option::Some(v) => Some(v.take(find_from(v, ';', 0))),
    }
}

/// The characters HTTP allows in a header name.
pub open spec fn is_token_char(c: char) -> bool {
    ('a' <= c && c <= 'z') || ('A' <= c && c <= 'Z') || ('0' <= c && c <= '9') || c == '!' || c
        == '#' || c == '$' || c == '%' || c == '&' || c == '\'' || c == '*' || c == '+' || c == '-'
        || c == '.' || c == '^' || c == '_' || c == '`' || c == '|' || c == '~'
}

pub open spec fn is_header_name(s: Seq<char>) -> bool {
    s.len() > 0 && forall|i: int| 0 <= i < s.len() ==> is_token_char(s[i])
}

/// The characters HTTP allows in a header value: tab and everything from
/// space upward except delete.
pub open spec fn is_header_value_char(c: char) -> bool {
    (c as u32) == 9 || ((c as u32) >= 32 && (c as u32) != 127)
}

pub open spec fn is_header_value(s: Seq<char>) -> bool {
    forall|i: int| 0 <= i < s.len() ==> is_header_value_char(s[i])
}

/// Whether every header in a list carries a legal name and value.
pub open spec fn headers_legal(ovs: Seq<(Seq<char>, Seq<char>)>) -> bool {
    forall|i: int|
        0 <= i < ovs.len() ==> is_header_name(#[trigger] ovs[i].0) && is_header_value(ovs[i].1)
}

/// Checks a header name, as `is_header_name` says.
pub fn check_header_name(s: &str) -> (r: bool)
    ensures
        r == is_header_name(s@),
{
    let n: usize = s.unicode_len();
    if n == 0 {
        return false;
    }
    let mut i: usize = 0;
    while i < n
        invariant
            n == s@.len(),
            i <= n,
            forall|j: int| 0 <= j < i ==> is_token_char(s@[j]),
        decreases n - i,
    {
        let c = s.get_char(i);
        let ok = ('a' <= c && c <= 'z') || ('A' <= c && c <= 'Z') || ('0' <= c && c <= '9') || c
            == '!' || c == '#' || c == '$' || c == '%' || c == '&' || c == '\'' || c == '*' || c
            == '+' || c == '-' || c == '.' || c == '^' || c == '_' || c == '`' || c == '|' || c
            == '~';
        if !ok {
            return false;
        }
        i += 1;
    }
    true
}

/// Checks a header value, as `is_header_value` says.
pub fn check_header_value(s: &str) -> (r: bool)
    ensures
        r == is_header_value(s@),
{
    let n: usize = s.unicode_len();
    let mut i: usize = 0;
    while i < n
        invariant
            n == s@.len(),
            i <= n,
            forall|j: int| 0 <= j < i ==> is_header_value_char(s@[j]),
        decreases n - i,
    {
        let c = s.get_char(i);
        let u: u32 = c as u32;
        if !(u == 9 || (u >= 32 && u != 127)) {
            return false;
        }
        i += 1;
    }
    true
}

/// Sets a header in a header list, as `headers_set` says.
#[verifier::loop_isolation(false)]
pub fn headers_set_x(hs: &mut Vec<(String, String)>, name: &str, value: &str)
    ensures
        final(hs).deep_view() == headers_set(old(hs).deep_view(), name@, value@),
{
    let ghost hv = hs.deep_view();
    let target = ascii_lowercase(name);
    let n: usize = hs.len();
    let mut i: usize = 0;
    while i < n
        invariant
            i <= n,
            n == hs@.len(),
            hs@ == old(hs)@,
            header_idx(hv, name@, 0) == header_idx(hv, name@, i as int),
        decreases n - i,
    {
        let cand = ascii_lowercase(hs[i].0.as_str());
        if str_eq(cand.as_str(), target.as_str()) {
            let key = hs[i].0.clone();
            hs.set(i, (key, value.to_owned()));
            proof {
                assert(hs.deep_view() =~= headers_set(hv, name@, value@));
            }
            return;
        }
        i += 1;
    }
    hs.push((name.to_owned(), value.to_owned()));
    proof {
        assert(hs.deep_view() =~= headers_set(hv, name@, value@));
    }
}

/// Looks a header up by name, case-insensitively, as `header_lookup` says.
#[verifier::loop_isolation(false)]
pub fn header_lookup_x(hs: &Vec<(String, String)>, name: &str) -> (r: Option<String>)
    ensures
        r is Some <==> header_lookup(hs.deep_view(), name@) is Some,
        r is Some ==> r->Some_0@ == header_lookup(hs.deep_view(), name@)->Some_0,
{
    let ghost hv = hs.deep_view();
    let target = ascii_lowercase(name);
    let n: usize = hs.len();
    let mut i: usize = 0;
    while i < n
        invariant
            i <= n,
            header_idx(hv, name@, 0) == header_idx(hv, name@, i as int),
        decreases n - i,
    {
        let cand = ascii_lowercase(hs[i].0.as_str());
        if str_eq(cand.as_str(), target.as_str()) {
            return Some(hs[i].1.clone());
        }
        i += 1;
    }
    None
}

/// The content type a header list resolves to, as `content_type_of` says.
pub fn get_content_type(hs: &Vec<(String, String)>) -> (r: Option<String>)
    ensures
        r is Some <==> content_type_of(hs.deep_view()) is Some,
        r is Some ==> r->Some_0@ == content_type_of(hs.deep_view())->Some_0,
{
    match header_lookup_x(hs, "content-type") {
        Some(v) => {
            let cut = find_char(v.as_str(), ';');
            let t = v.as_str().substring_char(0, cut);
            Some(t.to_owned())
        },
        None => None,
    }
}

/// Applies scalar key/value overrides to object fields from `i` on, in
/// order: each override sets its key to the reparsed scalar of its value.
pub open spec fn apply_ovr(
    fields: Seq<(Seq<char>, JsonSpec)>,
    ovs: Seq<(Seq<char>, Seq<char>)>,
    i: int,
) -> Seq<(Seq<char>, JsonSpec)>
    decreases ovs.len() - i,
{
    if i < 0 || i >= ovs.len() {
        fields
    } else {
        apply_ovr(obj_set(fields, ovs[i].0, spec_parse_scalar(ovs[i].1)), ovs, i + 1)
    }
}

/// The merged header list: profile headers, then overrides, then the
/// `application/json` default where no content type is present.
pub open spec fn gen_headers(p: RequestProfile, ah: Seq<(Seq<char>, Seq<char>)>) -> Seq<
    (Seq<char>, Seq<char>),
> {
    let merged = headers_merge(p.headers.deep_view(), ah, 0);
    if header_idx(merged, "content-type"@, 0) < merged.len() {
        merged
    } else {
        merged.push(("content-type"@, "application/json"@))
    }
}

/// The merged query object fields.
pub open spec fn gen_query(p: RequestProfile, aq: Seq<(Seq<char>, Seq<char>)>) -> Seq<
    (Seq<char>, JsonSpec),
> {
    apply_ovr(opt_fields(p.params), aq, 0)
}

/// The merged body object fields.
pub open spec fn gen_body(p: RequestProfile, ab: Seq<(Seq<char>, Seq<char>)>) -> Seq<
    (Seq<char>, JsonSpec),
> {
    apply_ovr(opt_fields(p.body), ab, 0)
}

pub open spec fn is_form_ct(ct: Option<Seq<char>>) -> bool {
    ct == Some("application/x-www-form-urlencoded"@) || ct == Some("multipart/form-data"@)
}

/// The serialized body: www-form-urlencoded under a form content type
/// (`None` where a field is not a flat scalar), compact JSON otherwise.
pub open spec fn gen_body_text(p: RequestProfile, ah: Seq<(Seq<char>, Seq<char>)>, ab: Seq<
    (Seq<char>, Seq<char>),
>) -> Option<Seq<char>> {
    let bf = gen_body(p, ab);
    if is_form_ct(content_type_of(gen_headers(p, ah))) {
        form_of(bf, 0)
    } else {
        Some(jtext(JsonSpec::Obj(bf)))
    }
}

impl RequestProfile {
    /// Pure structural check: `params` and `body`, where present, must be
    /// object-shaped. Returns the violation instead of failing silently.
    pub fn validate(&self) -> (r: Result<(), Error>)
        ensures
            r is Ok <==> valid_profile(*self),
            r is Err ==> r->Err_0.kind == ErrorKind::Validation,
    {
        let params_ok = match &self.params {
            Some(JsonValue::Obj(_)) => true,
            None => true,
            Some(_) => false,
        };
        if !params_ok {
            return Err(Error::new(ErrorKind::Validation));
        }
        let body_ok = match &self.body {
            Some(JsonValue::Obj(_)) => true,
            None => true,
            Some(_) => false,
        };
        if !body_ok {
            return Err(Error::new(ErrorKind::Validation));
        }
        Ok(())
    }

    /// Materializes the request: merges the overrides into headers, query
    /// and body, defaults the content type, and serializes the body for
    /// the resolved content type. Says exactly which failure comes on
    /// which input, and touches no network.
    #[verifier::loop_isolation(false)]
    #[verifier::rlimit(100)]
    pub fn generate(&self, args: &ExtraArgs) -> (r: Result<
        (Vec<(String, String)>, JsonValue, String),
        Error,
    >)
        ensures
            r is Ok <==> (valid_profile(*self) && headers_legal(self.headers.deep_view())
                && headers_legal(args.headers.deep_view()) && gen_body_text(
                *self,
                args.headers.deep_view(),
                args.body.deep_view(),
            ) is Some),
            r is Ok ==> {
                let (h, q, b) = r->Ok_0;
                &&& h.deep_view() == gen_headers(*self, args.headers.deep_view())
                &&& q.jv() == JsonSpec::Obj(gen_query(*self, args.query.deep_view()))
                &&& b@ == gen_body_text(
                    *self,
                    args.headers.deep_view(),
                    args.body.deep_view(),
                )->Some_0
            },
            r is Err ==> {
                let e = r->Err_0;
                ||| (!valid_profile(*self) && e.kind == ErrorKind::Validation)
                ||| (valid_profile(*self) && !(headers_legal(self.headers.deep_view())
                    && headers_legal(args.headers.deep_view())) && e.kind
                    == ErrorKind::RequestBuild)
                ||| (valid_profile(*self) && headers_legal(self.headers.deep_view())
                    && headers_legal(args.headers.deep_view()) && gen_body_text(
                    *self,
                    args.headers.deep_view(),
                    args.body.deep_view(),
                ) is None && e.kind == ErrorKind::Serialization)
            },
    {
        if let Err(e) = self.validate() {
            return Err(e);
        }
        // the profile's own headers must be legal HTTP headers too
        let ghost phv = self.headers.deep_view();
        let pn: usize = self.headers.len();
        let mut i0: usize = 0;
        while i0 < pn
            invariant
                i0 <= pn,
                forall|j: int|
                    0 <= j < i0 ==> is_header_name(#[trigger] phv[j].0) && is_header_value(
                        phv[j].1,
                    ),
            decreases pn - i0,
        {
            proof {
                assert(phv[i0 as int] == (self.headers@[i0 as int].0@, self.headers@[i0 as int].1@));
            }
            if !check_header_name(self.headers[i0].0.as_str()) || !check_header_value(
                self.headers[i0].1.as_str(),
            ) {
                proof {
                    assert(phv[i0 as int].0 == self.headers@[i0 as int].0@);
                    assert(phv[i0 as int].1 == self.headers@[i0 as int].1@);
                    assert(!headers_legal(phv));
                }
                return Err(Error::new(ErrorKind::RequestBuild));
            }
            proof {
                assert forall|j: int|
                    0 <= j < i0 + 1 implies is_header_name(#[trigger] phv[j].0) && is_header_value(
                    phv[j].1,
                ) by {
                    assert(0 <= j < i0 + 1);
                }
            }
            i0 += 1;
        }
        let ghost ahv = args.headers.deep_view();
        // headers: profile headers, overrides in order, content-type default
        let mut hs = clone_headers(&self.headers);
        let hn: usize = args.headers.len();
        let mut i: usize = 0;
        while i < hn
            invariant
                i <= hn,
                forall|j: int|
                    0 <= j < i ==> is_header_name(#[trigger] ahv[j].0) && is_header_value(
                        ahv[j].1,
                    ),
                headers_merge(hs.deep_view(), ahv, i as int) == headers_merge(
                    self.headers.deep_view(),
                    ahv,
                    0,
                ),
            decreases hn - i,
        {
            let k = &args.headers[i].0;
            let v = &args.headers[i].1;
            proof {
                assert(ahv[i as int] == (k@, v@));
            }
            if !check_header_name(k.as_str()) || !check_header_value(v.as_str()) {
                proof {
                    assert(!headers_legal(ahv));
                }
                return Err(Error::new(ErrorKind::RequestBuild));
            }
            proof {
                assert(is_header_name(ahv[i as int].0));
                assert(is_header_value(ahv[i as int].1));
            }
            headers_set_x(&mut hs, k.as_str(), v.as_str());
            proof {
                assert forall|j: int|
                    0 <= j < i + 1 implies is_header_name(#[trigger] ahv[j].0) && is_header_value(
                    ahv[j].1,
                ) by {
                    assert(0 <= j < i + 1);
                }
            }
            i += 1;
        }
        let has_ct = match header_lookup_x(&hs, "content-type") {
            Some(_) => true,
            None => false,
        };
        if !has_ct {
            headers_set_x(&mut hs, "content-type", "application/json");
            proof {
                assert(hs.deep_view() =~= gen_headers(*self, ahv));
            }
        }
        proof {
            assert(hs.deep_view() == gen_headers(*self, ahv));
        }
        // query: profile params object, overrides reparsed as scalars
        let ghost aqv = args.query.deep_view();
        let mut qf = clone_opt_fields(&self.params);
        let qn: usize = args.query.len();
        let mut i2: usize = 0;
        while i2 < qn
            invariant
                i2 <= qn,
                apply_ovr(obj_jv(qf@, 0), aqv, i2 as int) == gen_query(*self, aqv),
            decreases qn - i2,
        {
            proof {
                assert(aqv[i2 as int] == (args.query@[i2 as int].0@, args.query@[i2 as int].1@));
            }
            let val = parse_scalar(args.query[i2].1.as_str());
            obj_set_field(&mut qf, args.query[i2].0.as_str(), val);
            i2 += 1;
        }
        // body: same, then serialized for the resolved content type
        let ghost abv = args.body.deep_view();
        let mut bf = clone_opt_fields(&self.body);
        let bn: usize = args.body.len();
        let mut i3: usize = 0;
        while i3 < bn
            invariant
                i3 <= bn,
                apply_ovr(obj_jv(bf@, 0), abv, i3 as int) == gen_body(*self, abv),
            decreases bn - i3,
        {
            proof {
                assert(abv[i3 as int] == (args.body@[i3 as int].0@, args.body@[i3 as int].1@));
            }
            let val = parse_scalar(args.body[i3].1.as_str());
            obj_set_field(&mut bf, args.body[i3].0.as_str(), val);
            i3 += 1;
        }
        let is_form = match get_content_type(&hs) {
            Some(ct) => {
                str_eq(ct.as_str(), "application/x-www-form-urlencoded") || str_eq(
                    ct.as_str(),
                    "multipart/form-data",
                )
            },
            None => false,
        };
        let body_text: String;
        if is_form {
            match form_urlencode(&bf) {
                Ok(t) => {
                    body_text = t;
                },
                Err(()) => {
                    return Err(Error::new(ErrorKind::Serialization));
                },
            }
        } else {
            body_text = to_json_text(&JsonValue::Obj(bf));
        }
        let q = JsonValue::Obj(qf);
        Ok((hs, q, body_text))
    }
}

/// A copy of a header list with the same names and values.
fn clone_headers(hs: &Vec<(String, String)>) -> (r: Vec<(String, String)>)
    ensures
        r.deep_view() == hs.deep_view(),
{
    let mut acc: Vec<(String, String)> = Vec::new();
    let n: usize = hs.len();
    let mut i: usize = 0;
    while i < n
        invariant
            n == hs@.len(),
            i <= n,
            acc@.len() == i,
            forall|j: int|
                0 <= j < i ==> acc@[j].0@ == hs@[j].0@ && acc@[j].1@ == hs@[j].1@,
        decreases n - i,
    {
        acc.push((hs[i].0.clone(), hs[i].1.clone()));
        i += 1;
    }
    proof {
        assert(acc.deep_view() =~= hs.deep_view());
    }
    acc
}

/// A copy of the object fields behind an optional value, as `opt_fields`
/// says; absent or non-object values give no fields.
fn clone_opt_fields(o: &Option<JsonValue>) -> (r: Vec<(String, JsonValue)>)
    ensures
        obj_jv(r@, 0) == opt_fields(*o),
{
    match o {
        Some(v) => {
            let c = deep_clone(v);
            match c {
                JsonValue::Obj(f) => f,
                _ => {
                    proof {
                        crate::json::lemma_obj_jv(Seq::<(String, JsonValue)>::empty(), 0);
                    }
                    let r: Vec<(String, JsonValue)> = Vec::new();
                    proof {
                        assert(obj_jv(r@, 0) =~= Seq::<(Seq<char>, JsonSpec)>::empty());
                    }
                    r
                },
            }
        },
        None => {
            let r: Vec<(String, JsonValue)> = Vec::new();
            proof {
                assert(obj_jv(r@, 0) =~= Seq::<(Seq<char>, JsonSpec)>::empty());
            }
            r
        },
    }
}

/// What url::Url::parse makes of a string: `None` where it is not an
/// absolute URL; otherwise the URL without its query part, and the raw
/// query string (empty where there is none).
pub uninterp spec fn url_split_of(s: Seq<char>) -> Option<(Seq<char>, Seq<char>)>;

/// The decoded query key/value pairs of a URL, in order.
pub uninterp spec fn url_pairs_of(s: Seq<char>) -> Seq<(Seq<char>, Seq<char>)>;

/// Relies on url::Url::parse (reqwest re-exports it): it accepts exactly
/// the well-formed absolute URLs; `query` and `set_query(None)` then split
/// the query string off.
#[verifier::external_body]
fn split_url(s: &str) -> (r: Option<(String, String)>)
    ensures
        r is Some <==> url_split_of(s@) is Some,
        r is Some ==> (r->Some_0.0@, r->Some_0.1@) == url_split_of(s@)->Some_0,
{
    match reqwest::Url::parse(s) {
        Ok(mut u) => {
            let q = u.query().unwrap_or("").to_string();
            u.set_query(None);
            Some((u.to_string(), q))
        },
        Err(_) => None,
    }
}

/// Relies on url::Url::query_pairs: the percent-decoded key/value pairs of
/// the URL's query string, in their order of appearance.
#[verifier::external_body]
fn url_query_pairs(s: &str) -> (r: Option<Vec<(String, String)>>)
    ensures
        r is Some <==> url_split_of(s@) is Some,
        r is Some ==> r->Some_0.deep_view() == url_pairs_of(s@),
{
    match reqwest::Url::parse(s) {
        Ok(u) => Some(u.query_pairs().map(|(k, v)| (k.into_owned(), v.into_owned())).collect()),
        Err(_) => None,
    }
}

impl RequestProfile {
    /// The profile a bare URL describes: a GET of the URL without its
    /// query string, the query string reread as `params`, no headers and
    /// no body. Fails exactly on strings that are not absolute URLs.
    pub fn from_url_str(s: &str) -> (r: Result<RequestProfile, Error>)
        ensures
            r is Ok <==> url_split_of(s@) is Some,
            r is Err ==> r->Err_0.kind == ErrorKind::Config,
            r is Ok ==> {
                let p = r->Ok_0;
                &&& p.method == Method::Get
                &&& p.url@ == url_split_of(s@)->Some_0.0
                &&& p.headers@.len() == 0
                &&& p.body is None
                &&& opt_jv(p.params) == Some(
                    JsonSpec::Obj(apply_ovr(Seq::empty(), url_pairs_of(s@), 0)),
                )
            },
    {
        let base = match split_url(s) {
            Some((base, _)) => base,
            None => {
                return Err(Error::new(ErrorKind::Config));
            },
        };
        let pairs = match url_query_pairs(s) {
            Some(pairs) => pairs,
            None => {
                return Err(Error::new(ErrorKind::Config));
            },
        };
        let ghost pv = url_pairs_of(s@);
        let mut pf: Vec<(String, JsonValue)> = Vec::new();
        proof {
            crate::json::lemma_obj_jv(pf@, 0);
            assert(obj_jv(pf@, 0) =~= Seq::<(Seq<char>, JsonSpec)>::empty());
        }
        let pn: usize = pairs.len();
        let mut i: usize = 0;
        while i < pn
            invariant
                i <= pn,
                pn == pairs@.len(),
                pairs.deep_view() == pv,
                apply_ovr(obj_jv(pf@, 0), pv, i as int) == apply_ovr(Seq::empty(), pv, 0),
            decreases pn - i,
        {
            proof {
                assert(pv[i as int] == (pairs@[i as int].0@, pairs@[i as int].1@));
            }
            let val = parse_scalar(pairs[i].1.as_str());
            obj_set_field(&mut pf, pairs[i].0.as_str(), val);
            i += 1;
        }
        Ok(
            RequestProfile {
                method: Method::Get,
                url: base,
                params: Some(JsonValue::Obj(pf)),
                headers: Vec::new(),
                body: None,
            },
        )
    }

    /// The full request URL: the profile's URL with the materialized
    /// query object attached as a query string, where it has any fields;
    /// nested objects and arrays attach with bracket-path keys. Fails
    /// exactly where materialization fails, with the same error.
    pub fn get_url(&self, args: &ExtraArgs) -> (r: Result<String, Error>)
        ensures
            r is Ok <==> (valid_profile(*self) && headers_legal(self.headers.deep_view())
                && headers_legal(args.headers.deep_view()) && gen_body_text(
                *self,
                args.headers.deep_view(),
                args.body.deep_view(),
            ) is Some),
            r is Ok ==> ({
                let qf = gen_query(*self, args.query.deep_view());
                r->Ok_0@ == (if qf.len() == 0 {
                    self.url@
                } else {
                    self.url@ + seq!['?'] + query_string_of(qf)
                })
            }),
            r is Err ==> ({
                let e = r->Err_0;
                ||| (!valid_profile(*self) && e.kind == ErrorKind::Validation)
                ||| (valid_profile(*self) && !(headers_legal(self.headers.deep_view())
                    && headers_legal(args.headers.deep_view())) && e.kind
                    == ErrorKind::RequestBuild)
                ||| (valid_profile(*self) && headers_legal(self.headers.deep_view())
                    && headers_legal(args.headers.deep_view()) && gen_body_text(
                    *self,
                    args.headers.deep_view(),
                    args.body.deep_view(),
                ) is None && e.kind == ErrorKind::Serialization)
            }),
    {
        let (_h, q, _b) = match self.generate(args) {
            Ok(t) => t,
            Err(e) => {
                return Err(e);
            },
        };
        let qf = match q {
            JsonValue::Obj(f) => f,
            _ => {
                proof {
                    assert(false);
                }
                Vec::new()
            },
        };
        proof {
            crate::json::lemma_obj_jv(qf@, 0);
        }
        if qf.len() == 0 {
            return Ok(self.url.clone());
        }
        let qs = query_string(&qf);
        let mut out = self.url.clone();
        out.push('?');
        out.append(qs.as_str());
        proof {
            assert(out@ =~= self.url@ + seq!['?'] + qs@);
        }
        Ok(out)
    }
}
proof fn lemma_header_idx_push(
    hs: Seq<(Seq<char>, Seq<char>)>,
    name: Seq<char>,
    pair: (Seq<char>, Seq<char>),
    i: int,
)
    requires
        0 <= i <= hs.len(),
        header_idx(hs, name, i) == hs.len(),
        lower(pair.0) == lower(name),
    ensures
        header_idx(hs.push(pair), name, i) == hs.len(),
    decreases hs.len() - i,
{
    if i < hs.len() {
        lemma_header_idx_push(hs, name, pair, i + 1);
        assert(hs.push(pair)[i] == hs[i]);
    } else {
        assert(hs.push(pair)[i] == pair);
    }
}

/// With an empty override set, materialization is a function of the
/// profile alone: any two materializations of the same profile yield
/// byte-identical headers, query and body.
pub proof fn lemma_materialize_idempotent(p: RequestProfile, a1: ExtraArgs, a2: ExtraArgs)
    requires
        a1.headers.deep_view().len() == 0,
        a1.query.deep_view().len() == 0,
        a1.body.deep_view().len() == 0,
        a2.headers.deep_view().len() == 0,
        a2.query.deep_view().len() == 0,
        a2.body.deep_view().len() == 0,
    ensures
        gen_headers(p, a1.headers.deep_view()) == gen_headers(p, a2.headers.deep_view()),
        gen_query(p, a1.query.deep_view()) == gen_query(p, a2.query.deep_view()),
        gen_body_text(p, a1.headers.deep_view(), a1.body.deep_view()) == gen_body_text(
            p,
            a2.headers.deep_view(),
            a2.body.deep_view(),
        ),
{
}

/// A profile with no `Content-Type` header of its own, materialized with
/// no header overrides, carries `Content-Type: application/json` and a
/// compact-JSON body.
pub proof fn lemma_content_type_default(
    p: RequestProfile,
    ah: Seq<(Seq<char>, Seq<char>)>,
    ab: Seq<(Seq<char>, Seq<char>)>,
)
    requires
        header_idx(p.headers.deep_view(), "content-type"@, 0) == p.headers.deep_view().len(),
        ah.len() == 0,
    ensures
        header_lookup(gen_headers(p, ah), "content-type"@) == Some("application/json"@),
        gen_body_text(p, ah, ab) == Some(jtext(JsonSpec::Obj(gen_body(p, ab)))),
{
    let hv = p.headers.deep_view();
    let ct = "content-type"@;
    let pair = (ct, "application/json"@);
    assert(headers_merge(hv, ah, 0) == hv);
    lemma_header_idx_push(hv, ct, pair, 0);
    let gh = gen_headers(p, ah);
    assert(gh == hv.push(pair));
    assert(gh[hv.len() as int] == pair);
    assert(header_lookup(gh, ct) == Some("application/json"@));
    assert(content_type_of(gh) == Some("application/json"@)) by {
        reveal_strlit("application/json");
        assert(find_from("application/json"@, ';', 0) == 16) by {
            reveal_with_fuel(crate::text::find_from, 18);
        }
        assert("application/json"@.take(16) =~= "application/json"@);
    }
    assert(!is_form_ct(Some("application/json"@))) by {
        reveal_strlit("application/json");
        reveal_strlit("application/x-www-form-urlencoded");
        reveal_strlit("multipart/form-data");
        assert("application/x-www-form-urlencoded"@.len() == 33);
        assert("multipart/form-data"@.len() == 19);
    }
}

proof fn lemma_apply_ovr_last(
    fields: Seq<(Seq<char>, JsonSpec)>,
    ovs: Seq<(Seq<char>, Seq<char>)>,
    i: int,
)
    requires
        0 <= i < ovs.len(),
    ensures
        crate::json::obj_get(apply_ovr(fields, ovs, i), ovs.last().0) == Some(
            spec_parse_scalar(ovs.last().1),
        ),
    decreases ovs.len() - i,
{
    if i == ovs.len() - 1 {
        crate::json::lemma_override_wins(fields, ovs[i].0, spec_parse_scalar(ovs[i].1));
    } else {
        lemma_apply_ovr_last(obj_set(fields, ovs[i].0, spec_parse_scalar(ovs[i].1)), ovs, i + 1);
    }
}

/// Override precedence: the materialized body holds, at the key of the
/// last body override, that override's value reparsed as a scalar — so a
/// numeric-looking override value lands as a number, not a string,
/// whatever the profile's default said.
pub proof fn lemma_body_override_precedence(
    p: RequestProfile,
    ab: Seq<(Seq<char>, Seq<char>)>,
    k: Seq<char>,
    v: Seq<char>,
)
    requires
        ab.len() > 0,
        ab.last() == (k, v),
    ensures
        crate::json::obj_get(gen_body(p, ab), k) == Some(spec_parse_scalar(v)),
        crate::json::is_json_num(v) ==> crate::json::obj_get(gen_body(p, ab), k) == Some(
            JsonSpec::Num(v),
        ),
{
    lemma_apply_ovr_last(opt_fields(p.body), ab, 0);
    if crate::json::is_json_num(v) {
        reveal_strlit("true");
        reveal_strlit("false");
        reveal_strlit("null");
        assert(v != "true"@) by {
            if v == "true"@ {
                assert(v[0] == 't');
            }
        }
        assert(v != "false"@) by {
            if v == "false"@ {
                assert(v[0] == 'f');
            }
        }
        assert(v != "null"@) by {
            if v == "null"@ {
                assert(v[0] == 'n');
            }
        }
    }
}

} // verus!
