use xdiff::json::JsonValue;
use xdiff::req::{Method, RequestProfile};
use xdiff::res::{ResponseExt, ResponseProfile, is_default};
use xdiff::xdiff::{DiffConfig, DiffProfile, SendOutcome, ValidateConfig};
use xdiff::xreq::RequestConfig;
use xdiff::cli::{parse_key_val, KeyVal, KeyValType};
use xdiff::error::{ErrorKind, Side};
use xdiff::ExtraArgs;

fn s(x: &str) -> String {
    x.to_string()
}

fn bare_profile(body: Option<JsonValue>) -> RequestProfile {
    RequestProfile {
        method: Method::Get,
        url: s("http://example.com/api"),
        params: None,
        headers: Vec::new(),
        body,
    }
}

fn args_with_body(pairs: &[(&str, &str)]) -> ExtraArgs {
    let mut a = ExtraArgs::new();
    for (k, v) in pairs {
        a.body.push((s(k), s(v)));
    }
    a
}

#[test]
fn materialize_is_idempotent_without_overrides() {
    let p = bare_profile(Some(JsonValue::Obj(vec![(s("a"), JsonValue::Num(s("1")))])));
    let r1 = p.generate(&ExtraArgs::new()).unwrap();
    let r2 = p.generate(&ExtraArgs::new()).unwrap();
    assert_eq!(r1.0, r2.0);
    assert_eq!(r1.1, r2.1);
    assert_eq!(r1.2, r2.2);
}

#[test]
fn override_wins_and_becomes_numeric() {
    let p = bare_profile(Some(JsonValue::Obj(vec![(s("a"), JsonValue::Num(s("1")))])));
    let (_h, _q, body) = p.generate(&args_with_body(&[("a", "2")])).unwrap();
    assert_eq!(body, "{\"a\":2}");
}

#[test]
fn content_type_defaults_to_json() {
    let p = bare_profile(Some(JsonValue::Obj(vec![(s("a"), JsonValue::Num(s("1")))])));
    let (h, _q, body) = p.generate(&ExtraArgs::new()).unwrap();
    assert!(h.iter().any(|(k, v)| k == "content-type" && v == "application/json"));
    assert_eq!(body, "{\"a\":1}");
}

#[test]
fn form_content_type_changes_encoding() {
    let mut p = bare_profile(Some(JsonValue::Obj(vec![(s("a"), JsonValue::Str(s("x y")))])));
    p.headers.push((s("Content-Type"), s("application/x-www-form-urlencoded")));
    let (_h, _q, body) = p.generate(&ExtraArgs::new()).unwrap();
    assert_eq!(body, "a=x+y");
    // a nested body value cannot be form-encoded
    let mut p2 = bare_profile(Some(JsonValue::Obj(vec![(
        s("a"),
        JsonValue::Obj(vec![(s("b"), JsonValue::Num(s("1")))]),
    )])));
    p2.headers.push((s("Content-Type"), s("application/x-www-form-urlencoded")));
    let e = p2.generate(&ExtraArgs::new()).unwrap_err();
    assert_eq!(e.kind, ErrorKind::Serialization);
}

#[test]
fn validate_rejects_non_object_body() {
    let p = bare_profile(Some(JsonValue::Num(s("5"))));
    let e = p.validate().unwrap_err();
    assert_eq!(e.kind, ErrorKind::Validation);
    let e2 = p.generate(&ExtraArgs::new()).unwrap_err();
    assert_eq!(e2.kind, ErrorKind::Validation);
    assert!(bare_profile(None).validate().is_ok());
}

#[test]
fn illegal_override_header_is_rejected() {
    let p = bare_profile(None);
    let mut a = ExtraArgs::new();
    a.headers.push((s("bad name"), s("v")));
    let e = p.generate(&a).unwrap_err();
    assert_eq!(e.kind, ErrorKind::RequestBuild);
}

#[test]
fn from_url_str_reads_query_as_params() {
    let p = RequestProfile::from_url_str("http://example.com/todo?a=1&b=x").unwrap();
    assert_eq!(p.method, Method::Get);
    assert_eq!(p.url, "http://example.com/todo");
    assert_eq!(
        p.params,
        Some(JsonValue::Obj(vec![
            (s("a"), JsonValue::Num(s("1"))),
            (s("b"), JsonValue::Str(s("x"))),
        ]))
    );
    assert_eq!(p.body, None);
    let bad = RequestProfile::from_url_str("not a url").unwrap_err();
    assert_eq!(bad.kind, ErrorKind::Config);
}

#[test]
fn get_url_encodes_nested_query_with_bracket_paths() {
    let mut p = bare_profile(None);
    p.params = Some(JsonValue::Obj(vec![
        (s("a"), JsonValue::Obj(vec![(s("b"), JsonValue::Num(s("1")))])),
        (
            s("c"),
            JsonValue::Arr(vec![JsonValue::Bool(true), JsonValue::Str(s("x y"))]),
        ),
        (s("n"), JsonValue::Null),
    ]));
    let url = p.get_url(&ExtraArgs::new()).unwrap();
    assert_eq!(url, "http://example.com/api?a[b]=1&c[0]=true&c[1]=x+y&n=");
    // a field holding an empty object contributes no pairs
    let mut p2 = bare_profile(None);
    p2.params = Some(JsonValue::Obj(vec![(s("a"), JsonValue::Obj(vec![]))]));
    assert_eq!(p2.get_url(&ExtraArgs::new()).unwrap(), "http://example.com/api?");
}

#[test]
fn generate_rejects_illegal_profile_header() {
    let mut p = bare_profile(None);
    p.headers.push((s("bad header"), s("v")));
    let e = p.generate(&ExtraArgs::new()).unwrap_err();
    assert_eq!(e.kind, ErrorKind::RequestBuild);
    let e2 = p.get_url(&ExtraArgs::new()).unwrap_err();
    assert_eq!(e2.kind, ErrorKind::RequestBuild);
}

#[test]
fn diff_fails_fast_on_invalid_profile() {
    let invalid = DiffProfile::new(
        bare_profile(None),
        bare_profile(Some(JsonValue::Num(s("7")))),
        ResponseProfile::default(),
    );
    let r1 = json_response("{}", &[]);
    let r2 = json_response("{}", &[]);
    let e = invalid
        .diff(SendOutcome::Delivered(r1), SendOutcome::Delivered(r2))
        .unwrap_err();
    assert_eq!(e.kind, ErrorKind::Validation);
    assert_eq!(e.side, Some(Side::Req2));
    // validation comes before the transport check
    let e2 = invalid
        .diff(SendOutcome::Failed(s("down")), SendOutcome::Failed(s("down")))
        .unwrap_err();
    assert_eq!(e2.kind, ErrorKind::Validation);
}

#[test]
fn diff_profile_validate_names_the_failing_side() {
    let bad2 = DiffProfile::new(
        bare_profile(None),
        bare_profile(Some(JsonValue::Bool(true))),
        ResponseProfile::default(),
    );
    let e = bad2.validate().unwrap_err();
    assert_eq!(e.kind, ErrorKind::Validation);
    assert_eq!(e.side, Some(Side::Req2));
    let bad1 = DiffProfile::new(
        bare_profile(Some(JsonValue::Bool(true))),
        bare_profile(None),
        ResponseProfile::default(),
    );
    assert_eq!(bad1.validate().unwrap_err().side, Some(Side::Req1));
}

#[test]
fn request_config_validation_names_the_profile() {
    let rc = RequestConfig::new(vec![
        (s("fine"), bare_profile(None)),
        (s("oops"), bare_profile(Some(JsonValue::Num(s("2"))))),
    ]);
    let e = rc.validate().unwrap_err();
    assert_eq!(e.kind, ErrorKind::Validation);
    assert_eq!(e.profile, Some(s("oops")));
}

#[test]
fn get_url_attaches_query() {
    let p = RequestProfile::from_url_str("http://example.com/todo?a=1").unwrap();
    let url = p.get_url(&ExtraArgs::new()).unwrap();
    assert_eq!(url, "http://example.com/todo?a=1");
    let bare = bare_profile(None);
    assert_eq!(bare.get_url(&ExtraArgs::new()).unwrap(), "http://example.com/api");
}

fn json_response(body: &str, extra_headers: &[(&str, &str)]) -> ResponseExt {
    let mut headers = vec![(s("content-type"), s("application/json"))];
    for (k, v) in extra_headers {
        headers.push((s(k), s(v)));
    }
    ResponseExt {
        version: s("HTTP/1.1"),
        status: 200,
        reason: s("OK"),
        headers,
        body: s(body),
    }
}

#[test]
fn normalization_filters_body_fields() {
    let res = json_response("{\"id\":1,\"token\":\"secret\",\"name\":\"x\"}", &[]);
    let prof = ResponseProfile::new(vec![], vec![s("token")]);
    let text = res.filter_text(&prof).unwrap();
    assert!(text.ends_with("{\n  \"id\": 1,\n  \"name\": \"x\"\n}"));
    assert!(!text.contains("token"));
}

#[test]
fn normalization_filters_headers() {
    let res = json_response("{}", &[("Date", "today"), ("X-Request-Id", "42")]);
    let prof = ResponseProfile::new(vec![s("Date")], vec![]);
    let text = res.filter_text(&prof).unwrap();
    assert!(text.contains("X-Request-Id: 42\n"));
    assert!(!text.contains("Date: today"));
    assert!(text.starts_with("HTTP/1.1 200 OK\n"));
}

#[test]
fn normalization_non_object_json_yields_empty_body() {
    let res = json_response("[1,2,3]", &[]);
    let prof = ResponseProfile::default();
    let text = res.filter_text(&prof).unwrap();
    assert!(text.ends_with("\n\n"));
}

#[test]
fn normalization_rejects_unparsable_json() {
    let res = json_response("{broken", &[]);
    let prof = ResponseProfile::default();
    let e = res.filter_text(&prof).unwrap_err();
    assert_eq!(e.kind, ErrorKind::ResponseParse);
}

#[test]
fn normalization_passes_plain_text_through() {
    let mut res = json_response("hello world", &[]);
    res.headers[0].1 = s("text/plain");
    let text = res.filter_text(&ResponseProfile::default()).unwrap();
    assert!(text.ends_with("\nhello world"));
}

fn version_scenario() -> (DiffProfile, ResponseExt, ResponseExt) {
    let profile = DiffProfile::new(
        bare_profile(None),
        bare_profile(None),
        ResponseProfile::default(),
    );
    let r1 = json_response("{\"name\":\"todo\",\"version\":\"v1\"}", &[]);
    let r2 = json_response("{\"name\":\"todo\",\"version\":\"v2\"}", &[]);
    (profile, r1, r2)
}

#[test]
fn end_to_end_diff_marks_only_the_changed_line() {
    let (profile, r1, r2) = version_scenario();
    let out = profile
        .diff(SendOutcome::Delivered(r1), SendOutcome::Delivered(r2))
        .unwrap();
    let deletes: Vec<&str> = out.lines().filter(|l| l.starts_with('-')).collect();
    let inserts: Vec<&str> = out.lines().filter(|l| l.starts_with('+')).collect();
    assert_eq!(deletes.len(), 1);
    assert_eq!(inserts.len(), 1);
    assert!(deletes[0].contains("\"version\": \"v1\""));
    assert!(inserts[0].contains("\"version\": \"v2\""));
    assert!(out.lines().all(|l| {
        l.starts_with(' ') || l.starts_with('-') || l.starts_with('+')
    }));
    assert!(out.lines().filter(|l| l.starts_with(' ')).count() >= 4);
}

#[test]
fn transport_failure_aborts_with_the_failing_side() {
    let (profile, _r1, r2) = version_scenario();
    let e = profile
        .diff(
            SendOutcome::Failed(s("connection refused")),
            SendOutcome::Delivered(r2),
        )
        .unwrap_err();
    assert_eq!(e.kind, ErrorKind::Transport);
    assert_eq!(e.side, Some(Side::Req1));
    assert_eq!(e.detail, "connection refused");
}

#[test]
fn registry_lookup_and_validation() {
    let good = DiffProfile::new(bare_profile(None), bare_profile(None), ResponseProfile::default());
    let cfg = DiffConfig::new(vec![(s("todo"), good)]);
    assert!(cfg.get_profile("todo").is_some());
    assert!(cfg.get_profile("missing").is_none());
    let missing = cfg.profile_named("missing").unwrap_err();
    assert_eq!(missing.kind, ErrorKind::ProfileNotFound);
    assert_eq!(missing.profile, Some(s("missing")));
    assert!(cfg.validate().is_ok());

    let bad = DiffProfile::new(
        bare_profile(Some(JsonValue::Num(s("1")))),
        bare_profile(None),
        ResponseProfile::default(),
    );
    let cfg2 = DiffConfig::new(vec![(s("broken"), bad)]);
    let e = cfg2.validate().unwrap_err();
    assert_eq!(e.kind, ErrorKind::Validation);
    assert_eq!(e.profile, Some(s("broken")));

    let rc = RequestConfig::new(vec![(s("one"), bare_profile(None))]);
    assert!(rc.get_profile("one").is_some());
    assert!(ValidateConfig::validate(&rc).is_ok());
    assert!(is_default(&ResponseProfile::default()));
}

#[test]
fn key_val_classification() {
    let h = parse_key_val("%accept = text/plain").unwrap();
    assert_eq!(h.key_type, KeyValType::Header);
    assert_eq!(h.key, "accept");
    assert_eq!(h.val, "text/plain");
    let b = parse_key_val("@count=10").unwrap();
    assert_eq!(b.key_type, KeyValType::Body);
    assert_eq!(b.key, "count");
    let q = parse_key_val("page=2").unwrap();
    assert_eq!(q.key_type, KeyValType::Query);
    assert_eq!(q.key, "page");
    assert_eq!(parse_key_val("noequals").unwrap_err().kind, ErrorKind::Config);
    assert_eq!(parse_key_val("1x=2").unwrap_err().kind, ErrorKind::Config);
    assert_eq!(parse_key_val(" = v").unwrap_err().kind, ErrorKind::Config);
}

#[test]
fn extra_args_partition_keeps_order() {
    let kvs = vec![
        KeyVal { key_type: KeyValType::Query, key: s("q1"), val: s("1") },
        KeyVal { key_type: KeyValType::Header, key: s("h1"), val: s("2") },
        KeyVal { key_type: KeyValType::Query, key: s("q2"), val: s("3") },
        KeyVal { key_type: KeyValType::Body, key: s("b1"), val: s("4") },
    ];
    let a = ExtraArgs::from_key_vals(kvs);
    assert_eq!(a.query, vec![(s("q1"), s("1")), (s("q2"), s("3"))]);
    assert_eq!(a.headers, vec![(s("h1"), s("2"))]);
    assert_eq!(a.body, vec![(s("b1"), s("4"))]);
}
