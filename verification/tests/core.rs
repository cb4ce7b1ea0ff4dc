use xdiff::json::{JsonValue, parse_scalar, to_json_text, to_pretty_text, is_json_number, form_urlencode};
use xdiff::diff::{Tag, diff_lines, diff_text, split_lines};
use xdiff::res::{ResponseExt, get_body_text};

fn s(x: &str) -> String {
    x.to_string()
}

#[test]
fn scalar_parsing_types() {
    assert_eq!(parse_scalar("12"), JsonValue::Num(s("12")));
    assert_eq!(parse_scalar("-0.5e3"), JsonValue::Num(s("-0.5e3")));
    assert_eq!(parse_scalar("true"), JsonValue::Bool(true));
    assert_eq!(parse_scalar("false"), JsonValue::Bool(false));
    assert_eq!(parse_scalar("null"), JsonValue::Null);
    assert_eq!(parse_scalar("abc"), JsonValue::Str(s("abc")));
    // a malformed numeric string falls back to a plain string
    assert_eq!(parse_scalar("01"), JsonValue::Str(s("01")));
    assert_eq!(parse_scalar("1."), JsonValue::Str(s("1.")));
    assert_eq!(parse_scalar("1e"), JsonValue::Str(s("1e")));
}

#[test]
fn number_grammar() {
    assert!(is_json_number("0"));
    assert!(is_json_number("-0"));
    assert!(is_json_number("10.25"));
    assert!(is_json_number("2E+8"));
    assert!(!is_json_number(""));
    assert!(!is_json_number("-"));
    assert!(!is_json_number("00"));
    assert!(!is_json_number("1.e3"));
    assert!(!is_json_number("+1"));
}

#[test]
fn compact_text_escapes() {
    let v = JsonValue::Obj(vec![
        (s("a"), JsonValue::Str(s("x\"y\\z"))),
        (s("b"), JsonValue::Arr(vec![JsonValue::Num(s("1")), JsonValue::Null])),
    ]);
    assert_eq!(to_json_text(&v), "{\"a\":\"x\\\"y\\\\z\",\"b\":[1,null]}");
    let ctrl = JsonValue::Str(s("a\nb\u{1}"));
    assert_eq!(to_json_text(&ctrl), "\"a\\nb\\u0001\"");
}

#[test]
fn pretty_text_layout() {
    let v = JsonValue::Obj(vec![
        (s("id"), JsonValue::Num(s("1"))),
        (s("tags"), JsonValue::Arr(vec![JsonValue::Str(s("x")), JsonValue::Str(s("y"))])),
    ]);
    assert_eq!(
        to_pretty_text(&v),
        "{\n  \"id\": 1,\n  \"tags\": [\n    \"x\",\n    \"y\"\n  ]\n}"
    );
    assert_eq!(to_pretty_text(&JsonValue::Obj(vec![])), "{}");
    assert_eq!(to_pretty_text(&JsonValue::Arr(vec![])), "[]");
}

#[test]
fn json_body_parses_through_normalization() {
    let res = ResponseExt {
        version: s("HTTP/1.1"),
        status: 200,
        reason: s("OK"),
        headers: vec![(s("content-type"), s("application/json"))],
        body: s("{\"b\":{\"c\":-2.5},\"a\":[1,true,null,\"x\"]}"),
    };
    let body = get_body_text(&res, &Vec::new()).unwrap();
    // the parsed tree, re-printed: nested values kept, keys in the
    // parser's stable (sorted) order
    assert_eq!(
        body,
        "{\n  \"a\": [\n    1,\n    true,\n    null,\n    \"x\"\n  ],\n  \"b\": {\n    \"c\": -2.5\n  }\n}"
    );
}

#[test]
fn form_encoding() {
    let fields = vec![
        (s("a b"), JsonValue::Str(s("x&y"))),
        (s("n"), JsonValue::Num(s("3"))),
        (s("ok"), JsonValue::Bool(true)),
    ];
    assert_eq!(form_urlencode(&fields).unwrap(), "a+b=x%26y&n=3&ok=true");
    let unicode = vec![(s("k"), JsonValue::Str(s("\u{e9}")))];
    assert_eq!(form_urlencode(&unicode).unwrap(), "k=%C3%A9");
    let nested = vec![(s("k"), JsonValue::Obj(vec![]))];
    assert!(form_urlencode(&nested).is_err());
}

#[test]
fn split_lines_shapes() {
    let t: Vec<String> = split_lines("a\r\nb\nc");
    assert_eq!(t, vec![s("a"), s("b"), s("c")]);
    assert_eq!(split_lines(""), vec![s("")]);
    assert_eq!(split_lines("a\n"), vec![s("a"), s("")]);
}

#[test]
fn diff_identity_all_equal() {
    let x = "alpha\nbeta\ngamma";
    let lines = split_lines(x);
    let d = diff_lines(&lines, &lines);
    assert_eq!(d.len(), 3);
    assert!(d.iter().all(|l| l.tag == Tag::Equal));
    // the empty text is one empty line, still Equal
    let e = split_lines("");
    let de = diff_lines(&e, &e);
    assert_eq!(de.len(), 1);
    assert_eq!(de[0].tag, Tag::Equal);
}

#[test]
fn diff_symmetry_swaps_tags() {
    let a = split_lines("one\ntwo\nthree");
    let b = split_lines("one\n2\nthree\nfour");
    let d_ab = diff_lines(&a, &b);
    let d_ba = diff_lines(&b, &a);
    assert_eq!(d_ab.len(), d_ba.len());
    for (x, y) in d_ab.iter().zip(d_ba.iter()) {
        let swapped = match x.tag {
            Tag::Equal => Tag::Equal,
            Tag::Insert => Tag::Delete,
            Tag::Delete => Tag::Insert,
        };
        assert_eq!(y.tag, swapped);
        assert_eq!(y.content, x.content);
    }
}

#[test]
fn diff_disjoint_and_render() {
    let r = diff_text("a", "b");
    assert_eq!(r, "-a\n+b");
    let r2 = diff_text("same", "same");
    assert_eq!(r2, " same");
    let r3 = diff_text("keep\nold", "keep\nnew");
    assert_eq!(r3, " keep\n+new\n-old");
}
