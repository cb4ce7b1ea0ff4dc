use vstd::prelude::*;
use vstd::string::*;

verus! {

broadcast use vstd::seq::axiom_seq_index_decreases, vstd::std_specs::vec::axiom_vec_decreases_to_view, vstd::std_specs::vec::axiom_vec_index_decreases;

/// The mathematical shape of a JSON document: the model every contract in
/// this crate speaks of. Numbers are kept as their lexeme so that no
/// precision is lost and no floating point enters the model.
pub enum JsonSpec {
    Null,
    Bool(bool),
    Num(Seq<char>),
    Str(Seq<char>),
    Arr(Seq<JsonSpec>),
    Obj(Seq<(Seq<char>, JsonSpec)>),
}

/// A JSON document as the executable code holds it. Object fields keep
/// their stored order; setting an existing key keeps its position.
#[derive(Debug, PartialEq, Eq)]
pub enum JsonValue {
    Null,
    Bool(bool),
    Num(String),
    Str(String),
    Arr(Vec<JsonValue>),
    Obj(Vec<(String, JsonValue)>),
}

impl JsonValue {
    pub open spec fn jv(self) -> JsonSpec
        decreases self, 1int,
    {
        match self {
            JsonValue::Null => JsonSpec::Null,
            JsonValue::Bool(b) => JsonSpec::Bool(b),
            JsonValue::Num(s) => JsonSpec::Num(s@),
            JsonValue::Str(s) => JsonSpec::Str(s@),
            JsonValue::Arr(items) => JsonSpec::Arr(arr_jv(items@, 0)),
            JsonValue::Obj(fields) => JsonSpec::Obj(obj_jv(fields@, 0)),
        }
    }
}

impl View for JsonValue {
    type V = JsonSpec;

    open spec fn view(&self) -> JsonSpec {
        self.jv()
    }
}

pub open spec fn arr_jv(s: Seq<JsonValue>, i: int) -> Seq<JsonSpec>
    decreases s, s.len() - i, 0int,
{
    if i < 0 || i >= s.len() {
        Seq::empty()
    } else {
        seq![s[i].jv()] + arr_jv(s, i + 1)
    }
}

pub open spec fn obj_jv(s: Seq<(String, JsonValue)>, i: int) -> Seq<(Seq<char>, JsonSpec)>
    decreases s, s.len() - i, 0int,
{
    if i < 0 || i >= s.len() {
        Seq::empty()
    } else {
        seq![(s[i].0@, s[i].1.jv())] + obj_jv(s, i + 1)
    }
}

pub proof fn lemma_arr_jv(s: Seq<JsonValue>, i: int)
    requires
        0 <= i <= s.len(),
    ensures
        arr_jv(s, i).len() == s.len() - i,
        forall|j: int| 0 <= j < s.len() - i ==> arr_jv(s, i)[j] == s[i + j].jv(),
    decreases s.len() - i,
{
    if i < s.len() {
        lemma_arr_jv(s, i + 1);
    }
}

pub proof fn lemma_obj_jv(s: Seq<(String, JsonValue)>, i: int)
    requires
        0 <= i <= s.len(),
    ensures
        obj_jv(s, i).len() == s.len() - i,
        forall|j: int| 0 <= j < s.len() - i ==> obj_jv(s, i)[j] == (s[i + j].0@, s[i + j].1.jv()),
    decreases s.len() - i,
{
    if i < s.len() {
        lemma_obj_jv(s, i + 1);
    }
}

/// The lower-case hexadecimal digit for `n` (0 to 15).
pub open spec fn hex_digit(n: int) -> char {
    if n < 10 {
        ((48 + n) as u8) as char
    } else {
        ((87 + n) as u8) as char
    }
}

/// How one character appears inside a JSON string literal.
pub open spec fn esc_char(c: char) -> Seq<char> {
    if c == '"' {
        seq!['\\', '"']
    } else if c == '\\' {
        seq!['\\', '\\']
    } else if c == '\n' {
        seq!['\\', 'n']
    } else if c == '\r' {
        seq!['\\', 'r']
    } else if c == '\t' {
        seq!['\\', 't']
    } else if c == '\u{0008}' {
        seq!['\\', 'b']
    } else if c == '\u{000C}' {
        seq!['\\', 'f']
    } else if (c as u32) < 32 {
        seq!['\\', 'u', '0', '0', hex_digit((c as u32 / 16) as int), hex_digit((c as u32 % 16) as int)]
    } else {
        seq![c]
    }
}

/// The escaped form of a string's characters from position `i` on.
pub open spec fn esc_from(s: Seq<char>, i: int) -> Seq<char>
    decreases s.len() - i,
{
    if i < 0 || i >= s.len() {
        Seq::empty()
    } else {
        esc_char(s[i]) + esc_from(s, i + 1)
    }
}

/// A JSON string literal: quotes around the escaped characters.
pub open spec fn jquoted(s: Seq<char>) -> Seq<char> {
    seq!['"'] + esc_from(s, 0) + seq!['"']
}

/// The compact (single-line, no spaces) JSON text of a value.
pub open spec fn jtext(v: JsonSpec) -> Seq<char>
    decreases v, 1int,
{
    match v {
        JsonSpec::Null => "null"@,
        JsonSpec::Bool(b) => if b {
            "true"@
        } else {
            "false"@
        },
        JsonSpec::Num(s) => s,
        JsonSpec::Str(s) => jquoted(s),
        JsonSpec::Arr(items) => seq!['['] + jlist(items, 0) + seq![']'],
        JsonSpec::Obj(fields) => seq!['{'] + jfields(fields, 0) + seq!['}'],
    }
}

pub open spec fn jlist(items: Seq<JsonSpec>, i: int) -> Seq<char>
    decreases items, items.len() - i, 0int,
{
    if i < 0 || i >= items.len() {
        Seq::empty()
    } else {
        jtext(items[i]) + (if i + 1 < items.len() {
            seq![',']
        } else {
            Seq::<char>::empty()
        }) + jlist(items, i + 1)
    }
}

pub open spec fn jfields(fields: Seq<(Seq<char>, JsonSpec)>, i: int) -> Seq<char>
    decreases fields, fields.len() - i, 0int,
{
    if i < 0 || i >= fields.len() {
        Seq::empty()
    } else {
        jquoted(fields[i].0) + seq![':'] + jtext(fields[i].1) + (if i + 1 < fields.len() {
            seq![',']
        } else {
            Seq::<char>::empty()
        }) + jfields(fields, i + 1)
    }
}

/// Appends the escaped characters of `s` to `out`.
fn esc_push(out: &mut String, s: &str)
    ensures
        final(out)@ == old(out)@ + esc_from(s@, 0),
{
    let n: usize = s.unicode_len();
    let mut i: usize = 0;
    while i < n
        invariant
            n == s@.len(),
            i <= n,
            out@ + esc_from(s@, i as int) == old(out)@ + esc_from(s@, 0),
        decreases n - i,
    {
        let ghost pre = out@;
        let c = s.get_char(i);
        if c == '"' {
            out.push('\\');
            out.push('"');
        } else if c == '\\' {
            out.push('\\');
            out.push('\\');
        } else if c == '\n' {
            out.push('\\');
            out.push('n');
        } else if c == '\r' {
            out.push('\\');
            out.push('r');
        } else if c == '\t' {
            out.push('\\');
            out.push('t');
        } else if c == '\u{0008}' {
            out.push('\\');
            out.push('b');
        } else if c == '\u{000C}' {
            out.push('\\');
            out.push('f');
        } else if (c as u32) < 32 {
            out.push('\\');
            out.push('u');
            out.push('0');
            out.push('0');
            let u: u32 = c as u32;
            let hi: u32 = u / 16;
            let lo: u32 = u % 16;
            out.push(if hi < 10 {
                ((48 + hi) as u8) as char
            } else {
                ((87 + hi) as u8) as char
            });
            out.push(if lo < 10 {
                ((48 + lo) as u8) as char
            } else {
                ((87 + lo) as u8) as char
            });
        } else {
            out.push(c);
        }
        proof {
            assert(out@ =~= pre + esc_char(s@[i as int]));
        }
        i += 1;
        proof {
            assert(esc_char(s@[i - 1]) + esc_from(s@, i as int) =~= esc_from(s@, i - 1));
            assert(pre + (esc_char(s@[i - 1]) + esc_from(s@, i as int)) =~= (pre + esc_char(
                s@[i - 1],
            )) + esc_from(s@, i as int));
        }
    }
    proof {
        assert(out@ + esc_from(s@, n as int) =~= out@);
    }
}

/// Appends a JSON string literal (quoted, escaped) to `out`.
fn quoted_push(out: &mut String, s: &str)
    ensures
        final(out)@ == old(out)@ + jquoted(s@),
{
    let ghost pre = out@;
    out.push('"');
    esc_push(out, s);
    out.push('"');
    proof {
        assert(out@ =~= pre + jquoted(s@));
    }
}

/// Appends the compact JSON text of `v` to `out`.
#[verifier::loop_isolation(false)]
pub fn jtext_push(out: &mut String, v: &JsonValue)
    ensures
        final(out)@ == old(out)@ + jtext(v@),
    decreases v,
{
    let ghost pre = out@;
    match v {
        JsonValue::Null => {
            out.append("null");
        },
        JsonValue::Bool(b) => {
            if *b {
                out.append("true");
            } else {
                out.append("false");
            }
        },
        JsonValue::Num(s) => {
            out.append(s.as_str());
        },
        JsonValue::Str(s) => {
            quoted_push(out, s.as_str());
        },
        JsonValue::Arr(items) => {
            out.push('[');
            let n: usize = items.len();
            let mut i: usize = 0;
            proof {
                lemma_arr_jv(items@, 0);
            }
            while i < n
                invariant
                    n == items@.len(),
                    i <= n,
                    arr_jv(items@, 0).len() == n,
                    forall|j: int| 0 <= j < n ==> arr_jv(items@, 0)[j] == items@[j].jv(),
                    out@ + jlist(arr_jv(items@, 0), i as int) == pre + seq!['['] + jlist(
                        arr_jv(items@, 0),
                        0,
                    ),
                decreases n - i,
            {
                let ghost mid = out@;
                proof {
                    assert(decreases_to!(*v => *items));
                    assert(decreases_to!(*items => items@));
                    assert(decreases_to!(*v => items@[i as int]));
                }
                jtext_push(out, &items[i]);
                if i + 1 < n {
                    out.push(',');
                }
                proof {
                    let ghost items_v = arr_jv(items@, 0);
                    let sep: Seq<char> = if i + 1 < n {
                        seq![',']
                    } else {
                        Seq::<char>::empty()
                    };
                    assert(out@ =~= mid + (jtext(items_v[i as int]) + sep));
                    assert(jtext(items_v[i as int]) + sep + jlist(items_v, i + 1) =~= jlist(
                        items_v,
                        i as int,
                    ));
                    assert(mid + ((jtext(items_v[i as int]) + sep) + jlist(items_v, i + 1)) =~= (mid
                        + (jtext(items_v[i as int]) + sep)) + jlist(items_v, i + 1));
                }
                i += 1;
            }
            out.push(']');
            proof {
                assert(out@ + Seq::<char>::empty() =~= out@);
                assert(out@ =~= pre + jtext(v@)) by {
                    assert(jlist(arr_jv(items@, 0), n as int) =~= Seq::<char>::empty());
                    assert(pre + seq!['['] + jlist(arr_jv(items@, 0), 0) + seq![']'] =~= pre + (
                    seq!['['] + jlist(arr_jv(items@, 0), 0) + seq![']']));
                }
            }
        },
        JsonValue::Obj(fields) => {
            out.push('{');
            let n: usize = fields.len();
            let mut i: usize = 0;
            proof {
                lemma_obj_jv(fields@, 0);
            }
            while i < n
                invariant
                    n == fields@.len(),
                    i <= n,
                    obj_jv(fields@, 0).len() == n,
                    forall|j: int|
                        0 <= j < n ==> obj_jv(fields@, 0)[j] == (fields@[j].0@, fields@[j].1.jv()),
                    out@ + jfields(obj_jv(fields@, 0), i as int) == pre + seq!['{'] + jfields(
                        obj_jv(fields@, 0),
                        0,
                    ),
                decreases n - i,
            {
                let ghost mid = out@;
                quoted_push(out, fields[i].0.as_str());
                out.push(':');
                proof {
                    assert(decreases_to!(*v => *fields));
                    assert(decreases_to!(*fields => fields@));
                    assert(decreases_to!(*v => fields@[i as int].1));
                }
                jtext_push(out, &fields[i].1);
                if i + 1 < n {
                    out.push(',');
                }
                proof {
                    let ghost fv = obj_jv(fields@, 0);
                    let sep: Seq<char> = if i + 1 < n {
                        seq![',']
                    } else {
                        Seq::<char>::empty()
                    };
                    let ghost piece = jquoted(fv[i as int].0) + seq![':'] + jtext(fv[i as int].1) + sep;
                    assert(out@ =~= mid + piece);
                    assert(piece + jfields(fv, i + 1) =~= jfields(fv, i as int));
                    assert(mid + (piece + jfields(fv, i + 1)) =~= (mid + piece) + jfields(
                        fv,
                        i + 1,
                    ));
                }
                i += 1;
            }
            out.push('}');
            proof {
                assert(out@ =~= pre + jtext(v@)) by {
                    assert(jfields(obj_jv(fields@, 0), n as int) =~= Seq::<char>::empty());
                    assert(pre + seq!['{'] + jfields(obj_jv(fields@, 0), 0) + seq!['}'] =~= pre + (
                    seq!['{'] + jfields(obj_jv(fields@, 0), 0) + seq!['}']));
                }
            }
        },
    }
}

/// The compact JSON text of `v`: what the body of an `application/json`
/// request carries.
pub fn to_json_text(v: &JsonValue) -> (r: String)
    ensures
        r@ == jtext(v@),
{
    let mut out: String = String::new();
    jtext_push(&mut out, v);
    proof {
        assert(Seq::<char>::empty() + jtext(v@) =~= jtext(v@));
    }
    out
}


/// A copy of `v` whose mathematical value is the same.
#[verifier::loop_isolation(false)]
pub fn deep_clone(v: &JsonValue) -> (r: JsonValue)
    ensures
        r@ == v@,
    decreases v,
{
    match v {
        JsonValue::Null => JsonValue::Null,
        JsonValue::Bool(b) => JsonValue::Bool(*b),
        JsonValue::Num(s) => JsonValue::Num(s.clone()),
        JsonValue::Str(s) => JsonValue::Str(s.clone()),
        JsonValue::Arr(items) => {
            let n: usize = items.len();
            let mut acc: Vec<JsonValue> = Vec::new();
            let mut i: usize = 0;
            while i < n
                invariant
                    acc@.len() == i,
                    i <= n,
                    forall|j: int| 0 <= j < i ==> acc@[j].jv() == items@[j].jv(),
                decreases n - i,
            {
                proof {
                    assert(decreases_to!(*v => *items));
                    assert(decreases_to!(*items => items@));
                    assert(decreases_to!(*v => items@[i as int]));
                }
                acc.push(deep_clone(&items[i]));
                i += 1;
            }
            proof {
                lemma_arr_jv(items@, 0);
                lemma_arr_jv(acc@, 0);
                assert(arr_jv(acc@, 0) =~= arr_jv(items@, 0));
            }
            JsonValue::Arr(acc)
        },
        JsonValue::Obj(fields) => {
            let n: usize = fields.len();
            let mut acc: Vec<(String, JsonValue)> = Vec::new();
            let mut i: usize = 0;
            while i < n
                invariant
                    acc@.len() == i,
                    i <= n,
                    forall|j: int|
                        0 <= j < i ==> acc@[j].0@ == fields@[j].0@ && acc@[j].1.jv()
                            == fields@[j].1.jv(),
                decreases n - i,
            {
                proof {
                    assert(decreases_to!(*v => *fields));
                    assert(decreases_to!(*fields => fields@));
                    assert(decreases_to!(*v => fields@[i as int].1));
                }
                let key = fields[i].0.clone();
                let val = deep_clone(&fields[i].1);
                acc.push((key, val));
                i += 1;
            }
            proof {
                lemma_obj_jv(fields@, 0);
                lemma_obj_jv(acc@, 0);
                assert(obj_jv(acc@, 0) =~= obj_jv(fields@, 0));
            }
            JsonValue::Obj(acc)
        },
    }
}

/// The pretty-printed JSON text of a value: two-space indentation, one
/// field or element per line, `ind` already emitted on the current line.
pub open spec fn jpretty(v: JsonSpec, ind: Seq<char>) -> Seq<char>
    decreases v, 1int,
{
    match v {
        JsonSpec::Null => "null"@,
        JsonSpec::Bool(b) => if b {
            "true"@
        } else {
            "false"@
        },
        JsonSpec::Num(s) => s,
        JsonSpec::Str(s) => jquoted(s),
        JsonSpec::Arr(items) => if items.len() == 0 {
            seq!['[', ']']
        } else {
            seq!['[', '\n'] + plist(items, 0, ind + seq![' ', ' ']) + seq!['\n'] + ind + seq![']']
        },
        JsonSpec::Obj(fields) => if fields.len() == 0 {
            seq!['{', '}']
        } else {
            seq!['{', '\n'] + pfields(fields, 0, ind + seq![' ', ' ']) + seq!['\n'] + ind
                + seq!['}']
        },
    }
}

pub open spec fn plist(items: Seq<JsonSpec>, i: int, ind: Seq<char>) -> Seq<char>
    decreases items, items.len() - i, 0int,
{
    if i < 0 || i >= items.len() {
        Seq::empty()
    } else {
        ind + jpretty(items[i], ind) + (if i + 1 < items.len() {
            seq![',', '\n']
        } else {
            Seq::<char>::empty()
        }) + plist(items, i + 1, ind)
    }
}

pub open spec fn pfields(fields: Seq<(Seq<char>, JsonSpec)>, i: int, ind: Seq<char>) -> Seq<char>
    decreases fields, fields.len() - i, 0int,
{
    if i < 0 || i >= fields.len() {
        Seq::empty()
    } else {
        ind + jquoted(fields[i].0) + seq![':', ' '] + jpretty(fields[i].1, ind) + (if i + 1
            < fields.len() {
            seq![',', '\n']
        } else {
            Seq::<char>::empty()
        }) + pfields(fields, i + 1, ind)
    }
}

/// Appends the pretty-printed JSON text of `v` to `out`.
#[verifier::loop_isolation(false)]
#[verifier::rlimit(60)]
pub fn jpretty_push(out: &mut String, v: &JsonValue, ind: &str)
    ensures
        final(out)@ == old(out)@ + jpretty(v@, ind@),
    decreases v,
{
    let ghost pre = out@;
    match v {
        JsonValue::Null => {
            out.append("null");
        },
        JsonValue::Bool(b) => {
            if *b {
                out.append("true");
            } else {
                out.append("false");
            }
        },
        JsonValue::Num(s) => {
            out.append(s.as_str());
        },
        JsonValue::Str(s) => {
            quoted_push(out, s.as_str());
        },
        JsonValue::Arr(items) => {
            let n: usize = items.len();
            if n == 0 {
                out.push('[');
                out.push(']');
                proof {
                    assert(out@ =~= pre + jpretty(v@, ind@));
                }
            } else {
                let mut ind2 = ind.to_owned();
                ind2.append("  ");
                proof {
                    reveal_strlit("  ");
                    assert("  "@ =~= seq![' ', ' ']);
                }
                out.push('[');
                out.push('\n');
                let ghost indv = ind@ + seq![' ', ' '];
                let mut i: usize = 0;
                proof {
                    lemma_arr_jv(items@, 0);
                    assert(out@ =~= pre + seq!['[', '\n']);
                }
                while i < n
                    invariant
                        i <= n,
                        ind2@ == indv,
                        out@ + plist(arr_jv(items@, 0), i as int, indv) == pre + seq!['[', '\n']
                            + plist(arr_jv(items@, 0), 0, indv),
                    decreases n - i,
                {
                    let ghost mid = out@;
                    proof {
                        assert(decreases_to!(*v => *items));
                        assert(decreases_to!(*items => items@));
                        assert(decreases_to!(*v => items@[i as int]));
                    }
                    out.append(ind2.as_str());
                    jpretty_push(out, &items[i], ind2.as_str());
                    if i + 1 < n {
                        out.push(',');
                        out.push('\n');
                    }
                    proof {
                        let ghost items_v = arr_jv(items@, 0);
                        let sep: Seq<char> = if i + 1 < n {
                            seq![',', '\n']
                        } else {
                            Seq::<char>::empty()
                        };
                        let ghost piece = indv + jpretty(items_v[i as int], indv) + sep;
                        assert(out@ =~= mid + piece);
                        assert(piece + plist(items_v, i + 1, indv) =~= plist(
                            items_v,
                            i as int,
                            indv,
                        ));
                        assert(mid + (piece + plist(items_v, i + 1, indv)) =~= (mid + piece)
                            + plist(items_v, i + 1, indv));
                    }
                    i += 1;
                }
                out.push('\n');
                out.append(ind);
                out.push(']');
                proof {
                    assert(plist(arr_jv(items@, 0), n as int, indv) =~= Seq::<char>::empty());
                    assert(out@ =~= pre + (seq!['[', '\n'] + plist(arr_jv(items@, 0), 0, indv)
                        + seq!['\n'] + ind@ + seq![']']));
                }
            }
        },
        JsonValue::Obj(fields) => {
            let n: usize = fields.len();
            if n == 0 {
                out.push('{');
                out.push('}');
                proof {
                    assert(out@ =~= pre + jpretty(v@, ind@));
                }
            } else {
                let mut ind2 = ind.to_owned();
                ind2.append("  ");
                proof {
                    reveal_strlit("  ");
                    assert("  "@ =~= seq![' ', ' ']);
                }
                out.push('{');
                out.push('\n');
                let ghost indv = ind@ + seq![' ', ' '];
                let mut i: usize = 0;
                proof {
                    lemma_obj_jv(fields@, 0);
                    assert(out@ =~= pre + seq!['{', '\n']);
                }
                while i < n
                    invariant
                        i <= n,
                        ind2@ == indv,
                        out@ + pfields(obj_jv(fields@, 0), i as int, indv) == pre + seq!['{', '\n']
                            + pfields(obj_jv(fields@, 0), 0, indv),
                    decreases n - i,
                {
                    let ghost mid = out@;
                    proof {
                        assert(decreases_to!(*v => *fields));
                        assert(decreases_to!(*fields => fields@));
                        assert(decreases_to!(*v => fields@[i as int].1));
                    }
                    out.append(ind2.as_str());
                    quoted_push(out, fields[i].0.as_str());
                    out.push(':');
                    out.push(' ');
                    jpretty_push(out, &fields[i].1, ind2.as_str());
                    if i + 1 < n {
                        out.push(',');
                        out.push('\n');
                    }
                    proof {
                        let ghost fv = obj_jv(fields@, 0);
                        let sep: Seq<char> = if i + 1 < n {
                            seq![',', '\n']
                        } else {
                            Seq::<char>::empty()
                        };
                        let ghost piece = indv + jquoted(fv[i as int].0) + seq![':', ' '] + jpretty(
                            fv[i as int].1,
                            indv,
                        ) + sep;
                        assert(out@ =~= mid + piece);
                        assert(piece + pfields(fv, i + 1, indv) =~= pfields(fv, i as int, indv));
                        assert(mid + (piece + pfields(fv, i + 1, indv)) =~= (mid + piece) + pfields(
                            fv,
                            i + 1,
                            indv,
                        ));
                    }
                    i += 1;
                }
                out.push('\n');
                out.append(ind);
                out.push('}');
                proof {
                    assert(pfields(obj_jv(fields@, 0), n as int, indv) =~= Seq::<char>::empty());
                    assert(out@ =~= pre + (seq!['{', '\n'] + pfields(obj_jv(fields@, 0), 0, indv)
                        + seq!['\n'] + ind@ + seq!['}']));
                }
            }
        },
    }
}

/// The pretty-printed JSON text of `v`.
pub fn to_pretty_text(v: &JsonValue) -> (r: String)
    ensures
        r@ == jpretty(v@, Seq::<char>::empty()),
{
    let mut out: String = String::new();
    jpretty_push(&mut out, v, "");
    proof {
        reveal_strlit("");
        assert("" @ =~= Seq::<char>::empty());
        assert(Seq::<char>::empty() + jpretty(v@, Seq::<char>::empty()) =~= jpretty(
            v@,
            Seq::<char>::empty(),
        ));
    }
    out
}

/// The first position at or after `i` whose key is `k`, or the length.
pub open spec fn obj_idx(fields: Seq<(Seq<char>, JsonSpec)>, k: Seq<char>, i: int) -> int
    decreases fields.len() - i,
{
    if i < 0 || i >= fields.len() {
        fields.len() as int
    } else if fields[i].0 == k {
        i
    } else {
        obj_idx(fields, k, i + 1)
    }
}

/// Sets key `k` to `v`: an existing key keeps its position, a new key is
/// appended at the end. This is how an override lands in a body or query
/// object.
pub open spec fn obj_set(fields: Seq<(Seq<char>, JsonSpec)>, k: Seq<char>, v: JsonSpec) -> Seq<
    (Seq<char>, JsonSpec),
> {
    let j = obj_idx(fields, k, 0);
    if j < fields.len() {
        fields.update(j, (k, v))
    } else {
        fields.push((k, v))
    }
}

/// The value at key `k`: the first occurrence decides.
pub open spec fn obj_get(fields: Seq<(Seq<char>, JsonSpec)>, k: Seq<char>) -> Option<JsonSpec> {
    let j = obj_idx(fields, k, 0);
    if j < fields.len() {
        Some(fields[j].1)
    } else {
        None
    }
}

proof fn lemma_obj_idx_range(fields: Seq<(Seq<char>, JsonSpec)>, k: Seq<char>, i: int)
    requires
        0 <= i <= fields.len(),
    ensures
        i <= obj_idx(fields, k, i) <= fields.len(),
        obj_idx(fields, k, i) < fields.len() ==> fields[obj_idx(fields, k, i)].0 == k,
    decreases fields.len() - i,
{
    if i < fields.len() && fields[i].0 != k {
        lemma_obj_idx_range(fields, k, i + 1);
    }
}

proof fn lemma_obj_idx_same_keys(
    s1: Seq<(Seq<char>, JsonSpec)>,
    s2: Seq<(Seq<char>, JsonSpec)>,
    k: Seq<char>,
    i: int,
)
    requires
        s1.len() == s2.len(),
        forall|m: int| 0 <= m < s1.len() ==> (#[trigger] s1[m]).0 == s2[m].0,
        0 <= i <= s1.len(),
    ensures
        obj_idx(s1, k, i) == obj_idx(s2, k, i),
    decreases s1.len() - i,
{
    if i < s1.len() && s1[i].0 != k {
        lemma_obj_idx_same_keys(s1, s2, k, i + 1);
    }
}

proof fn lemma_obj_idx_push(
    fields: Seq<(Seq<char>, JsonSpec)>,
    k: Seq<char>,
    pair: (Seq<char>, JsonSpec),
    i: int,
)
    requires
        0 <= i <= fields.len(),
        obj_idx(fields, k, i) == fields.len(),
        pair.0 == k,
    ensures
        obj_idx(fields.push(pair), k, i) == fields.len(),
    decreases fields.len() - i,
{
    if i < fields.len() {
        lemma_obj_idx_push(fields, k, pair, i + 1);
        assert(fields.push(pair)[i] == fields[i]);
    } else {
        assert(fields.push(pair)[i] == pair);
    }
}

/// Setting a key makes its value the one read back: the override wins
/// over whatever the object held before.
pub proof fn lemma_override_wins(fields: Seq<(Seq<char>, JsonSpec)>, k: Seq<char>, val: JsonSpec)
    ensures
        obj_get(obj_set(fields, k, val), k) == Some(val),
{
    lemma_obj_idx_range(fields, k, 0);
    let j = obj_idx(fields, k, 0);
    if j < fields.len() {
        let u = fields.update(j, (k, val));
        lemma_obj_idx_same_keys(fields, u, k, 0);
    } else {
        lemma_obj_idx_push(fields, k, (k, val), 0);
        assert(fields.push((k, val))[j] == (k, val));
    }
}

/// The fields of an object with every field named in `skip` dropped,
/// from position `i` on.
pub open spec fn obj_filter(
    fields: Seq<(Seq<char>, JsonSpec)>,
    skip: Seq<Seq<char>>,
    i: int,
) -> Seq<(Seq<char>, JsonSpec)>
    decreases fields.len() - i,
{
    if i < 0 || i >= fields.len() {
        Seq::empty()
    } else if crate::text::seq_contains_str(skip, fields[i].0) {
        obj_filter(fields, skip, i + 1)
    } else {
        seq![fields[i]] + obj_filter(fields, skip, i + 1)
    }
}

proof fn lemma_filter_keys(
    fields: Seq<(Seq<char>, JsonSpec)>,
    skip: Seq<Seq<char>>,
    k: Seq<char>,
    i: int,
)
    requires
        crate::text::seq_contains_str(skip, k),
        0 <= i <= fields.len(),
    ensures
        forall|j: int|
            0 <= j < obj_filter(fields, skip, i).len() ==> (#[trigger] obj_filter(
                fields,
                skip,
                i,
            )[j]).0 != k,
    decreases fields.len() - i,
{
    if i < fields.len() {
        lemma_filter_keys(fields, skip, k, i + 1);
        let f = obj_filter(fields, skip, i);
        if !crate::text::seq_contains_str(skip, fields[i].0) {
            assert(fields[i].0 != k);
            assert forall|j: int| 0 <= j < f.len() implies (#[trigger] f[j]).0 != k by {
                if j == 0 {
                    assert(f[0] == fields[i]);
                } else {
                    assert(f[j] == obj_filter(fields, skip, i + 1)[j - 1]);
                }
            }
        } else {
            assert forall|j: int| 0 <= j < f.len() implies (#[trigger] f[j]).0 != k by {
                assert(f[j] == obj_filter(fields, skip, i + 1)[j]);
            }
        }
    }
}

proof fn lemma_obj_idx_absent(fields: Seq<(Seq<char>, JsonSpec)>, k: Seq<char>, i: int)
    requires
        0 <= i <= fields.len(),
        forall|j: int| 0 <= j < fields.len() ==> (#[trigger] fields[j]).0 != k,
    ensures
        obj_idx(fields, k, i) == fields.len(),
    decreases fields.len() - i,
{
    if i < fields.len() {
        lemma_obj_idx_absent(fields, k, i + 1);
    }
}

/// Filtering is final: a field whose name stands in the skip list is
/// absent from the filtered object, whatever else the object holds.
pub proof fn lemma_skip_field_removed(
    fields: Seq<(Seq<char>, JsonSpec)>,
    skip: Seq<Seq<char>>,
    k: Seq<char>,
)
    requires
        crate::text::seq_contains_str(skip, k),
    ensures
        obj_get(obj_filter(fields, skip, 0), k) is None,
{
    lemma_filter_keys(fields, skip, k, 0);
    lemma_obj_idx_absent(obj_filter(fields, skip, 0), k, 0);
}

/// Sets key `k` of the object fields to `v`, as `obj_set` says.
#[verifier::loop_isolation(false)]
pub fn obj_set_field(fields: &mut Vec<(String, JsonValue)>, k: &str, v: JsonValue)
    ensures
        obj_jv(final(fields)@, 0) == obj_set(obj_jv(old(fields)@, 0), k@, v@),
{
    let ghost fv = obj_jv(fields@, 0);
    proof {
        lemma_obj_jv(fields@, 0);
    }
    let n: usize = fields.len();
    let mut i: usize = 0;
    while i < n
        invariant
            i <= n,
            fields@ == old(fields)@,
            n == fields@.len(),
            obj_idx(fv, k@, 0) == obj_idx(fv, k@, i as int),
        decreases n - i,
    {
        if crate::text::str_eq(fields[i].0.as_str(), k) {
            let key = fields[i].0.clone();
            fields.set(i, (key, v));
            proof {
                lemma_obj_jv(fields@, 0);
                assert(obj_jv(fields@, 0) =~= fv.update(i as int, (k@, v@)));
                assert((fields@[i as int].0@, v@) == (k@, v@));
            }
            return;
        }
        i += 1;
    }
    fields.push((k.to_owned(), v));
    proof {
        lemma_obj_jv(fields@, 0);
        assert(obj_jv(fields@, 0) =~= fv.push((k@, v@)));
    }
}

/// A copy of the object fields without those named in `skip`.
#[verifier::loop_isolation(false)]
pub fn obj_filter_fields(fields: &Vec<(String, JsonValue)>, skip: &Vec<String>) -> (r: Vec<
    (String, JsonValue),
>)
    ensures
        obj_jv(r@, 0) == obj_filter(obj_jv(fields@, 0), skip.deep_view(), 0),
{
    let ghost fv = obj_jv(fields@, 0);
    let ghost sv = skip.deep_view();
    proof {
        lemma_obj_jv(fields@, 0);
    }
    let n: usize = fields.len();
    let mut acc: Vec<(String, JsonValue)> = Vec::new();
    let mut i: usize = 0;
    while i < n
        invariant
            i <= n,
            obj_jv(acc@, 0) + obj_filter(fv, sv, i as int) == obj_filter(fv, sv, 0),
        decreases n - i,
    {
        let ghost accv = obj_jv(acc@, 0);
        let ghost acc_old = acc@;
        if !crate::text::contains_exact(skip, fields[i].0.as_str()) {
            let key = fields[i].0.clone();
            let val = deep_clone(&fields[i].1);
            acc.push((key, val));
            proof {
                lemma_obj_jv(acc_old, 0);
                lemma_obj_jv(acc@, 0);
                assert(obj_jv(acc@, 0) =~= accv.push(fv[i as int]));
            }
        }
        proof {
            let sep: Seq<(Seq<char>, JsonSpec)> = if sv.contains(fv[i as int].0) {
                Seq::empty()
            } else {
                seq![fv[i as int]]
            };
            assert(obj_filter(fv, sv, i as int) == (if crate::text::seq_contains_str(
                sv,
                fv[i as int].0,
            ) {
                obj_filter(fv, sv, i + 1)
            } else {
                seq![fv[i as int]] + obj_filter(fv, sv, i + 1)
            }));
            assert(obj_jv(acc@, 0) + obj_filter(fv, sv, i + 1) =~= accv + obj_filter(
                fv,
                sv,
                i as int,
            ));
        }
        i += 1;
    }
    proof {
        assert(obj_jv(acc@, 0) + obj_filter(fv, sv, n as int) =~= obj_jv(acc@, 0));
    }
    acc
}

pub open spec fn is_digit(c: char) -> bool {
    '0' <= c && c <= '9'
}

/// The first position at or after `i` holding a non-digit, or the length.
pub open spec fn skip_digits(s: Seq<char>, i: int) -> int
    decreases s.len() - i,
{
    if i < 0 || i >= s.len() {
        s.len() as int
    } else if is_digit(s[i]) {
        skip_digits(s, i + 1)
    } else {
        i
    }
}

/// Whether `s` is a JSON number lexeme: optional minus, an integer part
/// without leading zeroes, an optional fraction, an optional exponent.
pub open spec fn is_json_num(s: Seq<char>) -> bool {
    let i0: int = if s.len() > 0 && s[0] == '-' {
        1
    } else {
        0
    };
    if s.len() <= i0 || !is_digit(s[i0]) {
        false
    } else {
        let j = if s[i0] == '0' {
            i0 + 1
        } else {
            skip_digits(s, i0)
        };
        let k = if j < s.len() && s[j] == '.' {
            if j + 1 < s.len() && is_digit(s[j + 1]) {
                skip_digits(s, j + 1)
            } else {
                -1
            }
        } else {
            j
        };
        if k < 0 {
            false
        } else {
            let m = if k < s.len() && (s[k] == 'e' || s[k] == 'E') {
                let e0 = if k + 1 < s.len() && (s[k + 1] == '+' || s[k + 1] == '-') {
                    k + 2
                } else {
                    k + 1
                };
                if e0 < s.len() && is_digit(s[e0]) {
                    skip_digits(s, e0)
                } else {
                    -1
                }
            } else {
                k
            };
            m == s.len()
        }
    }
}

proof fn lemma_skip_digits_bounds(s: Seq<char>, i: int)
    requires
        0 <= i <= s.len(),
    ensures
        i <= skip_digits(s, i) <= s.len(),
    decreases s.len() - i,
{
    if i < s.len() && is_digit(s[i]) {
        lemma_skip_digits_bounds(s, i + 1);
    }
}

/// Scans past decimal digits, starting at `i`.
fn skip_digits_x(s: &str, i: usize) -> (r: usize)
    requires
        i <= s@.len(),
    ensures
        r as int == skip_digits(s@, i as int),
        i <= r <= s@.len(),
{
    let n: usize = s.unicode_len();
    let mut j: usize = i;
    while j < n
        invariant
            n == s@.len(),
            i <= j <= n,
            skip_digits(s@, i as int) == skip_digits(s@, j as int),
        decreases n - j,
    {
        let c = s.get_char(j);
        if !('0' <= c && c <= '9') {
            return j;
        }
        j += 1;
    }
    j
}

/// Checks `s` against the JSON number grammar.
pub fn is_json_number(s: &str) -> (r: bool)
    ensures
        r == is_json_num(s@),
{
    let n: usize = s.unicode_len();
    let i0: usize = if n > 0 && s.get_char(0) == '-' {
        1
    } else {
        0
    };
    if n <= i0 {
        return false;
    }
    let c0 = s.get_char(i0);
    if !('0' <= c0 && c0 <= '9') {
        return false;
    }
    proof {
        lemma_skip_digits_bounds(s@, i0 as int);
    }
    let j: usize = if c0 == '0' {
        i0 + 1
    } else {
        skip_digits_x(s, i0)
    };
    let k: usize;
    if j < n && s.get_char(j) == '.' {
        if j + 1 < n && {
            let c = s.get_char(j + 1);
            '0' <= c && c <= '9'
        } {
            k = skip_digits_x(s, j + 1);
        } else {
            return false;
        }
    } else {
        k = j;
    }
    let m: usize;
    if k < n && (s.get_char(k) == 'e' || s.get_char(k) == 'E') {
        let e0: usize = if k + 1 < n && {
            let c = s.get_char(k + 1);
            c == '+' || c == '-'
        } {
            k + 2
        } else {
            k + 1
        };
        if e0 < n && {
            let c = s.get_char(e0);
            '0' <= c && c <= '9'
        } {
            m = skip_digits_x(s, e0);
        } else {
            return false;
        }
    } else {
        m = k;
    }
    m == n
}

/// How an override value string is read: the JSON literals and numbers
/// keep their type, anything else is a plain string.
pub open spec fn spec_parse_scalar(s: Seq<char>) -> JsonSpec {
    if s == "true"@ {
        JsonSpec::Bool(true)
    } else if s == "false"@ {
        JsonSpec::Bool(false)
    } else if s == "null"@ {
        JsonSpec::Null
    } else if is_json_num(s) {
        JsonSpec::Num(s)
    } else {
        JsonSpec::Str(s)
    }
}

/// Reads an override value as a typed scalar, as `spec_parse_scalar` says.
pub fn parse_scalar(s: &str) -> (r: JsonValue)
    ensures
        r@ == spec_parse_scalar(s@),
{
    if crate::text::str_eq(s, "true") {
        JsonValue::Bool(true)
    } else if crate::text::str_eq(s, "false") {
        JsonValue::Bool(false)
    } else if crate::text::str_eq(s, "null") {
        JsonValue::Null
    } else if is_json_number(s) {
        JsonValue::Num(s.to_owned())
    } else {
        JsonValue::Str(s.to_owned())
    }
}

/// Characters that www-form-urlencoding leaves as they are.
pub open spec fn is_unreserved(c: char) -> bool {
    ('a' <= c && c <= 'z') || ('A' <= c && c <= 'Z') || ('0' <= c && c <= '9') || c == '*' || c
        == '-' || c == '.' || c == '_'
}

/// The upper-case hexadecimal digit for `n` (0 to 15).
pub open spec fn hex_up(n: int) -> char {
    if n < 10 {
        ((48 + n) as u8) as char
    } else {
        ((55 + n) as u8) as char
    }
}

/// The UTF-8 bytes of the scalar value `u`.
pub open spec fn utf8_enc(u: int) -> Seq<u8> {
    if u < 0x80 {
        seq![u as u8]
    } else if u < 0x800 {
        seq![(0xC0 + u / 64) as u8, (0x80 + u % 64) as u8]
    } else if u < 0x10000 {
        seq![(0xE0 + u / 4096) as u8, (0x80 + (u / 64) % 64) as u8, (0x80 + u % 64) as u8]
    } else {
        seq![
            (0xF0 + u / 262144) as u8,
            (0x80 + (u / 4096) % 64) as u8,
            (0x80 + (u / 64) % 64) as u8,
            (0x80 + u % 64) as u8,
        ]
    }
}

/// Percent-escapes of the bytes from position `i` on.
pub open spec fn pct_bytes(bs: Seq<u8>, i: int) -> Seq<char>
    decreases bs.len() - i,
{
    if i < 0 || i >= bs.len() {
        Seq::empty()
    } else {
        seq!['%', hex_up(bs[i] as int / 16), hex_up(bs[i] as int % 16)] + pct_bytes(bs, i + 1)
    }
}

/// How one character appears in a www-form-urlencoded value: unreserved
/// characters stand for themselves, a space becomes `+`, anything else is
/// the percent-escape of its UTF-8 bytes.
pub open spec fn enc_char(c: char) -> Seq<char> {
    if is_unreserved(c) {
        seq![c]
    } else if c == ' ' {
        seq!['+']
    } else {
        pct_bytes(utf8_enc(c as u32 as int), 0)
    }
}

pub open spec fn enc_from(s: Seq<char>, i: int) -> Seq<char>
    decreases s.len() - i,
{
    if i < 0 || i >= s.len() {
        Seq::empty()
    } else {
        enc_char(s[i]) + enc_from(s, i + 1)
    }
}

pub open spec fn enc_of(s: Seq<char>) -> Seq<char> {
    enc_from(s, 0)
}

/// Appends the percent-escape of one byte.
fn pct_push(out: &mut String, b: u8)
    ensures
        final(out)@ == old(out)@ + seq!['%', hex_up(b as int / 16), hex_up(b as int % 16)],
{
    let ghost pre = out@;
    out.push('%');
    let hi: u8 = b / 16;
    let lo: u8 = b % 16;
    out.push(if hi < 10 {
        (48 + hi) as char
    } else {
        (55 + hi) as char
    });
    out.push(if lo < 10 {
        (48 + lo) as char
    } else {
        (55 + lo) as char
    });
    proof {
        assert(out@ =~= pre + seq!['%', hex_up(b as int / 16), hex_up(b as int % 16)]);
    }
}

/// Appends the www-form-urlencoding of `s` to `out`.
#[verifier::loop_isolation(false)]
pub fn urlencode_push(out: &mut String, s: &str)
    ensures
        final(out)@ == old(out)@ + enc_of(s@),
{
    let n: usize = s.unicode_len();
    let mut i: usize = 0;
    while i < n
        invariant
            i <= n,
            out@ + enc_from(s@, i as int) == old(out)@ + enc_from(s@, 0),
        decreases n - i,
    {
        let ghost pre = out@;
        let c = s.get_char(i);
        if ('a' <= c && c <= 'z') || ('A' <= c && c <= 'Z') || ('0' <= c && c <= '9') || c == '*'
            || c == '-' || c == '.' || c == '_' {
            out.push(c);
        } else if c == ' ' {
            out.push('+');
        } else {
            let u: u32 = c as u32;
            let ghost ui = u as int;
            let mut bs: Vec<u8> = Vec::new();
            if u < 0x80 {
                bs.push(u as u8);
            } else if u < 0x800 {
                bs.push((0xC0 + u / 64) as u8);
                bs.push((0x80 + u % 64) as u8);
            } else if u < 0x10000 {
                bs.push((0xE0 + u / 4096) as u8);
                bs.push((0x80 + (u / 64) % 64) as u8);
                bs.push((0x80 + u % 64) as u8);
            } else {
                bs.push((0xF0 + u / 262144) as u8);
                bs.push((0x80 + (u / 4096) % 64) as u8);
                bs.push((0x80 + (u / 64) % 64) as u8);
                bs.push((0x80 + u % 64) as u8);
            }
            proof {
                assert(bs@ =~= utf8_enc(ui));
            }
            let m: usize = bs.len();
            let mut j: usize = 0;
            while j < m
                invariant
                    m == bs@.len(),
                    j <= m,
                    bs@ == utf8_enc(ui),
                    out@ + pct_bytes(bs@, j as int) == pre + pct_bytes(bs@, 0),
                decreases m - j,
            {
                let ghost mid = out@;
                let b = bs[j];
                pct_push(out, b);
                proof {
                    let ghost piece = seq![
                        '%',
                        hex_up(bs@[j as int] as int / 16),
                        hex_up(bs@[j as int] as int % 16),
                    ];
                    assert(out@ =~= mid + piece);
                    assert(piece + pct_bytes(bs@, j + 1) =~= pct_bytes(bs@, j as int));
                    assert(mid + (piece + pct_bytes(bs@, j + 1)) =~= (mid + piece) + pct_bytes(
                        bs@,
                        j + 1,
                    ));
                }
                j += 1;
            }
            proof {
                assert(out@ + pct_bytes(bs@, m as int) =~= out@);
            }
        }
        proof {
            assert(out@ =~= pre + enc_char(s@[i as int]));
        }
        i += 1;
        proof {
            assert(enc_char(s@[i - 1]) + enc_from(s@, i as int) =~= enc_from(s@, i - 1));
            assert(pre + (enc_char(s@[i - 1]) + enc_from(s@, i as int)) =~= (pre + enc_char(
                s@[i - 1],
            )) + enc_from(s@, i as int));
        }
    }
    proof {
        assert(out@ + enc_from(s@, n as int) =~= out@);
    }
}

/// The value text a flat form field carries, if the value is a scalar.
pub open spec fn scalar_text(v: JsonSpec) -> Option<Seq<char>> {
    match v {
        JsonSpec::Num(s) => Some(s),
        JsonSpec::Str(s) => Some(s),
        JsonSpec::Bool(b) => Some(
            if b {
                "true"@
            } else {
                "false"@
            },
        ),
        _ => None,
    }
}

/// The www-form-urlencoding of the object fields from `i` on: each field
/// `key=value` joined by `&`; `None` when a value is not a scalar.
pub open spec fn form_of(fields: Seq<(Seq<char>, JsonSpec)>, i: int) -> Option<Seq<char>>
    decreases fields.len() - i,
{
    if i < 0 || i >= fields.len() {
        Some(Seq::empty())
    } else {
        match scalar_text(fields[i].1) {
            Option::None => None,
            Option::Some(t) => match form_of(fields, i + 1) {
                Option::None => None,
                Option::Some(rest) => Some(
                    enc_of(fields[i].0) + seq!['='] + enc_of(t) + (if i + 1 < fields.len() {
                        seq!['&']
                    } else {
                        Seq::<char>::empty()
                    }) + rest,
                ),
            },
        }
    }
}

/// Encodes the object fields as a www-form-urlencoded string; fails if a
/// value is not a flat scalar.
#[verifier::loop_isolation(false)]
pub fn form_urlencode(fields: &Vec<(String, JsonValue)>) -> (r: Result<String, ()>)
    ensures
        r is Ok <==> form_of(obj_jv(fields@, 0), 0) is Some,
        r is Ok ==> r->Ok_0@ == form_of(obj_jv(fields@, 0), 0)->Some_0,
{
    let ghost fv = obj_jv(fields@, 0);
    proof {
        lemma_obj_jv(fields@, 0);
    }
    let n: usize = fields.len();
    let mut out: String = String::new();
    let mut i: usize = 0;
    while i < n
        invariant
            i <= n,
            form_of(fv, 0) is Some <==> form_of(fv, i as int) is Some,
            form_of(fv, i as int) is Some ==> form_of(fv, 0)->Some_0 == out@ + form_of(
                fv,
                i as int,
            )->Some_0,
        decreases n - i,
    {
        let ghost pre = out@;
        urlencode_push(&mut out, fields[i].0.as_str());
        out.push('=');
        let ghost mid = out@;
        match &fields[i].1 {
            JsonValue::Num(t) => {
                urlencode_push(&mut out, t.as_str());
            },
            JsonValue::Str(t) => {
                urlencode_push(&mut out, t.as_str());
            },
            JsonValue::Bool(b) => {
                if *b {
                    urlencode_push(&mut out, "true");
                } else {
                    urlencode_push(&mut out, "false");
                }
            },
            _ => {
                return Err(());
            },
        }
        if i + 1 < n {
            out.push('&');
        }
        proof {
            let sep: Seq<char> = if i + 1 < n {
                seq!['&']
            } else {
                Seq::<char>::empty()
            };
            let t = scalar_text(fv[i as int].1)->Some_0;
            assert(out@ =~= pre + (enc_of(fv[i as int].0) + seq!['='] + enc_of(t) + sep));
            if form_of(fv, i + 1) is Some {
                assert(pre + ((enc_of(fv[i as int].0) + seq!['='] + enc_of(t) + sep) + form_of(
                    fv,
                    i + 1,
                )->Some_0) =~= (pre + (enc_of(fv[i as int].0) + seq!['='] + enc_of(t) + sep))
                    + form_of(fv, i + 1)->Some_0);
            }
        }
        i += 1;
    }
    proof {
        if form_of(fv, n as int) is Some {
            assert(out@ + form_of(fv, n as int)->Some_0 =~= out@);
        }
    }
    Ok(out)
}

/// The encoded text a query-string leaf carries: scalars as their text,
/// null as the empty value.
pub open spec fn qs_leaf(v: JsonSpec) -> Seq<char> {
    match v {
        JsonSpec::Null => Seq::empty(),
        JsonSpec::Bool(b) => if b {
            enc_of("true"@)
        } else {
            enc_of("false"@)
        },
        JsonSpec::Num(s) => enc_of(s),
        JsonSpec::Str(s) => enc_of(s),
        _ => Seq::empty(),
    }
}

/// The query-string pairs a value contributes under an already-encoded
/// key path: a scalar is one pair, an object or array nests with bracket
/// path segments (`a[b]`, `a[0]`), depth first, in stored order.
pub open spec fn qs_pairs(path: Seq<char>, v: JsonSpec) -> Seq<(Seq<char>, Seq<char>)>
    decreases v, 1int,
{
    match v {
        JsonSpec::Obj(fields) => qs_obj(path, fields, 0),
        JsonSpec::Arr(items) => qs_arr(path, items, 0),
        _ => seq![(path, qs_leaf(v))],
    }
}

pub open spec fn qs_obj(
    path: Seq<char>,
    fields: Seq<(Seq<char>, JsonSpec)>,
    i: int,
) -> Seq<(Seq<char>, Seq<char>)>
    decreases fields, fields.len() - i, 0int,
{
    if i < 0 || i >= fields.len() {
        Seq::empty()
    } else {
        qs_pairs(path + seq!['['] + enc_of(fields[i].0) + seq![']'], fields[i].1) + qs_obj(
            path,
            fields,
            i + 1,
        )
    }
}

pub open spec fn qs_arr(path: Seq<char>, items: Seq<JsonSpec>, i: int) -> Seq<
    (Seq<char>, Seq<char>),
>
    decreases items, items.len() - i, 0int,
{
    if i < 0 || i >= items.len() {
        Seq::empty()
    } else {
        qs_pairs(path + seq!['['] + crate::text::dec_str(i) + seq![']'], items[i]) + qs_arr(
            path,
            items,
            i + 1,
        )
    }
}

/// The pairs of a whole query object: each top-level key encoded, then
/// its value's pairs.
pub open spec fn qs_top(fields: Seq<(Seq<char>, JsonSpec)>, i: int) -> Seq<(Seq<char>, Seq<char>)>
    decreases fields.len() - i,
{
    if i < 0 || i >= fields.len() {
        Seq::empty()
    } else {
        qs_pairs(enc_of(fields[i].0), fields[i].1) + qs_top(fields, i + 1)
    }
}

/// Pairs joined as `key=value`, separated by `&`.
pub open spec fn qs_join(ps: Seq<(Seq<char>, Seq<char>)>, i: int) -> Seq<char>
    decreases ps.len() - i,
{
    if i < 0 || i >= ps.len() {
        Seq::empty()
    } else {
        ps[i].0 + seq!['='] + ps[i].1 + (if i + 1 < ps.len() {
            seq!['&']
        } else {
            Seq::<char>::empty()
        }) + qs_join(ps, i + 1)
    }
}

/// The query string of a query object: nested objects and arrays encode
/// with bracket-path keys, so a nested query is a first-class value here.
pub open spec fn query_string_of(fields: Seq<(Seq<char>, JsonSpec)>) -> Seq<char> {
    qs_join(qs_top(fields, 0), 0)
}

/// Collects the query-string pairs of `v` under `path`, as `qs_pairs`
/// says.
#[verifier::loop_isolation(false)]
#[verifier::rlimit(60)]
fn qs_pairs_push(acc: &mut Vec<(String, String)>, path: &str, v: &JsonValue)
    ensures
        final(acc).deep_view() == old(acc).deep_view() + qs_pairs(path@, v@),
    decreases v,
{
    let ghost pre = acc.deep_view();
    match v {
        JsonValue::Obj(fields) => {
            let n: usize = fields.len();
            let mut i: usize = 0;
            proof {
                lemma_obj_jv(fields@, 0);
            }
            while i < n
                invariant
                    i <= n,
                    acc.deep_view() + qs_obj(path@, obj_jv(fields@, 0), i as int) == pre + qs_obj(
                        path@,
                        obj_jv(fields@, 0),
                        0,
                    ),
                decreases n - i,
            {
                let ghost mid = acc.deep_view();
                proof {
                    assert(decreases_to!(*v => *fields));
                    assert(decreases_to!(*fields => fields@));
                    assert(decreases_to!(*v => fields@[i as int].1));
                }
                let mut path2 = path.to_owned();
                path2.push('[');
                urlencode_push(&mut path2, fields[i].0.as_str());
                path2.push(']');
                proof {
                    assert(path2@ =~= path@ + seq!['['] + enc_of(fields@[i as int].0@) + seq![
                        ']',
                    ]);
                }
                qs_pairs_push(acc, path2.as_str(), &fields[i].1);
                proof {
                    let ghost fv = obj_jv(fields@, 0);
                    let ghost piece = qs_pairs(
                        path@ + seq!['['] + enc_of(fv[i as int].0) + seq![']'],
                        fv[i as int].1,
                    );
                    assert(acc.deep_view() =~= mid + piece);
                    assert(piece + qs_obj(path@, fv, i + 1) =~= qs_obj(path@, fv, i as int));
                    assert(mid + (piece + qs_obj(path@, fv, i + 1)) =~= (mid + piece) + qs_obj(
                        path@,
                        fv,
                        i + 1,
                    ));
                }
                i += 1;
            }
            proof {
                assert(acc.deep_view() + qs_obj(path@, obj_jv(fields@, 0), n as int)
                    =~= acc.deep_view());
            }
        },
        JsonValue::Arr(items) => {
            let n: usize = items.len();
            let mut i: usize = 0;
            proof {
                lemma_arr_jv(items@, 0);
            }
            while i < n
                invariant
                    i <= n,
                    acc.deep_view() + qs_arr(path@, arr_jv(items@, 0), i as int) == pre + qs_arr(
                        path@,
                        arr_jv(items@, 0),
                        0,
                    ),
                decreases n - i,
            {
                let ghost mid = acc.deep_view();
                proof {
                    assert(decreases_to!(*v => *items));
                    assert(decreases_to!(*items => items@));
                    assert(decreases_to!(*v => items@[i as int]));
                }
                let mut path2 = path.to_owned();
                path2.push('[');
                let idx = crate::text::usize_dec(i);
                path2.append(idx.as_str());
                path2.push(']');
                proof {
                    assert(path2@ =~= path@ + seq!['['] + crate::text::dec_str(i as int) + seq![
                        ']',
                    ]);
                }
                qs_pairs_push(acc, path2.as_str(), &items[i]);
                proof {
                    let ghost iv = arr_jv(items@, 0);
                    let ghost piece = qs_pairs(
                        path@ + seq!['['] + crate::text::dec_str(i as int) + seq![']'],
                        iv[i as int],
                    );
                    assert(acc.deep_view() =~= mid + piece);
                    assert(piece + qs_arr(path@, iv, i + 1) =~= qs_arr(path@, iv, i as int));
                    assert(mid + (piece + qs_arr(path@, iv, i + 1)) =~= (mid + piece) + qs_arr(
                        path@,
                        iv,
                        i + 1,
                    ));
                }
                i += 1;
            }
            proof {
                assert(acc.deep_view() + qs_arr(path@, arr_jv(items@, 0), n as int)
                    =~= acc.deep_view());
            }
        },
        _ => {
            let mut val: String = String::new();
            match v {
                JsonValue::Bool(b) => {
                    if *b {
                        urlencode_push(&mut val, "true");
                    } else {
                        urlencode_push(&mut val, "false");
                    }
                },
                JsonValue::Num(t) => {
                    urlencode_push(&mut val, t.as_str());
                },
                JsonValue::Str(t) => {
                    urlencode_push(&mut val, t.as_str());
                },
                _ => {},
            }
            proof {
                assert(val@ == qs_leaf(v@));
            }
            acc.push((path.to_owned(), val));
            proof {
                assert(acc.deep_view() =~= pre + seq![(path@, qs_leaf(v@))]);
            }
        },
    }
}

/// The query string of a query object, as `query_string_of` says.
#[verifier::loop_isolation(false)]
pub fn query_string(fields: &Vec<(String, JsonValue)>) -> (r: String)
    ensures
        r@ == query_string_of(obj_jv(fields@, 0)),
{
    let ghost fv = obj_jv(fields@, 0);
    proof {
        lemma_obj_jv(fields@, 0);
    }
    let mut ps: Vec<(String, String)> = Vec::new();
    proof {
        assert(ps.deep_view() =~= Seq::<(Seq<char>, Seq<char>)>::empty());
    }
    let n: usize = fields.len();
    let mut i: usize = 0;
    while i < n
        invariant
            i <= n,
            ps.deep_view() + qs_top(fv, i as int) == qs_top(fv, 0),
        decreases n - i,
    {
        let ghost mid = ps.deep_view();
        let mut path: String = String::new();
        urlencode_push(&mut path, fields[i].0.as_str());
        proof {
            assert(path@ =~= enc_of(fv[i as int].0));
        }
        qs_pairs_push(&mut ps, path.as_str(), &fields[i].1);
        proof {
            let ghost piece = qs_pairs(enc_of(fv[i as int].0), fv[i as int].1);
            assert(ps.deep_view() =~= mid + piece);
            assert(piece + qs_top(fv, i + 1) =~= qs_top(fv, i as int));
            assert(mid + (piece + qs_top(fv, i + 1)) =~= (mid + piece) + qs_top(fv, i + 1));
        }
        i += 1;
    }
    proof {
        assert(ps.deep_view() + qs_top(fv, n as int) =~= ps.deep_view());
    }
    let ghost pv = ps.deep_view();
    let m: usize = ps.len();
    let mut out: String = String::new();
    let mut j: usize = 0;
    while j < m
        invariant
            j <= m,
            m == ps@.len(),
            pv == ps.deep_view(),
            pv.len() == m,
            out@ + qs_join(pv, j as int) == qs_join(pv, 0),
        decreases m - j,
    {
        let ghost mid = out@;
        proof {
            assert(pv[j as int] == (ps@[j as int].0@, ps@[j as int].1@));
        }
        out.append(ps[j].0.as_str());
        out.push('=');
        out.append(ps[j].1.as_str());
        if j + 1 < m {
            out.push('&');
        }
        proof {
            let sep: Seq<char> = if j + 1 < m {
                seq!['&']
            } else {
                Seq::<char>::empty()
            };
            let ghost piece = pv[j as int].0 + seq!['='] + pv[j as int].1 + sep;
            assert(out@ =~= mid + piece);
            assert(piece + qs_join(pv, j + 1) =~= qs_join(pv, j as int));
            assert(mid + (piece + qs_join(pv, j + 1)) =~= (mid + piece) + qs_join(pv, j + 1));
        }
        j += 1;
    }
    proof {
        assert(out@ + qs_join(pv, m as int) =~= out@);
    }
    out
}

#[verifier::external_type_specification]
#[verifier::external_body]
pub struct ExSerdeValue(serde_json::Value);

/// What serde_json's parser makes of a JSON text: `None` where the text is
/// not valid JSON. The result is a function of the text alone.
pub uninterp spec fn json_parse_of(s: Seq<char>) -> Option<JsonSpec>;

/// Relies on serde_json::from_str::<Value>: it parses a JSON document,
/// failing exactly on texts that are not valid JSON; duplicate object keys
/// collapse and keys come back in the parser's stable order.
#[verifier::external_body]
pub(crate) fn parse_json(s: &str) -> (r: Result<JsonValue, ()>)
    ensures
        r is Ok <==> json_parse_of(s@) is Some,
        r is Ok ==> r->Ok_0@ == json_parse_of(s@)->Some_0,
{
    match serde_json::from_str::<serde_json::Value>(s) {
        Ok(v) => Ok(convert_json(&v)),
        Err(_) => Err(()),
    }
}

/// Relies on serde_json::Value's shape: carries each variant over to the
/// library's value type, field by field; a number carries the text
/// serde_json prints for the parsed value (its canonical form, so the
/// lexeme `1.50` comes back as `1.5`).
#[verifier::external_body]
fn convert_json(v: &serde_json::Value) -> JsonValue {
    match v {
        serde_json::Value::Null => JsonValue::Null,
        serde_json::Value::Bool(b) => JsonValue::Bool(*b),
        serde_json::Value::Number(n) => JsonValue::Num(n.to_string()),
        serde_json::Value::String(t) => JsonValue::Str(t.clone()),
        serde_json::Value::Array(a) => JsonValue::Arr(a.iter().map(convert_json).collect()),
        serde_json::Value::Object(m) => JsonValue::Obj(
            m.iter().map(|(k, x)| (k.clone(), convert_json(x))).collect(),
        ),
    }
}

} // verus!
