use vstd::prelude::*;
use vstd::string::*;
use crate::text::{find_from, find_char};
use crate::error::{Error, ErrorKind};
use crate::ExtraArgs;

verus! {

/// The command line as the library models it; the binary owns the actual
/// argument parsing and hands these values over.
#[derive(Debug, PartialEq, Eq)]
pub struct Args {
    pub action: Action,
}

/// What the caller asked for: run a named diff, or author a profile.
#[derive(Debug, PartialEq, Eq)]
pub enum Action {
    Run(RunArgs),
    Parse,
}

/// The inputs of one diff run: a profile name, ad-hoc overrides, and an
/// optional configuration path.
#[derive(Debug, PartialEq, Eq)]
pub struct RunArgs {
    pub profile: String,
    pub extra_params: Vec<KeyVal>,
    pub config: Option<String>,
}

/// Which of the three override categories a key/value pair lands in.
#[derive(Debug, Clone, Copy, PartialEq, Eq, Structural)]
pub enum KeyValType {
    Query,
    Header,
    Body,
}

/// One classified override pair.
#[derive(Debug, PartialEq, Eq)]
pub struct KeyVal {
    pub key_type: KeyValType,
    pub key: String,
    pub val: String,
}

impl View for KeyVal {
    type V = (KeyValType, Seq<char>, Seq<char>);

    open spec fn view(&self) -> (KeyValType, Seq<char>, Seq<char>) {
        (self.key_type, self.key@, self.val@)
    }
}

/// A placeholder for a list of classified pairs.
#[derive(Debug, Clone, PartialEq, Eq)]
pub struct KeyValList {}

pub open spec fn is_ws(c: char) -> bool {
    c == ' ' || c == '\t' || c == '\r' || c == '\n'
}

pub open spec fn trim_start_of(s: Seq<char>) -> Seq<char>
    decreases s.len(),
{
    if s.len() > 0 && is_ws(s[0]) {
        trim_start_of(s.skip(1))
    } else {
        s
    }
}

pub open spec fn trim_end_of(s: Seq<char>) -> Seq<char>
    decreases s.len(),
{
    if s.len() > 0 && is_ws(s.last()) {
        trim_end_of(s.drop_last())
    } else {
        s
    }
}

/// `s` without leading and trailing ASCII whitespace.
pub open spec fn trim_of(s: Seq<char>) -> Seq<char> {
    trim_end_of(trim_start_of(s))
}

proof fn lemma_trim_start_skip(s: Seq<char>, i: int)
    requires
        0 <= i <= s.len(),
        forall|j: int| 0 <= j < i ==> is_ws(s[j]),
    ensures
        trim_start_of(s) == trim_start_of(s.skip(i)),
    decreases i,
{
    if i > 0 {
        lemma_trim_start_skip(s, i - 1);
        assert(s.skip(i - 1).len() > 0 && is_ws(s.skip(i - 1)[0]));
        assert(s.skip(i - 1).skip(1) =~= s.skip(i));
    } else {
        assert(s.skip(0) =~= s);
    }
}

proof fn lemma_trim_end_take(s: Seq<char>, i: int)
    requires
        0 <= i <= s.len(),
        forall|j: int| i <= j < s.len() ==> is_ws(s[j]),
    ensures
        trim_end_of(s) == trim_end_of(s.take(i)),
    decreases s.len() - i,
{
    if i < s.len() {
        assert(s.len() > 0 && is_ws(s.last()));
        lemma_trim_end_take(s.drop_last(), i);
        assert(s.drop_last().take(i) =~= s.take(i));
    } else {
        assert(s.take(i) =~= s);
    }
}

/// Removes leading and trailing ASCII whitespace, as `trim_of` says.
pub fn trim_str(s: &str) -> (r: String)
    ensures
        r@ == trim_of(s@),
{
    let n: usize = s.unicode_len();
    let mut b: usize = 0;
    loop
        invariant_except_break
            n == s@.len(),
            b <= n,
            forall|j: int| 0 <= j < b ==> is_ws(s@[j]),
        ensures
            n == s@.len(),
            b <= n,
            forall|j: int| 0 <= j < b ==> is_ws(s@[j]),
            b == n || !is_ws(s@[b as int]),
        decreases n - b,
    {
        if b >= n {
            break;
        }
        let c = s.get_char(b);
        if !(c == ' ' || c == '\t' || c == '\r' || c == '\n') {
            break;
        }
        b += 1;
    }
    let mut e: usize = n;
    loop
        invariant_except_break
            n == s@.len(),
            b <= e <= n,
            forall|j: int| 0 <= j < b ==> is_ws(s@[j]),
            forall|j: int| e <= j < n ==> is_ws(s@[j]),
            b == n || !is_ws(s@[b as int]),
        ensures
            n == s@.len(),
            b <= e <= n,
            forall|j: int| 0 <= j < b ==> is_ws(s@[j]),
            forall|j: int| e <= j < n ==> is_ws(s@[j]),
            b == n || !is_ws(s@[b as int]),
            e == b || !is_ws(s@[e - 1]),
        decreases e,
    {
        if e <= b {
            break;
        }
        let c = s.get_char(e - 1);
        if !(c == ' ' || c == '\t' || c == '\r' || c == '\n') {
            break;
        }
        e -= 1;
    }
    let t = s.substring_char(b, e);
    let r = t.to_owned();
    proof {
        let mid = s@.skip(b as int);
        lemma_trim_start_skip(s@, b as int);
        if b < n && e > b {
            // the start scan stopped on a non-blank character
            assert(!is_ws(s@[b as int]));
            assert(mid[0] == s@[b as int]);
            assert(trim_start_of(mid) == mid);
        } else if b == n {
            assert(mid =~= Seq::<char>::empty());
            assert(trim_start_of(mid) == mid);
            assert(trim_end_of(mid) == mid);
            assert(r@ =~= mid);
        } else {
            // e == b < n: everything after b is blank, but s[b] is not
            assert(!is_ws(s@[b as int]));
            assert(false);
        }
        if b < n {
            assert forall|j: int| e - b <= j < mid.len() implies is_ws(mid[j]) by {
                assert(mid[j] == s@[b + j]);
            }
            lemma_trim_end_take(mid, e - b);
            assert(mid.take(e - b) =~= s@.subrange(b as int, e as int));
            assert(trim_end_of(s@.subrange(b as int, e as int)) == s@.subrange(
                b as int,
                e as int,
            )) by {
                if e > b {
                    assert(!is_ws(s@[e - 1]));
                    assert(s@.subrange(b as int, e as int).last() == s@[e - 1]);
                }
            }
        }
    }
    r
}

/// What a `key=value` token classifies to: a `%` sigil marks a header
/// override, `@` a body override, a letter starts a plain query override;
/// anything else (or a missing `=`) is rejected rather than misrouted.
pub open spec fn spec_parse_key_val(s: Seq<char>) -> Option<(KeyValType, Seq<char>, Seq<char>)> {
    let eq = find_from(s, '=', 0);
    if eq == s.len() {
        None
    } else {
        let k = trim_of(s.take(eq));
        let v = trim_of(s.skip(eq + 1));
        if k.len() > 0 && k[0] == '%' {
            Some((KeyValType::Header, k.skip(1), v))
        } else if k.len() > 0 && k[0] == '@' {
            Some((KeyValType::Body, k.skip(1), v))
        } else if k.len() > 0 && (('a' <= k[0] && k[0] <= 'z') || ('A' <= k[0] && k[0] <= 'Z')) {
            Some((KeyValType::Query, k, v))
        } else {
            None
        }
    }
}

/// Classifies one `key=value` override token, as `spec_parse_key_val`
/// says.
pub fn parse_key_val(s: &str) -> (r: Result<KeyVal, Error>)
    ensures
        r is Ok <==> spec_parse_key_val(s@) is Some,
        r is Err ==> r->Err_0.kind == ErrorKind::Config,
        r is Ok ==> r->Ok_0@ == spec_parse_key_val(s@)->Some_0,
{
    let n: usize = s.unicode_len();
    let eq = find_char(s, '=');
    if eq == n {
        return Err(Error::new(ErrorKind::Config));
    }
    let key_part = s.substring_char(0, eq);
    let val_part = s.substring_char(eq + 1, n);
    let k = trim_str(key_part);
    let v = trim_str(val_part);
    let kn: usize = k.as_str().unicode_len();
    if kn == 0 {
        return Err(Error::new(ErrorKind::Config));
    }
    let c0 = k.as_str().get_char(0);
    if c0 == '%' {
        let rest = k.as_str().substring_char(1, kn);
        proof {
            assert(rest@ =~= trim_of(s@.take(eq as int)).skip(1));
        }
        Ok(KeyVal { key_type: KeyValType::Header, key: rest.to_owned(), val: v })
    } else if c0 == '@' {
        let rest = k.as_str().substring_char(1, kn);
        proof {
            assert(rest@ =~= trim_of(s@.take(eq as int)).skip(1));
        }
        Ok(KeyVal { key_type: KeyValType::Body, key: rest.to_owned(), val: v })
    } else if ('a' <= c0 && c0 <= 'z') || ('A' <= c0 && c0 <= 'Z') {
        Ok(KeyVal { key_type: KeyValType::Query, key: k, val: v })
    } else {
        Err(Error::new(ErrorKind::Config))
    }
}

/// The pairs of one category among classified overrides, from `i` on, in
/// order.
pub open spec fn sel_pairs(
    kvs: Seq<(KeyValType, Seq<char>, Seq<char>)>,
    t: KeyValType,
    i: int,
) -> Seq<(Seq<char>, Seq<char>)>
    decreases kvs.len() - i,
{
    if i < 0 || i >= kvs.len() {
        Seq::empty()
    } else if kvs[i].0 == t {
        seq![(kvs[i].1, kvs[i].2)] + sel_pairs(kvs, t, i + 1)
    } else {
        sel_pairs(kvs, t, i + 1)
    }
}

pub open spec fn kv_views(kvs: Seq<KeyVal>) -> Seq<(KeyValType, Seq<char>, Seq<char>)> {
    kvs.map_values(|k: KeyVal| k@)
}

impl ExtraArgs {
    /// Partitions classified overrides into the three categories, keeping
    /// the order within each.
    #[verifier::loop_isolation(false)]
    pub fn from_key_vals(args: Vec<KeyVal>) -> (r: ExtraArgs)
        ensures
            r.headers.deep_view() == sel_pairs(kv_views(args@), KeyValType::Header, 0),
            r.query.deep_view() == sel_pairs(kv_views(args@), KeyValType::Query, 0),
            r.body.deep_view() == sel_pairs(kv_views(args@), KeyValType::Body, 0),
    {
        let ghost kvv = kv_views(args@);
        let mut headers: Vec<(String, String)> = Vec::new();
        let mut query: Vec<(String, String)> = Vec::new();
        let mut body: Vec<(String, String)> = Vec::new();
        let n: usize = args.len();
        let mut i: usize = 0;
        while i < n
            invariant
                i <= n,
                headers.deep_view() + sel_pairs(kvv, KeyValType::Header, i as int) == sel_pairs(
                    kvv,
                    KeyValType::Header,
                    0,
                ),
                query.deep_view() + sel_pairs(kvv, KeyValType::Query, i as int) == sel_pairs(
                    kvv,
                    KeyValType::Query,
                    0,
                ),
                body.deep_view() + sel_pairs(kvv, KeyValType::Body, i as int) == sel_pairs(
                    kvv,
                    KeyValType::Body,
                    0,
                ),
            decreases n - i,
        {
            let ghost hs0 = headers.deep_view();
            let ghost qs0 = query.deep_view();
            let ghost bs0 = body.deep_view();
            proof {
                assert(kvv[i as int] == args@[i as int]@);
            }
            let key = args[i].key.clone();
            let val = args[i].val.clone();
            match args[i].key_type {
                KeyValType::Header => {
                    headers.push((key, val));
                    proof {
                        assert(headers.deep_view() =~= hs0.push((kvv[i as int].1, kvv[i as int].2)));
                    }
                },
                KeyValType::Query => {
                    query.push((key, val));
                    proof {
                        assert(query.deep_view() =~= qs0.push((kvv[i as int].1, kvv[i as int].2)));
                    }
                },
                KeyValType::Body => {
                    body.push((key, val));
                    proof {
                        assert(body.deep_view() =~= bs0.push((kvv[i as int].1, kvv[i as int].2)));
                    }
                },
            }
            proof {
                let ghost pc = seq![(kvv[i as int].1, kvv[i as int].2)];
                if kvv[i as int].0 == KeyValType::Header {
                    assert(hs0 + (pc + sel_pairs(kvv, KeyValType::Header, i + 1)) =~= (hs0 + pc)
                        + sel_pairs(kvv, KeyValType::Header, i + 1));
                } else if kvv[i as int].0 == KeyValType::Query {
                    assert(qs0 + (pc + sel_pairs(kvv, KeyValType::Query, i + 1)) =~= (qs0 + pc)
                        + sel_pairs(kvv, KeyValType::Query, i + 1));
                } else {
                    assert(bs0 + (pc + sel_pairs(kvv, KeyValType::Body, i + 1)) =~= (bs0 + pc)
                        + sel_pairs(kvv, KeyValType::Body, i + 1));
                }
            }
            i += 1;
        }
        proof {
            assert(headers.deep_view() + sel_pairs(kvv, KeyValType::Header, n as int)
                =~= headers.deep_view());
            assert(query.deep_view() + sel_pairs(kvv, KeyValType::Query, n as int)
                =~= query.deep_view());
            assert(body.deep_view() + sel_pairs(kvv, KeyValType::Body, n as int)
                =~= body.deep_view());
        }
        ExtraArgs { headers, query, body }
    }
}

} // verus!
