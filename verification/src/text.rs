use vstd::prelude::*;
use vstd::string::*;

verus! {

/// Relies on std's `String::push`: it appends exactly one character at the
/// end of the string (vstd specifies `push_str` but not `push`).
pub assume_specification[ String::push ](s: &mut String, c: char)
    ensures
        final(s)@ == old(s)@.push(c),
;

/// ASCII upper-case letters fold to lower case; everything else is kept.
pub open spec fn lower_char(c: char) -> char {
    if 'A' <= c && c <= 'Z' {
        ((c as u8) + 32) as char
    } else {
        c
    }
}

pub open spec fn lower(s: Seq<char>) -> Seq<char> {
    s.map_values(|c: char| lower_char(c))
}

pub open spec fn lower_all(ss: Seq<Seq<char>>) -> Seq<Seq<char>> {
    ss.map_values(|x: Seq<char>| lower(x))
}

/// ASCII-lower-cases a string, character by character.
pub fn ascii_lowercase(s: &str) -> (r: String)
    ensures
        r@ == lower(s@),
{
    let n: usize = s.unicode_len();
    let mut r: String = String::new();
    let mut i: usize = 0;
    while i < n
        invariant
            n == s@.len(),
            i <= n,
            r@ == lower(s@.take(i as int)),
        decreases n - i,
    {
        let c = s.get_char(i);
        if 'A' <= c && c <= 'Z' {
            r.push(((c as u8) + 32) as char);
        } else {
            r.push(c);
        }
        i += 1;
        proof {
            assert(r@ =~= lower(s@.take(i as int)));
        }
    }
    proof {
        assert(lower(s@.take(n as int)) =~= lower(s@));
    }
    r
}

/// Character-by-character equality of two string slices.
pub fn str_eq(a: &str, b: &str) -> (r: bool)
    ensures
        r == (a@ == b@),
{
    let na: usize = a.unicode_len();
    let nb: usize = b.unicode_len();
    if na != nb {
        proof {
            assert(a@ != b@) by {
                if a@ == b@ {
                    assert(a@.len() == b@.len());
                }
            }
        }
        return false;
    }
    let mut i: usize = 0;
    while i < na
        invariant
            na == a@.len(),
            na == b@.len(),
            i <= na,
            forall|j: int| 0 <= j < i ==> a@[j] == b@[j],
        decreases na - i,
    {
        if a.get_char(i) != b.get_char(i) {
            return false;
        }
        i += 1;
    }
    proof {
        assert(a@ =~= b@);
    }
    true
}

/// Whether `x` occurs in `ss`.
pub open spec fn seq_contains_str(ss: Seq<Seq<char>>, x: Seq<char>) -> bool {
    exists|i: int| 0 <= i < ss.len() && ss[i] == x
}

/// Whether `name` occurs in `list`, comparing ASCII-case-insensitively.
pub fn contains_ci(list: &Vec<String>, name: &str) -> (r: bool)
    ensures
        r == seq_contains_str(lower_all(list.deep_view()), lower(name@)),
{
    let target = ascii_lowercase(name);
    let mut i: usize = 0;
    let ghost low = lower_all(list.deep_view());
    while i < list.len()
        invariant
            low == lower_all(list.deep_view()),
            low.len() == list@.len(),
            target@ == lower(name@),
            i <= list@.len(),
            forall|j: int| 0 <= j < i ==> low[j] != lower(name@),
        decreases list@.len() - i,
    {
        let cand = ascii_lowercase(list[i].as_str());
        if str_eq(cand.as_str(), target.as_str()) {
            proof {
                assert(low[i as int] == lower(name@));
            }
            return true;
        }
        i += 1;
    }
    false
}

/// Whether `name` occurs in `list`, comparing exactly.
pub fn contains_exact(list: &Vec<String>, name: &str) -> (r: bool)
    ensures
        r == seq_contains_str(list.deep_view(), name@),
{
    let mut i: usize = 0;
    while i < list.len()
        invariant
            i <= list@.len(),
            list.deep_view().len() == list@.len(),
            forall|j: int| 0 <= j < i ==> list.deep_view()[j] != name@,
        decreases list@.len() - i,
    {
        if str_eq(list[i].as_str(), name) {
            proof {
                assert(list.deep_view()[i as int] == name@);
            }
            return true;
        }
        i += 1;
    }
    false
}

/// The decimal digit character for `n` (0 to 9).
pub open spec fn dec_digit(n: int) -> char {
    ((48 + n) as u8) as char
}

/// The decimal text of a non-negative number, most significant digit first.
pub open spec fn dec_str(n: int) -> Seq<char>
    decreases n,
{
    if n < 10 {
        seq![dec_digit(n)]
    } else {
        dec_str(n / 10).push(dec_digit(n % 10))
    }
}

/// Formats a number in decimal.
pub fn u16_dec(n: u16) -> (r: String)
    ensures
        r@ == dec_str(n as int),
    decreases n,
{
    if n < 10 {
        let mut r: String = String::new();
        r.push((48 + (n as u8)) as char);
        proof {
            assert(r@ =~= dec_str(n as int));
        }
        r
    } else {
        let mut r = u16_dec(n / 10);
        r.push((48 + ((n % 10) as u8)) as char);
        r
    }
}

/// Formats an index in decimal.
pub fn usize_dec(n: usize) -> (r: String)
    ensures
        r@ == dec_str(n as int),
    decreases n,
{
    if n < 10 {
        let mut r: String = String::new();
        r.push((48 + (n as u8)) as char);
        proof {
            assert(r@ =~= dec_str(n as int));
        }
        r
    } else {
        let mut r = usize_dec(n / 10);
        r.push((48 + ((n % 10) as u8)) as char);
        r
    }
}

/// The first position at or after `i` where `c` occurs, or the length of `s`.
pub open spec fn find_from(s: Seq<char>, c: char, i: int) -> int
    decreases s.len() - i,
{
    if i < 0 || i >= s.len() {
        s.len() as int
    } else if s[i] == c {
        i
    } else {
        find_from(s, c, i + 1)
    }
}

/// Finds the first occurrence of `c` in `s`, or returns the length of `s`.
pub fn find_char(s: &str, c: char) -> (r: usize)
    ensures
        r as int == find_from(s@, c, 0),
        r <= s@.len(),
{
    let n: usize = s.unicode_len();
    let mut i: usize = 0;
    while i < n
        invariant
            n == s@.len(),
            i <= n,
            find_from(s@, c, 0) == find_from(s@, c, i as int),
        decreases n - i,
    {
        if s.get_char(i) == c {
            return i;
        }
        i += 1;
    }
    n
}

/// Strict lexicographic order on character sequences, by code point, compared
/// from position `i` on.
pub open spec fn lex_lt_from(a: Seq<char>, b: Seq<char>, i: int) -> bool
    decreases a.len() - i,
{
    if i < 0 || i >= b.len() {
        false
    } else if i >= a.len() {
        true
    } else if a[i] != b[i] {
        a[i] < b[i]
    } else {
        lex_lt_from(a, b, i + 1)
    }
}

pub open spec fn lex_lt(a: Seq<char>, b: Seq<char>) -> bool {
    lex_lt_from(a, b, 0)
}

/// Of two distinct sequences, exactly one precedes the other; equal sequences
/// precede nothing.
pub proof fn lemma_lex_order(a: Seq<char>, b: Seq<char>, i: int)
    requires
        0 <= i <= a.len(),
        i <= b.len(),
    ensures
        lex_lt_from(a, b, i) ==> !lex_lt_from(b, a, i),
        !lex_lt_from(a, b, i) && !lex_lt_from(b, a, i) ==> a.skip(i) =~= b.skip(i),
    decreases a.len() - i,
{
    if i >= a.len() && i >= b.len() {
        assert(a.skip(i) =~= b.skip(i));
    } else if i >= a.len() || i >= b.len() {
        // exactly one side has run out, so exactly one order holds
    } else if a[i] != b[i] {
        // by code-point trichotomy, exactly one of the two comparisons holds
    } else {
        lemma_lex_order(a, b, i + 1);
        if !lex_lt_from(a, b, i) && !lex_lt_from(b, a, i) {
            assert(a.skip(i) =~= b.skip(i)) by {
                assert(a.skip(i + 1) =~= b.skip(i + 1));
                assert forall|j: int| 0 <= j < a.skip(i).len() implies a.skip(i)[j] == b.skip(
                    i,
                )[j] by {
                    if j > 0 {
                        assert(a.skip(i)[j] == a.skip(i + 1)[j - 1]);
                        assert(b.skip(i)[j] == b.skip(i + 1)[j - 1]);
                    }
                }
            }
        }
    }
}

/// Compares two strings lexicographically by code point.
pub fn lex_lt_str(a: &str, b: &str) -> (r: bool)
    ensures
        r == lex_lt(a@, b@),
{
    let na: usize = a.unicode_len();
    let nb: usize = b.unicode_len();
    let mut i: usize = 0;
    loop
        invariant
            na == a@.len(),
            nb == b@.len(),
            0 <= i <= na,
            i <= nb,
            lex_lt(a@, b@) == lex_lt_from(a@, b@, i as int),
        decreases na + nb - 2 * i,
    {
        if i >= nb {
            return false;
        }
        if i >= na {
            return true;
        }
        let ca = a.get_char(i);
        let cb = b.get_char(i);
        if ca != cb {
            return ca < cb;
        }
        i += 1;
    }
}

} // verus!
