use vstd::prelude::*;
use vstd::string::*;
use crate::text::{lex_lt, lex_lt_str, lemma_lex_order, str_eq};

verus! {

/// How one line of diff output relates the two texts.
#[derive(Debug, Clone, Copy, PartialEq, Eq, Structural)]
pub enum Tag {
    Equal,
    Insert,
    Delete,
}

/// One line of diff output: its tag and its content, terminator removed.
#[derive(Debug, PartialEq, Eq)]
pub struct TaggedLine {
    pub tag: Tag,
    pub content: String,
}

impl View for TaggedLine {
    type V = (Tag, Seq<char>);

    open spec fn view(&self) -> (Tag, Seq<char>) {
        (self.tag, self.content@)
    }
}

pub open spec fn tl_view(s: Seq<TaggedLine>) -> Seq<(Tag, Seq<char>)> {
    s.map_values(|t: TaggedLine| t@)
}

/// The length of a longest common subsequence of the suffixes of `a` and
/// `b` starting at `i` and `j`.
pub open spec fn lcs(a: Seq<Seq<char>>, b: Seq<Seq<char>>, i: int, j: int) -> int
    decreases a.len() - i + b.len() - j,
{
    if i < 0 || j < 0 || i >= a.len() || j >= b.len() {
        0
    } else if a[i] == b[j] {
        1 + lcs(a, b, i + 1, j + 1)
    } else if lcs(a, b, i + 1, j) >= lcs(a, b, i, j + 1) {
        lcs(a, b, i + 1, j)
    } else {
        lcs(a, b, i, j + 1)
    }
}

pub proof fn lemma_lcs_bounds(a: Seq<Seq<char>>, b: Seq<Seq<char>>, i: int, j: int)
    requires
        0 <= i <= a.len(),
        0 <= j <= b.len(),
    ensures
        0 <= lcs(a, b, i, j),
        lcs(a, b, i, j) <= a.len() - i,
        lcs(a, b, i, j) <= b.len() - j,
    decreases a.len() - i + b.len() - j,
{
    if i < a.len() && j < b.len() {
        lemma_lcs_bounds(a, b, i + 1, j + 1);
        lemma_lcs_bounds(a, b, i + 1, j);
        lemma_lcs_bounds(a, b, i, j + 1);
    }
}

/// Swapping the sides of the comparison swaps nothing in the length of a
/// longest common subsequence.
pub proof fn lemma_lcs_sym(a: Seq<Seq<char>>, b: Seq<Seq<char>>, i: int, j: int)
    requires
        0 <= i <= a.len(),
        0 <= j <= b.len(),
    ensures
        lcs(b, a, j, i) == lcs(a, b, i, j),
    decreases a.len() - i + b.len() - j,
{
    if i < a.len() && j < b.len() {
        lemma_lcs_sym(a, b, i + 1, j + 1);
        lemma_lcs_sym(a, b, i + 1, j);
        lemma_lcs_sym(a, b, i, j + 1);
    }
}

/// The edit script from the suffix of `a` at `i` to the suffix of `b` at
/// `j`: equal lines are taken together; otherwise the side whose remaining
/// text keeps the longer common subsequence moves first, and an exact tie
/// is broken by the smaller line (by code point), so that the script is a
/// function of the two texts and mirrors when the texts swap. The usual
/// delete-before-insert habit would break that mirror symmetry, so on a
/// tie an insertion can come before a deletion.
pub open spec fn spec_diff(a: Seq<Seq<char>>, b: Seq<Seq<char>>, i: int, j: int) -> Seq<
    (Tag, Seq<char>),
>
    decreases a.len() - i + b.len() - j,
{
    if 0 <= i < a.len() && 0 <= j < b.len() {
        if a[i] == b[j] {
            seq![(Tag::Equal, a[i])] + spec_diff(a, b, i + 1, j + 1)
        } else if lcs(a, b, i + 1, j) > lcs(a, b, i, j + 1) {
            seq![(Tag::Delete, a[i])] + spec_diff(a, b, i + 1, j)
        } else if lcs(a, b, i + 1, j) < lcs(a, b, i, j + 1) {
            seq![(Tag::Insert, b[j])] + spec_diff(a, b, i, j + 1)
        } else if lex_lt(a[i], b[j]) {
            seq![(Tag::Delete, a[i])] + spec_diff(a, b, i + 1, j)
        } else {
            seq![(Tag::Insert, b[j])] + spec_diff(a, b, i, j + 1)
        }
    } else if 0 <= i < a.len() && j == b.len() {
        seq![(Tag::Delete, a[i])] + spec_diff(a, b, i + 1, j)
    } else if 0 <= j < b.len() && i == a.len() {
        seq![(Tag::Insert, b[j])] + spec_diff(a, b, i, j + 1)
    } else {
        Seq::empty()
    }
}

/// Diffing a text against itself yields exactly its lines, all Equal.
pub proof fn lemma_diff_self(a: Seq<Seq<char>>, i: int)
    requires
        0 <= i <= a.len(),
    ensures
        spec_diff(a, a, i, i).len() == a.len() - i,
        forall|k: int|
            0 <= k < a.len() - i ==> spec_diff(a, a, i, i)[k] == (Tag::Equal, a[i + k]),
    decreases a.len() - i,
{
    if i < a.len() {
        lemma_diff_self(a, i + 1);
    }
}

pub open spec fn swap_tag(t: Tag) -> Tag {
    match t {
        Tag::Equal => Tag::Equal,
        Tag::Insert => Tag::Delete,
        Tag::Delete => Tag::Insert,
    }
}

pub open spec fn swap_tags(s: Seq<(Tag, Seq<char>)>) -> Seq<(Tag, Seq<char>)> {
    s.map_values(|p: (Tag, Seq<char>)| (swap_tag(p.0), p.1))
}

/// Diffing the texts in the other order swaps Insert and Delete and
/// changes nothing else.
pub proof fn lemma_diff_swap(a: Seq<Seq<char>>, b: Seq<Seq<char>>, i: int, j: int)
    requires
        0 <= i <= a.len(),
        0 <= j <= b.len(),
    ensures
        spec_diff(b, a, j, i) == swap_tags(spec_diff(a, b, i, j)),
    decreases a.len() - i + b.len() - j,
{
    if i < a.len() && j < b.len() {
        lemma_lcs_sym(a, b, i + 1, j);
        lemma_lcs_sym(a, b, i, j + 1);
        if a[i] == b[j] {
            lemma_diff_swap(a, b, i + 1, j + 1);
            assert(spec_diff(b, a, j, i) =~= swap_tags(spec_diff(a, b, i, j)));
        } else {
            lemma_lex_order(a[i], b[j], 0);
            if lcs(a, b, i + 1, j) > lcs(a, b, i, j + 1) {
                lemma_diff_swap(a, b, i + 1, j);
                assert(spec_diff(b, a, j, i) =~= swap_tags(spec_diff(a, b, i, j)));
            } else if lcs(a, b, i + 1, j) < lcs(a, b, i, j + 1) {
                lemma_diff_swap(a, b, i, j + 1);
                assert(spec_diff(b, a, j, i) =~= swap_tags(spec_diff(a, b, i, j)));
            } else if lex_lt(a[i], b[j]) {
                lemma_diff_swap(a, b, i + 1, j);
                assert(!lex_lt(b[j], a[i]));
                assert(spec_diff(b, a, j, i) =~= swap_tags(spec_diff(a, b, i, j)));
            } else {
                lemma_diff_swap(a, b, i, j + 1);
                assert(lex_lt(b[j], a[i])) by {
                    assert(a[i].skip(0) =~= a[i]);
                    assert(b[j].skip(0) =~= b[j]);
                }
                assert(spec_diff(b, a, j, i) =~= swap_tags(spec_diff(a, b, i, j)));
            }
        }
    } else if i < a.len() {
        lemma_diff_swap(a, b, i + 1, j);
        assert(spec_diff(b, a, j, i) =~= swap_tags(spec_diff(a, b, i, j)));
    } else if j < b.len() {
        lemma_diff_swap(a, b, i, j + 1);
        assert(spec_diff(b, a, j, i) =~= swap_tags(spec_diff(a, b, i, j)));
    } else {
        assert(spec_diff(b, a, j, i) =~= swap_tags(spec_diff(a, b, i, j)));
    }
}

/// The line-level edit script from `a` to `b`, as `spec_diff` says: a
/// minimal-edit script with equal lines preferred and deterministic
/// tie-breaks.
#[verifier::loop_isolation(false)]
#[verifier::rlimit(60)]
pub fn diff_lines(a: &Vec<String>, b: &Vec<String>) -> (r: Vec<TaggedLine>)
    ensures
        tl_view(r@) == spec_diff(a.deep_view(), b.deep_view(), 0, 0),
{
    let ghost av = a.deep_view();
    let ghost bv = b.deep_view();
    let n: usize = a.len();
    let m: usize = b.len();
    proof {
        assert(av.len() == n);
        assert(bv.len() == m);
    }
    // dp rows, stored bottom-up: rows[r][q] == lcs(av, bv, n - r, q)
    let mut rows: Vec<Vec<usize>> = Vec::new();
    let mut zrow: Vec<usize> = Vec::new();
    while zrow.len() <= m
        invariant
            zrow@.len() <= m + 1,
            forall|q: int| 0 <= q < zrow@.len() ==> zrow@[q] == 0,
        decreases m + 1 - zrow@.len(),
    {
        zrow.push(0);
    }
    rows.push(zrow);
    proof {
        assert(forall|q: int| 0 <= q <= m ==> rows@[0]@[q] == lcs(av, bv, n as int, q));
    }
    let mut i: usize = n;
    while i > 0
        invariant
            i <= n,
            rows@.len() == n - i + 1,
            forall|r: int| 0 <= r < rows@.len() ==> (#[trigger] rows@[r])@.len() == m + 1,
            forall|p: int, q: int|
                i <= p <= n && 0 <= q <= m ==> (#[trigger] rows@[n - p]@[q]) == lcs(av, bv, p, q),
        decreases i,
    {
        i -= 1;
        let mut cur: Vec<usize> = Vec::new();
        while cur.len() <= m
            invariant
                cur@.len() <= m + 1,
                forall|q: int| 0 <= q < cur@.len() ==> cur@[q] == 0,
            decreases m + 1 - cur@.len(),
        {
            cur.push(0);
        }
        let mut j: usize = m;
        while j > 0
            invariant
                j <= m,
                cur@.len() == m + 1,
                forall|q: int| j <= q <= m ==> (#[trigger] cur@[q]) == lcs(av, bv, i as int, q),
            decreases j,
        {
            j -= 1;
            proof {
                lemma_lcs_bounds(av, bv, i + 1, j + 1);
                lemma_lcs_bounds(av, bv, i + 1, j as int);
                lemma_lcs_bounds(av, bv, i as int, j + 1);
            }
            let v: usize = if str_eq(a[i].as_str(), b[j].as_str()) {
                1 + rows[n - i - 1][j + 1]
            } else {
                let x = rows[n - i - 1][j];
                let y = cur[j + 1];
                if x > y {
                    x
                } else {
                    y
                }
            };
            cur.set(j, v);
        }
        rows.push(cur);
        proof {
            assert(forall|p: int, q: int|
                i <= p <= n && 0 <= q <= m ==> (#[trigger] rows@[n - p]@[q]) == lcs(av, bv, p, q));
        }
    }
    // backtrack from the top-left corner
    let mut res: Vec<TaggedLine> = Vec::new();
    let mut di: usize = 0;
    let mut dj: usize = 0;
    while di < n || dj < m
        invariant
            di <= n,
            dj <= m,
            rows@.len() == n + 1,
            forall|r: int| 0 <= r < rows@.len() ==> (#[trigger] rows@[r])@.len() == m + 1,
            forall|p: int, q: int|
                0 <= p <= n && 0 <= q <= m ==> (#[trigger] rows@[n - p]@[q]) == lcs(av, bv, p, q),
            tl_view(res@) + spec_diff(av, bv, di as int, dj as int) == spec_diff(av, bv, 0, 0),
        decreases n - di + m - dj,
    {
        let ghost resv = tl_view(res@);
        let ghost di0 = di as int;
        let ghost dj0 = dj as int;
        proof {
            if di0 < n {
                assert(av[di0] == a@[di0]@);
                assert(rows@[n - (di0 + 1)]@[dj0] == lcs(av, bv, di0 + 1, dj0));
            }
            if dj0 < m {
                assert(bv[dj0] == b@[dj0]@);
                assert(rows@[n - di0]@[dj0 + 1] == lcs(av, bv, di0, dj0 + 1));
            }
        }
        let ghost hd: (Tag, Seq<char>);
        if di < n && dj < m && str_eq(a[di].as_str(), b[dj].as_str()) {
            res.push(TaggedLine { tag: Tag::Equal, content: a[di].clone() });
            proof {
                hd = (Tag::Equal, av[di0]);
            }
            di += 1;
            dj += 1;
        } else if di < n && (dj == m || rows[n - di - 1][dj] > rows[n - di][dj + 1]) {
            res.push(TaggedLine { tag: Tag::Delete, content: a[di].clone() });
            proof {
                hd = (Tag::Delete, av[di0]);
            }
            di += 1;
        } else if dj < m && (di == n || rows[n - di - 1][dj] < rows[n - di][dj + 1]) {
            res.push(TaggedLine { tag: Tag::Insert, content: b[dj].clone() });
            proof {
                hd = (Tag::Insert, bv[dj0]);
            }
            dj += 1;
        } else if di < n && dj < m && lex_lt_str(a[di].as_str(), b[dj].as_str()) {
            res.push(TaggedLine { tag: Tag::Delete, content: a[di].clone() });
            proof {
                hd = (Tag::Delete, av[di0]);
            }
            di += 1;
        } else {
            res.push(TaggedLine { tag: Tag::Insert, content: b[dj].clone() });
            proof {
                hd = (Tag::Insert, bv[dj0]);
            }
            dj += 1;
        }
        proof {
            assert(spec_diff(av, bv, di0, dj0) == seq![hd] + spec_diff(
                av,
                bv,
                di as int,
                dj as int,
            ));
            assert(tl_view(res@) =~= resv + seq![hd]);
            assert(resv + (seq![hd] + spec_diff(av, bv, di as int, dj as int)) =~= (resv + seq![hd])
                + spec_diff(av, bv, di as int, dj as int));
        }
    }
    proof {
        assert(tl_view(res@) + spec_diff(av, bv, n as int, m as int) =~= tl_view(res@));
    }
    res
}

/// A line with a trailing carriage return removed.
pub open spec fn strip_cr(s: Seq<char>) -> Seq<char> {
    if s.len() > 0 && s.last() == '\r' {
        s.drop_last()
    } else {
        s
    }
}

/// The lines of `s` split at `'\n'`, each stripped of a trailing `'\r'`:
/// `cur` holds the line being read, `acc` the lines already read.
pub open spec fn spec_lines_acc(
    s: Seq<char>,
    i: int,
    cur: Seq<char>,
    acc: Seq<Seq<char>>,
) -> Seq<Seq<char>>
    decreases s.len() - i,
{
    if i < 0 || i >= s.len() {
        acc.push(strip_cr(cur))
    } else if s[i] == '\n' {
        spec_lines_acc(s, i + 1, Seq::empty(), acc.push(strip_cr(cur)))
    } else {
        spec_lines_acc(s, i + 1, cur.push(s[i]), acc)
    }
}

/// The lines of a text, terminators removed. An empty text is one empty
/// line; a trailing terminator yields a final empty line.
pub open spec fn spec_lines(s: Seq<char>) -> Seq<Seq<char>> {
    spec_lines_acc(s, 0, Seq::empty(), Seq::empty())
}

/// Splits a text into lines, as `spec_lines` says.
#[verifier::loop_isolation(false)]
pub fn split_lines(s: &str) -> (r: Vec<String>)
    ensures
        r.deep_view() == spec_lines(s@),
{
    let n: usize = s.unicode_len();
    let mut acc: Vec<String> = Vec::new();
    let mut cur: String = String::new();
    proof {
        assert(acc.deep_view() =~= Seq::<Seq<char>>::empty());
    }
    let mut i: usize = 0;
    while i < n
        invariant
            i <= n,
            spec_lines_acc(s@, i as int, cur@, acc.deep_view()) == spec_lines(s@),
        decreases n - i,
    {
        let ghost acc0 = acc.deep_view();
        let ghost cur0 = cur@;
        let c = s.get_char(i);
        if c == '\n' {
            let done = finish_line(cur);
            let ghost dv = done@;
            acc.push(done);
            cur = String::new();
            proof {
                assert(acc.deep_view() =~= acc0.push(dv));
            }
        } else {
            cur.push(c);
        }
        i += 1;
    }
    let done = finish_line(cur);
    let ghost dv = done@;
    let ghost acc1 = acc.deep_view();
    acc.push(done);
    proof {
        assert(acc.deep_view() =~= acc1.push(dv));
    }
    acc
}

/// Removes a trailing carriage return, as `strip_cr` says.
fn finish_line(cur: String) -> (r: String)
    ensures
        r@ == strip_cr(cur@),
{
    let n: usize = cur.as_str().unicode_len();
    if n > 0 && cur.as_str().get_char(n - 1) == '\r' {
        let t = cur.as_str().substring_char(0, n - 1);
        let r = t.to_owned();
        proof {
            assert(r@ =~= cur@.drop_last());
        }
        r
    } else {
        cur
    }
}

/// The sign column of a rendered diff line.
pub open spec fn tag_mark(t: Tag) -> char {
    match t {
        Tag::Delete => '-',
        Tag::Insert => '+',
        Tag::Equal => ' ',
    }
}

/// The rendered diff from entry `i` on: each line prefixed with its sign,
/// lines joined by `'\n'`.
pub open spec fn spec_render(d: Seq<(Tag, Seq<char>)>, i: int) -> Seq<char>
    decreases d.len() - i,
{
    if i < 0 || i >= d.len() {
        Seq::empty()
    } else {
        seq![tag_mark(d[i].0)] + d[i].1 + (if i + 1 < d.len() {
            seq!['\n']
        } else {
            Seq::<char>::empty()
        }) + spec_render(d, i + 1)
    }
}

/// Renders an edit script, as `spec_render` says.
#[verifier::loop_isolation(false)]
pub fn render_diff(d: &Vec<TaggedLine>) -> (r: String)
    ensures
        r@ == spec_render(tl_view(d@), 0),
{
    let ghost dv = tl_view(d@);
    let n: usize = d.len();
    let mut out: String = String::new();
    let mut i: usize = 0;
    while i < n
        invariant
            i <= n,
            dv.len() == n,
            out@ + spec_render(dv, i as int) == spec_render(dv, 0),
        decreases n - i,
    {
        let ghost mid = out@;
        match d[i].tag {
            Tag::Delete => out.push('-'),
            Tag::Insert => out.push('+'),
            Tag::Equal => out.push(' '),
        }
        out.append(d[i].content.as_str());
        if i + 1 < n {
            out.push('\n');
        }
        proof {
            let sep: Seq<char> = if i + 1 < n {
                seq!['\n']
            } else {
                Seq::<char>::empty()
            };
            let ghost piece = seq![tag_mark(dv[i as int].0)] + dv[i as int].1 + sep;
            assert(out@ =~= mid + piece);
            assert(piece + spec_render(dv, i + 1) =~= spec_render(dv, i as int));
            assert(mid + (piece + spec_render(dv, i + 1)) =~= (mid + piece) + spec_render(
                dv,
                i + 1,
            ));
        }
        i += 1;
    }
    proof {
        assert(out@ + spec_render(dv, n as int) =~= out@);
    }
    out
}

/// The rendered line diff of two texts.
pub open spec fn spec_diff_text(t1: Seq<char>, t2: Seq<char>) -> Seq<char> {
    spec_render(spec_diff(spec_lines(t1), spec_lines(t2), 0, 0), 0)
}

/// Splits the two texts into lines, computes the edit script, and renders
/// it: sign column, one line per entry.
pub fn diff_text(text1: &str, text2: &str) -> (r: String)
    ensures
        r@ == spec_diff_text(text1@, text2@),
{
    let l1 = split_lines(text1);
    let l2 = split_lines(text2);
    let d = diff_lines(&l1, &l2);
    render_diff(&d)
}

} // verus!
