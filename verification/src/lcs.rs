//! LCS: the longest common subsequence of two strings.

use vstd::prelude::*;

use crate::bytes::{dup, i64_of, is_word, parse_i64, views, word};
use crate::context::{done, fails, replies, replies_one, CommandContext, CtxV, Outcome};
use crate::error::{runtime, wrong_args, ErrV, RedisError};
use crate::keyspace::{db_get, DbV, ObjV, RedisObject};
use crate::reply::{bulk, bulk_text, lemma_toks_add, lemma_toks_push, toks, Reply, Tok};
use crate::stream_wake::lemma_filter_step;
use crate::string::syntax_line;

verus! {

broadcast use {lemma_toks_push, lemma_toks_add};

/// The length of the longest common subsequence of the first `i` bytes of `a`
/// and the first `k` bytes of `b`.
pub open spec fn lcs_len(a: Seq<u8>, b: Seq<u8>, i: int, k: int) -> nat
    decreases i + k,
{
    if i <= 0 || k <= 0 {
        0
    } else if a[i - 1] == b[k - 1] {
        lcs_len(a, b, i - 1, k - 1) + 1
    } else if lcs_len(a, b, i - 1, k) > lcs_len(a, b, i, k - 1) {
        lcs_len(a, b, i - 1, k)
    } else {
        lcs_len(a, b, i, k - 1)
    }
}

/// The common subsequence that a walk back from `i` and `k` collects.
pub open spec fn lcs_walk(a: Seq<u8>, b: Seq<u8>, i: int, k: int) -> Seq<u8>
    decreases i + k,
{
    if i <= 0 || k <= 0 {
        Seq::empty()
    } else if a[i - 1] == b[k - 1] {
        lcs_walk(a, b, i - 1, k - 1).push(a[i - 1])
    } else if lcs_len(a, b, i - 1, k) > lcs_len(a, b, i, k - 1) {
        lcs_walk(a, b, i - 1, k)
    } else {
        lcs_walk(a, b, i, k - 1)
    }
}

/// The longest common subsequence that LCS replies.
pub open spec fn lcs_of(a: Seq<u8>, b: Seq<u8>) -> Seq<u8> {
    lcs_walk(a, b, a.len() as int, b.len() as int)
}

/// Whether `s` is a subsequence of `t`.
pub open spec fn is_subsequence(s: Seq<u8>, t: Seq<u8>) -> bool
    decreases t.len(),
{
    if s.len() == 0 {
        true
    } else if t.len() == 0 {
        false
    } else {
        (s.last() == t.last() && is_subsequence(s.drop_last(), t.drop_last())) || is_subsequence(
            s,
            t.drop_last(),
        )
    }
}

proof fn lemma_subsequence_drop(s: Seq<u8>, t: Seq<u8>)
    requires
        is_subsequence(s, t),
        s.len() > 0,
    ensures
        t.len() > 0,
        is_subsequence(s.drop_last(), t.drop_last()),
    decreases t.len(),
{
    if s.last() == t.last() && is_subsequence(s.drop_last(), t.drop_last()) {
    } else {
        lemma_subsequence_drop(s, t.drop_last());
        if s.len() > 1 {
            lemma_subsequence_grow(s.drop_last(), t.drop_last().drop_last(), t.drop_last());
        }
    }
}

proof fn lemma_subsequence_grow(s: Seq<u8>, t: Seq<u8>, u: Seq<u8>)
    requires
        is_subsequence(s, t),
        u.len() > 0,
        u.drop_last() == t,
    ensures
        is_subsequence(s, u),
{
}

proof fn lemma_walk_len(a: Seq<u8>, b: Seq<u8>, i: int, k: int)
    ensures
        lcs_walk(a, b, i, k).len() == lcs_len(a, b, i, k),
    decreases i + k,
{
    if i <= 0 || k <= 0 {
    } else if a[i - 1] == b[k - 1] {
        lemma_walk_len(a, b, i - 1, k - 1);
    } else {
        lemma_walk_len(a, b, i - 1, k);
        lemma_walk_len(a, b, i, k - 1);
    }
}

proof fn lemma_walk_common(a: Seq<u8>, b: Seq<u8>, i: int, k: int)
    requires
        0 <= i <= a.len(),
        0 <= k <= b.len(),
    ensures
        is_subsequence(lcs_walk(a, b, i, k), a.take(i)),
        is_subsequence(lcs_walk(a, b, i, k), b.take(k)),
    decreases i + k,
{
    if i <= 0 || k <= 0 {
    } else {
        assert(a.take(i).drop_last() =~= a.take(i - 1));
        assert(b.take(k).drop_last() =~= b.take(k - 1));
        if a[i - 1] == b[k - 1] {
            lemma_walk_common(a, b, i - 1, k - 1);
            let w = lcs_walk(a, b, i - 1, k - 1);
            assert(w.push(a[i - 1]).drop_last() =~= w);
        } else {
            lemma_walk_common(a, b, i - 1, k);
            lemma_walk_common(a, b, i, k - 1);
        }
    }
}

proof fn lemma_lcs_longest(a: Seq<u8>, b: Seq<u8>, i: int, k: int, s: Seq<u8>)
    requires
        0 <= i <= a.len(),
        0 <= k <= b.len(),
        is_subsequence(s, a.take(i)),
        is_subsequence(s, b.take(k)),
    ensures
        s.len() <= lcs_len(a, b, i, k),
    decreases i + k,
{
    if i > 0 && k > 0 && s.len() > 0 {
        assert(a.take(i).drop_last() =~= a.take(i - 1));
        assert(b.take(k).drop_last() =~= b.take(k - 1));
        if a[i - 1] == b[k - 1] {
            lemma_subsequence_drop(s, a.take(i));
            lemma_subsequence_drop(s, b.take(k));
            lemma_lcs_longest(a, b, i - 1, k - 1, s.drop_last());
        } else if s.last() != a[i - 1] {
            lemma_lcs_longest(a, b, i - 1, k, s);
        } else {
            lemma_lcs_longest(a, b, i, k - 1, s);
        }
    }
}

/// The reply of LCS is a subsequence of both strings, none is longer, and its
/// length is the one that LCS LEN replies.
pub proof fn law_lcs_is_longest(a: Seq<u8>, b: Seq<u8>, s: Seq<u8>)
    ensures
        is_subsequence(lcs_of(a, b), a),
        is_subsequence(lcs_of(a, b), b),
        lcs_of(a, b).len() == lcs_len(a, b, a.len() as int, b.len() as int),
        is_subsequence(s, a) && is_subsequence(s, b) ==> s.len() <= lcs_of(a, b).len(),
{
    assert(a.take(a.len() as int) =~= a);
    assert(b.take(b.len() as int) =~= b);
    lemma_walk_common(a, b, a.len() as int, b.len() as int);
    lemma_walk_len(a, b, a.len() as int, b.len() as int);
    if is_subsequence(s, a) && is_subsequence(s, b) {
        lemma_lcs_longest(a, b, a.len() as int, b.len() as int, s);
    }
}

proof fn lemma_lcs_len_bounds(a: Seq<u8>, b: Seq<u8>, i: int, k: int)
    requires
        0 <= i,
        0 <= k,
    ensures
        lcs_len(a, b, i, k) <= i,
        lcs_len(a, b, i, k) <= k,
    decreases i + k,
{
    if i > 0 && k > 0 {
        lemma_lcs_len_bounds(a, b, i - 1, k - 1);
        lemma_lcs_len_bounds(a, b, i - 1, k);
        lemma_lcs_len_bounds(a, b, i, k - 1);
    }
}

/// Whether row `i` of a table holds the lengths for the first `i + 1` bytes
/// of `a`, up to the first `n` bytes of `b`.
pub open spec fn row_ok(row: Seq<usize>, a: Seq<u8>, b: Seq<u8>, i: int, n: int) -> bool {
    &&& row.len() == n
    &&& forall|k: int| 0 <= k < n ==> #[trigger] row[k] == lcs_len(a, b, i + 1, k + 1)
}

/// Whether a table holds the lengths for all prefixes that are not empty.
pub open spec fn table_ok(t: Seq<Vec<usize>>, a: Seq<u8>, b: Seq<u8>, rows: int) -> bool {
    &&& t.len() == rows
    &&& forall|i: int| 0 <= i < rows ==> row_ok((#[trigger] t[i])@, a, b, i, b.len() as int)
}

/// An entry of the table; an empty prefix has no common bytes.
fn entry(t: &Vec<Vec<usize>>, a: &[u8], b: &[u8], i: usize, k: usize) -> (r: usize)
    requires
        table_ok(t@, a@, b@, t@.len() as int),
        i <= t@.len(),
        k <= b@.len(),
    ensures
        r == lcs_len(a@, b@, i as int, k as int),
{
    if i == 0 || k == 0 {
        0
    } else {
        assert(row_ok(t@[i - 1]@, a@, b@, i - 1, b@.len() as int));
        t[i - 1][k - 1]
    }
}

/// The lengths for the first `t.len() + 1` bytes of `a`.
fn next_row(t: &Vec<Vec<usize>>, a: &[u8], b: &[u8]) -> (r: Vec<usize>)
    requires
        table_ok(t@, a@, b@, t@.len() as int),
        t@.len() < a@.len(),
    ensures
        row_ok(r@, a@, b@, t@.len() as int, b@.len() as int),
{
    let i: usize = t.len();
    let mut row: Vec<usize> = Vec::new();
    let mut k: usize = 0;
    while k < b.len()
        invariant
            table_ok(t@, a@, b@, t@.len() as int),
            i == t@.len(),
            i < a@.len(),
            k <= b@.len(),
            row_ok(row@, a@, b@, i as int, k as int),
        decreases b@.len() - k,
    {
        let left: usize = if k == 0 { 0 } else { row[k - 1] };
        assert(left == lcs_len(a@, b@, i + 1, k as int));
        let v: usize = if a[i] == b[k] {
            proof {
                lemma_lcs_len_bounds(a@, b@, i as int, k as int);
            }
            entry(t, a, b, i, k) + 1
        } else {
            let up: usize = entry(t, a, b, i, k + 1);
            if up > left {
                up
            } else {
                left
            }
        };
        assert(v == lcs_len(a@, b@, i + 1, k + 1));
        row.push(v);
        k += 1;
    }
    row
}

/// The lengths for all prefixes.
fn lcs_table(a: &[u8], b: &[u8]) -> (r: Vec<Vec<usize>>)
    ensures
        table_ok(r@, a@, b@, a@.len() as int),
{
    let mut t: Vec<Vec<usize>> = Vec::new();
    while t.len() < a.len()
        invariant
            t@.len() <= a@.len(),
            table_ok(t@, a@, b@, t@.len() as int),
        decreases a@.len() - t@.len(),
    {
        let row: Vec<usize> = next_row(&t, a, b);
        t.push(row);
    }
    t
}

/// The common subsequence that the walk collects.
fn walk_string(t: &Vec<Vec<usize>>, a: &[u8], b: &[u8]) -> (r: Vec<u8>)
    requires
        table_ok(t@, a@, b@, a@.len() as int),
    ensures
        r@ == lcs_of(a@, b@),
{
    let mut back: Vec<u8> = Vec::new();
    let mut i: usize = a.len();
    let mut k: usize = b.len();
    let ghost whole = lcs_of(a@, b@);
    assert(whole =~= lcs_walk(a@, b@, i as int, k as int) + back@.reverse());
    while i > 0 && k > 0
        invariant
            table_ok(t@, a@, b@, a@.len() as int),
            i <= a@.len(),
            k <= b@.len(),
            whole == lcs_walk(a@, b@, i as int, k as int) + back@.reverse(),
        decreases i + k,
    {
        if a[i - 1] == b[k - 1] {
            let ghost was = back@;
            let x: u8 = a[i - 1];
            back.push(x);
            assert(back@.reverse() =~= seq![x] + was.reverse());
            i -= 1;
            k -= 1;
            assert(whole =~= lcs_walk(a@, b@, i as int, k as int) + back@.reverse());
        } else if entry(t, a, b, i - 1, k) > entry(t, a, b, i, k - 1) {
            i -= 1;
        } else {
            k -= 1;
        }
    }
    let ghost full = back@;
    let mut r: Vec<u8> = Vec::new();
    let mut j: usize = back.len();
    assert(r@ =~= full.reverse().take(0));
    while j > 0
        invariant
            full == back@,
            j <= full.len(),
            r@ =~= full.reverse().take(full.len() - j),
        decreases j,
    {
        r.push(back[j - 1]);
        j -= 1;
    }
    assert(r@ =~= full.reverse());
    assert(whole =~= full.reverse());
    r
}

/// A stretch of equal bytes: where it starts and ends in both strings.
#[derive(Debug, Clone, Copy, PartialEq, Eq, Structural)]
pub struct LcsMatch {
    pub a_start: usize,
    pub a_end: usize,
    pub b_start: usize,
    pub b_end: usize,
}

/// The stretches of the walk back from `i` and `k`, the last one first. `open`
/// is the end of the stretch that reaches to `i` and `k`.
pub open spec fn lcs_runs(
    a: Seq<u8>,
    b: Seq<u8>,
    i: int,
    k: int,
    open: Option<(usize, usize)>,
) -> Seq<LcsMatch>
    decreases i + k,
{
    if i <= 0 || k <= 0 {
        Seq::empty()
    } else if a[i - 1] == b[k - 1] {
        let end = match open {
            Some(e) => e,
            None => ((i - 1) as usize, (k - 1) as usize),
        };
        if i == 1 || k == 1 {
            seq![
                LcsMatch {
                    a_start: (i - 1) as usize,
                    a_end: end.0,
                    b_start: (k - 1) as usize,
                    b_end: end.1,
                },
            ]
        } else {
            lcs_runs(a, b, i - 1, k - 1, Some(end))
        }
    } else {
        let rest = if lcs_len(a, b, i - 1, k) > lcs_len(a, b, i, k - 1) {
            lcs_runs(a, b, i - 1, k, None)
        } else {
            lcs_runs(a, b, i, k - 1, None)
        };
        match open {
            Some(e) => seq![
                LcsMatch { a_start: i as usize, a_end: e.0, b_start: k as usize, b_end: e.1 },
            ] + rest,
            None => rest,
        }
    }
}

/// The stretches that LCS IDX replies, the last one first.
pub open spec fn lcs_matches(a: Seq<u8>, b: Seq<u8>) -> Seq<LcsMatch> {
    lcs_runs(a, b, a.len() as int, b.len() as int, None)
}

/// The stretches of the walk.
fn walk_runs(t: &Vec<Vec<usize>>, a: &[u8], b: &[u8]) -> (r: Vec<LcsMatch>)
    requires
        table_ok(t@, a@, b@, a@.len() as int),
    ensures
        r@ == lcs_matches(a@, b@),
        forall|j: int|
            0 <= j < r@.len() ==> (#[trigger] r@[j]).a_start <= r@[j].a_end < a@.len(),
{
    let ghost whole = lcs_matches(a@, b@);
    let mut runs: Vec<LcsMatch> = Vec::new();
    let mut i: usize = a.len();
    let mut k: usize = b.len();
    let mut open: Option<(usize, usize)> = None;
    assert(whole =~= runs@ + lcs_runs(a@, b@, i as int, k as int, open));
    while i > 0 && k > 0
        invariant
            table_ok(t@, a@, b@, a@.len() as int),
            i <= a@.len(),
            k <= b@.len(),
            open matches Some(e) ==> i <= e.0 < a@.len(),
            forall|j: int|
                0 <= j < runs@.len() ==> (#[trigger] runs@[j]).a_start <= runs@[j].a_end < a@.len(),
            whole == runs@ + lcs_runs(a@, b@, i as int, k as int, open),
        decreases i + k,
    {
        let ghost was = runs@;
        let ghost rest = lcs_runs(a@, b@, i as int, k as int, open);
        if a[i - 1] == b[k - 1] {
            let end: (usize, usize) = match open {
                Some(e) => e,
                None => (i - 1, k - 1),
            };
            i -= 1;
            k -= 1;
            if i == 0 || k == 0 {
                runs.push(LcsMatch { a_start: i, a_end: end.0, b_start: k, b_end: end.1 });
                open = None;
                assert(was + rest =~= runs@ + lcs_runs(a@, b@, i as int, k as int, open));
            } else {
                open = Some(end);
            }
        } else {
            match open {
                Some(e) => {
                    runs.push(LcsMatch { a_start: i, a_end: e.0, b_start: k, b_end: e.1 });
                },
                None => {},
            }
            open = None;
            if entry(t, a, b, i - 1, k) > entry(t, a, b, i, k - 1) {
                i -= 1;
            } else {
                k -= 1;
            }
            assert(was + rest =~= runs@ + lcs_runs(a@, b@, i as int, k as int, open));
        }
    }
    assert(whole =~= runs@);
    runs
}

/// The number of bytes of a stretch.
pub open spec fn match_len(m: LcsMatch) -> int {
    m.a_end - m.a_start + 1
}

/// The number of bytes of some stretches together.
pub open spec fn total_len(ms: Seq<LcsMatch>) -> int
    decreases ms.len(),
{
    if ms.len() == 0 {
        0
    } else {
        match_len(ms.first()) + total_len(ms.skip(1))
    }
}

proof fn lemma_runs_cover(a: Seq<u8>, b: Seq<u8>, i: int, k: int, open: Option<(usize, usize)>)
    requires
        0 <= i <= a.len() <= usize::MAX,
        0 <= k <= b.len() <= usize::MAX,
        open matches Some(e) ==> i > 0 && k > 0 && i <= e.0,
    ensures
        total_len(lcs_runs(a, b, i, k, open)) == lcs_len(a, b, i, k) + (match open {
            Some(e) => e.0 - i + 1,
            None => 0,
        }),
    decreases i + k,
{
    if i > 0 && k > 0 {
        if a[i - 1] == b[k - 1] {
            let end = match open {
                Some(e) => e,
                None => ((i - 1) as usize, (k - 1) as usize),
            };
            if i == 1 || k == 1 {
                let s = lcs_runs(a, b, i, k, open);
                assert(lcs_len(a, b, i - 1, k - 1) == 0);
                assert(s.len() == 1);
                assert(s.skip(1) =~= Seq::empty());
                assert(total_len(s.skip(1)) == 0);
            } else {
                lemma_runs_cover(a, b, i - 1, k - 1, Some(end));
            }
        } else {
            let rest = if lcs_len(a, b, i - 1, k) > lcs_len(a, b, i, k - 1) {
                lemma_runs_cover(a, b, i - 1, k, None);
                lcs_runs(a, b, i - 1, k, None)
            } else {
                lemma_runs_cover(a, b, i, k - 1, None);
                lcs_runs(a, b, i, k - 1, None)
            };
            match open {
                Some(e) => {
                    assert(lcs_runs(a, b, i, k, open).skip(1) =~= rest);
                },
                None => {},
            }
        }
    }
}

/// The stretches that LCS IDX replies, without a least length, have as many
/// bytes together as the longest common subsequence.
pub proof fn law_lcs_ranges_cover(a: Seq<u8>, b: Seq<u8>)
    requires
        a.len() <= usize::MAX,
        b.len() <= usize::MAX,
    ensures
        total_len(lcs_matches(a, b)) == lcs_of(a, b).len(),
{
    lemma_runs_cover(a, b, a.len() as int, b.len() as int, None);
    lemma_walk_len(a, b, a.len() as int, b.len() as int);
}

/// The stretches with at least `min` bytes.
pub open spec fn long_matches(ms: Seq<LcsMatch>, min: int) -> Seq<LcsMatch> {
    ms.filter(|m: LcsMatch| match_len(m) >= min)
}

/// The stretches with at least `min` bytes.
fn keep_long(ms: &Vec<LcsMatch>, min: i64) -> (r: Vec<LcsMatch>)
    requires
        forall|j: int| 0 <= j < ms@.len() ==> (#[trigger] ms@[j]).a_start <= ms@[j].a_end,
    ensures
        r@ == long_matches(ms@, min as int),
        forall|j: int| 0 <= j < r@.len() ==> (#[trigger] r@[j]).a_start <= r@[j].a_end,
{
    let ghost p = |m: LcsMatch| match_len(m) >= min as int;
    let mut r: Vec<LcsMatch> = Vec::new();
    let mut i: usize = 0;
    proof {
        reveal(Seq::filter);
        assert(ms@.take(0).filter(p) =~= Seq::empty());
    }
    while i < ms.len()
        invariant
            i <= ms@.len(),
            p == (|m: LcsMatch| match_len(m) >= min as int),
            forall|j: int| 0 <= j < ms@.len() ==> (#[trigger] ms@[j]).a_start <= ms@[j].a_end,
            forall|j: int| 0 <= j < r@.len() ==> (#[trigger] r@[j]).a_start <= r@[j].a_end,
            r@ == ms@.take(i as int).filter(p),
        decreases ms@.len() - i,
    {
        let m: LcsMatch = ms[i];
        proof {
            lemma_filter_step(ms@, p, i as int);
        }
        if (m.a_end - m.a_start) as i128 + 1 >= min as i128 {
            r.push(m);
        }
        i += 1;
    }
    assert(ms@.take(i as int) =~= ms@);
    r
}

/// One stretch in the reply.
pub open spec fn match_toks(m: LcsMatch, with_len: bool) -> Seq<Tok> {
    let ranges = seq![
        Tok::Array(2),
        Tok::Int(m.a_start as i64 as int),
        Tok::Int(m.a_end as i64 as int),
        Tok::Array(2),
        Tok::Int(m.b_start as i64 as int),
        Tok::Int(m.b_end as i64 as int),
    ];
    if with_len {
        seq![Tok::Array(3)] + ranges + seq![Tok::Int(match_len(m) as i64 as int)]
    } else {
        seq![Tok::Array(2)] + ranges
    }
}

/// The stretches in the reply.
pub open spec fn matches_toks(ms: Seq<LcsMatch>, with_len: bool) -> Seq<Tok>
    decreases ms.len(),
{
    if ms.len() == 0 {
        Seq::empty()
    } else {
        matches_toks(ms.drop_last(), with_len) + match_toks(ms.last(), with_len)
    }
}

/// The reply of LCS IDX.
pub open spec fn lcs_idx_reply(a: Seq<u8>, b: Seq<u8>, min: int, with_len: bool) -> Seq<Tok> {
    let ms = long_matches(lcs_matches(a, b), min);
    seq![Tok::Pairs(2), bulk("matches"@), Tok::Array(ms.len())] + matches_toks(ms, with_len)
        + seq![bulk("len"@), Tok::Int(lcs_of(a, b).len() as i64 as int)]
}

/// Adds one stretch to the reply.
fn put_match(out: &mut Vec<Reply>, m: &LcsMatch, with_len: bool)
    requires
        m.a_start <= m.a_end,
    ensures
        toks(final(out)@) == toks(old(out)@) + match_toks(*m, with_len),
{
    let ghost first = toks(out@);
    out.push(Reply::Array(if with_len { 3 } else { 2 }));
    out.push(Reply::Array(2));
    out.push(Reply::Int(m.a_start as i64));
    out.push(Reply::Int(m.a_end as i64));
    out.push(Reply::Array(2));
    out.push(Reply::Int(m.b_start as i64));
    out.push(Reply::Int(m.b_end as i64));
    if with_len {
        out.push(Reply::Int(((m.a_end - m.a_start) as u128 + 1) as i64));
    }
    assert(toks(out@) =~= first + match_toks(*m, with_len));
}

/// The reply of LCS IDX.
fn idx_reply(a: &[u8], b: &[u8], min: i64, with_len: bool) -> (r: Vec<Reply>)
    ensures
        toks(r@) == lcs_idx_reply(a@, b@, min as int, with_len),
{
    let t: Vec<Vec<usize>> = lcs_table(a, b);
    let total: usize = entry(&t, a, b, a.len(), b.len());
    let runs: Vec<LcsMatch> = walk_runs(&t, a, b);
    let ms: Vec<LcsMatch> = keep_long(&runs, min);
    let mut out: Vec<Reply> = Vec::new();
    out.push(Reply::Pairs(2));
    out.push(bulk_text("matches"));
    out.push(Reply::Array(ms.len() as u128));
    let ghost first = toks(out@);
    let mut i: usize = 0;
    proof {
        assert(first =~= seq![Tok::Pairs(2), bulk("matches"@), Tok::Array(ms@.len())]);
        assert(first =~= first + matches_toks(ms@.take(0), with_len));
    }
    while i < ms.len()
        invariant
            i <= ms@.len(),
            forall|j: int| 0 <= j < ms@.len() ==> (#[trigger] ms@[j]).a_start <= ms@[j].a_end,
            toks(out@) == first + matches_toks(ms@.take(i as int), with_len),
        decreases ms@.len() - i,
    {
        put_match(&mut out, &ms[i], with_len);
        proof {
            assert(ms@.take(i + 1).drop_last() =~= ms@.take(i as int));
            assert(toks(out@) =~= first + matches_toks(ms@.take(i + 1), with_len));
        }
        i += 1;
    }
    out.push(bulk_text("len"));
    out.push(Reply::Int(total as i64));
    proof {
        assert(ms@.take(i as int) =~= ms@);
        lemma_walk_len(a@, b@, a@.len() as int, b@.len() as int);
        assert(toks(out@) =~= lcs_idx_reply(a@, b@, min as int, with_len));
    }
    out
}

/// The options of LCS.
#[derive(Debug, Clone, Copy, PartialEq, Eq, Structural)]
pub struct LcsOptions {
    pub getlen: bool,
    pub getidx: bool,
    pub withmatchlen: bool,
    pub minmatchlen: i64,
}

/// No options.
pub open spec fn no_lcs_options() -> LcsOptions {
    LcsOptions { getlen: false, getidx: false, withmatchlen: false, minmatchlen: 0 }
}

/// The options of LCS from argument `j` on, after those in `o`.
pub open spec fn lcs_options(argv: Seq<Seq<u8>>, j: int, o: LcsOptions) -> Result<LcsOptions, ErrV>
    decreases argv.len() - j,
{
    if j < 0 || j >= argv.len() {
        Ok(o)
    } else if is_word(argv[j], "IDX"@) {
        lcs_options(argv, j + 1, LcsOptions { getidx: true, ..o })
    } else if is_word(argv[j], "LEN"@) {
        lcs_options(argv, j + 1, LcsOptions { getlen: true, ..o })
    } else if is_word(argv[j], "WITHMATCHLEN"@) {
        lcs_options(argv, j + 1, LcsOptions { withmatchlen: true, ..o })
    } else if is_word(argv[j], "MINMATCHLEN"@) && j + 1 < argv.len() {
        match i64_of(argv[j + 1]) {
            None => Err(runtime("ERR value is not an integer or out of range"@)),
            Some(n) => lcs_options(
                argv,
                j + 2,
                LcsOptions {
                    minmatchlen: if n < 0 {
                        0
                    } else {
                        n
                    },
                    ..o
                },
            ),
        }
    } else {
        Err(syntax_line())
    }
}

/// Parses the options of LCS.
fn parse_lcs_options(argv: &[Vec<u8>]) -> (r: Result<LcsOptions, RedisError>)
    requires
        argv@.len() >= 3,
    ensures
        match r {
            Ok(o) => lcs_options(views(argv@), 3, no_lcs_options()) == Ok::<_, ErrV>(o),
            Err(e) => lcs_options(views(argv@), 3, no_lcs_options()) == Err::<LcsOptions, ErrV>(
                e@,
            ),
        },
{
    let ghost all = views(argv@);
    let ghost whole = lcs_options(all, 3, no_lcs_options());
    let argc: usize = argv.len();
    let mut o = LcsOptions { getlen: false, getidx: false, withmatchlen: false, minmatchlen: 0 };
    let mut j: usize = 3;
    while j < argc
        invariant
            argc == argv@.len(),
            all == views(argv@),
            3 <= j <= argc,
            whole == lcs_options(all, 3, no_lcs_options()),
            whole == lcs_options(all, j as int, o),
        decreases argc - j,
    {
        let a: &Vec<u8> = &argv[j];
        assert(a@ == all[j as int]);
        if word(a, "IDX") {
            o.getidx = true;
            j += 1;
        } else if word(a, "LEN") {
            o.getlen = true;
            j += 1;
        } else if word(a, "WITHMATCHLEN") {
            o.withmatchlen = true;
            j += 1;
        } else if word(a, "MINMATCHLEN") && argc - j > 1 {
            match parse_i64(&argv[j + 1]) {
                None => {
                    return Err(
                        RedisError::runtime("ERR value is not an integer or out of range"),
                    );
                },
                Some(n) => o.minmatchlen = if n < 0 { 0 } else { n },
            }
            j += 2;
        } else {
            return Err(RedisError::runtime("ERR syntax error"));
        }
    }
    Ok(o)
}

/// The string under a key as LCS reads it.
pub open spec fn lcs_string(d: DbV, key: Seq<u8>) -> Result<Seq<u8>, ErrV> {
    match db_get(d, key) {
        None => Ok(Seq::empty()),
        Some(ObjV::Str(s)) => Ok(s),
        Some(_) => Err(runtime("The specified keys must contain string values"@)),
    }
}

/// The string under a key as LCS reads it.
fn lcs_lookup(ctx: &CommandContext, key: &[u8]) -> (r: Result<Vec<u8>, RedisError>)
    requires
        ctx.wf(),
    ensures
        match r {
            Ok(s) => lcs_string(ctx@.db, key@) == Ok::<_, ErrV>(s@),
            Err(e) => lcs_string(ctx@.db, key@) == Err::<Seq<u8>, ErrV>(e@),
        },
{
    match ctx.db.lookup_key_read(key) {
        None => Ok(Vec::new()),
        Some(RedisObject::Str(s)) => Ok(dup(s)),
        Some(_) => Err(RedisError::runtime("The specified keys must contain string values")),
    }
}

/// How LCS ends.
pub open spec fn lcs_outcome(c: CtxV) -> Outcome {
    let argv = c.client.argv;
    if argv.len() < 3 {
        fails(c, wrong_args("lcs"@))
    } else {
        match lcs_options(argv, 3, no_lcs_options()) {
            Err(e) => fails(c, e),
            Ok(o) => if o.getlen && o.getidx {
                fails(
                    c,
                    runtime("If you want both the length and indexes, please just use IDX."@),
                )
            } else {
                match (lcs_string(c.db, argv[1]), lcs_string(c.db, argv[2])) {
                    (Err(e), _) => fails(c, e),
                    (Ok(_), Err(e)) => fails(c, e),
                    (Ok(a), Ok(b)) => if o.getidx {
                        replies(c, lcs_idx_reply(a, b, o.minmatchlen as int, o.withmatchlen))
                    } else if o.getlen {
                        replies_one(c, Tok::Int(lcs_of(a, b).len() as i64 as int))
                    } else {
                        replies_one(c, Tok::Bulk(lcs_of(a, b)))
                    },
                }
            },
        }
    }
}

/// LCS key1 key2 [LEN] [IDX] [MINMATCHLEN n] [WITHMATCHLEN]
pub fn lcs_command(ctx: &mut CommandContext) -> (r: Result<(), RedisError>)
    requires
        old(ctx).wf(),
    ensures
        final(ctx).wf(),
        done(r, final(ctx)@) == lcs_outcome(old(ctx)@),
{
    if ctx.arg_count() < 3 {
        return Err(RedisError::wrong_number_of_args("lcs"));
    }
    let o: LcsOptions = match parse_lcs_options(&ctx.client.argv) {
        Err(e) => return Err(e),
        Ok(o) => o,
    };
    if o.getlen && o.getidx {
        return Err(
            RedisError::runtime("If you want both the length and indexes, please just use IDX."),
        );
    }
    let a: Vec<u8> = match lcs_lookup(ctx, &ctx.client.argv[1]) {
        Err(e) => return Err(e),
        Ok(s) => s,
    };
    let b: Vec<u8> = match lcs_lookup(ctx, &ctx.client.argv[2]) {
        Err(e) => return Err(e),
        Ok(s) => s,
    };
    if o.getidx {
        let out: Vec<Reply> = idx_reply(&a, &b, o.minmatchlen, o.withmatchlen);
        ctx.reply_all(out);
        Ok(())
    } else {
        let t: Vec<Vec<usize>> = lcs_table(&a, &b);
        if o.getlen {
            let n: usize = entry(&t, &a, &b, a.len(), b.len());
            proof {
                lemma_walk_len(a@, b@, a@.len() as int, b@.len() as int);
            }
            ctx.reply_integer(n as i64)
        } else {
            let s: Vec<u8> = walk_string(&t, &a, &b);
            ctx.reply_bulk(s)
        }
    }
}

} // verus!
