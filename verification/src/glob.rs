//! Glob patterns, as in SCAN and in channel patterns.

use vstd::prelude::*;

verus! {

/// Whether a byte is in a class, from position `i` of the pattern inside the
/// class on, where `found` tells what was found before, and where the class
/// ends.
pub open spec fn class_from(p: Seq<u8>, i: int, c: u8, found: bool) -> (bool, int)
    decreases p.len() - i,
{
    if i < 0 || i >= p.len() {
        (found, p.len() as int)
    } else if p[i] == 92 && i + 1 < p.len() {
        class_from(p, i + 2, c, found || p[i + 1] == c)
    } else if p[i] == 93 {
        (found, i + 1)
    } else if i + 2 < p.len() && p[i + 1] == 45 {
        class_from(
            p,
            i + 3,
            c,
            found || (p[i] <= c && c <= p[i + 2]) || (p[i + 2] <= c && c <= p[i]),
        )
    } else {
        class_from(p, i + 1, c, found || p[i] == c)
    }
}

/// Whether the class that begins at position `i` of a pattern admits a byte, and
/// where the class ends.
pub open spec fn class_at(p: Seq<u8>, i: int, c: u8) -> (bool, int) {
    if i + 1 < p.len() && p[i + 1] == 94 {
        let (found, e) = class_from(p, i + 2, c, false);
        (!found, e)
    } else {
        class_from(p, i + 1, c, false)
    }
}

/// Whether the pattern from position `i` on matches the string from position
/// `j` on.
pub open spec fn glob_from(p: Seq<u8>, i: int, s: Seq<u8>, j: int) -> bool
    decreases p.len() - i, s.len() - j,
{
    if i < 0 || j < 0 || j > s.len() {
        false
    } else if i >= p.len() {
        j == s.len()
    } else if p[i] == 42 {
        glob_from(p, i + 1, s, j) || (j < s.len() && glob_from(p, i, s, j + 1))
    } else if j == s.len() {
        false
    } else if p[i] == 63 {
        glob_from(p, i + 1, s, j + 1)
    } else if p[i] == 91 {
        let (admits, e) = class_at(p, i, s[j]);
        admits && i < e <= p.len() && glob_from(p, e, s, j + 1)
    } else if p[i] == 92 && i + 1 < p.len() {
        p[i + 1] == s[j] && glob_from(p, i + 2, s, j + 1)
    } else {
        p[i] == s[j] && glob_from(p, i + 1, s, j + 1)
    }
}

/// Whether a pattern matches a string: `*` stands for any bytes, `?` for one,
/// `[..]` for one of a class, and a backslash takes the next byte literally.
pub open spec fn glob(p: Seq<u8>, s: Seq<u8>) -> bool {
    glob_from(p, 0, s, 0)
}

proof fn lemma_class_end(p: Seq<u8>, i: int, c: u8, found: bool)
    requires
        0 <= i <= p.len() + 1,
    ensures
        class_from(p, i, c, found).1 <= p.len(),
        i <= p.len() ==> i <= class_from(p, i, c, found).1,
    decreases p.len() + 1 - i,
{
    if i < p.len() {
        if p[i] == 92 && i + 1 < p.len() {
            lemma_class_end(p, i + 2, c, found || p[i + 1] == c);
        } else if p[i] == 93 {
        } else if i + 2 < p.len() && p[i + 1] == 45 {
            lemma_class_end(
                p,
                i + 3,
                c,
                found || (p[i] <= c && c <= p[i + 2]) || (p[i + 2] <= c && c <= p[i]),
            );
        } else {
            lemma_class_end(p, i + 1, c, found || p[i] == c);
        }
    }
}

/// Reads the class that begins at a position.
fn read_class(p: &[u8], i: usize, c: u8) -> (r: (bool, usize))
    requires
        i < p@.len(),
    ensures
        r.0 == class_at(p@, i as int, c).0,
        r.1 == class_at(p@, i as int, c).1,
        i < r.1 <= p@.len(),
{
    let len: usize = p.len();
    let not: bool = len - i > 1 && p[i + 1] == 94;
    let start: usize = if not { i + 2 } else { i + 1 };
    let ghost whole = class_from(p@, start as int, c, false);
    proof {
        lemma_class_end(p@, start as int, c, false);
    }
    let mut found: bool = false;
    let mut k: usize = start;
    let mut end: usize = len;
    let mut go: bool = true;
    while go
        invariant
            len == p@.len(),
            start <= k <= len,
            whole == class_from(p@, start as int, c, false),
            go ==> whole == class_from(p@, k as int, c, found),
            !go ==> whole == (found, end as int),
        decreases len - k + (if go { 1int } else { 0int }),
    {
        if k >= len {
            end = len;
            go = false;
        } else if p[k] == 92 && len - k > 1 {
            found = found || p[k + 1] == c;
            k += 2;
        } else if p[k] == 93 {
            end = k + 1;
            go = false;
        } else if len - k > 2 && p[k + 1] == 45 {
            found = found || (p[k] <= c && c <= p[k + 2]) || (p[k + 2] <= c && c <= p[k]);
            k += 3;
        } else {
            found = found || p[k] == c;
            k += 1;
        }
    }
    (if not { !found } else { found }, end)
}

/// One row of the table of all suffixes: what the pattern from position `i` on
/// matches, given the rows after it.
fn glob_row(p: &[u8], i: usize, s: &[u8], rows: &Vec<Vec<bool>>) -> (r: Vec<bool>)
    requires
        i < p@.len(),
        rows@.len() == p@.len() + 1,
        forall|a: int|
            i < a <= p@.len() ==> (#[trigger] rows@[a])@.len() == s@.len() + 1,
        forall|a: int, b: int|
            i < a <= p@.len() && 0 <= b <= s@.len() ==> #[trigger] rows@[a]@[b] == glob_from(
                p@,
                a,
                s@,
                b,
            ),
    ensures
        r@.len() == s@.len() + 1,
        forall|b: int| 0 <= b <= s@.len() ==> #[trigger] r@[b] == glob_from(p@, i as int, s@, b),
{
    let n: usize = s.len();
    let plen: usize = p.len();
    let mut back: Vec<bool> = Vec::new();
    let mut left: u128 = n as u128 + 1;
    while left > 0
        invariant
            n == s@.len(),
            plen == p@.len(),
            i < plen,
            rows@.len() == plen + 1,
            left <= n + 1,
            back@.len() == n + 1 - left,
            forall|a: int|
                i < a <= p@.len() ==> (#[trigger] rows@[a])@.len() == s@.len() + 1,
            forall|a: int, b: int|
                i < a <= p@.len() && 0 <= b <= s@.len() ==> #[trigger] rows@[a]@[b] == glob_from(
                    p@,
                    a,
                    s@,
                    b,
                ),
            forall|k: int|
                0 <= k < back@.len() ==> #[trigger] back@[k] == glob_from(
                    p@,
                    i as int,
                    s@,
                    n - k,
                ),
        decreases left,
    {
        left -= 1;
        let j: usize = left as usize;
        let ghost ii = i as int;
        assert(rows@[ii + 1]@.len() == n + 1);
        let hit: bool = if p[i] == 42 {
            rows[i + 1][j] || (j < n && back[n - j - 1])
        } else if j == n {
            false
        } else if p[i] == 63 {
            rows[i + 1][j + 1]
        } else if p[i] == 91 {
            let (admits, e) = read_class(p, i, s[j]);
            assert(rows@[e as int]@.len() == n + 1);
            admits && rows[e][j + 1]
        } else if p[i] == 92 && plen - i > 1 {
            assert(rows@[ii + 2]@.len() == n + 1);
            p[i + 1] == s[j] && rows[i + 2][j + 1]
        } else {
            p[i] == s[j] && rows[i + 1][j + 1]
        };
        assert(hit == glob_from(p@, ii, s@, j as int));
        back.push(hit);
    }
    let r: Vec<bool> = crate::lists::reversed(back);
    assert forall|b: int| 0 <= b <= s@.len() implies #[trigger] r@[b] == glob_from(
        p@,
        i as int,
        s@,
        b,
    ) by {
        assert(r@[b] == back@[n - b]);
    }
    r
}

/// Whether a pattern matches a string.
pub fn glob_match(p: &[u8], s: &[u8]) -> (r: bool)
    ensures
        r == glob(p@, s@),
{
    let plen: usize = p.len();
    let n: usize = s.len();
    let mut rows: Vec<Vec<bool>> = Vec::new();
    let mut i: u128 = 0;
    while i <= plen as u128
        invariant
            plen == p@.len(),
            i <= plen + 1,
            rows@.len() == i,
        decreases plen + 1 - i,
    {
        rows.push(Vec::new());
        i += 1;
    }
    let mut last: Vec<bool> = Vec::new();
    let mut j: u128 = 0;
    while j <= n as u128
        invariant
            plen == p@.len(),
            n == s@.len(),
            j <= n + 1,
            last@.len() == j,
            forall|b: int|
                0 <= b < j ==> #[trigger] last@[b] == glob_from(p@, plen as int, s@, b),
        decreases n + 1 - j,
    {
        last.push(j == n as u128);
        j += 1;
    }
    rows.set(plen, last);
    let mut i: usize = plen;
    while i > 0
        invariant
            plen == p@.len(),
            n == s@.len(),
            i <= plen,
            rows@.len() == plen + 1,
            forall|a: int|
                i <= a <= p@.len() ==> (#[trigger] rows@[a])@.len() == s@.len() + 1,
            forall|a: int, b: int|
                i <= a <= p@.len() && 0 <= b <= s@.len() ==> #[trigger] rows@[a]@[b] == glob_from(
                    p@,
                    a,
                    s@,
                    b,
                ),
        decreases i,
    {
        i -= 1;
        let row: Vec<bool> = glob_row(p, i, s, &rows);
        rows.set(i, row);
    }
    assert(rows@[0]@.len() == n + 1);
    rows[0][0]
}

/// A lone star matches every string.
pub proof fn law_star_matches_all(s: Seq<u8>, j: int)
    requires
        0 <= j <= s.len(),
    ensures
        glob_from(seq![42u8], 0, s, j),
    decreases s.len() - j,
{
    if j < s.len() {
        law_star_matches_all(s, j + 1);
    } else {
        assert(glob_from(seq![42u8], 1, s, j));
    }
}

/// A pattern without special bytes matches itself alone.
pub proof fn law_plain_pattern(p: Seq<u8>, s: Seq<u8>, i: int)
    requires
        0 <= i <= p.len(),
        i <= s.len(),
        forall|k: int| 0 <= k < p.len() ==> p[k] != 42 && p[k] != 63 && p[k] != 91 && p[k] != 92,
    ensures
        glob_from(p, i, s, i) <==> p.skip(i) == s.skip(i),
    decreases p.len() - i,
{
    let a = p.skip(i);
    let b = s.skip(i);
    if i == p.len() {
        if i == s.len() {
            assert(a =~= b);
        } else {
            assert(a.len() == 0 && b.len() > 0);
        }
    } else if i == s.len() {
        assert(a.len() > 0 && b.len() == 0);
    } else {
        law_plain_pattern(p, s, i + 1);
        assert(p.skip(i + 1) =~= a.skip(1));
        assert(s.skip(i + 1) =~= b.skip(1));
        assert(a =~= seq![p[i]] + a.skip(1));
        assert(b =~= seq![s[i]] + b.skip(1));
        if a == b {
            assert(a[0] == b[0]);
        }
    }
}

} // verus!
