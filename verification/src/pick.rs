//! Choosing members at random, from a seed that the caller brings.

use vstd::prelude::*;

use crate::bytes::{dup, dup_all, lemma_views_push, views};

verus! {

broadcast use lemma_views_push;

/// The next state of the generator, which is also its next number.
pub open spec fn xorshift(x: u64) -> u64 {
    let a = x ^ (x << 13u64);
    let b = a ^ (a >> 7u64);
    b ^ (b << 17u64)
}

/// Advances the generator and gives its next number.
pub fn xorshift64(state: &mut u64) -> (r: u64)
    ensures
        r == xorshift(*old(state)),
        *final(state) == r,
{
    let x: u64 = *state;
    let a: u64 = x ^ (x << 13u64);
    let b: u64 = a ^ (a >> 7u64);
    let c: u64 = b ^ (b << 17u64);
    *state = c;
    c
}

/// The position that the generator chooses among those from `i` on.
pub open spec fn choice(rng: u64, i: int, len: int) -> int {
    i + xorshift(rng) as int % (len - i)
}

/// A list with two positions exchanged.
pub open spec fn swapped(s: Seq<Seq<u8>>, i: int, j: int) -> Seq<Seq<u8>> {
    s.update(i, s[j]).update(j, s[i])
}

/// A list whose positions from `i` to `n` were chosen one after the other from
/// all that were left.
pub open spec fn shuffled(s: Seq<Seq<u8>>, i: int, n: int, rng: u64) -> Seq<Seq<u8>>
    decreases n - i,
{
    if i < 0 || i >= n || i >= s.len() {
        s
    } else {
        shuffled(swapped(s, i, choice(rng, i, s.len() as int)), i + 1, n, xorshift(rng))
    }
}

/// The first `n` of a list after it was shuffled.
pub open spec fn drawn(s: Seq<Seq<u8>>, n: int, rng: u64) -> Seq<Seq<u8>> {
    shuffled(s, 0, n, rng).take(n)
}

/// Members chosen one after the other, each from all.
pub open spec fn picked(s: Seq<Seq<u8>>, n: nat, rng: u64) -> Seq<Seq<u8>>
    decreases n,
{
    if n == 0 {
        Seq::empty()
    } else {
        seq![s[choice(rng, 0, s.len() as int)]] + picked(s, (n - 1) as nat, xorshift(rng))
    }
}

/// The position that the generator chooses among those from `i` on.
fn choose_position(rng: &mut u64, i: usize, len: usize) -> (r: usize)
    requires
        i < len,
    ensures
        r == choice(*old(rng), i as int, len as int),
        i <= r < len,
        *final(rng) == xorshift(*old(rng)),
{
    let x: u64 = xorshift64(rng);
    let m: u128 = (len - i) as u128;
    let k: u128 = x as u128 % m;
    proof {
        vstd::arithmetic::div_mod::lemma_mod_bound(x as int, (len - i) as int);
    }
    i + k as usize
}

/// Draws `n` members.
pub fn draw(ms: &[Vec<u8>], n: usize, seed: u64) -> (r: Vec<Vec<u8>>)
    requires
        n <= ms@.len(),
    ensures
        views(r@) == drawn(views(ms@), n as int, seed),
{
    let len: usize = ms.len();
    let ghost whole = shuffled(views(ms@), 0, n as int, seed);
    let mut all: Vec<Vec<u8>> = dup_all(ms);
    let mut rng: u64 = seed;
    let mut i: usize = 0;
    while i < n
        invariant
            len == ms@.len(),
            all@.len() == len,
            n <= len,
            i <= n,
            whole == shuffled(views(ms@), 0, n as int, seed),
            whole == shuffled(views(all@), i as int, n as int, rng),
        decreases n - i,
    {
        let ghost before = views(all@);
        let j: usize = choose_position(&mut rng, i, len);
        let a: Vec<u8> = dup(&all[i]);
        let b: Vec<u8> = dup(&all[j]);
        all.set(i, b);
        all.set(j, a);
        assert(views(all@) =~= swapped(before, i as int, j as int));
        i += 1;
    }
    let mut out: Vec<Vec<u8>> = Vec::new();
    let mut k: usize = 0;
    assert(views(out@) =~= whole.take(0));
    while k < n
        invariant
            all@.len() == len,
            n <= len,
            k <= n,
            whole == views(all@),
            views(out@) == whole.take(k as int),
        decreases n - k,
    {
        out.push(dup(&all[k]));
        assert(views(out@) =~= whole.take(k + 1));
        k += 1;
    }
    out
}

/// Picks `n` members, some perhaps more than once.
pub fn pick(ms: &[Vec<u8>], n: u64, seed: u64) -> (r: Vec<Vec<u8>>)
    requires
        ms@.len() > 0,
    ensures
        views(r@) == picked(views(ms@), n as nat, seed),
{
    let ghost s = views(ms@);
    let len: usize = ms.len();
    let mut rng: u64 = seed;
    let mut left: u64 = n;
    let mut out: Vec<Vec<u8>> = Vec::new();
    assert(views(out@) + picked(s, n as nat, seed) =~= picked(s, n as nat, seed));
    while left > 0
        invariant
            s == views(ms@),
            len == ms@.len(),
            len > 0,
            views(out@) + picked(s, left as nat, rng) == picked(s, n as nat, seed),
        decreases left,
    {
        let ghost before = views(out@);
        let ghost r0 = rng;
        let j: usize = choose_position(&mut rng, 0, len);
        out.push(dup(&ms[j]));
        proof {
            assert(views(out@) == before.push(s[j as int]));
            assert(before + picked(s, left as nat, r0) =~= before.push(s[j as int]) + picked(
                s,
                (left - 1) as nat,
                rng,
            ));
        }
        left -= 1;
    }
    assert(views(out@) =~= picked(s, n as nat, seed));
    out
}

proof fn lemma_choice(rng: u64, i: int, len: int)
    requires
        0 <= i < len,
    ensures
        i <= choice(rng, i, len) < len,
{
    vstd::arithmetic::div_mod::lemma_mod_bound(xorshift(rng) as int, len - i);
}

proof fn lemma_shuffled(s: Seq<Seq<u8>>, i: int, n: int, rng: u64)
    requires
        0 <= i,
        s.no_duplicates(),
    ensures
        shuffled(s, i, n, rng).len() == s.len(),
        shuffled(s, i, n, rng).no_duplicates(),
        forall|x: Seq<u8>| #[trigger] shuffled(s, i, n, rng).contains(x) <==> s.contains(x),
    decreases n - i,
{
    if i < n && i < s.len() {
        let j = choice(rng, i, s.len() as int);
        lemma_choice(rng, i, s.len() as int);
        let t = swapped(s, i, j);
        assert forall|x: Seq<u8>| #[trigger] t.contains(x) <==> s.contains(x) by {
            if s.contains(x) {
                let k = s.index_of(x);
                let q = if k == i {
                    j
                } else if k == j {
                    i
                } else {
                    k
                };
                assert(t[q] == x);
            }
            if t.contains(x) {
                let k = t.index_of(x);
                let q = if k == i {
                    j
                } else if k == j {
                    i
                } else {
                    k
                };
                assert(s[q] == x);
            }
        }
        assert(t.no_duplicates());
        lemma_shuffled(t, i + 1, n, xorshift(rng));
        assert forall|x: Seq<u8>| #[trigger] shuffled(s, i, n, rng).contains(x) <==> s.contains(
            x,
        ) by {
            assert(t.contains(x) <==> s.contains(x));
        }
    }
}

/// What is drawn are as many different members as asked for.
pub proof fn law_drawn_are_distinct_members(s: Seq<Seq<u8>>, n: int, rng: u64)
    requires
        s.no_duplicates(),
        0 <= n <= s.len(),
    ensures
        drawn(s, n, rng).len() == n,
        drawn(s, n, rng).no_duplicates(),
        forall|x: Seq<u8>| #[trigger] drawn(s, n, rng).contains(x) ==> s.contains(x),
{
    lemma_shuffled(s, 0, n, rng);
    let t = shuffled(s, 0, n, rng);
    assert forall|x: Seq<u8>| #[trigger] drawn(s, n, rng).contains(x) implies s.contains(x) by {
        let k = drawn(s, n, rng).index_of(x);
        assert(t[k] == x);
        assert(t.contains(x));
    }
}

/// What is picked are as many members as asked for.
pub proof fn law_picked_are_members(s: Seq<Seq<u8>>, n: nat, rng: u64)
    requires
        s.len() > 0,
    ensures
        picked(s, n, rng).len() == n,
        forall|i: int| 0 <= i < n ==> s.contains(#[trigger] picked(s, n, rng)[i]),
    decreases n,
{
    if n > 0 {
        let j = choice(rng, 0, s.len() as int);
        lemma_choice(rng, 0, s.len() as int);
        law_picked_are_members(s, (n - 1) as nat, xorshift(rng));
        assert(s.contains(s[j]));
        let rest = picked(s, (n - 1) as nat, xorshift(rng));
        assert forall|i: int| 0 <= i < n implies s.contains(#[trigger] picked(s, n, rng)[i]) by {
            if i > 0 {
                assert(picked(s, n, rng)[i] == rest[i - 1]);
            }
        }
    }
}

} // verus!
