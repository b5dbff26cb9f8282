//! Filtered sequences: what the laws on lists of entries and of clients rest on.

use vstd::prelude::*;

verus! {

/// Filters that agree on the elements keep the same.
pub proof fn lemma_filter_same<A>(s: Seq<A>, p: spec_fn(A) -> bool, q: spec_fn(A) -> bool)
    requires
        forall|i: int| 0 <= i < s.len() ==> p(#[trigger] s[i]) == q(s[i]),
    ensures
        s.filter(p) == s.filter(q),
    decreases s.len(),
{
    reveal(Seq::filter);
    if s.len() > 0 {
        let t = s.drop_last();
        assert forall|i: int| 0 <= i < t.len() implies p(#[trigger] t[i]) == q(t[i]) by {
            assert(t[i] == s[i]);
        }
        lemma_filter_same(t, p, q);
        assert(p(s[s.len() - 1]) == q(s[s.len() - 1]));
    }
}

/// A filter that all elements pass keeps all, one that none passes keeps none.
pub proof fn lemma_filter_all<A>(s: Seq<A>, p: spec_fn(A) -> bool)
    ensures
        (forall|i: int| 0 <= i < s.len() ==> p(#[trigger] s[i])) ==> s.filter(p) == s,
        (forall|i: int| 0 <= i < s.len() ==> !p(#[trigger] s[i])) ==> s.filter(p).len() == 0,
    decreases s.len(),
{
    reveal(Seq::filter);
    if s.len() > 0 {
        let t = s.drop_last();
        assert forall|i: int| 0 <= i < t.len() implies #[trigger] t[i] == s[i] by {}
        lemma_filter_all(t, p);
        if forall|i: int| 0 <= i < s.len() ==> p(#[trigger] s[i]) {
            assert(p(s[s.len() - 1]));
            assert forall|i: int| 0 <= i < t.len() implies p(#[trigger] t[i]) by {
                assert(p(s[i]));
            }
            assert(t.push(s.last()) =~= s);
        }
        if forall|i: int| 0 <= i < s.len() ==> !p(#[trigger] s[i]) {
            assert(!p(s[s.len() - 1]));
            assert forall|i: int| 0 <= i < t.len() implies !p(#[trigger] t[i]) by {
                assert(!p(s[i]));
            }
        }
    } else {
        assert(s.filter(p) =~= s);
    }
}

/// Filtering by one condition and then by another is filtering by both.
pub proof fn lemma_filter_both<A>(
    s: Seq<A>,
    p: spec_fn(A) -> bool,
    q: spec_fn(A) -> bool,
    both: spec_fn(A) -> bool,
)
    requires
        forall|a: A| #[trigger] both(a) == (p(a) && q(a)),
    ensures
        s.filter(p).filter(q) == s.filter(both),
    decreases s.len(),
{
    reveal(Seq::filter);
    if s.len() > 0 {
        let t = s.drop_last();
        lemma_filter_both(t, p, q, both);
        assert(both(s.last()) == (p(s.last()) && q(s.last())));
        if p(s.last()) {
            assert(t.filter(p).push(s.last()).drop_last() =~= t.filter(p));
        }
    }
}

/// What a filter keeps are the elements that pass it.
pub proof fn lemma_filter_keeps<A>(s: Seq<A>, p: spec_fn(A) -> bool)
    ensures
        forall|a: A| #[trigger] s.filter(p).contains(a) <==> s.contains(a) && p(a),
        s.filter(p).len() <= s.len(),
    decreases s.len(),
{
    reveal(Seq::filter);
    if s.len() > 0 {
        let t = s.drop_last();
        let x = s.last();
        lemma_filter_keeps(t, p);
        assert forall|a: A| #[trigger] s.filter(p).contains(a) <==> s.contains(a) && p(a) by {
            let f = t.filter(p);
            if s.contains(a) && p(a) {
                let i = s.index_of(a);
                if i < t.len() {
                    assert(t[i] == a);
                    assert(f.contains(a));
                    let j = f.index_of(a);
                    assert(s.filter(p)[j] == a);
                } else {
                    assert(s.filter(p)[f.len() as int] == a);
                }
            }
            if s.filter(p).contains(a) {
                let j = s.filter(p).index_of(a);
                if j < f.len() {
                    assert(f[j] == a);
                    assert(f.contains(a));
                    let i = t.index_of(a);
                    assert(s[i] == a);
                } else {
                    assert(s[s.len() - 1] == a);
                }
            }
        }
    } else {
        assert(s.filter(p) =~= s);
    }
}

/// Where all elements but one pass a filter, that one is taken out.
pub proof fn lemma_filter_remove<A>(s: Seq<A>, p: spec_fn(A) -> bool, r: int)
    requires
        0 <= r < s.len(),
        forall|i: int| 0 <= i < s.len() ==> p(#[trigger] s[i]) == (i != r),
    ensures
        s.filter(p) == s.remove(r),
    decreases s.len(),
{
    reveal(Seq::filter);
    let t = s.drop_last();
    assert(p(s[s.len() - 1]) == (s.len() - 1 != r));
    if r == s.len() - 1 {
        assert forall|i: int| 0 <= i < t.len() implies p(#[trigger] t[i]) by {
            assert(p(s[i]));
        }
        lemma_filter_all(t, p);
        assert(s.remove(r) =~= t);
    } else {
        assert forall|i: int| 0 <= i < t.len() implies p(#[trigger] t[i]) == (i != r) by {
            assert(t[i] == s[i]);
        }
        lemma_filter_remove(t, p, r);
        assert(s.remove(r) =~= t.remove(r).push(s.last()));
    }
}

} // verus!
