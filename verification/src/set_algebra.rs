//! Sets of byte strings as lists without duplicates: membership, union,
//! intersection and difference, and the encoding that a set was promoted to.

use vstd::prelude::*;

use crate::bytes::{
    dec, dup, dup_all, fmt_i64, i64_of, lemma_views_push, parse_i64, same, views,
};
use crate::keyspace::InlineSetEncoding;
use crate::stream_wake::lemma_filter_step;

verus! {

broadcast use lemma_views_push;

// ---------------------------------------------------------------------------
// Membership
// ---------------------------------------------------------------------------

/// Whether a list has a member.
pub fn is_member(ms: &[Vec<u8>], m: &[u8]) -> (r: bool)
    ensures
        r == views(ms@).contains(m@),
{
    let ghost all = views(ms@);
    let mut i: usize = 0;
    while i < ms.len()
        invariant
            i <= ms@.len(),
            all == views(ms@),
            forall|j: int| 0 <= j < i ==> all[j] != m@,
        decreases ms@.len() - i,
    {
        assert(all[i as int] == ms@[i as int]@);
        if same(&ms[i], m) {
            return true;
        }
        i += 1;
    }
    false
}

/// What a filter keeps.
pub proof fn lemma_filter_has<A>(s: Seq<A>, p: spec_fn(A) -> bool, x: A)
    ensures
        s.filter(p).contains(x) <==> s.contains(x) && p(x),
    decreases s.len(),
{
    reveal(Seq::filter);
    if s.len() > 0 {
        let d = s.drop_last();
        lemma_filter_has(d, p, x);
        let f = d.filter(p);
        if s.contains(x) {
            let i = s.index_of(x);
            if i < d.len() {
                assert(d[i] == x);
            }
        }
        if d.contains(x) {
            assert(s[d.index_of(x)] == x);
        }
        if p(s.last()) {
            assert(s.filter(p) == f.push(s.last()));
            if f.contains(x) {
                assert(f.push(s.last())[f.index_of(x)] == x);
            }
            if x == s.last() {
                assert(f.push(s.last())[f.len() as int] == x);
            }
            if f.push(s.last()).contains(x) && x != s.last() {
                let i = f.push(s.last()).index_of(x);
                assert(f[i] == x);
            }
        }
    }
}

/// A filter brings no duplicates.
pub proof fn lemma_filter_distinct<A>(s: Seq<A>, p: spec_fn(A) -> bool)
    requires
        s.no_duplicates(),
    ensures
        s.filter(p).no_duplicates(),
    decreases s.len(),
{
    reveal(Seq::filter);
    if s.len() > 0 {
        let d = s.drop_last();
        let x = s.last();
        assert(d.no_duplicates());
        lemma_filter_distinct(d, p);
        let f = d.filter(p);
        if p(x) {
            lemma_filter_has(d, p, x);
            if f.contains(x) {
                let i = d.index_of(x);
                assert(s[i] == s[s.len() - 1]);
            }
            assert forall|i: int, j: int| 0 <= i < j < f.push(x).len() implies f.push(x)[i]
                != f.push(x)[j] by {
                if j == f.len() {
                    assert(f.contains(f[i]));
                }
            }
        }
    }
}

/// The members that are not in another list.
pub open spec fn outside_of(ms: Seq<Seq<u8>>, gone: Seq<Seq<u8>>) -> Seq<Seq<u8>> {
    ms.filter(|m: Seq<u8>| !gone.contains(m))
}

/// The members that are in another list.
pub open spec fn inside_of(ms: Seq<Seq<u8>>, other: Seq<Seq<u8>>) -> Seq<Seq<u8>> {
    ms.filter(|m: Seq<u8>| other.contains(m))
}

/// The members that are not in another list.
pub fn members_outside(ms: &[Vec<u8>], gone: &[Vec<u8>]) -> (r: Vec<Vec<u8>>)
    ensures
        views(r@) == outside_of(views(ms@), views(gone@)),
{
    let ghost all = views(ms@);
    let ghost g = views(gone@);
    let ghost p = |m: Seq<u8>| !g.contains(m);
    let mut r: Vec<Vec<u8>> = Vec::new();
    let mut i: usize = 0;
    proof {
        reveal(Seq::filter);
        assert(views(r@) =~= all.take(0).filter(p));
    }
    while i < ms.len()
        invariant
            i <= ms@.len(),
            all == views(ms@),
            g == views(gone@),
            p == (|m: Seq<u8>| !g.contains(m)),
            views(r@) == all.take(i as int).filter(p),
        decreases ms@.len() - i,
    {
        proof {
            lemma_filter_step(all, p, i as int);
            assert(all[i as int] == ms@[i as int]@);
        }
        if !is_member(gone, &ms[i]) {
            r.push(dup(&ms[i]));
        }
        i += 1;
    }
    assert(all.take(i as int) =~= all);
    r
}

/// The members that are in another list.
pub fn members_inside(ms: &[Vec<u8>], other: &[Vec<u8>]) -> (r: Vec<Vec<u8>>)
    ensures
        views(r@) == inside_of(views(ms@), views(other@)),
{
    let ghost all = views(ms@);
    let ghost g = views(other@);
    let ghost p = |m: Seq<u8>| g.contains(m);
    let mut r: Vec<Vec<u8>> = Vec::new();
    let mut i: usize = 0;
    proof {
        reveal(Seq::filter);
        assert(views(r@) =~= all.take(0).filter(p));
    }
    while i < ms.len()
        invariant
            i <= ms@.len(),
            all == views(ms@),
            g == views(other@),
            p == (|m: Seq<u8>| g.contains(m)),
            views(r@) == all.take(i as int).filter(p),
        decreases ms@.len() - i,
    {
        proof {
            lemma_filter_step(all, p, i as int);
            assert(all[i as int] == ms@[i as int]@);
        }
        if is_member(other, &ms[i]) {
            r.push(dup(&ms[i]));
        }
        i += 1;
    }
    assert(all.take(i as int) =~= all);
    r
}

/// Members with more of them, each of which comes at most once.
pub open spec fn members_with(ms: Seq<Seq<u8>>, more: Seq<Seq<u8>>) -> Seq<Seq<u8>>
    decreases more.len(),
{
    if more.len() == 0 {
        ms
    } else {
        let had = members_with(ms, more.drop_last());
        if had.contains(more.last()) {
            had
        } else {
            had.push(more.last())
        }
    }
}

/// Adds members, each of which comes at most once.
pub fn add_members(ms: &mut Vec<Vec<u8>>, more: &[Vec<u8>])
    ensures
        views(final(ms)@) == members_with(views(old(ms)@), views(more@)),
{
    let ghost first = views(ms@);
    let ghost all = views(more@);
    let mut i: usize = 0;
    assert(all.take(0) =~= Seq::empty());
    while i < more.len()
        invariant
            i <= more@.len(),
            all == views(more@),
            views(ms@) == members_with(first, all.take(i as int)),
        decreases more@.len() - i,
    {
        proof {
            assert(all.take(i + 1).drop_last() =~= all.take(i as int));
            assert(all.take(i + 1).last() == more@[i as int]@);
        }
        if !is_member(ms, &more[i]) {
            ms.push(dup(&more[i]));
        }
        i += 1;
    }
    assert(all.take(i as int) =~= all);
}

/// Adding members keeps those that are there in place, and brings in those that
/// were missing, once.
pub proof fn law_members_with(ms: Seq<Seq<u8>>, more: Seq<Seq<u8>>)
    ensures
        members_with(ms, more).len() >= ms.len(),
        members_with(ms, more).take(ms.len() as int) == ms,
        forall|x: Seq<u8>| #[trigger]
            members_with(ms, more).contains(x) <==> ms.contains(x) || more.contains(x),
        ms.no_duplicates() ==> members_with(ms, more).no_duplicates(),
    decreases more.len(),
{
    if more.len() == 0 {
        assert(ms.take(ms.len() as int) =~= ms);
    } else {
        let d = more.drop_last();
        let y = more.last();
        law_members_with(ms, d);
        let had = members_with(ms, d);
        let now = members_with(ms, more);
        assert(now.take(ms.len() as int) =~= had.take(ms.len() as int));
        assert forall|x: Seq<u8>| #[trigger]
            now.contains(x) <==> ms.contains(x) || more.contains(x) by {
            assert(had.contains(x) <==> ms.contains(x) || d.contains(x));
            if more.contains(x) {
                let i = more.index_of(x);
                if i < d.len() {
                    assert(d[i] == x);
                }
            }
            if d.contains(x) {
                assert(more[d.index_of(x)] == x);
            }
            assert(more[more.len() - 1] == y);
            if !had.contains(y) {
                if had.contains(x) {
                    assert(now[had.index_of(x)] == x);
                }
                assert(now[had.len() as int] == y);
                if now.contains(x) && x != y {
                    assert(had[now.index_of(x)] == x);
                }
            }
        }
        if ms.no_duplicates() && !had.contains(y) {
            assert forall|i: int, j: int| 0 <= i < j < now.len() implies now[i] != now[j] by {
                if j == had.len() {
                    assert(had.contains(had[i]));
                }
            }
        }
    }
}

/// Removing members removes just those.
pub proof fn law_members_outside(ms: Seq<Seq<u8>>, gone: Seq<Seq<u8>>, x: Seq<u8>)
    ensures
        outside_of(ms, gone).contains(x) <==> ms.contains(x) && !gone.contains(x),
        ms.no_duplicates() ==> outside_of(ms, gone).no_duplicates(),
{
    let p = |m: Seq<u8>| !gone.contains(m);
    lemma_filter_has(ms, p, x);
    if ms.no_duplicates() {
        lemma_filter_distinct(ms, p);
    }
}

// ---------------------------------------------------------------------------
// Algebra
// ---------------------------------------------------------------------------

/// The members that all sets have, in the order of the first.
pub open spec fn inter_all(sets: Seq<Seq<Seq<u8>>>) -> Seq<Seq<u8>>
    decreases sets.len(),
{
    if sets.len() == 0 {
        Seq::empty()
    } else if sets.len() == 1 {
        sets[0]
    } else {
        inside_of(inter_all(sets.drop_last()), sets.last())
    }
}

/// The members that some set has.
pub open spec fn union_all(sets: Seq<Seq<Seq<u8>>>) -> Seq<Seq<u8>>
    decreases sets.len(),
{
    if sets.len() == 0 {
        Seq::empty()
    } else {
        members_with(union_all(sets.drop_last()), sets.last())
    }
}

/// The members of the first set that no other set has.
pub open spec fn diff_all(sets: Seq<Seq<Seq<u8>>>) -> Seq<Seq<u8>>
    decreases sets.len(),
{
    if sets.len() == 0 {
        Seq::empty()
    } else if sets.len() == 1 {
        sets[0]
    } else {
        outside_of(diff_all(sets.drop_last()), sets.last())
    }
}

/// Some sets.
pub open spec fn set_views(v: Seq<Vec<Vec<u8>>>) -> Seq<Seq<Seq<u8>>> {
    v.map_values(|s: Vec<Vec<u8>>| views(s@))
}

/// The members that all sets have.
pub fn intersect_sets(sets: &[Vec<Vec<u8>>]) -> (r: Vec<Vec<u8>>)
    ensures
        views(r@) == inter_all(set_views(sets@)),
{
    let ghost all = set_views(sets@);
    if sets.len() == 0 {
        let r: Vec<Vec<u8>> = Vec::new();
        assert(views(r@) =~= Seq::empty());
        return r;
    }
    let mut r: Vec<Vec<u8>> = dup_all(&sets[0]);
    let mut i: usize = 1;
    assert(all.take(1)[0] == views(sets@[0]@));
    while i < sets.len()
        invariant
            1 <= i <= sets@.len(),
            all == set_views(sets@),
            views(r@) == inter_all(all.take(i as int)),
        decreases sets@.len() - i,
    {
        proof {
            assert(all.take(i + 1).drop_last() =~= all.take(i as int));
            assert(all.take(i + 1).last() == views(sets@[i as int]@));
        }
        r = members_inside(&r, &sets[i]);
        i += 1;
    }
    assert(all.take(i as int) =~= all);
    r
}

/// The members that some set has.
pub fn union_sets(sets: &[Vec<Vec<u8>>]) -> (r: Vec<Vec<u8>>)
    ensures
        views(r@) == union_all(set_views(sets@)),
{
    let ghost all = set_views(sets@);
    let mut r: Vec<Vec<u8>> = Vec::new();
    let mut i: usize = 0;
    assert(all.take(0) =~= Seq::empty());
    assert(views(r@) =~= Seq::empty());
    while i < sets.len()
        invariant
            i <= sets@.len(),
            all == set_views(sets@),
            views(r@) == union_all(all.take(i as int)),
        decreases sets@.len() - i,
    {
        proof {
            assert(all.take(i + 1).drop_last() =~= all.take(i as int));
            assert(all.take(i + 1).last() == views(sets@[i as int]@));
        }
        add_members(&mut r, &sets[i]);
        i += 1;
    }
    assert(all.take(i as int) =~= all);
    r
}

/// The members of the first set that no other set has.
pub fn diff_sets(sets: &[Vec<Vec<u8>>]) -> (r: Vec<Vec<u8>>)
    ensures
        views(r@) == diff_all(set_views(sets@)),
{
    let ghost all = set_views(sets@);
    if sets.len() == 0 {
        let r: Vec<Vec<u8>> = Vec::new();
        assert(views(r@) =~= Seq::empty());
        return r;
    }
    let mut r: Vec<Vec<u8>> = dup_all(&sets[0]);
    let mut i: usize = 1;
    assert(all.take(1)[0] == views(sets@[0]@));
    while i < sets.len()
        invariant
            1 <= i <= sets@.len(),
            all == set_views(sets@),
            views(r@) == diff_all(all.take(i as int)),
        decreases sets@.len() - i,
    {
        proof {
            assert(all.take(i + 1).drop_last() =~= all.take(i as int));
            assert(all.take(i + 1).last() == views(sets@[i as int]@));
        }
        r = members_outside(&r, &sets[i]);
        i += 1;
    }
    assert(all.take(i as int) =~= all);
    r
}

/// Whether no set has a member twice.
pub open spec fn all_distinct(sets: Seq<Seq<Seq<u8>>>) -> bool {
    forall|i: int| 0 <= i < sets.len() ==> (#[trigger] sets[i]).no_duplicates()
}

/// A member is in the intersection exactly if every set has it, and there once.
pub proof fn law_intersection(sets: Seq<Seq<Seq<u8>>>, x: Seq<u8>)
    requires
        sets.len() > 0,
    ensures
        inter_all(sets).contains(x) <==> forall|i: int|
            0 <= i < sets.len() ==> (#[trigger] sets[i]).contains(x),
        all_distinct(sets) ==> inter_all(sets).no_duplicates(),
    decreases sets.len(),
{
    if sets.len() > 1 {
        let d = sets.drop_last();
        let last = sets.last();
        law_intersection(d, x);
        let p = |m: Seq<u8>| last.contains(m);
        lemma_filter_has(inter_all(d), p, x);
        if all_distinct(sets) {
            assert(all_distinct(d)) by {
                assert forall|i: int| 0 <= i < d.len() implies (
                #[trigger] d[i]).no_duplicates() by {
                    assert(d[i] == sets[i]);
                }
            }
            lemma_filter_distinct(inter_all(d), p);
        }
        assert(sets[sets.len() - 1] == last);
        if inter_all(sets).contains(x) {
            assert forall|i: int| 0 <= i < sets.len() implies (
            #[trigger] sets[i]).contains(x) by {
                if i < d.len() {
                    assert(d[i].contains(x));
                }
            }
        }
        if forall|i: int| 0 <= i < sets.len() ==> (#[trigger] sets[i]).contains(x) {
            assert forall|i: int| 0 <= i < d.len() implies (#[trigger] d[i]).contains(x) by {
                assert(sets[i].contains(x));
            }
        }
    } else {
        assert(sets[0] == inter_all(sets));
    }
}

/// A member is in the union exactly if some set has it, and there once.
pub proof fn law_union(sets: Seq<Seq<Seq<u8>>>, x: Seq<u8>)
    ensures
        union_all(sets).contains(x) <==> exists|i: int|
            0 <= i < sets.len() && (#[trigger] sets[i]).contains(x),
        union_all(sets).no_duplicates(),
    decreases sets.len(),
{
    if sets.len() > 0 {
        let d = sets.drop_last();
        let last = sets.last();
        law_union(d, x);
        law_members_with(union_all(d), last);
        assert(sets[sets.len() - 1] == last);
        if exists|i: int| 0 <= i < sets.len() && (#[trigger] sets[i]).contains(x) {
            let i = choose|i: int| 0 <= i < sets.len() && (#[trigger] sets[i]).contains(x);
            if i < d.len() {
                assert(d[i].contains(x));
            }
        }
        if exists|i: int| 0 <= i < d.len() && (#[trigger] d[i]).contains(x) {
            let i = choose|i: int| 0 <= i < d.len() && (#[trigger] d[i]).contains(x);
            assert(sets[i].contains(x));
        }
        assert(union_all(sets).contains(x) <==> union_all(d).contains(x) || last.contains(x));
    }
}

/// A member is in the difference exactly if the first set has it and no other.
pub proof fn law_difference(sets: Seq<Seq<Seq<u8>>>, x: Seq<u8>)
    requires
        sets.len() > 0,
    ensures
        diff_all(sets).contains(x) <==> sets[0].contains(x) && forall|i: int|
            1 <= i < sets.len() ==> !(#[trigger] sets[i]).contains(x),
        sets[0].no_duplicates() ==> diff_all(sets).no_duplicates(),
    decreases sets.len(),
{
    if sets.len() > 1 {
        let d = sets.drop_last();
        let last = sets.last();
        law_difference(d, x);
        let p = |m: Seq<u8>| !last.contains(m);
        lemma_filter_has(diff_all(d), p, x);
        if sets[0].no_duplicates() {
            lemma_filter_distinct(diff_all(d), p);
        }
        assert(sets[sets.len() - 1] == last);
        assert(d[0] == sets[0]);
        if diff_all(sets).contains(x) {
            assert forall|i: int| 1 <= i < sets.len() implies !(
            #[trigger] sets[i]).contains(x) by {
                if i < d.len() {
                    assert(!d[i].contains(x));
                }
            }
        }
        if forall|i: int| 1 <= i < sets.len() ==> !(#[trigger] sets[i]).contains(x) {
            assert forall|i: int| 1 <= i < d.len() implies !(#[trigger] d[i]).contains(x) by {
                assert(!sets[i].contains(x));
            }
        }
    }
}

// ---------------------------------------------------------------------------
// Encodings
// ---------------------------------------------------------------------------

/// The limits of the small encodings of a set.
#[derive(Debug, Clone, Copy, PartialEq, Eq, Structural)]
pub struct SetThresholds {
    /// The most members of a set of integers.
    pub max_intset_entries: usize,
    /// The most members of a listpack.
    pub max_listpack_entries: usize,
    /// The longest member of a listpack, in bytes.
    pub max_listpack_value: usize,
}

/// Whether a member is the text of an integer, as it would be written.
pub open spec fn is_integer(m: Seq<u8>) -> bool {
    match i64_of(m) {
        Some(n) => dec(n as int) == m,
        None => false,
    }
}

/// Whether a member is the text of an integer, as it would be written.
pub fn is_canonical_i64_ascii(m: &[u8]) -> (r: bool)
    ensures
        r == is_integer(m@),
{
    match parse_i64(m) {
        Some(n) => {
            let t: Vec<u8> = fmt_i64(n);
            same(&t, m)
        },
        None => false,
    }
}

/// Whether all members are integers.
pub open spec fn all_integers(ms: Seq<Seq<u8>>) -> bool {
    forall|i: int| 0 <= i < ms.len() ==> is_integer(#[trigger] ms[i])
}

/// Whether no member is longer than a limit.
pub open spec fn all_short(ms: Seq<Seq<u8>>, limit: usize) -> bool {
    forall|i: int| 0 <= i < ms.len() ==> (#[trigger] ms[i]).len() <= limit
}

/// The smallest encoding that members allow.
pub open spec fn needed_encoding(ms: Seq<Seq<u8>>, t: SetThresholds) -> InlineSetEncoding {
    if all_integers(ms) && ms.len() <= t.max_intset_entries {
        InlineSetEncoding::Auto
    } else if ms.len() <= t.max_listpack_entries && all_short(ms, t.max_listpack_value) {
        InlineSetEncoding::ForcedListpack
    } else {
        InlineSetEncoding::ForcedHashtable
    }
}

/// The larger of two encodings.
pub open spec fn larger(a: InlineSetEncoding, b: InlineSetEncoding) -> InlineSetEncoding {
    match (a, b) {
        (InlineSetEncoding::Auto, _) => b,
        (_, InlineSetEncoding::ForcedHashtable) => b,
        _ => a,
    }
}

/// The encoding of a set after some members were added to it.
pub open spec fn encoding_after(
    was: InlineSetEncoding,
    ms: Seq<Seq<u8>>,
    added: Seq<Seq<u8>>,
    t: SetThresholds,
) -> InlineSetEncoding {
    if added.len() == 0 || was == InlineSetEncoding::ForcedHashtable {
        was
    } else if was == InlineSetEncoding::ForcedListpack && ms.len() <= t.max_listpack_entries
        && all_short(added, t.max_listpack_value) {
        was
    } else if was == InlineSetEncoding::Auto && all_integers(added) && ms.len()
        <= t.max_intset_entries {
        was
    } else {
        larger(was, needed_encoding(ms, t))
    }
}

/// Whether all members from a position on are integers.
fn check_integers(ms: &[Vec<u8>], from: usize) -> (r: bool)
    requires
        from <= ms@.len(),
    ensures
        r == all_integers(views(ms@).skip(from as int)),
{
    let ghost all = views(ms@).skip(from as int);
    let mut i: usize = from;
    while i < ms.len()
        invariant
            from <= i <= ms@.len(),
            all == views(ms@).skip(from as int),
            forall|j: int| 0 <= j < i - from ==> is_integer(#[trigger] all[j]),
        decreases ms@.len() - i,
    {
        assert(all[i - from] == ms@[i as int]@);
        if !is_canonical_i64_ascii(&ms[i]) {
            return false;
        }
        i += 1;
    }
    true
}

/// Whether no member from a position on is longer than a limit.
fn check_short(ms: &[Vec<u8>], from: usize, limit: usize) -> (r: bool)
    requires
        from <= ms@.len(),
    ensures
        r == all_short(views(ms@).skip(from as int), limit),
{
    let ghost all = views(ms@).skip(from as int);
    let mut i: usize = from;
    while i < ms.len()
        invariant
            from <= i <= ms@.len(),
            all == views(ms@).skip(from as int),
            forall|j: int| 0 <= j < i - from ==> (#[trigger] all[j]).len() <= limit,
        decreases ms@.len() - i,
    {
        assert(all[i - from] == ms@[i as int]@);
        if ms[i].len() > limit {
            return false;
        }
        i += 1;
    }
    true
}

/// The encoding of a set after it was looked through.
pub fn update_sticky_encoding(was: InlineSetEncoding, ms: &[Vec<u8>], t: &SetThresholds) -> (r:
    InlineSetEncoding)
    ensures
        r == larger(was, needed_encoding(views(ms@), *t)),
{
    assert(views(ms@).skip(0) =~= views(ms@));
    let needed: InlineSetEncoding = if check_integers(ms, 0) && ms.len() <= t.max_intset_entries {
        InlineSetEncoding::Auto
    } else if ms.len() <= t.max_listpack_entries && check_short(ms, 0, t.max_listpack_value) {
        InlineSetEncoding::ForcedListpack
    } else {
        InlineSetEncoding::ForcedHashtable
    };
    match (was, needed) {
        (InlineSetEncoding::Auto, _) => needed,
        (_, InlineSetEncoding::ForcedHashtable) => needed,
        _ => was,
    }
}

/// The encoding of a set after the members from a position on were added to it.
/// It is looked through only where that can change the encoding.
pub fn update_sticky_encoding_after_insert(
    was: InlineSetEncoding,
    ms: &[Vec<u8>],
    from: usize,
    t: &SetThresholds,
) -> (r: InlineSetEncoding)
    requires
        from <= ms@.len(),
    ensures
        r == encoding_after(was, views(ms@), views(ms@).skip(from as int), *t),
{
    if from == ms.len() || was == InlineSetEncoding::ForcedHashtable {
        return was;
    }
    if was == InlineSetEncoding::ForcedListpack {
        if ms.len() <= t.max_listpack_entries && check_short(ms, from, t.max_listpack_value) {
            return was;
        }
        return update_sticky_encoding(was, ms, t);
    }
    if check_integers(ms, from) && ms.len() <= t.max_intset_entries {
        return was;
    }
    update_sticky_encoding(was, ms, t)
}

/// An encoding is promoted and never demoted.
pub proof fn law_encoding_never_demotes(
    was: InlineSetEncoding,
    ms: Seq<Seq<u8>>,
    added: Seq<Seq<u8>>,
    t: SetThresholds,
)
    ensures
        larger(was, encoding_after(was, ms, added, t)) == encoding_after(was, ms, added, t),
{
}

} // verus!
