//! Deleting from JSON values at a path.

use vstd::prelude::*;
use vstd::utf8::valid_utf8;

use crate::bytes::{lemma_lex_total, lex_lt};
use crate::dict::ascending;
use crate::json_data::{
    json_ok, json_views, lemma_arr_ok, lemma_arr_view, lemma_obj_ok, lemma_obj_view, lemma_ok_member,
    member_keys, member_views, Json, JsonV,
};
use crate::json_edit::lemma_slot_is;
use crate::json_path::{
    index_in, member_at, member_slot, selected, step_views, PathToken, StepV,
};
use crate::json_places::{
    all_in, deep_kids_places, deep_places, drop_kid, find_spots, kid, kid_key, kid_list,
    kids_places, law_selected_by_place, leads, lemma_deep_places_has,
    lemma_kid_less, lemma_kid_ok, lemma_kids_places_has, lemma_leads_kid, lemma_place_push,
    lemma_places_in, lemma_prefixed_has, lemma_raw_kid, lemma_same_kind, lemma_spots,
    lemma_with_kids, place_in, place_of, place_views, places, prefixed, rank_of, raw_kid, reaches,
    same_kind, spots, width, width_of, with_kids,
};
use crate::lists::clipped;

verus! {

/// A value that stands at `path` without some places in it, and how many went. What
/// lies inside a place goes with it, and does not count.
pub open spec fn removed(v: JsonV, path: Seq<int>, ps: Seq<Seq<int>>) -> (JsonV, nat)
    decreases v, width(v) + 1,
{
    let (ks, n) = kids_left(v, width(v) as int, path, ps);
    (with_kids(v, ks), n)
}

/// What is left of the first `n` elements or members of a value that stands at
/// `path`, and how many places went there.
pub open spec fn kids_left(v: JsonV, n: int, path: Seq<int>, ps: Seq<Seq<int>>) -> (
    Seq<(Seq<u8>, JsonV)>,
    nat,
)
    decreases v, n,
{
    if n <= 0 || n > width(v) {
        (Seq::empty(), 0)
    } else {
        proof {
            lemma_kid_less(v, n - 1);
        }
        let (ks, c) = kids_left(v, n - 1, path, ps);
        if ps.contains(path.push(n - 1)) {
            (ks, c + 1)
        } else {
            let (x, d) = removed(kid(v, n - 1), path.push(n - 1), ps);
            (ks.push((kid_key(v, n - 1), x)), c + d)
        }
    }
}

/// A value without what a path selects, and how many places went. The value itself
/// stays.
pub open spec fn deleted(v: JsonV, steps: Seq<StepV>) -> (JsonV, nat) {
    removed(v, Seq::empty(), spots(v, steps))
}

/// The sum of two counts.
fn plus(a: i64, b: i64) -> (r: i64)
    requires
        a >= 0,
        b >= 0,
    ensures
        r == clipped((a + b) as nat),
{
    if a > i64::MAX - b {
        i64::MAX
    } else {
        a + b
    }
}

/// Deletes some places in the value at `path`. Tells how many went.
fn remove_at(v: &mut Json, path: &mut Vec<usize>, ps: &Vec<Vec<usize>>) -> (r: i64)
    ensures
        final(path)@ == old(path)@,
        final(v)@ == removed(old(v)@, place_of(old(path)@), place_views(ps@)).0,
        r == clipped(removed(old(v)@, place_of(old(path)@), place_views(ps@)).1),
    decreases *old(v), 0int,
{
    let ghost start = *v;
    let ghost p = place_of(path@);
    let ghost pv = place_views(ps@);
    if !reaches(ps, path) {
        proof {
            lemma_none_removed(v@, p, pv);
        }
        return 0;
    }
    let n: usize = width_of(v);
    let mut count: i64 = 0;
    let mut i: usize = 0;
    let mut at: usize = 0;
    assert(kid_list(v@) =~= kids_left(v@, 0, p, pv).0 + kid_list(v@).skip(0));
    while at < n
        invariant
            start == *old(v),
            path@ == old(path)@,
            p == place_of(path@),
            pv == place_views(ps@),
            n == width(start@),
            i <= at <= n,
            width(v@) - i == n - at,
            same_kind(start@, v@),
            i == kids_left(start@, at as int, p, pv).0.len(),
            kid_list(v@) == kids_left(start@, at as int, p, pv).0 + kid_list(start@).skip(at as int),
            forall|j: int|
                i <= j < width(v@) ==> #[trigger] raw_kid(*v, j) == raw_kid(start, j - i + at),
            count >= 0,
            count == clipped(kids_left(start@, at as int, p, pv).1),
        decreases n - at,
    {
        let ghost list = kid_list(v@);
        let ghost was = path@;
        proof {
            lemma_place_push(was, at);
            assert(list[i as int] == kid_list(start@)[at as int]);
            assert(list[i as int] == (kid_key(v@, i as int), kid(v@, i as int)));
            lemma_raw_kid(start, at as int);
            assert(raw_kid(*v, i as int) == raw_kid(start, at as int));
        }
        path.push(at);
        let gone: bool = match rank_of(ps, path) {
            Some(_) => true,
            None => false,
        };
        assert(gone == pv.contains(p.push(at as int)));
        if gone {
            drop_kid(v, i);
            count = plus(count, 1);
            assert(kid_list(v@) =~= kids_left(start@, at + 1, p, pv).0 + kid_list(start@).skip(
                at + 1,
            ));
        } else {
            let k: i64 = remove_in_kid(v, i, path, ps);
            count = plus(count, k);
            assert(kid_list(v@) =~= kids_left(start@, at + 1, p, pv).0 + kid_list(start@).skip(
                at + 1,
            ));
            i += 1;
        }
        let _last: Option<usize> = path.pop();
        at += 1;
    }
    proof {
        assert(kid_list(v@) =~= kids_left(start@, n as int, p, pv).0);
        lemma_same_kind(start@, v@);
    }
    count
}

/// Deletes some places in an element or member that stands at `path`.
fn remove_in_kid(v: &mut Json, i: usize, path: &mut Vec<usize>, ps: &Vec<Vec<usize>>) -> (r: i64)
    requires
        i < width(old(v)@),
    ensures
        final(path)@ == old(path)@,
        same_kind(old(v)@, final(v)@),
        ({
            let (x, n) = removed(
                kid(old(v)@, i as int),
                place_of(old(path)@),
                place_views(ps@),
            );
            &&& kid_list(final(v)@) == kid_list(old(v)@).update(
                i as int,
                (kid_key(old(v)@, i as int), x),
            )
            &&& r == clipped(n)
        }),
        forall|j: int|
            0 <= j < width(old(v)@) && j != i ==> #[trigger] raw_kid(*final(v), j) == raw_kid(
                *old(v),
                j,
            ),
    decreases raw_kid(*old(v), i as int), 1int,
{
    let ghost list = kid_list(v@);
    proof {
        lemma_raw_kid(*v, i as int);
    }
    let mut n: i64 = 0;
    match v {
        Json::Arr(a) => {
            let ghost av = json_views(a@);
            proof {
                lemma_arr_view(*a);
            }
            n = remove_at(&mut a[i], path, ps);
            proof {
                lemma_arr_view(*a);
                assert(json_views(a@) =~= av.update(i as int, a@[i as int]@));
            }
        },
        Json::Obj(m) => {
            let ghost mv = member_views(m@);
            proof {
                lemma_obj_view(*m);
            }
            n = remove_at(&mut m[i].1, path, ps);
            proof {
                lemma_obj_view(*m);
                assert(member_views(m@) =~= mv.update(
                    i as int,
                    (mv[i as int].0, m@[i as int].1@),
                ));
            }
        },
        _ => {},
    }
    assert(kid_list(v@) =~= list.update(i as int, (list[i as int].0, kid(v@, i as int))));
    n
}

/// Deletes what a path selects. Tells how many places went.
pub fn delete_paths(v: &mut Json, steps: &[PathToken]) -> (r: i64)
    requires
        json_ok(old(v)@),
    ensures
        json_ok(final(v)@),
        final(v)@ == deleted(old(v)@, step_views(steps@)).0,
        r == clipped(deleted(old(v)@, step_views(steps@)).1),
{
    let ghost root = v@;
    let ps: Vec<Vec<usize>> = find_spots(v, steps);
    let mut path: Vec<usize> = Vec::new();
    proof {
        assert(place_of(path@) =~= Seq::empty());
        lemma_removed_ok(root, Seq::empty(), place_views(ps@));
    }
    remove_at(v, &mut path, &ps)
}

/// What is left of a valid value is valid.
proof fn lemma_removed_ok(v: JsonV, path: Seq<int>, ps: Seq<Seq<int>>)
    requires
        json_ok(v),
    ensures
        json_ok(removed(v, path, ps).0),
    decreases v, width(v) + 1,
{
    let ks = kids_left(v, width(v) as int, path, ps).0;
    lemma_kids_left_ok(v, width(v) as int, path, ps);
    match v {
        JsonV::Arr(a) => {
            let b = removed(v, path, ps).0->Arr_0;
            assert forall|i: int| 0 <= i < b.len() implies json_ok(#[trigger] b[i]) by {
                assert(b[i] == ks[i].1);
            }
            lemma_arr_ok(b);
        },
        JsonV::Obj(m) => lemma_obj_ok(ks),
        _ => {},
    }
}

proof fn lemma_kids_left_ok(v: JsonV, n: int, path: Seq<int>, ps: Seq<Seq<int>>)
    requires
        json_ok(v),
        0 <= n <= width(v),
    ensures
        ({
            let ks = kids_left(v, n, path, ps).0;
            &&& forall|i: int| 0 <= i < ks.len() ==> json_ok((#[trigger] ks[i]).1)
            &&& v is Obj ==> ascending(member_keys(ks))
            &&& v is Obj ==> forall|i: int| 0 <= i < ks.len() ==> valid_utf8((#[trigger] ks[i]).0)
            &&& v is Obj ==> forall|i: int|
                0 <= i < ks.len() ==> exists|j: int| 0 <= j < n && (#[trigger] ks[i]).0 == kid_key(v, j)
        }),
    decreases v, n,
{
    if n > 0 {
        lemma_kid_less(v, n - 1);
        lemma_kids_left_ok(v, n - 1, path, ps);
        let before = kids_left(v, n - 1, path, ps).0;
        let ks = kids_left(v, n, path, ps).0;
        if !ps.contains(path.push(n - 1)) {
            lemma_kid_ok(v, n - 1);
            lemma_removed_ok(kid(v, n - 1), path.push(n - 1), ps);
        }
        if let JsonV::Obj(m) = v {
            lemma_ok_member(m, n - 1);
            let keys = member_keys(m);
            let kk = member_keys(ks);
            assert forall|i: int| 0 <= i < ks.len() implies exists|j: int|
                0 <= j < n && (#[trigger] ks[i]).0 == kid_key(v, j) by {
                if i < before.len() {
                    let j = choose|j: int| 0 <= j < n - 1 && before[i].0 == kid_key(v, j);
                    assert(ks[i].0 == kid_key(v, j));
                } else {
                    assert(ks[i].0 == kid_key(v, n - 1));
                }
            }
            assert forall|a: int, b: int| 0 <= a < b < kk.len() implies lex_lt(
                #[trigger] kk[a],
                #[trigger] kk[b],
            ) by {
                let bk = member_keys(before);
                assert(before[a].0 == kk[a]);
                if b < before.len() {
                    assert(lex_lt(bk[a], bk[b]));
                } else {
                    let j = choose|j: int| 0 <= j < n - 1 && before[a].0 == kid_key(v, j);
                    assert(lex_lt(keys[j], keys[n - 1]));
                }
            }
        }
    }
}

/// Where none of the places lies, nothing goes.
proof fn lemma_none_removed(v: JsonV, path: Seq<int>, ps: Seq<Seq<int>>)
    requires
        forall|j: int|
            0 <= j < ps.len() ==> !leads(path, #[trigger] ps[j]) || ps[j].len() == path.len(),
    ensures
        removed(v, path, ps) == (v, 0nat),
    decreases v, width(v) + 1,
{
    lemma_no_kids_removed(v, width(v) as int, path, ps);
    assert(kid_list(v).take(width(v) as int) =~= kid_list(v));
    lemma_same_kind(v, v);
}

proof fn lemma_no_kids_removed(v: JsonV, n: int, path: Seq<int>, ps: Seq<Seq<int>>)
    requires
        0 <= n <= width(v),
        forall|j: int|
            0 <= j < ps.len() ==> !leads(path, #[trigger] ps[j]) || ps[j].len() == path.len(),
    ensures
        kids_left(v, n, path, ps) == (kid_list(v).take(n), 0nat),
    decreases v, n,
{
    if n == 0 {
        assert(kid_list(v).take(0) =~= Seq::empty());
    } else {
        let q = path.push(n - 1);
        lemma_kid_less(v, n - 1);
        lemma_no_kids_removed(v, n - 1, path, ps);
        assert forall|j: int| 0 <= j < ps.len() implies !leads(q, #[trigger] ps[j]) by {
            lemma_leads_kid(path, n - 1, ps[j]);
        }
        if ps.contains(q) {
            let j = ps.index_of(q);
            assert(ps[j].take(q.len() as int) =~= q);
            assert(leads(q, ps[j]));
        }
        lemma_none_removed(kid(v, n - 1), q, ps);
        assert(kid_list(v).take(n) =~= kid_list(v).take(n - 1).push(kid_list(v)[n - 1]));
    }
}

/// A value stays as it is exactly if nothing goes.
proof fn lemma_removed_count(v: JsonV, path: Seq<int>, ps: Seq<Seq<int>>)
    ensures
        removed(v, path, ps).0 == v <==> removed(v, path, ps).1 == 0,
    decreases v, width(v) + 1,
{
    let (ks, n) = kids_left(v, width(v) as int, path, ps);
    lemma_kids_left_count(v, width(v) as int, path, ps);
    assert(kid_list(v).take(width(v) as int) =~= kid_list(v));
    lemma_same_kind(v, v);
    match v {
        JsonV::Arr(a) => {
            if removed(v, path, ps).0 == v {
                assert forall|i: int| 0 <= i < ks.len() implies ks[i] == kid_list(v)[i] by {
                    assert(removed(v, path, ps).0->Arr_0[i] == ks[i].1);
                }
                assert(removed(v, path, ps).0->Arr_0.len() == ks.len());
                assert(ks =~= kid_list(v));
            }
        },
        JsonV::Obj(m) => {
            assert(kid_list(v) =~= m);
        },
        _ => {},
    }
}

proof fn lemma_kids_left_count(v: JsonV, n: int, path: Seq<int>, ps: Seq<Seq<int>>)
    requires
        0 <= n <= width(v),
    ensures
        kids_left(v, n, path, ps).0.len() <= n,
        kids_left(v, n, path, ps).0 == kid_list(v).take(n) <==> kids_left(v, n, path, ps).1 == 0,
        !(v is Obj) ==> forall|i: int|
            0 <= i < kids_left(v, n, path, ps).0.len() ==> (#[trigger] kids_left(
                v,
                n,
                path,
                ps,
            ).0[i]).0 == Seq::<u8>::empty(),
    decreases v, n,
{
    if n == 0 {
        assert(kid_list(v).take(0) =~= Seq::empty());
    } else {
        let all = kid_list(v);
        lemma_kid_less(v, n - 1);
        lemma_kids_left_count(v, n - 1, path, ps);
        lemma_removed_count(kid(v, n - 1), path.push(n - 1), ps);
        let before = kids_left(v, n - 1, path, ps).0;
        let ks = kids_left(v, n, path, ps).0;
        assert(all.take(n) =~= all.take(n - 1).push(all[n - 1]));
        if ks == all.take(n) {
            assert(ks.len() == n);
            assert(before =~= ks.take(n - 1));
            assert(all.take(n).take(n - 1) =~= all.take(n - 1));
            assert(ks[n - 1] == all[n - 1]);
        }
    }
}

/// Where one of the places lies, something goes.
proof fn lemma_some_removed(v: JsonV, path: Seq<int>, ps: Seq<Seq<int>>, p: Seq<int>)
    requires
        ps.contains(p),
        leads(path, p),
        path.len() < p.len(),
        place_in(v, p.skip(path.len() as int)),
    ensures
        removed(v, path, ps).1 > 0,
    decreases p.len() - path.len(),
{
    let q = p.skip(path.len() as int);
    let i = q[0];
    lemma_leads_kid(path, i, p);
    if path.push(i).len() < p.len() {
        lemma_some_removed(kid(v, i), path.push(i), ps, p);
    } else {
        assert(p.take(p.len() as int) =~= p);
    }
    lemma_kid_counts(v, i, width(v) as int, path, ps);
}

proof fn lemma_kid_counts(v: JsonV, i: int, n: int, path: Seq<int>, ps: Seq<Seq<int>>)
    requires
        0 <= i < n <= width(v),
        ps.contains(path.push(i)) || removed(kid(v, i), path.push(i), ps).1 > 0,
    ensures
        kids_left(v, n, path, ps).1 > 0,
    decreases n,
{
    if i < n - 1 {
        lemma_kid_counts(v, i, n - 1, path, ps);
    }
}

/// Whether the places in the value at `path` are those of a list.
spec fn agrees(ps: Seq<Seq<int>>, path: Seq<int>, qs: Seq<Seq<int>>) -> bool {
    forall|q: Seq<int>| ps.contains(#[trigger] (path + q)) <==> qs.contains(q)
}

/// What stays of elements and members where none of them goes as a whole.
proof fn lemma_kids_stay(v: JsonV, n: int, path: Seq<int>, ps: Seq<Seq<int>>)
    requires
        0 <= n <= width(v),
        forall|i: int| 0 <= i < width(v) ==> !ps.contains(#[trigger] path.push(i)),
    ensures
        kids_left(v, n, path, ps).0.len() == n,
        forall|i: int|
            0 <= i < n ==> #[trigger] kids_left(v, n, path, ps).0[i] == (
                kid_key(v, i),
                removed(kid(v, i), path.push(i), ps).0,
            ),
    decreases n,
{
    if n > 0 {
        lemma_kids_stay(v, n - 1, path, ps);
        assert(!ps.contains(path.push(n - 1)));
    }
}

/// The positions of keys do not depend on what the members hold.
proof fn lemma_same_slots(a: Seq<(Seq<u8>, JsonV)>, b: Seq<(Seq<u8>, JsonV)>, key: Seq<u8>, i: int)
    requires
        a.len() == b.len(),
        forall|j: int| 0 <= j < a.len() ==> (#[trigger] a[j]).0 == b[j].0,
        0 <= i <= a.len(),
    ensures
        member_slot(a, key, i) == member_slot(b, key, i),
    decreases a.len() - i,
{
    if i < a.len() {
        assert(a[i].0 == b[i].0);
        lemma_same_slots(a, b, key, i + 1);
    }
}

/// The list of places of an element or member agrees where that of the whole does.
proof fn lemma_agrees_kid(
    ps: Seq<Seq<int>>,
    path: Seq<int>,
    i: int,
    qs: Seq<Seq<int>>,
    inner: Seq<Seq<int>>,
)
    requires
        agrees(ps, path, qs),
        forall|q: Seq<int>| qs.contains(#[trigger] (seq![i] + q)) <==> inner.contains(q),
    ensures
        agrees(ps, path.push(i), inner),
        ps.contains(path.push(i)) <==> inner.contains(Seq::empty()),
{
    assert forall|q: Seq<int>| ps.contains(#[trigger] (path.push(i) + q)) <==> inner.contains(q) by {
        assert(path.push(i) + q =~= path + (seq![i] + q));
    }
    assert(path.push(i) + Seq::<int>::empty() =~= path.push(i));
}

/// Lists without elements hold nothing.
proof fn lemma_holds_none(ps: Seq<Seq<int>>, least: int, v: JsonV)
    requires
        all_in(v, ps, least),
        least > 0,
    ensures
        !ps.contains(Seq::empty()),
{
    if ps.contains(Seq::empty()) {
        let j = ps.index_of(Seq::empty());
        assert(ps[j].len() >= least);
    }
}

/// Whether a path leads to members or to all elements, without a recursive step on
/// the way.
pub open spec fn sweeping(steps: Seq<StepV>) -> bool {
    &&& steps.len() > 0
    &&& !(steps.last() is Index)
    &&& forall|i: int| 0 <= i < steps.len() - 1 ==> !(#[trigger] steps[i] is RecursiveKey)
}

/// What is left of a value is known by what is left of its elements or members.
proof fn lemma_removed_shape(v: JsonV, path: Seq<int>, ps: Seq<Seq<int>>)
    ensures
        ({
            let c = removed(v, path, ps).0;
            let ks = kids_left(v, width(v) as int, path, ps).0;
            &&& same_kind(v, c)
            &&& width(c) == ks.len()
            &&& forall|i: int| 0 <= i < ks.len() ==> #[trigger] kid(c, i) == ks[i].1
            &&& v is Obj ==> c == JsonV::Obj(ks)
        }),
{
    let ks = kids_left(v, width(v) as int, path, ps).0;
    lemma_kids_left_count(v, width(v) as int, path, ps);
    lemma_with_kids(v, ks);
}

proof fn lemma_all_gone(v: JsonV, n: int, path: Seq<int>, ps: Seq<Seq<int>>)
    requires
        0 <= n <= width(v),
        forall|i: int| 0 <= i < width(v) ==> ps.contains(#[trigger] path.push(i)),
    ensures
        kids_left(v, n, path, ps).0.len() == 0,
    decreases n,
{
    if n > 0 {
        lemma_all_gone(v, n - 1, path, ps);
        assert(ps.contains(path.push(n - 1)));
    }
}

proof fn lemma_no_kids_places(v: JsonV, n: int, steps: Seq<StepV>, pos: int)
    requires
        0 <= n <= width(v),
        forall|i: int| 0 <= i < width(v) ==> places(#[trigger] kid(v, i), steps, pos).len() == 0,
    ensures
        kids_places(v, n, steps, pos).len() == 0,
    decreases n,
{
    if n > 0 {
        lemma_no_kids_places(v, n - 1, steps, pos);
        assert(places(kid(v, n - 1), steps, pos).len() == 0);
    }
}

proof fn lemma_no_deep_kids_places(v: JsonV, n: int, key: Seq<u8>, steps: Seq<StepV>, next: int)
    requires
        0 <= n <= width(v),
        forall|i: int|
            0 <= i < width(v) ==> deep_places(#[trigger] kid(v, i), key, steps, next).len() == 0,
    ensures
        deep_kids_places(v, n, key, steps, next).len() == 0,
    decreases n,
{
    if n > 0 {
        lemma_no_deep_kids_places(v, n - 1, key, steps, next);
        assert(deep_places(kid(v, n - 1), key, steps, next).len() == 0);
    }
}

/// Where no place is listed, nothing goes.
proof fn lemma_none_agreed(v: JsonV, path: Seq<int>, ps: Seq<Seq<int>>, qs: Seq<Seq<int>>)
    requires
        agrees(ps, path, qs),
        qs.len() == 0,
    ensures
        removed(v, path, ps) == (v, 0nat),
{
    assert forall|j: int| 0 <= j < ps.len() implies !leads(path, #[trigger] ps[j]) by {
        if leads(path, ps[j]) {
            let q = ps[j].skip(path.len() as int);
            assert(path + q =~= ps[j]);
            assert(ps.contains(path + q));
        }
    }
    lemma_none_removed(v, path, ps);
}

/// What is left where one element or member goes.
proof fn lemma_one_gone(v: JsonV, i: int, n: int, path: Seq<int>, ps: Seq<Seq<int>>)
    requires
        0 <= i < width(v),
        0 <= n <= width(v),
        ps.contains(path.push(i)),
        forall|j: int|
            0 <= j < width(v) && j != i ==> !ps.contains(#[trigger] path.push(j)) && removed(
                kid(v, j),
                path.push(j),
                ps,
            ).0 == kid(v, j),
    ensures
        kids_left(v, n, path, ps).0 == (if n <= i {
            kid_list(v).take(n)
        } else {
            kid_list(v).take(n).remove(i)
        }),
    decreases n,
{
    let all = kid_list(v);
    if n == 0 {
        assert(all.take(0) =~= Seq::empty());
    } else {
        lemma_one_gone(v, i, n - 1, path, ps);
        assert(path.push(n - 1) == path.push(n - 1));
        if n - 1 == i {
            assert(all.take(n).remove(i) =~= all.take(n - 1));
        } else {
            assert(!ps.contains(path.push(n - 1)));
            if n <= i {
                assert(all.take(n) =~= all.take(n - 1).push(all[n - 1]));
            } else {
                assert(all.take(n).remove(i) =~= all.take(n - 1).remove(i).push(all[n - 1]));
            }
        }
    }
}

/// In an object that is valid, a key stands in one place.
proof fn lemma_key_at(m: Seq<(Seq<u8>, JsonV)>, i: int)
    requires
        json_ok(JsonV::Obj(m)),
        0 <= i < m.len(),
    ensures
        member_at(m, m[i].0) == Some(i),
{
    let keys = member_keys(m);
    lemma_ok_member(m, i);
    assert forall|j: int| 0 <= j < i implies lex_lt((#[trigger] m[j]).0, m[i].0) by {
        assert(lex_lt(keys[j], keys[i]));
    }
    lemma_lex_total(m[i].0, m[i].0);
    lemma_slot_is(m, m[i].0, 0, i);
}

/// The same where a step leads to one element or member.
proof fn lemma_nothing_left_at(
    v: JsonV,
    i: int,
    path: Seq<int>,
    steps: Seq<StepV>,
    pos: int,
    ps: Seq<Seq<int>>,
)
    requires
        json_ok(v),
        sweeping(steps),
        0 <= pos < steps.len(),
        0 <= i < width(v),
        match steps[pos] {
            StepV::Key(k) => v matches JsonV::Obj(m) && member_at(m, k) == Some(i),
            StepV::Index(idx) => v matches JsonV::Arr(a) && index_in(idx, a.len()) == Some(i),
            _ => false,
        },
        agrees(ps, path, places(v, steps, pos)),
    ensures
        places(removed(v, path, ps).0, steps, pos).len() == 0,
    decreases steps.len() - pos, 0int,
{
    let inner = places(kid(v, i), steps, pos + 1);
    let qs = prefixed(i, inner);
    let c = removed(v, path, ps).0;
    let ks = kids_left(v, width(v) as int, path, ps).0;
    let last = pos == steps.len() - 1;
    let none: Seq<Seq<int>> = Seq::empty();
    assert(qs == places(v, steps, pos));
    lemma_removed_shape(v, path, ps);
    assert forall|j: int| 0 <= j < width(v) && j != i implies !ps.contains(#[trigger] path.push(j))
        && removed(kid(v, j), path.push(j), ps).0 == kid(v, j) by {
        assert forall|q: Seq<int>| qs.contains(#[trigger] (seq![j] + q)) <==> none.contains(q) by {
            lemma_prefixed_has(i, inner, j, q);
        }
        lemma_agrees_kid(ps, path, j, qs, none);
        lemma_none_agreed(kid(v, j), path.push(j), ps, none);
    }
    assert forall|q: Seq<int>| qs.contains(#[trigger] (seq![i] + q)) <==> inner.contains(q) by {
        lemma_prefixed_has(i, inner, i, q);
    }
    lemma_agrees_kid(ps, path, i, qs, inner);
    if last {
        assert(inner[0] == Seq::<int>::empty());
        assert(inner.contains(Seq::empty()));
        lemma_one_gone(v, i, width(v) as int, path, ps);
        if let JsonV::Obj(m) = v {
            assert(kid_list(v).take(width(v) as int) =~= m);
            assert(ks =~= m.remove(i));
            let key = steps[pos]->Key_0;
            if member_at(ks, key) is Some {
                let x = member_at(ks, key)->0;
                let y = if x < i {
                    x
                } else {
                    x + 1
                };
                assert(m[y].0 == key);
                lemma_key_at(m, y);
            }
        }
    } else {
        lemma_places_in(kid(v, i), steps, pos + 1);
        lemma_holds_none(inner, steps.len() - pos - 1, kid(v, i));
        assert forall|j: int| 0 <= j < width(v) implies !ps.contains(#[trigger] path.push(j)) by {}
        lemma_kids_stay(v, width(v) as int, path, ps);
        lemma_kid_ok(v, i);
        lemma_nothing_left(kid(v, i), path.push(i), steps, pos + 1, ps);
        assert(ks[i] == (kid_key(v, i), removed(kid(v, i), path.push(i), ps).0));
        assert(kid(c, i) == ks[i].1);
        if let JsonV::Obj(m) = v {
            assert forall|j: int| 0 <= j < ks.len() implies (#[trigger] ks[j]).0 == m[j].0 by {}
            lemma_same_slots(ks, m, steps[pos]->Key_0, 0);
        }
    }
}

/// The same where a recursive step ends the path.
proof fn lemma_nothing_left_deep(
    v: JsonV,
    path: Seq<int>,
    key: Seq<u8>,
    steps: Seq<StepV>,
    next: int,
    ps: Seq<Seq<int>>,
)
    requires
        json_ok(v),
        next == steps.len(),
        agrees(ps, path, deep_places(v, key, steps, next)),
    ensures
        deep_places(removed(v, path, ps).0, key, steps, next).len() == 0,
    decreases v, width(v) + 1,
{
    let c = removed(v, path, ps).0;
    let ks = kids_left(v, width(v) as int, path, ps).0;
    lemma_removed_shape(v, path, ps);
    lemma_deep_left(v, width(v) as int, path, key, steps, next, ps);
    assert forall|i: int| 0 <= i < width(c) implies deep_places(
        #[trigger] kid(c, i),
        key,
        steps,
        next,
    ).len() == 0 by {
        assert(kid(c, i) == ks[i].1);
    }
    lemma_no_deep_kids_places(c, width(c) as int, key, steps, next);
    if let JsonV::Obj(m) = c {
        if member_at(m, key) is Some {
            let x = member_at(m, key)->0;
            assert(ks[x].0 == key);
        }
    }
}

proof fn lemma_deep_left(
    v: JsonV,
    n: int,
    path: Seq<int>,
    key: Seq<u8>,
    steps: Seq<StepV>,
    next: int,
    ps: Seq<Seq<int>>,
)
    requires
        json_ok(v),
        next == steps.len(),
        0 <= n <= width(v),
        agrees(ps, path, deep_places(v, key, steps, next)),
    ensures
        ({
            let ks = kids_left(v, n, path, ps).0;
            forall|i: int|
                0 <= i < ks.len() ==> deep_places((#[trigger] ks[i]).1, key, steps, next).len() == 0
                    && (v is Obj ==> ks[i].0 != key)
        }),
    decreases v, n,
{
    if n > 0 {
        let i = n - 1;
        let x = kid(v, i);
        let qs = deep_places(v, key, steps, next);
        lemma_kid_less(v, i);
        lemma_deep_left(v, i, path, key, steps, next, ps);
        let here = v matches JsonV::Obj(m) && member_at(m, key) == Some(i);
        lemma_deep_places_has(v, key, steps, next, i, Seq::empty());
        assert(seq![i] + Seq::<int>::empty() =~= seq![i]);
        assert(path + seq![i] =~= path.push(i));
        assert(ps.contains(path + seq![i]) == qs.contains(seq![i]));
        if here {
            let inner = places(x, steps, next);
            assert(inner[0] == Seq::<int>::empty());
            assert(inner.contains(Seq::empty()));
            assert(ps.contains(path.push(i)));
        } else {
            let inner = deep_places(x, key, steps, next);
            assert forall|q: Seq<int>| qs.contains(#[trigger] (seq![i] + q)) <==> inner.contains(
                q,
            ) by {
                lemma_deep_places_has(v, key, steps, next, i, q);
            }
            lemma_agrees_kid(ps, path, i, qs, inner);
            lemma_kid_ok(v, i);
            lemma_nothing_left_deep(x, path.push(i), key, steps, next, ps);
            if let JsonV::Obj(m) = v {
                if m[i].0 == key {
                    lemma_key_at(m, i);
                }
            }
        }
        let before = kids_left(v, i, path, ps).0;
        let ks = kids_left(v, n, path, ps).0;
        assert forall|j: int| 0 <= j < ks.len() implies deep_places(
            (#[trigger] ks[j]).1,
            key,
            steps,
            next,
        ).len() == 0 && (v is Obj ==> ks[j].0 != key) by {
            if j < before.len() {
                assert(ks[j] == before[j]);
            }
        }
    }
}

/// After the places that a path selects went, it selects nothing.
proof fn lemma_nothing_left(v: JsonV, path: Seq<int>, steps: Seq<StepV>, pos: int, ps: Seq<Seq<int>>)
    requires
        json_ok(v),
        sweeping(steps),
        0 <= pos < steps.len(),
        agrees(ps, path, places(v, steps, pos)),
    ensures
        places(removed(v, path, ps).0, steps, pos).len() == 0,
    decreases steps.len() - pos, 1int,
{
    let qs = places(v, steps, pos);
    let c = removed(v, path, ps).0;
    let ks = kids_left(v, width(v) as int, path, ps).0;
    let last = pos == steps.len() - 1;
    lemma_removed_shape(v, path, ps);
    match steps[pos] {
        StepV::RecursiveKey(k) => {
            assert(last);
            lemma_nothing_left_deep(v, path, k, steps, pos + 1, ps);
        },
        StepV::Wildcard => {
            assert forall|i: int, q: Seq<int>| 0 <= i < width(v) implies qs.contains(
                #[trigger] (seq![i] + q),
            ) == places(kid(v, i), steps, pos + 1).contains(q) by {
                lemma_kids_places_has(v, width(v) as int, steps, pos + 1, i, q);
            }
            if last {
                assert forall|i: int| 0 <= i < width(v) implies ps.contains(
                    #[trigger] path.push(i),
                ) by {
                    let inner = places(kid(v, i), steps, pos + 1);
                    assert(inner[0] == Seq::<int>::empty());
                    assert(inner.contains(Seq::empty()));
                    lemma_agrees_kid(ps, path, i, qs, inner);
                }
                lemma_all_gone(v, width(v) as int, path, ps);
                assert(width(c) == 0);
                assert(kids_places(c, 0, steps, pos + 1).len() == 0);
            } else {
                assert forall|i: int| 0 <= i < width(v) implies !ps.contains(
                    #[trigger] path.push(i),
                ) && places(removed(kid(v, i), path.push(i), ps).0, steps, pos + 1).len() == 0 by {
                    let inner = places(kid(v, i), steps, pos + 1);
                    lemma_agrees_kid(ps, path, i, qs, inner);
                    lemma_places_in(kid(v, i), steps, pos + 1);
                    lemma_holds_none(inner, steps.len() - pos - 1, kid(v, i));
                    lemma_kid_ok(v, i);
                    lemma_nothing_left(kid(v, i), path.push(i), steps, pos + 1, ps);
                }
                lemma_kids_stay(v, width(v) as int, path, ps);
                assert forall|i: int| 0 <= i < width(c) implies places(
                    #[trigger] kid(c, i),
                    steps,
                    pos + 1,
                ).len() == 0 by {
                    assert(kid(c, i) == ks[i].1);
                    assert(!ps.contains(path.push(i)));
                }
                lemma_no_kids_places(c, width(c) as int, steps, pos + 1);
            }
        },
        StepV::Key(k) => match v {
            JsonV::Obj(m) => match member_at(m, k) {
                Some(i) => lemma_nothing_left_at(v, i, path, steps, pos, ps),
                None => {
                    lemma_none_agreed(v, path, ps, qs);
                    assert(places(c, steps, pos).len() == 0);
                },
            },
            _ => {
                lemma_none_agreed(v, path, ps, qs);
                assert(places(c, steps, pos).len() == 0);
            },
        },
        StepV::Index(idx) => match v {
            JsonV::Arr(a) => match index_in(idx, a.len()) {
                Some(i) => lemma_nothing_left_at(v, i, path, steps, pos, ps),
                None => {
                    lemma_none_agreed(v, path, ps, qs);
                    assert(places(c, steps, pos).len() == 0);
                },
            },
            _ => {
                lemma_none_agreed(v, path, ps, qs);
                assert(places(c, steps, pos).len() == 0);
            },
        },
    }
}

/// Deleting deletes exactly where a path selects something: the count is zero, and
/// the value stays as it is, exactly if the path selects nothing.
pub proof fn law_deleting_counts(v: JsonV, steps: Seq<StepV>)
    requires
        steps.len() > 0,
    ensures
        deleted(v, steps).1 == 0 <==> selected(v, steps, 0).len() == 0,
        deleted(v, steps).0 == v <==> selected(v, steps, 0).len() == 0,
{
    let all = places(v, steps, 0);
    let ps = spots(v, steps);
    let none: Seq<int> = Seq::empty();
    law_selected_by_place(v, steps, 0);
    lemma_spots(v, steps);
    lemma_removed_count(v, none, ps);
    if all.len() == 0 {
        assert forall|j: int| 0 <= j < ps.len() implies !leads(none, #[trigger] ps[j]) by {
            assert(ps.contains(ps[j]));
        }
        lemma_none_removed(v, none, ps);
    } else {
        let p = all[0];
        assert(all.contains(p));
        assert(ps.contains(p));
        let j = ps.index_of(p);
        assert(place_in(v, ps[j]) && ps[j].len() >= steps.len());
        assert(p.take(0) =~= none);
        assert(p.skip(0) =~= p);
        lemma_some_removed(v, none, ps, p);
    }
}

/// After what a path selects was deleted, it selects nothing. The path has no
/// recursive step before its end, and no index there: behind a deleted element
/// another one takes its place.
pub proof fn law_nothing_is_selected_after_deleting(v: JsonV, steps: Seq<StepV>)
    requires
        json_ok(v),
        sweeping(steps),
    ensures
        selected(deleted(v, steps).0, steps, 0).len() == 0,
{
    let ps = spots(v, steps);
    let none: Seq<int> = Seq::empty();
    lemma_spots(v, steps);
    assert forall|q: Seq<int>| ps.contains(#[trigger] (none + q)) <==> places(
        v,
        steps,
        0,
    ).contains(q) by {
        assert(none + q =~= q);
    }
    lemma_nothing_left(v, none, steps, 0, ps);
    law_selected_by_place(deleted(v, steps).0, steps, 0);
}

} // verus!
