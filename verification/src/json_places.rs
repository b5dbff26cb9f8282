//! Places inside JSON values: where they are, and which of them a path selects.

use vstd::prelude::*;

use crate::json_data::{
    json_ok, json_views, lemma_arr_view, lemma_obj_view, lemma_ok_item, lemma_ok_member,
    member_views, Json, JsonV,
};
use crate::json_path::{
    find_member, index_in, member_at, resolve_index, selected, selected_deep, selected_items,
    selected_members, deep_items, deep_members, step_views, PathToken, StepV,
};

verus! {

// ---------------------------------------------------------------------------
// Elements and members alike
// ---------------------------------------------------------------------------

/// How many elements or members a value has.
pub open spec fn width(v: JsonV) -> nat {
    match v {
        JsonV::Arr(a) => a.len(),
        JsonV::Obj(m) => m.len(),
        _ => 0,
    }
}

/// The element, or the value of the member, at a position.
pub open spec fn kid(v: JsonV, i: int) -> JsonV {
    match v {
        JsonV::Arr(a) => a[i],
        JsonV::Obj(m) => m[i].1,
        _ => v,
    }
}

/// The key of the member at a position; elements have none.
pub open spec fn kid_key(v: JsonV, i: int) -> Seq<u8> {
    match v {
        JsonV::Obj(m) => m[i].0,
        _ => Seq::empty(),
    }
}

/// What an element or a member lies in is larger.
pub proof fn lemma_kid_less(v: JsonV, i: int)
    requires
        0 <= i < width(v),
    ensures
        decreases_to!(v => kid(v, i)),
{
    match v {
        JsonV::Arr(a) => {
            assert(decreases_to!(v => v->Arr_0));
            assert(decreases_to!(a => a[i]));
        },
        JsonV::Obj(m) => {
            assert(decreases_to!(v => v->Obj_0));
            assert(decreases_to!(m => m[i]));
            assert(decreases_to!(m[i] => m[i].1));
        },
        _ => {},
    }
}

/// A value like another one, with other elements or members.
pub open spec fn with_kids(v: JsonV, ks: Seq<(Seq<u8>, JsonV)>) -> JsonV {
    match v {
        JsonV::Arr(_) => JsonV::Arr(ks.map_values(|k: (Seq<u8>, JsonV)| k.1)),
        JsonV::Obj(_) => JsonV::Obj(ks),
        _ => v,
    }
}

/// The elements or members of a value, with their keys.
pub open spec fn kid_list(v: JsonV) -> Seq<(Seq<u8>, JsonV)> {
    Seq::new(width(v), |i: int| (kid_key(v, i), kid(v, i)))
}

/// Whether two values are both arrays, both objects, or the same.
pub open spec fn same_kind(a: JsonV, b: JsonV) -> bool {
    match a {
        JsonV::Arr(_) => b is Arr,
        JsonV::Obj(_) => b is Obj,
        _ => a == b,
    }
}

/// A value of the same kind is known by its elements or members.
pub proof fn lemma_same_kind(a: JsonV, b: JsonV)
    requires
        same_kind(a, b),
    ensures
        b == with_kids(a, kid_list(b)),
{
    match b {
        JsonV::Arr(x) => {
            assert(kid_list(b).map_values(|k: (Seq<u8>, JsonV)| k.1) =~= x);
        },
        JsonV::Obj(m) => {
            assert(kid_list(b) =~= m);
        },
        _ => {},
    }
}

/// What `with_kids` holds.
pub proof fn lemma_with_kids(v: JsonV, ks: Seq<(Seq<u8>, JsonV)>)
    requires
        v is Arr || v is Obj || ks.len() == 0,
    ensures
        width(with_kids(v, ks)) == ks.len(),
        same_kind(v, with_kids(v, ks)),
        forall|i: int| 0 <= i < ks.len() ==> #[trigger] kid(with_kids(v, ks), i) == ks[i].1,
        v is Obj ==> forall|i: int|
            0 <= i < ks.len() ==> #[trigger] kid_key(with_kids(v, ks), i) == ks[i].0,
{
}

/// The element, or the value of the member, at a position.
pub open spec fn raw_kid(v: Json, i: int) -> Json {
    match v {
        Json::Arr(a) => a@[i],
        Json::Obj(m) => m@[i].1,
        _ => v,
    }
}

/// What an element or a member lies in is larger.
pub proof fn lemma_raw_kid(v: Json, i: int)
    requires
        0 <= i < width(v@),
    ensures
        decreases_to!(v => raw_kid(v, i)),
        raw_kid(v, i)@ == kid(v@, i),
{
    match v {
        Json::Arr(a) => {
            lemma_arr_view(a);
            assert(decreases_to!(v => v->Arr_0));
            assert(decreases_to!(a => a@));
            assert(decreases_to!(a@ => a@[i]));
        },
        Json::Obj(m) => {
            lemma_obj_view(m);
            assert(decreases_to!(v => v->Obj_0));
            assert(decreases_to!(m => m@));
            assert(decreases_to!(m@ => m@[i]));
            assert(decreases_to!(m@[i] => m@[i].1));
        },
        _ => {},
    }
}

/// Drops an element or a member.
pub fn drop_kid(v: &mut Json, i: usize)
    requires
        i < width(old(v)@),
    ensures
        same_kind(old(v)@, final(v)@),
        kid_list(final(v)@) == kid_list(old(v)@).remove(i as int),
        forall|j: int|
            0 <= j < width(final(v)@) ==> #[trigger] raw_kid(*final(v), j) == raw_kid(
                *old(v),
                if j < i {
                    j
                } else {
                    j + 1
                },
            ),
{
    let ghost was = kid_list(v@);
    match v {
        Json::Arr(a) => {
            let ghost av = json_views(a@);
            proof {
                lemma_arr_view(*a);
            }
            let _gone: Json = a.remove(i);
            proof {
                lemma_arr_view(*a);
                assert(json_views(a@) =~= av.remove(i as int));
            }
        },
        Json::Obj(m) => {
            let ghost mv = member_views(m@);
            proof {
                lemma_obj_view(*m);
            }
            let _gone: (Vec<u8>, Json) = m.remove(i);
            proof {
                lemma_obj_view(*m);
                assert(member_views(m@) =~= mv.remove(i as int));
            }
        },
        _ => {},
    }
    assert(kid_list(v@) =~= was.remove(i as int));
}

// ---------------------------------------------------------------------------
// Places
// ---------------------------------------------------------------------------

/// The value at a place: the positions to go to, level by level.
pub open spec fn value_at(v: JsonV, p: Seq<int>) -> JsonV
    decreases p.len(),
{
    if p.len() == 0 {
        v
    } else {
        value_at(kid(v, p[0]), p.skip(1))
    }
}

/// Whether a value has a place.
pub open spec fn place_in(v: JsonV, p: Seq<int>) -> bool
    decreases p.len(),
{
    p.len() == 0 || (0 <= p[0] < width(v) && place_in(kid(v, p[0]), p.skip(1)))
}

/// The elements and members of a valid value are valid.
pub proof fn lemma_kid_ok(v: JsonV, i: int)
    requires
        json_ok(v),
        0 <= i < width(v),
    ensures
        json_ok(kid(v, i)),
{
    match v {
        JsonV::Arr(a) => lemma_ok_item(a, i),
        JsonV::Obj(m) => lemma_ok_member(m, i),
        _ => {},
    }
}

/// What stands at a place of a valid value is valid.
pub proof fn lemma_value_ok(v: JsonV, p: Seq<int>)
    requires
        json_ok(v),
        place_in(v, p),
    ensures
        json_ok(value_at(v, p)),
    decreases p.len(),
{
    if p.len() > 0 {
        lemma_kid_ok(v, p[0]);
        lemma_value_ok(kid(v, p[0]), p.skip(1));
    }
}

/// Whether a place is at `path` or inside it.
pub open spec fn leads(path: Seq<int>, p: Seq<int>) -> bool {
    path.len() <= p.len() && p.take(path.len() as int) == path
}

/// A place inside an element or member is inside what that lies in.
pub proof fn lemma_leads_kid(path: Seq<int>, i: int, p: Seq<int>)
    ensures
        leads(path.push(i), p) <==> (leads(path, p) && path.len() < p.len() && p[path.len() as int]
            == i),
        leads(path.push(i), p) ==> p.skip(path.len() as int)[0] == i && p.skip(
            path.len() as int,
        ).skip(1) == p.skip(path.push(i).len() as int),
{
    let n = path.len() as int;
    if leads(path.push(i), p) {
        assert(p.take(n) =~= p.take(n + 1).take(n));
        assert(path.push(i).take(n) =~= path);
        assert(p.take(n + 1)[n] == i);
        assert(p.skip(n).skip(1) =~= p.skip(n + 1));
    }
    if leads(path, p) && n < p.len() && p[n] == i {
        assert(p.take(n + 1) =~= path.push(i));
    }
}

/// Places inside the element or member at a position, seen from outside.
pub open spec fn prefixed(i: int, ps: Seq<Seq<int>>) -> Seq<Seq<int>> {
    ps.map_values(|p: Seq<int>| seq![i] + p)
}

/// The places that a path selects, from position `pos` of it on, in the order in
/// which it selects the values there.
pub open spec fn places(v: JsonV, steps: Seq<StepV>, pos: int) -> Seq<Seq<int>>
    decreases steps.len() - pos, v, width(v) + 1,
{
    if pos < 0 || pos >= steps.len() {
        seq![Seq::empty()]
    } else {
        match steps[pos] {
            StepV::Key(k) => match v {
                JsonV::Obj(m) => match member_at(m, k) {
                    Some(i) => prefixed(i, places(m[i].1, steps, pos + 1)),
                    None => Seq::empty(),
                },
                _ => Seq::empty(),
            },
            StepV::Index(idx) => match v {
                JsonV::Arr(a) => match index_in(idx, a.len()) {
                    Some(i) => prefixed(i, places(a[i], steps, pos + 1)),
                    None => Seq::empty(),
                },
                _ => Seq::empty(),
            },
            StepV::Wildcard => kids_places(v, width(v) as int, steps, pos + 1),
            StepV::RecursiveKey(k) => deep_places(v, k, steps, pos + 1),
        }
    }
}

/// The places that a path selects in each of the first `n` elements or members.
pub open spec fn kids_places(v: JsonV, n: int, steps: Seq<StepV>, pos: int) -> Seq<Seq<int>>
    decreases steps.len() - pos, v, n,
{
    if n <= 0 || n > width(v) {
        Seq::empty()
    } else {
        proof {
            lemma_kid_less(v, n - 1);
        }
        kids_places(v, n - 1, steps, pos) + prefixed(n - 1, places(kid(v, n - 1), steps, pos))
    }
}

/// The places that a path selects from the members with a key, at any depth.
pub open spec fn deep_places(v: JsonV, key: Seq<u8>, steps: Seq<StepV>, next: int) -> Seq<Seq<int>>
    decreases steps.len() - next, v, width(v) + 1,
{
    let here = match v {
        JsonV::Obj(m) => match member_at(m, key) {
            Some(i) => prefixed(i, places(m[i].1, steps, next)),
            None => Seq::empty(),
        },
        _ => Seq::empty(),
    };
    here + deep_kids_places(v, width(v) as int, key, steps, next)
}

/// The same inside each of the first `n` elements or members.
pub open spec fn deep_kids_places(
    v: JsonV,
    n: int,
    key: Seq<u8>,
    steps: Seq<StepV>,
    next: int,
) -> Seq<Seq<int>>
    decreases steps.len() - next, v, n,
{
    if n <= 0 || n > width(v) {
        Seq::empty()
    } else {
        proof {
            lemma_kid_less(v, n - 1);
        }
        deep_kids_places(v, n - 1, key, steps, next) + prefixed(
            n - 1,
            deep_places(kid(v, n - 1), key, steps, next),
        )
    }
}

/// The values at some places.
pub open spec fn values_at(v: JsonV, ps: Seq<Seq<int>>) -> Seq<JsonV> {
    ps.map_values(|p: Seq<int>| value_at(v, p))
}

/// The value at a place inside an element or member.
pub proof fn lemma_value_in_kid(v: JsonV, i: int, p: Seq<int>)
    ensures
        value_at(v, seq![i] + p) == value_at(kid(v, i), p),
        0 <= i < width(v) ==> place_in(v, seq![i] + p) == place_in(kid(v, i), p),
{
    assert((seq![i] + p).skip(1) =~= p);
    assert((seq![i] + p)[0] == i);
}

proof fn lemma_values_in_kid(v: JsonV, i: int, ps: Seq<Seq<int>>)
    ensures
        values_at(v, prefixed(i, ps)) == values_at(kid(v, i), ps),
{
    assert forall|j: int| 0 <= j < ps.len() implies #[trigger] values_at(v, prefixed(i, ps))[j]
        == values_at(kid(v, i), ps)[j] by {
        lemma_value_in_kid(v, i, ps[j]);
    }
    assert(values_at(v, prefixed(i, ps)) =~= values_at(kid(v, i), ps));
}

proof fn lemma_values_add(v: JsonV, a: Seq<Seq<int>>, b: Seq<Seq<int>>)
    ensures
        values_at(v, a + b) == values_at(v, a) + values_at(v, b),
{
    assert(values_at(v, a + b) =~= values_at(v, a) + values_at(v, b));
}

/// The values that a path selects are those at the places that it selects, in the
/// same order.
pub proof fn law_selected_by_place(v: JsonV, steps: Seq<StepV>, pos: int)
    ensures
        selected(v, steps, pos) == values_at(v, places(v, steps, pos)),
    decreases steps.len() - pos, v, width(v) + 1,
{
    if pos < 0 || pos >= steps.len() {
        assert(values_at(v, places(v, steps, pos)) =~= seq![v]);
    } else {
        match steps[pos] {
            StepV::Key(k) => match v {
                JsonV::Obj(m) => match member_at(m, k) {
                    Some(i) => {
                        law_selected_by_place(m[i].1, steps, pos + 1);
                        lemma_values_in_kid(v, i, places(m[i].1, steps, pos + 1));
                    },
                    None => assert(values_at(v, places(v, steps, pos)) =~= Seq::empty()),
                },
                _ => assert(values_at(v, places(v, steps, pos)) =~= Seq::empty()),
            },
            StepV::Index(idx) => match v {
                JsonV::Arr(a) => match index_in(idx, a.len()) {
                    Some(i) => {
                        law_selected_by_place(a[i], steps, pos + 1);
                        lemma_values_in_kid(v, i, places(a[i], steps, pos + 1));
                    },
                    None => assert(values_at(v, places(v, steps, pos)) =~= Seq::empty()),
                },
                _ => assert(values_at(v, places(v, steps, pos)) =~= Seq::empty()),
            },
            StepV::Wildcard => {
                lemma_selected_kids(v, width(v) as int, steps, pos + 1);
                match v {
                    JsonV::Arr(a) => assert(a.take(a.len() as int) =~= a),
                    JsonV::Obj(m) => assert(m.take(m.len() as int) =~= m),
                    _ => {},
                }
            },
            StepV::RecursiveKey(k) => lemma_selected_deep(v, k, steps, pos + 1),
        }
    }
}

proof fn lemma_selected_kids(v: JsonV, n: int, steps: Seq<StepV>, pos: int)
    requires
        0 <= n <= width(v),
    ensures
        values_at(v, kids_places(v, n, steps, pos)) == (match v {
            JsonV::Arr(a) => selected_items(a.take(n), steps, pos),
            JsonV::Obj(m) => selected_members(m.take(n), steps, pos),
            _ => Seq::empty(),
        }),
    decreases steps.len() - pos, v, n,
{
    if n == 0 {
        assert(values_at(v, kids_places(v, n, steps, pos)) =~= Seq::empty());
    } else {
        let x = kid(v, n - 1);
        lemma_kid_less(v, n - 1);
        lemma_selected_kids(v, n - 1, steps, pos);
        law_selected_by_place(x, steps, pos);
        lemma_values_in_kid(v, n - 1, places(x, steps, pos));
        lemma_values_add(
            v,
            kids_places(v, n - 1, steps, pos),
            prefixed(n - 1, places(x, steps, pos)),
        );
        match v {
            JsonV::Arr(a) => {
                assert(a.take(n).drop_last() =~= a.take(n - 1));
                assert(a.take(n)[n - 1] == x);
            },
            JsonV::Obj(m) => {
                assert(m.take(n).drop_last() =~= m.take(n - 1));
                assert(m.take(n)[n - 1].1 == x);
            },
            _ => {},
        }
    }
}

proof fn lemma_selected_deep(v: JsonV, key: Seq<u8>, steps: Seq<StepV>, next: int)
    ensures
        selected_deep(v, key, steps, next) == values_at(v, deep_places(v, key, steps, next)),
    decreases steps.len() - next, v, width(v) + 1,
{
    let kids = deep_kids_places(v, width(v) as int, key, steps, next);
    lemma_selected_deep_kids(v, width(v) as int, key, steps, next);
    match v {
        JsonV::Obj(m) => {
            assert(m.take(m.len() as int) =~= m);
            match member_at(m, key) {
                Some(i) => {
                    let here = prefixed(i, places(m[i].1, steps, next));
                    law_selected_by_place(m[i].1, steps, next);
                    lemma_values_in_kid(v, i, places(m[i].1, steps, next));
                    lemma_values_add(v, here, kids);
                },
                None => {
                    assert(deep_places(v, key, steps, next) =~= kids);
                    assert(Seq::<JsonV>::empty() + values_at(v, kids) =~= values_at(v, kids));
                },
            }
        },
        JsonV::Arr(a) => {
            assert(a.take(a.len() as int) =~= a);
            assert(deep_places(v, key, steps, next) =~= kids);
        },
        _ => assert(deep_places(v, key, steps, next) =~= kids),
    }
}

proof fn lemma_selected_deep_kids(v: JsonV, n: int, key: Seq<u8>, steps: Seq<StepV>, next: int)
    requires
        0 <= n <= width(v),
    ensures
        values_at(v, deep_kids_places(v, n, key, steps, next)) == (match v {
            JsonV::Arr(a) => deep_items(a.take(n), key, steps, next),
            JsonV::Obj(m) => deep_members(m.take(n), key, steps, next),
            _ => Seq::empty(),
        }),
    decreases steps.len() - next, v, n,
{
    if n == 0 {
        assert(values_at(v, deep_kids_places(v, n, key, steps, next)) =~= Seq::empty());
    } else {
        let x = kid(v, n - 1);
        lemma_kid_less(v, n - 1);
        lemma_selected_deep_kids(v, n - 1, key, steps, next);
        lemma_selected_deep(x, key, steps, next);
        lemma_values_in_kid(v, n - 1, deep_places(x, key, steps, next));
        lemma_values_add(
            v,
            deep_kids_places(v, n - 1, key, steps, next),
            prefixed(n - 1, deep_places(x, key, steps, next)),
        );
        match v {
            JsonV::Arr(a) => {
                assert(a.take(n).drop_last() =~= a.take(n - 1));
                assert(a.take(n)[n - 1] == x);
            },
            JsonV::Obj(m) => {
                assert(m.take(n).drop_last() =~= m.take(n - 1));
                assert(m.take(n)[n - 1].1 == x);
            },
            _ => {},
        }
    }
}

// ---------------------------------------------------------------------------
// What holds of selected places
// ---------------------------------------------------------------------------

/// Whether all places of a list are in a value, and none has less than `least`
/// levels.
pub open spec fn all_in(v: JsonV, ps: Seq<Seq<int>>, least: int) -> bool {
    forall|j: int| 0 <= j < ps.len() ==> place_in(v, #[trigger] ps[j]) && ps[j].len() >= least
}

proof fn lemma_all_in_kid(v: JsonV, i: int, ps: Seq<Seq<int>>, least: int)
    requires
        0 <= i < width(v),
        all_in(kid(v, i), ps, least),
    ensures
        all_in(v, prefixed(i, ps), least + 1),
{
    let qs = prefixed(i, ps);
    assert forall|j: int| 0 <= j < qs.len() implies place_in(v, #[trigger] qs[j]) && qs[j].len()
        >= least + 1 by {
        lemma_value_in_kid(v, i, ps[j]);
        assert(place_in(kid(v, i), ps[j]));
    }
}

/// The places that a path selects are places of the value, at least as deep as
/// the path has steps left.
pub proof fn lemma_places_in(v: JsonV, steps: Seq<StepV>, pos: int)
    requires
        0 <= pos <= steps.len(),
    ensures
        all_in(v, places(v, steps, pos), steps.len() - pos),
    decreases steps.len() - pos, v, width(v) + 1,
{
    if pos < steps.len() {
        let least = steps.len() - pos - 1;
        match steps[pos] {
            StepV::Key(k) => match v {
                JsonV::Obj(m) => match member_at(m, k) {
                    Some(i) => {
                        lemma_places_in(m[i].1, steps, pos + 1);
                        lemma_all_in_kid(v, i, places(m[i].1, steps, pos + 1), least);
                    },
                    None => {},
                },
                _ => {},
            },
            StepV::Index(idx) => match v {
                JsonV::Arr(a) => match index_in(idx, a.len()) {
                    Some(i) => {
                        lemma_places_in(a[i], steps, pos + 1);
                        lemma_all_in_kid(v, i, places(a[i], steps, pos + 1), least);
                    },
                    None => {},
                },
                _ => {},
            },
            StepV::Wildcard => lemma_kids_places_in(v, width(v) as int, steps, pos + 1),
            StepV::RecursiveKey(k) => lemma_deep_places_in(v, k, steps, pos + 1),
        }
    }
}

proof fn lemma_kids_places_in(v: JsonV, n: int, steps: Seq<StepV>, pos: int)
    requires
        0 <= pos <= steps.len(),
        0 <= n <= width(v),
    ensures
        all_in(v, kids_places(v, n, steps, pos), steps.len() - pos + 1),
    decreases steps.len() - pos, v, n,
{
    if n > 0 {
        lemma_kid_less(v, n - 1);
        lemma_kids_places_in(v, n - 1, steps, pos);
        lemma_places_in(kid(v, n - 1), steps, pos);
        lemma_all_in_kid(v, n - 1, places(kid(v, n - 1), steps, pos), steps.len() - pos);
    }
}

/// The same for the members with a key, at any depth.
pub proof fn lemma_deep_places_in(v: JsonV, key: Seq<u8>, steps: Seq<StepV>, next: int)
    requires
        0 <= next <= steps.len(),
    ensures
        all_in(v, deep_places(v, key, steps, next), steps.len() - next + 1),
    decreases steps.len() - next, v, width(v) + 1,
{
    lemma_deep_kids_places_in(v, width(v) as int, key, steps, next);
    match v {
        JsonV::Obj(m) => match member_at(m, key) {
            Some(i) => {
                lemma_places_in(m[i].1, steps, next);
                lemma_all_in_kid(v, i, places(m[i].1, steps, next), steps.len() - next);
            },
            None => {},
        },
        _ => {},
    }
}

proof fn lemma_deep_kids_places_in(v: JsonV, n: int, key: Seq<u8>, steps: Seq<StepV>, next: int)
    requires
        0 <= next <= steps.len(),
        0 <= n <= width(v),
    ensures
        all_in(v, deep_kids_places(v, n, key, steps, next), steps.len() - next + 2),
    decreases steps.len() - next, v, n,
{
    if n > 0 {
        let x = kid(v, n - 1);
        lemma_kid_less(v, n - 1);
        lemma_deep_kids_places_in(v, n - 1, key, steps, next);
        lemma_deep_places_in(x, key, steps, next);
        lemma_all_in_kid(
            v,
            n - 1,
            deep_places(x, key, steps, next),
            steps.len() - next + 1,
        );
    }
}

/// Whether no place occurs twice.
pub open spec fn all_different(ps: Seq<Seq<int>>) -> bool {
    forall|i: int, j: int| 0 <= i < j < ps.len() ==> #[trigger] ps[i] != #[trigger] ps[j]
}

/// The places of a list, each where it occurs first.
pub open spec fn firsts(ps: Seq<Seq<int>>) -> Seq<Seq<int>>
    decreases ps.len(),
{
    if ps.len() == 0 {
        Seq::empty()
    } else {
        let before = firsts(ps.drop_last());
        if before.contains(ps.last()) {
            before
        } else {
            before.push(ps.last())
        }
    }
}

/// Each place of a list is kept, once.
pub proof fn lemma_firsts(ps: Seq<Seq<int>>)
    ensures
        all_different(firsts(ps)),
        forall|p: Seq<int>| #[trigger] firsts(ps).contains(p) <==> ps.contains(p),
        all_different(ps) ==> firsts(ps) == ps,
    decreases ps.len(),
{
    if ps.len() > 0 {
        let before = firsts(ps.drop_last());
        lemma_firsts(ps.drop_last());
        assert forall|p: Seq<int>| #[trigger] firsts(ps).contains(p) <==> ps.contains(p) by {
            if ps.contains(p) {
                let j = ps.index_of(p);
                if j < ps.len() - 1 {
                    assert(ps.drop_last()[j] == p);
                    assert(before.contains(p));
                    let k = before.index_of(p);
                    assert(firsts(ps)[k] == p);
                } else if !before.contains(p) {
                    assert(firsts(ps)[before.len() as int] == p);
                }
            }
            if firsts(ps).contains(p) {
                let k = firsts(ps).index_of(p);
                if k < before.len() {
                    assert(before[k] == p);
                    assert(firsts(ps.drop_last()).contains(p));
                    assert(ps.drop_last().contains(p));
                    let j = ps.drop_last().index_of(p);
                    assert(ps[j] == p);
                } else {
                    assert(ps[ps.len() - 1] == p);
                }
            }
        }
        if all_different(ps) {
            assert(all_different(ps.drop_last())) by {
                let b = ps.drop_last();
                assert forall|i: int, j: int| 0 <= i < j < b.len() implies #[trigger] b[i]
                    != #[trigger] b[j] by {
                    assert(ps[i] != ps[j]);
                }
            }
            if before.contains(ps.last()) {
                let j = ps.drop_last().index_of(ps.last());
                assert(ps[j] != ps[ps.len() - 1]);
            }
            assert(firsts(ps) =~= ps);
        }
    }
}

/// The places that a path selects, each once.
pub open spec fn spots(v: JsonV, steps: Seq<StepV>) -> Seq<Seq<int>> {
    firsts(places(v, steps, 0))
}

/// What holds of the places that a path selects, each once.
pub proof fn lemma_spots(v: JsonV, steps: Seq<StepV>)
    ensures
        all_different(spots(v, steps)),
        all_in(v, spots(v, steps), steps.len() as int),
        forall|p: Seq<int>| #[trigger]
            spots(v, steps).contains(p) <==> places(v, steps, 0).contains(p),
{
    let ps = places(v, steps, 0);
    lemma_firsts(ps);
    lemma_places_in(v, steps, 0);
    let fs = spots(v, steps);
    assert forall|j: int| 0 <= j < fs.len() implies place_in(v, #[trigger] fs[j]) && fs[j].len()
        >= steps.len() by {
        assert(fs.contains(fs[j]));
        let k = ps.index_of(fs[j]);
        assert(ps[k] == fs[j]);
    }
}

proof fn lemma_prefixed_different(i: int, ps: Seq<Seq<int>>)
    requires
        all_different(ps),
    ensures
        all_different(prefixed(i, ps)),
{
    let qs = prefixed(i, ps);
    assert forall|a: int, b: int| 0 <= a < b < qs.len() implies #[trigger] qs[a]
        != #[trigger] qs[b] by {
        assert(qs[a].skip(1) =~= ps[a]);
        assert(qs[b].skip(1) =~= ps[b]);
        assert(ps[a] != ps[b]);
    }
}

proof fn lemma_joined_different(a: Seq<Seq<int>>, b: Seq<Seq<int>>)
    requires
        all_different(a),
        all_different(b),
        forall|i: int, j: int|
            0 <= i < a.len() && 0 <= j < b.len() ==> #[trigger] a[i] != #[trigger] b[j],
    ensures
        all_different(a + b),
{
    let s = a + b;
    assert forall|i: int, j: int| 0 <= i < j < s.len() implies #[trigger] s[i] != #[trigger] s[j] by {
        if j < a.len() {
            assert(a[i] != a[j]);
        } else if i < a.len() {
            assert(a[i] != b[j - a.len()]);
        } else {
            assert(b[i - a.len()] != b[j - a.len()]);
        }
    }
}

/// Whether a path has no recursive step from position `pos` on.
pub open spec fn plain_from(steps: Seq<StepV>, pos: int) -> bool {
    forall|i: int| pos <= i < steps.len() ==> !(#[trigger] steps[i] is RecursiveKey)
}

/// Whether a path has at most one recursive step.
pub open spec fn one_recursion(steps: Seq<StepV>) -> bool {
    forall|i: int, j: int|
        0 <= i < j < steps.len() ==> !(#[trigger] steps[i] is RecursiveKey && #[trigger] steps[j] is RecursiveKey)
}

/// Whether all places of a list begin at one of the first `n` positions.
spec fn begin_below(ps: Seq<Seq<int>>, n: int) -> bool {
    forall|j: int| 0 <= j < ps.len() ==> (#[trigger] ps[j]).len() > 0 && ps[j][0] < n
}

/// Whether all places of a list have so many levels.
spec fn all_level(ps: Seq<Seq<int>>, n: int) -> bool {
    forall|j: int| 0 <= j < ps.len() ==> (#[trigger] ps[j]).len() == n
}

proof fn lemma_plain_places(v: JsonV, steps: Seq<StepV>, pos: int)
    requires
        0 <= pos <= steps.len(),
        plain_from(steps, pos),
    ensures
        all_level(places(v, steps, pos), steps.len() - pos),
    decreases steps.len() - pos, v, width(v) + 1,
{
    if pos < steps.len() {
        assert(!(steps[pos] is RecursiveKey));
        match steps[pos] {
            StepV::Key(k) => match v {
                JsonV::Obj(m) => match member_at(m, k) {
                    Some(i) => lemma_plain_places(m[i].1, steps, pos + 1),
                    None => {},
                },
                _ => {},
            },
            StepV::Index(idx) => match v {
                JsonV::Arr(a) => match index_in(idx, a.len()) {
                    Some(i) => lemma_plain_places(a[i], steps, pos + 1),
                    None => {},
                },
                _ => {},
            },
            StepV::Wildcard => lemma_plain_kids(v, width(v) as int, steps, pos + 1),
            _ => {},
        }
    }
}

proof fn lemma_plain_kids(v: JsonV, n: int, steps: Seq<StepV>, pos: int)
    requires
        0 <= n <= width(v),
        0 <= pos <= steps.len(),
        plain_from(steps, pos),
    ensures
        all_level(kids_places(v, n, steps, pos), steps.len() - pos + 1),
    decreases steps.len() - pos, v, n,
{
    if n > 0 {
        lemma_kid_less(v, n - 1);
        lemma_plain_kids(v, n - 1, steps, pos);
        lemma_plain_places(kid(v, n - 1), steps, pos);
    }
}

/// A path with at most one recursive step selects no place twice.
pub proof fn law_places_are_different(v: JsonV, steps: Seq<StepV>, pos: int)
    requires
        0 <= pos <= steps.len(),
        one_recursion(steps),
    ensures
        all_different(places(v, steps, pos)),
    decreases steps.len() - pos, v, width(v) + 1,
{
    if pos < steps.len() {
        match steps[pos] {
            StepV::Key(k) => match v {
                JsonV::Obj(m) => match member_at(m, k) {
                    Some(i) => {
                        law_places_are_different(m[i].1, steps, pos + 1);
                        lemma_prefixed_different(i, places(m[i].1, steps, pos + 1));
                    },
                    None => {},
                },
                _ => {},
            },
            StepV::Index(idx) => match v {
                JsonV::Arr(a) => match index_in(idx, a.len()) {
                    Some(i) => {
                        law_places_are_different(a[i], steps, pos + 1);
                        lemma_prefixed_different(i, places(a[i], steps, pos + 1));
                    },
                    None => {},
                },
                _ => {},
            },
            StepV::Wildcard => lemma_kids_different(v, width(v) as int, steps, pos + 1),
            StepV::RecursiveKey(k) => {
                assert forall|i: int| pos < i < steps.len() implies !(
                #[trigger] steps[i] is RecursiveKey) by {
                    assert(steps[pos] is RecursiveKey);
                }
                lemma_deep_different(v, k, steps, pos + 1);
            },
        }
    }
}

proof fn lemma_kids_different(v: JsonV, n: int, steps: Seq<StepV>, pos: int)
    requires
        0 <= n <= width(v),
        0 <= pos <= steps.len(),
        one_recursion(steps),
    ensures
        all_different(kids_places(v, n, steps, pos)),
        begin_below(kids_places(v, n, steps, pos), n),
    decreases steps.len() - pos, v, n,
{
    if n > 0 {
        let x = kid(v, n - 1);
        lemma_kid_less(v, n - 1);
        lemma_kids_different(v, n - 1, steps, pos);
        law_places_are_different(x, steps, pos);
        lemma_prefixed_different(n - 1, places(x, steps, pos));
        let a = kids_places(v, n - 1, steps, pos);
        let b = prefixed(n - 1, places(x, steps, pos));
        assert forall|i: int, j: int| 0 <= i < a.len() && 0 <= j < b.len() implies #[trigger] a[i]
            != #[trigger] b[j] by {
            assert(b[j][0] == n - 1);
        }
        lemma_joined_different(a, b);
        assert(begin_below(b, n));
    }
}

proof fn lemma_deep_different(v: JsonV, key: Seq<u8>, steps: Seq<StepV>, next: int)
    requires
        0 <= next <= steps.len(),
        one_recursion(steps),
        plain_from(steps, next),
    ensures
        all_different(deep_places(v, key, steps, next)),
    decreases steps.len() - next, v, width(v) + 1,
{
    let kids = deep_kids_places(v, width(v) as int, key, steps, next);
    lemma_deep_kids_different(v, width(v) as int, key, steps, next);
    match v {
        JsonV::Obj(m) => match member_at(m, key) {
            Some(i) => {
                let here = prefixed(i, places(m[i].1, steps, next));
                law_places_are_different(m[i].1, steps, next);
                lemma_prefixed_different(i, places(m[i].1, steps, next));
                lemma_plain_places(m[i].1, steps, next);
                lemma_deep_kids_places_in(v, width(v) as int, key, steps, next);
                assert forall|a: int, b: int|
                    0 <= a < here.len() && 0 <= b < kids.len() implies #[trigger] here[a]
                    != #[trigger] kids[b] by {
                    assert(places(m[i].1, steps, next)[a].len() == steps.len() - next);
                }
                lemma_joined_different(here, kids);
            },
            None => assert(deep_places(v, key, steps, next) =~= kids),
        },
        _ => assert(deep_places(v, key, steps, next) =~= kids),
    }
}

proof fn lemma_deep_kids_different(v: JsonV, n: int, key: Seq<u8>, steps: Seq<StepV>, next: int)
    requires
        0 <= n <= width(v),
        0 <= next <= steps.len(),
        one_recursion(steps),
        plain_from(steps, next),
    ensures
        all_different(deep_kids_places(v, n, key, steps, next)),
        begin_below(deep_kids_places(v, n, key, steps, next), n),
    decreases steps.len() - next, v, n,
{
    if n > 0 {
        let x = kid(v, n - 1);
        lemma_kid_less(v, n - 1);
        lemma_deep_kids_different(v, n - 1, key, steps, next);
        lemma_deep_different(x, key, steps, next);
        lemma_prefixed_different(n - 1, deep_places(x, key, steps, next));
        let a = deep_kids_places(v, n - 1, key, steps, next);
        let b = prefixed(n - 1, deep_places(x, key, steps, next));
        assert forall|i: int, j: int| 0 <= i < a.len() && 0 <= j < b.len() implies #[trigger] a[i]
            != #[trigger] b[j] by {
            assert(b[j][0] == n - 1);
        }
        lemma_joined_different(a, b);
        assert(begin_below(b, n));
    }
}

/// Which places in an element or member are among those seen from outside.
pub proof fn lemma_prefixed_has(i: int, ps: Seq<Seq<int>>, j: int, q: Seq<int>)
    ensures
        prefixed(i, ps).contains(seq![j] + q) <==> (i == j && ps.contains(q)),
{
    let qs = prefixed(i, ps);
    if qs.contains(seq![j] + q) {
        let k = qs.index_of(seq![j] + q);
        assert(qs[k] == seq![i] + ps[k]);
        assert(qs[k][0] == i);
        assert((seq![j] + q).skip(1) =~= q);
        assert((seq![i] + ps[k]).skip(1) =~= ps[k]);
    }
    if i == j && ps.contains(q) {
        let k = ps.index_of(q);
        assert(qs[k] == seq![j] + q);
    }
}

/// A place is in two lists put together exactly if it is in one of them.
proof fn lemma_added_has(a: Seq<Seq<int>>, b: Seq<Seq<int>>, p: Seq<int>)
    ensures
        (a + b).contains(p) <==> (a.contains(p) || b.contains(p)),
{
    if a.contains(p) {
        assert((a + b)[a.index_of(p)] == p);
    }
    if b.contains(p) {
        assert((a + b)[a.len() + b.index_of(p)] == p);
    }
}

/// Which places in an element or member a wildcard selects.
pub proof fn lemma_kids_places_has(
    v: JsonV,
    n: int,
    steps: Seq<StepV>,
    pos: int,
    i: int,
    q: Seq<int>,
)
    requires
        0 <= n <= width(v),
    ensures
        kids_places(v, n, steps, pos).contains(seq![i] + q) <==> (0 <= i < n && places(
            kid(v, i),
            steps,
            pos,
        ).contains(q)),
    decreases n,
{
    if n > 0 {
        let b = places(kid(v, n - 1), steps, pos);
        lemma_kids_places_has(v, n - 1, steps, pos, i, q);
        lemma_prefixed_has(n - 1, b, i, q);
        lemma_added_has(kids_places(v, n - 1, steps, pos), prefixed(n - 1, b), seq![i] + q);
    }
}

proof fn lemma_deep_kids_places_has(
    v: JsonV,
    n: int,
    key: Seq<u8>,
    steps: Seq<StepV>,
    next: int,
    i: int,
    q: Seq<int>,
)
    requires
        0 <= n <= width(v),
    ensures
        deep_kids_places(v, n, key, steps, next).contains(seq![i] + q) <==> (0 <= i < n
            && deep_places(kid(v, i), key, steps, next).contains(q)),
    decreases n,
{
    if n > 0 {
        let b = deep_places(kid(v, n - 1), key, steps, next);
        lemma_deep_kids_places_has(v, n - 1, key, steps, next, i, q);
        lemma_prefixed_has(n - 1, b, i, q);
        lemma_added_has(
            deep_kids_places(v, n - 1, key, steps, next),
            prefixed(n - 1, b),
            seq![i] + q,
        );
    }
}

/// Which places in an element or member a recursive step leads to.
pub proof fn lemma_deep_places_has(
    v: JsonV,
    key: Seq<u8>,
    steps: Seq<StepV>,
    next: int,
    i: int,
    q: Seq<int>,
)
    ensures
        deep_places(v, key, steps, next).contains(seq![i] + q) <==> ({
            ||| v matches JsonV::Obj(m) && member_at(m, key) == Some(i) && places(
                m[i].1,
                steps,
                next,
            ).contains(q)
            ||| 0 <= i < width(v) && deep_places(kid(v, i), key, steps, next).contains(q)
        }),
{
    let kids = deep_kids_places(v, width(v) as int, key, steps, next);
    lemma_deep_kids_places_has(v, width(v) as int, key, steps, next, i, q);
    match v {
        JsonV::Obj(m) => match member_at(m, key) {
            Some(k) => {
                let b = places(m[k].1, steps, next);
                lemma_prefixed_has(k, b, i, q);
                lemma_added_has(prefixed(k, b), kids, seq![i] + q);
            },
            None => assert(deep_places(v, key, steps, next) =~= kids),
        },
        _ => assert(deep_places(v, key, steps, next) =~= kids),
    }
}

// ---------------------------------------------------------------------------
// Finding places
// ---------------------------------------------------------------------------

/// The place that some positions name.
pub open spec fn place_of(v: Seq<usize>) -> Seq<int> {
    v.map_values(|i: usize| i as int)
}

/// The places that some lists of positions name.
pub open spec fn place_views(v: Seq<Vec<usize>>) -> Seq<Seq<int>> {
    v.map_values(|p: Vec<usize>| place_of(p@))
}

/// Places seen from further outside.
pub open spec fn under(path: Seq<int>, ps: Seq<Seq<int>>) -> Seq<Seq<int>> {
    ps.map_values(|p: Seq<int>| path + p)
}

proof fn lemma_under_kid(path: Seq<int>, i: int, ps: Seq<Seq<int>>)
    ensures
        under(path.push(i), ps) == under(path, prefixed(i, ps)),
{
    assert forall|j: int| 0 <= j < ps.len() implies #[trigger] under(path.push(i), ps)[j] == under(
        path,
        prefixed(i, ps),
    )[j] by {
        assert(path.push(i) + ps[j] =~= path + (seq![i] + ps[j]));
    }
    assert(under(path.push(i), ps) =~= under(path, prefixed(i, ps)));
}

proof fn lemma_under_add(path: Seq<int>, a: Seq<Seq<int>>, b: Seq<Seq<int>>)
    ensures
        under(path, a + b) == under(path, a) + under(path, b),
{
    assert(under(path, a + b) =~= under(path, a) + under(path, b));
}

/// Positions with one more level.
pub proof fn lemma_place_push(p: Seq<usize>, i: usize)
    ensures
        place_of(p.push(i)) == place_of(p).push(i as int),
        p.push(i).drop_last() == p,
{
    assert(place_of(p.push(i)) =~= place_of(p).push(i as int));
    assert(p.push(i).drop_last() =~= p);
}

/// How many elements or members a value has.
pub fn width_of(v: &Json) -> (r: usize)
    ensures
        r == width(v@),
{
    match v {
        Json::Arr(a) => {
            proof {
                lemma_arr_view(*a);
            }
            a.len()
        },
        Json::Obj(m) => {
            proof {
                lemma_obj_view(*m);
            }
            m.len()
        },
        _ => 0,
    }
}

/// The element, or the value of the member, at a position.
pub fn kid_of(v: &Json, i: usize) -> (r: &Json)
    requires
        i < width(v@),
    ensures
        r@ == kid(v@, i as int),
        decreases_to!(*v => *r),
{
    match v {
        Json::Arr(a) => {
            proof {
                lemma_arr_view(*a);
                assert(decreases_to!(*v => v->Arr_0));
                assert(decreases_to!(*a => a@));
                assert(decreases_to!(a@ => a@[i as int]));
            }
            &a[i]
        },
        Json::Obj(m) => {
            proof {
                lemma_obj_view(*m);
                assert(decreases_to!(*v => v->Obj_0));
                assert(decreases_to!(*m => m@));
                assert(decreases_to!(m@ => m@[i as int]));
                assert(decreases_to!(m@[i as int] => m@[i as int].1));
            }
            &m[i].1
        },
        _ => v,
    }
}

/// A copy of some positions.
pub fn dup_place(p: &Vec<usize>) -> (r: Vec<usize>)
    ensures
        r@ == p@,
{
    let mut r: Vec<usize> = Vec::new();
    let mut i: usize = 0;
    while i < p.len()
        invariant
            i <= p@.len(),
            r@ == p@.take(i as int),
        decreases p@.len() - i,
    {
        r.push(p[i]);
        assert(r@ =~= p@.take(i + 1));
        i += 1;
    }
    assert(p@.take(i as int) =~= p@);
    r
}

/// Appends the places that a path selects in the value at `path`.
fn collect_places(
    v: &Json,
    steps: &[PathToken],
    pos: usize,
    path: &mut Vec<usize>,
    out: &mut Vec<Vec<usize>>,
)
    requires
        pos <= steps@.len(),
    ensures
        final(path)@ == old(path)@,
        place_views(final(out)@) == place_views(old(out)@) + under(
            place_of(old(path)@),
            places(v@, step_views(steps@), pos as int),
        ),
    decreases steps@.len() - pos, *v, 1int,
{
    let ghost sv = step_views(steps@);
    let ghost first = place_views(out@);
    let ghost p = place_of(path@);
    if pos == steps.len() {
        let c: Vec<usize> = dup_place(path);
        out.push(c);
        assert(p + Seq::<int>::empty() =~= p);
        assert(place_views(out@) =~= first + under(p, seq![Seq::empty()]));
        return;
    }
    assert(sv[pos as int] == steps@[pos as int]@);
    match &steps[pos] {
        PathToken::Key(k) => {
            if let Json::Obj(m) = v {
                proof {
                    lemma_obj_view(*m);
                }
                let (found, i) = find_member(m, k);
                if found {
                    collect_in_kid(v, i, steps, pos + 1, path, out);
                    return;
                }
            }
        },
        PathToken::Index(idx) => {
            if let Json::Arr(a) = v {
                proof {
                    lemma_arr_view(*a);
                }
                match resolve_index(*idx, a.len()) {
                    Some(i) => {
                        collect_in_kid(v, i, steps, pos + 1, path, out);
                        return;
                    },
                    None => {},
                }
            }
        },
        PathToken::Wildcard => {
            let n: usize = width_of(v);
            let next: usize = pos + 1;
            let mut i: usize = 0;
            assert(first =~= first + under(p, Seq::empty()));
            while i < n
                invariant
                    n == width(v@),
                    i <= n,
                    next == pos + 1,
                    next <= steps@.len(),
                    sv == step_views(steps@),
                    path@ == old(path)@,
                    p == place_of(path@),
                    place_views(out@) == first + under(p, kids_places(v@, i as int, sv, pos + 1)),
                decreases n - i,
            {
                collect_in_kid(v, i, steps, next, path, out);
                proof {
                    let a = kids_places(v@, i as int, sv, pos + 1);
                    let b = prefixed(i as int, places(kid(v@, i as int), sv, pos + 1));
                    lemma_under_add(p, a, b);
                    assert(first + under(p, a) + under(p, b) =~= first + (under(p, a) + under(
                        p,
                        b,
                    )));
                }
                i += 1;
            }
            return;
        },
        PathToken::RecursiveKey(k) => {
            collect_deep(v, k, steps, pos + 1, path, out);
            return;
        },
    }
    assert(first =~= first + under(p, Seq::empty()));
}

/// Appends the places that a path selects in one element or member.
fn collect_in_kid(
    v: &Json,
    i: usize,
    steps: &[PathToken],
    pos: usize,
    path: &mut Vec<usize>,
    out: &mut Vec<Vec<usize>>,
)
    requires
        i < width(v@),
        pos <= steps@.len(),
    ensures
        final(path)@ == old(path)@,
        place_views(final(out)@) == place_views(old(out)@) + under(
            place_of(old(path)@),
            prefixed(i as int, places(kid(v@, i as int), step_views(steps@), pos as int)),
        ),
    decreases steps@.len() - pos, *v, 0int,
{
    let ghost sv = step_views(steps@);
    let ghost was = path@;
    proof {
        lemma_place_push(was, i);
        lemma_under_kid(place_of(was), i as int, places(kid(v@, i as int), sv, pos as int));
    }
    path.push(i);
    collect_places(kid_of(v, i), steps, pos, path, out);
    let _last: Option<usize> = path.pop();
}

/// Appends the places that the rest of a path selects from the members with a
/// key, at any depth.
fn collect_deep(
    v: &Json,
    key: &Vec<u8>,
    steps: &[PathToken],
    next: usize,
    path: &mut Vec<usize>,
    out: &mut Vec<Vec<usize>>,
)
    requires
        next <= steps@.len(),
    ensures
        final(path)@ == old(path)@,
        place_views(final(out)@) == place_views(old(out)@) + under(
            place_of(old(path)@),
            deep_places(v@, key@, step_views(steps@), next as int),
        ),
    decreases steps@.len() - next, *v, 1int,
{
    let ghost sv = step_views(steps@);
    let ghost first = place_views(out@);
    let ghost p = place_of(path@);
    let ghost mut here: Seq<Seq<int>> = Seq::empty();
    assert(first =~= first + under(p, here));
    if let Json::Obj(m) = v {
        proof {
            lemma_obj_view(*m);
        }
        let (found, i) = find_member(m, key);
        if found {
            collect_in_kid(v, i, steps, next, path, out);
            proof {
                here = prefixed(i as int, places(kid(v@, i as int), sv, next as int));
            }
        }
    }
    let n: usize = width_of(v);
    let mut i: usize = 0;
    assert(first + under(p, here) =~= first + under(p, here) + under(p, Seq::empty()));
    while i < n
        invariant
            n == width(v@),
            i <= n,
            next <= steps@.len(),
            sv == step_views(steps@),
            path@ == old(path)@,
            p == place_of(path@),
            place_views(out@) == first + under(p, here) + under(
                p,
                deep_kids_places(v@, i as int, key@, sv, next as int),
            ),
        decreases n - i,
    {
        let ghost was = path@;
        let ghost b = deep_places(kid(v@, i as int), key@, sv, next as int);
        proof {
            lemma_place_push(was, i);
            lemma_under_kid(p, i as int, b);
        }
        path.push(i);
        collect_deep(kid_of(v, i), key, steps, next, path, out);
        let _last: Option<usize> = path.pop();
        proof {
            let a = deep_kids_places(v@, i as int, key@, sv, next as int);
            let c = prefixed(i as int, b);
            lemma_under_add(p, a, c);
            assert(first + under(p, here) + under(p, a) + under(p, c) =~= first + under(p, here)
                + (under(p, a) + under(p, c)));
        }
        i += 1;
    }
    proof {
        let kids = deep_kids_places(v@, n as int, key@, sv, next as int);
        lemma_under_add(p, here, kids);
        assert(here + kids =~= deep_places(v@, key@, sv, next as int));
        assert(first + under(p, here) + under(p, kids) =~= first + (under(p, here) + under(
            p,
            kids,
        )));
    }
}

/// Whether two lists of positions are the same.
fn same_place(a: &Vec<usize>, b: &Vec<usize>) -> (r: bool)
    ensures
        r == (place_of(a@) == place_of(b@)),
{
    if a.len() != b.len() {
        assert(place_of(a@).len() != place_of(b@).len());
        return false;
    }
    let mut i: usize = 0;
    while i < a.len()
        invariant
            i <= a@.len() == b@.len(),
            forall|j: int| 0 <= j < i ==> a@[j] == b@[j],
        decreases a@.len() - i,
    {
        if a[i] != b[i] {
            assert(place_of(a@)[i as int] != place_of(b@)[i as int]);
            return false;
        }
        i += 1;
    }
    assert(place_of(a@) =~= place_of(b@));
    true
}

/// Where a place stands in a list, if it is there.
pub fn rank_of(ps: &Vec<Vec<usize>>, p: &Vec<usize>) -> (r: Option<usize>)
    ensures
        match r {
            Some(j) => j < ps@.len() && place_views(ps@)[j as int] == place_of(p@),
            None => !place_views(ps@).contains(place_of(p@)),
        },
{
    let mut j: usize = 0;
    while j < ps.len()
        invariant
            j <= ps@.len(),
            forall|k: int| 0 <= k < j ==> place_views(ps@)[k] != place_of(p@),
        decreases ps@.len() - j,
    {
        if same_place(&ps[j], p) {
            return Some(j);
        }
        j += 1;
    }
    None
}

/// The places that a path selects, each once.
pub fn find_spots(v: &Json, steps: &[PathToken]) -> (r: Vec<Vec<usize>>)
    ensures
        place_views(r@) == spots(v@, step_views(steps@)),
{
    let mut path: Vec<usize> = Vec::new();
    let mut all: Vec<Vec<usize>> = Vec::new();
    collect_places(v, steps, 0, &mut path, &mut all);
    let ghost ps = places(v@, step_views(steps@), 0);
    proof {
        let none: Seq<int> = Seq::empty();
        assert(place_of(path@) =~= none);
        assert forall|j: int| 0 <= j < ps.len() implies #[trigger] under(none, ps)[j] == ps[j] by {
            assert(none + ps[j] =~= ps[j]);
        }
        assert(under(none, ps) =~= ps);
        assert(place_views(all@) =~= ps);
    }
    let mut r: Vec<Vec<usize>> = Vec::new();
    let mut i: usize = 0;
    assert(place_views(r@) =~= Seq::empty());
    assert(ps.take(0) =~= Seq::empty());
    while i < all.len()
        invariant
            i <= all@.len(),
            ps == place_views(all@),
            place_views(r@) == firsts(ps.take(i as int)),
        decreases all@.len() - i,
    {
        assert(ps.take(i + 1).drop_last() =~= ps.take(i as int));
        assert(ps.take(i + 1).last() == place_of(all@[i as int]@));
        match rank_of(&r, &all[i]) {
            Some(j) => {
                assert(place_views(r@).contains(place_views(r@)[j as int]));
            },
            None => {
                let ghost before = r@;
                r.push(dup_place(&all[i]));
                assert(place_views(r@) =~= place_views(before).push(place_of(all@[i as int]@)));
            },
        }
        i += 1;
    }
    assert(ps.take(i as int) =~= ps);
    r
}

/// Whether some of the places are at `path` or inside it.
pub fn reaches(ps: &Vec<Vec<usize>>, path: &Vec<usize>) -> (r: bool)
    ensures
        r == (exists|j: int|
            0 <= j < ps@.len() && leads(place_of(path@), #[trigger] place_views(ps@)[j])),
{
    let ghost p = place_of(path@);
    let mut j: usize = 0;
    while j < ps.len()
        invariant
            j <= ps@.len(),
            p == place_of(path@),
            forall|k: int| 0 <= k < j ==> !leads(p, #[trigger] place_views(ps@)[k]),
        decreases ps@.len() - j,
    {
        let mut i: usize = 0;
        while i < path.len() && i < ps[j].len() && path[i] == ps[j][i]
            invariant
                j < ps@.len(),
                i <= path@.len(),
                i <= ps@[j as int]@.len(),
                forall|k: int| 0 <= k < i ==> path@[k] == ps@[j as int]@[k],
            decreases path@.len() - i,
        {
            i += 1;
        }
        let ghost q = place_views(ps@)[j as int];
        assert(q == place_of(ps@[j as int]@));
        if i == path.len() {
            assert(q.take(p.len() as int) =~= p);
            assert(leads(p, q));
            return true;
        }
        proof {
            if leads(p, q) {
                assert(q.take(p.len() as int)[i as int] == q[i as int]);
                assert(p[i as int] == path@[i as int]);
            }
        }
        j += 1;
    }
    false
}

} // verus!
