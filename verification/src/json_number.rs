//! Changing the numbers that a JSON path selects. The arithmetic is the
//! caller's: the numbers are shown in the order in which they are selected, and
//! replaced in that order.

use vstd::prelude::*;

use crate::error::{runtime, ErrV, RedisError};
use crate::json_data::{
    dup_number, json_ok, json_views, lemma_arr_ok, lemma_arr_view, lemma_obj_ok, lemma_obj_view,
    lemma_ok_member, member_keys, member_views, number_view, Json, JsonV, NumV,
};
use crate::json_path::{
    all_ok, find_member, index_in, lemma_json_views_push, member_at, resolve_index, step_views,
    PathToken, StepV,
};
use crate::json_places::{
    all_different, all_in, dup_place, find_spots, kid, kid_key, kid_list, kid_of, leads, lemma_kid_ok,
    lemma_same_kind, lemma_spots, lemma_with_kids, place_in, place_of, place_views, places,
    same_kind, spots, value_at, width, with_kids,
};

verus! {

/// Some numbers.
pub open spec fn number_views(v: Seq<serde_json::Number>) -> Seq<NumV> {
    v.map_values(|n: serde_json::Number| number_view(n))
}

/// What numbers become, in order: nothing where the result is no number.
pub open spec fn out_views(v: Seq<Option<serde_json::Number>>) -> Seq<Option<NumV>> {
    v.map_values(
        |o: Option<serde_json::Number>|
            match o {
                Some(n) => Some(number_view(n)),
                None => None,
            },
    )
}

/// Why a path does not lead to a number, as far as it leads to one place: up to its
/// first wildcard or recursive step.
pub open spec fn lead_error(v: JsonV, steps: Seq<StepV>, pos: int) -> Option<ErrV>
    decreases steps.len() - pos,
{
    if pos < 0 || pos >= steps.len() {
        if v is Num {
            None
        } else {
            Some(runtime("ERR value is not a number"@))
        }
    } else {
        match steps[pos] {
            StepV::Key(k) => match v {
                JsonV::Obj(m) => match member_at(m, k) {
                    Some(i) => lead_error(m[i].1, steps, pos + 1),
                    None => Some(runtime("ERR path does not exist"@)),
                },
                _ => Some(runtime("ERR not an object at path"@)),
            },
            StepV::Index(idx) => match v {
                JsonV::Arr(a) => match index_in(idx, a.len()) {
                    Some(i) => lead_error(a[i], steps, pos + 1),
                    None => Some(runtime("ERR index out of range"@)),
                },
                _ => Some(runtime("ERR not an array at path"@)),
            },
            _ => None,
        }
    }
}

/// Whether a path leads to one place at most.
pub open spec fn single(steps: Seq<StepV>) -> bool {
    forall|i: int| 0 <= i < steps.len() ==> (#[trigger] steps[i] is Key || steps[i] is Index)
}

/// Those of some places where numbers stand.
pub open spec fn numbers_among(v: JsonV, ps: Seq<Seq<int>>) -> Seq<Seq<int>>
    decreases ps.len(),
{
    if ps.len() == 0 {
        Seq::empty()
    } else {
        let before = numbers_among(v, ps.drop_last());
        if value_at(v, ps.last()) is Num {
            before.push(ps.last())
        } else {
            before
        }
    }
}

/// The places of the numbers that a path selects, each once.
pub open spec fn number_places(v: JsonV, steps: Seq<StepV>) -> Seq<Seq<int>> {
    numbers_among(v, spots(v, steps))
}

/// The numbers that a path selects, each place once.
pub open spec fn numbers_met(v: JsonV, steps: Seq<StepV>) -> Seq<NumV> {
    number_places(v, steps).map_values(|p: Seq<int>| value_at(v, p)->Num_0)
}

/// Whether a number becomes another one.
pub open spec fn becomes(outs: Seq<Option<NumV>>, k: int) -> bool {
    0 <= k < outs.len() && outs[k] is Some
}

/// A value with another element or member at a position.
pub open spec fn with_kid(v: JsonV, i: int, x: JsonV) -> JsonV {
    with_kids(v, kid_list(v).update(i, (kid_key(v, i), x)))
}

/// A value with another one at a place.
pub open spec fn put_at(v: JsonV, p: Seq<int>, x: JsonV) -> JsonV
    decreases p.len(),
{
    if p.len() == 0 {
        x
    } else {
        with_kid(v, p[0], put_at(kid(v, p[0]), p.skip(1), x))
    }
}

/// A value with what the first `n` of some numbers become in their places.
pub open spec fn renumbered(v: JsonV, ps: Seq<Seq<int>>, outs: Seq<Option<NumV>>, n: int) -> JsonV
    decreases n,
{
    if n <= 0 {
        v
    } else {
        let w = renumbered(v, ps, outs, n - 1);
        if becomes(outs, n - 1) {
            put_at(w, ps[n - 1], JsonV::Num(outs[n - 1]->0))
        } else {
            w
        }
    }
}

/// What the first `n` numbers become, those left out that become none.
pub open spec fn new_numbers(outs: Seq<Option<NumV>>, n: int) -> Seq<JsonV>
    decreases n,
{
    if n <= 0 {
        Seq::empty()
    } else if becomes(outs, n - 1) {
        new_numbers(outs, n - 1).push(JsonV::Num(outs[n - 1]->0))
    } else {
        new_numbers(outs, n - 1)
    }
}

/// A value with the numbers changed that a path selects, and what they became. A
/// path that leads to one place fails where there is no number or the result is
/// none; others pass such places over.
pub open spec fn nums(v: JsonV, steps: Seq<StepV>, outs: Seq<Option<NumV>>) -> (
    JsonV,
    Result<Seq<JsonV>, ErrV>,
) {
    let ps = number_places(v, steps);
    match lead_error(v, steps, 0) {
        Some(e) => (v, Err(e)),
        None => if single(steps) && !becomes(outs, 0) {
            (v, Err(runtime("ERR result is NaN or infinite"@)))
        } else {
            (
                renumbered(v, ps, outs, ps.len() as int),
                Ok(new_numbers(outs, ps.len() as int)),
            )
        },
    }
}

/// The numbers among some places are numbers, and no others are left out.
proof fn lemma_numbers_among(v: JsonV, ps: Seq<Seq<int>>, least: int)
    requires
        all_in(v, ps, least),
        all_different(ps),
    ensures
        all_in(v, numbers_among(v, ps), least),
        all_different(numbers_among(v, ps)),
        forall|p: Seq<int>| #[trigger]
            numbers_among(v, ps).contains(p) <==> (ps.contains(p) && value_at(v, p) is Num),
    decreases ps.len(),
{
    if ps.len() > 0 {
        let b = ps.drop_last();
        let before = numbers_among(v, b);
        let ns = numbers_among(v, ps);
        assert forall|i: int, j: int| 0 <= i < j < b.len() implies #[trigger] b[i]
            != #[trigger] b[j] by {
            assert(ps[i] != ps[j]);
        }
        assert forall|j: int| 0 <= j < b.len() implies place_in(v, #[trigger] b[j]) && b[j].len()
            >= least by {
            assert(place_in(v, ps[j]));
        }
        lemma_numbers_among(v, b, least);
        assert(place_in(v, ps[ps.len() - 1]));
        assert forall|i: int, j: int| 0 <= i < j < ns.len() implies #[trigger] ns[i]
            != #[trigger] ns[j] by {
            if j == before.len() {
                assert(before.contains(before[i]));
                let k = b.index_of(before[i]);
                assert(ps[k] != ps[ps.len() - 1]);
            }
        }
        assert forall|p: Seq<int>| #[trigger] ns.contains(p) <==> (ps.contains(p) && value_at(v, p)
            is Num) by {
            if ns.contains(p) {
                let k = ns.index_of(p);
                if k < before.len() {
                    assert(before[k] == p);
                    assert(before.contains(p));
                    assert(ps[b.index_of(p)] == p);
                } else {
                    assert(ps[ps.len() - 1] == p);
                }
            }
            if ps.contains(p) && value_at(v, p) is Num {
                let k = ps.index_of(p);
                if k < b.len() {
                    assert(b[k] == p);
                    assert(before.contains(p));
                    assert(ns[before.index_of(p)] == p);
                } else {
                    assert(ns[before.len() as int] == p);
                }
            }
        }
    }
}

/// A value with another element or member at a position.
proof fn lemma_with_kid(v: JsonV, i: int, x: JsonV)
    requires
        0 <= i < width(v),
    ensures
        width(with_kid(v, i, x)) == width(v),
        same_kind(v, with_kid(v, i, x)),
        kid(with_kid(v, i, x), i) == x,
        forall|j: int|
            0 <= j < width(v) && j != i ==> #[trigger] kid(with_kid(v, i, x), j) == kid(v, j),
{
    lemma_with_kids(v, kid_list(v).update(i, (kid_key(v, i), x)));
}

/// Replacing a number by a number leaves all places where they are, and the values
/// at all others as they are, but for those around it.
proof fn lemma_put_number(v: JsonV, p: Seq<int>, x: NumV, q: Seq<int>)
    requires
        place_in(v, p),
        value_at(v, p) is Num,
    ensures
        place_in(put_at(v, p, JsonV::Num(x)), q) == place_in(v, q),
        value_at(put_at(v, p, JsonV::Num(x)), p) == JsonV::Num(x),
        place_in(v, q) && !leads(q, p) ==> value_at(put_at(v, p, JsonV::Num(x)), q) == value_at(
            v,
            q,
        ),
    decreases p.len(),
{
    if p.len() > 0 {
        let i = p[0];
        lemma_put_number(kid(v, i), p.skip(1), x, q.skip(1));
        lemma_with_kid(v, i, put_at(kid(v, i), p.skip(1), JsonV::Num(x)));
        if q.len() > 0 && q[0] == i && leads(q.skip(1), p.skip(1)) {
            assert(p.skip(1).take(q.len() - 1) =~= q.skip(1));
            assert(p.take(q.len() as int) =~= q) by {
                assert forall|k: int| 0 <= k < q.len() implies p.take(q.len() as int)[k] == q[k] by {
                    if k > 0 {
                        assert(p.skip(1).take(q.len() - 1)[k - 1] == q.skip(1)[k - 1]);
                    }
                }
            }
        }
        if q.len() == 0 {
            assert(p.take(0) =~= q);
        }
    } else {
        assert(p.take(0) =~= p);
        if q.len() == 0 {
            assert(q =~= p);
        }
    }
}

/// A number stands inside no other one.
proof fn lemma_numbers_apart(v: JsonV, p: Seq<int>, q: Seq<int>)
    requires
        place_in(v, p),
        place_in(v, q),
        value_at(v, p) is Num,
        leads(p, q),
    ensures
        p == q,
    decreases p.len(),
{
    if p.len() == 0 {
        assert(p =~= q);
    } else {
        assert(q.take(p.len() as int)[0] == p[0]);
        assert(q.skip(1).take(p.len() - 1) =~= q.take(p.len() as int).skip(1));
        lemma_numbers_apart(kid(v, p[0]), p.skip(1), q.skip(1));
        assert(p =~= seq![p[0]] + p.skip(1));
        assert(q =~= seq![q[0]] + q.skip(1));
    }
}

/// What stands where after the first `n` numbers were replaced.
proof fn lemma_renumbered(
    v: JsonV,
    ps: Seq<Seq<int>>,
    outs: Seq<Option<NumV>>,
    n: int,
    q: Seq<int>,
)
    requires
        0 <= n <= ps.len(),
        all_in(v, ps, 0),
        all_different(ps),
        forall|j: int| 0 <= j < ps.len() ==> value_at(v, #[trigger] ps[j]) is Num,
    ensures
        place_in(renumbered(v, ps, outs, n), q) == place_in(v, q),
        place_in(v, q) && (forall|j: int| 0 <= j < ps.len() ==> !leads(q, #[trigger] ps[j]))
            ==> value_at(renumbered(v, ps, outs, n), q) == value_at(v, q),
        forall|j: int|
            0 <= j < ps.len() ==> value_at(renumbered(v, ps, outs, n), #[trigger] ps[j]) == (
            if j < n && becomes(outs, j) {
                JsonV::Num(outs[j]->0)
            } else {
                value_at(v, ps[j])
            }),
    decreases n,
{
    if n > 0 {
        let w = renumbered(v, ps, outs, n - 1);
        let p = ps[n - 1];
        lemma_renumbered(v, ps, outs, n - 1, q);
        lemma_renumbered(v, ps, outs, n - 1, p);
        assert(value_at(w, p) == value_at(v, p));
        assert(place_in(v, p));
        if becomes(outs, n - 1) {
            let x = outs[n - 1]->0;
            lemma_put_number(w, p, x, q);
            assert forall|j: int| 0 <= j < ps.len() implies value_at(
                renumbered(v, ps, outs, n),
                #[trigger] ps[j],
            ) == (if j < n && becomes(outs, j) {
                JsonV::Num(outs[j]->0)
            } else {
                value_at(v, ps[j])
            }) by {
                lemma_put_number(w, p, x, ps[j]);
                lemma_renumbered(v, ps, outs, n - 1, ps[j]);
                if j != n - 1 {
                    if leads(ps[j], p) {
                        lemma_numbers_apart(v, ps[j], p);
                    }
                }
            }
        }
    }
}

/// A value with another valid one at a place is valid.
proof fn lemma_put_ok(v: JsonV, p: Seq<int>, x: JsonV)
    requires
        json_ok(v),
        json_ok(x),
        place_in(v, p),
    ensures
        json_ok(put_at(v, p, x)),
    decreases p.len(),
{
    if p.len() > 0 {
        let i = p[0];
        let y = put_at(kid(v, i), p.skip(1), x);
        lemma_kid_ok(v, i);
        lemma_put_ok(kid(v, i), p.skip(1), x);
        let ks = kid_list(v).update(i, (kid_key(v, i), y));
        assert forall|j: int| 0 <= j < ks.len() implies json_ok((#[trigger] ks[j]).1) by {
            if j != i {
                lemma_kid_ok(v, j);
            }
        }
        match v {
            JsonV::Arr(a) => {
                let b = put_at(v, p, x)->Arr_0;
                assert forall|j: int| 0 <= j < b.len() implies json_ok(#[trigger] b[j]) by {
                    assert(b[j] == ks[j].1);
                }
                lemma_arr_ok(b);
            },
            JsonV::Obj(m) => {
                lemma_ok_member(m, i);
                assert(member_keys(ks) =~= member_keys(m));
                assert forall|j: int| 0 <= j < ks.len() implies vstd::utf8::valid_utf8(
                    (#[trigger] ks[j]).0,
                ) by {
                    lemma_ok_member(m, j);
                }
                lemma_obj_ok(ks);
            },
            _ => {},
        }
    }
}

/// The value at a place, from level `k` of it on.
fn look_up<'a>(v: &'a Json, p: &Vec<usize>, k: usize) -> (r: &'a Json)
    requires
        k <= p@.len(),
        place_in(v@, place_of(p@).skip(k as int)),
    ensures
        r@ == value_at(v@, place_of(p@).skip(k as int)),
    decreases p@.len() - k,
{
    let ghost q = place_of(p@).skip(k as int);
    if k == p.len() {
        return v;
    }
    assert(q.skip(1) =~= place_of(p@).skip(k + 1));
    look_up(kid_of(v, p[k]), p, k + 1)
}

/// The places of the numbers that a path selects, each once.
fn find_numbers(v: &Json, steps: &[PathToken]) -> (r: Vec<Vec<usize>>)
    ensures
        place_views(r@) == number_places(v@, step_views(steps@)),
{
    let all: Vec<Vec<usize>> = find_spots(v, steps);
    let ghost ps = place_views(all@);
    let mut r: Vec<Vec<usize>> = Vec::new();
    let mut i: usize = 0;
    proof {
        lemma_spots(v@, step_views(steps@));
        assert(place_views(r@) =~= Seq::empty());
        assert(ps.take(0) =~= Seq::empty());
    }
    while i < all.len()
        invariant
            i <= all@.len(),
            ps == place_views(all@),
            all_in(v@, ps, 0),
            place_views(r@) == numbers_among(v@, ps.take(i as int)),
        decreases all@.len() - i,
    {
        let ghost had = r@;
        let ghost pv = place_of(all@[i as int]@);
        proof {
            assert(ps[i as int] == pv);
            assert(place_in(v@, ps[i as int]));
            assert(ps.take(i + 1).drop_last() =~= ps.take(i as int));
            assert(pv.skip(0) =~= pv);
        }
        let is_num: bool = match look_up(v, &all[i], 0) {
            Json::Num(_) => true,
            Json::Arr(a) => {
                proof {
                    lemma_arr_view(*a);
                }
                false
            },
            Json::Obj(m) => {
                proof {
                    lemma_obj_view(*m);
                }
                false
            },
            _ => false,
        };
        if is_num {
            r.push(dup_place(&all[i]));
            assert(place_views(r@) =~= place_views(had).push(pv));
        }
        i += 1;
    }
    assert(ps.take(i as int) =~= ps);
    r
}

/// The numbers that a path selects, each place once.
pub fn show_numbers(v: &Json, steps: &[PathToken]) -> (r: Vec<serde_json::Number>)
    ensures
        number_views(r@) == numbers_met(v@, step_views(steps@)),
{
    let ps: Vec<Vec<usize>> = find_numbers(v, steps);
    let ghost pv = place_views(ps@);
    let mut r: Vec<serde_json::Number> = Vec::new();
    let mut i: usize = 0;
    proof {
        lemma_number_places(v@, step_views(steps@));
    }
    while i < ps.len()
        invariant
            i <= ps@.len(),
            pv == place_views(ps@),
            all_in(v@, pv, 0),
            forall|j: int| 0 <= j < pv.len() ==> value_at(v@, #[trigger] pv[j]) is Num,
            r@.len() == i,
            forall|j: int|
                0 <= j < i ==> number_view(#[trigger] r@[j]) == value_at(v@, pv[j])->Num_0,
        decreases ps@.len() - i,
    {
        proof {
            assert(pv[i as int] == place_of(ps@[i as int]@));
            assert(place_in(v@, pv[i as int]));
            assert(pv[i as int].skip(0) =~= pv[i as int]);
        }
        match look_up(v, &ps[i], 0) {
            Json::Num(n) => {
                r.push(dup_number(n));
            },
            Json::Arr(a) => {
                proof {
                    lemma_arr_view(*a);
                }
                return r;
            },
            Json::Obj(m) => {
                proof {
                    lemma_obj_view(*m);
                }
                return r;
            },
            _ => return r,
        }
        i += 1;
    }
    assert(number_views(r@) =~= numbers_met(v@, step_views(steps@)));
    r
}

/// Puts a number at a place, from level `k` of it on.
fn put_number(v: &mut Json, p: &Vec<usize>, k: usize, x: serde_json::Number)
    requires
        k <= p@.len(),
        place_in(old(v)@, place_of(p@).skip(k as int)),
    ensures
        final(v)@ == put_at(
            old(v)@,
            place_of(p@).skip(k as int),
            JsonV::Num(number_view(x)),
        ),
    decreases p@.len() - k,
{
    let ghost q = place_of(p@).skip(k as int);
    let ghost was = v@;
    if k == p.len() {
        *v = Json::Num(x);
        return;
    }
    let i: usize = p[k];
    let ghost y = put_at(kid(was, i as int), q.skip(1), JsonV::Num(number_view(x)));
    assert(q.skip(1) =~= place_of(p@).skip(k + 1));
    match v {
        Json::Arr(a) => {
            let ghost av = json_views(a@);
            proof {
                lemma_arr_view(*a);
            }
            put_number(&mut a[i], p, k + 1, x);
            proof {
                lemma_arr_view(*a);
                assert(json_views(a@) =~= av.update(i as int, y));
            }
        },
        Json::Obj(m) => {
            let ghost mv = member_views(m@);
            proof {
                lemma_obj_view(*m);
            }
            put_number(&mut m[i].1, p, k + 1, x);
            proof {
                lemma_obj_view(*m);
                assert(member_views(m@) =~= mv.update(i as int, (mv[i as int].0, y)));
            }
        },
        _ => {},
    }
    proof {
        assert(kid_list(v@) =~= kid_list(was).update(i as int, (kid_key(was, i as int), y)));
        lemma_same_kind(was, v@);
    }
}

/// Why a path does not lead to a number, as far as it leads to one place.
fn find_lead_error(v: &Json, steps: &[PathToken], pos: usize) -> (r: Option<RedisError>)
    requires
        pos <= steps@.len(),
    ensures
        match r {
            Some(e) => lead_error(v@, step_views(steps@), pos as int) == Some(e@),
            None => lead_error(v@, step_views(steps@), pos as int) is None,
        },
    decreases steps@.len() - pos,
{
    let ghost sv = step_views(steps@);
    proof {
        match v {
            Json::Arr(a) => lemma_arr_view(*a),
            Json::Obj(m) => lemma_obj_view(*m),
            _ => {},
        }
    }
    if pos == steps.len() {
        return match v {
            Json::Num(_) => None,
            _ => Some(RedisError::runtime("ERR value is not a number")),
        };
    }
    assert(sv[pos as int] == steps@[pos as int]@);
    match &steps[pos] {
        PathToken::Key(k) => match v {
            Json::Obj(m) => {
                let (found, i) = find_member(m, k);
                if found {
                    find_lead_error(&m[i].1, steps, pos + 1)
                } else {
                    Some(RedisError::runtime("ERR path does not exist"))
                }
            },
            _ => Some(RedisError::runtime("ERR not an object at path")),
        },
        PathToken::Index(idx) => match v {
            Json::Arr(a) => match resolve_index(*idx, a.len()) {
                Some(i) => find_lead_error(&a[i], steps, pos + 1),
                None => Some(RedisError::runtime("ERR index out of range")),
            },
            _ => Some(RedisError::runtime("ERR not an array at path")),
        },
        _ => None,
    }
}

/// Whether a path leads to one place at most.
fn is_single(steps: &[PathToken]) -> (r: bool)
    ensures
        r == single(step_views(steps@)),
{
    let ghost sv = step_views(steps@);
    let mut i: usize = 0;
    while i < steps.len()
        invariant
            i <= steps@.len(),
            sv == step_views(steps@),
            forall|j: int| 0 <= j < i ==> (#[trigger] sv[j] is Key || sv[j] is Index),
        decreases steps@.len() - i,
    {
        assert(sv[i as int] == steps@[i as int]@);
        match &steps[i] {
            PathToken::Key(_) => {},
            PathToken::Index(_) => {},
            _ => return false,
        }
        i += 1;
    }
    true
}

/// Changes the numbers that a path selects. Gives what they became.
pub fn num_op(v: &mut Json, steps: &[PathToken], outs: &[Option<serde_json::Number>]) -> (r: Result<
    Vec<Json>,
    RedisError,
>)
    requires
        json_ok(old(v)@),
    ensures
        json_ok(final(v)@),
        ({
            let o = nums(old(v)@, step_views(steps@), out_views(outs@));
            &&& final(v)@ == o.0
            &&& match r {
                Ok(vs) => o.1 == Ok::<Seq<JsonV>, ErrV>(json_views(vs@)) && all_ok(json_views(vs@)),
                Err(e) => o.1 == Err::<Seq<JsonV>, ErrV>(e@),
            }
        }),
{
    let ghost root = v@;
    let ghost sv = step_views(steps@);
    let ghost ov = out_views(outs@);
    match find_lead_error(v, steps, 0) {
        Some(e) => return Err(e),
        None => {},
    }
    if is_single(steps) && (outs.len() == 0 || outs[0].is_none()) {
        return Err(RedisError::runtime("ERR result is NaN or infinite"));
    }
    let ps: Vec<Vec<usize>> = find_numbers(v, steps);
    let ghost pv = place_views(ps@);
    let mut r: Vec<Json> = Vec::new();
    let mut i: usize = 0;
    proof {
        lemma_number_places(root, sv);
        assert(json_views(r@) =~= Seq::empty());
    }
    while i < ps.len()
        invariant
            i <= ps@.len(),
            pv == place_views(ps@),
            ov == out_views(outs@),
            all_in(root, pv, 0),
            all_different(pv),
            forall|j: int| 0 <= j < pv.len() ==> value_at(root, #[trigger] pv[j]) is Num,
            json_ok(v@),
            v@ == renumbered(root, pv, ov, i as int),
            json_views(r@) == new_numbers(ov, i as int),
            all_ok(json_views(r@)),
        decreases ps@.len() - i,
    {
        if i < outs.len() {
            match &outs[i] {
                Some(x) => {
                    let a: serde_json::Number = dup_number(x);
                    let b: serde_json::Number = dup_number(x);
                    proof {
                        assert(pv[i as int] == place_of(ps@[i as int]@));
                        assert(place_in(root, pv[i as int]));
                        assert(pv[i as int].skip(0) =~= pv[i as int]);
                        lemma_renumbered(root, pv, ov, i as int, pv[i as int]);
                        lemma_put_ok(v@, pv[i as int], JsonV::Num(number_view(a)));
                    }
                    put_number(v, &ps[i], 0, a);
                    let j = Json::Num(b);
                    proof {
                        lemma_json_views_push(r@, j);
                        assert(ov[i as int] == Some(number_view(*x)));
                    }
                    r.push(j);
                    assert(becomes(ov, i as int));
                },
                None => {
                    assert(!becomes(ov, i as int));
                },
            }
        }
        i += 1;
    }
    Ok(r)
}

/// What changing numbers rests on.
proof fn lemma_number_places(v: JsonV, steps: Seq<StepV>)
    ensures
        all_different(number_places(v, steps)),
        all_in(v, number_places(v, steps), 0),
        forall|p: Seq<int>| #[trigger]
            number_places(v, steps).contains(p) <==> (places(v, steps, 0).contains(p) && value_at(
                v,
                p,
            ) is Num),
        forall|j: int|
            0 <= j < number_places(v, steps).len() ==> value_at(
                v,
                #[trigger] number_places(v, steps)[j],
            ) is Num,
{
    let ps = number_places(v, steps);
    lemma_spots(v, steps);
    lemma_numbers_among(v, spots(v, steps), 0);
    assert forall|p: Seq<int>| #[trigger] ps.contains(p) <==> (places(v, steps, 0).contains(p)
        && value_at(v, p) is Num) by {
        assert(spots(v, steps).contains(p) == places(v, steps, 0).contains(p));
    }
    assert forall|j: int| 0 <= j < ps.len() implies value_at(v, #[trigger] ps[j]) is Num by {
        assert(ps.contains(ps[j]));
    }
}

/// Every number that a path selects, and nothing else, is shown, each place once,
/// and replaced by what it becomes; where it becomes none it stays.
pub proof fn law_numbers_are_replaced(
    v: JsonV,
    steps: Seq<StepV>,
    outs: Seq<Option<NumV>>,
    k: int,
)
    requires
        nums(v, steps, outs).1 is Ok,
        0 <= k < number_places(v, steps).len(),
    ensures
        ({
            let ps = number_places(v, steps);
            let c = nums(v, steps, outs).0;
            &&& all_different(ps)
            &&& forall|p: Seq<int>| #[trigger]
                ps.contains(p) <==> (places(v, steps, 0).contains(p) && value_at(v, p) is Num)
            &&& value_at(v, ps[k]) == JsonV::Num(numbers_met(v, steps)[k])
            &&& place_in(c, ps[k])
            &&& value_at(c, ps[k]) == (if becomes(outs, k) {
                JsonV::Num(outs[k]->0)
            } else {
                value_at(v, ps[k])
            })
        }),
{
    let ps = number_places(v, steps);
    lemma_number_places(v, steps);
    assert(place_in(v, ps[k]));
    lemma_renumbered(v, ps, outs, ps.len() as int, ps[k]);
}

/// Changing numbers leaves every value as it is in which none of them stands.
pub proof fn law_other_values_stay(
    v: JsonV,
    steps: Seq<StepV>,
    outs: Seq<Option<NumV>>,
    q: Seq<int>,
)
    requires
        place_in(v, q),
        forall|j: int|
            0 <= j < number_places(v, steps).len() ==> !leads(
                q,
                #[trigger] number_places(v, steps)[j],
            ),
    ensures
        place_in(nums(v, steps, outs).0, q),
        value_at(nums(v, steps, outs).0, q) == value_at(v, q),
{
    let ps = number_places(v, steps);
    lemma_number_places(v, steps);
    lemma_renumbered(v, ps, outs, ps.len() as int, q);
}

} // verus!
