//! Changes to JSON values at a path: setting, appending, inserting, popping and
//! clearing.

use vstd::prelude::*;
use vstd::utf8::{valid_utf8, valid_utf8_concat};

use crate::bytes::{dup, lemma_lex_total, lemma_lex_trans, lex_lt, put};
use crate::dict::ascending;
use crate::error::{runtime, ErrV, RedisError};
use crate::json_data::{
    json_ok, json_views, lemma_arr_ok, lemma_arr_view, lemma_obj_ok, lemma_obj_view, lemma_ok_item,
    lemma_ok_member, member_keys, member_views, number_from_i64, Json, JsonV, NumV,
};
use crate::json_path::{
    all_ok, find_member, index_in, lemma_json_views_push, member_at, member_slot, resolve_index,
    selected, step_views, steps_ok, PathToken, StepV,
};
use crate::json_places::{
    all_different, find_spots, kid, kid_key, kid_list, law_places_are_different,
    law_selected_by_place, leads, lemma_firsts, lemma_kid_less, lemma_kid_ok, lemma_leads_kid,
    lemma_place_push, lemma_raw_kid, lemma_same_kind, lemma_spots, lemma_value_ok, lemma_with_kids, one_recursion, place_in, place_of,
    place_views, places, rank_of, raw_kid, reaches, same_kind, spots, value_at, width, width_of,
    with_kids,
};

verus! {

// ---------------------------------------------------------------------------
// Elements and members
// ---------------------------------------------------------------------------

/// Members with the value of one changed or added.
pub open spec fn member_put(m: Seq<(Seq<u8>, JsonV)>, key: Seq<u8>, value: JsonV) -> Seq<
    (Seq<u8>, JsonV),
> {
    match member_at(m, key) {
        Some(i) => m.update(i, (key, value)),
        None => m.insert(member_slot(m, key, 0), (key, value)),
    }
}

proof fn lemma_slot(m: Seq<(Seq<u8>, JsonV)>, key: Seq<u8>, i: int)
    requires
        0 <= i <= m.len(),
    ensures
        ({
            let k = member_slot(m, key, i);
            &&& i <= k <= m.len()
            &&& forall|j: int| i <= j < k ==> lex_lt((#[trigger] m[j]).0, key)
            &&& k < m.len() ==> !lex_lt(m[k].0, key)
        }),
    decreases m.len() - i,
{
    if i < m.len() && lex_lt(m[i].0, key) {
        lemma_slot(m, key, i + 1);
    }
}

/// A changed element leaves an array valid.
pub proof fn lemma_item_changed(a: Seq<JsonV>, i: int, x: JsonV)
    requires
        json_ok(JsonV::Arr(a)),
        0 <= i < a.len(),
        json_ok(x),
    ensures
        json_ok(JsonV::Arr(a.update(i, x))),
{
    let b = a.update(i, x);
    assert forall|j: int| 0 <= j < b.len() implies json_ok(#[trigger] b[j]) by {
        if j != i {
            lemma_ok_item(a, j);
        }
    }
    lemma_arr_ok(b);
}

/// A changed member leaves an object valid.
pub proof fn lemma_member_changed(m: Seq<(Seq<u8>, JsonV)>, i: int, x: JsonV)
    requires
        json_ok(JsonV::Obj(m)),
        0 <= i < m.len(),
        json_ok(x),
    ensures
        json_ok(JsonV::Obj(m.update(i, (m[i].0, x)))),
{
    let b = m.update(i, (m[i].0, x));
    lemma_ok_member(m, i);
    assert(member_keys(b) =~= member_keys(m));
    assert forall|j: int| 0 <= j < b.len() implies json_ok((#[trigger] b[j]).1) && valid_utf8(
        b[j].0,
    ) by {
        lemma_ok_member(m, j);
    }
    lemma_obj_ok(b);
}

/// A member that is put leaves an object valid.
pub proof fn lemma_member_put(m: Seq<(Seq<u8>, JsonV)>, key: Seq<u8>, x: JsonV)
    requires
        json_ok(JsonV::Obj(m)),
        valid_utf8(key),
        json_ok(x),
    ensures
        json_ok(JsonV::Obj(member_put(m, key, x))),
{
    match member_at(m, key) {
        Some(i) => {
            lemma_member_changed(m, i, x);
        },
        None => {
            let k = member_slot(m, key, 0);
            lemma_slot(m, key, 0);
            let b = m.insert(k, (key, x));
            let keys = member_keys(m);
            if m.len() > 0 {
                lemma_ok_member(m, 0);
            }
            assert(ascending(keys));
            assert forall|j: int| k <= j < m.len() implies lex_lt(key, (#[trigger] m[j]).0) by {
                lemma_lex_total(m[k].0, key);
                assert(m[k].0 != key);
                assert(lex_lt(key, m[k].0));
                if j > k {
                    assert(lex_lt(keys[k], keys[j]));
                    lemma_lex_trans(key, m[k].0, m[j].0);
                }
            }
            let bk = member_keys(b);
            assert(bk =~= keys.insert(k, key));
            assert forall|p: int, q: int| 0 <= p < q < bk.len() implies lex_lt(
                #[trigger] bk[p],
                #[trigger] bk[q],
            ) by {
                let pp = if p < k {
                    p
                } else {
                    p - 1
                };
                let qq = if q < k {
                    q
                } else {
                    q - 1
                };
                if p == k {
                    assert(bk[q] == m[qq].0);
                } else if q == k {
                    assert(bk[p] == m[pp].0);
                } else {
                    assert(lex_lt(keys[pp], keys[qq]));
                }
            }
            assert forall|j: int| 0 <= j < b.len() implies json_ok((#[trigger] b[j]).1)
                && valid_utf8(b[j].0) by {
                if j < k {
                    lemma_ok_member(m, j);
                } else if j > k {
                    lemma_ok_member(m, j - 1);
                }
            }
            lemma_obj_ok(b);
        },
    }
}

/// An array that an element was removed from is valid.
pub proof fn lemma_item_removed(a: Seq<JsonV>, i: int)
    requires
        json_ok(JsonV::Arr(a)),
        0 <= i < a.len(),
    ensures
        json_ok(JsonV::Arr(a.remove(i))),
{
    let b = a.remove(i);
    assert forall|j: int| 0 <= j < b.len() implies json_ok(#[trigger] b[j]) by {
        if j < i {
            lemma_ok_item(a, j);
        } else {
            lemma_ok_item(a, j + 1);
        }
    }
    lemma_arr_ok(b);
}

/// Changes or adds a member.
pub fn put_member(m: &mut Vec<(Vec<u8>, Json)>, key: Vec<u8>, value: Json)
    ensures
        member_views(final(m)@) == member_put(member_views(old(m)@), key@, value@),
{
    let ghost before = m@;
    let ghost kv = key@;
    let ghost vv = value@;
    let (found, i) = find_member(m, &key);
    if found {
        m.set(i, (key, value));
        assert(member_views(m@) =~= member_views(before).update(i as int, (kv, vv)));
    } else {
        m.insert(i, (key, value));
        assert(member_views(m@) =~= member_views(before).insert(i as int, (kv, vv)));
    }
}

// ---------------------------------------------------------------------------
// Setting
// ---------------------------------------------------------------------------

/// What setting a value at a path comes to: the changed value, and whether it
/// was set or the flags forbade it.
pub open spec fn set_at(
    v: JsonV,
    steps: Seq<StepV>,
    pos: int,
    value: JsonV,
    nx: bool,
    xx: bool,
) -> (JsonV, Result<bool, ErrV>)
    decreases steps.len() - pos,
{
    if pos < 0 || pos >= steps.len() {
        (v, Err(runtime("ERR path resolution error"@)))
    } else {
        match steps[pos] {
            StepV::Key(k) => match v {
                JsonV::Obj(m) => if pos == steps.len() - 1 {
                    let there = member_at(m, k) is Some;
                    if (nx && there) || (xx && !there) {
                        (v, Ok(false))
                    } else {
                        (JsonV::Obj(member_put(m, k, value)), Ok(true))
                    }
                } else {
                    match member_at(m, k) {
                        Some(i) => {
                            let (c, r) = set_at(m[i].1, steps, pos + 1, value, nx, xx);
                            (JsonV::Obj(m.update(i, (m[i].0, c))), r)
                        },
                        None => (v, Err(runtime("ERR path does not exist"@))),
                    }
                },
                _ => (v, Err(runtime("ERR path traversal into non-object"@))),
            },
            StepV::Index(idx) => match v {
                JsonV::Arr(a) => match index_in(idx, a.len()) {
                    None => (v, Err(runtime("ERR array index out of bounds"@))),
                    Some(i) => if pos == steps.len() - 1 {
                        (JsonV::Arr(a.update(i, value)), Ok(true))
                    } else {
                        let (c, r) = set_at(a[i], steps, pos + 1, value, nx, xx);
                        (JsonV::Arr(a.update(i, c)), r)
                    },
                },
                _ => (v, Err(runtime("ERR path traversal into non-array"@))),
            },
            _ => (v, Err(runtime("ERR wildcard/recursive not supported in SET path"@))),
        }
    }
}

/// What setting came to.
pub open spec fn set_result(r: Result<bool, RedisError>) -> Result<bool, ErrV> {
    match r {
        Ok(b) => Ok(b),
        Err(e) => Err(e@),
    }
}

/// Sets a value at a path.
pub fn set_path_value(
    v: &mut Json,
    steps: &[PathToken],
    pos: usize,
    value: Json,
    nx: bool,
    xx: bool,
) -> (r: Result<bool, RedisError>)
    requires
        json_ok(old(v)@),
        json_ok(value@),
        steps_ok(step_views(steps@)),
        pos <= steps@.len(),
    ensures
        json_ok(final(v)@),
        (final(v)@, set_result(r)) == set_at(
            old(v)@,
            step_views(steps@),
            pos as int,
            value@,
            nx,
            xx,
        ),
    decreases steps@.len() - pos,
{
    let ghost sv = step_views(steps@);
    if pos == steps.len() {
        return Err(RedisError::runtime("ERR path resolution error"));
    }
    let last: bool = pos == steps.len() - 1;
    assert(sv[pos as int] == steps@[pos as int]@);
    match &steps[pos] {
        PathToken::Key(k) => {
            match v {
                Json::Obj(m) => {
                    let ghost mv = member_views(m@);
                    proof {
                        lemma_obj_view(*m);
                    }
                    let (found, i) = find_member(m, k);
                    if last {
                        if (nx && found) || (xx && !found) {
                            return Ok(false);
                        }
                        proof {
                            lemma_member_put(mv, k@, value@);
                        }
                        put_member(m, dup(k), value);
                        proof {
                            lemma_obj_view(*m);
                        }
                        Ok(true)
                    } else if found {
                        proof {
                            lemma_ok_member(mv, i as int);
                        }
                        let r: Result<bool, RedisError> = set_path_value(
                            &mut m[i].1,
                            steps,
                            pos + 1,
                            value,
                            nx,
                            xx,
                        );
                        proof {
                            lemma_obj_view(*m);
                            let c = m@[i as int].1@;
                            assert(member_views(m@) =~= mv.update(i as int, (mv[i as int].0, c)));
                            lemma_member_changed(mv, i as int, c);
                        }
                        r
                    } else {
                        Err(RedisError::runtime("ERR path does not exist"))
                    }
                },
                _ => Err(RedisError::runtime("ERR path traversal into non-object")),
            }
        },
        PathToken::Index(idx) => {
            match v {
                Json::Arr(a) => {
                    let ghost av = json_views(a@);
                    proof {
                        lemma_arr_view(*a);
                    }
                    match resolve_index(*idx, a.len()) {
                        None => Err(RedisError::runtime("ERR array index out of bounds")),
                        Some(i) => {
                            if last {
                                proof {
                                    lemma_item_changed(av, i as int, value@);
                                }
                                a.set(i, value);
                                proof {
                                    lemma_arr_view(*a);
                                    assert(json_views(a@) =~= av.update(i as int, value@));
                                }
                                Ok(true)
                            } else {
                                proof {
                                    lemma_ok_item(av, i as int);
                                }
                                let r: Result<bool, RedisError> = set_path_value(
                                    &mut a[i],
                                    steps,
                                    pos + 1,
                                    value,
                                    nx,
                                    xx,
                                );
                                proof {
                                    lemma_arr_view(*a);
                                    let c = a@[i as int]@;
                                    assert(json_views(a@) =~= av.update(i as int, c));
                                    lemma_item_changed(av, i as int, c);
                                }
                                r
                            }
                        },
                    }
                },
                _ => Err(RedisError::runtime("ERR path traversal into non-array")),
            }
        },
        _ => Err(RedisError::runtime("ERR wildcard/recursive not supported in SET path")),
    }
}

/// Reading where a value was set gives that value.
pub proof fn law_set_then_get(
    v: JsonV,
    steps: Seq<StepV>,
    pos: int,
    value: JsonV,
    nx: bool,
    xx: bool,
)
    requires
        json_ok(v),
        0 <= pos <= steps.len(),
        set_at(v, steps, pos, value, nx, xx).1 == Ok::<bool, ErrV>(true),
    ensures
        selected(set_at(v, steps, pos, value, nx, xx).0, steps, pos) == seq![value],
    decreases steps.len() - pos,
{
    if pos < steps.len() {
        match steps[pos] {
            StepV::Key(k) => match v {
                JsonV::Obj(m) => {
                    let i = member_slot(m, k, 0);
                    lemma_slot(m, k, 0);
                    let b = set_at(v, steps, pos, value, nx, xx).0->Obj_0;
                    if pos < steps.len() - 1 {
                        lemma_ok_member(m, i);
                        law_set_then_get(m[i].1, steps, pos + 1, value, nx, xx);
                    }
                    assert(b[i].0 == k);
                    lemma_slot(b, k, 0);
                    lemma_lex_total(k, k);
                    lemma_slot_is(b, k, 0, i);
                    assert(member_at(b, k) == Some(i));
                    if pos == steps.len() - 1 {
                        assert(b[i].1 == value);
                        assert(selected(value, steps, pos + 1) == seq![value]);
                    }
                },
                _ => {},
            },
            StepV::Index(idx) => match v {
                JsonV::Arr(a) => match index_in(idx, a.len()) {
                    Some(i) => {
                        if pos < steps.len() - 1 {
                            lemma_ok_item(a, i);
                            law_set_then_get(a[i], steps, pos + 1, value, nx, xx);
                        } else {
                            assert(selected(value, steps, pos + 1) == seq![value]);
                        }
                    },
                    None => {},
                },
                _ => {},
            },
            _ => {},
        }
    }
}

/// Whether a path consists of keys and indexes from a position on.
pub open spec fn keys_and_indexes(steps: Seq<StepV>, pos: int) -> bool {
    forall|i: int|
        pos <= i < steps.len() ==> (#[trigger] steps[i]) is Key || steps[i] is Index
}

/// The one value that all steps but the last lead to.
pub open spec fn parent(v: JsonV, steps: Seq<StepV>, pos: int) -> Option<JsonV> {
    let found = selected(v, steps.drop_last(), pos);
    if found.len() == 1 {
        Some(found[0])
    } else {
        None
    }
}

/// Whether the flags forbid setting a value at a path: its last step is a key,
/// what the steps before it lead to is an object, and the key is there though
/// it must not be, or is not there though it must be.
pub open spec fn held_back(v: JsonV, steps: Seq<StepV>, pos: int, nx: bool, xx: bool) -> bool {
    &&& pos < steps.len()
    &&& steps.last() matches StepV::Key(k)
    &&& parent(v, steps, pos) matches Some(JsonV::Obj(m))
    &&& (nx && member_at(m, k) is Some) || (xx && member_at(m, k) is None)
}

/// Whether a value can stand at a path: the steps before the last one lead to
/// an object for a key, and to a long enough array for an index.
pub open spec fn has_room(v: JsonV, steps: Seq<StepV>, pos: int) -> bool {
    &&& pos < steps.len()
    &&& match steps.last() {
        StepV::Key(_) => parent(v, steps, pos) matches Some(JsonV::Obj(_)),
        StepV::Index(idx) => parent(v, steps, pos) matches Some(JsonV::Arr(a)) && index_in(
            idx,
            a.len(),
        ) is Some,
        _ => false,
    }
}

/// Where nothing was set, nothing changed.
pub proof fn law_unset_leaves_the_value(
    v: JsonV,
    steps: Seq<StepV>,
    pos: int,
    value: JsonV,
    nx: bool,
    xx: bool,
)
    ensures
        set_at(v, steps, pos, value, nx, xx).1 != Ok::<bool, ErrV>(true) ==> set_at(
            v,
            steps,
            pos,
            value,
            nx,
            xx,
        ).0 == v,
    decreases steps.len() - pos,
{
    if 0 <= pos < steps.len() - 1 {
        match (steps[pos], v) {
            (StepV::Key(k), JsonV::Obj(m)) => {
                if let Some(i) = member_at(m, k) {
                    law_unset_leaves_the_value(m[i].1, steps, pos + 1, value, nx, xx);
                    assert(m.update(i, (m[i].0, m[i].1)) =~= m);
                }
            },
            (StepV::Index(idx), JsonV::Arr(a)) => {
                if let Some(i) = index_in(idx, a.len()) {
                    law_unset_leaves_the_value(a[i], steps, pos + 1, value, nx, xx);
                    assert(a.update(i, a[i]) =~= a);
                }
            },
            _ => {},
        }
    }
}

/// When setting succeeds, when the flags hold it back, and when it fails: a
/// path with a wildcard or a recursive key always fails, and so does one whose
/// last step has nowhere to stand.
pub proof fn law_set_outcome(
    v: JsonV,
    steps: Seq<StepV>,
    pos: int,
    value: JsonV,
    nx: bool,
    xx: bool,
)
    requires
        0 <= pos <= steps.len(),
    ensures
        set_at(v, steps, pos, value, nx, xx).1 == Ok::<bool, ErrV>(false) <==> keys_and_indexes(
            steps,
            pos,
        ) && held_back(v, steps, pos, nx, xx),
        set_at(v, steps, pos, value, nx, xx).1 == Ok::<bool, ErrV>(true) <==> keys_and_indexes(
            steps,
            pos,
        ) && has_room(v, steps, pos) && !held_back(v, steps, pos, nx, xx),
        !keys_and_indexes(steps, pos) ==> set_at(v, steps, pos, value, nx, xx).1 is Err,
    decreases steps.len() - pos,
{
    if pos < steps.len() {
        let before = steps.drop_last();
        let step = steps[pos];
        if pos == steps.len() - 1 {
            assert(selected(v, before, pos) == seq![v]);
            assert(steps.last() == step);
            assert(keys_and_indexes(steps, pos) <==> step is Key || step is Index);
        } else {
            assert(before[pos] == step);
            assert(keys_and_indexes(steps, pos) <==> (step is Key || step is Index)
                && keys_and_indexes(steps, pos + 1)) by {
                if keys_and_indexes(steps, pos) {
                    assert(steps[pos] is Key || steps[pos] is Index);
                }
            }
            match (step, v) {
                (StepV::Key(k), JsonV::Obj(m)) => {
                    if let Some(i) = member_at(m, k) {
                        law_set_outcome(m[i].1, steps, pos + 1, value, nx, xx);
                    }
                },
                (StepV::Index(idx), JsonV::Arr(a)) => {
                    if let Some(i) = index_in(idx, a.len()) {
                        law_set_outcome(a[i], steps, pos + 1, value, nx, xx);
                    }
                },
                _ => {},
            }
        }
    }
}

/// The position whose key is the first one that is not less.
pub proof fn lemma_slot_is(m: Seq<(Seq<u8>, JsonV)>, key: Seq<u8>, from: int, k: int)
    requires
        0 <= from <= k < m.len(),
        forall|j: int| from <= j < k ==> lex_lt((#[trigger] m[j]).0, key),
        !lex_lt(m[k].0, key),
    ensures
        member_slot(m, key, from) == k,
    decreases k - from,
{
    if from < k {
        assert(lex_lt(m[from].0, key));
        lemma_slot_is(m, key, from + 1, k);
    }
}

// ---------------------------------------------------------------------------
// Editing
// ---------------------------------------------------------------------------

/// A change to a value.
pub enum Edit {
    /// Appends to a string.
    StrAppend(Vec<u8>),
    /// Appends to an array.
    ArrAppend(Vec<Json>),
    /// Inserts into an array before a position.
    ArrInsert(i64, Vec<Json>),
    /// Takes an element out of an array.
    ArrPop(i64),
    /// Empties a container or a string, or sets a number to zero.
    Clear,
}

/// A change to a value.
#[verifier::ext_equal]
pub enum EditV {
    StrAppend(Seq<u8>),
    ArrAppend(Seq<JsonV>),
    ArrInsert(i64, Seq<JsonV>),
    ArrPop(i64),
    Clear,
}

impl View for Edit {
    type V = EditV;

    open spec fn view(&self) -> EditV {
        match self {
            Edit::StrAppend(t) => EditV::StrAppend(t@),
            Edit::ArrAppend(v) => EditV::ArrAppend(json_views(v@)),
            Edit::ArrInsert(i, v) => EditV::ArrInsert(*i, json_views(v@)),
            Edit::ArrPop(i) => EditV::ArrPop(*i),
            Edit::Clear => EditV::Clear,
        }
    }
}

/// What a change came to.
pub enum Edited {
    /// The value is not of the kind that the change is for.
    Nothing,
    /// The length of the changed value.
    Len(usize),
    /// The element that was taken out.
    Popped(Json),
    Cleared,
}

/// What a change came to.
#[verifier::ext_equal]
pub enum EditedV {
    Nothing,
    Len(nat),
    Popped(JsonV),
    Cleared,
}

impl View for Edited {
    type V = EditedV;

    open spec fn view(&self) -> EditedV {
        match self {
            Edited::Nothing => EditedV::Nothing,
            Edited::Len(n) => EditedV::Len(*n as nat),
            Edited::Popped(j) => EditedV::Popped(j@),
            Edited::Cleared => EditedV::Cleared,
        }
    }
}

/// What some changes came to.
pub open spec fn edited_views(v: Seq<Edited>) -> Seq<EditedV> {
    v.map_values(|e: Edited| e@)
}

/// Whether the elements that were taken out are valid.
pub open spec fn edited_ok(v: Seq<EditedV>) -> bool {
    forall|i: int|
        0 <= i < v.len() ==> match #[trigger] v[i] {
            EditedV::Popped(j) => json_ok(j),
            _ => true,
        }
}

/// Whether what a change brings in is valid.
pub open spec fn edit_ok(e: EditV) -> bool {
    match e {
        EditV::StrAppend(t) => valid_utf8(t),
        EditV::ArrAppend(v) => all_ok(v),
        EditV::ArrInsert(i, v) => all_ok(v),
        _ => true,
    }
}

/// Where an insertion goes in an array.
pub open spec fn insert_pos(idx: i64, len: nat) -> int {
    if idx >= 0 {
        if idx <= len {
            idx as int
        } else {
            len as int
        }
    } else if len + idx >= 0 {
        len + idx
    } else {
        0
    }
}

/// The element that is popped from an array that has some.
pub open spec fn pop_pos(idx: i64, len: nat) -> int {
    match index_in(idx, len) {
        Some(i) => i,
        None => len - 1,
    }
}

/// A changed value, and what the change came to.
pub open spec fn edit_value(v: JsonV, e: EditV) -> (JsonV, EditedV) {
    match (v, e) {
        (JsonV::Str(s), EditV::StrAppend(t)) => (JsonV::Str(s + t), EditedV::Len((s + t).len())),
        (JsonV::Arr(a), EditV::ArrAppend(n)) => (JsonV::Arr(a + n), EditedV::Len((a + n).len())),
        (JsonV::Arr(a), EditV::ArrInsert(idx, n)) => {
            let p = insert_pos(idx, a.len());
            (JsonV::Arr(a.take(p) + n + a.skip(p)), EditedV::Len(a.len() + n.len()))
        },
        (JsonV::Arr(a), EditV::ArrPop(idx)) => if a.len() == 0 {
            (v, EditedV::Nothing)
        } else {
            let i = pop_pos(idx, a.len());
            (JsonV::Arr(a.remove(i)), EditedV::Popped(a[i]))
        },
        (JsonV::Arr(a), EditV::Clear) => (JsonV::Arr(Seq::empty()), EditedV::Cleared),
        (JsonV::Obj(m), EditV::Clear) => (JsonV::Obj(Seq::empty()), EditedV::Cleared),
        (JsonV::Num(n), EditV::Clear) => (JsonV::Num(NumV::Int(0)), EditedV::Cleared),
        (JsonV::Str(s), EditV::Clear) => (JsonV::Str(Seq::empty()), EditedV::Cleared),
        _ => (v, EditedV::Nothing),
    }
}

/// A value that stands at `path`, changed at each of some places in it. Where one
/// of them lies inside another, the inner one is changed first, and the outer one
/// holds the inner one as it is then.
pub open spec fn changed(v: JsonV, path: Seq<int>, ps: Seq<Seq<int>>, e: EditV) -> JsonV
    decreases v, width(v) + 2,
{
    let x = inside_changed(v, path, ps, e);
    if ps.contains(path) {
        edit_value(x, e).0
    } else {
        x
    }
}

/// A value that stands at `path`, changed at each of some places inside it.
pub open spec fn inside_changed(v: JsonV, path: Seq<int>, ps: Seq<Seq<int>>, e: EditV) -> JsonV
    decreases v, width(v) + 1,
{
    with_kids(v, kids_changed(v, width(v) as int, path, ps, e))
}

/// The first `n` elements or members of a value that stands at `path`, changed.
pub open spec fn kids_changed(
    v: JsonV,
    n: int,
    path: Seq<int>,
    ps: Seq<Seq<int>>,
    e: EditV,
) -> Seq<(Seq<u8>, JsonV)>
    decreases v, n,
{
    if n <= 0 || n > width(v) {
        Seq::empty()
    } else {
        proof {
            lemma_kid_less(v, n - 1);
        }
        kids_changed(v, n - 1, path, ps, e).push(
            (kid_key(v, n - 1), changed(kid(v, n - 1), path.push(n - 1), ps, e)),
        )
    }
}

/// What the change at one of some places comes to.
pub open spec fn came_to(v: JsonV, p: Seq<int>, ps: Seq<Seq<int>>, e: EditV) -> EditedV {
    edit_value(inside_changed(value_at(v, p), p, ps, e), e).1
}

/// A value changed where a path leads, and what the change at each place came to,
/// in the order in which the path selects them. A place that is selected more than
/// once is changed once.
pub open spec fn edits(v: JsonV, steps: Seq<StepV>, e: EditV) -> (JsonV, Seq<EditedV>) {
    let ps = spots(v, steps);
    (changed(v, Seq::empty(), ps, e), ps.map_values(|p: Seq<int>| came_to(v, p, ps, e)))
}

/// A valid value stays valid.
proof fn lemma_edit_ok(v: JsonV, e: EditV)
    requires
        json_ok(v),
        edit_ok(e),
    ensures
        json_ok(edit_value(v, e).0),
        edited_ok(seq![edit_value(v, e).1]),
{
    match (v, e) {
        (JsonV::Str(s), EditV::StrAppend(t)) => valid_utf8_concat(s, t),
        (JsonV::Arr(a), EditV::ArrAppend(n)) => {
            let b = a + n;
            assert forall|j: int| 0 <= j < b.len() implies json_ok(#[trigger] b[j]) by {
                if j < a.len() {
                    lemma_ok_item(a, j);
                } else {
                    assert(b[j] == n[j - a.len()]);
                }
            }
            lemma_arr_ok(b);
        },
        (JsonV::Arr(a), EditV::ArrInsert(idx, n)) => {
            let p = insert_pos(idx, a.len());
            let b = a.take(p) + n + a.skip(p);
            assert forall|j: int| 0 <= j < b.len() implies json_ok(#[trigger] b[j]) by {
                if j < p {
                    lemma_ok_item(a, j);
                } else if j < p + n.len() {
                    assert(b[j] == n[j - p]);
                } else {
                    lemma_ok_item(a, j - n.len());
                }
            }
            lemma_arr_ok(b);
        },
        (JsonV::Arr(a), EditV::ArrPop(idx)) => {
            if a.len() > 0 {
                lemma_ok_item(a, pop_pos(idx, a.len()));
                lemma_item_removed(a, pop_pos(idx, a.len()));
            }
        },
        (JsonV::Arr(a), EditV::Clear) => lemma_arr_ok(Seq::empty()),
        (JsonV::Obj(m), EditV::Clear) => lemma_obj_ok(Seq::empty()),
        _ => {},
    }
}

/// Appends copies of values to an array.
fn append_values(a: &mut Vec<Json>, vals: &Vec<Json>)
    ensures
        json_views(final(a)@) == json_views(old(a)@) + json_views(vals@),
{
    let ghost first = json_views(a@);
    let ghost all = json_views(vals@);
    let mut i: usize = 0;
    assert(first + all.take(0) =~= first);
    while i < vals.len()
        invariant
            i <= vals@.len(),
            all == json_views(vals@),
            json_views(a@) == first + all.take(i as int),
        decreases vals@.len() - i,
    {
        let c: Json = vals[i].dup();
        proof {
            lemma_json_views_push(a@, c);
        }
        a.push(c);
        assert(json_views(a@) =~= first + all.take(i + 1));
        i += 1;
    }
    assert(all.take(i as int) =~= all);
}

/// Inserts copies of values into an array.
fn insert_values(a: &mut Vec<Json>, idx: i64, vals: &Vec<Json>)
    ensures
        ({
            let av = json_views(old(a)@);
            let p = insert_pos(idx, av.len());
            json_views(final(a)@) == av.take(p) + json_views(vals@) + av.skip(p)
        }),
{
    let ghost av = json_views(a@);
    let ghost all = json_views(vals@);
    let len: usize = a.len();
    let at: i128 = if idx >= 0 { idx as i128 } else { len as i128 + idx as i128 };
    let p: usize = if at < 0 {
        0
    } else if at > len as i128 {
        len
    } else {
        at as usize
    };
    assert(p == insert_pos(idx, av.len()));
    let mut i: usize = 0;
    assert(av.take(p as int) + all.take(0) + av.skip(p as int) =~= av);
    while i < vals.len()
        invariant
            i <= vals@.len(),
            p <= len,
            len == av.len(),
            a@.len() == len + i,
            all == json_views(vals@),
            json_views(a@) == av.take(p as int) + all.take(i as int) + av.skip(p as int),
        decreases vals@.len() - i,
    {
        let ghost before = a@;
        let c: Json = vals[i].dup();
        let ghost cv = c@;
        let now: usize = a.len();
        assert(p + i <= now);
        a.insert(p + i, c);
        proof {
            assert(json_views(a@) =~= json_views(before).insert(p + i, cv));
            assert(json_views(a@) =~= av.take(p as int) + all.take(i + 1) + av.skip(p as int));
        }
        i += 1;
    }
    assert(all.take(i as int) =~= all);
}

/// Changes a value.
fn apply_edit(v: &mut Json, e: &Edit) -> (r: Edited)
    ensures
        (final(v)@, r@) == edit_value(old(v)@, e@),
{
    match v {
        Json::Str(s) => {
            match e {
                Edit::StrAppend(t) => {
                    put(s, t);
                    Edited::Len(s.len())
                },
                Edit::Clear => {
                    *v = Json::Str(Vec::new());
                    assert(v@ =~= JsonV::Str(Seq::empty()));
                    Edited::Cleared
                },
                _ => Edited::Nothing,
            }
        },
        Json::Arr(a) => {
            let ghost av = json_views(a@);
            proof {
                lemma_arr_view(*a);
            }
            match e {
                Edit::ArrAppend(vals) => {
                    append_values(a, vals);
                    proof {
                        lemma_arr_view(*a);
                    }
                    assert(a@.len() == json_views(a@).len());
                    Edited::Len(a.len())
                },
                Edit::ArrInsert(idx, vals) => {
                    insert_values(a, *idx, vals);
                    proof {
                        lemma_arr_view(*a);
                    }
                    assert(a@.len() == json_views(a@).len());
                    Edited::Len(a.len())
                },
                Edit::ArrPop(idx) => {
                    let len: usize = a.len();
                    if len == 0 {
                        Edited::Nothing
                    } else {
                        let i: usize = match resolve_index(*idx, len) {
                            Some(i) => i,
                            None => len - 1,
                        };
                        let x: Json = a.remove(i);
                        proof {
                            lemma_arr_view(*a);
                            assert(json_views(a@) =~= av.remove(i as int));
                        }
                        Edited::Popped(x)
                    }
                },
                Edit::Clear => {
                    let none: Vec<Json> = Vec::new();
                    proof {
                        lemma_arr_view(none);
                        assert(json_views(none@) =~= Seq::empty());
                    }
                    *v = Json::Arr(none);
                    Edited::Cleared
                },
                _ => Edited::Nothing,
            }
        },
        Json::Obj(m) => {
            proof {
                lemma_obj_view(*m);
            }
            match e {
                Edit::Clear => {
                    let none: Vec<(Vec<u8>, Json)> = Vec::new();
                    proof {
                        lemma_obj_view(none);
                        assert(member_views(none@) =~= Seq::empty());
                    }
                    *v = Json::Obj(none);
                    Edited::Cleared
                },
                _ => Edited::Nothing,
            }
        },
        Json::Num(n) => {
            match e {
                Edit::Clear => {
                    *v = Json::Num(number_from_i64(0));
                    Edited::Cleared
                },
                _ => Edited::Nothing,
            }
        },
        _ => Edited::Nothing,
    }
}

/// What changed elements and members are.
proof fn lemma_kids_changed(v: JsonV, n: int, path: Seq<int>, ps: Seq<Seq<int>>, e: EditV)
    requires
        0 <= n <= width(v),
    ensures
        kids_changed(v, n, path, ps, e).len() == n,
        forall|i: int|
            0 <= i < n ==> #[trigger] kids_changed(v, n, path, ps, e)[i] == (
                kid_key(v, i),
                changed(kid(v, i), path.push(i), ps, e),
            ),
    decreases n,
{
    if n > 0 {
        lemma_kids_changed(v, n - 1, path, ps, e);
    }
}

/// Where none of the places lies, nothing changes.
proof fn lemma_unchanged(v: JsonV, path: Seq<int>, ps: Seq<Seq<int>>, e: EditV)
    requires
        forall|j: int| 0 <= j < ps.len() ==> !leads(path, #[trigger] ps[j]),
    ensures
        changed(v, path, ps, e) == v,
    decreases v,
{
    if ps.contains(path) {
        let j = ps.index_of(path);
        assert(ps[j].take(path.len() as int) =~= path);
        assert(leads(path, ps[j]));
    }
    lemma_inside_unchanged(v, path, ps, e);
}

proof fn lemma_inside_unchanged(v: JsonV, path: Seq<int>, ps: Seq<Seq<int>>, e: EditV)
    requires
        forall|j: int|
            0 <= j < ps.len() ==> !leads(path, #[trigger] ps[j]) || ps[j].len() == path.len(),
    ensures
        inside_changed(v, path, ps, e) == v,
    decreases v, 0int,
{
    let ks = kids_changed(v, width(v) as int, path, ps, e);
    lemma_kids_changed(v, width(v) as int, path, ps, e);
    assert forall|i: int| 0 <= i < width(v) implies ks[i] == kid_list(v)[i] by {
        lemma_kid_less(v, i);
        assert forall|j: int| 0 <= j < ps.len() implies !leads(path.push(i), #[trigger] ps[j]) by {
            lemma_leads_kid(path, i, ps[j]);
        }
        lemma_unchanged(kid(v, i), path.push(i), ps, e);
    }
    assert(ks =~= kid_list(v));
    lemma_same_kind(v, v);
}

/// Whether the places at `path` or inside it are places of the value there.
spec fn reached_in(v: JsonV, path: Seq<int>, ps: Seq<Seq<int>>) -> bool {
    forall|j: int|
        0 <= j < ps.len() && leads(path, #[trigger] ps[j]) ==> place_in(
            v,
            ps[j].skip(path.len() as int),
        )
}

/// What the change at one of some places in the value at `path` comes to.
spec fn came_in(v: JsonV, path: Seq<int>, p: Seq<int>, ps: Seq<Seq<int>>, e: EditV) -> EditedV {
    edit_value(inside_changed(value_at(v, p.skip(path.len() as int)), p, ps, e), e).1
}

/// Whether what is noted of each place is what the change there came to, for the
/// places in the value at `path`, and else what was noted before.
spec fn noted(
    v: JsonV,
    path: Seq<int>,
    ps: Seq<Seq<int>>,
    e: EditV,
    before: Seq<EditedV>,
    after: Seq<EditedV>,
) -> bool {
    &&& before.len() == ps.len() == after.len()
    &&& forall|j: int|
        0 <= j < ps.len() ==> #[trigger] after[j] == (if leads(path, ps[j]) {
            came_in(v, path, ps[j], ps, e)
        } else {
            before[j]
        })
}

/// The same for the first `n` elements or members of the value at `path`.
spec fn noted_first(
    v: JsonV,
    n: int,
    path: Seq<int>,
    ps: Seq<Seq<int>>,
    e: EditV,
    before: Seq<EditedV>,
    after: Seq<EditedV>,
) -> bool {
    &&& before.len() == ps.len() == after.len()
    &&& forall|j: int|
        0 <= j < ps.len() ==> #[trigger] after[j] == (if leads(path, ps[j]) && path.len()
            < ps[j].len() && ps[j][path.len() as int] < n {
            came_in(v, path, ps[j], ps, e)
        } else {
            before[j]
        })
}

/// What is noted of one more element or member.
proof fn lemma_noted_kid(
    v: JsonV,
    n: int,
    path: Seq<int>,
    ps: Seq<Seq<int>>,
    e: EditV,
    first: Seq<EditedV>,
    before: Seq<EditedV>,
    after: Seq<EditedV>,
)
    requires
        0 <= n < width(v),
        noted_first(v, n, path, ps, e, first, before),
        noted(kid(v, n), path.push(n), ps, e, before, after),
    ensures
        noted_first(v, n + 1, path, ps, e, first, after),
{
    assert forall|j: int| 0 <= j < ps.len() implies #[trigger] after[j] == (if leads(path, ps[j])
        && path.len() < ps[j].len() && ps[j][path.len() as int] < n + 1 {
        came_in(v, path, ps[j], ps, e)
    } else {
        first[j]
    }) by {
        lemma_leads_kid(path, n, ps[j]);
        assert(before[j] == before[j]);
        let q = ps[j].skip(path.len() as int);
        if leads(path.push(n), ps[j]) {
            assert(value_at(v, q) == value_at(kid(v, n), q.skip(1)));
        }
    }
}

/// The places in an element or member are its places.
proof fn lemma_reached_kid(v: JsonV, i: int, path: Seq<int>, ps: Seq<Seq<int>>)
    requires
        0 <= i < width(v),
        reached_in(v, path, ps),
    ensures
        reached_in(kid(v, i), path.push(i), ps),
{
    assert forall|j: int| 0 <= j < ps.len() && leads(path.push(i), #[trigger] ps[j]) implies place_in(
        kid(v, i),
        ps[j].skip(path.push(i).len() as int),
    ) by {
        lemma_leads_kid(path, i, ps[j]);
        assert(place_in(v, ps[j].skip(path.len() as int)));
    }
}

/// Changes the value at `path` at each of some places in it, and notes what each
/// change came to.
fn change_at(
    v: &mut Json,
    path: &mut Vec<usize>,
    ps: &Vec<Vec<usize>>,
    e: &Edit,
    out: &mut Vec<Edited>,
)
    requires
        old(out)@.len() == ps@.len(),
        all_different(place_views(ps@)),
        reached_in(old(v)@, place_of(old(path)@), place_views(ps@)),
    ensures
        final(path)@ == old(path)@,
        final(v)@ == changed(old(v)@, place_of(old(path)@), place_views(ps@), e@),
        noted(
            old(v)@,
            place_of(old(path)@),
            place_views(ps@),
            e@,
            edited_views(old(out)@),
            edited_views(final(out)@),
        ),
    decreases *old(v), 0int,
{
    let ghost start = *v;
    let ghost p = place_of(path@);
    let ghost pv = place_views(ps@);
    let ghost first = edited_views(out@);
    if !reaches(ps, path) {
        proof {
            lemma_unchanged(v@, p, pv, e@);
        }
        return;
    }
    let n: usize = width_of(v);
    let mut i: usize = 0;
    assert(kid_list(v@) =~= kids_changed(v@, 0, p, pv, e@) + kid_list(v@).skip(0));
    while i < n
        invariant
            start == *old(v),
            path@ == old(path)@,
            p == place_of(path@),
            pv == place_views(ps@),
            n == width(start@),
            i <= n,
            all_different(pv),
            out@.len() == ps@.len(),
            reached_in(start@, p, pv),
            same_kind(start@, v@),
            kid_list(v@) == kids_changed(start@, i as int, p, pv, e@) + kid_list(start@).skip(
                i as int,
            ),
            forall|j: int| i <= j < n ==> #[trigger] raw_kid(*v, j) == raw_kid(start, j),
            noted_first(start@, i as int, p, pv, e@, first, edited_views(out@)),
        decreases n - i,
    {
        let ghost list = kid_list(v@);
        let ghost before = edited_views(out@);
        proof {
            lemma_kids_changed(start@, i as int, p, pv, e@);
            assert(list.len() == n);
            assert(list[i as int] == kid_list(start@)[i as int]);
            assert(list[i as int] == (kid_key(v@, i as int), kid(v@, i as int)));
            lemma_raw_kid(start, i as int);
            assert(raw_kid(*v, i as int) == raw_kid(start, i as int));
            lemma_reached_kid(start@, i as int, p, pv);
        }
        change_kid(v, i, path, ps, e, out);
        proof {
            lemma_noted_kid(start@, i as int, p, pv, e@, first, before, edited_views(out@));
            assert(kid_list(v@) =~= kids_changed(start@, i + 1, p, pv, e@) + kid_list(start@).skip(
                i + 1,
            ));
        }
        i += 1;
    }
    proof {
        assert(kid_list(v@) =~= kids_changed(start@, n as int, p, pv, e@));
        lemma_same_kind(start@, v@);
    }
    assert(v@ == inside_changed(start@, p, pv, e@));
    match rank_of(ps, path) {
        None => {
            assert forall|j: int| 0 <= j < pv.len() && leads(p, #[trigger] pv[j]) implies p.len()
                < pv[j].len() by {
                if p.len() == pv[j].len() {
                    assert(pv[j].take(p.len() as int) =~= pv[j]);
                    assert(pv.contains(p));
                }
            }
        },
        Some(k) => {
            assert(pv.contains(p));
            let r: Edited = apply_edit(v, e);
            let ghost rv = r@;
            let ghost was = edited_views(out@);
            out.set(k, r);
            proof {
                assert(edited_views(out@) =~= was.update(k as int, rv));
                assert(pv[k as int].skip(p.len() as int) =~= Seq::empty());
                assert(pv[k as int].take(p.len() as int) =~= p);
                assert(rv == came_in(start@, p, pv[k as int], pv, e@));
                assert forall|j: int|
                    0 <= j < pv.len() && j != k && leads(p, #[trigger] pv[j]) implies p.len()
                    < pv[j].len() by {
                    if p.len() == pv[j].len() {
                        assert(pv[j].take(p.len() as int) =~= pv[j]);
                        assert(pv[j] == pv[k as int]);
                    }
                }
            }
        },
    }
    proof {
        let after = edited_views(out@);
        assert forall|j: int| 0 <= j < pv.len() implies #[trigger] after[j] == (if leads(
            p,
            pv[j],
        ) {
            came_in(start@, p, pv[j], pv, e@)
        } else {
            first[j]
        }) by {
            if leads(p, pv[j]) && p.len() < pv[j].len() {
                let q = pv[j].skip(p.len() as int);
                assert(place_in(start@, q));
                assert(q[0] == pv[j][p.len() as int]);
            }
        }
    }
}

/// Changes one element or member of the value at `path`.
fn change_kid(
    v: &mut Json,
    i: usize,
    path: &mut Vec<usize>,
    ps: &Vec<Vec<usize>>,
    e: &Edit,
    out: &mut Vec<Edited>,
)
    requires
        i < width(old(v)@),
        old(out)@.len() == ps@.len(),
        all_different(place_views(ps@)),
        reached_in(
            kid(old(v)@, i as int),
            place_of(old(path)@).push(i as int),
            place_views(ps@),
        ),
    ensures
        final(path)@ == old(path)@,
        same_kind(old(v)@, final(v)@),
        kid_list(final(v)@) == kid_list(old(v)@).update(
            i as int,
            (
                kid_key(old(v)@, i as int),
                changed(
                    kid(old(v)@, i as int),
                    place_of(old(path)@).push(i as int),
                    place_views(ps@),
                    e@,
                ),
            ),
        ),
        forall|j: int|
            0 <= j < width(old(v)@) && j != i ==> #[trigger] raw_kid(*final(v), j) == raw_kid(
                *old(v),
                j,
            ),
        noted(
            kid(old(v)@, i as int),
            place_of(old(path)@).push(i as int),
            place_views(ps@),
            e@,
            edited_views(old(out)@),
            edited_views(final(out)@),
        ),
    decreases raw_kid(*old(v), i as int), 1int,
{
    let ghost was = path@;
    let ghost list = kid_list(v@);
    proof {
        lemma_place_push(was, i);
        lemma_raw_kid(*v, i as int);
    }
    path.push(i);
    match v {
        Json::Arr(a) => {
            let ghost av = json_views(a@);
            proof {
                lemma_arr_view(*a);
            }
            change_at(&mut a[i], path, ps, e, out);
            proof {
                lemma_arr_view(*a);
                assert(json_views(a@) =~= av.update(i as int, a@[i as int]@));
            }
        },
        Json::Obj(m) => {
            let ghost mv = member_views(m@);
            proof {
                lemma_obj_view(*m);
            }
            change_at(&mut m[i].1, path, ps, e, out);
            proof {
                lemma_obj_view(*m);
                assert(member_views(m@) =~= mv.update(
                    i as int,
                    (mv[i as int].0, m@[i as int].1@),
                ));
            }
        },
        _ => {},
    }
    let _last: Option<usize> = path.pop();
    assert(kid_list(v@) =~= list.update(i as int, (list[i as int].0, kid(v@, i as int))));
}

/// Changes a value where a path leads. Tells what the change at each place came
/// to.
pub fn edit_at(v: &mut Json, steps: &[PathToken], e: &Edit) -> (r: Vec<Edited>)
    requires
        json_ok(old(v)@),
        edit_ok(e@),
    ensures
        json_ok(final(v)@),
        edited_ok(edited_views(r@)),
        (final(v)@, edited_views(r@)) == edits(old(v)@, step_views(steps@), e@),
{
    let ghost root = v@;
    let ps: Vec<Vec<usize>> = find_spots(v, steps);
    let ghost pv = place_views(ps@);
    let mut out: Vec<Edited> = Vec::new();
    while out.len() < ps.len()
        invariant
            out@.len() <= ps@.len(),
        decreases ps@.len() - out@.len(),
    {
        out.push(Edited::Nothing);
    }
    let mut path: Vec<usize> = Vec::new();
    proof {
        lemma_spots(root, step_views(steps@));
        assert(place_of(path@) =~= Seq::empty());
        assert forall|j: int| 0 <= j < pv.len() implies #[trigger] pv[j].skip(0) == pv[j] by {
            assert(pv[j].skip(0) =~= pv[j]);
        }
    }
    change_at(v, &mut path, &ps, e, &mut out);
    proof {
        lemma_changed_ok(root, Seq::empty(), pv, e@);
        let (c, rs) = edits(root, step_views(steps@), e@);
        assert forall|j: int| 0 <= j < pv.len() implies #[trigger] edited_views(out@)[j] == rs[j] by {
            assert(pv[j].take(0) =~= Seq::empty());
            assert(pv[j].skip(0) =~= pv[j]);
        }
        assert(edited_views(out@) =~= rs);
        lemma_edits_ok(root, step_views(steps@), e@);
    }
    out
}

/// A changed value is valid.
proof fn lemma_changed_ok(v: JsonV, path: Seq<int>, ps: Seq<Seq<int>>, e: EditV)
    requires
        json_ok(v),
        edit_ok(e),
    ensures
        json_ok(changed(v, path, ps, e)),
        json_ok(inside_changed(v, path, ps, e)),
    decreases v,
{
    let ks = kids_changed(v, width(v) as int, path, ps, e);
    let x = inside_changed(v, path, ps, e);
    lemma_kids_changed(v, width(v) as int, path, ps, e);
    assert forall|i: int| 0 <= i < width(v) implies json_ok((#[trigger] ks[i]).1) by {
        lemma_kid_less(v, i);
        lemma_kid_ok(v, i);
        lemma_changed_ok(kid(v, i), path.push(i), ps, e);
    }
    match v {
        JsonV::Arr(a) => {
            let b = x->Arr_0;
            assert forall|i: int| 0 <= i < b.len() implies json_ok(#[trigger] b[i]) by {
                assert(b[i] == ks[i].1);
            }
            lemma_arr_ok(b);
        },
        JsonV::Obj(m) => {
            if m.len() > 0 {
                lemma_ok_member(m, 0);
            }
            assert(member_keys(ks) =~= member_keys(m));
            assert forall|i: int| 0 <= i < ks.len() implies valid_utf8((#[trigger] ks[i]).0) by {
                lemma_ok_member(m, i);
            }
            lemma_obj_ok(ks);
        },
        _ => {},
    }
    lemma_edit_ok(x, e);
}

/// What is taken out by a change is valid.
proof fn lemma_edits_ok(v: JsonV, steps: Seq<StepV>, e: EditV)
    requires
        json_ok(v),
        edit_ok(e),
    ensures
        edited_ok(edits(v, steps, e).1),
{
    let ps = spots(v, steps);
    let rs = edits(v, steps, e).1;
    lemma_spots(v, steps);
    assert forall|j: int| 0 <= j < rs.len() implies match #[trigger] rs[j] {
        EditedV::Popped(x) => json_ok(x),
        _ => true,
    } by {
        assert(place_in(v, ps[j]));
        lemma_value_ok(v, ps[j]);
        let x = value_at(v, ps[j]);
        lemma_changed_ok(x, ps[j], ps, e);
        lemma_edit_ok(inside_changed(x, ps[j], ps, e), e);
        let one = seq![edit_value(inside_changed(x, ps[j], ps, e), e).1];
        assert(one[0] == rs[j]);
    }
}

/// The value at a place of a changed value, where nothing around that place was
/// changed.
proof fn lemma_value_changed(
    v: JsonV,
    path: Seq<int>,
    ps: Seq<Seq<int>>,
    e: EditV,
    q: Seq<int>,
)
    requires
        place_in(v, q),
        forall|k: int| 0 <= k < q.len() ==> !ps.contains(path + #[trigger] q.take(k)),
    ensures
        place_in(changed(v, path, ps, e), q),
        value_at(changed(v, path, ps, e), q) == changed(value_at(v, q), path + q, ps, e),
    decreases q.len(),
{
    if q.len() == 0 {
        assert(path + q =~= path);
    } else {
        let i = q[0];
        let rest = q.skip(1);
        assert(path + q.take(0) =~= path);
        lemma_kids_changed(v, width(v) as int, path, ps, e);
        lemma_with_kids(v, kids_changed(v, width(v) as int, path, ps, e));
        assert(kid(changed(v, path, ps, e), i) == changed(kid(v, i), path.push(i), ps, e));
        assert forall|k: int| 0 <= k < rest.len() implies !ps.contains(
            path.push(i) + #[trigger] rest.take(k),
        ) by {
            assert(path.push(i) + rest.take(k) =~= path + q.take(k + 1));
        }
        lemma_value_changed(kid(v, i), path.push(i), ps, e, rest);
        assert(path.push(i) + rest =~= path + q);
    }
}

/// What stands around a place is not the place.
proof fn lemma_around(q: Seq<int>, k: int)
    requires
        0 <= k < q.len(),
    ensures
        Seq::<int>::empty() + q.take(k) == q.take(k),
        leads(q.take(k), q),
        q.take(k) != q,
{
    assert(Seq::<int>::empty() + q.take(k) =~= q.take(k));
    assert(q.take(k).len() != q.len());
}

/// Whether none of some places is another one or lies inside it.
pub open spec fn apart(ps: Seq<Seq<int>>) -> bool {
    forall|i: int, j: int|
        0 <= i < ps.len() && 0 <= j < ps.len() && i != j ==> !leads(
            #[trigger] ps[i],
            #[trigger] ps[j],
        )
}

/// Where none of the selected values lies inside another, each of them is replaced
/// by what the change makes of it, and there is one result for each, in order.
pub proof fn law_edits_reach_what_is_selected(v: JsonV, steps: Seq<StepV>, e: EditV)
    requires
        apart(places(v, steps, 0)),
    ensures
        ({
            let (c, rs) = edits(v, steps, e);
            let ps = places(v, steps, 0);
            let sel = selected(v, steps, 0);
            &&& rs.len() == sel.len() == ps.len()
            &&& forall|i: int|
                0 <= i < sel.len() ==> (#[trigger] rs[i] == edit_value(sel[i], e).1 && place_in(
                    c,
                    ps[i],
                ) && value_at(c, ps[i]) == edit_value(sel[i], e).0)
        }),
{
    let ps = places(v, steps, 0);
    let sel = selected(v, steps, 0);
    let (c, rs) = edits(v, steps, e);
    law_selected_by_place(v, steps, 0);
    lemma_firsts(ps);
    lemma_spots(v, steps);
    assert forall|i: int, j: int| 0 <= i < j < ps.len() implies #[trigger] ps[i]
        != #[trigger] ps[j] by {
        if ps[i] == ps[j] {
            assert(ps[j].take(ps[i].len() as int) =~= ps[i]);
            assert(leads(ps[i], ps[j]));
        }
    }
    assert(spots(v, steps) == ps);
    assert forall|i: int| 0 <= i < sel.len() implies (#[trigger] rs[i] == edit_value(sel[i], e).1
        && place_in(c, ps[i]) && value_at(c, ps[i]) == edit_value(sel[i], e).0) by {
        let p = ps[i];
        let x = value_at(v, p);
        assert(sel[i] == x);
        assert(place_in(v, p));
        assert forall|j: int| 0 <= j < ps.len() implies !leads(p, #[trigger] ps[j]) || ps[j].len()
            == p.len() by {
            if j != i {
                assert(!leads(ps[i], ps[j]));
            }
        }
        lemma_inside_unchanged(x, p, ps, e);
        assert forall|k: int| 0 <= k < p.len() implies !ps.contains(
            Seq::<int>::empty() + #[trigger] p.take(k),
        ) by {
            lemma_around(p, k);
            if ps.contains(p.take(k)) {
                let j = ps.index_of(p.take(k));
                assert(!leads(ps[j], ps[i]));
            }
        }
        lemma_value_changed(v, Seq::empty(), ps, e, p);
        assert(Seq::<int>::empty() + p =~= p);
        assert(ps.contains(p));
    }
}

/// Of selected values that lie inside one another the outermost is what the change
/// makes of it once all inside it is changed; and each place is changed once, so
/// that there are as many results as selected values wherever a path has at most
/// one recursive step.
pub proof fn law_outer_values_change_last(v: JsonV, steps: Seq<StepV>, e: EditV, p: Seq<int>)
    requires
        spots(v, steps).contains(p),
        forall|k: int| 0 <= k < p.len() ==> !spots(v, steps).contains(#[trigger] p.take(k)),
    ensures
        ({
            let (c, rs) = edits(v, steps, e);
            let x = inside_changed(value_at(v, p), p, spots(v, steps), e);
            &&& place_in(c, p)
            &&& value_at(c, p) == edit_value(x, e).0
            &&& rs.len() == spots(v, steps).len()
            &&& one_recursion(steps) ==> rs.len() == selected(v, steps, 0).len()
        }),
{
    let ps = spots(v, steps);
    lemma_spots(v, steps);
    let i = ps.index_of(p);
    assert(place_in(v, ps[i]));
    assert forall|k: int| 0 <= k < p.len() implies !ps.contains(
        Seq::<int>::empty() + #[trigger] p.take(k),
    ) by {
        lemma_around(p, k);
    }
    lemma_value_changed(v, Seq::empty(), ps, e, p);
    assert(Seq::<int>::empty() + p =~= p);
    if one_recursion(steps) {
        law_places_are_different(v, steps, 0);
        lemma_firsts(places(v, steps, 0));
        law_selected_by_place(v, steps, 0);
    }
}

/// A change where a path leads leaves all other places as they are.
pub proof fn law_edits_leave_the_rest(v: JsonV, steps: Seq<StepV>, e: EditV, q: Seq<int>)
    requires
        place_in(v, q),
        forall|i: int|
            0 <= i < places(v, steps, 0).len() ==> !leads(#[trigger] places(v, steps, 0)[i], q)
                && !leads(q, places(v, steps, 0)[i]),
    ensures
        place_in(edits(v, steps, e).0, q),
        value_at(edits(v, steps, e).0, q) == value_at(v, q),
{
    let all = places(v, steps, 0);
    let ps = spots(v, steps);
    lemma_spots(v, steps);
    assert forall|j: int| 0 <= j < ps.len() implies !leads(#[trigger] ps[j], q) && !leads(q, ps[j]) by {
        assert(ps.contains(ps[j]));
        let i = all.index_of(ps[j]);
        assert(!leads(all[i], q));
    }
    assert forall|k: int| 0 <= k < q.len() implies !ps.contains(
        Seq::<int>::empty() + #[trigger] q.take(k),
    ) by {
        lemma_around(q, k);
        if ps.contains(q.take(k)) {
            let j = ps.index_of(q.take(k));
            assert(!leads(ps[j], q));
        }
    }
    lemma_value_changed(v, Seq::empty(), ps, e, q);
    assert(Seq::<int>::empty() + q =~= q);
    lemma_unchanged(value_at(v, q), q, ps, e);
}

/// A value that was appended can be popped again.
pub proof fn law_pop_after_append(a: Seq<JsonV>, x: JsonV)
    ensures
        ({
            let (grown, n) = edit_value(JsonV::Arr(a), EditV::ArrAppend(seq![x]));
            &&& n == EditedV::Len(a.len() + 1)
            &&& edit_value(grown, EditV::ArrPop((-1) as i64)) == (
                JsonV::Arr(a),
                EditedV::Popped(x),
            )
        }),
{
    let b = a + seq![x];
    assert(b.remove(b.len() - 1) =~= a);
}

/// Clearing twice is clearing once.
pub proof fn law_clear_is_idempotent(v: JsonV)
    ensures
        edit_value(edit_value(v, EditV::Clear).0, EditV::Clear).0 == edit_value(
            v,
            EditV::Clear,
        ).0,
{
}

} // verus!
