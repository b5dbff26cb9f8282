//! JSON text: reading it and writing it, by `serde_json`.

use vstd::prelude::*;

use crate::bytes::dup;
use crate::json_data::{
    dup_number, json_ok, json_views, lemma_arr_view, lemma_obj_view, lemma_ok_item,
    lemma_ok_member, member_views, number_view, Json, JsonV,
};
use crate::lists::reversed;

verus! {

/// A JSON value of `serde_json`.
#[verifier::external_type_specification]
#[verifier::external_body]
pub struct ExValue(serde_json::Value);

/// What a value of `serde_json` holds.
pub uninterp spec fn value_view(v: serde_json::Value) -> JsonV;

/// What `serde_json::from_slice` reads from a text as a value, if it can.
pub uninterp spec fn json_parsed(text: Seq<u8>) -> Option<JsonV>;

/// What the `Display` of `serde_json::Value` writes for a value.
pub uninterp spec fn json_display(j: JsonV) -> Seq<u8>;

/// A value taken apart by one level.
pub enum ValueParts {
    Null,
    Bool(bool),
    Num(serde_json::Number),
    Str(Vec<u8>),
    Arr(Vec<serde_json::Value>),
    Obj(Vec<(Vec<u8>, serde_json::Value)>),
}

/// What the values of a list hold.
pub open spec fn value_views(v: Seq<serde_json::Value>) -> Seq<JsonV> {
    Seq::new(v.len(), |i: int| value_view(v[i]))
}

/// What the members of an object hold.
pub open spec fn value_members(m: Seq<(Vec<u8>, serde_json::Value)>) -> Seq<(Seq<u8>, JsonV)> {
    Seq::new(m.len(), |i: int| (m[i].0@, value_view(m[i].1)))
}

/// What the parts of a value hold together.
pub open spec fn parts_view(p: ValueParts) -> JsonV {
    match p {
        ValueParts::Null => JsonV::Null,
        ValueParts::Bool(b) => JsonV::Bool(b),
        ValueParts::Num(n) => JsonV::Num(number_view(n)),
        ValueParts::Str(s) => JsonV::Str(s@),
        ValueParts::Arr(v) => JsonV::Arr(value_views(v@)),
        ValueParts::Obj(m) => JsonV::Obj(value_members(m@)),
    }
}

/// Calls `serde_json::from_slice`. The result is named, as a value. The keys of
/// its objects ascend, as the objects of `serde_json` are ordered maps, and
/// strings and keys are text.
#[verifier::external_body]
pub(crate) fn parse_value(text: &[u8]) -> (r: Option<serde_json::Value>)
    ensures
        match r {
            Some(v) => json_parsed(text@) == Some(value_view(v)) && json_ok(value_view(v)),
            None => json_parsed(text@) is None,
        },
{
    serde_json::from_slice(text).ok()
}

/// Takes a `serde_json::Value` apart: it holds what its parts hold, members in
/// the order of `serde_json::Map::into_iter`.
#[verifier::external_body]
pub(crate) fn open_value(v: serde_json::Value) -> (r: ValueParts)
    ensures
        parts_view(r) == value_view(v),
{
    match v {
        serde_json::Value::Null => ValueParts::Null,
        serde_json::Value::Bool(b) => ValueParts::Bool(b),
        serde_json::Value::Number(n) => ValueParts::Num(n),
        serde_json::Value::String(s) => ValueParts::Str(s.into_bytes()),
        serde_json::Value::Array(a) => ValueParts::Arr(a),
        serde_json::Value::Object(m) => ValueParts::Obj(
            m.into_iter().map(|e| (e.0.into_bytes(), e.1)).collect(),
        ),
    }
}

/// Puts a `serde_json::Value` together: it holds what its parts hold. Members
/// whose keys ascend stand in a `serde_json::Map` in that order.
#[verifier::external_body]
pub(crate) fn close_value(p: ValueParts) -> (r: serde_json::Value)
    requires
        json_ok(parts_view(p)),
    ensures
        value_view(r) == parts_view(p),
{
    match p {
        ValueParts::Null => serde_json::Value::Null,
        ValueParts::Bool(b) => serde_json::Value::Bool(b),
        ValueParts::Num(n) => serde_json::Value::Number(n),
        ValueParts::Str(s) => serde_json::Value::String(String::from_utf8_lossy(&s).into_owned()),
        ValueParts::Arr(a) => serde_json::Value::Array(a),
        ValueParts::Obj(m) => serde_json::Value::Object(
            m.into_iter().map(|e| (String::from_utf8_lossy(&e.0).into_owned(), e.1)).collect(),
        ),
    }
}

/// Calls `to_string` of `serde_json::Value`. The result is named.
#[verifier::external_body]
pub(crate) fn value_text(v: &serde_json::Value) -> (r: Vec<u8>)
    ensures
        r@ == json_display(value_view(*v)),
{
    v.to_string().into_bytes()
}

/// Reads a value of `serde_json`.
fn json_from(v: serde_json::Value) -> (r: Json)
    ensures
        r@ == value_view(v),
    decreases value_view(v),
{
    let ghost whole = value_view(v);
    match open_value(v) {
        ValueParts::Null => Json::Null,
        ValueParts::Bool(b) => Json::Bool(b),
        ValueParts::Num(n) => Json::Num(n),
        ValueParts::Str(s) => Json::Str(s),
        ValueParts::Arr(items) => {
            let ghost all = items@;
            let mut rest: Vec<serde_json::Value> = reversed(items);
            let mut out: Vec<Json> = Vec::new();
            while rest.len() > 0
                invariant
                    whole == JsonV::Arr(value_views(all)),
                    whole == value_view(v),
                    out@.len() + rest@.len() == all.len(),
                    rest@ == all.skip(out@.len() as int).reverse(),
                    forall|j: int| 0 <= j < out@.len() ==> (#[trigger] out@[j])@ == value_view(all[j]),
                decreases rest@.len(),
            {
                let ghost k = out@.len() as int;
                match rest.pop() {
                    Some(x) => {
                        proof {
                            assert(x == all[k]);
                            assert(value_views(all)[k] == value_view(x));
                            assert(decreases_to!(whole => whole->Arr_0));
                            assert(decreases_to!(value_views(all) => value_views(all)[k]));
                            assert(rest@ =~= all.skip(k + 1).reverse());
                        }
                        out.push(json_from(x));
                    },
                    None => {},
                }
            }
            proof {
                lemma_arr_view(out);
                assert(json_views(out@) =~= value_views(all));
            }
            Json::Arr(out)
        },
        ValueParts::Obj(members) => {
            let ghost all = members@;
            let mut rest: Vec<(Vec<u8>, serde_json::Value)> = reversed(members);
            let mut out: Vec<(Vec<u8>, Json)> = Vec::new();
            while rest.len() > 0
                invariant
                    whole == JsonV::Obj(value_members(all)),
                    whole == value_view(v),
                    out@.len() + rest@.len() == all.len(),
                    rest@ == all.skip(out@.len() as int).reverse(),
                    forall|j: int|
                        0 <= j < out@.len() ==> (#[trigger] out@[j]).0@ == all[j].0@ && out@[j].1@
                            == value_view(all[j].1),
                decreases rest@.len(),
            {
                let ghost k = out@.len() as int;
                match rest.pop() {
                    Some(e) => {
                        proof {
                            assert(e == all[k]);
                            assert(value_members(all)[k].1 == value_view(e.1));
                            assert(decreases_to!(whole => whole->Obj_0));
                            assert(decreases_to!(value_members(all) => value_members(all)[k]));
                            assert(decreases_to!(value_members(all)[k] => value_members(all)[k].1));
                            assert(rest@ =~= all.skip(k + 1).reverse());
                        }
                        out.push((e.0, json_from(e.1)));
                    },
                    None => {},
                }
            }
            proof {
                lemma_obj_view(out);
                assert(member_views(out@) =~= value_members(all));
            }
            Json::Obj(out)
        },
    }
}

/// A value for `serde_json`.
fn value_from(j: &Json) -> (r: serde_json::Value)
    requires
        json_ok(j@),
    ensures
        value_view(r) == j@,
    decreases j,
{
    match j {
        Json::Null => close_value(ValueParts::Null),
        Json::Bool(b) => close_value(ValueParts::Bool(*b)),
        Json::Num(n) => close_value(ValueParts::Num(dup_number(n))),
        Json::Str(s) => close_value(ValueParts::Str(dup(s))),
        Json::Arr(items) => {
            let mut out: Vec<serde_json::Value> = Vec::new();
            let mut i: usize = 0;
            proof {
                lemma_arr_view(*items);
            }
            while i < items.len()
                invariant
                    j == Json::Arr(*items),
                    json_ok(JsonV::Arr(json_views(items@))),
                    i <= items@.len(),
                    out@.len() == i,
                    forall|k: int| 0 <= k < i ==> value_view(#[trigger] out@[k]) == items@[k]@,
                decreases items@.len() - i,
            {
                proof {
                    assert(decreases_to!(*j => j->Arr_0));
                    assert(decreases_to!(*items => items@));
                    assert(decreases_to!(items@ => items@[i as int]));
                    lemma_ok_item(json_views(items@), i as int);
                }
                out.push(value_from(&items[i]));
                i += 1;
            }
            assert(value_views(out@) =~= json_views(items@));
            close_value(ValueParts::Arr(out))
        },
        Json::Obj(members) => {
            let mut out: Vec<(Vec<u8>, serde_json::Value)> = Vec::new();
            let mut i: usize = 0;
            proof {
                lemma_obj_view(*members);
            }
            while i < members.len()
                invariant
                    j == Json::Obj(*members),
                    json_ok(JsonV::Obj(member_views(members@))),
                    i <= members@.len(),
                    out@.len() == i,
                    forall|k: int|
                        0 <= k < i ==> (#[trigger] out@[k]).0@ == members@[k].0@ && value_view(
                            out@[k].1,
                        ) == members@[k].1@,
                decreases members@.len() - i,
            {
                let key: Vec<u8> = dup(&members[i].0);
                proof {
                    assert(decreases_to!(*j => j->Obj_0));
                    assert(decreases_to!(*members => members@));
                    assert(decreases_to!(members@ => members@[i as int]));
                    assert(decreases_to!(members@[i as int] => members@[i as int].1));
                    lemma_ok_member(member_views(members@), i as int);
                }
                out.push((key, value_from(&members[i].1)));
                i += 1;
            }
            assert(value_members(out@) =~= member_views(members@));
            close_value(ValueParts::Obj(out))
        },
    }
}

/// Reads a JSON text.
pub fn parse_json(text: &[u8]) -> (r: Option<Json>)
    ensures
        match r {
            Some(j) => json_parsed(text@) == Some(j@) && json_ok(j@),
            None => json_parsed(text@) is None,
        },
{
    match parse_value(text) {
        Some(v) => Some(json_from(v)),
        None => None,
    }
}

/// Writes a JSON text.
pub fn json_to_text(j: &Json) -> (r: Vec<u8>)
    requires
        json_ok(j@),
    ensures
        r@ == json_display(j@),
{
    let v: serde_json::Value = value_from(j);
    value_text(&v)
}

} // verus!
