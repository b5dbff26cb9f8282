//! JSON values.

use vstd::prelude::*;
use vstd::utf8::valid_utf8;

use crate::bytes::dup;
use crate::dict::ascending;

verus! {

/// A JSON number.
#[verifier::external_type_specification]
#[verifier::external_body]
pub struct ExNumber(serde_json::Number);

/// What a number says.
#[verifier::ext_equal]
pub enum NumV {
    /// An integer that fits `i64`.
    Int(i64),
    /// An integer beyond `i64`.
    Big(u64),
    /// The text of any other number.
    Real(Seq<u8>),
}

/// What a number of `serde_json` says.
pub uninterp spec fn number_view(n: serde_json::Number) -> NumV;

/// Calls `serde_json::Number::clone`: a copy says the same.
#[verifier::external_body]
pub(crate) fn dup_number(n: &serde_json::Number) -> (r: serde_json::Number)
    ensures
        number_view(r) == number_view(*n),
{
    n.clone()
}

/// Calls `serde_json::Number::is_i64`: it tells whether the number is an integer
/// that fits `i64`.
#[verifier::external_body]
pub(crate) fn number_is_i64(n: &serde_json::Number) -> (r: bool)
    ensures
        r == (number_view(*n) is Int),
{
    n.is_i64()
}

/// Calls `serde_json::Number::is_u64`: it tells whether the number is an integer
/// that fits `u64`.
#[verifier::external_body]
pub(crate) fn number_is_u64(n: &serde_json::Number) -> (r: bool)
    ensures
        r == (match number_view(*n) {
            NumV::Int(i) => i >= 0,
            NumV::Big(_) => true,
            NumV::Real(_) => false,
        }),
{
    n.is_u64()
}

/// Calls `serde_json::Number::from`: the number is that integer.
#[verifier::external_body]
pub(crate) fn number_from_i64(i: i64) -> (r: serde_json::Number)
    ensures
        number_view(r) == NumV::Int(i),
{
    serde_json::Number::from(i)
}

/// A JSON value. The members of an object stand in ascending key order.
pub enum Json {
    Null,
    Bool(bool),
    Num(serde_json::Number),
    Str(Vec<u8>),
    Arr(Vec<Json>),
    Obj(Vec<(Vec<u8>, Json)>),
}

/// What a JSON value says.
#[verifier::ext_equal]
pub enum JsonV {
    Null,
    Bool(bool),
    Num(NumV),
    Str(Seq<u8>),
    Arr(Seq<JsonV>),
    Obj(Seq<(Seq<u8>, JsonV)>),
}

impl Json {
    /// What the value says.
    pub open spec fn jview(self) -> JsonV
        decreases self,
    {
        match self {
            Json::Null => JsonV::Null,
            Json::Bool(b) => JsonV::Bool(b),
            Json::Num(n) => JsonV::Num(number_view(n)),
            Json::Str(s) => JsonV::Str(s@),
            Json::Arr(v) => JsonV::Arr(
                Seq::new(
                    v@.len(),
                    |i: int|
                        if 0 <= i < v@.len() {
                            v@[i].jview()
                        } else {
                            JsonV::Null
                        },
                ),
            ),
            Json::Obj(m) => JsonV::Obj(
                Seq::new(
                    m@.len(),
                    |i: int|
                        if 0 <= i < m@.len() {
                            (m@[i].0@, m@[i].1.jview())
                        } else {
                            (Seq::empty(), JsonV::Null)
                        },
                ),
            ),
        }
    }
}

impl View for Json {
    type V = JsonV;

    open spec fn view(&self) -> JsonV {
        self.jview()
    }
}

/// The contents of a list of values.
pub open spec fn json_views(v: Seq<Json>) -> Seq<JsonV> {
    Seq::new(v.len(), |i: int| v[i]@)
}

/// The contents of a list of members.
pub open spec fn member_views(m: Seq<(Vec<u8>, Json)>) -> Seq<(Seq<u8>, JsonV)> {
    Seq::new(m.len(), |i: int| (m[i].0@, m[i].1@))
}

/// The contents of an array are those of its elements.
pub broadcast proof fn lemma_arr_view(v: Vec<Json>)
    ensures
        #[trigger] Json::Arr(v).jview() == JsonV::Arr(json_views(v@)),
{
    let a = Json::Arr(v).jview();
    assert(a->Arr_0 =~= json_views(v@));
}

/// The contents of an object are those of its members.
pub broadcast proof fn lemma_obj_view(m: Vec<(Vec<u8>, Json)>)
    ensures
        #[trigger] Json::Obj(m).jview() == JsonV::Obj(member_views(m@)),
{
    let a = Json::Obj(m).jview();
    assert(a->Obj_0 =~= member_views(m@));
}

/// The keys of an object's members.
pub open spec fn member_keys(m: Seq<(Seq<u8>, JsonV)>) -> Seq<Seq<u8>> {
    m.map_values(|p: (Seq<u8>, JsonV)| p.0)
}

/// Whether the keys of every object inside a value ascend, and all strings and
/// keys are text.
pub open spec fn json_ok(j: JsonV) -> bool
    decreases j,
{
    match j {
        JsonV::Str(s) => valid_utf8(s),
        JsonV::Arr(v) => forall|i: int| 0 <= i < v.len() ==> json_ok(#[trigger] v[i]),
        JsonV::Obj(m) => {
            &&& ascending(member_keys(m))
            &&& forall|i: int| 0 <= i < m.len() ==> valid_utf8((#[trigger] m[i]).0)
            &&& forall|i: int| 0 <= i < m.len() ==> json_ok((#[trigger] m[i]).1)
        },
        _ => true,
    }
}

/// The elements of a valid array are valid.
pub proof fn lemma_ok_item(v: Seq<JsonV>, i: int)
    requires
        json_ok(JsonV::Arr(v)),
        0 <= i < v.len(),
    ensures
        json_ok(v[i]),
{
    reveal_with_fuel(json_ok, 2);
    assert(JsonV::Arr(v)->Arr_0[i] == v[i]);
}

/// The members of a valid object are valid.
pub proof fn lemma_ok_member(m: Seq<(Seq<u8>, JsonV)>, i: int)
    requires
        json_ok(JsonV::Obj(m)),
        0 <= i < m.len(),
    ensures
        json_ok(m[i].1),
        valid_utf8(m[i].0),
        ascending(member_keys(m)),
{
}

/// An array of valid elements is valid.
pub proof fn lemma_arr_ok(v: Seq<JsonV>)
    requires
        forall|i: int| 0 <= i < v.len() ==> json_ok(#[trigger] v[i]),
    ensures
        json_ok(JsonV::Arr(v)),
{
}

/// An object of valid members with ascending keys is valid.
pub proof fn lemma_obj_ok(m: Seq<(Seq<u8>, JsonV)>)
    requires
        ascending(member_keys(m)),
        forall|i: int| 0 <= i < m.len() ==> valid_utf8((#[trigger] m[i]).0),
        forall|i: int| 0 <= i < m.len() ==> json_ok((#[trigger] m[i]).1),
    ensures
        json_ok(JsonV::Obj(m)),
{
}

impl Json {
    /// A copy of the value.
    pub fn dup(&self) -> (r: Json)
        ensures
            r@ == self@,
        decreases self,
    {
        match self {
            Json::Null => Json::Null,
            Json::Bool(b) => Json::Bool(*b),
            Json::Num(n) => Json::Num(dup_number(n)),
            Json::Str(s) => Json::Str(dup(s)),
            Json::Arr(v) => {
                let mut out: Vec<Json> = Vec::new();
                let mut i: usize = 0;
                while i < v.len()
                    invariant
                        self == Json::Arr(*v),
                        i <= v@.len(),
                        out@.len() == i,
                        forall|j: int| 0 <= j < i ==> (#[trigger] out@[j])@ == v@[j]@,
                    decreases v@.len() - i,
                {
                    assert(decreases_to!(*self => self->Arr_0));
                    assert(decreases_to!(*v => v@));
                    assert(decreases_to!(v@ => v@[i as int]));
                    out.push(v[i].dup());
                    i += 1;
                }
                proof {
                    lemma_arr_view(*v);
                    lemma_arr_view(out);
                    assert(json_views(out@) =~= json_views(v@));
                }
                Json::Arr(out)
            },
            Json::Obj(m) => {
                let mut out: Vec<(Vec<u8>, Json)> = Vec::new();
                let mut i: usize = 0;
                while i < m.len()
                    invariant
                        self == Json::Obj(*m),
                        i <= m@.len(),
                        out@.len() == i,
                        forall|j: int|
                            0 <= j < i ==> (#[trigger] out@[j]).0@ == m@[j].0@ && out@[j].1@
                                == m@[j].1@,
                    decreases m@.len() - i,
                {
                    let k: Vec<u8> = dup(&m[i].0);
                    assert(decreases_to!(*self => self->Obj_0));
                    assert(decreases_to!(*m => m@));
                    assert(decreases_to!(m@ => m@[i as int]));
                    assert(decreases_to!(m@[i as int] => m@[i as int].1));
                    let v: Json = m[i].1.dup();
                    out.push((k, v));
                    i += 1;
                }
                proof {
                    lemma_obj_view(*m);
                    lemma_obj_view(out);
                    assert(member_views(out@) =~= member_views(m@));
                }
                Json::Obj(out)
            },
        }
    }
}

} // verus!
