//! What the commands on JSON documents do to a document and answer, from their
//! arguments to the database and the replies.

use vstd::prelude::*;
use vstd::utf8::valid_utf8;

use crate::bytes::i64_of;
use crate::context::{CtxV, Outcome};
use crate::error::ErrV;
use crate::json::{
    edited_tok, edited_toks, json_arrappend_outcome, json_arrinsert_outcome, json_arrpop_outcome,
    json_edited, json_strappend_outcome, values_from,
};
use crate::json_data::JsonV;
use crate::json_edit::{apart, edit_value, edits, law_edits_reach_what_is_selected, EditV, EditedV};
use crate::json_path::{path_of, selected, StepV};
use crate::json_places::{law_selected_by_place, place_in, places, value_at};
use crate::json_text::{json_display, json_parsed};
use crate::keyspace::{DbV, ObjV};
use crate::reply::Tok;
use crate::string_laws::same_but;

verus! {

// ---------------------------------------------------------------------------
// Arrays and strings
// ---------------------------------------------------------------------------

/// A list with other values put between its first `p` and the rest.
pub open spec fn put_between<T>(a: Seq<T>, b: Seq<T>, p: int, n: Seq<T>) -> bool {
    &&& b.len() == a.len() + n.len()
    &&& forall|k: int| 0 <= k < p ==> #[trigger] b[k] == a[k]
    &&& forall|k: int| 0 <= k < n.len() ==> b[p + k] == #[trigger] n[k]
    &&& forall|k: int| p <= k < a.len() ==> b[k + n.len()] == #[trigger] a[k]
}

/// An array with values inserted at an index, which counts from the end if it is
/// negative. An index beyond either end inserts at that end.
pub open spec fn inserted(a: Seq<JsonV>, b: Seq<JsonV>, i: int, n: Seq<JsonV>) -> bool {
    &&& 0 <= i <= a.len() ==> put_between(a, b, i, n)
    &&& -a.len() <= i < 0 ==> put_between(a, b, a.len() + i, n)
    &&& i > a.len() ==> b == a + n
    &&& i < -a.len() ==> b == n + a
}

/// A list without the element at one position.
pub open spec fn taken_out<T>(a: Seq<T>, b: Seq<T>, p: int) -> bool {
    &&& b.len() + 1 == a.len()
    &&& forall|k: int| 0 <= k < p ==> #[trigger] b[k] == a[k]
    &&& forall|k: int| p <= k < b.len() ==> #[trigger] b[k] == a[k + 1]
}

/// An array without the element at an index, which is told. The index counts from
/// the end if it is negative; one that is out of range means the last element.
pub open spec fn popped(a: Seq<JsonV>, b: Seq<JsonV>, i: int, told: JsonV) -> bool {
    let n = a.len() as int;
    &&& 0 <= i < n ==> taken_out(a, b, i) && told == a[i]
    &&& -n <= i < 0 ==> taken_out(a, b, n + i) && told == a[n + i]
    &&& (i >= n || i < -n) ==> taken_out(a, b, n - 1) && told == a[n - 1]
}

/// Values inserted into an array stand in order from the index on, between what
/// was before it and what was behind it.
pub proof fn law_insertion_lands_at_its_index(a: Seq<JsonV>, i: i64, n: Seq<JsonV>)
    ensures
        ({
            let r = edit_value(JsonV::Arr(a), EditV::ArrInsert(i, n));
            &&& r.0 is Arr
            &&& inserted(a, r.0->Arr_0, i as int, n)
            &&& r.1 == EditedV::Len(a.len() + n.len())
        }),
{
    let b = edit_value(JsonV::Arr(a), EditV::ArrInsert(i, n)).0->Arr_0;
    if i > a.len() {
        assert(b =~= a + n);
    }
    if i < -a.len() {
        assert(b =~= n + a);
    }
}

/// A pop takes out the element at its index and nothing else.
pub proof fn law_pop_takes_the_element(a: Seq<JsonV>, i: i64)
    ensures
        ({
            let r = edit_value(JsonV::Arr(a), EditV::ArrPop(i));
            if a.len() == 0 {
                r == (JsonV::Arr(a), EditedV::Nothing)
            } else {
                &&& r.0 is Arr
                &&& r.1 is Popped
                &&& popped(a, r.0->Arr_0, i as int, r.1->Popped_0)
            }
        }),
{
}

/// A document that a key holds.
pub open spec fn holds_document(d: DbV, key: Seq<u8>, v: JsonV) -> bool {
    d.objects.contains_key(key) && d.objects[key] == ObjV::Json(v)
}

/// A command succeeded, changed nothing but the document of one key, which now
/// is `v`, and replied an array of these.
pub open spec fn changed_to(
    c: CtxV,
    o: Outcome,
    key: Seq<u8>,
    v: JsonV,
    told: Seq<Tok>,
) -> bool {
    &&& o.result is Ok
    &&& holds_document(o.ctx.db, key, v)
    &&& same_but(o.ctx.db, c.db, key)
    &&& o.ctx.db.expires == c.db.expires
    &&& o.ctx.replies == c.replies.push(Tok::Array(told.len())) + told
}

/// The document that a key holds after a command.
pub open spec fn document_of(o: Outcome, key: Seq<u8>) -> JsonV {
    o.ctx.db.objects[key]->Json_0
}

/// What a command told behind the header of its reply.
pub open spec fn told_by(c: CtxV, o: Outcome) -> Seq<Tok> {
    o.ctx.replies.skip(c.replies.len() as int + 1)
}

/// A path names steps, and it selects from a document places of which none lies
/// inside another.
pub open spec fn reaches(path: Seq<u8>, v: JsonV, steps: Seq<StepV>) -> bool {
    &&& valid_utf8(path)
    &&& path_of(path) == Ok::<Seq<StepV>, ErrV>(steps)
    &&& apart(places(v, steps, 0))
}

proof fn lemma_edited(
    c: CtxV,
    key: Seq<u8>,
    path: Seq<u8>,
    e: EditV,
    v: JsonV,
    steps: Seq<StepV>,
    o: Outcome,
)
    requires
        holds_document(c.db, key, v),
        reaches(path, v, steps),
        o == json_edited(c, key, path, e),
    ensures
        ({
            let ps = places(v, steps, 0);
            &&& changed_to(c, o, key, document_of(o, key), told_by(c, o))
            &&& told_by(c, o).len() == ps.len()
            &&& forall|k: int|
                0 <= k < ps.len() ==> {
                    let w = value_at(v, #[trigger] ps[k]);
                    &&& place_in(document_of(o, key), ps[k])
                    &&& value_at(document_of(o, key), ps[k]) == edit_value(w, e).0
                    &&& told_by(c, o)[k] == edited_tok(edit_value(w, e).1)
                }
        }),
{
    let ps = places(v, steps, 0);
    let sel = selected(v, steps, 0);
    let r = edits(v, steps, e);
    law_edits_reach_what_is_selected(v, steps, e);
    law_selected_by_place(v, steps, 0);
    let told = edited_toks(r.1);
    assert(o.ctx.replies =~= c.replies.push(Tok::Array(told.len())) + told);
    assert(told_by(c, o) =~= told);
    assert(o.ctx.db.objects.remove(key) =~= c.db.objects.remove(key));
    assert forall|k: int| 0 <= k < ps.len() implies {
        let w = value_at(v, #[trigger] ps[k]);
        &&& place_in(document_of(o, key), ps[k])
        &&& value_at(document_of(o, key), ps[k]) == edit_value(w, e).0
        &&& told_by(c, o)[k] == edited_tok(edit_value(w, e).1)
    } by {
        assert(sel[k] == value_at(v, ps[k]));
        assert(r.1[k] == edit_value(sel[k], e).1);
    }
}

/// The arguments from a position on are texts of these values.
pub open spec fn texts_of(argv: Seq<Seq<u8>>, i: int, n: Seq<JsonV>) -> bool {
    &&& argv.len() == i + n.len()
    &&& forall|k: int| 0 <= k < n.len() ==> json_parsed(argv[i + k]) == Some(#[trigger] n[k])
}

proof fn lemma_values_read(argv: Seq<Seq<u8>>, i: int, n: Seq<JsonV>, k: int)
    requires
        0 <= i,
        0 <= k <= n.len(),
        texts_of(argv, i, n),
    ensures
        values_from(argv, i + k, n.take(k)) == Some(n),
    decreases n.len() - k,
{
    if k < n.len() {
        lemma_values_read(argv, i, n, k + 1);
        assert(json_parsed(argv[i + k]) == Some(n[k]));
        assert(n.take(k).push(n[k]) =~= n.take(k + 1));
    } else {
        assert(n.take(k) =~= n);
    }
}

/// JSON.ARRINSERT puts its values into each array that the path selects, at the
/// index that was given, tells the new length of each, and leaves all else.
pub proof fn law_arrinsert_inserts_at_the_index(
    c: CtxV,
    v: JsonV,
    steps: Seq<StepV>,
    i: i64,
    n: Seq<JsonV>,
)
    requires
        c.client.argv.len() >= 5,
        holds_document(c.db, c.client.argv[1], v),
        reaches(c.client.argv[2], v, steps),
        i64_of(c.client.argv[3]) == Some(i),
        texts_of(c.client.argv, 4, n),
    ensures
        ({
            let key = c.client.argv[1];
            let o = json_arrinsert_outcome(c);
            let w = document_of(o, key);
            let ps = places(v, steps, 0);
            &&& changed_to(c, o, key, w, told_by(c, o))
            &&& told_by(c, o).len() == ps.len()
            &&& forall|k: int|
                0 <= k < ps.len() ==> {
                    let x = value_at(v, #[trigger] ps[k]);
                    let y = value_at(w, ps[k]);
                    if x is Arr {
                        &&& y is Arr
                        &&& inserted(x->Arr_0, y->Arr_0, i as int, n)
                        &&& y->Arr_0.len() <= i64::MAX ==> told_by(c, o)[k] == Tok::Int(
                            y->Arr_0.len() as int,
                        )
                    } else {
                        y == x && told_by(c, o)[k] == Tok::NullBulk
                    }
                }
        }),
{
    let argv = c.client.argv;
    let o = json_arrinsert_outcome(c);
    let e = EditV::ArrInsert(i, n);
    assert(n.take(0) =~= Seq::<JsonV>::empty());
    lemma_values_read(argv, 4, n, 0);
    assert(o == json_edited(c, argv[1], argv[2], e));
    lemma_edited(c, argv[1], argv[2], e, v, steps, o);
    let ps = places(v, steps, 0);
    let w = document_of(o, argv[1]);
    assert forall|k: int| 0 <= k < ps.len() implies {
        let x = value_at(v, #[trigger] ps[k]);
        let y = value_at(w, ps[k]);
        if x is Arr {
            &&& y is Arr
            &&& inserted(x->Arr_0, y->Arr_0, i as int, n)
            &&& y->Arr_0.len() <= i64::MAX ==> told_by(c, o)[k] == Tok::Int(y->Arr_0.len() as int)
        } else {
            y == x && told_by(c, o)[k] == Tok::NullBulk
        }
    } by {
        let x = value_at(v, ps[k]);
        if x is Arr {
            law_insertion_lands_at_its_index(x->Arr_0, i, n);
        }
    }
}

/// JSON.ARRAPPEND puts its values behind each array that the path selects, and
/// tells the new length of each.
pub proof fn law_arrappend_appends(c: CtxV, v: JsonV, steps: Seq<StepV>, n: Seq<JsonV>)
    requires
        c.client.argv.len() >= 4,
        holds_document(c.db, c.client.argv[1], v),
        reaches(c.client.argv[2], v, steps),
        texts_of(c.client.argv, 3, n),
    ensures
        ({
            let key = c.client.argv[1];
            let o = json_arrappend_outcome(c);
            let w = document_of(o, key);
            let ps = places(v, steps, 0);
            &&& changed_to(c, o, key, w, told_by(c, o))
            &&& told_by(c, o).len() == ps.len()
            &&& forall|k: int|
                0 <= k < ps.len() ==> {
                    let x = value_at(v, #[trigger] ps[k]);
                    let y = value_at(w, ps[k]);
                    if x is Arr {
                        &&& y == JsonV::Arr(x->Arr_0 + n)
                        &&& (x->Arr_0 + n).len() <= i64::MAX ==> told_by(c, o)[k] == Tok::Int(
                            (x->Arr_0.len() + n.len()) as int,
                        )
                    } else {
                        y == x && told_by(c, o)[k] == Tok::NullBulk
                    }
                }
        }),
{
    let argv = c.client.argv;
    let o = json_arrappend_outcome(c);
    let e = EditV::ArrAppend(n);
    assert(n.take(0) =~= Seq::<JsonV>::empty());
    lemma_values_read(argv, 3, n, 0);
    assert(o == json_edited(c, argv[1], argv[2], e));
    lemma_edited(c, argv[1], argv[2], e, v, steps, o);
}

/// JSON.ARRPOP takes one element out of each array that the path selects, the one
/// at the index or else the last, and tells it. An empty array has none to tell.
pub proof fn law_arrpop_pops(c: CtxV, v: JsonV, steps: Seq<StepV>, i: i64)
    requires
        c.client.argv.len() >= 3,
        holds_document(c.db, c.client.argv[1], v),
        reaches(c.client.argv[2], v, steps),
        c.client.argv.len() == 3 ==> i == -1,
        c.client.argv.len() > 3 ==> i64_of(c.client.argv[3]) == Some(i),
    ensures
        ({
            let key = c.client.argv[1];
            let o = json_arrpop_outcome(c);
            let w = document_of(o, key);
            let ps = places(v, steps, 0);
            &&& changed_to(c, o, key, w, told_by(c, o))
            &&& told_by(c, o).len() == ps.len()
            &&& forall|k: int|
                0 <= k < ps.len() ==> pops(
                    value_at(v, #[trigger] ps[k]),
                    value_at(w, ps[k]),
                    i as int,
                    told_by(c, o)[k],
                )
        }),
{
    let argv = c.client.argv;
    let o = json_arrpop_outcome(c);
    let e = EditV::ArrPop(i);
    assert(o == json_edited(c, argv[1], argv[2], e));
    lemma_edited(c, argv[1], argv[2], e, v, steps, o);
    let ps = places(v, steps, 0);
    let w = document_of(o, argv[1]);
    assert forall|k: int| 0 <= k < ps.len() implies pops(
        value_at(v, #[trigger] ps[k]),
        value_at(w, ps[k]),
        i as int,
        told_by(c, o)[k],
    ) by {
        let x = value_at(v, ps[k]);
        if x is Arr {
            law_pop_takes_the_element(x->Arr_0, i);
            let r = edit_value(x, e);
            if x->Arr_0.len() > 0 {
                assert(popped(x->Arr_0, r.0->Arr_0, i as int, r.1->Popped_0));
            }
        }
    }
}

/// A value before and after a pop, and what was told of it.
pub open spec fn pops(x: JsonV, y: JsonV, i: int, told: Tok) -> bool {
    if x is Arr && x->Arr_0.len() > 0 {
        y is Arr && exists|j: JsonV| #[trigger]
            popped(x->Arr_0, y->Arr_0, i, j) && told == Tok::Bulk(json_display(j))
    } else {
        y == x && told == Tok::NullBulk
    }
}

/// JSON.STRAPPEND puts a string behind each string that the path selects, and
/// tells the new length of each.
pub proof fn law_strappend_appends(c: CtxV, v: JsonV, steps: Seq<StepV>, t: Seq<u8>)
    requires
        c.client.argv.len() >= 4,
        holds_document(c.db, c.client.argv[1], v),
        reaches(c.client.argv[2], v, steps),
        json_parsed(c.client.argv[3]) == Some(JsonV::Str(t)),
    ensures
        ({
            let key = c.client.argv[1];
            let o = json_strappend_outcome(c);
            let w = document_of(o, key);
            let ps = places(v, steps, 0);
            &&& changed_to(c, o, key, w, told_by(c, o))
            &&& told_by(c, o).len() == ps.len()
            &&& forall|k: int|
                0 <= k < ps.len() ==> {
                    let x = value_at(v, #[trigger] ps[k]);
                    let y = value_at(w, ps[k]);
                    if x is Str {
                        &&& y == JsonV::Str(x->Str_0 + t)
                        &&& (x->Str_0 + t).len() <= i64::MAX ==> told_by(c, o)[k] == Tok::Int(
                            (x->Str_0.len() + t.len()) as int,
                        )
                    } else {
                        y == x && told_by(c, o)[k] == Tok::NullBulk
                    }
                }
        }),
{
    let argv = c.client.argv;
    let o = json_strappend_outcome(c);
    let e = EditV::StrAppend(t);
    assert(o == json_edited(c, argv[1], argv[2], e));
    lemma_edited(c, argv[1], argv[2], e, v, steps, o);
}

} // verus!
