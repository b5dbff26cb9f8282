//! What holds of the list commands together.

use vstd::prelude::*;

use crate::bytes::i64_of;
use crate::context::{with_argv, CtxV};
use crate::error::ErrV;
use crate::keyspace::{list_in, DbV};
use crate::list::{
    at_most, first_at, lindex_outcome, linsert_outcome, lset_outcome, pop_outcome, pushed_all,
    push_outcome,
};
use crate::list_move::{move_outcome, range_popped};
use crate::list_range::{
    hits, in_range, lpos_answers, lpos_default, lrange_outcome, lrem_outcome, lremoved,
    ltrim_outcome, removed_from_head, removed_from_tail, LposArgs,
};
use crate::list_type::{end_of, popped, pushed, seek, ListPosition};

use crate::reply::{bulk_array, Tok};

verus! {

/// No list of a database is empty.
pub open spec fn no_empty_lists(d: DbV) -> bool {
    forall|key: Seq<u8>| (#[trigger] list_in(d, key) matches Ok(Some(l)) ==> l.len() > 0)
}

/// Pushes only make a list longer.
proof fn lemma_pushed_len(l: Seq<Seq<u8>>, vs: Seq<Seq<u8>>, at: ListPosition)
    ensures
        pushed_all(l, vs, at).len() == l.len() + vs.len(),
    decreases vs.len(),
{
    if vs.len() > 0 {
        lemma_pushed_len(l, vs.drop_last(), at);
    }
}

/// The commands that change a list leave no empty one behind: a list goes with
/// its last element.
pub proof fn law_no_empty_list_stays(
    c: CtxV,
    at: ListPosition,
    to: ListPosition,
    only_existing: bool,
    name: Seq<char>,
    src: Seq<u8>,
    dst: Seq<u8>,
    count: int,
)
    requires
        no_empty_lists(c.db),
    ensures
        no_empty_lists(push_outcome(c, at, only_existing, name).ctx.db),
        no_empty_lists(pop_outcome(c, at).ctx.db),
        no_empty_lists(linsert_outcome(c).ctx.db),
        no_empty_lists(lset_outcome(c).ctx.db),
        no_empty_lists(ltrim_outcome(c).ctx.db),
        no_empty_lists(lrem_outcome(c).ctx.db),
        no_empty_lists(move_outcome(c, src, dst, at, to).ctx.db),
        count > 0 && (list_in(c.db, src) matches Ok(Some(_))) ==> no_empty_lists(
            range_popped(c, src, at, count).ctx.db,
        ),
{
    lemma_push_leaves_none_empty(c, at, only_existing, name);
    lemma_pop_leaves_none_empty(c, at);
    lemma_edit_leaves_none_empty(c);
    lemma_removal_leaves_none_empty(c);
    lemma_move_leaves_none_empty(c, src, dst, at, to);
    if count > 0 && (list_in(c.db, src) matches Ok(Some(_))) {
        lemma_range_pop_leaves_none_empty(c, src, at, count);
    }
}

proof fn lemma_push_leaves_none_empty(
    c: CtxV,
    at: ListPosition,
    only_existing: bool,
    name: Seq<char>,
)
    requires
        no_empty_lists(c.db),
    ensures
        no_empty_lists(push_outcome(c, at, only_existing, name).ctx.db),
{
    let db = push_outcome(c, at, only_existing, name).ctx.db;
    let vs = c.client.argv.skip(2);
    assert forall|k: Seq<u8>| (#[trigger] list_in(db, k) matches Ok(Some(l)) ==> l.len() > 0) by {
        lemma_pushed_len(Seq::empty(), vs, at);
        if let Ok(Some(l)) = list_in(c.db, c.client.argv[1]) {
            lemma_pushed_len(l, vs, at);
        }
        assert(list_in(c.db, k) matches Ok(Some(l)) ==> l.len() > 0);
    }
}

proof fn lemma_pop_leaves_none_empty(c: CtxV, at: ListPosition)
    requires
        no_empty_lists(c.db),
    ensures
        no_empty_lists(pop_outcome(c, at).ctx.db),
{
    let db = pop_outcome(c, at).ctx.db;
    assert forall|k: Seq<u8>| (#[trigger] list_in(db, k) matches Ok(Some(l)) ==> l.len() > 0) by {
        assert(list_in(c.db, k) matches Ok(Some(l)) ==> l.len() > 0);
    }
}

proof fn lemma_range_pop_leaves_none_empty(c: CtxV, key: Seq<u8>, at: ListPosition, count: int)
    requires
        no_empty_lists(c.db),
        list_in(c.db, key) matches Ok(Some(_)),
    ensures
        no_empty_lists(range_popped(c, key, at, count).ctx.db),
{
    let db = range_popped(c, key, at, count).ctx.db;
    assert forall|k: Seq<u8>| (#[trigger] list_in(db, k) matches Ok(Some(l)) ==> l.len() > 0) by {
        assert(list_in(c.db, k) matches Ok(Some(l)) ==> l.len() > 0);
    }
}

proof fn lemma_edit_leaves_none_empty(c: CtxV)
    requires
        no_empty_lists(c.db),
    ensures
        no_empty_lists(linsert_outcome(c).ctx.db),
        no_empty_lists(lset_outcome(c).ctx.db),
{
    let db = linsert_outcome(c).ctx.db;
    assert forall|k: Seq<u8>| (#[trigger] list_in(db, k) matches Ok(Some(l)) ==> l.len() > 0) by {
        assert(list_in(c.db, k) matches Ok(Some(l)) ==> l.len() > 0);
        if let Ok(Some(l)) = list_in(c.db, c.client.argv[1]) {
            lemma_first_at(l, c.client.argv[3], 0);
        }
    }
    let db2 = lset_outcome(c).ctx.db;
    assert forall|k: Seq<u8>| (#[trigger] list_in(db2, k) matches Ok(Some(l)) ==> l.len() > 0) by {
        assert(list_in(c.db, k) matches Ok(Some(l)) ==> l.len() > 0);
    }
}

proof fn lemma_removal_leaves_none_empty(c: CtxV)
    requires
        no_empty_lists(c.db),
    ensures
        no_empty_lists(ltrim_outcome(c).ctx.db),
        no_empty_lists(lrem_outcome(c).ctx.db),
{
    let db = ltrim_outcome(c).ctx.db;
    assert forall|k: Seq<u8>| (#[trigger] list_in(db, k) matches Ok(Some(l)) ==> l.len() > 0) by {
        assert(list_in(c.db, k) matches Ok(Some(l)) ==> l.len() > 0);
    }
    let db2 = lrem_outcome(c).ctx.db;
    assert forall|k: Seq<u8>| (#[trigger] list_in(db2, k) matches Ok(Some(l)) ==> l.len() > 0) by {
        assert(list_in(c.db, k) matches Ok(Some(l)) ==> l.len() > 0);
    }
}

proof fn lemma_move_leaves_none_empty(
    c: CtxV,
    src: Seq<u8>,
    dst: Seq<u8>,
    from: ListPosition,
    to: ListPosition,
)
    requires
        no_empty_lists(c.db),
    ensures
        no_empty_lists(move_outcome(c, src, dst, from, to).ctx.db),
{
    let db = move_outcome(c, src, dst, from, to).ctx.db;
    assert forall|k: Seq<u8>| (#[trigger] list_in(db, k) matches Ok(Some(l)) ==> l.len() > 0) by {
        assert(list_in(c.db, k) matches Ok(Some(l)) ==> l.len() > 0);
        assert(list_in(c.db, dst) matches Ok(Some(l)) ==> l.len() > 0);
    }
}

/// Where a first position is found, it is one, and none comes before it.
proof fn lemma_first_at(l: Seq<Seq<u8>>, v: Seq<u8>, from: int)
    requires
        0 <= from,
    ensures
        match first_at(l, v, from) {
            Some(p) => from <= p < l.len() && l[p] == v && forall|i: int|
                from <= i < p ==> #[trigger] l[i] != v,
            None => forall|i: int| from <= i < l.len() ==> #[trigger] l[i] != v,
        },
    decreases l.len() - from,
{
    if from < l.len() && l[from] != v {
        lemma_first_at(l, v, from + 1);
    }
}

/// What was pushed last at an end is what a pop there takes; and where one
/// element was pushed, the pop leaves the list as it was, or no list where there
/// was none.
pub proof fn law_pop_takes_what_was_pushed(c: CtxV, at: ListPosition, name: Seq<char>, cmd: Seq<u8>)
    requires
        c.client.argv.len() >= 3,
        list_in(c.db, c.client.argv[1]) is Ok,
        list_in(c.db, c.client.argv[1]) matches Ok(Some(l)) ==> l.len() > 0,
    ensures
        ({
            let key = c.client.argv[1];
            let after = push_outcome(c, at, false, name).ctx;
            let end = pop_outcome(with_argv(after, seq![cmd, key]), at);
            &&& end.result is Ok
            &&& end.ctx.replies == after.replies.push(Tok::Bulk(c.client.argv.last()))
            &&& c.client.argv.len() == 3 ==> list_in(end.ctx.db, key) == list_in(c.db, key)
        }),
{
    let argv = c.client.argv;
    let key = argv[1];
    let vs = argv.skip(2);
    let after = push_outcome(c, at, false, name).ctx;
    let was = match list_in(c.db, key)->Ok_0 {
        Some(l) => l,
        None => Seq::empty(),
    };
    let now = pushed_all(was, vs, at);
    lemma_pushed_len(was, vs, at);
    let before = pushed_all(was, vs.drop_last(), at);
    assert(now == pushed(before, vs.last(), at));
    crate::list_type::law_pop_undoes_push(before, vs.last(), at);
    assert(list_in(after.db, key) == Ok::<_, ErrV>(Some(now)));
    let end = pop_outcome(with_argv(after, seq![cmd, key]), at);
    assert(end.ctx.replies =~= after.replies.push(Tok::Bulk(argv.last())));
    if argv.len() == 3 {
        assert(vs.drop_last() =~= Seq::empty());
        assert(before == was);
        assert(crate::list::left_of(now, 1, at) =~= was);
    }
}

/// After a push the length is that of before plus the number of elements.
pub proof fn law_push_grows(c: CtxV, at: ListPosition, name: Seq<char>)
    requires
        c.client.argv.len() >= 3,
        list_in(c.db, c.client.argv[1]) is Ok,
    ensures
        ({
            let key = c.client.argv[1];
            let was = match list_in(c.db, key)->Ok_0 {
                Some(l) => l.len(),
                None => 0,
            };
            let after = push_outcome(c, at, false, name).ctx;
            &&& list_in(after.db, key) matches Ok(Some(l)) && l.len() == was + c.client.argv.len()
                - 2
        }),
{
    let vs = c.client.argv.skip(2);
    lemma_pushed_len(Seq::empty(), vs, at);
    if let Ok(Some(l)) = list_in(c.db, c.client.argv[1]) {
        lemma_pushed_len(l, vs, at);
    }
}

/// An element that LSET stored is the one that LINDEX finds at that index, and
/// the other elements stay.
pub proof fn law_index_after_set(c: CtxV, cmd: Seq<u8>)
    requires
        lset_outcome(c).result is Ok,
    ensures
        ({
            let argv = c.client.argv;
            let after = lset_outcome(c).ctx;
            let found = lindex_outcome(with_argv(after, seq![cmd, argv[1], argv[2]]));
            let was = list_in(c.db, argv[1])->Ok_0->0;
            let now = list_in(after.db, argv[1])->Ok_0->0;
            let p = seek(was.len(), i64_of(argv[2])->0 as int)->0;
            &&& found.result is Ok
            &&& found.ctx.replies == after.replies.push(Tok::Bulk(argv[3]))
            &&& now.len() == was.len()
            &&& forall|i: int| 0 <= i < was.len() && i != p ==> #[trigger] now[i] == was[i]
        }),
{
    let argv = c.client.argv;
    let after = lset_outcome(c).ctx;
    let found = lindex_outcome(with_argv(after, seq![cmd, argv[1], argv[2]]));
    assert(found.ctx.replies =~= after.replies.push(Tok::Bulk(argv[3])));
}

/// The range from the first to the last index is the whole list, and a range of
/// a list is a part of it that lies together.
pub proof fn law_whole_range(l: Seq<Seq<u8>>, start: int, end: int)
    ensures
        in_range(l, 0, -1) == l,
        exists|from: int, to: int|
            0 <= from <= to <= l.len() && in_range(l, start, end) == #[trigger] l.subrange(from, to),
{
    assert(in_range(l, 0, -1) =~= l);
    let p = crate::list_range::span(l.len(), start, end);
    assert(in_range(l, start, end) == l.subrange(p.0, p.1));
}

/// What LTRIM leaves is what LRANGE with the same indexes shows; a list of which
/// nothing is left goes.
pub proof fn law_trim_keeps_the_range(c: CtxV)
    requires
        c.client.argv.len() == 4,
        ltrim_outcome(c).result is Ok,
        list_in(c.db, c.client.argv[1]) matches Ok(Some(_)),
    ensures
        ({
            let key = c.client.argv[1];
            let after = ltrim_outcome(c).ctx;
            let l = list_in(c.db, key)->Ok_0->0;
            let kept = in_range(
                l,
                i64_of(c.client.argv[2])->0 as int,
                i64_of(c.client.argv[3])->0 as int,
            );
            &&& lrange_outcome(c).ctx.replies == c.replies + bulk_array(kept)
            &&& list_in(after.db, key) == Ok::<_, ErrV>(
                if kept.len() == 0 {
                    None
                } else {
                    Some(kept)
                },
            )
        }),
{
}

/// A count of zero leaves exactly the elements that are different, in their
/// order.
pub proof fn law_remove_all(l: Seq<Seq<u8>>, v: Seq<u8>)
    ensures
        lremoved(l, v, 0) == l.filter(|x: Seq<u8>| x != v),
{
    lemma_remove_all(l, v, l.len() as int);
}

/// With a large enough count the elements that are different are left.
proof fn lemma_remove_all(l: Seq<Seq<u8>>, v: Seq<u8>, n: int)
    requires
        n >= l.len(),
    ensures
        removed_from_head(l, v, n) == l.filter(|x: Seq<u8>| x != v),
    decreases l.len(),
{
    let p = |x: Seq<u8>| x != v;
    reveal(Seq::filter);
    if l.len() > 0 {
        lemma_remove_all(l.skip(1), v, n);
        lemma_remove_all(l.skip(1), v, n - 1);
        assert(seq![l[0]] + l.skip(1) =~= l);
        Seq::filter_distributes_over_add(seq![l[0]], l.skip(1), p);
        assert(seq![l[0]].drop_last() =~= Seq::empty());
        assert(Seq::<Seq<u8>>::empty().filter(p) =~= Seq::empty());
        assert(seq![l[0]].last() == l[0]);
        assert(seq![l[0]].filter(p) =~= if l[0] != v {
            seq![l[0]]
        } else {
            Seq::empty()
        });
        assert(Seq::<Seq<u8>>::empty() + l.skip(1).filter(p) =~= l.skip(1).filter(p));
    } else {
        assert(l.filter(p) =~= l);
    }
}

/// How often an element stands in a list.
pub open spec fn occurrences(l: Seq<Seq<u8>>, v: Seq<u8>) -> nat {
    l.to_multiset().count(v)
}

/// One more element in front.
proof fn lemma_occurrences_cons(x: Seq<u8>, l: Seq<Seq<u8>>, v: Seq<u8>)
    ensures
        occurrences(seq![x] + l, v) == occurrences(l, v) + if x == v {
            1nat
        } else {
            0nat
        },
        occurrences(l.push(x), v) == occurrences(l, v) + if x == v {
            1nat
        } else {
            0nat
        },
{
    broadcast use vstd::seq_lib::group_to_multiset_ensures;

    vstd::seq_lib::lemma_multiset_commutative(seq![x], l);
    assert(seq![x] =~= Seq::<Seq<u8>>::empty().push(x));
}

/// How many elements LREM removes: all of them for a count of zero, and
/// otherwise as many as the count says, if there are so many. No other element
/// leaves.
pub proof fn law_remove_counts(l: Seq<Seq<u8>>, v: Seq<u8>, other: Seq<u8>, count: int)
    requires
        other != v,
    ensures
        occurrences(lremoved(l, v, count), v) == if count == 0 {
            0
        } else {
            let most = if count < 0 {
                -count
            } else {
                count
            };
            (occurrences(l, v) - at_most(most, occurrences(l, v))) as nat
        },
        occurrences(lremoved(l, v, count), other) == occurrences(l, other),
{
    lemma_occurrences_bounded(l, v);
    if count < 0 {
        lemma_remove_counts(l, v, other, -count);
    } else if count == 0 {
        lemma_remove_counts(l, v, other, l.len() as int);
    } else {
        lemma_remove_counts(l, v, other, count);
    }
}

/// An element stands no more often in a list than the list is long.
proof fn lemma_occurrences_bounded(l: Seq<Seq<u8>>, v: Seq<u8>)
    ensures
        occurrences(l, v) <= l.len(),
    decreases l.len(),
{
    if l.len() > 0 {
        lemma_occurrences_bounded(l.skip(1), v);
        lemma_occurrences_cons(l[0], l.skip(1), v);
        assert(seq![l[0]] + l.skip(1) =~= l);
    } else {
        broadcast use vstd::seq_lib::group_to_multiset_ensures;

        assert(l.to_multiset().len() == 0);
        assert(!l.contains(v));
    }
}

/// How many elements a removal from either end takes.
proof fn lemma_remove_counts(l: Seq<Seq<u8>>, v: Seq<u8>, other: Seq<u8>, n: int)
    requires
        other != v,
        n >= 0,
    ensures
        occurrences(removed_from_head(l, v, n), v) == occurrences(l, v) - at_most(
            n,
            occurrences(l, v),
        ),
        occurrences(removed_from_tail(l, v, n), v) == occurrences(l, v) - at_most(
            n,
            occurrences(l, v),
        ),
        occurrences(removed_from_head(l, v, n), other) == occurrences(l, other),
        occurrences(removed_from_tail(l, v, n), other) == occurrences(l, other),
    decreases l.len(),
{
    if l.len() == 0 {
        lemma_occurrences_bounded(l, v);
    } else if n > 0 {
        let t = l.skip(1);
        let i = l.drop_last();
        lemma_remove_counts(t, v, other, n);
        lemma_remove_counts(t, v, other, n - 1);
        lemma_remove_counts(i, v, other, n);
        lemma_remove_counts(i, v, other, n - 1);
        assert(seq![l[0]] + t =~= l);
        assert(i.push(l.last()) =~= l);
        lemma_occurrences_cons(l[0], t, v);
        lemma_occurrences_cons(l[0], t, other);
        lemma_occurrences_cons(l.last(), i, v);
        lemma_occurrences_cons(l.last(), i, other);
        lemma_occurrences_cons(l[0], removed_from_head(t, v, n), v);
        lemma_occurrences_cons(l[0], removed_from_head(t, v, n), other);
        lemma_occurrences_cons(l.last(), removed_from_tail(i, v, n), v);
        lemma_occurrences_cons(l.last(), removed_from_tail(i, v, n), other);
    }
}

/// Where LPOS is asked for one position, it answers with the first one of the
/// element, or with none where the element is missing.
pub proof fn law_lpos_finds_the_first(l: Seq<Seq<u8>>, v: Seq<u8>)
    ensures
        match first_at(l, v, 0) {
            Some(p) => lpos_answers(l, v, lpos_default()) == seq![p],
            None => lpos_answers(l, v, lpos_default()).len() == 0,
        },
{
    lemma_first_at(l, v, 0);
    let h = hits(l, v, true, l.len());
    lemma_hits_forward(l, v, l.len());
    assert(h.skip(0) =~= h);
    match first_at(l, v, 0) {
        Some(p) => {
            assert(lpos_answers(l, v, lpos_default()) =~= seq![p]);
        },
        None => {},
    }
}

/// The matches from the head: the first of them is the first position.
proof fn lemma_hits_forward(l: Seq<Seq<u8>>, v: Seq<u8>, k: nat)
    requires
        k <= l.len(),
    ensures
        hits(l, v, true, k).len() == 0 <==> (forall|i: int| 0 <= i < k ==> #[trigger] l[i] != v),
        hits(l, v, true, k).len() > 0 ==> {
            let p = hits(l, v, true, k)[0];
            &&& 0 <= p < k
            &&& l[p] == v
            &&& forall|i: int| 0 <= i < p ==> #[trigger] l[i] != v
        },
    decreases k,
{
    if k > 0 {
        lemma_hits_forward(l, v, (k - 1) as nat);
    }
}

/// Every position that LPOS answers with holds the element.
pub proof fn law_lpos_answers_are_matches(l: Seq<Seq<u8>>, v: Seq<u8>, a: LposArgs, i: int)
    requires
        a.rank != 0,
        a.maxlen >= 0,
        a.count matches Some(n) ==> n >= 0,
        0 <= i < lpos_answers(l, v, a).len(),
    ensures
        0 <= lpos_answers(l, v, a)[i] < l.len(),
        l[lpos_answers(l, v, a)[i]] == v,
{
    let forward = a.rank > 0;
    let n = if a.maxlen == 0 {
        l.len() as int
    } else {
        at_most(a.maxlen as int, l.len())
    };
    let rank = if forward {
        a.rank as int
    } else {
        -a.rank
    };
    let h = hits(l, v, forward, n as nat);
    lemma_hits_match(l, v, forward, n as nat, rank - 1 + i);
}

/// Every match is a position of the element.
proof fn lemma_hits_match(l: Seq<Seq<u8>>, v: Seq<u8>, forward: bool, k: nat, i: int)
    requires
        k <= l.len(),
        0 <= i < hits(l, v, forward, k).len(),
    ensures
        0 <= hits(l, v, forward, k)[i] < l.len(),
        l[hits(l, v, forward, k)[i]] == v,
    decreases k,
{
    if k > 0 && i < hits(l, v, forward, (k - 1) as nat).len() {
        lemma_hits_match(l, v, forward, (k - 1) as nat, i);
    }
}

/// The elements under a key, none where there is no list.
pub open spec fn elements(d: DbV, key: Seq<u8>) -> Seq<Seq<u8>> {
    match list_in(d, key) {
        Ok(Some(l)) => l,
        _ => Seq::empty(),
    }
}

/// A move between two lists takes the element from one and puts it in the other:
/// nothing is lost and nothing is doubled. The element is the reply.
pub proof fn law_move_keeps_the_elements(
    c: CtxV,
    src: Seq<u8>,
    dst: Seq<u8>,
    from: ListPosition,
    to: ListPosition,
    v: Seq<u8>,
)
    requires
        src != dst,
        elements(c.db, src).len() > 0,
        list_in(c.db, dst) is Ok,
    ensures
        ({
            let o = move_outcome(c, src, dst, from, to);
            &&& o.result is Ok
            &&& o.ctx.replies == c.replies.push(Tok::Bulk(end_of(elements(c.db, src), from)))
            &&& elements(o.ctx.db, src) == popped(elements(c.db, src), from)
            &&& elements(o.ctx.db, dst) == pushed(
                elements(c.db, dst),
                end_of(elements(c.db, src), from),
                to,
            )
            &&& occurrences(elements(o.ctx.db, src), v) + occurrences(elements(o.ctx.db, dst), v)
                == occurrences(elements(c.db, src), v) + occurrences(elements(c.db, dst), v)
        }),
{
    let o = move_outcome(c, src, dst, from, to);
    let s = elements(c.db, src);
    let d = elements(c.db, dst);
    let x = end_of(s, from);
    assert(o.ctx.replies =~= c.replies.push(Tok::Bulk(x)));
    if list_in(c.db, dst) == Ok::<Option<Seq<Seq<u8>>>, ErrV>(None) {
        assert(pushed(d, x, to) =~= seq![x]);
    }
    assert(elements(o.ctx.db, src) =~= popped(s, from));
    assert(elements(o.ctx.db, dst) =~= pushed(d, x, to));
    lemma_occurrences_cons(x, d, v);
    lemma_occurrences_cons(x, popped(s, from), v);
    match from {
        ListPosition::Head => {
            assert(seq![x] + popped(s, from) =~= s);
        },
        ListPosition::Tail => {
            assert(popped(s, from).push(x) =~= s);
        },
    }
}

/// A move from the tail to the head of one list turns it by one element.
pub proof fn law_move_rotates(c: CtxV, key: Seq<u8>)
    requires
        elements(c.db, key).len() > 0,
    ensures
        ({
            let o = move_outcome(c, key, key, ListPosition::Tail, ListPosition::Head);
            let l = elements(c.db, key);
            &&& o.result is Ok
            &&& elements(o.ctx.db, key) == seq![l.last()] + l.drop_last()
        }),
{
    let o = move_outcome(c, key, key, ListPosition::Tail, ListPosition::Head);
    let l = elements(c.db, key);
    assert(elements(o.ctx.db, key) =~= seq![l.last()] + l.drop_last());
}

} // verus!
