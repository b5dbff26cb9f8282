//! What the commands on consumer groups do, from their arguments to the group and
//! the reply.

use vstd::prelude::*;

use crate::bytes::{i64_of, is_word, text};
use crate::context::CtxV;
use crate::entry_laws::{begins_as_id, law_ids_are_numbers, lemma_filter_ascends, num};
use crate::error::ErrV;
use crate::filters::{
    lemma_filter_all, lemma_filter_both, lemma_filter_keeps, lemma_filter_remove, lemma_filter_same,
};
use crate::keyspace::{stream_in, ObjV};
use crate::reply::Tok;
use crate::stream::id_list;
use crate::stream_claim::{
    autoclaim_options, autoclaims, autoclaims_one, claim_ids_end, claim_options, claims_all,
    claims_one, no_claim_options, xautoclaim_outcome, xclaim_outcome, Claim, ClaimV,
};
use crate::stream_data::{
    entries_ascend, entry_rank, group_ascends, has_entry, id_le, id_lt, id_of, id_text,
    lemma_entry_rank, lemma_pel_drop, lemma_pel_put, lemma_pel_rank, mirrored, pel_added,
    pel_ascends, pel_at, pel_drop, pel_has, pel_put, pel_rank, pel_reassigned, pel_removed, touched,
    zero_id, EntryV, GroupV, PelEntry, StreamId, StreamV,
};
use crate::stream_groups::{
    acked_all, group_read_new, group_starts, new_entries, pends_reads, raised, raises_each,
    reads_all, with_group, xack_outcome, xreadgroup_outcome, GroupRead,
};
use crate::stream_laws::{lemma_pends_reads_stays, lemma_read_all_last};
use crate::stream_parse::read_options;
use crate::stream_wake::{activated, entries_toks};
use crate::string_laws::answers;
use crate::words::{lemma_word, lemma_words_differ};

verus! {

// ---------------------------------------------------------------------------
// What is pending
// ---------------------------------------------------------------------------

/// Whether a consumer of a group owes an acknowledgement.
pub open spec fn owes(g: GroupV, consumer: Seq<u8>, p: PelEntry) -> bool {
    g.consumers.contains_key(consumer) && g.consumers[consumer].pel.contains(p)
}

/// Whether two groups have the same of an ID: the same is pending, for the same
/// consumers, delivered at the same time and as often.
pub open spec fn same_of(g: GroupV, h: GroupV, id: StreamId) -> bool {
    forall|p: PelEntry|
        p.entry_id == id ==> (#[trigger] g.pel.contains(p) <==> h.pel.contains(p)) && forall|
            k: Seq<u8>,
        | #[trigger] owes(g, k, p) <==> owes(h, k, p)
}

proof fn lemma_same_trans(a: GroupV, b: GroupV, d: GroupV, id: StreamId)
    requires
        same_of(a, b, id),
        same_of(b, d, id),
    ensures
        same_of(a, d, id),
{
    assert forall|p: PelEntry| p.entry_id == id implies (#[trigger] a.pel.contains(p)
        <==> d.pel.contains(p)) && forall|k: Seq<u8>| #[trigger] owes(a, k, p) <==> owes(d, k, p) by {
        assert(a.pel.contains(p) <==> b.pel.contains(p));
        assert(b.pel.contains(p) <==> d.pel.contains(p));
        assert forall|k: Seq<u8>| #[trigger] owes(a, k, p) <==> owes(d, k, p) by {
            assert(owes(a, k, p) <==> owes(b, k, p));
        }
    }
}

proof fn lemma_member(s: Seq<PelEntry>, p: PelEntry)
    requires
        pel_ascends(s),
    ensures
        s.contains(p) ==> pel_has(s, p.entry_id) && pel_at(s, p.entry_id) == p,
        pel_has(s, p.entry_id) ==> s.contains(pel_at(s, p.entry_id)) && pel_at(
            s,
            p.entry_id,
        ).entry_id == p.entry_id,
{
    lemma_pel_rank(s, p.entry_id);
    let r = pel_rank(s, p.entry_id);
    if s.contains(p) {
        let i = s.index_of(p);
        if i < r {
            assert(id_lt(s[i].entry_id, p.entry_id));
        }
        if r < i {
            assert(id_lt(s[r].entry_id, s[i].entry_id));
            assert(id_le(p.entry_id, s[r].entry_id));
        }
        assert(s[i].entry_id == p.entry_id);
    }
}

proof fn lemma_put(s: Seq<PelEntry>, e: PelEntry)
    requires
        pel_ascends(s),
    ensures
        pel_ascends(pel_put(s, e)),
        forall|p: PelEntry|
            #[trigger] pel_put(s, e).contains(p) <==> p == e || (s.contains(p) && p.entry_id
                != e.entry_id),
{
    lemma_pel_put(s, e);
    assert forall|p: PelEntry|
        #[trigger] pel_put(s, e).contains(p) <==> p == e || (s.contains(p) && p.entry_id
            != e.entry_id) by {
        lemma_member(pel_put(s, e), p);
        lemma_member(s, p);
        lemma_member(pel_put(s, e), e);
    }
}

proof fn lemma_drop(s: Seq<PelEntry>, id: StreamId)
    requires
        pel_ascends(s),
    ensures
        pel_ascends(pel_drop(s, id)),
        forall|p: PelEntry|
            #[trigger] pel_drop(s, id).contains(p) <==> s.contains(p) && p.entry_id != id,
{
    lemma_pel_drop(s, id);
    assert forall|p: PelEntry|
        #[trigger] pel_drop(s, id).contains(p) <==> s.contains(p) && p.entry_id != id by {
        lemma_member(pel_drop(s, id), p);
        lemma_member(s, p);
    }
}

/// What handing a pending entry to a consumer leaves.
proof fn lemma_reassigned(g: GroupV, e: PelEntry, owner: Seq<u8>)
    requires
        group_ascends(g),
        g.consumers.contains_key(owner),
    ensures
        ({
            let h = pel_reassigned(g, e, owner);
            &&& group_ascends(h)
            &&& h.consumers.dom() == g.consumers.dom()
            &&& forall|p: PelEntry|
                #[trigger] h.pel.contains(p) <==> p == e || (g.pel.contains(p) && p.entry_id
                    != e.entry_id)
            &&& forall|k: Seq<u8>, p: PelEntry|
                #[trigger] owes(h, k, p) <==> if p.entry_id == e.entry_id {
                    k == owner && p == e
                } else {
                    owes(g, k, p)
                }
        }),
{
    let h = pel_reassigned(g, e, owner);
    lemma_put(g.pel, e);
    assert(h.consumers.dom() =~= g.consumers.dom());
    assert forall|k: Seq<u8>| #[trigger] h.consumers.contains_key(k) implies pel_ascends(
        h.consumers[k].pel,
    ) by {
        assert(g.consumers.contains_key(k));
        lemma_put(g.consumers[k].pel, e);
        lemma_drop(g.consumers[k].pel, e.entry_id);
    }
    assert forall|k: Seq<u8>, p: PelEntry|
        #[trigger] owes(h, k, p) <==> if p.entry_id == e.entry_id {
            k == owner && p == e
        } else {
            owes(g, k, p)
        } by {
        if g.consumers.contains_key(k) {
            lemma_put(g.consumers[k].pel, e);
            lemma_drop(g.consumers[k].pel, e.entry_id);
        }
    }
}

/// What an acknowledgement leaves.
proof fn lemma_removed(g: GroupV, id: StreamId)
    requires
        group_ascends(g),
    ensures
        ({
            let h = pel_removed(g, id);
            &&& group_ascends(h)
            &&& h.consumers.dom() == g.consumers.dom()
            &&& forall|p: PelEntry|
                #[trigger] h.pel.contains(p) <==> g.pel.contains(p) && p.entry_id != id
            &&& forall|k: Seq<u8>, p: PelEntry|
                p.entry_id != id || pel_has(g.pel, id) ==> (#[trigger] owes(h, k, p) <==> owes(
                    g,
                    k,
                    p,
                ) && p.entry_id != id)
        }),
{
    let h = pel_removed(g, id);
    lemma_drop(g.pel, id);
    assert(h.consumers.dom() =~= g.consumers.dom());
    assert forall|k: Seq<u8>| #[trigger] h.consumers.contains_key(k) implies pel_ascends(
        h.consumers[k].pel,
    ) by {
        assert(g.consumers.contains_key(k));
        lemma_drop(g.consumers[k].pel, id);
    }
    assert forall|k: Seq<u8>, p: PelEntry| p.entry_id != id || pel_has(g.pel, id) implies (
    #[trigger] owes(h, k, p) <==> owes(g, k, p) && p.entry_id != id) by {
        if g.consumers.contains_key(k) {
            lemma_drop(g.consumers[k].pel, id);
        }
    }
    assert forall|p: PelEntry| #[trigger] h.pel.contains(p) <==> g.pel.contains(p) && p.entry_id
        != id by {
        lemma_member(g.pel, p);
    }
}

/// A request of a consumer changes nothing that is pending.
proof fn lemma_seen(g: GroupV, consumer: Seq<u8>, now: i64, id: StreamId)
    requires
        group_ascends(g),
    ensures
        ({
            let t = touched(g, consumer, now);
            let h = activated(t, consumer, now);
            &&& group_ascends(t)
            &&& group_ascends(h)
            &&& h.consumers.contains_key(consumer)
            &&& t.consumers.contains_key(consumer)
            &&& h.pel == g.pel
            &&& t.pel == g.pel
            &&& same_of(g, h, id)
            &&& same_of(g, t, id)
        }),
{
    let t = touched(g, consumer, now);
    let h = activated(t, consumer, now);
    assert forall|k: Seq<u8>| #[trigger] t.consumers.contains_key(k) implies pel_ascends(
        t.consumers[k].pel,
    ) by {
        if k != consumer {
            assert(g.consumers.contains_key(k));
        }
    }
    assert forall|k: Seq<u8>| #[trigger] h.consumers.contains_key(k) implies pel_ascends(
        h.consumers[k].pel,
    ) by {
        assert(t.consumers.contains_key(k));
    }
}

// ---------------------------------------------------------------------------
// XCLAIM
// ---------------------------------------------------------------------------

/// Whether an ID is pending and was delivered at least so long ago.
pub open spec fn due(g: GroupV, id: StreamId, now: int, min_idle: int) -> bool {
    exists|p: PelEntry| #[trigger] g.pel.contains(p) && p.entry_id == id && now
        - p.delivery_time_ms >= min_idle
}

proof fn lemma_claim_step(st: ClaimV, entries: Seq<EntryV>, id: StreamId, q: Claim, other: StreamId)
    requires
        group_ascends(st.group),
        st.group.consumers.contains_key(q.consumer),
        q.min_idle >= 0,
        !q.opts.force,
    ensures
        ({
            let a = claims_one(st, entries, id, q);
            &&& group_ascends(a.group)
            &&& a.group.consumers.contains_key(q.consumer)
            &&& other != id || !due(st.group, id, q.now as int, q.min_idle as int) ==> same_of(
                st.group,
                a.group,
                other,
            )
            &&& !due(st.group, id, q.now as int, q.min_idle as int) ==> a == st
        }),
{
    let pending = pel_has(st.group.pel, id);
    let p = pel_at(st.group.pel, id);
    let any = PelEntry { entry_id: id, delivery_time_ms: 0, delivery_count: 0 };
    lemma_member(st.group.pel, any);
    if pending {
        lemma_removed(st.group, id);
        let e = PelEntry {
            entry_id: id,
            delivery_time_ms: crate::stream_claim::claim_time(q.now, q.opts),
            delivery_count: match q.opts.retrycount {
                Some(n) => n,
                None => if q.opts.justid {
                    p.delivery_count
                } else {
                    raised(p.delivery_count)
                },
            },
        };
        lemma_reassigned(st.group, e, q.consumer);
        if !due(st.group, id, q.now as int, q.min_idle as int) {
            assert(st.group.pel.contains(p));
        }
    }
}

proof fn lemma_claims(
    st: ClaimV,
    entries: Seq<EntryV>,
    ids: Seq<StreamId>,
    q: Claim,
    other: StreamId,
)
    requires
        group_ascends(st.group),
        st.group.consumers.contains_key(q.consumer),
        q.min_idle >= 0,
        !q.opts.force,
    ensures
        ({
            let a = claims_all(st, entries, ids, q);
            &&& group_ascends(a.group)
            &&& a.group.consumers.contains_key(q.consumer)
            &&& !ids.contains(other) || !due(st.group, other, q.now as int, q.min_idle as int)
                ==> same_of(st.group, a.group, other)
        }),
    decreases ids.len(),
{
    if ids.len() > 0 {
        let before = ids.drop_last();
        let id = ids.last();
        let b = claims_all(st, entries, before, q);
        lemma_claims(st, entries, before, q, other);
        lemma_claim_step(b, entries, id, q, other);
        if before.contains(other) {
            let i = before.index_of(other);
            assert(ids[i] == other);
        }
        assert(ids[ids.len() - 1] == id);
        if other == id && !due(st.group, other, q.now as int, q.min_idle as int) {
            assert(same_of(st.group, b.group, other));
            if due(b.group, id, q.now as int, q.min_idle as int) {
                let p = choose|p: PelEntry| #[trigger]
                    b.group.pel.contains(p) && p.entry_id == id && q.now - p.delivery_time_ms
                        >= q.min_idle;
                assert(st.group.pel.contains(p));
            }
        }
    }
}

/// The IDs of XCLAIM end where the arguments do, when all of them begin as IDs.
proof fn lemma_claim_ids(argv: Seq<Seq<u8>>, i: int)
    requires
        0 <= i <= argv.len(),
        forall|j: int| i <= j < argv.len() ==> begins_as_id(#[trigger] argv[j]),
    ensures
        claim_ids_end(argv, i) == argv.len(),
    decreases argv.len() - i,
{
    if i < argv.len() {
        let a = argv[i];
        assert(begins_as_id(a));
        reveal_strlit("IDLE");
        reveal_strlit("TIME");
        reveal_strlit("RETRYCOUNT");
        reveal_strlit("FORCE");
        reveal_strlit("JUSTID");
        reveal_strlit("LASTID");
        lemma_word(a, "IDLE"@);
        lemma_word(a, "TIME"@);
        lemma_word(a, "RETRYCOUNT"@);
        lemma_word(a, "FORCE"@);
        lemma_word(a, "JUSTID"@);
        lemma_word(a, "LASTID"@);
        assert("IDLE"@[0] == 'I' && "TIME"@[0] == 'T' && "RETRYCOUNT"@[0] == 'R' && "FORCE"@[0]
            == 'F' && "JUSTID"@[0] == 'J' && "LASTID"@[0] == 'L');
        lemma_claim_ids(argv, i + 1);
    }
}

proof fn lemma_ids(args: Seq<Seq<u8>>, ids: Seq<StreamId>)
    requires
        args.len() == ids.len(),
        forall|i: int| 0 <= i < args.len() ==> id_of(#[trigger] args[i], 0) == Some(ids[i]),
    ensures
        id_list(args) == Ok::<_, ErrV>(ids),
    decreases args.len(),
{
    if args.len() == 0 {
        assert(ids =~= Seq::empty());
    } else {
        let (a, b) = (args.drop_last(), ids.drop_last());
        assert forall|i: int| 0 <= i < a.len() implies id_of(#[trigger] a[i], 0) == Some(b[i]) by {
            assert(a[i] == args[i]);
        }
        lemma_ids(a, b);
        assert(id_of(args[args.len() - 1], 0) == Some(ids[ids.len() - 1]));
        assert(b.push(ids.last()) =~= ids);
    }
}

/// A well-formed XCLAIM without options: the group, the new owner, how long an
/// entry must have been pending, and IDs.
pub open spec fn is_claim(c: CtxV, s: StreamV, m: i64, ids: Seq<StreamId>) -> bool {
    let argv = c.client.argv;
    &&& argv.len() == 5 + ids.len()
    &&& ids.len() > 0
    &&& i64_of(argv[4]) == Some(m)
    &&& m >= 0
    &&& forall|i: int|
        0 <= i < ids.len() ==> begins_as_id(#[trigger] argv[5 + i]) && id_of(argv[5 + i], 0) == Some(
            ids[i],
        )
    &&& stream_in(c.db, argv[1]) == Ok::<_, ErrV>(Some(s))
    &&& s.groups.contains_key(argv[2])
    &&& group_ascends(s.groups[argv[2]])
    &&& entries_ascend(s.entries)
    &&& 0 <= c.now
}

proof fn lemma_claim_args(c: CtxV, s: StreamV, m: i64, ids: Seq<StreamId>)
    requires
        is_claim(c, s, m, ids),
    ensures
        claim_ids_end(c.client.argv, 5) == c.client.argv.len(),
        id_list(c.client.argv.subrange(5, c.client.argv.len() as int)) == Ok::<_, ErrV>(ids),
        claim_options(c.client.argv, c.client.argv.len() as int, no_claim_options()) == Ok::<
            _,
            ErrV,
        >(no_claim_options()),
{
    let argv = c.client.argv;
    assert forall|j: int| 5 <= j < argv.len() implies begins_as_id(#[trigger] argv[j]) by {
        assert(begins_as_id(argv[5 + (j - 5)]));
    }
    lemma_claim_ids(argv, 5);
    let args = argv.subrange(5, argv.len() as int);
    assert forall|i: int| 0 <= i < args.len() implies id_of(#[trigger] args[i], 0) == Some(
        ids[i],
    ) by {
        assert(args[i] == argv[5 + i]);
    }
    lemma_ids(args, ids);
}

/// XCLAIM leaves a pending entry as it is, with its owner, its time and its
/// count, where it was delivered less long ago than told or was not asked for; and
/// it makes nothing pending that is not.
pub proof fn law_claim_leaves_what_is_not_due(
    c: CtxV,
    s: StreamV,
    m: i64,
    ids: Seq<StreamId>,
    id: StreamId,
)
    requires
        is_claim(c, s, m, ids),
        !ids.contains(id) || !due(s.groups[c.client.argv[2]], id, c.now as int, m as int),
    ensures
        ({
            let argv = c.client.argv;
            let o = xclaim_outcome(c);
            &&& o.result is Ok
            &&& o.ctx.db.objects[argv[1]] is Stream
            &&& same_of(
                s.groups[argv[2]],
                o.ctx.db.objects[argv[1]]->Stream_0.groups[argv[2]],
                id,
            )
        }),
{
    let argv = c.client.argv;
    lemma_claim_args(c, s, m, ids);
    let g = s.groups[argv[2]];
    let q = Claim { consumer: argv[3], min_idle: m, now: c.now, opts: no_claim_options() };
    let seen = activated(touched(g, argv[3], c.now), argv[3], c.now);
    lemma_seen(g, argv[3], c.now, id);
    let st = ClaimV { group: seen, toks: Seq::empty(), n: 0, deleted: Seq::empty() };
    lemma_claims(st, s.entries, ids, q, id);
    let h = xclaim_outcome(c).ctx.db.objects[argv[1]]->Stream_0.groups[argv[2]];
    assert(h == claims_all(st, s.entries, ids, q).group);
}

/// The reply of XCLAIM for different IDs.
proof fn lemma_claim_reply(st: ClaimV, entries: Seq<EntryV>, ids: Seq<StreamId>, q: Claim) -> (es:
    Seq<EntryV>)
    requires
        group_ascends(st.group),
        st.group.consumers.contains_key(q.consumer),
        q.min_idle >= 0,
        q.opts == no_claim_options(),
        ids.no_duplicates(),
        entries_ascend(entries),
    ensures
        ({
            let a = claims_all(st, entries, ids, q);
            let won = ids.filter(
                |id: StreamId|
                    due(st.group, id, q.now as int, q.min_idle as int) && has_entry(entries, id),
            );
            &&& a.n == st.n + es.len()
            &&& a.toks == st.toks + entries_toks(es)
            &&& es.len() == won.len()
            &&& forall|i: int|
                0 <= i < es.len() ==> entries.contains(#[trigger] es[i]) && es[i].id == won[i]
        }),
    decreases ids.len(),
{
    reveal(Seq::filter);
    let pred = |id: StreamId|
        due(st.group, id, q.now as int, q.min_idle as int) && has_entry(entries, id);
    if ids.len() == 0 {
        let es = Seq::<EntryV>::empty();
        assert(st.toks + entries_toks(es) =~= st.toks);
        es
    } else {
        let before = ids.drop_last();
        let id = ids.last();
        assert(before.no_duplicates());
        let fs = lemma_claim_reply(st, entries, before, q);
        let b = claims_all(st, entries, before, q);
        lemma_claims(st, entries, before, q, id);
        assert(!before.contains(id)) by {
            if before.contains(id) {
                let i = before.index_of(id);
                assert(ids[i] == ids[ids.len() - 1]);
            }
        }
        assert(same_of(st.group, b.group, id));
        let any = PelEntry { entry_id: id, delivery_time_ms: 0, delivery_count: 0 };
        lemma_member(b.group.pel, any);
        let p = pel_at(b.group.pel, id);
        lemma_entry_rank(entries, id);
        if pel_has(b.group.pel, id) {
            assert(st.group.pel.contains(p));
        }
        if due(st.group, id, q.now as int, q.min_idle as int) {
            let w = choose|w: PelEntry| #[trigger]
                st.group.pel.contains(w) && w.entry_id == id && q.now - w.delivery_time_ms
                    >= q.min_idle;
            assert(b.group.pel.contains(w));
            lemma_member(b.group.pel, w);
        }
        if pred(id) {
            let e = entries[entry_rank(entries, id)];
            let es = fs.push(e);
            assert(es.drop_last() =~= fs);
            assert(claims_all(st, entries, ids, q).toks =~= st.toks + entries_toks(es));
            es
        } else {
            fs
        }
    }
}

/// XCLAIM of different IDs answers the entries of those that were delivered at
/// least so long ago and are still there, in the order in which they were asked
/// for.
pub proof fn law_claim_answers_what_is_due(c: CtxV, s: StreamV, m: i64, ids: Seq<StreamId>) -> (es:
    Seq<EntryV>)
    requires
        is_claim(c, s, m, ids),
        ids.no_duplicates(),
    ensures
        ({
            let g = s.groups[c.client.argv[2]];
            let won = ids.filter(
                |id: StreamId| due(g, id, c.now as int, m as int) && has_entry(s.entries, id),
            );
            &&& xclaim_outcome(c).ctx.replies == c.replies + seq![Tok::Array(won.len())]
                + entries_toks(es)
            &&& es.len() == won.len()
            &&& forall|i: int|
                0 <= i < es.len() ==> s.entries.contains(#[trigger] es[i]) && es[i].id == won[i]
        }),
{
    let argv = c.client.argv;
    lemma_claim_args(c, s, m, ids);
    let g = s.groups[argv[2]];
    let q = Claim { consumer: argv[3], min_idle: m, now: c.now, opts: no_claim_options() };
    let seen = activated(touched(g, argv[3], c.now), argv[3], c.now);
    lemma_seen(g, argv[3], c.now, ids[0]);
    let st = ClaimV { group: seen, toks: Seq::empty(), n: 0, deleted: Seq::empty() };
    let es = lemma_claim_reply(st, s.entries, ids, q);
    let pred = |id: StreamId| due(g, id, c.now as int, m as int) && has_entry(s.entries, id);
    let pred2 = |id: StreamId| due(seen, id, c.now as int, m as int) && has_entry(s.entries, id);
    lemma_filter_same(ids, pred, pred2);
    assert(xclaim_outcome(c).ctx.replies =~= c.replies + seq![Tok::Array(es.len())] + entries_toks(
        es,
    ));
    es
}

/// XCLAIM of an ID that was delivered at least so long ago: where its entry is
/// still there, the new owner, and nobody else, has it pending, from now on and
/// delivered once more; where it is gone, it is pending no more.
pub proof fn law_claim_takes_what_is_due(c: CtxV, s: StreamV, m: i64, p: PelEntry)
    requires
        is_claim(c, s, m, seq![p.entry_id]),
        s.groups[c.client.argv[2]].pel.contains(p),
        c.now - p.delivery_time_ms >= m,
        p.delivery_count < u64::MAX,
        mirrored(s.groups[c.client.argv[2]]),
    ensures
        ({
            let argv = c.client.argv;
            let h = xclaim_outcome(c).ctx.db.objects[argv[1]]->Stream_0.groups[argv[2]];
            let e = PelEntry {
                entry_id: p.entry_id,
                delivery_time_ms: c.now,
                delivery_count: (p.delivery_count + 1) as u64,
            };
            forall|x: PelEntry, k: Seq<u8>|
                x.entry_id == p.entry_id ==> if has_entry(s.entries, p.entry_id) {
                    (#[trigger] h.pel.contains(x) <==> x == e) && (#[trigger] owes(h, k, x) <==> x == e
                        && k == argv[3])
                } else {
                    !h.pel.contains(x) && !owes(h, k, x)
                }
        }),
{
    let argv = c.client.argv;
    let ids = seq![p.entry_id];
    let id = p.entry_id;
    lemma_claim_args(c, s, m, ids);
    let g = s.groups[argv[2]];
    let q = Claim { consumer: argv[3], min_idle: m, now: c.now, opts: no_claim_options() };
    let seen = activated(touched(g, argv[3], c.now), argv[3], c.now);
    lemma_seen(g, argv[3], c.now, id);
    let st = ClaimV { group: seen, toks: Seq::empty(), n: 0, deleted: Seq::empty() };
    assert(ids.drop_last() =~= Seq::empty());
    reveal_with_fuel(claims_all, 2);
    lemma_member(seen.pel, p);
    lemma_removed(seen, id);
    lemma_reassigned(
        seen,
        PelEntry {
            entry_id: id,
            delivery_time_ms: c.now,
            delivery_count: (p.delivery_count + 1) as u64,
        },
        argv[3],
    );
    let h = xclaim_outcome(c).ctx.db.objects[argv[1]]->Stream_0.groups[argv[2]];
    assert(h == claims_one(st, s.entries, id, q).group);
}

// ---------------------------------------------------------------------------
// XAUTOCLAIM
// ---------------------------------------------------------------------------

proof fn lemma_autoclaims(
    st: ClaimV,
    entries: Seq<EntryV>,
    cands: Seq<PelEntry>,
    limit: int,
    q: Claim,
    other: StreamId,
)
    requires
        group_ascends(st.group),
        st.group.consumers.contains_key(q.consumer),
        q.min_idle >= 0,
        st.n + st.deleted.len() <= limit,
    ensures
        ({
            let (a, cursor) = autoclaims(st, entries, cands, limit, q);
            &&& group_ascends(a.group)
            &&& a.n + a.deleted.len() <= limit
            &&& (forall|i: int| 0 <= i < cands.len() ==> (#[trigger] cands[i]).entry_id != other)
                || !due(st.group, other, q.now as int, q.min_idle as int) ==> same_of(
                st.group,
                a.group,
                other,
            )
            &&& cursor == zero_id() || exists|i: int|
                0 <= i < cands.len() && cursor == (#[trigger] cands[i]).entry_id
        }),
    decreases cands.len(),
{
    if cands.len() > 0 && st.n + st.deleted.len() < limit {
        let id = cands[0].entry_id;
        let b = autoclaims_one(st, entries, id, q);
        let any = PelEntry { entry_id: id, delivery_time_ms: 0, delivery_count: 0 };
        lemma_member(st.group.pel, any);
        let p = pel_at(st.group.pel, id);
        if pel_has(st.group.pel, id) {
            lemma_removed(st.group, id);
            lemma_reassigned(
                st.group,
                PelEntry {
                    entry_id: id,
                    delivery_time_ms: q.now,
                    delivery_count: if q.opts.justid {
                        p.delivery_count
                    } else {
                        raised(p.delivery_count)
                    },
                },
                q.consumer,
            );
            assert(st.group.pel.contains(p));
        }
        let rest = cands.skip(1);
        lemma_autoclaims(b, entries, rest, limit, q, other);
        let (a, cursor) = autoclaims(st, entries, cands, limit, q);
        if other != id {
            assert(same_of(st.group, b.group, other));
        }
        if !due(st.group, other, q.now as int, q.min_idle as int) {
            assert(same_of(st.group, b.group, other));
            if due(b.group, other, q.now as int, q.min_idle as int) {
                let w = choose|w: PelEntry| #[trigger]
                    b.group.pel.contains(w) && w.entry_id == other && q.now - w.delivery_time_ms
                        >= q.min_idle;
                assert(st.group.pel.contains(w));
            }
        }
        if forall|i: int| 0 <= i < cands.len() ==> (#[trigger] cands[i]).entry_id != other {
            assert(cands[0].entry_id != other);
            assert forall|i: int| 0 <= i < rest.len() implies (#[trigger] rest[i]).entry_id
                != other by {
                assert(rest[i] == cands[i + 1]);
            }
        }
        if same_of(st.group, b.group, other) && same_of(b.group, a.group, other) {
            lemma_same_trans(st.group, b.group, a.group, other);
        }
        if cursor != zero_id() {
            let i = choose|i: int| 0 <= i < rest.len() && cursor == (#[trigger] rest[i]).entry_id;
            assert(cands[i + 1] == rest[i]);
            assert(cursor == cands[i + 1].entry_id);
        }
    } else if cands.len() > 0 {
        assert(cands[0].entry_id == autoclaims(st, entries, cands, limit, q).1);
    }
}

/// XAUTOCLAIM leaves what was delivered less long ago than told, and what lies
/// before the ID it starts at; it takes no more than COUNT tells, or a hundred, and
/// the ID to go on with is that of a pending entry, or zero at the end.
#[verifier::spinoff_prover]
pub proof fn law_autoclaim_leaves_what_is_not_due(
    c: CtxV,
    s: StreamV,
    m: i64,
    start: StreamId,
    n: i64,
    id: StreamId,
)
    requires
        c.client.argv.len() == 6 || (c.client.argv.len() == 8 && is_word(
            c.client.argv[6],
            "COUNT"@,
        ) && i64_of(c.client.argv[7]) == Some(n) && 0 < n <= i64::MAX / 16),
        i64_of(c.client.argv[4]) == Some(m),
        m >= 0,
        c.client.argv[5] != text("-"@),
        c.client.argv[5] != text("+"@),
        id_of(c.client.argv[5], 0) == Some(start),
        stream_in(c.db, c.client.argv[1]) == Ok::<_, ErrV>(Some(s)),
        s.groups.contains_key(c.client.argv[2]),
        group_ascends(s.groups[c.client.argv[2]]),
        0 <= c.now,
    ensures
        ({
            let argv = c.client.argv;
            let o = xautoclaim_outcome(c);
            let g = s.groups[argv[2]];
            let h = o.ctx.db.objects[argv[1]]->Stream_0.groups[argv[2]];
            let at = c.replies.len() as int;
            &&& o.result is Ok
            &&& num(id) < num(start) || !due(g, id, c.now as int, m as int) ==> same_of(g, h, id)
            &&& o.ctx.replies.take(at) == c.replies
            &&& o.ctx.replies[at] == Tok::Array(3)
            &&& o.ctx.replies[at + 2] is Array
            &&& o.ctx.replies[at + 2]->Array_0 <= (if argv.len() == 6 { 100 } else { n as int })
            &&& o.ctx.replies[at + 1] == Tok::Bulk(id_text(zero_id())) || exists|p: PelEntry|
                #[trigger] g.pel.contains(p) && num(start) <= num(p.entry_id) && o.ctx.replies[at + 1]
                    == Tok::Bulk(id_text(p.entry_id))
        }),
{
    let argv = c.client.argv;
    let g = s.groups[argv[2]];
    reveal_with_fuel(autoclaim_options, 3);
    let limit = if argv.len() == 6 { 100 } else { n as int };
    let q = Claim { consumer: argv[3], min_idle: m, now: c.now, opts: no_claim_options() };
    let seen = activated(touched(g, argv[3], c.now), argv[3], c.now);
    lemma_seen(g, argv[3], c.now, id);
    let st = ClaimV { group: seen, toks: Seq::empty(), n: 0, deleted: Seq::empty() };
    lemma_pel_rank(g.pel, start);
    let r = pel_rank(g.pel, start);
    let cands = g.pel.skip(r);
    lemma_autoclaims(st, s.entries, cands, limit, q, id);
    let o = xautoclaim_outcome(c);
    let at = c.replies.len() as int;
    assert(o.ctx.replies.take(at) =~= c.replies);
    if num(id) < num(start) {
        assert forall|i: int| 0 <= i < cands.len() implies (#[trigger] cands[i]).entry_id != id by {
            assert(cands[i] == g.pel[r + i]);
            law_ids_are_numbers(start, cands[i].entry_id);
        }
    }
    let (a, cursor) = autoclaims(st, s.entries, cands, limit, q);
    if cursor != zero_id() {
        let i = choose|i: int| 0 <= i < cands.len() && cursor == (#[trigger] cands[i]).entry_id;
        assert(g.pel[r + i] == cands[i]);
        let p = cands[i];
        assert(g.pel.contains(p));
        law_ids_are_numbers(start, p.entry_id);
        assert(num(start) <= num(p.entry_id));
        assert(o.ctx.replies[at + 1] == Tok::Bulk(id_text(p.entry_id)));
    } else {
        assert(o.ctx.replies[at + 1] == Tok::Bulk(id_text(zero_id())));
    }
    let h = o.ctx.db.objects[argv[1]]->Stream_0.groups[argv[2]];
    assert(h == a.group);
    if num(id) < num(start) || !due(g, id, c.now as int, m as int) {
        assert(same_of(seen, a.group, id));
        lemma_same_trans(g, seen, h, id);
    }
}

// ---------------------------------------------------------------------------
// XACK
// ---------------------------------------------------------------------------

proof fn lemma_acked(g: GroupV, ids: Seq<StreamId>)
    requires
        group_ascends(g),
    ensures
        ({
            let (h, n) = acked_all(g, ids);
            &&& group_ascends(h)
            &&& h.consumers.dom() == g.consumers.dom()
            &&& h.pel == g.pel.filter(|p: PelEntry| !ids.contains(p.entry_id))
            &&& h.pel.len() + n == g.pel.len()
            &&& h.last_delivered_id == g.last_delivered_id
            &&& h.entries_read == g.entries_read
            &&& forall|k: Seq<u8>, p: PelEntry|
                (pel_has(g.pel, p.entry_id) || !ids.contains(p.entry_id)) ==> (#[trigger] owes(h, k, p)
                    <==> owes(g, k, p) && !ids.contains(p.entry_id))
        }),
    decreases ids.len(),
{
    let keep = |p: PelEntry| !ids.contains(p.entry_id);
    if ids.len() == 0 {
        lemma_filter_all(g.pel, keep);
    } else {
        let before = ids.drop_last();
        let id = ids.last();
        lemma_acked(g, before);
        let (b, m) = acked_all(g, before);
        let (h, n) = acked_all(g, ids);
        lemma_removed(b, id);
        let keep1 = |p: PelEntry| !before.contains(p.entry_id);
        let keep2 = |p: PelEntry| p.entry_id != id;
        lemma_pel_rank(b.pel, id);
        let r = pel_rank(b.pel, id);
        if pel_has(b.pel, id) {
            assert forall|i: int| 0 <= i < b.pel.len() implies keep2(#[trigger] b.pel[i]) == (i
                != r) by {
                if i < r {
                    assert(id_lt(b.pel[i].entry_id, b.pel[r].entry_id));
                }
                if r < i {
                    assert(id_lt(b.pel[r].entry_id, b.pel[i].entry_id));
                }
            }
            lemma_filter_remove(b.pel, keep2, r);
        } else {
            lemma_filter_all(b.pel, keep2);
        }
        assert forall|j: StreamId| ids.contains(j) == (before.contains(j) || j == id) by {
            if ids.contains(j) {
                let i = ids.index_of(j);
                if i < before.len() {
                    assert(before[i] == j);
                }
            }
            if before.contains(j) {
                let i = before.index_of(j);
                assert(ids[i] == j);
            }
            assert(ids[ids.len() - 1] == id);
        }
        assert forall|p: PelEntry| #[trigger] keep(p) == (keep1(p) && keep2(p)) by {
            assert(ids.contains(p.entry_id) == (before.contains(p.entry_id) || p.entry_id == id));
        }
        lemma_filter_both(g.pel, keep1, keep2, keep);
        assert forall|k: Seq<u8>, p: PelEntry|
            (pel_has(g.pel, p.entry_id) || !ids.contains(p.entry_id)) implies (#[trigger] owes(
            h,
            k,
            p,
        ) <==> owes(g, k, p) && !ids.contains(p.entry_id)) by {
            assert(ids.contains(p.entry_id) == (before.contains(p.entry_id) || p.entry_id == id));
            assert(owes(b, k, p) <==> owes(g, k, p) && !before.contains(p.entry_id));
            if p.entry_id == id && !before.contains(id) {
                lemma_member(g.pel, p);
                let w = pel_at(g.pel, id);
                lemma_filter_keeps(g.pel, keep1);
                assert(keep1(w));
                assert(b.pel.contains(w));
                lemma_member(b.pel, w);
            }
        }
    }
}

/// XACK takes the IDs off what is pending, for the group and for the consumers,
/// answers how many it took, and leaves everything else.
pub proof fn law_ack_takes_off(c: CtxV, s: StreamV, ids: Seq<StreamId>, k: Seq<u8>, p: PelEntry)
    requires
        c.client.argv.len() == 3 + ids.len(),
        ids.len() > 0,
        forall|i: int|
            0 <= i < ids.len() ==> id_of(#[trigger] c.client.argv[3 + i], 0) == Some(ids[i]),
        stream_in(c.db, c.client.argv[1]) == Ok::<_, ErrV>(Some(s)),
        s.groups.contains_key(c.client.argv[2]),
        group_ascends(s.groups[c.client.argv[2]]),
        mirrored(s.groups[c.client.argv[2]]),
        s.groups[c.client.argv[2]].pel.len() <= i64::MAX,
    ensures
        ({
            let argv = c.client.argv;
            let o = xack_outcome(c);
            let g = s.groups[argv[2]];
            let t = o.ctx.db.objects[argv[1]]->Stream_0;
            let h = t.groups[argv[2]];
            &&& o.ctx.db.objects[argv[1]] is Stream
            &&& answers(c, o, Tok::Int(g.pel.len() - h.pel.len()))
            &&& h.pel == g.pel.filter(|x: PelEntry| !ids.contains(x.entry_id))
            &&& owes(h, k, p) <==> owes(g, k, p) && !ids.contains(p.entry_id)
            &&& h.last_delivered_id == g.last_delivered_id
            &&& t.entries == s.entries
            &&& t.groups.remove(argv[2]) == s.groups.remove(argv[2])
            &&& o.ctx.db.objects.remove(argv[1]) == c.db.objects.remove(argv[1])
        }),
{
    let argv = c.client.argv;
    let args = argv.skip(3);
    assert forall|i: int| 0 <= i < args.len() implies id_of(#[trigger] args[i], 0) == Some(
        ids[i],
    ) by {
        assert(args[i] == argv[3 + i]);
    }
    lemma_ids(args, ids);
    let g = s.groups[argv[2]];
    lemma_acked(g, ids);
    let o = xack_outcome(c);
    let t = o.ctx.db.objects[argv[1]]->Stream_0;
    let h = t.groups[argv[2]];
    assert(o.ctx.replies =~= c.replies.push(Tok::Int(g.pel.len() - h.pel.len())));
    assert(t.groups.remove(argv[2]) =~= s.groups.remove(argv[2]));
    assert(o.ctx.db.objects.remove(argv[1]) =~= c.db.objects.remove(argv[1]));
    if owes(g, k, p) {
        lemma_member(g.consumers[k].pel, p);
        assert(pel_has(g.pel, p.entry_id));
    } else if ids.contains(p.entry_id) && !pel_has(g.pel, p.entry_id) {
        lemma_not_owed(g, ids, k, p);
    }
}

/// Who owed nothing owes nothing after an acknowledgement.
proof fn lemma_not_owed(g: GroupV, ids: Seq<StreamId>, k: Seq<u8>, p: PelEntry)
    requires
        group_ascends(g),
        !owes(g, k, p),
    ensures
        !owes(acked_all(g, ids).0, k, p),
    decreases ids.len(),
{
    if ids.len() > 0 {
        let before = ids.drop_last();
        lemma_not_owed(g, before, k, p);
        lemma_acked(g, before);
        let b = acked_all(g, before).0;
        lemma_removed(b, ids.last());
    }
}

// ---------------------------------------------------------------------------
// XREADGROUP
// ---------------------------------------------------------------------------

/// A well-formed XREADGROUP of one stream, without options or with COUNT.
pub open spec fn is_group_read(c: CtxV, s: StreamV, n: i64) -> bool {
    let argv = c.client.argv;
    &&& argv.len() == 7 || (argv.len() == 9 && is_word(argv[4], "COUNT"@) && i64_of(argv[5])
        == Some(n) && n >= 0)
    &&& is_word(argv[1], "GROUP"@)
    &&& is_word(argv[argv.len() - 3], "STREAMS"@)
    &&& stream_in(c.db, argv[argv.len() - 2]) == Ok::<_, ErrV>(Some(s))
    &&& s.groups.contains_key(argv[2])
    &&& group_ascends(s.groups[argv[2]])
    &&& entries_ascend(s.entries)
    &&& 0 <= c.now
}

proof fn lemma_group_read_args(c: CtxV, s: StreamV, n: i64)
    requires
        is_group_read(c, s, n),
    ensures
        ({
            let argv = c.client.argv;
            read_options(
                argv,
                4,
                true,
                crate::stream_parse::ReadOptions { count: None, block_ms: None, noack: false },
            ) == Ok::<_, ErrV>(
                (
                    crate::stream_parse::ReadOptions {
                        count: if argv.len() == 9 {
                            Some(n)
                        } else {
                            None
                        },
                        block_ms: None,
                        noack: false,
                    },
                    argv.len() - 2,
                ),
            )
        }),
{
    let argv = c.client.argv;
    let a = argv[argv.len() - 3];
    reveal_strlit("STREAMS");
    reveal_strlit("COUNT");
    reveal_strlit("BLOCK");
    reveal_strlit("NOACK");
    lemma_words_differ(a, "STREAMS"@, "COUNT"@, 0);
    lemma_words_differ(a, "STREAMS"@, "BLOCK"@, 0);
    lemma_words_differ(a, "STREAMS"@, "NOACK"@, 0);
    reveal_with_fuel(read_options, 3);
}

/// Entries that were not pending become so.
proof fn lemma_pends_new(
    g: GroupV,
    consumer: Seq<u8>,
    es: Seq<EntryV>,
    now: i64,
    p: PelEntry,
    k: Seq<u8>,
)
    requires
        group_ascends(g),
        g.consumers.contains_key(consumer),
        entries_ascend(es),
        forall|x: PelEntry| #[trigger] g.pel.contains(x) ==> !has_entry(es, x.entry_id),
        forall|j: Seq<u8>, x: PelEntry| #[trigger] owes(g, j, x) ==> !has_entry(es, x.entry_id),
    ensures
        ({
            let h = pends_reads(g, consumer, es, now);
            let read = p.delivery_time_ms == now && p.delivery_count == 1 && has_entry(
                es,
                p.entry_id,
            );
            &&& group_ascends(h)
            &&& h.consumers.contains_key(consumer)
            &&& h.pel.contains(p) <==> g.pel.contains(p) || read
            &&& owes(h, k, p) <==> owes(g, k, p) || (read && k == consumer)
        }),
    decreases es.len(),
{
    if es.len() > 0 {
        let before = es.drop_last();
        let id = es.last().id;
        assert(entries_ascend(before)) by {
            assert forall|i: int, j: int| 0 <= i < j < before.len() implies id_lt(
                (#[trigger] before[i]).id,
                (#[trigger] before[j]).id,
            ) by {
                assert(id_lt(es[i].id, es[j].id));
            }
        }
        assert forall|j: StreamId| has_entry(before, j) implies #[trigger] has_entry(es, j) by {
            let i = choose|i: int| 0 <= i < before.len() && (#[trigger] before[i]).id == j;
            assert(es[i].id == j);
        }
        assert(has_entry(es, id)) by {
            assert(es[es.len() - 1].id == id);
        }
        lemma_pends_new(g, consumer, before, now, p, k);
        let b = pends_reads(g, consumer, before, now);
        let e = PelEntry { entry_id: id, delivery_time_ms: now, delivery_count: 1 };
        assert(!has_entry(before, id)) by {
            if has_entry(before, id) {
                let i = choose|i: int| 0 <= i < before.len() && (#[trigger] before[i]).id == id;
                assert(id_lt(es[i].id, es[es.len() - 1].id));
            }
        }
        assert(!pel_has(b.pel, id)) by {
            if pel_has(b.pel, id) {
                lemma_member(b.pel, e);
                let w = pel_at(b.pel, id);
                lemma_pends_new(g, consumer, before, now, w, k);
                assert(g.pel.contains(w));
                assert(es[es.len() - 1].id == w.entry_id);
            }
        }
        lemma_put(b.pel, e);
        lemma_put(b.consumers[consumer].pel, e);
        let h = pends_reads(g, consumer, es, now);
        assert(h == pel_added(b, consumer, e));
        assert forall|j: Seq<u8>| #[trigger] h.consumers.contains_key(j) implies pel_ascends(
            h.consumers[j].pel,
        ) by {
            assert(b.consumers.contains_key(j));
        }
        if b.pel.contains(p) && p.entry_id == id {
            lemma_member(b.pel, p);
        }
        if owes(b, consumer, p) && p.entry_id == id {
            lemma_pends_new(g, consumer, before, now, p, consumer);
            assert(owes(g, consumer, p));
            assert(es[es.len() - 1].id == p.entry_id);
        }
        if has_entry(es, p.entry_id) && p.entry_id != id {
            let i = choose|i: int| 0 <= i < es.len() && (#[trigger] es[i]).id == p.entry_id;
            assert(before[i].id == p.entry_id);
        }
        if has_entry(before, p.entry_id) {
            let i = choose|i: int| 0 <= i < before.len() && (#[trigger] before[i]).id == p.entry_id;
            assert(es[i].id == p.entry_id);
        }
        assert(es[es.len() - 1].id == id);
    }
}

/// XREADGROUP of new entries gives the first of those that lie behind the last
/// one that the group has delivered, and moves the group behind them; each of them
/// is pending for the consumer, from now on and delivered once, and what was
/// pending stays so.
pub proof fn law_group_reads_what_is_new(c: CtxV, s: StreamV, n: i64, p: PelEntry, k: Seq<u8>)
    requires
        is_group_read(c, s, n),
        c.client.argv.last() == text(">"@),
        forall|x: PelEntry| #[trigger]
            s.groups[c.client.argv[2]].pel.contains(x) ==> num(x.entry_id) <= num(
                s.groups[c.client.argv[2]].last_delivered_id,
            ),
        forall|j: Seq<u8>, x: PelEntry| #[trigger]
            owes(s.groups[c.client.argv[2]], j, x) ==> num(x.entry_id) <= num(
                s.groups[c.client.argv[2]].last_delivered_id,
            ),
    ensures
        ({
            let argv = c.client.argv;
            let key = argv[argv.len() - 2];
            let o = xreadgroup_outcome(c);
            let g = s.groups[argv[2]];
            let t = o.ctx.db.objects[key]->Stream_0;
            let h = t.groups[argv[2]];
            let all = s.entries.filter(
                |e: EntryV| num(g.last_delivered_id) < num(e.id),
            );
            let m = if argv.len() == 9 && n < all.len() { n as int } else { all.len() as int };
            let es = all.subrange(0, m);
            let read = p.delivery_time_ms == c.now && p.delivery_count == 1 && has_entry(
                es,
                p.entry_id,
            );
            &&& o.result is Ok
            &&& o.ctx.db.objects[key] is Stream
            &&& t.entries == s.entries
            &&& m == 0 ==> o.ctx.replies == c.replies.push(Tok::NullArray)
            &&& m > 0 ==> o.ctx.replies == c.replies + seq![
                Tok::Array(1),
                Tok::Array(2),
                Tok::Bulk(key),
                Tok::Array(m as nat),
            ] + entries_toks(es)
            &&& h.last_delivered_id == (if m == 0 { g.last_delivered_id } else { es.last().id })
            &&& h.pel.contains(p) <==> g.pel.contains(p) || read
            &&& owes(h, k, p) <==> owes(g, k, p) || (read && k == argv[3])
        }),
{
    let argv = c.client.argv;
    let g = s.groups[argv[2]];
    let q = group_read_of(c, n);
    lemma_reads_new(c, s, n);
    let last = g.last_delivered_id;
    let pr = |e: EntryV| num(last) < num(e.id);
    let qr = |e: EntryV| id_lt(last, e.id);
    assert forall|i: int| 0 <= i < s.entries.len() implies qr(#[trigger] s.entries[i]) == pr(
        s.entries[i],
    ) by {
        law_ids_are_numbers(last, s.entries[i].id);
    }
    lemma_filter_same(s.entries, qr, pr);
    let all = s.entries.filter(pr);
    let m = if argv.len() == 9 && n < all.len() { n as int } else { all.len() as int };
    let es = all.subrange(0, m);
    assert(new_entries(s, q) =~= es);
    lemma_filter_ascends(s.entries, pr);
    assert forall|i: int| 0 <= i < es.len() implies id_lt(last, (#[trigger] es[i]).id) by {
        assert(pr(all[i]));
        law_ids_are_numbers(last, all[i].id);
    }
    lemma_group_after_read(s, q, es, p, k);
}

/// What XREADGROUP of one stream asks for.
pub open spec fn group_read_of(c: CtxV, n: i64) -> GroupRead {
    let argv = c.client.argv;
    GroupRead {
        group: argv[2],
        consumer: argv[3],
        count: if argv.len() == 9 {
            Some(n)
        } else {
            None
        },
        noack: false,
        now: c.now,
    }
}

proof fn lemma_reads_new(c: CtxV, s: StreamV, n: i64)
    requires
        is_group_read(c, s, n),
        c.client.argv.last() == text(">"@),
    ensures
        ({
            let argv = c.client.argv;
            let key = argv[argv.len() - 2];
            let o = xreadgroup_outcome(c);
            let q = group_read_of(c, n);
            let es = new_entries(s, q);
            &&& o.result is Ok
            &&& o.ctx.db.objects[key] == ObjV::Stream(
                with_group(s, argv[2], group_read_new(s, q)),
            )
            &&& es.len() == 0 ==> o.ctx.replies == c.replies.push(Tok::NullArray)
            &&& es.len() > 0 ==> o.ctx.replies == c.replies + seq![
                Tok::Array(1),
                Tok::Array(2),
                Tok::Bulk(key),
                Tok::Array(es.len()),
            ] + entries_toks(es)
        }),
{
    let argv = c.client.argv;
    let key = argv[argv.len() - 2];
    lemma_group_read_args(c, s, n);
    let at = argv.len() - 2;
    assert(argv.subrange(at, at + 1) =~= seq![key]);
    assert(argv.skip(at + 1) =~= seq![argv.last()]);
    assert(seq![argv.last()].drop_last() =~= Seq::empty());
    assert(seq![key].drop_last() =~= Seq::empty());
    let starts = seq![crate::stream_groups::GroupReadStartId::New];
    reveal_with_fuel(group_starts, 2);
    assert(group_starts(seq![argv.last()])->Ok_0 =~= starts);
    assert(starts.drop_last() =~= Seq::empty());
    reveal_with_fuel(reads_all, 2);
    let q = group_read_of(c, n);
    let es = new_entries(s, q);
    let o = xreadgroup_outcome(c);
    let none = Seq::<Seq<u8>>::empty();
    assert(none.push(key).drop_last() =~= none);
    reveal_with_fuel(raises_each, 2);
    if es.len() > 0 {
        assert(o.ctx.replies =~= c.replies + seq![
            Tok::Array(1),
            Tok::Array(2),
            Tok::Bulk(key),
            Tok::Array(es.len()),
        ] + entries_toks(es));
    } else {
        assert(o.ctx.replies =~= c.replies.push(Tok::NullArray));
    }
}

proof fn lemma_group_after_read(
    s: StreamV,
    q: GroupRead,
    es: Seq<EntryV>,
    p: PelEntry,
    k: Seq<u8>,
)
    requires
        s.groups.contains_key(q.group),
        group_ascends(s.groups[q.group]),
        es == new_entries(s, q),
        entries_ascend(es),
        !q.noack,
        forall|i: int|
            0 <= i < es.len() ==> id_lt(
                s.groups[q.group].last_delivered_id,
                (#[trigger] es[i]).id,
            ),
        forall|x: PelEntry| #[trigger]
            s.groups[q.group].pel.contains(x) ==> num(x.entry_id) <= num(
                s.groups[q.group].last_delivered_id,
            ),
        forall|j: Seq<u8>, x: PelEntry| #[trigger]
            owes(s.groups[q.group], j, x) ==> num(x.entry_id) <= num(
                s.groups[q.group].last_delivered_id,
            ),
    ensures
        ({
            let g = s.groups[q.group];
            let h = group_read_new(s, q);
            let read = p.delivery_time_ms == q.now && p.delivery_count == 1 && has_entry(
                es,
                p.entry_id,
            );
            &&& h.last_delivered_id == (if es.len() == 0 {
                g.last_delivered_id
            } else {
                es.last().id
            })
            &&& h.pel.contains(p) <==> g.pel.contains(p) || read
            &&& owes(h, k, p) <==> owes(g, k, p) || (read && k == q.consumer)
        }),
{
    let g = s.groups[q.group];
    let last = g.last_delivered_id;
    let seen = touched(g, q.consumer, q.now);
    let active = activated(seen, q.consumer, q.now);
    lemma_seen(g, q.consumer, q.now, p.entry_id);
    if es.len() > 0 {
        let rd = crate::stream_data::read_all(s, (g.entries_read, last), es);
        let moved = GroupV { entries_read: rd.0, last_delivered_id: rd.1, ..active };
        assert(group_ascends(moved)) by {
            assert forall|j: Seq<u8>| #[trigger] moved.consumers.contains_key(j) implies pel_ascends(
                moved.consumers[j].pel,
            ) by {
                assert(active.consumers.contains_key(j));
            }
        }
        assert forall|j: StreamId| #[trigger] has_entry(es, j) implies num(last) < num(j) by {
            let i = choose|i: int| 0 <= i < es.len() && (#[trigger] es[i]).id == j;
            law_ids_are_numbers(last, es[i].id);
        }
        assert forall|x: PelEntry| #[trigger] moved.pel.contains(x) implies !has_entry(
            es,
            x.entry_id,
        ) by {
            assert(g.pel.contains(x));
        }
        assert forall|j: Seq<u8>, x: PelEntry| #[trigger] owes(moved, j, x) implies !has_entry(
            es,
            x.entry_id,
        ) by {
            lemma_seen(g, q.consumer, q.now, x.entry_id);
            assert(owes(active, j, x));
            assert(owes(g, j, x));
        }
        lemma_pends_new(moved, q.consumer, es, q.now, p, k);
        lemma_read_all_last(s, (g.entries_read, last), es);
        lemma_pends_reads_stays(moved, q.consumer, es, q.now);
        assert(owes(moved, k, p) <==> owes(active, k, p));
    } else {
        assert(!has_entry(es, p.entry_id));
    }
}

} // verus!
