//! What holds of consumer groups over several deliveries.

use vstd::prelude::*;

use crate::stream_data::{
    entries_after, entries_ascend, entry_rank_past, group_ascends, has_entry, id_le, id_lt, id_max,
    lemma_entry_rank, lemma_pel_drop, lemma_pel_put, pel_ascends, pel_at, pel_has, read_all,
    touched, EntryV, GroupV, PelEntry, StreamId, StreamV,
};
use crate::stream_groups::{
    group_read_new, new_entries, pends_read, pends_reads, raised, with_group, GroupRead,
};
use crate::stream_wake::{
    activated, delivered_all, group_entries, stream_after, take_count, GroupAsk,
};

verus! {

/// Deliveries leave a group at the last entry that they gave.
pub proof fn lemma_read_all_last(s: StreamV, at: (i64, StreamId), es: Seq<EntryV>)
    requires
        entries_ascend(es),
        forall|i: int| 0 <= i < es.len() ==> id_lt(at.1, (#[trigger] es[i]).id),
    ensures
        read_all(s, at, es).1 == (if es.len() == 0 {
            at.1
        } else {
            es.last().id
        }),
    decreases es.len(),
{
    if es.len() > 0 {
        lemma_read_all_last(s, at, es.drop_last());
        if es.len() > 1 {
            assert(id_lt(es[es.len() - 2].id, es[es.len() - 1].id));
        }
    }
}

/// What becomes pending leaves the position of the group as it is.
pub proof fn lemma_pends_reads_stays(g: GroupV, consumer: Seq<u8>, es: Seq<EntryV>, now: i64)
    ensures
        pends_reads(g, consumer, es, now).last_delivered_id == g.last_delivered_id,
    decreases es.len(),
{
    if es.len() > 0 {
        lemma_pends_reads_stays(g, consumer, es.drop_last(), now);
    }
}

/// What is delivered to a woken reader leaves the position of the group as it is.
proof fn lemma_delivered_all_stays(g: GroupV, consumer: Seq<u8>, es: Seq<EntryV>, now: i64)
    ensures
        delivered_all(g, consumer, es, now).last_delivered_id == g.last_delivered_id,
    decreases es.len(),
{
    if es.len() > 0 {
        lemma_delivered_all_stays(g, consumer, es.drop_last(), now);
    }
}

/// The first `n` entries after an ID, and what comes after the last of them.
proof fn lemma_entries_split(entries: Seq<EntryV>, id: StreamId, n: int)
    requires
        entries_ascend(entries),
        0 < n <= entries_after(entries, id).len(),
    ensures
        ({
            let all = entries_after(entries, id);
            &&& entries_ascend(all.take(n))
            &&& forall|i: int| 0 <= i < n ==> id_lt(id, (#[trigger] all.take(n)[i]).id)
            &&& entries_after(entries, all.take(n).last().id) == all.skip(n)
        }),
{
    lemma_entry_rank(entries, id);
    let m = entry_rank_past(entries, id);
    let all = entries_after(entries, id);
    let es = all.take(n);
    assert forall|i: int| 0 <= i < n implies #[trigger] es[i] == entries[m + i] by {}
    let last = es.last().id;
    assert(last == entries[m + n - 1].id);
    lemma_entry_rank(entries, last);
    let k = entry_rank_past(entries, last);
    if k > m + n {
        assert(id_lt(entries[m + n - 1].id, entries[m + n].id));
    }
    assert(k == m + n);
    assert(entries.skip(k) =~= all.skip(n));
}

/// A group receives each entry once: what a second read of new entries gives, for
/// whichever consumer, follows on what the first one gave.
pub proof fn law_new_entries_are_delivered_once(s: StreamV, a: GroupRead, b: GroupRead)
    requires
        entries_ascend(s.entries),
        s.groups.contains_key(a.group),
        a.group == b.group,
    ensures
        ({
            let first = new_entries(s, a);
            let left = entries_after(s.entries, s.groups[a.group].last_delivered_id).skip(
                first.len() as int,
            );
            new_entries(with_group(s, a.group, group_read_new(s, a)), b) == left.take(
                take_count(b.count, left.len() as int),
            )
        }),
{
    let g = s.groups[a.group];
    let all = entries_after(s.entries, g.last_delivered_id);
    let first = new_entries(s, a);
    if first.len() == 0 {
        assert(all.skip(0) =~= all);
    } else {
        lemma_entries_split(s.entries, g.last_delivered_id, first.len() as int);
        lemma_read_all_last(s, (g.entries_read, g.last_delivered_id), first);
        let h = group_read_new(s, a);
        if !a.noack {
            let at = read_all(s, (g.entries_read, g.last_delivered_id), first);
            let seen = activated(
                touched(g, a.consumer, a.now),
                a.consumer,
                a.now,
            );
            lemma_pends_reads_stays(
                GroupV { entries_read: at.0, last_delivered_id: at.1, ..seen },
                a.consumer,
                first,
                a.now,
            );
        }
        assert(h.last_delivered_id == first.last().id);
    }
}

/// An entry that woke a reader of a group wakes no other reader of that group:
/// what the second one finds comes after all that the first one received, and
/// nothing is left where the first one took all.
pub proof fn law_woken_readers_share_no_entry(s: StreamV, a: GroupAsk, b: GroupAsk, now: i64)
    requires
        entries_ascend(s.entries),
        s.groups.contains_key(a.group),
        a.group == b.group,
    ensures
        ({
            let first = group_entries(s, a);
            let second = group_entries(stream_after(s, a, now), b);
            &&& forall|i: int, j: int|
                0 <= i < first.len() && 0 <= j < second.len() ==> id_lt(
                    (#[trigger] first[i]).id,
                    (#[trigger] second[j]).id,
                )
            &&& first.len() > 0 && a.count is None ==> second.len() == 0
        }),
{
    let g = s.groups[a.group];
    let after = id_max(g.last_delivered_id, a.id_after);
    let first = group_entries(s, a);
    let second = group_entries(stream_after(s, a, now), b);
    if first.len() > 0 {
        let n = first.len() as int;
        let all = entries_after(s.entries, after);
        lemma_entries_split(s.entries, after, n);
        lemma_read_all_last(s, (g.entries_read, g.last_delivered_id), first);
        let h = stream_after(s, a, now).groups[a.group];
        if !a.noack {
            let at = read_all(s, (g.entries_read, g.last_delivered_id), first);
            let seen = activated(
                touched(g, a.consumer, now),
                a.consumer,
                now,
            );
            lemma_delivered_all_stays(
                GroupV { entries_read: at.0, last_delivered_id: at.1, ..seen },
                a.consumer,
                first,
                now,
            );
        }
        let last = first.last().id;
        assert(h.last_delivered_id == last);
        let from = id_max(last, b.id_after);
        lemma_entry_rank(s.entries, from);
        lemma_entry_rank(s.entries, last);
        let k = entry_rank_past(s.entries, from);
        assert forall|i: int, j: int| 0 <= i < first.len() && 0 <= j < second.len() implies id_lt(
            (#[trigger] first[i]).id,
            (#[trigger] second[j]).id,
        ) by {
            assert(second[j] == s.entries[k + j]);
            assert(id_lt(from, second[j].id));
            if i < n - 1 {
                assert(id_lt(first[i].id, first[n - 1].id));
            }
        }
        if a.count is None {
            assert(all.skip(n).len() == 0);
            if k < s.entries.len() {
                assert(id_lt(from, s.entries[k].id));
                assert(entry_rank_past(s.entries, last) == s.entries.len());
                assert(id_le(s.entries[k].id, last));
            }
        }
    }
}

/// One more entry becomes pending, in the group and with the consumer.
proof fn lemma_pends_read(g: GroupV, consumer: Seq<u8>, id: StreamId, now: i64)
    requires
        group_ascends(g),
        g.consumers.contains_key(consumer),
    ensures
        ({
            let h = pends_read(g, consumer, id, now);
            &&& group_ascends(h)
            &&& h.consumers.contains_key(consumer)
            &&& forall|j: StreamId| #[trigger] pel_has(h.pel, j) <==> j == id || pel_has(g.pel, j)
            &&& forall|j: StreamId|
                #[trigger] pel_has(h.consumers[consumer].pel, j) <==> j == id || pel_has(
                    g.consumers[consumer].pel,
                    j,
                )
        }),
{
    let n = if pel_has(g.pel, id) {
        raised(pel_at(g.pel, id).delivery_count)
    } else {
        1
    };
    let e = PelEntry {
        entry_id: id,
        delivery_time_ms: now,
        delivery_count: if n > 1 {
            n
        } else {
            1
        },
    };
    let h = pends_read(g, consumer, id, now);
    lemma_pel_put(g.pel, e);
    lemma_pel_put(g.consumers[consumer].pel, e);
    assert forall|k: Seq<u8>| #[trigger] h.consumers.contains_key(k) implies pel_ascends(
        h.consumers[k].pel,
    ) by {
        assert(g.consumers.contains_key(k));
        lemma_pel_drop(g.consumers[k].pel, id);
    }
}

/// Entries become pending, in the group and with the consumer.
proof fn lemma_pends_reads(g: GroupV, consumer: Seq<u8>, es: Seq<EntryV>, now: i64)
    requires
        group_ascends(g),
        g.consumers.contains_key(consumer),
    ensures
        ({
            let h = pends_reads(g, consumer, es, now);
            &&& group_ascends(h)
            &&& h.consumers.contains_key(consumer)
            &&& forall|j: StreamId|
                #[trigger] pel_has(h.pel, j) <==> has_entry(es, j) || pel_has(g.pel, j)
            &&& forall|j: StreamId|
                #[trigger] pel_has(h.consumers[consumer].pel, j) <==> has_entry(es, j) || pel_has(
                    g.consumers[consumer].pel,
                    j,
                )
        }),
    decreases es.len(),
{
    if es.len() > 0 {
        let before = es.drop_last();
        lemma_pends_reads(g, consumer, before, now);
        lemma_pends_read(pends_reads(g, consumer, before, now), consumer, es.last().id, now);
        assert forall|j: StreamId| has_entry(es, j) == (has_entry(before, j) || j == es.last().id) by {
            if has_entry(before, j) {
                let i = choose|i: int| 0 <= i < before.len() && (#[trigger] before[i]).id == j;
                assert(es[i].id == j);
            }
            if has_entry(es, j) && j != es.last().id {
                let i = choose|i: int| 0 <= i < es.len() && (#[trigger] es[i]).id == j;
                assert(before[i].id == j);
            }
        }
    }
}

/// Exactly the new entries that a consumer read become pending, for the consumer
/// and for its group, unless it asked for no acknowledgement.
pub proof fn law_read_entries_are_pending(s: StreamV, q: GroupRead, id: StreamId)
    requires
        s.groups.contains_key(q.group),
        group_ascends(s.groups[q.group]),
    ensures
        ({
            let g = touched(s.groups[q.group], q.consumer, q.now);
            let h = group_read_new(s, q);
            let read = !q.noack && has_entry(new_entries(s, q), id);
            &&& pel_has(h.pel, id) == (read || pel_has(g.pel, id))
            &&& pel_has(h.consumers[q.consumer].pel, id) == (read || pel_has(
                g.consumers[q.consumer].pel,
                id,
            ))
        }),
{
    let g = s.groups[q.group];
    let es = new_entries(s, q);
    let seen = touched(g, q.consumer, q.now);
    assert forall|k: Seq<u8>| #[trigger] seen.consumers.contains_key(k) implies pel_ascends(
        seen.consumers[k].pel,
    ) by {
        if k != q.consumer {
            assert(g.consumers.contains_key(k));
        }
    }
    let at = read_all(s, (g.entries_read, g.last_delivered_id), es);
    let moved = GroupV {
        entries_read: at.0,
        last_delivered_id: at.1,
        ..activated(seen, q.consumer, q.now)
    };
    assert forall|k: Seq<u8>| #[trigger] moved.consumers.contains_key(k) implies pel_ascends(
        moved.consumers[k].pel,
    ) by {
        assert(seen.consumers.contains_key(k));
    }
    lemma_pends_reads(moved, q.consumer, es, q.now);
}

} // verus!
