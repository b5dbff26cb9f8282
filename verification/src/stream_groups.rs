//! Consumer-group commands: XREADGROUP, XACK and XGROUP.

use vstd::prelude::*;

use crate::bytes::{dup, is_text, is_word, lemma_views_push, put, put_text, text, views, word};
use crate::context::{
    done, fails, lemma_waiters_push, raises, raises_if, replies, replies_one, waiter_views, with_db,
    ActionV, BlockedAction, BlockedWaiter, ClientV, CommandContext, CtxV, EventClass, Outcome,
    WaiterV,
};
use crate::error::{runtime, syntax, wrong_args, ErrV, RedisError};
use crate::keyspace::{
    db_set, db_update, stream_in, DbV, ObjV, RedisDb, RedisObject,
};
use crate::reply::{bulk, bulk_text, lemma_toks_add, lemma_toks_push, status, toks, Reply, Tok};
use crate::stream::{deadline, deadline_at, id_list, parse_ids};
use crate::stream_data::{
    entries_after, entry_rank, entry_views, has_entry, id_lt, id_text, lemma_entry_rank,
    lemma_filter_is_range, new_group, new_stream, pel_add, pel_added, pel_ascends, pel_at, pel_drop,
    pel_find, pel_has, pel_put, pel_reassign, pel_reassigned, pel_remove, pel_removed, pel_take,
    pel_upsert, read_all, touch_or_create_consumer, touched, zero_id, Consumer, ConsumerGroup,
    ConsumerV, EntryV, GroupV, InlineStream, PelEntry, StreamEntry, StreamId, StreamV,
    SCG_INVALID_ENTRIES_READ,
};
use crate::stream_parse::{
    explicit_id, parse_explicit_id, parse_read_options, parse_strict_i64, read_options, strict_i64,
    ReadOptions,
};
use crate::stream_wake::{
    activate, activated, clamped, counted, entry_toks, errors_groups, key_entries_toks,
    now_ms_clamped, put_entry, put_key_entries, take_count, wake_xreadgroup_with_nogroup,
};

verus! {

broadcast use {lemma_toks_push, lemma_toks_add, lemma_views_push};

// ---------------------------------------------------------------------------
// XREADGROUP
// ---------------------------------------------------------------------------

/// Where a group read of one stream starts.
#[derive(Clone, Copy, PartialEq, Eq, Structural, Debug)]
pub enum GroupReadStartId {
    /// `>`: entries that the group has not delivered yet.
    New,
    /// Pending entries of the consumer from an ID on.
    From(StreamId),
}

/// Where a group read starts.
pub open spec fn group_start(raw: Seq<u8>) -> Result<GroupReadStartId, ErrV> {
    if raw == text(">"@) {
        Ok(GroupReadStartId::New)
    } else {
        match explicit_id(raw) {
            Err(e) => Err(e),
            Ok(id) => Ok(GroupReadStartId::From(id)),
        }
    }
}

/// Where the group reads of some streams start; an argument that is no ID
/// spoils the list.
pub open spec fn group_starts(args: Seq<Seq<u8>>) -> Result<Seq<GroupReadStartId>, ErrV>
    decreases args.len(),
{
    if args.len() == 0 {
        Ok(Seq::empty())
    } else {
        match group_starts(args.drop_last()) {
            Err(e) => Err(e),
            Ok(ids) => match group_start(args.last()) {
                Err(e) => Err(e),
                Ok(id) => Ok(ids.push(id)),
            },
        }
    }
}

proof fn lemma_group_starts_prefix(args: Seq<Seq<u8>>, n: int)
    requires
        0 <= n <= args.len(),
        group_starts(args.take(n)) is Err,
    ensures
        group_starts(args) == group_starts(args.take(n)),
    decreases args.len() - n,
{
    if n == args.len() {
        assert(args.take(n) =~= args);
    } else {
        assert(args.take(n + 1).drop_last() =~= args.take(n));
        lemma_group_starts_prefix(args, n + 1);
    }
}

/// Parses where the group reads of some streams start.
fn parse_group_starts(argv: &Vec<Vec<u8>>, from: usize) -> (r: Result<
    Vec<GroupReadStartId>,
    RedisError,
>)
    requires
        from <= argv@.len(),
    ensures
        match r {
            Ok(ids) => group_starts(views(argv@).skip(from as int)) == Ok::<_, ErrV>(ids@)
                && ids@.len() == argv@.len() - from,
            Err(e) => group_starts(views(argv@).skip(from as int)) == Err::<
                Seq<GroupReadStartId>,
                _,
            >(e@),
        },
{
    let ghost all = views(argv@).skip(from as int);
    let mut ids: Vec<GroupReadStartId> = Vec::new();
    let mut i: usize = from;
    assert(all.take(0) =~= Seq::empty());
    while i < argv.len()
        invariant
            from <= i <= argv@.len(),
            all == views(argv@).skip(from as int),
            ids@.len() == i - from,
            group_starts(all.take(i - from)) == Ok::<_, ErrV>(ids@),
        decreases argv@.len() - i,
    {
        assert(all.take(i - from + 1).drop_last() =~= all.take(i - from));
        assert(all.take(i - from + 1).last() == views(argv@)[i as int]);
        if is_text(&argv[i], ">") {
            ids.push(GroupReadStartId::New);
        } else {
            match parse_explicit_id(&argv[i]) {
                Err(e) => {
                    proof {
                        lemma_group_starts_prefix(all, i - from + 1);
                    }
                    return Err(e);
                },
                Ok(id) => ids.push(GroupReadStartId::From(id)),
            }
        }
        i += 1;
    }
    assert(all.take(i - from) =~= all);
    Ok(ids)
}

/// A count that is raised by one, as far as it can be.
pub open spec fn raised(n: u64) -> u64 {
    if n < u64::MAX {
        (n + 1) as u64
    } else {
        n
    }
}

/// The group after an entry was read: an entry that was pending moves to the
/// consumer with a higher count, another one becomes pending.
pub open spec fn pends_read(g: GroupV, consumer: Seq<u8>, id: StreamId, now: i64) -> GroupV {
    let n = if pel_has(g.pel, id) {
        raised(pel_at(g.pel, id).delivery_count)
    } else {
        1
    };
    if n > 1 {
        pel_reassigned(
            g,
            PelEntry { entry_id: id, delivery_time_ms: now, delivery_count: n },
            consumer,
        )
    } else {
        pel_added(
            g,
            consumer,
            PelEntry { entry_id: id, delivery_time_ms: now, delivery_count: 1 },
        )
    }
}

/// The group after entries were read.
pub open spec fn pends_reads(g: GroupV, consumer: Seq<u8>, es: Seq<EntryV>, now: i64) -> GroupV
    decreases es.len(),
{
    if es.len() == 0 {
        g
    } else {
        pends_read(pends_reads(g, consumer, es.drop_last(), now), consumer, es.last().id, now)
    }
}

/// Makes an entry pending after it was read.
fn pend_read(g: &mut ConsumerGroup, consumer: &[u8], id: StreamId, now: i64)
    requires
        old(g).wf(),
    ensures
        final(g).wf(),
        final(g)@ == pends_read(old(g)@, consumer@, id, now),
{
    let n: u64 = match pel_find(&g.pel, id) {
        Some(i) => g.pel[i].delivery_count.saturating_add(1),
        None => 1,
    };
    if n > 1 {
        pel_reassign(g, id, consumer, now, n);
    } else {
        pel_add(g, consumer, PelEntry { entry_id: id, delivery_time_ms: now, delivery_count: 1 });
    }
}

/// Makes the entries from `from` up to but without `to` pending.
fn pend_reads(
    g: &mut ConsumerGroup,
    consumer: &[u8],
    entries: &Vec<StreamEntry>,
    from: usize,
    to: usize,
    now: i64,
)
    requires
        old(g).wf(),
        from <= to <= entries@.len(),
    ensures
        final(g).wf(),
        final(g)@ == pends_reads(
            old(g)@,
            consumer@,
            entry_views(entries@).subrange(from as int, to as int),
            now,
        ),
{
    let ghost all = entry_views(entries@);
    let ghost start = g@;
    let mut i: usize = from;
    while i < to
        invariant
            g.wf(),
            all == entry_views(entries@),
            from <= i <= to <= entries@.len(),
            g@ == pends_reads(start, consumer@, all.subrange(from as int, i as int), now),
        decreases to - i,
    {
        pend_read(g, consumer, entries[i].id, now);
        proof {
            let part = all.subrange(from as int, i + 1);
            assert(part.drop_last() =~= all.subrange(from as int, i as int));
            assert(part.last() == all[i as int]);
        }
        i += 1;
    }
}

/// Who reads, on behalf of which group, and how.
#[verifier::ext_equal]
pub struct GroupRead {
    pub group: Seq<u8>,
    pub consumer: Seq<u8>,
    pub count: Option<i64>,
    pub noack: bool,
    pub now: i64,
}

/// The new entries that a group read gives.
pub open spec fn new_entries(s: StreamV, q: GroupRead) -> Seq<EntryV> {
    let all = entries_after(s.entries, s.groups[q.group].last_delivered_id);
    all.take(take_count(q.count, all.len() as int))
}

/// The group after new entries were read.
pub open spec fn group_read_new(s: StreamV, q: GroupRead) -> GroupV {
    let g = s.groups[q.group];
    let es = new_entries(s, q);
    let seen = touched(g, q.consumer, q.now);
    if es.len() == 0 {
        seen
    } else {
        let at = read_all(s, (g.entries_read, g.last_delivered_id), es);
        let moved = GroupV {
            entries_read: at.0,
            last_delivered_id: at.1,
            ..activated(seen, q.consumer, q.now)
        };
        if q.noack {
            moved
        } else {
            pends_reads(moved, q.consumer, es, q.now)
        }
    }
}

/// The stream after one of its groups changed.
pub open spec fn with_group(s: StreamV, name: Seq<u8>, g: GroupV) -> StreamV {
    StreamV { groups: s.groups.insert(name, g), ..s }
}

/// Reads new entries on behalf of a group. Tells whether the consumer was
/// created, and gives the positions of the entries.
fn read_new(
    stream: &mut InlineStream,
    group: &[u8],
    consumer: &[u8],
    count: Option<i64>,
    noack: bool,
    now: i64,
) -> (r: (bool, usize, usize))
    requires
        old(stream).wf(),
        old(stream)@.groups.contains_key(group@),
    ensures
        ({
            let s = old(stream)@;
            let q = GroupRead { group: group@, consumer: consumer@, count, noack, now };
            &&& final(stream).wf()
            &&& final(stream)@ == with_group(s, group@, group_read_new(s, q))
            &&& r.0 == !s.groups[group@].consumers.contains_key(consumer@)
            &&& r.1 <= r.2 <= final(stream).entries@.len()
            &&& final(stream)@.entries.subrange(r.1 as int, r.2 as int) == new_entries(s, q)
        }),
{
    let ghost s = stream@;
    let ghost q = GroupRead { group: group@, consumer: consumer@, count, noack, now };
    let (read, last): (i64, StreamId) = match stream.groups.get(group) {
        Some(g) => (g.entries_read, g.last_delivered_id),
        None => return (false, 0, 0),
    };
    proof {
        lemma_entry_rank(s.entries, last);
    }
    let from: usize = stream.upper_bound(last);
    let n: usize = counted(count, stream.entries.len() - from);
    let to: usize = from + n;
    assert(s.entries.subrange(from as int, to as int) =~= new_entries(s, q));
    let at: (i64, StreamId) = stream.advance_read_counter(read, last, from, to);
    let mut created: bool = false;
    match stream.groups.get_mut(group) {
        None => {},
        Some(g) => {
            created = touch_or_create_consumer(g, consumer, now);
            if n > 0 {
                activate(g, consumer, now);
                g.entries_read = at.0;
                g.last_delivered_id = at.1;
                if !noack {
                    pend_reads(g, consumer, &stream.entries, from, to, now);
                }
            }
        },
    }
    assert(stream@ =~= with_group(s, group@, group_read_new(s, q)));
    (created, from, to)
}

/// A pending list after an ID was delivered once more.
pub open spec fn bumped(s: Seq<PelEntry>, id: StreamId, now: i64) -> Seq<PelEntry> {
    if pel_has(s, id) {
        pel_put(
            s,
            PelEntry {
                entry_id: id,
                delivery_time_ms: now,
                delivery_count: raised(pel_at(s, id).delivery_count),
            },
        )
    } else {
        s
    }
}

/// The group after a pending ID was delivered once more.
pub open spec fn bumped_in(g: GroupV, consumer: Seq<u8>, id: StreamId, now: i64) -> GroupV {
    GroupV {
        pel: bumped(g.pel, id, now),
        consumers: if g.consumers.contains_key(consumer) {
            g.consumers.insert(
                consumer,
                ConsumerV {
                    pel: bumped(g.consumers[consumer].pel, id, now),
                    ..g.consumers[consumer]
                },
            )
        } else {
            g.consumers
        },
        ..g
    }
}

/// The group after pending entries were delivered once more.
pub open spec fn bumped_all(
    g: GroupV,
    consumer: Seq<u8>,
    ps: Seq<PelEntry>,
    now: i64,
) -> GroupV
    decreases ps.len(),
{
    if ps.len() == 0 {
        g
    } else {
        bumped_in(bumped_all(g, consumer, ps.drop_last(), now), consumer, ps.last().entry_id, now)
    }
}

/// Delivers a pending ID of a list once more.
fn bump(pel: &mut Vec<PelEntry>, id: StreamId, now: i64)
    requires
        pel_ascends(old(pel)@),
    ensures
        pel_ascends(final(pel)@),
        final(pel)@ == bumped(old(pel)@, id, now),
{
    match pel_find(pel, id) {
        Some(i) => {
            let n: u64 = pel[i].delivery_count.saturating_add(1);
            pel_upsert(
                pel,
                PelEntry { entry_id: id, delivery_time_ms: now, delivery_count: n },
            );
        },
        None => {},
    }
}

/// Delivers pending entries once more.
fn bump_all(g: &mut ConsumerGroup, consumer: &[u8], ps: &Vec<PelEntry>, now: i64)
    requires
        old(g).wf(),
    ensures
        final(g).wf(),
        final(g)@ == bumped_all(old(g)@, consumer@, ps@, now),
{
    let ghost start = g@;
    let mut i: usize = 0;
    while i < ps.len()
        invariant
            g.wf(),
            i <= ps@.len(),
            g@ == bumped_all(start, consumer@, ps@.take(i as int), now),
        decreases ps@.len() - i,
    {
        let ghost before = g@;
        let id: StreamId = ps[i].entry_id;
        if let Some(c) = g.consumers.get_mut(consumer) {
            bump(&mut c.pel, id, now);
        }
        bump(&mut g.pel, id, now);
        assert(g@ =~= bumped_in(before, consumer@, id, now));
        assert(ps@.take(i + 1).drop_last() =~= ps@.take(i as int));
        i += 1;
    }
    assert(ps@.take(i as int) =~= ps@);
}

/// The pending entries of a consumer from an ID on.
pub open spec fn pending_from(pel: Seq<PelEntry>, from: StreamId, count: Option<i64>) -> Seq<
    PelEntry,
> {
    let all = pel.filter(|p: PelEntry| !id_lt(p.entry_id, from));
    all.take(take_count(count, all.len() as int))
}

/// Copies the pending entries of a consumer from an ID on.
fn copy_pending(pel: &Vec<PelEntry>, from: StreamId, count: Option<i64>) -> (r: Vec<PelEntry>)
    requires
        pel_ascends(pel@),
    ensures
        r@ == pending_from(pel@, from, count),
{
    let mut lo: usize = 0;
    while lo < pel.len() && pel[lo].entry_id.less(from)
        invariant
            lo <= pel@.len(),
            forall|i: int| 0 <= i < lo ==> id_lt((#[trigger] pel@[i]).entry_id, from),
        decreases pel@.len() - lo,
    {
        lo += 1;
    }
    let total: usize = pel.len();
    let n: usize = counted(count, total - lo);
    proof {
        assert forall|i: int| lo <= i < pel@.len() implies !id_lt(
            (#[trigger] pel@[i]).entry_id,
            from,
        ) by {
            if i > lo {
                assert(id_lt(pel@[lo as int].entry_id, pel@[i].entry_id));
            }
        }
        lemma_filter_is_range(
            pel@,
            |p: PelEntry| !id_lt(p.entry_id, from),
            lo as int,
            pel@.len() as int,
        );
    }
    let mut r: Vec<PelEntry> = Vec::new();
    let mut i: usize = 0;
    while i < n
        invariant
            i <= n,
            lo + n <= pel@.len() == total,
            r@ =~= pel@.subrange(lo as int, lo + i),
        decreases n - i,
    {
        r.push(pel[lo + i]);
        i += 1;
    }
    assert(r@ =~= pending_from(pel@, from, count));
    r
}

/// A pending entry as a reply: the entry, or its ID and a null where the
/// stream has it no longer.
pub open spec fn pending_toks(entries: Seq<EntryV>, id: StreamId) -> Seq<Tok> {
    if has_entry(entries, id) {
        entry_toks(entries[entry_rank(entries, id)])
    } else {
        seq![Tok::Array(2), Tok::Bulk(id_text(id)), Tok::NullArray]
    }
}

/// Pending entries as replies.
pub open spec fn pendings_toks(entries: Seq<EntryV>, ps: Seq<PelEntry>) -> Seq<Tok>
    decreases ps.len(),
{
    if ps.len() == 0 {
        Seq::empty()
    } else {
        pendings_toks(entries, ps.drop_last()) + pending_toks(entries, ps.last().entry_id)
    }
}

/// A group read under way.
#[verifier::ext_equal]
pub struct ReadV {
    pub db: DbV,
    /// How many streams gave something, and what they gave.
    pub filled: nat,
    pub toks: Seq<Tok>,
    /// The streams that had no pending entries.
    pub empty: Seq<Seq<u8>>,
    /// The streams in which the consumer was created.
    pub created: Seq<Seq<u8>>,
}

/// The error for a key or group that does not exist, in a command with a GROUP
/// option.
pub open spec fn no_group_in(key: Seq<u8>, group: Seq<u8>, cmd: Seq<char>) -> ErrV {
    ErrV::Runtime(
        text("NOGROUP No such key '"@) + key + text("' or consumer group '"@) + group + text(
            "' in "@,
        ) + text(cmd) + text(" with GROUP option"@),
    )
}

/// The error for a key or group that does not exist.
pub open spec fn no_group(key: Seq<u8>, group: Seq<u8>) -> ErrV {
    ErrV::Runtime(
        text("NOGROUP No such key '"@) + key + text("' or consumer group '"@) + group + seq![39u8],
    )
}

/// The error for a key or group that does not exist, in a command with a GROUP
/// option.
fn no_such_key_or_group_err(key: &[u8], group: &[u8], cmd: &str) -> (r: RedisError)
    ensures
        r@ == no_group_in(key@, group@, cmd@),
{
    let mut m: Vec<u8> = crate::bytes::lit("NOGROUP No such key '");
    put(&mut m, key);
    put_text(&mut m, "' or consumer group '");
    put(&mut m, group);
    put_text(&mut m, "' in ");
    put_text(&mut m, cmd);
    put_text(&mut m, " with GROUP option");
    RedisError::Runtime(m)
}

/// The error for a key or group that does not exist.
pub fn no_such_key_or_group_short(key: &[u8], group: &[u8]) -> (r: RedisError)
    ensures
        r@ == no_group(key@, group@),
{
    let mut m: Vec<u8> = crate::bytes::lit("NOGROUP No such key '");
    put(&mut m, key);
    put_text(&mut m, "' or consumer group '");
    put(&mut m, group);
    m.push(39);
    proof {
        assert(m@ =~= text("NOGROUP No such key '"@) + key@ + text("' or consumer group '"@)
            + group@ + seq![39u8]);
    }
    RedisError::Runtime(m)
}

/// The read after one stream.
pub open spec fn reads_one(st: ReadV, key: Seq<u8>, start: GroupReadStartId, q: GroupRead) -> Result<
    ReadV,
    ErrV,
> {
    match stream_in(st.db, key) {
        Err(e) => Err(e),
        Ok(None) => Err(no_group_in(key, q.group, "XREADGROUP"@)),
        Ok(Some(s)) => if !s.groups.contains_key(q.group) {
            Err(no_group_in(key, q.group, "XREADGROUP"@))
        } else {
            let g = s.groups[q.group];
            let created = if g.consumers.contains_key(q.consumer) {
                st.created
            } else {
                st.created.push(key)
            };
            match start {
                GroupReadStartId::New => {
                    let es = new_entries(s, q);
                    let t = with_group(s, q.group, group_read_new(s, q));
                    let d = db_update(st.db, key, ObjV::Stream(t));
                    if es.len() == 0 {
                        Ok(ReadV { db: d, created, ..st })
                    } else {
                        Ok(
                            ReadV {
                                db: d,
                                created,
                                filled: st.filled + 1,
                                toks: st.toks + key_entries_toks(key, es),
                                ..st
                            },
                        )
                    }
                },
                GroupReadStartId::From(id) => {
                    let seen = touched(g, q.consumer, q.now);
                    let ps = pending_from(seen.consumers[q.consumer].pel, id, q.count);
                    let t = with_group(
                        s,
                        q.group,
                        bumped_all(seen, q.consumer, ps, q.now),
                    );
                    let d = db_update(st.db, key, ObjV::Stream(t));
                    if ps.len() == 0 {
                        Ok(ReadV { db: d, created, empty: st.empty.push(key), ..st })
                    } else {
                        Ok(
                            ReadV {
                                db: d,
                                created,
                                filled: st.filled + 1,
                                toks: st.toks + seq![
                                    Tok::Array(2),
                                    Tok::Bulk(key),
                                    Tok::Array(ps.len()),
                                ] + pendings_toks(s.entries, ps),
                                ..st
                            },
                        )
                    }
                },
            }
        },
    }
}

/// The read after some streams, and the error that ended it, if any. What was
/// read before the error stays read.
pub open spec fn reads_all(
    st: ReadV,
    keys: Seq<Seq<u8>>,
    starts: Seq<GroupReadStartId>,
    q: GroupRead,
) -> (ReadV, Option<ErrV>)
    decreases keys.len(),
{
    if keys.len() == 0 {
        (st, None)
    } else {
        let (before, err) = reads_all(st, keys.drop_last(), starts.drop_last(), q);
        if err is Some {
            (before, err)
        } else {
            match reads_one(before, keys.last(), starts.last(), q) {
                Ok(after) => (after, None),
                Err(e) => (before, Some(e)),
            }
        }
    }
}

proof fn lemma_reads_prefix(
    st: ReadV,
    keys: Seq<Seq<u8>>,
    starts: Seq<GroupReadStartId>,
    q: GroupRead,
    n: int,
)
    requires
        0 <= n <= keys.len() == starts.len(),
        reads_all(st, keys.take(n), starts.take(n), q).1 is Some,
    ensures
        reads_all(st, keys, starts, q) == reads_all(st, keys.take(n), starts.take(n), q),
    decreases keys.len() - n,
{
    if n == keys.len() {
        assert(keys.take(n) =~= keys);
        assert(starts.take(n) =~= starts);
    } else {
        assert(keys.take(n + 1).drop_last() =~= keys.take(n));
        assert(starts.take(n + 1).drop_last() =~= starts.take(n));
        lemma_reads_prefix(st, keys, starts, q, n + 1);
    }
}

/// Adds pending entries to a reply.
fn put_pendings(out: &mut Vec<Reply>, s: &InlineStream, ps: &Vec<PelEntry>)
    requires
        s.wf(),
    ensures
        toks(final(out)@) == toks(old(out)@) + pendings_toks(s@.entries, ps@),
{
    let ghost first = toks(out@);
    let mut i: usize = 0;
    proof {
        assert(ps@.take(0) =~= Seq::empty());
        assert(first =~= first + pendings_toks(s@.entries, ps@.take(0)));
    }
    while i < ps.len()
        invariant
            s.wf(),
            i <= ps@.len(),
            toks(out@) == first + pendings_toks(s@.entries, ps@.take(i as int)),
        decreases ps@.len() - i,
    {
        let id: StreamId = ps[i].entry_id;
        let ghost before = toks(out@);
        match s.find_entry(id) {
            Some(k) => {
                put_entry(out, &s.entries[k]);
                assert(s@.entries[k as int] == s.entries@[k as int]@);
            },
            None => {
                out.push(Reply::Array(2));
                out.push(Reply::Bulk(id.to_display_bytes()));
                out.push(Reply::NullArray);
                assert(toks(out@) =~= before + pending_toks(s@.entries, id));
            },
        }
        proof {
            assert(ps@.take(i + 1).drop_last() =~= ps@.take(i as int));
            assert(toks(out@) =~= first + pendings_toks(s@.entries, ps@.take(i + 1)));
        }
        i += 1;
    }
    assert(ps@.take(i as int) =~= ps@);
}

/// What a group read has gathered so far.
pub struct GroupReadState {
    pub filled: usize,
    pub out: Vec<Reply>,
    pub empty: Vec<Vec<u8>>,
    pub created: Vec<Vec<u8>>,
}

/// The state of a group read on a database.
pub open spec fn read_state(db: DbV, st: GroupReadState) -> ReadV {
    ReadV {
        db,
        filled: st.filled as nat,
        toks: toks(st.out@),
        empty: views(st.empty@),
        created: views(st.created@),
    }
}

/// Reads pending entries of a consumer. Tells whether the consumer was created,
/// and gives the entries.
fn read_pending(
    stream: &mut InlineStream,
    group: &[u8],
    consumer: &[u8],
    from: StreamId,
    count: Option<i64>,
    now: i64,
) -> (r: (bool, Vec<PelEntry>))
    requires
        old(stream).wf(),
        old(stream)@.groups.contains_key(group@),
    ensures
        ({
            let s = old(stream)@;
            let g = s.groups[group@];
            let seen = touched(g, consumer@, now);
            let ps = pending_from(seen.consumers[consumer@].pel, from, count);
            &&& final(stream).wf()
            &&& final(stream)@ == with_group(
                s,
                group@,
                bumped_all(seen, consumer@, ps, now),
            )
            &&& r.0 == !g.consumers.contains_key(consumer@)
            &&& r.1@ == ps
        }),
{
    let ghost s = stream@;
    match stream.groups.get_mut(group) {
        None => (false, Vec::new()),
        Some(g) => {
            let created: bool = touch_or_create_consumer(g, consumer, now);
            let ps: Vec<PelEntry> = match g.consumers.get(consumer) {
                Some(c) => copy_pending(&c.pel, from, count),
                None => Vec::new(),
            };
            bump_all(g, consumer, &ps, now);
            proof {
                assert(stream@ =~= with_group(s, group@, stream@.groups[group@]));
            }
            (created, ps)
        },
    }
}

/// Reads one stream on behalf of a group.
fn read_group_stream(
    db: &mut RedisDb,
    key: &[u8],
    start: GroupReadStartId,
    group: &[u8],
    consumer: &[u8],
    count: Option<i64>,
    noack: bool,
    now: i64,
    st: &mut GroupReadState,
) -> (r: Result<(), RedisError>)
    requires
        old(db).wf(),
        old(st).filled < usize::MAX,
    ensures
        final(db).wf(),
        ({
            let q = GroupRead { group: group@, consumer: consumer@, count, noack, now };
            let s = reads_one(read_state(old(db)@, *old(st)), key@, start, q);
            match r {
                Ok(()) => s == Ok::<_, ErrV>(read_state(final(db)@, *final(st))) && final(st).filled
                    <= old(st).filled + 1,
                Err(e) => s == Err::<ReadV, _>(e@) && final(db)@ == old(db)@ && *final(st) == *old(
                    st,
                ),
            }
        }),
{
    let ghost d = db@;
    let ghost q = GroupRead { group: group@, consumer: consumer@, count, noack, now };
    let ghost before = read_state(d, *st);
    match db.stream_for_write(key) {
        Err(e) => Err(e),
        Ok(None) => Err(no_such_key_or_group_err(key, group, "XREADGROUP")),
        Ok(Some(s)) => {
            let ghost sv = s@;
            if !s.groups.contains(group) {
                assert(d =~= db_update(d, key@, ObjV::Stream(sv)));
                return Err(no_such_key_or_group_err(key, group, "XREADGROUP"));
            }
            match start {
                GroupReadStartId::New => {
                    let (created, from, to): (bool, usize, usize) = read_new(
                        s,
                        group,
                        consumer,
                        count,
                        noack,
                        now,
                    );
                    if created {
                        st.created.push(dup(key));
                    }
                    if from < to {
                        put_key_entries(&mut st.out, key, &s.entries, from, to);
                        st.filled = st.filled + 1;
                    }
                },
                GroupReadStartId::From(id) => {
                    let (created, ps): (bool, Vec<PelEntry>) = read_pending(
                        s,
                        group,
                        consumer,
                        id,
                        count,
                        now,
                    );
                    if created {
                        st.created.push(dup(key));
                    }
                    if ps.len() == 0 {
                        st.empty.push(dup(key));
                    } else {
                        st.out.push(Reply::Array(2));
                        st.out.push(Reply::Bulk(dup(key)));
                        st.out.push(Reply::Array(ps.len() as u128));
                        proof {
                            assert(toks(st.out@) =~= before.toks + seq![
                                Tok::Array(2),
                                Tok::Bulk(key@),
                                Tok::Array(ps@.len()),
                            ]);
                        }
                        put_pendings(&mut st.out, s, &ps);
                        st.filled = st.filled + 1;
                    }
                },
            }
            Ok(())
        },
    }
}

/// The context after an event was raised for each of some keys.
pub open spec fn raises_each(c: CtxV, name: Seq<char>, keys: Seq<Seq<u8>>) -> CtxV
    decreases keys.len(),
{
    if keys.len() == 0 {
        c
    } else {
        raises(raises_each(c, name, keys.drop_last()), EventClass::Stream, name, keys.last())
    }
}

/// One waiting entry per key, on behalf of a group.
pub open spec fn group_waiters(
    c: CtxV,
    keys: Seq<Seq<u8>>,
    q: GroupRead,
    ms: i64,
) -> Seq<WaiterV> {
    Seq::new(
        keys.len(),
        |k: int|
            WaiterV {
                client_id: c.client.id,
                key: keys[k],
                action: ActionV::StreamGroup {
                    id_after: match stream_in(c.db, keys[k]) {
                        Ok(Some(s)) => s.last_id,
                        _ => zero_id(),
                    },
                    group: q.group,
                    consumer: q.consumer,
                    count: q.count,
                    noack: q.noack,
                },
                deadline_ms: deadline(c.now, ms),
                resp_proto: c.client.resp_proto,
                user: c.client.user,
                redirect_on_role_change: c.client.capa_redirect,
            },
    )
}

/// The streams without pending entries, each with an empty array.
pub open spec fn empty_toks(keys: Seq<Seq<u8>>) -> Seq<Tok>
    decreases keys.len(),
{
    if keys.len() == 0 {
        Seq::empty()
    } else {
        empty_toks(keys.drop_last()) + seq![Tok::Array(2), Tok::Bulk(keys.last()), Tok::Array(0)]
    }
}

/// How XREADGROUP ends, once the streams were read.
pub open spec fn readgroup_replies(
    c: CtxV,
    st: ReadV,
    keys: Seq<Seq<u8>>,
    starts: Seq<GroupReadStartId>,
    q: GroupRead,
    block_ms: Option<i64>,
) -> Outcome {
    let noted = raises_each(with_db(c, st.db), "xgroup-createconsumer"@, st.created);
    let all_new = forall|k: int| 0 <= k < starts.len() ==> #[trigger] starts[k] is New;
    if st.filled > 0 {
        replies(noted, seq![Tok::Array(st.filled)] + st.toks)
    } else if block_ms is Some && all_new && !c.client.deny_blocking && c.client.attached {
        Outcome {
            result: Ok(()),
            ctx: CtxV {
                blocked: c.blocked + group_waiters(noted, keys, q, block_ms->Some_0),
                client: ClientV { blocked_on_keys: true, ..c.client },
                ..noted
            },
        }
    } else if all_new {
        replies_one(noted, Tok::NullArray)
    } else {
        replies(noted, seq![Tok::Array(st.empty.len())] + empty_toks(st.empty))
    }
}

/// How XREADGROUP ends.
pub open spec fn xreadgroup_outcome(c: CtxV) -> Outcome {
    let argv = c.client.argv;
    if argv.len() < 7 {
        fails(c, wrong_args("xreadgroup"@))
    } else if !is_word(argv[1], "GROUP"@) {
        fails(c, syntax("Missing GROUP option for XREADGROUP"@))
    } else {
        match read_options(
            argv,
            4,
            true,
            ReadOptions { count: None, block_ms: None, noack: false },
        ) {
            Err(e) => fails(c, e),
            Ok((o, at)) => {
                let n = (argv.len() - at) / 2;
                if argv.len() == at || (argv.len() - at) % 2 != 0 {
                    fails(
                        c,
                        runtime(
                            "ERR Unbalanced 'xreadgroup' list of streams: for each stream key an ID or '>' must be specified."@,
                        ),
                    )
                } else {
                    let keys = argv.subrange(at, at + n);
                    let q = GroupRead {
                        group: argv[2],
                        consumer: argv[3],
                        count: o.count,
                        noack: o.noack,
                        now: clamped(c.now),
                    };
                    match group_starts(argv.skip(at + n)) {
                        Err(e) => fails(c, e),
                        Ok(starts) => {
                            let (st, err) = reads_all(
                                ReadV {
                                    db: c.db,
                                    filled: 0,
                                    toks: Seq::empty(),
                                    empty: Seq::empty(),
                                    created: Seq::empty(),
                                },
                                keys,
                                starts,
                                q,
                            );
                            match err {
                                Some(e) => fails(with_db(c, st.db), e),
                                None => readgroup_replies(c, st, keys, starts, q, o.block_ms),
                            }
                        },
                    }
                }
            },
        }
    }
}

/// Raises an event for each of some keys.
fn notify_each(ctx: &mut CommandContext, name: &str, keys: &Vec<Vec<u8>>)
    ensures
        final(ctx)@ == raises_each(old(ctx)@, name@, views(keys@)),
        final(ctx).db == old(ctx).db,
{
    let ghost c = ctx@;
    let ghost all = views(keys@);
    let mut i: usize = 0;
    assert(all.take(0) =~= Seq::empty());
    while i < keys.len()
        invariant
            i <= keys@.len(),
            all == views(keys@),
            ctx.db == old(ctx).db,
            ctx@ == raises_each(c, name@, all.take(i as int)),
        decreases keys@.len() - i,
    {
        ctx.notify_keyspace_event(EventClass::Stream, name, &keys[i]);
        assert(all.take(i + 1).drop_last() =~= all.take(i as int));
        i += 1;
    }
    assert(all.take(i as int) =~= all);
}

/// Raising events changes nothing but the list of events.
proof fn lemma_raises_each(c: CtxV, name: Seq<char>, keys: Seq<Seq<u8>>)
    ensures
        raises_each(c, name, keys) == (CtxV {
            events: raises_each(c, name, keys).events,
            ..c
        }),
    decreases keys.len(),
{
    if keys.len() > 0 {
        lemma_raises_each(c, name, keys.drop_last());
    }
}

/// Registers a client that found nothing as a reader on behalf of a group.
fn park_group(
    ctx: &mut CommandContext,
    at: usize,
    n: usize,
    group: &[u8],
    consumer: &[u8],
    o: ReadOptions,
    ms: i64,
)
    requires
        old(ctx).wf(),
        at + n <= old(ctx)@.client.argv.len(),
    ensures
        final(ctx).wf(),
        ({
            let c = old(ctx)@;
            let q = GroupRead {
                group: group@,
                consumer: consumer@,
                count: o.count,
                noack: o.noack,
                now: clamped(c.now),
            };
            final(ctx)@ == (CtxV {
                blocked: c.blocked + group_waiters(
                    c,
                    c.client.argv.subrange(at as int, at + n),
                    q,
                    ms,
                ),
                client: ClientV { blocked_on_keys: true, ..c.client },
                ..c
            })
        }),
{
    let ghost c = ctx@;
    let ghost q = GroupRead {
        group: group@,
        consumer: consumer@,
        count: o.count,
        noack: o.noack,
        now: clamped(c.now),
    };
    let ghost keys = c.client.argv.subrange(at as int, at + n);
    let ghost all = group_waiters(c, keys, q, ms);
    let deadline_ms: i64 = deadline_at(ctx.now_ms, ms);
    let argc: usize = ctx.arg_count();
    let mut k: usize = 0;
    while k < n
        invariant
            k <= n,
            at + n <= c.client.argv.len() == argc,
            c == old(ctx)@,
            keys == c.client.argv.subrange(at as int, at + n),
            q == (GroupRead {
                group: group@,
                consumer: consumer@,
                count: o.count,
                noack: o.noack,
                now: clamped(c.now),
            }),
            all == group_waiters(c, keys, q, ms),
            deadline_ms == deadline(c.now, ms),
            ctx.client == old(ctx).client,
            ctx.db == old(ctx).db,
            ctx.db.wf(),
            ctx.replies == old(ctx).replies,
            ctx.events == old(ctx).events,
            ctx.notify == old(ctx).notify,
            ctx.outbox == old(ctx).outbox,
            ctx.now_ms == old(ctx).now_ms,
            ctx.dirty == old(ctx).dirty,
            waiter_views(ctx.blocked@) =~= c.blocked + all.take(k as int),
        decreases n - k,
    {
        let key: Vec<u8> = ctx.arg_owned(at + k);
        let id_after: StreamId = match ctx.db.stream_at(&key) {
            Ok(Some(s)) => s.last_id,
            _ => StreamId::zero(),
        };
        let w = BlockedWaiter {
            client_id: ctx.client.id,
            key,
            action: BlockedAction::StreamGroup {
                id_after,
                group: dup(group),
                consumer: dup(consumer),
                count: o.count,
                noack: o.noack,
            },
            deadline_ms,
            resp_proto: ctx.client.resp_proto,
            user: dup(&ctx.client.user),
            redirect_on_role_change: ctx.client.capa_redirect,
        };
        proof {
            assert(w@ == all[k as int]);
            lemma_waiters_push(ctx.blocked@, w);
        }
        ctx.blocked.push(w);
        k += 1;
    }
    assert(all.take(k as int) =~= all);
    ctx.client.blocked_on_keys = true;
    assert(ctx@.blocked =~= c.blocked + all);
}

/// Reads streams on behalf of a group, one after the other.
fn read_group_streams(
    ctx: &mut CommandContext,
    at: usize,
    starts: &Vec<GroupReadStartId>,
    o: ReadOptions,
    st: &mut GroupReadState,
) -> (r: Result<(), RedisError>)
    requires
        old(ctx).wf(),
        old(ctx)@.client.argv.len() >= 4,
        at + starts@.len() <= old(ctx)@.client.argv.len(),
        old(st).filled == 0,
    ensures
        final(ctx).wf(),
        ({
            let c = old(ctx)@;
            let q = GroupRead {
                group: c.client.argv[2],
                consumer: c.client.argv[3],
                count: o.count,
                noack: o.noack,
                now: clamped(c.now),
            };
            let keys = c.client.argv.subrange(at as int, at + starts@.len());
            let (s, err) = reads_all(read_state(c.db, *old(st)), keys, starts@, q);
            &&& final(ctx)@ == with_db(c, s.db)
            &&& match r {
                Ok(()) => err is None && s == read_state(s.db, *final(st)),
                Err(e) => err == Some(e@),
            }
        }),
{
    let ghost c = ctx@;
    let ghost q = GroupRead {
        group: c.client.argv[2],
        consumer: c.client.argv[3],
        count: o.count,
        noack: o.noack,
        now: clamped(c.now),
    };
    let ghost keys = c.client.argv.subrange(at as int, at + starts@.len());
    let ghost init = read_state(c.db, *st);
    let group: Vec<u8> = ctx.arg_owned(2);
    let consumer: Vec<u8> = ctx.arg_owned(3);
    let now: i64 = now_ms_clamped(ctx.now_ms);
    let argc: usize = ctx.arg_count();
    let mut k: usize = 0;
    proof {
        assert(keys.take(0) =~= Seq::empty());
        assert(ctx@ =~= with_db(c, ctx.db@));
    }
    while k < starts.len()
        invariant
            k <= starts@.len(),
            at + starts@.len() <= c.client.argv.len() == argc,
            keys == c.client.argv.subrange(at as int, at + starts@.len()),
            q == (GroupRead {
                group: group@,
                consumer: consumer@,
                count: o.count,
                noack: o.noack,
                now,
            }),
            ctx.db.wf(),
            ctx@ == with_db(c, ctx.db@),
            c == old(ctx)@,
            init == read_state(c.db, *old(st)),
            group@ == c.client.argv[2],
            consumer@ == c.client.argv[3],
            now == clamped(c.now),
            st.filled <= k,
            reads_all(init, keys.take(k as int), starts@.take(k as int), q) == (
                read_state(ctx.db@, *st),
                None::<ErrV>,
            ),
        decreases starts@.len() - k,
    {
        let key: Vec<u8> = ctx.arg_owned(at + k);
        proof {
            assert(keys.take(k + 1).drop_last() =~= keys.take(k as int));
            assert(starts@.take(k + 1).drop_last() =~= starts@.take(k as int));
            assert(keys.take(k + 1).last() == key@);
            assert(starts@.take(k + 1).last() == starts@[k as int]);
        }
        match read_group_stream(
            &mut ctx.db,
            &key,
            starts[k],
            &group,
            &consumer,
            o.count,
            o.noack,
            now,
            st,
        ) {
            Err(e) => {
                proof {
                    lemma_reads_prefix(init, keys, starts@, q, k + 1);
                }
                return Err(e);
            },
            Ok(()) => {},
        }
        k += 1;
    }
    proof {
        assert(keys.take(k as int) =~= keys);
        assert(starts@.take(k as int) =~= starts@);
    }
    Ok(())
}

/// Whether every read is one of new entries.
fn are_all_new(starts: &Vec<GroupReadStartId>) -> (r: bool)
    ensures
        r == (forall|k: int| 0 <= k < starts@.len() ==> #[trigger] starts@[k] is New),
{
    let mut i: usize = 0;
    while i < starts.len()
        invariant
            i <= starts@.len(),
            forall|k: int| 0 <= k < i ==> #[trigger] starts@[k] is New,
        decreases starts@.len() - i,
    {
        match starts[i] {
            GroupReadStartId::New => {},
            GroupReadStartId::From(_) => {
                assert(!(starts@[i as int] is New));
                return false;
            },
        }
        i += 1;
    }
    true
}

/// Adds streams without pending entries to a reply.
fn put_empties(out: &mut Vec<Reply>, keys: &Vec<Vec<u8>>)
    ensures
        toks(final(out)@) == toks(old(out)@) + empty_toks(views(keys@)),
{
    let ghost first = toks(out@);
    let ghost all = views(keys@);
    let mut i: usize = 0;
    proof {
        assert(all.take(0) =~= Seq::empty());
        assert(first =~= first + empty_toks(all.take(0)));
    }
    while i < keys.len()
        invariant
            i <= keys@.len(),
            all == views(keys@),
            toks(out@) == first + empty_toks(all.take(i as int)),
        decreases keys@.len() - i,
    {
        out.push(Reply::Array(2));
        out.push(Reply::Bulk(dup(&keys[i])));
        out.push(Reply::Array(0));
        proof {
            assert(all.take(i + 1).drop_last() =~= all.take(i as int));
            assert(toks(out@) =~= first + empty_toks(all.take(i + 1)));
        }
        i += 1;
    }
    assert(all.take(i as int) =~= all);
}

/// Replies with the streams that have entries.
fn reply_filled(ctx: &mut CommandContext, filled: usize, out: Vec<Reply>)
    ensures
        final(ctx).db == old(ctx).db,
        done(Ok(()), final(ctx)@) == replies(
            old(ctx)@,
            seq![Tok::Array(filled as nat)] + toks(out@),
        ),
{
    let ghost tail = toks(out@);
    let mut out = out;
    let mut whole: Vec<Reply> = Vec::new();
    whole.push(Reply::Array(filled as u128));
    whole.append(&mut out);
    assert(toks(whole@) =~= seq![Tok::Array(filled as nat)] + tail);
    ctx.reply_all(whole);
}

/// Replies with streams without pending entries.
fn reply_empties(ctx: &mut CommandContext, keys: &Vec<Vec<u8>>)
    ensures
        final(ctx).db == old(ctx).db,
        done(Ok(()), final(ctx)@) == replies(
            old(ctx)@,
            seq![Tok::Array(keys@.len())] + empty_toks(views(keys@)),
        ),
{
    let mut whole: Vec<Reply> = Vec::new();
    whole.push(Reply::Array(keys.len() as u128));
    put_empties(&mut whole, keys);
    assert(toks(whole@) =~= seq![Tok::Array(keys@.len())] + empty_toks(views(keys@)));
    ctx.reply_all(whole);
}

/// Replies to an XREADGROUP once the streams were read.
fn finish_readgroup(
    ctx: &mut CommandContext,
    st: GroupReadState,
    at: usize,
    starts: &Vec<GroupReadStartId>,
    o: ReadOptions,
    Ghost(before): Ghost<CtxV>,
) -> (r: Result<(), RedisError>)
    requires
        old(ctx).wf(),
        old(ctx)@ == with_db(before, old(ctx)@.db),
        old(ctx)@.client.argv.len() >= 4,
        at + starts@.len() <= old(ctx)@.client.argv.len(),
    ensures
        final(ctx).wf(),
        ({
            let q = GroupRead {
                group: before.client.argv[2],
                consumer: before.client.argv[3],
                count: o.count,
                noack: o.noack,
                now: clamped(before.now),
            };
            done(r, final(ctx)@) == readgroup_replies(
                before,
                read_state(old(ctx)@.db, st),
                before.client.argv.subrange(at as int, at + starts@.len()),
                starts@,
                q,
                o.block_ms,
            )
        }),
{
    let ghost d = ctx@.db;
    let group: Vec<u8> = ctx.arg_owned(2);
    let consumer: Vec<u8> = ctx.arg_owned(3);
    notify_each(ctx, "xgroup-createconsumer", &st.created);
    proof {
        lemma_raises_each(with_db(before, d), "xgroup-createconsumer"@, views(st.created@));
    }
    if st.filled > 0 {
        reply_filled(ctx, st.filled, st.out);
        return Ok(());
    }
    let all_new: bool = are_all_new(starts);
    if let Some(ms) = o.block_ms {
        if all_new && !ctx.client.deny_blocking && ctx.client.attached {
            park_group(ctx, at, starts.len(), &group, &consumer, o, ms);
            return Ok(());
        }
    }
    if all_new {
        return ctx.reply_null_array();
    }
    reply_empties(ctx, &st.empty);
    Ok(())
}

/// XREADGROUP GROUP group consumer [COUNT n] [BLOCK ms] [NOACK]
/// STREAMS key [key ...] id [id ...]
pub fn xreadgroup_command(ctx: &mut CommandContext) -> (r: Result<(), RedisError>)
    requires
        old(ctx).wf(),
    ensures
        final(ctx).wf(),
        done(r, final(ctx)@) == xreadgroup_outcome(old(ctx)@),
{
    let ghost c = ctx@;
    let argc: usize = ctx.arg_count();
    if argc < 7 {
        return Err(RedisError::wrong_number_of_args("xreadgroup"));
    }
    if !word(&ctx.client.argv[1], "GROUP") {
        return Err(RedisError::syntax("Missing GROUP option for XREADGROUP"));
    }
    let (o, at): (ReadOptions, usize) = match parse_read_options(&ctx.client.argv, 4, true) {
        Err(e) => return Err(e),
        Ok(p) => p,
    };
    let remaining: usize = argc - at;
    if remaining == 0 || remaining % 2 != 0 {
        return Err(
            RedisError::runtime(
                "ERR Unbalanced 'xreadgroup' list of streams: for each stream key an ID or '>' must be specified.",
            ),
        );
    }
    let n_keys: usize = remaining / 2;
    let starts: Vec<GroupReadStartId> = match parse_group_starts(&ctx.client.argv, at + n_keys) {
        Err(e) => return Err(e),
        Ok(s) => s,
    };
    let mut st = GroupReadState {
        filled: 0,
        out: Vec::new(),
        empty: Vec::new(),
        created: Vec::new(),
    };
    proof {
        assert(read_state(c.db, st) =~= (ReadV {
            db: c.db,
            filled: 0,
            toks: Seq::empty(),
            empty: Seq::empty(),
            created: Seq::empty(),
        }));
    }
    match read_group_streams(ctx, at, &starts, o, &mut st) {
        Err(e) => return Err(e),
        Ok(()) => {},
    }
    finish_readgroup(ctx, st, at, &starts, o, Ghost(c))
}

// ---------------------------------------------------------------------------
// XACK
// ---------------------------------------------------------------------------

/// The group after some IDs were acknowledged, and how many of them were
/// pending.
pub open spec fn acked_all(g: GroupV, ids: Seq<StreamId>) -> (GroupV, nat)
    decreases ids.len(),
{
    if ids.len() == 0 {
        (g, 0)
    } else {
        let (h, n) = acked_all(g, ids.drop_last());
        (
            pel_removed(h, ids.last()),
            if pel_has(h.pel, ids.last()) {
                n + 1
            } else {
                n
            },
        )
    }
}

/// Acknowledges some IDs. Gives how many of them were pending.
fn ack_all(g: &mut ConsumerGroup, ids: &Vec<StreamId>) -> (r: usize)
    requires
        old(g).wf(),
    ensures
        final(g).wf(),
        (final(g)@, r as nat) == acked_all(old(g)@, ids@),
{
    let ghost start = g@;
    let mut n: usize = 0;
    let mut i: usize = 0;
    while i < ids.len()
        invariant
            g.wf(),
            n <= i <= ids@.len(),
            (g@, n as nat) == acked_all(start, ids@.take(i as int)),
        decreases ids@.len() - i,
    {
        assert(ids@.take(i + 1).drop_last() =~= ids@.take(i as int));
        if pel_remove(g, ids[i]) {
            n += 1;
        }
        i += 1;
    }
    assert(ids@.take(i as int) =~= ids@);
    n
}

/// How XACK ends.
pub open spec fn xack_outcome(c: CtxV) -> Outcome {
    let argv = c.client.argv;
    if argv.len() < 4 {
        fails(c, wrong_args("xack"@))
    } else {
        match id_list(argv.skip(3)) {
            Err(e) => fails(c, e),
            Ok(ids) => match stream_in(c.db, argv[1]) {
                Err(e) => fails(c, e),
                Ok(None) => replies_one(c, Tok::Int(0)),
                Ok(Some(s)) => if !s.groups.contains_key(argv[2]) {
                    replies_one(c, Tok::Int(0))
                } else {
                    let (g, n) = acked_all(s.groups[argv[2]], ids);
                    replies_one(
                        with_db(
                            c,
                            db_update(c.db, argv[1], ObjV::Stream(with_group(s, argv[2], g))),
                        ),
                        Tok::Int(n as i64 as int),
                    )
                },
            },
        }
    }
}

/// XACK key group id [id ...]
pub fn xack_command(ctx: &mut CommandContext) -> (r: Result<(), RedisError>)
    requires
        old(ctx).wf(),
    ensures
        final(ctx).wf(),
        done(r, final(ctx)@) == xack_outcome(old(ctx)@),
{
    let ghost c = ctx@;
    if ctx.arg_count() < 4 {
        return Err(RedisError::wrong_number_of_args("xack"));
    }
    let key: Vec<u8> = ctx.arg_owned(1);
    let group: Vec<u8> = ctx.arg_owned(2);
    let ids: Vec<StreamId> = match parse_ids(&ctx.client.argv, 3) {
        Err(e) => return Err(e),
        Ok(ids) => ids,
    };
    let n: usize = match ctx.db.stream_for_write(&key) {
        Err(e) => return Err(e),
        Ok(None) => 0,
        Ok(Some(s)) => {
            let ghost sv = s@;
            assert(c.db =~= db_update(c.db, key@, ObjV::Stream(sv)));
            match s.groups.get_mut(&group) {
                None => 0,
                Some(g) => ack_all(g, &ids),
            }
        },
    };
    ctx.reply_integer(n as i64)
}

// ---------------------------------------------------------------------------
// XGROUP
// ---------------------------------------------------------------------------

/// The optional `ENTRIESREAD n` at the end of XGROUP CREATE and SETID.
pub open spec fn entries_read_suffix(argv: Seq<Seq<u8>>, start: int) -> Result<Option<i64>, ErrV> {
    if start >= argv.len() {
        Ok(None)
    } else if !is_word(argv[start], "ENTRIESREAD"@) || start + 1 >= argv.len() {
        Err(syntax("syntax error"@))
    } else {
        match strict_i64(argv[start + 1]) {
            Err(_) => Err(runtime("ERR value for ENTRIESREAD must be positive or -1"@)),
            Ok(n) => if n < 0 && n != SCG_INVALID_ENTRIES_READ {
                Err(runtime("ERR value for ENTRIESREAD must be positive or -1"@))
            } else if start + 2 != argv.len() {
                Err(syntax("syntax error"@))
            } else {
                Ok(Some(n))
            },
        }
    }
}

/// Parses the optional `ENTRIESREAD n`.
fn parse_entries_read_suffix(argv: &Vec<Vec<u8>>, start: usize) -> (r: Result<
    Option<i64>,
    RedisError,
>)
    ensures
        match r {
            Ok(n) => entries_read_suffix(views(argv@), start as int) == Ok::<_, ErrV>(n),
            Err(e) => entries_read_suffix(views(argv@), start as int) == Err::<Option<i64>, _>(e@),
        },
{
    let argc: usize = argv.len();
    if start >= argc {
        return Ok(None);
    }
    if !word(&argv[start], "ENTRIESREAD") {
        return Err(RedisError::syntax("syntax error"));
    }
    if start + 1 >= argc {
        return Err(RedisError::syntax("syntax error"));
    }
    match parse_strict_i64(&argv[start + 1]) {
        Err(_) => Err(RedisError::runtime("ERR value for ENTRIESREAD must be positive or -1")),
        Ok(n) => {
            if n < 0 && n != SCG_INVALID_ENTRIES_READ {
                return Err(
                    RedisError::runtime("ERR value for ENTRIESREAD must be positive or -1"),
                );
            }
            if start + 2 != argc {
                return Err(RedisError::syntax("syntax error"));
            }
            Ok(Some(n))
        },
    }
}

/// Where the words MKSTREAM from position `i` on end.
pub open spec fn mkstream_end(argv: Seq<Seq<u8>>, i: int) -> int
    decreases argv.len() - i,
{
    if 0 <= i < argv.len() && is_word(argv[i], "MKSTREAM"@) {
        mkstream_end(argv, i + 1)
    } else {
        i
    }
}

/// An ID, `$` for the last ID of a stream, or `-` for the smallest ID.
pub open spec fn id_or_dollar(s: Seq<u8>, last: StreamId) -> Result<StreamId, ErrV> {
    if s == text("$"@) {
        Ok(last)
    } else if s == text("-"@) {
        Ok(zero_id())
    } else {
        explicit_id(s)
    }
}

/// Parses an ID, `$` or `-`.
fn parse_id_or_dollar(s: &[u8], last: StreamId) -> (r: Result<StreamId, RedisError>)
    ensures
        match r {
            Ok(id) => id_or_dollar(s@, last) == Ok::<_, ErrV>(id),
            Err(e) => id_or_dollar(s@, last) == Err::<StreamId, _>(e@),
        },
{
    if is_text(s, "$") {
        Ok(last)
    } else if is_text(s, "-") {
        Ok(StreamId::zero())
    } else {
        parse_explicit_id(s)
    }
}

/// The error for a key that has to exist.
pub open spec fn key_must_exist() -> ErrV {
    runtime(
        "ERR The XGROUP subcommand requires the key to exist. Note that for CREATE you may want to use the MKSTREAM option to create an empty stream automatically."@,
    )
}

/// The error for a key that has to exist.
fn key_must_exist_err() -> (r: RedisError)
    ensures
        r@ == key_must_exist(),
{
    RedisError::runtime(
        "ERR The XGROUP subcommand requires the key to exist. Note that for CREATE you may want to use the MKSTREAM option to create an empty stream automatically.",
    )
}

/// How XGROUP CREATE ends on a stream.
pub open spec fn create_group(c: CtxV, s: StreamV, read: Option<i64>) -> Outcome {
    let argv = c.client.argv;
    match id_or_dollar(argv[4], s.last_id) {
        Err(e) => fails(c, e),
        Ok(id) => if s.groups.contains_key(argv[3]) {
            fails(c, runtime("BUSYGROUP Consumer Group name already exists"@))
        } else {
            let g = GroupV {
                entries_read: match read {
                    Some(n) => n,
                    None => SCG_INVALID_ENTRIES_READ,
                },
                ..new_group(id)
            };
            let d = db_update(c.db, argv[2], ObjV::Stream(with_group(s, argv[3], g)));
            replies_one(
                raises(with_db(c, d), EventClass::Stream, "xgroup-create"@, argv[2]),
                status("OK"@),
            )
        },
    }
}

/// How XGROUP CREATE ends. A stream that MKSTREAM created stays, also where
/// the group is refused afterwards.
pub open spec fn xgroup_create_outcome(c: CtxV) -> Outcome {
    let argv = c.client.argv;
    if argv.len() < 5 {
        fails(c, wrong_args("xgroup"@))
    } else {
        let end = mkstream_end(argv, 5);
        match entries_read_suffix(argv, end) {
            Err(e) => fails(c, e),
            Ok(read) => match stream_in(c.db, argv[2]) {
                Err(e) => fails(c, e),
                Ok(Some(s)) => create_group(c, s, read),
                Ok(None) => if end == 5 {
                    fails(c, key_must_exist())
                } else {
                    create_group(
                        with_db(c, db_set(c.db, argv[2], ObjV::Stream(new_stream()), false)),
                        new_stream(),
                        read,
                    )
                },
            },
        }
    }
}

/// XGROUP CREATE on a stream that exists.
fn create_group_on(ctx: &mut CommandContext, key: &[u8], group: &[u8], id_arg: &[u8], read: Option<
    i64,
>) -> (r: Result<(), RedisError>)
    requires
        old(ctx).wf(),
        old(ctx)@.client.argv.len() >= 5,
        key@ == old(ctx)@.client.argv[2],
        group@ == old(ctx)@.client.argv[3],
        id_arg@ == old(ctx)@.client.argv[4],
        stream_in(old(ctx)@.db, key@) is Ok,
        stream_in(old(ctx)@.db, key@)->Ok_0 is Some,
    ensures
        final(ctx).wf(),
        done(r, final(ctx)@) == create_group(
            old(ctx)@,
            stream_in(old(ctx)@.db, key@)->Ok_0->Some_0,
            read,
        ),
{
    let ghost c = ctx@;
    match ctx.db.stream_for_write(key) {
        Err(e) => return Err(e),
        Ok(None) => return Err(RedisError::WrongType),
        Ok(Some(s)) => {
            let ghost sv = s@;
            assert(c.db =~= db_update(c.db, key@, ObjV::Stream(sv)));
            let id: StreamId = match parse_id_or_dollar(id_arg, s.last_id) {
                Err(e) => return Err(e),
                Ok(id) => id,
            };
            if s.groups.contains(group) {
                return Err(RedisError::runtime("BUSYGROUP Consumer Group name already exists"));
            }
            let mut g: ConsumerGroup = ConsumerGroup::new(id);
            if let Some(n) = read {
                g.entries_read = n;
            }
            s.groups.insert(dup(group), g);
        },
    }
    ctx.notify_keyspace_event(EventClass::Stream, "xgroup-create", key);
    ctx.reply_simple_string("OK")
}

/// XGROUP CREATE key group id|$ [MKSTREAM] [ENTRIESREAD n]
fn xgroup_create(ctx: &mut CommandContext) -> (r: Result<(), RedisError>)
    requires
        old(ctx).wf(),
    ensures
        final(ctx).wf(),
        done(r, final(ctx)@) == xgroup_create_outcome(old(ctx)@),
{
    let ghost c = ctx@;
    let argc: usize = ctx.arg_count();
    if argc < 5 {
        return Err(RedisError::wrong_number_of_args("xgroup"));
    }
    let key: Vec<u8> = ctx.arg_owned(2);
    let group: Vec<u8> = ctx.arg_owned(3);
    let id_arg: Vec<u8> = ctx.arg_owned(4);
    let mut end: usize = 5;
    while end < argc && word(&ctx.client.argv[end], "MKSTREAM")
        invariant
            5 <= end <= argc == ctx@.client.argv.len(),
            ctx@ == c,
            mkstream_end(c.client.argv, 5) == mkstream_end(c.client.argv, end as int),
        decreases argc - end,
    {
        end += 1;
    }
    let read: Option<i64> = match parse_entries_read_suffix(&ctx.client.argv, end) {
        Err(e) => return Err(e),
        Ok(n) => n,
    };
    match ctx.db.stream_at(&key) {
        Err(e) => return Err(e),
        Ok(Some(_)) => {},
        Ok(None) => {
            if end == 5 {
                return Err(key_must_exist_err());
            }
            ctx.db.set_key(dup(&key), RedisObject::Stream(InlineStream::new()), false);
        },
    }
    create_group_on(ctx, &key, &group, &id_arg, read)
}

/// How XGROUP SETID ends.
pub open spec fn xgroup_setid_outcome(c: CtxV) -> Outcome {
    let argv = c.client.argv;
    if argv.len() < 5 {
        fails(c, wrong_args("xgroup"@))
    } else {
        match entries_read_suffix(argv, 5) {
            Err(e) => fails(c, e),
            Ok(read) => match stream_in(c.db, argv[2]) {
                Err(e) => fails(c, e),
                Ok(None) => fails(c, no_group(argv[2], argv[3])),
                Ok(Some(s)) => match id_or_dollar(argv[4], s.last_id) {
                    Err(e) => fails(c, e),
                    Ok(id) => if !s.groups.contains_key(argv[3]) {
                        fails(c, no_group(argv[2], argv[3]))
                    } else {
                        let g = s.groups[argv[3]];
                        let h = GroupV {
                            last_delivered_id: id,
                            entries_read: match read {
                                Some(n) => n,
                                None => g.entries_read,
                            },
                            ..g
                        };
                        replies_one(
                            raises(
                                with_db(
                                    c,
                                    db_update(
                                        c.db,
                                        argv[2],
                                        ObjV::Stream(with_group(s, argv[3], h)),
                                    ),
                                ),
                                EventClass::Stream,
                                "xgroup-setid"@,
                                argv[2],
                            ),
                            status("OK"@),
                        )
                    },
                },
            },
        }
    }
}

/// XGROUP SETID key group id|$ [ENTRIESREAD n]
fn xgroup_setid(ctx: &mut CommandContext) -> (r: Result<(), RedisError>)
    requires
        old(ctx).wf(),
    ensures
        final(ctx).wf(),
        done(r, final(ctx)@) == xgroup_setid_outcome(old(ctx)@),
{
    let ghost c = ctx@;
    if ctx.arg_count() < 5 {
        return Err(RedisError::wrong_number_of_args("xgroup"));
    }
    let key: Vec<u8> = ctx.arg_owned(2);
    let group: Vec<u8> = ctx.arg_owned(3);
    let id_arg: Vec<u8> = ctx.arg_owned(4);
    let read: Option<i64> = match parse_entries_read_suffix(&ctx.client.argv, 5) {
        Err(e) => return Err(e),
        Ok(n) => n,
    };
    match ctx.db.stream_for_write(&key) {
        Err(e) => return Err(e),
        Ok(None) => return Err(no_such_key_or_group_short(&key, &group)),
        Ok(Some(s)) => {
            let ghost sv = s@;
            assert(c.db =~= db_update(c.db, key@, ObjV::Stream(sv)));
            let id: StreamId = match parse_id_or_dollar(&id_arg, s.last_id) {
                Err(e) => return Err(e),
                Ok(id) => id,
            };
            match s.groups.get_mut(&group) {
                None => return Err(no_such_key_or_group_short(&key, &group)),
                Some(g) => {
                    g.last_delivered_id = id;
                    if let Some(n) = read {
                        g.entries_read = n;
                    }
                },
            }
        },
    }
    ctx.notify_keyspace_event(EventClass::Stream, "xgroup-setid", &key);
    ctx.reply_simple_string("OK")
}

/// How XGROUP DESTROY ends. Clients that wait on behalf of the group receive an
/// error.
pub open spec fn xgroup_destroy_outcome(c: CtxV) -> Outcome {
    let argv = c.client.argv;
    if argv.len() != 4 {
        fails(c, wrong_args("xgroup"@))
    } else {
        match stream_in(c.db, argv[2]) {
            Err(e) => fails(c, e),
            Ok(None) => replies_one(c, Tok::Int(0)),
            Ok(Some(s)) => if !s.groups.contains_key(argv[3]) {
                replies_one(c, Tok::Int(0))
            } else {
                let t = StreamV { groups: s.groups.remove(argv[3]), ..s };
                let noted = raises(
                    with_db(c, db_update(c.db, argv[2], ObjV::Stream(t))),
                    EventClass::Stream,
                    "xgroup-destroy"@,
                    argv[2],
                );
                replies_one(errors_groups(noted, Some(argv[2]), false), Tok::Int(1))
            },
        }
    }
}

/// XGROUP DESTROY key group
fn xgroup_destroy(ctx: &mut CommandContext) -> (r: Result<(), RedisError>)
    requires
        old(ctx).wf(),
    ensures
        final(ctx).wf(),
        done(r, final(ctx)@) == xgroup_destroy_outcome(old(ctx)@),
{
    let ghost c = ctx@;
    if ctx.arg_count() != 4 {
        return Err(RedisError::wrong_number_of_args("xgroup"));
    }
    let key: Vec<u8> = ctx.arg_owned(2);
    let group: Vec<u8> = ctx.arg_owned(3);
    match ctx.db.stream_for_write(&key) {
        Err(e) => return Err(e),
        Ok(None) => return ctx.reply_integer(0),
        Ok(Some(s)) => {
            let ghost sv = s@;
            assert(c.db =~= db_update(c.db, key@, ObjV::Stream(sv)));
            let gone: Option<ConsumerGroup> = s.groups.remove(&group);
            if gone.is_none() {
                return ctx.reply_integer(0);
            }
        },
    }
    ctx.notify_keyspace_event(EventClass::Stream, "xgroup-destroy", &key);
    wake_xreadgroup_with_nogroup(ctx, &key);
    ctx.reply_integer(1)
}

/// How XGROUP CREATECONSUMER ends.
pub open spec fn xgroup_createconsumer_outcome(c: CtxV) -> Outcome {
    let argv = c.client.argv;
    if argv.len() != 5 {
        fails(c, wrong_args("xgroup"@))
    } else {
        match stream_in(c.db, argv[2]) {
            Err(e) => fails(c, e),
            Ok(None) => fails(c, key_must_exist()),
            Ok(Some(s)) => if !s.groups.contains_key(argv[3]) {
                fails(c, no_group(argv[2], argv[3]))
            } else {
                let g = s.groups[argv[3]];
                let created = !g.consumers.contains_key(argv[4]);
                let t = with_group(s, argv[3], touched(g, argv[4], clamped(c.now)));
                let d = with_db(c, db_update(c.db, argv[2], ObjV::Stream(t)));
                replies_one(
                    raises_if(
                        created,
                        d,
                        EventClass::Stream,
                        "xgroup-createconsumer"@,
                        argv[2],
                    ),
                    Tok::Int(
                        if created {
                            1
                        } else {
                            0
                        },
                    ),
                )
            },
        }
    }
}

/// XGROUP CREATECONSUMER key group consumer
fn xgroup_createconsumer(ctx: &mut CommandContext) -> (r: Result<(), RedisError>)
    requires
        old(ctx).wf(),
    ensures
        final(ctx).wf(),
        done(r, final(ctx)@) == xgroup_createconsumer_outcome(old(ctx)@),
{
    let ghost c = ctx@;
    if ctx.arg_count() != 5 {
        return Err(RedisError::wrong_number_of_args("xgroup"));
    }
    let key: Vec<u8> = ctx.arg_owned(2);
    let group: Vec<u8> = ctx.arg_owned(3);
    let consumer: Vec<u8> = ctx.arg_owned(4);
    let now: i64 = now_ms_clamped(ctx.now_ms);
    let created: bool = match ctx.db.stream_for_write(&key) {
        Err(e) => return Err(e),
        Ok(None) => return Err(key_must_exist_err()),
        Ok(Some(s)) => {
            let ghost sv = s@;
            assert(c.db =~= db_update(c.db, key@, ObjV::Stream(sv)));
            match s.groups.get_mut(&group) {
                None => return Err(no_such_key_or_group_short(&key, &group)),
                Some(g) => touch_or_create_consumer(g, &consumer, now),
            }
        },
    };
    if created {
        ctx.notify_keyspace_event(EventClass::Stream, "xgroup-createconsumer", &key);
    }
    ctx.reply_integer(if created { 1 } else { 0 })
}

/// A pending list without the IDs of another list.
pub open spec fn dropped_all(s: Seq<PelEntry>, ps: Seq<PelEntry>) -> Seq<PelEntry>
    decreases ps.len(),
{
    if ps.len() == 0 {
        s
    } else {
        pel_drop(dropped_all(s, ps.drop_last()), ps.last().entry_id)
    }
}

/// Removes the IDs of one pending list from another.
fn drop_all(pel: &mut Vec<PelEntry>, ps: &Vec<PelEntry>)
    requires
        pel_ascends(old(pel)@),
    ensures
        pel_ascends(final(pel)@),
        final(pel)@ == dropped_all(old(pel)@, ps@),
{
    let ghost start = pel@;
    let mut i: usize = 0;
    while i < ps.len()
        invariant
            pel_ascends(pel@),
            i <= ps@.len(),
            pel@ == dropped_all(start, ps@.take(i as int)),
        decreases ps@.len() - i,
    {
        let _was: bool = pel_take(pel, ps[i].entry_id);
        assert(ps@.take(i + 1).drop_last() =~= ps@.take(i as int));
        i += 1;
    }
    assert(ps@.take(i as int) =~= ps@);
}

/// How XGROUP DELCONSUMER ends. Its pending entries go with the consumer.
pub open spec fn xgroup_delconsumer_outcome(c: CtxV) -> Outcome {
    let argv = c.client.argv;
    if argv.len() != 5 {
        fails(c, wrong_args("xgroup"@))
    } else {
        match stream_in(c.db, argv[2]) {
            Err(e) => fails(c, e),
            Ok(None) => fails(c, no_group(argv[2], argv[3])),
            Ok(Some(s)) => if !s.groups.contains_key(argv[3]) {
                fails(c, no_group(argv[2], argv[3]))
            } else {
                let g = s.groups[argv[3]];
                if !g.consumers.contains_key(argv[4]) {
                    replies_one(c, Tok::Int(0))
                } else {
                    let ps = g.consumers[argv[4]].pel;
                    let h = GroupV {
                        consumers: g.consumers.remove(argv[4]),
                        pel: dropped_all(g.pel, ps),
                        ..g
                    };
                    replies_one(
                        raises(
                            with_db(
                                c,
                                db_update(
                                    c.db,
                                    argv[2],
                                    ObjV::Stream(with_group(s, argv[3], h)),
                                ),
                            ),
                            EventClass::Stream,
                            "xgroup-delconsumer"@,
                            argv[2],
                        ),
                        Tok::Int(ps.len() as i64 as int),
                    )
                }
            },
        }
    }
}

/// XGROUP DELCONSUMER key group consumer
fn xgroup_delconsumer(ctx: &mut CommandContext) -> (r: Result<(), RedisError>)
    requires
        old(ctx).wf(),
    ensures
        final(ctx).wf(),
        done(r, final(ctx)@) == xgroup_delconsumer_outcome(old(ctx)@),
{
    let ghost c = ctx@;
    if ctx.arg_count() != 5 {
        return Err(RedisError::wrong_number_of_args("xgroup"));
    }
    let key: Vec<u8> = ctx.arg_owned(2);
    let group: Vec<u8> = ctx.arg_owned(3);
    let consumer: Vec<u8> = ctx.arg_owned(4);
    let pending: usize = match ctx.db.stream_for_write(&key) {
        Err(e) => return Err(e),
        Ok(None) => return Err(no_such_key_or_group_short(&key, &group)),
        Ok(Some(s)) => {
            let ghost sv = s@;
            assert(c.db =~= db_update(c.db, key@, ObjV::Stream(sv)));
            match s.groups.get_mut(&group) {
                None => return Err(no_such_key_or_group_short(&key, &group)),
                Some(g) => {
                    let ghost gv = g@;
                    assert(sv =~= with_group(sv, group@, gv));
                    match g.consumers.remove(&consumer) {
                        None => return ctx.reply_integer(0),
                        Some(gone) => {
                            drop_all(&mut g.pel, &gone.pel);
                            gone.pel.len()
                        },
                    }
                },
            }
        },
    };
    ctx.notify_keyspace_event(EventClass::Stream, "xgroup-delconsumer", &key);
    ctx.reply_integer(pending as i64)
}

/// The lines of XGROUP HELP.
pub open spec fn xgroup_help() -> Seq<Tok> {
    seq![
        Tok::Array(12),
        bulk("XGROUP CREATE <key> <groupname> <id|$> [MKSTREAM] [ENTRIESREAD entries-read]"@),
        bulk("    Create a new consumer group."@),
        bulk("XGROUP SETID <key> <groupname> <id|$> [ENTRIESREAD entries-read]"@),
        bulk("    Set the current group ID."@),
        bulk("XGROUP DESTROY <key> <groupname>"@),
        bulk("    Remove the specified group."@),
        bulk("XGROUP CREATECONSUMER <key> <groupname> <consumer>"@),
        bulk("    Create a new consumer in the group."@),
        bulk("XGROUP DELCONSUMER <key> <groupname> <consumer>"@),
        bulk("    Remove the specified consumer."@),
        bulk("XGROUP HELP"@),
        bulk("    Print this help."@),
    ]
}

/// How XGROUP ends.
pub open spec fn xgroup_outcome(c: CtxV) -> Outcome {
    let argv = c.client.argv;
    if argv.len() < 2 {
        fails(c, wrong_args("xgroup"@))
    } else if is_word(argv[1], "CREATE"@) {
        xgroup_create_outcome(c)
    } else if is_word(argv[1], "SETID"@) {
        xgroup_setid_outcome(c)
    } else if is_word(argv[1], "DESTROY"@) {
        xgroup_destroy_outcome(c)
    } else if is_word(argv[1], "CREATECONSUMER"@) {
        xgroup_createconsumer_outcome(c)
    } else if is_word(argv[1], "DELCONSUMER"@) {
        xgroup_delconsumer_outcome(c)
    } else if is_word(argv[1], "HELP"@) {
        if argv.len() != 2 {
            fails(c, wrong_args("xgroup|help"@))
        } else {
            replies(c, xgroup_help())
        }
    } else {
        fails(c, syntax("syntax error, try XGROUP HELP"@))
    }
}

/// The lines of XGROUP HELP.
fn xgroup_help_lines() -> (r: Vec<Reply>)
    ensures
        toks(r@) == xgroup_help(),
{
    let mut out: Vec<Reply> = Vec::new();
    out.push(Reply::Array(12));
    out.push(bulk_text("XGROUP CREATE <key> <groupname> <id|$> [MKSTREAM] [ENTRIESREAD entries-read]"));
    out.push(bulk_text("    Create a new consumer group."));
    out.push(bulk_text("XGROUP SETID <key> <groupname> <id|$> [ENTRIESREAD entries-read]"));
    out.push(bulk_text("    Set the current group ID."));
    out.push(bulk_text("XGROUP DESTROY <key> <groupname>"));
    out.push(bulk_text("    Remove the specified group."));
    out.push(bulk_text("XGROUP CREATECONSUMER <key> <groupname> <consumer>"));
    out.push(bulk_text("    Create a new consumer in the group."));
    out.push(bulk_text("XGROUP DELCONSUMER <key> <groupname> <consumer>"));
    out.push(bulk_text("    Remove the specified consumer."));
    out.push(bulk_text("XGROUP HELP"));
    out.push(bulk_text("    Print this help."));
    assert(toks(out@) =~= xgroup_help());
    out
}

/// XGROUP CREATE | SETID | DESTROY | CREATECONSUMER | DELCONSUMER | HELP
pub fn xgroup_command(ctx: &mut CommandContext) -> (r: Result<(), RedisError>)
    requires
        old(ctx).wf(),
    ensures
        final(ctx).wf(),
        done(r, final(ctx)@) == xgroup_outcome(old(ctx)@),
{
    let argc: usize = ctx.arg_count();
    if argc < 2 {
        return Err(RedisError::wrong_number_of_args("xgroup"));
    }
    let sub: Vec<u8> = ctx.arg_owned(1);
    if word(&sub, "CREATE") {
        xgroup_create(ctx)
    } else if word(&sub, "SETID") {
        xgroup_setid(ctx)
    } else if word(&sub, "DESTROY") {
        xgroup_destroy(ctx)
    } else if word(&sub, "CREATECONSUMER") {
        xgroup_createconsumer(ctx)
    } else if word(&sub, "DELCONSUMER") {
        xgroup_delconsumer(ctx)
    } else if word(&sub, "HELP") {
        if argc != 2 {
            return Err(RedisError::wrong_number_of_args("xgroup|help"));
        }
        ctx.reply_all(xgroup_help_lines());
        Ok(())
    } else {
        Err(RedisError::syntax("syntax error, try XGROUP HELP"))
    }
}

} // verus!
