//! Delivery of stream entries to clients that wait for them.

use vstd::prelude::*;

use crate::bytes::{dup, lit, put, put_text, same, text};
use crate::context::{
    delivery_views, lemma_deliveries_push, lemma_waiters_push, waiter_views, ActionV, BlockedAction,
    BlockedWaiter, CommandContext, CtxV, Delivery, DeliveryV, WaiterV,
};
use crate::keyspace::{db_update, stream_in, DbV, ObjV, RedisDb};
use crate::reply::{
    crlf, encode_replies, lemma_toks_add, lemma_toks_push, put_crlf, toks, wire_all, Reply, Tok,
};
use crate::stream_data::{
    entries_after, entry_views, id_lt, id_max, id_text, lemma_entry_rank, pel_add, pel_added,
    read_all, touch_or_create_consumer, touched, ConsumerGroup, ConsumerV, EntryV, GroupV,
    InlineStream, PelEntry, StreamEntry, StreamId, StreamV,
};

verus! {

broadcast use {lemma_toks_push, lemma_toks_add};

// ---------------------------------------------------------------------------
// Entries as replies
// ---------------------------------------------------------------------------

/// The fields and values of an entry, one bulk string each.
pub open spec fn field_toks(f: Seq<(Seq<u8>, Seq<u8>)>) -> Seq<Tok>
    decreases f.len(),
{
    if f.len() == 0 {
        Seq::empty()
    } else {
        field_toks(f.drop_last()) + seq![Tok::Bulk(f.last().0), Tok::Bulk(f.last().1)]
    }
}

/// An entry: its ID and the array of its fields and values.
pub open spec fn entry_toks(e: EntryV) -> Seq<Tok> {
    seq![Tok::Array(2), Tok::Bulk(id_text(e.id)), Tok::Array((2 * e.fields.len()) as nat)]
        + field_toks(e.fields)
}

/// Entries, one after the other.
pub open spec fn entries_toks(es: Seq<EntryV>) -> Seq<Tok>
    decreases es.len(),
{
    if es.len() == 0 {
        Seq::empty()
    } else {
        entries_toks(es.drop_last()) + entry_toks(es.last())
    }
}

/// A key and the array of its entries.
pub open spec fn key_entries_toks(key: Seq<u8>, es: Seq<EntryV>) -> Seq<Tok> {
    seq![Tok::Array(2), Tok::Bulk(key), Tok::Array(es.len())] + entries_toks(es)
}

/// The frame that a waiting reader of one key receives.
pub open spec fn read_frame(key: Seq<u8>, es: Seq<EntryV>) -> Seq<u8> {
    wire_all(seq![Tok::Array(1)] + key_entries_toks(key, es), false)
}

/// Adds the fields and values of an entry.
pub fn put_fields(out: &mut Vec<Reply>, e: &StreamEntry)
    ensures
        toks(final(out)@) == toks(old(out)@) + field_toks(e@.fields),
{
    let ghost start = toks(out@);
    let ghost all = e@.fields;
    assert(all.take(0) =~= Seq::empty());
    let mut i: usize = 0;
    while i < e.fields.len()
        invariant
            i <= e.fields@.len(),
            all == e@.fields,
            toks(out@) =~= start + field_toks(all.take(i as int)),
        decreases e.fields@.len() - i,
    {
        let ghost before = toks(out@);
        out.push(Reply::Bulk(dup(&e.fields[i].0)));
        out.push(Reply::Bulk(dup(&e.fields[i].1)));
        proof {
            assert(all.take(i + 1).drop_last() =~= all.take(i as int));
            assert(all.take(i + 1).last() == all[i as int]);
            assert(toks(out@) =~= before + seq![
                Tok::Bulk(all[i as int].0),
                Tok::Bulk(all[i as int].1),
            ]);
        }
        i += 1;
    }
    assert(all.take(all.len() as int) =~= all);
}

/// Adds an entry as `[id, [field, value, ...]]`.
pub fn put_entry(out: &mut Vec<Reply>, e: &StreamEntry)
    ensures
        toks(final(out)@) == toks(old(out)@) + entry_toks(e@),
{
    let ghost start = toks(out@);
    out.push(Reply::Array(2));
    out.push(Reply::Bulk(e.id.to_display_bytes()));
    out.push(Reply::Array(2 * (e.fields.len() as u128)));
    put_fields(out, e);
    assert(toks(out@) =~= start + entry_toks(e@));
}

/// Adds the entries from `from` up to but without `to`.
pub fn put_entries(out: &mut Vec<Reply>, entries: &Vec<StreamEntry>, from: usize, to: usize)
    requires
        from <= to <= entries@.len(),
    ensures
        toks(final(out)@) == toks(old(out)@) + entries_toks(
            entry_views(entries@).subrange(from as int, to as int),
        ),
{
    let ghost start = toks(out@);
    let ghost all = entry_views(entries@);
    let mut i: usize = from;
    while i < to
        invariant
            from <= i <= to <= entries@.len(),
            all == entry_views(entries@),
            toks(out@) =~= start + entries_toks(all.subrange(from as int, i as int)),
        decreases to - i,
    {
        put_entry(out, &entries[i]);
        proof {
            let part = all.subrange(from as int, i + 1);
            assert(part.drop_last() =~= all.subrange(from as int, i as int));
            assert(part.last() == all[i as int]);
        }
        i += 1;
    }
}

/// Adds a key and the array of its entries from `from` up to but without `to`.
pub fn put_key_entries(
    out: &mut Vec<Reply>,
    key: &[u8],
    entries: &Vec<StreamEntry>,
    from: usize,
    to: usize,
)
    requires
        from <= to <= entries@.len(),
    ensures
        toks(final(out)@) == toks(old(out)@) + key_entries_toks(
            key@,
            entry_views(entries@).subrange(from as int, to as int),
        ),
{
    let ghost start = toks(out@);
    out.push(Reply::Array(2));
    out.push(Reply::Bulk(dup(key)));
    out.push(Reply::Array((to - from) as u128));
    put_entries(out, entries, from, to);
    assert(toks(out@) =~= start + key_entries_toks(
        key@,
        entry_views(entries@).subrange(from as int, to as int),
    ));
}

/// The frame that carries the entries from `from` up to but without `to`.
pub fn encode_xread_entries(key: &[u8], entries: &Vec<StreamEntry>, from: usize, to: usize) -> (r:
    Vec<u8>)
    requires
        from <= to <= entries@.len(),
    ensures
        r@ == read_frame(key@, entry_views(entries@).subrange(from as int, to as int)),
{
    let mut out: Vec<Reply> = Vec::new();
    out.push(Reply::Array(1));
    put_key_entries(&mut out, key, entries, from, to);
    proof {
        assert(toks(out@) =~= seq![Tok::Array(1)] + key_entries_toks(
            key@,
            entry_views(entries@).subrange(from as int, to as int),
        ));
    }
    encode_replies(&out, false)
}

/// The error frame for a group that does not exist.
pub open spec fn nogroup_frame(key: Seq<u8>, group: Seq<u8>) -> Seq<u8> {
    seq![45u8] + text("NOGROUP No such key '"@) + key + text("' or consumer group '"@) + group
        + text("' in XREADGROUP with GROUP option"@) + crlf()
}

/// The error frame for a group that does not exist.
pub fn encode_nogroup_error(key: &[u8], group: &[u8]) -> (r: Vec<u8>)
    ensures
        r@ == nogroup_frame(key@, group@),
{
    let mut r: Vec<u8> = Vec::new();
    r.push(45);
    assert(r@ =~= seq![45u8]);
    put_text(&mut r, "NOGROUP No such key '");
    put(&mut r, key);
    put_text(&mut r, "' or consumer group '");
    put(&mut r, group);
    put_text(&mut r, "' in XREADGROUP with GROUP option");
    put_crlf(&mut r);
    r
}

/// The error frame for a key of another type.
pub open spec fn wrongtype_frame() -> Seq<u8> {
    text("-WRONGTYPE Operation against a key holding the wrong kind of value"@) + crlf()
}

/// The error frame for a key of another type.
pub fn encode_wrongtype_error() -> (r: Vec<u8>)
    ensures
        r@ == wrongtype_frame(),
{
    let mut r: Vec<u8> = lit(
        "-WRONGTYPE Operation against a key holding the wrong kind of value",
    );
    put_crlf(&mut r);
    r
}

// ---------------------------------------------------------------------------
// Waiting clients
// ---------------------------------------------------------------------------

/// Which waiting clients a wake-up is about.
#[derive(Clone, Copy, PartialEq, Eq, Structural, Debug)]
pub enum WaitKind {
    /// Readers that wait for entries before this ID or at it.
    Reader(StreamId),
    /// Group readers that wait for entries before this ID or at it.
    Group(StreamId),
    /// All group readers.
    AnyGroup,
}

/// Whether a waiting client is of that kind, on that key (or on any).
pub open spec fn waits(w: WaiterV, kind: WaitKind, key: Option<Seq<u8>>) -> bool {
    (key matches Some(k) ==> w.key == k) && match kind {
        WaitKind::Reader(latest) => w.action matches ActionV::Stream { id_after } && id_lt(
            id_after,
            latest,
        ),
        WaitKind::Group(latest) => w.action matches ActionV::StreamGroup { id_after, .. } && id_lt(
            id_after,
            latest,
        ),
        WaitKind::AnyGroup => w.action is StreamGroup,
    }
}

/// The waiting clients of that kind, in order.
pub open spec fn waiting(b: Seq<WaiterV>, kind: WaitKind, key: Option<Seq<u8>>) -> Seq<WaiterV> {
    b.filter(|w: WaiterV| waits(w, kind, key))
}

/// The other waiting clients, in order.
pub open spec fn not_waiting(b: Seq<WaiterV>, kind: WaitKind, key: Option<Seq<u8>>) -> Seq<
    WaiterV,
> {
    b.filter(|w: WaiterV| !waits(w, kind, key))
}

/// The waiting clients that are not among `ids`.
pub open spec fn without_clients(b: Seq<WaiterV>, ids: Seq<u64>) -> Seq<WaiterV> {
    b.filter(|w: WaiterV| !ids.contains(w.client_id))
}

/// The clients of waiting entries.
pub open spec fn client_ids(ws: Seq<WaiterV>) -> Seq<u64> {
    ws.map_values(|w: WaiterV| w.client_id)
}

/// A filter over one more element.
pub proof fn lemma_filter_step<A>(s: Seq<A>, p: spec_fn(A) -> bool, i: int)
    requires
        0 <= i < s.len(),
    ensures
        s.take(i + 1).filter(p) == (if p(s[i]) {
            s.take(i).filter(p).push(s[i])
        } else {
            s.take(i).filter(p)
        }),
{
    reveal(Seq::filter);
    assert(s.take(i + 1).drop_last() =~= s.take(i));
    assert(s.take(i + 1).last() == s[i]);
}

/// Whether a waiting client is of that kind.
fn is_waiting(w: &BlockedWaiter, kind: WaitKind, key: Option<&[u8]>) -> (r: bool)
    ensures
        r == waits(
            w@,
            kind,
            match key {
                Some(k) => Some(k@),
                None => None,
            },
        ),
{
    let on_key: bool = match key {
        Some(k) => same(&w.key, k),
        None => true,
    };
    on_key && match kind {
        WaitKind::Reader(latest) => match &w.action {
            BlockedAction::Stream { id_after } => id_after.less(latest),
            _ => false,
        },
        WaitKind::Group(latest) => match &w.action {
            BlockedAction::StreamGroup { id_after, .. } => id_after.less(latest),
            _ => false,
        },
        WaitKind::AnyGroup => match &w.action {
            BlockedAction::StreamGroup { .. } => true,
            _ => false,
        },
    }
}

/// Takes the waiting clients of a kind out of the list.
pub fn take_waiters(blocked: &mut Vec<BlockedWaiter>, kind: WaitKind, key: Option<&[u8]>) -> (r: Vec<
    BlockedWaiter,
>)
    ensures
        ({
            let k = match key {
                Some(k) => Some(k@),
                None => None,
            };
            &&& waiter_views(r@) == waiting(waiter_views(old(blocked)@), kind, k)
            &&& waiter_views(final(blocked)@) == not_waiting(waiter_views(old(blocked)@), kind, k)
        }),
{
    let ghost k = match key {
        Some(k) => Some(k@),
        None => None,
    };
    let ghost all = waiter_views(blocked@);
    let ghost p = |w: WaiterV| waits(w, kind, k);
    let ghost q = |w: WaiterV| !waits(w, kind, k);
    let mut taken: Vec<BlockedWaiter> = Vec::new();
    let mut kept: Vec<BlockedWaiter> = Vec::new();
    let mut rest: Vec<BlockedWaiter> = Vec::new();
    rest.append(blocked);
    let ghost whole = rest@;
    proof {
        reveal(Seq::filter);
        assert(whole =~= old(blocked)@);
        assert(all.take(0) =~= Seq::empty());
        assert(waiter_views(taken@) =~= all.take(0).filter(p));
        assert(waiter_views(kept@) =~= all.take(0).filter(q));
    }
    let ghost mut i: int = 0;
    while rest.len() > 0
        invariant
            k == (match key {
                Some(k) => Some(k@),
                None => None,
            }),
            all == waiter_views(whole),
            p == (|w: WaiterV| waits(w, kind, k)),
            q == (|w: WaiterV| !waits(w, kind, k)),
            0 <= i <= whole.len(),
            rest@ == whole.skip(i),
            waiter_views(taken@) == all.take(i).filter(p),
            waiter_views(kept@) == all.take(i).filter(q),
        decreases rest@.len(),
    {
        let w: BlockedWaiter = rest.remove(0);
        let ghost wv = w@;
        assert(wv == all[i]);
        proof {
            lemma_filter_step(all, p, i);
            lemma_filter_step(all, q, i);
        }
        if is_waiting(&w, kind, key) {
            proof {
                lemma_waiters_push(taken@, w);
            }
            taken.push(w);
        } else {
            proof {
                lemma_waiters_push(kept@, w);
            }
            kept.push(w);
        }
        proof {
            assert(whole.skip(i).remove(0) =~= whole.skip(i + 1));
            i = i + 1;
        }
    }
    proof {
        assert(i == whole.len());
        assert(all.take(i) =~= all);
    }
    blocked.append(&mut kept);
    taken
}

/// Takes every waiting entry of some clients out of the list.
pub fn drop_clients(blocked: &mut Vec<BlockedWaiter>, ids: &Vec<u64>)
    ensures
        waiter_views(final(blocked)@) == without_clients(waiter_views(old(blocked)@), ids@),
{
    let ghost all = waiter_views(blocked@);
    let ghost q = |w: WaiterV| !ids@.contains(w.client_id);
    let mut kept: Vec<BlockedWaiter> = Vec::new();
    let mut rest: Vec<BlockedWaiter> = Vec::new();
    rest.append(blocked);
    let ghost whole = rest@;
    proof {
        reveal(Seq::filter);
        assert(whole =~= old(blocked)@);
        assert(all.take(0) =~= Seq::empty());
        assert(waiter_views(kept@) =~= all.take(0).filter(q));
    }
    let ghost mut i: int = 0;
    while rest.len() > 0
        invariant
            all == waiter_views(whole),
            q == (|w: WaiterV| !ids@.contains(w.client_id)),
            0 <= i <= whole.len(),
            rest@ == whole.skip(i),
            waiter_views(kept@) == all.take(i).filter(q),
        decreases rest@.len(),
    {
        let w: BlockedWaiter = rest.remove(0);
        let ghost wv = w@;
        assert(wv == all[i]);
        proof {
            lemma_filter_step(all, q, i);
        }
        if !has_id(ids, w.client_id) {
            proof {
                lemma_waiters_push(kept@, w);
            }
            kept.push(w);
        }
        proof {
            assert(whole.skip(i).remove(0) =~= whole.skip(i + 1));
            i = i + 1;
        }
    }
    proof {
        assert(i == whole.len());
        assert(all.take(i) =~= all);
    }
    blocked.append(&mut kept);
}

/// Whether a client is among `ids`.
fn has_id(ids: &Vec<u64>, id: u64) -> (r: bool)
    ensures
        r == ids@.contains(id),
{
    let mut i: usize = 0;
    while i < ids.len()
        invariant
            i <= ids@.len(),
            forall|j: int| 0 <= j < i ==> ids@[j] != id,
        decreases ids@.len() - i,
    {
        if ids[i] == id {
            return true;
        }
        i += 1;
    }
    false
}

/// How many of `len` entries a COUNT allows.
pub open spec fn take_count(count: Option<i64>, len: int) -> int {
    match count {
        None => len,
        Some(n) => if n < 0 || n >= len {
            len
        } else {
            n as int
        },
    }
}

/// How many of `len` entries a COUNT allows.
pub fn counted(count: Option<i64>, len: usize) -> (r: usize)
    ensures
        r == take_count(count, len as int),
        r <= len,
{
    match count {
        None => len,
        Some(n) => {
            if n < 0 || n as u64 >= len as u64 {
                len
            } else {
                n as usize
            }
        },
    }
}

// ---------------------------------------------------------------------------
// Readers
// ---------------------------------------------------------------------------

/// Frames for readers that wait for entries after their own IDs; a reader whose
/// entries are gone receives nothing.
pub open spec fn reader_frames(ws: Seq<WaiterV>, key: Seq<u8>, entries: Seq<EntryV>) -> Seq<
    DeliveryV,
>
    decreases ws.len(),
{
    if ws.len() == 0 {
        Seq::empty()
    } else {
        let w = ws.last();
        let before = reader_frames(ws.drop_last(), key, entries);
        let es = entries_after(entries, w.action->Stream_id_after);
        if es.len() == 0 {
            before
        } else {
            before.push(DeliveryV { client_id: w.client_id, frame: read_frame(key, es) })
        }
    }
}

/// The context after readers of a key were served from its stream.
pub open spec fn wakes_readers(c: CtxV, key: Seq<u8>) -> CtxV {
    match stream_in(c.db, key) {
        Ok(Some(s)) => {
            let ws = waiting(c.blocked, WaitKind::Reader(s.last_id), Some(key));
            CtxV {
                blocked: without_clients(
                    not_waiting(c.blocked, WaitKind::Reader(s.last_id), Some(key)),
                    client_ids(ws),
                ),
                outbox: c.outbox + reader_frames(ws, key, s.entries),
                ..c
            }
        },
        _ => c,
    }
}

/// The context after readers were told of one new entry.
pub open spec fn wakes_new_entry(c: CtxV, key: Seq<u8>, e: EntryV) -> CtxV {
    let ws = waiting(c.blocked, WaitKind::Reader(e.id), Some(key));
    CtxV {
        blocked: without_clients(
            not_waiting(c.blocked, WaitKind::Reader(e.id), Some(key)),
            client_ids(ws),
        ),
        outbox: c.outbox + same_frames(ws, read_frame(key, seq![e])),
        ..c
    }
}

/// The same frame for each of some waiting clients.
pub open spec fn same_frames(ws: Seq<WaiterV>, frame: Seq<u8>) -> Seq<DeliveryV> {
    ws.map_values(|w: WaiterV| DeliveryV { client_id: w.client_id, frame })
}

/// Tells every reader that waits for entries of a key of one new entry.
pub fn wake_blocked_for_stream_entry(ctx: &mut CommandContext, key: &[u8], entry: StreamEntry)
    ensures
        final(ctx).db == old(ctx).db,
        final(ctx)@ == wakes_new_entry(old(ctx)@, key@, entry@),
{
    let ghost c = ctx@;
    let ghost e = entry@;
    let ghost kind = WaitKind::Reader(e.id);
    let ws: Vec<BlockedWaiter> = take_waiters(
        &mut ctx.blocked,
        WaitKind::Reader(entry.id),
        Some(key),
    );
    let ids: Vec<u64> = ids_of(&ws);
    drop_clients(&mut ctx.blocked, &ids);
    let ghost wv = waiter_views(ws@);
    let mut one: Vec<StreamEntry> = Vec::new();
    one.push(entry);
    let frame: Vec<u8> = encode_xread_entries(key, &one, 0, 1);
    let ghost frames = same_frames(wv, frame@);
    proof {
        assert(entry_views(one@).subrange(0, 1) =~= seq![e]);
    }
    let mut i: usize = 0;
    while i < ws.len()
        invariant
            i <= ws@.len(),
            wv == waiter_views(ws@),
            frames == same_frames(wv, frame@),
            ctx.client == old(ctx).client,
            ctx.db == old(ctx).db,
            ctx.replies == old(ctx).replies,
            ctx.events == old(ctx).events,
            ctx.notify == old(ctx).notify,
            ctx.now_ms == old(ctx).now_ms,
            ctx.dirty == old(ctx).dirty,
            waiter_views(ctx.blocked@) == without_clients(
                not_waiting(c.blocked, kind, Some(key@)),
                client_ids(wv),
            ),
            delivery_views(ctx.outbox@) =~= c.outbox + frames.take(i as int),
        decreases ws@.len() - i,
    {
        let d = Delivery { client_id: ws[i].client_id, frame: dup(&frame) };
        proof {
            assert(frames[i as int] == d@);
            lemma_deliveries_push(ctx.outbox@, d);
        }
        ctx.outbox.push(d);
        i += 1;
    }
    proof {
        assert(frames.take(i as int) =~= frames);
        assert(ctx@ =~= wakes_new_entry(c, key@, e));
    }
}

/// Every member of a filtered list satisfies the predicate.
proof fn lemma_filter_all<A>(s: Seq<A>, p: spec_fn(A) -> bool)
    ensures
        forall|i: int| 0 <= i < s.filter(p).len() ==> p(#[trigger] s.filter(p)[i]),
    decreases s.len(),
{
    reveal(Seq::filter);
    if s.len() > 0 {
        lemma_filter_all(s.drop_last(), p);
    }
}

/// The clients of a list of waiting entries.
fn ids_of(ws: &Vec<BlockedWaiter>) -> (r: Vec<u64>)
    ensures
        r@ == client_ids(waiter_views(ws@)),
{
    let mut r: Vec<u64> = Vec::new();
    let mut i: usize = 0;
    while i < ws.len()
        invariant
            i <= ws@.len(),
            r@ =~= client_ids(waiter_views(ws@)).take(i as int),
        decreases ws@.len() - i,
    {
        r.push(ws[i].client_id);
        i += 1;
    }
    assert(client_ids(waiter_views(ws@)).take(i as int) =~= client_ids(waiter_views(ws@)));
    r
}

/// Serves the readers that wait for entries of a key. Each receives the entries
/// after its own ID: one new entry reaches every reader that waits for it.
pub fn wake_blocked_for_stream(ctx: &mut CommandContext, key: &[u8])
    requires
        old(ctx).wf(),
    ensures
        final(ctx).wf(),
        final(ctx).db == old(ctx).db,
        final(ctx)@ == wakes_readers(old(ctx)@, key@),
{
    let ghost c = ctx@;
    let latest: StreamId = match ctx.db.stream_at(key) {
        Ok(Some(s)) => s.last_id,
        _ => return,
    };
    let ghost kind = WaitKind::Reader(latest);
    let ws: Vec<BlockedWaiter> = take_waiters(&mut ctx.blocked, WaitKind::Reader(latest), Some(key));
    let ids: Vec<u64> = ids_of(&ws);
    drop_clients(&mut ctx.blocked, &ids);
    let ghost wv = waiter_views(ws@);
    proof {
        lemma_filter_all(c.blocked, |w: WaiterV| waits(w, kind, Some(key@)));
        assert(wv.take(0) =~= Seq::empty());
    }
    let mut i: usize = 0;
    while i < ws.len()
        invariant
            i <= ws@.len(),
            wv == waiter_views(ws@),
            ctx.db.wf(),
            ctx.db@ == c.db,
            stream_in(c.db, key@) is Ok,
            stream_in(c.db, key@)->Ok_0 is Some,
            forall|j: int| 0 <= j < wv.len() ==> (#[trigger] wv[j]).action is Stream,
            ctx.client == old(ctx).client,
            ctx.db == old(ctx).db,
            ctx.replies == old(ctx).replies,
            ctx.events == old(ctx).events,
            ctx.notify == old(ctx).notify,
            ctx.now_ms == old(ctx).now_ms,
            ctx.dirty == old(ctx).dirty,
            waiter_views(ctx.blocked@) == without_clients(
                not_waiting(c.blocked, kind, Some(key@)),
                client_ids(wv),
            ),
            delivery_views(ctx.outbox@) =~= c.outbox + reader_frames(
                wv.take(i as int),
                key@,
                stream_in(c.db, key@)->Ok_0->Some_0.entries,
            ),
        decreases ws@.len() - i,
    {
        proof {
            assert(wv[i as int] == ws@[i as int]@);
            assert(wv.take(i + 1).drop_last() =~= wv.take(i as int));
            assert(wv.take(i + 1).last() == wv[i as int]);
        }
        let after: StreamId = match &ws[i].action {
            BlockedAction::Stream { id_after } => *id_after,
            _ => StreamId::zero(),
        };
        match ctx.db.stream_at(key) {
            Ok(Some(s)) => {
                proof {
                    lemma_entry_rank(s@.entries, after);
                }
                let from: usize = s.upper_bound(after);
                let to: usize = s.entries.len();
                if from < to {
                    let frame: Vec<u8> = encode_xread_entries(key, &s.entries, from, to);
                    let d = Delivery { client_id: ws[i].client_id, frame };
                    proof {
                        assert(s@.entries.subrange(from as int, to as int) =~= s@.entries.skip(
                            from as int,
                        ));
                        lemma_deliveries_push(ctx.outbox@, d);
                    }
                    ctx.outbox.push(d);
                }
            },
            _ => {},
        }
        i += 1;
    }
    proof {
        assert(wv.take(i as int) =~= wv);
        assert(ctx@ =~= wakes_readers(c, key@));
    }
}

// ---------------------------------------------------------------------------
// Group readers
// ---------------------------------------------------------------------------

/// The group after its consumer received something at `now`.
pub open spec fn activated(g: GroupV, consumer: Seq<u8>, now: i64) -> GroupV {
    if g.consumers.contains_key(consumer) {
        GroupV {
            consumers: g.consumers.insert(
                consumer,
                ConsumerV { active: now, ..g.consumers[consumer] },
            ),
            ..g
        }
    } else {
        g
    }
}

/// Marks a consumer as active.
pub fn activate(group: &mut ConsumerGroup, consumer: &[u8], now: i64)
    requires
        old(group).wf(),
    ensures
        final(group).wf(),
        final(group)@ == activated(old(group)@, consumer@, now),
{
    if let Some(c) = group.consumers.get_mut(consumer) {
        c.active_time_ms = now;
    }
    assert(group@ =~= activated(old(group)@, consumer@, now));
}

/// The group after entries were delivered to a consumer for the first time.
pub open spec fn delivered_all(g: GroupV, consumer: Seq<u8>, es: Seq<EntryV>, now: i64) -> GroupV
    decreases es.len(),
{
    if es.len() == 0 {
        g
    } else {
        pel_added(
            delivered_all(g, consumer, es.drop_last(), now),
            consumer,
            PelEntry { entry_id: es.last().id, delivery_time_ms: now, delivery_count: 1 },
        )
    }
}

/// What a group reader asks for.
#[verifier::ext_equal]
pub struct GroupAsk {
    pub group: Seq<u8>,
    pub consumer: Seq<u8>,
    pub id_after: StreamId,
    pub count: Option<i64>,
    pub noack: bool,
}

/// The entries that a group reader can receive now.
pub open spec fn group_entries(s: StreamV, ask: GroupAsk) -> Seq<EntryV> {
    let after = id_max(s.groups[ask.group].last_delivered_id, ask.id_after);
    let all = entries_after(s.entries, after);
    all.take(take_count(ask.count, all.len() as int))
}

/// The group after entries were read on behalf of a consumer.
pub open spec fn group_after(s: StreamV, ask: GroupAsk, es: Seq<EntryV>, now: i64) -> GroupV {
    let g = s.groups[ask.group];
    let seen = activated(touched(g, ask.consumer, now), ask.consumer, now);
    let at = read_all(s, (g.entries_read, g.last_delivered_id), es);
    let moved = GroupV { entries_read: at.0, last_delivered_id: at.1, ..seen };
    if ask.noack {
        moved
    } else {
        delivered_all(moved, ask.consumer, es, now)
    }
}

/// The stream after its entries were delivered to a group reader.
pub open spec fn stream_after(s: StreamV, ask: GroupAsk, now: i64) -> StreamV {
    let es = group_entries(s, ask);
    if es.len() == 0 {
        s
    } else {
        StreamV { groups: s.groups.insert(ask.group, group_after(s, ask, es, now)), ..s }
    }
}

/// Adds the entries from `from` up to but without `to` to the pending lists.
fn pend_all(
    g: &mut ConsumerGroup,
    consumer: &[u8],
    entries: &Vec<StreamEntry>,
    from: usize,
    to: usize,
    now: i64,
)
    requires
        old(g).wf(),
        from <= to <= entries@.len(),
    ensures
        final(g).wf(),
        final(g)@ == delivered_all(
            old(g)@,
            consumer@,
            entry_views(entries@).subrange(from as int, to as int),
            now,
        ),
{
    let ghost all = entry_views(entries@);
    let ghost start = g@;
    let mut i: usize = from;
    while i < to
        invariant
            g.wf(),
            all == entry_views(entries@),
            from <= i <= to <= entries@.len(),
            g@ == delivered_all(start, consumer@, all.subrange(from as int, i as int), now),
        decreases to - i,
    {
        let e = PelEntry { entry_id: entries[i].id, delivery_time_ms: now, delivery_count: 1 };
        pel_add(g, consumer, e);
        proof {
            let part = all.subrange(from as int, i + 1);
            assert(part.drop_last() =~= all.subrange(from as int, i as int));
            assert(part.last() == all[i as int]);
        }
        i += 1;
    }
}

/// Delivers entries to a group reader. Gives the positions of the entries.
pub fn deliver_to_group(
    stream: &mut InlineStream,
    group: &[u8],
    consumer: &[u8],
    id_after: StreamId,
    count: Option<i64>,
    noack: bool,
    now: i64,
) -> (r: (usize, usize))
    requires
        old(stream).wf(),
        old(stream)@.groups.contains_key(group@),
    ensures
        ({
            let ask = GroupAsk {
                group: group@,
                consumer: consumer@,
                id_after,
                count,
                noack,
            };
            &&& final(stream).wf()
            &&& final(stream)@ == stream_after(old(stream)@, ask, now)
            &&& r.0 <= r.1 <= final(stream).entries@.len()
            &&& final(stream)@.entries.subrange(r.0 as int, r.1 as int) == group_entries(
                old(stream)@,
                ask,
            )
        }),
{
    let ghost s = stream@;
    let ghost ask = GroupAsk { group: group@, consumer: consumer@, id_after, count, noack };
    let (read, last): (i64, StreamId) = match stream.groups.get(group) {
        Some(g) => (g.entries_read, g.last_delivered_id),
        None => return (0, 0),
    };
    let after: StreamId = last.later(id_after);
    proof {
        lemma_entry_rank(s.entries, after);
    }
    let from: usize = stream.upper_bound(after);
    let n: usize = counted(count, stream.entries.len() - from);
    let to: usize = from + n;
    let ghost es = group_entries(s, ask);
    assert(s.entries.subrange(from as int, to as int) =~= es);
    if n == 0 {
        return (from, to);
    }
    let at: (i64, StreamId) = stream.advance_read_counter(read, last, from, to);
    match stream.groups.get_mut(group) {
        None => {},
        Some(g) => {
            let _created: bool = touch_or_create_consumer(g, consumer, now);
            activate(g, consumer, now);
            g.entries_read = at.0;
            g.last_delivered_id = at.1;
            if !noack {
                pend_all(g, consumer, &stream.entries, from, to, now);
            }
        },
    }
    assert(stream@ =~= stream_after(s, ask, now));
    (from, to)
}

/// A time that is not before the epoch.
pub open spec fn clamped(now: i64) -> i64 {
    if now < 0 {
        0
    } else {
        now
    }
}

/// A time that is not before the epoch.
pub fn now_ms_clamped(now: i64) -> (r: i64)
    ensures
        r == clamped(now),
{
    if now < 0 {
        0
    } else {
        now
    }
}

/// What a waiting group reader asks for.
pub open spec fn ask_of(w: WaiterV) -> GroupAsk {
    GroupAsk {
        group: w.action->group,
        consumer: w.action->consumer,
        id_after: w.action->StreamGroup_id_after,
        count: w.action->StreamGroup_count,
        noack: w.action->noack,
    }
}

/// A wake-up of group readers under way.
#[verifier::ext_equal]
pub struct WakeV {
    pub db: DbV,
    pub outbox: Seq<DeliveryV>,
    /// The clients that received a frame.
    pub served: Seq<u64>,
    /// The waiting entries that found nothing and wait on.
    pub reblocked: Seq<WaiterV>,
}

/// The wake-up after a frame was sent to the client of `w`.
pub open spec fn sends(st: WakeV, w: WaiterV, frame: Seq<u8>) -> WakeV {
    WakeV {
        outbox: st.outbox.push(DeliveryV { client_id: w.client_id, frame }),
        served: st.served.push(w.client_id),
        ..st
    }
}

/// The wake-up after one group reader: it receives an error where the key or
/// the group is gone, new entries where there are any, and otherwise an error
/// (`strict`) or nothing yet. A strict error always says that there is no group.
pub open spec fn wakes_one(st: WakeV, w: WaiterV, key: Seq<u8>, now: i64, strict: bool) -> WakeV {
    let ask = ask_of(w);
    match stream_in(st.db, key) {
        Err(_) => sends(
            st,
            w,
            if strict {
                nogroup_frame(key, ask.group)
            } else {
                wrongtype_frame()
            },
        ),
        Ok(None) => sends(st, w, nogroup_frame(key, ask.group)),
        Ok(Some(s)) => if !s.groups.contains_key(ask.group) {
            sends(st, w, nogroup_frame(key, ask.group))
        } else {
            let es = group_entries(s, ask);
            if es.len() == 0 {
                if strict {
                    sends(st, w, nogroup_frame(key, ask.group))
                } else {
                    WakeV { reblocked: st.reblocked.push(w), ..st }
                }
            } else {
                sends(
                    WakeV {
                        db: db_update(st.db, key, ObjV::Stream(stream_after(s, ask, now))),
                        ..st
                    },
                    w,
                    read_frame(key, es),
                )
            }
        },
    }
}

/// The wake-up after group readers, one after the other.
pub open spec fn wakes_all(st: WakeV, ws: Seq<WaiterV>, key: Seq<u8>, now: i64, strict: bool) -> WakeV
    decreases ws.len(),
{
    if ws.len() == 0 {
        st
    } else {
        wakes_one(wakes_all(st, ws.drop_last(), key, now, strict), ws.last(), key, now, strict)
    }
}

/// The context after the group readers of that kind on a key were served.
/// Readers that found nothing wait on, behind the others.
pub open spec fn wakes_groups(c: CtxV, kind: WaitKind, key: Seq<u8>, strict: bool) -> CtxV {
    let st = wakes_all(
        WakeV { db: c.db, outbox: c.outbox, served: Seq::empty(), reblocked: Seq::empty() },
        waiting(c.blocked, kind, Some(key)),
        key,
        clamped(c.now),
        strict,
    );
    CtxV {
        db: st.db,
        outbox: st.outbox,
        blocked: without_clients(not_waiting(c.blocked, kind, Some(key)), st.served) + st.reblocked,
        ..c
    }
}

/// The context after the group readers of a key were served: those behind the
/// last entry of its stream, or all of them where there is no stream.
pub open spec fn wakes_group_readers(c: CtxV, key: Seq<u8>) -> CtxV {
    match stream_in(c.db, key) {
        Ok(Some(s)) => wakes_groups(c, WaitKind::Group(s.last_id), key, false),
        _ => wakes_groups(c, WaitKind::AnyGroup, key, false),
    }
}

/// Serves one group reader. Gives the frame for it, or nothing where it waits
/// on.
fn serve_group_reader(
    db: &mut RedisDb,
    w: &BlockedWaiter,
    key: &[u8],
    now: i64,
    strict: bool,
) -> (r: Option<Vec<u8>>)
    requires
        old(db).wf(),
        w@.action is StreamGroup,
    ensures
        final(db).wf(),
        forall|st: WakeV|
            st.db == old(db)@ ==> #[trigger] wakes_one(st, w@, key@, now, strict) == (match r {
                Some(frame) => sends(WakeV { db: final(db)@, ..st }, w@, frame@),
                None => WakeV { reblocked: st.reblocked.push(w@), db: final(db)@, ..st },
            }),
{
    let ghost d = db@;
    let ghost ask = ask_of(w@);
    match &w.action {
        BlockedAction::StreamGroup { id_after, group, consumer, count, noack } => {
            match db.stream_for_write(key) {
                Err(_) => {
                    let r: Vec<u8> = if strict {
                        encode_nogroup_error(key, group)
                    } else {
                        encode_wrongtype_error()
                    };
                    Some(r)
                },
                Ok(None) => Some(encode_nogroup_error(key, group)),
                Ok(Some(s)) => {
                    let ghost sv = s@;
                    if !s.groups.contains(group) {
                        proof {
                            assert(d =~= db_update(d, key@, ObjV::Stream(sv)));
                        }
                        return Some(encode_nogroup_error(key, group));
                    }
                    let (from, to): (usize, usize) = deliver_to_group(
                        s,
                        group,
                        consumer,
                        *id_after,
                        *count,
                        *noack,
                        now,
                    );
                    proof {
                        assert(d =~= db_update(d, key@, ObjV::Stream(sv)));
                        assert(to - from == group_entries(sv, ask).len());
                    }
                    if from < to {
                        Some(encode_xread_entries(key, &s.entries, from, to))
                    } else if strict {
                        Some(encode_nogroup_error(key, group))
                    } else {
                        None
                    }
                },
            }
        },
        _ => None,
    }
}

/// Serves the group readers of that kind on a key.
fn wake_groups(ctx: &mut CommandContext, kind: WaitKind, key: &[u8], strict: bool)
    requires
        old(ctx).wf(),
        kind !is Reader,
    ensures
        final(ctx).wf(),
        final(ctx)@ == wakes_groups(old(ctx)@, kind, key@, strict),
{
    let ghost c = ctx@;
    let now: i64 = now_ms_clamped(ctx.now_ms);
    let mut ws: Vec<BlockedWaiter> = take_waiters(&mut ctx.blocked, kind, Some(key));
    let ghost wv = waiter_views(ws@);
    let ghost whole = ws@;
    let ghost init = WakeV {
        db: c.db,
        outbox: c.outbox,
        served: Seq::empty(),
        reblocked: Seq::empty(),
    };
    let mut served: Vec<u64> = Vec::new();
    let mut again: Vec<BlockedWaiter> = Vec::new();
    let ghost mut i: int = 0;
    proof {
        lemma_filter_all(c.blocked, |w: WaiterV| waits(w, kind, Some(key@)));
        assert(wv.take(0) =~= Seq::empty());
        assert(waiter_views(again@) =~= Seq::empty());
    }
    while ws.len() > 0
        invariant
            0 <= i <= whole.len(),
            wv == waiter_views(whole),
            ws@ == whole.skip(i),
            now == clamped(c.now),
            ctx.db.wf(),
            forall|j: int| 0 <= j < wv.len() ==> (#[trigger] wv[j]).action is StreamGroup,
            ctx.client == old(ctx).client,
            ctx.replies == old(ctx).replies,
            ctx.events == old(ctx).events,
            ctx.notify == old(ctx).notify,
            ctx.now_ms == old(ctx).now_ms,
            ctx.dirty == old(ctx).dirty,
            waiter_views(ctx.blocked@) == not_waiting(c.blocked, kind, Some(key@)),
            wakes_all(init, wv.take(i), key@, now, strict) == (WakeV {
                db: ctx.db@,
                outbox: delivery_views(ctx.outbox@),
                served: served@,
                reblocked: waiter_views(again@),
            }),
        decreases ws@.len(),
    {
        let w: BlockedWaiter = ws.remove(0);
        let ghost st = wakes_all(init, wv.take(i), key@, now, strict);
        proof {
            assert(w@ == wv[i]);
            assert(wv.take(i + 1).drop_last() =~= wv.take(i));
            assert(wv.take(i + 1).last() == wv[i]);
            assert(whole.skip(i).remove(0) =~= whole.skip(i + 1));
        }
        match serve_group_reader(&mut ctx.db, &w, key, now, strict) {
            Some(frame) => {
                assert(wakes_one(st, w@, key@, now, strict) == sends(
                    WakeV { db: ctx.db@, ..st },
                    w@,
                    frame@,
                ));
                let d = Delivery { client_id: w.client_id, frame };
                proof {
                    lemma_deliveries_push(ctx.outbox@, d);
                }
                ctx.outbox.push(d);
                served.push(w.client_id);
            },
            None => {
                assert(wakes_one(st, w@, key@, now, strict) == (WakeV {
                    reblocked: st.reblocked.push(w@),
                    db: ctx.db@,
                    ..st
                }));
                proof {
                    lemma_waiters_push(again@, w);
                }
                again.push(w);
            },
        }
        proof {
            i = i + 1;
        }
    }
    proof {
        assert(wv.take(i) =~= wv);
    }
    drop_clients(&mut ctx.blocked, &served);
    let ghost left = ctx.blocked@;
    let ghost more = again@;
    ctx.blocked.append(&mut again);
    proof {
        assert(waiter_views(left + more) =~= waiter_views(left) + waiter_views(more));
        assert(ctx@ =~= wakes_groups(c, kind, key@, strict));
    }
}

/// Serves the group readers that wait for entries of a key, first come first
/// served. An entry goes to one consumer of each group; readers that find
/// nothing wait on with their deadlines. Where the key holds no stream, all its
/// readers receive an error.
pub fn wake_blocked_xreadgroup_for_key(ctx: &mut CommandContext, key: &[u8])
    requires
        old(ctx).wf(),
    ensures
        final(ctx).wf(),
        final(ctx)@ == wakes_group_readers(old(ctx)@, key@),
{
    let kind: WaitKind = match ctx.db.stream_at(key) {
        Ok(Some(s)) => WaitKind::Group(s.last_id),
        _ => WaitKind::AnyGroup,
    };
    wake_groups(ctx, kind, key, false);
}

/// Serves all group readers of a key after a stream was moved to it. Readers
/// that find nothing receive an error.
pub fn wake_xreadgroup_after_rename(ctx: &mut CommandContext, dst_key: &[u8])
    requires
        old(ctx).wf(),
    ensures
        final(ctx).wf(),
        final(ctx)@ == wakes_groups(old(ctx)@, WaitKind::AnyGroup, dst_key@, true),
{
    wake_groups(ctx, WaitKind::AnyGroup, dst_key, true);
}

/// Error frames for group readers.
pub open spec fn error_frames(ws: Seq<WaiterV>, wrong_type: bool) -> Seq<DeliveryV> {
    ws.map_values(
        |w: WaiterV|
            DeliveryV {
                client_id: w.client_id,
                frame: if wrong_type {
                    wrongtype_frame()
                } else {
                    nogroup_frame(w.key, w.action->group)
                },
            },
    )
}

/// The context after all group readers (of one key) received an error.
pub open spec fn errors_groups(c: CtxV, key: Option<Seq<u8>>, wrong_type: bool) -> CtxV {
    CtxV {
        blocked: without_clients(
            not_waiting(c.blocked, WaitKind::AnyGroup, key),
            client_ids(waiting(c.blocked, WaitKind::AnyGroup, key)),
        ),
        outbox: c.outbox + error_frames(waiting(c.blocked, WaitKind::AnyGroup, key), wrong_type),
        ..c
    }
}

/// Sends an error to all group readers (of one key).
fn send_group_errors(ctx: &mut CommandContext, key: Option<&[u8]>, wrong_type: bool)
    ensures
        final(ctx).db == old(ctx).db,
        final(ctx)@ == errors_groups(
            old(ctx)@,
            match key {
                Some(k) => Some(k@),
                None => None,
            },
            wrong_type,
        ),
{
    let ghost c = ctx@;
    let ghost k = match key {
        Some(k) => Some(k@),
        None => None,
    };
    let ws: Vec<BlockedWaiter> = take_waiters(&mut ctx.blocked, WaitKind::AnyGroup, key);
    let ids: Vec<u64> = ids_of(&ws);
    drop_clients(&mut ctx.blocked, &ids);
    let ghost wv = waiter_views(ws@);
    let ghost frames = error_frames(wv, wrong_type);
    proof {
        lemma_filter_all(c.blocked, |w: WaiterV| waits(w, WaitKind::AnyGroup, k));
    }
    let mut i: usize = 0;
    while i < ws.len()
        invariant
            i <= ws@.len(),
            wv == waiter_views(ws@),
            frames == error_frames(wv, wrong_type),
            forall|j: int| 0 <= j < wv.len() ==> (#[trigger] wv[j]).action is StreamGroup,
            ctx.client == old(ctx).client,
            ctx.db == old(ctx).db,
            ctx.replies == old(ctx).replies,
            ctx.events == old(ctx).events,
            ctx.notify == old(ctx).notify,
            ctx.now_ms == old(ctx).now_ms,
            ctx.dirty == old(ctx).dirty,
            waiter_views(ctx.blocked@) == without_clients(
                not_waiting(c.blocked, WaitKind::AnyGroup, k),
                client_ids(wv),
            ),
            delivery_views(ctx.outbox@) =~= c.outbox + frames.take(i as int),
        decreases ws@.len() - i,
    {
        assert(wv[i as int] == ws@[i as int]@);
        let frame: Vec<u8> = if wrong_type {
            encode_wrongtype_error()
        } else {
            match &ws[i].action {
                BlockedAction::StreamGroup { group, .. } => encode_nogroup_error(
                    &ws[i].key,
                    group,
                ),
                _ => Vec::new(),
            }
        };
        let d = Delivery { client_id: ws[i].client_id, frame };
        proof {
            assert(frames[i as int] == d@);
            lemma_deliveries_push(ctx.outbox@, d);
        }
        ctx.outbox.push(d);
        i += 1;
    }
    proof {
        assert(frames.take(i as int) =~= frames);
        assert(ctx@ =~= errors_groups(c, k, wrong_type));
    }
}

/// Tells all group readers of a key that the group is gone. Used when the key
/// is deleted or the group is destroyed.
pub fn wake_xreadgroup_with_nogroup(ctx: &mut CommandContext, key: &[u8])
    ensures
        final(ctx).db == old(ctx).db,
        final(ctx)@ == errors_groups(old(ctx)@, Some(key@), false),
{
    send_group_errors(ctx, Some(key), false);
}

/// Tells all group readers that their groups are gone. Used when the database
/// is flushed.
pub fn wake_all_xreadgroup_with_nogroup(ctx: &mut CommandContext)
    ensures
        final(ctx).db == old(ctx).db,
        final(ctx)@ == errors_groups(old(ctx)@, None, false),
{
    send_group_errors(ctx, None, false);
}

/// Tells all group readers of a key that it holds a value of another type now.
pub fn wake_xreadgroup_with_wrongtype(ctx: &mut CommandContext, key: &[u8])
    ensures
        final(ctx).db == old(ctx).db,
        final(ctx)@ == errors_groups(old(ctx)@, Some(key@), true),
{
    send_group_errors(ctx, Some(key), true);
}

} // verus!
