//! Stream commands: XADD, XLEN, XRANGE, XREVRANGE, XDEL, XTRIM, XREAD and
//! XSETID.

use vstd::prelude::*;

use crate::bytes::{dup, is_text, is_word, lemma_views_push, text, views, word};
use crate::context::{
    done, fails, raises, raises_if, replies, replies_one, waiter_views, with_argv, with_db, ActionV,
    BlockedAction, BlockedWaiter, ClientV, CommandContext, CtxV, EventClass, Outcome, WaiterV,
};
use crate::error::{runtime, syntax, wrong_args, ErrV, RedisError};
use crate::keyspace::{
    db_get, db_set, db_update, stream_in, DbV, ObjV, RedisDb, RedisObject,
};
use crate::reply::{lemma_toks_add, lemma_toks_push, status, toks, Reply, Tok};
use crate::stream_data::{
    appended, deleted, entries_after, entries_between, entry_rank, entry_rank_past, entry_views,
    has_entry, id_le, id_lt, id_pred, id_succ, id_text, lemma_entries_between, lemma_entry_rank,
    max_id, new_stream, zero_id, EntryV, InlineStream, StreamEntry, StreamId, StreamV,
};
use crate::stream_parse::{
    add_options, explicit_id, optional_count, parse_add_options, parse_explicit_id,
    parse_optional_count, parse_range_bound, parse_read_options, parse_strict_i64, parse_trim_args,
    parse_xadd_id_spec, range_bound, read_options, strict_i64, trim_args, xadd_id, AddOptions,
    Bound, BoundSide, ReadOptions, TrimStrategy, XaddIdSpec,
};
use crate::stream_wake::{
    counted, entries_toks, key_entries_toks, put_entries, put_key_entries, take_count,
    wake_blocked_for_stream_entry, wake_blocked_xreadgroup_for_key, wakes_group_readers,
    wakes_new_entry,
};

verus! {

broadcast use {lemma_toks_push, lemma_toks_add, lemma_views_push};

// ---------------------------------------------------------------------------
// Trimming
// ---------------------------------------------------------------------------

/// The number of entries that an approximate trim treats as one node.
pub const APPROX_STREAM_NODE_ENTRIES: usize = 100;

/// The number of entries per node that XINFO STREAM reports.
pub const STREAM_NODE_MAX_ENTRIES: usize = 100;

/// The smaller of two numbers.
pub open spec fn min_of(a: int, b: int) -> int {
    if a < b {
        a
    } else {
        b
    }
}

/// How many entries an approximate trim evicts at once.
pub open spec fn chunk_len(len: int, limit: Option<u64>) -> int {
    match limit {
        Some(n) => if n <= 1 {
            0
        } else if n >= 30 {
            min_of(10, len)
        } else {
            min_of(n as int, len)
        },
        None => min_of(APPROX_STREAM_NODE_ENTRIES as int, len),
    }
}

/// How many entries an approximate trim evicts at once.
pub fn approx_trim_chunk_len(len: usize, limit: Option<u64>) -> (r: usize)
    ensures
        r == chunk_len(len as int, limit),
{
    let cap: usize = match limit {
        Some(n) => {
            if n <= 1 {
                0
            } else if n >= 30 {
                10
            } else {
                n as usize
            }
        },
        None => APPROX_STREAM_NODE_ENTRIES,
    };
    if cap < len {
        cap
    } else {
        len
    }
}

/// How many entries an approximate trim to a length evicts at once: without a
/// limit the partial node at the front goes first.
pub open spec fn maxlen_chunk_len(len: int, target: int, limit: Option<u64>) -> int {
    let head = len % 100;
    if limit is Some || target <= 100 {
        chunk_len(len, limit)
    } else if head > 0 && len - head >= target {
        head
    } else {
        chunk_len(len, limit)
    }
}

/// How many entries an approximate trim to a length evicts at once.
pub fn approx_maxlen_trim_chunk_len(len: usize, target: u64, limit: Option<u64>) -> (r: usize)
    ensures
        r == maxlen_chunk_len(len as int, target as int, limit),
{
    if limit.is_some() || target <= 100 {
        return approx_trim_chunk_len(len, limit);
    }
    let head: usize = len % 100;
    if head > 0 && (len - head) as u64 >= target {
        return head;
    }
    approx_trim_chunk_len(len, limit)
}

/// How many entries an approximate trim to `target` entries evicts in all.
pub open spec fn maxlen_evicted(len: int, target: int, limit: Option<u64>, left: int) -> int
    decreases len,
{
    let chunk = maxlen_chunk_len(len, target, limit);
    if len <= target || chunk <= 0 || chunk > left || len - chunk < target || len - chunk < 0 {
        0
    } else {
        chunk + maxlen_evicted(len - chunk, target, limit, left - chunk)
    }
}

/// How many of `eligible` entries an approximate trim evicts in all.
pub open spec fn count_evicted(len: int, eligible: int, limit: Option<u64>, left: int) -> int
    decreases eligible,
{
    let chunk = chunk_len(len, limit);
    if eligible <= 0 || chunk <= 0 || chunk > eligible || chunk > left {
        0
    } else {
        chunk + count_evicted(len - chunk, eligible - chunk, limit, left - chunk)
    }
}

/// The limit on evictions as a number.
pub open spec fn budget(limit: Option<u64>) -> int {
    match limit {
        Some(n) => n as int,
        None => u64::MAX as int,
    }
}

/// How many entries a trim evicts from the front.
pub open spec fn evicted(entries: Seq<EntryV>, t: TrimStrategy) -> int {
    match t {
        TrimStrategy::Keep => 0,
        TrimStrategy::MaxLen { target, approximate, limit } => if approximate {
            maxlen_evicted(entries.len() as int, target as int, limit, budget(limit))
        } else if entries.len() <= target {
            0
        } else {
            entries.len() - target
        },
        TrimStrategy::MinId { min, approximate, limit } => if approximate {
            count_evicted(
                entries.len() as int,
                entry_rank(entries, min),
                limit,
                budget(limit),
            )
        } else {
            entry_rank(entries, min)
        },
    }
}

/// The stream after a trim. The record of deleted entries stays as it is.
pub open spec fn trimmed(s: StreamV, t: TrimStrategy) -> StreamV {
    StreamV { entries: s.entries.skip(evicted(s.entries, t)), ..s }
}

proof fn lemma_maxlen_evicted(len: int, target: int, limit: Option<u64>, left: int)
    requires
        0 <= len,
        0 <= target,
    ensures
        0 <= maxlen_evicted(len, target, limit, left) <= len,
        maxlen_evicted(len, target, limit, left) > 0 ==> len - maxlen_evicted(
            len,
            target,
            limit,
            left,
        ) >= target,
        0 <= left ==> maxlen_evicted(len, target, limit, left) <= left,
    decreases len,
{
    let chunk = maxlen_chunk_len(len, target, limit);
    if !(len <= target || chunk <= 0 || chunk > left || len - chunk < target || len - chunk < 0) {
        lemma_maxlen_evicted(len - chunk, target, limit, left - chunk);
    }
}

proof fn lemma_count_evicted(len: int, eligible: int, limit: Option<u64>, left: int)
    requires
        0 <= eligible <= len,
    ensures
        0 <= count_evicted(len, eligible, limit, left) <= eligible,
        0 <= left ==> count_evicted(len, eligible, limit, left) <= left,
    decreases eligible,
{
    let chunk = chunk_len(len, limit);
    if !(eligible <= 0 || chunk <= 0 || chunk > eligible || chunk > left) {
        lemma_count_evicted(len - chunk, eligible - chunk, limit, left - chunk);
    }
}

/// A trim evicts from the front and never more than there is; an exact trim
/// leaves exactly the entries that it should, an approximate one at least
/// those, and it keeps to its limit.
pub proof fn law_trim(s: StreamV, t: TrimStrategy)
    requires
        crate::stream_data::entries_ascend(s.entries),
    ensures
        0 <= evicted(s.entries, t) <= s.entries.len(),
        t matches TrimStrategy::MaxLen { target, approximate: false, .. } ==> trimmed(
            s,
            t,
        ).entries.len() == min_of(s.entries.len() as int, target as int),
        t matches TrimStrategy::MaxLen { target, approximate: true, .. } ==> trimmed(
            s,
            t,
        ).entries.len() >= min_of(s.entries.len() as int, target as int),
        t matches TrimStrategy::MinId { min, approximate: false, .. } ==> trimmed(s, t).entries
            == s.entries.filter(|e: EntryV| id_le(min, e.id)),
        t matches TrimStrategy::MinId { min, approximate: true, .. } ==> forall|i: int|
            0 <= i < evicted(s.entries, t) ==> id_lt((#[trigger] s.entries[i]).id, min),
        t matches TrimStrategy::MaxLen { approximate: true, limit: Some(n), .. } ==> evicted(
            s.entries,
            t,
        ) <= n,
        t matches TrimStrategy::MinId { approximate: true, limit: Some(n), .. } ==> evicted(
            s.entries,
            t,
        ) <= n,
{
    match t {
        TrimStrategy::Keep => {},
        TrimStrategy::MaxLen { target, approximate, limit } => {
            lemma_maxlen_evicted(s.entries.len() as int, target as int, limit, budget(limit));
        },
        TrimStrategy::MinId { min, approximate, limit } => {
            lemma_entry_rank(s.entries, min);
            let n = entry_rank(s.entries, min);
            lemma_count_evicted(s.entries.len() as int, n, limit, budget(limit));
            crate::stream_data::lemma_filter_is_range(
                s.entries,
                |e: EntryV| id_le(min, e.id),
                n,
                s.entries.len() as int,
            );
            assert(s.entries.subrange(n, s.entries.len() as int) =~= s.entries.skip(n));
        },
    }
}

/// Trims a stream to about `target` entries.
fn apply_approx_maxlen_trim(stream: &mut InlineStream, target: u64, limit: Option<u64>) -> (r: usize)
    requires
        old(stream).wf(),
    ensures
        final(stream).wf(),
        r == maxlen_evicted(old(stream)@.entries.len() as int, target as int, limit, budget(limit)),
        final(stream)@ == (StreamV {
            entries: old(stream)@.entries.skip(r as int),
            ..old(stream)@
        }),
{
    let ghost s = stream@;
    let ghost total = maxlen_evicted(s.entries.len() as int, target as int, limit, budget(limit));
    let mut gone: usize = 0;
    let mut left: u64 = match limit {
        Some(n) => n,
        None => u64::MAX,
    };
    let first: usize = stream.entries.len();
    proof {
        assert(s.entries.skip(0) =~= s.entries);
        lemma_maxlen_evicted(s.entries.len() as int, target as int, limit, budget(limit));
    }
    loop
        invariant
            stream.wf(),
            stream@ == (StreamV { entries: s.entries.skip(gone as int), ..s }),
            gone + stream@.entries.len() == s.entries.len(),
            first == s.entries.len(),
            total == gone + maxlen_evicted(
                stream@.entries.len() as int,
                target as int,
                limit,
                left as int,
            ),
        ensures
            total == gone,
        decreases stream@.entries.len(),
    {
        let len: usize = stream.entries.len();
        if len as u64 <= target {
            break;
        }
        let chunk: usize = approx_maxlen_trim_chunk_len(len, target, limit);
        if chunk == 0 || chunk as u64 > left || ((len - chunk) as u64) < target {
            break;
        }
        let ghost before = stream@;
        let _n: usize = stream.drain_front(chunk);
        gone = gone + chunk;
        left = left - chunk as u64;
        assert(s.entries.skip(gone - chunk).skip(chunk as int) =~= s.entries.skip(gone as int));
    }
    gone
}

/// Trims about `eligible` entries off a stream.
fn apply_approx_count_trim(stream: &mut InlineStream, eligible: usize, limit: Option<u64>) -> (r:
    usize)
    requires
        old(stream).wf(),
        eligible <= old(stream)@.entries.len(),
    ensures
        final(stream).wf(),
        r == count_evicted(
            old(stream)@.entries.len() as int,
            eligible as int,
            limit,
            budget(limit),
        ),
        final(stream)@ == (StreamV {
            entries: old(stream)@.entries.skip(r as int),
            ..old(stream)@
        }),
{
    let ghost s = stream@;
    let ghost total = count_evicted(s.entries.len() as int, eligible as int, limit, budget(limit));
    let mut gone: usize = 0;
    let mut rest: usize = eligible;
    let mut left: u64 = match limit {
        Some(n) => n,
        None => u64::MAX,
    };
    let first: usize = stream.entries.len();
    proof {
        assert(s.entries.skip(0) =~= s.entries);
    }
    while rest > 0
        invariant
            stream.wf(),
            stream@ == (StreamV { entries: s.entries.skip(gone as int), ..s }),
            gone + stream@.entries.len() == s.entries.len(),
            rest <= stream@.entries.len(),
            first == s.entries.len(),
            total == gone + count_evicted(
                stream@.entries.len() as int,
                rest as int,
                limit,
                left as int,
            ),
        ensures
            total == gone,
        decreases rest,
    {
        let chunk: usize = approx_trim_chunk_len(stream.entries.len(), limit);
        if chunk == 0 || chunk > rest || chunk as u64 > left {
            break;
        }
        let _n: usize = stream.drain_front(chunk);
        gone = gone + chunk;
        rest = rest - chunk;
        left = left - chunk as u64;
        assert(s.entries.skip(gone - chunk).skip(chunk as int) =~= s.entries.skip(gone as int));
    }
    gone
}

/// Trims a stream. Gives the number of evicted entries.
pub fn apply_trim(stream: &mut InlineStream, strategy: TrimStrategy) -> (r: usize)
    requires
        old(stream).wf(),
    ensures
        final(stream).wf(),
        r == evicted(old(stream)@.entries, strategy),
        final(stream)@ == trimmed(old(stream)@, strategy),
{
    let ghost s = stream@;
    proof {
        assert(s.entries.skip(0) =~= s.entries);
    }
    match strategy {
        TrimStrategy::Keep => {
            assert(stream@ =~= trimmed(s, strategy));
            0
        },
        TrimStrategy::MaxLen { target, approximate, limit } => {
            if approximate {
                return apply_approx_maxlen_trim(stream, target, limit);
            }
            let len: usize = stream.entries.len();
            if len as u64 <= target {
                assert(stream@ =~= trimmed(s, strategy));
                return 0;
            }
            let n: usize = stream.drain_front(len - target as usize);
            assert(stream@ =~= trimmed(s, strategy));
            n
        },
        TrimStrategy::MinId { min, approximate, limit } => {
            proof {
                lemma_entry_rank(s.entries, min);
            }
            let cut: usize = stream.lower_bound(min);
            if approximate {
                return apply_approx_count_trim(stream, cut, limit);
            }
            let n: usize = stream.drain_front(cut);
            assert(stream@ =~= trimmed(s, strategy));
            n
        },
    }
}

// ---------------------------------------------------------------------------
// XADD
// ---------------------------------------------------------------------------

/// The ID that follows `last` at a time: that time with sequence number 0, or
/// the next ID where the time is not past the last ID.
pub open spec fn auto_id(last: StreamId, now: i64) -> StreamId {
    if now > 0 && now > last.ms {
        StreamId { ms: now as u64, seq: 0 }
    } else {
        match id_succ(last) {
            Some(n) => n,
            None => last,
        }
    }
}

/// The ID that follows `last_id` at a time.
pub fn auto_next_id(last_id: StreamId, now_ms: i64) -> (r: StreamId)
    ensures
        r == auto_id(last_id, now_ms),
{
    let now: u64 = if now_ms < 0 {
        0
    } else {
        now_ms as u64
    };
    if now > last_id.ms {
        StreamId { ms: now, seq: 0 }
    } else {
        match last_id.checked_succ() {
            Some(n) => n,
            None => last_id,
        }
    }
}

/// The error for an ID that is not past the last one.
pub open spec fn id_too_small() -> ErrV {
    runtime("ERR The ID specified in XADD is equal or smaller than the target stream top item"@)
}

/// The ID of a new entry.
pub open spec fn next_id(spec_id: XaddIdSpec, last: StreamId, now: i64) -> Result<StreamId, ErrV> {
    match spec_id {
        XaddIdSpec::Auto => if id_lt(last, auto_id(last, now)) {
            Ok(auto_id(last, now))
        } else {
            Err(
                runtime(
                    "ERR The stream has exhausted the last possible ID, unable to add more items"@,
                ),
            )
        },
        XaddIdSpec::Partial(ms) => if ms > last.ms {
            Ok(StreamId { ms, seq: 0 })
        } else if ms == last.ms && last.seq < u64::MAX {
            Ok(StreamId { ms, seq: (last.seq + 1) as u64 })
        } else {
            Err(id_too_small())
        },
        XaddIdSpec::Explicit(id) => if id == zero_id() {
            Err(runtime("ERR The ID specified in XADD must be greater than 0-0"@))
        } else if id_le(id, last) {
            Err(id_too_small())
        } else {
            Ok(id)
        },
    }
}

/// A new entry always gets an ID past the last one.
pub proof fn law_ids_only_grow(spec_id: XaddIdSpec, last: StreamId, now: i64)
    ensures
        next_id(spec_id, last, now) matches Ok(id) ==> id_lt(last, id),
        spec_id is Auto && last != max_id() ==> next_id(spec_id, last, now) is Ok,
{
}

/// The ID of a new entry.
fn choose_id(spec_id: XaddIdSpec, last: StreamId, now: i64) -> (r: Result<StreamId, RedisError>)
    ensures
        match r {
            Ok(id) => next_id(spec_id, last, now) == Ok::<_, ErrV>(id),
            Err(e) => next_id(spec_id, last, now) == Err::<StreamId, _>(e@),
        },
{
    match spec_id {
        XaddIdSpec::Auto => {
            let next: StreamId = auto_next_id(last, now);
            if !last.less(next) {
                return Err(
                    RedisError::runtime(
                        "ERR The stream has exhausted the last possible ID, unable to add more items",
                    ),
                );
            }
            Ok(next)
        },
        XaddIdSpec::Partial(ms) => {
            if ms > last.ms {
                Ok(StreamId { ms, seq: 0 })
            } else if ms == last.ms && last.seq < u64::MAX {
                Ok(StreamId { ms, seq: last.seq + 1 })
            } else {
                Err(
                    RedisError::runtime(
                        "ERR The ID specified in XADD is equal or smaller than the target stream top item",
                    ),
                )
            }
        },
        XaddIdSpec::Explicit(id) => {
            if id == StreamId::zero() {
                return Err(
                    RedisError::runtime("ERR The ID specified in XADD must be greater than 0-0"),
                );
            }
            if !last.less(id) {
                return Err(
                    RedisError::runtime(
                        "ERR The ID specified in XADD is equal or smaller than the target stream top item",
                    ),
                );
            }
            Ok(id)
        },
    }
}

/// The pairs of arguments from position `at` on.
pub open spec fn arg_pairs(argv: Seq<Seq<u8>>, at: int) -> Seq<(Seq<u8>, Seq<u8>)> {
    Seq::new(
        ((argv.len() - at) / 2) as nat,
        |k: int| (argv[at + 2 * k], argv[at + 2 * k + 1]),
    )
}

/// Collects the pairs of arguments from position `at` on.
pub fn collect_pairs(argv: &Vec<Vec<u8>>, at: usize) -> (r: Vec<(Vec<u8>, Vec<u8>)>)
    requires
        at <= argv@.len(),
        (argv@.len() - at) % 2 == 0,
    ensures
        crate::stream_data::pair_views(r@) == arg_pairs(views(argv@), at as int),
{
    let ghost all = arg_pairs(views(argv@), at as int);
    let mut r: Vec<(Vec<u8>, Vec<u8>)> = Vec::new();
    let mut i: usize = at;
    while i < argv.len()
        invariant
            at <= i <= argv@.len(),
            (argv@.len() - at) % 2 == 0,
            (i - at) % 2 == 0,
            all == arg_pairs(views(argv@), at as int),
            r@.len() == (i - at) / 2,
            forall|k: int|
                0 <= k < r@.len() ==> ((#[trigger] r@[k]).0@, r@[k].1@) == all[k],
        decreases argv@.len() - i,
    {
        assert(i + 1 < argv@.len());
        let f: Vec<u8> = dup(&argv[i]);
        let v: Vec<u8> = dup(&argv[i + 1]);
        r.push((f, v));
        i = i + 2;
    }
    assert(crate::stream_data::pair_views(r@) =~= all);
    r
}

/// How XADD ends, once the entry is stored: waiting clients are served (or
/// remembered), the event is raised, a generated ID takes the place of the ID
/// argument, and the ID is the reply.
pub open spec fn xadd_after(
    stored: CtxV,
    key: Seq<u8>,
    at: int,
    entry: EntryV,
    generated: bool,
) -> Outcome {
    let client = stored.client;
    let woken = if client.deny_blocking {
        CtxV {
            client: ClientV { pending_wakes: client.pending_wakes.push(key), ..client },
            ..stored
        }
    } else {
        wakes_group_readers(wakes_new_entry(stored, key, entry), key)
    };
    let noted = raises(woken, EventClass::Stream, "xadd"@, key);
    let sent = if generated {
        with_argv(noted, client.argv.update(at, id_text(entry.id)))
    } else {
        noted
    };
    replies_one(sent, Tok::Bulk(id_text(entry.id)))
}

/// Serves waiting clients after an XADD and replies with the ID.
fn xadd_finish(ctx: &mut CommandContext, key: &[u8], at: usize, entry: StreamEntry, generated: bool) -> (r:
    Result<(), RedisError>)
    requires
        old(ctx).wf(),
        at < old(ctx)@.client.argv.len(),
    ensures
        final(ctx).wf(),
        done(r, final(ctx)@) == xadd_after(old(ctx)@, key@, at as int, entry@, generated),
{
    let ghost c = ctx@;
    let id: StreamId = entry.id;
    if ctx.client.deny_blocking {
        ctx.client.pending_wakes.push(dup(key));
        assert(ctx@ =~= (CtxV {
            client: ClientV { pending_wakes: c.client.pending_wakes.push(key@), ..c.client },
            ..c
        }));
    } else {
        wake_blocked_for_stream_entry(ctx, key, entry);
        wake_blocked_xreadgroup_for_key(ctx, key);
    }
    assert(ctx@.client.argv == c.client.argv);
    ctx.notify_keyspace_event(EventClass::Stream, "xadd", key);
    if generated {
        let mut argv: Vec<Vec<u8>> = crate::bytes::dup_all(&ctx.client.argv);
        let ghost before = argv@;
        let shown: Vec<u8> = id.to_display_bytes();
        let ghost sv = shown@;
        argv.set(at, shown);
        assert(views(argv@) =~= views(before).update(at as int, sv));
        ctx.set_args(argv);
    }
    ctx.reply_bulk(id.to_display_bytes())
}

/// How XADD ends, once the key, the options and the position of the ID are
/// known, on the stream that the key holds.
pub open spec fn xadd_on(
    c: CtxV,
    found: Option<StreamV>,
    opts: AddOptions,
    at: int,
) -> Outcome {
    let argv = c.client.argv;
    let key = argv[1];
    let s = match found {
        Some(s) => s,
        None => new_stream(),
    };
    match xadd_id(argv[at]) {
        Err(e) => fails(c, e),
        Ok(spec_id) => match next_id(spec_id, s.last_id, c.now) {
            Err(e) => fails(c, e),
            Ok(id) => {
                let entry = EntryV { id, fields: arg_pairs(argv, at + 1) };
                let value = ObjV::Stream(trimmed(appended(s, entry), opts.trim));
                let stored = with_db(
                    c,
                    if found is Some {
                        db_update(c.db, key, value)
                    } else {
                        db_set(c.db, key, value, false)
                    },
                );
                xadd_after(stored, key, at, entry, !(spec_id is Explicit))
            },
        },
    }
}

/// How XADD ends.
pub open spec fn xadd_outcome(c: CtxV) -> Outcome {
    let argv = c.client.argv;
    if argv.len() < 5 {
        fails(c, wrong_args("xadd"@))
    } else {
        match add_options(argv, 2, AddOptions { no_mkstream: false, trim: TrimStrategy::Keep }) {
            Err(e) => fails(c, e),
            Ok((opts, at)) => if at >= argv.len() || at + 1 == argv.len() || (argv.len() - at - 1)
                % 2 != 0 {
                fails(c, wrong_args("xadd"@))
            } else if db_get(c.db, argv[1]) is None && opts.no_mkstream {
                replies_one(c, Tok::NullBulk)
            } else {
                match stream_in(c.db, argv[1]) {
                    Err(e) => fails(c, e),
                    Ok(found) => xadd_on(c, found, opts, at),
                }
            },
        }
    }
}

/// Appends an entry to the stream of a key, or to a new stream. Gives the ID
/// and whether it was generated.
fn xadd_store(
    db: &mut RedisDb,
    key: &[u8],
    id_arg: &[u8],
    fields: Vec<(Vec<u8>, Vec<u8>)>,
    trim: TrimStrategy,
    now: i64,
) -> (r: Result<(StreamId, bool), RedisError>)
    requires
        old(db).wf(),
        stream_in(old(db)@, key@) is Ok,
    ensures
        final(db).wf(),
        ({
            let found = stream_in(old(db)@, key@)->Ok_0;
            let s = match found {
                Some(s) => s,
                None => new_stream(),
            };
            match r {
                Err(e) => {
                    &&& final(db)@ == old(db)@
                    &&& match xadd_id(id_arg@) {
                        Err(f) => f == e@,
                        Ok(spec_id) => next_id(spec_id, s.last_id, now) == Err::<StreamId, _>(e@),
                    }
                },
                Ok((id, auto)) => {
                    let entry = EntryV { id, fields: crate::stream_data::pair_views(fields@) };
                    let value = ObjV::Stream(trimmed(appended(s, entry), trim));
                    &&& xadd_id(id_arg@) matches Ok(spec_id)
                    &&& auto == !(spec_id is Explicit)
                    &&& next_id(spec_id, s.last_id, now) == Ok::<_, ErrV>(id)
                    &&& final(db)@ == (if found is Some {
                        db_update(old(db)@, key@, value)
                    } else {
                        db_set(old(db)@, key@, value, false)
                    })
                },
            }
        }),
{
    let ghost d = db@;
    match db.stream_for_write(key) {
        Err(e) => Err(e),
        Ok(Some(s)) => {
            let ghost sv = s@;
            proof {
                assert(d =~= db_update(d, key@, ObjV::Stream(sv)));
            }
            let spec_id: XaddIdSpec = match parse_xadd_id_spec(id_arg) {
                Err(e) => return Err(e),
                Ok(i) => i,
            };
            let id: StreamId = match choose_id(spec_id, s.last_id, now) {
                Err(e) => return Err(e),
                Ok(i) => i,
            };
            proof {
                law_ids_only_grow(spec_id, s.last_id, now);
            }
            s.append(StreamEntry { id, fields });
            let _n: usize = apply_trim(s, trim);
            let auto: bool = match spec_id {
                XaddIdSpec::Explicit(_) => false,
                _ => true,
            };
            Ok((id, auto))
        },
        Ok(None) => {
            let mut s: InlineStream = InlineStream::new();
            let spec_id: XaddIdSpec = match parse_xadd_id_spec(id_arg) {
                Err(e) => return Err(e),
                Ok(i) => i,
            };
            let id: StreamId = match choose_id(spec_id, s.last_id, now) {
                Err(e) => return Err(e),
                Ok(i) => i,
            };
            proof {
                law_ids_only_grow(spec_id, s.last_id, now);
            }
            s.append(StreamEntry { id, fields });
            let _n: usize = apply_trim(&mut s, trim);
            db.set_key(dup(key), RedisObject::Stream(s), false);
            let auto: bool = match spec_id {
                XaddIdSpec::Explicit(_) => false,
                _ => true,
            };
            Ok((id, auto))
        },
    }
}

/// XADD key [NOMKSTREAM] [MAXLEN|MINID [=|~] threshold [LIMIT count]] id|* field value ...
pub fn xadd_command(ctx: &mut CommandContext) -> (r: Result<(), RedisError>)
    requires
        old(ctx).wf(),
    ensures
        final(ctx).wf(),
        done(r, final(ctx)@) == xadd_outcome(old(ctx)@),
{
    let ghost c = ctx@;
    let argc: usize = ctx.arg_count();
    if argc < 5 {
        return Err(RedisError::wrong_number_of_args("xadd"));
    }
    let key: Vec<u8> = ctx.arg_owned(1);
    let (opts, at): (AddOptions, usize) = match parse_add_options(&ctx.client.argv) {
        Err(e) => return Err(e),
        Ok(p) => p,
    };
    if at >= argc {
        return Err(RedisError::wrong_number_of_args("xadd"));
    }
    let remaining: usize = argc - at - 1;
    if remaining == 0 || remaining % 2 != 0 {
        return Err(RedisError::wrong_number_of_args("xadd"));
    }
    let id_arg: Vec<u8> = ctx.arg_owned(at);
    let fields: Vec<(Vec<u8>, Vec<u8>)> = collect_pairs(&ctx.client.argv, at + 1);
    if opts.no_mkstream && !ctx.db.has_key(&key) {
        return ctx.reply_null_bulk();
    }
    match ctx.db.stream_at(&key) {
        Err(e) => return Err(e),
        Ok(_) => {},
    }
    let again: Vec<(Vec<u8>, Vec<u8>)> = collect_pairs(&ctx.client.argv, at + 1);
    let (id, auto): (StreamId, bool) = match xadd_store(
        &mut ctx.db,
        &key,
        &id_arg,
        fields,
        opts.trim,
        ctx.now_ms,
    ) {
        Err(e) => {
            assert(ctx@ =~= c);
            return Err(e);
        },
        Ok(p) => p,
    };
    xadd_finish(ctx, &key, at, StreamEntry { id, fields: again }, auto)
}

// ---------------------------------------------------------------------------
// XLEN, XRANGE, XREVRANGE
// ---------------------------------------------------------------------------

/// How XLEN ends.
pub open spec fn xlen_outcome(c: CtxV) -> Outcome {
    let argv = c.client.argv;
    if argv.len() != 2 {
        fails(c, wrong_args("xlen"@))
    } else {
        match stream_in(c.db, argv[1]) {
            Err(e) => fails(c, e),
            Ok(None) => replies_one(c, Tok::Int(0)),
            Ok(Some(s)) => replies_one(c, Tok::Int(s.entries.len() as i64 as int)),
        }
    }
}

/// XLEN key
pub fn xlen_command(ctx: &mut CommandContext) -> (r: Result<(), RedisError>)
    requires
        old(ctx).wf(),
    ensures
        final(ctx).wf(),
        done(r, final(ctx)@) == xlen_outcome(old(ctx)@),
{
    if ctx.arg_count() != 2 {
        return Err(RedisError::wrong_number_of_args("xlen"));
    }
    let n: i64 = match ctx.db.stream_at(&ctx.client.argv[1]) {
        Err(e) => return Err(e),
        Ok(None) => 0,
        Ok(Some(s)) => s.len() as i64,
    };
    ctx.reply_integer(n)
}

/// The entries of a stream between two bounds. Nothing lies from `+` on or up
/// to `-`.
pub open spec fn in_bounds(entries: Seq<EntryV>, start: Bound, end: Bound) -> Seq<EntryV> {
    if start is Max || end is Min {
        Seq::empty()
    } else {
        entries_between(
            entries,
            match start {
                Bound::Inclusive(id) => id,
                _ => zero_id(),
            },
            match end {
                Bound::Inclusive(id) => id,
                _ => max_id(),
            },
        )
    }
}

/// The positions of the entries between two bounds.
pub fn resolve_range(stream: &InlineStream, start: Bound, end: Bound) -> (r: Option<(usize, usize)>)
    requires
        stream.wf(),
    ensures
        match r {
            Some((lo, hi)) => lo < hi <= stream.entries@.len() && in_bounds(
                stream@.entries,
                start,
                end,
            ) == stream@.entries.subrange(lo as int, hi as int),
            None => in_bounds(stream@.entries, start, end) == Seq::<EntryV>::empty(),
        },
{
    let lo_id: StreamId = match start {
        Bound::Min => StreamId::zero(),
        Bound::Max => return None,
        Bound::Inclusive(id) => id,
    };
    let hi_id: StreamId = match end {
        Bound::Min => return None,
        Bound::Max => StreamId::maximum(),
        Bound::Inclusive(id) => id,
    };
    proof {
        lemma_entries_between(stream@.entries, lo_id, hi_id);
        lemma_entry_rank(stream@.entries, hi_id);
    }
    let lo: usize = stream.lower_bound(lo_id);
    let hi: usize = stream.upper_bound(hi_id);
    if lo >= hi {
        return None;
    }
    Some((lo, hi))
}

/// The entries that XRANGE (or XREVRANGE) replies with.
pub open spec fn ranged(
    s: Option<StreamV>,
    start: Bound,
    end: Bound,
    count: Option<i64>,
    rev: bool,
) -> Seq<EntryV> {
    match s {
        None => Seq::empty(),
        Some(s) => {
            let all = in_bounds(s.entries, start, end);
            let n = take_count(count, all.len() as int);
            if rev {
                all.reverse().take(n)
            } else {
                all.take(n)
            }
        },
    }
}

/// How XRANGE (or XREVRANGE) ends.
pub open spec fn xrange_outcome(c: CtxV, rev: bool) -> Outcome {
    let argv = c.client.argv;
    if argv.len() < 4 {
        fails(
            c,
            wrong_args(
                if rev {
                    "xrevrange"@
                } else {
                    "xrange"@
                },
            ),
        )
    } else {
        let (lo, hi) = if rev {
            (argv[3], argv[2])
        } else {
            (argv[2], argv[3])
        };
        match range_bound(lo, BoundSide::Start) {
            Err(e) => fails(c, e),
            Ok(start) => match range_bound(hi, BoundSide::End) {
                Err(e) => fails(c, e),
                Ok(end) => match optional_count(argv, 4) {
                    Err(e) => fails(c, e),
                    Ok(count) => match stream_in(c.db, argv[1]) {
                        Err(e) => fails(c, e),
                        Ok(s) => {
                            let es = ranged(s, start, end, count, rev);
                            replies(c, seq![Tok::Array(es.len())] + entries_toks(es))
                        },
                    },
                },
            },
        }
    }
}

/// Copies `n` entries from `lo` on, or from `hi` backwards.
fn copy_range(entries: &Vec<StreamEntry>, lo: usize, hi: usize, n: usize, rev: bool) -> (r: Vec<
    StreamEntry,
>)
    requires
        lo <= hi <= entries@.len(),
        n <= hi - lo,
    ensures
        entry_views(r@) == (if rev {
            entry_views(entries@).subrange(lo as int, hi as int).reverse().take(n as int)
        } else {
            entry_views(entries@).subrange(lo as int, hi as int).take(n as int)
        }),
{
    let ghost part = entry_views(entries@).subrange(lo as int, hi as int);
    let ghost all = if rev {
        part.reverse()
    } else {
        part
    };
    let mut r: Vec<StreamEntry> = Vec::new();
    let mut i: usize = 0;
    while i < n
        invariant
            lo <= hi <= entries@.len(),
            i <= n <= hi - lo,
            part == entry_views(entries@).subrange(lo as int, hi as int),
            all == (if rev {
                part.reverse()
            } else {
                part
            }),
            r@.len() == i,
            forall|j: int| 0 <= j < i ==> (#[trigger] r@[j])@ == all[j],
        decreases n - i,
    {
        let at: usize = if rev {
            hi - 1 - i
        } else {
            lo + i
        };
        let e: StreamEntry = entries[at].dup();
        assert(e@ == all[i as int]);
        r.push(e);
        i += 1;
    }
    assert(entry_views(r@) =~= all.take(n as int));
    r
}

/// XRANGE and XREVRANGE.
fn xrange_generic(ctx: &mut CommandContext, rev: bool) -> (r: Result<(), RedisError>)
    requires
        old(ctx).wf(),
    ensures
        final(ctx).wf(),
        done(r, final(ctx)@) == xrange_outcome(old(ctx)@, rev),
{
    if ctx.arg_count() < 4 {
        return Err(
            RedisError::wrong_number_of_args(
                if rev {
                    "xrevrange"
                } else {
                    "xrange"
                },
            ),
        );
    }
    let lo_arg: Vec<u8> = ctx.arg_owned(if rev { 3 } else { 2 });
    let hi_arg: Vec<u8> = ctx.arg_owned(if rev { 2 } else { 3 });
    let start: Bound = match parse_range_bound(&lo_arg, BoundSide::Start) {
        Err(e) => return Err(e),
        Ok(b) => b,
    };
    let end: Bound = match parse_range_bound(&hi_arg, BoundSide::End) {
        Err(e) => return Err(e),
        Ok(b) => b,
    };
    let count: Option<i64> = match parse_optional_count(&ctx.client.argv, 4) {
        Err(e) => return Err(e),
        Ok(n) => n,
    };
    let collected: Vec<StreamEntry> = match ctx.db.stream_at(&ctx.client.argv[1]) {
        Err(e) => return Err(e),
        Ok(None) => Vec::new(),
        Ok(Some(s)) => match resolve_range(s, start, end) {
            None => Vec::new(),
            Some((lo, hi)) => {
                let n: usize = counted(count, hi - lo);
                copy_range(&s.entries, lo, hi, n, rev)
            },
        },
    };
    let ghost es = entry_views(collected@);
    assert(es =~= ranged(
        stream_in(ctx@.db, ctx@.client.argv[1])->Ok_0,
        start,
        end,
        count,
        rev,
    ));
    let mut out: Vec<Reply> = Vec::new();
    out.push(Reply::Array(collected.len() as u128));
    put_entries(&mut out, &collected, 0, collected.len());
    assert(es.subrange(0, es.len() as int) =~= es);
    assert(toks(out@) =~= seq![Tok::Array(es.len())] + entries_toks(es));
    ctx.reply_all(out);
    Ok(())
}

/// XRANGE key start end [COUNT n]
pub fn xrange_command(ctx: &mut CommandContext) -> (r: Result<(), RedisError>)
    requires
        old(ctx).wf(),
    ensures
        final(ctx).wf(),
        done(r, final(ctx)@) == xrange_outcome(old(ctx)@, false),
{
    xrange_generic(ctx, false)
}

/// XREVRANGE key end start [COUNT n]
pub fn xrevrange_command(ctx: &mut CommandContext) -> (r: Result<(), RedisError>)
    requires
        old(ctx).wf(),
    ensures
        final(ctx).wf(),
        done(r, final(ctx)@) == xrange_outcome(old(ctx)@, true),
{
    xrange_generic(ctx, true)
}

// ---------------------------------------------------------------------------
// XDEL, XTRIM
// ---------------------------------------------------------------------------

/// The IDs that a list of arguments denotes; one that is no ID spoils the list.
pub open spec fn id_list(args: Seq<Seq<u8>>) -> Result<Seq<StreamId>, ErrV>
    decreases args.len(),
{
    if args.len() == 0 {
        Ok(Seq::empty())
    } else {
        match id_list(args.drop_last()) {
            Err(e) => Err(e),
            Ok(ids) => match explicit_id(args.last()) {
                Err(e) => Err(e),
                Ok(id) => Ok(ids.push(id)),
            },
        }
    }
}

proof fn lemma_id_list_prefix(args: Seq<Seq<u8>>, n: int)
    requires
        0 <= n <= args.len(),
        id_list(args.take(n)) is Err,
    ensures
        id_list(args) == id_list(args.take(n)),
    decreases args.len() - n,
{
    if n == args.len() {
        assert(args.take(n) =~= args);
    } else {
        assert(args.take(n + 1).drop_last() =~= args.take(n));
        lemma_id_list_prefix(args, n + 1);
    }
}

/// Parses the arguments from position `from` on as IDs.
pub fn parse_ids(argv: &Vec<Vec<u8>>, from: usize) -> (r: Result<Vec<StreamId>, RedisError>)
    requires
        from <= argv@.len(),
    ensures
        match r {
            Ok(ids) => id_list(views(argv@).skip(from as int)) == Ok::<_, ErrV>(ids@) && ids@.len()
                == argv@.len() - from,
            Err(e) => id_list(views(argv@).skip(from as int)) == Err::<Seq<StreamId>, _>(e@),
        },
{
    let ghost all = views(argv@).skip(from as int);
    let mut ids: Vec<StreamId> = Vec::new();
    let mut i: usize = from;
    assert(all.take(0) =~= Seq::empty());
    while i < argv.len()
        invariant
            from <= i <= argv@.len(),
            all == views(argv@).skip(from as int),
            ids@.len() == i - from,
            id_list(all.take(i - from)) == Ok::<_, ErrV>(ids@),
        decreases argv@.len() - i,
    {
        assert(all.take(i - from + 1).drop_last() =~= all.take(i - from));
        assert(all.take(i - from + 1).last() == views(argv@)[i as int]);
        match parse_explicit_id(&argv[i]) {
            Err(e) => {
                proof {
                    lemma_id_list_prefix(all, i - from + 1);
                }
                return Err(e);
            },
            Ok(id) => ids.push(id),
        }
        i += 1;
    }
    assert(all.take(i - from) =~= all);
    Ok(ids)
}

/// The stream after some IDs were deleted, and how many of them it had.
pub open spec fn deleted_all(s: StreamV, ids: Seq<StreamId>) -> (StreamV, nat)
    decreases ids.len(),
{
    if ids.len() == 0 {
        (s, 0)
    } else {
        let (t, n) = deleted_all(s, ids.drop_last());
        (
            deleted(t, ids.last()),
            if has_entry(t.entries, ids.last()) {
                n + 1
            } else {
                n
            },
        )
    }
}

/// How XDEL ends.
pub open spec fn xdel_outcome(c: CtxV) -> Outcome {
    let argv = c.client.argv;
    if argv.len() < 3 {
        fails(c, wrong_args("xdel"@))
    } else {
        match id_list(argv.skip(2)) {
            Err(e) => fails(c, e),
            Ok(ids) => match stream_in(c.db, argv[1]) {
                Err(e) => fails(c, e),
                Ok(None) => replies_one(c, Tok::Int(0)),
                Ok(Some(s)) => {
                    let (t, n) = deleted_all(s, ids);
                    let d = with_db(c, db_update(c.db, argv[1], ObjV::Stream(t)));
                    replies_one(
                        raises_if(n > 0, d, EventClass::Stream, "xdel"@, argv[1]),
                        Tok::Int(n as i64 as int),
                    )
                },
            },
        }
    }
}

/// Deletes some IDs from a stream. Gives how many it had.
fn delete_ids(s: &mut InlineStream, ids: &Vec<StreamId>) -> (r: usize)
    requires
        old(s).wf(),
    ensures
        final(s).wf(),
        (final(s)@, r as nat) == deleted_all(old(s)@, ids@),
{
    let ghost start = s@;
    let mut n: usize = 0;
    let mut i: usize = 0;
    while i < ids.len()
        invariant
            s.wf(),
            n <= i <= ids@.len(),
            (s@, n as nat) == deleted_all(start, ids@.take(i as int)),
        decreases ids@.len() - i,
    {
        assert(ids@.take(i + 1).drop_last() =~= ids@.take(i as int));
        if s.delete(ids[i]) {
            n += 1;
        }
        i += 1;
    }
    assert(ids@.take(i as int) =~= ids@);
    n
}

/// XDEL key id [id ...]
pub fn xdel_command(ctx: &mut CommandContext) -> (r: Result<(), RedisError>)
    requires
        old(ctx).wf(),
    ensures
        final(ctx).wf(),
        done(r, final(ctx)@) == xdel_outcome(old(ctx)@),
{
    let ghost c = ctx@;
    if ctx.arg_count() < 3 {
        return Err(RedisError::wrong_number_of_args("xdel"));
    }
    let key: Vec<u8> = ctx.arg_owned(1);
    let ids: Vec<StreamId> = match parse_ids(&ctx.client.argv, 2) {
        Err(e) => return Err(e),
        Ok(ids) => ids,
    };
    let n: usize = match ctx.db.stream_for_write(&key) {
        Err(e) => return Err(e),
        Ok(None) => 0,
        Ok(Some(s)) => delete_ids(s, &ids),
    };
    if n > 0 {
        ctx.notify_keyspace_event(EventClass::Stream, "xdel", &key);
    }
    ctx.reply_integer(n as i64)
}

/// A deleted entry is gone, the others stay in order, and the record of
/// deleted IDs only grows.
pub proof fn law_delete(s: StreamV, id: StreamId)
    requires
        crate::stream_data::entries_ascend(s.entries),
    ensures
        !has_entry(deleted(s, id).entries, id),
        crate::stream_data::entries_ascend(deleted(s, id).entries),
        forall|e: EntryV| e.id != id ==> (#[trigger] s.entries.contains(e) <==> deleted(
            s,
            id,
        ).entries.contains(e)),
        id_le(s.max_deleted_id, deleted(s, id).max_deleted_id),
        deleted(s, id).last_id == s.last_id && deleted(s, id).entries_added == s.entries_added,
{
    lemma_entry_rank(s.entries, id);
    let t = deleted(s, id);
    if has_entry(s.entries, id) {
        let n = entry_rank(s.entries, id);
        assert forall|i: int| 0 <= i < t.entries.len() implies (#[trigger] t.entries[i]).id != id by {
            if i < n {
                assert(t.entries[i] == s.entries[i]);
            } else {
                assert(t.entries[i] == s.entries[i + 1]);
            }
        }
        assert forall|e: EntryV| e.id != id implies (#[trigger] s.entries.contains(e)
            <==> t.entries.contains(e)) by {
            if s.entries.contains(e) {
                let i = s.entries.index_of(e);
                if i < n {
                    assert(t.entries[i] == e);
                } else {
                    assert(t.entries[i - 1] == e);
                }
            }
            if t.entries.contains(e) {
                let i = t.entries.index_of(e);
                if i < n {
                    assert(s.entries[i] == e);
                } else {
                    assert(s.entries[i + 1] == e);
                }
            }
        }
    }
}

/// How XTRIM ends.
pub open spec fn xtrim_outcome(c: CtxV) -> Outcome {
    let argv = c.client.argv;
    if argv.len() < 4 {
        fails(c, wrong_args("xtrim"@))
    } else {
        match trim_args(argv, 2) {
            Err(e) => fails(c, e),
            Ok(t) => match stream_in(c.db, argv[1]) {
                Err(e) => fails(c, e),
                Ok(None) => replies_one(c, Tok::Int(0)),
                Ok(Some(s)) => {
                    let n = evicted(s.entries, t);
                    let d = with_db(c, db_update(c.db, argv[1], ObjV::Stream(trimmed(s, t))));
                    replies_one(
                        raises_if(n as i64 > 0, d, EventClass::Stream, "xtrim"@, argv[1]),
                        Tok::Int(n as i64 as int),
                    )
                },
            },
        }
    }
}

/// XTRIM key MAXLEN|MINID [=|~] threshold [LIMIT count]
pub fn xtrim_command(ctx: &mut CommandContext) -> (r: Result<(), RedisError>)
    requires
        old(ctx).wf(),
    ensures
        final(ctx).wf(),
        done(r, final(ctx)@) == xtrim_outcome(old(ctx)@),
{
    if ctx.arg_count() < 4 {
        return Err(RedisError::wrong_number_of_args("xtrim"));
    }
    let key: Vec<u8> = ctx.arg_owned(1);
    let strategy: TrimStrategy = match parse_trim_args(&ctx.client.argv, 2) {
        Err(e) => return Err(e),
        Ok(t) => t,
    };
    let n: i64 = match ctx.db.stream_for_write(&key) {
        Err(e) => return Err(e),
        Ok(None) => 0,
        Ok(Some(s)) => apply_trim(s, strategy) as i64,
    };
    if n > 0 {
        ctx.notify_keyspace_event(EventClass::Stream, "xtrim", &key);
    }
    ctx.reply_integer(n)
}

// ---------------------------------------------------------------------------
// XREAD
// ---------------------------------------------------------------------------

/// Where a read of one stream starts.
#[derive(Clone, Copy, PartialEq, Eq, Structural, Debug)]
pub enum ReadStartId {
    /// `$`: after the last ID.
    Now,
    /// `+`: at the last entry.
    LastEntry,
    /// After an ID.
    After(StreamId),
}

/// Where a read starts.
pub open spec fn read_start(raw: Seq<u8>) -> Result<ReadStartId, ErrV> {
    if raw == text("$"@) {
        Ok(ReadStartId::Now)
    } else if raw == text("+"@) {
        Ok(ReadStartId::LastEntry)
    } else {
        match explicit_id(raw) {
            Err(e) => Err(e),
            Ok(id) => Ok(ReadStartId::After(id)),
        }
    }
}

/// Where the reads of some streams start; an argument that is no ID spoils the
/// list.
pub open spec fn read_starts(args: Seq<Seq<u8>>) -> Result<Seq<ReadStartId>, ErrV>
    decreases args.len(),
{
    if args.len() == 0 {
        Ok(Seq::empty())
    } else {
        match read_starts(args.drop_last()) {
            Err(e) => Err(e),
            Ok(ids) => match read_start(args.last()) {
                Err(e) => Err(e),
                Ok(id) => Ok(ids.push(id)),
            },
        }
    }
}

proof fn lemma_read_starts_prefix(args: Seq<Seq<u8>>, n: int)
    requires
        0 <= n <= args.len(),
        read_starts(args.take(n)) is Err,
    ensures
        read_starts(args) == read_starts(args.take(n)),
    decreases args.len() - n,
{
    if n == args.len() {
        assert(args.take(n) =~= args);
    } else {
        assert(args.take(n + 1).drop_last() =~= args.take(n));
        lemma_read_starts_prefix(args, n + 1);
    }
}

/// Parses where the reads of some streams start.
fn parse_read_starts(argv: &Vec<Vec<u8>>, from: usize) -> (r: Result<Vec<ReadStartId>, RedisError>)
    requires
        from <= argv@.len(),
    ensures
        match r {
            Ok(ids) => read_starts(views(argv@).skip(from as int)) == Ok::<_, ErrV>(ids@)
                && ids@.len() == argv@.len() - from,
            Err(e) => read_starts(views(argv@).skip(from as int)) == Err::<Seq<ReadStartId>, _>(e@),
        },
{
    let ghost all = views(argv@).skip(from as int);
    let mut ids: Vec<ReadStartId> = Vec::new();
    let mut i: usize = from;
    assert(all.take(0) =~= Seq::empty());
    while i < argv.len()
        invariant
            from <= i <= argv@.len(),
            all == views(argv@).skip(from as int),
            ids@.len() == i - from,
            read_starts(all.take(i - from)) == Ok::<_, ErrV>(ids@),
        decreases argv@.len() - i,
    {
        assert(all.take(i - from + 1).drop_last() =~= all.take(i - from));
        assert(all.take(i - from + 1).last() == views(argv@)[i as int]);
        if is_text(&argv[i], "$") {
            ids.push(ReadStartId::Now);
        } else if is_text(&argv[i], "+") {
            ids.push(ReadStartId::LastEntry);
        } else {
            match parse_explicit_id(&argv[i]) {
                Err(e) => {
                    proof {
                        lemma_read_starts_prefix(all, i - from + 1);
                    }
                    return Err(e);
                },
                Ok(id) => ids.push(ReadStartId::After(id)),
            }
        }
        i += 1;
    }
    assert(all.take(i - from) =~= all);
    Ok(ids)
}

/// The ID after which a read of a stream starts.
pub open spec fn read_after(s: StreamV, start: ReadStartId) -> StreamId {
    match start {
        ReadStartId::Now => s.last_id,
        ReadStartId::LastEntry => if s.entries.len() == 0 {
            s.last_id
        } else {
            match id_pred(s.last_id) {
                Some(p) => p,
                None => zero_id(),
            }
        },
        ReadStartId::After(id) => id,
    }
}

/// The entries that a read of one stream gives.
pub open spec fn read_entries(s: Option<StreamV>, start: ReadStartId, count: Option<i64>) -> Seq<
    EntryV,
> {
    match s {
        None => Seq::empty(),
        Some(s) => {
            let all = entries_after(s.entries, read_after(s, start));
            all.take(take_count(count, all.len() as int))
        },
    }
}

/// The streams with entries to read, in order, with their entries. A key of
/// another type spoils the read.
pub open spec fn read_results(
    d: DbV,
    keys: Seq<Seq<u8>>,
    starts: Seq<ReadStartId>,
    count: Option<i64>,
) -> Result<Seq<(Seq<u8>, Seq<EntryV>)>, ErrV>
    decreases keys.len(),
{
    if keys.len() == 0 {
        Ok(Seq::empty())
    } else {
        match read_results(d, keys.drop_last(), starts.drop_last(), count) {
            Err(e) => Err(e),
            Ok(rs) => match stream_in(d, keys.last()) {
                Err(e) => Err(e),
                Ok(s) => {
                    let es = read_entries(s, starts.last(), count);
                    if es.len() == 0 {
                        Ok(rs)
                    } else {
                        Ok(rs.push((keys.last(), es)))
                    }
                },
            },
        }
    }
}

proof fn lemma_read_results_prefix(
    d: DbV,
    keys: Seq<Seq<u8>>,
    starts: Seq<ReadStartId>,
    count: Option<i64>,
    n: int,
)
    requires
        0 <= n <= keys.len() == starts.len(),
        read_results(d, keys.take(n), starts.take(n), count) is Err,
    ensures
        read_results(d, keys, starts, count) == read_results(
            d,
            keys.take(n),
            starts.take(n),
            count,
        ),
    decreases keys.len() - n,
{
    if n == keys.len() {
        assert(keys.take(n) =~= keys);
        assert(starts.take(n) =~= starts);
    } else {
        assert(keys.take(n + 1).drop_last() =~= keys.take(n));
        assert(starts.take(n + 1).drop_last() =~= starts.take(n));
        lemma_read_results_prefix(d, keys, starts, count, n + 1);
    }
}

/// Streams with their entries, one after the other.
pub open spec fn results_toks(rs: Seq<(Seq<u8>, Seq<EntryV>)>) -> Seq<Tok>
    decreases rs.len(),
{
    if rs.len() == 0 {
        Seq::empty()
    } else {
        results_toks(rs.drop_last()) + key_entries_toks(rs.last().0, rs.last().1)
    }
}

/// A deadline `ms` milliseconds from now; 0 means never.
pub open spec fn deadline(now: i64, ms: i64) -> i64 {
    if ms == 0 || now + ms > i64::MAX {
        i64::MAX
    } else if now + ms < i64::MIN {
        i64::MIN
    } else {
        (now + ms) as i64
    }
}

/// A deadline `ms` milliseconds from now; 0 means never.
pub fn deadline_at(now: i64, ms: i64) -> (r: i64)
    ensures
        r == deadline(now, ms),
{
    let sum: i128 = now as i128 + ms as i128;
    if ms == 0 || sum > i64::MAX as i128 {
        i64::MAX
    } else if sum < i64::MIN as i128 {
        i64::MIN
    } else {
        sum as i64
    }
}

/// The ID after which a client that found nothing waits.
pub open spec fn wait_after(d: DbV, key: Seq<u8>, start: ReadStartId) -> StreamId {
    match start {
        ReadStartId::After(id) => id,
        ReadStartId::LastEntry => match stream_in(d, key) {
            Ok(Some(s)) => if s.entries.len() > 0 {
                read_after(s, start)
            } else {
                zero_id()
            },
            _ => zero_id(),
        },
        ReadStartId::Now => match stream_in(d, key) {
            Ok(Some(s)) => s.last_id,
            _ => zero_id(),
        },
    }
}

/// One waiting entry per key.
pub open spec fn reader_waiters(
    c: CtxV,
    keys: Seq<Seq<u8>>,
    starts: Seq<ReadStartId>,
    ms: i64,
) -> Seq<WaiterV> {
    Seq::new(
        keys.len(),
        |k: int|
            WaiterV {
                client_id: c.client.id,
                key: keys[k],
                action: ActionV::Stream { id_after: wait_after(c.db, keys[k], starts[k]) },
                deadline_ms: deadline(c.now, ms),
                resp_proto: c.client.resp_proto,
                user: c.client.user,
                redirect_on_role_change: c.client.capa_redirect && !c.client.readonly,
            },
    )
}

/// How a read that found nothing and may wait ends: a client that may not
/// block, or that has no connection, gets the null bulk string at once.
pub open spec fn parks(c: CtxV, waiters: Seq<WaiterV>) -> Outcome {
    if c.client.deny_blocking || !c.client.attached {
        replies_one(c, Tok::NullBulk)
    } else {
        Outcome {
            result: Ok(()),
            ctx: CtxV {
                blocked: c.blocked + waiters,
                client: ClientV { blocked_on_keys: true, ..c.client },
                ..c
            },
        }
    }
}

/// How XREAD ends.
pub open spec fn xread_outcome(c: CtxV) -> Outcome {
    let argv = c.client.argv;
    if argv.len() < 4 {
        fails(c, wrong_args("xread"@))
    } else {
        match read_options(
            argv,
            1,
            false,
            ReadOptions { count: None, block_ms: None, noack: false },
        ) {
            Err(e) => fails(c, e),
            Ok((o, at)) => {
                let n = (argv.len() - at) / 2;
                if argv.len() == at || (argv.len() - at) % 2 != 0 {
                    fails(
                        c,
                        runtime(
                            "ERR Unbalanced 'xread' list of streams: for each stream key an ID or '$' must be specified."@,
                        ),
                    )
                } else {
                    let keys = argv.subrange(at, at + n);
                    match read_starts(argv.skip(at + n)) {
                        Err(e) => fails(c, e),
                        Ok(starts) => match read_results(c.db, keys, starts, o.count) {
                            Err(e) => fails(c, e),
                            Ok(rs) => if rs.len() > 0 {
                                replies(c, seq![Tok::Array(rs.len())] + results_toks(rs))
                            } else {
                                match o.block_ms {
                                    Some(ms) => parks(c, reader_waiters(c, keys, starts, ms)),
                                    None => replies_one(c, Tok::NullArray),
                                }
                            },
                        },
                    }
                }
            },
        }
    }
}

/// Reads some streams. Gives the number of streams with entries; their entries
/// are added to `out`.
fn read_streams(
    db: &RedisDb,
    argv: &Vec<Vec<u8>>,
    at: usize,
    starts: &Vec<ReadStartId>,
    count: Option<i64>,
    out: &mut Vec<Reply>,
) -> (r: Result<usize, RedisError>)
    requires
        db.wf(),
        at + starts@.len() <= argv@.len(),
    ensures
        ({
            let keys = views(argv@).subrange(at as int, at + starts@.len());
            let rs = read_results(db@, keys, starts@, count);
            match r {
                Ok(n) => rs matches Ok(v) && n == v.len() && toks(final(out)@) == toks(old(out)@)
                    + results_toks(v),
                Err(e) => rs == Err::<Seq<(Seq<u8>, Seq<EntryV>)>, ErrV>(e@),
            }
        }),
{
    let ghost keys = views(argv@).subrange(at as int, at + starts@.len());
    let ghost first = toks(out@);
    let ghost mut rs: Seq<(Seq<u8>, Seq<EntryV>)> = Seq::empty();
    let argc: usize = argv.len();
    let mut n: usize = 0;
    let mut k: usize = 0;
    proof {
        assert(keys.take(0) =~= Seq::empty());
        assert(first =~= first + results_toks(rs));
    }
    while k < starts.len()
        invariant
            db.wf(),
            at + starts@.len() <= argv@.len() == argc,
            keys == views(argv@).subrange(at as int, at + starts@.len()),
            n == rs.len(),
            n <= k <= starts@.len(),
            read_results(db@, keys.take(k as int), starts@.take(k as int), count) == Ok::<_, ErrV>(
                rs,
            ),
            toks(out@) == first + results_toks(rs),
        decreases starts@.len() - k,
    {
        let ghost before = toks(out@);
        proof {
            assert(keys.take(k + 1).drop_last() =~= keys.take(k as int));
            assert(starts@.take(k + 1).drop_last() =~= starts@.take(k as int));
            assert(keys.take(k + 1).last() == views(argv@)[at + k]);
            assert(starts@.take(k + 1).last() == starts@[k as int]);
        }
        match db.stream_at(&argv[at + k]) {
            Err(e) => {
                proof {
                    lemma_read_results_prefix(db@, keys, starts@, count, k + 1);
                }
                return Err(e);
            },
            Ok(None) => {},
            Ok(Some(s)) => {
                let after: StreamId = match starts[k] {
                    ReadStartId::Now => s.last_id,
                    ReadStartId::LastEntry => {
                        if s.entries.len() == 0 {
                            s.last_id
                        } else {
                            match s.last_id.checked_pred() {
                                Some(p) => p,
                                None => StreamId::zero(),
                            }
                        }
                    },
                    ReadStartId::After(id) => id,
                };
                proof {
                    lemma_entry_rank(s@.entries, after);
                }
                let from: usize = s.upper_bound(after);
                let m: usize = counted(count, s.entries.len() - from);
                let ghost es = read_entries(Some(s@), starts@[k as int], count);
                assert(s@.entries.subrange(from as int, from + m) =~= es);
                if m > 0 {
                    put_key_entries(out, &argv[at + k], &s.entries, from, from + m);
                    proof {
                        let grown = rs.push((keys.take(k + 1).last(), es));
                        assert(grown.drop_last() =~= rs);
                        assert(toks(out@) =~= first + results_toks(grown));
                        rs = grown;
                    }
                    n += 1;
                }
            },
        }
        k += 1;
    }
    proof {
        assert(keys.take(k as int) =~= keys);
        assert(starts@.take(k as int) =~= starts@);
    }
    Ok(n)
}

/// Registers a client that found nothing as a reader of some keys.
fn park_xread_block(
    ctx: &mut CommandContext,
    at: usize,
    starts: &Vec<ReadStartId>,
    block_ms: i64,
) -> (r: Result<(), RedisError>)
    requires
        old(ctx).wf(),
        at + starts@.len() <= old(ctx)@.client.argv.len(),
    ensures
        final(ctx).wf(),
        done(r, final(ctx)@) == parks(
            old(ctx)@,
            reader_waiters(
                old(ctx)@,
                old(ctx)@.client.argv.subrange(at as int, at + starts@.len()),
                starts@,
                block_ms,
            ),
        ),
{
    let ghost c = ctx@;
    let ghost keys = c.client.argv.subrange(at as int, at + starts@.len());
    let ghost all = reader_waiters(c, keys, starts@, block_ms);
    if ctx.client.deny_blocking || !ctx.client.attached {
        return ctx.reply_null_bulk();
    }
    let deadline_ms: i64 = deadline_at(ctx.now_ms, block_ms);
    let argc: usize = ctx.arg_count();
    let mut k: usize = 0;
    while k < starts.len()
        invariant
            k <= starts@.len(),
            at + starts@.len() <= c.client.argv.len() == argc,
            c == old(ctx)@,
            keys == c.client.argv.subrange(at as int, at + starts@.len()),
            all == reader_waiters(c, keys, starts@, block_ms),
            deadline_ms == deadline(c.now, block_ms),
            ctx.client == old(ctx).client,
            ctx.db == old(ctx).db,
            ctx.db.wf(),
            ctx.replies == old(ctx).replies,
            ctx.events == old(ctx).events,
            ctx.notify == old(ctx).notify,
            ctx.outbox == old(ctx).outbox,
            ctx.now_ms == old(ctx).now_ms,
            ctx.dirty == old(ctx).dirty,
            waiter_views(ctx.blocked@) =~= c.blocked + all.take(k as int),
        decreases starts@.len() - k,
    {
        let key: Vec<u8> = ctx.arg_owned(at + k);
        let id_after: StreamId = match starts[k] {
            ReadStartId::After(id) => id,
            ReadStartId::LastEntry => match ctx.db.stream_at(&key) {
                Ok(Some(s)) => {
                    if s.entries.len() > 0 {
                        match s.last_id.checked_pred() {
                            Some(p) => p,
                            None => StreamId::zero(),
                        }
                    } else {
                        StreamId::zero()
                    }
                },
                _ => StreamId::zero(),
            },
            ReadStartId::Now => match ctx.db.stream_at(&key) {
                Ok(Some(s)) => s.last_id,
                _ => StreamId::zero(),
            },
        };
        let w = BlockedWaiter {
            client_id: ctx.client.id,
            key,
            action: BlockedAction::Stream { id_after },
            deadline_ms,
            resp_proto: ctx.client.resp_proto,
            user: dup(&ctx.client.user),
            redirect_on_role_change: ctx.client.capa_redirect && !ctx.client.readonly,
        };
        proof {
            assert(w@ == all[k as int]);
            crate::context::lemma_waiters_push(ctx.blocked@, w);
        }
        ctx.blocked.push(w);
        k += 1;
    }
    assert(all.take(k as int) =~= all);
    ctx.client.blocked_on_keys = true;
    assert(ctx@ =~= parks(c, all).ctx);
    Ok(())
}

/// XREAD [COUNT n] [BLOCK ms] STREAMS key [key ...] id [id ...]
pub fn xread_command(ctx: &mut CommandContext) -> (r: Result<(), RedisError>)
    requires
        old(ctx).wf(),
    ensures
        final(ctx).wf(),
        done(r, final(ctx)@) == xread_outcome(old(ctx)@),
{
    let argc: usize = ctx.arg_count();
    if argc < 4 {
        return Err(RedisError::wrong_number_of_args("xread"));
    }
    let (o, at): (ReadOptions, usize) = match parse_read_options(&ctx.client.argv, 1, false) {
        Err(e) => return Err(e),
        Ok(p) => p,
    };
    let remaining: usize = argc - at;
    if remaining == 0 || remaining % 2 != 0 {
        return Err(
            RedisError::runtime(
                "ERR Unbalanced 'xread' list of streams: for each stream key an ID or '$' must be specified.",
            ),
        );
    }
    let n_keys: usize = remaining / 2;
    let starts: Vec<ReadStartId> = match parse_read_starts(&ctx.client.argv, at + n_keys) {
        Err(e) => return Err(e),
        Ok(s) => s,
    };
    let mut out: Vec<Reply> = Vec::new();
    let n: usize = match read_streams(
        &ctx.db,
        &ctx.client.argv,
        at,
        &starts,
        o.count,
        &mut out,
    ) {
        Err(e) => return Err(e),
        Ok(n) => n,
    };
    if n > 0 {
        let mut whole: Vec<Reply> = Vec::new();
        whole.push(Reply::Array(n as u128));
        let ghost tail = toks(out@);
        whole.append(&mut out);
        assert(toks(whole@) =~= seq![Tok::Array(n as nat)] + tail);
        ctx.reply_all(whole);
        return Ok(());
    }
    match o.block_ms {
        Some(ms) => park_xread_block(ctx, at, &starts, ms),
        None => ctx.reply_null_array(),
    }
}

/// A read of a stream gives exactly the entries past the given ID, in order,
/// up to the count.
pub proof fn law_read_gives_entries_past_id(s: StreamV, id: StreamId, count: Option<i64>)
    requires
        crate::stream_data::entries_ascend(s.entries),
    ensures
        ({
            let es = read_entries(Some(s), ReadStartId::After(id), count);
            &&& forall|i: int| 0 <= i < es.len() ==> id_lt(id, (#[trigger] es[i]).id)
            &&& crate::stream_data::entries_ascend(es)
            &&& count is None ==> forall|e: EntryV| #[trigger] s.entries.contains(e) && id_lt(
                id,
                e.id,
            ) ==> es.contains(e)
        }),
{
    lemma_entry_rank(s.entries, id);
    let m = entry_rank_past(s.entries, id);
    let all = entries_after(s.entries, id);
    let es = read_entries(Some(s), ReadStartId::After(id), count);
    assert forall|i: int| 0 <= i < es.len() implies #[trigger] es[i] == s.entries[m + i] by {}
    if count is None {
        assert forall|e: EntryV| #[trigger] s.entries.contains(e) && id_lt(
            id,
            e.id,
        ) implies es.contains(e) by {
            let i = s.entries.index_of(e);
            assert(es[i - m] == e);
        }
    }
}

/// An entry that XADD appended is what XREAD gives to a reader that was at the
/// end of the stream.
pub proof fn law_read_back_what_was_added(s: StreamV, e: EntryV)
    requires
        crate::stream_data::entries_ascend(s.entries),
        s.entries.len() > 0 ==> id_le(s.entries.last().id, s.last_id),
        id_lt(s.last_id, e.id),
    ensures
        read_entries(Some(appended(s, e)), ReadStartId::After(s.last_id), None) == seq![e],
{
    let t = appended(s, e);
    assert forall|i: int, j: int| 0 <= i < j < t.entries.len() implies id_lt(
        (#[trigger] t.entries[i]).id,
        (#[trigger] t.entries[j]).id,
    ) by {
        if j == s.entries.len() && i < s.entries.len() - 1 {
            assert(id_lt(s.entries[i].id, s.entries[s.entries.len() - 1].id));
        }
    }
    lemma_entry_rank(t.entries, s.last_id);
    let m = entry_rank_past(t.entries, s.last_id);
    if m < s.entries.len() {
        assert(id_lt(s.last_id, t.entries[m].id));
        let last = s.entries.len() - 1;
        assert(t.entries[m] == s.entries[m]);
        if m < last {
            assert(id_lt(s.entries[m].id, s.entries[last].id));
        }
    }
    if m > s.entries.len() {
        assert(id_le(t.entries[s.entries.len() as int].id, s.last_id));
    }
    assert(t.entries.skip(m) =~= seq![e]);
    assert(seq![e].take(1) =~= seq![e]);
}

// ---------------------------------------------------------------------------
// XSETID
// ---------------------------------------------------------------------------

/// The options of an XSETID.
#[derive(Clone, Copy, PartialEq, Eq, Structural, Debug)]
pub struct SetIdOptions {
    pub entries_added: Option<u64>,
    pub max_deleted: Option<StreamId>,
}

/// The options of an XSETID from position `i` on.
pub open spec fn setid_options(
    argv: Seq<Seq<u8>>,
    i: int,
    new_id: StreamId,
    acc: SetIdOptions,
) -> Result<SetIdOptions, ErrV>
    decreases argv.len() - i,
{
    if i < 0 || i >= argv.len() {
        Ok(acc)
    } else if is_word(argv[i], "ENTRIESADDED"@) {
        if i + 1 >= argv.len() {
            Err(syntax("syntax error"@))
        } else {
            match strict_i64(argv[i + 1]) {
                Err(e) => Err(e),
                Ok(n) => if n < 0 {
                    Err(runtime("ERR entries_added must be positive"@))
                } else {
                    setid_options(
                        argv,
                        i + 2,
                        new_id,
                        SetIdOptions { entries_added: Some(n as u64), ..acc },
                    )
                },
            }
        }
    } else if is_word(argv[i], "MAXDELETEDID"@) {
        if i + 1 >= argv.len() {
            Err(syntax("syntax error"@))
        } else {
            match explicit_id(argv[i + 1]) {
                Err(e) => Err(e),
                Ok(m) => if id_lt(new_id, m) {
                    Err(
                        runtime(
                            "ERR The ID specified in XSETID is smaller than the provided max_deleted_entry_id"@,
                        ),
                    )
                } else {
                    setid_options(
                        argv,
                        i + 2,
                        new_id,
                        SetIdOptions { max_deleted: Some(m), ..acc },
                    )
                },
            }
        }
    } else {
        Err(syntax("syntax error"@))
    }
}

/// Parses the options of an XSETID.
fn parse_setid_options(argv: &Vec<Vec<u8>>, new_id: StreamId) -> (r: Result<
    SetIdOptions,
    RedisError,
>)
    requires
        argv@.len() >= 3,
    ensures
        ({
            let s = setid_options(
                views(argv@),
                3,
                new_id,
                SetIdOptions { entries_added: None, max_deleted: None },
            );
            match r {
                Ok(o) => s == Ok::<_, ErrV>(o),
                Err(e) => s == Err::<SetIdOptions, _>(e@),
            }
        }),
{
    let ghost all = views(argv@);
    let ghost whole = setid_options(
        all,
        3,
        new_id,
        SetIdOptions { entries_added: None, max_deleted: None },
    );
    let mut o = SetIdOptions { entries_added: None, max_deleted: None };
    let argc: usize = argv.len();
    let mut i: usize = 3;
    while i < argc
        invariant
            argc == argv@.len(),
            all == views(argv@),
            3 <= i,
            whole == setid_options(all, i as int, new_id, o),
            whole == setid_options(
                all,
                3,
                new_id,
                SetIdOptions { entries_added: None, max_deleted: None },
            ),
        decreases argc - i,
    {
        if word(&argv[i], "ENTRIESADDED") {
            if i + 1 >= argc {
                return Err(RedisError::syntax("syntax error"));
            }
            match parse_strict_i64(&argv[i + 1]) {
                Err(e) => return Err(e),
                Ok(n) => {
                    if n < 0 {
                        return Err(RedisError::runtime("ERR entries_added must be positive"));
                    }
                    o = SetIdOptions { entries_added: Some(n as u64), max_deleted: o.max_deleted };
                },
            }
        } else if word(&argv[i], "MAXDELETEDID") {
            if i + 1 >= argc {
                return Err(RedisError::syntax("syntax error"));
            }
            match parse_explicit_id(&argv[i + 1]) {
                Err(e) => return Err(e),
                Ok(m) => {
                    if new_id.less(m) {
                        return Err(
                            RedisError::runtime(
                                "ERR The ID specified in XSETID is smaller than the provided max_deleted_entry_id",
                            ),
                        );
                    }
                    o = SetIdOptions { entries_added: o.entries_added, max_deleted: Some(m) };
                },
            }
        } else {
            return Err(RedisError::syntax("syntax error"));
        }
        i = i + 2;
    }
    Ok(o)
}

/// The stream after an XSETID, or the error that refuses it: the new last ID
/// may not be below the record of deleted entries or the top entry, and the
/// number of entries ever added not below the length.
pub open spec fn set_last_id(s: StreamV, new_id: StreamId, o: SetIdOptions) -> Result<
    StreamV,
    ErrV,
> {
    if id_lt(new_id, s.max_deleted_id) {
        Err(
            runtime(
                "ERR The ID specified in XSETID is smaller than current max_deleted_entry_id"@,
            ),
        )
    } else if s.entries.len() > 0 && id_lt(new_id, s.entries.last().id) {
        Err(
            runtime(
                "ERR The ID specified in XSETID is smaller than the target stream top item"@,
            ),
        )
    } else if s.entries.len() > 0 && (o.entries_added matches Some(n) && s.entries.len() > n) {
        Err(
            runtime(
                "ERR The entries_added specified in XSETID is smaller than the target stream length"@,
            ),
        )
    } else {
        Ok(
            StreamV {
                last_id: new_id,
                entries_added: match o.entries_added {
                    Some(n) => n,
                    None => s.entries_added,
                },
                max_deleted_id: match o.max_deleted {
                    Some(m) => m,
                    None => s.max_deleted_id,
                },
                ..s
            },
        )
    }
}

/// Sets the last ID of a stream.
fn apply_setid(s: &mut InlineStream, new_id: StreamId, o: SetIdOptions) -> (r: Result<
    (),
    RedisError,
>)
    requires
        old(s).wf(),
    ensures
        final(s).wf(),
        match r {
            Ok(()) => set_last_id(old(s)@, new_id, o) == Ok::<_, ErrV>(final(s)@),
            Err(e) => set_last_id(old(s)@, new_id, o) == Err::<StreamV, _>(e@) && final(s)@ == old(
                s,
            )@,
        },
{
    if new_id.less(s.max_deleted_id) {
        return Err(
            RedisError::runtime(
                "ERR The ID specified in XSETID is smaller than current max_deleted_entry_id",
            ),
        );
    }
    let len: usize = s.entries.len();
    if len > 0 {
        assert(s@.entries.last().id == s.entries@.last().id);
        if new_id.less(s.entries[len - 1].id) {
            return Err(
                RedisError::runtime(
                    "ERR The ID specified in XSETID is smaller than the target stream top item",
                ),
            );
        }
        if let Some(n) = o.entries_added {
            if len as u64 > n {
                return Err(
                    RedisError::runtime(
                        "ERR The entries_added specified in XSETID is smaller than the target stream length",
                    ),
                );
            }
        }
    }
    s.last_id = new_id;
    if let Some(n) = o.entries_added {
        s.entries_added = n;
    }
    if let Some(m) = o.max_deleted {
        s.max_deleted_id = m;
    }
    Ok(())
}

/// How XSETID ends.
pub open spec fn xsetid_outcome(c: CtxV) -> Outcome {
    let argv = c.client.argv;
    if argv.len() < 3 {
        fails(c, wrong_args("xsetid"@))
    } else {
        match explicit_id(argv[2]) {
            Err(e) => fails(c, e),
            Ok(id) => match setid_options(
                argv,
                3,
                id,
                SetIdOptions { entries_added: None, max_deleted: None },
            ) {
                Err(e) => fails(c, e),
                Ok(o) => match stream_in(c.db, argv[1]) {
                    Err(e) => fails(c, e),
                    Ok(None) => fails(c, runtime("ERR no such key"@)),
                    Ok(Some(s)) => match set_last_id(s, id, o) {
                        Err(e) => fails(c, e),
                        Ok(t) => replies_one(
                            raises(
                                with_db(c, db_update(c.db, argv[1], ObjV::Stream(t))),
                                EventClass::Stream,
                                "xsetid"@,
                                argv[1],
                            ),
                            status("OK"@),
                        ),
                    },
                },
            },
        }
    }
}

/// XSETID key id [ENTRIESADDED n] [MAXDELETEDID id]
pub fn xsetid_command(ctx: &mut CommandContext) -> (r: Result<(), RedisError>)
    requires
        old(ctx).wf(),
    ensures
        final(ctx).wf(),
        done(r, final(ctx)@) == xsetid_outcome(old(ctx)@),
{
    let ghost c = ctx@;
    if ctx.arg_count() < 3 {
        return Err(RedisError::wrong_number_of_args("xsetid"));
    }
    let key: Vec<u8> = ctx.arg_owned(1);
    let id: StreamId = match parse_explicit_id(&ctx.client.argv[2]) {
        Err(e) => return Err(e),
        Ok(id) => id,
    };
    let o: SetIdOptions = match parse_setid_options(&ctx.client.argv, id) {
        Err(e) => return Err(e),
        Ok(o) => o,
    };
    match ctx.db.stream_for_write(&key) {
        Err(e) => return Err(e),
        Ok(None) => return Err(RedisError::runtime("ERR no such key")),
        Ok(Some(s)) => {
            let ghost sv = s@;
            match apply_setid(s, id, o) {
                Err(e) => {
                    assert(c.db =~= db_update(c.db, key@, ObjV::Stream(sv)));
                    return Err(e);
                },
                Ok(()) => {},
            }
        },
    }
    ctx.notify_keyspace_event(EventClass::Stream, "xsetid", &key);
    ctx.reply_simple_string("OK")
}

} // verus!
