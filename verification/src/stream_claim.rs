//! Pending entries: XPENDING, XCLAIM and XAUTOCLAIM.

use vstd::prelude::*;

use crate::bytes::{dec, dup, fmt_u64, is_text, is_word, lemma_views_push, opt_view, text, views, word};
use crate::context::{
    done, fails, raises_if, replies, with_db, CommandContext, CtxV, EventClass, Outcome,
};
use crate::dict::{keys_of, Dict};
use crate::error::{runtime, syntax, wrong_args, ErrV, RedisError};
use crate::keyspace::{db_update, stream_in, ObjV, RedisDb};
use crate::reply::{lemma_toks_add, lemma_toks_push, toks, Reply, Tok};
use crate::stream::{id_list, parse_ids};
use crate::stream_data::{
    entry_rank, has_entry, id_le, id_text, max_id, pel_at, pel_find, pel_has, pel_lower_bound,
    pel_rank, pel_reassign, pel_reassigned, pel_remove, pel_removed, touch_or_create_consumer,
    touched, zero_id, Consumer, ConsumerGroup, ConsumerV, EntryV, GroupV, PelEntry, StreamEntry,
    StreamId,
};
use crate::stream_groups::{no_group, no_such_key_or_group_short, raised, with_group};
use crate::stream_parse::{
    explicit_id, parse_explicit_id, parse_range_bound, parse_strict_i64, range_bound, strict_i64, Bound,
    BoundSide,
};
use crate::stream_wake::{
    activate, activated, clamped, entry_toks, lemma_filter_step, now_ms_clamped, put_entry,
};

verus! {

broadcast use {lemma_toks_push, lemma_toks_add, lemma_views_push};

/// A difference of times, kept within `i64`.
pub open spec fn since(now: i64, then_ms: i64) -> i64 {
    if now - then_ms > i64::MAX {
        i64::MAX
    } else if now - then_ms < i64::MIN {
        i64::MIN
    } else {
        (now - then_ms) as i64
    }
}

/// A difference of times, kept within `i64`.
pub fn time_since(now: i64, then_ms: i64) -> (r: i64)
    ensures
        r == since(now, then_ms),
{
    let d: i128 = now as i128 - then_ms as i128;
    if d > i64::MAX as i128 {
        i64::MAX
    } else if d < i64::MIN as i128 {
        i64::MIN
    } else {
        d as i64
    }
}

/// How long a pending entry has been idle.
pub open spec fn idle_of(now: i64, p: PelEntry) -> i64 {
    if since(now, p.delivery_time_ms) < 0 {
        0
    } else {
        since(now, p.delivery_time_ms)
    }
}

// ---------------------------------------------------------------------------
// XPENDING
// ---------------------------------------------------------------------------

/// The consumers with pending entries, and how many each has.
pub open spec fn busy_toks(m: Map<Seq<u8>, ConsumerV>, keys: Seq<Seq<u8>>) -> Seq<Tok>
    decreases keys.len(),
{
    if keys.len() == 0 {
        Seq::empty()
    } else {
        let before = busy_toks(m, keys.drop_last());
        let n = m[keys.last()].pel.len();
        if n == 0 {
            before
        } else {
            before + seq![Tok::Array(2), Tok::Bulk(keys.last()), Tok::Bulk(dec(n as int))]
        }
    }
}

/// How many consumers have pending entries.
pub open spec fn busy_count(m: Map<Seq<u8>, ConsumerV>, keys: Seq<Seq<u8>>) -> nat
    decreases keys.len(),
{
    if keys.len() == 0 {
        0
    } else {
        busy_count(m, keys.drop_last()) + if m[keys.last()].pel.len() == 0 {
            0nat
        } else {
            1nat
        }
    }
}

/// The summary of the pending entries of a group: how many, the first and the
/// last ID, and the consumers that have some, in ascending order.
pub open spec fn summary_toks(g: GroupV) -> Seq<Tok> {
    if g.pel.len() == 0 {
        seq![Tok::Array(4), Tok::Int(0), Tok::NullBulk, Tok::NullBulk, Tok::NullArray]
    } else {
        let keys = keys_of(g.consumers);
        seq![
            Tok::Array(4),
            Tok::Int(g.pel.len() as i64 as int),
            Tok::Bulk(id_text(g.pel[0].entry_id)),
            Tok::Bulk(id_text(g.pel.last().entry_id)),
            Tok::Array(busy_count(g.consumers, keys)),
        ] + busy_toks(g.consumers, keys)
    }
}

/// Adds the consumers with pending entries to a reply. Gives their number.
fn put_busy(out: &mut Vec<Reply>, consumers: &Dict<Consumer>) -> (r: usize)
    requires
        consumers.wf(),
    ensures
        toks(final(out)@) == toks(old(out)@) + busy_toks(consumers@, keys_of(consumers@)),
        r == busy_count(consumers@, keys_of(consumers@)),
{
    let ghost first = toks(out@);
    let ghost keys = consumers.keys();
    let ghost m = consumers@;
    proof {
        consumers.lemma_keys();
        assert(keys.take(0) =~= Seq::empty());
        assert(first =~= first + busy_toks(m, keys.take(0)));
    }
    let mut n: usize = 0;
    let mut i: usize = 0;
    while i < consumers.entries.len()
        invariant
            consumers.wf(),
            keys == consumers.keys(),
            m == consumers@,
            n <= i <= consumers.entries@.len(),
            n == busy_count(m, keys.take(i as int)),
            toks(out@) == first + busy_toks(m, keys.take(i as int)),
        decreases consumers.entries@.len() - i,
    {
        let ghost before = toks(out@);
        proof {
            consumers.lemma_at(i as int);
            assert(keys.take(i + 1).drop_last() =~= keys.take(i as int));
            assert(keys.take(i + 1).last() == keys[i as int]);
            assert(m[keys[i as int]] == consumers.entries@[i as int].1@);
        }
        let len: usize = consumers.entries[i].1.pel.len();
        if len > 0 {
            out.push(Reply::Array(2));
            out.push(Reply::Bulk(dup(&consumers.entries[i].0)));
            out.push(Reply::Bulk(fmt_u64(len as u64)));
            assert(toks(out@) =~= first + busy_toks(m, keys.take(i + 1)));
            n += 1;
        }
        i += 1;
    }
    assert(keys.take(i as int) =~= keys);
    n
}

/// The summary of the pending entries of a group.
fn summary(g: &ConsumerGroup) -> (r: Vec<Reply>)
    requires
        g.wf(),
    ensures
        toks(r@) == summary_toks(g@),
{
    let mut out: Vec<Reply> = Vec::new();
    out.push(Reply::Array(4));
    let len: usize = g.pel.len();
    if len == 0 {
        out.push(Reply::Int(0));
        out.push(Reply::NullBulk);
        out.push(Reply::NullBulk);
        out.push(Reply::NullArray);
        assert(toks(out@) =~= summary_toks(g@));
        return out;
    }
    out.push(Reply::Int(len as i64));
    out.push(Reply::Bulk(g.pel[0].entry_id.to_display_bytes()));
    out.push(Reply::Bulk(g.pel[len - 1].entry_id.to_display_bytes()));
    let mut busy: Vec<Reply> = Vec::new();
    let n: usize = put_busy(&mut busy, &g.consumers);
    out.push(Reply::Array(n as u128));
    let ghost tail = toks(busy@);
    out.append(&mut busy);
    proof {
        assert(tail =~= busy_toks(g@.consumers, keys_of(g@.consumers)));
        assert(toks(out@) =~= summary_toks(g@));
    }
    out
}

/// The first of some consumers to which an ID is pending, or the empty name.
pub open spec fn owner_in(m: Map<Seq<u8>, ConsumerV>, keys: Seq<Seq<u8>>, id: StreamId) -> Seq<u8>
    decreases keys.len(),
{
    if keys.len() == 0 {
        Seq::empty()
    } else if pel_has(m[keys[0]].pel, id) {
        keys[0]
    } else {
        owner_in(m, keys.skip(1), id)
    }
}

/// The consumer to which an ID is pending.
pub fn owner_of(consumers: &Dict<Consumer>, id: StreamId) -> (r: Vec<u8>)
    requires
        crate::stream_data::consumers_wf(*consumers),
    ensures
        r@ == owner_in(consumers@, keys_of(consumers@), id),
{
    let ghost keys = consumers.keys();
    let ghost m = consumers@;
    proof {
        consumers.lemma_keys();
        assert(keys.skip(0) =~= keys);
    }
    let mut i: usize = 0;
    while i < consumers.entries.len()
        invariant
            crate::stream_data::consumers_wf(*consumers),
            keys == consumers.keys(),
            keys == keys_of(consumers@),
            m == consumers@,
            i <= consumers.entries@.len(),
            owner_in(m, keys, id) == owner_in(m, keys.skip(i as int), id),
        decreases consumers.entries@.len() - i,
    {
        proof {
            consumers.lemma_at(i as int);
            assert(keys.skip(i as int).skip(1) =~= keys.skip(i + 1));
            assert(m[keys[i as int]] == consumers.entries@[i as int].1@);
        }
        if pel_find(&consumers.entries[i].1.pel, id).is_some() {
            return dup(&consumers.entries[i].0);
        }
        i += 1;
    }
    Vec::new()
}

/// What an extended XPENDING asks for.
#[verifier::ext_equal]
pub struct PendingQuery {
    pub min_idle: i64,
    pub start: StreamId,
    pub end: StreamId,
    pub count: i64,
    pub consumer: Option<Seq<u8>>,
}

/// A bound as an ID.
pub open spec fn bound_id(b: Bound) -> StreamId {
    match b {
        Bound::Min => zero_id(),
        Bound::Max => max_id(),
        Bound::Inclusive(id) => id,
    }
}

/// A bound as an ID.
fn id_of_bound(b: Bound) -> (r: StreamId)
    ensures
        r == bound_id(b),
{
    match b {
        Bound::Min => StreamId::zero(),
        Bound::Max => StreamId::maximum(),
        Bound::Inclusive(id) => id,
    }
}

/// The arguments of an extended XPENDING from position `i` on.
pub open spec fn pending_range(argv: Seq<Seq<u8>>, i: int, min_idle: i64) -> Result<
    PendingQuery,
    ErrV,
> {
    if i + 3 > argv.len() {
        Err(syntax("syntax error"@))
    } else {
        match range_bound(argv[i], BoundSide::Start) {
            Err(e) => Err(e),
            Ok(start) => match range_bound(argv[i + 1], BoundSide::End) {
                Err(e) => Err(e),
                Ok(end) => match strict_i64(argv[i + 2]) {
                    Err(e) => Err(e),
                    Ok(n) => if i + 4 < argv.len() {
                        Err(syntax("syntax error"@))
                    } else {
                        Ok(
                            PendingQuery {
                                min_idle,
                                start: bound_id(start),
                                end: bound_id(end),
                                count: n,
                                consumer: if i + 3 < argv.len() {
                                    Some(argv[i + 3])
                                } else {
                                    None
                                },
                            },
                        )
                    },
                },
            },
        }
    }
}

/// The arguments of an extended XPENDING.
pub open spec fn pending_query(argv: Seq<Seq<u8>>) -> Result<PendingQuery, ErrV> {
    if is_word(argv[3], "IDLE"@) {
        match strict_i64(argv[4]) {
            Err(e) => Err(e),
            Ok(n) => pending_range(
                argv,
                5,
                if n < 0 {
                    0
                } else {
                    n
                },
            ),
        }
    } else {
        pending_range(argv, 3, 0)
    }
}

/// Parses the arguments of an extended XPENDING.
fn parse_pending_query(argv: &Vec<Vec<u8>>) -> (r: Result<
    (i64, StreamId, StreamId, i64, Option<Vec<u8>>),
    RedisError,
>)
    requires
        argv@.len() >= 6,
    ensures
        match r {
            Ok((min_idle, start, end, count, consumer)) => pending_query(views(argv@)) == Ok::<
                _,
                ErrV,
            >(
                (PendingQuery {
                    min_idle,
                    start,
                    end,
                    count,
                    consumer: opt_view(consumer),
                }),
            ),
            Err(e) => pending_query(views(argv@)) == Err::<PendingQuery, _>(e@),
        },
{
    let argc: usize = argv.len();
    let mut i: usize = 3;
    let mut min_idle: i64 = 0;
    if word(&argv[3], "IDLE") {
        match parse_strict_i64(&argv[4]) {
            Err(e) => return Err(e),
            Ok(n) => {
                if n >= 0 {
                    min_idle = n;
                }
            },
        }
        i = 5;
    }
    if argc - i < 3 {
        return Err(RedisError::syntax("syntax error"));
    }
    let start: Bound = match parse_range_bound(&argv[i], BoundSide::Start) {
        Err(e) => return Err(e),
        Ok(b) => b,
    };
    let end: Bound = match parse_range_bound(&argv[i + 1], BoundSide::End) {
        Err(e) => return Err(e),
        Ok(b) => b,
    };
    let count: i64 = match parse_strict_i64(&argv[i + 2]) {
        Err(e) => return Err(e),
        Ok(n) => n,
    };
    if argc - i > 4 {
        return Err(RedisError::syntax("syntax error"));
    }
    let consumer: Option<Vec<u8>> = if argc - i > 3 {
        Some(dup(&argv[i + 3]))
    } else {
        None
    };
    Ok((min_idle, id_of_bound(start), id_of_bound(end), count, consumer))
}

/// Whether a pending entry is asked for.
pub open spec fn asked(p: PelEntry, q: PendingQuery, now: i64) -> bool {
    id_le(q.start, p.entry_id) && id_le(p.entry_id, q.end) && idle_of(now, p) >= q.min_idle
}

/// The pending entries that are asked for: up to COUNT of them, but always the
/// first.
pub open spec fn asked_entries(pel: Seq<PelEntry>, q: PendingQuery, now: i64) -> Seq<PelEntry> {
    let all = pel.filter(|p: PelEntry| asked(p, q, now));
    let most = if q.count < 1 {
        1int
    } else {
        q.count as int
    };
    if all.len() <= most {
        all
    } else {
        all.take(most)
    }
}

/// Pending entries with their owners, idle times and delivery counts.
pub open spec fn asked_toks(g: GroupV, ps: Seq<PelEntry>, q: PendingQuery, now: i64) -> Seq<Tok>
    decreases ps.len(),
{
    if ps.len() == 0 {
        Seq::empty()
    } else {
        let p = ps.last();
        asked_toks(g, ps.drop_last(), q, now) + seq![
            Tok::Array(4),
            Tok::Bulk(id_text(p.entry_id)),
            Tok::Bulk(
                match q.consumer {
                    Some(n) => n,
                    None => owner_in(g.consumers, keys_of(g.consumers), p.entry_id),
                },
            ),
            Tok::Int(idle_of(now, p) as int),
            Tok::Int(p.delivery_count as i64 as int),
        ]
    }
}

/// How an extended XPENDING is answered.
pub open spec fn pending_reply(g: GroupV, q: PendingQuery, now: i64) -> Seq<Tok> {
    if q.consumer matches Some(n) && !g.consumers.contains_key(n) {
        seq![Tok::Array(0)]
    } else {
        let pel = match q.consumer {
            Some(n) => g.consumers[n].pel,
            None => g.pel,
        };
        let ps = asked_entries(pel, q, now);
        seq![Tok::Array(ps.len())] + asked_toks(g, ps, q, now)
    }
}

/// What a filter keeps of the front of a list is the front of what it keeps.
proof fn lemma_filter_front<A>(s: Seq<A>, p: spec_fn(A) -> bool, n: int)
    requires
        0 <= n <= s.len(),
    ensures
        s.take(n).filter(p).len() <= s.filter(p).len(),
        s.filter(p).take(s.take(n).filter(p).len() as int) == s.take(n).filter(p),
    decreases s.len() - n,
{
    if n == s.len() {
        assert(s.take(n) =~= s);
        assert(s.filter(p).take(s.filter(p).len() as int) =~= s.filter(p));
    } else {
        lemma_filter_front(s, p, n + 1);
        lemma_filter_step(s, p, n);
        let a = s.take(n).filter(p);
        let b = s.take(n + 1).filter(p);
        assert(b.take(a.len() as int) =~= a);
        assert(s.filter(p).take(b.len() as int).take(a.len() as int) =~= s.filter(p).take(
            a.len() as int,
        ));
    }
}

/// Adds the pending entries that are asked for to a reply. Gives their number.
fn put_asked(
    out: &mut Vec<Reply>,
    g: &ConsumerGroup,
    pel: &Vec<PelEntry>,
    min_idle: i64,
    start: StreamId,
    end: StreamId,
    count: i64,
    consumer: &Option<Vec<u8>>,
    now: i64,
) -> (r: usize)
    requires
        g.wf(),
    ensures
        ({
            let q = PendingQuery {
                min_idle,
                start,
                end,
                count,
                consumer: opt_view(*consumer),
            };
            let ps = asked_entries(pel@, q, now);
            &&& r == ps.len()
            &&& toks(final(out)@) == toks(old(out)@) + asked_toks(g@, ps, q, now)
        }),
{
    let ghost first = toks(out@);
    let ghost q = PendingQuery {
        min_idle,
        start,
        end,
        count,
        consumer: opt_view(*consumer),
    };
    let ghost p = |x: PelEntry| asked(x, q, now);
    let most: u64 = if count < 1 {
        1
    } else {
        count as u64
    };
    let mut n: usize = 0;
    let mut i: usize = 0;
    proof {
        reveal(Seq::filter);
        assert(pel@.take(0) =~= Seq::empty());
        assert(first =~= first + asked_toks(g@, pel@.take(0).filter(p), q, now));
    }
    while i < pel.len()
        invariant_except_break
            n < most,
        invariant
            g.wf(),
            q == (PendingQuery {
                min_idle,
                start,
                end,
                count,
                consumer: opt_view(*consumer),
            }),
            p == (|x: PelEntry| asked(x, q, now)),
            n <= i <= pel@.len(),
            n <= most,
            n == pel@.take(i as int).filter(p).len(),
            toks(out@) == first + asked_toks(g@, pel@.take(i as int).filter(p), q, now),
        ensures
            i == pel@.len() || n == most,
        decreases pel@.len() - i,
    {
        let e: PelEntry = pel[i];
        let idle: i64 = time_since(now, e.delivery_time_ms);
        let idle: i64 = if idle < 0 { 0 } else { idle };
        proof {
            lemma_filter_step(pel@, p, i as int);
        }
        if !e.entry_id.less(start) && !end.less(e.entry_id) && idle >= min_idle {
            let ghost before = toks(out@);
            out.push(Reply::Array(4));
            out.push(Reply::Bulk(e.entry_id.to_display_bytes()));
            let owner: Vec<u8> = match consumer {
                Some(name) => dup(name),
                None => owner_of(&g.consumers, e.entry_id),
            };
            out.push(Reply::Bulk(owner));
            out.push(Reply::Int(idle));
            out.push(Reply::Int(e.delivery_count as i64));
            proof {
                let now_kept = pel@.take(i + 1).filter(p);
                assert(now_kept.drop_last() =~= pel@.take(i as int).filter(p));
                assert(toks(out@) =~= first + asked_toks(g@, now_kept, q, now));
            }
            n += 1;
            i += 1;
            if n as u64 >= most {
                break;
            }
        } else {
            i += 1;
        }
    }
    proof {
        lemma_filter_front(pel@, p, i as int);
        assert(pel@.filter(p).take(n as int) =~= pel@.take(i as int).filter(p));
        if i == pel@.len() {
            assert(pel@.take(i as int) =~= pel@);
        }
        assert(asked_entries(pel@, q, now) =~= pel@.take(i as int).filter(p));
    }
    n
}

/// How XPENDING ends.
pub open spec fn xpending_outcome(c: CtxV) -> Outcome {
    let argv = c.client.argv;
    if argv.len() < 3 {
        fails(c, wrong_args("xpending"@))
    } else if argv.len() != 3 && !(6 <= argv.len() <= 9) {
        fails(c, syntax("syntax error"@))
    } else {
        match stream_in(c.db, argv[1]) {
            Err(e) => fails(c, e),
            Ok(None) => fails(c, no_group(argv[1], argv[2])),
            Ok(Some(s)) => if !s.groups.contains_key(argv[2]) {
                fails(c, no_group(argv[1], argv[2]))
            } else if argv.len() == 3 {
                replies(c, summary_toks(s.groups[argv[2]]))
            } else {
                match pending_query(argv) {
                    Err(e) => fails(c, e),
                    Ok(q) => replies(c, pending_reply(s.groups[argv[2]], q, clamped(c.now))),
                }
            },
        }
    }
}

/// The answer to an XPENDING about a group.
fn pending_answer(argv: &Vec<Vec<u8>>, g: &ConsumerGroup, now: i64) -> (r: Result<
    Vec<Reply>,
    RedisError,
>)
    requires
        g.wf(),
        argv@.len() == 3 || argv@.len() >= 6,
    ensures
        match r {
            Ok(out) => if argv@.len() == 3 {
                toks(out@) == summary_toks(g@)
            } else {
                pending_query(views(argv@)) matches Ok(q) && toks(out@) == pending_reply(
                    g@,
                    q,
                    now,
                )
            },
            Err(e) => argv@.len() != 3 && pending_query(views(argv@)) == Err::<PendingQuery, _>(e@),
        },
{
    if argv.len() == 3 {
        return Ok(summary(g));
    }
    let (min_idle, start, end, count, consumer): (
        i64,
        StreamId,
        StreamId,
        i64,
        Option<Vec<u8>>,
    ) = match parse_pending_query(argv) {
        Err(e) => return Err(e),
        Ok(q) => q,
    };
    let ghost q = PendingQuery {
        min_idle,
        start,
        end,
        count,
        consumer: opt_view(consumer),
    };
    let mut out: Vec<Reply> = Vec::new();
    let mut body: Vec<Reply> = Vec::new();
    let n: usize = match &consumer {
        None => put_asked(
            &mut body,
            g,
            &g.pel,
            min_idle,
            start,
            end,
            count,
            &consumer,
            now,
        ),
        Some(name) => match g.consumers.get(name) {
            None => {
                out.push(Reply::Array(0));
                assert(toks(out@) =~= seq![Tok::Array(0)]);
                return Ok(out);
            },
            Some(k) => put_asked(
                &mut body,
                g,
                &k.pel,
                min_idle,
                start,
                end,
                count,
                &consumer,
                now,
            ),
        },
    };
    out.push(Reply::Array(n as u128));
    let ghost tail = toks(body@);
    out.append(&mut body);
    assert(toks(out@) =~= pending_reply(g@, q, now));
    Ok(out)
}

/// XPENDING key group [[IDLE ms] start end count [consumer]]
pub fn xpending_command(ctx: &mut CommandContext) -> (r: Result<(), RedisError>)
    requires
        old(ctx).wf(),
    ensures
        final(ctx).wf(),
        done(r, final(ctx)@) == xpending_outcome(old(ctx)@),
{
    let argc: usize = ctx.arg_count();
    if argc < 3 {
        return Err(RedisError::wrong_number_of_args("xpending"));
    }
    if argc != 3 && !(6 <= argc && argc <= 9) {
        return Err(RedisError::syntax("syntax error"));
    }
    let now: i64 = now_ms_clamped(ctx.now_ms);
    let out: Vec<Reply> = match ctx.db.stream_at(&ctx.client.argv[1]) {
        Err(e) => return Err(e),
        Ok(None) => return Err(
            no_such_key_or_group_short(&ctx.client.argv[1], &ctx.client.argv[2]),
        ),
        Ok(Some(s)) => match s.groups.get(&ctx.client.argv[2]) {
            None => return Err(
                no_such_key_or_group_short(&ctx.client.argv[1], &ctx.client.argv[2]),
            ),
            Some(g) => match pending_answer(&ctx.client.argv, g, now) {
                Err(e) => return Err(e),
                Ok(out) => out,
            },
        },
    };
    ctx.reply_all(out);
    Ok(())
}

// ---------------------------------------------------------------------------
// XCLAIM
// ---------------------------------------------------------------------------

/// The options of an XCLAIM.
#[derive(Clone, Copy, PartialEq, Eq, Structural, Debug)]
pub struct ClaimOptions {
    pub idle: Option<i64>,
    pub time: Option<i64>,
    pub retrycount: Option<u64>,
    pub force: bool,
    pub justid: bool,
}

/// Whether an argument is the name of an option of XCLAIM.
pub open spec fn is_claim_option(s: Seq<u8>) -> bool {
    is_word(s, "IDLE"@) || is_word(s, "TIME"@) || is_word(s, "RETRYCOUNT"@) || is_word(
        s,
        "FORCE"@,
    ) || is_word(s, "JUSTID"@) || is_word(s, "LASTID"@)
}

/// Where the IDs of an XCLAIM end.
pub open spec fn claim_ids_end(argv: Seq<Seq<u8>>, i: int) -> int
    decreases argv.len() - i,
{
    if 0 <= i < argv.len() && !is_claim_option(argv[i]) {
        claim_ids_end(argv, i + 1)
    } else {
        i
    }
}

/// The options of an XCLAIM from position `i` on.
pub open spec fn claim_options(argv: Seq<Seq<u8>>, i: int, acc: ClaimOptions) -> Result<
    ClaimOptions,
    ErrV,
>
    decreases argv.len() - i,
{
    if i < 0 || i >= argv.len() {
        Ok(acc)
    } else if is_word(argv[i], "FORCE"@) {
        claim_options(argv, i + 1, ClaimOptions { force: true, ..acc })
    } else if is_word(argv[i], "JUSTID"@) {
        claim_options(argv, i + 1, ClaimOptions { justid: true, ..acc })
    } else if !is_claim_option(argv[i]) || i + 1 >= argv.len() {
        Err(syntax("syntax error"@))
    } else if is_word(argv[i], "LASTID"@) {
        match explicit_id(argv[i + 1]) {
            Err(e) => Err(e),
            Ok(_) => claim_options(argv, i + 2, acc),
        }
    } else {
        match strict_i64(argv[i + 1]) {
            Err(e) => Err(e),
            Ok(n) => if is_word(argv[i], "IDLE"@) {
                claim_options(argv, i + 2, ClaimOptions { idle: Some(n), ..acc })
            } else if is_word(argv[i], "TIME"@) {
                claim_options(argv, i + 2, ClaimOptions { time: Some(n), ..acc })
            } else if n < 0 {
                Err(syntax("RETRYCOUNT must be >= 0"@))
            } else {
                claim_options(argv, i + 2, ClaimOptions { retrycount: Some(n as u64), ..acc })
            },
        }
    }
}

/// No options.
pub open spec fn no_claim_options() -> ClaimOptions {
    ClaimOptions { idle: None, time: None, retrycount: None, force: false, justid: false }
}

/// Whether an argument is the name of an option of XCLAIM.
fn claim_option(s: &[u8]) -> (r: bool)
    ensures
        r == is_claim_option(s@),
{
    word(s, "IDLE") || word(s, "TIME") || word(s, "RETRYCOUNT") || word(s, "FORCE") || word(
        s,
        "JUSTID",
    ) || word(s, "LASTID")
}

/// Parses the options of an XCLAIM from position `start` on.
fn parse_claim_options(argv: &Vec<Vec<u8>>, start: usize) -> (r: Result<ClaimOptions, RedisError>)
    requires
        start <= argv@.len(),
    ensures
        match r {
            Ok(o) => claim_options(views(argv@), start as int, no_claim_options()) == Ok::<
                _,
                ErrV,
            >(o),
            Err(e) => claim_options(views(argv@), start as int, no_claim_options()) == Err::<
                ClaimOptions,
                _,
            >(e@),
        },
{
    let ghost all = views(argv@);
    let ghost whole = claim_options(all, start as int, no_claim_options());
    let mut o = ClaimOptions {
        idle: None,
        time: None,
        retrycount: None,
        force: false,
        justid: false,
    };
    let argc: usize = argv.len();
    let mut i: usize = start;
    while i < argc
        invariant
            argc == argv@.len(),
            all == views(argv@),
            start <= i,
            whole == claim_options(all, start as int, no_claim_options()),
            whole == claim_options(all, i as int, o),
        decreases argc - i,
    {
        if word(&argv[i], "FORCE") {
            o.force = true;
            i = i + 1;
            continue;
        }
        if word(&argv[i], "JUSTID") {
            o.justid = true;
            i = i + 1;
            continue;
        }
        if !claim_option(&argv[i]) || i + 1 >= argc {
            return Err(RedisError::syntax("syntax error"));
        }
        if word(&argv[i], "LASTID") {
            match parse_explicit_id(&argv[i + 1]) {
                Err(e) => return Err(e),
                Ok(_) => {},
            }
        } else {
            match parse_strict_i64(&argv[i + 1]) {
                Err(e) => return Err(e),
                Ok(n) => {
                    if word(&argv[i], "IDLE") {
                        o.idle = Some(n);
                    } else if word(&argv[i], "TIME") {
                        o.time = Some(n);
                    } else {
                        if n < 0 {
                            return Err(RedisError::syntax("RETRYCOUNT must be >= 0"));
                        }
                        o.retrycount = Some(n as u64);
                    }
                },
            }
        }
        i = i + 2;
    }
    Ok(o)
}

/// A claim of pending entries.
#[verifier::ext_equal]
pub struct Claim {
    pub consumer: Seq<u8>,
    pub min_idle: i64,
    pub now: i64,
    pub opts: ClaimOptions,
}

/// The delivery time of claimed entries.
pub open spec fn claim_time(now: i64, o: ClaimOptions) -> i64 {
    match (o.time, o.idle) {
        (Some(t), _) => t,
        (None, Some(i)) => since(now, i),
        (None, None) => now,
    }
}

/// A claim under way.
#[verifier::ext_equal]
pub struct ClaimV {
    pub group: GroupV,
    pub toks: Seq<Tok>,
    pub n: nat,
    pub deleted: Seq<StreamId>,
}

/// A claimed entry as a reply.
pub open spec fn claimed_toks(e: EntryV, justid: bool) -> Seq<Tok> {
    if justid {
        seq![Tok::Bulk(id_text(e.id))]
    } else {
        entry_toks(e)
    }
}

/// The claim after one ID: an entry that is pending long enough (or, with
/// FORCE, any entry of the stream) moves to the consumer; a pending ID whose
/// entry is gone is dropped.
pub open spec fn claims_one(st: ClaimV, entries: Seq<EntryV>, id: StreamId, q: Claim) -> ClaimV {
    let pending = pel_has(st.group.pel, id);
    let present = has_entry(entries, id);
    let p = pel_at(st.group.pel, id);
    if !pending && !(q.opts.force && present) {
        st
    } else if pending && since(q.now, p.delivery_time_ms) < q.min_idle {
        st
    } else if !present {
        ClaimV { group: pel_removed(st.group, id), ..st }
    } else {
        let before = if pending {
            p.delivery_count
        } else {
            0
        };
        let count = match q.opts.retrycount {
            Some(n) => n,
            None => if q.opts.justid {
                before
            } else {
                raised(before)
            },
        };
        ClaimV {
            group: pel_reassigned(
                st.group,
                PelEntry {
                    entry_id: id,
                    delivery_time_ms: claim_time(q.now, q.opts),
                    delivery_count: count,
                },
                q.consumer,
            ),
            toks: st.toks + claimed_toks(entries[entry_rank(entries, id)], q.opts.justid),
            n: st.n + 1,
            ..st
        }
    }
}

/// The claim after some IDs.
pub open spec fn claims_all(st: ClaimV, entries: Seq<EntryV>, ids: Seq<StreamId>, q: Claim) -> ClaimV
    decreases ids.len(),
{
    if ids.len() == 0 {
        st
    } else {
        claims_one(claims_all(st, entries, ids.drop_last(), q), entries, ids.last(), q)
    }
}

/// Adds a claimed entry to a reply.
fn put_claimed(out: &mut Vec<Reply>, e: &StreamEntry, justid: bool)
    ensures
        toks(final(out)@) == toks(old(out)@) + claimed_toks(e@, justid),
{
    let ghost first = toks(out@);
    if justid {
        out.push(Reply::Bulk(e.id.to_display_bytes()));
        assert(toks(out@) =~= first + claimed_toks(e@, justid));
    } else {
        put_entry(out, e);
    }
}

/// Whether a stream has an entry, read off its list of entries.
fn entry_at(entries: &Vec<StreamEntry>, id: StreamId) -> (r: Option<usize>)
    requires
        crate::stream_data::entries_ascend(crate::stream_data::entry_views(entries@)),
    ensures
        match r {
            Some(i) => has_entry(crate::stream_data::entry_views(entries@), id) && i == entry_rank(
                crate::stream_data::entry_views(entries@),
                id,
            ) && i < entries@.len(),
            None => !has_entry(crate::stream_data::entry_views(entries@), id),
        },
{
    let ghost s = crate::stream_data::entry_views(entries@);
    let mut i: usize = 0;
    proof {
        crate::stream_data::lemma_entry_rank(s, id);
        assert(s.skip(0) =~= s);
    }
    while i < entries.len() && entries[i].id.less(id)
        invariant
            s == crate::stream_data::entry_views(entries@),
            i <= entries@.len(),
            entry_rank(s, id) == i + entry_rank(s.skip(i as int), id),
        decreases entries@.len() - i,
    {
        assert(s.skip(i as int).skip(1) =~= s.skip(i + 1));
        assert(s[i as int].id == entries@[i as int].id);
        i += 1;
    }
    if i < entries.len() {
        assert(s[i as int].id == entries@[i as int].id);
        if entries[i].id == id {
            return Some(i);
        }
    }
    None
}

/// Claims one ID. Tells whether it was claimed.
fn claim_one(
    g: &mut ConsumerGroup,
    entries: &Vec<StreamEntry>,
    id: StreamId,
    consumer: &[u8],
    min_idle: i64,
    now: i64,
    o: ClaimOptions,
    out: &mut Vec<Reply>,
) -> (r: bool)
    requires
        old(g).wf(),
        crate::stream_data::entries_ascend(crate::stream_data::entry_views(entries@)),
    ensures
        final(g).wf(),
        forall|st: ClaimV|
            #![trigger claims_one(st, crate::stream_data::entry_views(entries@), id, Claim { consumer: consumer@, min_idle, now, opts: o })]
            st.group == old(g)@ && st.toks == toks(old(out)@) ==> claims_one(
                st,
                crate::stream_data::entry_views(entries@),
                id,
                Claim { consumer: consumer@, min_idle, now, opts: o },
            ) == (ClaimV {
                group: final(g)@,
                toks: toks(final(out)@),
                n: st.n + if r {
                    1nat
                } else {
                    0nat
                },
                ..st
            }),
{
    let at: Option<usize> = entry_at(entries, id);
    let mut before: u64 = 0;
    let pending: bool = match pel_find(&g.pel, id) {
        Some(i) => {
            before = g.pel[i].delivery_count;
            if time_since(now, g.pel[i].delivery_time_ms) < min_idle {
                return false;
            }
            true
        },
        None => false,
    };
    match at {
        None => {
            if pending {
                let _was: bool = pel_remove(g, id);
            }
            false
        },
        Some(k) => {
            if !pending && !o.force {
                return false;
            }
            let count: u64 = match o.retrycount {
                Some(n) => n,
                None => {
                    if o.justid {
                        before
                    } else {
                        before.saturating_add(1)
                    }
                },
            };
            let time: i64 = match (o.time, o.idle) {
                (Some(t), _) => t,
                (None, Some(i)) => time_since(now, i),
                (None, None) => now,
            };
            pel_reassign(g, id, consumer, time, count);
            put_claimed(out, &entries[k], o.justid);
            true
        },
    }
}

/// Claims some IDs. Gives how many were claimed.
fn claim_all(
    g: &mut ConsumerGroup,
    entries: &Vec<StreamEntry>,
    ids: &Vec<StreamId>,
    consumer: &[u8],
    min_idle: i64,
    now: i64,
    o: ClaimOptions,
    out: &mut Vec<Reply>,
) -> (r: usize)
    requires
        old(g).wf(),
        crate::stream_data::entries_ascend(crate::stream_data::entry_views(entries@)),
    ensures
        final(g).wf(),
        claims_all(
            (ClaimV {
                group: old(g)@,
                toks: toks(old(out)@),
                n: 0,
                deleted: Seq::empty(),
            }),
            crate::stream_data::entry_views(entries@),
            ids@,
            (Claim { consumer: consumer@, min_idle, now, opts: o }),
        ) == (ClaimV {
            group: final(g)@,
            toks: toks(final(out)@),
            n: r as nat,
            deleted: Seq::empty(),
        }),
{
    let ghost init = ClaimV {
        group: g@,
        toks: toks(out@),
        n: 0,
        deleted: Seq::empty(),
    };
    let ghost es = crate::stream_data::entry_views(entries@);
    let ghost q = Claim { consumer: consumer@, min_idle, now, opts: o };
    let mut n: usize = 0;
    let mut i: usize = 0;
    while i < ids.len()
        invariant
            g.wf(),
            es == crate::stream_data::entry_views(entries@),
            crate::stream_data::entries_ascend(es),
            q == (Claim { consumer: consumer@, min_idle, now, opts: o }),
            n <= i <= ids@.len(),
            claims_all(init, es, ids@.take(i as int), q) == (ClaimV {
                group: g@,
                toks: toks(out@),
                n: n as nat,
                deleted: Seq::empty(),
            }),
        decreases ids@.len() - i,
    {
        let ghost st = claims_all(init, es, ids@.take(i as int), q);
        proof {
            assert(ids@.take(i + 1).drop_last() =~= ids@.take(i as int));
        }
        let hit: bool = claim_one(g, entries, ids[i], consumer, min_idle, now, o, out);
        assert(claims_one(st, es, ids@[i as int], q).group == g@);
        if hit {
            n += 1;
        }
        i += 1;
    }
    assert(ids@.take(i as int) =~= ids@);
    n
}

/// How XCLAIM ends, once its arguments are known.
pub open spec fn xclaim_on(c: CtxV, ids: Seq<StreamId>, min_idle: i64, o: ClaimOptions) -> Outcome {
    let argv = c.client.argv;
    match stream_in(c.db, argv[1]) {
        Err(e) => fails(c, e),
        Ok(None) => fails(c, no_group(argv[1], argv[2])),
        Ok(Some(s)) => if !s.groups.contains_key(argv[2]) {
            fails(c, no_group(argv[1], argv[2]))
        } else {
            let now = clamped(c.now);
            let g = s.groups[argv[2]];
            let q = Claim { consumer: argv[3], min_idle, now, opts: o };
            let seen = activated(touched(g, argv[3], now), argv[3], now);
            let st = claims_all(
                ClaimV { group: seen, toks: Seq::empty(), n: 0, deleted: Seq::empty() },
                s.entries,
                ids,
                q,
            );
            let d = db_update(c.db, argv[1], ObjV::Stream(with_group(s, argv[2], st.group)));
            replies(
                raises_if(
                    !g.consumers.contains_key(argv[3]),
                    with_db(c, d),
                    EventClass::Stream,
                    "xgroup-createconsumer"@,
                    argv[1],
                ),
                seq![Tok::Array(st.n)] + st.toks,
            )
        },
    }
}

/// A duration that is not negative.
pub open spec fn not_negative(n: i64) -> i64 {
    if n < 0 {
        0
    } else {
        n
    }
}

/// How XCLAIM ends.
pub open spec fn xclaim_outcome(c: CtxV) -> Outcome {
    let argv = c.client.argv;
    if argv.len() < 6 {
        fails(c, wrong_args("xclaim"@))
    } else {
        match strict_i64(argv[4]) {
            Err(e) => fails(c, e),
            Ok(m) => {
                let end = claim_ids_end(argv, 5);
                match id_list(argv.subrange(5, end)) {
                    Err(e) => fails(c, e),
                    Ok(ids) => if ids.len() == 0 {
                        fails(c, syntax("syntax error"@))
                    } else {
                        match claim_options(argv, end, no_claim_options()) {
                            Err(e) => fails(c, e),
                            Ok(o) => xclaim_on(c, ids, not_negative(m), o),
                        }
                    },
                }
            },
        }
    }
}

/// Copies some arguments.
fn copy_args(argv: &Vec<Vec<u8>>, from: usize, to: usize) -> (r: Vec<Vec<u8>>)
    requires
        from <= to <= argv@.len(),
    ensures
        views(r@) == views(argv@).subrange(from as int, to as int),
{
    let mut r: Vec<Vec<u8>> = Vec::new();
    let mut i: usize = from;
    while i < to
        invariant
            from <= i <= to <= argv@.len(),
            views(r@) =~= views(argv@).subrange(from as int, i as int),
        decreases to - i,
    {
        r.push(dup(&argv[i]));
        i += 1;
    }
    r
}

/// Claims IDs in the stream of a key. Gives the number and whether the consumer
/// was created.
fn claim_in(
    db: &mut RedisDb,
    key: &[u8],
    group: &[u8],
    consumer: &[u8],
    ids: &Vec<StreamId>,
    min_idle: i64,
    now: i64,
    o: ClaimOptions,
    out: &mut Vec<Reply>,
) -> (r: Result<(usize, bool), RedisError>)
    requires
        old(db).wf(),
        old(out)@.len() == 0,
    ensures
        final(db).wf(),
        ({
            let d = old(db)@;
            match r {
                Err(e) => final(db)@ == d && (match stream_in(d, key@) {
                    Err(f) => f == e@,
                    Ok(None) => e@ == no_group(key@, group@),
                    Ok(Some(s)) => !s.groups.contains_key(group@) && e@ == no_group(key@, group@),
                }),
                Ok((n, created)) => {
                    &&& stream_in(d, key@) matches Ok(Some(s))
                    &&& s.groups.contains_key(group@)
                    &&& {
                        let g = s.groups[group@];
                        let q = Claim { consumer: consumer@, min_idle, now, opts: o };
                        let seen = activated(touched(g, consumer@, now), consumer@, now);
                        let st = claims_all(
                            ClaimV { group: seen, toks: Seq::empty(), n: 0, deleted: Seq::empty() },
                            s.entries,
                            ids@,
                            q,
                        );
                        &&& created == !g.consumers.contains_key(consumer@)
                        &&& n == st.n
                        &&& toks(final(out)@) == st.toks
                        &&& final(db)@ == db_update(
                            d,
                            key@,
                            ObjV::Stream(with_group(s, group@, st.group)),
                        )
                    }
                },
            }
        }),
{
    let ghost d = db@;
    assert(toks(out@) =~= Seq::empty());
    match db.stream_for_write(key) {
        Err(e) => Err(e),
        Ok(None) => Err(no_such_key_or_group_short(key, group)),
        Ok(Some(s)) => {
            let ghost sv = s@;
            assert(d =~= db_update(d, key@, ObjV::Stream(sv)));
            match s.groups.get_mut(group) {
                None => Err(no_such_key_or_group_short(key, group)),
                Some(g) => {
                    let created: bool = touch_or_create_consumer(g, consumer, now);
                    activate(g, consumer, now);
                    let n: usize = claim_all(g, &s.entries, ids, consumer, min_idle, now, o, out);
                    Ok((n, created))
                },
            }
        },
    }
}

/// XCLAIM key group consumer min-idle-time id [id ...]
/// [IDLE ms] [TIME unix-ms] [RETRYCOUNT n] [FORCE] [JUSTID] [LASTID id]
pub fn xclaim_command(ctx: &mut CommandContext) -> (r: Result<(), RedisError>)
    requires
        old(ctx).wf(),
    ensures
        final(ctx).wf(),
        done(r, final(ctx)@) == xclaim_outcome(old(ctx)@),
{
    let ghost c = ctx@;
    let argc: usize = ctx.arg_count();
    if argc < 6 {
        return Err(RedisError::wrong_number_of_args("xclaim"));
    }
    let key: Vec<u8> = ctx.arg_owned(1);
    let group: Vec<u8> = ctx.arg_owned(2);
    let consumer: Vec<u8> = ctx.arg_owned(3);
    let min_idle: i64 = match parse_strict_i64(&ctx.client.argv[4]) {
        Err(e) => return Err(e),
        Ok(n) => if n < 0 { 0 } else { n },
    };
    let mut end: usize = 5;
    while end < argc && !claim_option(&ctx.client.argv[end])
        invariant
            5 <= end <= argc == ctx@.client.argv.len(),
            ctx@ == c,
            claim_ids_end(c.client.argv, 5) == claim_ids_end(c.client.argv, end as int),
        decreases argc - end,
    {
        end += 1;
    }
    let id_args: Vec<Vec<u8>> = copy_args(&ctx.client.argv, 5, end);
    assert(views(id_args@).skip(0) =~= views(id_args@));
    let ids: Vec<StreamId> = match parse_ids(&id_args, 0) {
        Err(e) => return Err(e),
        Ok(ids) => ids,
    };
    if ids.len() == 0 {
        return Err(RedisError::syntax("syntax error"));
    }
    let o: ClaimOptions = match parse_claim_options(&ctx.client.argv, end) {
        Err(e) => return Err(e),
        Ok(o) => o,
    };
    let now: i64 = now_ms_clamped(ctx.now_ms);
    let mut out: Vec<Reply> = Vec::new();
    let (n, created): (usize, bool) = match claim_in(
        &mut ctx.db,
        &key,
        &group,
        &consumer,
        &ids,
        min_idle,
        now,
        o,
        &mut out,
    ) {
        Err(e) => return Err(e),
        Ok(p) => p,
    };
    if created {
        ctx.notify_keyspace_event(EventClass::Stream, "xgroup-createconsumer", &key);
    }
    let mut whole: Vec<Reply> = Vec::new();
    whole.push(Reply::Array(n as u128));
    let ghost tail = toks(out@);
    whole.append(&mut out);
    assert(toks(whole@) =~= seq![Tok::Array(n as nat)] + tail);
    ctx.reply_all(whole);
    Ok(())
}

// ---------------------------------------------------------------------------
// XAUTOCLAIM
// ---------------------------------------------------------------------------

/// The claim after one candidate: an entry that is idle long enough moves to
/// the consumer; one that the stream has no longer is dropped and reported.
pub open spec fn autoclaims_one(
    st: ClaimV,
    entries: Seq<EntryV>,
    id: StreamId,
    q: Claim,
) -> ClaimV {
    let p = pel_at(st.group.pel, id);
    if !pel_has(st.group.pel, id) || since(q.now, p.delivery_time_ms) < q.min_idle {
        st
    } else if !has_entry(entries, id) {
        ClaimV { group: pel_removed(st.group, id), deleted: st.deleted.push(id), ..st }
    } else {
        ClaimV {
            group: pel_reassigned(
                st.group,
                PelEntry {
                    entry_id: id,
                    delivery_time_ms: q.now,
                    delivery_count: if q.opts.justid {
                        p.delivery_count
                    } else {
                        raised(p.delivery_count)
                    },
                },
                q.consumer,
            ),
            toks: st.toks + claimed_toks(entries[entry_rank(entries, id)], q.opts.justid),
            n: st.n + 1,
            ..st
        }
    }
}

/// The claim after candidates, up to a limit, and where the next one would go
/// on.
pub open spec fn autoclaims(
    st: ClaimV,
    entries: Seq<EntryV>,
    cands: Seq<PelEntry>,
    limit: int,
    q: Claim,
) -> (ClaimV, StreamId)
    decreases cands.len(),
{
    if cands.len() == 0 {
        (st, zero_id())
    } else if st.n + st.deleted.len() >= limit {
        (st, cands[0].entry_id)
    } else {
        autoclaims(
            autoclaims_one(st, entries, cands[0].entry_id, q),
            entries,
            cands.skip(1),
            limit,
            q,
        )
    }
}

/// Where an XAUTOCLAIM starts.
pub open spec fn autoclaim_start(s: Seq<u8>) -> Result<StreamId, ErrV> {
    if s == text("-"@) {
        Ok(zero_id())
    } else if s == text("+"@) {
        Ok(max_id())
    } else {
        explicit_id(s)
    }
}

/// The options of an XAUTOCLAIM from position `i` on: the limit and JUSTID.
pub open spec fn autoclaim_options(argv: Seq<Seq<u8>>, i: int, acc: (u64, bool)) -> Result<
    (u64, bool),
    ErrV,
>
    decreases argv.len() - i,
{
    if i < 0 || i >= argv.len() {
        Ok(acc)
    } else if is_word(argv[i], "COUNT"@) {
        if i + 1 >= argv.len() {
            Err(syntax("syntax error"@))
        } else {
            match strict_i64(argv[i + 1]) {
                Err(e) => Err(e),
                Ok(n) => if n <= 0 || n > i64::MAX / 16 {
                    Err(runtime("ERR COUNT must be > 0"@))
                } else {
                    autoclaim_options(argv, i + 2, (n as u64, acc.1))
                },
            }
        }
    } else if is_word(argv[i], "JUSTID"@) {
        autoclaim_options(argv, i + 1, (acc.0, true))
    } else {
        Err(syntax("syntax error"@))
    }
}

/// Parses the options of an XAUTOCLAIM.
fn parse_autoclaim_options(argv: &Vec<Vec<u8>>) -> (r: Result<(u64, bool), RedisError>)
    requires
        argv@.len() >= 6,
    ensures
        match r {
            Ok(o) => autoclaim_options(views(argv@), 6, (100, false)) == Ok::<_, ErrV>(o),
            Err(e) => autoclaim_options(views(argv@), 6, (100, false)) == Err::<(u64, bool), _>(
                e@,
            ),
        },
{
    let ghost all = views(argv@);
    let ghost whole = autoclaim_options(all, 6, (100, false));
    let mut o: (u64, bool) = (100, false);
    let argc: usize = argv.len();
    let mut i: usize = 6;
    while i < argc
        invariant
            argc == argv@.len(),
            all == views(argv@),
            6 <= i,
            whole == autoclaim_options(all, 6, (100, false)),
            whole == autoclaim_options(all, i as int, o),
        decreases argc - i,
    {
        if word(&argv[i], "COUNT") {
            if i + 1 >= argc {
                return Err(RedisError::syntax("syntax error"));
            }
            match parse_strict_i64(&argv[i + 1]) {
                Err(e) => return Err(e),
                Ok(n) => {
                    if n <= 0 || n > i64::MAX / 16 {
                        return Err(RedisError::runtime("ERR COUNT must be > 0"));
                    }
                    o = (n as u64, o.1);
                },
            }
            i = i + 2;
        } else if word(&argv[i], "JUSTID") {
            o = (o.0, true);
            i = i + 1;
        } else {
            return Err(RedisError::syntax("syntax error"));
        }
    }
    Ok(o)
}

/// Bulk strings of IDs.
pub open spec fn id_bulks(ids: Seq<StreamId>) -> Seq<Tok> {
    ids.map_values(|id: StreamId| Tok::Bulk(id_text(id)))
}

/// The reply to an XAUTOCLAIM.
pub open spec fn autoclaim_reply(st: ClaimV, cursor: StreamId) -> Seq<Tok> {
    seq![Tok::Array(3), Tok::Bulk(id_text(cursor)), Tok::Array(st.n)] + st.toks + seq![
        Tok::Array(st.deleted.len()),
    ] + id_bulks(st.deleted)
}

/// How XAUTOCLAIM ends, once its arguments are known.
pub open spec fn xautoclaim_on(
    c: CtxV,
    min_idle: i64,
    start: StreamId,
    limit: u64,
    justid: bool,
) -> Outcome {
    let argv = c.client.argv;
    match stream_in(c.db, argv[1]) {
        Err(e) => fails(c, e),
        Ok(None) => fails(c, no_group(argv[1], argv[2])),
        Ok(Some(s)) => if !s.groups.contains_key(argv[2]) {
            fails(c, no_group(argv[1], argv[2]))
        } else {
            let now = clamped(c.now);
            let g = s.groups[argv[2]];
            let q = Claim {
                consumer: argv[3],
                min_idle,
                now,
                opts: ClaimOptions { justid, ..no_claim_options() },
            };
            let seen = activated(touched(g, argv[3], now), argv[3], now);
            let (st, cursor) = autoclaims(
                ClaimV { group: seen, toks: Seq::empty(), n: 0, deleted: Seq::empty() },
                s.entries,
                g.pel.skip(pel_rank(g.pel, start)),
                limit as int,
                q,
            );
            let d = db_update(c.db, argv[1], ObjV::Stream(with_group(s, argv[2], st.group)));
            replies(
                raises_if(
                    !g.consumers.contains_key(argv[3]),
                    with_db(c, d),
                    EventClass::Stream,
                    "xgroup-createconsumer"@,
                    argv[1],
                ),
                autoclaim_reply(st, cursor),
            )
        },
    }
}

/// How XAUTOCLAIM ends.
pub open spec fn xautoclaim_outcome(c: CtxV) -> Outcome {
    let argv = c.client.argv;
    if argv.len() < 6 {
        fails(c, wrong_args("xautoclaim"@))
    } else {
        match strict_i64(argv[4]) {
            Err(e) => fails(c, e),
            Ok(m) => match autoclaim_start(argv[5]) {
                Err(e) => fails(c, e),
                Ok(start) => match autoclaim_options(argv, 6, (100, false)) {
                    Err(e) => fails(c, e),
                    Ok((limit, justid)) => xautoclaim_on(c, not_negative(m), start, limit, justid),
                },
            },
        }
    }
}

/// Claims one candidate. Gives 1 where it was claimed, 2 where its entry was
/// gone, and 0 otherwise.
fn autoclaim_one(
    g: &mut ConsumerGroup,
    entries: &Vec<StreamEntry>,
    id: StreamId,
    consumer: &[u8],
    min_idle: i64,
    now: i64,
    justid: bool,
    out: &mut Vec<Reply>,
) -> (r: u8)
    requires
        old(g).wf(),
        crate::stream_data::entries_ascend(crate::stream_data::entry_views(entries@)),
    ensures
        final(g).wf(),
        forall|st: ClaimV, q: Claim|
            #![trigger autoclaims_one(st, crate::stream_data::entry_views(entries@), id, q)]
            st.group == old(g)@ && st.toks == toks(old(out)@) && q.consumer == consumer@
                && q.min_idle == min_idle && q.now == now && q.opts.justid == justid
                ==> autoclaims_one(st, crate::stream_data::entry_views(entries@), id, q) == (ClaimV {
                group: final(g)@,
                toks: toks(final(out)@),
                n: st.n + if r == 1 {
                    1nat
                } else {
                    0nat
                },
                deleted: if r == 2 {
                    st.deleted.push(id)
                } else {
                    st.deleted
                },
            }),
{
    match pel_find(&g.pel, id) {
        None => 0,
        Some(i) => {
            let p: PelEntry = g.pel[i];
            if time_since(now, p.delivery_time_ms) < min_idle {
                return 0;
            }
            match entry_at(entries, id) {
                None => {
                    let _was: bool = pel_remove(g, id);
                    2
                },
                Some(k) => {
                    let count: u64 = if justid {
                        p.delivery_count
                    } else {
                        p.delivery_count.saturating_add(1)
                    };
                    pel_reassign(g, id, consumer, now, count);
                    put_claimed(out, &entries[k], justid);
                    1
                },
            }
        },
    }
}

/// Claims candidates up to a limit. Gives the number of claimed entries, the
/// IDs whose entries were gone, and where to go on.
fn autoclaim_all(
    g: &mut ConsumerGroup,
    entries: &Vec<StreamEntry>,
    cands: &Vec<PelEntry>,
    consumer: &[u8],
    min_idle: i64,
    now: i64,
    limit: u64,
    justid: bool,
    out: &mut Vec<Reply>,
) -> (r: (usize, Vec<StreamId>, StreamId))
    requires
        old(g).wf(),
        crate::stream_data::entries_ascend(crate::stream_data::entry_views(entries@)),
    ensures
        final(g).wf(),
        autoclaims(
            (ClaimV {
                group: old(g)@,
                toks: toks(old(out)@),
                n: 0,
                deleted: Seq::empty(),
            }),
            crate::stream_data::entry_views(entries@),
            cands@,
            limit as int,
            (Claim {
                consumer: consumer@,
                min_idle,
                now,
                opts: ClaimOptions { justid, ..no_claim_options() },
            }),
        ) == (
            (ClaimV {
                group: final(g)@,
                toks: toks(final(out)@),
                n: r.0 as nat,
                deleted: r.1@,
            }),
            r.2,
        ),
{
    let ghost init = ClaimV {
        group: g@,
        toks: toks(out@),
        n: 0,
        deleted: Seq::empty(),
    };
    let ghost es = crate::stream_data::entry_views(entries@);
    let ghost q = Claim {
        consumer: consumer@,
        min_idle,
        now,
        opts: ClaimOptions { justid, ..no_claim_options() },
    };
    let ghost whole = autoclaims(init, es, cands@, limit as int, q);
    let mut n: usize = 0;
    let mut gone: Vec<StreamId> = Vec::new();
    let mut i: usize = 0;
    proof {
        assert(cands@.skip(0) =~= cands@);
        assert(gone@ =~= Seq::empty());
    }
    while i < cands.len()
        invariant
            g.wf(),
            es == crate::stream_data::entry_views(entries@),
            crate::stream_data::entries_ascend(es),
            q == (Claim {
                consumer: consumer@,
                min_idle,
                now,
                opts: ClaimOptions { justid, ..no_claim_options() },
            }),
            init == (ClaimV {
                group: old(g)@,
                toks: toks(old(out)@),
                n: 0,
                deleted: Seq::empty(),
            }),
            whole == autoclaims(init, es, cands@, limit as int, q),
            n + gone@.len() <= i <= cands@.len(),
            whole == autoclaims(
                (ClaimV { group: g@, toks: toks(out@), n: n as nat, deleted: gone@ }),
                es,
                cands@.skip(i as int),
                limit as int,
                q,
            ),
        decreases cands@.len() - i,
    {
        let total: usize = n + gone.len();
        if total as u64 >= limit {
            return (n, gone, cands[i].entry_id);
        }
        let id: StreamId = cands[i].entry_id;
        let ghost st = ClaimV { group: g@, toks: toks(out@), n: n as nat, deleted: gone@ };
        assert(cands@.skip(i as int).skip(1) =~= cands@.skip(i + 1));
        let k: u8 = autoclaim_one(g, entries, id, consumer, min_idle, now, justid, out);
        assert(autoclaims_one(st, es, id, q).group == g@);
        if k == 1 {
            n += 1;
        } else if k == 2 {
            gone.push(id);
        }
        i += 1;
    }
    (n, gone, StreamId::zero())
}

/// Copies pending entries from a position on.
fn copy_pel(pel: &Vec<PelEntry>, from: usize) -> (r: Vec<PelEntry>)
    requires
        from <= pel@.len(),
    ensures
        r@ == pel@.skip(from as int),
{
    let mut r: Vec<PelEntry> = Vec::new();
    let mut i: usize = from;
    while i < pel.len()
        invariant
            from <= i <= pel@.len(),
            r@ =~= pel@.subrange(from as int, i as int),
        decreases pel@.len() - i,
    {
        r.push(pel[i]);
        i += 1;
    }
    assert(r@ =~= pel@.skip(from as int));
    r
}

/// The reply to an XAUTOCLAIM.
fn autoclaim_answer(n: usize, body: Vec<Reply>, gone: &Vec<StreamId>, cursor: StreamId) -> (r: Vec<
    Reply,
>)
    ensures
        forall|st: ClaimV|
            st.n == n && st.toks == toks(body@) && st.deleted == gone@ ==> toks(r@)
                == #[trigger] autoclaim_reply(st, cursor),
{
    let mut body = body;
    let ghost middle = toks(body@);
    let mut out: Vec<Reply> = Vec::new();
    out.push(Reply::Array(3));
    out.push(Reply::Bulk(cursor.to_display_bytes()));
    out.push(Reply::Array(n as u128));
    out.append(&mut body);
    out.push(Reply::Array(gone.len() as u128));
    let ghost head = toks(out@);
    let ghost all = id_bulks(gone@);
    let mut i: usize = 0;
    while i < gone.len()
        invariant
            i <= gone@.len(),
            all == id_bulks(gone@),
            toks(out@) =~= head + all.take(i as int),
        decreases gone@.len() - i,
    {
        out.push(Reply::Bulk(gone[i].to_display_bytes()));
        i += 1;
    }
    proof {
        assert(all.take(i as int) =~= all);
        let front = seq![Tok::Array(3), Tok::Bulk(id_text(cursor)), Tok::Array(n as nat)];
        assert(head =~= front + middle + seq![Tok::Array(gone@.len())]);
    }
    out
}

/// Claims candidates in the stream of a key.
fn autoclaim_in(
    db: &mut RedisDb,
    key: &[u8],
    group: &[u8],
    consumer: &[u8],
    start: StreamId,
    min_idle: i64,
    now: i64,
    limit: u64,
    justid: bool,
) -> (r: Result<(Vec<Reply>, bool), RedisError>)
    requires
        old(db).wf(),
    ensures
        final(db).wf(),
        ({
            let d = old(db)@;
            match r {
                Err(e) => final(db)@ == d && (match stream_in(d, key@) {
                    Err(f) => f == e@,
                    Ok(None) => e@ == no_group(key@, group@),
                    Ok(Some(s)) => !s.groups.contains_key(group@) && e@ == no_group(key@, group@),
                }),
                Ok((out, created)) => {
                    &&& stream_in(d, key@) matches Ok(Some(s))
                    &&& s.groups.contains_key(group@)
                    &&& {
                        let g = s.groups[group@];
                        let q = Claim {
                            consumer: consumer@,
                            min_idle,
                            now,
                            opts: ClaimOptions { justid, ..no_claim_options() },
                        };
                        let seen = activated(touched(g, consumer@, now), consumer@, now);
                        let (st, cursor) = autoclaims(
                            ClaimV { group: seen, toks: Seq::empty(), n: 0, deleted: Seq::empty() },
                            s.entries,
                            g.pel.skip(pel_rank(g.pel, start)),
                            limit as int,
                            q,
                        );
                        &&& created == !g.consumers.contains_key(consumer@)
                        &&& toks(out@) == autoclaim_reply(st, cursor)
                        &&& final(db)@ == db_update(
                            d,
                            key@,
                            ObjV::Stream(with_group(s, group@, st.group)),
                        )
                    }
                },
            }
        }),
{
    let ghost d = db@;
    match db.stream_for_write(key) {
        Err(e) => Err(e),
        Ok(None) => Err(no_such_key_or_group_short(key, group)),
        Ok(Some(s)) => {
            let ghost sv = s@;
            assert(d =~= db_update(d, key@, ObjV::Stream(sv)));
            match s.groups.get_mut(group) {
                None => Err(no_such_key_or_group_short(key, group)),
                Some(g) => {
                    let from: usize = pel_lower_bound(&g.pel, start);
                    let cands: Vec<PelEntry> = copy_pel(&g.pel, from);
                    let created: bool = touch_or_create_consumer(g, consumer, now);
                    activate(g, consumer, now);
                    let mut body: Vec<Reply> = Vec::new();
                    assert(toks(body@) =~= Seq::empty());
                    let (n, gone, cursor): (usize, Vec<StreamId>, StreamId) = autoclaim_all(
                        g,
                        &s.entries,
                        &cands,
                        consumer,
                        min_idle,
                        now,
                        limit,
                        justid,
                        &mut body,
                    );
                    let ghost st = ClaimV {
                        group: g@,
                        toks: toks(body@),
                        n: n as nat,
                        deleted: gone@,
                    };
                    let out: Vec<Reply> = autoclaim_answer(n, body, &gone, cursor);
                    assert(toks(out@) == autoclaim_reply(st, cursor));
                    Ok((out, created))
                },
            }
        },
    }
}

/// XAUTOCLAIM key group consumer min-idle-time start [COUNT n] [JUSTID]
pub fn xautoclaim_command(ctx: &mut CommandContext) -> (r: Result<(), RedisError>)
    requires
        old(ctx).wf(),
    ensures
        final(ctx).wf(),
        done(r, final(ctx)@) == xautoclaim_outcome(old(ctx)@),
{
    let argc: usize = ctx.arg_count();
    if argc < 6 {
        return Err(RedisError::wrong_number_of_args("xautoclaim"));
    }
    let key: Vec<u8> = ctx.arg_owned(1);
    let group: Vec<u8> = ctx.arg_owned(2);
    let consumer: Vec<u8> = ctx.arg_owned(3);
    let min_idle: i64 = match parse_strict_i64(&ctx.client.argv[4]) {
        Err(e) => return Err(e),
        Ok(n) => if n < 0 { 0 } else { n },
    };
    let start: StreamId = if is_text(&ctx.client.argv[5], "-") {
        StreamId::zero()
    } else if is_text(&ctx.client.argv[5], "+") {
        StreamId::maximum()
    } else {
        match parse_explicit_id(&ctx.client.argv[5]) {
            Err(e) => return Err(e),
            Ok(id) => id,
        }
    };
    let (limit, justid): (u64, bool) = match parse_autoclaim_options(&ctx.client.argv) {
        Err(e) => return Err(e),
        Ok(o) => o,
    };
    let now: i64 = now_ms_clamped(ctx.now_ms);
    let (out, created): (Vec<Reply>, bool) = match autoclaim_in(
        &mut ctx.db,
        &key,
        &group,
        &consumer,
        start,
        min_idle,
        now,
        limit,
        justid,
    ) {
        Err(e) => return Err(e),
        Ok(p) => p,
    };
    if created {
        ctx.notify_keyspace_event(EventClass::Stream, "xgroup-createconsumer", &key);
    }
    ctx.reply_all(out);
    Ok(())
}

} // verus!
