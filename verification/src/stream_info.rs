//! XINFO: what streams, groups and consumers look like.

use vstd::prelude::*;

use crate::bytes::{dup, is_word, lemma_views_push, word};
use crate::context::{done, fails, replies, CommandContext, CtxV, Outcome};
use crate::dict::{keys_of, Dict};
use crate::error::{runtime, syntax, wrong_args, RedisError};
use crate::keyspace::stream_in;
use crate::reply::{bulk, bulk_text, lemma_toks_add, lemma_toks_push, toks, Reply, Tok};
use crate::stream_claim::{owner_in, owner_of, since, time_since};
use crate::stream_data::{
    first_id, group_lag, groups_wf, id_text, Consumer, ConsumerGroup, ConsumerV, EntryV, GroupV,
    InlineStream, PelEntry, StreamV, SCG_INVALID_ENTRIES_READ,
};
use crate::stream_groups::{no_group, no_such_key_or_group_short};
use crate::stream_parse::{parse_strict_i64, strict_i64};
use crate::stream_wake::{clamped, entries_toks, entry_toks, now_ms_clamped, put_entries, put_entry};

verus! {

broadcast use {lemma_toks_push, lemma_toks_add, lemma_views_push};

/// The number of nodes that a stream of that length would take.
pub open spec fn radix_keys(len: int) -> int {
    (len + 99) / 100
}

/// The number of nodes that a stream of that length would take.
pub fn synthetic_radix_keys(len: usize) -> (r: i64)
    ensures
        r == radix_keys(len as int),
        0 <= r < i64::MAX,
{
    let n: usize = len / 100;
    let up: i64 = if len % 100 > 0 {
        1
    } else {
        0
    };
    n as i64 + up
}

/// A number, or the null bulk string.
pub open spec fn int_or_null(n: Option<i64>) -> Tok {
    match n {
        Some(n) => Tok::Int(n as int),
        None => Tok::NullBulk,
    }
}

/// A number, or the null bulk string.
fn int_reply(n: Option<i64>) -> (r: Reply)
    ensures
        r@ == int_or_null(n),
{
    match n {
        Some(n) => Reply::Int(n),
        None => Reply::NullBulk,
    }
}

/// The counter of read entries, where it is known.
pub open spec fn known_read(n: i64) -> Option<i64> {
    if n == SCG_INVALID_ENTRIES_READ {
        None
    } else {
        Some(n)
    }
}

/// The counter of read entries, where it is known.
fn read_if_known(n: i64) -> (r: Option<i64>)
    ensures
        r == known_read(n),
{
    if n == SCG_INVALID_ENTRIES_READ {
        None
    } else {
        Some(n)
    }
}

// ---------------------------------------------------------------------------
// XINFO STREAM
// ---------------------------------------------------------------------------

/// The fields that both forms of XINFO STREAM begin with.
pub open spec fn stream_head(s: StreamV) -> Seq<Tok> {
    let n = s.entries.len() as int;
    seq![
        bulk("length"@),
        Tok::Int(n as i64 as int),
        bulk("radix-tree-keys"@),
        Tok::Int(radix_keys(n)),
        bulk("radix-tree-nodes"@),
        Tok::Int(radix_keys(n) + 1),
        bulk("last-generated-id"@),
        Tok::Bulk(id_text(s.last_id)),
        bulk("max-deleted-entry-id"@),
        Tok::Bulk(id_text(s.max_deleted_id)),
        bulk("entries-added"@),
        Tok::Int(s.entries_added as i64 as int),
    ]
}

/// Adds the fields that both forms of XINFO STREAM begin with.
fn put_stream_head(out: &mut Vec<Reply>, s: &InlineStream)
    ensures
        toks(final(out)@) == toks(old(out)@) + stream_head(s@),
{
    let ghost first = toks(out@);
    let n: usize = s.len();
    out.push(bulk_text("length"));
    out.push(Reply::Int(n as i64));
    out.push(bulk_text("radix-tree-keys"));
    out.push(Reply::Int(synthetic_radix_keys(n)));
    out.push(bulk_text("radix-tree-nodes"));
    out.push(Reply::Int(synthetic_radix_keys(n) + 1));
    out.push(bulk_text("last-generated-id"));
    out.push(Reply::Bulk(s.last_id.to_display_bytes()));
    out.push(bulk_text("max-deleted-entry-id"));
    out.push(Reply::Bulk(s.max_deleted_id.to_display_bytes()));
    out.push(bulk_text("entries-added"));
    out.push(Reply::Int(s.entries_added as i64));
    assert(toks(out@) =~= first + stream_head(s@));
}

/// An entry, or the null array.
pub open spec fn entry_or_null(s: Seq<EntryV>, i: int) -> Seq<Tok> {
    if 0 <= i < s.len() {
        entry_toks(s[i])
    } else {
        seq![Tok::NullArray]
    }
}

/// The reply to XINFO STREAM.
pub open spec fn stream_info(s: StreamV) -> Seq<Tok> {
    seq![Tok::Pairs(8)] + stream_head(s) + seq![bulk("first-entry"@)] + entry_or_null(s.entries, 0)
        + seq![bulk("last-entry"@)] + entry_or_null(s.entries, s.entries.len() - 1)
}

/// The reply to XINFO STREAM.
fn stream_info_reply(s: &InlineStream) -> (r: Vec<Reply>)
    ensures
        toks(r@) == stream_info(s@),
{
    let mut out: Vec<Reply> = Vec::new();
    out.push(Reply::Pairs(8));
    assert(toks(out@) =~= seq![Tok::Pairs(8)]);
    put_stream_head(&mut out, s);
    let len: usize = s.entries.len();
    let ghost a = toks(out@);
    out.push(bulk_text("first-entry"));
    assert(toks(out@) =~= a + seq![bulk("first-entry"@)]);
    let ghost b = toks(out@);
    if len > 0 {
        put_entry(&mut out, &s.entries[0]);
        assert(s@.entries[0] == s.entries@[0]@);
    } else {
        out.push(Reply::NullArray);
        assert(toks(out@) =~= b + seq![Tok::NullArray]);
    }
    let ghost c = toks(out@);
    out.push(bulk_text("last-entry"));
    assert(toks(out@) =~= c + seq![bulk("last-entry"@)]);
    let ghost d = toks(out@);
    if len > 0 {
        put_entry(&mut out, &s.entries[len - 1]);
        assert(s@.entries[len - 1] == s.entries@[len - 1]@);
    } else {
        out.push(Reply::NullArray);
        assert(toks(out@) =~= d + seq![Tok::NullArray]);
    }
    out
}

/// The first `limit` elements, or all where the limit is not positive.
pub open spec fn limited(len: int, limit: i64) -> int {
    if limit <= 0 || limit >= len {
        len
    } else {
        limit as int
    }
}

/// How many of `len` elements a limit allows.
fn limit_to(len: usize, limit: i64) -> (r: usize)
    ensures
        r == limited(len as int, limit),
        r <= len,
{
    if limit <= 0 || limit as u64 >= len as u64 {
        len
    } else {
        limit as usize
    }
}

/// The pending entries of a group, with their owners.
pub open spec fn group_pel_toks(m: Map<Seq<u8>, ConsumerV>, ps: Seq<PelEntry>) -> Seq<Tok>
    decreases ps.len(),
{
    if ps.len() == 0 {
        Seq::empty()
    } else {
        let p = ps.last();
        group_pel_toks(m, ps.drop_last()) + seq![
            Tok::Array(4),
            Tok::Bulk(id_text(p.entry_id)),
            Tok::Bulk(owner_in(m, keys_of(m), p.entry_id)),
            Tok::Int(p.delivery_time_ms as int),
            Tok::Int(p.delivery_count as i64 as int),
        ]
    }
}

/// Adds the first `n` pending entries of a group, with their owners.
fn put_group_pel(out: &mut Vec<Reply>, g: &ConsumerGroup, n: usize)
    requires
        g.wf(),
        n <= g.pel@.len(),
    ensures
        toks(final(out)@) == toks(old(out)@) + group_pel_toks(g@.consumers, g@.pel.take(n as int)),
{
    let ghost first = toks(out@);
    let ghost ps = g.pel@;
    let mut i: usize = 0;
    proof {
        assert(ps.take(0) =~= Seq::empty());
        assert(first =~= first + group_pel_toks(g@.consumers, ps.take(0)));
    }
    while i < n
        invariant
            g.wf(),
            ps == g.pel@,
            i <= n <= ps.len(),
            toks(out@) == first + group_pel_toks(g@.consumers, ps.take(i as int)),
        decreases n - i,
    {
        let p: PelEntry = g.pel[i];
        out.push(Reply::Array(4));
        out.push(Reply::Bulk(p.entry_id.to_display_bytes()));
        out.push(Reply::Bulk(owner_of(&g.consumers, p.entry_id)));
        out.push(Reply::Int(p.delivery_time_ms));
        out.push(Reply::Int(p.delivery_count as i64));
        proof {
            assert(ps.take(i + 1).drop_last() =~= ps.take(i as int));
            assert(toks(out@) =~= first + group_pel_toks(g@.consumers, ps.take(i + 1)));
        }
        i += 1;
    }
}

/// The pending entries of a consumer.
pub open spec fn consumer_pel_toks(ps: Seq<PelEntry>) -> Seq<Tok>
    decreases ps.len(),
{
    if ps.len() == 0 {
        Seq::empty()
    } else {
        let p = ps.last();
        consumer_pel_toks(ps.drop_last()) + seq![
            Tok::Array(3),
            Tok::Bulk(id_text(p.entry_id)),
            Tok::Int(p.delivery_time_ms as int),
            Tok::Int(p.delivery_count as i64 as int),
        ]
    }
}

/// Adds the first `n` pending entries of a consumer.
fn put_consumer_pel(out: &mut Vec<Reply>, pel: &Vec<PelEntry>, n: usize)
    requires
        n <= pel@.len(),
    ensures
        toks(final(out)@) == toks(old(out)@) + consumer_pel_toks(pel@.take(n as int)),
{
    let ghost first = toks(out@);
    let ghost ps = pel@;
    let mut i: usize = 0;
    proof {
        assert(ps.take(0) =~= Seq::empty());
        assert(first =~= first + consumer_pel_toks(ps.take(0)));
    }
    while i < n
        invariant
            ps == pel@,
            i <= n <= ps.len(),
            toks(out@) == first + consumer_pel_toks(ps.take(i as int)),
        decreases n - i,
    {
        let p: PelEntry = pel[i];
        out.push(Reply::Array(3));
        out.push(Reply::Bulk(p.entry_id.to_display_bytes()));
        out.push(Reply::Int(p.delivery_time_ms));
        out.push(Reply::Int(p.delivery_count as i64));
        proof {
            assert(ps.take(i + 1).drop_last() =~= ps.take(i as int));
            assert(toks(out@) =~= first + consumer_pel_toks(ps.take(i + 1)));
        }
        i += 1;
    }
}

/// One consumer in full.
pub open spec fn consumer_full(name: Seq<u8>, k: ConsumerV, limit: i64) -> Seq<Tok> {
    let n = limited(k.pel.len() as int, limit);
    seq![
        Tok::Pairs(5),
        bulk("name"@),
        Tok::Bulk(name),
        bulk("seen-time"@),
        Tok::Int(k.seen as int),
        bulk("active-time"@),
        Tok::Int(k.active as int),
        bulk("pel-count"@),
        Tok::Int(k.pel.len() as i64 as int),
        bulk("pending"@),
        Tok::Array(n as nat),
    ] + consumer_pel_toks(k.pel.take(n))
}

/// Adds one consumer in full.
fn put_consumer_full(out: &mut Vec<Reply>, name: &[u8], k: &Consumer, limit: i64)
    ensures
        toks(final(out)@) == toks(old(out)@) + consumer_full(name@, k@, limit),
{
    let ghost first = toks(out@);
    let n: usize = limit_to(k.pel.len(), limit);
    out.push(Reply::Pairs(5));
    out.push(bulk_text("name"));
    out.push(Reply::Bulk(dup(name)));
    out.push(bulk_text("seen-time"));
    out.push(Reply::Int(k.seen_time_ms));
    out.push(bulk_text("active-time"));
    out.push(Reply::Int(k.active_time_ms));
    out.push(bulk_text("pel-count"));
    out.push(Reply::Int(k.pel.len() as i64));
    out.push(bulk_text("pending"));
    out.push(Reply::Array(n as u128));
    put_consumer_pel(out, &k.pel, n);
    assert(toks(out@) =~= first + consumer_full(name@, k@, limit));
}

/// Consumers in full, in the order of `keys`.
pub open spec fn consumers_full(
    m: Map<Seq<u8>, ConsumerV>,
    keys: Seq<Seq<u8>>,
    limit: i64,
) -> Seq<Tok>
    decreases keys.len(),
{
    if keys.len() == 0 {
        Seq::empty()
    } else {
        consumers_full(m, keys.drop_last(), limit) + consumer_full(
            keys.last(),
            m[keys.last()],
            limit,
        )
    }
}

/// Adds consumers in full, in ascending order.
fn put_consumers_full(out: &mut Vec<Reply>, d: &Dict<Consumer>, limit: i64)
    requires
        d.wf(),
    ensures
        toks(final(out)@) == toks(old(out)@) + consumers_full(d@, keys_of(d@), limit),
{
    let ghost first = toks(out@);
    let ghost keys = d.keys();
    let mut i: usize = 0;
    proof {
        d.lemma_keys();
        assert(keys.take(0) =~= Seq::empty());
        assert(first =~= first + consumers_full(d@, keys.take(0), limit));
    }
    while i < d.entries.len()
        invariant
            d.wf(),
            keys == d.keys(),
            i <= d.entries@.len(),
            toks(out@) == first + consumers_full(d@, keys.take(i as int), limit),
        decreases d.entries@.len() - i,
    {
        put_consumer_full(out, &d.entries[i].0, &d.entries[i].1, limit);
        proof {
            d.lemma_at(i as int);
            assert(keys.take(i + 1).drop_last() =~= keys.take(i as int));
            assert(keys.take(i + 1).last() == keys[i as int]);
            assert(toks(out@) =~= first + consumers_full(d@, keys.take(i + 1), limit));
        }
        i += 1;
    }
    assert(keys.take(i as int) =~= keys);
}

/// What stands in front of the pending entries of a group in full.
pub open spec fn group_head(s: StreamV, name: Seq<u8>, g: GroupV, n: int) -> Seq<Tok> {
    seq![
        Tok::Pairs(7),
        bulk("name"@),
        Tok::Bulk(name),
        bulk("last-delivered-id"@),
        Tok::Bulk(id_text(g.last_delivered_id)),
        bulk("entries-read"@),
        int_or_null(known_read(g.entries_read)),
        bulk("lag"@),
        int_or_null(group_lag(s, g)),
        bulk("pel-count"@),
        Tok::Int(g.pel.len() as i64 as int),
        bulk("pending"@),
        Tok::Array(n as nat),
    ]
}

/// One group in full.
pub open spec fn group_full(s: StreamV, name: Seq<u8>, g: GroupV, limit: i64) -> Seq<Tok> {
    let n = limited(g.pel.len() as int, limit);
    group_head(s, name, g, n) + group_pel_toks(g.consumers, g.pel.take(n)) + seq![
        bulk("consumers"@),
        Tok::Array(keys_of(g.consumers).len()),
    ] + consumers_full(g.consumers, keys_of(g.consumers), limit)
}

/// Adds what stands in front of the pending entries of a group in full.
fn put_group_head(
    out: &mut Vec<Reply>,
    s: &InlineStream,
    name: &[u8],
    g: &ConsumerGroup,
    n: usize,
)
    ensures
        toks(final(out)@) == toks(old(out)@) + group_head(s@, name@, g@, n as int),
{
    let ghost first = toks(out@);
    out.push(Reply::Pairs(7));
    out.push(bulk_text("name"));
    out.push(Reply::Bulk(dup(name)));
    out.push(bulk_text("last-delivered-id"));
    out.push(Reply::Bulk(g.last_delivered_id.to_display_bytes()));
    out.push(bulk_text("entries-read"));
    out.push(int_reply(read_if_known(g.entries_read)));
    out.push(bulk_text("lag"));
    out.push(int_reply(s.lag_of(g)));
    out.push(bulk_text("pel-count"));
    out.push(Reply::Int(g.pel.len() as i64));
    out.push(bulk_text("pending"));
    out.push(Reply::Array(n as u128));
    assert(toks(out@) =~= first + group_head(s@, name@, g@, n as int));
}

/// Adds one group in full.
fn put_group_full(
    out: &mut Vec<Reply>,
    s: &InlineStream,
    name: &[u8],
    g: &ConsumerGroup,
    limit: i64,
)
    requires
        g.wf(),
    ensures
        toks(final(out)@) == toks(old(out)@) + group_full(s@, name@, g@, limit),
{
    let ghost first = toks(out@);
    let n: usize = limit_to(g.pel.len(), limit);
    put_group_head(out, s, name, g, n);
    put_group_pel(out, g, n);
    let ghost mid = toks(out@);
    out.push(bulk_text("consumers"));
    out.push(Reply::Array(g.consumers.len() as u128));
    proof {
        g.consumers.lemma_keys();
        assert(toks(out@) =~= mid + seq![
            bulk("consumers"@),
            Tok::Array(keys_of(g@.consumers).len()),
        ]);
    }
    put_consumers_full(out, &g.consumers, limit);
    assert(toks(out@) =~= first + group_full(s@, name@, g@, limit));
}

/// Groups in full, in the order of `keys`.
pub open spec fn groups_full(s: StreamV, keys: Seq<Seq<u8>>, limit: i64) -> Seq<Tok>
    decreases keys.len(),
{
    if keys.len() == 0 {
        Seq::empty()
    } else {
        groups_full(s, keys.drop_last(), limit) + group_full(
            s,
            keys.last(),
            s.groups[keys.last()],
            limit,
        )
    }
}

/// Adds groups in full, in ascending order.
fn put_groups_full(out: &mut Vec<Reply>, s: &InlineStream, limit: i64)
    requires
        groups_wf(s.groups),
    ensures
        toks(final(out)@) == toks(old(out)@) + groups_full(s@, keys_of(s@.groups), limit),
{
    let ghost first = toks(out@);
    let ghost keys = s.groups.keys();
    let mut i: usize = 0;
    proof {
        s.groups.lemma_keys();
        assert(keys.take(0) =~= Seq::empty());
        assert(first =~= first + groups_full(s@, keys.take(0), limit));
    }
    while i < s.groups.entries.len()
        invariant
            groups_wf(s.groups),
            keys == s.groups.keys(),
            i <= s.groups.entries@.len(),
            toks(out@) == first + groups_full(s@, keys.take(i as int), limit),
        decreases s.groups.entries@.len() - i,
    {
        proof {
            s.groups.lemma_at(i as int);
            assert(keys.take(i + 1).drop_last() =~= keys.take(i as int));
            assert(keys.take(i + 1).last() == keys[i as int]);
            assert(s.groups.entries@[i as int].1.wf());
        }
        put_group_full(out, s, &s.groups.entries[i].0, &s.groups.entries[i].1, limit);
        assert(toks(out@) =~= first + groups_full(s@, keys.take(i + 1), limit));
        i += 1;
    }
    assert(keys.take(i as int) =~= keys);
}

/// The reply to XINFO STREAM FULL. A limit that is not positive means none.
pub open spec fn stream_full(s: StreamV, limit: i64) -> Seq<Tok> {
    let n = limited(s.entries.len() as int, limit);
    seq![Tok::Pairs(9)] + stream_head(s) + seq![
        bulk("recorded-first-entry-id"@),
        Tok::Bulk(id_text(first_id(s))),
        bulk("entries"@),
        Tok::Array(n as nat),
    ] + entries_toks(s.entries.take(n)) + seq![
        bulk("groups"@),
        Tok::Array(keys_of(s.groups).len()),
    ] + groups_full(s, keys_of(s.groups), limit)
}

/// The reply to XINFO STREAM FULL.
fn stream_full_reply(s: &InlineStream, limit: i64) -> (r: Vec<Reply>)
    requires
        s.wf(),
    ensures
        toks(r@) == stream_full(s@, limit),
{
    let n: usize = limit_to(s.entries.len(), limit);
    let mut out: Vec<Reply> = Vec::new();
    out.push(Reply::Pairs(9));
    assert(toks(out@) =~= seq![Tok::Pairs(9)]);
    put_stream_head(&mut out, s);
    let ghost a = toks(out@);
    out.push(bulk_text("recorded-first-entry-id"));
    out.push(Reply::Bulk(s.first().to_display_bytes()));
    out.push(bulk_text("entries"));
    out.push(Reply::Array(n as u128));
    proof {
        assert(toks(out@) =~= a + seq![
            bulk("recorded-first-entry-id"@),
            Tok::Bulk(id_text(first_id(s@))),
            bulk("entries"@),
            Tok::Array(n as nat),
        ]);
        assert(s@.entries.subrange(0, n as int) =~= s@.entries.take(n as int));
    }
    put_entries(&mut out, &s.entries, 0, n);
    let ghost b = toks(out@);
    out.push(bulk_text("groups"));
    out.push(Reply::Array(s.groups.len() as u128));
    proof {
        s.groups.lemma_keys();
        assert(toks(out@) =~= b + seq![
            bulk("groups"@),
            Tok::Array(keys_of(s@.groups).len()),
        ]);
    }
    put_groups_full(&mut out, s, limit);
    out
}

/// How XINFO STREAM ends.
pub open spec fn xinfo_stream_outcome(c: CtxV) -> Outcome {
    let argv = c.client.argv;
    if argv.len() < 3 {
        fails(c, wrong_args("xinfo"@))
    } else if argv.len() == 3 {
        match stream_in(c.db, argv[2]) {
            Err(e) => fails(c, e),
            Ok(None) => fails(c, runtime("ERR no such key"@)),
            Ok(Some(s)) => replies(c, stream_info(s)),
        }
    } else if !is_word(argv[3], "FULL"@) {
        fails(c, syntax("syntax error"@))
    } else {
        let counted = argv.len() == 6 && is_word(argv[4], "COUNT"@);
        if !counted && argv.len() != 4 {
            fails(c, syntax("syntax error"@))
        } else {
            match if counted {
                strict_i64(argv[5])
            } else {
                Ok(10i64)
            } {
                Err(e) => fails(c, e),
                Ok(n) => match stream_in(c.db, argv[2]) {
                    Err(e) => fails(c, e),
                    Ok(None) => fails(c, runtime("ERR no such key"@)),
                    Ok(Some(s)) => replies(c, stream_full(s, n)),
                },
            }
        }
    }
}

/// XINFO STREAM key [FULL [COUNT n]]
fn xinfo_stream(ctx: &mut CommandContext) -> (r: Result<(), RedisError>)
    requires
        old(ctx).wf(),
    ensures
        final(ctx).wf(),
        done(r, final(ctx)@) == xinfo_stream_outcome(old(ctx)@),
{
    let argc: usize = ctx.arg_count();
    if argc < 3 {
        return Err(RedisError::wrong_number_of_args("xinfo"));
    }
    let mut full: Option<i64> = None;
    if argc > 3 {
        if !word(&ctx.client.argv[3], "FULL") {
            return Err(RedisError::syntax("syntax error"));
        }
        if argc == 6 && word(&ctx.client.argv[4], "COUNT") {
            match parse_strict_i64(&ctx.client.argv[5]) {
                Err(e) => return Err(e),
                Ok(n) => full = Some(n),
            }
        } else if argc != 4 {
            return Err(RedisError::syntax("syntax error"));
        } else {
            full = Some(10);
        }
    }
    let out: Vec<Reply> = match ctx.db.stream_at(&ctx.client.argv[2]) {
        Err(e) => return Err(e),
        Ok(None) => return Err(RedisError::runtime("ERR no such key")),
        Ok(Some(s)) => match full {
            Some(n) => stream_full_reply(s, n),
            None => stream_info_reply(s),
        },
    };
    ctx.reply_all(out);
    Ok(())
}

// ---------------------------------------------------------------------------
// XINFO GROUPS, XINFO CONSUMERS
// ---------------------------------------------------------------------------

/// One group in brief.
pub open spec fn group_brief(s: StreamV, name: Seq<u8>, g: GroupV) -> Seq<Tok> {
    seq![
        Tok::Pairs(6),
        bulk("name"@),
        Tok::Bulk(name),
        bulk("consumers"@),
        Tok::Int(keys_of(g.consumers).len() as i64 as int),
        bulk("pending"@),
        Tok::Int(g.pel.len() as i64 as int),
        bulk("last-delivered-id"@),
        Tok::Bulk(id_text(g.last_delivered_id)),
        bulk("entries-read"@),
        int_or_null(known_read(g.entries_read)),
        bulk("lag"@),
        int_or_null(group_lag(s, g)),
    ]
}

/// Groups in brief, in the order of `keys`.
pub open spec fn groups_brief(s: StreamV, keys: Seq<Seq<u8>>) -> Seq<Tok>
    decreases keys.len(),
{
    if keys.len() == 0 {
        Seq::empty()
    } else {
        groups_brief(s, keys.drop_last()) + group_brief(s, keys.last(), s.groups[keys.last()])
    }
}

/// Adds one group in brief.
fn put_group_brief(out: &mut Vec<Reply>, s: &InlineStream, name: &[u8], g: &ConsumerGroup)
    requires
        g.wf(),
    ensures
        toks(final(out)@) == toks(old(out)@) + group_brief(s@, name@, g@),
{
    let ghost first = toks(out@);
    proof {
        g.consumers.lemma_keys();
    }
    out.push(Reply::Pairs(6));
    out.push(bulk_text("name"));
    out.push(Reply::Bulk(dup(name)));
    out.push(bulk_text("consumers"));
    out.push(Reply::Int(g.consumers.len() as i64));
    out.push(bulk_text("pending"));
    out.push(Reply::Int(g.pel.len() as i64));
    out.push(bulk_text("last-delivered-id"));
    out.push(Reply::Bulk(g.last_delivered_id.to_display_bytes()));
    out.push(bulk_text("entries-read"));
    out.push(int_reply(read_if_known(g.entries_read)));
    out.push(bulk_text("lag"));
    out.push(int_reply(s.lag_of(g)));
    assert(toks(out@) =~= first + group_brief(s@, name@, g@));
}

/// The reply to XINFO GROUPS.
fn groups_reply(s: &InlineStream) -> (r: Vec<Reply>)
    requires
        s.wf(),
    ensures
        toks(r@) == seq![Tok::Array(keys_of(s@.groups).len())] + groups_brief(
            s@,
            keys_of(s@.groups),
        ),
{
    let mut out: Vec<Reply> = Vec::new();
    out.push(Reply::Array(s.groups.len() as u128));
    let ghost keys = s.groups.keys();
    let ghost first = toks(out@);
    let mut i: usize = 0;
    proof {
        s.groups.lemma_keys();
        assert(first =~= seq![Tok::Array(keys.len())]);
        assert(keys.take(0) =~= Seq::empty());
        assert(first =~= first + groups_brief(s@, keys.take(0)));
    }
    while i < s.groups.entries.len()
        invariant
            s.wf(),
            keys == s.groups.keys(),
            i <= s.groups.entries@.len(),
            toks(out@) == first + groups_brief(s@, keys.take(i as int)),
        decreases s.groups.entries@.len() - i,
    {
        proof {
            s.groups.lemma_at(i as int);
            assert(keys.take(i + 1).drop_last() =~= keys.take(i as int));
            assert(keys.take(i + 1).last() == keys[i as int]);
            assert(s.groups.entries@[i as int].1.wf());
        }
        put_group_brief(&mut out, s, &s.groups.entries[i].0, &s.groups.entries[i].1);
        assert(toks(out@) =~= first + groups_brief(s@, keys.take(i + 1)));
        i += 1;
    }
    assert(keys.take(i as int) =~= keys);
    out
}

/// How XINFO GROUPS ends.
pub open spec fn xinfo_groups_outcome(c: CtxV) -> Outcome {
    let argv = c.client.argv;
    if argv.len() < 3 {
        fails(c, wrong_args("xinfo"@))
    } else {
        match stream_in(c.db, argv[2]) {
            Err(e) => fails(c, e),
            Ok(None) => fails(c, runtime("ERR no such key"@)),
            Ok(Some(s)) => replies(
                c,
                seq![Tok::Array(keys_of(s.groups).len())] + groups_brief(s, keys_of(s.groups)),
            ),
        }
    }
}

/// XINFO GROUPS key
fn xinfo_groups(ctx: &mut CommandContext) -> (r: Result<(), RedisError>)
    requires
        old(ctx).wf(),
    ensures
        final(ctx).wf(),
        done(r, final(ctx)@) == xinfo_groups_outcome(old(ctx)@),
{
    if ctx.arg_count() < 3 {
        return Err(RedisError::wrong_number_of_args("xinfo"));
    }
    let out: Vec<Reply> = match ctx.db.stream_at(&ctx.client.argv[2]) {
        Err(e) => return Err(e),
        Ok(None) => return Err(RedisError::runtime("ERR no such key")),
        Ok(Some(s)) => groups_reply(s),
    };
    ctx.reply_all(out);
    Ok(())
}

/// A time since an event, not below 0; -1 for an event that never was.
pub open spec fn elapsed(now: i64, at: i64) -> int {
    if since(now, at) < 0 {
        0
    } else {
        since(now, at) as int
    }
}

/// One consumer in brief.
pub open spec fn consumer_brief(name: Seq<u8>, k: ConsumerV, now: i64) -> Seq<Tok> {
    seq![
        Tok::Pairs(4),
        bulk("name"@),
        Tok::Bulk(name),
        bulk("pending"@),
        Tok::Int(k.pel.len() as i64 as int),
        bulk("idle"@),
        Tok::Int(elapsed(now, k.seen)),
        bulk("inactive"@),
        Tok::Int(
            if k.active < 0 {
                -1
            } else {
                elapsed(now, k.active)
            },
        ),
    ]
}

/// Consumers in brief, in the order of `keys`.
pub open spec fn consumers_brief(
    m: Map<Seq<u8>, ConsumerV>,
    keys: Seq<Seq<u8>>,
    now: i64,
) -> Seq<Tok>
    decreases keys.len(),
{
    if keys.len() == 0 {
        Seq::empty()
    } else {
        consumers_brief(m, keys.drop_last(), now) + consumer_brief(
            keys.last(),
            m[keys.last()],
            now,
        )
    }
}

/// Adds one consumer in brief.
fn put_consumer_brief(out: &mut Vec<Reply>, name: &[u8], k: &Consumer, now: i64)
    ensures
        toks(final(out)@) == toks(old(out)@) + consumer_brief(name@, k@, now),
{
    let ghost first = toks(out@);
    let idle: i64 = time_since(now, k.seen_time_ms);
    let idle: i64 = if idle < 0 { 0 } else { idle };
    let inactive: i64 = if k.active_time_ms < 0 {
        -1
    } else {
        let t: i64 = time_since(now, k.active_time_ms);
        if t < 0 { 0 } else { t }
    };
    out.push(Reply::Pairs(4));
    out.push(bulk_text("name"));
    out.push(Reply::Bulk(dup(name)));
    out.push(bulk_text("pending"));
    out.push(Reply::Int(k.pel.len() as i64));
    out.push(bulk_text("idle"));
    out.push(Reply::Int(idle));
    out.push(bulk_text("inactive"));
    out.push(Reply::Int(inactive));
    assert(toks(out@) =~= first + consumer_brief(name@, k@, now));
}

/// The reply to XINFO CONSUMERS.
fn consumers_reply(d: &Dict<Consumer>, now: i64) -> (r: Vec<Reply>)
    requires
        d.wf(),
    ensures
        toks(r@) == seq![Tok::Array(keys_of(d@).len())] + consumers_brief(d@, keys_of(d@), now),
{
    let mut out: Vec<Reply> = Vec::new();
    out.push(Reply::Array(d.len() as u128));
    let ghost keys = d.keys();
    let ghost first = toks(out@);
    let mut i: usize = 0;
    proof {
        d.lemma_keys();
        assert(first =~= seq![Tok::Array(keys.len())]);
        assert(keys.take(0) =~= Seq::empty());
        assert(first =~= first + consumers_brief(d@, keys.take(0), now));
    }
    while i < d.entries.len()
        invariant
            d.wf(),
            keys == d.keys(),
            i <= d.entries@.len(),
            toks(out@) == first + consumers_brief(d@, keys.take(i as int), now),
        decreases d.entries@.len() - i,
    {
        put_consumer_brief(&mut out, &d.entries[i].0, &d.entries[i].1, now);
        proof {
            d.lemma_at(i as int);
            assert(keys.take(i + 1).drop_last() =~= keys.take(i as int));
            assert(keys.take(i + 1).last() == keys[i as int]);
            assert(toks(out@) =~= first + consumers_brief(d@, keys.take(i + 1), now));
        }
        i += 1;
    }
    assert(keys.take(i as int) =~= keys);
    out
}

/// How XINFO CONSUMERS ends.
pub open spec fn xinfo_consumers_outcome(c: CtxV) -> Outcome {
    let argv = c.client.argv;
    if argv.len() < 4 {
        fails(c, wrong_args("xinfo"@))
    } else {
        match stream_in(c.db, argv[2]) {
            Err(e) => fails(c, e),
            Ok(None) => fails(c, no_group(argv[2], argv[3])),
            Ok(Some(s)) => if !s.groups.contains_key(argv[3]) {
                fails(c, no_group(argv[2], argv[3]))
            } else {
                let m = s.groups[argv[3]].consumers;
                replies(
                    c,
                    seq![Tok::Array(keys_of(m).len())] + consumers_brief(
                        m,
                        keys_of(m),
                        clamped(c.now),
                    ),
                )
            },
        }
    }
}

/// XINFO CONSUMERS key group
fn xinfo_consumers(ctx: &mut CommandContext) -> (r: Result<(), RedisError>)
    requires
        old(ctx).wf(),
    ensures
        final(ctx).wf(),
        done(r, final(ctx)@) == xinfo_consumers_outcome(old(ctx)@),
{
    if ctx.arg_count() < 4 {
        return Err(RedisError::wrong_number_of_args("xinfo"));
    }
    let now: i64 = now_ms_clamped(ctx.now_ms);
    let out: Vec<Reply> = match ctx.db.stream_at(&ctx.client.argv[2]) {
        Err(e) => return Err(e),
        Ok(None) => return Err(
            no_such_key_or_group_short(&ctx.client.argv[2], &ctx.client.argv[3]),
        ),
        Ok(Some(s)) => match s.groups.get(&ctx.client.argv[3]) {
            None => return Err(
                no_such_key_or_group_short(&ctx.client.argv[2], &ctx.client.argv[3]),
            ),
            Some(g) => consumers_reply(&g.consumers, now),
        },
    };
    ctx.reply_all(out);
    Ok(())
}

/// The lines of XINFO HELP.
pub open spec fn xinfo_help() -> Seq<Tok> {
    seq![
        Tok::Array(8),
        bulk("XINFO STREAM <key>"@),
        bulk("    Show information about the stream."@),
        bulk("XINFO GROUPS <key>"@),
        bulk("    Show the stream consumer groups."@),
        bulk("XINFO CONSUMERS <key> <group>"@),
        bulk("    Show the consumers of <group>."@),
        bulk("XINFO HELP"@),
        bulk("    Print this help."@),
    ]
}

/// The lines of XINFO HELP.
fn xinfo_help_lines() -> (r: Vec<Reply>)
    ensures
        toks(r@) == xinfo_help(),
{
    let mut out: Vec<Reply> = Vec::new();
    out.push(Reply::Array(8));
    out.push(bulk_text("XINFO STREAM <key>"));
    out.push(bulk_text("    Show information about the stream."));
    out.push(bulk_text("XINFO GROUPS <key>"));
    out.push(bulk_text("    Show the stream consumer groups."));
    out.push(bulk_text("XINFO CONSUMERS <key> <group>"));
    out.push(bulk_text("    Show the consumers of <group>."));
    out.push(bulk_text("XINFO HELP"));
    out.push(bulk_text("    Print this help."));
    assert(toks(out@) =~= xinfo_help());
    out
}

/// How XINFO ends.
pub open spec fn xinfo_outcome(c: CtxV) -> Outcome {
    let argv = c.client.argv;
    if argv.len() < 2 {
        fails(c, wrong_args("xinfo"@))
    } else if is_word(argv[1], "HELP"@) {
        if argv.len() != 2 {
            fails(c, wrong_args("xinfo|help"@))
        } else {
            replies(c, xinfo_help())
        }
    } else if is_word(argv[1], "STREAM"@) {
        xinfo_stream_outcome(c)
    } else if is_word(argv[1], "GROUPS"@) {
        xinfo_groups_outcome(c)
    } else if is_word(argv[1], "CONSUMERS"@) {
        xinfo_consumers_outcome(c)
    } else {
        fails(c, syntax("syntax error, try XINFO HELP"@))
    }
}

/// XINFO STREAM | GROUPS | CONSUMERS | HELP
pub fn xinfo_command(ctx: &mut CommandContext) -> (r: Result<(), RedisError>)
    requires
        old(ctx).wf(),
    ensures
        final(ctx).wf(),
        done(r, final(ctx)@) == xinfo_outcome(old(ctx)@),
{
    let argc: usize = ctx.arg_count();
    if argc < 2 {
        return Err(RedisError::wrong_number_of_args("xinfo"));
    }
    let sub: Vec<u8> = ctx.arg_owned(1);
    if word(&sub, "HELP") {
        if argc != 2 {
            return Err(RedisError::wrong_number_of_args("xinfo|help"));
        }
        ctx.reply_all(xinfo_help_lines());
        Ok(())
    } else if word(&sub, "STREAM") {
        xinfo_stream(ctx)
    } else if word(&sub, "GROUPS") {
        xinfo_groups(ctx)
    } else if word(&sub, "CONSUMERS") {
        xinfo_consumers(ctx)
    } else {
        Err(RedisError::syntax("syntax error, try XINFO HELP"))
    }
}

} // verus!
