//! Publish and subscribe: SUBSCRIBE, UNSUBSCRIBE, PSUBSCRIBE, PUNSUBSCRIBE,
//! PUBLISH, PUBSUB.
//!
//! A registry holds who listens to which channels and patterns, and which
//! clients can be reached. Subscriptions stand in the order in which they were
//! made.

use vstd::prelude::*;

use crate::bytes::{
    dup, is_word, lemma_views_push, lit, lower_all, opt_view, put, put_text, same, text, to_lower,
    views, word,
};
use crate::context::{
    delivery_views, done, fails, lemma_deliveries_push, replies, replies_one, CommandContext, CtxV,
    Delivery, DeliveryV, Outcome,
};
use crate::error::{runtime, syntax, wrong_args, ErrV, RedisError};
use crate::glob::{glob, glob_match};
use crate::lists::{clipped, counted};
use crate::reply::{
    bulk, bulk_array, bulk_or_null, bulk_text, encode_replies, lemma_toks_add, lemma_toks_push,
    toks, wire_all, Reply, Tok,
};
use crate::set_algebra::is_member;

verus! {

broadcast use {lemma_toks_push, lemma_toks_add, lemma_views_push};

/// Whose channels: those of the whole server, or those of a shard.
#[derive(Clone, Copy, Debug, PartialEq, Eq, Structural)]
pub enum PubSubKind {
    Global,
    Shard,
}

/// A client that listens to a channel or a pattern.
pub struct Subscription {
    pub name: Vec<u8>,
    pub client: u64,
}

/// A client that frames can be sent to, and the version of its protocol.
#[derive(Clone, Copy)]
pub struct Peer {
    pub id: u64,
    pub resp3: bool,
}

/// Who listens to what, and who can be reached.
pub struct PubSubRegistry {
    pub channels: Vec<Subscription>,
    pub patterns: Vec<Subscription>,
    pub peers: Vec<Peer>,
}

/// Who listens to what, and who can be reached.
#[verifier::ext_equal]
pub struct RegistryV {
    pub channels: Seq<(Seq<u8>, u64)>,
    pub patterns: Seq<(Seq<u8>, u64)>,
    pub peers: Seq<Peer>,
}

/// What a list of subscriptions says.
pub open spec fn subs(v: Seq<Subscription>) -> Seq<(Seq<u8>, u64)> {
    v.map_values(|s: Subscription| (s.name@, s.client))
}

impl View for PubSubRegistry {
    type V = RegistryV;

    open spec fn view(&self) -> RegistryV {
        RegistryV {
            channels: subs(self.channels@),
            patterns: subs(self.patterns@),
            peers: self.peers@,
        }
    }
}

impl PubSubRegistry {
    /// Nobody listens, and nobody can be reached.
    pub fn new() -> (r: PubSubRegistry)
        ensures
            r@.channels.len() == 0 && r@.patterns.len() == 0 && r@.peers.len() == 0,
    {
        PubSubRegistry { channels: Vec::new(), patterns: Vec::new(), peers: Vec::new() }
    }
}

// ---------------------------------------------------------------------------
// Subscriptions
// ---------------------------------------------------------------------------

/// The subscriptions with one more, unless it is there.
pub open spec fn added(s: Seq<(Seq<u8>, u64)>, name: Seq<u8>, id: u64) -> Seq<(Seq<u8>, u64)> {
    if s.contains((name, id)) {
        s
    } else {
        s.push((name, id))
    }
}

/// The subscriptions without one.
pub open spec fn without(s: Seq<(Seq<u8>, u64)>, name: Seq<u8>, id: u64) -> Seq<(Seq<u8>, u64)>
    decreases s.len(),
{
    if s.len() == 0 {
        s
    } else {
        let before = without(s.drop_last(), name, id);
        if s.last() == (name, id) {
            before
        } else {
            before.push(s.last())
        }
    }
}

/// The subscriptions without those of a client.
pub open spec fn without_client(s: Seq<(Seq<u8>, u64)>, id: u64) -> Seq<(Seq<u8>, u64)>
    decreases s.len(),
{
    if s.len() == 0 {
        s
    } else {
        let before = without_client(s.drop_last(), id);
        if s.last().1 == id {
            before
        } else {
            before.push(s.last())
        }
    }
}

/// What a client listens to.
pub open spec fn held(s: Seq<(Seq<u8>, u64)>, id: u64) -> Seq<Seq<u8>>
    decreases s.len(),
{
    if s.len() == 0 {
        Seq::empty()
    } else {
        let before = held(s.drop_last(), id);
        if s.last().1 == id {
            before.push(s.last().0)
        } else {
            before
        }
    }
}

/// Who listens to a name.
pub open spec fn listeners(s: Seq<(Seq<u8>, u64)>, name: Seq<u8>) -> Seq<u64>
    decreases s.len(),
{
    if s.len() == 0 {
        Seq::empty()
    } else {
        let before = listeners(s.drop_last(), name);
        if s.last().0 == name {
            before.push(s.last().1)
        } else {
            before
        }
    }
}

/// The names that are listened to, each once.
pub open spec fn names(s: Seq<(Seq<u8>, u64)>) -> Seq<Seq<u8>>
    decreases s.len(),
{
    if s.len() == 0 {
        Seq::empty()
    } else {
        let before = names(s.drop_last());
        if before.contains(s.last().0) {
            before
        } else {
            before.push(s.last().0)
        }
    }
}

/// How many channels and patterns a client listens to.
pub open spec fn subscription_count(r: RegistryV, id: u64) -> nat {
    held(r.channels, id).len() + held(r.patterns, id).len()
}

/// One more entry.
proof fn lemma_subs_push(s: Seq<Subscription>, x: Subscription)
    ensures
        subs(s.push(x)) == subs(s).push((x.name@, x.client)),
{
    assert(subs(s.push(x)) =~= subs(s).push((x.name@, x.client)));
}

/// Adds a subscription. Tells whether it is new.
fn put_subscription(v: &mut Vec<Subscription>, name: &[u8], id: u64) -> (r: bool)
    ensures
        subs(final(v)@) == added(subs(old(v)@), name@, id),
        r == !subs(old(v)@).contains((name@, id)),
{
    let ghost all = subs(v@);
    let mut i: usize = 0;
    while i < v.len()
        invariant
            i <= v@.len(),
            all == subs(v@),
            forall|k: int| 0 <= k < i ==> #[trigger] all[k] != (name@, id),
        decreases v@.len() - i,
    {
        if v[i].client == id && same(&v[i].name, name) {
            assert(all[i as int] == (name@, id));
            return false;
        }
        i += 1;
    }
    let s = Subscription { name: dup(name), client: id };
    proof {
        lemma_subs_push(v@, s);
    }
    v.push(s);
    true
}

/// A subscription, copied.
fn copy_subscription(s: &Subscription) -> (r: Subscription)
    ensures
        r.name@ == s.name@ && r.client == s.client,
{
    Subscription { name: dup(&s.name), client: s.client }
}

/// Removes a subscription. Tells whether it was there.
fn drop_subscription(v: &mut Vec<Subscription>, name: &[u8], id: u64) -> (r: bool)
    ensures
        subs(final(v)@) == without(subs(old(v)@), name@, id),
        r == subs(old(v)@).contains((name@, id)),
{
    let ghost all = subs(v@);
    let mut kept: Vec<Subscription> = Vec::new();
    let mut found: bool = false;
    let mut i: usize = 0;
    assert(subs(kept@) =~= without(all.take(0), name@, id));
    while i < v.len()
        invariant
            i <= v@.len(),
            all == subs(v@),
            subs(kept@) == without(all.take(i as int), name@, id),
            found == exists|k: int| 0 <= k < i && #[trigger] all[k] == (name@, id),
        decreases v@.len() - i,
    {
        proof {
            assert(all.take(i + 1).drop_last() =~= all.take(i as int));
            assert(all.take(i + 1).last() == all[i as int]);
        }
        if v[i].client == id && same(&v[i].name, name) {
            found = true;
        } else {
            let s: Subscription = copy_subscription(&v[i]);
            proof {
                lemma_subs_push(kept@, s);
            }
            kept.push(s);
        }
        i += 1;
    }
    assert(all.take(all.len() as int) =~= all);
    *v = kept;
    found
}

/// Removes the subscriptions of a client.
fn drop_subscriptions(v: &mut Vec<Subscription>, id: u64)
    ensures
        subs(final(v)@) == without_client(subs(old(v)@), id),
{
    let ghost all = subs(v@);
    let mut kept: Vec<Subscription> = Vec::new();
    let mut i: usize = 0;
    assert(subs(kept@) =~= without_client(all.take(0), id));
    while i < v.len()
        invariant
            i <= v@.len(),
            all == subs(v@),
            subs(kept@) == without_client(all.take(i as int), id),
        decreases v@.len() - i,
    {
        proof {
            assert(all.take(i + 1).drop_last() =~= all.take(i as int));
            assert(all.take(i + 1).last() == all[i as int]);
        }
        if v[i].client != id {
            let s: Subscription = copy_subscription(&v[i]);
            proof {
                lemma_subs_push(kept@, s);
            }
            kept.push(s);
        }
        i += 1;
    }
    assert(all.take(all.len() as int) =~= all);
    *v = kept;
}

/// What a client listens to.
fn held_by(v: &Vec<Subscription>, id: u64) -> (r: Vec<Vec<u8>>)
    ensures
        views(r@) == held(subs(v@), id),
{
    let ghost all = subs(v@);
    let mut r: Vec<Vec<u8>> = Vec::new();
    let mut i: usize = 0;
    assert(views(r@) =~= held(all.take(0), id));
    while i < v.len()
        invariant
            i <= v@.len(),
            all == subs(v@),
            views(r@) == held(all.take(i as int), id),
        decreases v@.len() - i,
    {
        proof {
            assert(all.take(i + 1).drop_last() =~= all.take(i as int));
            assert(all.take(i + 1).last() == all[i as int]);
        }
        if v[i].client == id {
            r.push(dup(&v[i].name));
        }
        i += 1;
    }
    assert(all.take(all.len() as int) =~= all);
    r
}

/// Who listens to a name.
fn listeners_of(v: &Vec<Subscription>, name: &[u8]) -> (r: Vec<u64>)
    ensures
        r@ == listeners(subs(v@), name@),
{
    let ghost all = subs(v@);
    let mut r: Vec<u64> = Vec::new();
    let mut i: usize = 0;
    assert(r@ =~= listeners(all.take(0), name@));
    while i < v.len()
        invariant
            i <= v@.len(),
            all == subs(v@),
            r@ == listeners(all.take(i as int), name@),
        decreases v@.len() - i,
    {
        proof {
            assert(all.take(i + 1).drop_last() =~= all.take(i as int));
            assert(all.take(i + 1).last() == all[i as int]);
        }
        if same(&v[i].name, name) {
            r.push(v[i].client);
        }
        i += 1;
    }
    assert(all.take(all.len() as int) =~= all);
    r
}

/// The names that are listened to.
fn names_of(v: &Vec<Subscription>) -> (r: Vec<Vec<u8>>)
    ensures
        views(r@) == names(subs(v@)),
{
    let ghost all = subs(v@);
    let mut r: Vec<Vec<u8>> = Vec::new();
    let mut i: usize = 0;
    assert(views(r@) =~= names(all.take(0)));
    while i < v.len()
        invariant
            i <= v@.len(),
            all == subs(v@),
            views(r@) == names(all.take(i as int)),
        decreases v@.len() - i,
    {
        proof {
            assert(all.take(i + 1).drop_last() =~= all.take(i as int));
            assert(all.take(i + 1).last() == all[i as int]);
        }
        let there: bool = is_member(&r, &v[i].name);
        if !there {
            r.push(dup(&v[i].name));
        }
        i += 1;
    }
    assert(all.take(all.len() as int) =~= all);
    r
}

/// How many channels and patterns a client listens to.
pub fn pubsub_subscription_count(reg: &PubSubRegistry, id: u64) -> (r: i64)
    ensures
        r == clipped(subscription_count(reg@, id)),
{
    let a: Vec<Vec<u8>> = held_by(&reg.channels, id);
    let b: Vec<Vec<u8>> = held_by(&reg.patterns, id);
    assert(views(a@).len() == a@.len() && views(b@).len() == b@.len());
    let n: u128 = a.len() as u128 + b.len() as u128;
    if n > i64::MAX as u128 {
        i64::MAX
    } else {
        n as i64
    }
}

// ---------------------------------------------------------------------------
// SUBSCRIBE, PSUBSCRIBE
// ---------------------------------------------------------------------------

/// The word of a notice about a channel or a pattern.
pub open spec fn notice_word(patterns: bool, subscribed: bool) -> Seq<char> {
    if patterns {
        if subscribed {
            "psubscribe"@
        } else {
            "punsubscribe"@
        }
    } else {
        if subscribed {
            "subscribe"@
        } else {
            "unsubscribe"@
        }
    }
}

/// A notice: what happened, to which channel or pattern, and how many the client
/// now listens to.
pub open spec fn notice(word: Seq<char>, name: Option<Seq<u8>>, count: nat) -> Seq<Tok> {
    seq![Tok::Push(3), bulk(word), bulk_or_null(name), Tok::Int(clipped(count) as int)]
}

/// The registry with one more subscription.
pub open spec fn joined(r: RegistryV, name: Seq<u8>, id: u64, patterns: bool) -> RegistryV {
    if patterns {
        RegistryV { patterns: added(r.patterns, name, id), ..r }
    } else {
        RegistryV { channels: added(r.channels, name, id), ..r }
    }
}

/// The registry with one subscription less.
pub open spec fn parted(r: RegistryV, name: Seq<u8>, id: u64, patterns: bool) -> RegistryV {
    if patterns {
        RegistryV { patterns: without(r.patterns, name, id), ..r }
    } else {
        RegistryV { channels: without(r.channels, name, id), ..r }
    }
}

/// Subscriptions to names, one by one: the registry after them, and the notices.
pub open spec fn joined_all(
    r: RegistryV,
    ns: Seq<Seq<u8>>,
    id: u64,
    patterns: bool,
) -> (RegistryV, Seq<Tok>)
    decreases ns.len(),
{
    if ns.len() == 0 {
        (r, Seq::empty())
    } else {
        let (r0, t0) = joined_all(r, ns.drop_last(), id, patterns);
        let r1 = joined(r0, ns.last(), id, patterns);
        (
            r1,
            t0 + notice(
                notice_word(patterns, true),
                Some(ns.last()),
                subscription_count(r1, id),
            ),
        )
    }
}

/// Ends of subscriptions to names, one by one: the registry after them, and the
/// notices.
pub open spec fn parted_all(
    r: RegistryV,
    ns: Seq<Seq<u8>>,
    id: u64,
    patterns: bool,
) -> (RegistryV, Seq<Tok>)
    decreases ns.len(),
{
    if ns.len() == 0 {
        (r, Seq::empty())
    } else {
        let (r0, t0) = parted_all(r, ns.drop_last(), id, patterns);
        let r1 = parted(r0, ns.last(), id, patterns);
        (
            r1,
            t0 + notice(
                notice_word(patterns, false),
                Some(ns.last()),
                subscription_count(r1, id),
            ),
        )
    }
}

/// How SUBSCRIBE and PSUBSCRIBE end.
pub open spec fn subscribe_step(c: CtxV, r: RegistryV, patterns: bool) -> (Outcome, RegistryV) {
    let argv = c.client.argv;
    if argv.len() < 2 {
        (fails(c, wrong_args(notice_word(patterns, true))), r)
    } else {
        let (r1, ts) = joined_all(r, argv.skip(1), c.client.id, patterns);
        (replies(c, ts), r1)
    }
}

/// The word of a notice.
fn notice_name(patterns: bool, subscribed: bool) -> (r: &'static str)
    ensures
        r@ == notice_word(patterns, subscribed),
{
    if patterns {
        if subscribed {
            "psubscribe"
        } else {
            "punsubscribe"
        }
    } else {
        if subscribed {
            "subscribe"
        } else {
            "unsubscribe"
        }
    }
}

/// Appends a notice.
fn put_notice(out: &mut Vec<Reply>, word: &str, name: Option<Vec<u8>>, count: i64)
    ensures
        forall|n: nat|
            count == #[trigger] clipped(n) ==> toks(final(out)@) == toks(old(out)@) + notice(
                word@,
                opt_view(name),
                n,
            ),
{
    out.push(Reply::Push(3));
    out.push(bulk_text(word));
    match name {
        Some(b) => out.push(Reply::Bulk(b)),
        None => out.push(Reply::NullBulk),
    }
    out.push(Reply::Int(count));
    assert forall|n: nat| count == #[trigger] clipped(n) implies toks(out@) == toks(old(out)@)
        + notice(word@, opt_view(name), n) by {
        assert(toks(out@) =~= toks(old(out)@) + notice(word@, opt_view(name), n));
    }
}

/// Subscribes the client to the names in the arguments.
fn subscribe_generic(ctx: &mut CommandContext, reg: &mut PubSubRegistry, patterns: bool) -> (r:
    Result<(), RedisError>)
    requires
        old(ctx).wf(),
    ensures
        final(ctx).wf(),
        (done(r, final(ctx)@), final(reg)@) == subscribe_step(old(ctx)@, old(reg)@, patterns),
{
    let ghost c = ctx@;
    let ghost r0 = reg@;
    let ghost ns = c.client.argv.skip(1);
    let argc: usize = ctx.arg_count();
    if argc < 2 {
        return Err(RedisError::wrong_number_of_args(notice_name(patterns, true)));
    }
    let id: u64 = ctx.client.id;
    let mut ts: Vec<Reply> = Vec::new();
    let mut i: usize = 1;
    assert(ns.take(0) =~= Seq::empty());
    assert(toks(ts@) =~= Seq::empty());
    while i < argc
        invariant
            1 <= i <= argc == c.client.argv.len(),
            ctx@ == c,
            ctx.wf(),
            *ctx == *old(ctx),
            id == c.client.id,
            ns == c.client.argv.skip(1),
            (reg@, toks(ts@)) == joined_all(r0, ns.take(i - 1), id, patterns),
        decreases argc - i,
    {
        let name: Vec<u8> = ctx.arg_owned(i);
        assert(ns.take(i as int).drop_last() =~= ns.take(i - 1));
        assert(ns.take(i as int).last() == name@);
        let _new: bool = if patterns {
            put_subscription(&mut reg.patterns, &name, id)
        } else {
            put_subscription(&mut reg.channels, &name, id)
        };
        let n: i64 = pubsub_subscription_count(reg, id);
        put_notice(&mut ts, notice_name(patterns, true), Some(name), n);
        i += 1;
    }
    assert(ns.take(ns.len() as int) =~= ns);
    ctx.reply_all(ts);
    Ok(())
}

/// SUBSCRIBE channel [channel ...]
pub fn subscribe_command(ctx: &mut CommandContext, reg: &mut PubSubRegistry) -> (r: Result<
    (),
    RedisError,
>)
    requires
        old(ctx).wf(),
    ensures
        final(ctx).wf(),
        (done(r, final(ctx)@), final(reg)@) == subscribe_step(old(ctx)@, old(reg)@, false),
{
    subscribe_generic(ctx, reg, false)
}

/// PSUBSCRIBE pattern [pattern ...]
pub fn psubscribe_command(ctx: &mut CommandContext, reg: &mut PubSubRegistry) -> (r: Result<
    (),
    RedisError,
>)
    requires
        old(ctx).wf(),
    ensures
        final(ctx).wf(),
        (done(r, final(ctx)@), final(reg)@) == subscribe_step(old(ctx)@, old(reg)@, true),
{
    subscribe_generic(ctx, reg, true)
}

// ---------------------------------------------------------------------------
// UNSUBSCRIBE, PUNSUBSCRIBE
// ---------------------------------------------------------------------------

/// How UNSUBSCRIBE and PUNSUBSCRIBE end. Without arguments they end all
/// subscriptions of the client.
pub open spec fn unsubscribe_step(c: CtxV, r: RegistryV, patterns: bool) -> (Outcome, RegistryV) {
    let argv = c.client.argv;
    let ns = if argv.len() <= 1 {
        held(
            if patterns {
                r.patterns
            } else {
                r.channels
            },
            c.client.id,
        )
    } else {
        argv.skip(1)
    };
    if ns.len() == 0 {
        (
            replies(
                c,
                notice(notice_word(patterns, false), None, subscription_count(r, c.client.id)),
            ),
            r,
        )
    } else {
        let (r1, ts) = parted_all(r, ns, c.client.id, patterns);
        (replies(c, ts), r1)
    }
}

/// The arguments from the second on.
fn names_given(ctx: &CommandContext) -> (r: Vec<Vec<u8>>)
    requires
        ctx@.client.argv.len() > 1,
    ensures
        views(r@) == ctx@.client.argv.skip(1),
{
    let ghost all = ctx@.client.argv;
    let argc: usize = ctx.arg_count();
    let mut r: Vec<Vec<u8>> = Vec::new();
    let mut i: usize = 1;
    assert(views(r@) =~= all.subrange(1, 1));
    while i < argc
        invariant
            1 <= i <= argc == all.len(),
            all == ctx@.client.argv,
            views(r@) == all.subrange(1, i as int),
        decreases argc - i,
    {
        r.push(ctx.arg_owned(i));
        assert(views(r@) =~= all.subrange(1, i + 1));
        i += 1;
    }
    assert(all.subrange(1, i as int) =~= all.skip(1));
    r
}

/// Ends subscriptions of the client.
fn unsubscribe_generic(ctx: &mut CommandContext, reg: &mut PubSubRegistry, patterns: bool) -> (r:
    Result<(), RedisError>)
    requires
        old(ctx).wf(),
    ensures
        final(ctx).wf(),
        (done(r, final(ctx)@), final(reg)@) == unsubscribe_step(old(ctx)@, old(reg)@, patterns),
{
    let ghost c = ctx@;
    let ghost r0 = reg@;
    let id: u64 = ctx.client.id;
    let targets: Vec<Vec<u8>> = if ctx.arg_count() <= 1 {
        if patterns {
            held_by(&reg.patterns, id)
        } else {
            held_by(&reg.channels, id)
        }
    } else {
        names_given(ctx)
    };
    let ghost ns = views(targets@);
    let mut ts: Vec<Reply> = Vec::new();
    assert(toks(ts@) =~= Seq::empty());
    if targets.len() == 0 {
        let n: i64 = pubsub_subscription_count(reg, id);
        put_notice(&mut ts, notice_name(patterns, false), None, n);
        proof {
            let t = notice(notice_word(patterns, false), None, subscription_count(r0, id));
            assert(Seq::<Tok>::empty() + t =~= t);
        }
        ctx.reply_all(ts);
        return Ok(());
    }
    let mut i: usize = 0;
    assert(ns.take(0) =~= Seq::empty());
    while i < targets.len()
        invariant
            i <= targets@.len(),
            ctx@ == c,
            ctx.wf(),
            *ctx == *old(ctx),
            id == c.client.id,
            ns == views(targets@),
            (reg@, toks(ts@)) == parted_all(r0, ns.take(i as int), id, patterns),
        decreases targets@.len() - i,
    {
        let name: Vec<u8> = dup(&targets[i]);
        assert(ns.take(i + 1).drop_last() =~= ns.take(i as int));
        assert(ns.take(i + 1).last() == name@);
        let _was: bool = if patterns {
            drop_subscription(&mut reg.patterns, &name, id)
        } else {
            drop_subscription(&mut reg.channels, &name, id)
        };
        let n: i64 = pubsub_subscription_count(reg, id);
        put_notice(&mut ts, notice_name(patterns, false), Some(name), n);
        i += 1;
    }
    assert(ns.take(ns.len() as int) =~= ns);
    ctx.reply_all(ts);
    Ok(())
}

/// UNSUBSCRIBE [channel ...]
pub fn unsubscribe_command(ctx: &mut CommandContext, reg: &mut PubSubRegistry) -> (r: Result<
    (),
    RedisError,
>)
    requires
        old(ctx).wf(),
    ensures
        final(ctx).wf(),
        (done(r, final(ctx)@), final(reg)@) == unsubscribe_step(old(ctx)@, old(reg)@, false),
{
    unsubscribe_generic(ctx, reg, false)
}

/// PUNSUBSCRIBE [pattern ...]
pub fn punsubscribe_command(ctx: &mut CommandContext, reg: &mut PubSubRegistry) -> (r: Result<
    (),
    RedisError,
>)
    requires
        old(ctx).wf(),
    ensures
        final(ctx).wf(),
        (done(r, final(ctx)@), final(reg)@) == unsubscribe_step(old(ctx)@, old(reg)@, true),
{
    unsubscribe_generic(ctx, reg, true)
}

// ---------------------------------------------------------------------------
// Peers
// ---------------------------------------------------------------------------

/// The version of the protocol of a client, where it can be reached.
pub open spec fn reach(peers: Seq<Peer>, id: u64) -> Option<bool>
    decreases peers.len(),
{
    if peers.len() == 0 {
        None
    } else if peers.last().id == id {
        Some(peers.last().resp3)
    } else {
        reach(peers.drop_last(), id)
    }
}

/// The version of the protocol of a client, where it can be reached.
fn find_peer(peers: &Vec<Peer>, id: u64) -> (r: Option<bool>)
    ensures
        r == reach(peers@, id),
{
    let mut i: usize = peers.len();
    assert(peers@.take(i as int) =~= peers@);
    while i > 0
        invariant
            i <= peers@.len(),
            reach(peers@, id) == reach(peers@.take(i as int), id),
        decreases i,
    {
        assert(peers@.take(i as int).drop_last() =~= peers@.take(i - 1));
        assert(peers@.take(i as int).last() == peers@[i - 1]);
        if peers[i - 1].id == id {
            return Some(peers[i - 1].resp3);
        }
        i -= 1;
    }
    None
}

/// The peers without one.
pub open spec fn peers_without(peers: Seq<Peer>, id: u64) -> Seq<Peer>
    decreases peers.len(),
{
    if peers.len() == 0 {
        peers
    } else {
        let before = peers_without(peers.drop_last(), id);
        if peers.last().id == id {
            before
        } else {
            before.push(peers.last())
        }
    }
}

/// Removes a peer.
fn drop_peer(peers: &mut Vec<Peer>, id: u64)
    ensures
        final(peers)@ == peers_without(old(peers)@, id),
{
    let ghost all = peers@;
    let mut kept: Vec<Peer> = Vec::new();
    let mut i: usize = 0;
    assert(kept@ =~= peers_without(all.take(0), id));
    while i < peers.len()
        invariant
            i <= peers@.len(),
            all == peers@,
            kept@ == peers_without(all.take(i as int), id),
        decreases peers@.len() - i,
    {
        proof {
            assert(all.take(i + 1).drop_last() =~= all.take(i as int));
            assert(all.take(i + 1).last() == all[i as int]);
        }
        if peers[i].id != id {
            kept.push(peers[i]);
        }
        i += 1;
    }
    assert(all.take(all.len() as int) =~= all);
    *peers = kept;
}

/// Notes that a client can be reached, with the version of its protocol.
pub fn register_sender(reg: &mut PubSubRegistry, id: u64, resp3: bool)
    ensures
        final(reg)@ == (RegistryV {
            peers: peers_without(old(reg)@.peers, id).push(Peer { id, resp3 }),
            ..old(reg)@
        }),
{
    drop_peer(&mut reg.peers, id);
    reg.peers.push(Peer { id, resp3 });
}

/// Forgets a client that has gone: its subscriptions, and how to reach it. Tells
/// how many subscriptions it had.
pub fn drop_client_from_registry(reg: &mut PubSubRegistry, id: u64) -> (r: i64)
    ensures
        r == clipped(subscription_count(old(reg)@, id)),
        final(reg)@ == (RegistryV {
            channels: without_client(old(reg)@.channels, id),
            patterns: without_client(old(reg)@.patterns, id),
            peers: peers_without(old(reg)@.peers, id),
        }),
{
    let n: i64 = pubsub_subscription_count(reg, id);
    drop_subscriptions(&mut reg.channels, id);
    drop_subscriptions(&mut reg.patterns, id);
    drop_peer(&mut reg.peers, id);
    n
}

// ---------------------------------------------------------------------------
// PUBLISH
// ---------------------------------------------------------------------------

/// A message, for a client that listens to its channel.
pub open spec fn message(channel: Seq<u8>, m: Seq<u8>) -> Seq<Tok> {
    seq![Tok::Push(3), bulk("message"@), Tok::Bulk(channel), Tok::Bulk(m)]
}

/// A message, for a client that listens to a pattern.
pub open spec fn pmessage(pattern: Seq<u8>, channel: Seq<u8>, m: Seq<u8>) -> Seq<Tok> {
    seq![
        Tok::Push(4),
        bulk("pmessage"@),
        Tok::Bulk(pattern),
        Tok::Bulk(channel),
        Tok::Bulk(m),
    ]
}

/// A message to each client that can be reached, in its protocol.
pub open spec fn sends(peers: Seq<Peer>, ids: Seq<u64>, ts: Seq<Tok>) -> Seq<DeliveryV>
    decreases ids.len(),
{
    if ids.len() == 0 {
        Seq::empty()
    } else {
        let before = sends(peers, ids.drop_last(), ts);
        match reach(peers, ids.last()) {
            Some(resp3) => before.push(
                DeliveryV { client_id: ids.last(), frame: wire_all(ts, resp3) },
            ),
            None => before,
        }
    }
}

/// The messages to those who listen to patterns that the channel matches.
pub open spec fn pattern_sends(
    r: RegistryV,
    pats: Seq<Seq<u8>>,
    channel: Seq<u8>,
    m: Seq<u8>,
) -> Seq<DeliveryV>
    decreases pats.len(),
{
    if pats.len() == 0 {
        Seq::empty()
    } else {
        let before = pattern_sends(r, pats.drop_last(), channel, m);
        let p = pats.last();
        if glob(p, channel) {
            before + sends(r.peers, listeners(r.patterns, p), pmessage(p, channel, m))
        } else {
            before
        }
    }
}

/// The messages that a published one becomes.
pub open spec fn deliveries(r: RegistryV, channel: Seq<u8>, m: Seq<u8>) -> Seq<DeliveryV> {
    sends(r.peers, listeners(r.channels, channel), message(channel, m)) + pattern_sends(
        r,
        names(r.patterns),
        channel,
        m,
    )
}

/// Sends a message to each client that can be reached.
fn send_all(out: &mut Vec<Delivery>, peers: &Vec<Peer>, ids: &Vec<u64>, ts: &Vec<Reply>)
    ensures
        delivery_views(final(out)@) == delivery_views(old(out)@) + sends(
            peers@,
            ids@,
            toks(ts@),
        ),
{
    let ghost start = delivery_views(out@);
    let ghost t = toks(ts@);
    let mut i: usize = 0;
    assert(delivery_views(out@) =~= start + sends(peers@, ids@.take(0), t));
    while i < ids.len()
        invariant
            i <= ids@.len(),
            t == toks(ts@),
            delivery_views(out@) == start + sends(peers@, ids@.take(i as int), t),
        decreases ids@.len() - i,
    {
        let ghost before = out@;
        proof {
            assert(ids@.take(i + 1).drop_last() =~= ids@.take(i as int));
            assert(ids@.take(i + 1).last() == ids@[i as int]);
        }
        match find_peer(peers, ids[i]) {
            Some(resp3) => {
                let d = Delivery { client_id: ids[i], frame: encode_replies(ts, resp3) };
                proof {
                    lemma_deliveries_push(before, d);
                }
                out.push(d);
                assert(delivery_views(out@) =~= start + sends(peers@, ids@.take(i + 1), t));
            },
            None => {},
        }
        i += 1;
    }
    assert(ids@.take(ids@.len() as int) =~= ids@);
}

/// The tokens of a message.
fn message_replies(channel: &[u8], m: &[u8]) -> (r: Vec<Reply>)
    ensures
        toks(r@) == message(channel@, m@),
{
    let mut r: Vec<Reply> = Vec::new();
    r.push(Reply::Push(3));
    r.push(bulk_text("message"));
    r.push(Reply::Bulk(dup(channel)));
    r.push(Reply::Bulk(dup(m)));
    assert(toks(r@) =~= message(channel@, m@));
    r
}

/// The tokens of a message for a pattern.
fn pmessage_replies(pattern: &[u8], channel: &[u8], m: &[u8]) -> (r: Vec<Reply>)
    ensures
        toks(r@) == pmessage(pattern@, channel@, m@),
{
    let mut r: Vec<Reply> = Vec::new();
    r.push(Reply::Push(4));
    r.push(bulk_text("pmessage"));
    r.push(Reply::Bulk(dup(pattern)));
    r.push(Reply::Bulk(dup(channel)));
    r.push(Reply::Bulk(dup(m)));
    assert(toks(r@) =~= pmessage(pattern@, channel@, m@));
    r
}

/// The messages that a published one becomes.
fn publish_to(reg: &PubSubRegistry, channel: &[u8], m: &[u8]) -> (r: Vec<Delivery>)
    ensures
        delivery_views(r@) == deliveries(reg@, channel@, m@),
{
    let mut out: Vec<Delivery> = Vec::new();
    assert(delivery_views(out@) =~= Seq::empty());
    let ids: Vec<u64> = listeners_of(&reg.channels, channel);
    let ts: Vec<Reply> = message_replies(channel, m);
    send_all(&mut out, &reg.peers, &ids, &ts);
    let ghost first = sends(reg@.peers, listeners(reg@.channels, channel@), message(channel@, m@));
    assert(Seq::<DeliveryV>::empty() + first =~= first);
    let pats: Vec<Vec<u8>> = names_of(&reg.patterns);
    let ghost ps = views(pats@);
    let mut i: usize = 0;
    assert(first + pattern_sends(reg@, ps.take(0), channel@, m@) =~= first);
    while i < pats.len()
        invariant
            i <= pats@.len(),
            ps == views(pats@),
            delivery_views(out@) == first + pattern_sends(reg@, ps.take(i as int), channel@, m@),
        decreases pats@.len() - i,
    {
        proof {
            assert(ps.take(i + 1).drop_last() =~= ps.take(i as int));
            assert(ps.take(i + 1).last() == ps[i as int]);
            assert(ps[i as int] == pats@[i as int]@);
        }
        if glob_match(&pats[i], channel) {
            let ids: Vec<u64> = listeners_of(&reg.patterns, &pats[i]);
            let ts: Vec<Reply> = pmessage_replies(&pats[i], channel, m);
            let ghost more = sends(
                reg@.peers,
                listeners(reg@.patterns, ps[i as int]),
                pmessage(ps[i as int], channel@, m@),
            );
            let ghost before = pattern_sends(reg@, ps.take(i as int), channel@, m@);
            send_all(&mut out, &reg.peers, &ids, &ts);
            assert(first + before + more =~= first + (before + more));
        }
        i += 1;
    }
    assert(ps.take(ps.len() as int) =~= ps);
    out
}

/// How PUBLISH ends.
pub open spec fn publish_outcome(c: CtxV, r: RegistryV) -> Outcome {
    let argv = c.client.argv;
    if argv.len() != 3 {
        fails(c, wrong_args("publish"@))
    } else {
        let out = deliveries(r, argv[1], argv[2]);
        replies_one(
            CtxV { outbox: c.outbox + out, ..c },
            Tok::Int(clipped(out.len()) as int),
        )
    }
}

/// PUBLISH channel message
pub fn publish_command(ctx: &mut CommandContext, reg: &PubSubRegistry) -> (r: Result<
    (),
    RedisError,
>)
    requires
        old(ctx).wf(),
    ensures
        final(ctx).wf(),
        done(r, final(ctx)@) == publish_outcome(old(ctx)@, reg@),
{
    if ctx.arg_count() != 3 {
        return Err(RedisError::wrong_number_of_args("publish"));
    }
    let channel: Vec<u8> = ctx.arg_owned(1);
    let m: Vec<u8> = ctx.arg_owned(2);
    let mut out: Vec<Delivery> = publish_to(reg, &channel, &m);
    let n: usize = out.len();
    assert(delivery_views(out@).len() == n);
    proof {
        assert(delivery_views(ctx.outbox@ + out@) =~= delivery_views(ctx.outbox@)
            + delivery_views(out@));
    }
    ctx.outbox.append(&mut out);
    ctx.reply_integer(counted(n))
}

// ---------------------------------------------------------------------------
// PUBSUB
// ---------------------------------------------------------------------------

/// The names that a pattern matches; without a pattern, all.
pub open spec fn matching(ns: Seq<Seq<u8>>, pattern: Option<Seq<u8>>) -> Seq<Seq<u8>>
    decreases ns.len(),
{
    if ns.len() == 0 {
        ns
    } else {
        let before = matching(ns.drop_last(), pattern);
        match pattern {
            Some(p) if !glob(p, ns.last()) => before,
            _ => before.push(ns.last()),
        }
    }
}

/// The names that a pattern matches.
fn matching_names(ns: &Vec<Vec<u8>>, pattern: &Option<Vec<u8>>) -> (r: Vec<Vec<u8>>)
    ensures
        views(r@) == matching(views(ns@), opt_view(*pattern)),
{
    let ghost all = views(ns@);
    let mut r: Vec<Vec<u8>> = Vec::new();
    let mut i: usize = 0;
    assert(views(r@) =~= matching(all.take(0), opt_view(*pattern)));
    while i < ns.len()
        invariant
            i <= ns@.len(),
            all == views(ns@),
            views(r@) == matching(all.take(i as int), opt_view(*pattern)),
        decreases ns@.len() - i,
    {
        proof {
            assert(all.take(i + 1).drop_last() =~= all.take(i as int));
            assert(all.take(i + 1).last() == ns@[i as int]@);
        }
        let fits: bool = match pattern {
            Some(p) => glob_match(p, &ns[i]),
            None => true,
        };
        if fits {
            r.push(dup(&ns[i]));
        }
        i += 1;
    }
    assert(all.take(all.len() as int) =~= all);
    r
}

/// How many listen to each of some channels.
pub open spec fn numsub_toks(r: RegistryV, ns: Seq<Seq<u8>>) -> Seq<Tok>
    decreases ns.len(),
{
    if ns.len() == 0 {
        Seq::empty()
    } else {
        numsub_toks(r, ns.drop_last()) + seq![
            Tok::Bulk(ns.last()),
            Tok::Int(clipped(listeners(r.channels, ns.last()).len()) as int),
        ]
    }
}

/// The error of what needs shards.
pub open spec fn no_shards() -> ErrV {
    runtime("ERR sharded pub/sub not yet implemented"@)
}

/// The lines of PUBSUB HELP.
pub open spec fn pubsub_help() -> Seq<Tok> {
    seq![
        Tok::Array(7),
        bulk("CHANNELS [<pattern>]"@),
        bulk("    Return the currently active channels matching a <pattern> (default: '*')."@),
        bulk("NUMPAT"@),
        bulk("    Return number of subscriptions to patterns."@),
        bulk("NUMSUB [<channel> ...]"@),
        bulk("    Return the number of subscribers for the specified channels, excluding"@),
        bulk("    pattern subscriptions (default: no channels)."@),
    ]
}

/// The lines of PUBSUB HELP.
fn pubsub_help_lines() -> (r: Vec<Reply>)
    ensures
        toks(r@) == pubsub_help(),
{
    let mut out: Vec<Reply> = Vec::new();
    out.push(Reply::Array(7));
    out.push(bulk_text("CHANNELS [<pattern>]"));
    out.push(bulk_text("    Return the currently active channels matching a <pattern> (default: '*')."));
    out.push(bulk_text("NUMPAT"));
    out.push(bulk_text("    Return number of subscriptions to patterns."));
    out.push(bulk_text("NUMSUB [<channel> ...]"));
    out.push(bulk_text("    Return the number of subscribers for the specified channels, excluding"));
    out.push(bulk_text("    pattern subscriptions (default: no channels)."));
    assert(toks(out@) =~= pubsub_help());
    out
}

/// How PUBSUB ends.
pub open spec fn pubsub_outcome(c: CtxV, r: RegistryV) -> Outcome {
    let argv = c.client.argv;
    if argv.len() < 2 {
        fails(c, wrong_args("pubsub"@))
    } else if is_word(argv[1], "channels"@) && argv.len() <= 3 {
        replies(
            c,
            bulk_array(
                matching(
                    names(r.channels),
                    if argv.len() == 3 {
                        Some(argv[2])
                    } else {
                        None
                    },
                ),
            ),
        )
    } else if is_word(argv[1], "numsub"@) {
        replies(
            c,
            seq![Tok::Array((2 * (argv.len() - 2)) as nat)] + numsub_toks(r, argv.skip(2)),
        )
    } else if is_word(argv[1], "numpat"@) && argv.len() == 2 {
        replies_one(c, Tok::Int(clipped(names(r.patterns).len()) as int))
    } else if is_word(argv[1], "shardchannels"@) || is_word(argv[1], "shardnumsub"@) {
        fails(c, no_shards())
    } else if is_word(argv[1], "help"@) && argv.len() == 2 {
        replies(c, pubsub_help())
    } else {
        fails(c, syntax("unknown subcommand or wrong number of arguments"@))
    }
}

/// The reply of PUBSUB NUMSUB.
fn numsub_replies(ctx: &CommandContext, reg: &PubSubRegistry) -> (r: Vec<Reply>)
    requires
        ctx@.client.argv.len() >= 2,
    ensures
        toks(r@) == seq![Tok::Array((2 * (ctx@.client.argv.len() - 2)) as nat)] + numsub_toks(
            reg@,
            ctx@.client.argv.skip(2),
        ),
{
    let ghost ns = ctx@.client.argv.skip(2);
    let argc: usize = ctx.arg_count();
    let mut r: Vec<Reply> = Vec::new();
    let ghost head = seq![Tok::Array((2 * (argc - 2)) as nat)];
    r.push(Reply::Array(2 * ((argc - 2) as u128)));
    let mut i: usize = 2;
    assert(toks(r@) =~= head + numsub_toks(reg@, ns.take(0)));
    while i < argc
        invariant
            2 <= i <= argc == ctx@.client.argv.len(),
            ns == ctx@.client.argv.skip(2),
            toks(r@) == head + numsub_toks(reg@, ns.take(i - 2)),
        decreases argc - i,
    {
        let name: Vec<u8> = ctx.arg_owned(i);
        let ids: Vec<u64> = listeners_of(&reg.channels, &name);
        proof {
            assert(ns.take(i - 1).drop_last() =~= ns.take(i - 2));
            assert(ns.take(i - 1).last() == name@);
        }
        let ghost before = toks(r@);
        r.push(Reply::Bulk(name));
        r.push(Reply::Int(counted(ids.len())));
        assert(toks(r@) =~= head + numsub_toks(reg@, ns.take(i - 1)));
        i += 1;
    }
    assert(ns.take(ns.len() as int) =~= ns);
    r
}

/// PUBSUB CHANNELS | NUMSUB | NUMPAT | HELP
pub fn pubsub_command(ctx: &mut CommandContext, reg: &PubSubRegistry) -> (r: Result<(), RedisError>)
    requires
        old(ctx).wf(),
    ensures
        final(ctx).wf(),
        done(r, final(ctx)@) == pubsub_outcome(old(ctx)@, reg@),
{
    let argc: usize = ctx.arg_count();
    if argc < 2 {
        return Err(RedisError::wrong_number_of_args("pubsub"));
    }
    let sub: Vec<u8> = ctx.arg_owned(1);
    if word(&sub, "channels") && argc <= 3 {
        let pattern: Option<Vec<u8>> = if argc == 3 {
            Some(ctx.arg_owned(2))
        } else {
            None
        };
        let all: Vec<Vec<u8>> = names_of(&reg.channels);
        let found: Vec<Vec<u8>> = matching_names(&all, &pattern);
        ctx.reply_bulk_array(&found)
    } else if word(&sub, "numsub") {
        let ts: Vec<Reply> = numsub_replies(ctx, reg);
        ctx.reply_all(ts);
        Ok(())
    } else if word(&sub, "numpat") && argc == 2 {
        let all: Vec<Vec<u8>> = names_of(&reg.patterns);
        assert(views(all@).len() == all@.len());
        ctx.reply_integer(counted(all.len()))
    } else if word(&sub, "shardchannels") || word(&sub, "shardnumsub") {
        Err(RedisError::runtime("ERR sharded pub/sub not yet implemented"))
    } else if word(&sub, "help") && argc == 2 {
        ctx.reply_all(pubsub_help_lines());
        Ok(())
    } else {
        Err(RedisError::syntax("unknown subcommand or wrong number of arguments"))
    }
}

/// SPUBLISH is refused.
pub fn spublish_command(_ctx: &mut CommandContext) -> (r: Result<(), RedisError>)
    ensures
        *final(_ctx) == *old(_ctx),
        r matches Err(e) && e@ == no_shards(),
{
    Err(RedisError::runtime("ERR sharded pub/sub not yet implemented"))
}

/// SSUBSCRIBE is refused.
pub fn ssubscribe_command(_ctx: &mut CommandContext) -> (r: Result<(), RedisError>)
    ensures
        *final(_ctx) == *old(_ctx),
        r matches Err(e) && e@ == no_shards(),
{
    Err(RedisError::runtime("ERR sharded pub/sub not yet implemented"))
}

/// SUNSUBSCRIBE is refused.
pub fn sunsubscribe_command(_ctx: &mut CommandContext) -> (r: Result<(), RedisError>)
    ensures
        *final(_ctx) == *old(_ctx),
        r matches Err(e) && e@ == no_shards(),
{
    Err(RedisError::runtime("ERR sharded pub/sub not yet implemented"))
}

// ---------------------------------------------------------------------------
// What a client that listens may do
// ---------------------------------------------------------------------------

/// The error of a command that a listening client may not send.
pub fn subscribe_mode_error(command_name: &[u8]) -> (r: RedisError)
    ensures
        r@ == ErrV::Runtime(
            text("ERR Can't execute '"@) + lower_all(command_name@) + text(
                "': only (P|S)SUBSCRIBE / (P|S)UNSUBSCRIBE / PING / QUIT / RESET are allowed in this context"@,
            ),
        ),
{
    let mut m: Vec<u8> = lit("ERR Can't execute '");
    let lower: Vec<u8> = to_lower(command_name);
    put(&mut m, &lower);
    put_text(
        &mut m,
        "': only (P|S)SUBSCRIBE / (P|S)UNSUBSCRIBE / PING / QUIT / RESET are allowed in this context",
    );
    RedisError::Runtime(m)
}

/// Whether a listening client may send a command.
pub open spec fn allowed_while_listening(name: Seq<u8>) -> bool {
    ||| is_word(name, "subscribe"@)
    ||| is_word(name, "unsubscribe"@)
    ||| is_word(name, "psubscribe"@)
    ||| is_word(name, "punsubscribe"@)
    ||| is_word(name, "ssubscribe"@)
    ||| is_word(name, "sunsubscribe"@)
    ||| is_word(name, "ping"@)
    ||| is_word(name, "quit"@)
    ||| is_word(name, "reset"@)
}

/// Whether a listening client may send a command.
pub fn is_allowed_in_subscribe_mode(name: &[u8]) -> (r: bool)
    ensures
        r == allowed_while_listening(name@),
{
    word(name, "subscribe") || word(name, "unsubscribe") || word(name, "psubscribe") || word(
        name,
        "punsubscribe",
    ) || word(name, "ssubscribe") || word(name, "sunsubscribe") || word(name, "ping") || word(
        name,
        "quit",
    ) || word(name, "reset")
}

// ---------------------------------------------------------------------------
// Laws
// ---------------------------------------------------------------------------

/// To subscribe twice is to subscribe once.
pub proof fn law_subscribing_twice_is_once(r: RegistryV, name: Seq<u8>, id: u64, patterns: bool)
    ensures
        joined(joined(r, name, id, patterns), name, id, patterns) == joined(
            r,
            name,
            id,
            patterns,
        ),
{
    let s = if patterns {
        r.patterns
    } else {
        r.channels
    };
    if !s.contains((name, id)) {
        assert(s.push((name, id))[s.len() as int] == (name, id));
        assert(s.push((name, id)).contains((name, id)));
    }
}

/// Without it nothing changes.
proof fn lemma_without_absent(s: Seq<(Seq<u8>, u64)>, name: Seq<u8>, id: u64)
    requires
        !s.contains((name, id)),
    ensures
        without(s, name, id) == s,
    decreases s.len(),
{
    if s.len() > 0 {
        assert(s[s.len() - 1] == s.last());
        assert forall|x: (Seq<u8>, u64)| s.drop_last().contains(x) implies s.contains(x) by {
            let k = choose|k: int| 0 <= k < s.drop_last().len() && s.drop_last()[k] == x;
            assert(s[k] == x);
        }
        lemma_without_absent(s.drop_last(), name, id);
        assert(s.drop_last().push(s.last()) =~= s);
    }
}

/// A subscription that is ended right away leaves the registry as it was.
pub proof fn law_unsubscribe_undoes_subscribe(r: RegistryV, name: Seq<u8>, id: u64, patterns: bool)
    requires
        !(if patterns {
            r.patterns
        } else {
            r.channels
        }).contains((name, id)),
    ensures
        parted(joined(r, name, id, patterns), name, id, patterns) == r,
{
    let s = if patterns {
        r.patterns
    } else {
        r.channels
    };
    lemma_without_absent(s, name, id);
    assert(s.push((name, id)).drop_last() =~= s);
    assert(without(s.push((name, id)), name, id) == s);
}

/// A client that was dropped listens to nothing and cannot be reached.
pub proof fn law_dropped_client_is_forgotten(r: RegistryV, id: u64)
    ensures
        held(without_client(r.channels, id), id).len() == 0,
        held(without_client(r.patterns, id), id).len() == 0,
        reach(peers_without(r.peers, id), id) is None,
{
    lemma_none_held(r.channels, id);
    lemma_none_held(r.patterns, id);
    lemma_not_reached(r.peers, id);
}

proof fn lemma_none_held(s: Seq<(Seq<u8>, u64)>, id: u64)
    ensures
        held(without_client(s, id), id).len() == 0,
    decreases s.len(),
{
    if s.len() > 0 {
        lemma_none_held(s.drop_last(), id);
        let before = without_client(s.drop_last(), id);
        assert(before.push(s.last()).drop_last() =~= before);
    }
}

proof fn lemma_not_reached(peers: Seq<Peer>, id: u64)
    ensures
        reach(peers_without(peers, id), id) is None,
    decreases peers.len(),
{
    if peers.len() > 0 {
        lemma_not_reached(peers.drop_last(), id);
        let before = peers_without(peers.drop_last(), id);
        assert(before.push(peers.last()).drop_last() =~= before);
    }
}

/// Who listens to a name is among its listeners.
proof fn lemma_listens(s: Seq<(Seq<u8>, u64)>, name: Seq<u8>, id: u64)
    requires
        s.contains((name, id)),
    ensures
        listeners(s, name).contains(id),
    decreases s.len(),
{
    let before = listeners(s.drop_last(), name);
    if s.last() == (name, id) {
        assert(before.push(id)[before.len() as int] == id);
    } else {
        let k = choose|k: int| 0 <= k < s.len() && s[k] == (name, id);
        assert(s.drop_last()[k] == (name, id));
        lemma_listens(s.drop_last(), name, id);
        let j = choose|j: int| 0 <= j < before.len() && before[j] == id;
        if s.last().0 == name {
            assert(before.push(s.last().1)[j] == id);
        }
    }
}

/// A client that is sent to gets the message.
proof fn lemma_sent(peers: Seq<Peer>, ids: Seq<u64>, ts: Seq<Tok>, id: u64)
    requires
        ids.contains(id),
        reach(peers, id) is Some,
    ensures
        sends(peers, ids, ts).contains(
            DeliveryV { client_id: id, frame: wire_all(ts, reach(peers, id)->0) },
        ),
    decreases ids.len(),
{
    let d = DeliveryV { client_id: id, frame: wire_all(ts, reach(peers, id)->0) };
    let before = sends(peers, ids.drop_last(), ts);
    if ids.last() == id {
        assert(before.push(d)[before.len() as int] == d);
    } else {
        let k = choose|k: int| 0 <= k < ids.len() && ids[k] == id;
        assert(ids.drop_last()[k] == id);
        lemma_sent(peers, ids.drop_last(), ts, id);
        let j = choose|j: int| 0 <= j < before.len() && before[j] == d;
        assert(sends(peers, ids, ts)[j] == d);
    }
}

/// A published message reaches every client that listens to its channel and can
/// be reached, in the protocol of that client.
pub proof fn law_subscribers_get_the_message(c: CtxV, r: RegistryV, id: u64)
    requires
        c.client.argv.len() == 3,
        r.channels.contains((c.client.argv[1], id)),
        reach(r.peers, id) is Some,
    ensures
        ({
            let o = publish_outcome(c, r);
            &&& o.result is Ok
            &&& o.ctx.outbox.contains(
                DeliveryV {
                    client_id: id,
                    frame: wire_all(
                        message(c.client.argv[1], c.client.argv[2]),
                        reach(r.peers, id)->0,
                    ),
                },
            )
        }),
{
    let channel = c.client.argv[1];
    let m = c.client.argv[2];
    let ts = message(channel, m);
    let d = DeliveryV { client_id: id, frame: wire_all(ts, reach(r.peers, id)->0) };
    lemma_listens(r.channels, channel, id);
    lemma_sent(r.peers, listeners(r.channels, channel), ts, id);
    let first = sends(r.peers, listeners(r.channels, channel), ts);
    let j = choose|j: int| 0 <= j < first.len() && first[j] == d;
    let all = c.outbox + deliveries(r, channel, m);
    assert(all[c.outbox.len() + j] == d);
}

/// A message on a channel that nobody listens to, and that matches no pattern,
/// is sent to nobody, and the reply is zero.
pub proof fn law_nobody_listens(c: CtxV, r: RegistryV)
    requires
        c.client.argv.len() == 3,
        forall|i: int| 0 <= i < r.channels.len() ==> (#[trigger] r.channels[i]).0 != c.client.argv[1],
        forall|i: int|
            0 <= i < r.patterns.len() ==> !glob((#[trigger] r.patterns[i]).0, c.client.argv[1]),
    ensures
        publish_outcome(c, r) == replies_one(c, Tok::Int(0)),
{
    let channel = c.client.argv[1];
    lemma_no_listeners(r.channels, channel);
    assert forall|i: int| 0 <= i < names(r.patterns).len() implies !glob(
        #[trigger] names(r.patterns)[i],
        channel,
    ) by {
        lemma_names_from(r.patterns, i);
    }
    lemma_no_pattern_sends(r, names(r.patterns), channel, c.client.argv[2]);
    assert(deliveries(r, channel, c.client.argv[2]) =~= Seq::empty());
    assert(c.outbox + Seq::<DeliveryV>::empty() =~= c.outbox);
}

proof fn lemma_no_listeners(s: Seq<(Seq<u8>, u64)>, name: Seq<u8>)
    requires
        forall|i: int| 0 <= i < s.len() ==> (#[trigger] s[i]).0 != name,
    ensures
        listeners(s, name).len() == 0,
    decreases s.len(),
{
    if s.len() > 0 {
        assert forall|i: int| 0 <= i < s.drop_last().len() implies (#[trigger] s.drop_last()[i]).0
            != name by {
            assert(s[i] == s.drop_last()[i]);
        }
        assert(s[s.len() - 1] == s.last());
        lemma_no_listeners(s.drop_last(), name);
    }
}

/// A name that is listened to is the name of a subscription.
proof fn lemma_names_from(s: Seq<(Seq<u8>, u64)>, i: int)
    requires
        0 <= i < names(s).len(),
    ensures
        exists|k: int| 0 <= k < s.len() && (#[trigger] s[k]).0 == names(s)[i],
    decreases s.len(),
{
    if s.len() > 0 {
        let before = names(s.drop_last());
        if i < before.len() {
            lemma_names_from(s.drop_last(), i);
            let k = choose|k: int|
                0 <= k < s.drop_last().len() && (#[trigger] s.drop_last()[k]).0 == before[i];
            assert(s[k] == s.drop_last()[k]);
        } else {
            assert(s[s.len() - 1].0 == names(s)[i]);
        }
    }
}

proof fn lemma_no_pattern_sends(r: RegistryV, pats: Seq<Seq<u8>>, channel: Seq<u8>, m: Seq<u8>)
    requires
        forall|i: int| 0 <= i < pats.len() ==> !glob(#[trigger] pats[i], channel),
    ensures
        pattern_sends(r, pats, channel, m).len() == 0,
    decreases pats.len(),
{
    if pats.len() > 0 {
        assert forall|i: int| 0 <= i < pats.drop_last().len() implies !glob(
            #[trigger] pats.drop_last()[i],
            channel,
        ) by {
            assert(pats[i] == pats.drop_last()[i]);
        }
        assert(pats[pats.len() - 1] == pats.last());
        lemma_no_pattern_sends(r, pats.drop_last(), channel, m);
    }
}

/// The commands that end listening are allowed while listening.
pub proof fn law_listeners_may_stop(name: Seq<u8>)
    ensures
        is_word(name, "unsubscribe"@) || is_word(name, "punsubscribe"@) || is_word(name, "quit"@)
            || is_word(name, "reset"@) ==> allowed_while_listening(name),
{
}

} // verus!
