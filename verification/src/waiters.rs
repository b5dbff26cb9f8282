//! Clients that wait for replicas and for the log: WAIT, WAITAOF, and what
//! wakes them.

use vstd::prelude::*;

use crate::bytes::{
    dup, fmt_u64, i64_of, lemma_views_push, lit, parse_i64, put, put_text, text, views,
};
use crate::context::{
    delivery_views, done, fails, lemma_deliveries_push, lemma_waiters_push, replies, replies_one,
    waiter_views, ActionV, BlockedAction, BlockedWaiter, ClientV, CommandContext, CtxV, Delivery,
    DeliveryV, Outcome, WaiterV,
};
use crate::error::{runtime, wrong_args, ErrV, RedisError};
use crate::persist::PersistState;
use crate::repl_state::{
    acked, aof_acked, repl_appended, ReplRole, ReplV, ReplicaState, ReplicaV, ReplicationState,
};
use crate::reply::{header, lemma_toks_add, lemma_toks_push, put_count, toks, Reply, Tok};
use crate::resp::{command_frame, encode_resp_command};
use crate::stream::{deadline, deadline_at};
use crate::stream_wake::lemma_filter_step;

verus! {

broadcast use {lemma_toks_push, lemma_toks_add, lemma_views_push};

// ---------------------------------------------------------------------------
// Groups of waiting clients
// ---------------------------------------------------------------------------

/// A group of waiting clients.
#[derive(Debug, Clone, Copy, PartialEq, Eq, Structural)]
pub enum WaitGroup {
    /// Those that wait for replicas or for the log.
    Replication,
    /// Those that are unblocked when the role changes.
    Unblocked,
    /// Those that are sent to the new primary when the role changes.
    Redirected,
    /// Those that wait for the local log.
    LocalLog,
}

/// Whether a waiting client belongs to a group.
pub open spec fn in_group(w: WaiterV, g: WaitGroup) -> bool {
    match g {
        WaitGroup::Replication => w.action is Wait || w.action is WaitAof,
        WaitGroup::Unblocked => !w.redirect_on_role_change,
        WaitGroup::Redirected => w.redirect_on_role_change,
        WaitGroup::LocalLog => w.action matches ActionV::WaitAof { numlocal, .. } && numlocal > 0,
    }
}

/// The clients of a group, in the order in which they wait.
pub open spec fn group_ids(ws: Seq<WaiterV>, g: WaitGroup) -> Seq<u64> {
    ws.filter(|w: WaiterV| in_group(w, g)).map_values(|w: WaiterV| w.client_id)
}

/// The waiting clients outside a group.
pub open spec fn outside(ws: Seq<WaiterV>, g: WaitGroup) -> Seq<WaiterV> {
    ws.filter(|w: WaiterV| !in_group(w, g))
}

/// The first occurrence of each number.
pub open spec fn distinct(s: Seq<u64>) -> Seq<u64>
    decreases s.len(),
{
    if s.len() == 0 {
        Seq::empty()
    } else {
        let d = distinct(s.drop_last());
        if d.contains(s.last()) {
            d
        } else {
            d.push(s.last())
        }
    }
}

/// The same frame for some clients.
pub open spec fn frames_for(ids: Seq<u64>, frame: Seq<u8>) -> Seq<DeliveryV> {
    ids.map_values(|id: u64| DeliveryV { client_id: id, frame })
}

/// Whether a waiting client belongs to a group.
fn belongs(w: &BlockedWaiter, g: WaitGroup) -> (r: bool)
    ensures
        r == in_group(w@, g),
{
    match g {
        WaitGroup::Replication => match w.action {
            BlockedAction::Wait { .. } | BlockedAction::WaitAof { .. } => true,
            _ => false,
        },
        WaitGroup::Unblocked => !w.redirect_on_role_change,
        WaitGroup::Redirected => w.redirect_on_role_change,
        WaitGroup::LocalLog => match w.action {
            BlockedAction::WaitAof { numlocal, .. } => numlocal > 0,
            _ => false,
        },
    }
}

/// Takes the clients of a group off the list.
fn take_group(ws: &mut Vec<BlockedWaiter>, g: WaitGroup) -> (r: Vec<u64>)
    ensures
        r@ == group_ids(waiter_views(old(ws)@), g),
        waiter_views(final(ws)@) == outside(waiter_views(old(ws)@), g),
{
    let ghost whole = ws@;
    let ghost all = waiter_views(whole);
    let ghost p = |w: WaiterV| in_group(w, g);
    let ghost q = |w: WaiterV| !in_group(w, g);
    let ghost id = |w: WaiterV| w.client_id;
    let mut ids: Vec<u64> = Vec::new();
    let mut kept: Vec<BlockedWaiter> = Vec::new();
    let ghost mut i: int = 0;
    proof {
        reveal(Seq::filter);
        assert(all.take(0).filter(p) =~= Seq::empty());
        assert(all.take(0).filter(q) =~= Seq::empty());
        assert(waiter_views(kept@) =~= Seq::empty());
        assert(ids@ =~= all.take(0).filter(p).map_values(id));
        assert(whole.skip(0) =~= whole);
    }
    while ws.len() > 0
        invariant
            0 <= i <= whole.len(),
            all == waiter_views(whole),
            ws@ == whole.skip(i),
            p == (|w: WaiterV| in_group(w, g)),
            q == (|w: WaiterV| !in_group(w, g)),
            id == (|w: WaiterV| w.client_id),
            ids@ == all.take(i).filter(p).map_values(id),
            waiter_views(kept@) == all.take(i).filter(q),
        decreases ws@.len(),
    {
        let w: BlockedWaiter = ws.remove(0);
        proof {
            assert(w == whole[i]);
            assert(all[i] == w@);
            lemma_filter_step(all, p, i);
            lemma_filter_step(all, q, i);
            assert(whole.skip(i).remove(0) =~= whole.skip(i + 1));
        }
        if belongs(&w, g) {
            ids.push(w.client_id);
            assert(ids@ =~= all.take(i + 1).filter(p).map_values(id));
        } else {
            proof {
                lemma_waiters_push(kept@, w);
            }
            kept.push(w);
        }
        proof {
            i = i + 1;
        }
    }
    *ws = kept;
    assert(all.take(i) =~= all);
    ids
}

/// The first occurrence of each number.
fn distinct_ids(s: &Vec<u64>) -> (r: Vec<u64>)
    ensures
        r@ == distinct(s@),
{
    let mut r: Vec<u64> = Vec::new();
    let mut i: usize = 0;
    assert(s@.take(0) =~= Seq::empty());
    while i < s.len()
        invariant
            i <= s@.len(),
            r@ == distinct(s@.take(i as int)),
        decreases s@.len() - i,
    {
        let x: u64 = s[i];
        let mut j: usize = 0;
        while j < r.len() && r[j] != x
            invariant
                j <= r@.len(),
                forall|k: int| 0 <= k < j ==> r@[k] != x,
            decreases r@.len() - j,
        {
            j += 1;
        }
        assert(s@.take(i + 1).drop_last() =~= s@.take(i as int));
        if j == r.len() {
            assert(!r@.contains(x));
            r.push(x);
        } else {
            assert(r@[j as int] == x);
        }
        i += 1;
    }
    assert(s@.take(i as int) =~= s@);
    r
}

/// Sends the same frame to some clients.
pub fn send_all(out: &mut Vec<Delivery>, ids: &Vec<u64>, frame: &[u8])
    ensures
        delivery_views(final(out)@) == delivery_views(old(out)@) + frames_for(ids@, frame@),
{
    let ghost first = delivery_views(out@);
    let mut i: usize = 0;
    assert(first =~= first + frames_for(ids@.take(0), frame@));
    while i < ids.len()
        invariant
            i <= ids@.len(),
            delivery_views(out@) == first + frames_for(ids@.take(i as int), frame@),
        decreases ids@.len() - i,
    {
        let d = Delivery { client_id: ids[i], frame: dup(frame) };
        proof {
            lemma_deliveries_push(out@, d);
        }
        let ghost dv = d@;
        out.push(d);
        proof {
            assert(ids@.take(i + 1) =~= ids@.take(i as int).push(ids@[i as int]));
            assert(first + frames_for(ids@.take(i + 1), frame@) =~= (first + frames_for(
                ids@.take(i as int),
                frame@,
            )).push(dv));
        }
        i += 1;
    }
    assert(ids@.take(i as int) =~= ids@);
}

/// The frame for clients that are unblocked because the role changed.
pub open spec fn unblocked_frame() -> Seq<u8> {
    text("-UNBLOCKED force unblock from blocking operation, instance state changed\r\n"@)
}

/// The context after the clients that a change of role unblocks were told.
pub open spec fn role_changed(c: CtxV) -> CtxV {
    let rest = outside(c.blocked, WaitGroup::Replication);
    let ids = distinct(
        group_ids(c.blocked, WaitGroup::Replication) + group_ids(rest, WaitGroup::Unblocked),
    );
    CtxV {
        blocked: outside(rest, WaitGroup::Unblocked),
        outbox: c.outbox + frames_for(ids, unblocked_frame()),
        ..c
    }
}

/// Unblocks the clients that cannot go on waiting when the role changes.
pub fn unblock_replication_role_change(ctx: &mut CommandContext)
    ensures
        final(ctx)@ == role_changed(old(ctx)@),
        final(ctx).db == old(ctx).db,
{
    let mut ids: Vec<u64> = take_group(&mut ctx.blocked, WaitGroup::Replication);
    let mut more: Vec<u64> = take_group(&mut ctx.blocked, WaitGroup::Unblocked);
    ids.append(&mut more);
    let ids: Vec<u64> = distinct_ids(&ids);
    let frame: Vec<u8> = lit(
        "-UNBLOCKED force unblock from blocking operation, instance state changed\r\n",
    );
    send_all(&mut ctx.outbox, &ids, &frame);
}

/// A client that a change of role unblocks, and what it waits for.
pub struct Rejected {
    pub client_id: u64,
    pub action: BlockedAction,
}

/// A client that a change of role unblocks, and what it waits for.
#[verifier::ext_equal]
pub struct RejectedV {
    pub client_id: u64,
    pub action: ActionV,
}

impl View for Rejected {
    type V = RejectedV;

    open spec fn view(&self) -> RejectedV {
        RejectedV { client_id: self.client_id, action: self.action@ }
    }
}

/// Unblocked clients by their views.
pub open spec fn rejected_views(s: Seq<Rejected>) -> Seq<RejectedV> {
    s.map_values(|r: Rejected| r@)
}

/// The numbers of unblocked clients.
pub open spec fn rejected_ids(s: Seq<RejectedV>) -> Seq<u64> {
    s.map_values(|r: RejectedV| r.client_id)
}

/// Some unblocked clients and, behind them, those of more waiting clients that
/// are not there yet.
pub open spec fn rejected_with(s: Seq<RejectedV>, ws: Seq<WaiterV>) -> Seq<RejectedV>
    decreases ws.len(),
{
    if ws.len() == 0 {
        s
    } else {
        let w = ws.last();
        let d = rejected_with(s, ws.drop_last());
        if rejected_ids(d).contains(w.client_id) {
            d
        } else {
            d.push(RejectedV { client_id: w.client_id, action: w.action })
        }
    }
}

/// Whether a change of role unblocks a waiting client: because it waits for
/// replicas or for the log, or, without `replicas`, for another reason.
pub open spec fn rejects(w: WaiterV, replicas: bool) -> bool {
    if replicas {
        in_group(w, WaitGroup::Replication)
    } else {
        !in_group(w, WaitGroup::Replication) && in_group(w, WaitGroup::Unblocked)
    }
}

/// The clients that a change of role unblocks, in the order in which they are
/// told, each with what it waits for.
pub open spec fn role_change_rejects(ws: Seq<WaiterV>) -> Seq<RejectedV> {
    rejected_with(
        rejected_with(Seq::empty(), ws.filter(|w: WaiterV| rejects(w, true))),
        ws.filter(|w: WaiterV| rejects(w, false)),
    )
}

/// A copy of what a client waits for.
fn dup_action(a: &BlockedAction) -> (r: BlockedAction)
    ensures
        r@ == a@,
{
    match a {
        BlockedAction::Stream { id_after } => BlockedAction::Stream { id_after: *id_after },
        BlockedAction::StreamGroup { id_after, group, consumer, count, noack } => {
            BlockedAction::StreamGroup {
                id_after: *id_after,
                group: dup(group),
                consumer: dup(consumer),
                count: *count,
                noack: *noack,
            }
        },
        BlockedAction::ListPop { from, count } => {
            BlockedAction::ListPop { from: *from, count: *count }
        },
        BlockedAction::ListMove { from, to, destination } => {
            BlockedAction::ListMove { from: *from, to: *to, destination: dup(destination) }
        },
        BlockedAction::Wait { offset, numreplicas } => {
            BlockedAction::Wait { offset: *offset, numreplicas: *numreplicas }
        },
        BlockedAction::WaitAof { offset, numlocal, numreplicas } => {
            BlockedAction::WaitAof {
                offset: *offset,
                numlocal: *numlocal,
                numreplicas: *numreplicas,
            }
        },
    }
}

/// Adds a client unless it is there.
fn add_rejected(out: &mut Vec<Rejected>, w: &BlockedWaiter)
    ensures
        rejected_views(final(out)@) == (if rejected_ids(rejected_views(old(out)@)).contains(
            w.client_id,
        ) {
            rejected_views(old(out)@)
        } else {
            rejected_views(old(out)@).push(
                RejectedV { client_id: w.client_id, action: w.action@ },
            )
        }),
{
    let ghost ids = rejected_ids(rejected_views(out@));
    let mut j: usize = 0;
    while j < out.len() && out[j].client_id != w.client_id
        invariant
            j <= out@.len(),
            ids == rejected_ids(rejected_views(out@)),
            forall|k: int| 0 <= k < j ==> ids[k] != w.client_id,
        decreases out@.len() - j,
    {
        assert(ids[j as int] == out@[j as int].client_id);
        j += 1;
    }
    if j < out.len() {
        assert(ids[j as int] == w.client_id);
        return;
    }
    assert(!ids.contains(w.client_id));
    let ghost before = out@;
    let r = Rejected { client_id: w.client_id, action: dup_action(&w.action) };
    let ghost rv = r@;
    out.push(r);
    assert(rejected_views(out@) =~= rejected_views(before).push(rv));
}

/// Adds the clients that a change of role unblocks for one of the two reasons.
fn add_rejects(out: &mut Vec<Rejected>, ws: &Vec<BlockedWaiter>, replicas: bool)
    ensures
        rejected_views(final(out)@) == rejected_with(
            rejected_views(old(out)@),
            waiter_views(ws@).filter(|w: WaiterV| rejects(w, replicas)),
        ),
{
    let ghost first = rejected_views(out@);
    let ghost all = waiter_views(ws@);
    let ghost p = |w: WaiterV| rejects(w, replicas);
    let mut i: usize = 0;
    proof {
        reveal(Seq::filter);
        assert(all.take(0).filter(p) =~= Seq::empty());
    }
    while i < ws.len()
        invariant
            i <= ws@.len(),
            all == waiter_views(ws@),
            p == (|w: WaiterV| rejects(w, replicas)),
            rejected_views(out@) == rejected_with(first, all.take(i as int).filter(p)),
        decreases ws@.len() - i,
    {
        let w: &BlockedWaiter = &ws[i];
        proof {
            assert(all[i as int] == w@);
            lemma_filter_step(all, p, i as int);
        }
        let waits_for_replicas: bool = belongs(w, WaitGroup::Replication);
        let picked: bool = if replicas {
            waits_for_replicas
        } else {
            !waits_for_replicas && belongs(w, WaitGroup::Unblocked)
        };
        if picked {
            let ghost before = all.take(i as int).filter(p);
            assert(before.push(w@).drop_last() =~= before);
            add_rejected(out, w);
        }
        i += 1;
    }
    assert(all.take(i as int) =~= all);
}

/// The clients that a change of role would unblock now, each with what it waits
/// for.
pub fn rejected_by_role_change(ctx: &CommandContext) -> (r: Vec<Rejected>)
    ensures
        rejected_views(r@) == role_change_rejects(ctx@.blocked),
{
    let mut out: Vec<Rejected> = Vec::new();
    assert(rejected_views(out@) =~= Seq::empty());
    add_rejects(&mut out, &ctx.blocked, true);
    add_rejects(&mut out, &ctx.blocked, false);
    out
}

/// A change of role tells exactly the clients whose waiting it rejects, once
/// each and in the same order.
pub proof fn law_rejected_clients_are_told(c: CtxV)
    ensures
        role_changed(c).outbox == c.outbox + frames_for(
            rejected_ids(role_change_rejects(c.blocked)),
            unblocked_frame(),
        ),
        rejected_ids(role_change_rejects(c.blocked)).no_duplicates(),
{
    let p = |w: WaiterV| rejects(w, true);
    let q = |w: WaiterV| rejects(w, false);
    let id = |w: WaiterV| w.client_id;
    let repl = |w: WaiterV| in_group(w, WaitGroup::Replication);
    let other = |w: WaiterV| !in_group(w, WaitGroup::Replication);
    let unblocked = |w: WaiterV| in_group(w, WaitGroup::Unblocked);
    lemma_same_filter(c.blocked, p, repl);
    lemma_filter_twice(c.blocked, other, unblocked, q);
    let first = c.blocked.filter(p);
    let second = c.blocked.filter(q);
    assert(rejected_ids(Seq::<RejectedV>::empty()) =~= distinct(Seq::<u64>::empty()));
    lemma_rejected_distinct(Seq::empty(), Seq::empty(), first);
    assert(Seq::<u64>::empty() + first.map_values(id) =~= first.map_values(id));
    lemma_rejected_distinct(
        first.map_values(id),
        rejected_with(Seq::empty(), first),
        second,
    );
    lemma_distinct(first.map_values(id) + second.map_values(id));
}

/// The numbers of the clients that were picked are those of the waiting
/// clients, each once.
proof fn lemma_rejected_distinct(ids: Seq<u64>, s: Seq<RejectedV>, ws: Seq<WaiterV>)
    requires
        rejected_ids(s) == distinct(ids),
    ensures
        rejected_ids(rejected_with(s, ws)) == distinct(
            ids + ws.map_values(|w: WaiterV| w.client_id),
        ),
    decreases ws.len(),
{
    let id = |w: WaiterV| w.client_id;
    let all = ids + ws.map_values(id);
    if ws.len() == 0 {
        assert(all =~= ids);
    } else {
        let rest = ws.drop_last();
        lemma_rejected_distinct(ids, s, rest);
        assert(all.drop_last() =~= ids + rest.map_values(id));
        assert(all.last() == ws.last().client_id);
        let d = rejected_with(s, rest);
        let w = ws.last();
        assert(rejected_ids(d.push(RejectedV { client_id: w.client_id, action: w.action }))
            =~= rejected_ids(d).push(w.client_id));
    }
}

/// Nothing occurs twice among first occurrences.
proof fn lemma_distinct(s: Seq<u64>)
    ensures
        distinct(s).no_duplicates(),
    decreases s.len(),
{
    if s.len() > 0 {
        lemma_distinct(s.drop_last());
    }
}

/// Filters that agree keep the same.
proof fn lemma_same_filter(
    s: Seq<WaiterV>,
    p: spec_fn(WaiterV) -> bool,
    q: spec_fn(WaiterV) -> bool,
)
    requires
        forall|w: WaiterV| #[trigger] p(w) == q(w),
    ensures
        s.filter(p) == s.filter(q),
    decreases s.len(),
{
    reveal(Seq::filter);
    if s.len() > 0 {
        lemma_same_filter(s.drop_last(), p, q);
    }
}

/// Filtering by one condition and then by another is filtering by both.
proof fn lemma_filter_twice(
    s: Seq<WaiterV>,
    p: spec_fn(WaiterV) -> bool,
    q: spec_fn(WaiterV) -> bool,
    both: spec_fn(WaiterV) -> bool,
)
    requires
        forall|w: WaiterV| #[trigger] both(w) == (p(w) && q(w)),
    ensures
        s.filter(p).filter(q) == s.filter(both),
    decreases s.len(),
{
    reveal(Seq::filter);
    if s.len() > 0 {
        let rest = s.drop_last();
        lemma_filter_twice(rest, p, q, both);
        assert(both(s.last()) == (p(s.last()) && q(s.last())));
        if p(s.last()) {
            assert(rest.filter(p).push(s.last()).drop_last() =~= rest.filter(p));
        }
    }
}

/// The frame for clients that wait for a log that is no longer written.
pub open spec fn log_off_frame() -> Seq<u8> {
    text(
        "-ERR WAITAOF cannot be used when numlocal is set but appendonly is disabled.\r\n"@,
    )
}

/// Unblocks the clients that wait for a log that is no longer written.
pub fn unblock_waitaof_local_disabled(ctx: &mut CommandContext)
    ensures
        final(ctx)@ == (CtxV {
            blocked: outside(old(ctx)@.blocked, WaitGroup::LocalLog),
            outbox: old(ctx)@.outbox + frames_for(
                group_ids(old(ctx)@.blocked, WaitGroup::LocalLog),
                log_off_frame(),
            ),
            ..old(ctx)@
        }),
        final(ctx).db == old(ctx).db,
{
    let ids: Vec<u64> = take_group(&mut ctx.blocked, WaitGroup::LocalLog);
    let frame: Vec<u8> = lit(
        "-ERR WAITAOF cannot be used when numlocal is set but appendonly is disabled.\r\n",
    );
    send_all(&mut ctx.outbox, &ids, &frame);
}

/// The frame that sends clients to another server.
pub open spec fn redirect_frame(host: Seq<u8>, port: u16) -> Seq<u8> {
    text("-REDIRECT "@) + host + text(":"@) + crate::bytes::dec(port as int) + text("\r\n"@)
}

/// The context after the clients that can be were sent to the new primary.
pub open spec fn redirected(c: CtxV, r: ReplV) -> CtxV {
    match r.target {
        None => c,
        Some(host) => CtxV {
            blocked: outside(c.blocked, WaitGroup::Redirected),
            outbox: c.outbox + frames_for(
                distinct(group_ids(c.blocked, WaitGroup::Redirected)),
                redirect_frame(host, r.target_port),
            ),
            ..c
        },
    }
}

/// Sends the clients that can be to the new primary.
pub fn redirect_blocked_clients_after_failover(ctx: &mut CommandContext, repl: &ReplicationState)
    ensures
        final(ctx)@ == redirected(old(ctx)@, repl@),
        final(ctx).db == old(ctx).db,
{
    match &repl.target_host {
        None => {},
        Some(host) => {
            let ids: Vec<u64> = take_group(&mut ctx.blocked, WaitGroup::Redirected);
            let ids: Vec<u64> = distinct_ids(&ids);
            let mut frame: Vec<u8> = lit("-REDIRECT ");
            put(&mut frame, host);
            put_text(&mut frame, ":");
            let port: Vec<u8> = fmt_u64(repl.target_port as u64);
            put(&mut frame, &port);
            put_text(&mut frame, "\r\n");
            send_all(&mut ctx.outbox, &ids, &frame);
        },
    }
}

/// After a change of role nobody waits for replicas or for the log.
pub proof fn law_role_change_empties_wait_queue(c: CtxV, i: int)
    requires
        0 <= i < role_changed(c).blocked.len(),
    ensures
        !in_group(role_changed(c).blocked[i], WaitGroup::Replication),
        in_group(role_changed(c).blocked[i], WaitGroup::Redirected),
{
    let rest = outside(c.blocked, WaitGroup::Replication);
    let p = |w: WaiterV| !in_group(w, WaitGroup::Replication);
    let q = |w: WaiterV| !in_group(w, WaitGroup::Unblocked);
    lemma_filter_source(rest, q, i);
    lemma_filter_source(c.blocked, p, rest.index_of(rest.filter(q)[i]));
}

/// What a filter keeps satisfies it and comes from the sequence.
proof fn lemma_filter_source(s: Seq<WaiterV>, p: spec_fn(WaiterV) -> bool, i: int)
    requires
        0 <= i < s.filter(p).len(),
    ensures
        s.contains(s.filter(p)[i]),
        p(s.filter(p)[i]),
    decreases s.len(),
{
    reveal(Seq::filter);
    let before = s.drop_last().filter(p);
    if i < before.len() {
        lemma_filter_source(s.drop_last(), p, i);
        let j = s.drop_last().index_of(before[i]);
        assert(s[j] == before[i]);
    } else {
        assert(s[s.len() - 1] == s.filter(p)[i]);
    }
}

// ---------------------------------------------------------------------------
// Waking clients that wait for replicas
// ---------------------------------------------------------------------------

/// Whether the local log holds an offset on disk: one for yes.
pub open spec fn local_acks(fsynced: i64, target: i64) -> int {
    if fsynced >= target {
        1
    } else {
        0
    }
}

/// The reply to a client that waits for replicas, as things stand.
pub open spec fn wait_frame(a: ActionV, rs: Seq<ReplicaV>, fsynced: i64) -> Option<Seq<u8>> {
    match a {
        ActionV::Wait { offset, .. } => Some(header(58, acked(rs, offset) as int)),
        ActionV::WaitAof { offset, .. } => Some(
            header(42, 2) + header(58, local_acks(fsynced, offset)) + header(
                58,
                aof_acked(rs, offset) as int,
            ),
        ),
        _ => None,
    }
}

/// Whether a client has waited long enough: for replicas, or, with `aof`, for
/// logs.
pub open spec fn satisfied(a: ActionV, rs: Seq<ReplicaV>, fsynced: i64, aof: bool) -> bool {
    match a {
        ActionV::Wait { offset, numreplicas } => !aof && 0 <= numreplicas <= acked(rs, offset),
        ActionV::WaitAof { offset, numlocal, numreplicas } => aof && numlocal <= local_acks(
            fsynced,
            offset,
        ) && 0 <= numreplicas <= aof_acked(rs, offset),
        _ => false,
    }
}

/// The replies to those clients that have waited long enough.
pub open spec fn wakes(ws: Seq<WaiterV>, rs: Seq<ReplicaV>, fsynced: i64, aof: bool) -> Seq<
    DeliveryV,
>
    decreases ws.len(),
{
    if ws.len() == 0 {
        Seq::empty()
    } else {
        let w = ws.last();
        let before = wakes(ws.drop_last(), rs, fsynced, aof);
        if satisfied(w.action, rs, fsynced, aof) {
            before.push(
                DeliveryV {
                    client_id: w.client_id,
                    frame: match wait_frame(w.action, rs, fsynced) {
                        Some(f) => f,
                        None => Seq::empty(),
                    },
                },
            )
        } else {
            before
        }
    }
}

/// The context after those clients were woken that waited long enough.
pub open spec fn woken(c: CtxV, rs: Seq<ReplicaV>, fsynced: i64, aof: bool) -> CtxV {
    CtxV {
        blocked: c.blocked.filter(|w: WaiterV| !satisfied(w.action, rs, fsynced, aof)),
        outbox: c.outbox + wakes(c.blocked, rs, fsynced, aof),
        ..c
    }
}

/// Whether the local log holds an offset on disk.
fn local_aof_ack_count(fsynced: i64, target: i64) -> (r: u64)
    ensures
        r == local_acks(fsynced, target),
{
    if fsynced >= target {
        1
    } else {
        0
    }
}

/// The reply to a client whose time to wait is over.
pub fn timeout_reply_for_wait_action(
    action: &BlockedAction,
    repl: &ReplicationState,
    fsynced: i64,
) -> (r: Option<Vec<u8>>)
    ensures
        match r {
            Some(f) => wait_frame(action@, repl@.replicas, fsynced) == Some(f@),
            None => wait_frame(action@, repl@.replicas, fsynced) is None,
        },
{
    match action {
        BlockedAction::Wait { offset, .. } => {
            let mut f: Vec<u8> = Vec::new();
            put_count(&mut f, 58, repl.count_acked(*offset) as u128);
            assert(f@ =~= header(58, acked(repl@.replicas, *offset) as int));
            Some(f)
        },
        BlockedAction::WaitAof { offset, .. } => {
            let mut f: Vec<u8> = Vec::new();
            put_count(&mut f, 42, 2);
            put_count(&mut f, 58, local_aof_ack_count(fsynced, *offset) as u128);
            put_count(&mut f, 58, repl.count_aof_acked(*offset) as u128);
            assert(f@ =~= header(42, 2) + header(58, local_acks(fsynced, *offset)) + header(
                58,
                aof_acked(repl@.replicas, *offset) as int,
            ));
            Some(f)
        },
        _ => None,
    }
}

/// Whether a client has waited long enough.
fn is_satisfied(a: &BlockedAction, repl: &ReplicationState, fsynced: i64, aof: bool) -> (r: bool)
    ensures
        r == satisfied(a@, repl@.replicas, fsynced, aof),
{
    match a {
        BlockedAction::Wait { offset, numreplicas } => {
            !aof && *numreplicas >= 0 && *numreplicas as u128 <= repl.count_acked(*offset) as u128
        },
        BlockedAction::WaitAof { offset, numlocal, numreplicas } => {
            aof && *numlocal <= local_aof_ack_count(fsynced, *offset) as i64 && *numreplicas >= 0
                && *numreplicas as u128 <= repl.count_aof_acked(*offset) as u128
        },
        _ => false,
    }
}

/// Wakes the clients that have waited long enough.
fn wake_satisfied(ctx: &mut CommandContext, repl: &ReplicationState, fsynced: i64, aof: bool)
    ensures
        final(ctx)@ == woken(old(ctx)@, repl@.replicas, fsynced, aof),
        final(ctx).db == old(ctx).db,
{
    let ghost c = ctx@;
    let ghost before = *ctx;
    let ghost rs = repl@.replicas;
    let ghost whole = ctx.blocked@;
    let ghost all = waiter_views(whole);
    let ghost q = |w: WaiterV| !satisfied(w.action, rs, fsynced, aof);
    let mut kept: Vec<BlockedWaiter> = Vec::new();
    let ghost mut i: int = 0;
    proof {
        reveal(Seq::filter);
        assert(all.take(0).filter(q) =~= Seq::empty());
        assert(waiter_views(kept@) =~= Seq::empty());
        assert(c.outbox =~= c.outbox + wakes(all.take(0), rs, fsynced, aof));
        assert(whole.skip(0) =~= whole);
    }
    while ctx.blocked.len() > 0
        invariant
            0 <= i <= whole.len(),
            rs == repl@.replicas,
            all == waiter_views(whole),
            ctx.blocked@ == whole.skip(i),
            q == (|w: WaiterV| !satisfied(w.action, rs, fsynced, aof)),
            waiter_views(kept@) == all.take(i).filter(q),
            delivery_views(ctx.outbox@) == c.outbox + wakes(all.take(i), rs, fsynced, aof),
            (CommandContext { blocked: before.blocked, outbox: before.outbox, ..*ctx }) == before,
        decreases ctx.blocked@.len(),
    {
        let w: BlockedWaiter = ctx.blocked.remove(0);
        proof {
            assert(w == whole[i]);
            assert(all[i] == w@);
            lemma_filter_step(all, q, i);
            assert(whole.skip(i).remove(0) =~= whole.skip(i + 1));
            assert(all.take(i + 1).drop_last() =~= all.take(i));
            assert(all.take(i + 1).last() == all[i]);
        }
        if is_satisfied(&w.action, repl, fsynced, aof) {
            let frame: Vec<u8> = match timeout_reply_for_wait_action(&w.action, repl, fsynced) {
                Some(f) => f,
                None => Vec::new(),
            };
            let d = Delivery { client_id: w.client_id, frame };
            let ghost dv = d@;
            proof {
                lemma_deliveries_push(ctx.outbox@, d);
            }
            ctx.outbox.push(d);
            assert(c.outbox + wakes(all.take(i + 1), rs, fsynced, aof) =~= (c.outbox + wakes(
                all.take(i),
                rs,
                fsynced,
                aof,
            )).push(dv));
        } else {
            proof {
                lemma_waiters_push(kept@, w);
            }
            kept.push(w);
        }
        proof {
            i = i + 1;
        }
    }
    ctx.blocked = kept;
    assert(all.take(i) =~= all);
}

/// Wakes the clients that have waited long enough: first those that wait for
/// replicas, then those that wait for logs.
pub fn maybe_wake_wait_clients(ctx: &mut CommandContext, repl: &ReplicationState, fsynced: i64)
    ensures
        final(ctx)@ == woken(
            woken(old(ctx)@, repl@.replicas, fsynced, false),
            repl@.replicas,
            fsynced,
            true,
        ),
        final(ctx).db == old(ctx).db,
{
    wake_satisfied(ctx, repl, fsynced, false);
    wake_satisfied(ctx, repl, fsynced, true);
}

// ---------------------------------------------------------------------------
// Asking replicas
// ---------------------------------------------------------------------------

/// The command that asks a replica for its offset.
pub open spec fn getack_frame() -> Seq<u8> {
    command_frame(seq![text("REPLCONF"@), text("GETACK"@), text("*"@)])
}

/// The clients of the replicas that are online.
pub open spec fn online_ids(rs: Seq<ReplicaV>) -> Seq<u64> {
    rs.filter(|r: ReplicaV| r.state == ReplicaState::Online).map_values(
        |r: ReplicaV| r.client_id,
    )
}

/// The context after the replicas that are online were asked for their offsets.
pub open spec fn asked(c: CtxV, r: ReplV) -> CtxV {
    CtxV { outbox: c.outbox + frames_for(online_ids(r.replicas), getack_frame()), ..c }
}

/// The state of replication after the replicas were asked: the question is part
/// of the stream.
pub open spec fn asked_repl(r: ReplV) -> ReplV {
    if online_ids(r.replicas).len() > 0 {
        repl_appended(r, getack_frame())
    } else {
        r
    }
}

/// The clients of the replicas that are online.
fn online_clients(repl: &ReplicationState) -> (r: Vec<u64>)
    ensures
        r@ == online_ids(repl@.replicas),
{
    let ghost all = repl@.replicas;
    let ghost p = |r: ReplicaV| r.state == ReplicaState::Online;
    let ghost id = |r: ReplicaV| r.client_id;
    let mut ids: Vec<u64> = Vec::new();
    let mut i: usize = 0;
    proof {
        reveal(Seq::filter);
        assert(all.take(0).filter(p) =~= Seq::empty());
        assert(ids@ =~= all.take(0).filter(p).map_values(id));
    }
    while i < repl.replicas.len()
        invariant
            i <= repl.replicas@.len(),
            all == repl@.replicas,
            p == (|r: ReplicaV| r.state == ReplicaState::Online),
            id == (|r: ReplicaV| r.client_id),
            ids@ == all.take(i as int).filter(p).map_values(id),
        decreases repl.replicas@.len() - i,
    {
        proof {
            lemma_filter_step(all, p, i as int);
        }
        if repl.replicas[i].state == ReplicaState::Online {
            ids.push(repl.replicas[i].client_id);
        }
        assert(ids@ =~= all.take(i + 1).filter(p).map_values(id));
        i += 1;
    }
    assert(all.take(i as int) =~= all);
    ids
}

/// The command that asks a replica for its offset.
pub fn build_getack() -> (r: Vec<u8>)
    ensures
        r@ == getack_frame(),
{
    let mut a: Vec<Vec<u8>> = Vec::new();
    a.push(lit("REPLCONF"));
    a.push(lit("GETACK"));
    a.push(lit("*"));
    assert(views(a@) =~= seq![text("REPLCONF"@), text("GETACK"@), text("*"@)]);
    encode_resp_command(&a)
}

/// Asks the replicas that are online for their offsets.
pub fn request_ack_from_replicas(ctx: &mut CommandContext, repl: &mut ReplicationState)
    requires
        old(repl).wf(),
    ensures
        final(repl).wf(),
        final(ctx)@ == asked(old(ctx)@, old(repl)@),
        final(repl)@ == asked_repl(old(repl)@),
        final(ctx).db == old(ctx).db,
{
    let frame: Vec<u8> = build_getack();
    let ids: Vec<u64> = online_clients(repl);
    if ids.len() > 0 {
        repl.append_to_backlog(&frame);
    }
    send_all(&mut ctx.outbox, &ids, &frame);
}

// ---------------------------------------------------------------------------
// WAIT
// ---------------------------------------------------------------------------

/// The error for a number that cannot be read.
pub open spec fn bad_number() -> ErrV {
    runtime("ERR value is not an integer or out of range"@)
}

/// A timeout, or its error.
pub open spec fn wait_timeout(a: Seq<u8>, now: i64) -> Result<i64, ErrV> {
    match i64_of(a) {
        None => Err(bad_number()),
        Some(ms) => if ms < 0 {
            Err(runtime("ERR timeout is negative"@))
        } else if ms > 0 && ms > i64::MAX - now {
            Err(runtime("ERR timeout is out of range"@))
        } else {
            Ok(ms)
        },
    }
}

/// Parses a timeout.
fn parse_wait_timeout(a: &[u8], now: i64) -> (r: Result<i64, RedisError>)
    ensures
        match r {
            Ok(ms) => wait_timeout(a@, now) == Ok::<_, ErrV>(ms),
            Err(e) => wait_timeout(a@, now) == Err::<i64, ErrV>(e@),
        },
{
    match parse_i64(a) {
        None => Err(RedisError::runtime("ERR value is not an integer or out of range")),
        Some(ms) => {
            if ms < 0 {
                Err(RedisError::runtime("ERR timeout is negative"))
            } else if ms > 0 && ms as i128 > i64::MAX as i128 - now as i128 {
                Err(RedisError::runtime("ERR timeout is out of range"))
            } else {
                Ok(ms)
            }
        },
    }
}

/// The context of a client that begins to wait.
pub open spec fn waits(c: CtxV, action: ActionV, ms: i64) -> CtxV {
    CtxV {
        blocked: c.blocked.push(
            WaiterV {
                client_id: c.client.id,
                key: text("__wait__"@),
                action,
                deadline_ms: deadline(c.now, ms),
                resp_proto: c.client.resp_proto,
                user: c.client.user,
                redirect_on_role_change: false,
            },
        ),
        client: ClientV { blocked_on_keys: true, ..c.client },
        ..c
    }
}

/// Makes the client wait.
fn park(ctx: &mut CommandContext, action: BlockedAction, ms: i64)
    ensures
        final(ctx)@ == waits(old(ctx)@, action@, ms),
        final(ctx).db == old(ctx).db,
{
    let w = BlockedWaiter {
        client_id: ctx.client.id,
        key: lit("__wait__"),
        action,
        deadline_ms: deadline_at(ctx.now_ms, ms),
        resp_proto: ctx.client.resp_proto,
        user: dup(&ctx.client.user),
        redirect_on_role_change: false,
    };
    proof {
        lemma_waiters_push(ctx.blocked@, w);
    }
    ctx.blocked.push(w);
    ctx.client.blocked_on_keys = true;
}

/// How long WAIT blocks: without replicas, no timeout becomes a short one.
pub open spec fn wait_block_ms(ms: i64, replicas: nat) -> i64 {
    if ms == 0 && replicas == 0 {
        2000
    } else {
        ms
    }
}

/// Whether WAIT replies at once.
pub open spec fn wait_at_once(c: CtxV, n: i64, have: nat) -> bool {
    c.client.deny_blocking || c.client.lua || n == 0 || (n > 0 && have >= n) || !c.client.attached
}

/// How WAIT ends, and the state of replication after it.
pub open spec fn wait_step(c: CtxV, r: ReplV) -> (Outcome, ReplV) {
    let argv = c.client.argv;
    if argv.len() != 3 {
        (fails(c, wrong_args("wait"@)), r)
    } else {
        match i64_of(argv[1]) {
            None => (fails(c, bad_number()), r),
            Some(n) => match wait_timeout(argv[2], c.now) {
                Err(e) => (fails(c, e), r),
                Ok(ms) => {
                    let target = r.master_offset;
                    let have = acked(r.replicas, target);
                    if wait_at_once(c, n, have) {
                        (replies_one(c, Tok::Int(have as i64 as int)), r)
                    } else {
                        let w = waits(
                            c,
                            ActionV::Wait { offset: target, numreplicas: n },
                            wait_block_ms(ms, r.replicas.len()),
                        );
                        (Outcome { result: Ok(()), ctx: asked(w, r) }, asked_repl(r))
                    }
                },
            },
        }
    }
}

/// WAIT numreplicas timeout: blocks until that many replicas have acknowledged
/// the current offset of the stream.
pub fn wait_command(ctx: &mut CommandContext, repl: &mut ReplicationState) -> (r: Result<
    (),
    RedisError,
>)
    requires
        old(ctx).wf(),
        old(repl).wf(),
    ensures
        final(ctx).wf(),
        final(repl).wf(),
        (done(r, final(ctx)@), final(repl)@) == wait_step(old(ctx)@, old(repl)@),
{
    if ctx.arg_count() != 3 {
        return Err(RedisError::wrong_number_of_args("wait"));
    }
    let n: i64 = match parse_i64(&ctx.client.argv[1]) {
        None => return Err(RedisError::runtime("ERR value is not an integer or out of range")),
        Some(n) => n,
    };
    let ms: i64 = match parse_wait_timeout(&ctx.client.argv[2], ctx.now_ms) {
        Err(e) => return Err(e),
        Ok(ms) => ms,
    };
    let target: i64 = repl.master_offset;
    let have: usize = repl.count_acked(target);
    if ctx.client.deny_blocking || ctx.client.lua || n == 0 || (n > 0 && have as u128 >= n as u128)
        || !ctx.client.attached {
        return ctx.reply_integer(have as i64);
    }
    let block: i64 = if ms == 0 && repl.replicas.len() == 0 { 2000 } else { ms };
    park(ctx, BlockedAction::Wait { offset: target, numreplicas: n }, block);
    request_ack_from_replicas(ctx, repl);
    Ok(())
}

// ---------------------------------------------------------------------------
// WAITAOF
// ---------------------------------------------------------------------------

/// What WAITAOF knows of the local log.
pub struct LocalLog {
    /// The log is written.
    pub appendonly: bool,
    /// The offset up to which it is on disk, or -1 where there is none.
    pub fsynced: i64,
    /// How waiting for a first log that was asked for went.
    pub initial: Result<(), RedisError>,
}

/// What WAITAOF is asked for: local logs, replicas and a timeout.
pub open spec fn waitaof_request(c: CtxV, r: ReplV, l: LocalLog) -> Result<(i64, i64, i64), ErrV> {
    let argv = c.client.argv;
    if argv.len() != 4 {
        Err(wrong_args("waitaof"@))
    } else {
        match i64_of(argv[1]) {
            None => Err(bad_number()),
            Some(numlocal) => if numlocal < 0 || numlocal > 1 {
                Err(runtime("ERR Value for numlocal is out of range [0,1]"@))
            } else {
                match i64_of(argv[2]) {
                    None => Err(bad_number()),
                    Some(numreplicas) => match wait_timeout(argv[3], c.now) {
                        Err(e) => Err(e),
                        Ok(ms) => if r.role != ReplRole::Primary {
                            Err(
                                runtime(
                                    "ERR WAITAOF cannot be used with replica instances. Please also note that writes to replicas are just local and are not propagated."@,
                                ),
                            )
                        } else if numlocal > 0 && !l.appendonly {
                            Err(
                                runtime(
                                    "ERR WAITAOF cannot be used when numlocal is set but appendonly is disabled."@,
                                ),
                            )
                        } else if numlocal > 0 && l.initial is Err {
                            Err(l.initial->Err_0@)
                        } else {
                            Ok((numlocal, numreplicas, ms))
                        },
                    },
                }
            },
        }
    }
}

/// The reply of WAITAOF.
pub open spec fn progress(local: int, replicas: nat) -> Seq<Tok> {
    seq![Tok::Array(2), Tok::Int(local), Tok::Int(replicas as i64 as int)]
}

/// Whether WAITAOF answers at once, with that many logs on disk.
pub open spec fn waitaof_at_once(
    c: CtxV,
    local: int,
    have: nat,
    numlocal: i64,
    numreplicas: i64,
) -> bool {
    c.client.deny_blocking || c.client.lua || !c.client.attached || (local >= numlocal
        && have as i64 >= numreplicas)
}

/// How WAITAOF ends once it is known what it is asked for, and the state of
/// replication after it.
pub open spec fn waitaof_answer(
    c: CtxV,
    r: ReplV,
    fsynced: i64,
    numlocal: i64,
    numreplicas: i64,
    ms: i64,
) -> (Outcome, ReplV) {
    let target = c.client.last_write_repl_offset;
    let local = local_acks(fsynced, target);
    let have = aof_acked(r.replicas, target);
    if waitaof_at_once(c, local, have, numlocal, numreplicas) {
        (replies(c, progress(local, have)), r)
    } else {
        let w = waits(
            c,
            ActionV::WaitAof {
                offset: target,
                numlocal,
                numreplicas: if numreplicas < 0 {
                    0
                } else {
                    numreplicas
                },
            },
            ms,
        );
        (Outcome { result: Ok(()), ctx: asked(w, r) }, asked_repl(r))
    }
}

/// How WAITAOF ends, and the states of replication and of persistence after it.
pub open spec fn waitaof_step(c: CtxV, r: ReplV, p: PersistState, l: LocalLog) -> (
    Outcome,
    ReplV,
    PersistState,
) {
    match waitaof_request(c, r, l) {
        Err(e) => (fails(c, e), r, p),
        Ok((numlocal, numreplicas, ms)) => {
            let (o, r1) = waitaof_answer(c, r, l.fsynced, numlocal, numreplicas, ms);
            let q = if local_acks(l.fsynced, c.client.last_write_repl_offset) >= numlocal {
                PersistState { aof_rewrite_scheduled: false, ..p }
            } else {
                p
            };
            (o, r1, q)
        },
    }
}

/// What WAITAOF is asked for.
fn parse_waitaof(ctx: &CommandContext, repl: &ReplicationState, log: LocalLog) -> (r: Result<
    (i64, i64, i64),
    RedisError,
>)
    ensures
        match r {
            Ok(t) => waitaof_request(ctx@, repl@, log) == Ok::<_, ErrV>(t) && 0 <= t.0 <= 1,
            Err(e) => waitaof_request(ctx@, repl@, log) == Err::<(i64, i64, i64), ErrV>(e@),
        },
{
    if ctx.arg_count() != 4 {
        return Err(RedisError::wrong_number_of_args("waitaof"));
    }
    let numlocal: i64 = match parse_i64(&ctx.client.argv[1]) {
        None => return Err(RedisError::runtime("ERR value is not an integer or out of range")),
        Some(n) => n,
    };
    if numlocal < 0 || numlocal > 1 {
        return Err(RedisError::runtime("ERR Value for numlocal is out of range [0,1]"));
    }
    let numreplicas: i64 = match parse_i64(&ctx.client.argv[2]) {
        None => return Err(RedisError::runtime("ERR value is not an integer or out of range")),
        Some(n) => n,
    };
    let ms: i64 = match parse_wait_timeout(&ctx.client.argv[3], ctx.now_ms) {
        Err(e) => return Err(e),
        Ok(ms) => ms,
    };
    if repl.role != ReplRole::Primary {
        return Err(
            RedisError::runtime(
                "ERR WAITAOF cannot be used with replica instances. Please also note that writes to replicas are just local and are not propagated.",
            ),
        );
    }
    if numlocal > 0 {
        if !log.appendonly {
            return Err(
                RedisError::runtime(
                    "ERR WAITAOF cannot be used when numlocal is set but appendonly is disabled.",
                ),
            );
        }
        match log.initial {
            Err(e) => return Err(e),
            Ok(_) => {},
        }
    }
    Ok((numlocal, numreplicas, ms))
}

/// Whether WAITAOF answers at once, with that many logs on disk.
fn answers_at_once(
    ctx: &CommandContext,
    local: i64,
    have: usize,
    numlocal: i64,
    numreplicas: i64,
) -> (r: bool)
    ensures
        r == waitaof_at_once(ctx@, local as int, have as nat, numlocal, numreplicas),
{
    if ctx.client.deny_blocking || ctx.client.lua || !ctx.client.attached {
        return true;
    }
    local >= numlocal && have as i64 >= numreplicas
}

/// Replies how many logs are on disk.
fn reply_progress(ctx: &mut CommandContext, local: i64, have: usize)
    ensures
        final(ctx).db == old(ctx).db,
        done(Ok(()), final(ctx)@) == replies(old(ctx)@, progress(local as int, have as nat)),
{
    let mut out: Vec<Reply> = Vec::new();
    out.push(Reply::Array(2));
    out.push(Reply::Int(local));
    out.push(Reply::Int(have as i64));
    assert(toks(out@) =~= progress(local as int, have as nat));
    ctx.reply_all(out);
}

/// Answers WAITAOF, or makes the client wait.
fn answer_waitaof(
    ctx: &mut CommandContext,
    repl: &mut ReplicationState,
    fsynced: i64,
    numlocal: i64,
    numreplicas: i64,
    ms: i64,
)
    requires
        old(ctx).wf(),
        old(repl).wf(),
    ensures
        final(ctx).wf(),
        final(repl).wf(),
        (done(Ok(()), final(ctx)@), final(repl)@) == waitaof_answer(
            old(ctx)@,
            old(repl)@,
            fsynced,
            numlocal,
            numreplicas,
            ms,
        ),
{
    let target: i64 = ctx.client.last_write_repl_offset;
    let local: i64 = local_aof_ack_count(fsynced, target) as i64;
    let have: usize = repl.count_aof_acked(target);
    if answers_at_once(ctx, local, have, numlocal, numreplicas) {
        reply_progress(ctx, local, have);
        return;
    }
    let wanted: i64 = if numreplicas < 0 { 0 } else { numreplicas };
    park(ctx, BlockedAction::WaitAof { offset: target, numlocal, numreplicas: wanted }, ms);
    request_ack_from_replicas(ctx, repl);
}

/// WAITAOF numlocal numreplicas timeout
pub fn waitaof_command(
    ctx: &mut CommandContext,
    repl: &mut ReplicationState,
    p: &mut PersistState,
    log: LocalLog,
) -> (r: Result<(), RedisError>)
    requires
        old(ctx).wf(),
        old(repl).wf(),
    ensures
        final(ctx).wf(),
        final(repl).wf(),
        (done(r, final(ctx)@), final(repl)@, *final(p)) == waitaof_step(
            old(ctx)@,
            old(repl)@,
            *old(p),
            log,
        ),
{
    let fsynced: i64 = log.fsynced;
    let (numlocal, numreplicas, ms) = match parse_waitaof(ctx, repl, log) {
        Err(e) => return Err(e),
        Ok(t) => t,
    };
    let local: i64 = local_aof_ack_count(fsynced, ctx.client.last_write_repl_offset) as i64;
    if local >= numlocal {
        p.aof_rewrite_scheduled = false;
    }
    answer_waitaof(ctx, repl, fsynced, numlocal, numreplicas, ms);
    Ok(())
}

} // verus!
