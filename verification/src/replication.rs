//! Replication commands: REPLICAOF, ROLE, PSYNC, SYNC, REPLCONF and FAILOVER.

use vstd::prelude::*;

use crate::bytes::{
    dec, dup, fmt_i64, fmt_u64, i64_of, is_text, is_word, lemma_views_push, lit, lower_all,
    parse_i64, put, put_text, same, text, to_lower, views, word,
};
use crate::context::{
    done, fails, lemma_deliveries_push, replies, replies_one, says, ClientV, CommandContext, CtxV,
    Delivery, DeliveryV, Outcome,
};
use crate::error::{runtime, wrong_args, ErrV, RedisError};
use crate::persist::{
    bgsave_for_repl, bgsave_for_replication, step_res, BgsaveForReplResult, PersistState,
    ReplSnapshotStart,
};
use crate::repl_state::{
    bump, bumped, capa_of, has_replica, history_from, history_has, link_text, repl_appended,
    repl_follows, repl_primary, repl_registered, replica_rank, tells, told, FailoverPause,
    FailoverState, JobV, PendingReplica, PendingV, ReplBgsaveJob, ReplRole, ReplV, ReplicaConn, ReplicaLink,
    ReplicaState, ReplicaV, ReplicationState, REPLICA_CAPA_DUAL_CHANNEL, REPLICA_CAPA_EOF,
    REPLICA_CAPA_OTHER, REPLICA_CAPA_PSYNC2,
};
use crate::reply::{
    bulk, bulk_text, lemma_toks_add, lemma_toks_push, status, status_text, toks, Reply, Tok,
};
use crate::resp::{command_frame, encode_resp_command};
use crate::stream_wake::lemma_filter_step;
use crate::string::syntax_line;
use crate::waiters::{
    bad_number, frames_for, maybe_wake_wait_clients, role_changed, send_all,
    unblock_replication_role_change, woken,
};

verus! {

broadcast use {lemma_toks_push, lemma_toks_add, lemma_views_push};

// ---------------------------------------------------------------------------
// REPLICAOF, ROLE
// ---------------------------------------------------------------------------

/// A port number.
pub open spec fn port_of(a: Seq<u8>) -> Option<u16> {
    match i64_of(a) {
        None => None,
        Some(n) => if 0 <= n <= 65535 {
            Some(n as u16)
        } else {
            None
        },
    }
}

/// Parses a port number.
pub fn parse_port(a: &[u8]) -> (r: Option<u16>)
    ensures
        r == port_of(a@),
{
    match parse_i64(a) {
        None => None,
        Some(n) => {
            if 0 <= n && n <= 65535 {
                Some(n as u16)
            } else {
                None
            }
        },
    }
}

/// What the caller has to do for REPLICAOF.
#[derive(Debug, Clone, Copy, PartialEq, Eq, Structural)]
pub enum ReplicaofAction {
    Nothing,
    /// Follow the primary, as long as the epoch stays that one.
    Dial(u64),
}

/// How REPLICAOF ends, the state of replication after it, and what the caller
/// has to do.
pub open spec fn replicaof_step(c: CtxV, r: ReplV) -> (Outcome, ReplV, ReplicaofAction) {
    let argv = c.client.argv;
    if argv.len() != 3 {
        (fails(c, wrong_args("replicaof"@)), r, ReplicaofAction::Nothing)
    } else if is_word(argv[1], "NO"@) && is_word(argv[2], "ONE"@) {
        let c1 = if r.role != ReplRole::Primary || r.target is Some {
            role_changed(c)
        } else {
            c
        };
        (replies_one(c1, status("OK"@)), repl_primary(r), ReplicaofAction::Nothing)
    } else {
        match port_of(argv[2]) {
            None => (
                fails(c, runtime("ERR value is out of range, value must between 0 and 65535"@)),
                r,
                ReplicaofAction::Nothing,
            ),
            Some(port) => {
                let c1 = if r.target != Some(argv[1]) || r.target_port != port {
                    role_changed(c)
                } else {
                    c
                };
                let r1 = repl_follows(r, argv[1], port);
                (replies_one(c1, status("OK"@)), r1, ReplicaofAction::Dial(r1.dialer_epoch))
            },
        }
    }
}

/// Whether a primary is the one that is followed.
fn is_target(repl: &ReplicationState, host: &[u8], port: u16) -> (r: bool)
    ensures
        r == (repl@.target == Some(host@) && repl@.target_port == port),
{
    match &repl.target_host {
        None => false,
        Some(h) => same(h, host) && repl.target_port == port,
    }
}

/// REPLICAOF host port | REPLICAOF NO ONE
pub fn replicaof_command(ctx: &mut CommandContext, repl: &mut ReplicationState) -> (r: Result<
    ReplicaofAction,
    RedisError,
>)
    requires
        old(ctx).wf(),
        old(repl).wf(),
    ensures
        final(ctx).wf(),
        final(repl).wf(),
        ({
            let s = replicaof_step(old(ctx)@, old(repl)@);
            &&& (Outcome { result: step_res(r), ctx: final(ctx)@ }) == s.0
            &&& final(repl)@ == s.1
            &&& r matches Ok(a) ==> a == s.2
        }),
{
    if ctx.arg_count() != 3 {
        return Err(RedisError::wrong_number_of_args("replicaof"));
    }
    let host: Vec<u8> = ctx.arg_owned(1);
    if word(&host, "NO") && word(&ctx.client.argv[2], "ONE") {
        if repl.role != ReplRole::Primary || repl.target_host.is_some() {
            unblock_replication_role_change(ctx);
        }
        repl.become_master();
        ctx.reply(status_text("OK"));
        return Ok(ReplicaofAction::Nothing);
    }
    let port: u16 = match parse_port(&ctx.client.argv[2]) {
        None => {
            return Err(
                RedisError::runtime("ERR value is out of range, value must between 0 and 65535"),
            );
        },
        Some(p) => p,
    };
    if !is_target(repl, &host, port) {
        unblock_replication_role_change(ctx);
    }
    let epoch: u64 = repl.become_replica_of(host, port);
    ctx.reply(status_text("OK"));
    Ok(ReplicaofAction::Dial(epoch))
}

/// Replicas in the reply of ROLE.
pub open spec fn role_replicas(s: Seq<ReplicaV>) -> Seq<Tok>
    decreases s.len(),
{
    if s.len() == 0 {
        Seq::empty()
    } else {
        role_replicas(s.drop_last()) + seq![
            Tok::Array(3),
            bulk("?"@),
            Tok::Bulk(dec(s.last().listening_port as int)),
            Tok::Bulk(dec(s.last().offset as int)),
        ]
    }
}

/// The reply of ROLE.
pub open spec fn role_reply(r: ReplV) -> Seq<Tok> {
    match r.target {
        Some(host) => seq![
            Tok::Array(5),
            bulk("slave"@),
            Tok::Bulk(host),
            Tok::Int(r.target_port as int),
            bulk(link_text(r.link)),
            Tok::Int(r.master_offset as int),
        ],
        None => seq![
            Tok::Array(3),
            bulk("master"@),
            Tok::Int(r.master_offset as int),
            Tok::Array(r.replicas.len()),
        ] + role_replicas(r.replicas),
    }
}

/// How ROLE ends.
pub open spec fn role_outcome(c: CtxV, r: ReplV) -> Outcome {
    if c.client.argv.len() != 1 {
        fails(c, wrong_args("role"@))
    } else {
        replies(c, role_reply(r))
    }
}

/// The reply of ROLE.
fn build_role_reply(repl: &ReplicationState) -> (r: Vec<Reply>)
    ensures
        toks(r@) == role_reply(repl@),
{
    let mut out: Vec<Reply> = Vec::new();
    match &repl.target_host {
        Some(host) => {
            out.push(Reply::Array(5));
            out.push(bulk_text("slave"));
            out.push(Reply::Bulk(dup(host)));
            out.push(Reply::Int(repl.target_port as i64));
            out.push(bulk_text(repl.replica_link_str()));
            out.push(Reply::Int(repl.master_offset));
            assert(toks(out@) =~= role_reply(repl@));
        },
        None => {
            out.push(Reply::Array(3));
            out.push(bulk_text("master"));
            out.push(Reply::Int(repl.master_offset));
            out.push(Reply::Array(repl.replicas.len() as u128));
            let ghost all = repl@.replicas;
            let ghost first = toks(out@);
            let mut i: usize = 0;
            assert(first =~= first + role_replicas(all.take(0)));
            while i < repl.replicas.len()
                invariant
                    i <= repl.replicas@.len(),
                    all == repl@.replicas,
                    toks(out@) == first + role_replicas(all.take(i as int)),
                decreases repl.replicas@.len() - i,
            {
                out.push(Reply::Array(3));
                out.push(bulk_text("?"));
                out.push(Reply::Bulk(fmt_u64(repl.replicas[i].listening_port as u64)));
                out.push(Reply::Bulk(fmt_i64(repl.replicas[i].offset)));
                proof {
                    assert(all.take(i + 1).drop_last() =~= all.take(i as int));
                    assert(all.take(i + 1).last() == repl.replicas@[i as int]@);
                    assert(toks(out@) =~= first + role_replicas(all.take(i + 1)));
                }
                i += 1;
            }
            assert(all.take(i as int) =~= all);
            assert(first =~= seq![
                Tok::Array(3),
                bulk("master"@),
                Tok::Int(repl.master_offset as int),
                Tok::Array(all.len()),
            ]);
        },
    }
    out
}

/// ROLE
pub fn role_command(ctx: &mut CommandContext, repl: &ReplicationState) -> (r: Result<
    (),
    RedisError,
>)
    requires
        old(ctx).wf(),
    ensures
        final(ctx).wf(),
        done(r, final(ctx)@) == role_outcome(old(ctx)@, repl@),
{
    if ctx.arg_count() != 1 {
        return Err(RedisError::wrong_number_of_args("role"));
    }
    ctx.reply_all(build_role_reply(repl));
    Ok(())
}

/// After REPLICAOF NO ONE this server is a primary; a dialer of an older epoch
/// has no say any more.
pub proof fn law_no_one_ends_following(c: CtxV, r: ReplV)
    requires
        c.client.argv.len() == 3,
        is_word(c.client.argv[1], "NO"@),
        is_word(c.client.argv[2], "ONE"@),
    ensures
        replicaof_step(c, r).0.result is Ok,
        replicaof_step(c, r).1.role == ReplRole::Primary,
        replicaof_step(c, r).1.target is None,
        replicaof_step(c, r).1.dialer_epoch != r.dialer_epoch,
        replicaof_step(c, r).0.ctx.db == c.db,
{
}

/// REPLICAOF leaves the data alone: it stays until a snapshot replaces it.
pub proof fn law_replicaof_keeps_data(c: CtxV, r: ReplV)
    ensures
        replicaof_step(c, r).0.ctx.db == c.db,
{
}

// ---------------------------------------------------------------------------
// PSYNC: the decision
// ---------------------------------------------------------------------------

/// How a request to synchronize is answered.
#[derive(Debug, Clone, Copy, PartialEq, Eq, Structural)]
pub enum PsyncDecision {
    /// With the part of the stream that is missing.
    Continue,
    /// With a snapshot; a partial answer that was asked for is counted as
    /// failed.
    FullResync { count_partial_err: bool },
}

/// Whether the backlog holds the stream from an offset on.
pub open spec fn in_window(r: ReplV, provided: i64, master: i64) -> bool {
    if provided > master {
        false
    } else if provided == 0 && master == 0 {
        r.zero_ok
    } else {
        history_has(r, provided, master)
    }
}

/// How a request to synchronize is answered.
pub open spec fn psync_decision(
    r: ReplV,
    ours: Seq<u8>,
    provided_id: Seq<u8>,
    provided: i64,
    master: i64,
) -> PsyncDecision {
    if (provided_id == ours || provided_id == text("?"@)) && provided >= 0 && in_window(
        r,
        provided,
        master,
    ) {
        PsyncDecision::Continue
    } else {
        PsyncDecision::FullResync {
            count_partial_err: provided_id != text("?"@) && provided >= 0,
        }
    }
}

/// Whether the backlog holds the stream from an offset on.
fn partial_in_window(repl: &ReplicationState, provided: i64, master: i64) -> (r: bool)
    ensures
        r == in_window(repl@, provided, master),
{
    if provided > master {
        false
    } else if provided == 0 && master == 0 {
        repl.zero_offset_allowed
    } else {
        repl.can_read_history_range(provided, master)
    }
}

/// How a request to synchronize is answered.
pub fn decide_psync(
    repl: &ReplicationState,
    our_runid: &[u8],
    provided_runid: &[u8],
    provided_offset: i64,
    master_offset: i64,
) -> (r: PsyncDecision)
    ensures
        r == psync_decision(
            repl@,
            our_runid@,
            provided_runid@,
            provided_offset,
            master_offset,
        ),
{
    let fresh: bool = is_text(provided_runid, "?");
    if (fresh || same(provided_runid, our_runid)) && provided_offset >= 0 && partial_in_window(
        repl,
        provided_offset,
        master_offset,
    ) {
        PsyncDecision::Continue
    } else {
        PsyncDecision::FullResync { count_partial_err: !fresh && provided_offset >= 0 }
    }
}

/// A replica is answered with part of the stream exactly where it followed this
/// stream and the backlog still holds what it lacks.
pub proof fn law_partial_answer_is_exact(r: ReplV, id: Seq<u8>, provided: i64)
    requires
        id == r.runid,
        id != text("?"@),
        r.master_offset > 0,
    ensures
        psync_decision(r, r.runid, id, provided, r.master_offset) == PsyncDecision::Continue
            <==> 0 <= provided <= r.master_offset && r.master_offset - r.backlog.len() <= provided,
{
}

/// What a replica is sent when it is answered with part of the stream brings it
/// up to this server's offset.
pub proof fn law_catch_up_is_complete(r: ReplV, provided: i64)
    requires
        0 <= provided < r.master_offset,
        in_window(r, provided, r.master_offset),
    ensures
        provided + history_from(r, provided).len() == r.master_offset,
{
}

// ---------------------------------------------------------------------------
// PSYNC and SYNC
// ---------------------------------------------------------------------------

/// What the caller has to do for PSYNC.
#[derive(Debug, Clone, Copy, PartialEq, Eq, Structural)]
pub enum PsyncAction {
    Nothing,
    /// Start a snapshot of the data at that offset.
    StartBgsave(i64),
}

/// The answer with part of the stream.
pub open spec fn continue_line(runid: Seq<u8>) -> Seq<u8> {
    text("+CONTINUE "@) + runid + text("\r\n"@)
}

/// The answer that announces a snapshot.
pub open spec fn fullresync_line(runid: Seq<u8>, offset: i64) -> Seq<u8> {
    text("+FULLRESYNC "@) + runid + text(" "@) + dec(offset as int) + text("\r\n"@)
}

/// The answer with part of the stream.
pub fn continue_reply(runid: &[u8]) -> (r: Vec<u8>)
    ensures
        r@ == continue_line(runid@),
{
    let mut r: Vec<u8> = lit("+CONTINUE ");
    put(&mut r, runid);
    put_text(&mut r, "\r\n");
    r
}

/// The answer that announces a snapshot.
pub fn fullresync_reply(runid: &[u8], offset: i64) -> (r: Vec<u8>)
    ensures
        r@ == fullresync_line(runid@, offset),
{
    let mut r: Vec<u8> = lit("+FULLRESYNC ");
    put(&mut r, runid);
    put_text(&mut r, " ");
    let n: Vec<u8> = fmt_i64(offset);
    put(&mut r, &n);
    put_text(&mut r, "\r\n");
    r
}

/// The context of a client that is a replica from now on.
pub open spec fn as_replica(c: CtxV) -> CtxV {
    CtxV { client: ClientV { is_replica: true, ..c.client }, ..c }
}

/// The state after a client with a connection was attached as a replica.
pub open spec fn attached_repl(c: CtxV, r: ReplV, state: ReplicaState, offset: i64) -> ReplV {
    if c.client.attached {
        repl_registered(r, c.client.id, state, offset, c.now)
    } else {
        r
    }
}

/// Attaches the client as a replica, if it has a connection.
fn attach(ctx: &CommandContext, repl: &mut ReplicationState, state: ReplicaState, offset: i64)
    requires
        old(repl).wf(),
    ensures
        final(repl).wf(),
        final(repl)@ == attached_repl(ctx@, old(repl)@, state, offset),
{
    if ctx.client.attached {
        repl.register_replica(ctx.client.id, state, offset, ctx.now_ms);
    }
}

/// The state after a replica was answered with part of the stream.
pub open spec fn continued_repl(c: CtxV, r: ReplV, provided: i64) -> ReplV {
    attached_repl(
        c,
        ReplV { sync_partial_ok: bumped(r.sync_partial_ok), ..r },
        ReplicaState::Online,
        provided,
    )
}

/// The states after a replica was answered with part of the stream.
pub open spec fn psync_continued(c: CtxV, r: ReplV, provided: i64) -> (CtxV, ReplV) {
    let r1 = continued_repl(c, r, provided);
    let c1 = as_replica(says(c, seq![Tok::Raw(continue_line(r.runid))]));
    let c2 = if r.master_offset > provided && has_replica(r1.replicas, c.client.id) {
        CtxV {
            outbox: c1.outbox.push(
                DeliveryV { client_id: c.client.id, frame: history_from(r, provided) },
            ),
            ..c1
        }
    } else {
        c1
    };
    (c2, r1)
}

/// Attaching a replica leaves the stream alone.
proof fn lemma_attached(c: CtxV, r: ReplV, state: ReplicaState, offset: i64)
    ensures
        ({
            let r1 = attached_repl(c, r, state, offset);
            &&& r1.runid == r.runid
            &&& r1.master_offset == r.master_offset
            &&& r1.backlog == r.backlog
        }),
{
}

/// Sends a frame to the client, and makes it a replica.
fn announce(ctx: &mut CommandContext, line: Vec<u8>)
    requires
        old(ctx).wf(),
    ensures
        final(ctx).wf(),
        final(ctx)@ == as_replica(says(old(ctx)@, seq![Tok::Raw(line@)])),
{
    ctx.reply(Reply::Raw(line));
    ctx.client.is_replica = true;
}

/// Sends the client a part of the stream.
fn send_to_client(ctx: &mut CommandContext, frame: Vec<u8>)
    requires
        old(ctx).wf(),
    ensures
        final(ctx).wf(),
        final(ctx)@ == (CtxV {
            outbox: old(ctx)@.outbox.push(
                DeliveryV { client_id: old(ctx)@.client.id, frame: frame@ },
            ),
            ..old(ctx)@
        }),
{
    let d = Delivery { client_id: ctx.client.id, frame };
    proof {
        lemma_deliveries_push(ctx.outbox@, d);
    }
    ctx.outbox.push(d);
}

/// Answers a replica with part of the stream.
fn psync_continue(ctx: &mut CommandContext, repl: &mut ReplicationState, provided: i64)
    requires
        old(ctx).wf(),
        old(repl).wf(),
        in_window(old(repl)@, provided, old(repl)@.master_offset),
    ensures
        final(ctx).wf(),
        final(repl).wf(),
        (final(ctx)@, final(repl)@) == psync_continued(old(ctx)@, old(repl)@, provided),
{
    repl.sync_partial_ok = bump(repl.sync_partial_ok);
    proof {
        lemma_attached(ctx@, repl@, ReplicaState::Online, provided);
    }
    attach(ctx, repl, ReplicaState::Online, provided);
    assert(repl@ == continued_repl(old(ctx)@, old(repl)@, provided));
    let line: Vec<u8> = continue_reply(&repl.runid);
    announce(ctx, line);
    if repl.master_offset > provided && repl.find_replica(ctx.client.id) < repl.replicas.len() {
        let frame: Vec<u8> = repl.read_history_from(provided);
        send_to_client(ctx, frame);
    }
}

/// The clients of the replicas that follow the stream, without those whose
/// connections are being closed.
pub open spec fn streaming_ids(r: ReplV) -> Seq<u64> {
    r.replicas.filter(
        |x: ReplicaV|
            (x.state == ReplicaState::Online || x.state == ReplicaState::SendingRdb)
                && !r.killed.contains(x.client_id),
    ).map_values(|x: ReplicaV| x.client_id)
}

/// Whether a list has a number.
fn lists(v: &Vec<u64>, x: u64) -> (r: bool)
    ensures
        r == v@.contains(x),
{
    let mut i: usize = 0;
    while i < v.len()
        invariant
            i <= v@.len(),
            forall|j: int| 0 <= j < i ==> v@[j] != x,
        decreases v@.len() - i,
    {
        if v[i] == x {
            assert(v@[i as int] == x);
            return true;
        }
        i += 1;
    }
    false
}

/// The clients of the replicas that follow the stream.
pub fn streaming_replica_client_ids(repl: &ReplicationState) -> (r: Vec<u64>)
    ensures
        r@ == streaming_ids(repl@),
{
    let ghost all = repl@.replicas;
    let ghost killed = repl@.killed;
    let ghost p = |x: ReplicaV|
        (x.state == ReplicaState::Online || x.state == ReplicaState::SendingRdb)
            && !killed.contains(x.client_id);
    let ghost id = |x: ReplicaV| x.client_id;
    let mut ids: Vec<u64> = Vec::new();
    let mut i: usize = 0;
    proof {
        reveal(Seq::filter);
        assert(all.take(0).filter(p) =~= Seq::empty());
        assert(ids@ =~= all.take(0).filter(p).map_values(id));
    }
    while i < repl.replicas.len()
        invariant
            i <= repl.replicas@.len(),
            all == repl@.replicas,
            killed == repl@.killed,
            p == (|x: ReplicaV|
                (x.state == ReplicaState::Online || x.state == ReplicaState::SendingRdb)
                    && !killed.contains(x.client_id)),
            id == (|x: ReplicaV| x.client_id),
            ids@ == all.take(i as int).filter(p).map_values(id),
        decreases repl.replicas@.len() - i,
    {
        proof {
            lemma_filter_step(all, p, i as int);
        }
        let s: ReplicaState = repl.replicas[i].state;
        let cid: u64 = repl.replicas[i].client_id;
        if (s == ReplicaState::Online || s == ReplicaState::SendingRdb) && !lists(&repl.killed, cid) {
            ids.push(cid);
        }
        assert(ids@ =~= all.take(i + 1).filter(p).map_values(id));
        i += 1;
    }
    assert(all.take(i as int) =~= all);
    ids
}

/// The command that selects a database.
pub open spec fn select_frame(db: i64) -> Seq<u8> {
    command_frame(seq![text("SELECT"@), dec(db as int)])
}

/// Whether the stream after a snapshot has to begin with the selected database.
pub open spec fn needs_select(r: ReplV) -> bool {
    r.selected_db >= 0 && r.selected_db != r.rdb_stream_db
}

/// The states after the stream was made to select its database again, so that
/// what follows a snapshot begins with it.
pub open spec fn select_prefixed(c: CtxV, r: ReplV) -> (CtxV, ReplV) {
    if needs_select(r) {
        (
            CtxV {
                outbox: c.outbox + frames_for(streaming_ids(r), select_frame(r.selected_db)),
                ..c
            },
            repl_appended(r, select_frame(r.selected_db)),
        )
    } else {
        (c, r)
    }
}

/// Makes the stream select its database again.
pub fn prefix_fullsync_catchup_selected_db(ctx: &mut CommandContext, repl: &mut ReplicationState)
    requires
        old(repl).wf(),
    ensures
        final(repl).wf(),
        (final(ctx)@, final(repl)@) == select_prefixed(old(ctx)@, old(repl)@),
        final(ctx).db == old(ctx).db,
{
    if repl.selected_db < 0 || repl.selected_db == repl.rdb_stream_db {
        return;
    }
    let mut a: Vec<Vec<u8>> = Vec::new();
    a.push(lit("SELECT"));
    a.push(fmt_i64(repl.selected_db));
    assert(views(a@) =~= seq![text("SELECT"@), dec(repl.selected_db as int)]);
    let frame: Vec<u8> = encode_resp_command(&a);
    let ids: Vec<u64> = streaming_replica_client_ids(repl);
    repl.append_to_backlog(&frame);
    send_all(&mut ctx.outbox, &ids, &frame);
}

/// The counters after a snapshot was asked for.
pub open spec fn full_counted(c: CtxV, r: ReplV, count_err: bool, line: bool, dual: bool) -> ReplV {
    ReplV {
        sync_partial_err: if count_err {
            bumped(r.sync_partial_err)
        } else {
            r.sync_partial_err
        },
        sync_full: bumped(r.sync_full),
        sync_partial_ok: if line && dual && capa_of(r, c.client.id) & REPLICA_CAPA_DUAL_CHANNEL
            != 0 {
            bumped(r.sync_partial_ok)
        } else {
            r.sync_partial_ok
        },
        ..r
    }
}

/// A job that one more replica waits for.
pub open spec fn job_joined(j: JobV, client: u64) -> JobV {
    JobV {
        waiting: if j.waiting.contains(client) {
            j.waiting
        } else {
            j.waiting.push(client)
        },
        ..j
    }
}

/// The context after a replica was told to wait for a snapshot, with a line or
/// without.
pub open spec fn told_to_wait(c: CtxV, runid: Seq<u8>, at: i64, line: bool) -> CtxV {
    if line {
        as_replica(says(c, seq![Tok::Raw(fullresync_line(runid, at))]))
    } else {
        as_replica(c)
    }
}

/// Tells a replica to wait for a snapshot.
fn tell_to_wait(ctx: &mut CommandContext, runid: &[u8], at: i64, line: bool)
    requires
        old(ctx).wf(),
    ensures
        final(ctx).wf(),
        final(ctx)@ == told_to_wait(old(ctx)@, runid@, at, line),
{
    if line {
        announce(ctx, fullresync_reply(runid, at));
    } else {
        ctx.client.is_replica = true;
    }
}

/// The states after a replica was told to wait for a snapshot, and what the
/// caller has to do. A snapshot that is being written serves this replica too.
pub open spec fn psync_full(
    c: CtxV,
    r: ReplV,
    count_err: bool,
    line: bool,
    dual: bool,
) -> (CtxV, ReplV, PsyncAction) {
    let r1 = full_counted(c, r, count_err, line, dual);
    match r1.job {
        Some(j) => {
            let r2 = attached_repl(
                c,
                ReplV { job: Some(job_joined(j, c.client.id)), ..r1 },
                ReplicaState::WaitingBgsave,
                j.snapshot_offset,
            );
            (told_to_wait(c, r.runid, j.snapshot_offset, line), r2, PsyncAction::Nothing)
        },
        None => {
            let snapshot = r1.master_offset;
            let (c1, r2) = select_prefixed(c, r1);
            let r3 = attached_repl(c, r2, ReplicaState::WaitingBgsave, snapshot);
            (
                told_to_wait(c1, r.runid, snapshot, line),
                r3,
                PsyncAction::StartBgsave(snapshot),
            )
        },
    }
}

/// Lets one more replica wait for the snapshot that is being written. Tells its
/// offset.
fn join_job(repl: &mut ReplicationState, client: u64) -> (r: Option<i64>)
    requires
        old(repl).wf(),
    ensures
        final(repl).wf(),
        match old(repl)@.job {
            Some(j) => r == Some(j.snapshot_offset) && final(repl)@ == (ReplV {
                job: Some(job_joined(j, client)),
                ..old(repl)@
            }),
            None => r is None && final(repl)@ == old(repl)@,
        },
{
    let job: ReplBgsaveJob = match repl.job.take() {
        None => return None,
        Some(j) => j,
    };
    let mut job = job;
    if !lists(&job.waiting_replicas, client) {
        job.waiting_replicas.push(client);
    }
    let at: i64 = job.snapshot_offset;
    repl.job = Some(job);
    Some(at)
}

/// Counts a request for a snapshot.
fn count_full(
    ctx: &CommandContext,
    repl: &mut ReplicationState,
    count_err: bool,
    line: bool,
    dual: bool,
)
    requires
        old(repl).wf(),
    ensures
        final(repl).wf(),
        final(repl)@ == full_counted(ctx@, old(repl)@, count_err, line, dual),
{
    let counts: bool = line && dual && repl.replica_capa_flags_for_client(ctx.client.id)
        & REPLICA_CAPA_DUAL_CHANNEL != 0;
    if count_err {
        repl.sync_partial_err = bump(repl.sync_partial_err);
    }
    repl.sync_full = bump(repl.sync_full);
    if counts {
        repl.sync_partial_ok = bump(repl.sync_partial_ok);
    }
}

/// Tells a replica to wait for a snapshot.
fn psync_fullresync(
    ctx: &mut CommandContext,
    repl: &mut ReplicationState,
    count_err: bool,
    line: bool,
    dual: bool,
) -> (r: PsyncAction)
    requires
        old(ctx).wf(),
        old(repl).wf(),
    ensures
        final(ctx).wf(),
        final(repl).wf(),
        (final(ctx)@, final(repl)@, r) == psync_full(
            old(ctx)@,
            old(repl)@,
            count_err,
            line,
            dual,
        ),
{
    count_full(ctx, repl, count_err, line, dual);
    match join_job(repl, ctx.client.id) {
        Some(at) => {
            proof {
                lemma_attached(ctx@, repl@, ReplicaState::WaitingBgsave, at);
            }
            attach(ctx, repl, ReplicaState::WaitingBgsave, at);
            tell_to_wait(ctx, &repl.runid, at, line);
            PsyncAction::Nothing
        },
        None => {
            let snapshot: i64 = repl.master_offset;
            prefix_fullsync_catchup_selected_db(ctx, repl);
            proof {
                lemma_attached(ctx@, repl@, ReplicaState::WaitingBgsave, snapshot);
            }
            attach(ctx, repl, ReplicaState::WaitingBgsave, snapshot);
            tell_to_wait(ctx, &repl.runid, snapshot, line);
            PsyncAction::StartBgsave(snapshot)
        },
    }
}

/// The state after a backlog that nobody used for too long was forgotten.
pub open spec fn backlog_expired(r: ReplV, idle: bool) -> ReplV {
    if idle {
        ReplV { backlog: Seq::empty(), ..r }
    } else {
        r
    }
}

/// How a request to synchronize ends.
pub open spec fn psync_step(
    c: CtxV,
    r: ReplV,
    id: Seq<u8>,
    provided: i64,
    line: bool,
    dual: bool,
    idle: bool,
) -> (Outcome, ReplV, PsyncAction) {
    if r.target is Some && r.link != ReplicaLink::Connected {
        (
            fails(c, runtime("NOMASTERLINK Can't SYNC while not connected with my master"@)),
            r,
            PsyncAction::Nothing,
        )
    } else {
        let kept = backlog_expired(r, idle);
        match psync_decision(kept, kept.runid, id, provided, kept.master_offset) {
            PsyncDecision::Continue => {
                let (c1, r1) = psync_continued(c, kept, provided);
                (Outcome { result: Ok(()), ctx: c1 }, r1, PsyncAction::Nothing)
            },
            PsyncDecision::FullResync { count_partial_err } => {
                let (c1, r1, a) = psync_full(c, kept, count_partial_err, line, dual);
                (Outcome { result: Ok(()), ctx: c1 }, r1, a)
            },
        }
    }
}

/// Answers a request to synchronize.
fn handle_psync(
    ctx: &mut CommandContext,
    repl: &mut ReplicationState,
    id: &[u8],
    provided: i64,
    line: bool,
    dual: bool,
    idle: bool,
) -> (r: Result<PsyncAction, RedisError>)
    requires
        old(ctx).wf(),
        old(repl).wf(),
    ensures
        final(ctx).wf(),
        final(repl).wf(),
        ({
            let s = psync_step(old(ctx)@, old(repl)@, id@, provided, line, dual, idle);
            &&& (Outcome { result: step_res(r), ctx: final(ctx)@ }) == s.0
            &&& final(repl)@ == s.1
            &&& r matches Ok(a) ==> a == s.2
        }),
{
    if repl.target_host.is_some() && repl.link != ReplicaLink::Connected {
        return Err(
            RedisError::runtime("NOMASTERLINK Can't SYNC while not connected with my master"),
        );
    }
    if idle {
        repl.drop_backlog();
    }
    assert(repl@ =~= backlog_expired(old(repl)@, idle));
    match decide_psync(repl, &repl.runid, id, provided, repl.master_offset) {
        PsyncDecision::Continue => {
            psync_continue(ctx, repl, provided);
            Ok(PsyncAction::Nothing)
        },
        PsyncDecision::FullResync { count_partial_err } => Ok(
            psync_fullresync(ctx, repl, count_partial_err, line, dual),
        ),
    }
}

/// Whether a replica that takes over follows this server's stream.
pub open spec fn failover_id_matches(r: ReplV, id: Seq<u8>) -> bool {
    id == r.runid || r.cached_replid == Some(id)
}

/// How a request to take over ends.
pub open spec fn psync_failover_step(
    c: CtxV,
    r: ReplV,
    id: Seq<u8>,
    provided: i64,
    dual: bool,
    idle: bool,
) -> (Outcome, ReplV, PsyncAction) {
    if r.role == ReplRole::Primary {
        (
            fails(c, runtime("ERR PSYNC FAILOVER can't be sent to a master."@)),
            r,
            PsyncAction::Nothing,
        )
    } else if !failover_id_matches(r, id) {
        (
            fails(c, runtime("ERR PSYNC FAILOVER replid must match my replid."@)),
            r,
            PsyncAction::Nothing,
        )
    } else {
        let r1 = repl_primary(r);
        if provided >= 0 && in_window(r1, provided, r1.master_offset) {
            let (c1, r2) = psync_continued(c, r1, provided);
            (Outcome { result: Ok(()), ctx: c1 }, r2, PsyncAction::Nothing)
        } else {
            psync_step(c, r1, id, provided, true, dual, idle)
        }
    }
}

/// Answers a request to take over.
fn handle_psync_failover(
    ctx: &mut CommandContext,
    repl: &mut ReplicationState,
    id: &[u8],
    provided: i64,
    dual: bool,
    idle: bool,
) -> (r: Result<PsyncAction, RedisError>)
    requires
        old(ctx).wf(),
        old(repl).wf(),
    ensures
        final(ctx).wf(),
        final(repl).wf(),
        ({
            let s = psync_failover_step(old(ctx)@, old(repl)@, id@, provided, dual, idle);
            &&& (Outcome { result: step_res(r), ctx: final(ctx)@ }) == s.0
            &&& final(repl)@ == s.1
            &&& r matches Ok(a) ==> a == s.2
        }),
{
    if repl.role == ReplRole::Primary {
        return Err(RedisError::runtime("ERR PSYNC FAILOVER can't be sent to a master."));
    }
    let cached: bool = match &repl.cached_replid {
        None => false,
        Some(x) => same(x, id),
    };
    if !cached && !same(id, &repl.runid) {
        return Err(RedisError::runtime("ERR PSYNC FAILOVER replid must match my replid."));
    }
    repl.become_master();
    if provided >= 0 && partial_in_window(repl, provided, repl.master_offset) {
        psync_continue(ctx, repl, provided);
        return Ok(PsyncAction::Nothing);
    }
    handle_psync(ctx, repl, id, provided, true, dual, idle)
}

/// The offset that a replica asks to go on from: -1 stands for none, and no other
/// negative number is one.
pub open spec fn psync_offset(a: Seq<u8>) -> Option<i64> {
    match i64_of(a) {
        Some(n) => if n >= -1 {
            Some(n)
        } else {
            None
        },
        None => None,
    }
}

/// Parses the offset that a replica asks to go on from.
fn parse_offset(a: &[u8]) -> (r: Option<i64>)
    ensures
        r == psync_offset(a@),
{
    match parse_i64(a) {
        Some(n) => if n >= -1 {
            Some(n)
        } else {
            None
        },
        None => None,
    }
}

/// How PSYNC ends.
pub open spec fn psync_outcome(c: CtxV, r: ReplV, dual: bool, idle: bool) -> (
    Outcome,
    ReplV,
    PsyncAction,
) {
    let argv = c.client.argv;
    if argv.len() != 3 && argv.len() != 4 {
        (fails(c, wrong_args("psync"@)), r, PsyncAction::Nothing)
    } else {
        match psync_offset(argv[2]) {
            None => (fails(c, bad_number()), r, PsyncAction::Nothing),
            Some(offset) => if argv.len() == 4 {
                if !is_word(argv[3], "FAILOVER"@) {
                    (fails(c, syntax_line()), r, PsyncAction::Nothing)
                } else {
                    psync_failover_step(c, r, argv[1], offset, dual, idle)
                }
            } else {
                psync_step(c, r, argv[1], offset, true, dual, idle)
            },
        }
    }
}

/// PSYNC replid offset [FAILOVER]. `dual` tells whether snapshots may be sent on
/// a second connection, and `idle` whether nobody used the backlog for longer than
/// it is kept.
pub fn psync_command(
    ctx: &mut CommandContext,
    repl: &mut ReplicationState,
    dual: bool,
    idle: bool,
) -> (r: Result<PsyncAction, RedisError>)
    requires
        old(ctx).wf(),
        old(repl).wf(),
    ensures
        final(ctx).wf(),
        final(repl).wf(),
        ({
            let s = psync_outcome(old(ctx)@, old(repl)@, dual, idle);
            &&& (Outcome { result: step_res(r), ctx: final(ctx)@ }) == s.0
            &&& final(repl)@ == s.1
            &&& r matches Ok(a) ==> a == s.2
        }),
{
    let argc: usize = ctx.arg_count();
    if argc != 3 && argc != 4 {
        return Err(RedisError::wrong_number_of_args("psync"));
    }
    let id: Vec<u8> = ctx.arg_owned(1);
    let offset: i64 = match parse_offset(&ctx.client.argv[2]) {
        None => return Err(RedisError::runtime("ERR value is not an integer or out of range")),
        Some(n) => n,
    };
    if argc == 4 {
        if !word(&ctx.client.argv[3], "FAILOVER") {
            return Err(RedisError::runtime("ERR syntax error"));
        }
        return handle_psync_failover(ctx, repl, &id, offset, dual, idle);
    }
    handle_psync(ctx, repl, &id, offset, true, dual, idle)
}

/// How SYNC ends.
pub open spec fn sync_outcome(c: CtxV, r: ReplV, dual: bool, idle: bool) -> (
    Outcome,
    ReplV,
    PsyncAction,
) {
    if c.client.argv.len() != 1 {
        (fails(c, wrong_args("sync"@)), r, PsyncAction::Nothing)
    } else {
        psync_step(c, r, text("?"@), (-1) as i64, false, dual, idle)
    }
}

/// SYNC: the snapshot comes without a line that announces it.
pub fn sync_command(
    ctx: &mut CommandContext,
    repl: &mut ReplicationState,
    dual: bool,
    idle: bool,
) -> (r: Result<PsyncAction, RedisError>)
    requires
        old(ctx).wf(),
        old(repl).wf(),
    ensures
        final(ctx).wf(),
        final(repl).wf(),
        ({
            let s = sync_outcome(old(ctx)@, old(repl)@, dual, idle);
            &&& (Outcome { result: step_res(r), ctx: final(ctx)@ }) == s.0
            &&& final(repl)@ == s.1
            &&& r matches Ok(a) ==> a == s.2
        }),
{
    if ctx.arg_count() != 1 {
        return Err(RedisError::wrong_number_of_args("sync"));
    }
    let id: Vec<u8> = lit("?");
    handle_psync(ctx, repl, &id, -1, false, dual, idle)
}

/// What becomes of a replica that was told to wait for a snapshot, given how
/// starting one went, and the states after it. A snapshot that is being written
/// serves it too.
pub open spec fn full_sync_armed(
    r: ReplV,
    p: PersistState,
    client: u64,
    snapshot_offset: i64,
    own_pid: i32,
    needs_getack: bool,
    start: ReplSnapshotStart,
) -> (BgsaveForReplResult, ReplV, PersistState) {
    match r.job {
        Some(j) => (
            BgsaveForReplResult::Skipped,
            ReplV { job: Some(job_joined(j, client)), ..r },
            p,
        ),
        None => bgsave_for_repl(r, p, client, snapshot_offset, own_pid, needs_getack, start),
    }
}

/// Lets a replica wait for the snapshot that is being written, or for a new one
/// at the offset that it was told, given how starting that went.
pub fn arm_full_sync_bgsave(
    repl: &mut ReplicationState,
    p: &mut PersistState,
    client: u64,
    snapshot_offset: i64,
    own_pid: i32,
    needs_getack: bool,
    start: ReplSnapshotStart,
) -> (r: BgsaveForReplResult)
    requires
        old(repl).wf(),
    ensures
        final(repl).wf(),
        (r, final(repl)@, *final(p)) == full_sync_armed(
            old(repl)@,
            *old(p),
            client,
            snapshot_offset,
            own_pid,
            needs_getack,
            start,
        ),
{
    match join_job(repl, client) {
        Some(_) => BgsaveForReplResult::Skipped,
        None => bgsave_for_replication(
            repl,
            p,
            client,
            snapshot_offset,
            own_pid,
            needs_getack,
            start,
        ),
    }
}

/// The snapshot that a new replica waits for is taken at the offset that the
/// replica was told, and so is the one that a later replica joins.
pub proof fn law_snapshot_is_where_the_replica_was_told(
    c: CtxV,
    r: ReplV,
    dual: bool,
    idle: bool,
    p: PersistState,
    own_pid: i32,
    needs_getack: bool,
    pid: i32,
)
    requires
        c.client.argv.len() == 3,
        c.client.argv[1] == text("?"@),
        i64_of(c.client.argv[2]) == Some((-1) as i64),
        r.target is None,
        r.job is None,
        r.child_pid == 0,
    ensures
        ({
            let s = psync_outcome(c, r, dual, idle);
            let told = s.2->StartBgsave_0;
            let armed = full_sync_armed(
                s.1,
                p,
                c.client.id,
                told,
                own_pid,
                needs_getack,
                ReplSnapshotStart::Forked(pid),
            );
            &&& s.0.ctx.replies.last() == Tok::Raw(fullresync_line(r.runid, told))
            &&& armed.0 == BgsaveForReplResult::Started
            &&& armed.1.job is Some
            &&& armed.1.job->Some_0.snapshot_offset == told
            &&& armed.1.job->Some_0.waiting.contains(c.client.id)
        }),
{
    let s = psync_outcome(c, r, dual, idle);
    assert(s.0.ctx.replies.last() == Tok::Raw(fullresync_line(r.runid, s.2->StartBgsave_0)));
    assert(seq![c.client.id][0] == c.client.id);
}

/// The log line for an offset that cannot be read.
pub open spec fn wrong_offset_line(client: u64) -> Seq<u8> {
    text("redis-server: Replica "@) + dec(client as int) + text(
        " asks for synchronization but with a wrong offset"@,
    )
}

/// The log line for an offset that cannot be read.
pub fn wrong_psync_offset_log_line(client_id: u64) -> (r: Vec<u8>)
    ensures
        r@ == wrong_offset_line(client_id),
{
    let mut r: Vec<u8> = lit("redis-server: Replica ");
    let n: Vec<u8> = fmt_u64(client_id);
    put(&mut r, &n);
    put_text(&mut r, " asks for synchronization but with a wrong offset");
    r
}

/// SYNC never announces the snapshot, and makes the client a replica.
pub proof fn law_sync_is_silent(c: CtxV, r: ReplV, dual: bool, idle: bool)
    requires
        c.client.argv.len() == 1,
        r.target is None,
    ensures
        sync_outcome(c, r, dual, idle).0.result is Ok,
        sync_outcome(c, r, dual, idle).0.ctx.replies == c.replies,
        sync_outcome(c, r, dual, idle).0.ctx.client.is_replica,
{
}

/// A replica without an offset is told to wait for a snapshot.
pub proof fn law_fresh_replica_gets_snapshot(c: CtxV, r: ReplV, dual: bool, idle: bool)
    requires
        c.client.argv.len() == 3,
        c.client.argv[1] == text("?"@),
        i64_of(c.client.argv[2]) == Some((-1) as i64),
        r.target is None,
        r.job is None,
    ensures
        psync_outcome(c, r, dual, idle).0.result is Ok,
        psync_outcome(c, r, dual, idle).0.ctx.replies == c.replies.push(
            Tok::Raw(fullresync_line(r.runid, r.master_offset)),
        ),
        psync_outcome(c, r, dual, idle).0.ctx.client.is_replica,
        psync_outcome(c, r, dual, idle).2 == PsyncAction::StartBgsave(r.master_offset),
        psync_outcome(c, r, dual, idle).1.sync_partial_err == r.sync_partial_err,
{
    assert(c.replies + seq![Tok::Raw(fullresync_line(r.runid, r.master_offset))]
        =~= c.replies.push(Tok::Raw(fullresync_line(r.runid, r.master_offset))));
}

// ---------------------------------------------------------------------------
// REPLCONF
// ---------------------------------------------------------------------------

/// The bit of a capability.
pub open spec fn capa_bit(a: Seq<u8>) -> u32 {
    if is_word(a, "eof"@) {
        REPLICA_CAPA_EOF
    } else if is_word(a, "psync2"@) {
        REPLICA_CAPA_PSYNC2
    } else if is_word(a, "dual-channel"@) {
        REPLICA_CAPA_DUAL_CHANNEL
    } else {
        REPLICA_CAPA_OTHER
    }
}

/// The bit of a capability.
fn capa_flag_bit(a: &[u8]) -> (r: u32)
    ensures
        r == capa_bit(a@),
{
    if word(a, "eof") {
        REPLICA_CAPA_EOF
    } else if word(a, "psync2") {
        REPLICA_CAPA_PSYNC2
    } else if word(a, "dual-channel") {
        REPLICA_CAPA_DUAL_CHANNEL
    } else {
        REPLICA_CAPA_OTHER
    }
}

/// The state after a client told a capability.
pub open spec fn capa_told(r: ReplV, client: u64, bit: u32) -> ReplV {
    let i = replica_rank(r.replicas, client, 0);
    if i < r.replicas.len() {
        ReplV {
            replicas: r.replicas.update(
                i,
                ReplicaV { capa_flags: r.replicas[i].capa_flags | bit, ..r.replicas[i] },
            ),
            ..r
        }
    } else {
        let t = told(r.pending, client);
        ReplV { pending: tells(r.pending, PendingV { capa: t.capa | bit, ..t }), ..r }
    }
}

/// The state after a client told the first `n` capabilities.
pub open spec fn capas_told(r: ReplV, client: u64, names: Seq<Seq<u8>>) -> ReplV
    decreases names.len(),
{
    if names.len() == 0 {
        r
    } else {
        capa_told(capas_told(r, client, names.drop_last()), client, capa_bit(names.last()))
    }
}

/// The state after a client told its port: older replicas with the same port
/// are detached.
pub open spec fn port_told(r: ReplV, client: u64, port: u16) -> ReplV {
    let kept = r.replicas.filter(
        |x: ReplicaV| !(x.listening_port == port && x.client_id != client),
    );
    let r1 = ReplV { replicas: kept, ..r };
    let i = replica_rank(kept, client, 0);
    if i < kept.len() {
        ReplV {
            replicas: kept.update(i, ReplicaV { listening_port: port, ..kept[i] }),
            ..r1
        }
    } else {
        ReplV {
            pending: tells(r.pending, PendingV { port, ..told(r.pending, client) }),
            ..r1
        }
    }
}

/// The state after a client told the address that it listens on.
pub open spec fn ip_told(r: ReplV, client: u64, ip: Seq<u8>) -> ReplV {
    let i = replica_rank(r.replicas, client, 0);
    if i < r.replicas.len() {
        ReplV {
            replicas: r.replicas.update(i, ReplicaV { host: ip, ..r.replicas[i] }),
            ..r
        }
    } else {
        ReplV { pending: tells(r.pending, PendingV { ip, ..told(r.pending, client) }), ..r }
    }
}

/// The offset on disk that a client acknowledges, from argument `i` on.
pub open spec fn fack_of(argv: Seq<Seq<u8>>, i: int, found: Option<i64>) -> Option<i64>
    decreases argv.len() - i,
{
    if i < 0 || i + 1 >= argv.len() {
        found
    } else if is_word(argv[i], "FACK"@) && i64_of(argv[i + 1]) is Some {
        fack_of(argv, i + 2, i64_of(argv[i + 1]))
    } else {
        fack_of(argv, i + 2, found)
    }
}

/// The larger of two offsets.
pub open spec fn later(a: i64, b: i64) -> i64 {
    if a < b {
        b
    } else {
        a
    }
}

/// The state after a replica acknowledged offsets. One that has been sent its
/// snapshot is online from then on.
pub open spec fn acknowledged(
    r: ReplV,
    client: u64,
    offset: i64,
    aof: Option<i64>,
    now: i64,
) -> ReplV {
    let i = replica_rank(r.replicas, client, 0);
    if i < r.replicas.len() {
        let x = r.replicas[i];
        ReplV {
            replicas: r.replicas.update(
                i,
                ReplicaV {
                    offset: later(x.offset, offset),
                    aof_offset: match aof {
                        Some(a) => later(x.aof_offset, a),
                        None => x.aof_offset,
                    },
                    last_ack_ms: now,
                    state: if x.state == ReplicaState::SendingRdb {
                        ReplicaState::Online
                    } else {
                        x.state
                    },
                    ..x
                },
            ),
            ..r
        }
    } else {
        r
    }
}

/// The error for a subcommand that is not known.
pub open spec fn unknown_replconf(sub: Seq<u8>) -> ErrV {
    ErrV::Runtime(text("ERR Unknown REPLCONF subcommand: '"@) + sub + text("'"@))
}

/// How REPLCONF ends, and the state of replication after it. The local log is
/// on disk up to `fsynced`.
pub open spec fn replconf_step(c: CtxV, r: ReplV, fsynced: i64) -> (Outcome, ReplV) {
    let argv = c.client.argv;
    if argv.len() < 2 {
        (fails(c, wrong_args("replconf"@)), r)
    } else if lower_all(argv[1]) == text("listening-port"@) {
        if argv.len() < 3 {
            (fails(c, wrong_args("replconf"@)), r)
        } else {
            match port_of(argv[2]) {
                None => (fails(c, runtime("ERR invalid port number"@)), r),
                Some(port) => (
                    replies_one(c, status("OK"@)),
                    port_told(r, c.client.id, port),
                ),
            }
        }
    } else if lower_all(argv[1]) == text("ip-address"@) {
        (
            replies_one(c, status("OK"@)),
            if argv.len() < 3 {
                r
            } else {
                ip_told(r, c.client.id, argv[2])
            },
        )
    } else if lower_all(argv[1]) == text("capa"@) {
        (replies_one(c, status("OK"@)), capas_told(r, c.client.id, argv.skip(2)))
    } else if lower_all(argv[1]) == text("ack"@) {
        if argv.len() < 3 {
            (fails(c, wrong_args("replconf"@)), r)
        } else {
            match i64_of(argv[2]) {
                None => (fails(c, bad_number()), r),
                Some(offset) => {
                    let r1 = acknowledged(
                        r,
                        c.client.id,
                        offset,
                        fack_of(argv, 3, None),
                        c.now,
                    );
                    let c1 = woken(
                        woken(c, r1.replicas, fsynced, false),
                        r1.replicas,
                        fsynced,
                        true,
                    );
                    (Outcome { result: Ok(()), ctx: c1 }, r1)
                },
            }
        }
    } else if lower_all(argv[1]) == text("getack"@) {
        (replies_one(c, status("OK"@)), r)
    } else {
        (fails(c, unknown_replconf(argv[1])), r)
    }
}

/// A list of replicas with one of them changed.
proof fn lemma_replicas_update(s: Seq<ReplicaConn>, i: int, x: ReplicaConn)
    requires
        0 <= i < s.len(),
    ensures
        crate::repl_state::replica_views(s.update(i, x))
            == crate::repl_state::replica_views(s).update(i, x@),
{
    assert(crate::repl_state::replica_views(s.update(i, x))
        =~= crate::repl_state::replica_views(s).update(i, x@));
}

/// A replica with other fields.
fn changed(
    x: &ReplicaConn,
    state: ReplicaState,
    offset: i64,
    aof_offset: i64,
    port: u16,
    capa: u32,
    last_ack_ms: i64,
) -> (r: ReplicaConn)
    ensures
        r@ == (ReplicaV {
            state,
            offset,
            aof_offset,
            listening_port: port,
            capa_flags: capa,
            last_ack_ms,
            ..x@
        }),
{
    ReplicaConn {
        client_id: x.client_id,
        state,
        offset,
        aof_offset,
        listening_port: port,
        capa_flags: capa,
        last_ack_ms,
        host: dup(&x.host),
    }
}

/// Records a capability of a client.
fn tell_capa(repl: &mut ReplicationState, client: u64, bit: u32)
    requires
        old(repl).wf(),
    ensures
        final(repl).wf(),
        final(repl)@ == capa_told(old(repl)@, client, bit),
{
    let i: usize = repl.find_replica(client);
    if i < repl.replicas.len() {
        let x: &ReplicaConn = &repl.replicas[i];
        let y: ReplicaConn = changed(
            x,
            x.state,
            x.offset,
            x.aof_offset,
            x.listening_port,
            x.capa_flags | bit,
            x.last_ack_ms,
        );
        proof {
            lemma_replicas_update(repl.replicas@, i as int, y);
        }
        repl.replicas.set(i, y);
        assert(repl@ =~= capa_told(old(repl)@, client, bit));
    } else {
        let t: PendingReplica = repl.told_by(client);
        repl.record_pending(
            PendingReplica { client_id: t.client_id, port: t.port, capa: t.capa | bit, ip: t.ip },
        );
    }
}

/// Detaches older replicas with the same port.
fn remove_stale_replicas_with_listening_port(
    repl: &mut ReplicationState,
    port: u16,
    client: u64,
)
    requires
        old(repl).wf(),
    ensures
        final(repl).wf(),
        final(repl)@ == (ReplV {
            replicas: old(repl)@.replicas.filter(
                |x: ReplicaV| !(x.listening_port == port && x.client_id != client),
            ),
            ..old(repl)@
        }),
{
    let ghost before = *repl;
    let ghost whole = repl.replicas@;
    let ghost all = repl@.replicas;
    let ghost p = |x: ReplicaV| !(x.listening_port == port && x.client_id != client);
    let mut kept: Vec<ReplicaConn> = Vec::new();
    let ghost mut i: int = 0;
    proof {
        reveal(Seq::filter);
        assert(all.take(0).filter(p) =~= Seq::empty());
        assert(crate::repl_state::replica_views(kept@) =~= Seq::empty());
        assert(whole.skip(0) =~= whole);
    }
    while repl.replicas.len() > 0
        invariant
            0 <= i <= whole.len(),
            all == crate::repl_state::replica_views(whole),
            repl.replicas@ == whole.skip(i),
            p == (|x: ReplicaV| !(x.listening_port == port && x.client_id != client)),
            crate::repl_state::replica_views(kept@) == all.take(i).filter(p),
            (ReplicationState { replicas: before.replicas, ..*repl }) == before,
        decreases repl.replicas@.len(),
    {
        let e: ReplicaConn = repl.replicas.remove(0);
        proof {
            assert(e == whole[i]);
            assert(all[i] == e@);
            lemma_filter_step(all, p, i);
            assert(whole.skip(i).remove(0) =~= whole.skip(i + 1));
        }
        if !(e.listening_port == port && e.client_id != client) {
            let ghost had = kept@;
            let ghost ev = e@;
            kept.push(e);
            assert(crate::repl_state::replica_views(kept@)
                =~= crate::repl_state::replica_views(had).push(ev));
        }
        proof {
            i = i + 1;
        }
    }
    repl.replicas = kept;
    assert(all.take(i) =~= all);
}

/// Records the port of a client.
fn tell_port(repl: &mut ReplicationState, client: u64, port: u16)
    requires
        old(repl).wf(),
    ensures
        final(repl).wf(),
        final(repl)@ == port_told(old(repl)@, client, port),
{
    remove_stale_replicas_with_listening_port(repl, port, client);
    let i: usize = repl.find_replica(client);
    if i < repl.replicas.len() {
        let x: &ReplicaConn = &repl.replicas[i];
        let y: ReplicaConn = changed(
            x,
            x.state,
            x.offset,
            x.aof_offset,
            port,
            x.capa_flags,
            x.last_ack_ms,
        );
        proof {
            lemma_replicas_update(repl.replicas@, i as int, y);
        }
        repl.replicas.set(i, y);
        assert(repl@ =~= port_told(old(repl)@, client, port));
    } else {
        let t: PendingReplica = repl.told_by(client);
        repl.record_pending(
            PendingReplica { client_id: t.client_id, port, capa: t.capa, ip: t.ip },
        );
    }
}

/// Records the address that a client listens on.
fn tell_ip(repl: &mut ReplicationState, client: u64, ip: Vec<u8>)
    requires
        old(repl).wf(),
    ensures
        final(repl).wf(),
        final(repl)@ == ip_told(old(repl)@, client, ip@),
{
    let i: usize = repl.find_replica(client);
    if i < repl.replicas.len() {
        let x: &ReplicaConn = &repl.replicas[i];
        let y = ReplicaConn {
            client_id: x.client_id,
            state: x.state,
            offset: x.offset,
            aof_offset: x.aof_offset,
            listening_port: x.listening_port,
            capa_flags: x.capa_flags,
            last_ack_ms: x.last_ack_ms,
            host: ip,
        };
        proof {
            lemma_replicas_update(repl.replicas@, i as int, y);
        }
        repl.replicas.set(i, y);
        assert(repl@ =~= ip_told(old(repl)@, client, ip@));
    } else {
        let t: PendingReplica = repl.told_by(client);
        repl.record_pending(
            PendingReplica { client_id: t.client_id, port: t.port, capa: t.capa, ip },
        );
    }
}

/// The offset on disk that a client acknowledges.
fn find_fack(argv: &[Vec<u8>]) -> (r: Option<i64>)
    requires
        argv@.len() >= 3,
    ensures
        r == fack_of(views(argv@), 3, None),
{
    let ghost all = views(argv@);
    let argc: usize = argv.len();
    let mut found: Option<i64> = None;
    let mut i: usize = 3;
    while i < argc - 1
        invariant
            argc == argv@.len(),
            argc >= 3,
            all == views(argv@),
            3 <= i <= argc + 1,
            fack_of(all, 3, None) == fack_of(all, i as int, found),
        decreases argc - i,
    {
        if word(&argv[i], "FACK") {
            match parse_i64(&argv[i + 1]) {
                Some(n) => found = Some(n),
                None => {},
            }
        }
        i += 2;
    }
    found
}

/// Records what a replica acknowledged.
fn acknowledge_replica(
    repl: &mut ReplicationState,
    client: u64,
    offset: i64,
    aof: Option<i64>,
    now: i64,
)
    requires
        old(repl).wf(),
    ensures
        final(repl).wf(),
        final(repl)@ == acknowledged(old(repl)@, client, offset, aof, now),
{
    let i: usize = repl.find_replica(client);
    if i < repl.replicas.len() {
        let x: &ReplicaConn = &repl.replicas[i];
        let state: ReplicaState = if x.state == ReplicaState::SendingRdb {
            ReplicaState::Online
        } else {
            x.state
        };
        let off: i64 = if x.offset < offset { offset } else { x.offset };
        let disk: i64 = match aof {
            Some(a) => if x.aof_offset < a { a } else { x.aof_offset },
            None => x.aof_offset,
        };
        let y: ReplicaConn = changed(x, state, off, disk, x.listening_port, x.capa_flags, now);
        proof {
            lemma_replicas_update(repl.replicas@, i as int, y);
        }
        repl.replicas.set(i, y);
        assert(repl@ =~= acknowledged(old(repl)@, client, offset, aof, now));
    }
}

/// Records the capabilities that the arguments from the third on name.
fn tell_capas(repl: &mut ReplicationState, client: u64, argv: &[Vec<u8>])
    requires
        old(repl).wf(),
        argv@.len() >= 2,
    ensures
        final(repl).wf(),
        final(repl)@ == capas_told(old(repl)@, client, views(argv@).skip(2)),
{
    let ghost before = repl@;
    let ghost names = views(argv@).skip(2);
    let argc: usize = argv.len();
    let mut i: usize = 2;
    assert(names.take(0) =~= Seq::empty());
    while i < argc
        invariant
            argc == argv@.len(),
            2 <= i <= argc,
            names == views(argv@).skip(2),
            repl.wf(),
            repl@ == capas_told(before, client, names.take(i - 2)),
        decreases argc - i,
    {
        tell_capa(repl, client, capa_flag_bit(&argv[i]));
        proof {
            assert(names.take(i - 1).drop_last() =~= names.take(i - 2));
            assert(names.take(i - 1).last() == argv@[i as int]@);
        }
        i += 1;
    }
    assert(names.take(i - 2) =~= names);
}

/// REPLCONF listening-port n | ip-address ip | capa flag ... | ACK offset [FACK
/// offset] | GETACK *
pub fn replconf_command(ctx: &mut CommandContext, repl: &mut ReplicationState, fsynced: i64) -> (r:
    Result<(), RedisError>)
    requires
        old(ctx).wf(),
        old(repl).wf(),
    ensures
        final(ctx).wf(),
        final(repl).wf(),
        (done(r, final(ctx)@), final(repl)@) == replconf_step(old(ctx)@, old(repl)@, fsynced),
{
    let argc: usize = ctx.arg_count();
    if argc < 2 {
        return Err(RedisError::wrong_number_of_args("replconf"));
    }
    let client: u64 = ctx.client.id;
    let sub: Vec<u8> = to_lower(&ctx.client.argv[1]);
    if is_text(&sub, "listening-port") {
        if argc < 3 {
            return Err(RedisError::wrong_number_of_args("replconf"));
        }
        match parse_port(&ctx.client.argv[2]) {
            None => Err(RedisError::runtime("ERR invalid port number")),
            Some(port) => {
                tell_port(repl, client, port);
                ctx.reply_simple_string("OK")
            },
        }
    } else if is_text(&sub, "ip-address") {
        if argc >= 3 {
            tell_ip(repl, client, ctx.arg_owned(2));
        }
        ctx.reply_simple_string("OK")
    } else if is_text(&sub, "capa") {
        tell_capas(repl, client, &ctx.client.argv);
        ctx.reply_simple_string("OK")
    } else if is_text(&sub, "ack") {
        if argc < 3 {
            return Err(RedisError::wrong_number_of_args("replconf"));
        }
        let offset: i64 = match parse_i64(&ctx.client.argv[2]) {
            None => return Err(RedisError::runtime("ERR value is not an integer or out of range")),
            Some(n) => n,
        };
        let aof: Option<i64> = find_fack(&ctx.client.argv);
        acknowledge_replica(repl, client, offset, aof, ctx.now_ms);
        maybe_wake_wait_clients(ctx, repl, fsynced);
        Ok(())
    } else if is_text(&sub, "getack") {
        ctx.reply_simple_string("OK")
    } else {
        let mut m: Vec<u8> = lit("ERR Unknown REPLCONF subcommand: '");
        put(&mut m, &ctx.client.argv[1]);
        put_text(&mut m, "'");
        Err(RedisError::Runtime(m))
    }
}

/// The offset that a replica acknowledged never goes back.
pub proof fn law_acks_never_go_back(
    r: ReplV,
    client: u64,
    offset: i64,
    aof: Option<i64>,
    now: i64,
    i: int,
)
    requires
        0 <= i < r.replicas.len(),
    ensures
        acknowledged(r, client, offset, aof, now).replicas.len() == r.replicas.len(),
        acknowledged(r, client, offset, aof, now).replicas[i].offset >= r.replicas[i].offset,
        acknowledged(r, client, offset, aof, now).replicas[i].aof_offset
            >= r.replicas[i].aof_offset,
{
    lemma_rank_bounds(r.replicas, client, 0);
}

proof fn lemma_rank_bounds(s: Seq<ReplicaV>, client: u64, i: int)
    requires
        0 <= i <= s.len(),
    ensures
        i <= replica_rank(s, client, i) <= s.len(),
    decreases s.len() - i,
{
    if i < s.len() && s[i].client_id != client {
        lemma_rank_bounds(s, client, i + 1);
    }
}

// ---------------------------------------------------------------------------
// FAILOVER
// ---------------------------------------------------------------------------

/// The arguments of FAILOVER.
pub struct FailoverArgs {
    pub timeout_ms: i64,
    pub host: Option<Vec<u8>>,
    pub port: u16,
    pub force: bool,
}

/// The arguments of FAILOVER.
#[verifier::ext_equal]
pub struct FailoverV {
    pub timeout_ms: i64,
    pub host: Option<Seq<u8>>,
    pub port: u16,
    pub force: bool,
}

impl View for FailoverArgs {
    type V = FailoverV;

    open spec fn view(&self) -> FailoverV {
        FailoverV {
            timeout_ms: self.timeout_ms,
            host: crate::bytes::opt_view(self.host),
            port: self.port,
            force: self.force,
        }
    }
}

/// No arguments.
pub open spec fn no_failover_args() -> FailoverV {
    FailoverV { timeout_ms: 0, host: None, port: 0, force: false }
}

/// The arguments of FAILOVER from argument `i` on, after those in `o`.
pub open spec fn failover_args(argv: Seq<Seq<u8>>, i: int, o: FailoverV) -> Result<FailoverV, ErrV>
    decreases argv.len() - i,
{
    if i < 0 || i >= argv.len() {
        Ok(o)
    } else if is_word(argv[i], "TIMEOUT"@) && i + 1 < argv.len() && o.timeout_ms == 0 {
        match i64_of(argv[i + 1]) {
            None => Err(bad_number()),
            Some(ms) => if ms <= 0 {
                Err(runtime("ERR FAILOVER timeout must be greater than 0"@))
            } else {
                failover_args(argv, i + 2, FailoverV { timeout_ms: ms, ..o })
            },
        }
    } else if is_word(argv[i], "TO"@) && i + 2 < argv.len() && o.host is None {
        match port_of(argv[i + 2]) {
            None => Err(
                runtime("ERR value is out of range, value must between 0 and 65535"@),
            ),
            Some(port) => failover_args(
                argv,
                i + 3,
                FailoverV { host: Some(argv[i + 1]), port, ..o },
            ),
        }
    } else if is_word(argv[i], "FORCE"@) && !o.force {
        failover_args(argv, i + 1, FailoverV { force: true, ..o })
    } else {
        Err(syntax_line())
    }
}

/// Parses the arguments of FAILOVER.
fn parse_failover_args(argv: &[Vec<u8>]) -> (r: Result<FailoverArgs, RedisError>)
    ensures
        match r {
            Ok(o) => failover_args(views(argv@), 1, no_failover_args()) == Ok::<_, ErrV>(o@),
            Err(e) => failover_args(views(argv@), 1, no_failover_args()) == Err::<FailoverV, ErrV>(
                e@,
            ),
        },
{
    let ghost all = views(argv@);
    let ghost whole = failover_args(all, 1, no_failover_args());
    let argc: usize = argv.len();
    let mut o = FailoverArgs { timeout_ms: 0, host: None, port: 0, force: false };
    let mut i: usize = 1;
    assert(o@ =~= no_failover_args());
    while i < argc
        invariant
            argc == argv@.len(),
            all == views(argv@),
            1 <= i,
            i <= argc || argc == 0,
            whole == failover_args(all, 1, no_failover_args()),
            whole == failover_args(all, i as int, o@),
        decreases argc - i,
    {
        let ghost was = o@;
        let a: &Vec<u8> = &argv[i];
        assert(a@ == all[i as int]);
        if word(a, "TIMEOUT") && argc - i > 1 && o.timeout_ms == 0 {
            match parse_i64(&argv[i + 1]) {
                None => {
                    return Err(
                        RedisError::runtime("ERR value is not an integer or out of range"),
                    );
                },
                Some(ms) => {
                    if ms <= 0 {
                        return Err(
                            RedisError::runtime("ERR FAILOVER timeout must be greater than 0"),
                        );
                    }
                    o.timeout_ms = ms;
                    assert(o@ =~= FailoverV { timeout_ms: ms, ..was });
                },
            }
            i += 2;
        } else if word(a, "TO") && argc - i > 2 && o.host.is_none() {
            match parse_port(&argv[i + 2]) {
                None => {
                    return Err(
                        RedisError::runtime(
                            "ERR value is out of range, value must between 0 and 65535",
                        ),
                    );
                },
                Some(port) => {
                    o.host = Some(dup(&argv[i + 1]));
                    o.port = port;
                    assert(o@ =~= FailoverV { host: Some(all[i + 1]), port, ..was });
                },
            }
            i += 3;
        } else if word(a, "FORCE") && !o.force {
            o.force = true;
            assert(o@ =~= FailoverV { force: true, ..was });
            i += 1;
        } else {
            return Err(RedisError::runtime("ERR syntax error"));
        }
    }
    Ok(o)
}

/// Whether a replica that is online listens at that address.
pub open spec fn online_at(rs: Seq<ReplicaV>, host: Seq<u8>, port: u16) -> bool {
    exists|i: int|
        0 <= i < rs.len() && (#[trigger] rs[i]).state == ReplicaState::Online
            && rs[i].listening_port == port && rs[i].host == host
}

/// Whether a replica that is online listens at that address.
fn manual_failover_target_online(repl: &ReplicationState, host: &[u8], port: u16) -> (r: bool)
    ensures
        r == online_at(repl@.replicas, host@, port),
{
    let mut i: usize = 0;
    while i < repl.replicas.len()
        invariant
            i <= repl.replicas@.len(),
            forall|j: int|
                0 <= j < i ==> !((#[trigger] repl@.replicas[j]).state == ReplicaState::Online
                    && repl@.replicas[j].listening_port == port && repl@.replicas[j].host
                    == host@),
        decreases repl.replicas@.len() - i,
    {
        let x: &ReplicaConn = &repl.replicas[i];
        assert(repl@.replicas[i as int] == x@);
        if x.state == ReplicaState::Online && x.listening_port == port && same(&x.host, host) {
            return true;
        }
        i += 1;
    }
    false
}

/// The state after a failover was given up.
pub open spec fn failover_ended(r: ReplV) -> ReplV {
    ReplV { failover: FailoverState::Idle, pause: FailoverPause::Off, ..r }
}

/// The state after a failover was begun.
pub open spec fn failover_begun(r: ReplV, o: FailoverV, now: i64) -> ReplV {
    ReplV {
        failover: FailoverState::WaitingForSync,
        failover_host: o.host,
        failover_port: o.port,
        failover_deadline: if o.timeout_ms == 0 {
            0
        } else if now + o.timeout_ms > i64::MAX {
            i64::MAX
        } else {
            (now + o.timeout_ms) as i64
        },
        failover_force: o.force,
        pause: FailoverPause::Writes,
        ..r
    }
}

/// Why a failover cannot begin.
pub open spec fn failover_refused(r: ReplV, o: FailoverV) -> Option<ErrV> {
    if r.failover != FailoverState::Idle {
        Some(runtime("ERR FAILOVER already in progress."@))
    } else if r.role != ReplRole::Primary {
        Some(runtime("ERR FAILOVER is not valid when server is a replica."@))
    } else if r.replicas.len() == 0 {
        Some(runtime("ERR FAILOVER requires connected replicas."@))
    } else if o.force && (o.timeout_ms == 0 || o.host is None) {
        Some(
            runtime(
                "ERR FAILOVER with force option requires both a timeout and target HOST and IP."@,
            ),
        )
    } else if o.host is Some && !online_at(r.replicas, o.host->0, o.port) {
        Some(runtime("ERR FAILOVER target HOST and PORT is not a replica."@))
    } else {
        None
    }
}

/// How FAILOVER ends, and the state of replication after it.
pub open spec fn failover_step(c: CtxV, r: ReplV) -> (Outcome, ReplV) {
    let argv = c.client.argv;
    if argv.len() == 2 && is_word(argv[1], "ABORT"@) {
        if r.failover != FailoverState::Idle {
            (replies_one(c, status("OK"@)), failover_ended(r))
        } else {
            (fails(c, runtime("ERR No failover in progress."@)), r)
        }
    } else {
        match failover_args(argv, 1, no_failover_args()) {
            Err(e) => (fails(c, e), r),
            Ok(o) => match failover_refused(r, o) {
                Some(e) => (fails(c, e), r),
                None => (replies_one(c, status("OK"@)), failover_begun(r, o, c.now)),
            },
        }
    }
}

/// Why a failover cannot begin.
fn check_failover(repl: &ReplicationState, o: &FailoverArgs) -> (r: Result<(), RedisError>)
    ensures
        match r {
            Ok(_) => failover_refused(repl@, o@) is None,
            Err(e) => failover_refused(repl@, o@) == Some(e@),
        },
{
    if repl.failover != FailoverState::Idle {
        return Err(RedisError::runtime("ERR FAILOVER already in progress."));
    }
    if repl.role != ReplRole::Primary {
        return Err(RedisError::runtime("ERR FAILOVER is not valid when server is a replica."));
    }
    if repl.replicas.len() == 0 {
        return Err(RedisError::runtime("ERR FAILOVER requires connected replicas."));
    }
    if o.force && (o.timeout_ms == 0 || o.host.is_none()) {
        return Err(
            RedisError::runtime(
                "ERR FAILOVER with force option requires both a timeout and target HOST and IP.",
            ),
        );
    }
    match &o.host {
        None => {},
        Some(h) => {
            if !manual_failover_target_online(repl, h, o.port) {
                return Err(
                    RedisError::runtime("ERR FAILOVER target HOST and PORT is not a replica."),
                );
            }
        },
    }
    Ok(())
}

/// FAILOVER [TO host port [FORCE]] [ABORT] [TIMEOUT ms]
pub fn failover_command(ctx: &mut CommandContext, repl: &mut ReplicationState) -> (r: Result<
    (),
    RedisError,
>)
    requires
        old(ctx).wf(),
        old(repl).wf(),
    ensures
        final(ctx).wf(),
        final(repl).wf(),
        (done(r, final(ctx)@), final(repl)@) == failover_step(old(ctx)@, old(repl)@),
{
    if ctx.arg_count() == 2 && word(&ctx.client.argv[1], "ABORT") {
        if repl.failover != FailoverState::Idle {
            repl.failover = FailoverState::Idle;
            repl.pause = FailoverPause::Off;
            return ctx.reply_simple_string("OK");
        }
        return Err(RedisError::runtime("ERR No failover in progress."));
    }
    let o: FailoverArgs = match parse_failover_args(&ctx.client.argv) {
        Err(e) => return Err(e),
        Ok(o) => o,
    };
    match check_failover(repl, &o) {
        Err(e) => return Err(e),
        Ok(_) => {},
    }
    let end: i128 = ctx.now_ms as i128 + o.timeout_ms as i128;
    repl.failover_deadline = if o.timeout_ms == 0 {
        0
    } else if end > i64::MAX as i128 {
        i64::MAX
    } else {
        end as i64
    };
    repl.failover = FailoverState::WaitingForSync;
    repl.failover_host = o.host;
    repl.failover_port = o.port;
    repl.failover_force = o.force;
    repl.pause = FailoverPause::Writes;
    ctx.reply_simple_string("OK")
}

/// What a failover does next.
pub enum ManualFailoverAdvance {
    Noop,
    Aborted,
    /// This server follows the replica at that address, under that epoch.
    Started { host: Vec<u8>, port: u16, dialer_epoch: u64 },
}

/// What a failover does next.
#[verifier::ext_equal]
pub enum AdvanceV {
    Noop,
    Aborted,
    Started { host: Seq<u8>, port: u16, dialer_epoch: u64 },
}

impl View for ManualFailoverAdvance {
    type V = AdvanceV;

    open spec fn view(&self) -> AdvanceV {
        match self {
            ManualFailoverAdvance::Noop => AdvanceV::Noop,
            ManualFailoverAdvance::Aborted => AdvanceV::Aborted,
            ManualFailoverAdvance::Started { host, port, dialer_epoch } => AdvanceV::Started {
                host: host@,
                port: *port,
                dialer_epoch: *dialer_epoch,
            },
        }
    }
}

/// Whether a replica can take over: it is online, has the whole stream, and is
/// the one that was asked for, if one was.
pub open spec fn can_take_over(r: ReplV, x: ReplicaV) -> bool {
    &&& x.state == ReplicaState::Online
    &&& x.offset == r.master_offset
    &&& r.failover_host matches Some(h) ==> x.host == h && x.listening_port == r.failover_port
}

/// The position of the first replica from position `i` on that can take over.
pub open spec fn successor(r: ReplV, i: int) -> int
    decreases r.replicas.len() - i,
{
    if i < 0 || i >= r.replicas.len() {
        r.replicas.len() as int
    } else if can_take_over(r, r.replicas[i]) {
        i
    } else {
        successor(r, i + 1)
    }
}

/// The state after the role was handed over: this server follows the replica,
/// and offers it its own stream.
pub open spec fn handed_over(r: ReplV, host: Seq<u8>, port: u16) -> ReplV {
    let r1 = repl_follows(r, host, port);
    ReplV {
        failover: FailoverState::InProgress,
        pause: FailoverPause::Everything,
        cached_replid: Some(r.runid),
        ..r1
    }
}

/// What a failover does at a point in time, and the state after it.
pub open spec fn failover_advanced(r: ReplV, now: i64) -> (AdvanceV, ReplV) {
    if r.failover != FailoverState::WaitingForSync {
        (AdvanceV::Noop, r)
    } else {
        let i = successor(r, 0);
        let late = r.failover_deadline != 0 && now >= r.failover_deadline;
        if i < r.replicas.len() {
            let x = r.replicas[i];
            let r1 = handed_over(r, x.host, x.listening_port);
            (
                AdvanceV::Started {
                    host: x.host,
                    port: x.listening_port,
                    dialer_epoch: r1.dialer_epoch,
                },
                r1,
            )
        } else if late && r.failover_force && r.failover_host is Some {
            let r1 = handed_over(r, r.failover_host->0, r.failover_port);
            (
                AdvanceV::Started {
                    host: r.failover_host->0,
                    port: r.failover_port,
                    dialer_epoch: r1.dialer_epoch,
                },
                r1,
            )
        } else if late {
            (AdvanceV::Aborted, failover_ended(r))
        } else {
            (AdvanceV::Noop, r)
        }
    }
}

/// The position of the first replica that can take over.
fn find_successor(repl: &ReplicationState) -> (r: usize)
    ensures
        r == successor(repl@, 0),
        r <= repl.replicas@.len(),
{
    let mut i: usize = 0;
    while i < repl.replicas.len()
        invariant
            i <= repl.replicas@.len(),
            successor(repl@, 0) == successor(repl@, i as int),
        decreases repl.replicas@.len() - i,
    {
        let x: &ReplicaConn = &repl.replicas[i];
        assert(repl@.replicas[i as int] == x@);
        let wanted: bool = match &repl.failover_host {
            None => true,
            Some(h) => same(&x.host, h) && x.listening_port == repl.failover_port,
        };
        if x.state == ReplicaState::Online && x.offset == repl.master_offset && wanted {
            return i;
        }
        i += 1;
    }
    i
}

/// Hands the role over to a replica.
fn hand_over(repl: &mut ReplicationState, host: Vec<u8>, port: u16) -> (r: ManualFailoverAdvance)
    requires
        old(repl).wf(),
    ensures
        final(repl).wf(),
        final(repl)@ == handed_over(old(repl)@, host@, port),
        r@ == (AdvanceV::Started {
            host: host@,
            port,
            dialer_epoch: final(repl)@.dialer_epoch,
        }),
{
    let copy: Vec<u8> = dup(&host);
    let epoch: u64 = repl.become_replica_of(host, port);
    repl.failover = FailoverState::InProgress;
    repl.pause = FailoverPause::Everything;
    repl.cached_replid = Some(dup(&repl.runid));
    ManualFailoverAdvance::Started { host: copy, port, dialer_epoch: epoch }
}

/// Advances a failover, if one runs.
pub fn drive_manual_failover_once(repl: &mut ReplicationState, now: i64) -> (r:
    ManualFailoverAdvance)
    requires
        old(repl).wf(),
    ensures
        final(repl).wf(),
        (r@, final(repl)@) == failover_advanced(old(repl)@, now),
{
    if repl.failover != FailoverState::WaitingForSync {
        return ManualFailoverAdvance::Noop;
    }
    let i: usize = find_successor(repl);
    if i < repl.replicas.len() {
        let host: Vec<u8> = dup(&repl.replicas[i].host);
        let port: u16 = repl.replicas[i].listening_port;
        return hand_over(repl, host, port);
    }
    let late: bool = repl.failover_deadline != 0 && now >= repl.failover_deadline;
    if !late {
        return ManualFailoverAdvance::Noop;
    }
    if repl.failover_force {
        let target: Option<Vec<u8>> = match &repl.failover_host {
            None => None,
            Some(h) => Some(dup(h)),
        };
        match target {
            Some(h) => {
                let port: u16 = repl.failover_port;
                return hand_over(repl, h, port);
            },
            None => {},
        }
    }
    repl.failover = FailoverState::Idle;
    repl.pause = FailoverPause::Off;
    ManualFailoverAdvance::Aborted
}

/// The state after the new primary has accepted this server.
pub open spec fn failover_completed(r: ReplV) -> ReplV {
    if r.failover == FailoverState::InProgress {
        failover_ended(r)
    } else {
        r
    }
}

/// The new primary has accepted this server. Tells whether a failover ended.
pub fn complete_manual_failover(repl: &mut ReplicationState) -> (r: bool)
    requires
        old(repl).wf(),
    ensures
        final(repl).wf(),
        final(repl)@ == failover_completed(old(repl)@),
        r == (old(repl)@.failover == FailoverState::InProgress),
{
    if repl.failover == FailoverState::InProgress {
        repl.failover = FailoverState::Idle;
        repl.pause = FailoverPause::Off;
        true
    } else {
        false
    }
}

/// Without force, the role is handed over only to a replica that has the whole
/// stream.
pub proof fn law_handover_loses_nothing(r: ReplV, now: i64)
    requires
        !r.failover_force,
        failover_advanced(r, now).0 is Started,
    ensures
        exists|i: int|
            0 <= i < r.replicas.len() && (#[trigger] r.replicas[i]).offset == r.master_offset
                && r.replicas[i].state == ReplicaState::Online,
{
    lemma_successor(r, 0);
}

proof fn lemma_successor(r: ReplV, i: int)
    requires
        0 <= i <= r.replicas.len(),
    ensures
        successor(r, i) < r.replicas.len() ==> i <= successor(r, i) && can_take_over(
            r,
            r.replicas[successor(r, i)],
        ),
    decreases r.replicas.len() - i,
{
    if i < r.replicas.len() && !can_take_over(r, r.replicas[i]) {
        lemma_successor(r, i + 1);
    }
}

} // verus!
