//! The replica's side of a link to a primary: the handshake, the snapshot, and
//! the life of a connection as states, events and actions.

use vstd::prelude::*;
use vstd::utf8::valid_utf8;

use crate::bytes::{
    dec, dup, find, find_byte, fmt_i64, fmt_u64, has_prefix, i64_of, lemma_views_push, lit,
    opt_view, parse_i64, parse_u64, put, same, slice, starts_with, text, u64_of, views,
};
use crate::context::{CommandContext, CtxV};
use crate::persist::PersistState;
use crate::plain_text::{is_utf8, trim, trimmed};
use crate::repl_state::{FailoverState, ReplRole, ReplV, ReplicaLink, ReplicationState};
use crate::replica_stream::{
    ack_if_ready, batch_views, build_replconf_ack_if_ready, frames_in, parse_replica_frames,
    plan_frames, sink_plan, sink_views, SinkOp, SinkV,
};
use crate::replication::{complete_manual_failover, failover_completed};
use crate::resp::{command_frame, encode_resp_command};
use crate::waiters::{redirect_blocked_clients_after_failover, redirected};

verus! {

broadcast use lemma_views_push;

/// The time that the handshake may take, in seconds, where none is configured.
pub const DEFAULT_REPL_TIMEOUT: u64 = 60;

/// The length of a replication ID.
pub const REPLID_LEN: usize = 40;

// ---------------------------------------------------------------------------
// Lines
// ---------------------------------------------------------------------------

/// A line that one more byte was read of, and whether it is complete. Empty
/// lines are skipped.
pub open spec fn line_fed(line: Seq<u8>, b: u8) -> (Seq<u8>, bool) {
    if b == 10 {
        let whole = if line.len() > 0 && line.last() == 13 {
            line.drop_last()
        } else {
            line
        };
        (whole, whole.len() > 0)
    } else {
        (line.push(b), false)
    }
}

/// Adds a byte to a line. Tells whether the line is complete.
pub fn feed_line(line: &mut Vec<u8>, b: u8) -> (r: bool)
    ensures
        (final(line)@, r) == line_fed(old(line)@, b),
{
    if b == 10 {
        let n: usize = line.len();
        if n > 0 && line[n - 1] == 13 {
            line.pop();
            assert(line@ =~= old(line)@.drop_last());
        }
        line.len() > 0
    } else {
        line.push(b);
        false
    }
}

/// Lone line ends, which primaries send to keep a connection alive, are
/// skipped.
pub proof fn law_keepalives_are_skipped()
    ensures
        line_fed(Seq::empty(), 10) == (Seq::<u8>::empty(), false),
        line_fed(seq![13u8], 10) == (Seq::<u8>::empty(), false),
{
    assert(seq![13u8].drop_last() =~= Seq::<u8>::empty());
}

// ---------------------------------------------------------------------------
// The answer to PSYNC
// ---------------------------------------------------------------------------

/// What the primary answers to PSYNC.
pub enum PsyncOutcome {
    /// A snapshot follows.
    FullResync { offset: i64, replid: Vec<u8> },
    /// The stream goes on after the offset.
    Continue { offset: i64 },
}

/// What the primary answers to PSYNC.
#[verifier::ext_equal]
pub enum PsyncV {
    FullResync { offset: i64, replid: Seq<u8> },
    Continue { offset: i64 },
}

impl View for PsyncOutcome {
    type V = PsyncV;

    open spec fn view(&self) -> PsyncV {
        match self {
            PsyncOutcome::FullResync { offset, replid } => PsyncV::FullResync {
                offset: *offset,
                replid: replid@,
            },
            PsyncOutcome::Continue { offset } => PsyncV::Continue { offset: *offset },
        }
    }
}

/// Why an answer to PSYNC is not understood.
#[derive(Debug, Clone, Copy, PartialEq, Eq, Structural)]
pub enum PsyncReplyError {
    NotText,
    MissingOffset,
    BadOffset,
    BadReplid,
    Unexpected,
}

/// Whether bytes are a replication ID: so many ASCII bytes.
pub open spec fn is_replid(s: Seq<u8>) -> bool {
    s.len() == REPLID_LEN && forall|i: int| 0 <= i < s.len() ==> #[trigger] s[i] < 128
}

/// Parses a replication ID.
fn parse_replid(s: &[u8]) -> (r: Option<Vec<u8>>)
    ensures
        match r {
            Some(id) => is_replid(s@) && id@ == s@,
            None => !is_replid(s@),
        },
{
    if s.len() != REPLID_LEN {
        return None;
    }
    let mut i: usize = 0;
    while i < s.len()
        invariant
            i <= s@.len(),
            forall|j: int| 0 <= j < i ==> #[trigger] s@[j] < 128,
        decreases s@.len() - i,
    {
        if s[i] >= 128 {
            assert(s@[i as int] >= 128);
            return None;
        }
        i += 1;
    }
    Some(dup(s))
}

/// What an answer to PSYNC says to a replica at an offset.
pub open spec fn psync_reply(line: Seq<u8>, ours: i64) -> Result<PsyncV, PsyncReplyError> {
    let t = trim(line);
    if !valid_utf8(line) {
        Err(PsyncReplyError::NotText)
    } else if starts_with(t, text("+FULLRESYNC "@)) {
        let rest = t.skip(text("+FULLRESYNC "@).len() as int);
        match find_byte(rest, 32, 0) {
            None => Err(PsyncReplyError::MissingOffset),
            Some(i) => match i64_of(trim(rest.skip(i + 1))) {
                None => Err(PsyncReplyError::BadOffset),
                Some(offset) => if !is_replid(rest.take(i)) {
                    Err(PsyncReplyError::BadReplid)
                } else {
                    Ok(PsyncV::FullResync { offset, replid: rest.take(i) })
                },
            },
        }
    } else if starts_with(t, text("+CONTINUE"@)) {
        Ok(PsyncV::Continue { offset: ours })
    } else {
        Err(PsyncReplyError::Unexpected)
    }
}

/// Parses the answer to PSYNC.
pub fn parse_psync_reply(line: &[u8], our_offset: i64) -> (r: Result<PsyncOutcome, PsyncReplyError>)
    ensures
        match r {
            Ok(o) => psync_reply(line@, our_offset) == Ok::<_, PsyncReplyError>(o@),
            Err(e) => psync_reply(line@, our_offset) == Err::<PsyncV, _>(e),
        },
{
    if !is_utf8(line) {
        return Err(PsyncReplyError::NotText);
    }
    let t: Vec<u8> = trimmed(line);
    let full: Vec<u8> = lit("+FULLRESYNC ");
    let cont: Vec<u8> = lit("+CONTINUE");
    if has_prefix(&t, &full) {
        let rest: Vec<u8> = slice(&t, full.len(), t.len());
        assert(rest@ =~= t@.skip(full@.len() as int));
        let i: usize = match find(&rest, 32, 0) {
            None => return Err(PsyncReplyError::MissingOffset),
            Some(i) => i,
        };
        let tail: Vec<u8> = slice(&rest, i + 1, rest.len());
        assert(tail@ =~= rest@.skip(i + 1));
        let num: Vec<u8> = trimmed(&tail);
        let offset: i64 = match parse_i64(&num) {
            None => return Err(PsyncReplyError::BadOffset),
            Some(n) => n,
        };
        let id: Vec<u8> = slice(&rest, 0, i);
        assert(id@ =~= rest@.take(i as int));
        match parse_replid(&id) {
            None => Err(PsyncReplyError::BadReplid),
            Some(replid) => Ok(PsyncOutcome::FullResync { offset, replid }),
        }
    } else if has_prefix(&t, &cont) {
        Ok(PsyncOutcome::Continue { offset: our_offset })
    } else {
        Err(PsyncReplyError::Unexpected)
    }
}

/// The arguments of the PSYNC that a replica sends.
pub open spec fn psync_args(r: ReplV) -> Seq<Seq<u8>> {
    let failover = r.failover == FailoverState::InProgress;
    match r.cached_replid {
        Some(id) => if failover {
            seq![text("PSYNC"@), id, dec(r.master_offset as int), text("FAILOVER"@)]
        } else if r.master_offset > 0 || r.zero_ok {
            seq![text("PSYNC"@), id, dec(r.master_offset as int)]
        } else {
            seq![text("PSYNC"@), text("?"@), text("-1"@)]
        },
        None => seq![text("PSYNC"@), text("?"@), text("-1"@)],
    }
}

/// Selects the arguments of the PSYNC that a replica sends.
pub fn select_psync_args(repl: &ReplicationState) -> (r: Vec<Vec<u8>>)
    ensures
        views(r@) == psync_args(repl@),
{
    let failover: bool = repl.failover == FailoverState::InProgress;
    let mut a: Vec<Vec<u8>> = Vec::new();
    a.push(lit("PSYNC"));
    match &repl.cached_replid {
        Some(id) => {
            if failover || repl.master_offset > 0 || repl.zero_offset_allowed {
                a.push(dup(id));
                a.push(fmt_i64(repl.master_offset));
                if failover {
                    a.push(lit("FAILOVER"));
                }
                assert(views(a@) =~= psync_args(repl@));
                return a;
            }
        },
        None => {},
    }
    a.push(lit("?"));
    a.push(lit("-1"));
    assert(views(a@) =~= psync_args(repl@));
    a
}

/// A replica that never synchronized asks for a snapshot.
pub proof fn law_fresh_replica_asks_for_snapshot(r: ReplV)
    requires
        r.cached_replid is None,
    ensures
        psync_args(r) == seq![text("PSYNC"@), text("?"@), text("-1"@)],
{
}

// ---------------------------------------------------------------------------
// The snapshot
// ---------------------------------------------------------------------------

/// Why the line before a snapshot is not understood.
#[derive(Debug, Clone, Copy, PartialEq, Eq, Structural)]
pub enum SnapshotHeaderError {
    NotText,
    NotBulk,
    BadSize,
}

/// The size of a snapshot, from the line before it.
pub open spec fn snapshot_size(line: Seq<u8>) -> Result<usize, SnapshotHeaderError> {
    let t = trim(line);
    if !valid_utf8(line) {
        Err(SnapshotHeaderError::NotText)
    } else if t.len() == 0 || t[0] != 36 {
        Err(SnapshotHeaderError::NotBulk)
    } else {
        match u64_of(t.skip(1)) {
            Some(n) => if n <= usize::MAX {
                Ok(n as usize)
            } else {
                Err(SnapshotHeaderError::BadSize)
            },
            None => Err(SnapshotHeaderError::BadSize),
        }
    }
}

/// Parses the line before a snapshot.
pub fn parse_snapshot_header(line: &[u8]) -> (r: Result<usize, SnapshotHeaderError>)
    ensures
        r == snapshot_size(line@),
{
    if !is_utf8(line) {
        return Err(SnapshotHeaderError::NotText);
    }
    let t: Vec<u8> = trimmed(line);
    if t.len() == 0 || t[0] != 36 {
        return Err(SnapshotHeaderError::NotBulk);
    }
    let num: Vec<u8> = slice(&t, 1, t.len());
    assert(num@ =~= t@.skip(1));
    match parse_u64(&num) {
        Some(n) => {
            if n <= usize::MAX as u64 {
                Ok(n as usize)
            } else {
                Err(SnapshotHeaderError::BadSize)
            }
        },
        None => Err(SnapshotHeaderError::BadSize),
    }
}

/// Whether reading may go on, and the state after that was asked: a request to
/// drop the link is used up.
pub open spec fn read_gate(r: ReplV, epoch: u64) -> (bool, ReplV) {
    if r.dialer_epoch != epoch {
        (false, r)
    } else if r.link_drop {
        (false, ReplV { link_drop: false, ..r })
    } else {
        (true, r)
    }
}

/// Tells whether reading may go on.
pub fn may_read(repl: &mut ReplicationState, epoch: u64) -> (r: bool)
    ensures
        (r, final(repl)@) == read_gate(old(repl)@, epoch),
        old(repl).wf() ==> final(repl).wf(),
{
    if repl.dialer_epoch != epoch {
        return false;
    }
    if repl.link_drop {
        repl.link_drop = false;
        return false;
    }
    true
}

/// What a read came to.
#[derive(Debug, Clone, Copy, PartialEq, Eq, Structural)]
pub enum ReadEvent {
    Got(usize),
    Closed,
    /// Nothing came; so long is it since the last byte, in milliseconds.
    Quiet(u64),
    Failed,
}

/// How a read goes on.
#[derive(Debug, Clone, Copy, PartialEq, Eq, Structural)]
pub enum ReadNext {
    /// So many bytes are there.
    More(usize),
    Done,
    Eof,
    TimedOut,
    Failed,
}

/// How a read of `wanted` bytes goes on after `filled` of them are there.
pub open spec fn read_next(filled: usize, wanted: usize, e: ReadEvent, timeout: u64) -> ReadNext {
    match e {
        ReadEvent::Got(n) => if n == 0 {
            ReadNext::Eof
        } else if filled + n >= wanted {
            ReadNext::Done
        } else {
            ReadNext::More((filled + n) as usize)
        },
        ReadEvent::Closed => ReadNext::Eof,
        ReadEvent::Quiet(ms) => if ms >= timeout {
            ReadNext::TimedOut
        } else {
            ReadNext::More(filled)
        },
        ReadEvent::Failed => ReadNext::Failed,
    }
}

/// Decides how a read goes on.
pub fn read_progress(filled: usize, wanted: usize, e: ReadEvent, timeout_ms: u64) -> (r: ReadNext)
    requires
        filled <= wanted,
    ensures
        r == read_next(filled, wanted, e, timeout_ms),
{
    match e {
        ReadEvent::Got(n) => {
            if n == 0 {
                ReadNext::Eof
            } else if n >= wanted - filled {
                ReadNext::Done
            } else {
                ReadNext::More(filled + n)
            }
        },
        ReadEvent::Closed => ReadNext::Eof,
        ReadEvent::Quiet(ms) => {
            if ms >= timeout_ms {
                ReadNext::TimedOut
            } else {
                ReadNext::More(filled)
            }
        },
        ReadEvent::Failed => ReadNext::Failed,
    }
}

/// How a snapshot replaces the data.
#[derive(Debug, Clone, Copy, PartialEq, Eq, Structural)]
pub enum ReplDisklessLoadMode {
    Disabled,
    FlushBeforeLoad,
    OnEmptyDb,
    Swapdb,
}

/// The state of persistence while a snapshot is loaded.
pub open spec fn loading_published(
    p: PersistState,
    mode: ReplDisklessLoadMode,
    async_loading: bool,
) -> PersistState {
    if mode == ReplDisklessLoadMode::Disabled {
        p
    } else {
        PersistState {
            loading: true,
            async_loading: mode == ReplDisklessLoadMode::Swapdb && async_loading,
            ..p
        }
    }
}

/// Publishes that a snapshot is loaded. Tells whether that is logged.
pub fn publish_fullsync_loading_state(
    p: &mut PersistState,
    mode: ReplDisklessLoadMode,
    async_loading: bool,
) -> (r: bool)
    ensures
        *final(p) == loading_published(*old(p), mode, async_loading),
        r == (mode != ReplDisklessLoadMode::Disabled),
{
    match mode {
        ReplDisklessLoadMode::Disabled => false,
        ReplDisklessLoadMode::Swapdb => {
            p.loading = true;
            p.async_loading = async_loading;
            true
        },
        ReplDisklessLoadMode::FlushBeforeLoad => {
            p.loading = true;
            p.async_loading = false;
            true
        },
        ReplDisklessLoadMode::OnEmptyDb => {
            p.loading = true;
            p.async_loading = false;
            true
        },
    }
}

/// The state of persistence when no snapshot is loaded any more.
pub open spec fn loading_cleared(p: PersistState) -> PersistState {
    PersistState { loading: false, async_loading: false, ..p }
}

/// Publishes that no snapshot is loaded any more.
pub fn clear_fullsync_loading_state(p: &mut PersistState)
    ensures
        *final(p) == loading_cleared(*old(p)),
{
    p.loading = false;
    p.async_loading = false;
}

/// The state of replication after a snapshot of a primary was loaded.
pub open spec fn primary_adopted(r: ReplV, replid: Seq<u8>, offset: i64) -> ReplV {
    ReplV {
        cached_replid: Some(replid),
        master_offset: offset,
        zero_ok: offset == 0,
        backlog: Seq::empty(),
        ..r
    }
}

/// Takes over the replication ID and the offset of a primary.
pub fn adopt_fullresync_primary(repl: &mut ReplicationState, replid: Vec<u8>, offset: i64)
    ensures
        final(repl).wf(),
        final(repl)@ == primary_adopted(old(repl)@, replid@, offset),
{
    repl.cached_replid = Some(replid);
    repl.master_offset = offset;
    repl.zero_offset_allowed = offset == 0;
    repl.drop_backlog();
    assert(repl@ =~= primary_adopted(old(repl)@, replid@, offset));
}

/// After a snapshot was loaded, the replica asks that primary to go on where
/// the snapshot ends.
pub proof fn law_resync_asks_to_go_on(r: ReplV, replid: Seq<u8>, offset: i64)
    requires
        offset >= 0,
        r.failover != FailoverState::InProgress,
    ensures
        psync_args(primary_adopted(r, replid, offset)) == seq![
            text("PSYNC"@),
            replid,
            dec(offset as int),
        ],
{
}

// ---------------------------------------------------------------------------
// Becoming online
// ---------------------------------------------------------------------------

/// The states after this replica was published as online. A failover that
/// brought it here ends, and clients are sent to the new primary.
pub open spec fn online_published(c: CtxV, r: ReplV) -> (CtxV, ReplV) {
    let r1 = ReplV { role: ReplRole::ReplicaOnline, link: ReplicaLink::Connected, ..r };
    if r.failover == FailoverState::InProgress {
        (redirected(c, failover_completed(r1)), failover_completed(r1))
    } else {
        (c, r1)
    }
}

/// Publishes this replica as online.
pub fn publish_replica_online_after_psync(ctx: &mut CommandContext, repl: &mut ReplicationState)
    requires
        old(ctx).wf(),
        old(repl).wf(),
    ensures
        final(ctx).wf(),
        final(repl).wf(),
        (final(ctx)@, final(repl)@) == online_published(old(ctx)@, old(repl)@),
{
    repl.role = ReplRole::ReplicaOnline;
    repl.link = ReplicaLink::Connected;
    if complete_manual_failover(repl) {
        redirect_blocked_clients_after_failover(ctx, repl);
    }
}

/// Lets this replica acknowledge, once the stream after a snapshot is idle.
/// Tells whether it had to wait.
pub fn release_fullsync_ack_after_idle(repl: &mut ReplicationState, pending: &mut bool) -> (r: bool)
    requires
        old(repl).wf(),
    ensures
        final(repl).wf(),
        !*final(pending),
        r == *old(pending),
        final(repl)@ == (if *old(pending) {
            ReplV { link: ReplicaLink::Connected, ..old(repl)@ }
        } else {
            old(repl)@
        }),
{
    if !*pending {
        return false;
    }
    *pending = false;
    repl.link = ReplicaLink::Connected;
    true
}

/// Publishes this replica as online, once it has caught up. Tells whether it
/// had to wait.
pub fn release_partial_online_after_idle(
    ctx: &mut CommandContext,
    repl: &mut ReplicationState,
    pending: &mut bool,
) -> (r: bool)
    requires
        old(ctx).wf(),
        old(repl).wf(),
    ensures
        final(ctx).wf(),
        final(repl).wf(),
        !*final(pending),
        r == *old(pending),
        (final(ctx)@, final(repl)@) == (if *old(pending) {
            online_published(old(ctx)@, old(repl)@)
        } else {
            (old(ctx)@, old(repl)@)
        }),
{
    if !*pending {
        return false;
    }
    *pending = false;
    publish_replica_online_after_psync(ctx, repl);
    true
}

/// The states after the stream was idle, and the acknowledgement that is due.
pub open spec fn idle_released(c: CtxV, r: ReplV, ack: bool, online: bool, fack: i64) -> (
    CtxV,
    ReplV,
    Option<Seq<u8>>,
) {
    let (c1, r1) = if online {
        online_published(c, r)
    } else {
        (c, r)
    };
    let r2 = if ack {
        ReplV { link: ReplicaLink::Connected, ..r1 }
    } else {
        r1
    };
    (
        c1,
        r2,
        if ack || online {
            ack_if_ready(r2, false, r2.master_offset, fack)
        } else {
            None
        },
    )
}

/// The stream is idle: what waited for that is done. Gives the acknowledgement
/// that is due.
pub fn release_idle_state_and_ack(
    ctx: &mut CommandContext,
    repl: &mut ReplicationState,
    defer_ack: &mut bool,
    defer_online: &mut bool,
    fack: i64,
) -> (r: Option<Vec<u8>>)
    requires
        old(ctx).wf(),
        old(repl).wf(),
    ensures
        final(ctx).wf(),
        final(repl).wf(),
        !*final(defer_ack),
        !*final(defer_online),
        (final(ctx)@, final(repl)@, opt_view(r)) == idle_released(
            old(ctx)@,
            old(repl)@,
            *old(defer_ack),
            *old(defer_online),
            fack,
        ),
{
    let released_online: bool = release_partial_online_after_idle(ctx, repl, defer_online);
    let released_ack: bool = release_fullsync_ack_after_idle(repl, defer_ack);
    if !released_online && !released_ack {
        return None;
    }
    build_replconf_ack_if_ready(repl, *defer_ack, repl.master_offset, fack)
}

/// Once what waited for an idle stream is done, later idle moments change
/// nothing.
pub proof fn law_idle_release_happens_once(c: CtxV, r: ReplV, fack: i64)
    ensures
        idle_released(c, r, false, false, fack) == (c, r, None::<Seq<u8>>),
{
}

/// When a replica stops waiting for an idle stream, it acknowledges at once how
/// far it is.
pub proof fn law_release_acknowledges(c: CtxV, r: ReplV, ack: bool, online: bool, fack: i64)
    requires
        ack || online,
    ensures
        idle_released(c, r, ack, online, fack).2 == Some(
            crate::replica_stream::ack_frame(r.master_offset, fack),
        ),
        idle_released(c, r, ack, online, fack).1.link == ReplicaLink::Connected,
{
}

// ---------------------------------------------------------------------------
// The handshake
// ---------------------------------------------------------------------------

/// A step of the handshake.
#[derive(Debug, Clone, Copy, PartialEq, Eq, Structural)]
pub enum Greeting {
    Auth,
    Ping,
    Port,
    Capa,
    Psync,
}

/// What is configured of the link.
pub struct DialConfig {
    /// The password of the primary.
    pub auth: Option<Vec<u8>>,
    /// Snapshots may come on a second connection.
    pub dual: bool,
    pub load: ReplDisklessLoadMode,
    pub our_port: u16,
}

/// What is configured of the link.
#[verifier::ext_equal]
pub struct ConfigV {
    pub auth: Option<Seq<u8>>,
    pub dual: bool,
    pub load: ReplDisklessLoadMode,
    pub our_port: u16,
}

impl View for DialConfig {
    type V = ConfigV;

    open spec fn view(&self) -> ConfigV {
        ConfigV {
            auth: opt_view(self.auth),
            dual: self.dual,
            load: self.load,
            our_port: self.our_port,
        }
    }
}

/// The first step of the handshake.
pub open spec fn first_greeting(cfg: ConfigV) -> Greeting {
    if cfg.auth is Some {
        Greeting::Auth
    } else {
        Greeting::Ping
    }
}

/// The step of the handshake after another one.
pub open spec fn next_greeting(g: Greeting) -> Greeting {
    match g {
        Greeting::Auth => Greeting::Ping,
        Greeting::Ping => Greeting::Port,
        Greeting::Port => Greeting::Capa,
        Greeting::Capa => Greeting::Psync,
        Greeting::Psync => Greeting::Psync,
    }
}

/// The command that a step of the handshake sends.
pub open spec fn greeting_args(g: Greeting, cfg: ConfigV, r: ReplV) -> Seq<Seq<u8>> {
    match g {
        Greeting::Auth => match cfg.auth {
            Some(pw) => seq![text("AUTH"@), pw],
            None => seq![text("AUTH"@)],
        },
        Greeting::Ping => seq![text("PING"@)],
        Greeting::Port => seq![
            text("REPLCONF"@),
            text("listening-port"@),
            dec(cfg.our_port as int),
        ],
        Greeting::Capa => if cfg.dual {
            seq![text("REPLCONF"@), text("capa"@), text("psync2"@), text("dual-channel"@)]
        } else {
            seq![text("REPLCONF"@), text("capa"@), text("psync2"@)]
        },
        Greeting::Psync => psync_args(r),
    }
}

/// Whether the primary accepted a step of the handshake before PSYNC.
pub open spec fn greeting_accepted(g: Greeting, line: Seq<u8>) -> bool {
    if g == Greeting::Ping {
        starts_with(line, text("+PONG"@)) || starts_with(line, text("+pong"@))
    } else {
        starts_with(line, text("+OK"@))
    }
}

/// Builds the command that a step of the handshake sends.
pub fn greeting_frame(g: Greeting, cfg: &DialConfig, repl: &ReplicationState) -> (r: Vec<u8>)
    ensures
        r@ == command_frame(greeting_args(g, cfg@, repl@)),
{
    let mut a: Vec<Vec<u8>> = Vec::new();
    match g {
        Greeting::Auth => {
            a.push(lit("AUTH"));
            match &cfg.auth {
                Some(pw) => a.push(dup(pw)),
                None => {},
            }
        },
        Greeting::Ping => a.push(lit("PING")),
        Greeting::Port => {
            a.push(lit("REPLCONF"));
            a.push(lit("listening-port"));
            a.push(fmt_u64(cfg.our_port as u64));
        },
        Greeting::Capa => {
            a.push(lit("REPLCONF"));
            a.push(lit("capa"));
            a.push(lit("psync2"));
            if cfg.dual {
                a.push(lit("dual-channel"));
            }
        },
        Greeting::Psync => {
            a = select_psync_args(repl);
        },
    }
    assert(views(a@) =~= greeting_args(g, cfg@, repl@));
    encode_resp_command(&a)
}

/// Whether the primary accepted a step of the handshake before PSYNC.
pub fn accepts_greeting(g: Greeting, line: &[u8]) -> (r: bool)
    ensures
        r == greeting_accepted(g, line@),
{
    if g == Greeting::Ping {
        let a: Vec<u8> = lit("+PONG");
        let b: Vec<u8> = lit("+pong");
        has_prefix(line, &a) || has_prefix(line, &b)
    } else {
        let a: Vec<u8> = lit("+OK");
        has_prefix(line, &a)
    }
}

/// The time that the handshake may take, in seconds.
pub fn handshake_timeout_secs(configured: Option<u64>) -> (r: u64)
    ensures
        r == (match configured {
            Some(n) => if n == 0 {
                1
            } else {
                n
            },
            None => DEFAULT_REPL_TIMEOUT,
        }),
{
    match configured {
        Some(n) => if n == 0 { 1 } else { n },
        None => DEFAULT_REPL_TIMEOUT,
    }
}

// ---------------------------------------------------------------------------
// The life of a connection
// ---------------------------------------------------------------------------

/// Where a connection to a primary stands.
#[derive(Debug, Clone, Copy, PartialEq, Eq, Structural)]
pub enum DialStage {
    Pausing,
    Connecting,
    Greeting(Greeting),
    /// A snapshot is being received.
    Receiving,
    /// A snapshot is being loaded.
    Loading,
    /// The stream is followed.
    Following,
    Stopped,
}

/// A connection to a primary.
pub struct Dialer {
    /// The connection ends when the epoch has changed.
    pub epoch: u64,
    pub stage: DialStage,
    /// The replication ID and the offset of the snapshot that comes.
    pub new_replid: Vec<u8>,
    pub new_offset: i64,
    /// What was read of the stream and is not a complete frame yet.
    pub buf: Vec<u8>,
    /// The offset in the stream.
    pub offset: i64,
    /// The commands that wait to be applied.
    pub batch: Vec<(Vec<Vec<u8>>, i64)>,
    /// No offset is acknowledged before the stream is idle.
    pub defer_ack: bool,
    /// The replica is not published as online before the stream is idle.
    pub defer_online: bool,
}

/// A connection to a primary.
#[verifier::ext_equal]
pub struct DialerV {
    pub epoch: u64,
    pub stage: DialStage,
    pub new_replid: Seq<u8>,
    pub new_offset: i64,
    pub buf: Seq<u8>,
    pub offset: i64,
    pub batch: Seq<(Seq<Seq<u8>>, i64)>,
    pub defer_ack: bool,
    pub defer_online: bool,
}

impl View for Dialer {
    type V = DialerV;

    open spec fn view(&self) -> DialerV {
        DialerV {
            epoch: self.epoch,
            stage: self.stage,
            new_replid: self.new_replid@,
            new_offset: self.new_offset,
            buf: self.buf@,
            offset: self.offset,
            batch: batch_views(self.batch@),
            defer_ack: self.defer_ack,
            defer_online: self.defer_online,
        }
    }
}

impl Dialer {
    /// A connection that is to be made.
    pub fn new(epoch: u64) -> (r: Dialer)
        ensures
            r@ == (DialerV {
                epoch,
                stage: DialStage::Pausing,
                new_replid: Seq::empty(),
                new_offset: 0,
                buf: Seq::empty(),
                offset: 0,
                batch: Seq::empty(),
                defer_ack: false,
                defer_online: false,
            }),
    {
        let r = Dialer {
            epoch,
            stage: DialStage::Pausing,
            new_replid: Vec::new(),
            new_offset: 0,
            buf: Vec::new(),
            offset: 0,
            batch: Vec::new(),
            defer_ack: false,
            defer_online: false,
        };
        assert(r@.batch =~= Seq::empty());
        r
    }
}

/// What happened to a connection.
pub enum DialEvent {
    /// The next round may begin, in so many milliseconds.
    Round(i64),
    Connected,
    /// The primary answered in the handshake.
    Line(Vec<u8>),
    /// The connection could not be made, or broke.
    Broken,
    /// The snapshot is there.
    Snapshot(Vec<u8>),
    /// The snapshot was loaded, or could not be.
    Loaded(bool),
    /// The stream is about to be read.
    Reading,
    /// Bytes of the stream came.
    Data(Vec<u8>),
    /// No bytes came for a while. The local log is on disk up to the offset.
    Quiet(i64),
}

/// What happened to a connection.
#[verifier::ext_equal]
pub enum EventV {
    Round(i64),
    Connected,
    Line(Seq<u8>),
    Broken,
    Snapshot(Seq<u8>),
    Loaded(bool),
    Reading,
    Data(Seq<u8>),
    Quiet(i64),
}

impl View for DialEvent {
    type V = EventV;

    open spec fn view(&self) -> EventV {
        match self {
            DialEvent::Round(n) => EventV::Round(*n),
            DialEvent::Connected => EventV::Connected,
            DialEvent::Line(l) => EventV::Line(l@),
            DialEvent::Broken => EventV::Broken,
            DialEvent::Snapshot(b) => EventV::Snapshot(b@),
            DialEvent::Loaded(ok) => EventV::Loaded(*ok),
            DialEvent::Reading => EventV::Reading,
            DialEvent::Data(b) => EventV::Data(b@),
            DialEvent::Quiet(n) => EventV::Quiet(*n),
        }
    }
}

/// What the caller has to do for a connection.
pub enum DialAction {
    Nothing,
    /// The connection is closed for good.
    Stop,
    /// The connection is closed; the next round begins after so many
    /// milliseconds.
    Sleep(u64),
    Connect,
    Send(Vec<u8>),
    ReadSnapshot,
    Load { bytes: Vec<u8>, offset: i64 },
    /// The stream is read from the offset on.
    Follow(i64),
    Work(Vec<SinkOp>),
}

/// What the caller has to do for a connection.
#[verifier::ext_equal]
pub enum DialActionV {
    Nothing,
    Stop,
    Sleep(u64),
    Connect,
    Send(Seq<u8>),
    ReadSnapshot,
    Load { bytes: Seq<u8>, offset: i64 },
    Follow(i64),
    Work(Seq<SinkV>),
}

impl View for DialAction {
    type V = DialActionV;

    open spec fn view(&self) -> DialActionV {
        match self {
            DialAction::Nothing => DialActionV::Nothing,
            DialAction::Stop => DialActionV::Stop,
            DialAction::Sleep(n) => DialActionV::Sleep(*n),
            DialAction::Connect => DialActionV::Connect,
            DialAction::Send(f) => DialActionV::Send(f@),
            DialAction::ReadSnapshot => DialActionV::ReadSnapshot,
            DialAction::Load { bytes, offset } => DialActionV::Load {
                bytes: bytes@,
                offset: *offset,
            },
            DialAction::Follow(n) => DialActionV::Follow(*n),
            DialAction::Work(ops) => DialActionV::Work(sink_views(ops@)),
        }
    }
}

/// All that a connection changes.
pub struct DialWorld {
    pub d: DialerV,
    pub c: CtxV,
    pub r: ReplV,
    pub p: PersistState,
}

/// The world at another stage.
pub open spec fn at_stage(w: DialWorld, stage: DialStage) -> DialWorld {
    DialWorld { d: DialerV { stage, ..w.d }, ..w }
}

/// The world with another link.
pub open spec fn with_link(w: DialWorld, link: ReplicaLink) -> DialWorld {
    DialWorld { r: ReplV { link, ..w.r }, ..w }
}

/// Whether the connection still has a say.
pub open spec fn is_current(w: DialWorld) -> bool {
    w.r.dialer_epoch == w.d.epoch
}

/// The connection ends for good.
pub open spec fn stops(w: DialWorld) -> (DialWorld, DialActionV) {
    (at_stage(w, DialStage::Stopped), DialActionV::Stop)
}

/// The connection is tried again after a while.
pub open spec fn retries(w: DialWorld) -> (DialWorld, DialActionV) {
    (
        at_stage(with_link(w, ReplicaLink::Connect), DialStage::Pausing),
        DialActionV::Sleep(200),
    )
}

/// The connection is lost: this server looks for its primary again.
pub open spec fn loses(w: DialWorld) -> (DialWorld, DialActionV) {
    retries(DialWorld { r: ReplV { role: ReplRole::ReplicaConnecting, ..w.r }, ..w })
}

/// The stream is followed from an offset on.
pub open spec fn follows(w: DialWorld, offset: i64, defer_ack: bool, defer_online: bool) -> (
    DialWorld,
    DialActionV,
) {
    let d = DialerV {
        stage: DialStage::Following,
        offset,
        buf: Seq::empty(),
        batch: Seq::empty(),
        defer_ack,
        defer_online,
        ..w.d
    };
    let (c, r) = if defer_online {
        (w.c, w.r)
    } else {
        online_published(w.c, w.r)
    };
    (DialWorld { d, c, r, ..w }, DialActionV::Follow(offset))
}

/// The primary answered PSYNC.
#[verifier::opaque]
pub open spec fn psync_answered(w: DialWorld, cfg: ConfigV, line: Seq<u8>) -> (
    DialWorld,
    DialActionV,
) {
    match psync_reply(line, w.r.master_offset) {
        Err(_) => retries(w),
        Ok(o) => if !is_current(w) {
            stops(w)
        } else {
            match o {
                PsyncV::Continue { offset } => follows(w, offset, false, true),
                PsyncV::FullResync { offset, replid } => {
                    let w1 = with_link(w, ReplicaLink::Transfer);
                    (
                        DialWorld {
                            d: DialerV {
                                stage: DialStage::Receiving,
                                new_replid: replid,
                                new_offset: offset,
                                ..w.d
                            },
                            p: loading_published(
                                w.p,
                                cfg.load,
                                w.r.cached_replid == Some(replid),
                            ),
                            ..w1
                        },
                        DialActionV::ReadSnapshot,
                    )
                },
            }
        },
    }
}

/// The primary answered a step of the handshake.
#[verifier::opaque]
pub open spec fn greeted(w: DialWorld, cfg: ConfigV, g: Greeting, line: Seq<u8>) -> (
    DialWorld,
    DialActionV,
) {
    if g == Greeting::Psync {
        psync_answered(w, cfg, line)
    } else if !greeting_accepted(g, line) {
        retries(w)
    } else {
        let next = next_greeting(g);
        (
            at_stage(w, DialStage::Greeting(next)),
            DialActionV::Send(command_frame(greeting_args(next, cfg, w.r))),
        )
    }
}

/// The snapshot was loaded, or could not be.
#[verifier::opaque]
pub open spec fn snapshot_loaded(w: DialWorld, ok: bool) -> (DialWorld, DialActionV) {
    let w1 = DialWorld { p: loading_cleared(w.p), ..w };
    if !ok {
        loses(w1)
    } else {
        follows(
            DialWorld { r: primary_adopted(w.r, w.d.new_replid, w.d.new_offset), ..w1 },
            w.d.new_offset,
            true,
            false,
        )
    }
}

/// Bytes of the stream came.
#[verifier::opaque]
pub open spec fn data_came(w: DialWorld, bytes: Seq<u8>) -> (DialWorld, DialActionV) {
    if !is_current(w) {
        stops(w)
    } else {
        let (frames, buf, offset) = frames_in(w.d.buf + bytes, w.d.offset, Seq::empty());
        match frames {
            Err(_) => loses(DialWorld { d: DialerV { buf, offset, ..w.d }, ..w }),
            Ok(fs) => {
                let (ops, batch) = sink_plan(w.d.batch, fs);
                (
                    DialWorld { d: DialerV { buf, offset, batch, ..w.d }, ..w },
                    DialActionV::Work(ops),
                )
            },
        }
    }
}

/// What a connection does that is to be made.
#[verifier::opaque]
pub open spec fn pausing(w: DialWorld, e: EventV) -> (DialWorld, DialActionV) {
    match e {
        EventV::Round(ms) => if !is_current(w) {
            stops(w)
        } else if ms > 50 {
            (w, DialActionV::Sleep(50))
        } else if ms > 0 {
            (w, DialActionV::Sleep(ms as u64))
        } else {
            (
                at_stage(with_link(w, ReplicaLink::Connecting), DialStage::Connecting),
                DialActionV::Connect,
            )
        },
        _ => (w, DialActionV::Nothing),
    }
}

/// What a connection does that is being made.
#[verifier::opaque]
pub open spec fn connecting(w: DialWorld, cfg: ConfigV, e: EventV) -> (DialWorld, DialActionV) {
    match e {
        EventV::Connected => {
            let w1 = with_link(w, ReplicaLink::Handshake);
            (
                at_stage(w1, DialStage::Greeting(first_greeting(cfg))),
                DialActionV::Send(command_frame(greeting_args(first_greeting(cfg), cfg, w1.r))),
            )
        },
        EventV::Broken => retries(w),
        _ => (w, DialActionV::Nothing),
    }
}

/// What a connection does in the handshake.
#[verifier::opaque]
pub open spec fn greeting(w: DialWorld, cfg: ConfigV, g: Greeting, e: EventV) -> (
    DialWorld,
    DialActionV,
) {
    match e {
        EventV::Line(line) => greeted(w, cfg, g, line),
        EventV::Broken => retries(w),
        _ => (w, DialActionV::Nothing),
    }
}

/// What a connection does that receives a snapshot.
#[verifier::opaque]
pub open spec fn receiving(w: DialWorld, e: EventV) -> (DialWorld, DialActionV) {
    let cleared = DialWorld { p: loading_cleared(w.p), ..w };
    match e {
        EventV::Broken => if is_current(w) {
            loses(cleared)
        } else {
            stops(cleared)
        },
        EventV::Snapshot(bytes) => if is_current(w) {
            (
                at_stage(w, DialStage::Loading),
                DialActionV::Load { bytes, offset: w.d.new_offset },
            )
        } else {
            stops(cleared)
        },
        _ => (w, DialActionV::Nothing),
    }
}

/// What a connection does whose snapshot is being loaded.
#[verifier::opaque]
pub open spec fn loading(w: DialWorld, e: EventV) -> (DialWorld, DialActionV) {
    match e {
        EventV::Loaded(ok) => snapshot_loaded(w, ok),
        _ => (w, DialActionV::Nothing),
    }
}

/// The stream was idle.
#[verifier::opaque]
pub open spec fn went_quiet(w: DialWorld, fack: i64) -> (DialWorld, DialActionV) {
    let (c, r, ack) = idle_released(w.c, w.r, w.d.defer_ack, w.d.defer_online, fack);
    (
        DialWorld { d: DialerV { defer_ack: false, defer_online: false, ..w.d }, c, r, ..w },
        match ack {
            Some(f) => DialActionV::Send(f),
            None => DialActionV::Nothing,
        },
    )
}

/// What a connection does that follows the stream.
#[verifier::opaque]
pub open spec fn following(w: DialWorld, e: EventV) -> (DialWorld, DialActionV) {
    match e {
        EventV::Reading => if !is_current(w) {
            stops(w)
        } else if w.r.link_drop {
            loses(DialWorld { r: ReplV { link_drop: false, ..w.r }, ..w })
        } else {
            (w, DialActionV::Nothing)
        },
        EventV::Data(bytes) => data_came(w, bytes),
        EventV::Quiet(fack) => went_quiet(w, fack),
        EventV::Broken => if is_current(w) {
            loses(w)
        } else {
            stops(w)
        },
        _ => (w, DialActionV::Nothing),
    }
}

/// What a connection does when something happened. What cannot happen at its
/// stage changes nothing.
pub open spec fn dial(w: DialWorld, cfg: ConfigV, e: EventV) -> (DialWorld, DialActionV) {
    match w.d.stage {
        DialStage::Pausing => pausing(w, e),
        DialStage::Connecting => connecting(w, cfg, e),
        DialStage::Greeting(g) => greeting(w, cfg, g, e),
        DialStage::Receiving => receiving(w, e),
        DialStage::Loading => loading(w, e),
        DialStage::Following => following(w, e),
        DialStage::Stopped => (w, DialActionV::Nothing),
    }
}

/// The world as it is.
pub open spec fn world(
    d: Dialer,
    ctx: CommandContext,
    repl: ReplicationState,
    p: PersistState,
) -> DialWorld {
    DialWorld { d: d@, c: ctx@, r: repl@, p }
}

/// The connection is tried again after a while.
fn retry(d: &mut Dialer, repl: &mut ReplicationState) -> (r: DialAction)
    requires
        old(repl).wf(),
    ensures
        final(repl).wf(),
        final(d)@ == (DialerV { stage: DialStage::Pausing, ..old(d)@ }),
        final(repl)@ == (ReplV { link: ReplicaLink::Connect, ..old(repl)@ }),
        r@ == DialActionV::Sleep(200),
{
    repl.link = ReplicaLink::Connect;
    d.stage = DialStage::Pausing;
    DialAction::Sleep(200)
}

/// The connection ends for good.
fn stop(d: &mut Dialer) -> (r: DialAction)
    ensures
        final(d)@ == (DialerV { stage: DialStage::Stopped, ..old(d)@ }),
        r@ == DialActionV::Stop,
{
    d.stage = DialStage::Stopped;
    DialAction::Stop
}

/// The connection is lost.
fn lose(d: &mut Dialer, repl: &mut ReplicationState) -> (r: DialAction)
    requires
        old(repl).wf(),
    ensures
        final(repl).wf(),
        final(d)@ == (DialerV { stage: DialStage::Pausing, ..old(d)@ }),
        final(repl)@ == (ReplV {
            role: ReplRole::ReplicaConnecting,
            link: ReplicaLink::Connect,
            ..old(repl)@
        }),
        r@ == DialActionV::Sleep(200),
{
    repl.role = ReplRole::ReplicaConnecting;
    retry(d, repl)
}

/// Follows the stream from an offset on.
fn follow(
    d: &mut Dialer,
    ctx: &mut CommandContext,
    repl: &mut ReplicationState,
    offset: i64,
    defer_ack: bool,
    defer_online: bool,
) -> (r: DialAction)
    requires
        old(ctx).wf(),
        old(repl).wf(),
    ensures
        final(ctx).wf(),
        final(repl).wf(),
        forall|p: PersistState|
            (#[trigger] world(*final(d), *final(ctx), *final(repl), p), r@) == follows(
                world(*old(d), *old(ctx), *old(repl), p),
                offset,
                defer_ack,
                defer_online,
            ),
{
    d.stage = DialStage::Following;
    d.offset = offset;
    d.buf = Vec::new();
    d.batch = Vec::new();
    d.defer_ack = defer_ack;
    d.defer_online = defer_online;
    assert(d@.batch =~= Seq::empty());
    if !defer_online {
        publish_replica_online_after_psync(ctx, repl);
    }
    DialAction::Follow(offset)
}

/// The primary answered PSYNC.
fn psync_line(
    d: &mut Dialer,
    ctx: &mut CommandContext,
    repl: &mut ReplicationState,
    p: &mut PersistState,
    cfg: &DialConfig,
    line: &[u8],
) -> (r: DialAction)
    requires
        old(ctx).wf(),
        old(repl).wf(),
    ensures
        final(ctx).wf(),
        final(repl).wf(),
        (world(*final(d), *final(ctx), *final(repl), *final(p)), r@) == psync_answered(
            world(*old(d), *old(ctx), *old(repl), *old(p)),
            cfg@,
            line@,
        ),
{
    proof {
        reveal(psync_answered);
    }
    let outcome: PsyncOutcome = match parse_psync_reply(line, repl.master_offset) {
        Err(_) => return retry(d, repl),
        Ok(o) => o,
    };
    if repl.dialer_epoch != d.epoch {
        return stop(d);
    }
    match outcome {
        PsyncOutcome::Continue { offset } => follow(d, ctx, repl, offset, false, true),
        PsyncOutcome::FullResync { offset, replid } => {
            let known: bool = match &repl.cached_replid {
                None => false,
                Some(id) => same(id, &replid),
            };
            repl.link = ReplicaLink::Transfer;
            publish_fullsync_loading_state(p, cfg.load, known);
            d.stage = DialStage::Receiving;
            d.new_replid = replid;
            d.new_offset = offset;
            DialAction::ReadSnapshot
        },
    }
}

/// The primary answered a step of the handshake.
#[verifier::spinoff_prover]
#[verifier::rlimit(60)]
fn greeting_line(
    d: &mut Dialer,
    ctx: &mut CommandContext,
    repl: &mut ReplicationState,
    p: &mut PersistState,
    cfg: &DialConfig,
    g: Greeting,
    line: &[u8],
) -> (r: DialAction)
    requires
        old(ctx).wf(),
        old(repl).wf(),
    ensures
        final(ctx).wf(),
        final(repl).wf(),
        (world(*final(d), *final(ctx), *final(repl), *final(p)), r@) == greeted(
            world(*old(d), *old(ctx), *old(repl), *old(p)),
            cfg@,
            g,
            line@,
        ),
{
    proof {
        reveal(greeted);
    }
    let next: Greeting = match g {
        Greeting::Auth => Greeting::Ping,
        Greeting::Ping => Greeting::Port,
        Greeting::Port => Greeting::Capa,
        Greeting::Capa => Greeting::Psync,
        Greeting::Psync => return psync_line(d, ctx, repl, p, cfg, line),
    };
    if !accepts_greeting(g, line) {
        return retry(d, repl);
    }
    d.stage = DialStage::Greeting(next);
    DialAction::Send(greeting_frame(next, cfg, repl))
}

/// Bytes of the stream came.
fn stream_data(
    d: &mut Dialer,
    ctx: &CommandContext,
    repl: &mut ReplicationState,
    p: &PersistState,
    bytes: &[u8],
) -> (r: DialAction)
    requires
        old(repl).wf(),
    ensures
        final(repl).wf(),
        (world(*final(d), *ctx, *final(repl), *p), r@) == data_came(
            world(*old(d), *ctx, *old(repl), *p),
            bytes@,
        ),
{
    proof {
        reveal(data_came);
    }
    if repl.dialer_epoch != d.epoch {
        return stop(d);
    }
    put(&mut d.buf, bytes);
    match parse_replica_frames(&mut d.buf, &mut d.offset) {
        Err(_) => lose(d, repl),
        Ok(frames) => DialAction::Work(plan_frames(&mut d.batch, frames)),
    }
}

/// The snapshot was loaded, or could not be.
fn loaded(
    d: &mut Dialer,
    ctx: &mut CommandContext,
    repl: &mut ReplicationState,
    p: &mut PersistState,
    ok: bool,
) -> (r: DialAction)
    requires
        old(ctx).wf(),
        old(repl).wf(),
    ensures
        final(ctx).wf(),
        final(repl).wf(),
        (world(*final(d), *final(ctx), *final(repl), *final(p)), r@) == snapshot_loaded(
            world(*old(d), *old(ctx), *old(repl), *old(p)),
            ok,
        ),
{
    proof {
        reveal(snapshot_loaded);
    }
    clear_fullsync_loading_state(p);
    if !ok {
        return lose(d, repl);
    }
    let replid: Vec<u8> = dup(&d.new_replid);
    let offset: i64 = d.new_offset;
    adopt_fullresync_primary(repl, replid, offset);
    follow(d, ctx, repl, offset, true, false)
}

/// The connection is to be made.
fn dial_pausing(
    d: &mut Dialer,
    ctx: &mut CommandContext,
    repl: &mut ReplicationState,
    p: &mut PersistState,
    event: DialEvent,
) -> (r: DialAction)
    requires
        old(ctx).wf(),
        old(repl).wf(),
    ensures
        final(ctx).wf(),
        final(repl).wf(),
        (world(*final(d), *final(ctx), *final(repl), *final(p)), r@) == pausing(
            world(*old(d), *old(ctx), *old(repl), *old(p)),
            event@,
        ),
{
    proof {
        reveal(pausing);
    }
    match event {
        DialEvent::Round(ms) => {
            if repl.dialer_epoch != d.epoch {
                stop(d)
            } else if ms > 50 {
                DialAction::Sleep(50)
            } else if ms > 0 {
                DialAction::Sleep(ms as u64)
            } else {
                repl.link = ReplicaLink::Connecting;
                d.stage = DialStage::Connecting;
                DialAction::Connect
            }
        },
        _ => DialAction::Nothing,
    }
}

/// The connection is being made.
fn dial_connecting(
    d: &mut Dialer,
    ctx: &mut CommandContext,
    repl: &mut ReplicationState,
    p: &mut PersistState,
    cfg: &DialConfig,
    event: DialEvent,
) -> (r: DialAction)
    requires
        old(ctx).wf(),
        old(repl).wf(),
    ensures
        final(ctx).wf(),
        final(repl).wf(),
        (world(*final(d), *final(ctx), *final(repl), *final(p)), r@) == connecting(
            world(*old(d), *old(ctx), *old(repl), *old(p)),
            cfg@,
            event@,
        ),
{
    proof {
        reveal(connecting);
    }
    match event {
        DialEvent::Connected => {
            repl.link = ReplicaLink::Handshake;
            let g: Greeting = if cfg.auth.is_some() { Greeting::Auth } else { Greeting::Ping };
            d.stage = DialStage::Greeting(g);
            DialAction::Send(greeting_frame(g, cfg, repl))
        },
        DialEvent::Broken => retry(d, repl),
        _ => DialAction::Nothing,
    }
}

/// The handshake is being made.
fn dial_greeting(
    d: &mut Dialer,
    ctx: &mut CommandContext,
    repl: &mut ReplicationState,
    p: &mut PersistState,
    cfg: &DialConfig,
    g: Greeting,
    event: DialEvent,
) -> (r: DialAction)
    requires
        old(ctx).wf(),
        old(repl).wf(),
    ensures
        final(ctx).wf(),
        final(repl).wf(),
        (world(*final(d), *final(ctx), *final(repl), *final(p)), r@) == greeting(
            world(*old(d), *old(ctx), *old(repl), *old(p)),
            cfg@,
            g,
            event@,
        ),
{
    proof {
        reveal(greeting);
    }
    match event {
        DialEvent::Line(line) => greeting_line(d, ctx, repl, p, cfg, g, &line),
        DialEvent::Broken => retry(d, repl),
        _ => DialAction::Nothing,
    }
}

/// A snapshot is being received.
fn dial_receiving(
    d: &mut Dialer,
    ctx: &mut CommandContext,
    repl: &mut ReplicationState,
    p: &mut PersistState,
    event: DialEvent,
) -> (r: DialAction)
    requires
        old(ctx).wf(),
        old(repl).wf(),
    ensures
        final(ctx).wf(),
        final(repl).wf(),
        (world(*final(d), *final(ctx), *final(repl), *final(p)), r@) == receiving(
            world(*old(d), *old(ctx), *old(repl), *old(p)),
            event@,
        ),
{
    proof {
        reveal(receiving);
    }
    let current: bool = repl.dialer_epoch == d.epoch;
    match event {
        DialEvent::Broken => {
            clear_fullsync_loading_state(p);
            if current {
                lose(d, repl)
            } else {
                stop(d)
            }
        },
        DialEvent::Snapshot(bytes) => {
            if current {
                d.stage = DialStage::Loading;
                DialAction::Load { bytes, offset: d.new_offset }
            } else {
                clear_fullsync_loading_state(p);
                stop(d)
            }
        },
        _ => DialAction::Nothing,
    }
}

/// A snapshot is being loaded.
fn dial_loading(
    d: &mut Dialer,
    ctx: &mut CommandContext,
    repl: &mut ReplicationState,
    p: &mut PersistState,
    event: DialEvent,
) -> (r: DialAction)
    requires
        old(ctx).wf(),
        old(repl).wf(),
    ensures
        final(ctx).wf(),
        final(repl).wf(),
        (world(*final(d), *final(ctx), *final(repl), *final(p)), r@) == loading(
            world(*old(d), *old(ctx), *old(repl), *old(p)),
            event@,
        ),
{
    proof {
        reveal(loading);
    }
    match event {
        DialEvent::Loaded(ok) => loaded(d, ctx, repl, p, ok),
        _ => DialAction::Nothing,
    }
}

/// The stream was idle.
fn quiet(
    d: &mut Dialer,
    ctx: &mut CommandContext,
    repl: &mut ReplicationState,
    p: &PersistState,
    fack: i64,
) -> (r: DialAction)
    requires
        old(ctx).wf(),
        old(repl).wf(),
    ensures
        final(ctx).wf(),
        final(repl).wf(),
        (world(*final(d), *final(ctx), *final(repl), *p), r@) == went_quiet(
            world(*old(d), *old(ctx), *old(repl), *p),
            fack,
        ),
{
    proof {
        reveal(went_quiet);
    }
    match release_idle_state_and_ack(ctx, repl, &mut d.defer_ack, &mut d.defer_online, fack) {
        Some(f) => DialAction::Send(f),
        None => DialAction::Nothing,
    }
}

/// The stream is followed.
fn dial_following(
    d: &mut Dialer,
    ctx: &mut CommandContext,
    repl: &mut ReplicationState,
    p: &mut PersistState,
    event: DialEvent,
) -> (r: DialAction)
    requires
        old(ctx).wf(),
        old(repl).wf(),
    ensures
        final(ctx).wf(),
        final(repl).wf(),
        (world(*final(d), *final(ctx), *final(repl), *final(p)), r@) == following(
            world(*old(d), *old(ctx), *old(repl), *old(p)),
            event@,
        ),
{
    proof {
        reveal(following);
    }
    let current: bool = repl.dialer_epoch == d.epoch;
    match event {
        DialEvent::Reading => {
            if !current {
                stop(d)
            } else if repl.link_drop {
                repl.link_drop = false;
                lose(d, repl)
            } else {
                DialAction::Nothing
            }
        },
        DialEvent::Data(bytes) => stream_data(d, ctx, repl, p, &bytes),
        DialEvent::Quiet(fack) => quiet(d, ctx, repl, p, fack),
        DialEvent::Broken => {
            if current {
                lose(d, repl)
            } else {
                stop(d)
            }
        },
        _ => DialAction::Nothing,
    }
}

/// Decides what a connection to a primary does when something happened.
pub fn dial_step(
    d: &mut Dialer,
    ctx: &mut CommandContext,
    repl: &mut ReplicationState,
    p: &mut PersistState,
    cfg: &DialConfig,
    event: DialEvent,
) -> (r: DialAction)
    requires
        old(ctx).wf(),
        old(repl).wf(),
    ensures
        final(ctx).wf(),
        final(repl).wf(),
        (world(*final(d), *final(ctx), *final(repl), *final(p)), r@) == dial(
            world(*old(d), *old(ctx), *old(repl), *old(p)),
            cfg@,
            event@,
        ),
{
    match d.stage {
        DialStage::Pausing => dial_pausing(d, ctx, repl, p, event),
        DialStage::Connecting => dial_connecting(d, ctx, repl, p, cfg, event),
        DialStage::Greeting(g) => dial_greeting(d, ctx, repl, p, cfg, g, event),
        DialStage::Receiving => dial_receiving(d, ctx, repl, p, event),
        DialStage::Loading => dial_loading(d, ctx, repl, p, event),
        DialStage::Following => dial_following(d, ctx, repl, p, event),
        DialStage::Stopped => DialAction::Nothing,
    }
}

/// A connection of an older epoch is given up wherever a new connection, a
/// snapshot or the stream would go on.
pub proof fn law_old_epoch_stops(w: DialWorld, cfg: ConfigV, bytes: Seq<u8>)
    requires
        !is_current(w),
    ensures
        w.d.stage == DialStage::Pausing ==> dial(w, cfg, EventV::Round(0)).1 is Stop,
        w.d.stage == DialStage::Receiving ==> dial(w, cfg, EventV::Snapshot(bytes)).1 is Stop,
        w.d.stage == DialStage::Following ==> dial(w, cfg, EventV::Reading).1 is Stop && dial(
            w,
            cfg,
            EventV::Data(bytes),
        ).1 is Stop && dial(w, cfg, EventV::Broken).1 is Stop,
{
    reveal(pausing);
    reveal(receiving);
    reveal(following);
    reveal(data_came);
}

/// No event before the stream is followed makes this server an online replica.
pub proof fn law_online_only_when_following(w: DialWorld, cfg: ConfigV, e: EventV)
    requires
        w.r.role != ReplRole::ReplicaOnline,
    ensures
        dial(w, cfg, e).0.r.role == ReplRole::ReplicaOnline ==> dial(w, cfg, e).0.d.stage
            == DialStage::Following && dial(w, cfg, e).0.r.link == ReplicaLink::Connected,
{
    match w.d.stage {
        DialStage::Pausing => {
            reveal(pausing);
        },
        DialStage::Connecting => {
            reveal(connecting);
        },
        DialStage::Greeting(g) => {
            lemma_greeting_stays_offline(w, cfg, g, e);
        },
        DialStage::Receiving => {
            reveal(receiving);
        },
        DialStage::Loading => {
            reveal(loading);
            reveal(snapshot_loaded);
        },
        DialStage::Following => {
            lemma_following_online(w, e);
        },
        DialStage::Stopped => {},
    }
}

proof fn lemma_greeting_stays_offline(w: DialWorld, cfg: ConfigV, g: Greeting, e: EventV)
    requires
        w.r.role != ReplRole::ReplicaOnline,
    ensures
        greeting(w, cfg, g, e).0.r.role != ReplRole::ReplicaOnline,
{
    reveal(greeting);
    match e {
        EventV::Line(line) => {
            reveal(greeted);
            if g == Greeting::Psync {
                reveal(psync_answered);
            }
        },
        _ => {},
    }
}

proof fn lemma_following_online(w: DialWorld, e: EventV)
    requires
        w.r.role != ReplRole::ReplicaOnline,
        w.d.stage == DialStage::Following,
    ensures
        following(w, e).0.r.role == ReplRole::ReplicaOnline ==> following(w, e).0.d.stage
            == DialStage::Following && following(w, e).0.r.link == ReplicaLink::Connected,
{
    reveal(following);
    match e {
        EventV::Data(bytes) => {
            reveal(data_came);
        },
        EventV::Quiet(fack) => {
            reveal(went_quiet);
        },
        _ => {},
    }
}

/// A snapshot that is no longer received or loaded is no longer published as
/// being loaded.
pub proof fn law_loading_ends(w: DialWorld, cfg: ConfigV, e: EventV)
    requires
        w.d.stage == DialStage::Receiving || w.d.stage == DialStage::Loading,
    ensures
        ({
            let w1 = dial(w, cfg, e).0;
            w1.d.stage != DialStage::Receiving && w1.d.stage != DialStage::Loading
                ==> !w1.p.loading && !w1.p.async_loading
        }),
{
    reveal(receiving);
    reveal(loading);
    reveal(snapshot_loaded);
}

} // verus!
