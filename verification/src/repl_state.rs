//! The state of replication: the role, the link to a primary, the attached
//! replicas, and the backlog of the stream that they follow.

use vstd::prelude::*;

use crate::bytes::{dup, opt_view, put, slice};
use crate::stream_wake::lemma_filter_step;

verus! {

/// The state of the link to a primary.
#[derive(Debug, Clone, Copy, PartialEq, Eq, Structural)]
pub enum ReplicaLink {
    Connect,
    Connecting,
    Handshake,
    Transfer,
    Connected,
}

/// The role of this server.
#[derive(Debug, Clone, Copy, PartialEq, Eq, Structural)]
pub enum ReplRole {
    Primary,
    ReplicaConnecting,
    ReplicaOnline,
}

/// The state of an attached replica.
#[derive(Debug, Clone, Copy, PartialEq, Eq, Structural)]
pub enum ReplicaState {
    WaitingBgsave,
    SendingRdb,
    Online,
}

/// The state of a failover that an operator asked for.
#[derive(Debug, Clone, Copy, PartialEq, Eq, Structural)]
pub enum FailoverState {
    Idle,
    WaitingForSync,
    InProgress,
}

/// What is held back while a failover runs.
#[derive(Debug, Clone, Copy, PartialEq, Eq, Structural)]
pub enum FailoverPause {
    Off,
    Writes,
    Everything,
}

/// The replica takes the snapshot without a length in front of it.
pub const REPLICA_CAPA_EOF: u32 = 1;

/// The replica follows a change of the replication ID.
pub const REPLICA_CAPA_PSYNC2: u32 = 2;

/// The replica takes the snapshot on a second connection.
pub const REPLICA_CAPA_DUAL_CHANNEL: u32 = 4;

/// A capability that is not known.
pub const REPLICA_CAPA_OTHER: u32 = 2147483648;

/// An attached replica.
pub struct ReplicaConn {
    pub client_id: u64,
    pub state: ReplicaState,
    /// The offset that it acknowledged.
    pub offset: i64,
    /// The offset that it acknowledged to have on disk.
    pub aof_offset: i64,
    pub listening_port: u16,
    pub capa_flags: u32,
    pub last_ack_ms: i64,
    /// The address that it listens on, as far as it is known.
    pub host: Vec<u8>,
}

/// An attached replica.
#[verifier::ext_equal]
pub struct ReplicaV {
    pub client_id: u64,
    pub state: ReplicaState,
    pub offset: i64,
    pub aof_offset: i64,
    pub listening_port: u16,
    pub capa_flags: u32,
    pub last_ack_ms: i64,
    pub host: Seq<u8>,
}

impl View for ReplicaConn {
    type V = ReplicaV;

    open spec fn view(&self) -> ReplicaV {
        ReplicaV {
            client_id: self.client_id,
            state: self.state,
            offset: self.offset,
            aof_offset: self.aof_offset,
            listening_port: self.listening_port,
            capa_flags: self.capa_flags,
            last_ack_ms: self.last_ack_ms,
            host: self.host@,
        }
    }
}

/// What a list of replicas holds.
pub open spec fn replica_views(v: Seq<ReplicaConn>) -> Seq<ReplicaV> {
    v.map_values(|r: ReplicaConn| r@)
}

/// What a client told about itself before it became a replica.
pub struct PendingReplica {
    pub client_id: u64,
    pub port: u16,
    pub capa: u32,
    /// The address that it listens on.
    pub ip: Vec<u8>,
}

/// What a client told about itself before it became a replica.
#[verifier::ext_equal]
pub struct PendingV {
    pub client_id: u64,
    pub port: u16,
    pub capa: u32,
    pub ip: Seq<u8>,
}

impl View for PendingReplica {
    type V = PendingV;

    open spec fn view(&self) -> PendingV {
        PendingV { client_id: self.client_id, port: self.port, capa: self.capa, ip: self.ip@ }
    }
}

/// What some clients told about themselves.
pub open spec fn pending_views(v: Seq<PendingReplica>) -> Seq<PendingV> {
    v.map_values(|p: PendingReplica| p@)
}

/// A snapshot that is being written for replicas.
pub struct ReplBgsaveJob {
    pub child_pid: i32,
    /// The name of the file that the snapshot is written to.
    pub temp_name: Vec<u8>,
    pub waiting_replicas: Vec<u64>,
    /// The offset of the stream that the snapshot stands for.
    pub snapshot_offset: i64,
    pub needs_getack_on_completion: bool,
}

/// A snapshot that is being written for replicas.
#[verifier::ext_equal]
pub struct JobV {
    pub child_pid: i32,
    pub temp_name: Seq<u8>,
    pub waiting: Seq<u64>,
    pub snapshot_offset: i64,
    pub needs_getack: bool,
}

impl View for ReplBgsaveJob {
    type V = JobV;

    open spec fn view(&self) -> JobV {
        JobV {
            child_pid: self.child_pid,
            temp_name: self.temp_name@,
            waiting: self.waiting_replicas@,
            snapshot_offset: self.snapshot_offset,
            needs_getack: self.needs_getack_on_completion,
        }
    }
}

/// The state of replication.
pub struct ReplicationState {
    /// The ID of the stream that this server writes.
    pub runid: Vec<u8>,
    /// The number of bytes of the stream so far.
    pub master_offset: i64,
    /// The last bytes of the stream.
    pub backlog: Vec<u8>,
    /// The most bytes that the backlog keeps.
    pub backlog_cap: usize,
    /// A replica at offset zero has all data.
    pub zero_offset_allowed: bool,
    /// The primary that this server follows.
    pub target_host: Option<Vec<u8>>,
    pub target_port: u16,
    pub role: ReplRole,
    pub link: ReplicaLink,
    /// The ID of the stream of the primary that was followed last.
    pub cached_replid: Option<Vec<u8>>,
    /// Changes whenever another primary is to be followed, or none.
    pub dialer_epoch: u64,
    /// The link is to be dropped.
    pub link_drop: bool,
    /// The database that the stream has selected, or -1.
    pub selected_db: i64,
    /// The database that the stream after a snapshot starts with.
    pub rdb_stream_db: i64,
    pub replicas: Vec<ReplicaConn>,
    pub pending: Vec<PendingReplica>,
    /// Clients whose connections are being closed.
    pub killed: Vec<u64>,
    pub job: Option<ReplBgsaveJob>,
    /// The process that writes a snapshot for replicas, or 0.
    pub child_pid: i32,
    pub sync_full: u64,
    pub sync_partial_ok: u64,
    pub sync_partial_err: u64,
    pub failover: FailoverState,
    pub failover_host: Option<Vec<u8>>,
    pub failover_port: u16,
    /// When the failover gives up, or 0 for never.
    pub failover_deadline: i64,
    pub failover_force: bool,
    pub pause: FailoverPause,
}

/// The state of replication.
#[verifier::ext_equal]
pub struct ReplV {
    pub runid: Seq<u8>,
    pub master_offset: i64,
    pub backlog: Seq<u8>,
    pub backlog_cap: usize,
    pub zero_ok: bool,
    pub target: Option<Seq<u8>>,
    pub target_port: u16,
    pub role: ReplRole,
    pub link: ReplicaLink,
    pub cached_replid: Option<Seq<u8>>,
    pub dialer_epoch: u64,
    pub link_drop: bool,
    pub selected_db: i64,
    pub rdb_stream_db: i64,
    pub replicas: Seq<ReplicaV>,
    pub pending: Seq<PendingV>,
    pub killed: Seq<u64>,
    pub job: Option<JobV>,
    pub child_pid: i32,
    pub sync_full: u64,
    pub sync_partial_ok: u64,
    pub sync_partial_err: u64,
    pub failover: FailoverState,
    pub failover_host: Option<Seq<u8>>,
    pub failover_port: u16,
    pub failover_deadline: i64,
    pub failover_force: bool,
    pub pause: FailoverPause,
}

/// A snapshot job, if there is one.
pub open spec fn job_view(j: Option<ReplBgsaveJob>) -> Option<JobV> {
    match j {
        Some(j) => Some(j@),
        None => None,
    }
}

impl View for ReplicationState {
    type V = ReplV;

    open spec fn view(&self) -> ReplV {
        ReplV {
            runid: self.runid@,
            master_offset: self.master_offset,
            backlog: self.backlog@,
            backlog_cap: self.backlog_cap,
            zero_ok: self.zero_offset_allowed,
            target: opt_view(self.target_host),
            target_port: self.target_port,
            role: self.role,
            link: self.link,
            cached_replid: opt_view(self.cached_replid),
            dialer_epoch: self.dialer_epoch,
            link_drop: self.link_drop,
            selected_db: self.selected_db,
            rdb_stream_db: self.rdb_stream_db,
            replicas: replica_views(self.replicas@),
            pending: pending_views(self.pending@),
            killed: self.killed@,
            job: job_view(self.job),
            child_pid: self.child_pid,
            sync_full: self.sync_full,
            sync_partial_ok: self.sync_partial_ok,
            sync_partial_err: self.sync_partial_err,
            failover: self.failover,
            failover_host: opt_view(self.failover_host),
            failover_port: self.failover_port,
            failover_deadline: self.failover_deadline,
            failover_force: self.failover_force,
            pause: self.pause,
        }
    }
}

/// The state of a primary that starts.
pub open spec fn new_repl(runid: Seq<u8>, cap: usize) -> ReplV {
    ReplV {
        runid,
        master_offset: 0,
        backlog: Seq::empty(),
        backlog_cap: cap,
        zero_ok: false,
        target: None,
        target_port: 0,
        role: ReplRole::Primary,
        link: ReplicaLink::Connect,
        cached_replid: None,
        dialer_epoch: 0,
        link_drop: false,
        selected_db: (-1) as i64,
        rdb_stream_db: 0,
        replicas: Seq::empty(),
        pending: Seq::empty(),
        killed: Seq::empty(),
        job: None,
        child_pid: 0,
        sync_full: 0,
        sync_partial_ok: 0,
        sync_partial_err: 0,
        failover: FailoverState::Idle,
        failover_host: None,
        failover_port: 0,
        failover_deadline: 0,
        failover_force: false,
        pause: FailoverPause::Off,
    }
}

/// A counter after one more event.
pub open spec fn bumped(n: u64) -> u64 {
    if n == u64::MAX {
        n
    } else {
        (n + 1) as u64
    }
}

/// A counter after one more event.
pub fn bump(n: u64) -> (r: u64)
    ensures
        r == bumped(n),
{
    if n == u64::MAX {
        n
    } else {
        n + 1
    }
}

/// The epoch after another.
pub open spec fn next_epoch(n: u64) -> u64 {
    if n == u64::MAX {
        0
    } else {
        (n + 1) as u64
    }
}

/// The last bytes of a sequence, at most `cap`.
pub open spec fn tail(s: Seq<u8>, cap: int) -> Seq<u8> {
    if s.len() <= cap {
        s
    } else {
        s.skip(s.len() - cap)
    }
}

/// An offset after some more bytes.
pub open spec fn advanced(offset: i64, n: int) -> i64 {
    if offset + n > i64::MAX {
        i64::MAX
    } else {
        (offset + n) as i64
    }
}

/// The state after bytes were added to the stream.
pub open spec fn repl_appended(r: ReplV, bytes: Seq<u8>) -> ReplV {
    ReplV {
        backlog: tail(r.backlog + bytes, r.backlog_cap as int),
        master_offset: advanced(r.master_offset, bytes.len() as int),
        ..r
    }
}

/// Whether the backlog holds the stream from `from` up to `to`.
pub open spec fn history_has(r: ReplV, from: i64, to: i64) -> bool {
    r.master_offset - r.backlog.len() <= from && from <= to && to <= r.master_offset
}

/// The bytes of the stream from `from` on.
pub open spec fn history_from(r: ReplV, from: i64) -> Seq<u8> {
    r.backlog.skip(r.backlog.len() - (r.master_offset - from))
}

/// The state of a server that is a primary from now on.
pub open spec fn repl_primary(r: ReplV) -> ReplV {
    ReplV {
        role: ReplRole::Primary,
        target: None,
        target_port: 0,
        link: ReplicaLink::Connect,
        dialer_epoch: next_epoch(r.dialer_epoch),
        ..r
    }
}

/// The state of a server that follows another one from now on.
pub open spec fn repl_follows(r: ReplV, host: Seq<u8>, port: u16) -> ReplV {
    ReplV {
        role: ReplRole::ReplicaConnecting,
        target: Some(host),
        target_port: port,
        link: ReplicaLink::Connect,
        dialer_epoch: next_epoch(r.dialer_epoch),
        ..r
    }
}

/// The position of a client among the replicas from position `i` on, or the
/// number of replicas.
pub open spec fn replica_rank(s: Seq<ReplicaV>, client: u64, i: int) -> int
    decreases s.len() - i,
{
    if i < 0 || i >= s.len() {
        s.len() as int
    } else if s[i].client_id == client {
        i
    } else {
        replica_rank(s, client, i + 1)
    }
}

/// Whether a client is a replica.
pub open spec fn has_replica(s: Seq<ReplicaV>, client: u64) -> bool {
    replica_rank(s, client, 0) < s.len()
}

/// The replicas with one more, in place of the one with the same client.
pub open spec fn replicas_with(s: Seq<ReplicaV>, c: ReplicaV) -> Seq<ReplicaV> {
    s.filter(|r: ReplicaV| r.client_id != c.client_id).push(c)
}

/// The replicas that have acknowledged an offset.
pub open spec fn acked(s: Seq<ReplicaV>, target: i64) -> nat {
    s.filter(|r: ReplicaV| r.state == ReplicaState::Online && r.offset >= target).len()
}

/// The replicas that have acknowledged to have an offset on disk.
pub open spec fn aof_acked(s: Seq<ReplicaV>, target: i64) -> nat {
    s.filter(|r: ReplicaV| r.state == ReplicaState::Online && r.aof_offset >= target).len()
}

/// The position of a client among those that told about themselves, from
/// position `i` on, or the number of those.
pub open spec fn pending_rank(s: Seq<PendingV>, client: u64, i: int) -> int
    decreases s.len() - i,
{
    if i < 0 || i >= s.len() {
        s.len() as int
    } else if s[i].client_id == client {
        i
    } else {
        pending_rank(s, client, i + 1)
    }
}

/// What a client told about itself.
pub open spec fn told(s: Seq<PendingV>, client: u64) -> PendingV {
    let i = pending_rank(s, client, 0);
    if i < s.len() {
        s[i]
    } else {
        PendingV { client_id: client, port: 0, capa: 0, ip: Seq::empty() }
    }
}

/// The list after a client told something more about itself.
pub open spec fn tells(s: Seq<PendingV>, p: PendingV) -> Seq<PendingV> {
    let i = pending_rank(s, p.client_id, 0);
    if i < s.len() {
        s.update(i, p)
    } else {
        s.push(p)
    }
}

/// The capabilities of a client.
pub open spec fn capa_of(r: ReplV, client: u64) -> u32 {
    let i = replica_rank(r.replicas, client, 0);
    if i < r.replicas.len() {
        r.replicas[i].capa_flags
    } else {
        told(r.pending, client).capa
    }
}

/// A fresh replica, with what its client told about itself.
pub open spec fn fresh_replica(
    r: ReplV,
    client: u64,
    state: ReplicaState,
    offset: i64,
    now: i64,
) -> ReplicaV {
    let t = told(r.pending, client);
    ReplicaV {
        client_id: client,
        state,
        offset,
        aof_offset: (-1) as i64,
        listening_port: t.port,
        capa_flags: t.capa,
        last_ack_ms: now,
        host: t.ip,
    }
}

/// The state after a client was attached as a replica.
pub open spec fn repl_registered(
    r: ReplV,
    client: u64,
    state: ReplicaState,
    offset: i64,
    now: i64,
) -> ReplV {
    ReplV {
        replicas: replicas_with(r.replicas, fresh_replica(r, client, state, offset, now)),
        ..r
    }
}

/// The name of a link state.
pub open spec fn link_text(l: ReplicaLink) -> Seq<char> {
    match l {
        ReplicaLink::Connect => "connect"@,
        ReplicaLink::Connecting => "connecting"@,
        ReplicaLink::Handshake => "handshake"@,
        ReplicaLink::Transfer => "sync"@,
        ReplicaLink::Connected => "connected"@,
    }
}

/// A list of replicas that grows by one.
proof fn lemma_replicas_push(s: Seq<ReplicaConn>, r: ReplicaConn)
    ensures
        replica_views(s.push(r)) == replica_views(s).push(r@),
{
    assert(replica_views(s.push(r)) =~= replica_views(s).push(r@));
}

impl ReplicationState {
    /// The backlog holds no more than it keeps.
    pub open spec fn wf(self) -> bool {
        self.backlog@.len() <= self.backlog_cap
    }

    /// The state of a primary that starts.
    pub fn new(runid: Vec<u8>, backlog_cap: usize) -> (r: ReplicationState)
        ensures
            r.wf(),
            r@ == new_repl(runid@, backlog_cap),
    {
        let r = ReplicationState {
            runid,
            master_offset: 0,
            backlog: Vec::new(),
            backlog_cap,
            zero_offset_allowed: false,
            target_host: None,
            target_port: 0,
            role: ReplRole::Primary,
            link: ReplicaLink::Connect,
            cached_replid: None,
            dialer_epoch: 0,
            link_drop: false,
            selected_db: -1,
            rdb_stream_db: 0,
            replicas: Vec::new(),
            pending: Vec::new(),
            killed: Vec::new(),
            job: None,
            child_pid: 0,
            sync_full: 0,
            sync_partial_ok: 0,
            sync_partial_err: 0,
            failover: FailoverState::Idle,
            failover_host: None,
            failover_port: 0,
            failover_deadline: 0,
            failover_force: false,
            pause: FailoverPause::Off,
        };
        assert(r@ =~= new_repl(runid@, backlog_cap));
        r
    }

    /// Adds bytes to the stream.
    pub fn append_to_backlog(&mut self, bytes: &[u8])
        requires
            old(self).wf(),
        ensures
            final(self).wf(),
            final(self)@ == repl_appended(old(self)@, bytes@),
    {
        let ghost before = self@;
        put(&mut self.backlog, bytes);
        let ghost all = self.backlog@;
        let n: usize = self.backlog.len();
        if n > self.backlog_cap {
            self.backlog = slice(&self.backlog, n - self.backlog_cap, n);
        }
        assert(self.backlog@ =~= tail(all, before.backlog_cap as int));
        let sum: i128 = self.master_offset as i128 + bytes.len() as i128;
        self.master_offset = if sum > i64::MAX as i128 { i64::MAX } else { sum as i64 };
        assert(self@ =~= repl_appended(before, bytes@));
    }

    /// Whether the backlog holds the stream from `from` up to `to`.
    pub fn can_read_history_range(&self, from: i64, to: i64) -> (r: bool)
        ensures
            r == history_has(self@, from, to),
    {
        self.master_offset as i128 - self.backlog.len() as i128 <= from as i128 && from <= to && to
            <= self.master_offset
    }

    /// The bytes of the stream from `from` on.
    pub fn read_history_from(&self, from: i64) -> (r: Vec<u8>)
        requires
            history_has(self@, from, self.master_offset),
        ensures
            r@ == history_from(self@, from),
    {
        let n: usize = self.backlog.len();
        let want: usize = (self.master_offset as i128 - from as i128) as usize;
        let r: Vec<u8> = slice(&self.backlog, n - want, n);
        assert(r@ =~= history_from(self@, from));
        r
    }

    /// Forgets the backlog.
    pub fn drop_backlog(&mut self)
        ensures
            final(self).wf(),
            final(self)@ == (ReplV { backlog: Seq::empty(), ..old(self)@ }),
    {
        self.backlog = Vec::new();
        assert(self.backlog@ =~= Seq::empty());
    }

    /// Makes this server a primary.
    pub fn become_master(&mut self)
        requires
            old(self).wf(),
        ensures
            final(self).wf(),
            final(self)@ == repl_primary(old(self)@),
    {
        self.role = ReplRole::Primary;
        self.target_host = None;
        self.target_port = 0;
        self.link = ReplicaLink::Connect;
        self.dialer_epoch = if self.dialer_epoch == u64::MAX { 0 } else { self.dialer_epoch + 1 };
    }

    /// Makes this server follow another one. Tells the new epoch.
    pub fn become_replica_of(&mut self, host: Vec<u8>, port: u16) -> (r: u64)
        requires
            old(self).wf(),
        ensures
            final(self).wf(),
            final(self)@ == repl_follows(old(self)@, host@, port),
            r == final(self)@.dialer_epoch,
    {
        self.role = ReplRole::ReplicaConnecting;
        self.target_host = Some(host);
        self.target_port = port;
        self.link = ReplicaLink::Connect;
        self.dialer_epoch = if self.dialer_epoch == u64::MAX { 0 } else { self.dialer_epoch + 1 };
        self.dialer_epoch
    }

    /// The position of a client among the replicas.
    pub fn find_replica(&self, client: u64) -> (r: usize)
        ensures
            r == replica_rank(self@.replicas, client, 0),
            r <= self.replicas@.len(),
            r < self.replicas@.len() ==> self.replicas@[r as int].client_id == client,
    {
        let mut i: usize = 0;
        while i < self.replicas.len()
            invariant
                i <= self.replicas@.len(),
                replica_rank(self@.replicas, client, 0) == replica_rank(
                    self@.replicas,
                    client,
                    i as int,
                ),
            decreases self.replicas@.len() - i,
        {
            if self.replicas[i].client_id == client {
                return i;
            }
            i += 1;
        }
        i
    }

    /// Keeps the replicas whose client is not the given one.
    fn without_replica(&mut self, client: u64)
        requires
            old(self).wf(),
        ensures
            final(self).wf(),
            final(self)@ == (ReplV {
                replicas: old(self)@.replicas.filter(|r: ReplicaV| r.client_id != client),
                ..old(self)@
            }),
    {
        let ghost before = *self;
        let ghost whole = self.replicas@;
        let ghost all = replica_views(whole);
        let ghost p = |r: ReplicaV| r.client_id != client;
        let mut kept: Vec<ReplicaConn> = Vec::new();
        let ghost mut i: int = 0;
        proof {
            reveal(Seq::filter);
            assert(all.take(0).filter(p) =~= Seq::empty());
            assert(replica_views(kept@) =~= Seq::empty());
            assert(whole.skip(0) =~= whole);
        }
        while self.replicas.len() > 0
            invariant
                0 <= i <= whole.len(),
                all == replica_views(whole),
                self.replicas@ == whole.skip(i),
                p == (|r: ReplicaV| r.client_id != client),
                replica_views(kept@) == all.take(i).filter(p),
                (ReplicationState { replicas: before.replicas, ..*self }) == before,
            decreases self.replicas@.len(),
        {
            let e: ReplicaConn = self.replicas.remove(0);
            proof {
                assert(e == whole[i]);
                assert(all[i] == e@);
                lemma_filter_step(all, p, i);
                assert(whole.skip(i).remove(0) =~= whole.skip(i + 1));
            }
            if e.client_id != client {
                proof {
                    lemma_replicas_push(kept@, e);
                }
                kept.push(e);
            }
            proof {
                i = i + 1;
            }
        }
        self.replicas = kept;
        assert(all.take(i) =~= all);
    }

    /// Attaches a replica, in place of the one with the same client.
    pub fn add_replica(&mut self, c: ReplicaConn)
        requires
            old(self).wf(),
        ensures
            final(self).wf(),
            final(self)@ == (ReplV {
                replicas: replicas_with(old(self)@.replicas, c@),
                ..old(self)@
            }),
    {
        self.without_replica(c.client_id);
        proof {
            lemma_replicas_push(self.replicas@, c);
        }
        self.replicas.push(c);
    }

    /// Detaches a replica.
    pub fn remove_replica(&mut self, client: u64)
        requires
            old(self).wf(),
        ensures
            final(self).wf(),
            final(self)@ == (ReplV {
                replicas: old(self)@.replicas.filter(|r: ReplicaV| r.client_id != client),
                ..old(self)@
            }),
    {
        self.without_replica(client);
    }

    /// The number of replicas that have acknowledged an offset.
    pub fn count_acked(&self, target: i64) -> (r: usize)
        ensures
            r == acked(self@.replicas, target),
    {
        let ghost all = self@.replicas;
        let ghost p = |r: ReplicaV| r.state == ReplicaState::Online && r.offset >= target;
        let mut n: usize = 0;
        let mut i: usize = 0;
        proof {
            reveal(Seq::filter);
            assert(all.take(0).filter(p) =~= Seq::empty());
        }
        while i < self.replicas.len()
            invariant
                i <= self.replicas@.len(),
                all == self@.replicas,
                p == (|r: ReplicaV| r.state == ReplicaState::Online && r.offset >= target),
                n == all.take(i as int).filter(p).len(),
                n <= i,
            decreases self.replicas@.len() - i,
        {
            proof {
                lemma_filter_step(all, p, i as int);
            }
            if self.replicas[i].state == ReplicaState::Online && self.replicas[i].offset >= target {
                n += 1;
            }
            i += 1;
        }
        assert(all.take(i as int) =~= all);
        n
    }

    /// The number of replicas that have acknowledged to have an offset on disk.
    pub fn count_aof_acked(&self, target: i64) -> (r: usize)
        ensures
            r == aof_acked(self@.replicas, target),
    {
        let ghost all = self@.replicas;
        let ghost p = |r: ReplicaV| r.state == ReplicaState::Online && r.aof_offset >= target;
        let mut n: usize = 0;
        let mut i: usize = 0;
        proof {
            reveal(Seq::filter);
            assert(all.take(0).filter(p) =~= Seq::empty());
        }
        while i < self.replicas.len()
            invariant
                i <= self.replicas@.len(),
                all == self@.replicas,
                p == (|r: ReplicaV| r.state == ReplicaState::Online && r.aof_offset >= target),
                n == all.take(i as int).filter(p).len(),
                n <= i,
            decreases self.replicas@.len() - i,
        {
            proof {
                lemma_filter_step(all, p, i as int);
            }
            if self.replicas[i].state == ReplicaState::Online && self.replicas[i].aof_offset
                >= target {
                n += 1;
            }
            i += 1;
        }
        assert(all.take(i as int) =~= all);
        n
    }

    /// The position of a client among those that told about themselves.
    fn find_pending(&self, client: u64) -> (r: usize)
        ensures
            r == pending_rank(self@.pending, client, 0),
            r <= self.pending@.len(),
    {
        let mut i: usize = 0;
        while i < self.pending.len()
            invariant
                i <= self.pending@.len(),
                pending_rank(self@.pending, client, 0) == pending_rank(
                    self@.pending,
                    client,
                    i as int,
                ),
            decreases self.pending@.len() - i,
        {
            if self.pending[i].client_id == client {
                return i;
            }
            i += 1;
        }
        i
    }

    /// What a client told about itself.
    pub fn told_by(&self, client: u64) -> (r: PendingReplica)
        ensures
            r@ == told(self@.pending, client),
    {
        let i: usize = self.find_pending(client);
        if i < self.pending.len() {
            let p: &PendingReplica = &self.pending[i];
            PendingReplica {
                client_id: p.client_id,
                port: p.port,
                capa: p.capa,
                ip: dup(&p.ip),
            }
        } else {
            PendingReplica { client_id: client, port: 0, capa: 0, ip: Vec::new() }
        }
    }

    /// Records what a client told about itself.
    pub fn record_pending(&mut self, p: PendingReplica)
        requires
            old(self).wf(),
        ensures
            final(self).wf(),
            final(self)@ == (ReplV { pending: tells(old(self)@.pending, p@), ..old(self)@ }),
    {
        let ghost was = self.pending@;
        let ghost pv = p@;
        let i: usize = self.find_pending(p.client_id);
        if i < self.pending.len() {
            self.pending.set(i, p);
            assert(pending_views(self.pending@) =~= pending_views(was).update(i as int, pv));
        } else {
            self.pending.push(p);
            assert(pending_views(self.pending@) =~= pending_views(was).push(pv));
        }
    }

    /// The capabilities of a client.
    pub fn replica_capa_flags_for_client(&self, client: u64) -> (r: u32)
        ensures
            r == capa_of(self@, client),
    {
        let i: usize = self.find_replica(client);
        if i < self.replicas.len() {
            self.replicas[i].capa_flags
        } else {
            self.told_by(client).capa
        }
    }

    /// Attaches a client as a replica.
    pub fn register_replica(&mut self, client: u64, state: ReplicaState, offset: i64, now: i64)
        requires
            old(self).wf(),
        ensures
            final(self).wf(),
            final(self)@ == repl_registered(old(self)@, client, state, offset, now),
    {
        let t: PendingReplica = self.told_by(client);
        let c = ReplicaConn {
            client_id: client,
            state,
            offset,
            aof_offset: -1,
            listening_port: t.port,
            capa_flags: t.capa,
            last_ack_ms: now,
            host: t.ip,
        };
        assert(c@ =~= fresh_replica(self@, client, state, offset, now));
        self.add_replica(c);
    }

    /// The name of the link state.
    pub fn replica_link_str(&self) -> (r: &'static str)
        ensures
            r@ == link_text(self@.link),
    {
        match self.link {
            ReplicaLink::Connect => "connect",
            ReplicaLink::Connecting => "connecting",
            ReplicaLink::Handshake => "handshake",
            ReplicaLink::Transfer => "sync",
            ReplicaLink::Connected => "connected",
        }
    }
}

/// The backlog never holds more than it keeps, the bytes that were added last
/// are at its end, and what it holds of the stream can be read back.
pub proof fn law_backlog_keeps_the_newest(r: ReplV, bytes: Seq<u8>)
    requires
        r.backlog.len() <= r.backlog_cap,
        bytes.len() <= r.backlog_cap,
        r.master_offset + bytes.len() <= i64::MAX,
    ensures
        repl_appended(r, bytes).backlog.len() <= r.backlog_cap,
        history_has(
            repl_appended(r, bytes),
            r.master_offset,
            repl_appended(r, bytes).master_offset,
        ),
        history_from(repl_appended(r, bytes), r.master_offset) == bytes,
{
    let after = repl_appended(r, bytes);
    assert(history_from(after, r.master_offset) =~= bytes);
}

} // verus!
