//! What the commands of replication do, from their arguments to the state of
//! replication, the waiting clients and the replies.

use vstd::prelude::*;
use vstd::utf8::is_ascii_chars_encode_utf8;

use crate::bytes::{dec, i64_of, is_word, lower_all, text};
use crate::context::{ActionV, CtxV, DeliveryV, WaiterV};
use crate::filters::{lemma_filter_both, lemma_filter_keeps, lemma_filter_same};
use crate::repl_state::{
    acked, aof_acked, has_replica, repl_appended, replica_rank, FailoverPause, FailoverState,
    ReplRole, ReplV, ReplicaState, ReplicaV,
};
use crate::replication::{
    failover_advanced, failover_step, psync_outcome, replconf_step, replicaof_step, role_outcome,
    role_replicas, AdvanceV, PsyncAction, ReplicaofAction,
};
use crate::reply::Tok;
use crate::string_laws::{answers, refuses};
use crate::waiters::{satisfied, wait_frame, wait_step, waitaof_step, wakes, woken, LocalLog};
use crate::persist::PersistState;

verus! {

// ---------------------------------------------------------------------------
// Waiting for replicas
// ---------------------------------------------------------------------------

/// How many replicas are online and have acknowledged an offset.
pub open spec fn confirming(rs: Seq<ReplicaV>, offset: i64) -> int {
    rs.filter(|r: ReplicaV| r.state == ReplicaState::Online && offset <= r.offset).len() as int
}

/// How many replicas are online and have an offset on disk.
pub open spec fn storing(rs: Seq<ReplicaV>, offset: i64) -> int {
    rs.filter(|r: ReplicaV| r.state == ReplicaState::Online && offset <= r.aof_offset).len() as int
}

/// How many local logs have an offset on disk: one or none.
pub open spec fn stored_here(fsynced: i64, offset: i64) -> int {
    if offset <= fsynced {
        1
    } else {
        0
    }
}

/// Whether as many have acknowledged as a client waits for.
pub open spec fn enough(w: WaiterV, rs: Seq<ReplicaV>, fsynced: i64) -> bool {
    match w.action {
        ActionV::Wait { offset, numreplicas } => 0 <= numreplicas <= confirming(rs, offset),
        ActionV::WaitAof { offset, numlocal, numreplicas } => numlocal <= stored_here(
            fsynced,
            offset,
        ) && 0 <= numreplicas <= storing(rs, offset),
        _ => false,
    }
}

/// A number as a reply on the wire.
pub open spec fn number_frame(n: int) -> Seq<u8> {
    seq![58u8] + dec(n) + seq![13u8, 10u8]
}

/// What a client is told that waited long enough: how many have acknowledged.
pub open spec fn told_counts(w: WaiterV, rs: Seq<ReplicaV>, fsynced: i64) -> Seq<u8> {
    match w.action {
        ActionV::Wait { offset, .. } => number_frame(confirming(rs, offset)),
        ActionV::WaitAof { offset, .. } => seq![42u8] + dec(2) + seq![13u8, 10u8] + number_frame(
            stored_here(fsynced, offset),
        ) + number_frame(storing(rs, offset)),
        _ => Seq::empty(),
    }
}

proof fn lemma_confirming(rs: Seq<ReplicaV>, offset: i64)
    ensures
        acked(rs, offset) == confirming(rs, offset),
        aof_acked(rs, offset) == storing(rs, offset),
        acked(rs, offset) <= rs.len(),
        aof_acked(rs, offset) <= rs.len(),
{
    let p = |r: ReplicaV| r.state == ReplicaState::Online && r.offset >= offset;
    let q = |r: ReplicaV| r.state == ReplicaState::Online && offset <= r.offset;
    lemma_filter_same(rs, p, q);
    let p2 = |r: ReplicaV| r.state == ReplicaState::Online && r.aof_offset >= offset;
    let q2 = |r: ReplicaV| r.state == ReplicaState::Online && offset <= r.aof_offset;
    lemma_filter_same(rs, p2, q2);
    lemma_filter_keeps(rs, p);
    lemma_filter_keeps(rs, p2);
}

proof fn lemma_satisfied(w: WaiterV, rs: Seq<ReplicaV>, fsynced: i64)
    ensures
        satisfied(w.action, rs, fsynced, false) <==> enough(w, rs, fsynced) && w.action is Wait,
        satisfied(w.action, rs, fsynced, true) <==> enough(w, rs, fsynced) && w.action is WaitAof,
        w.action is Wait || w.action is WaitAof ==> wait_frame(w.action, rs, fsynced) == Some(
            told_counts(w, rs, fsynced),
        ),
{
    match w.action {
        ActionV::Wait { offset, .. } => {
            lemma_confirming(rs, offset);
        },
        ActionV::WaitAof { offset, .. } => {
            lemma_confirming(rs, offset);
        },
        _ => {},
    }
}

/// The frames to those that have waited long enough, one each, in order.
proof fn lemma_wakes(ws: Seq<WaiterV>, rs: Seq<ReplicaV>, fsynced: i64, aof: bool)
    ensures
        wakes(ws, rs, fsynced, aof) == ws.filter(
            |w: WaiterV| satisfied(w.action, rs, fsynced, aof),
        ).map_values(
            |w: WaiterV|
                DeliveryV { client_id: w.client_id, frame: told_counts(w, rs, fsynced) },
        ),
    decreases ws.len(),
{
    reveal(Seq::filter);
    let p = |w: WaiterV| satisfied(w.action, rs, fsynced, aof);
    let f = |w: WaiterV| DeliveryV { client_id: w.client_id, frame: told_counts(w, rs, fsynced) };
    if ws.len() == 0 {
        assert(wakes(ws, rs, fsynced, aof) =~= ws.filter(p).map_values(f));
    } else {
        lemma_wakes(ws.drop_last(), rs, fsynced, aof);
        lemma_satisfied(ws.last(), rs, fsynced);
        assert(wakes(ws, rs, fsynced, aof) =~= ws.filter(p).map_values(f));
    }
}

/// After acknowledgements, exactly those clients wait on for whom too few have
/// come: a client that sent WAIT n is woken only where at least n replicas that are
/// online have acknowledged the offset that it waits for, and is told how many.
pub proof fn law_enough_acknowledgements_wake(
    c: CtxV,
    rs: Seq<ReplicaV>,
    fsynced: i64,
    w: WaiterV,
    d: DeliveryV,
)
    ensures
        ({
            let after = woken(woken(c, rs, fsynced, false), rs, fsynced, true);
            let sent = after.outbox.skip(c.outbox.len() as int);
            &&& after.blocked == c.blocked.filter(|v: WaiterV| !enough(v, rs, fsynced))
            &&& after.blocked.contains(w) <==> c.blocked.contains(w) && !enough(w, rs, fsynced)
            &&& after.outbox.len() >= c.outbox.len()
            &&& after.outbox.take(c.outbox.len() as int) == c.outbox
            &&& sent.len() + after.blocked.len() == c.blocked.len()
            &&& c.blocked.contains(w) && enough(w, rs, fsynced) ==> sent.contains(
                DeliveryV { client_id: w.client_id, frame: told_counts(w, rs, fsynced) },
            )
            &&& sent.contains(d) ==> exists|v: WaiterV| #[trigger]
                c.blocked.contains(v) && enough(v, rs, fsynced) && d == (DeliveryV {
                    client_id: v.client_id,
                    frame: told_counts(v, rs, fsynced),
                })
            &&& after.db == c.db
            &&& after.replies == c.replies
        }),
{
    let pf = |v: WaiterV| satisfied(v.action, rs, fsynced, false);
    let pt = |v: WaiterV| satisfied(v.action, rs, fsynced, true);
    let nf = |v: WaiterV| !satisfied(v.action, rs, fsynced, false);
    let nt = |v: WaiterV| !satisfied(v.action, rs, fsynced, true);
    let none = |v: WaiterV| !enough(v, rs, fsynced);
    let tell = |v: WaiterV|
        DeliveryV { client_id: v.client_id, frame: told_counts(v, rs, fsynced) };
    let mid = woken(c, rs, fsynced, false);
    let after = woken(mid, rs, fsynced, true);
    assert forall|v: WaiterV| #[trigger] none(v) == (nf(v) && nt(v)) by {
        lemma_satisfied(v, rs, fsynced);
    }
    lemma_filter_both(c.blocked, nf, nt, none);
    lemma_filter_keeps(c.blocked, none);
    lemma_filter_keeps(c.blocked, pf);
    lemma_filter_keeps(c.blocked, nf);
    lemma_filter_keeps(mid.blocked, pt);
    lemma_wakes(c.blocked, rs, fsynced, false);
    lemma_wakes(mid.blocked, rs, fsynced, true);
    lemma_split(c.blocked, pf, nf);
    lemma_split(mid.blocked, pt, nt);
    let first = c.blocked.filter(pf);
    let second = mid.blocked.filter(pt);
    let sent = after.outbox.skip(c.outbox.len() as int);
    assert(after.outbox.take(c.outbox.len() as int) =~= c.outbox);
    assert(sent =~= first.map_values(tell) + second.map_values(tell));
    if c.blocked.contains(w) && enough(w, rs, fsynced) {
        lemma_satisfied(w, rs, fsynced);
        if pf(w) {
            assert(first.contains(w));
            let i = first.index_of(w);
            assert(sent[i] == tell(w));
        } else {
            assert(mid.blocked.contains(w));
            assert(second.contains(w));
            let i = second.index_of(w);
            assert(sent[first.len() + i] == tell(w));
        }
    }
    if sent.contains(d) {
        let i = sent.index_of(d);
        let v = if i < first.len() { first[i] } else { second[i - first.len()] };
        if i < first.len() {
            assert(first.contains(v));
        } else {
            assert(second.contains(v));
            assert(mid.blocked.contains(v));
        }
        lemma_satisfied(v, rs, fsynced);
        assert(c.blocked.contains(v));
    }
}

/// A condition and its opposite share a sequence out.
proof fn lemma_split(
    s: Seq<WaiterV>,
    p: spec_fn(WaiterV) -> bool,
    q: spec_fn(WaiterV) -> bool,
)
    requires
        forall|v: WaiterV| #[trigger] p(v) == !q(v),
    ensures
        s.filter(p).len() + s.filter(q).len() == s.len(),
    decreases s.len(),
{
    reveal(Seq::filter);
    if s.len() > 0 {
        lemma_split(s.drop_last(), p, q);
        assert(p(s.last()) == !q(s.last()));
    }
}

/// WAIT n answers at once how many replicas have acknowledged all that was
/// written, where that are at least n or the client cannot wait; otherwise the
/// client waits for n of them, no longer than it said, and the replicas are asked.
pub proof fn law_wait_waits_for_all_that_was_written(c: CtxV, r: ReplV, n: i64, ms: i64)
    requires
        c.client.argv.len() == 3,
        i64_of(c.client.argv[1]) == Some(n),
        i64_of(c.client.argv[2]) == Some(ms),
        0 < ms,
        0 <= c.now,
        c.now + ms <= i64::MAX,
        r.replicas.len() <= i64::MAX,
    ensures
        ({
            let (o, r1) = wait_step(c, r);
            let have = confirming(r.replicas, r.master_offset);
            let stuck = c.client.deny_blocking || c.client.lua || !c.client.attached;
            if stuck || (0 <= n <= have) {
                answers(c, o, Tok::Int(have)) && r1 == r && o.ctx.blocked == c.blocked
            } else {
                &&& o.result is Ok
                &&& o.ctx.replies == c.replies
                &&& o.ctx.blocked.len() == c.blocked.len() + 1
                &&& o.ctx.blocked.drop_last() == c.blocked
                &&& o.ctx.blocked.last().client_id == c.client.id
                &&& o.ctx.blocked.last().action == (ActionV::Wait {
                    offset: r.master_offset,
                    numreplicas: n,
                })
                &&& o.ctx.blocked.last().deadline_ms == c.now + ms
                &&& o.ctx.outbox.len() == c.outbox.len() + r.replicas.filter(
                    |x: ReplicaV| x.state == ReplicaState::Online,
                ).len()
            }
        }),
{
    lemma_confirming(r.replicas, r.master_offset);
    let (o, r1) = wait_step(c, r);
    let have = confirming(r.replicas, r.master_offset);
    assert(c.replies + seq![Tok::Int(have)] =~= c.replies.push(Tok::Int(have)));
    if o.ctx.blocked.len() > c.blocked.len() {
        assert(o.ctx.blocked.drop_last() =~= c.blocked);
    }
}

/// WAITAOF answers at once how many logs have on disk what the client wrote
/// last, where these are enough or the client cannot wait; otherwise the client
/// waits for them.
pub proof fn law_waitaof_waits_for_the_logs(
    c: CtxV,
    r: ReplV,
    p: PersistState,
    l: LocalLog,
    numlocal: i64,
    n: i64,
    ms: i64,
)
    requires
        c.client.argv.len() == 4,
        i64_of(c.client.argv[1]) == Some(numlocal),
        0 <= numlocal <= 1,
        i64_of(c.client.argv[2]) == Some(n),
        0 <= n,
        i64_of(c.client.argv[3]) == Some(ms),
        0 < ms,
        0 <= c.now,
        c.now + ms <= i64::MAX,
        r.role == ReplRole::Primary,
        numlocal > 0 ==> l.appendonly && l.initial is Ok,
        r.replicas.len() <= i64::MAX,
    ensures
        ({
            let (o, r1, q) = waitaof_step(c, r, p, l);
            let at = c.client.last_write_repl_offset;
            let here = stored_here(l.fsynced, at);
            let there = storing(r.replicas, at);
            let stuck = c.client.deny_blocking || c.client.lua || !c.client.attached;
            if stuck || (numlocal <= here && n <= there) {
                &&& o.result is Ok
                &&& o.ctx.replies == c.replies + seq![Tok::Array(2), Tok::Int(here), Tok::Int(there)]
                &&& o.ctx.blocked == c.blocked
            } else {
                &&& o.result is Ok
                &&& o.ctx.replies == c.replies
                &&& o.ctx.blocked.len() == c.blocked.len() + 1
                &&& o.ctx.blocked.drop_last() == c.blocked
                &&& o.ctx.blocked.last().client_id == c.client.id
                &&& o.ctx.blocked.last().action == (ActionV::WaitAof {
                    offset: at,
                    numlocal,
                    numreplicas: n,
                })
                &&& o.ctx.blocked.last().deadline_ms == c.now + ms
            }
        }),
{
    lemma_confirming(r.replicas, c.client.last_write_repl_offset);
    let (o, r1, q) = waitaof_step(c, r, p, l);
    if o.ctx.blocked.len() > c.blocked.len() {
        assert(o.ctx.blocked.drop_last() =~= c.blocked);
    }
}

// ---------------------------------------------------------------------------
// REPLCONF ACK
// ---------------------------------------------------------------------------

proof fn lemma_rank(s: Seq<ReplicaV>, client: u64, i: int)
    requires
        0 <= i <= s.len(),
    ensures
        i <= replica_rank(s, client, i) <= s.len(),
        forall|j: int| i <= j < replica_rank(s, client, i) ==> (#[trigger] s[j]).client_id != client,
        replica_rank(s, client, i) < s.len() ==> s[replica_rank(s, client, i)].client_id == client,
    decreases s.len() - i,
{
    if i < s.len() && s[i].client_id != client {
        lemma_rank(s, client, i + 1);
    }
}

/// REPLCONF ACK raises what the replica that sends it has acknowledged to the
/// offset told, leaves all other replicas, and wakes the clients for whom that is
/// enough; it is not answered.
pub proof fn law_ack_is_noted(c: CtxV, r: ReplV, fsynced: i64, n: i64, i: int)
    requires
        c.client.argv.len() == 3,
        lower_all(c.client.argv[1]) == text("ack"@),
        i64_of(c.client.argv[2]) == Some(n),
        0 <= i < r.replicas.len(),
        forall|j: int, k: int|
            0 <= j < k < r.replicas.len() ==> (#[trigger] r.replicas[j]).client_id != (
            #[trigger] r.replicas[k]).client_id,
    ensures
        ({
            let (o, r1) = replconf_step(c, r, fsynced);
            let x = r.replicas[i];
            let y = r1.replicas[i];
            &&& o.result is Ok
            &&& o.ctx.replies == c.replies
            &&& r1.replicas.len() == r.replicas.len()
            &&& x.client_id != c.client.id ==> y == x
            &&& x.client_id == c.client.id ==> y.offset == (if x.offset < n { n } else { x.offset })
                && y.aof_offset == x.aof_offset && y.client_id == x.client_id && y.last_ack_ms
                == c.now && (x.state == ReplicaState::Online ==> y.state == ReplicaState::Online)
            &&& r1.master_offset == r.master_offset
            &&& r1.backlog == r.backlog
            &&& o.ctx.blocked == c.blocked.filter(
                |v: WaiterV| !enough(v, r1.replicas, fsynced),
            )
        }),
{
    reveal_strlit("ack");
    reveal_strlit("listening-port");
    reveal_strlit("ip-address");
    reveal_strlit("capa");
    is_ascii_chars_encode_utf8("ack"@);
    is_ascii_chars_encode_utf8("listening-port"@);
    is_ascii_chars_encode_utf8("ip-address"@);
    is_ascii_chars_encode_utf8("capa"@);
    assert(text("ack"@).len() == 3 && text("listening-port"@).len() == 14 && text(
        "ip-address"@,
    ).len() == 10 && text("capa"@).len() == 4);
    lemma_rank(r.replicas, c.client.id, 0);
    let (o, r1) = replconf_step(c, r, fsynced);
    let any = WaiterV {
        client_id: 0,
        key: Seq::empty(),
        action: ActionV::Wait { offset: 0, numreplicas: 0 },
        deadline_ms: 0,
        resp_proto: 2,
        user: Seq::empty(),
        redirect_on_role_change: false,
    };
    law_enough_acknowledgements_wake(
        c,
        r1.replicas,
        fsynced,
        any,
        DeliveryV { client_id: 0, frame: Seq::empty() },
    );
}

// ---------------------------------------------------------------------------
// PSYNC
// ---------------------------------------------------------------------------

/// PSYNC with the ID of the stream and an offset that the backlog still reaches
/// is answered with the bytes that are missing, no more and no fewer, and the
/// replica is online from that offset on; any other is answered with a snapshot at
/// the current offset.
pub proof fn law_psync_sends_what_is_missing(c: CtxV, r: ReplV, n: i64, dual: bool)
    requires
        c.client.argv.len() == 3,
        i64_of(c.client.argv[2]) == Some(n),
        0 <= n,
        r.master_offset > 0,
        r.target is None,
        c.client.attached,
        r.backlog.len() <= r.master_offset,
    ensures
        ({
            let argv = c.client.argv;
            let (o, r1, a) = psync_outcome(c, r, dual, false);
            let known = argv[1] == r.runid || argv[1] == text("?"@);
            let missing = r.master_offset - n;
            let partial = known && 0 <= missing <= r.backlog.len();
            &&& o.result is Ok
            &&& o.ctx.client.is_replica
            &&& o.ctx.db == c.db
            &&& partial ==> {
                &&& o.ctx.replies == c.replies.push(
                    Tok::Raw(text("+CONTINUE "@) + r.runid + text("\r\n"@)),
                )
                &&& a == PsyncAction::Nothing
                &&& missing == 0 ==> o.ctx.outbox == c.outbox
                &&& missing > 0 ==> o.ctx.outbox == c.outbox.push(
                    DeliveryV {
                        client_id: c.client.id,
                        frame: r.backlog.subrange(
                            r.backlog.len() - missing,
                            r.backlog.len() as int,
                        ),
                    },
                )
                &&& r1.replicas.len() > 0
                &&& r1.replicas.last().client_id == c.client.id
                &&& r1.replicas.last().state == ReplicaState::Online
                &&& r1.replicas.last().offset == n
            }
            &&& !partial && r.job is None ==> {
                &&& o.ctx.replies == c.replies.push(
                    Tok::Raw(
                        text("+FULLRESYNC "@) + r.runid + text(" "@) + dec(r.master_offset as int)
                            + text("\r\n"@),
                    ),
                )
                &&& a == PsyncAction::StartBgsave(r.master_offset)
                &&& r1.replicas.len() > 0
                &&& r1.replicas.last().client_id == c.client.id
                &&& r1.replicas.last().state == ReplicaState::WaitingBgsave
                &&& r1.replicas.last().offset == r.master_offset
            }
            &&& !partial && r.job is Some ==> {
                &&& a == PsyncAction::Nothing
                &&& r1.job is Some
                &&& r1.job->Some_0.waiting.contains(c.client.id)
                &&& r1.job->Some_0.snapshot_offset == r.job->Some_0.snapshot_offset
                &&& o.ctx.replies == c.replies.push(
                    Tok::Raw(
                        text("+FULLRESYNC "@) + r.runid + text(" "@) + dec(
                            r.job->Some_0.snapshot_offset as int,
                        ) + text("\r\n"@),
                    ),
                )
            }
        }),
{
    let argv = c.client.argv;
    let (o, r1, a) = psync_outcome(c, r, dual, false);
    let missing = r.master_offset - n;
    let known = argv[1] == r.runid || argv[1] == text("?"@);
    let partial = known && 0 <= missing <= r.backlog.len();
    if o.ctx.replies.len() > 0 {
        assert(o.ctx.replies =~= c.replies.push(o.ctx.replies.last()));
    }
    if partial {
        lemma_rank(r1.replicas, c.client.id, 0);
        assert(r1.replicas.last().client_id == c.client.id);
        assert(has_replica(r1.replicas, c.client.id)) by {
            if !has_replica(r1.replicas, c.client.id) {
                assert(r1.replicas[r1.replicas.len() - 1].client_id != c.client.id);
            }
        }
        assert(crate::repl_state::history_from(r, n) =~= r.backlog.subrange(
            r.backlog.len() - missing,
            r.backlog.len() as int,
        ));
    } else if let Some(j) = r.job {
        let w = r1.job->Some_0.waiting;
        if !j.waiting.contains(c.client.id) {
            assert(w[w.len() - 1] == c.client.id);
        }
    }
}

/// What is written goes behind what was written; the backlog keeps the last
/// bytes of all of it, and the offset counts them.
pub proof fn law_stream_grows_at_its_end(r: ReplV, bytes: Seq<u8>)
    requires
        r.backlog.len() <= r.backlog_cap,
        0 <= r.master_offset,
        r.master_offset + bytes.len() <= i64::MAX,
    ensures
        ({
            let s = repl_appended(r, bytes);
            let all = r.backlog + bytes;
            let n = s.backlog.len() as int;
            &&& s.master_offset == r.master_offset + bytes.len()
            &&& n <= all.len()
            &&& s.backlog == all.subrange(all.len() - n, all.len() as int)
            &&& n == all.len() || n == r.backlog_cap
            &&& s.replicas == r.replicas
        }),
{
    let s = repl_appended(r, bytes);
    let all = r.backlog + bytes;
    assert(s.backlog =~= all.subrange(all.len() - s.backlog.len(), all.len() as int));
}

// ---------------------------------------------------------------------------
// REPLICAOF, ROLE, FAILOVER
// ---------------------------------------------------------------------------

/// REPLICAOF host port makes the server follow that primary: it is told to dial
/// under a new epoch, keeps its data, and shows the primary under ROLE.
pub proof fn law_replicaof_follows(c: CtxV, d: CtxV, r: ReplV, port: i64)
    requires
        c.client.argv.len() == 3,
        !is_word(c.client.argv[1], "NO"@),
        i64_of(c.client.argv[2]) == Some(port),
        d.client.argv.len() == 1,
    ensures
        ({
            let (o, r1, a) = replicaof_step(c, r);
            let good = 0 <= port <= 65535;
            &&& !good ==> refuses(c, o) && r1 == r && a == ReplicaofAction::Nothing
            &&& good ==> {
                &&& answers(c, o, Tok::Simple(text("OK"@)))
                &&& o.ctx.db == c.db
                &&& r1.target == Some(c.client.argv[1])
                &&& r1.target_port == port
                &&& r1.role == ReplRole::ReplicaConnecting
                &&& r1.dialer_epoch != r.dialer_epoch
                &&& a == ReplicaofAction::Dial(r1.dialer_epoch)
                &&& r1.master_offset == r.master_offset
                &&& r1.backlog == r.backlog
                &&& role_outcome(d, r1).ctx.replies.len() == d.replies.len() + 6
                &&& role_outcome(d, r1).ctx.replies[d.replies.len() as int + 1] == Tok::Bulk(text("slave"@))
                &&& role_outcome(d, r1).ctx.replies[d.replies.len() as int + 2] == Tok::Bulk(
                    c.client.argv[1],
                )
                &&& role_outcome(d, r1).ctx.replies[d.replies.len() as int + 3] == Tok::Int(port as int)
            }
        }),
{
    let (o, r1, a) = replicaof_step(c, r);
    if 0 <= port <= 65535 {
        assert(o.ctx.replies =~= c.replies.push(Tok::Simple(text("OK"@))));
    }
}

/// ROLE of a primary shows its offset and its replicas, each with its port and
/// what it has acknowledged.
pub proof fn law_role_shows_the_replicas(c: CtxV, r: ReplV, i: int)
    requires
        c.client.argv.len() == 1,
        r.target is None,
        0 <= i < r.replicas.len(),
    ensures
        ({
            let o = role_outcome(c, r);
            let t = o.ctx.replies.skip(c.replies.len() as int);
            &&& o.result is Ok
            &&& t.len() == 4 + 4 * r.replicas.len()
            &&& t[0] == Tok::Array(3)
            &&& t[1] == Tok::Bulk(text("master"@))
            &&& t[2] == Tok::Int(r.master_offset as int)
            &&& t[3] == Tok::Array(r.replicas.len())
            &&& t[4 + 4 * i] == Tok::Array(3)
            &&& t[6 + 4 * i] == Tok::Bulk(dec(r.replicas[i].listening_port as int))
            &&& t[7 + 4 * i] == Tok::Bulk(dec(r.replicas[i].offset as int))
        }),
{
    lemma_role_replicas(r.replicas, i);
}

proof fn lemma_role_replicas(s: Seq<ReplicaV>, i: int)
    ensures
        role_replicas(s).len() == 4 * s.len(),
        0 <= i < s.len() ==> role_replicas(s)[4 * i] == Tok::Array(3) && role_replicas(s)[4 * i + 2]
            == Tok::Bulk(dec(s[i].listening_port as int)) && role_replicas(s)[4 * i + 3]
            == Tok::Bulk(dec(s[i].offset as int)),
    decreases s.len(),
{
    if s.len() > 0 {
        lemma_role_replicas(s.drop_last(), i);
    }
}

/// FAILOVER without arguments begins on a primary that has a replica and no
/// failover under way, and pauses writes; FAILOVER ABORT ends one that is under way.
pub proof fn law_failover_begins_and_ends(c: CtxV, r: ReplV)
    requires
        c.client.argv.len() == 1 || (c.client.argv.len() == 2 && is_word(
            c.client.argv[1],
            "ABORT"@,
        )),
    ensures
        ({
            let (o, r1) = failover_step(c, r);
            let idle = r.failover == FailoverState::Idle;
            &&& c.client.argv.len() == 1 && idle && r.role == ReplRole::Primary && r.replicas.len()
                > 0 ==> answers(c, o, Tok::Simple(text("OK"@))) && r1.failover
                == FailoverState::WaitingForSync && r1.pause == FailoverPause::Writes
                && r1.failover_host is None && r1.failover_deadline == 0
            &&& c.client.argv.len() == 1 && !(idle && r.role == ReplRole::Primary && r.replicas.len()
                > 0) ==> refuses(c, o) && r1 == r
            &&& c.client.argv.len() == 2 && idle ==> refuses(c, o) && r1 == r
            &&& c.client.argv.len() == 2 && !idle ==> answers(c, o, Tok::Simple(text("OK"@)))
                && r1.failover == FailoverState::Idle && r1.pause == FailoverPause::Off
        }),
{
    let (o, r1) = failover_step(c, r);
    if o.result is Ok {
        assert(o.ctx.replies =~= c.replies.push(Tok::Simple(text("OK"@))));
    }
}

/// A failover hands over to a replica that is online and has acknowledged all
/// that was written, to the one told where one was told; it waits as long as there
/// is none and its time is not over, and gives up, or hands over by force, after.
pub proof fn law_failover_waits_for_a_successor(r: ReplV, now: i64)
    requires
        r.failover == FailoverState::WaitingForSync,
    ensures
        ({
            let (a, r1) = failover_advanced(r, now);
            let late = r.failover_deadline != 0 && r.failover_deadline <= now;
            let ready = exists|i: int|
                0 <= i < r.replicas.len() && fit(r, #[trigger] r.replicas[i]);
            &&& ready ==> a is Started && exists|i: int|
                0 <= i < r.replicas.len() && fit(r, #[trigger] r.replicas[i]) && a->Started_host
                    == r.replicas[i].host && a->Started_port == r.replicas[i].listening_port
            &&& !ready && !late ==> a == AdvanceV::Noop && r1 == r
            &&& !ready && late && !(r.failover_force && r.failover_host is Some) ==> a
                == AdvanceV::Aborted && r1.failover == FailoverState::Idle && r1.pause
                == FailoverPause::Off && r1.role == r.role
            &&& !ready && late && r.failover_force && r.failover_host is Some ==> a is Started
                && Some(a->Started_host) == r.failover_host && a->Started_port == r.failover_port
            &&& a is Started ==> r1.target == Some(a->Started_host) && r1.target_port
                == a->Started_port && r1.role == ReplRole::ReplicaConnecting && r1.failover
                == FailoverState::InProgress && r1.cached_replid == Some(r.runid)
                && r1.dialer_epoch == a->dialer_epoch && r1.dialer_epoch != r.dialer_epoch
        }),
{
    lemma_successor(r, 0);
}

/// Whether a replica may take over.
pub open spec fn fit(r: ReplV, x: ReplicaV) -> bool {
    &&& x.state == ReplicaState::Online
    &&& x.offset == r.master_offset
    &&& r.failover_host is Some ==> Some(x.host) == r.failover_host && x.listening_port
        == r.failover_port
}

proof fn lemma_successor(r: ReplV, i: int)
    requires
        0 <= i <= r.replicas.len(),
    ensures
        ({
            let k = crate::replication::successor(r, i);
            &&& i <= k <= r.replicas.len()
            &&& forall|j: int| i <= j < k ==> !fit(r, #[trigger] r.replicas[j])
            &&& k < r.replicas.len() ==> fit(r, r.replicas[k])
        }),
    decreases r.replicas.len() - i,
{
    if i < r.replicas.len() && !fit(r, r.replicas[i]) {
        lemma_successor(r, i + 1);
    }
}

} // verus!
