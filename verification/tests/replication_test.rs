use redis_commands::context::{BlockedAction, BlockedWaiter, Client, CommandContext};
use redis_commands::error::RedisError;
use redis_commands::keyspace::RedisObject;
use redis_commands::list_type::ListPosition;
use redis_commands::persist::{BgsaveForReplResult, PersistState, ReplSnapshotStart};
use redis_commands::repl_state::{
    FailoverState, ReplRole, ReplicaLink, ReplicaState, ReplicationState,
};
use redis_commands::replication::{
    decide_psync, drive_manual_failover_once, failover_command, prefix_fullsync_catchup_selected_db,
    arm_full_sync_bgsave, psync_command, replconf_command, replicaof_command, role_command, sync_command,
    wrong_psync_offset_log_line, ManualFailoverAdvance, PsyncAction, PsyncDecision,
    ReplicaofAction,
};
use redis_commands::reply::encode_replies;
use redis_commands::resp::{encode_resp_command, parse_inline_or_multibulk};
use redis_commands::waiters::{
    build_getack, maybe_wake_wait_clients, rejected_by_role_change,
    unblock_replication_role_change, wait_command, waitaof_command, LocalLog,
};

fn ctx() -> CommandContext {
    CommandContext::new(Client::new(1))
}

fn args(a: &[&str]) -> Vec<Vec<u8>> {
    a.iter().map(|s| s.as_bytes().to_vec()).collect()
}

fn run<F>(c: &mut CommandContext, a: &[&str], f: F) -> String
where
    F: FnOnce(&mut CommandContext) -> Result<(), RedisError>,
{
    c.client.argv = args(a);
    c.replies.clear();
    match f(c) {
        Ok(()) => String::from_utf8(encode_replies(&c.replies, false)).unwrap(),
        Err(e) => format!("-{}\r\n", String::from_utf8(e.to_resp_payload()).unwrap()),
    }
}

fn state() -> ReplicationState {
    ReplicationState::new(vec![b'1'; 40], 1024)
}

fn no_log() -> LocalLog {
    LocalLog { appendonly: false, fsynced: -1, initial: Ok(()) }
}

#[test]
fn replicaof_no_one_returns_ok() {
    let mut c = ctx();
    let mut repl = state();
    let reply = run(&mut c, &["REPLICAOF", "NO", "ONE"], |c| {
        replicaof_command(c, &mut repl).map(|_| ())
    });
    assert_eq!(reply, "+OK\r\n");
}

#[test]
fn replicaof_keeps_the_data_and_asks_to_dial() {
    let mut c = CommandContext::new(Client::new(33));
    c.db.set_key(b"local".to_vec(), RedisObject::Str(b"value".to_vec()), false);
    let mut repl = state();
    let mut action = ReplicaofAction::Nothing;
    let reply = run(&mut c, &["REPLICAOF", "127.0.0.1", "7000"], |c| {
        action = replicaof_command(c, &mut repl)?;
        Ok(())
    });
    assert_eq!(reply, "+OK\r\n");
    assert!(matches!(action, ReplicaofAction::Dial(e) if e == repl.dialer_epoch));
    assert_eq!(repl.target_host, Some(b"127.0.0.1".to_vec()));
    assert!(repl.role == ReplRole::ReplicaConnecting);
    assert!(matches!(c.db.string_at(b"local"), Ok(Some(v)) if v.as_slice() == b"value"));
    let reply = run(&mut c, &["REPLICAOF", "127.0.0.1", "x"], |c| {
        replicaof_command(c, &mut repl).map(|_| ())
    });
    assert!(reply.starts_with("-ERR"));
}

#[test]
fn fullsync_catchup_prefixes_current_selected_db_frame() {
    let mut c = ctx();
    let mut repl = state();
    let client_id = 1_220_001;
    let offset = repl.master_offset;
    repl.register_replica(client_id, ReplicaState::Online, offset, 0);
    repl.selected_db = 9;
    let before = repl.master_offset;
    prefix_fullsync_catchup_selected_db(&mut c, &mut repl);
    let after = repl.master_offset;
    let expected = encode_resp_command(&args(&["SELECT", "9"]));
    assert_eq!(c.outbox.len(), 1);
    assert_eq!(c.outbox[0].client_id, client_id);
    assert_eq!(c.outbox[0].frame, expected);
    assert_eq!(
        after - before,
        expected.len() as i64,
        "the SELECT prefix must be real backlog bytes so replica ACK offsets stay aligned"
    );
}

#[test]
fn psync_decision_matrix_covers_reconnect_edges() {
    let mut st = ReplicationState::new(vec![b'a'; 40], 8);
    let runid = st.runid.clone();

    assert!(
        decide_psync(&st, &runid, b"?", -1, st.master_offset)
            == PsyncDecision::FullResync { count_partial_err: false },
        "fresh PSYNC should full-resync without counting a partial error"
    );
    assert!(
        decide_psync(&st, &runid, &runid, 0, st.master_offset)
            == PsyncDecision::FullResync { count_partial_err: true },
        "offset-0 reconnect is unsafe until an empty full sync proves there is no snapshot data"
    );
    st.zero_offset_allowed = true;
    assert!(
        decide_psync(&st, &runid, &runid, 0, st.master_offset) == PsyncDecision::Continue,
        "a safe caught-up offset-0 reconnect should not need an RDB"
    );

    st.append_to_backlog(b"abcdefgh");
    let master = st.master_offset;
    assert!(
        decide_psync(&st, &runid, &runid, 4, master) == PsyncDecision::Continue,
        "offset inside the live backlog window should partial-resync"
    );
    assert!(
        decide_psync(&st, &runid, &[b'b'; 40], 4, master)
            == PsyncDecision::FullResync { count_partial_err: true },
        "wrong replid should fall back and count a partial-resync error"
    );
    assert!(
        decide_psync(&st, &runid, &runid, master + 1, master)
            == PsyncDecision::FullResync { count_partial_err: true },
        "future offsets cannot be served from the backlog"
    );

    st.append_to_backlog(b"ijklmnop");
    let master = st.master_offset;
    assert!(
        decide_psync(&st, &runid, &runid, 0, master)
            == PsyncDecision::FullResync { count_partial_err: true },
        "offsets below the wrapped backlog window should full-resync"
    );
    assert!(
        decide_psync(&st, &runid, &runid, 8, master) == PsyncDecision::Continue,
        "the first retained byte after wraparound should partial-resync"
    );
}

#[test]
fn psync_full_resync_with_question_mark() {
    let mut c = ctx();
    let mut repl = state();
    let mut action = PsyncAction::Nothing;
    let reply = run(&mut c, &["PSYNC", "?", "-1"], |c| {
        action = psync_command(c, &mut repl, false, false)?;
        Ok(())
    });
    assert!(reply.starts_with("+FULLRESYNC "), "reply: {:?}", reply);
    assert!(c.client.is_replica);
    assert!(matches!(action, PsyncAction::StartBgsave(_)));
}

#[test]
fn psync_continues_with_the_missing_bytes() {
    let mut c = CommandContext::new(Client::new(8));
    c.client.attached = true;
    let mut repl = state();
    repl.append_to_backlog(b"abcdefgh");
    let runid = String::from_utf8(repl.runid.clone()).unwrap();
    run(&mut c, &["PSYNC", &runid, "5"], |c| psync_command(c, &mut repl, false, false).map(|_| ()));
    let mut sent: Vec<u8> = encode_replies(&c.replies, false);
    for d in &c.outbox {
        sent.extend_from_slice(&d.frame);
    }
    let text = String::from_utf8(sent).unwrap();
    assert!(text.starts_with("+CONTINUE"), "{:?}", text);
    assert!(text.ends_with("fgh") || text.ends_with("efgh"), "{:?}", text);
    assert_eq!(repl.sync_partial_ok, 1);
}

#[test]
fn wrong_psync_offset_log_line_matches_upstream_pattern() {
    let line = String::from_utf8(wrong_psync_offset_log_line(42)).unwrap();
    assert!(line.contains("Replica 42 asks for synchronization but with a wrong offset"));
}

#[test]
fn sync_routes_through_full_resync() {
    let mut c = CommandContext::new(Client::new(2));
    let mut repl = state();
    let reply = run(&mut c, &["SYNC"], |c| sync_command(c, &mut repl, false, false).map(|_| ()));
    assert!(
        reply.is_empty(),
        "legacy SYNC should wait for raw RDB bulk, not emit PSYNC prelude"
    );
    assert!(c.client.is_replica);
}

#[test]
fn wait_deny_blocking_returns_current_acks() {
    let mut c = CommandContext::new(Client::new(3));
    c.client.deny_blocking = true;
    let mut repl = state();
    let reply = run(&mut c, &["WAIT", "1", "0"], |c| wait_command(c, &mut repl));
    assert_eq!(reply, ":0\r\n");
}

#[test]
fn wait_rejects_invalid_timeout_bounds() {
    let cases = [
        ("-1", "ERR timeout is negative"),
        ("9223372036854775807", "ERR timeout is out of range"),
    ];
    for (timeout, expected) in cases {
        let mut c = CommandContext::new(Client::new(30));
        c.now_ms = 1_700_000_000_000;
        let mut repl = state();
        let reply = run(&mut c, &["WAIT", "1", timeout], |c| wait_command(c, &mut repl));
        assert!(
            reply.contains(expected),
            "error payload {:?} did not contain {:?}",
            reply,
            expected
        );
    }
}

#[test]
fn wait_zero_timeout_without_registered_replicas_blocks_with_bounded_deadline() {
    let mut c = CommandContext::new(Client::new(31));
    c.client.attached = true;
    c.now_ms = 500;
    let mut repl = state();
    let reply = run(&mut c, &["WAIT", "1", "0"], |c| wait_command(c, &mut repl));
    assert_eq!(reply, "");
    assert!(c.client.blocked_on_keys);
    assert_eq!(c.blocked[0].deadline_ms, 2500);
}

#[test]
fn wait_request_ack_command_is_resp_encoded() {
    let bytes = encode_resp_command(&args(&["REPLCONF", "GETACK", "*"]));
    assert_eq!(
        bytes,
        b"*3\r\n$8\r\nREPLCONF\r\n$6\r\nGETACK\r\n$1\r\n*\r\n".to_vec()
    );
    assert_eq!(build_getack(), bytes);
}

#[test]
fn waitaof_single_node_returns_progress_pair() {
    let mut c = CommandContext::new(Client::new(4));
    let mut repl = state();
    let mut p = PersistState::new();
    let reply = run(&mut c, &["WAITAOF", "0", "1", "0"], |c| {
        waitaof_command(c, &mut repl, &mut p, no_log())
    });
    assert_eq!(reply, "*2\r\n:0\r\n:0\r\n");
}

#[test]
fn waitaof_zero_timeout_with_registered_sender_blocks() {
    let mut c = CommandContext::new(Client::new(32));
    c.client.attached = true;
    let mut repl = state();
    let mut p = PersistState::new();
    run(&mut c, &["WAITAOF", "0", "1", "0"], |c| {
        waitaof_command(c, &mut repl, &mut p, no_log())
    });
    assert!(c.client.blocked_on_keys);
}

#[test]
fn an_acknowledgement_wakes_a_waiting_client() {
    let mut c = CommandContext::new(Client::new(31));
    c.client.attached = true;
    let mut repl = state();
    repl.append_to_backlog(b"xyz");
    repl.register_replica(9, ReplicaState::Online, 0, 0);
    run(&mut c, &["WAIT", "1", "1000"], |c| wait_command(c, &mut repl));
    assert_eq!(c.blocked.len(), 1);
    c.outbox.clear();
    c.client.id = 9;
    let offset = repl.master_offset.to_string();
    run(&mut c, &["REPLCONF", "ACK", &offset], |c| replconf_command(c, &mut repl, 0));
    maybe_wake_wait_clients(&mut c, &repl, 0);
    assert_eq!(c.blocked.len(), 0);
    assert!(c.outbox.iter().any(|d| d.client_id == 31 && d.frame == b":1\r\n"));
}

#[test]
fn role_of_a_primary_and_of_a_replica() {
    let mut c = ctx();
    let mut repl = state();
    assert_eq!(
        run(&mut c, &["ROLE"], |c| role_command(c, &repl)),
        "*3\r\n$6\r\nmaster\r\n:0\r\n*0\r\n"
    );
    repl.become_replica_of(b"h".to_vec(), 7);
    repl.link = ReplicaLink::Connected;
    assert_eq!(
        run(&mut c, &["ROLE"], |c| role_command(c, &repl)),
        "*5\r\n$5\r\nslave\r\n$1\r\nh\r\n:7\r\n$9\r\nconnected\r\n:0\r\n"
    );
}

#[test]
fn failover_needs_a_replica_and_can_be_aborted() {
    let mut c = ctx();
    let mut repl = state();
    assert_eq!(
        run(&mut c, &["FAILOVER"], |c| failover_command(c, &mut repl)),
        "-ERR FAILOVER requires connected replicas.\r\n"
    );
    assert!(repl.failover == FailoverState::Idle);
    assert!(matches!(drive_manual_failover_once(&mut repl, 0), ManualFailoverAdvance::Noop));
}

#[test]
fn requests_read_back_and_wait_for_their_rest() {
    let argv = args(&["SET", "k", "some value"]);
    let mut bytes = encode_resp_command(&argv);
    match parse_inline_or_multibulk(&bytes) {
        Ok(Some((got, used))) => {
            assert_eq!(got, argv);
            assert_eq!(used, bytes.len());
        }
        _ => panic!("a whole request"),
    }
    bytes.pop();
    assert!(matches!(parse_inline_or_multibulk(&bytes), Ok(None)));
    match parse_inline_or_multibulk(b"PING there\r\nrest") {
        Ok(Some((got, used))) => {
            assert_eq!(got, args(&["PING", "there"]));
            assert_eq!(used, 12);
        }
        _ => panic!("a line"),
    }
    assert!(parse_inline_or_multibulk(b"*1\r\n+x\r\n").is_err());
}

#[test]
fn snapshot_is_taken_where_the_replica_was_told() {
    let mut c = CommandContext::new(Client::new(3));
    c.client.attached = true;
    let mut repl = state();
    repl.append_to_backlog(b"abcdefgh");
    repl.selected_db = 9;
    let mut action = PsyncAction::Nothing;
    run(&mut c, &["PSYNC", "?", "-1"], |c| {
        action = psync_command(c, &mut repl, false, false)?;
        Ok(())
    });
    assert!(action == PsyncAction::StartBgsave(8));
    assert!(repl.master_offset > 8);
    let mut p = PersistState::new();
    let start = ReplSnapshotStart::Forked(70);
    let r = arm_full_sync_bgsave(&mut repl, &mut p, 3, 8, 1, false, start);
    assert!(r == BgsaveForReplResult::Started);
    assert_eq!(repl.job.as_ref().unwrap().snapshot_offset, 8);
    let r = arm_full_sync_bgsave(&mut repl, &mut p, 4, 99, 1, false, start);
    assert!(r == BgsaveForReplResult::Skipped);
    let job = repl.job.as_ref().unwrap();
    assert_eq!(job.snapshot_offset, 8);
    assert_eq!(job.waiting_replicas, vec![3, 4]);
}

#[test]
fn idle_backlog_is_forgotten_before_a_partial_answer() {
    let mut c = CommandContext::new(Client::new(8));
    c.client.attached = true;
    let mut repl = state();
    repl.append_to_backlog(b"abcdefgh");
    let runid = String::from_utf8(repl.runid.clone()).unwrap();
    let reply = run(&mut c, &["PSYNC", &runid, "5"], |c| {
        psync_command(c, &mut repl, false, true).map(|_| ())
    });
    assert!(reply.starts_with("+FULLRESYNC"), "{:?}", reply);
    assert_eq!(repl.sync_partial_err, 1);
}

#[test]
fn psync_takes_no_other_negative_offset_than_minus_one() {
    let mut c = ctx();
    let mut repl = state();
    for offset in ["-2", "x", "-9223372036854775808"] {
        let reply = run(&mut c, &["PSYNC", "?", offset], |c| {
            psync_command(c, &mut repl, false, false).map(|_| ())
        });
        assert_eq!(reply, "-ERR value is not an integer or out of range\r\n");
    }
    assert!(!c.client.is_replica);
    assert_eq!(repl.sync_full, 0);
}

#[test]
fn the_address_that_a_replica_tells_is_kept() {
    let mut c = ctx();
    let mut repl = state();
    c.client.id = 9;
    let tell = |c: &mut CommandContext, repl: &mut ReplicationState, ip: &str| {
        run(c, &["REPLCONF", "ip-address", ip], |c| replconf_command(c, repl, 0))
    };
    assert_eq!(tell(&mut c, &mut repl, "10.0.0.1"), "+OK\r\n");
    repl.register_replica(9, ReplicaState::Online, 0, 0);
    assert_eq!(repl.replicas[0].host, b"10.0.0.1".to_vec());
    assert_eq!(tell(&mut c, &mut repl, "10.0.0.2"), "+OK\r\n");
    assert_eq!(repl.replicas[0].host, b"10.0.0.2".to_vec());
    assert_eq!(
        run(&mut c, &["REPLCONF", "ip-address"], |c| replconf_command(c, &mut repl, 0)),
        "+OK\r\n"
    );
    assert_eq!(repl.replicas[0].host, b"10.0.0.2".to_vec());
}

fn waiter(client_id: u64, action: BlockedAction, redirect: bool) -> BlockedWaiter {
    BlockedWaiter {
        client_id,
        key: b"k".to_vec(),
        action,
        deadline_ms: 0,
        resp_proto: 2,
        user: Vec::new(),
        redirect_on_role_change: redirect,
    }
}

#[test]
fn a_change_of_role_tells_whose_waiting_it_rejects() {
    let mut c = ctx();
    let pop = || BlockedAction::ListPop { from: ListPosition::Head, count: None };
    c.blocked.push(waiter(6, pop(), false));
    c.blocked.push(waiter(7, pop(), true));
    c.blocked.push(waiter(5, BlockedAction::Wait { offset: 3, numreplicas: 2 }, true));
    c.blocked.push(waiter(6, pop(), false));
    c.blocked.push(waiter(
        8,
        BlockedAction::WaitAof { offset: 4, numlocal: 1, numreplicas: 0 },
        false,
    ));
    let rejected = rejected_by_role_change(&c);
    let ids: Vec<u64> = rejected.iter().map(|r| r.client_id).collect();
    assert_eq!(ids, vec![5, 8, 6]);
    assert!(matches!(rejected[0].action, BlockedAction::Wait { offset: 3, numreplicas: 2 }));
    assert!(matches!(
        rejected[1].action,
        BlockedAction::WaitAof { offset: 4, numlocal: 1, numreplicas: 0 }
    ));
    assert!(matches!(rejected[2].action, BlockedAction::ListPop { count: None, .. }));

    unblock_replication_role_change(&mut c);
    let told: Vec<u64> = c.outbox.iter().map(|d| d.client_id).collect();
    assert_eq!(told, ids);
    assert!(c.outbox.iter().all(|d| d.frame.starts_with(b"-UNBLOCKED ")));
    assert_eq!(c.blocked.len(), 1);
    assert_eq!(c.blocked[0].client_id, 7);
    assert!(rejected_by_role_change(&c).is_empty());
}
