use redis_commands::context::{Client, CommandContext};
use redis_commands::persist::PersistState;
use redis_commands::repl_state::{FailoverState, ReplRole, ReplicaLink, ReplicationState};
use redis_commands::replica_dialer::{
    accepts_greeting, adopt_fullresync_primary, clear_fullsync_loading_state, dial_step,
    feed_line, greeting_frame, handshake_timeout_secs, may_read, parse_psync_reply,
    parse_snapshot_header, publish_fullsync_loading_state, read_progress,
    release_fullsync_ack_after_idle, release_idle_state_and_ack,
    release_partial_online_after_idle, select_psync_args, DialAction, DialConfig, DialEvent,
    DialStage, Dialer, Greeting, PsyncOutcome, PsyncReplyError, ReadEvent, ReadNext,
    ReplDisklessLoadMode, SnapshotHeaderError,
};
use redis_commands::replica_stream::{
    applied_replica_commands, build_replconf_ack, build_replconf_ack_if_ready,
    parse_replica_frames, periodic_ack, plan_frames, replica_command_batch_has_open_transaction,
    ApplyNext, ReplicaStreamFrame, SinkOp, REPLICA_STREAM_READ_BUFFER_SIZE,
};
use redis_commands::resp::encode_resp_command;

fn ctx() -> CommandContext {
    CommandContext::new(Client::new(1))
}

fn local_state() -> ReplicationState {
    ReplicationState::new(vec![b'1'; 40], 1024)
}

fn multibulk(parts: &[&[u8]]) -> Vec<u8> {
    let argv: Vec<Vec<u8>> = parts.iter().map(|p| p.to_vec()).collect();
    encode_resp_command(&argv)
}

fn command(parts: &[&[u8]]) -> (Vec<Vec<u8>>, i64) {
    (parts.iter().map(|p| p.to_vec()).collect(), 0)
}

fn config() -> DialConfig {
    DialConfig {
        auth: None,
        dual: false,
        load: ReplDisklessLoadMode::Disabled,
        our_port: 6379,
    }
}

fn contains(frame: &[u8], part: &[u8]) -> bool {
    frame.windows(part.len()).any(|w| w == part)
}

fn assert_ack_frame_contains_offset(frame: &[u8], offset: i64) {
    let offset = offset.to_string();
    assert!(
        contains(frame, b"REPLCONF") && contains(frame, b"ACK") && contains(frame, offset.as_bytes()),
        "ACK frame should encode the processed offset {offset}: {:?}",
        String::from_utf8_lossy(frame)
    );
}

fn batch_sizes_for_chunked_replica_stream(stream: &[u8], chunk_size: usize) -> Vec<usize> {
    let mut read_buf = Vec::new();
    let mut stream_offset = 0;
    let mut batch: Vec<(Vec<Vec<u8>>, i64)> = Vec::new();
    let mut batch_sizes = Vec::new();
    for chunk in stream.chunks(chunk_size) {
        read_buf.extend_from_slice(chunk);
        let frames = parse_replica_frames(&mut read_buf, &mut stream_offset).unwrap();
        for op in plan_frames(&mut batch, frames) {
            match op {
                SinkOp::Apply { commands, .. } => batch_sizes.push(commands.len()),
                SinkOp::Answer { .. } => {}
            }
        }
    }
    assert!(read_buf.is_empty(), "test stream should end on a complete RESP frame");
    batch_sizes
}

#[test]
fn replica_command_batch_waits_for_transaction_exec() {
    let mut batch = vec![command(&[b"MULTI"]), command(&[b"SET", b"k", b"v"])];
    assert!(
        replica_command_batch_has_open_transaction(&batch),
        "a split catch-up stream must not flush after MULTI before EXEC arrives"
    );
    batch.push(command(&[b"EXEC"]));
    assert!(
        !replica_command_batch_has_open_transaction(&batch),
        "the transaction envelope is complete once EXEC has been parsed"
    );
}

#[test]
fn large_partial_resync_commands_batch_by_read_window() {
    let value = vec![b'x'; 10_000];
    let mut stream = Vec::new();
    for i in 0..512 {
        let key = format!("k:{i}");
        stream.extend_from_slice(&multibulk(&[b"SET", key.as_bytes(), &value]));
    }
    let batches = batch_sizes_for_chunked_replica_stream(&stream, REPLICA_STREAM_READ_BUFFER_SIZE);
    assert!(
        batches.len() <= 2,
        "10KB catch-up commands should not degrade into one RuntimeOwner apply request per command: {batches:?}"
    );
    assert!(
        batches.iter().any(|count| *count >= 400),
        "the first full read window should amortize RuntimeOwner apply roundtrips: {batches:?}"
    );
}

#[test]
fn fullsync_role_connects_before_ack_is_released_after_stream_idle() {
    let mut repl = local_state();
    repl.link = ReplicaLink::Transfer;
    let mut pending = true;
    assert_eq!(repl.replica_link_str(), "sync");
    repl.link = ReplicaLink::Connected;
    assert_eq!(
        repl.replica_link_str(),
        "connected",
        "after the fullsync RDB is loaded, ROLE can report connected even while ACK is deferred"
    );
    assert!(
        build_replconf_ack_if_ready(&repl, pending, 10, 0).is_none(),
        "loaded fullsync links must not ACK until the post-RDB stream goes idle"
    );
    release_fullsync_ack_after_idle(&mut repl, &mut pending);
    assert!(!pending);
    assert!(build_replconf_ack_if_ready(&repl, pending, 10, 0).is_some());
    repl.link = ReplicaLink::Transfer;
    release_fullsync_ack_after_idle(&mut repl, &mut pending);
    assert_eq!(
        repl.replica_link_str(),
        "sync",
        "once the deferred ACK flag is consumed, later idle checks are no-ops"
    );
}

#[test]
fn fullsync_idle_release_immediately_acks_applied_catchup_offset() {
    let mut c = ctx();
    let mut repl = local_state();
    repl.role = ReplRole::ReplicaOnline;
    repl.link = ReplicaLink::Connected;
    repl.master_offset = 147;
    let mut fullsync_pending = true;
    let mut partial_pending = false;
    let frame = release_idle_state_and_ack(
        &mut c,
        &mut repl,
        &mut fullsync_pending,
        &mut partial_pending,
        0,
    );
    assert!(!fullsync_pending);
    assert_ack_frame_contains_offset(&frame.unwrap(), 147);
}

#[test]
fn partial_resync_link_waits_for_catchup_idle_before_online() {
    let mut c = ctx();
    let mut repl = local_state();
    repl.role = ReplRole::ReplicaConnecting;
    repl.link = ReplicaLink::Handshake;
    let mut pending_online = true;
    assert_eq!(repl.replica_link_str(), "handshake");
    assert!(
        build_replconf_ack_if_ready(&repl, false, 10, 0).is_none(),
        "a partial-resync replica must not ACK or report online before catch-up idle"
    );
    release_partial_online_after_idle(&mut c, &mut repl, &mut pending_online);
    assert!(!pending_online);
    assert_eq!(repl.replica_link_str(), "connected");
    assert!(repl.role == ReplRole::ReplicaOnline);
    assert!(
        build_replconf_ack_if_ready(&repl, false, 10, 0).is_some(),
        "after catch-up stream idle, the replica can publish online and ACK"
    );
    repl.link = ReplicaLink::Handshake;
    release_partial_online_after_idle(&mut c, &mut repl, &mut pending_online);
    assert_eq!(
        repl.replica_link_str(),
        "handshake",
        "once the partial-online flag is consumed, later idle checks are no-ops"
    );
}

#[test]
fn partial_resync_idle_release_immediately_acks_applied_catchup_offset() {
    let mut c = ctx();
    let mut repl = local_state();
    repl.role = ReplRole::ReplicaConnecting;
    repl.link = ReplicaLink::Handshake;
    repl.master_offset = 211;
    let mut fullsync_pending = false;
    let mut partial_pending = true;
    let frame = release_idle_state_and_ack(
        &mut c,
        &mut repl,
        &mut fullsync_pending,
        &mut partial_pending,
        0,
    );
    assert!(!partial_pending);
    assert_eq!(repl.replica_link_str(), "connected");
    assert!(repl.role == ReplRole::ReplicaOnline);
    assert_ack_frame_contains_offset(&frame.unwrap(), 211);
}

#[test]
fn fullsync_link_suppresses_ack_until_connected() {
    let mut repl = local_state();
    repl.link = ReplicaLink::Transfer;
    assert!(
        build_replconf_ack_if_ready(&repl, false, 10, 0).is_none(),
        "a replica still reporting ROLE sync must not ACK and make the master mark it online"
    );
    repl.link = ReplicaLink::Connected;
    let ack = build_replconf_ack_if_ready(&repl, false, 10, 0).unwrap();
    assert_ack_frame_contains_offset(&ack, 10);
}

#[test]
fn replica_stream_parser_collects_complete_frames_with_offsets() {
    let repl = local_state();
    let set_frame = multibulk(&[b"SET", b"k", b"v"]);
    let incr_frame = multibulk(&[b"INCR", b"n"]);
    let mut buf = Vec::new();
    buf.extend_from_slice(&set_frame);
    buf.extend_from_slice(&incr_frame);
    let mut stream_offset = 0;
    let frames = parse_replica_frames(&mut buf, &mut stream_offset).unwrap();
    assert!(buf.is_empty());
    assert_eq!(stream_offset, (set_frame.len() + incr_frame.len()) as i64);
    assert_eq!(frames.len(), 2);
    match &frames[0] {
        ReplicaStreamFrame::Command { argv, offset_after } => {
            assert_eq!(*argv, vec![b"SET".to_vec(), b"k".to_vec(), b"v".to_vec()]);
            assert_eq!(*offset_after, set_frame.len() as i64);
        }
        ReplicaStreamFrame::GetAck { .. } => panic!("SET parsed as GETACK"),
    }
    match &frames[1] {
        ReplicaStreamFrame::Command { argv, offset_after } => {
            assert_eq!(*argv, vec![b"INCR".to_vec(), b"n".to_vec()]);
            assert_eq!(*offset_after, (set_frame.len() + incr_frame.len()) as i64);
        }
        ReplicaStreamFrame::GetAck { .. } => panic!("INCR parsed as GETACK"),
    }
    assert_eq!(
        repl.master_offset, 0,
        "parsing may compute stream offsets, but applied/ACK offset must only advance after RuntimeOwner apply succeeds"
    );
}

#[test]
fn replica_stream_parser_keeps_partial_tail_for_next_read() {
    let set_frame = multibulk(&[b"SET", b"k", b"v"]);
    let incr_frame = multibulk(&[b"INCR", b"n"]);
    let partial_len = incr_frame.len() - 2;
    let mut buf = Vec::new();
    buf.extend_from_slice(&set_frame);
    buf.extend_from_slice(&incr_frame[..partial_len]);
    let mut stream_offset = 0;
    let frames = parse_replica_frames(&mut buf, &mut stream_offset).unwrap();
    assert_eq!(frames.len(), 1);
    assert_eq!(buf, incr_frame[..partial_len].to_vec());
    assert_eq!(stream_offset, set_frame.len() as i64);
}

#[test]
fn replica_stream_parser_marks_getack_without_dropping_surrounding_commands() {
    let set_frame = multibulk(&[b"SET", b"k", b"v"]);
    let getack_frame = multibulk(&[b"REPLCONF", b"GETACK", b"*"]);
    let incr_frame = multibulk(&[b"INCR", b"n"]);
    let mut buf = Vec::new();
    buf.extend_from_slice(&set_frame);
    buf.extend_from_slice(&getack_frame);
    buf.extend_from_slice(&incr_frame);
    let mut stream_offset = 0;
    let frames = parse_replica_frames(&mut buf, &mut stream_offset).unwrap();
    assert!(buf.is_empty());
    assert_eq!(frames.len(), 3);
    match &frames[0] {
        ReplicaStreamFrame::Command { argv, offset_after } => {
            assert_eq!(*argv, vec![b"SET".to_vec(), b"k".to_vec(), b"v".to_vec()]);
            assert_eq!(*offset_after, set_frame.len() as i64);
        }
        ReplicaStreamFrame::GetAck { .. } => panic!("SET parsed as GETACK"),
    }
    match &frames[1] {
        ReplicaStreamFrame::GetAck { offset_after } => {
            assert_eq!(*offset_after, (set_frame.len() + getack_frame.len()) as i64);
        }
        ReplicaStreamFrame::Command { .. } => panic!("GETACK parsed as command"),
    }
    match &frames[2] {
        ReplicaStreamFrame::Command { argv, offset_after } => {
            assert_eq!(*argv, vec![b"INCR".to_vec(), b"n".to_vec()]);
            assert_eq!(
                *offset_after,
                (set_frame.len() + getack_frame.len() + incr_frame.len()) as i64
            );
        }
        ReplicaStreamFrame::GetAck { .. } => panic!("INCR parsed as GETACK"),
    }
}

#[test]
fn psync_args_use_fresh_sync_without_cached_offset() {
    let repl = local_state();
    assert_eq!(
        select_psync_args(&repl),
        vec![b"PSYNC".to_vec(), b"?".to_vec(), b"-1".to_vec()]
    );
}

#[test]
fn psync_args_do_not_use_cached_replid_at_zero_offset_by_default() {
    let mut repl = local_state();
    repl.cached_replid = Some(vec![b'b'; 40]);
    assert_eq!(
        select_psync_args(&repl),
        vec![b"PSYNC".to_vec(), b"?".to_vec(), b"-1".to_vec()]
    );
}

#[test]
fn psync_args_use_cached_replid_at_zero_offset_after_empty_fullsync() {
    let mut repl = local_state();
    let cached = vec![b'b'; 40];
    repl.cached_replid = Some(cached.clone());
    repl.zero_offset_allowed = true;
    assert_eq!(
        select_psync_args(&repl),
        vec![b"PSYNC".to_vec(), cached, b"0".to_vec()]
    );
}

#[test]
fn psync_args_include_failover_even_at_zero_offset() {
    let mut repl = local_state();
    let cached = vec![b'a'; 40];
    repl.cached_replid = Some(cached.clone());
    repl.failover = FailoverState::InProgress;
    assert_eq!(
        select_psync_args(&repl),
        vec![b"PSYNC".to_vec(), cached, b"0".to_vec(), b"FAILOVER".to_vec()]
    );
}

#[test]
fn diskless_load_mode_controls_fullsync_loading_state() {
    let mut p = PersistState::new();
    publish_fullsync_loading_state(&mut p, ReplDisklessLoadMode::Disabled, true);
    assert!(!p.loading);
    assert!(!p.async_loading);

    publish_fullsync_loading_state(&mut p, ReplDisklessLoadMode::Swapdb, true);
    assert!(p.loading);
    assert!(p.async_loading);

    clear_fullsync_loading_state(&mut p);
    publish_fullsync_loading_state(&mut p, ReplDisklessLoadMode::Swapdb, false);
    assert!(p.loading);
    assert!(!p.async_loading);

    clear_fullsync_loading_state(&mut p);
    publish_fullsync_loading_state(&mut p, ReplDisklessLoadMode::FlushBeforeLoad, false);
    assert!(p.loading);
    assert!(!p.async_loading);

    clear_fullsync_loading_state(&mut p);
    publish_fullsync_loading_state(&mut p, ReplDisklessLoadMode::OnEmptyDb, false);
    assert!(p.loading);
    assert!(!p.async_loading);
}

#[test]
fn reads_stop_at_timeouts_ends_and_other_epochs() {
    assert!(read_progress(0, 5, ReadEvent::Quiet(20), 20) == ReadNext::TimedOut);
    assert!(read_progress(0, 5, ReadEvent::Quiet(19), 20) == ReadNext::More(0));
    assert!(read_progress(2, 5, ReadEvent::Got(2), 20) == ReadNext::More(4));
    assert!(read_progress(4, 5, ReadEvent::Got(1), 20) == ReadNext::Done);
    assert!(read_progress(4, 5, ReadEvent::Closed, 20) == ReadNext::Eof);
    assert!(read_progress(4, 5, ReadEvent::Failed, 20) == ReadNext::Failed);
    let mut repl = local_state();
    let epoch = repl.dialer_epoch;
    assert!(may_read(&mut repl, epoch));
    repl.dialer_epoch += 1;
    assert!(!may_read(&mut repl, epoch));
}

#[test]
fn lines_skip_keepalives() {
    let mut line = Vec::new();
    let mut seen = Vec::new();
    for b in b"\n\r\n+PONG\r\n" {
        if feed_line(&mut line, *b) {
            seen.push(line.clone());
            line.clear();
        }
    }
    assert_eq!(seen, vec![b"+PONG".to_vec()]);
}

#[test]
fn answers_to_psync() {
    let id = "a".repeat(40);
    match parse_psync_reply(format!("+FULLRESYNC {id} 17").as_bytes(), 3) {
        Ok(PsyncOutcome::FullResync { offset, replid }) => {
            assert_eq!(offset, 17);
            assert_eq!(replid, id.as_bytes().to_vec());
        }
        _ => panic!("a full resync"),
    }
    assert!(matches!(
        parse_psync_reply(b"+CONTINUE", 3),
        Ok(PsyncOutcome::Continue { offset: 3 })
    ));
    assert!(matches!(parse_psync_reply(b"-ERR no", 3), Err(PsyncReplyError::Unexpected)));
    assert!(matches!(parse_psync_reply(&[0xff, 0xfe], 3), Err(PsyncReplyError::NotText)));
    assert!(matches!(
        parse_psync_reply(format!("+FULLRESYNC {id}").as_bytes(), 3),
        Err(PsyncReplyError::MissingOffset)
    ));
    assert!(matches!(
        parse_psync_reply(format!("+FULLRESYNC {id} x").as_bytes(), 3),
        Err(PsyncReplyError::BadOffset)
    ));
    assert!(matches!(
        parse_psync_reply(b"+FULLRESYNC abc 1", 3),
        Err(PsyncReplyError::BadReplid)
    ));
}

#[test]
fn snapshot_headers() {
    assert!(matches!(parse_snapshot_header(b"$512"), Ok(512)));
    assert!(matches!(parse_snapshot_header(b" $7 \r"), Ok(7)));
    assert!(matches!(parse_snapshot_header(b"+7"), Err(SnapshotHeaderError::NotBulk)));
    assert!(matches!(parse_snapshot_header(b"$x"), Err(SnapshotHeaderError::BadSize)));
    assert!(matches!(parse_snapshot_header(&[b'$', 0xff]), Err(SnapshotHeaderError::NotText)));
}

#[test]
fn acknowledgements_carry_the_offsets() {
    assert_eq!(
        build_replconf_ack(12, 9),
        multibulk(&[b"REPLCONF", b"ACK", b"12", b"FACK", b"9"])
    );
    let mut repl = local_state();
    repl.link = ReplicaLink::Connected;
    let epoch = repl.dialer_epoch;
    assert!(matches!(
        applied_replica_commands(&repl, epoch, false, false, 5, 0),
        ApplyNext::GiveUp
    ));
    assert!(matches!(
        applied_replica_commands(&repl, epoch, true, true, 5, 0),
        ApplyNext::Continue
    ));
    match applied_replica_commands(&repl, epoch, false, true, 5, 0) {
        ApplyNext::Send(f) => assert_ack_frame_contains_offset(&f, 5),
        _ => panic!("an acknowledgement"),
    }
    assert!(matches!(periodic_ack(&repl, epoch + 1, false, 0), ApplyNext::GiveUp));
}

#[test]
fn handshake_pieces() {
    let repl = local_state();
    let cfg = config();
    assert_eq!(greeting_frame(Greeting::Ping, &cfg, &repl), multibulk(&[b"PING"]));
    assert_eq!(
        greeting_frame(Greeting::Port, &cfg, &repl),
        multibulk(&[b"REPLCONF", b"listening-port", b"6379"])
    );
    assert_eq!(
        greeting_frame(Greeting::Psync, &cfg, &repl),
        multibulk(&[b"PSYNC", b"?", b"-1"])
    );
    assert!(accepts_greeting(Greeting::Ping, b"+PONG"));
    assert!(!accepts_greeting(Greeting::Auth, b"-ERR wrong"));
    assert_eq!(handshake_timeout_secs(None), 60);
    assert_eq!(handshake_timeout_secs(Some(7)), 7);
}

#[test]
fn adopting_a_primary_takes_its_id_and_offset() {
    let mut repl = local_state();
    adopt_fullresync_primary(&mut repl, vec![b'z'; 40], 99);
    assert_eq!(repl.cached_replid, Some(vec![b'z'; 40]));
    assert_eq!(repl.master_offset, 99);
}

#[test]
fn a_dialer_goes_from_connecting_to_following() {
    let mut c = ctx();
    let mut repl = local_state();
    let mut p = PersistState::new();
    let cfg = config();
    repl.become_replica_of(b"host".to_vec(), 7000);
    let mut d = Dialer::new(repl.dialer_epoch);
    let mut step = |d: &mut Dialer, e: DialEvent| dial_step(d, &mut c, &mut repl, &mut p, &cfg, e);
    assert!(matches!(step(&mut d, DialEvent::Round(0)), DialAction::Connect));
    match step(&mut d, DialEvent::Connected) {
        DialAction::Send(f) => assert_eq!(f, multibulk(&[b"PING"])),
        _ => panic!("a greeting"),
    }
    assert!(matches!(step(&mut d, DialEvent::Line(b"+PONG".to_vec())), DialAction::Send(_)));
    assert!(matches!(step(&mut d, DialEvent::Line(b"+OK".to_vec())), DialAction::Send(_)));
    match step(&mut d, DialEvent::Line(b"+OK".to_vec())) {
        DialAction::Send(f) => assert_eq!(f, multibulk(&[b"PSYNC", b"?", b"-1"])),
        _ => panic!("the request for the stream"),
    }
    let line = format!("+FULLRESYNC {} 10", "c".repeat(40)).into_bytes();
    assert!(matches!(step(&mut d, DialEvent::Line(line)), DialAction::ReadSnapshot));
    assert!(matches!(
        step(&mut d, DialEvent::Snapshot(b"REDIS".to_vec())),
        DialAction::Load { offset: 10, .. }
    ));
    assert!(matches!(step(&mut d, DialEvent::Loaded(true)), DialAction::Follow(10)));
    assert!(d.stage == DialStage::Following);
    match step(&mut d, DialEvent::Data(multibulk(&[b"SET", b"k", b"v"]))) {
        DialAction::Work(ops) => assert!(matches!(
            &ops[0],
            SinkOp::Apply { commands, .. } if commands.len() == 1
        )),
        _ => panic!("work"),
    }
    assert!(matches!(step(&mut d, DialEvent::Broken), DialAction::Sleep(_)));
}

#[test]
fn a_dialer_of_an_old_epoch_stops() {
    let mut c = ctx();
    let mut repl = local_state();
    let mut p = PersistState::new();
    repl.become_replica_of(b"host".to_vec(), 7000);
    let mut d = Dialer::new(repl.dialer_epoch);
    repl.become_master();
    assert!(matches!(
        dial_step(&mut d, &mut c, &mut repl, &mut p, &config(), DialEvent::Round(0)),
        DialAction::Stop
    ));
}

#[test]
fn frames_are_the_same_in_two_chunks() {
    let mut whole = multibulk(&[b"SET", b"k", b"v"]);
    whole.extend_from_slice(&multibulk(&[b"REPLCONF", b"GETACK", b"*"]));
    whole.extend_from_slice(&multibulk(&[b"INCR", b"n"]));
    let ends = |frames: &[ReplicaStreamFrame]| -> Vec<i64> {
        frames
            .iter()
            .map(|f| match f {
                ReplicaStreamFrame::Command { offset_after, .. } => *offset_after,
                ReplicaStreamFrame::GetAck { offset_after } => *offset_after,
            })
            .collect()
    };
    let mut buf = whole.clone();
    let mut offset = 3;
    let at_once = ends(&parse_replica_frames(&mut buf, &mut offset).unwrap());
    assert_eq!(at_once.len(), 3);
    assert_eq!(offset, 3 + whole.len() as i64);
    for cut in 0..=whole.len() {
        let mut buf = whole[..cut].to_vec();
        let mut offset = 3;
        let mut got = ends(&parse_replica_frames(&mut buf, &mut offset).unwrap());
        buf.extend_from_slice(&whole[cut..]);
        got.extend(ends(&parse_replica_frames(&mut buf, &mut offset).unwrap()));
        assert_eq!(got, at_once);
        assert!(buf.is_empty());
        assert_eq!(offset, 3 + whole.len() as i64);
    }
}
