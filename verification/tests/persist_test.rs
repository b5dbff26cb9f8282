use redis_commands::context::{Client, CommandContext};
use redis_commands::error::RedisError;
use redis_commands::keyspace::{KeyUse, RedisObject};
use redis_commands::persist::{
    bgrewriteaof_command, bgsave_command, bgsave_finished, bgsave_for_replication, bgsave_started,
    bgsave_temp_name, dump_command, dump_source, forget_migrate_socket, mark_migrate_socket_cached,
    captured_key_count, migrate_cached_sockets, rdb_key_save_delay, rdb_snapshot_key_count, restore_command,
    save_command, sleep_for_rdb_key_save_delay_checked, subtract_dirty_saturating, AofAction,
    BgsaveAction, BgsaveForReplResult, BgsaveStart, DelayStep, Payload, PersistState,
    ReplSnapshotStart,
};
use redis_commands::repl_state::ReplicationState;
use redis_commands::reply::encode_replies;

fn ctx() -> CommandContext {
    CommandContext::new(Client::new(1))
}

fn args(a: &[&str]) -> Vec<Vec<u8>> {
    a.iter().map(|s| s.as_bytes().to_vec()).collect()
}

fn run<F>(c: &mut CommandContext, a: &[&str], f: F) -> String
where
    F: FnOnce(&mut CommandContext) -> Result<(), RedisError>,
{
    c.client.argv = args(a);
    c.replies.clear();
    match f(c) {
        Ok(()) => String::from_utf8(encode_replies(&c.replies, false)).unwrap(),
        Err(e) => format!("-{}\r\n", String::from_utf8(e.to_resp_payload()).unwrap()),
    }
}

fn run_bgsave(c: &mut CommandContext, p: &mut PersistState, a: &[&str]) -> (String, BgsaveAction) {
    let mut action = BgsaveAction::Nothing;
    let reply = run(c, a, |c| {
        action = bgsave_command(c, p)?;
        Ok(())
    });
    (reply, action)
}

#[test]
fn bgsave_schedule_then_cancel_tracks_scheduled_state() {
    let mut c = ctx();
    let mut p = PersistState::new();
    p.aof_rewrite_in_progress = true;
    let (reply, _) = run_bgsave(&mut c, &mut p, &["BGSAVE", "SCHEDULE"]);
    assert_eq!(reply, "+Background saving scheduled\r\n");
    assert!(p.rdb_bgsave_scheduled);
    let (reply, _) = run_bgsave(&mut c, &mut p, &["BGSAVE", "CANCEL"]);
    assert_eq!(reply, "+Scheduled background saving cancelled\r\n");
    assert!(!p.rdb_bgsave_scheduled);
}

#[test]
fn bgsave_cancel_without_active_or_scheduled_save_errors() {
    let mut c = ctx();
    let mut p = PersistState::new();
    let (reply, _) = run_bgsave(&mut c, &mut p, &["BGSAVE", "CANCEL"]);
    assert_eq!(
        reply,
        "-ERR Background saving is currently not in progress or scheduled\r\n"
    );
}

#[test]
fn bgsave_dirty_subtract_preserves_writes_after_snapshot_marker() {
    let mut c = ctx();
    let mut p = PersistState::new();
    c.dirty = 12;
    p.rdb_dirty_before_bgsave = c.dirty;
    c.add_dirty(3);
    c.dirty = subtract_dirty_saturating(c.dirty, p.rdb_dirty_before_bgsave);
    assert_eq!(c.dirty, 3);
}

#[test]
fn checked_rdb_delay_aborts_when_parent_death_is_observed() {
    assert!(
        sleep_for_rdb_key_save_delay_checked(0, true) == DelayStep::Aborted,
        "fork children must be able to abort even when the debug delay is zero"
    );
    assert!(sleep_for_rdb_key_save_delay_checked(1, true) == DelayStep::Aborted);
    assert!(sleep_for_rdb_key_save_delay_checked(0, false) == DelayStep::Over);
    assert!(
        sleep_for_rdb_key_save_delay_checked(7, false) == DelayStep::Sleep { micros: 7, left: 0 }
    );
}

#[test]
fn bgsave_starts_and_finishes() {
    let mut c = ctx();
    c.dirty = 5;
    let mut p = PersistState::new();
    let (reply, action) = run_bgsave(&mut c, &mut p, &["BGSAVE"]);
    assert_eq!(reply, "");
    assert!(action == BgsaveAction::Fork);
    let reply = run(&mut c, &["BGSAVE"], |c| bgsave_started(c, &mut p, BgsaveStart::Forked(77)));
    assert_eq!(reply, "+Background saving started\r\n");
    assert_eq!(p.rdb_child_pid, 77);
    let (reply, _) = run_bgsave(&mut c, &mut p, &["BGSAVE"]);
    assert!(reply.starts_with("-ERR Background save already in progress"));
    let left = bgsave_finished(&mut p, 9, true, 1234);
    assert_eq!(left, 4);
    assert_eq!(p.rdb_child_pid, 0);
    assert_eq!(p.last_save_unix, 1234);
    assert!(p.rdb_last_bgsave_ok);
}

#[test]
fn save_replies_ok_or_the_error() {
    let mut c = ctx();
    let mut p = PersistState::new();
    assert_eq!(
        run(&mut c, &["SAVE"], |c| save_command(c, &mut p, Ok(()), 42)),
        "+OK\r\n"
    );
    assert_eq!(p.last_save_unix, 42);
    let reply = run(&mut c, &["SAVE"], |c| save_command(c, &mut p, Err(b"disk full".to_vec()), 43));
    assert!(reply.starts_with("-ERR"));
    assert!(reply.contains("disk full"));
    assert_eq!(p.last_save_unix, 42);
}

#[test]
fn dump_and_restore() {
    let mut c = ctx();
    c.client.argv = args(&["DUMP", "k"]);
    assert!(dump_source(&c).is_none());
    assert_eq!(
        run(&mut c, &["DUMP", "k"], |c| dump_command(c, Ok(Vec::new()))),
        "$-1\r\n"
    );
    c.db.set_key(b"k".to_vec(), RedisObject::Str(b"v".to_vec()), false);
    assert_eq!(
        run(&mut c, &["DUMP", "k"], |c| dump_command(c, Ok(b"payload".to_vec()))),
        "$7\r\npayload\r\n"
    );
    let value = || Payload::Value(RedisObject::Str(b"w".to_vec()));
    assert_eq!(
        run(&mut c, &["RESTORE", "k", "0", "x"], |c| restore_command(c, value())),
        "-BUSYKEY Target key name already exists.\r\n"
    );
    c.now_ms = 10;
    assert_eq!(
        run(&mut c, &["RESTORE", "k", "5", "x", "REPLACE"], |c| restore_command(c, value())),
        "+OK\r\n"
    );
    assert_eq!(c.db.expire_of(b"k"), Some(15));
    assert_eq!(
        run(&mut c, &["RESTORE", "n", "-1", "x"], |c| restore_command(c, value())),
        "-ERR Invalid TTL value, must be >= 0\r\n"
    );
    assert_eq!(
        run(&mut c, &["RESTORE", "n", "0", "x"], |c| restore_command(c, Payload::BadChecksum)),
        "-ERR DUMP payload version or checksum are wrong\r\n"
    );
}

#[test]
fn restore_keeps_what_it_is_told_of_the_use_of_a_key() {
    let mut c = ctx();
    let value = || Payload::Value(RedisObject::Str(b"w".to_vec()));
    let restore = |c: &mut CommandContext, a: &[&str]| run(c, a, |c| restore_command(c, value()));
    assert_eq!(restore(&mut c, &["RESTORE", "k", "0", "x", "IDLETIME", "30"]), "+OK\r\n");
    assert!(c.db.use_of(b"k") == Some(KeyUse { lru_idle: 30, lfu_freq: -1 }));
    assert_eq!(
        restore(&mut c, &["RESTORE", "k", "5", "x", "REPLACE", "FREQ", "200"]),
        "+OK\r\n"
    );
    assert!(c.db.use_of(b"k") == Some(KeyUse { lru_idle: -1, lfu_freq: 200 }));
    assert_eq!(restore(&mut c, &["RESTORE", "k", "0", "x", "REPLACE"]), "+OK\r\n");
    assert!(c.db.use_of(b"k").is_none());
    assert_eq!(
        restore(&mut c, &["RESTORE", "n", "0", "x", "FREQ", "256"]),
        "-ERR Invalid FREQ value, must be >= 0 and <= 255\r\n"
    );
    assert_eq!(
        restore(&mut c, &["RESTORE", "n", "0", "x", "IDLETIME", "-1"]),
        "-ERR Invalid IDLETIME value, must be >= 0\r\n"
    );
}

#[test]
fn snapshot_for_a_replica_runs_once() {
    let mut repl = ReplicationState::new(vec![b'1'; 40], 1024);
    let mut p = PersistState::new();
    let r = bgsave_for_replication(&mut repl, &mut p, 5, 0, 1, false, ReplSnapshotStart::Forked(99));
    assert!(r == BgsaveForReplResult::Started);
    assert!(repl.job.is_some());
    let r = bgsave_for_replication(&mut repl, &mut p, 6, 0, 1, false, ReplSnapshotStart::Forked(98));
    assert!(r == BgsaveForReplResult::Skipped);
}

#[test]
fn rewrite_of_the_log_waits_for_a_save() {
    let mut c = ctx();
    let mut p = PersistState::new();
    let mut action = None;
    let reply = run(&mut c, &["BGREWRITEAOF"], |c| {
        action = Some(bgrewriteaof_command(c, &mut p, true)?);
        Ok(())
    });
    assert_eq!(reply, "");
    assert!(matches!(action, Some(AofAction::Rewrite)));
    p.rdb_child_pid = 4;
    let reply = run(&mut c, &["BGREWRITEAOF"], |c| {
        action = Some(bgrewriteaof_command(c, &mut p, true)?);
        Ok(())
    });
    assert_eq!(reply, "+Background append only file rewriting scheduled\r\n");
    assert!(p.aof_rewrite_scheduled);
}

#[test]
fn small_helpers_of_persistence() {
    let mut p = PersistState::new();
    mark_migrate_socket_cached(&mut p);
    assert_eq!(migrate_cached_sockets(&p), 1);
    mark_migrate_socket_cached(&mut p);
    assert_eq!(migrate_cached_sockets(&p), 1);
    forget_migrate_socket(&mut p);
    assert_eq!(migrate_cached_sockets(&p), 0);
    assert_eq!(bgsave_temp_name(12), b"temp-12.rdb".to_vec());
    let mut c = ctx();
    c.db.set_key(b"a".to_vec(), RedisObject::Str(Vec::new()), false);
    c.db.set_key(b"b".to_vec(), RedisObject::Str(Vec::new()), false);
    let dbs = vec![c.db];
    assert_eq!(rdb_snapshot_key_count(&dbs), 2);
    assert_eq!(captured_key_count(&dbs), 2);
    assert_eq!(rdb_snapshot_key_count(&[]), 1);
    assert_eq!(captured_key_count(&[]), 0);
    assert_eq!(rdb_key_save_delay(10, 3), 30);
    assert_eq!(subtract_dirty_saturating(2, 5), 0);
}
