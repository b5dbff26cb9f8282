use redis_commands::context::{Client, CommandContext};
use redis_commands::error::RedisError;
use redis_commands::keyspace::RedisObject;
use redis_commands::latency::{
    latency_command, latency_command_fullname, record_latency_histogram, report_latency_event,
    reset_latency_histograms, LatencyState,
};
use redis_commands::listeners::{set_tcp_port_config, tcp_port_config, ListenerConfig};
use redis_commands::migrate::{
    migrate_command, migrate_preamble, migrate_restore_frame, parse_migrate_options,
    parse_resp_scalar, source_migrate_ttl, target_result, KeyResult, TargetReply,
};
use redis_commands::reply::encode_replies;
use redis_commands::resp::encode_resp_command;
use redis_commands::shutdown_signals::{
    abort_shutdown_pending, debug_pause_cron, mark_shutdown_save_failed, note_shutdown_signal,
    set_debug_pause_cron, set_shutdown_pending, shutdown_on_sigterm_force, shutdown_pending,
    shutdown_save_failed, shutdown_signal_count, shutdown_signal_number, ShutdownState,
};
use redis_commands::slowlog::{
    commandlog_command, commandlog_stored_argv, record_blocked_slowlog_entry,
    record_large_commandlog_entries, record_slowlog_entry, remember_blocked_slowlog_entry,
    set_commandlog_large_reply_threshold, set_commandlog_large_request_threshold,
    set_slowlog_max_len, set_slowlog_threshold, slowlog_command, CommandLogs,
};

fn ctx() -> CommandContext {
    CommandContext::new(Client::new(1))
}

fn args(a: &[&str]) -> Vec<Vec<u8>> {
    a.iter().map(|s| s.as_bytes().to_vec()).collect()
}

fn run<F>(c: &mut CommandContext, a: &[&str], f: F) -> String
where
    F: FnOnce(&mut CommandContext) -> Result<(), RedisError>,
{
    c.client.argv = args(a);
    c.replies.clear();
    match f(c) {
        Ok(()) => String::from_utf8(encode_replies(&c.replies, false)).unwrap(),
        Err(e) => format!("-{}\r\n", String::from_utf8(e.to_resp_payload()).unwrap()),
    }
}

#[test]
fn slow_commands_are_logged_newest_first() {
    let mut c = ctx();
    let mut logs = CommandLogs::new();
    set_slowlog_threshold(&mut logs, 100);
    record_slowlog_entry(&mut logs, &args(&["GET", "a"]), 99, 1, None, 10);
    assert_eq!(run(&mut c, &["SLOWLOG", "LEN"], |c| slowlog_command(c, &mut logs)), ":0\r\n");
    record_slowlog_entry(&mut logs, &args(&["GET", "a"]), 100, 1, None, 10);
    record_slowlog_entry(&mut logs, &args(&["GET", "b"]), 200, 1, None, 11);
    assert_eq!(run(&mut c, &["SLOWLOG", "LEN"], |c| slowlog_command(c, &mut logs)), ":2\r\n");
    let got = run(&mut c, &["SLOWLOG", "GET", "1"], |c| slowlog_command(c, &mut logs));
    assert!(got.starts_with("*1\r\n*6\r\n:1\r\n:11\r\n:200\r\n*2\r\n$3\r\nGET\r\n$1\r\nb\r\n"), "{got}");
    set_slowlog_max_len(&mut logs, 1);
    assert_eq!(run(&mut c, &["SLOWLOG", "LEN"], |c| slowlog_command(c, &mut logs)), ":1\r\n");
    assert_eq!(run(&mut c, &["SLOWLOG", "RESET"], |c| slowlog_command(c, &mut logs)), "+OK\r\n");
    assert_eq!(run(&mut c, &["SLOWLOG", "LEN"], |c| slowlog_command(c, &mut logs)), ":0\r\n");
    assert_eq!(
        run(&mut c, &["SLOWLOG", "GET", "-2"], |c| slowlog_command(c, &mut logs)),
        "-ERR count should be greater than or equal to -1\r\n"
    );
    assert!(run(&mut c, &["SLOWLOG", "WHAT"], |c| slowlog_command(c, &mut logs)).starts_with("-ERR"));
}

#[test]
fn blocked_commands_are_logged_when_they_end() {
    let mut c = ctx();
    let mut logs = CommandLogs::new();
    set_slowlog_threshold(&mut logs, 10);
    remember_blocked_slowlog_entry(&mut logs, args(&["BLPOP", "a", "0"]), 1000, 7, None);
    record_blocked_slowlog_entry(&mut logs, 7, 1500, 3);
    record_blocked_slowlog_entry(&mut logs, 7, 1500, 3);
    let got = run(&mut c, &["SLOWLOG", "GET"], |c| slowlog_command(c, &mut logs));
    assert!(got.starts_with("*1\r\n"), "{got}");
    assert!(got.contains(":500\r\n"), "{got}");
}

#[test]
fn large_requests_and_replies_are_logged() {
    let mut c = ctx();
    let mut logs = CommandLogs::new();
    set_commandlog_large_request_threshold(&mut logs, 10);
    set_commandlog_large_reply_threshold(&mut logs, 100);
    record_large_commandlog_entries(&mut logs, &args(&["GET", "a"]), 20, 20, 1, None, 1);
    assert_eq!(
        run(&mut c, &["COMMANDLOG", "LEN", "large-request"], |c| commandlog_command(c, &mut logs)),
        ":1\r\n"
    );
    assert_eq!(
        run(&mut c, &["COMMANDLOG", "LEN", "large-reply"], |c| commandlog_command(c, &mut logs)),
        ":0\r\n"
    );
    assert_eq!(
        run(&mut c, &["COMMANDLOG", "LEN", "other"], |c| commandlog_command(c, &mut logs)),
        "-ERR type should be one of the following: slow, large-request, large-reply\r\n"
    );
}

#[test]
fn logged_arguments_are_cut() {
    let long = "x".repeat(200);
    let stored = commandlog_stored_argv(&args(&["SET", &long]));
    assert_eq!(
        String::from_utf8(stored[1].clone()).unwrap(),
        format!("{}... (72 more bytes)", "x".repeat(128))
    );
    let many: Vec<Vec<u8>> = (0..40).map(|i: i32| i.to_string().into_bytes()).collect();
    let stored = commandlog_stored_argv(&many);
    assert_eq!(stored.len(), 32);
    assert_eq!(
        String::from_utf8(stored[31].clone()).unwrap(),
        "... (9 more arguments)"
    );
}

#[test]
fn latency_events_and_histograms() {
    let mut c = ctx();
    let mut st = LatencyState::new(args(&["get", "set"]));
    report_latency_event(&mut st, b"command", 30, 5);
    report_latency_event(&mut st, b"command", 20, 6);
    assert_eq!(
        run(&mut c, &["LATENCY", "LATEST"], |c| latency_command(c, &mut st, Vec::new())),
        "*1\r\n*4\r\n$7\r\ncommand\r\n:6\r\n:20\r\n:30\r\n"
    );
    assert_eq!(
        run(&mut c, &["LATENCY", "HISTORY", "command"], |c| latency_command(c, &mut st, Vec::new())),
        "*2\r\n*2\r\n:5\r\n:30\r\n*2\r\n:6\r\n:20\r\n"
    );
    assert_eq!(
        run(&mut c, &["LATENCY", "RESET", "command"], |c| latency_command(c, &mut st, Vec::new())),
        ":1\r\n"
    );
    assert_eq!(
        run(&mut c, &["LATENCY", "LATEST"], |c| latency_command(c, &mut st, Vec::new())),
        "*0\r\n"
    );
    record_latency_histogram(&mut st, &args(&["GET", "k"]), 3);
    let got = run(&mut c, &["LATENCY", "HISTOGRAM", "get"], |c| latency_command(c, &mut st, Vec::new()));
    assert!(got.contains("calls"), "{got}");
    reset_latency_histograms(&mut st);
    assert_eq!(
        run(&mut c, &["LATENCY", "DOCTOR"], |c| latency_command(c, &mut st, b"fine".to_vec())),
        "$4\r\nfine\r\n"
    );
    assert_eq!(latency_command_fullname(&args(&["GET", "k"])), Some(b"get".to_vec()));
}

#[test]
fn migration_reads_its_options_and_frames() {
    let argv = args(&["MIGRATE", "h", "7000", "k", "2", "100", "COPY", "REPLACE", "AUTH", "pw"]);
    let o = match parse_migrate_options(&argv, 16) {
        Ok(o) => o,
        Err(_) => panic!("options"),
    };
    assert_eq!(o.port, 7000);
    assert_eq!(o.db, 2);
    assert!(o.copy && o.replace);
    assert_eq!(o.keys, args(&["k"]));
    assert_eq!(migrate_preamble(&o), vec![args(&["AUTH", "pw"]), args(&["SELECT", "2"])]);
    assert_eq!(
        migrate_restore_frame(b"k", 5, b"data", true),
        encode_resp_command(&args(&["RESTORE", "k", "5", "data", "REPLACE"]))
    );
    assert!(matches!(parse_resp_scalar(b"+OK\r\n"), Ok(Some(TargetReply::Said(s))) if s == b"OK"));
    assert!(matches!(parse_resp_scalar(b"+O"), Ok(None)));
    assert!(matches!(parse_resp_scalar(b"-ERR x\r\n"), Ok(Some(TargetReply::Complained(_)))));
    assert!(parse_resp_scalar(b"?\r\n").is_err());
    assert!(target_result(TargetReply::Complained(b"ERR x".to_vec())).is_err());
    let bad = args(&["MIGRATE", "h", "0", "k", "2", "-1"]);
    assert!(parse_migrate_options(&bad, 16).is_err());
}

#[test]
fn migrated_keys_leave() {
    let mut c = ctx();
    c.db.set_key(b"a".to_vec(), RedisObject::Str(b"1".to_vec()), false);
    c.db.set_expire(b"a", 500);
    c.now_ms = 100;
    assert_eq!(source_migrate_ttl(&c, b"a"), Some(400));
    let argv = ["MIGRATE", "h", "7000", "", "0", "100", "KEYS", "a", "b"];
    let o = match parse_migrate_options(&args(&argv), 16) {
        Ok(o) => o,
        Err(_) => panic!("options"),
    };
    let rs = vec![KeyResult::Taken, KeyResult::Missing];
    assert_eq!(run(&mut c, &argv, |c| migrate_command(c, &o, &rs)), "+OK\r\n");
    assert!(!c.db.has_key(b"a"));
    let rs = vec![KeyResult::Missing, KeyResult::Missing];
    assert_eq!(run(&mut c, &argv, |c| migrate_command(c, &o, &rs)), "+NOKEY\r\n");
    c.db.set_key(b"a".to_vec(), RedisObject::Str(b"1".to_vec()), false);
    let rs = vec![
        KeyResult::Refused(RedisError::runtime("ERR Target instance replied with error: no")),
        KeyResult::Missing,
    ];
    assert!(run(&mut c, &argv, |c| migrate_command(c, &o, &rs)).starts_with("-ERR"));
    assert!(c.db.has_key(b"a"));
}

#[test]
fn shutdown_state_and_listener_port() {
    let mut s = ShutdownState::new();
    note_shutdown_signal(&mut s, 15);
    note_shutdown_signal(&mut s, 2);
    assert_eq!(shutdown_signal_count(&s), 2);
    assert_eq!(shutdown_signal_number(&s), 2);
    set_shutdown_pending(&mut s, true);
    assert!(shutdown_pending(&s));
    assert!(abort_shutdown_pending(&mut s));
    assert!(!abort_shutdown_pending(&mut s));
    assert!(!shutdown_save_failed(&s));
    mark_shutdown_save_failed(&mut s);
    assert!(shutdown_save_failed(&s));
    assert!(!shutdown_on_sigterm_force(&s));
    set_debug_pause_cron(&mut s, true);
    assert!(debug_pause_cron(&s));
    let mut l = ListenerConfig::new();
    assert_eq!(tcp_port_config(&l), 0);
    set_tcp_port_config(&mut l, 6380);
    assert_eq!(tcp_port_config(&l), 6380);
}
