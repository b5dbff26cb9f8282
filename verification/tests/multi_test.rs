use redis_commands::context::{Client, CommandContext};
use redis_commands::error::RedisError;
use redis_commands::keyspace::RedisObject;
use redis_commands::multi::{
    begin_queued, discard_command, end_queued, exec_command, is_no_multi_command,
    is_tx_control_command, multi_command, queue_current_command, reject_no_multi_command,
    reset_multi_state, unwatch_command, watch_command, ExecAction,
};
use redis_commands::reply::encode_replies;
use redis_commands::string::{get_command, incr_command, set_command};

fn ctx() -> CommandContext {
    CommandContext::new(Client::new(1))
}

fn args(a: &[&str]) -> Vec<Vec<u8>> {
    a.iter().map(|s| s.as_bytes().to_vec()).collect()
}

fn run<F>(c: &mut CommandContext, a: &[&str], f: F) -> String
where
    F: FnOnce(&mut CommandContext) -> Result<(), RedisError>,
{
    c.client.argv = args(a);
    c.replies.clear();
    match f(c) {
        Ok(()) => String::from_utf8(encode_replies(&c.replies, false)).unwrap(),
        Err(e) => format!("-{}\r\n", String::from_utf8(e.to_resp_payload()).unwrap()),
    }
}

fn exec(c: &mut CommandContext) -> String {
    c.client.argv = args(&["EXEC"]);
    c.replies.clear();
    match exec_command(c) {
        Err(e) => format!("-{}\r\n", String::from_utf8(e.to_resp_payload()).unwrap()),
        Ok(ExecAction::Nothing) => String::from_utf8(encode_replies(&c.replies, false)).unwrap(),
        Ok(ExecAction::Run(queued)) => {
            for argv in queued {
                if let Some(name) = begin_queued(c, argv) {
                    let r = match name.as_slice() {
                        b"SET" => set_command(c),
                        b"INCR" => incr_command(c),
                        _ => get_command(c),
                    };
                    end_queued(c, r);
                }
            }
            reset_multi_state(c);
            String::from_utf8(encode_replies(&c.replies, false)).unwrap()
        }
    }
}

#[test]
fn multi_then_discard_clears_flag() {
    let mut c = ctx();
    assert_eq!(run(&mut c, &["MULTI"], multi_command), "+OK\r\n");
    assert!(c.client.multi);
    assert_eq!(run(&mut c, &["DISCARD"], discard_command), "+OK\r\n");
    assert!(!c.client.multi);
}

#[test]
fn no_multi_rejection_uses_canonical_text() {
    let err = reject_no_multi_command(b"MULTI");
    let payload = err.to_resp_payload();
    assert!(payload.starts_with(b"ERR Command 'multi' not allowed inside a transaction"));
}

#[test]
fn discard_without_multi_errors() {
    let mut c = CommandContext::new(Client::new(3));
    c.client.argv = args(&["DISCARD"]);
    let err = discard_command(&mut c).err();
    assert!(matches!(err, Some(RedisError::Runtime(_))));
    assert_eq!(
        err.unwrap().to_resp_payload(),
        b"ERR DISCARD without MULTI".to_vec()
    );
}

#[test]
fn control_commands_are_told_apart() {
    for name in ["multi", "WATCH"] {
        assert!(is_no_multi_command(name.as_bytes()));
        assert!(is_tx_control_command(name.as_bytes()));
    }
    for name in ["EXEC", "discard", "Unwatch", "RESET"] {
        assert!(!is_no_multi_command(name.as_bytes()));
        assert!(is_tx_control_command(name.as_bytes()));
    }
    assert!(!is_tx_control_command(b"SET"));
    assert!(!is_tx_control_command(b"MULTIX"));
}

#[test]
fn exec_runs_the_queue_in_order() {
    let mut c = ctx();
    run(&mut c, &["MULTI"], multi_command);
    let q = run(&mut c, &["SET", "k", "41"], |c| queue_current_command(c, true));
    assert_eq!(q, "+QUEUED\r\n");
    run(&mut c, &["INCR", "k"], |c| queue_current_command(c, true));
    run(&mut c, &["INCR"], |c| queue_current_command(c, true));
    assert!(!c.db.has_key(b"k"));
    assert_eq!(
        exec(&mut c),
        "*3\r\n+OK\r\n:42\r\n-ERR wrong number of arguments for 'incr' command\r\n"
    );
    assert!(!c.client.multi);
    assert_eq!(c.client.queued_argvs.len(), 0);
}

#[test]
fn exec_without_multi_errors() {
    let mut c = ctx();
    assert_eq!(exec(&mut c), "-ERR EXEC without MULTI\r\n");
}

#[test]
fn unknown_command_aborts_the_transaction() {
    let mut c = ctx();
    run(&mut c, &["MULTI"], multi_command);
    assert_eq!(
        run(&mut c, &["NOSUCH", "x"], |c| queue_current_command(c, false)),
        "-ERR unknown command 'NOSUCH'\r\n"
    );
    assert_eq!(
        exec(&mut c),
        "-EXECABORT Transaction discarded because of previous errors.\r\n"
    );
    assert!(!c.client.multi);
}

#[test]
fn empty_command_is_not_queued() {
    let mut c = ctx();
    assert_eq!(
        run(&mut c, &[], |c| queue_current_command(c, true)),
        "-ERR empty command\r\n"
    );
    c.replies.clear();
    assert!(begin_queued(&mut c, Vec::new()).is_none());
    assert_eq!(
        encode_replies(&c.replies, false),
        b"-ERR empty queued command\r\n".to_vec()
    );
}

#[test]
fn watched_change_aborts_exec() {
    let mut c = ctx();
    assert_eq!(run(&mut c, &["WATCH", "a", "b"], watch_command), "+OK\r\n");
    c.db.set_key(b"b".to_vec(), RedisObject::Str(b"1".to_vec()), false);
    run(&mut c, &["MULTI"], multi_command);
    run(&mut c, &["SET", "a", "1"], |c| queue_current_command(c, true));
    assert_eq!(exec(&mut c), "*-1\r\n");
    assert!(!c.db.has_key(b"a"));
}

#[test]
fn unwatch_lets_exec_run() {
    let mut c = ctx();
    run(&mut c, &["WATCH", "a"], watch_command);
    c.db.set_key(b"a".to_vec(), RedisObject::Str(b"1".to_vec()), false);
    assert_eq!(run(&mut c, &["UNWATCH"], unwatch_command), "+OK\r\n");
    run(&mut c, &["MULTI"], multi_command);
    run(&mut c, &["INCR", "a"], |c| queue_current_command(c, true));
    assert_eq!(exec(&mut c), "*1\r\n:2\r\n");
}

#[test]
fn discard_forgets_that_a_watched_key_changed() {
    let mut c = ctx();
    run(&mut c, &["WATCH", "a"], watch_command);
    c.db.set_key(b"a".to_vec(), RedisObject::Str(b"1".to_vec()), false);
    run(&mut c, &["MULTI"], multi_command);
    assert_eq!(run(&mut c, &["DISCARD"], discard_command), "+OK\r\n");
    run(&mut c, &["MULTI"], multi_command);
    run(&mut c, &["INCR", "a"], |c| queue_current_command(c, true));
    assert_eq!(exec(&mut c), "*1\r\n:2\r\n");
}

#[test]
fn watch_needs_a_key() {
    let mut c = ctx();
    assert_eq!(
        run(&mut c, &["WATCH"], watch_command),
        "-ERR wrong number of arguments for 'WATCH' command\r\n"
    );
}
