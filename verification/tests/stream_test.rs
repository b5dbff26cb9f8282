use redis_commands::context::{Client, CommandContext};
use redis_commands::error::RedisError;
use redis_commands::keyspace::RedisObject;
use redis_commands::reply::encode_replies;
use redis_commands::stream::{
    xadd_command, xdel_command, xlen_command, xrange_command, xread_command, xrevrange_command,
    xsetid_command, xtrim_command,
};
use redis_commands::stream_claim::{xautoclaim_command, xclaim_command, xpending_command};
use redis_commands::stream_data::{parse_stream_id, StreamId};
use redis_commands::stream_groups::{xack_command, xgroup_command, xreadgroup_command};
use redis_commands::stream_info::xinfo_command;
use redis_commands::stream_wake::{
    wake_blocked_xreadgroup_for_key, wake_xreadgroup_after_rename,
};

fn ctx() -> CommandContext {
    CommandContext::new(Client::new(1))
}

fn args(a: &[&str]) -> Vec<Vec<u8>> {
    a.iter().map(|s| s.as_bytes().to_vec()).collect()
}

fn run<F>(c: &mut CommandContext, a: &[&str], f: F) -> String
where
    F: FnOnce(&mut CommandContext) -> Result<(), RedisError>,
{
    c.client.argv = args(a);
    c.replies.clear();
    match f(c) {
        Ok(()) => String::from_utf8(encode_replies(&c.replies, false)).unwrap(),
        Err(e) => format!("-{}\r\n", String::from_utf8(e.to_resp_payload()).unwrap()),
    }
}

fn entry(id: &str, f: &str, v: &str) -> String {
    format!(
        "*2\r\n${}\r\n{}\r\n*2\r\n${}\r\n{}\r\n${}\r\n{}\r\n",
        id.len(),
        id,
        f.len(),
        f,
        v.len(),
        v
    )
}

fn three(c: &mut CommandContext) {
    for (id, v) in [("1-1", "a"), ("2-1", "b"), ("3-1", "c")] {
        run(c, &["XADD", "s", id, "f", v], xadd_command);
    }
}

#[test]
fn stream_ids_parse_and_order() {
    assert_eq!(parse_stream_id(b"5-7", 0), Some(StreamId { ms: 5, seq: 7 }));
    assert_eq!(parse_stream_id(b"5", 9), Some(StreamId { ms: 5, seq: 9 }));
    assert_eq!(parse_stream_id(b"5-x", 0), None);
    let a = StreamId { ms: 1, seq: u64::MAX };
    assert_eq!(a.checked_succ(), Some(StreamId { ms: 2, seq: 0 }));
    assert_eq!(StreamId::maximum().checked_succ(), None);
    assert_eq!(StreamId::zero().checked_pred(), None);
    assert!(a.less(StreamId { ms: 2, seq: 0 }));
    assert_eq!(a.to_display_bytes(), b"1-18446744073709551615".to_vec());
}

#[test]
fn adds_entries_with_ascending_ids() {
    let mut c = ctx();
    assert_eq!(run(&mut c, &["XADD", "s", "1-1", "f", "v"], xadd_command), "$3\r\n1-1\r\n");
    assert_eq!(
        run(&mut c, &["XADD", "s", "1-1", "f", "v"], xadd_command),
        "-ERR The ID specified in XADD is equal or smaller than the target stream top item\r\n"
    );
    assert_eq!(
        run(&mut c, &["XADD", "t", "0-0", "f", "v"], xadd_command),
        "-ERR The ID specified in XADD must be greater than 0-0\r\n"
    );
    c.now_ms = 77;
    assert_eq!(run(&mut c, &["XADD", "s", "*", "f", "v"], xadd_command), "$4\r\n77-0\r\n");
    c.now_ms = 50;
    assert_eq!(run(&mut c, &["XADD", "s", "*", "f", "v"], xadd_command), "$4\r\n77-1\r\n");
    assert_eq!(run(&mut c, &["XADD", "s", "77-*", "f", "v"], xadd_command), "$4\r\n77-2\r\n");
    assert_eq!(run(&mut c, &["XLEN", "s"], xlen_command), ":4\r\n");
    assert_eq!(
        run(&mut c, &["XADD", "no", "NOMKSTREAM", "*", "f", "v"], xadd_command),
        "$-1\r\n"
    );
    assert_eq!(
        run(&mut c, &["XADD", "s", "*", "f"], xadd_command),
        "-ERR wrong number of arguments for 'xadd' command\r\n"
    );
    assert_eq!(
        run(&mut c, &["XADD", "s", "bad", "f", "v"], xadd_command),
        "-ERR Invalid stream ID specified as stream command argument\r\n"
    );
}

#[test]
fn ranges_of_entries() {
    let mut c = ctx();
    three(&mut c);
    assert_eq!(
        run(&mut c, &["XRANGE", "s", "-", "+"], xrange_command),
        format!("*3\r\n{}{}{}", entry("1-1", "f", "a"), entry("2-1", "f", "b"), entry("3-1", "f", "c"))
    );
    assert_eq!(
        run(&mut c, &["XRANGE", "s", "(1-1", "2"], xrange_command),
        format!("*1\r\n{}", entry("2-1", "f", "b"))
    );
    assert_eq!(
        run(&mut c, &["XREVRANGE", "s", "+", "-", "COUNT", "1"], xrevrange_command),
        format!("*1\r\n{}", entry("3-1", "f", "c"))
    );
    assert_eq!(run(&mut c, &["XRANGE", "none", "-", "+"], xrange_command), "*0\r\n");
}

#[test]
fn deletes_and_trims_entries() {
    let mut c = ctx();
    three(&mut c);
    assert_eq!(run(&mut c, &["XDEL", "s", "2-1", "9-9"], xdel_command), ":1\r\n");
    assert_eq!(run(&mut c, &["XLEN", "s"], xlen_command), ":2\r\n");
    assert_eq!(run(&mut c, &["XTRIM", "s", "MAXLEN", "1"], xtrim_command), ":1\r\n");
    assert_eq!(
        run(&mut c, &["XRANGE", "s", "-", "+"], xrange_command),
        format!("*1\r\n{}", entry("3-1", "f", "c"))
    );
    assert_eq!(run(&mut c, &["XTRIM", "s", "MINID", "4"], xtrim_command), ":1\r\n");
    assert_eq!(run(&mut c, &["XLEN", "s"], xlen_command), ":0\r\n");
    assert_eq!(run(&mut c, &["XSETID", "s", "10-0"], xsetid_command), "+OK\r\n");
    assert_eq!(
        run(&mut c, &["XADD", "s", "9-0", "f", "v"], xadd_command),
        "-ERR The ID specified in XADD is equal or smaller than the target stream top item\r\n"
    );
}

#[test]
fn reads_new_entries_and_wakes_readers() {
    let mut c = ctx();
    three(&mut c);
    assert_eq!(
        run(&mut c, &["XREAD", "STREAMS", "s", "2-0"], xread_command),
        format!(
            "*1\r\n*2\r\n$1\r\ns\r\n*2\r\n{}{}",
            entry("2-1", "f", "b"),
            entry("3-1", "f", "c")
        )
    );
    assert_eq!(run(&mut c, &["XREAD", "STREAMS", "s", "$"], xread_command), "*-1\r\n");
    c.client.attached = true;
    c.client.id = 5;
    assert_eq!(
        run(&mut c, &["XREAD", "BLOCK", "0", "STREAMS", "s", "$"], xread_command),
        ""
    );
    assert_eq!(c.blocked.len(), 1);
    c.client.id = 6;
    run(&mut c, &["XADD", "s", "4-1", "f", "d"], xadd_command);
    assert_eq!(c.blocked.len(), 0);
    assert_eq!(c.outbox.len(), 1);
    assert_eq!(c.outbox[0].client_id, 5);
    assert_eq!(
        c.outbox[0].frame,
        format!("*1\r\n*2\r\n$1\r\ns\r\n*1\r\n{}", entry("4-1", "f", "d")).into_bytes()
    );
    assert!(run(&mut c, &["XREAD", "STREAMS", "s"], xread_command).starts_with("-ERR"));
}

#[test]
fn groups_deliver_and_acknowledge() {
    let mut c = ctx();
    three(&mut c);
    assert_eq!(run(&mut c, &["XGROUP", "CREATE", "s", "g", "0"], xgroup_command), "+OK\r\n");
    assert_eq!(
        run(&mut c, &["XGROUP", "CREATE", "s", "g", "0"], xgroup_command),
        "-BUSYGROUP Consumer Group name already exists\r\n"
    );
    assert_eq!(
        run(
            &mut c,
            &["XREADGROUP", "GROUP", "g", "bob", "COUNT", "2", "STREAMS", "s", ">"],
            xreadgroup_command
        ),
        format!(
            "*1\r\n*2\r\n$1\r\ns\r\n*2\r\n{}{}",
            entry("1-1", "f", "a"),
            entry("2-1", "f", "b")
        )
    );
    assert_eq!(
        run(&mut c, &["XPENDING", "s", "g"], xpending_command),
        "*4\r\n:2\r\n$3\r\n1-1\r\n$3\r\n2-1\r\n*1\r\n*2\r\n$3\r\nbob\r\n$1\r\n2\r\n"
    );
    assert_eq!(run(&mut c, &["XACK", "s", "g", "1-1", "9-9"], xack_command), ":1\r\n");
    assert_eq!(run(&mut c, &["XACK", "s", "g", "1-1"], xack_command), ":0\r\n");
    c.now_ms = 1000;
    assert_eq!(
        run(&mut c, &["XCLAIM", "s", "g", "eve", "10", "2-1"], xclaim_command),
        format!("*1\r\n{}", entry("2-1", "f", "b"))
    );
    assert!(run(&mut c, &["XPENDING", "s", "g"], xpending_command).contains("eve"));
    c.now_ms = 5000;
    assert!(run(&mut c, &["XAUTOCLAIM", "s", "g", "ann", "0", "0"], xautoclaim_command)
        .contains("2-1"));
    assert!(run(&mut c, &["XREADGROUP", "GROUP", "nope", "x", "STREAMS", "s", ">"], xreadgroup_command)
        .starts_with("-NOGROUP"));
    assert_eq!(run(&mut c, &["XGROUP", "DESTROY", "s", "g"], xgroup_command), ":1\r\n");
}

#[test]
fn information_about_streams() {
    let mut c = ctx();
    three(&mut c);
    run(&mut c, &["XGROUP", "CREATE", "s", "g", "$"], xgroup_command);
    let info = run(&mut c, &["XINFO", "STREAM", "s"], xinfo_command);
    assert!(info.contains("$6\r\nlength\r\n:3\r\n"), "{info}");
    assert!(info.contains("$17\r\nlast-generated-id\r\n$3\r\n3-1\r\n"), "{info}");
    let groups = run(&mut c, &["XINFO", "GROUPS", "s"], xinfo_command);
    assert!(groups.contains("$4\r\nname\r\n$1\r\ng\r\n"), "{groups}");
    assert_eq!(run(&mut c, &["XINFO", "STREAM", "no"], xinfo_command), "-ERR no such key\r\n");
    c.db.set_key(b"k".to_vec(), RedisObject::Str(b"v".to_vec()), false);
    assert!(run(&mut c, &["XLEN", "k"], xlen_command).starts_with("-WRONGTYPE"));
}

fn two_group_readers(c: &mut CommandContext) {
    three(c);
    run(c, &["XGROUP", "CREATE", "s", "g", "$"], xgroup_command);
    c.client.attached = true;
    for (id, name) in [(5, "bob"), (6, "eve")] {
        c.client.id = id;
        run(
            c,
            &["XREADGROUP", "GROUP", "g", name, "BLOCK", "0", "STREAMS", "s", ">"],
            xreadgroup_command,
        );
    }
    assert_eq!(c.blocked.len(), 2);
}

#[test]
fn pending_entries_are_read_again_from_an_id_on() {
    let mut c = ctx();
    three(&mut c);
    run(&mut c, &["XGROUP", "CREATE", "s", "g", "0"], xgroup_command);
    run(&mut c, &["XREADGROUP", "GROUP", "g", "bob", "STREAMS", "s", ">"], xreadgroup_command);
    let again = |c: &mut CommandContext, id: &str| {
        run(
            c,
            &["XREADGROUP", "GROUP", "g", "bob", "COUNT", "2", "STREAMS", "s", id],
            xreadgroup_command,
        )
    };
    assert_eq!(
        again(&mut c, "2-1"),
        format!(
            "*1\r\n*2\r\n$1\r\ns\r\n*2\r\n{}{}",
            entry("2-1", "f", "b"),
            entry("3-1", "f", "c")
        )
    );
    assert_eq!(
        again(&mut c, "2-2"),
        format!("*1\r\n*2\r\n$1\r\ns\r\n*1\r\n{}", entry("3-1", "f", "c"))
    );
    run(&mut c, &["XDEL", "s", "3-1"], xdel_command);
    assert_eq!(again(&mut c, "3-0"), "*1\r\n*2\r\n$1\r\ns\r\n*1\r\n*2\r\n$3\r\n3-1\r\n*-1\r\n");
}

#[test]
fn a_new_entry_goes_to_one_consumer_of_a_group() {
    let mut c = ctx();
    two_group_readers(&mut c);
    run(&mut c, &["XADD", "s", "4-1", "f", "d"], xadd_command);
    assert_eq!(c.outbox.len(), 1);
    assert_eq!(c.outbox[0].client_id, 5);
    assert_eq!(
        c.outbox[0].frame,
        format!("*1\r\n*2\r\n$1\r\ns\r\n*1\r\n{}", entry("4-1", "f", "d")).into_bytes()
    );
    assert_eq!(c.blocked.len(), 1);
    assert_eq!(c.blocked[0].client_id, 6);
}

#[test]
fn group_readers_receive_an_error_where_the_stream_or_the_group_is_gone() {
    let mut c = ctx();
    two_group_readers(&mut c);
    run(&mut c, &["XGROUP", "DESTROY", "s", "g"], xgroup_command);
    assert_eq!(c.blocked.len(), 0);
    assert_eq!(c.outbox.len(), 2);
    assert!(c.outbox[1].frame.starts_with(b"-NOGROUP "));

    let mut c = ctx();
    two_group_readers(&mut c);
    c.db.set_key(b"s".to_vec(), RedisObject::Str(b"v".to_vec()), false);
    wake_blocked_xreadgroup_for_key(&mut c, b"s");
    assert_eq!(c.blocked.len(), 0);
    assert_eq!(c.outbox.len(), 2);
    assert!(c.outbox[0].frame.starts_with(b"-WRONGTYPE "));
}

#[test]
fn pending_entries_are_listed_in_a_range() {
    let mut c = ctx();
    three(&mut c);
    run(&mut c, &["XGROUP", "CREATE", "s", "g", "0"], xgroup_command);
    run(&mut c, &["XREADGROUP", "GROUP", "g", "bob", "STREAMS", "s", ">"], xreadgroup_command);
    c.now_ms = 70;
    assert_eq!(
        run(&mut c, &["XPENDING", "s", "g", "(1-1", "+", "1"], xpending_command),
        "*1\r\n*4\r\n$3\r\n2-1\r\n$3\r\nbob\r\n:70\r\n:1\r\n"
    );
    assert_eq!(
        run(&mut c, &["XPENDING", "s", "g", "IDLE", "71", "-", "+", "10"], xpending_command),
        "*0\r\n"
    );
    assert_eq!(
        run(&mut c, &["XPENDING", "s", "g", "-", "+", "10", "nobody"], xpending_command),
        "*0\r\n"
    );
    assert_eq!(
        run(&mut c, &["XCLAIM", "s", "g", "eve", "0", "3-1", "JUSTID"], xclaim_command),
        "*1\r\n$3\r\n3-1\r\n"
    );
    assert_eq!(
        run(&mut c, &["XPENDING", "s", "g", "-", "+", "10", "eve"], xpending_command),
        "*1\r\n*4\r\n$3\r\n3-1\r\n$3\r\neve\r\n:0\r\n:1\r\n"
    );
}

#[test]
fn after_a_rename_readers_without_their_group_are_told_so() {
    let mut c = ctx();
    two_group_readers(&mut c);
    c.db.set_key(b"s".to_vec(), RedisObject::Str(b"v".to_vec()), false);
    wake_xreadgroup_after_rename(&mut c, b"s");
    assert_eq!(c.blocked.len(), 0);
    assert_eq!(c.outbox.len(), 2);
    assert!(c.outbox[0].frame.starts_with(b"-NOGROUP "));
}
