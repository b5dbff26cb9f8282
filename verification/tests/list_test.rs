use redis_commands::context::{BlockedAction, Client, CommandContext};
use redis_commands::error::RedisError;
use redis_commands::keyspace::RedisObject;
use redis_commands::list::{
    lindex_command, linsert_command, llen_command, lpop_command, lpush_command, lpushx_command,
    lset_command, rpop_command, rpush_command, rpushx_command,
};
use redis_commands::list_move::{
    blmove_command, blmpop_command, blpop_command, brpop_command, brpoplpush_command,
    get_list_position_from_object_or_reply, get_string_object_from_list_position, lmove_command,
    lmpop_command, rpoplpush_command, Timeout,
};
use redis_commands::list_range::{lpos_command, lrange_command, lrem_command, ltrim_command};
use redis_commands::list_type::{
    list_type_del_range, list_type_delete, list_type_dup, list_type_equal, list_type_get,
    list_type_get_value, list_type_init_iterator, list_type_insert, list_type_length,
    list_type_next, list_type_pop, list_type_push, list_type_release_iterator, list_type_replace,
    list_type_replace_at_index, list_type_set_iterator_direction, list_type_try_conversion,
    list_type_try_conversion_append, ListConvType, ListEncoding, ListEntryValue, ListLimits,
    ListPosition, ListTypeEntry,
};
use redis_commands::reply::encode_replies;

fn ctx() -> CommandContext {
    CommandContext::new(Client::new(1))
}

fn args(a: &[&str]) -> Vec<Vec<u8>> {
    a.iter().map(|s| s.as_bytes().to_vec()).collect()
}

fn run<F>(c: &mut CommandContext, a: &[&str], f: F) -> String
where
    F: FnOnce(&mut CommandContext) -> Result<(), RedisError>,
{
    c.client.argv = args(a);
    c.replies.clear();
    match f(c) {
        Ok(()) => String::from_utf8(encode_replies(&c.replies, false)).unwrap(),
        Err(e) => format!("-{}\r\n", String::from_utf8(e.to_resp_payload()).unwrap()),
    }
}

fn all(c: &mut CommandContext, key: &str) -> String {
    run(c, &["LRANGE", key, "0", "-1"], lrange_command)
}

#[test]
fn pushes_and_pops_at_both_ends() {
    let mut c = ctx();
    assert_eq!(run(&mut c, &["LPUSHX", "l", "x"], lpushx_command), ":0\r\n");
    assert_eq!(run(&mut c, &["RPUSHX", "l", "x"], rpushx_command), ":0\r\n");
    assert_eq!(run(&mut c, &["RPUSH", "l", "a", "b"], rpush_command), ":2\r\n");
    assert_eq!(run(&mut c, &["LPUSH", "l", "c", "d"], lpush_command), ":4\r\n");
    assert_eq!(all(&mut c, "l"), "*4\r\n$1\r\nd\r\n$1\r\nc\r\n$1\r\na\r\n$1\r\nb\r\n");
    assert_eq!(run(&mut c, &["RPUSHX", "l", "e"], rpushx_command), ":5\r\n");
    assert_eq!(run(&mut c, &["RPOP", "l"], rpop_command), "$1\r\ne\r\n");
    assert_eq!(run(&mut c, &["LPOP", "l"], lpop_command), "$1\r\nd\r\n");
    assert_eq!(run(&mut c, &["RPOP", "l", "2"], rpop_command), "*2\r\n$1\r\nb\r\n$1\r\na\r\n");
    assert_eq!(run(&mut c, &["LLEN", "l"], llen_command), ":1\r\n");
    assert_eq!(run(&mut c, &["LPOP", "l", "9"], lpop_command), "*1\r\n$1\r\nc\r\n");
    assert!(!c.db.has_key(b"l"));
    assert_eq!(run(&mut c, &["LPOP", "l"], lpop_command), "$-1\r\n");
    assert_eq!(run(&mut c, &["LLEN", "l"], llen_command), ":0\r\n");
    assert_eq!(c.dirty, 10);
}

#[test]
fn list_errors() {
    let mut c = ctx();
    c.db.set_key(b"s".to_vec(), RedisObject::Str(b"v".to_vec()), false);
    let wrong = "-WRONGTYPE Operation against a key holding the wrong kind of value\r\n";
    assert_eq!(run(&mut c, &["LPUSH", "s", "x"], lpush_command), wrong);
    assert_eq!(run(&mut c, &["LLEN", "s"], llen_command), wrong);
    assert_eq!(run(&mut c, &["LRANGE", "s", "0", "-1"], lrange_command), wrong);
    assert_eq!(
        run(&mut c, &["LPUSH", "s"], lpush_command),
        "-ERR wrong number of arguments for 'lpush' command\r\n"
    );
    assert_eq!(
        run(&mut c, &["LPOP", "l", "-1"], lpop_command),
        "-ERR value is out of range, must be positive\r\n"
    );
    assert_eq!(
        run(&mut c, &["LPOP", "a", "b", "c"], lpop_command),
        "-ERR wrong number of arguments for 'pop' command\r\n"
    );
    assert_eq!(
        run(&mut c, &["LSET", "none", "0", "x"], lset_command),
        "-ERR no such key\r\n"
    );
    assert_eq!(
        run(&mut c, &["LRANGE", "l", "x", "0"], lrange_command),
        "-ERR value is not an integer or out of range\r\n"
    );
    assert_eq!(
        run(&mut c, &["LINSERT", "l", "BESIDE", "a", "b"], linsert_command),
        "-ERR syntax error\r\n"
    );
    assert_eq!(
        run(&mut c, &["LMOVE", "a", "b", "LEFT", "UP"], lmove_command),
        "-ERR syntax error\r\n"
    );
    assert_eq!(
        run(&mut c, &["LREM", "l", "-9223372036854775808", "x"], lrem_command),
        "-ERR value is out of range\r\n"
    );
}

#[test]
fn insert_index_and_set() {
    let mut c = ctx();
    run(&mut c, &["RPUSH", "l", "a", "c", "c"], rpush_command);
    assert_eq!(run(&mut c, &["LINSERT", "l", "before", "c", "b"], linsert_command), ":4\r\n");
    assert_eq!(run(&mut c, &["LINSERT", "l", "AFTER", "c", "d"], linsert_command), ":5\r\n");
    assert_eq!(run(&mut c, &["LINSERT", "l", "AFTER", "z", "d"], linsert_command), ":-1\r\n");
    assert_eq!(run(&mut c, &["LINSERT", "m", "AFTER", "z", "d"], linsert_command), ":0\r\n");
    assert_eq!(
        all(&mut c, "l"),
        "*5\r\n$1\r\na\r\n$1\r\nb\r\n$1\r\nc\r\n$1\r\nd\r\n$1\r\nc\r\n"
    );
    assert_eq!(run(&mut c, &["LINDEX", "l", "-2"], lindex_command), "$1\r\nd\r\n");
    assert_eq!(run(&mut c, &["LINDEX", "l", "5"], lindex_command), "$-1\r\n");
    assert_eq!(run(&mut c, &["LSET", "l", "-1", "E"], lset_command), "+OK\r\n");
    assert_eq!(run(&mut c, &["LINDEX", "l", "4"], lindex_command), "$1\r\nE\r\n");
    assert_eq!(
        run(&mut c, &["LSET", "l", "9", "x"], lset_command),
        "-ERR value is out of range\r\n"
    );
}

#[test]
fn ranges_and_trims() {
    let mut c = ctx();
    run(&mut c, &["RPUSH", "l", "a", "b", "c", "d"], rpush_command);
    assert_eq!(
        run(&mut c, &["LRANGE", "l", "-3", "1"], lrange_command),
        "*1\r\n$1\r\nb\r\n"
    );
    assert_eq!(run(&mut c, &["LRANGE", "l", "3", "1"], lrange_command), "*0\r\n");
    assert_eq!(run(&mut c, &["LRANGE", "none", "0", "-1"], lrange_command), "*0\r\n");
    assert_eq!(run(&mut c, &["LTRIM", "l", "1", "-2"], ltrim_command), "+OK\r\n");
    assert_eq!(all(&mut c, "l"), "*2\r\n$1\r\nb\r\n$1\r\nc\r\n");
    c.db.watch(b"l", 5);
    assert_eq!(run(&mut c, &["LTRIM", "l", "0", "-1"], ltrim_command), "+OK\r\n");
    assert!(!c.db.take_dirty(5));
    assert_eq!(run(&mut c, &["LTRIM", "l", "5", "9"], ltrim_command), "+OK\r\n");
    assert!(!c.db.has_key(b"l"));
    assert!(c.db.take_dirty(5));
}

#[test]
fn removes_equal_elements() {
    let mut c = ctx();
    let fill = ["RPUSH", "l", "x", "a", "x", "b", "x"];
    run(&mut c, &fill, rpush_command);
    assert_eq!(run(&mut c, &["LREM", "l", "2", "x"], lrem_command), ":2\r\n");
    assert_eq!(all(&mut c, "l"), "*3\r\n$1\r\na\r\n$1\r\nb\r\n$1\r\nx\r\n");
    run(&mut c, &["LTRIM", "l", "1", "0"], ltrim_command);
    run(&mut c, &fill, rpush_command);
    assert_eq!(run(&mut c, &["LREM", "l", "-2", "x"], lrem_command), ":2\r\n");
    assert_eq!(all(&mut c, "l"), "*3\r\n$1\r\nx\r\n$1\r\na\r\n$1\r\nb\r\n");
    assert_eq!(run(&mut c, &["LREM", "l", "0", "q"], lrem_command), ":0\r\n");
    assert_eq!(run(&mut c, &["LREM", "none", "0", "q"], lrem_command), ":0\r\n");
    run(&mut c, &["LREM", "l", "0", "a"], lrem_command);
    run(&mut c, &["LREM", "l", "0", "b"], lrem_command);
    assert_eq!(run(&mut c, &["LREM", "l", "0", "x"], lrem_command), ":1\r\n");
    assert!(!c.db.has_key(b"l"));
}

#[test]
fn finds_positions() {
    let mut c = ctx();
    run(&mut c, &["RPUSH", "l", "a", "b", "c", "1", "2", "3", "c", "c"], rpush_command);
    assert_eq!(run(&mut c, &["LPOS", "l", "c"], lpos_command), ":2\r\n");
    assert_eq!(run(&mut c, &["LPOS", "l", "c", "RANK", "2"], lpos_command), ":6\r\n");
    assert_eq!(run(&mut c, &["LPOS", "l", "c", "RANK", "-1"], lpos_command), ":7\r\n");
    assert_eq!(
        run(&mut c, &["LPOS", "l", "c", "COUNT", "2"], lpos_command),
        "*2\r\n:2\r\n:6\r\n"
    );
    assert_eq!(
        run(&mut c, &["LPOS", "l", "c", "RANK", "-1", "COUNT", "0"], lpos_command),
        "*3\r\n:7\r\n:6\r\n:2\r\n"
    );
    assert_eq!(
        run(&mut c, &["LPOS", "l", "c", "COUNT", "0", "MAXLEN", "7"], lpos_command),
        "*2\r\n:2\r\n:6\r\n"
    );
    assert_eq!(run(&mut c, &["LPOS", "l", "zz"], lpos_command), "$-1\r\n");
    assert_eq!(run(&mut c, &["LPOS", "no", "c", "COUNT", "1"], lpos_command), "*0\r\n");
    assert!(run(&mut c, &["LPOS", "l", "c", "RANK", "0"], lpos_command)
        .starts_with("-RANK can't be zero"));
    assert_eq!(
        run(&mut c, &["LPOS", "l", "c", "COUNT", "-1"], lpos_command),
        "-ERR COUNT can't be negative\r\n"
    );
    assert_eq!(
        run(&mut c, &["LPOS", "l", "c", "MAXLEN", "-1"], lpos_command),
        "-ERR MAXLEN can't be negative\r\n"
    );
    assert_eq!(run(&mut c, &["LPOS", "l", "c", "RANK"], lpos_command), "-ERR syntax error\r\n");
}

#[test]
fn moves_elements() {
    let mut c = ctx();
    run(&mut c, &["RPUSH", "s", "a", "b", "c"], rpush_command);
    c.notify.list = true;
    c.notify.generic = true;
    assert_eq!(
        run(&mut c, &["LMOVE", "s", "d", "RIGHT", "LEFT"], lmove_command),
        "$1\r\nc\r\n"
    );
    let events: Vec<(Vec<u8>, Vec<u8>)> =
        c.events.iter().map(|e| (e.name.clone(), e.key.clone())).collect();
    assert_eq!(
        events,
        vec![(b"lpush".to_vec(), b"d".to_vec()), (b"rpop".to_vec(), b"s".to_vec())]
    );
    assert_eq!(run(&mut c, &["RPOPLPUSH", "s", "s"], rpoplpush_command), "$1\r\nb\r\n");
    assert_eq!(all(&mut c, "s"), "*2\r\n$1\r\nb\r\n$1\r\na\r\n");
    run(&mut c, &["LMOVE", "s", "d", "LEFT", "RIGHT"], lmove_command);
    run(&mut c, &["LMOVE", "s", "d", "LEFT", "RIGHT"], lmove_command);
    assert!(!c.db.has_key(b"s"));
    assert_eq!(all(&mut c, "d"), "*3\r\n$1\r\nc\r\n$1\r\nb\r\n$1\r\na\r\n");
    assert_eq!(run(&mut c, &["RPOPLPUSH", "s", "d"], rpoplpush_command), "$-1\r\n");
    assert!(matches!(get_list_position_from_object_or_reply(b"Left"), Ok(ListPosition::Head)));
    assert!(get_list_position_from_object_or_reply(b"middle").is_err());
    assert_eq!(get_string_object_from_list_position(ListPosition::Tail), b"RIGHT".to_vec());
}

#[test]
fn pops_from_the_first_list_with_elements() {
    let mut c = ctx();
    run(&mut c, &["RPUSH", "b", "1", "2", "3"], rpush_command);
    assert_eq!(
        run(&mut c, &["LMPOP", "2", "a", "b", "LEFT", "COUNT", "2"], lmpop_command),
        "*2\r\n$1\r\nb\r\n*2\r\n$1\r\n1\r\n$1\r\n2\r\n"
    );
    assert_eq!(
        run(&mut c, &["LMPOP", "1", "b", "RIGHT"], lmpop_command),
        "*2\r\n$1\r\nb\r\n*1\r\n$1\r\n3\r\n"
    );
    assert_eq!(run(&mut c, &["LMPOP", "1", "b", "RIGHT"], lmpop_command), "*-1\r\n");
    assert_eq!(
        run(&mut c, &["LMPOP", "0", "b", "RIGHT"], lmpop_command),
        "-ERR numkeys should be greater than 0\r\n"
    );
    assert_eq!(
        run(&mut c, &["LMPOP", "1", "b", "RIGHT", "COUNT", "0"], lmpop_command),
        "-ERR count should be greater than 0\r\n"
    );
    assert_eq!(run(&mut c, &["LMPOP", "5", "b", "RIGHT"], lmpop_command), "-ERR syntax error\r\n");
}

#[test]
fn blocking_commands_serve_or_wait() {
    let mut c = ctx();
    run(&mut c, &["RPUSH", "l", "a", "b"], rpush_command);
    assert_eq!(
        run(&mut c, &["BLPOP", "x", "l", "0"], |c| blpop_command(c, Timeout::Ms(0))),
        "*2\r\n$1\r\nl\r\n$1\r\na\r\n"
    );
    assert_eq!(
        run(&mut c, &["BRPOP", "l", "0"], |c| brpop_command(c, Timeout::Ms(0))),
        "*2\r\n$1\r\nl\r\n$1\r\nb\r\n"
    );
    assert_eq!(run(&mut c, &["BLPOP", "l", "0"], |c| blpop_command(c, Timeout::Ms(0))), "*-1\r\n");
    c.client.attached = true;
    c.now_ms = 100;
    assert_eq!(run(&mut c, &["BLPOP", "l", "m", "1"], |c| blpop_command(c, Timeout::Ms(1000))), "");
    assert!(c.client.blocked_on_keys);
    assert_eq!(c.blocked.len(), 2);
    assert_eq!(c.blocked[1].key, b"m".to_vec());
    assert_eq!(c.blocked[0].deadline_ms, 1100);
    assert!(matches!(
        c.blocked[0].action,
        BlockedAction::ListPop { from: ListPosition::Head, count: None }
    ));
    assert_eq!(
        run(&mut c, &["BLMOVE", "l", "d", "LEFT", "RIGHT", "0"], |c| blmove_command(c, Timeout::Ms(0))),
        ""
    );
    assert!(matches!(c.blocked[2].action, BlockedAction::ListMove { .. }));
    assert_eq!(c.blocked[2].deadline_ms, i64::MAX);
    c.client.deny_blocking = true;
    assert_eq!(
        run(&mut c, &["BRPOPLPUSH", "l", "d", "0"], |c| brpoplpush_command(c, Timeout::Ms(0))),
        "$-1\r\n"
    );
    run(&mut c, &["RPUSH", "l", "z"], rpush_command);
    assert_eq!(
        run(&mut c, &["BRPOPLPUSH", "l", "d", "0"], |c| brpoplpush_command(c, Timeout::Ms(0))),
        "$1\r\nz\r\n"
    );
    assert_eq!(
        run(&mut c, &["BLMPOP", "0", "2", "l", "d", "LEFT", "COUNT", "5"], |c| blmpop_command(c, Timeout::Ms(0))),
        "*2\r\n$1\r\nd\r\n*1\r\n$1\r\nz\r\n"
    );
}

#[test]
fn lists_change_their_encoding_by_size() {
    let m = ListLimits { max_bytes: 10, max_entries: 4 };
    let small = args(&["aa", "bb"]);
    let big = args(&["aaaaaa", "bbbbbb"]);
    assert!(
        list_type_try_conversion(ListEncoding::Listpack, &small, ListConvType::Growing, &m)
            == ListEncoding::Listpack
    );
    assert!(
        list_type_try_conversion(ListEncoding::Listpack, &big, ListConvType::Auto, &m)
            == ListEncoding::Quicklist
    );
    assert!(
        list_type_try_conversion(ListEncoding::Quicklist, &big, ListConvType::Shrinking, &m)
            == ListEncoding::Quicklist
    );
    assert!(
        list_type_try_conversion(ListEncoding::Quicklist, &small, ListConvType::Shrinking, &m)
            == ListEncoding::Listpack
    );
    assert!(
        list_type_try_conversion(ListEncoding::Quicklist, &small, ListConvType::Growing, &m)
            == ListEncoding::Quicklist
    );
    assert!(
        list_type_try_conversion_append(ListEncoding::Listpack, &small, &big, 0, 0, &m)
            == ListEncoding::Listpack
    );
    assert!(
        list_type_try_conversion_append(ListEncoding::Listpack, &small, &big, 0, 1, &m)
            == ListEncoding::Quicklist
    );
}

#[test]
fn cursors_walk_and_change_lists() {
    let mut l = args(&["a", "b", "c"]);
    list_type_push(&mut l, b"z".to_vec(), ListPosition::Head);
    assert_eq!(list_type_length(&l), 4);
    assert_eq!(list_type_pop(&mut l, ListPosition::Head), Some(b"z".to_vec()));
    let mut it = list_type_init_iterator(&l, ListEncoding::Listpack, -1, ListPosition::Head);
    let mut e = ListTypeEntry::new(it.encoding, it.direction);
    assert!(list_type_next(&mut it, &l, &mut e));
    assert_eq!(list_type_get(&e), b"c".to_vec());
    assert!(list_type_equal(&e, b"c"));
    list_type_delete(&mut it, &mut l, &e);
    assert!(list_type_next(&mut it, &l, &mut e));
    assert_eq!(list_type_get(&e), b"b".to_vec());
    list_type_set_iterator_direction(&mut it, &l, &e, ListPosition::Tail);
    assert!(it.next.is_none());
    list_type_insert(&mut it, &mut l, &mut e, b"x".to_vec(), ListPosition::Tail);
    assert_eq!(l, args(&["a", "b", "x"]));
    list_type_replace(&mut l, &e, b"y".to_vec());
    assert_eq!(l, args(&["a", "b", "y"]));
    list_type_release_iterator(it);
    assert!(list_type_replace_at_index(&mut l, -3, b"A".to_vec()));
    assert!(!list_type_replace_at_index(&mut l, 3, b"A".to_vec()));
    let copy = list_type_dup(&l);
    list_type_del_range(&mut l, -2, 5);
    assert_eq!(l, args(&["A"]));
    assert_eq!(copy, args(&["A", "b", "y"]));
}

#[test]
fn integer_entries_read_as_decimal_text() {
    let mut e = ListTypeEntry::new(ListEncoding::Quicklist, ListPosition::Tail);
    e.quicklist_longval = -12;
    assert!(matches!(list_type_get_value(&e), ListEntryValue::Integer(-12)));
    assert_eq!(list_type_get(&e), b"-12".to_vec());
    e.encoding = ListEncoding::Listpack;
    assert_eq!(list_type_get(&e), b"0".to_vec());
    e.listpack_integer = Some(7);
    assert_eq!(list_type_get(&e), b"7".to_vec());
    e.listpack_value = Some(b"seven".to_vec());
    assert!(matches!(list_type_get_value(&e), ListEntryValue::Bytes(b) if b == b"seven"));
}

#[test]
fn pops_that_may_wait_are_handed_on_as_plain_ones() {
    let mut c = ctx();
    run(&mut c, &["RPUSH", "l", "a", "b", "c", "d"], rpush_command);
    run(&mut c, &["BLPOP", "l", "0"], |c| blpop_command(c, Timeout::Ms(0)));
    assert_eq!(c.client.argv, args(&["LPOP", "l"]));
    run(&mut c, &["BLMPOP", "0", "1", "l", "RIGHT", "COUNT", "9"], |c| {
        blmpop_command(c, Timeout::Ms(0))
    });
    assert_eq!(c.client.argv, args(&["RPOP", "l", "3"]));
    run(&mut c, &["RPUSH", "l", "a", "b"], rpush_command);
    run(&mut c, &["BLMOVE", "l", "d", "left", "right", "0"], |c| {
        blmove_command(c, Timeout::Ms(0))
    });
    assert_eq!(c.client.argv, args(&["LMOVE", "l", "d", "LEFT", "RIGHT"]));
    run(&mut c, &["BRPOPLPUSH", "l", "d", "0"], |c| brpoplpush_command(c, Timeout::Ms(0)));
    assert_eq!(c.client.argv, args(&["RPOPLPUSH", "l", "d"]));
}

#[test]
fn timeouts_are_checked() {
    let mut c = ctx();
    assert_eq!(
        run(&mut c, &["BLPOP", "l", "x"], |c| blpop_command(c, Timeout::NotFloat)),
        "-ERR timeout is not a float or out of range\r\n"
    );
    assert_eq!(
        run(&mut c, &["BRPOPLPUSH", "l", "d", "-1"], |c| brpoplpush_command(c, Timeout::Negative)),
        "-ERR timeout is negative\r\n"
    );
    assert_eq!(
        run(&mut c, &["BLMOVE", "l", "d", "UP", "LEFT", "x"], |c| {
            blmove_command(c, Timeout::NotFloat)
        }),
        "-ERR syntax error\r\n"
    );
}
