use redis_commands::context::{Client, CommandContext};
use redis_commands::error::RedisError;
use redis_commands::keyspace::RedisObject;
use redis_commands::lcs::lcs_command;
use redis_commands::reply::encode_replies;
use redis_commands::string::{
    append_command, decr_command, decrby_command, delifeq_command, get_command, get_substring,
    getdel_command, getex_command, getrange_command, getset_command, incr_command, incrby_command,
    incrbyfloat_command, incrbyfloat_operands, psetex_command, set_command, setex_command,
    setnx_command, setrange_command, strlen_command, FloatSum,
};
use redis_commands::string_multi::{mget_command, mset_command, msetex_command, msetnx_command};

fn ctx() -> CommandContext {
    CommandContext::new(Client::new(1))
}

fn args(a: &[&str]) -> Vec<Vec<u8>> {
    a.iter().map(|s| s.as_bytes().to_vec()).collect()
}

fn run<F>(c: &mut CommandContext, a: &[&str], f: F) -> String
where
    F: FnOnce(&mut CommandContext) -> Result<(), RedisError>,
{
    c.client.argv = args(a);
    c.replies.clear();
    match f(c) {
        Ok(()) => String::from_utf8(encode_replies(&c.replies, false)).unwrap(),
        Err(e) => format!("-{}\r\n", String::from_utf8(e.to_resp_payload()).unwrap()),
    }
}

fn string_at(c: &CommandContext, key: &str) -> Option<String> {
    match c.db.string_at(key.as_bytes()) {
        Ok(Some(s)) => Some(String::from_utf8(s.clone()).unwrap()),
        _ => None,
    }
}

#[test]
fn mget_returns_values_nulls_and_int_encoded_strings() {
    let mut c = ctx();
    c.db.set_key(b"a".to_vec(), RedisObject::Str(b"one".to_vec()), false);
    c.db.set_key(b"int".to_vec(), RedisObject::Str(b"42".to_vec()), false);
    c.db.set_key(b"list".to_vec(), RedisObject::List(Vec::new()), false);
    assert_eq!(
        run(&mut c, &["MGET", "a", "missing", "list", "int"], mget_command),
        "*4\r\n$3\r\none\r\n$-1\r\n$-1\r\n$2\r\n42\r\n"
    );
}

#[test]
fn mset_and_msetnx_store_pairs_without_notifications() {
    let mut c = ctx();
    assert_eq!(run(&mut c, &["MSET", "a", "one", "b", "two"], mset_command), "+OK\r\n");
    assert_eq!(string_at(&c, "a").unwrap(), "one");
    assert_eq!(string_at(&c, "b").unwrap(), "two");
    assert_eq!(
        run(&mut c, &["MSETNX", "a", "replace", "c", "three"], msetnx_command),
        ":0\r\n"
    );
    assert!(string_at(&c, "c").is_none());
    assert_eq!(
        run(&mut c, &["MSETNX", "c", "three", "d", "four"], msetnx_command),
        ":1\r\n"
    );
    assert_eq!(string_at(&c, "d").unwrap(), "four");
    assert_eq!(c.events.len(), 0);
}

#[test]
fn incr_int_encoding_fast_path_preserves_watch_dirtying() {
    let mut c = ctx();
    c.db.set_key(b"counter".to_vec(), RedisObject::Str(b"41".to_vec()), false);
    c.db.watch(b"counter", 9001);
    assert_eq!(run(&mut c, &["INCR", "counter"], incr_command), ":42\r\n");
    assert_eq!(string_at(&c, "counter").unwrap(), "42");
    assert!(c.db.take_dirty(9001));
    assert!(!c.db.take_dirty(9001));
}

#[test]
fn set_options_and_errors() {
    let mut c = ctx();
    assert_eq!(run(&mut c, &["SET", "k", "v"], set_command), "+OK\r\n");
    assert_eq!(run(&mut c, &["SET", "k", "w", "NX"], set_command), "$-1\r\n");
    assert_eq!(run(&mut c, &["SET", "x", "w", "XX"], set_command), "$-1\r\n");
    assert_eq!(run(&mut c, &["SET", "k", "w", "GET"], set_command), "$1\r\nv\r\n");
    assert_eq!(run(&mut c, &["SET", "k", "w", "NX", "XX"], set_command), "-ERR syntax error\r\n");
    assert_eq!(
        run(&mut c, &["SET", "k"], set_command),
        "-ERR wrong number of arguments for 'set' command\r\n"
    );
    assert_eq!(
        run(&mut c, &["SET", "k", "v", "EX", "0"], set_command),
        "-ERR invalid expire time in 'set' command\r\n"
    );
    assert_eq!(
        run(&mut c, &["SET", "k", "v", "EX", "x"], set_command),
        "-ERR value is not an integer or out of range\r\n"
    );
    c.now_ms = 1000;
    assert_eq!(run(&mut c, &["SET", "k", "v", "PX", "500"], set_command), "+OK\r\n");
    assert_eq!(c.db.expire_of(b"k"), Some(1500));
    assert_eq!(run(&mut c, &["SET", "k", "v2", "KEEPTTL"], set_command), "+OK\r\n");
    assert_eq!(c.db.expire_of(b"k"), Some(1500));
    assert_eq!(run(&mut c, &["SET", "k", "v3"], set_command), "+OK\r\n");
    assert_eq!(c.db.expire_of(b"k"), None);
}

#[test]
fn get_after_set_reads_back() {
    let mut c = ctx();
    assert_eq!(run(&mut c, &["GET", "k"], get_command), "$-1\r\n");
    run(&mut c, &["SET", "k", "hello"], set_command);
    assert_eq!(run(&mut c, &["GET", "k"], get_command), "$5\r\nhello\r\n");
    assert_eq!(run(&mut c, &["STRLEN", "k"], strlen_command), ":5\r\n");
    assert_eq!(run(&mut c, &["APPEND", "k", " you"], append_command), ":9\r\n");
    assert_eq!(run(&mut c, &["GETRANGE", "k", "-3", "-1"], getrange_command), "$3\r\nyou\r\n");
    assert_eq!(run(&mut c, &["GETRANGE", "k", "0", "4"], getrange_command), "$5\r\nhello\r\n");
    assert_eq!(run(&mut c, &["GETSET", "k", "new"], getset_command), "$9\r\nhello you\r\n");
    assert_eq!(run(&mut c, &["GETDEL", "k"], getdel_command), "$3\r\nnew\r\n");
    assert!(!c.db.has_key(b"k"));
    c.db.set_key(b"l".to_vec(), RedisObject::List(Vec::new()), false);
    assert_eq!(
        run(&mut c, &["GET", "l"], get_command),
        "-WRONGTYPE Operation against a key holding the wrong kind of value\r\n"
    );
}

#[test]
fn substrings_clamp_their_ends() {
    assert_eq!(get_substring(b"hello", 1, 3), b"ell".to_vec());
    assert_eq!(get_substring(b"hello", -100, 100), b"hello".to_vec());
    assert_eq!(get_substring(b"hello", 3, 1), b"".to_vec());
    assert_eq!(get_substring(b"", 0, -1), b"".to_vec());
}

#[test]
fn set_variants() {
    let mut c = ctx();
    c.now_ms = 5000;
    assert_eq!(run(&mut c, &["SETNX", "k", "v"], setnx_command), ":1\r\n");
    assert_eq!(run(&mut c, &["SETNX", "k", "v"], setnx_command), ":0\r\n");
    assert_eq!(run(&mut c, &["SETEX", "k", "10", "v"], setex_command), "+OK\r\n");
    assert_eq!(c.db.expire_of(b"k"), Some(15000));
    assert_eq!(run(&mut c, &["PSETEX", "k", "10", "v"], psetex_command), "+OK\r\n");
    assert_eq!(c.db.expire_of(b"k"), Some(5010));
    assert_eq!(run(&mut c, &["GETEX", "k", "PERSIST"], getex_command), "$1\r\nv\r\n");
    assert_eq!(c.db.expire_of(b"k"), None);
    assert_eq!(run(&mut c, &["SETRANGE", "k", "3", "xy"], setrange_command), ":5\r\n");
    assert_eq!(string_at(&c, "k").unwrap(), "v\0\0xy");
    assert_eq!(run(&mut c, &["DELIFEQ", "k", "no"], delifeq_command), ":0\r\n");
    run(&mut c, &["SET", "k", "yes"], set_command);
    assert_eq!(run(&mut c, &["DELIFEQ", "k", "yes"], delifeq_command), ":1\r\n");
    assert!(!c.db.has_key(b"k"));
}

#[test]
fn counters() {
    let mut c = ctx();
    assert_eq!(run(&mut c, &["INCR", "n"], incr_command), ":1\r\n");
    assert_eq!(run(&mut c, &["INCRBY", "n", "9"], incrby_command), ":10\r\n");
    assert_eq!(run(&mut c, &["DECRBY", "n", "4"], decrby_command), ":6\r\n");
    assert_eq!(run(&mut c, &["DECR", "n"], decr_command), ":5\r\n");
    run(&mut c, &["SET", "n", "9223372036854775807"], set_command);
    assert_eq!(
        run(&mut c, &["INCR", "n"], incr_command),
        "-ERR increment or decrement would overflow\r\n"
    );
    run(&mut c, &["SET", "n", "abc"], set_command);
    assert_eq!(
        run(&mut c, &["INCR", "n"], incr_command),
        "-ERR value is not an integer or out of range\r\n"
    );
}

#[test]
fn float_increment_stores_the_sum_it_is_given() {
    let mut c = ctx();
    run(&mut c, &["SET", "f", "10.5"], set_command);
    c.client.argv = args(&["INCRBYFLOAT", "f", "0.1"]);
    let (inc, stored) = incrbyfloat_operands(&c).unwrap();
    assert_eq!(inc, b"0.1".to_vec());
    assert_eq!(stored, Some(b"10.5".to_vec()));
    assert_eq!(
        run(&mut c, &["INCRBYFLOAT", "f", "0.1"], |c| incrbyfloat_command(
            c,
            FloatSum::Sum(b"10.6".to_vec())
        )),
        "$4\r\n10.6\r\n"
    );
    assert_eq!(string_at(&c, "f").unwrap(), "10.6");
    assert_eq!(
        run(&mut c, &["INCRBYFLOAT", "f", "x"], |c| incrbyfloat_command(c, FloatSum::BadIncrement)),
        "-ERR value is not a valid float\r\n"
    );
}

#[test]
fn mset_needs_pairs_and_msetex_sets_times() {
    let mut c = ctx();
    assert_eq!(
        run(&mut c, &["MSET"], mset_command),
        "-ERR wrong number of arguments for 'mset' command\r\n"
    );
    assert_eq!(
        run(&mut c, &["MSET", "a", "1", "b"], mset_command),
        "-ERR syntax error\r\n"
    );
    c.now_ms = 100;
    assert_eq!(
        run(&mut c, &["MSETEX", "2", "a", "1", "b", "2", "PX", "50"], msetex_command),
        ":1\r\n"
    );
    assert_eq!(c.db.expire_of(b"a"), Some(150));
    assert_eq!(c.db.expire_of(b"b"), Some(150));
}

#[test]
fn longest_common_subsequence() {
    let mut c = ctx();
    run(&mut c, &["MSET", "a", "ohmytext", "b", "mynewtext"], mset_command);
    assert_eq!(run(&mut c, &["LCS", "a", "b"], lcs_command), "$6\r\nmytext\r\n");
    assert_eq!(run(&mut c, &["LCS", "a", "b", "LEN"], lcs_command), ":6\r\n");
    assert_eq!(
        run(&mut c, &["LCS", "a", "b", "IDX", "MINMATCHLEN", "4"], lcs_command),
        "*4\r\n$7\r\nmatches\r\n*1\r\n*2\r\n*2\r\n:4\r\n:7\r\n*2\r\n:5\r\n:8\r\n$3\r\nlen\r\n:6\r\n"
    );
}
