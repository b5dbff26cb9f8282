use redis_commands::context::{Client, CommandContext};
use redis_commands::error::RedisError;
use redis_commands::glob::glob_match;
use redis_commands::keyspace::{InlineSetEncoding, RedisObject};
use redis_commands::pick::{draw, pick, xorshift64};
use redis_commands::reply::encode_replies;
use redis_commands::set::{
    sadd_command, scard_command, sdiff_command, sdiffstore_command, sinter_command,
    sintercard_command, sinterstore_command, sismember_command, smembers_command,
    smismember_command, smove_command, spop_command, srandmember_command, srem_command,
    sscan_command, sunion_command, sunionstore_command,
};
use redis_commands::set_algebra::{
    diff_sets, intersect_sets, is_canonical_i64_ascii, union_sets, update_sticky_encoding,
    SetThresholds,
};

fn ctx() -> CommandContext {
    CommandContext::new(Client::new(1))
}

fn args(a: &[&str]) -> Vec<Vec<u8>> {
    a.iter().map(|s| s.as_bytes().to_vec()).collect()
}

fn run<F>(c: &mut CommandContext, a: &[&str], f: F) -> String
where
    F: FnOnce(&mut CommandContext) -> Result<(), RedisError>,
{
    c.client.argv = args(a);
    c.replies.clear();
    match f(c) {
        Ok(()) => String::from_utf8(encode_replies(&c.replies, false)).unwrap(),
        Err(e) => format!("-{}\r\n", String::from_utf8(e.to_resp_payload()).unwrap()),
    }
}

fn limits() -> SetThresholds {
    SetThresholds { max_intset_entries: 512, max_listpack_entries: 128, max_listpack_value: 64 }
}

fn add(c: &mut CommandContext, a: &[&str]) -> String {
    run(c, a, |c| sadd_command(c, &limits()))
}

#[test]
fn adds_and_removes_members() {
    let mut c = ctx();
    assert_eq!(add(&mut c, &["SADD", "s", "a", "b", "a"]), ":2\r\n");
    assert_eq!(add(&mut c, &["SADD", "s", "b"]), ":0\r\n");
    assert_eq!(run(&mut c, &["SMEMBERS", "s"], smembers_command), "*2\r\n$1\r\na\r\n$1\r\nb\r\n");
    assert_eq!(run(&mut c, &["SCARD", "s"], scard_command), ":2\r\n");
    assert_eq!(run(&mut c, &["SISMEMBER", "s", "a"], sismember_command), ":1\r\n");
    assert_eq!(
        run(&mut c, &["SMISMEMBER", "s", "a", "z"], smismember_command),
        "*2\r\n:1\r\n:0\r\n"
    );
    assert_eq!(run(&mut c, &["SREM", "s", "a", "z"], srem_command), ":1\r\n");
    assert_eq!(run(&mut c, &["SREM", "s", "b"], srem_command), ":1\r\n");
    assert!(!c.db.has_key(b"s"));
    assert_eq!(run(&mut c, &["SREM", "s", "b"], srem_command), ":0\r\n");
}

#[test]
fn set_errors() {
    let mut c = ctx();
    c.db.set_key(b"k".to_vec(), RedisObject::Str(b"v".to_vec()), false);
    let wrong = "-WRONGTYPE Operation against a key holding the wrong kind of value\r\n";
    assert_eq!(add(&mut c, &["SADD", "k", "a"]), wrong);
    assert_eq!(run(&mut c, &["SINTER", "k"], sinter_command), wrong);
    assert_eq!(
        add(&mut c, &["SADD", "k"]),
        "-ERR wrong number of arguments for 'sadd' command\r\n"
    );
    assert_eq!(
        run(&mut c, &["SPOP", "s", "-1"], |c| spop_command(c, 1)),
        "-ERR value is out of range, must be positive\r\n"
    );
    assert_eq!(
        run(&mut c, &["SINTERCARD", "0", "s"], sintercard_command),
        "-ERR numkeys should be greater than 0\r\n"
    );
    assert_eq!(
        run(&mut c, &["SINTERCARD", "2", "s"], sintercard_command),
        "-ERR Number of keys can't be greater than number of args\r\n"
    );
    assert_eq!(
        run(&mut c, &["SINTERCARD", "1", "s", "LIMIT", "-1"], sintercard_command),
        "-ERR LIMIT can't be negative\r\n"
    );
    assert_eq!(
        run(&mut c, &["SSCAN", "s", "x"], sscan_command),
        "-ERR invalid cursor\r\n"
    );
}

#[test]
fn moves_members() {
    let mut c = ctx();
    add(&mut c, &["SADD", "a", "x", "y"]);
    add(&mut c, &["SADD", "b", "z"]);
    assert_eq!(run(&mut c, &["SMOVE", "a", "b", "x"], smove_command), ":1\r\n");
    assert_eq!(run(&mut c, &["SMOVE", "a", "b", "x"], smove_command), ":0\r\n");
    assert_eq!(run(&mut c, &["SMEMBERS", "b"], smembers_command), "*2\r\n$1\r\nz\r\n$1\r\nx\r\n");
}

#[test]
fn algebra_of_sets() {
    let mut c = ctx();
    add(&mut c, &["SADD", "a", "1", "2", "3"]);
    add(&mut c, &["SADD", "b", "2", "3", "4"]);
    assert_eq!(run(&mut c, &["SINTER", "a", "b"], sinter_command), "*2\r\n$1\r\n2\r\n$1\r\n3\r\n");
    assert_eq!(run(&mut c, &["SDIFF", "a", "b"], sdiff_command), "*1\r\n$1\r\n1\r\n");
    assert_eq!(
        run(&mut c, &["SUNION", "a", "b"], sunion_command),
        "*4\r\n$1\r\n1\r\n$1\r\n2\r\n$1\r\n3\r\n$1\r\n4\r\n"
    );
    assert_eq!(run(&mut c, &["SINTERSTORE", "d", "a", "b"], sinterstore_command), ":2\r\n");
    assert_eq!(run(&mut c, &["SUNIONSTORE", "d", "a", "b"], sunionstore_command), ":4\r\n");
    assert_eq!(run(&mut c, &["SCARD", "d"], scard_command), ":4\r\n");
    assert_eq!(run(&mut c, &["SDIFFSTORE", "d", "a", "a"], sdiffstore_command), ":0\r\n");
    assert!(!c.db.has_key(b"d"));
    assert_eq!(
        run(&mut c, &["SINTERCARD", "2", "a", "b", "LIMIT", "1"], sintercard_command),
        ":1\r\n"
    );
    let sets = vec![args(&["a", "b"]), args(&["b", "c"])];
    assert_eq!(intersect_sets(&sets), args(&["b"]));
    assert_eq!(union_sets(&sets), args(&["a", "b", "c"]));
    assert_eq!(diff_sets(&sets), args(&["a"]));
}

#[test]
fn random_members_are_members() {
    let mut c = ctx();
    add(&mut c, &["SADD", "s", "a", "b", "c"]);
    let one = run(&mut c, &["SRANDMEMBER", "s"], |c| srandmember_command(c, 99));
    assert!(["$1\r\na\r\n", "$1\r\nb\r\n", "$1\r\nc\r\n"].contains(&one.as_str()));
    let many = run(&mut c, &["SRANDMEMBER", "s", "-5"], |c| srandmember_command(c, 7));
    assert!(many.starts_with("*5\r\n"));
    let taken = run(&mut c, &["SPOP", "s", "2"], |c| spop_command(c, 5));
    assert!(taken.starts_with("*2\r\n"));
    let left = run(&mut c, &["SMEMBERS", "s"], smembers_command);
    let left = left.trim_end().rsplit("\r\n").next().unwrap();
    assert!(!taken.contains(&format!("\r\n{left}\r\n")), "{taken} {left}");
    assert_eq!(run(&mut c, &["SCARD", "s"], scard_command), ":1\r\n");
    run(&mut c, &["SPOP", "s"], |c| spop_command(c, 5));
    assert!(!c.db.has_key(b"s"));
    let ms = args(&["a", "b", "c", "d"]);
    let mut got = draw(&ms, 4, 3);
    got.sort();
    assert_eq!(got, ms);
    for m in pick(&ms, 9, 3) {
        assert!(ms.contains(&m));
    }
    let mut a = 12;
    let mut b = 12;
    assert_eq!(xorshift64(&mut a), xorshift64(&mut b));
    assert_eq!(a, b);
}

#[test]
fn scans_members_by_pattern() {
    let mut c = ctx();
    add(&mut c, &["SADD", "s", "apple", "avocado", "banana"]);
    assert_eq!(
        run(&mut c, &["SSCAN", "s", "0", "MATCH", "a*"], sscan_command),
        "*2\r\n$1\r\n0\r\n*2\r\n$5\r\napple\r\n$7\r\navocado\r\n"
    );
}

#[test]
fn patterns() {
    assert!(glob_match(b"h?llo", b"hello"));
    assert!(glob_match(b"h*llo", b"heeeello"));
    assert!(glob_match(b"h[ae]llo", b"hallo"));
    assert!(!glob_match(b"h[ae]llo", b"hillo"));
    assert!(glob_match(b"h[^e]llo", b"hallo"));
    assert!(glob_match(b"h[a-c]llo", b"hbllo"));
    assert!(glob_match(b"\\*", b"*"));
    assert!(!glob_match(b"\\*", b"x"));
    assert!(glob_match(b"", b""));
    assert!(!glob_match(b"", b"x"));
}

#[test]
fn encodings_of_sets_do_not_demote() {
    assert!(is_canonical_i64_ascii(b"-12"));
    assert!(!is_canonical_i64_ascii(b"012"));
    assert!(!is_canonical_i64_ascii(b"x"));
    let t = SetThresholds { max_intset_entries: 2, max_listpack_entries: 3, max_listpack_value: 4 };
    let few = args(&["1", "2"]);
    let words = args(&["ab"]);
    let many = args(&["a", "b", "c", "d"]);
    assert!(update_sticky_encoding(InlineSetEncoding::Auto, &few, &t) == InlineSetEncoding::Auto);
    assert!(
        update_sticky_encoding(InlineSetEncoding::Auto, &words, &t)
            == InlineSetEncoding::ForcedListpack
    );
    assert!(
        update_sticky_encoding(InlineSetEncoding::Auto, &many, &t)
            == InlineSetEncoding::ForcedHashtable
    );
    assert!(
        update_sticky_encoding(InlineSetEncoding::ForcedHashtable, &few, &t)
            == InlineSetEncoding::ForcedHashtable
    );
}
