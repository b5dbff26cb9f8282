use redis_commands::context::{Client, CommandContext};
use redis_commands::error::RedisError;
use redis_commands::json::{
    bracket_texts, json_arrappend_command, json_arrinsert_command, json_arrlen_command,
    json_arrpop_command, json_clear_command, json_del_command, json_get_command,
    json_mget_command, json_numbers, json_numincrby_command, json_nummultby_command,
    json_objkeys_command, json_objlen_command, json_set_command, json_strappend_command,
    json_strlen_command, json_type_command,
};
use redis_commands::json_path::{lex_path, PathToken};
use redis_commands::json_text::{json_to_text, parse_json};
use redis_commands::keyspace::RedisObject;
use redis_commands::plain_text::trimmed;
use redis_commands::reply::encode_replies;

fn ctx() -> CommandContext {
    CommandContext::new(Client::new(1))
}

fn args(a: &[&str]) -> Vec<Vec<u8>> {
    a.iter().map(|s| s.as_bytes().to_vec()).collect()
}

fn run<F>(c: &mut CommandContext, a: &[&str], f: F) -> String
where
    F: FnOnce(&mut CommandContext) -> Result<(), RedisError>,
{
    c.client.argv = args(a);
    c.replies.clear();
    match f(c) {
        Ok(()) => String::from_utf8(encode_replies(&c.replies, false)).unwrap(),
        Err(e) => format!("-{}\r\n", String::from_utf8(e.to_resp_payload()).unwrap()),
    }
}

fn set(c: &mut CommandContext, text: &str) {
    assert_eq!(run(c, &["JSON.SET", "k", "$", text], json_set_command), "+OK\r\n");
}

fn get(c: &mut CommandContext, path: &str) -> String {
    run(c, &["JSON.GET", "k", path], json_get_command)
}

fn bulk(s: &str) -> String {
    format!("${}\r\n{}\r\n", s.len(), s)
}

#[test]
fn parsed_text_is_written_back() {
    for t in ["null", "true", "-5", "18446744073709551615", "1.5", "\"a\\nb\"", "[1,[2]]", "{\"a\":{}}"] {
        let j = parse_json(t.as_bytes()).unwrap();
        assert_eq!(String::from_utf8(json_to_text(&j)).unwrap(), t);
    }
    let j = parse_json(b" { \"b\" : 1 , \"a\" : [ 1 , 2 ] } ").unwrap();
    assert_eq!(json_to_text(&j), b"{\"a\":[1,2],\"b\":1}".to_vec());
    assert!(parse_json(b"{").is_none());
    assert!(parse_json(&[0xff]).is_none());
}

#[test]
fn stores_and_reads_documents() {
    let mut c = ctx();
    set(&mut c, "{\"a\":{\"b\":[10,20,30]},\"s\":\"x\"}");
    assert_eq!(get(&mut c, "$.a.b[1]"), bulk("[20]"));
    assert_eq!(get(&mut c, "$.a.b[-1]"), bulk("[30]"));
    assert_eq!(get(&mut c, "$.a.b[*]"), bulk("[10,20,30]"));
    assert_eq!(get(&mut c, "$..b"), bulk("[[10,20,30]]"));
    assert_eq!(
        run(&mut c, &["JSON.SET", "k", "$.a.c", "1", "XX"], json_set_command),
        "$-1\r\n"
    );
    assert_eq!(run(&mut c, &["JSON.SET", "k", "$.a.c", "1"], json_set_command), "+OK\r\n");
    assert_eq!(get(&mut c, "$.a.c"), bulk("[1]"));
    assert_eq!(
        run(&mut c, &["JSON.SET", "k", "$.a.c", "2", "NX"], json_set_command),
        "$-1\r\n"
    );
    assert_eq!(run(&mut c, &["JSON.GET", "none", "$"], json_get_command), "$-1\r\n");
}

#[test]
fn json_errors() {
    let mut c = ctx();
    assert_eq!(
        run(&mut c, &["JSON.SET", "k", "$", "{"], json_set_command),
        "-ERR invalid JSON\r\n"
    );
    assert_eq!(
        run(&mut c, &["JSON.SET", "k", "$.a", "1"], json_set_command),
        "-ERR key does not exist for non-root path\r\n"
    );
    assert_eq!(
        run(&mut c, &["JSON.SET", "k", "$", "1", "ZZ"], json_set_command),
        "-ERR syntax error: expected NX or XX\r\n"
    );
    set(&mut c, "{\"a\":1}");
    assert_eq!(get(&mut c, "a"), "-ERR Path must begin with '$'\r\n");
    assert_eq!(get(&mut c, "$.a["), "-ERR invalid array index\r\n");
    assert_eq!(
        run(&mut c, &["JSON.SET", "k", "$.a.b", "1"], json_set_command),
        "-ERR path traversal into non-object\r\n"
    );
    c.db.set_key(b"s".to_vec(), RedisObject::Str(b"v".to_vec()), false);
    assert!(run(&mut c, &["JSON.GET", "s", "$"], json_get_command).starts_with("-WRONGTYPE"));
}

#[test]
fn deletes_and_clears() {
    let mut c = ctx();
    set(&mut c, "{\"a\":[1,2],\"n\":5,\"s\":\"x\"}");
    assert_eq!(run(&mut c, &["JSON.CLEAR", "k", "$.a"], json_clear_command), ":1\r\n");
    assert_eq!(get(&mut c, "$"), bulk("{\"a\":[],\"n\":5,\"s\":\"x\"}"));
    assert_eq!(run(&mut c, &["JSON.DEL", "k", "$.n"], json_del_command), ":1\r\n");
    assert_eq!(run(&mut c, &["JSON.DEL", "k", "$.n"], json_del_command), ":0\r\n");
    assert_eq!(get(&mut c, "$"), bulk("{\"a\":[],\"s\":\"x\"}"));
    assert_eq!(run(&mut c, &["JSON.DEL", "k"], json_del_command), ":1\r\n");
    assert!(!c.db.has_key(b"k"));
}

#[test]
fn types_and_lengths() {
    let mut c = ctx();
    set(&mut c, "{\"a\":[1,2],\"n\":5,\"s\":\"xyz\",\"f\":1.5}");
    assert!(run(&mut c, &["JSON.TYPE", "k", "$.a"], json_type_command).contains("array"));
    assert!(run(&mut c, &["JSON.TYPE", "k", "$.n"], json_type_command).contains("integer"));
    assert!(run(&mut c, &["JSON.TYPE", "k", "$.f"], json_type_command).contains("number"));
    assert!(run(&mut c, &["JSON.STRLEN", "k", "$.s"], json_strlen_command).contains(":3\r\n"));
    assert!(run(&mut c, &["JSON.ARRLEN", "k", "$.a"], json_arrlen_command).contains(":2\r\n"));
    assert!(run(&mut c, &["JSON.OBJLEN", "k", "$"], json_objlen_command).contains(":4\r\n"));
    let keys = run(&mut c, &["JSON.OBJKEYS", "k", "$"], json_objkeys_command);
    for k in ["a", "n", "s", "f"] {
        assert!(keys.contains(&bulk(k)), "{keys}");
    }
    assert_eq!(
        run(&mut c, &["JSON.MGET", "k", "none", "$.n"], json_mget_command),
        format!("*2\r\n{}$-1\r\n", bulk("[5]"))
    );
}

#[test]
fn edits_in_place() {
    let mut c = ctx();
    set(&mut c, "{\"a\":[1],\"s\":\"x\"}");
    assert!(run(&mut c, &["JSON.STRAPPEND", "k", "$.s", "\"yz\""], json_strappend_command)
        .contains(":3\r\n"));
    assert!(run(&mut c, &["JSON.ARRAPPEND", "k", "$.a", "2", "3"], json_arrappend_command)
        .contains(":3\r\n"));
    assert!(run(&mut c, &["JSON.ARRINSERT", "k", "$.a", "0", "0"], json_arrinsert_command)
        .contains(":4\r\n"));
    assert_eq!(get(&mut c, "$"), bulk("{\"a\":[0,1,2,3],\"s\":\"xyz\"}"));
    assert!(run(&mut c, &["JSON.ARRPOP", "k", "$.a"], json_arrpop_command).contains(&bulk("3")));
    assert_eq!(get(&mut c, "$.a"), bulk("[[0,1,2]]"));
    assert_eq!(
        run(&mut c, &["JSON.STRAPPEND", "k", "$.s", "5"], json_strappend_command),
        "-ERR appended value is not a JSON string\r\n"
    );
    assert_eq!(
        run(&mut c, &["JSON.ARRAPPEND", "k", "$.a", "{"], json_arrappend_command),
        "-ERR invalid JSON value\r\n"
    );
    assert_eq!(
        run(&mut c, &["JSON.ARRINSERT", "k", "$.a", "x", "1"], json_arrinsert_command),
        "-ERR index is not an integer\r\n"
    );
}

#[test]
fn numbers_change_to_what_they_are_given() {
    let mut c = ctx();
    set(&mut c, "{\"n\":5,\"m\":[1,\"x\"]}");
    c.client.argv = args(&["JSON.NUMINCRBY", "k", "$.n", "2"]);
    let found = json_numbers(&c);
    assert_eq!(found.len(), 1);
    assert_eq!(found[0].as_i64(), Some(5));
    let out = vec![Some(serde_json::Number::from(7))];
    let reply = run(&mut c, &["JSON.NUMINCRBY", "k", "$.n", "2"], |c| {
        json_numincrby_command(c, true, &out)
    });
    assert_eq!(reply, bulk("[7]"));
    assert_eq!(get(&mut c, "$.n"), bulk("[7]"));
    let out = vec![Some(serde_json::Number::from(14))];
    run(&mut c, &["JSON.NUMMULTBY", "k", "$.n", "2"], |c| json_nummultby_command(c, true, &out));
    assert_eq!(get(&mut c, "$.n"), bulk("[14]"));
    assert_eq!(
        run(&mut c, &["JSON.NUMINCRBY", "k", "$.n", "x"], |c| json_numincrby_command(c, false, &[])),
        "-ERR value is not a number\r\n"
    );
}

#[test]
fn paths_and_small_texts() {
    match lex_path(b"$.a['b c'][0][*]..d") {
        Ok(steps) => {
            assert_eq!(steps.len(), 5);
            assert!(matches!(&steps[1], PathToken::Key(k) if k == b"b c"));
            assert!(matches!(&steps[2], PathToken::Index(0)));
            assert!(matches!(&steps[3], PathToken::Wildcard));
            assert!(matches!(&steps[4], PathToken::RecursiveKey(k) if k == b"d"));
        }
        Err(_) => panic!("a path"),
    }
    assert!(lex_path(&[b'$', b'.', 0xff]).is_err());
    assert_eq!(bracket_texts(&args(&["1", "2"])), b"[1,2]".to_vec());
    assert_eq!(trimmed(" \t a b \u{3000}".as_bytes()), b"a b".to_vec());
}

fn clear(c: &mut CommandContext, text: &str, path: &str) -> (String, String) {
    set(c, text);
    let n = run(c, &["JSON.CLEAR", "k", path], json_clear_command);
    let left = run(c, &["JSON.GET", "k"], json_get_command);
    (n, left)
}

fn del(c: &mut CommandContext, text: &str, path: &str) -> (String, String) {
    set(c, text);
    let n = run(c, &["JSON.DEL", "k", path], json_del_command);
    let left = run(c, &["JSON.GET", "k"], json_get_command);
    (n, left)
}

fn add_one(c: &mut CommandContext, path: &str) -> String {
    let a = ["JSON.NUMINCRBY", "k", path, "1"];
    c.client.argv = args(&a);
    let outs: Vec<Option<serde_json::Number>> = json_numbers(c)
        .iter()
        .map(|n| n.as_i64().map(|i| serde_json::Number::from(i + 1)))
        .collect();
    run(c, &a, |c| json_numincrby_command(c, true, &outs))
}

#[test]
fn clearing_reaches_every_match() {
    let mut c = ctx();
    let reply = |n: i64, t: &str| (format!(":{n}\r\n"), bulk(t));
    assert_eq!(
        clear(&mut c, "{\"a\":1,\"b\":{\"a\":2}}", "$..a"),
        reply(2, "{\"a\":0,\"b\":{\"a\":0}}")
    );
    assert_eq!(
        clear(&mut c, "{\"a\":1,\"b\":\"x\",\"c\":null}", "$[*]"),
        reply(2, "{\"a\":0,\"b\":\"\",\"c\":null}")
    );
    assert_eq!(clear(&mut c, "{\"a\":{\"a\":1}}", "$..a"), reply(2, "{\"a\":{}}"));
    assert_eq!(
        clear(&mut c, "{\"x\":[{\"a\":[1]},{\"b\":[2]}]}", "$.x[*].a"),
        reply(1, "{\"x\":[{\"a\":[]},{\"b\":[2]}]}")
    );
}

#[test]
fn edits_reach_members_and_depths() {
    let mut c = ctx();
    set(&mut c, "{\"A\":{\"s\":\"x\"},\"n\":5,\"s\":\"y\"}");
    assert_eq!(
        run(&mut c, &["JSON.STRAPPEND", "k", "$..s", "\"zz\""], json_strappend_command),
        "*2\r\n:3\r\n:3\r\n"
    );
    assert_eq!(
        run(&mut c, &["JSON.STRAPPEND", "k", "$[*]", "\"!\""], json_strappend_command),
        "*3\r\n$-1\r\n$-1\r\n:4\r\n"
    );
    assert_eq!(
        run(&mut c, &["JSON.GET", "k"], json_get_command),
        bulk("{\"A\":{\"s\":\"xzz\"},\"n\":5,\"s\":\"yzz!\"}")
    );
    set(&mut c, "{\"a\":[{\"a\":[1]}]}");
    assert_eq!(
        run(&mut c, &["JSON.ARRAPPEND", "k", "$..a", "7"], json_arrappend_command),
        "*2\r\n:2\r\n:2\r\n"
    );
    assert_eq!(
        run(&mut c, &["JSON.ARRPOP", "k", "$[*]", "0"], json_arrpop_command),
        format!("*1\r\n{}", bulk("{\"a\":[1,7]}"))
    );
    set(&mut c, "{\"a\":{\"a\":{\"b\":\"x\"}}}");
    assert_eq!(
        run(&mut c, &["JSON.STRAPPEND", "k", "$..a..b", "\"y\""], json_strappend_command),
        "*1\r\n:2\r\n"
    );
}

#[test]
fn numbers_change_at_every_match() {
    let mut c = ctx();
    set(&mut c, "{\"A\":{\"n\":5},\"n\":1,\"s\":\"x\"}");
    assert_eq!(add_one(&mut c, "$..n"), bulk("[2,6]"));
    assert_eq!(add_one(&mut c, "$[*]"), bulk("[3]"));
    assert_eq!(add_one(&mut c, "$.s[*]"), bulk("[]"));
    assert_eq!(add_one(&mut c, "$.s"), "-ERR value is not a number\r\n");
    assert_eq!(add_one(&mut c, "$.none"), "-ERR path does not exist\r\n");
    assert_eq!(add_one(&mut c, "$.s.t"), "-ERR not an object at path\r\n");
    assert_eq!(add_one(&mut c, "$[0]"), "-ERR not an array at path\r\n");
    set(&mut c, "{\"a\":{\"a\":{\"b\":1},\"b\":10}}");
    assert_eq!(add_one(&mut c, "$..a.b"), bulk("[11,2]"));
    assert_eq!(add_one(&mut c, "$..a..b"), bulk("[12,3]"));
    set(&mut c, "[1]");
    assert_eq!(add_one(&mut c, "$[4]"), "-ERR index out of range\r\n");
    assert_eq!(
        run(&mut c, &["JSON.NUMINCRBY", "k", "$[0]", "1"], |c| json_numincrby_command(
            c,
            true,
            &[None]
        )),
        "-ERR result is NaN or infinite\r\n"
    );
}

#[test]
fn deleting_leaves_no_match() {
    let mut c = ctx();
    let reply = |n: i64, t: &str| (format!(":{n}\r\n"), bulk(t));
    assert_eq!(
        del(&mut c, "{\"a\":{\"a\":{\"b\":2},\"b\":1}}", "$..a.b"),
        reply(2, "{\"a\":{\"a\":{}}}")
    );
    assert_eq!(get(&mut c, "$..a.b"), bulk("[]"));
    assert_eq!(del(&mut c, "{\"a\":{\"a\":1},\"b\":[{\"a\":2}]}", "$..a"), reply(2, "{\"b\":[{}]}"));
    assert_eq!(del(&mut c, "{\"a\":{\"a\":{\"b\":[1,2]}}}", "$..a..b[0]"), reply(
        1,
        "{\"a\":{\"a\":{\"b\":[2]}}}"
    ));
    assert_eq!(del(&mut c, "[[1,2],[3]]", "$[*][0]"), reply(2, "[[2],[]]"));
    assert_eq!(del(&mut c, "{\"a\":1}", "$.b"), reply(0, "{\"a\":1}"));
    assert_eq!(del(&mut c, "[1,2,3]", "$[*]"), reply(3, "[]"));
}

#[test]
fn setting_that_fails_leaves_the_document() {
    let mut c = ctx();
    let doc = r#"{"a":{"b":1},"l":[1,2]}"#;
    run(&mut c, &["JSON.SET", "k", "$", doc], json_set_command);
    let refused: [(&[&str], &str); 8] = [
        (&["JSON.SET", "k", "$.a.b", "9", "NX"], "$-1\r\n"),
        (&["JSON.SET", "k", "$.a.c", "9", "XX"], "$-1\r\n"),
        (&["JSON.SET", "k", "$.x.y", "9"], "-ERR path does not exist\r\n"),
        (&["JSON.SET", "k", "$.l.y", "9"], "-ERR path traversal into non-object\r\n"),
        (&["JSON.SET", "k", "$.a[0]", "9"], "-ERR path traversal into non-array\r\n"),
        (&["JSON.SET", "k", "$.l[2]", "9"], "-ERR array index out of bounds\r\n"),
        (&["JSON.SET", "k", "$[*]", "9"], "-ERR wildcard/recursive not supported in SET path\r\n"),
        (&["JSON.SET", "k", "$..b", "9"], "-ERR wildcard/recursive not supported in SET path\r\n"),
    ];
    for (command, reply) in refused {
        assert_eq!(run(&mut c, command, json_set_command), reply);
        let now = run(&mut c, &["JSON.GET", "k"], json_get_command);
        assert_eq!(now, format!("${}\r\n{}\r\n", doc.len(), doc));
    }
    assert_eq!(run(&mut c, &["JSON.SET", "k", "$.l[1]", "9", "NX"], json_set_command), "+OK\r\n");
    assert_eq!(run(&mut c, &["JSON.GET", "k", "$.l[1]"], json_get_command), "$3\r\n[9]\r\n");
}
