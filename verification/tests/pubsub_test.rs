use redis_commands::context::{Client, CommandContext};
use redis_commands::error::RedisError;
use redis_commands::pubsub::{
    drop_client_from_registry, is_allowed_in_subscribe_mode, psubscribe_command, publish_command,
    pubsub_command, pubsub_subscription_count, punsubscribe_command, register_sender,
    spublish_command, ssubscribe_command, subscribe_command, subscribe_mode_error,
    sunsubscribe_command, unsubscribe_command, PubSubRegistry, Subscription,
};
use redis_commands::reply::encode_replies;

fn ctx() -> CommandContext {
    CommandContext::new(Client::new(1))
}

fn args(a: &[&str]) -> Vec<Vec<u8>> {
    a.iter().map(|s| s.as_bytes().to_vec()).collect()
}

fn run<F>(c: &mut CommandContext, a: &[&str], f: F) -> String
where
    F: FnOnce(&mut CommandContext) -> Result<(), RedisError>,
{
    c.client.argv = args(a);
    c.replies.clear();
    match f(c) {
        Ok(()) => String::from_utf8(encode_replies(&c.replies, false)).unwrap(),
        Err(e) => format!("-{}\r\n", String::from_utf8(e.to_resp_payload()).unwrap()),
    }
}

fn fresh_registry(id: u64) -> PubSubRegistry {
    let mut r = PubSubRegistry::new();
    register_sender(&mut r, id, false);
    r
}

#[test]
fn subscribe_emits_three_part_array() {
    let mut c = CommandContext::new(Client::new(42));
    let mut reg = fresh_registry(42);
    let reply = run(&mut c, &["SUBSCRIBE", "chA"], |c| subscribe_command(c, &mut reg));
    assert_eq!(reply, "*3\r\n$9\r\nsubscribe\r\n$3\r\nchA\r\n:1\r\n");
    assert!(reg.channels.iter().any(|s| s.name == b"chA" && s.client == 42));
    assert_eq!(
        encode_replies(&c.replies, true),
        b">3\r\n$9\r\nsubscribe\r\n$3\r\nchA\r\n:1\r\n".to_vec()
    );
}

#[test]
fn publish_to_empty_channel_returns_zero() {
    let mut c = ctx();
    let reg = fresh_registry(1);
    let reply = run(&mut c, &["PUBLISH", "none", "x"], |c| publish_command(c, &reg));
    assert_eq!(reply, ":0\r\n");
    assert_eq!(c.outbox.len(), 0);
}

#[test]
fn pubsub_numpat_returns_pattern_count() {
    let mut c = CommandContext::new(Client::new(3));
    let mut reg = fresh_registry(3);
    reg.patterns.push(Subscription { name: b"news.*".to_vec(), client: 3 });
    let reply = run(&mut c, &["PUBSUB", "NUMPAT"], |c| pubsub_command(c, &reg));
    assert_eq!(reply, ":1\r\n");
}

#[test]
fn publish_reaches_channels_and_patterns_in_each_protocol() {
    let mut c = ctx();
    let mut reg = PubSubRegistry::new();
    register_sender(&mut reg, 7, false);
    register_sender(&mut reg, 8, true);
    c.client.id = 7;
    run(&mut c, &["SUBSCRIBE", "news.tech"], |c| subscribe_command(c, &mut reg));
    c.client.id = 8;
    run(&mut c, &["SUBSCRIBE", "news.tech"], |c| subscribe_command(c, &mut reg));
    run(&mut c, &["PSUBSCRIBE", "news.*", "sport.*"], |c| psubscribe_command(c, &mut reg));
    c.client.id = 9;
    run(&mut c, &["SUBSCRIBE", "news.tech"], |c| subscribe_command(c, &mut reg));
    let reply = run(&mut c, &["PUBLISH", "news.tech", "hi"], |c| publish_command(c, &reg));
    assert_eq!(reply, ":3\r\n");
    assert_eq!(c.outbox[0].client_id, 7);
    assert_eq!(
        c.outbox[0].frame,
        b"*3\r\n$7\r\nmessage\r\n$9\r\nnews.tech\r\n$2\r\nhi\r\n".to_vec()
    );
    assert_eq!(c.outbox[1].client_id, 8);
    assert_eq!(
        c.outbox[1].frame,
        b">3\r\n$7\r\nmessage\r\n$9\r\nnews.tech\r\n$2\r\nhi\r\n".to_vec()
    );
    assert_eq!(c.outbox[2].client_id, 8);
    assert_eq!(
        c.outbox[2].frame,
        b">4\r\n$8\r\npmessage\r\n$6\r\nnews.*\r\n$9\r\nnews.tech\r\n$2\r\nhi\r\n".to_vec()
    );
}

#[test]
fn subscribing_twice_counts_once() {
    let mut c = ctx();
    let mut reg = fresh_registry(1);
    let reply = run(&mut c, &["SUBSCRIBE", "a", "a"], |c| subscribe_command(c, &mut reg));
    assert_eq!(
        reply,
        "*3\r\n$9\r\nsubscribe\r\n$1\r\na\r\n:1\r\n*3\r\n$9\r\nsubscribe\r\n$1\r\na\r\n:1\r\n"
    );
    assert_eq!(pubsub_subscription_count(&reg, 1), 1);
}

#[test]
fn unsubscribe_undoes_subscribe() {
    let mut c = ctx();
    let mut reg = fresh_registry(1);
    run(&mut c, &["SUBSCRIBE", "a", "b"], |c| subscribe_command(c, &mut reg));
    run(&mut c, &["PSUBSCRIBE", "p*"], |c| psubscribe_command(c, &mut reg));
    assert_eq!(
        run(&mut c, &["UNSUBSCRIBE", "a"], |c| unsubscribe_command(c, &mut reg)),
        "*3\r\n$11\r\nunsubscribe\r\n$1\r\na\r\n:2\r\n"
    );
    assert_eq!(
        run(&mut c, &["UNSUBSCRIBE"], |c| unsubscribe_command(c, &mut reg)),
        "*3\r\n$11\r\nunsubscribe\r\n$1\r\nb\r\n:1\r\n"
    );
    assert_eq!(
        run(&mut c, &["UNSUBSCRIBE"], |c| unsubscribe_command(c, &mut reg)),
        "*3\r\n$11\r\nunsubscribe\r\n$-1\r\n:1\r\n"
    );
    assert_eq!(
        run(&mut c, &["PUNSUBSCRIBE"], |c| punsubscribe_command(c, &mut reg)),
        "*3\r\n$12\r\npunsubscribe\r\n$2\r\np*\r\n:0\r\n"
    );
}

#[test]
fn pubsub_lists_and_counts() {
    let mut c = ctx();
    let mut reg = fresh_registry(1);
    run(&mut c, &["SUBSCRIBE", "news.a", "sport"], |c| subscribe_command(c, &mut reg));
    assert_eq!(
        run(&mut c, &["PUBSUB", "CHANNELS"], |c| pubsub_command(c, &reg)),
        "*2\r\n$6\r\nnews.a\r\n$5\r\nsport\r\n"
    );
    assert_eq!(
        run(&mut c, &["PUBSUB", "channels", "news.*"], |c| pubsub_command(c, &reg)),
        "*1\r\n$6\r\nnews.a\r\n"
    );
    assert_eq!(
        run(&mut c, &["PUBSUB", "NUMSUB", "sport", "none"], |c| pubsub_command(c, &reg)),
        "*4\r\n$5\r\nsport\r\n:1\r\n$4\r\nnone\r\n:0\r\n"
    );
    assert_eq!(
        run(&mut c, &["PUBSUB", "WHAT"], |c| pubsub_command(c, &reg)),
        "-ERR unknown subcommand or wrong number of arguments\r\n"
    );
    assert!(run(&mut c, &["PUBSUB", "HELP"], |c| pubsub_command(c, &reg)).starts_with("*7\r\n"));
    assert_eq!(
        run(&mut c, &["PUBSUB", "SHARDNUMSUB"], |c| pubsub_command(c, &reg)),
        "-ERR sharded pub/sub not yet implemented\r\n"
    );
}

#[test]
fn wrong_numbers_of_pubsub_arguments() {
    let mut c = ctx();
    let mut reg = fresh_registry(1);
    assert_eq!(
        run(&mut c, &["SUBSCRIBE"], |c| subscribe_command(c, &mut reg)),
        "-ERR wrong number of arguments for 'subscribe' command\r\n"
    );
    assert_eq!(
        run(&mut c, &["PSUBSCRIBE"], |c| psubscribe_command(c, &mut reg)),
        "-ERR wrong number of arguments for 'psubscribe' command\r\n"
    );
    assert_eq!(
        run(&mut c, &["PUBLISH", "a"], |c| publish_command(c, &reg)),
        "-ERR wrong number of arguments for 'publish' command\r\n"
    );
    assert_eq!(
        run(&mut c, &["PUBSUB"], |c| pubsub_command(c, &reg)),
        "-ERR wrong number of arguments for 'pubsub' command\r\n"
    );
}

#[test]
fn shards_are_refused() {
    let mut c = ctx();
    for f in [spublish_command, ssubscribe_command, sunsubscribe_command] {
        assert_eq!(run(&mut c, &["X"], f), "-ERR sharded pub/sub not yet implemented\r\n");
    }
}

#[test]
fn dropped_client_gets_nothing() {
    let mut c = ctx();
    let mut reg = fresh_registry(1);
    run(&mut c, &["SUBSCRIBE", "a"], |c| subscribe_command(c, &mut reg));
    drop_client_from_registry(&mut reg, 1);
    assert_eq!(run(&mut c, &["PUBLISH", "a", "m"], |c| publish_command(c, &reg)), ":0\r\n");
    assert_eq!(pubsub_subscription_count(&reg, 1), 0);
}

#[test]
fn subscribe_mode_allows_few_commands() {
    for name in ["SUBSCRIBE", "pUnsubscribe", "ssubscribe", "PING", "quit", "Reset"] {
        assert!(is_allowed_in_subscribe_mode(name.as_bytes()));
    }
    for name in ["GET", "", "subscribesubscribesubscribe"] {
        assert!(!is_allowed_in_subscribe_mode(name.as_bytes()));
    }
    assert_eq!(
        subscribe_mode_error(b"GET").to_resp_payload(),
        b"ERR Can't execute 'get': only (P|S)SUBSCRIBE / (P|S)UNSUBSCRIBE / PING / QUIT / RESET are allowed in this context".to_vec()
    );
}
