//! List commands on several keys: LMOVE, RPOPLPUSH, LMPOP, and the ones that
//! wait for an element.

use vstd::prelude::*;

use crate::bytes::{
    dec, dup, fmt_u64, i64_of, is_word, lemma_views_push, lit, parse_i64, text, views, word,
};
use crate::context::{
    done, fails, lemma_waiters_push, raises, replies, replies_one, says, with_argv, with_db,
    ActionV, BlockedAction, BlockedWaiter, ClientV, CommandContext, CtxV, EventClass, Outcome, WaiterV,
};
use crate::error::{runtime, syntax, wrong_args, ErrV, RedisError};
use crate::keyspace::{db_set, db_touch, db_update, list_in, DbV, ObjV, RedisObject};
use crate::list::{
    after_removal, at_most, list_elements_removed, pop_event, pop_event_name, pop_range, popped_from,
    push_event, push_event_name, taken,
};
use crate::list_type::{end_of, list_type_pop, list_type_push, popped, pushed, ListPosition};
use crate::reply::{
    bulk_array, lemma_toks_add, lemma_toks_push, put_bulk_array, toks, Reply, Tok,
};
use crate::stream::{deadline, deadline_at};

verus! {

broadcast use {lemma_toks_push, lemma_toks_add, lemma_views_push};

// ---------------------------------------------------------------------------
// Ends by name
// ---------------------------------------------------------------------------

/// The end that a word names.
pub open spec fn end_named(b: Seq<u8>) -> Option<ListPosition> {
    if is_word(b, "right"@) {
        Some(ListPosition::Tail)
    } else if is_word(b, "left"@) {
        Some(ListPosition::Head)
    } else {
        None
    }
}

/// The end that a word names.
pub fn get_list_position_from_object_or_reply(arg: &[u8]) -> (r: Result<ListPosition, RedisError>)
    ensures
        match end_named(arg@) {
            Some(p) => r == Ok::<_, RedisError>(p),
            None => r matches Err(e) && e@ == syntax("syntax error"@),
        },
{
    if word(arg, "right") {
        Ok(ListPosition::Tail)
    } else if word(arg, "left") {
        Ok(ListPosition::Head)
    } else {
        Err(RedisError::syntax("syntax error"))
    }
}

/// The word for an end.
pub open spec fn end_word(position: ListPosition) -> Seq<u8> {
    match position {
        ListPosition::Head => text("LEFT"@),
        ListPosition::Tail => text("RIGHT"@),
    }
}

/// The word for an end.
pub fn get_string_object_from_list_position(position: ListPosition) -> (r: Vec<u8>)
    ensures
        r@ == end_word(position),
{
    match position {
        ListPosition::Head => lit("LEFT"),
        ListPosition::Tail => lit("RIGHT"),
    }
}

// ---------------------------------------------------------------------------
// LMOVE, RPOPLPUSH
// ---------------------------------------------------------------------------

/// The context after an element was pushed to a list, which is made where it is
/// missing, and the element was the reply.
pub open spec fn moved_to(c: CtxV, key: Seq<u8>, v: Seq<u8>, at: ListPosition) -> CtxV {
    let db = match list_in(c.db, key) {
        Ok(Some(l)) => db_touch(db_update(c.db, key, ObjV::List(pushed(l, v, at))), key),
        _ => db_set(c.db, key, ObjV::List(seq![v]), false),
    };
    says(raises(with_db(c, db), EventClass::List, push_event(at), key), seq![Tok::Bulk(v)])
}

/// Pushes an element to a list, which is made where it is missing, and replies
/// with the element.
fn lmove_handle_push(ctx: &mut CommandContext, key: &[u8], v: &[u8], at: ListPosition)
    requires
        old(ctx).wf(),
        list_in(old(ctx)@.db, key@) is Ok,
    ensures
        final(ctx).wf(),
        final(ctx)@ == moved_to(old(ctx)@, key@, v@, at),
{
    let there: bool = match ctx.db.list_for_write(key) {
        Ok(Some(l)) => {
            list_type_push(l, dup(v), at);
            true
        },
        _ => false,
    };
    if there {
        ctx.db.touch(key);
    } else {
        let mut l: Vec<Vec<u8>> = Vec::new();
        l.push(dup(v));
        assert(views(l@) =~= seq![v@]);
        ctx.db.set_key(dup(key), RedisObject::List(l), false);
    }
    ctx.notify_keyspace_event(EventClass::List, push_event_name(at), key);
    ctx.reply(Reply::Bulk(dup(v)));
}

/// Whether the list under a key is empty.
pub open spec fn drained(d: DbV, key: Seq<u8>) -> bool {
    list_in(d, key) matches Ok(Some(l)) && l.len() == 0
}

/// How the move of an element from one list to another ends.
pub open spec fn move_outcome(
    c: CtxV,
    src: Seq<u8>,
    dst: Seq<u8>,
    from: ListPosition,
    to: ListPosition,
) -> Outcome {
    match (list_in(c.db, src), list_in(c.db, dst)) {
        (Err(e), _) => fails(c, e),
        (Ok(None), _) => replies_one(c, Tok::NullBulk),
        (Ok(Some(_)), Err(e)) => fails(c, e),
        (Ok(Some(l)), Ok(_)) => if l.len() == 0 {
            replies_one(c, Tok::NullBulk)
        } else {
            let c1 = with_db(c, db_update(c.db, src, ObjV::List(popped(l, from))));
            let c2 = moved_to(c1, dst, end_of(l, from), to);
            Outcome {
                result: Ok(()),
                ctx: after_removal(c2, src, drained(c2.db, src), pop_event(from), 1),
            }
        },
    }
}

/// Moves an element from one list to another.
fn lmove_generic_command(
    ctx: &mut CommandContext,
    src: &[u8],
    dst: &[u8],
    from: ListPosition,
    to: ListPosition,
) -> (r: Result<(), RedisError>)
    requires
        old(ctx).wf(),
    ensures
        final(ctx).wf(),
        done(r, final(ctx)@) == move_outcome(old(ctx)@, src@, dst@, from, to),
{
    let len: usize = match ctx.db.list_at(src) {
        Err(e) => return Err(e),
        Ok(None) => return ctx.reply_null_bulk(),
        Ok(Some(l)) => l.len(),
    };
    match ctx.db.list_at(dst) {
        Err(e) => return Err(e),
        Ok(_) => {},
    }
    if len == 0 {
        return ctx.reply_null_bulk();
    }
    let mut v: Vec<u8> = Vec::new();
    match ctx.db.list_for_write(src) {
        Ok(Some(l)) => {
            match list_type_pop(l, from) {
                Some(x) => {
                    v = x;
                },
                None => {},
            }
        },
        _ => {},
    }
    lmove_handle_push(ctx, dst, &v, to);
    let empty: bool = match ctx.db.list_at(src) {
        Ok(Some(l)) => l.len() == 0,
        _ => false,
    };
    list_elements_removed(ctx, src, empty, pop_event_name(from), 1);
    Ok(())
}

/// How LMOVE ends.
pub open spec fn lmove_outcome(c: CtxV) -> Outcome {
    let argv = c.client.argv;
    if argv.len() != 5 {
        fails(c, wrong_args("lmove"@))
    } else {
        match (end_named(argv[3]), end_named(argv[4])) {
            (Some(from), Some(to)) => move_outcome(c, argv[1], argv[2], from, to),
            _ => fails(c, syntax("syntax error"@)),
        }
    }
}

/// LMOVE source destination LEFT|RIGHT LEFT|RIGHT
pub fn lmove_command(ctx: &mut CommandContext) -> (r: Result<(), RedisError>)
    requires
        old(ctx).wf(),
    ensures
        final(ctx).wf(),
        done(r, final(ctx)@) == lmove_outcome(old(ctx)@),
{
    if ctx.arg_count() != 5 {
        return Err(RedisError::wrong_number_of_args("lmove"));
    }
    let from: ListPosition = match get_list_position_from_object_or_reply(ctx.arg(3)) {
        Ok(p) => p,
        Err(e) => return Err(e),
    };
    let to: ListPosition = match get_list_position_from_object_or_reply(ctx.arg(4)) {
        Ok(p) => p,
        Err(e) => return Err(e),
    };
    let src: Vec<u8> = ctx.arg_owned(1);
    let dst: Vec<u8> = ctx.arg_owned(2);
    lmove_generic_command(ctx, &src, &dst, from, to)
}

/// How RPOPLPUSH ends.
pub open spec fn rpoplpush_outcome(c: CtxV) -> Outcome {
    let argv = c.client.argv;
    if argv.len() != 3 {
        fails(c, wrong_args("rpoplpush"@))
    } else {
        move_outcome(c, argv[1], argv[2], ListPosition::Tail, ListPosition::Head)
    }
}

/// RPOPLPUSH source destination
pub fn rpoplpush_command(ctx: &mut CommandContext) -> (r: Result<(), RedisError>)
    requires
        old(ctx).wf(),
    ensures
        final(ctx).wf(),
        done(r, final(ctx)@) == rpoplpush_outcome(old(ctx)@),
{
    if ctx.arg_count() != 3 {
        return Err(RedisError::wrong_number_of_args("rpoplpush"));
    }
    let src: Vec<u8> = ctx.arg_owned(1);
    let dst: Vec<u8> = ctx.arg_owned(2);
    lmove_generic_command(ctx, &src, &dst, ListPosition::Tail, ListPosition::Head)
}

// ---------------------------------------------------------------------------
// The first list with elements
// ---------------------------------------------------------------------------

/// The first key, from a position on, whose list has elements.
pub open spec fn first_ready(d: DbV, keys: Seq<Seq<u8>>, i: int) -> Result<Option<int>, ErrV>
    decreases keys.len() - i,
{
    if i < 0 || i >= keys.len() {
        Ok(None)
    } else {
        match list_in(d, keys[i]) {
            Err(e) => Err(e),
            Ok(Some(l)) if l.len() > 0 => Ok(Some(i)),
            _ => first_ready(d, keys, i + 1),
        }
    }
}

/// The first key whose list has elements.
fn find_ready(ctx: &CommandContext, keys: &Vec<Vec<u8>>) -> (r: Result<Option<usize>, RedisError>)
    requires
        ctx.wf(),
    ensures
        match r {
            Ok(Some(k)) => first_ready(ctx@.db, views(keys@), 0) == Ok::<_, ErrV>(Some(k as int))
                && k < keys@.len() && (list_in(ctx@.db, keys@[k as int]@) matches Ok(Some(l))
                && l.len() > 0),
            Ok(None) => first_ready(ctx@.db, views(keys@), 0) == Ok::<Option<int>, ErrV>(None),
            Err(e) => first_ready(ctx@.db, views(keys@), 0) == Err::<Option<int>, ErrV>(e@),
        },
{
    let ghost whole = first_ready(ctx@.db, views(keys@), 0);
    let mut i: usize = 0;
    while i < keys.len()
        invariant
            ctx.wf(),
            i <= keys@.len(),
            whole == first_ready(ctx@.db, views(keys@), 0),
            whole == first_ready(ctx@.db, views(keys@), i as int),
        decreases keys@.len() - i,
    {
        assert(views(keys@)[i as int] == keys@[i as int]@);
        match ctx.db.list_at(&keys[i]) {
            Err(e) => return Err(e),
            Ok(None) => {},
            Ok(Some(l)) => {
                if l.len() > 0 {
                    return Ok(Some(i));
                }
            },
        }
        i += 1;
    }
    Ok(None)
}

/// The reply of a pop of several elements: the key and the elements.
pub open spec fn key_and_items(key: Seq<u8>, items: Seq<Seq<u8>>) -> Seq<Tok> {
    seq![Tok::Array(2), Tok::Bulk(key)] + bulk_array(items)
}

/// The command that pops at an end.
pub open spec fn pop_word(at: ListPosition) -> Seq<u8> {
    match at {
        ListPosition::Head => text("LPOP"@),
        ListPosition::Tail => text("RPOP"@),
    }
}

/// The command that pops at an end.
fn pop_command_name(at: ListPosition) -> (r: Vec<u8>)
    ensures
        r@ == pop_word(at),
{
    match at {
        ListPosition::Head => lit("LPOP"),
        ListPosition::Tail => lit("RPOP"),
    }
}

/// How a pop of up to `count` elements, with the key in the reply, ends. It is
/// handed on as the pop of one list that it was.
pub open spec fn range_popped(c: CtxV, key: Seq<u8>, at: ListPosition, count: int) -> Outcome {
    let l = list_in(c.db, key)->Ok_0->0;
    let n = at_most(count, l.len());
    replies(
        with_argv(
            popped_from(c, key, l, at, count),
            seq![pop_word(at), key, dec(n)],
        ),
        key_and_items(key, taken(l, n, at)),
    )
}

/// Takes up to `count` elements and replies with the key and the elements.
fn list_pop_range_and_reply_with_key(
    ctx: &mut CommandContext,
    key: &[u8],
    at: ListPosition,
    count: u64,
) -> (r: Result<(), RedisError>)
    requires
        old(ctx).wf(),
        list_in(old(ctx)@.db, key@) matches Ok(Some(_)),
    ensures
        final(ctx).wf(),
        done(r, final(ctx)@) == range_popped(old(ctx)@, key@, at, count as int),
{
    let items: Vec<Vec<u8>> = pop_range(ctx, key, at, count);
    let mut argv: Vec<Vec<u8>> = Vec::new();
    argv.push(pop_command_name(at));
    argv.push(dup(key));
    argv.push(fmt_u64(items.len() as u64));
    proof {
        let l = list_in(old(ctx)@.db, key@)->Ok_0->0;
        let n = at_most(count as int, l.len());
        assert(items@.len() == views(items@).len());
        assert(taken(l, n, at).len() == n);
        assert(views(argv@) =~= seq![pop_word(at), key@, dec(n)]);
    }
    ctx.set_args(argv);
    let mut ts: Vec<Reply> = Vec::new();
    ts.push(Reply::Array(2));
    ts.push(Reply::Bulk(dup(key)));
    assert(toks(ts@) =~= seq![Tok::Array(2), Tok::Bulk(key@)]);
    put_bulk_array(&mut ts, &items);
    ctx.reply_all(ts);
    Ok(())
}

// ---------------------------------------------------------------------------
// Waiting
// ---------------------------------------------------------------------------

/// How long a command may wait, as the caller read it from an argument.
#[derive(Debug, Clone, Copy, PartialEq, Eq, Structural)]
pub enum Timeout {
    /// So many milliseconds; 0 means forever.
    Ms(i64),
    /// The argument is no number, or too large a one.
    NotFloat,
    /// The argument is negative.
    Negative,
}

/// How long a command may wait, in milliseconds, or why its argument is refused.
pub open spec fn timeout_ms(t: Timeout) -> Result<i64, ErrV> {
    match t {
        Timeout::Ms(n) => Ok(n),
        Timeout::NotFloat => Err(runtime("ERR timeout is not a float or out of range"@)),
        Timeout::Negative => Err(runtime("ERR timeout is negative"@)),
    }
}

/// How long a command may wait, in milliseconds, or why its argument is refused.
fn check_timeout(t: Timeout) -> (r: Result<i64, RedisError>)
    ensures
        match r {
            Ok(n) => timeout_ms(t) == Ok::<i64, ErrV>(n),
            Err(e) => timeout_ms(t) == Err::<i64, ErrV>(e@),
        },
{
    match t {
        Timeout::Ms(n) => Ok(n),
        Timeout::NotFloat => Err(RedisError::runtime("ERR timeout is not a float or out of range")),
        Timeout::Negative => Err(RedisError::runtime("ERR timeout is negative")),
    }
}

/// One waiting entry per key.
pub open spec fn list_waiters(
    c: CtxV,
    keys: Seq<Seq<u8>>,
    action: ActionV,
    ms: i64,
) -> Seq<WaiterV> {
    Seq::new(
        keys.len(),
        |k: int|
            WaiterV {
                client_id: c.client.id,
                key: keys[k],
                action,
                deadline_ms: deadline(c.now, ms),
                resp_proto: c.client.resp_proto,
                user: c.client.user,
                redirect_on_role_change: c.client.capa_redirect && !c.client.readonly,
            },
    )
}

/// The context of a client that waits for keys.
pub open spec fn waits_for(c: CtxV, keys: Seq<Seq<u8>>, action: ActionV, ms: i64) -> CtxV {
    CtxV {
        blocked: c.blocked + list_waiters(c, keys, action, ms),
        client: ClientV { blocked_on_keys: true, ..c.client },
        ..c
    }
}

/// Whether a client may not wait.
pub open spec fn must_not_wait(c: CtxV) -> bool {
    c.client.deny_blocking || !c.client.attached
}

/// Makes a client wait for an element of a list.
fn wait_for_pop(
    ctx: &mut CommandContext,
    keys: &Vec<Vec<u8>>,
    from: ListPosition,
    count: Option<i64>,
    ms: i64,
)
    requires
        old(ctx).wf(),
    ensures
        final(ctx).wf(),
        final(ctx)@ == waits_for(
            old(ctx)@,
            views(keys@),
            ActionV::ListPop { from, count },
            ms,
        ),
{
    let ghost c = ctx@;
    let ghost all = list_waiters(c, views(keys@), ActionV::ListPop { from, count }, ms);
    let deadline_ms: i64 = deadline_at(ctx.now_ms, ms);
    let mut k: usize = 0;
    while k < keys.len()
        invariant
            k <= keys@.len(),
            c == old(ctx)@,
            all == list_waiters(c, views(keys@), ActionV::ListPop { from, count }, ms),
            deadline_ms == deadline(c.now, ms),
            ctx.wf(),
            ctx.client == old(ctx).client,
            ctx@ == (CtxV { blocked: ctx@.blocked, ..c }),
            ctx@.blocked =~= c.blocked + all.take(k as int),
        decreases keys@.len() - k,
    {
        let w = BlockedWaiter {
            client_id: ctx.client.id,
            key: dup(&keys[k]),
            action: BlockedAction::ListPop { from, count },
            deadline_ms,
            resp_proto: ctx.client.resp_proto,
            user: dup(&ctx.client.user),
            redirect_on_role_change: ctx.client.capa_redirect && !ctx.client.readonly,
        };
        proof {
            assert(views(keys@)[k as int] == keys@[k as int]@);
            assert(w@ == all[k as int]);
            lemma_waiters_push(ctx.blocked@, w);
        }
        ctx.blocked.push(w);
        k += 1;
    }
    assert(all.take(all.len() as int) =~= all);
    ctx.client.blocked_on_keys = true;
}

/// How a pop of one element, with the key in the reply, ends. It is handed on as
/// the pop of one list that it was.
pub open spec fn one_popped(c: CtxV, key: Seq<u8>, at: ListPosition) -> Outcome {
    let l = list_in(c.db, key)->Ok_0->0;
    replies(
        with_argv(popped_from(c, key, l, at, 1), seq![pop_word(at), key]),
        seq![Tok::Array(2), Tok::Bulk(key), Tok::Bulk(end_of(l, at))],
    )
}

/// Takes one element and replies with the key and the element.
fn list_pop_and_reply_with_key(ctx: &mut CommandContext, key: &[u8], at: ListPosition) -> (r: Result<
    (),
    RedisError,
>)
    requires
        old(ctx).wf(),
        list_in(old(ctx)@.db, key@) matches Ok(Some(l)) && l.len() > 0,
    ensures
        final(ctx).wf(),
        done(r, final(ctx)@) == one_popped(old(ctx)@, key@, at),
{
    let mut items: Vec<Vec<u8>> = pop_range(ctx, key, at, 1);
    let mut argv: Vec<Vec<u8>> = Vec::new();
    argv.push(pop_command_name(at));
    argv.push(dup(key));
    assert(views(argv@) =~= seq![pop_word(at), key@]);
    ctx.set_args(argv);
    proof {
        let l = list_in(old(ctx)@.db, key@)->Ok_0->0;
        assert(views(items@) == taken(l, 1, at));
        assert(taken(l, 1, at)[0] == end_of(l, at));
        assert(items@.len() == views(items@).len());
        assert(items@[0]@ == views(items@)[0]);
    }
    let v: Vec<u8> = items.remove(0);
    let mut ts: Vec<Reply> = Vec::new();
    ts.push(Reply::Array(2));
    ts.push(Reply::Bulk(dup(key)));
    ts.push(Reply::Bulk(v));
    proof {
        let l = list_in(old(ctx)@.db, key@)->Ok_0->0;
        assert(toks(ts@) =~= seq![Tok::Array(2), Tok::Bulk(key@), Tok::Bulk(end_of(l, at))]);
    }
    ctx.reply_all(ts);
    Ok(())
}

/// How a pop that may wait ends. Without a count the reply is the key and one
/// element.
pub open spec fn blocking_pop_outcome(
    c: CtxV,
    keys: Seq<Seq<u8>>,
    at: ListPosition,
    t: Timeout,
    count: Option<i64>,
) -> Outcome {
    match (timeout_ms(t), first_ready(c.db, keys, 0)) {
        (Err(e), _) => fails(c, e),
        (Ok(_), Err(e)) => fails(c, e),
        (Ok(_), Ok(Some(k))) => match count {
            Some(n) => range_popped(c, keys[k], at, n as int),
            None => one_popped(c, keys[k], at),
        },
        (Ok(ms), Ok(None)) => if must_not_wait(c) {
            replies_one(c, Tok::NullArray)
        } else {
            Outcome {
                result: Ok(()),
                ctx: waits_for(c, keys, ActionV::ListPop { from: at, count }, ms),
            }
        },
    }
}

/// Takes elements from the first list that has some, or waits.
fn blocking_pop_generic_command(
    ctx: &mut CommandContext,
    keys: &Vec<Vec<u8>>,
    at: ListPosition,
    t: Timeout,
    count: Option<i64>,
) -> (r: Result<(), RedisError>)
    requires
        old(ctx).wf(),
        count matches Some(n) ==> n > 0,
    ensures
        final(ctx).wf(),
        done(r, final(ctx)@) == blocking_pop_outcome(old(ctx)@, views(keys@), at, t, count),
{
    let ms: i64 = match check_timeout(t) {
        Err(e) => return Err(e),
        Ok(n) => n,
    };
    match find_ready(ctx, keys) {
        Err(e) => Err(e),
        Ok(Some(k)) => {
            assert(views(keys@)[k as int] == keys@[k as int]@);
            match count {
                Some(n) => list_pop_range_and_reply_with_key(ctx, &keys[k], at, n as u64),
                None => list_pop_and_reply_with_key(ctx, &keys[k], at),
            }
        },
        Ok(None) => {
            if ctx.client.deny_blocking || !ctx.client.attached {
                return ctx.reply_null_array();
            }
            wait_for_pop(ctx, keys, at, count, ms);
            Ok(())
        },
    }
}

/// The arguments between two positions.
fn args_between(ctx: &CommandContext, from: usize, to: usize) -> (r: Vec<Vec<u8>>)
    requires
        from <= to <= ctx@.client.argv.len(),
    ensures
        views(r@) == ctx@.client.argv.subrange(from as int, to as int),
{
    let ghost all = ctx@.client.argv;
    let mut r: Vec<Vec<u8>> = Vec::new();
    let mut i: usize = from;
    assert(views(r@) =~= all.subrange(from as int, from as int));
    while i < to
        invariant
            from <= i <= to <= all.len(),
            all == ctx@.client.argv,
            views(r@) == all.subrange(from as int, i as int),
        decreases to - i,
    {
        r.push(ctx.arg_owned(i));
        assert(views(r@) =~= all.subrange(from as int, i + 1));
        i += 1;
    }
    r
}

/// How BLPOP and BRPOP end.
pub open spec fn bpop_outcome(c: CtxV, at: ListPosition, t: Timeout, name: Seq<char>) -> Outcome {
    let argv = c.client.argv;
    if argv.len() < 3 {
        fails(c, wrong_args(name))
    } else {
        blocking_pop_outcome(c, argv.subrange(1, argv.len() - 1), at, t, None)
    }
}

/// BLPOP key [key ...] timeout, with the timeout as the caller read it.
pub fn blpop_command(ctx: &mut CommandContext, t: Timeout) -> (r: Result<(), RedisError>)
    requires
        old(ctx).wf(),
    ensures
        final(ctx).wf(),
        done(r, final(ctx)@) == bpop_outcome(old(ctx)@, ListPosition::Head, t, "blpop"@),
{
    let argc: usize = ctx.arg_count();
    if argc < 3 {
        return Err(RedisError::wrong_number_of_args("blpop"));
    }
    let keys: Vec<Vec<u8>> = args_between(ctx, 1, argc - 1);
    blocking_pop_generic_command(ctx, &keys, ListPosition::Head, t, None)
}

/// BRPOP key [key ...] timeout, with the timeout as the caller read it.
pub fn brpop_command(ctx: &mut CommandContext, t: Timeout) -> (r: Result<(), RedisError>)
    requires
        old(ctx).wf(),
    ensures
        final(ctx).wf(),
        done(r, final(ctx)@) == bpop_outcome(old(ctx)@, ListPosition::Tail, t, "brpop"@),
{
    let argc: usize = ctx.arg_count();
    if argc < 3 {
        return Err(RedisError::wrong_number_of_args("brpop"));
    }
    let keys: Vec<Vec<u8>> = args_between(ctx, 1, argc - 1);
    blocking_pop_generic_command(ctx, &keys, ListPosition::Tail, t, None)
}

/// A move that is handed on as other arguments, where something was moved.
pub open spec fn move_handed_on(o: Outcome, args: Seq<Seq<u8>>) -> Outcome {
    if o.result is Ok {
        Outcome { result: o.result, ctx: with_argv(o.ctx, args) }
    } else {
        o
    }
}

/// How a move that may wait ends. Where it does not wait, it is handed on as the
/// move `args` that does not.
pub open spec fn blocking_move_outcome(
    c: CtxV,
    src: Seq<u8>,
    dst: Seq<u8>,
    from: ListPosition,
    to: ListPosition,
    t: Timeout,
    args: Seq<Seq<u8>>,
) -> Outcome {
    match (timeout_ms(t), list_in(c.db, src)) {
        (Err(e), _) => fails(c, e),
        (Ok(_), Err(e)) => fails(c, e),
        (Ok(_), Ok(Some(_))) => move_handed_on(move_outcome(c, src, dst, from, to), args),
        (Ok(ms), Ok(None)) => if must_not_wait(c) {
            replies_one(c, Tok::NullBulk)
        } else {
            Outcome {
                result: Ok(()),
                ctx: waits_for(
                    c,
                    seq![src],
                    ActionV::ListMove { from, to, destination: dst },
                    ms,
                ),
            }
        },
    }
}

/// Makes the client wait for an element to move.
fn wait_for_move(
    ctx: &mut CommandContext,
    src: &[u8],
    dst: &[u8],
    from: ListPosition,
    to: ListPosition,
    ms: i64,
)
    requires
        old(ctx).wf(),
    ensures
        final(ctx).wf(),
        final(ctx)@ == waits_for(
            old(ctx)@,
            seq![src@],
            ActionV::ListMove { from, to, destination: dst@ },
            ms,
        ),
{
    let w = BlockedWaiter {
        client_id: ctx.client.id,
        key: dup(src),
        action: BlockedAction::ListMove { from, to, destination: dup(dst) },
        deadline_ms: deadline_at(ctx.now_ms, ms),
        resp_proto: ctx.client.resp_proto,
        user: dup(&ctx.client.user),
        redirect_on_role_change: ctx.client.capa_redirect && !ctx.client.readonly,
    };
    proof {
        lemma_waiters_push(ctx.blocked@, w);
        assert(ctx@.blocked.push(w@) =~= ctx@.blocked + list_waiters(
            ctx@,
            seq![src@],
            ActionV::ListMove { from, to, destination: dst@ },
            ms,
        ));
    }
    ctx.blocked.push(w);
    ctx.client.blocked_on_keys = true;
}

/// Moves an element from one list to another, or waits.
fn blmove_generic_command(
    ctx: &mut CommandContext,
    src: &[u8],
    dst: &[u8],
    from: ListPosition,
    to: ListPosition,
    t: Timeout,
    args: Vec<Vec<u8>>,
) -> (r: Result<(), RedisError>)
    requires
        old(ctx).wf(),
    ensures
        final(ctx).wf(),
        done(r, final(ctx)@) == blocking_move_outcome(
            old(ctx)@,
            src@,
            dst@,
            from,
            to,
            t,
            views(args@),
        ),
{
    let ms: i64 = match check_timeout(t) {
        Err(e) => return Err(e),
        Ok(n) => n,
    };
    let there: bool = match ctx.db.list_at(src) {
        Err(e) => return Err(e),
        Ok(l) => l.is_some(),
    };
    if there {
        let r: Result<(), RedisError> = lmove_generic_command(ctx, src, dst, from, to);
        if r.is_ok() {
            ctx.set_args(args);
        }
        return r;
    }
    if ctx.client.deny_blocking || !ctx.client.attached {
        return ctx.reply_null_bulk();
    }
    wait_for_move(ctx, src, dst, from, to, ms);
    Ok(())
}

/// How BLMOVE ends.
pub open spec fn blmove_outcome(c: CtxV, t: Timeout) -> Outcome {
    let argv = c.client.argv;
    if argv.len() != 6 {
        fails(c, wrong_args("blmove"@))
    } else {
        match (end_named(argv[3]), end_named(argv[4])) {
            (Some(from), Some(to)) => blocking_move_outcome(
                c,
                argv[1],
                argv[2],
                from,
                to,
                t,
                seq![text("LMOVE"@), argv[1], argv[2], end_word(from), end_word(to)],
            ),
            _ => fails(c, syntax("syntax error"@)),
        }
    }
}

/// BLMOVE source destination LEFT|RIGHT LEFT|RIGHT timeout, with the timeout
/// as the caller read it.
pub fn blmove_command(ctx: &mut CommandContext, t: Timeout) -> (r: Result<(), RedisError>)
    requires
        old(ctx).wf(),
    ensures
        final(ctx).wf(),
        done(r, final(ctx)@) == blmove_outcome(old(ctx)@, t),
{
    if ctx.arg_count() != 6 {
        return Err(RedisError::wrong_number_of_args("blmove"));
    }
    let from: ListPosition = match get_list_position_from_object_or_reply(ctx.arg(3)) {
        Ok(p) => p,
        Err(e) => return Err(e),
    };
    let to: ListPosition = match get_list_position_from_object_or_reply(ctx.arg(4)) {
        Ok(p) => p,
        Err(e) => return Err(e),
    };
    let src: Vec<u8> = ctx.arg_owned(1);
    let dst: Vec<u8> = ctx.arg_owned(2);
    let mut args: Vec<Vec<u8>> = Vec::new();
    args.push(lit("LMOVE"));
    args.push(dup(&src));
    args.push(dup(&dst));
    args.push(get_string_object_from_list_position(from));
    args.push(get_string_object_from_list_position(to));
    assert(views(args@) =~= seq![text("LMOVE"@), src@, dst@, end_word(from), end_word(to)]);
    blmove_generic_command(ctx, &src, &dst, from, to, t, args)
}

/// How BRPOPLPUSH ends.
pub open spec fn brpoplpush_outcome(c: CtxV, t: Timeout) -> Outcome {
    let argv = c.client.argv;
    if argv.len() != 4 {
        fails(c, wrong_args("brpoplpush"@))
    } else {
        blocking_move_outcome(
            c,
            argv[1],
            argv[2],
            ListPosition::Tail,
            ListPosition::Head,
            t,
            seq![text("RPOPLPUSH"@), argv[1], argv[2]],
        )
    }
}

/// BRPOPLPUSH source destination timeout, with the timeout as the caller read it.
pub fn brpoplpush_command(ctx: &mut CommandContext, t: Timeout) -> (r: Result<(), RedisError>)
    requires
        old(ctx).wf(),
    ensures
        final(ctx).wf(),
        done(r, final(ctx)@) == brpoplpush_outcome(old(ctx)@, t),
{
    if ctx.arg_count() != 4 {
        return Err(RedisError::wrong_number_of_args("brpoplpush"));
    }
    let src: Vec<u8> = ctx.arg_owned(1);
    let dst: Vec<u8> = ctx.arg_owned(2);
    let mut args: Vec<Vec<u8>> = Vec::new();
    args.push(lit("RPOPLPUSH"));
    args.push(dup(&src));
    args.push(dup(&dst));
    assert(views(args@) =~= seq![text("RPOPLPUSH"@), src@, dst@]);
    blmove_generic_command(ctx, &src, &dst, ListPosition::Tail, ListPosition::Head, t, args)
}

// ---------------------------------------------------------------------------
// LMPOP, BLMPOP
// ---------------------------------------------------------------------------

/// The count of LMPOP, from an argument on.
pub open spec fn mpop_count(argv: Seq<Seq<u8>>, j: int, count: i64) -> Result<i64, ErrV>
    decreases argv.len() - j,
{
    if j >= argv.len() {
        Ok(count)
    } else if !is_word(argv[j], "count"@) || j + 1 >= argv.len() {
        Err(syntax("syntax error"@))
    } else {
        match i64_of(argv[j + 1]) {
            Some(n) if n > 0 => mpop_count(argv, j + 2, n),
            _ => Err(runtime("ERR count should be greater than 0"@)),
        }
    }
}

/// What LMPOP asks for: the keys end before position `to`.
pub struct MpopArgs {
    pub to: usize,
    pub at: ListPosition,
    pub count: i64,
}

/// The arguments of LMPOP; the number of keys stands at position `i`.
pub open spec fn mpop_args(argv: Seq<Seq<u8>>, i: int) -> Result<MpopArgs, ErrV> {
    match i64_of(argv[i]) {
        Some(n) if n > 0 => {
            let at = i + n + 1;
            if at >= argv.len() {
                Err(syntax("syntax error"@))
            } else {
                match end_named(argv[at]) {
                    None => Err(syntax("syntax error"@)),
                    Some(p) => match mpop_count(argv, at + 1, 1) {
                        Err(e) => Err(e),
                        Ok(count) => Ok(MpopArgs { to: at as usize, at: p, count }),
                    },
                }
            }
        },
        _ => Err(runtime("ERR numkeys should be greater than 0"@)),
    }
}

/// A number that is positive.
fn positive(s: &[u8]) -> (r: Option<i64>)
    ensures
        match i64_of(s@) {
            Some(n) if n > 0 => r == Some(n),
            _ => r is None,
        },
{
    match parse_i64(s) {
        Some(n) => if n > 0 {
            Some(n)
        } else {
            None
        },
        None => None,
    }
}

/// Reads the arguments of LMPOP.
fn parse_mpop(ctx: &CommandContext, i: usize) -> (r: Result<MpopArgs, RedisError>)
    requires
        i < ctx@.client.argv.len(),
    ensures
        match r {
            Ok(a) => mpop_args(ctx@.client.argv, i as int) == Ok::<_, ErrV>(a) && i < a.to
                < ctx@.client.argv.len() && a.count > 0,
            Err(e) => mpop_args(ctx@.client.argv, i as int) == Err::<MpopArgs, ErrV>(e@),
        },
{
    let ghost argv = ctx@.client.argv;
    let argc: usize = ctx.arg_count();
    let n: i64 = match positive(ctx.arg(i)) {
        None => return Err(RedisError::runtime("ERR numkeys should be greater than 0")),
        Some(n) => n,
    };
    let place: i128 = i as i128 + n as i128 + 1;
    if place >= argc as i128 {
        return Err(RedisError::syntax("syntax error"));
    }
    let to: usize = place as usize;
    let at: ListPosition = match get_list_position_from_object_or_reply(ctx.arg(to)) {
        Ok(p) => p,
        Err(e) => return Err(e),
    };
    let mut count: i64 = 1;
    let mut j: usize = to + 1;
    while j < argc
        invariant
            argv == ctx@.client.argv,
            argc == argv.len(),
            i < to < argc,
            to < j,
            count > 0,
            mpop_count(argv, to + 1, 1) == mpop_count(argv, j as int, count),
            mpop_args(argv, i as int) == match mpop_count(argv, to + 1, 1) {
                Err(e) => Err::<MpopArgs, ErrV>(e),
                Ok(n) => Ok(MpopArgs { to, at, count: n }),
            },
        decreases argc + 2 - j,
    {
        if !word(ctx.arg(j), "count") || j + 1 >= argc {
            return Err(RedisError::syntax("syntax error"));
        }
        count = match positive(ctx.arg(j + 1)) {
            None => return Err(RedisError::runtime("ERR count should be greater than 0")),
            Some(n) => n,
        };
        j += 2;
    }
    Ok(MpopArgs { to, at, count })
}

/// How LMPOP ends.
pub open spec fn lmpop_outcome(c: CtxV) -> Outcome {
    let argv = c.client.argv;
    if argv.len() < 2 {
        fails(c, wrong_args("lmpop"@))
    } else {
        match mpop_args(argv, 1) {
            Err(e) => fails(c, e),
            Ok(a) => {
                let keys = argv.subrange(2, a.to as int);
                match first_ready(c.db, keys, 0) {
                    Err(e) => fails(c, e),
                    Ok(None) => replies_one(c, Tok::NullArray),
                    Ok(Some(k)) => range_popped(c, keys[k], a.at, a.count as int),
                }
            },
        }
    }
}

/// Takes elements from the first list that has some.
fn mpop_generic_command(
    ctx: &mut CommandContext,
    keys: &Vec<Vec<u8>>,
    at: ListPosition,
    count: i64,
) -> (r: Result<(), RedisError>)
    requires
        old(ctx).wf(),
        count > 0,
    ensures
        final(ctx).wf(),
        done(r, final(ctx)@) == match first_ready(old(ctx)@.db, views(keys@), 0) {
            Err(e) => fails(old(ctx)@, e),
            Ok(None) => replies_one(old(ctx)@, Tok::NullArray),
            Ok(Some(k)) => range_popped(old(ctx)@, views(keys@)[k], at, count as int),
        },
{
    match find_ready(ctx, keys) {
        Err(e) => Err(e),
        Ok(None) => ctx.reply_null_array(),
        Ok(Some(k)) => {
            assert(views(keys@)[k as int] == keys@[k as int]@);
            list_pop_range_and_reply_with_key(ctx, &keys[k], at, count as u64)
        },
    }
}

/// LMPOP numkeys key [key ...] LEFT|RIGHT [COUNT count]
pub fn lmpop_command(ctx: &mut CommandContext) -> (r: Result<(), RedisError>)
    requires
        old(ctx).wf(),
    ensures
        final(ctx).wf(),
        done(r, final(ctx)@) == lmpop_outcome(old(ctx)@),
{
    if ctx.arg_count() < 2 {
        return Err(RedisError::wrong_number_of_args("lmpop"));
    }
    let a: MpopArgs = match parse_mpop(ctx, 1) {
        Err(e) => return Err(e),
        Ok(a) => a,
    };
    let keys: Vec<Vec<u8>> = args_between(ctx, 2, a.to);
    mpop_generic_command(ctx, &keys, a.at, a.count)
}

/// How BLMPOP ends.
pub open spec fn blmpop_outcome(c: CtxV, t: Timeout) -> Outcome {
    let argv = c.client.argv;
    if argv.len() < 3 {
        fails(c, wrong_args("blmpop"@))
    } else {
        match mpop_args(argv, 2) {
            Err(e) => fails(c, e),
            Ok(a) => blocking_pop_outcome(
                c,
                argv.subrange(3, a.to as int),
                a.at,
                t,
                Some(a.count),
            ),
        }
    }
}

/// BLMPOP timeout numkeys key [key ...] LEFT|RIGHT [COUNT count], with the
/// timeout as the caller read it.
pub fn blmpop_command(ctx: &mut CommandContext, t: Timeout) -> (r: Result<(), RedisError>)
    requires
        old(ctx).wf(),
    ensures
        final(ctx).wf(),
        done(r, final(ctx)@) == blmpop_outcome(old(ctx)@, t),
{
    if ctx.arg_count() < 3 {
        return Err(RedisError::wrong_number_of_args("blmpop"));
    }
    let a: MpopArgs = match parse_mpop(ctx, 2) {
        Err(e) => return Err(e),
        Ok(a) => a,
    };
    let keys: Vec<Vec<u8>> = args_between(ctx, 3, a.to);
    blocking_pop_generic_command(ctx, &keys, a.at, t, Some(a.count))
}

} // verus!
