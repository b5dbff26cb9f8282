//! Transactions: MULTI, EXEC, DISCARD, and the watching of keys.
//!
//! While a transaction is open, commands are queued. EXEC runs them, unless one
//! of them could not be queued or a watched key was changed since it was
//! watched.

use vstd::prelude::*;

use crate::bytes::{dup_all, is_word, lemma_views_push, lit, lower_all, put, put_text, text, to_lower, views, word};
use crate::context::{
    argv_views, done, fails, replies_one, res, says, with_argv, with_db, Client, ClientV,
    CommandContext,
    CtxV, Outcome,
};
use crate::error::{error_line, runtime, wrong_args, ErrV, RedisError};
use crate::keyspace::{db_set, db_unwatch, DbV, ObjV};
use crate::reply::{lemma_toks_add, lemma_toks_push, status, Reply, Tok};

verus! {

broadcast use {lemma_toks_push, lemma_toks_add, lemma_views_push};

// ---------------------------------------------------------------------------
// Which commands are queued
// ---------------------------------------------------------------------------

/// Whether a command is refused while a transaction is open.
pub open spec fn no_multi(name: Seq<u8>) -> bool {
    is_word(name, "MULTI"@) || is_word(name, "WATCH"@)
}

/// Whether a command runs at once while a transaction is open, or is refused;
/// it is not queued.
pub open spec fn tx_control(name: Seq<u8>) -> bool {
    no_multi(name) || is_word(name, "EXEC"@) || is_word(name, "DISCARD"@) || is_word(
        name,
        "UNWATCH"@,
    ) || is_word(name, "RESET"@)
}

/// Whether a command runs at once while a transaction is open, or is refused.
pub fn is_tx_control_command(name: &[u8]) -> (r: bool)
    ensures
        r == tx_control(name@),
{
    is_no_multi_command(name) || word(name, "EXEC") || word(name, "DISCARD") || word(
        name,
        "UNWATCH",
    ) || word(name, "RESET")
}

/// Whether a command is refused while a transaction is open.
pub fn is_no_multi_command(name: &[u8]) -> (r: bool)
    ensures
        r == no_multi(name@),
{
    word(name, "MULTI") || word(name, "WATCH")
}

/// The error of a command that is refused while a transaction is open.
pub fn reject_no_multi_command(name: &[u8]) -> (r: RedisError)
    ensures
        r@ == ErrV::Runtime(
            text("ERR Command '"@) + lower_all(name@) + text(
                "' not allowed inside a transaction"@,
            ),
        ),
{
    let mut m: Vec<u8> = lit("ERR Command '");
    let lower: Vec<u8> = to_lower(name);
    put(&mut m, &lower);
    put_text(&mut m, "' not allowed inside a transaction");
    RedisError::Runtime(m)
}

/// How the queueing of a command ends. A command that is not known makes EXEC
/// refuse the transaction.
pub open spec fn queue_outcome(c: CtxV, known: bool) -> Outcome {
    let argv = c.client.argv;
    if argv.len() == 0 {
        fails(c, runtime("ERR empty command"@))
    } else if !known {
        fails(
            CtxV { client: ClientV { dirty_exec: true, ..c.client }, ..c },
            ErrV::Runtime(text("ERR unknown command '"@) + argv[0] + text("'"@)),
        )
    } else {
        replies_one(enqueued(c), status("QUEUED"@))
    }
}

/// A queue that grows by one.
proof fn lemma_queue_push(s: Seq<Vec<Vec<u8>>>, a: Vec<Vec<u8>>)
    ensures
        argv_views(s.push(a)) == argv_views(s).push(views(a@)),
{
    assert(argv_views(s.push(a)) =~= argv_views(s).push(views(a@)));
}

/// The error of a command that is not known.
fn unknown_command(name: &[u8]) -> (r: RedisError)
    ensures
        r@ == ErrV::Runtime(text("ERR unknown command '"@) + name@ + text("'"@)),
{
    let mut m: Vec<u8> = lit("ERR unknown command '");
    put(&mut m, name);
    put_text(&mut m, "'");
    RedisError::Runtime(m)
}

/// The context with the command of the client at the end of its queue.
pub open spec fn enqueued(c: CtxV) -> CtxV {
    CtxV { client: ClientV { queued: c.client.queued.push(c.client.argv), ..c.client }, ..c }
}

/// Puts the command of the client at the end of its queue.
fn enqueue(ctx: &mut CommandContext)
    requires
        old(ctx).wf(),
    ensures
        final(ctx).wf(),
        final(ctx)@ == enqueued(old(ctx)@),
{
    let argv: Vec<Vec<u8>> = dup_all(&ctx.client.argv);
    proof {
        lemma_queue_push(ctx.client.queued_argvs@, argv);
    }
    ctx.client.queued_argvs.push(argv);
}

/// Queues the command of a client; `known` tells whether there is such a
/// command.
pub fn queue_current_command(ctx: &mut CommandContext, known: bool) -> (r: Result<(), RedisError>)
    requires
        old(ctx).wf(),
    ensures
        final(ctx).wf(),
        done(r, final(ctx)@) == queue_outcome(old(ctx)@, known),
{
    if ctx.arg_count() == 0 {
        return Err(RedisError::runtime("ERR empty command"));
    }
    if !known {
        ctx.client.dirty_exec = true;
        return Err(unknown_command(ctx.arg(0)));
    }
    enqueue(ctx);
    ctx.reply_simple_string("QUEUED")
}

// ---------------------------------------------------------------------------
// MULTI, DISCARD
// ---------------------------------------------------------------------------

/// How MULTI ends.
pub open spec fn multi_outcome(c: CtxV) -> Outcome {
    replies_one(CtxV { client: ClientV { multi: true, ..c.client }, ..c }, status("OK"@))
}

/// MULTI
pub fn multi_command(ctx: &mut CommandContext) -> (r: Result<(), RedisError>)
    requires
        old(ctx).wf(),
    ensures
        final(ctx).wf(),
        done(r, final(ctx)@) == multi_outcome(old(ctx)@),
{
    ctx.client.multi = true;
    ctx.reply_simple_string("OK")
}

/// The context without a transaction: no queue, no marks, no watched keys.
pub open spec fn multi_reset(c: CtxV) -> CtxV {
    let d = db_unwatch(c.db, c.client.id);
    CtxV {
        client: ClientV {
            queued: Seq::empty(),
            multi: false,
            dirty_cas: false,
            dirty_exec: false,
            ..c.client
        },
        db: DbV { dirty: d.dirty.remove(c.client.id), ..d },
        ..c
    }
}

/// Gives a transaction up.
pub fn reset_multi_state(ctx: &mut CommandContext)
    requires
        old(ctx).wf(),
    ensures
        final(ctx).wf(),
        final(ctx)@ == multi_reset(old(ctx)@),
{
    ctx.client.queued_argvs.clear();
    assert(argv_views(ctx.client.queued_argvs@) =~= Seq::empty());
    ctx.client.multi = false;
    ctx.client.dirty_cas = false;
    ctx.client.dirty_exec = false;
    let id: u64 = ctx.client.id;
    ctx.db.unwatch(id);
    let _was: bool = ctx.db.take_dirty(id);
}

/// How DISCARD ends.
pub open spec fn discard_outcome(c: CtxV) -> Outcome {
    if !c.client.multi {
        fails(c, runtime("ERR DISCARD without MULTI"@))
    } else {
        replies_one(multi_reset(c), status("OK"@))
    }
}

/// DISCARD
pub fn discard_command(ctx: &mut CommandContext) -> (r: Result<(), RedisError>)
    requires
        old(ctx).wf(),
    ensures
        final(ctx).wf(),
        done(r, final(ctx)@) == discard_outcome(old(ctx)@),
{
    if !ctx.client.multi {
        return Err(RedisError::runtime("ERR DISCARD without MULTI"));
    }
    reset_multi_state(ctx);
    ctx.reply_simple_string("OK")
}

// ---------------------------------------------------------------------------
// EXEC
// ---------------------------------------------------------------------------

/// The context after the marks of changed keys were taken in.
pub open spec fn marks_taken(c: CtxV) -> CtxV {
    CtxV {
        client: ClientV {
            dirty_cas: c.client.dirty_cas || c.db.dirty.contains(c.client.id),
            ..c.client
        },
        db: DbV { dirty: c.db.dirty.remove(c.client.id), ..c.db },
        ..c
    }
}

/// How EXEC begins: with the commands to run, or with none where it ends at
/// once.
pub open spec fn exec_step(c: CtxV) -> (Outcome, Option<Seq<Seq<Seq<u8>>>>) {
    let c1 = marks_taken(c);
    if !c.client.multi {
        (fails(c, runtime("ERR EXEC without MULTI"@)), None)
    } else if c.client.dirty_exec {
        (
            fails(
                multi_reset(c1),
                runtime("EXECABORT Transaction discarded because of previous errors."@),
            ),
            None,
        )
    } else if c1.client.dirty_cas {
        (replies_one(multi_reset(c1), Tok::NullArray), None)
    } else {
        (
            replies_one(
                CtxV {
                    client: ClientV { queued: Seq::empty(), multi: false, ..c1.client },
                    ..c1
                },
                Tok::Array(c.client.queued.len()),
            ),
            Some(c.client.queued),
        )
    }
}

/// What is left to do after EXEC began.
pub enum ExecAction {
    /// Nothing: the transaction was refused, and the reply says so.
    Nothing,
    /// Run these commands one after the other, each between `begin_queued` and
    /// `end_queued`, and then `reset_multi_state`.
    Run(Vec<Vec<Vec<u8>>>),
}

/// What an action says.
pub open spec fn exec_view(a: ExecAction) -> Option<Seq<Seq<Seq<u8>>>> {
    match a {
        ExecAction::Nothing => None,
        ExecAction::Run(v) => Some(argv_views(v@)),
    }
}

/// Notes whether a key that a client watches was changed.
fn note_changed(client: &mut Client, changed: bool)
    ensures
        final(client)@ == (ClientV {
            dirty_cas: old(client)@.dirty_cas || changed,
            ..old(client)@
        }),
{
    if changed {
        client.dirty_cas = true;
    }
}

/// Takes in the marks of changed keys.
fn take_marks(ctx: &mut CommandContext)
    requires
        old(ctx).wf(),
    ensures
        final(ctx).wf(),
        final(ctx)@ == marks_taken(old(ctx)@),
{
    let id: u64 = ctx.client.id;
    let changed: bool = ctx.db.take_dirty(id);
    note_changed(&mut ctx.client, changed);
}

/// Takes the queue of a client and ends its transaction.
fn take_queue(client: &mut Client) -> (r: Vec<Vec<Vec<u8>>>)
    ensures
        argv_views(r@) == old(client)@.queued,
        r@.len() == old(client)@.queued.len(),
        final(client)@ == (ClientV { queued: Seq::empty(), multi: false, ..old(client)@ }),
{
    let mut queued: Vec<Vec<Vec<u8>>> = Vec::new();
    std::mem::swap(&mut queued, &mut client.queued_argvs);
    client.multi = false;
    assert(client@.queued =~= Seq::empty());
    queued
}

/// EXEC
pub fn exec_command(ctx: &mut CommandContext) -> (r: Result<ExecAction, RedisError>)
    requires
        old(ctx).wf(),
    ensures
        final(ctx).wf(),
        match r {
            Ok(a) => (
                Outcome { result: Ok(()), ctx: final(ctx)@ },
                exec_view(a),
            ) == exec_step(old(ctx)@),
            Err(e) => (fails(final(ctx)@, e@), None::<Seq<Seq<Seq<u8>>>>) == exec_step(old(ctx)@),
        },
{
    if !ctx.client.multi {
        return Err(RedisError::runtime("ERR EXEC without MULTI"));
    }
    take_marks(ctx);
    if ctx.client.dirty_exec {
        reset_multi_state(ctx);
        return Err(
            RedisError::runtime("EXECABORT Transaction discarded because of previous errors."),
        );
    }
    if ctx.client.dirty_cas {
        reset_multi_state(ctx);
        ctx.reply(Reply::NullArray);
        return Ok(ExecAction::Nothing);
    }
    let queued: Vec<Vec<Vec<u8>>> = take_queue(&mut ctx.client);
    ctx.reply(Reply::Array(queued.len() as u128));
    Ok(ExecAction::Run(queued))
}

/// The context in which a queued command runs.
pub open spec fn queued_begun(c: CtxV, argv: Seq<Seq<u8>>) -> CtxV {
    if argv.len() == 0 {
        says(with_argv(c, argv), seq![Tok::Error(text("ERR empty queued command"@))])
    } else {
        with_argv(c, argv)
    }
}

/// Makes a queued command the current one. Gives the name of the command to run;
/// an empty one has none, and its error is the reply.
pub fn begin_queued(ctx: &mut CommandContext, argv: Vec<Vec<u8>>) -> (r: Option<Vec<u8>>)
    requires
        old(ctx).wf(),
    ensures
        final(ctx).wf(),
        final(ctx)@ == queued_begun(old(ctx)@, views(argv@)),
        match r {
            Some(name) => argv@.len() > 0 && name@ == argv@[0]@,
            None => argv@.len() == 0,
        },
{
    let ghost all = views(argv@);
    ctx.set_args(argv);
    if ctx.arg_count() == 0 {
        ctx.reply(Reply::Error(lit("ERR empty queued command")));
        return None;
    }
    assert(all[0] == argv@[0]@);
    Some(ctx.arg_owned(0))
}

/// The context after a queued command: an error becomes its part of the reply.
pub open spec fn queued_ended(c: CtxV, r: Result<(), ErrV>) -> CtxV {
    match r {
        Ok(_) => c,
        Err(e) => says(c, seq![Tok::Error(error_line(e))]),
    }
}

/// Takes the result of a queued command in.
pub fn end_queued(ctx: &mut CommandContext, result: Result<(), RedisError>)
    requires
        old(ctx).wf(),
    ensures
        final(ctx).wf(),
        final(ctx)@ == queued_ended(old(ctx)@, res(result)),
{
    match result {
        Ok(_) => {},
        Err(e) => {
            ctx.reply(Reply::Error(e.to_resp_payload()));
        },
    }
}

// ---------------------------------------------------------------------------
// WATCH, UNWATCH
// ---------------------------------------------------------------------------

/// The database after a client watches keys.
pub open spec fn db_watch_all(d: DbV, keys: Seq<Seq<u8>>, client: u64) -> DbV
    decreases keys.len(),
{
    if keys.len() == 0 {
        d
    } else {
        let before = db_watch_all(d, keys.drop_last(), client);
        DbV { watchers: before.watchers.insert((keys.last(), client)), ..before }
    }
}

/// How WATCH ends.
pub open spec fn watch_outcome(c: CtxV) -> Outcome {
    let argv = c.client.argv;
    if argv.len() < 2 {
        fails(c, wrong_args("WATCH"@))
    } else {
        replies_one(with_db(c, db_watch_all(c.db, argv.skip(1), c.client.id)), status("OK"@))
    }
}

/// WATCH key [key ...]
pub fn watch_command(ctx: &mut CommandContext) -> (r: Result<(), RedisError>)
    requires
        old(ctx).wf(),
    ensures
        final(ctx).wf(),
        done(r, final(ctx)@) == watch_outcome(old(ctx)@),
{
    let ghost c = ctx@;
    let ghost keys = c.client.argv.skip(1);
    let argc: usize = ctx.arg_count();
    if argc < 2 {
        return Err(RedisError::wrong_number_of_args("WATCH"));
    }
    let id: u64 = ctx.client.id;
    let mut j: usize = 1;
    assert(keys.take(0) =~= Seq::empty());
    while j < argc
        invariant
            1 <= j <= argc == c.client.argv.len(),
            keys == c.client.argv.skip(1),
            id == c.client.id,
            ctx.wf(),
            ctx@ == with_db(c, db_watch_all(c.db, keys.take(j - 1), id)),
        decreases argc - j,
    {
        let key: Vec<u8> = ctx.arg_owned(j);
        ctx.db.watch(&key, id);
        assert(keys.take(j as int).drop_last() =~= keys.take(j - 1));
        assert(keys.take(j as int).last() == key@);
        j += 1;
    }
    assert(keys.take(keys.len() as int) =~= keys);
    ctx.reply_simple_string("OK")
}

/// How UNWATCH ends.
pub open spec fn unwatch_outcome(c: CtxV) -> Outcome {
    let d = db_unwatch(c.db, c.client.id);
    replies_one(
        CtxV {
            client: ClientV { dirty_cas: false, ..c.client },
            db: DbV { dirty: d.dirty.remove(c.client.id), ..d },
            ..c
        },
        status("OK"@),
    )
}

/// UNWATCH
pub fn unwatch_command(ctx: &mut CommandContext) -> (r: Result<(), RedisError>)
    requires
        old(ctx).wf(),
    ensures
        final(ctx).wf(),
        done(r, final(ctx)@) == unwatch_outcome(old(ctx)@),
{
    let id: u64 = ctx.client.id;
    ctx.db.unwatch(id);
    let _was: bool = ctx.db.take_dirty(id);
    ctx.client.dirty_cas = false;
    ctx.reply_simple_string("OK")
}

// ---------------------------------------------------------------------------
// Laws
// ---------------------------------------------------------------------------

/// A command that is refused inside a transaction is never queued.
pub proof fn law_refused_commands_are_not_queued(name: Seq<u8>)
    ensures
        no_multi(name) ==> tx_control(name),
{
}

/// After DISCARD nothing of the transaction is left: no open transaction, no
/// queue, no marks, and no key that the client watches. The data stays.
pub proof fn law_discard_forgets(c: CtxV, key: Seq<u8>)
    requires
        c.client.multi,
    ensures
        ({
            let o = discard_outcome(c);
            &&& o.result is Ok
            &&& !o.ctx.client.multi && !o.ctx.client.dirty_cas && !o.ctx.client.dirty_exec
            &&& o.ctx.client.queued.len() == 0
            &&& !o.ctx.db.watchers.contains((key, c.client.id))
            &&& !o.ctx.db.dirty.contains(c.client.id)
            &&& o.ctx.db.objects == c.db.objects
        }),
{
}

/// WATCH watches each of its keys.
proof fn lemma_watch_all(d: DbV, keys: Seq<Seq<u8>>, client: u64, i: int)
    requires
        0 <= i < keys.len(),
    ensures
        db_watch_all(d, keys, client).watchers.contains((keys[i], client)),
        db_watch_all(d, keys, client).objects == d.objects,
        db_watch_all(d, keys, client).dirty == d.dirty,
    decreases keys.len(),
{
    if keys.len() > 1 {
        lemma_watch_all(d, keys.drop_last(), client, if i < keys.len() - 1 { i } else { 0 });
    } else {
        reveal_with_fuel(db_watch_all, 2);
    }
}

/// Where a watched key is stored between WATCH and EXEC, EXEC runs nothing: its
/// reply is the null array, and the data is as the other store left it.
pub proof fn law_exec_refuses_after_a_watched_key_changed(
    c: CtxV,
    i: int,
    value: ObjV,
    keep: bool,
    queue: Seq<Seq<Seq<u8>>>,
)
    requires
        1 <= i < c.client.argv.len(),
    ensures
        ({
            let watched = watch_outcome(c).ctx;
            let changed = with_db(watched, db_set(watched.db, c.client.argv[i], value, keep));
            let open = CtxV {
                client: ClientV {
                    multi: true,
                    dirty_exec: false,
                    queued: queue,
                    ..changed.client
                },
                ..changed
            };
            let (o, run) = exec_step(open);
            &&& o.result is Ok
            &&& run is None
            &&& o.ctx.replies == open.replies.push(Tok::NullArray)
            &&& o.ctx.db.objects == changed.db.objects
            &&& !o.ctx.client.multi
        }),
{
    let keys = c.client.argv.skip(1);
    assert(keys[i - 1] == c.client.argv[i]);
    lemma_watch_all(c.db, keys, c.client.id, i - 1);
    let watched = watch_outcome(c).ctx;
    let changed = with_db(watched, db_set(watched.db, c.client.argv[i], value, keep));
    assert(changed.db.dirty.contains(c.client.id));
    let open = CtxV {
        client: ClientV { multi: true, dirty_exec: false, queued: queue, ..changed.client },
        ..changed
    };
    assert(exec_step(open).0.ctx.replies =~= open.replies.push(Tok::NullArray));
}

/// A command that is not known makes EXEC refuse the whole transaction.
pub proof fn law_unknown_command_spoils_the_transaction(c: CtxV)
    requires
        c.client.multi,
        c.client.argv.len() > 0,
    ensures
        ({
            let o = exec_step(queue_outcome(c, false).ctx);
            &&& o.0.result is Err
            &&& o.1 is None
            &&& o.0.ctx.db.objects == c.db.objects
            &&& !o.0.ctx.client.multi
        }),
{
}

/// MULTI, one queued command and EXEC: the command to run is the queued one, and
/// the reply is an array of one.
pub proof fn law_exec_runs_what_was_queued(c: CtxV, argv: Seq<Seq<u8>>)
    requires
        argv.len() > 0,
        c.client.queued.len() == 0,
        !c.client.dirty_exec,
        !c.client.dirty_cas,
        !c.db.dirty.contains(c.client.id),
    ensures
        ({
            let queued = queue_outcome(with_argv(multi_outcome(c).ctx, argv), true).ctx;
            let (o, run) = exec_step(queued);
            &&& o.result is Ok
            &&& run == Some(seq![argv])
            &&& o.ctx.replies == queued.replies.push(Tok::Array(1))
        }),
{
    let queued = queue_outcome(with_argv(multi_outcome(c).ctx, argv), true).ctx;
    assert(queued.client.queued =~= seq![argv]);
    assert(exec_step(queued).0.ctx.replies =~= queued.replies.push(Tok::Array(1)));
}

} // verus!
