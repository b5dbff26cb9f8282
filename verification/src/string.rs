//! String commands: SET and its relatives, GET and its relatives, counters and
//! ranges.

use vstd::prelude::*;

use crate::bytes::{
    dec, dup, fmt_i64, i64_of, is_word, lemma_views_push, lit, parse_i64, put, same, slice, text,
    views, word,
};
use crate::context::{
    counts_dirty, done, fails, not_propagated, raises, raises_if, replies_one, says, with_argv,
    with_db, CommandContext, CtxV, EventClass, Outcome,
};
use crate::error::{runtime, wrong_args, ErrV, RedisError};
use crate::keyspace::{
    db_delete, db_expire, db_get, db_persist, db_set, db_ttl, str_in, DbV, ObjV, RedisObject,
};
use crate::reply::{bulk_or_null, lemma_toks_add, lemma_toks_push, status, Reply, Tok};

verus! {

broadcast use {lemma_toks_push, lemma_toks_add, lemma_views_push};

/// The longest string that a command may build, in bytes.
pub const PROTO_MAX_BULK_LEN_DEFAULT: usize = 536870912;

/// The unit of an expiry time.
#[derive(Debug, Clone, Copy, PartialEq, Eq, Structural)]
pub enum Unit {
    Seconds,
    Milliseconds,
}

/// The command that an expiry option belongs to.
#[derive(Debug, Clone, Copy, PartialEq, Eq, Structural)]
pub enum CommandKind {
    /// SET
    Store,
    /// GETEX
    Get,
    /// MSETEX
    Mset,
}

/// The form of an expiry option.
#[derive(Debug, Clone, Copy, PartialEq, Eq, Structural)]
pub enum ExpireForm {
    /// EX: seconds from now.
    Ex,
    /// PX: milliseconds from now.
    Px,
    /// EXAT: a time in seconds.
    ExAt,
    /// PXAT: a time in milliseconds.
    PxAt,
}

/// A number, where it fits.
pub open spec fn fits(n: int) -> Option<i64> {
    if i64::MIN <= n <= i64::MAX {
        Some(n as i64)
    } else {
        None
    }
}

/// A number, where it fits.
fn narrow(n: i128) -> (r: Option<i64>)
    ensures
        r == fits(n as int),
{
    if -0x8000_0000_0000_0000 <= n && n <= 0x7fff_ffff_ffff_ffff {
        Some(n as i64)
    } else {
        None
    }
}

/// The milliseconds in a unit.
pub open spec fn millis(u: Unit) -> int {
    match u {
        Unit::Seconds => 1000,
        Unit::Milliseconds => 1,
    }
}

/// The time that lies `n` units after `now`, where it and the distance fit.
pub open spec fn time_after(n: i64, u: Unit, now: i64) -> Option<i64> {
    if fits(n * millis(u)) is Some {
        fits(n * millis(u) + now)
    } else {
        None
    }
}

/// The time that lies `n` units after `now`.
pub fn deadline_after(n: i64, u: Unit, now: i64) -> (r: Option<i64>)
    ensures
        r == time_after(n, u, now),
{
    let scale: i128 = match u {
        Unit::Seconds => 1000,
        Unit::Milliseconds => 1,
    };
    let far: i128 = if scale == 1 { n as i128 } else { 1000 * (n as i128) };
    match narrow(far) {
        None => None,
        Some(_) => narrow(far + now as i128),
    }
}

/// The form of an expiry option, by its name.
pub open spec fn expire_form(a: Seq<u8>) -> Option<ExpireForm> {
    if is_word(a, "EX"@) {
        Some(ExpireForm::Ex)
    } else if is_word(a, "PX"@) {
        Some(ExpireForm::Px)
    } else if is_word(a, "EXAT"@) {
        Some(ExpireForm::ExAt)
    } else if is_word(a, "PXAT"@) {
        Some(ExpireForm::PxAt)
    } else {
        None
    }
}

/// The form of an expiry option, by its name.
pub fn parse_expire_form(a: &[u8]) -> (r: Option<ExpireForm>)
    ensures
        r == expire_form(a@),
{
    if word(a, "EX") {
        Some(ExpireForm::Ex)
    } else if word(a, "PX") {
        Some(ExpireForm::Px)
    } else if word(a, "EXAT") {
        Some(ExpireForm::ExAt)
    } else if word(a, "PXAT") {
        Some(ExpireForm::PxAt)
    } else {
        None
    }
}

/// The error for an expiry time that is not accepted.
pub open spec fn bad_expiry(kind: CommandKind) -> ErrV {
    match kind {
        CommandKind::Store => runtime("ERR invalid expire time in 'set' command"@),
        CommandKind::Get => runtime("ERR invalid expire time in 'getex' command"@),
        CommandKind::Mset => runtime("ERR invalid expire time in 'msetex' command"@),
    }
}

/// The error for an expiry time that is not accepted.
fn bad_expiry_error(kind: CommandKind) -> (r: RedisError)
    ensures
        r@ == bad_expiry(kind),
{
    match kind {
        CommandKind::Store => RedisError::runtime("ERR invalid expire time in 'set' command"),
        CommandKind::Get => RedisError::runtime("ERR invalid expire time in 'getex' command"),
        CommandKind::Mset => RedisError::runtime("ERR invalid expire time in 'msetex' command"),
    }
}

/// Whether a command takes that number as an expiry time.
pub open spec fn expiry_accepted(kind: CommandKind, form: ExpireForm, raw: i64) -> bool {
    match kind {
        CommandKind::Store => raw > 0 || (raw == 0 && (form == ExpireForm::ExAt || form
            == ExpireForm::PxAt)),
        CommandKind::Get => raw > 0 || form == ExpireForm::ExAt || form == ExpireForm::PxAt,
        CommandKind::Mset => raw > 0,
    }
}

/// The time in milliseconds that an expiry option names.
pub open spec fn expiry_time(form: ExpireForm, raw: i64, now: i64) -> Option<i64> {
    match form {
        ExpireForm::Ex => time_after(raw, Unit::Seconds, now),
        ExpireForm::Px => time_after(raw, Unit::Milliseconds, now),
        ExpireForm::ExAt => fits(1000 * raw),
        ExpireForm::PxAt => Some(raw),
    }
}

/// The time that an expiry option with that argument names, or its error.
pub open spec fn expiry(
    kind: CommandKind,
    form: ExpireForm,
    arg: Seq<u8>,
    now: i64,
) -> Result<i64, ErrV> {
    match i64_of(arg) {
        None => Err(runtime("ERR value is not an integer or out of range"@)),
        Some(raw) => if !expiry_accepted(kind, form, raw) {
            Err(bad_expiry(kind))
        } else {
            match expiry_time(form, raw, now) {
                None => Err(bad_expiry(kind)),
                Some(at) => Ok(at),
            }
        },
    }
}

/// The time that an expiry option with that argument names, or its error.
pub fn parse_expiry(kind: CommandKind, form: ExpireForm, arg: &[u8], now: i64) -> (r: Result<
    i64,
    RedisError,
>)
    ensures
        match r {
            Ok(at) => expiry(kind, form, arg@, now) == Ok::<i64, ErrV>(at),
            Err(e) => expiry(kind, form, arg@, now) == Err::<i64, ErrV>(e@),
        },
{
    let raw: i64 = match parse_i64(arg) {
        None => return Err(RedisError::runtime("ERR value is not an integer or out of range")),
        Some(n) => n,
    };
    let absolute: bool = match form {
        ExpireForm::ExAt | ExpireForm::PxAt => true,
        _ => false,
    };
    let accepted: bool = match kind {
        CommandKind::Store => raw > 0 || (raw == 0 && absolute),
        CommandKind::Get => raw > 0 || absolute,
        CommandKind::Mset => raw > 0,
    };
    if !accepted {
        return Err(bad_expiry_error(kind));
    }
    let at: Option<i64> = match form {
        ExpireForm::Ex => deadline_after(raw, Unit::Seconds, now),
        ExpireForm::Px => deadline_after(raw, Unit::Milliseconds, now),
        ExpireForm::ExAt => narrow(1000 * (raw as i128)),
        ExpireForm::PxAt => Some(raw),
    };
    match at {
        None => Err(bad_expiry_error(kind)),
        Some(at) => Ok(at),
    }
}

/// A command of a name and a key.
fn argv_of_key(name: &str, key: &[u8]) -> (r: Vec<Vec<u8>>)
    ensures
        views(r@) == seq![text(name@), key@],
{
    let mut r: Vec<Vec<u8>> = Vec::new();
    r.push(lit(name));
    r.push(dup(key));
    assert(views(r@) =~= seq![text(name@), key@]);
    r
}

/// SET with an absolute expiry time, as it is handed on.
pub open spec fn set_pxat_argv(key: Seq<u8>, value: Seq<u8>, at: i64) -> Seq<Seq<u8>> {
    seq![text("SET"@), key, value, text("PXAT"@), dec(at as int)]
}

/// SET with an absolute expiry time, as it is handed on.
fn set_pxat_args(key: &[u8], value: &[u8], at: i64) -> (r: Vec<Vec<u8>>)
    ensures
        views(r@) == set_pxat_argv(key@, value@, at),
{
    let mut r: Vec<Vec<u8>> = Vec::new();
    r.push(lit("SET"));
    r.push(dup(key));
    r.push(dup(value));
    r.push(lit("PXAT"));
    r.push(fmt_i64(at));
    assert(views(r@) =~= set_pxat_argv(key@, value@, at));
    r
}

/// The database after a key got an expiry time: one that has passed deletes it.
pub open spec fn db_expire_or_delete(d: DbV, key: Seq<u8>, at: i64, now: i64) -> DbV {
    if at <= now {
        db_delete(d, key)
    } else {
        db_expire(d, key, at)
    }
}

/// Gives a key an expiry time; one that has passed deletes it.
pub fn expire_or_delete(ctx: &mut CommandContext, key: &[u8], at: i64)
    requires
        old(ctx).wf(),
    ensures
        final(ctx).wf(),
        final(ctx)@ == with_db(
            old(ctx)@,
            db_expire_or_delete(old(ctx)@.db, key@, at, old(ctx)@.now),
        ),
{
    if at <= ctx.now_ms {
        let _existed: bool = ctx.db.sync_delete(key);
    } else {
        ctx.db.set_expire(key, at);
    }
}

/// A copy of the string under a key.
pub fn string_copy(ctx: &CommandContext, key: &[u8]) -> (r: Result<Option<Vec<u8>>, RedisError>)
    requires
        ctx.wf(),
    ensures
        match r {
            Ok(Some(s)) => str_in(ctx@.db, key@) == Ok::<_, ErrV>(Some(s@)),
            Ok(None) => str_in(ctx@.db, key@) == Ok::<Option<Seq<u8>>, ErrV>(None),
            Err(e) => str_in(ctx@.db, key@) == Err::<Option<Seq<u8>>, ErrV>(e@),
        },
{
    match ctx.db.string_at(key) {
        Ok(Some(s)) => Ok(Some(dup(s))),
        Ok(None) => Ok(None),
        Err(e) => Err(e),
    }
}

/// Replies with a bulk string, or with the null bulk string.
fn reply_optional_bulk(ctx: &mut CommandContext, bytes: Option<Vec<u8>>) -> (r: Result<
    (),
    RedisError,
>)
    ensures
        done(r, final(ctx)@) == replies_one(
            old(ctx)@,
            bulk_or_null(crate::bytes::opt_view(bytes)),
        ),
        final(ctx).db == old(ctx).db,
{
    match bytes {
        None => ctx.reply_null_bulk(),
        Some(b) => ctx.reply_bulk(b),
    }
}

// ---------------------------------------------------------------------------
// SET
// ---------------------------------------------------------------------------

/// The options of SET.
pub struct SetOptions {
    pub nx: bool,
    pub xx: bool,
    pub get: bool,
    pub keepttl: bool,
    pub ifeq: Option<Vec<u8>>,
    /// The expiry option, with the time that it names.
    pub expire: Option<(ExpireForm, i64)>,
}

/// The options of SET.
#[verifier::ext_equal]
pub struct SetOptsV {
    pub nx: bool,
    pub xx: bool,
    pub get: bool,
    pub keepttl: bool,
    pub ifeq: Option<Seq<u8>>,
    pub expire: Option<(ExpireForm, i64)>,
}

impl View for SetOptions {
    type V = SetOptsV;

    open spec fn view(&self) -> SetOptsV {
        SetOptsV {
            nx: self.nx,
            xx: self.xx,
            get: self.get,
            keepttl: self.keepttl,
            ifeq: crate::bytes::opt_view(self.ifeq),
            expire: self.expire,
        }
    }
}

/// No options.
pub open spec fn no_set_options() -> SetOptsV {
    SetOptsV { nx: false, xx: false, get: false, keepttl: false, ifeq: None, expire: None }
}

/// The error of a malformed command.
pub open spec fn syntax_line() -> ErrV {
    runtime("ERR syntax error"@)
}

/// The options of SET from argument `j` on, after those in `o`.
pub open spec fn set_options(argv: Seq<Seq<u8>>, j: int, o: SetOptsV, now: i64) -> Result<
    SetOptsV,
    ErrV,
>
    decreases argv.len() - j,
{
    if j < 0 || j >= argv.len() {
        Ok(o)
    } else if is_word(argv[j], "NX"@) {
        if o.xx || o.ifeq is Some {
            Err(syntax_line())
        } else {
            set_options(argv, j + 1, SetOptsV { nx: true, ..o }, now)
        }
    } else if is_word(argv[j], "XX"@) {
        if o.nx || o.ifeq is Some {
            Err(syntax_line())
        } else {
            set_options(argv, j + 1, SetOptsV { xx: true, ..o }, now)
        }
    } else if is_word(argv[j], "IFEQ"@) {
        if o.nx || o.xx || o.ifeq is Some || j + 1 >= argv.len() {
            Err(syntax_line())
        } else {
            set_options(argv, j + 2, SetOptsV { ifeq: Some(argv[j + 1]), ..o }, now)
        }
    } else if is_word(argv[j], "GET"@) {
        set_options(argv, j + 1, SetOptsV { get: true, ..o }, now)
    } else if is_word(argv[j], "KEEPTTL"@) {
        if o.expire is Some {
            Err(syntax_line())
        } else {
            set_options(argv, j + 1, SetOptsV { keepttl: true, ..o }, now)
        }
    } else {
        match expire_form(argv[j]) {
            None => Err(syntax_line()),
            Some(form) => if o.expire is Some || o.keepttl || j + 1 >= argv.len() {
                Err(syntax_line())
            } else {
                match expiry(CommandKind::Store, form, argv[j + 1], now) {
                    Err(e) => Err(e),
                    Ok(at) => set_options(
                        argv,
                        j + 2,
                        SetOptsV { expire: Some((form, at)), ..o },
                        now,
                    ),
                }
            },
        }
    }
}

/// Parses the options of SET.
fn parse_set_options(argv: &[Vec<u8>], now: i64) -> (r: Result<SetOptions, RedisError>)
    requires
        argv@.len() >= 3,
    ensures
        match r {
            Ok(o) => set_options(views(argv@), 3, no_set_options(), now) == Ok::<_, ErrV>(o@),
            Err(e) => set_options(views(argv@), 3, no_set_options(), now) == Err::<SetOptsV, ErrV>(
                e@,
            ),
        },
{
    let ghost all = views(argv@);
    let ghost whole = set_options(all, 3, no_set_options(), now);
    let argc: usize = argv.len();
    let mut o = SetOptions {
        nx: false,
        xx: false,
        get: false,
        keepttl: false,
        ifeq: None,
        expire: None,
    };
    let mut j: usize = 3;
    assert(o@ =~= no_set_options());
    while j < argc
        invariant
            argc == argv@.len(),
            all == views(argv@),
            3 <= j <= argc,
            whole == set_options(all, 3, no_set_options(), now),
            whole == set_options(all, j as int, o@, now),
        decreases argc - j,
    {
        let ghost was = o@;
        let a: &Vec<u8> = &argv[j];
        assert(a@ == all[j as int]);
        if word(a, "NX") {
            if o.xx || o.ifeq.is_some() {
                return Err(RedisError::runtime("ERR syntax error"));
            }
            o.nx = true;
            assert(o@ =~= SetOptsV { nx: true, ..was });
            j += 1;
        } else if word(a, "XX") {
            if o.nx || o.ifeq.is_some() {
                return Err(RedisError::runtime("ERR syntax error"));
            }
            o.xx = true;
            assert(o@ =~= SetOptsV { xx: true, ..was });
            j += 1;
        } else if word(a, "IFEQ") {
            if o.nx || o.xx || o.ifeq.is_some() || argc - j < 2 {
                return Err(RedisError::runtime("ERR syntax error"));
            }
            o.ifeq = Some(dup(&argv[j + 1]));
            assert(o@ =~= SetOptsV { ifeq: Some(all[j + 1]), ..was });
            j += 2;
        } else if word(a, "GET") {
            o.get = true;
            assert(o@ =~= SetOptsV { get: true, ..was });
            j += 1;
        } else if word(a, "KEEPTTL") {
            if o.expire.is_some() {
                return Err(RedisError::runtime("ERR syntax error"));
            }
            o.keepttl = true;
            assert(o@ =~= SetOptsV { keepttl: true, ..was });
            j += 1;
        } else {
            let form: ExpireForm = match parse_expire_form(a) {
                None => return Err(RedisError::runtime("ERR syntax error")),
                Some(f) => f,
            };
            if o.expire.is_some() || o.keepttl || argc - j < 2 {
                return Err(RedisError::runtime("ERR syntax error"));
            }
            match parse_expiry(CommandKind::Store, form, &argv[j + 1], now) {
                Err(e) => return Err(e),
                Ok(at) => {
                    o.expire = Some((form, at));
                    assert(o@ =~= SetOptsV { expire: Some((form, at)), ..was });
                },
            }
            j += 2;
        }
    }
    Ok(o)
}

/// The value that SET reads before it writes: it does so for GET and IFEQ.
pub open spec fn set_reads(d: DbV, key: Seq<u8>, o: SetOptsV) -> Result<Option<Seq<u8>>, ErrV> {
    if o.get || o.ifeq is Some {
        str_in(d, key)
    } else {
        Ok(None)
    }
}

/// Whether the conditions of SET keep it from writing.
pub open spec fn set_refused(d: DbV, key: Seq<u8>, o: SetOptsV, prev: Option<Seq<u8>>) -> bool {
    ||| o.ifeq is Some && prev != o.ifeq
    ||| o.nx && db_get(d, key) is Some
    ||| o.xx && db_get(d, key) is None
}

/// The context after SET has written.
pub open spec fn set_written(c: CtxV, key: Seq<u8>, value: Seq<u8>, o: SetOptsV) -> CtxV {
    let c1 = with_db(c, db_set(c.db, key, ObjV::Str(value), o.keepttl));
    let c2 = raises(c1, EventClass::Str, "set"@, key);
    let c3 = raises_if(db_get(c.db, key) is None, c2, EventClass::New, "new"@, key);
    let c4 = match o.expire {
        None => c3,
        Some((form, at)) => {
            let e = with_db(c3, db_expire_or_delete(c3.db, key, at, c.now));
            if form == ExpireForm::PxAt {
                e
            } else {
                with_argv(e, set_pxat_argv(key, value, at))
            }
        },
    };
    counts_dirty(c4, 1)
}

/// How SET ends.
pub open spec fn set_outcome(c: CtxV) -> Outcome {
    let argv = c.client.argv;
    if argv.len() < 3 {
        fails(c, wrong_args("set"@))
    } else {
        match set_options(argv, 3, no_set_options(), c.now) {
            Err(e) => fails(c, e),
            Ok(o) => match set_reads(c.db, argv[1], o) {
                Err(e) => fails(c, e),
                Ok(prev) => if set_refused(c.db, argv[1], o, prev) {
                    replies_one(
                        not_propagated(c),
                        if o.get {
                            bulk_or_null(prev)
                        } else {
                            Tok::NullBulk
                        },
                    )
                } else {
                    replies_one(
                        set_written(c, argv[1], argv[2], o),
                        if o.get {
                            bulk_or_null(prev)
                        } else {
                            status("OK"@)
                        },
                    )
                },
            },
        }
    }
}

/// Writes what SET writes.
fn set_write(ctx: &mut CommandContext, key: &[u8], value: &[u8], o: &SetOptions)
    requires
        old(ctx).wf(),
    ensures
        final(ctx).wf(),
        final(ctx)@ == set_written(old(ctx)@, key@, value@, o@),
{
    let fresh: bool = !ctx.db.has_key(key);
    ctx.db.set_key(dup(key), RedisObject::Str(dup(value)), o.keepttl);
    ctx.notify_keyspace_event(EventClass::Str, "set", key);
    if fresh {
        ctx.notify_keyspace_event(EventClass::New, "new", key);
    }
    match o.expire {
        None => {},
        Some((form, at)) => {
            expire_or_delete(ctx, key, at);
            match form {
                ExpireForm::PxAt => {},
                _ => ctx.set_args(set_pxat_args(key, value, at)),
            }
        },
    }
    ctx.add_dirty(1);
}

/// SET key value [NX|XX|IFEQ v] [GET] [EX s|PX ms|EXAT s|PXAT ms|KEEPTTL]
pub fn set_command(ctx: &mut CommandContext) -> (r: Result<(), RedisError>)
    requires
        old(ctx).wf(),
    ensures
        final(ctx).wf(),
        done(r, final(ctx)@) == set_outcome(old(ctx)@),
{
    if ctx.arg_count() < 3 {
        return Err(RedisError::wrong_number_of_args("set"));
    }
    let key: Vec<u8> = ctx.arg_owned(1);
    let value: Vec<u8> = ctx.arg_owned(2);
    let o: SetOptions = match parse_set_options(&ctx.client.argv, ctx.now_ms) {
        Err(e) => return Err(e),
        Ok(o) => o,
    };
    let prev: Option<Vec<u8>> = if o.get || o.ifeq.is_some() {
        match string_copy(ctx, &key) {
            Err(e) => return Err(e),
            Ok(s) => s,
        }
    } else {
        None
    };
    let present: bool = ctx.db.has_key(&key);
    let differs: bool = match &o.ifeq {
        None => false,
        Some(want) => match &prev {
            None => true,
            Some(have) => !same(have, want),
        },
    };
    if differs || (o.nx && present) || (o.xx && !present) {
        ctx.set_prevent_propagation();
        if o.get {
            return reply_optional_bulk(ctx, prev);
        }
        return ctx.reply_null_bulk();
    }
    set_write(ctx, &key, &value, &o);
    if o.get {
        reply_optional_bulk(ctx, prev)
    } else {
        ctx.reply_simple_string("OK")
    }
}

// ---------------------------------------------------------------------------
// SETNX, SETEX, PSETEX, DELIFEQ
// ---------------------------------------------------------------------------

/// The context after a string was stored and announced.
pub open spec fn stored(c: CtxV, key: Seq<u8>, value: Seq<u8>, keep: bool, event: Seq<char>) -> CtxV {
    raises(with_db(c, db_set(c.db, key, ObjV::Str(value), keep)), EventClass::Str, event, key)
}

/// Stores a string and announces it.
fn store_string(ctx: &mut CommandContext, key: &[u8], value: Vec<u8>, keep: bool, event: &str)
    requires
        old(ctx).wf(),
    ensures
        final(ctx).wf(),
        final(ctx)@ == stored(old(ctx)@, key@, value@, keep, event@),
{
    ctx.db.set_key(dup(key), RedisObject::Str(value), keep);
    ctx.notify_keyspace_event(EventClass::Str, event, key);
}

/// How SETNX ends.
pub open spec fn setnx_outcome(c: CtxV) -> Outcome {
    let argv = c.client.argv;
    if argv.len() != 3 {
        fails(c, wrong_args("setnx"@))
    } else if db_get(c.db, argv[1]) is Some {
        replies_one(not_propagated(c), Tok::Int(0))
    } else {
        replies_one(stored(c, argv[1], argv[2], false, "set"@), Tok::Int(1))
    }
}

/// SETNX key value
pub fn setnx_command(ctx: &mut CommandContext) -> (r: Result<(), RedisError>)
    requires
        old(ctx).wf(),
    ensures
        final(ctx).wf(),
        done(r, final(ctx)@) == setnx_outcome(old(ctx)@),
{
    if ctx.arg_count() != 3 {
        return Err(RedisError::wrong_number_of_args("setnx"));
    }
    let key: Vec<u8> = ctx.arg_owned(1);
    let value: Vec<u8> = ctx.arg_owned(2);
    if ctx.db.has_key(&key) {
        ctx.set_prevent_propagation();
        return ctx.reply_integer(0);
    }
    store_string(ctx, &key, value, false, "set");
    ctx.reply_integer(1)
}

/// How a store with an expiry time ends.
pub open spec fn setex_generic_outcome(
    c: CtxV,
    name: Seq<char>,
    unit: Unit,
    bad: Seq<char>,
) -> Outcome {
    let argv = c.client.argv;
    if argv.len() != 4 {
        fails(c, wrong_args(name))
    } else {
        match i64_of(argv[2]) {
            None => fails(c, runtime("ERR value is not an integer or out of range"@)),
            Some(raw) => if raw <= 0 || time_after(raw, unit, c.now) is None {
                fails(c, runtime(bad))
            } else {
                let at = time_after(raw, unit, c.now)->0;
                let d = db_expire(
                    db_set(c.db, argv[1], ObjV::Str(argv[3]), false),
                    argv[1],
                    at,
                );
                replies_one(
                    with_argv(
                        raises(with_db(c, d), EventClass::Str, "set"@, argv[1]),
                        set_pxat_argv(argv[1], argv[3], at),
                    ),
                    status("OK"@),
                )
            },
        }
    }
}

/// Stores a string with an expiry time in the given unit.
fn setex_generic(ctx: &mut CommandContext, name: &str, unit: Unit, bad: &str) -> (r: Result<
    (),
    RedisError,
>)
    requires
        old(ctx).wf(),
    ensures
        final(ctx).wf(),
        done(r, final(ctx)@) == setex_generic_outcome(old(ctx)@, name@, unit, bad@),
{
    if ctx.arg_count() != 4 {
        return Err(RedisError::wrong_number_of_args(name));
    }
    let key: Vec<u8> = ctx.arg_owned(1);
    let value: Vec<u8> = ctx.arg_owned(3);
    let raw: i64 = match parse_i64(&ctx.client.argv[2]) {
        None => return Err(RedisError::runtime("ERR value is not an integer or out of range")),
        Some(n) => n,
    };
    if raw <= 0 {
        return Err(RedisError::runtime(bad));
    }
    let at: i64 = match deadline_after(raw, unit, ctx.now_ms) {
        None => return Err(RedisError::runtime(bad)),
        Some(t) => t,
    };
    ctx.db.set_key(dup(&key), RedisObject::Str(dup(&value)), false);
    ctx.db.set_expire(&key, at);
    ctx.notify_keyspace_event(EventClass::Str, "set", &key);
    ctx.set_args(set_pxat_args(&key, &value, at));
    ctx.reply_simple_string("OK")
}

/// How SETEX ends.
pub open spec fn setex_outcome(c: CtxV) -> Outcome {
    setex_generic_outcome(
        c,
        "setex"@,
        Unit::Seconds,
        "ERR invalid expire time in 'setex' command"@,
    )
}

/// SETEX key seconds value
pub fn setex_command(ctx: &mut CommandContext) -> (r: Result<(), RedisError>)
    requires
        old(ctx).wf(),
    ensures
        final(ctx).wf(),
        done(r, final(ctx)@) == setex_outcome(old(ctx)@),
{
    setex_generic(ctx, "setex", Unit::Seconds, "ERR invalid expire time in 'setex' command")
}

/// How PSETEX ends.
pub open spec fn psetex_outcome(c: CtxV) -> Outcome {
    setex_generic_outcome(
        c,
        "psetex"@,
        Unit::Milliseconds,
        "ERR invalid expire time in 'psetex' command"@,
    )
}

/// PSETEX key milliseconds value
pub fn psetex_command(ctx: &mut CommandContext) -> (r: Result<(), RedisError>)
    requires
        old(ctx).wf(),
    ensures
        final(ctx).wf(),
        done(r, final(ctx)@) == psetex_outcome(old(ctx)@),
{
    setex_generic(ctx, "psetex", Unit::Milliseconds, "ERR invalid expire time in 'psetex' command")
}

/// The context after a key was deleted, announced and handed on as DEL.
pub open spec fn deleted_as_del(c: CtxV, key: Seq<u8>) -> CtxV {
    with_argv(
        raises(with_db(c, db_delete(c.db, key)), EventClass::Generic, "del"@, key),
        seq![text("DEL"@), key],
    )
}

/// How DELIFEQ ends.
pub open spec fn delifeq_outcome(c: CtxV) -> Outcome {
    let argv = c.client.argv;
    if argv.len() != 3 {
        fails(c, wrong_args("delifeq"@))
    } else {
        match str_in(c.db, argv[1]) {
            Err(e) => fails(c, e),
            Ok(s) => if s == Some(argv[2]) {
                replies_one(deleted_as_del(c, argv[1]), Tok::Int(1))
            } else {
                replies_one(not_propagated(c), Tok::Int(0))
            },
        }
    }
}

/// DELIFEQ key value
pub fn delifeq_command(ctx: &mut CommandContext) -> (r: Result<(), RedisError>)
    requires
        old(ctx).wf(),
    ensures
        final(ctx).wf(),
        done(r, final(ctx)@) == delifeq_outcome(old(ctx)@),
{
    if ctx.arg_count() != 3 {
        return Err(RedisError::wrong_number_of_args("delifeq"));
    }
    let key: Vec<u8> = ctx.arg_owned(1);
    let matched: bool = match ctx.db.string_at(&key) {
        Err(e) => return Err(e),
        Ok(None) => false,
        Ok(Some(s)) => same(s, &ctx.client.argv[2]),
    };
    if matched {
        let _existed: bool = ctx.db.sync_delete(&key);
        ctx.notify_keyspace_event(EventClass::Generic, "del", &key);
        ctx.set_args(argv_of_key("DEL", &key));
        ctx.reply_integer(1)
    } else {
        ctx.set_prevent_propagation();
        ctx.reply_integer(0)
    }
}

// ---------------------------------------------------------------------------
// GET, GETEX, GETDEL, GETSET
// ---------------------------------------------------------------------------

/// How GET ends.
pub open spec fn get_outcome(c: CtxV) -> Outcome {
    let argv = c.client.argv;
    if argv.len() != 2 {
        fails(c, wrong_args("get"@))
    } else {
        match str_in(c.db, argv[1]) {
            Err(e) => fails(c, e),
            Ok(s) => replies_one(c, bulk_or_null(s)),
        }
    }
}

/// GET key
pub fn get_command(ctx: &mut CommandContext) -> (r: Result<(), RedisError>)
    requires
        old(ctx).wf(),
    ensures
        final(ctx).wf(),
        done(r, final(ctx)@) == get_outcome(old(ctx)@),
{
    if ctx.arg_count() != 2 {
        return Err(RedisError::wrong_number_of_args("get"));
    }
    match string_copy(ctx, &ctx.client.argv[1]) {
        Err(e) => Err(e),
        Ok(s) => reply_optional_bulk(ctx, s),
    }
}

/// What GETEX does to the expiry time.
#[derive(Debug, Clone, Copy, PartialEq, Eq, Structural)]
pub enum GetexChange {
    Keep,
    Persist,
    At(i64),
}

/// What the arguments of GETEX ask for.
pub open spec fn getex_change(argv: Seq<Seq<u8>>, now: i64) -> Result<GetexChange, ErrV> {
    if argv.len() < 3 {
        Ok(GetexChange::Keep)
    } else if is_word(argv[2], "PERSIST"@) {
        if argv.len() != 3 {
            Err(syntax_line())
        } else {
            Ok(GetexChange::Persist)
        }
    } else {
        match expire_form(argv[2]) {
            None => Err(syntax_line()),
            Some(form) => if argv.len() != 4 {
                Err(syntax_line())
            } else {
                match expiry(CommandKind::Get, form, argv[3], now) {
                    Err(e) => Err(e),
                    Ok(at) => Ok(GetexChange::At(at)),
                }
            },
        }
    }
}

/// What the arguments of GETEX ask for.
fn parse_getex(argv: &[Vec<u8>], now: i64) -> (r: Result<GetexChange, RedisError>)
    ensures
        match r {
            Ok(g) => getex_change(views(argv@), now) == Ok::<_, ErrV>(g),
            Err(e) => getex_change(views(argv@), now) == Err::<GetexChange, ErrV>(e@),
        },
{
    if argv.len() < 3 {
        return Ok(GetexChange::Keep);
    }
    if word(&argv[2], "PERSIST") {
        if argv.len() != 3 {
            return Err(RedisError::runtime("ERR syntax error"));
        }
        return Ok(GetexChange::Persist);
    }
    match parse_expire_form(&argv[2]) {
        None => Err(RedisError::runtime("ERR syntax error")),
        Some(form) => {
            if argv.len() != 4 {
                return Err(RedisError::runtime("ERR syntax error"));
            }
            match parse_expiry(CommandKind::Get, form, &argv[3], now) {
                Err(e) => Err(e),
                Ok(at) => Ok(GetexChange::At(at)),
            }
        },
    }
}

/// The context after GETEX changed the expiry time of a key that exists.
pub open spec fn getex_changed(c: CtxV, key: Seq<u8>, g: GetexChange) -> CtxV {
    match g {
        GetexChange::Keep => c,
        GetexChange::Persist => if db_ttl(c.db, key) is Some {
            with_argv(with_db(c, db_persist(c.db, key)), seq![text("PERSIST"@), key])
        } else {
            c
        },
        GetexChange::At(at) => if at <= c.now {
            with_argv(with_db(c, db_delete(c.db, key)), seq![text("UNLINK"@), key])
        } else {
            with_argv(
                with_db(c, db_expire(c.db, key, at)),
                seq![text("PEXPIREAT"@), key, dec(at as int)],
            )
        },
    }
}

/// How GETEX ends.
pub open spec fn getex_outcome(c: CtxV) -> Outcome {
    let argv = c.client.argv;
    if argv.len() < 2 || argv.len() > 4 {
        fails(c, wrong_args("getex"@))
    } else {
        match getex_change(argv, c.now) {
            Err(e) => fails(c, e),
            Ok(g) => match str_in(c.db, argv[1]) {
                Err(e) => fails(c, e),
                Ok(None) => replies_one(c, Tok::NullBulk),
                Ok(Some(s)) => replies_one(getex_changed(c, argv[1], g), Tok::Bulk(s)),
            },
        }
    }
}

/// PEXPIREAT, as it is handed on.
fn pexpireat_args(key: &[u8], at: i64) -> (r: Vec<Vec<u8>>)
    ensures
        views(r@) == seq![text("PEXPIREAT"@), key@, dec(at as int)],
{
    let mut r: Vec<Vec<u8>> = argv_of_key("PEXPIREAT", key);
    r.push(fmt_i64(at));
    assert(views(r@) =~= seq![text("PEXPIREAT"@), key@, dec(at as int)]);
    r
}

/// Removes the expiry time of a key that has one.
fn getex_persist(ctx: &mut CommandContext, key: &[u8])
    requires
        old(ctx).wf(),
    ensures
        final(ctx).wf(),
        final(ctx)@ == getex_changed(old(ctx)@, key@, GetexChange::Persist),
{
    if ctx.db.expire_of(key).is_some() {
        ctx.db.remove_expire(key);
        ctx.set_args(argv_of_key("PERSIST", key));
    }
}

/// Gives a key an expiry time as GETEX does.
fn getex_expire(ctx: &mut CommandContext, key: &[u8], at: i64)
    requires
        old(ctx).wf(),
    ensures
        final(ctx).wf(),
        final(ctx)@ == getex_changed(old(ctx)@, key@, GetexChange::At(at)),
{
    if at <= ctx.now_ms {
        let _existed: bool = ctx.db.sync_delete(key);
        ctx.set_args(argv_of_key("UNLINK", key));
    } else {
        ctx.db.set_expire(key, at);
        ctx.set_args(pexpireat_args(key, at));
    }
}

/// Changes the expiry time of a key as GETEX does.
fn getex_apply(ctx: &mut CommandContext, key: &[u8], g: GetexChange)
    requires
        old(ctx).wf(),
    ensures
        final(ctx).wf(),
        final(ctx)@ == getex_changed(old(ctx)@, key@, g),
{
    match g {
        GetexChange::Keep => {},
        GetexChange::Persist => getex_persist(ctx, key),
        GetexChange::At(at) => getex_expire(ctx, key, at),
    }
}

/// GETEX key [PERSIST|EX s|PX ms|EXAT s|PXAT ms]
pub fn getex_command(ctx: &mut CommandContext) -> (r: Result<(), RedisError>)
    requires
        old(ctx).wf(),
    ensures
        final(ctx).wf(),
        done(r, final(ctx)@) == getex_outcome(old(ctx)@),
{
    let argc: usize = ctx.arg_count();
    if argc < 2 || argc > 4 {
        return Err(RedisError::wrong_number_of_args("getex"));
    }
    let key: Vec<u8> = ctx.arg_owned(1);
    let g: GetexChange = match parse_getex(&ctx.client.argv, ctx.now_ms) {
        Err(e) => return Err(e),
        Ok(g) => g,
    };
    match string_copy(ctx, &key) {
        Err(e) => Err(e),
        Ok(None) => ctx.reply_null_bulk(),
        Ok(Some(s)) => {
            getex_apply(ctx, &key, g);
            ctx.reply_bulk(s)
        },
    }
}

/// How GETDEL ends.
pub open spec fn getdel_outcome(c: CtxV) -> Outcome {
    let argv = c.client.argv;
    if argv.len() != 2 {
        fails(c, wrong_args("getdel"@))
    } else {
        match str_in(c.db, argv[1]) {
            Err(e) => fails(c, e),
            Ok(None) => replies_one(not_propagated(c), Tok::NullBulk),
            Ok(Some(s)) => {
                let c1 = with_db(c, db_delete(c.db, argv[1]));
                let c2 = raises(c1, EventClass::Str, "set"@, argv[1]);
                let c3 = raises(c2, EventClass::Generic, "del"@, argv[1]);
                replies_one(with_argv(c3, seq![text("DEL"@), argv[1]]), Tok::Bulk(s))
            },
        }
    }
}

/// GETDEL key
pub fn getdel_command(ctx: &mut CommandContext) -> (r: Result<(), RedisError>)
    requires
        old(ctx).wf(),
    ensures
        final(ctx).wf(),
        done(r, final(ctx)@) == getdel_outcome(old(ctx)@),
{
    if ctx.arg_count() != 2 {
        return Err(RedisError::wrong_number_of_args("getdel"));
    }
    let key: Vec<u8> = ctx.arg_owned(1);
    match string_copy(ctx, &key) {
        Err(e) => Err(e),
        Ok(None) => {
            ctx.set_prevent_propagation();
            ctx.reply_null_bulk()
        },
        Ok(Some(s)) => {
            let _existed: bool = ctx.db.sync_delete(&key);
            ctx.notify_keyspace_event(EventClass::Str, "set", &key);
            ctx.notify_keyspace_event(EventClass::Generic, "del", &key);
            ctx.set_args(argv_of_key("DEL", &key));
            ctx.reply_bulk(s)
        },
    }
}

/// How GETSET ends.
pub open spec fn getset_outcome(c: CtxV) -> Outcome {
    let argv = c.client.argv;
    if argv.len() != 3 {
        fails(c, wrong_args("getset"@))
    } else {
        match str_in(c.db, argv[1]) {
            Err(e) => fails(c, e),
            Ok(s) => replies_one(stored(c, argv[1], argv[2], false, "set"@), bulk_or_null(s)),
        }
    }
}

/// GETSET key value
pub fn getset_command(ctx: &mut CommandContext) -> (r: Result<(), RedisError>)
    requires
        old(ctx).wf(),
    ensures
        final(ctx).wf(),
        done(r, final(ctx)@) == getset_outcome(old(ctx)@),
{
    if ctx.arg_count() != 3 {
        return Err(RedisError::wrong_number_of_args("getset"));
    }
    let key: Vec<u8> = ctx.arg_owned(1);
    let value: Vec<u8> = ctx.arg_owned(2);
    let prev: Option<Vec<u8>> = match string_copy(ctx, &key) {
        Err(e) => return Err(e),
        Ok(s) => s,
    };
    store_string(ctx, &key, value, false, "set");
    reply_optional_bulk(ctx, prev)
}

// ---------------------------------------------------------------------------
// SETRANGE, GETRANGE, APPEND, STRLEN
// ---------------------------------------------------------------------------

/// A string with `value` written over it from `at` on, padded with zero bytes.
pub open spec fn overwritten(s: Seq<u8>, at: int, value: Seq<u8>) -> Seq<u8> {
    let n = if s.len() < at + value.len() {
        (at + value.len()) as nat
    } else {
        s.len()
    };
    Seq::new(
        n,
        |i: int|
            if at <= i < at + value.len() {
                value[i - at]
            } else if i < s.len() {
                s[i]
            } else {
                0u8
            },
    )
}

/// A string with `value` written over it from `at` on.
fn overwrite(s: &[u8], at: usize, value: &[u8]) -> (r: Vec<u8>)
    requires
        at + value@.len() <= usize::MAX,
    ensures
        r@ == overwritten(s@, at as int, value@),
{
    let end: usize = at + value.len();
    let n: usize = if s.len() < end { end } else { s.len() };
    let mut r: Vec<u8> = Vec::new();
    let mut i: usize = 0;
    while i < n
        invariant
            i <= n,
            end == at + value@.len(),
            n == overwritten(s@, at as int, value@).len(),
            r@ =~= overwritten(s@, at as int, value@).take(i as int),
        decreases n - i,
    {
        let b: u8 = if at <= i && i < end {
            value[i - at]
        } else if i < s.len() {
            s[i]
        } else {
            0
        };
        r.push(b);
        i += 1;
    }
    assert(r@ =~= overwritten(s@, at as int, value@));
    r
}

/// The error for a string that would grow too long.
pub open spec fn too_long() -> ErrV {
    runtime("ERR string exceeds maximum allowed size (proto-max-bulk-len)"@)
}

/// How SETRANGE ends.
pub open spec fn setrange_outcome(c: CtxV) -> Outcome {
    let argv = c.client.argv;
    if argv.len() != 4 {
        fails(c, wrong_args("setrange"@))
    } else {
        match i64_of(argv[2]) {
            None => fails(c, ErrV::NotInteger),
            Some(at) => if at < 0 {
                fails(c, runtime("ERR offset is out of range"@))
            } else if argv[3].len() > 0 && at + argv[3].len() > PROTO_MAX_BULK_LEN_DEFAULT {
                fails(c, too_long())
            } else {
                match str_in(c.db, argv[1]) {
                    Err(e) => fails(c, e),
                    Ok(None) => if argv[3].len() == 0 {
                        replies_one(c, Tok::Int(0))
                    } else {
                        let s = overwritten(Seq::empty(), at as int, argv[3]);
                        replies_one(
                            stored(c, argv[1], s, false, "setrange"@),
                            Tok::Int(s.len() as i64 as int),
                        )
                    },
                    Ok(Some(s)) => if argv[3].len() == 0 {
                        replies_one(c, Tok::Int(s.len() as i64 as int))
                    } else {
                        let s2 = overwritten(s, at as int, argv[3]);
                        replies_one(
                            stored(c, argv[1], s2, true, "setrange"@),
                            Tok::Int(s2.len() as i64 as int),
                        )
                    },
                }
            },
        }
    }
}

/// SETRANGE key offset value
pub fn setrange_command(ctx: &mut CommandContext) -> (r: Result<(), RedisError>)
    requires
        old(ctx).wf(),
    ensures
        final(ctx).wf(),
        done(r, final(ctx)@) == setrange_outcome(old(ctx)@),
{
    if ctx.arg_count() != 4 {
        return Err(RedisError::wrong_number_of_args("setrange"));
    }
    let key: Vec<u8> = ctx.arg_owned(1);
    let value: Vec<u8> = ctx.arg_owned(3);
    let at: i64 = match parse_i64(&ctx.client.argv[2]) {
        None => return Err(RedisError::NotInteger),
        Some(n) => n,
    };
    if at < 0 {
        return Err(RedisError::runtime("ERR offset is out of range"));
    }
    if value.len() > 0 && at as u128 + value.len() as u128 > PROTO_MAX_BULK_LEN_DEFAULT as u128 {
        return Err(
            RedisError::runtime("ERR string exceeds maximum allowed size (proto-max-bulk-len)"),
        );
    }
    let existing: Option<Vec<u8>> = match string_copy(ctx, &key) {
        Err(e) => return Err(e),
        Ok(s) => s,
    };
    match existing {
        None => {
            if value.len() == 0 {
                return ctx.reply_integer(0);
            }
            let none: Vec<u8> = Vec::new();
            let s: Vec<u8> = overwrite(&none, at as usize, &value);
            let n: i64 = s.len() as i64;
            store_string(ctx, &key, s, false, "setrange");
            ctx.reply_integer(n)
        },
        Some(was) => {
            if value.len() == 0 {
                return ctx.reply_integer(was.len() as i64);
            }
            let s: Vec<u8> = overwrite(&was, at as usize, &value);
            let n: i64 = s.len() as i64;
            store_string(ctx, &key, s, true, "setrange");
            ctx.reply_integer(n)
        },
    }
}

/// A position in a string of that length; negative ones count from its end.
pub open spec fn position(len: int, i: int) -> int {
    let p = if i < 0 {
        i + len
    } else {
        i
    };
    if p < 0 {
        0
    } else {
        p
    }
}

/// The bytes of `s` from `start` to `end`, both included.
pub open spec fn substring(s: Seq<u8>, start: int, end: int) -> Seq<u8> {
    let from = position(s.len() as int, start);
    let last = position(s.len() as int, end);
    let to = if last >= s.len() {
        s.len() as int
    } else {
        last + 1
    };
    if from < to {
        s.subrange(from, to)
    } else {
        Seq::empty()
    }
}

/// The bytes of `s` from `start` to `end`, both included.
pub fn get_substring(s: &[u8], start: i64, end: i64) -> (r: Vec<u8>)
    ensures
        r@ == substring(s@, start as int, end as int),
{
    let len: i128 = s.len() as i128;
    let mut from: i128 = if start < 0 { start as i128 + len } else { start as i128 };
    let mut last: i128 = if end < 0 { end as i128 + len } else { end as i128 };
    if from < 0 {
        from = 0;
    }
    if last < 0 {
        last = 0;
    }
    let to: i128 = if last >= len { len } else { last + 1 };
    if from < to {
        slice(s, from as usize, to as usize)
    } else {
        Vec::new()
    }
}

/// How GETRANGE ends.
pub open spec fn getrange_outcome(c: CtxV) -> Outcome {
    let argv = c.client.argv;
    if argv.len() != 4 {
        fails(c, wrong_args("getrange"@))
    } else {
        match (i64_of(argv[2]), i64_of(argv[3])) {
            (Some(start), Some(end)) => match str_in(c.db, argv[1]) {
                Err(e) => fails(c, e),
                Ok(None) => replies_one(c, Tok::Bulk(Seq::empty())),
                Ok(Some(s)) => replies_one(c, Tok::Bulk(substring(s, start as int, end as int))),
            },
            _ => fails(c, ErrV::NotInteger),
        }
    }
}

/// GETRANGE key start end
pub fn getrange_command(ctx: &mut CommandContext) -> (r: Result<(), RedisError>)
    requires
        old(ctx).wf(),
    ensures
        final(ctx).wf(),
        done(r, final(ctx)@) == getrange_outcome(old(ctx)@),
{
    if ctx.arg_count() != 4 {
        return Err(RedisError::wrong_number_of_args("getrange"));
    }
    let start: i64 = match parse_i64(&ctx.client.argv[2]) {
        None => return Err(RedisError::NotInteger),
        Some(n) => n,
    };
    let end: i64 = match parse_i64(&ctx.client.argv[3]) {
        None => return Err(RedisError::NotInteger),
        Some(n) => n,
    };
    let out: Vec<u8> = match ctx.db.string_at(&ctx.client.argv[1]) {
        Err(e) => return Err(e),
        Ok(None) => Vec::new(),
        Ok(Some(s)) => get_substring(s, start, end),
    };
    ctx.reply_bulk(out)
}

/// How APPEND ends.
pub open spec fn append_outcome(c: CtxV) -> Outcome {
    let argv = c.client.argv;
    if argv.len() != 3 {
        fails(c, wrong_args("append"@))
    } else {
        match str_in(c.db, argv[1]) {
            Err(e) => fails(c, e),
            Ok(None) => replies_one(
                stored(c, argv[1], argv[2], false, "append"@),
                Tok::Int(argv[2].len() as i64 as int),
            ),
            Ok(Some(s)) => if (s + argv[2]).len() > PROTO_MAX_BULK_LEN_DEFAULT {
                fails(c, too_long())
            } else {
                replies_one(
                    stored(c, argv[1], s + argv[2], true, "append"@),
                    Tok::Int((s + argv[2]).len() as i64 as int),
                )
            },
        }
    }
}

/// APPEND key value
pub fn append_command(ctx: &mut CommandContext) -> (r: Result<(), RedisError>)
    requires
        old(ctx).wf(),
    ensures
        final(ctx).wf(),
        done(r, final(ctx)@) == append_outcome(old(ctx)@),
{
    if ctx.arg_count() != 3 {
        return Err(RedisError::wrong_number_of_args("append"));
    }
    let key: Vec<u8> = ctx.arg_owned(1);
    let value: Vec<u8> = ctx.arg_owned(2);
    match string_copy(ctx, &key) {
        Err(e) => Err(e),
        Ok(None) => {
            let n: i64 = value.len() as i64;
            store_string(ctx, &key, value, false, "append");
            ctx.reply_integer(n)
        },
        Ok(Some(was)) => {
            let mut s: Vec<u8> = was;
            put(&mut s, &value);
            if s.len() > PROTO_MAX_BULK_LEN_DEFAULT {
                return Err(
                    RedisError::runtime(
                        "ERR string exceeds maximum allowed size (proto-max-bulk-len)",
                    ),
                );
            }
            let n: i64 = s.len() as i64;
            store_string(ctx, &key, s, true, "append");
            ctx.reply_integer(n)
        },
    }
}

/// How STRLEN ends.
pub open spec fn strlen_outcome(c: CtxV) -> Outcome {
    let argv = c.client.argv;
    if argv.len() != 2 {
        fails(c, wrong_args("strlen"@))
    } else {
        match str_in(c.db, argv[1]) {
            Err(e) => fails(c, e),
            Ok(None) => replies_one(c, Tok::Int(0)),
            Ok(Some(s)) => replies_one(c, Tok::Int(s.len() as i64 as int)),
        }
    }
}

/// STRLEN key
pub fn strlen_command(ctx: &mut CommandContext) -> (r: Result<(), RedisError>)
    requires
        old(ctx).wf(),
    ensures
        final(ctx).wf(),
        done(r, final(ctx)@) == strlen_outcome(old(ctx)@),
{
    if ctx.arg_count() != 2 {
        return Err(RedisError::wrong_number_of_args("strlen"));
    }
    let n: i64 = match ctx.db.string_at(&ctx.client.argv[1]) {
        Err(e) => return Err(e),
        Ok(None) => 0,
        Ok(Some(s)) => s.len() as i64,
    };
    ctx.reply_integer(n)
}

// ---------------------------------------------------------------------------
// Counters
// ---------------------------------------------------------------------------

/// The error for a counter that would leave its range.
pub open spec fn would_overflow() -> ErrV {
    runtime("ERR increment or decrement would overflow"@)
}

/// The counter under a key; a missing key counts from zero.
pub open spec fn counter_in(d: DbV, key: Seq<u8>) -> Result<i64, ErrV> {
    match str_in(d, key) {
        Err(e) => Err(e),
        Ok(None) => Ok(0i64),
        Ok(Some(s)) => match i64_of(s) {
            None => Err(ErrV::NotInteger),
            Some(n) => Ok(n),
        },
    }
}

/// How a counter command ends that adds `delta` and announces `event`.
pub open spec fn counted_outcome(c: CtxV, key: Seq<u8>, delta: int, event: Seq<char>) -> Outcome {
    match counter_in(c.db, key) {
        Err(e) => fails(c, e),
        Ok(n) => match fits(n + delta) {
            None => fails(c, would_overflow()),
            Some(next) => {
                let c1 = with_db(c, db_set(c.db, key, ObjV::Str(dec(next as int)), true));
                Outcome {
                    result: Ok(()),
                    ctx: raises(says(c1, seq![Tok::Int(next as int)]), EventClass::Str, event, key),
                }
            },
        },
    }
}

/// Adds `delta` to a counter and announces `event`.
fn incr_decr_apply(ctx: &mut CommandContext, key: &[u8], delta: i64, event: &str) -> (r: Result<
    (),
    RedisError,
>)
    requires
        old(ctx).wf(),
    ensures
        final(ctx).wf(),
        done(r, final(ctx)@) == counted_outcome(old(ctx)@, key@, delta as int, event@),
{
    let n: i64 = match ctx.db.string_at(key) {
        Err(e) => return Err(e),
        Ok(None) => 0,
        Ok(Some(s)) => match parse_i64(s) {
            None => return Err(RedisError::NotInteger),
            Some(n) => n,
        },
    };
    let next: i64 = match narrow(n as i128 + delta as i128) {
        None => return Err(RedisError::runtime("ERR increment or decrement would overflow")),
        Some(v) => v,
    };
    ctx.db.set_key(dup(key), RedisObject::Str(fmt_i64(next)), true);
    ctx.reply(Reply::Int(next));
    ctx.notify_keyspace_event(EventClass::Str, event, key);
    Ok(())
}

/// How INCR ends.
pub open spec fn incr_outcome(c: CtxV) -> Outcome {
    if c.client.argv.len() != 2 {
        fails(c, wrong_args("incr"@))
    } else {
        counted_outcome(c, c.client.argv[1], 1, "incrby"@)
    }
}

/// INCR key
pub fn incr_command(ctx: &mut CommandContext) -> (r: Result<(), RedisError>)
    requires
        old(ctx).wf(),
    ensures
        final(ctx).wf(),
        done(r, final(ctx)@) == incr_outcome(old(ctx)@),
{
    if ctx.arg_count() != 2 {
        return Err(RedisError::wrong_number_of_args("incr"));
    }
    let key: Vec<u8> = ctx.arg_owned(1);
    incr_decr_apply(ctx, &key, 1, "incrby")
}

/// How DECR ends.
pub open spec fn decr_outcome(c: CtxV) -> Outcome {
    if c.client.argv.len() != 2 {
        fails(c, wrong_args("decr"@))
    } else {
        counted_outcome(c, c.client.argv[1], -1, "decrby"@)
    }
}

/// DECR key
pub fn decr_command(ctx: &mut CommandContext) -> (r: Result<(), RedisError>)
    requires
        old(ctx).wf(),
    ensures
        final(ctx).wf(),
        done(r, final(ctx)@) == decr_outcome(old(ctx)@),
{
    if ctx.arg_count() != 2 {
        return Err(RedisError::wrong_number_of_args("decr"));
    }
    let key: Vec<u8> = ctx.arg_owned(1);
    incr_decr_apply(ctx, &key, -1, "decrby")
}

/// How INCRBY ends.
pub open spec fn incrby_outcome(c: CtxV) -> Outcome {
    let argv = c.client.argv;
    if argv.len() != 3 {
        fails(c, wrong_args("incrby"@))
    } else {
        match i64_of(argv[2]) {
            None => fails(c, ErrV::NotInteger),
            Some(d) => counted_outcome(c, argv[1], d as int, "incrby"@),
        }
    }
}

/// INCRBY key increment
pub fn incrby_command(ctx: &mut CommandContext) -> (r: Result<(), RedisError>)
    requires
        old(ctx).wf(),
    ensures
        final(ctx).wf(),
        done(r, final(ctx)@) == incrby_outcome(old(ctx)@),
{
    if ctx.arg_count() != 3 {
        return Err(RedisError::wrong_number_of_args("incrby"));
    }
    let key: Vec<u8> = ctx.arg_owned(1);
    match parse_i64(&ctx.client.argv[2]) {
        None => Err(RedisError::NotInteger),
        Some(d) => incr_decr_apply(ctx, &key, d, "incrby"),
    }
}

/// How DECRBY ends. The smallest number has no opposite.
pub open spec fn decrby_outcome(c: CtxV) -> Outcome {
    let argv = c.client.argv;
    if argv.len() != 3 {
        fails(c, wrong_args("decrby"@))
    } else {
        match i64_of(argv[2]) {
            None => fails(c, ErrV::NotInteger),
            Some(d) => if d == i64::MIN {
                fails(c, would_overflow())
            } else {
                counted_outcome(c, argv[1], -d, "decrby"@)
            },
        }
    }
}

/// DECRBY key decrement
pub fn decrby_command(ctx: &mut CommandContext) -> (r: Result<(), RedisError>)
    requires
        old(ctx).wf(),
    ensures
        final(ctx).wf(),
        done(r, final(ctx)@) == decrby_outcome(old(ctx)@),
{
    if ctx.arg_count() != 3 {
        return Err(RedisError::wrong_number_of_args("decrby"));
    }
    let key: Vec<u8> = ctx.arg_owned(1);
    match parse_i64(&ctx.client.argv[2]) {
        None => Err(RedisError::NotInteger),
        Some(d) => {
            if d == i64::MIN {
                return Err(RedisError::runtime("ERR increment or decrement would overflow"));
            }
            incr_decr_apply(ctx, &key, -d, "decrby")
        },
    }
}

/// The sum of a stored float and an increment, as the caller computed it.
pub enum FloatSum {
    /// The increment is not a float.
    BadIncrement,
    /// The stored value is not a finite float.
    BadStored,
    /// The sum is not finite.
    NotFinite,
    /// The decimal text of the sum.
    Sum(Vec<u8>),
}

/// What INCRBYFLOAT adds: the increment, and the stored string.
pub open spec fn float_operands(c: CtxV) -> Option<(Seq<u8>, Option<Seq<u8>>)> {
    let argv = c.client.argv;
    if argv.len() != 3 {
        None
    } else {
        match str_in(c.db, argv[1]) {
            Err(_) => None,
            Ok(s) => Some((argv[2], s)),
        }
    }
}

/// What INCRBYFLOAT adds, where its arguments and the stored type allow it.
pub fn incrbyfloat_operands(ctx: &CommandContext) -> (r: Option<(Vec<u8>, Option<Vec<u8>>)>)
    requires
        ctx.wf(),
    ensures
        match r {
            None => float_operands(ctx@) is None,
            Some((incr, cur)) => float_operands(ctx@) == Some(
                (incr@, crate::bytes::opt_view(cur)),
            ),
        },
{
    if ctx.arg_count() != 3 {
        return None;
    }
    match string_copy(ctx, &ctx.client.argv[1]) {
        Err(_) => None,
        Ok(s) => Some((ctx.arg_owned(2), s)),
    }
}

/// How INCRBYFLOAT ends, given the sum.
pub open spec fn incrbyfloat_outcome(c: CtxV, sum: FloatSum) -> Outcome {
    let argv = c.client.argv;
    if argv.len() != 3 {
        fails(c, wrong_args("incrbyfloat"@))
    } else if sum is BadIncrement {
        fails(c, ErrV::NotFloat)
    } else {
        match str_in(c.db, argv[1]) {
            Err(e) => fails(c, e),
            Ok(_) => match sum {
                FloatSum::Sum(s) => replies_one(
                    stored(c, argv[1], s@, true, "incrbyfloat"@),
                    Tok::Bulk(s@),
                ),
                FloatSum::NotFinite => fails(
                    c,
                    runtime("ERR increment would produce NaN or Infinity"@),
                ),
                _ => fails(c, ErrV::NotFloat),
            },
        }
    }
}

/// INCRBYFLOAT key increment, given the sum of the stored float and the
/// increment.
pub fn incrbyfloat_command(ctx: &mut CommandContext, sum: FloatSum) -> (r: Result<(), RedisError>)
    requires
        old(ctx).wf(),
    ensures
        final(ctx).wf(),
        done(r, final(ctx)@) == incrbyfloat_outcome(old(ctx)@, sum),
{
    if ctx.arg_count() != 3 {
        return Err(RedisError::wrong_number_of_args("incrbyfloat"));
    }
    match &sum {
        FloatSum::BadIncrement => return Err(RedisError::NotFloat),
        _ => {},
    }
    let key: Vec<u8> = ctx.arg_owned(1);
    match ctx.db.string_at(&key) {
        Err(e) => return Err(e),
        Ok(_) => {},
    }
    match sum {
        FloatSum::Sum(s) => {
            store_string(ctx, &key, dup(&s), true, "incrbyfloat");
            ctx.reply_bulk(s)
        },
        FloatSum::NotFinite => Err(
            RedisError::runtime("ERR increment would produce NaN or Infinity"),
        ),
        _ => Err(RedisError::NotFloat),
    }
}

} // verus!
