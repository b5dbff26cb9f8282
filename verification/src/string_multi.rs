//! String commands on several keys: MGET, MSET, MSETNX and MSETEX.

use vstd::prelude::*;

use crate::bytes::{
    dec, dup, fmt_i64, i64_of, is_word, lemma_views_push, lit, parse_i64, text, views, word,
};
use crate::context::{
    done, fails, not_propagated, raises, replies, replies_one, with_argv, with_db, CommandContext,
    CtxV, EventClass, Outcome,
};
use crate::error::{runtime, wrong_args, ErrV, RedisError};
use crate::keyspace::{db_get, db_persist, str_in, DbV, RedisObject};
use crate::reply::{bulk_or_null, lemma_toks_add, lemma_toks_push, status, toks, Reply, Tok};
use crate::string::{
    db_expire_or_delete, expire_form, expire_or_delete, expiry, parse_expire_form, parse_expiry,
    stored, syntax_line, CommandKind, ExpireForm,
};

verus! {

broadcast use {lemma_toks_push, lemma_toks_add, lemma_views_push};

// ---------------------------------------------------------------------------
// MGET
// ---------------------------------------------------------------------------

/// The string under a key as MGET replies it: a value of another type is null.
pub open spec fn string_or_null(d: DbV, key: Seq<u8>) -> Tok {
    match str_in(d, key) {
        Ok(s) => bulk_or_null(s),
        Err(_) => Tok::NullBulk,
    }
}

/// The strings under some keys.
pub open spec fn strings_or_null(d: DbV, keys: Seq<Seq<u8>>) -> Seq<Tok> {
    keys.map_values(|k: Seq<u8>| string_or_null(d, k))
}

/// How MGET ends.
pub open spec fn mget_outcome(c: CtxV) -> Outcome {
    let argv = c.client.argv;
    if argv.len() < 2 {
        fails(c, wrong_args("mget"@))
    } else {
        replies(
            c,
            seq![Tok::Array((argv.len() - 1) as nat)] + strings_or_null(c.db, argv.skip(1)),
        )
    }
}

/// MGET key [key ...]
pub fn mget_command(ctx: &mut CommandContext) -> (r: Result<(), RedisError>)
    requires
        old(ctx).wf(),
    ensures
        final(ctx).wf(),
        done(r, final(ctx)@) == mget_outcome(old(ctx)@),
{
    let argc: usize = ctx.arg_count();
    if argc < 2 {
        return Err(RedisError::wrong_number_of_args("mget"));
    }
    let ghost argv = ctx@.client.argv;
    let ghost head = seq![Tok::Array((argc - 1) as nat)];
    let mut out: Vec<Reply> = Vec::new();
    out.push(Reply::Array((argc - 1) as u128));
    let mut j: usize = 1;
    assert(toks(out@) =~= head + strings_or_null(ctx@.db, argv.subrange(1, 1)));
    while j < argc
        invariant
            ctx.wf(),
            *ctx == *old(ctx),
            argv == ctx@.client.argv,
            argc == argv.len(),
            1 <= j <= argc,
            toks(out@) == head + strings_or_null(ctx@.db, argv.subrange(1, j as int)),
        decreases argc - j,
    {
        let ghost before = toks(out@);
        let one: Reply = match ctx.db.string_at(&ctx.client.argv[j]) {
            Ok(Some(s)) => Reply::Bulk(dup(s)),
            _ => Reply::NullBulk,
        };
        assert(one@ == string_or_null(ctx@.db, argv[j as int]));
        out.push(one);
        assert(argv.subrange(1, j + 1) =~= argv.subrange(1, j as int).push(argv[j as int]));
        assert(toks(out@) =~= head + strings_or_null(ctx@.db, argv.subrange(1, j + 1)));
        j += 1;
    }
    assert(argv.subrange(1, j as int) =~= argv.skip(1));
    ctx.reply_all(out);
    Ok(())
}

// ---------------------------------------------------------------------------
// MSET, MSETNX
// ---------------------------------------------------------------------------

/// The context after the first `n` pairs from argument `from` on were stored.
pub open spec fn pairs_stored(c: CtxV, argv: Seq<Seq<u8>>, from: int, n: int) -> CtxV
    decreases n,
{
    if n <= 0 {
        c
    } else {
        stored(
            pairs_stored(c, argv, from, n - 1),
            argv[from + 2 * (n - 1)],
            argv[from + 2 * (n - 1) + 1],
            false,
            "set"@,
        )
    }
}

/// Storing pairs changes the database and the events only.
proof fn lemma_pairs_stored_frame(c: CtxV, argv: Seq<Seq<u8>>, from: int, n: int)
    ensures
        pairs_stored(c, argv, from, n).client == c.client,
        pairs_stored(c, argv, from, n).now == c.now,
    decreases n,
{
    if n > 0 {
        lemma_pairs_stored_frame(c, argv, from, n - 1);
    }
}

/// Stores the pairs from the first argument on.
fn store_pairs(ctx: &mut CommandContext)
    requires
        old(ctx).wf(),
        old(ctx)@.client.argv.len() % 2 == 1,
    ensures
        final(ctx).wf(),
        final(ctx)@ == pairs_stored(
            old(ctx)@,
            old(ctx)@.client.argv,
            1,
            (old(ctx)@.client.argv.len() - 1) / 2,
        ),
{
    let ghost c = ctx@;
    let ghost argv = ctx@.client.argv;
    let argc: usize = ctx.arg_count();
    let mut j: usize = 1;
    while j < argc
        invariant
            ctx.wf(),
            argv == c.client.argv,
            argc == argv.len(),
            argc % 2 == 1,
            j % 2 == 1,
            1 <= j <= argc,
            ctx@ == pairs_stored(c, argv, 1, (j - 1) / 2),
            ctx@.client == c.client,
        decreases argc - j,
    {
        let key: Vec<u8> = ctx.arg_owned(j);
        let value: Vec<u8> = ctx.arg_owned(j + 1);
        proof {
            lemma_pairs_stored_frame(c, argv, 1, (j + 1) / 2);
        }
        ctx.db.set_key(dup(&key), RedisObject::Str(value), false);
        ctx.notify_keyspace_event(EventClass::Str, "set", &key);
        assert(ctx@ == pairs_stored(c, argv, 1, (j + 1) / 2));
        j += 2;
    }
}

/// How MSET ends.
pub open spec fn mset_outcome(c: CtxV) -> Outcome {
    let argv = c.client.argv;
    if argv.len() % 2 == 0 {
        fails(c, syntax_line())
    } else if argv.len() < 3 {
        fails(c, wrong_args("mset"@))
    } else {
        replies_one(pairs_stored(c, argv, 1, (argv.len() - 1) / 2), status("OK"@))
    }
}

/// MSET key value [key value ...]
pub fn mset_command(ctx: &mut CommandContext) -> (r: Result<(), RedisError>)
    requires
        old(ctx).wf(),
    ensures
        final(ctx).wf(),
        done(r, final(ctx)@) == mset_outcome(old(ctx)@),
{
    let argc: usize = ctx.arg_count();
    if argc % 2 == 0 {
        return Err(RedisError::runtime("ERR syntax error"));
    }
    if argc < 3 {
        return Err(RedisError::wrong_number_of_args("mset"));
    }
    store_pairs(ctx);
    ctx.reply_simple_string("OK")
}

/// Whether one of the first `n` keys from argument `from` on exists.
pub open spec fn some_key_exists(d: DbV, argv: Seq<Seq<u8>>, from: int, n: int) -> bool {
    exists|p: int| 0 <= p < n && db_get(d, #[trigger] argv[from + 2 * p]) is Some
}

/// Whether one of the first `n` keys from argument `from` on is missing.
pub open spec fn some_key_missing(d: DbV, argv: Seq<Seq<u8>>, from: int, n: int) -> bool {
    exists|p: int| 0 <= p < n && db_get(d, #[trigger] argv[from + 2 * p]) is None
}

/// Whether one of the first `n` keys from argument `from` on exists.
fn any_key_exists(ctx: &CommandContext, from: usize, n: usize) -> (r: bool)
    requires
        ctx.wf(),
        from + 2 * n <= ctx@.client.argv.len(),
    ensures
        r == some_key_exists(ctx@.db, ctx@.client.argv, from as int, n as int),
{
    let ghost argv = ctx@.client.argv;
    let argc: usize = ctx.arg_count();
    let mut p: usize = 0;
    while p < n
        invariant
            ctx.wf(),
            argv == ctx@.client.argv,
            argc == argv.len(),
            from + 2 * n <= argc,
            p <= n,
            forall|q: int|
                0 <= q < p ==> db_get(ctx@.db, #[trigger] argv[from + 2 * q]) is None,
        decreases n - p,
    {
        if ctx.db.has_key(&ctx.client.argv[from + 2 * p]) {
            assert(db_get(ctx@.db, argv[from + 2 * p]) is Some);
            return true;
        }
        p += 1;
    }
    false
}

/// Whether one of the first `n` keys from argument `from` on is missing.
fn any_key_missing(ctx: &CommandContext, from: usize, n: usize) -> (r: bool)
    requires
        ctx.wf(),
        from + 2 * n <= ctx@.client.argv.len(),
    ensures
        r == some_key_missing(ctx@.db, ctx@.client.argv, from as int, n as int),
{
    let ghost argv = ctx@.client.argv;
    let argc: usize = ctx.arg_count();
    let mut p: usize = 0;
    while p < n
        invariant
            ctx.wf(),
            argv == ctx@.client.argv,
            argc == argv.len(),
            from + 2 * n <= argc,
            p <= n,
            forall|q: int|
                0 <= q < p ==> db_get(ctx@.db, #[trigger] argv[from + 2 * q]) is Some,
        decreases n - p,
    {
        if !ctx.db.has_key(&ctx.client.argv[from + 2 * p]) {
            assert(db_get(ctx@.db, argv[from + 2 * p]) is None);
            return true;
        }
        p += 1;
    }
    false
}

/// How MSETNX ends.
pub open spec fn msetnx_outcome(c: CtxV) -> Outcome {
    let argv = c.client.argv;
    if argv.len() < 3 || argv.len() % 2 == 0 {
        fails(c, wrong_args("msetnx"@))
    } else if some_key_exists(c.db, argv, 1, (argv.len() - 1) / 2) {
        replies_one(c, Tok::Int(0))
    } else {
        replies_one(pairs_stored(c, argv, 1, (argv.len() - 1) / 2), Tok::Int(1))
    }
}

/// MSETNX key value [key value ...]
pub fn msetnx_command(ctx: &mut CommandContext) -> (r: Result<(), RedisError>)
    requires
        old(ctx).wf(),
    ensures
        final(ctx).wf(),
        done(r, final(ctx)@) == msetnx_outcome(old(ctx)@),
{
    let argc: usize = ctx.arg_count();
    if argc < 3 || argc % 2 == 0 {
        return Err(RedisError::wrong_number_of_args("msetnx"));
    }
    if any_key_exists(ctx, 1, (argc - 1) / 2) {
        return ctx.reply_integer(0);
    }
    store_pairs(ctx);
    ctx.reply_integer(1)
}

// ---------------------------------------------------------------------------
// MSETEX
// ---------------------------------------------------------------------------

/// The options of MSETEX.
#[derive(Debug, Clone, Copy)]
pub struct MsetexOptions {
    pub nx: bool,
    pub xx: bool,
    pub keepttl: bool,
    /// The expiry option, with the time that it names.
    pub expire: Option<(ExpireForm, i64)>,
}

/// The options of MSETEX from argument `j` on, after those in `o`.
pub open spec fn msetex_options(argv: Seq<Seq<u8>>, j: int, o: MsetexOptions, now: i64) -> Result<
    MsetexOptions,
    ErrV,
>
    decreases argv.len() - j,
{
    if j < 0 || j >= argv.len() {
        Ok(o)
    } else if is_word(argv[j], "NX"@) {
        if o.xx {
            Err(syntax_line())
        } else {
            msetex_options(argv, j + 1, MsetexOptions { nx: true, ..o }, now)
        }
    } else if is_word(argv[j], "XX"@) {
        if o.nx {
            Err(syntax_line())
        } else {
            msetex_options(argv, j + 1, MsetexOptions { xx: true, ..o }, now)
        }
    } else if is_word(argv[j], "KEEPTTL"@) {
        if o.keepttl || o.expire is Some {
            Err(syntax_line())
        } else {
            msetex_options(argv, j + 1, MsetexOptions { keepttl: true, ..o }, now)
        }
    } else {
        match expire_form(argv[j]) {
            None => Err(syntax_line()),
            Some(form) => if o.keepttl || o.expire is Some || j + 1 >= argv.len() {
                Err(syntax_line())
            } else {
                match expiry(CommandKind::Mset, form, argv[j + 1], now) {
                    Err(e) => Err(e),
                    Ok(at) => msetex_options(
                        argv,
                        j + 2,
                        MsetexOptions { expire: Some((form, at)), ..o },
                        now,
                    ),
                }
            },
        }
    }
}

/// No options.
pub open spec fn no_msetex_options() -> MsetexOptions {
    MsetexOptions { nx: false, xx: false, keepttl: false, expire: None }
}

/// Parses the options of MSETEX from argument `from` on.
fn parse_msetex_options(argv: &[Vec<u8>], from: usize, now: i64) -> (r: Result<
    MsetexOptions,
    RedisError,
>)
    requires
        from <= argv@.len(),
    ensures
        match r {
            Ok(o) => msetex_options(views(argv@), from as int, no_msetex_options(), now) == Ok::<
                _,
                ErrV,
            >(o),
            Err(e) => msetex_options(views(argv@), from as int, no_msetex_options(), now) == Err::<
                MsetexOptions,
                ErrV,
            >(e@),
        },
{
    let ghost all = views(argv@);
    let ghost whole = msetex_options(all, from as int, no_msetex_options(), now);
    let argc: usize = argv.len();
    let mut o = MsetexOptions { nx: false, xx: false, keepttl: false, expire: None };
    let mut j: usize = from;
    while j < argc
        invariant
            argc == argv@.len(),
            all == views(argv@),
            from <= j <= argc,
            whole == msetex_options(all, from as int, no_msetex_options(), now),
            whole == msetex_options(all, j as int, o, now),
        decreases argc - j,
    {
        let a: &Vec<u8> = &argv[j];
        assert(a@ == all[j as int]);
        if word(a, "NX") {
            if o.xx {
                return Err(RedisError::runtime("ERR syntax error"));
            }
            o.nx = true;
            j += 1;
        } else if word(a, "XX") {
            if o.nx {
                return Err(RedisError::runtime("ERR syntax error"));
            }
            o.xx = true;
            j += 1;
        } else if word(a, "KEEPTTL") {
            if o.keepttl || o.expire.is_some() {
                return Err(RedisError::runtime("ERR syntax error"));
            }
            o.keepttl = true;
            j += 1;
        } else {
            let form: ExpireForm = match parse_expire_form(a) {
                None => return Err(RedisError::runtime("ERR syntax error")),
                Some(f) => f,
            };
            if o.keepttl || o.expire.is_some() || argc - j < 2 {
                return Err(RedisError::runtime("ERR syntax error"));
            }
            match parse_expiry(CommandKind::Mset, form, &argv[j + 1], now) {
                Err(e) => return Err(e),
                Ok(at) => o.expire = Some((form, at)),
            }
            j += 2;
        }
    }
    Ok(o)
}

/// The context after MSETEX stored one pair.
pub open spec fn msetex_one(c: CtxV, key: Seq<u8>, value: Seq<u8>, o: MsetexOptions) -> CtxV {
    let c1 = stored(c, key, value, o.keepttl, "set"@);
    match o.expire {
        Some((_, at)) => {
            let c2 = with_db(c1, db_expire_or_delete(c1.db, key, at, c.now));
            if at <= c.now {
                c2
            } else {
                raises(c2, EventClass::Generic, "expire"@, key)
            }
        },
        None => if o.keepttl {
            c1
        } else {
            with_db(c1, db_persist(c1.db, key))
        },
    }
}

/// The context after MSETEX stored the first `n` pairs.
pub open spec fn msetex_stored(c: CtxV, argv: Seq<Seq<u8>>, n: int, o: MsetexOptions) -> CtxV
    decreases n,
{
    if n <= 0 {
        c
    } else {
        msetex_one(
            msetex_stored(c, argv, n - 1, o),
            argv[2 + 2 * (n - 1)],
            argv[3 + 2 * (n - 1)],
            o,
        )
    }
}

/// Stores one pair as MSETEX does.
fn msetex_store_one(ctx: &mut CommandContext, key: &[u8], value: Vec<u8>, o: MsetexOptions)
    requires
        old(ctx).wf(),
    ensures
        final(ctx).wf(),
        final(ctx)@ == msetex_one(old(ctx)@, key@, value@, o),
        final(ctx)@.client == old(ctx)@.client,
{
    ctx.db.set_key(dup(key), RedisObject::Str(value), o.keepttl);
    ctx.notify_keyspace_event(EventClass::Str, "set", key);
    match o.expire {
        Some((_, at)) => {
            let future: bool = at > ctx.now_ms;
            expire_or_delete(ctx, key, at);
            if future {
                ctx.notify_keyspace_event(EventClass::Generic, "expire", key);
            }
        },
        None => {
            if !o.keepttl {
                ctx.db.remove_expire(key);
            }
        },
    }
}

/// The number of keys that MSETEX names in its first argument.
pub open spec fn msetex_numkeys(a: Seq<u8>) -> Option<int> {
    match i64_of(a) {
        None => None,
        Some(n) => if 1 <= n <= i32::MAX {
            Some(n as int)
        } else {
            None
        },
    }
}

/// The context after MSETEX stored its pairs and rewrote its arguments.
pub open spec fn msetex_done(c: CtxV, n: int, o: MsetexOptions) -> CtxV {
    let argv = c.client.argv;
    let c1 = msetex_stored(c, argv, n, o);
    match o.expire {
        Some((form, at)) => if form == ExpireForm::PxAt {
            c1
        } else {
            with_argv(c1, argv.take(2 + 2 * n) + seq![text("PXAT"@), dec(at as int)])
        },
        None => c1,
    }
}

/// How MSETEX ends.
pub open spec fn msetex_outcome(c: CtxV) -> Outcome {
    let argv = c.client.argv;
    if argv.len() < 4 {
        fails(c, wrong_args("msetex"@))
    } else {
        match msetex_numkeys(argv[1]) {
            None => fails(c, runtime("ERR invalid numkeys value or out of range"@)),
            Some(n) => if 2 + 2 * n > argv.len() {
                fails(c, syntax_line())
            } else {
                match msetex_options(argv, 2 + 2 * n, no_msetex_options(), c.now) {
                    Err(e) => fails(c, e),
                    Ok(o) => if (o.nx && some_key_exists(c.db, argv, 2, n)) || (o.xx
                        && some_key_missing(c.db, argv, 2, n)) {
                        replies_one(not_propagated(c), Tok::Int(0))
                    } else {
                        replies_one(msetex_done(c, n, o), Tok::Int(1))
                    },
                }
            },
        }
    }
}

/// The first `n` arguments, then PXAT and a time.
fn pxat_args(argv: &[Vec<u8>], n: usize, at: i64) -> (r: Vec<Vec<u8>>)
    requires
        n <= argv@.len(),
    ensures
        views(r@) == views(argv@).take(n as int) + seq![text("PXAT"@), dec(at as int)],
{
    let mut r: Vec<Vec<u8>> = Vec::new();
    let mut i: usize = 0;
    while i < n
        invariant
            i <= n <= argv@.len(),
            views(r@) =~= views(argv@).take(i as int),
        decreases n - i,
    {
        r.push(dup(&argv[i]));
        i += 1;
    }
    r.push(lit("PXAT"));
    r.push(fmt_i64(at));
    assert(views(r@) =~= views(argv@).take(n as int) + seq![text("PXAT"@), dec(at as int)]);
    r
}

/// Stores the pairs of MSETEX.
fn msetex_store_pairs(ctx: &mut CommandContext, n: usize, o: MsetexOptions)
    requires
        old(ctx).wf(),
        2 + 2 * n <= old(ctx)@.client.argv.len(),
    ensures
        final(ctx).wf(),
        final(ctx)@ == msetex_stored(old(ctx)@, old(ctx)@.client.argv, n as int, o),
        final(ctx)@.client == old(ctx)@.client,
{
    let ghost c = ctx@;
    let ghost argv = ctx@.client.argv;
    let argc: usize = ctx.arg_count();
    let mut p: usize = 0;
    while p < n
        invariant
            ctx.wf(),
            argv == c.client.argv,
            argc == argv.len(),
            2 + 2 * n <= argc,
            p <= n,
            ctx@ == msetex_stored(c, argv, p as int, o),
            ctx@.client == c.client,
        decreases n - p,
    {
        let key: Vec<u8> = ctx.arg_owned(2 + 2 * p);
        let value: Vec<u8> = ctx.arg_owned(3 + 2 * p);
        msetex_store_one(ctx, &key, value, o);
        p += 1;
    }
}

/// Stores the pairs of MSETEX and rewrites its arguments.
fn msetex_store(ctx: &mut CommandContext, n: usize, o: MsetexOptions)
    requires
        old(ctx).wf(),
        2 + 2 * n <= old(ctx)@.client.argv.len(),
    ensures
        final(ctx).wf(),
        final(ctx)@ == msetex_done(old(ctx)@, n as int, o),
{
    let argc: usize = ctx.arg_count();
    assert(2 + 2 * n <= argc);
    msetex_store_pairs(ctx, n, o);
    match o.expire {
        Some((form, at)) => {
            match form {
                ExpireForm::PxAt => {},
                _ => {
                    let args: Vec<Vec<u8>> = pxat_args(&ctx.client.argv, 2 + 2 * n, at);
                    ctx.set_args(args);
                },
            }
        },
        None => {},
    }
}

/// MSETEX numkeys key value [key value ...] [NX|XX]
/// [EX s|PX ms|EXAT s|PXAT ms|KEEPTTL]
pub fn msetex_command(ctx: &mut CommandContext) -> (r: Result<(), RedisError>)
    requires
        old(ctx).wf(),
    ensures
        final(ctx).wf(),
        done(r, final(ctx)@) == msetex_outcome(old(ctx)@),
{
    let argc: usize = ctx.arg_count();
    if argc < 4 {
        return Err(RedisError::wrong_number_of_args("msetex"));
    }
    let n: i64 = match parse_i64(&ctx.client.argv[1]) {
        None => return Err(RedisError::runtime("ERR invalid numkeys value or out of range")),
        Some(n) => n,
    };
    if n < 1 || n > 0x7fff_ffff {
        return Err(RedisError::runtime("ERR invalid numkeys value or out of range"));
    }
    if 2 + 2 * (n as u128) > argc as u128 {
        return Err(RedisError::runtime("ERR syntax error"));
    }
    let n: usize = n as usize;
    let o: MsetexOptions = match parse_msetex_options(&ctx.client.argv, 2 + 2 * n, ctx.now_ms) {
        Err(e) => return Err(e),
        Ok(o) => o,
    };
    let refused: bool = (o.nx && any_key_exists(ctx, 2, n)) || (o.xx && any_key_missing(ctx, 2, n));
    if refused {
        ctx.set_prevent_propagation();
        return ctx.reply_integer(0);
    }
    msetex_store(ctx, n, o);
    ctx.reply_integer(1)
}

} // verus!
