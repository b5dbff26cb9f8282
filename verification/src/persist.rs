//! Persistence commands: SAVE, BGSAVE, BGREWRITEAOF, DUMP and RESTORE, and
//! snapshots for replicas. What files, processes and threads do is told by the
//! caller; what follows from it is decided here.

use vstd::prelude::*;

use crate::bytes::{
    dec, dup, fmt_i64, i64_of, is_word, lemma_views_push, lit, parse_i64, put, put_text, text,
    views, word,
};
use crate::context::{
    counts_dirty, done, fails, replies_one, with_argv, with_db, CommandContext, CtxV, Outcome,
};
use crate::error::{runtime, syntax, wrong_args, ErrV, RedisError};
use crate::keyspace::{
    db_delete, db_expire, db_get, db_set, db_use, db_used, DbV, KeyUse, ObjV, RedisDb,
    RedisObject,
};
use crate::repl_state::{
    bump, bumped, JobV, ReplBgsaveJob, ReplV, ReplicationState,
};
use crate::reply::{lemma_toks_add, lemma_toks_push, status, Tok};

verus! {

broadcast use {lemma_toks_push, lemma_toks_add, lemma_views_push};

/// The state of persistence.
#[derive(Debug, Clone, Copy, PartialEq, Eq, Structural)]
pub struct PersistState {
    /// The process that saves in the background, or 0.
    pub rdb_child_pid: i32,
    /// A save in the background is to start when it can.
    pub rdb_bgsave_scheduled: bool,
    /// The number of changes when the save began.
    pub rdb_dirty_before_bgsave: u64,
    pub rdb_last_bgsave_ok: bool,
    /// When the last save ended, in seconds.
    pub last_save_unix: i64,
    pub aof_rewrite_in_progress: bool,
    pub aof_rewrite_scheduled: bool,
    pub aof_last_bgrewrite_ok: bool,
    pub aof_base_size: u64,
    pub aof_current_size: u64,
    /// The number of keys that the last rewrite captured, and how long it took.
    pub aof_snapshot_keys: u64,
    pub aof_snapshot_micros: u64,
    /// A transaction is being executed.
    pub in_exec: bool,
    pub total_forks: u64,
    /// The connection to a migration target is kept open.
    pub migrate_socket_cached: bool,
    pub loading: bool,
    pub async_loading: bool,
}

/// The state of a server that starts.
pub open spec fn new_persist() -> PersistState {
    PersistState {
        rdb_child_pid: 0,
        rdb_bgsave_scheduled: false,
        rdb_dirty_before_bgsave: 0,
        rdb_last_bgsave_ok: true,
        last_save_unix: 0,
        aof_rewrite_in_progress: false,
        aof_rewrite_scheduled: false,
        aof_last_bgrewrite_ok: true,
        aof_base_size: 0,
        aof_current_size: 0,
        aof_snapshot_keys: 0,
        aof_snapshot_micros: 0,
        in_exec: false,
        total_forks: 0,
        migrate_socket_cached: false,
        loading: false,
        async_loading: false,
    }
}

impl PersistState {
    /// The state of a server that starts.
    pub fn new() -> (r: PersistState)
        ensures
            r == new_persist(),
    {
        PersistState {
            rdb_child_pid: 0,
            rdb_bgsave_scheduled: false,
            rdb_dirty_before_bgsave: 0,
            rdb_last_bgsave_ok: true,
            last_save_unix: 0,
            aof_rewrite_in_progress: false,
            aof_rewrite_scheduled: false,
            aof_last_bgrewrite_ok: true,
            aof_base_size: 0,
            aof_current_size: 0,
            aof_snapshot_keys: 0,
            aof_snapshot_micros: 0,
            in_exec: false,
            total_forks: 0,
            migrate_socket_cached: false,
            loading: false,
            async_loading: false,
        }
    }
}

/// The number of connections to migration targets that are kept open.
pub open spec fn cached_sockets(p: PersistState) -> usize {
    if p.migrate_socket_cached {
        1
    } else {
        0
    }
}

/// The state after the connection to a migration target was kept open.
pub open spec fn socket_cached(p: PersistState) -> PersistState {
    PersistState { migrate_socket_cached: true, ..p }
}

/// The number of connections to migration targets that are kept open.
pub fn migrate_cached_sockets(p: &PersistState) -> (r: usize)
    ensures
        r == cached_sockets(*p),
        r == 0 || r == 1,
{
    if p.migrate_socket_cached {
        1
    } else {
        0
    }
}

/// Notes that the connection to a migration target is kept open.
pub fn mark_migrate_socket_cached(p: &mut PersistState)
    ensures
        *final(p) == socket_cached(*old(p)),
{
    p.migrate_socket_cached = true;
}

/// Notes that no connection to a migration target is kept open any more.
pub fn forget_migrate_socket(p: &mut PersistState)
    ensures
        *final(p) == (PersistState { migrate_socket_cached: false, ..*old(p) }),
{
    p.migrate_socket_cached = false;
}

/// Whatever happened before, no more than one connection to a migration target is
/// kept open, and another migration leaves one.
pub proof fn law_one_migrate_socket(p: PersistState)
    ensures
        cached_sockets(p) == 0 || cached_sockets(p) == 1,
        cached_sockets(new_persist()) == 0,
        cached_sockets(socket_cached(p)) == 1,
        socket_cached(socket_cached(p)) == socket_cached(p),
{
}

/// An error line that ends in what failed.
pub open spec fn failed(line: Seq<char>, why: Seq<u8>) -> ErrV {
    ErrV::Runtime(text(line) + why)
}

/// An error line that ends in what failed.
pub fn failed_error(line: &str, why: &[u8]) -> (r: RedisError)
    ensures
        r@ == failed(line@, why@),
{
    let mut m: Vec<u8> = lit(line);
    put(&mut m, why);
    RedisError::Runtime(m)
}

// ---------------------------------------------------------------------------
// SAVE
// ---------------------------------------------------------------------------

/// How SAVE ends, given how writing the file went.
pub open spec fn save_outcome(c: CtxV, saved: Result<(), Vec<u8>>) -> Outcome {
    if c.client.argv.len() != 1 {
        fails(c, wrong_args("save"@))
    } else {
        match saved {
            Ok(_) => replies_one(CtxV { dirty: 0, ..c }, status("OK"@)),
            Err(why) => fails(c, failed("ERR SAVE failed: "@, why@)),
        }
    }
}

/// The state of persistence after SAVE.
pub open spec fn save_state(
    c: CtxV,
    p: PersistState,
    saved: Result<(), Vec<u8>>,
    now_secs: i64,
) -> PersistState {
    if c.client.argv.len() != 1 {
        p
    } else {
        match saved {
            Ok(_) => PersistState { last_save_unix: now_secs, rdb_last_bgsave_ok: true, ..p },
            Err(_) => PersistState { rdb_last_bgsave_ok: false, ..p },
        }
    }
}

/// SAVE, given how writing the file went.
pub fn save_command(
    ctx: &mut CommandContext,
    p: &mut PersistState,
    saved: Result<(), Vec<u8>>,
    now_secs: i64,
) -> (r: Result<(), RedisError>)
    requires
        old(ctx).wf(),
    ensures
        final(ctx).wf(),
        done(r, final(ctx)@) == save_outcome(old(ctx)@, saved),
        *final(p) == save_state(old(ctx)@, *old(p), saved, now_secs),
{
    if ctx.arg_count() != 1 {
        return Err(RedisError::wrong_number_of_args("save"));
    }
    match saved {
        Ok(_) => {
            p.last_save_unix = now_secs;
            p.rdb_last_bgsave_ok = true;
            ctx.dirty = 0;
            ctx.reply_simple_string("OK")
        },
        Err(why) => {
            p.rdb_last_bgsave_ok = false;
            Err(failed_error("ERR SAVE failed: ", &why))
        },
    }
}

// ---------------------------------------------------------------------------
// DUMP, RESTORE
// ---------------------------------------------------------------------------

/// How DUMP ends, given the serialized value of the key.
pub open spec fn dump_outcome(c: CtxV, payload: Result<Vec<u8>, Vec<u8>>) -> Outcome {
    let argv = c.client.argv;
    if argv.len() != 2 {
        fails(c, wrong_args("dump"@))
    } else if db_get(c.db, argv[1]) is None {
        replies_one(c, Tok::NullBulk)
    } else {
        match payload {
            Ok(b) => replies_one(c, Tok::Bulk(b@)),
            Err(why) => fails(c, failed("ERR DUMP failed: "@, why@)),
        }
    }
}

/// The value that DUMP serializes.
pub fn dump_source(ctx: &CommandContext) -> (r: Option<&RedisObject>)
    requires
        ctx.wf(),
    ensures
        match r {
            Some(o) => ctx@.client.argv.len() == 2 && db_get(ctx@.db, ctx@.client.argv[1]) == Some(
                o@,
            ),
            None => ctx@.client.argv.len() != 2 || db_get(ctx@.db, ctx@.client.argv[1]) is None,
        },
{
    if ctx.arg_count() != 2 {
        None
    } else {
        ctx.db.lookup_key_read(&ctx.client.argv[1])
    }
}

/// DUMP key, given the serialized value of the key.
pub fn dump_command(ctx: &mut CommandContext, payload: Result<Vec<u8>, Vec<u8>>) -> (r: Result<
    (),
    RedisError,
>)
    requires
        old(ctx).wf(),
    ensures
        final(ctx).wf(),
        done(r, final(ctx)@) == dump_outcome(old(ctx)@, payload),
{
    if ctx.arg_count() != 2 {
        return Err(RedisError::wrong_number_of_args("dump"));
    }
    if !ctx.db.has_key(&ctx.client.argv[1]) {
        return ctx.reply_null_bulk();
    }
    match payload {
        Ok(b) => ctx.reply_bulk(b),
        Err(why) => Err(failed_error("ERR DUMP failed: ", &why)),
    }
}

/// The options of RESTORE.
#[derive(Debug, Clone, Copy, PartialEq, Eq, Structural)]
pub struct RestoreOptions {
    pub replace: bool,
    pub absttl: bool,
    /// The seconds since the key was used, or -1.
    pub lru_idle: i64,
    /// How often the key is used, or -1.
    pub lfu_freq: i64,
}

/// No options.
pub open spec fn no_restore_options() -> RestoreOptions {
    RestoreOptions { replace: false, absttl: false, lru_idle: (-1) as i64, lfu_freq: (-1) as i64 }
}

/// The options of RESTORE from argument `i` on, after those in `o`.
pub open spec fn restore_options(argv: Seq<Seq<u8>>, i: int, o: RestoreOptions) -> Result<
    RestoreOptions,
    ErrV,
>
    decreases argv.len() - i,
{
    if i < 0 || i >= argv.len() {
        Ok(o)
    } else if is_word(argv[i], "replace"@) {
        restore_options(argv, i + 1, RestoreOptions { replace: true, ..o })
    } else if is_word(argv[i], "absttl"@) {
        restore_options(argv, i + 1, RestoreOptions { absttl: true, ..o })
    } else if is_word(argv[i], "idletime"@) && i + 1 < argv.len() && o.lfu_freq == -1 {
        match i64_of(argv[i + 1]) {
            None => Err(ErrV::NotInteger),
            Some(n) => if n < 0 {
                Err(runtime("ERR Invalid IDLETIME value, must be >= 0"@))
            } else {
                restore_options(argv, i + 2, RestoreOptions { lru_idle: n, ..o })
            },
        }
    } else if is_word(argv[i], "freq"@) && i + 1 < argv.len() && o.lru_idle == -1 {
        match i64_of(argv[i + 1]) {
            None => Err(ErrV::NotInteger),
            Some(n) => if n < 0 || n > 255 {
                Err(runtime("ERR Invalid FREQ value, must be >= 0 and <= 255"@))
            } else {
                restore_options(argv, i + 2, RestoreOptions { lfu_freq: n, ..o })
            },
        }
    } else {
        Err(syntax("syntax error"@))
    }
}

/// Parses the options of RESTORE.
pub fn parse_restore_options(argv: &[Vec<u8>]) -> (r: Result<RestoreOptions, RedisError>)
    requires
        argv@.len() >= 4,
    ensures
        match r {
            Ok(o) => restore_options(views(argv@), 4, no_restore_options()) == Ok::<_, ErrV>(o),
            Err(e) => restore_options(views(argv@), 4, no_restore_options()) == Err::<
                RestoreOptions,
                ErrV,
            >(e@),
        },
{
    let ghost all = views(argv@);
    let ghost whole = restore_options(all, 4, no_restore_options());
    let argc: usize = argv.len();
    let mut o = RestoreOptions { replace: false, absttl: false, lru_idle: -1, lfu_freq: -1 };
    let mut i: usize = 4;
    while i < argc
        invariant
            argc == argv@.len(),
            all == views(argv@),
            4 <= i <= argc,
            whole == restore_options(all, 4, no_restore_options()),
            whole == restore_options(all, i as int, o),
        decreases argc - i,
    {
        let a: &Vec<u8> = &argv[i];
        assert(a@ == all[i as int]);
        if word(a, "replace") {
            o.replace = true;
            i += 1;
        } else if word(a, "absttl") {
            o.absttl = true;
            i += 1;
        } else if word(a, "idletime") && argc - i > 1 && o.lfu_freq == -1 {
            match parse_i64(&argv[i + 1]) {
                None => return Err(RedisError::NotInteger),
                Some(n) => {
                    if n < 0 {
                        return Err(
                            RedisError::runtime("ERR Invalid IDLETIME value, must be >= 0"),
                        );
                    }
                    o.lru_idle = n;
                },
            }
            i += 2;
        } else if word(a, "freq") && argc - i > 1 && o.lru_idle == -1 {
            match parse_i64(&argv[i + 1]) {
                None => return Err(RedisError::NotInteger),
                Some(n) => {
                    if n < 0 || n > 255 {
                        return Err(
                            RedisError::runtime("ERR Invalid FREQ value, must be >= 0 and <= 255"),
                        );
                    }
                    o.lfu_freq = n;
                },
            }
            i += 2;
        } else {
            return Err(RedisError::syntax("syntax error"));
        }
    }
    Ok(o)
}

/// A serialized value, as the caller read it.
pub enum Payload {
    /// Its version or its checksum is wrong.
    BadChecksum,
    /// Its data is malformed.
    BadData,
    /// The value.
    Value(RedisObject),
}

/// The time that a restored key expires, with the given TTL.
pub open spec fn restore_time(ttl: i64, absttl: bool, now: i64) -> i64 {
    if absttl {
        ttl
    } else if now + ttl > i64::MAX {
        i64::MAX
    } else {
        (now + ttl) as i64
    }
}

/// What RESTORE tells of the use of its key.
pub open spec fn told_use(o: RestoreOptions) -> KeyUse {
    KeyUse { lru_idle: o.lru_idle, lfu_freq: o.lfu_freq }
}

/// The database after a key was restored, with what was told of its use.
pub open spec fn db_restored(
    d: DbV,
    key: Seq<u8>,
    v: ObjV,
    o: RestoreOptions,
    ttl: i64,
    now: i64,
) -> DbV {
    let at = restore_time(ttl, o.absttl, now);
    if ttl == 0 {
        db_use(db_set(d, key, v, false), key, told_use(o))
    } else if at <= now {
        if o.replace {
            db_delete(d, key)
        } else {
            d
        }
    } else {
        db_expire(db_use(db_set(d, key, v, false), key, told_use(o)), key, at)
    }
}

/// How RESTORE ends, given the value that the payload holds.
pub open spec fn restore_outcome(c: CtxV, payload: Payload) -> Outcome {
    let argv = c.client.argv;
    if argv.len() < 4 {
        fails(c, wrong_args("restore"@))
    } else {
        match restore_options(argv, 4, no_restore_options()) {
            Err(e) => fails(c, e),
            Ok(o) => if !o.replace && db_get(c.db, argv[1]) is Some {
                fails(c, runtime("BUSYKEY Target key name already exists."@))
            } else {
                match i64_of(argv[2]) {
                    None => fails(c, ErrV::NotInteger),
                    Some(ttl) => if ttl < 0 {
                        fails(c, runtime("ERR Invalid TTL value, must be >= 0"@))
                    } else {
                        match payload {
                            Payload::BadChecksum => fails(
                                c,
                                runtime("ERR DUMP payload version or checksum are wrong"@),
                            ),
                            Payload::BadData => fails(c, runtime("ERR Bad data format"@)),
                            Payload::Value(v) => replies_one(
                                restored(c, v@, o, ttl),
                                status("OK"@),
                            ),
                        }
                    },
                }
            },
        }
    }
}

/// The context after RESTORE stored a value. A relative TTL is handed on as an
/// absolute time.
pub open spec fn restored(c: CtxV, v: ObjV, o: RestoreOptions, ttl: i64) -> CtxV {
    let argv = c.client.argv;
    let at = restore_time(ttl, o.absttl, c.now);
    let c1 = counts_dirty(with_db(c, db_restored(c.db, argv[1], v, o, ttl, c.now)), 1);
    if ttl == 0 || o.absttl || at <= c.now {
        c1
    } else {
        with_argv(c1, argv.update(2, dec(at as int)).push(text("ABSTTL"@)))
    }
}

/// Hands a relative TTL on as an absolute time.
fn rewrite_restore_propagation_absttl(ctx: &mut CommandContext, at: i64)
    requires
        old(ctx)@.client.argv.len() >= 4,
    ensures
        final(ctx)@ == with_argv(
            old(ctx)@,
            old(ctx)@.client.argv.update(2, dec(at as int)).push(text("ABSTTL"@)),
        ),
        final(ctx).db == old(ctx).db,
{
    let ghost argv = ctx@.client.argv;
    let mut new_argv: Vec<Vec<u8>> = crate::bytes::dup_all(&ctx.client.argv);
    assert(views(new_argv@) == argv);
    assert(new_argv@.len() == argv.len());
    new_argv.set(2, fmt_i64(at));
    assert(views(new_argv@) =~= argv.update(2, dec(at as int)));
    new_argv.push(lit("ABSTTL"));
    ctx.set_args(new_argv);
}

/// RESTORE key ttl payload [REPLACE] [ABSTTL] [IDLETIME s] [FREQ n], given the
/// value that the payload holds.
pub fn restore_command(ctx: &mut CommandContext, payload: Payload) -> (r: Result<(), RedisError>)
    requires
        old(ctx).wf(),
        payload matches Payload::Value(v) ==> v.wf(),
    ensures
        final(ctx).wf(),
        done(r, final(ctx)@) == restore_outcome(old(ctx)@, payload),
{
    if ctx.arg_count() < 4 {
        return Err(RedisError::wrong_number_of_args("restore"));
    }
    let o: RestoreOptions = match parse_restore_options(&ctx.client.argv) {
        Err(e) => return Err(e),
        Ok(o) => o,
    };
    let key: Vec<u8> = ctx.arg_owned(1);
    if !o.replace && ctx.db.has_key(&key) {
        return Err(RedisError::runtime("BUSYKEY Target key name already exists."));
    }
    let ttl: i64 = match parse_i64(&ctx.client.argv[2]) {
        None => return Err(RedisError::NotInteger),
        Some(n) => n,
    };
    if ttl < 0 {
        return Err(RedisError::runtime("ERR Invalid TTL value, must be >= 0"));
    }
    let v: RedisObject = match payload {
        Payload::BadChecksum => {
            return Err(RedisError::runtime("ERR DUMP payload version or checksum are wrong"));
        },
        Payload::BadData => return Err(RedisError::runtime("ERR Bad data format")),
        Payload::Value(v) => v,
    };
    let now: i64 = ctx.now_ms;
    let told = KeyUse { lru_idle: o.lru_idle, lfu_freq: o.lfu_freq };
    if ttl == 0 {
        ctx.db.set_key(dup(&key), v, false);
        ctx.db.set_use(&key, told);
        ctx.add_dirty(1);
        return ctx.reply_simple_string("OK");
    }
    let at: i64 = if o.absttl {
        ttl
    } else if now as i128 + ttl as i128 > i64::MAX as i128 {
        i64::MAX
    } else {
        now + ttl
    };
    if at <= now {
        if o.replace {
            let _existed: bool = ctx.db.sync_delete(&key);
        }
        ctx.add_dirty(1);
        return ctx.reply_simple_string("OK");
    }
    ctx.db.set_key(dup(&key), v, false);
    ctx.db.set_use(&key, told);
    ctx.db.set_expire(&key, at);
    ctx.add_dirty(1);
    if !o.absttl {
        rewrite_restore_propagation_absttl(ctx, at);
    }
    ctx.reply_simple_string("OK")
}

/// RESTORE-ASKING does what RESTORE does.
pub fn restore_asking_command(ctx: &mut CommandContext, payload: Payload) -> (r: Result<
    (),
    RedisError,
>)
    requires
        old(ctx).wf(),
        payload matches Payload::Value(v) ==> v.wf(),
    ensures
        final(ctx).wf(),
        done(r, final(ctx)@) == restore_outcome(old(ctx)@, payload),
{
    restore_command(ctx, payload)
}

/// A key that was restored without a TTL, or with one that has not passed,
/// holds the restored value, with what was told of its use, if it was.
pub proof fn law_restore_stores(
    d: DbV,
    key: Seq<u8>,
    v: ObjV,
    o: RestoreOptions,
    ttl: i64,
    now: i64,
)
    requires
        ttl >= 0,
        ttl == 0 || restore_time(ttl, o.absttl, now) > now,
    ensures
        db_get(db_restored(d, key, v, o, ttl, now), key) == Some(v),
        db_used(db_restored(d, key, v, o, ttl, now), key) == (if o.lru_idle == -1 && o.lfu_freq
            == -1 {
            None
        } else {
            Some(told_use(o))
        }),
{
}

// ---------------------------------------------------------------------------
// BGSAVE
// ---------------------------------------------------------------------------

/// What BGSAVE is asked to do.
#[derive(Debug, Clone, Copy, PartialEq, Eq, Structural)]
pub enum BgsaveMode {
    Start,
    Schedule,
    Cancel,
}

/// What the caller has to do for BGSAVE.
#[derive(Debug, Clone, Copy, PartialEq, Eq, Structural)]
pub enum BgsaveAction {
    /// Nothing more: the reply is given.
    Nothing,
    /// Stop the process that saves, and remove its file.
    Stop(i32),
    /// Start a save, and tell how that went.
    Fork,
}

/// What BGSAVE is asked to do.
pub open spec fn bgsave_mode(argv: Seq<Seq<u8>>) -> Option<BgsaveMode> {
    if argv.len() != 2 {
        Some(BgsaveMode::Start)
    } else if is_word(argv[1], "schedule"@) {
        Some(BgsaveMode::Schedule)
    } else if is_word(argv[1], "cancel"@) {
        Some(BgsaveMode::Cancel)
    } else {
        None
    }
}

/// How the first part of BGSAVE ends: the outcome, the state of persistence,
/// and what the caller has to do.
pub open spec fn bgsave_step(c: CtxV, p: PersistState) -> (Outcome, PersistState, BgsaveAction) {
    let argv = c.client.argv;
    if argv.len() > 2 {
        (fails(c, wrong_args("bgsave"@)), p, BgsaveAction::Nothing)
    } else {
        match bgsave_mode(argv) {
            None => (fails(c, syntax("syntax error"@)), p, BgsaveAction::Nothing),
            Some(BgsaveMode::Cancel) => if p.rdb_child_pid != 0 {
                (
                    replies_one(c, status("Background saving cancelled"@)),
                    p,
                    BgsaveAction::Stop(p.rdb_child_pid),
                )
            } else if p.rdb_bgsave_scheduled {
                (
                    replies_one(c, status("Scheduled background saving cancelled"@)),
                    PersistState { rdb_bgsave_scheduled: false, ..p },
                    BgsaveAction::Nothing,
                )
            } else {
                (
                    fails(
                        c,
                        runtime(
                            "ERR Background saving is currently not in progress or scheduled"@,
                        ),
                    ),
                    p,
                    BgsaveAction::Nothing,
                )
            },
            Some(mode) => if p.rdb_child_pid != 0 {
                (
                    fails(c, runtime("ERR Background save already in progress"@)),
                    p,
                    BgsaveAction::Nothing,
                )
            } else if p.in_exec || (p.aof_rewrite_in_progress && mode == BgsaveMode::Schedule) {
                (
                    replies_one(c, status("Background saving scheduled"@)),
                    PersistState { rdb_bgsave_scheduled: true, ..p },
                    BgsaveAction::Nothing,
                )
            } else if p.aof_rewrite_in_progress {
                (
                    fails(
                        c,
                        runtime(
                            "ERR Another child process is active (AOF?): can't BGSAVE right now. Use BGSAVE SCHEDULE in order to schedule a BGSAVE whenever possible."@,
                        ),
                    ),
                    p,
                    BgsaveAction::Nothing,
                )
            } else {
                (
                    Outcome { result: Ok(()), ctx: c },
                    PersistState {
                        rdb_dirty_before_bgsave: c.dirty,
                        rdb_bgsave_scheduled: false,
                        ..p
                    },
                    BgsaveAction::Fork,
                )
            },
        }
    }
}

/// What a step came to: success with what to do, or an error.
pub open spec fn step_res<T>(r: Result<T, RedisError>) -> Result<(), ErrV> {
    match r {
        Ok(_) => Ok(()),
        Err(e) => Err(e@),
    }
}

/// BGSAVE [SCHEDULE|CANCEL], up to where a save has to start.
pub fn bgsave_command(ctx: &mut CommandContext, p: &mut PersistState) -> (r: Result<
    BgsaveAction,
    RedisError,
>)
    requires
        old(ctx).wf(),
    ensures
        final(ctx).wf(),
        ({
            let s = bgsave_step(old(ctx)@, *old(p));
            &&& (Outcome { result: step_res(r), ctx: final(ctx)@ }) == s.0
            &&& *final(p) == s.1
            &&& r matches Ok(a) ==> a == s.2
        }),
{
    let argc: usize = ctx.arg_count();
    if argc > 2 {
        return Err(RedisError::wrong_number_of_args("bgsave"));
    }
    let mode: BgsaveMode = if argc == 2 {
        if word(&ctx.client.argv[1], "schedule") {
            BgsaveMode::Schedule
        } else if word(&ctx.client.argv[1], "cancel") {
            BgsaveMode::Cancel
        } else {
            return Err(RedisError::syntax("syntax error"));
        }
    } else {
        BgsaveMode::Start
    };
    if mode == BgsaveMode::Cancel {
        if p.rdb_child_pid != 0 {
            ctx.reply(crate::reply::status_text("Background saving cancelled"));
            return Ok(BgsaveAction::Stop(p.rdb_child_pid));
        }
        if p.rdb_bgsave_scheduled {
            p.rdb_bgsave_scheduled = false;
            ctx.reply(crate::reply::status_text("Scheduled background saving cancelled"));
            return Ok(BgsaveAction::Nothing);
        }
        return Err(
            RedisError::runtime("ERR Background saving is currently not in progress or scheduled"),
        );
    }
    if p.rdb_child_pid != 0 {
        return Err(RedisError::runtime("ERR Background save already in progress"));
    }
    if p.in_exec || (p.aof_rewrite_in_progress && mode == BgsaveMode::Schedule) {
        p.rdb_bgsave_scheduled = true;
        ctx.reply(crate::reply::status_text("Background saving scheduled"));
        return Ok(BgsaveAction::Nothing);
    }
    if p.aof_rewrite_in_progress {
        return Err(
            RedisError::runtime(
                "ERR Another child process is active (AOF?): can't BGSAVE right now. Use BGSAVE SCHEDULE in order to schedule a BGSAVE whenever possible.",
            ),
        );
    }
    p.rdb_dirty_before_bgsave = ctx.dirty;
    p.rdb_bgsave_scheduled = false;
    Ok(BgsaveAction::Fork)
}

/// How starting a save went.
pub enum BgsaveStart {
    /// A process with that ID saves.
    Forked(i32),
    /// A thread saves.
    Threaded,
    /// The databases could not be captured.
    NoSnapshot(RedisError),
}

/// How BGSAVE ends, given how starting the save went.
pub open spec fn bgsave_started_outcome(c: CtxV, s: BgsaveStart) -> Outcome {
    match s {
        BgsaveStart::NoSnapshot(e) => fails(c, e@),
        _ => replies_one(c, status("Background saving started"@)),
    }
}

/// The state of persistence after a save was started.
pub open spec fn bgsave_started_state(p: PersistState, s: BgsaveStart) -> PersistState {
    match s {
        BgsaveStart::Forked(pid) => PersistState {
            rdb_child_pid: pid,
            total_forks: bumped(p.total_forks),
            ..p
        },
        BgsaveStart::Threaded => p,
        BgsaveStart::NoSnapshot(_) => PersistState { rdb_dirty_before_bgsave: 0, ..p },
    }
}

/// The second part of BGSAVE, given how starting the save went.
pub fn bgsave_started(ctx: &mut CommandContext, p: &mut PersistState, s: BgsaveStart) -> (r: Result<
    (),
    RedisError,
>)
    requires
        old(ctx).wf(),
    ensures
        final(ctx).wf(),
        done(r, final(ctx)@) == bgsave_started_outcome(old(ctx)@, s),
        *final(p) == bgsave_started_state(*old(p), s),
{
    match s {
        BgsaveStart::Forked(pid) => {
            p.rdb_child_pid = pid;
            p.total_forks = bump(p.total_forks);
            ctx.reply_simple_string("Background saving started")
        },
        BgsaveStart::Threaded => ctx.reply_simple_string("Background saving started"),
        BgsaveStart::NoSnapshot(e) => {
            p.rdb_dirty_before_bgsave = 0;
            Err(e)
        },
    }
}

/// A number of changes less another, not below zero.
pub open spec fn dirty_less(dirty: u64, n: u64) -> u64 {
    if dirty >= n {
        (dirty - n) as u64
    } else {
        0
    }
}

/// A number of changes less another, not below zero.
pub fn subtract_dirty_saturating(dirty: u64, n: u64) -> (r: u64)
    ensures
        r == dirty_less(dirty, n),
{
    if dirty >= n {
        dirty - n
    } else {
        0
    }
}

/// The state of persistence after a save in the background ended.
pub open spec fn bgsave_ended(p: PersistState, ok: bool, now_secs: i64) -> PersistState {
    PersistState {
        rdb_child_pid: 0,
        rdb_dirty_before_bgsave: 0,
        rdb_last_bgsave_ok: ok,
        last_save_unix: if ok {
            now_secs
        } else {
            p.last_save_unix
        },
        ..p
    }
}

/// A save in the background ended: changes that it holds are no longer
/// counted. Tells the number of changes that are left.
pub fn bgsave_finished(p: &mut PersistState, dirty: u64, ok: bool, now_secs: i64) -> (r: u64)
    ensures
        *final(p) == bgsave_ended(*old(p), ok, now_secs),
        r == (if ok {
            dirty_less(dirty, old(p).rdb_dirty_before_bgsave)
        } else {
            dirty
        }),
{
    let left: u64 = if ok {
        subtract_dirty_saturating(dirty, p.rdb_dirty_before_bgsave)
    } else {
        dirty
    };
    if ok {
        p.last_save_unix = now_secs;
    }
    p.rdb_child_pid = 0;
    p.rdb_dirty_before_bgsave = 0;
    p.rdb_last_bgsave_ok = ok;
    left
}

/// A save starts only where no other one runs, no rewrite of the log runs, and
/// no transaction is being executed.
pub proof fn law_one_save_at_a_time(c: CtxV, p: PersistState)
    ensures
        bgsave_step(c, p).2 == BgsaveAction::Fork ==> p.rdb_child_pid == 0
            && !p.aof_rewrite_in_progress && !p.in_exec,
{
}

/// A save that was scheduled and then cancelled leaves nothing scheduled.
pub proof fn law_schedule_then_cancel(c: CtxV, d: CtxV, p: PersistState)
    requires
        c.client.argv.len() == 2,
        bgsave_mode(c.client.argv) == Some(BgsaveMode::Schedule),
        d.client.argv.len() == 2,
        bgsave_mode(d.client.argv) == Some(BgsaveMode::Cancel),
        p.rdb_child_pid == 0,
        p.aof_rewrite_in_progress,
    ensures
        bgsave_step(c, p).1.rdb_bgsave_scheduled,
        bgsave_step(d, bgsave_step(c, p).1).0.result is Ok,
        !bgsave_step(d, bgsave_step(c, p).1).1.rdb_bgsave_scheduled,
{
}

/// After a save, the changes that are still counted are those that came after
/// it began.
pub proof fn law_later_changes_stay_counted(before: u64, later: u64)
    requires
        before + later <= u64::MAX,
    ensures
        dirty_less((before + later) as u64, before) == later,
{
}

/// The name of the file that a process saves to.
pub open spec fn temp_name(pid: i32) -> Seq<u8> {
    text("temp-"@) + dec(pid as int) + text(".rdb"@)
}

/// The name of the file that a process saves to.
pub fn bgsave_temp_name(pid: i32) -> (r: Vec<u8>)
    ensures
        r@ == temp_name(pid),
{
    let mut r: Vec<u8> = lit("temp-");
    let n: Vec<u8> = fmt_i64(pid as i64);
    put(&mut r, &n);
    put_text(&mut r, ".rdb");
    r
}

/// The number of keys in some databases.
pub open spec fn total_keys(dbs: Seq<RedisDb>) -> nat
    decreases dbs.len(),
{
    if dbs.len() == 0 {
        0
    } else {
        total_keys(dbs.drop_last()) + dbs.last().objects.entries@.len()
    }
}

/// The number of keys in some databases.
pub fn captured_key_count(dbs: &[RedisDb]) -> (r: u128)
    ensures
        r == total_keys(dbs@),
{
    let mut n: u128 = 0;
    let mut i: usize = 0;
    assert(dbs@.take(0) =~= Seq::empty());
    while i < dbs.len()
        invariant
            i <= dbs@.len(),
            n == total_keys(dbs@.take(i as int)),
            n <= i * usize::MAX,
        decreases dbs@.len() - i,
    {
        assert(dbs@.take(i + 1).drop_last() =~= dbs@.take(i as int));
        let k: usize = dbs[i].objects.entries.len();
        assert(i * usize::MAX + usize::MAX <= u128::MAX) by (nonlinear_arith)
            requires
                i <= usize::MAX,
        ;
        assert(i * usize::MAX + usize::MAX == (i + 1) * usize::MAX) by (nonlinear_arith);
        n = n + k as u128;
        i += 1;
    }
    assert(dbs@.take(i as int) =~= dbs@);
    n
}

/// The number of keys in some databases, at least one.
pub fn rdb_snapshot_key_count(dbs: &[RedisDb]) -> (r: u128)
    ensures
        r == (if total_keys(dbs@) == 0 {
            1
        } else {
            total_keys(dbs@)
        }),
{
    let n: u128 = captured_key_count(dbs);
    if n == 0 {
        1
    } else {
        n
    }
}

/// The longest delay of a save, in microseconds.
pub const RDB_DELAY_LIMIT_US: u64 = 5000000;

/// How long a save is delayed at once, in microseconds.
pub const RDB_DELAY_CHUNK_US: u64 = 10000;

/// How long a save of that many keys is delayed, in microseconds.
pub open spec fn save_delay(delay_us: u64, keys: int) -> int {
    if delay_us * keys > RDB_DELAY_LIMIT_US {
        RDB_DELAY_LIMIT_US as int
    } else {
        delay_us * keys
    }
}

/// How long a save of that many keys is delayed, in microseconds.
pub fn rdb_key_save_delay(delay_us: u64, keys: u128) -> (r: u64)
    ensures
        r == save_delay(delay_us, keys as int),
{
    if delay_us == 0 || keys == 0 {
        assert(delay_us * keys == 0) by (nonlinear_arith)
            requires
                delay_us == 0 || keys == 0,
        ;
        return 0;
    }
    if keys > RDB_DELAY_LIMIT_US as u128 {
        assert(delay_us * keys >= keys) by (nonlinear_arith)
            requires
                delay_us >= 1,
        ;
        return RDB_DELAY_LIMIT_US;
    }
    assert(delay_us * keys <= u64::MAX * 5000000) by (nonlinear_arith)
        requires
            delay_us <= u64::MAX,
            keys <= 5000000,
    ;
    let d: u128 = delay_us as u128 * keys;
    if d > RDB_DELAY_LIMIT_US as u128 {
        RDB_DELAY_LIMIT_US
    } else {
        d as u64
    }
}

/// What a delayed save does next.
#[derive(Debug, Clone, Copy, PartialEq, Eq, Structural)]
pub enum DelayStep {
    /// The save is given up.
    Aborted,
    /// Sleep that long; then so much of the delay is left.
    Sleep { micros: u64, left: u64 },
    /// The delay is over.
    Over,
}

/// What a delayed save does next, where so much of the delay is left. It is
/// given up as soon as that is asked for, even where nothing is left.
pub fn sleep_for_rdb_key_save_delay_checked(left: u64, should_abort: bool) -> (r: DelayStep)
    ensures
        r == (if should_abort {
            DelayStep::Aborted
        } else if left == 0 {
            DelayStep::Over
        } else if left <= RDB_DELAY_CHUNK_US {
            DelayStep::Sleep { micros: left, left: 0 }
        } else {
            DelayStep::Sleep {
                micros: RDB_DELAY_CHUNK_US,
                left: (left - RDB_DELAY_CHUNK_US) as u64,
            }
        }),
{
    if should_abort {
        DelayStep::Aborted
    } else if left == 0 {
        DelayStep::Over
    } else if left <= RDB_DELAY_CHUNK_US {
        DelayStep::Sleep { micros: left, left: 0 }
    } else {
        DelayStep::Sleep { micros: RDB_DELAY_CHUNK_US, left: left - RDB_DELAY_CHUNK_US }
    }
}

// ---------------------------------------------------------------------------
// Snapshots for replicas
// ---------------------------------------------------------------------------

/// What became of a snapshot for a replica.
#[derive(Debug, Clone, Copy, PartialEq, Eq, Structural)]
pub enum BgsaveForReplResult {
    /// It is being written.
    Started,
    /// Another one was being written already.
    Skipped,
    /// It could not be started.
    Failed,
}

/// How starting a snapshot for a replica went.
#[derive(Debug, Clone, Copy, PartialEq, Eq, Structural)]
pub enum ReplSnapshotStart {
    /// A process with that ID writes it.
    Forked(i32),
    /// A thread writes it.
    Threaded,
    /// The databases could not be captured.
    NotCaptured,
    /// No thread could be started.
    NotStarted,
}

/// The name of the file that a snapshot for replicas is written to.
pub open spec fn repl_temp_name(pid: i32) -> Seq<u8> {
    text("temp-repl-"@) + dec(pid as int) + text(".rdb"@)
}

/// The name of the file that a snapshot for replicas is written to.
pub fn bgsave_repl_temp_name(pid: i32) -> (r: Vec<u8>)
    ensures
        r@ == repl_temp_name(pid),
{
    let mut r: Vec<u8> = lit("temp-repl-");
    let n: Vec<u8> = fmt_i64(pid as i64);
    put(&mut r, &n);
    put_text(&mut r, ".rdb");
    r
}

/// The job of a snapshot for a replica.
pub open spec fn repl_job(
    client: u64,
    snapshot_offset: i64,
    own_pid: i32,
    child_pid: i32,
    needs_getack: bool,
) -> JobV {
    JobV {
        child_pid,
        temp_name: repl_temp_name(own_pid),
        waiting: seq![client],
        snapshot_offset,
        needs_getack,
    }
}

/// What becomes of a snapshot for a replica, and the states after it.
pub open spec fn bgsave_for_repl(
    r: ReplV,
    p: PersistState,
    client: u64,
    snapshot_offset: i64,
    own_pid: i32,
    needs_getack: bool,
    start: ReplSnapshotStart,
) -> (BgsaveForReplResult, ReplV, PersistState) {
    if r.child_pid != 0 {
        (BgsaveForReplResult::Skipped, r, p)
    } else {
        match start {
            ReplSnapshotStart::Forked(pid) => (
                BgsaveForReplResult::Started,
                ReplV {
                    child_pid: pid,
                    job: Some(repl_job(client, snapshot_offset, own_pid, pid, needs_getack)),
                    ..r
                },
                PersistState { total_forks: bumped(p.total_forks), ..p },
            ),
            ReplSnapshotStart::Threaded => (
                BgsaveForReplResult::Started,
                ReplV {
                    job: Some(repl_job(client, snapshot_offset, own_pid, 0, needs_getack)),
                    ..r
                },
                p,
            ),
            ReplSnapshotStart::NotCaptured => (BgsaveForReplResult::Failed, r, p),
            ReplSnapshotStart::NotStarted => (BgsaveForReplResult::Failed, ReplV {
                job: None,
                ..r
            }, p),
        }
    }
}

/// A snapshot for a replica at the offset that the replica was told, given how
/// starting it went. Its file is named by this process, so that the file of BGSAVE
/// is left alone.
pub fn bgsave_for_replication(
    repl: &mut ReplicationState,
    p: &mut PersistState,
    requesting_client_id: u64,
    snapshot_offset: i64,
    own_pid: i32,
    needs_getack: bool,
    start: ReplSnapshotStart,
) -> (r: BgsaveForReplResult)
    requires
        old(repl).wf(),
    ensures
        final(repl).wf(),
        (r, final(repl)@, *final(p)) == bgsave_for_repl(
            old(repl)@,
            *old(p),
            requesting_client_id,
            snapshot_offset,
            own_pid,
            needs_getack,
            start,
        ),
{
    if repl.child_pid != 0 {
        return BgsaveForReplResult::Skipped;
    }
    let pid: i32 = match start {
        ReplSnapshotStart::Forked(pid) => {
            p.total_forks = bump(p.total_forks);
            repl.child_pid = pid;
            pid
        },
        ReplSnapshotStart::Threaded => 0,
        ReplSnapshotStart::NotCaptured => return BgsaveForReplResult::Failed,
        ReplSnapshotStart::NotStarted => {
            repl.job = None;
            return BgsaveForReplResult::Failed;
        },
    };
    let mut waiting: Vec<u64> = Vec::new();
    waiting.push(requesting_client_id);
    let job = ReplBgsaveJob {
        child_pid: pid,
        temp_name: bgsave_repl_temp_name(own_pid),
        waiting_replicas: waiting,
        snapshot_offset,
        needs_getack_on_completion: needs_getack,
    };
    assert(job@ =~= repl_job(requesting_client_id, snapshot_offset, own_pid, pid, needs_getack));
    repl.job = Some(job);
    BgsaveForReplResult::Started
}

// ---------------------------------------------------------------------------
// BGREWRITEAOF
// ---------------------------------------------------------------------------

/// What the caller has to do for BGREWRITEAOF.
#[derive(Debug, Clone, Copy, PartialEq, Eq, Structural)]
pub enum AofAction {
    /// Take the rewrite off the schedule after that many milliseconds.
    UnscheduleAfter(u64),
    /// Take the rewrite off the schedule when the save has ended.
    UnscheduleAfterSave,
    /// Capture the databases, begin the rewrite, and tell how that went.
    Rewrite,
}

/// The reply of a rewrite that was put off.
pub open spec fn rewrite_scheduled() -> Tok {
    status("Background append only file rewriting scheduled"@)
}

/// How the first part of BGREWRITEAOF ends, given whether what was not yet
/// written to the log could be.
pub open spec fn bgrewriteaof_step(c: CtxV, p: PersistState, flushed: bool) -> (
    Outcome,
    PersistState,
    AofAction,
) {
    if c.client.argv.len() != 1 {
        (fails(c, wrong_args("bgrewriteaof"@)), p, AofAction::Rewrite)
    } else if !flushed {
        (
            fails(c, runtime("ERR BGREWRITEAOF failed while flushing pending AOF writes"@)),
            p,
            AofAction::Rewrite,
        )
    } else if c.client.deny_blocking {
        (
            replies_one(c, rewrite_scheduled()),
            PersistState {
                aof_rewrite_scheduled: true,
                total_forks: bumped(p.total_forks),
                ..p
            },
            AofAction::UnscheduleAfter(100),
        )
    } else if p.aof_rewrite_in_progress {
        (
            fails(c, runtime("ERR Background append only file rewriting already in progress"@)),
            p,
            AofAction::Rewrite,
        )
    } else if p.rdb_child_pid != 0 {
        (
            replies_one(c, rewrite_scheduled()),
            PersistState { aof_rewrite_scheduled: true, ..p },
            AofAction::UnscheduleAfterSave,
        )
    } else {
        (Outcome { result: Ok(()), ctx: c }, p, AofAction::Rewrite)
    }
}

/// BGREWRITEAOF, up to where the databases have to be captured.
pub fn bgrewriteaof_command(ctx: &mut CommandContext, p: &mut PersistState, flushed: bool) -> (r:
    Result<AofAction, RedisError>)
    requires
        old(ctx).wf(),
    ensures
        final(ctx).wf(),
        ({
            let s = bgrewriteaof_step(old(ctx)@, *old(p), flushed);
            &&& (Outcome { result: step_res(r), ctx: final(ctx)@ }) == s.0
            &&& *final(p) == s.1
            &&& r matches Ok(a) ==> a == s.2
        }),
{
    if ctx.arg_count() != 1 {
        return Err(RedisError::wrong_number_of_args("bgrewriteaof"));
    }
    if !flushed {
        return Err(
            RedisError::runtime("ERR BGREWRITEAOF failed while flushing pending AOF writes"),
        );
    }
    if ctx.client.deny_blocking {
        p.aof_rewrite_scheduled = true;
        p.total_forks = bump(p.total_forks);
        ctx.reply(
            crate::reply::status_text("Background append only file rewriting scheduled"),
        );
        return Ok(AofAction::UnscheduleAfter(100));
    }
    if p.aof_rewrite_in_progress {
        return Err(
            RedisError::runtime("ERR Background append only file rewriting already in progress"),
        );
    }
    if p.rdb_child_pid != 0 {
        p.aof_rewrite_scheduled = true;
        ctx.reply(
            crate::reply::status_text("Background append only file rewriting scheduled"),
        );
        return Ok(AofAction::UnscheduleAfterSave);
    }
    Ok(AofAction::Rewrite)
}

/// How beginning a rewrite went.
pub enum AofBegin {
    /// The databases could not be captured.
    NoSnapshot(RedisError),
    /// No log is written: only its base is.
    LogOff,
    /// A new part of the log was opened; the log has that many bytes.
    Begun(u64),
    /// The new part of the log could not be opened.
    NotBegun(Vec<u8>),
}

/// The state of persistence after a rewrite was begun.
pub open spec fn rewrite_begun_state(
    p: PersistState,
    keys: u64,
    micros: u64,
    b: AofBegin,
) -> PersistState {
    let q = PersistState { aof_snapshot_keys: keys, aof_snapshot_micros: micros, ..p };
    match b {
        AofBegin::NoSnapshot(_) => p,
        AofBegin::LogOff => PersistState { aof_rewrite_in_progress: true, ..q },
        AofBegin::Begun(size) => PersistState {
            aof_current_size: size,
            aof_rewrite_in_progress: true,
            ..q
        },
        AofBegin::NotBegun(_) => PersistState { aof_last_bgrewrite_ok: false, ..q },
    }
}

/// The error of a rewrite that was not begun.
pub open spec fn rewrite_begun_error(b: AofBegin) -> Option<ErrV> {
    match b {
        AofBegin::NoSnapshot(e) => Some(e@),
        AofBegin::NotBegun(why) => Some(failed("ERR BGREWRITEAOF failed: "@, why@)),
        _ => None,
    }
}

/// The second part of BGREWRITEAOF, given how beginning the rewrite went. Where
/// it succeeds, a worker has to be started.
pub fn bgrewriteaof_begun(p: &mut PersistState, keys: u64, micros: u64, b: AofBegin) -> (r: Result<
    (),
    RedisError,
>)
    ensures
        *final(p) == rewrite_begun_state(*old(p), keys, micros, b),
        match r {
            Ok(_) => rewrite_begun_error(b) is None,
            Err(e) => rewrite_begun_error(b) == Some(e@),
        },
{
    match b {
        AofBegin::NoSnapshot(e) => return Err(e),
        _ => {},
    }
    p.aof_snapshot_keys = keys;
    p.aof_snapshot_micros = micros;
    match b {
        AofBegin::Begun(size) => {
            p.aof_current_size = size;
            p.aof_rewrite_in_progress = true;
            Ok(())
        },
        AofBegin::NotBegun(why) => {
            p.aof_last_bgrewrite_ok = false;
            Err(failed_error("ERR BGREWRITEAOF failed: ", &why))
        },
        _ => {
            p.aof_rewrite_in_progress = true;
            Ok(())
        },
    }
}

/// How BGREWRITEAOF ends, given whether a worker was started.
pub open spec fn rewrite_spawned_outcome(c: CtxV, spawned: Result<(), Vec<u8>>) -> Outcome {
    match spawned {
        Ok(_) => replies_one(c, status("Background append only file rewriting started"@)),
        Err(why) => fails(c, failed("ERR BGREWRITEAOF failed to start worker: "@, why@)),
    }
}

/// The last part of BGREWRITEAOF, given whether a worker was started.
pub fn bgrewriteaof_spawned(
    ctx: &mut CommandContext,
    p: &mut PersistState,
    spawned: Result<(), Vec<u8>>,
) -> (r: Result<(), RedisError>)
    requires
        old(ctx).wf(),
    ensures
        final(ctx).wf(),
        done(r, final(ctx)@) == rewrite_spawned_outcome(old(ctx)@, spawned),
        *final(p) == (match spawned {
            Ok(_) => *old(p),
            Err(_) => PersistState {
                aof_rewrite_in_progress: false,
                aof_last_bgrewrite_ok: false,
                ..*old(p)
            },
        }),
{
    match spawned {
        Ok(_) => ctx.reply_simple_string("Background append only file rewriting started"),
        Err(why) => {
            p.aof_rewrite_in_progress = false;
            p.aof_last_bgrewrite_ok = false;
            Err(failed_error("ERR BGREWRITEAOF failed to start worker: ", &why))
        },
    }
}

/// The worker of a rewrite ended: with the sizes of the base and of the log, or
/// without success.
pub fn bgrewriteaof_finished(p: &mut PersistState, sizes: Option<(u64, u64)>)
    ensures
        *final(p) == (match sizes {
            Some((base, current)) => PersistState {
                aof_base_size: base,
                aof_current_size: current,
                aof_last_bgrewrite_ok: true,
                aof_rewrite_in_progress: false,
                ..*old(p)
            },
            None => PersistState {
                aof_last_bgrewrite_ok: false,
                aof_rewrite_in_progress: false,
                ..*old(p)
            },
        }),
{
    match sizes {
        Some((base, current)) => {
            p.aof_base_size = base;
            p.aof_current_size = current;
            p.aof_last_bgrewrite_ok = true;
        },
        None => {
            p.aof_last_bgrewrite_ok = false;
        },
    }
    p.aof_rewrite_in_progress = false;
}

/// A rewrite begins only where no other one and no save runs.
pub proof fn law_rewrite_waits_for_others(c: CtxV, p: PersistState, flushed: bool)
    requires
        bgrewriteaof_step(c, p, flushed).0.result is Ok,
        bgrewriteaof_step(c, p, flushed).2 == AofAction::Rewrite,
    ensures
        !p.aof_rewrite_in_progress,
        p.rdb_child_pid == 0,
        !c.client.deny_blocking,
{
}

} // verus!
