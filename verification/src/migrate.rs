//! MIGRATE: what is sent to the target, how its answers are read, and which
//! keys leave this server.

use vstd::prelude::*;

use crate::bytes::{
    dec, dup, fmt_i64, fmt_u64, i64_of, is_word, lemma_views_push, lit, parse_i64, slice, text,
    views, word,
};
use crate::context::{
    argv_views, counts_dirty, done, fails, replies_one, with_db, CommandContext, CtxV, Outcome,
};
use crate::error::{runtime, syntax, wrong_args, ErrV, RedisError};
use crate::keyspace::{db_delete, db_get, db_ttl, DbV};
use crate::persist::{failed, failed_error};
use crate::reply::{bulk_frame, header, lemma_toks_add, lemma_toks_push, status};
use crate::resp::{command_frame, encode_resp_command, find_crlf, lemma_header_read, line_end};

verus! {

broadcast use {lemma_toks_push, lemma_toks_add, lemma_views_push};

// ---------------------------------------------------------------------------
// Options
// ---------------------------------------------------------------------------

/// What MIGRATE is asked to do.
pub struct MigrateOptions {
    pub host: Vec<u8>,
    pub port: u16,
    pub db: u32,
    pub timeout_ms: u64,
    pub copy: bool,
    pub replace: bool,
    pub auth: Option<Vec<u8>>,
    /// A user name and a password.
    pub auth2: Option<(Vec<u8>, Vec<u8>)>,
    pub keys: Vec<Vec<u8>>,
}

/// What MIGRATE is asked to do.
#[verifier::ext_equal]
pub struct MigrateV {
    pub host: Seq<u8>,
    pub port: u16,
    pub db: u32,
    pub timeout_ms: u64,
    pub copy: bool,
    pub replace: bool,
    pub auth: Option<Seq<u8>>,
    pub auth2: Option<(Seq<u8>, Seq<u8>)>,
    pub keys: Seq<Seq<u8>>,
}

impl View for MigrateOptions {
    type V = MigrateV;

    open spec fn view(&self) -> MigrateV {
        MigrateV {
            host: self.host@,
            port: self.port,
            db: self.db,
            timeout_ms: self.timeout_ms,
            copy: self.copy,
            replace: self.replace,
            auth: crate::bytes::opt_view(self.auth),
            auth2: match self.auth2 {
                Some(p) => Some((p.0@, p.1@)),
                None => None,
            },
            keys: views(self.keys@),
        }
    }
}

/// The options of MIGRATE from argument `i` on, after those in `o`. KEYS takes
/// the rest of the arguments; `key` is the single key.
pub open spec fn migrate_options(argv: Seq<Seq<u8>>, i: int, o: MigrateV, key: Seq<u8>) -> Result<
    MigrateV,
    ErrV,
>
    decreases argv.len() - i,
{
    if i < 0 || i >= argv.len() {
        Ok(o)
    } else if is_word(argv[i], "copy"@) {
        migrate_options(argv, i + 1, MigrateV { copy: true, ..o }, key)
    } else if is_word(argv[i], "replace"@) {
        migrate_options(argv, i + 1, MigrateV { replace: true, ..o }, key)
    } else if is_word(argv[i], "auth"@) {
        if i + 1 >= argv.len() {
            Err(syntax("syntax error"@))
        } else {
            migrate_options(argv, i + 2, MigrateV { auth: Some(argv[i + 1]), ..o }, key)
        }
    } else if is_word(argv[i], "auth2"@) {
        if i + 2 >= argv.len() {
            Err(syntax("syntax error"@))
        } else {
            migrate_options(
                argv,
                i + 3,
                MigrateV { auth2: Some((argv[i + 1], argv[i + 2])), ..o },
                key,
            )
        }
    } else if is_word(argv[i], "keys"@) {
        if key.len() > 0 {
            Err(
                runtime(
                    "ERR When using MIGRATE KEYS option, the key argument must be set to the empty string"@,
                ),
            )
        } else if i + 1 >= argv.len() {
            Err(syntax("syntax error"@))
        } else {
            Ok(MigrateV { keys: argv.skip(i + 1), ..o })
        }
    } else {
        Err(syntax("syntax error"@))
    }
}

/// What MIGRATE is asked to do, on a server with that many databases.
pub open spec fn migrate_request(argv: Seq<Seq<u8>>, databases: u32) -> Result<MigrateV, ErrV> {
    if argv.len() < 6 {
        Err(wrong_args("migrate"@))
    } else {
        match i64_of(argv[2]) {
            None => Err(ErrV::NotInteger),
            Some(port) => if port < 0 || port > u16::MAX {
                Err(runtime("ERR port is out of range"@))
            } else {
                match i64_of(argv[4]) {
                    None => Err(ErrV::NotInteger),
                    Some(db) => if db < 0 || db >= databases {
                        Err(runtime("ERR DB index is out of range"@))
                    } else {
                        match i64_of(argv[5]) {
                            None => Err(ErrV::NotInteger),
                            Some(timeout) => if timeout < 0 {
                                Err(runtime("ERR timeout is negative"@))
                            } else {
                                migrate_options(
                                    argv,
                                    6,
                                    MigrateV {
                                        host: argv[1],
                                        port: port as u16,
                                        db: db as u32,
                                        timeout_ms: timeout as u64,
                                        copy: false,
                                        replace: false,
                                        auth: None,
                                        auth2: None,
                                        keys: if argv[3].len() == 0 {
                                            Seq::empty()
                                        } else {
                                            seq![argv[3]]
                                        },
                                    },
                                    argv[3],
                                )
                            },
                        }
                    },
                }
            },
        }
    }
}

/// The arguments from position `from` on.
fn rest_of(argv: &[Vec<u8>], from: usize) -> (r: Vec<Vec<u8>>)
    requires
        from <= argv@.len(),
    ensures
        views(r@) == views(argv@).skip(from as int),
{
    let mut r: Vec<Vec<u8>> = Vec::new();
    let mut i: usize = from;
    while i < argv.len()
        invariant
            from <= i <= argv@.len(),
            views(r@) =~= views(argv@).subrange(from as int, i as int),
        decreases argv@.len() - i,
    {
        r.push(dup(&argv[i]));
        i += 1;
    }
    assert(views(argv@).subrange(from as int, i as int) =~= views(argv@).skip(from as int));
    r
}

/// Parses the options of MIGRATE from the seventh argument on.
fn parse_migrate_rest(argv: &[Vec<u8>], start: MigrateOptions) -> (r: Result<
    MigrateOptions,
    RedisError,
>)
    requires
        argv@.len() >= 6,
    ensures
        match r {
            Ok(o) => migrate_options(views(argv@), 6, start@, views(argv@)[3]) == Ok::<_, ErrV>(
                o@,
            ),
            Err(e) => migrate_options(views(argv@), 6, start@, views(argv@)[3]) == Err::<
                MigrateV,
                ErrV,
            >(e@),
        },
{
    let ghost all = views(argv@);
    let ghost first = start@;
    let ghost whole = migrate_options(all, 6, first, all[3]);
    let argc: usize = argv.len();
    let mut o: MigrateOptions = start;
    let mut i: usize = 6;
    while i < argc
        invariant
            argc == argv@.len(),
            all == views(argv@),
            6 <= i <= argc,
            first == start@,
            whole == migrate_options(all, 6, first, all[3]),
            whole == migrate_options(all, i as int, o@, all[3]),
        decreases argc - i,
    {
        let ghost was = o@;
        let a: &Vec<u8> = &argv[i];
        assert(a@ == all[i as int]);
        if word(a, "copy") {
            o.copy = true;
            assert(o@ =~= MigrateV { copy: true, ..was });
            i += 1;
        } else if word(a, "replace") {
            o.replace = true;
            assert(o@ =~= MigrateV { replace: true, ..was });
            i += 1;
        } else if word(a, "auth") {
            if argc - i < 2 {
                return Err(RedisError::syntax("syntax error"));
            }
            o.auth = Some(dup(&argv[i + 1]));
            assert(o@ =~= MigrateV { auth: Some(all[i + 1]), ..was });
            i += 2;
        } else if word(a, "auth2") {
            if argc - i < 3 {
                return Err(RedisError::syntax("syntax error"));
            }
            o.auth2 = Some((dup(&argv[i + 1]), dup(&argv[i + 2])));
            assert(o@ =~= MigrateV { auth2: Some((all[i + 1], all[i + 2])), ..was });
            i += 3;
        } else if word(a, "keys") {
            if argv[3].len() > 0 {
                return Err(
                    RedisError::runtime(
                        "ERR When using MIGRATE KEYS option, the key argument must be set to the empty string",
                    ),
                );
            }
            if argc - i < 2 {
                return Err(RedisError::syntax("syntax error"));
            }
            o.keys = rest_of(argv, i + 1);
            assert(o@ =~= MigrateV { keys: all.skip(i + 1), ..was });
            return Ok(o);
        } else {
            return Err(RedisError::syntax("syntax error"));
        }
    }
    Ok(o)
}

/// What MIGRATE is asked to do, on a server with that many databases.
pub fn parse_migrate_options(argv: &[Vec<u8>], databases: u32) -> (r: Result<
    MigrateOptions,
    RedisError,
>)
    ensures
        match r {
            Ok(o) => migrate_request(views(argv@), databases) == Ok::<_, ErrV>(o@),
            Err(e) => migrate_request(views(argv@), databases) == Err::<MigrateV, ErrV>(e@),
        },
{
    if argv.len() < 6 {
        return Err(RedisError::wrong_number_of_args("migrate"));
    }
    let port: i64 = match parse_i64(&argv[2]) {
        None => return Err(RedisError::NotInteger),
        Some(n) => n,
    };
    if port < 0 || port > 65535 {
        return Err(RedisError::runtime("ERR port is out of range"));
    }
    let db: i64 = match parse_i64(&argv[4]) {
        None => return Err(RedisError::NotInteger),
        Some(n) => n,
    };
    if db < 0 || db >= databases as i64 {
        return Err(RedisError::runtime("ERR DB index is out of range"));
    }
    let timeout: i64 = match parse_i64(&argv[5]) {
        None => return Err(RedisError::NotInteger),
        Some(n) => n,
    };
    if timeout < 0 {
        return Err(RedisError::runtime("ERR timeout is negative"));
    }
    let mut keys: Vec<Vec<u8>> = Vec::new();
    if argv[3].len() > 0 {
        keys.push(dup(&argv[3]));
    }
    let o = MigrateOptions {
        host: dup(&argv[1]),
        port: port as u16,
        db: db as u32,
        timeout_ms: timeout as u64,
        copy: false,
        replace: false,
        auth: None,
        auth2: None,
        keys,
    };
    let ghost all = views(argv@);
    assert(o@ =~= MigrateV {
        host: all[1],
        port: port as u16,
        db: db as u32,
        timeout_ms: timeout as u64,
        copy: false,
        replace: false,
        auth: None,
        auth2: None,
        keys: if all[3].len() == 0 {
            Seq::empty()
        } else {
            seq![all[3]]
        },
    });
    parse_migrate_rest(argv, o)
}

// ---------------------------------------------------------------------------
// Talking to the target
// ---------------------------------------------------------------------------

/// The commands that a target gets before any key: it is told who asks, and
/// which database to use.
pub open spec fn preamble(o: MigrateV) -> Seq<Seq<Seq<u8>>> {
    let select = seq![text("SELECT"@), dec(o.db as int)];
    match o.auth2 {
        Some((user, password)) => seq![seq![text("AUTH"@), user, password], select],
        None => match o.auth {
            Some(password) => seq![seq![text("AUTH"@), password], select],
            None => seq![select],
        },
    }
}

/// The commands that a target gets before any key.
pub fn migrate_preamble(o: &MigrateOptions) -> (r: Vec<Vec<Vec<u8>>>)
    ensures
        argv_views(r@) == preamble(o@),
{
    let mut r: Vec<Vec<Vec<u8>>> = Vec::new();
    match &o.auth2 {
        Some(p) => {
            let mut a: Vec<Vec<u8>> = Vec::new();
            a.push(lit("AUTH"));
            a.push(dup(&p.0));
            a.push(dup(&p.1));
            assert(views(a@) =~= seq![text("AUTH"@), p.0@, p.1@]);
            r.push(a);
        },
        None => match &o.auth {
            Some(password) => {
                let mut a: Vec<Vec<u8>> = Vec::new();
                a.push(lit("AUTH"));
                a.push(dup(password));
                assert(views(a@) =~= seq![text("AUTH"@), password@]);
                r.push(a);
            },
            None => {},
        },
    }
    let mut s: Vec<Vec<u8>> = Vec::new();
    s.push(lit("SELECT"));
    s.push(fmt_u64(o.db as u64));
    assert(views(s@) =~= seq![text("SELECT"@), dec(o.db as int)]);
    r.push(s);
    assert(argv_views(r@) =~= preamble(o@));
    r
}

/// The command that stores a key on the target.
pub open spec fn restore_argv(
    key: Seq<u8>,
    ttl: i64,
    payload: Seq<u8>,
    replace: bool,
) -> Seq<Seq<u8>> {
    let plain = seq![text("RESTORE"@), key, dec(ttl as int), payload];
    if replace {
        plain.push(text("REPLACE"@))
    } else {
        plain
    }
}

/// The command that stores a key on the target, as it is sent.
pub fn migrate_restore_frame(key: &[u8], ttl: i64, payload: &[u8], replace: bool) -> (r: Vec<u8>)
    ensures
        r@ == command_frame(restore_argv(key@, ttl, payload@, replace)),
{
    let mut a: Vec<Vec<u8>> = Vec::new();
    a.push(lit("RESTORE"));
    a.push(dup(key));
    a.push(fmt_i64(ttl));
    a.push(dup(payload));
    if replace {
        a.push(lit("REPLACE"));
    }
    assert(views(a@) =~= restore_argv(key@, ttl, payload@, replace));
    encode_resp_command(&a)
}

/// The milliseconds that a key still lives, or 0 where it does not expire.
pub open spec fn remaining_ttl(d: DbV, key: Seq<u8>, now: i64) -> i64 {
    match db_ttl(d, key) {
        None => 0,
        Some(at) => if at <= now {
            0
        } else if at - now > i64::MAX {
            i64::MAX
        } else {
            (at - now) as i64
        },
    }
}

/// The milliseconds that a key still lives; nothing where it does not exist.
pub fn source_migrate_ttl(ctx: &CommandContext, key: &[u8]) -> (r: Option<i64>)
    requires
        ctx.wf(),
    ensures
        match r {
            None => db_get(ctx@.db, key@) is None,
            Some(ttl) => db_get(ctx@.db, key@) is Some && ttl == remaining_ttl(
                ctx@.db,
                key@,
                ctx@.now,
            ),
        },
{
    if !ctx.db.has_key(key) {
        return None;
    }
    match ctx.db.expire_of(key) {
        None => Some(0),
        Some(at) => {
            if at <= ctx.now_ms {
                Some(0)
            } else {
                let d: i128 = at as i128 - ctx.now_ms as i128;
                if d > i64::MAX as i128 {
                    Some(i64::MAX)
                } else {
                    Some(d as i64)
                }
            }
        },
    }
}

/// An answer of the target: what it says, or what it complains of.
pub enum TargetReply {
    Said(Vec<u8>),
    Complained(Vec<u8>),
}

/// An answer of the target.
#[verifier::ext_equal]
pub enum TargetV {
    Said(Seq<u8>),
    Complained(Seq<u8>),
}

impl View for TargetReply {
    type V = TargetV;

    open spec fn view(&self) -> TargetV {
        match self {
            TargetReply::Said(b) => TargetV::Said(b@),
            TargetReply::Complained(b) => TargetV::Complained(b@),
        }
    }
}

/// The error for a bulk answer that is malformed.
pub open spec fn bad_bulk() -> ErrV {
    runtime("IOERR invalid bulk reply"@)
}

/// The first answer in what the target sent; nothing where it is not complete.
pub open spec fn scalar(s: Seq<u8>) -> Result<Option<TargetV>, ErrV> {
    if s.len() == 0 {
        Ok(None)
    } else if s[0] == 43 || s[0] == 45 || s[0] == 58 {
        match line_end(s, 1) {
            None => Ok(None),
            Some(e) => if s[0] == 45 {
                Ok(Some(TargetV::Complained(s.subrange(1, e))))
            } else {
                Ok(Some(TargetV::Said(s.subrange(1, e))))
            },
        }
    } else if s[0] == 36 {
        match line_end(s, 1) {
            None => Ok(None),
            Some(e) => match i64_of(s.subrange(1, e)) {
                None => Err(bad_bulk()),
                Some(n) => if n < 0 {
                    Ok(Some(TargetV::Said(Seq::empty())))
                } else if e + 2 + n + 2 > usize::MAX {
                    Err(bad_bulk())
                } else if e + 2 + n + 2 > s.len() {
                    Ok(None)
                } else if s[e + 2 + n] != 13 || s[e + 3 + n] != 10 {
                    Err(bad_bulk())
                } else {
                    Ok(Some(TargetV::Said(s.subrange(e + 2, e + 2 + n))))
                },
            },
        }
    } else {
        Err(runtime("IOERR invalid target reply"@))
    }
}

/// Reads the first answer in what the target sent.
pub fn parse_resp_scalar(s: &[u8]) -> (r: Result<Option<TargetReply>, RedisError>)
    ensures
        match r {
            Ok(Some(t)) => scalar(s@) == Ok::<_, ErrV>(Some(t@)),
            Ok(None) => scalar(s@) == Ok::<Option<TargetV>, ErrV>(None),
            Err(e) => scalar(s@) == Err::<Option<TargetV>, ErrV>(e@),
        },
{
    let len: usize = s.len();
    if len == 0 {
        return Ok(None);
    }
    let kind: u8 = s[0];
    if kind == 43 || kind == 45 || kind == 58 {
        match find_crlf(s, 1) {
            None => Ok(None),
            Some(e) => {
                let b: Vec<u8> = slice(s, 1, e);
                if kind == 45 {
                    Ok(Some(TargetReply::Complained(b)))
                } else {
                    Ok(Some(TargetReply::Said(b)))
                }
            },
        }
    } else if kind == 36 {
        let e: usize = match find_crlf(s, 1) {
            None => return Ok(None),
            Some(e) => e,
        };
        let num: Vec<u8> = slice(s, 1, e);
        let n: i64 = match parse_i64(&num) {
            None => return Err(RedisError::runtime("IOERR invalid bulk reply")),
            Some(n) => n,
        };
        if n < 0 {
            let none: Vec<u8> = Vec::new();
            assert(none@ =~= Seq::empty());
            return Ok(Some(TargetReply::Said(none)));
        }
        let needed: u128 = e as u128 + 4 + n as u128;
        if needed > usize::MAX as u128 {
            return Err(RedisError::runtime("IOERR invalid bulk reply"));
        }
        if needed > len as u128 {
            return Ok(None);
        }
        let n: usize = n as usize;
        if s[e + 2 + n] != 13 || s[e + 3 + n] != 10 {
            return Err(RedisError::runtime("IOERR invalid bulk reply"));
        }
        Ok(Some(TargetReply::Said(slice(s, e + 2, e + 2 + n))))
    } else {
        Err(RedisError::runtime("IOERR invalid target reply"))
    }
}

/// A bulk answer is read as what it holds, whatever follows it.
pub proof fn law_bulk_answer_read_back(b: Seq<u8>, rest: Seq<u8>)
    requires
        bulk_frame(b).len() <= usize::MAX,
        b.len() <= i64::MAX,
    ensures
        scalar(bulk_frame(b) + rest) == Ok::<_, ErrV>(Some(TargetV::Said(b))),
{
    let s = bulk_frame(b) + rest;
    let h = header(36, b.len() as int);
    assert(s.subrange(0, h.len() as int) =~= h);
    lemma_header_read(s, 0, 36, b.len() as int);
    let e: int = 1 + dec(b.len() as int).len() as int;
    assert(s.subrange(e + 2, e + 2 + b.len()) =~= b);
}

/// What an answer comes to: what the target says, or an error that quotes its
/// complaint.
pub fn target_result(t: TargetReply) -> (r: Result<Vec<u8>, RedisError>)
    ensures
        match t@ {
            TargetV::Said(b) => r matches Ok(x) && x@ == b,
            TargetV::Complained(b) => r matches Err(e) && e@ == failed(
                "ERR Target instance replied with error: "@,
                b,
            ),
        },
{
    match t {
        TargetReply::Said(b) => Ok(b),
        TargetReply::Complained(b) => Err(
            failed_error("ERR Target instance replied with error: ", &b),
        ),
    }
}

// ---------------------------------------------------------------------------
// The end
// ---------------------------------------------------------------------------

/// What became of one key.
pub enum KeyResult {
    /// It does not exist here.
    Missing,
    /// It could not be serialized.
    Unreadable(RedisError),
    /// The target took it.
    Taken,
    /// The target did not take it.
    Refused(RedisError),
}

/// The error of the first key that could not be serialized: MIGRATE stops there.
pub open spec fn unreadable(rs: Seq<KeyResult>, i: int) -> Option<ErrV>
    decreases rs.len() - i,
{
    if i < 0 || i >= rs.len() {
        None
    } else {
        match rs[i] {
            KeyResult::Unreadable(e) => Some(e@),
            _ => unreadable(rs, i + 1),
        }
    }
}

/// The error of the first key that the target did not take.
pub open spec fn refused(rs: Seq<KeyResult>, i: int) -> Option<ErrV>
    decreases rs.len() - i,
{
    if i < 0 || i >= rs.len() {
        None
    } else {
        match rs[i] {
            KeyResult::Refused(e) => Some(e@),
            _ => refused(rs, i + 1),
        }
    }
}

/// The number of keys among the first `n` that the target took.
pub open spec fn taken(rs: Seq<KeyResult>, n: int) -> nat
    decreases n,
{
    if n <= 0 {
        0
    } else {
        taken(rs, n - 1) + if rs[n - 1] is Taken {
            1nat
        } else {
            0nat
        }
    }
}

/// The database without those of the first `n` keys that the target took.
pub open spec fn db_migrated(d: DbV, keys: Seq<Seq<u8>>, rs: Seq<KeyResult>, n: int) -> DbV
    decreases n,
{
    if n <= 0 {
        d
    } else {
        let before = db_migrated(d, keys, rs, n - 1);
        if rs[n - 1] is Taken {
            db_delete(before, keys[n - 1])
        } else {
            before
        }
    }
}

/// How MIGRATE ends, given what became of each key. Keys that the target took
/// leave this server, unless they are copied.
pub open spec fn migrate_outcome(c: CtxV, o: MigrateV, rs: Seq<KeyResult>) -> Outcome {
    let n = rs.len() as int;
    let moved = if o.copy {
        c
    } else {
        with_db(c, db_migrated(c.db, o.keys, rs, n))
    };
    if unreadable(rs, 0) is Some {
        fails(c, unreadable(rs, 0)->0)
    } else if refused(rs, 0) is Some {
        fails(moved, refused(rs, 0)->0)
    } else if taken(rs, n) == 0 {
        replies_one(c, status("NOKEY"@))
    } else {
        replies_one(counts_dirty(moved, taken(rs, n) as u64), status("OK"@))
    }
}

/// A copy of an error.
pub fn error_copy(e: &RedisError) -> (r: RedisError)
    ensures
        r@ == e@,
{
    match e {
        RedisError::WrongNumberOfArgs(b) => RedisError::WrongNumberOfArgs(dup(b)),
        RedisError::Syntax(b) => RedisError::Syntax(dup(b)),
        RedisError::WrongType => RedisError::WrongType,
        RedisError::NotInteger => RedisError::NotInteger,
        RedisError::NotFloat => RedisError::NotFloat,
        RedisError::OutOfRange => RedisError::OutOfRange,
        RedisError::Runtime(b) => RedisError::Runtime(dup(b)),
    }
}

/// The error of the first key that could not be serialized.
fn first_unreadable(rs: &Vec<KeyResult>) -> (r: Option<RedisError>)
    ensures
        match r {
            Some(e) => unreadable(rs@, 0) == Some(e@),
            None => unreadable(rs@, 0) is None,
        },
{
    let mut i: usize = 0;
    while i < rs.len()
        invariant
            i <= rs@.len(),
            unreadable(rs@, 0) == unreadable(rs@, i as int),
        decreases rs@.len() - i,
    {
        match &rs[i] {
            KeyResult::Unreadable(e) => return Some(error_copy(e)),
            _ => {},
        }
        i += 1;
    }
    None
}

/// The error of the first key that the target did not take.
fn first_refused(rs: &Vec<KeyResult>) -> (r: Option<RedisError>)
    ensures
        match r {
            Some(e) => refused(rs@, 0) == Some(e@),
            None => refused(rs@, 0) is None,
        },
{
    let mut i: usize = 0;
    while i < rs.len()
        invariant
            i <= rs@.len(),
            refused(rs@, 0) == refused(rs@, i as int),
        decreases rs@.len() - i,
    {
        match &rs[i] {
            KeyResult::Refused(e) => return Some(error_copy(e)),
            _ => {},
        }
        i += 1;
    }
    None
}

/// The number of keys that the target took.
fn count_taken(rs: &Vec<KeyResult>) -> (r: u64)
    ensures
        r == taken(rs@, rs@.len() as int),
{
    let mut n: u64 = 0;
    let mut i: usize = 0;
    while i < rs.len()
        invariant
            i <= rs@.len(),
            n == taken(rs@, i as int),
            n <= i,
        decreases rs@.len() - i,
    {
        match &rs[i] {
            KeyResult::Taken => n += 1,
            _ => {},
        }
        i += 1;
    }
    n
}

/// Deletes the keys that the target took.
fn delete_taken(ctx: &mut CommandContext, keys: &Vec<Vec<u8>>, rs: &Vec<KeyResult>)
    requires
        old(ctx).wf(),
        rs@.len() == keys@.len(),
    ensures
        final(ctx).wf(),
        final(ctx)@ == with_db(
            old(ctx)@,
            db_migrated(old(ctx)@.db, views(keys@), rs@, rs@.len() as int),
        ),
{
    let ghost c = ctx@;
    let mut i: usize = 0;
    while i < rs.len()
        invariant
            i <= rs@.len(),
            rs@.len() == keys@.len(),
            ctx.wf(),
            ctx@ == with_db(c, db_migrated(c.db, views(keys@), rs@, i as int)),
        decreases rs@.len() - i,
    {
        match &rs[i] {
            KeyResult::Taken => {
                let _existed: bool = ctx.db.sync_delete(&keys[i]);
            },
            _ => {},
        }
        i += 1;
    }
}

/// MIGRATE, given what became of each key.
pub fn migrate_command(ctx: &mut CommandContext, o: &MigrateOptions, rs: &Vec<KeyResult>) -> (r:
    Result<(), RedisError>)
    requires
        old(ctx).wf(),
        rs@.len() == o.keys@.len(),
    ensures
        final(ctx).wf(),
        done(r, final(ctx)@) == migrate_outcome(old(ctx)@, o@, rs@),
{
    match first_unreadable(rs) {
        Some(e) => return Err(e),
        None => {},
    }
    let first: Option<RedisError> = first_refused(rs);
    let n: u64 = count_taken(rs);
    if n == 0 && first.is_none() {
        return ctx.reply_simple_string("NOKEY");
    }
    if !o.copy {
        delete_taken(ctx, &o.keys, rs);
    }
    match first {
        Some(e) => Err(e),
        None => {
            ctx.add_dirty(n);
            ctx.reply_simple_string("OK")
        },
    }
}

/// A key that the target did not take stays here.
pub proof fn law_untaken_keys_stay(
    d: DbV,
    keys: Seq<Seq<u8>>,
    rs: Seq<KeyResult>,
    n: int,
    key: Seq<u8>,
)
    requires
        0 <= n <= keys.len(),
        n <= rs.len(),
        forall|i: int| 0 <= i < n && rs[i] is Taken ==> #[trigger] keys[i] != key,
    ensures
        db_get(db_migrated(d, keys, rs, n), key) == db_get(d, key),
    decreases n,
{
    if n > 0 {
        assert(rs[n - 1] is Taken ==> keys[n - 1] != key);
        law_untaken_keys_stay(d, keys, rs, n - 1, key);
    }
}

/// A key that the target took is gone here.
pub proof fn law_taken_keys_leave(
    d: DbV,
    keys: Seq<Seq<u8>>,
    rs: Seq<KeyResult>,
    n: int,
    i: int,
)
    requires
        0 <= i < n <= keys.len(),
        n <= rs.len(),
        rs[i] is Taken,
    ensures
        db_get(db_migrated(d, keys, rs, n), keys[i]) is None,
    decreases n,
{
    if i < n - 1 {
        law_taken_keys_leave(d, keys, rs, n - 1, i);
    }
}

} // verus!
