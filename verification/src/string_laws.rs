//! What holds of string commands that follow one another.

use vstd::prelude::*;

use crate::bytes::{dec, i64_of, is_word, law_decimal_round_trip, text};
use crate::context::{replies_one, with_argv, CtxV, Outcome};
use crate::error::ErrV;
use crate::keyspace::{db_get, db_ttl, str_in, DbV, ObjV};
use crate::lcs::{is_subsequence, law_lcs_is_longest, lcs_len, lcs_of, lcs_options, lcs_outcome};
use crate::reply::Tok;
use crate::string::{
    append_outcome, counted_outcome, counter_in, decr_outcome, decrby_outcome, delifeq_outcome,
    get_outcome, getdel_outcome, getex_outcome, getrange_outcome, getset_outcome, incr_outcome,
    incrby_outcome, incrbyfloat_outcome, no_set_options, overwritten, psetex_outcome, set_options,
    set_outcome, set_written, setex_outcome, setnx_outcome, setrange_outcome, strlen_outcome,
    substring, FloatSum, SetOptsV, PROTO_MAX_BULK_LEN_DEFAULT,
};
use crate::string_multi::{
    mget_outcome, mset_outcome, msetex_options, msetex_outcome, msetex_stored, msetnx_outcome,
    no_msetex_options, pairs_stored, some_key_exists, MsetexOptions,
};
use crate::words::lemma_words_differ;

verus! {

/// After SET with whatever options wrote a value whose expiry time, if any,
/// lies ahead, the key holds that value, and other keys hold what they held.
pub proof fn law_set_writes(c: CtxV, key: Seq<u8>, value: Seq<u8>, o: SetOptsV, other: Seq<u8>)
    requires
        o.expire matches Some(e) ==> e.1 > c.now,
    ensures
        str_in(set_written(c, key, value, o).db, key) == Ok::<_, ErrV>(Some(value)),
        o.expire matches Some(e) ==> db_ttl(set_written(c, key, value, o).db, key) == Some(e.1),
        o.expire is None && !o.keepttl ==> db_ttl(set_written(c, key, value, o).db, key) is None,
        o.expire is None && o.keepttl ==> db_ttl(set_written(c, key, value, o).db, key) == db_ttl(
            c.db,
            key,
        ),
        other != key ==> db_get(set_written(c, key, value, o).db, other) == db_get(c.db, other),
{
}

/// GET after a plain SET replies the value.
pub proof fn law_get_after_set_command(c: CtxV, key: Seq<u8>, value: Seq<u8>)
    requires
        c.client.argv == seq![text("SET"@), key, value],
    ensures
        set_outcome(c).result is Ok,
        ({
            let d = with_argv(set_outcome(c).ctx, seq![text("GET"@), key]);
            get_outcome(d) == replies_one(d, Tok::Bulk(value))
        }),
{
    assert(set_options(c.client.argv, 3, no_set_options(), c.now) == Ok::<SetOptsV, ErrV>(
        no_set_options(),
    ));
    law_set_writes(c, key, value, no_set_options(), key);
}

/// SETNX writes where the key is missing and changes no value where it exists.
pub proof fn law_setnx_writes_once(c: CtxV, key: Seq<u8>, value: Seq<u8>)
    requires
        c.client.argv == seq![text("SETNX"@), key, value],
    ensures
        db_get(c.db, key) is None ==> str_in(setnx_outcome(c).ctx.db, key) == Ok::<_, ErrV>(
            Some(value),
        ),
        db_get(c.db, key) is Some ==> setnx_outcome(c).ctx.db == c.db,
{
}

/// GETDEL replies the value and leaves the key missing.
pub proof fn law_getdel_empties(c: CtxV, key: Seq<u8>)
    requires
        c.client.argv == seq![text("GETDEL"@), key],
        getdel_outcome(c).result is Ok,
    ensures
        db_get(getdel_outcome(c).ctx.db, key) is None,
{
}

/// A counter that was moved by `delta` and back is where it was.
pub proof fn law_counter_moves_back(
    c: CtxV,
    key: Seq<u8>,
    delta: int,
    there: Seq<char>,
    back: Seq<char>,
)
    requires
        counted_outcome(c, key, delta, there).result is Ok,
    ensures
        ({
            let d = counted_outcome(c, key, delta, there).ctx;
            let e = counted_outcome(d, key, -delta, back);
            &&& counter_in(c.db, key) is Ok
            &&& counter_in(d.db, key) is Ok
            &&& counter_in(d.db, key)->Ok_0 == counter_in(c.db, key)->Ok_0 + delta
            &&& e.result is Ok
            &&& counter_in(e.ctx.db, key) == counter_in(c.db, key)
        }),
{
    let n = counter_in(c.db, key)->Ok_0;
    law_decimal_round_trip((n + delta) as i64, 0);
    law_decimal_round_trip(n, 0);
}

/// APPEND puts the value behind the string, and STRLEN tells the new length.
pub proof fn law_append_extends(c: CtxV, key: Seq<u8>, value: Seq<u8>, s: Seq<u8>)
    requires
        c.client.argv == seq![text("APPEND"@), key, value],
        str_in(c.db, key) == Ok::<_, ErrV>(Some(s)),
        s.len() + value.len() <= PROTO_MAX_BULK_LEN_DEFAULT,
    ensures
        str_in(append_outcome(c).ctx.db, key) == Ok::<_, ErrV>(Some(s + value)),
        ({
            let d = with_argv(append_outcome(c).ctx, seq![text("STRLEN"@), key]);
            strlen_outcome(d) == replies_one(d, Tok::Int((s.len() + value.len()) as int))
        }),
{
}

/// Reading the bytes that were written over a string gives them back; the
/// bytes before and behind them are kept.
pub proof fn law_range_reads_back(s: Seq<u8>, at: int, value: Seq<u8>, i: int)
    requires
        0 <= at,
        value.len() > 0,
    ensures
        substring(overwritten(s, at, value), at, at + value.len() - 1) == value,
        0 <= i < s.len() && !(at <= i < at + value.len()) ==> overwritten(s, at, value)[i] == s[i],
        overwritten(overwritten(s, at, value), at, value) == overwritten(s, at, value),
{
    assert(substring(overwritten(s, at, value), at, at + value.len() - 1) =~= value);
    assert(overwritten(overwritten(s, at, value), at, value) =~= overwritten(s, at, value));
}

/// The whole string is the range from the first to the last byte.
pub proof fn law_full_range(s: Seq<u8>)
    ensures
        substring(s, 0, -1) == s,
{
    assert(substring(s, 0, -1) =~= s);
}

/// After pairs were stored every key of theirs holds a string, that of its
/// last pair; other keys hold what they held.
pub proof fn law_last_pair_wins(c: CtxV, argv: Seq<Seq<u8>>, from: int, n: int, p: int)
    requires
        0 <= p < n,
        forall|q: int| p < q < n ==> #[trigger] argv[from + 2 * q] != argv[from + 2 * p],
    ensures
        str_in(pairs_stored(c, argv, from, n).db, argv[from + 2 * p]) == Ok::<_, ErrV>(
            Some(argv[from + 2 * p + 1]),
        ),
    decreases n,
{
    if p < n - 1 {
        assert(argv[from + 2 * (n - 1)] != argv[from + 2 * p]);
        law_last_pair_wins(c, argv, from, n - 1, p);
    }
}

/// Keys that no pair names keep their values.
pub proof fn law_other_keys_keep_values(
    c: CtxV,
    argv: Seq<Seq<u8>>,
    from: int,
    n: int,
    key: Seq<u8>,
)
    requires
        forall|q: int| 0 <= q < n ==> #[trigger] argv[from + 2 * q] != key,
    ensures
        db_get(pairs_stored(c, argv, from, n).db, key) == db_get(c.db, key),
    decreases n,
{
    if n > 0 {
        assert(argv[from + 2 * (n - 1)] != key);
        law_other_keys_keep_values(c, argv, from, n - 1, key);
    }
}

/// MSETNX stores all pairs or none.
pub proof fn law_msetnx_all_or_nothing(c: CtxV, p: int)
    requires
        msetnx_outcome(c).result is Ok,
        0 <= p < (c.client.argv.len() - 1) / 2,
    ensures
        some_key_exists(c.db, c.client.argv, 1, (c.client.argv.len() - 1) / 2)
            ==> msetnx_outcome(c).ctx.db == c.db,
        !some_key_exists(c.db, c.client.argv, 1, (c.client.argv.len() - 1) / 2) ==> db_get(
            msetnx_outcome(c).ctx.db,
            c.client.argv[1 + 2 * p],
        ) is Some,
{
    lemma_pair_present(c, c.client.argv, 1, (c.client.argv.len() - 1) / 2, p);
}

proof fn lemma_pair_present(c: CtxV, argv: Seq<Seq<u8>>, from: int, n: int, p: int)
    requires
        0 <= p < n,
    ensures
        db_get(pairs_stored(c, argv, from, n).db, argv[from + 2 * p]) is Some,
    decreases n,
{
    if p < n - 1 {
        lemma_pair_present(c, argv, from, n - 1, p);
    }
}

// ---------------------------------------------------------------------------
// From arguments to the database and the reply
// ---------------------------------------------------------------------------

/// A key holds a string, and expires at a time or never.
pub open spec fn holds(d: DbV, key: Seq<u8>, s: Seq<u8>, at: Option<i64>) -> bool {
    &&& d.objects.contains_key(key)
    &&& d.objects[key] == ObjV::Str(s)
    &&& match at {
        Some(t) => d.expires.contains_key(key) && d.expires[key] == t,
        None => !d.expires.contains_key(key),
    }
}

/// Two databases hold the same under all keys but one.
pub open spec fn same_but(d: DbV, e: DbV, key: Seq<u8>) -> bool {
    &&& d.objects.remove(key) == e.objects.remove(key)
    &&& d.expires.remove(key) == e.expires.remove(key)
}

/// A command succeeded, and added one reply.
pub open spec fn answers(c: CtxV, o: Outcome, t: Tok) -> bool {
    o.result is Ok && o.ctx.replies == c.replies.push(t)
}

/// A command failed, without a reply and without a change to the database.
pub open spec fn refuses(c: CtxV, o: Outcome) -> bool {
    o.result is Err && o.ctx == c
}

/// The time that an expiry option names: seconds or milliseconds from now, or a
/// time in seconds or in milliseconds.
pub open spec fn named_time(option: Seq<u8>, n: int, now: int) -> int {
    if is_word(option, "EX"@) {
        now + 1000 * n
    } else if is_word(option, "PX"@) {
        now + n
    } else if is_word(option, "EXAT"@) {
        1000 * n
    } else {
        n
    }
}

/// Whether an argument is one of the four expiry options.
pub open spec fn is_expiry(a: Seq<u8>) -> bool {
    is_word(a, "EX"@) || is_word(a, "PX"@) || is_word(a, "EXAT"@) || is_word(a, "PXAT"@)
}

/// No argument is two options of SET, GETEX or MSETEX at once.
proof fn lemma_options_differ(a: Seq<u8>)
    ensures
        is_expiry(a) ==> !is_word(a, "NX"@) && !is_word(a, "XX"@) && !is_word(a, "IFEQ"@)
            && !is_word(a, "GET"@) && !is_word(a, "KEEPTTL"@) && !is_word(a, "PERSIST"@),
        is_word(a, "EX"@) ==> !is_word(a, "PX"@),
        is_word(a, "EX"@) || is_word(a, "PX"@) ==> !is_word(a, "EXAT"@) && !is_word(a, "PXAT"@),
        is_word(a, "EXAT"@) ==> !is_word(a, "PXAT"@),
        is_word(a, "XX"@) ==> !is_word(a, "NX"@),
        is_word(a, "IFEQ"@) ==> !is_word(a, "NX"@) && !is_word(a, "XX"@),
        is_word(a, "GET"@) ==> !is_word(a, "NX"@) && !is_word(a, "XX"@) && !is_word(a, "IFEQ"@),
        is_word(a, "KEEPTTL"@) ==> !is_word(a, "NX"@) && !is_word(a, "XX"@) && !is_word(a, "IFEQ"@)
            && !is_word(a, "GET"@),
{
    reveal_strlit("EX");
    reveal_strlit("PX");
    reveal_strlit("EXAT");
    reveal_strlit("PXAT");
    reveal_strlit("NX");
    reveal_strlit("XX");
    reveal_strlit("IFEQ");
    reveal_strlit("GET");
    reveal_strlit("KEEPTTL");
    reveal_strlit("PERSIST");
    lemma_words_differ(a, "EX"@, "PX"@, 0);
    lemma_words_differ(a, "EX"@, "NX"@, 0);
    lemma_words_differ(a, "EX"@, "XX"@, 0);
    lemma_words_differ(a, "PX"@, "NX"@, 0);
    lemma_words_differ(a, "PX"@, "XX"@, 0);
    lemma_words_differ(a, "NX"@, "XX"@, 0);
    lemma_words_differ(a, "EXAT"@, "PXAT"@, 0);
    lemma_words_differ(a, "EXAT"@, "IFEQ"@, 0);
    lemma_words_differ(a, "PXAT"@, "IFEQ"@, 0);
    lemma_words_differ(a, "KEEPTTL"@, "PERSIST"@, 0);
    lemma_words_differ(a, "EX"@, "EXAT"@, 0);
    lemma_words_differ(a, "EX"@, "PXAT"@, 0);
    lemma_words_differ(a, "PX"@, "EXAT"@, 0);
    lemma_words_differ(a, "PX"@, "PXAT"@, 0);
    lemma_words_differ(a, "EX"@, "IFEQ"@, 0);
    lemma_words_differ(a, "PX"@, "IFEQ"@, 0);
    lemma_words_differ(a, "NX"@, "IFEQ"@, 0);
    lemma_words_differ(a, "XX"@, "IFEQ"@, 0);
    lemma_words_differ(a, "EX"@, "GET"@, 0);
    lemma_words_differ(a, "PX"@, "GET"@, 0);
    lemma_words_differ(a, "NX"@, "GET"@, 0);
    lemma_words_differ(a, "XX"@, "GET"@, 0);
    lemma_words_differ(a, "EXAT"@, "GET"@, 0);
    lemma_words_differ(a, "PXAT"@, "GET"@, 0);
    lemma_words_differ(a, "IFEQ"@, "GET"@, 0);
    lemma_words_differ(a, "EXAT"@, "NX"@, 0);
    lemma_words_differ(a, "EXAT"@, "XX"@, 0);
    lemma_words_differ(a, "PXAT"@, "NX"@, 0);
    lemma_words_differ(a, "PXAT"@, "XX"@, 0);
    lemma_words_differ(a, "EX"@, "KEEPTTL"@, 0);
    lemma_words_differ(a, "PX"@, "KEEPTTL"@, 0);
    lemma_words_differ(a, "NX"@, "KEEPTTL"@, 0);
    lemma_words_differ(a, "XX"@, "KEEPTTL"@, 0);
    lemma_words_differ(a, "EXAT"@, "KEEPTTL"@, 0);
    lemma_words_differ(a, "PXAT"@, "KEEPTTL"@, 0);
    lemma_words_differ(a, "IFEQ"@, "KEEPTTL"@, 0);
    lemma_words_differ(a, "GET"@, "KEEPTTL"@, 0);
    lemma_words_differ(a, "EX"@, "PERSIST"@, 0);
    lemma_words_differ(a, "PX"@, "PERSIST"@, 0);
    lemma_words_differ(a, "EXAT"@, "PERSIST"@, 0);
    lemma_words_differ(a, "PXAT"@, "PERSIST"@, 0);
}

/// SET key value with an expiry option and a positive number: the key expires
/// at the time that the option names, and is gone where that time is past.
pub proof fn law_set_expires_when_told(c: CtxV, n: i64)
    requires
        c.client.argv.len() == 5,
        is_expiry(c.client.argv[3]),
        i64_of(c.client.argv[4]) == Some(n),
        0 <= c.now,
        0 < n,
    ensures
        ({
            let argv = c.client.argv;
            let o = set_outcome(c);
            let at = named_time(argv[3], n as int, c.now as int);
            &&& at > i64::MAX ==> refuses(c, o)
            &&& c.now < at <= i64::MAX ==> answers(c, o, Tok::Simple(text("OK"@))) && holds(
                o.ctx.db,
                argv[1],
                argv[2],
                Some(at as i64),
            ) && same_but(c.db, o.ctx.db, argv[1])
            &&& at <= c.now ==> answers(c, o, Tok::Simple(text("OK"@)))
                && !o.ctx.db.objects.contains_key(argv[1]) && same_but(c.db, o.ctx.db, argv[1])
        }),
{
    let argv = c.client.argv;
    lemma_options_differ(argv[3]);
    reveal_with_fuel(set_options, 3);
    let at = named_time(argv[3], n as int, c.now as int);
    if at <= i64::MAX {
        let o = set_outcome(c);
        assert(o.ctx.db.objects.remove(argv[1]) =~= c.db.objects.remove(argv[1]));
        assert(o.ctx.db.expires.remove(argv[1]) =~= c.db.expires.remove(argv[1]));
        assert(o.ctx.replies =~= c.replies.push(Tok::Simple(text("OK"@))));
    }
}

/// SET without options stores the value, and the key never expires.
pub proof fn law_set_stores(c: CtxV)
    requires
        c.client.argv.len() == 3,
    ensures
        ({
            let argv = c.client.argv;
            let o = set_outcome(c);
            &&& answers(c, o, Tok::Simple(text("OK"@)))
            &&& holds(o.ctx.db, argv[1], argv[2], None)
            &&& same_but(c.db, o.ctx.db, argv[1])
        }),
{
    let argv = c.client.argv;
    let o = set_outcome(c);
    assert(o.ctx.db.objects.remove(argv[1]) =~= c.db.objects.remove(argv[1]));
    assert(o.ctx.db.expires.remove(argv[1]) =~= c.db.expires.remove(argv[1]));
    assert(o.ctx.replies =~= c.replies.push(Tok::Simple(text("OK"@))));
}

/// SET with NX writes only a key that is missing, with XX only one that is
/// there; with IFEQ only one that holds the string told. What is not written is
/// answered with null and left as it is.
pub proof fn law_set_conditions(c: CtxV)
    requires
        c.client.argv.len() == 4 || c.client.argv.len() == 5,
        c.client.argv.len() == 4 ==> is_word(c.client.argv[3], "NX"@) || is_word(
            c.client.argv[3],
            "XX"@,
        ),
        c.client.argv.len() == 5 ==> is_word(c.client.argv[3], "IFEQ"@),
    ensures
        ({
            let argv = c.client.argv;
            let o = set_outcome(c);
            let there = c.db.objects.contains_key(argv[1]);
            let met = if is_word(argv[3], "NX"@) {
                !there
            } else if is_word(argv[3], "XX"@) {
                there
            } else {
                there && c.db.objects[argv[1]] == ObjV::Str(argv[4])
            };
            let readable = argv.len() == 4 || (there ==> c.db.objects[argv[1]] is Str);
            &&& !readable ==> o.result == Err::<(), _>(ErrV::WrongType) && o.ctx == c
            &&& readable && met ==> answers(c, o, Tok::Simple(text("OK"@))) && holds(
                o.ctx.db,
                argv[1],
                argv[2],
                None,
            )
            &&& readable && !met ==> answers(c, o, Tok::NullBulk) && o.ctx.db == c.db
        }),
{
    let argv = c.client.argv;
    lemma_options_differ(argv[3]);
    reveal_with_fuel(set_options, 3);
    let o = set_outcome(c);
    assert(c.replies + seq![Tok::NullBulk] =~= c.replies.push(Tok::NullBulk));
    assert(c.replies + seq![Tok::Simple(text("OK"@))] =~= c.replies.push(
        Tok::Simple(text("OK"@)),
    ));
}

/// SET with GET answers the string that was there, or null, and stores the new
/// one; with KEEPTTL the key expires when it would have.
pub proof fn law_set_get_and_keepttl(c: CtxV)
    requires
        c.client.argv.len() == 4,
        is_word(c.client.argv[3], "GET"@) || is_word(c.client.argv[3], "KEEPTTL"@),
    ensures
        ({
            let argv = c.client.argv;
            let o = set_outcome(c);
            let old_ttl = if c.db.expires.contains_key(argv[1]) {
                Some(c.db.expires[argv[1]])
            } else {
                None
            };
            if is_word(argv[3], "KEEPTTL"@) {
                answers(c, o, Tok::Simple(text("OK"@))) && holds(o.ctx.db, argv[1], argv[2], old_ttl)
            } else if !c.db.objects.contains_key(argv[1]) {
                answers(c, o, Tok::NullBulk) && holds(o.ctx.db, argv[1], argv[2], None)
            } else {
                match c.db.objects[argv[1]] {
                    ObjV::Str(s) => answers(c, o, Tok::Bulk(s)) && holds(
                        o.ctx.db,
                        argv[1],
                        argv[2],
                        None,
                    ),
                    _ => o.result == Err::<(), _>(ErrV::WrongType) && o.ctx == c,
                }
            }
        }),
{
    let argv = c.client.argv;
    lemma_options_differ(argv[3]);
    reveal_with_fuel(set_options, 3);
    let o = set_outcome(c);
    if o.result is Ok {
        assert(o.ctx.replies =~= c.replies.push(o.ctx.replies.last()));
    }
}

/// SETEX and PSETEX store the value and let the key expire that many seconds or
/// milliseconds from now.
pub proof fn law_setex_expires(c: CtxV, n: i64)
    requires
        c.client.argv.len() == 4,
        i64_of(c.client.argv[2]) == Some(n),
        0 <= c.now,
    ensures
        ({
            let argv = c.client.argv;
            let (s, p) = (setex_outcome(c), psetex_outcome(c));
            &&& 0 < n && c.now + 1000 * n <= i64::MAX ==> answers(c, s, Tok::Simple(text("OK"@)))
                && holds(s.ctx.db, argv[1], argv[3], Some((c.now + 1000 * n) as i64)) && same_but(
                c.db,
                s.ctx.db,
                argv[1],
            )
            &&& n <= 0 || c.now + 1000 * n > i64::MAX ==> refuses(c, s)
            &&& 0 < n && c.now + n <= i64::MAX ==> answers(c, p, Tok::Simple(text("OK"@))) && holds(
                p.ctx.db,
                argv[1],
                argv[3],
                Some((c.now + n) as i64),
            ) && same_but(c.db, p.ctx.db, argv[1])
            &&& n <= 0 || c.now + n > i64::MAX ==> refuses(c, p)
        }),
{
    let argv = c.client.argv;
    let (s, p) = (setex_outcome(c), psetex_outcome(c));
    if s.result is Ok {
        assert(s.ctx.replies =~= c.replies.push(Tok::Simple(text("OK"@))));
        assert(s.ctx.db.objects.remove(argv[1]) =~= c.db.objects.remove(argv[1]));
        assert(s.ctx.db.expires.remove(argv[1]) =~= c.db.expires.remove(argv[1]));
    }
    if p.result is Ok {
        assert(p.ctx.replies =~= c.replies.push(Tok::Simple(text("OK"@))));
        assert(p.ctx.db.objects.remove(argv[1]) =~= c.db.objects.remove(argv[1]));
        assert(p.ctx.db.expires.remove(argv[1]) =~= c.db.expires.remove(argv[1]));
    }
}

/// GETEX answers the string and changes only when it expires: as an expiry
/// option tells, never with PERSIST, and as before without an option.
pub proof fn law_getex_changes_the_expiry(c: CtxV, s: Seq<u8>, n: i64)
    requires
        2 <= c.client.argv.len() <= 4,
        c.db.objects.contains_key(c.client.argv[1]),
        c.db.objects[c.client.argv[1]] == ObjV::Str(s),
        0 <= c.now,
        0 < n,
        c.client.argv.len() == 3 ==> is_word(c.client.argv[2], "PERSIST"@),
        c.client.argv.len() == 4 ==> is_expiry(c.client.argv[2]) && i64_of(c.client.argv[3])
            == Some(n),
    ensures
        ({
            let argv = c.client.argv;
            let o = getex_outcome(c);
            let at = named_time(argv[2], n as int, c.now as int);
            &&& argv.len() == 2 ==> answers(c, o, Tok::Bulk(s)) && o.ctx.db == c.db
            &&& argv.len() == 3 ==> answers(c, o, Tok::Bulk(s)) && holds(
                o.ctx.db,
                argv[1],
                s,
                None,
            ) && same_but(c.db, o.ctx.db, argv[1])
            &&& argv.len() == 4 && c.now < at <= i64::MAX ==> answers(c, o, Tok::Bulk(s)) && holds(
                o.ctx.db,
                argv[1],
                s,
                Some(at as i64),
            ) && same_but(c.db, o.ctx.db, argv[1])
            &&& argv.len() == 4 && at <= c.now ==> answers(c, o, Tok::Bulk(s))
                && !o.ctx.db.objects.contains_key(argv[1])
            &&& argv.len() == 4 && at > i64::MAX ==> refuses(c, o)
        }),
{
    let argv = c.client.argv;
    if argv.len() > 2 {
        lemma_options_differ(argv[2]);
    }
    let o = getex_outcome(c);
    if o.result is Ok {
        assert(o.ctx.replies =~= c.replies.push(Tok::Bulk(s)));
        assert(o.ctx.db.objects.remove(argv[1]) =~= c.db.objects.remove(argv[1]));
        assert(o.ctx.db.expires.remove(argv[1]) =~= c.db.expires.remove(argv[1]));
    }
}

/// GETRANGE answers the bytes from one index to another, both counted in:
/// negative ones count from the end, ends outside the string are moved to it, and
/// what is empty is answered with the empty string.
pub proof fn law_getrange_answers_the_range(c: CtxV, s: Seq<u8>, start: i64, end: i64)
    requires
        c.client.argv.len() == 4,
        i64_of(c.client.argv[2]) == Some(start),
        i64_of(c.client.argv[3]) == Some(end),
        c.db.objects.contains_key(c.client.argv[1]),
        c.db.objects[c.client.argv[1]] == ObjV::Str(s),
    ensures
        ({
            let o = getrange_outcome(c);
            let n = s.len() as int;
            let from = if start >= 0 { start as int } else { n + start };
            let to = if end >= 0 { end as int } else { n + end };
            &&& o.ctx.db == c.db
            &&& 0 <= from <= to < n ==> answers(c, o, Tok::Bulk(s.subrange(from, to + 1)))
            &&& 0 <= from < n <= to ==> answers(c, o, Tok::Bulk(s.skip(from)))
            &&& from < 0 <= to < n ==> answers(c, o, Tok::Bulk(s.take(to + 1)))
            &&& from < 0 && n <= to ==> answers(c, o, Tok::Bulk(s))
            &&& from >= n || (0 <= to < from) ==> answers(c, o, Tok::Bulk(Seq::empty()))
        }),
{
    let o = getrange_outcome(c);
    let n = s.len() as int;
    let from = if start >= 0 { start as int } else { n + start };
    let to = if end >= 0 { end as int } else { n + end };
    let b = substring(s, start as int, end as int);
    assert(o.ctx.replies =~= c.replies.push(Tok::Bulk(b)));
    if 0 <= from < n <= to {
        assert(b =~= s.skip(from));
    }
    if from < 0 <= to < n {
        assert(b =~= s.take(to + 1));
    }
    if from < 0 && n <= to {
        assert(b =~= s);
    }
    if from >= n || (0 <= to < from) {
        assert(b =~= Seq::empty());
    }
}

/// SETRANGE writes the bytes at the offset, fills a gap with zeros, keeps all
/// other bytes, and answers the length.
pub proof fn law_setrange_writes_at_the_offset(c: CtxV, s: Seq<u8>, at: i64)
    requires
        c.client.argv.len() == 4,
        i64_of(c.client.argv[2]) == Some(at),
        0 <= at,
        0 < c.client.argv[3].len(),
        at + c.client.argv[3].len() <= PROTO_MAX_BULK_LEN_DEFAULT,
        s.len() <= i64::MAX,
        match str_in(c.db, c.client.argv[1]) {
            Ok(Some(t)) => s == t,
            Ok(None) => s.len() == 0,
            Err(_) => false,
        },
    ensures
        ({
            let argv = c.client.argv;
            let v = argv[3];
            let o = setrange_outcome(c);
            let t = o.ctx.db.objects[argv[1]]->Str_0;
            &&& o.ctx.db.objects.contains_key(argv[1])
            &&& o.ctx.db.objects[argv[1]] is Str
            &&& t.len() >= s.len() && t.len() >= at + v.len() && (t.len() == s.len() || t.len() == at
                + v.len())
            &&& t.subrange(at as int, at + v.len()) == v
            &&& forall|i: int|
                0 <= i < t.len() && !(at <= i < at + v.len()) ==> #[trigger] t[i] == (if i < s.len() {
                    s[i]
                } else {
                    0u8
                })
            &&& answers(c, o, Tok::Int(t.len() as int))
            &&& same_but(c.db, o.ctx.db, argv[1])
        }),
{
    let argv = c.client.argv;
    let o = setrange_outcome(c);
    let t = overwritten(s, at as int, argv[3]);
    assert(s.len() == 0 ==> s =~= Seq::empty());
    assert(t.subrange(at as int, at + argv[3].len()) =~= argv[3]);
    assert(o.ctx.replies =~= c.replies.push(Tok::Int(t.len() as int)));
    assert(o.ctx.db.objects.remove(argv[1]) =~= c.db.objects.remove(argv[1]));
    assert(o.ctx.db.expires.remove(argv[1]) =~= c.db.expires.remove(argv[1]));
}

/// The number that a counter holds: none is zero.
pub open spec fn holds_number(d: DbV, key: Seq<u8>, n: int) -> bool {
    if d.objects.contains_key(key) {
        d.objects[key] matches ObjV::Str(s) && i64_of(s) == Some(n as i64) && i64::MIN <= n
            <= i64::MAX
    } else {
        n == 0
    }
}

/// A counter moved by `by`: it holds the sum, which is answered, or it is as it
/// was where the sum does not fit.
pub open spec fn moves_by(c: CtxV, o: Outcome, key: Seq<u8>, n: int, by: int) -> bool {
    if i64::MIN <= n + by <= i64::MAX {
        &&& answers(c, o, Tok::Int(n + by))
        &&& o.ctx.db.objects.contains_key(key)
        &&& o.ctx.db.objects[key] == ObjV::Str(dec(n + by))
        &&& holds_number(o.ctx.db, key, n + by)
        &&& o.ctx.db.expires == c.db.expires
        &&& same_but(c.db, o.ctx.db, key)
    } else {
        refuses(c, o)
    }
}

/// INCR and DECR move a counter by one, INCRBY and DECRBY by the number told.
pub proof fn law_counters_count(c: CtxV, n: int, by: i64)
    requires
        c.client.argv.len() == 2 || c.client.argv.len() == 3,
        holds_number(c.db, c.client.argv[1], n),
        c.client.argv.len() == 3 ==> i64_of(c.client.argv[2]) == Some(by),
    ensures
        c.client.argv.len() == 2 ==> moves_by(c, incr_outcome(c), c.client.argv[1], n, 1),
        c.client.argv.len() == 2 ==> moves_by(c, decr_outcome(c), c.client.argv[1], n, -1),
        c.client.argv.len() == 3 ==> moves_by(c, incrby_outcome(c), c.client.argv[1], n, by as int),
        c.client.argv.len() == 3 && by > i64::MIN ==> moves_by(
            c,
            decrby_outcome(c),
            c.client.argv[1],
            n,
            -by,
        ),
{
    let key = c.client.argv[1];
    if c.client.argv.len() == 2 {
        lemma_counted(c, key, n, 1, "incrby"@);
        lemma_counted(c, key, n, -1, "decrby"@);
    } else {
        lemma_counted(c, key, n, by as int, "incrby"@);
        if by > i64::MIN {
            lemma_counted(c, key, n, -by, "decrby"@);
        }
    }
}

proof fn lemma_counted(c: CtxV, key: Seq<u8>, n: int, by: int, event: Seq<char>)
    requires
        holds_number(c.db, key, n),
    ensures
        moves_by(c, counted_outcome(c, key, by, event), key, n, by),
{
    let o = counted_outcome(c, key, by, event);
    if i64::MIN <= n + by <= i64::MAX {
        law_decimal_round_trip((n + by) as i64, 0);
        assert(o.ctx.replies =~= c.replies.push(Tok::Int(n + by)));
        assert(o.ctx.db.objects.remove(key) =~= c.db.objects.remove(key));
    }
}

/// GET, GETSET, GETDEL, STRLEN and DELIFEQ on a key that holds a string.
pub proof fn law_readers_answer_the_string(c: CtxV, s: Seq<u8>)
    requires
        2 <= c.client.argv.len() <= 3,
        c.db.objects.contains_key(c.client.argv[1]),
        c.db.objects[c.client.argv[1]] == ObjV::Str(s),
        s.len() <= i64::MAX,
    ensures
        ({
            let argv = c.client.argv;
            let key = argv[1];
            let deleted = |d: DbV|
                !d.objects.contains_key(key) && !d.expires.contains_key(key) && same_but(c.db, d, key);
            &&& argv.len() == 2 ==> answers(c, get_outcome(c), Tok::Bulk(s)) && get_outcome(c).ctx.db
                == c.db
            &&& argv.len() == 2 ==> answers(c, strlen_outcome(c), Tok::Int(s.len() as int))
                && strlen_outcome(c).ctx.db == c.db
            &&& argv.len() == 2 ==> answers(c, getdel_outcome(c), Tok::Bulk(s)) && deleted(
                getdel_outcome(c).ctx.db,
            )
            &&& argv.len() == 3 ==> answers(c, getset_outcome(c), Tok::Bulk(s)) && holds(
                getset_outcome(c).ctx.db,
                key,
                argv[2],
                None,
            ) && same_but(c.db, getset_outcome(c).ctx.db, key)
            &&& argv.len() == 3 && argv[2] == s ==> answers(c, delifeq_outcome(c), Tok::Int(1))
                && deleted(delifeq_outcome(c).ctx.db)
            &&& argv.len() == 3 && argv[2] != s ==> answers(c, delifeq_outcome(c), Tok::Int(0))
                && delifeq_outcome(c).ctx.db == c.db
        }),
{
    let argv = c.client.argv;
    let key = argv[1];
    let rest = c.db.objects.remove(key);
    let times = c.db.expires.remove(key);
    assert(c.replies + seq![Tok::Bulk(s)] =~= c.replies.push(Tok::Bulk(s)));
    assert(c.replies + seq![Tok::Int(s.len() as int)] =~= c.replies.push(
        Tok::Int(s.len() as int),
    ));
    assert(c.replies + seq![Tok::Int(0)] =~= c.replies.push(Tok::Int(0)));
    assert(c.replies + seq![Tok::Int(1)] =~= c.replies.push(Tok::Int(1)));
    if argv.len() == 2 {
        assert(getdel_outcome(c).ctx.db.objects.remove(key) =~= rest);
        assert(getdel_outcome(c).ctx.db.expires.remove(key) =~= times);
    } else {
        assert(getset_outcome(c).ctx.db.objects.remove(key) =~= rest);
        assert(getset_outcome(c).ctx.db.expires.remove(key) =~= times);
        assert(delifeq_outcome(c).ctx.db.objects.remove(key) =~= rest);
        assert(delifeq_outcome(c).ctx.db.expires.remove(key) =~= times);
    }
}

/// The same commands on a key that is missing.
pub proof fn law_readers_of_a_missing_key(c: CtxV)
    requires
        2 <= c.client.argv.len() <= 3,
        !c.db.objects.contains_key(c.client.argv[1]),
    ensures
        ({
            let argv = c.client.argv;
            &&& argv.len() == 2 ==> answers(c, get_outcome(c), Tok::NullBulk)
            &&& argv.len() == 2 ==> answers(c, strlen_outcome(c), Tok::Int(0))
            &&& argv.len() == 2 ==> answers(c, getdel_outcome(c), Tok::NullBulk)
                && getdel_outcome(c).ctx.db == c.db
            &&& argv.len() == 3 ==> answers(c, getset_outcome(c), Tok::NullBulk) && holds(
                getset_outcome(c).ctx.db,
                argv[1],
                argv[2],
                None,
            )
            &&& argv.len() == 3 ==> answers(c, delifeq_outcome(c), Tok::Int(0))
                && delifeq_outcome(c).ctx.db == c.db
            &&& argv.len() == 3 ==> answers(c, setnx_outcome(c), Tok::Int(1)) && holds(
                setnx_outcome(c).ctx.db,
                argv[1],
                argv[2],
                None,
            ) && same_but(c.db, setnx_outcome(c).ctx.db, argv[1])
            &&& argv.len() == 3 && argv[2].len() <= i64::MAX ==> answers(
                c,
                append_outcome(c),
                Tok::Int(argv[2].len() as int),
            ) && holds(append_outcome(c).ctx.db, argv[1], argv[2], None)
        }),
{
    let argv = c.client.argv;
    let key = argv[1];
    assert(c.replies + seq![Tok::NullBulk] =~= c.replies.push(Tok::NullBulk));
    assert(c.replies + seq![Tok::Int(0)] =~= c.replies.push(Tok::Int(0)));
    assert(c.replies + seq![Tok::Int(1)] =~= c.replies.push(Tok::Int(1)));
    if argv.len() == 3 {
        let n = argv[2].len() as int;
        assert(c.replies + seq![Tok::Int(n)] =~= c.replies.push(Tok::Int(n)));
        let d = setnx_outcome(c).ctx.db;
        assert(d.objects.remove(key) =~= c.db.objects.remove(key));
        assert(d.expires.remove(key) =~= c.db.expires.remove(key));
    }
}

/// SETNX on a key that is there changes nothing; APPEND to a string answers the
/// length of both and keeps when the key expires.
pub proof fn law_writers_of_a_key_that_is_there(c: CtxV, s: Seq<u8>)
    requires
        c.client.argv.len() == 3,
        c.db.objects.contains_key(c.client.argv[1]),
    ensures
        answers(c, setnx_outcome(c), Tok::Int(0)) && setnx_outcome(c).ctx.db == c.db,
        c.db.objects[c.client.argv[1]] == ObjV::Str(s) && s.len() + c.client.argv[2].len()
            <= 536870912 ==> answers(
            c,
            append_outcome(c),
            Tok::Int((s.len() + c.client.argv[2].len()) as int),
        ) && append_outcome(c).ctx.db.objects == c.db.objects.insert(
            c.client.argv[1],
            ObjV::Str(s + c.client.argv[2]),
        ) && append_outcome(c).ctx.db.expires == c.db.expires,
        c.db.objects[c.client.argv[1]] == ObjV::Str(s) && s.len() + c.client.argv[2].len()
            > 536870912 ==> refuses(c, append_outcome(c)),
{
    let n = (s.len() + c.client.argv[2].len()) as int;
    assert(c.replies + seq![Tok::Int(0)] =~= c.replies.push(Tok::Int(0)));
    assert(c.replies + seq![Tok::Int(n)] =~= c.replies.push(Tok::Int(n)));
}

/// Commands on strings refuse a key that holds something else, and leave it.
pub proof fn law_strings_only(c: CtxV, n: i64, m: i64)
    requires
        2 <= c.client.argv.len() <= 4,
        c.db.objects.contains_key(c.client.argv[1]),
        !(c.db.objects[c.client.argv[1]] is Str),
    ensures
        ({
            let argv = c.client.argv;
            let wrong = |o: Outcome| o.result == Err::<(), _>(ErrV::WrongType) && o.ctx == c;
            &&& argv.len() == 2 ==> wrong(get_outcome(c)) && wrong(strlen_outcome(c)) && wrong(
                getdel_outcome(c),
            ) && wrong(incr_outcome(c)) && wrong(decr_outcome(c)) && wrong(getex_outcome(c))
            &&& argv.len() == 3 ==> wrong(getset_outcome(c)) && wrong(append_outcome(c)) && wrong(
                delifeq_outcome(c),
            )
            &&& argv.len() == 3 && i64_of(argv[2]) == Some(n) ==> wrong(incrby_outcome(c))
            &&& argv.len() == 4 && i64_of(argv[2]) == Some(n) && i64_of(argv[3]) == Some(m) ==> wrong(
                getrange_outcome(c),
            )
        }),
{
}

/// MGET answers an array with, for each key in turn, its string, or null where
/// it is missing or holds something else.
pub proof fn law_mget_answers_each(c: CtxV, i: int)
    requires
        2 <= c.client.argv.len(),
        1 <= i < c.client.argv.len(),
    ensures
        ({
            let argv = c.client.argv;
            let o = mget_outcome(c);
            let first = c.replies.len();
            &&& o.result is Ok
            &&& o.ctx.db == c.db
            &&& o.ctx.replies.len() == first + argv.len()
            &&& o.ctx.replies.take(first as int) == c.replies
            &&& o.ctx.replies[first as int] == Tok::Array((argv.len() - 1) as nat)
            &&& o.ctx.replies[first + i] == (if c.db.objects.contains_key(argv[i])
                && c.db.objects[argv[i]] is Str {
                Tok::Bulk(c.db.objects[argv[i]]->Str_0)
            } else {
                Tok::NullBulk
            })
        }),
{
    let argv = c.client.argv;
    assert(argv.skip(1)[i - 1] == argv[i]);
    assert(mget_outcome(c).ctx.replies.take(c.replies.len() as int) =~= c.replies);
}

/// MSET stores each pair, the last one of a key in the end, without an expiry;
/// keys that are not named are left. MSETNX does the same where all keys are
/// missing, and nothing where one is there.
pub proof fn law_mset_stores_each(c: CtxV, p: int, other: Seq<u8>)
    requires
        3 <= c.client.argv.len(),
        c.client.argv.len() % 2 == 1,
        0 <= p < (c.client.argv.len() - 1) / 2,
        forall|q: int|
            p < q < (c.client.argv.len() - 1) / 2 ==> #[trigger] c.client.argv[1 + 2 * q]
                != c.client.argv[1 + 2 * p],
        forall|q: int|
            0 <= q < (c.client.argv.len() - 1) / 2 ==> #[trigger] c.client.argv[1 + 2 * q] != other,
    ensures
        ({
            let argv = c.client.argv;
            let n = (argv.len() - 1) / 2;
            let o = mset_outcome(c);
            let x = msetnx_outcome(c);
            let taken = exists|q: int|
                0 <= q < n && c.db.objects.contains_key(#[trigger] argv[1 + 2 * q]);
            let stored = |d: DbV|
                holds(d, argv[1 + 2 * p], argv[2 + 2 * p], None) && d.objects.contains_key(other)
                    == c.db.objects.contains_key(other) && d.objects[other] == c.db.objects[other];
            &&& answers(c, o, Tok::Simple(text("OK"@)))
            &&& stored(o.ctx.db)
            &&& taken ==> answers(c, x, Tok::Int(0)) && x.ctx.db == c.db
            &&& !taken ==> answers(c, x, Tok::Int(1)) && stored(x.ctx.db)
        }),
{
    let argv = c.client.argv;
    let n = (argv.len() - 1) / 2;
    lemma_pairs(c, argv, 1, n, p, other);
    let taken = exists|q: int| 0 <= q < n && c.db.objects.contains_key(#[trigger] argv[1 + 2 * q]);
    if taken {
        let q = choose|q: int| 0 <= q < n && c.db.objects.contains_key(#[trigger] argv[1 + 2 * q]);
        assert(db_get(c.db, argv[1 + 2 * q]) is Some);
    }
    assert(some_key_exists(c.db, argv, 1, n) <==> taken);
    lemma_pairs_replies(c, argv, 1, n);
    assert(mset_outcome(c).ctx.replies =~= c.replies.push(Tok::Simple(text("OK"@))));
    assert(msetnx_outcome(c).ctx.replies =~= c.replies.push(
        Tok::Int(
            if taken {
                0
            } else {
                1
            },
        ),
    ));
}

proof fn lemma_pairs_replies(c: CtxV, argv: Seq<Seq<u8>>, from: int, n: int)
    ensures
        pairs_stored(c, argv, from, n).replies == c.replies,
    decreases n,
{
    if n > 0 {
        lemma_pairs_replies(c, argv, from, n - 1);
    }
}

proof fn lemma_pairs(c: CtxV, argv: Seq<Seq<u8>>, from: int, n: int, p: int, other: Seq<u8>)
    requires
        0 <= p,
        forall|q: int| p < q < n ==> #[trigger] argv[from + 2 * q] != argv[from + 2 * p],
        forall|q: int| 0 <= q < n ==> #[trigger] argv[from + 2 * q] != other,
    ensures
        ({
            let d = pairs_stored(c, argv, from, n).db;
            &&& p < n ==> holds(d, argv[from + 2 * p], argv[from + 2 * p + 1], None)
            &&& d.objects.contains_key(other) == c.db.objects.contains_key(other)
            &&& d.objects[other] == c.db.objects[other]
        }),
    decreases n,
{
    if n > 0 {
        lemma_pairs(c, argv, from, n - 1, p, other);
        assert(argv[from + 2 * (n - 1)] != other);
        if p < n - 1 {
            assert(argv[from + 2 * (n - 1)] != argv[from + 2 * p]);
        }
    }
}

/// MSETEX with an expiry option stores each pair and lets it expire at the time
/// that the option names.
pub proof fn law_msetex_expires_each(c: CtxV, n: int, m: i64, p: int)
    requires
        i64_of(c.client.argv[1]) == Some(n as i64),
        1 <= n <= i32::MAX,
        c.client.argv.len() == 2 * n + 4,
        is_expiry(c.client.argv[2 + 2 * n]),
        i64_of(c.client.argv[3 + 2 * n]) == Some(m),
        0 < m,
        0 <= c.now,
        0 <= p < n,
        forall|q: int| p < q < n ==> #[trigger] c.client.argv[2 + 2 * q] != c.client.argv[2 + 2 * p],
        c.now < named_time(c.client.argv[2 + 2 * n], m as int, c.now as int) <= i64::MAX,
    ensures
        answers(c, msetex_outcome(c), Tok::Int(1)),
        holds(
            msetex_outcome(c).ctx.db,
            c.client.argv[2 + 2 * p],
            c.client.argv[3 + 2 * p],
            Some(named_time(c.client.argv[2 + 2 * n], m as int, c.now as int) as i64),
        ),
{
    let argv = c.client.argv;
    lemma_options_differ(argv[2 + 2 * n]);
    reveal_with_fuel(msetex_options, 3);
    let o = msetex_options(argv, 2 + 2 * n, no_msetex_options(), c.now)->Ok_0;
    lemma_msetex_pairs(c, argv, n, o, p);
    assert(msetex_outcome(c).ctx.replies =~= c.replies.push(Tok::Int(1)));
}

proof fn lemma_msetex_pairs(c: CtxV, argv: Seq<Seq<u8>>, n: int, o: MsetexOptions, p: int)
    requires
        0 <= p,
        o.expire matches Some(e) ==> e.1 > c.now,
        o.expire is Some || !o.keepttl,
        forall|q: int| p < q < n ==> #[trigger] argv[2 + 2 * q] != argv[2 + 2 * p],
    ensures
        p < n ==> holds(
            msetex_stored(c, argv, n, o).db,
            argv[2 + 2 * p],
            argv[3 + 2 * p],
            match o.expire {
                Some(e) => Some(e.1),
                None => None,
            },
        ),
        msetex_stored(c, argv, n, o).replies == c.replies,
        msetex_stored(c, argv, n, o).now == c.now,
    decreases n,
{
    if n > 0 {
        lemma_msetex_pairs(c, argv, n - 1, o, p);
        if p < n - 1 {
            assert(argv[2 + 2 * (n - 1)] != argv[2 + 2 * p]);
        }
    }
}

/// MSETEX with NX stores nothing where one of the keys is there, with XX where
/// one is missing; otherwise it stores each pair.
pub proof fn law_msetex_conditions(c: CtxV, n: int, p: int)
    requires
        i64_of(c.client.argv[1]) == Some(n as i64),
        1 <= n <= i32::MAX,
        c.client.argv.len() == 2 * n + 3,
        is_word(c.client.argv[2 + 2 * n], "NX"@) || is_word(c.client.argv[2 + 2 * n], "XX"@),
        0 <= p < n,
        forall|q: int| p < q < n ==> #[trigger] c.client.argv[2 + 2 * q] != c.client.argv[2 + 2 * p],
    ensures
        ({
            let argv = c.client.argv;
            let o = msetex_outcome(c);
            let refused = if is_word(argv[2 + 2 * n], "NX"@) {
                exists|q: int| 0 <= q < n && c.db.objects.contains_key(#[trigger] argv[2 + 2 * q])
            } else {
                exists|q: int| 0 <= q < n && !c.db.objects.contains_key(#[trigger] argv[2 + 2 * q])
            };
            &&& refused ==> answers(c, o, Tok::Int(0)) && o.ctx.db == c.db
            &&& !refused ==> answers(c, o, Tok::Int(1)) && holds(
                o.ctx.db,
                argv[2 + 2 * p],
                argv[3 + 2 * p],
                None,
            )
        }),
{
    let argv = c.client.argv;
    lemma_options_differ(argv[2 + 2 * n]);
    reveal_with_fuel(msetex_options, 3);
    let o = msetex_options(argv, 2 + 2 * n, no_msetex_options(), c.now)->Ok_0;
    lemma_msetex_pairs(c, argv, n, o, p);
    if exists|q: int| 0 <= q < n && c.db.objects.contains_key(#[trigger] argv[2 + 2 * q]) {
        let q = choose|q: int| 0 <= q < n && c.db.objects.contains_key(#[trigger] argv[2 + 2 * q]);
        assert(db_get(c.db, argv[2 + 2 * q]) is Some);
    }
    if exists|q: int| 0 <= q < n && !c.db.objects.contains_key(#[trigger] argv[2 + 2 * q]) {
        let q = choose|q: int| 0 <= q < n && !c.db.objects.contains_key(#[trigger] argv[2 + 2 * q]);
        assert(db_get(c.db, argv[2 + 2 * q]) is None);
    }
    assert(c.replies + seq![Tok::Int(0)] =~= c.replies.push(Tok::Int(0)));
    assert(c.replies + seq![Tok::Int(1)] =~= c.replies.push(Tok::Int(1)));
}

/// INCRBYFLOAT stores and answers the sum that it is given, and keeps when the
/// key expires; without a sum it changes nothing.
pub proof fn law_float_sum_is_stored(c: CtxV, sum: FloatSum)
    requires
        c.client.argv.len() == 3,
        !c.db.objects.contains_key(c.client.argv[1]) || c.db.objects[c.client.argv[1]] is Str,
    ensures
        match sum {
            FloatSum::Sum(s) => answers(c, incrbyfloat_outcome(c, sum), Tok::Bulk(s@))
                && incrbyfloat_outcome(c, sum).ctx.db.objects == c.db.objects.insert(
                c.client.argv[1],
                ObjV::Str(s@),
            ) && incrbyfloat_outcome(c, sum).ctx.db.expires == c.db.expires,
            _ => refuses(c, incrbyfloat_outcome(c, sum)),
        },
{
    if let FloatSum::Sum(s) = sum {
        assert(c.replies + seq![Tok::Bulk(s@)] =~= c.replies.push(Tok::Bulk(s@)));
    }
}

/// LCS answers a common subsequence of both strings than which none is longer,
/// and with LEN its length; a missing key is the empty string.
pub proof fn law_lcs_answers_the_longest(c: CtxV, a: Seq<u8>, b: Seq<u8>, t: Seq<u8>)
    requires
        c.client.argv.len() == 3 || (c.client.argv.len() == 4 && is_word(
            c.client.argv[3],
            "LEN"@,
        )),
        match str_in(c.db, c.client.argv[1]) {
            Ok(Some(s)) => a == s,
            Ok(None) => a.len() == 0,
            Err(_) => false,
        },
        match str_in(c.db, c.client.argv[2]) {
            Ok(Some(s)) => b == s,
            Ok(None) => b.len() == 0,
            Err(_) => false,
        },
        a.len() <= i64::MAX,
    ensures
        ({
            let o = lcs_outcome(c);
            let r = o.ctx.replies.last();
            &&& answers(c, o, r)
            &&& o.ctx.db == c.db
            &&& c.client.argv.len() == 3 ==> {
                &&& r is Bulk
                &&& is_subsequence(r->Bulk_0, a)
                &&& is_subsequence(r->Bulk_0, b)
                &&& is_subsequence(t, a) && is_subsequence(t, b) ==> t.len() <= r->Bulk_0.len()
            }
            &&& c.client.argv.len() == 4 ==> {
                &&& r is Int
                &&& is_subsequence(t, a) && is_subsequence(t, b) ==> t.len() <= r->Int_0
                &&& exists|s: Seq<u8>|
                    is_subsequence(s, a) && is_subsequence(s, b) && #[trigger] s.len() == r->Int_0
            }
        }),
{
    let o = lcs_outcome(c);
    assert(a.len() == 0 ==> a =~= Seq::empty());
    assert(b.len() == 0 ==> b =~= Seq::empty());
    law_lcs_is_longest(a, b, t);
    lemma_lcs_len_bound(a, b, a.len() as int, b.len() as int);
    if c.client.argv.len() == 4 {
        reveal_strlit("IDX");
        reveal_strlit("LEN");
        lemma_words_differ(c.client.argv[3], "LEN"@, "IDX"@, 0);
        reveal_with_fuel(lcs_options, 3);
        let s = lcs_of(a, b);
        assert(s.len() == s.len() as i64 as int);
    }
    assert(o.ctx.replies =~= c.replies.push(o.ctx.replies.last()));
}

proof fn lemma_lcs_len_bound(a: Seq<u8>, b: Seq<u8>, i: int, k: int)
    requires
        0 <= i,
    ensures
        lcs_len(a, b, i, k) <= i,
    decreases i + k,
{
    if i > 0 && k > 0 {
        lemma_lcs_len_bound(a, b, i - 1, k - 1);
        lemma_lcs_len_bound(a, b, i - 1, k);
        lemma_lcs_len_bound(a, b, i, k - 1);
    }
}

} // verus!
