//! Set commands. The members of a set stand in replies in the order in which
//! they were added.

use vstd::prelude::*;

use crate::bytes::{
    all_digits, digits_value, dup, dup_all, i64_of, is_word, lemma_views_push, parse_i64, parse_u64,
    views, word,
};
use crate::context::{
    done, fails, raises, raises_if, replies, replies_one, with_db, CommandContext, CtxV,
    EventClass, Outcome,
};
use crate::error::{runtime, syntax, wrong_args, ErrV, RedisError};
use crate::glob::{glob, glob_match};
use crate::keyspace::{
    db_delete, db_get, db_set, db_update, new_set, set_in, DbV, InlineSet, ObjV, RedisObject, SetV,
};
use crate::lists::{clipped, counted};
use crate::pick::{draw, drawn, pick, picked};
use crate::reply::{
    bulk_array, bulk_text, lemma_toks_add, lemma_toks_push, put_bulk_array, toks, Reply, Tok,
};
use crate::set_algebra::{
    add_members, diff_all, diff_sets, encoding_after, inter_all, intersect_sets, is_member,
    law_members_outside, law_members_with, lemma_filter_distinct, members_outside, members_with,
    outside_of, set_views, union_all, union_sets, update_sticky_encoding_after_insert,
    SetThresholds,
};
use crate::stream_wake::lemma_filter_step;

verus! {

broadcast use {lemma_toks_push, lemma_toks_add, lemma_views_push};

// ---------------------------------------------------------------------------
// SADD, SREM
// ---------------------------------------------------------------------------

/// A set with more members.
pub open spec fn set_with(s: SetV, more: Seq<Seq<u8>>, t: SetThresholds) -> SetV {
    let ms = members_with(s.members, more);
    SetV {
        members: ms,
        sticky: encoding_after(s.sticky, ms, ms.skip(s.members.len() as int), t),
    }
}

/// How SADD ends.
pub open spec fn sadd_outcome(c: CtxV, t: SetThresholds) -> Outcome {
    let argv = c.client.argv;
    if argv.len() < 3 {
        fails(c, wrong_args("sadd"@))
    } else {
        match set_in(c.db, argv[1]) {
            Err(e) => fails(c, e),
            Ok(was) => {
                let s = match was {
                    Some(s) => s,
                    None => new_set(),
                };
                let now = set_with(s, argv.skip(2), t);
                let db = if was is Some {
                    db_update(c.db, argv[1], ObjV::Members(now))
                } else {
                    db_set(c.db, argv[1], ObjV::Members(now), false)
                };
                let added = (now.members.len() - s.members.len()) as nat;
                replies_one(
                    raises_if(added > 0, with_db(c, db), EventClass::Members, "sadd"@, argv[1]),
                    Tok::Int(clipped(added) as int),
                )
            },
        }
    }
}

/// The arguments from a position on.
fn args_from(ctx: &CommandContext, from: usize) -> (r: Vec<Vec<u8>>)
    requires
        from <= ctx@.client.argv.len(),
    ensures
        views(r@) == ctx@.client.argv.skip(from as int),
{
    let ghost all = ctx@.client.argv;
    let mut r: Vec<Vec<u8>> = Vec::new();
    let mut i: usize = from;
    assert(views(r@) =~= all.subrange(from as int, from as int));
    while i < ctx.client.argv.len()
        invariant
            from <= i <= ctx.client.argv@.len(),
            all == ctx@.client.argv,
            views(r@) == all.subrange(from as int, i as int),
        decreases ctx.client.argv@.len() - i,
    {
        r.push(dup(&ctx.client.argv[i]));
        assert(views(r@) =~= all.subrange(from as int, i + 1));
        i += 1;
    }
    assert(all.subrange(from as int, i as int) =~= all.skip(from as int));
    r
}

/// Adds members to a set. Tells how many were missing.
fn insert_members(s: &mut InlineSet, more: &[Vec<u8>], t: &SetThresholds) -> (r: usize)
    requires
        old(s).wf(),
    ensures
        final(s).wf(),
        final(s)@ == set_with(old(s)@, views(more@), *t),
        r == final(s)@.members.len() - old(s)@.members.len(),
{
    let from: usize = s.data.len();
    proof {
        law_members_with(s@.members, views(more@));
    }
    add_members(&mut s.data, more);
    s.sticky = update_sticky_encoding_after_insert(s.sticky, &s.data, from, t);
    s.data.len() - from
}

/// SADD key member [member ...]
pub fn sadd_command(ctx: &mut CommandContext, t: &SetThresholds) -> (r: Result<(), RedisError>)
    requires
        old(ctx).wf(),
    ensures
        final(ctx).wf(),
        done(r, final(ctx)@) == sadd_outcome(old(ctx)@, *t),
{
    if ctx.arg_count() < 3 {
        return Err(RedisError::wrong_number_of_args("sadd"));
    }
    let key: Vec<u8> = ctx.arg_owned(1);
    let more: Vec<Vec<u8>> = args_from(ctx, 2);
    let there: bool = match ctx.db.set_at(&key) {
        Err(e) => return Err(e),
        Ok(s) => s.is_some(),
    };
    let mut added: usize = 0;
    if there {
        match ctx.db.set_for_write(&key) {
            Ok(Some(s)) => {
                added = insert_members(s, &more, t);
            },
            _ => {},
        }
    } else {
        let mut s: InlineSet = InlineSet::new();
        added = insert_members(&mut s, &more, t);
        ctx.db.set_key(dup(&key), RedisObject::Members(s), false);
    }
    if added > 0 {
        ctx.notify_keyspace_event(EventClass::Members, "sadd", &key);
    }
    ctx.reply_integer(counted(added))
}

/// The context after members left a set: an empty set goes, and events tell.
pub open spec fn members_left(
    c: CtxV,
    key: Seq<u8>,
    s: SetV,
    gone: Seq<Seq<u8>>,
    event: Seq<char>,
) -> CtxV {
    let left = outside_of(s.members, gone);
    let db = db_update(c.db, key, ObjV::Members(SetV { members: left, ..s }));
    let empty = left.len() == 0;
    let c1 = with_db(
        c,
        if empty {
            db_delete(db, key)
        } else {
            db
        },
    );
    let some = left.len() < s.members.len();
    raises_if(
        some && empty,
        raises_if(some, c1, EventClass::Members, event, key),
        EventClass::Generic,
        "del"@,
        key,
    )
}

/// Removes members from a set that is there. Tells how many left.
fn remove_members(ctx: &mut CommandContext, key: &[u8], gone: &[Vec<u8>], event: &str) -> (r: usize)
    requires
        old(ctx).wf(),
        set_in(old(ctx)@.db, key@) matches Ok(Some(_)),
    ensures
        final(ctx).wf(),
        final(ctx)@ == members_left(
            old(ctx)@,
            key@,
            set_in(old(ctx)@.db, key@)->Ok_0->0,
            views(gone@),
            event@,
        ),
        r == set_in(old(ctx)@.db, key@)->Ok_0->0.members.len() - outside_of(
            set_in(old(ctx)@.db, key@)->Ok_0->0.members,
            views(gone@),
        ).len(),
{
    let ghost s0 = set_in(ctx@.db, key@)->Ok_0->0;
    let mut before: usize = 0;
    let mut after: usize = 0;
    match ctx.db.set_for_write(key) {
        Ok(Some(s)) => {
            before = s.data.len();
            let left: Vec<Vec<u8>> = members_outside(&s.data, gone);
            after = left.len();
            proof {
                lemma_filter_distinct(s@.members, |m: Seq<u8>| !views(gone@).contains(m));
                s@.members.lemma_filter_len(|m: Seq<u8>| !views(gone@).contains(m));
            }
            s.data = left;
        },
        _ => {},
    }
    if after == 0 {
        let _gone: bool = ctx.db.sync_delete(key);
    }
    if after < before {
        ctx.notify_keyspace_event(EventClass::Members, event, key);
        if after == 0 {
            ctx.notify_keyspace_event(EventClass::Generic, "del", key);
        }
    }
    before - after
}

/// How SREM ends.
pub open spec fn srem_outcome(c: CtxV) -> Outcome {
    let argv = c.client.argv;
    if argv.len() < 3 {
        fails(c, wrong_args("srem"@))
    } else {
        match set_in(c.db, argv[1]) {
            Err(e) => fails(c, e),
            Ok(None) => replies_one(c, Tok::Int(0)),
            Ok(Some(s)) => {
                let left = outside_of(s.members, argv.skip(2));
                replies_one(
                    members_left(c, argv[1], s, argv.skip(2), "srem"@),
                    Tok::Int(clipped((s.members.len() - left.len()) as nat) as int),
                )
            },
        }
    }
}

/// SREM key member [member ...]
pub fn srem_command(ctx: &mut CommandContext) -> (r: Result<(), RedisError>)
    requires
        old(ctx).wf(),
    ensures
        final(ctx).wf(),
        done(r, final(ctx)@) == srem_outcome(old(ctx)@),
{
    if ctx.arg_count() < 3 {
        return Err(RedisError::wrong_number_of_args("srem"));
    }
    let key: Vec<u8> = ctx.arg_owned(1);
    let gone: Vec<Vec<u8>> = args_from(ctx, 2);
    match ctx.db.set_at(&key) {
        Err(e) => return Err(e),
        Ok(None) => return ctx.reply_integer(0),
        Ok(Some(_)) => {},
    }
    let n: usize = remove_members(ctx, &key, &gone, "srem");
    ctx.reply_integer(counted(n))
}

// ---------------------------------------------------------------------------
// SMEMBERS, SISMEMBER, SMISMEMBER, SCARD
// ---------------------------------------------------------------------------

/// The members under a key, none where it is missing.
pub open spec fn members_in(d: DbV, key: Seq<u8>) -> Result<Seq<Seq<u8>>, ErrV> {
    match set_in(d, key) {
        Ok(Some(s)) => Ok(s.members),
        Ok(None) => Ok(Seq::empty()),
        Err(e) => Err(e),
    }
}

/// A copy of the members under a key.
fn snapshot_set(ctx: &CommandContext, key: &[u8]) -> (r: Result<Vec<Vec<u8>>, RedisError>)
    requires
        ctx.wf(),
    ensures
        match r {
            Ok(v) => members_in(ctx@.db, key@) == Ok::<_, ErrV>(views(v@)) && views(
                v@,
            ).no_duplicates(),
            Err(e) => members_in(ctx@.db, key@) == Err::<Seq<Seq<u8>>, ErrV>(e@),
        },
{
    match ctx.db.set_at(key) {
        Err(e) => Err(e),
        Ok(None) => {
            let none: Vec<Vec<u8>> = Vec::new();
            assert(views(none@) =~= Seq::empty());
            Ok(none)
        },
        Ok(Some(s)) => Ok(dup_all(&s.data)),
    }
}

/// How SMEMBERS ends.
pub open spec fn smembers_outcome(c: CtxV) -> Outcome {
    let argv = c.client.argv;
    if argv.len() != 2 {
        fails(c, wrong_args("smembers"@))
    } else {
        match members_in(c.db, argv[1]) {
            Err(e) => fails(c, e),
            Ok(ms) => replies(c, bulk_array(ms)),
        }
    }
}

/// Replies with members.
fn reply_member_array(ctx: &mut CommandContext, ms: &[Vec<u8>])
    requires
        old(ctx).wf(),
    ensures
        final(ctx).wf(),
        final(ctx)@ == crate::context::says(old(ctx)@, bulk_array(views(ms@))),
{
    let mut out: Vec<Reply> = Vec::new();
    put_bulk_array(&mut out, ms);
    assert(toks(out@) =~= bulk_array(views(ms@)));
    ctx.reply_all(out);
}

/// SMEMBERS key
pub fn smembers_command(ctx: &mut CommandContext) -> (r: Result<(), RedisError>)
    requires
        old(ctx).wf(),
    ensures
        final(ctx).wf(),
        done(r, final(ctx)@) == smembers_outcome(old(ctx)@),
{
    if ctx.arg_count() != 2 {
        return Err(RedisError::wrong_number_of_args("smembers"));
    }
    match snapshot_set(ctx, &ctx.client.argv[1]) {
        Err(e) => Err(e),
        Ok(ms) => {
            reply_member_array(ctx, &ms);
            Ok(())
        },
    }
}

/// One for true, zero for false.
pub open spec fn flag(b: bool) -> Tok {
    if b {
        Tok::Int(1)
    } else {
        Tok::Int(0)
    }
}

/// How SISMEMBER ends.
pub open spec fn sismember_outcome(c: CtxV) -> Outcome {
    let argv = c.client.argv;
    if argv.len() != 3 {
        fails(c, wrong_args("sismember"@))
    } else {
        match members_in(c.db, argv[1]) {
            Err(e) => fails(c, e),
            Ok(ms) => replies_one(c, flag(ms.contains(argv[2]))),
        }
    }
}

/// SISMEMBER key member
pub fn sismember_command(ctx: &mut CommandContext) -> (r: Result<(), RedisError>)
    requires
        old(ctx).wf(),
    ensures
        final(ctx).wf(),
        done(r, final(ctx)@) == sismember_outcome(old(ctx)@),
{
    if ctx.arg_count() != 3 {
        return Err(RedisError::wrong_number_of_args("sismember"));
    }
    let there: bool = match ctx.db.set_at(&ctx.client.argv[1]) {
        Err(e) => return Err(e),
        Ok(None) => false,
        Ok(Some(s)) => is_member(&s.data, &ctx.client.argv[2]),
    };
    ctx.reply_integer(if there { 1 } else { 0 })
}

/// How SMISMEMBER ends.
pub open spec fn smismember_outcome(c: CtxV) -> Outcome {
    let argv = c.client.argv;
    if argv.len() < 3 {
        fails(c, wrong_args("smismember"@))
    } else {
        match members_in(c.db, argv[1]) {
            Err(e) => fails(c, e),
            Ok(ms) => replies(
                c,
                seq![Tok::Array((argv.len() - 2) as nat)] + argv.skip(2).map_values(
                    |m: Seq<u8>| flag(ms.contains(m)),
                ),
            ),
        }
    }
}

/// SMISMEMBER key member [member ...]
pub fn smismember_command(ctx: &mut CommandContext) -> (r: Result<(), RedisError>)
    requires
        old(ctx).wf(),
    ensures
        final(ctx).wf(),
        done(r, final(ctx)@) == smismember_outcome(old(ctx)@),
{
    let argc: usize = ctx.arg_count();
    if argc < 3 {
        return Err(RedisError::wrong_number_of_args("smismember"));
    }
    let ms: Vec<Vec<u8>> = match snapshot_set(ctx, &ctx.client.argv[1]) {
        Err(e) => return Err(e),
        Ok(ms) => ms,
    };
    let ghost argv = ctx@.client.argv;
    let ghost mv = views(ms@);
    let ghost all = argv.skip(2).map_values(|m: Seq<u8>| flag(mv.contains(m)));
    let mut out: Vec<Reply> = Vec::new();
    out.push(Reply::Array((argc - 2) as u128));
    let ghost head = toks(out@);
    let mut i: usize = 2;
    assert(head + all.take(0) =~= head);
    assert(head =~= seq![Tok::Array((argv.len() - 2) as nat)]);
    while i < argc
        invariant
            argv == ctx@.client.argv,
            argc == argv.len(),
            argc == ctx.client.argv@.len(),
            2 <= i <= argc,
            mv == views(ms@),
            all == argv.skip(2).map_values(|m: Seq<u8>| flag(mv.contains(m))),
            toks(out@) == head + all.take(i - 2),
        decreases argc - i,
    {
        assert(all[i - 2] == flag(mv.contains(argv[i as int])));
        out.push(Reply::Int(if is_member(&ms, &ctx.client.argv[i]) { 1 } else { 0 }));
        assert(toks(out@) =~= head + all.take(i - 1));
        i += 1;
    }
    assert(all.take(i - 2) =~= all);
    ctx.reply_all(out);
    Ok(())
}

/// How SCARD ends.
pub open spec fn scard_outcome(c: CtxV) -> Outcome {
    let argv = c.client.argv;
    if argv.len() != 2 {
        fails(c, wrong_args("scard"@))
    } else {
        match members_in(c.db, argv[1]) {
            Err(e) => fails(c, e),
            Ok(ms) => replies_one(c, Tok::Int(clipped(ms.len()) as int)),
        }
    }
}

/// SCARD key
pub fn scard_command(ctx: &mut CommandContext) -> (r: Result<(), RedisError>)
    requires
        old(ctx).wf(),
    ensures
        final(ctx).wf(),
        done(r, final(ctx)@) == scard_outcome(old(ctx)@),
{
    if ctx.arg_count() != 2 {
        return Err(RedisError::wrong_number_of_args("scard"));
    }
    let n: usize = match ctx.db.set_at(&ctx.client.argv[1]) {
        Err(e) => return Err(e),
        Ok(None) => 0,
        Ok(Some(s)) => s.data.len(),
    };
    ctx.reply_integer(counted(n))
}

// ---------------------------------------------------------------------------
// SPOP, SRANDMEMBER
// ---------------------------------------------------------------------------

/// The smaller of two numbers.
pub open spec fn at_most(n: int, len: nat) -> int {
    if n < len {
        n
    } else {
        len as int
    }
}

/// How many members are taken: at most `n`.
fn take_count(n: i64, len: usize) -> (r: usize)
    requires
        n >= 0,
    ensures
        r == at_most(n as int, len as nat),
{
    if (n as u128) < (len as u128) {
        n as usize
    } else {
        len
    }
}

/// How SPOP ends, with a seed for the random choice.
pub open spec fn spop_outcome(c: CtxV, seed: u64) -> Outcome {
    let argv = c.client.argv;
    if argv.len() < 2 || argv.len() > 3 {
        fails(c, wrong_args("spop"@))
    } else if argv.len() == 3 && i64_of(argv[2]) is None {
        fails(c, ErrV::NotInteger)
    } else if argv.len() == 3 && i64_of(argv[2])->0 < 0 {
        fails(c, runtime("ERR value is out of range, must be positive"@))
    } else {
        match set_in(c.db, argv[1]) {
            Err(e) => fails(c, e),
            Ok(None) => if argv.len() == 3 {
                replies_one(c, Tok::Array(0))
            } else {
                replies_one(c, Tok::NullBulk)
            },
            Ok(Some(s)) => {
                let n = if argv.len() == 3 {
                    i64_of(argv[2])->0 as int
                } else {
                    1
                };
                let popped = drawn(s.members, at_most(n, s.members.len()), seed);
                let c1 = members_left(c, argv[1], s, popped, "spop"@);
                if argv.len() == 3 {
                    replies(c1, bulk_array(popped))
                } else if popped.len() > 0 {
                    replies_one(c1, Tok::Bulk(popped.last()))
                } else {
                    replies_one(c1, Tok::NullBulk)
                }
            },
        }
    }
}

/// SPOP key [count]
pub fn spop_command(ctx: &mut CommandContext, seed: u64) -> (r: Result<(), RedisError>)
    requires
        old(ctx).wf(),
    ensures
        final(ctx).wf(),
        done(r, final(ctx)@) == spop_outcome(old(ctx)@, seed),
{
    let argc: usize = ctx.arg_count();
    if argc < 2 || argc > 3 {
        return Err(RedisError::wrong_number_of_args("spop"));
    }
    let key: Vec<u8> = ctx.arg_owned(1);
    let mut n: i64 = 1;
    if argc == 3 {
        match parse_i64(&ctx.client.argv[2]) {
            None => return Err(RedisError::NotInteger),
            Some(k) => {
                n = k;
            },
        }
        if n < 0 {
            return Err(RedisError::runtime("ERR value is out of range, must be positive"));
        }
    }
    let popped: Vec<Vec<u8>> = match ctx.db.set_at(&key) {
        Err(e) => return Err(e),
        Ok(None) => {
            if argc == 3 {
                ctx.reply(Reply::Array(0));
                return Ok(());
            }
            return ctx.reply_null_bulk();
        },
        Ok(Some(s)) => draw(&s.data, take_count(n, s.data.len()), seed),
    };
    let _n: usize = remove_members(ctx, &key, &popped, "spop");
    if argc == 3 {
        reply_member_array(ctx, &popped);
        return Ok(());
    }
    let len: usize = popped.len();
    if len > 0 {
        assert(views(popped@).last() == popped@[len - 1]@);
        ctx.reply_bulk(dup(&popped[len - 1]))
    } else {
        ctx.reply_null_bulk()
    }
}

/// How SRANDMEMBER ends, with a seed for the random choice.
pub open spec fn srandmember_outcome(c: CtxV, seed: u64) -> Outcome {
    let argv = c.client.argv;
    if argv.len() < 2 || argv.len() > 3 {
        fails(c, wrong_args("srandmember"@))
    } else if argv.len() == 3 && i64_of(argv[2]) is None {
        fails(c, ErrV::NotInteger)
    } else if argv.len() == 3 && i64_of(argv[2])->0 == i64::MIN {
        fails(c, ErrV::OutOfRange)
    } else {
        match members_in(c.db, argv[1]) {
            Err(e) => fails(c, e),
            Ok(ms) => if argv.len() == 2 {
                if ms.len() == 0 {
                    replies_one(c, Tok::NullBulk)
                } else {
                    replies_one(c, Tok::Bulk(picked(ms, 1, seed)[0]))
                }
            } else {
                let n = i64_of(argv[2])->0 as int;
                if n >= 0 {
                    replies(c, bulk_array(drawn(ms, at_most(n, ms.len()), seed)))
                } else if ms.len() == 0 {
                    replies_one(c, Tok::Array(0))
                } else {
                    replies(c, bulk_array(picked(ms, (-n) as nat, seed)))
                }
            },
        }
    }
}

/// SRANDMEMBER key [count]
pub fn srandmember_command(ctx: &mut CommandContext, seed: u64) -> (r: Result<(), RedisError>)
    requires
        old(ctx).wf(),
    ensures
        final(ctx).wf(),
        done(r, final(ctx)@) == srandmember_outcome(old(ctx)@, seed),
{
    let argc: usize = ctx.arg_count();
    if argc < 2 || argc > 3 {
        return Err(RedisError::wrong_number_of_args("srandmember"));
    }
    let mut n: i64 = 1;
    if argc == 3 {
        match parse_i64(&ctx.client.argv[2]) {
            None => return Err(RedisError::NotInteger),
            Some(k) => {
                n = k;
            },
        }
        if n == i64::MIN {
            return Err(RedisError::OutOfRange);
        }
    }
    let ms: Vec<Vec<u8>> = match snapshot_set(ctx, &ctx.client.argv[1]) {
        Err(e) => return Err(e),
        Ok(ms) => ms,
    };
    if argc == 2 {
        if ms.len() == 0 {
            return ctx.reply_null_bulk();
        }
        let one: Vec<Vec<u8>> = pick(&ms, 1, seed);
        proof {
            crate::pick::law_picked_are_members(views(ms@), 1, seed);
            assert(views(one@)[0] == one@[0]@);
        }
        return ctx.reply_bulk(dup(&one[0]));
    }
    if n >= 0 {
        let out: Vec<Vec<u8>> = draw(&ms, take_count(n, ms.len()), seed);
        reply_member_array(ctx, &out);
    } else if ms.len() == 0 {
        ctx.reply(Reply::Array(0));
    } else {
        let out: Vec<Vec<u8>> = pick(&ms, (-n) as u64, seed);
        reply_member_array(ctx, &out);
    }
    Ok(())
}

// ---------------------------------------------------------------------------
// SMOVE
// ---------------------------------------------------------------------------

/// The database after a member was put into a set, which is created where it is
/// missing.
pub open spec fn member_moved_in(d: DbV, key: Seq<u8>, m: Seq<u8>) -> DbV {
    match set_in(d, key) {
        Ok(Some(s)) => db_update(
            d,
            key,
            ObjV::Members(SetV { members: members_with(s.members, seq![m]), ..s }),
        ),
        _ => db_set(
            d,
            key,
            ObjV::Members(SetV { members: seq![m], ..new_set() }),
            false,
        ),
    }
}

/// How SMOVE ends.
pub open spec fn smove_outcome(c: CtxV) -> Outcome {
    let argv = c.client.argv;
    if argv.len() != 4 {
        fails(c, wrong_args("smove"@))
    } else {
        match (set_in(c.db, argv[2]), set_in(c.db, argv[1])) {
            (Err(e), _) => fails(c, e),
            (_, Err(e)) => fails(c, e),
            (_, Ok(None)) => replies_one(c, Tok::Int(0)),
            (_, Ok(Some(s))) => if !s.members.contains(argv[3]) {
                replies_one(c, Tok::Int(0))
            } else {
                let left = outside_of(s.members, seq![argv[3]]);
                let empty = left.len() == 0;
                let d1 = db_update(
                    c.db,
                    argv[1],
                    ObjV::Members(SetV { members: left, ..s }),
                );
                let d2 = if empty {
                    db_delete(d1, argv[1])
                } else {
                    d1
                };
                let c1 = with_db(c, member_moved_in(d2, argv[2], argv[3]));
                let c2 = raises(c1, EventClass::Members, "srem"@, argv[1]);
                let c3 = raises_if(empty, c2, EventClass::Generic, "del"@, argv[1]);
                replies_one(
                    raises(c3, EventClass::Members, "sadd"@, argv[2]),
                    Tok::Int(1),
                )
            },
        }
    }
}

/// Puts a member into a set, which is created where it is missing.
fn move_in(ctx: &mut CommandContext, key: &[u8], m: &[u8])
    requires
        old(ctx).wf(),
        set_in(old(ctx)@.db, key@) is Ok,
    ensures
        final(ctx).wf(),
        final(ctx)@ == with_db(old(ctx)@, member_moved_in(old(ctx)@.db, key@, m@)),
{
    let mut one: Vec<Vec<u8>> = Vec::new();
    one.push(dup(m));
    assert(views(one@) =~= seq![m@]);
    let there: bool = match ctx.db.set_at(key) {
        Ok(Some(_)) => true,
        _ => false,
    };
    if there {
        match ctx.db.set_for_write(key) {
            Ok(Some(s)) => {
                proof {
                    law_members_with(s@.members, seq![m@]);
                }
                add_members(&mut s.data, &one);
            },
            _ => {},
        }
    } else {
        let mut s: InlineSet = InlineSet::new();
        s.data = one;
        assert(s@ =~= SetV { members: seq![m@], ..new_set() });
        ctx.db.set_key(dup(key), RedisObject::Members(s), false);
    }
}

/// SMOVE source destination member
pub fn smove_command(ctx: &mut CommandContext) -> (r: Result<(), RedisError>)
    requires
        old(ctx).wf(),
    ensures
        final(ctx).wf(),
        done(r, final(ctx)@) == smove_outcome(old(ctx)@),
{
    if ctx.arg_count() != 4 {
        return Err(RedisError::wrong_number_of_args("smove"));
    }
    let src: Vec<u8> = ctx.arg_owned(1);
    let dst: Vec<u8> = ctx.arg_owned(2);
    let m: Vec<u8> = ctx.arg_owned(3);
    match ctx.db.set_at(&dst) {
        Err(e) => return Err(e),
        Ok(_) => {},
    }
    let there: bool = match ctx.db.set_at(&src) {
        Err(e) => return Err(e),
        Ok(None) => false,
        Ok(Some(s)) => is_member(&s.data, &m),
    };
    if !there {
        return ctx.reply_integer(0);
    }
    let mut one: Vec<Vec<u8>> = Vec::new();
    one.push(dup(&m));
    assert(views(one@) =~= seq![m@]);
    let mut empty: bool = false;
    match ctx.db.set_for_write(&src) {
        Ok(Some(s)) => {
            let left: Vec<Vec<u8>> = members_outside(&s.data, &one);
            empty = left.len() == 0;
            proof {
                lemma_filter_distinct(s@.members, |x: Seq<u8>| !views(one@).contains(x));
            }
            s.data = left;
        },
        _ => {},
    }
    if empty {
        let _gone: bool = ctx.db.sync_delete(&src);
    }
    move_in(ctx, &dst, &m);
    ctx.notify_keyspace_event(EventClass::Members, "srem", &src);
    if empty {
        ctx.notify_keyspace_event(EventClass::Generic, "del", &src);
    }
    ctx.notify_keyspace_event(EventClass::Members, "sadd", &dst);
    ctx.reply_integer(1)
}

// ---------------------------------------------------------------------------
// Algebra
// ---------------------------------------------------------------------------

/// The sets under some keys. The first key that holds no set is an error.
pub open spec fn sets_in(d: DbV, keys: Seq<Seq<u8>>) -> Result<Seq<Seq<Seq<u8>>>, ErrV>
    decreases keys.len(),
{
    if keys.len() == 0 {
        Ok(Seq::empty())
    } else {
        match sets_in(d, keys.drop_last()) {
            Err(e) => Err(e),
            Ok(sets) => match members_in(d, keys.last()) {
                Err(e) => Err(e),
                Ok(ms) => Ok(sets.push(ms)),
            },
        }
    }
}

proof fn lemma_sets_fail(d: DbV, keys: Seq<Seq<u8>>, i: int)
    requires
        0 <= i <= keys.len(),
        sets_in(d, keys.take(i)) is Err,
    ensures
        sets_in(d, keys) == sets_in(d, keys.take(i)),
    decreases keys.len() - i,
{
    if i < keys.len() {
        assert(keys.take(i + 1).drop_last() =~= keys.take(i));
        lemma_sets_fail(d, keys, i + 1);
    } else {
        assert(keys.take(i) =~= keys);
    }
}

/// The sets under the keys in the arguments from `start` to `end`.
fn collect_set_snapshots(ctx: &CommandContext, start: usize, end: usize) -> (r: Result<
    Vec<Vec<Vec<u8>>>,
    RedisError,
>)
    requires
        ctx.wf(),
        start <= end <= ctx@.client.argv.len(),
    ensures
        match r {
            Ok(v) => sets_in(
                ctx@.db,
                ctx@.client.argv.subrange(start as int, end as int),
            ) == Ok::<_, ErrV>(set_views(v@)),
            Err(e) => sets_in(ctx@.db, ctx@.client.argv.subrange(start as int, end as int))
                == Err::<Seq<Seq<Seq<u8>>>, ErrV>(e@),
        },
        r matches Ok(v) ==> crate::set_algebra::all_distinct(set_views(v@)),
{
    let ghost keys = ctx@.client.argv.subrange(start as int, end as int);
    let mut out: Vec<Vec<Vec<u8>>> = Vec::new();
    let mut i: usize = start;
    assert(keys.take(0) =~= Seq::empty());
    assert(set_views(out@) =~= Seq::empty());
    while i < end
        invariant
            ctx.wf(),
            start <= i <= end,
            end <= ctx.client.argv@.len(),
            keys == ctx@.client.argv.subrange(start as int, end as int),
            sets_in(ctx@.db, keys.take(i - start)) == Ok::<_, ErrV>(set_views(out@)),
            crate::set_algebra::all_distinct(set_views(out@)),
        decreases end - i,
    {
        proof {
            assert(keys.take(i - start + 1).drop_last() =~= keys.take(i - start));
            assert(keys.take(i - start + 1).last() == ctx.client.argv@[i as int]@);
        }
        let ghost had = out@;
        match snapshot_set(ctx, &ctx.client.argv[i]) {
            Err(e) => {
                proof {
                    lemma_sets_fail(ctx@.db, keys, i - start + 1);
                }
                return Err(e);
            },
            Ok(ms) => {
                let ghost mv = views(ms@);
                out.push(ms);
                assert(set_views(out@) =~= set_views(had).push(mv));
            },
        }
        i += 1;
    }
    assert(keys.take(i - start) =~= keys);
    Ok(out)
}

/// What a command does with sets.
#[derive(Debug, Clone, Copy, PartialEq, Eq, Structural)]
pub enum SetOp {
    Inter,
    Union,
    Diff,
}

/// What comes out.
pub open spec fn combined_sets(op: SetOp, sets: Seq<Seq<Seq<u8>>>) -> Seq<Seq<u8>> {
    match op {
        SetOp::Inter => inter_all(sets),
        SetOp::Union => union_all(sets),
        SetOp::Diff => diff_all(sets),
    }
}

/// Combines sets.
fn combine_sets(op: SetOp, sets: &[Vec<Vec<u8>>]) -> (r: Vec<Vec<u8>>)
    requires
        crate::set_algebra::all_distinct(set_views(sets@)),
    ensures
        views(r@) == combined_sets(op, set_views(sets@)),
        views(r@).no_duplicates(),
{
    let ghost sv = set_views(sets@);
    match op {
        SetOp::Inter => {
            proof {
                if sv.len() > 0 {
                    crate::set_algebra::law_intersection(sv, Seq::empty());
                }
            }
            intersect_sets(sets)
        },
        SetOp::Union => {
            proof {
                crate::set_algebra::law_union(sv, Seq::empty());
            }
            union_sets(sets)
        },
        SetOp::Diff => {
            proof {
                if sv.len() > 0 {
                    crate::set_algebra::law_difference(sv, Seq::empty());
                }
            }
            diff_sets(sets)
        },
    }
}

/// How a command ends that shows a combination of sets.
pub open spec fn combination_shown(c: CtxV, name: Seq<char>, op: SetOp) -> Outcome {
    let argv = c.client.argv;
    if argv.len() < 2 {
        fails(c, wrong_args(name))
    } else {
        match sets_in(c.db, argv.skip(1)) {
            Err(e) => fails(c, e),
            Ok(sets) => replies(c, bulk_array(combined_sets(op, sets))),
        }
    }
}

/// How a command ends that stores a combination of sets.
pub open spec fn combination_stored(c: CtxV, name: Seq<char>, op: SetOp) -> Outcome {
    let argv = c.client.argv;
    if argv.len() < 3 {
        fails(c, wrong_args(name))
    } else {
        match sets_in(c.db, argv.skip(2)) {
            Err(e) => fails(c, e),
            Ok(sets) => {
                let ms = combined_sets(op, sets);
                let db = if ms.len() == 0 {
                    db_delete(c.db, argv[1])
                } else {
                    db_set(
                        c.db,
                        argv[1],
                        ObjV::Members(SetV { members: ms, ..new_set() }),
                        false,
                    )
                };
                replies_one(
                    raises(with_db(c, db), EventClass::Members, name, argv[1]),
                    Tok::Int(clipped(ms.len()) as int),
                )
            },
        }
    }
}

/// Shows a combination of sets.
fn show_combination(ctx: &mut CommandContext, name: &str, op: SetOp) -> (r: Result<(), RedisError>)
    requires
        old(ctx).wf(),
    ensures
        final(ctx).wf(),
        done(r, final(ctx)@) == combination_shown(old(ctx)@, name@, op),
{
    let argc: usize = ctx.arg_count();
    if argc < 2 {
        return Err(RedisError::wrong_number_of_args(name));
    }
    assert(ctx@.client.argv.subrange(1, argc as int) =~= ctx@.client.argv.skip(1));
    match collect_set_snapshots(ctx, 1, argc) {
        Err(e) => Err(e),
        Ok(sets) => {
            let ms: Vec<Vec<u8>> = combine_sets(op, &sets);
            reply_member_array(ctx, &ms);
            Ok(())
        },
    }
}

/// Stores a combination of sets.
fn store_combination(ctx: &mut CommandContext, name: &str, op: SetOp) -> (r: Result<(), RedisError>)
    requires
        old(ctx).wf(),
    ensures
        final(ctx).wf(),
        done(r, final(ctx)@) == combination_stored(old(ctx)@, name@, op),
{
    let argc: usize = ctx.arg_count();
    if argc < 3 {
        return Err(RedisError::wrong_number_of_args(name));
    }
    let dst: Vec<u8> = ctx.arg_owned(1);
    assert(ctx@.client.argv.subrange(2, argc as int) =~= ctx@.client.argv.skip(2));
    let ms: Vec<Vec<u8>> = match collect_set_snapshots(ctx, 2, argc) {
        Err(e) => return Err(e),
        Ok(sets) => combine_sets(op, &sets),
    };
    let n: usize = ms.len();
    if n == 0 {
        let _gone: bool = ctx.db.sync_delete(&dst);
    } else {
        let mut s: InlineSet = InlineSet::new();
        s.data = ms;
        ctx.db.set_key(dup(&dst), RedisObject::Members(s), false);
    }
    ctx.notify_keyspace_event(EventClass::Members, name, &dst);
    ctx.reply_integer(counted(n))
}

/// SINTER key [key ...]
pub fn sinter_command(ctx: &mut CommandContext) -> (r: Result<(), RedisError>)
    requires
        old(ctx).wf(),
    ensures
        final(ctx).wf(),
        done(r, final(ctx)@) == combination_shown(old(ctx)@, "sinter"@, SetOp::Inter),
{
    show_combination(ctx, "sinter", SetOp::Inter)
}

/// SINTERSTORE destination key [key ...]
pub fn sinterstore_command(ctx: &mut CommandContext) -> (r: Result<(), RedisError>)
    requires
        old(ctx).wf(),
    ensures
        final(ctx).wf(),
        done(r, final(ctx)@) == combination_stored(old(ctx)@, "sinterstore"@, SetOp::Inter),
{
    store_combination(ctx, "sinterstore", SetOp::Inter)
}

/// SUNION key [key ...]
pub fn sunion_command(ctx: &mut CommandContext) -> (r: Result<(), RedisError>)
    requires
        old(ctx).wf(),
    ensures
        final(ctx).wf(),
        done(r, final(ctx)@) == combination_shown(old(ctx)@, "sunion"@, SetOp::Union),
{
    show_combination(ctx, "sunion", SetOp::Union)
}

/// SUNIONSTORE destination key [key ...]
pub fn sunionstore_command(ctx: &mut CommandContext) -> (r: Result<(), RedisError>)
    requires
        old(ctx).wf(),
    ensures
        final(ctx).wf(),
        done(r, final(ctx)@) == combination_stored(old(ctx)@, "sunionstore"@, SetOp::Union),
{
    store_combination(ctx, "sunionstore", SetOp::Union)
}

/// SDIFF key [key ...]
pub fn sdiff_command(ctx: &mut CommandContext) -> (r: Result<(), RedisError>)
    requires
        old(ctx).wf(),
    ensures
        final(ctx).wf(),
        done(r, final(ctx)@) == combination_shown(old(ctx)@, "sdiff"@, SetOp::Diff),
{
    show_combination(ctx, "sdiff", SetOp::Diff)
}

/// SDIFFSTORE destination key [key ...]
pub fn sdiffstore_command(ctx: &mut CommandContext) -> (r: Result<(), RedisError>)
    requires
        old(ctx).wf(),
    ensures
        final(ctx).wf(),
        done(r, final(ctx)@) == combination_stored(old(ctx)@, "sdiffstore"@, SetOp::Diff),
{
    store_combination(ctx, "sdiffstore", SetOp::Diff)
}

/// The limit in the options of SINTERCARD from argument `i` on, after `limit`.
pub open spec fn card_limit(argv: Seq<Seq<u8>>, i: int, limit: i64) -> Result<i64, ErrV>
    decreases argv.len() - i,
{
    if i < 0 || i >= argv.len() {
        Ok(limit)
    } else if !is_word(argv[i], "limit"@) || i + 1 >= argv.len() {
        Err(syntax("syntax error"@))
    } else {
        match i64_of(argv[i + 1]) {
            Some(n) => if n >= 0 {
                card_limit(argv, i + 2, n)
            } else {
                Err(runtime("ERR LIMIT can't be negative"@))
            },
            None => Err(runtime("ERR LIMIT can't be negative"@)),
        }
    }
}

/// How SINTERCARD ends.
pub open spec fn sintercard_outcome(c: CtxV) -> Outcome {
    let argv = c.client.argv;
    if argv.len() < 3 {
        fails(c, wrong_args("sintercard"@))
    } else if i64_of(argv[1]) is None || i64_of(argv[1])->0 < 1 {
        fails(c, runtime("ERR numkeys should be greater than 0"@))
    } else {
        let n = i64_of(argv[1])->0 as int;
        if n > argv.len() - 2 {
            fails(c, runtime("ERR Number of keys can't be greater than number of args"@))
        } else {
            match card_limit(argv, 2 + n, 0) {
                Err(e) => fails(c, e),
                Ok(limit) => match sets_in(c.db, argv.subrange(2, 2 + n)) {
                    Err(e) => fails(c, e),
                    Ok(sets) => {
                        let len = clipped(inter_all(sets).len());
                        replies_one(
                            c,
                            Tok::Int(
                                if limit > 0 && limit < len {
                                    limit as int
                                } else {
                                    len as int
                                },
                            ),
                        )
                    },
                },
            }
        }
    }
}

/// The limit in the options of SINTERCARD.
fn read_card_limit(argv: &[Vec<u8>], from: usize) -> (r: Result<i64, RedisError>)
    requires
        from <= argv@.len(),
    ensures
        match r {
            Ok(n) => card_limit(views(argv@), from as int, 0) == Ok::<_, ErrV>(n),
            Err(e) => card_limit(views(argv@), from as int, 0) == Err::<i64, ErrV>(e@),
        },
{
    let ghost all = views(argv@);
    let ghost whole = card_limit(all, from as int, 0);
    let argc: usize = argv.len();
    let mut limit: i64 = 0;
    let mut i: usize = from;
    while i < argc
        invariant
            argc == argv@.len(),
            all == views(argv@),
            from <= i <= argc,
            whole == card_limit(all, from as int, 0),
            whole == card_limit(all, i as int, limit),
        decreases argc - i,
    {
        assert(all[i as int] == argv@[i as int]@);
        if !word(&argv[i], "limit") || argc - i < 2 {
            return Err(RedisError::syntax("syntax error"));
        }
        assert(all[i + 1] == argv@[i + 1]@);
        match parse_i64(&argv[i + 1]) {
            Some(n) => {
                if n < 0 {
                    return Err(RedisError::runtime("ERR LIMIT can't be negative"));
                }
                limit = n;
            },
            None => return Err(RedisError::runtime("ERR LIMIT can't be negative")),
        }
        i += 2;
    }
    Ok(limit)
}

/// SINTERCARD numkeys key [key ...] [LIMIT limit]
pub fn sintercard_command(ctx: &mut CommandContext) -> (r: Result<(), RedisError>)
    requires
        old(ctx).wf(),
    ensures
        final(ctx).wf(),
        done(r, final(ctx)@) == sintercard_outcome(old(ctx)@),
{
    let argc: usize = ctx.arg_count();
    if argc < 3 {
        return Err(RedisError::wrong_number_of_args("sintercard"));
    }
    let n: i64 = match parse_i64(&ctx.client.argv[1]) {
        Some(n) => n,
        None => return Err(RedisError::runtime("ERR numkeys should be greater than 0")),
    };
    if n < 1 {
        return Err(RedisError::runtime("ERR numkeys should be greater than 0"));
    }
    if n as u128 > (argc - 2) as u128 {
        return Err(
            RedisError::runtime("ERR Number of keys can't be greater than number of args"),
        );
    }
    let end: usize = 2 + n as usize;
    let limit: i64 = match read_card_limit(&ctx.client.argv, end) {
        Err(e) => return Err(e),
        Ok(l) => l,
    };
    let ms: Vec<Vec<u8>> = match collect_set_snapshots(ctx, 2, end) {
        Err(e) => return Err(e),
        Ok(sets) => intersect_sets(&sets),
    };
    assert(views(ms@).len() == ms@.len());
    let len: i64 = counted(ms.len());
    ctx.reply_integer(if limit > 0 && limit < len { limit } else { len })
}

// ---------------------------------------------------------------------------
// SSCAN
// ---------------------------------------------------------------------------

/// Whether an argument is a cursor.
pub open spec fn is_cursor(a: Seq<u8>) -> bool {
    a.len() > 0 && all_digits(a) && digits_value(a) <= u64::MAX
}

/// The pattern in the options of SSCAN from argument `i` on, after `pattern`.
pub open spec fn scan_pattern(argv: Seq<Seq<u8>>, i: int, pattern: Option<Seq<u8>>) -> Result<
    Option<Seq<u8>>,
    ErrV,
>
    decreases argv.len() - i,
{
    if i < 0 || i >= argv.len() {
        Ok(pattern)
    } else if is_word(argv[i], "MATCH"@) {
        if i + 1 >= argv.len() {
            Err(syntax("syntax error"@))
        } else {
            scan_pattern(argv, i + 2, Some(argv[i + 1]))
        }
    } else if is_word(argv[i], "COUNT"@) {
        if i + 1 >= argv.len() {
            Err(syntax("syntax error"@))
        } else {
            match i64_of(argv[i + 1]) {
                None => Err(ErrV::NotInteger),
                Some(n) => if n < 1 {
                    Err(syntax("syntax error"@))
                } else {
                    scan_pattern(argv, i + 2, pattern)
                },
            }
        }
    } else {
        Err(syntax("syntax error"@))
    }
}

/// The members that a pattern matches.
pub open spec fn matching(ms: Seq<Seq<u8>>, pattern: Option<Seq<u8>>) -> Seq<Seq<u8>> {
    match pattern {
        None => ms,
        Some(p) => ms.filter(|m: Seq<u8>| glob(p, m)),
    }
}

/// How SSCAN ends: all members come at once.
pub open spec fn sscan_outcome(c: CtxV) -> Outcome {
    let argv = c.client.argv;
    if argv.len() < 3 {
        fails(c, wrong_args("sscan"@))
    } else if !is_cursor(argv[2]) {
        fails(c, runtime("ERR invalid cursor"@))
    } else {
        match scan_pattern(argv, 3, None) {
            Err(e) => fails(c, e),
            Ok(pattern) => match members_in(c.db, argv[1]) {
                Err(e) => fails(c, e),
                Ok(ms) => replies(
                    c,
                    seq![Tok::Array(2), crate::reply::bulk("0"@)] + bulk_array(
                        matching(ms, pattern),
                    ),
                ),
            },
        }
    }
}

/// Whether an argument is a cursor.
fn parse_u64_cursor(a: &[u8]) -> (r: bool)
    ensures
        r == is_cursor(a@),
{
    if a.len() == 0 || a[0] == 43 {
        if a.len() > 0 {
            assert(a@[0] == 43);
            assert(!all_digits(a@));
        }
        return false;
    }
    parse_u64(a).is_some()
}

/// The pattern in the options of SSCAN.
fn read_scan_pattern(argv: &[Vec<u8>]) -> (r: Result<Option<Vec<u8>>, RedisError>)
    requires
        argv@.len() >= 3,
    ensures
        match r {
            Ok(p) => scan_pattern(views(argv@), 3, None) == Ok::<_, ErrV>(
                crate::bytes::opt_view(p),
            ),
            Err(e) => scan_pattern(views(argv@), 3, None) == Err::<Option<Seq<u8>>, ErrV>(e@),
        },
{
    let ghost all = views(argv@);
    let ghost whole = scan_pattern(all, 3, None);
    let argc: usize = argv.len();
    let mut pattern: Option<Vec<u8>> = None;
    let mut i: usize = 3;
    while i < argc
        invariant
            argc == argv@.len(),
            argc >= 3,
            all == views(argv@),
            3 <= i <= argc,
            whole == scan_pattern(all, 3, None),
            whole == scan_pattern(all, i as int, crate::bytes::opt_view(pattern)),
        decreases argc - i,
    {
        assert(all[i as int] == argv@[i as int]@);
        if word(&argv[i], "MATCH") {
            if argc - i < 2 {
                return Err(RedisError::syntax("syntax error"));
            }
            pattern = Some(dup(&argv[i + 1]));
            i += 2;
        } else if word(&argv[i], "COUNT") {
            if argc - i < 2 {
                return Err(RedisError::syntax("syntax error"));
            }
            assert(all[i + 1] == argv@[i + 1]@);
            match parse_i64(&argv[i + 1]) {
                None => return Err(RedisError::NotInteger),
                Some(n) => {
                    if n < 1 {
                        return Err(RedisError::syntax("syntax error"));
                    }
                },
            }
            i += 2;
        } else {
            return Err(RedisError::syntax("syntax error"));
        }
    }
    Ok(pattern)
}

/// The members that a pattern matches.
fn match_members(ms: &[Vec<u8>], pattern: &Option<Vec<u8>>) -> (r: Vec<Vec<u8>>)
    ensures
        views(r@) == matching(views(ms@), crate::bytes::opt_view(*pattern)),
{
    match pattern {
        None => dup_all(ms),
        Some(pat) => {
            let ghost all = views(ms@);
            let ghost p = |m: Seq<u8>| glob(pat@, m);
            let mut r: Vec<Vec<u8>> = Vec::new();
            let mut i: usize = 0;
            proof {
                reveal(Seq::filter);
                assert(views(r@) =~= all.take(0).filter(p));
            }
            while i < ms.len()
                invariant
                    i <= ms@.len(),
                    all == views(ms@),
                    p == (|m: Seq<u8>| glob(pat@, m)),
                    views(r@) == all.take(i as int).filter(p),
                decreases ms@.len() - i,
            {
                proof {
                    lemma_filter_step(all, p, i as int);
                    assert(all[i as int] == ms@[i as int]@);
                }
                if glob_match(pat, &ms[i]) {
                    r.push(dup(&ms[i]));
                }
                i += 1;
            }
            assert(all.take(i as int) =~= all);
            r
        },
    }
}

/// SSCAN key cursor [MATCH pattern] [COUNT count]
pub fn sscan_command(ctx: &mut CommandContext) -> (r: Result<(), RedisError>)
    requires
        old(ctx).wf(),
    ensures
        final(ctx).wf(),
        done(r, final(ctx)@) == sscan_outcome(old(ctx)@),
{
    if ctx.arg_count() < 3 {
        return Err(RedisError::wrong_number_of_args("sscan"));
    }
    if !parse_u64_cursor(&ctx.client.argv[2]) {
        return Err(RedisError::runtime("ERR invalid cursor"));
    }
    let pattern: Option<Vec<u8>> = match read_scan_pattern(&ctx.client.argv) {
        Err(e) => return Err(e),
        Ok(p) => p,
    };
    let ms: Vec<Vec<u8>> = match snapshot_set(ctx, &ctx.client.argv[1]) {
        Err(e) => return Err(e),
        Ok(ms) => ms,
    };
    let found: Vec<Vec<u8>> = match_members(&ms, &pattern);
    let mut out: Vec<Reply> = Vec::new();
    out.push(Reply::Array(2));
    out.push(bulk_text("0"));
    put_bulk_array(&mut out, &found);
    assert(toks(out@) =~= seq![Tok::Array(2), crate::reply::bulk("0"@)] + bulk_array(
        views(found@),
    ));
    ctx.reply_all(out);
    Ok(())
}

// ---------------------------------------------------------------------------
// Laws
// ---------------------------------------------------------------------------

/// After SADD the set has all members that were named, and those that it had.
pub proof fn law_sadd_adds(c: CtxV, t: SetThresholds, m: Seq<u8>)
    requires
        c.client.argv.len() >= 3,
        set_in(c.db, c.client.argv[1]) is Ok,
    ensures
        ({
            let key = c.client.argv[1];
            let o = sadd_outcome(c, t);
            let before = members_in(c.db, key)->Ok_0;
            &&& o.result is Ok
            &&& members_in(o.ctx.db, key) is Ok
            &&& members_in(o.ctx.db, key)->Ok_0.contains(m) <==> before.contains(m)
                || c.client.argv.skip(2).contains(m)
        }),
{
    let key = c.client.argv[1];
    let before = members_in(c.db, key)->Ok_0;
    law_members_with(before, c.client.argv.skip(2));
    assert(members_with(before, c.client.argv.skip(2)).contains(m) <==> before.contains(m)
        || c.client.argv.skip(2).contains(m));
    let o = sadd_outcome(c, t);
    assert(db_get(o.ctx.db, key) is Some);
}

/// After SREM the set has none of the members that were named, and all others
/// that it had.
pub proof fn law_srem_removes(c: CtxV, m: Seq<u8>)
    requires
        c.client.argv.len() >= 3,
        set_in(c.db, c.client.argv[1]) is Ok,
    ensures
        ({
            let key = c.client.argv[1];
            let o = srem_outcome(c);
            let before = members_in(c.db, key)->Ok_0;
            &&& o.result is Ok
            &&& members_in(o.ctx.db, key) is Ok
            &&& members_in(o.ctx.db, key)->Ok_0.contains(m) <==> before.contains(m)
                && !c.client.argv.skip(2).contains(m)
        }),
{
    let key = c.client.argv[1];
    let gone = c.client.argv.skip(2);
    let before = members_in(c.db, key)->Ok_0;
    law_members_outside(before, gone, m);
    let left = outside_of(before, gone);
    match set_in(c.db, key) {
        Ok(Some(s)) => {
            let o = srem_outcome(c);
            if left.len() == 0 {
                assert(!left.contains(m));
                assert(db_get(o.ctx.db, key) is None);
            } else {
                assert(db_get(o.ctx.db, key) is Some);
            }
        },
        _ => {},
    }
}

/// A set that SREM empties is deleted.
pub proof fn law_empty_set_is_deleted(c: CtxV)
    requires
        c.client.argv.len() >= 3,
        set_in(c.db, c.client.argv[1]) matches Ok(Some(_)),
        outside_of(members_in(c.db, c.client.argv[1])->Ok_0, c.client.argv.skip(2)).len() == 0,
    ensures
        db_get(srem_outcome(c).ctx.db, c.client.argv[1]) is None,
{
}

/// SMOVE takes a member out of the source and puts it into the destination.
pub proof fn law_smove_moves(c: CtxV)
    requires
        c.client.argv.len() == 4,
        c.client.argv[1] != c.client.argv[2],
        set_in(c.db, c.client.argv[2]) is Ok,
        set_in(c.db, c.client.argv[1]) matches Ok(Some(_)),
        members_in(c.db, c.client.argv[1])->Ok_0.contains(c.client.argv[3]),
    ensures
        ({
            let src = c.client.argv[1];
            let dst = c.client.argv[2];
            let m = c.client.argv[3];
            let d = smove_outcome(c).ctx.db;
            &&& members_in(d, src) is Ok && !members_in(d, src)->Ok_0.contains(m)
            &&& members_in(d, dst) is Ok && members_in(d, dst)->Ok_0.contains(m)
        }),
{
    let src = c.client.argv[1];
    let dst = c.client.argv[2];
    let m = c.client.argv[3];
    let s = set_in(c.db, src)->Ok_0->0;
    law_members_outside(s.members, seq![m], m);
    assert(seq![m][0] == m);
    assert(seq![m].contains(m));
    let left = outside_of(s.members, seq![m]);
    let d1 = db_update(c.db, src, ObjV::Members(SetV { members: left, ..s }));
    let d2 = if left.len() == 0 {
        db_delete(d1, src)
    } else {
        d1
    };
    assert(db_get(d2, dst) == db_get(c.db, dst));
    let d3 = member_moved_in(d2, dst, m);
    assert(db_get(d3, src) == db_get(d2, src));
    match set_in(d2, dst) {
        Ok(Some(t)) => {
            law_members_with(t.members, seq![m]);
            assert(members_with(t.members, seq![m]).contains(m));
        },
        _ => {},
    }
    assert(smove_outcome(c).ctx.db == d3);
}

/// SPOP without a count takes out a member of the set, and leaves the others.
pub proof fn law_spop_takes_members(c: CtxV, seed: u64, m: Seq<u8>)
    requires
        c.client.argv.len() == 2,
        set_in(c.db, c.client.argv[1]) matches Ok(Some(_)),
        members_in(c.db, c.client.argv[1])->Ok_0.len() > 0,
        members_in(c.db, c.client.argv[1])->Ok_0.no_duplicates(),
    ensures
        ({
            let key = c.client.argv[1];
            let ms = members_in(c.db, key)->Ok_0;
            let popped = drawn(ms, 1, seed);
            &&& ms.contains(popped[0])
            &&& spop_outcome(c, seed).ctx.replies == c.replies.push(Tok::Bulk(popped[0]))
            &&& members_in(spop_outcome(c, seed).ctx.db, key) is Ok
            &&& members_in(spop_outcome(c, seed).ctx.db, key)->Ok_0.contains(m) <==> ms.contains(m)
                && m != popped[0]
        }),
{
    let key = c.client.argv[1];
    let s = set_in(c.db, key)->Ok_0->0;
    let ms = s.members;
    let popped = drawn(ms, 1, seed);
    crate::pick::law_drawn_are_distinct_members(ms, 1, seed);
    assert(popped.contains(popped[0]));
    law_members_outside(ms, popped, m);
    assert(popped.contains(m) <==> m == popped[0]);
    let left = outside_of(ms, popped);
    let o = spop_outcome(c, seed);
    assert(at_most(1, ms.len()) == 1);
    assert(o.ctx.replies =~= c.replies.push(Tok::Bulk(popped[0])));
    if left.len() == 0 {
        assert(!left.contains(m));
        assert(db_get(o.ctx.db, key) is None);
    } else {
        assert(db_get(o.ctx.db, key) is Some);
    }
}

/// SPOP with a count takes out that many different members, or all where there are
/// fewer, and leaves the others.
pub proof fn law_spop_takes_as_many(c: CtxV, seed: u64, m: Seq<u8>)
    requires
        c.client.argv.len() == 3,
        i64_of(c.client.argv[2]) is Some,
        i64_of(c.client.argv[2])->0 >= 0,
        set_in(c.db, c.client.argv[1]) matches Ok(Some(_)),
        members_in(c.db, c.client.argv[1])->Ok_0.no_duplicates(),
    ensures
        ({
            let key = c.client.argv[1];
            let n = i64_of(c.client.argv[2])->0;
            let ms = members_in(c.db, key)->Ok_0;
            let k = at_most(n as int, ms.len());
            let popped = drawn(ms, k, seed);
            let o = spop_outcome(c, seed);
            &&& popped.len() == k
            &&& popped.no_duplicates()
            &&& popped.contains(m) ==> ms.contains(m)
            &&& o.ctx.replies == c.replies + bulk_array(popped)
            &&& members_in(o.ctx.db, key) is Ok
            &&& members_in(o.ctx.db, key)->Ok_0.contains(m) <==> ms.contains(m) && !popped.contains(
                m,
            )
        }),
{
    let key = c.client.argv[1];
    let s = set_in(c.db, key)->Ok_0->0;
    let ms = s.members;
    let k = at_most(i64_of(c.client.argv[2])->0 as int, ms.len());
    let popped = drawn(ms, k, seed);
    crate::pick::law_drawn_are_distinct_members(ms, k, seed);
    law_members_outside(ms, popped, m);
    let left = outside_of(ms, popped);
    let o = spop_outcome(c, seed);
    assert(o.ctx.replies =~= c.replies + bulk_array(popped));
    if left.len() == 0 {
        assert(!left.contains(m));
        assert(db_get(o.ctx.db, key) is None);
    } else {
        assert(db_get(o.ctx.db, key) is Some);
    }
}

} // verus!
