//! List commands on ranges and on equal elements: LRANGE, LTRIM, LREM, LPOS.

use vstd::prelude::*;

use crate::bytes::{dup, i64_of, is_word, lemma_views_push, parse_i64, views, word};
use crate::context::{
    counts_dirty, done, fails, raises, replies, replies_one, with_db, CommandContext, CtxV,
    EventClass, Outcome,
};
use crate::error::{runtime, syntax, wrong_args, ErrV, RedisError};
use crate::keyspace::{db_delete, db_touch, db_update, list_in, ObjV};
use crate::list::{after_removal, at_most, list_elements_removed};
use crate::list_type::{
    entry_bytes, list_type_delete, list_type_equal, list_type_init_iterator, list_type_next,
    list_type_release_iterator, place, ListEncoding, ListPosition, ListTypeEntry, ListTypeIterator,
};
use crate::lists::{clipped, counted};
use crate::reply::{bulk_array, lemma_toks_add, lemma_toks_push, status, toks, Reply, Tok};

verus! {

broadcast use {lemma_toks_push, lemma_toks_add, lemma_views_push};

// ---------------------------------------------------------------------------
// LRANGE, LTRIM
// ---------------------------------------------------------------------------

/// The positions that a range of indexes means, the end left out. A negative
/// index counts from the tail, and a range reaches no further than the list.
pub open spec fn span(len: nat, start: int, end: int) -> (int, int) {
    let s0 = if start < 0 {
        start + len
    } else {
        start
    };
    let s = if s0 < 0 {
        0
    } else {
        s0
    };
    let e = if end < 0 {
        end + len
    } else {
        end
    };
    if s > e || s >= len {
        (0, 0)
    } else if e >= len {
        (s, len as int)
    } else {
        (s, e + 1)
    }
}

/// The elements in a range of indexes.
pub open spec fn in_range(l: Seq<Seq<u8>>, start: int, end: int) -> Seq<Seq<u8>> {
    let p = span(l.len(), start, end);
    l.subrange(p.0, p.1)
}

/// The positions that a range of indexes means.
fn find_span(len: usize, start: i64, end: i64) -> (r: (usize, usize))
    ensures
        (r.0 as int, r.1 as int) == span(len as nat, start as int, end as int),
        r.0 <= r.1 <= len,
{
    let n: i128 = len as i128;
    let mut s: i128 = start as i128;
    let mut e: i128 = end as i128;
    if s < 0 {
        s = s + n;
    }
    if e < 0 {
        e = e + n;
    }
    if s < 0 {
        s = 0;
    }
    if s > e || s >= n {
        return (0, 0);
    }
    if e >= n {
        e = n - 1;
    }
    (s as usize, (e + 1) as usize)
}

/// The two indexes of a command.
pub open spec fn two_indexes(argv: Seq<Seq<u8>>) -> Option<(i64, i64)> {
    match (i64_of(argv[2]), i64_of(argv[3])) {
        (Some(a), Some(b)) => Some((a, b)),
        _ => None,
    }
}

/// How LRANGE ends.
pub open spec fn lrange_outcome(c: CtxV) -> Outcome {
    let argv = c.client.argv;
    if argv.len() != 4 {
        fails(c, wrong_args("lrange"@))
    } else {
        match two_indexes(argv) {
            None => fails(c, ErrV::NotInteger),
            Some(p) => match list_in(c.db, argv[1]) {
                Err(e) => fails(c, e),
                Ok(None) => replies_one(c, Tok::Array(0)),
                Ok(Some(l)) => replies(c, bulk_array(in_range(l, p.0 as int, p.1 as int))),
            },
        }
    }
}

/// A copy of the elements between two positions.
fn copy_range(l: &Vec<Vec<u8>>, from: usize, to: usize) -> (r: Vec<Vec<u8>>)
    requires
        from <= to <= l@.len(),
    ensures
        views(r@) == views(l@).subrange(from as int, to as int),
{
    let ghost all = views(l@);
    let mut r: Vec<Vec<u8>> = Vec::new();
    let mut i: usize = from;
    assert(views(r@) =~= all.subrange(from as int, from as int));
    while i < to
        invariant
            from <= i <= to <= l@.len(),
            all == views(l@),
            views(r@) == all.subrange(from as int, i as int),
        decreases to - i,
    {
        r.push(dup(&l[i]));
        assert(views(r@) =~= all.subrange(from as int, i + 1));
        i += 1;
    }
    r
}

/// LRANGE key start stop
pub fn lrange_command(ctx: &mut CommandContext) -> (r: Result<(), RedisError>)
    requires
        old(ctx).wf(),
    ensures
        final(ctx).wf(),
        done(r, final(ctx)@) == lrange_outcome(old(ctx)@),
{
    if ctx.arg_count() != 4 {
        return Err(RedisError::wrong_number_of_args("lrange"));
    }
    let (start, end): (i64, i64) = match (parse_i64(ctx.arg(2)), parse_i64(ctx.arg(3))) {
        (Some(a), Some(b)) => (a, b),
        _ => return Err(RedisError::NotInteger),
    };
    let items: Vec<Vec<u8>> = match ctx.db.list_at(ctx.arg(1)) {
        Err(e) => return Err(e),
        Ok(None) => {
            ctx.reply(Reply::Array(0));
            return Ok(());
        },
        Ok(Some(l)) => {
            let (from, to): (usize, usize) = find_span(l.len(), start, end);
            copy_range(l, from, to)
        },
    };
    ctx.reply_bulk_array(&items)
}

/// How LTRIM ends.
pub open spec fn ltrim_outcome(c: CtxV) -> Outcome {
    let argv = c.client.argv;
    if argv.len() != 4 {
        fails(c, wrong_args("ltrim"@))
    } else {
        match two_indexes(argv) {
            None => fails(c, ErrV::NotInteger),
            Some(p) => match list_in(c.db, argv[1]) {
                Err(e) => fails(c, e),
                Ok(None) => replies_one(c, status("OK"@)),
                Ok(Some(l)) => {
                    let left = in_range(l, p.0 as int, p.1 as int);
                    let gone = (l.len() - left.len()) as nat;
                    let c1 = raises(
                        with_db(c, db_update(c.db, argv[1], ObjV::List(left))),
                        EventClass::List,
                        "ltrim"@,
                        argv[1],
                    );
                    let c2 = if left.len() == 0 {
                        raises(
                            with_db(c1, db_delete(c1.db, argv[1])),
                            EventClass::Generic,
                            "del"@,
                            argv[1],
                        )
                    } else if gone > 0 {
                        with_db(c1, db_touch(c1.db, argv[1]))
                    } else {
                        c1
                    };
                    replies_one(counts_dirty(c2, gone as u64), status("OK"@))
                },
            },
        }
    }
}

/// LTRIM key start stop
pub fn ltrim_command(ctx: &mut CommandContext) -> (r: Result<(), RedisError>)
    requires
        old(ctx).wf(),
    ensures
        final(ctx).wf(),
        done(r, final(ctx)@) == ltrim_outcome(old(ctx)@),
{
    if ctx.arg_count() != 4 {
        return Err(RedisError::wrong_number_of_args("ltrim"));
    }
    let (start, end): (i64, i64) = match (parse_i64(ctx.arg(2)), parse_i64(ctx.arg(3))) {
        (Some(a), Some(b)) => (a, b),
        _ => return Err(RedisError::NotInteger),
    };
    let key: Vec<u8> = ctx.arg_owned(1);
    let mut before: usize = 0;
    let mut after: usize = 0;
    match ctx.db.list_for_write(&key) {
        Err(e) => return Err(e),
        Ok(None) => return ctx.reply_simple_string("OK"),
        Ok(Some(l)) => {
            let ghost all = l@;
            before = l.len();
            let (from, to): (usize, usize) = find_span(before, start, end);
            let _end: Vec<Vec<u8>> = l.split_off(to);
            let mut kept: Vec<Vec<u8>> = l.split_off(from);
            std::mem::swap(l, &mut kept);
            after = l.len();
            assert(views(l@) =~= views(all).subrange(from as int, to as int));
        },
    }
    ctx.notify_keyspace_event(EventClass::List, "ltrim", &key);
    if after == 0 {
        let _gone: bool = ctx.db.sync_delete(&key);
        ctx.notify_keyspace_event(EventClass::Generic, "del", &key);
    } else if before > after {
        ctx.db.touch(&key);
    }
    ctx.add_dirty((before - after) as u64);
    ctx.reply_simple_string("OK")
}

// ---------------------------------------------------------------------------
// LREM
// ---------------------------------------------------------------------------

/// A list without the first `n` elements that equal one, from the head.
pub open spec fn removed_from_head(l: Seq<Seq<u8>>, v: Seq<u8>, n: int) -> Seq<Seq<u8>>
    decreases l.len(),
{
    if l.len() == 0 || n <= 0 {
        l
    } else if l[0] == v {
        removed_from_head(l.skip(1), v, n - 1)
    } else {
        seq![l[0]] + removed_from_head(l.skip(1), v, n)
    }
}

/// A list without the last `n` elements that equal one, from the tail.
pub open spec fn removed_from_tail(l: Seq<Seq<u8>>, v: Seq<u8>, n: int) -> Seq<Seq<u8>>
    decreases l.len(),
{
    if l.len() == 0 || n <= 0 {
        l
    } else if l.last() == v {
        removed_from_tail(l.drop_last(), v, n - 1)
    } else {
        removed_from_tail(l.drop_last(), v, n).push(l.last())
    }
}

/// A list without elements that equal one: a positive count removes so many from
/// the head, a negative one from the tail, and zero all.
pub open spec fn lremoved(l: Seq<Seq<u8>>, v: Seq<u8>, count: int) -> Seq<Seq<u8>> {
    if count < 0 {
        removed_from_tail(l, v, -count)
    } else {
        removed_from_head(
            l,
            v,
            if count == 0 {
                l.len() as int
            } else {
                count
            },
        )
    }
}

/// Removes up to `n` equal elements, from the head.
fn remove_from_head(l: &mut Vec<Vec<u8>>, v: &[u8], n: u64)
    ensures
        views(final(l)@) == removed_from_head(views(old(l)@), v@, n as int),
{
    let ghost all = views(l@);
    let mut iter: ListTypeIterator = list_type_init_iterator(
        l,
        ListEncoding::Quicklist,
        0,
        ListPosition::Tail,
    );
    let mut entry: ListTypeEntry = ListTypeEntry::new(iter.encoding, iter.direction);
    let mut removed: u64 = 0;
    let ghost mut i: int = 0;
    assert(views(l@).take(0) + removed_from_head(views(l@).skip(0), v@, n as int)
        =~= removed_from_head(all, v@, n as int)) by {
        assert(views(l@).skip(0) =~= all);
    }
    while removed < n && list_type_next(&mut iter, l, &mut entry)
        invariant
            removed <= n,
            0 <= i <= l@.len(),
            iter.within(l@.len()),
            iter.direction == ListPosition::Tail,
            iter.encoding == ListEncoding::Quicklist,
            place(iter.next) == if i < l@.len() {
                Some(i)
            } else {
                None
            },
            views(l@).take(i) + removed_from_head(views(l@).skip(i), v@, n - removed)
                == removed_from_head(all, v@, n as int),
        ensures
            removed == n || i == l@.len(),
            0 <= i <= l@.len(),
            removed <= n,
            views(l@).take(i) + removed_from_head(views(l@).skip(i), v@, n - removed)
                == removed_from_head(all, v@, n as int),
        decreases l@.len() - i,
    {
        let ghost now = views(l@);
        assert(entry_bytes(entry) == now[i]);
        assert(now.skip(i).skip(1) =~= now.skip(i + 1));
        assert(now.skip(i)[0] == now[i]);
        if list_type_equal(&entry, v) {
            list_type_delete(&mut iter, l, &entry);
            removed = removed + 1;
            proof {
                assert(views(l@).take(i) =~= now.take(i));
                assert(views(l@).skip(i) =~= now.skip(i + 1));
            }
        } else {
            proof {
                assert(now.take(i + 1) + removed_from_head(now.skip(i + 1), v@, n - removed)
                    =~= now.take(i) + (seq![now[i]] + removed_from_head(
                    now.skip(i + 1),
                    v@,
                    n - removed,
                )));
                i = i + 1;
            }
        }
    }
    list_type_release_iterator(iter);
    proof {
        assert(views(l@).take(i) + views(l@).skip(i) =~= views(l@));
    }
}

/// Removes up to `n` equal elements, from the tail.
fn remove_from_tail(l: &mut Vec<Vec<u8>>, v: &[u8], n: u64)
    ensures
        views(final(l)@) == removed_from_tail(views(old(l)@), v@, n as int),
{
    let ghost all = views(l@);
    let mut iter: ListTypeIterator = list_type_init_iterator(
        l,
        ListEncoding::Quicklist,
        -1,
        ListPosition::Head,
    );
    let mut entry: ListTypeEntry = ListTypeEntry::new(iter.encoding, iter.direction);
    let mut removed: u64 = 0;
    let ghost mut i: int = all.len() as int;
    assert(removed_from_tail(all.take(i), v@, n as int) + all.skip(i)
        =~= removed_from_tail(all, v@, n as int)) by {
        assert(all.take(i) =~= all);
    }
    while removed < n && list_type_next(&mut iter, l, &mut entry)
        invariant
            removed <= n,
            0 <= i <= l@.len(),
            iter.within(l@.len()),
            iter.direction == ListPosition::Head,
            iter.encoding == ListEncoding::Quicklist,
            place(iter.next) == if i > 0 {
                Some(i - 1)
            } else {
                None
            },
            removed_from_tail(views(l@).take(i), v@, n - removed) + views(l@).skip(i)
                == removed_from_tail(all, v@, n as int),
        ensures
            removed == n || i == 0,
            0 <= i <= l@.len(),
            removed <= n,
            removed_from_tail(views(l@).take(i), v@, n - removed) + views(l@).skip(i)
                == removed_from_tail(all, v@, n as int),
        decreases i,
    {
        let ghost now = views(l@);
        assert(entry_bytes(entry) == now[i - 1]);
        assert(now.take(i).drop_last() =~= now.take(i - 1));
        assert(now.take(i).last() == now[i - 1]);
        if list_type_equal(&entry, v) {
            list_type_delete(&mut iter, l, &entry);
            removed = removed + 1;
            proof {
                assert(views(l@).take(i - 1) =~= now.take(i - 1));
                assert(views(l@).skip(i - 1) =~= now.skip(i));
                i = i - 1;
            }
        } else {
            proof {
                assert(removed_from_tail(now.take(i - 1), v@, n - removed) + now.skip(i - 1)
                    =~= removed_from_tail(now.take(i - 1), v@, n - removed).push(now[i - 1])
                    + now.skip(i));
                i = i - 1;
            }
        }
    }
    list_type_release_iterator(iter);
    proof {
        assert(views(l@).take(i) + views(l@).skip(i) =~= views(l@));
    }
}

/// How LREM ends.
pub open spec fn lrem_outcome(c: CtxV) -> Outcome {
    let argv = c.client.argv;
    if argv.len() != 4 {
        fails(c, wrong_args("lrem"@))
    } else {
        match i64_of(argv[2]) {
            None => fails(c, ErrV::NotInteger),
            Some(n) if n == i64::MIN => fails(c, ErrV::OutOfRange),
            Some(count) => match list_in(c.db, argv[1]) {
                Err(e) => fails(c, e),
                Ok(None) => replies_one(c, Tok::Int(0)),
                Ok(Some(l)) => {
                    let left = lremoved(l, argv[3], count as int);
                    let gone = (l.len() - left.len()) as nat;
                    let c1 = if gone > 0 {
                        after_removal(
                            with_db(c, db_update(c.db, argv[1], ObjV::List(left))),
                            argv[1],
                            left.len() == 0,
                            "lrem"@,
                            gone,
                        )
                    } else {
                        c
                    };
                    replies_one(c1, Tok::Int(clipped(gone) as int))
                },
            },
        }
    }
}

/// Nothing equal is left out, and nothing comes in.
proof fn lemma_lremoved_len(l: Seq<Seq<u8>>, v: Seq<u8>, n: int)
    ensures
        removed_from_head(l, v, n).len() <= l.len(),
        removed_from_tail(l, v, n).len() <= l.len(),
        removed_from_head(l, v, n).len() == l.len() ==> removed_from_head(l, v, n) == l,
        removed_from_tail(l, v, n).len() == l.len() ==> removed_from_tail(l, v, n) == l,
    decreases l.len(),
{
    if l.len() > 0 && n > 0 {
        lemma_lremoved_len(l.skip(1), v, n);
        lemma_lremoved_len(l.skip(1), v, n - 1);
        lemma_lremoved_len(l.drop_last(), v, n);
        lemma_lremoved_len(l.drop_last(), v, n - 1);
        assert(seq![l[0]] + l.skip(1) =~= l);
        assert(l.drop_last().push(l.last()) =~= l);
    }
}

/// LREM key count element
pub fn lrem_command(ctx: &mut CommandContext) -> (r: Result<(), RedisError>)
    requires
        old(ctx).wf(),
    ensures
        final(ctx).wf(),
        done(r, final(ctx)@) == lrem_outcome(old(ctx)@),
{
    if ctx.arg_count() != 4 {
        return Err(RedisError::wrong_number_of_args("lrem"));
    }
    let count: i64 = match parse_i64(ctx.arg(2)) {
        None => return Err(RedisError::NotInteger),
        Some(n) => n,
    };
    if count == i64::MIN {
        return Err(RedisError::OutOfRange);
    }
    let key: Vec<u8> = ctx.arg_owned(1);
    let v: Vec<u8> = ctx.arg_owned(3);
    let mut before: usize = 0;
    let mut after: usize = 0;
    match ctx.db.list_for_write(&key) {
        Err(e) => return Err(e),
        Ok(None) => return ctx.reply_integer(0),
        Ok(Some(l)) => {
            before = l.len();
            proof {
                let m = if count < 0 {
                    -count
                } else if count == 0 {
                    before as int
                } else {
                    count as int
                };
                lemma_lremoved_len(views(l@), v@, m);
            }
            if count < 0 {
                remove_from_tail(l, &v, (-count) as u64);
            } else if count == 0 {
                remove_from_head(l, &v, before as u64);
            } else {
                remove_from_head(l, &v, count as u64);
            }
            after = l.len();
            assert(l@.len() == views(l@).len());
        },
    }
    let gone: usize = before - after;
    if gone > 0 {
        list_elements_removed(ctx, &key, after == 0, "lrem", gone);
    } else {
        assert(ctx@.db =~= old(ctx)@.db);
    }
    ctx.reply_integer(counted(gone))
}

// ---------------------------------------------------------------------------
// LPOS
// ---------------------------------------------------------------------------

/// The options of LPOS.
pub struct LposArgs {
    pub rank: i64,
    pub count: Option<i64>,
    pub maxlen: i64,
}

/// The error of a rank of zero.
pub open spec fn rank_error() -> ErrV {
    runtime(
        "RANK can't be zero: use 1 to start from the first match, 2 from the second ... or use negative to start from the end of the list"@,
    )
}

/// The options of LPOS from an argument on.
pub open spec fn lpos_args(argv: Seq<Seq<u8>>, j: int, acc: LposArgs) -> Result<LposArgs, ErrV>
    decreases argv.len() - j,
{
    if j >= argv.len() {
        Ok(acc)
    } else if j + 1 >= argv.len() {
        Err(syntax("syntax error"@))
    } else if is_word(argv[j], "rank"@) {
        match i64_of(argv[j + 1]) {
            None => Err(ErrV::NotInteger),
            Some(n) if n == i64::MIN => Err(ErrV::OutOfRange),
            Some(0) => Err(rank_error()),
            Some(n) => lpos_args(argv, j + 2, LposArgs { rank: n, ..acc }),
        }
    } else if is_word(argv[j], "count"@) {
        match i64_of(argv[j + 1]) {
            Some(n) if n >= 0 => lpos_args(argv, j + 2, LposArgs { count: Some(n), ..acc }),
            _ => Err(runtime("ERR COUNT can't be negative"@)),
        }
    } else if is_word(argv[j], "maxlen"@) {
        match i64_of(argv[j + 1]) {
            Some(n) if n >= 0 => lpos_args(argv, j + 2, LposArgs { maxlen: n, ..acc }),
            _ => Err(runtime("ERR MAXLEN can't be negative"@)),
        }
    } else {
        Err(syntax("syntax error"@))
    }
}

/// The options of LPOS where none is given.
pub open spec fn lpos_default() -> LposArgs {
    LposArgs { rank: 1, count: None, maxlen: 0 }
}

/// A number that is not negative.
fn natural(s: &[u8]) -> (r: Option<i64>)
    ensures
        match i64_of(s@) {
            Some(n) if n >= 0 => r == Some(n),
            _ => r is None,
        },
{
    match parse_i64(s) {
        Some(n) => if n >= 0 {
            Some(n)
        } else {
            None
        },
        None => None,
    }
}

/// Reads the options of LPOS.
fn parse_lpos(ctx: &CommandContext) -> (r: Result<LposArgs, RedisError>)
    ensures
        match r {
            Ok(a) => lpos_args(ctx@.client.argv, 3, lpos_default()) == Ok::<_, ErrV>(a)
                && a.rank != 0 && a.rank != i64::MIN && a.maxlen >= 0 && (a.count matches Some(n)
                ==> n >= 0),
            Err(e) => lpos_args(ctx@.client.argv, 3, lpos_default()) == Err::<LposArgs, ErrV>(e@),
        },
{
    let ghost argv = ctx@.client.argv;
    let ghost whole = lpos_args(argv, 3, lpos_default());
    let argc: usize = ctx.arg_count();
    let mut a: LposArgs = LposArgs { rank: 1, count: None, maxlen: 0 };
    let mut j: usize = 3;
    while j < argc
        invariant
            argv == ctx@.client.argv,
            argc == argv.len(),
            whole == lpos_args(argv, 3, lpos_default()),
            whole == lpos_args(argv, j as int, a),
            a.rank != 0 && a.rank != i64::MIN && a.maxlen >= 0,
            a.count matches Some(n) ==> n >= 0,
        decreases argc + 2 - j,
    {
        if j + 1 >= argc {
            return Err(RedisError::syntax("syntax error"));
        }
        if word(ctx.arg(j), "rank") {
            let n: i64 = match parse_i64(ctx.arg(j + 1)) {
                None => return Err(RedisError::NotInteger),
                Some(n) => n,
            };
            if n == i64::MIN {
                return Err(RedisError::OutOfRange);
            }
            if n == 0 {
                return Err(
                    RedisError::runtime(
                        "RANK can't be zero: use 1 to start from the first match, 2 from the second ... or use negative to start from the end of the list",
                    ),
                );
            }
            a = LposArgs { rank: n, count: a.count, maxlen: a.maxlen };
        } else if word(ctx.arg(j), "count") {
            match natural(ctx.arg(j + 1)) {
                Some(n) => {
                    a = LposArgs { rank: a.rank, count: Some(n), maxlen: a.maxlen };
                },
                None => return Err(RedisError::runtime("ERR COUNT can't be negative")),
            }
        } else if word(ctx.arg(j), "maxlen") {
            match natural(ctx.arg(j + 1)) {
                Some(n) => {
                    a = LposArgs { rank: a.rank, count: a.count, maxlen: n };
                },
                None => return Err(RedisError::runtime("ERR MAXLEN can't be negative")),
            }
        } else {
            return Err(RedisError::syntax("syntax error"));
        }
        j += 2;
    }
    Ok(a)
}

/// The position of the element that is the `k`th to be looked at.
pub open spec fn looked_at(len: nat, forward: bool, k: int) -> int {
    if forward {
        k
    } else {
        len - k - 1
    }
}

/// The positions of the equal elements among the first `k` that are looked at.
pub open spec fn hits(l: Seq<Seq<u8>>, v: Seq<u8>, forward: bool, k: nat) -> Seq<int>
    decreases k,
{
    if k == 0 {
        Seq::empty()
    } else {
        let before = hits(l, v, forward, (k - 1) as nat);
        let p = looked_at(l.len(), forward, k - 1);
        if l[p] == v {
            before.push(p)
        } else {
            before
        }
    }
}

/// The matches from the one of that rank on, up to a limit; a limit of 0 is none.
pub open spec fn wanted(h: Seq<int>, rank: int, limit: int) -> Seq<int> {
    let from = if rank - 1 >= h.len() {
        Seq::empty()
    } else {
        h.skip(rank - 1)
    };
    if limit > 0 && from.len() > limit {
        from.take(limit)
    } else {
        from
    }
}

/// The positions that LPOS answers with.
pub open spec fn lpos_answers(l: Seq<Seq<u8>>, v: Seq<u8>, a: LposArgs) -> Seq<int> {
    let forward = a.rank > 0;
    let n = if a.maxlen == 0 {
        l.len() as int
    } else {
        at_most(a.maxlen as int, l.len())
    };
    wanted(
        hits(l, v, forward, n as nat),
        if forward {
            a.rank as int
        } else {
            -a.rank
        },
        match a.count {
            Some(k) => k as int,
            None => 1,
        },
    )
}

/// A longer look only adds matches.
proof fn lemma_hits_prefix(l: Seq<Seq<u8>>, v: Seq<u8>, forward: bool, k: nat, n: nat)
    requires
        k <= n,
    ensures
        hits(l, v, forward, k).len() <= hits(l, v, forward, n).len(),
        hits(l, v, forward, n).take(hits(l, v, forward, k).len() as int) == hits(l, v, forward, k),
    decreases n,
{
    let a = hits(l, v, forward, k);
    if k == n {
        assert(a.take(a.len() as int) =~= a);
    } else {
        lemma_hits_prefix(l, v, forward, k, (n - 1) as nat);
        let b = hits(l, v, forward, (n - 1) as nat);
        let c = hits(l, v, forward, n);
        assert(c.take(a.len() as int) =~= b.take(a.len() as int));
    }
}

/// What a list of positions says.
pub open spec fn places(v: Seq<usize>) -> Seq<int> {
    v.map_values(|p: usize| p as int)
}

/// The positions that LPOS answers with.
fn find_positions(l: &Vec<Vec<u8>>, v: &[u8], a: &LposArgs) -> (r: Vec<usize>)
    requires
        a.rank != 0 && a.rank != i64::MIN && a.maxlen >= 0,
        a.count matches Some(n) ==> n >= 0,
    ensures
        places(r@) == lpos_answers(views(l@), v@, *a),
{
    let ghost all = views(l@);
    let forward: bool = a.rank > 0;
    let rank: u64 = if forward {
        a.rank as u64
    } else {
        (-a.rank) as u64
    };
    let limit: u64 = match a.count {
        Some(k) => k as u64,
        None => 1,
    };
    let n: u64 = if a.maxlen == 0 || a.maxlen as u64 >= l.len() as u64 {
        l.len() as u64
    } else {
        a.maxlen as u64
    };
    let mut iter: ListTypeIterator = list_type_init_iterator(
        l,
        ListEncoding::Quicklist,
        if forward {
            0
        } else {
            -1
        },
        if forward {
            ListPosition::Tail
        } else {
            ListPosition::Head
        },
    );
    let mut entry: ListTypeEntry = ListTypeEntry::new(iter.encoding, iter.direction);
    let mut out: Vec<usize> = Vec::new();
    let mut found: u64 = 0;
    let mut k: u64 = 0;
    assert(places(out@) =~= wanted(hits(all, v@, forward, 0), rank as int, limit as int));
    let mut go: bool = true;
    while go && k < n && list_type_next(&mut iter, l, &mut entry)
        invariant
            all == views(l@),
            k <= n <= all.len(),
            n <= u64::MAX,
            rank >= 1,
            iter.within(l@.len()),
            iter.encoding == ListEncoding::Quicklist,
            iter.direction == if forward {
                ListPosition::Tail
            } else {
                ListPosition::Head
            },
            place(iter.next) == if k < all.len() {
                Some(looked_at(all.len(), forward, k as int))
            } else {
                None
            },
            found == hits(all, v@, forward, k as nat).len(),
            found <= k,
            places(out@) == wanted(hits(all, v@, forward, k as nat), rank as int, limit as int),
            go == !(limit > 0 && out@.len() == limit),
        ensures
            !go || k == n,
            k <= n,
            places(out@) == wanted(hits(all, v@, forward, k as nat), rank as int, limit as int),
            go == !(limit > 0 && out@.len() == limit),
        decreases n - k,
    {
        let ghost h = hits(all, v@, forward, k as nat);
        let p: usize = entry.index;
        assert(entry_bytes(entry) == all[p as int]);
        assert(places(out@).len() == out@.len());
        if list_type_equal(&entry, v) {
            found = found + 1;
            let ghost was = out@;
            if found >= rank {
                out.push(p);
                go = !(limit > 0 && out.len() as u64 == limit);
            }
            proof {
                assert(hits(all, v@, forward, (k + 1) as nat) =~= h.push(p as int));
                assert(places(was.push(p)) =~= places(was).push(p as int));
                assert(places(out@) =~= wanted(h.push(p as int), rank as int, limit as int));
            }
        }
        k = k + 1;
    }
    list_type_release_iterator(iter);
    proof {
        lemma_hits_prefix(all, v@, forward, k as nat, n as nat);
        assert(places(out@).len() == out@.len());
        if !go {
            let h = hits(all, v@, forward, k as nat);
            let g = hits(all, v@, forward, n as nat);
            assert forall|i: int| 0 <= i < h.len() implies g[i] == h[i] by {
                assert(g.take(h.len() as int)[i] == g[i]);
            }
            assert(wanted(g, rank as int, limit as int) =~= wanted(h, rank as int, limit as int));
        }
    }
    out
}

/// One integer per position.
pub open spec fn place_toks(ps: Seq<int>) -> Seq<Tok> {
    ps.map_values(|p: int| Tok::Int(clipped(p as nat) as int))
}

/// How LPOS ends.
pub open spec fn lpos_outcome(c: CtxV) -> Outcome {
    let argv = c.client.argv;
    if argv.len() < 3 {
        fails(c, wrong_args("lpos"@))
    } else {
        match lpos_args(argv, 3, lpos_default()) {
            Err(e) => fails(c, e),
            Ok(a) => match list_in(c.db, argv[1]) {
                Err(e) => fails(c, e),
                Ok(None) => replies_one(
                    c,
                    if a.count is Some {
                        Tok::Array(0)
                    } else {
                        Tok::NullBulk
                    },
                ),
                Ok(Some(l)) => {
                    let ps = lpos_answers(l, argv[2], a);
                    if a.count is Some {
                        replies(c, seq![Tok::Array(ps.len())] + place_toks(ps))
                    } else if ps.len() > 0 {
                        replies_one(c, Tok::Int(clipped(ps[0] as nat) as int))
                    } else {
                        replies_one(c, Tok::NullBulk)
                    }
                },
            },
        }
    }
}

/// Replies with positions.
fn position_replies(ps: &Vec<usize>) -> (r: Vec<Reply>)
    ensures
        toks(r@) == seq![Tok::Array(ps@.len())] + place_toks(places(ps@)),
{
    let ghost all = places(ps@);
    let mut r: Vec<Reply> = Vec::new();
    r.push(Reply::Array(ps.len() as u128));
    let mut i: usize = 0;
    assert(toks(r@) =~= seq![Tok::Array(ps@.len())] + place_toks(all.take(0)));
    while i < ps.len()
        invariant
            i <= ps@.len(),
            all == places(ps@),
            toks(r@) == seq![Tok::Array(ps@.len())] + place_toks(all.take(i as int)),
        decreases ps@.len() - i,
    {
        r.push(Reply::Int(counted(ps[i])));
        assert(place_toks(all.take(i + 1)) =~= place_toks(all.take(i as int)).push(
            Tok::Int(clipped(ps@[i as int] as nat) as int),
        ));
        assert(toks(r@) =~= seq![Tok::Array(ps@.len())] + place_toks(all.take(i + 1)));
        i += 1;
    }
    assert(all.take(all.len() as int) =~= all);
    r
}

/// LPOS key element [RANK rank] [COUNT num-matches] [MAXLEN len]
pub fn lpos_command(ctx: &mut CommandContext) -> (r: Result<(), RedisError>)
    requires
        old(ctx).wf(),
    ensures
        final(ctx).wf(),
        done(r, final(ctx)@) == lpos_outcome(old(ctx)@),
{
    if ctx.arg_count() < 3 {
        return Err(RedisError::wrong_number_of_args("lpos"));
    }
    let a: LposArgs = match parse_lpos(ctx) {
        Err(e) => return Err(e),
        Ok(a) => a,
    };
    let found: Option<Vec<usize>> = match ctx.db.list_at(ctx.arg(1)) {
        Err(e) => return Err(e),
        Ok(None) => None,
        Ok(Some(l)) => Some(find_positions(l, ctx.arg(2), &a)),
    };
    match found {
        None => {
            if a.count.is_some() {
                ctx.reply(Reply::Array(0));
                Ok(())
            } else {
                ctx.reply_null_bulk()
            }
        },
        Some(ps) => {
            assert(places(ps@).len() == ps@.len());
            if a.count.is_some() {
                let ts: Vec<Reply> = position_replies(&ps);
                ctx.reply_all(ts);
                Ok(())
            } else if ps.len() > 0 {
                ctx.reply_integer(counted(ps[0]))
            } else {
                ctx.reply_null_bulk()
            }
        },
    }
}

} // verus!
