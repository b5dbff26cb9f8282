//! List commands on one key.

use vstd::prelude::*;

use crate::bytes::{dup, i64_of, is_word, lemma_views_push, parse_i64, views, word};
use crate::context::{
    counts_dirty, done, fails, raises, replies, replies_one, with_db, CommandContext, CtxV,
    EventClass, Outcome,
};
use crate::error::{runtime, syntax, wrong_args, ErrV, RedisError};
use crate::keyspace::{db_delete, db_set, db_touch, db_update, list_in, ObjV, RedisObject};
use crate::list_type::{
    end_of, entry_bytes, list_type_equal, list_type_get, list_type_init_iterator, list_type_insert,
    list_type_next, list_type_push, list_type_release_iterator, list_type_replace_at_index, place,
    pushed, seek, ListEncoding, ListPosition, ListTypeEntry, ListTypeIterator,
};
use crate::lists::{clipped, counted, reversed};
use crate::reply::{bulk_array, lemma_toks_add, lemma_toks_push, status, Reply, Tok};

verus! {

broadcast use {lemma_toks_push, lemma_toks_add, lemma_views_push};

// ---------------------------------------------------------------------------
// LPUSH, RPUSH, LPUSHX, RPUSHX
// ---------------------------------------------------------------------------

/// The event of a push.
pub open spec fn push_event(at: ListPosition) -> Seq<char> {
    match at {
        ListPosition::Head => "lpush"@,
        ListPosition::Tail => "rpush"@,
    }
}

/// The event of a push.
pub(crate) fn push_event_name(at: ListPosition) -> (r: &'static str)
    ensures
        r@ == push_event(at),
{
    match at {
        ListPosition::Head => "lpush",
        ListPosition::Tail => "rpush",
    }
}

/// The event of a pop.
pub open spec fn pop_event(at: ListPosition) -> Seq<char> {
    match at {
        ListPosition::Head => "lpop"@,
        ListPosition::Tail => "rpop"@,
    }
}

/// The event of a pop.
pub(crate) fn pop_event_name(at: ListPosition) -> (r: &'static str)
    ensures
        r@ == pop_event(at),
{
    match at {
        ListPosition::Head => "lpop",
        ListPosition::Tail => "rpop",
    }
}

/// A list after elements were pushed one by one.
pub open spec fn pushed_all(l: Seq<Seq<u8>>, vs: Seq<Seq<u8>>, at: ListPosition) -> Seq<Seq<u8>>
    decreases vs.len(),
{
    if vs.len() == 0 {
        l
    } else {
        pushed(pushed_all(l, vs.drop_last(), at), vs.last(), at)
    }
}

/// How a push of elements ends.
pub open spec fn push_outcome(
    c: CtxV,
    at: ListPosition,
    only_existing: bool,
    name: Seq<char>,
) -> Outcome {
    let argv = c.client.argv;
    if argv.len() < 3 {
        fails(c, wrong_args(name))
    } else {
        match list_in(c.db, argv[1]) {
            Err(e) => fails(c, e),
            Ok(None) if only_existing => replies_one(c, Tok::Int(0)),
            Ok(was) => {
                let now = pushed_all(
                    match was {
                        Some(l) => l,
                        None => Seq::empty(),
                    },
                    argv.skip(2),
                    at,
                );
                let db = if was is Some {
                    db_touch(db_update(c.db, argv[1], ObjV::List(now)), argv[1])
                } else {
                    db_set(c.db, argv[1], ObjV::List(now), false)
                };
                replies_one(
                    counts_dirty(
                        raises(with_db(c, db), EventClass::List, push_event(at), argv[1]),
                        (argv.len() - 2) as u64,
                    ),
                    Tok::Int(clipped(now.len()) as int),
                )
            },
        }
    }
}

/// Pushes the arguments from a position on.
fn push_args(l: &mut Vec<Vec<u8>>, argv: &Vec<Vec<u8>>, from: usize, at: ListPosition)
    requires
        from <= argv@.len(),
    ensures
        views(final(l)@) == pushed_all(views(old(l)@), views(argv@).skip(from as int), at),
{
    let ghost start = views(l@);
    let ghost vs = views(argv@).skip(from as int);
    let mut i: usize = from;
    assert(vs.take(0) =~= Seq::empty());
    while i < argv.len()
        invariant
            from <= i <= argv@.len(),
            vs == views(argv@).skip(from as int),
            views(l@) == pushed_all(start, vs.take(i - from), at),
        decreases argv@.len() - i,
    {
        list_type_push(l, dup(&argv[i]), at);
        assert(vs.take(i + 1 - from).drop_last() =~= vs.take(i - from));
        i += 1;
    }
    assert(vs.take(i - from) =~= vs);
}

/// Pushes elements.
fn push_generic_command(
    ctx: &mut CommandContext,
    at: ListPosition,
    only_existing: bool,
    name: &str,
) -> (r: Result<(), RedisError>)
    requires
        old(ctx).wf(),
    ensures
        final(ctx).wf(),
        done(r, final(ctx)@) == push_outcome(old(ctx)@, at, only_existing, name@),
{
    let argc: usize = ctx.arg_count();
    if argc < 3 {
        return Err(RedisError::wrong_number_of_args(name));
    }
    let key: Vec<u8> = ctx.arg_owned(1);
    let there: bool = match ctx.db.list_at(&key) {
        Err(e) => return Err(e),
        Ok(l) => l.is_some(),
    };
    let mut n: usize = 0;
    if there {
        match ctx.db.list_for_write(&key) {
            Ok(Some(l)) => {
                push_args(l, &ctx.client.argv, 2, at);
                n = l.len();
            },
            _ => {},
        }
        ctx.db.touch(&key);
    } else {
        if only_existing {
            return ctx.reply_integer(0);
        }
        let mut l: Vec<Vec<u8>> = Vec::new();
        assert(views(l@) =~= Seq::empty());
        push_args(&mut l, &ctx.client.argv, 2, at);
        n = l.len();
        ctx.db.set_key(dup(&key), RedisObject::List(l), false);
    }
    ctx.notify_keyspace_event(EventClass::List, push_event_name(at), &key);
    ctx.add_dirty((argc - 2) as u64);
    ctx.reply_integer(counted(n))
}

/// LPUSH key element [element ...]
pub fn lpush_command(ctx: &mut CommandContext) -> (r: Result<(), RedisError>)
    requires
        old(ctx).wf(),
    ensures
        final(ctx).wf(),
        done(r, final(ctx)@) == push_outcome(old(ctx)@, ListPosition::Head, false, "lpush"@),
{
    push_generic_command(ctx, ListPosition::Head, false, "lpush")
}

/// RPUSH key element [element ...]
pub fn rpush_command(ctx: &mut CommandContext) -> (r: Result<(), RedisError>)
    requires
        old(ctx).wf(),
    ensures
        final(ctx).wf(),
        done(r, final(ctx)@) == push_outcome(old(ctx)@, ListPosition::Tail, false, "rpush"@),
{
    push_generic_command(ctx, ListPosition::Tail, false, "rpush")
}

/// LPUSHX key element [element ...]
pub fn lpushx_command(ctx: &mut CommandContext) -> (r: Result<(), RedisError>)
    requires
        old(ctx).wf(),
    ensures
        final(ctx).wf(),
        done(r, final(ctx)@) == push_outcome(old(ctx)@, ListPosition::Head, true, "lpushx"@),
{
    push_generic_command(ctx, ListPosition::Head, true, "lpushx")
}

/// RPUSHX key element [element ...]
pub fn rpushx_command(ctx: &mut CommandContext) -> (r: Result<(), RedisError>)
    requires
        old(ctx).wf(),
    ensures
        final(ctx).wf(),
        done(r, final(ctx)@) == push_outcome(old(ctx)@, ListPosition::Tail, true, "rpushx"@),
{
    push_generic_command(ctx, ListPosition::Tail, true, "rpushx")
}

// ---------------------------------------------------------------------------
// LPOP, RPOP
// ---------------------------------------------------------------------------

/// The context after `n` elements left a list: an event tells, an empty list
/// goes, and the watchers of the key are dirty.
pub open spec fn after_removal(
    c: CtxV,
    key: Seq<u8>,
    empty: bool,
    event: Seq<char>,
    n: nat,
) -> CtxV {
    let c1 = raises(c, EventClass::List, event, key);
    counts_dirty(
        if empty {
            raises(with_db(c1, db_delete(c1.db, key)), EventClass::Generic, "del"@, key)
        } else {
            with_db(c1, db_touch(c1.db, key))
        },
        n as u64,
    )
}

/// Tells of elements that left a list. Tells whether the list is gone.
pub(crate) fn list_elements_removed(
    ctx: &mut CommandContext,
    key: &[u8],
    empty: bool,
    event: &str,
    n: usize,
)
    requires
        old(ctx).wf(),
    ensures
        final(ctx).wf(),
        final(ctx)@ == after_removal(old(ctx)@, key@, empty, event@, n as nat),
{
    ctx.notify_keyspace_event(EventClass::List, event, key);
    if empty {
        let _gone: bool = ctx.db.sync_delete(key);
        ctx.notify_keyspace_event(EventClass::Generic, "del", key);
    } else {
        ctx.db.touch(key);
    }
    ctx.add_dirty(n as u64);
}

/// The first `n` elements that pops at an end take.
pub open spec fn taken(l: Seq<Seq<u8>>, n: int, at: ListPosition) -> Seq<Seq<u8>> {
    match at {
        ListPosition::Head => l.take(n),
        ListPosition::Tail => l.skip(l.len() - n).reverse(),
    }
}

/// What is left when `n` elements were taken at an end.
pub open spec fn left_of(l: Seq<Seq<u8>>, n: int, at: ListPosition) -> Seq<Seq<u8>> {
    match at {
        ListPosition::Head => l.skip(n),
        ListPosition::Tail => l.take(l.len() - n),
    }
}

/// Takes `n` elements at an end.
fn take_range(l: &mut Vec<Vec<u8>>, n: usize, at: ListPosition) -> (r: Vec<Vec<u8>>)
    requires
        n <= old(l)@.len(),
    ensures
        views(r@) == taken(views(old(l)@), n as int, at),
        views(final(l)@) == left_of(views(old(l)@), n as int, at),
{
    let ghost all = l@;
    match at {
        ListPosition::Head => {
            let mut rest: Vec<Vec<u8>> = l.split_off(n);
            std::mem::swap(l, &mut rest);
            assert(views(rest@) =~= taken(views(all), n as int, at));
            assert(views(l@) =~= left_of(views(all), n as int, at));
            rest
        },
        ListPosition::Tail => {
            let len: usize = l.len();
            let end: Vec<Vec<u8>> = l.split_off(len - n);
            let r: Vec<Vec<u8>> = reversed(end);
            assert(views(r@) =~= taken(views(all), n as int, at));
            assert(views(l@) =~= left_of(views(all), n as int, at));
            r
        },
    }
}

/// How many of `count` elements a list of that length can give.
pub open spec fn at_most(count: int, len: nat) -> int {
    if count < len {
        count
    } else {
        len as int
    }
}

/// The context after up to `count` elements were taken from a list.
pub open spec fn popped_from(
    c: CtxV,
    key: Seq<u8>,
    l: Seq<Seq<u8>>,
    at: ListPosition,
    count: int,
) -> CtxV {
    let n = at_most(count, l.len());
    let left = left_of(l, n, at);
    after_removal(
        with_db(c, db_update(c.db, key, ObjV::List(left))),
        key,
        left.len() == 0,
        pop_event(at),
        n as nat,
    )
}

/// Takes up to `count` elements from a list that is there.
pub(crate) fn pop_range(ctx: &mut CommandContext, key: &[u8], at: ListPosition, count: u64) -> (r:
    Vec<Vec<u8>>)
    requires
        old(ctx).wf(),
        list_in(old(ctx)@.db, key@) matches Ok(Some(_)),
    ensures
        final(ctx).wf(),
        ({
            let l = list_in(old(ctx)@.db, key@)->Ok_0->0;
            &&& final(ctx)@ == popped_from(old(ctx)@, key@, l, at, count as int)
            &&& views(r@) == taken(l, at_most(count as int, l.len()), at)
        }),
{
    let mut items: Vec<Vec<u8>> = Vec::new();
    let mut empty: bool = false;
    match ctx.db.list_for_write(key) {
        Ok(Some(l)) => {
            let n: usize = if count < l.len() as u64 {
                count as usize
            } else {
                l.len()
            };
            items = take_range(l, n, at);
            empty = l.len() == 0;
            assert(items@.len() == views(items@).len());
            assert(l@.len() == views(l@).len());
        },
        _ => {},
    }
    list_elements_removed(ctx, key, empty, pop_event_name(at), items.len());
    items
}

/// The count of a pop, where one is given.
pub open spec fn pop_count(argv: Seq<Seq<u8>>) -> Result<Option<i64>, ErrV> {
    if argv.len() < 3 {
        Ok(None)
    } else {
        match i64_of(argv[2]) {
            Some(n) if n >= 0 => Ok(Some(n)),
            _ => Err(runtime("ERR value is out of range, must be positive"@)),
        }
    }
}

/// How a pop at an end ends. Without a count the reply is the element itself.
pub open spec fn pop_outcome(c: CtxV, at: ListPosition) -> Outcome {
    let argv = c.client.argv;
    if argv.len() < 2 || argv.len() > 3 {
        fails(c, wrong_args("pop"@))
    } else {
        match (pop_count(argv), list_in(c.db, argv[1])) {
            (Err(e), _) => fails(c, e),
            (_, Err(e)) => fails(c, e),
            (_, Ok(None)) => replies_one(c, Tok::NullBulk),
            (Ok(Some(n)), Ok(Some(l))) => if n == 0 {
                replies_one(c, Tok::Array(0))
            } else {
                replies(
                    popped_from(c, argv[1], l, at, n as int),
                    bulk_array(taken(l, at_most(n as int, l.len()), at)),
                )
            },
            (Ok(None), Ok(Some(l))) => if l.len() == 0 {
                replies_one(c, Tok::NullBulk)
            } else {
                replies_one(popped_from(c, argv[1], l, at, 1), Tok::Bulk(end_of(l, at)))
            },
        }
    }
}

/// Takes elements at an end.
fn pop_generic_command(ctx: &mut CommandContext, at: ListPosition) -> (r: Result<(), RedisError>)
    requires
        old(ctx).wf(),
    ensures
        final(ctx).wf(),
        done(r, final(ctx)@) == pop_outcome(old(ctx)@, at),
{
    let argc: usize = ctx.arg_count();
    if argc < 2 || argc > 3 {
        return Err(RedisError::wrong_number_of_args("pop"));
    }
    let mut count: Option<u64> = None;
    if argc == 3 {
        let n: i64 = match parse_i64(ctx.arg(2)) {
            Some(n) => n,
            None => -1,
        };
        if n < 0 {
            return Err(RedisError::runtime("ERR value is out of range, must be positive"));
        }
        count = Some(n as u64);
    }
    let key: Vec<u8> = ctx.arg_owned(1);
    let len: usize = match ctx.db.list_at(&key) {
        Err(e) => return Err(e),
        Ok(None) => return ctx.reply_null_bulk(),
        Ok(Some(l)) => l.len(),
    };
    match count {
        Some(n) => {
            if n == 0 {
                ctx.reply(Reply::Array(0));
                return Ok(());
            }
            let items: Vec<Vec<u8>> = pop_range(ctx, &key, at, n);
            ctx.reply_bulk_array(&items)
        },
        None => {
            if len == 0 {
                return ctx.reply_null_bulk();
            }
            let mut items: Vec<Vec<u8>> = pop_range(ctx, &key, at, 1);
            proof {
                let l = list_in(old(ctx)@.db, key@)->Ok_0->0;
                assert(views(items@) == taken(l, 1, at));
                assert(items@[0]@ == views(items@)[0]);
                assert(taken(l, 1, at)[0] == end_of(l, at));
            }
            let v: Vec<u8> = items.remove(0);
            ctx.reply_bulk(v)
        },
    }
}

/// LPOP key [count]
pub fn lpop_command(ctx: &mut CommandContext) -> (r: Result<(), RedisError>)
    requires
        old(ctx).wf(),
    ensures
        final(ctx).wf(),
        done(r, final(ctx)@) == pop_outcome(old(ctx)@, ListPosition::Head),
{
    pop_generic_command(ctx, ListPosition::Head)
}

/// RPOP key [count]
pub fn rpop_command(ctx: &mut CommandContext) -> (r: Result<(), RedisError>)
    requires
        old(ctx).wf(),
    ensures
        final(ctx).wf(),
        done(r, final(ctx)@) == pop_outcome(old(ctx)@, ListPosition::Tail),
{
    pop_generic_command(ctx, ListPosition::Tail)
}

// ---------------------------------------------------------------------------
// LINSERT
// ---------------------------------------------------------------------------

/// The first position of an element from a position on.
pub open spec fn first_at(l: Seq<Seq<u8>>, v: Seq<u8>, from: int) -> Option<int>
    decreases l.len() - from,
{
    if from < 0 || from >= l.len() {
        None
    } else if l[from] == v {
        Some(from)
    } else {
        first_at(l, v, from + 1)
    }
}

/// How LINSERT ends.
pub open spec fn linsert_outcome(c: CtxV) -> Outcome {
    let argv = c.client.argv;
    if argv.len() != 5 {
        fails(c, wrong_args("linsert"@))
    } else if !is_word(argv[2], "after"@) && !is_word(argv[2], "before"@) {
        fails(c, syntax("syntax error"@))
    } else {
        match list_in(c.db, argv[1]) {
            Err(e) => fails(c, e),
            Ok(None) => replies_one(c, Tok::Int(0)),
            Ok(Some(l)) => match first_at(l, argv[3], 0) {
                None => replies_one(c, Tok::Int(-1)),
                Some(p) => {
                    let now = l.insert(
                        if is_word(argv[2], "after"@) {
                            p + 1
                        } else {
                            p
                        },
                        argv[4],
                    );
                    let db = db_touch(db_update(c.db, argv[1], ObjV::List(now)), argv[1]);
                    replies_one(
                        counts_dirty(
                            raises(with_db(c, db), EventClass::List, "linsert"@, argv[1]),
                            1,
                        ),
                        Tok::Int(clipped(now.len()) as int),
                    )
                },
            },
        }
    }
}

/// Puts an element beside the first one that equals the pivot. Tells whether
/// there is one.
fn insert_beside(l: &mut Vec<Vec<u8>>, pivot: &[u8], value: Vec<u8>, at: ListPosition) -> (r: bool)
    ensures
        match first_at(views(old(l)@), pivot@, 0) {
            None => !r && final(l)@ == old(l)@,
            Some(p) => r && views(final(l)@) == views(old(l)@).insert(
                if at == ListPosition::Tail {
                    p + 1
                } else {
                    p
                },
                value@,
            ),
        },
{
    let ghost all = views(l@);
    let mut iter: ListTypeIterator = list_type_init_iterator(
        l,
        ListEncoding::Quicklist,
        0,
        ListPosition::Tail,
    );
    let mut entry: ListTypeEntry = ListTypeEntry::new(iter.encoding, iter.direction);
    let ghost mut i: int = 0;
    while list_type_next(&mut iter, l, &mut entry)
        invariant
            l@ == old(l)@,
            all == views(l@),
            0 <= i <= all.len(),
            iter.within(l@.len()),
            iter.direction == ListPosition::Tail,
            iter.encoding == ListEncoding::Quicklist,
            place(iter.next) == if i < all.len() {
                Some(i)
            } else {
                None
            },
            first_at(all, pivot@, 0) == first_at(all, pivot@, i),
        decreases all.len() - i,
    {
        assert(entry_bytes(entry) == all[i]);
        if list_type_equal(&entry, pivot) {
            list_type_insert(&mut iter, l, &mut entry, value, at);
            list_type_release_iterator(iter);
            return true;
        }
        proof {
            i = i + 1;
        }
    }
    list_type_release_iterator(iter);
    false
}

/// LINSERT key BEFORE|AFTER pivot element
pub fn linsert_command(ctx: &mut CommandContext) -> (r: Result<(), RedisError>)
    requires
        old(ctx).wf(),
    ensures
        final(ctx).wf(),
        done(r, final(ctx)@) == linsert_outcome(old(ctx)@),
{
    if ctx.arg_count() != 5 {
        return Err(RedisError::wrong_number_of_args("linsert"));
    }
    let at: ListPosition = if word(ctx.arg(2), "after") {
        ListPosition::Tail
    } else if word(ctx.arg(2), "before") {
        ListPosition::Head
    } else {
        return Err(RedisError::syntax("syntax error"));
    };
    let key: Vec<u8> = ctx.arg_owned(1);
    let value: Vec<u8> = ctx.arg_owned(4);
    let pivot: Vec<u8> = ctx.arg_owned(3);
    let mut n: usize = 0;
    let mut found: bool = false;
    match ctx.db.list_for_write(&key) {
        Err(e) => return Err(e),
        Ok(None) => return ctx.reply_integer(0),
        Ok(Some(l)) => {
            found = insert_beside(l, &pivot, value, at);
            n = l.len();
        },
    }
    if !found {
        assert(ctx@.db =~= old(ctx)@.db);
        return ctx.reply_integer(-1);
    }
    ctx.db.touch(&key);
    ctx.notify_keyspace_event(EventClass::List, "linsert", &key);
    ctx.add_dirty(1);
    ctx.reply_integer(counted(n))
}

// ---------------------------------------------------------------------------
// LLEN, LINDEX, LSET
// ---------------------------------------------------------------------------

/// How LLEN ends.
pub open spec fn llen_outcome(c: CtxV) -> Outcome {
    let argv = c.client.argv;
    if argv.len() != 2 {
        fails(c, wrong_args("llen"@))
    } else {
        match list_in(c.db, argv[1]) {
            Err(e) => fails(c, e),
            Ok(None) => replies_one(c, Tok::Int(0)),
            Ok(Some(l)) => replies_one(c, Tok::Int(clipped(l.len()) as int)),
        }
    }
}

/// LLEN key
pub fn llen_command(ctx: &mut CommandContext) -> (r: Result<(), RedisError>)
    requires
        old(ctx).wf(),
    ensures
        final(ctx).wf(),
        done(r, final(ctx)@) == llen_outcome(old(ctx)@),
{
    if ctx.arg_count() != 2 {
        return Err(RedisError::wrong_number_of_args("llen"));
    }
    let n: usize = match ctx.db.list_at(ctx.arg(1)) {
        Err(e) => return Err(e),
        Ok(None) => 0,
        Ok(Some(l)) => l.len(),
    };
    ctx.reply_integer(counted(n))
}

/// How LINDEX ends.
pub open spec fn lindex_outcome(c: CtxV) -> Outcome {
    let argv = c.client.argv;
    if argv.len() != 3 {
        fails(c, wrong_args("lindex"@))
    } else {
        match list_in(c.db, argv[1]) {
            Err(e) => fails(c, e),
            Ok(None) => replies_one(c, Tok::NullBulk),
            Ok(Some(l)) => match i64_of(argv[2]) {
                None => fails(c, ErrV::NotInteger),
                Some(i) => match seek(l.len(), i as int) {
                    Some(p) => replies_one(c, Tok::Bulk(l[p])),
                    None => replies_one(c, Tok::NullBulk),
                },
            },
        }
    }
}

/// LINDEX key index
pub fn lindex_command(ctx: &mut CommandContext) -> (r: Result<(), RedisError>)
    requires
        old(ctx).wf(),
    ensures
        final(ctx).wf(),
        done(r, final(ctx)@) == lindex_outcome(old(ctx)@),
{
    if ctx.arg_count() != 3 {
        return Err(RedisError::wrong_number_of_args("lindex"));
    }
    let found: Option<Vec<u8>> = match ctx.db.list_at(ctx.arg(1)) {
        Err(e) => return Err(e),
        Ok(None) => None,
        Ok(Some(l)) => match parse_i64(ctx.arg(2)) {
            None => return Err(RedisError::NotInteger),
            Some(index) => {
                let mut iter: ListTypeIterator = list_type_init_iterator(
                    l,
                    ListEncoding::Quicklist,
                    index,
                    ListPosition::Tail,
                );
                let mut entry: ListTypeEntry = ListTypeEntry::new(iter.encoding, iter.direction);
                let there: bool = list_type_next(&mut iter, l, &mut entry);
                list_type_release_iterator(iter);
                if there {
                    Some(list_type_get(&entry))
                } else {
                    None
                }
            },
        },
    };
    match found {
        Some(v) => ctx.reply_bulk(v),
        None => ctx.reply_null_bulk(),
    }
}

/// How LSET ends.
pub open spec fn lset_outcome(c: CtxV) -> Outcome {
    let argv = c.client.argv;
    if argv.len() != 4 {
        fails(c, wrong_args("lset"@))
    } else {
        match list_in(c.db, argv[1]) {
            Err(e) => fails(c, e),
            Ok(None) => fails(c, runtime("ERR no such key"@)),
            Ok(Some(l)) => match i64_of(argv[2]) {
                None => fails(c, ErrV::NotInteger),
                Some(i) => match seek(l.len(), i as int) {
                    None => fails(c, ErrV::OutOfRange),
                    Some(p) => {
                        let db = db_touch(
                            db_update(c.db, argv[1], ObjV::List(l.update(p, argv[3]))),
                            argv[1],
                        );
                        replies_one(
                            counts_dirty(
                                raises(with_db(c, db), EventClass::List, "lset"@, argv[1]),
                                1,
                            ),
                            status("OK"@),
                        )
                    },
                },
            },
        }
    }
}

/// LSET key index element
pub fn lset_command(ctx: &mut CommandContext) -> (r: Result<(), RedisError>)
    requires
        old(ctx).wf(),
    ensures
        final(ctx).wf(),
        done(r, final(ctx)@) == lset_outcome(old(ctx)@),
{
    if ctx.arg_count() != 4 {
        return Err(RedisError::wrong_number_of_args("lset"));
    }
    let key: Vec<u8> = ctx.arg_owned(1);
    match ctx.db.list_at(&key) {
        Err(e) => return Err(e),
        Ok(None) => return Err(RedisError::runtime("ERR no such key")),
        Ok(Some(_)) => {},
    }
    let index: i64 = match parse_i64(ctx.arg(2)) {
        None => return Err(RedisError::NotInteger),
        Some(i) => i,
    };
    let value: Vec<u8> = ctx.arg_owned(3);
    let mut there: bool = false;
    match ctx.db.list_for_write(&key) {
        Ok(Some(l)) => {
            there = list_type_replace_at_index(l, index, value);
        },
        _ => {},
    }
    if !there {
        assert(ctx@.db =~= old(ctx)@.db);
        return Err(RedisError::OutOfRange);
    }
    ctx.db.touch(&key);
    ctx.notify_keyspace_event(EventClass::List, "lset", &key);
    ctx.add_dirty(1);
    ctx.reply_simple_string("OK")
}

} // verus!
