//! JSON commands: JSON.SET, JSON.GET, JSON.MGET, JSON.DEL, JSON.TYPE, JSON.CLEAR,
//! and those on numbers, strings, arrays and objects inside a value.

use vstd::prelude::*;
use vstd::utf8::valid_utf8;

use crate::bytes::{
    dup, i64_of, is_text, is_word, lemma_views_push, lit, parse_i64, put, text, views, word,
};
use crate::context::{
    done, fails, replies, replies_one, with_db, CommandContext, CtxV, Outcome,
};
use crate::error::{runtime, wrong_args, ErrV, RedisError};
use crate::json_data::{
    json_ok, json_views, lemma_arr_view, lemma_obj_ok, lemma_obj_view, member_views, number_is_i64,
    number_is_u64, Json, JsonV, NumV,
};
use crate::json_edit::{
    edit_at, edit_ok, edited_ok, edited_views, edits, lemma_member_put, member_put, put_member,
    set_at, set_path_value, Edit, EditV, Edited, EditedV,
};
use crate::json_number::{num_op, number_views, numbers_met, nums, out_views, show_numbers};
use crate::json_path::{
    all_ok, lemma_json_views_push, lex_path, path_of, query, query_path_owned,
    PathToken,
};
use crate::json_remove::{delete_paths, deleted};
use crate::json_text::{json_display, json_parsed, json_to_text, parse_json};
use crate::keyspace::{db_delete, db_get, db_update, json_in, DbV, ObjV, RedisObject};
use crate::lists::{clipped, counted};
use crate::plain_text::is_utf8;
use crate::reply::{bulk, bulk_text, lemma_toks_add, lemma_toks_push, status, toks, Reply, Tok};

verus! {

broadcast use {lemma_toks_push, lemma_toks_add, lemma_views_push};

// ---------------------------------------------------------------------------
// Texts
// ---------------------------------------------------------------------------

/// Texts, with commas between them.
pub open spec fn joined(texts: Seq<Seq<u8>>) -> Seq<u8>
    decreases texts.len(),
{
    if texts.len() == 0 {
        Seq::empty()
    } else if texts.len() == 1 {
        texts[0]
    } else {
        joined(texts.drop_last()) + text(","@) + texts.last()
    }
}

/// An array of texts.
pub open spec fn bracketed(texts: Seq<Seq<u8>>) -> Seq<u8> {
    text("["@) + joined(texts) + text("]"@)
}

/// The texts of values.
pub open spec fn displays(v: Seq<JsonV>) -> Seq<Seq<u8>> {
    v.map_values(|j: JsonV| json_display(j))
}

/// Writes an array of texts.
pub fn bracket_texts(texts: &[Vec<u8>]) -> (r: Vec<u8>)
    ensures
        r@ == bracketed(views(texts@)),
{
    let ghost all = views(texts@);
    let mut r: Vec<u8> = lit("[");
    let ghost head = r@;
    let comma: Vec<u8> = lit(",");
    let mut i: usize = 0;
    assert(all.take(0) =~= Seq::empty());
    assert(head + Seq::<u8>::empty() =~= head);
    while i < texts.len()
        invariant
            i <= texts@.len(),
            all == views(texts@),
            comma@ == text(","@),
            r@ == head + joined(all.take(i as int)),
        decreases texts@.len() - i,
    {
        let ghost t = all.take(i + 1);
        if i > 0 {
            put(&mut r, &comma);
        }
        put(&mut r, &texts[i]);
        proof {
            assert(t.drop_last() =~= all.take(i as int));
            assert(t.last() == texts@[i as int]@);
            assert(r@ =~= head + joined(t));
        }
        i += 1;
    }
    assert(all.take(i as int) =~= all);
    let close: Vec<u8> = lit("]");
    put(&mut r, &close);
    assert(r@ =~= bracketed(all));
    r
}

/// The texts of values.
fn display_all(v: &[Json]) -> (r: Vec<Vec<u8>>)
    requires
        all_ok(json_views(v@)),
    ensures
        views(r@) == displays(json_views(v@)),
{
    let ghost all = displays(json_views(v@));
    let mut r: Vec<Vec<u8>> = Vec::new();
    let mut i: usize = 0;
    assert(views(r@) =~= all.take(0));
    while i < v.len()
        invariant
            i <= v@.len(),
            all_ok(json_views(v@)),
            all == displays(json_views(v@)),
            views(r@) == all.take(i as int),
        decreases v@.len() - i,
    {
        assert(json_views(v@)[i as int] == v@[i as int]@);
        r.push(json_to_text(&v[i]));
        assert(views(r@) =~= all.take(i + 1));
        i += 1;
    }
    assert(all.take(i as int) =~= all);
    r
}

/// Writes the values that a path selected as an array.
fn serialize_matches(v: &[Json]) -> (r: Vec<u8>)
    requires
        all_ok(json_views(v@)),
    ensures
        r@ == bracketed(displays(json_views(v@))),
{
    let texts: Vec<Vec<u8>> = display_all(v);
    bracket_texts(&texts)
}

// ---------------------------------------------------------------------------
// Arguments
// ---------------------------------------------------------------------------

/// The error for a path that is not text.
pub open spec fn bad_path() -> ErrV {
    runtime("ERR path is not valid UTF-8"@)
}

/// The path in an argument, or the root where there is none.
pub open spec fn path_arg(argv: Seq<Seq<u8>>, i: int) -> Result<Seq<u8>, ErrV> {
    if argv.len() <= i {
        Ok(text("$"@))
    } else if valid_utf8(argv[i]) {
        Ok(argv[i])
    } else {
        Err(bad_path())
    }
}

/// The path in an argument, or the root where there is none.
fn read_path(ctx: &CommandContext, i: usize) -> (r: Result<Vec<u8>, RedisError>)
    ensures
        match r {
            Ok(p) => path_arg(ctx@.client.argv, i as int) == Ok::<_, ErrV>(p@) && valid_utf8(p@),
            Err(e) => path_arg(ctx@.client.argv, i as int) == Err::<Seq<u8>, ErrV>(e@),
        },
{
    if ctx.client.argv.len() <= i {
        proof {
            lemma_dollar();
        }
        return Ok(lit("$"));
    }
    if is_utf8(&ctx.client.argv[i]) {
        Ok(dup(&ctx.client.argv[i]))
    } else {
        Err(RedisError::runtime("ERR path is not valid UTF-8"))
    }
}

/// The root path is text.
proof fn lemma_dollar()
    ensures
        valid_utf8(text("$"@)),
{
    vstd::utf8::encode_utf8_valid_utf8("$"@);
}

// ---------------------------------------------------------------------------
// JSON.SET
// ---------------------------------------------------------------------------

/// How storing a value at a path of a key ends.
pub open spec fn json_stored(
    c: CtxV,
    key: Seq<u8>,
    path: Seq<u8>,
    value: JsonV,
    nx: bool,
    xx: bool,
) -> Outcome {
    if !valid_utf8(path) {
        fails(c, bad_path())
    } else if path == text("$"@) {
        let there = db_get(c.db, key) is Some;
        if (nx && there) || (xx && !there) {
            replies_one(c, Tok::NullBulk)
        } else {
            replies_one(
                with_db(c, db_update(c.db, key, ObjV::Json(value))),
                status("OK"@),
            )
        }
    } else {
        match path_of(path) {
            Err(e) => fails(c, e),
            Ok(steps) => match json_in(c.db, key) {
                Err(e) => fails(c, e),
                Ok(None) => fails(c, runtime("ERR key does not exist for non-root path"@)),
                Ok(Some(root)) => {
                    let (changed, r) = set_at(root, steps, 0, value, nx, xx);
                    let c1 = with_db(c, db_update(c.db, key, ObjV::Json(changed)));
                    match r {
                        Err(e) => fails(c1, e),
                        Ok(false) => replies_one(c1, Tok::NullBulk),
                        Ok(true) => replies_one(c1, status("OK"@)),
                    }
                },
            },
        }
    }
}

/// Stores a value at a path of a key.
pub fn store_json(
    ctx: &mut CommandContext,
    key: &[u8],
    path: &[u8],
    value: Json,
    nx: bool,
    xx: bool,
) -> (r: Result<(), RedisError>)
    requires
        old(ctx).wf(),
        json_ok(value@),
    ensures
        final(ctx).wf(),
        done(r, final(ctx)@) == json_stored(old(ctx)@, key@, path@, value@, nx, xx),
{
    if !is_utf8(path) {
        return Err(RedisError::runtime("ERR path is not valid UTF-8"));
    }
    if is_text(path, "$") {
        let there: bool = ctx.db.has_key(key);
        if (nx && there) || (xx && !there) {
            return ctx.reply_null_bulk();
        }
        ctx.db.put_object(dup(key), RedisObject::Json(value));
        return ctx.reply_simple_string("OK");
    }
    let steps: Vec<PathToken> = match lex_path(path) {
        Err(e) => return Err(e),
        Ok(s) => s,
    };
    let r: Result<bool, RedisError> = match ctx.db.json_for_write(key) {
        Err(e) => return Err(e),
        Ok(None) => return Err(RedisError::runtime("ERR key does not exist for non-root path")),
        Ok(Some(root)) => set_path_value(root, &steps, 0, value, nx, xx),
    };
    match r {
        Err(e) => Err(e),
        Ok(false) => ctx.reply_null_bulk(),
        Ok(true) => ctx.reply_simple_string("OK"),
    }
}

/// How JSON.SET ends.
pub open spec fn json_set_outcome(c: CtxV) -> Outcome {
    let argv = c.client.argv;
    if argv.len() < 4 {
        fails(c, wrong_args("JSON.SET"@))
    } else if argv.len() > 4 && !is_word(argv[4], "NX"@) && !is_word(argv[4], "XX"@) {
        fails(c, runtime("ERR syntax error: expected NX or XX"@))
    } else {
        match json_parsed(argv[3]) {
            None => fails(c, runtime("ERR invalid JSON"@)),
            Some(value) => json_stored(
                c,
                argv[1],
                argv[2],
                value,
                argv.len() > 4 && is_word(argv[4], "NX"@),
                argv.len() > 4 && !is_word(argv[4], "NX"@),
            ),
        }
    }
}

/// JSON.SET key path value [NX | XX]
pub fn json_set_command(ctx: &mut CommandContext) -> (r: Result<(), RedisError>)
    requires
        old(ctx).wf(),
    ensures
        final(ctx).wf(),
        done(r, final(ctx)@) == json_set_outcome(old(ctx)@),
{
    let argc: usize = ctx.arg_count();
    if argc < 4 {
        return Err(RedisError::wrong_number_of_args("JSON.SET"));
    }
    let mut nx: bool = false;
    let mut xx: bool = false;
    if argc > 4 {
        if word(&ctx.client.argv[4], "NX") {
            nx = true;
        } else if word(&ctx.client.argv[4], "XX") {
            xx = true;
        } else {
            return Err(RedisError::runtime("ERR syntax error: expected NX or XX"));
        }
    }
    let value: Json = match parse_json(&ctx.client.argv[3]) {
        None => return Err(RedisError::runtime("ERR invalid JSON")),
        Some(v) => v,
    };
    let key: Vec<u8> = ctx.arg_owned(1);
    let path: Vec<u8> = ctx.arg_owned(2);
    store_json(ctx, &key, &path, value, nx, xx)
}

// ---------------------------------------------------------------------------
// JSON.GET
// ---------------------------------------------------------------------------

/// Whether an argument of JSON.GET is a format option, which takes a value.
pub open spec fn is_format(a: Seq<u8>) -> bool {
    is_word(a, "INDENT"@) || is_word(a, "NEWLINE"@) || is_word(a, "SPACE"@)
}

/// The paths of JSON.GET from argument `i` on, after those in `acc`.
pub open spec fn get_paths(argv: Seq<Seq<u8>>, i: int, acc: Seq<Seq<u8>>) -> Result<
    Seq<Seq<u8>>,
    ErrV,
>
    decreases argv.len() - i + 1,
{
    if i < 0 || i >= argv.len() {
        Ok(acc)
    } else if is_format(argv[i]) {
        get_paths(argv, i + 2, acc)
    } else if !valid_utf8(argv[i]) {
        Err(bad_path())
    } else {
        get_paths(argv, i + 1, acc.push(argv[i]))
    }
}

/// An object with what each path selects, under the path.
pub open spec fn combined(root: JsonV, paths: Seq<Seq<u8>>) -> Result<Seq<(Seq<u8>, JsonV)>, ErrV>
    decreases paths.len(),
{
    if paths.len() == 0 {
        Ok(Seq::empty())
    } else {
        match combined(root, paths.drop_last()) {
            Err(e) => Err(e),
            Ok(m) => match query(root, paths.last()) {
                Err(e) => Err(e),
                Ok(v) => Ok(member_put(m, paths.last(), JsonV::Arr(v))),
            },
        }
    }
}

/// What JSON.GET says of a value.
pub open spec fn get_text(root: JsonV, paths: Seq<Seq<u8>>) -> Result<Seq<u8>, ErrV> {
    if paths.len() == 0 || (paths.len() == 1 && paths[0] == text("$"@)) {
        Ok(json_display(root))
    } else if paths.len() == 1 {
        match query(root, paths[0]) {
            Ok(v) => Ok(bracketed(displays(v))),
            Err(e) => Err(e),
        }
    } else {
        match combined(root, paths) {
            Ok(m) => Ok(json_display(JsonV::Obj(m))),
            Err(e) => Err(e),
        }
    }
}

/// How JSON.GET ends.
pub open spec fn json_get_outcome(c: CtxV) -> Outcome {
    let argv = c.client.argv;
    if argv.len() < 2 {
        fails(c, wrong_args("JSON.GET"@))
    } else {
        match get_paths(argv, 2, Seq::empty()) {
            Err(e) => fails(c, e),
            Ok(paths) => match json_in(c.db, argv[1]) {
                Err(e) => fails(c, e),
                Ok(None) => replies_one(c, Tok::NullBulk),
                Ok(Some(root)) => match get_text(root, paths) {
                    Err(e) => fails(c, e),
                    Ok(t) => replies_one(c, Tok::Bulk(t)),
                },
            },
        }
    }
}

/// Whether paths are text.
pub open spec fn all_text(paths: Seq<Seq<u8>>) -> bool {
    forall|i: int| 0 <= i < paths.len() ==> valid_utf8(#[trigger] paths[i])
}

/// The paths of JSON.GET.
fn read_get_paths(argv: &[Vec<u8>]) -> (r: Result<Vec<Vec<u8>>, RedisError>)
    requires
        argv@.len() >= 2,
    ensures
        match r {
            Ok(p) => get_paths(views(argv@), 2, Seq::empty()) == Ok::<_, ErrV>(views(p@))
                && all_text(views(p@)),
            Err(e) => get_paths(views(argv@), 2, Seq::empty()) == Err::<Seq<Seq<u8>>, ErrV>(e@),
        },
{
    let ghost all = views(argv@);
    let ghost whole = get_paths(all, 2, Seq::empty());
    let argc: usize = argv.len();
    let mut paths: Vec<Vec<u8>> = Vec::new();
    let mut i: usize = 2;
    assert(views(paths@) =~= Seq::empty());
    while i < argc
        invariant
            argc == argv@.len(),
            all == views(argv@),
            2 <= i <= argc + 1,
            whole == get_paths(all, 2, Seq::empty()),
            whole == get_paths(all, i as int, views(paths@)),
            all_text(views(paths@)),
        decreases argc - i,
    {
        assert(all[i as int] == argv@[i as int]@);
        if word(&argv[i], "INDENT") || word(&argv[i], "NEWLINE") || word(&argv[i], "SPACE") {
            if i == argc - 1 {
                assert(get_paths(all, i + 2, views(paths@)) == Ok::<_, ErrV>(views(paths@)));
                return Ok(paths);
            }
            i += 2;
        } else {
            if !is_utf8(&argv[i]) {
                return Err(RedisError::runtime("ERR path is not valid UTF-8"));
            }
            let ghost had = views(paths@);
            paths.push(dup(&argv[i]));
            assert(views(paths@) == had.push(all[i as int]));
            i += 1;
        }
    }
    Ok(paths)
}

/// An object with what each path selects.
fn combine(root: &Json, paths: &[Vec<u8>]) -> (r: Result<Vec<(Vec<u8>, Json)>, RedisError>)
    requires
        json_ok(root@),
        all_text(views(paths@)),
    ensures
        match r {
            Ok(m) => combined(root@, views(paths@)) == Ok::<_, ErrV>(member_views(m@)) && json_ok(
                JsonV::Obj(member_views(m@)),
            ),
            Err(e) => combined(root@, views(paths@)) == Err::<Seq<(Seq<u8>, JsonV)>, ErrV>(e@),
        },
{
    let ghost all = views(paths@);
    let mut m: Vec<(Vec<u8>, Json)> = Vec::new();
    let mut i: usize = 0;
    proof {
        assert(all.take(0) =~= Seq::empty());
        assert(member_views(m@) =~= Seq::empty());
        lemma_obj_ok(Seq::empty());
    }
    while i < paths.len()
        invariant
            i <= paths@.len(),
            all == views(paths@),
            all_text(all),
            json_ok(root@),
            json_ok(JsonV::Obj(member_views(m@))),
            combined(root@, all.take(i as int)) == Ok::<_, ErrV>(member_views(m@)),
        decreases paths@.len() - i,
    {
        proof {
            assert(all.take(i + 1).drop_last() =~= all.take(i as int));
            assert(all.take(i + 1).last() == paths@[i as int]@);
            assert(all[i as int] == paths@[i as int]@);
        }
        match query_path_owned(root, &paths[i]) {
            Err(e) => {
                proof {
                    lemma_combined_fails(root@, all, i + 1);
                }
                return Err(e);
            },
            Ok(v) => {
                let j = Json::Arr(v);
                proof {
                    lemma_arr_view(v);
                    crate::json_data::lemma_arr_ok(json_views(v@));
                    lemma_member_put(member_views(m@), all[i as int], j@);
                }
                put_member(&mut m, dup(&paths[i]), j);
            },
        }
        i += 1;
    }
    assert(all.take(i as int) =~= all);
    Ok(m)
}

/// An error at one path is the error of all.
proof fn lemma_combined_fails(root: JsonV, paths: Seq<Seq<u8>>, i: int)
    requires
        0 <= i <= paths.len(),
        combined(root, paths.take(i)) is Err,
    ensures
        combined(root, paths) == combined(root, paths.take(i)),
    decreases paths.len() - i,
{
    if i < paths.len() {
        assert(paths.take(i + 1).drop_last() =~= paths.take(i));
        lemma_combined_fails(root, paths, i + 1);
    } else {
        assert(paths.take(i) =~= paths);
    }
}

/// What JSON.GET says of a value.
fn describe(root: &Json, paths: &[Vec<u8>]) -> (r: Result<Vec<u8>, RedisError>)
    requires
        json_ok(root@),
        all_text(views(paths@)),
    ensures
        match r {
            Ok(t) => get_text(root@, views(paths@)) == Ok::<_, ErrV>(t@),
            Err(e) => get_text(root@, views(paths@)) == Err::<Seq<u8>, ErrV>(e@),
        },
{
    if paths.len() == 0 || (paths.len() == 1 && is_text(&paths[0], "$")) {
        return Ok(json_to_text(root));
    }
    if paths.len() == 1 {
        return match query_path_owned(root, &paths[0]) {
            Err(e) => Err(e),
            Ok(v) => Ok(serialize_matches(&v)),
        };
    }
    match combine(root, paths) {
        Err(e) => Err(e),
        Ok(m) => {
            let j = Json::Obj(m);
            proof {
                lemma_obj_view(m);
            }
            Ok(json_to_text(&j))
        },
    }
}

/// JSON.GET key [INDENT s] [NEWLINE s] [SPACE s] [path ...]
pub fn json_get_command(ctx: &mut CommandContext) -> (r: Result<(), RedisError>)
    requires
        old(ctx).wf(),
    ensures
        final(ctx).wf(),
        done(r, final(ctx)@) == json_get_outcome(old(ctx)@),
{
    if ctx.arg_count() < 2 {
        return Err(RedisError::wrong_number_of_args("JSON.GET"));
    }
    let paths: Vec<Vec<u8>> = match read_get_paths(&ctx.client.argv) {
        Err(e) => return Err(e),
        Ok(p) => p,
    };
    let t: Result<Vec<u8>, RedisError> = match ctx.db.json_at(&ctx.client.argv[1]) {
        Err(e) => return Err(e),
        Ok(None) => return ctx.reply_null_bulk(),
        Ok(Some(root)) => describe(root, &paths),
    };
    match t {
        Err(e) => Err(e),
        Ok(t) => ctx.reply_bulk(t),
    }
}

// ---------------------------------------------------------------------------
// JSON.DEL, JSON.CLEAR
// ---------------------------------------------------------------------------

/// How JSON.DEL ends.
pub open spec fn json_del_outcome(c: CtxV) -> Outcome {
    let argv = c.client.argv;
    if argv.len() < 2 {
        fails(c, wrong_args("JSON.DEL"@))
    } else {
        match path_arg(argv, 2) {
            Err(e) => fails(c, e),
            Ok(path) => if path == text("$"@) {
                if db_get(c.db, argv[1]) is Some {
                    replies_one(with_db(c, db_delete(c.db, argv[1])), Tok::Int(1))
                } else {
                    replies_one(c, Tok::Int(0))
                }
            } else {
                match path_of(path) {
                    Err(e) => fails(c, e),
                    Ok(steps) => match json_in(c.db, argv[1]) {
                        Err(e) => fails(c, e),
                        Ok(None) => replies_one(c, Tok::Int(0)),
                        Ok(Some(root)) => {
                            let (left, n) = deleted(root, steps);
                            replies_one(
                                with_db(c, db_update(c.db, argv[1], ObjV::Json(left))),
                                Tok::Int(clipped(n) as int),
                            )
                        },
                    },
                }
            },
        }
    }
}

/// JSON.DEL key [path], also known as JSON.FORGET
pub fn json_del_command(ctx: &mut CommandContext) -> (r: Result<(), RedisError>)
    requires
        old(ctx).wf(),
    ensures
        final(ctx).wf(),
        done(r, final(ctx)@) == json_del_outcome(old(ctx)@),
{
    if ctx.arg_count() < 2 {
        return Err(RedisError::wrong_number_of_args("JSON.DEL"));
    }
    let key: Vec<u8> = ctx.arg_owned(1);
    let path: Vec<u8> = match read_path(ctx, 2) {
        Err(e) => return Err(e),
        Ok(p) => p,
    };
    if is_text(&path, "$") {
        if ctx.db.has_key(&key) {
            let _gone: bool = ctx.db.sync_delete(&key);
            return ctx.reply_integer(1);
        }
        return ctx.reply_integer(0);
    }
    let steps: Vec<PathToken> = match lex_path(&path) {
        Err(e) => return Err(e),
        Ok(s) => s,
    };
    let n: i64 = match ctx.db.json_for_write(&key) {
        Err(e) => return Err(e),
        Ok(None) => 0,
        Ok(Some(root)) => delete_paths(root, &steps),
    };
    ctx.reply_integer(n)
}

/// How many values were cleared.
pub open spec fn cleared(rs: Seq<EditedV>) -> nat
    decreases rs.len(),
{
    if rs.len() == 0 {
        0
    } else {
        cleared(rs.drop_last()) + (if rs.last() is Cleared {
            1nat
        } else {
            0nat
        })
    }
}

/// How many values were cleared.
fn count_cleared(rs: &[Edited]) -> (r: i64)
    ensures
        r == clipped(cleared(edited_views(rs@))),
{
    let ghost all = edited_views(rs@);
    let mut n: i64 = 0;
    let mut i: usize = 0;
    assert(all.take(0) =~= Seq::empty());
    while i < rs.len()
        invariant
            i <= rs@.len(),
            all == edited_views(rs@),
            0 <= n,
            n == clipped(cleared(all.take(i as int))),
        decreases rs@.len() - i,
    {
        proof {
            assert(all.take(i + 1).drop_last() =~= all.take(i as int));
            assert(all.take(i + 1).last() == rs@[i as int]@);
        }
        match &rs[i] {
            Edited::Cleared => {
                if n < i64::MAX {
                    n += 1;
                }
            },
            _ => {},
        }
        i += 1;
    }
    assert(all.take(i as int) =~= all);
    n
}

/// How JSON.CLEAR ends.
pub open spec fn json_clear_outcome(c: CtxV) -> Outcome {
    let argv = c.client.argv;
    if argv.len() < 2 {
        fails(c, wrong_args("JSON.CLEAR"@))
    } else {
        match path_arg(argv, 2) {
            Err(e) => fails(c, e),
            Ok(path) => match path_of(path) {
                Err(e) => fails(c, e),
                Ok(steps) => match json_in(c.db, argv[1]) {
                    Err(e) => fails(c, e),
                    Ok(None) => replies_one(c, Tok::Int(0)),
                    Ok(Some(root)) => {
                        let (left, rs) = edits(root, steps, EditV::Clear);
                        replies_one(
                            with_db(c, db_update(c.db, argv[1], ObjV::Json(left))),
                            Tok::Int(clipped(cleared(rs)) as int),
                        )
                    },
                },
            },
        }
    }
}

/// JSON.CLEAR key [path]
pub fn json_clear_command(ctx: &mut CommandContext) -> (r: Result<(), RedisError>)
    requires
        old(ctx).wf(),
    ensures
        final(ctx).wf(),
        done(r, final(ctx)@) == json_clear_outcome(old(ctx)@),
{
    if ctx.arg_count() < 2 {
        return Err(RedisError::wrong_number_of_args("JSON.CLEAR"));
    }
    let key: Vec<u8> = ctx.arg_owned(1);
    let path: Vec<u8> = match read_path(ctx, 2) {
        Err(e) => return Err(e),
        Ok(p) => p,
    };
    let steps: Vec<PathToken> = match lex_path(&path) {
        Err(e) => return Err(e),
        Ok(s) => s,
    };
    let rs: Vec<Edited> = match ctx.db.json_for_write(&key) {
        Err(e) => return Err(e),
        Ok(None) => return ctx.reply_integer(0),
        Ok(Some(root)) => edit_at(root, &steps, &Edit::Clear),
    };
    let n: i64 = count_cleared(&rs);
    ctx.reply_integer(n)
}

// ---------------------------------------------------------------------------
// Looking at what a path selects
// ---------------------------------------------------------------------------

/// What is asked of values.
#[derive(Debug, Clone, Copy, PartialEq, Eq, Structural)]
enum Probe {
    Type,
    StrLen,
    ObjKeys,
    ObjLen,
    ArrLen,
}

/// The name of a value's type.
pub open spec fn json_type(v: JsonV) -> Seq<char> {
    match v {
        JsonV::Null => "null"@,
        JsonV::Bool(_) => "boolean"@,
        JsonV::Num(NumV::Real(_)) => "number"@,
        JsonV::Num(_) => "integer"@,
        JsonV::Str(_) => "string"@,
        JsonV::Arr(_) => "array"@,
        JsonV::Obj(_) => "object"@,
    }
}

/// The name of a value's type.
pub fn json_type_name(v: &Json) -> (r: &'static str)
    ensures
        r@ == json_type(v@),
{
    match v {
        Json::Null => "null",
        Json::Bool(_) => "boolean",
        Json::Num(n) => {
            if number_is_i64(n) || number_is_u64(n) {
                "integer"
            } else {
                "number"
            }
        },
        Json::Str(_) => "string",
        Json::Arr(_) => "array",
        Json::Obj(_) => "object",
    }
}

/// The keys of members.
pub open spec fn key_toks(m: Seq<(Seq<u8>, JsonV)>) -> Seq<Tok> {
    m.map_values(|e: (Seq<u8>, JsonV)| Tok::Bulk(e.0))
}

/// What JSON.TYPE says of a value.
pub open spec fn type_toks(v: JsonV) -> Seq<Tok> {
    seq![bulk(json_type(v))]
}

/// What JSON.STRLEN says of a value.
pub open spec fn strlen_toks(v: JsonV) -> Seq<Tok> {
    match v {
        JsonV::Str(s) => seq![Tok::Int(clipped(s.len()) as int)],
        _ => seq![Tok::NullBulk],
    }
}

/// What JSON.OBJKEYS says of a value.
pub open spec fn objkeys_toks(v: JsonV) -> Seq<Tok> {
    match v {
        JsonV::Obj(m) => seq![Tok::Array(m.len())] + key_toks(m),
        _ => seq![Tok::NullBulk],
    }
}

/// What JSON.OBJLEN says of a value.
pub open spec fn objlen_toks(v: JsonV) -> Seq<Tok> {
    match v {
        JsonV::Obj(m) => seq![Tok::Int(clipped(m.len()) as int)],
        _ => seq![Tok::NullBulk],
    }
}

/// What JSON.ARRLEN says of a value.
pub open spec fn arrlen_toks(v: JsonV) -> Seq<Tok> {
    match v {
        JsonV::Arr(a) => seq![Tok::Int(clipped(a.len()) as int)],
        _ => seq![Tok::NullBulk],
    }
}

/// What each of some values is said to be.
pub open spec fn told_of(vs: Seq<JsonV>, f: spec_fn(JsonV) -> Seq<Tok>) -> Seq<Tok>
    decreases vs.len(),
{
    if vs.len() == 0 {
        Seq::empty()
    } else {
        told_of(vs.drop_last(), f) + f(vs.last())
    }
}

/// How a command ends that tells something of each value that a path selects.
pub open spec fn looked_at(c: CtxV, name: Seq<char>, f: spec_fn(JsonV) -> Seq<Tok>) -> Outcome {
    let argv = c.client.argv;
    if argv.len() < 2 {
        fails(c, wrong_args(name))
    } else {
        match path_arg(argv, 2) {
            Err(e) => fails(c, e),
            Ok(path) => match json_in(c.db, argv[1]) {
                Err(e) => fails(c, e),
                Ok(None) => replies_one(c, Tok::NullBulk),
                Ok(Some(root)) => match query(root, path) {
                    Err(e) => fails(c, e),
                    Ok(vs) => replies(c, seq![Tok::Array(vs.len())] + told_of(vs, f)),
                },
            },
        }
    }
}

spec fn probed(p: Probe) -> spec_fn(JsonV) -> Seq<Tok> {
    match p {
        Probe::Type => |v: JsonV| type_toks(v),
        Probe::StrLen => |v: JsonV| strlen_toks(v),
        Probe::ObjKeys => |v: JsonV| objkeys_toks(v),
        Probe::ObjLen => |v: JsonV| objlen_toks(v),
        Probe::ArrLen => |v: JsonV| arrlen_toks(v),
    }
}

/// A length in a reply.
fn length(n: usize) -> (r: Reply)
    ensures
        r@ == Tok::Int(clipped(n as nat) as int),
{
    Reply::Int(counted(n))
}

/// Appends the keys of members.
fn put_keys(out: &mut Vec<Reply>, m: &Vec<(Vec<u8>, Json)>)
    ensures
        toks(final(out)@) == toks(old(out)@) + (seq![Tok::Array(m@.len())] + key_toks(
            member_views(m@),
        )),
{
    let ghost start = toks(out@);
    let ghost all = key_toks(member_views(m@));
    out.push(Reply::Array(m.len() as u128));
    let mut i: usize = 0;
    assert(toks(out@) =~= start + (seq![Tok::Array(m@.len())] + all.take(0)));
    while i < m.len()
        invariant
            i <= m@.len(),
            all == key_toks(member_views(m@)),
            toks(out@) == start + (seq![Tok::Array(m@.len())] + all.take(i as int)),
        decreases m@.len() - i,
    {
        out.push(Reply::Bulk(dup(&m[i].0)));
        assert(toks(out@) =~= start + (seq![Tok::Array(m@.len())] + all.take(i + 1)));
        i += 1;
    }
    assert(all.take(i as int) =~= all);
}

/// Appends what is asked of a value.
fn put_probe(out: &mut Vec<Reply>, v: &Json, p: Probe)
    ensures
        toks(final(out)@) == toks(old(out)@) + probed(p)(v@),
{
    let ghost start = toks(out@);
    match (p, v) {
        (Probe::Type, _) => {
            out.push(bulk_text(json_type_name(v)));
            assert(toks(out@) =~= start + type_toks(v@));
        },
        (Probe::StrLen, Json::Str(s)) => {
            out.push(length(s.len()));
            assert(toks(out@) =~= start + strlen_toks(v@));
        },
        (Probe::ObjKeys, Json::Obj(m)) => {
            proof {
                lemma_obj_view(*m);
            }
            put_keys(out, m);
        },
        (Probe::ObjLen, Json::Obj(m)) => {
            proof {
                lemma_obj_view(*m);
            }
            out.push(length(m.len()));
            assert(toks(out@) =~= start + objlen_toks(v@));
        },
        (Probe::ArrLen, Json::Arr(a)) => {
            proof {
                lemma_arr_view(*a);
            }
            out.push(length(a.len()));
            assert(toks(out@) =~= start + arrlen_toks(v@));
        },
        _ => {
            out.push(Reply::NullBulk);
            assert(toks(out@) =~= start + probed(p)(v@));
        },
    }
}

/// Tells what is asked of each value that a path selects.
fn look_at(ctx: &mut CommandContext, name: &str, p: Probe) -> (r: Result<(), RedisError>)
    requires
        old(ctx).wf(),
    ensures
        final(ctx).wf(),
        done(r, final(ctx)@) == looked_at(old(ctx)@, name@, probed(p)),
{
    if ctx.arg_count() < 2 {
        return Err(RedisError::wrong_number_of_args(name));
    }
    let path: Vec<u8> = match read_path(ctx, 2) {
        Err(e) => return Err(e),
        Ok(p) => p,
    };
    let vs: Vec<Json> = match ctx.db.json_at(&ctx.client.argv[1]) {
        Err(e) => return Err(e),
        Ok(None) => return ctx.reply_null_bulk(),
        Ok(Some(root)) => match query_path_owned(root, &path) {
            Err(e) => return Err(e),
            Ok(v) => v,
        },
    };
    let ghost all = json_views(vs@);
    let ghost f = probed(p);
    let mut out: Vec<Reply> = Vec::new();
    out.push(Reply::Array(vs.len() as u128));
    let ghost head = toks(out@);
    let mut i: usize = 0;
    assert(all.take(0) =~= Seq::empty());
    assert(head + Seq::<Tok>::empty() =~= head);
    while i < vs.len()
        invariant
            i <= vs@.len(),
            all == json_views(vs@),
            f == probed(p),
            toks(out@) == head + told_of(all.take(i as int), f),
        decreases vs@.len() - i,
    {
        proof {
            assert(all.take(i + 1).drop_last() =~= all.take(i as int));
            assert(all.take(i + 1).last() == vs@[i as int]@);
        }
        put_probe(&mut out, &vs[i], p);
        assert(toks(out@) =~= head + told_of(all.take(i + 1), f));
        i += 1;
    }
    assert(all.take(i as int) =~= all);
    assert(head =~= seq![Tok::Array(all.len())]);
    ctx.reply_all(out);
    Ok(())
}

/// How JSON.TYPE ends.
pub open spec fn json_type_outcome(c: CtxV) -> Outcome {
    looked_at(c, "JSON.TYPE"@, |v: JsonV| type_toks(v))
}

/// JSON.TYPE key [path]
pub fn json_type_command(ctx: &mut CommandContext) -> (r: Result<(), RedisError>)
    requires
        old(ctx).wf(),
    ensures
        final(ctx).wf(),
        done(r, final(ctx)@) == json_type_outcome(old(ctx)@),
{
    look_at(ctx, "JSON.TYPE", Probe::Type)
}

/// How JSON.STRLEN ends.
pub open spec fn json_strlen_outcome(c: CtxV) -> Outcome {
    looked_at(c, "JSON.STRLEN"@, |v: JsonV| strlen_toks(v))
}

/// JSON.STRLEN key [path]
pub fn json_strlen_command(ctx: &mut CommandContext) -> (r: Result<(), RedisError>)
    requires
        old(ctx).wf(),
    ensures
        final(ctx).wf(),
        done(r, final(ctx)@) == json_strlen_outcome(old(ctx)@),
{
    look_at(ctx, "JSON.STRLEN", Probe::StrLen)
}

/// How JSON.OBJKEYS ends.
pub open spec fn json_objkeys_outcome(c: CtxV) -> Outcome {
    looked_at(c, "JSON.OBJKEYS"@, |v: JsonV| objkeys_toks(v))
}

/// JSON.OBJKEYS key [path]
pub fn json_objkeys_command(ctx: &mut CommandContext) -> (r: Result<(), RedisError>)
    requires
        old(ctx).wf(),
    ensures
        final(ctx).wf(),
        done(r, final(ctx)@) == json_objkeys_outcome(old(ctx)@),
{
    look_at(ctx, "JSON.OBJKEYS", Probe::ObjKeys)
}

/// How JSON.OBJLEN ends.
pub open spec fn json_objlen_outcome(c: CtxV) -> Outcome {
    looked_at(c, "JSON.OBJLEN"@, |v: JsonV| objlen_toks(v))
}

/// JSON.OBJLEN key [path]
pub fn json_objlen_command(ctx: &mut CommandContext) -> (r: Result<(), RedisError>)
    requires
        old(ctx).wf(),
    ensures
        final(ctx).wf(),
        done(r, final(ctx)@) == json_objlen_outcome(old(ctx)@),
{
    look_at(ctx, "JSON.OBJLEN", Probe::ObjLen)
}

/// How JSON.ARRLEN ends.
pub open spec fn json_arrlen_outcome(c: CtxV) -> Outcome {
    looked_at(c, "JSON.ARRLEN"@, |v: JsonV| arrlen_toks(v))
}

/// JSON.ARRLEN key [path]
pub fn json_arrlen_command(ctx: &mut CommandContext) -> (r: Result<(), RedisError>)
    requires
        old(ctx).wf(),
    ensures
        final(ctx).wf(),
        done(r, final(ctx)@) == json_arrlen_outcome(old(ctx)@),
{
    look_at(ctx, "JSON.ARRLEN", Probe::ArrLen)
}

/// What JSON.MGET says of a key.
pub open spec fn mget_tok(d: DbV, key: Seq<u8>, path: Seq<u8>) -> Tok {
    match json_in(d, key) {
        Ok(Some(root)) => match query(root, path) {
            Ok(vs) => Tok::Bulk(bracketed(displays(vs))),
            Err(_) => Tok::NullBulk,
        },
        _ => Tok::NullBulk,
    }
}

/// How JSON.MGET ends. What cannot be read is null.
pub open spec fn json_mget_outcome(c: CtxV) -> Outcome {
    let argv = c.client.argv;
    if argv.len() < 3 {
        fails(c, wrong_args("JSON.MGET"@))
    } else if !valid_utf8(argv.last()) {
        fails(c, bad_path())
    } else {
        replies(
            c,
            seq![Tok::Array((argv.len() - 2) as nat)] + argv.subrange(
                1,
                argv.len() - 1,
            ).map_values(|key: Seq<u8>| mget_tok(c.db, key, argv.last())),
        )
    }
}

/// JSON.MGET key [key ...] path
pub fn json_mget_command(ctx: &mut CommandContext) -> (r: Result<(), RedisError>)
    requires
        old(ctx).wf(),
    ensures
        final(ctx).wf(),
        done(r, final(ctx)@) == json_mget_outcome(old(ctx)@),
{
    let argc: usize = ctx.arg_count();
    if argc < 3 {
        return Err(RedisError::wrong_number_of_args("JSON.MGET"));
    }
    if !is_utf8(&ctx.client.argv[argc - 1]) {
        return Err(RedisError::runtime("ERR path is not valid UTF-8"));
    }
    let ghost c = ctx@;
    let ghost argv = ctx@.client.argv;
    let ghost all = argv.subrange(1, argv.len() - 1).map_values(
        |key: Seq<u8>| mget_tok(c.db, key, argv.last()),
    );
    let mut out: Vec<Reply> = Vec::new();
    out.push(Reply::Array((argc - 2) as u128));
    let ghost head = toks(out@);
    let mut i: usize = 1;
    assert(head + all.take(0) =~= head);
    while i < argc - 1
        invariant
            ctx.wf(),
            c == ctx@,
            argv == ctx@.client.argv,
            argc == argv.len(),
            argc >= 3,
            argc == ctx.client.argv@.len(),
            1 <= i <= argc - 1,
            all == argv.subrange(1, argv.len() - 1).map_values(
                |key: Seq<u8>| mget_tok(c.db, key, argv.last()),
            ),
            toks(out@) == head + all.take(i - 1),
        decreases argc - i,
    {
        let mut t: Reply = Reply::NullBulk;
        match ctx.db.json_at(&ctx.client.argv[i]) {
            Ok(Some(root)) => {
                match query_path_owned(root, &ctx.client.argv[argc - 1]) {
                    Ok(vs) => {
                        t = Reply::Bulk(serialize_matches(&vs));
                    },
                    Err(_) => {},
                }
            },
            _ => {},
        }
        assert(t@ == all[i - 1]);
        out.push(t);
        assert(toks(out@) =~= head + all.take(i as int));
        i += 1;
    }
    assert(all.take(i - 1) =~= all);
    assert(head =~= seq![Tok::Array((argv.len() - 2) as nat)]);
    ctx.reply_all(out);
    Ok(())
}

// ---------------------------------------------------------------------------
// Editing
// ---------------------------------------------------------------------------

/// What is said of a change.
pub open spec fn edited_tok(e: EditedV) -> Tok {
    match e {
        EditedV::Nothing => Tok::NullBulk,
        EditedV::Len(n) => Tok::Int(clipped(n) as int),
        EditedV::Popped(j) => Tok::Bulk(json_display(j)),
        EditedV::Cleared => Tok::Int(1),
    }
}

/// What is said of some changes.
pub open spec fn edited_toks(es: Seq<EditedV>) -> Seq<Tok> {
    es.map_values(|e: EditedV| edited_tok(e))
}

/// How changing the value of a key at a path ends.
pub open spec fn json_edited(c: CtxV, key: Seq<u8>, path: Seq<u8>, e: EditV) -> Outcome {
    match path_of(path) {
        Err(err) => fails(c, err),
        Ok(steps) => match json_in(c.db, key) {
            Err(err) => fails(c, err),
            Ok(None) => replies_one(c, Tok::NullBulk),
            Ok(Some(root)) => {
                let (changed, es) = edits(root, steps, e);
                replies(
                    with_db(c, db_update(c.db, key, ObjV::Json(changed))),
                    seq![Tok::Array(es.len())] + edited_toks(es),
                )
            },
        },
    }
}

/// Says what some changes came to.
fn edited_replies(es: &[Edited]) -> (r: Vec<Reply>)
    requires
        edited_ok(edited_views(es@)),
    ensures
        toks(r@) == seq![Tok::Array(es@.len())] + edited_toks(edited_views(es@)),
{
    let ghost all = edited_toks(edited_views(es@));
    let mut out: Vec<Reply> = Vec::new();
    out.push(Reply::Array(es.len() as u128));
    let ghost head = toks(out@);
    let mut i: usize = 0;
    assert(head + all.take(0) =~= head);
    assert(head =~= seq![Tok::Array(es@.len())]);
    while i < es.len()
        invariant
            i <= es@.len(),
            edited_ok(edited_views(es@)),
            all == edited_toks(edited_views(es@)),
            toks(out@) == head + all.take(i as int),
        decreases es@.len() - i,
    {
        let ghost ev = edited_views(es@)[i as int];
        assert(ev == es@[i as int]@);
        let t: Reply = match &es[i] {
            Edited::Nothing => Reply::NullBulk,
            Edited::Len(n) => length(*n),
            Edited::Popped(j) => Reply::Bulk(json_to_text(j)),
            Edited::Cleared => Reply::Int(1),
        };
        assert(t@ == all[i as int]);
        out.push(t);
        assert(toks(out@) =~= head + all.take(i + 1));
        i += 1;
    }
    assert(all.take(i as int) =~= all);
    out
}

/// Changes the value of a key at a path.
pub fn edit_json(ctx: &mut CommandContext, key: &[u8], path: &[u8], e: &Edit) -> (r: Result<
    (),
    RedisError,
>)
    requires
        old(ctx).wf(),
        edit_ok(e@),
    ensures
        final(ctx).wf(),
        done(r, final(ctx)@) == json_edited(old(ctx)@, key@, path@, e@),
{
    let steps: Vec<PathToken> = match lex_path(path) {
        Err(err) => return Err(err),
        Ok(s) => s,
    };
    let es: Vec<Edited> = match ctx.db.json_for_write(key) {
        Err(err) => return Err(err),
        Ok(None) => return ctx.reply_null_bulk(),
        Ok(Some(root)) => edit_at(root, &steps, e),
    };
    let out: Vec<Reply> = edited_replies(&es);
    ctx.reply_all(out);
    Ok(())
}

/// How JSON.STRAPPEND ends.
pub open spec fn json_strappend_outcome(c: CtxV) -> Outcome {
    let argv = c.client.argv;
    if argv.len() < 3 {
        fails(c, wrong_args("JSON.STRAPPEND"@))
    } else {
        let path = if argv.len() == 3 {
            Ok(text("$"@))
        } else {
            path_arg(argv, 2)
        };
        match path {
            Err(e) => fails(c, e),
            Ok(path) => match json_parsed(if argv.len() == 3 {
                argv[2]
            } else {
                argv[3]
            }) {
                None => fails(c, runtime("ERR invalid JSON for appended value"@)),
                Some(JsonV::Str(t)) => json_edited(c, argv[1], path, EditV::StrAppend(t)),
                Some(_) => fails(c, runtime("ERR appended value is not a JSON string"@)),
            },
        }
    }
}

/// JSON.STRAPPEND key [path] value
pub fn json_strappend_command(ctx: &mut CommandContext) -> (r: Result<(), RedisError>)
    requires
        old(ctx).wf(),
    ensures
        final(ctx).wf(),
        done(r, final(ctx)@) == json_strappend_outcome(old(ctx)@),
{
    let argc: usize = ctx.arg_count();
    if argc < 3 {
        return Err(RedisError::wrong_number_of_args("JSON.STRAPPEND"));
    }
    let key: Vec<u8> = ctx.arg_owned(1);
    let mut path: Vec<u8> = lit("$");
    let mut at: usize = 2;
    if argc > 3 {
        match read_path(ctx, 2) {
            Err(e) => return Err(e),
            Ok(p) => {
                path = p;
            },
        }
        at = 3;
    }
    match parse_json(&ctx.client.argv[at]) {
        None => Err(RedisError::runtime("ERR invalid JSON for appended value")),
        Some(Json::Str(t)) => edit_json(ctx, &key, &path, &Edit::StrAppend(t)),
        Some(_) => Err(RedisError::runtime("ERR appended value is not a JSON string")),
    }
}

/// The values in arguments.
pub open spec fn values_from(argv: Seq<Seq<u8>>, i: int, acc: Seq<JsonV>) -> Option<Seq<JsonV>>
    decreases argv.len() - i,
{
    if i < 0 || i >= argv.len() {
        Some(acc)
    } else {
        match json_parsed(argv[i]) {
            None => None,
            Some(v) => values_from(argv, i + 1, acc.push(v)),
        }
    }
}

/// The values in arguments.
fn read_values(argv: &[Vec<u8>], from: usize) -> (r: Option<Vec<Json>>)
    requires
        from <= argv@.len(),
    ensures
        match r {
            Some(v) => values_from(views(argv@), from as int, Seq::empty()) == Some(
                json_views(v@),
            ) && all_ok(json_views(v@)),
            None => values_from(views(argv@), from as int, Seq::empty()) is None,
        },
{
    let ghost all = views(argv@);
    let ghost whole = values_from(all, from as int, Seq::empty());
    let mut out: Vec<Json> = Vec::new();
    let mut i: usize = from;
    assert(json_views(out@) =~= Seq::empty());
    while i < argv.len()
        invariant
            from <= i <= argv@.len(),
            all == views(argv@),
            whole == values_from(all, from as int, Seq::empty()),
            whole == values_from(all, i as int, json_views(out@)),
            all_ok(json_views(out@)),
        decreases argv@.len() - i,
    {
        assert(all[i as int] == argv@[i as int]@);
        match parse_json(&argv[i]) {
            None => return None,
            Some(v) => {
                proof {
                    lemma_json_views_push(out@, v);
                }
                out.push(v);
            },
        }
        i += 1;
    }
    Some(out)
}

/// How JSON.ARRAPPEND ends.
pub open spec fn json_arrappend_outcome(c: CtxV) -> Outcome {
    let argv = c.client.argv;
    if argv.len() < 4 {
        fails(c, wrong_args("JSON.ARRAPPEND"@))
    } else {
        match path_arg(argv, 2) {
            Err(e) => fails(c, e),
            Ok(path) => match values_from(argv, 3, Seq::empty()) {
                None => fails(c, runtime("ERR invalid JSON value"@)),
                Some(vs) => json_edited(c, argv[1], path, EditV::ArrAppend(vs)),
            },
        }
    }
}

/// JSON.ARRAPPEND key path value [value ...]
pub fn json_arrappend_command(ctx: &mut CommandContext) -> (r: Result<(), RedisError>)
    requires
        old(ctx).wf(),
    ensures
        final(ctx).wf(),
        done(r, final(ctx)@) == json_arrappend_outcome(old(ctx)@),
{
    if ctx.arg_count() < 4 {
        return Err(RedisError::wrong_number_of_args("JSON.ARRAPPEND"));
    }
    let key: Vec<u8> = ctx.arg_owned(1);
    let path: Vec<u8> = match read_path(ctx, 2) {
        Err(e) => return Err(e),
        Ok(p) => p,
    };
    match read_values(&ctx.client.argv, 3) {
        None => Err(RedisError::runtime("ERR invalid JSON value")),
        Some(vs) => edit_json(ctx, &key, &path, &Edit::ArrAppend(vs)),
    }
}

/// How JSON.ARRINSERT ends.
pub open spec fn json_arrinsert_outcome(c: CtxV) -> Outcome {
    let argv = c.client.argv;
    if argv.len() < 5 {
        fails(c, wrong_args("JSON.ARRINSERT"@))
    } else {
        match path_arg(argv, 2) {
            Err(e) => fails(c, e),
            Ok(path) => match i64_of(argv[3]) {
                None => fails(c, runtime("ERR index is not an integer"@)),
                Some(idx) => match values_from(argv, 4, Seq::empty()) {
                    None => fails(c, runtime("ERR invalid JSON value"@)),
                    Some(vs) => json_edited(c, argv[1], path, EditV::ArrInsert(idx, vs)),
                },
            },
        }
    }
}

/// JSON.ARRINSERT key path index value [value ...]
pub fn json_arrinsert_command(ctx: &mut CommandContext) -> (r: Result<(), RedisError>)
    requires
        old(ctx).wf(),
    ensures
        final(ctx).wf(),
        done(r, final(ctx)@) == json_arrinsert_outcome(old(ctx)@),
{
    if ctx.arg_count() < 5 {
        return Err(RedisError::wrong_number_of_args("JSON.ARRINSERT"));
    }
    let key: Vec<u8> = ctx.arg_owned(1);
    let path: Vec<u8> = match read_path(ctx, 2) {
        Err(e) => return Err(e),
        Ok(p) => p,
    };
    let idx: i64 = match parse_i64(&ctx.client.argv[3]) {
        None => return Err(RedisError::runtime("ERR index is not an integer")),
        Some(n) => n,
    };
    match read_values(&ctx.client.argv, 4) {
        None => Err(RedisError::runtime("ERR invalid JSON value")),
        Some(vs) => edit_json(ctx, &key, &path, &Edit::ArrInsert(idx, vs)),
    }
}

/// How JSON.ARRPOP ends.
pub open spec fn json_arrpop_outcome(c: CtxV) -> Outcome {
    let argv = c.client.argv;
    if argv.len() < 2 {
        fails(c, wrong_args("JSON.ARRPOP"@))
    } else {
        match path_arg(argv, 2) {
            Err(e) => fails(c, e),
            Ok(path) => if argv.len() < 4 {
                json_edited(c, argv[1], path, EditV::ArrPop((-1) as i64))
            } else {
                match i64_of(argv[3]) {
                    None => fails(c, runtime("ERR index is not an integer"@)),
                    Some(idx) => json_edited(c, argv[1], path, EditV::ArrPop(idx)),
                }
            },
        }
    }
}

/// JSON.ARRPOP key [path [index]]
pub fn json_arrpop_command(ctx: &mut CommandContext) -> (r: Result<(), RedisError>)
    requires
        old(ctx).wf(),
    ensures
        final(ctx).wf(),
        done(r, final(ctx)@) == json_arrpop_outcome(old(ctx)@),
{
    let argc: usize = ctx.arg_count();
    if argc < 2 {
        return Err(RedisError::wrong_number_of_args("JSON.ARRPOP"));
    }
    let key: Vec<u8> = ctx.arg_owned(1);
    let path: Vec<u8> = match read_path(ctx, 2) {
        Err(e) => return Err(e),
        Ok(p) => p,
    };
    let mut idx: i64 = -1;
    if argc >= 4 {
        match parse_i64(&ctx.client.argv[3]) {
            None => return Err(RedisError::runtime("ERR index is not an integer")),
            Some(n) => {
                idx = n;
            },
        }
    }
    edit_json(ctx, &key, &path, &Edit::ArrPop(idx))
}

// ---------------------------------------------------------------------------
// Numbers
// ---------------------------------------------------------------------------

/// The numbers that JSON.NUMINCRBY and JSON.NUMMULTBY meet.
pub open spec fn numbers_shown(c: CtxV) -> Seq<NumV> {
    let argv = c.client.argv;
    if argv.len() < 4 {
        Seq::empty()
    } else {
        match (json_in(c.db, argv[1]), path_of(argv[2])) {
            (Ok(Some(root)), Ok(steps)) => numbers_met(root, steps),
            _ => Seq::empty(),
        }
    }
}

/// The numbers that JSON.NUMINCRBY and JSON.NUMMULTBY meet, in order, for the
/// caller to compute what they become.
pub fn json_numbers(ctx: &CommandContext) -> (r: Vec<serde_json::Number>)
    requires
        ctx.wf(),
    ensures
        number_views(r@) == numbers_shown(ctx@),
{
    let none: Vec<serde_json::Number> = Vec::new();
    assert(number_views(none@) =~= Seq::empty());
    if ctx.client.argv.len() < 4 {
        return none;
    }
    let steps: Vec<PathToken> = match lex_path(&ctx.client.argv[2]) {
        Err(_) => return none,
        Ok(s) => s,
    };
    match ctx.db.json_at(&ctx.client.argv[1]) {
        Ok(Some(root)) => show_numbers(root, &steps),
        _ => none,
    }
}

/// How changing numbers ends. `operand` tells whether the operand is a number;
/// `outs` says what the numbers that are met become.
pub open spec fn numbers_changed(
    c: CtxV,
    name: Seq<char>,
    operand: bool,
    outs: Seq<Option<NumV>>,
) -> Outcome {
    let argv = c.client.argv;
    if argv.len() < 4 {
        fails(c, wrong_args(name))
    } else {
        match path_arg(argv, 2) {
            Err(e) => fails(c, e),
            Ok(path) => if !operand {
                fails(c, runtime("ERR value is not a number"@))
            } else {
                match json_in(c.db, argv[1]) {
                    Err(e) => fails(c, e),
                    Ok(None) => replies_one(c, Tok::NullBulk),
                    Ok(Some(root)) => match path_of(path) {
                        Err(e) => fails(c, e),
                        Ok(steps) => {
                            let (changed, result) = nums(root, steps, outs);
                            let c1 = with_db(
                                c,
                                db_update(c.db, argv[1], ObjV::Json(changed)),
                            );
                            match result {
                                Err(e) => fails(c1, e),
                                Ok(vs) => replies_one(
                                    c1,
                                    Tok::Bulk(bracketed(displays(vs))),
                                ),
                            }
                        },
                    },
                }
            },
        }
    }
}

/// Changes numbers.
fn change_numbers(
    ctx: &mut CommandContext,
    name: &str,
    operand: bool,
    outs: &[Option<serde_json::Number>],
) -> (r: Result<(), RedisError>)
    requires
        old(ctx).wf(),
    ensures
        final(ctx).wf(),
        done(r, final(ctx)@) == numbers_changed(old(ctx)@, name@, operand, out_views(outs@)),
{
    if ctx.arg_count() < 4 {
        return Err(RedisError::wrong_number_of_args(name));
    }
    let key: Vec<u8> = ctx.arg_owned(1);
    let path: Vec<u8> = match read_path(ctx, 2) {
        Err(e) => return Err(e),
        Ok(p) => p,
    };
    if !operand {
        return Err(RedisError::runtime("ERR value is not a number"));
    }
    match ctx.db.json_at(&key) {
        Err(e) => return Err(e),
        Ok(None) => return ctx.reply_null_bulk(),
        Ok(Some(_)) => {},
    }
    let steps: Vec<PathToken> = match lex_path(&path) {
        Err(e) => return Err(e),
        Ok(s) => s,
    };
    let r: Result<Vec<Json>, RedisError> = match ctx.db.json_for_write(&key) {
        Ok(Some(root)) => num_op(root, &steps, outs),
        _ => return Ok(()),
    };
    match r {
        Err(e) => Err(e),
        Ok(results) => {
            let t: Vec<u8> = serialize_matches(&results);
            ctx.reply_bulk(t)
        },
    }
}

/// JSON.NUMINCRBY key path value. `operand` tells whether the value is a number;
/// `outs` says what the numbers that `json_numbers` shows become.
pub fn json_numincrby_command(
    ctx: &mut CommandContext,
    operand: bool,
    outs: &[Option<serde_json::Number>],
) -> (r: Result<(), RedisError>)
    requires
        old(ctx).wf(),
    ensures
        final(ctx).wf(),
        done(r, final(ctx)@) == numbers_changed(
            old(ctx)@,
            "JSON.NUMINCRBY"@,
            operand,
            out_views(outs@),
        ),
{
    change_numbers(ctx, "JSON.NUMINCRBY", operand, outs)
}

/// JSON.NUMMULTBY key path value. `operand` tells whether the value is a number;
/// `outs` says what the numbers that `json_numbers` shows become.
pub fn json_nummultby_command(
    ctx: &mut CommandContext,
    operand: bool,
    outs: &[Option<serde_json::Number>],
) -> (r: Result<(), RedisError>)
    requires
        old(ctx).wf(),
    ensures
        final(ctx).wf(),
        done(r, final(ctx)@) == numbers_changed(
            old(ctx)@,
            "JSON.NUMMULTBY"@,
            operand,
            out_views(outs@),
        ),
{
    change_numbers(ctx, "JSON.NUMMULTBY", operand, outs)
}

// ---------------------------------------------------------------------------
// Laws
// ---------------------------------------------------------------------------

/// After a value was stored at the root of a key, the key holds it, and
/// JSON.GET writes it.
pub proof fn law_json_get_after_set(c: CtxV, key: Seq<u8>, value: JsonV)
    ensures
        ({
            let o = json_stored(c, key, text("$"@), value, false, false);
            &&& o.result is Ok
            &&& json_in(o.ctx.db, key) == Ok::<_, ErrV>(Some(value))
            &&& get_text(value, Seq::empty()) == Ok::<_, ErrV>(json_display(value))
        }),
{
    lemma_dollar();
}

/// With NX a value that is there stays; with XX none comes where none was.
pub proof fn law_json_set_flags(c: CtxV, key: Seq<u8>, value: JsonV)
    ensures
        db_get(c.db, key) is Some ==> json_stored(c, key, text("$"@), value, true, false)
            == replies_one(c, Tok::NullBulk),
        db_get(c.db, key) is None ==> json_stored(c, key, text("$"@), value, false, true)
            == replies_one(c, Tok::NullBulk),
{
    lemma_dollar();
}

} // verus!
