//! JSON paths: how they are written, and what they select.

use vstd::prelude::*;
use vstd::utf8::valid_utf8;

use crate::bytes::{i64_of, lex_less, lex_lt, parse_i64, same, slice};
use crate::error::{runtime, ErrV, RedisError};
use crate::json_data::{
    json_ok, json_views, lemma_arr_view, lemma_obj_view, lemma_ok_item, lemma_ok_member,
    member_views, Json, JsonV,
};
use crate::plain_text::is_utf8;

verus! {

// ---------------------------------------------------------------------------
// Paths
// ---------------------------------------------------------------------------

/// A step of a path, after the root.
pub enum PathToken {
    /// The member with that key.
    Key(Vec<u8>),
    /// The element at that position; from the end if negative.
    Index(i64),
    /// All elements or members.
    Wildcard,
    /// The members with that key, at any depth.
    RecursiveKey(Vec<u8>),
}

/// A step of a path.
#[verifier::ext_equal]
pub enum StepV {
    Key(Seq<u8>),
    Index(i64),
    Wildcard,
    RecursiveKey(Seq<u8>),
}

impl View for PathToken {
    type V = StepV;

    open spec fn view(&self) -> StepV {
        match self {
            PathToken::Key(k) => StepV::Key(k@),
            PathToken::Index(i) => StepV::Index(*i),
            PathToken::Wildcard => StepV::Wildcard,
            PathToken::RecursiveKey(k) => StepV::RecursiveKey(k@),
        }
    }
}

/// The steps of a path.
pub open spec fn step_views(v: Seq<PathToken>) -> Seq<StepV> {
    v.map_values(|t: PathToken| t@)
}

/// Where a name that begins at a position ends: before a dot or a bracket.
pub open spec fn name_end(s: Seq<u8>, i: int) -> int
    decreases s.len() - i,
{
    if i < 0 || i >= s.len() || s[i] == 46 || s[i] == 91 {
        i
    } else {
        name_end(s, i + 1)
    }
}

/// Where a quoted name that begins at a position ends: before the quote.
pub open spec fn quote_end(s: Seq<u8>, i: int, quote: u8) -> int
    decreases s.len() - i,
{
    if i < 0 || i >= s.len() || s[i] == quote {
        i
    } else {
        quote_end(s, i + 1, quote)
    }
}

/// Where digits that begin at a position end.
pub open spec fn digits_end(s: Seq<u8>, i: int) -> int
    decreases s.len() - i,
{
    if i < 0 || i >= s.len() || !(48 <= s[i] <= 57) {
        i
    } else {
        digits_end(s, i + 1)
    }
}

/// Where a number that begins at a position ends.
pub open spec fn number_end(s: Seq<u8>, i: int) -> int {
    if 0 <= i < s.len() && s[i] == 45 {
        digits_end(s, i + 1)
    } else {
        digits_end(s, i)
    }
}

/// The closing bracket at a position: where the path goes on.
pub open spec fn closed_at(s: Seq<u8>, i: int, step: StepV, error: Seq<char>) -> Result<
    (StepV, int),
    ErrV,
> {
    if i >= s.len() || s[i] != 93 {
        Err(runtime(error))
    } else {
        Ok((step, i + 1))
    }
}

/// The step in brackets whose inside begins at a position.
pub open spec fn bracket_at(s: Seq<u8>, i: int) -> Result<(StepV, int), ErrV> {
    if i < s.len() && (s[i] == 39 || s[i] == 34) {
        let e = quote_end(s, i + 1, s[i]);
        let key = s.subrange(i + 1, e);
        if !valid_utf8(key) {
            Err(runtime("ERR invalid path encoding"@))
        } else {
            closed_at(s, e + 1, StepV::Key(key), "ERR expected ']'"@)
        }
    } else if i < s.len() && s[i] == 42 {
        closed_at(s, i + 1, StepV::Wildcard, "ERR expected ']' after '*'"@)
    } else {
        let e = number_end(s, i);
        match i64_of(s.subrange(i, e)) {
            None => Err(runtime("ERR invalid array index"@)),
            Some(n) => closed_at(s, e, StepV::Index(n), "ERR expected ']'"@),
        }
    }
}

/// The name that begins at a position.
pub open spec fn name_at(s: Seq<u8>, i: int, deep: bool) -> Result<(StepV, int), ErrV> {
    let e = name_end(s, i);
    let key = s.subrange(i, e);
    if !valid_utf8(key) {
        Err(runtime("ERR invalid path encoding"@))
    } else if key.len() == 0 {
        if deep {
            Err(runtime("ERR empty key in recursive descent"@))
        } else {
            Err(runtime("ERR empty key after '.'"@))
        }
    } else if deep {
        Ok((StepV::RecursiveKey(key), e))
    } else {
        Ok((StepV::Key(key), e))
    }
}

/// The step that begins at a position, and where the path goes on.
pub open spec fn step_at(s: Seq<u8>, i: int) -> Result<(StepV, int), ErrV> {
    if s[i] == 46 && i + 1 < s.len() && s[i + 1] == 46 {
        name_at(s, i + 2, true)
    } else if s[i] == 46 {
        name_at(s, i + 1, false)
    } else if s[i] == 91 {
        bracket_at(s, i + 1)
    } else {
        Err(runtime("ERR unexpected character in path"@))
    }
}

/// The steps from a position on, after those in `acc`.
pub open spec fn steps_from(s: Seq<u8>, i: int, acc: Seq<StepV>) -> Result<Seq<StepV>, ErrV>
    decreases s.len() - i,
{
    if i < 0 || i >= s.len() {
        Ok(acc)
    } else {
        match step_at(s, i) {
            Err(e) => Err(e),
            Ok((step, next)) => {
                proof {
                    lemma_step_advances(s, i);
                }
                steps_from(s, next, acc.push(step))
            },
        }
    }
}

/// The steps of a path, which begins with a dollar sign.
pub open spec fn path_of(s: Seq<u8>) -> Result<Seq<StepV>, ErrV> {
    if s.len() == 0 || s[0] != 36 {
        Err(runtime("ERR Path must begin with '$'"@))
    } else {
        steps_from(s, 1, Seq::empty())
    }
}

proof fn lemma_name_end(s: Seq<u8>, i: int)
    requires
        0 <= i <= s.len(),
    ensures
        i <= name_end(s, i) <= s.len(),
    decreases s.len() - i,
{
    if i < s.len() && s[i] != 46 && s[i] != 91 {
        lemma_name_end(s, i + 1);
    }
}

proof fn lemma_quote_end(s: Seq<u8>, i: int, quote: u8)
    requires
        0 <= i <= s.len(),
    ensures
        i <= quote_end(s, i, quote) <= s.len(),
    decreases s.len() - i,
{
    if i < s.len() && s[i] != quote {
        lemma_quote_end(s, i + 1, quote);
    }
}

proof fn lemma_digits_end(s: Seq<u8>, i: int)
    requires
        0 <= i <= s.len(),
    ensures
        i <= digits_end(s, i) <= s.len(),
    decreases s.len() - i,
{
    if i < s.len() && 48 <= s[i] <= 57 {
        lemma_digits_end(s, i + 1);
    }
}

/// A step ends after the position at which it begins.
pub proof fn lemma_step_advances(s: Seq<u8>, i: int)
    requires
        0 <= i < s.len(),
    ensures
        match step_at(s, i) {
            Ok((step, next)) => i < next <= s.len(),
            Err(e) => true,
        },
{
    if s[i] == 46 && i + 1 < s.len() && s[i + 1] == 46 {
        lemma_name_end(s, i + 2);
    } else if s[i] == 46 {
        lemma_name_end(s, i + 1);
    } else if s[i] == 91 {
        if i + 1 < s.len() && (s[i + 1] == 39 || s[i + 1] == 34) {
            lemma_quote_end(s, i + 2, s[i + 1]);
        } else if i + 1 < s.len() && s[i + 1] == 45 {
            lemma_digits_end(s, i + 2);
        } else {
            lemma_digits_end(s, i + 1);
        }
    }
}

/// Where a name that begins at a position ends.
fn find_name_end(s: &[u8], from: usize) -> (r: usize)
    requires
        from <= s@.len(),
    ensures
        r == name_end(s@, from as int),
        from <= r <= s@.len(),
{
    let mut i: usize = from;
    while i < s.len() && s[i] != 46 && s[i] != 91
        invariant
            from <= i <= s@.len(),
            name_end(s@, from as int) == name_end(s@, i as int),
        decreases s@.len() - i,
    {
        i += 1;
    }
    i
}

/// Where a quoted name that begins at a position ends.
fn find_quote_end(s: &[u8], from: usize, quote: u8) -> (r: usize)
    requires
        from <= s@.len(),
    ensures
        r == quote_end(s@, from as int, quote),
        from <= r <= s@.len(),
{
    let mut i: usize = from;
    while i < s.len() && s[i] != quote
        invariant
            from <= i <= s@.len(),
            quote_end(s@, from as int, quote) == quote_end(s@, i as int, quote),
        decreases s@.len() - i,
    {
        i += 1;
    }
    i
}

/// Where a number that begins at a position ends.
fn find_number_end(s: &[u8], from: usize) -> (r: usize)
    requires
        from <= s@.len(),
    ensures
        r == number_end(s@, from as int),
        from <= r <= s@.len(),
{
    let start: usize = if from < s.len() && s[from] == 45 { from + 1 } else { from };
    let mut i: usize = start;
    while i < s.len() && 48 <= s[i] && s[i] <= 57
        invariant
            start <= i <= s@.len(),
            digits_end(s@, start as int) == digits_end(s@, i as int),
        decreases s@.len() - i,
    {
        i += 1;
    }
    i
}

/// What a step came to.
pub open spec fn step_result(r: Result<(PathToken, usize), RedisError>) -> Result<
    (StepV, int),
    ErrV,
> {
    match r {
        Ok(p) => Ok((p.0@, p.1 as int)),
        Err(e) => Err(e@),
    }
}

/// Reads the closing bracket at a position.
fn read_close(s: &[u8], i: usize, step: PathToken, error: &str) -> (r: Result<
    (PathToken, usize),
    RedisError,
>)
    ensures
        step_result(r) == closed_at(s@, i as int, step@, error@),
{
    if i >= s.len() || s[i] != 93 {
        Err(RedisError::runtime(error))
    } else {
        Ok((step, i + 1))
    }
}

/// Reads the step in brackets whose inside begins at a position.
fn read_bracket(s: &[u8], i: usize) -> (r: Result<(PathToken, usize), RedisError>)
    requires
        i <= s@.len(),
    ensures
        step_result(r) == bracket_at(s@, i as int),
{
    if i < s.len() && (s[i] == 39 || s[i] == 34) {
        let e: usize = find_quote_end(s, i + 1, s[i]);
        let key: Vec<u8> = slice(s, i + 1, e);
        if !is_utf8(&key) {
            return Err(RedisError::runtime("ERR invalid path encoding"));
        }
        if e == s.len() {
            return Err(RedisError::runtime("ERR expected ']'"));
        }
        read_close(s, e + 1, PathToken::Key(key), "ERR expected ']'")
    } else if i < s.len() && s[i] == 42 {
        read_close(s, i + 1, PathToken::Wildcard, "ERR expected ']' after '*'")
    } else {
        let e: usize = find_number_end(s, i);
        let num: Vec<u8> = slice(s, i, e);
        match parse_i64(&num) {
            None => Err(RedisError::runtime("ERR invalid array index")),
            Some(n) => read_close(s, e, PathToken::Index(n), "ERR expected ']'"),
        }
    }
}

/// Reads the name that begins at a position.
fn read_name(s: &[u8], i: usize, deep: bool) -> (r: Result<(PathToken, usize), RedisError>)
    requires
        i <= s@.len(),
    ensures
        step_result(r) == name_at(s@, i as int, deep),
{
    let e: usize = find_name_end(s, i);
    let key: Vec<u8> = slice(s, i, e);
    if !is_utf8(&key) {
        return Err(RedisError::runtime("ERR invalid path encoding"));
    }
    if key.len() == 0 {
        if deep {
            return Err(RedisError::runtime("ERR empty key in recursive descent"));
        }
        return Err(RedisError::runtime("ERR empty key after '.'"));
    }
    if deep {
        Ok((PathToken::RecursiveKey(key), e))
    } else {
        Ok((PathToken::Key(key), e))
    }
}

/// Reads the step that begins at a position.
fn read_step(s: &[u8], i: usize) -> (r: Result<(PathToken, usize), RedisError>)
    requires
        i < s@.len(),
    ensures
        step_result(r) == step_at(s@, i as int),
{
    if s[i] == 46 && s.len() - i > 1 && s[i + 1] == 46 {
        read_name(s, i + 2, true)
    } else if s[i] == 46 {
        read_name(s, i + 1, false)
    } else if s[i] == 91 {
        read_bracket(s, i + 1)
    } else {
        Err(RedisError::runtime("ERR unexpected character in path"))
    }
}

/// Whether the keys that a path names are text.
pub open spec fn steps_ok(steps: Seq<StepV>) -> bool {
    forall|i: int|
        0 <= i < steps.len() ==> match #[trigger] steps[i] {
            StepV::Key(k) => valid_utf8(k),
            StepV::RecursiveKey(k) => valid_utf8(k),
            _ => true,
        }
}

/// What reading a path came to.
pub open spec fn path_result(r: Result<Vec<PathToken>, RedisError>) -> Result<Seq<StepV>, ErrV> {
    match r {
        Ok(v) => Ok(step_views(v@)),
        Err(e) => Err(e@),
    }
}

/// Reads a path.
pub fn lex_path(s: &[u8]) -> (r: Result<Vec<PathToken>, RedisError>)
    ensures
        path_result(r) == path_of(s@),
        r matches Ok(v) ==> steps_ok(step_views(v@)),
{
    if s.len() == 0 || s[0] != 36 {
        return Err(RedisError::runtime("ERR Path must begin with '$'"));
    }
    let len: usize = s.len();
    let ghost whole = path_of(s@);
    let mut steps: Vec<PathToken> = Vec::new();
    let mut i: usize = 1;
    assert(step_views(steps@) =~= Seq::empty());
    while i < len
        invariant
            len == s@.len(),
            1 <= i <= len,
            whole == path_of(s@),
            whole == steps_from(s@, i as int, step_views(steps@)),
            steps_ok(step_views(steps@)),
        decreases len - i,
    {
        let ghost had = steps@;
        match read_step(s, i) {
            Err(e) => return Err(e),
            Ok(p) => {
                let (step, next) = p;
                proof {
                    lemma_step_advances(s@, i as int);
                }
                let ghost sv = step@;
                steps.push(step);
                assert(step_views(steps@) =~= step_views(had).push(sv));
                i = next;
            },
        }
    }
    Ok(steps)
}

/// The path of the root has no steps.
pub proof fn law_root_path()
    ensures
        path_of(seq![36u8]) == Ok::<_, ErrV>(Seq::<StepV>::empty()),
{
}

// ---------------------------------------------------------------------------
// Elements and members
// ---------------------------------------------------------------------------

/// The element that an index means among `len` of them.
pub open spec fn index_in(idx: i64, len: nat) -> Option<int> {
    if 0 <= idx < len {
        Some(idx as int)
    } else if idx < 0 && len + idx >= 0 {
        Some(len + idx)
    } else {
        None
    }
}

/// Resolves an index, which counts from the end if it is negative.
pub fn resolve_index(idx: i64, len: usize) -> (r: Option<usize>)
    ensures
        match r {
            Some(i) => index_in(idx, len as nat) == Some(i as int) && i < len,
            None => index_in(idx, len as nat) is None,
        },
{
    let at: i128 = if idx >= 0 { idx as i128 } else { len as i128 + idx as i128 };
    if 0 <= at && at < len as i128 {
        Some(at as usize)
    } else {
        None
    }
}

/// The position of the first member from position `i` on whose key is not less
/// than a key.
pub open spec fn member_slot(m: Seq<(Seq<u8>, JsonV)>, key: Seq<u8>, i: int) -> int
    decreases m.len() - i,
{
    if i < 0 || i >= m.len() || !lex_lt(m[i].0, key) {
        i
    } else {
        member_slot(m, key, i + 1)
    }
}

/// Where the member with a key stands, if there is one.
pub open spec fn member_at(m: Seq<(Seq<u8>, JsonV)>, key: Seq<u8>) -> Option<int> {
    let i = member_slot(m, key, 0);
    if 0 <= i < m.len() && m[i].0 == key {
        Some(i)
    } else {
        None
    }
}

/// Where a key stands or would stand among members, and whether it stands
/// there.
pub fn find_member(m: &[(Vec<u8>, Json)], key: &[u8]) -> (r: (bool, usize))
    ensures
        r.1 == member_slot(member_views(m@), key@, 0),
        r.1 <= m@.len(),
        r.0 == (member_at(member_views(m@), key@) is Some),
        r.0 ==> r.1 < m@.len() && member_at(member_views(m@), key@) == Some(r.1 as int)
            && m@[r.1 as int].0@ == key@,
{
    let mut i: usize = 0;
    while i < m.len() && lex_less(&m[i].0, key)
        invariant
            i <= m@.len(),
            member_slot(member_views(m@), key@, 0) == member_slot(
                member_views(m@),
                key@,
                i as int,
            ),
        decreases m@.len() - i,
    {
        i += 1;
    }
    let found: bool = i < m.len() && same(&m[i].0, key);
    (found, i)
}

// ---------------------------------------------------------------------------
// Selection
// ---------------------------------------------------------------------------

/// What a path selects from position `pos` of it on.
pub open spec fn selected(v: JsonV, steps: Seq<StepV>, pos: int) -> Seq<JsonV>
    decreases steps.len() - pos, v,
{
    if pos < 0 || pos >= steps.len() {
        seq![v]
    } else {
        match steps[pos] {
            StepV::Key(k) => match v {
                JsonV::Obj(m) => match member_at(m, k) {
                    Some(i) => selected(m[i].1, steps, pos + 1),
                    None => Seq::empty(),
                },
                _ => Seq::empty(),
            },
            StepV::Index(idx) => match v {
                JsonV::Arr(a) => match index_in(idx, a.len()) {
                    Some(i) => selected(a[i], steps, pos + 1),
                    None => Seq::empty(),
                },
                _ => Seq::empty(),
            },
            StepV::Wildcard => match v {
                JsonV::Arr(a) => selected_items(a, steps, pos + 1),
                JsonV::Obj(m) => selected_members(m, steps, pos + 1),
                _ => Seq::empty(),
            },
            StepV::RecursiveKey(k) => selected_deep(v, k, steps, pos + 1),
        }
    }
}

/// What a path selects from each of some elements.
pub open spec fn selected_items(a: Seq<JsonV>, steps: Seq<StepV>, pos: int) -> Seq<JsonV>
    decreases steps.len() - pos, a,
{
    if a.len() == 0 {
        Seq::empty()
    } else {
        selected_items(a.drop_last(), steps, pos) + selected(a[a.len() - 1], steps, pos)
    }
}

/// What a path selects from each of some members.
pub open spec fn selected_members(m: Seq<(Seq<u8>, JsonV)>, steps: Seq<StepV>, pos: int) -> Seq<
    JsonV,
>
    decreases steps.len() - pos, m,
{
    if m.len() == 0 {
        Seq::empty()
    } else {
        selected_members(m.drop_last(), steps, pos) + selected(m[m.len() - 1].1, steps, pos)
    }
}

/// What a path selects from the members with a key, at any depth.
pub open spec fn selected_deep(v: JsonV, key: Seq<u8>, steps: Seq<StepV>, next: int) -> Seq<JsonV>
    decreases steps.len() - next, v,
{
    match v {
        JsonV::Obj(m) => {
            let here = match member_at(m, key) {
                Some(i) => selected(m[i].1, steps, next),
                None => Seq::empty(),
            };
            here + deep_members(m, key, steps, next)
        },
        JsonV::Arr(a) => deep_items(a, key, steps, next),
        _ => Seq::empty(),
    }
}

/// The same inside each of some elements.
pub open spec fn deep_items(a: Seq<JsonV>, key: Seq<u8>, steps: Seq<StepV>, next: int) -> Seq<JsonV>
    decreases steps.len() - next, a,
{
    if a.len() == 0 {
        Seq::empty()
    } else {
        deep_items(a.drop_last(), key, steps, next) + selected_deep(
            a[a.len() - 1],
            key,
            steps,
            next,
        )
    }
}

/// The same inside each of some members.
pub open spec fn deep_members(
    m: Seq<(Seq<u8>, JsonV)>,
    key: Seq<u8>,
    steps: Seq<StepV>,
    next: int,
) -> Seq<JsonV>
    decreases steps.len() - next, m,
{
    if m.len() == 0 {
        Seq::empty()
    } else {
        deep_members(m.drop_last(), key, steps, next) + selected_deep(
            m[m.len() - 1].1,
            key,
            steps,
            next,
        )
    }
}

/// A list of values that grows by one.
pub proof fn lemma_json_views_push(v: Seq<Json>, j: Json)
    ensures
        json_views(v.push(j)) == json_views(v).push(j@),
{
    assert(json_views(v.push(j)) =~= json_views(v).push(j@));
}

/// Collects what a path selects from position `pos` of it on.
pub fn eval_tokens(v: &Json, steps: &[PathToken], pos: usize, out: &mut Vec<Json>)
    requires
        pos <= steps@.len(),
    ensures
        json_views(final(out)@) == json_views(old(out)@) + selected(
            v@,
            step_views(steps@),
            pos as int,
        ),
    decreases steps@.len() - pos, v,
{
    let ghost sv = step_views(steps@);
    let ghost first = json_views(out@);
    if pos == steps.len() {
        let c: Json = v.dup();
        proof {
            lemma_json_views_push(out@, c);
        }
        out.push(c);
        assert(json_views(out@) =~= first + seq![v@]);
        return;
    }
    assert(sv[pos as int] == steps@[pos as int]@);
    match &steps[pos] {
        PathToken::Key(k) => {
            match v {
                Json::Obj(m) => {
                    proof {
                        lemma_obj_view(*m);
                    }
                    let (found, i) = find_member(m, k);
                    if found {
                        eval_tokens(&m[i].1, steps, pos + 1, out);
                    } else {
                        assert(first =~= first + Seq::<JsonV>::empty());
                    }
                },
                _ => {
                    assert(first =~= first + Seq::<JsonV>::empty());
                },
            }
        },
        PathToken::Index(idx) => {
            match v {
                Json::Arr(a) => {
                    proof {
                        lemma_arr_view(*a);
                    }
                    match resolve_index(*idx, a.len()) {
                        Some(i) => eval_tokens(&a[i], steps, pos + 1, out),
                        None => {
                            assert(first =~= first + Seq::<JsonV>::empty());
                        },
                    }
                },
                _ => {
                    assert(first =~= first + Seq::<JsonV>::empty());
                },
            }
        },
        PathToken::Wildcard => {
            match v {
                Json::Arr(a) => eval_items(a, steps, pos + 1, out),
                Json::Obj(m) => eval_members(m, steps, pos + 1, out),
                _ => {
                    assert(first =~= first + Seq::<JsonV>::empty());
                },
            }
            proof {
                match v {
                    Json::Arr(a) => lemma_arr_view(*a),
                    Json::Obj(m) => lemma_obj_view(*m),
                    _ => {},
                }
            }
        },
        PathToken::RecursiveKey(k) => collect_recursive(v, k, steps, pos + 1, out),
    }
}

/// Collects what a path selects from each of some elements.
fn eval_items(a: &Vec<Json>, steps: &[PathToken], pos: usize, out: &mut Vec<Json>)
    requires
        pos <= steps@.len(),
    ensures
        json_views(final(out)@) == json_views(old(out)@) + selected_items(
            json_views(a@),
            step_views(steps@),
            pos as int,
        ),
    decreases steps@.len() - pos, a,
{
    let ghost sv = step_views(steps@);
    let ghost all = json_views(a@);
    let ghost first = json_views(out@);
    let mut i: usize = 0;
    assert(all.take(0) =~= Seq::empty());
    assert(first =~= first + Seq::<JsonV>::empty());
    while i < a.len()
        invariant
            pos <= steps@.len(),
            i <= a@.len(),
            sv == step_views(steps@),
            all == json_views(a@),
            json_views(out@) == first + selected_items(all.take(i as int), sv, pos as int),
        decreases a@.len() - i,
    {
        proof {
            assert(decreases_to!(*a => a@));
            assert(decreases_to!(a@ => a@[i as int]));
            assert(all.take(i + 1).drop_last() =~= all.take(i as int));
        }
        let ghost before = json_views(out@);
        eval_tokens(&a[i], steps, pos, out);
        assert(json_views(out@) =~= first + selected_items(all.take(i + 1), sv, pos as int));
        i += 1;
    }
    assert(all.take(i as int) =~= all);
}

/// Collects what a path selects from each of some members.
fn eval_members(m: &Vec<(Vec<u8>, Json)>, steps: &[PathToken], pos: usize, out: &mut Vec<Json>)
    requires
        pos <= steps@.len(),
    ensures
        json_views(final(out)@) == json_views(old(out)@) + selected_members(
            member_views(m@),
            step_views(steps@),
            pos as int,
        ),
    decreases steps@.len() - pos, m,
{
    let ghost sv = step_views(steps@);
    let ghost all = member_views(m@);
    let ghost first = json_views(out@);
    let mut i: usize = 0;
    assert(all.take(0) =~= Seq::empty());
    assert(first =~= first + Seq::<JsonV>::empty());
    while i < m.len()
        invariant
            pos <= steps@.len(),
            i <= m@.len(),
            sv == step_views(steps@),
            all == member_views(m@),
            json_views(out@) == first + selected_members(all.take(i as int), sv, pos as int),
        decreases m@.len() - i,
    {
        proof {
            assert(decreases_to!(*m => m@));
            assert(decreases_to!(m@ => m@[i as int]));
            assert(decreases_to!(m@[i as int] => m@[i as int].1));
            assert(all.take(i + 1).drop_last() =~= all.take(i as int));
        }
        eval_tokens(&m[i].1, steps, pos, out);
        assert(json_views(out@) =~= first + selected_members(all.take(i + 1), sv, pos as int));
        i += 1;
    }
    assert(all.take(i as int) =~= all);
}

/// Collects what a path selects from the members with a key, at any depth.
fn collect_recursive(
    v: &Json,
    key: &Vec<u8>,
    steps: &[PathToken],
    next: usize,
    out: &mut Vec<Json>,
)
    requires
        next <= steps@.len(),
    ensures
        json_views(final(out)@) == json_views(old(out)@) + selected_deep(
            v@,
            key@,
            step_views(steps@),
            next as int,
        ),
    decreases steps@.len() - next, v,
{
    let ghost sv = step_views(steps@);
    let ghost first = json_views(out@);
    match v {
        Json::Obj(m) => {
            proof {
                lemma_obj_view(*m);
            }
            let ghost all = member_views(m@);
            let (found, at) = find_member(m, key);
            if found {
                proof {
                    assert(decreases_to!(*v => v->Obj_0));
                    assert(decreases_to!(*m => m@));
                    assert(decreases_to!(m@ => m@[at as int]));
                    assert(decreases_to!(m@[at as int] => m@[at as int].1));
                }
                eval_tokens(&m[at].1, steps, next, out);
            }
            let ghost here = match member_at(all, key@) {
                Some(i) => selected(all[i].1, sv, next as int),
                None => Seq::empty(),
            };
            let ghost base = json_views(out@);
            assert(base =~= first + here);
            let mut i: usize = 0;
            assert(all.take(0) =~= Seq::empty());
            assert(base =~= base + Seq::<JsonV>::empty());
            while i < m.len()
                invariant
                    next <= steps@.len(),
                    v == Json::Obj(*m),
                    i <= m@.len(),
                    sv == step_views(steps@),
                    all == member_views(m@),
                    json_views(out@) == base + deep_members(
                        all.take(i as int),
                        key@,
                        sv,
                        next as int,
                    ),
                decreases m@.len() - i,
            {
                proof {
                    assert(decreases_to!(*v => v->Obj_0));
                    assert(decreases_to!(*m => m@));
                    assert(decreases_to!(m@ => m@[i as int]));
                    assert(decreases_to!(m@[i as int] => m@[i as int].1));
                    assert(all.take(i + 1).drop_last() =~= all.take(i as int));
                }
                collect_recursive(&m[i].1, key, steps, next, out);
                assert(json_views(out@) =~= base + deep_members(
                    all.take(i + 1),
                    key@,
                    sv,
                    next as int,
                ));
                i += 1;
            }
            assert(all.take(i as int) =~= all);
            assert(json_views(out@) =~= first + (here + deep_members(all, key@, sv, next as int)));
        },
        Json::Arr(a) => {
            proof {
                lemma_arr_view(*a);
            }
            let ghost all = json_views(a@);
            let mut i: usize = 0;
            assert(all.take(0) =~= Seq::empty());
            assert(first =~= first + Seq::<JsonV>::empty());
            while i < a.len()
                invariant
                    next <= steps@.len(),
                    v == Json::Arr(*a),
                    i <= a@.len(),
                    sv == step_views(steps@),
                    all == json_views(a@),
                    json_views(out@) == first + deep_items(
                        all.take(i as int),
                        key@,
                        sv,
                        next as int,
                    ),
                decreases a@.len() - i,
            {
                proof {
                    assert(decreases_to!(*v => v->Arr_0));
                    assert(decreases_to!(*a => a@));
                    assert(decreases_to!(a@ => a@[i as int]));
                    assert(all.take(i + 1).drop_last() =~= all.take(i as int));
                }
                collect_recursive(&a[i], key, steps, next, out);
                assert(json_views(out@) =~= first + deep_items(
                    all.take(i + 1),
                    key@,
                    sv,
                    next as int,
                ));
                i += 1;
            }
            assert(all.take(i as int) =~= all);
        },
        _ => {
            assert(first =~= first + Seq::<JsonV>::empty());
        },
    }
}

/// What a path selects.
pub open spec fn query(root: JsonV, path: Seq<u8>) -> Result<Seq<JsonV>, ErrV> {
    match path_of(path) {
        Ok(steps) => Ok(selected(root, steps, 0)),
        Err(e) => Err(e),
    }
}

/// Whether all values of a list are valid.
pub open spec fn all_ok(v: Seq<JsonV>) -> bool {
    forall|i: int| 0 <= i < v.len() ==> json_ok(#[trigger] v[i])
}

proof fn lemma_all_ok_add(a: Seq<JsonV>, b: Seq<JsonV>)
    requires
        all_ok(a),
        all_ok(b),
    ensures
        all_ok(a + b),
{
}

/// What a path selects from a valid value is valid.
pub proof fn lemma_selected_ok(v: JsonV, steps: Seq<StepV>, pos: int)
    requires
        json_ok(v),
    ensures
        all_ok(selected(v, steps, pos)),
    decreases steps.len() - pos, v, 1int,
{
    if 0 <= pos < steps.len() {
        match steps[pos] {
            StepV::Key(k) => match v {
                JsonV::Obj(m) => match member_at(m, k) {
                    Some(i) => {
                        lemma_ok_member(m, i);
                        lemma_selected_ok(m[i].1, steps, pos + 1);
                    },
                    None => {},
                },
                _ => {},
            },
            StepV::Index(idx) => match v {
                JsonV::Arr(a) => match index_in(idx, a.len()) {
                    Some(i) => {
                        lemma_ok_item(a, i);
                        lemma_selected_ok(a[i], steps, pos + 1);
                    },
                    None => {},
                },
                _ => {},
            },
            StepV::Wildcard => match v {
                JsonV::Arr(a) => {
                    assert forall|i: int| 0 <= i < a.len() implies json_ok(#[trigger] a[i]) by {
                        lemma_ok_item(a, i);
                    }
                    lemma_items_ok(a, steps, pos + 1);
                },
                JsonV::Obj(m) => {
                    assert forall|i: int| 0 <= i < m.len() implies json_ok((#[trigger] m[i]).1) by {
                        lemma_ok_member(m, i);
                    }
                    lemma_members_ok(m, steps, pos + 1);
                },
                _ => {},
            },
            StepV::RecursiveKey(k) => lemma_deep_ok(v, k, steps, pos + 1),
        }
    }
}

proof fn lemma_items_ok(a: Seq<JsonV>, steps: Seq<StepV>, pos: int)
    requires
        all_ok(a),
    ensures
        all_ok(selected_items(a, steps, pos)),
    decreases steps.len() - pos, a, 0int,
{
    if a.len() > 0 {
        assert(all_ok(a.drop_last()));
        lemma_items_ok(a.drop_last(), steps, pos);
        lemma_selected_ok(a[a.len() - 1], steps, pos);
        lemma_all_ok_add(
            selected_items(a.drop_last(), steps, pos),
            selected(a[a.len() - 1], steps, pos),
        );
    }
}

proof fn lemma_members_ok(m: Seq<(Seq<u8>, JsonV)>, steps: Seq<StepV>, pos: int)
    requires
        forall|i: int| 0 <= i < m.len() ==> json_ok((#[trigger] m[i]).1),
    ensures
        all_ok(selected_members(m, steps, pos)),
    decreases steps.len() - pos, m, 0int,
{
    if m.len() > 0 {
        let d = m.drop_last();
        assert forall|i: int| 0 <= i < d.len() implies json_ok((#[trigger] d[i]).1) by {
            assert(d[i] == m[i]);
        }
        lemma_members_ok(d, steps, pos);
        lemma_selected_ok(m[m.len() - 1].1, steps, pos);
        lemma_all_ok_add(
            selected_members(d, steps, pos),
            selected(m[m.len() - 1].1, steps, pos),
        );
    }
}

proof fn lemma_deep_ok(v: JsonV, key: Seq<u8>, steps: Seq<StepV>, next: int)
    requires
        json_ok(v),
    ensures
        all_ok(selected_deep(v, key, steps, next)),
    decreases steps.len() - next, v, 2int,
{
    match v {
        JsonV::Obj(m) => {
            assert forall|i: int| 0 <= i < m.len() implies json_ok((#[trigger] m[i]).1) by {
                lemma_ok_member(m, i);
            }
            let here = match member_at(m, key) {
                Some(i) => selected(m[i].1, steps, next),
                None => Seq::empty(),
            };
            match member_at(m, key) {
                Some(i) => {
                    lemma_selected_ok(m[i].1, steps, next);
                },
                None => {},
            }
            lemma_deep_members_ok(m, key, steps, next);
            lemma_all_ok_add(here, deep_members(m, key, steps, next));
        },
        JsonV::Arr(a) => {
            assert forall|i: int| 0 <= i < a.len() implies json_ok(#[trigger] a[i]) by {
                lemma_ok_item(a, i);
            }
            lemma_deep_items_ok(a, key, steps, next);
        },
        _ => {},
    }
}

proof fn lemma_deep_items_ok(a: Seq<JsonV>, key: Seq<u8>, steps: Seq<StepV>, next: int)
    requires
        all_ok(a),
    ensures
        all_ok(deep_items(a, key, steps, next)),
    decreases steps.len() - next, a, 0int,
{
    if a.len() > 0 {
        assert(all_ok(a.drop_last()));
        lemma_deep_items_ok(a.drop_last(), key, steps, next);
        lemma_deep_ok(a[a.len() - 1], key, steps, next);
        lemma_all_ok_add(
            deep_items(a.drop_last(), key, steps, next),
            selected_deep(a[a.len() - 1], key, steps, next),
        );
    }
}

proof fn lemma_deep_members_ok(
    m: Seq<(Seq<u8>, JsonV)>,
    key: Seq<u8>,
    steps: Seq<StepV>,
    next: int,
)
    requires
        forall|i: int| 0 <= i < m.len() ==> json_ok((#[trigger] m[i]).1),
    ensures
        all_ok(deep_members(m, key, steps, next)),
    decreases steps.len() - next, m, 0int,
{
    if m.len() > 0 {
        let d = m.drop_last();
        assert forall|i: int| 0 <= i < d.len() implies json_ok((#[trigger] d[i]).1) by {
            assert(d[i] == m[i]);
        }
        lemma_deep_members_ok(d, key, steps, next);
        lemma_deep_ok(m[m.len() - 1].1, key, steps, next);
        lemma_all_ok_add(
            deep_members(d, key, steps, next),
            selected_deep(m[m.len() - 1].1, key, steps, next),
        );
    }
}

/// Collects what a path selects.
pub fn query_path_owned(root: &Json, path: &[u8]) -> (r: Result<Vec<Json>, RedisError>)
    requires
        json_ok(root@),
    ensures
        match r {
            Ok(v) => query(root@, path@) == Ok::<_, ErrV>(json_views(v@)) && all_ok(
                json_views(v@),
            ),
            Err(e) => query(root@, path@) == Err::<Seq<JsonV>, ErrV>(e@),
        },
{
    let steps: Vec<PathToken> = match lex_path(path) {
        Err(e) => return Err(e),
        Ok(s) => s,
    };
    let mut out: Vec<Json> = Vec::new();
    assert(json_views(out@) =~= Seq::empty());
    eval_tokens(root, &steps, 0, &mut out);
    proof {
        lemma_selected_ok(root@, step_views(steps@), 0);
        assert(json_views(out@) =~= selected(root@, step_views(steps@), 0));
    }
    Ok(out)
}

/// The root path selects the whole value.
pub proof fn law_root_selects_all(v: JsonV)
    ensures
        query(v, seq![36u8]) == Ok::<_, ErrV>(seq![v]),
{
    law_root_path();
}

/// A wildcard selects every element of an array, in order.
pub proof fn law_wildcard_selects_elements(a: Seq<JsonV>)
    ensures
        selected(JsonV::Arr(a), seq![StepV::Wildcard], 0) == a,
{
    let steps = seq![StepV::Wildcard];
    assert(selected(JsonV::Arr(a), steps, 0) == selected_items(a, steps, 1));
    lemma_items_are_selected(a, steps);
}

proof fn lemma_items_are_selected(a: Seq<JsonV>, steps: Seq<StepV>)
    requires
        steps.len() == 1,
    ensures
        selected_items(a, steps, 1) == a,
    decreases a.len(),
{
    if a.len() > 0 {
        lemma_items_are_selected(a.drop_last(), steps);
        assert(selected(a[a.len() - 1], steps, 1) == seq![a[a.len() - 1]]);
        assert(a.drop_last() + seq![a[a.len() - 1]] =~= a);
    } else {
        assert(a =~= Seq::empty());
    }
}

/// An index from the end selects what the index from the front does.
pub proof fn law_index_from_the_end(idx: i64, len: nat)
    requires
        0 <= idx < len <= i64::MAX,
    ensures
        index_in((idx - len) as i64, len) == index_in(idx, len),
{
}

} // verus!
