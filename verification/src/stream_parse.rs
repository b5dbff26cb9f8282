//! The arguments of the stream commands: range bounds, IDs, trim strategies
//! and read options.

use vstd::prelude::*;

use crate::bytes::{
    dup, find, find_byte, i64_of, is_text, is_word, parse_i64, parse_u64, slice, text, u64_of, views, word,
};
use crate::error::{runtime, syntax, ErrV, RedisError};
use crate::stream_data::{id_of, id_pred, id_succ, parse_stream_id, StreamId};

verus! {

/// Which end of a range a bound is.
#[derive(Clone, Copy, PartialEq, Eq, Structural, Debug)]
pub enum BoundSide {
    Start,
    End,
}

/// A bound of a range. An exclusive ID is replaced by its neighbour.
#[derive(Clone, Copy, PartialEq, Eq, Structural, Debug)]
pub enum Bound {
    Min,
    Max,
    Inclusive(StreamId),
}

/// The error for a text that is no stream ID.
pub open spec fn bad_id() -> ErrV {
    runtime("ERR Invalid stream ID specified as stream command argument"@)
}

/// The error for a text that is no stream ID.
pub fn invalid_stream_id_err() -> (r: RedisError)
    ensures
        r@ == bad_id(),
{
    RedisError::runtime("ERR Invalid stream ID specified as stream command argument")
}

/// An explicit ID; a missing sequence number counts as 0.
pub open spec fn explicit_id(s: Seq<u8>) -> Result<StreamId, ErrV> {
    match id_of(s, 0) {
        Some(id) => Ok(id),
        None => Err(bad_id()),
    }
}

/// Parses an explicit ID.
pub fn parse_explicit_id(s: &[u8]) -> (r: Result<StreamId, RedisError>)
    ensures
        match r {
            Ok(id) => explicit_id(s@) == Ok::<_, ErrV>(id),
            Err(e) => explicit_id(s@) == Err::<StreamId, _>(e@),
        },
{
    match parse_stream_id(s, 0) {
        Some(id) => Ok(id),
        None => Err(invalid_stream_id_err()),
    }
}

/// What a range bound denotes: `-`, `+`, an ID, or `(` and an ID that is left
/// out.
pub open spec fn range_bound(s: Seq<u8>, side: BoundSide) -> Result<Bound, ErrV> {
    let exclusive = s.len() > 0 && s[0] == 40;
    let body = if exclusive {
        s.skip(1)
    } else {
        s
    };
    if s == text("-"@) {
        Ok(Bound::Min)
    } else if s == text("+"@) {
        Ok(Bound::Max)
    } else if exclusive && (body == text("-"@) || body == text("+"@)) {
        Err(bad_id())
    } else {
        match id_of(
            body,
            if side == BoundSide::Start {
                0
            } else {
                u64::MAX
            },
        ) {
            None => Err(bad_id()),
            Some(id) => if !exclusive {
                Ok(Bound::Inclusive(id))
            } else if side == BoundSide::Start {
                match id_succ(id) {
                    Some(n) => Ok(Bound::Inclusive(n)),
                    None => Err(runtime("ERR invalid start ID for the interval"@)),
                }
            } else {
                match id_pred(id) {
                    Some(n) => Ok(Bound::Inclusive(n)),
                    None => Err(runtime("ERR invalid end ID for the interval"@)),
                }
            },
        }
    }
}

/// Parses a range bound.
pub fn parse_range_bound(arg: &[u8], side: BoundSide) -> (r: Result<Bound, RedisError>)
    ensures
        match r {
            Ok(b) => range_bound(arg@, side) == Ok::<_, ErrV>(b),
            Err(e) => range_bound(arg@, side) == Err::<Bound, _>(e@),
        },
{
    if is_text(arg, "-") {
        return Ok(Bound::Min);
    }
    if is_text(arg, "+") {
        return Ok(Bound::Max);
    }
    let exclusive: bool = arg.len() > 0 && arg[0] == 40;
    let body: Vec<u8> = if exclusive {
        slice(arg, 1, arg.len())
    } else {
        dup(arg)
    };
    assert(exclusive ==> body@ =~= arg@.skip(1));
    if exclusive && (is_text(&body, "-") || is_text(&body, "+")) {
        return Err(invalid_stream_id_err());
    }
    let default_seq: u64 = match side {
        BoundSide::Start => 0,
        BoundSide::End => u64::MAX,
    };
    let id: StreamId = match parse_stream_id(&body, default_seq) {
        Some(id) => id,
        None => return Err(invalid_stream_id_err()),
    };
    if !exclusive {
        return Ok(Bound::Inclusive(id));
    }
    match side {
        BoundSide::Start => match id.checked_succ() {
            Some(n) => Ok(Bound::Inclusive(n)),
            None => Err(RedisError::runtime("ERR invalid start ID for the interval")),
        },
        BoundSide::End => match id.checked_pred() {
            Some(n) => Ok(Bound::Inclusive(n)),
            None => Err(RedisError::runtime("ERR invalid end ID for the interval")),
        },
    }
}

/// The ID of an XADD: given in full, or with the sequence number left open.
#[derive(Clone, Copy, PartialEq, Eq, Structural, Debug)]
pub enum XaddIdSpec {
    /// `*`.
    Auto,
    /// `<ms>-<seq>` or `<ms>`.
    Explicit(StreamId),
    /// `<ms>-*`.
    Partial(u64),
}

/// What the ID argument of an XADD denotes.
pub open spec fn xadd_id(s: Seq<u8>) -> Result<XaddIdSpec, ErrV> {
    if s == text("*"@) {
        Ok(XaddIdSpec::Auto)
    } else {
        match find_byte(s, 45, 0) {
            None => match u64_of(s) {
                Some(ms) => Ok(XaddIdSpec::Explicit(StreamId { ms, seq: 0 })),
                None => Err(bad_id()),
            },
            Some(i) => match u64_of(s.take(i)) {
                None => Err(bad_id()),
                Some(ms) => if s.skip(i + 1) == text("*"@) {
                    Ok(XaddIdSpec::Partial(ms))
                } else {
                    match u64_of(s.skip(i + 1)) {
                        Some(seq) => Ok(XaddIdSpec::Explicit(StreamId { ms, seq })),
                        None => Err(bad_id()),
                    }
                },
            },
        }
    }
}

/// Parses the ID argument of an XADD.
pub fn parse_xadd_id_spec(arg: &[u8]) -> (r: Result<XaddIdSpec, RedisError>)
    ensures
        match r {
            Ok(b) => xadd_id(arg@) == Ok::<_, ErrV>(b),
            Err(e) => xadd_id(arg@) == Err::<XaddIdSpec, _>(e@),
        },
{
    if is_text(arg, "*") {
        return Ok(XaddIdSpec::Auto);
    }
    match find(arg, 45, 0) {
        None => match parse_u64(arg) {
            Some(ms) => Ok(XaddIdSpec::Explicit(StreamId { ms, seq: 0 })),
            None => Err(invalid_stream_id_err()),
        },
        Some(i) => {
            let end: usize = arg.len();
            let head: Vec<u8> = slice(arg, 0, i);
            let tail: Vec<u8> = slice(arg, i + 1, end);
            assert(head@ =~= arg@.take(i as int));
            assert(tail@ =~= arg@.skip(i + 1));
            match parse_u64(&head) {
                None => Err(invalid_stream_id_err()),
                Some(ms) => {
                    if is_text(&tail, "*") {
                        Ok(XaddIdSpec::Partial(ms))
                    } else {
                        match parse_u64(&tail) {
                            Some(seq) => Ok(XaddIdSpec::Explicit(StreamId { ms, seq })),
                            None => Err(invalid_stream_id_err()),
                        }
                    }
                },
            }
        },
    }
}

/// A strict integer argument.
pub open spec fn strict_i64(s: Seq<u8>) -> Result<i64, ErrV> {
    match i64_of(s) {
        Some(n) => Ok(n),
        None => Err(ErrV::NotInteger),
    }
}

/// Parses a strict integer argument.
pub fn parse_strict_i64(s: &[u8]) -> (r: Result<i64, RedisError>)
    ensures
        match r {
            Ok(n) => strict_i64(s@) == Ok::<_, ErrV>(n),
            Err(e) => strict_i64(s@) == Err::<i64, _>(e@),
        },
{
    match parse_i64(s) {
        Some(n) => Ok(n),
        None => Err(RedisError::NotInteger),
    }
}

/// How a stream is trimmed.
#[derive(Clone, Copy, PartialEq, Eq, Structural, Debug)]
pub enum TrimStrategy {
    Keep,
    /// Down to that many entries.
    MaxLen { target: u64, approximate: bool, limit: Option<u64> },
    /// Entries before an ID go.
    MinId { min: StreamId, approximate: bool, limit: Option<u64> },
}

/// The strategy with a limit on the number of evictions.
pub open spec fn with_limit(t: TrimStrategy, limit: Option<u64>) -> TrimStrategy {
    match t {
        TrimStrategy::MaxLen { target, approximate, .. } => TrimStrategy::MaxLen {
            target,
            approximate,
            limit,
        },
        TrimStrategy::MinId { min, approximate, .. } => TrimStrategy::MinId {
            min,
            approximate,
            limit,
        },
        TrimStrategy::Keep => TrimStrategy::Keep,
    }
}

impl TrimStrategy {
    /// The strategy with a limit on the number of evictions.
    pub fn with_limit(self, limit: Option<u64>) -> (r: TrimStrategy)
        ensures
            r == with_limit(self, limit),
    {
        match self {
            TrimStrategy::MaxLen { target, approximate, .. } => TrimStrategy::MaxLen {
                target,
                approximate,
                limit,
            },
            TrimStrategy::MinId { min, approximate, .. } => TrimStrategy::MinId {
                min,
                approximate,
                limit,
            },
            TrimStrategy::Keep => TrimStrategy::Keep,
        }
    }
}

/// The threshold of a trim: a length or an ID.
pub open spec fn threshold(s: Seq<u8>, is_maxlen: bool, approximate: bool) -> Result<
    TrimStrategy,
    ErrV,
> {
    if is_maxlen {
        match strict_i64(s) {
            Err(e) => Err(e),
            Ok(n) => if n < 0 {
                Err(syntax("MAXLEN argument must be >= 0"@))
            } else {
                Ok(TrimStrategy::MaxLen { target: n as u64, approximate, limit: None })
            },
        }
    } else {
        match explicit_id(s) {
            Err(e) => Err(e),
            Ok(min) => Ok(TrimStrategy::MinId { min, approximate, limit: None }),
        }
    }
}

/// What follows MAXLEN or MINID: an optional `=` or `~`, the threshold, and
/// after `~` an optional LIMIT. Gives the strategy and where it ends.
pub open spec fn trim_clause(argv: Seq<Seq<u8>>, at: int, is_maxlen: bool) -> Result<
    (TrimStrategy, int),
    ErrV,
> {
    if at >= argv.len() {
        Err(syntax("syntax error"@))
    } else {
        let marked = argv[at] == text("="@) || argv[at] == text("~"@);
        let approximate = argv[at] == text("~"@);
        let t = if marked {
            at + 1
        } else {
            at
        };
        if t >= argv.len() {
            Err(syntax("syntax error"@))
        } else {
            match threshold(argv[t], is_maxlen, approximate) {
                Err(e) => Err(e),
                Ok(strategy) => if t + 1 < argv.len() && is_word(argv[t + 1], "LIMIT"@) {
                    if !approximate {
                        Err(
                            syntax(
                                "syntax error, LIMIT cannot be used without the special ~ option"@,
                            ),
                        )
                    } else if t + 2 >= argv.len() {
                        Err(syntax("syntax error"@))
                    } else {
                        match strict_i64(argv[t + 2]) {
                            Err(e) => Err(e),
                            Ok(n) => if n < 0 {
                                Err(syntax("LIMIT argument must be >= 0"@))
                            } else {
                                Ok((with_limit(strategy, Some(n as u64)), t + 3))
                            },
                        }
                    }
                } else {
                    Ok((strategy, t + 1))
                },
            }
        }
    }
}

/// Parses what follows MAXLEN or MINID.
pub fn parse_trim_clause(argv: &Vec<Vec<u8>>, at: usize, is_maxlen: bool) -> (r: Result<
    (TrimStrategy, usize),
    RedisError,
>)
    ensures
        match r {
            Ok((t, i)) => trim_clause(views(argv@), at as int, is_maxlen) == Ok::<_, ErrV>(
                (t, i as int),
            ) && at < i <= argv@.len(),
            Err(e) => trim_clause(views(argv@), at as int, is_maxlen) == Err::<
                (TrimStrategy, int),
                _,
            >(e@),
        },
{
    let argc: usize = argv.len();
    if at >= argc {
        return Err(RedisError::syntax("syntax error"));
    }
    let mut t: usize = at;
    let approximate: bool = is_text(&argv[t], "~");
    if approximate || is_text(&argv[t], "=") {
        t = t + 1;
        if t >= argc {
            return Err(RedisError::syntax("syntax error"));
        }
    }
    let strategy: TrimStrategy = if is_maxlen {
        match parse_strict_i64(&argv[t]) {
            Err(e) => return Err(e),
            Ok(n) => {
                if n < 0 {
                    return Err(RedisError::syntax("MAXLEN argument must be >= 0"));
                }
                TrimStrategy::MaxLen { target: n as u64, approximate, limit: None }
            },
        }
    } else {
        match parse_explicit_id(&argv[t]) {
            Err(e) => return Err(e),
            Ok(min) => TrimStrategy::MinId { min, approximate, limit: None },
        }
    };
    if t + 1 < argc && word(&argv[t + 1], "LIMIT") {
        if !approximate {
            return Err(
                RedisError::syntax(
                    "syntax error, LIMIT cannot be used without the special ~ option",
                ),
            );
        }
        if t + 2 >= argc {
            return Err(RedisError::syntax("syntax error"));
        }
        match parse_strict_i64(&argv[t + 2]) {
            Err(e) => Err(e),
            Ok(n) => {
                if n < 0 {
                    return Err(RedisError::syntax("LIMIT argument must be >= 0"));
                }
                Ok((strategy.with_limit(Some(n as u64)), t + 3))
            },
        }
    } else {
        Ok((strategy, t + 1))
    }
}

/// The options of an XADD.
#[derive(Clone, Copy, PartialEq, Eq, Structural, Debug)]
pub struct AddOptions {
    pub no_mkstream: bool,
    pub trim: TrimStrategy,
}

/// The options of an XADD from position `i` on, and where they end.
pub open spec fn add_options(argv: Seq<Seq<u8>>, i: int, acc: AddOptions) -> Result<
    (AddOptions, int),
    ErrV,
>
    decreases argv.len() - i,
{
    if i < 0 || i >= argv.len() {
        Ok((acc, i))
    } else if is_word(argv[i], "NOMKSTREAM"@) {
        add_options(argv, i + 1, AddOptions { no_mkstream: true, ..acc })
    } else if is_word(argv[i], "MAXLEN"@) || is_word(argv[i], "MINID"@) {
        match trim_clause(argv, i + 1, is_word(argv[i], "MAXLEN"@)) {
            Err(e) => Err(e),
            Ok((trim, next)) => if next > i {
                add_options(argv, next, AddOptions { trim, ..acc })
            } else {
                Ok((acc, i))
            },
        }
    } else {
        Ok((acc, i))
    }
}

/// Parses the options of an XADD. Gives the position of the ID.
pub fn parse_add_options(argv: &Vec<Vec<u8>>) -> (r: Result<(AddOptions, usize), RedisError>)
    requires
        argv@.len() >= 2,
    ensures
        ({
            let s = add_options(
                views(argv@),
                2,
                AddOptions { no_mkstream: false, trim: TrimStrategy::Keep },
            );
            match r {
                Ok((o, i)) => s == Ok::<_, ErrV>((o, i as int)) && 2 <= i <= argv@.len(),
                Err(e) => s == Err::<(AddOptions, int), _>(e@),
            }
        }),
{
    let ghost all = views(argv@);
    let ghost whole = add_options(
        all,
        2,
        AddOptions { no_mkstream: false, trim: TrimStrategy::Keep },
    );
    let mut opts = AddOptions { no_mkstream: false, trim: TrimStrategy::Keep };
    let argc: usize = argv.len();
    let mut i: usize = 2;
    while i < argc
        invariant_except_break
            whole == add_options(all, i as int, opts),
        invariant
            argc == argv@.len(),
            all == views(argv@),
            whole == add_options(
                all,
                2,
                AddOptions { no_mkstream: false, trim: TrimStrategy::Keep },
            ),
            2 <= i <= argc,
        ensures
            whole == Ok::<_, ErrV>((opts, i as int)),
        decreases argc - i,
    {
        if word(&argv[i], "NOMKSTREAM") {
            opts = AddOptions { no_mkstream: true, trim: opts.trim };
            i = i + 1;
            continue;
        }
        let is_maxlen: bool = word(&argv[i], "MAXLEN");
        if is_maxlen || word(&argv[i], "MINID") {
            match parse_trim_clause(argv, i + 1, is_maxlen) {
                Err(e) => return Err(e),
                Ok((trim, next)) => {
                    opts = AddOptions { no_mkstream: opts.no_mkstream, trim };
                    i = next;
                },
            }
            continue;
        }
        break;
    }
    Ok((opts, i))
}

/// The arguments of an XTRIM from position `start` on.
pub open spec fn trim_args(argv: Seq<Seq<u8>>, start: int) -> Result<TrimStrategy, ErrV> {
    if start >= argv.len() || !(is_word(argv[start], "MAXLEN"@) || is_word(argv[start], "MINID"@)) {
        Err(syntax("syntax error"@))
    } else {
        match trim_clause(argv, start + 1, is_word(argv[start], "MAXLEN"@)) {
            Err(e) => Err(e),
            Ok((t, i)) => if i != argv.len() {
                Err(syntax("syntax error"@))
            } else {
                Ok(t)
            },
        }
    }
}

/// Parses the arguments of an XTRIM from position `start` on.
pub fn parse_trim_args(argv: &Vec<Vec<u8>>, start: usize) -> (r: Result<TrimStrategy, RedisError>)
    ensures
        match r {
            Ok(t) => trim_args(views(argv@), start as int) == Ok::<_, ErrV>(t),
            Err(e) => trim_args(views(argv@), start as int) == Err::<TrimStrategy, _>(e@),
        },
{
    if start >= argv.len() {
        return Err(RedisError::syntax("syntax error"));
    }
    let is_maxlen: bool = word(&argv[start], "MAXLEN");
    if !is_maxlen && !word(&argv[start], "MINID") {
        return Err(RedisError::syntax("syntax error"));
    }
    match parse_trim_clause(argv, start + 1, is_maxlen) {
        Err(e) => Err(e),
        Ok((t, i)) => {
            if i != argv.len() {
                return Err(RedisError::syntax("syntax error"));
            }
            Ok(t)
        },
    }
}

/// The options of XREAD and XREADGROUP.
#[derive(Clone, Copy, PartialEq, Eq, Structural, Debug)]
pub struct ReadOptions {
    pub count: Option<i64>,
    pub block_ms: Option<i64>,
    pub noack: bool,
}

/// The options of a read from position `i` on, and the position after STREAMS.
pub open spec fn read_options(
    argv: Seq<Seq<u8>>,
    i: int,
    group: bool,
    acc: ReadOptions,
) -> Result<(ReadOptions, int), ErrV>
    decreases argv.len() - i,
{
    if i < 0 || i >= argv.len() {
        Err(syntax("syntax error"@))
    } else if is_word(argv[i], "COUNT"@) {
        if i + 1 >= argv.len() {
            Err(syntax("syntax error"@))
        } else {
            match strict_i64(argv[i + 1]) {
                Err(e) => Err(e),
                Ok(n) => if n < 0 {
                    Err(syntax("COUNT must be a positive integer"@))
                } else {
                    read_options(argv, i + 2, group, ReadOptions { count: Some(n), ..acc })
                },
            }
        }
    } else if is_word(argv[i], "BLOCK"@) {
        if i + 1 >= argv.len() {
            Err(syntax("syntax error"@))
        } else {
            match strict_i64(argv[i + 1]) {
                Err(e) => Err(e),
                Ok(n) => if n < 0 {
                    Err(runtime("ERR timeout is negative"@))
                } else {
                    read_options(argv, i + 2, group, ReadOptions { block_ms: Some(n), ..acc })
                },
            }
        }
    } else if group && is_word(argv[i], "NOACK"@) {
        read_options(argv, i + 1, group, ReadOptions { noack: true, ..acc })
    } else if is_word(argv[i], "STREAMS"@) {
        Ok((acc, i + 1))
    } else {
        Err(syntax("syntax error"@))
    }
}

/// Parses the options of a read. Gives the position after STREAMS.
pub fn parse_read_options(argv: &Vec<Vec<u8>>, start: usize, group: bool) -> (r: Result<
    (ReadOptions, usize),
    RedisError,
>)
    requires
        start <= argv@.len(),
    ensures
        ({
            let s = read_options(
                views(argv@),
                start as int,
                group,
                ReadOptions { count: None, block_ms: None, noack: false },
            );
            match r {
                Ok((o, i)) => s == Ok::<_, ErrV>((o, i as int)) && start < i <= argv@.len() && (
                o.count matches Some(n) ==> n >= 0) && (o.block_ms matches Some(n) ==> n >= 0),
                Err(e) => s == Err::<(ReadOptions, int), _>(e@),
            }
        }),
{
    let ghost all = views(argv@);
    let ghost whole = read_options(
        all,
        start as int,
        group,
        ReadOptions { count: None, block_ms: None, noack: false },
    );
    let mut o = ReadOptions { count: None, block_ms: None, noack: false };
    let argc: usize = argv.len();
    let mut i: usize = start;
    while i < argc
        invariant
            argc == argv@.len(),
            all == views(argv@),
            start <= i <= argc,
            whole == read_options(all, i as int, group, o),
            o.count matches Some(n) ==> n >= 0,
            o.block_ms matches Some(n) ==> n >= 0,
            whole == read_options(
                views(argv@),
                start as int,
                group,
                ReadOptions { count: None, block_ms: None, noack: false },
            ),
        decreases argc - i,
    {
        if word(&argv[i], "COUNT") {
            if i + 1 >= argc {
                return Err(RedisError::syntax("syntax error"));
            }
            match parse_strict_i64(&argv[i + 1]) {
                Err(e) => return Err(e),
                Ok(n) => {
                    if n < 0 {
                        return Err(RedisError::syntax("COUNT must be a positive integer"));
                    }
                    o = ReadOptions { count: Some(n), block_ms: o.block_ms, noack: o.noack };
                },
            }
            i = i + 2;
            continue;
        }
        if word(&argv[i], "BLOCK") {
            if i + 1 >= argc {
                return Err(RedisError::syntax("syntax error"));
            }
            match parse_strict_i64(&argv[i + 1]) {
                Err(e) => return Err(e),
                Ok(n) => {
                    if n < 0 {
                        return Err(RedisError::runtime("ERR timeout is negative"));
                    }
                    o = ReadOptions { count: o.count, block_ms: Some(n), noack: o.noack };
                },
            }
            i = i + 2;
            continue;
        }
        if group && word(&argv[i], "NOACK") {
            o = ReadOptions { count: o.count, block_ms: o.block_ms, noack: true };
            i = i + 1;
            continue;
        }
        if word(&argv[i], "STREAMS") {
            return Ok((o, i + 1));
        }
        return Err(RedisError::syntax("syntax error"));
    }
    Err(RedisError::syntax("syntax error"))
}

/// The optional COUNT at the end of XRANGE and XREVRANGE.
pub open spec fn optional_count(argv: Seq<Seq<u8>>, base: int) -> Result<Option<i64>, ErrV> {
    if argv.len() == base {
        Ok(None)
    } else if argv.len() != base + 2 || !is_word(argv[base], "COUNT"@) {
        Err(syntax("syntax error"@))
    } else {
        match strict_i64(argv[base + 1]) {
            Err(e) => Err(e),
            Ok(n) => if n < 0 {
                Err(syntax("COUNT must be a positive integer"@))
            } else {
                Ok(Some(n))
            },
        }
    }
}

/// Parses the optional COUNT at the end of XRANGE and XREVRANGE.
pub fn parse_optional_count(argv: &Vec<Vec<u8>>, base_argc: usize) -> (r: Result<
    Option<i64>,
    RedisError,
>)
    requires
        base_argc <= argv@.len(),
    ensures
        match r {
            Ok(c) => optional_count(views(argv@), base_argc as int) == Ok::<_, ErrV>(c),
            Err(e) => optional_count(views(argv@), base_argc as int) == Err::<Option<i64>, _>(e@),
        },
{
    let argc: usize = argv.len();
    if argc == base_argc {
        return Ok(None);
    }
    if argc - base_argc != 2 {
        return Err(RedisError::syntax("syntax error"));
    }
    if !word(&argv[base_argc], "COUNT") {
        return Err(RedisError::syntax("syntax error"));
    }
    match parse_strict_i64(&argv[base_argc + 1]) {
        Err(e) => Err(e),
        Ok(n) => {
            if n < 0 {
                return Err(RedisError::syntax("COUNT must be a positive integer"));
            }
            Ok(Some(n))
        },
    }
}

} // verus!
