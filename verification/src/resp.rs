//! Requests on the wire: how a command is written, and how requests are read
//! from a stream that may end in the middle of one.

use vstd::prelude::*;

use crate::bytes::{
    dec, find, find_byte, i64_of, law_decimal_round_trip, lemma_digits_read_back, lemma_views_push,
    parse_i64, slice, views,
};
use crate::reply::{bulk_frame, header, put_bulk, put_count};

verus! {

broadcast use lemma_views_push;

/// The most arguments that a request may have.
pub const MAX_REQUEST_ARGS: i64 = 2147483647;

/// The longest argument that a request may have, in bytes.
pub const MAX_REQUEST_BULK: i64 = 536870912;

// ---------------------------------------------------------------------------
// Writing
// ---------------------------------------------------------------------------

/// The wire forms of some bulk strings, one after the other.
pub open spec fn bulk_frames(args: Seq<Seq<u8>>) -> Seq<u8>
    decreases args.len(),
{
    if args.len() == 0 {
        Seq::empty()
    } else {
        bulk_frames(args.drop_last()) + bulk_frame(args.last())
    }
}

/// The wire form of a command.
pub open spec fn command_frame(args: Seq<Seq<u8>>) -> Seq<u8> {
    header(42, args.len() as int) + bulk_frames(args)
}

/// Appends the wire form of a command.
pub fn append_resp_command(out: &mut Vec<u8>, args: &[Vec<u8>])
    ensures
        final(out)@ == old(out)@ + command_frame(views(args@)),
{
    let ghost all = views(args@);
    let ghost first = out@;
    put_count(out, 42, args.len() as u128);
    let ghost head = out@;
    let mut i: usize = 0;
    assert(head =~= head + bulk_frames(all.take(0)));
    while i < args.len()
        invariant
            i <= args@.len(),
            all == views(args@),
            out@ == head + bulk_frames(all.take(i as int)),
        decreases args@.len() - i,
    {
        put_bulk(out, &args[i]);
        proof {
            assert(all.take(i + 1).drop_last() =~= all.take(i as int));
            assert(out@ =~= head + bulk_frames(all.take(i + 1)));
        }
        i += 1;
    }
    assert(all.take(i as int) =~= all);
    assert(out@ =~= first + command_frame(all));
}

/// The wire form of a command.
pub fn encode_resp_command(args: &[Vec<u8>]) -> (r: Vec<u8>)
    ensures
        r@ == command_frame(views(args@)),
{
    let mut r: Vec<u8> = Vec::new();
    append_resp_command(&mut r, args);
    assert(r@ =~= command_frame(views(args@)));
    r
}

// ---------------------------------------------------------------------------
// Reading
// ---------------------------------------------------------------------------

/// The position of the first line end at or after `from`.
pub open spec fn line_end(s: Seq<u8>, from: int) -> Option<int>
    decreases s.len() - from,
{
    if from < 0 || from + 1 >= s.len() {
        None
    } else if s[from] == 13 && s[from + 1] == 10 {
        Some(from)
    } else {
        line_end(s, from + 1)
    }
}

/// The position of the first line end at or after `from`.
pub fn find_crlf(s: &[u8], from: usize) -> (r: Option<usize>)
    requires
        from <= s@.len(),
    ensures
        match r {
            Some(i) => line_end(s@, from as int) == Some(i as int) && from <= i && i + 1
                < s@.len(),
            None => line_end(s@, from as int) is None,
        },
{
    let mut i: usize = from;
    while s.len() - i >= 2
        invariant
            from <= i <= s@.len(),
            line_end(s@, from as int) == line_end(s@, i as int),
        decreases s@.len() - i,
    {
        if s[i] == 13 && s[i + 1] == 10 {
            return Some(i);
        }
        i += 1;
    }
    None
}

/// A bulk string at a position: what it holds and where it ends; nothing yet
/// where it is not complete; an error where it is malformed.
pub open spec fn bulk_at(s: Seq<u8>, pos: int) -> Result<Option<(Seq<u8>, int)>, ()> {
    if pos >= s.len() {
        Ok(None)
    } else if s[pos] != 36 {
        Err(())
    } else {
        match line_end(s, pos + 1) {
            None => Ok(None),
            Some(e) => match i64_of(s.subrange(pos + 1, e)) {
                None => Err(()),
                Some(n) => if n < 0 || n > MAX_REQUEST_BULK {
                    Err(())
                } else if e + 2 + n + 2 > s.len() {
                    Ok(None)
                } else if s[e + 2 + n] != 13 || s[e + 3 + n] != 10 {
                    Err(())
                } else {
                    Ok(Some((s.subrange(e + 2, e + 2 + n), e + 4 + n)))
                },
            },
        }
    }
}

/// The `n` bulk strings from a position on, after those in `acc`.
pub open spec fn bulks_at(s: Seq<u8>, pos: int, n: int, acc: Seq<Seq<u8>>) -> Result<
    Option<(Seq<Seq<u8>>, int)>,
    (),
>
    decreases n,
{
    if n <= 0 {
        Ok(Some((acc, pos)))
    } else {
        match bulk_at(s, pos) {
            Err(_) => Err(()),
            Ok(None) => Ok(None),
            Ok(Some((arg, next))) => bulks_at(s, next, n - 1, acc.push(arg)),
        }
    }
}

/// Whether a byte separates words.
pub open spec fn is_blank(b: u8) -> bool {
    b == 32 || b == 9
}

/// The words of a line from a position on, after those in `acc`; `cur` is the
/// word that reaches to the position.
pub open spec fn words_from(s: Seq<u8>, i: int, cur: Seq<u8>, acc: Seq<Seq<u8>>) -> Seq<Seq<u8>>
    decreases s.len() - i,
{
    if i < 0 || i >= s.len() {
        if cur.len() > 0 {
            acc.push(cur)
        } else {
            acc
        }
    } else if is_blank(s[i]) {
        if cur.len() > 0 {
            words_from(s, i + 1, Seq::empty(), acc.push(cur))
        } else {
            words_from(s, i + 1, Seq::empty(), acc)
        }
    } else {
        words_from(s, i + 1, cur.push(s[i]), acc)
    }
}

/// The words of a line.
pub open spec fn words_of(line: Seq<u8>) -> Seq<Seq<u8>> {
    words_from(line, 0, Seq::empty(), Seq::empty())
}

/// A line without the carriage return at its end.
pub open spec fn without_cr(line: Seq<u8>) -> Seq<u8> {
    if line.len() > 0 && line.last() == 13 {
        line.drop_last()
    } else {
        line
    }
}

/// The first request of a stream: its arguments and its length; nothing yet
/// where it is not complete; an error where it is malformed. A request is an
/// array of bulk strings, or a line of words.
pub open spec fn request(s: Seq<u8>) -> Result<Option<(Seq<Seq<u8>>, int)>, ()> {
    if s.len() == 0 {
        Ok(None)
    } else if s[0] == 42 {
        match line_end(s, 1) {
            None => Ok(None),
            Some(e) => match i64_of(s.subrange(1, e)) {
                None => Err(()),
                Some(n) => if n > MAX_REQUEST_ARGS {
                    Err(())
                } else {
                    bulks_at(s, e + 2, n as int, Seq::empty())
                },
            },
        }
    } else {
        match find_byte(s, 10, 0) {
            None => Ok(None),
            Some(e) => Ok(Some((words_of(without_cr(s.take(e))), e + 1))),
        }
    }
}

/// What reading an argument or a request came to.
pub open spec fn read_view(r: Result<Option<(Vec<Vec<u8>>, usize)>, ()>) -> Result<
    Option<(Seq<Seq<u8>>, int)>,
    (),
> {
    match r {
        Ok(Some(p)) => Ok(Some((views(p.0@), p.1 as int))),
        Ok(None) => Ok(None),
        Err(_) => Err(()),
    }
}

/// Reads a bulk string at a position.
fn read_bulk_at(s: &[u8], pos: usize) -> (r: Result<Option<(Vec<u8>, usize)>, ()>)
    requires
        pos <= s@.len(),
    ensures
        match r {
            Ok(Some(p)) => bulk_at(s@, pos as int) == Ok::<_, ()>(Some((p.0@, p.1 as int))) && pos
                < p.1 <= s@.len(),
            Ok(None) => bulk_at(s@, pos as int) == Ok::<Option<(Seq<u8>, int)>, ()>(None),
            Err(_) => bulk_at(s@, pos as int) is Err,
        },
{
    let len: usize = s.len();
    if pos >= len {
        return Ok(None);
    }
    if s[pos] != 36 {
        return Err(());
    }
    let e: usize = match find_crlf(s, pos + 1) {
        None => return Ok(None),
        Some(e) => e,
    };
    let num: Vec<u8> = slice(s, pos + 1, e);
    let n: i64 = match parse_i64(&num) {
        None => return Err(()),
        Some(n) => n,
    };
    if n < 0 || n > MAX_REQUEST_BULK {
        return Err(());
    }
    if e as u128 + 4 + n as u128 > len as u128 {
        return Ok(None);
    }
    let n: usize = n as usize;
    if s[e + 2 + n] != 13 || s[e + 3 + n] != 10 {
        return Err(());
    }
    Ok(Some((slice(s, e + 2, e + 2 + n), e + 4 + n)))
}

/// Reads `n` bulk strings from a position on.
fn read_bulks_at(s: &[u8], pos: usize, n: i64) -> (r: Result<Option<(Vec<Vec<u8>>, usize)>, ()>)
    requires
        pos <= s@.len(),
    ensures
        read_view(r) == bulks_at(s@, pos as int, n as int, Seq::empty()),
        match r {
            Ok(Some(p)) => pos <= p.1 <= s@.len(),
            _ => true,
        },
{
    let ghost whole = bulks_at(s@, pos as int, n as int, Seq::empty());
    let mut args: Vec<Vec<u8>> = Vec::new();
    let mut at: usize = pos;
    let mut left: i64 = n;
    assert(views(args@) =~= Seq::empty());
    while left > 0
        invariant
            pos <= at <= s@.len(),
            whole == bulks_at(s@, pos as int, n as int, Seq::empty()),
            whole == bulks_at(s@, at as int, left as int, views(args@)),
        decreases left,
    {
        match read_bulk_at(s, at) {
            Err(_) => return Err(()),
            Ok(None) => return Ok(None),
            Ok(Some(p)) => {
                let (arg, next) = p;
                args.push(arg);
                at = next;
            },
        }
        left -= 1;
    }
    Ok(Some((args, at)))
}

/// The words of a line.
fn split_words(line: &[u8]) -> (r: Vec<Vec<u8>>)
    ensures
        views(r@) == words_of(line@),
{
    let mut r: Vec<Vec<u8>> = Vec::new();
    let mut cur: Vec<u8> = Vec::new();
    let mut i: usize = 0;
    assert(views(r@) =~= Seq::empty());
    assert(cur@ =~= Seq::empty());
    while i < line.len()
        invariant
            i <= line@.len(),
            words_of(line@) == words_from(line@, i as int, cur@, views(r@)),
        decreases line@.len() - i,
    {
        let b: u8 = line[i];
        if b == 32 || b == 9 {
            if cur.len() > 0 {
                r.push(cur);
            }
            cur = Vec::new();
            assert(cur@ =~= Seq::empty());
        } else {
            cur.push(b);
        }
        i += 1;
    }
    if cur.len() > 0 {
        r.push(cur);
    }
    r
}

/// Reads the first request of a stream.
pub fn parse_inline_or_multibulk(s: &[u8]) -> (r: Result<Option<(Vec<Vec<u8>>, usize)>, ()>)
    ensures
        read_view(r) == request(s@),
        match r {
            Ok(Some(p)) => 0 < p.1 <= s@.len(),
            _ => true,
        },
{
    if s.len() == 0 {
        return Ok(None);
    }
    if s[0] == 42 {
        let e: usize = match find_crlf(s, 1) {
            None => return Ok(None),
            Some(e) => e,
        };
        let num: Vec<u8> = slice(s, 1, e);
        match parse_i64(&num) {
            None => Err(()),
            Some(n) => {
                if n > MAX_REQUEST_ARGS {
                    return Err(());
                }
                read_bulks_at(s, e + 2, n)
            },
        }
    } else {
        match find(s, 10, 0) {
            None => Ok(None),
            Some(e) => {
                let end: usize = if e > 0 && s[e - 1] == 13 { e - 1 } else { e };
                let line: Vec<u8> = slice(s, 0, end);
                assert(line@ =~= without_cr(s@.take(e as int)));
                Ok(Some((split_words(&line), e + 1)))
            },
        }
    }
}

// ---------------------------------------------------------------------------
// What is written is read back
// ---------------------------------------------------------------------------

/// No line end starts where no byte is a carriage return.
proof fn lemma_line_end_skips(s: Seq<u8>, from: int, to: int)
    requires
        0 <= from <= to <= s.len(),
        forall|j: int| from <= j < to ==> s[j] != 13,
    ensures
        line_end(s, from) == line_end(s, to),
    decreases to - from,
{
    if from < to {
        lemma_line_end_skips(s, from + 1, to);
        if from + 1 >= s.len() {
            assert(line_end(s, to) is None);
        }
    }
}

/// The decimal text of a count is digits, and denotes it.
proof fn lemma_count_text(n: int)
    requires
        0 <= n <= i64::MAX,
    ensures
        i64_of(dec(n)) == Some(n as i64),
        dec(n).len() > 0,
        forall|j: int| 0 <= j < dec(n).len() ==> 48 <= #[trigger] dec(n)[j] <= 57,
{
    law_decimal_round_trip(n as i64, 0);
    lemma_digits_read_back(n as nat);
}

/// Where a header stands in a stream, its line end is found and its number is
/// read.
pub proof fn lemma_header_read(s: Seq<u8>, pos: int, kind: u8, n: int)
    requires
        0 <= n <= i64::MAX,
        0 <= pos,
        pos + header(kind, n).len() <= s.len(),
        s.subrange(pos, pos + header(kind, n).len()) == header(kind, n),
    ensures
        s[pos] == kind,
        line_end(s, pos + 1) == Some(pos + 1 + dec(n).len() as int),
        i64_of(s.subrange(pos + 1, pos + 1 + dec(n).len() as int)) == Some(n as i64),
        header(kind, n).len() == 3 + dec(n).len(),
{
    let h = header(kind, n);
    let d = dec(n);
    lemma_count_text(n);
    assert(h.len() == 3 + d.len());
    assert(forall|j: int| 0 <= j < h.len() ==> s[pos + j] == h[j]) by {
        assert forall|j: int| 0 <= j < h.len() implies s[pos + j] == h[j] by {
            assert(s.subrange(pos, pos + h.len())[j] == h[j]);
        }
    }
    assert(h[0] == kind);
    assert forall|j: int| pos + 1 <= j < pos + 1 + d.len() implies s[j] != 13 by {
        assert(s[pos + (j - pos)] == h[j - pos]);
        assert(h[j - pos] == d[j - pos - 1]);
    }
    lemma_line_end_skips(s, pos + 1, pos + 1 + d.len() as int);
    assert(s[pos + (1 + d.len())] == h[1 + d.len() as int]);
    assert(s[pos + (2 + d.len())] == h[2 + d.len() as int]);
    assert(h[1 + d.len() as int] == 13);
    assert(h[2 + d.len() as int] == 10);
    assert(s.subrange(pos + 1, pos + 1 + d.len() as int) =~= d) by {
        assert forall|j: int| 0 <= j < d.len() implies s[pos + 1 + j] == d[j] by {
            assert(s[pos + (1 + j)] == h[1 + j]);
        }
    }
}

/// Where a header is cut off, no line end is found.
proof fn lemma_header_cut(s: Seq<u8>, pos: int, kind: u8, n: int)
    requires
        0 <= n <= i64::MAX,
        0 <= pos < s.len(),
        s.len() < pos + header(kind, n).len(),
        s.skip(pos) == header(kind, n).take(s.len() - pos),
    ensures
        s[pos] == kind,
        line_end(s, pos + 1) is None,
{
    let h = header(kind, n);
    let d = dec(n);
    lemma_count_text(n);
    assert(forall|j: int| pos <= j < s.len() ==> s[j] == h[j - pos]) by {
        assert forall|j: int| pos <= j < s.len() implies s[j] == h[j - pos] by {
            assert(s.skip(pos)[j - pos] == h.take(s.len() - pos)[j - pos]);
        }
    }
    assert(h[0] == kind);
    let last = if pos + 1 + d.len() < s.len() {
        pos + 1 + d.len() as int
    } else {
        s.len() as int
    };
    assert forall|j: int| pos + 1 <= j < last implies s[j] != 13 by {
        assert(h[j - pos] == d[j - pos - 1]);
    }
    lemma_line_end_skips(s, pos + 1, last);
}

/// A bulk string is read back where it stands in a stream.
proof fn lemma_bulk_read(s: Seq<u8>, pos: int, a: Seq<u8>)
    requires
        a.len() <= MAX_REQUEST_BULK,
        0 <= pos,
        pos + bulk_frame(a).len() <= s.len(),
        s.subrange(pos, pos + bulk_frame(a).len()) == bulk_frame(a),
    ensures
        bulk_at(s, pos) == Ok::<_, ()>(Some((a, pos + bulk_frame(a).len() as int))),
{
    let f = bulk_frame(a);
    let h = header(36, a.len() as int);
    assert(forall|j: int| 0 <= j < f.len() ==> s[pos + j] == f[j]) by {
        assert forall|j: int| 0 <= j < f.len() implies s[pos + j] == f[j] by {
            assert(s.subrange(pos, pos + f.len())[j] == f[j]);
        }
    }
    assert(s.subrange(pos, pos + h.len()) =~= h) by {
        assert forall|j: int| 0 <= j < h.len() implies s[pos + j] == h[j] by {
            assert(f[j] == h[j]);
        }
    }
    lemma_header_read(s, pos, 36, a.len() as int);
    let e = pos + 1 + dec(a.len() as int).len();
    assert(f.len() == h.len() + a.len() + 2);
    assert(s.subrange(e + 2, e + 2 + a.len()) =~= a) by {
        assert forall|j: int| 0 <= j < a.len() implies s[e + 2 + j] == a[j] by {
            assert(s[pos + (h.len() + j)] == f[h.len() + j]);
            assert(f[h.len() + j] == a[j]);
        }
    }
    assert(s[pos + (h.len() + a.len())] == f[(h.len() + a.len()) as int]);
    assert(s[pos + (h.len() + a.len() + 1)] == f[(h.len() + a.len() + 1) as int]);
}

/// A bulk string that is cut off is not read yet.
proof fn lemma_bulk_cut(s: Seq<u8>, pos: int, a: Seq<u8>)
    requires
        a.len() <= MAX_REQUEST_BULK,
        0 <= pos <= s.len(),
        s.len() < pos + bulk_frame(a).len(),
        s.skip(pos) == bulk_frame(a).take(s.len() - pos),
    ensures
        bulk_at(s, pos) == Ok::<Option<(Seq<u8>, int)>, ()>(None),
{
    let f = bulk_frame(a);
    let h = header(36, a.len() as int);
    assert(forall|j: int| pos <= j < s.len() ==> s[j] == f[j - pos]) by {
        assert forall|j: int| pos <= j < s.len() implies s[j] == f[j - pos] by {
            assert(s.skip(pos)[j - pos] == f.take(s.len() - pos)[j - pos]);
        }
    }
    if pos < s.len() {
        if s.len() < pos + h.len() {
            assert(s.skip(pos) =~= h.take(s.len() - pos)) by {
                assert forall|j: int| 0 <= j < s.len() - pos implies s.skip(pos)[j] == h[j] by {
                    assert(f[j] == h[j]);
                }
            }
            lemma_header_cut(s, pos, 36, a.len() as int);
        } else {
            assert(s.subrange(pos, pos + h.len()) =~= h) by {
                assert forall|j: int| 0 <= j < h.len() implies s[pos + j] == h[j] by {
                    assert(f[j] == h[j]);
                }
            }
            lemma_header_read(s, pos, 36, a.len() as int);
        }
    }
}

/// The frames of the first arguments start the frames of all.
proof fn lemma_frames_prefix(args: Seq<Seq<u8>>, i: int)
    requires
        0 <= i < args.len(),
    ensures
        bulk_frames(args.take(i + 1)) == bulk_frames(args.take(i)) + bulk_frame(args[i]),
        bulk_frames(args.take(i + 1)).len() <= bulk_frames(args).len(),
        bulk_frames(args).take(bulk_frames(args.take(i + 1)).len() as int) == bulk_frames(
            args.take(i + 1),
        ),
    decreases args.len() - i,
{
    assert(args.take(i + 1).drop_last() =~= args.take(i));
    assert(args.take(i + 1).last() == args[i]);
    if i + 1 == args.len() {
        assert(args.take(i + 1) =~= args);
        assert(bulk_frames(args).take(bulk_frames(args).len() as int) =~= bulk_frames(args));
    } else {
        lemma_frames_prefix(args, i + 1);
        let small = bulk_frames(args.take(i + 1));
        let large = bulk_frames(args.take(i + 2));
        assert(large.take(small.len() as int) =~= small);
        assert(bulk_frames(args).take(small.len() as int) =~= bulk_frames(args).take(
            large.len() as int,
        ).take(small.len() as int));
    }
}

/// Where the frames of some arguments stand in a stream, the arguments from the
/// `i`th on are read back; where they are cut off, nothing is read yet.
proof fn lemma_bulks_read(s: Seq<u8>, pos: int, args: Seq<Seq<u8>>, i: int)
    requires
        0 <= pos <= s.len(),
        0 <= i <= args.len(),
        forall|j: int| 0 <= j < args.len() ==> (#[trigger] args[j]).len() <= MAX_REQUEST_BULK,
        pos + bulk_frames(args.take(i)).len() <= s.len(),
        s.len() >= pos + bulk_frames(args).len() ==> s.subrange(
            pos,
            pos + bulk_frames(args).len(),
        ) == bulk_frames(args),
        s.len() < pos + bulk_frames(args).len() ==> s.skip(pos) == bulk_frames(args).take(
            s.len() - pos,
        ),
    ensures
        bulks_at(s, pos + bulk_frames(args.take(i)).len(), args.len() - i, args.take(i)) == (if s.len()
            >= pos + bulk_frames(args).len() {
            Ok::<_, ()>(Some((args, pos + bulk_frames(args).len() as int)))
        } else {
            Ok::<Option<(Seq<Seq<u8>>, int)>, ()>(None)
        }),
    decreases args.len() - i,
{
    if i == args.len() {
        assert(args.take(i) =~= args);
    } else {
        let all = bulk_frames(args);
        let from = bulk_frames(args.take(i)).len() as int;
        let f = bulk_frame(args[i]);
        lemma_frames_prefix(args, i);
        let upto = bulk_frames(args.take(i + 1));
        assert(forall|j: int| 0 <= j < all.len() && pos + j < s.len() ==> s[pos + j] == all[j]) by {
            assert forall|j: int| 0 <= j < all.len() && pos + j < s.len() implies s[pos + j]
                == all[j] by {
                if s.len() >= pos + all.len() {
                    assert(s.subrange(pos, pos + all.len())[j] == all[j]);
                } else {
                    assert(s.skip(pos)[j] == all.take(s.len() - pos)[j]);
                }
            }
        }
        assert(forall|j: int| 0 <= j < f.len() ==> all[from + j] == f[j]) by {
            assert forall|j: int| 0 <= j < f.len() implies all[from + j] == f[j] by {
                assert(all.take(upto.len() as int)[from + j] == upto[from + j]);
            }
        }
        if s.len() >= pos + upto.len() {
            assert(s.subrange(pos + from, pos + from + f.len()) =~= f) by {
                assert forall|j: int| 0 <= j < f.len() implies s[pos + from + j] == f[j] by {
                    assert(s[pos + (from + j)] == all[from + j]);
                }
            }
            lemma_bulk_read(s, pos + from, args[i]);
            assert(args.take(i).push(args[i]) =~= args.take(i + 1));
            lemma_bulks_read(s, pos, args, i + 1);
        } else {
            assert(s.skip(pos + from) =~= f.take(s.len() - pos - from)) by {
                assert forall|j: int| 0 <= j < s.len() - pos - from implies s[pos + from + j]
                    == f[j] by {
                    assert(s[pos + (from + j)] == all[from + j]);
                }
            }
            lemma_bulk_cut(s, pos + from, args[i]);
        }
    }
}

/// A command that was written is read back, whatever follows it.
pub proof fn law_request_round_trip(args: Seq<Seq<u8>>, rest: Seq<u8>)
    requires
        args.len() <= MAX_REQUEST_ARGS,
        forall|j: int| 0 <= j < args.len() ==> (#[trigger] args[j]).len() <= MAX_REQUEST_BULK,
    ensures
        request(command_frame(args) + rest) == Ok::<_, ()>(
            Some((args, command_frame(args).len() as int)),
        ),
{
    let s = command_frame(args) + rest;
    let h = header(42, args.len() as int);
    assert(s.subrange(0, h.len() as int) =~= h);
    lemma_header_read(s, 0, 42, args.len() as int);
    let pos = h.len() as int;
    assert(args.take(0) =~= Seq::empty());
    assert(bulk_frames(args.take(0)).len() == 0);
    assert(s.subrange(pos, pos + bulk_frames(args).len()) =~= bulk_frames(args));
    lemma_bulks_read(s, pos, args, 0);
}

/// A command that was cut off anywhere is not read until the rest has come.
pub proof fn law_cut_request_waits(args: Seq<Seq<u8>>, k: int)
    requires
        args.len() <= MAX_REQUEST_ARGS,
        forall|j: int| 0 <= j < args.len() ==> (#[trigger] args[j]).len() <= MAX_REQUEST_BULK,
        0 <= k < command_frame(args).len(),
    ensures
        request(command_frame(args).take(k)) == Ok::<Option<(Seq<Seq<u8>>, int)>, ()>(None),
{
    let whole = command_frame(args);
    let s = whole.take(k);
    let h = header(42, args.len() as int);
    if k == 0 {
    } else if k < h.len() {
        assert(s.skip(0) =~= h.take(k));
        lemma_header_cut(s, 0, 42, args.len() as int);
    } else {
        assert(s.subrange(0, h.len() as int) =~= h);
        lemma_header_read(s, 0, 42, args.len() as int);
        let pos = h.len() as int;
        assert(args.take(0) =~= Seq::empty());
        assert(bulk_frames(args.take(0)).len() == 0);
        assert(s.skip(pos) =~= bulk_frames(args).take(s.len() - pos));
        lemma_bulks_read(s, pos, args, 0);
    }
}

/// A line end stays where it is when more bytes come.
proof fn lemma_line_end_stays(s: Seq<u8>, t: Seq<u8>, from: int)
    requires
        line_end(s, from) is Some,
    ensures
        line_end(s + t, from) == line_end(s, from),
        0 <= from <= line_end(s, from)->0,
        line_end(s, from)->0 + 1 < s.len(),
    decreases s.len() - from,
{
    if !(s[from] == 13 && s[from + 1] == 10) {
        lemma_line_end_stays(s, t, from + 1);
    }
}

/// So does a byte that was found.
proof fn lemma_find_stays(s: Seq<u8>, t: Seq<u8>, b: u8, from: int)
    requires
        0 <= from,
        find_byte(s, b, from) is Some,
    ensures
        find_byte(s + t, b, from) == find_byte(s, b, from),
        from <= find_byte(s, b, from)->0 < s.len(),
    decreases s.len() - from,
{
    if s[from] != b {
        lemma_find_stays(s, t, b, from + 1);
    }
}

proof fn lemma_bulk_stays(s: Seq<u8>, t: Seq<u8>, pos: int)
    requires
        0 <= pos,
        bulk_at(s, pos) is Ok,
        bulk_at(s, pos)->Ok_0 is Some,
    ensures
        bulk_at(s + t, pos) == bulk_at(s, pos),
        pos < bulk_at(s, pos)->Ok_0->Some_0.1 <= s.len(),
{
    lemma_line_end_stays(s, t, pos + 1);
    let e = line_end(s, pos + 1)->0;
    assert((s + t).subrange(pos + 1, e) =~= s.subrange(pos + 1, e));
    let n = i64_of(s.subrange(pos + 1, e))->0;
    assert((s + t).subrange(e + 2, e + 2 + n) =~= s.subrange(e + 2, e + 2 + n));
}

proof fn lemma_bulks_stay(s: Seq<u8>, t: Seq<u8>, pos: int, n: int, acc: Seq<Seq<u8>>)
    requires
        0 <= pos <= s.len(),
        bulks_at(s, pos, n, acc) is Ok,
        bulks_at(s, pos, n, acc)->Ok_0 is Some,
    ensures
        bulks_at(s + t, pos, n, acc) == bulks_at(s, pos, n, acc),
        pos <= bulks_at(s, pos, n, acc)->Ok_0->Some_0.1 <= s.len(),
    decreases n,
{
    if n > 0 {
        lemma_bulk_stays(s, t, pos);
        let (arg, next) = bulk_at(s, pos)->Ok_0->0;
        lemma_bulks_stay(s, t, next, n - 1, acc.push(arg));
    }
}

/// A request that is complete is read in the same way whatever follows it.
pub proof fn law_complete_request_stands(s: Seq<u8>, t: Seq<u8>)
    requires
        request(s) is Ok,
        request(s)->Ok_0 is Some,
    ensures
        request(s + t) == request(s),
        0 < request(s)->Ok_0->Some_0.1 <= s.len(),
{
    assert((s + t)[0] == s[0]);
    if s[0] == 42 {
        lemma_line_end_stays(s, t, 1);
        let e = line_end(s, 1)->0;
        assert((s + t).subrange(1, e) =~= s.subrange(1, e));
        let n = i64_of(s.subrange(1, e))->0;
        lemma_bulks_stay(s, t, e + 2, n as int, Seq::empty());
    } else {
        lemma_find_stays(s, t, 10, 0);
        let e = find_byte(s, 10, 0)->0;
        assert((s + t).take(e) =~= s.take(e));
    }
}

} // verus!
