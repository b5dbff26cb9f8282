//! Replies: the tokens that a command answers with, and their wire form in the
//! second and third version of the protocol.

use vstd::prelude::*;

use crate::bytes::{dec, dup, fmt_i64, lit, put, put_digits, text};

verus! {

/// One token of a reply. An aggregate is its header followed by its elements.
pub enum Reply {
    /// A status line.
    Simple(Vec<u8>),
    /// An error line.
    Error(Vec<u8>),
    /// An integer.
    Int(i64),
    /// A bulk string.
    Bulk(Vec<u8>),
    /// The null bulk string.
    NullBulk,
    /// The null array.
    NullArray,
    /// The header of an array with that many elements.
    Array(u128),
    /// The header of a map with that many pairs.
    Pairs(u64),
    /// The header of an out-of-band message with that many elements.
    Push(u64),
    /// A frame that is already encoded.
    Raw(Vec<u8>),
}

/// What a token says.
#[verifier::ext_equal]
pub enum Tok {
    Simple(Seq<u8>),
    Error(Seq<u8>),
    Int(int),
    Bulk(Seq<u8>),
    NullBulk,
    NullArray,
    Array(nat),
    Pairs(nat),
    Push(nat),
    Raw(Seq<u8>),
}

impl View for Reply {
    type V = Tok;

    open spec fn view(&self) -> Tok {
        match self {
            Reply::Simple(s) => Tok::Simple(s@),
            Reply::Error(s) => Tok::Error(s@),
            Reply::Int(n) => Tok::Int(*n as int),
            Reply::Bulk(s) => Tok::Bulk(s@),
            Reply::NullBulk => Tok::NullBulk,
            Reply::NullArray => Tok::NullArray,
            Reply::Array(n) => Tok::Array(*n as nat),
            Reply::Pairs(n) => Tok::Pairs(*n as nat),
            Reply::Push(n) => Tok::Push(*n as nat),
            Reply::Raw(s) => Tok::Raw(s@),
        }
    }
}

/// What a list of tokens says.
pub open spec fn toks(v: Seq<Reply>) -> Seq<Tok> {
    v.map_values(|r: Reply| r@)
}

/// A list of tokens that grows by one.
pub broadcast proof fn lemma_toks_push(s: Seq<Reply>, r: Reply)
    ensures
        #[trigger] toks(s.push(r)) == toks(s).push(r@),
{
    assert(toks(s.push(r)) =~= toks(s).push(r@));
}

/// Two lists of tokens, one after the other.
pub broadcast proof fn lemma_toks_add(a: Seq<Reply>, b: Seq<Reply>)
    ensures
        #[trigger] toks(a + b) == toks(a) + toks(b),
{
    assert(toks(a + b) =~= toks(a) + toks(b));
}

/// A bulk string that holds a text.
pub open spec fn bulk(s: Seq<char>) -> Tok {
    Tok::Bulk(text(s))
}

/// A status line that holds a text.
pub open spec fn status(s: Seq<char>) -> Tok {
    Tok::Simple(text(s))
}

/// A bulk string, or the null bulk string.
pub open spec fn bulk_or_null(s: Option<Seq<u8>>) -> Tok {
    match s {
        Some(b) => Tok::Bulk(b),
        None => Tok::NullBulk,
    }
}

/// One bulk string per item.
pub open spec fn bulks(items: Seq<Seq<u8>>) -> Seq<Tok> {
    items.map_values(|b: Seq<u8>| Tok::Bulk(b))
}

/// An array of bulk strings.
pub open spec fn bulk_array(items: Seq<Seq<u8>>) -> Seq<Tok> {
    seq![Tok::Array(items.len())] + bulks(items)
}

/// The line end.
pub open spec fn crlf() -> Seq<u8> {
    seq![13u8, 10u8]
}

/// A type byte, a decimal number and the line end.
pub open spec fn header(kind: u8, n: int) -> Seq<u8> {
    seq![kind] + dec(n) + crlf()
}

/// The wire form of a bulk string.
pub open spec fn bulk_frame(s: Seq<u8>) -> Seq<u8> {
    header(36, s.len() as int) + s + crlf()
}

/// The wire form of one token.
pub open spec fn wire(t: Tok, resp3: bool) -> Seq<u8> {
    match t {
        Tok::Simple(s) => seq![43u8] + s + crlf(),
        Tok::Error(s) => seq![45u8] + s + crlf(),
        Tok::Int(n) => header(58, n),
        Tok::Bulk(s) => bulk_frame(s),
        Tok::NullBulk => if resp3 {
            seq![95u8] + crlf()
        } else {
            header(36, -1)
        },
        Tok::NullArray => if resp3 {
            seq![95u8] + crlf()
        } else {
            header(42, -1)
        },
        Tok::Array(n) => header(42, n as int),
        Tok::Pairs(n) => if resp3 {
            header(37, n as int)
        } else {
            header(42, 2 * n as int)
        },
        Tok::Push(n) => if resp3 {
            header(62, n as int)
        } else {
            header(42, n as int)
        },
        Tok::Raw(s) => s,
    }
}

/// The wire form of a list of tokens.
pub open spec fn wire_all(ts: Seq<Tok>, resp3: bool) -> Seq<u8>
    decreases ts.len(),
{
    if ts.len() == 0 {
        Seq::empty()
    } else {
        wire_all(ts.drop_last(), resp3) + wire(ts.last(), resp3)
    }
}

/// Appends the line end.
pub fn put_crlf(buf: &mut Vec<u8>)
    ensures
        final(buf)@ == old(buf)@ + crlf(),
{
    buf.push(13);
    buf.push(10);
    assert(buf@ =~= old(buf)@ + crlf());
}

/// Appends a type byte, a decimal number and the line end.
pub fn put_header(buf: &mut Vec<u8>, kind: u8, n: i64)
    ensures
        final(buf)@ == old(buf)@ + header(kind, n as int),
{
    let num: Vec<u8> = fmt_i64(n);
    buf.push(kind);
    put(buf, &num);
    put_crlf(buf);
    assert(buf@ =~= old(buf)@ + header(kind, n as int));
}

/// Appends a type byte, a count and the line end.
pub fn put_count(buf: &mut Vec<u8>, kind: u8, n: u128)
    ensures
        final(buf)@ == old(buf)@ + header(kind, n as int),
{
    buf.push(kind);
    put_digits(buf, n);
    put_crlf(buf);
    assert(buf@ =~= old(buf)@ + header(kind, n as int));
}

/// Appends the wire form of a bulk string.
pub fn put_bulk(buf: &mut Vec<u8>, s: &[u8])
    ensures
        final(buf)@ == old(buf)@ + bulk_frame(s@),
{
    put_count(buf, 36, s.len() as u128);
    put(buf, s);
    put_crlf(buf);
    assert(buf@ =~= old(buf)@ + bulk_frame(s@));
}

/// Appends the wire form of a token.
fn put_reply(buf: &mut Vec<u8>, r: &Reply, resp3: bool)
    ensures
        final(buf)@ == old(buf)@ + wire(r@, resp3),
{
    match r {
        Reply::Simple(s) => {
            buf.push(43);
            put(buf, s);
            put_crlf(buf);
            assert(buf@ =~= old(buf)@ + wire(r@, resp3));
        },
        Reply::Error(s) => {
            buf.push(45);
            put(buf, s);
            put_crlf(buf);
            assert(buf@ =~= old(buf)@ + wire(r@, resp3));
        },
        Reply::Int(n) => put_header(buf, 58, *n),
        Reply::Bulk(s) => put_bulk(buf, s),
        Reply::NullBulk => {
            if resp3 {
                buf.push(95);
                put_crlf(buf);
                assert(buf@ =~= old(buf)@ + wire(r@, resp3));
            } else {
                put_header(buf, 36, -1);
            }
        },
        Reply::NullArray => {
            if resp3 {
                buf.push(95);
                put_crlf(buf);
                assert(buf@ =~= old(buf)@ + wire(r@, resp3));
            } else {
                put_header(buf, 42, -1);
            }
        },
        Reply::Array(n) => put_count(buf, 42, *n),
        Reply::Pairs(n) => {
            if resp3 {
                put_count(buf, 37, *n as u128);
            } else {
                put_count(buf, 42, 2 * (*n as u128));
            }
        },
        Reply::Push(n) => {
            if resp3 {
                put_count(buf, 62, *n as u128);
            } else {
                put_count(buf, 42, *n as u128);
            }
        },
        Reply::Raw(s) => put(buf, s),
    }
}

/// The wire form of a reply.
pub fn encode_replies(replies: &[Reply], resp3: bool) -> (r: Vec<u8>)
    ensures
        r@ == wire_all(toks(replies@), resp3),
{
    let mut r: Vec<u8> = Vec::new();
    let mut i: usize = 0;
    while i < replies.len()
        invariant
            i <= replies@.len(),
            r@ == wire_all(toks(replies@).take(i as int), resp3),
        decreases replies@.len() - i,
    {
        put_reply(&mut r, &replies[i], resp3);
        assert(toks(replies@).take(i + 1).drop_last() =~= toks(replies@).take(i as int));
        i += 1;
    }
    assert(toks(replies@).take(replies@.len() as int) =~= toks(replies@));
    r
}

/// A bulk string that holds a text.
pub fn bulk_text(s: &str) -> (r: Reply)
    ensures
        r@ == bulk(s@),
{
    Reply::Bulk(lit(s))
}

/// A status line that holds a text.
pub fn status_text(s: &str) -> (r: Reply)
    ensures
        r@ == status(s@),
{
    Reply::Simple(lit(s))
}

/// Appends an array of bulk strings.
pub fn put_bulk_array(out: &mut Vec<Reply>, items: &[Vec<u8>])
    ensures
        toks(final(out)@) == toks(old(out)@) + bulk_array(crate::bytes::views(items@)),
{
    let ghost start = toks(out@);
    let ghost all = crate::bytes::views(items@);
    proof {
        lemma_toks_push(out@, Reply::Array(items.len() as u128));
    }
    out.push(Reply::Array(items.len() as u128));
    let mut i: usize = 0;
    while i < items.len()
        invariant
            i <= items@.len(),
            all == crate::bytes::views(items@),
            toks(out@) =~= start + seq![Tok::Array(all.len())] + bulks(all.take(i as int)),
        decreases items@.len() - i,
    {
        let ghost before = out@;
        out.push(Reply::Bulk(dup(&items[i])));
        proof {
            lemma_toks_push(before, out@.last());
        }
        assert(bulks(all.take(i + 1)) =~= bulks(all.take(i as int)).push(Tok::Bulk(all[i as int])));
        i += 1;
    }
    assert(all.take(all.len() as int) =~= all);
    assert(toks(out@) =~= start + bulk_array(all));
}

} // verus!
