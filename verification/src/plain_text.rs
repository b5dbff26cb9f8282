//! Text in bytes: whether bytes are text, and the white space around it.

use vstd::prelude::*;
use vstd::utf8::valid_utf8;

use crate::bytes::slice;

verus! {

/// Calls `std::str::from_utf8`, which succeeds exactly on the bytes that are
/// valid UTF-8.
#[verifier::external_body]
pub(crate) fn is_utf8(s: &[u8]) -> (r: bool)
    ensures
        r == valid_utf8(s@),
{
    std::str::from_utf8(s).is_ok()
}

/// The length of the white-space character that a text begins with, or 0.
pub open spec fn space_head(s: Seq<u8>) -> nat {
    if s.len() >= 1 && (9 <= s[0] <= 13 || s[0] == 32) {
        1
    } else if s.len() >= 2 && s[0] == 0xc2 && (s[1] == 0x85 || s[1] == 0xa0) {
        2
    } else if s.len() >= 3 && wide_space(s[0], s[1], s[2]) {
        3
    } else {
        0
    }
}

/// The length of the white-space character that a text ends with, or 0.
pub open spec fn space_tail(s: Seq<u8>) -> nat {
    let n = s.len() as int;
    if n >= 1 && (9 <= s[n - 1] <= 13 || s[n - 1] == 32) {
        1
    } else if n >= 2 && s[n - 2] == 0xc2 && (s[n - 1] == 0x85 || s[n - 1] == 0xa0) {
        2
    } else if n >= 3 && wide_space(s[n - 3], s[n - 2], s[n - 1]) {
        3
    } else {
        0
    }
}

/// The white-space characters of three bytes.
pub open spec fn wide_space(a: u8, b: u8, c: u8) -> bool {
    ||| a == 0xe1 && b == 0x9a && c == 0x80
    ||| a == 0xe2 && b == 0x80 && (0x80 <= c <= 0x8a || c == 0xa8 || c == 0xa9 || c == 0xaf)
    ||| a == 0xe2 && b == 0x81 && c == 0x9f
    ||| a == 0xe3 && b == 0x80 && c == 0x80
}

/// A text without the white space that it begins with.
pub open spec fn trim_start(s: Seq<u8>) -> Seq<u8>
    decreases s.len(),
{
    if space_head(s) == 0 {
        s
    } else {
        trim_start(s.skip(space_head(s) as int))
    }
}

/// A text without the white space that it ends with.
pub open spec fn trim_end(s: Seq<u8>) -> Seq<u8>
    decreases s.len(),
{
    if space_tail(s) == 0 {
        s
    } else {
        trim_end(s.take(s.len() - space_tail(s)))
    }
}

/// A text without the white space around it.
pub open spec fn trim(s: Seq<u8>) -> Seq<u8> {
    trim_end(trim_start(s))
}

/// Whether three bytes are a white-space character.
fn is_wide_space(a: u8, b: u8, c: u8) -> (r: bool)
    ensures
        r == wide_space(a, b, c),
{
    (a == 0xe1 && b == 0x9a && c == 0x80) || (a == 0xe2 && b == 0x80 && ((0x80 <= c && c <= 0x8a)
        || c == 0xa8 || c == 0xa9 || c == 0xaf)) || (a == 0xe2 && b == 0x81 && c == 0x9f) || (a
        == 0xe3 && b == 0x80 && c == 0x80)
}

/// A text without the white space around it.
pub fn trimmed(s: &[u8]) -> (r: Vec<u8>)
    ensures
        r@ == trim(s@),
{
    let n: usize = s.len();
    let ghost whole = trim_start(s@);
    let mut from: usize = 0;
    let mut go: bool = true;
    assert(s@.skip(0) =~= s@);
    while go
        invariant
            n == s@.len(),
            from <= n,
            whole == trim_start(s@),
            whole == trim_start(s@.skip(from as int)),
            !go ==> space_head(s@.skip(from as int)) == 0,
        decreases n - from + (if go { 1int } else { 0int }),
    {
        let ghost t = s@.skip(from as int);
        let left: usize = n - from;
        assert(forall|j: int| 0 <= j < left ==> t[j] == s@[from + j]);
        let k: usize = if left >= 1 && ((9 <= s[from] && s[from] <= 13) || s[from] == 32) {
            1
        } else if left >= 2 && s[from] == 0xc2 && (s[from + 1] == 0x85 || s[from + 1] == 0xa0) {
            2
        } else if left >= 3 && is_wide_space(s[from], s[from + 1], s[from + 2]) {
            3
        } else {
            0
        };
        assert(k == space_head(t));
        if k == 0 {
            go = false;
        } else {
            assert(t.skip(k as int) =~= s@.skip(from + k));
            from += k;
        }
    }
    let ghost start = s@.skip(from as int);
    assert(start == whole);
    let ghost goal = trim_end(start);
    let mut to: usize = n;
    let mut go: bool = true;
    assert(start.take(to - from) =~= start);
    while go
        invariant
            n == s@.len(),
            from <= to <= n,
            start == s@.skip(from as int),
            goal == trim_end(start),
            goal == trim_end(start.take(to - from)),
            !go ==> space_tail(start.take(to - from)) == 0,
        decreases to - from + (if go { 1int } else { 0int }),
    {
        let ghost t = start.take(to - from);
        let left: usize = to - from;
        assert(forall|j: int| 0 <= j < left ==> t[j] == s@[from + j]);
        let k: usize = if left >= 1 && ((9 <= s[to - 1] && s[to - 1] <= 13) || s[to - 1] == 32) {
            1
        } else if left >= 2 && s[to - 2] == 0xc2 && (s[to - 1] == 0x85 || s[to - 1] == 0xa0) {
            2
        } else if left >= 3 && is_wide_space(s[to - 3], s[to - 2], s[to - 1]) {
            3
        } else {
            0
        };
        assert(k == space_tail(t));
        if k == 0 {
            go = false;
        } else {
            assert(t.take(left - k) =~= start.take(to - k - from));
            to -= k;
        }
    }
    let r: Vec<u8> = slice(s, from, to);
    assert(r@ =~= start.take(to - from));
    r
}

} // verus!
