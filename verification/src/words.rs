//! Which words differ: what the laws on options of commands rest on.

use vstd::prelude::*;
use vstd::utf8::{is_ascii_chars, is_ascii_chars_encode_utf8};

use crate::bytes::{is_word, lower, lower_all, text};

verus! {

/// A word has the length of its text and, letters apart in case only, its
/// characters.
pub proof fn lemma_word(a: Seq<u8>, s: Seq<char>)
    requires
        is_ascii_chars(s),
    ensures
        is_word(a, s) ==> a.len() == s.len() && forall|i: int|
            0 <= i < s.len() ==> lower(#[trigger] a[i]) == lower(s[i] as u8),
{
    is_ascii_chars_encode_utf8(s);
    if is_word(a, s) {
        assert(lower_all(a).len() == lower_all(text(s)).len());
        assert forall|i: int| 0 <= i < s.len() implies lower(#[trigger] a[i]) == lower(
            s[i] as u8,
        ) by {
            assert(lower_all(a)[i] == lower_all(text(s))[i]);
            assert(text(s)[i] == s[i] as u8);
        }
    }
}

/// Two words that differ in length, or in a letter, are not the same.
pub proof fn lemma_words_differ(a: Seq<u8>, s: Seq<char>, t: Seq<char>, i: int)
    requires
        is_ascii_chars(s),
        is_ascii_chars(t),
        s.len() != t.len() || (0 <= i < s.len() && lower(s[i] as u8) != lower(t[i] as u8)),
    ensures
        !(is_word(a, s) && is_word(a, t)),
{
    lemma_word(a, s);
    lemma_word(a, t);
    if is_word(a, s) && is_word(a, t) && s.len() == t.len() {
        assert(lower(a[i]) == lower(s[i] as u8));
    }
}

} // verus!
