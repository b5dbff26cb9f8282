//! Byte strings: comparison, ASCII case folding, decimal numbers and the
//! lexicographic order that keeps dictionaries sorted.

use vstd::prelude::*;

verus! {

/// The bytes of a text, as UTF-8.
pub open spec fn text(s: Seq<char>) -> Seq<u8> {
    vstd::utf8::encode_utf8(s)
}

/// The contents of a list of byte strings.
pub open spec fn views(v: Seq<Vec<u8>>) -> Seq<Seq<u8>> {
    v.map_values(|b: Vec<u8>| b@)
}

/// The contents of an optional byte string.
pub open spec fn opt_view(o: Option<Vec<u8>>) -> Option<Seq<u8>> {
    match o {
        Some(b) => Some(b@),
        None => None,
    }
}

/// The contents of a list that grows by one.
pub broadcast proof fn lemma_views_push(s: Seq<Vec<u8>>, v: Vec<u8>)
    ensures
        #[trigger] views(s.push(v)) == views(s).push(v@),
{
    assert(views(s.push(v)) =~= views(s).push(v@));
}

/// The bytes of a text, owned.
pub fn lit(s: &str) -> (r: Vec<u8>)
    ensures
        r@ == text(s@),
{
    dup(s.as_bytes())
}

/// An owned copy of a byte string.
pub fn dup(s: &[u8]) -> (r: Vec<u8>)
    ensures
        r@ == s@,
{
    vstd::slice::slice_to_vec(s)
}

/// An owned copy of a list of byte strings.
pub fn dup_all(v: &[Vec<u8>]) -> (r: Vec<Vec<u8>>)
    ensures
        views(r@) == views(v@),
{
    let mut r: Vec<Vec<u8>> = Vec::new();
    let mut i: usize = 0;
    while i < v.len()
        invariant
            i <= v@.len(),
            views(r@) =~= views(v@).take(i as int),
        decreases v@.len() - i,
    {
        let ghost before = r@;
        r.push(dup(&v[i]));
        proof {
            lemma_views_push(before, r@.last());
        }
        i += 1;
    }
    assert(views(v@).take(v@.len() as int) =~= views(v@));
    r
}

/// Appends `s` to `buf`.
pub fn put(buf: &mut Vec<u8>, s: &[u8])
    ensures
        final(buf)@ == old(buf)@ + s@,
{
    let ghost start = buf@;
    let mut i: usize = 0;
    while i < s.len()
        invariant
            i <= s@.len(),
            buf@ =~= start + s@.take(i as int),
        decreases s@.len() - i,
    {
        buf.push(s[i]);
        i += 1;
    }
    assert(s@.take(s@.len() as int) =~= s@);
}

/// Appends a text to `buf`.
pub fn put_text(buf: &mut Vec<u8>, s: &str)
    ensures
        final(buf)@ == old(buf)@ + text(s@),
{
    put(buf, s.as_bytes());
}

/// Whether two byte strings are equal.
pub fn same(a: &[u8], b: &[u8]) -> (r: bool)
    ensures
        r == (a@ == b@),
{
    if a.len() != b.len() {
        return false;
    }
    let mut i: usize = 0;
    while i < a.len()
        invariant
            i <= a@.len(),
            a@.len() == b@.len(),
            forall|j: int| 0 <= j < i ==> a@[j] == b@[j],
        decreases a@.len() - i,
    {
        if a[i] != b[i] {
            assert(a@[i as int] != b@[i as int]);
            return false;
        }
        i += 1;
    }
    assert(a@ =~= b@);
    true
}

/// Whether a byte string is the given text.
pub fn is_text(a: &[u8], s: &str) -> (r: bool)
    ensures
        r == (a@ == text(s@)),
{
    same(a, s.as_bytes())
}

/// The position of the first of `names` that equals `name`, or `names.len()`.
pub fn position_of(names: &[Vec<u8>], name: &[u8]) -> (r: usize)
    ensures
        r <= names@.len(),
        r < names@.len() ==> views(names@)[r as int] == name@,
        forall|j: int| 0 <= j < r ==> views(names@)[j] != name@,
        r < names@.len() <==> views(names@).contains(name@),
{
    let mut i: usize = 0;
    while i < names.len()
        invariant
            i <= names@.len(),
            forall|j: int| 0 <= j < i ==> views(names@)[j] != name@,
        decreases names@.len() - i,
    {
        if same(&names[i], name) {
            assert(views(names@)[i as int] == name@);
            return i;
        }
        i += 1;
    }
    i
}

/// The ASCII lower case of a byte; other bytes are kept.
pub open spec fn lower(b: u8) -> u8 {
    if 65 <= b <= 90 {
        (b + 32) as u8
    } else {
        b
    }
}

/// The ASCII lower case of a byte string.
pub open spec fn lower_all(s: Seq<u8>) -> Seq<u8> {
    s.map_values(|b: u8| lower(b))
}

/// Equality up to ASCII case.
pub open spec fn same_ci(a: Seq<u8>, b: Seq<u8>) -> bool {
    lower_all(a) == lower_all(b)
}

/// Lower-cases one byte.
pub fn ascii_lower(b: u8) -> (r: u8)
    ensures
        r == lower(b),
{
    if 65 <= b && b <= 90 {
        b + 32
    } else {
        b
    }
}

/// Lower-cases a byte string.
pub fn to_lower(s: &[u8]) -> (r: Vec<u8>)
    ensures
        r@ == lower_all(s@),
{
    let mut r: Vec<u8> = Vec::new();
    let mut i: usize = 0;
    while i < s.len()
        invariant
            i <= s@.len(),
            r@ =~= lower_all(s@).take(i as int),
        decreases s@.len() - i,
    {
        r.push(ascii_lower(s[i]));
        i += 1;
    }
    assert(lower_all(s@).take(s@.len() as int) =~= lower_all(s@));
    r
}

/// Equality up to ASCII case.
pub fn eq_ignore_ascii(a: &[u8], b: &[u8]) -> (r: bool)
    ensures
        r == same_ci(a@, b@),
{
    if a.len() != b.len() {
        assert(lower_all(a@).len() != lower_all(b@).len());
        return false;
    }
    let mut i: usize = 0;
    while i < a.len()
        invariant
            i <= a@.len(),
            a@.len() == b@.len(),
            forall|j: int| 0 <= j < i ==> lower(a@[j]) == lower(b@[j]),
        decreases a@.len() - i,
    {
        if ascii_lower(a[i]) != ascii_lower(b[i]) {
            assert(lower_all(a@)[i as int] != lower_all(b@)[i as int]);
            return false;
        }
        i += 1;
    }
    assert(lower_all(a@) =~= lower_all(b@));
    true
}

/// Whether an argument is the given keyword, up to ASCII case.
pub open spec fn is_word(a: Seq<u8>, s: Seq<char>) -> bool {
    same_ci(a, text(s))
}

/// Whether an argument is the given keyword, up to ASCII case.
pub fn word(a: &[u8], s: &str) -> (r: bool)
    ensures
        r == is_word(a@, s@),
{
    eq_ignore_ascii(a, s.as_bytes())
}

/// Equality up to case is an equivalence: reflexive, symmetric, transitive.
pub proof fn law_case_folding_is_an_equivalence(a: Seq<u8>, b: Seq<u8>, c: Seq<u8>)
    ensures
        same_ci(a, a),
        same_ci(a, b) <==> same_ci(b, a),
        same_ci(a, b) && same_ci(b, c) ==> same_ci(a, c),
        same_ci(a, lower_all(a)),
{
    assert(lower_all(lower_all(a)) =~= lower_all(a));
}

/// Whether `s` starts with `p`.
pub open spec fn starts_with(s: Seq<u8>, p: Seq<u8>) -> bool {
    p.len() <= s.len() && s.take(p.len() as int) == p
}

/// Whether `s` starts with `p`.
pub fn has_prefix(s: &[u8], p: &[u8]) -> (r: bool)
    ensures
        r == starts_with(s@, p@),
{
    if s.len() < p.len() {
        return false;
    }
    let mut i: usize = 0;
    while i < p.len()
        invariant
            i <= p@.len() <= s@.len(),
            forall|j: int| 0 <= j < i ==> s@[j] == p@[j],
        decreases p@.len() - i,
    {
        if s[i] != p[i] {
            assert(s@.take(p@.len() as int)[i as int] != p@[i as int]);
            return false;
        }
        i += 1;
    }
    assert(s@.take(p@.len() as int) =~= p@);
    true
}

/// The bytes of `s` from `from` up to but without `to`.
pub fn slice(s: &[u8], from: usize, to: usize) -> (r: Vec<u8>)
    requires
        from <= to <= s@.len(),
    ensures
        r@ == s@.subrange(from as int, to as int),
{
    let mut r: Vec<u8> = Vec::new();
    let mut i: usize = from;
    while i < to
        invariant
            from <= i <= to <= s@.len(),
            r@ =~= s@.subrange(from as int, i as int),
        decreases to - i,
    {
        r.push(s[i]);
        i += 1;
    }
    r
}

/// The position of the first byte `b` in `s` at or after `from`.
pub open spec fn find_byte(s: Seq<u8>, b: u8, from: int) -> Option<int>
    decreases s.len() - from,
{
    if from < 0 || from >= s.len() {
        None
    } else if s[from] == b {
        Some(from)
    } else {
        find_byte(s, b, from + 1)
    }
}

/// The position of the first byte `b` in `s` at or after `from`.
pub fn find(s: &[u8], b: u8, from: usize) -> (r: Option<usize>)
    ensures
        match r {
            Some(i) => find_byte(s@, b, from as int) == Some(i as int) && from <= i < s@.len()
                && s@[i as int] == b,
            None => find_byte(s@, b, from as int) is None,
        },
{
    let mut i: usize = from;
    while i < s.len()
        invariant
            from <= i,
            find_byte(s@, b, from as int) == find_byte(s@, b, i as int),
        decreases s@.len() - i,
    {
        if s[i] == b {
            return Some(i);
        }
        i += 1;
    }
    None
}

// ---------------------------------------------------------------------------
// Decimal numbers
// ---------------------------------------------------------------------------

/// Whether every byte is an ASCII digit.
pub open spec fn all_digits(s: Seq<u8>) -> bool {
    forall|i: int| 0 <= i < s.len() ==> 48 <= #[trigger] s[i] <= 57
}

/// The number that a sequence of digits denotes in base ten.
pub open spec fn digits_value(s: Seq<u8>) -> nat
    decreases s.len(),
{
    if s.len() == 0 {
        0
    } else {
        digits_value(s.drop_last()) * 10 + (s.last() - 48) as nat
    }
}

/// The decimal digits of a number, without leading zeros.
pub open spec fn digits(n: nat) -> Seq<u8>
    decreases n,
{
    if n < 10 {
        seq![(48 + n) as u8]
    } else {
        digits(n / 10).push((48 + n % 10) as u8)
    }
}

/// The decimal text of an integer.
pub open spec fn dec(n: int) -> Seq<u8> {
    if n < 0 {
        seq![45u8] + digits((-n) as nat)
    } else {
        digits(n as nat)
    }
}

/// What an unsigned number text denotes: an optional `+`, then one or more
/// digits, within `0..=u64::MAX`.
pub open spec fn u64_of(s: Seq<u8>) -> Option<u64> {
    let d = if s.len() > 0 && s[0] == 43 {
        s.skip(1)
    } else {
        s
    };
    if d.len() > 0 && all_digits(d) && digits_value(d) <= u64::MAX {
        Some(digits_value(d) as u64)
    } else {
        None
    }
}

/// What a signed number text denotes: an optional `+` or `-`, then one or more
/// digits, within the range of `i64`.
pub open spec fn i64_of(s: Seq<u8>) -> Option<i64> {
    let negative = s.len() > 0 && s[0] == 45;
    let d = if s.len() > 0 && (s[0] == 43 || s[0] == 45) {
        s.skip(1)
    } else {
        s
    };
    if d.len() == 0 || !all_digits(d) {
        None
    } else if negative && digits_value(d) <= -i64::MIN {
        Some((-digits_value(d)) as i64)
    } else if !negative && digits_value(d) <= i64::MAX {
        Some(digits_value(d) as i64)
    } else {
        None
    }
}

proof fn lemma_digits_value_grows(s: Seq<u8>, i: int)
    requires
        0 <= i <= s.len(),
    ensures
        digits_value(s.take(i)) <= digits_value(s) || !all_digits(s),
    decreases s.len() - i,
{
    if all_digits(s) {
        if i == s.len() {
            assert(s.take(i) =~= s);
        } else {
            lemma_digits_value_grows(s, i + 1);
            assert(s.take(i + 1).drop_last() =~= s.take(i));
        }
    }
}

/// Reads the digits from `from` to the end.
fn read_digits(s: &[u8], from: usize) -> (r: Option<u128>)
    requires
        from <= s@.len(),
    ensures
        ({
            let d = s@.skip(from as int);
            match r {
                Some(n) => d.len() > 0 && all_digits(d) && n == digits_value(d) && n <= u64::MAX,
                None => d.len() == 0 || !all_digits(d) || digits_value(d) > u64::MAX,
            }
        }),
{
    let ghost d = s@.skip(from as int);
    if from == s.len() {
        return None;
    }
    let mut n: u128 = 0;
    let mut i: usize = from;
    while i < s.len()
        invariant
            from <= i <= s@.len(),
            d == s@.skip(from as int),
            all_digits(d.take(i - from)),
            n == digits_value(d.take(i - from)),
            n <= u64::MAX,
        decreases s@.len() - i,
    {
        let b: u8 = s[i];
        assert(d[i - from] == b);
        if b < 48 || b > 57 {
            assert(!all_digits(d));
            return None;
        }
        assert(d.take(i - from + 1).drop_last() =~= d.take(i - from));
        assert(d.take(i - from + 1).last() == b);
        n = n * 10 + (b - 48) as u128;
        if n > u64::MAX as u128 {
            proof {
                lemma_digits_value_grows(d, i - from + 1);
            }
            return None;
        }
        i += 1;
    }
    assert(d.take(s@.len() - from) =~= d);
    Some(n)
}

/// Parses an unsigned decimal number.
pub fn parse_u64(s: &[u8]) -> (r: Option<u64>)
    ensures
        r == u64_of(s@),
{
    let from: usize = if s.len() > 0 && s[0] == 43 { 1 } else { 0 };
    assert(from == 0 ==> s@.skip(0) =~= s@);
    match read_digits(s, from) {
        None => None,
        Some(n) => Some(n as u64),
    }
}

/// Parses a signed decimal number.
pub fn parse_i64(s: &[u8]) -> (r: Option<i64>)
    ensures
        r == i64_of(s@),
{
    let negative: bool = s.len() > 0 && s[0] == 45;
    let from: usize = if s.len() > 0 && (s[0] == 43 || s[0] == 45) { 1 } else { 0 };
    assert(from == 0 ==> s@.skip(0) =~= s@);
    match read_digits(s, from) {
        None => None,
        Some(n) => {
            let limit: u128 = if negative { 0x8000_0000_0000_0000 } else { 0x7fff_ffff_ffff_ffff };
            if n > limit {
                None
            } else if negative {
                Some((-(n as i128)) as i64)
            } else {
                Some(n as i64)
            }
        },
    }
}

/// Appends the decimal digits of `n`.
pub fn put_digits(buf: &mut Vec<u8>, n: u128)
    ensures
        final(buf)@ == old(buf)@ + digits(n as nat),
    decreases n,
{
    if n >= 10 {
        put_digits(buf, n / 10);
    }
    let ghost mid = buf@;
    buf.push((48 + n % 10) as u8);
    assert(buf@ =~= old(buf)@ + digits(n as nat));
}

/// The decimal text of an unsigned number.
pub fn fmt_u64(n: u64) -> (r: Vec<u8>)
    ensures
        r@ == dec(n as int),
{
    let mut r: Vec<u8> = Vec::new();
    put_digits(&mut r, n as u128);
    assert(r@ =~= digits(n as nat));
    r
}

/// The decimal text of a signed number.
pub fn fmt_i64(n: i64) -> (r: Vec<u8>)
    ensures
        r@ == dec(n as int),
{
    let mut r: Vec<u8> = Vec::new();
    if n < 0 {
        r.push(45);
        put_digits(&mut r, (-(n as i128)) as u128);
        assert(r@ =~= seq![45u8] + digits((-n) as nat));
    } else {
        put_digits(&mut r, n as u128);
        assert(r@ =~= digits(n as nat));
    }
    r
}

/// The digits of a number denote it, and there is at least one.
pub proof fn lemma_digits_read_back(n: nat)
    ensures
        digits(n).len() > 0,
        all_digits(digits(n)),
        digits_value(digits(n)) == n,
    decreases n,
{
    if n < 10 {
        assert(digits(n).drop_last() =~= Seq::<u8>::empty());
        assert(digits_value(Seq::<u8>::empty()) == 0);
    } else {
        lemma_digits_read_back(n / 10);
        assert(digits(n).drop_last() =~= digits(n / 10));
    }
}

/// Parsing the decimal text of a number gives the number back.
pub proof fn law_decimal_round_trip(n: i64, u: u64)
    ensures
        i64_of(dec(n as int)) == Some(n),
        u64_of(dec(u as int)) == Some(u),
{
    lemma_digits_read_back(u as nat);
    assert(dec(u as int)[0] != 43);
    if n < 0 {
        lemma_digits_read_back((-n) as nat);
        assert(dec(n as int).skip(1) =~= digits((-n) as nat));
    } else {
        lemma_digits_read_back(n as nat);
        let d = digits(n as nat);
        assert(48 <= d[0] <= 57);
    }
}

// ---------------------------------------------------------------------------
// Lexicographic order
// ---------------------------------------------------------------------------

/// The lexicographic order on byte strings.
pub open spec fn lex_lt(a: Seq<u8>, b: Seq<u8>) -> bool
    decreases a.len(),
{
    if b.len() == 0 {
        false
    } else if a.len() == 0 {
        true
    } else if a[0] != b[0] {
        a[0] < b[0]
    } else {
        lex_lt(a.skip(1), b.skip(1))
    }
}

/// The order is strict and total.
pub proof fn lemma_lex_total(a: Seq<u8>, b: Seq<u8>)
    ensures
        !lex_lt(a, a),
        lex_lt(a, b) ==> a != b && !lex_lt(b, a),
        a != b ==> lex_lt(a, b) || lex_lt(b, a),
    decreases a.len(),
{
    if a.len() > 0 {
        lemma_lex_total(a.skip(1), a.skip(1));
    }
    if a.len() > 0 && b.len() > 0 && a[0] == b[0] {
        lemma_lex_total(a.skip(1), b.skip(1));
        if a.skip(1) == b.skip(1) {
            assert forall|i: int| 0 <= i < a.len() implies a[i] == b[i] by {
                if i > 0 {
                    assert(a.skip(1)[i - 1] == b.skip(1)[i - 1]);
                }
            }
            assert(a.len() == b.len()) by {
                assert(a.skip(1).len() == b.skip(1).len());
            }
            assert(a =~= b);
        }
    } else if a.len() == 0 && b.len() == 0 {
        assert(a =~= b);
    }
}

/// The order is transitive.
pub proof fn lemma_lex_trans(a: Seq<u8>, b: Seq<u8>, c: Seq<u8>)
    requires
        lex_lt(a, b),
        lex_lt(b, c),
    ensures
        lex_lt(a, c),
    decreases a.len(),
{
    if a.len() > 0 && a[0] == b[0] && b[0] == c[0] {
        lemma_lex_trans(a.skip(1), b.skip(1), c.skip(1));
    }
}

/// Whether `a` comes before `b`.
pub fn lex_less(a: &[u8], b: &[u8]) -> (r: bool)
    ensures
        r == lex_lt(a@, b@),
{
    let mut i: usize = 0;
    proof {
        assert(a@.skip(0) =~= a@);
        assert(b@.skip(0) =~= b@);
    }
    while i < a.len() && i < b.len()
        invariant
            i <= a@.len(),
            i <= b@.len(),
            lex_lt(a@, b@) == lex_lt(a@.skip(i as int), b@.skip(i as int)),
        decreases a@.len() - i,
    {
        if a[i] != b[i] {
            return a[i] < b[i];
        }
        assert(a@.skip(i as int).skip(1) =~= a@.skip(i + 1));
        assert(b@.skip(i as int).skip(1) =~= b@.skip(i + 1));
        i += 1;
    }
    i < b.len()
}

} // verus!
