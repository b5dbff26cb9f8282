//! The list type: its encodings, its two ends, and cursors over its elements.

use vstd::prelude::*;

use crate::bytes::{dec, dup, dup_all, fmt_i64, lemma_views_push, opt_view, same, views};

verus! {

broadcast use lemma_views_push;

/// How a list is stored.
#[derive(Clone, Copy, Debug, PartialEq, Eq, Structural)]
pub enum ListEncoding {
    /// One compact block, for short lists.
    Listpack,
    /// A chain of blocks.
    Quicklist,
}

/// An end of a list.
#[derive(Clone, Copy, Debug, PartialEq, Eq, Structural)]
pub enum ListPosition {
    Head,
    Tail,
}

/// Why an encoding is looked at again.
#[derive(Clone, Copy, Debug, PartialEq, Eq, Structural)]
pub enum ListConvType {
    Auto,
    Growing,
    Shrinking,
}

/// The value of an entry.
pub enum ListEntryValue {
    Bytes(Vec<u8>),
    Integer(i64),
}

/// How much a list in one block may hold.
pub struct ListLimits {
    pub max_bytes: usize,
    pub max_entries: usize,
}

/// A cursor over a list. It stands before the element at `next`.
pub struct ListTypeIterator {
    pub encoding: ListEncoding,
    pub direction: ListPosition,
    pub next: Option<usize>,
}

/// The element that a cursor has just passed.
pub struct ListTypeEntry {
    pub encoding: ListEncoding,
    pub direction: ListPosition,
    /// The position of the element.
    pub index: usize,
    /// The bytes of an element of a chain; without them it is an integer.
    pub quicklist_value: Option<Vec<u8>>,
    pub quicklist_longval: i64,
    pub quicklist_sz: usize,
    /// The bytes of an element of a block; without them it is an integer.
    pub listpack_value: Option<Vec<u8>>,
    pub listpack_integer: Option<i64>,
}

// ---------------------------------------------------------------------------
// Encodings
// ---------------------------------------------------------------------------

/// How many bytes the elements take.
pub open spec fn total_bytes(l: Seq<Seq<u8>>) -> nat
    decreases l.len(),
{
    if l.len() == 0 {
        0
    } else {
        total_bytes(l.drop_last()) + l.last().len()
    }
}

/// How many bytes the elements take.
fn bytes_taken(l: &[Vec<u8>]) -> (r: u128)
    ensures
        r == total_bytes(views(l@)),
{
    let ghost all = views(l@);
    let len: usize = l.len();
    let mut r: u128 = 0;
    let mut i: usize = 0;
    proof {
        assert(usize::MAX * usize::MAX <= u64::MAX * u64::MAX) by (nonlinear_arith)
            requires
                usize::MAX <= u64::MAX,
        ;
    }
    while i < len
        invariant
            i <= len == l@.len(),
            all == views(l@),
            r == total_bytes(all.take(i as int)),
            r <= i * usize::MAX,
            usize::MAX * usize::MAX <= u128::MAX,
        decreases len - i,
    {
        let n: usize = l[i].len();
        proof {
            assert(all.take(i + 1).drop_last() =~= all.take(i as int));
            assert(all.take(i + 1).last() == l@[i as int]@);
            assert(i * usize::MAX + usize::MAX == (i + 1) * usize::MAX) by (nonlinear_arith);
            assert((i + 1) * usize::MAX <= usize::MAX * usize::MAX) by (nonlinear_arith)
                requires
                    i + 1 <= usize::MAX,
            ;
        }
        r = r + n as u128;
        i += 1;
    }
    assert(all.take(all.len() as int) =~= all);
    r
}

/// Whether a list with so many more bytes and elements outgrows one block.
pub open spec fn outgrows(l: Seq<Seq<u8>>, more_bytes: nat, more: nat, m: ListLimits) -> bool {
    total_bytes(l) + more_bytes > m.max_bytes || l.len() + more > m.max_entries
}

/// Whether a chain may become one block again. A list that shrinks waits until
/// it is at half the limits.
pub open spec fn fits_back(l: Seq<Seq<u8>>, shrinking: bool, m: ListLimits) -> bool {
    let (b, n) = if shrinking {
        (m.max_bytes as int / 2, m.max_entries as int / 2)
    } else {
        (m.max_bytes as int, m.max_entries as int)
    };
    total_bytes(l) <= b && l.len() <= n
}

/// The encoding of a list to which so many bytes and elements are about to be
/// added.
pub open spec fn encoding_for(
    encoding: ListEncoding,
    l: Seq<Seq<u8>>,
    lct: ListConvType,
    more_bytes: nat,
    more: nat,
    m: ListLimits,
) -> ListEncoding {
    match encoding {
        ListEncoding::Quicklist => if lct != ListConvType::Growing && fits_back(
            l,
            lct == ListConvType::Shrinking,
            m,
        ) {
            ListEncoding::Listpack
        } else {
            ListEncoding::Quicklist
        },
        ListEncoding::Listpack => if lct != ListConvType::Shrinking && outgrows(
            l,
            more_bytes,
            more,
            m,
        ) {
            ListEncoding::Quicklist
        } else {
            ListEncoding::Listpack
        },
    }
}

/// The encoding of a list to which so many bytes and elements are about to be
/// added.
fn list_type_try_conversion_raw(
    encoding: ListEncoding,
    l: &[Vec<u8>],
    lct: ListConvType,
    more_bytes: u128,
    more: usize,
    m: &ListLimits,
) -> (r: ListEncoding)
    ensures
        r == encoding_for(encoding, views(l@), lct, more_bytes as nat, more as nat, *m),
{
    let taken: u128 = bytes_taken(l);
    match encoding {
        ListEncoding::Quicklist => {
            if lct == ListConvType::Growing {
                return ListEncoding::Quicklist;
            }
            let shrinking: bool = lct == ListConvType::Shrinking;
            let b: usize = if shrinking { m.max_bytes / 2 } else { m.max_bytes };
            let n: usize = if shrinking { m.max_entries / 2 } else { m.max_entries };
            if taken <= b as u128 && l.len() <= n {
                ListEncoding::Listpack
            } else {
                ListEncoding::Quicklist
            }
        },
        ListEncoding::Listpack => {
            if lct == ListConvType::Shrinking {
                return ListEncoding::Listpack;
            }
            let most: u128 = m.max_bytes as u128;
            if taken > most || more_bytes > most - taken || l.len() as u128 + more as u128
                > m.max_entries as u128 {
                ListEncoding::Quicklist
            } else {
                ListEncoding::Listpack
            }
        },
    }
}

/// The encoding of a list, looked at again.
pub fn list_type_try_conversion(
    encoding: ListEncoding,
    l: &[Vec<u8>],
    lct: ListConvType,
    m: &ListLimits,
) -> (r: ListEncoding)
    ensures
        r == encoding_for(encoding, views(l@), lct, 0, 0, *m),
{
    list_type_try_conversion_raw(encoding, l, lct, 0, 0, m)
}

/// The encoding of a list to which the arguments from `start` to `end` are about
/// to be added.
pub fn list_type_try_conversion_append(
    encoding: ListEncoding,
    l: &[Vec<u8>],
    args: &[Vec<u8>],
    start: usize,
    end: usize,
    m: &ListLimits,
) -> (r: ListEncoding)
    requires
        start <= end < args@.len(),
    ensures
        r == encoding_for(
            encoding,
            views(l@),
            ListConvType::Growing,
            total_bytes(views(args@).subrange(start as int, end + 1)),
            (end - start + 1) as nat,
            *m,
        ),
{
    let ghost all = views(args@);
    let argc: usize = args.len();
    let mut added: Vec<Vec<u8>> = Vec::new();
    let mut i: usize = start;
    assert(views(added@) =~= all.subrange(start as int, start as int));
    while i <= end
        invariant
            start <= i <= end + 1 <= args@.len() == argc,
            all == views(args@),
            views(added@) == all.subrange(start as int, i as int),
        decreases end + 1 - i,
    {
        added.push(dup(&args[i]));
        assert(views(added@) =~= all.subrange(start as int, i + 1));
        i += 1;
    }
    let more: u128 = bytes_taken(&added);
    list_type_try_conversion_raw(encoding, l, ListConvType::Growing, more, end - start + 1, m)
}

// ---------------------------------------------------------------------------
// The two ends
// ---------------------------------------------------------------------------

/// A list with one more element at an end.
pub open spec fn pushed(l: Seq<Seq<u8>>, v: Seq<u8>, at: ListPosition) -> Seq<Seq<u8>> {
    match at {
        ListPosition::Head => seq![v] + l,
        ListPosition::Tail => l.push(v),
    }
}

/// The element at an end.
pub open spec fn end_of(l: Seq<Seq<u8>>, at: ListPosition) -> Seq<u8> {
    match at {
        ListPosition::Head => l[0],
        ListPosition::Tail => l[l.len() - 1],
    }
}

/// A list without the element at an end.
pub open spec fn popped(l: Seq<Seq<u8>>, at: ListPosition) -> Seq<Seq<u8>> {
    match at {
        ListPosition::Head => l.skip(1),
        ListPosition::Tail => l.take(l.len() - 1),
    }
}

/// Adds an element at an end.
pub fn list_type_push(l: &mut Vec<Vec<u8>>, value: Vec<u8>, position: ListPosition)
    ensures
        views(final(l)@) == pushed(views(old(l)@), value@, position),
{
    match position {
        ListPosition::Head => l.insert(0, value),
        ListPosition::Tail => l.push(value),
    }
    assert(views(l@) =~= pushed(views(old(l)@), value@, position));
}

/// Takes the element at an end.
pub fn list_type_pop(l: &mut Vec<Vec<u8>>, position: ListPosition) -> (r: Option<Vec<u8>>)
    ensures
        old(l)@.len() == 0 ==> r is None && final(l)@ == old(l)@,
        old(l)@.len() > 0 ==> opt_view(r) == Some(end_of(views(old(l)@), position)) && views(
            final(l)@,
        ) == popped(views(old(l)@), position),
{
    if l.len() == 0 {
        return None;
    }
    let v: Vec<u8> = match position {
        ListPosition::Head => l.remove(0),
        ListPosition::Tail => {
            let n: usize = l.len();
            l.remove(n - 1)
        },
    };
    assert(views(l@) =~= popped(views(old(l)@), position));
    Some(v)
}

/// How many elements a list has.
pub fn list_type_length(l: &[Vec<u8>]) -> (r: u64)
    ensures
        r == l@.len(),
{
    l.len() as u64
}

/// A copy of a list.
pub fn list_type_dup(l: &[Vec<u8>]) -> (r: Vec<Vec<u8>>)
    ensures
        views(r@) == views(l@),
{
    dup_all(l)
}

// ---------------------------------------------------------------------------
// Positions
// ---------------------------------------------------------------------------

/// The position that an index means: a negative one counts from the tail.
pub open spec fn seek(len: nat, index: int) -> Option<int> {
    if 0 <= index < len {
        Some(index)
    } else if -len <= index < 0 {
        Some(len + index)
    } else {
        None
    }
}

/// What an optional position says.
pub open spec fn place(o: Option<usize>) -> Option<int> {
    match o {
        Some(i) => Some(i as int),
        None => None,
    }
}

/// The position that an index means.
pub fn seek_index(len: usize, index: i64) -> (r: Option<usize>)
    ensures
        place(r) == seek(len as nat, index as int),
{
    let n: i128 = len as i128;
    let i: i128 = index as i128;
    if 0 <= i && i < n {
        Some(i as usize)
    } else if i < 0 && -n <= i {
        Some((n + i) as usize)
    } else {
        None
    }
}

/// Replaces the element at an index. Tells whether there is one.
pub fn list_type_replace_at_index(l: &mut Vec<Vec<u8>>, index: i64, value: Vec<u8>) -> (r: bool)
    ensures
        match seek(old(l)@.len(), index as int) {
            Some(p) => r && views(final(l)@) == views(old(l)@).update(p, value@),
            None => !r && final(l)@ == old(l)@,
        },
{
    match seek_index(l.len(), index) {
        Some(p) => {
            l.set(p, value);
            assert(views(l@) =~= views(old(l)@).update(p as int, value@));
            true
        },
        None => false,
    }
}

/// A list without up to `count` elements from an index on.
pub open spec fn without_range(l: Seq<Seq<u8>>, start: int, count: int) -> Seq<Seq<u8>> {
    match seek(l.len(), start) {
        Some(p) if count > 0 => l.take(p) + l.skip(
            if p + count > l.len() {
                l.len() as int
            } else {
                p + count
            },
        ),
        _ => l,
    }
}

/// Removes up to `count` elements from an index on.
pub fn list_type_del_range(l: &mut Vec<Vec<u8>>, start: i64, count: i64)
    ensures
        views(final(l)@) == without_range(views(old(l)@), start as int, count as int),
{
    let ghost all = views(l@);
    let len: usize = l.len();
    match seek_index(len, start) {
        Some(p) => {
            if count > 0 {
                let to: usize = if p as i128 + count as i128 > len as i128 {
                    len
                } else {
                    (p as i128 + count as i128) as usize
                };
                let mut k: usize = p;
                assert(views(l@) =~= all.take(p as int) + all.skip(k as int));
                while k < to
                    invariant
                        p <= k <= to <= len == all.len(),
                        views(l@) == all.take(p as int) + all.skip(k as int),
                    decreases to - k,
                {
                    let ghost before = l@;
                    assert(before.len() == views(before).len());
                    let _gone: Vec<u8> = l.remove(p);
                    assert(views(l@) =~= views(before).remove(p as int));
                    assert(views(l@) =~= all.take(p as int) + all.skip(k + 1));
                    k += 1;
                }
            }
        },
        None => {},
    }
}

// ---------------------------------------------------------------------------
// Cursors
// ---------------------------------------------------------------------------

/// The position after another one, in a direction.
pub open spec fn neighbour(len: nat, p: int, d: ListPosition) -> Option<int> {
    match d {
        ListPosition::Tail => if p + 1 < len {
            Some(p + 1)
        } else {
            None
        },
        ListPosition::Head => if 0 < p <= len {
            Some(p - 1)
        } else {
            None
        },
    }
}

/// The position after another one, in a direction.
fn step(len: usize, p: usize, d: ListPosition) -> (r: Option<usize>)
    ensures
        place(r) == neighbour(len as nat, p as int, d),
{
    match d {
        ListPosition::Tail => if p < len && p + 1 < len {
            Some(p + 1)
        } else {
            None
        },
        ListPosition::Head => if 0 < p && p <= len {
            Some(p - 1)
        } else {
            None
        },
    }
}

impl ListTypeIterator {
    /// The cursor stands in a list of that length.
    pub open spec fn within(self, len: nat) -> bool {
        self.next matches Some(p) ==> p < len
    }
}

impl ListTypeEntry {
    /// An entry before any element was passed.
    pub fn new(encoding: ListEncoding, direction: ListPosition) -> (r: ListTypeEntry)
        ensures
            r.encoding == encoding && r.direction == direction && r.index == 0,
            r.quicklist_value is None && r.quicklist_longval == 0 && r.quicklist_sz == 0,
            r.listpack_value is None && r.listpack_integer is None,
    {
        ListTypeEntry {
            encoding,
            direction,
            index: 0,
            quicklist_value: None,
            quicklist_longval: 0,
            quicklist_sz: 0,
            listpack_value: None,
            listpack_integer: None,
        }
    }
}

/// A cursor before the element at an index, moving in a direction.
pub fn list_type_init_iterator(
    l: &[Vec<u8>],
    encoding: ListEncoding,
    index: i64,
    direction: ListPosition,
) -> (r: ListTypeIterator)
    ensures
        r.encoding == encoding && r.direction == direction,
        place(r.next) == seek(l@.len(), index as int),
        r.within(l@.len()),
{
    ListTypeIterator { encoding, direction, next: seek_index(l.len(), index) }
}

/// Turns a cursor round: it stands beside the entry that it passed last.
pub fn list_type_set_iterator_direction(
    iter: &mut ListTypeIterator,
    l: &[Vec<u8>],
    entry: &ListTypeEntry,
    direction: ListPosition,
)
    requires
        entry.index < l@.len(),
    ensures
        final(iter).encoding == old(iter).encoding,
        final(iter).direction == direction,
        place(final(iter).next) == if old(iter).direction == direction {
            place(old(iter).next)
        } else {
            neighbour(l@.len(), entry.index as int, direction)
        },
{
    if iter.direction == direction {
        return;
    }
    iter.direction = direction;
    iter.next = step(l.len(), entry.index, direction);
}

/// Ends the use of a cursor.
pub fn list_type_release_iterator(iter: ListTypeIterator) {
    let _iter: ListTypeIterator = iter;
}

/// Whether an entry holds the element at a position of a list.
pub open spec fn entry_at(e: ListTypeEntry, l: Seq<Seq<u8>>, p: int) -> bool {
    &&& e.index == p
    &&& match e.encoding {
        ListEncoding::Quicklist => opt_view(e.quicklist_value) == Some(l[p]) && e.quicklist_sz
            == l[p].len(),
        ListEncoding::Listpack => opt_view(e.listpack_value) == Some(l[p]),
    }
}

/// Passes one element. Tells whether there was one.
pub fn list_type_next(
    iter: &mut ListTypeIterator,
    l: &[Vec<u8>],
    entry: &mut ListTypeEntry,
) -> (r: bool)
    requires
        old(iter).within(l@.len()),
    ensures
        r == (old(iter).next is Some),
        final(iter).encoding == old(iter).encoding,
        final(iter).direction == old(iter).direction,
        final(iter).within(l@.len()),
        final(entry).encoding == old(iter).encoding,
        final(entry).direction == old(iter).direction,
        match old(iter).next {
            Some(p) => entry_at(*final(entry), views(l@), p as int) && place(final(iter).next)
                == neighbour(l@.len(), p as int, old(iter).direction),
            None => final(iter).next is None && final(entry).index == old(entry).index,
        },
{
    entry.encoding = iter.encoding;
    entry.direction = iter.direction;
    match iter.next {
        None => false,
        Some(p) => {
            entry.index = p;
            match iter.encoding {
                ListEncoding::Quicklist => {
                    entry.quicklist_value = Some(dup(&l[p]));
                    entry.quicklist_longval = 0;
                    entry.quicklist_sz = l[p].len();
                },
                ListEncoding::Listpack => {
                    entry.listpack_value = Some(dup(&l[p]));
                    entry.listpack_integer = None;
                },
            }
            iter.next = step(l.len(), p, iter.direction);
            true
        },
    }
}

/// The bytes that an entry says.
pub open spec fn entry_bytes(e: ListTypeEntry) -> Seq<u8> {
    match e.encoding {
        ListEncoding::Quicklist => match e.quicklist_value {
            Some(v) => v@,
            None => dec(e.quicklist_longval as int),
        },
        ListEncoding::Listpack => match e.listpack_value {
            Some(v) => v@,
            None => dec(
                match e.listpack_integer {
                    Some(n) => n as int,
                    None => 0,
                },
            ),
        },
    }
}

/// The value of an entry: its bytes, or else its integer.
pub fn list_type_get_value(entry: &ListTypeEntry) -> (r: ListEntryValue)
    ensures
        match entry.encoding {
            ListEncoding::Quicklist => match entry.quicklist_value {
                Some(v) => r matches ListEntryValue::Bytes(b) && b@ == v@,
                None => r == ListEntryValue::Integer(entry.quicklist_longval),
            },
            ListEncoding::Listpack => match (entry.listpack_value, entry.listpack_integer) {
                (Some(v), _) => r matches ListEntryValue::Bytes(b) && b@ == v@,
                (None, Some(n)) => r == ListEntryValue::Integer(n),
                (None, None) => r == ListEntryValue::Integer(0),
            },
        },
{
    match entry.encoding {
        ListEncoding::Quicklist => match &entry.quicklist_value {
            Some(v) => ListEntryValue::Bytes(dup(v)),
            None => ListEntryValue::Integer(entry.quicklist_longval),
        },
        ListEncoding::Listpack => match &entry.listpack_value {
            Some(v) => ListEntryValue::Bytes(dup(v)),
            None => match entry.listpack_integer {
                Some(n) => ListEntryValue::Integer(n),
                None => ListEntryValue::Integer(0),
            },
        },
    }
}

/// The bytes of an entry; an integer in decimal.
pub fn list_type_get(entry: &ListTypeEntry) -> (r: Vec<u8>)
    ensures
        r@ == entry_bytes(*entry),
{
    match list_type_get_value(entry) {
        ListEntryValue::Bytes(b) => b,
        ListEntryValue::Integer(n) => fmt_i64(n),
    }
}

/// Whether an entry has those bytes.
pub fn list_type_equal(entry: &ListTypeEntry, obj: &[u8]) -> (r: bool)
    ensures
        r == (entry_bytes(*entry) == obj@),
{
    let b: Vec<u8> = list_type_get(entry);
    same(&b, obj)
}

/// Puts an element before or behind an entry. The entry becomes the new element,
/// and the cursor stays before the same element.
pub fn list_type_insert(
    iter: &mut ListTypeIterator,
    l: &mut Vec<Vec<u8>>,
    entry: &mut ListTypeEntry,
    value: Vec<u8>,
    position: ListPosition,
)
    requires
        old(entry).index < old(l)@.len(),
        old(iter).within(old(l)@.len()),
    ensures
        ({
            let p = old(entry).index + if position == ListPosition::Tail {
                1int
            } else {
                0int
            };
            &&& views(final(l)@) == views(old(l)@).insert(p, value@)
            &&& entry_at(*final(entry), views(final(l)@), p)
            &&& final(entry).encoding == old(iter).encoding
            &&& final(iter).encoding == old(iter).encoding
            &&& final(iter).direction == old(iter).direction
            &&& place(final(iter).next) == match old(iter).next {
                Some(n) => Some(
                    if n >= p {
                        n + 1
                    } else {
                        n as int
                    },
                ),
                None => None,
            }
        }),
{
    let len: usize = l.len();
    assert(entry.index < len);
    let p: usize = match position {
        ListPosition::Tail => entry.index + 1,
        ListPosition::Head => entry.index,
    };
    entry.encoding = iter.encoding;
    entry.index = p;
    match iter.encoding {
        ListEncoding::Quicklist => {
            entry.quicklist_sz = value.len();
            entry.quicklist_value = Some(dup(&value));
        },
        ListEncoding::Listpack => {
            entry.listpack_value = Some(dup(&value));
        },
    }
    match iter.next {
        Some(n) => {
            if n >= p {
                iter.next = Some(n + 1);
            }
        },
        None => {},
    }
    let ghost v = value@;
    l.insert(p, value);
    assert(views(l@) =~= views(old(l)@).insert(p as int, v));
}

/// Replaces the element of an entry.
pub fn list_type_replace(l: &mut Vec<Vec<u8>>, entry: &ListTypeEntry, value: Vec<u8>)
    requires
        entry.index < old(l)@.len(),
    ensures
        views(final(l)@) == views(old(l)@).update(entry.index as int, value@),
{
    l.set(entry.index, value);
    assert(views(l@) =~= views(old(l)@).update(entry.index as int, value@));
}

/// Removes the element of an entry. The cursor stands before the one that would
/// have come next.
pub fn list_type_delete(iter: &mut ListTypeIterator, l: &mut Vec<Vec<u8>>, entry: &ListTypeEntry)
    requires
        entry.index < old(l)@.len(),
    ensures
        views(final(l)@) == views(old(l)@).remove(entry.index as int),
        final(iter).encoding == old(iter).encoding,
        final(iter).direction == old(iter).direction,
        final(iter).within(final(l)@.len()),
        place(final(iter).next) == match old(iter).direction {
            ListPosition::Tail => if entry.index < old(l)@.len() - 1 {
                Some(entry.index as int)
            } else {
                None
            },
            ListPosition::Head => if entry.index > 0 {
                Some(entry.index - 1)
            } else {
                None
            },
        },
{
    let p: usize = entry.index;
    let _gone: Vec<u8> = l.remove(p);
    iter.next = match iter.direction {
        ListPosition::Tail => if p < l.len() {
            Some(p)
        } else {
            None
        },
        ListPosition::Head => if p > 0 {
            Some(p - 1)
        } else {
            None
        },
    };
    assert(views(l@) =~= views(old(l)@).remove(p as int));
}

// ---------------------------------------------------------------------------
// Laws
// ---------------------------------------------------------------------------

/// What was pushed at an end is what a pop there takes, and the list is as it
/// was.
pub proof fn law_pop_undoes_push(l: Seq<Seq<u8>>, v: Seq<u8>, at: ListPosition)
    ensures
        end_of(pushed(l, v, at), at) == v,
        popped(pushed(l, v, at), at) == l,
{
    assert(popped(pushed(l, v, at), at) =~= l);
}

/// A list that just outgrew one block does not come back by shrinking at once:
/// it has to lose half of what the limits allow.
pub proof fn law_encodings_do_not_flap(l: Seq<Seq<u8>>, lct: ListConvType, m: ListLimits)
    requires
        encoding_for(ListEncoding::Listpack, l, lct, 0, 0, m) == ListEncoding::Quicklist,
    ensures
        encoding_for(ListEncoding::Quicklist, l, ListConvType::Shrinking, 0, 0, m)
            == ListEncoding::Quicklist,
        encoding_for(ListEncoding::Quicklist, l, ListConvType::Growing, 0, 0, m)
            == ListEncoding::Quicklist,
{
}

} // verus!
