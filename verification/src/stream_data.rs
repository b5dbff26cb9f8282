//! The stream data structure: entries in ascending ID order, consumer groups,
//! and the pending-entries lists of groups and consumers.

use vstd::prelude::*;

use crate::bytes::{dec, dup, find, find_byte, fmt_u64, parse_u64, put, slice, u64_of};
use crate::dict::Dict;

verus! {

/// The ID of a stream entry: a time in milliseconds and a sequence number.
#[derive(Clone, Copy, PartialEq, Eq, Structural, Debug)]
pub struct StreamId {
    pub ms: u64,
    pub seq: u64,
}

/// The entries-read counter of a group whose position is not known.
pub const SCG_INVALID_ENTRIES_READ: i64 = -1;

/// The active time of a consumer that never received an entry.
pub const NEVER_ACTIVE: i64 = -1;

/// The smallest ID.
pub open spec fn zero_id() -> StreamId {
    StreamId { ms: 0, seq: 0 }
}

/// The largest ID.
pub open spec fn max_id() -> StreamId {
    StreamId { ms: u64::MAX, seq: u64::MAX }
}

/// The order of IDs: by time, then by sequence number.
pub open spec fn id_lt(a: StreamId, b: StreamId) -> bool {
    a.ms < b.ms || (a.ms == b.ms && a.seq < b.seq)
}

/// `a` comes before `b` or is `b`.
pub open spec fn id_le(a: StreamId, b: StreamId) -> bool {
    !id_lt(b, a)
}

/// The later of two IDs.
pub open spec fn id_max(a: StreamId, b: StreamId) -> StreamId {
    if id_lt(a, b) {
        b
    } else {
        a
    }
}

/// The next ID, if there is one.
pub open spec fn id_succ(a: StreamId) -> Option<StreamId> {
    if a.seq < u64::MAX {
        Some(StreamId { ms: a.ms, seq: (a.seq + 1) as u64 })
    } else if a.ms < u64::MAX {
        Some(StreamId { ms: (a.ms + 1) as u64, seq: 0 })
    } else {
        None
    }
}

/// The previous ID, if there is one.
pub open spec fn id_pred(a: StreamId) -> Option<StreamId> {
    if a.seq > 0 {
        Some(StreamId { ms: a.ms, seq: (a.seq - 1) as u64 })
    } else if a.ms > 0 {
        Some(StreamId { ms: (a.ms - 1) as u64, seq: u64::MAX })
    } else {
        None
    }
}

/// The text `<ms>-<seq>` of an ID.
pub open spec fn id_text(a: StreamId) -> Seq<u8> {
    dec(a.ms as int) + seq![45u8] + dec(a.seq as int)
}

/// What `<ms>` or `<ms>-<seq>` denotes, with a sequence number for the first
/// form.
pub open spec fn id_of(s: Seq<u8>, default_seq: u64) -> Option<StreamId> {
    match find_byte(s, 45, 0) {
        None => match u64_of(s) {
            Some(ms) => Some(StreamId { ms, seq: default_seq }),
            None => None,
        },
        Some(i) => match (u64_of(s.take(i)), u64_of(s.skip(i + 1))) {
            (Some(ms), Some(seq)) => Some(StreamId { ms, seq }),
            _ => None,
        },
    }
}

/// The order of IDs is strict and total, and an ID lies between its neighbours.
pub proof fn law_id_order(a: StreamId, b: StreamId, c: StreamId)
    ensures
        !id_lt(a, a),
        id_lt(a, b) && id_lt(b, c) ==> id_lt(a, c),
        id_lt(a, b) || a == b || id_lt(b, a),
        id_succ(a) matches Some(n) ==> id_lt(a, n) && (id_lt(a, b) ==> id_le(n, b)),
        id_pred(a) matches Some(p) ==> id_lt(p, a) && (id_lt(b, a) ==> id_le(b, p)),
        id_succ(a) matches Some(n) ==> id_pred(n) == Some(a),
        id_le(zero_id(), a) && id_le(a, max_id()),
{
}

impl StreamId {
    /// The smallest ID.
    pub fn zero() -> (r: StreamId)
        ensures
            r == zero_id(),
    {
        StreamId { ms: 0, seq: 0 }
    }

    /// The largest ID.
    pub fn maximum() -> (r: StreamId)
        ensures
            r == max_id(),
    {
        StreamId { ms: u64::MAX, seq: u64::MAX }
    }

    /// Whether `self` comes before `other`.
    pub fn less(self, other: StreamId) -> (r: bool)
        ensures
            r == id_lt(self, other),
    {
        self.ms < other.ms || (self.ms == other.ms && self.seq < other.seq)
    }

    /// The later of two IDs.
    pub fn later(self, other: StreamId) -> (r: StreamId)
        ensures
            r == id_max(self, other),
    {
        if self.less(other) {
            other
        } else {
            self
        }
    }

    /// The next ID, if there is one.
    pub fn checked_succ(self) -> (r: Option<StreamId>)
        ensures
            r == id_succ(self),
    {
        if self.seq < u64::MAX {
            Some(StreamId { ms: self.ms, seq: self.seq + 1 })
        } else if self.ms < u64::MAX {
            Some(StreamId { ms: self.ms + 1, seq: 0 })
        } else {
            None
        }
    }

    /// The previous ID, if there is one.
    pub fn checked_pred(self) -> (r: Option<StreamId>)
        ensures
            r == id_pred(self),
    {
        if self.seq > 0 {
            Some(StreamId { ms: self.ms, seq: self.seq - 1 })
        } else if self.ms > 0 {
            Some(StreamId { ms: self.ms - 1, seq: u64::MAX })
        } else {
            None
        }
    }

    /// The text `<ms>-<seq>`.
    pub fn to_display_bytes(self) -> (r: Vec<u8>)
        ensures
            r@ == id_text(self),
    {
        let mut r: Vec<u8> = fmt_u64(self.ms);
        r.push(45);
        let seq: Vec<u8> = fmt_u64(self.seq);
        put(&mut r, &seq);
        assert(r@ =~= id_text(self));
        r
    }
}

/// Parses `<ms>` or `<ms>-<seq>`.
pub fn parse_stream_id(s: &[u8], default_seq: u64) -> (r: Option<StreamId>)
    ensures
        r == id_of(s@, default_seq),
{
    match find(s, 45, 0) {
        None => match parse_u64(s) {
            Some(ms) => Some(StreamId { ms, seq: default_seq }),
            None => None,
        },
        Some(i) => {
            let end: usize = s.len();
            let head: Vec<u8> = slice(s, 0, i);
            let tail: Vec<u8> = slice(s, i + 1, end);
            assert(head@ =~= s@.take(i as int));
            assert(tail@ =~= s@.skip(i + 1));
            match (parse_u64(&head), parse_u64(&tail)) {
                (Some(ms), Some(seq)) => Some(StreamId { ms, seq }),
                _ => None,
            }
        },
    }
}

proof fn lemma_find_after_prefix(a: Seq<u8>, b: Seq<u8>, from: int)
    requires
        crate::bytes::all_digits(a),
        0 <= from <= a.len(),
    ensures
        find_byte(a + seq![45u8] + b, 45, from) == Some(a.len() as int),
    decreases a.len() - from,
{
    if from < a.len() {
        lemma_find_after_prefix(a, b, from + 1);
    }
}

/// Parsing the text of an ID gives the ID back.
pub proof fn law_id_text_round_trip(a: StreamId, default_seq: u64)
    ensures
        id_of(id_text(a), default_seq) == Some(a),
{
    crate::bytes::law_decimal_round_trip(0, a.ms);
    crate::bytes::law_decimal_round_trip(0, a.seq);
    crate::bytes::lemma_digits_read_back(a.ms as nat);
    lemma_find_after_prefix(dec(a.ms as int), dec(a.seq as int), 0);
    let t = id_text(a);
    let i = dec(a.ms as int).len() as int;
    assert(t.take(i) =~= dec(a.ms as int));
    assert(t.skip(i + 1) =~= dec(a.seq as int));
}

// ---------------------------------------------------------------------------
// Entries
// ---------------------------------------------------------------------------

/// One entry: an ID and its field-value pairs.
pub struct StreamEntry {
    pub id: StreamId,
    pub fields: Vec<(Vec<u8>, Vec<u8>)>,
}

/// What an entry holds.
#[verifier::ext_equal]
pub struct EntryV {
    pub id: StreamId,
    pub fields: Seq<(Seq<u8>, Seq<u8>)>,
}

/// The contents of a list of pairs.
pub open spec fn pair_views(v: Seq<(Vec<u8>, Vec<u8>)>) -> Seq<(Seq<u8>, Seq<u8>)> {
    v.map_values(|p: (Vec<u8>, Vec<u8>)| (p.0@, p.1@))
}

impl View for StreamEntry {
    type V = EntryV;

    open spec fn view(&self) -> EntryV {
        EntryV { id: self.id, fields: pair_views(self.fields@) }
    }
}

/// The contents of a list of entries.
pub open spec fn entry_views(v: Seq<StreamEntry>) -> Seq<EntryV> {
    v.map_values(|e: StreamEntry| e@)
}

impl StreamEntry {
    /// A copy of the entry.
    pub fn dup(&self) -> (r: StreamEntry)
        ensures
            r@ == self@,
    {
        let mut fields: Vec<(Vec<u8>, Vec<u8>)> = Vec::new();
        let mut i: usize = 0;
        while i < self.fields.len()
            invariant
                i <= self.fields@.len(),
                fields@.len() == i,
                forall|j: int|
                    0 <= j < i ==> (#[trigger] fields@[j]).0@ == self.fields@[j].0@ && fields@[j].1@
                        == self.fields@[j].1@,
            decreases self.fields@.len() - i,
        {
            let f: Vec<u8> = dup(&self.fields[i].0);
            let v: Vec<u8> = dup(&self.fields[i].1);
            fields.push((f, v));
            i += 1;
        }
        assert(pair_views(fields@) =~= pair_views(self.fields@));
        StreamEntry { id: self.id, fields }
    }
}

/// Whether entries stand in strictly ascending ID order.
pub open spec fn entries_ascend(s: Seq<EntryV>) -> bool {
    forall|i: int, j: int| 0 <= i < j < s.len() ==> id_lt(#[trigger] s[i].id, #[trigger] s[j].id)
}

// ---------------------------------------------------------------------------
// Pending entries
// ---------------------------------------------------------------------------

/// A delivered entry that was not acknowledged yet.
#[derive(Clone, Copy, PartialEq, Eq, Structural, Debug)]
pub struct PelEntry {
    pub entry_id: StreamId,
    pub delivery_time_ms: i64,
    pub delivery_count: u64,
}

/// Whether pending entries stand in strictly ascending ID order.
pub open spec fn pel_ascends(s: Seq<PelEntry>) -> bool {
    forall|i: int, j: int|
        0 <= i < j < s.len() ==> id_lt((#[trigger] s[i]).entry_id, (#[trigger] s[j]).entry_id)
}

/// Whether an ID is pending.
pub open spec fn pel_has(s: Seq<PelEntry>, id: StreamId) -> bool {
    exists|i: int| 0 <= i < s.len() && (#[trigger] s[i]).entry_id == id
}

/// The number of pending entries at the front whose ID comes before `id`.
pub open spec fn pel_rank(s: Seq<PelEntry>, id: StreamId) -> int
    decreases s.len(),
{
    if s.len() == 0 || !id_lt(s[0].entry_id, id) {
        0
    } else {
        1 + pel_rank(s.skip(1), id)
    }
}

/// The pending entry of an ID.
pub open spec fn pel_at(s: Seq<PelEntry>, id: StreamId) -> PelEntry {
    s[pel_rank(s, id)]
}

/// The list with the entry of one ID set.
pub open spec fn pel_put(s: Seq<PelEntry>, e: PelEntry) -> Seq<PelEntry> {
    if pel_has(s, e.entry_id) {
        s.update(pel_rank(s, e.entry_id), e)
    } else {
        s.insert(pel_rank(s, e.entry_id), e)
    }
}

/// The list without the entry of one ID.
pub open spec fn pel_drop(s: Seq<PelEntry>, id: StreamId) -> Seq<PelEntry> {
    if pel_has(s, id) {
        s.remove(pel_rank(s, id))
    } else {
        s
    }
}

/// The rank splits an ascending list at `id`.
pub proof fn lemma_pel_rank(s: Seq<PelEntry>, id: StreamId)
    requires
        pel_ascends(s),
    ensures
        0 <= pel_rank(s, id) <= s.len(),
        forall|i: int| 0 <= i < pel_rank(s, id) ==> id_lt((#[trigger] s[i]).entry_id, id),
        forall|i: int| pel_rank(s, id) <= i < s.len() ==> id_le(id, (#[trigger] s[i]).entry_id),
        pel_has(s, id) <==> (pel_rank(s, id) < s.len() && s[pel_rank(s, id)].entry_id == id),
    decreases s.len(),
{
    if s.len() > 0 && id_lt(s[0].entry_id, id) {
        let t = s.skip(1);
        lemma_pel_rank(t, id);
        assert forall|i: int| 0 <= i < pel_rank(s, id) implies id_lt(
            (#[trigger] s[i]).entry_id,
            id,
        ) by {
            if i > 0 {
                assert(t[i - 1] == s[i]);
            }
        }
        assert forall|i: int| pel_rank(s, id) <= i < s.len() implies id_le(
            id,
            (#[trigger] s[i]).entry_id,
        ) by {
            assert(t[i - 1] == s[i]);
        }
    }
    let n = pel_rank(s, id);
    if pel_has(s, id) {
        let i = choose|i: int| 0 <= i < s.len() && (#[trigger] s[i]).entry_id == id;
        assert(n <= i);
        assert(n == i);
    }
}

/// What setting and removing an entry do to the pending IDs and their entries.
pub proof fn lemma_pel_put(s: Seq<PelEntry>, e: PelEntry)
    requires
        pel_ascends(s),
    ensures
        pel_ascends(pel_put(s, e)),
        forall|id: StreamId| #[trigger] pel_has(pel_put(s, e), id) <==> id == e.entry_id || pel_has(s, id),
        pel_at(pel_put(s, e), e.entry_id) == e,
        forall|id: StreamId|
            pel_has(s, id) && id != e.entry_id ==> #[trigger] pel_at(pel_put(s, e), id) == pel_at(s, id),
{
    let r = pel_put(s, e);
    let n = pel_rank(s, e.entry_id);
    lemma_pel_rank(s, e.entry_id);
    assert(r[n] == e);
    assert(pel_ascends(r));
    lemma_pel_rank(r, e.entry_id);
    assert forall|id: StreamId| #[trigger] pel_has(r, id) <==> id == e.entry_id || pel_has(s, id) by {
        if pel_has(s, id) && id != e.entry_id {
            let i = choose|i: int| 0 <= i < s.len() && (#[trigger] s[i]).entry_id == id;
            if pel_has(s, e.entry_id) || i < n {
                assert(r[i].entry_id == id);
            } else {
                assert(r[i + 1].entry_id == id);
            }
        }
        if id == e.entry_id {
            assert(r[n].entry_id == id);
        }
        if pel_has(r, id) && id != e.entry_id {
            let i = choose|i: int| 0 <= i < r.len() && (#[trigger] r[i]).entry_id == id;
            if pel_has(s, e.entry_id) || i < n {
                assert(s[i].entry_id == id);
            } else {
                assert(s[i - 1].entry_id == id);
            }
        }
    }
    assert forall|id: StreamId| pel_has(s, id) && id != e.entry_id implies #[trigger] pel_at(r, id)
        == pel_at(s, id) by {
        lemma_pel_rank(s, id);
        lemma_pel_rank(r, id);
        let i = pel_rank(s, id);
        if pel_has(s, e.entry_id) || i < n {
            assert(r[i].entry_id == id);
        } else {
            assert(r[i + 1].entry_id == id);
        }
    }
}

/// What removing an entry does to the pending IDs and their entries.
pub proof fn lemma_pel_drop(s: Seq<PelEntry>, d: StreamId)
    requires
        pel_ascends(s),
    ensures
        pel_ascends(pel_drop(s, d)),
        forall|id: StreamId| #[trigger] pel_has(pel_drop(s, d), id) <==> id != d && pel_has(s, id),
        forall|id: StreamId|
            pel_has(s, id) && id != d ==> #[trigger] pel_at(pel_drop(s, d), id) == pel_at(s, id),
{
    let r = pel_drop(s, d);
    let n = pel_rank(s, d);
    lemma_pel_rank(s, d);
    if pel_has(s, d) {
        assert(pel_ascends(r));
        assert forall|id: StreamId| #[trigger] pel_has(r, id) <==> id != d && pel_has(s, id) by {
            if pel_has(s, id) && id != d {
                let i = choose|i: int| 0 <= i < s.len() && (#[trigger] s[i]).entry_id == id;
                if i < n {
                    assert(r[i].entry_id == id);
                } else {
                    assert(r[i - 1].entry_id == id);
                }
            }
            if pel_has(r, id) {
                let i = choose|i: int| 0 <= i < r.len() && (#[trigger] r[i]).entry_id == id;
                if i < n {
                    assert(s[i].entry_id == id);
                } else {
                    assert(s[i + 1].entry_id == id);
                }
            }
        }
        assert forall|id: StreamId| pel_has(s, id) && id != d implies #[trigger] pel_at(r, id)
            == pel_at(s, id) by {
            lemma_pel_rank(s, id);
            lemma_pel_rank(r, id);
            let i = pel_rank(s, id);
            if i < n {
                assert(r[i].entry_id == id);
            } else {
                assert(r[i - 1].entry_id == id);
            }
        }
    }
}

/// The position of the first pending entry whose ID is not before `id`.
pub fn pel_lower_bound(pel: &Vec<PelEntry>, id: StreamId) -> (r: usize)
    requires
        pel_ascends(pel@),
    ensures
        r == pel_rank(pel@, id),
        r <= pel@.len(),
{
    let mut i: usize = 0;
    proof {
        assert(pel@.skip(0) =~= pel@);
    }
    while i < pel.len() && pel[i].entry_id.less(id)
        invariant
            i <= pel@.len(),
            pel_rank(pel@, id) == i + pel_rank(pel@.skip(i as int), id),
        decreases pel@.len() - i,
    {
        assert(pel@.skip(i as int).skip(1) =~= pel@.skip(i + 1));
        i += 1;
    }
    i
}

/// The position of the pending entry of `id`.
pub fn pel_find(pel: &Vec<PelEntry>, id: StreamId) -> (r: Option<usize>)
    requires
        pel_ascends(pel@),
    ensures
        match r {
            Some(i) => pel_has(pel@, id) && i == pel_rank(pel@, id) && i < pel@.len()
                && pel@[i as int].entry_id == id,
            None => !pel_has(pel@, id),
        },
{
    let i: usize = pel_lower_bound(pel, id);
    proof {
        lemma_pel_rank(pel@, id);
    }
    if i < pel.len() && pel[i].entry_id == id {
        Some(i)
    } else {
        None
    }
}

/// Sets the pending entry of one ID.
pub fn pel_upsert(pel: &mut Vec<PelEntry>, e: PelEntry)
    requires
        pel_ascends(old(pel)@),
    ensures
        final(pel)@ == pel_put(old(pel)@, e),
        pel_ascends(final(pel)@),
{
    proof {
        lemma_pel_put(pel@, e);
        lemma_pel_rank(pel@, e.entry_id);
    }
    match pel_find(pel, e.entry_id) {
        Some(i) => {
            pel.set(i, e);
        },
        None => {
            let i: usize = pel_lower_bound(pel, e.entry_id);
            pel.insert(i, e);
        },
    }
}

/// Removes the pending entry of one ID. Tells whether there was one.
pub fn pel_take(pel: &mut Vec<PelEntry>, id: StreamId) -> (r: bool)
    requires
        pel_ascends(old(pel)@),
    ensures
        final(pel)@ == pel_drop(old(pel)@, id),
        pel_ascends(final(pel)@),
        r == pel_has(old(pel)@, id),
{
    proof {
        lemma_pel_drop(pel@, id);
    }
    match pel_find(pel, id) {
        Some(i) => {
            let _gone: PelEntry = pel.remove(i);
            true
        },
        None => false,
    }
}

// ---------------------------------------------------------------------------
// Consumers and groups
// ---------------------------------------------------------------------------

/// A consumer of a group.
pub struct Consumer {
    /// When the consumer last made a request.
    pub seen_time_ms: i64,
    /// When the consumer last received an entry, or -1.
    pub active_time_ms: i64,
    pub pel: Vec<PelEntry>,
}

/// What a consumer holds.
#[verifier::ext_equal]
pub struct ConsumerV {
    pub seen: i64,
    pub active: i64,
    pub pel: Seq<PelEntry>,
}

impl View for Consumer {
    type V = ConsumerV;

    open spec fn view(&self) -> ConsumerV {
        ConsumerV { seen: self.seen_time_ms, active: self.active_time_ms, pel: self.pel@ }
    }
}

impl Consumer {
    /// The pending entries ascend.
    pub open spec fn wf(self) -> bool {
        pel_ascends(self.pel@)
    }
}

/// A consumer group.
pub struct ConsumerGroup {
    pub last_delivered_id: StreamId,
    pub entries_read: i64,
    pub pel: Vec<PelEntry>,
    pub consumers: Dict<Consumer>,
}

/// What a group holds.
#[verifier::ext_equal]
pub struct GroupV {
    pub last_delivered_id: StreamId,
    pub entries_read: i64,
    pub pel: Seq<PelEntry>,
    pub consumers: Map<Seq<u8>, ConsumerV>,
}

impl View for ConsumerGroup {
    type V = GroupV;

    open spec fn view(&self) -> GroupV {
        GroupV {
            last_delivered_id: self.last_delivered_id,
            entries_read: self.entries_read,
            pel: self.pel@,
            consumers: self.consumers@,
        }
    }
}

/// Whether every consumer of a dictionary is well formed.
pub open spec fn consumers_wf(d: Dict<Consumer>) -> bool {
    &&& d.wf()
    &&& forall|k: Seq<u8>| #[trigger] d.map().contains_key(k) ==> d.map()[k].wf()
}

impl ConsumerGroup {
    /// The pending entries ascend, and so do those of each consumer.
    pub open spec fn wf(self) -> bool {
        &&& pel_ascends(self.pel@)
        &&& consumers_wf(self.consumers)
    }

    /// A group that starts behind `id`.
    pub fn new(id: StreamId) -> (r: ConsumerGroup)
        ensures
            r.wf(),
            r@ == new_group(id),
    {
        ConsumerGroup {
            last_delivered_id: id,
            entries_read: SCG_INVALID_ENTRIES_READ,
            pel: Vec::new(),
            consumers: Dict::new(),
        }
    }
}

/// A group that starts behind `id`.
pub open spec fn new_group(id: StreamId) -> GroupV {
    GroupV {
        last_delivered_id: id,
        entries_read: SCG_INVALID_ENTRIES_READ,
        pel: Seq::empty(),
        consumers: Map::empty(),
    }
}

/// The group after a consumer made a request at `now`: a new consumer is
/// created, a known one is marked as seen.
pub open spec fn touched(g: GroupV, name: Seq<u8>, now: i64) -> GroupV {
    let c = if g.consumers.contains_key(name) {
        ConsumerV { seen: now, ..g.consumers[name] }
    } else {
        ConsumerV { seen: now, active: NEVER_ACTIVE, pel: Seq::empty() }
    };
    GroupV { consumers: g.consumers.insert(name, c), ..g }
}

/// Looks a consumer up, or creates it. Tells whether it was created.
pub fn touch_or_create_consumer(group: &mut ConsumerGroup, name: &[u8], now_ms: i64) -> (r: bool)
    requires
        old(group).wf(),
    ensures
        final(group).wf(),
        final(group)@ == touched(old(group)@, name@, now_ms),
        r == !old(group)@.consumers.contains_key(name@),
{
    let exists: bool = group.consumers.contains(name);
    if !exists {
        group.consumers.insert(
            dup(name),
            Consumer { seen_time_ms: now_ms, active_time_ms: NEVER_ACTIVE, pel: Vec::new() },
        );
        assert(group@ =~= touched(old(group)@, name@, now_ms));
    } else {
        if let Some(c) = group.consumers.get_mut(name) {
            c.seen_time_ms = now_ms;
        }
        assert(group@ =~= touched(old(group)@, name@, now_ms));
    }
    !exists
}

/// The group after an entry was delivered to a consumer.
pub open spec fn pel_added(g: GroupV, name: Seq<u8>, e: PelEntry) -> GroupV {
    GroupV {
        pel: pel_put(g.pel, e),
        consumers: if g.consumers.contains_key(name) {
            g.consumers.insert(
                name,
                ConsumerV { pel: pel_put(g.consumers[name].pel, e), ..g.consumers[name] },
            )
        } else {
            g.consumers
        },
        ..g
    }
}

/// Sets a pending entry in the group and in the consumer.
pub fn pel_add(group: &mut ConsumerGroup, consumer_name: &[u8], entry: PelEntry)
    requires
        old(group).wf(),
    ensures
        final(group).wf(),
        final(group)@ == pel_added(old(group)@, consumer_name@, entry),
{
    pel_upsert(&mut group.pel, entry);
    if let Some(c) = group.consumers.get_mut(consumer_name) {
        pel_upsert(&mut c.pel, entry);
    }
    assert(group@ =~= pel_added(old(group)@, consumer_name@, entry));
}

/// The consumers without a pending ID, but for the one named `keep`.
pub open spec fn dropped_elsewhere(
    m: Map<Seq<u8>, ConsumerV>,
    id: StreamId,
    keep: Option<Seq<u8>>,
) -> Map<Seq<u8>, ConsumerV> {
    Map::new(
        |k: Seq<u8>| m.contains_key(k),
        |k: Seq<u8>|
            if keep == Some(k) {
                m[k]
            } else {
                ConsumerV { pel: pel_drop(m[k].pel, id), ..m[k] }
            },
    )
}

/// Removes a pending ID from every consumer but the one named `keep`.
fn drop_elsewhere(consumers: &mut Dict<Consumer>, id: StreamId, keep: Option<&[u8]>)
    requires
        consumers_wf(*old(consumers)),
    ensures
        consumers_wf(*final(consumers)),
        final(consumers)@ == dropped_elsewhere(
            old(consumers)@,
            id,
            match keep {
                Some(k) => Some(k@),
                None => None,
            },
        ),
{
    let ghost before = *consumers;
    let ghost kept: Option<Seq<u8>> = match keep {
        Some(k) => Some(k@),
        None => None,
    };
    proof {
        assert forall|j: int| 0 <= j < before.entries@.len() implies (
        #[trigger] consumers.entries@[j]).1.wf() by {
            before.lemma_at(j);
        }
    }
    let mut i: usize = 0;
    while i < consumers.entries.len()
        invariant
            i <= consumers.entries@.len(),
            consumers_wf(before),
            consumers.entries@.len() == before.entries@.len(),
            kept == (match keep {
                Some(k) => Some(k@),
                None => None,
            }),
            forall|j: int|
                0 <= j < before.entries@.len() ==> (#[trigger] consumers.entries@[j]).0
                    == before.entries@[j].0,
            forall|j: int|
                i <= j < before.entries@.len() ==> #[trigger] consumers.entries@[j]
                    == before.entries@[j],
            forall|j: int|
                0 <= j < i ==> (#[trigger] consumers.entries@[j]).1@ == (if kept == Some(
                    before.entries@[j].0@,
                ) {
                    before.entries@[j].1@
                } else {
                    ConsumerV {
                        pel: pel_drop(before.entries@[j].1.pel@, id),
                        ..before.entries@[j].1@
                    }
                }),
            forall|j: int|
                0 <= j < before.entries@.len() ==> (#[trigger] consumers.entries@[j]).1.wf(),
        decreases consumers.entries@.len() - i,
    {
        let keep_it: bool = match keep {
            Some(k) => crate::bytes::same(&consumers.entries[i].0, k),
            None => false,
        };
        if !keep_it {
            let _was: bool = pel_take(&mut consumers.entries[i].1.pel, id);
        }
        i += 1;
    }
    proof {
        assert(consumers.keys() =~= before.keys());
        consumers.lemma_keys();
        before.lemma_keys();
        assert forall|k: Seq<u8>| #[trigger] consumers.map().contains_key(k) implies {
            &&& consumers.map()[k].wf()
            &&& before.map().contains_key(k)
            &&& consumers@[k] == dropped_elsewhere(before@, id, kept)[k]
        } by {
            let j = consumers.lemma_find(k);
            before.lemma_at(j);
            assert(consumers.entries@[j].1.wf());
        }
        assert(consumers@ =~= dropped_elsewhere(before@, id, kept));
    }
}

/// The group after an ID was acknowledged.
pub open spec fn pel_removed(g: GroupV, id: StreamId) -> GroupV {
    if pel_has(g.pel, id) {
        GroupV {
            pel: pel_drop(g.pel, id),
            consumers: dropped_elsewhere(g.consumers, id, None),
            ..g
        }
    } else {
        g
    }
}

/// Removes a pending entry from the group and from its consumers. Tells
/// whether the group had it.
pub fn pel_remove(group: &mut ConsumerGroup, target: StreamId) -> (r: bool)
    requires
        old(group).wf(),
    ensures
        final(group).wf(),
        final(group)@ == pel_removed(old(group)@, target),
        r == pel_has(old(group)@.pel, target),
{
    if !pel_take(&mut group.pel, target) {
        return false;
    }
    drop_elsewhere(&mut group.consumers, target, None);
    assert(group@ =~= pel_removed(old(group)@, target));
    true
}

/// The group after a pending entry moved to another consumer.
pub open spec fn pel_reassigned(g: GroupV, e: PelEntry, owner: Seq<u8>) -> GroupV {
    let others = dropped_elsewhere(g.consumers, e.entry_id, Some(owner));
    GroupV {
        pel: pel_put(g.pel, e),
        consumers: if g.consumers.contains_key(owner) {
            others.insert(
                owner,
                ConsumerV { pel: pel_put(g.consumers[owner].pel, e), ..g.consumers[owner] },
            )
        } else {
            others
        },
        ..g
    }
}

/// Moves a pending entry to the consumer named `new_owner`.
pub fn pel_reassign(
    group: &mut ConsumerGroup,
    target: StreamId,
    new_owner: &[u8],
    delivery_time_ms: i64,
    delivery_count: u64,
)
    requires
        old(group).wf(),
    ensures
        final(group).wf(),
        final(group)@ == pel_reassigned(
            old(group)@,
            (PelEntry { entry_id: target, delivery_time_ms, delivery_count }),
            new_owner@,
        ),
{
    let e = PelEntry { entry_id: target, delivery_time_ms, delivery_count };
    pel_upsert(&mut group.pel, e);
    drop_elsewhere(&mut group.consumers, target, Some(new_owner));
    if let Some(c) = group.consumers.get_mut(new_owner) {
        pel_upsert(&mut c.pel, e);
    }
    assert(group@ =~= pel_reassigned(old(group)@, e, new_owner@));
}

/// Whether the pending entries of a group and of its consumers mirror each
/// other: each pending ID has exactly one owner, with the same entry.
pub open spec fn mirrored(g: GroupV) -> bool {
    &&& forall|k: Seq<u8>, id: StreamId|
        #![trigger pel_has(g.consumers[k].pel, id)]
        g.consumers.contains_key(k) && pel_has(g.consumers[k].pel, id) ==> pel_has(g.pel, id)
            && pel_at(g.consumers[k].pel, id) == pel_at(g.pel, id)
    &&& forall|id: StreamId| #[trigger] pel_has(g.pel, id) ==> exists|k: Seq<u8>|
        g.consumers.contains_key(k) && #[trigger] pel_has(g.consumers[k].pel, id)
    &&& forall|a: Seq<u8>, b: Seq<u8>, id: StreamId|
        #![trigger pel_has(g.consumers[a].pel, id), pel_has(g.consumers[b].pel, id)]
        g.consumers.contains_key(a) && g.consumers.contains_key(b) && pel_has(
            g.consumers[a].pel,
            id,
        ) && pel_has(g.consumers[b].pel, id) ==> a == b
}

/// The pending lists of a group ascend.
pub open spec fn group_ascends(g: GroupV) -> bool {
    &&& pel_ascends(g.pel)
    &&& forall|k: Seq<u8>| #[trigger] g.consumers.contains_key(k) ==> pel_ascends(g.consumers[k].pel)
}

/// Acknowledging an ID keeps the mirror, and leaves the ID pending nowhere.
pub proof fn law_ack_keeps_mirror(g: GroupV, id: StreamId)
    requires
        group_ascends(g),
        mirrored(g),
    ensures
        mirrored(pel_removed(g, id)),
        !pel_has(pel_removed(g, id).pel, id),
        forall|k: Seq<u8>|
            g.consumers.contains_key(k) ==> !#[trigger] pel_has(
                pel_removed(g, id).consumers[k].pel,
                id,
            ),
{
    let h = pel_removed(g, id);
    if pel_has(g.pel, id) {
        lemma_pel_drop(g.pel, id);
        assert forall|k: Seq<u8>| #[trigger] g.consumers.contains_key(k) implies pel_ascends(
            g.consumers[k].pel,
        ) by {}
        assert forall|k: Seq<u8>, j: StreamId|
            #![trigger pel_has(h.consumers[k].pel, j)]
            g.consumers.contains_key(k) implies {
            &&& pel_has(h.consumers[k].pel, j) == (j != id && pel_has(g.consumers[k].pel, j))
            &&& pel_has(h.consumers[k].pel, j) ==> pel_at(h.consumers[k].pel, j) == pel_at(
                g.consumers[k].pel,
                j,
            )
        } by {
            lemma_pel_drop(g.consumers[k].pel, id);
        }
        assert forall|j: StreamId| #[trigger] pel_has(h.pel, j) implies exists|k: Seq<u8>|
            h.consumers.contains_key(k) && #[trigger] pel_has(h.consumers[k].pel, j) by {
            assert(pel_has(g.pel, j));
            let k = choose|k: Seq<u8>|
                g.consumers.contains_key(k) && #[trigger] pel_has(g.consumers[k].pel, j);
            assert(pel_has(h.consumers[k].pel, j));
        }
    } else {
        assert forall|k: Seq<u8>| g.consumers.contains_key(k) implies !#[trigger] pel_has(
            h.consumers[k].pel,
            id,
        ) by {}
    }
}

/// Moving a pending entry to a known consumer keeps the mirror and makes that
/// consumer its owner.
pub proof fn law_claim_keeps_mirror(g: GroupV, e: PelEntry, owner: Seq<u8>)
    requires
        group_ascends(g),
        mirrored(g),
        g.consumers.contains_key(owner),
    ensures
        mirrored(pel_reassigned(g, e, owner)),
        pel_has(pel_reassigned(g, e, owner).consumers[owner].pel, e.entry_id),
        pel_at(pel_reassigned(g, e, owner).pel, e.entry_id) == e,
{
    let h = pel_reassigned(g, e, owner);
    let id = e.entry_id;
    lemma_pel_put(g.pel, e);
    lemma_pel_put(g.consumers[owner].pel, e);
    assert(pel_has(h.pel, id));
    assert forall|k: Seq<u8>, j: StreamId|
        #![trigger pel_has(h.consumers[k].pel, j)]
        g.consumers.contains_key(k) implies {
        &&& pel_has(h.consumers[k].pel, j) == (if j == id {
            k == owner
        } else {
            pel_has(g.consumers[k].pel, j)
        })
        &&& pel_has(h.consumers[k].pel, j) ==> pel_at(h.consumers[k].pel, j) == pel_at(h.pel, j)
    } by {
        lemma_pel_drop(g.consumers[k].pel, id);
        if j != id && pel_has(g.consumers[k].pel, j) {
            assert(pel_has(g.pel, j));
        }
    }
    assert forall|j: StreamId| #[trigger] pel_has(h.pel, j) implies exists|k: Seq<u8>|
        h.consumers.contains_key(k) && #[trigger] pel_has(h.consumers[k].pel, j) by {
        if j == id {
            assert(pel_has(h.consumers[owner].pel, j));
        } else {
            assert(pel_has(g.pel, j));
            let k = choose|k: Seq<u8>|
                g.consumers.contains_key(k) && #[trigger] pel_has(g.consumers[k].pel, j);
            assert(pel_has(h.consumers[k].pel, j));
        }
    }
}

/// Delivering an entry that was not pending to a known consumer keeps the
/// mirror.
pub proof fn law_delivery_keeps_mirror(g: GroupV, e: PelEntry, owner: Seq<u8>)
    requires
        group_ascends(g),
        mirrored(g),
        g.consumers.contains_key(owner),
        !pel_has(g.pel, e.entry_id),
    ensures
        mirrored(pel_added(g, owner, e)),
        pel_added(g, owner, e) == pel_reassigned(g, e, owner),
{
    let others = dropped_elsewhere(g.consumers, e.entry_id, Some(owner));
    assert forall|k: Seq<u8>| #[trigger] g.consumers.contains_key(k) && k != owner implies others[k]
        == g.consumers[k] by {
        assert(!pel_has(g.consumers[k].pel, e.entry_id));
    }
    assert(pel_added(g, owner, e).consumers =~= pel_reassigned(g, e, owner).consumers);
    law_claim_keeps_mirror(g, e, owner);
}

// ---------------------------------------------------------------------------
// Streams
// ---------------------------------------------------------------------------

/// A stream.
pub struct InlineStream {
    pub entries: Vec<StreamEntry>,
    pub last_id: StreamId,
    pub max_deleted_id: StreamId,
    pub entries_added: u64,
    pub groups: Dict<ConsumerGroup>,
}

/// What a stream holds.
#[verifier::ext_equal]
pub struct StreamV {
    pub entries: Seq<EntryV>,
    pub last_id: StreamId,
    pub max_deleted_id: StreamId,
    pub entries_added: u64,
    pub groups: Map<Seq<u8>, GroupV>,
}

impl View for InlineStream {
    type V = StreamV;

    open spec fn view(&self) -> StreamV {
        StreamV {
            entries: entry_views(self.entries@),
            last_id: self.last_id,
            max_deleted_id: self.max_deleted_id,
            entries_added: self.entries_added,
            groups: self.groups@,
        }
    }
}

/// Whether every group of a dictionary is well formed.
pub open spec fn groups_wf(d: Dict<ConsumerGroup>) -> bool {
    &&& d.wf()
    &&& forall|k: Seq<u8>| #[trigger] d.map().contains_key(k) ==> d.map()[k].wf()
}

/// The number of entries at the front whose ID comes before `id`.
pub open spec fn entry_rank(s: Seq<EntryV>, id: StreamId) -> int
    decreases s.len(),
{
    if s.len() == 0 || !id_lt(s[0].id, id) {
        0
    } else {
        1 + entry_rank(s.skip(1), id)
    }
}

/// The number of entries at the front whose ID does not come after `id`.
pub open spec fn entry_rank_past(s: Seq<EntryV>, id: StreamId) -> int
    decreases s.len(),
{
    if s.len() == 0 || id_lt(id, s[0].id) {
        0
    } else {
        1 + entry_rank_past(s.skip(1), id)
    }
}

/// Whether a stream has an entry with that ID.
pub open spec fn has_entry(s: Seq<EntryV>, id: StreamId) -> bool {
    exists|i: int| 0 <= i < s.len() && (#[trigger] s[i]).id == id
}

/// The entries after `id`.
pub open spec fn entries_after(s: Seq<EntryV>, id: StreamId) -> Seq<EntryV> {
    s.filter(|e: EntryV| id_lt(id, e.id))
}

/// The entries from `lo` to `hi`, both included.
pub open spec fn entries_between(s: Seq<EntryV>, lo: StreamId, hi: StreamId) -> Seq<EntryV> {
    s.filter(|e: EntryV| id_le(lo, e.id) && id_le(e.id, hi))
}

/// A predicate that holds exactly between two positions selects that part.
pub proof fn lemma_filter_is_range<A>(s: Seq<A>, p: spec_fn(A) -> bool, lo: int, hi: int)
    requires
        0 <= lo <= hi <= s.len(),
        forall|i: int| 0 <= i < s.len() ==> p(#[trigger] s[i]) == (lo <= i < hi),
    ensures
        s.filter(p) == s.subrange(lo, hi),
    decreases s.len(),
{
    reveal(Seq::filter);
    if s.len() > 0 {
        let t = s.drop_last();
        let n = s.len() - 1;
        assert forall|i: int| 0 <= i < t.len() implies p(#[trigger] t[i]) == (lo <= i < hi) by {
            assert(t[i] == s[i]);
        }
        let last = s.last();
        assert(last == s[n]);
        if hi == s.len() {
            if lo <= n {
                lemma_filter_is_range(t, p, lo, n);
                assert(s.filter(p) =~= t.filter(p).push(last));
                assert(s.subrange(lo, hi) =~= t.subrange(lo, n).push(last));
            } else {
                lemma_filter_is_range(t, p, n, n);
                assert(s.subrange(lo, hi) =~= t.subrange(n, n));
            }
        } else {
            lemma_filter_is_range(t, p, lo, hi);
            assert(s.subrange(lo, hi) =~= t.subrange(lo, hi));
        }
    } else {
        assert(s.subrange(lo, hi) =~= s);
    }
}

/// The ranks split an ascending list at `id`.
pub proof fn lemma_entry_rank(s: Seq<EntryV>, id: StreamId)
    requires
        entries_ascend(s),
    ensures
        0 <= entry_rank(s, id) <= entry_rank_past(s, id) <= s.len(),
        forall|i: int| 0 <= i < entry_rank(s, id) ==> id_lt((#[trigger] s[i]).id, id),
        forall|i: int| entry_rank(s, id) <= i < s.len() ==> id_le(id, (#[trigger] s[i]).id),
        forall|i: int| 0 <= i < entry_rank_past(s, id) ==> id_le((#[trigger] s[i]).id, id),
        forall|i: int| entry_rank_past(s, id) <= i < s.len() ==> id_lt(id, (#[trigger] s[i]).id),
        has_entry(s, id) <==> (entry_rank(s, id) < s.len() && s[entry_rank(s, id)].id == id),
        entries_after(s, id) == s.skip(entry_rank_past(s, id)),
    decreases s.len(),
{
    if s.len() > 0 && id_le(s[0].id, id) {
        let t = s.skip(1);
        lemma_entry_rank(t, id);
        assert forall|i: int| 0 < i < s.len() implies #[trigger] s[i] == t[i - 1] by {}
        if !id_lt(s[0].id, id) {
            if t.len() > 0 {
                assert(id_lt(s[0].id, s[1].id));
                assert(t[0] == s[1]);
                assert(entry_rank_past(t, id) == 0);
            }
        }
    }
    let n = entry_rank(s, id);
    if has_entry(s, id) {
        let i = choose|i: int| 0 <= i < s.len() && (#[trigger] s[i]).id == id;
        assert(n == i);
    }
    let m = entry_rank_past(s, id);
    lemma_filter_is_range(s, |e: EntryV| id_lt(id, e.id), m, s.len() as int);
    assert(s.subrange(m, s.len() as int) =~= s.skip(m));
}

/// The entries between two IDs stand between two ranks.
pub proof fn lemma_entries_between(s: Seq<EntryV>, lo: StreamId, hi: StreamId)
    requires
        entries_ascend(s),
    ensures
        ({
            let a = entry_rank(s, lo);
            let b = entry_rank_past(s, hi);
            entries_between(s, lo, hi) == (if a < b {
                s.subrange(a, b)
            } else {
                Seq::<EntryV>::empty()
            })
        }),
{
    let a = entry_rank(s, lo);
    let b = entry_rank_past(s, hi);
    lemma_entry_rank(s, lo);
    lemma_entry_rank(s, hi);
    let p = |e: EntryV| id_le(lo, e.id) && id_le(e.id, hi);
    if a < b {
        lemma_filter_is_range(s, p, a, b);
    } else {
        lemma_filter_is_range(s, p, a, a);
        assert(s.subrange(a, a) =~= Seq::<EntryV>::empty());
    }
}

/// The ID of the first entry, or the smallest ID.
pub open spec fn first_id(s: StreamV) -> StreamId {
    if s.entries.len() > 0 {
        s.entries[0].id
    } else {
        zero_id()
    }
}

/// Whether an entry after `start` may have been deleted.
pub open spec fn tombstone_after(s: StreamV, start: StreamId) -> bool {
    s.entries.len() > 0 && s.max_deleted_id != zero_id() && id_le(start, s.max_deleted_id)
}

/// How many entries were ever added up to `id`, or -1 where that is not known.
pub open spec fn entries_read_at(s: StreamV, id: StreamId) -> i64 {
    if s.entries_added == 0 {
        0
    } else if s.entries.len() == 0 && id_le(id, s.last_id) {
        s.entries_added as i64
    } else if id_lt(id, s.max_deleted_id) {
        SCG_INVALID_ENTRIES_READ
    } else if id == s.last_id {
        s.entries_added as i64
    } else if id_lt(s.last_id, id) {
        SCG_INVALID_ENTRIES_READ
    } else if s.max_deleted_id != zero_id() && id_le(first_id(s), s.max_deleted_id) {
        SCG_INVALID_ENTRIES_READ
    } else if id_lt(id, first_id(s)) {
        (s.entries_added - s.entries.len()) as i64
    } else if id == first_id(s) {
        (s.entries_added - s.entries.len() + 1) as i64
    } else {
        SCG_INVALID_ENTRIES_READ
    }
}

/// The entries-read counter and position of a group after one delivery.
pub open spec fn read_one(s: StreamV, at: (i64, StreamId), id: StreamId) -> (i64, StreamId) {
    if id_lt(at.1, id) {
        let read = if at.0 != SCG_INVALID_ENTRIES_READ && id_le(first_id(s), at.1)
            && !tombstone_after(s, at.1) && at.0 < i64::MAX {
            (at.0 + 1) as i64
        } else if s.entries_added != 0 {
            entries_read_at(s, id)
        } else {
            at.0
        };
        (read, id)
    } else {
        at
    }
}

/// The entries-read counter and position of a group after some deliveries.
pub open spec fn read_all(s: StreamV, at: (i64, StreamId), ids: Seq<EntryV>) -> (i64, StreamId)
    decreases ids.len(),
{
    if ids.len() == 0 {
        at
    } else {
        read_one(s, read_all(s, at, ids.drop_last()), ids.last().id)
    }
}

/// How many entries a group has yet to read, where that is known.
pub open spec fn group_lag(s: StreamV, g: GroupV) -> Option<i64> {
    if s.entries_added == 0 {
        Some(0i64)
    } else {
        let read = if g.entries_read != SCG_INVALID_ENTRIES_READ && id_le(
            first_id(s),
            g.last_delivered_id,
        ) && !tombstone_after(s, g.last_delivered_id) {
            g.entries_read
        } else {
            entries_read_at(s, g.last_delivered_id)
        };
        if read == SCG_INVALID_ENTRIES_READ {
            None
        } else {
            Some((s.entries_added - read) as i64)
        }
    }
}

/// The stream after an entry was appended.
pub open spec fn appended(s: StreamV, e: EntryV) -> StreamV {
    StreamV {
        entries: s.entries.push(e),
        last_id: e.id,
        entries_added: if s.entries_added < u64::MAX {
            (s.entries_added + 1) as u64
        } else {
            u64::MAX
        },
        ..s
    }
}

/// The stream after the entry of an ID was deleted.
pub open spec fn deleted(s: StreamV, id: StreamId) -> StreamV {
    if has_entry(s.entries, id) {
        StreamV {
            entries: s.entries.remove(entry_rank(s.entries, id)),
            max_deleted_id: id_max(s.max_deleted_id, id),
            ..s
        }
    } else {
        s
    }
}

impl InlineStream {
    /// Entries ascend up to the last ID; groups are well formed.
    pub open spec fn wf(self) -> bool {
        &&& entries_ascend(self@.entries)
        &&& self.entries@.len() > 0 ==> id_le(self.entries@.last().id, self.last_id)
        &&& groups_wf(self.groups)
    }

    /// An empty stream.
    pub fn new() -> (r: InlineStream)
        ensures
            r.wf(),
            r@ == new_stream(),
    {
        let r = InlineStream {
            entries: Vec::new(),
            last_id: StreamId::zero(),
            max_deleted_id: StreamId::zero(),
            entries_added: 0,
            groups: Dict::new(),
        };
        assert(r@ =~= new_stream());
        r
    }

    /// The number of entries.
    pub fn len(&self) -> (r: usize)
        ensures
            r == self@.entries.len(),
    {
        self.entries.len()
    }

    /// The position of the first entry whose ID is not before `id`.
    pub fn lower_bound(&self, id: StreamId) -> (r: usize)
        ensures
            r == entry_rank(self@.entries, id),
            r <= self.entries@.len(),
    {
        let ghost s = self@.entries;
        let mut i: usize = 0;
        proof {
            assert(s.skip(0) =~= s);
        }
        while i < self.entries.len() && self.entries[i].id.less(id)
            invariant
                s == self@.entries,
                i <= self.entries@.len(),
                entry_rank(s, id) == i + entry_rank(s.skip(i as int), id),
            decreases self.entries@.len() - i,
        {
            assert(s.skip(i as int).skip(1) =~= s.skip(i + 1));
            assert(s[i as int].id == self.entries@[i as int].id);
            i += 1;
        }
        if i < self.entries.len() {
            assert(s[i as int].id == self.entries@[i as int].id);
        }
        i
    }

    /// The position of the first entry whose ID comes after `id`.
    pub fn upper_bound(&self, id: StreamId) -> (r: usize)
        ensures
            r == entry_rank_past(self@.entries, id),
            r <= self.entries@.len(),
    {
        let ghost s = self@.entries;
        let mut i: usize = 0;
        proof {
            assert(s.skip(0) =~= s);
        }
        while i < self.entries.len() && !id.less(self.entries[i].id)
            invariant
                s == self@.entries,
                i <= self.entries@.len(),
                entry_rank_past(s, id) == i + entry_rank_past(s.skip(i as int), id),
            decreases self.entries@.len() - i,
        {
            assert(s.skip(i as int).skip(1) =~= s.skip(i + 1));
            assert(s[i as int].id == self.entries@[i as int].id);
            i += 1;
        }
        if i < self.entries.len() {
            assert(s[i as int].id == self.entries@[i as int].id);
        }
        i
    }

    /// The position of the entry with that ID.
    pub fn find_entry(&self, id: StreamId) -> (r: Option<usize>)
        requires
            entries_ascend(self@.entries),
        ensures
            match r {
                Some(i) => has_entry(self@.entries, id) && i == entry_rank(self@.entries, id) && i
                    < self.entries@.len(),
                None => !has_entry(self@.entries, id),
            },
    {
        proof {
            lemma_entry_rank(self@.entries, id);
        }
        let i: usize = self.lower_bound(id);
        if i < self.entries.len() && self.entries[i].id == id {
            assert(self@.entries[i as int].id == id);
            Some(i)
        } else {
            None
        }
    }

    /// Appends an entry with an ID past the last one.
    pub fn append(&mut self, e: StreamEntry)
        requires
            old(self).wf(),
            id_lt(old(self).last_id, e.id),
        ensures
            final(self).wf(),
            final(self)@ == appended(old(self)@, e@),
    {
        let ghost before = self@;
        self.last_id = e.id;
        let ghost ev = e@;
        self.entries.push(e);
        if self.entries_added < u64::MAX {
            self.entries_added = self.entries_added + 1;
        }
        proof {
            assert(self@.entries =~= before.entries.push(ev));
            assert forall|i: int| 0 <= i < before.entries.len() implies id_lt(
                (#[trigger] before.entries[i]).id,
                ev.id,
            ) by {
                let n = before.entries.len() - 1;
                assert(before.entries[n].id == old(self).entries@.last().id);
                if i < n {
                    assert(id_lt(before.entries[i].id, before.entries[n].id));
                }
            }
            assert(self@ =~= appended(before, ev));
        }
    }

    /// Deletes the entry with that ID. Tells whether there was one.
    pub fn delete(&mut self, id: StreamId) -> (r: bool)
        requires
            old(self).wf(),
        ensures
            final(self).wf(),
            final(self)@ == deleted(old(self)@, id),
            r == has_entry(old(self)@.entries, id),
    {
        let ghost before = self@;
        match self.find_entry(id) {
            None => false,
            Some(i) => {
                let _gone: StreamEntry = self.entries.remove(i);
                self.max_deleted_id = self.max_deleted_id.later(id);
                proof {
                    assert(self@.entries =~= before.entries.remove(i as int));
                    assert(self@ =~= deleted(before, id));
                    if self.entries@.len() > 0 {
                        let n = before.entries.len() - 1;
                        assert(before.entries[n].id == old(self).entries@.last().id);
                        if i == n {
                            assert(self@.entries.last() == before.entries[n - 1]);
                            assert(id_lt(before.entries[n - 1].id, before.entries[n].id));
                        } else {
                            assert(self@.entries.last() == before.entries[n]);
                        }
                        assert(self@.entries.last().id == self.entries@.last().id);
                    }
                }
                true
            },
        }
    }

    /// Removes `count` entries from the front, or all if there are fewer.
    pub fn drain_front(&mut self, count: usize) -> (r: usize)
        requires
            old(self).wf(),
        ensures
            final(self).wf(),
            r == (if count < old(self)@.entries.len() {
                count as int
            } else {
                old(self)@.entries.len() as int
            }),
            final(self)@ == (StreamV {
                entries: old(self)@.entries.skip(r as int),
                ..old(self)@
            }),
    {
        let ghost before = self@;
        let n: usize = if count < self.entries.len() {
            count
        } else {
            self.entries.len()
        };
        let rest: Vec<StreamEntry> = self.entries.split_off(n);
        self.entries = rest;
        proof {
            assert(self@.entries =~= before.entries.skip(n as int));
            assert forall|i: int, j: int| 0 <= i < j < self@.entries.len() implies id_lt(
                (#[trigger] self@.entries[i]).id,
                (#[trigger] self@.entries[j]).id,
            ) by {
                assert(self@.entries[i] == before.entries[i + n]);
                assert(self@.entries[j] == before.entries[j + n]);
            }
            assert(self@ =~= (StreamV { entries: before.entries.skip(n as int), ..before }));
        }
        n
    }

    /// How many entries were ever added up to `id`, or -1.
    fn count_read_at(&self, id: StreamId) -> (r: i64)
        ensures
            r == entries_read_at(self@, id),
    {
        let first: StreamId = self.first();
        let len: usize = self.entries.len();
        if self.entries_added == 0 {
            0
        } else if len == 0 && !self.last_id.less(id) {
            self.entries_added as i64
        } else if id.less(self.max_deleted_id) {
            SCG_INVALID_ENTRIES_READ
        } else if id == self.last_id {
            self.entries_added as i64
        } else if self.last_id.less(id) {
            SCG_INVALID_ENTRIES_READ
        } else if self.max_deleted_id != StreamId::zero() && !self.max_deleted_id.less(first) {
            SCG_INVALID_ENTRIES_READ
        } else if id.less(first) {
            (self.entries_added as i128 - len as i128) as i64
        } else if id == first {
            (self.entries_added as i128 - len as i128 + 1) as i64
        } else {
            SCG_INVALID_ENTRIES_READ
        }
    }

    /// The ID of the first entry, or the smallest ID.
    pub fn first(&self) -> (r: StreamId)
        ensures
            r == first_id(self@),
    {
        if self.entries.len() > 0 {
            assert(self@.entries[0].id == self.entries@[0].id);
            self.entries[0].id
        } else {
            StreamId::zero()
        }
    }

    /// Whether an entry after `start` may have been deleted.
    fn may_have_tombstone(&self, start: StreamId) -> (r: bool)
        ensures
            r == tombstone_after(self@, start),
    {
        self.entries.len() > 0 && self.max_deleted_id != StreamId::zero()
            && !self.max_deleted_id.less(start)
    }

    /// The counter and position of a group after the entries from `from` up to
    /// but without `to` were delivered to it.
    pub fn advance_read_counter(&self, read: i64, last: StreamId, from: usize, to: usize) -> (r: (
        i64,
        StreamId,
    ))
        requires
            from <= to <= self.entries@.len(),
        ensures
            r == read_all(self@, (read, last), self@.entries.subrange(from as int, to as int)),
    {
        let ghost s = self@;
        let mut at: (i64, StreamId) = (read, last);
        let mut i: usize = from;
        while i < to
            invariant
                s == self@,
                from <= i <= to <= self.entries@.len(),
                at == read_all(s, (read, last), s.entries.subrange(from as int, i as int)),
            decreases to - i,
        {
            let id: StreamId = self.entries[i].id;
            let ghost part = s.entries.subrange(from as int, i + 1);
            assert(part.drop_last() =~= s.entries.subrange(from as int, i as int));
            assert(part.last().id == id);
            if at.1.less(id) {
                let n: i64 = if at.0 != SCG_INVALID_ENTRIES_READ && !at.1.less(self.first())
                    && !self.may_have_tombstone(at.1) && at.0 < i64::MAX {
                    at.0 + 1
                } else if self.entries_added != 0 {
                    self.count_read_at(id)
                } else {
                    at.0
                };
                at = (n, id);
            }
            i += 1;
        }
        at
    }

    /// How many entries a group has yet to read, where that is known.
    pub fn lag_of(&self, g: &ConsumerGroup) -> (r: Option<i64>)
        ensures
            r == group_lag(self@, g@),
    {
        if self.entries_added == 0 {
            return Some(0);
        }
        let read: i64 = if g.entries_read != SCG_INVALID_ENTRIES_READ && !g.last_delivered_id.less(
            self.first(),
        ) && !self.may_have_tombstone(g.last_delivered_id) {
            g.entries_read
        } else {
            self.count_read_at(g.last_delivered_id)
        };
        if read == SCG_INVALID_ENTRIES_READ {
            None
        } else {
            Some((self.entries_added as i128 - read as i128) as i64)
        }
    }
}

/// An empty stream.
pub open spec fn new_stream() -> StreamV {
    StreamV {
        entries: Seq::empty(),
        last_id: zero_id(),
        max_deleted_id: zero_id(),
        entries_added: 0,
        groups: Map::empty(),
    }
}

} // verus!
