//! What the commands on the entries of a stream do, from their arguments to the
//! database and the reply.

use vstd::prelude::*;
use vstd::utf8::is_ascii_chars_encode_utf8;

use crate::bytes::{
    all_digits, dec, find_byte, i64_of, is_word, law_decimal_round_trip, lemma_digits_read_back,
    text, u64_of,
};
use crate::context::{replies, ActionV, CtxV, DeliveryV, WaiterV};
use crate::filters::{
    lemma_filter_all, lemma_filter_both, lemma_filter_keeps, lemma_filter_remove, lemma_filter_same,
};
use crate::keyspace::{stream_in, ObjV};
use crate::reply::Tok;
use crate::stream::{
    deleted_all, evicted, id_list, in_bounds, law_delete, law_trim, read_results, read_starts,
    trimmed, xadd_outcome, xdel_outcome, xlen_outcome, xrange_outcome, xread_outcome,
    xsetid_outcome, xtrim_outcome,
};
use crate::stream_data::{
    deleted, entries_ascend, entry_rank, has_entry, id_le, id_lt, id_of, id_pred, id_succ, id_text,
    lemma_entry_rank, max_id, new_stream, zero_id, EntryV, GroupV, StreamId, StreamV,
};
use crate::stream_parse::{
    add_options, range_bound, read_options, trim_clause, xadd_id, AddOptions, Bound, BoundSide,
    TrimStrategy,
};
use crate::stream_wake::{
    entries_toks, entry_toks, field_toks, not_waiting, read_frame, same_frames, waiting, waits,
    wakes_all, wakes_new_entry, client_ids, WaitKind, WakeV,
};
use crate::string_laws::{answers, refuses};
use crate::words::{lemma_word, lemma_words_differ};

verus! {

// ---------------------------------------------------------------------------
// IDs
// ---------------------------------------------------------------------------

/// The number that an ID stands for.
pub open spec fn num(id: StreamId) -> int {
    id.ms * 18446744073709551616 + id.seq
}

/// IDs are ordered by their numbers, and the next and the previous one differ by
/// one.
pub proof fn law_ids_are_numbers(a: StreamId, b: StreamId)
    ensures
        id_lt(a, b) <==> num(a) < num(b),
        id_le(a, b) <==> num(a) <= num(b),
        a == b <==> num(a) == num(b),
        id_succ(a) matches Some(n) ==> num(n) == num(a) + 1,
        id_succ(a) is None <==> num(a) == num(max_id()),
        id_pred(a) matches Some(n) ==> num(n) == num(a) - 1,
        id_pred(a) is None <==> num(a) == 0,
        num(zero_id()) == 0,
        num(a) <= num(max_id()),
        num(a) >= 0,
{
    assert(a.ms < b.ms ==> num(a) < num(b)) by (nonlinear_arith)
        requires
            num(a) == a.ms * 18446744073709551616 + a.seq,
            num(b) == b.ms * 18446744073709551616 + b.seq,
            a.seq < 18446744073709551616,
            b.seq >= 0,
    ;
    assert(b.ms < a.ms ==> num(b) < num(a)) by (nonlinear_arith)
        requires
            num(a) == a.ms * 18446744073709551616 + a.seq,
            num(b) == b.ms * 18446744073709551616 + b.seq,
            b.seq < 18446744073709551616,
            a.seq >= 0,
    ;
}

/// A byte that does not occur is not found.
proof fn lemma_not_found(s: Seq<u8>, b: u8, from: int)
    requires
        0 <= from,
        forall|i: int| from <= i < s.len() ==> #[trigger] s[i] != b,
    ensures
        find_byte(s, b, from) is None,
    decreases s.len() - from,
{
    if from < s.len() {
        assert(s[from] != b);
        lemma_not_found(s, b, from + 1);
    }
}

/// An ID is written as its two numbers with a dash between them; a number alone
/// stands for its milliseconds.
pub proof fn law_ids_are_read(ms: u64, seq: u64, default_seq: u64)
    ensures
        id_of(dec(ms as int) + seq![45u8] + dec(seq as int), default_seq) == Some(
            StreamId { ms, seq },
        ),
        id_of(dec(ms as int), default_seq) == Some(StreamId { ms, seq: default_seq }),
        id_text(StreamId { ms, seq }) == dec(ms as int) + seq![45u8] + dec(seq as int),
{
    crate::stream_data::law_id_text_round_trip(StreamId { ms, seq }, default_seq);
    lemma_digits_read_back(ms as nat);
    lemma_not_found(dec(ms as int), 45, 0);
    law_decimal_round_trip(0, ms);
}

/// Marks and signs of one character are no numbers.
proof fn lemma_signs()
    ensures
        i64_of(text("="@)) is None,
        i64_of(text("~"@)) is None,
        id_of(text("="@), 0) is None,
        id_of(text("~"@), 0) is None,
        u64_of(text("*"@)) is None,
        id_of(text("*"@), 0) is None,
{
    reveal_strlit("=");
    reveal_strlit("~");
    reveal_strlit("*");
    is_ascii_chars_encode_utf8("="@);
    is_ascii_chars_encode_utf8("~"@);
    is_ascii_chars_encode_utf8("*"@);
    assert("="@[0] == '=');
    assert("~"@[0] == '~');
    assert("*"@[0] == '*');
    let (a, b, d) = (text("="@), text("~"@), text("*"@));
    assert(a[0] == 61 && b[0] == 126 && d[0] == 42);
    assert(!all_digits(a)) by {
        assert(a[0] == 61);
    }
    assert(!all_digits(b)) by {
        assert(b[0] == 126);
    }
    assert(!all_digits(d)) by {
        assert(d[0] == 42);
    }
    lemma_not_found(a, 45, 0);
    lemma_not_found(b, 45, 0);
    lemma_not_found(d, 45, 0);
}

// ---------------------------------------------------------------------------
// What entries look like in a reply
// ---------------------------------------------------------------------------

/// An entry is an array of its ID and an array of its fields and values, in
/// turn.
pub proof fn law_entry_in_a_reply(e: EntryV, k: int)
    requires
        0 <= k < e.fields.len(),
    ensures
        entry_toks(e).len() == 3 + 2 * e.fields.len(),
        entry_toks(e)[0] == Tok::Array(2),
        entry_toks(e)[1] == Tok::Bulk(dec(e.id.ms as int) + seq![45u8] + dec(e.id.seq as int)),
        entry_toks(e)[2] == Tok::Array((2 * e.fields.len()) as nat),
        entry_toks(e)[3 + 2 * k] == Tok::Bulk(e.fields[k].0),
        entry_toks(e)[4 + 2 * k] == Tok::Bulk(e.fields[k].1),
{
    lemma_fields(e.fields, k);
}

proof fn lemma_fields(f: Seq<(Seq<u8>, Seq<u8>)>, k: int)
    ensures
        field_toks(f).len() == 2 * f.len(),
        0 <= k < f.len() ==> field_toks(f)[2 * k] == Tok::Bulk(f[k].0) && field_toks(f)[2 * k + 1]
            == Tok::Bulk(f[k].1),
    decreases f.len(),
{
    if f.len() > 0 {
        lemma_fields(f.drop_last(), k);
    }
}

/// Entries stand in a reply one after the other.
pub proof fn law_entries_in_a_reply(a: Seq<EntryV>, b: Seq<EntryV>, e: EntryV)
    ensures
        entries_toks(Seq::empty()) == Seq::<Tok>::empty(),
        entries_toks(seq![e]) == entry_toks(e),
        entries_toks(a + b) == entries_toks(a) + entries_toks(b),
    decreases b.len(),
{
    assert(seq![e].drop_last() =~= Seq::empty());
    reveal_with_fuel(entries_toks, 2);
    assert(entries_toks(seq![e]) =~= entry_toks(e));
    if b.len() == 0 {
        assert(a + b =~= a);
        assert(entries_toks(a) + entries_toks(b) =~= entries_toks(a));
    } else {
        law_entries_in_a_reply(a, b.drop_last(), e);
        assert((a + b).drop_last() =~= a + b.drop_last());
        assert(entries_toks(a + b) =~= entries_toks(a) + entries_toks(b));
    }
}

// ---------------------------------------------------------------------------
// XRANGE and XREVRANGE
// ---------------------------------------------------------------------------

/// Whether an ID lies behind a lower end: `-` is before all, a bracket leaves
/// the ID itself out, and milliseconds alone mean their first ID.
pub open spec fn past_start(arg: Seq<u8>, id: StreamId) -> bool {
    if arg == text("-"@) {
        true
    } else if arg == text("+"@) {
        false
    } else if arg.len() > 0 && arg[0] == 40 {
        id_of(arg.skip(1), 0) matches Some(b) && num(b) < num(id)
    } else {
        id_of(arg, 0) matches Some(b) && num(b) <= num(id)
    }
}

/// Whether an ID lies before an upper end: `+` is behind all, a bracket leaves
/// the ID itself out, and milliseconds alone mean their last ID.
pub open spec fn before_end(arg: Seq<u8>, id: StreamId) -> bool {
    if arg == text("-"@) {
        false
    } else if arg == text("+"@) {
        true
    } else if arg.len() > 0 && arg[0] == 40 {
        id_of(arg.skip(1), u64::MAX) matches Some(b) && num(id) < num(b)
    } else {
        id_of(arg, u64::MAX) matches Some(b) && num(id) <= num(b)
    }
}

proof fn lemma_bounds(entries: Seq<EntryV>, lo: Seq<u8>, hi: Seq<u8>)
    requires
        range_bound(lo, BoundSide::Start) is Ok,
        range_bound(hi, BoundSide::End) is Ok,
    ensures
        in_bounds(
            entries,
            range_bound(lo, BoundSide::Start)->Ok_0,
            range_bound(hi, BoundSide::End)->Ok_0,
        ) == entries.filter(|e: EntryV| past_start(lo, e.id) && before_end(hi, e.id)),
{
    let start = range_bound(lo, BoundSide::Start)->Ok_0;
    let end = range_bound(hi, BoundSide::End)->Ok_0;
    let p = |e: EntryV| past_start(lo, e.id) && before_end(hi, e.id);
    if start is Max || end is Min {
        lemma_filter_all(entries, p);
        assert(entries.filter(p) =~= Seq::empty());
    } else {
        let a = match start {
            Bound::Inclusive(id) => id,
            _ => zero_id(),
        };
        let b = match end {
            Bound::Inclusive(id) => id,
            _ => max_id(),
        };
        let q = |e: EntryV| id_le(a, e.id) && id_le(e.id, b);
        assert forall|i: int| 0 <= i < entries.len() implies q(#[trigger] entries[i]) == p(
            entries[i],
        ) by {
            let id = entries[i].id;
            law_ids_are_numbers(a, id);
            law_ids_are_numbers(id, b);
            if let Some(x) = id_of(lo.skip(1), 0) {
                law_ids_are_numbers(x, id);
            }
            if let Some(x) = id_of(hi.skip(1), u64::MAX) {
                law_ids_are_numbers(x, id);
            }
        }
        lemma_filter_same(entries, q, p);
    }
}

/// The argument that tells the lower end of a range: XREVRANGE takes it last.
pub open spec fn low_end(argv: Seq<Seq<u8>>, rev: bool) -> Seq<u8> {
    if rev {
        argv[3]
    } else {
        argv[2]
    }
}

/// The argument that tells the upper end of a range.
pub open spec fn high_end(argv: Seq<Seq<u8>>, rev: bool) -> Seq<u8> {
    if rev {
        argv[2]
    } else {
        argv[3]
    }
}

/// The first `n` of some entries, or all of them, from the front or from the
/// back.
pub open spec fn first_of(all: Seq<EntryV>, whole: bool, n: int, rev: bool) -> Seq<EntryV> {
    let m = if whole || n >= all.len() {
        all.len() as int
    } else {
        n
    };
    Seq::new(
        m as nat,
        |i: int|
            if rev {
                all[all.len() - 1 - i]
            } else {
                all[i]
            },
    )
}

/// XRANGE shows the entries between the two ends in the order of their IDs,
/// XREVRANGE in the opposite order. With COUNT n the first n of them are shown:
/// what is left out lies behind all that is shown.
pub proof fn law_range_shows_the_first(c: CtxV, s: StreamV, rev: bool, n: i64, x: EntryV)
    requires
        c.client.argv.len() == 4 || (c.client.argv.len() == 6 && is_word(
            c.client.argv[4],
            "COUNT"@,
        ) && i64_of(c.client.argv[5]) == Some(n) && n >= 0),
        stream_in(c.db, c.client.argv[1]) == Ok::<_, crate::error::ErrV>(Some(s)),
        entries_ascend(s.entries),
        xrange_outcome(c, rev).result is Ok,
    ensures
        ({
            let argv = c.client.argv;
            let o = xrange_outcome(c, rev);
            let lo = low_end(argv, rev);
            let hi = high_end(argv, rev);
            let all = s.entries.filter(|e: EntryV| past_start(lo, e.id) && before_end(hi, e.id));
            let shown = first_of(all, argv.len() == 4, n as int, rev);
            &&& o.ctx == (CtxV {
                replies: c.replies + seq![Tok::Array(shown.len())] + entries_toks(shown),
                ..c
            })
            &&& forall|i: int, j: int|
                0 <= i < j < shown.len() ==> if rev {
                    num(#[trigger] shown[j].id) < num(#[trigger] shown[i].id)
                } else {
                    num(shown[i].id) < num(shown[j].id)
                }
            &&& s.entries.contains(x) && past_start(lo, x.id) && before_end(hi, x.id)
                && !shown.contains(x) ==> shown.len() == n && forall|i: int|
                0 <= i < shown.len() ==> if rev {
                    num(x.id) < num((#[trigger] shown[i]).id)
                } else {
                    num((#[trigger] shown[i]).id) < num(x.id)
                }
        }),
{
    let argv = c.client.argv;
    let o = xrange_outcome(c, rev);
    let lo = low_end(argv, rev);
    let hi = high_end(argv, rev);
    lemma_bounds(s.entries, lo, hi);
    let p = |e: EntryV| past_start(lo, e.id) && before_end(hi, e.id);
    let all = s.entries.filter(p);
    let m = if argv.len() == 4 || n >= all.len() { all.len() as int } else { n as int };
    let turned = if rev { all.reverse() } else { all };
    let shown = first_of(all, argv.len() == 4, n as int, rev);
    assert(turned.take(m) =~= shown);
    assert(o.ctx.replies =~= c.replies + seq![Tok::Array(shown.len())] + entries_toks(shown));
    lemma_filter_ascends(s.entries, p);
    assert forall|i: int, j: int| 0 <= i < j < all.len() implies num((#[trigger] all[i]).id) < num(
        (#[trigger] all[j]).id,
    ) by {
        law_ids_are_numbers(all[i].id, all[j].id);
    }
    if s.entries.contains(x) && p(x) && !shown.contains(x) {
        lemma_filter_keeps(s.entries, p);
        assert(all.contains(x));
        let k = all.index_of(x);
        let t = if rev { all.len() - 1 - k } else { k };
        assert(turned[t] == x);
        if t < m {
            assert(shown[t] == x);
        }
        assert forall|i: int| 0 <= i < shown.len() implies if rev {
            num(x.id) < num((#[trigger] shown[i]).id)
        } else {
            num((#[trigger] shown[i]).id) < num(x.id)
        } by {
            if rev {
                assert(shown[i] == all[all.len() - 1 - i]);
            }
        }
    }
}

/// A filter keeps the order of entries.
pub proof fn lemma_filter_ascends(s: Seq<EntryV>, p: spec_fn(EntryV) -> bool)
    requires
        entries_ascend(s),
    ensures
        entries_ascend(s.filter(p)),
        forall|i: int| 0 <= i < s.filter(p).len() ==> p(#[trigger] s.filter(p)[i]),
    decreases s.len(),
{
    reveal(Seq::filter);
    if s.len() > 0 {
        let t = s.drop_last();
        assert(entries_ascend(t)) by {
            assert forall|i: int, j: int| 0 <= i < j < t.len() implies id_lt(
                (#[trigger] t[i]).id,
                (#[trigger] t[j]).id,
            ) by {
                assert(id_lt(s[i].id, s[j].id));
            }
        }
        lemma_filter_ascends(t, p);
        lemma_filter_keeps(t, p);
        let f = t.filter(p);
        if p(s.last()) {
            let g = f.push(s.last());
            assert forall|i: int, j: int| 0 <= i < j < g.len() implies id_lt(
                (#[trigger] g[i]).id,
                (#[trigger] g[j]).id,
            ) by {
                if j == f.len() {
                    assert(f.contains(f[i]));
                    let k = t.index_of(f[i]);
                    assert(id_lt(s[k].id, s[s.len() - 1].id));
                }
            }
        }
    }
}

// ---------------------------------------------------------------------------
// XADD
// ---------------------------------------------------------------------------

/// Whether an argument begins as an ID does: with a digit or with a star.
pub open spec fn begins_as_id(a: Seq<u8>) -> bool {
    a.len() > 0 && (a[0] == 42 || 48 <= a[0] <= 57)
}

proof fn lemma_id_is_no_word(a: Seq<u8>)
    requires
        begins_as_id(a),
    ensures
        !is_word(a, "NOMKSTREAM"@),
        !is_word(a, "MAXLEN"@),
        !is_word(a, "MINID"@),
        !is_word(a, "LIMIT"@),
{
    reveal_strlit("NOMKSTREAM");
    reveal_strlit("MAXLEN");
    reveal_strlit("MINID");
    reveal_strlit("LIMIT");
    lemma_word(a, "NOMKSTREAM"@);
    lemma_word(a, "MAXLEN"@);
    lemma_word(a, "MINID"@);
    lemma_word(a, "LIMIT"@);
    assert("NOMKSTREAM"@[0] == 'N' && "MAXLEN"@[0] == 'M' && "MINID"@[0] == 'M' && "LIMIT"@[0]
        == 'L');
}

/// Serving waiting group readers leaves the entries of a stream, and all other
/// keys.
proof fn lemma_wakes_keep(st: WakeV, ws: Seq<WaiterV>, key: Seq<u8>, now: i64, s: StreamV)
    requires
        st.db.objects.contains_key(key),
        st.db.objects[key] == ObjV::Stream(s),
    ensures
        ({
            let d = wakes_all(st, ws, key, now, false).db;
            &&& d.objects.contains_key(key)
            &&& d.objects[key] is Stream
            &&& d.objects[key]->Stream_0.entries == s.entries
            &&& d.objects[key]->Stream_0.last_id == s.last_id
            &&& d.objects[key]->Stream_0.max_deleted_id == s.max_deleted_id
            &&& d.objects[key]->Stream_0.entries_added == s.entries_added
            &&& d.objects.remove(key) == st.db.objects.remove(key)
            &&& d.expires == st.db.expires
        }),
    decreases ws.len(),
{
    if ws.len() > 0 {
        lemma_wakes_keep(st, ws.drop_last(), key, now, s);
        let b = wakes_all(st, ws.drop_last(), key, now, false).db;
        let d = wakes_all(st, ws, key, now, false).db;
        assert(d.objects.remove(key) =~= b.objects.remove(key));
    }
}

/// Whether XADD accepts what it is given as an ID for a stream: a star always
/// but at the end of all IDs, another ID where it lies behind the last one.
pub open spec fn id_fits(arg: Seq<u8>, last: StreamId) -> bool {
    if arg == text("*"@) {
        num(last) < num(max_id())
    } else {
        id_of(arg, 0) matches Some(id) && num(last) < num(id)
    }
}

/// XADD without options puts one entry behind all others, with the fields and
/// values in the order in which they were given, under the ID that was asked for,
/// or under one that is made of the time and lies behind the last one. What does
/// not fit changes nothing.
pub proof fn law_xadd_appends(c: CtxV, s: StreamV, k: int)
    requires
        c.client.argv.len() >= 5,
        (c.client.argv.len() - 3) % 2 == 0,
        begins_as_id(c.client.argv[2]),
        c.client.argv[2] == text("*"@) || id_of(c.client.argv[2], 0) is Some,
        match stream_in(c.db, c.client.argv[1]) {
            Ok(Some(t)) => s == t,
            Ok(None) => s.entries.len() == 0 && num(s.last_id) == 0 && s.entries_added == 0
                && num(s.max_deleted_id) == 0 && s.groups == Map::<Seq<u8>, GroupV>::empty(),
            Err(_) => false,
        },
        0 <= k < (c.client.argv.len() - 3) / 2,
    ensures
        ({
            let argv = c.client.argv;
            let o = xadd_outcome(c);
            let t = o.ctx.db.objects[argv[1]]->Stream_0;
            let e = t.entries.last();
            &&& !id_fits(argv[2], s.last_id) ==> refuses(c, o)
            &&& id_fits(argv[2], s.last_id) ==> {
                &&& answers(
                    c,
                    o,
                    Tok::Bulk(dec(e.id.ms as int) + seq![45u8] + dec(e.id.seq as int)),
                )
                &&& o.ctx.db.objects.contains_key(argv[1])
                &&& o.ctx.db.objects[argv[1]] is Stream
                &&& o.ctx.db.objects.remove(argv[1]) == c.db.objects.remove(argv[1])
                &&& t.entries.len() == s.entries.len() + 1
                &&& t.entries.drop_last() == s.entries
                &&& t.last_id == e.id
                &&& num(s.last_id) < num(e.id)
                &&& s.entries_added < u64::MAX ==> t.entries_added == s.entries_added + 1
                &&& t.max_deleted_id == s.max_deleted_id
                &&& 2 * e.fields.len() == argv.len() - 3
                &&& e.fields[k] == (argv[3 + 2 * k], argv[4 + 2 * k])
                &&& argv[2] != text("*"@) ==> Some(e.id) == id_of(argv[2], 0)
                &&& argv[2] == text("*"@) && c.now > 0 && c.now > s.last_id.ms ==> e.id.ms == c.now
                    && e.id.seq == 0
                &&& argv[2] == text("*"@) && c.now <= s.last_id.ms ==> num(e.id) == num(s.last_id)
                    + 1
            }
        }),
{
    let argv = c.client.argv;
    let key = argv[1];
    lemma_id_is_no_word(argv[2]);
    lemma_signs();
    assert(add_options(
        argv,
        2,
        AddOptions { no_mkstream: false, trim: TrimStrategy::Keep },
    ) == Ok::<_, crate::error::ErrV>((AddOptions { no_mkstream: false, trim: TrimStrategy::Keep }, 2int)));
    if stream_in(c.db, key) == Ok::<Option<StreamV>, crate::error::ErrV>(None) {
        law_ids_are_numbers(s.last_id, zero_id());
        law_ids_are_numbers(s.max_deleted_id, zero_id());
        assert(s =~= new_stream());
    }
    law_ids_are_numbers(s.last_id, s.last_id);
    if let Some(id) = id_of(argv[2], 0) {
        law_ids_are_numbers(s.last_id, id);
        law_ids_are_numbers(id, zero_id());
    }
    let auto = crate::stream::auto_id(s.last_id, c.now);
    law_ids_are_numbers(s.last_id, auto);
    lemma_xadd_stores(c, s, 2, TrimStrategy::Keep);
    let o = xadd_outcome(c);
    if o.result is Ok {
        let t = o.ctx.db.objects[key]->Stream_0;
        assert(t.entries.drop_last() =~= s.entries);
    }
}

/// What XADD leaves where it was given an ID behind some options.
proof fn lemma_xadd_stores(c: CtxV, s: StreamV, at: int, trim: TrimStrategy)
    requires
        2 <= at < c.client.argv.len() - 1,
        c.client.argv.len() >= 5,
        (c.client.argv.len() - at - 1) % 2 == 0,
        add_options(
            c.client.argv,
            2,
            AddOptions { no_mkstream: false, trim: TrimStrategy::Keep },
        ) == Ok::<_, crate::error::ErrV>((AddOptions { no_mkstream: false, trim }, at)),
        match stream_in(c.db, c.client.argv[1]) {
            Ok(Some(t)) => s == t,
            Ok(None) => s == new_stream(),
            Err(_) => false,
        },
    ensures
        ({
            let argv = c.client.argv;
            let o = xadd_outcome(c);
            let id = xadd_id(argv[at]);
            let next = crate::stream::next_id(id->Ok_0, s.last_id, c.now);
            let e = EntryV { id: next->Ok_0, fields: crate::stream::arg_pairs(argv, at + 1) };
            let want = trimmed(crate::stream_data::appended(s, e), trim);
            let t = o.ctx.db.objects[argv[1]]->Stream_0;
            if id is Err || next is Err {
                refuses(c, o)
            } else {
                &&& answers(c, o, Tok::Bulk(id_text(e.id)))
                &&& o.ctx.db.objects.contains_key(argv[1])
                &&& o.ctx.db.objects[argv[1]] is Stream
                &&& o.ctx.db.objects.remove(argv[1]) == c.db.objects.remove(argv[1])
                &&& t.entries == want.entries
                &&& t.last_id == want.last_id
                &&& t.max_deleted_id == want.max_deleted_id
                &&& t.entries_added == want.entries_added
            }
        }),
{
    let argv = c.client.argv;
    let key = argv[1];
    let o = xadd_outcome(c);
    let id = xadd_id(argv[at]);
    let next = crate::stream::next_id(id->Ok_0, s.last_id, c.now);
    let e = EntryV { id: next->Ok_0, fields: crate::stream::arg_pairs(argv, at + 1) };
    let want = trimmed(crate::stream_data::appended(s, e), trim);
    if id is Ok && next is Ok {
        let found = stream_in(c.db, key)->Ok_0;
        let stored = crate::context::with_db(
            c,
            if found is Some {
                crate::keyspace::db_update(c.db, key, ObjV::Stream(want))
            } else {
                crate::keyspace::db_set(c.db, key, ObjV::Stream(want), false)
            },
        );
        let woken = wakes_new_entry(stored, key, e);
        let st = WakeV {
            db: woken.db,
            outbox: woken.outbox,
            served: Seq::empty(),
            reblocked: Seq::empty(),
        };
        let ws = waiting(woken.blocked, WaitKind::Group(want.last_id), Some(key));
        lemma_wakes_keep(st, ws, key, crate::stream_wake::clamped(c.now), want);
        assert(stored.db.objects.remove(key) =~= c.db.objects.remove(key));
        assert(o.ctx.replies =~= c.replies.push(Tok::Bulk(id_text(e.id))));
    }
}

proof fn lemma_maxlen_option(argv: Seq<Seq<u8>>, n: i64)
    requires
        argv.len() >= 7,
        is_word(argv[2], "MAXLEN"@),
        i64_of(argv[3]) == Some(n),
        n >= 0,
        begins_as_id(argv[4]),
    ensures
        add_options(argv, 2, AddOptions { no_mkstream: false, trim: TrimStrategy::Keep }) == Ok::<
            _,
            crate::error::ErrV,
        >(
            (
                AddOptions {
                    no_mkstream: false,
                    trim: TrimStrategy::MaxLen {
                        target: n as u64,
                        approximate: false,
                        limit: None,
                    },
                },
                4int,
            ),
        ),
{
    reveal_strlit("MAXLEN");
    reveal_strlit("NOMKSTREAM");
    lemma_words_differ(argv[2], "MAXLEN"@, "NOMKSTREAM"@, 0);
    lemma_signs();
    lemma_id_is_no_word(argv[4]);
    let trim = TrimStrategy::MaxLen { target: n as u64, approximate: false, limit: None };
    assert(trim_clause(argv, 3, true) == Ok::<_, crate::error::ErrV>((trim, 4int)));
    let opts = AddOptions { no_mkstream: false, trim };
    assert(add_options(argv, 4, opts) == Ok::<_, crate::error::ErrV>((opts, 4int)));
}

/// XADD with MAXLEN keeps, of what it would leave without, the last so many
/// entries.
pub proof fn law_xadd_maxlen_keeps_the_last(c: CtxV, s: StreamV, n: i64)
    requires
        c.client.argv.len() >= 7,
        (c.client.argv.len() - 5) % 2 == 0,
        is_word(c.client.argv[2], "MAXLEN"@),
        i64_of(c.client.argv[3]) == Some(n),
        n >= 0,
        begins_as_id(c.client.argv[4]),
        stream_in(c.db, c.client.argv[1]) == Ok::<_, crate::error::ErrV>(Some(s)),
        entries_ascend(s.entries),
        s.entries.len() > 0 ==> num(s.entries.last().id) <= num(s.last_id),
        xadd_outcome(c).result is Ok,
    ensures
        ({
            let argv = c.client.argv;
            let o = xadd_outcome(c);
            let t = o.ctx.db.objects[argv[1]]->Stream_0;
            let kept = if n <= s.entries.len() { n as int } else { s.entries.len() as int + 1 };
            &&& o.ctx.db.objects[argv[1]] is Stream
            &&& t.entries.len() == kept
            &&& kept > 0 ==> t.entries.last().id == t.last_id
            &&& kept > 0 ==> t.entries.drop_last() == s.entries.skip(s.entries.len() + 1 - kept)
        }),
{
    let argv = c.client.argv;
    let trim = TrimStrategy::MaxLen { target: n as u64, approximate: false, limit: None };
    lemma_maxlen_option(argv, n);
    lemma_xadd_stores(c, s, 4, trim);
    let o = xadd_outcome(c);
    let t = o.ctx.db.objects[argv[1]]->Stream_0;
    let kept = if n <= s.entries.len() { n as int } else { s.entries.len() as int + 1 };
    if kept > 0 {
        assert(t.entries.drop_last() =~= s.entries.skip(s.entries.len() + 1 - kept));
    }
}

/// XADD with NOMKSTREAM to a key that is missing answers null and makes nothing.
pub proof fn law_nomkstream_makes_nothing(c: CtxV)
    requires
        c.client.argv.len() >= 6,
        (c.client.argv.len() - 4) % 2 == 0,
        is_word(c.client.argv[2], "NOMKSTREAM"@),
        begins_as_id(c.client.argv[3]),
        !c.db.objects.contains_key(c.client.argv[1]),
    ensures
        answers(c, xadd_outcome(c), Tok::NullBulk),
        xadd_outcome(c).ctx.db == c.db,
{
    let argv = c.client.argv;
    lemma_id_is_no_word(argv[3]);
    reveal_with_fuel(add_options, 3);
    assert(xadd_outcome(c).ctx.replies =~= c.replies.push(Tok::NullBulk));
}

// ---------------------------------------------------------------------------
// XLEN, XDEL, XTRIM, XSETID
// ---------------------------------------------------------------------------

/// XLEN answers the number of entries, of a missing key zero.
pub proof fn law_xlen_counts(c: CtxV)
    requires
        c.client.argv.len() == 2,
        match stream_in(c.db, c.client.argv[1]) {
            Ok(Some(s)) => s.entries.len() <= i64::MAX,
            Ok(None) => true,
            Err(_) => false,
        },
    ensures
        answers(
            c,
            xlen_outcome(c),
            Tok::Int(
                if c.db.objects.contains_key(c.client.argv[1]) {
                    c.db.objects[c.client.argv[1]]->Stream_0.entries.len() as int
                } else {
                    0
                },
            ),
        ),
        xlen_outcome(c).ctx.db == c.db,
{
    assert(xlen_outcome(c).ctx.replies =~= c.replies.push(xlen_outcome(c).ctx.replies.last()));
}

proof fn lemma_id_list(args: Seq<Seq<u8>>, ids: Seq<StreamId>)
    requires
        args.len() == ids.len(),
        forall|i: int| 0 <= i < args.len() ==> id_of(#[trigger] args[i], 0) == Some(ids[i]),
    ensures
        id_list(args) == Ok::<_, crate::error::ErrV>(ids),
    decreases args.len(),
{
    if args.len() == 0 {
        assert(ids =~= Seq::empty());
    } else {
        let (a, b) = (args.drop_last(), ids.drop_last());
        assert forall|i: int| 0 <= i < a.len() implies id_of(#[trigger] a[i], 0) == Some(b[i]) by {
            assert(a[i] == args[i]);
        }
        lemma_id_list(a, b);
        assert(id_of(args[args.len() - 1], 0) == Some(ids[ids.len() - 1]));
        assert(b.push(ids.last()) =~= ids);
    }
}

proof fn lemma_deleted_all(s: StreamV, ids: Seq<StreamId>)
    requires
        entries_ascend(s.entries),
    ensures
        ({
            let t = deleted_all(s, ids).0;
            &&& t.entries == s.entries.filter(|e: EntryV| !ids.contains(e.id))
            &&& entries_ascend(t.entries)
            &&& t.entries.len() + deleted_all(s, ids).1 == s.entries.len()
            &&& t.last_id == s.last_id
            &&& t.entries_added == s.entries_added
            &&& t.groups == s.groups
        }),
    decreases ids.len(),
{
    let p = |e: EntryV| !ids.contains(e.id);
    if ids.len() == 0 {
        lemma_filter_all(s.entries, p);
    } else {
        let before = ids.drop_last();
        let id = ids.last();
        lemma_deleted_all(s, before);
        let t = deleted_all(s, before).0;
        law_delete(t, id);
        let q = |e: EntryV| !before.contains(e.id);
        let r = |e: EntryV| e.id != id;
        let u = deleted(t, id);
        if has_entry(t.entries, id) {
            lemma_entry_rank(t.entries, id);
            let k = entry_rank(t.entries, id);
            assert forall|i: int| 0 <= i < t.entries.len() implies r(#[trigger] t.entries[i]) == (i
                != k) by {
                if i < k {
                    assert(id_lt(t.entries[i].id, t.entries[k].id));
                }
                if k < i {
                    assert(id_lt(t.entries[k].id, t.entries[i].id));
                }
            }
            lemma_filter_remove(t.entries, r, k);
        } else {
            lemma_filter_all(t.entries, r);
        }
        assert(u.entries == t.entries.filter(r));
        assert forall|e: EntryV| #[trigger] p(e) == (q(e) && r(e)) by {
            if ids.contains(e.id) {
                let i = ids.index_of(e.id);
                if i < before.len() {
                    assert(before[i] == e.id);
                }
            }
            if before.contains(e.id) {
                let i = before.index_of(e.id);
                assert(ids[i] == e.id);
            }
            assert(ids[ids.len() - 1] == id);
        }
        lemma_filter_both(s.entries, q, r, p);
    }
}

/// XDEL takes out the entries with the IDs told and no others, and answers how
/// many there were; the last ID stays.
pub proof fn law_xdel_takes_out(c: CtxV, s: StreamV, ids: Seq<StreamId>)
    requires
        c.client.argv.len() == ids.len() + 2,
        ids.len() > 0,
        forall|i: int|
            0 <= i < ids.len() ==> id_of(#[trigger] c.client.argv[i + 2], 0) == Some(ids[i]),
        stream_in(c.db, c.client.argv[1]) == Ok::<_, crate::error::ErrV>(Some(s)),
        entries_ascend(s.entries),
        s.entries.len() <= i64::MAX,
    ensures
        ({
            let argv = c.client.argv;
            let o = xdel_outcome(c);
            let t = o.ctx.db.objects[argv[1]]->Stream_0;
            &&& o.ctx.db.objects[argv[1]] is Stream
            &&& t.entries == s.entries.filter(|e: EntryV| !ids.contains(e.id))
            &&& t.last_id == s.last_id
            &&& t.groups == s.groups
            &&& answers(c, o, Tok::Int(s.entries.len() - t.entries.len()))
            &&& o.ctx.db.objects.remove(argv[1]) == c.db.objects.remove(argv[1])
        }),
{
    let argv = c.client.argv;
    let args = argv.skip(2);
    assert forall|i: int| 0 <= i < args.len() implies id_of(#[trigger] args[i], 0) == Some(
        ids[i],
    ) by {
        assert(args[i] == argv[i + 2]);
    }
    lemma_id_list(args, ids);
    lemma_deleted_all(s, ids);
    let o = xdel_outcome(c);
    let t = o.ctx.db.objects[argv[1]]->Stream_0;
    assert(o.ctx.replies =~= c.replies.push(Tok::Int(s.entries.len() - t.entries.len())));
    assert(o.ctx.db.objects.remove(argv[1]) =~= c.db.objects.remove(argv[1]));
}

/// XTRIM MAXLEN keeps the last so many entries, XTRIM MINID those from an ID
/// on; both answer how many went. With `~` no entry goes that would stay without.
pub proof fn law_xtrim_keeps_the_last(c: CtxV, s: StreamV, n: i64, id: StreamId)
    requires
        c.client.argv.len() == 4 || (c.client.argv.len() == 5 && c.client.argv[3] == text("~"@)),
        is_word(c.client.argv[2], "MAXLEN"@) || is_word(c.client.argv[2], "MINID"@),
        is_word(c.client.argv[2], "MAXLEN"@) ==> i64_of(c.client.argv.last()) == Some(n) && n >= 0,
        is_word(c.client.argv[2], "MINID"@) ==> id_of(c.client.argv.last(), 0) == Some(id),
        stream_in(c.db, c.client.argv[1]) == Ok::<_, crate::error::ErrV>(Some(s)),
        entries_ascend(s.entries),
        s.entries.len() <= i64::MAX,
    ensures
        ({
            let argv = c.client.argv;
            let o = xtrim_outcome(c);
            let t = o.ctx.db.objects[argv[1]]->Stream_0;
            let stay = if is_word(argv[2], "MAXLEN"@) {
                if n < s.entries.len() { s.entries.skip(s.entries.len() - n) } else { s.entries }
            } else {
                s.entries.filter(|e: EntryV| num(id) <= num(e.id))
            };
            &&& o.ctx.db.objects[argv[1]] is Stream
            &&& answers(c, o, Tok::Int(s.entries.len() - t.entries.len()))
            &&& t.entries.len() <= s.entries.len()
            &&& t.entries == s.entries.skip(s.entries.len() - t.entries.len())
            &&& argv.len() == 4 ==> t.entries == stay
            &&& argv.len() == 5 ==> t.entries.len() >= stay.len()
            &&& t.last_id == s.last_id
            &&& t.groups == s.groups
            &&& o.ctx.db.objects.remove(argv[1]) == c.db.objects.remove(argv[1])
        }),
{
    let argv = c.client.argv;
    reveal_strlit("MAXLEN");
    reveal_strlit("MINID");
    lemma_words_differ(argv[2], "MAXLEN"@, "MINID"@, 0);
    lemma_signs();
    let maxlen = is_word(argv[2], "MAXLEN"@);
    let approximate = argv.len() == 5;
    let strategy = if maxlen {
        TrimStrategy::MaxLen { target: n as u64, approximate, limit: None }
    } else {
        TrimStrategy::MinId { min: id, approximate, limit: None }
    };
    assert(trim_clause(argv, 3, maxlen) == Ok::<_, crate::error::ErrV>(
        (strategy, argv.len() as int),
    ));
    law_trim(s, strategy);
    let o = xtrim_outcome(c);
    let t = o.ctx.db.objects[argv[1]]->Stream_0;
    let gone = evicted(s.entries, strategy);
    assert(o.ctx.replies =~= c.replies.push(Tok::Int(s.entries.len() - t.entries.len())));
    assert(o.ctx.db.objects.remove(argv[1]) =~= c.db.objects.remove(argv[1]));
    if maxlen {
        if n >= s.entries.len() {
            assert(s.entries.skip(0) =~= s.entries);
        }
    } else {
        let p = |e: EntryV| num(id) <= num(e.id);
        let q = |e: EntryV| id_le(id, e.id);
        assert forall|i: int| 0 <= i < s.entries.len() implies q(#[trigger] s.entries[i]) == p(
            s.entries[i],
        ) by {
            law_ids_are_numbers(id, s.entries[i].id);
        }
        lemma_filter_same(s.entries, q, p);
        let exact = TrimStrategy::MinId { min: id, approximate: false, limit: None };
        law_trim(s, exact);
        lemma_entry_rank(s.entries, id);
        if approximate {
            let rank = evicted(s.entries, exact);
            if gone > rank {
                assert(id_lt(s.entries[rank].id, id));
                assert(id_le(id, s.entries[rank].id));
            }
        }
    }
}

/// XSETID sets the last ID of a stream unless an entry lies behind it, or was
/// deleted behind it.
pub proof fn law_xsetid_sets_the_last_id(c: CtxV, s: StreamV, id: StreamId)
    requires
        c.client.argv.len() == 3,
        id_of(c.client.argv[2], 0) == Some(id),
        stream_in(c.db, c.client.argv[1]) == Ok::<_, crate::error::ErrV>(Some(s)),
    ensures
        ({
            let o = xsetid_outcome(c);
            if num(id) < num(s.max_deleted_id) || (s.entries.len() > 0 && num(id) < num(
                s.entries.last().id,
            )) {
                refuses(c, o)
            } else {
                &&& answers(c, o, Tok::Simple(text("OK"@)))
                &&& o.ctx.db.objects == c.db.objects.insert(
                    c.client.argv[1],
                    ObjV::Stream(StreamV { last_id: id, ..s }),
                )
            }
        }),
{
    law_ids_are_numbers(id, s.max_deleted_id);
    if s.entries.len() > 0 {
        law_ids_are_numbers(id, s.entries.last().id);
    }
    let o = xsetid_outcome(c);
    if o.result is Ok {
        assert(o.ctx.replies =~= c.replies.push(Tok::Simple(text("OK"@))));
    }
}

// ---------------------------------------------------------------------------
// XREAD
// ---------------------------------------------------------------------------

/// The words of XREAD differ.
proof fn lemma_read_words(a: Seq<u8>)
    ensures
        is_word(a, "STREAMS"@) ==> !is_word(a, "COUNT"@) && !is_word(a, "BLOCK"@) && !is_word(
            a,
            "NOACK"@,
        ),
        is_word(a, "BLOCK"@) ==> !is_word(a, "COUNT"@),
{
    reveal_strlit("STREAMS");
    reveal_strlit("COUNT");
    reveal_strlit("BLOCK");
    reveal_strlit("NOACK");
    lemma_words_differ(a, "STREAMS"@, "COUNT"@, 0);
    lemma_words_differ(a, "STREAMS"@, "BLOCK"@, 0);
    lemma_words_differ(a, "STREAMS"@, "NOACK"@, 0);
    lemma_words_differ(a, "BLOCK"@, "COUNT"@, 0);
}

/// XREAD of one stream from an ID on shows the entries behind that ID, with
/// COUNT n the first n of them. Where there are none it answers null, or, with
/// BLOCK, waits for one behind the ID, no longer than it was told.
pub proof fn law_xread_shows_what_is_behind(c: CtxV, s: StreamV, id: StreamId, n: i64)
    requires
        c.client.argv.len() == 4 || c.client.argv.len() == 6,
        is_word(c.client.argv[c.client.argv.len() - 3], "STREAMS"@),
        c.client.argv.len() == 6 ==> (is_word(c.client.argv[1], "COUNT"@) || is_word(
            c.client.argv[1],
            "BLOCK"@,
        )) && i64_of(c.client.argv[2]) == Some(n) && n >= 0,
        id_of(c.client.argv.last(), 0) == Some(id),
        c.client.argv.last() != text("$"@),
        c.client.argv.last() != text("+"@),
        stream_in(c.db, c.client.argv[c.client.argv.len() - 2]) == Ok::<_, crate::error::ErrV>(
            Some(s),
        ),
        0 <= c.now,
        c.now + n <= i64::MAX,
    ensures
        ({
            let argv = c.client.argv;
            let key = argv[argv.len() - 2];
            let o = xread_outcome(c);
            let all = s.entries.filter(|e: EntryV| num(id) < num(e.id));
            let counted = argv.len() == 6 && is_word(argv[1], "COUNT"@);
            let blocks = argv.len() == 6 && is_word(argv[1], "BLOCK"@);
            let m = if counted && n < all.len() { n as int } else { all.len() as int };
            &&& o.ctx.db == c.db
            &&& m > 0 ==> o.result is Ok && o.ctx.replies == c.replies + seq![
                Tok::Array(1),
                Tok::Array(2),
                Tok::Bulk(key),
                Tok::Array(m as nat),
            ] + entries_toks(all.subrange(0, m)) && o.ctx.blocked == c.blocked
            &&& m == 0 && !blocks ==> answers(c, o, Tok::NullArray) && o.ctx.blocked == c.blocked
            &&& m == 0 && blocks && c.client.attached && !c.client.deny_blocking ==> {
                &&& o.result is Ok
                &&& o.ctx.replies == c.replies
                &&& o.ctx.blocked.len() == c.blocked.len() + 1
                &&& o.ctx.blocked.drop_last() == c.blocked
                &&& o.ctx.blocked.last().client_id == c.client.id
                &&& o.ctx.blocked.last().key == key
                &&& o.ctx.blocked.last().action == (ActionV::Stream { id_after: id })
                &&& o.ctx.blocked.last().deadline_ms == (if n == 0 {
                    i64::MAX
                } else {
                    (c.now + n) as i64
                })
            }
        }),
{
    let argv = c.client.argv;
    let key = argv[argv.len() - 2];
    lemma_read_words(argv[1]);
    lemma_read_words(argv[argv.len() - 3]);
    reveal_with_fuel(read_options, 3);
    reveal_with_fuel(read_starts, 2);
    reveal_with_fuel(read_results, 2);
    let at = argv.len() - 2;
    assert(argv.subrange(at, at + 1) =~= seq![key]);
    assert(argv.skip(at + 1) =~= seq![argv.last()]);
    assert(seq![argv.last()].drop_last() =~= Seq::empty());
    assert(seq![key].drop_last() =~= Seq::empty());
    let starts = seq![crate::stream::ReadStartId::After(id)];
    assert(read_starts(seq![argv.last()])->Ok_0 =~= starts);
    assert(starts.drop_last() =~= Seq::empty());
    let p = |e: EntryV| num(id) < num(e.id);
    let q = |e: EntryV| id_lt(id, e.id);
    assert forall|i: int| 0 <= i < s.entries.len() implies q(#[trigger] s.entries[i]) == p(
        s.entries[i],
    ) by {
        law_ids_are_numbers(id, s.entries[i].id);
    }
    lemma_filter_same(s.entries, q, p);
    let all = s.entries.filter(p);
    let counted = argv.len() == 6 && is_word(argv[1], "COUNT"@);
    let m = if counted && n < all.len() { n as int } else { all.len() as int };
    assert(all.take(m) =~= all.subrange(0, m));
    let o = xread_outcome(c);
    let rs = seq![(key, all.take(m))];
    assert(rs.drop_last() =~= Seq::empty());
    if m > 0 {
        assert(Seq::<(Seq<u8>, Seq<EntryV>)>::empty().push((key, all.take(m))) =~= rs);
        reveal_with_fuel(crate::stream::results_toks, 2);
        assert(o.ctx.replies =~= c.replies + seq![
            Tok::Array(1),
            Tok::Array(2),
            Tok::Bulk(key),
            Tok::Array(m as nat),
        ] + entries_toks(all.subrange(0, m)));
    } else if argv.len() == 6 && is_word(argv[1], "BLOCK"@) {
        if c.client.attached && !c.client.deny_blocking {
            assert(o.ctx.blocked.drop_last() =~= c.blocked);
        }
    } else {
        assert(o.ctx.replies =~= c.replies.push(Tok::NullArray));
    }
}

/// Whether a client waits for an entry of a key behind an ID before another one.
pub open spec fn awaits(v: WaiterV, key: Seq<u8>, id: StreamId) -> bool {
    match v.action {
        ActionV::Stream { id_after } => v.key == key && num(id_after) < num(id),
        _ => false,
    }
}

/// A new entry goes to each client that waits for one behind an earlier ID of
/// the key, and to nobody else; who was served waits no more, and all others wait
/// on.
pub proof fn law_new_entry_serves_readers(c: CtxV, key: Seq<u8>, e: EntryV, w: WaiterV, d: DeliveryV)
    ensures
        ({
            let after = wakes_new_entry(c, key, e);
            let due = |v: WaiterV| awaits(v, key, e.id);
            let frame = read_frame(key, seq![e]);
            &&& after.db == c.db
            &&& after.replies == c.replies
            &&& after.outbox.take(c.outbox.len() as int) == c.outbox
            &&& after.outbox.len() == c.outbox.len() + c.blocked.filter(due).len()
            &&& c.blocked.contains(w) && due(w) ==> after.outbox.contains(
                DeliveryV { client_id: w.client_id, frame },
            )
            &&& after.blocked.contains(w) ==> c.blocked.contains(w) && !due(w)
            &&& c.blocked.contains(w) && !(exists|v: WaiterV|
                c.blocked.contains(v) && #[trigger] due(v) && v.client_id == w.client_id)
                ==> after.blocked.contains(w)
            &&& after.outbox.skip(c.outbox.len() as int).contains(d) ==> d.frame == frame && exists|
                v: WaiterV,
            | c.blocked.contains(v) && #[trigger] due(v) && v.client_id == d.client_id
        }),
{
    let kind = WaitKind::Reader(e.id);
    let due = |v: WaiterV| awaits(v, key, e.id);
    let p = |v: WaiterV| waits(v, kind, Some(key));
    let np = |v: WaiterV| !waits(v, kind, Some(key));
    let frame = read_frame(key, seq![e]);
    let after = wakes_new_entry(c, key, e);
    assert forall|v: WaiterV| #[trigger] due(v) == p(v) by {
        if let ActionV::Stream { id_after } = v.action {
            law_ids_are_numbers(id_after, e.id);
        }
    }
    lemma_filter_same(c.blocked, p, due);
    lemma_filter_keeps(c.blocked, due);
    lemma_filter_keeps(c.blocked, np);
    let ws = waiting(c.blocked, kind, Some(key));
    let left = not_waiting(c.blocked, kind, Some(key));
    let ids = client_ids(ws);
    let free = |v: WaiterV| !ids.contains(v.client_id);
    lemma_filter_keeps(left, free);
    let frames = same_frames(ws, frame);
    assert(after.outbox.take(c.outbox.len() as int) =~= c.outbox);
    assert(after.outbox.skip(c.outbox.len() as int) =~= frames);
    if c.blocked.contains(w) && due(w) {
        assert(ws.contains(w));
        let i = ws.index_of(w);
        assert(after.outbox[c.outbox.len() + i] == frames[i]);
    }
    if frames.contains(d) {
        let i = frames.index_of(d);
        assert(ws.contains(ws[i]));
        assert(due(ws[i]));
    }
    if c.blocked.contains(w) && !(exists|v: WaiterV|
        c.blocked.contains(v) && #[trigger] due(v) && v.client_id == w.client_id) {
        assert(!due(w));
        if ids.contains(w.client_id) {
            let i = ids.index_of(w.client_id);
            assert(ws.contains(ws[i]));
            assert(due(ws[i]));
        }
        assert(left.contains(w));
    }
    if after.blocked.contains(w) {
        assert(left.contains(w));
    }
}

} // verus!
