//! LATENCY: samples of slow events, and how long commands took.

use vstd::prelude::*;

use crate::bytes::{
    dup, find, find_byte, has_prefix, is_text, is_word, lemma_views_push, lower_all, position_of,
    put, starts_with, text, to_lower, views, word,
};
use crate::context::{done, fails, replies, replies_one, CommandContext, CtxV, Outcome};
use crate::dict::{keys_of, Dict};
use crate::error::{wrong_args, RedisError};
use crate::reply::{bulk, bulk_text, lemma_toks_add, lemma_toks_push, toks, Reply, Tok};
use crate::slowlog::{unknown_subcommand, unknown_subcommand_error};
use crate::stream_wake::lemma_filter_step;

verus! {

broadcast use {lemma_toks_push, lemma_toks_add, lemma_views_push};

/// The most samples that an event keeps.
pub const LATENCY_TS_LEN: usize = 160;

/// One observation of an event: its second, and how many milliseconds it took.
#[derive(Debug, Clone, Copy, PartialEq, Eq, Structural)]
pub struct LatencySample {
    pub time: i64,
    pub latency: u64,
}

/// The samples of an event, the oldest first, and the largest latency seen.
pub struct LatencySeries {
    pub samples: Vec<LatencySample>,
    pub max: u64,
}

/// The samples of an event.
#[verifier::ext_equal]
pub struct SeriesV {
    pub samples: Seq<LatencySample>,
    pub max: u64,
}

impl View for LatencySeries {
    type V = SeriesV;

    open spec fn view(&self) -> SeriesV {
        SeriesV { samples: self.samples@, max: self.max }
    }
}

/// How often a command ran, and the longest that it took.
#[derive(Debug, Clone, Copy, PartialEq, Eq, Structural)]
pub struct CommandLatencyStats {
    pub calls: u64,
    pub max_usec: u64,
}

impl View for CommandLatencyStats {
    type V = CommandLatencyStats;

    open spec fn view(&self) -> CommandLatencyStats {
        *self
    }
}

/// What is known about latencies.
pub struct LatencyState {
    pub events: Dict<LatencySeries>,
    pub histograms: Dict<CommandLatencyStats>,
    /// The names of the commands that exist.
    pub registered: Vec<Vec<u8>>,
}

/// What is known about latencies.
#[verifier::ext_equal]
pub struct LatencyV {
    pub events: Map<Seq<u8>, SeriesV>,
    pub histograms: Map<Seq<u8>, CommandLatencyStats>,
    pub registered: Seq<Seq<u8>>,
}

impl View for LatencyState {
    type V = LatencyV;

    open spec fn view(&self) -> LatencyV {
        LatencyV {
            events: self.events@,
            histograms: self.histograms@,
            registered: views(self.registered@),
        }
    }
}

impl LatencyState {
    /// The dictionaries ascend.
    pub open spec fn wf(self) -> bool {
        self.events.wf() && self.histograms.wf()
    }

    /// Nothing is known yet; these commands exist.
    pub fn new(registered: Vec<Vec<u8>>) -> (r: LatencyState)
        ensures
            r.wf(),
            r@ == (LatencyV {
                events: Map::empty(),
                histograms: Map::empty(),
                registered: views(registered@),
            }),
    {
        LatencyState { events: Dict::new(), histograms: Dict::new(), registered }
    }
}

// ---------------------------------------------------------------------------
// Recording
// ---------------------------------------------------------------------------

/// The larger of two numbers.
pub open spec fn max_of(a: u64, b: u64) -> u64 {
    if a < b {
        b
    } else {
        a
    }
}

/// The larger of two numbers.
fn larger(a: u64, b: u64) -> (r: u64)
    ensures
        r == max_of(a, b),
{
    if a < b {
        b
    } else {
        a
    }
}

/// A series with one more observation. Of observations in one second the
/// largest is kept, and of all samples the newest.
pub open spec fn sampled(s: SeriesV, time: i64, latency: u64) -> SeriesV {
    let max = max_of(s.max, latency);
    if s.samples.len() > 0 && s.samples.last().time == time {
        SeriesV {
            samples: s.samples.drop_last().push(
                LatencySample { time, latency: max_of(s.samples.last().latency, latency) },
            ),
            max,
        }
    } else {
        let all = s.samples.push(LatencySample { time, latency });
        SeriesV {
            samples: if all.len() > LATENCY_TS_LEN {
                all.skip(all.len() - LATENCY_TS_LEN)
            } else {
                all
            },
            max,
        }
    }
}

/// The series of an event; one that was never observed has no samples.
pub open spec fn series_of(m: Map<Seq<u8>, SeriesV>, event: Seq<u8>) -> SeriesV {
    if m.contains_key(event) {
        m[event]
    } else {
        SeriesV { samples: Seq::empty(), max: 0 }
    }
}

/// Adds an observation to a series.
fn add_sample(s: &mut LatencySeries, time: i64, latency: u64)
    ensures
        final(s)@ == sampled(old(s)@, time, latency),
{
    let ghost before = s@;
    s.max = larger(s.max, latency);
    let n: usize = s.samples.len();
    if n > 0 && s.samples[n - 1].time == time {
        let was: LatencySample = s.samples[n - 1];
        let _last: Option<LatencySample> = s.samples.pop();
        s.samples.push(LatencySample { time, latency: larger(was.latency, latency) });
        assert(s@ =~= sampled(before, time, latency));
    } else {
        s.samples.push(LatencySample { time, latency });
        let ghost all = s.samples@;
        let ghost mut gone: int = 0;
        assert(all.skip(0) =~= all);
        while s.samples.len() > LATENCY_TS_LEN
            invariant
                0 <= gone <= all.len(),
                s.max == max_of(before.max, latency),
                s.samples@ == all.skip(gone),
                gone > 0 ==> s.samples@.len() >= LATENCY_TS_LEN,
            decreases s.samples@.len(),
        {
            let _old: LatencySample = s.samples.remove(0);
            proof {
                assert(all.skip(gone).remove(0) =~= all.skip(gone + 1));
                gone = gone + 1;
            }
        }
        assert(s@ =~= sampled(before, time, latency));
    }
}

/// Records that an event took that many milliseconds.
pub fn report_latency_event(
    st: &mut LatencyState,
    event_name: &[u8],
    latency_ms: u64,
    now_secs: i64,
)
    requires
        old(st).wf(),
    ensures
        final(st).wf(),
        final(st)@ == (LatencyV {
            events: old(st)@.events.insert(
                event_name@,
                sampled(series_of(old(st)@.events, event_name@), now_secs, latency_ms),
            ),
            ..old(st)@
        }),
{
    let mut s: LatencySeries = match st.events.remove(event_name) {
        Some(s) => s,
        None => LatencySeries { samples: Vec::new(), max: 0 },
    };
    let ghost before = old(st)@.events;
    assert(s@ =~= series_of(before, event_name@));
    add_sample(&mut s, now_secs, latency_ms);
    let ghost sv = s@;
    st.events.insert(dup(event_name), s);
    assert(st.events@ =~= before.insert(event_name@, sv));
}

/// Whether a command is counted together with its subcommand.
pub open spec fn has_subcommands(name: Seq<u8>) -> bool {
    ||| name == text("acl"@)
    ||| name == text("client"@)
    ||| name == text("command"@)
    ||| name == text("commandlog"@)
    ||| name == text("config"@)
    ||| name == text("function"@)
    ||| name == text("latency"@)
    ||| name == text("memory"@)
    ||| name == text("module"@)
    ||| name == text("object"@)
    ||| name == text("pubsub"@)
    ||| name == text("script"@)
    ||| name == text("slowlog"@)
}

/// Whether a command is counted together with its subcommand.
fn latency_parent_uses_subcommands(name: &[u8]) -> (r: bool)
    ensures
        r == has_subcommands(name@),
{
    is_text(name, "acl")
        || is_text(name, "client")
        || is_text(name, "command")
        || is_text(name, "commandlog")
        || is_text(name, "config")
        || is_text(name, "function")
        || is_text(name, "latency")
        || is_text(name, "memory")
        || is_text(name, "module")
        || is_text(name, "object")
        || is_text(name, "pubsub")
        || is_text(name, "script")
        || is_text(name, "slowlog")
}

/// The name under which a command is counted.
pub open spec fn fullname(argv: Seq<Seq<u8>>) -> Option<Seq<u8>> {
    if argv.len() == 0 {
        None
    } else {
        let name = lower_all(argv[0]);
        if argv.len() > 1 && has_subcommands(name) {
            Some(name.push(124u8) + lower_all(argv[1]))
        } else {
            Some(name)
        }
    }
}

/// The name under which a command is counted.
pub fn latency_command_fullname(argv: &[Vec<u8>]) -> (r: Option<Vec<u8>>)
    ensures
        match r {
            Some(n) => fullname(views(argv@)) == Some(n@),
            None => fullname(views(argv@)) is None,
        },
{
    if argv.len() == 0 {
        return None;
    }
    let mut name: Vec<u8> = to_lower(&argv[0]);
    if argv.len() > 1 && latency_parent_uses_subcommands(&name) {
        name.push(124);
        let sub: Vec<u8> = to_lower(&argv[1]);
        put(&mut name, &sub);
    }
    Some(name)
}

/// The statistics of a command after one more run.
pub open spec fn ran(s: CommandLatencyStats, usec: u64) -> CommandLatencyStats {
    CommandLatencyStats {
        calls: if s.calls == u64::MAX {
            u64::MAX
        } else {
            (s.calls + 1) as u64
        },
        max_usec: max_of(s.max_usec, max_of(usec, 1)),
    }
}

/// The statistics of a command; one that never ran counts zero.
pub open spec fn stats_of(
    m: Map<Seq<u8>, CommandLatencyStats>,
    name: Seq<u8>,
) -> CommandLatencyStats {
    if m.contains_key(name) {
        m[name]
    } else {
        CommandLatencyStats { calls: 0, max_usec: 0 }
    }
}

/// Counts a run of a command that took that many microseconds.
pub fn record_latency_histogram(st: &mut LatencyState, argv: &[Vec<u8>], elapsed_usec: u64)
    requires
        old(st).wf(),
    ensures
        final(st).wf(),
        final(st)@ == (match fullname(views(argv@)) {
            None => old(st)@,
            Some(name) => LatencyV {
                histograms: old(st)@.histograms.insert(
                    name,
                    ran(stats_of(old(st)@.histograms, name), elapsed_usec),
                ),
                ..old(st)@
            },
        }),
{
    let name: Vec<u8> = match latency_command_fullname(argv) {
        None => return,
        Some(n) => n,
    };
    let s: CommandLatencyStats = match st.histograms.get(&name) {
        Some(s) => *s,
        None => CommandLatencyStats { calls: 0, max_usec: 0 },
    };
    let next = CommandLatencyStats {
        calls: if s.calls == u64::MAX { u64::MAX } else { s.calls + 1 },
        max_usec: larger(s.max_usec, larger(elapsed_usec, 1)),
    };
    st.histograms.insert(name, next);
}

/// Forgets how long commands took.
pub fn reset_latency_histograms(st: &mut LatencyState)
    requires
        old(st).wf(),
    ensures
        final(st).wf(),
        final(st)@ == (LatencyV { histograms: Map::empty(), ..old(st)@ }),
{
    st.histograms = Dict::new();
}

/// A series keeps a bounded number of samples, and its largest latency is never
/// below that of a sample.
pub proof fn law_series_is_bounded(s: SeriesV, time: i64, latency: u64, i: int)
    requires
        s.samples.len() <= LATENCY_TS_LEN,
        forall|j: int| 0 <= j < s.samples.len() ==> (#[trigger] s.samples[j]).latency <= s.max,
        0 <= i < sampled(s, time, latency).samples.len(),
    ensures
        sampled(s, time, latency).samples.len() <= LATENCY_TS_LEN,
        sampled(s, time, latency).samples[i].latency <= sampled(s, time, latency).max,
        sampled(s, time, latency).samples.last().time == time,
{
}

// ---------------------------------------------------------------------------
// LATENCY LATEST, LATENCY HISTORY
// ---------------------------------------------------------------------------

/// The latest sample of an event in a reply.
pub open spec fn latest_toks(event: Seq<u8>, s: SeriesV) -> Seq<Tok> {
    let last = if s.samples.len() > 0 {
        s.samples.last()
    } else {
        LatencySample { time: 0, latency: 0 }
    };
    seq![
        Tok::Array(4),
        Tok::Bulk(event),
        Tok::Int(last.time as int),
        Tok::Int(last.latency as i64 as int),
        Tok::Int(s.max as i64 as int),
    ]
}

/// The latest samples of events in a reply.
pub open spec fn latest_all(m: Map<Seq<u8>, SeriesV>, keys: Seq<Seq<u8>>) -> Seq<Tok>
    decreases keys.len(),
{
    if keys.len() == 0 {
        Seq::empty()
    } else {
        latest_all(m, keys.drop_last()) + latest_toks(keys.last(), m[keys.last()])
    }
}

/// Adds the latest sample of an event to a reply.
fn put_latest(out: &mut Vec<Reply>, event: &[u8], s: &LatencySeries)
    ensures
        toks(final(out)@) == toks(old(out)@) + latest_toks(event@, s@),
{
    let ghost first = toks(out@);
    let n: usize = s.samples.len();
    let last: LatencySample = if n > 0 {
        s.samples[n - 1]
    } else {
        LatencySample { time: 0, latency: 0 }
    };
    out.push(Reply::Array(4));
    out.push(Reply::Bulk(dup(event)));
    out.push(Reply::Int(last.time));
    out.push(Reply::Int(last.latency as i64));
    out.push(Reply::Int(s.max as i64));
    assert(toks(out@) =~= first + latest_toks(event@, s@));
}

/// The reply of LATENCY LATEST.
pub open spec fn latest_reply(m: Map<Seq<u8>, SeriesV>) -> Seq<Tok> {
    seq![Tok::Array(keys_of(m).len())] + latest_all(m, keys_of(m))
}

/// The reply of LATENCY LATEST.
fn reply_latency_latest(d: &Dict<LatencySeries>) -> (r: Vec<Reply>)
    requires
        d.wf(),
    ensures
        toks(r@) == latest_reply(d@),
{
    let mut out: Vec<Reply> = Vec::new();
    out.push(Reply::Array(d.len() as u128));
    let ghost keys = d.keys();
    let ghost first = toks(out@);
    let mut i: usize = 0;
    proof {
        d.lemma_keys();
        assert(first =~= seq![Tok::Array(keys.len())]);
        assert(keys.take(0) =~= Seq::empty());
        assert(first =~= first + latest_all(d@, keys.take(0)));
    }
    while i < d.entries.len()
        invariant
            d.wf(),
            keys == d.keys(),
            i <= d.entries@.len(),
            toks(out@) == first + latest_all(d@, keys.take(i as int)),
        decreases d.entries@.len() - i,
    {
        put_latest(&mut out, &d.entries[i].0, &d.entries[i].1);
        proof {
            d.lemma_at(i as int);
            assert(keys.take(i + 1).drop_last() =~= keys.take(i as int));
            assert(keys.take(i + 1).last() == keys[i as int]);
            assert(toks(out@) =~= first + latest_all(d@, keys.take(i + 1)));
        }
        i += 1;
    }
    assert(keys.take(i as int) =~= keys);
    out
}

/// Samples in a reply.
pub open spec fn samples_toks(s: Seq<LatencySample>) -> Seq<Tok>
    decreases s.len(),
{
    if s.len() == 0 {
        Seq::empty()
    } else {
        samples_toks(s.drop_last()) + seq![
            Tok::Array(2),
            Tok::Int(s.last().time as int),
            Tok::Int(s.last().latency as i64 as int),
        ]
    }
}

/// The samples that have a time.
pub open spec fn timed(s: Seq<LatencySample>) -> Seq<LatencySample> {
    s.filter(|x: LatencySample| x.time != 0)
}

/// The reply of LATENCY HISTORY.
pub open spec fn history_reply(m: Map<Seq<u8>, SeriesV>, event: Seq<u8>) -> Seq<Tok> {
    let s = timed(series_of(m, event).samples);
    seq![Tok::Array(s.len())] + samples_toks(s)
}

/// The samples that have a time.
fn timed_samples(v: &Vec<LatencySample>) -> (r: Vec<LatencySample>)
    ensures
        r@ == timed(v@),
{
    let ghost p = |x: LatencySample| x.time != 0;
    let mut r: Vec<LatencySample> = Vec::new();
    let mut i: usize = 0;
    proof {
        reveal(Seq::filter);
        assert(v@.take(0).filter(p) =~= Seq::empty());
    }
    while i < v.len()
        invariant
            i <= v@.len(),
            p == (|x: LatencySample| x.time != 0),
            r@ == v@.take(i as int).filter(p),
        decreases v@.len() - i,
    {
        proof {
            lemma_filter_step(v@, p, i as int);
        }
        if v[i].time != 0 {
            r.push(v[i]);
        }
        i += 1;
    }
    assert(v@.take(i as int) =~= v@);
    r
}

/// The reply of LATENCY HISTORY.
fn reply_latency_history(d: &Dict<LatencySeries>, event: &[u8]) -> (r: Vec<Reply>)
    requires
        d.wf(),
    ensures
        toks(r@) == history_reply(d@, event@),
{
    let s: Vec<LatencySample> = match d.get(event) {
        None => {
            proof {
                reveal(Seq::filter);
                assert(timed(Seq::empty()) =~= Seq::empty());
            }
            Vec::new()
        },
        Some(x) => timed_samples(&x.samples),
    };
    let mut out: Vec<Reply> = Vec::new();
    out.push(Reply::Array(s.len() as u128));
    let ghost first = toks(out@);
    let mut i: usize = 0;
    proof {
        assert(first =~= seq![Tok::Array(s@.len())]);
        assert(first =~= first + samples_toks(s@.take(0)));
    }
    while i < s.len()
        invariant
            i <= s@.len(),
            toks(out@) == first + samples_toks(s@.take(i as int)),
        decreases s@.len() - i,
    {
        out.push(Reply::Array(2));
        out.push(Reply::Int(s[i].time));
        out.push(Reply::Int(s[i].latency as i64));
        proof {
            assert(s@.take(i + 1).drop_last() =~= s@.take(i as int));
            assert(toks(out@) =~= first + samples_toks(s@.take(i + 1)));
        }
        i += 1;
    }
    assert(s@.take(i as int) =~= s@);
    out
}

// ---------------------------------------------------------------------------
// LATENCY RESET
// ---------------------------------------------------------------------------

/// The events that are left after some were reset, and how many were.
pub open spec fn events_reset(m: Map<Seq<u8>, SeriesV>, names: Seq<Seq<u8>>) -> (
    Map<Seq<u8>, SeriesV>,
    int,
)
    decreases names.len(),
{
    if names.len() == 0 {
        (m, 0)
    } else {
        let (left, n) = events_reset(m, names.drop_last());
        (
            left.remove(names.last()),
            if left.contains_key(names.last()) {
                n + 1
            } else {
                n
            },
        )
    }
}

/// Resets the events that the arguments from the third on name.
fn reset_events(st: &mut LatencyState, argv: &[Vec<u8>]) -> (r: usize)
    requires
        old(st).wf(),
        argv@.len() >= 2,
    ensures
        final(st).wf(),
        final(st)@ == (LatencyV {
            events: events_reset(old(st)@.events, views(argv@).skip(2)).0,
            ..old(st)@
        }),
        r == events_reset(old(st)@.events, views(argv@).skip(2)).1,
{
    let ghost before = st@;
    let ghost names = views(argv@).skip(2);
    let argc: usize = argv.len();
    let mut n: usize = 0;
    let mut i: usize = 2;
    assert(names.take(0) =~= Seq::empty());
    while i < argc
        invariant
            argc == argv@.len(),
            2 <= i <= argc,
            names == views(argv@).skip(2),
            st.wf(),
            st@ == (LatencyV {
                events: events_reset(before.events, names.take(i - 2)).0,
                ..before
            }),
            n == events_reset(before.events, names.take(i - 2)).1,
            n <= i - 2,
        decreases argc - i,
    {
        assert(names.take(i - 1).drop_last() =~= names.take(i - 2));
        assert(names.take(i - 1).last() == argv@[i as int]@);
        match st.events.remove(&argv[i]) {
            Some(_) => n += 1,
            None => {},
        }
        assert(st.events@ =~= events_reset(before.events, names.take(i - 1)).0);
        i += 1;
    }
    assert(names.take(i - 2) =~= names);
    n
}

// ---------------------------------------------------------------------------
// LATENCY HISTOGRAM
// ---------------------------------------------------------------------------

/// Whether a name stands for a subcommand of a command.
pub open spec fn is_child(name: Seq<u8>, parent: Seq<u8>) -> bool {
    name.len() > parent.len() && starts_with(name, parent) && name[parent.len() as int] == 124
}

/// A name, if it was counted.
pub open spec fn only_if_counted(m: Map<Seq<u8>, CommandLatencyStats>, name: Seq<u8>) -> Seq<
    Seq<u8>,
> {
    if m.contains_key(name) {
        seq![name]
    } else {
        Seq::empty()
    }
}

/// The counted names that one argument asks for: a subcommand by its full
/// name, or a command with all its subcommands.
pub open spec fn selected(
    m: Map<Seq<u8>, CommandLatencyStats>,
    registered: Seq<Seq<u8>>,
    name: Seq<u8>,
) -> Seq<Seq<u8>> {
    if find_byte(name, 124, 0) is Some {
        only_if_counted(m, name)
    } else if !registered.contains(name) {
        Seq::empty()
    } else {
        let children = keys_of(m).filter(|k: Seq<u8>| is_child(k, name));
        if children.len() == 0 {
            only_if_counted(m, name)
        } else {
            children
        }
    }
}

/// The counted names that arguments ask for.
pub open spec fn selected_all(
    m: Map<Seq<u8>, CommandLatencyStats>,
    registered: Seq<Seq<u8>>,
    names: Seq<Seq<u8>>,
) -> Seq<Seq<u8>>
    decreases names.len(),
{
    if names.len() == 0 {
        Seq::empty()
    } else {
        selected_all(m, registered, names.drop_last()) + selected(
            m,
            registered,
            lower_all(names.last()),
        )
    }
}

/// Whether a name stands for a subcommand of a command.
fn is_child_of(name: &[u8], parent: &[u8]) -> (r: bool)
    ensures
        r == is_child(name@, parent@),
{
    name.len() > parent.len() && has_prefix(name, parent) && name[parent.len()] == 124
}

/// The counted subcommands of a command.
fn children_of(d: &Dict<CommandLatencyStats>, name: &[u8]) -> (r: Vec<Vec<u8>>)
    requires
        d.wf(),
    ensures
        views(r@) == keys_of(d@).filter(|k: Seq<u8>| is_child(k, name@)),
{
    let ghost keys = d.keys();
    let ghost p = |k: Seq<u8>| is_child(k, name@);
    let mut r: Vec<Vec<u8>> = Vec::new();
    let mut i: usize = 0;
    proof {
        d.lemma_keys();
        reveal(Seq::filter);
        assert(keys.take(0).filter(p) =~= Seq::empty());
        assert(views(r@) =~= Seq::empty());
    }
    while i < d.entries.len()
        invariant
            keys == d.keys(),
            i <= d.entries@.len(),
            p == (|k: Seq<u8>| is_child(k, name@)),
            views(r@) == keys.take(i as int).filter(p),
        decreases d.entries@.len() - i,
    {
        proof {
            lemma_filter_step(keys, p, i as int);
        }
        if is_child_of(&d.entries[i].0, name) {
            r.push(dup(&d.entries[i].0));
        }
        i += 1;
    }
    assert(keys.take(i as int) =~= keys);
    r
}

/// Adds the counted names that one argument asks for.
fn append_selected_latency_histogram(
    d: &Dict<CommandLatencyStats>,
    registered: &Vec<Vec<u8>>,
    requested: &[u8],
    out: &mut Vec<Vec<u8>>,
)
    requires
        d.wf(),
    ensures
        views(final(out)@) == views(old(out)@) + selected(d@, views(registered@), requested@),
{
    let ghost first = views(out@);
    let full: bool = find(requested, 124, 0).is_some();
    if !full && position_of(registered, requested) >= registered.len() {
        assert(first =~= first + selected(d@, views(registered@), requested@));
        return;
    }
    if !full {
        let mut children: Vec<Vec<u8>> = children_of(d, requested);
        if children.len() > 0 {
            let ghost had = out@;
            let ghost more = children@;
            out.append(&mut children);
            assert(views(out@) =~= first + views(more));
            return;
        }
    }
    if d.contains(requested) {
        out.push(dup(requested));
        assert(views(out@) =~= first + seq![requested@]);
    } else {
        assert(first =~= first + Seq::empty());
    }
}

/// The names that LATENCY HISTOGRAM replies.
pub open spec fn histogram_names(l: LatencyV, argv: Seq<Seq<u8>>) -> Seq<Seq<u8>> {
    if argv.len() == 2 {
        keys_of(l.histograms)
    } else {
        selected_all(l.histograms, l.registered, argv.skip(2))
    }
}

/// Every key of a dictionary, in ascending order.
fn all_names(d: &Dict<CommandLatencyStats>) -> (r: Vec<Vec<u8>>)
    requires
        d.wf(),
    ensures
        views(r@) == keys_of(d@),
{
    let ghost keys = d.keys();
    let mut r: Vec<Vec<u8>> = Vec::new();
    let mut i: usize = 0;
    proof {
        d.lemma_keys();
    }
    while i < d.entries.len()
        invariant
            keys == d.keys(),
            i <= d.entries@.len(),
            views(r@) =~= keys.take(i as int),
        decreases d.entries@.len() - i,
    {
        r.push(dup(&d.entries[i].0));
        i += 1;
    }
    assert(keys.take(i as int) =~= keys);
    r
}

/// The names that LATENCY HISTOGRAM replies.
fn selected_latency_histograms(st: &LatencyState, argv: &[Vec<u8>]) -> (r: Vec<Vec<u8>>)
    requires
        st.wf(),
        argv@.len() >= 2,
    ensures
        views(r@) == histogram_names(st@, views(argv@)),
{
    let argc: usize = argv.len();
    if argc == 2 {
        return all_names(&st.histograms);
    }
    let ghost names = views(argv@).skip(2);
    let mut r: Vec<Vec<u8>> = Vec::new();
    let mut i: usize = 2;
    assert(names.take(0) =~= Seq::empty());
    assert(views(r@) =~= Seq::empty());
    while i < argc
        invariant
            argc == argv@.len(),
            2 <= i <= argc,
            st.wf(),
            names == views(argv@).skip(2),
            views(r@) == selected_all(st@.histograms, st@.registered, names.take(i - 2)),
        decreases argc - i,
    {
        let name: Vec<u8> = to_lower(&argv[i]);
        append_selected_latency_histogram(&st.histograms, &st.registered, &name, &mut r);
        proof {
            assert(names.take(i - 1).drop_last() =~= names.take(i - 2));
            assert(names.take(i - 1).last() == argv@[i as int]@);
        }
        i += 1;
    }
    assert(names.take(i - 2) =~= names);
    r
}

/// The statistics of one command in a reply.
pub open spec fn histogram_toks(name: Seq<u8>, s: CommandLatencyStats) -> Seq<Tok> {
    seq![
        Tok::Bulk(name),
        Tok::Pairs(2),
        bulk("calls"@),
        Tok::Int(s.calls as i64 as int),
        bulk("histogram_usec"@),
        Tok::Pairs(1),
        Tok::Int(max_of(s.max_usec, 1) as i64 as int),
        Tok::Int(s.calls as i64 as int),
    ]
}

/// The statistics of commands in a reply.
pub open spec fn histograms_toks(
    m: Map<Seq<u8>, CommandLatencyStats>,
    names: Seq<Seq<u8>>,
) -> Seq<Tok>
    decreases names.len(),
{
    if names.len() == 0 {
        Seq::empty()
    } else {
        histograms_toks(m, names.drop_last()) + histogram_toks(
            names.last(),
            stats_of(m, names.last()),
        )
    }
}

/// The reply of LATENCY HISTOGRAM.
pub open spec fn histogram_reply(l: LatencyV, argv: Seq<Seq<u8>>) -> Seq<Tok> {
    let names = histogram_names(l, argv);
    seq![Tok::Pairs(names.len())] + histograms_toks(l.histograms, names)
}

/// The reply of LATENCY HISTOGRAM.
fn reply_latency_histogram(st: &LatencyState, argv: &[Vec<u8>]) -> (r: Vec<Reply>)
    requires
        st.wf(),
        argv@.len() >= 2,
    ensures
        toks(r@) == histogram_reply(st@, views(argv@)),
{
    let names: Vec<Vec<u8>> = selected_latency_histograms(st, argv);
    let ghost all = views(names@);
    let mut out: Vec<Reply> = Vec::new();
    out.push(Reply::Pairs(names.len() as u64));
    let ghost first = toks(out@);
    let mut i: usize = 0;
    proof {
        assert(first =~= seq![Tok::Pairs(all.len())]);
        assert(all.take(0) =~= Seq::empty());
        assert(first =~= first + histograms_toks(st@.histograms, all.take(0)));
    }
    while i < names.len()
        invariant
            i <= names@.len(),
            st.wf(),
            all == views(names@),
            toks(out@) == first + histograms_toks(st@.histograms, all.take(i as int)),
        decreases names@.len() - i,
    {
        let s: CommandLatencyStats = match st.histograms.get(&names[i]) {
            Some(s) => *s,
            None => CommandLatencyStats { calls: 0, max_usec: 0 },
        };
        assert(s == stats_of(st@.histograms, all[i as int]));
        out.push(Reply::Bulk(dup(&names[i])));
        out.push(Reply::Pairs(2));
        out.push(bulk_text("calls"));
        out.push(Reply::Int(s.calls as i64));
        out.push(bulk_text("histogram_usec"));
        out.push(Reply::Pairs(1));
        out.push(Reply::Int(larger(s.max_usec, 1) as i64));
        out.push(Reply::Int(s.calls as i64));
        proof {
            assert(all.take(i + 1).drop_last() =~= all.take(i as int));
            assert(all.take(i + 1).last() == all[i as int]);
            assert(toks(out@) =~= first + histograms_toks(st@.histograms, all.take(i + 1)));
        }
        i += 1;
    }
    assert(all.take(i as int) =~= all);
    out
}

/// The lines of LATENCY HELP.
pub open spec fn latency_help() -> Seq<Tok> {
    seq![
        Tok::Array(14),
        bulk("LATENCY <subcommand> [<arg> [value] [opt] ...]. Subcommands are:"@),
        bulk("DOCTOR"@),
        bulk("    Return a human readable latency analysis report."@),
        bulk("GRAPH <event>"@),
        bulk("    Return an ASCII latency graph for the <event> class."@),
        bulk("HISTORY <event>"@),
        bulk("    Return time-latency samples for the <event> class."@),
        bulk("LATEST"@),
        bulk("    Return the latest latency samples for all events."@),
        bulk("RESET [<event> ...]"@),
        bulk("    Reset latency data of one or more <event> classes."@),
        bulk("    (default: reset all data for all event classes)"@),
        bulk("HISTOGRAM [COMMAND ...]"@),
        bulk("    Return a cumulative distribution of latencies for commands."@),
    ]
}

/// The lines of LATENCY HELP.
fn latency_help_lines() -> (r: Vec<Reply>)
    ensures
        toks(r@) == latency_help(),
{
    let mut out: Vec<Reply> = Vec::new();
    out.push(Reply::Array(14));
    out.push(bulk_text("LATENCY <subcommand> [<arg> [value] [opt] ...]. Subcommands are:"));
    out.push(bulk_text("DOCTOR"));
    out.push(bulk_text("    Return a human readable latency analysis report."));
    out.push(bulk_text("GRAPH <event>"));
    out.push(bulk_text("    Return an ASCII latency graph for the <event> class."));
    out.push(bulk_text("HISTORY <event>"));
    out.push(bulk_text("    Return time-latency samples for the <event> class."));
    out.push(bulk_text("LATEST"));
    out.push(bulk_text("    Return the latest latency samples for all events."));
    out.push(bulk_text("RESET [<event> ...]"));
    out.push(bulk_text("    Reset latency data of one or more <event> classes."));
    out.push(bulk_text("    (default: reset all data for all event classes)"));
    out.push(bulk_text("HISTOGRAM [COMMAND ...]"));
    out.push(bulk_text("    Return a cumulative distribution of latencies for commands."));
    assert(toks(out@) =~= latency_help());
    out
}

/// A subcommand of LATENCY.
#[derive(Debug, Clone, Copy, PartialEq, Eq, Structural)]
pub enum LatencySub {
    Latest,
    History,
    Reset,
    Histogram,
    Graph,
    Doctor,
    Help,
}

/// The subcommand that an argument names.
pub open spec fn latency_sub(a: Seq<u8>) -> Option<LatencySub> {
    if is_word(a, "latest"@) {
        Some(LatencySub::Latest)
    } else if is_word(a, "history"@) {
        Some(LatencySub::History)
    } else if is_word(a, "reset"@) {
        Some(LatencySub::Reset)
    } else if is_word(a, "histogram"@) {
        Some(LatencySub::Histogram)
    } else if is_word(a, "graph"@) {
        Some(LatencySub::Graph)
    } else if is_word(a, "doctor"@) {
        Some(LatencySub::Doctor)
    } else if is_word(a, "help"@) {
        Some(LatencySub::Help)
    } else {
        None
    }
}

/// The subcommand that an argument names.
fn parse_latency_sub(a: &[u8]) -> (r: Option<LatencySub>)
    ensures
        r == latency_sub(a@),
{
    if word(a, "latest") {
        Some(LatencySub::Latest)
    } else if word(a, "history") {
        Some(LatencySub::History)
    } else if word(a, "reset") {
        Some(LatencySub::Reset)
    } else if word(a, "histogram") {
        Some(LatencySub::Histogram)
    } else if word(a, "graph") {
        Some(LatencySub::Graph)
    } else if word(a, "doctor") {
        Some(LatencySub::Doctor)
    } else if word(a, "help") {
        Some(LatencySub::Help)
    } else {
        None
    }
}

/// How LATENCY ends. DOCTOR replies the report that the monitor wrote.
pub open spec fn latency_outcome(c: CtxV, l: LatencyV, report: Seq<u8>) -> Outcome {
    let argv = c.client.argv;
    if argv.len() < 2 {
        fails(c, wrong_args("latency"@))
    } else {
        match latency_sub(argv[1]) {
            None => fails(c, unknown_subcommand(argv[1])),
            Some(LatencySub::Latest) => if argv.len() != 2 {
                fails(c, wrong_args("latency|latest"@))
            } else {
                replies(c, latest_reply(l.events))
            },
            Some(LatencySub::History) => if argv.len() != 3 {
                fails(c, wrong_args("latency|history"@))
            } else {
                replies(c, history_reply(l.events, argv[2]))
            },
            Some(LatencySub::Reset) => replies_one(
                c,
                Tok::Int(
                    if argv.len() == 2 {
                        keys_of(l.events).len() as i64 as int
                    } else {
                        events_reset(l.events, argv.skip(2)).1 as i64 as int
                    },
                ),
            ),
            Some(LatencySub::Histogram) => replies(c, histogram_reply(l, argv)),
            Some(LatencySub::Graph) => if argv.len() != 3 {
                fails(c, wrong_args("latency|graph"@))
            } else {
                replies_one(c, bulk("(no data)\n"@))
            },
            Some(LatencySub::Doctor) => if argv.len() != 2 {
                fails(c, wrong_args("latency|doctor"@))
            } else {
                replies_one(c, Tok::Bulk(report))
            },
            Some(LatencySub::Help) => if argv.len() != 2 {
                fails(c, wrong_args("latency|help"@))
            } else {
                replies(c, latency_help())
            },
        }
    }
}

/// What is known after LATENCY: RESET forgets the events that it names, or all.
pub open spec fn latency_after(c: CtxV, l: LatencyV) -> LatencyV {
    let argv = c.client.argv;
    if argv.len() >= 2 && latency_sub(argv[1]) == Some(LatencySub::Reset) {
        if argv.len() == 2 {
            LatencyV { events: Map::empty(), ..l }
        } else {
            LatencyV { events: events_reset(l.events, argv.skip(2)).0, ..l }
        }
    } else {
        l
    }
}

/// LATENCY LATEST | HISTORY event | RESET [event ...] | HISTOGRAM [command ...]
/// | GRAPH event | DOCTOR | HELP
pub fn latency_command(ctx: &mut CommandContext, st: &mut LatencyState, report: Vec<u8>) -> (r:
    Result<(), RedisError>)
    requires
        old(ctx).wf(),
        old(st).wf(),
    ensures
        final(ctx).wf(),
        final(st).wf(),
        done(r, final(ctx)@) == latency_outcome(old(ctx)@, old(st)@, report@),
        final(st)@ == latency_after(old(ctx)@, old(st)@),
{
    let argc: usize = ctx.arg_count();
    if argc < 2 {
        return Err(RedisError::wrong_number_of_args("latency"));
    }
    let sub: LatencySub = match parse_latency_sub(&ctx.client.argv[1]) {
        None => return Err(unknown_subcommand_error(&ctx.client.argv[1])),
        Some(s) => s,
    };
    match sub {
        LatencySub::Latest => {
            if argc != 2 {
                return Err(RedisError::wrong_number_of_args("latency|latest"));
            }
            ctx.reply_all(reply_latency_latest(&st.events));
            Ok(())
        },
        LatencySub::History => {
            if argc != 3 {
                return Err(RedisError::wrong_number_of_args("latency|history"));
            }
            let out: Vec<Reply> = reply_latency_history(&st.events, &ctx.client.argv[2]);
            ctx.reply_all(out);
            Ok(())
        },
        LatencySub::Reset => {
            if argc == 2 {
                proof {
                    st.events.lemma_keys();
                }
                let n: usize = st.events.len();
                st.events = Dict::new();
                return ctx.reply_integer(n as i64);
            }
            let n: usize = reset_events(st, &ctx.client.argv);
            ctx.reply_integer(n as i64)
        },
        LatencySub::Histogram => {
            let out: Vec<Reply> = reply_latency_histogram(st, &ctx.client.argv);
            ctx.reply_all(out);
            Ok(())
        },
        LatencySub::Graph => {
            if argc != 3 {
                return Err(RedisError::wrong_number_of_args("latency|graph"));
            }
            ctx.reply(bulk_text("(no data)\n"));
            Ok(())
        },
        LatencySub::Doctor => {
            if argc != 2 {
                return Err(RedisError::wrong_number_of_args("latency|doctor"));
            }
            ctx.reply_bulk(report)
        },
        LatencySub::Help => {
            if argc != 2 {
                return Err(RedisError::wrong_number_of_args("latency|help"));
            }
            ctx.reply_all(latency_help_lines());
            Ok(())
        },
    }
}

} // verus!
