//! SLOWLOG and COMMANDLOG: the logs of slow commands, large requests and large
//! replies.

use vstd::prelude::*;

use crate::bytes::{
    dec, dup, fmt_u64, i64_of, is_word, lemma_views_push, opt_view, parse_i64, put, put_text, slice,
    text, views, word,
};
use crate::context::{done, fails, replies, replies_one, CommandContext, CtxV, Outcome};
use crate::error::{runtime, wrong_args, ErrV, RedisError};
use crate::reply::{
    bulk, bulk_array, bulk_text, lemma_toks_add, lemma_toks_push, put_bulk_array, status, toks,
    Reply, Tok,
};
use crate::stream_wake::lemma_filter_step;

verus! {

broadcast use {lemma_toks_push, lemma_toks_add, lemma_views_push};

/// The most arguments that an entry keeps.
pub const COMMANDLOG_ENTRY_MAX_ARGC: usize = 32;

/// The most bytes of an argument that an entry keeps.
pub const COMMANDLOG_ENTRY_MAX_STRING: usize = 128;

/// One logged command.
pub struct CommandLogEntry {
    pub argv: Vec<Vec<u8>>,
    pub id: u64,
    /// What was measured: microseconds or bytes.
    pub value: i64,
    /// When the command was logged, in seconds.
    pub time: i64,
    /// The name of the client.
    pub cname: Vec<u8>,
    /// The identity of the client.
    pub peerid: Vec<u8>,
}

/// One logged command.
#[verifier::ext_equal]
pub struct LogEntryV {
    pub argv: Seq<Seq<u8>>,
    pub id: u64,
    pub value: i64,
    pub time: i64,
    pub cname: Seq<u8>,
    pub peerid: Seq<u8>,
}

impl View for CommandLogEntry {
    type V = LogEntryV;

    open spec fn view(&self) -> LogEntryV {
        LogEntryV {
            argv: views(self.argv@),
            id: self.id,
            value: self.value,
            time: self.time,
            cname: self.cname@,
            peerid: self.peerid@,
        }
    }
}

/// What a list of entries says.
pub open spec fn log_entry_views(v: Seq<CommandLogEntry>) -> Seq<LogEntryV> {
    v.map_values(|e: CommandLogEntry| e@)
}

/// A log of commands, the newest first.
pub struct CommandLog {
    pub entries: Vec<CommandLogEntry>,
    /// The ID of the next entry.
    pub entry_id: u64,
    /// The least value that is logged; a negative one switches the log off.
    pub threshold: i64,
    /// The most entries that are kept.
    pub max_len: usize,
}

/// A log of commands, the newest first.
#[verifier::ext_equal]
pub struct LogV {
    pub entries: Seq<LogEntryV>,
    pub entry_id: u64,
    pub threshold: i64,
    pub max_len: usize,
}

impl View for CommandLog {
    type V = LogV;

    open spec fn view(&self) -> LogV {
        LogV {
            entries: log_entry_views(self.entries@),
            entry_id: self.entry_id,
            threshold: self.threshold,
            max_len: self.max_len,
        }
    }
}

/// The newest `n` of some entries.
pub open spec fn newest(s: Seq<LogEntryV>, n: int) -> Seq<LogEntryV> {
    if s.len() <= n {
        s
    } else {
        s.take(n)
    }
}

/// A log with a new entry; the oldest ones beyond the most that are kept go.
pub open spec fn log_pushed(l: LogV, e: LogEntryV) -> LogV {
    LogV { entries: newest(seq![e] + l.entries, l.max_len as int), ..l }
}

/// A log that keeps that many entries at most.
pub open spec fn log_limited(l: LogV, max: usize) -> LogV {
    LogV { entries: newest(l.entries, max as int), max_len: max, ..l }
}

/// A log without entries.
pub open spec fn log_cleared(l: LogV) -> LogV {
    LogV { entries: Seq::empty(), ..l }
}

impl CommandLog {
    /// The log holds no more entries than it keeps.
    pub open spec fn wf(self) -> bool {
        self.entries@.len() <= self.max_len
    }

    /// An empty log.
    pub fn new(threshold: i64, max_len: usize) -> (r: CommandLog)
        ensures
            r.wf(),
            r@ == (LogV { entries: Seq::empty(), entry_id: 0, threshold, max_len }),
    {
        let r = CommandLog { entries: Vec::new(), entry_id: 0, threshold, max_len };
        assert(r@.entries =~= Seq::empty());
        r
    }

    /// Drops the oldest entries beyond the most that are kept.
    fn trim(&mut self)
        ensures
            final(self).wf(),
            final(self)@ == (LogV {
                entries: newest(old(self)@.entries, old(self).max_len as int),
                ..old(self)@
            }),
    {
        let ghost before = self@;
        while self.entries.len() > self.max_len
            invariant
                self.entry_id == before.entry_id,
                self.threshold == before.threshold,
                self.max_len == before.max_len,
                self.entries@.len() <= before.entries.len(),
                self.entries@.len() < before.entries.len() ==> self.entries@.len() >= self.max_len,
                self@.entries =~= before.entries.take(self.entries@.len() as int),
            decreases self.entries@.len(),
        {
            let _old: Option<CommandLogEntry> = self.entries.pop();
        }
        assert(self@ =~= LogV {
            entries: newest(before.entries, before.max_len as int),
            ..before
        });
    }

    /// Adds an entry.
    pub fn push(&mut self, e: CommandLogEntry)
        ensures
            final(self).wf(),
            final(self)@ == log_pushed(old(self)@, e@),
    {
        let ghost before = self@;
        let ghost v = e@;
        self.entries.insert(0, e);
        assert(self@.entries =~= seq![v] + before.entries);
        self.trim();
    }

    /// Keeps that many entries at most.
    pub fn limit(&mut self, max: usize)
        ensures
            final(self).wf(),
            final(self)@ == log_limited(old(self)@, max),
    {
        self.max_len = max;
        self.trim();
    }

    /// Drops every entry.
    pub fn clear(&mut self)
        ensures
            final(self).wf(),
            final(self)@ == log_cleared(old(self)@),
    {
        self.entries = Vec::new();
        assert(self@.entries =~= Seq::empty());
    }
}

/// A command that blocks, with what is needed to log it later.
pub struct PendingBlockedSlowlogEntry {
    pub client_id: u64,
    pub argv: Vec<Vec<u8>>,
    pub start_micros: u64,
    pub client_name: Option<Vec<u8>>,
}

/// A command that blocks, with what is needed to log it later.
#[verifier::ext_equal]
pub struct PendingV {
    pub client_id: u64,
    pub argv: Seq<Seq<u8>>,
    pub start_micros: u64,
    pub client_name: Option<Seq<u8>>,
}

impl View for PendingBlockedSlowlogEntry {
    type V = PendingV;

    open spec fn view(&self) -> PendingV {
        PendingV {
            client_id: self.client_id,
            argv: views(self.argv@),
            start_micros: self.start_micros,
            client_name: opt_view(self.client_name),
        }
    }
}

/// What a list of blocked commands says.
pub open spec fn pending_views(v: Seq<PendingBlockedSlowlogEntry>) -> Seq<PendingV> {
    v.map_values(|p: PendingBlockedSlowlogEntry| p@)
}

/// The logs.
pub struct CommandLogs {
    pub slow: CommandLog,
    pub large_request: CommandLog,
    pub large_reply: CommandLog,
    pub blocked: Vec<PendingBlockedSlowlogEntry>,
}

/// The logs.
#[verifier::ext_equal]
pub struct LogsV {
    pub slow: LogV,
    pub large_request: LogV,
    pub large_reply: LogV,
    pub blocked: Seq<PendingV>,
}

impl View for CommandLogs {
    type V = LogsV;

    open spec fn view(&self) -> LogsV {
        LogsV {
            slow: self.slow@,
            large_request: self.large_request@,
            large_reply: self.large_reply@,
            blocked: pending_views(self.blocked@),
        }
    }
}

impl CommandLogs {
    /// No log holds more entries than it keeps.
    pub open spec fn wf(self) -> bool {
        self.slow.wf() && self.large_request.wf() && self.large_reply.wf()
    }

    /// The logs of a server that starts: slow commands from ten milliseconds
    /// on, no large requests and replies, and 128 entries in each log.
    pub fn new() -> (r: CommandLogs)
        ensures
            r.wf(),
            r@ == (LogsV {
                slow: LogV {
                    entries: Seq::empty(),
                    entry_id: 0,
                    threshold: 10000,
                    max_len: 128,
                },
                large_request: LogV {
                    entries: Seq::empty(),
                    entry_id: 0,
                    threshold: (-1) as i64,
                    max_len: 128,
                },
                large_reply: LogV {
                    entries: Seq::empty(),
                    entry_id: 0,
                    threshold: (-1) as i64,
                    max_len: 128,
                },
                blocked: Seq::empty(),
            }),
    {
        let r = CommandLogs {
            slow: CommandLog::new(10000, 128),
            large_request: CommandLog::new(-1, 128),
            large_reply: CommandLog::new(-1, 128),
            blocked: Vec::new(),
        };
        assert(r@.blocked =~= Seq::empty());
        r
    }
}

// ---------------------------------------------------------------------------
// Recording
// ---------------------------------------------------------------------------

/// An argument as an entry keeps it.
pub open spec fn kept_arg(a: Seq<u8>) -> Seq<u8> {
    if a.len() > COMMANDLOG_ENTRY_MAX_STRING {
        a.take(COMMANDLOG_ENTRY_MAX_STRING as int) + text("... ("@) + dec(
            a.len() - COMMANDLOG_ENTRY_MAX_STRING,
        ) + text(" more bytes)"@)
    } else {
        a
    }
}

/// The arguments as an entry keeps them.
pub open spec fn kept_argv(argv: Seq<Seq<u8>>) -> Seq<Seq<u8>> {
    if argv.len() > COMMANDLOG_ENTRY_MAX_ARGC {
        argv.take(COMMANDLOG_ENTRY_MAX_ARGC - 1).map_values(|a: Seq<u8>| kept_arg(a)).push(
            text("... ("@) + dec(argv.len() - COMMANDLOG_ENTRY_MAX_ARGC + 1) + text(
                " more arguments)"@,
            ),
        )
    } else {
        argv.map_values(|a: Seq<u8>| kept_arg(a))
    }
}

/// An argument as an entry keeps it.
fn stored_arg(a: &[u8]) -> (r: Vec<u8>)
    ensures
        r@ == kept_arg(a@),
{
    if a.len() > COMMANDLOG_ENTRY_MAX_STRING {
        let mut r: Vec<u8> = slice(a, 0, COMMANDLOG_ENTRY_MAX_STRING);
        assert(r@ =~= a@.take(COMMANDLOG_ENTRY_MAX_STRING as int));
        put_text(&mut r, "... (");
        let n: Vec<u8> = fmt_u64((a.len() - COMMANDLOG_ENTRY_MAX_STRING) as u64);
        put(&mut r, &n);
        put_text(&mut r, " more bytes)");
        r
    } else {
        dup(a)
    }
}

/// The arguments as an entry keeps them.
pub fn commandlog_stored_argv(argv: &[Vec<u8>]) -> (r: Vec<Vec<u8>>)
    ensures
        views(r@) == kept_argv(views(argv@)),
{
    let ghost all = views(argv@);
    let cut: bool = argv.len() > COMMANDLOG_ENTRY_MAX_ARGC;
    let n: usize = if cut { COMMANDLOG_ENTRY_MAX_ARGC - 1 } else { argv.len() };
    let mut r: Vec<Vec<u8>> = Vec::new();
    let mut i: usize = 0;
    while i < n
        invariant
            n <= argv@.len(),
            i <= n,
            all == views(argv@),
            views(r@) =~= all.take(i as int).map_values(|a: Seq<u8>| kept_arg(a)),
        decreases n - i,
    {
        let s: Vec<u8> = stored_arg(&argv[i]);
        r.push(s);
        i += 1;
    }
    if cut {
        let mut more: Vec<u8> = Vec::new();
        put_text(&mut more, "... (");
        let k: Vec<u8> = fmt_u64((argv.len() - COMMANDLOG_ENTRY_MAX_ARGC + 1) as u64);
        put(&mut more, &k);
        put_text(&mut more, " more arguments)");
        assert(more@ =~= text("... ("@) + dec(all.len() - COMMANDLOG_ENTRY_MAX_ARGC + 1) + text(
            " more arguments)"@,
        ));
        r.push(more);
    } else {
        assert(all.take(n as int) =~= all);
    }
    assert(views(r@) =~= kept_argv(all));
    r
}

/// The entry for a command.
pub open spec fn log_entry(
    id: u64,
    argv: Seq<Seq<u8>>,
    value: i64,
    time: i64,
    client: u64,
    name: Option<Seq<u8>>,
) -> LogEntryV {
    LogEntryV {
        argv: kept_argv(argv),
        id,
        value,
        time,
        cname: match name {
            Some(n) => n,
            None => Seq::empty(),
        },
        peerid: text("id="@) + dec(client as int),
    }
}

/// The ID after another; the last one is followed by zero.
pub open spec fn next_id(id: u64) -> u64 {
    if id == u64::MAX {
        0
    } else {
        (id + 1) as u64
    }
}

/// A log after a command was logged.
pub open spec fn logged(
    l: LogV,
    argv: Seq<Seq<u8>>,
    value: i64,
    time: i64,
    client: u64,
    name: Option<Seq<u8>>,
) -> LogV {
    log_pushed(
        LogV { entry_id: next_id(l.entry_id), ..l },
        log_entry(l.entry_id, argv, value, time, client, name),
    )
}

/// Logs a command.
fn log_command(
    log: &mut CommandLog,
    argv: &[Vec<u8>],
    value: i64,
    time: i64,
    client: u64,
    name: Option<Vec<u8>>,
)
    ensures
        final(log).wf(),
        final(log)@ == logged(old(log)@, views(argv@), value, time, client, opt_view(name)),
{
    let ghost was = opt_view(name);
    let id: u64 = log.entry_id;
    log.entry_id = if id == u64::MAX { 0 } else { id + 1 };
    let mut peerid: Vec<u8> = Vec::new();
    put_text(&mut peerid, "id=");
    let num: Vec<u8> = fmt_u64(client);
    put(&mut peerid, &num);
    assert(peerid@ =~= text("id="@) + dec(client as int));
    let cname: Vec<u8> = match name {
        Some(n) => n,
        None => Vec::new(),
    };
    let e = CommandLogEntry { argv: commandlog_stored_argv(argv), id, value, time, cname, peerid };
    assert(e@ =~= log_entry(id, views(argv@), value, time, client, was));
    log.push(e);
}

/// The log of slow commands after a command that took that long.
pub open spec fn slow_recorded(
    l: LogV,
    argv: Seq<Seq<u8>>,
    micros: u64,
    time: i64,
    client: u64,
    name: Option<Seq<u8>>,
) -> LogV {
    if l.threshold < 0 || l.max_len == 0 || micros < l.threshold {
        l
    } else {
        logged(l, argv, micros as i64, time, client, name)
    }
}

/// Logs a command that took at least as long as the threshold.
pub fn record_slowlog_entry(
    logs: &mut CommandLogs,
    argv: &[Vec<u8>],
    duration_micros: u64,
    client_id: u64,
    client_name: Option<Vec<u8>>,
    now_secs: i64,
)
    requires
        old(logs).wf(),
    ensures
        final(logs).wf(),
        final(logs)@ == (LogsV {
            slow: slow_recorded(
                old(logs)@.slow,
                views(argv@),
                duration_micros,
                now_secs,
                client_id,
                opt_view(client_name),
            ),
            ..old(logs)@
        }),
{
    let l: &mut CommandLog = &mut logs.slow;
    if l.threshold < 0 || l.max_len == 0 || duration_micros < l.threshold as u64 {
        return;
    }
    log_command(l, argv, duration_micros as i64, now_secs, client_id, client_name);
}

/// The blocked commands without that of a client.
pub open spec fn without_pending(s: Seq<PendingV>, client: u64) -> Seq<PendingV> {
    s.filter(|p: PendingV| p.client_id != client)
}

/// The blocked command of a client.
pub open spec fn pending_of(s: Seq<PendingV>, client: u64) -> Option<PendingV>
    decreases s.len(),
{
    if s.len() == 0 {
        None
    } else if s.last().client_id == client {
        Some(s.last())
    } else {
        pending_of(s.drop_last(), client)
    }
}

/// Takes the blocked command of a client off the list.
fn take_pending(v: &mut Vec<PendingBlockedSlowlogEntry>, client: u64) -> (r: Option<
    PendingBlockedSlowlogEntry,
>)
    ensures
        pending_views(final(v)@) == without_pending(pending_views(old(v)@), client),
        match r {
            Some(p) => pending_of(pending_views(old(v)@), client) == Some(p@),
            None => pending_of(pending_views(old(v)@), client) is None,
        },
{
    let ghost all = pending_views(v@);
    let ghost whole = v@;
    let ghost p = |x: PendingV| x.client_id != client;
    let mut kept: Vec<PendingBlockedSlowlogEntry> = Vec::new();
    let mut found: Option<PendingBlockedSlowlogEntry> = None;
    let ghost mut i: int = 0;
    proof {
        reveal(Seq::filter);
        assert(all.take(0).filter(p) =~= Seq::empty());
        assert(pending_views(kept@) =~= Seq::empty());
        assert(whole.skip(0) =~= whole);
    }
    while v.len() > 0
        invariant
            0 <= i <= whole.len(),
            all == pending_views(whole),
            v@ == whole.skip(i),
            p == (|x: PendingV| x.client_id != client),
            pending_views(kept@) == all.take(i).filter(p),
            match found {
                Some(e) => pending_of(all.take(i), client) == Some(e@),
                None => pending_of(all.take(i), client) is None,
            },
        decreases v@.len(),
    {
        let ghost had = kept@;
        let e: PendingBlockedSlowlogEntry = v.remove(0);
        proof {
            assert(e == whole[i]);
            assert(all[i] == e@);
            lemma_filter_step(all, p, i);
            assert(all.take(i + 1).drop_last() =~= all.take(i));
            assert(whole.skip(i).remove(0) =~= whole.skip(i + 1));
        }
        if e.client_id == client {
            found = Some(e);
        } else {
            let ghost ev = e@;
            kept.push(e);
            assert(pending_views(kept@) =~= pending_views(had).push(ev));
        }
        proof {
            i = i + 1;
        }
    }
    *v = kept;
    assert(all.take(i) =~= all);
    found
}

/// Remembers a command that blocks until it can be logged.
pub fn remember_blocked_slowlog_entry(
    logs: &mut CommandLogs,
    argv: Vec<Vec<u8>>,
    start_micros: u64,
    client_id: u64,
    client_name: Option<Vec<u8>>,
)
    requires
        old(logs).wf(),
    ensures
        final(logs).wf(),
        final(logs)@ == (LogsV {
            blocked: without_pending(old(logs)@.blocked, client_id).push(
                PendingV {
                    client_id,
                    argv: views(argv@),
                    start_micros,
                    client_name: opt_view(client_name),
                },
            ),
            ..old(logs)@
        }),
{
    let _old: Option<PendingBlockedSlowlogEntry> = take_pending(&mut logs.blocked, client_id);
    let ghost had = logs.blocked@;
    let e = PendingBlockedSlowlogEntry { client_id, argv, start_micros, client_name };
    let ghost ev = e@;
    logs.blocked.push(e);
    assert(pending_views(logs.blocked@) =~= pending_views(had).push(ev));
}

/// The logs after the blocked command of a client ended.
pub open spec fn blocked_recorded(l: LogsV, client: u64, now_micros: u64, now_secs: i64) -> LogsV {
    let rest = LogsV { blocked: without_pending(l.blocked, client), ..l };
    match pending_of(l.blocked, client) {
        None => rest,
        Some(p) => LogsV {
            slow: slow_recorded(
                l.slow,
                p.argv,
                if now_micros >= p.start_micros {
                    (now_micros - p.start_micros) as u64
                } else {
                    0
                },
                now_secs,
                client,
                p.client_name,
            ),
            ..rest
        },
    }
}

/// Logs the blocked command of a client, which ends now.
pub fn record_blocked_slowlog_entry(
    logs: &mut CommandLogs,
    client_id: u64,
    now_micros: u64,
    now_secs: i64,
)
    requires
        old(logs).wf(),
    ensures
        final(logs).wf(),
        final(logs)@ == blocked_recorded(old(logs)@, client_id, now_micros, now_secs),
{
    let found: Option<PendingBlockedSlowlogEntry> = take_pending(&mut logs.blocked, client_id);
    match found {
        None => {},
        Some(p) => {
            let took: u64 = if now_micros >= p.start_micros {
                now_micros - p.start_micros
            } else {
                0
            };
            record_slowlog_entry(logs, &p.argv, took, client_id, p.client_name, now_secs);
        },
    }
}

/// A log of large messages after a command with that many bytes.
pub open spec fn large_recorded(
    l: LogV,
    argv: Seq<Seq<u8>>,
    value: i64,
    time: i64,
    client: u64,
    name: Option<Seq<u8>>,
) -> LogV {
    if l.threshold < 0 || l.max_len == 0 || value < l.threshold {
        l
    } else {
        logged(l, argv, value, time, client, name)
    }
}

/// Logs a command with at least as many bytes as the threshold.
fn record_commandlog_entry(
    log: &mut CommandLog,
    argv: &[Vec<u8>],
    value: i64,
    client_id: u64,
    client_name: Option<Vec<u8>>,
    now_secs: i64,
)
    requires
        old(log).wf(),
    ensures
        final(log).wf(),
        final(log)@ == large_recorded(
            old(log)@,
            views(argv@),
            value,
            now_secs,
            client_id,
            opt_view(client_name),
        ),
{
    if log.threshold < 0 || log.max_len == 0 || value < log.threshold {
        return;
    }
    log_command(log, argv, value, now_secs, client_id, client_name);
}

/// Logs a command by the sizes of its request and its reply.
pub fn record_large_commandlog_entries(
    logs: &mut CommandLogs,
    argv: &[Vec<u8>],
    request_bytes: u64,
    reply_bytes: u64,
    client_id: u64,
    client_name: Option<Vec<u8>>,
    now_secs: i64,
)
    requires
        old(logs).wf(),
    ensures
        final(logs).wf(),
        final(logs)@ == (LogsV {
            large_request: large_recorded(
                old(logs)@.large_request,
                views(argv@),
                request_bytes as i64,
                now_secs,
                client_id,
                opt_view(client_name),
            ),
            large_reply: large_recorded(
                old(logs)@.large_reply,
                views(argv@),
                reply_bytes as i64,
                now_secs,
                client_id,
                opt_view(client_name),
            ),
            ..old(logs)@
        }),
{
    let name: Option<Vec<u8>> = match &client_name {
        Some(n) => Some(dup(n)),
        None => None,
    };
    record_commandlog_entry(
        &mut logs.large_request,
        argv,
        request_bytes as i64,
        client_id,
        name,
        now_secs,
    );
    record_commandlog_entry(
        &mut logs.large_reply,
        argv,
        reply_bytes as i64,
        client_id,
        client_name,
        now_secs,
    );
}

/// Sets the least time that is logged, in microseconds.
pub fn set_slowlog_threshold(logs: &mut CommandLogs, micros: i64)
    requires
        old(logs).wf(),
    ensures
        final(logs).wf(),
        final(logs)@ == (LogsV {
            slow: LogV { threshold: micros, ..old(logs)@.slow },
            ..old(logs)@
        }),
{
    logs.slow.threshold = micros;
}

/// Sets how many slow commands are kept.
pub fn set_slowlog_max_len(logs: &mut CommandLogs, max: usize)
    requires
        old(logs).wf(),
    ensures
        final(logs).wf(),
        final(logs)@ == (LogsV { slow: log_limited(old(logs)@.slow, max), ..old(logs)@ }),
{
    logs.slow.limit(max);
}

/// Sets the least size of a request that is logged.
pub fn set_commandlog_large_request_threshold(logs: &mut CommandLogs, bytes: i64)
    requires
        old(logs).wf(),
    ensures
        final(logs).wf(),
        final(logs)@ == (LogsV {
            large_request: LogV { threshold: bytes, ..old(logs)@.large_request },
            ..old(logs)@
        }),
{
    logs.large_request.threshold = bytes;
}

/// Sets how many large requests are kept.
pub fn set_commandlog_large_request_max_len(logs: &mut CommandLogs, max: usize)
    requires
        old(logs).wf(),
    ensures
        final(logs).wf(),
        final(logs)@ == (LogsV {
            large_request: log_limited(old(logs)@.large_request, max),
            ..old(logs)@
        }),
{
    logs.large_request.limit(max);
}

/// Sets the least size of a reply that is logged.
pub fn set_commandlog_large_reply_threshold(logs: &mut CommandLogs, bytes: i64)
    requires
        old(logs).wf(),
    ensures
        final(logs).wf(),
        final(logs)@ == (LogsV {
            large_reply: LogV { threshold: bytes, ..old(logs)@.large_reply },
            ..old(logs)@
        }),
{
    logs.large_reply.threshold = bytes;
}

/// Sets how many large replies are kept.
pub fn set_commandlog_large_reply_max_len(logs: &mut CommandLogs, max: usize)
    requires
        old(logs).wf(),
    ensures
        final(logs).wf(),
        final(logs)@ == (LogsV {
            large_reply: log_limited(old(logs)@.large_reply, max),
            ..old(logs)@
        }),
{
    logs.large_reply.limit(max);
}

/// A log never holds more entries than it keeps, the newest stand first, and
/// the rest are those that stood there before, in their order.
pub proof fn law_log_keeps_the_newest(l: LogV, e: LogEntryV, i: int)
    requires
        l.max_len > 0,
        0 <= i < log_pushed(l, e).entries.len(),
    ensures
        log_pushed(l, e).entries.len() <= l.max_len,
        log_pushed(l, e).entries[0] == e,
        i > 0 ==> log_pushed(l, e).entries[i] == l.entries[i - 1],
{
}

/// A log that is switched off, or that keeps nothing, does not change.
pub proof fn law_disabled_log_is_silent(
    l: LogV,
    argv: Seq<Seq<u8>>,
    value: u64,
    time: i64,
    client: u64,
    name: Option<Seq<u8>>,
)
    requires
        l.threshold < 0 || l.max_len == 0,
    ensures
        slow_recorded(l, argv, value, time, client, name) == l,
        large_recorded(l, argv, value as i64, time, client, name) == l,
{
}

/// An entry keeps no more than a fixed number of arguments.
pub proof fn law_entries_are_bounded(argv: Seq<Seq<u8>>)
    ensures
        kept_argv(argv).len() <= COMMANDLOG_ENTRY_MAX_ARGC,
        argv.len() <= COMMANDLOG_ENTRY_MAX_ARGC ==> kept_argv(argv).len() == argv.len(),
{
}

// ---------------------------------------------------------------------------
// Commands
// ---------------------------------------------------------------------------

/// The number of entries that an argument asks for; -1 asks for all.
pub open spec fn count_of(b: Seq<u8>) -> Option<i64> {
    if b.len() > 0 && b[0] == 43 {
        None
    } else {
        match i64_of(b) {
            None => None,
            Some(n) => if n < -1 {
                None
            } else {
                Some(n)
            },
        }
    }
}

/// The error for a number of entries that is not accepted.
pub open spec fn bad_count() -> ErrV {
    runtime("ERR count should be greater than or equal to -1"@)
}

/// Parses the number of entries that an argument asks for.
fn parse_count(b: &[u8]) -> (r: Result<i64, RedisError>)
    ensures
        match r {
            Ok(n) => count_of(b@) == Some(n) && n >= -1,
            Err(e) => count_of(b@) is None && e@ == bad_count(),
        },
{
    if b.len() > 0 && b[0] == 43 {
        return Err(RedisError::runtime("ERR count should be greater than or equal to -1"));
    }
    match parse_i64(b) {
        Some(n) if n >= -1 => Ok(n),
        _ => Err(RedisError::runtime("ERR count should be greater than or equal to -1")),
    }
}

/// One entry in a reply.
pub open spec fn log_entry_toks(e: LogEntryV) -> Seq<Tok> {
    seq![
        Tok::Array(6),
        Tok::Int(e.id as i64 as int),
        Tok::Int(e.time as int),
        Tok::Int(e.value as int),
    ] + bulk_array(e.argv) + seq![Tok::Bulk(e.peerid), Tok::Bulk(e.cname)]
}

/// Entries in a reply.
pub open spec fn log_entries_toks(s: Seq<LogEntryV>) -> Seq<Tok>
    decreases s.len(),
{
    if s.len() == 0 {
        Seq::empty()
    } else {
        log_entries_toks(s.drop_last()) + log_entry_toks(s.last())
    }
}

/// The newest entries of a log, as many as asked for.
pub open spec fn log_reply(l: LogV, requested: i64) -> Seq<Tok> {
    let es = if requested == -1 {
        l.entries
    } else {
        newest(l.entries, requested as int)
    };
    seq![Tok::Array(es.len())] + log_entries_toks(es)
}

/// Adds one entry to a reply.
fn put_log_entry(out: &mut Vec<Reply>, e: &CommandLogEntry)
    ensures
        toks(final(out)@) == toks(old(out)@) + log_entry_toks(e@),
{
    let ghost first = toks(out@);
    out.push(Reply::Array(6));
    out.push(Reply::Int(e.id as i64));
    out.push(Reply::Int(e.time));
    out.push(Reply::Int(e.value));
    put_bulk_array(out, &e.argv);
    out.push(Reply::Bulk(dup(&e.peerid)));
    out.push(Reply::Bulk(dup(&e.cname)));
    assert(toks(out@) =~= first + log_entry_toks(e@));
}

/// The newest entries of a log, as many as asked for.
fn reply_commandlog_entries(log: &CommandLog, requested: i64) -> (r: Vec<Reply>)
    requires
        requested >= -1,
    ensures
        toks(r@) == log_reply(log@, requested),
{
    let len: usize = log.entries.len();
    let n: usize = if requested == -1 || requested as u64 >= len as u64 {
        len
    } else {
        requested as usize
    };
    let ghost all = log@.entries;
    let mut out: Vec<Reply> = Vec::new();
    out.push(Reply::Array(n as u128));
    let ghost first = toks(out@);
    let mut i: usize = 0;
    proof {
        assert(first =~= seq![Tok::Array(n as nat)]);
        assert(first =~= first + log_entries_toks(all.take(0)));
    }
    while i < n
        invariant
            n <= log.entries@.len(),
            i <= n,
            all == log@.entries,
            toks(out@) == first + log_entries_toks(all.take(i as int)),
        decreases n - i,
    {
        put_log_entry(&mut out, &log.entries[i]);
        proof {
            assert(all.take(i + 1).drop_last() =~= all.take(i as int));
            assert(all.take(i + 1).last() == log.entries@[i as int]@);
            assert(toks(out@) =~= first + log_entries_toks(all.take(i + 1)));
        }
        i += 1;
    }
    proof {
        let es = if requested == -1 {
            all
        } else {
            newest(all, requested as int)
        };
        assert(all.take(n as int) =~= es);
    }
    out
}

/// The error for a subcommand that is not known.
pub open spec fn unknown_subcommand(sub: Seq<u8>) -> ErrV {
    ErrV::Runtime(
        text("ERR unknown subcommand or wrong number of arguments for '"@) + sub + text("'"@),
    )
}

/// The error for a subcommand that is not known.
pub fn unknown_subcommand_error(sub: &[u8]) -> (r: RedisError)
    ensures
        r@ == unknown_subcommand(sub@),
{
    let mut m: Vec<u8> = Vec::new();
    put_text(&mut m, "ERR unknown subcommand or wrong number of arguments for '");
    put(&mut m, sub);
    put_text(&mut m, "'");
    assert(m@ =~= text("ERR unknown subcommand or wrong number of arguments for '"@) + sub@ + text(
        "'"@,
    ));
    RedisError::Runtime(m)
}

/// The lines of SLOWLOG HELP.
pub open spec fn slowlog_help() -> Seq<Tok> {
    seq![
        Tok::Array(10),
        bulk("SLOWLOG <subcommand> [<arg> [value] [opt] ...]. Subcommands are:"@),
        bulk("GET [<count>]"@),
        bulk("    Return top <count> entries from the slowlog (default: 10, -1 means all)."@),
        bulk("    Entries are made of:"@),
        bulk("    id, timestamp, time in microseconds, arguments array, client IP and port,"@),
        bulk("    client name"@),
        bulk("LEN"@),
        bulk("    Return the length of the slowlog."@),
        bulk("RESET"@),
        bulk("    Reset the slowlog."@),
    ]
}

/// The lines of SLOWLOG HELP.
fn slowlog_help_lines() -> (r: Vec<Reply>)
    ensures
        toks(r@) == slowlog_help(),
{
    let mut out: Vec<Reply> = Vec::new();
    out.push(Reply::Array(10));
    out.push(bulk_text("SLOWLOG <subcommand> [<arg> [value] [opt] ...]. Subcommands are:"));
    out.push(bulk_text("GET [<count>]"));
    out.push(bulk_text("    Return top <count> entries from the slowlog (default: 10, -1 means all)."));
    out.push(bulk_text("    Entries are made of:"));
    out.push(bulk_text("    id, timestamp, time in microseconds, arguments array, client IP and port,"));
    out.push(bulk_text("    client name"));
    out.push(bulk_text("LEN"));
    out.push(bulk_text("    Return the length of the slowlog."));
    out.push(bulk_text("RESET"));
    out.push(bulk_text("    Reset the slowlog."));
    assert(toks(out@) =~= slowlog_help());
    out
}

/// How SLOWLOG ends.
pub open spec fn slowlog_outcome(c: CtxV, l: LogsV) -> Outcome {
    let argv = c.client.argv;
    if argv.len() < 2 {
        fails(c, wrong_args("slowlog"@))
    } else if is_word(argv[1], "len"@) {
        if argv.len() != 2 {
            fails(c, wrong_args("slowlog|len"@))
        } else {
            replies_one(c, Tok::Int(l.slow.entries.len() as i64 as int))
        }
    } else if is_word(argv[1], "reset"@) {
        if argv.len() != 2 {
            fails(c, wrong_args("slowlog|reset"@))
        } else {
            replies_one(c, status("OK"@))
        }
    } else if is_word(argv[1], "get"@) {
        if argv.len() > 3 {
            fails(c, wrong_args("slowlog|get"@))
        } else if argv.len() == 3 {
            match count_of(argv[2]) {
                None => fails(c, bad_count()),
                Some(n) => replies(c, log_reply(l.slow, n)),
            }
        } else {
            replies(c, log_reply(l.slow, 10))
        }
    } else if is_word(argv[1], "help"@) {
        replies(c, slowlog_help())
    } else {
        fails(c, unknown_subcommand(argv[1]))
    }
}

/// The logs after SLOWLOG: RESET empties the log of slow commands.
pub open spec fn slowlog_logs(c: CtxV, l: LogsV) -> LogsV {
    let argv = c.client.argv;
    if argv.len() == 2 && !is_word(argv[1], "len"@) && is_word(argv[1], "reset"@) {
        LogsV { slow: log_cleared(l.slow), ..l }
    } else {
        l
    }
}

/// SLOWLOG GET [count] | LEN | RESET | HELP
pub fn slowlog_command(ctx: &mut CommandContext, logs: &mut CommandLogs) -> (r: Result<
    (),
    RedisError,
>)
    requires
        old(ctx).wf(),
        old(logs).wf(),
    ensures
        final(ctx).wf(),
        final(logs).wf(),
        done(r, final(ctx)@) == slowlog_outcome(old(ctx)@, old(logs)@),
        final(logs)@ == slowlog_logs(old(ctx)@, old(logs)@),
{
    let argc: usize = ctx.arg_count();
    if argc < 2 {
        return Err(RedisError::wrong_number_of_args("slowlog"));
    }
    let sub: Vec<u8> = ctx.arg_owned(1);
    if word(&sub, "len") {
        if argc != 2 {
            return Err(RedisError::wrong_number_of_args("slowlog|len"));
        }
        return ctx.reply_integer(logs.slow.entries.len() as i64);
    }
    if word(&sub, "reset") {
        if argc != 2 {
            return Err(RedisError::wrong_number_of_args("slowlog|reset"));
        }
        logs.slow.clear();
        return ctx.reply_simple_string("OK");
    }
    if word(&sub, "get") {
        if argc > 3 {
            return Err(RedisError::wrong_number_of_args("slowlog|get"));
        }
        let requested: i64 = if argc == 3 {
            match parse_count(&ctx.client.argv[2]) {
                Err(e) => return Err(e),
                Ok(n) => n,
            }
        } else {
            10
        };
        let out: Vec<Reply> = reply_commandlog_entries(&logs.slow, requested);
        ctx.reply_all(out);
        return Ok(());
    }
    if word(&sub, "help") {
        ctx.reply_all(slowlog_help_lines());
        return Ok(());
    }
    Err(unknown_subcommand_error(&sub))
}

/// A kind of log.
#[derive(Debug, Clone, Copy, PartialEq, Eq, Structural)]
pub enum CommandLogType {
    Slow,
    LargeRequest,
    LargeReply,
}

/// The kind of log that an argument names.
pub open spec fn log_type(a: Seq<u8>) -> Option<CommandLogType> {
    if is_word(a, "slow"@) {
        Some(CommandLogType::Slow)
    } else if is_word(a, "large-request"@) {
        Some(CommandLogType::LargeRequest)
    } else if is_word(a, "large-reply"@) {
        Some(CommandLogType::LargeReply)
    } else {
        None
    }
}

/// The error for a kind of log that is not known.
pub open spec fn bad_log_type() -> ErrV {
    runtime("ERR type should be one of the following: slow, large-request, large-reply"@)
}

/// The kind of log that an argument names.
fn parse_commandlog_type(a: &[u8]) -> (r: Result<CommandLogType, RedisError>)
    ensures
        match r {
            Ok(t) => log_type(a@) == Some(t),
            Err(e) => log_type(a@) is None && e@ == bad_log_type(),
        },
{
    if word(a, "slow") {
        Ok(CommandLogType::Slow)
    } else if word(a, "large-request") {
        Ok(CommandLogType::LargeRequest)
    } else if word(a, "large-reply") {
        Ok(CommandLogType::LargeReply)
    } else {
        Err(
            RedisError::runtime(
                "ERR type should be one of the following: slow, large-request, large-reply",
            ),
        )
    }
}

/// The log of a kind.
pub open spec fn log_at(l: LogsV, t: CommandLogType) -> LogV {
    match t {
        CommandLogType::Slow => l.slow,
        CommandLogType::LargeRequest => l.large_request,
        CommandLogType::LargeReply => l.large_reply,
    }
}

/// The logs with the log of a kind emptied.
pub open spec fn cleared_at(l: LogsV, t: CommandLogType) -> LogsV {
    match t {
        CommandLogType::Slow => LogsV { slow: log_cleared(l.slow), ..l },
        CommandLogType::LargeRequest => LogsV {
            large_request: log_cleared(l.large_request),
            ..l
        },
        CommandLogType::LargeReply => LogsV { large_reply: log_cleared(l.large_reply), ..l },
    }
}

/// The log of a kind.
fn commandlog_handle(logs: &CommandLogs, t: CommandLogType) -> (r: &CommandLog)
    ensures
        r@ == log_at(logs@, t),
{
    match t {
        CommandLogType::Slow => &logs.slow,
        CommandLogType::LargeRequest => &logs.large_request,
        CommandLogType::LargeReply => &logs.large_reply,
    }
}

/// Empties the log of a kind.
fn clear_log(logs: &mut CommandLogs, t: CommandLogType)
    requires
        old(logs).wf(),
    ensures
        final(logs).wf(),
        final(logs)@ == cleared_at(old(logs)@, t),
{
    match t {
        CommandLogType::Slow => logs.slow.clear(),
        CommandLogType::LargeRequest => logs.large_request.clear(),
        CommandLogType::LargeReply => logs.large_reply.clear(),
    }
}

/// The lines of COMMANDLOG HELP.
pub open spec fn commandlog_help() -> Seq<Tok> {
    seq![
        Tok::Array(9),
        bulk("COMMANDLOG <subcommand> [<arg> [value] [opt] ...]. Subcommands are:"@),
        bulk("GET <count> <type>"@),
        bulk("    Return top <count> entries of the specified type (-1 means all)."@),
        bulk("LEN <type>"@),
        bulk("    Return the length of the specified type of commandlog."@),
        bulk("RESET <type>"@),
        bulk("    Reset the specified type of commandlog."@),
        bulk("HELP"@),
        bulk("    Return this help."@),
    ]
}

/// The lines of COMMANDLOG HELP.
fn commandlog_help_lines() -> (r: Vec<Reply>)
    ensures
        toks(r@) == commandlog_help(),
{
    let mut out: Vec<Reply> = Vec::new();
    out.push(Reply::Array(9));
    out.push(bulk_text("COMMANDLOG <subcommand> [<arg> [value] [opt] ...]. Subcommands are:"));
    out.push(bulk_text("GET <count> <type>"));
    out.push(bulk_text("    Return top <count> entries of the specified type (-1 means all)."));
    out.push(bulk_text("LEN <type>"));
    out.push(bulk_text("    Return the length of the specified type of commandlog."));
    out.push(bulk_text("RESET <type>"));
    out.push(bulk_text("    Reset the specified type of commandlog."));
    out.push(bulk_text("HELP"));
    out.push(bulk_text("    Return this help."));
    assert(toks(out@) =~= commandlog_help());
    out
}

/// How COMMANDLOG ends.
pub open spec fn commandlog_outcome(c: CtxV, l: LogsV) -> Outcome {
    let argv = c.client.argv;
    if argv.len() < 2 {
        fails(c, wrong_args("commandlog"@))
    } else if is_word(argv[1], "help"@) {
        if argv.len() != 2 {
            fails(c, wrong_args("commandlog|help"@))
        } else {
            replies(c, commandlog_help())
        }
    } else if is_word(argv[1], "len"@) {
        if argv.len() != 3 {
            fails(c, wrong_args("commandlog|len"@))
        } else {
            match log_type(argv[2]) {
                None => fails(c, bad_log_type()),
                Some(t) => replies_one(c, Tok::Int(log_at(l, t).entries.len() as i64 as int)),
            }
        }
    } else if is_word(argv[1], "reset"@) {
        if argv.len() != 3 {
            fails(c, wrong_args("commandlog|reset"@))
        } else {
            match log_type(argv[2]) {
                None => fails(c, bad_log_type()),
                Some(_) => replies_one(c, status("OK"@)),
            }
        }
    } else if is_word(argv[1], "get"@) {
        if argv.len() != 4 {
            fails(c, wrong_args("commandlog|get"@))
        } else {
            match count_of(argv[2]) {
                None => fails(c, bad_count()),
                Some(n) => match log_type(argv[3]) {
                    None => fails(c, bad_log_type()),
                    Some(t) => replies(c, log_reply(log_at(l, t), n)),
                },
            }
        }
    } else {
        fails(c, unknown_subcommand(argv[1]))
    }
}

/// The logs after COMMANDLOG: RESET empties the log that it names.
pub open spec fn commandlog_logs(c: CtxV, l: LogsV) -> LogsV {
    let argv = c.client.argv;
    if argv.len() == 3 && !is_word(argv[1], "help"@) && !is_word(argv[1], "len"@) && is_word(
        argv[1],
        "reset"@,
    ) && log_type(argv[2]) is Some {
        cleared_at(l, log_type(argv[2])->0)
    } else {
        l
    }
}

/// COMMANDLOG GET count type | LEN type | RESET type | HELP
pub fn commandlog_command(ctx: &mut CommandContext, logs: &mut CommandLogs) -> (r: Result<
    (),
    RedisError,
>)
    requires
        old(ctx).wf(),
        old(logs).wf(),
    ensures
        final(ctx).wf(),
        final(logs).wf(),
        done(r, final(ctx)@) == commandlog_outcome(old(ctx)@, old(logs)@),
        final(logs)@ == commandlog_logs(old(ctx)@, old(logs)@),
{
    let argc: usize = ctx.arg_count();
    if argc < 2 {
        return Err(RedisError::wrong_number_of_args("commandlog"));
    }
    let sub: Vec<u8> = ctx.arg_owned(1);
    if word(&sub, "help") {
        if argc != 2 {
            return Err(RedisError::wrong_number_of_args("commandlog|help"));
        }
        ctx.reply_all(commandlog_help_lines());
        return Ok(());
    }
    if word(&sub, "len") {
        if argc != 3 {
            return Err(RedisError::wrong_number_of_args("commandlog|len"));
        }
        let t: CommandLogType = match parse_commandlog_type(&ctx.client.argv[2]) {
            Err(e) => return Err(e),
            Ok(t) => t,
        };
        let n: i64 = commandlog_handle(logs, t).entries.len() as i64;
        return ctx.reply_integer(n);
    }
    if word(&sub, "reset") {
        if argc != 3 {
            return Err(RedisError::wrong_number_of_args("commandlog|reset"));
        }
        let t: CommandLogType = match parse_commandlog_type(&ctx.client.argv[2]) {
            Err(e) => return Err(e),
            Ok(t) => t,
        };
        clear_log(logs, t);
        return ctx.reply_simple_string("OK");
    }
    if word(&sub, "get") {
        if argc != 4 {
            return Err(RedisError::wrong_number_of_args("commandlog|get"));
        }
        let n: i64 = match parse_count(&ctx.client.argv[2]) {
            Err(e) => return Err(e),
            Ok(n) => n,
        };
        let t: CommandLogType = match parse_commandlog_type(&ctx.client.argv[3]) {
            Err(e) => return Err(e),
            Ok(t) => t,
        };
        let out: Vec<Reply> = reply_commandlog_entries(commandlog_handle(logs, t), n);
        ctx.reply_all(out);
        return Ok(());
    }
    Err(unknown_subcommand_error(&sub))
}

} // verus!
