//! The stream that a replica follows: its frames, the batches in which they are
//! applied, and the acknowledgements that are sent back.

use vstd::prelude::*;
use vstd::slice::slice_subrange;

use crate::bytes::{dec, fmt_i64, is_word, lemma_views_push, lit, slice, text, views, word};
use crate::repl_state::{advanced, ReplRole, ReplV, ReplicaLink, ReplicationState};
use crate::resp::{
    command_frame, encode_resp_command, law_complete_request_stands, law_request_round_trip,
    parse_inline_or_multibulk, request, MAX_REQUEST_ARGS, MAX_REQUEST_BULK,
};

verus! {

broadcast use lemma_views_push;

/// How much of the stream is read at once, in bytes.
pub const REPLICA_STREAM_READ_BUFFER_SIZE: usize = 4194304;

// ---------------------------------------------------------------------------
// Frames
// ---------------------------------------------------------------------------

/// A frame of the stream, and the offset after it.
pub enum ReplicaStreamFrame {
    /// A command to apply.
    Command { argv: Vec<Vec<u8>>, offset_after: i64 },
    /// The primary asks how far this replica is.
    GetAck { offset_after: i64 },
}

/// A frame of the stream, and the offset after it.
#[verifier::ext_equal]
pub enum FrameV {
    Command { argv: Seq<Seq<u8>>, offset_after: i64 },
    GetAck { offset_after: i64 },
}

impl View for ReplicaStreamFrame {
    type V = FrameV;

    open spec fn view(&self) -> FrameV {
        match self {
            ReplicaStreamFrame::Command { argv, offset_after } => FrameV::Command {
                argv: views(argv@),
                offset_after: *offset_after,
            },
            ReplicaStreamFrame::GetAck { offset_after } => FrameV::GetAck {
                offset_after: *offset_after,
            },
        }
    }
}

/// Some frames.
pub open spec fn frame_views(v: Seq<ReplicaStreamFrame>) -> Seq<FrameV> {
    v.map_values(|f: ReplicaStreamFrame| f@)
}

/// Whether a command asks how far this replica is.
pub open spec fn asks_ack(argv: Seq<Seq<u8>>) -> bool {
    argv.len() >= 2 && is_word(argv[0], "REPLCONF"@) && is_word(argv[1], "GETACK"@)
}

/// The frame of a command that ends at an offset.
pub open spec fn frame_of(argv: Seq<Seq<u8>>, offset_after: i64) -> FrameV {
    if asks_ack(argv) {
        FrameV::GetAck { offset_after }
    } else {
        FrameV::Command { argv, offset_after }
    }
}

/// The frames that are complete, after those in `acc`, what is left of the
/// bytes, and the offset after the frames.
pub open spec fn frames_in(s: Seq<u8>, offset: i64, acc: Seq<FrameV>) -> (
    Result<Seq<FrameV>, ()>,
    Seq<u8>,
    i64,
)
    decreases s.len(),
{
    match request(s) {
        Err(_) => (Err(()), s, offset),
        Ok(None) => (Ok(acc), s, offset),
        Ok(Some((argv, n))) => if n <= 0 || n > s.len() {
            (Ok(acc), s, offset)
        } else {
            let after = advanced(offset, n);
            frames_in(s.skip(n), after, acc.push(frame_of(argv, after)))
        },
    }
}

/// What reading frames came to.
pub open spec fn frames_result(r: Result<Vec<ReplicaStreamFrame>, ()>) -> Result<Seq<FrameV>, ()> {
    match r {
        Ok(v) => Ok(frame_views(v@)),
        Err(_) => Err(()),
    }
}

/// Whether a command asks how far this replica is.
pub fn is_getack(argv: &[Vec<u8>]) -> (r: bool)
    ensures
        r == asks_ack(views(argv@)),
{
    argv.len() >= 2 && word(&argv[0], "REPLCONF") && word(&argv[1], "GETACK")
}

/// An offset that advances, within its range.
fn advance(offset: i64, n: usize) -> (r: i64)
    ensures
        r == advanced(offset, n as int),
{
    let end: i128 = offset as i128 + n as i128;
    if end > i64::MAX as i128 {
        i64::MAX
    } else {
        end as i64
    }
}

/// Takes the complete frames from the bytes that were read.
pub fn parse_replica_frames(read_buf: &mut Vec<u8>, stream_offset: &mut i64) -> (r: Result<
    Vec<ReplicaStreamFrame>,
    (),
>)
    ensures
        (frames_result(r), final(read_buf)@, *final(stream_offset)) == frames_in(
            old(read_buf)@,
            *old(stream_offset),
            Seq::empty(),
        ),
{
    let len: usize = read_buf.len();
    let ghost s = read_buf@;
    let ghost whole = frames_in(s, *stream_offset, Seq::empty());
    let mut frames: Vec<ReplicaStreamFrame> = Vec::new();
    let mut offset: i64 = *stream_offset;
    let mut pos: usize = 0;
    let mut go: bool = true;
    let mut bad: bool = false;
    assert(frame_views(frames@) =~= Seq::empty());
    assert(s.skip(0) =~= s);
    while go
        invariant
            len == read_buf@.len(),
            s == read_buf@,
            pos <= len,
            go ==> !bad,
            go ==> whole == frames_in(s.skip(pos as int), offset, frame_views(frames@)),
            !go && bad ==> whole == (
                Err::<Seq<FrameV>, ()>(()),
                s.skip(pos as int),
                offset,
            ),
            !go && !bad ==> whole == (
                Ok::<_, ()>(frame_views(frames@)),
                s.skip(pos as int),
                offset,
            ),
        decreases len - pos + (if go { 1int } else { 0int }),
    {
        let ghost t = s.skip(pos as int);
        let left: &[u8] = slice_subrange(read_buf.as_slice(), pos, len);
        assert(left@ =~= t);
        match parse_inline_or_multibulk(left) {
            Err(_) => {
                go = false;
                bad = true;
            },
            Ok(None) => {
                go = false;
            },
            Ok(Some(p)) => {
                let (argv, n) = p;
                let after: i64 = advance(offset, n);
                let ghost had = frames@;
                let f: ReplicaStreamFrame = if is_getack(&argv) {
                    ReplicaStreamFrame::GetAck { offset_after: after }
                } else {
                    ReplicaStreamFrame::Command { argv, offset_after: after }
                };
                let ghost fv = f@;
                frames.push(f);
                proof {
                    assert(frame_views(frames@) =~= frame_views(had).push(fv));
                    assert(t.skip(n as int) =~= s.skip(pos + n));
                }
                offset = after;
                pos += n;
            },
        }
    }
    *stream_offset = offset;
    let rest: Vec<u8> = slice(read_buf, pos, len);
    assert(rest@ =~= s.skip(pos as int));
    *read_buf = rest;
    if bad {
        Err(())
    } else {
        Ok(frames)
    }
}

/// A command that the primary wrote is the frame that comes out, and the offset
/// advances by its length.
pub proof fn law_stream_reads_commands_back(
    args: Seq<Seq<u8>>,
    rest: Seq<u8>,
    offset: i64,
    acc: Seq<FrameV>,
)
    requires
        args.len() <= MAX_REQUEST_ARGS,
        forall|j: int| 0 <= j < args.len() ==> (#[trigger] args[j]).len() <= MAX_REQUEST_BULK,
    ensures
        ({
            let after = advanced(offset, command_frame(args).len() as int);
            frames_in(command_frame(args) + rest, offset, acc) == frames_in(
                rest,
                after,
                acc.push(frame_of(args, after)),
            )
        }),
{
    let f = command_frame(args);
    law_request_round_trip(args, rest);
    assert((f + rest).skip(f.len() as int) =~= rest);
}

/// Frames that were read before stand before those that are read now.
proof fn lemma_frames_after(s: Seq<u8>, offset: i64, acc: Seq<FrameV>)
    ensures
        ({
            let (r, rest, end) = frames_in(s, offset, Seq::empty());
            frames_in(s, offset, acc) == (
                match r {
                    Ok(fs) => Ok::<Seq<FrameV>, ()>(acc + fs),
                    Err(_) => Err::<Seq<FrameV>, ()>(()),
                },
                rest,
                end,
            )
        }),
    decreases s.len(),
{
    match request(s) {
        Ok(Some((argv, n))) => {
            if 0 < n <= s.len() {
                let after = advanced(offset, n);
                let f = frame_of(argv, after);
                let none: Seq<FrameV> = Seq::empty();
                lemma_frames_after(s.skip(n), after, acc.push(f));
                lemma_frames_after(s.skip(n), after, none.push(f));
                if let Ok(fs) = frames_in(s.skip(n), after, none).0 {
                    assert(acc.push(f) + fs =~= acc + (none.push(f) + fs));
                }
            } else {
                assert(acc + Seq::<FrameV>::empty() =~= acc);
            }
        },
        _ => {
            assert(acc + Seq::<FrameV>::empty() =~= acc);
        },
    }
}

proof fn lemma_frames_go_on(a: Seq<u8>, b: Seq<u8>, offset: i64, acc: Seq<FrameV>)
    requires
        frames_in(a, offset, acc).0 is Ok,
    ensures
        ({
            let (r, rest, mid) = frames_in(a, offset, acc);
            frames_in(a + b, offset, acc) == frames_in(rest + b, mid, r->Ok_0)
        }),
    decreases a.len(),
{
    match request(a) {
        Ok(Some((argv, n))) => {
            law_complete_request_stands(a, b);
            let after = advanced(offset, n);
            assert((a + b).skip(n) =~= a.skip(n) + b);
            lemma_frames_go_on(a.skip(n), b, after, acc.push(frame_of(argv, after)));
        },
        _ => {},
    }
}

/// Bytes that come in two chunks, what is left of the first kept for the second,
/// give the frames, the rest and the offset that they give in one.
pub proof fn law_chunks_read_alike(a: Seq<u8>, b: Seq<u8>, offset: i64)
    requires
        frames_in(a, offset, Seq::empty()).0 is Ok,
    ensures
        ({
            let (first, rest, mid) = frames_in(a, offset, Seq::empty());
            let (second, left, end) = frames_in(rest + b, mid, Seq::empty());
            frames_in(a + b, offset, Seq::empty()) == (
                match second {
                    Ok(fs) => Ok::<Seq<FrameV>, ()>(first->Ok_0 + fs),
                    Err(_) => Err::<Seq<FrameV>, ()>(()),
                },
                left,
                end,
            )
        }),
{
    let (first, rest, mid) = frames_in(a, offset, Seq::empty());
    lemma_frames_go_on(a, b, offset, Seq::empty());
    lemma_frames_after(rest + b, mid, first->Ok_0);
}

/// The offset after a frame.
pub open spec fn frame_end(f: FrameV) -> i64 {
    match f {
        FrameV::Command { argv, offset_after } => offset_after,
        FrameV::GetAck { offset_after } => offset_after,
    }
}

/// Reading frames takes them from the front, and the offset advances by the bytes
/// that were taken. The offsets after the frames ascend, and the last one is the
/// offset reached; where there is no frame, nothing changes.
pub proof fn law_frames_advance(s: Seq<u8>, offset: i64)
    requires
        offset + s.len() <= i64::MAX,
        frames_in(s, offset, Seq::empty()).0 is Ok,
    ensures
        ({
            let (r, rest, end) = frames_in(s, offset, Seq::empty());
            let fs = r->Ok_0;
            &&& rest.len() <= s.len()
            &&& rest == s.skip(s.len() - rest.len())
            &&& end == offset + (s.len() - rest.len())
            &&& forall|i: int, j: int|
                0 <= i < j < fs.len() ==> frame_end(#[trigger] fs[i]) < frame_end(#[trigger] fs[j])
            &&& forall|i: int| 0 <= i < fs.len() ==> offset < frame_end(#[trigger] fs[i]) <= end
            &&& fs.len() > 0 ==> frame_end(fs.last()) == end
            &&& fs.len() == 0 ==> rest == s && end == offset
        }),
    decreases s.len(),
{
    let (r, rest, end) = frames_in(s, offset, Seq::empty());
    match request(s) {
        Ok(Some((argv, n))) => {
            law_complete_request_stands(s, Seq::empty());
            let after = advanced(offset, n);
            let f = frame_of(argv, after);
            let none: Seq<FrameV> = Seq::empty();
            lemma_frames_after(s.skip(n), after, none.push(f));
            law_frames_advance(s.skip(n), after);
            let later = frames_in(s.skip(n), after, none).0->Ok_0;
            let fs = r->Ok_0;
            assert(fs == none.push(f) + later);
            assert(frame_end(f) == after);
            assert forall|i: int| 0 <= i < fs.len() implies offset < frame_end(#[trigger] fs[i])
                <= end by {
                if i > 0 {
                    assert(fs[i] == later[i - 1]);
                }
            }
            assert forall|i: int, j: int| 0 <= i < j < fs.len() implies frame_end(
                #[trigger] fs[i],
            ) < frame_end(#[trigger] fs[j]) by {
                assert(fs[j] == later[j - 1]);
                if i > 0 {
                    assert(fs[i] == later[i - 1]);
                }
            }
            assert(s.skip(n).skip(s.len() - n - rest.len()) =~= s.skip(s.len() - rest.len()));
        },
        _ => {
            assert(s.skip(0) =~= s);
        },
    }
}

// ---------------------------------------------------------------------------
// Batches
// ---------------------------------------------------------------------------

/// Commands that wait to be applied, each with the offset after it.
pub open spec fn batch_views(b: Seq<(Vec<Vec<u8>>, i64)>) -> Seq<(Seq<Seq<u8>>, i64)> {
    b.map_values(|p: (Vec<Vec<u8>>, i64)| (views(p.0@), p.1))
}

/// Whether the last of some commands stands inside a transaction.
pub open spec fn opens(cmds: Seq<Seq<Seq<u8>>>) -> bool
    decreases cmds.len(),
{
    if cmds.len() == 0 {
        false
    } else {
        let c = cmds.last();
        if c.len() == 0 {
            opens(cmds.drop_last())
        } else if is_word(c[0], "MULTI"@) {
            true
        } else if is_word(c[0], "EXEC"@) || is_word(c[0], "DISCARD"@) {
            false
        } else {
            opens(cmds.drop_last())
        }
    }
}

/// The commands of a batch.
pub open spec fn commands_of(b: Seq<(Seq<Seq<u8>>, i64)>) -> Seq<Seq<Seq<u8>>> {
    b.map_values(|p: (Seq<Seq<u8>>, i64)| p.0)
}

/// Whether a batch ends inside a transaction.
pub fn replica_command_batch_has_open_transaction(batch: &[(Vec<Vec<u8>>, i64)]) -> (r: bool)
    ensures
        r == opens(commands_of(batch_views(batch@))),
{
    let ghost all = commands_of(batch_views(batch@));
    let mut open: bool = false;
    let mut i: usize = 0;
    while i < batch.len()
        invariant
            i <= batch@.len(),
            all == commands_of(batch_views(batch@)),
            open == opens(all.take(i as int)),
        decreases batch@.len() - i,
    {
        let argv: &Vec<Vec<u8>> = &batch[i].0;
        proof {
            assert(all.take(i + 1).drop_last() =~= all.take(i as int));
            assert(all.take(i + 1).last() == views(argv@));
        }
        if argv.len() > 0 {
            if word(&argv[0], "MULTI") {
                open = true;
            } else if word(&argv[0], "EXEC") || word(&argv[0], "DISCARD") {
                open = false;
            }
        }
        i += 1;
    }
    assert(all.take(i as int) =~= all);
    open
}

/// What the caller has to do with frames, in this order.
pub enum SinkOp {
    /// Apply the commands, then acknowledge the offset.
    Apply { commands: Vec<Vec<Vec<u8>>>, offset_after: i64 },
    /// Acknowledge the offset.
    Answer { offset_after: i64 },
}

/// What the caller has to do with frames.
#[verifier::ext_equal]
pub enum SinkV {
    Apply { commands: Seq<Seq<Seq<u8>>>, offset_after: i64 },
    Answer { offset_after: i64 },
}

/// Some commands.
pub open spec fn command_views(v: Seq<Vec<Vec<u8>>>) -> Seq<Seq<Seq<u8>>> {
    v.map_values(|c: Vec<Vec<u8>>| views(c@))
}

impl View for SinkOp {
    type V = SinkV;

    open spec fn view(&self) -> SinkV {
        match self {
            SinkOp::Apply { commands, offset_after } => SinkV::Apply {
                commands: command_views(commands@),
                offset_after: *offset_after,
            },
            SinkOp::Answer { offset_after } => SinkV::Answer { offset_after: *offset_after },
        }
    }
}

/// What the caller has to do.
pub open spec fn sink_views(v: Seq<SinkOp>) -> Seq<SinkV> {
    v.map_values(|o: SinkOp| o@)
}

/// What has to be done to apply a batch.
pub open spec fn flushed(b: Seq<(Seq<Seq<u8>>, i64)>) -> Seq<SinkV> {
    if b.len() == 0 {
        Seq::empty()
    } else {
        seq![SinkV::Apply { commands: commands_of(b), offset_after: b.last().1 }]
    }
}

/// What has to be done with some frames after a batch, and the batch that is
/// left. A batch is not applied before its transaction ends.
pub open spec fn sunk(b: Seq<(Seq<Seq<u8>>, i64)>, frames: Seq<FrameV>) -> (
    Seq<SinkV>,
    Seq<(Seq<Seq<u8>>, i64)>,
)
    decreases frames.len(),
{
    if frames.len() == 0 {
        (Seq::empty(), b)
    } else {
        let (ops, b1) = sunk(b, frames.drop_last());
        match frames.last() {
            FrameV::Command { argv, offset_after } => (ops, b1.push((argv, offset_after))),
            FrameV::GetAck { offset_after } => if opens(commands_of(b1)) {
                (ops, b1)
            } else {
                (
                    ops + flushed(b1) + seq![SinkV::Answer { offset_after }],
                    Seq::empty(),
                )
            },
        }
    }
}

/// What has to be done with the frames of one read, and the batch that is left.
pub open spec fn sink_plan(b: Seq<(Seq<Seq<u8>>, i64)>, frames: Seq<FrameV>) -> (
    Seq<SinkV>,
    Seq<(Seq<Seq<u8>>, i64)>,
) {
    let (ops, b1) = sunk(b, frames);
    if opens(commands_of(b1)) {
        (ops, b1)
    } else {
        (ops + flushed(b1), Seq::empty())
    }
}

proof fn lemma_sinks_push(v: Seq<SinkOp>, o: SinkOp)
    ensures
        sink_views(v.push(o)) == sink_views(v).push(o@),
{
    assert(sink_views(v.push(o)) =~= sink_views(v).push(o@));
}

/// Takes a batch to be applied.
fn flush_batch(ops: &mut Vec<SinkOp>, batch: &mut Vec<(Vec<Vec<u8>>, i64)>)
    ensures
        sink_views(final(ops)@) == sink_views(old(ops)@) + flushed(batch_views(old(batch)@)),
        batch_views(final(batch)@) == Seq::<(Seq<Seq<u8>>, i64)>::empty(),
{
    let ghost all = batch@;
    let len: usize = batch.len();
    if len == 0 {
        assert(sink_views(ops@) =~= sink_views(ops@) + flushed(batch_views(batch@)));
        assert(batch_views(batch@) =~= Seq::empty());
        return;
    }
    let offset_after: i64 = batch[len - 1].1;
    let mut commands: Vec<Vec<Vec<u8>>> = Vec::new();
    let ghost mut i: int = 0;
    assert(all.skip(0) =~= all);
    assert(command_views(commands@) =~= commands_of(batch_views(all)).take(0));
    let mut taken: Vec<(Vec<Vec<u8>>, i64)> = Vec::new();
    std::mem::swap(&mut taken, batch);
    while taken.len() > 0
        invariant
            0 <= i <= all.len(),
            taken@ == all.skip(i),
            command_views(commands@) == commands_of(batch_views(all)).take(i),
        decreases taken@.len(),
    {
        let p: (Vec<Vec<u8>>, i64) = taken.remove(0);
        let ghost had = commands@;
        proof {
            assert(p == all[i]);
            assert(all.skip(i).remove(0) =~= all.skip(i + 1));
            assert(commands_of(batch_views(all))[i] == views(p.0@));
        }
        let ghost cv = views(p.0@);
        commands.push(p.0);
        proof {
            assert(command_views(commands@) =~= command_views(had).push(cv));
            assert(commands_of(batch_views(all)).take(i + 1) =~= commands_of(
                batch_views(all),
            ).take(i).push(cv));
            i = i + 1;
        }
    }
    assert(commands_of(batch_views(all)).take(i) =~= commands_of(batch_views(all)));
    let op = SinkOp::Apply { commands, offset_after };
    proof {
        lemma_sinks_push(ops@, op);
    }
    ops.push(op);
    assert(sink_views(ops@) =~= sink_views(old(ops)@) + flushed(batch_views(all)));
    assert(batch_views(batch@) =~= Seq::empty());
}

/// Decides what has to be done with the frames of one read.
pub fn plan_frames(batch: &mut Vec<(Vec<Vec<u8>>, i64)>, frames: Vec<ReplicaStreamFrame>) -> (r: Vec<
    SinkOp,
>)
    ensures
        (sink_views(r@), batch_views(final(batch)@)) == sink_plan(
            batch_views(old(batch)@),
            frame_views(frames@),
        ),
{
    let ghost start = batch_views(batch@);
    let ghost whole = frames@;
    let ghost all = frame_views(frames@);
    let mut frames: Vec<ReplicaStreamFrame> = frames;
    let mut ops: Vec<SinkOp> = Vec::new();
    let ghost mut i: int = 0;
    assert(all.take(0) =~= Seq::empty());
    assert(sink_views(ops@) =~= Seq::empty());
    assert(whole.skip(0) =~= whole);
    while frames.len() > 0
        invariant
            0 <= i <= whole.len(),
            all == frame_views(whole),
            frames@ == whole.skip(i),
            (sink_views(ops@), batch_views(batch@)) == sunk(start, all.take(i)),
        decreases frames@.len(),
    {
        let f: ReplicaStreamFrame = frames.remove(0);
        let ghost had = batch@;
        let ghost ops0 = ops@;
        proof {
            assert(f == whole[i]);
            assert(all[i] == f@);
            assert(whole.skip(i).remove(0) =~= whole.skip(i + 1));
            assert(all.take(i + 1).drop_last() =~= all.take(i));
            assert(all.take(i + 1).last() == f@);
        }
        match f {
            ReplicaStreamFrame::Command { argv, offset_after } => {
                let ghost av = views(argv@);
                batch.push((argv, offset_after));
                assert(batch_views(batch@) =~= batch_views(had).push((av, offset_after)));
            },
            ReplicaStreamFrame::GetAck { offset_after } => {
                if !replica_command_batch_has_open_transaction(batch) {
                    flush_batch(&mut ops, batch);
                    let op = SinkOp::Answer { offset_after };
                    proof {
                        lemma_sinks_push(ops@, op);
                    }
                    ops.push(op);
                    assert(sink_views(ops@) =~= sink_views(ops0) + flushed(batch_views(had))
                        + seq![SinkV::Answer { offset_after }]);
                }
            },
        }
        proof {
            i = i + 1;
        }
    }
    assert(all.take(i) =~= all);
    if !replica_command_batch_has_open_transaction(batch) {
        flush_batch(&mut ops, batch);
    }
    ops
}

/// The commands that some steps apply.
pub open spec fn applied(ops: Seq<SinkV>) -> Seq<Seq<Seq<u8>>>
    decreases ops.len(),
{
    if ops.len() == 0 {
        Seq::empty()
    } else {
        match ops.last() {
            SinkV::Apply { commands, offset_after } => applied(ops.drop_last()) + commands,
            SinkV::Answer { offset_after } => applied(ops.drop_last()),
        }
    }
}

/// The commands of some frames.
pub open spec fn frame_commands(frames: Seq<FrameV>) -> Seq<Seq<Seq<u8>>>
    decreases frames.len(),
{
    if frames.len() == 0 {
        Seq::empty()
    } else {
        match frames.last() {
            FrameV::Command { argv, offset_after } => frame_commands(frames.drop_last()).push(argv),
            FrameV::GetAck { offset_after } => frame_commands(frames.drop_last()),
        }
    }
}

proof fn lemma_applied_flush(ops: Seq<SinkV>, b: Seq<(Seq<Seq<u8>>, i64)>)
    ensures
        applied(ops + flushed(b)) == applied(ops) + commands_of(b),
{
    if b.len() == 0 {
        assert(ops + flushed(b) =~= ops);
        assert(applied(ops) + commands_of(b) =~= applied(ops));
    } else {
        assert((ops + flushed(b)).drop_last() =~= ops);
    }
}

proof fn lemma_sunk(b: Seq<(Seq<Seq<u8>>, i64)>, frames: Seq<FrameV>)
    ensures
        applied(sunk(b, frames).0) + commands_of(sunk(b, frames).1) == commands_of(b)
            + frame_commands(frames),
        forall|j: int|
            0 <= j < sunk(b, frames).0.len() ==> closed_op(#[trigger] sunk(b, frames).0[j]),
    decreases frames.len(),
{
    if frames.len() == 0 {
        assert(Seq::<Seq<Seq<u8>>>::empty() + commands_of(b) =~= commands_of(b)
            + frame_commands(frames));
    } else {
        let (ops, b1) = sunk(b, frames.drop_last());
        lemma_sunk(b, frames.drop_last());
        match frames.last() {
            FrameV::Command { argv, offset_after } => {
                assert(commands_of(b1.push((argv, offset_after))) =~= commands_of(b1).push(argv));
                assert(applied(ops) + commands_of(b1).push(argv) =~= (applied(ops) + commands_of(
                    b1,
                )).push(argv));
                assert((commands_of(b) + frame_commands(frames.drop_last())).push(argv)
                    =~= commands_of(b) + frame_commands(frames));
            },
            FrameV::GetAck { offset_after } => {
                if !opens(commands_of(b1)) {
                    let o1 = ops + flushed(b1);
                    let o2 = o1 + seq![SinkV::Answer { offset_after }];
                    lemma_applied_flush(ops, b1);
                    assert(o2.drop_last() =~= o1);
                    assert(applied(o2) + commands_of(Seq::empty()) =~= applied(o1));
                }
            },
        }
    }
}

/// Whether a step applies no open transaction.
pub open spec fn closed_op(o: SinkV) -> bool {
    match o {
        SinkV::Apply { commands, offset_after } => !opens(commands),
        SinkV::Answer { offset_after } => true,
    }
}

/// No batch is applied before its transaction has ended.
pub proof fn law_transactions_apply_whole(b: Seq<(Seq<Seq<u8>>, i64)>, frames: Seq<FrameV>, j: int)
    requires
        0 <= j < sink_plan(b, frames).0.len(),
    ensures
        closed_op(sink_plan(b, frames).0[j]),
{
    lemma_sunk(b, frames);
}

/// Every command is applied once and in order, or waits in the batch.
pub proof fn law_no_command_is_lost(b: Seq<(Seq<Seq<u8>>, i64)>, frames: Seq<FrameV>)
    ensures
        ({
            let (ops, left) = sink_plan(b, frames);
            applied(ops) + commands_of(left) == commands_of(b) + frame_commands(frames)
        }),
{
    let (ops, b1) = sunk(b, frames);
    lemma_sunk(b, frames);
    if !opens(commands_of(b1)) {
        lemma_applied_flush(ops, b1);
        assert(applied(ops + flushed(b1)) + commands_of(Seq::empty()) =~= applied(ops)
            + commands_of(b1));
    }
}

// ---------------------------------------------------------------------------
// Acknowledgements
// ---------------------------------------------------------------------------

/// The acknowledgement of an offset; with the offset that is on disk, where
/// that is not negative.
pub open spec fn ack_frame(offset: i64, fack: i64) -> Seq<u8> {
    if fack >= 0 {
        command_frame(
            seq![
                text("REPLCONF"@),
                text("ACK"@),
                dec(offset as int),
                text("FACK"@),
                dec(fack as int),
            ],
        )
    } else {
        command_frame(seq![text("REPLCONF"@), text("ACK"@), dec(offset as int)])
    }
}

/// Builds the acknowledgement of an offset.
pub fn build_replconf_ack(offset: i64, fack: i64) -> (r: Vec<u8>)
    ensures
        r@ == ack_frame(offset, fack),
{
    let mut a: Vec<Vec<u8>> = Vec::new();
    a.push(lit("REPLCONF"));
    a.push(lit("ACK"));
    a.push(fmt_i64(offset));
    if fack >= 0 {
        a.push(lit("FACK"));
        a.push(fmt_i64(fack));
        assert(views(a@) =~= seq![
            text("REPLCONF"@),
            text("ACK"@),
            dec(offset as int),
            text("FACK"@),
            dec(fack as int),
        ]);
    } else {
        assert(views(a@) =~= seq![text("REPLCONF"@), text("ACK"@), dec(offset as int)]);
    }
    encode_resp_command(&a)
}

/// Whether this replica may acknowledge offsets.
pub open spec fn may_ack(r: ReplV, deferred: bool) -> bool {
    r.link == ReplicaLink::Connected && !deferred
}

/// The acknowledgement of an offset, if this replica may send it.
pub open spec fn ack_if_ready(r: ReplV, deferred: bool, offset: i64, fack: i64) -> Option<Seq<u8>> {
    if may_ack(r, deferred) {
        Some(ack_frame(offset, fack))
    } else {
        None
    }
}

/// Builds the acknowledgement of an offset, if this replica may send it.
pub fn build_replconf_ack_if_ready(
    repl: &ReplicationState,
    deferred: bool,
    offset: i64,
    fack: i64,
) -> (r: Option<Vec<u8>>)
    ensures
        crate::bytes::opt_view(r) == ack_if_ready(repl@, deferred, offset, fack),
{
    if repl.link == ReplicaLink::Connected && !deferred {
        Some(build_replconf_ack(offset, fack))
    } else {
        None
    }
}

/// What follows when commands were applied.
pub enum ApplyNext {
    /// The connection is given up.
    GiveUp,
    /// The acknowledgement is sent.
    Send(Vec<u8>),
    Continue,
}

/// What follows when commands were applied.
#[verifier::ext_equal]
pub enum ApplyV {
    GiveUp,
    Send(Seq<u8>),
    Continue,
}

impl View for ApplyNext {
    type V = ApplyV;

    open spec fn view(&self) -> ApplyV {
        match self {
            ApplyNext::GiveUp => ApplyV::GiveUp,
            ApplyNext::Send(f) => ApplyV::Send(f@),
            ApplyNext::Continue => ApplyV::Continue,
        }
    }
}

/// What follows when commands up to an offset were applied, or could not be.
pub open spec fn after_apply(
    r: ReplV,
    epoch: u64,
    deferred: bool,
    ok: bool,
    offset: i64,
    fack: i64,
) -> ApplyV {
    if !ok || r.dialer_epoch != epoch {
        ApplyV::GiveUp
    } else {
        match ack_if_ready(r, deferred, offset, fack) {
            Some(f) => ApplyV::Send(f),
            None => ApplyV::Continue,
        }
    }
}

/// Decides what follows when commands up to an offset were applied, or could
/// not be. A replica acknowledges without being asked.
pub fn applied_replica_commands(
    repl: &ReplicationState,
    epoch: u64,
    deferred: bool,
    ok: bool,
    offset: i64,
    fack: i64,
) -> (r: ApplyNext)
    ensures
        r@ == after_apply(repl@, epoch, deferred, ok, offset, fack),
{
    if !ok || repl.dialer_epoch != epoch {
        return ApplyNext::GiveUp;
    }
    match build_replconf_ack_if_ready(repl, deferred, offset, fack) {
        Some(f) => ApplyNext::Send(f),
        None => ApplyNext::Continue,
    }
}

/// What the timer that acknowledges does.
pub open spec fn periodic(r: ReplV, epoch: u64, deferred: bool, fack: i64) -> ApplyV {
    if r.dialer_epoch != epoch || r.role != ReplRole::ReplicaOnline {
        ApplyV::GiveUp
    } else {
        match ack_if_ready(r, deferred, r.master_offset, fack) {
            Some(f) => ApplyV::Send(f),
            None => ApplyV::Continue,
        }
    }
}

/// Decides what the timer that acknowledges does.
pub fn periodic_ack(repl: &ReplicationState, epoch: u64, deferred: bool, fack: i64) -> (r:
    ApplyNext)
    ensures
        r@ == periodic(repl@, epoch, deferred, fack),
{
    if repl.dialer_epoch != epoch || repl.role != ReplRole::ReplicaOnline {
        return ApplyNext::GiveUp;
    }
    match build_replconf_ack_if_ready(repl, deferred, repl.master_offset, fack) {
        Some(f) => ApplyNext::Send(f),
        None => ApplyNext::Continue,
    }
}

/// Nothing is acknowledged before the link is connected.
pub proof fn law_no_ack_before_connected(
    r: ReplV,
    epoch: u64,
    deferred: bool,
    ok: bool,
    offset: i64,
    fack: i64,
)
    requires
        r.link != ReplicaLink::Connected || deferred,
    ensures
        ack_if_ready(r, deferred, offset, fack) is None,
        !(after_apply(r, epoch, deferred, ok, offset, fack) is Send),
        !(periodic(r, epoch, deferred, fack) is Send),
{
}

} // verus!
