//! Compressor that hands its output to a sink as soon as it is made.
use vstd::prelude::*;
use vstd::slice::slice_subrange;
use crate::encoder::{
    any_finished, lemma_any_finished_push, lemma_round, lemma_since, streams, Call, Encode,
    EncodeOp, EncodeStatus, Encoder,
};
use crate::sink::{Output, Sink, WriteError};

verus! {

/// Size of the buffer that each call of the codec writes into, and so the
/// most that reaches the sink in one write.
pub const CHUNK: usize = 1024;

/// Every call was given a buffer of [`CHUNK`] bytes and did not fail.
pub open spec fn chunked(calls: Seq<Call>) -> bool {
    forall|i: int|
        0 <= i < calls.len() ==> (#[trigger] calls[i]).room == CHUNK && calls[i].result.status
            != EncodeStatus::Error
}

/// What a call of the codec means for a push that has written `already`
/// bytes to the sink so far.
#[derive(Debug, Clone, Copy, PartialEq, Eq, Structural)]
pub enum Verdict {
    /// The codec failed. Nothing of what the call wrote is to go to the
    /// sink.
    Failed,
    /// With what the call wrote, the count of bytes written no longer fits.
    /// Nothing of it is to go to the sink.
    TooMuch,
    /// What the call wrote is to go to the sink, which brings the count to
    /// the number here, and the push is done: the call took the last of the
    /// input and left room in its buffer.
    Done(usize),
    /// The call left input and changed nothing, so that no further call
    /// would.
    Stalled,
    /// What the call wrote is to go to the sink, which brings the count to
    /// the number here, and the codec is to be called again on the input
    /// left.
    Again(usize),
}

/// What a call that was offered `offered` bytes of input and a buffer of
/// [`CHUNK`] bytes, and answered `result`, means for a push that has written
/// `already` bytes so far.
pub open spec fn verdict_for(result: Encode, offered: nat, already: nat) -> Verdict {
    let count = already + CHUNK - result.output_remain;
    if result.status == EncodeStatus::Error {
        Verdict::Failed
    } else if count > usize::MAX {
        Verdict::TooMuch
    } else if result.output_remain > 0 && result.input_remain == 0 {
        Verdict::Done(count as usize)
    } else if result.output_remain == CHUNK && result.input_remain == offered {
        Verdict::Stalled
    } else {
        Verdict::Again(count as usize)
    }
}

/// Decides what a call of the codec means for the push.
pub fn verdict_of(result: Encode, offered: usize, already: usize) -> (verdict: Verdict)
    requires
        result.output_remain <= CHUNK,
    ensures
        verdict == verdict_for(result, offered as nat, already as nat),
{
    if result.status == EncodeStatus::Error {
        return Verdict::Failed;
    }
    let count = match already.checked_add(CHUNK - result.output_remain) {
        Some(count) => count,
        None => {
            return Verdict::TooMuch;
        },
    };
    if result.output_remain > 0 && result.input_remain == 0 {
        Verdict::Done(count)
    } else if result.output_remain == CHUNK && result.input_remain == offered {
        Verdict::Stalled
    } else {
        Verdict::Again(count)
    }
}

/// The push has done its work: the last call did not fail, took the last of
/// the input and left room in its buffer, the count of bytes fits, and the
/// sink has accepted all that the codec wrote.
pub open spec fn succeeded(
    calls: Seq<Call>,
    produced: Seq<u8>,
    before: Seq<u8>,
    after: Seq<u8>,
    already: nat,
) -> bool {
    &&& calls.last().result.status != EncodeStatus::Error
    &&& calls.last().result.input_remain == 0
    &&& calls.last().result.output_remain > 0
    &&& already + produced.len() <= usize::MAX
    &&& after == before + produced
}

/// What a push promises of the calls it made on the codec, of the count it
/// returns and of the sink, when `already` bytes had been written before it.
///
/// There was at least one call; every call got a buffer of [`CHUNK`] bytes;
/// no call before the last failed; what the last call wrote is the end of
/// what the codec wrote.
///
/// The outcome is decided by the last call, the count and the sink:
/// - `Ok` if and only if the push has done its work, as [`succeeded`] says.
///   The count is then `already` and the length of what the codec wrote,
///   and the sink has been handed and has received all of it.
/// - `InvalidData` if and only if the last call failed, or left input and
///   changed nothing while the count fits.
/// - `Overflow` if and only if the last call did not fail and the count no
///   longer fits.
/// - `Sink` in every other case: the sink was handed what the last call
///   wrote, which was not nothing, and refused it. The error is the one
///   that the sink gave.
///
/// After an error the sink has accepted what the codec wrote before the last
/// call and nothing of what it wrote in the last; but for `Sink`, it was not
/// handed what the last call wrote.
pub open spec fn pushed<W: Sink>(
    calls: Seq<Call>,
    produced: Seq<u8>,
    before: Output<W>,
    after: Output<W>,
    already: nat,
    outcome: Result<usize, WriteError>,
) -> bool {
    let last = calls.last();
    let earlier = produced.take(produced.len() - last.written());
    let failed = last.result.status == EncodeStatus::Error;
    let fits = already + produced.len() <= usize::MAX;
    &&& calls.len() >= 1
    &&& chunked(calls.drop_last())
    &&& last.room == CHUNK
    &&& 0 <= last.written() <= produced.len()
    &&& outcome is Ok <==> succeeded(calls, produced, before.accepted(), after.accepted(), already)
    &&& (outcome matches Err(WriteError::InvalidData)) <==> failed || (last.is_idle()
        && last.result.input_remain > 0 && fits)
    &&& (outcome matches Err(WriteError::Overflow)) <==> !failed && !fits
    &&& !(outcome matches Err(WriteError::NeedInput))
    &&& !(outcome matches Err(WriteError::TooMuchInput))
    &&& after.refusal() == if let Err(WriteError::Sink(error)) = outcome {
        Some(error)
    } else {
        before.refusal()
    }
    &&& match outcome {
        Ok(count) => {
            &&& count == already + produced.len()
            &&& after.offered() == before.offered() + produced
            &&& after.received() == before.received() + produced
        },
        Err(WriteError::Sink(_)) => {
            &&& last.written() > 0
            &&& after.offered() == before.offered() + produced
            &&& after.accepted() == before.accepted() + earlier
        },
        Err(_) => {
            &&& after.offered() == before.offered() + earlier
            &&& after.accepted() == before.accepted() + earlier
        },
    }
}

/// Every call of a row of calls that was not cut short by a failure was
/// given a buffer of [`CHUNK`] bytes and did not fail.
pub(crate) proof fn lemma_chunked_add(first: Seq<Call>, second: Seq<Call>)
    requires
        chunked(first),
        chunked(second),
    ensures
        chunked(first + second),
{
    let both = first + second;
    assert forall|i: int| 0 <= i < both.len() implies (#[trigger] both[i]).room == CHUNK
        && both[i].result.status != EncodeStatus::Error by {
        if i < first.len() {
            assert(both[i] == first[i]);
        } else {
            assert(both[i] == second[i - first.len()]);
        }
    }
}

/// A push after pushes that have done their work: what holds of the push
/// holds of all of them taken as one.
pub(crate) proof fn lemma_pushed_then<W: Sink>(
    first: Seq<Call>,
    made: Seq<u8>,
    second: Seq<Call>,
    produced: Seq<u8>,
    before: Output<W>,
    middle: Output<W>,
    after: Output<W>,
    outcome: Result<usize, WriteError>,
)
    requires
        chunked(first),
        middle.accepted() == before.accepted() + made,
        middle.offered() == before.offered() + made,
        middle.received() == before.received() + made,
        middle.refusal() == before.refusal(),
        pushed(second, produced, middle, after, made.len(), outcome),
    ensures
        pushed(first + second, made + produced, before, after, 0, outcome),
        chunked((first + second).drop_last()),
        (first + second).last() == second.last(),
{
    let calls = first + second;
    let all = made + produced;
    let last = second.last();
    let earlier = produced.take(produced.len() - last.written());
    assert(calls.last() == last);
    assert(calls.drop_last() =~= first + second.drop_last());
    lemma_chunked_add(first, second.drop_last());
    assert(all.take(all.len() - last.written()) =~= made + earlier);
    assert(before.accepted() + made + earlier =~= before.accepted() + (made + earlier));
    assert(before.offered() + made + earlier =~= before.offered() + (made + earlier));
    assert(before.accepted() + made + produced =~= before.accepted() + all);
    assert(before.offered() + made + produced =~= before.offered() + all);
    assert(before.received() + made + produced =~= before.received() + all);
    if after.accepted() == before.accepted() + all {
        assert(after.accepted() =~= middle.accepted() + produced);
    }
}

/// Compressor that writes to a sink.
///
/// Nothing is buffered: whatever the codec produces in a call is written to
/// the sink before the next call. If the sink fails, what was produced and
/// not written is lost.
pub struct Compressor<W: Sink> {
    encoder: Encoder,
    writer: Output<W>,
}

impl<W: Sink> Compressor<W> {
    /// The encoder in use.
    pub closed spec fn spec_encoder(&self) -> &Encoder {
        &self.encoder
    }

    /// The sink in use, with the records of what went to it.
    pub closed spec fn output(&self) -> Output<W> {
        self.writer
    }

    /// The sink in use.
    pub open spec fn spec_writer(&self) -> &W {
        self.output().spec_writer()
    }

    /// Every byte that the sink has accepted from this wrapper, in order.
    pub open spec fn accepted(&self) -> Seq<u8> {
        self.output().accepted()
    }

    /// A compressor that encodes with `encoder` and writes to `writer`.
    pub fn new(encoder: Encoder, writer: W) -> (compressor: Self)
        ensures
            *compressor.encoder() == encoder,
            *compressor.writer() == writer,
            compressor.output().offered() == Seq::<u8>::empty(),
            compressor.output().refusal() is None,
            compressor.accepted() == Seq::<u8>::empty(),
    {
        Compressor { encoder, writer: Output::new(writer) }
    }

    /// The encoder in use.
    #[verifier::when_used_as_spec(spec_encoder)]
    pub fn encoder(&self) -> (encoder: &Encoder)
        ensures
            encoder == self.spec_encoder(),
    {
        &self.encoder
    }

    /// The sink in use.
    #[verifier::when_used_as_spec(spec_writer)]
    pub fn writer(&self) -> (writer: &W)
        ensures
            writer == self.spec_writer(),
    {
        self.writer.writer()
    }

    /// The sink in use, for the caller to change.
    pub fn writer_mut(&mut self) -> (writer: &mut W)
        ensures
            *writer == *old(self).writer(),
            *final(self).writer() == *final(writer),
            *final(self).encoder() == *old(self).encoder(),
            final(self).output().offered() == old(self).output().offered(),
            final(self).output().refusal() == old(self).output().refusal(),
            final(self).accepted() == old(self).accepted(),
    {
        self.writer.writer_mut()
    }

    /// Gives up the encoder and returns the sink.
    pub fn take(self) -> (writer: W)
        ensures
            writer == *self.writer(),
    {
        self.writer.take()
    }

    /// Wraps the compressor so that the stream can be closed without the
    /// caller keeping track of whether it was.
    pub fn auto_finish(self) -> (wrapped: AutoFinish<W>)
        ensures
            *wrapped.encoder() == *self.encoder(),
            wrapped.output() == self.output(),
            wrapped.last_op() is None,
    {
        AutoFinish { inner: self, last_op: None }
    }

    /// Compresses `data` and writes the result to the sink, as [`push_to`]
    /// does with the encoder and the sink of this compressor. Pass
    /// `EncodeOp::Finish` with the last chunk, which may be empty.
    ///
    /// Returns the number of bytes written to the sink.
    pub fn push(&mut self, data: &[u8], op: EncodeOp) -> (outcome: Result<usize, WriteError>)
        requires
            old(self).encoder()@.is_sound(),
        ensures
            final(self).encoder()@.extends(old(self).encoder()@),
            streams(final(self).encoder()@.calls_since(old(self).encoder()@), data@, op),
            pushed(
                final(self).encoder()@.calls_since(old(self).encoder()@),
                final(self).encoder()@.produced_since(old(self).encoder()@),
                old(self).output(),
                final(self).output(),
                0,
                outcome,
            ),
            outcome is Ok ==> final(self).encoder()@.consumed_since(old(self).encoder()@) == data@,
            final(self).encoder().finished() == (old(self).encoder().finished() || any_finished(
                final(self).encoder()@.calls_since(old(self).encoder()@),
            )),
            old(self).encoder().is_brotli() ==> final(self).encoder().is_brotli(),
    {
        push_to(&mut self.encoder, &mut self.writer, data, op)
    }
}

/// Compresses `data` with `encoder` and writes the result to `writer`.
///
/// The codec is called on what is left of `data` and a buffer of [`CHUNK`]
/// bytes; [`verdict_of`] says what its answer means; what it wrote, if
/// anything, goes to the sink in one write; and so on until a call has taken
/// the last of `data` and left room in its buffer, or something has failed.
///
/// Returns the number of bytes written to the sink.
pub fn push_to<W: Sink>(encoder: &mut Encoder, writer: &mut Output<W>, data: &[u8], op: EncodeOp) -> (outcome:
    Result<usize, WriteError>)
    requires
        old(encoder)@.is_sound(),
    ensures
        final(encoder)@.extends(old(encoder)@),
        streams(final(encoder)@.calls_since(old(encoder)@), data@, op),
        pushed(
            final(encoder)@.calls_since(old(encoder)@),
            final(encoder)@.produced_since(old(encoder)@),
            *old(writer),
            *final(writer),
            0,
            outcome,
        ),
        outcome is Ok ==> final(encoder)@.consumed_since(old(encoder)@) == data@,
        final(encoder).finished() == (old(encoder).finished() || any_finished(
            final(encoder)@.calls_since(old(encoder)@),
        )),
        *final(writer).writer() == *old(writer).writer() || final(encoder)@.produced_since(
            old(encoder)@,
        ).len() > 0,
        old(encoder).is_brotli() ==> final(encoder).is_brotli(),
{
    push_from(encoder, writer, data, op, 0)
}

/// Compresses `data` as [`push_to`] does, counting from `already` bytes
/// written.
pub(crate) fn push_from<W: Sink>(
    encoder: &mut Encoder,
    writer: &mut Output<W>,
    data: &[u8],
    op: EncodeOp,
    already: usize,
) -> (outcome: Result<usize, WriteError>)
    requires
        old(encoder)@.is_sound(),
    ensures
        final(encoder)@.extends(old(encoder)@),
        streams(final(encoder)@.calls_since(old(encoder)@), data@, op),
        pushed(
            final(encoder)@.calls_since(old(encoder)@),
            final(encoder)@.produced_since(old(encoder)@),
            *old(writer),
            *final(writer),
            already as nat,
            outcome,
        ),
        outcome is Ok ==> final(encoder)@.consumed_since(old(encoder)@) == data@,
        final(encoder).finished() == (old(encoder).finished() || any_finished(
            final(encoder)@.calls_since(old(encoder)@),
        )),
        *final(writer).writer() == *old(writer).writer() || final(encoder)@.produced_since(
            old(encoder)@,
        ).len() > 0,
        old(encoder).is_brotli() ==> final(encoder).is_brotli(),
{
    let ghost start = encoder@;
    let ghost before = *writer;
    let ghost mut calls: Seq<Call> = Seq::empty();
    let ghost mut made: Seq<u8> = Seq::empty();
    let mut count: usize = already;
    let mut offset: usize = 0;
    proof {
        lemma_since(start, encoder@, Seq::empty(), Seq::empty(), Seq::empty());
        lemma_any_finished_push(Seq::empty(), arbitrary());
        assert(before.accepted() + made =~= before.accepted());
        assert(before.offered() + made =~= before.offered());
        assert(before.received() + made =~= before.received());
    }
    loop
        invariant
            old(encoder).is_brotli() ==> encoder.is_brotli(),
            start == old(encoder)@,
            before == *old(writer),
            offset <= data@.len(),
            encoder@.is_sound(),
            encoder@.calls == start.calls + calls,
            encoder@.failed_resets == start.failed_resets,
            encoder@.produced == start.produced + made,
            encoder@.consumed == start.consumed + data@.take(offset as int),
            writer.accepted() == before.accepted() + made,
            writer.offered() == before.offered() + made,
            writer.received() == before.received() + made,
            writer.refusal() == before.refusal(),
            *writer.writer() == *before.writer() || made.len() > 0,
            count == already + made.len(),
            streams(calls, data@, op),
            chunked(calls),
            crate::encoder::unconsumed(calls, data@) == data@.len() - offset,
            encoder.finished() == (old(encoder).finished() || any_finished(calls)),
        decreases data@.len() - offset, usize::MAX - count,
    {
        let mut buffer = [0u8;CHUNK];
        let suffix = slice_subrange(data, offset, data.len());
        let ghost earlier = encoder@;
        let result = {
            let window: &mut [u8] = &mut buffer;
            encoder.encode(suffix, window, op)
        };
        let produced = CHUNK - result.output_remain;
        let ghost call = Call { input: suffix@, room: CHUNK as nat, op, result };
        let ghost written = encoder@.produced_since(earlier);
        proof {
            assert(encoder@.produced_since(earlier) =~= buffer@.take(produced as int));
            lemma_round(start, earlier, encoder@, calls, made, data@, offset as int, call);
            lemma_any_finished_push(calls, call);
            assert(encoder@.calls_since(start) == calls.push(call));
            assert(encoder@.produced_since(start) == made + written);
            assert((made + written).take(made.len() as int) =~= made);
            assert(before.accepted() + made + written =~= before.accepted() + (made + written));
            assert(before.offered() + made + written =~= before.offered() + (made + written));
            assert(before.received() + made + written =~= before.received() + (made + written));
            if written.len() > 0 {
                assert((before.accepted() + made).len() != (before.accepted() + (made
                    + written)).len());
            }
        }
        let verdict = verdict_of(result, suffix.len(), count);
        match verdict {
            Verdict::Failed => {
                return Err(WriteError::InvalidData);
            },
            Verdict::TooMuch => {
                return Err(WriteError::Overflow);
            },
            _ => {},
        }
        if produced > 0 {
            match writer.write_all(slice_subrange(buffer.as_slice(), 0, produced)) {
                Ok(()) => {},
                Err(error) => {
                    return Err(WriteError::Sink(error));
                },
            }
        }
        proof {
            let longer = calls.push(call);
            assert forall|i: int| 0 <= i < longer.len() implies (#[trigger] longer[i]).room
                == CHUNK && longer[i].result.status != EncodeStatus::Error by {
                if i < calls.len() {
                    assert(longer[i] == calls[i]);
                }
            }
            assert(writer.accepted() =~= before.accepted() + (made + written));
            assert(writer.offered() =~= before.offered() + (made + written));
            assert(writer.received() =~= before.received() + (made + written));
        }
        match verdict {
            Verdict::Done(total) => {
                proof {
                    assert(data@.take(data@.len() as int) =~= data@);
                }
                return Ok(total);
            },
            Verdict::Again(total) => {
                proof {
                    calls = calls.push(call);
                    made = made + written;
                }
                offset = data.len() - result.input_remain;
                count = total;
            },
            _ => {
                return Err(WriteError::InvalidData);
            },
        }
    }
}

/// A [`Compressor`] that remembers the operation of its last successful push,
/// so that [`AutoFinish::finish`] can close the stream if the caller has not.
///
/// The stream is closed only if something was pushed and the last push was
/// not itself a `Finish`.
pub struct AutoFinish<W: Sink> {
    inner: Compressor<W>,
    last_op: Option<EncodeOp>,
}

impl<W: Sink> AutoFinish<W> {
    /// The encoder in use.
    pub closed spec fn spec_encoder(&self) -> &Encoder {
        self.inner.encoder()
    }

    /// The sink in use, with the records of what went to it.
    pub closed spec fn output(&self) -> Output<W> {
        self.inner.output()
    }

    /// The sink in use.
    pub open spec fn spec_writer(&self) -> &W {
        self.output().spec_writer()
    }

    /// Every byte that the sink has accepted from this wrapper, in order.
    pub open spec fn accepted(&self) -> Seq<u8> {
        self.output().accepted()
    }

    /// The operation of the last successful push, if there was one.
    pub closed spec fn last_op(&self) -> Option<EncodeOp> {
        self.last_op
    }

    /// Whether [`AutoFinish::finish`] has a stream to close: something was
    /// pushed, and the last push did not ask to finish.
    pub open spec fn is_open(&self) -> bool {
        self.last_op() matches Some(op) && op != EncodeOp::Finish
    }

    /// The encoder in use.
    #[verifier::when_used_as_spec(spec_encoder)]
    pub fn encoder(&self) -> (encoder: &Encoder)
        ensures
            encoder == self.spec_encoder(),
    {
        self.inner.encoder()
    }

    /// The sink in use.
    #[verifier::when_used_as_spec(spec_writer)]
    pub fn writer(&self) -> (writer: &W)
        ensures
            writer == self.spec_writer(),
    {
        self.inner.writer()
    }

    /// The sink in use, for the caller to change.
    pub fn writer_mut(&mut self) -> (writer: &mut W)
        ensures
            *writer == *old(self).writer(),
            *final(self).writer() == *final(writer),
            *final(self).encoder() == *old(self).encoder(),
            final(self).output().offered() == old(self).output().offered(),
            final(self).output().refusal() == old(self).output().refusal(),
            final(self).accepted() == old(self).accepted(),
            final(self).last_op() == old(self).last_op(),
    {
        self.inner.writer_mut()
    }

    /// Pushes a chunk as [`Compressor::push`] does, and on success remembers
    /// `op`.
    pub fn push(&mut self, data: &[u8], op: EncodeOp) -> (outcome: Result<usize, WriteError>)
        requires
            old(self).encoder()@.is_sound(),
        ensures
            final(self).encoder()@.extends(old(self).encoder()@),
            streams(final(self).encoder()@.calls_since(old(self).encoder()@), data@, op),
            pushed(
                final(self).encoder()@.calls_since(old(self).encoder()@),
                final(self).encoder()@.produced_since(old(self).encoder()@),
                old(self).output(),
                final(self).output(),
                0,
                outcome,
            ),
            outcome is Ok ==> final(self).encoder()@.consumed_since(old(self).encoder()@) == data@,
            final(self).encoder().finished() == (old(self).encoder().finished() || any_finished(
                final(self).encoder()@.calls_since(old(self).encoder()@),
            )),
            final(self).last_op() == if outcome is Ok {
                Some(op)
            } else {
                old(self).last_op()
            },
            old(self).encoder().is_brotli() ==> final(self).encoder().is_brotli(),
    {
        let outcome = self.inner.push(data, op);
        if outcome.is_ok() {
            self.last_op = Some(op);
        }
        outcome
    }

    /// Closes the stream if it is open: pushes an empty chunk with `Finish`
    /// and lets whatever comes of it pass, since a caller that is done with
    /// the compressor has no use for an error. Does nothing otherwise, and
    /// nothing when called again.
    ///
    /// Returns whether there was a stream to close.
    pub fn finish(&mut self) -> (closing: bool)
        requires
            old(self).is_open() ==> old(self).encoder()@.is_sound(),
        ensures
            closing == old(self).is_open(),
            !final(self).is_open(),
            !closing ==> {
                &&& *final(self).encoder() == *old(self).encoder()
                &&& final(self).output() == old(self).output()
                &&& final(self).last_op() == old(self).last_op()
            },
            closing ==> {
                let calls = final(self).encoder()@.calls_since(old(self).encoder()@);
                &&& final(self).encoder()@.extends(old(self).encoder()@)
                &&& streams(calls, Seq::<u8>::empty(), EncodeOp::Finish)
                &&& exists|outcome: Result<usize, WriteError>| #[trigger]
                    pushed(
                        calls,
                        final(self).encoder()@.produced_since(old(self).encoder()@),
                        old(self).output(),
                        final(self).output(),
                        0,
                        outcome,
                    )
                &&& final(self).last_op() == Some(EncodeOp::Finish)
            },
            old(self).encoder().is_brotli() ==> final(self).encoder().is_brotli(),
    {
        let closing = match self.last_op {
            Some(op) => op != EncodeOp::Finish,
            None => false,
        };
        if closing {
            let empty: [u8; 0] = [];
            let outcome = self.inner.push(empty.as_slice(), EncodeOp::Finish);
            self.last_op = Some(EncodeOp::Finish);
            assert(empty@ =~= Seq::<u8>::empty());
            assert(pushed(
                self.encoder()@.calls_since(old(self).encoder()@),
                self.encoder()@.produced_since(old(self).encoder()@),
                old(self).output(),
                self.output(),
                0,
                outcome,
            ));
        }
        closing
    }
}

} // verus!
