//! Decompressor that hands its output to a sink as soon as it is made.
use vstd::prelude::*;
use vstd::slice::slice_subrange;
use crate::decoder::{
    all_paused, any_finished, lemma_any_finished_push, lemma_one_more_paused, lemma_round,
    lemma_since, paused_for_output, streams, unconsumed, Call, Decode, DecodeError, DecodeStatus,
    Decoder, DecoderResult,
};
use crate::sink::{Output, Sink, WriteError};

verus! {

/// Size of the buffer that each call of the codec writes into, and so the
/// most that reaches the sink in one write.
pub const CHUNK: usize = 1024;

/// Every call was given a buffer of [`CHUNK`] bytes.
pub open spec fn chunked(calls: Seq<Call>) -> bool {
    forall|i: int| 0 <= i < calls.len() ==> (#[trigger] calls[i]).room == CHUNK
}

/// What a call of the codec means for a push that has written `already`
/// bytes to the sink so far.
#[derive(Debug, Clone, Copy, PartialEq, Eq, Structural)]
pub enum Verdict {
    /// With what the call wrote, the count of bytes written no longer fits.
    /// Nothing of it is to go to the sink.
    TooMuch,
    /// What the call wrote is to go to the sink, which brings the count to
    /// the number here, and the push ends with the answer of this call.
    Last(usize),
    /// What the call wrote is to go to the sink, which brings the count to
    /// the number here, and the codec is to be called again on the input
    /// left: it ran out of room, and the call changed something.
    Again(usize),
}

/// What a call that was offered `offered` bytes of input and a buffer of
/// [`CHUNK`] bytes, and answered `result`, means for a push that has written
/// `already` bytes so far.
pub open spec fn verdict_for(result: Decode, offered: nat, already: nat) -> Verdict {
    let count = already + CHUNK - result.output_remain;
    if count > usize::MAX {
        Verdict::TooMuch
    } else if result.status == Ok::<DecodeStatus, DecodeError>(DecodeStatus::NeedOutput) && !(
    result.input_remain == offered && result.output_remain == CHUNK) {
        Verdict::Again(count as usize)
    } else {
        Verdict::Last(count as usize)
    }
}

/// Decides what a call of the codec means for the push.
pub fn verdict_of(result: Decode, offered: usize, already: usize) -> (verdict: Verdict)
    requires
        result.output_remain <= CHUNK,
    ensures
        verdict == verdict_for(result, offered as nat, already as nat),
{
    let count = match already.checked_add(CHUNK - result.output_remain) {
        Some(count) => count,
        None => {
            return Verdict::TooMuch;
        },
    };
    match result.status {
        Ok(DecodeStatus::NeedOutput) => {
            if result.input_remain == offered && result.output_remain == CHUNK {
                Verdict::Last(count)
            } else {
                Verdict::Again(count)
            }
        },
        _ => Verdict::Last(count),
    }
}

/// What a push promises of the calls it made on the codec, of what it
/// returns and of the sink, when `already` bytes had been written before it.
///
/// There was at least one call; every call got a buffer of [`CHUNK`] bytes;
/// every call before the last ran out of output room; what the last call
/// wrote is the end of what the codec wrote.
///
/// The outcome is decided by the count and the sink:
/// - `Overflow` if and only if the count no longer fits. The sink was then
///   not handed what the last call wrote.
/// - `Ok` if and only if the count fits and the sink has accepted all that
///   the codec wrote. It holds the answer of the last call, which is
///   `NeedOutput` only if that call changed nothing, and the count, which
///   is `already` and the length of what the codec wrote; the sink has then
///   been handed and has received all of it.
/// - `Sink` in every other case: the sink was handed what the last call
///   wrote, which was not nothing, and refused it. The error is the one
///   that the sink gave.
///
/// After an error the sink has accepted what the codec wrote before the last
/// call and nothing of what it wrote in the last.
pub open spec fn pushed<W: Sink>(
    calls: Seq<Call>,
    produced: Seq<u8>,
    before: Output<W>,
    after: Output<W>,
    already: nat,
    outcome: Result<(Decode, usize), WriteError>,
) -> bool {
    let last = calls.last();
    let earlier = produced.take(produced.len() - last.written());
    let fits = already + produced.len() <= usize::MAX;
    &&& calls.len() >= 1
    &&& chunked(calls)
    &&& paused_for_output(calls)
    &&& 0 <= last.written() <= produced.len()
    &&& outcome is Ok <==> fits && after.accepted() == before.accepted() + produced
    &&& (outcome matches Err(WriteError::Overflow)) <==> !fits
    &&& !(outcome matches Err(WriteError::InvalidData))
    &&& !(outcome matches Err(WriteError::NeedInput))
    &&& !(outcome matches Err(WriteError::TooMuchInput))
    &&& after.refusal() == if let Err(WriteError::Sink(error)) = outcome {
        Some(error)
    } else {
        before.refusal()
    }
    &&& match outcome {
        Ok((result, count)) => {
            &&& result == last.result
            &&& result.status == Ok::<DecodeStatus, DecodeError>(DecodeStatus::NeedOutput)
                ==> last.is_idle()
            &&& count == already + produced.len()
            &&& after.offered() == before.offered() + produced
            &&& after.received() == before.received() + produced
        },
        Err(WriteError::Sink(_)) => {
            &&& last.written() > 0
            &&& after.offered() == before.offered() + produced
            &&& after.accepted() == before.accepted() + earlier
        },
        Err(_) => {
            &&& after.offered() == before.offered() + earlier
            &&& after.accepted() == before.accepted() + earlier
        },
    }
}

/// Decompresses `data` with `decoder` and writes the result to `writer`.
///
/// The codec is called on what is left of `data` and a buffer of [`CHUNK`]
/// bytes; [`verdict_of`] says what its answer means; what it wrote, if
/// anything, goes to the sink in one write, whatever its answer; and so on
/// for as long as it answers `NeedOutput` and the call has changed
/// something.
///
/// Returns the answer of the last call and the number of bytes written to
/// the sink.
pub fn push_to<W: Sink>(decoder: &mut Decoder, writer: &mut Output<W>, data: &[u8]) -> (outcome: Result<
    (Decode, usize),
    WriteError,
>)
    requires
        old(decoder)@.is_sound(),
    ensures
        final(decoder)@.extends(old(decoder)@),
        streams(final(decoder)@.calls_since(old(decoder)@), data@),
        pushed(
            final(decoder)@.calls_since(old(decoder)@),
            final(decoder)@.produced_since(old(decoder)@),
            *old(writer),
            *final(writer),
            0,
            outcome,
        ),
        final(decoder)@.consumed_since(old(decoder)@) == data@.take(
            data@.len() - unconsumed(final(decoder)@.calls_since(old(decoder)@), data@),
        ),
        final(decoder).finished() == (old(decoder).finished() || any_finished(
            final(decoder)@.calls_since(old(decoder)@),
        )),
        old(decoder).is_brotli() ==> final(decoder).is_brotli(),
{
    push_from(decoder, writer, data, 0)
}

/// Decompresses `data` as [`push_to`] does, counting from `already` bytes
/// written.
pub(crate) fn push_from<W: Sink>(
    decoder: &mut Decoder,
    writer: &mut Output<W>,
    data: &[u8],
    already: usize,
) -> (outcome: Result<(Decode, usize), WriteError>)
    requires
        old(decoder)@.is_sound(),
    ensures
        final(decoder)@.extends(old(decoder)@),
        streams(final(decoder)@.calls_since(old(decoder)@), data@),
        pushed(
            final(decoder)@.calls_since(old(decoder)@),
            final(decoder)@.produced_since(old(decoder)@),
            *old(writer),
            *final(writer),
            already as nat,
            outcome,
        ),
        final(decoder)@.consumed_since(old(decoder)@) == data@.take(
            data@.len() - unconsumed(final(decoder)@.calls_since(old(decoder)@), data@),
        ),
        final(decoder).finished() == (old(decoder).finished() || any_finished(
            final(decoder)@.calls_since(old(decoder)@),
        )),
        old(decoder).is_brotli() ==> final(decoder).is_brotli(),
{
    let ghost start = decoder@;
    let ghost before = *writer;
    let ghost mut calls: Seq<Call> = Seq::empty();
    let ghost mut made: Seq<u8> = Seq::empty();
    let mut count: usize = already;
    let mut offset: usize = 0;
    proof {
        lemma_since(start, decoder@, Seq::empty(), Seq::empty(), Seq::empty());
        lemma_any_finished_push(Seq::empty(), arbitrary());
        assert(before.accepted() + made =~= before.accepted());
        assert(before.offered() + made =~= before.offered());
        assert(before.received() + made =~= before.received());
    }
    loop
        invariant
            old(decoder).is_brotli() ==> decoder.is_brotli(),
            start == old(decoder)@,
            before == *old(writer),
            offset <= data@.len(),
            decoder@.is_sound(),
            decoder@.calls == start.calls + calls,
            decoder@.failed_resets == start.failed_resets,
            decoder@.produced == start.produced + made,
            decoder@.consumed == start.consumed + data@.take(offset as int),
            writer.accepted() == before.accepted() + made,
            writer.offered() == before.offered() + made,
            writer.received() == before.received() + made,
            writer.refusal() == before.refusal(),
            count == already + made.len(),
            streams(calls, data@),
            chunked(calls),
            all_paused(calls),
            unconsumed(calls, data@) == data@.len() - offset,
            decoder.finished() == (old(decoder).finished() || any_finished(calls)),
        decreases data@.len() - offset, usize::MAX - count,
    {
        let mut buffer = [0u8;CHUNK];
        let suffix = slice_subrange(data, offset, data.len());
        let ghost earlier = decoder@;
        let result = {
            let window: &mut [u8] = &mut buffer;
            decoder.decode(suffix, window)
        };
        let produced = CHUNK - result.output_remain;
        let ghost call = Call { input: suffix@, room: CHUNK as nat, result };
        let ghost written = decoder@.produced_since(earlier);
        proof {
            assert(decoder@.produced_since(earlier) =~= buffer@.take(produced as int));
            lemma_round(start, earlier, decoder@, calls, made, data@, offset as int, call);
            lemma_any_finished_push(calls, call);
            assert(decoder@.calls_since(start) == calls.push(call));
            assert(decoder@.produced_since(start) == made + written);
            assert((made + written).take(made.len() as int) =~= made);
            let longer = calls.push(call);
            assert forall|i: int| 0 <= i < longer.len() implies (#[trigger] longer[i]).room
                == CHUNK by {
                if i < calls.len() {
                    assert(longer[i] == calls[i]);
                }
            }
            assert(before.accepted() + made + written =~= before.accepted() + (made + written));
            assert(before.offered() + made + written =~= before.offered() + (made + written));
            assert(before.received() + made + written =~= before.received() + (made + written));
            if written.len() > 0 {
                assert((before.accepted() + made).len() != (before.accepted() + (made
                    + written)).len());
            }
        }
        let verdict = verdict_of(result, suffix.len(), count);
        if let Verdict::TooMuch = verdict {
            return Err(WriteError::Overflow);
        }
        if produced > 0 {
            match writer.write_all(slice_subrange(buffer.as_slice(), 0, produced)) {
                Ok(()) => {},
                Err(error) => {
                    return Err(WriteError::Sink(error));
                },
            }
        }
        proof {
            assert(writer.accepted() =~= before.accepted() + (made + written));
            assert(writer.offered() =~= before.offered() + (made + written));
            assert(writer.received() =~= before.received() + (made + written));
        }
        match verdict {
            Verdict::Again(total) => {
                proof {
                    lemma_one_more_paused(calls, call);
                    calls = calls.push(call);
                    made = made + written;
                }
                offset = data.len() - result.input_remain;
                count = total;
            },
            Verdict::Last(total) => {
                return Ok((result, total));
            },
            Verdict::TooMuch => {
                return Err(WriteError::Overflow);
            },
        }
    }
}

/// Decompressor that writes to a sink.
///
/// Nothing is buffered: whatever the codec produces in a call is written to
/// the sink before the next call. If the sink fails, what was produced and
/// not written is lost.
pub struct Decompressor<W: Sink> {
    decoder: Decoder,
    writer: Output<W>,
}

impl<W: Sink> Decompressor<W> {
    /// The decoder in use.
    pub closed spec fn spec_decoder(&self) -> &Decoder {
        &self.decoder
    }

    /// The sink in use, with the records of what went to it.
    pub closed spec fn output(&self) -> Output<W> {
        self.writer
    }

    /// The sink in use.
    pub open spec fn spec_writer(&self) -> &W {
        self.output().spec_writer()
    }

    /// Every byte that the sink has accepted from this wrapper, in order.
    pub open spec fn accepted(&self) -> Seq<u8> {
        self.output().accepted()
    }

    /// A decompressor that decodes with `decoder` and writes to `writer`.
    pub fn new(decoder: Decoder, writer: W) -> (decompressor: Self)
        ensures
            *decompressor.decoder() == decoder,
            *decompressor.writer() == writer,
            decompressor.output().offered() == Seq::<u8>::empty(),
            decompressor.output().refusal() is None,
            decompressor.accepted() == Seq::<u8>::empty(),
    {
        Decompressor { decoder, writer: Output::new(writer) }
    }

    /// The decoder in use.
    #[verifier::when_used_as_spec(spec_decoder)]
    pub fn decoder(&self) -> (decoder: &Decoder)
        ensures
            decoder == self.spec_decoder(),
    {
        &self.decoder
    }

    /// The sink in use.
    #[verifier::when_used_as_spec(spec_writer)]
    pub fn writer(&self) -> (writer: &W)
        ensures
            writer == self.spec_writer(),
    {
        self.writer.writer()
    }

    /// The sink in use, for the caller to change.
    pub fn writer_mut(&mut self) -> (writer: &mut W)
        ensures
            *writer == *old(self).writer(),
            *final(self).writer() == *final(writer),
            *final(self).decoder() == *old(self).decoder(),
            final(self).output().offered() == old(self).output().offered(),
            final(self).output().refusal() == old(self).output().refusal(),
            final(self).accepted() == old(self).accepted(),
    {
        self.writer.writer_mut()
    }

    /// Gives up the decoder and returns the sink.
    pub fn take(self) -> (writer: W)
        ensures
            writer == *self.writer(),
    {
        self.writer.take()
    }

    /// Decompresses `data` and writes the result to the sink, as
    /// [`push_to`] does with the decoder and the sink of this decompressor.
    ///
    /// Returns the status of the last call of the codec, folded into one
    /// value, and the number of bytes written to the sink.
    pub fn push(&mut self, data: &[u8]) -> (outcome: Result<(DecoderResult, usize), WriteError>)
        requires
            old(self).decoder()@.is_sound(),
        ensures
            final(self).decoder()@.extends(old(self).decoder()@),
            streams(final(self).decoder()@.calls_since(old(self).decoder()@), data@),
            pushed(
                final(self).decoder()@.calls_since(old(self).decoder()@),
                final(self).decoder()@.produced_since(old(self).decoder()@),
                old(self).output(),
                final(self).output(),
                0,
                match outcome {
                    Ok((_, written)) => Ok(
                        (final(self).decoder()@.calls.last().result, written),
                    ),
                    Err(error) => Err(error),
                },
            ),
            outcome matches Ok((result, _)) ==> result == DecoderResult::of(
                final(self).decoder()@.calls.last().result.status,
            ),
            final(self).decoder()@.consumed_since(old(self).decoder()@) == data@.take(
                data@.len() - unconsumed(
                    final(self).decoder()@.calls_since(old(self).decoder()@),
                    data@,
                ),
            ),
            final(self).decoder().finished() == (old(self).decoder().finished() || any_finished(
                final(self).decoder()@.calls_since(old(self).decoder()@),
            )),
            old(self).decoder().is_brotli() ==> final(self).decoder().is_brotli(),
    {
        match push_to(&mut self.decoder, &mut self.writer, data) {
            Ok((result, written)) => {
                proof {
                    let calls = self.decoder@.calls_since(old(self).decoder()@);
                    assert(calls.last() == self.decoder@.calls.last());
                }
                Ok((DecoderResult::from_status(result.status), written))
            },
            Err(error) => Err(error),
        }
    }
}

} // verus!
