//! Decompression on top of a [`Decoder`](crate::Decoder): into memory, or
//! straight into a sink.
use vstd::prelude::*;
use crate::compressor::{joined, lemma_joined_push};
use crate::decoder::{
    lemma_since, lemma_since_then, lemma_starved_add, lemma_starved_paused, starved, streams, Call,
    DecodeError, DecodeStatus, Decoder,
};
use crate::sink::{Output, Sink, WriteError};

pub mod memory;
pub mod write;

verus! {

/// The calls end with one that asked for more input.
pub open spec fn starves(calls: Seq<Call>) -> bool {
    calls.len() > 0 && calls.last().result.status == Ok::<DecodeStatus, DecodeError>(
        DecodeStatus::NeedInput,
    )
}

/// There was no call, or the last call completed the stream.
pub open spec fn rests(calls: Seq<Call>) -> bool {
    calls.len() == 0 || memory::completed_by(calls)
}

/// The calls stream a list of chunks, chunk by chunk: first come the calls
/// for the first chunk, then those for the second, and so on. The calls for
/// a chunk stream it without a gap. A chunk that was not reached has no
/// calls.
pub open spec fn streams_each(calls: Seq<Call>, chunks: Seq<&[u8]>) -> bool
    decreases chunks.len(),
{
    if chunks.len() == 0 {
        calls.len() == 0
    } else {
        exists|cut: int|
            0 <= cut <= calls.len() && streams_each(calls.take(cut), chunks.drop_last())
                && streams(#[trigger] calls.skip(cut), chunks.last()@)
    }
}

/// Calls that stream the first chunks of a list, and then calls that stream
/// the next chunk, stream one chunk more.
pub proof fn lemma_streams_one_more(
    first: Seq<Call>,
    second: Seq<Call>,
    chunks: Seq<&[u8]>,
    count: int,
)
    requires
        0 <= count < chunks.len(),
        streams_each(first, chunks.take(count)),
        streams(second, chunks[count]@),
    ensures
        streams_each(first + second, chunks.take(count + 1)),
{
    let calls = first + second;
    let list = chunks.take(count + 1);
    assert(list.drop_last() =~= chunks.take(count));
    assert(list.last() == chunks[count]);
    assert(calls.take(first.len() as int) =~= first);
    assert(calls.skip(first.len() as int) =~= second);
}

/// Calls that stream the first chunks of a list stream the list as far as
/// `upto`, with no calls for the chunks that were not reached.
pub proof fn lemma_streams_unreached(calls: Seq<Call>, chunks: Seq<&[u8]>, count: int, upto: int)
    requires
        0 <= count <= upto <= chunks.len(),
        streams_each(calls, chunks.take(count)),
    ensures
        streams_each(calls, chunks.take(upto)),
    decreases upto - count,
{
    if count < upto {
        lemma_streams_unreached(calls, chunks, count, upto - 1);
        lemma_streams_one_more(calls, Seq::empty(), chunks, upto - 1);
        assert(calls + Seq::<Call>::empty() =~= calls);
    }
}

/// What decompressing a stream of `chunks` chunks into a sink promises of
/// the calls made on the codec, of the count returned and of the sink.
///
/// There was at least one call; every call got a buffer of
/// [`write::CHUNK`] bytes; what the last call wrote is the end of what the
/// codec wrote.
///
/// The outcome is decided by the count, the sink and the codec:
/// - `Overflow` if and only if the count of bytes no longer fits. The sink
///   was then not handed what the last call wrote.
/// - `Sink` if the count fits and the sink has not accepted all that the
///   codec wrote: it was handed what the last call wrote, which was not
///   nothing, and refused it. The error is the one that the sink gave.
/// - Otherwise the sink has been handed and has accepted all that the codec
///   wrote, and the codec decides. `Ok` if and only if the last call
///   completed the stream and the codec asked for more input once for every
///   chunk before the last; the count is then the length of what the codec
///   wrote, and the sink has received all of it. `TooMuchInput` if and only
///   if the stream was complete before the last chunk. `NeedInput` if and
///   only if the codec asked for more input after every chunk, the last
///   too. `InvalidData` if and only if the last call did not complete the
///   stream, and, if it asked for more input, did so before the last chunk
///   and without taking all of its own.
///
/// After `Overflow` and `Sink` the sink has accepted what the codec wrote
/// before the last call and nothing of what it wrote in the last.
pub open spec fn delivered<W: Sink>(
    calls: Seq<Call>,
    produced: Seq<u8>,
    before: Output<W>,
    after: Output<W>,
    chunks: nat,
    outcome: Result<usize, WriteError>,
) -> bool {
    let last = calls.last();
    let earlier = produced.take(produced.len() - last.written());
    let fits = produced.len() <= usize::MAX;
    let whole = fits && after.accepted() == before.accepted() + produced;
    &&& calls.len() >= 1
    &&& write::chunked(calls)
    &&& 0 <= last.written() <= produced.len()
    &&& (outcome matches Err(WriteError::Overflow)) <==> !fits
    &&& outcome is Ok <==> whole && memory::completed_by(calls) && starved(calls) == chunks - 1
    &&& (outcome matches Err(WriteError::TooMuchInput)) <==> whole && memory::completed_by(calls)
        && starved(calls) < chunks - 1
    &&& (outcome matches Err(WriteError::NeedInput)) <==> whole && starves(calls) && starved(calls)
        == chunks
    &&& (outcome matches Err(WriteError::InvalidData)) <==> whole && !memory::completed_by(calls)
        && (starves(calls) ==> last.result.input_remain > 0 && starved(calls) < chunks)
    &&& after.refusal() == if let Err(WriteError::Sink(error)) = outcome {
        Some(error)
    } else {
        before.refusal()
    }
    &&& match outcome {
        Ok(count) => {
            &&& count == produced.len()
            &&& after.offered() == before.offered() + produced
            &&& after.received() == before.received() + produced
        },
        Err(WriteError::Sink(_)) => {
            &&& last.written() > 0
            &&& after.offered() == before.offered() + produced
            &&& after.accepted() == before.accepted() + earlier
        },
        Err(WriteError::Overflow) => {
            &&& after.offered() == before.offered() + earlier
            &&& after.accepted() == before.accepted() + earlier
        },
        Err(_) => after.offered() == before.offered() + produced,
    }
}

/// Something that can be decompressed as one stream: a byte string, or a
/// list of chunks that make one up.
pub trait Decompress {
    /// The bytes to decompress, first to last.
    spec fn content(&self) -> Seq<u8>;

    /// Decompresses the content into memory.
    ///
    /// `Some` holds the decompressed data. Then the last call of the codec,
    /// if there was a call, has completed the stream, the codec has taken
    /// the content in order, however it was cut into chunks, up to where the
    /// stream ended, and the data is exactly what the codec wrote.
    fn decompress(&self, decoder: &mut Decoder) -> (decompressed: Option<Vec<u8>>)
        requires
            old(decoder)@.is_sound(),
        ensures
            final(decoder)@.extends(old(decoder)@),
            decompressed matches Some(data) ==> {
                &&& rests(final(decoder)@.calls_since(old(decoder)@))
                &&& final(decoder)@.consumed_since(old(decoder)@).is_prefix_of(self.content())
                &&& data@ == final(decoder)@.produced_since(old(decoder)@)
            },
            old(decoder).is_brotli() ==> final(decoder).is_brotli(),
    ;

    /// Decompresses the content into `out`.
    ///
    /// `Ok` holds the number of bytes written. Then the last call of the
    /// codec, if there was a call, has completed the stream, the codec has
    /// taken the content in order, however it was cut into chunks, up to
    /// where the stream ended, and the sink has been handed, has accepted
    /// and has received exactly what the codec wrote.
    fn decompress_into<W: Sink>(&self, decoder: &mut Decoder, out: &mut Output<W>) -> (outcome: Result<
        usize,
        WriteError,
    >)
        requires
            old(decoder)@.is_sound(),
        ensures
            final(decoder)@.extends(old(decoder)@),
            outcome matches Ok(written) ==> {
                &&& rests(final(decoder)@.calls_since(old(decoder)@))
                &&& final(decoder)@.consumed_since(old(decoder)@).is_prefix_of(self.content())
                &&& final(out).offered() == old(out).offered() + final(decoder)@.produced_since(
                    old(decoder)@,
                )
                &&& final(out).accepted() == old(out).accepted() + final(decoder)@.produced_since(
                    old(decoder)@,
                )
                &&& final(out).received() == old(out).received() + final(decoder)@.produced_since(
                    old(decoder)@,
                )
                &&& written == final(decoder)@.produced_since(old(decoder)@).len()
            },
            old(decoder).is_brotli() ==> final(decoder).is_brotli(),
    ;
}

impl Decompress for [u8] {
    open spec fn content(&self) -> Seq<u8> {
        self@
    }

    /// One push. `Some` if and only if the last call of the codec completed
    /// the stream. The codec is called at least once, unless there is
    /// something to reserve for the input and the reservation fails.
    fn decompress(&self, decoder: &mut Decoder) -> (decompressed: Option<Vec<u8>>)
        ensures
            streams(final(decoder)@.calls_since(old(decoder)@), self@),
            decompressed is Some <==> memory::completed_by(
                final(decoder)@.calls_since(old(decoder)@),
            ),
            final(decoder)@.calls_since(old(decoder)@).len() == 0 ==> crate::growth::decode_reserve(
                self@.len() as int,
            ) > 0,
            decompressed is Some ==> final(decoder).finished(),
    {
        let mut output: Vec<u8> = Vec::with_capacity(memory::INITIAL_CAPACITY);
        match decoder.decode_vec_full(self, &mut output) {
            Ok(result) => {
                proof {
                    assert(output@ =~= crate::decoder::kept(
                        decoder@.calls_since(old(decoder)@),
                        decoder@.produced_since(old(decoder)@),
                    ));
                }
                match result.status {
                    Ok(DecodeStatus::Finished) => Some(output),
                    _ => None,
                }
            },
            Err(_) => {
                proof {
                    let calls = decoder@.calls_since(old(decoder)@);
                    if calls.len() > 0 {
                        assert(calls.last().result.status == Ok::<DecodeStatus, DecodeError>(
                            DecodeStatus::NeedOutput,
                        ));
                    }
                }
                None
            },
        }
    }

    /// One push, as [`write::push_to`] makes it: every call but the last ran
    /// out of output room. What [`delivered`] says holds of it, for a
    /// stream of one chunk.
    fn decompress_into<W: Sink>(&self, decoder: &mut Decoder, out: &mut Output<W>) -> (outcome: Result<
        usize,
        WriteError,
    >)
        ensures
            streams(final(decoder)@.calls_since(old(decoder)@), self@),
            crate::decoder::paused_for_output(final(decoder)@.calls_since(old(decoder)@)),
            delivered(
                final(decoder)@.calls_since(old(decoder)@),
                final(decoder)@.produced_since(old(decoder)@),
                *old(out),
                *final(out),
                1,
                outcome,
            ),
            final(decoder).finished() == (old(decoder).finished() || crate::decoder::any_finished(
                final(decoder)@.calls_since(old(decoder)@),
            )),
    {
        let outcome = write::push_to(decoder, out, self);
        proof {
            let calls = decoder@.calls_since(old(decoder)@);
            assert(calls =~= calls.drop_last().push(calls.last()));
            lemma_starved_add(calls.drop_last(), seq![calls.last()]);
            assert(seq![calls.last()].drop_last() =~= Seq::<Call>::empty());
            lemma_starved_paused(calls.drop_last());
        }
        match outcome {
            Ok((result, written)) => match result.status {
                Ok(DecodeStatus::Finished) => {
                    proof {
                        assert(self@.take(self@.len() - result.input_remain).is_prefix_of(self@));
                    }
                    Ok(written)
                },
                Ok(DecodeStatus::NeedInput) => Err(WriteError::NeedInput),
                _ => Err(WriteError::InvalidData),
            },
            Err(WriteError::Sink(error)) => Err(WriteError::Sink(error)),
            Err(_) => Err(WriteError::Overflow),
        }
    }
}

impl Decompress for [&[u8]] {
    open spec fn content(&self) -> Seq<u8> {
        joined(self@)
    }

    /// One push per chunk; gives up at the first chunk but the last that
    /// the codec does not take whole and ask for more after, and at a last
    /// chunk that does not complete the stream. No chunks give no data
    /// without the decoder being called. Otherwise `Some` if and only if the
    /// last call of the codec completed the stream and the codec asked for
    /// more input once for every chunk before the last.
    fn decompress(&self, decoder: &mut Decoder) -> (decompressed: Option<Vec<u8>>)
        ensures
            self@.len() == 0 ==> decompressed is Some && final(decoder)@ == old(decoder)@,
            self@.len() > 0 ==> (decompressed is Some <==> memory::completed_by(
                final(decoder)@.calls_since(old(decoder)@),
            ) && starved(final(decoder)@.calls_since(old(decoder)@)) == self@.len() - 1),
            self@.len() > 0 && decompressed is Some ==> final(decoder).finished(),
            streams_each(final(decoder)@.calls_since(old(decoder)@), self@),
    {
        let ghost start = decoder@;
        let mut output: Vec<u8> = Vec::with_capacity(memory::INITIAL_CAPACITY);
        let count = self.len();
        proof {
            lemma_since(start, start, Seq::empty(), Seq::empty(), Seq::empty());
            assert(self@.take(0) =~= Seq::<&[u8]>::empty());
        }
        if count == 0 {
            assert(self@ =~= Seq::<&[u8]>::empty());
            return Some(output);
        }
        let mut idx: usize = 0;
        loop
            invariant
                old(decoder).is_brotli() ==> decoder.is_brotli(),
                start == old(decoder)@,
                count == self@.len(),
                idx < count,
                start.is_sound(),
                decoder@.extends(start),
                decoder@.consumed_since(start) == joined(self@.take(idx as int)),
                output@ == decoder@.produced_since(start),
                starved(decoder@.calls_since(start)) == idx,
                !memory::completed_by(decoder@.calls_since(start)),
                streams_each(decoder@.calls_since(start), self@.take(idx as int)),
            decreases count - idx,
        {
            let ghost middle = decoder@;
            let ghost held = output@;
            let is_last = idx + 1 == count;
            let outcome = decoder.decode_vec_full(self[idx], &mut output);
            proof {
                let block = decoder@.calls_since(middle);
                lemma_since_then(start, middle, decoder@);
                lemma_streams_one_more(middle.calls_since(start), block, self@, idx as int);
                lemma_streams_unreached(
                    decoder@.calls_since(start),
                    self@,
                    idx + 1,
                    self@.len() as int,
                );
                assert(self@.take(self@.len() as int) =~= self@);
                lemma_starved_add(middle.calls_since(start), block);
                lemma_joined_push(self@.take(idx as int), self@[idx as int]);
                assert(self@.take(idx + 1) =~= self@.take(idx as int).push(self@[idx as int]));
                if is_last {
                    assert(self@.take(idx + 1) =~= self@);
                }
                if block.len() > 0 {
                    assert(decoder@.calls_since(start).last() == block.last());
                    assert(block =~= block.drop_last().push(block.last()));
                    lemma_starved_add(block.drop_last(), seq![block.last()]);
                    assert(seq![block.last()].drop_last() =~= Seq::<Call>::empty());
                    if outcome is Ok {
                        lemma_starved_paused(block.drop_last());
                    } else {
                        lemma_starved_paused(block);
                    }
                } else {
                    assert(decoder@.calls_since(start) =~= middle.calls_since(start));
                }
            }
            let result = match outcome {
                Ok(result) => result,
                Err(_) => {
                    return None;
                },
            };
            match result.status {
                Ok(DecodeStatus::Finished) => {
                    if !is_last {
                        return None;
                    }
                    proof {
                        assert(output@ =~= held + decoder@.produced_since(middle));
                        let chunk = self@[idx as int]@;
                        let head = joined(self@.take(idx as int));
                        assert(head + chunk.take(chunk.len() - result.input_remain) =~= (head
                            + chunk).take(head.len() + chunk.len() - result.input_remain));
                    }
                    return Some(output);
                },
                Ok(DecodeStatus::NeedInput) => {
                    if is_last || result.input_remain != 0 {
                        return None;
                    }
                    proof {
                        let chunk = self@[idx as int]@;
                        assert(chunk.take(chunk.len() as int) =~= chunk);
                        assert(output@ =~= held + decoder@.produced_since(middle));
                    }
                },
                _ => {
                    return None;
                },
            }
            idx = idx + 1;
        }
    }

    /// One push per chunk, counting the bytes written over all of them;
    /// gives up at the first push that fails, at the first chunk but the
    /// last that the codec does not take whole and ask for more after, and
    /// at a last chunk that does not complete the stream. No chunks write
    /// nothing without the decoder being called. With at least one chunk,
    /// what [`delivered`] says holds of the calls of all the pushes taken
    /// together.
    fn decompress_into<W: Sink>(&self, decoder: &mut Decoder, out: &mut Output<W>) -> (outcome: Result<
        usize,
        WriteError,
    >)
        ensures
            self@.len() == 0 ==> outcome == Ok::<usize, WriteError>(0) && final(decoder)@ == old(
                decoder,
            )@ && *final(out) == *old(out),
            self@.len() > 0 ==> delivered(
                final(decoder)@.calls_since(old(decoder)@),
                final(decoder)@.produced_since(old(decoder)@),
                *old(out),
                *final(out),
                self@.len(),
                outcome,
            ),
            streams_each(final(decoder)@.calls_since(old(decoder)@), self@),
    {
        let ghost start = decoder@;
        let ghost before = *out;
        let count = self.len();
        proof {
            lemma_since(start, start, Seq::empty(), Seq::empty(), Seq::empty());
            assert(self@.take(0) =~= Seq::<&[u8]>::empty());
            assert(before.accepted() + Seq::<u8>::empty() =~= before.accepted());
            assert(before.offered() + Seq::<u8>::empty() =~= before.offered());
            assert(before.received() + Seq::<u8>::empty() =~= before.received());
        }
        if count == 0 {
            assert(self@ =~= Seq::<&[u8]>::empty());
            return Ok(0);
        }
        let mut total: usize = 0;
        let mut idx: usize = 0;
        loop
            invariant
                old(decoder).is_brotli() ==> decoder.is_brotli(),
                start == old(decoder)@,
                start.is_sound(),
                before == *old(out),
                count == self@.len(),
                idx < count,
                decoder@.extends(start),
                decoder@.consumed_since(start) == joined(self@.take(idx as int)),
                write::chunked(decoder@.calls_since(start)),
                out.offered() == before.offered() + decoder@.produced_since(start),
                out.accepted() == before.accepted() + decoder@.produced_since(start),
                out.received() == before.received() + decoder@.produced_since(start),
                out.refusal() == before.refusal(),
                total == decoder@.produced_since(start).len(),
                starved(decoder@.calls_since(start)) == idx,
                streams_each(decoder@.calls_since(start), self@.take(idx as int)),
            decreases count - idx,
        {
            let ghost middle = decoder@;
            let is_last = idx + 1 == count;
            let outcome = write::push_from(decoder, out, self[idx], total);
            proof {
                lemma_since_then(start, middle, decoder@);
                lemma_joined_push(self@.take(idx as int), self@[idx as int]);
                assert(self@.take(idx + 1) =~= self@.take(idx as int).push(self@[idx as int]));
                let first = middle.calls_since(start);
                let made = middle.produced_since(start);
                let calls = decoder@.calls_since(middle);
                let produced = decoder@.produced_since(middle);
                let both = first + calls;
                let all = made + produced;
                lemma_streams_one_more(first, calls, self@, idx as int);
                lemma_streams_unreached(both, self@, idx + 1, self@.len() as int);
                assert(self@.take(self@.len() as int) =~= self@);
                let last = calls.last();
                assert(both.last() == last);
                if is_last {
                    assert(self@.take(idx + 1) =~= self@);
                }
                lemma_starved_add(first, calls);
                assert(calls =~= calls.drop_last().push(calls.last()));
                lemma_starved_add(calls.drop_last(), seq![calls.last()]);
                assert(seq![calls.last()].drop_last() =~= Seq::<Call>::empty());
                lemma_starved_paused(calls.drop_last());
                assert forall|i: int| 0 <= i < both.len() implies (#[trigger] both[i]).room
                    == write::CHUNK by {
                    if i < first.len() {
                        assert(both[i] == first[i]);
                    } else {
                        assert(both[i] == calls[i - first.len()]);
                    }
                }
                let earlier = produced.take(produced.len() - last.written());
                assert(all.take(all.len() - last.written()) =~= made + earlier);
                assert(before.accepted() + made + earlier =~= before.accepted() + (made + earlier));
                assert(before.offered() + made + earlier =~= before.offered() + (made + earlier));
                assert(before.accepted() + made + produced =~= before.accepted() + all);
                assert(before.offered() + made + produced =~= before.offered() + all);
                assert(before.received() + made + produced =~= before.received() + all);
                if last.written() > 0 {
                    assert((before.accepted() + (made + earlier)).len() != (before.accepted()
                        + all).len());
                }
            }
            let (result, written) = match outcome {
                Ok(pair) => pair,
                Err(WriteError::Sink(error)) => {
                    return Err(WriteError::Sink(error));
                },
                Err(_) => {
                    return Err(WriteError::Overflow);
                },
            };
            proof {
                let chunk = self@[idx as int]@;
                assert(joined(self@.take(idx as int)) + chunk.take(chunk.len() - result.input_remain)
                    =~= (joined(self@.take(idx as int)) + chunk).take(
                    joined(self@.take(idx as int)).len() + chunk.len() - result.input_remain,
                ));
            }
            total = written;
            match result.status {
                Ok(DecodeStatus::Finished) => {
                    if is_last {
                        return Ok(total);
                    }
                    return Err(WriteError::TooMuchInput);
                },
                Ok(DecodeStatus::NeedInput) => {
                    if is_last {
                        return Err(WriteError::NeedInput);
                    }
                    if result.input_remain != 0 {
                        return Err(WriteError::InvalidData);
                    }
                },
                _ => {
                    return Err(WriteError::InvalidData);
                },
            }
            proof {
                let chunk = self@[idx as int]@;
                assert(chunk.take(chunk.len() as int) =~= chunk);
            }
            idx = idx + 1;
        }
    }
}

} // verus!
