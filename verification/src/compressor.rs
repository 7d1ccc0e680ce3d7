//! Compression on top of an [`Encoder`](crate::Encoder): into memory, or
//! straight into a sink.
use vstd::prelude::*;
use crate::encoder::{lemma_since_then, streams, Call, EncodeOp, Encoder};
use crate::sink::{Output, Sink, WriteError};

pub mod memory;
pub mod write;

verus! {

/// The chunks end to end.
pub open spec fn joined(chunks: Seq<&[u8]>) -> Seq<u8>
    decreases chunks.len(),
{
    if chunks.len() == 0 {
        Seq::empty()
    } else {
        joined(chunks.drop_last()) + chunks.last()@
    }
}

/// One more chunk at the end adds its bytes at the end.
pub proof fn lemma_joined_push(chunks: Seq<&[u8]>, chunk: &[u8])
    ensures
        joined(chunks.push(chunk)) == joined(chunks) + chunk@,
{
    assert(chunks.push(chunk).drop_last() =~= chunks);
}

/// Pushing one more chunk whole, after chunks that were pushed whole, has
/// fed the codec the chunks end to end: whatever the cuts, the codec sees
/// one and the same stream.
pub proof fn lemma_chunks_stream_as_one(
    start: crate::encoder::Transcript,
    middle: crate::encoder::Transcript,
    end: crate::encoder::Transcript,
    chunks: Seq<&[u8]>,
    chunk: &[u8],
)
    requires
        middle.extends(start),
        end.extends(middle),
        middle.consumed_since(start) == joined(chunks),
        end.consumed_since(middle) == chunk@,
    ensures
        end.extends(start),
        end.consumed_since(start) == joined(chunks.push(chunk)),
        end.produced_since(start) == middle.produced_since(start) + end.produced_since(middle),
{
    lemma_since_then(start, middle, end);
    lemma_joined_push(chunks, chunk);
}

/// Chunks joined are the same bytes wherever the list of chunks is cut in
/// two: what matters is the bytes end to end, not where the cuts fall.
pub proof fn lemma_joined_add(first: Seq<&[u8]>, second: Seq<&[u8]>)
    ensures
        joined(first + second) == joined(first) + joined(second),
    decreases second.len(),
{
    if second.len() == 0 {
        assert(first + second =~= first);
        assert(joined(first) + Seq::<u8>::empty() =~= joined(first));
    } else {
        assert((first + second).drop_last() =~= first + second.drop_last());
        assert((first + second).last() == second.last());
        lemma_joined_add(first, second.drop_last());
        assert(joined(first) + (joined(second.drop_last()) + second.last()@) =~= (joined(first)
            + joined(second.drop_last())) + second.last()@);
    }
}

/// The calls stream a list of chunks, chunk by chunk: first come the calls
/// for the first chunk, then those for the second, and so on. The calls for
/// a chunk stream it without a gap. They ask for `Process`; those for the
/// last chunk ask for `Finish` if the list is `closing`. A chunk that was
/// not reached has no calls.
pub open spec fn streams_each(calls: Seq<Call>, chunks: Seq<&[u8]>, closing: bool) -> bool
    decreases chunks.len(),
{
    if chunks.len() == 0 {
        calls.len() == 0
    } else {
        exists|cut: int|
            0 <= cut <= calls.len() && streams_each(calls.take(cut), chunks.drop_last(), false)
                && streams(
                #[trigger] calls.skip(cut),
                chunks.last()@,
                if closing {
                    EncodeOp::Finish
                } else {
                    EncodeOp::Process
                },
            )
    }
}

/// Calls that stream the first chunks of a list, and then calls that stream
/// the next chunk, stream one chunk more.
pub proof fn lemma_streams_one_more(
    first: Seq<Call>,
    second: Seq<Call>,
    chunks: Seq<&[u8]>,
    count: int,
    closing: bool,
)
    requires
        0 <= count < chunks.len(),
        streams_each(first, chunks.take(count), false),
        streams(
            second,
            chunks[count]@,
            if closing {
                EncodeOp::Finish
            } else {
                EncodeOp::Process
            },
        ),
    ensures
        streams_each(first + second, chunks.take(count + 1), closing),
{
    let calls = first + second;
    let list = chunks.take(count + 1);
    assert(list.drop_last() =~= chunks.take(count));
    assert(list.last() == chunks[count]);
    assert(calls.take(first.len() as int) =~= first);
    assert(calls.skip(first.len() as int) =~= second);
}

/// Calls that stream the first chunks of a list stream the list as far as
/// `upto`, with no calls for the chunks that were not reached.
pub proof fn lemma_streams_unreached(
    calls: Seq<Call>,
    chunks: Seq<&[u8]>,
    count: int,
    upto: int,
    closing: bool,
)
    requires
        0 <= count <= upto <= chunks.len(),
        count == upto ==> !closing,
        streams_each(calls, chunks.take(count), false),
    ensures
        streams_each(calls, chunks.take(upto), closing),
    decreases upto - count,
{
    if count < upto {
        lemma_streams_unreached(calls, chunks, count, upto - 1, false);
        lemma_streams_one_more(calls, Seq::empty(), chunks, upto - 1, closing);
        assert(calls + Seq::<Call>::empty() =~= calls);
    }
}

/// Something that can be compressed as one stream: a byte string, or a list
/// of chunks that make one up.
pub trait Compress {
    /// The bytes to compress, first to last.
    spec fn content(&self) -> Seq<u8>;

    /// Compresses the content into memory as one stream, closed at the end.
    ///
    /// `Some` holds the compressed stream. Then the codec has taken exactly
    /// the content, in order, however it was cut into chunks, and the
    /// stream is exactly what the codec wrote.
    fn compress(&self, encoder: &mut Encoder) -> (compressed: Option<Vec<u8>>)
        requires
            old(encoder)@.is_sound(),
        ensures
            final(encoder)@.extends(old(encoder)@),
            compressed matches Some(data) ==> {
                &&& final(encoder)@.consumed_since(old(encoder)@) == self.content()
                &&& data@ == final(encoder)@.produced_since(old(encoder)@)
            },
            old(encoder).is_brotli() ==> final(encoder).is_brotli(),
    ;

    /// Compresses the content into `out` as one stream, closed at the end.
    ///
    /// `Ok` holds the number of bytes written. Then the codec has taken
    /// exactly the content, in order, however it was cut into chunks, and
    /// the sink has been handed, has accepted and has received exactly what
    /// the codec wrote.
    fn compress_into<W: Sink>(&self, encoder: &mut Encoder, out: &mut Output<W>) -> (outcome: Result<
        usize,
        WriteError,
    >)
        requires
            old(encoder)@.is_sound(),
        ensures
            final(encoder)@.extends(old(encoder)@),
            outcome matches Ok(written) ==> {
                &&& final(encoder)@.consumed_since(old(encoder)@) == self.content()
                &&& final(out).offered() == old(out).offered() + final(encoder)@.produced_since(
                    old(encoder)@,
                )
                &&& final(out).accepted() == old(out).accepted() + final(encoder)@.produced_since(
                    old(encoder)@,
                )
                &&& final(out).received() == old(out).received() + final(encoder)@.produced_since(
                    old(encoder)@,
                )
                &&& written == final(encoder)@.produced_since(old(encoder)@).len()
            },
            old(encoder).is_brotli() ==> final(encoder).is_brotli(),
    ;
}

/// The calls end with one that asked to finish, took all of its input and
/// left nothing to do.
pub open spec fn closes(calls: Seq<crate::encoder::Call>) -> bool {
    &&& calls.len() > 0
    &&& calls.last().op == EncodeOp::Finish
    &&& memory::settled(calls.last())
}

impl Compress for [u8] {
    open spec fn content(&self) -> Seq<u8> {
        self@
    }

    /// One push with `Finish`. `Some` if and only if the calls made end
    /// with one that took the last of the input and closed the stream. The
    /// codec is called at least once, unless the input is not empty and the
    /// reservation for it fails.
    fn compress(&self, encoder: &mut Encoder) -> (compressed: Option<Vec<u8>>)
        ensures
            crate::encoder::streams(
                final(encoder)@.calls_since(old(encoder)@),
                self@,
                EncodeOp::Finish,
            ),
            memory::accumulated(
                final(encoder)@.calls_since(old(encoder)@),
                self@.len(),
                EncodeOp::Finish,
                compressed is Some,
            ),
            compressed is Some <==> closes(final(encoder)@.calls_since(old(encoder)@)),
            compressed is Some ==> final(encoder).finished(),
    {
        let mut output: Vec<u8> = Vec::with_capacity(0);
        let done = memory::push_to(encoder, &mut output, self, EncodeOp::Finish);
        proof {
            let calls = encoder@.calls_since(old(encoder)@);
            assert(output@ =~= encoder@.produced_since(old(encoder)@));
            if calls.len() > 0 {
                assert(calls.last().op == EncodeOp::Finish);
            }
        }
        if done {
            Some(output)
        } else {
            None
        }
    }

    /// One push with `Finish`.
    fn compress_into<W: Sink>(&self, encoder: &mut Encoder, out: &mut Output<W>) -> (outcome: Result<
        usize,
        WriteError,
    >)
        ensures
            crate::encoder::streams(
                final(encoder)@.calls_since(old(encoder)@),
                self@,
                EncodeOp::Finish,
            ),
            write::pushed(
                final(encoder)@.calls_since(old(encoder)@),
                final(encoder)@.produced_since(old(encoder)@),
                *old(out),
                *final(out),
                0,
                outcome,
            ),
            final(encoder).finished() == (old(encoder).finished() || crate::encoder::any_finished(
                final(encoder)@.calls_since(old(encoder)@),
            )),
    {
        write::push_to(encoder, out, self, EncodeOp::Finish)
    }
}

impl Compress for [&[u8]] {
    open spec fn content(&self) -> Seq<u8> {
        joined(self@)
    }

    /// One push per chunk, the last with `Finish`, the others with
    /// `Process`; gives up at the first push that does not take all of its
    /// chunk. No chunks make an empty stream without the encoder being
    /// called. Otherwise `Some` if and only if the calls made end with one
    /// that took the last of the input and closed the stream.
    fn compress(&self, encoder: &mut Encoder) -> (compressed: Option<Vec<u8>>)
        ensures
            self@.len() == 0 ==> compressed is Some && final(encoder)@ == old(encoder)@,
            self@.len() > 0 ==> (compressed is Some <==> closes(
                final(encoder)@.calls_since(old(encoder)@),
            )),
            self@.len() > 0 && compressed is Some ==> final(encoder).finished(),
            streams_each(final(encoder)@.calls_since(old(encoder)@), self@, true),
    {
        let ghost start = encoder@;
        let mut output: Vec<u8> = Vec::with_capacity(0);
        let count = self.len();
        proof {
            crate::encoder::lemma_since(start, start, Seq::empty(), Seq::empty(), Seq::empty());
            assert(self@.take(0) =~= Seq::<&[u8]>::empty());
        }
        if count == 0 {
            assert(self@ =~= Seq::<&[u8]>::empty());
            return Some(output);
        }
        let last = count - 1;
        let mut idx: usize = 0;
        while idx < last
            invariant
                old(encoder).is_brotli() ==> encoder.is_brotli(),
                start == old(encoder)@,
                last == self@.len() - 1,
                idx <= last,
                start.is_sound(),
                encoder@.extends(start),
                encoder@.consumed_since(start) == joined(self@.take(idx as int)),
                output@ == encoder@.produced_since(start),
                !closes(encoder@.calls_since(start)),
                streams_each(encoder@.calls_since(start), self@.take(idx as int), false),
            decreases last - idx,
        {
            let ghost middle = encoder@;
            let done = memory::push_to(encoder, &mut output, self[idx], EncodeOp::Process);
            proof {
                lemma_since_then(start, middle, encoder@);
                lemma_streams_one_more(
                    middle.calls_since(start),
                    encoder@.calls_since(middle),
                    self@,
                    idx as int,
                    false,
                );
                lemma_joined_push(self@.take(idx as int), self@[idx as int]);
                assert(self@.take(idx + 1) =~= self@.take(idx as int).push(self@[idx as int]));
                let calls = encoder@.calls_since(middle);
                if calls.len() > 0 {
                    assert(calls.last().op == EncodeOp::Process);
                    assert(encoder@.calls_since(start).last() == calls.last());
                } else {
                    assert(encoder@.calls_since(start) =~= middle.calls_since(start));
                }
            }
            if !done {
                proof {
                    lemma_streams_unreached(
                        encoder@.calls_since(start),
                        self@,
                        idx + 1,
                        self@.len() as int,
                        true,
                    );
                    assert(self@.take(self@.len() as int) =~= self@);
                }
                return None;
            }
            idx = idx + 1;
        }
        let ghost middle = encoder@;
        let done = memory::push_to(encoder, &mut output, self[last], EncodeOp::Finish);
        proof {
            lemma_since_then(start, middle, encoder@);
            lemma_streams_one_more(
                middle.calls_since(start),
                encoder@.calls_since(middle),
                self@,
                last as int,
                true,
            );
            lemma_joined_push(self@.take(last as int), self@[last as int]);
            assert(self@.take(last + 1) =~= self@.take(last as int).push(self@[last as int]));
            assert(self@.take(last + 1) =~= self@);
            let calls = encoder@.calls_since(middle);
            if calls.len() > 0 {
                assert(calls.last().op == EncodeOp::Finish);
                assert(encoder@.calls_since(start).last() == calls.last());
            } else {
                assert(encoder@.calls_since(start) =~= middle.calls_since(start));
            }
        }
        if done {
            Some(output)
        } else {
            None
        }
    }

    /// One push per chunk, the last with `Finish`, the others with
    /// `Process`, counting the bytes written over all of them; gives up at
    /// the first push that fails. No chunks write nothing without the
    /// encoder being called.
    ///
    /// With at least one chunk, what [`write::pushed`] says of one push
    /// holds of the calls of all the pushes taken together.
    fn compress_into<W: Sink>(&self, encoder: &mut Encoder, out: &mut Output<W>) -> (outcome: Result<
        usize,
        WriteError,
    >)
        ensures
            self@.len() == 0 ==> outcome == Ok::<usize, WriteError>(0) && final(encoder)@ == old(
                encoder,
            )@ && *final(out) == *old(out),
            self@.len() > 0 ==> write::pushed(
                final(encoder)@.calls_since(old(encoder)@),
                final(encoder)@.produced_since(old(encoder)@),
                *old(out),
                *final(out),
                0,
                outcome,
            ),
            outcome is Ok && self@.len() > 0 ==> closes_room(
                final(encoder)@.calls_since(old(encoder)@),
            ),
            streams_each(final(encoder)@.calls_since(old(encoder)@), self@, true),
    {
        let ghost start = encoder@;
        let ghost before = *out;
        let count = self.len();
        proof {
            crate::encoder::lemma_since(start, start, Seq::empty(), Seq::empty(), Seq::empty());
            assert(self@.take(0) =~= Seq::<&[u8]>::empty());
            assert(before.accepted() + Seq::<u8>::empty() =~= before.accepted());
            assert(before.offered() + Seq::<u8>::empty() =~= before.offered());
            assert(before.received() + Seq::<u8>::empty() =~= before.received());
        }
        if count == 0 {
            assert(self@ =~= Seq::<&[u8]>::empty());
            return Ok(0);
        }
        let last = count - 1;
        let mut total: usize = 0;
        let mut idx: usize = 0;
        while idx < last
            invariant
                old(encoder).is_brotli() ==> encoder.is_brotli(),
                start == old(encoder)@,
                start.is_sound(),
                before == *old(out),
                last == self@.len() - 1,
                idx <= last,
                encoder@.extends(start),
                encoder@.consumed_since(start) == joined(self@.take(idx as int)),
                write::chunked(encoder@.calls_since(start)),
                out.offered() == before.offered() + encoder@.produced_since(start),
                out.accepted() == before.accepted() + encoder@.produced_since(start),
                out.received() == before.received() + encoder@.produced_since(start),
                out.refusal() == before.refusal(),
                total == encoder@.produced_since(start).len(),
                streams_each(encoder@.calls_since(start), self@.take(idx as int), false),
            decreases last - idx,
        {
            let ghost middle = encoder@;
            let ghost halfway = *out;
            let pushed = write::push_from(encoder, out, self[idx], EncodeOp::Process, total);
            proof {
                let first = middle.calls_since(start);
                let second = encoder@.calls_since(middle);
                lemma_since_then(start, middle, encoder@);
                write::lemma_pushed_then(
                    first,
                    middle.produced_since(start),
                    second,
                    encoder@.produced_since(middle),
                    before,
                    halfway,
                    *out,
                    pushed,
                );
                lemma_joined_push(self@.take(idx as int), self@[idx as int]);
                assert(self@.take(idx + 1) =~= self@.take(idx as int).push(self@[idx as int]));
                lemma_streams_one_more(first, second, self@, idx as int, false);
            }
            total = match pushed {
                Ok(total) => total,
                Err(error) => {
                    proof {
                        lemma_streams_unreached(
                            encoder@.calls_since(start),
                            self@,
                            idx + 1,
                            self@.len() as int,
                            true,
                        );
                        assert(self@.take(self@.len() as int) =~= self@);
                    }
                    return Err(error);
                },
            };
            proof {
                let calls = encoder@.calls_since(start);
                assert(calls =~= calls.drop_last().push(calls.last()));
                assert forall|i: int| 0 <= i < calls.len() implies (#[trigger] calls[i]).room
                    == write::CHUNK && calls[i].result.status
                    != crate::encoder::EncodeStatus::Error by {
                    if i < calls.len() - 1 {
                        assert(calls[i] == calls.drop_last()[i]);
                    }
                }
            }
            idx = idx + 1;
        }
        let ghost middle = encoder@;
        let ghost halfway = *out;
        let pushed = write::push_from(encoder, out, self[last], EncodeOp::Finish, total);
        proof {
            let first = middle.calls_since(start);
            let second = encoder@.calls_since(middle);
            lemma_since_then(start, middle, encoder@);
            write::lemma_pushed_then(
                first,
                middle.produced_since(start),
                second,
                encoder@.produced_since(middle),
                before,
                halfway,
                *out,
                pushed,
            );
            lemma_joined_push(self@.take(last as int), self@[last as int]);
            assert(self@.take(last + 1) =~= self@.take(last as int).push(self@[last as int]));
            assert(self@.take(last + 1) =~= self@);
            assert(second.last().op == EncodeOp::Finish);
            lemma_streams_one_more(first, second, self@, last as int, true);
        }
        pushed
    }
}

/// The calls end with one that asked to finish, took all of its input,
/// did not fail and left room in its buffer.
pub open spec fn closes_room(calls: Seq<crate::encoder::Call>) -> bool {
    &&& calls.len() > 0
    &&& calls.last().op == EncodeOp::Finish
    &&& calls.last().result.input_remain == 0
    &&& calls.last().result.output_remain > 0
    &&& calls.last().result.status != crate::encoder::EncodeStatus::Error
}

} // verus!
