//! Compressor that keeps its output in memory.
use vstd::prelude::*;
use crate::encoder::{all_unfinished, streams, Call, EncodeOp, EncodeStatus, Encoder};

verus! {

/// What [`Compressor::push`] promises of the calls it made on the codec and
/// of the flag it returns.
///
/// Every call before the last left work to do. `true` means that the last
/// call took the last of the input and that its answer leaves nothing to do:
/// `Finished`, or `Continue` when the operation was not `Finish`. `false`
/// means that a reservation failed, in which case every call left work to do,
/// or that the last call failed, left input, or left work to do and changed
/// nothing. The codec is called at least once, unless the reservation up
/// front fails, which is made only where the policy has something to reserve
/// for the `len` bytes of input.
pub open spec fn accumulated(calls: Seq<Call>, len: nat, op: EncodeOp, done: bool) -> bool {
    if done {
        &&& calls.len() >= 1
        &&& all_unfinished(calls.drop_last())
        &&& settled(calls.last())
    } else {
        ||| calls.len() == 0 && crate::growth::encode_reserve(len as int) > 0
        ||| calls.len() >= 1 && all_unfinished(calls)
        ||| calls.len() >= 1 && all_unfinished(calls.drop_last()) && !settled(calls.last())
    }
}

/// The last of the calls closed the stream.
pub open spec fn closed_by(calls: Seq<Call>) -> bool {
    calls.len() > 0 && calls.last().result.status == EncodeStatus::Finished
}

/// The call took all of its input and its answer leaves nothing to do.
pub open spec fn settled(call: Call) -> bool {
    &&& call.result.input_remain == 0
    &&& call.result.status != EncodeStatus::Error
    &&& !call.is_unfinished()
}

/// Compresses `data` with `encoder` and appends the result to `output`,
/// reserving room as [`Encoder::encode_vec_full`] does.
///
/// Returns whether all of `data` was compressed and nothing is left to do
/// for `op`. After `false`, what was produced is still appended.
pub fn push_to(encoder: &mut Encoder, output: &mut Vec<u8>, data: &[u8], op: EncodeOp) -> (done: bool)
    requires
        old(encoder)@.is_sound(),
    ensures
        final(encoder)@.extends(old(encoder)@),
        streams(final(encoder)@.calls_since(old(encoder)@), data@, op),
        accumulated(final(encoder)@.calls_since(old(encoder)@), data@.len(), op, done),
        done ==> final(encoder)@.consumed_since(old(encoder)@) == data@,
        final(output)@ == old(output)@ + final(encoder)@.produced_since(old(encoder)@),
        final(encoder).finished() == (old(encoder).finished() || closed_by(
            final(encoder)@.calls_since(old(encoder)@),
        )),
        old(encoder).is_brotli() ==> final(encoder).is_brotli(),
{
    match encoder.encode_vec_full(data, output, op) {
        Ok(result) => {
            let done = result.input_remain == 0 && (result.status == EncodeStatus::Finished || (
            result.status == EncodeStatus::Continue && op != EncodeOp::Finish));
            proof {
                let calls = encoder@.calls_since(old(encoder)@);
                assert(calls.last().op == op);
                if done {
                    assert(data@.take(data@.len() as int) =~= data@);
                }
            }
            done
        },
        Err(_) => {
            proof {
                let calls = encoder@.calls_since(old(encoder)@);
                if calls.len() > 0 {
                    assert(calls.last().is_unfinished());
                }
            }
            false
        },
    }
}

/// Compressor that collects its output in one buffer, which grows as needed
/// and is used again after its contents have been consumed.
pub struct Compressor {
    encoder: Encoder,
    output: Vec<u8>,
    consumed: bool,
}

impl View for Compressor {
    type V = Seq<u8>;

    open spec fn view(&self) -> Seq<u8> {
        self.data()
    }
}

impl Compressor {
    /// The encoder in use.
    pub closed spec fn spec_encoder(&self) -> &Encoder {
        &self.encoder
    }

    /// The compressed data collected and not yet consumed; `self@` for
    /// short.
    pub closed spec fn data(&self) -> Seq<u8> {
        if self.consumed {
            Seq::empty()
        } else {
            self.output@
        }
    }

    /// A compressor that encodes with `encoder`. Allocates nothing yet.
    pub fn new(encoder: Encoder) -> (compressor: Self)
        ensures
            *compressor.encoder() == encoder,
            compressor@ == Seq::<u8>::empty(),
    {
        Compressor { encoder, output: Vec::with_capacity(0), consumed: false }
    }

    /// The encoder in use.
    #[verifier::when_used_as_spec(spec_encoder)]
    pub fn encoder(&self) -> (encoder: &Encoder)
        ensures
            encoder == self.spec_encoder(),
    {
        &self.encoder
    }

    /// Compresses `data` and appends the result to the collected output, as
    /// [`push_to`] does with the encoder and the buffer of this compressor.
    /// Pass `EncodeOp::Finish` with the last chunk.
    ///
    /// Returns whether all of `data` was compressed and nothing is left to
    /// do for `op`. After `false`, what was produced is still appended.
    pub fn push(&mut self, data: &[u8], op: EncodeOp) -> (done: bool)
        requires
            old(self).encoder()@.is_sound(),
        ensures
            final(self).encoder()@.extends(old(self).encoder()@),
            streams(final(self).encoder()@.calls_since(old(self).encoder()@), data@, op),
            accumulated(
                final(self).encoder()@.calls_since(old(self).encoder()@),
                data@.len(),
                op,
                done,
            ),
            done ==> final(self).encoder()@.consumed_since(old(self).encoder()@) == data@,
            final(self)@ == old(self)@ + final(self).encoder()@.produced_since(old(self).encoder()@),
            final(self).encoder().finished() == (old(self).encoder().finished() || closed_by(
                final(self).encoder()@.calls_since(old(self).encoder()@),
            )),
            old(self).encoder().is_brotli() ==> final(self).encoder().is_brotli(),
    {
        if self.consumed {
            self.output.clear();
            self.consumed = false;
        }
        assert(self.output@ =~= old(self)@);
        push_to(&mut self.encoder, &mut self.output, data, op)
    }

    /// The compressed data collected and not yet consumed.
    pub fn output(&self) -> (data: &[u8])
        ensures
            data@ == self@,
    {
        if self.consumed {
            vstd::slice::slice_subrange(self.output.as_slice(), 0, 0)
        } else {
            self.output.as_slice()
        }
    }

    /// Returns the compressed data collected so far and marks it as
    /// consumed: the next push overwrites it, in the same allocation.
    pub fn consume_output(&mut self) -> (data: &[u8])
        ensures
            data@ == old(self)@,
            final(self)@ == Seq::<u8>::empty(),
            *final(self).encoder() == *old(self).encoder(),
    {
        if self.consumed {
            self.output.clear();
        }
        self.consumed = true;
        self.output.as_slice()
    }

    /// Gives up the encoder and returns the compressed data collected and
    /// not yet consumed.
    pub fn take(self) -> (data: Vec<u8>)
        ensures
            data@ == self@,
    {
        let mut output = self.output;
        if self.consumed {
            output.clear();
        }
        output
    }
}

} // verus!
