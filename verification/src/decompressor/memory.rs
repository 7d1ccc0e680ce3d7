//! Decompressor that keeps its output in memory.
use vstd::prelude::*;
use crate::decoder::{
    all_paused, kept, paused_for_output, streams, unconsumed, Call, DecodeError, DecodeStatus,
    Decoder, DecoderResult,
};

verus! {

/// Room reserved when a decompressor is made.
pub const INITIAL_CAPACITY: usize = 1024;

/// What [`Decompressor::push`] promises of the calls it made on the codec and
/// of the result it returns.
///
/// `Error` means that a reservation failed; every call before it ran out of
/// output room, and if there was none, it was the reservation up front,
/// which is made only where the policy has something to reserve for the
/// `len` bytes of input. Any other result is the answer of the last call,
/// before which every call ran out of output room; if it is `NeedOutput`
/// itself, the last call changed nothing.
pub open spec fn accumulated(calls: Seq<Call>, len: nat, result: DecoderResult) -> bool {
    if result == DecoderResult::Error {
        &&& all_paused(calls)
        &&& calls.len() == 0 ==> crate::growth::decode_reserve(len as int) > 0
    } else {
        &&& calls.len() >= 1
        &&& paused_for_output(calls)
        &&& result == DecoderResult::of(calls.last().result.status)
        &&& result == DecoderResult::NeedOutput ==> calls.last().is_idle()
    }
}

/// The last of the calls completed the stream.
pub open spec fn completed_by(calls: Seq<Call>) -> bool {
    calls.len() > 0 && calls.last().result.status == Ok::<DecodeStatus, DecodeError>(
        DecodeStatus::Finished,
    )
}

/// Decompressor that collects its output in one buffer, which grows as
/// needed and is used again after its contents have been consumed.
pub struct Decompressor {
    decoder: Decoder,
    output: Vec<u8>,
    consumed: bool,
}

impl View for Decompressor {
    type V = Seq<u8>;

    open spec fn view(&self) -> Seq<u8> {
        self.data()
    }
}

impl Decompressor {
    /// The decoder in use.
    pub closed spec fn spec_decoder(&self) -> &Decoder {
        &self.decoder
    }

    /// The decompressed data collected and not yet consumed; `self@` for
    /// short.
    pub closed spec fn data(&self) -> Seq<u8> {
        if self.consumed {
            Seq::empty()
        } else {
            self.output@
        }
    }

    /// A decompressor that decodes with `decoder`.
    pub fn new(decoder: Decoder) -> (decompressor: Self)
        ensures
            *decompressor.decoder() == decoder,
            decompressor@ == Seq::<u8>::empty(),
    {
        Decompressor { decoder, output: Vec::with_capacity(INITIAL_CAPACITY), consumed: false }
    }

    /// The decoder in use.
    #[verifier::when_used_as_spec(spec_decoder)]
    pub fn decoder(&self) -> (decoder: &Decoder)
        ensures
            decoder == self.spec_decoder(),
    {
        &self.decoder
    }

    /// Decompresses `data` and appends the result to the collected output,
    /// reserving room as [`Decoder::decode_vec_full`] does.
    ///
    /// `Finished` means that the stream is complete, `NeedInput` that more
    /// of it is to come. `Other` carries the codec's error code; what the
    /// failing call wrote is not appended. `Error` is a failed reservation.
    pub fn push(&mut self, data: &[u8]) -> (result: DecoderResult)
        requires
            old(self).decoder()@.is_sound(),
        ensures
            final(self).decoder()@.extends(old(self).decoder()@),
            streams(final(self).decoder()@.calls_since(old(self).decoder()@), data@),
            accumulated(
                final(self).decoder()@.calls_since(old(self).decoder()@),
                data@.len(),
                result,
            ),
            final(self).decoder()@.consumed_since(old(self).decoder()@) == data@.take(
                data@.len() - unconsumed(
                    final(self).decoder()@.calls_since(old(self).decoder()@),
                    data@,
                ),
            ),
            final(self)@ == old(self)@ + kept(
                final(self).decoder()@.calls_since(old(self).decoder()@),
                final(self).decoder()@.produced_since(old(self).decoder()@),
            ),
            final(self).decoder().finished() == (old(self).decoder().finished() || completed_by(
                final(self).decoder()@.calls_since(old(self).decoder()@),
            )),
            old(self).decoder().is_brotli() ==> final(self).decoder().is_brotli(),
    {
        if self.consumed {
            self.output.clear();
            self.consumed = false;
        }
        assert(self.output@ =~= old(self)@);
        match self.decoder.decode_vec_full(data, &mut self.output) {
            Ok(result) => DecoderResult::from_status(result.status),
            Err(_) => {
                proof {
                    let calls = self.decoder@.calls_since(old(self).decoder()@);
                    if calls.len() > 0 {
                        assert(calls.last().result.status == Ok::<DecodeStatus, DecodeError>(
                            DecodeStatus::NeedOutput,
                        ));
                    }
                }
                DecoderResult::Error
            },
        }
    }

    /// The decompressed data collected and not yet consumed.
    pub fn output(&self) -> (data: &[u8])
        ensures
            data@ == self@,
    {
        if self.consumed {
            vstd::slice::slice_subrange(self.output.as_slice(), 0, 0)
        } else {
            self.output.as_slice()
        }
    }

    /// Returns the decompressed data collected so far and marks it as
    /// consumed: the next push overwrites it, in the same allocation.
    pub fn consume_output(&mut self) -> (data: &[u8])
        ensures
            data@ == old(self)@,
            final(self)@ == Seq::<u8>::empty(),
            *final(self).decoder() == *old(self).decoder(),
    {
        if self.consumed {
            self.output.clear();
        }
        self.consumed = true;
        self.output.as_slice()
    }

    /// Gives up the decoder and returns the decompressed data collected and
    /// not yet consumed.
    pub fn take(self) -> (data: Vec<u8>)
        ensures
            data@ == self@,
    {
        let mut output = self.output;
        if self.consumed {
            output.clear();
        }
        output
    }
}

} // verus!
