//! Fixed-capacity output buffer that lives wherever its owner puts it: no
//! heap, no growth.
use vstd::prelude::*;
use vstd::slice::slice_subrange;
use crate::decoder::{Call, DecodeError, DecodeStatus, Decoder};

verus! {

/// `N` bytes of storage with a write cursor. The bytes before the cursor are
/// the data; the bytes from the cursor on are room for a codec to write into.
pub struct Buffer<const N: usize> {
    buffer: [u8; N],
    cursor: usize,
}

impl<const N: usize> View for Buffer<N> {
    type V = Seq<u8>;

    open spec fn view(&self) -> Seq<u8> {
        self.written()
    }
}

impl<const N: usize> Buffer<N> {
    #[verifier::type_invariant]
    spec fn cursor_in_bounds(self) -> bool {
        self.cursor <= N
    }

    /// The data in the buffer: everything written since it was made or last
    /// consumed; `self@` for short.
    pub closed spec fn written(&self) -> Seq<u8> {
        self.buffer@.take(self.cursor as int)
    }

    /// An empty buffer. A capacity under 128 bytes is too small to be of use
    /// to any codec and is not accepted.
    pub fn new() -> (buffer: Self)
        requires
            N >= 128,
        ensures
            buffer@ == Seq::<u8>::empty(),
    {
        Buffer { buffer: [0u8;N], cursor: 0 }
    }

    /// The data written and not yet consumed.
    pub fn data(&self) -> (data: &[u8])
        ensures
            data@ == self@,
    {
        proof {
            use_type_invariant(self);
        }
        slice_subrange(self.buffer.as_slice(), 0, self.cursor)
    }

    /// How many bytes of room are left.
    pub fn remaining(&self) -> (room: usize)
        ensures
            room == N - self@.len(),
    {
        proof {
            use_type_invariant(self);
        }
        N - self.cursor
    }

    /// Marks all data as consumed: the buffer is empty again.
    pub fn consume(&mut self)
        ensures
            final(self)@ == Seq::<u8>::empty(),
    {
        self.cursor = 0;
    }

    /// Decodes `input` into the room left in the buffer: one call of the
    /// codec.
    ///
    /// On success returns how many bytes of `input` were taken, and the
    /// status; what the codec wrote is appended to the data. After
    /// `NeedOutput`, consume the data and call again with the rest of the
    /// input; after `Finished`, reset the decoder before decoding anything
    /// else. On error the data is as it was.
    pub fn decode(&mut self, decoder: &mut Decoder, input: &[u8]) -> (outcome: Result<
        (usize, DecodeStatus),
        DecodeError,
    >)
        requires
            old(decoder)@.is_sound(),
        ensures
            final(decoder)@.advanced_by(
                old(decoder)@,
                Call {
                    input: input@,
                    room: (N - old(self)@.len()) as nat,
                    result: final(decoder)@.calls.last().result,
                },
            ),
            match outcome {
                Ok((taken, status)) => {
                    let result = final(decoder)@.calls.last().result;
                    &&& result.status == Ok::<DecodeStatus, DecodeError>(status)
                    &&& taken == input@.len() - result.input_remain
                    &&& final(self)@ == old(self)@ + final(decoder)@.produced_since(old(decoder)@)
                },
                Err(error) => {
                    &&& final(decoder)@.calls.last().result.status == Err::<
                        DecodeStatus,
                        DecodeError,
                    >(error)
                    &&& final(self)@ == old(self)@
                },
            },
            final(decoder).finished() == (old(decoder).finished() || outcome matches Ok(
                (_, DecodeStatus::Finished),
            )),
            old(decoder).is_brotli() ==> final(decoder).is_brotli(),
    {
        proof {
            use_type_invariant(&*self);
        }
        let cursor = self.cursor;
        let ghost before = self.buffer@;
        let ghost start = decoder@;
        let result = {
            let window: &mut [u8] = &mut self.buffer;
            let (_, spare) = window.split_at_mut(cursor);
            decoder.decode(input, spare)
        };
        let ghost written = self.buffer@.skip(cursor as int).take(N - cursor - result.output_remain);
        proof {
            assert(self.buffer@.take(cursor as int) =~= before.take(cursor as int));
            assert(decoder@.produced == start.produced + written);
            assert(decoder@.produced_since(start) =~= written);
            assert(decoder@.calls.last() == Call {
                input: input@,
                room: (N - cursor) as nat,
                result,
            });
        }
        match result.status {
            Ok(status) => {
                self.cursor = cursor + (N - cursor - result.output_remain);
                assert(self.buffer@.take(self.cursor as int) =~= before.take(cursor as int) + written);
                Ok((input.len() - result.input_remain, status))
            },
            Err(error) => Err(error),
        }
    }
}

} // verus!
