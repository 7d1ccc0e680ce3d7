//! Brotli decoding by the `brotli` crate.
use vstd::prelude::*;
use vstd::slice::slice_subrange;
use brotli::BrotliState;
use brotli::enc::StandardAlloc;
use super::{Call, Decode, DecodeError, DecodeStatus, Decoder, Interface};

verus! {

/// The most input handed to the stream function in one call. It refuses, for
/// good, an input that ends beyond `u32::MAX`.
pub const MAX_INPUT: usize = 0x4000_0000;

/// Result code of the stream function: the stream is broken.
pub const RESULT_FAILURE: i32 = 0;

/// Result code of the stream function: the stream is complete.
pub const RESULT_SUCCESS: i32 = 1;

/// Result code of the stream function: all input was used up.
pub const RESULT_NEEDS_MORE_INPUT: i32 = 2;

/// Result code of the stream function: the output buffer is full.
pub const RESULT_NEEDS_MORE_OUTPUT: i32 = 3;

/// What a result code of the stream function means to a caller of this
/// library. `error_code` is the code that the state holds, which counts only
/// after a failure.
pub open spec fn status_for(result: i32, error_code: i32) -> Result<DecodeStatus, DecodeError> {
    if result == RESULT_SUCCESS {
        Ok(DecodeStatus::Finished)
    } else if result == RESULT_NEEDS_MORE_INPUT {
        Ok(DecodeStatus::NeedInput)
    } else if result == RESULT_NEEDS_MORE_OUTPUT {
        Ok(DecodeStatus::NeedOutput)
    } else if result == RESULT_FAILURE {
        Err(DecodeError(error_code))
    } else {
        Err(DecodeError(result))
    }
}

/// Turns a result code of the stream function into a status.
pub fn status_of(result: i32, error_code: i32) -> (status: Result<DecodeStatus, DecodeError>)
    ensures
        status == status_for(result, error_code),
{
    if result == RESULT_SUCCESS {
        Ok(DecodeStatus::Finished)
    } else if result == RESULT_NEEDS_MORE_INPUT {
        Ok(DecodeStatus::NeedInput)
    } else if result == RESULT_NEEDS_MORE_OUTPUT {
        Ok(DecodeStatus::NeedOutput)
    } else if result == RESULT_FAILURE {
        Err(DecodeError::from_raw(error_code))
    } else {
        Err(DecodeError::from_raw(result))
    }
}

/// How much of an input of `input_len` bytes is left after a call of the
/// stream function that was offered its first `offered` bytes and left `left`
/// of those. Counts that do not fit together are read as a call that took
/// nothing.
pub open spec fn remain_for(input_len: usize, offered: usize, left: usize) -> int {
    if left <= offered <= input_len {
        input_len - offered + left
    } else {
        input_len as int
    }
}

/// The outcome of a call of the stream function on the first `offered` bytes
/// of an input of `input_len` bytes, which returned `result`, left `left_in`
/// of the bytes offered and `left_out` of the output buffer, and after which
/// the state held `error_code`.
pub open spec fn outcome_for(
    input_len: usize,
    offered: usize,
    left_in: usize,
    left_out: usize,
    result: i32,
    error_code: i32,
) -> Decode {
    Decode {
        input_remain: remain_for(input_len, offered, left_in) as usize,
        output_remain: left_out,
        status: status_for(result, error_code),
    }
}

/// Puts the outcome of a call of the stream function together from what it
/// returned and left.
pub fn outcome(
    input_len: usize,
    offered: usize,
    left_in: usize,
    left_out: usize,
    result: i32,
    error_code: i32,
) -> (decode: Decode)
    ensures
        decode == outcome_for(input_len, offered, left_in, left_out, result, error_code),
        decode.input_remain <= input_len,
{
    let input_remain = if left_in <= offered && offered <= input_len {
        input_len - offered + left_in
    } else {
        input_len
    };
    Decode { input_remain, output_remain: left_out, status: status_of(result, error_code) }
}

/// How many bytes of an input of `len` bytes go into one call of the stream
/// function: all of them, up to [`MAX_INPUT`].
pub open spec fn offer_for(len: nat) -> nat {
    if len > MAX_INPUT {
        MAX_INPUT as nat
    } else {
        len
    }
}

/// Decoder instance: the state of one Brotli stream, a `brotli::BrotliState`
/// on the standard allocator. Nothing of what is in it is known here.
#[verifier::external_body]
pub struct BrotliDecoder {
    state: BrotliState<StandardAlloc, StandardAlloc, StandardAlloc>,
}

/// The calls of `brotli::BrotliDecompressStream` that a decoder state has
/// been through since `BrotliState::new` made it: of each call the input
/// and the size of the output buffer, in order.
pub uninterp spec fn offers(instance: BrotliDecoder) -> Seq<(Seq<u8>, nat)>;

/// What `brotli::BrotliDecompressStream` comes to when it is called on
/// `input` and an output buffer of `room` bytes, in a state that has been
/// through the calls `before`: its result as a number, what it leaves of
/// `available_in` and `available_out`, and the bytes that it writes to the
/// front of the output buffer.
pub uninterp spec fn decompressed(before: Seq<(Seq<u8>, nat)>, input: Seq<u8>, room: nat) -> (
    i32,
    usize,
    usize,
    Seq<u8>,
);

/// The error code that a decoder state holds when it has been through the
/// calls `through`: the reason of its last failure.
pub uninterp spec fn error_held(through: Seq<(Seq<u8>, nat)>) -> i32;

/// `BrotliState::new` with the standard allocator: a decoder state at the
/// start of a stream, which has been through no call.
#[verifier::external_body]
fn new_state() -> (instance: BrotliDecoder)
    ensures
        offers(instance) == Seq::<(Seq<u8>, nat)>::empty(),
{
    let state = BrotliState::new(
        StandardAlloc::default(),
        StandardAlloc::default(),
        StandardAlloc::default(),
    );
    BrotliDecoder { state }
}

/// `brotli::BrotliDecompressStream`, called on all of `input` and all of
/// `output`. Returns its result as a number, and what it left of
/// `available_in` and `available_out`: it only ever lowers the two, by the
/// bytes that it took from the front of `input` and wrote to the front of
/// `output`. What it returns and writes depends on the calls that the state
/// has been through, the input and the size of the output buffer, and on
/// nothing else; the state has then been through one call more.
#[verifier::external_body]
fn decompress_stream(
    instance: &mut BrotliDecoder,
    input: &[u8],
    output: &mut [u8],
) -> (answer: (i32, usize, usize))
    requires
        input@.len() <= MAX_INPUT,
    ensures
        (answer.0, answer.1, answer.2, final(output)@.take(old(output)@.len() - answer.2))
            == decompressed(offers(*old(instance)), input@, old(output)@.len()),
        offers(*final(instance)) == offers(*old(instance)).push((input@, old(output)@.len())),
        answer.1 <= input@.len(),
        answer.2 <= old(output)@.len(),
        final(output)@.len() == old(output)@.len(),
{
    let mut available_in = input.len();
    let mut available_out = output.len();
    let result = brotli::BrotliDecompressStream(
        &mut available_in,
        &mut 0,
        input,
        &mut available_out,
        &mut 0,
        output,
        &mut 0,
        &mut instance.state,
    );
    (result as i32, available_in, available_out)
}

/// The field `error_code` of the state, as a number: the reason of the last
/// failure. It depends on the calls that the state has been through, and on
/// nothing else.
#[verifier::external_body]
fn error_code(instance: &BrotliDecoder) -> (code: i32)
    ensures
        code == error_held(offers(*instance)),
{
    instance.state.error_code as i32
}

/// What a call of a decoder offers to the stream function: the first bytes
/// of `input`, as many as go into one call, and all of an output buffer of
/// `room` bytes.
pub open spec fn offer_of(input: Seq<u8>, room: nat) -> (Seq<u8>, nat) {
    (input.take(offer_for(input.len()) as int), room)
}

/// What the stream function was offered in each of `calls`.
pub open spec fn offers_of(calls: Seq<Call>) -> Seq<(Seq<u8>, nat)> {
    Seq::new(calls.len(), |i: int| offer_of(calls[i].input, calls[i].room))
}

/// What a decoder that has been through the calls `before` answers to a call
/// with `input` and an output buffer of `room` bytes. The answer is put
/// together from what the stream function returns and leaves, and from the
/// error code that the state holds after the call.
pub open spec fn answer_after(before: Seq<(Seq<u8>, nat)>, input: Seq<u8>, room: nat) -> Decode {
    let offer = offer_of(input, room);
    let done = decompressed(before, offer.0, room);
    outcome_for(
        input.len() as usize,
        offer.0.len() as usize,
        done.1,
        done.2,
        done.0,
        error_held(before.push(offer)),
    )
}

/// The bytes that a decoder that has been through the calls `before` writes
/// to the front of the output buffer in a call with `input` and an output
/// buffer of `room` bytes.
pub open spec fn written_after(before: Seq<(Seq<u8>, nat)>, input: Seq<u8>, room: nat) -> Seq<u8> {
    decompressed(before, offer_of(input, room).0, room).3
}

/// One more call on record is one more offer to the stream function.
pub proof fn lemma_offers_push(calls: Seq<Call>, call: Call)
    ensures
        offers_of(calls.push(call)) == offers_of(calls).push(offer_of(call.input, call.room)),
{
    assert(offers_of(calls.push(call)) =~= offers_of(calls).push(
        offer_of(call.input, call.room),
    ));
}

impl BrotliDecoder {
    /// An instance at the start of a stream.
    pub fn new() -> (instance: BrotliDecoder)
        ensures
            offers(instance) == Seq::<(Seq<u8>, nat)>::empty(),
    {
        new_state()
    }
}

impl Interface for BrotliDecoder {
    /// The stream function is called on the first bytes of `input`, as many
    /// as go into one call, and on all of the output buffer.
    open spec fn answer(&self, input: Seq<u8>, room: nat) -> Decode {
        answer_after(offers(*self), input, room)
    }

    /// What the stream function writes.
    open spec fn writes(&self, input: Seq<u8>, room: nat) -> Seq<u8> {
        written_after(offers(*self), input, room)
    }

    /// A reset always works.
    open spec fn reset_answer(&self) -> bool {
        true
    }

    /// The name of the code, whatever the state.
    open spec fn description(&self, code: i32) -> Option<&'static str> {
        error_name(code)
    }

    fn decode(&mut self, input: &[u8], output: &mut [u8]) -> (result: Decode)
        ensures
            offers(*final(self)) == offers(*old(self)).push(
                offer_of(input@, old(output)@.len()),
            ),
    {
        let offered_len = if input.len() > MAX_INPUT {
            MAX_INPUT
        } else {
            input.len()
        };
        let offered = slice_subrange(input, 0, offered_len);
        let (code, left_in, left_out) = decompress_stream(self, offered, output);
        outcome(input.len(), offered_len, left_in, left_out, code, error_code(self))
    }

    /// Puts a state at the start of a stream in place of the old one.
    fn reset(&mut self) -> (done: bool)
        ensures
            offers(*final(self)) == Seq::<(Seq<u8>, nat)>::empty(),
    {
        *self = new_state();
        true
    }

    fn describe_error(&self, code: i32) -> (text: Option<&'static str>)
        ensures
            text == error_name(code),
    {
        describe(code)
    }
}

/// The name of a decoder error code, for the codes that have one.
pub open spec fn error_name(code: i32) -> Option<&'static str> {
    if code == 0 {
        Some("NO_ERROR")
    } else if code == -1 {
        Some("ERROR_FORMAT_EXUBERANT_NIBBLE")
    } else if code == -2 {
        Some("ERROR_FORMAT_RESERVED")
    } else if code == -3 {
        Some("ERROR_FORMAT_EXUBERANT_META_NIBBLE")
    } else if code == -4 {
        Some("ERROR_FORMAT_SIMPLE_HUFFMAN_ALPHABET")
    } else if code == -5 {
        Some("ERROR_FORMAT_SIMPLE_HUFFMAN_SAME")
    } else if code == -6 {
        Some("ERROR_FORMAT_FL_SPACE")
    } else if code == -7 {
        Some("ERROR_FORMAT_HUFFMAN_SPACE")
    } else if code == -8 {
        Some("ERROR_FORMAT_CONTEXT_MAP_REPEAT")
    } else if code == -9 {
        Some("ERROR_FORMAT_BLOCK_LENGTH_1")
    } else if code == -10 {
        Some("ERROR_FORMAT_BLOCK_LENGTH_2")
    } else if code == -11 {
        Some("ERROR_FORMAT_TRANSFORM")
    } else if code == -12 {
        Some("ERROR_FORMAT_DICTIONARY")
    } else if code == -13 {
        Some("ERROR_FORMAT_WINDOW_BITS")
    } else if code == -14 {
        Some("ERROR_FORMAT_PADDING_1")
    } else if code == -15 {
        Some("ERROR_FORMAT_PADDING_2")
    } else if code == -16 {
        Some("ERROR_FORMAT_DISTANCE")
    } else if code == -19 {
        Some("ERROR_DICTIONARY_NOT_SET")
    } else if code == -20 {
        Some("ERROR_INVALID_ARGUMENTS")
    } else if code == -21 {
        Some("ERROR_ALLOC_CONTEXT_MODES")
    } else if code == -22 {
        Some("ERROR_ALLOC_TREE_GROUPS")
    } else if code == -25 {
        Some("ERROR_ALLOC_CONTEXT_MAP")
    } else if code == -26 {
        Some("ERROR_ALLOC_RING_BUFFER_1")
    } else if code == -27 {
        Some("ERROR_ALLOC_RING_BUFFER_2")
    } else if code == -30 {
        Some("ERROR_ALLOC_BLOCK_TYPE_TREES")
    } else if code == -31 {
        Some("ERROR_UNREACHABLE")
    } else {
        None
    }
}

/// Text for a decoder error code: its name, without the common prefix.
/// Codes -17, -18, -23, -24, -28 and -29 are reserved and have none.
pub fn describe(code: i32) -> (text: Option<&'static str>)
    ensures
        text == error_name(code),
{
    match code {
        0 => Some("NO_ERROR"),
        -1 => Some("ERROR_FORMAT_EXUBERANT_NIBBLE"),
        -2 => Some("ERROR_FORMAT_RESERVED"),
        -3 => Some("ERROR_FORMAT_EXUBERANT_META_NIBBLE"),
        -4 => Some("ERROR_FORMAT_SIMPLE_HUFFMAN_ALPHABET"),
        -5 => Some("ERROR_FORMAT_SIMPLE_HUFFMAN_SAME"),
        -6 => Some("ERROR_FORMAT_FL_SPACE"),
        -7 => Some("ERROR_FORMAT_HUFFMAN_SPACE"),
        -8 => Some("ERROR_FORMAT_CONTEXT_MAP_REPEAT"),
        -9 => Some("ERROR_FORMAT_BLOCK_LENGTH_1"),
        -10 => Some("ERROR_FORMAT_BLOCK_LENGTH_2"),
        -11 => Some("ERROR_FORMAT_TRANSFORM"),
        -12 => Some("ERROR_FORMAT_DICTIONARY"),
        -13 => Some("ERROR_FORMAT_WINDOW_BITS"),
        -14 => Some("ERROR_FORMAT_PADDING_1"),
        -15 => Some("ERROR_FORMAT_PADDING_2"),
        -16 => Some("ERROR_FORMAT_DISTANCE"),
        -19 => Some("ERROR_DICTIONARY_NOT_SET"),
        -20 => Some("ERROR_INVALID_ARGUMENTS"),
        -21 => Some("ERROR_ALLOC_CONTEXT_MODES"),
        -22 => Some("ERROR_ALLOC_TREE_GROUPS"),
        -25 => Some("ERROR_ALLOC_CONTEXT_MAP"),
        -26 => Some("ERROR_ALLOC_RING_BUFFER_1"),
        -27 => Some("ERROR_ALLOC_RING_BUFFER_2"),
        -30 => Some("ERROR_ALLOC_BLOCK_TYPE_TREES"),
        -31 => Some("ERROR_UNREACHABLE"),
        _ => None,
    }
}

impl dyn Interface {
    /// A decoder for Brotli streams.
    pub fn brotli_rust() -> (decoder: Decoder)
        ensures
            decoder@ == super::Transcript::empty(),
            !decoder.finished(),
            decoder.is_brotli(),
    {
        Decoder::with_brotli(BrotliDecoder::new())
    }
}

} // verus!
