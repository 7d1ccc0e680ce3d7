//! Decoding: format detection, the codec interface, and the handle that
//! drives a codec over caller-owned buffers.
use vstd::prelude::*;
use vstd::slice::slice_subrange;
use std::collections::TryReserveError;
use bytes::BytesMut;
use crate::buf::{as_mut_slice, chunk_room, contents, remaining_mut, resize, truncate};
use crate::growth::{capacity, try_reserve_exact, GrowthPolicy};

pub mod brotli_rust;
pub mod zlib;
pub mod zstd;

pub use zlib::ZlibMode;
pub use zstd::ZstdOptions;

verus! {

/// Compression container recognised from the first bytes of a stream.
#[derive(Debug, Clone, Copy, PartialEq, Eq, Structural)]
pub enum Detection {
    /// Zstandard frame.
    Zstd,
    /// Gzip member.
    Gzip,
    /// Zlib stream.
    Zlib,
    /// Four bytes were available and none of the known signatures matched.
    Unknown,
}

/// The two bytes `1f 8b` that open every gzip member.
pub open spec fn is_gzip_magic(bytes: Seq<u8>) -> bool {
    bytes.len() >= 2 && bytes[0] == 0x1f && bytes[1] == 0x8b
}

/// The flag bytes that may follow the method byte `cmf` of a zlib header:
/// one per compression level, each completing the check value.
pub open spec fn is_zlib_flag(cmf: u8, flg: u8) -> bool {
    if cmf == 0x08 {
        flg == 0x1d || flg == 0x5b || flg == 0x99 || flg == 0xd7
    } else if cmf == 0x18 {
        flg == 0x19 || flg == 0x57 || flg == 0x95 || flg == 0xd3
    } else if cmf == 0x28 {
        flg == 0x15 || flg == 0x53 || flg == 0x91 || flg == 0xcf
    } else if cmf == 0x38 {
        flg == 0x11 || flg == 0x4f || flg == 0x8d || flg == 0xcb
    } else if cmf == 0x48 {
        flg == 0x0d || flg == 0x4b || flg == 0x89 || flg == 0xc7
    } else if cmf == 0x58 {
        flg == 0x09 || flg == 0x47 || flg == 0x85 || flg == 0xc3
    } else if cmf == 0x68 {
        flg == 0x05 || flg == 0x43 || flg == 0x81 || flg == 0xde
    } else if cmf == 0x78 {
        flg == 0x01 || flg == 0x5e || flg == 0x9c || flg == 0xda
    } else {
        false
    }
}

/// A zlib header: the two bytes, read as one big-endian number, are a
/// multiple of 31, and the second is one of the flag bytes of the first.
pub open spec fn is_zlib_header(bytes: Seq<u8>) -> bool {
    &&& bytes.len() >= 2
    &&& (bytes[0] as int * 256 + bytes[1] as int) % 31 == 0
    &&& is_zlib_flag(bytes[0], bytes[1])
}

/// The four bytes `28 b5 2f fd`: the Zstandard magic number `0xFD2FB528`,
/// least significant byte first.
pub open spec fn is_zstd_magic(bytes: Seq<u8>) -> bool {
    &&& bytes.len() >= 4
    &&& bytes[0] == 0x28
    &&& bytes[1] == 0xb5
    &&& bytes[2] == 0x2f
    &&& bytes[3] == 0xfd
}

/// What the first bytes of a stream say about its format. `None` means that
/// more bytes are needed before every signature can be ruled out.
pub open spec fn detected(bytes: Seq<u8>) -> Option<Detection> {
    if bytes.len() < 2 {
        None
    } else if is_gzip_magic(bytes) {
        Some(Detection::Gzip)
    } else if is_zlib_header(bytes) {
        Some(Detection::Zlib)
    } else if bytes.len() < 4 {
        None
    } else if is_zstd_magic(bytes) {
        Some(Detection::Zstd)
    } else {
        Some(Detection::Unknown)
    }
}

fn zlib_flag_matches(cmf: u8, flg: u8) -> (matches: bool)
    ensures
        matches == is_zlib_flag(cmf, flg),
{
    if cmf == 0x08 {
        flg == 0x1d || flg == 0x5b || flg == 0x99 || flg == 0xd7
    } else if cmf == 0x18 {
        flg == 0x19 || flg == 0x57 || flg == 0x95 || flg == 0xd3
    } else if cmf == 0x28 {
        flg == 0x15 || flg == 0x53 || flg == 0x91 || flg == 0xcf
    } else if cmf == 0x38 {
        flg == 0x11 || flg == 0x4f || flg == 0x8d || flg == 0xcb
    } else if cmf == 0x48 {
        flg == 0x0d || flg == 0x4b || flg == 0x89 || flg == 0xc7
    } else if cmf == 0x58 {
        flg == 0x09 || flg == 0x47 || flg == 0x85 || flg == 0xc3
    } else if cmf == 0x68 {
        flg == 0x05 || flg == 0x43 || flg == 0x81 || flg == 0xde
    } else if cmf == 0x78 {
        flg == 0x01 || flg == 0x5e || flg == 0x9c || flg == 0xda
    } else {
        false
    }
}

impl Detection {
    /// Deduces the compression format from the bytes available so far.
    ///
    /// Returns `None` when there are too few bytes to decide; append more
    /// and ask again.
    pub fn detect(bytes: &[u8]) -> (found: Option<Detection>)
        ensures
            found == detected(bytes@),
    {
        if bytes.len() < 2 {
            return None;
        }
        let first: u8 = bytes[0];
        let second: u8 = bytes[1];
        if first == 0x1f && second == 0x8b {
            return Some(Detection::Gzip);
        }
        let word: u16 = (first as u16) * 256 + (second as u16);
        if word % 31 == 0 && zlib_flag_matches(first, second) {
            return Some(Detection::Zlib);
        }
        if bytes.len() < 4 {
            return None;
        }
        if first == 0x28 && second == 0xb5 && bytes[2] == 0x2f && bytes[3] == 0xfd {
            Some(Detection::Zstd)
        } else {
            Some(Detection::Unknown)
        }
    }
}

/// A format, once detected, stays detected however many bytes follow.
pub proof fn lemma_detection_is_stable(bytes: Seq<u8>, more: Seq<u8>)
    requires
        detected(bytes) is Some,
    ensures
        detected(bytes + more) == detected(bytes),
{
    let longer = bytes + more;
    assert(longer[0] == bytes[0]);
    assert(longer[1] == bytes[1]);
    if bytes.len() >= 4 {
        assert(longer[2] == bytes[2]);
        assert(longer[3] == bytes[3]);
    }
}

/// Codec-specific error code. Only the codec that produced it can say what
/// it means; zero is reserved for "no error".
#[derive(Debug, Clone, Copy, PartialEq, Eq, Structural)]
pub struct DecodeError(pub i32);

impl DecodeError {
    /// The code that means no error: zero.
    pub fn no_error() -> (error: DecodeError)
        ensures
            error == DecodeError(0),
    {
        DecodeError(0)
    }

    /// Wraps a codec's raw code.
    pub fn from_raw(code: i32) -> (error: DecodeError)
        ensures
            error == DecodeError(code),
    {
        DecodeError(code)
    }

    /// The raw code.
    pub fn as_raw(&self) -> (code: i32)
        ensures
            code == self.0,
    {
        self.0
    }
}

/// How a decoding call ended, when the codec found nothing wrong.
#[derive(Debug, Clone, Copy, PartialEq, Eq, Structural)]
pub enum DecodeStatus {
    /// All input was taken and the stream goes on.
    NeedInput,
    /// The output buffer is full; make room and pass the unconsumed input again.
    NeedOutput,
    /// The stream is complete.
    Finished,
}

/// Outcome of one decoding call.
#[derive(Debug, Clone, Copy, PartialEq, Eq)]
pub struct Decode {
    /// Bytes at the end of the input that the codec did not take.
    pub input_remain: usize,
    /// Bytes at the end of the output buffer that the codec did not fill.
    pub output_remain: usize,
    /// How the call ended.
    pub status: Result<DecodeStatus, DecodeError>,
}

/// Outcome of a push into one of the high-level decompressors: the status and
/// the error code of a [`Decode`] in one value.
#[derive(Debug, Clone, Copy, PartialEq, Eq, Structural)]
pub enum DecoderResult {
    /// More input is needed.
    NeedInput,
    /// More output room is needed.
    NeedOutput,
    /// Decoding failed and no code is known.
    Error,
    /// The stream is complete.
    Finished,
    /// Decoding failed with this codec-specific code.
    Other(i32),
}

impl DecoderResult {
    /// The result that stands for `status`.
    pub open spec fn of(status: Result<DecodeStatus, DecodeError>) -> DecoderResult {
        match status {
            Ok(DecodeStatus::NeedInput) => DecoderResult::NeedInput,
            Ok(DecodeStatus::NeedOutput) => DecoderResult::NeedOutput,
            Ok(DecodeStatus::Finished) => DecoderResult::Finished,
            Err(error) => DecoderResult::Other(error.0),
        }
    }

    /// Folds a call's status into one value.
    pub fn from_status(status: Result<DecodeStatus, DecodeError>) -> (result: DecoderResult)
        ensures
            result == DecoderResult::of(status),
    {
        match status {
            Ok(DecodeStatus::NeedInput) => DecoderResult::NeedInput,
            Ok(DecodeStatus::NeedOutput) => DecoderResult::NeedOutput,
            Ok(DecodeStatus::Finished) => DecoderResult::Finished,
            Err(error) => DecoderResult::Other(error.as_raw()),
        }
    }
}

/// One call that reached a codec: what it was offered and what it answered.
pub ghost struct Call {
    /// The input offered.
    pub input: Seq<u8>,
    /// The length of the output buffer offered.
    pub room: nat,
    /// The codec's answer.
    pub result: Decode,
}

impl Call {
    /// How many input bytes the codec took.
    pub open spec fn taken(self) -> int {
        self.input.len() - self.result.input_remain
    }

    /// How many output bytes the codec wrote.
    pub open spec fn written(self) -> int {
        self.room - self.result.output_remain
    }

    /// The call changed nothing: no input taken, no output written.
    pub open spec fn is_idle(self) -> bool {
        self.taken() == 0 && self.written() == 0
    }
}

/// Everything a codec instance has seen since it was created or last reset.
pub ghost struct Transcript {
    /// All input bytes taken, in order.
    pub consumed: Seq<u8>,
    /// All output bytes written, in order.
    pub produced: Seq<u8>,
    /// Every call, oldest first.
    pub calls: Seq<Call>,
    /// How many resets have failed since the handle was made or last reset
    /// with success. While it is not zero, the codec is in no defined state.
    pub failed_resets: nat,
}

impl Transcript {
    /// The transcript of a fresh instance.
    pub open spec fn empty() -> Transcript {
        Transcript {
            consumed: Seq::empty(),
            produced: Seq::empty(),
            calls: Seq::empty(),
            failed_resets: 0,
        }
    }

    /// The transcript after one more call, in which the codec was offered
    /// `input` and a buffer of `room` bytes, answered `result` and left the
    /// buffer holding `output`.
    pub open spec fn after(self, input: Seq<u8>, room: nat, result: Decode, output: Seq<u8>) -> Transcript {
        Transcript {
            consumed: self.consumed + input.take(input.len() - result.input_remain),
            produced: self.produced + output.take(room - result.output_remain),
            calls: self.calls.push(Call { input, room, result }),
            failed_resets: self.failed_resets,
        }
    }

    /// The transcript after a reset that failed: one more failure on record,
    /// and nothing else new.
    pub open spec fn after_failed_reset(self) -> Transcript {
        Transcript { failed_resets: self.failed_resets + 1, ..self }
    }

    /// No reset has failed: the codec is in the state that its calls have
    /// left it in.
    pub open spec fn is_sound(self) -> bool {
        self.failed_resets == 0
    }

    /// `self` is `earlier` and one more call, `call`: the input that the call
    /// took and the output that it wrote are on record, and nothing else is
    /// new.
    pub open spec fn advanced_by(self, earlier: Transcript, call: Call) -> bool {
        &&& self.calls == earlier.calls.push(call)
        &&& self.consumed == earlier.consumed + call.input.take(call.taken())
        &&& earlier.produced.is_prefix_of(self.produced)
        &&& self.produced.len() == earlier.produced.len() + call.written()
        &&& self.failed_resets == earlier.failed_resets
    }

    /// The calls made since the transcript was `earlier`.
    pub open spec fn calls_since(self, earlier: Transcript) -> Seq<Call> {
        self.calls.skip(earlier.calls.len() as int)
    }

    /// The output written since the transcript was `earlier`.
    pub open spec fn produced_since(self, earlier: Transcript) -> Seq<u8> {
        self.produced.skip(earlier.produced.len() as int)
    }

    /// The input taken since the transcript was `earlier`.
    pub open spec fn consumed_since(self, earlier: Transcript) -> Seq<u8> {
        self.consumed.skip(earlier.consumed.len() as int)
    }

    /// `self` continues `earlier`: nothing recorded was lost or changed,
    /// and there was no reset in between.
    pub open spec fn extends(self, earlier: Transcript) -> bool {
        &&& earlier.consumed.is_prefix_of(self.consumed)
        &&& earlier.produced.is_prefix_of(self.produced)
        &&& earlier.calls.is_prefix_of(self.calls)
        &&& self.failed_resets == earlier.failed_resets
    }
}

/// The call was offered a suffix of `input` and took no more than that.
pub open spec fn offered_suffix(call: Call, input: Seq<u8>) -> bool {
    &&& call.result.input_remain <= call.input.len() <= input.len()
    &&& call.input == input.skip(input.len() - call.input.len())
}

/// The calls stream `input` without a gap: the first is offered all of it,
/// each later one exactly what the call before left unconsumed.
pub open spec fn streams(calls: Seq<Call>, input: Seq<u8>) -> bool {
    &&& forall|i: int| 0 <= i < calls.len() ==> offered_suffix(#[trigger] calls[i], input)
    &&& calls.len() > 0 ==> calls[0].input == input
    &&& forall|i: int, j: int|
        0 <= i && j == i + 1 && j < calls.len() ==> (#[trigger] calls[j]).input.len() == (
        #[trigger] calls[i]).result.input_remain
}

/// One of the calls completed the stream.
pub open spec fn any_finished(calls: Seq<Call>) -> bool {
    exists|i: int|
        0 <= i < calls.len() && (#[trigger] calls[i]).result.status == Ok::<DecodeStatus, DecodeError>(
            DecodeStatus::Finished,
        )
}

/// One more call completes the stream if it answers `Finished` or the stream
/// was complete before.
pub(crate) proof fn lemma_any_finished_push(calls: Seq<Call>, call: Call)
    ensures
        any_finished(calls.push(call)) == (any_finished(calls) || call.result.status == Ok::<
            DecodeStatus,
            DecodeError,
        >(DecodeStatus::Finished)),
        !any_finished(Seq::<Call>::empty()),
{
    let longer = calls.push(call);
    if any_finished(calls) {
        let i = choose|i: int|
            0 <= i < calls.len() && (#[trigger] calls[i]).result.status == Ok::<
                DecodeStatus,
                DecodeError,
            >(DecodeStatus::Finished);
        assert(longer[i] == calls[i]);
    }
    if call.result.status == Ok::<DecodeStatus, DecodeError>(DecodeStatus::Finished) {
        assert(longer[calls.len() as int] == call);
    }
    if any_finished(longer) {
        let i = choose|i: int|
            0 <= i < longer.len() && (#[trigger] longer[i]).result.status == Ok::<
                DecodeStatus,
                DecodeError,
            >(DecodeStatus::Finished);
        if i < calls.len() {
            assert(longer[i] == calls[i]);
        }
    }
}

/// How many of the calls asked for more input.
pub open spec fn starved(calls: Seq<Call>) -> nat
    decreases calls.len(),
{
    if calls.len() == 0 {
        0
    } else if calls.last().result.status == Ok::<DecodeStatus, DecodeError>(
        DecodeStatus::NeedInput,
    ) {
        starved(calls.drop_last()) + 1
    } else {
        starved(calls.drop_last())
    }
}

/// Calls that ask for more input are counted one row of calls after the
/// other.
pub proof fn lemma_starved_add(first: Seq<Call>, second: Seq<Call>)
    ensures
        starved(first + second) == starved(first) + starved(second),
    decreases second.len(),
{
    if second.len() == 0 {
        assert(first + second =~= first);
    } else {
        assert((first + second).drop_last() =~= first + second.drop_last());
        assert((first + second).last() == second.last());
        lemma_starved_add(first, second.drop_last());
    }
}

/// Calls that all ran out of output room did not ask for more input.
pub proof fn lemma_starved_paused(calls: Seq<Call>)
    requires
        all_paused(calls),
    ensures
        starved(calls) == 0,
    decreases calls.len(),
{
    if calls.len() > 0 {
        assert(calls.last() == calls[calls.len() - 1]);
        assert forall|i: int| 0 <= i < calls.drop_last().len() implies (
        #[trigger] calls.drop_last()[i]).result.status == Ok::<DecodeStatus, DecodeError>(
            DecodeStatus::NeedOutput,
        ) by {
            assert(calls.drop_last()[i] == calls[i]);
        }
        lemma_starved_paused(calls.drop_last());
    }
}

/// Every call ran out of output room.
pub open spec fn all_paused(calls: Seq<Call>) -> bool {
    forall|i: int|
        0 <= i < calls.len() ==> (#[trigger] calls[i]).result.status == Ok::<
            DecodeStatus,
            DecodeError,
        >(DecodeStatus::NeedOutput)
}

/// Every call but the last ran out of output room.
pub open spec fn paused_for_output(calls: Seq<Call>) -> bool {
    calls.len() > 0 ==> all_paused(calls.drop_last())
}

/// How much of `input` is left after `calls`: what the last call left, or
/// all of it when there was no call.
pub open spec fn unconsumed(calls: Seq<Call>, input: Seq<u8>) -> int {
    if calls.len() == 0 {
        input.len() as int
    } else {
        calls.last().result.input_remain as int
    }
}

/// The part of `produced` that ends up in the caller's buffer: all of it,
/// except what the last call wrote if that call reported an error.
pub open spec fn kept(calls: Seq<Call>, produced: Seq<u8>) -> Seq<u8> {
    if calls.len() > 0 && calls.last().result.status is Err {
        produced.take(produced.len() - calls.last().written())
    } else {
        produced
    }
}

/// What [`Decoder::decode_vec_full`] promises of the calls it made and of
/// its outcome, for an input of `len` bytes.
///
/// With `Ok`, there was at least one call, the outcome is the answer of the
/// last, and every call before it answered `NeedOutput`; if the outcome is
/// itself `NeedOutput`, the last call changed nothing. With `Err`, every call
/// answered `NeedOutput`; if there was no call at all, it was the
/// reservation up front that failed, which is made only where the policy
/// has something to reserve.
pub open spec fn grown_until(calls: Seq<Call>, len: nat, outcome: Result<Decode, TryReserveError>) -> bool {
    match outcome {
        Ok(result) => {
            &&& calls.len() >= 1
            &&& calls.last().result == result
            &&& paused_for_output(calls)
            &&& result.status == Ok::<DecodeStatus, DecodeError>(DecodeStatus::NeedOutput)
                ==> calls.last().is_idle()
        },
        Err(_) => {
            &&& all_paused(calls)
            &&& calls.len() == 0 ==> crate::growth::decode_reserve(len as int) > 0
        },
    }
}

/// A transcript that is `earlier` with `calls`, `produced` and `consumed`
/// appended has exactly these as what came since.
pub(crate) proof fn lemma_since(
    earlier: Transcript,
    later: Transcript,
    calls: Seq<Call>,
    produced: Seq<u8>,
    consumed: Seq<u8>,
)
    requires
        later.calls == earlier.calls + calls,
        later.produced == earlier.produced + produced,
        later.consumed == earlier.consumed + consumed,
        later.failed_resets == earlier.failed_resets,
    ensures
        later.extends(earlier),
        later.calls_since(earlier) == calls,
        later.produced_since(earlier) == produced,
        later.consumed_since(earlier) == consumed,
{
    assert(later.calls_since(earlier) =~= calls);
    assert(later.produced_since(earlier) =~= produced);
    assert(later.consumed_since(earlier) =~= consumed);
}

/// What came since `earlier` is what came between `earlier` and `middle`,
/// and then what came since `middle`.
pub proof fn lemma_since_then(earlier: Transcript, middle: Transcript, later: Transcript)
    requires
        middle.extends(earlier),
        later.extends(middle),
    ensures
        later.extends(earlier),
        later.calls_since(earlier) == middle.calls_since(earlier) + later.calls_since(middle),
        later.produced_since(earlier) == middle.produced_since(earlier) + later.produced_since(
            middle,
        ),
        later.consumed_since(earlier) == middle.consumed_since(earlier) + later.consumed_since(
            middle,
        ),
{
    assert(later.calls_since(earlier) =~= middle.calls_since(earlier) + later.calls_since(middle));
    assert(later.produced_since(earlier) =~= middle.produced_since(earlier)
        + later.produced_since(middle));
    assert(later.consumed_since(earlier) =~= middle.consumed_since(earlier)
        + later.consumed_since(middle));
}

/// Calls that all ran out of output room, and one more that did.
pub(crate) proof fn lemma_one_more_paused(calls: Seq<Call>, call: Call)
    requires
        all_paused(calls),
        call.result.status == Ok::<DecodeStatus, DecodeError>(DecodeStatus::NeedOutput),
    ensures
        all_paused(calls.push(call)),
{
    let longer = calls.push(call);
    assert forall|i: int| 0 <= i < longer.len() implies (#[trigger] longer[i]).result.status == Ok::<
        DecodeStatus,
        DecodeError,
    >(DecodeStatus::NeedOutput) by {
        if i < calls.len() {
            assert(longer[i] == calls[i]);
        }
    }
}

/// One more call in a row of calls that stream `input`: `call`, offered what
/// was left of `input` at `offset`, takes the transcript from `earlier` to
/// `later`.
pub(crate) proof fn lemma_round(
    start: Transcript,
    earlier: Transcript,
    later: Transcript,
    calls: Seq<Call>,
    made: Seq<u8>,
    input: Seq<u8>,
    offset: int,
    call: Call,
)
    requires
        0 <= offset <= input.len(),
        earlier.calls == start.calls + calls,
        earlier.failed_resets == start.failed_resets,
        earlier.produced == start.produced + made,
        earlier.consumed == start.consumed + input.take(offset),
        streams(calls, input),
        unconsumed(calls, input) == input.len() - offset,
        call.input == input.subrange(offset, input.len() as int),
        call.result.input_remain <= call.input.len(),
        call.result.output_remain <= call.room,
        later.advanced_by(earlier, call),
    ensures
        later.extends(start),
        later.calls == start.calls + calls.push(call),
        later.calls_since(start) == calls.push(call),
        later.produced == start.produced + (made + later.produced_since(earlier)),
        later.produced_since(start) == made + later.produced_since(earlier),
        later.produced_since(earlier).len() == call.written(),
        later.consumed == start.consumed + input.take(offset + call.taken()),
        later.consumed_since(start) == input.take(offset + call.taken()),
        streams(calls.push(call), input),
        calls.push(call).drop_last() == calls,
        calls.push(call).last() == call,
        unconsumed(calls.push(call), input) == call.result.input_remain,
        kept(calls.push(call), made + later.produced_since(earlier)) == if call.result.status is Err {
            made
        } else {
            made + later.produced_since(earlier)
        },
{
    let written = later.produced_since(earlier);
    let longer = calls.push(call);
    assert(later.produced =~= earlier.produced + written);
    assert(later.produced =~= start.produced + (made + written));
    assert(later.calls =~= start.calls + longer);
    assert(input.take(offset) + call.input.take(call.taken()) =~= input.take(offset + call.taken()));
    assert(later.consumed =~= start.consumed + input.take(offset + call.taken()));
    lemma_since(start, later, longer, made + written, input.take(offset + call.taken()));
    assert(call.input =~= input.skip(input.len() - call.input.len()));
    if offset == 0 {
        assert(call.input =~= input);
    }
    assert forall|i: int| 0 <= i < longer.len() implies offered_suffix(
        #[trigger] longer[i],
        input,
    ) by {
        if i < calls.len() {
            assert(longer[i] == calls[i]);
        }
    }
    assert forall|i: int, j: int| 0 <= i && j == i + 1 && j < longer.len() implies (
    #[trigger] longer[j]).input.len() == (#[trigger] longer[i]).result.input_remain by {
        assert(longer[i] == calls[i]);
        if j < calls.len() {
            assert(longer[j] == calls[j]);
        } else {
            assert(calls.last() == calls[i]);
        }
    }
    assert(longer[0].input == input) by {
        if calls.len() > 0 {
            assert(longer[0] == calls[0]);
        }
    }
    assert(longer.last() == call);
    assert(longer.drop_last() =~= calls);
    assert((made + written).take(made.len() as int) =~= made);
}

/// A call that is cut short for want of output room, followed by a call on
/// the input that it left and a fresh buffer, streams the input without a
/// gap: together the two calls have taken a prefix of the input, as long as
/// the second call says, and the codec's output is what the first buffer
/// holds followed by what the second holds.
pub proof fn lemma_resubmit(
    start: Transcript,
    input: Seq<u8>,
    first: Decode,
    first_output: Seq<u8>,
    second: Decode,
    second_output: Seq<u8>,
)
    requires
        first.input_remain <= input.len(),
        first.output_remain <= first_output.len(),
        second.input_remain <= first.input_remain,
        second.output_remain <= second_output.len(),
    ensures
        ({
            let rest = input.skip(input.len() - first.input_remain);
            let middle = start.after(input, first_output.len(), first, first_output);
            let end = middle.after(rest, second_output.len(), second, second_output);
            &&& end.extends(start)
            &&& streams(end.calls_since(start), input)
            &&& end.consumed_since(start) == input.take(input.len() - second.input_remain)
            &&& end.produced_since(start) == first_output.take(
                first_output.len() - first.output_remain,
            ) + second_output.take(second_output.len() - second.output_remain)
        }),
{
    let rest = input.skip(input.len() - first.input_remain);
    let middle = start.after(input, first_output.len(), first, first_output);
    let end = middle.after(rest, second_output.len(), second, second_output);
    let one = Call { input, room: first_output.len(), result: first };
    let two = Call { input: rest, room: second_output.len(), result: second };
    let none = Seq::<Call>::empty();
    let written = first_output.take(first_output.len() - first.output_remain);
    assert(start.calls + none =~= start.calls);
    assert(start.produced + Seq::<u8>::empty() =~= start.produced);
    assert(start.consumed + input.take(0) =~= start.consumed);
    assert(input.subrange(0, input.len() as int) =~= input);
    lemma_round(start, start, middle, none, Seq::empty(), input, 0, one);
    assert(middle.produced_since(start) =~= written);
    assert(Seq::<u8>::empty() + written =~= written);
    lemma_round(
        start,
        middle,
        end,
        none.push(one),
        written,
        input,
        input.len() - first.input_remain,
        two,
    );
    assert(end.produced_since(middle) =~= second_output.take(
        second_output.len() - second.output_remain,
    ));
}

/// The operations of one decoding codec. A [`Decoder`] reaches its codec
/// through these and nothing else.
///
/// An implementation keeps all of its state in `self` and allocates nothing
/// per call. Dropping the value releases the codec.
pub trait Interface {
    /// What the codec answers, in the state it is in, to a call with `input`
    /// and an output buffer of `room` bytes. An implementation that is
    /// verified says here what its `decode` returns. Left as it is, this is
    /// some function of the state, the input and the room of which nothing
    /// else is known: an implementation that is not verified is held to no
    /// more than that its answer depends on these alone.
    open spec fn answer(&self, input: Seq<u8>, room: nat) -> Decode {
        arbitrary::<spec_fn(&Self, Seq<u8>, nat) -> Decode>()(self, input, room)
    }

    /// The bytes that the codec writes to the front of the output buffer,
    /// in the state it is in, in a call with `input` and an output buffer of
    /// `room` bytes. Left as it is, some function of the three.
    open spec fn writes(&self, input: Seq<u8>, room: nat) -> Seq<u8> {
        arbitrary::<spec_fn(&Self, Seq<u8>, nat) -> Seq<u8>>()(self, input, room)
    }

    /// Whether a reset works in the state that the codec is in. Left as it
    /// is, some function of the state.
    open spec fn reset_answer(&self) -> bool {
        arbitrary::<spec_fn(&Self) -> bool>()(self)
    }

    /// The text that the codec, in the state it is in, has for an error
    /// code. Left as it is, some function of the state and the code.
    open spec fn description(&self, code: i32) -> Option<&'static str> {
        arbitrary::<spec_fn(&Self, i32) -> Option<&'static str>>()(self, code)
    }

    /// Decodes from `input` into `output`. Takes a prefix of `input`, writes
    /// a prefix of `output`, and reports how much of each is left.
    fn decode(&mut self, input: &[u8], output: &mut [u8]) -> (result: Decode)
        ensures
            result == old(self).answer(input@, old(output)@.len()),
            result.input_remain <= input@.len(),
            result.output_remain <= old(output)@.len(),
            final(output)@.len() == old(output)@.len(),
            final(output)@.take(old(output)@.len() - result.output_remain) == old(self).writes(
                input@,
                old(output)@.len(),
            ),
    ;

    /// Puts the codec back into its initial state. On `false` the instance
    /// is in no defined state and should be dropped.
    fn reset(&mut self) -> (done: bool)
        ensures
            done == old(self).reset_answer(),
    ;

    /// Text for an error code of this codec. Code zero always has one.
    fn describe_error(&self, code: i32) -> (text: Option<&'static str>)
        ensures
            text == self.description(code),
            code == 0 ==> text is Some,
    ;
}

/// The codec that a handle owns.
enum Codec {
    /// The Brotli decoder of this crate. It is held as what it is, so that
    /// what is known of it is known of its handle.
    Brotli(brotli_rust::BrotliDecoder),
    /// Any other codec.
    Other(Box<dyn Interface>),
}

impl Codec {
    /// What the codec answers, in the state it is in, to a call with `input`
    /// and an output buffer of `room` bytes.
    spec fn answer(&self, input: Seq<u8>, room: nat) -> Decode {
        match self {
            Codec::Brotli(codec) => codec.answer(input, room),
            Codec::Other(codec) => codec.answer(input, room),
        }
    }

    /// The bytes that the codec writes to the front of the output buffer in
    /// such a call.
    spec fn writes(&self, input: Seq<u8>, room: nat) -> Seq<u8> {
        match self {
            Codec::Brotli(codec) => codec.writes(input, room),
            Codec::Other(codec) => codec.writes(input, room),
        }
    }

    /// Whether a reset works in the state that the codec is in.
    spec fn reset_answer(&self) -> bool {
        match self {
            Codec::Brotli(codec) => codec.reset_answer(),
            Codec::Other(codec) => codec.reset_answer(),
        }
    }

    /// The text that the codec has for an error code.
    spec fn description(&self, code: i32) -> Option<&'static str> {
        match self {
            Codec::Brotli(codec) => codec.description(code),
            Codec::Other(codec) => codec.description(code),
        }
    }

    /// The codec is the Brotli decoder and has been through `offers`.
    spec fn is_brotli_through(&self, offers: Seq<(Seq<u8>, nat)>) -> bool {
        match self {
            Codec::Brotli(codec) => brotli_rust::offers(*codec) == offers,
            Codec::Other(_) => false,
        }
    }

    /// One call of the codec.
    fn decode(&mut self, input: &[u8], output: &mut [u8]) -> (result: Decode)
        ensures
            result == old(self).answer(input@, old(output)@.len()),
            result.input_remain <= input@.len(),
            result.output_remain <= old(output)@.len(),
            final(output)@.len() == old(output)@.len(),
            final(output)@.take(old(output)@.len() - result.output_remain) == old(self).writes(
                input@,
                old(output)@.len(),
            ),
            (*final(self) is Brotli) == (*old(self) is Brotli),
            forall|offers: Seq<(Seq<u8>, nat)>| #[trigger]
                old(self).is_brotli_through(offers) ==> final(self).is_brotli_through(
                    offers.push(brotli_rust::offer_of(input@, old(output)@.len())),
                ),
    {
        match self {
            Codec::Brotli(codec) => codec.decode(input, output),
            Codec::Other(codec) => codec.decode(input, output),
        }
    }

    /// Puts the codec back into its initial state.
    fn reset(&mut self) -> (done: bool)
        ensures
            done == old(self).reset_answer(),
            (*final(self) is Brotli) == (*old(self) is Brotli),
            *old(self) is Brotli ==> done && final(self).is_brotli_through(Seq::empty()),
    {
        match self {
            Codec::Brotli(codec) => codec.reset(),
            Codec::Other(codec) => codec.reset(),
        }
    }

    /// Text for an error code of the codec.
    fn describe_error(&self, code: i32) -> (text: Option<&'static str>)
        ensures
            text == self.description(code),
            code == 0 ==> text is Some,
    {
        match self {
            Codec::Brotli(codec) => codec.describe_error(code),
            Codec::Other(codec) => codec.describe_error(code),
        }
    }
}

/// Handle on one decoding codec instance.
///
/// The handle owns the instance; dropping the handle drops it. It keeps the
/// [`Transcript`] of the calls it has passed on, which is what its contracts
/// speak of.
pub struct Decoder {
    instance: Codec,
    finished: bool,
    usable: bool,
    transcript: Ghost<Transcript>,
}

impl View for Decoder {
    type V = Transcript;

    open spec fn view(&self) -> Transcript {
        self.transcript()
    }
}

impl Decoder {
    /// Whether the handle was made for the Brotli decoder of this crate and
    /// holds it as what it is. If the handle is usable, the decoder has
    /// been through the calls on record and no others. A handle of which
    /// this holds stays one; a handle made by [`Decoder::new`] is none,
    /// whatever codec it was given.
    pub closed spec fn is_brotli(&self) -> bool {
        self.instance is Brotli && (self.usable ==> self.instance.is_brotli_through(
            brotli_rust::offers_of(self.transcript@.calls),
        ))
    }

    /// The record of the calls that reached the codec through this handle
    /// since it was made or last reset; `self@` for short.
    pub closed spec fn transcript(&self) -> Transcript {
        Transcript {
            failed_resets: if self.usable {
                0
            } else {
                1
            },
            ..self.transcript@
        }
    }

    /// Whether a call since the last reset has ended with `Finished`.
    pub closed spec fn finished(&self) -> bool {
        self.finished
    }

    /// What the codec of this handle answers, in the state it is in, to a
    /// call with `input` and an output buffer of `room` bytes.
    pub closed spec fn answer(&self, input: Seq<u8>, room: nat) -> Decode {
        self.instance.answer(input, room)
    }

    /// The bytes that the codec of this handle writes to the front of the
    /// output buffer, in the state it is in, in a call with `input` and an
    /// output buffer of `room` bytes.
    pub closed spec fn writes(&self, input: Seq<u8>, room: nat) -> Seq<u8> {
        self.instance.writes(input, room)
    }

    /// Whether a reset of the codec of this handle works in the state that
    /// it is in.
    pub closed spec fn reset_answer(&self) -> bool {
        self.instance.reset_answer()
    }

    /// The text that the codec of this handle has for an error code.
    pub closed spec fn description(&self, code: i32) -> Option<&'static str> {
        self.instance.description(code)
    }

    /// A usable handle on the Brotli decoder of this crate answers as that
    /// decoder does when it has been through the calls on record. Its reset
    /// works, and it describes an error code by the code's name.
    pub proof fn lemma_brotli_answers(&self, input: Seq<u8>, room: nat)
        requires
            self.is_brotli(),
            self@.is_sound(),
        ensures
            self.answer(input, room) == brotli_rust::answer_after(
                brotli_rust::offers_of(self@.calls),
                input,
                room,
            ),
            self.writes(input, room) == brotli_rust::written_after(
                brotli_rust::offers_of(self@.calls),
                input,
                room,
            ),
            self.reset_answer(),
            forall|code: i32| self.description(code) == brotli_rust::error_name(code),
    {
    }

    /// Reset reuse: two usable handles on the Brotli decoder of this crate
    /// whose codecs were offered the same since they were made or last
    /// reset answer the next call alike and write the same bytes in it, and
    /// have been offered the same after it. So they go on alike, call by
    /// call, whatever the input and the buffers. A handle that was reset
    /// has no call on record, as a new one has none: it decodes as a new
    /// handle does.
    pub proof fn lemma_reset_reuse(&self, fresh: &Decoder, input: Seq<u8>, room: nat)
        requires
            self.is_brotli(),
            fresh.is_brotli(),
            self@.is_sound(),
            fresh@.is_sound(),
            brotli_rust::offers_of(self@.calls) == brotli_rust::offers_of(fresh@.calls),
        ensures
            self.answer(input, room) == fresh.answer(input, room),
            self.writes(input, room) == fresh.writes(input, room),
            brotli_rust::offers_of(
                self@.calls.push(Call { input, room, result: self.answer(input, room) }),
            ) == brotli_rust::offers_of(
                fresh@.calls.push(Call { input, room, result: fresh.answer(input, room) }),
            ),
    {
        self.lemma_brotli_answers(input, room);
        fresh.lemma_brotli_answers(input, room);
        brotli_rust::lemma_offers_push(
            self@.calls,
            Call { input, room, result: self.answer(input, room) },
        );
        brotli_rust::lemma_offers_push(
            fresh@.calls,
            Call { input, room, result: fresh.answer(input, room) },
        );
    }

    /// Binds a codec instance to a new handle.
    pub fn new<T: Interface + 'static>(instance: T) -> (decoder: Decoder)
        ensures
            decoder@ == Transcript::empty(),
            !decoder.finished(),
            !decoder.is_brotli(),
    {
        Decoder {
            instance: Codec::Other(Box::new(instance)),
            finished: false,
            usable: true,
            transcript: Ghost(Transcript::empty()),
        }
    }

    /// Binds a Brotli decoder that has been through no call to a new handle.
    pub(crate) fn with_brotli(instance: brotli_rust::BrotliDecoder) -> (decoder: Decoder)
        requires
            brotli_rust::offers(instance) == Seq::<(Seq<u8>, nat)>::empty(),
        ensures
            decoder@ == Transcript::empty(),
            !decoder.finished(),
            decoder.is_brotli(),
    {
        assert(brotli_rust::offers_of(Transcript::empty().calls) =~= Seq::<
            (Seq<u8>, nat),
        >::empty());
        Decoder {
            instance: Codec::Brotli(instance),
            finished: false,
            usable: true,
            transcript: Ghost(Transcript::empty()),
        }
    }

    /// Whether the handle can be used: no reset of it has failed. A handle
    /// that cannot is good for dropping only.
    pub fn is_usable(&self) -> (usable: bool)
        ensures
            usable == self@.is_sound(),
    {
        self.usable
    }

    /// Whether the stream is complete: a call since the last reset has ended
    /// with `Finished`.
    pub fn is_finished(&self) -> (finished: bool)
        ensures
            finished == self.finished(),
    {
        self.finished
    }

    /// Decodes `input` into `output`: one call of the codec, whose answer is
    /// returned as it is.
    pub fn decode(&mut self, input: &[u8], output: &mut [u8]) -> (result: Decode)
        requires
            old(self)@.is_sound(),
        ensures
            result == old(self).answer(input@, old(output)@.len()),
            final(output)@.take(old(output)@.len() - result.output_remain) == old(self).writes(
                input@,
                old(output)@.len(),
            ),
            result.input_remain <= input@.len(),
            result.output_remain <= old(output)@.len(),
            final(output)@.len() == old(output)@.len(),
            final(self)@ == old(self)@.after(input@, old(output)@.len(), result, final(output)@),
            final(self).finished() == (old(self).finished() || result.status == Ok::<
                DecodeStatus,
                DecodeError,
            >(DecodeStatus::Finished)),
            old(self).is_brotli() ==> final(self).is_brotli() && result
                == brotli_rust::answer_after(
                brotli_rust::offers_of(old(self)@.calls),
                input@,
                old(output)@.len(),
            ),
    {
        let ghost room = output@.len();
        let result = self.instance.decode(input, output);
        if let Ok(DecodeStatus::Finished) = result.status {
            self.finished = true;
        }
        proof {
            brotli_rust::lemma_offers_push(
                self.transcript@.calls,
                Call { input: input@, room, result },
            );
            self.transcript@ = self.transcript@.after(input@, room, result, output@);
        }
        result
    }

    /// One call of the codec on the unused part of `output`, whose capacity
    /// the caller has read as `total`.
    fn decode_spare(&mut self, input: &[u8], output: &mut Vec<u8>, total: usize) -> (result: Decode)
        requires
            old(self)@.is_sound(),
            old(output)@.len() <= total,
        ensures
            result == old(self).answer(input@, (total - old(output)@.len()) as nat),
            result.input_remain <= input@.len(),
            result.output_remain <= total - old(output)@.len(),
            final(self)@.advanced_by(
                old(self)@,
                Call { input: input@, room: (total - old(output)@.len()) as nat, result },
            ),
            result.status is Ok ==> final(output)@ == old(output)@ + final(self)@.produced_since(
                old(self)@,
            ),
            result.status is Err ==> final(output)@ == old(output)@,
            final(self).finished() == (old(self).finished() || result.status == Ok::<
                DecodeStatus,
                DecodeError,
            >(DecodeStatus::Finished)),
            old(self).is_brotli() ==> final(self).is_brotli(),
    {
        let len = output.len();
        let ghost before = output@;
        let ghost start = self@;
        output.resize(total, 0u8);
        assert(output@.take(len as int) == before);
        let result = {
            let window = output.as_mut_slice();
            let (_, spare) = window.split_at_mut(len);
            self.decode(input, spare)
        };
        let ghost filled = output@;
        assert(filled.take(len as int) =~= before);
        let ghost written = filled.skip(len as int).take(total - len - result.output_remain);
        assert(self@.produced == start.produced + written);
        assert(self@.produced_since(start) =~= written);
        if result.status.is_ok() {
            output.truncate(total - result.output_remain);
            assert(output@ =~= before + written);
        } else {
            output.truncate(len);
            assert(output@ =~= before);
        }
        result
    }

    /// Decodes `input` into the spare capacity of `output`: one call of the
    /// codec, offered all of `input` and all the room between the length of
    /// `output` and its capacity. Allocates nothing; reserve room beforehand.
    ///
    /// What the codec wrote is appended to `output`, unless it reported an
    /// error: then `output` is left as it was.
    pub fn decode_vec(&mut self, input: &[u8], output: &mut Vec<u8>) -> (result: Decode)
        requires
            old(self)@.is_sound(),
        ensures
            result == old(self).answer(input@, final(self)@.calls.last().room),
            result.input_remain <= input@.len(),
            final(self)@.advanced_by(old(self)@, final(self)@.calls.last()),
            final(self)@.calls.last().input == input@,
            final(self)@.calls.last().result == result,
            result.status is Ok ==> final(output)@ == old(output)@ + final(self)@.produced_since(
                old(self)@,
            ),
            result.status is Err ==> final(output)@ == old(output)@,
            final(self).finished() == (old(self).finished() || result.status == Ok::<
                DecodeStatus,
                DecodeError,
            >(DecodeStatus::Finished)),
            old(self).is_brotli() ==> final(self).is_brotli(),
    {
        let total = capacity(output);
        self.decode_spare(input, output, total)
    }

    /// Decodes `input` into `output`, reserving room as needed.
    ///
    /// Room is reserved up front as [`GrowthPolicy::for_decode`] says, if
    /// that is any room at all. Then the codec is called on what is left of
    /// `input` and on all the spare capacity of `output`, again and again for
    /// as long as it answers `NeedOutput`; before each further call the
    /// policy's increment is reserved. Any other answer is returned at once.
    ///
    /// `NeedOutput` itself is returned only when a call has changed nothing
    /// and reserving has not enlarged the spare capacity, so that calling
    /// again would change nothing either. An `Err` is a failed reservation;
    /// everything decoded before it is in `output`.
    pub fn decode_vec_full(&mut self, input: &[u8], output: &mut Vec<u8>) -> (outcome: Result<
        Decode,
        TryReserveError,
    >)
        requires
            old(self)@.is_sound(),
        ensures
            final(self)@.extends(old(self)@),
            streams(final(self)@.calls_since(old(self)@), input@),
            grown_until(final(self)@.calls_since(old(self)@), input@.len(), outcome),
            final(self)@.consumed_since(old(self)@) == input@.take(
                input@.len() - unconsumed(final(self)@.calls_since(old(self)@), input@),
            ),
            final(output)@ == old(output)@ + kept(
                final(self)@.calls_since(old(self)@),
                final(self)@.produced_since(old(self)@),
            ),
            final(self).finished() == (old(self).finished() || (outcome matches Ok(result)
                && result.status == Ok::<DecodeStatus, DecodeError>(DecodeStatus::Finished))),
            old(self).is_brotli() ==> final(self).is_brotli(),
    {
        let ghost start = self@;
        let ghost before = output@;
        let ghost mut calls: Seq<Call> = Seq::empty();
        let ghost mut made: Seq<u8> = Seq::empty();
        let policy = GrowthPolicy::for_decode(input.len());
        proof {
            lemma_since(start, self@, Seq::empty(), Seq::empty(), Seq::empty());
        }
        if policy.reserve > 0 {
            match try_reserve_exact(output, policy.reserve) {
                Err(error) => {
                    assert(output@ =~= before + made);
                    assert(input@.take(0) =~= Seq::<u8>::empty());
                    return Err(error);
                },
                Ok(()) => {},
            }
        }
        let mut offset: usize = 0;
        let mut total = capacity(output);
        proof {
            assert(output@ =~= before + made);
            assert(input@.take(0) =~= Seq::<u8>::empty());
        }
        loop
            invariant
                old(self).is_brotli() ==> self.is_brotli(),
                start == old(self)@,
                before == old(output)@,
                offset <= input@.len(),
                output@.len() <= total,
                self@.calls == start.calls + calls,
                self@.failed_resets == start.failed_resets,
                self@.is_sound(),
                self@.produced == start.produced + made,
                self@.consumed == start.consumed + input@.take(offset as int),
                output@ == before + made,
                streams(calls, input@),
                all_paused(calls),
                unconsumed(calls, input@) == input@.len() - offset,
                self.finished() == old(self).finished(),
            decreases input@.len() - offset, usize::MAX - output@.len(), usize::MAX - (total - output@.len()),
        {
            let suffix = slice_subrange(input, offset, input.len());
            let len = output.len();
            let room = total - len;
            let ghost earlier = self@;
            let result = self.decode_spare(suffix, output, total);
            let ghost call = Call { input: suffix@, room: room as nat, result };
            let ghost written = self@.produced_since(earlier);
            proof {
                lemma_round(start, earlier, self@, calls, made, input@, offset as int, call);
                if result.status == Ok::<DecodeStatus, DecodeError>(DecodeStatus::NeedOutput) {
                    lemma_one_more_paused(calls, call);
                }
                calls = calls.push(call);
            }
            match result.status {
                Ok(DecodeStatus::NeedOutput) => {
                    proof {
                        made = made + written;
                    }
                    match try_reserve_exact(output, policy.increment) {
                        Err(error) => {
                            assert(self@.calls_since(start) == calls);
                            assert(self@.produced_since(start) == made);
                            assert(kept(calls, made) == made);
                            return Err(error);
                        },
                        Ok(()) => {},
                    }
                    let grown = capacity(output);
                    let idle = result.input_remain == suffix.len() && result.output_remain == room;
                    if idle && grown - output.len() <= room {
                        assert(self@.calls_since(start) == calls);
                        assert(self@.produced_since(start) == made);
                        assert(kept(calls, made) == made);
                        assert(calls.last().is_idle());
                        return Ok(result);
                    }
                    offset = input.len() - result.input_remain;
                    total = grown;
                },
                _ => {
                    assert(self@.calls_since(start) == calls);
                    assert(self@.produced_since(start) == made + written);
                    return Ok(result);
                },
            }
        }
    }

    /// Decodes `input` into `output`, chunk by chunk: the codec is called on
    /// what is left of `input` and on the chunk of room that `output` offers,
    /// for as long as it answers `NeedOutput`, has changed something, and
    /// `output` can take more. A `BytesMut` makes room by itself, 64 bytes at
    /// a time once its capacity is used up, so reserve beforehand what the
    /// output is expected to need.
    ///
    /// What the codec wrote is appended to `output`, whatever its answer.
    /// In the result, `output_remain` is how many more bytes `output` could
    /// take.
    pub fn decode_buf(&mut self, input: &[u8], output: &mut BytesMut) -> (result: Decode)
        requires
            old(self)@.is_sound(),
        ensures
            final(self)@.extends(old(self)@),
            streams(final(self)@.calls_since(old(self)@), input@),
            final(self)@.calls_since(old(self)@).len() >= 1,
            paused_for_output(final(self)@.calls_since(old(self)@)),
            result.input_remain == final(self)@.calls.last().result.input_remain,
            result.status == final(self)@.calls.last().result.status,
            result.output_remain == isize::MAX - contents(*final(output)).len(),
            result.status == Ok::<DecodeStatus, DecodeError>(DecodeStatus::NeedOutput) ==> (
            final(self)@.calls.last().is_idle() || result.output_remain == 0),
            final(self)@.consumed_since(old(self)@) == input@.take(
                input@.len() - result.input_remain,
            ),
            contents(*final(output)) == contents(*old(output)) + final(self)@.produced_since(
                old(self)@,
            ),
            final(self).finished() == (old(self).finished() || result.status == Ok::<
                DecodeStatus,
                DecodeError,
            >(DecodeStatus::Finished)),
            old(self).is_brotli() ==> final(self).is_brotli(),
    {
        let ghost start = self@;
        let ghost before = contents(*output);
        let ghost mut calls: Seq<Call> = Seq::empty();
        let ghost mut made: Seq<u8> = Seq::empty();
        let mut offset: usize = 0;
        proof {
            lemma_since(start, self@, Seq::empty(), Seq::empty(), Seq::empty());
        }
        loop
            invariant
                old(self).is_brotli() ==> self.is_brotli(),
                start == old(self)@,
                before == contents(*old(output)),
                offset <= input@.len(),
                self@.calls == start.calls + calls,
                self@.failed_resets == start.failed_resets,
                self@.is_sound(),
                self@.produced == start.produced + made,
                self@.consumed == start.consumed + input@.take(offset as int),
                contents(*output) == before + made,
                streams(calls, input@),
                all_paused(calls),
                unconsumed(calls, input@) == input@.len() - offset,
                self.finished() == old(self).finished(),
            decreases input@.len() - offset, isize::MAX - contents(*output).len(),
        {
            let suffix = slice_subrange(input, offset, input.len());
            let len = isize::MAX as usize - remaining_mut(output);
            let room = chunk_room(output);
            let ghost held = contents(*output);
            let ghost earlier = self@;
            resize(output, len + room);
            let decode = {
                let window = as_mut_slice(output);
                let (_, spare) = window.split_at_mut(len);
                self.decode(suffix, spare)
            };
            let advanced = room - decode.output_remain;
            let ghost filled = contents(*output);
            let ghost call = Call { input: suffix@, room: room as nat, result: decode };
            let ghost written = self@.produced_since(earlier);
            proof {
                assert(filled.take(len as int) =~= held);
                assert(self@.produced_since(earlier) =~= filled.skip(len as int).take(advanced as int));
                lemma_round(start, earlier, self@, calls, made, input@, offset as int, call);
            }
            truncate(output, len + advanced);
            proof {
                assert(contents(*output) =~= before + (made + written));
                assert(input@.take(input@.len() - decode.input_remain) == input@.take(
                    offset + call.taken(),
                ));
            }
            let left = remaining_mut(output);
            let result = Decode {
                input_remain: decode.input_remain,
                output_remain: left,
                status: decode.status,
            };
            match decode.status {
                Ok(DecodeStatus::NeedOutput) => {
                    if left == 0 || (decode.input_remain == suffix.len() && advanced == 0) {
                        return result;
                    }
                    proof {
                        lemma_one_more_paused(calls, call);
                        calls = calls.push(call);
                        made = made + written;
                    }
                    offset = input.len() - decode.input_remain;
                },
                _ => {
                    return result;
                },
            }
        }
    }

    /// Puts the codec back into its initial state, ready for another stream.
    ///
    /// Returns what the codec answers: whether that worked. After `false`
    /// the failure is on record and the handle is of no further use: drop
    /// it and make a new one.
    pub fn reset(&mut self) -> (done: bool)
        requires
            old(self)@.is_sound(),
        ensures
            done == old(self).reset_answer(),
            done ==> final(self)@ == Transcript::empty() && !final(self).finished(),
            !done ==> final(self)@ == old(self)@.after_failed_reset() && final(self).finished() == old(
                self,
            ).finished(),
            old(self).is_brotli() ==> final(self).is_brotli() && done,
    {
        let done = self.instance.reset();
        if done {
            self.finished = false;
            proof {
                self.transcript@ = Transcript::empty();
                assert(brotli_rust::offers_of(Transcript::empty().calls) =~= Seq::<
                    (Seq<u8>, nat),
                >::empty());
            }
        } else {
            self.usable = false;
        }
        done
    }

    /// Text for `error`, as the codec describes it.
    pub fn describe_error(&self, error: DecodeError) -> (text: Option<&'static str>)
        requires
            self@.is_sound(),
        ensures
            text == self.description(error.0),
            error.0 == 0 ==> text is Some,
            self.is_brotli() ==> text == brotli_rust::error_name(error.0),
    {
        self.instance.describe_error(error.as_raw())
    }
}

} // verus!
