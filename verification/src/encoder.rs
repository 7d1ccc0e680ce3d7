//! Encoding: the codec interface and the handle that drives a codec over
//! caller-owned buffers.
use vstd::prelude::*;
use vstd::slice::slice_subrange;
use std::collections::TryReserveError;
use bytes::BytesMut;
use crate::buf::{as_mut_slice, chunk_room, contents, remaining_mut, resize, truncate};
use crate::growth::{capacity, try_reserve_exact, GrowthPolicy};

pub mod brotli_rust;
pub mod zlib;
pub mod zstd;

pub use brotli_rust::{BrotliEncoderMode, BrotliOptions};
pub use zlib::{ZlibMode, ZlibOptions, ZlibStrategy};
pub use zstd::{ZstdOptions, ZstdStrategy};

verus! {

/// What the codec is asked to do with the input of a call.
#[derive(Debug, Clone, Copy, PartialEq, Eq, Structural)]
pub enum EncodeOp {
    /// Compress as usual; the codec may hold output back.
    Process,
    /// Emit everything that can be emitted, at some cost in size.
    Flush,
    /// Close the stream. Once asked, only `Finish` may follow, typically
    /// with empty input, until the codec reports `Finished`.
    Finish,
}

/// The name that [`EncodeOp`] used to go by.
pub type EncoderOp = EncodeOp;

/// How an encoding call ended.
#[derive(Debug, Clone, Copy, PartialEq, Eq, Structural)]
pub enum EncodeStatus {
    /// Encoded; carry on.
    Continue,
    /// The output buffer is full; make room and pass the unconsumed input again.
    NeedOutput,
    /// The stream is closed; the answer to a completed `Finish`.
    Finished,
    /// The codec failed.
    Error,
}

/// Outcome of one encoding call.
#[derive(Debug, Clone, Copy, PartialEq, Eq)]
pub struct Encode {
    /// Bytes at the end of the input that the codec did not take.
    pub input_remain: usize,
    /// Bytes at the end of the output buffer that the codec did not fill.
    pub output_remain: usize,
    /// How the call ended.
    pub status: EncodeStatus,
}

/// One call that reached a codec: what it was offered and what it answered.
pub ghost struct Call {
    /// The input offered.
    pub input: Seq<u8>,
    /// The length of the output buffer offered.
    pub room: nat,
    /// The operation asked for.
    pub op: EncodeOp,
    /// The codec's answer.
    pub result: Encode,
}

impl Call {
    /// How many input bytes the codec took.
    pub open spec fn taken(self) -> int {
        self.input.len() - self.result.input_remain
    }

    /// How many output bytes the codec wrote.
    pub open spec fn written(self) -> int {
        self.room - self.result.output_remain
    }

    /// The call changed nothing: no input taken, no output written.
    pub open spec fn is_idle(self) -> bool {
        self.taken() == 0 && self.written() == 0
    }

    /// The answer leaves work to do for the same operation: the codec ran
    /// out of output room, or was asked to finish and has not finished.
    pub open spec fn is_unfinished(self) -> bool {
        unfinished(self.op, self.result.status)
    }
}

/// Whether `status`, as the answer to `op`, leaves work to do for the same
/// operation.
pub open spec fn unfinished(op: EncodeOp, status: EncodeStatus) -> bool {
    status == EncodeStatus::NeedOutput || (status == EncodeStatus::Continue && op
        == EncodeOp::Finish)
}

/// Everything a codec instance has seen since it was created or last reset.
pub ghost struct Transcript {
    /// All input bytes taken, in order.
    pub consumed: Seq<u8>,
    /// All output bytes written, in order.
    pub produced: Seq<u8>,
    /// Every call, oldest first.
    pub calls: Seq<Call>,
    /// How many resets have failed since the handle was made or last reset
    /// with success. While it is not zero, the codec is in no defined state.
    pub failed_resets: nat,
}

impl Transcript {
    /// The transcript of a fresh instance.
    pub open spec fn empty() -> Transcript {
        Transcript {
            consumed: Seq::empty(),
            produced: Seq::empty(),
            calls: Seq::empty(),
            failed_resets: 0,
        }
    }

    /// The transcript after one more call, in which the codec was offered
    /// `input` and a buffer of `room` bytes for `op`, answered `result` and
    /// left the buffer holding `output`.
    pub open spec fn after(
        self,
        input: Seq<u8>,
        room: nat,
        op: EncodeOp,
        result: Encode,
        output: Seq<u8>,
    ) -> Transcript {
        Transcript {
            consumed: self.consumed + input.take(input.len() - result.input_remain),
            produced: self.produced + output.take(room - result.output_remain),
            calls: self.calls.push(Call { input, room, op, result }),
            failed_resets: self.failed_resets,
        }
    }

    /// The transcript after a reset that failed: one more failure on record,
    /// and nothing else new.
    pub open spec fn after_failed_reset(self) -> Transcript {
        Transcript { failed_resets: self.failed_resets + 1, ..self }
    }

    /// No reset has failed: the codec is in the state that its calls have
    /// left it in.
    pub open spec fn is_sound(self) -> bool {
        self.failed_resets == 0
    }

    /// `self` is `earlier` and one more call, `call`: the input that the call
    /// took and the output that it wrote are on record, and nothing else is
    /// new.
    pub open spec fn advanced_by(self, earlier: Transcript, call: Call) -> bool {
        &&& self.calls == earlier.calls.push(call)
        &&& self.consumed == earlier.consumed + call.input.take(call.taken())
        &&& earlier.produced.is_prefix_of(self.produced)
        &&& self.produced.len() == earlier.produced.len() + call.written()
        &&& self.failed_resets == earlier.failed_resets
    }

    /// The calls made since the transcript was `earlier`.
    pub open spec fn calls_since(self, earlier: Transcript) -> Seq<Call> {
        self.calls.skip(earlier.calls.len() as int)
    }

    /// The output written since the transcript was `earlier`.
    pub open spec fn produced_since(self, earlier: Transcript) -> Seq<u8> {
        self.produced.skip(earlier.produced.len() as int)
    }

    /// The input taken since the transcript was `earlier`.
    pub open spec fn consumed_since(self, earlier: Transcript) -> Seq<u8> {
        self.consumed.skip(earlier.consumed.len() as int)
    }

    /// `self` continues `earlier`: nothing recorded was lost or changed,
    /// and there was no reset in between.
    pub open spec fn extends(self, earlier: Transcript) -> bool {
        &&& earlier.consumed.is_prefix_of(self.consumed)
        &&& earlier.produced.is_prefix_of(self.produced)
        &&& earlier.calls.is_prefix_of(self.calls)
        &&& self.failed_resets == earlier.failed_resets
    }
}

/// The call asked for `op`, was offered a suffix of `input` and took no more
/// than that.
pub open spec fn offered_suffix(call: Call, input: Seq<u8>, op: EncodeOp) -> bool {
    &&& call.op == op
    &&& call.result.input_remain <= call.input.len() <= input.len()
    &&& call.input == input.skip(input.len() - call.input.len())
}

/// The calls stream `input` without a gap, all for the operation `op`: the
/// first is offered all of it, each later one exactly what the call before
/// left unconsumed.
pub open spec fn streams(calls: Seq<Call>, input: Seq<u8>, op: EncodeOp) -> bool {
    &&& forall|i: int| 0 <= i < calls.len() ==> offered_suffix(#[trigger] calls[i], input, op)
    &&& calls.len() > 0 ==> calls[0].input == input
    &&& forall|i: int, j: int|
        0 <= i && j == i + 1 && j < calls.len() ==> (#[trigger] calls[j]).input.len() == (
        #[trigger] calls[i]).result.input_remain
}

/// One of the calls closed the stream.
pub open spec fn any_finished(calls: Seq<Call>) -> bool {
    exists|i: int| 0 <= i < calls.len() && (#[trigger] calls[i]).result.status == EncodeStatus::Finished
}

/// One more call closes the stream if it answers `Finished` or the stream
/// was closed before.
pub(crate) proof fn lemma_any_finished_push(calls: Seq<Call>, call: Call)
    ensures
        any_finished(calls.push(call)) == (any_finished(calls) || call.result.status
            == EncodeStatus::Finished),
        !any_finished(Seq::<Call>::empty()),
{
    let longer = calls.push(call);
    if any_finished(calls) {
        let i = choose|i: int| 0 <= i < calls.len() && (#[trigger] calls[i]).result.status == EncodeStatus::Finished;
        assert(longer[i] == calls[i]);
    }
    if call.result.status == EncodeStatus::Finished {
        assert(longer[calls.len() as int] == call);
    }
    if any_finished(longer) {
        let i = choose|i: int| 0 <= i < longer.len() && (#[trigger] longer[i]).result.status == EncodeStatus::Finished;
        if i < calls.len() {
            assert(longer[i] == calls[i]);
        }
    }
}

/// Every call ran out of output room.
pub open spec fn all_needing_output(calls: Seq<Call>) -> bool {
    forall|i: int|
        0 <= i < calls.len() ==> (#[trigger] calls[i]).result.status == EncodeStatus::NeedOutput
}

/// Every call left work to do.
pub open spec fn all_unfinished(calls: Seq<Call>) -> bool {
    forall|i: int| 0 <= i < calls.len() ==> (#[trigger] calls[i]).is_unfinished()
}

/// How much of `input` is left after `calls`: what the last call left, or
/// all of it when there was no call.
pub open spec fn unconsumed(calls: Seq<Call>, input: Seq<u8>) -> int {
    if calls.len() == 0 {
        input.len() as int
    } else {
        calls.last().result.input_remain as int
    }
}

/// What [`Encoder::encode_vec_full`] promises of the calls it made and of
/// its outcome, for an input of `len` bytes.
///
/// With `Ok`, there was at least one call, the outcome is the answer of the
/// last, and every call before it left work to do; if the outcome leaves
/// work to do itself, the last call changed nothing. With `Err`, every call
/// left work to do; if there was no call at all, it was the reservation up
/// front that failed, which is made only where the policy has something to
/// reserve.
pub open spec fn grown_until(calls: Seq<Call>, len: nat, outcome: Result<Encode, TryReserveError>) -> bool {
    match outcome {
        Ok(result) => {
            &&& calls.len() >= 1
            &&& calls.last().result == result
            &&& all_unfinished(calls.drop_last())
            &&& calls.last().is_unfinished() ==> calls.last().is_idle()
        },
        Err(_) => {
            &&& all_unfinished(calls)
            &&& calls.len() == 0 ==> crate::growth::encode_reserve(len as int) > 0
        },
    }
}

/// A transcript that is `earlier` with `calls`, `produced` and `consumed`
/// appended has exactly these as what came since.
pub(crate) proof fn lemma_since(
    earlier: Transcript,
    later: Transcript,
    calls: Seq<Call>,
    produced: Seq<u8>,
    consumed: Seq<u8>,
)
    requires
        later.calls == earlier.calls + calls,
        later.produced == earlier.produced + produced,
        later.consumed == earlier.consumed + consumed,
        later.failed_resets == earlier.failed_resets,
    ensures
        later.extends(earlier),
        later.calls_since(earlier) == calls,
        later.produced_since(earlier) == produced,
        later.consumed_since(earlier) == consumed,
{
    assert(later.calls_since(earlier) =~= calls);
    assert(later.produced_since(earlier) =~= produced);
    assert(later.consumed_since(earlier) =~= consumed);
}

/// What came since `earlier` is what came between `earlier` and `middle`,
/// and then what came since `middle`.
pub proof fn lemma_since_then(earlier: Transcript, middle: Transcript, later: Transcript)
    requires
        middle.extends(earlier),
        later.extends(middle),
    ensures
        later.extends(earlier),
        later.calls_since(earlier) == middle.calls_since(earlier) + later.calls_since(middle),
        later.produced_since(earlier) == middle.produced_since(earlier) + later.produced_since(
            middle,
        ),
        later.consumed_since(earlier) == middle.consumed_since(earlier) + later.consumed_since(
            middle,
        ),
{
    assert(later.calls_since(earlier) =~= middle.calls_since(earlier) + later.calls_since(middle));
    assert(later.produced_since(earlier) =~= middle.produced_since(earlier)
        + later.produced_since(middle));
    assert(later.consumed_since(earlier) =~= middle.consumed_since(earlier)
        + later.consumed_since(middle));
}

/// Calls that all left work to do, and one more that did.
pub(crate) proof fn lemma_one_more_unfinished(calls: Seq<Call>, call: Call)
    requires
        all_unfinished(calls),
        call.is_unfinished(),
    ensures
        all_unfinished(calls.push(call)),
{
    let longer = calls.push(call);
    assert forall|i: int| 0 <= i < longer.len() implies (#[trigger] longer[i]).is_unfinished() by {
        if i < calls.len() {
            assert(longer[i] == calls[i]);
        }
    }
}

/// One more call in a row of calls that stream `input`: `call`, offered what
/// was left of `input` at `offset`, takes the transcript from `earlier` to
/// `later`.
pub(crate) proof fn lemma_round(
    start: Transcript,
    earlier: Transcript,
    later: Transcript,
    calls: Seq<Call>,
    made: Seq<u8>,
    input: Seq<u8>,
    offset: int,
    call: Call,
)
    requires
        0 <= offset <= input.len(),
        earlier.calls == start.calls + calls,
        earlier.failed_resets == start.failed_resets,
        earlier.produced == start.produced + made,
        earlier.consumed == start.consumed + input.take(offset),
        streams(calls, input, call.op),
        unconsumed(calls, input) == input.len() - offset,
        call.input == input.subrange(offset, input.len() as int),
        call.result.input_remain <= call.input.len(),
        call.result.output_remain <= call.room,
        later.advanced_by(earlier, call),
    ensures
        later.extends(start),
        later.calls == start.calls + calls.push(call),
        later.calls_since(start) == calls.push(call),
        later.produced == start.produced + (made + later.produced_since(earlier)),
        later.produced_since(start) == made + later.produced_since(earlier),
        later.produced_since(earlier).len() == call.written(),
        later.consumed == start.consumed + input.take(offset + call.taken()),
        later.consumed_since(start) == input.take(offset + call.taken()),
        streams(calls.push(call), input, call.op),
        calls.push(call).drop_last() == calls,
        calls.push(call).last() == call,
        unconsumed(calls.push(call), input) == call.result.input_remain,
{
    let written = later.produced_since(earlier);
    let longer = calls.push(call);
    assert(later.produced =~= earlier.produced + written);
    assert(later.produced =~= start.produced + (made + written));
    assert(later.calls =~= start.calls + longer);
    assert(input.take(offset) + call.input.take(call.taken()) =~= input.take(offset + call.taken()));
    assert(later.consumed =~= start.consumed + input.take(offset + call.taken()));
    lemma_since(start, later, longer, made + written, input.take(offset + call.taken()));
    assert(call.input =~= input.skip(input.len() - call.input.len()));
    if offset == 0 {
        assert(call.input =~= input);
    }
    assert forall|i: int| 0 <= i < longer.len() implies offered_suffix(
        #[trigger] longer[i],
        input,
        call.op,
    ) by {
        if i < calls.len() {
            assert(longer[i] == calls[i]);
        }
    }
    assert forall|i: int, j: int| 0 <= i && j == i + 1 && j < longer.len() implies (
    #[trigger] longer[j]).input.len() == (#[trigger] longer[i]).result.input_remain by {
        assert(longer[i] == calls[i]);
        if j < calls.len() {
            assert(longer[j] == calls[j]);
        } else {
            assert(calls.last() == calls[i]);
        }
    }
    assert(longer[0].input == input) by {
        if calls.len() > 0 {
            assert(longer[0] == calls[0]);
        }
    }
    assert(longer.last() == call);
    assert(longer.drop_last() =~= calls);
}

/// The operations of one encoding codec. An [`Encoder`] reaches its codec
/// through these and nothing else.
///
/// An implementation keeps all of its state in `self` and allocates nothing
/// per call. Dropping the value releases the codec.
pub trait Interface {
    /// What the codec answers, in the state it is in, to a call for `op`
    /// with `input` and an output buffer of `room` bytes. An implementation
    /// that is verified says here what its `encode` returns. Left as it is,
    /// this is some function of the state, the input, the room and the
    /// operation of which nothing else is known: an implementation that is
    /// not verified is held to no more than that its answer depends on these
    /// alone.
    open spec fn answer(&self, input: Seq<u8>, room: nat, op: EncodeOp) -> Encode {
        arbitrary::<spec_fn(&Self, Seq<u8>, nat, EncodeOp) -> Encode>()(self, input, room, op)
    }

    /// The bytes that the codec writes to the front of the output buffer,
    /// in the state it is in, in a call for `op` with `input` and an output
    /// buffer of `room` bytes. Left as it is, some function of the four.
    open spec fn writes(&self, input: Seq<u8>, room: nat, op: EncodeOp) -> Seq<u8> {
        arbitrary::<spec_fn(&Self, Seq<u8>, nat, EncodeOp) -> Seq<u8>>()(self, input, room, op)
    }

    /// Whether a reset with the payload `opts` works in the state that the
    /// codec is in. Left as it is, some function of the state and the
    /// payload.
    open spec fn reset_answer(&self, opts: [u8; 2]) -> bool {
        arbitrary::<spec_fn(&Self, [u8; 2]) -> bool>()(self, opts)
    }

    /// Encodes from `input` into `output` as `op` asks. Takes a prefix of
    /// `input`, writes a prefix of `output`, and reports how much of each is
    /// left.
    fn encode(&mut self, input: &[u8], output: &mut [u8], op: EncodeOp) -> (result: Encode)
        ensures
            result == old(self).answer(input@, old(output)@.len(), op),
            result.input_remain <= input@.len(),
            result.output_remain <= old(output)@.len(),
            final(output)@.len() == old(output)@.len(),
            final(output)@.take(old(output)@.len() - result.output_remain) == old(self).writes(
                input@,
                old(output)@.len(),
                op,
            ),
    ;

    /// Puts the codec back into its initial state, configured by `opts`, the
    /// payload that the handle was made with. On `false` the instance is in
    /// no defined state and should be dropped.
    fn reset(&mut self, opts: [u8; 2]) -> (done: bool)
        ensures
            done == old(self).reset_answer(opts),
    ;
}

/// The codec that a handle owns.
enum Codec {
    /// The Brotli encoder of this crate. It is held as what it is, so that
    /// what is known of it is known of its handle.
    Brotli(brotli_rust::BrotliEncoder),
    /// Any other codec.
    Other(Box<dyn Interface>),
}

impl Codec {
    /// What the codec answers, in the state it is in, to a call for `op`
    /// with `input` and an output buffer of `room` bytes.
    spec fn answer(&self, input: Seq<u8>, room: nat, op: EncodeOp) -> Encode {
        match self {
            Codec::Brotli(codec) => codec.answer(input, room, op),
            Codec::Other(codec) => codec.answer(input, room, op),
        }
    }

    /// The bytes that the codec writes to the front of the output buffer in
    /// such a call.
    spec fn writes(&self, input: Seq<u8>, room: nat, op: EncodeOp) -> Seq<u8> {
        match self {
            Codec::Brotli(codec) => codec.writes(input, room, op),
            Codec::Other(codec) => codec.writes(input, room, op),
        }
    }

    /// Whether a reset with `opts` works in the state that the codec is in.
    spec fn reset_answer(&self, opts: [u8; 2]) -> bool {
        match self {
            Codec::Brotli(codec) => codec.reset_answer(opts),
            Codec::Other(codec) => codec.reset_answer(opts),
        }
    }

    /// The codec is the Brotli encoder, has taken the parameters that
    /// `opts` sets and has been through `offers`.
    spec fn is_brotli_through(&self, opts: [u8; 2], offers: Seq<(u32, Seq<u8>, nat)>) -> bool {
        match self {
            Codec::Brotli(codec) => brotli_rust::settings(*codec) == brotli_rust::settings_of(
                (opts[0], opts[1]),
            ) && brotli_rust::offers(*codec) == offers,
            Codec::Other(_) => false,
        }
    }

    /// One call of the codec.
    fn encode(&mut self, input: &[u8], output: &mut [u8], op: EncodeOp) -> (result: Encode)
        ensures
            result == old(self).answer(input@, old(output)@.len(), op),
            result.input_remain <= input@.len(),
            result.output_remain <= old(output)@.len(),
            final(output)@.len() == old(output)@.len(),
            final(output)@.take(old(output)@.len() - result.output_remain) == old(self).writes(
                input@,
                old(output)@.len(),
                op,
            ),
            (*final(self) is Brotli) == (*old(self) is Brotli),
            forall|opts: [u8; 2], offers: Seq<(u32, Seq<u8>, nat)>| #[trigger]
                old(self).is_brotli_through(opts, offers) ==> final(self).is_brotli_through(
                    opts,
                    offers.push(brotli_rust::offer_of(input@, old(output)@.len(), op)),
                ),
    {
        match self {
            Codec::Brotli(codec) => codec.encode(input, output, op),
            Codec::Other(codec) => codec.encode(input, output, op),
        }
    }

    /// Puts the codec back into its initial state, configured by `opts`.
    fn reset(&mut self, opts: [u8; 2]) -> (done: bool)
        ensures
            done == old(self).reset_answer(opts),
            (*final(self) is Brotli) == (*old(self) is Brotli),
            *old(self) is Brotli ==> done && final(self).is_brotli_through(opts, Seq::empty()),
    {
        match self {
            Codec::Brotli(codec) => codec.reset(opts),
            Codec::Other(codec) => codec.reset(opts),
        }
    }
}

/// Handle on one encoding codec instance.
///
/// The handle owns the instance; dropping the handle drops it. It keeps the
/// [`Transcript`] of the calls it has passed on, which is what its contracts
/// speak of.
pub struct Encoder {
    instance: Codec,
    opts: [u8; 2],
    finished: bool,
    usable: bool,
    transcript: Ghost<Transcript>,
}

impl View for Encoder {
    type V = Transcript;

    open spec fn view(&self) -> Transcript {
        self.transcript()
    }
}

impl Encoder {
    /// Whether the handle was made for the Brotli encoder of this crate and
    /// holds it as what it is. If the handle is usable, the encoder has
    /// taken the parameters that the payload of the handle sets, and has
    /// been through the calls on record and no others. A handle of which
    /// this holds stays one; a handle made by [`Encoder::new`] is none,
    /// whatever codec it was given.
    pub closed spec fn is_brotli(&self) -> bool {
        self.instance is Brotli && (self.usable ==> self.instance.is_brotli_through(
            self.opts,
            brotli_rust::offers_of(self.transcript@.calls),
        ))
    }

    /// A usable handle on the Brotli encoder of this crate answers as that
    /// encoder does when it has taken the parameters that the payload of
    /// the handle sets and been through the calls on record. Its reset
    /// works.
    pub proof fn lemma_brotli_answers(&self, input: Seq<u8>, room: nat, op: EncodeOp)
        requires
            self.is_brotli(),
            self@.is_sound(),
        ensures
            self.answer(input, room, op) == brotli_rust::answer_after(
                brotli_rust::settings_of((self.opts()[0], self.opts()[1])),
                brotli_rust::offers_of(self@.calls),
                input,
                room,
                op,
            ),
            self.writes(input, room, op) == brotli_rust::written_after(
                brotli_rust::settings_of((self.opts()[0], self.opts()[1])),
                brotli_rust::offers_of(self@.calls),
                input,
                room,
                op,
            ),
            self.reset_answer(),
    {
    }

    /// Reset reuse: two usable handles on the Brotli encoder of this crate
    /// that keep the same payload and whose codecs were offered the same
    /// since they were made or last reset answer the next call alike and
    /// write the same bytes in it, and have been offered the same after it.
    /// So they go on alike, call by call, whatever the input and the
    /// buffers. A handle that was reset has no call on record, as a new one
    /// has none: it encodes as a new handle does.
    pub proof fn lemma_reset_reuse(&self, fresh: &Encoder, input: Seq<u8>, room: nat, op: EncodeOp)
        requires
            self.is_brotli(),
            fresh.is_brotli(),
            self@.is_sound(),
            fresh@.is_sound(),
            self.opts() == fresh.opts(),
            brotli_rust::offers_of(self@.calls) == brotli_rust::offers_of(fresh@.calls),
        ensures
            self.answer(input, room, op) == fresh.answer(input, room, op),
            self.writes(input, room, op) == fresh.writes(input, room, op),
            brotli_rust::offers_of(
                self@.calls.push(Call { input, room, op, result: self.answer(input, room, op) }),
            ) == brotli_rust::offers_of(
                fresh@.calls.push(
                    Call { input, room, op, result: fresh.answer(input, room, op) },
                ),
            ),
    {
        self.lemma_brotli_answers(input, room, op);
        fresh.lemma_brotli_answers(input, room, op);
        brotli_rust::lemma_offers_push(
            self@.calls,
            Call { input, room, op, result: self.answer(input, room, op) },
        );
        brotli_rust::lemma_offers_push(
            fresh@.calls,
            Call { input, room, op, result: fresh.answer(input, room, op) },
        );
    }

    /// The record of the calls that reached the codec through this handle
    /// since it was made or last reset; `self@` for short.
    pub closed spec fn transcript(&self) -> Transcript {
        Transcript {
            failed_resets: if self.usable {
                0
            } else {
                1
            },
            ..self.transcript@
        }
    }

    /// What the codec of this handle answers, in the state it is in, to a
    /// call for `op` with `input` and an output buffer of `room` bytes.
    pub closed spec fn answer(&self, input: Seq<u8>, room: nat, op: EncodeOp) -> Encode {
        self.instance.answer(input, room, op)
    }

    /// The bytes that the codec of this handle writes to the front of the
    /// output buffer, in the state it is in, in a call for `op` with `input`
    /// and an output buffer of `room` bytes.
    pub closed spec fn writes(&self, input: Seq<u8>, room: nat, op: EncodeOp) -> Seq<u8> {
        self.instance.writes(input, room, op)
    }

    /// Whether a reset of the codec of this handle, with the payload that
    /// the handle keeps, works in the state that the codec is in.
    pub closed spec fn reset_answer(&self) -> bool {
        self.instance.reset_answer(self.opts)
    }

    /// Whether a call since the last reset has ended with `Finished`.
    pub closed spec fn finished(&self) -> bool {
        self.finished
    }

    /// The payload handed to the codec on every reset.
    pub closed spec fn opts(&self) -> [u8; 2] {
        self.opts
    }

    /// Binds a codec instance to a new handle. `opts` is kept and handed to
    /// the codec on every reset, so that it can configure itself anew.
    pub fn new<T: Interface + 'static>(instance: T, opts: [u8; 2]) -> (encoder: Encoder)
        ensures
            encoder@ == Transcript::empty(),
            encoder.opts() == opts,
            !encoder.finished(),
            !encoder.is_brotli(),
    {
        Encoder {
            instance: Codec::Other(Box::new(instance)),
            opts,
            finished: false,
            usable: true,
            transcript: Ghost(Transcript::empty()),
        }
    }

    /// Binds a Brotli encoder that has taken the parameters that `opts` sets
    /// and been through no call to a new handle.
    pub(crate) fn with_brotli(instance: brotli_rust::BrotliEncoder, opts: [u8; 2]) -> (encoder: Encoder)
        requires
            brotli_rust::set_up(instance, (opts[0], opts[1])),
        ensures
            encoder@ == Transcript::empty(),
            encoder.opts() == opts,
            !encoder.finished(),
            encoder.is_brotli(),
    {
        assert(brotli_rust::offers_of(Transcript::empty().calls) =~= Seq::<
            (u32, Seq<u8>, nat),
        >::empty());
        Encoder {
            instance: Codec::Brotli(instance),
            opts,
            finished: false,
            usable: true,
            transcript: Ghost(Transcript::empty()),
        }
    }

    /// Whether the handle can be used: no reset of it has failed. A handle
    /// that cannot is good for dropping only.
    pub fn is_usable(&self) -> (usable: bool)
        ensures
            usable == self@.is_sound(),
    {
        self.usable
    }

    /// Whether the stream is closed: a call since the last reset has ended
    /// with `Finished`.
    pub fn is_finished(&self) -> (finished: bool)
        ensures
            finished == self.finished(),
    {
        self.finished
    }

    /// Encodes `input` into `output`: one call of the codec, whose answer is
    /// returned as it is.
    pub fn encode(&mut self, input: &[u8], output: &mut [u8], op: EncodeOp) -> (result: Encode)
        requires
            old(self)@.is_sound(),
        ensures
            result == old(self).answer(input@, old(output)@.len(), op),
            final(output)@.take(old(output)@.len() - result.output_remain) == old(self).writes(
                input@,
                old(output)@.len(),
                op,
            ),
            result.input_remain <= input@.len(),
            result.output_remain <= old(output)@.len(),
            final(output)@.len() == old(output)@.len(),
            final(self)@ == old(self)@.after(
                input@,
                old(output)@.len(),
                op,
                result,
                final(output)@,
            ),
            final(self).finished() == (old(self).finished() || result.status
                == EncodeStatus::Finished),
            final(self).opts() == old(self).opts(),
            old(self).is_brotli() ==> final(self).is_brotli() && result
                == brotli_rust::answer_after(
                brotli_rust::settings_of((old(self).opts()[0], old(self).opts()[1])),
                brotli_rust::offers_of(old(self)@.calls),
                input@,
                old(output)@.len(),
                op,
            ),
    {
        let ghost room = output@.len();
        let result = self.instance.encode(input, output, op);
        if result.status == EncodeStatus::Finished {
            self.finished = true;
        }
        proof {
            brotli_rust::lemma_offers_push(
                self.transcript@.calls,
                Call { input: input@, room, op, result },
            );
            self.transcript@ = self.transcript@.after(input@, room, op, result, output@);
        }
        result
    }

    /// One call of the codec on the unused part of `output`, whose capacity
    /// the caller has read as `total`.
    fn encode_spare(&mut self, input: &[u8], output: &mut Vec<u8>, op: EncodeOp, total: usize) -> (result:
        Encode)
        requires
            old(self)@.is_sound(),
            old(output)@.len() <= total,
        ensures
            result == old(self).answer(input@, (total - old(output)@.len()) as nat, op),
            result.input_remain <= input@.len(),
            result.output_remain <= total - old(output)@.len(),
            final(self)@.advanced_by(
                old(self)@,
                Call { input: input@, room: (total - old(output)@.len()) as nat, op, result },
            ),
            final(output)@ == old(output)@ + final(self)@.produced_since(old(self)@),
            final(self).finished() == (old(self).finished() || result.status
                == EncodeStatus::Finished),
            final(self).opts() == old(self).opts(),
            old(self).is_brotli() ==> final(self).is_brotli(),
    {
        let len = output.len();
        let ghost before = output@;
        let ghost start = self@;
        output.resize(total, 0u8);
        assert(output@.take(len as int) == before);
        let result = {
            let window = output.as_mut_slice();
            let (_, spare) = window.split_at_mut(len);
            self.encode(input, spare, op)
        };
        let ghost filled = output@;
        assert(filled.take(len as int) =~= before);
        let ghost written = filled.skip(len as int).take(total - len - result.output_remain);
        assert(self@.produced == start.produced + written);
        assert(self@.produced_since(start) =~= written);
        output.truncate(total - result.output_remain);
        assert(output@ =~= before + written);
        result
    }

    /// Encodes `input` into the spare capacity of `output`: one call of the
    /// codec, offered all of `input` and all the room between the length of
    /// `output` and its capacity. Allocates nothing; reserve room beforehand.
    ///
    /// What the codec wrote is appended to `output`, whatever the status.
    pub fn encode_vec(&mut self, input: &[u8], output: &mut Vec<u8>, op: EncodeOp) -> (result: Encode)
        requires
            old(self)@.is_sound(),
        ensures
            result == old(self).answer(input@, final(self)@.calls.last().room, op),
            result.input_remain <= input@.len(),
            final(self)@.advanced_by(old(self)@, final(self)@.calls.last()),
            final(self)@.calls.last().input == input@,
            final(self)@.calls.last().op == op,
            final(self)@.calls.last().result == result,
            final(output)@ == old(output)@ + final(self)@.produced_since(old(self)@),
            final(self).finished() == (old(self).finished() || result.status
                == EncodeStatus::Finished),
            final(self).opts() == old(self).opts(),
            old(self).is_brotli() ==> final(self).is_brotli(),
    {
        let total = capacity(output);
        self.encode_spare(input, output, op, total)
    }

    /// Encodes `input` into `output`, reserving room as needed.
    ///
    /// Room is reserved up front as [`GrowthPolicy::for_encode`] says, if
    /// that is any room at all. Then the codec is called on what is left of
    /// `input` and on all the spare capacity of `output`, again and again
    /// for as long as its answer leaves work to do: after `NeedOutput` the
    /// policy's increment is reserved first; after `Continue` in answer to
    /// `Finish` the call is simply repeated, since codecs may say so while
    /// they still hold the end of the stream back. Any other answer is
    /// returned at once.
    ///
    /// An answer that leaves work to do is itself returned only when a call
    /// has changed nothing and the spare capacity has not become larger, so
    /// that calling again would change nothing either. An `Err` is a failed
    /// reservation; everything encoded before it is in `output`.
    pub fn encode_vec_full(&mut self, input: &[u8], output: &mut Vec<u8>, op: EncodeOp) -> (outcome:
        Result<Encode, TryReserveError>)
        requires
            old(self)@.is_sound(),
        ensures
            final(self)@.extends(old(self)@),
            streams(final(self)@.calls_since(old(self)@), input@, op),
            grown_until(final(self)@.calls_since(old(self)@), input@.len(), outcome),
            final(self)@.consumed_since(old(self)@) == input@.take(
                input@.len() - unconsumed(final(self)@.calls_since(old(self)@), input@),
            ),
            final(output)@ == old(output)@ + final(self)@.produced_since(old(self)@),
            final(self).finished() == (old(self).finished() || (outcome matches Ok(result)
                && result.status == EncodeStatus::Finished)),
            final(self).opts() == old(self).opts(),
            old(self).is_brotli() ==> final(self).is_brotli(),
    {
        let ghost start = self@;
        let ghost before = output@;
        let ghost mut calls: Seq<Call> = Seq::empty();
        let ghost mut made: Seq<u8> = Seq::empty();
        let policy = GrowthPolicy::for_encode(input.len());
        proof {
            lemma_since(start, self@, Seq::empty(), Seq::empty(), Seq::empty());
        }
        if policy.reserve > 0 {
            match try_reserve_exact(output, policy.reserve) {
                Err(error) => {
                    assert(output@ =~= before + made);
                    assert(input@.take(0) =~= Seq::<u8>::empty());
                    return Err(error);
                },
                Ok(()) => {},
            }
        }
        let mut offset: usize = 0;
        let mut total = capacity(output);
        proof {
            assert(output@ =~= before + made);
            assert(input@.take(0) =~= Seq::<u8>::empty());
        }
        loop
            invariant
                old(self).is_brotli() ==> self.is_brotli(),
                start == old(self)@,
                before == old(output)@,
                offset <= input@.len(),
                output@.len() <= total,
                self@.calls == start.calls + calls,
                self@.failed_resets == start.failed_resets,
                self@.is_sound(),
                self@.produced == start.produced + made,
                self@.consumed == start.consumed + input@.take(offset as int),
                output@ == before + made,
                streams(calls, input@, op),
                all_unfinished(calls),
                unconsumed(calls, input@) == input@.len() - offset,
                self.finished() == old(self).finished(),
                self.opts() == old(self).opts(),
            decreases input@.len() - offset, usize::MAX - output@.len(), usize::MAX - (total - output@.len()),
        {
            let suffix = slice_subrange(input, offset, input.len());
            let len = output.len();
            let room = total - len;
            let ghost earlier = self@;
            let result = self.encode_spare(suffix, output, op, total);
            let ghost call = Call { input: suffix@, room: room as nat, op, result };
            let ghost written = self@.produced_since(earlier);
            proof {
                lemma_round(start, earlier, self@, calls, made, input@, offset as int, call);
                if call.is_unfinished() {
                    lemma_one_more_unfinished(calls, call);
                }
                calls = calls.push(call);
                made = made + written;
                assert(self@.calls_since(start) == calls);
                assert(self@.produced_since(start) == made);
            }
            let idle = result.input_remain == suffix.len() && result.output_remain == room;
            let grown = match result.status {
                EncodeStatus::NeedOutput => {
                    match try_reserve_exact(output, policy.increment) {
                        Err(error) => {
                            return Err(error);
                        },
                        Ok(()) => {},
                    }
                    capacity(output)
                },
                EncodeStatus::Continue => {
                    if op == EncodeOp::Finish {
                        total
                    } else {
                        return Ok(result);
                    }
                },
                _ => {
                    return Ok(result);
                },
            };
            if idle && grown - output.len() <= room {
                return Ok(result);
            }
            offset = input.len() - result.input_remain;
            total = grown;
        }
    }

    /// Encodes `input` into `output`, chunk by chunk: the codec is called on
    /// what is left of `input` and on the chunk of room that `output` offers,
    /// for as long as it answers `NeedOutput`, has changed something, and
    /// `output` can take more. A `BytesMut` makes room by itself, 64 bytes at
    /// a time once its capacity is used up, so reserve beforehand what the
    /// output is expected to need.
    ///
    /// What the codec wrote is appended to `output`, whatever its answer.
    /// In the result, `output_remain` is how many more bytes `output` could
    /// take.
    pub fn encode_buf(&mut self, input: &[u8], output: &mut BytesMut, op: EncodeOp) -> (result: Encode)
        requires
            old(self)@.is_sound(),
        ensures
            final(self)@.extends(old(self)@),
            streams(final(self)@.calls_since(old(self)@), input@, op),
            final(self)@.calls_since(old(self)@).len() >= 1,
            all_needing_output(final(self)@.calls_since(old(self)@).drop_last()),
            result.input_remain == final(self)@.calls.last().result.input_remain,
            result.status == final(self)@.calls.last().result.status,
            result.output_remain == isize::MAX - contents(*final(output)).len(),
            result.status == EncodeStatus::NeedOutput ==> (final(self)@.calls.last().is_idle()
                || result.output_remain == 0),
            final(self)@.consumed_since(old(self)@) == input@.take(
                input@.len() - result.input_remain,
            ),
            contents(*final(output)) == contents(*old(output)) + final(self)@.produced_since(
                old(self)@,
            ),
            final(self).finished() == (old(self).finished() || result.status
                == EncodeStatus::Finished),
            final(self).opts() == old(self).opts(),
            old(self).is_brotli() ==> final(self).is_brotli(),
    {
        let ghost start = self@;
        let ghost before = contents(*output);
        let ghost mut calls: Seq<Call> = Seq::empty();
        let ghost mut made: Seq<u8> = Seq::empty();
        let mut offset: usize = 0;
        proof {
            lemma_since(start, self@, Seq::empty(), Seq::empty(), Seq::empty());
        }
        loop
            invariant
                old(self).is_brotli() ==> self.is_brotli(),
                start == old(self)@,
                before == contents(*old(output)),
                offset <= input@.len(),
                self@.calls == start.calls + calls,
                self@.failed_resets == start.failed_resets,
                self@.is_sound(),
                self@.produced == start.produced + made,
                self@.consumed == start.consumed + input@.take(offset as int),
                contents(*output) == before + made,
                streams(calls, input@, op),
                all_needing_output(calls),
                unconsumed(calls, input@) == input@.len() - offset,
                self.finished() == old(self).finished(),
                self.opts() == old(self).opts(),
            decreases input@.len() - offset, isize::MAX - contents(*output).len(),
        {
            let suffix = slice_subrange(input, offset, input.len());
            let len = isize::MAX as usize - remaining_mut(output);
            let room = chunk_room(output);
            let ghost held = contents(*output);
            let ghost earlier = self@;
            resize(output, len + room);
            let encode = {
                let window = as_mut_slice(output);
                let (_, spare) = window.split_at_mut(len);
                self.encode(suffix, spare, op)
            };
            let advanced = room - encode.output_remain;
            let ghost filled = contents(*output);
            let ghost call = Call { input: suffix@, room: room as nat, op, result: encode };
            let ghost written = self@.produced_since(earlier);
            proof {
                assert(filled.take(len as int) =~= held);
                assert(self@.produced_since(earlier) =~= filled.skip(len as int).take(advanced as int));
                lemma_round(start, earlier, self@, calls, made, input@, offset as int, call);
            }
            truncate(output, len + advanced);
            proof {
                assert(contents(*output) =~= before + (made + written));
                assert(input@.take(input@.len() - encode.input_remain) == input@.take(
                    offset + call.taken(),
                ));
            }
            let left = remaining_mut(output);
            let result = Encode {
                input_remain: encode.input_remain,
                output_remain: left,
                status: encode.status,
            };
            match encode.status {
                EncodeStatus::NeedOutput => {
                    if left == 0 || (encode.input_remain == suffix.len() && advanced == 0) {
                        return result;
                    }
                    proof {
                        let longer = calls.push(call);
                        assert forall|i: int| 0 <= i < longer.len() implies (
                        #[trigger] longer[i]).result.status == EncodeStatus::NeedOutput by {
                            if i < calls.len() {
                                assert(longer[i] == calls[i]);
                            }
                        }
                        calls = calls.push(call);
                        made = made + written;
                    }
                    offset = input.len() - encode.input_remain;
                },
                _ => {
                    return result;
                },
            }
        }
    }

    /// Puts the codec back into its initial state, ready for another stream.
    ///
    /// Hands the payload that the handle keeps to the codec's reset and
    /// returns what it answers: whether that worked. After `false` the
    /// failure is on record and the handle is of no further use: drop it and
    /// make a new one.
    pub fn reset(&mut self) -> (done: bool)
        requires
            old(self)@.is_sound(),
        ensures
            done == old(self).reset_answer(),
            done ==> final(self)@ == Transcript::empty() && !final(self).finished(),
            !done ==> final(self)@ == old(self)@.after_failed_reset() && final(self).finished() == old(
                self,
            ).finished(),
            final(self).opts() == old(self).opts(),
            old(self).is_brotli() ==> final(self).is_brotli() && done,
    {
        let done = self.instance.reset(self.opts);
        if done {
            self.finished = false;
            proof {
                self.transcript@ = Transcript::empty();
                assert(brotli_rust::offers_of(Transcript::empty().calls) =~= Seq::<
                    (u32, Seq<u8>, nat),
                >::empty());
            }
        } else {
            self.usable = false;
        }
        done
    }
}

} // verus!
