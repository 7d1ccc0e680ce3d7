//! Brotli encoding by the `brotli` crate, and its options.
use vstd::prelude::*;
use brotli::enc::encode::{BrotliEncoderOperation, BrotliEncoderParameter, BrotliEncoderStateStruct};
use brotli::enc::StandardAlloc;
use super::{Call, Encode, EncodeOp, EncodeStatus, Encoder, Interface};

verus! {

/// What kind of content the encoder should expect.
#[derive(Debug, Clone, Copy, PartialEq, Eq, Structural)]
pub enum BrotliEncoderMode {
    /// No assumption about the content.
    Generic,
    /// UTF-8 text.
    Text,
    /// WOFF 2.0 fonts.
    Font,
}

impl BrotliEncoderMode {
    /// The byte that stands for the mode in an options payload: 1, 2, 3.
    /// Zero is kept for "not set".
    pub open spec fn code(self) -> u8 {
        match self {
            BrotliEncoderMode::Generic => 1,
            BrotliEncoderMode::Text => 2,
            BrotliEncoderMode::Font => 3,
        }
    }

    /// The byte that stands for the mode in an options payload.
    pub fn as_raw(self) -> (code: u8)
        ensures
            code == self.code(),
    {
        match self {
            BrotliEncoderMode::Generic => 1,
            BrotliEncoderMode::Text => 2,
            BrotliEncoderMode::Font => 3,
        }
    }
}

/// Lowest quality the encoder takes.
pub const MIN_QUALITY: u8 = 1;

/// Highest quality the encoder takes, and the one it uses when none is set.
pub const MAX_QUALITY: u8 = 11;

/// Brotli encoder options: two bytes, quality first, mode second, each zero
/// while not set.
#[derive(Debug, Clone, Copy, PartialEq, Eq, Structural)]
pub struct BrotliOptions {
    quality: u8,
    mode: u8,
}

impl View for BrotliOptions {
    type V = (u8, u8);

    closed spec fn view(&self) -> (u8, u8) {
        (self.quality, self.mode)
    }
}

impl Default for BrotliOptions {
    fn default() -> (options: BrotliOptions)
        ensures
            options@ == (0u8, 0u8),
    {
        BrotliOptions::new()
    }
}

impl BrotliOptions {
    /// Options with nothing set.
    pub fn new() -> (options: BrotliOptions)
        ensures
            options@ == (0u8, 0u8),
    {
        BrotliOptions { quality: 0, mode: 0 }
    }

    /// The options that a payload stands for.
    pub fn from_raw(inner: [u8; 2]) -> (options: BrotliOptions)
        ensures
            options@ == (inner[0], inner[1]),
    {
        BrotliOptions { quality: inner[0], mode: inner[1] }
    }

    /// The payload that stands for the options.
    pub fn as_raw(&self) -> (inner: [u8; 2])
        ensures
            self@ == (inner[0], inner[1]),
    {
        [self.quality, self.mode]
    }

    /// Sets the quality, from 1 to 11.
    pub fn quality(self, quality: u8) -> (options: BrotliOptions)
        requires
            MIN_QUALITY <= quality <= MAX_QUALITY,
        ensures
            options@ == (quality, self@.1),
    {
        BrotliOptions { quality, mode: self.mode }
    }

    /// Sets the mode.
    pub fn mode(self, mode: BrotliEncoderMode) -> (options: BrotliOptions)
        ensures
            options@ == (self@.0, mode.code()),
    {
        BrotliOptions { quality: self.quality, mode: mode.as_raw() }
    }
}

/// The encoder parameters that the options reach.
enum Parameter {
    Quality,
    Mode,
}

/// The number that the encoder knows the mode parameter by.
pub const PARAMETER_MODE: u32 = 0;

/// The number that the encoder knows the quality parameter by.
pub const PARAMETER_QUALITY: u32 = 1;

impl Parameter {
    /// The number that the encoder knows the parameter by.
    spec fn code(self) -> u32 {
        match self {
            Parameter::Quality => PARAMETER_QUALITY,
            Parameter::Mode => PARAMETER_MODE,
        }
    }
}

/// The number that the encoder knows an operation by.
pub open spec fn operation_code(op: EncodeOp) -> u32 {
    match op {
        EncodeOp::Process => 0,
        EncodeOp::Flush => 1,
        EncodeOp::Finish => 2,
    }
}

/// What the encoder's answers mean to a caller of this library. `accepted`
/// is what the stream function returned, `more_output` whether the encoder
/// then still held output back.
pub open spec fn status_for(accepted: bool, more_output: bool, op: EncodeOp) -> EncodeStatus {
    if !accepted {
        EncodeStatus::Error
    } else if more_output {
        EncodeStatus::NeedOutput
    } else if op == EncodeOp::Finish {
        EncodeStatus::Finished
    } else {
        EncodeStatus::Continue
    }
}

/// Turns the encoder's answers into a status.
pub fn status_of(accepted: bool, more_output: bool, op: EncodeOp) -> (status: EncodeStatus)
    ensures
        status == status_for(accepted, more_output, op),
{
    if !accepted {
        EncodeStatus::Error
    } else if more_output {
        EncodeStatus::NeedOutput
    } else if op == EncodeOp::Finish {
        EncodeStatus::Finished
    } else {
        EncodeStatus::Continue
    }
}

/// Encoder instance: the state of one Brotli stream, a
/// `brotli::enc::encode::BrotliEncoderStateStruct` on the standard allocator.
/// Nothing of what is in it is known here.
#[verifier::external_body]
pub struct BrotliEncoder {
    state: BrotliEncoderStateStruct<StandardAlloc>,
}

/// The parameters that an encoder state has taken since
/// `BrotliEncoderStateStruct::new` made it: of each the number and the
/// value, in order.
pub uninterp spec fn settings(instance: BrotliEncoder) -> Seq<(u32, u32)>;

/// The calls of `BrotliEncoderStateStruct::compress_stream` that an encoder
/// state has been through since it was made: of each call the number of the
/// operation, the input and the size of the output buffer, in order.
pub uninterp spec fn offers(instance: BrotliEncoder) -> Seq<(u32, Seq<u8>, nat)>;

/// What `BrotliEncoderStateStruct::compress_stream` comes to when it is
/// called with the number of an operation, an input and an output buffer of
/// `room` bytes, in a state that has taken the parameters `settings` and
/// been through the calls `before`: its result, what it leaves of
/// `available_in` and `available_out`, and the bytes that it writes to the
/// front of the output buffer.
///
/// This holds of `brotli` built with its feature `portable-float`, as this
/// crate builds it. The encoder weighs its choices by estimates of cost in
/// floating point; with the feature these come from tables and call nothing
/// of the platform's math library, so that the same input gives the same
/// bytes on every machine. Without it the bytes may differ from one machine
/// to the next, and the name would claim too much.
pub uninterp spec fn compressed(
    settings: Seq<(u32, u32)>,
    before: Seq<(u32, Seq<u8>, nat)>,
    operation: u32,
    input: Seq<u8>,
    room: nat,
) -> (bool, usize, usize, Seq<u8>);

/// Whether an encoder state that has taken the parameters `settings` and
/// been through the calls `through` holds output that did not fit into the
/// buffer of the last call: what `BrotliEncoderStateStruct::has_more_output`
/// returns. Like [`compressed`], this holds of `brotli` built with its
/// feature `portable-float`: how much the encoder holds back follows from
/// how much it has made.
pub uninterp spec fn output_held(settings: Seq<(u32, u32)>, through: Seq<(u32, Seq<u8>, nat)>) -> bool;

/// The parameters that `options` sets: the quality if it is set, then the
/// mode if it is set, under the number that the encoder knows the mode by.
pub open spec fn settings_of(options: (u8, u8)) -> Seq<(u32, u32)> {
    let quality = if options.0 > 0 {
        seq![(PARAMETER_QUALITY, options.0 as u32)]
    } else {
        Seq::empty()
    };
    if options.1 > 0 {
        quality.push((PARAMETER_MODE, (options.1 - 1) as u32))
    } else {
        quality
    }
}

/// The state is that of an encoder at the start of a stream that has taken
/// the parameters that `options` sets, and no others.
pub open spec fn set_up(instance: BrotliEncoder, options: (u8, u8)) -> bool {
    &&& settings(instance) == settings_of(options)
    &&& offers(instance) == Seq::<(u32, Seq<u8>, nat)>::empty()
}

/// `BrotliEncoderStateStruct::new` with the standard allocator: an encoder
/// state at the start of a stream, which has taken no parameter and been
/// through no call.
#[verifier::external_body]
fn new_state() -> (instance: BrotliEncoder)
    ensures
        settings(instance) == Seq::<(u32, u32)>::empty(),
        offers(instance) == Seq::<(u32, Seq<u8>, nat)>::empty(),
{
    BrotliEncoder { state: BrotliEncoderStateStruct::new(StandardAlloc::default()) }
}

/// `BrotliEncoderStateStruct::set_parameter`, for the quality or the mode.
/// Returns whether the encoder took the value. It takes it as long as the
/// state has been through no call of the stream function, and leaves the
/// state as it was if it does not.
#[verifier::external_body]
fn set_parameter(instance: &mut BrotliEncoder, parameter: Parameter, value: u32) -> (taken: bool)
    ensures
        offers(*old(instance)).len() == 0 ==> taken,
        settings(*final(instance)) == if taken {
            settings(*old(instance)).push((parameter.code(), value))
        } else {
            settings(*old(instance))
        },
        offers(*final(instance)) == offers(*old(instance)),
{
    let parameter = match parameter {
        Parameter::Quality => BrotliEncoderParameter::BROTLI_PARAM_QUALITY,
        Parameter::Mode => BrotliEncoderParameter::BROTLI_PARAM_MODE,
    };
    instance.state.set_parameter(parameter, value)
}

/// `BrotliEncoderStateStruct::compress_stream`, called on all of `input` and
/// all of `output`. Returns its result, and what it left of `available_in`
/// and `available_out`: it only ever lowers the two, by the bytes that it
/// took from the front of `input` and wrote to the front of `output`. What it
/// returns and writes depends on the parameters that the state has taken,
/// the calls that it has been through, the operation, the input and the size
/// of the output buffer, and on nothing else, in a build of `brotli` with its
/// feature `portable-float`; the state has then been through one call more.
#[verifier::external_body]
fn compress_stream(instance: &mut BrotliEncoder, op: EncodeOp, input: &[u8], output: &mut [u8]) -> (answer:
    (bool, usize, usize))
    ensures
        (answer.0, answer.1, answer.2, final(output)@.take(old(output)@.len() - answer.2))
            == compressed(
            settings(*old(instance)),
            offers(*old(instance)),
            operation_code(op),
            input@,
            old(output)@.len(),
        ),
        settings(*final(instance)) == settings(*old(instance)),
        offers(*final(instance)) == offers(*old(instance)).push(
            (operation_code(op), input@, old(output)@.len()),
        ),
        answer.1 <= input@.len(),
        answer.2 <= old(output)@.len(),
        final(output)@.len() == old(output)@.len(),
{
    let op = match op {
        EncodeOp::Process => BrotliEncoderOperation::BROTLI_OPERATION_PROCESS,
        EncodeOp::Flush => BrotliEncoderOperation::BROTLI_OPERATION_FLUSH,
        EncodeOp::Finish => BrotliEncoderOperation::BROTLI_OPERATION_FINISH,
    };
    let (mut left_in, mut left_out) = (input.len(), output.len());
    let accepted = instance.state.compress_stream(
        op, &mut left_in, input, &mut 0, &mut left_out, output, &mut 0, &mut None,
        &mut |_, _, _, _| (),
    );
    (accepted, left_in, left_out)
}

/// `BrotliEncoderStateStruct::has_more_output`: whether the encoder holds
/// output that did not fit into the buffer of the last call. It depends on
/// the parameters that the state has taken and the calls that it has been
/// through, and on nothing else, in a build of `brotli` with its feature
/// `portable-float`.
#[verifier::external_body]
fn has_more_output(instance: &BrotliEncoder) -> (more: bool)
    ensures
        more == output_held(settings(*instance), offers(*instance)),
{
    instance.state.has_more_output()
}

/// The outcome of a call of the stream function for `op` that returned
/// `accepted` and left `left_in` of the input and `left_out` of the output
/// buffer, after which the encoder held output back or not.
pub open spec fn outcome_for(
    accepted: bool,
    left_in: usize,
    left_out: usize,
    more_output: bool,
    op: EncodeOp,
) -> Encode {
    Encode {
        input_remain: left_in,
        output_remain: left_out,
        status: status_for(accepted, more_output, op),
    }
}

/// Puts the outcome of a call of the stream function together from what it
/// returned and left.
pub fn outcome(accepted: bool, left_in: usize, left_out: usize, more_output: bool, op: EncodeOp) -> (encode:
    Encode)
    ensures
        encode == outcome_for(accepted, left_in, left_out, more_output, op),
{
    Encode {
        input_remain: left_in,
        output_remain: left_out,
        status: status_of(accepted, more_output, op),
    }
}

/// What a call of an encoder offers to the stream function.
pub open spec fn offer_of(input: Seq<u8>, room: nat, op: EncodeOp) -> (u32, Seq<u8>, nat) {
    (operation_code(op), input, room)
}

/// What the stream function was offered in each of `calls`.
pub open spec fn offers_of(calls: Seq<Call>) -> Seq<(u32, Seq<u8>, nat)> {
    Seq::new(calls.len(), |i: int| offer_of(calls[i].input, calls[i].room, calls[i].op))
}

/// What an encoder that has taken the parameters `settings` and been through
/// the calls `before` answers to a call for `op` with `input` and an output
/// buffer of `room` bytes. The answer is put together from what the stream
/// function returns and leaves, and from whether the encoder holds output
/// back after the call.
pub open spec fn answer_after(
    settings: Seq<(u32, u32)>,
    before: Seq<(u32, Seq<u8>, nat)>,
    input: Seq<u8>,
    room: nat,
    op: EncodeOp,
) -> Encode {
    let done = compressed(settings, before, operation_code(op), input, room);
    outcome_for(
        done.0,
        done.1,
        done.2,
        output_held(settings, before.push(offer_of(input, room, op))),
        op,
    )
}

/// The bytes that an encoder that has taken the parameters `settings` and
/// been through the calls `before` writes to the front of the output buffer
/// in a call for `op` with `input` and an output buffer of `room` bytes.
pub open spec fn written_after(
    settings: Seq<(u32, u32)>,
    before: Seq<(u32, Seq<u8>, nat)>,
    input: Seq<u8>,
    room: nat,
    op: EncodeOp,
) -> Seq<u8> {
    compressed(settings, before, operation_code(op), input, room).3
}

/// One more call on record is one more offer to the stream function.
pub proof fn lemma_offers_push(calls: Seq<Call>, call: Call)
    ensures
        offers_of(calls.push(call)) == offers_of(calls).push(
            offer_of(call.input, call.room, call.op),
        ),
{
    assert(offers_of(calls.push(call)) =~= offers_of(calls).push(
        offer_of(call.input, call.room, call.op),
    ));
}

impl BrotliEncoder {
    /// An instance at the start of a stream, configured by `options`.
    pub fn new(options: BrotliOptions) -> (instance: BrotliEncoder)
        ensures
            set_up(instance, options@),
    {
        let mut instance = new_state();
        instance.apply(options);
        instance
    }

    /// Hands the values that `options` sets to an encoder that has been
    /// through no call: the quality if it is set, then the mode if it is
    /// set.
    fn apply(&mut self, options: BrotliOptions)
        requires
            settings(*old(self)) == Seq::<(u32, u32)>::empty(),
            offers(*old(self)) == Seq::<(u32, Seq<u8>, nat)>::empty(),
        ensures
            set_up(*final(self), options@),
    {
        let inner = options.as_raw();
        let quality = inner[0];
        if quality > 0 {
            set_parameter(self, Parameter::Quality, quality as u32);
        }
        let mode = inner[1];
        if mode > 0 {
            set_parameter(self, Parameter::Mode, (mode - 1) as u32);
        }
        assert(settings(*self) =~= settings_of(options@));
    }
}

impl Interface for BrotliEncoder {
    /// The stream function is called for `op` on all of `input` and all of
    /// the output buffer.
    open spec fn answer(&self, input: Seq<u8>, room: nat, op: EncodeOp) -> Encode {
        answer_after(settings(*self), offers(*self), input, room, op)
    }

    /// What the stream function writes.
    open spec fn writes(&self, input: Seq<u8>, room: nat, op: EncodeOp) -> Seq<u8> {
        written_after(settings(*self), offers(*self), input, room, op)
    }

    /// A reset always works.
    open spec fn reset_answer(&self, opts: [u8; 2]) -> bool {
        true
    }

    fn encode(&mut self, input: &[u8], output: &mut [u8], op: EncodeOp) -> (result: Encode)
        ensures
            settings(*final(self)) == settings(*old(self)),
            offers(*final(self)) == offers(*old(self)).push(
                offer_of(input@, old(output)@.len(), op),
            ),
    {
        let (accepted, left_in, left_out) = compress_stream(self, op, input, output);
        outcome(accepted, left_in, left_out, has_more_output(self), op)
    }

    /// Puts a state at the start of a stream in place of the old one and
    /// hands it the values that `opts` sets.
    fn reset(&mut self, opts: [u8; 2]) -> (done: bool)
        ensures
            set_up(*final(self), (opts[0], opts[1])),
    {
        *self = new_state();
        self.apply(BrotliOptions::from_raw(opts));
        true
    }
}

impl dyn Interface {
    /// An encoder of Brotli streams, configured by `options`.
    pub fn brotli_rust(options: BrotliOptions) -> (encoder: Encoder)
        ensures
            encoder@ == super::Transcript::empty(),
            encoder.opts()@ == seq![options@.0, options@.1],
            !encoder.finished(),
            encoder.is_brotli(),
    {
        let inner = options.as_raw();
        assert(inner@ =~= seq![options@.0, options@.1]);
        Encoder::with_brotli(BrotliEncoder::new(options), inner)
    }
}

} // verus!
