//! What a Zstandard decoder needs besides the codec itself: its options, and
//! the reading of what `ZSTD_decompressStream` returns.
use vstd::prelude::*;
use super::{Decode, DecodeError, DecodeStatus};

verus! {

/// Smallest window log the format allows.
pub const WINDOWLOG_MIN: i32 = 10;

/// Largest window log on targets with pointers of more than 32 bits.
pub const WINDOWLOG_MAX_64: i32 = 31;

/// Largest window log on targets with pointers of up to 32 bits.
pub const WINDOWLOG_MAX_32: i32 = 30;

/// Largest window log on this target.
pub open spec fn windowlog_max() -> i32 {
    if usize::BITS > 32 {
        WINDOWLOG_MAX_64
    } else {
        WINDOWLOG_MAX_32
    }
}

/// Zstandard decoder options.
#[derive(Debug, Clone, Copy, PartialEq, Eq, Structural)]
pub struct ZstdOptions {
    window_log: i32,
}

impl View for ZstdOptions {
    type V = i32;

    closed spec fn view(&self) -> i32 {
        self.window_log
    }
}

impl Default for ZstdOptions {
    fn default() -> (options: ZstdOptions)
        ensures
            options@ == 0,
    {
        ZstdOptions::new()
    }
}

impl ZstdOptions {
    /// Options with no limit set: zero stands for the decoder's default.
    pub fn new() -> (options: ZstdOptions)
        ensures
            options@ == 0,
    {
        ZstdOptions { window_log: 0 }
    }

    /// Caps the window log: the decoder refuses frames that need a larger
    /// window.
    pub fn window_log(self, window_log: i32) -> (options: ZstdOptions)
        requires
            WINDOWLOG_MIN <= window_log <= windowlog_max(),
        ensures
            options@ == window_log,
    {
        ZstdOptions { window_log }
    }

    /// The cap on the window log, zero for none.
    pub fn max_window_log(&self) -> (window_log: i32)
        ensures
            window_log == self@,
    {
        self.window_log
    }
}

/// What a return value of `ZSTD_decompressStream` means. `is_error` is what
/// `ZSTD_isError` says of it, `output_full` whether the call filled the
/// output buffer.
///
/// Zero is the end of a frame. Otherwise the decoder flushes as much as it
/// can, so a full output buffer is taken to be the reason whatever the
/// value says; failing that a value that is no error asks for input. An
/// error is passed on by its lower 32 bits.
pub open spec fn status_for(result: usize, is_error: bool, output_full: bool) -> Result<
    DecodeStatus,
    DecodeError,
> {
    if result == 0 {
        Ok(DecodeStatus::Finished)
    } else if output_full {
        Ok(DecodeStatus::NeedOutput)
    } else if !is_error {
        Ok(DecodeStatus::NeedInput)
    } else {
        Err(DecodeError(result as i32))
    }
}

/// Turns a return value of `ZSTD_decompressStream` into a status.
pub fn status_of(result: usize, is_error: bool, output_full: bool) -> (status: Result<
    DecodeStatus,
    DecodeError,
>)
    ensures
        status == status_for(result, is_error, output_full),
{
    if result == 0 {
        Ok(DecodeStatus::Finished)
    } else if output_full {
        Ok(DecodeStatus::NeedOutput)
    } else if !is_error {
        Ok(DecodeStatus::NeedInput)
    } else {
        Err(DecodeError::from_raw(#[verifier::truncate] (result as i32)))
    }
}

/// How much of a buffer of `len` bytes is left when the codec has moved its
/// position in it to `pos`. A position beyond the end is read as the end.
pub open spec fn remain_for(len: usize, pos: usize) -> int {
    if pos <= len {
        len - pos
    } else {
        0
    }
}

/// How much of a buffer of `len` bytes is left when the codec has moved its
/// position in it to `pos`.
pub fn remain(len: usize, pos: usize) -> (count: usize)
    ensures
        count == remain_for(len, pos),
        count <= len,
{
    if pos <= len {
        len - pos
    } else {
        0
    }
}

/// The outcome of one call of `ZSTD_decompressStream` on an input of
/// `input_len` bytes and an output buffer of `output_len` bytes, which
/// returned `result` and moved the positions in the two to `input_pos` and
/// `output_pos`. `is_error` is what `ZSTD_isError` says of `result`.
pub fn outcome(
    input_len: usize,
    input_pos: usize,
    output_len: usize,
    output_pos: usize,
    result: usize,
    is_error: bool,
) -> (decode: Decode)
    ensures
        decode.input_remain == remain_for(input_len, input_pos),
        decode.output_remain == remain_for(output_len, output_pos),
        decode.status == status_for(result, is_error, output_pos >= output_len),
        decode.input_remain <= input_len,
        decode.output_remain <= output_len,
{
    let output_remain = remain(output_len, output_pos);
    Decode {
        input_remain: remain(input_len, input_pos),
        output_remain,
        status: status_of(result, is_error, output_remain == 0),
    }
}

} // verus!
