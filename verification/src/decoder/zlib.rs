//! What a zlib decoder needs besides the codec itself: the container modes,
//! and the reading of what `inflate` returns.
use vstd::prelude::*;
use super::{Decode, DecodeError, DecodeStatus};

verus! {

/// Return code of `inflate`: progress was made.
pub const Z_OK: i32 = 0;

/// Return code of `inflate`: the end of the stream was reached.
pub const Z_STREAM_END: i32 = 1;

/// Return code of `inflate`: no progress was possible.
pub const Z_BUF_ERROR: i32 = -5;

/// Which container the decoder expects around the deflate stream.
#[derive(Debug, Clone, Copy, PartialEq, Eq, Structural)]
pub enum ZlibMode {
    /// Raw deflate, no container.
    Deflate,
    /// Zlib header and checksum.
    Zlib,
    /// Gzip header and trailer.
    Gzip,
    /// Zlib or gzip, whichever the stream starts with.
    Auto,
}

impl Default for ZlibMode {
    fn default() -> (mode: ZlibMode)
        ensures
            mode == ZlibMode::Auto,
    {
        ZlibMode::Auto
    }
}

impl ZlibMode {
    /// The window bits that select the mode, for the largest window.
    pub open spec fn window_bits(self) -> i32 {
        match self {
            ZlibMode::Deflate => -15i32,
            ZlibMode::Zlib => 15,
            ZlibMode::Gzip => 31,
            ZlibMode::Auto => 47,
        }
    }

    /// The window bits to initialise the decoder with: 15 for the largest
    /// window, negated for raw deflate, plus 16 for gzip, plus 32 for
    /// automatic detection.
    pub fn max_bits(self) -> (bits: i32)
        ensures
            bits == self.window_bits(),
    {
        match self {
            ZlibMode::Deflate => -15i32,
            ZlibMode::Zlib => 15,
            ZlibMode::Gzip => 15 + 16,
            ZlibMode::Auto => 15 + 32,
        }
    }
}

/// What a return code of `inflate` means, given how much input the call left.
/// Progress with input left over can only mean that the output buffer is
/// full; no progress is put down to the output buffer as well.
pub open spec fn status_for(code: i32, input_left: usize) -> Result<DecodeStatus, DecodeError> {
    if code == Z_OK {
        if input_left == 0 {
            Ok(DecodeStatus::NeedInput)
        } else {
            Ok(DecodeStatus::NeedOutput)
        }
    } else if code == Z_STREAM_END {
        Ok(DecodeStatus::Finished)
    } else if code == Z_BUF_ERROR {
        Ok(DecodeStatus::NeedOutput)
    } else {
        Err(DecodeError(code))
    }
}

/// Turns a return code of `inflate` into a status.
pub fn status_of(code: i32, input_left: usize) -> (status: Result<DecodeStatus, DecodeError>)
    ensures
        status == status_for(code, input_left),
{
    if code == Z_OK {
        if input_left == 0 {
            Ok(DecodeStatus::NeedInput)
        } else {
            Ok(DecodeStatus::NeedOutput)
        }
    } else if code == Z_STREAM_END {
        Ok(DecodeStatus::Finished)
    } else if code == Z_BUF_ERROR {
        Ok(DecodeStatus::NeedOutput)
    } else {
        Err(DecodeError::from_raw(code))
    }
}

/// How many bytes of a buffer of `len` bytes to offer to a codec that counts
/// in 32 bits: all of them, or as many as the counter holds.
pub fn offer(len: usize) -> (count: u32)
    ensures
        count == if len <= u32::MAX {
            len as int
        } else {
            u32::MAX as int
        },
{
    if len <= u32::MAX as usize {
        len as u32
    } else {
        u32::MAX
    }
}

/// How much of a buffer of `len` bytes is left after a call that was offered
/// its first `offered` bytes and left `left` of those.
pub open spec fn remain_for(len: usize, offered: u32, left: u32) -> int {
    if left <= offered <= len {
        len - offered + left
    } else {
        len as int
    }
}

/// The outcome of one call of `inflate` on the first `offered_in` bytes of an
/// input of `input_len` bytes and the first `offered_out` bytes of an output
/// buffer of `output_len` bytes, which returned `code` and left `avail_in`
/// and `avail_out`. Counts that do not fit together are read as a call that
/// touched nothing.
pub fn outcome(
    input_len: usize,
    offered_in: u32,
    avail_in: u32,
    output_len: usize,
    offered_out: u32,
    avail_out: u32,
    code: i32,
) -> (result: Decode)
    ensures
        result.input_remain == remain_for(input_len, offered_in, avail_in),
        result.output_remain == remain_for(output_len, offered_out, avail_out),
        result.status == status_for(code, avail_in as usize),
        result.input_remain <= input_len,
        result.output_remain <= output_len,
{
    Decode {
        input_remain: remain(input_len, offered_in, avail_in),
        output_remain: remain(output_len, offered_out, avail_out),
        status: status_of(code, avail_in as usize),
    }
}

/// How much of a buffer of `len` bytes is left after a call that was offered
/// its first `offered` bytes and left `left` of those.
pub fn remain(len: usize, offered: u32, left: u32) -> (count: usize)
    ensures
        count == remain_for(len, offered, left),
        count <= len,
{
    if left <= offered && offered as usize <= len {
        len - offered as usize + left as usize
    } else {
        len
    }
}

} // verus!
