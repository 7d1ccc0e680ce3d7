//! What a zlib encoder needs besides the codec itself: its options, and the
//! reading of what `deflate` returns.
use vstd::prelude::*;
use crate::decoder::zlib::{remain, remain_for};
use super::{Encode, EncodeOp, EncodeStatus};

verus! {

/// Return code of `deflate`: progress was made.
pub const Z_OK: i32 = 0;

/// Return code of `deflate`: the stream is closed.
pub const Z_STREAM_END: i32 = 1;

/// Return code of `deflate`: no progress was possible.
pub const Z_BUF_ERROR: i32 = -5;

/// Flush value of `deflate`: none.
pub const Z_NO_FLUSH: i32 = 0;

/// Flush value of `deflate`: flush to a byte boundary.
pub const Z_SYNC_FLUSH: i32 = 2;

/// Flush value of `deflate`: close the stream.
pub const Z_FINISH: i32 = 4;

/// Memory level of options that set none.
pub const DEFAULT_MEM_LEVEL: u8 = 8;

/// Highest memory level the options take.
pub const MAX_MEM_LEVEL: u8 = 9;

/// How the encoder looks for matches and builds its codes.
#[derive(Debug, Clone, Copy, PartialEq, Eq, Structural)]
pub enum ZlibStrategy {
    /// For ordinary data.
    Default,
    /// For data produced by a filter or predictor.
    Filtered,
    /// Huffman coding only, no string matching.
    HuffmanOnly,
    /// Run-length encoding, good for PNG image data.
    Rle,
    /// No dynamic Huffman codes.
    Fixed,
}

impl Default for ZlibStrategy {
    fn default() -> (strategy: ZlibStrategy)
        ensures
            strategy == ZlibStrategy::Default,
    {
        ZlibStrategy::Default
    }
}

impl ZlibStrategy {
    /// The number that zlib knows the strategy by.
    pub open spec fn code(self) -> i32 {
        match self {
            ZlibStrategy::Default => 0,
            ZlibStrategy::Filtered => 1,
            ZlibStrategy::HuffmanOnly => 2,
            ZlibStrategy::Rle => 3,
            ZlibStrategy::Fixed => 4,
        }
    }

    /// The number that zlib knows the strategy by.
    pub fn as_raw(self) -> (code: i32)
        ensures
            code == self.code(),
    {
        match self {
            ZlibStrategy::Default => 0,
            ZlibStrategy::Filtered => 1,
            ZlibStrategy::HuffmanOnly => 2,
            ZlibStrategy::Rle => 3,
            ZlibStrategy::Fixed => 4,
        }
    }
}

/// Which container the encoder puts around the deflate stream.
#[derive(Debug, Clone, Copy, PartialEq, Eq, Structural)]
pub enum ZlibMode {
    /// Raw deflate, no container.
    Deflate,
    /// Zlib header and checksum.
    Zlib,
    /// Gzip header and trailer.
    Gzip,
}

impl Default for ZlibMode {
    fn default() -> (mode: ZlibMode)
        ensures
            mode == ZlibMode::Gzip,
    {
        ZlibMode::Gzip
    }
}

impl ZlibMode {
    /// The window bits that select the mode, for the largest window.
    pub open spec fn window_bits(self) -> i32 {
        match self {
            ZlibMode::Deflate => -15i32,
            ZlibMode::Zlib => 15,
            ZlibMode::Gzip => 31,
        }
    }

    /// The window bits to initialise the encoder with: 15 for the largest
    /// window, negated for raw deflate, plus 16 for gzip.
    pub fn max_bits(self) -> (bits: i32)
        ensures
            bits == self.window_bits(),
    {
        match self {
            ZlibMode::Deflate => -15i32,
            ZlibMode::Zlib => 15,
            ZlibMode::Gzip => 15 + 16,
        }
    }
}

/// Zlib encoder options.
#[derive(Debug, Clone, Copy, PartialEq, Eq, Structural)]
pub struct ZlibOptions {
    /// Container.
    pub mode: ZlibMode,
    /// Strategy.
    pub strategy: ZlibStrategy,
    /// Memory level.
    pub mem_level: u8,
    /// Compression level, from 1 to 9, or -1 for zlib's default.
    pub compression: i8,
}

impl Default for ZlibOptions {
    fn default() -> (options: ZlibOptions)
        ensures
            options == ZlibOptions::initial(),
    {
        ZlibOptions::new()
    }
}

impl ZlibOptions {
    /// The options to start from: gzip, default strategy, memory level 8,
    /// compression level 9.
    pub open spec fn initial() -> ZlibOptions {
        ZlibOptions {
            mode: ZlibMode::Gzip,
            strategy: ZlibStrategy::Default,
            mem_level: DEFAULT_MEM_LEVEL,
            compression: 9,
        }
    }

    /// The options to start from.
    pub fn new() -> (options: ZlibOptions)
        ensures
            options == ZlibOptions::initial(),
    {
        ZlibOptions {
            mode: ZlibMode::Gzip,
            strategy: ZlibStrategy::Default,
            mem_level: DEFAULT_MEM_LEVEL,
            compression: 9,
        }
    }

    /// Sets the container.
    pub fn mode(self, new_mode: ZlibMode) -> (options: ZlibOptions)
        ensures
            options == (ZlibOptions { mode: new_mode, ..self }),
    {
        ZlibOptions { mode: new_mode, ..self }
    }

    /// Sets the strategy.
    pub fn strategy(self, new_strategy: ZlibStrategy) -> (options: ZlibOptions)
        ensures
            options == (ZlibOptions { strategy: new_strategy, ..self }),
    {
        ZlibOptions { strategy: new_strategy, ..self }
    }

    /// Sets the memory level, from 1 to [`MAX_MEM_LEVEL`]: how much memory
    /// the encoder keeps for its state.
    pub fn mem_level(self, mem_level: u8) -> (options: ZlibOptions)
        requires
            1 <= mem_level <= MAX_MEM_LEVEL,
        ensures
            options == (ZlibOptions { mem_level, ..self }),
    {
        ZlibOptions { mem_level, ..self }
    }

    /// Sets the compression level: from 1 to 9, or -1 for zlib's default.
    pub fn compression(self, compression: i8) -> (options: ZlibOptions)
        ensures
            options == (ZlibOptions { compression, ..self }),
    {
        ZlibOptions { compression, ..self }
    }
}

/// The flush value of `deflate` that stands for an operation.
pub open spec fn flush_for(op: EncodeOp) -> i32 {
    match op {
        EncodeOp::Process => Z_NO_FLUSH,
        EncodeOp::Flush => Z_SYNC_FLUSH,
        EncodeOp::Finish => Z_FINISH,
    }
}

/// The flush value of `deflate` that stands for an operation.
pub fn flush_of(op: EncodeOp) -> (flush: i32)
    ensures
        flush == flush_for(op),
{
    match op {
        EncodeOp::Process => Z_NO_FLUSH,
        EncodeOp::Flush => Z_SYNC_FLUSH,
        EncodeOp::Finish => Z_FINISH,
    }
}

/// What a return code of `deflate` means as the answer to `op`. Progress in
/// answer to `Finish` means that the end of the stream did not fit: zlib
/// says so when only the trailer is left to write.
pub open spec fn status_for(code: i32, op: EncodeOp) -> EncodeStatus {
    if code == Z_STREAM_END {
        EncodeStatus::Finished
    } else if code == Z_OK {
        if op == EncodeOp::Finish {
            EncodeStatus::NeedOutput
        } else {
            EncodeStatus::Continue
        }
    } else if code == Z_BUF_ERROR {
        EncodeStatus::NeedOutput
    } else {
        EncodeStatus::Error
    }
}

/// Turns a return code of `deflate` into a status.
pub fn status_of(code: i32, op: EncodeOp) -> (status: EncodeStatus)
    ensures
        status == status_for(code, op),
{
    if code == Z_STREAM_END {
        EncodeStatus::Finished
    } else if code == Z_OK {
        if op == EncodeOp::Finish {
            EncodeStatus::NeedOutput
        } else {
            EncodeStatus::Continue
        }
    } else if code == Z_BUF_ERROR {
        EncodeStatus::NeedOutput
    } else {
        EncodeStatus::Error
    }
}

/// The outcome of one call of `deflate` for `op` on the first `offered_in`
/// bytes of an input of `input_len` bytes and the first `offered_out` bytes
/// of an output buffer of `output_len` bytes, which returned `code` and left
/// `avail_in` and `avail_out`. Counts that do not fit together are read as a
/// call that touched nothing.
pub fn outcome(
    input_len: usize,
    offered_in: u32,
    avail_in: u32,
    output_len: usize,
    offered_out: u32,
    avail_out: u32,
    code: i32,
    op: EncodeOp,
) -> (encode: Encode)
    ensures
        encode.input_remain == remain_for(input_len, offered_in, avail_in),
        encode.output_remain == remain_for(output_len, offered_out, avail_out),
        encode.status == status_for(code, op),
        encode.input_remain <= input_len,
        encode.output_remain <= output_len,
{
    Encode {
        input_remain: remain(input_len, offered_in, avail_in),
        output_remain: remain(output_len, offered_out, avail_out),
        status: status_of(code, op),
    }
}

} // verus!
