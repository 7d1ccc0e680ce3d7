//! What a Zstandard encoder needs besides the codec itself: its options, and
//! the reading of what `ZSTD_compressStream2` returns.
use vstd::prelude::*;
use crate::decoder::zstd::{remain, remain_for};
use super::{Encode, EncodeOp, EncodeStatus};

verus! {

/// Compression level used when none is set.
pub const CLEVEL_DEFAULT: i32 = 3;

/// Window log used when none is set.
pub const WINDOWLOG_LIMIT_DEFAULT: i32 = 27;

/// Bound on the compression level, in either direction.
pub const LEVEL_MAX: i32 = 131072;

/// Smallest window log the format allows.
pub const WINDOWLOG_MIN: i32 = 10;

/// Largest window log on targets with pointers of more than 32 bits.
pub const WINDOWLOG_MAX_64: i32 = 31;

/// Largest window log on targets with pointers of up to 32 bits.
pub const WINDOWLOG_MAX_32: i32 = 30;

/// Error code of the encoder: the destination buffer is too small.
pub const ERROR_DST_SIZE_TOO_SMALL: i32 = 70;

/// Error code of the encoder: the destination buffer is full.
pub const ERROR_NO_FORWARD_PROGRESS_DEST_FULL: i32 = 80;

/// Largest window log on this target.
pub open spec fn windowlog_max() -> i32 {
    if usize::BITS > 32 {
        WINDOWLOG_MAX_64
    } else {
        WINDOWLOG_MAX_32
    }
}

/// Match-finding strategies, from fastest to strongest.
#[derive(Debug, Clone, Copy, PartialEq, Eq, Structural)]
pub enum ZstdStrategy {
    /// Whatever the compression level implies.
    Default,
    /// `ZSTD_fast`.
    Fast,
    /// `ZSTD_dfast`.
    DFast,
    /// `ZSTD_greedy`.
    Greedy,
    /// `ZSTD_lazy`.
    Lazy,
    /// `ZSTD_lazy2`.
    Lazy2,
    /// `ZSTD_btlazy2`.
    BtLazy2,
    /// `ZSTD_btopt`.
    BtOpt,
    /// `ZSTD_btultra`.
    BtUltra,
    /// `ZSTD_btultra2`.
    BtUltra2,
}

impl ZstdStrategy {
    /// The number that the encoder knows the strategy by: its place in the
    /// list, counted from zero.
    pub open spec fn code(self) -> i32 {
        match self {
            ZstdStrategy::Default => 0,
            ZstdStrategy::Fast => 1,
            ZstdStrategy::DFast => 2,
            ZstdStrategy::Greedy => 3,
            ZstdStrategy::Lazy => 4,
            ZstdStrategy::Lazy2 => 5,
            ZstdStrategy::BtLazy2 => 6,
            ZstdStrategy::BtOpt => 7,
            ZstdStrategy::BtUltra => 8,
            ZstdStrategy::BtUltra2 => 9,
        }
    }

    /// The number that the encoder knows the strategy by.
    pub fn as_raw(self) -> (code: i32)
        ensures
            code == self.code(),
    {
        match self {
            ZstdStrategy::Default => 0,
            ZstdStrategy::Fast => 1,
            ZstdStrategy::DFast => 2,
            ZstdStrategy::Greedy => 3,
            ZstdStrategy::Lazy => 4,
            ZstdStrategy::Lazy2 => 5,
            ZstdStrategy::BtLazy2 => 6,
            ZstdStrategy::BtOpt => 7,
            ZstdStrategy::BtUltra => 8,
            ZstdStrategy::BtUltra2 => 9,
        }
    }
}

/// Zstandard encoder options.
#[derive(Debug, Clone, Copy, PartialEq, Eq, Structural)]
pub struct ZstdOptions {
    /// Compression level.
    pub level: i32,
    /// Strategy.
    pub strategy: ZstdStrategy,
    /// Window log.
    pub window_log: i32,
}

impl Default for ZstdOptions {
    fn default() -> (options: ZstdOptions)
        ensures
            options == ZstdOptions::initial(),
    {
        ZstdOptions::new()
    }
}

impl ZstdOptions {
    /// The options to start from: the default level and window log, and the
    /// strategy that the level implies.
    pub open spec fn initial() -> ZstdOptions {
        ZstdOptions {
            level: CLEVEL_DEFAULT,
            strategy: ZstdStrategy::Default,
            window_log: WINDOWLOG_LIMIT_DEFAULT,
        }
    }

    /// The options to start from.
    pub fn new() -> (options: ZstdOptions)
        ensures
            options == ZstdOptions::initial(),
    {
        ZstdOptions {
            level: CLEVEL_DEFAULT,
            strategy: ZstdStrategy::Default,
            window_log: WINDOWLOG_LIMIT_DEFAULT,
        }
    }

    /// Sets the compression level.
    pub fn level(self, level: i32) -> (options: ZstdOptions)
        requires
            -LEVEL_MAX <= level <= LEVEL_MAX,
        ensures
            options == (ZstdOptions { level, ..self }),
    {
        ZstdOptions { level, ..self }
    }

    /// Sets the strategy.
    pub fn strategy(self, strategy: ZstdStrategy) -> (options: ZstdOptions)
        ensures
            options == (ZstdOptions { strategy, ..self }),
    {
        ZstdOptions { strategy, ..self }
    }

    /// Sets the window log.
    pub fn window_log(self, window_log: i32) -> (options: ZstdOptions)
        requires
            WINDOWLOG_MIN <= window_log <= windowlog_max(),
        ensures
            options == (ZstdOptions { window_log, ..self }),
    {
        ZstdOptions { window_log, ..self }
    }
}

/// What a return value of `ZSTD_compressStream2` means as the answer to
/// `op`. `is_error` is what `ZSTD_isError` says of it, `error_code` what
/// `ZSTD_getErrorCode` says, and `output_full` whether the call filled the
/// output buffer.
///
/// Zero means that nothing is left to do, which after `Finish` is the end of
/// the frame. A value that is no error means that something is left inside
/// the encoder: that calls for room if the buffer is full, and is nothing to
/// act on otherwise. Of the errors, the two that complain of the destination
/// call for room.
pub open spec fn status_for(
    result: usize,
    is_error: bool,
    error_code: i32,
    output_full: bool,
    op: EncodeOp,
) -> EncodeStatus {
    if result == 0 {
        if op == EncodeOp::Finish {
            EncodeStatus::Finished
        } else {
            EncodeStatus::Continue
        }
    } else if !is_error {
        if output_full {
            EncodeStatus::NeedOutput
        } else {
            EncodeStatus::Continue
        }
    } else if error_code == ERROR_DST_SIZE_TOO_SMALL || error_code
        == ERROR_NO_FORWARD_PROGRESS_DEST_FULL {
        EncodeStatus::NeedOutput
    } else {
        EncodeStatus::Error
    }
}

/// Turns a return value of `ZSTD_compressStream2` into a status.
pub fn status_of(result: usize, is_error: bool, error_code: i32, output_full: bool, op: EncodeOp) -> (status:
    EncodeStatus)
    ensures
        status == status_for(result, is_error, error_code, output_full, op),
{
    if result == 0 {
        if op == EncodeOp::Finish {
            EncodeStatus::Finished
        } else {
            EncodeStatus::Continue
        }
    } else if !is_error {
        if output_full {
            EncodeStatus::NeedOutput
        } else {
            EncodeStatus::Continue
        }
    } else if error_code == ERROR_DST_SIZE_TOO_SMALL || error_code
        == ERROR_NO_FORWARD_PROGRESS_DEST_FULL {
        EncodeStatus::NeedOutput
    } else {
        EncodeStatus::Error
    }
}

/// The outcome of one call of `ZSTD_compressStream2` for `op` on an input of
/// `input_len` bytes and an output buffer of `output_len` bytes, which
/// returned `result` and moved the positions in the two to `input_pos` and
/// `output_pos`. `is_error` is what `ZSTD_isError` says of `result`,
/// `error_code` what `ZSTD_getErrorCode` says.
pub fn outcome(
    input_len: usize,
    input_pos: usize,
    output_len: usize,
    output_pos: usize,
    result: usize,
    is_error: bool,
    error_code: i32,
    op: EncodeOp,
) -> (encode: Encode)
    ensures
        encode.input_remain == remain_for(input_len, input_pos),
        encode.output_remain == remain_for(output_len, output_pos),
        encode.status == status_for(result, is_error, error_code, output_pos >= output_len, op),
        encode.input_remain <= input_len,
        encode.output_remain <= output_len,
{
    let output_remain = remain(output_len, output_pos);
    Encode {
        input_remain: remain(input_len, input_pos),
        output_remain,
        status: status_of(result, is_error, error_code, output_remain == 0, op),
    }
}

} // verus!
