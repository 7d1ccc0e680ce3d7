//! How much output room to reserve for an input of a given size, and the few
//! facts about `Vec` capacity that the growing functions rest on.
use vstd::prelude::*;
use std::collections::TryReserveError;

verus! {

/// Inputs shorter than this are in the small tier.
pub const SMALL_INPUT: usize = 1024;

/// Inputs of at least this length are in the large tier.
pub const LARGE_INPUT: usize = 16384;

/// Re-grow increment of the medium tier.
pub const MEDIUM_INCREMENT: usize = 1024;

/// Re-grow increment of the large tier.
pub const LARGE_INCREMENT: usize = 8192;

/// Room to reserve before the first call and room to add whenever the codec
/// runs out of output space.
#[derive(Debug, Clone, Copy, PartialEq, Eq, Structural)]
pub struct GrowthPolicy {
    /// Bytes reserved up front.
    pub reserve: usize,
    /// Bytes reserved each time the codec asks for more output space.
    pub increment: usize,
}

/// Up-front reservation when decoding `len` bytes: decoded data is usually
/// larger than its input.
pub open spec fn decode_reserve(len: int) -> int {
    if len < SMALL_INPUT {
        len
    } else if len < LARGE_INPUT {
        len + len / 3
    } else if 2 * len <= usize::MAX {
        2 * len
    } else {
        usize::MAX as int
    }
}

/// Up-front reservation when encoding `len` bytes.
pub open spec fn encode_reserve(len: int) -> int {
    if len < SMALL_INPUT {
        len
    } else if len < LARGE_INPUT {
        len + len / 2
    } else {
        len / 3
    }
}

/// Re-grow increment for an input of `len` bytes, the same in both
/// directions. It is never zero: a codec may need room for the end of a
/// stream when it is given no input at all.
pub open spec fn increment_for(len: int) -> int {
    if len < 3 {
        1
    } else if len < SMALL_INPUT {
        len / 3
    } else if len < LARGE_INPUT {
        MEDIUM_INCREMENT as int
    } else {
        LARGE_INCREMENT as int
    }
}

/// Re-grow increment of the small tier: a third of the input, but not zero.
fn small_increment(input_len: usize) -> (increment: usize)
    requires
        input_len < SMALL_INPUT,
    ensures
        increment == increment_for(input_len as int),
{
    if input_len < 3 {
        1
    } else {
        input_len / 3
    }
}

impl GrowthPolicy {
    /// The policy for decoding an input of `input_len` bytes.
    pub fn for_decode(input_len: usize) -> (policy: GrowthPolicy)
        ensures
            policy.reserve == decode_reserve(input_len as int),
            policy.increment == increment_for(input_len as int),
    {
        if input_len < SMALL_INPUT {
            GrowthPolicy { reserve: input_len, increment: small_increment(input_len) }
        } else if input_len < LARGE_INPUT {
            GrowthPolicy { reserve: input_len + input_len / 3, increment: MEDIUM_INCREMENT }
        } else if input_len <= usize::MAX / 2 {
            GrowthPolicy { reserve: input_len * 2, increment: LARGE_INCREMENT }
        } else {
            GrowthPolicy { reserve: usize::MAX, increment: LARGE_INCREMENT }
        }
    }

    /// The policy for encoding an input of `input_len` bytes.
    pub fn for_encode(input_len: usize) -> (policy: GrowthPolicy)
        ensures
            policy.reserve == encode_reserve(input_len as int),
            policy.increment == increment_for(input_len as int),
    {
        if input_len < SMALL_INPUT {
            GrowthPolicy { reserve: input_len, increment: small_increment(input_len) }
        } else if input_len < LARGE_INPUT {
            GrowthPolicy { reserve: input_len + input_len / 2, increment: MEDIUM_INCREMENT }
        } else {
            GrowthPolicy { reserve: input_len / 3, increment: LARGE_INCREMENT }
        }
    }
}

/// `Vec::capacity`: the number of bytes the vector can hold without
/// reallocating. The standard library keeps it at or above the length; how
/// far above is up to the allocator, so nothing more is claimed.
#[verifier::external_body]
pub(crate) fn capacity(buffer: &Vec<u8>) -> (total: usize)
    ensures
        total >= buffer@.len(),
{
    buffer.capacity()
}

/// `Vec::try_reserve_exact`: asks the allocator for room for `additional`
/// more bytes. Whether it succeeds is the allocator's decision; either way the
/// contents stay as they were.
#[verifier::external_body]
pub(crate) fn try_reserve_exact(buffer: &mut Vec<u8>, additional: usize) -> (result: Result<
    (),
    TryReserveError,
>)
    ensures
        final(buffer)@ == old(buffer)@,
{
    buffer.try_reserve_exact(additional)
}

} // verus!
