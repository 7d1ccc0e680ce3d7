//! Sizes for an allocator that serves a codec's `malloc`, `calloc` and
//! `free` from the host's allocator.
//!
//! `free` is handed a pointer and nothing else, so every block carries its
//! size in a header in front of the bytes handed out. The functions here say
//! how large the block for a request is and whether the request can be
//! served at all; taking and returning the memory is left to the caller.
use vstd::prelude::*;

verus! {

/// Alignment of every block on most targets.
pub const MIN_ALIGN: usize = 8;

/// Alignment of every block on 64-bit Windows and on macOS.
pub const MIN_ALIGN_WIDE: usize = 16;

/// Size and alignment of a block.
#[derive(Debug, Clone, Copy, PartialEq, Eq, Structural)]
pub struct BlockLayout {
    /// Bytes to take from the host's allocator: the header and the bytes
    /// handed out.
    pub size: usize,
    /// Alignment of the block.
    pub align: usize,
}

/// The largest size that a block of alignment `align` may have: rounded up
/// to a multiple of `align` it must not exceed `isize::MAX`.
pub open spec fn max_size(align: usize) -> int {
    isize::MAX - (align - 1)
}

/// The layout of the block that serves a request for `size` bytes with a
/// header of `header` bytes, if there is one: the two must add up to a size
/// that a block of this alignment may have.
pub open spec fn layout_for(size: usize, header: usize, align: usize) -> Option<BlockLayout> {
    if size + header <= max_size(align) {
        Some(BlockLayout { size: (size + header) as usize, align })
    } else {
        None
    }
}

/// The layout of the block to allocate for a request of `size` bytes, or
/// `None` if the request is too large to be served. The header comes first
/// in the block, and the bytes handed out start `header` bytes in. With the
/// size that the header records, this is also the layout to free the block
/// with.
pub fn block_layout(size: usize, header: usize, align: usize) -> (layout: Option<BlockLayout>)
    requires
        align == MIN_ALIGN || align == MIN_ALIGN_WIDE,
    ensures
        layout == layout_for(size, header, align),
{
    let limit = isize::MAX as usize - (align - 1);
    if header <= limit && size <= limit - header {
        Some(BlockLayout { size: size + header, align })
    } else {
        None
    }
}

/// The number of bytes that a `calloc` of `items` items of `size` bytes each
/// asks for, if it can be served: the product, unless it is zero or does
/// not fit.
pub open spec fn array_size_for(items: u32, size: u32) -> Option<usize> {
    if items * size == 0 || items * size > usize::MAX {
        None
    } else {
        Some((items * size) as usize)
    }
}

/// The number of bytes to allocate for `items` items of `size` bytes each, or
/// `None` if nothing is to be allocated: a request for zero bytes, or for
/// more than can be counted.
pub fn array_size(items: u32, size: u32) -> (bytes: Option<usize>)
    ensures
        bytes == array_size_for(items, size),
{
    assert(items * size <= 0xFFFF_FFFF * 0xFFFF_FFFF) by (nonlinear_arith)
        requires
            0 <= items <= 0xFFFF_FFFF,
            0 <= size <= 0xFFFF_FFFF,
    ;
    let total: u64 = items as u64 * size as u64;
    if total == 0 || total > usize::MAX as u64 {
        None
    } else {
        Some(total as usize)
    }
}

} // verus!
