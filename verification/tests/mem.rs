use compu::mem::{array_size, block_layout, BlockLayout, MIN_ALIGN, MIN_ALIGN_WIDE};

const HEADER: usize = std::mem::size_of::<usize>();

#[test]
fn should_add_header_to_requested_size() {
    assert_eq!(
        block_layout(0, HEADER, MIN_ALIGN),
        Some(BlockLayout { size: HEADER, align: MIN_ALIGN })
    );
    assert_eq!(
        block_layout(100, HEADER, MIN_ALIGN),
        Some(BlockLayout { size: 100 + HEADER, align: 8 })
    );
    assert_eq!(
        block_layout(100, HEADER, MIN_ALIGN_WIDE),
        Some(BlockLayout { size: 100 + HEADER, align: 16 })
    );
}

#[test]
fn should_refuse_block_that_no_layout_can_hold() {
    let largest = isize::MAX as usize - (MIN_ALIGN - 1) - HEADER;
    assert_eq!(
        block_layout(largest, HEADER, MIN_ALIGN),
        Some(BlockLayout { size: largest + HEADER, align: MIN_ALIGN })
    );
    assert_eq!(block_layout(largest + 1, HEADER, MIN_ALIGN), None);
    assert_eq!(block_layout(usize::MAX, HEADER, MIN_ALIGN), None);
    assert_eq!(block_layout(usize::MAX - HEADER + 1, HEADER, MIN_ALIGN), None);
    assert_eq!(block_layout(largest - 7, HEADER, MIN_ALIGN_WIDE), None);
    assert!(block_layout(largest - 8, HEADER, MIN_ALIGN_WIDE).is_some());
}

#[test]
fn should_agree_with_std_layout() {
    for size in [0, 1, 7, 8, 1 << 20, isize::MAX as usize - 16, isize::MAX as usize, usize::MAX - 8] {
        for align in [MIN_ALIGN, MIN_ALIGN_WIDE] {
            let expected = size
                .checked_add(HEADER)
                .and_then(|total| std::alloc::Layout::from_size_align(total, align).ok());
            let layout = block_layout(size, HEADER, align);
            assert_eq!(layout.map(|layout| (layout.size, layout.align)), expected.map(|layout| (layout.size(), layout.align())));
        }
    }
}

#[test]
fn should_multiply_items_by_size() {
    assert_eq!(array_size(1, 1), Some(1));
    assert_eq!(array_size(3, 5), Some(15));
    assert_eq!(array_size(65536, 65536), (65536usize).checked_mul(65536));
}

#[test]
fn should_refuse_empty_array() {
    assert_eq!(array_size(0, 0), None);
    assert_eq!(array_size(0, 16), None);
    assert_eq!(array_size(16, 0), None);
}

#[test]
fn should_refuse_array_that_cannot_be_counted() {
    let expected = (u32::MAX as usize).checked_mul(u32::MAX as usize);
    assert_eq!(array_size(u32::MAX, u32::MAX), expected);
    if usize::BITS == 64 {
        assert_eq!(expected, Some(0xFFFF_FFFE_0000_0001));
    } else {
        assert_eq!(expected, None);
    }
}
