use minikernel::memory::fixed_size_heap::{block_size_at, FixedSizeAllocator, Layout, BLOCK_SIZE_COUNT};
use minikernel::memory::{heap_page_range, InternalFrameAllocator, MemoryRegion, HEAP_SIZE, HEAP_START};

fn layout(size: usize, align: usize) -> Layout {
    Layout { size, align }
}

/// The shares that ten percent of the heap gives each size class.
fn tenth_shares(heap_size: usize) -> Vec<usize> {
    vec![heap_size / 10; BLOCK_SIZE_COUNT]
}

#[test]
fn heap_constants() {
    assert_eq!(HEAP_START, 0x_4444_4444_0000);
    assert_eq!(HEAP_SIZE, 120 * 1024);
}

#[test]
fn block_sizes() {
    let sizes: Vec<usize> = (0..BLOCK_SIZE_COUNT).map(block_size_at).collect();
    assert_eq!(sizes, vec![8, 16, 32, 64, 128, 256, 512, 1024, 2048, 4096]);
}

#[test]
fn block_size_for_picks_smallest_fitting_block() {
    assert_eq!(FixedSizeAllocator::block_size_for(&layout(1, 1)), Some(0));
    assert_eq!(FixedSizeAllocator::block_size_for(&layout(8, 8)), Some(0));
    assert_eq!(FixedSizeAllocator::block_size_for(&layout(9, 1)), Some(1));
    assert_eq!(FixedSizeAllocator::block_size_for(&layout(100, 8)), Some(4));
    assert_eq!(FixedSizeAllocator::block_size_for(&layout(8, 64)), Some(3));
    assert_eq!(FixedSizeAllocator::block_size_for(&layout(4096, 8)), Some(9));
    assert_eq!(FixedSizeAllocator::block_size_for(&layout(0, 4096)), Some(9));
    assert_eq!(FixedSizeAllocator::block_size_for(&layout(4097, 1)), None);
    assert_eq!(FixedSizeAllocator::block_size_for(&layout(1, 8192)), None);
}

#[test]
fn new_allocator_has_no_free_blocks() {
    let mut a = FixedSizeAllocator::new();
    for i in 0..BLOCK_SIZE_COUNT {
        assert!(a.free_blocks(i).is_empty());
    }
    assert_eq!(a.allocate(&layout(8, 8)), None);
}

#[test]
fn init_divides_heap_into_blocks() {
    let mut a = FixedSizeAllocator::new();
    let heap = HEAP_START as usize;
    let shares = tenth_shares(HEAP_SIZE as usize);
    a.init(heap, &shares);
    for i in 0..BLOCK_SIZE_COUNT {
        assert_eq!(a.free_blocks(i).len(), 12288 / block_size_at(i));
    }
    // The first block of each share is handed out first
    assert_eq!(a.allocate(&layout(8, 8)), Some(heap));
    assert_eq!(a.allocate(&layout(8, 8)), Some(heap + 8));
    assert_eq!(a.allocate(&layout(16, 8)), Some(heap + 12288));
    assert_eq!(a.allocate(&layout(3000, 8)), Some(heap + 9 * 12288));
    assert_eq!(a.allocate(&layout(3000, 8)), Some(heap + 9 * 12288 + 4096));
    assert_eq!(a.allocate(&layout(3000, 8)), Some(heap + 9 * 12288 + 8192));
    assert_eq!(a.allocate(&layout(3000, 8)), None);
}

#[test]
fn init_share_too_small_for_a_block_leaves_list() {
    let mut a = FixedSizeAllocator::new();
    a.deallocate(0x9000, &layout(4096, 8));
    let mut shares = vec![64; BLOCK_SIZE_COUNT];
    shares[0] = 16;
    a.init(0x1000, &shares);
    assert_eq!(a.free_blocks(0).as_slice(), &[0x1008, 0x1000]);
    assert_eq!(a.free_blocks(3).as_slice(), &[0x1000 + 16 + 2 * 64]);
    assert_eq!(a.free_blocks(4).len(), 0);
    assert_eq!(a.free_blocks(9).as_slice(), &[0x9000]);
}

#[test]
fn init_blocks_are_disjoint_aligned_and_inside_the_heap() {
    let mut a = FixedSizeAllocator::new();
    let heap = HEAP_START as usize;
    let shares = tenth_shares(HEAP_SIZE as usize);
    a.init(heap, &shares);
    let mut blocks: Vec<(usize, usize)> = Vec::new();
    for i in 0..BLOCK_SIZE_COUNT {
        for &p in a.free_blocks(i) {
            assert_eq!(p % block_size_at(i), 0);
            blocks.push((p, block_size_at(i)));
        }
    }
    blocks.sort();
    assert!(blocks.first().unwrap().0 >= heap);
    let last = blocks.last().unwrap();
    assert!(last.0 + last.1 <= heap + HEAP_SIZE as usize);
    for pair in blocks.windows(2) {
        assert!(pair[0].0 + pair[0].1 <= pair[1].0);
    }
}

#[test]
fn allocate_fails_for_too_large_layout() {
    let mut a = FixedSizeAllocator::new();
    a.init(0x10000, &tenth_shares(0x40000));
    assert_eq!(a.allocate(&layout(4097, 8)), None);
    assert_eq!(a.free_blocks(9).len(), (0x40000 / 10) / 4096);
}

#[test]
fn deallocate_then_allocate_returns_same_block() {
    let mut a = FixedSizeAllocator::new();
    a.init(0x10000, &tenth_shares(0x40000));
    let before: Vec<Vec<usize>> = (0..BLOCK_SIZE_COUNT).map(|i| a.free_blocks(i).clone()).collect();
    a.deallocate(0xdead0, &layout(24, 8));
    assert_eq!(a.allocate(&layout(20, 4)), Some(0xdead0));
    let after: Vec<Vec<usize>> = (0..BLOCK_SIZE_COUNT).map(|i| a.free_blocks(i).clone()).collect();
    assert_eq!(before, after);
}

#[test]
fn allocate_then_deallocate_restores_free_lists() {
    let mut a = FixedSizeAllocator::new();
    a.init(0x10000, &tenth_shares(0x40000));
    let before: Vec<Vec<usize>> = (0..BLOCK_SIZE_COUNT).map(|i| a.free_blocks(i).clone()).collect();
    let p = a.allocate(&layout(200, 16)).unwrap();
    assert_eq!(p, 0x10000 + 5 * (0x40000 / 10));
    a.deallocate(p, &layout(200, 16));
    let after: Vec<Vec<usize>> = (0..BLOCK_SIZE_COUNT).map(|i| a.free_blocks(i).clone()).collect();
    assert_eq!(before, after);
}

#[test]
fn deallocate_for_too_large_layout_changes_nothing() {
    let mut a = FixedSizeAllocator::new();
    a.deallocate(0x5000, &layout(5000, 8));
    for i in 0..BLOCK_SIZE_COUNT {
        assert!(a.free_blocks(i).is_empty());
    }
}

fn region(start_addr: u64, end_addr: u64, usable: bool) -> MemoryRegion {
    MemoryRegion { start_addr, end_addr, usable }
}

#[test]
fn frames_come_from_usable_regions_in_order() {
    let map = vec![
        region(0x0, 0x1000, false),
        region(0x1000, 0x3000, true),
        region(0x3000, 0x8000, false),
        region(0x8000, 0x9000, true),
        region(0x9000, 0x9000, true),
    ];
    let mut frames = InternalFrameAllocator::new(map);
    assert_eq!(frames.usable_frame(0), Some(0x1000));
    assert_eq!(frames.usable_frame(2), Some(0x8000));
    assert_eq!(frames.usable_frame(3), None);
    assert_eq!(frames.allocate_frame(), Some(0x1000));
    assert_eq!(frames.allocate_frame(), Some(0x2000));
    assert_eq!(frames.allocate_frame(), Some(0x8000));
    assert_eq!(frames.allocate_frame(), None);
    assert_eq!(frames.allocate_frame(), None);
}

#[test]
fn frames_of_unaligned_region_start_on_frame_boundaries() {
    let map = vec![region(0x1234, 0x3001, true)];
    let frames = InternalFrameAllocator::new(map);
    assert_eq!(frames.usable_frame(0), Some(0x1000));
    assert_eq!(frames.usable_frame(1), Some(0x2000));
    assert_eq!(frames.usable_frame(2), None);
}

#[test]
fn heap_pages_cover_the_heap() {
    assert_eq!(heap_page_range(HEAP_START, HEAP_SIZE), (0x4444_4444_0000, 0x4444_4445_D000));
    assert_eq!(heap_page_range(0x1008, 0x1000), (0x1000, 0x2000));
    assert_eq!(heap_page_range(0x1008, 1), (0x1000, 0x1000));
}

#[test]
fn no_block_handed_out_twice() {
    let mut a = FixedSizeAllocator::new();
    a.init(0x10000, &tenth_shares(0x8000));
    let mut handed_out: Vec<usize> = Vec::new();
    while let Some(p) = a.allocate(&layout(64, 8)) {
        handed_out.push(p);
    }
    while let Some(p) = a.allocate(&layout(16, 16)) {
        handed_out.push(p);
    }
    let count = handed_out.len();
    assert_eq!(count, (0x8000 / 10) / 64 + (0x8000 / 10) / 16);
    handed_out.sort();
    handed_out.dedup();
    assert_eq!(handed_out.len(), count);
}

#[test]
fn no_frame_handed_out_twice() {
    let map = vec![
        region(0x5000, 0x8000, true),
        region(0x1000, 0x3000, true),
        region(0x3000, 0x5000, false),
        region(0x8000, 0xa000, true),
    ];
    let mut frames = InternalFrameAllocator::new(map);
    let mut handed_out: Vec<u64> = Vec::new();
    while let Some(f) = frames.allocate_frame() {
        handed_out.push(f);
    }
    assert_eq!(handed_out, vec![0x5000, 0x6000, 0x7000, 0x1000, 0x2000, 0x8000, 0x9000]);
    handed_out.sort();
    handed_out.dedup();
    assert_eq!(handed_out.len(), 7);
}
