//! Physical frames and the kernel heap.
//!
//! The frame allocator hands out, one after the other, the 4 KiB frames of
//! the memory regions that the boot loader reported as usable. The heap lives
//! at a fixed virtual address; the library says which pages it spans, and the
//! caller maps them.

pub mod fixed_size_heap;

use vstd::prelude::*;
use x86_64::structures::paging::{Page, PhysFrame, Size4KiB};
use x86_64::{PhysAddr, VirtAddr};

verus! {

/// Where the mapped heap memory starts.
pub const HEAP_START: u64 = 0x_4444_4444_0000;

/// The size of the heap in bytes.
pub const HEAP_SIZE: u64 = 120 * 1024;

/// The size of a frame and of a page.
pub const FRAME_SIZE: u64 = 4096;

/// Physical addresses lie below this bound.
pub const PHYS_ADDR_LIMIT: u64 = 0x10_0000_0000_0000;

/// Virtual addresses of the lower half lie below this bound.
pub const LOWER_HALF_LIMIT: u64 = 0x8000_0000_0000;

/// The start of the 4 KiB frame or page that holds `addr`.
pub open spec fn containing_start(addr: u64) -> u64 {
    (addr - addr % FRAME_SIZE) as u64
}

/// `x86_64`'s `PhysFrame::<Size4KiB>::containing_address`, on the address
/// made by `PhysAddr::new`, read back as a number: the start of the frame that
/// holds `addr`. `PhysAddr::new` panics at bits 52 to 63, so `addr` must be
/// below `PHYS_ADDR_LIMIT`; `containing_address` aligns the address down to 4 KiB.
#[verifier::external_body]
fn frame_containing(addr: u64) -> (start: u64)
    requires
        addr < PHYS_ADDR_LIMIT,
    ensures
        start == containing_start(addr),
{
    PhysFrame::<Size4KiB>::containing_address(PhysAddr::new(addr)).start_address().as_u64()
}

/// `x86_64`'s `Page::<Size4KiB>::containing_address`, on the address made by
/// `VirtAddr::new`, read back as a number: the start of the page that holds
/// `addr`. Below `LOWER_HALF_LIMIT`, `VirtAddr::new` keeps the address as it is
/// (it neither panics nor sign-extends); `containing_address` aligns it down to 4 KiB.
#[verifier::external_body]
fn page_containing(addr: u64) -> (start: u64)
    requires
        addr < LOWER_HALF_LIMIT,
    ensures
        start == containing_start(addr),
{
    Page::<Size4KiB>::containing_address(VirtAddr::new(addr)).start_address().as_u64()
}

/// The first and the last page of the heap of `heap_size` bytes at `heap_start`.
pub fn heap_page_range(heap_start: u64, heap_size: u64) -> (pages: (u64, u64))
    requires
        heap_size >= 1,
        heap_start + heap_size - 1 < LOWER_HALF_LIMIT,
    ensures
        pages.0 == containing_start(heap_start),
        pages.1 == containing_start((heap_start + heap_size - 1) as u64),
        pages.0 <= heap_start,
        pages.1 + FRAME_SIZE > heap_start + heap_size - 1,
        pages.0 % FRAME_SIZE == 0,
        pages.1 % FRAME_SIZE == 0,
{
    let heap_end = heap_start + heap_size - 1;
    let first = page_containing(heap_start);
    let last = page_containing(heap_end);
    (first, last)
}

/// A region of the physical memory map: its bounds and whether it is free for use.
#[derive(Debug, Clone, Copy, PartialEq, Eq, Structural)]
pub struct MemoryRegion {
    pub start_addr: u64,
    pub end_addr: u64,
    pub usable: bool,
}

/// The number of frame steps of 4 KiB from the start of `r` below its end.
pub open spec fn region_frame_count(r: MemoryRegion) -> nat {
    if r.usable && r.start_addr < r.end_addr {
        ((r.end_addr - r.start_addr - 1) / (FRAME_SIZE as int) + 1) as nat
    } else {
        0
    }
}

/// The frames of `r`: for every address from its start, in steps of 4 KiB,
/// below its end, the frame that holds it; none when `r` is not usable.
pub open spec fn region_frames(r: MemoryRegion) -> Seq<u64> {
    Seq::new(
        region_frame_count(r),
        |k: int| containing_start((r.start_addr + k * FRAME_SIZE) as u64),
    )
}

/// The frames of all usable regions, region after region.
pub open spec fn usable_frames(regions: Seq<MemoryRegion>) -> Seq<u64>
    decreases regions.len(),
{
    if regions.len() == 0 {
        Seq::empty()
    } else {
        usable_frames(regions.drop_last()) + region_frames(regions.last())
    }
}

/// Every usable region lies below `PHYS_ADDR_LIMIT`.
pub open spec fn regions_addressable(regions: Seq<MemoryRegion>) -> bool {
    forall|i: int| 0 <= i < regions.len() && (#[trigger] regions[i]).usable ==>
        regions[i].end_addr <= PHYS_ADDR_LIMIT
}

/// Hands out the usable frames of a memory map, in order.
pub struct InternalFrameAllocator {
    memory_map: Vec<MemoryRegion>,
    next: usize,
}

impl InternalFrameAllocator {
    /// The usable regions lie below the physical address bound.
    pub closed spec fn wf(&self) -> bool {
        regions_addressable(self.memory_map@)
    }

    /// The memory map the frames come from.
    pub closed spec fn regions(&self) -> Seq<MemoryRegion> {
        self.memory_map@
    }

    /// How many frames were handed out.
    pub closed spec fn handed_out(&self) -> nat {
        self.next as nat
    }

    /// A well-formed frame allocator is one whose usable regions lie below the
    /// physical address bound.
    pub proof fn lemma_wf_regions_addressable(&self)
        ensures
            self.wf() <==> regions_addressable(self.regions()),
    {
    }

    /// An allocator over `memory_map` that has handed out nothing.
    pub fn new(memory_map: Vec<MemoryRegion>) -> (a: Self)
        requires
            regions_addressable(memory_map@),
        ensures
            a.wf(),
            a.regions() == memory_map@,
            a.handed_out() == 0,
    {
        InternalFrameAllocator { memory_map, next: 0 }
    }

    /// How many frames were handed out.
    pub fn handed_out_count(&self) -> (n: usize)
        ensures
            n == self.handed_out(),
    {
        self.next
    }

    /// The frame at position `n` of the usable frames, if there are so many.
    pub fn usable_frame(&self, n: usize) -> (frame: Option<u64>)
        requires
            self.wf(),
        ensures
            frame == if n < usable_frames(self.regions()).len() {
                Some(usable_frames(self.regions())[n as int])
            } else {
                None::<u64>
            },
    {
        let ghost regions = self.memory_map@;
        let mut remaining: u64 = n as u64;
        let mut i: usize = 0;
        while i < self.memory_map.len()
            invariant
                regions == self.memory_map@,
                regions_addressable(regions),
                i <= regions.len(),
                remaining + usable_frames(regions.subrange(0, i as int)).len() == n,
            decreases regions.len() - i,
        {
            let region = self.memory_map[i];
            proof {
                assert(regions.subrange(0, i + 1).drop_last() =~= regions.subrange(0, i as int));
                assert(regions.subrange(0, i + 1).last() == region);
            }
            if region.usable && region.start_addr < region.end_addr {
                let count = (region.end_addr - region.start_addr - 1) / FRAME_SIZE + 1;
                if remaining < count {
                    proof {
                        assert(region.end_addr <= PHYS_ADDR_LIMIT) by {
                            assert(regions[i as int] == region);
                        }
                        let span = (region.end_addr - region.start_addr - 1) as int;
                        assert(remaining * 4096 <= span) by (nonlinear_arith)
                            requires remaining < count, count == span / 4096 + 1, span >= 0;
                        lemma_usable_frames_concat(regions.subrange(0, i + 1), regions.subrange(i + 1, regions.len() as int));
                        assert(regions.subrange(0, i + 1) + regions.subrange(i + 1, regions.len() as int) =~= regions);
                    }
                    let addr = region.start_addr + remaining * FRAME_SIZE;
                    return Some(frame_containing(addr));
                }
                remaining -= count;
            }
            i += 1;
        }
        proof {
            assert(regions.subrange(0, regions.len() as int) =~= regions);
        }
        None
    }

    /// Hands out the next usable frame, `None` when all were handed out.
    pub fn allocate_frame(&mut self) -> (frame: Option<u64>)
        requires
            old(self).wf(),
            old(self).handed_out() < usize::MAX,
        ensures
            final(self).wf(),
            final(self).regions() == old(self).regions(),
            final(self).handed_out() == old(self).handed_out() + 1,
            frame == if old(self).handed_out() < usable_frames(old(self).regions()).len() {
                Some(usable_frames(old(self).regions())[old(self).handed_out() as int])
            } else {
                None::<u64>
            },
    {
        let frame = self.usable_frame(self.next);
        self.next += 1;
        frame
    }
}

/// The usable frames of two maps one after the other are those of the first,
/// then those of the second.
pub proof fn lemma_usable_frames_concat(a: Seq<MemoryRegion>, b: Seq<MemoryRegion>)
    ensures
        usable_frames(a + b) == usable_frames(a) + usable_frames(b),
    decreases b.len(),
{
    if b.len() == 0 {
        assert(a + b =~= a);
        assert(usable_frames(a) + usable_frames(b) =~= usable_frames(a));
    } else {
        lemma_usable_frames_concat(a, b.drop_last());
        assert((a + b).drop_last() =~= a + b.drop_last());
        assert((a + b).last() == b.last());
        assert(usable_frames(a + b) =~= usable_frames(a) + usable_frames(b));
    }
}

/// The frame at position `k` of the usable frames, and `i`, the region it comes from.
proof fn lemma_usable_frame_at(regions: Seq<MemoryRegion>, k: int) -> (i: int)
    requires
        regions_addressable(regions),
        0 <= k < usable_frames(regions).len(),
    ensures
        usable_frames(regions)[k] % FRAME_SIZE == 0,
        0 <= i < regions.len(),
        regions[i].usable,
        regions[i].start_addr < regions[i].end_addr,
        containing_start(regions[i].start_addr) <= usable_frames(regions)[k] < regions[i].end_addr,
    decreases regions.len(),
{
    let init = regions.drop_last();
    let r = regions.last();
    let last = regions.len() - 1;
    assert(regions[last] == r);
    assert forall|j: int| 0 <= j < init.len() implies #[trigger] init[j] == regions[j] by {}
    assert(regions_addressable(init));
    let f = usable_frames(regions);
    let fi = usable_frames(init);
    assert(f == fi + region_frames(r));
    if k < fi.len() {
        assert(f[k] == fi[k]);
        lemma_usable_frame_at(init, k)
    } else {
        let j = k - fi.len();
        assert(f[k] == region_frames(r)[j]);
        let span = (r.end_addr - r.start_addr - 1) as int;
        assert(j * 4096 <= span) by (nonlinear_arith)
            requires 0 <= j < span / 4096 + 1, span >= 0;
        let addr = (r.start_addr + j * FRAME_SIZE) as u64;
        assert(containing_start(r.start_addr) <= containing_start(addr));
        last
    }
}

/// Every frame the frame allocator can hand out starts on a 4 KiB boundary
/// and holds memory of a region that is usable.
pub proof fn lemma_usable_frames_in_usable_regions(regions: Seq<MemoryRegion>)
    requires
        regions_addressable(regions),
    ensures
        forall|k: int| 0 <= k < usable_frames(regions).len() ==>
            (#[trigger] usable_frames(regions)[k]) % FRAME_SIZE == 0
            && exists|i: int| 0 <= i < regions.len() && regions[i].usable
                && regions[i].start_addr < regions[i].end_addr
                && containing_start(regions[i].start_addr) <= usable_frames(regions)[k] < regions[i].end_addr,
{
    assert forall|k: int| 0 <= k < usable_frames(regions).len() implies
        (#[trigger] usable_frames(regions)[k]) % FRAME_SIZE == 0
        && exists|i: int| 0 <= i < regions.len() && regions[i].usable
            && regions[i].start_addr < regions[i].end_addr
            && containing_start(regions[i].start_addr) <= usable_frames(regions)[k] < regions[i].end_addr by {
        let i = lemma_usable_frame_at(regions, k);
        assert(regions[i].usable);
    }
}

/// Usable regions with memory start on 4 KiB boundaries, and no two of them overlap.
pub open spec fn usable_regions_aligned_disjoint(regions: Seq<MemoryRegion>) -> bool {
    &&& forall|i: int| 0 <= i < regions.len() && (#[trigger] regions[i]).usable ==>
        regions[i].start_addr % FRAME_SIZE == 0
    &&& forall|i: int, j: int|
        0 <= i < regions.len() && 0 <= j < regions.len() && i != j
            && (#[trigger] regions[i]).usable && regions[i].start_addr < regions[i].end_addr
            && (#[trigger] regions[j]).usable && regions[j].start_addr < regions[j].end_addr ==>
            regions[i].end_addr <= regions[j].start_addr || regions[j].end_addr <= regions[i].start_addr
}

/// The frames of a usable region that starts on a 4 KiB boundary are its
/// start and the addresses 4 KiB apart after it, below its end.
proof fn lemma_aligned_region_frames(r: MemoryRegion, k: int)
    requires
        r.usable,
        r.start_addr < r.end_addr,
        r.end_addr <= PHYS_ADDR_LIMIT,
        r.start_addr % FRAME_SIZE == 0,
        0 <= k < region_frame_count(r),
    ensures
        region_frames(r)[k] == r.start_addr + k * 4096,
        r.start_addr <= region_frames(r)[k] < r.end_addr,
{
    let span = (r.end_addr - r.start_addr - 1) as int;
    assert(k * 4096 <= span) by (nonlinear_arith)
        requires 0 <= k < span / 4096 + 1, span >= 0;
    let addr = r.start_addr + k * 4096;
    assert(addr % 4096 == 0) by (nonlinear_arith)
        requires addr == r.start_addr + k * 4096, r.start_addr % 4096 == 0, k >= 0, r.start_addr >= 0;
}

/// The frames of usable regions that start on 4 KiB boundaries and do not
/// overlap are all different.
pub proof fn lemma_usable_frames_distinct(regions: Seq<MemoryRegion>)
    requires
        regions_addressable(regions),
        usable_regions_aligned_disjoint(regions),
    ensures
        usable_frames(regions).no_duplicates(),
    decreases regions.len(),
{
    if regions.len() > 0 {
        let init = regions.drop_last();
        let last = regions.len() - 1;
        let r = regions.last();
        assert(regions[last] == r);
        assert forall|i: int| 0 <= i < init.len() implies #[trigger] init[i] == regions[i] by {}
        assert(regions_addressable(init));
        assert(usable_regions_aligned_disjoint(init)) by {
            assert forall|i: int, j: int|
                0 <= i < init.len() && 0 <= j < init.len() && i != j
                    && (#[trigger] init[i]).usable && init[i].start_addr < init[i].end_addr
                    && (#[trigger] init[j]).usable && init[j].start_addr < init[j].end_addr implies
                    init[i].end_addr <= init[j].start_addr || init[j].end_addr <= init[i].start_addr by {
                assert(init[i] == regions[i] && init[j] == regions[j]);
            }
        }
        lemma_usable_frames_distinct(init);
        let f = usable_frames(regions);
        let fi = usable_frames(init);
        let fr = region_frames(r);
        assert(f == fi + fr);
        assert forall|a: int, b: int| 0 <= a < f.len() && 0 <= b < f.len() && a != b implies f[a] != f[b] by {
            if a < fi.len() && b < fi.len() {
                assert(f[a] == fi[a] && f[b] == fi[b]);
            } else if a >= fi.len() && b >= fi.len() {
                lemma_aligned_region_frames(r, a - fi.len());
                lemma_aligned_region_frames(r, b - fi.len());
            } else {
                let (x, y) = if a < fi.len() { (a, b) } else { (b, a) };
                assert(f[x] == fi[x]);
                let i = lemma_usable_frame_at(init, x);
                assert(init[i] == regions[i]);
                assert(regions[i].start_addr % FRAME_SIZE == 0);
                assert(containing_start(regions[i].start_addr) == regions[i].start_addr);
                lemma_aligned_region_frames(r, y - fi.len());
                assert(regions[i].end_addr <= regions[last].start_addr
                    || regions[last].end_addr <= regions[i].start_addr);
            }
        }
    }
}

/// A frame allocator over usable regions that start on 4 KiB boundaries and
/// do not overlap never hands out the same frame twice: the frames at two
/// different positions of its sequence differ.
pub proof fn lemma_no_frame_handed_out_twice(regions: Seq<MemoryRegion>, n1: int, n2: int)
    requires
        regions_addressable(regions),
        usable_regions_aligned_disjoint(regions),
        0 <= n1 < usable_frames(regions).len(),
        0 <= n2 < usable_frames(regions).len(),
        n1 != n2,
    ensures
        usable_frames(regions)[n1] != usable_frames(regions)[n2],
{
    lemma_usable_frames_distinct(regions);
}

} // verus!
