//! A heap allocator that divides its memory into blocks of a few fixed sizes
//! and hands out the smallest block that fits a request.
//!
//! Fast, at the price of waste: a one-byte request takes an 8-byte block.
//! The allocator keeps, for each block size, the addresses of the free blocks
//! of that size; the block handed out next is the last of its list, and a
//! freed block becomes the last of its list.

use vstd::prelude::*;

verus! {

/// The number of block sizes.
pub const BLOCK_SIZE_COUNT: usize = 10;

/// The block sizes, smallest first. The smallest is 8 bytes so that a free
/// block can always hold a link to the next one.
pub open spec fn block_sizes() -> Seq<usize> {
    seq![8, 16, 32, 64, 128, 256, 512, 1024, 2048, 4096]
}

/// The size of the blocks of size class `index`.
pub fn block_size_at(index: usize) -> (size: usize)
    requires
        index < BLOCK_SIZE_COUNT,
    ensures
        size == block_sizes()[index as int],
{
    match index {
        0 => 8,
        1 => 16,
        2 => 32,
        3 => 64,
        4 => 128,
        5 => 256,
        6 => 512,
        7 => 1024,
        8 => 2048,
        _ => 4096,
    }
}

/// The size and alignment of a requested allocation.
#[derive(Debug, Clone, Copy, PartialEq, Eq, Structural)]
pub struct Layout {
    pub size: usize,
    pub align: usize,
}

/// The smallest block size that a request for `layout` needs.
pub open spec fn required_block_size(layout: Layout) -> usize {
    if layout.size >= layout.align { layout.size } else { layout.align }
}

/// The size class that serves `layout`: the first whose blocks are at least
/// the required size, or `None` when even the largest blocks are too small.
pub open spec fn size_class_for(layout: Layout) -> Option<int> {
    if exists|i: int| 0 <= i < BLOCK_SIZE_COUNT && block_sizes()[i] >= required_block_size(layout) {
        Some(choose|i: int|
            0 <= i < BLOCK_SIZE_COUNT && block_sizes()[i] >= required_block_size(layout)
                && forall|j: int| 0 <= j < i ==> block_sizes()[j] < required_block_size(layout))
    } else {
        None
    }
}

/// The free blocks of each size class, the block handed out next last.
pub type FreeLists = Seq<Seq<usize>>;

/// The blocks `start`, `start + block_size`, ... of `count` blocks, in the
/// order in which they are handed out: `start` first.
pub open spec fn block_run(start: int, block_size: int, count: int) -> Seq<usize> {
    Seq::new(count as nat, |j: int| (start + (count - 1 - j) * block_size) as usize)
}

/// The result and the free lists after an allocation for `layout`.
pub open spec fn allocate_spec(lists: FreeLists, layout: Layout) -> (FreeLists, Option<usize>) {
    match size_class_for(layout) {
        None => (lists, None),
        Some(i) => if lists[i].len() == 0 {
            (lists, None)
        } else {
            (lists.update(i, lists[i].drop_last()), Some(lists[i].last()))
        },
    }
}

/// The free lists after the block at `ptr`, allocated for `layout`, is given back.
pub open spec fn deallocate_spec(lists: FreeLists, ptr: usize, layout: Layout) -> FreeLists {
    match size_class_for(layout) {
        None => lists,
        Some(i) => lists.update(i, lists[i].push(ptr)),
    }
}

/// The sum of the first `n` memory shares.
pub open spec fn share_prefix(shares: Seq<usize>, n: int) -> int
    decreases n,
{
    if n <= 0 {
        0
    } else {
        share_prefix(shares, n - 1) + shares[n - 1]
    }
}

/// The free lists after `init` with these shares: where a share holds at
/// least one block, the list of that size class is the run of blocks that
/// fills it from its start; else the list is left as it was.
pub open spec fn init_spec(lists: FreeLists, heap_address: int, shares: Seq<usize>) -> FreeLists {
    Seq::new(
        BLOCK_SIZE_COUNT as nat,
        |i: int| {
            let count = shares[i] / block_sizes()[i];
            if count > 0 {
                block_run(heap_address + share_prefix(shares, i), block_sizes()[i] as int, count as int)
            } else {
                lists[i]
            }
        },
    )
}

pub struct FixedSizeAllocator {
    free_lists: Vec<Vec<usize>>,
}

impl View for FixedSizeAllocator {
    type V = FreeLists;

    closed spec fn view(&self) -> FreeLists {
        Seq::new(self.free_lists@.len(), |i: int| self.free_lists@[i]@)
    }
}

impl FixedSizeAllocator {
    /// There is one free list for each block size.
    pub closed spec fn wf(&self) -> bool {
        self.free_lists@.len() == BLOCK_SIZE_COUNT
    }

    /// A well-formed allocator is one with a free list for each block size.
    pub proof fn lemma_wf_has_all_lists(&self)
        ensures
            self.wf() <==> self@.len() == BLOCK_SIZE_COUNT,
    {
    }

    /// On any allocator, a block given back for `layout` is the next one handed
    /// out for it, and the free lists are then as before; and giving back a
    /// block just handed out restores the free lists.
    pub proof fn lemma_round_trips(&self, ptr: usize, layout: Layout)
        requires
            self.wf(),
        ensures
            size_class_for(layout) is Some ==>
                allocate_spec(deallocate_spec(self@, ptr, layout), layout) == (self@, Some(ptr)),
            allocate_spec(self@, layout).1 is Some ==>
                deallocate_spec(allocate_spec(self@, layout).0, allocate_spec(self@, layout).1->0, layout) == self@,
    {
        if size_class_for(layout) is Some {
            lemma_deallocate_then_allocate(self@, ptr, layout);
        }
        if allocate_spec(self@, layout).1 is Some {
            lemma_allocate_then_deallocate(self@, layout);
        }
    }

    /// An allocator with no free blocks.
    pub fn new() -> (a: Self)
        ensures
            a.wf(),
            a@ == Seq::new(BLOCK_SIZE_COUNT as nat, |i: int| Seq::<usize>::empty()),
    {
        let mut free_lists: Vec<Vec<usize>> = Vec::new();
        let mut i: usize = 0;
        while i < BLOCK_SIZE_COUNT
            invariant
                i <= BLOCK_SIZE_COUNT,
                free_lists@.len() == i,
                forall|k: int| 0 <= k < i ==> (#[trigger] free_lists@[k])@ == Seq::<usize>::empty(),
            decreases BLOCK_SIZE_COUNT - i,
        {
            free_lists.push(Vec::new());
            i += 1;
        }
        let a = FixedSizeAllocator { free_lists };
        assert(a@ =~= Seq::new(BLOCK_SIZE_COUNT as nat, |i: int| Seq::<usize>::empty()));
        a
    }

    /// The free blocks of size class `index`, the one handed out next last.
    pub fn free_blocks(&self, index: usize) -> (blocks: &Vec<usize>)
        requires
            self.wf(),
            index < BLOCK_SIZE_COUNT,
        ensures
            blocks@ == self@[index as int],
    {
        &self.free_lists[index]
    }

    /// Sets the free list of the size class of `block_size` to `count` blocks
    /// of that size placed one after the other from `start_address`, the block
    /// at `start_address` handed out first. With no blocks, nothing changes.
    fn create_blocks(&mut self, block_size: usize, count: usize, start_address: usize)
        requires
            old(self).wf(),
            block_sizes().contains(block_size),
            count == 0 || start_address + (count - 1) * block_size <= usize::MAX,
        ensures
            final(self).wf(),
            count == 0 ==> final(self)@ == old(self)@,
            count > 0 ==> final(self)@ == old(self)@.update(
                block_sizes().index_of(block_size),
                block_run(start_address as int, block_size as int, count as int),
            ),
    {
        if count == 0 {
            return;
        }
        // The size class whose blocks have this size
        let mut head_index: usize = 0;
        while block_size_at(head_index) != block_size
            invariant
                head_index < BLOCK_SIZE_COUNT,
                block_sizes().contains(block_size),
                forall|j: int| 0 <= j < head_index ==> block_sizes()[j] != block_size,
            decreases BLOCK_SIZE_COUNT - head_index,
        {
            head_index += 1;
            if head_index == BLOCK_SIZE_COUNT {
                proof {
                    let k = choose|k: int| 0 <= k < block_sizes().len() && block_sizes()[k] == block_size;
                    assert(block_sizes()[k] == block_size);
                }
            }
        }
        proof {
            lemma_sizes_distinct();
            block_sizes().index_of_first_ensures(block_size);
        }
        // The block at `start_address` goes last, to be handed out first
        let ghost run = block_run(start_address as int, block_size as int, count as int);
        let mut blocks: Vec<usize> = Vec::new();
        let mut i: usize = count;
        while i > 0
            invariant
                i <= count,
                count > 0,
                start_address + (count - 1) * block_size <= usize::MAX,
                run == block_run(start_address as int, block_size as int, count as int),
                blocks@ == run.subrange(0, (count - i) as int),
            decreases i,
        {
            proof {
                lemma_mul_le((i - 1) as int, (count - 1) as int, block_size as int);
            }
            let addr = start_address + (i - 1) * block_size;
            blocks.push(addr);
            i -= 1;
            assert(blocks@ =~= run.subrange(0, (count - i) as int));
        }
        assert(blocks@ =~= run);
        self.free_lists.set(head_index, blocks);
        assert(self@ =~= old(self)@.update(head_index as int, run));
    }

    /// Fills the free lists from the heap at `heap_address`: size class `i` gets
    /// `memory_shares[i]` bytes, the shares lying one after the other in class
    /// order, and its list becomes as many of its blocks as fit in its share.
    /// A share too small for one block leaves its list as it was.
    pub fn init(&mut self, heap_address: usize, memory_shares: &Vec<usize>)
        requires
            old(self).wf(),
            memory_shares.len() == BLOCK_SIZE_COUNT,
            heap_address + share_prefix(memory_shares@, BLOCK_SIZE_COUNT as int) <= usize::MAX,
        ensures
            final(self).wf(),
            final(self)@ == init_spec(old(self)@, heap_address as int, memory_shares@),
    {
        let ghost shares = memory_shares@;
        let ghost target = init_spec(old(self)@, heap_address as int, shares);
        let mut current_memory_offset = heap_address;
        let mut index: usize = 0;
        while index < BLOCK_SIZE_COUNT
            invariant
                index <= BLOCK_SIZE_COUNT,
                self.wf(),
                shares == memory_shares@,
                shares.len() == BLOCK_SIZE_COUNT,
                heap_address + share_prefix(shares, BLOCK_SIZE_COUNT as int) <= usize::MAX,
                current_memory_offset == heap_address + share_prefix(shares, index as int),
                target == init_spec(old(self)@, heap_address as int, shares),
                self@.len() == BLOCK_SIZE_COUNT,
                forall|k: int| 0 <= k < BLOCK_SIZE_COUNT ==>
                    #[trigger] self@[k] == if k < index { target[k] } else { old(self)@[k] },
            decreases BLOCK_SIZE_COUNT - index,
        {
            let block_size = block_size_at(index);
            let memory_share = memory_shares[index];
            let block_count = memory_share / block_size;
            proof {
                lemma_share_prefix_monotone(shares, index as int + 1, BLOCK_SIZE_COUNT as int);
                assert(block_count * block_size <= memory_share) by (nonlinear_arith)
                    requires block_count == memory_share / block_size, block_size > 0;
                if block_count > 0 {
                    lemma_mul_le((block_count - 1) as int, block_count as int, block_size as int);
                }
                assert(block_sizes().contains(block_size)) by {
                    assert(block_sizes()[index as int] == block_size);
                }
                lemma_sizes_distinct();
                block_sizes().index_of_first_ensures(block_size);
                assert(block_sizes().index_of(block_size) == index);
            }
            self.create_blocks(block_size, block_count, current_memory_offset);
            current_memory_offset += memory_share;
            index += 1;
        }
        assert(self@ =~= target);
    }

    /// Hands out the next free block of the size class of `layout`: `None`
    /// when no size class fits or the class has no free block left.
    pub fn allocate(&mut self, layout: &Layout) -> (ptr: Option<usize>)
        requires
            old(self).wf(),
        ensures
            final(self).wf(),
            (final(self)@, ptr) == allocate_spec(old(self)@, *layout),
    {
        match FixedSizeAllocator::block_size_for(layout) {
            Some(index) => {
                let mut list = self.free_lists.remove(index);
                let node = list.pop();
                self.free_lists.insert(index, list);
                assert(self@ =~= allocate_spec(old(self)@, *layout).0);
                node
            },
            None => None,
        }
    }

    /// Gives back the block at `ptr` that was handed out for `layout`: it
    /// becomes the next block of its size class. Nothing changes when no size
    /// class fits `layout`.
    pub fn deallocate(&mut self, ptr: usize, layout: &Layout)
        requires
            old(self).wf(),
        ensures
            final(self).wf(),
            final(self)@ == deallocate_spec(old(self)@, ptr, *layout),
    {
        match FixedSizeAllocator::block_size_for(layout) {
            Some(index) => {
                let mut list = self.free_lists.remove(index);
                list.push(ptr);
                self.free_lists.insert(index, list);
                assert(self@ =~= deallocate_spec(old(self)@, ptr, *layout));
            },
            None => {},
        }
    }

    /// The size class for `layout`: the index of the first block size that is
    /// at least the larger of its size and alignment, if one is.
    pub fn block_size_for(layout: &Layout) -> (index: Option<usize>)
        ensures
            index == match size_class_for(*layout) {
                Some(i) => Some(i as usize),
                None => None::<usize>,
            },
            index matches Some(i) ==> i < BLOCK_SIZE_COUNT
                && block_sizes()[i as int] >= required_block_size(*layout)
                && forall|j: int| 0 <= j < i ==> block_sizes()[j] < required_block_size(*layout),
            index is None <==> required_block_size(*layout) > 4096,
    {
        let required = if layout.size >= layout.align { layout.size } else { layout.align };
        let mut i: usize = 0;
        while i < BLOCK_SIZE_COUNT
            invariant
                i <= BLOCK_SIZE_COUNT,
                required == required_block_size(*layout),
                forall|j: int| 0 <= j < i ==> block_sizes()[j] < required,
            decreases BLOCK_SIZE_COUNT - i,
        {
            if block_size_at(i) >= required {
                proof {
                    lemma_size_class_is(*layout, i as int);
                }
                return Some(i);
            }
            i += 1;
        }
        proof {
            assert(block_sizes()[9] < required);
        }
        None
    }
}

/// `i` is the size class of `layout` when its block size fits and no smaller one does.
proof fn lemma_size_class_is(layout: Layout, i: int)
    requires
        0 <= i < BLOCK_SIZE_COUNT,
        block_sizes()[i] >= required_block_size(layout),
        forall|j: int| 0 <= j < i ==> block_sizes()[j] < required_block_size(layout),
    ensures
        size_class_for(layout) == Some(i),
{
    let req = required_block_size(layout);
    let k = choose|k: int|
        0 <= k < BLOCK_SIZE_COUNT && block_sizes()[k] >= req
            && forall|j: int| 0 <= j < k ==> block_sizes()[j] < req;
    assert(size_class_for(layout) == Some(k));
    if k < i {
        assert(block_sizes()[k] < req);
    }
    if i < k {
        assert(block_sizes()[i] < req);
    }
}

/// A size class, when there is one, is a valid index whose blocks fit the request.
pub proof fn lemma_size_class_fits(layout: Layout)
    ensures
        size_class_for(layout) matches Some(i) ==> 0 <= i < BLOCK_SIZE_COUNT
            && block_sizes()[i] >= required_block_size(layout)
            && forall|j: int| 0 <= j < i ==> block_sizes()[j] < required_block_size(layout),
        size_class_for(layout) is None <==> required_block_size(layout) > 4096,
{
    let req = required_block_size(layout);
    if req <= 4096 {
        let i: int = if req <= 8 { 0 } else if req <= 16 { 1 } else if req <= 32 { 2 } else if req <= 64 { 3 }
            else if req <= 128 { 4 } else if req <= 256 { 5 } else if req <= 512 { 6 } else if req <= 1024 { 7 }
            else if req <= 2048 { 8 } else { 9 };
        lemma_size_class_is(layout, i);
    } else {
        if exists|i: int| 0 <= i < BLOCK_SIZE_COUNT && block_sizes()[i] >= req {
            let i = choose|i: int| 0 <= i < BLOCK_SIZE_COUNT && block_sizes()[i] >= req;
            assert(block_sizes()[i] <= 4096);
        }
    }
}

/// A block handed out for `layout` was the next free block of its size class,
/// and blocks of that class are at least as large as the request and its alignment.
pub proof fn lemma_allocated_block_fits(lists: FreeLists, layout: Layout)
    requires
        lists.len() == BLOCK_SIZE_COUNT,
    ensures
        allocate_spec(lists, layout).1 matches Some(p) ==> size_class_for(layout) matches Some(i)
            && 0 <= i < BLOCK_SIZE_COUNT
            && block_sizes()[i] >= layout.size
            && block_sizes()[i] >= layout.align
            && lists[i].len() > 0
            && p == lists[i].last()
            && allocate_spec(lists, layout).0[i] == lists[i].drop_last(),
{
    lemma_size_class_fits(layout);
}

/// A block given back for `layout` is the next one handed out for the same
/// layout, and the free lists are then as they were before.
pub proof fn lemma_deallocate_then_allocate(lists: FreeLists, ptr: usize, layout: Layout)
    requires
        lists.len() == BLOCK_SIZE_COUNT,
        size_class_for(layout) is Some,
    ensures
        allocate_spec(deallocate_spec(lists, ptr, layout), layout) == (lists, Some(ptr)),
{
    lemma_size_class_fits(layout);
    let i = size_class_for(layout)->0;
    let d = deallocate_spec(lists, ptr, layout);
    assert(d[i] == lists[i].push(ptr));
    assert(d[i].drop_last() =~= lists[i]);
    assert(d.update(i, d[i].drop_last()) =~= lists);
}

/// Giving back a block just handed out for the same layout leaves the free
/// lists as they were before.
pub proof fn lemma_allocate_then_deallocate(lists: FreeLists, layout: Layout)
    requires
        lists.len() == BLOCK_SIZE_COUNT,
        allocate_spec(lists, layout).1 is Some,
    ensures
        deallocate_spec(allocate_spec(lists, layout).0, allocate_spec(lists, layout).1->0, layout) == lists,
{
    lemma_size_class_fits(layout);
    let i = size_class_for(layout)->0;
    let a = allocate_spec(lists, layout).0;
    assert(a[i].push(lists[i].last()) =~= lists[i]);
    assert(a.update(i, a[i].push(lists[i].last())) =~= lists);
}

/// The `a`-th block of size class `i` after `init`, from the start of the heap.
pub open spec fn init_block(heap_address: int, shares: Seq<usize>, i: int, a: int) -> int {
    let count = (shares[i] / block_sizes()[i]) as int;
    heap_address + share_prefix(shares, i) + (count - 1 - a) * block_sizes()[i]
}

/// Where the `a`-th block of class `i` lies after `init`: inside the share of
/// its class, at a whole number of its block size from the share's start.
proof fn lemma_init_block_place(heap_address: int, shares: Seq<usize>, i: int, a: int)
    requires
        shares.len() == BLOCK_SIZE_COUNT,
        0 <= heap_address,
        heap_address + share_prefix(shares, BLOCK_SIZE_COUNT as int) <= usize::MAX,
        0 <= i < BLOCK_SIZE_COUNT,
        0 <= a < shares[i] / block_sizes()[i],
    ensures
        heap_address + share_prefix(shares, i) <= init_block(heap_address, shares, i, a),
        init_block(heap_address, shares, i, a) + block_sizes()[i] <= heap_address + share_prefix(shares, i + 1),
        share_prefix(shares, i + 1) <= share_prefix(shares, BLOCK_SIZE_COUNT as int),
        init_block(heap_address, shares, i, a) <= usize::MAX,
{
    let bs = block_sizes()[i] as int;
    let share = shares[i] as int;
    let count = share / bs;
    let m = count - 1 - a;
    assert(0 <= m * bs) by (nonlinear_arith)
        requires 0 <= m, 0 <= bs;
    assert(m * bs + bs <= share) by (nonlinear_arith)
        requires 0 <= m, m + 1 <= count, count == share / bs, bs > 0, share >= 0;
    lemma_share_prefix_monotone(shares, i + 1, BLOCK_SIZE_COUNT as int);
}

/// The `a`-th entry of the list of class `i` after `init` on empty lists is
/// the `a`-th block of that class.
proof fn lemma_init_entry(lists: FreeLists, heap_address: int, shares: Seq<usize>, i: int, a: int)
    requires
        lists.len() == BLOCK_SIZE_COUNT,
        forall|i: int| 0 <= i < BLOCK_SIZE_COUNT ==> (#[trigger] lists[i]).len() == 0,
        shares.len() == BLOCK_SIZE_COUNT,
        0 <= heap_address,
        heap_address + share_prefix(shares, BLOCK_SIZE_COUNT as int) <= usize::MAX,
        0 <= i < BLOCK_SIZE_COUNT,
        0 <= a < init_spec(lists, heap_address, shares)[i].len(),
    ensures
        a < shares[i] / block_sizes()[i],
        init_spec(lists, heap_address, shares)[i][a] == init_block(heap_address, shares, i, a),
        heap_address + share_prefix(shares, i) <= init_block(heap_address, shares, i, a),
        init_block(heap_address, shares, i, a) + block_sizes()[i] <= heap_address + share_prefix(shares, i + 1),
        share_prefix(shares, i + 1) <= share_prefix(shares, BLOCK_SIZE_COUNT as int),
        0 <= share_prefix(shares, i),
{
    let count = shares[i] / block_sizes()[i];
    assert(lists[i].len() == 0);
    assert(count > 0);
    lemma_init_block_place(heap_address, shares, i, a);
    lemma_share_prefix_monotone(shares, 0, i);
    let start = heap_address + share_prefix(shares, i);
    let run = block_run(start, block_sizes()[i] as int, count as int);
    assert(init_spec(lists, heap_address, shares)[i] == run);
    assert(run[a] == (start + (count - 1 - a) * block_sizes()[i]) as usize);
}

/// The blocks that `init` puts on the free lists of an allocator without free
/// blocks all lie inside the heap, and no two of them overlap.
pub proof fn lemma_init_blocks_disjoint(lists: FreeLists, heap_address: int, shares: Seq<usize>)
    requires
        lists.len() == BLOCK_SIZE_COUNT,
        forall|i: int| 0 <= i < BLOCK_SIZE_COUNT ==> (#[trigger] lists[i]).len() == 0,
        shares.len() == BLOCK_SIZE_COUNT,
        0 <= heap_address,
        heap_address + share_prefix(shares, BLOCK_SIZE_COUNT as int) <= usize::MAX,
    ensures
        forall|i: int| 0 <= i < BLOCK_SIZE_COUNT ==>
            (#[trigger] init_spec(lists, heap_address, shares)[i]).len() == shares[i] / block_sizes()[i],
        forall|i: int, a: int| 0 <= i < BLOCK_SIZE_COUNT && 0 <= a < init_spec(lists, heap_address, shares)[i].len() ==>
            heap_address <= #[trigger] init_spec(lists, heap_address, shares)[i][a]
            && init_spec(lists, heap_address, shares)[i][a] + block_sizes()[i]
                <= heap_address + share_prefix(shares, BLOCK_SIZE_COUNT as int),
        forall|i: int, a: int, k: int, b: int|
            0 <= i < BLOCK_SIZE_COUNT && 0 <= a < init_spec(lists, heap_address, shares)[i].len()
            && 0 <= k < BLOCK_SIZE_COUNT && 0 <= b < init_spec(lists, heap_address, shares)[k].len()
            && (i != k || a != b) ==>
            #[trigger] init_spec(lists, heap_address, shares)[i][a] + block_sizes()[i]
                <= #[trigger] init_spec(lists, heap_address, shares)[k][b]
            || init_spec(lists, heap_address, shares)[k][b] + block_sizes()[k]
                <= init_spec(lists, heap_address, shares)[i][a],
{
    let r = init_spec(lists, heap_address, shares);
    assert forall|i: int, a: int| 0 <= i < BLOCK_SIZE_COUNT && 0 <= a < init_spec(lists, heap_address, shares)[i].len() implies
        heap_address <= #[trigger] init_spec(lists, heap_address, shares)[i][a]
        && init_spec(lists, heap_address, shares)[i][a] + block_sizes()[i]
            <= heap_address + share_prefix(shares, BLOCK_SIZE_COUNT as int) by {
        lemma_init_entry(lists, heap_address, shares, i, a);
    }
    assert forall|i: int, a: int, k: int, b: int|
        0 <= i < BLOCK_SIZE_COUNT && 0 <= a < r[i].len()
        && 0 <= k < BLOCK_SIZE_COUNT && 0 <= b < r[k].len()
        && (i != k || a != b) implies
        #[trigger] r[i][a] + block_sizes()[i] <= #[trigger] r[k][b]
        || r[k][b] + block_sizes()[k] <= r[i][a] by {
        lemma_init_entry(lists, heap_address, shares, i, a);
        lemma_init_entry(lists, heap_address, shares, k, b);
        if i < k {
            lemma_share_prefix_monotone(shares, i + 1, k);
        } else if k < i {
            lemma_share_prefix_monotone(shares, k + 1, i);
        } else {
            let bs = block_sizes()[i] as int;
            let count = (shares[i] / block_sizes()[i]) as int;
            let ma = count - 1 - a;
            let mb = count - 1 - b;
            if ma < mb {
                assert(ma * bs + bs <= mb * bs) by (nonlinear_arith)
                    requires ma < mb, bs > 0;
            } else {
                assert(mb * bs + bs <= ma * bs) by (nonlinear_arith)
                    requires mb < ma, bs > 0;
            }
        }
    }
}

/// When the heap starts on a 4 KiB boundary and every share is a whole number
/// of 4 KiB, every block that `init` creates is aligned to its own size.
pub proof fn lemma_init_blocks_aligned(lists: FreeLists, heap_address: int, shares: Seq<usize>)
    requires
        lists.len() == BLOCK_SIZE_COUNT,
        forall|i: int| 0 <= i < BLOCK_SIZE_COUNT ==> (#[trigger] lists[i]).len() == 0,
        shares.len() == BLOCK_SIZE_COUNT,
        0 <= heap_address,
        heap_address % 4096 == 0,
        forall|i: int| 0 <= i < BLOCK_SIZE_COUNT ==> (#[trigger] shares[i]) % 4096 == 0,
        heap_address + share_prefix(shares, BLOCK_SIZE_COUNT as int) <= usize::MAX,
    ensures
        forall|i: int, a: int| 0 <= i < BLOCK_SIZE_COUNT && 0 <= a < init_spec(lists, heap_address, shares)[i].len() ==>
            (#[trigger] init_spec(lists, heap_address, shares)[i][a]) % block_sizes()[i] == 0,
{
    let r = init_spec(lists, heap_address, shares);
    assert forall|i: int, a: int| 0 <= i < BLOCK_SIZE_COUNT && 0 <= a < r[i].len() implies
        (#[trigger] r[i][a]) % block_sizes()[i] == 0 by {
        lemma_init_block_place(heap_address, shares, i, a);
        lemma_share_prefix_aligned(shares, i);
        let bs = block_sizes()[i] as int;
        let base = heap_address + share_prefix(shares, i);
        let count = (shares[i] / block_sizes()[i]) as int;
        let m = count - 1 - a;
        lemma_share_prefix_monotone(shares, 0, i);
        lemma_sizes_divide_page();
        assert(4096int % bs == 0);
        assert(base % 4096 == 0);
        assert((base + m * bs) % bs == 0) by (nonlinear_arith)
            requires base % 4096 == 0, 4096int % bs == 0, bs > 0, m >= 0, base >= 0;
        assert(r[i][a] == base + m * bs);
    }
}

/// Every block size divides 4 KiB.
proof fn lemma_sizes_divide_page()
    ensures
        forall|i: int| 0 <= i < BLOCK_SIZE_COUNT ==> 4096int % (#[trigger] block_sizes()[i] as int) == 0,
{
    assert forall|i: int| 0 <= i < BLOCK_SIZE_COUNT implies 4096int % (#[trigger] block_sizes()[i] as int) == 0 by {
        if i == 0 {
            assert(block_sizes()[0] == 8usize);
            assert(4096int % 8int == 0);
        } else if i == 1 {
            assert(block_sizes()[1] == 16usize);
            assert(4096int % 16int == 0);
        } else if i == 2 {
            assert(block_sizes()[2] == 32usize);
            assert(4096int % 32int == 0);
        } else if i == 3 {
            assert(block_sizes()[3] == 64usize);
            assert(4096int % 64int == 0);
        } else if i == 4 {
            assert(block_sizes()[4] == 128usize);
            assert(4096int % 128int == 0);
        } else if i == 5 {
            assert(block_sizes()[5] == 256usize);
            assert(4096int % 256int == 0);
        } else if i == 6 {
            assert(block_sizes()[6] == 512usize);
            assert(4096int % 512int == 0);
        } else if i == 7 {
            assert(block_sizes()[7] == 1024usize);
            assert(4096int % 1024int == 0);
        } else if i == 8 {
            assert(block_sizes()[8] == 2048usize);
            assert(4096int % 2048int == 0);
        } else {
            assert(block_sizes()[9] == 4096usize);
            assert(4096int % 4096int == 0);
        }
    }
}

/// With whole 4 KiB shares, each share starts on a 4 KiB boundary.
proof fn lemma_share_prefix_aligned(shares: Seq<usize>, n: int)
    requires
        shares.len() == BLOCK_SIZE_COUNT,
        0 <= n <= BLOCK_SIZE_COUNT,
        forall|i: int| 0 <= i < BLOCK_SIZE_COUNT ==> (#[trigger] shares[i]) % 4096 == 0,
    ensures
        share_prefix(shares, n) % 4096 == 0,
    decreases n,
{
    if n > 0 {
        lemma_share_prefix_aligned(shares, n - 1);
        assert(shares[n - 1] % 4096 == 0);
    }
}

/// No address is on the free lists twice.
pub open spec fn blocks_distinct(lists: FreeLists) -> bool {
    forall|i: int, a: int, k: int, b: int|
        0 <= i < lists.len() && 0 <= a < lists[i].len() && 0 <= k < lists.len() && 0 <= b < lists[k].len()
            && (i != k || a != b) ==> #[trigger] lists[i][a] != #[trigger] lists[k][b]
}

/// Whether `p` is on one of the free lists.
pub open spec fn is_free(lists: FreeLists, p: usize) -> bool {
    exists|i: int, a: int| 0 <= i < lists.len() && 0 <= a < lists[i].len() && #[trigger] lists[i][a] == p
}

/// An allocation keeps the free blocks distinct, frees no new block, and the
/// block it hands out is free no longer.
pub proof fn lemma_allocate_keeps_blocks_distinct(lists: FreeLists, layout: Layout)
    requires
        lists.len() == BLOCK_SIZE_COUNT,
        blocks_distinct(lists),
    ensures
        allocate_spec(lists, layout).0.len() == BLOCK_SIZE_COUNT,
        blocks_distinct(allocate_spec(lists, layout).0),
        forall|q: usize| is_free(allocate_spec(lists, layout).0, q) ==> is_free(lists, q),
        allocate_spec(lists, layout).1 matches Some(p) ==> is_free(lists, p)
            && !is_free(allocate_spec(lists, layout).0, p),
{
    lemma_size_class_fits(layout);
    let r = allocate_spec(lists, layout).0;
    if let Some(p) = allocate_spec(lists, layout).1 {
        let i = size_class_for(layout)->0;
        let last = lists[i].len() - 1;
        assert(r[i] == lists[i].drop_last());
        assert forall|k: int, b: int| 0 <= k < r.len() && 0 <= b < r[k].len() implies #[trigger] r[k][b] == lists[k][b] by {
            if k == i {
                assert(r[k][b] == lists[i].drop_last()[b]);
            }
        }
        assert(lists[i][last] == p);
        assert(is_free(lists, p));
        assert forall|i2: int, a: int, k: int, b: int|
            0 <= i2 < r.len() && 0 <= a < r[i2].len() && 0 <= k < r.len() && 0 <= b < r[k].len()
                && (i2 != k || a != b) implies #[trigger] r[i2][a] != #[trigger] r[k][b] by {
            assert(r[i2][a] == lists[i2][a]);
            assert(r[k][b] == lists[k][b]);
        }
        assert forall|q: usize| is_free(r, q) implies is_free(lists, q) by {
            let (k, b) = choose|k: int, b: int| 0 <= k < r.len() && 0 <= b < r[k].len() && #[trigger] r[k][b] == q;
            assert(r[k][b] == lists[k][b]);
        }
        if is_free(r, p) {
            let (k, b) = choose|k: int, b: int| 0 <= k < r.len() && 0 <= b < r[k].len() && #[trigger] r[k][b] == p;
            assert(r[k][b] == lists[k][b]);
            assert(lists[k][b] != lists[i][last]);
        }
    }
}

/// Two allocations with no deallocation between them never hand out the same
/// block, and neither block stays free.
pub proof fn lemma_no_block_handed_out_twice(lists: FreeLists, first: Layout, second: Layout)
    requires
        lists.len() == BLOCK_SIZE_COUNT,
        blocks_distinct(lists),
    ensures
        ({
            let (after_first, q1) = allocate_spec(lists, first);
            let (after_second, q2) = allocate_spec(after_first, second);
            &&& blocks_distinct(after_second)
            &&& (q1 matches Some(p1) ==> !is_free(after_second, p1))
            &&& (q2 matches Some(p2) ==> !is_free(after_second, p2))
            &&& (q1 is Some && q2 is Some ==> q1->0 != q2->0)
        }),
{
    lemma_allocate_keeps_blocks_distinct(lists, first);
    let (after_first, q1) = allocate_spec(lists, first);
    lemma_allocate_keeps_blocks_distinct(after_first, second);
    let (after_second, q2) = allocate_spec(after_first, second);
    if let Some(p1) = q1 {
        assert(!is_free(after_first, p1));
        if is_free(after_second, p1) {
            assert(is_free(after_first, p1));
        }
        if let Some(p2) = q2 {
            assert(is_free(after_first, p2));
        }
    }
}

/// Giving back a block that is not free keeps the free blocks distinct.
pub proof fn lemma_deallocate_keeps_blocks_distinct(lists: FreeLists, ptr: usize, layout: Layout)
    requires
        lists.len() == BLOCK_SIZE_COUNT,
        blocks_distinct(lists),
        !is_free(lists, ptr),
    ensures
        deallocate_spec(lists, ptr, layout).len() == BLOCK_SIZE_COUNT,
        blocks_distinct(deallocate_spec(lists, ptr, layout)),
{
    lemma_size_class_fits(layout);
    let d = deallocate_spec(lists, ptr, layout);
    if let Some(i) = size_class_for(layout) {
        let n = lists[i].len() as int;
        assert(d[i] == lists[i].push(ptr));
        assert forall|k: int, b: int| 0 <= k < d.len() && 0 <= b < d[k].len() && !(k == i && b == n)
            implies #[trigger] d[k][b] == lists[k][b] by {
            if k == i {
                assert(d[k][b] == lists[i].push(ptr)[b]);
            }
        }
        assert forall|i2: int, a: int, k: int, b: int|
            0 <= i2 < d.len() && 0 <= a < d[i2].len() && 0 <= k < d.len() && 0 <= b < d[k].len()
                && (i2 != k || a != b) implies #[trigger] d[i2][a] != #[trigger] d[k][b] by {
            if i2 == i && a == n {
                assert(d[i2][a] == ptr);
                assert(d[k][b] == lists[k][b]);
            } else if k == i && b == n {
                assert(d[k][b] == ptr);
                assert(d[i2][a] == lists[i2][a]);
            } else {
                assert(d[i2][a] == lists[i2][a]);
                assert(d[k][b] == lists[k][b]);
            }
        }
    }
}

/// The blocks that `init` puts on the free lists of an allocator without free
/// blocks are all distinct.
pub proof fn lemma_init_blocks_distinct(lists: FreeLists, heap_address: int, shares: Seq<usize>)
    requires
        lists.len() == BLOCK_SIZE_COUNT,
        forall|i: int| 0 <= i < BLOCK_SIZE_COUNT ==> (#[trigger] lists[i]).len() == 0,
        shares.len() == BLOCK_SIZE_COUNT,
        0 <= heap_address,
        heap_address + share_prefix(shares, BLOCK_SIZE_COUNT as int) <= usize::MAX,
    ensures
        blocks_distinct(init_spec(lists, heap_address, shares)),
{
    lemma_init_blocks_disjoint(lists, heap_address, shares);
    let r = init_spec(lists, heap_address, shares);
    assert forall|i: int, a: int, k: int, b: int|
        0 <= i < r.len() && 0 <= a < r[i].len() && 0 <= k < r.len() && 0 <= b < r[k].len()
            && (i != k || a != b) implies #[trigger] r[i][a] != #[trigger] r[k][b] by {
        assert(block_sizes()[i] > 0 && block_sizes()[k] > 0) by {
            lemma_sizes_distinct();
            assert(block_sizes()[0] == 8);
        }
    }
}

/// The size class of a request is the first of 8, 16, 32, ..., 4096 bytes that
/// is at least the larger of its size and alignment.
pub proof fn lemma_size_class_thresholds(layout: Layout)
    ensures
        ({
            let r = if layout.size >= layout.align { layout.size } else { layout.align };
            &&& r <= 8 ==> size_class_for(layout) == Some(0int)
            &&& 8 < r <= 16 ==> size_class_for(layout) == Some(1int)
            &&& 16 < r <= 32 ==> size_class_for(layout) == Some(2int)
            &&& 32 < r <= 64 ==> size_class_for(layout) == Some(3int)
            &&& 64 < r <= 128 ==> size_class_for(layout) == Some(4int)
            &&& 128 < r <= 256 ==> size_class_for(layout) == Some(5int)
            &&& 256 < r <= 512 ==> size_class_for(layout) == Some(6int)
            &&& 512 < r <= 1024 ==> size_class_for(layout) == Some(7int)
            &&& 1024 < r <= 2048 ==> size_class_for(layout) == Some(8int)
            &&& 2048 < r <= 4096 ==> size_class_for(layout) == Some(9int)
            &&& 4096 < r ==> size_class_for(layout) is None
        }),
{
    lemma_size_class_fits(layout);
    let r = required_block_size(layout);
    if r <= 4096 {
        let i = size_class_for(layout)->0;
        assert(block_sizes()[i] >= r);
        if i > 0 { assert(block_sizes()[i - 1] < r); }
    }
}

/// After `init` on an allocator without free blocks, the first block handed
/// out from a size class whose share holds a block is the one at the start of
/// that share: the heap address plus the shares of the smaller sizes.
pub proof fn lemma_init_hands_out_share_start_first(lists: FreeLists, heap_address: int, shares: Seq<usize>, i: int)
    requires
        lists.len() == BLOCK_SIZE_COUNT,
        forall|k: int| 0 <= k < BLOCK_SIZE_COUNT ==> (#[trigger] lists[k]).len() == 0,
        shares.len() == BLOCK_SIZE_COUNT,
        0 <= heap_address,
        heap_address + share_prefix(shares, BLOCK_SIZE_COUNT as int) <= usize::MAX,
        0 <= i < BLOCK_SIZE_COUNT,
        shares[i] >= block_sizes()[i],
    ensures
        init_spec(lists, heap_address, shares)[i].len() > 0,
        init_spec(lists, heap_address, shares)[i].last() == heap_address + share_prefix(shares, i),
{
    let count = shares[i] / block_sizes()[i];
    assert(count >= 1) by (nonlinear_arith)
        requires count == shares[i] / block_sizes()[i], shares[i] >= block_sizes()[i], block_sizes()[i] > 0;
    lemma_init_blocks_disjoint(lists, heap_address, shares);
    let r = init_spec(lists, heap_address, shares);
    lemma_init_entry(lists, heap_address, shares, i, count - 1);
}

/// No two size classes have the same block size.
proof fn lemma_sizes_distinct()
    ensures
        forall|i: int, j: int| 0 <= i < j < BLOCK_SIZE_COUNT ==> block_sizes()[i] < block_sizes()[j],
        block_sizes().len() == BLOCK_SIZE_COUNT,
        block_sizes().no_duplicates(),
{
    assert(block_sizes().no_duplicates());
}

proof fn lemma_mul_le(a: int, b: int, c: int)
    requires
        0 <= a <= b,
        0 <= c,
    ensures
        a * c <= b * c,
{
    assert(a * c <= b * c) by (nonlinear_arith)
        requires 0 <= a <= b, 0 <= c;
}

/// The shares summed up to `m` are at least those summed up to `n <= m`.
proof fn lemma_share_prefix_monotone(shares: Seq<usize>, n: int, m: int)
    requires
        0 <= n <= m,
    ensures
        share_prefix(shares, n) <= share_prefix(shares, m),
    decreases m - n,
{
    if n < m {
        lemma_share_prefix_monotone(shares, n, m - 1);
    }
}

} // verus!
