//! The kernel heap: a first-fit linked-list allocator.
//!
//! The heap `[start_addr, end_addr)` is tiled by blocks, in address order.
//! Each block starts with a 32-byte header; an allocation lays out
//! `[ header ][ padding ][ back offset ][ data ]`, where the 8-byte back
//! offset, stored just below the data, tells how far back the header is.
//! Allocation takes the first free block that is large enough and splits
//! off the rest when a useful block remains; freeing marks the block free
//! again (blocks are not merged).
use vstd::prelude::*;
use vstd::arithmetic::power2::is_pow2;
use crate::addr::{align_up, align_up_spec};

verus! {

/// Bytes of a block header.
pub const HEADER_SIZE: u64 = 32;

/// Bytes of the back offset stored below the data.
pub const BACK_OFFSET_SIZE: u64 = 8;

/// Alignment of headers.
pub const HEADER_ALIGN: u64 = 8;

/// Smallest remainder worth splitting off: a header, a back offset and a
/// byte of data, rounded up to the header alignment.
pub const MIN_SPLIT: u64 = 48;

/// A block of the heap, as its header describes it.
#[derive(Copy, Clone, Debug, PartialEq, Eq, Structural)]
pub struct Block {
    /// Address of the header.
    pub addr: u64,
    /// Bytes of the block, header included.
    pub sz: u64,
    pub free: bool,
    /// Distance from the header to the data of the last allocation made in
    /// this block.
    pub back_offset: u64,
}

/// Address of the data of an allocation aligned to `align` in the block at `addr`.
pub open spec fn data_start(addr: u64, align: u64) -> int {
    align_up_spec(addr + HEADER_SIZE + BACK_OFFSET_SIZE, align as int)
}

/// Bytes an allocation of `size` bytes aligned to `align` takes from the
/// block at `addr`.
pub open spec fn alloc_size(addr: u64, size: u64, align: u64) -> int {
    align_up_spec(data_start(addr, align) - addr + size, HEADER_ALIGN as int)
}

/// Whether block `b` can hold the allocation.
pub open spec fn fits(b: Block, size: u64, align: u64) -> bool {
    b.free && b.sz >= alloc_size(b.addr, size, align)
}

/// Index of the first block at or after `j` that can hold the allocation
/// (the number of blocks if none can).
pub open spec fn first_fit_from(blocks: Seq<Block>, j: int, size: u64, align: u64) -> int
    decreases blocks.len() - j,
{
    if j >= blocks.len() || j < 0 {
        blocks.len() as int
    } else if fits(blocks[j], size, align) {
        j
    } else {
        first_fit_from(blocks, j + 1, size, align)
    }
}

pub open spec fn first_fit(blocks: Seq<Block>, size: u64, align: u64) -> int {
    first_fit_from(blocks, 0, size, align)
}

/// The search never goes backwards, and what it finds fits.
pub proof fn lemma_first_fit_from(blocks: Seq<Block>, j: int, size: u64, align: u64)
    requires
        0 <= j <= blocks.len(),
    ensures
        j <= first_fit_from(blocks, j, size, align) <= blocks.len(),
        first_fit_from(blocks, j, size, align) < blocks.len() ==> fits(
            blocks[first_fit_from(blocks, j, size, align)],
            size,
            align,
        ),
        forall|k: int| j <= k < first_fit_from(blocks, j, size, align) ==> !fits(#[trigger] blocks[k], size, align),
    decreases blocks.len() - j,
{
    if j < blocks.len() && !fits(blocks[j], size, align) {
        lemma_first_fit_from(blocks, j + 1, size, align);
    }
}

/// The blocks after allocating in block `i`: the block is taken, and when
/// at least `MIN_SPLIT` bytes are left over they become a new free block
/// right after it.
pub open spec fn alloc_spec(blocks: Seq<Block>, i: int, size: u64, align: u64) -> Seq<Block> {
    let b = blocks[i];
    let a = alloc_size(b.addr, size, align);
    let bo = (data_start(b.addr, align) - b.addr) as u64;
    if b.sz - a >= MIN_SPLIT {
        blocks.update(i, Block { addr: b.addr, sz: a as u64, free: false, back_offset: bo }).insert(
            i + 1,
            Block { addr: (b.addr + a) as u64, sz: (b.sz - a) as u64, free: true, back_offset: 0 },
        )
    } else {
        blocks.update(i, Block { addr: b.addr, sz: b.sz, free: false, back_offset: bo })
    }
}

/// Address of the data of block `b`'s allocation.
pub open spec fn data_of(b: Block) -> int {
    b.addr + b.back_offset
}

/// The blocks after freeing the allocation whose data is in block `i`.
pub open spec fn dealloc_spec(blocks: Seq<Block>, i: int) -> Seq<Block> {
    blocks.update(i, Block { free: true, ..blocks[i] })
}

/// Arithmetic on addresses up to `end` stays within 64 bits for this request.
pub open spec fn request_in_range(end: u64, size: u64, align: u64) -> bool {
    end + HEADER_SIZE + BACK_OFFSET_SIZE + align + size + HEADER_ALIGN <= u64::MAX
}

/// A first-fit heap allocator over `[start_addr, end_addr)`.
pub struct LinkedListAllocator {
    pub start_addr: u64,
    pub end_addr: u64,
    pub blocks: Vec<Block>,
}

/// The blocks tile `[start, end)` in address order, every block holds at
/// least a header, and an allocated block's data lies past its header.
pub open spec fn blocks_wf(bs: Seq<Block>, start: u64, end: u64) -> bool {
    &&& bs.len() >= 1
    &&& bs[0].addr == start
    &&& bs.last().addr + bs.last().sz == end
    &&& forall|i: int| 0 <= i < bs.len() - 1 ==> #[trigger] bs[i + 1].addr == bs[i].addr + bs[i].sz
    &&& forall|i: int|
        0 <= i < bs.len() ==> (#[trigger] bs[i]).sz >= HEADER_SIZE && (!bs[i].free ==> (HEADER_SIZE
            + BACK_OFFSET_SIZE <= bs[i].back_offset <= bs[i].sz))
}

/// Taking block `i` for an allocation keeps the tiling.
pub proof fn lemma_alloc_keeps_tiling(bs: Seq<Block>, start: u64, end: u64, i: int, size: u64, align: u64)
    requires
        blocks_wf(bs, start, end),
        0 <= i < bs.len(),
        fits(bs[i], size, align),
        bs[i].addr + HEADER_SIZE + BACK_OFFSET_SIZE <= data_start(bs[i].addr, align),
        data_start(bs[i].addr, align) - bs[i].addr <= alloc_size(bs[i].addr, size, align),
        bs[i].addr + bs[i].sz <= end,
    ensures
        blocks_wf(alloc_spec(bs, i, size, align), start, end),
{
    let b = bs[i];
    let a = alloc_size(b.addr, size, align);
    let bo = (data_start(b.addr, align) - b.addr) as u64;
    let n = alloc_spec(bs, i, size, align);
    if b.sz - a >= MIN_SPLIT {
        let u = bs.update(i, Block { addr: b.addr, sz: a as u64, free: false, back_offset: bo });
        let nb = Block { addr: (b.addr + a) as u64, sz: (b.sz - a) as u64, free: true, back_offset: 0 };
        u.insert_ensures(i + 1, nb);
        assert(n == u.insert(i + 1, nb));
        assert forall|k: int| 0 <= k < n.len() - 1 implies #[trigger] n[k + 1].addr == n[k].addr + n[k].sz by {
            if k < i {
                assert(n[k] == u[k] && n[k + 1] == u[k + 1]);
            } else if k == i {
                assert(n[k] == u[k]);
            } else if k == i + 1 {
                assert(n[k] == nb && n[k + 1] == u[k]);
                assert(bs[i + 1].addr == bs[i].addr + bs[i].sz);
            } else {
                assert(n[k] == u[k - 1] && n[k + 1] == u[k]);
                assert(bs[(k - 1) + 1].addr == bs[k - 1].addr + bs[k - 1].sz);
            }
        }
        assert forall|k: int| 0 <= k < n.len() implies (#[trigger] n[k]).sz >= HEADER_SIZE && (!n[k].free ==> (
            HEADER_SIZE + BACK_OFFSET_SIZE <= n[k].back_offset <= n[k].sz)) by {
            if k <= i {
                assert(n[k] == u[k]);
            } else if k > i + 1 {
                assert(n[k] == u[k - 1]);
            }
        }
        if i + 1 < bs.len() {
            assert(n.last() == u[bs.len() - 1]);
        } else {
            assert(n.last() == nb);
        }
        assert(n[0] == u[0]);
    } else {
        assert forall|k: int| 0 <= k < n.len() - 1 implies #[trigger] n[k + 1].addr == n[k].addr + n[k].sz by {
            assert(n[k].addr == bs[k].addr && n[k].sz == bs[k].sz);
            assert(n[k + 1].addr == bs[k + 1].addr);
        }
        assert forall|k: int| 0 <= k < n.len() implies (#[trigger] n[k]).sz >= HEADER_SIZE && (!n[k].free ==> (
            HEADER_SIZE + BACK_OFFSET_SIZE <= n[k].back_offset <= n[k].sz)) by {
            if k != i {
                assert(n[k] == bs[k]);
            }
        }
        assert(n.last().addr == bs.last().addr && n.last().sz == bs.last().sz);
    }
}

/// Freeing block `i` keeps the tiling.
pub proof fn lemma_dealloc_keeps_tiling(bs: Seq<Block>, start: u64, end: u64, i: int)
    requires
        blocks_wf(bs, start, end),
        0 <= i < bs.len(),
    ensures
        blocks_wf(dealloc_spec(bs, i), start, end),
{
    let n = dealloc_spec(bs, i);
    assert forall|k: int| 0 <= k < n.len() - 1 implies #[trigger] n[k + 1].addr == n[k].addr + n[k].sz by {
        assert(n[k].addr == bs[k].addr && n[k].sz == bs[k].sz);
        assert(n[k + 1].addr == bs[k + 1].addr);
    }
    assert forall|k: int| 0 <= k < n.len() implies (#[trigger] n[k]).sz >= HEADER_SIZE && (!n[k].free ==> (
        HEADER_SIZE + BACK_OFFSET_SIZE <= n[k].back_offset <= n[k].sz)) by {
        if k != i {
            assert(n[k] == bs[k]);
        }
    }
    assert(n.last().addr == bs.last().addr && n.last().sz == bs.last().sz);
}

/// When the blocks before `i` agree and the search from `j` stops at `i`,
/// a block at `i` that fits stops the search there too.
proof fn lemma_first_fit_same_prefix(s1: Seq<Block>, s2: Seq<Block>, j: int, i: int, size: u64, align: u64)
    requires
        0 <= j <= i < s1.len(),
        i < s2.len(),
        first_fit_from(s1, j, size, align) == i,
        forall|k: int| j <= k < i ==> s2[k] == s1[k],
        fits(s2[i], size, align),
    ensures
        first_fit_from(s2, j, size, align) == i,
    decreases i - j,
{
    lemma_first_fit_from(s1, j, size, align);
    if j < i {
        assert(!fits(s1[j], size, align));
        lemma_first_fit_same_prefix(s1, s2, j + 1, i, size, align);
    }
}

/// Freed memory is handed out again: allocating, freeing that allocation and
/// allocating the same size and alignment again finds the same block and
/// returns the same address.
pub proof fn lemma_dealloc_then_alloc_reuses(bs: Seq<Block>, size: u64, align: u64)
    requires
        first_fit(bs, size, align) < bs.len(),
    ensures
        ({
            let i = first_fit(bs, size, align);
            let after = dealloc_spec(alloc_spec(bs, i, size, align), i);
            &&& first_fit(after, size, align) == i
            &&& after[i].addr == bs[i].addr
        }),
{
    let i = first_fit(bs, size, align);
    lemma_first_fit_from(bs, 0, size, align);
    let a1 = alloc_spec(bs, i, size, align);
    let b = bs[i];
    let a = alloc_size(b.addr, size, align);
    if b.sz - a >= MIN_SPLIT {
        let u = bs.update(i, Block { addr: b.addr, sz: a as u64, free: false, back_offset: (data_start(b.addr, align) - b.addr) as u64 });
        u.insert_ensures(i + 1, Block { addr: (b.addr + a) as u64, sz: (b.sz - a) as u64, free: true, back_offset: 0 });
    }
    let after = dealloc_spec(a1, i);
    assert forall|k: int| 0 <= k < i implies after[k] == bs[k] by {}
    lemma_first_fit_same_prefix(bs, after, 0, i, size, align);
}

/// Two different allocated blocks hold disjoint memory: one ends before the
/// other's data begins.
pub proof fn lemma_allocations_disjoint(a: LinkedListAllocator, i: int, k: int)
    requires
        a.wf(),
        0 <= i < k < a.blocks@.len(),
    ensures
        a.blocks@[i].addr + a.blocks@[i].sz <= a.blocks@[k].addr,
        !a.blocks@[i].free ==> data_of(a.blocks@[i]) <= a.blocks@[i].addr + a.blocks@[i].sz,
        !a.blocks@[k].free ==> a.blocks@[k].addr < data_of(a.blocks@[k]),
{
    a.lemma_blocks_ordered(i, k);
}

impl LinkedListAllocator {
    /// A non-null heap that can hold a header, tiled by its blocks.
    pub open spec fn wf(&self) -> bool {
        &&& self.start_addr != 0
        &&& self.start_addr + HEADER_SIZE <= self.end_addr
        &&& blocks_wf(self.blocks@, self.start_addr, self.end_addr)
    }

    /// Every block lies inside the heap.
    pub proof fn lemma_block_in_heap(&self, i: int)
        requires
            self.wf(),
            0 <= i < self.blocks@.len(),
        ensures
            self.start_addr <= self.blocks@[i].addr,
            self.blocks@[i].addr + self.blocks@[i].sz <= self.end_addr,
    {
        self.lemma_block_below_end(i);
        self.lemma_block_above_start(i);
    }

    proof fn lemma_block_below_end(&self, i: int)
        requires
            self.wf(),
            0 <= i < self.blocks@.len(),
        ensures
            self.blocks@[i].addr + self.blocks@[i].sz <= self.end_addr,
        decreases self.blocks@.len() - i,
    {
        if i < self.blocks@.len() - 1 {
            assert(self.blocks@[i + 1].addr == self.blocks@[i].addr + self.blocks@[i].sz);
            self.lemma_block_below_end(i + 1);
        }
    }

    proof fn lemma_block_above_start(&self, i: int)
        requires
            self.wf(),
            0 <= i < self.blocks@.len(),
        ensures
            self.start_addr <= self.blocks@[i].addr,
        decreases i,
    {
        if i > 0 {
            assert(self.blocks@[(i - 1) + 1].addr == self.blocks@[i - 1].addr + self.blocks@[i - 1].sz);
            self.lemma_block_above_start(i - 1);
        }
    }

    /// Blocks further on start after earlier ones end.
    pub proof fn lemma_blocks_ordered(&self, i: int, k: int)
        requires
            self.wf(),
            0 <= i < k < self.blocks@.len(),
        ensures
            self.blocks@[i].addr + self.blocks@[i].sz <= self.blocks@[k].addr,
        decreases k - i,
    {
        assert(self.blocks@[(k - 1) + 1].addr == self.blocks@[k - 1].addr + self.blocks@[k - 1].sz);
        if i < k - 1 {
            self.lemma_blocks_ordered(i, k - 1);
        }
    }

    /// Allocates `size` bytes aligned to `align` from the first block that
    /// can hold them and returns the address of the data.
    pub fn allocate(&mut self, size: u64, align: u64) -> (r: u64)
        requires
            old(self).wf(),
            is_pow2(align as int),
            request_in_range(old(self).end_addr, size, align),
            first_fit(old(self).blocks@, size, align) < old(self).blocks@.len(),
        ensures
            final(self).wf(),
            final(self).start_addr == old(self).start_addr,
            final(self).end_addr == old(self).end_addr,
            final(self).blocks@ == alloc_spec(
                old(self).blocks@,
                first_fit(old(self).blocks@, size, align),
                size,
                align,
            ),
            r == data_start(old(self).blocks@[first_fit(old(self).blocks@, size, align)].addr, align),
            (r as int) % (align as int) == 0,
            old(self).start_addr + HEADER_SIZE + BACK_OFFSET_SIZE <= r,
            r + size <= old(self).end_addr,
    {
        let ghost bs = self.blocks@;
        let ghost i = first_fit(bs, size, align);
        proof {
            lemma_first_fit_from(bs, 0, size, align);
        }
        let mut j: usize = 0;
        while j < self.blocks.len()
            invariant
                self.wf(),
                self.blocks@ == bs,
                self.start_addr == old(self).start_addr,
                self.end_addr == old(self).end_addr,
                is_pow2(align as int),
                request_in_range(self.end_addr, size, align),
                j <= i < bs.len(),
                bs == old(self).blocks@,
                i == first_fit(bs, size, align),
                first_fit(bs, size, align) == first_fit_from(bs, j as int, size, align),
            decreases bs.len() - j,
        {
            let b = self.blocks[j];
            proof {
                self.lemma_block_in_heap(j as int);
            }
            let (data, asz) = Self::layout_in(b.addr, size, align, self.end_addr);
            if b.free && b.sz >= asz {
                let remaining = b.sz - asz;
                let back_offset = data - b.addr;
                proof {
                    lemma_first_fit_from(bs, j as int, size, align);
                    assert(j == i);
                }
                if remaining >= MIN_SPLIT {
                    self.blocks.set(j, Block { addr: b.addr, sz: asz, free: false, back_offset });
                    self.blocks.insert(
                        j + 1,
                        Block { addr: b.addr + asz, sz: remaining, free: true, back_offset: 0 },
                    );
                } else {
                    self.blocks.set(j, Block { addr: b.addr, sz: b.sz, free: false, back_offset });
                }
                proof {
                    assert(self.blocks@ =~= alloc_spec(bs, j as int, size, align));
                    lemma_alloc_keeps_tiling(bs, self.start_addr, self.end_addr, j as int, size, align);
                }
                return data;
            }
            proof {
                lemma_first_fit_from(bs, j as int, size, align);
            }
            j = j + 1;
        }
        proof {
            assert(false);
        }
        0
    }

    /// Frees the allocation whose data starts at `ptr`.
    pub fn dealloc(&mut self, ptr: u64)
        requires
            old(self).wf(),
            exists|i: int|
                0 <= i < old(self).blocks@.len() && !old(self).blocks@[i].free && data_of(
                    old(self).blocks@[i],
                ) == ptr,
        ensures
            final(self).wf(),
            final(self).start_addr == old(self).start_addr,
            final(self).end_addr == old(self).end_addr,
            forall|i: int|
                0 <= i < old(self).blocks@.len() && !old(self).blocks@[i].free && data_of(
                    #[trigger] old(self).blocks@[i],
                ) == ptr ==> final(self).blocks@ == dealloc_spec(old(self).blocks@, i),
    {
        let ghost bs = self.blocks@;
        let ghost orig = *self;
        let ghost w = choose|i: int|
            0 <= i < bs.len() && !bs[i].free && data_of(bs[i]) == ptr;
        let mut j: usize = 0;
        while j < self.blocks.len()
            invariant
                self.wf(),
                self.blocks@ == bs,
                self.start_addr == old(self).start_addr,
                self.end_addr == old(self).end_addr,
                0 <= w < bs.len(),
                bs == old(self).blocks@,
                orig == *old(self),
                orig.wf(),
                !bs[w].free,
                data_of(bs[w]) == ptr,
                forall|k: int| 0 <= k < j ==> !(!bs[k].free && data_of(bs[k]) == ptr),
            decreases bs.len() - j,
        {
            let b = self.blocks[j];
            proof {
                self.lemma_block_in_heap(j as int);
            }
            if !b.free && b.addr + b.back_offset == ptr {
                self.blocks.set(j, Block { addr: b.addr, sz: b.sz, free: true, back_offset: b.back_offset });
                proof {
                    assert(self.blocks@ =~= dealloc_spec(bs, j as int));
                    lemma_dealloc_keeps_tiling(bs, self.start_addr, self.end_addr, j as int);
                    assert forall|i: int|
                        0 <= i < old(self).blocks@.len() && !old(self).blocks@[i].free && data_of(#[trigger] old(self).blocks@[i]) == ptr implies i == j by {
                        if i < j {
                            orig.lemma_blocks_ordered(i, j as int);
                        } else if i > j {
                            orig.lemma_blocks_ordered(j as int, i);
                        }
                    }
                }
                return;
            }
            j = j + 1;
        }
        proof {
            assert(false);
        }
    }

    /// Sets up a heap over `[start_addr, end_addr)`; fails when the range is
    /// null or cannot hold a single header.
    pub fn new(start_addr: u64, end_addr: u64) -> (r: Result<Self, ()>)
        ensures
            r.is_ok() <==> (start_addr != 0 && start_addr + HEADER_SIZE <= end_addr),
            r.is_ok() ==> {
                let a = r.unwrap();
                &&& a.wf()
                &&& a.start_addr == start_addr
                &&& a.end_addr == end_addr
                &&& a.blocks@ == seq![
                    Block { addr: start_addr, sz: (end_addr - start_addr) as u64, free: true, back_offset: 0 },
                ]
            },
    {
        match start_addr.checked_add(HEADER_SIZE) {
            None => {
                return Err(());
            },
            Some(e) => {
                if e > end_addr {
                    return Err(());
                }
            },
        }
        if start_addr == 0 {
            return Err(());
        }
        let mut blocks = Vec::new();
        blocks.push(Block { addr: start_addr, sz: end_addr - start_addr, free: true, back_offset: 0 });
        let r = LinkedListAllocator { start_addr, end_addr, blocks };
        proof {
            assert(r.blocks@ =~= seq![
                Block { addr: start_addr, sz: (end_addr - start_addr) as u64, free: true, back_offset: 0 },
            ]);
        }
        Ok(r)
    }

    /// Walks the blocks and returns the bytes they cover, which is always the
    /// whole heap.
    pub fn traverse(&self) -> (total: u64)
        requires
            self.wf(),
        ensures
            total == self.end_addr - self.start_addr,
    {
        let mut total: u64 = 0;
        let mut j: usize = 0;
        while j < self.blocks.len()
            invariant
                self.wf(),
                j <= self.blocks@.len(),
                j < self.blocks@.len() ==> total == self.blocks@[j as int].addr - self.start_addr,
                j == self.blocks@.len() ==> total == self.end_addr - self.start_addr,
            decreases self.blocks@.len() - j,
        {
            let b = self.blocks[j];
            proof {
                if j + 1 < self.blocks@.len() {
                    assert(self.blocks@[j + 1].addr == self.blocks@[j as int].addr + self.blocks@[j as int].sz);
                }
            }
            total = total + b.sz;
            j = j + 1;
        }
        total
    }

    /// Whether an allocation of `size` bytes aligned to `align` would find a block.
    pub fn can_alloc(&self, size: u64, align: u64) -> (r: bool)
        requires
            self.wf(),
            is_pow2(align as int),
            request_in_range(self.end_addr, size, align),
        ensures
            r == (first_fit(self.blocks@, size, align) < self.blocks@.len()),
    {
        let mut j: usize = 0;
        while j < self.blocks.len()
            invariant
                self.wf(),
                is_pow2(align as int),
                request_in_range(self.end_addr, size, align),
                j <= self.blocks@.len(),
                first_fit(self.blocks@, size, align) == first_fit_from(self.blocks@, j as int, size, align),
            decreases self.blocks@.len() - j,
        {
            let b = self.blocks[j];
            proof {
                self.lemma_block_in_heap(j as int);
            }
            let (_, asz) = Self::layout_in(b.addr, size, align, self.end_addr);
            if b.free && b.sz >= asz {
                return true;
            }
            j = j + 1;
        }
        false
    }

    /// Data address and bytes taken by an allocation in the block at `addr`.
    fn layout_in(addr: u64, size: u64, align: u64, end: u64) -> (r: (u64, u64))
        requires
            addr <= end,
            is_pow2(align as int),
            request_in_range(end, size, align),
        ensures
            r.0 == data_start(addr, align),
            r.1 == alloc_size(addr, size, align),
            addr + HEADER_SIZE + BACK_OFFSET_SIZE <= r.0 < addr + HEADER_SIZE + BACK_OFFSET_SIZE + align,
            (r.0 as int) % (align as int) == 0,
            r.1 >= r.0 - addr + size,
            r.1 < r.0 - addr + size + HEADER_ALIGN,
            r.1 % 8 == 0,
    {
        proof {
            crate::addr::lemma_align_up_facts((addr + HEADER_SIZE + BACK_OFFSET_SIZE) as u64, align);
        }
        let data = align_up(addr + HEADER_SIZE + BACK_OFFSET_SIZE, align);
        proof {
            assert(is_pow2(8)) by {
                reveal_with_fuel(is_pow2, 4);
            }
            crate::addr::lemma_align_up_facts((data - addr + size) as u64, 8);
        }
        let asz = align_up(data - addr + size, HEADER_ALIGN);
        (data, asz)
    }
}

} // verus!
