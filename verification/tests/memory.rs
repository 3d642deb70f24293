use efiks::addr::{PhysAddr, VirtAddr};
use efiks::arch::PageSize;
use efiks::error::Error;
use efiks::kmalloc::{Block, LinkedListAllocator};
use efiks::kvm::{kvm_full_map, DIRECT_MAP_PAGES, GB};
use efiks::mappings::{KERNEL_DIRECT_MAPPING_BASE, KERNEL_IMAGE_START_PA, KERNEL_IMAGE_START_VA};
use efiks::page_meta::{add, remove, share, PageMetadataTable};
use efiks::page_table::{FramePool, PageTable, Slot};
use efiks::pte::{PTE_R, PTE_RW, PTE_U, PTE_X};

fn pool_with(frames: &[u64]) -> FramePool {
    let mut pool = FramePool::new();
    for f in frames {
        assert!(pool.add(PhysAddr::new(*f)));
    }
    pool
}

#[test]
fn frame_pool_accepts_only_aligned_frames() {
    let mut pool = FramePool::new();
    assert_eq!(pool.len(), 0);
    assert!(pool.add(PhysAddr::new(0x8010_0000)));
    assert!(!pool.add(PhysAddr::new(0x8010_0010)));
    assert!(!pool.add(PhysAddr::new(1u64 << 56)));
    assert!(pool.add(PhysAddr::new(0x8010_1000)));
    assert_eq!(pool.len(), 2);
    assert_eq!(pool.take().raw(), 0x8010_1000);
    assert_eq!(pool.len(), 1);
}

#[test]
fn empty_table_translates_nothing() {
    let pt = PageTable::empty();
    assert!(pt.translate(VirtAddr::new(0)).is_none());
    assert!(pt.translate(VirtAddr::new(0x4000_1234)).is_none());
}

#[test]
fn translate_after_map_4k() {
    let mut pt = PageTable::empty();
    let mut pool = pool_with(&[0x8100_0000, 0x8100_1000]);
    pt.map_vm(VirtAddr::new(0x4000_3000), PhysAddr::new(0x8020_5000), PTE_RW | PTE_U, &mut pool);
    // Two intermediate tables were needed and taken from the pool.
    assert_eq!(pool.len(), 0);
    assert_eq!(pt.translate(VirtAddr::new(0x4000_3000)).map(|p| p.raw()), Some(0x8020_5000));
    assert_eq!(pt.translate(VirtAddr::new(0x4000_3abc)).map(|p| p.raw()), Some(0x8020_5abc));
    assert!(pt.translate(VirtAddr::new(0x4000_4000)).is_none());
    assert!(pt.translate(VirtAddr::new(0x4000_2fff)).is_none());
}

#[test]
fn a_second_mapping_keeps_the_first() {
    let mut pt = PageTable::empty();
    let mut pool = pool_with(&[0x8100_0000, 0x8100_1000, 0x8100_2000]);
    pt.map_vm(VirtAddr::new(0x1000), PhysAddr::new(0x8030_0000), PTE_R, &mut pool);
    pt.map_vm(VirtAddr::new(0x2000), PhysAddr::new(0x8040_0000), PTE_R | PTE_X, &mut pool);
    // The second page shares both intermediate tables with the first.
    assert_eq!(pool.len(), 1);
    assert_eq!(pt.translate(VirtAddr::new(0x1008)).map(|p| p.raw()), Some(0x8030_0008));
    assert_eq!(pt.translate(VirtAddr::new(0x2008)).map(|p| p.raw()), Some(0x8040_0008));
}

#[test]
fn huge_pages_map_whole_ranges() {
    let mut pt = PageTable::empty();
    let mut pool = pool_with(&[0x8100_0000]);
    pt.map_vm_2m(VirtAddr::new(0x20_0000), PhysAddr::new(0x8020_0000), PTE_RW, &mut pool);
    assert_eq!(pool.len(), 0);
    assert_eq!(pt.translate(VirtAddr::new(0x3f_fff0)).map(|p| p.raw()), Some(0x803f_fff0));
    pt.map_vm_1g(VirtAddr::new(0x8000_0000), PhysAddr::new(0x4000_0000), PTE_R, &mut pool);
    assert_eq!(pt.translate(VirtAddr::new(0xbfff_ffff)).map(|p| p.raw()), Some(0x7fff_ffff));
    let mut pool2 = pool_with(&[0x8200_0000, 0x8200_1000]);
    pt.map_vm_with_page_size(
        VirtAddr::new(0x1_0000_0000),
        PhysAddr::new(0x9000_0000),
        PTE_R,
        PageSize::Size4K,
        &mut pool2,
    );
    assert_eq!(pt.translate(VirtAddr::new(0x1_0000_0010)).map(|p| p.raw()), Some(0x9000_0010));
}

#[test]
fn early_mappings_behave_like_mappings() {
    let mut pt = PageTable::empty();
    let mut pool = pool_with(&[0x8100_0000, 0x8100_1000]);
    pt.map_vm_early(VirtAddr::new(0x5000), PhysAddr::new(0x8000_7000), PTE_RW, &mut pool);
    assert_eq!(pt.translate(VirtAddr::new(0x5004)).map(|p| p.raw()), Some(0x8000_7004));
    let mut pool2 = pool_with(&[0x8200_0000]);
    pt.map_vm_early_2m(VirtAddr::new(0x4000_0000), PhysAddr::new(0x8000_0000), PTE_R, &mut pool2);
    assert_eq!(pt.translate(VirtAddr::new(0x4000_0004)).map(|p| p.raw()), Some(0x8000_0004));
    pt.map_vm_early_1g(VirtAddr::new(0xc000_0000), PhysAddr::new(0), PTE_R, &mut pool2);
    assert_eq!(pt.translate(VirtAddr::new(0xc000_1000)).map(|p| p.raw()), Some(0x1000));
}

#[test]
fn remap_changes_flags_not_translation() {
    let mut pt = PageTable::empty();
    let mut pool = pool_with(&[0x8100_0000, 0x8100_1000]);
    pt.map_vm(VirtAddr::new(0x7000), PhysAddr::new(0x8050_0000), PTE_R, &mut pool);
    pt.remap_vm(VirtAddr::new(0x7000), PTE_RW);
    assert_eq!(pt.translate(VirtAddr::new(0x7010)).map(|p| p.raw()), Some(0x8050_0010));
}

#[test]
fn kernel_address_space_covers_direct_map_and_image() {
    let mut pt = PageTable::empty();
    let mut pool = FramePool::new();
    kvm_full_map(&mut pt, &mut pool);
    assert_eq!(pool.len(), 0);
    let x = 0x1234_5678u64;
    assert_eq!(pt.translate(VirtAddr::new(KERNEL_DIRECT_MAPPING_BASE + x)).map(|p| p.raw()), Some(x));
    let last = DIRECT_MAP_PAGES * GB - 1;
    assert_eq!(
        pt.translate(VirtAddr::new(KERNEL_DIRECT_MAPPING_BASE + last)).map(|p| p.raw()),
        Some(last)
    );
    assert_eq!(
        pt.translate(VirtAddr::new(KERNEL_IMAGE_START_VA + 0x20_1000)).map(|p| p.raw()),
        Some(KERNEL_IMAGE_START_PA + 0x20_1000)
    );
    assert!(pt.translate(VirtAddr::new(0x1000)).is_none());
}

#[test]
fn page_references_count_up_and_down() {
    let mut t = PageMetadataTable::new();
    let a = PhysAddr::new(0x8000_1000);
    assert_eq!(t.refcount(a), None);
    assert_eq!(add(&mut t, a), Ok(()));
    assert_eq!(t.refcount(a), Some(1));
    assert_eq!(add(&mut t, a), Err(Error::AlreadyExists));
    assert_eq!(t.refcount(a), Some(1));
    assert_eq!(remove(&mut t, a), Ok(0));
    assert_eq!(t.refcount(a), None);
    assert_eq!(remove(&mut t, a), Err(Error::NotFound));
}

#[test]
fn allocator_rejects_bad_heaps() {
    assert!(LinkedListAllocator::new(0, 0x1000).is_err());
    assert!(LinkedListAllocator::new(0x1000, 0x1010).is_err());
    assert!(LinkedListAllocator::new(u64::MAX - 8, u64::MAX).is_err());
    assert!(LinkedListAllocator::new(0x1000, 0x1020).is_ok());
}

#[test]
fn allocator_first_fit_and_split() {
    let mut a = LinkedListAllocator::new(0x1000, 0x2000).unwrap();
    assert_eq!(a.traverse(), 0x1000);
    assert!(a.can_alloc(64, 8));
    assert!(!a.can_alloc(0x2000, 8));
    let p = a.allocate(64, 8);
    // Header (32 bytes) and back offset (8 bytes) come first.
    assert_eq!(p, 0x1028);
    assert_eq!(a.blocks.len(), 2);
    assert_eq!(a.blocks[0], Block { addr: 0x1000, sz: 104, free: false, back_offset: 0x28 });
    assert_eq!(a.blocks[1], Block { addr: 0x1068, sz: 0x1000 - 104, free: true, back_offset: 0 });
    let q = a.allocate(16, 64);
    assert_eq!(q % 64, 0);
    assert!(q >= 0x1068 + 40);
    assert_eq!(q, 0x10c0);
    assert_eq!(a.traverse(), 0x1000);
}

#[test]
fn freed_block_is_reused() {
    let mut a = LinkedListAllocator::new(0x1000, 0x2000).unwrap();
    let p = a.allocate(100, 8);
    let _q = a.allocate(100, 8);
    a.dealloc(p);
    assert!(a.blocks[0].free);
    let r = a.allocate(100, 8);
    assert_eq!(r, p);
    assert_eq!(a.traverse(), 0x1000);
}

fn leaf_4k(pt: &PageTable, va: u64) -> efiks::pte::PageTableEntry {
    let idx = [(va >> 30) & 0x1ff, (va >> 21) & 0x1ff, (va >> 12) & 0x1ff];
    let Slot::Table(_, l1) = &pt.entries[idx[0] as usize] else { panic!("no level-1 table") };
    let Slot::Table(_, l0) = &l1.entries[idx[1] as usize] else { panic!("no level-0 table") };
    let Slot::Entry(e) = &l0.entries[idx[2] as usize] else { panic!("no leaf") };
    *e
}

#[test]
fn fork_shares_pages_read_only() {
    let mut pt = PageTable::empty();
    let mut tables = pool_with(&[0x8100_0000, 0x8100_1000, 0x8100_2000]);
    pt.map_vm(VirtAddr::new(0x1000), PhysAddr::new(0x8020_1000), PTE_RW | PTE_U, &mut tables);
    pt.map_vm(VirtAddr::new(0x2000), PhysAddr::new(0x8020_2000), PTE_R | PTE_U, &mut tables);
    pt.map_vm_2m(VirtAddr::new(0x4000_0000), PhysAddr::new(0x8040_0000), PTE_RW, &mut tables);
    assert!(leaf_4k(&pt, 0x1000).is_writable());
    let mut pool = pool_with(&[0x8200_0000, 0x8200_1000, 0x8200_2000, 0x8200_3000, 0x8200_4000]);
    let mut meta = PageMetadataTable::new();
    assert_eq!(add(&mut meta, PhysAddr::new(0x8020_1000)), Ok(()));
    let (child, child_root) = pt.fork(&mut pool, &mut meta);
    // One frame per table: the root, two level-1 tables and one level-0 table.
    assert_eq!(child_root.raw(), 0x8200_4000);
    assert_eq!(pool.len(), 1);
    for va in [0x1008u64, 0x2010, 0x4000_1234] {
        assert_eq!(child.translate(VirtAddr::new(va)), pt.translate(VirtAddr::new(va)));
        assert!(pt.translate(VirtAddr::new(va)).is_some());
    }
    assert!(!leaf_4k(&pt, 0x1000).is_writable());
    assert!(!leaf_4k(&child, 0x1000).is_writable());
    assert!(leaf_4k(&child, 0x1000).is_user());
    // A counted page gets one more reference; an uncounted one starts at one.
    assert_eq!(meta.refcount(PhysAddr::new(0x8020_1000)), Some(2));
    assert_eq!(meta.refcount(PhysAddr::new(0x8020_2000)), Some(1));
    assert_eq!(meta.refcount(PhysAddr::new(0x8040_0000)), None);
}

#[test]
fn freeing_a_table_returns_every_frame() {
    let mut pt = PageTable::empty();
    let mut tables = pool_with(&[0x8100_0000, 0x8100_1000, 0x8100_2000]);
    pt.map_vm(VirtAddr::new(0x1000), PhysAddr::new(0x8020_1000), PTE_RW | PTE_U, &mut tables);
    pt.map_vm_2m(VirtAddr::new(0x4000_0000), PhysAddr::new(0x8040_0000), PTE_RW, &mut tables);
    assert_eq!(tables.len(), 0);
    let mut pool = pool_with(&[0x8300_0000]);
    pt.traverse_free(PhysAddr::new(0x8000_0000), &mut pool);
    let frames: Vec<u64> = pool.frames.iter().map(|p| p.raw()).collect();
    assert_eq!(frames.len(), 5);
    assert_eq!(frames[0], 0x8300_0000);
    assert_eq!(*frames.last().unwrap(), 0x8000_0000);
    let mut middle = frames[1..4].to_vec();
    middle.sort();
    assert_eq!(middle, vec![0x8100_0000, 0x8100_1000, 0x8100_2000]);
}

#[test]
fn allocator_serves_aligned_requests_and_reuses_freed_space() {
    let mut a = LinkedListAllocator::new(0x10_0000, 0x11_0000).unwrap();
    let requests: [(u64, u64); 5] = [(4096, 1), (128 * 64, 64), (32 * 256, 256), (1000 * 4, 4), (500 * 24, 8)];
    let mut taken: Vec<(u64, u64)> = Vec::new();
    for (size, align) in requests {
        assert!(a.can_alloc(size, align));
        let p = a.allocate(size, align);
        assert_eq!(p % align, 0);
        assert!(p >= 0x10_0000 + 40 && p + size <= 0x11_0000);
        for (q, qs) in &taken {
            assert!(p + size <= *q || *q + *qs <= p, "allocations overlap");
        }
        taken.push((p, size));
    }
    assert_eq!(a.traverse(), 0x1_0000);
    for (p, _) in &taken {
        a.dealloc(*p);
    }
    assert!(a.blocks.iter().all(|b| b.free));
    assert!(a.can_alloc(4096, 8));
    let again = a.allocate(4096, 8);
    // The first block fits again and is reused.
    assert_eq!(again, taken[0].0);
    assert!(a.can_alloc(256 * 16, 16));
    let aligned = a.allocate(256 * 16, 16);
    assert_eq!(aligned % 16, 0);
}

fn take(alloc: &mut LinkedListAllocator, size: u64, align: u64) -> u64 {
    assert!(alloc.can_alloc(size, align));
    alloc.allocate(size, align)
}

/// The collections of the allocator's users, laid out by hand in a heap of
/// one MiB: each takes its storage from the allocator and keeps its
/// elements at the addresses handed out.
#[test]
fn collections_can_use_linked_list_allocator_directly() {
    const HEAP_SIZE: u64 = 1024 * 1024;
    let start = 0x1000_0000u64;
    let end = start + HEAP_SIZE;
    let mut alloc = LinkedListAllocator::new(start, end).expect("failed to initialize LinkedListAllocator");
    let mut heap = vec![0u8; HEAP_SIZE as usize];
    let at = |p: u64| (p - start) as usize;

    let bytes = take(&mut alloc, 4096, 1);
    for i in 0..4096usize {
        heap[at(bytes) + i] = (i % 251) as u8;
    }
    assert_eq!(heap[at(bytes)..at(bytes) + 4096].len(), 4096);
    assert_eq!(heap[at(bytes) + 123], (123 % 251) as u8);
    assert_eq!(bytes % 1, 0);

    let a64 = take(&mut alloc, 128 * 64, 64);
    for i in 0..128usize {
        heap[at(a64) + 64 * i] = i as u8;
    }
    assert_eq!(heap[at(a64) + 64 * 17], 17);
    assert_eq!(a64 % 64, 0);

    let a256 = take(&mut alloc, 32 * 256, 256);
    for i in 0..32usize {
        let p = at(a256) + 256 * i;
        heap[p..p + 8].copy_from_slice(&(i as u64).to_le_bytes());
    }
    let p9 = at(a256) + 256 * 9;
    assert_eq!(u64::from_le_bytes(heap[p9..p9 + 8].try_into().unwrap()), 9);
    assert_eq!(a256 % 256, 0);

    // A queue of 1000 `i32`s, 200 of them taken from the front.
    let dq = take(&mut alloc, 1000 * 4, 4);
    for i in 0..1000usize {
        let p = at(dq) + 4 * i;
        heap[p..p + 4].copy_from_slice(&(i as i32).to_le_bytes());
    }
    let read_i32 = |heap: &Vec<u8>, k: usize| {
        let p = at(dq) + 4 * k;
        i32::from_le_bytes(heap[p..p + 4].try_into().unwrap())
    };
    let mut head = 0usize;
    for i in 0..200 {
        assert_eq!(read_i32(&heap, head), i);
        head += 1;
    }
    assert_eq!(read_i32(&heap, head), 200);
    assert_eq!(read_i32(&heap, 999), 999);

    // A map of 500 short strings, one 16-byte slot per key.
    let map = take(&mut alloc, 500 * 16, 8);
    for i in 0..500usize {
        let v = format!("value-{i}");
        let p = at(map) + 16 * i;
        heap[p] = v.len() as u8;
        heap[p + 1..p + 1 + v.len()].copy_from_slice(v.as_bytes());
    }
    let read_str = |heap: &Vec<u8>, k: usize| {
        let p = at(map) + 16 * k;
        String::from_utf8(heap[p + 1..p + 1 + heap[p] as usize].to_vec()).unwrap()
    };
    assert_eq!(read_str(&heap, 77), "value-77");
    assert_eq!(read_str(&heap, 499), "value-499");

    for p in [bytes, a64, a256, dq, map] {
        alloc.dealloc(p);
    }

    let after = take(&mut alloc, 256 * 16, 16);
    for i in 0..256u128 {
        let p = at(after) + 16 * i as usize;
        heap[p..p + 16].copy_from_slice(&i.to_le_bytes());
    }
    let p255 = at(after) + 16 * 255;
    assert_eq!(u128::from_le_bytes(heap[p255..p255 + 16].try_into().unwrap()), 255);
    assert_eq!(after % 16, 0);
}

#[test]
fn shared_pages_count_each_reference() {
    let mut meta = PageMetadataTable::new();
    let page = PhysAddr::new(0x8020_0000);
    assert_eq!(share(&mut meta, page), Ok(1));
    assert_eq!(share(&mut meta, page), Ok(2));
    assert_eq!(remove(&mut meta, page), Ok(1));
    assert_eq!(remove(&mut meta, page), Ok(0));
    assert_eq!(meta.refcount(page), None);
    meta.map.insert(page.raw(), u16::MAX);
    assert_eq!(share(&mut meta, page), Err(Error::Overflow));
    assert_eq!(meta.refcount(page), Some(u16::MAX));
}
