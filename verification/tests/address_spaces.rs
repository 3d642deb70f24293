use efiks::addr::{PhysAddr, VirtAddr};
use efiks::address_space::{AddressSpace, ADDRESS_SPACE_STACK_PAGES};
use efiks::error::Error;
use efiks::mappings::KERNEL_DIRECT_MAPPING_BASE;
use efiks::mm::{
    decide_page_fault, region_flags, search_regions, FaultAction, FaultEffect,
    KernelStackRegion, MemoryManager, VmRegion, KERNEL_STACK_PAGES,
};
use efiks::page_meta::PageMetadataTable;
use efiks::page_table::{FramePool, PageTable};
use efiks::pte::{PageTableEntry, PTE_R, PTE_RW, PTE_U, PTE_W, PTE_X};

fn region(start: u64, end: u64, flags: u8) -> VmRegion {
    VmRegion { start: VirtAddr(start), end: VirtAddr(end), flags }
}

fn manager() -> MemoryManager {
    MemoryManager {
        root_pt: PageTable::empty(),
        regions: Vec::new(),
        kernel_stack: KernelStackRegion::empty(),
        start_brk: VirtAddr(0),
        brk: VirtAddr(0),
    }
}

fn pool_with(frames: &[u64]) -> FramePool {
    let mut pool = FramePool::new();
    for f in frames {
        assert!(pool.add(PhysAddr::new(*f)));
    }
    pool
}

#[test]
fn regions_are_found_by_binary_search() {
    let rs = vec![region(0x1000, 0x3000, PTE_R), region(0x5000, 0x6000, PTE_RW), region(0x9000, 0xa000, PTE_X)];
    assert_eq!(search_regions(&rs, 0x5000), Ok(1));
    assert_eq!(search_regions(&rs, 0x0), Err(0));
    assert_eq!(search_regions(&rs, 0x5001), Err(2));
    assert_eq!(search_regions(&rs, 0xf000), Err(3));
    assert_eq!(region_flags(&rs, 0x2000), Some(PTE_R));
    assert_eq!(region_flags(&rs, 0x3000), None);
    assert_eq!(region_flags(&rs, 0x5000), Some(PTE_RW));
    assert_eq!(region_flags(&rs, 0x500), None);
    assert_eq!(region_flags(&rs, 0x9fff), Some(PTE_X));
}

#[test]
fn page_fault_decisions() {
    assert_eq!(decide_page_fault(None, PTE_R, false), Err(Error::Unmapped));
    assert_eq!(decide_page_fault(Some(PTE_R), PTE_W, false), Err(Error::Unmapped));
    assert_eq!(decide_page_fault(Some(PTE_RW), PTE_R, false), Ok(FaultAction::MapFresh(PTE_RW)));
    assert_eq!(decide_page_fault(Some(PTE_RW), PTE_W, true), Ok(FaultAction::CopyOnWrite));
    assert_eq!(decide_page_fault(Some(PTE_RW), PTE_R, true), Err(Error::Unmapped));
}

#[test]
fn regions_are_added_once() {
    let mut mm = manager();
    assert_eq!(mm.map_page_if_not_exist(VirtAddr(0x4000), PTE_RW), Ok(true));
    assert_eq!(mm.map_page_if_not_exist(VirtAddr(0x4000), PTE_R), Ok(false));
    assert_eq!(mm.map_page_if_not_exist(VirtAddr(0x4800), PTE_R), Ok(false));
    assert_eq!(mm.map_page_if_not_exist(VirtAddr(0x2000), PTE_R), Ok(true));
    assert_eq!(mm.regions.iter().map(|r| r.start.0).collect::<Vec<_>>(), vec![0x2000, 0x4000]);
    assert_eq!(mm.regions[1].end.0, 0x5000);
    assert_eq!(mm.map_page_if_not_exist(VirtAddr(u64::MAX - 10), PTE_R), Err(Error::Overflow));
    assert_eq!(mm.map_page(VirtAddr(u64::MAX - 10), PTE_R), Err(Error::Overflow));
    assert_eq!(mm.map_page(VirtAddr(0x8000), PTE_R), Ok(()));
    assert_eq!(mm.insert_mapping(VirtAddr(0x1000), VirtAddr(0x1800), PTE_X), Ok(()));
    assert_eq!(mm.regions.iter().map(|r| r.start.0).collect::<Vec<_>>(), vec![0x1000, 0x2000, 0x4000, 0x8000]);
}

#[test]
fn brk_grows_and_shrinks() {
    let mut mm = manager();
    mm.set_initial_brk(VirtAddr(0x1_0000));
    assert_eq!(mm.start_brk.0, 0x1_0000);
    assert_eq!(mm.brk(VirtAddr(0x1_2500)).map(|v| v.0), Ok(0x1_2500));
    assert_eq!(mm.brk.0, 0x1_2500);
    for page in [0x1_0000u64, 0x1_1000, 0x1_2000] {
        assert_eq!(region_flags(&mm.regions, page), Some(PTE_U | PTE_RW), "page {page:#x}");
    }
    assert_eq!(region_flags(&mm.regions, 0x1_3000), None);
    assert_eq!(mm.brk(VirtAddr(0x1_1000)).map(|v| v.0), Ok(0x1_1000));
    assert_eq!(mm.brk.0, 0x1_1000);
    // At or below the start the break stays where it is.
    assert_eq!(mm.brk(VirtAddr(0x8000)).map(|v| v.0), Ok(0x1_1000));
    assert_eq!(mm.brk(VirtAddr(0x1_4000)).map(|v| v.0), Ok(0x1_4000));
    assert_eq!(region_flags(&mm.regions, 0x1_3000), Some(PTE_U | PTE_RW));
}

#[test]
fn faults_on_a_fresh_page_get_a_frame() {
    let mut mm = manager();
    mm.map_page(VirtAddr(0x7000), PTE_U | PTE_RW).unwrap();
    assert_eq!(mm.page_fault_action(VirtAddr(0x7123), PTE_W), Ok(FaultAction::MapFresh(PTE_U | PTE_RW)));
    assert_eq!(mm.page_fault_action(VirtAddr(0x9000), PTE_R), Err(Error::Unmapped));
    let mut pool = pool_with(&[0x8100_0000, 0x8100_1000, 0x8020_0000]);
    let mut meta = PageMetadataTable::new();
    let mut mm2 = manager();
    let pa = mm2.map_allocate_page(VirtAddr(0x3000), PTE_U | PTE_RW, &mut pool, &mut meta).unwrap();
    assert_eq!(pa.raw(), 0x8020_0000);
    assert_eq!(pool.len(), 0);
    assert_eq!(meta.refcount(pa), Some(1));
    assert_eq!(mm2.translate(VirtAddr(0x3010)).map(|p| p.raw()), Some(0x8020_0010));
    assert_eq!(mm2.translate_to_kernel(VirtAddr(0x3010)).map(|v| v.0), Ok(KERNEL_DIRECT_MAPPING_BASE + 0x8020_0010));
    assert_eq!(mm2.translate_to_kernel(VirtAddr(0x5000)).map(|v| v.0), Err(Error::Unmapped));
    // A write to the mapped page is a copy-on-write; a read is no fault to serve.
    assert_eq!(mm2.page_fault_action(VirtAddr(0x3000), PTE_W), Ok(FaultAction::CopyOnWrite));
    assert_eq!(mm2.page_fault_action(VirtAddr(0x3000), PTE_R), Err(Error::Unmapped));
}

#[test]
fn kernel_stacks_come_from_the_pool() {
    let frames: Vec<u64> = (0..20u64).map(|i| 0x8100_0000 + i * 0x1000).collect();
    let mut pool = pool_with(&frames);
    let mut mm = manager();
    let top = mm.create_kernel_stack(&mut pool).unwrap();
    // The last frame is the guard, the one before it the stack's start.
    assert_eq!(mm.kernel_stack.guard.raw(), 0x8101_3000);
    let start = 0x8101_2000u64;
    assert_eq!(mm.kernel_stack.bottom.0, start + KERNEL_DIRECT_MAPPING_BASE);
    assert_eq!(mm.kernel_stack.top.0, start + KERNEL_DIRECT_MAPPING_BASE + KERNEL_STACK_PAGES * 4096);
    assert_eq!(top.raw(), start + KERNEL_STACK_PAGES * 4096);
    assert_eq!(pool.len(), 20 - 1 - KERNEL_STACK_PAGES as usize);
}

#[test]
fn address_space_stack_regions() {
    let frames: Vec<u64> = (0..10u64).map(|i| 0x8200_0000 + i * 0x1000).collect();
    let mut pool = pool_with(&frames);
    let mut space = AddressSpace { root_pt: PhysAddr::new(0x8000_0000), regions: Vec::new() };
    let top = space.create_kernel_stack(&mut pool);
    assert_eq!(pool.len(), 10 - ADDRESS_SPACE_STACK_PAGES);
    assert_eq!(space.regions.len(), ADDRESS_SPACE_STACK_PAGES);
    assert_eq!(space.regions[0].start.0, 0x8200_9000 + KERNEL_DIRECT_MAPPING_BASE);
    assert_eq!(space.regions[0].end.0, 0x8200_a000 + KERNEL_DIRECT_MAPPING_BASE);
    assert_eq!(space.regions[7].start.0, 0x8200_2000 + KERNEL_DIRECT_MAPPING_BASE);
    assert_eq!(top.raw(), 0x8200_2000 + 0xfa0);
}

#[test]
fn copy_on_write_moves_the_page_to_a_private_frame() {
    let mut pt = PageTable::empty();
    let mut tables = pool_with(&[0x8100_0000, 0x8100_1000]);
    pt.map_vm(VirtAddr(0x3000), PhysAddr::new(0x8020_0000), PTE_U | PTE_R, &mut tables);
    let mut meta = PageMetadataTable::new();
    efiks::page_meta::add(&mut meta, PhysAddr::new(0x8020_0000)).unwrap();
    let mut pool = pool_with(&[0x8030_0000]);
    let (from, to, freed) = pt.copy_on_write(VirtAddr(0x3000), &mut pool, &mut meta);
    assert_eq!((from.raw(), to.raw(), freed), (0x8020_0000, 0x8030_0000, true));
    assert_eq!(pt.translate(VirtAddr(0x3008)).map(|p| p.raw()), Some(0x8030_0008));
    assert_eq!(meta.refcount(PhysAddr::new(0x8030_0000)), Some(1));
    assert_eq!(meta.refcount(PhysAddr::new(0x8020_0000)), None);
    // The shared frame had no other user and went back to the pool.
    assert_eq!(pool.frames.iter().map(|p| p.raw()).collect::<Vec<_>>(), vec![0x8020_0000]);
}

#[test]
fn page_faults_map_then_copy() {
    let mut mm = manager();
    mm.insert_mapping(VirtAddr(0x7000), VirtAddr(0x8000), PTE_U | PTE_RW).unwrap();
    let mut pool = pool_with(&[0x8040_0000, 0x8100_0000, 0x8100_1000, 0x8020_0000]);
    let mut meta = PageMetadataTable::new();
    let first = mm.handle_page_fault(VirtAddr(0x7123), PTE_W, &mut pool, &mut meta);
    assert_eq!(first, Ok(FaultEffect::Zeroed { frame: PhysAddr::new(0x8020_0000) }));
    assert_eq!(mm.translate(VirtAddr(0x7123)).map(|p| p.raw()), Some(0x8020_0123));
    assert_eq!(meta.refcount(PhysAddr::new(0x8020_0000)), Some(1));
    assert_eq!(pool.len(), 1);
    let second = mm.handle_page_fault(VirtAddr(0x7fff), PTE_W, &mut pool, &mut meta);
    assert_eq!(
        second,
        Ok(FaultEffect::Copied { from: PhysAddr::new(0x8020_0000), to: PhysAddr::new(0x8040_0000), freed: true })
    );
    assert_eq!(mm.translate(VirtAddr(0x7010)).map(|p| p.raw()), Some(0x8040_0010));
    assert_eq!(mm.handle_page_fault(VirtAddr(0x7000), PTE_R, &mut pool, &mut meta), Err(Error::Unmapped));
    assert_eq!(mm.handle_page_fault(VirtAddr(0x9000), PTE_R, &mut pool, &mut meta), Err(Error::Unmapped));
}

#[test]
fn forked_address_spaces_copy_on_write() {
    let mut parent = manager();
    parent.insert_mapping(VirtAddr(0x7000), VirtAddr(0x8000), PTE_U | PTE_RW).unwrap();
    let frames: Vec<u64> = (0..40u64).map(|i| 0x8100_0000 + i * 0x1000).collect();
    let mut pool = pool_with(&frames);
    let mut meta = PageMetadataTable::new();
    let fault = parent.handle_page_fault(VirtAddr(0x7000), PTE_W, &mut pool, &mut meta).unwrap();
    let FaultEffect::Zeroed { frame } = fault else { panic!("expected a fresh frame") };
    assert!(parent.root_pt.writable_leaves_readable());
    let before = pool.len();
    let (mut child, child_root) = parent.fork(&mut pool, &mut meta).unwrap();
    // Three tables copied, then a guard frame and the kernel stack.
    assert_eq!(pool.len(), before - 3 - 1 - KERNEL_STACK_PAGES as usize);
    assert_eq!(child_root.raw(), frames[before - 1]);
    assert_eq!(child.translate(VirtAddr(0x7010)), parent.translate(VirtAddr(0x7010)));
    assert_eq!(child.translate(VirtAddr(0x7010)).map(|p| p.raw()), Some(frame.raw() + 0x10));
    assert_eq!(child.regions.len(), 1);
    assert_ne!(child.kernel_stack.top.0, 0);
    assert_eq!(meta.refcount(frame), Some(2));
    // The first write in the child gets it a private copy; the shared frame
    // keeps the parent's reference.
    let copied = child.handle_page_fault(VirtAddr(0x7010), PTE_W, &mut pool, &mut meta).unwrap();
    assert!(matches!(copied, FaultEffect::Copied { from, freed: false, .. } if from == frame));
    assert_eq!(meta.refcount(frame), Some(1));
    assert_ne!(child.translate(VirtAddr(0x7010)), parent.translate(VirtAddr(0x7010)));
}

#[test]
fn freeing_an_address_space_returns_its_frames() {
    let mut mm = manager();
    mm.insert_mapping(VirtAddr(0x7000), VirtAddr(0x8000), PTE_U | PTE_RW).unwrap();
    let frames: Vec<u64> = (0..30u64).map(|i| 0x8100_0000 + i * 0x1000).collect();
    let mut pool = pool_with(&frames);
    let mut meta = PageMetadataTable::new();
    let FaultEffect::Zeroed { frame } = mm.handle_page_fault(VirtAddr(0x7000), PTE_W, &mut pool, &mut meta).unwrap() else {
        panic!("expected a fresh frame")
    };
    mm.create_kernel_stack(&mut pool).unwrap();
    let guard = mm.kernel_stack.guard;
    let bottom = mm.kernel_stack.bottom.0 - KERNEL_DIRECT_MAPPING_BASE;
    let mut back = FramePool::new();
    mm.free(PhysAddr::new(0x8000_0000), &mut back, &mut meta);
    let got: Vec<u64> = back.frames.iter().map(|p| p.raw()).collect();
    // The user page, the guard, the sixteen stack pages, two tables and the root.
    assert_eq!(got.len(), 1 + 1 + KERNEL_STACK_PAGES as usize + 2 + 1);
    assert_eq!(got[0], frame.raw());
    assert_eq!(got[1], guard.raw());
    assert_eq!(got[2], bottom);
    assert_eq!(got[17], bottom + 15 * 4096);
    assert_eq!(*got.last().unwrap(), 0x8000_0000);
    assert_eq!(meta.refcount(frame), None);
}

#[test]
fn mapping_over_a_leaf_moves_it_to_the_new_frame() {
    let mut pt = PageTable::empty();
    let mut tables = pool_with(&[0x8010_0000, 0x8010_1000]);
    pt.map_vm(VirtAddr(0x5000), PhysAddr::new(0x8020_0000), PTE_U | PTE_R, &mut tables);
    pt.map_vm(VirtAddr(0x5000), PhysAddr::new(0x8030_0000), PTE_U | PTE_W, &mut tables);
    assert_eq!(pt.translate(VirtAddr(0x5123)), Some(PhysAddr::new(0x8030_0123)));
}

#[test]
fn a_gigabyte_page_translates_every_byte() {
    let mut pt = PageTable::empty();
    let mut tables = pool_with(&[]);
    pt.map_vm_1g(VirtAddr(0x4000_0000), PhysAddr::new(0x8000_0000), PTE_R | PTE_W, &mut tables);
    assert_eq!(pt.translate(VirtAddr(0x4000_0000)), Some(PhysAddr::new(0x8000_0000)));
    assert_eq!(pt.translate(VirtAddr(0x7fff_ffff)), Some(PhysAddr::new(0xbfff_ffff)));
    assert_eq!(pt.translate(VirtAddr(0x8000_0000)), None);
}

#[test]
fn root_entries_are_stored_as_given() {
    let mut pt = PageTable::empty();
    // A leaf with R and V at frame 0x8000_0000.
    pt.set_entry(1, PageTableEntry((0x8000_0000u64 >> 12 << 10) | 0b11));
    assert_eq!(pt.translate(VirtAddr(0x4000_1234)), Some(PhysAddr::new(0x8000_1234)));
}

#[test]
fn user_stacks_are_eight_fresh_pages() {
    let mut mm = manager();
    let frames: Vec<u64> = (0..16).map(|i| 0x8100_0000 + i * 0x1000).collect();
    let mut pool = pool_with(&frames);
    let mut meta = PageMetadataTable::new();
    let sp = mm.create_user_stack(&mut pool, &mut meta).unwrap();
    assert_eq!(sp, VirtAddr(0x3fff_8fa0));
    for k in 1..=8u64 {
        assert!(mm.translate(VirtAddr(0x3fff_0000 + k * 0x1000)).is_some());
    }
    assert!(mm.translate(VirtAddr(0x3fff_0000)).is_none());
    assert_eq!(mm.regions.len(), 8);
    assert_eq!(pool.len(), 16 - 8 - 2);
    // A second stack over the same pages is refused and changes nothing.
    assert_eq!(mm.create_user_stack(&mut pool, &mut meta), Err(Error::InvalidArgs));
    assert_eq!(pool.len(), 6);
}

#[test]
fn fresh_pages_are_refused_when_taken_or_without_frames() {
    let mut mm = manager();
    let mut pool = pool_with(&[0x8100_0000, 0x8100_1000, 0x8100_2000]);
    let mut meta = PageMetadataTable::new();
    assert_eq!(mm.map_fresh_page(VirtAddr(0x1001), PTE_U | PTE_R, &mut pool, &mut meta), Err(Error::InvalidArgs));
    assert_eq!(mm.map_fresh_page(VirtAddr(0x1000), PTE_U, &mut pool, &mut meta), Err(Error::InvalidArgs));
    assert_eq!(mm.map_fresh_page(VirtAddr(0x1000), PTE_U | PTE_R, &mut pool, &mut meta), Ok(PhysAddr::new(0x8100_2000)));
    assert_eq!(mm.map_fresh_page(VirtAddr(0x1000), PTE_U | PTE_R, &mut pool, &mut meta), Err(Error::InvalidArgs));
    assert_eq!(mm.map_fresh_page(VirtAddr(0x4000_0000), PTE_U | PTE_R, &mut pool, &mut meta), Err(Error::Oom));
    assert_eq!(pool.len(), 0);
}

#[test]
fn remapping_a_page_keeps_its_frame() {
    let mut mm = manager();
    let mut pool = pool_with(&[0x8100_0000, 0x8100_1000, 0x8100_2000]);
    let mut meta = PageMetadataTable::new();
    let pa = mm.map_fresh_page(VirtAddr(0x7000), PTE_U | PTE_R, &mut pool, &mut meta).unwrap();
    mm.remap_page(VirtAddr(0x7000), PTE_W);
    assert_eq!(mm.translate(VirtAddr(0x7008)), Some(PhysAddr::new(pa.raw() + 8)));
}
