use efiks::addr::{
    align_down, align_up, checked_offset_u64, KernelPtr, KernelVirtAddr, PhysAddr, UserBuf,
    UserBufMut, UserPtr, VirtAddr,
};
use efiks::arch::{Context, PageSize, Riscv};
use efiks::errno::{Errno, IntoError};
use efiks::error::Error;
use efiks::mappings::{
    kernel_text_virt_to_phys_raw, phys_to_virt, virt_to_phys, KERNEL_DIRECT_MAPPING_BASE,
};
use efiks::pte::{flags_contain, vpn_0, vpn_1, vpn_2, PageTableEntry, PTE_R, PTE_RW, PTE_V, PTE_W};

#[test]
fn errno_codes_match_linux() {
    assert_eq!(Errno::ENoEnt.code(), 2);
    assert_eq!(Errno::EIO.code(), 5);
    assert_eq!(Errno::ENoExec.code(), 8);
    assert_eq!(Errno::EBadF.code(), 9);
    assert_eq!(Errno::EChild.code(), 10);
    assert_eq!(Errno::ENoMem.code(), 12);
    assert_eq!(Errno::EFault.code(), 14);
    assert_eq!(Errno::EBusy.code(), 16);
    assert_eq!(Errno::EExist.code(), 17);
    assert_eq!(Errno::EInval.code(), 22);
    assert_eq!(Errno::ENoSys.code(), 38);
    assert_eq!(Errno::EOverflow.code(), 75);
}

#[test]
fn kernel_errors_map_to_errnos() {
    assert_eq!(Error::Unaligned.into_errno(), Errno::EInval);
    assert_eq!(Error::Overflow.into_errno(), Errno::EOverflow);
    assert_eq!(Error::Oom.into_errno(), Errno::ENoMem);
    assert_eq!(Error::NotFound.into_errno(), Errno::ENoEnt);
    assert_eq!(Error::InvalidArgs.into_errno(), Errno::EInval);
    assert_eq!(Error::Unmapped.into_errno(), Errno::EFault);
    assert_eq!(Error::NoSys.into_errno(), Errno::ENoSys);
    assert_eq!(Error::AlreadyExists.into_errno(), Errno::EExist);
    assert_eq!(Error::from_errno(Errno::EBusy).into_errno(), Errno::EBusy);
    assert_eq!(Error::from_errno(Errno::EIO), Error::Errno(Errno::EIO));
    assert_eq!(Error::Oom.to_errno(), Errno::ENoMem);
    assert_eq!(Errno::EChild.to_errno(), Errno::EChild);
}

#[test]
fn alignment_rounds_to_multiples() {
    assert_eq!(align_down(0x1234, 0x1000), 0x1000);
    assert_eq!(align_up(0x1234, 0x1000), 0x2000);
    assert_eq!(align_up(0x2000, 0x1000), 0x2000);
    assert_eq!(align_down(0x2000, 0x1000), 0x2000);
    assert_eq!(align_up(0, 16), 0);
    assert_eq!(VirtAddr::new(0x1001).align_up(0x1000).raw(), 0x2000);
    assert_eq!(VirtAddr::new(0x1fff).align_down(0x1000).raw(), 0x1000);
}

#[test]
fn offsets_fail_on_wrap_around() {
    assert_eq!(checked_offset_u64(10, -3), Some(7));
    assert_eq!(checked_offset_u64(10, -11), None);
    assert_eq!(checked_offset_u64(u64::MAX, 1), None);
    assert_eq!(checked_offset_u64(0, i64::MIN), None);
    assert_eq!(checked_offset_u64(u64::MAX, i64::MIN), Some(u64::MAX - (1u64 << 63)));
    assert_eq!(VirtAddr::new(0x1000).offset_by(0x10).map(|v| v.raw()), Some(0x1010));
    assert!(VirtAddr::new(0).offset_by(-1).is_none());
    assert_eq!(PhysAddr::new(0x8000).offset_by(-0x1000).map(|p| p.raw()), Some(0x7000));
    assert!(PhysAddr::new(u64::MAX).offset_by(1).is_none());
}

#[test]
fn virt_addr_difference_is_signed() {
    assert_eq!(VirtAddr::new(0x3000).difference(VirtAddr::new(0x1000)), 0x2000);
    assert_eq!(VirtAddr::new(0x1000).difference(VirtAddr::new(0x3000)), -0x2000);
}

#[test]
fn kernel_pointers_check_alignment() {
    let k = KernelVirtAddr::new(VirtAddr::new(0x1004)).unwrap();
    assert_eq!(k.raw(), 0x1004);
    assert!(k.check_aligned::<u32>());
    assert!(!k.check_aligned::<u64>());
    assert_eq!(k.as_ptr::<u32>(), Ok(0x1004));
    assert_eq!(k.as_ptr::<u64>(), Err(Error::Unaligned));
    assert_eq!(k.as_ptr_mut::<u64>(), Err(Error::Unaligned));
    assert_eq!(k.offset_by(4).map(|x| x.raw()), Some(0x1008));
    assert!(KernelPtr::<u64>::new(VirtAddr::new(0x1004)).is_err());
    let p = KernelPtr::<u64>::new(VirtAddr::new(0x1008)).unwrap();
    assert_eq!(p.addr(), 0x1008);
    assert_eq!(p.as_ptr(), 0x1008);
    assert_eq!(KernelPtr::<u64>::new(VirtAddr::new(0)), Err(Error::InvalidArgs));
}

#[test]
fn user_buffers_reject_null() {
    assert!(UserBuf::new(0).is_none());
    assert_eq!(UserBuf::new(0x10).map(|b| (b.0).0), Some(0x10));
    assert!(UserBufMut::new(0).is_none());
    assert!(UserBufMut::new(0x20).is_some());
}

#[test]
fn user_pointer_arrays_step_by_element() {
    let p = UserPtr::<u64>::new(0x1000);
    assert!(!p.is_null());
    assert!(UserPtr::<u64>::new(0).is_null());
    assert_eq!(p.offset(2).map(|q| q.raw()), Some(0x1010));
    assert!(UserPtr::<u64>::new(8).offset(-2).is_none());
    let argv = UserPtr::<UserPtr<u8>>::new(0x2000);
    let mut it = argv.iter();
    assert_eq!(it.next_slot().map(|s| s.raw()), Some(0x2000));
    assert_eq!(it.next_slot().map(|s| s.raw()), Some(0x2008));
    assert_eq!(it.cur.raw(), 0x2010);
}

#[test]
fn page_sizes_and_levels() {
    assert_eq!(PageSize::Size4K.bytes(), 4096);
    assert_eq!(PageSize::Size2M.bytes(), 0x20_0000);
    assert_eq!(PageSize::Size1G.bytes(), 0x4000_0000);
    assert_eq!(PageSize::Size4K.level(), 0);
    assert_eq!(PageSize::Size1G.level(), 2);
}

#[test]
fn timer_ticks_from_nanoseconds() {
    assert_eq!(Riscv::nanos_to_ticks(1_000_000_000), 10_000_000);
    assert_eq!(Riscv::nanos_to_ticks(150), 1);
    assert_eq!(Riscv::nanos_to_ticks(99), 0);
}

#[test]
fn fresh_context_starts_at_entry() {
    let c = Context::initialize(VirtAddr::new(0x8000_1000), VirtAddr::new(0x9000_0000));
    assert_eq!(c.ra, 0x8000_1000);
    assert_eq!(c.sp, 0x9000_0000);
    assert_eq!(c.s0, 0);
    assert_eq!(c.s11, 0);
}

#[test]
fn direct_map_round_trip() {
    assert_eq!(phys_to_virt(0x8000_0000), KERNEL_DIRECT_MAPPING_BASE + 0x8000_0000);
    assert_eq!(virt_to_phys(phys_to_virt(0x1234_5000)), 0x1234_5000);
    assert_eq!(kernel_text_virt_to_phys_raw(0xffff_ffff_8020_0000).raw(), 0x8020_0000);
}

#[test]
fn page_table_entry_bits() {
    let e = PageTableEntry::empty();
    assert!(!e.is_valid());
    let v = PageTableEntry::new_valid();
    assert!(v.is_valid());
    assert!(!v.is_leaf());
    let leaf = v.set_flags(PTE_RW).set_physical_address(PhysAddr::new(0x8020_3000));
    assert!(leaf.is_leaf());
    assert!(leaf.is_writable());
    assert!(!leaf.is_user());
    assert_eq!(leaf.physical_address().raw(), 0x8020_3000);
    assert_eq!(leaf.0 & 0x3ff, (PTE_V | PTE_RW) as u64);
    let ro = leaf.unset_flags(PTE_W);
    assert!(!ro.is_writable());
    assert!(ro.is_leaf());
    assert_eq!(ro.physical_address().raw(), 0x8020_3000);
    assert!(flags_contain(PTE_RW, PTE_R));
    assert!(!flags_contain(PTE_R, PTE_RW));
}

#[test]
fn virtual_page_numbers() {
    let va = VirtAddr::new((3u64 << 30) | (5u64 << 21) | (7u64 << 12) | 0x123);
    assert_eq!(vpn_2(va), 3);
    assert_eq!(vpn_1(va), 5);
    assert_eq!(vpn_0(va), 7);
}
