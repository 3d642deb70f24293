//! Where the kernel image and physical memory sit in the address space.
use vstd::prelude::*;
use crate::addr::{PhysAddr, VirtAddr};

verus! {

/// Virtual address of the start of the kernel image.
pub const KERNEL_IMAGE_START_VA: u64 = 0xffff_ffff_8000_0000;

/// Physical address where the kernel image is loaded.
pub const KERNEL_IMAGE_START_PA: u64 = 0x8000_0000;

/// Start of the window through which the kernel sees all of physical memory.
pub const KERNEL_DIRECT_MAPPING_BASE: u64 = 0xffff_ffd6_0000_0000;

/// The physical address behind a direct-mapped kernel virtual address.
pub fn virt_to_phys(virt: u64) -> (r: u64)
    requires
        virt >= KERNEL_DIRECT_MAPPING_BASE,
    ensures
        r == virt - KERNEL_DIRECT_MAPPING_BASE,
{
    virt - KERNEL_DIRECT_MAPPING_BASE
}

/// The direct-mapped kernel virtual address of a physical address.
pub fn phys_to_virt(phys: u64) -> (r: u64)
    requires
        phys + KERNEL_DIRECT_MAPPING_BASE <= u64::MAX,
    ensures
        r == phys + KERNEL_DIRECT_MAPPING_BASE,
{
    phys + KERNEL_DIRECT_MAPPING_BASE
}

/// The physical address of a kernel-text address: its low 32 bits.
pub fn kernel_text_virt_to_phys_raw(virt: u64) -> (r: PhysAddr)
    ensures
        r@ == virt % 0x1_0000_0000,
{
    assert(virt & 0xffff_ffffu64 == virt % 0x1_0000_0000) by (bit_vector);
    PhysAddr(virt & 0xffff_ffff)
}

/// Converting to the direct map and back gives the address again.
pub proof fn lemma_direct_map_round_trip(phys: u64)
    requires
        phys + KERNEL_DIRECT_MAPPING_BASE <= u64::MAX,
    ensures
        (phys + KERNEL_DIRECT_MAPPING_BASE) - KERNEL_DIRECT_MAPPING_BASE == phys,
{
}

} // verus!
