//! The kernel's part of every address space.
use vstd::prelude::*;
use crate::addr::{PhysAddr, VirtAddr};
use crate::arch::level_bytes;
use crate::mappings::{KERNEL_DIRECT_MAPPING_BASE, KERNEL_IMAGE_START_PA, KERNEL_IMAGE_START_VA};
use crate::page_table::{FramePool, PageTable, Slot, leaf_update, lemma_leaf_update, map_pre};
use crate::pte::{PTE_RW, PTE_RWX, PageTableEntry, lemma_vpn_bound, pte_is_table, pte_pa, pte_valid, vpn};

verus! {

pub const KB: u64 = 1024;
pub const GB: u64 = 0x4000_0000;

/// Number of 1 GiB pages of the direct map (up to the kernel image).
pub const DIRECT_MAP_PAGES: u64 = 166;

/// The raw entry held in root slot `k`.
pub open spec fn slot_entry(pt: PageTable, k: int) -> u64 {
    match pt.entries@[k] {
        Slot::Entry(e) => e@,
        Slot::Table(e, _) => e@,
    }
}

/// The root after the kernel mappings: slots 344..510 map physical memory
/// 1 GiB at a time read-write, slots 510 and 511 map the kernel image
/// read-write-execute, and every other slot is as before.
pub open spec fn kvm_mapped(pre: PageTable, post: PageTable) -> bool {
    &&& post.wf(2)
    &&& forall|k: int|
        0 <= k < 512 ==> #[trigger] post.entries@[k] == (if 344 <= k
            < 510 {
            Slot::Entry(
                PageTableEntry(
                    leaf_update(
                        slot_entry(pre, k),
                        ((k - 344) * GB) as u64,
                        PTE_RW,
                    ),
                ),
            )
        } else if 510 <= k {
            Slot::Entry(
                PageTableEntry(
                    leaf_update(
                        slot_entry(pre, k),
                        (KERNEL_IMAGE_START_PA + (k - 510) * GB) as u64,
                        PTE_RWX,
                    ),
                ),
            )
        } else {
            pre.entries@[k]
        })
}

proof fn lemma_gb_page(base: u64, i: u64, first: int)
    requires
        i < 2 || (base == KERNEL_DIRECT_MAPPING_BASE && i < DIRECT_MAP_PAGES),
        base == KERNEL_DIRECT_MAPPING_BASE || base == KERNEL_IMAGE_START_VA,
        base == KERNEL_DIRECT_MAPPING_BASE ==> first == 344,
        base == KERNEL_IMAGE_START_VA ==> first == 510,
    ensures
        base + i * GB <= u64::MAX,
        vpn((base + i * GB) as u64, 2) == first + i,
        ((base + i * GB) as u64 as nat) % level_bytes(2) == 0,
{
    if base == KERNEL_DIRECT_MAPPING_BASE {
    assert(((0xffff_ffd6_0000_0000u64 + i * 0x4000_0000u64) as u64 >> 30u64) & 0x1ffu64 == 344 + i
        && ((0xffff_ffd6_0000_0000u64 + i * 0x4000_0000u64) as u64) % 0x4000_0000 == 0 && 0xffff_ffd6_0000_0000u64 + i * 0x4000_0000u64 <= 0xffff_ffff_ffff_ffffu64) by (bit_vector)
        requires
            i < 166,
    ;
    } else {
    assert(((0xffff_ffff_8000_0000u64 + i * 0x4000_0000u64) as u64 >> 30u64) & 0x1ffu64 == 510 + i
        && ((0xffff_ffff_8000_0000u64 + i * 0x4000_0000u64) as u64) % 0x4000_0000 == 0 && 0xffff_ffff_8000_0000u64 + i * 0x4000_0000u64 <= 0xffff_ffff_ffff_ffffu64) by (bit_vector)
        requires
            i < 2,
    ;
    }
}

proof fn lemma_gb_multiple(i: u64)
    requires
        i < 256,
    ensures
        ((i * GB) as nat) % level_bytes(2) == 0,
        ((KERNEL_IMAGE_START_PA + i * GB) as nat) % level_bytes(2) == 0,
{
    assert((i * 0x4000_0000) % 0x4000_0000 == 0 && (0x8000_0000 + i * 0x4000_0000) % 0x4000_0000
        == 0) by (nonlinear_arith);
}

proof fn lemma_rw_leaf(e: u64, pa: u64)
    requires
        pa % 4096 == 0,
        crate::pte::pa_fits(pa),
    ensures
        crate::pte::pte_leaf(leaf_update(e, pa, PTE_RW)),
        crate::pte::pte_leaf(leaf_update(e, pa, PTE_RWX)),
{
    assert(6u8 & 14u8 != 0 && 14u8 & 14u8 != 0) by (bit_vector);
    lemma_leaf_update(e, pa, PTE_RW);
    lemma_leaf_update(e, pa, PTE_RWX);
}

/// Maps all of physical memory read-write from `KERNEL_DIRECT_MAPPING_BASE`
/// and the kernel image read-write-execute from `KERNEL_IMAGE_START_VA`,
/// with 1 GiB pages, so that traps need not switch page tables.
pub fn kvm_full_map(root_pt: &mut PageTable, pool: &mut FramePool)
    requires
        old(root_pt).wf(2),
        old(pool).wf(),
        forall|k: int|
            344 <= k < 512 ==> (#[trigger] old(root_pt).entries@[k]) is Entry,
    ensures
        kvm_mapped(*old(root_pt), *final(root_pt)),
        final(pool).frames@ == old(pool).frames@,
        final(pool).wf(),
{
    let ghost pre = *root_pt;
    let direct_mapping_size = VirtAddr(KERNEL_IMAGE_START_VA).difference(
        VirtAddr(KERNEL_DIRECT_MAPPING_BASE),
    );
    let n = (direct_mapping_size as u64) / GB;
    proof {
        assert(n == DIRECT_MAP_PAGES);
    }
    let mut i: u64 = 0;
    while i < n
        invariant
            n == DIRECT_MAP_PAGES,
            i <= n,
            root_pt.wf(2),
            pool.wf(),
            pool.frames@ == old(pool).frames@,
            forall|k: int|
                0 <= k < 512 ==> #[trigger] root_pt.entries@[k] == (if 344 <= k
                    < 344 + i {
                    Slot::Entry(
                        PageTableEntry(
                            leaf_update(
                                slot_entry(pre, k),
                                ((k - 344) * GB) as u64,
                                PTE_RW,
                            ),
                        ),
                    )
                } else {
                    pre.entries@[k]
                }),
            forall|k: int| 344 <= k < 512 ==> (#[trigger] pre.entries@[k]) is Entry,
        decreases n - i,
    {
        proof {
            lemma_gb_page(KERNEL_DIRECT_MAPPING_BASE, i, 344);
            lemma_gb_multiple(i);
            lemma_rw_leaf(slot_entry(pre, 344 + i), (i * GB) as u64);
        }
        let va = match VirtAddr(KERNEL_DIRECT_MAPPING_BASE).offset_by((i * GB) as i64) {
            Some(v) => v,
            None => {
                proof {
                    assert(false);
                }
                VirtAddr(0)
            },
        };
        let pa = PhysAddr(i * GB);
        proof {
            let k = 344 + i;
            assert(vpn(va@, 2) == k);
            assert(root_pt.entries@[k] == pre.entries@[k]);
            assert(root_pt.target_entry(va@, 2, 2) == slot_entry(pre, k));
            assert(map_pre(*root_pt, va@, pa@, PTE_RW, 2));
        }
        let ghost before = *root_pt;
        root_pt.map_vm_1g(va, pa, PTE_RW, pool);
        proof {
            assert forall|k: int| 0 <= k < 512 implies #[trigger] root_pt.entries@[k] == (if 344 <= k
                < 344 + i + 1 {
                Slot::Entry(
                    PageTableEntry(
                        leaf_update(
                            slot_entry(pre, k),
                            ((k - 344) * GB) as u64,
                            PTE_RW,
                        ),
                    ),
                )
            } else {
                pre.entries@[k]
            }) by {
                if k != 344 + i {
                    assert(root_pt.entries@[k] == before.entries@[k]);
                }
            }
        }
        i = i + 1;
    }
    let mut j: u64 = 0;
    while j < 2
        invariant
            j <= 2,
            root_pt.wf(2),
            pool.wf(),
            pool.frames@ == old(pool).frames@,
            forall|k: int|
                0 <= k < 512 ==> #[trigger] root_pt.entries@[k] == (if 344 <= k
                    < 510 {
                    Slot::Entry(
                        PageTableEntry(
                            leaf_update(
                                slot_entry(pre, k),
                                ((k - 344) * GB) as u64,
                                PTE_RW,
                            ),
                        ),
                    )
                } else if 510 <= k < 510 + j {
                    Slot::Entry(
                        PageTableEntry(
                            leaf_update(
                                slot_entry(pre, k),
                                (KERNEL_IMAGE_START_PA + (k - 510) * GB) as u64,
                                PTE_RWX,
                            ),
                        ),
                    )
                } else {
                    pre.entries@[k]
                }),
            forall|k: int| 344 <= k < 512 ==> (#[trigger] pre.entries@[k]) is Entry,
        decreases 2 - j,
    {
        proof {
            lemma_gb_page(KERNEL_IMAGE_START_VA, j, 510);
            lemma_gb_multiple(j);
            lemma_rw_leaf(slot_entry(pre, 510 + j), (KERNEL_IMAGE_START_PA + j * GB) as u64);
        }
        let va = match VirtAddr(KERNEL_IMAGE_START_VA).offset_by((j * GB) as i64) {
            Some(v) => v,
            None => {
                proof {
                    assert(false);
                }
                VirtAddr(0)
            },
        };
        let pa = match PhysAddr(KERNEL_IMAGE_START_PA).offset_by((j * GB) as i64) {
            Some(p) => p,
            None => {
                proof {
                    assert(false);
                }
                PhysAddr(0)
            },
        };
        proof {
            let k = 510 + j;
            assert(vpn(va@, 2) == k);
            assert(root_pt.entries@[k] == pre.entries@[k]);
            assert(root_pt.target_entry(va@, 2, 2) == slot_entry(pre, k));
            assert(map_pre(*root_pt, va@, pa@, PTE_RWX, 2));
        }
        let ghost before = *root_pt;
        root_pt.map_vm_1g(va, pa, PTE_RWX, pool);
        proof {
            assert forall|k: int| 0 <= k < 512 implies #[trigger] root_pt.entries@[k] == (if 344 <= k
                < 510 {
                Slot::Entry(
                    PageTableEntry(
                        leaf_update(
                            slot_entry(pre, k),
                            ((k - 344) * GB) as u64,
                            PTE_RW,
                        ),
                    ),
                )
            } else if 510 <= k < 510 + j + 1 {
                Slot::Entry(
                    PageTableEntry(
                        leaf_update(
                            slot_entry(pre, k),
                            (KERNEL_IMAGE_START_PA + (k - 510) * GB) as u64,
                            PTE_RWX,
                        ),
                    ),
                )
            } else {
                pre.entries@[k]
            }) by {
                if k != 510 + j {
                    assert(root_pt.entries@[k] == before.entries@[k]);
                }
            }
        }
        j = j + 1;
    }
}

/// After `kvm_full_map` on a root whose kernel slots were empty, every
/// address of the direct map translates to the physical address it stands
/// for, and the kernel image window translates to where the image is loaded.
pub proof fn lemma_kvm_translation(pre: PageTable, post: PageTable, x: u64)
    requires
        pre.wf(2),
        kvm_mapped(pre, post),
        forall|k: int| 344 <= k < 512 ==> !pte_valid(slot_entry(pre, k)),
    ensures
        x < DIRECT_MAP_PAGES * GB ==> post.translate_spec((KERNEL_DIRECT_MAPPING_BASE + x) as u64)
            == Some(x),
        x < 2 * GB ==> post.translate_spec((KERNEL_IMAGE_START_VA + x) as u64) == Some(
            (KERNEL_IMAGE_START_PA + x) as u64,
        ),
{
    if x < DIRECT_MAP_PAGES * GB {
        let va = (KERNEL_DIRECT_MAPPING_BASE + x) as u64;
        assert(((0xffff_ffd6_0000_0000u64 + x) as u64 >> 30u64) & 0x1ffu64 == 344 + x / 0x4000_0000
            && ((0xffff_ffd6_0000_0000u64 + x) as u64) % 0x4000_0000 == x % 0x4000_0000)
            by (bit_vector)
            requires
                x < 166 * 0x4000_0000,
        ;
        let k = 344 + x / GB;
        let pa = ((k - 344) * GB) as u64;
        assert(pa == (x / GB) * GB);
        assert(pa % 4096 == 0 && crate::pte::pa_fits(pa)) by (nonlinear_arith)
            requires
                pa == (x / 0x4000_0000) * 0x4000_0000,
                x < 166 * 0x4000_0000,
        ;
        lemma_leaf_update(slot_entry(pre, k), pa, PTE_RW);
        lemma_rw_leaf(slot_entry(pre, k), pa);
        assert(post.entries@[vpn(va, 2)] == post.entries@[k]);
        assert(x == (x / GB) * GB + x % GB) by (nonlinear_arith);
    }
    if x < 2 * GB {
        let va = (KERNEL_IMAGE_START_VA + x) as u64;
        assert(((0xffff_ffff_8000_0000u64 + x) as u64 >> 30u64) & 0x1ffu64 == 510 + x / 0x4000_0000
            && ((0xffff_ffff_8000_0000u64 + x) as u64) % 0x4000_0000 == x % 0x4000_0000)
            by (bit_vector)
            requires
                x < 2 * 0x4000_0000,
        ;
        let k = 510 + x / GB;
        let pa = (KERNEL_IMAGE_START_PA + (k - 510) * GB) as u64;
        assert(pa == 0x8000_0000 + (x / GB) * GB);
        assert(pa % 4096 == 0 && crate::pte::pa_fits(pa)) by (nonlinear_arith)
            requires
                pa == 0x8000_0000 + (x / 0x4000_0000) * 0x4000_0000,
                x < 2 * 0x4000_0000,
        ;
        lemma_leaf_update(slot_entry(pre, k), pa, PTE_RWX);
        lemma_rw_leaf(slot_entry(pre, k), pa);
        assert(post.entries@[vpn(va, 2)] == post.entries@[k]);
        assert(x == (x / GB) * GB + x % GB) by (nonlinear_arith);
    }
}

} // verus!
