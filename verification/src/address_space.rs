//! A user address space as the task loader first set it up: a root table
//! frame and a list of page-sized regions.
use vstd::prelude::*;
use crate::addr::{PhysAddr, VirtAddr};
use crate::mappings::KERNEL_DIRECT_MAPPING_BASE;
use crate::page_table::FramePool;

verus! {

/// Pages of a kernel stack of an address space.
pub const ADDRESS_SPACE_STACK_PAGES: usize = 8;

/// A page-sized range of an address space.
#[derive(Clone, Copy, Debug)]
pub struct VmRegion {
    /// Start address.
    pub start: VirtAddr,
    /// End address.
    pub end: VirtAddr,
}

/// An address space: the frame of its root table and its regions.
pub struct AddressSpace {
    pub root_pt: PhysAddr,
    pub regions: Vec<VmRegion>,
}

/// The region a kernel-stack frame `pa` gets: its direct-mapped page.
pub open spec fn stack_region(pa: u64) -> VmRegion {
    VmRegion {
        start: VirtAddr((pa + KERNEL_DIRECT_MAPPING_BASE) as u64),
        end: VirtAddr((pa + KERNEL_DIRECT_MAPPING_BASE + 4096) as u64),
    }
}

impl AddressSpace {
    /// Takes the frames of a kernel stack one by one, which the direct map
    /// already covers, records each as a one-page region, and answers the
    /// stack top in the last frame taken (`0xfa0` bytes into it).
    pub fn create_kernel_stack(&mut self, pool: &mut FramePool) -> (r: PhysAddr)
        requires
            old(pool).wf(),
            old(pool).frames@.len() >= ADDRESS_SPACE_STACK_PAGES,
            forall|i: int|
                0 <= i < old(pool).frames@.len() ==> (#[trigger] old(pool).frames@[i])@
                    + KERNEL_DIRECT_MAPPING_BASE + 4096 <= u64::MAX,
        ensures
            final(pool).wf(),
            final(pool).frames@ == old(pool).frames@.take(
                old(pool).frames@.len() - ADDRESS_SPACE_STACK_PAGES,
            ),
            final(self).root_pt == old(self).root_pt,
            final(self).regions@.len() == old(self).regions@.len() + ADDRESS_SPACE_STACK_PAGES,
            final(self).regions@.subrange(0, old(self).regions@.len() as int) == old(self).regions@,
            forall|k: int|
                0 <= k < ADDRESS_SPACE_STACK_PAGES ==> #[trigger] final(self).regions@[old(
                    self,
                ).regions@.len() + k] == stack_region(
                    old(pool).frames@[old(pool).frames@.len() - 1 - k]@,
                ),
            r@ == old(pool).frames@[old(pool).frames@.len() - ADDRESS_SPACE_STACK_PAGES]@ + 0xfa0,
    {
        let ghost frames = pool.frames@;
        let ghost regions0 = self.regions@;
        let mut kernel_stack_top = PhysAddr(0);
        let mut k: usize = 0;
        while k < ADDRESS_SPACE_STACK_PAGES
            invariant
                k <= ADDRESS_SPACE_STACK_PAGES,
                frames.len() >= ADDRESS_SPACE_STACK_PAGES,
                frames == old(pool).frames@,
                regions0 == old(self).regions@,
                forall|i: int|
                    0 <= i < frames.len() ==> (#[trigger] frames[i])@ + KERNEL_DIRECT_MAPPING_BASE
                        + 4096 <= u64::MAX,
                pool.wf(),
                pool.frames@ == frames.take(frames.len() - k),
                self.root_pt == old(self).root_pt,
                self.regions@.len() == regions0.len() + k,
                self.regions@.subrange(0, regions0.len() as int) == regions0,
                forall|j: int|
                    0 <= j < k ==> #[trigger] self.regions@[regions0.len() + j] == stack_region(
                        frames[frames.len() - 1 - j]@,
                    ),
                k > 0 ==> kernel_stack_top@ == frames[frames.len() - k]@ + 0xfa0,
            decreases ADDRESS_SPACE_STACK_PAGES - k,
        {
            let kernel_stack = pool.take();
            assert(kernel_stack == frames[frames.len() - 1 - k]);
            let va = crate::mappings::phys_to_virt(kernel_stack.0);
            let ghost before = self.regions@;
            self.regions.push(VmRegion { start: VirtAddr(va), end: VirtAddr(va + 4096) });
            assert(self.regions@.subrange(0, regions0.len() as int) =~= regions0) by {
                assert forall|t: int| 0 <= t < regions0.len() implies self.regions@[t] == regions0[t] by {
                    assert(before.subrange(0, regions0.len() as int)[t] == regions0[t]);
                }
            }
            assert(pool.frames@ =~= frames.take(frames.len() - (k + 1)));
            kernel_stack_top = PhysAddr(kernel_stack.0 + 0xfa0);
            k += 1;
        }
        kernel_stack_top
    }
}

} // verus!
