//! A task's memory manager: its page table, its sorted list of virtual
//! memory regions, its kernel stack and its program break.
use vstd::prelude::*;
use crate::addr::{VirtAddr, PhysAddr, offset_spec, align_up_spec};
use vstd::arithmetic::power2::is_pow2;
use crate::error::Error;
use crate::pte::{PteFlags, PTE_RW, PTE_U, PTE_W, pte_pa, pa_fits};
use crate::page_table::{PageTable, FramePool, map_pre, map_result, cow_result, lemma_cow_translation, fork_walk, leaf_update};
use crate::page_meta::share_all;
use crate::page_meta::{PageMetadataTable, add_spec, remove_spec};
use crate::page_meta;
use crate::mappings::KERNEL_DIRECT_MAPPING_BASE;

verus! {

/// Bytes per page.
pub const PAGE_SIZE: u64 = 4096;
/// Pages of a kernel stack.
pub const KERNEL_STACK_PAGES: u64 = 16;
/// The page below the lowest page of a user stack.
pub const USER_STACK_BASE: u64 = 0x3fff_0000;
/// Pages of a user stack (32 KiB).
pub const USER_STACK_PAGES: u64 = 8;
/// The `k`-th page of the user stack, counting from 1.
pub open spec fn user_stack_page(k: int) -> u64 {
    (USER_STACK_BASE + k * 4096) as u64
}

/// Bytes between the initial user stack pointer and the stack's top.
pub const USER_STACK_TOP_GAP: u64 = 0x60;

/// A mapped range of virtual memory and its permissions.
#[derive(Clone, Copy, Debug)]
pub struct VmRegion {
    /// Start address.
    pub start: VirtAddr,
    /// End address.
    pub end: VirtAddr,
    /// Permissions.
    pub flags: PteFlags,
}

/// Regions sorted by strictly increasing start address.
pub open spec fn sorted(r: Seq<VmRegion>) -> bool {
    forall|i: int, j: int| 0 <= i < j < r.len() ==> r[i].start@ < r[j].start@
}

/// `k` is the last region that starts at or below `p`.
pub open spec fn last_below(r: Seq<VmRegion>, p: u64, k: int) -> bool {
    &&& 0 <= k < r.len()
    &&& r[k].start@ <= p
    &&& k + 1 < r.len() ==> r[k + 1].start@ > p
}

/// `x` is a region that moving the break up adds: one read-write user page
/// starting in `[lo, hi)`.
pub open spec fn brk_region(x: VmRegion, lo: int, hi: int) -> bool {
    &&& x.flags == PTE_RW | PTE_U
    &&& x.start@ % 4096 == 0
    &&& lo <= x.start@ < hi
    &&& x.end@ == x.start@ + 4096
}

/// An element of `s` with `v` inserted is `v` or an element of `s`.
proof fn lemma_insert_contains<A>(s: Seq<A>, i: int, v: A, x: A)
    requires
        0 <= i <= s.len(),
    ensures
        s.insert(i, v).contains(x) == (s.contains(x) || x == v),
{
    s.insert_ensures(i, v);
    let t = s.insert(i, v);
    if s.contains(x) {
        let k = choose|k: int| 0 <= k < s.len() && s[k] == x;
        if k < i {
            assert(t[k] == x);
        } else {
            assert(t[k + 1] == x);
        }
    }
    if x == v {
        assert(t[i] == x);
    }
    if t.contains(x) {
        let k = choose|k: int| 0 <= k < t.len() && t[k] == x;
        if k < i {
            assert(s[k] == x);
        } else if k > i {
            assert(s[k - 1] == x);
        }
    }
}

/// The region consulted for address `p`: the last one starting at or below
/// it, when it starts exactly at `p` or reaches past it.
pub open spec fn region_for(r: Seq<VmRegion>, p: u64) -> Option<int> {
    if exists|k: int| last_below(r, p, k) {
        let k = choose|k: int| last_below(r, p, k);
        if r[k].start@ == p || p < r[k].end@ {
            Some(k)
        } else {
            None
        }
    } else {
        None
    }
}

/// Lemma: in sorted regions, the last region starting at or below an
/// address is unique.
proof fn lemma_last_below_unique(r: Seq<VmRegion>, p: u64, k1: int, k2: int)
    requires
        sorted(r),
        last_below(r, p, k1),
        last_below(r, p, k2),
    ensures
        k1 == k2,
{
    if k1 < k2 {
        assert(r[k1 + 1].start@ <= r[k2].start@);
    } else if k2 < k1 {
        assert(r[k2 + 1].start@ <= r[k1].start@);
    }
}

/// Binary search of sorted regions by start address: the region starting
/// at `key`, or the number of regions starting below it.
pub fn search_regions(regions: &Vec<VmRegion>, key: u64) -> (res: Result<usize, usize>)
    requires
        sorted(regions@),
    ensures
        match res {
            Ok(i) => i < regions.len() && regions@[i as int].start@ == key,
            Err(i) => i <= regions.len() && (forall|j: int|
                0 <= j < i ==> #[trigger] regions@[j].start@ < key) && (forall|j: int|
                i <= j < regions.len() ==> #[trigger] regions@[j].start@ > key),
        },
{
    let mut lo: usize = 0;
    let mut hi: usize = regions.len();
    while lo < hi
        invariant
            lo <= hi <= regions.len(),
            sorted(regions@),
            forall|j: int| 0 <= j < lo ==> #[trigger] regions@[j].start@ < key,
            forall|j: int| hi <= j < regions.len() ==> #[trigger] regions@[j].start@ > key,
        decreases hi - lo,
    {
        let mid = lo + (hi - lo) / 2;
        let s = regions[mid].start.0;
        if s == key {
            return Ok(mid);
        } else if s < key {
            lo = mid + 1;
        } else {
            hi = mid;
        }
    }
    Err(lo)
}

/// The flags of the region consulted for `addr`, if any.
pub fn region_flags(regions: &Vec<VmRegion>, addr: u64) -> (r: Option<PteFlags>)
    requires
        sorted(regions@),
    ensures
        match region_for(regions@, addr) {
            Some(k) => r == Some(regions@[k].flags),
            None => r is None,
        },
{
    match search_regions(regions, addr) {
        Ok(i) => {
            proof {
                assert(last_below(regions@, addr, i as int));
                let k = choose|k: int| last_below(regions@, addr, k);
                lemma_last_below_unique(regions@, addr, i as int, k);
            }
            Some(regions[i].flags)
        },
        Err(i) => {
            if i > 0 && addr < regions[i - 1].end.0 {
                proof {
                    assert(last_below(regions@, addr, i - 1));
                    let k = choose|k: int| last_below(regions@, addr, k);
                    lemma_last_below_unique(regions@, addr, i - 1, k);
                }
                Some(regions[i - 1].flags)
            } else {
                proof {
                    if exists|k: int| last_below(regions@, addr, k) {
                        let k = choose|k: int| last_below(regions@, addr, k);
                        if i > 0 {
                            assert(last_below(regions@, addr, i - 1));
                            lemma_last_below_unique(regions@, addr, i - 1, k);
                        } else {
                            assert(regions@[k].start@ > addr);
                        }
                    }
                }
                None
            }
        },
    }
}

/// Lemma: inserting a region into sorted regions at its place keeps them
/// sorted.
proof fn lemma_insert_sorted(r: Seq<VmRegion>, i: int, v: VmRegion)
    requires
        sorted(r),
        0 <= i <= r.len(),
        forall|j: int| 0 <= j < i ==> #[trigger] r[j].start@ < v.start@,
        forall|j: int| i <= j < r.len() ==> #[trigger] r[j].start@ > v.start@,
    ensures
        sorted(r.insert(i, v)),
{
    let s = r.insert(i, v);
    assert forall|a: int, b: int| 0 <= a < b < s.len() implies s[a].start@ < s[b].start@ by {
        if b < i {
        } else if a < i && b == i {
        } else if a < i {
            assert(s[b] == r[b - 1]);
        } else if a == i {
            assert(s[b] == r[b - 1]);
        } else {
            assert(s[a] == r[a - 1]);
            assert(s[b] == r[b - 1]);
        }
    }
}

/// Lemma: inserting a region that starts above `p` leaves the region
/// consulted for `p` as it was.
proof fn lemma_insert_above_keeps(r: Seq<VmRegion>, i: int, v: VmRegion, p: u64)
    requires
        sorted(r),
        0 <= i <= r.len(),
        forall|j: int| 0 <= j < i ==> #[trigger] r[j].start@ < v.start@,
        forall|j: int| i <= j < r.len() ==> #[trigger] r[j].start@ > v.start@,
        v.start@ > p,
        region_for(r, p) is Some,
    ensures
        region_for(r.insert(i, v), p) is Some,
        r[region_for(r, p)->0].flags == r.insert(i, v)[region_for(r.insert(i, v), p)->0].flags,
{
    let s = r.insert(i, v);
    lemma_insert_sorted(r, i, v);
    let k = choose|k: int| last_below(r, p, k);
    assert(k < i) by {
        if k >= i {
            assert(r[k].start@ > v.start@);
        }
    }
    assert(last_below(s, p, k)) by {
        assert(s[k] == r[k]);
        if k + 1 < s.len() {
            if k + 1 == i {
                assert(s[k + 1] == v);
            } else {
                assert(s[k + 1] == r[k + 1]);
            }
        }
    }
    let k2 = choose|k2: int| last_below(s, p, k2);
    lemma_last_below_unique(s, p, k, k2);
}

/// Lemma: the page size is a power of two.
pub proof fn lemma_page_pow2()
    ensures
        is_pow2(4096),
{
    reveal_with_fuel(is_pow2, 13);
}

/// The kernel stack of a task: a guard frame below it and its virtual range.
#[derive(Clone, Copy, Debug)]
pub struct KernelStackRegion {
    pub guard: PhysAddr,
    pub bottom: VirtAddr,
    pub top: VirtAddr,
}

impl KernelStackRegion {
    /// No stack.
    pub fn empty() -> (r: Self)
        ensures
            r.guard@ == 0 && r.bottom@ == 0 && r.top@ == 0,
    {
        KernelStackRegion { guard: PhysAddr(0), bottom: VirtAddr(0), top: VirtAddr(0) }
    }
}

/// A task's address space: its page table, its regions sorted by start,
/// its kernel stack and its program break.
pub struct MemoryManager {
    pub root_pt: PageTable,
    pub regions: Vec<VmRegion>,
    pub kernel_stack: KernelStackRegion,
    pub start_brk: VirtAddr,
    pub brk: VirtAddr,
}

/// What a page fault asks for once it is found legal.
#[derive(Clone, Copy, Debug, PartialEq, Eq, Structural)]
pub enum FaultAction {
    /// The page is mapped read-only and shared: copy it and make it writable.
    CopyOnWrite,
    /// The page is not mapped yet: map a fresh zeroed frame with these flags.
    MapFresh(PteFlags),
}

/// `flags` grant every permission in `access`.
pub open spec fn grants(flags: PteFlags, access: PteFlags) -> bool {
    flags & access == access
}

/// The answer to a fault at page `page` for `access`, given the flags of
/// the region consulted for it and whether the page is mapped.
pub open spec fn fault_decision(region: Option<PteFlags>, access: PteFlags, mapped: bool) -> Result<
    FaultAction,
    Error,
> {
    match region {
        None => Err(Error::Unmapped),
        Some(flags) => if !grants(flags, access) {
            Err(Error::Unmapped)
        } else if mapped {
            if access & PTE_W != 0 {
                Ok(FaultAction::CopyOnWrite)
            } else {
                Err(Error::Unmapped)
            }
        } else {
            Ok(FaultAction::MapFresh(flags))
        },
    }
}

/// Law: how a page fault is answered, by the region consulted (`region`),
/// the access that faulted and whether the page is mapped. Only an access
/// that the region grants in full is served. A page that is not mapped
/// gets a fresh frame mapped with exactly the region's own flags, so no
/// permission the region lacks is ever mapped. A mapped page is copied on a
/// write and refused otherwise.
pub proof fn lemma_fault_decision_law(region: Option<PteFlags>, access: PteFlags, mapped: bool)
    ensures
        region is None ==> fault_decision(region, access, mapped) == Err::<FaultAction, Error>(
            Error::Unmapped,
        ),
        region is Some && region->0 & access != access ==> fault_decision(region, access, mapped)
            == Err::<FaultAction, Error>(Error::Unmapped),
        region is Some && region->0 & access == access && !mapped ==> fault_decision(region, access, mapped)
            == Ok::<FaultAction, Error>(FaultAction::MapFresh(region->0)),
        region is Some && region->0 & access == access && mapped && access & 4 != 0 ==> fault_decision(
            region,
            access,
            mapped,
        ) == Ok::<FaultAction, Error>(FaultAction::CopyOnWrite),
        region is Some && region->0 & access == access && mapped && access & 4 == 0 ==> fault_decision(
            region,
            access,
            mapped,
        ) == Err::<FaultAction, Error>(Error::Unmapped),
        fault_decision(region, access, mapped) is Ok && fault_decision(region, access, mapped)->Ok_0 is MapFresh
            ==> !mapped && region == Some(fault_decision(region, access, mapped)->Ok_0->MapFresh_0) && region->0
            & access == access,
{
}

/// Decides how to answer a page fault at a page: an address outside every
/// region, or an access the region does not grant, is refused; a write to a
/// mapped page is a copy-on-write; any other access to a mapped page is
/// refused; an unmapped page gets a fresh frame.
pub fn decide_page_fault(region: Option<PteFlags>, access: PteFlags, mapped: bool) -> (r: Result<
    FaultAction,
    Error,
>)
    ensures
        r == fault_decision(region, access, mapped),
{
    let flags = match region {
        Some(f) => f,
        None => return Err(Error::Unmapped),
    };
    if flags & access != access {
        return Err(Error::Unmapped);
    }
    if mapped {
        if access & PTE_W != 0 {
            Ok(FaultAction::CopyOnWrite)
        } else {
            Err(Error::Unmapped)
        }
    } else {
        Ok(FaultAction::MapFresh(flags))
    }
}

impl MemoryManager {
    /// Well formed: a well-formed root table and sorted regions.
    pub open spec fn wf(&self) -> bool {
        &&& self.root_pt.wf(2)
        &&& sorted(self.regions@)
    }

    /// The region consulted for `addr` covers it.
    pub open spec fn covers(&self, addr: u64) -> bool {
        region_for(self.regions@, addr) is Some
    }

    /// Adds a one-page region at `addr` unless the region consulted for it
    /// already covers it; answers whether one was added.
    pub fn map_page_if_not_exist(&mut self, addr: VirtAddr, flags: PteFlags) -> (r: Result<bool, Error>)
        requires
            sorted(old(self).regions@),
        ensures
            sorted(final(self).regions@),
            final(self).root_pt == old(self).root_pt,
            final(self).kernel_stack == old(self).kernel_stack,
            final(self).start_brk == old(self).start_brk,
            final(self).brk == old(self).brk,
            old(self).covers(addr@) ==> r == Ok::<bool, Error>(false) && final(self).regions@ == old(
                self,
            ).regions@,
            !old(self).covers(addr@) && offset_spec(addr@, 4096) is None ==> r == Err::<bool, Error>(
                Error::Overflow,
            ) && final(self).regions@ == old(self).regions@,
            !old(self).covers(addr@) && offset_spec(addr@, 4096) is Some ==> r == Ok::<bool, Error>(true)
                && exists|i: int|
                0 <= i <= old(self).regions@.len() && (forall|j: int|
                    0 <= j < i ==> #[trigger] old(self).regions@[j].start@ < addr@) && (forall|j: int|
                    i <= j < old(self).regions@.len() ==> #[trigger] old(self).regions@[j].start@
                        > addr@) && final(self).regions@ == old(self).regions@.insert(
                    i,
                    VmRegion {
                        start: addr,
                        end: VirtAddr(offset_spec(addr@, 4096)->0),
                        flags,
                    },
                ),
            r is Ok ==> final(self).covers(addr@),
    {
        match search_regions(&self.regions, addr.0) {
            Ok(i) => {
                proof {
                    assert(last_below(self.regions@, addr@, i as int));
                    let k = choose|k: int| last_below(self.regions@, addr@, k);
                    lemma_last_below_unique(self.regions@, addr@, i as int, k);
                }
                Ok(false)
            },
            Err(i) => {
                if i > 0 && addr.0 < self.regions[i - 1].end.0 {
                    proof {
                        assert(last_below(self.regions@, addr@, i - 1));
                        let k = choose|k: int| last_below(self.regions@, addr@, k);
                        lemma_last_below_unique(self.regions@, addr@, i - 1, k);
                    }
                    return Ok(false);
                }
                proof {
                    if exists|k: int| last_below(self.regions@, addr@, k) {
                        let k = choose|k: int| last_below(self.regions@, addr@, k);
                        if i > 0 {
                            assert(last_below(self.regions@, addr@, i - 1));
                            lemma_last_below_unique(self.regions@, addr@, i - 1, k);
                        } else {
                            assert(self.regions@[k].start@ > addr@);
                        }
                    }
                }
                let end = match addr.offset_by(4096) {
                    Some(e) => e,
                    None => return Err(Error::Overflow),
                };
                let region = VmRegion { start: addr, end, flags };
                proof {
                    lemma_insert_sorted(self.regions@, i as int, region);
                }
                self.regions.insert(i, region);
                proof {
                    let s = self.regions@;
                    assert(s[i as int] == region);
                    assert(last_below(s, addr@, i as int));
                    let k = choose|k: int| last_below(s, addr@, k);
                    lemma_last_below_unique(s, addr@, i as int, k);
                }
                Ok(true)
            },
        }
    }

    /// Inserts the region `[start, end)` at its place; no region may start at
    /// `start` already.
    pub fn insert_mapping(&mut self, start: VirtAddr, end: VirtAddr, flags: PteFlags) -> (r: Result<
        (),
        Error,
    >)
        requires
            sorted(old(self).regions@),
            forall|j: int|
                0 <= j < old(self).regions@.len() ==> #[trigger] old(self).regions@[j].start@
                    != start@,
        ensures
            r is Ok,
            sorted(final(self).regions@),
            final(self).root_pt == old(self).root_pt,
            final(self).kernel_stack == old(self).kernel_stack,
            final(self).start_brk == old(self).start_brk,
            final(self).brk == old(self).brk,
            exists|i: int|
                0 <= i <= old(self).regions@.len() && final(self).regions@ == old(
                    self,
                ).regions@.insert(i, VmRegion { start, end, flags }),
    {
        match search_regions(&self.regions, start.0) {
            Ok(i) => {
                assert(false);
                Ok(())
            },
            Err(i) => {
                let region = VmRegion { start, end, flags };
                proof {
                    lemma_insert_sorted(self.regions@, i as int, region);
                }
                self.regions.insert(i, region);
                Ok(())
            },
        }
    }

    /// Adds the one-page region at `va`; no region may start there already.
    pub fn map_page(&mut self, va: VirtAddr, flags: PteFlags) -> (r: Result<(), Error>)
        requires
            sorted(old(self).regions@),
            offset_spec(va@, 4096) is Some ==> forall|j: int|
                0 <= j < old(self).regions@.len() ==> #[trigger] old(self).regions@[j].start@
                    != va@,
        ensures
            sorted(final(self).regions@),
            final(self).root_pt == old(self).root_pt,
            offset_spec(va@, 4096) is None ==> r == Err::<(), Error>(Error::Overflow)
                && final(self).regions@ == old(self).regions@,
            offset_spec(va@, 4096) is Some ==> r is Ok && exists|i: int|
                0 <= i <= old(self).regions@.len() && final(self).regions@ == old(
                    self,
                ).regions@.insert(
                    i,
                    VmRegion { start: va, end: VirtAddr(offset_spec(va@, 4096)->0), flags },
                ),
    {
        let end = match va.offset_by(4096) {
            Some(e) => e,
            None => return Err(Error::Overflow),
        };
        self.insert_mapping(va, end, flags)
    }

    /// Whether some region starts at `va`.
    pub fn region_starts_at(&self, va: VirtAddr) -> (r: bool)
        ensures
            r == exists|j: int| 0 <= j < self.regions@.len() && #[trigger] self.regions@[j].start@ == va@,
    {
        let mut j: usize = 0;
        while j < self.regions.len()
            invariant
                j <= self.regions@.len(),
                forall|k: int| 0 <= k < j ==> #[trigger] self.regions@[k].start@ != va@,
            decreases self.regions@.len() - j,
        {
            if self.regions[j].start.0 == va.0 {
                assert(self.regions@[j as int].start@ == va@);
                return true;
            }
            j += 1;
        }
        false
    }

    /// Adds `flags` to the leaf that maps `va`.
    pub fn remap_page(&mut self, va: VirtAddr, flags: PteFlags)
        requires
            old(self).wf(),
            old(self).root_pt.walk(va@, 2).is_some(),
        ensures
            final(self).wf(),
            crate::page_table::remap_result(old(self).root_pt, final(self).root_pt, va@, flags, 2),
            final(self).regions == old(self).regions,
            final(self).kernel_stack == old(self).kernel_stack,
            final(self).start_brk == old(self).start_brk,
            final(self).brk == old(self).brk,
    {
        self.root_pt.remap_vm(va, flags);
    }

    /// Sets the program break the task starts with.
    pub fn set_initial_brk(&mut self, brk: VirtAddr)
        ensures
            final(self).start_brk == brk,
            final(self).brk == brk,
            final(self).root_pt == old(self).root_pt,
            final(self).regions == old(self).regions,
            final(self).kernel_stack == old(self).kernel_stack,
    {
        self.start_brk = brk;
        self.brk = brk;
    }

    /// Moves the program break. At or below the initial break nothing
    /// changes; a lower break is taken as it is; a higher one first gives
    /// every page between the old and new break, rounded up, a region: the
    /// regions added are single read-write user pages in that range, and
    /// every old region stays.
    #[verifier::rlimit(40)]
    pub fn brk(&mut self, new_brk: VirtAddr) -> (r: Result<VirtAddr, Error>)
        requires
            sorted(old(self).regions@),
            align_up_spec(old(self).brk@ as int, 4096) <= u64::MAX,
            align_up_spec(new_brk@ as int, 4096) <= u64::MAX,
        ensures
            sorted(final(self).regions@),
            final(self).root_pt == old(self).root_pt,
            final(self).kernel_stack == old(self).kernel_stack,
            final(self).start_brk == old(self).start_brk,
            old(self).start_brk@ >= new_brk@ ==> r == Ok::<VirtAddr, Error>(old(self).brk)
                && final(self).brk == old(self).brk && final(self).regions@ == old(self).regions@,
            old(self).start_brk@ < new_brk@ && new_brk@ <= old(self).brk@ ==> r == Ok::<
                VirtAddr,
                Error,
            >(new_brk) && final(self).brk == new_brk && final(self).regions@ == old(self).regions@,
            old(self).start_brk@ < new_brk@ && new_brk@ > old(self).brk@ ==> {
                &&& r == Ok::<VirtAddr, Error>(new_brk)
                &&& final(self).brk == new_brk
                &&& forall|p: u64|
                    align_up_spec(old(self).brk@ as int, 4096) <= p < align_up_spec(
                        new_brk@ as int,
                        4096,
                    ) && p % 4096 == 0 ==> #[trigger] final(self).covers(p)
                &&& forall|x: VmRegion| #[trigger] final(self).regions@.contains(x)
                    ==> old(self).regions@.contains(x) || brk_region(
                    x,
                    align_up_spec(old(self).brk@ as int, 4096),
                    align_up_spec(new_brk@ as int, 4096),
                )
                &&& forall|x: VmRegion| #[trigger] old(self).regions@.contains(x)
                    ==> final(self).regions@.contains(x)
            },
    {
        if self.start_brk.0 >= new_brk.0 {
            return Ok(self.brk);
        }
        if new_brk.0 < self.brk.0 {
            self.brk = new_brk;
            Ok(self.brk)
        } else if new_brk.0 > self.brk.0 {
            proof {
                lemma_page_pow2();
                crate::addr::lemma_align_up_facts(self.brk@, 4096);
                crate::addr::lemma_align_up_facts(new_brk@, 4096);
            }
            let mut addr = self.brk.align_up(4096);
            let new_mapped_end = new_brk.align_up(4096);
            let ghost a0 = addr@;
            while addr.0 < new_mapped_end.0
                invariant
                    sorted(self.regions@),
                    self.root_pt == old(self).root_pt,
                    self.kernel_stack == old(self).kernel_stack,
                    self.start_brk == old(self).start_brk,
                    self.brk == old(self).brk,
                    a0 <= addr@ <= new_mapped_end@,
                    addr@ % 4096 == 0,
                    new_mapped_end@ % 4096 == 0,
                    a0 == align_up_spec(old(self).brk@ as int, 4096),
                    new_mapped_end@ == align_up_spec(new_brk@ as int, 4096),
                    forall|p: u64| a0 <= p < addr@ && p % 4096 == 0 ==> #[trigger] self.covers(p),
                    forall|x: VmRegion| #[trigger] self.regions@.contains(x) ==> old(self).regions@.contains(x)
                        || brk_region(x, a0 as int, addr@ as int),
                    forall|x: VmRegion| #[trigger] old(self).regions@.contains(x) ==> self.regions@.contains(x),
                decreases new_mapped_end@ - addr@,
            {
                let ghost before = self.regions@;
                assert forall|p: u64| a0 <= p < addr@ && p % 4096 == 0 implies region_for(before, p) is Some by {
                    assert(self.covers(p));
                }
                let r = self.map_page_if_not_exist(addr, PTE_RW | PTE_U);
                assert(offset_spec(addr@, 4096) is Some) by {
                    assert(addr@ + 4096 <= new_mapped_end@);
                }
                proof {
                    assert forall|p: u64| a0 <= p < addr@ + 4096 && p % 4096 == 0 implies #[trigger] self.covers(p) by {
                        if p < addr@ {
                            assert(region_for(before, p) is Some);
                            if self.regions@ != before {
                                let i = choose|i: int|
                                    0 <= i <= before.len() && (forall|j: int|
                                        0 <= j < i ==> #[trigger] before[j].start@ < addr@) && (forall|j: int|
                                        i <= j < before.len() ==> #[trigger] before[j].start@ > addr@)
                                        && self.regions@ == before.insert(
                                        i,
                                        VmRegion {
                                            start: addr,
                                            end: VirtAddr(offset_spec(addr@, 4096)->0),
                                            flags: PTE_RW | PTE_U,
                                        },
                                    );
                                lemma_insert_above_keeps(
                                    before,
                                    i,
                                    VmRegion {
                                        start: addr,
                                        end: VirtAddr(offset_spec(addr@, 4096)->0),
                                        flags: PTE_RW | PTE_U,
                                    },
                                    p,
                                );
                            }
                        } else {
                            assert(p == addr@);
                        }
                    }
                    if self.regions@ != before {
                        let i = choose|i: int|
                            0 <= i <= before.len() && (forall|j: int|
                                0 <= j < i ==> #[trigger] before[j].start@ < addr@) && (forall|j: int|
                                i <= j < before.len() ==> #[trigger] before[j].start@ > addr@)
                                && self.regions@ == before.insert(
                                i,
                                VmRegion {
                                    start: addr,
                                    end: VirtAddr(offset_spec(addr@, 4096)->0),
                                    flags: PTE_RW | PTE_U,
                                },
                            );
                        let v = VmRegion {
                            start: addr,
                            end: VirtAddr(offset_spec(addr@, 4096)->0),
                            flags: PTE_RW | PTE_U,
                        };
                        assert forall|x: VmRegion| #[trigger] self.regions@.contains(x) implies old(self).regions@.contains(x)
                            || brk_region(x, a0 as int, addr@ + 4096) by {
                            lemma_insert_contains(before, i, v, x);
                        }
                        assert forall|x: VmRegion| #[trigger] old(self).regions@.contains(x) implies self.regions@.contains(x) by {
                            lemma_insert_contains(before, i, v, x);
                        }
                    }
                }
                match r {
                    Ok(_) => {},
                    Err(e) => return Err(e),
                }
                addr = match addr.offset_by(4096) {
                    Some(a) => a,
                    None => return Err(Error::Overflow),
                };
            }
            assert(addr@ == new_mapped_end@);
            assert(a0 == align_up_spec(old(self).brk@ as int, 4096));
            assert forall|p: u64|
                align_up_spec(old(self).brk@ as int, 4096) <= p < align_up_spec(new_brk@ as int, 4096)
                    && p % 4096 == 0 implies region_for(self.regions@, p) is Some by {
                assert(a0 <= p < addr@);
                assert(self.covers(p));
            }
            self.brk = new_brk;
            Ok(self.brk)
        } else {
            Ok(self.brk)
        }
    }

    /// The physical address `va` translates to.
    pub fn translate(&self, va: VirtAddr) -> (r: Option<PhysAddr>)
        requires
            self.root_pt.wf(2),
        ensures
            match r {
                Some(p) => self.root_pt.translate_spec(va@) == Some(p@),
                None => self.root_pt.translate_spec(va@).is_none(),
            },
    {
        self.root_pt.translate(va)
    }

    /// The direct-mapped kernel address of what `va` translates to.
    pub fn translate_to_kernel(&self, va: VirtAddr) -> (r: Result<VirtAddr, Error>)
        requires
            self.root_pt.wf(2),
        ensures
            match self.root_pt.translate_spec(va@) {
                Some(p) => if p + KERNEL_DIRECT_MAPPING_BASE <= u64::MAX {
                    r == Ok::<VirtAddr, Error>(VirtAddr((p + KERNEL_DIRECT_MAPPING_BASE) as u64))
                } else {
                    r == Err::<VirtAddr, Error>(Error::Overflow)
                },
                None => r == Err::<VirtAddr, Error>(Error::Unmapped),
            },
    {
        let pa = match self.translate(va) {
            Some(p) => p,
            None => return Err(Error::Unmapped),
        };
        if pa.0 > u64::MAX - KERNEL_DIRECT_MAPPING_BASE {
            return Err(Error::Overflow);
        }
        Ok(VirtAddr(crate::mappings::phys_to_virt(pa.0)))
    }

    /// Decides how to answer a page fault at `addr` for `access`.
    pub fn page_fault_action(&self, addr: VirtAddr, access: PteFlags) -> (r: Result<FaultAction, Error>)
        requires
            self.wf(),
        ensures
            ({
                let page = crate::addr::align_down_spec(addr@ as int, 4096) as u64;
                let region = match region_for(self.regions@, page) {
                    Some(k) => Some(self.regions@[k].flags),
                    None => None,
                };
                r == fault_decision(region, access, self.root_pt.translate_spec(page) is Some)
            }),
    {
        proof {
            lemma_page_pow2();
        }
        let page = addr.align_down(4096);
        let region = region_flags(&self.regions, page.0);
        let mapped = self.translate(page).is_some();
        decide_page_fault(region, access, mapped)
    }
}

/// The memory work a served page fault leaves to the caller.
#[derive(Clone, Copy, Debug, PartialEq, Eq, Structural)]
pub enum FaultEffect {
    /// Copy the page from frame `from` to frame `to`; `from` went back to
    /// the pool when `freed`.
    Copied { from: PhysAddr, to: PhysAddr, freed: bool },
    /// Zero the newly mapped frame.
    Zeroed { frame: PhysAddr },
}

/// The page a fault at `addr` is served for.
pub open spec fn fault_page(addr: VirtAddr) -> u64 {
    crate::addr::align_down_spec(addr@ as int, 4096) as u64
}

impl MemoryManager {
    /// The decision for a fault at `addr` for `access`.
    pub open spec fn fault_decision_at(&self, addr: VirtAddr, access: PteFlags) -> Result<FaultAction, Error> {
        let page = fault_page(addr);
        let region = match region_for(self.regions@, page) {
            Some(k) => Some(self.regions@[k].flags),
            None => None,
        };
        fault_decision(region, access, self.root_pt.translate_spec(page) is Some)
    }

    /// Serves a page fault at `addr` for `access` as [`fault_decision`]
    /// decides: a shared page gets a private writable copy (see
    /// [`PageTable::copy_on_write`]), an unmapped page of a region a fresh
    /// frame from `pool`, mapped with the region's flags and counted in
    /// `meta`. Answers the copying or zeroing the caller has to do; a refused
    /// fault changes nothing. Either way served, the page is then mapped.
    pub fn handle_page_fault(
        &mut self,
        addr: VirtAddr,
        access: PteFlags,
        pool: &mut FramePool,
        meta: &mut PageMetadataTable,
    ) -> (r: Result<FaultEffect, Error>)
        requires
            old(self).wf(),
            old(pool).wf(),
            old(meta).wf(),
            old(self).fault_decision_at(addr, access) == Ok::<FaultAction, Error>(FaultAction::CopyOnWrite)
                ==> {
                &&& old(pool).frames@.len() >= 1
                &&& old(self).root_pt.walk(fault_page(addr), 2) matches Some((_, l)) && l == 0
                &&& old(meta)@.contains_key(pte_pa((old(self).root_pt.walk(fault_page(addr), 2)->0).0))
            },
            old(self).fault_decision_at(addr, access) matches Ok(FaultAction::MapFresh(f)) ==> {
                &&& old(pool).frames@.len() >= 1 + old(self).root_pt.frames_needed(fault_page(addr), 0, 2)
                &&& map_pre(old(self).root_pt, fault_page(addr), old(pool).frames@.last()@, f, 0)
            },
        ensures
            final(self).wf(),
            final(pool).wf(),
            final(meta).wf(),
            final(self).regions@ == old(self).regions@,
            final(self).kernel_stack == old(self).kernel_stack,
            final(self).start_brk == old(self).start_brk,
            final(self).brk == old(self).brk,
            r is Ok ==> final(self).root_pt.translate_spec(fault_page(addr)) is Some,
            match old(self).fault_decision_at(addr, access) {
                Err(e) => {
                    &&& r == Err::<FaultEffect, Error>(e)
                    &&& final(self).root_pt == old(self).root_pt
                    &&& final(pool).frames@ == old(pool).frames@
                    &&& final(meta)@ == old(meta)@
                },
                Ok(FaultAction::CopyOnWrite) => {
                    let old_pa = pte_pa((old(self).root_pt.walk(fault_page(addr), 2)->0).0);
                    let new_pa = old(pool).frames@.last()@;
                    let m1 = add_spec(old(meta)@, new_pa);
                    let freed = m1[old_pa] == 1;
                    &&& r == Ok::<FaultEffect, Error>(
                        FaultEffect::Copied { from: PhysAddr(old_pa), to: PhysAddr(new_pa), freed },
                    )
                    &&& cow_result(old(self).root_pt, final(self).root_pt, fault_page(addr), new_pa)
                    &&& final(meta)@ == remove_spec(m1, old_pa)
                    &&& final(pool).frames@ == if freed {
                        old(pool).frames@.drop_last().push(PhysAddr(old_pa))
                    } else {
                        old(pool).frames@.drop_last()
                    }
                },
                Ok(FaultAction::MapFresh(f)) => {
                    let pa = old(pool).frames@.last()@;
                    &&& r == Ok::<FaultEffect, Error>(FaultEffect::Zeroed { frame: PhysAddr(pa) })
                    &&& map_result(old(self).root_pt, final(self).root_pt, fault_page(addr), pa, f, 0, 2)
                    &&& final(meta)@ == add_spec(old(meta)@, pa)
                    &&& final(pool).frames@ == old(pool).frames@.take(
                        old(pool).frames@.len() - 1 - old(self).root_pt.frames_needed(fault_page(addr), 0, 2),
                    )
                },
            },
    {
        proof {
            lemma_page_pow2();
        }
        let decision = self.page_fault_action(addr, access);
        let page = addr.align_down(4096);
        match decision {
            Err(e) => Err(e),
            Ok(FaultAction::CopyOnWrite) => {
                let ghost pre = self.root_pt;
                let (from, to, freed) = self.root_pt.copy_on_write(page, pool, meta);
                proof {
                    lemma_cow_translation(pre, self.root_pt, page@, to@, page@);
                    crate::page_table::lemma_same_path_refl(page@, 2, 0);
                }
                Ok(FaultEffect::Copied { from, to, freed })
            },
            Ok(FaultAction::MapFresh(flags)) => {
                let ghost pre = self.root_pt;
                let ghost frames = pool.frames@;
                let pa = pool.take();
                proof {
                    assert(pool.frames@.len() >= pre.frames_needed(page@, 0, 2));
                }
                self.root_pt.map_vm(page, pa, flags, pool);
                proof {
                    pre.lemma_unmapped_target(page@, 2);
                    crate::page_table::lemma_translate_after_map(pre, self.root_pt, page@, pa@, flags, 0, page@);
                    assert(pool.frames@ =~= frames.take(frames.len() - 1 - pre.frames_needed(page@, 0, 2)));
                }
                let _ = page_meta::add(meta, pa);
                Ok(FaultEffect::Zeroed { frame: pa })
            },
        }
    }

    /// Takes a frame, maps the page at `va` to it, records the one-page
    /// region and counts the frame as mapped. The region is recorded after
    /// the mapping: an end past the address space fails only then.
    pub fn map_allocate_page(
        &mut self,
        va: VirtAddr,
        flags: PteFlags,
        pool: &mut FramePool,
        meta: &mut PageMetadataTable,
    ) -> (r: Result<PhysAddr, Error>)
        requires
            old(self).wf(),
            old(pool).wf(),
            old(meta).wf(),
            old(pool).frames@.len() >= 1 + old(self).root_pt.frames_needed(va@, 0, 2),
            map_pre(old(self).root_pt, va@, old(pool).frames@.last()@, flags, 0),
            offset_spec(va@, 4096) is Some ==> forall|j: int|
                0 <= j < old(self).regions@.len() ==> #[trigger] old(self).regions@[j].start@
                    != va@,
        ensures
            final(self).wf(),
            final(pool).wf(),
            final(meta).wf(),
            map_result(
                old(self).root_pt,
                final(self).root_pt,
                va@,
                old(pool).frames@.last()@,
                flags,
                0,
                2,
            ),
            final(self).kernel_stack == old(self).kernel_stack,
            final(self).start_brk == old(self).start_brk,
            final(self).brk == old(self).brk,
            offset_spec(va@, 4096) is None ==> r == Err::<PhysAddr, Error>(Error::Overflow)
                && final(self).regions@ == old(self).regions@ && final(meta)@ == old(meta)@,
            offset_spec(va@, 4096) is Some ==> {
                &&& r == Ok::<PhysAddr, Error>(old(pool).frames@.last())
                &&& final(meta)@ == add_spec(old(meta)@, old(pool).frames@.last()@)
                &&& exists|i: int|
                    0 <= i <= old(self).regions@.len() && final(self).regions@ == old(
                        self,
                    ).regions@.insert(
                        i,
                        VmRegion { start: va, end: VirtAddr(offset_spec(va@, 4096)->0), flags },
                    )
            },
    {
        let pa = pool.take();
        self.root_pt.map_vm(va, pa, flags, pool);
        let end = match va.offset_by(4096) {
            Some(e) => e,
            None => return Err(Error::Overflow),
        };
        let _ = self.insert_mapping(va, end, flags);
        let _ = page_meta::add(meta, pa);
        Ok(pa)
    }

    /// Why mapping a fresh page at `va` with `flags` fails with `e` when the
    /// pool holds `frames` frames: see [`MemoryManager::map_fresh_page`].
    pub open spec fn fresh_page_failure(&self, frames: nat, va: u64, flags: PteFlags, e: Error) -> bool {
        if self.fresh_page_refused(va, flags) {
            e == Error::InvalidArgs
        } else if frames < 1 + self.root_pt.frames_needed(va, 0, 2) {
            e == Error::Oom
        } else {
            offset_spec(va, 4096) is None && e == Error::Overflow
        }
    }

    /// Maps the user stack: the `USER_STACK_PAGES` pages above
    /// `USER_STACK_BASE`, each to a fresh read-write user frame, lowest
    /// first. Answers the initial stack pointer, `USER_STACK_TOP_GAP` bytes
    /// below the stack's top. The first page that cannot be mapped stops it
    /// with the error of [`MemoryManager::map_fresh_page`], the pages below
    /// it being mapped.
    pub fn create_user_stack(&mut self, pool: &mut FramePool, meta: &mut PageMetadataTable) -> (r: Result<
        VirtAddr,
        Error,
    >)
        requires
            old(self).wf(),
            old(pool).wf(),
            old(meta).wf(),
        ensures
            final(self).wf(),
            final(pool).wf(),
            final(meta).wf(),
            final(self).kernel_stack == old(self).kernel_stack,
            final(self).start_brk == old(self).start_brk,
            final(self).brk == old(self).brk,
            r is Ok ==> {
                &&& r->Ok_0@ == USER_STACK_BASE + USER_STACK_PAGES * 4096 + 4096 - USER_STACK_TOP_GAP
                &&& forall|k: int|
                    1 <= k <= USER_STACK_PAGES ==> #[trigger] final(self).root_pt.translate_spec(
                        (USER_STACK_BASE + k * 4096) as u64,
                    ) is Some
            },
            r is Err ==> exists|k: int|
                1 <= k <= USER_STACK_PAGES && (forall|j: int|
                    1 <= j < k ==> #[trigger] final(self).root_pt.translate_spec(
                        (USER_STACK_BASE + j * 4096) as u64,
                    ) is Some) && final(self).fresh_page_failure(
                    final(pool).frames@.len(),
                    #[trigger] user_stack_page(k),
                    PTE_RW | PTE_U,
                    r->Err_0,
                ),
            forall|v: u64| #[trigger] old(self).root_pt.translate_spec(v) is Some
                ==> final(self).root_pt.translate_spec(v) == old(self).root_pt.translate_spec(v),
    {
        let mut va: u64 = USER_STACK_BASE;
        let mut k: u64 = 0;
        while k < USER_STACK_PAGES
            invariant
                k <= USER_STACK_PAGES,
                va == USER_STACK_BASE + k * 4096,
                self.wf(),
                pool.wf(),
                meta.wf(),
                self.kernel_stack == old(self).kernel_stack,
                self.start_brk == old(self).start_brk,
                self.brk == old(self).brk,
                forall|j: int|
                    1 <= j <= k ==> #[trigger] self.root_pt.translate_spec((USER_STACK_BASE + j * 4096) as u64)
                        is Some,
                forall|v: u64| #[trigger] old(self).root_pt.translate_spec(v) is Some
                    ==> self.root_pt.translate_spec(v) == old(self).root_pt.translate_spec(v),
            decreases USER_STACK_PAGES - k,
        {
            let ghost pre = self.root_pt;
            va = va + 4096;
            k += 1;
            match self.map_fresh_page(VirtAddr(va), PTE_RW | PTE_U, pool, meta) {
                Ok(_) => {},
                Err(e) => {
                    proof {
                        assert(offset_spec(va, 4096) is Some);
                        assert(va == (USER_STACK_BASE + k * 4096) as u64);
                        assert(va == user_stack_page(k as int));
                        assert(self.fresh_page_failure(pool.frames@.len(), user_stack_page(k as int), PTE_RW | PTE_U, e));
                    }
                    return Err(e);
                },
            }
            proof {
                assert forall|j: int| 1 <= j <= k implies #[trigger] self.root_pt.translate_spec(
                    (USER_STACK_BASE + j * 4096) as u64,
                ) is Some by {
                    if j < k {
                        assert(pre.translate_spec((USER_STACK_BASE + j * 4096) as u64) is Some);
                    }
                }
            }
        }
        Ok(VirtAddr(va + 4096 - USER_STACK_TOP_GAP))
    }

    /// `va` cannot take a fresh 4 KiB page with `flags`: it is not page
    /// aligned, `flags` give no permission, it is mapped already, the tree
    /// holds a larger leaf or a table where its leaf would go, the slot of its
    /// leaf is not empty, or a region starts there.
    pub open spec fn fresh_page_refused(&self, va: u64, flags: PteFlags) -> bool {
        ||| va % 4096 != 0
        ||| flags & 14 == 0
        ||| self.root_pt.translate_spec(va) is Some
        ||| !self.root_pt.can_map(va, 0, 2, true)
        ||| self.root_pt.target_entry(va, 0, 2) != 0
        ||| exists|j: int| 0 <= j < self.regions@.len() && #[trigger] self.regions@[j].start@ == va
    }

    /// Maps a fresh frame at the page `va` that nothing maps yet, as
    /// [`MemoryManager::map_allocate_page`] does, after checking that it can:
    /// a page that [`MemoryManager::fresh_page_refused`] is refused, and a
    /// pool without the frame and the new tables it needs is out of memory,
    /// and a page at the very end of the address space overflows; each way
    /// nothing changes. A mapped page translates to its frame, and every
    /// translation that existed stays.
    pub fn map_fresh_page(
        &mut self,
        va: VirtAddr,
        flags: PteFlags,
        pool: &mut FramePool,
        meta: &mut PageMetadataTable,
    ) -> (r: Result<PhysAddr, Error>)
        requires
            old(self).wf(),
            old(pool).wf(),
            old(meta).wf(),
        ensures
            final(self).wf(),
            final(pool).wf(),
            final(meta).wf(),
            final(self).kernel_stack == old(self).kernel_stack,
            final(self).start_brk == old(self).start_brk,
            final(self).brk == old(self).brk,
            old(self).fresh_page_refused(va@, flags) ==> r == Err::<PhysAddr, Error>(Error::InvalidArgs)
                && *final(self) == *old(self) && *final(pool) == *old(pool) && *final(meta) == *old(meta),
            !old(self).fresh_page_refused(va@, flags) && old(pool).frames@.len() < 1
                + old(self).root_pt.frames_needed(va@, 0, 2) ==> r == Err::<PhysAddr, Error>(Error::Oom)
                && *final(self) == *old(self) && *final(pool) == *old(pool) && *final(meta) == *old(meta),
            !old(self).fresh_page_refused(va@, flags) && old(pool).frames@.len() >= 1
                + old(self).root_pt.frames_needed(va@, 0, 2) && offset_spec(va@, 4096) is None ==> r
                == Err::<PhysAddr, Error>(Error::Overflow) && *final(self) == *old(self) && *final(pool)
                == *old(pool) && *final(meta) == *old(meta),
            !old(self).fresh_page_refused(va@, flags) && old(pool).frames@.len() >= 1
                + old(self).root_pt.frames_needed(va@, 0, 2) && offset_spec(va@, 4096) is Some ==> {
                &&& map_result(old(self).root_pt, final(self).root_pt, va@, old(pool).frames@.last()@, flags, 0, 2)
                &&& r == Ok::<PhysAddr, Error>(old(pool).frames@.last())
            },
            r is Ok ==> final(self).root_pt.translate_spec(va@) == Some(r->Ok_0@),
            r is Ok ==> final(self).root_pt.walk(va@, 2) == Some((leaf_update(0, r->Ok_0@, flags), 0nat)),
            forall|v: u64| #[trigger] old(self).root_pt.translate_spec(v) is Some
                ==> final(self).root_pt.translate_spec(v) == old(self).root_pt.translate_spec(v),
            forall|v: u64| #[trigger] old(self).root_pt.walk(v, 2) is Some
                ==> final(self).root_pt.walk(v, 2) == old(self).root_pt.walk(v, 2),
    {
        let ghost pre = self.root_pt;
        if va.0 % 4096 != 0 || flags & 14 == 0 || self.translate(va).is_some()
            || !self.root_pt.can_map_exec(va, 0, 2) || self.root_pt.target_entry_exec(va, 0, 2) != 0
            || self.region_starts_at(va) {
            return Err(Error::InvalidArgs);
        }
        let needed = self.root_pt.frames_needed_exec(va, 0, 2);
        if pool.len() < 1 + needed as usize {
            return Err(Error::Oom);
        }
        if va.0 > u64::MAX - 4096 {
            return Err(Error::Overflow);
        }
        proof {
            let pa = pool.frames@.last()@;
            assert(pool.frames@.contains(pool.frames@.last()));
            assert(pa % 4096 == 0 && pa_fits(pa));
            crate::page_table::lemma_leaf_update(pre.target_entry(va@, 0, 2), pa, flags);
            assert((va@ as nat) % crate::arch::level_bytes(0) == 0);
            assert((pa as nat) % crate::arch::level_bytes(0) == 0);
        }
        let ghost pa0 = pool.frames@.last()@;
        let r = self.map_allocate_page(va, flags, pool, meta);
        proof {
            crate::page_table::lemma_translate_after_map(pre, self.root_pt, va@, pa0, flags, 0, va@);
            assert forall|v: u64| #[trigger] pre.translate_spec(v) is Some implies self.root_pt.translate_spec(v)
                == pre.translate_spec(v) by {
                crate::page_table::lemma_map_keeps_translations(pre, self.root_pt, va@, pa0, flags, v);
            }
            assert forall|v: u64| #[trigger] pre.walk(v, 2) is Some implies self.root_pt.walk(v, 2)
                == pre.walk(v, 2) by {
                crate::page_table::lemma_map_keeps_walks(pre, self.root_pt, va@, pa0, flags, v);
            }
            crate::page_table::lemma_same_path_refl(va@, 2, 0);
            assert(self.root_pt.walk(va@, 2) == Some((leaf_update(0, pa0, flags), 0nat)));
        }
        r
    }

    /// Takes a guard frame and the frames of a kernel stack of
    /// `KERNEL_STACK_PAGES` pages, which the direct map already covers, and
    /// records the stack; answers the physical address of its top. The
    /// stack frames are taken as if they were contiguous after the first.
    pub fn create_kernel_stack(&mut self, pool: &mut FramePool) -> (r: Result<PhysAddr, Error>)
        requires
            old(pool).wf(),
            old(pool).frames@.len() >= 1 + KERNEL_STACK_PAGES,
            old(pool).frames@[old(pool).frames@.len() - 2]@ + KERNEL_DIRECT_MAPPING_BASE
                + KERNEL_STACK_PAGES * 4096 <= u64::MAX,
        ensures
            final(pool).wf(),
            final(pool).frames@ == old(pool).frames@.take(
                old(pool).frames@.len() - 1 - KERNEL_STACK_PAGES,
            ),
            final(self).root_pt == old(self).root_pt,
            final(self).regions == old(self).regions,
            final(self).start_brk == old(self).start_brk,
            final(self).brk == old(self).brk,
            ({
                let n = old(pool).frames@.len();
                let start = old(pool).frames@[n - 2]@;
                &&& final(self).kernel_stack.guard == old(pool).frames@[n - 1]
                &&& final(self).kernel_stack.bottom@ == start + KERNEL_DIRECT_MAPPING_BASE
                &&& final(self).kernel_stack.top@ == start + KERNEL_DIRECT_MAPPING_BASE
                    + KERNEL_STACK_PAGES * 4096
                &&& r == Ok::<PhysAddr, Error>(PhysAddr((start + KERNEL_STACK_PAGES * 4096) as u64))
            }),
    {
        let ghost frames = pool.frames@;
        let guard = pool.take();
        let kernel_stack_start = pool.take();
        let mut k: u64 = 1;
        while k < KERNEL_STACK_PAGES
            invariant
                1 <= k <= KERNEL_STACK_PAGES,
                pool.wf(),
                frames.len() >= 1 + KERNEL_STACK_PAGES,
                pool.frames@ == frames.take(frames.len() - 1 - k),
            decreases KERNEL_STACK_PAGES - k,
        {
            let _ = pool.take();
            assert(pool.frames@ =~= frames.take(frames.len() - 1 - (k + 1)));
            k += 1;
        }
        let stack_size: u64 = KERNEL_STACK_PAGES * PAGE_SIZE;
        let stack_start_va = VirtAddr(crate::mappings::phys_to_virt(kernel_stack_start.0));
        let stack_end_va = match stack_start_va.offset_by(stack_size as i64) {
            Some(v) => v,
            None => return Err(Error::Overflow),
        };
        let kernel_stack_top = PhysAddr(kernel_stack_start.0 + stack_size);
        self.kernel_stack = KernelStackRegion {
            guard,
            bottom: stack_start_va,
            top: stack_end_va,
        };
        Ok(kernel_stack_top)
    }
}

impl MemoryManager {
    /// Forks the address space: the child gets a copy of the page tables
    /// (see [`PageTable::fork`]: both share the user pages, now read-only),
    /// of the regions and of the program break, and a kernel stack of its
    /// own. Answers the child and the frame of its root table.
    pub fn fork(&mut self, pool: &mut FramePool, meta: &mut PageMetadataTable) -> (r: Result<
        (MemoryManager, PhysAddr),
        Error,
    >)
        requires
            old(self).wf(),
            old(self).root_pt.leaf_ok(2),
            old(pool).wf(),
            old(meta).wf(),
            old(pool).frames@.len() >= old(self).root_pt.table_count() + 1 + KERNEL_STACK_PAGES,
            old(pool).frames@[old(pool).frames@.len() - old(self).root_pt.table_count() - 2]@
                + KERNEL_DIRECT_MAPPING_BASE + KERNEL_STACK_PAGES * 4096 <= u64::MAX,
        ensures
            r is Ok,
            ({
                let child = r->Ok_0.0;
                let n = old(pool).frames@.len() - old(self).root_pt.table_count();
                let start = old(pool).frames@[n - 2]@;
                &&& r->Ok_0.1 == old(pool).frames@.last()
                &&& final(self).wf()
                &&& child.wf()
                &&& forall|va: u64| #[trigger] final(self).root_pt.walk(va, 2) == fork_walk(old(self).root_pt.walk(va, 2))
                &&& forall|va: u64| #[trigger] child.root_pt.walk(va, 2) == fork_walk(old(self).root_pt.walk(va, 2))
                &&& final(self).regions == old(self).regions
                &&& final(self).kernel_stack == old(self).kernel_stack
                &&& final(self).start_brk == old(self).start_brk
                &&& final(self).brk == old(self).brk
                &&& child.regions@ == old(self).regions@
                &&& child.start_brk == old(self).start_brk
                &&& child.brk == old(self).brk
                &&& child.kernel_stack.guard == old(pool).frames@[n - 1]
                &&& child.kernel_stack.bottom@ == start + KERNEL_DIRECT_MAPPING_BASE
                &&& child.kernel_stack.top@ == start + KERNEL_DIRECT_MAPPING_BASE + KERNEL_STACK_PAGES * 4096
                &&& final(meta).wf()
                &&& final(meta)@ == share_all(old(meta)@, old(self).root_pt.user_leaves())
                &&& final(pool).wf()
                &&& final(pool).frames@ == old(pool).frames@.take(n - 1 - KERNEL_STACK_PAGES)
            }),
    {
        let ghost frames = pool.frames@;
        let ghost count = self.root_pt.table_count();
        let (child_pt, child_root) = self.root_pt.fork(pool, meta);
        let mut regions: Vec<VmRegion> = Vec::new();
        let mut i: usize = 0;
        while i < self.regions.len()
            invariant
                i <= self.regions@.len(),
                regions@ == self.regions@.subrange(0, i as int),
            decreases self.regions@.len() - i,
        {
            regions.push(self.regions[i]);
            i += 1;
            proof {
                assert(regions@ =~= self.regions@.subrange(0, i as int));
            }
        }
        proof {
            assert(regions@ =~= self.regions@);
            assert(pool.frames@.len() == frames.len() - count);
            assert(pool.frames@[pool.frames@.len() - 2] == frames[frames.len() - count - 2]);
            assert(pool.frames@[pool.frames@.len() - 1] == frames[frames.len() - count - 1]);
        }
        let mut child = MemoryManager {
            root_pt: child_pt,
            regions,
            kernel_stack: KernelStackRegion::empty(),
            start_brk: self.start_brk,
            brk: self.brk,
        };
        let _ = child.create_kernel_stack(pool);
        proof {
            assert(pool.frames@ =~= frames.take(frames.len() - count - 1 - KERNEL_STACK_PAGES));
        }
        Ok((child, child_root))
    }
}

/// A frame the pool can take back: page aligned and addressable.
pub open spec fn valid_frame(p: PhysAddr) -> bool {
    p@ % 4096 == 0 && pa_fits(p@)
}

/// The frames of a kernel stack, in the order they are freed: the guard,
/// then the stack's pages from the bottom up; none for an empty stack.
pub open spec fn stack_frames(ks: KernelStackRegion) -> Seq<PhysAddr> {
    if ks.guard@ == 0 {
        Seq::empty()
    } else {
        seq![ks.guard] + Seq::new(
            ((ks.top@ - ks.bottom@) / 4096) as nat,
            |k: int| PhysAddr((ks.bottom@ - KERNEL_DIRECT_MAPPING_BASE + k * 4096) as u64),
        )
    }
}

/// A kernel stack whose frames can all go back to the pool.
pub open spec fn stack_freeable(ks: KernelStackRegion) -> bool {
    ks.guard@ != 0 ==> {
        &&& valid_frame(ks.guard)
        &&& KERNEL_DIRECT_MAPPING_BASE <= ks.bottom@ <= ks.top@
        &&& (ks.bottom@ - KERNEL_DIRECT_MAPPING_BASE) % 4096 == 0
        &&& (ks.top@ - ks.bottom@) % 4096 == 0
        &&& pa_fits((ks.top@ - KERNEL_DIRECT_MAPPING_BASE) as u64)
    }
}

/// The frames behind the user regions among `rs[..i]` that `pt` maps, in
/// order.
pub open spec fn mapped_frames(pt: PageTable, rs: Seq<VmRegion>, i: int) -> Seq<u64>
    decreases i,
{
    if i <= 0 || i > rs.len() {
        Seq::empty()
    } else {
        let prev = mapped_frames(pt, rs, i - 1);
        let st = rs[i - 1].start@;
        if st <= KERNEL_DIRECT_MAPPING_BASE && pt.translate_spec(st) is Some {
            prev.push(pt.translate_spec(st)->0)
        } else {
            prev
        }
    }
}

/// Dropping one reference to each of `fs[..i]` in turn: the counts left,
/// the frames whose last reference went (those the pool can take), and
/// whether every frame was counted when its turn came.
pub open spec fn release_upto(m: Map<u64, u16>, fs: Seq<u64>, i: int) -> (Map<u64, u16>, Seq<PhysAddr>, bool)
    decreases i,
{
    if i <= 0 || i > fs.len() {
        (m, Seq::empty(), true)
    } else {
        let prev = release_upto(m, fs, i - 1);
        let f = fs[i - 1];
        let freed = prev.0.contains_key(f) && prev.0[f] == 1 && valid_frame(PhysAddr(f));
        (
            remove_spec(prev.0, f),
            if freed { prev.1.push(PhysAddr(f)) } else { prev.1 },
            prev.2 && prev.0.contains_key(f),
        )
    }
}

impl MemoryManager {
    /// Gives the kernel stack's frames back to `pool`: the guard, then the
    /// stack's pages from the bottom up; an empty stack gives nothing.
    pub fn free_kernel_stack(&self, pool: &mut FramePool)
        requires
            old(pool).wf(),
            stack_freeable(self.kernel_stack),
        ensures
            final(pool).wf(),
            final(pool).frames@ == old(pool).frames@ + stack_frames(self.kernel_stack),
    {
        let stack = self.kernel_stack;
        if stack.guard.0 == 0 {
            assert(pool.frames@ + stack_frames(stack) =~= pool.frames@);
            return;
        }
        let ghost pool0 = pool.frames@;
        let ghost all = stack_frames(stack);
        let _ = pool.add(stack.guard);
        let mut va = stack.bottom;
        let ghost n = ((stack.top@ - stack.bottom@) / 4096) as nat;
        let mut k: u64 = 0;
        proof {
            assert(pool.frames@ =~= pool0 + all.subrange(0, 1));
        }
        while va.0 < stack.top.0
            invariant
                stack == self.kernel_stack,
                stack_freeable(stack),
                stack.guard@ != 0,
                all == stack_frames(stack),
                n == (stack.top@ - stack.bottom@) / 4096,
                va@ == stack.bottom@ + k * 4096,
                k <= n,
                va@ <= stack.top@,
                pool.wf(),
                pool.frames@ == pool0 + all.subrange(0, 1 + k as int),
            decreases stack.top@ - va@,
        {
            assert(k < n) by {
                assert((stack.top@ - stack.bottom@) % 4096 == 0);
            }
            let pa = PhysAddr(crate::mappings::virt_to_phys(va.0));
            assert(pa@ % 4096 == 0 && pa_fits(pa@)) by {
                assert(pa@ == stack.bottom@ - KERNEL_DIRECT_MAPPING_BASE + k * 4096);
            }
            let _ = pool.add(pa);
            proof {
                assert(all[1 + k as int] == pa);
                assert(pool.frames@ =~= pool0 + all.subrange(0, 1 + k + 1));
            }
            va = VirtAddr(va.0 + 4096);
            k = k + 1;
        }
        proof {
            assert(k == n);
            assert(all.subrange(0, 1 + k as int) =~= all);
        }
    }

    /// Frees the address space: each user region's page loses a reference
    /// and its frame goes back to `pool` when none is left, then the kernel
    /// stack and the page tables (the root's frame is `root_frame`) are
    /// freed. Every mapped user page must still be counted when it is
    /// released.
    pub fn free(self, root_frame: PhysAddr, pool: &mut FramePool, meta: &mut PageMetadataTable)
        requires
            self.wf(),
            old(pool).wf(),
            old(meta).wf(),
            stack_freeable(self.kernel_stack),
            valid_frame(root_frame),
            release_upto(
                old(meta)@,
                mapped_frames(self.root_pt, self.regions@, self.regions@.len() as int),
                mapped_frames(self.root_pt, self.regions@, self.regions@.len() as int).len() as int,
            ).2,
        ensures
            final(pool).wf(),
            final(meta).wf(),
            ({
                let fs = mapped_frames(self.root_pt, self.regions@, self.regions@.len() as int);
                let rel = release_upto(old(meta)@, fs, fs.len() as int);
                &&& final(meta)@ == rel.0
                &&& final(pool).frames@ == old(pool).frames@ + rel.1 + stack_frames(self.kernel_stack)
                    + self.root_pt.table_frames(root_frame@)
            }),
    {
        let ghost pool0 = pool.frames@;
        let ghost meta0 = meta@;
        let ghost fs_all = mapped_frames(self.root_pt, self.regions@, self.regions@.len() as int);
        proof {
            lemma_mapped_frames_prefix(self.root_pt, self.regions@, self.regions@.len() as int);
            lemma_release_prefix(meta0, fs_all, fs_all.len() as int);
        }
        let mut i: usize = 0;
        while i < self.regions.len()
            invariant
                self.wf(),
                i <= self.regions@.len(),
                fs_all == mapped_frames(self.root_pt, self.regions@, self.regions@.len() as int),
                mapped_frames(self.root_pt, self.regions@, i as int).len() <= fs_all.len(),
                forall|j: int| 0 <= j <= self.regions@.len() ==> #[trigger] mapped_frames(self.root_pt, self.regions@, j)
                    == fs_all.subrange(0, mapped_frames(self.root_pt, self.regions@, j).len() as int),
                forall|j: int| 0 <= j <= self.regions@.len() ==> #[trigger] mapped_frames(self.root_pt, self.regions@, j).len() <= fs_all.len(),
                release_upto(meta0, fs_all, fs_all.len() as int).2,
                forall|j: int| 0 <= j <= fs_all.len() ==> #[trigger] release_upto(meta0, fs_all, j).2 || !release_upto(meta0, fs_all, fs_all.len() as int).2,
                pool.wf(),
                meta.wf(),
                ({
                    let rel = release_upto(meta0, fs_all, mapped_frames(self.root_pt, self.regions@, i as int).len() as int);
                    &&& meta@ == rel.0
                    &&& pool.frames@ == pool0 + rel.1
                }),
            decreases self.regions@.len() - i,
        {
            let ghost before = mapped_frames(self.root_pt, self.regions@, i as int);
            let start = self.regions[i].start;
            if start.0 <= KERNEL_DIRECT_MAPPING_BASE {
                match self.translate(start) {
                    Some(pa) => {
                        let ghost c = before.len() as int;
                        proof {
                            assert(mapped_frames(self.root_pt, self.regions@, i + 1) == before.push(pa@));
                            assert(fs_all[c] == pa@);
                            assert(release_upto(meta0, fs_all, c + 1).2);
                        }
                        let left = match page_meta::remove(meta, pa) {
                            Ok(l) => l,
                            Err(_) => 1,
                        };
                        if left == 0 {
                            let _ = pool.add(pa);
                        }
                        proof {
                            let prev = release_upto(meta0, fs_all, c);
                            assert(prev.0.contains_key(pa@));
                            assert(pool.frames@ =~= pool0 + release_upto(meta0, fs_all, c + 1).1);
                        }
                    },
                    None => {},
                }
            }
            i += 1;
        }
        proof {
            assert(mapped_frames(self.root_pt, self.regions@, self.regions@.len() as int) == fs_all);
        }
        self.free_kernel_stack(pool);
        proof {
            assert(pool.frames@ == pool0 + release_upto(meta0, fs_all, fs_all.len() as int).1 + stack_frames(self.kernel_stack));
        }
        self.root_pt.traverse_free(root_frame, pool);
    }
}

/// Each prefix of the region frames is a prefix of all of them.
proof fn lemma_mapped_frames_prefix(pt: PageTable, rs: Seq<VmRegion>, i: int)
    requires
        0 <= i <= rs.len(),
    ensures
        forall|j: int| 0 <= j <= i ==> #[trigger] mapped_frames(pt, rs, j) == mapped_frames(pt, rs, i).subrange(
            0,
            mapped_frames(pt, rs, j).len() as int,
        ),
        forall|j: int| 0 <= j <= i ==> #[trigger] mapped_frames(pt, rs, j).len() <= mapped_frames(pt, rs, i).len(),
    decreases i,
{
    if i > 0 {
        lemma_mapped_frames_prefix(pt, rs, i - 1);
        let prev = mapped_frames(pt, rs, i - 1);
        let cur = mapped_frames(pt, rs, i);
        assert forall|j: int| 0 <= j <= i implies #[trigger] mapped_frames(pt, rs, j) == cur.subrange(
            0,
            mapped_frames(pt, rs, j).len() as int,
        ) by {
            if j < i {
                assert(prev.subrange(0, mapped_frames(pt, rs, j).len() as int) =~= cur.subrange(
                    0,
                    mapped_frames(pt, rs, j).len() as int,
                ));
            } else {
                assert(cur =~= cur.subrange(0, cur.len() as int));
            }
        }
    }
}

/// A release that succeeds succeeds on every prefix.
proof fn lemma_release_prefix(m: Map<u64, u16>, fs: Seq<u64>, i: int)
    requires
        0 <= i <= fs.len(),
    ensures
        forall|j: int| 0 <= j <= i ==> #[trigger] release_upto(m, fs, j).2 || !release_upto(m, fs, i).2,
    decreases i,
{
    if i > 0 {
        lemma_release_prefix(m, fs, i - 1);
    }
}

} // verus!
