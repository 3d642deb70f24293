//! The Sv39 three-level page table.
//!
//! A table owns the next-level tables its entries point to, so the tree
//! structure is explicit: a valid non-leaf entry always carries the table it
//! points to, and that table's frame is the entry's physical address. Fresh
//! frames for new tables come from a [`FramePool`] supplied by the caller.
use vstd::prelude::*;
use crate::addr::{PhysAddr, VirtAddr};
use crate::arch::{PageSize, level_bytes, page_level};
use crate::page_meta::{
    PageMetadataTable, add_spec, remove_spec, share_all, lemma_share_all_concat, count_or_zero, occurrences,
};
use crate::pte::{
    PageTableEntry, PteFlags, PTE_A, PTE_D, PTE_V, PTE_W, leaf_bits, lemma_low_bits_decide,
    lemma_or_flags, lemma_pa_of_set_pa, lemma_pte_pa_bounds, lemma_vpn_bound, pa_fits, pte_leaf,
    pte_is_table, pte_pa, pte_set_pa, pte_user, pte_valid, pte_writable, vpn, vpn_0, vpn_1, vpn_2,
};

verus! {

/// One of the 512 slots of a table.
pub enum Slot {
    /// An entry that does not point to a table (invalid, or a page mapping).
    Entry(PageTableEntry),
    /// A valid non-leaf entry together with the table it points to.
    Table(PageTableEntry, Box<PageTable>),
}

/// A page table: 512 slots.
pub struct PageTable {
    pub entries: Vec<Slot>,
}

/// Physical frames available for new page tables.
pub struct FramePool {
    pub frames: Vec<PhysAddr>,
}

impl FramePool {
    /// Every frame is 4 KiB aligned and addressable by an entry.
    pub open spec fn wf(&self) -> bool {
        forall|i: int|
            0 <= i < self.frames@.len() ==> (#[trigger] self.frames@[i])@ % 4096 == 0 && pa_fits(
                self.frames@[i]@,
            )
    }

    /// An empty pool.
    pub fn new() -> (r: Self)
        ensures
            r.wf(),
            r.frames@.len() == 0,
    {
        FramePool { frames: Vec::new() }
    }

    /// Adds a frame; refuses (and returns `false` for) one that is not a
    /// 4 KiB aligned Sv39 physical address.
    pub fn add(&mut self, frame: PhysAddr) -> (r: bool)
        requires
            old(self).wf(),
        ensures
            final(self).wf(),
            r == (frame@ % 4096 == 0 && pa_fits(frame@)),
            r ==> final(self).frames@ == old(self).frames@.push(frame),
            !r ==> final(self).frames@ == old(self).frames@,
    {
        if frame.0 % 4096 == 0 && frame.0 < 0x100_0000_0000_0000 {
            self.frames.push(frame);
            true
        } else {
            false
        }
    }

    /// Number of frames left.
    pub fn len(&self) -> (r: usize)
        ensures
            r == self.frames@.len(),
    {
        self.frames.len()
    }

    pub fn take(&mut self) -> (r: PhysAddr)
        requires
            old(self).wf(),
            old(self).frames@.len() > 0,
        ensures
            final(self).wf(),
            r == old(self).frames@.last(),
            final(self).frames@ == old(self).frames@.drop_last(),
            r@ % 4096 == 0,
            pa_fits(r@),
    {
        let r = self.frames.pop().unwrap();
        proof {
            assert(old(self).frames@.drop_last() =~= final(self).frames@);
            assert(self.frames@.len() < old(self).frames@.len());
        }
        r
    }
}

/// Whether `a` and `b` use the same slots at every level from `level` down
/// to `target`.
pub open spec fn same_path(a: u64, b: u64, level: nat, target: nat) -> bool
    decreases level,
{
    vpn(a, level) == vpn(b, level) && (level > target ==> same_path(a, b, (level - 1) as nat, target))
}

/// The leaf written by mapping a page to `pa` over the entry `e`: the entry
/// takes `pa` as its address, and the flags are added with V, A and D.
pub open spec fn leaf_update(e: u64, pa: u64, flags: PteFlags) -> u64 {
    pte_set_pa(e, pa) | leaf_bits(flags)
}

impl PageTable {
    /// The tree is well formed when this table is at `level` (2 is the root):
    /// 512 slots, table slots only above the last level, each holding a valid
    /// non-leaf entry and a well-formed next-level table, and no entry slot
    /// that looks like a pointer to a table above the last level.
    pub open spec fn wf(&self, level: nat) -> bool
        decreases self,
    {
        &&& level <= 2
        &&& self.entries@.len() == 512
        &&& forall|i: int|
            0 <= i < 512 ==> match #[trigger] self.entries@[i] {
                Slot::Entry(e) => !(level > 0 && pte_is_table(e@)),
                Slot::Table(e, c) => level > 0 && pte_is_table(e@) && c.wf((level - 1) as nat),
            }
    }

    /// The leaf entry (and the level it sits at) that translates `va`, as the
    /// hardware walk finds it starting from this table at `level`.
    pub open spec fn walk(&self, va: u64, level: nat) -> Option<(u64, nat)>
        decreases self,
    {
        let idx = vpn(va, level);
        if 0 <= idx < self.entries@.len() {
            match self.entries@[idx] {
                Slot::Entry(e) => if pte_valid(e@) && pte_leaf(e@) {
                    Some((e@, level))
                } else {
                    None
                },
                Slot::Table(_, c) => if level > 0 {
                    c.walk(va, (level - 1) as nat)
                } else {
                    None
                },
            }
        } else {
            None
        }
    }

    /// The physical address `va` translates to through the root table.
    pub open spec fn translate_spec(&self, va: u64) -> Option<u64> {
        match self.walk(va, 2) {
            Some((e, l)) => Some((pte_pa(e) + (va as nat) % level_bytes(l)) as u64),
            None => None,
        }
    }

    /// The entry a mapping of `va` at level `target` writes over, starting
    /// from this table at `level`; a table that would have to be created
    /// contributes a zero entry.
    pub open spec fn target_entry(&self, va: u64, target: nat, level: nat) -> u64
        decreases self,
    {
        let idx = vpn(va, level);
        if 0 <= idx < self.entries@.len() {
            if level <= target {
                match self.entries@[idx] {
                    Slot::Entry(e) => e@,
                    Slot::Table(e, _) => e@,
                }
            } else {
                match self.entries@[idx] {
                    Slot::Table(_, c) => c.target_entry(va, target, (level - 1) as nat),
                    Slot::Entry(_) => 0,
                }
            }
        } else {
            0
        }
    }

    /// Whether a mapping of `va` at level `target` can be made without
    /// replacing a table by a leaf, without putting a table under a leaf, and
    /// (when the target entry is not yet valid) with an address to map.
    pub open spec fn can_map(&self, va: u64, target: nat, level: nat, has_pa: bool) -> bool
        decreases self,
    {
        let idx = vpn(va, level);
        &&& 0 <= idx < self.entries@.len()
        &&& if level <= target {
            match self.entries@[idx] {
                Slot::Entry(e) => !pte_is_table(e@) && (pte_valid(e@) || has_pa),
                Slot::Table(_, _) => false,
            }
        } else {
            match self.entries@[idx] {
                Slot::Table(_, c) => c.can_map(va, target, (level - 1) as nat, has_pa),
                Slot::Entry(e) => !pte_valid(e@) && has_pa,
            }
        }
    }

    /// Number of new tables a mapping of `va` at level `target` creates.
    pub open spec fn frames_needed(&self, va: u64, target: nat, level: nat) -> nat
        decreases self,
    {
        let idx = vpn(va, level);
        if 0 <= idx < self.entries@.len() && level > target {
            match self.entries@[idx] {
                Slot::Table(_, c) => c.frames_needed(va, target, (level - 1) as nat),
                Slot::Entry(_) => (level - target) as nat,
            }
        } else {
            0
        }
    }

    /// A table whose 512 entries are all zero.
    pub open spec fn is_empty(&self) -> bool {
        &&& self.entries@.len() == 512
        &&& forall|i: int|
            0 <= i < 512 ==> #[trigger] self.entries@[i] == Slot::Entry(PageTableEntry(0))
    }

    /// What an empty table looks like to the walk and to a mapping.
    pub proof fn lemma_empty(&self, va: u64, target: nat, level: nat)
        requires
            self.is_empty(),
            target <= level <= 2,
        ensures
            self.wf(level),
            self.walk(va, level).is_none(),
            self.target_entry(va, target, level) == 0,
            self.can_map(va, target, level, true),
            self.frames_needed(va, target, level) == (level - target) as nat,
    {
        lemma_vpn_bound(va, level);
        assert(self.entries@[vpn(va, level)] == Slot::Entry(PageTableEntry(0)));
        assert(!pte_valid(0u64)) by (bit_vector);
        assert forall|i: int| 0 <= i < 512 implies match #[trigger] self.entries@[i] {
            Slot::Entry(e) => !(level > 0 && pte_is_table(e@)),
            Slot::Table(e, c) => level > 0 && pte_is_table(e@) && c.wf((level - 1) as nat),
        } by {
            assert(self.entries@[i] == Slot::Entry(PageTableEntry(0)));
        }
    }

    /// An empty table.
    pub fn empty() -> (r: Self)
        ensures
            r.is_empty(),
            r.wf(2),
            forall|va: u64| #[trigger] r.walk(va, 2).is_none(),
    {
        let mut entries: Vec<Slot> = Vec::new();
        let mut i: usize = 0;
        while i < 512
            invariant
                i <= 512,
                entries@.len() == i,
                forall|j: int| 0 <= j < i ==> #[trigger] entries@[j] == Slot::Entry(
                    PageTableEntry(0),
                ),
            decreases 512 - i,
        {
            entries.push(Slot::Entry(PageTableEntry(0)));
            i = i + 1;
        }
        let r = PageTable { entries };
        proof {
            assert forall|va: u64| #[trigger] r.walk(va, 2).is_none() by {
                r.lemma_empty(va, 2, 2);
            }
            r.lemma_empty(0, 2, 2);
        }
        r
    }

    /// Overwrites root slot `idx` with `entry`. An entry that looks like a
    /// pointer to a next-level table points outside this tree: the slot then
    /// holds it as it is, the walk finds no leaf through it, and the tree is
    /// no longer well formed.
    pub fn set_entry(&mut self, idx: usize, entry: PageTableEntry)
        requires
            old(self).entries@.len() == 512,
            idx < 512,
        ensures
            final(self).entries@ == old(self).entries@.update(idx as int, Slot::Entry(entry)),
            old(self).wf(2) && !pte_is_table(entry@) ==> final(self).wf(2),
            forall|va: u64|
                #![trigger final(self).walk(va, 2)]
                vpn(va, 2) == idx ==> final(self).walk(va, 2) == (if pte_valid(entry@) && pte_leaf(
                    entry@,
                ) {
                    Some((entry@, 2nat))
                } else {
                    None
                }),
            forall|va: u64|
                #![trigger final(self).walk(va, 2)]
                vpn(va, 2) != idx ==> final(self).walk(va, 2) == old(self).walk(va, 2),
    {
        self.entries.set(idx, Slot::Entry(entry));
        proof {
            if old(self).wf(2) && !pte_is_table(entry@) {
                assert forall|i: int| 0 <= i < 512 implies match #[trigger] self.entries@[i] {
                    Slot::Entry(e) => !(2nat > 0 && pte_is_table(e@)),
                    Slot::Table(e, c) => 2nat > 0 && pte_is_table(e@) && c.wf(1),
                } by {
                    if i != idx {
                        assert(self.entries@[i] == old(self).entries@[i]);
                    }
                }
            }
        }
    }
}

/// The walk from a table at `level` after mapping `va` at level `target`:
/// every address on the same path reaches the written leaf, every other
/// address translates as before.
pub open spec fn map_result(
    pre: PageTable,
    post: PageTable,
    va: u64,
    pa: u64,
    flags: PteFlags,
    target: nat,
    level: nat,
) -> bool {
    &&& post.wf(level)
    &&& forall|va2: u64|
        #[trigger] post.walk(va2, level) == (if same_path(va2, va, level, target) {
            Some((leaf_update(pre.target_entry(va, target, level), pa, flags), target))
        } else {
            pre.walk(va2, level)
        })
}

/// The leaf `e` after moving it to frame `pa` (when given) and setting `bits`.
pub open spec fn changed_leaf(e: u64, pa: Option<u64>, bits: u64) -> u64 {
    match pa {
        Some(p) => pte_set_pa(e, p) | bits,
        None => e | bits,
    }
}

/// The walk from a table at `level` after changing the leaf that translates
/// `va` as [`changed_leaf`] says.
pub open spec fn leaf_change_result(
    pre: PageTable,
    post: PageTable,
    va: u64,
    pa: Option<u64>,
    bits: u64,
    level: nat,
) -> bool {
    let (e, l) = pre.walk(va, level).unwrap();
    &&& post.wf(level)
    &&& forall|va2: u64|
        #[trigger] post.walk(va2, level) == (if same_path(va2, va, level, l) {
            Some((changed_leaf(e, pa, bits), l))
        } else {
            pre.walk(va2, level)
        })
}

/// The walk from a table at `level` after adding `flags` to the leaf that
/// translates `va`.
pub open spec fn remap_result(pre: PageTable, post: PageTable, va: u64, flags: PteFlags, level: nat) -> bool {
    leaf_change_result(pre, post, va, None, leaf_bits(flags), level)
}

/// The walk from the root after copy-on-write moved the 4 KiB page of `va`
/// to frame `pa` and made it writable.
pub open spec fn cow_result(pre: PageTable, post: PageTable, va: u64, pa: u64) -> bool {
    leaf_change_result(pre, post, va, Some(pa), PTE_W as u64, 2)
}

/// A changed leaf is still a valid leaf, at the new frame when one is given.
pub proof fn lemma_changed_leaf(e: u64, pa: Option<u64>, bits: u64)
    requires
        pte_valid(e),
        pte_leaf(e),
        bits <= 0xff,
        pa matches Some(p) ==> p % 4096 == 0 && pa_fits(p),
    ensures
        pte_valid(changed_leaf(e, pa, bits)),
        pte_leaf(changed_leaf(e, pa, bits)),
        pte_pa(changed_leaf(e, pa, bits)) == match pa {
            Some(p) => p,
            None => pte_pa(e),
        },
        pte_writable(changed_leaf(e, pa, bits)) == (pte_writable(e) || bits & 4 != 0),
        pte_user(changed_leaf(e, pa, bits)) == (pte_user(e) || bits & 16 != 0),
{
    match pa {
        Some(p) => {
            lemma_pa_of_set_pa(e, p);
            lemma_low_bits_decide(pte_set_pa(e, p), e);
            lemma_or_flags(pte_set_pa(e, p), bits);
        },
        None => {
            lemma_or_flags(e, bits);
        },
    }
}

/// Facts about the bits a mapping writes.
pub proof fn lemma_leaf_update(e: u64, pa: u64, flags: PteFlags)
    requires
        pa % 4096 == 0,
        pa_fits(pa),
    ensures
        pte_valid(leaf_update(e, pa, flags)),
        pte_leaf(leaf_update(e, pa, flags)) == (pte_leaf(e) || (flags & 14) != 0),
        pte_pa(leaf_update(e, pa, flags)) == pa,
{
    let b = leaf_bits(flags);
    assert(((flags | 1u8 | 64u8 | 128u8) as u64) <= 0xff && ((flags | 1u8 | 64u8 | 128u8) as u64)
        & 1 != 0 && ((((flags | 1u8 | 64u8 | 128u8) as u64) & 14 != 0) == (flags & 14 != 0)))
        by (bit_vector);
    lemma_pa_of_set_pa(e, pa);
    lemma_low_bits_decide(pte_set_pa(e, pa), e);
    lemma_or_flags(pte_set_pa(e, pa), b);
}

/// Adding flags to a leaf keeps it a valid leaf at the same address.
pub proof fn lemma_remap_leaf(e: u64, flags: PteFlags)
    requires
        pte_valid(e),
        pte_leaf(e),
    ensures
        pte_valid(e | leaf_bits(flags)),
        pte_leaf(e | leaf_bits(flags)),
        pte_pa(e | leaf_bits(flags)) == pte_pa(e),
{
    assert(((flags | 1u8 | 64u8 | 128u8) as u64) <= 0xff && ((flags | 1u8 | 64u8 | 128u8) as u64)
        & 1 != 0) by (bit_vector);
    lemma_or_flags(e, leaf_bits(flags));
}

/// A valid entry with no permission bits: the shape of a table pointer.
pub proof fn lemma_table_pointer(frame: u64)
    requires
        frame % 4096 == 0,
        pa_fits(frame),
    ensures
        pte_is_table(pte_set_pa(1, frame)),
        pte_pa(pte_set_pa(1, frame)) == frame,
{
    assert(1u64 & 1 != 0 && 1u64 & 14 == 0) by (bit_vector);
    lemma_pa_of_set_pa(1, frame);
    lemma_low_bits_decide(pte_set_pa(1, frame), 1);
}

/// Writes a leaf: the entry takes `pa`, and the flags are added together
/// with V, A and D.
fn map_leaf(pte: &mut PageTableEntry, pa: PhysAddr, flags: PteFlags)
    requires
        !pte_is_table(old(pte)@),
    ensures
        final(pte)@ == leaf_update(old(pte)@, pa@, flags),
{
    *pte = pte.set_physical_address(pa);
    *pte = pte.set_flags(flags | PTE_V | PTE_A | PTE_D);
}

/// The raw address held in an optional address.
pub open spec fn opt_raw(pa: Option<PhysAddr>) -> Option<u64> {
    match pa {
        Some(p) => Some(p@),
        None => None,
    }
}

/// Moves a leaf to frame `pa`, when given, and sets `bits`.
fn change_leaf(pte: &mut PageTableEntry, pa: Option<PhysAddr>, bits: u8)
    ensures
        final(pte)@ == changed_leaf(old(pte)@, opt_raw(pa), bits as u64),
{
    match pa {
        Some(p) => {
            *pte = pte.set_physical_address(p);
        },
        None => {},
    }
    *pte = pte.set_flags(bits);
}

impl PageTable {
    fn map_at(
        &mut self,
        va: VirtAddr,
        pa: PhysAddr,
        flags: PteFlags,
        target: u8,
        level: u8,
        pool: &mut FramePool,
    )
        requires
            target <= level <= 2,
            old(self).wf(level as nat),
            old(self).can_map(va@, target as nat, level as nat, true),
            old(pool).wf(),
            old(pool).frames@.len() >= old(self).frames_needed(va@, target as nat, level as nat),
            pa@ % 4096 == 0,
            pa_fits(pa@),
            pte_leaf(leaf_update(old(self).target_entry(va@, target as nat, level as nat), pa@, flags)),
        ensures
            map_result(*old(self), *final(self), va@, pa@, flags, target as nat, level as nat),
            forall|i: int|
                0 <= i < 512 && i != vpn(va@, level as nat) ==> #[trigger] final(self).entries@[i]
                    == old(self).entries@[i],
            level == target ==> final(self).entries@[vpn(va@, level as nat)] == Slot::Entry(
                PageTableEntry(
                    leaf_update(old(self).target_entry(va@, target as nat, level as nat), pa@, flags),
                ),
            ),
            final(pool).wf(),
            final(pool).frames@ == old(pool).frames@.take(
                old(pool).frames@.len() - old(self).frames_needed(va@, target as nat, level as nat),
            ),
        decreases level,
    {
        let ghost pre = *self;
        let ghost pool0 = pool.frames@;
        let idx = vpn_at(va, level);
        let ghost lvl = level as nat;
        let ghost tgt = target as nat;
        let mut slot = Slot::Entry(PageTableEntry(0));
        std::mem::swap(&mut slot, &mut self.entries[idx]);
        proof {
            assert(slot == pre.entries@[idx as int]);
        }
        let ghost new_slot: Slot;
        let ghost old_child: PageTable = pre;
        let ghost new_child: PageTable = pre;
        if level == target {
            match slot {
                Slot::Entry(mut e) => {
                    let ghost e0 = e@;
                    map_leaf(&mut e, pa, flags);
                    proof {
                        lemma_leaf_update(e0, pa@, flags);
                        new_slot = Slot::Entry(e);
                    }
                    self.entries.set(idx, Slot::Entry(e));
                },
                Slot::Table(e, c) => {
                    proof {
                        new_slot = Slot::Table(e, c);
                    }
                    self.entries.set(idx, Slot::Table(e, c));
                },
            }
        } else {
            match slot {
                Slot::Table(e, mut c) => {
                    proof {
                        old_child = *c;
                    }
                    (&mut *c).map_at(va, pa, flags, target, level - 1, pool);
                    proof {
                        new_slot = Slot::Table(e, c);
                        new_child = *c;
                    }
                    self.entries.set(idx, Slot::Table(e, c));
                },
                Slot::Entry(e) => {
                    let frame = pool.take();
                    let mut t = PageTable::empty();
                    proof {
                        t.lemma_empty(va@, tgt, (lvl - 1) as nat);
                        assert(pool.frames@.len() >= t.frames_needed(va@, tgt, (lvl - 1) as nat));
                    }
                    let ghost t0 = t;
                    t.map_at(va, pa, flags, target, level - 1, pool);
                    let ne = PageTableEntry::new_valid().set_physical_address(frame);
                    proof {
                        lemma_table_pointer(frame@);
                        new_slot = Slot::Table(ne, Box::new(t));
                        old_child = t0;
                        new_child = t;
                        assert(pool0.drop_last().take(pool0.len() - 1 - ((lvl - 1 - tgt) as nat))
                            =~= pool0.take(pool0.len() - (lvl - tgt) as nat));
                        assert forall|va2: u64| same_path(va2, va@, (lvl - 1) as nat, tgt) || !same_path(va2, va@, (lvl - 1) as nat, tgt)
                            implies #[trigger] t.walk(va2, (lvl - 1) as nat) == (if same_path(va2, va@, (lvl - 1) as nat, tgt) {
                                Some((leaf_update(0, pa@, flags), tgt))
                            } else {
                                None
                            }) by {
                            t0.lemma_empty(va2, tgt, (lvl - 1) as nat);
                        }
                    }
                    self.entries.set(idx, Slot::Table(ne, Box::new(t)));
                },
            }
        }
        proof {
            let post = *self;
            assert(post.entries@ == pre.entries@.update(idx as int, new_slot));
            assert forall|i: int| 0 <= i < 512 implies match #[trigger] post.entries@[i] {
                Slot::Entry(e) => !(lvl > 0 && pte_is_table(e@)),
                Slot::Table(e, c) => lvl > 0 && pte_is_table(e@) && c.wf((lvl - 1) as nat),
            } by {
                if i != idx {
                    assert(post.entries@[i] == pre.entries@[i]);
                }
            }
            assert(post.wf(lvl));
            assert forall|va2: u64| #[trigger] post.walk(va2, lvl) == (if same_path(va2, va@, lvl, tgt) {
                Some((leaf_update(pre.target_entry(va@, tgt, lvl), pa@, flags), tgt))
            } else {
                pre.walk(va2, lvl)
            }) by {
                lemma_vpn_bound(va2, lvl);
                if vpn(va2, lvl) != idx {
                    assert(post.entries@[vpn(va2, lvl)] == pre.entries@[vpn(va2, lvl)]);
                    assert(!same_path(va2, va@, lvl, tgt));
                } else {
                    assert(post.entries@[vpn(va2, lvl)] == new_slot);
                    if lvl == tgt {
                        assert(same_path(va2, va@, lvl, tgt));
                        assert(post.walk(va2, lvl) == Some((leaf_update(pre.target_entry(va@, tgt, lvl), pa@, flags), tgt)));
                    } else {
                        assert(same_path(va2, va@, lvl, tgt) == same_path(va2, va@, (lvl - 1) as nat, tgt));
                        assert(post.walk(va2, lvl) == new_child.walk(va2, (lvl - 1) as nat));
                        assert(map_result(old_child, new_child, va@, pa@, flags, tgt, (lvl - 1) as nat));
                        match pre.entries@[idx as int] {
                            Slot::Table(e, c) => {
                                assert(pre.target_entry(va@, tgt, lvl) == c.target_entry(va@, tgt, (lvl - 1) as nat));
                                assert(pre.walk(va2, lvl) == c.walk(va2, (lvl - 1) as nat));
                            },
                            Slot::Entry(e) => {
                                assert(pre.target_entry(va@, tgt, lvl) == 0);
                                assert(pre.walk(va2, lvl).is_none());
                            },
                        }
                    }
                }
            }
        }
    }
}

/// Preconditions shared by the mapping operations: a well-formed root, an
/// address pair aligned to the page size, a target slot that can take a leaf
/// and permissions that make the entry a leaf.
pub open spec fn map_pre(pt: PageTable, va: u64, pa: u64, flags: PteFlags, level: nat) -> bool {
    &&& level <= 2
    &&& pt.wf(2)
    &&& (va as nat) % level_bytes(level) == 0
    &&& (pa as nat) % level_bytes(level) == 0
    &&& pa_fits(pa)
    &&& pt.can_map(va, level, 2, true)
    &&& pte_leaf(leaf_update(pt.target_entry(va, level, 2), pa, flags))
}

proof fn lemma_level_bytes_aligned(pa: u64, level: nat)
    requires
        level <= 2,
        (pa as nat) % level_bytes(level) == 0,
    ensures
        pa % 4096 == 0,
{
    if level == 1 {
        assert(pa % 0x20_0000 == 0 ==> pa % 4096 == 0) by (nonlinear_arith);
    } else if level == 2 {
        assert(pa % 0x4000_0000 == 0 ==> pa % 4096 == 0) by (nonlinear_arith);
    }
}

/// Every address of an aligned page lies on the page's path.
pub proof fn lemma_same_page(va: u64, va2: u64, level: nat)
    requires
        level <= 2,
        (va as nat) % level_bytes(level) == 0,
        va <= va2 < va + level_bytes(level),
    ensures
        same_path(va2, va, 2, level),
        (va2 as nat) % level_bytes(level) == va2 - va,
{
    if level == 0 {
        assert(va2 >> 12u64 == va >> 12u64 && va2 >> 21u64 == va >> 21u64 && va2 >> 30u64 == va
            >> 30u64) by (bit_vector)
            requires
                va % 4096 == 0,
                va <= va2,
                va2 < va + 4096,
        ;
        assert(same_path(va2, va, 0, 0));
        assert(same_path(va2, va, 1, 0));
    } else if level == 1 {
        assert(va2 >> 21u64 == va >> 21u64 && va2 >> 30u64 == va >> 30u64) by (bit_vector)
            requires
                va % 0x20_0000 == 0,
                va <= va2,
                va2 < va + 0x20_0000,
        ;
        assert(same_path(va2, va, 1, 1));
    } else {
        assert(va2 >> 30u64 == va >> 30u64) by (bit_vector)
            requires
                va % 0x4000_0000 == 0,
                va <= va2,
                va2 < va + 0x4000_0000,
        ;
    }
    assert((va2 as nat) % level_bytes(level) == va2 - va) by (nonlinear_arith)
        requires
            (va as nat) % level_bytes(level) == 0,
            va <= va2 < va + level_bytes(level),
            level_bytes(level) > 0,
    ;
}

/// Mapping a page of any size (4 KiB, 2 MiB or 1 GiB), over an empty slot or
/// an existing leaf: every address inside the page translates to `pa` plus its
/// offset in the page, and every address off the page's path translates as
/// before.
pub proof fn lemma_translate_after_map(
    pre: PageTable,
    post: PageTable,
    va: u64,
    pa: u64,
    flags: PteFlags,
    level: nat,
    va2: u64,
)
    requires
        map_pre(pre, va, pa, flags, level),
        map_result(pre, post, va, pa, flags, level, 2),
    ensures
        va <= va2 < va + level_bytes(level) ==> post.translate_spec(va2) == Some(
            (pa + va2 - va) as u64,
        ),
        !same_path(va2, va, 2, level) ==> post.translate_spec(va2) == pre.translate_spec(va2),
{
    lemma_level_bytes_aligned(pa, level);
    lemma_leaf_update(pre.target_entry(va, level, 2), pa, flags);
    if va <= va2 < va + level_bytes(level) {
        lemma_same_page(va, va2, level);
        assert(post.walk(va2, 2) == Some((leaf_update(pre.target_entry(va, level, 2), pa, flags), level)));
    }
    assert(post.walk(va2, 2) == (if same_path(va2, va, 2, level) {
        Some((leaf_update(pre.target_entry(va, level, 2), pa, flags), level))
    } else {
        pre.walk(va2, 2)
    }));
}

/// Two addresses that share a path down to level `t` share it, either way
/// round, down to any level from `t` up.
pub proof fn lemma_same_path_flip(a: u64, b: u64, level: nat, t: nat, l: nat)
    requires
        same_path(a, b, level, t),
        t <= l <= level,
    ensures
        same_path(b, a, level, l),
    decreases level,
{
    if level > l {
        lemma_same_path_flip(a, b, (level - 1) as nat, t, l);
    }
}

/// Mapping a 4 KiB page that did not translate yet keeps every walk that
/// found a leaf.
pub proof fn lemma_map_keeps_walks(
    pre: PageTable,
    post: PageTable,
    va: u64,
    pa: u64,
    flags: PteFlags,
    va2: u64,
)
    requires
        map_pre(pre, va, pa, flags, 0),
        map_result(pre, post, va, pa, flags, 0, 2),
        pre.translate_spec(va) is None,
        pre.walk(va2, 2) is Some,
    ensures
        post.walk(va2, 2) == pre.walk(va2, 2),
{
    assert(post.walk(va2, 2) == (if same_path(va2, va, 2, 0) {
        Some((leaf_update(pre.target_entry(va, 0, 2), pa, flags), 0nat))
    } else {
        pre.walk(va2, 2)
    }));
    if same_path(va2, va, 2, 0) {
        pre.lemma_walk_leaf(va2, 2);
        let l = pre.walk(va2, 2).unwrap().1;
        lemma_same_path_flip(va2, va, 2, 0, l);
        pre.lemma_same_path_same_walk(va2, va, 2, l);
    }
}

/// Mapping a 4 KiB page that did not translate yet keeps every translation
/// that existed.
pub proof fn lemma_map_keeps_translations(
    pre: PageTable,
    post: PageTable,
    va: u64,
    pa: u64,
    flags: PteFlags,
    va2: u64,
)
    requires
        map_pre(pre, va, pa, flags, 0),
        map_result(pre, post, va, pa, flags, 0, 2),
        pre.translate_spec(va) is None,
        pre.translate_spec(va2) is Some,
    ensures
        post.translate_spec(va2) == pre.translate_spec(va2),
{
    lemma_translate_after_map(pre, post, va, pa, flags, 0, va2);
    if same_path(va2, va, 2, 0) {
        pre.lemma_walk_leaf(va2, 2);
        let l = pre.walk(va2, 2).unwrap().1;
        lemma_same_path_flip(va2, va, 2, 0, l);
        pre.lemma_same_path_same_walk(va2, va, 2, l);
    }
}

/// Changing permissions with `remap_vm` moves no address: every address
/// translates to the same physical address as before.
pub proof fn lemma_remap_keeps_translation(pre: PageTable, post: PageTable, va: u64, flags: PteFlags, va2: u64)
    requires
        pre.wf(2),
        pre.walk(va, 2).is_some(),
        remap_result(pre, post, va, flags, 2),
    ensures
        post.translate_spec(va2) == pre.translate_spec(va2),
{
    let (e, l) = pre.walk(va, 2).unwrap();
    pre.lemma_walk_leaf(va, 2);
    lemma_remap_leaf(e, flags);
    assert(post.walk(va2, 2) == (if same_path(va2, va, 2, l) {
        Some((e | leaf_bits(flags), l))
    } else {
        pre.walk(va2, 2)
    }));
    if same_path(va2, va, 2, l) {
        pre.lemma_same_path_same_walk(va, va2, 2, l);
    }
}

impl PageTable {
    /// The walk only ever ends at a valid leaf, at or below its start level.
    pub proof fn lemma_walk_leaf(&self, va: u64, level: nat)
        requires
            self.wf(level),
            self.walk(va, level).is_some(),
        ensures
            pte_valid(self.walk(va, level).unwrap().0),
            pte_leaf(self.walk(va, level).unwrap().0),
            self.walk(va, level).unwrap().1 <= level,
        decreases self,
    {
        lemma_vpn_bound(va, level);
        match self.entries@[vpn(va, level)] {
            Slot::Entry(e) => {},
            Slot::Table(_, c) => {
                c.lemma_walk_leaf(va, (level - 1) as nat);
            },
        }
    }

    /// Two addresses on the same path down to the leaf that the walk of one
    /// of them reaches reach that same leaf.
    pub proof fn lemma_same_path_same_walk(&self, va: u64, va2: u64, level: nat, l: nat)
        requires
            self.wf(level),
            self.walk(va, level).is_some(),
            self.walk(va, level).unwrap().1 == l,
            same_path(va2, va, level, l),
        ensures
            self.walk(va2, level) == self.walk(va, level),
        decreases self,
    {
        lemma_vpn_bound(va, level);
        self.lemma_walk_leaf(va, level);
        match self.entries@[vpn(va, level)] {
            Slot::Entry(e) => {},
            Slot::Table(_, c) => {
                c.lemma_walk_leaf(va, (level - 1) as nat);
                c.lemma_same_path_same_walk(va, va2, (level - 1) as nat, l);
            },
        }
    }

    fn walk_exec(&self, va: VirtAddr, level: u8) -> (r: Option<(PageTableEntry, u8)>)
        requires
            level <= 2,
            self.wf(level as nat),
        ensures
            match r {
                Some((e, l)) => self.walk(va@, level as nat) == Some((e@, l as nat)) && l <= level,
                None => self.walk(va@, level as nat).is_none(),
            },
        decreases level,
    {
        let idx = vpn_at(va, level);
        match &self.entries[idx] {
            Slot::Entry(e) => {
                if e.is_valid() && e.is_leaf() {
                    Some((*e, level))
                } else {
                    None
                }
            },
            Slot::Table(_, c) => {
                if level > 0 {
                    c.walk_exec(va, level - 1)
                } else {
                    None
                }
            },
        }
    }

    /// The physical address of `va` in a page of `page_size` bytes mapped by
    /// the leaf `pte`.
    fn translated_physical_address(pte: PageTableEntry, page_size: PageSize, va: VirtAddr) -> (r: PhysAddr)
        ensures
            r@ == pte_pa(pte@) + (va@ as nat) % level_bytes(page_level(page_size)),
    {
        proof {
            lemma_pte_pa_bounds(pte@);
        }
        let b = page_size.bytes();
        PhysAddr(pte.physical_address().raw() + va.0 % b)
    }

    /// The level of the leaf that translates `va`, if any (0 for a 4 KiB
    /// page).
    pub fn leaf_level(&self, va: VirtAddr) -> (r: Option<u8>)
        requires
            self.wf(2),
        ensures
            match r {
                Some(l) => self.walk(va@, 2) matches Some((_, lv)) && lv == l,
                None => self.walk(va@, 2).is_none(),
            },
    {
        match self.walk_exec(va, 2) {
            Some((_, l)) => Some(l),
            None => None,
        }
    }

    /// The entry a mapping of `va` at level `target` writes over: see
    /// [`PageTable::target_entry`].
    pub fn target_entry_exec(&self, va: VirtAddr, target: u8, level: u8) -> (r: u64)
        requires
            target <= level <= 2,
            self.wf(level as nat),
        ensures
            r == self.target_entry(va@, target as nat, level as nat),
        decreases level,
    {
        let idx = vpn_at(va, level);
        if level <= target {
            match &self.entries[idx] {
                Slot::Entry(e) => e.0,
                Slot::Table(e, _) => e.0,
            }
        } else {
            match &self.entries[idx] {
                Slot::Table(_, c) => c.target_entry_exec(va, target, level - 1),
                Slot::Entry(_) => 0,
            }
        }
    }

    /// Whether a mapping of `va` at level `target` can be written from this
    /// table at `level` down: see [`PageTable::can_map`].
    pub fn can_map_exec(&self, va: VirtAddr, target: u8, level: u8) -> (r: bool)
        requires
            target <= level <= 2,
            self.wf(level as nat),
        ensures
            r == self.can_map(va@, target as nat, level as nat, true),
        decreases level,
    {
        let idx = vpn_at(va, level);
        if level <= target {
            match &self.entries[idx] {
                Slot::Entry(e) => !(e.is_valid() && !e.is_leaf()),
                Slot::Table(_, _) => false,
            }
        } else {
            match &self.entries[idx] {
                Slot::Table(_, c) => c.can_map_exec(va, target, level - 1),
                Slot::Entry(e) => !e.is_valid(),
            }
        }
    }

    /// How many new tables a mapping of `va` at level `target` creates: see
    /// [`PageTable::frames_needed`].
    pub fn frames_needed_exec(&self, va: VirtAddr, target: u8, level: u8) -> (r: u8)
        requires
            target <= level <= 2,
            self.wf(level as nat),
        ensures
            r == self.frames_needed(va@, target as nat, level as nat),
            r <= 2,
        decreases level,
    {
        let idx = vpn_at(va, level);
        if level > target {
            match &self.entries[idx] {
                Slot::Table(_, c) => c.frames_needed_exec(va, target, level - 1),
                Slot::Entry(_) => level - target,
            }
        } else {
            0
        }
    }

    /// The physical address `va` maps to, if any.
    pub fn translate(&self, va: VirtAddr) -> (r: Option<PhysAddr>)
        requires
            self.wf(2),
        ensures
            match r {
                Some(p) => self.translate_spec(va@) == Some(p@),
                None => self.translate_spec(va@).is_none(),
            },
    {
        match self.walk_exec(va, 2) {
            Some((e, l)) => {
                let size = if l == 0 {
                    PageSize::Size4K
                } else if l == 1 {
                    PageSize::Size2M
                } else {
                    PageSize::Size1G
                };
                Some(Self::translated_physical_address(e, size, va))
            },
            None => None,
        }
    }

    fn change_leaf_at(&mut self, va: VirtAddr, pa: Option<PhysAddr>, bits: u8, level: u8)
        requires
            level <= 2,
            old(self).wf(level as nat),
            old(self).walk(va@, level as nat).is_some(),
            pa matches Some(p) ==> p@ % 4096 == 0 && pa_fits(p@),
        ensures
            leaf_change_result(*old(self), *final(self), va@, opt_raw(pa), bits as u64, level as nat),
        decreases level,
    {
        let ghost pre = *self;
        let ghost lvl = level as nat;
        let idx = vpn_at(va, level);
        let mut slot = Slot::Entry(PageTableEntry(0));
        std::mem::swap(&mut slot, &mut self.entries[idx]);
        let ghost new_slot: Slot;
        let ghost old_child: PageTable = pre;
        let ghost new_child: PageTable = pre;
        match slot {
            Slot::Entry(mut e) => {
                let ghost e0 = e@;
                change_leaf(&mut e, pa, bits);
                proof {
                    lemma_changed_leaf(e0, opt_raw(pa), bits as u64);
                    new_slot = Slot::Entry(e);
                }
                self.entries.set(idx, Slot::Entry(e));
            },
            Slot::Table(e, mut c) => {
                proof {
                    old_child = *c;
                }
                (&mut *c).change_leaf_at(va, pa, bits, level - 1);
                proof {
                    new_slot = Slot::Table(e, c);
                    new_child = *c;
                }
                self.entries.set(idx, Slot::Table(e, c));
            },
        }
        proof {
            let post = *self;
            let (le, ll) = pre.walk(va@, lvl).unwrap();
            assert(post.entries@ == pre.entries@.update(idx as int, new_slot));
            assert forall|i: int| 0 <= i < 512 implies match #[trigger] post.entries@[i] {
                Slot::Entry(e) => !(lvl > 0 && pte_is_table(e@)),
                Slot::Table(e, c) => lvl > 0 && pte_is_table(e@) && c.wf((lvl - 1) as nat),
            } by {
                if i != idx {
                    assert(post.entries@[i] == pre.entries@[i]);
                }
            }
            assert forall|va2: u64| #[trigger] post.walk(va2, lvl) == (if same_path(va2, va@, lvl, ll) {
                Some((changed_leaf(le, opt_raw(pa), bits as u64), ll))
            } else {
                pre.walk(va2, lvl)
            }) by {
                lemma_vpn_bound(va2, lvl);
                if vpn(va2, lvl) != idx {
                    assert(post.entries@[vpn(va2, lvl)] == pre.entries@[vpn(va2, lvl)]);
                    assert(!same_path(va2, va@, lvl, ll));
                } else {
                    assert(post.entries@[vpn(va2, lvl)] == new_slot);
                    match pre.entries@[idx as int] {
                        Slot::Entry(e) => {
                            assert(ll == lvl);
                            assert(same_path(va2, va@, lvl, ll));
                        },
                        Slot::Table(e, c) => {
                            assert(old_child == *c);
                            c.lemma_walk_leaf(va@, (lvl - 1) as nat);
                            assert(same_path(va2, va@, lvl, ll) == same_path(va2, va@, (lvl - 1) as nat, ll));
                            assert(post.walk(va2, lvl) == new_child.walk(va2, (lvl - 1) as nat));
                        },
                    }
                }
            }
        }
    }

    /// Adds `flags` to the leaf that maps `va`, wherever it sits; `base`
    /// is where the kernel sees physical memory and does not change the tree.
    fn remap_memory_with_base(&mut self, va: VirtAddr, flags: PteFlags, base: u64)
        requires
            old(self).wf(2),
            old(self).walk(va@, 2).is_some(),
        ensures
            remap_result(*old(self), *final(self), va@, flags, 2),
    {
        self.change_leaf_at(va, None, flags | PTE_V | PTE_A | PTE_D, 2);
    }

    /// Maps `va` to `pa` with a page of `page_size`; `base` is where the
    /// kernel sees physical memory and does not change the tree.
    fn map_memory_with_base(
        &mut self,
        va: VirtAddr,
        pa: PhysAddr,
        flags: PteFlags,
        base: u64,
        page_size: PageSize,
        pool: &mut FramePool,
    )
        requires
            map_pre(*old(self), va@, pa@, flags, page_level(page_size)),
            old(pool).wf(),
            old(pool).frames@.len() >= old(self).frames_needed(va@, page_level(page_size), 2),
        ensures
            map_result(*old(self), *final(self), va@, pa@, flags, page_level(page_size), 2),
            forall|i: int|
                0 <= i < 512 && i != vpn(va@, 2) ==> #[trigger] final(self).entries@[i]
                    == old(self).entries@[i],
            page_level(page_size) == 2 ==> final(self).entries@[vpn(va@, 2)] == Slot::Entry(
                PageTableEntry(leaf_update(old(self).target_entry(va@, 2, 2), pa@, flags)),
            ),
            final(pool).wf(),
            final(pool).frames@ == old(pool).frames@.take(
                old(pool).frames@.len() - old(self).frames_needed(va@, page_level(page_size), 2),
            ),
    {
        proof {
            lemma_level_bytes_aligned(pa@, page_level(page_size));
        }
        let level = page_size.level();
        self.map_at(va, pa, flags, level, 2, pool);
    }

    /// Maps the 4 KiB page at `va` to `pa` (before paging is enabled).
    pub fn map_vm_early(&mut self, va: VirtAddr, pa: PhysAddr, flags: PteFlags, pool: &mut FramePool)
        requires
            map_pre(*old(self), va@, pa@, flags, 0),
            old(pool).wf(),
            old(pool).frames@.len() >= old(self).frames_needed(va@, 0, 2),
        ensures
            map_result(*old(self), *final(self), va@, pa@, flags, 0, 2),
            final(pool).wf(),
            final(pool).frames@ == old(pool).frames@.take(
                old(pool).frames@.len() - old(self).frames_needed(va@, 0, 2),
            ),
    {
        self.map_memory_with_base(va, pa, flags, 0, PageSize::Size4K, pool);
    }

    /// Maps the 2 MiB page at `va` to `pa` (before paging is enabled).
    pub fn map_vm_early_2m(&mut self, va: VirtAddr, pa: PhysAddr, flags: PteFlags, pool: &mut FramePool)
        requires
            map_pre(*old(self), va@, pa@, flags, 1),
            old(pool).wf(),
            old(pool).frames@.len() >= old(self).frames_needed(va@, 1, 2),
        ensures
            map_result(*old(self), *final(self), va@, pa@, flags, 1, 2),
            final(pool).wf(),
            final(pool).frames@ == old(pool).frames@.take(
                old(pool).frames@.len() - old(self).frames_needed(va@, 1, 2),
            ),
    {
        self.map_memory_with_base(va, pa, flags, 0, PageSize::Size2M, pool);
    }

    /// Maps the 1 GiB page at `va` to `pa` (before paging is enabled).
    pub fn map_vm_early_1g(&mut self, va: VirtAddr, pa: PhysAddr, flags: PteFlags, pool: &mut FramePool)
        requires
            map_pre(*old(self), va@, pa@, flags, 2),
            old(pool).wf(),
        ensures
            map_result(*old(self), *final(self), va@, pa@, flags, 2, 2),
            final(self).entries@ == old(self).entries@.update(
                vpn(va@, 2),
                Slot::Entry(PageTableEntry(leaf_update(old(self).target_entry(va@, 2, 2), pa@, flags))),
            ),
            final(pool).wf(),
            final(pool).frames@ == old(pool).frames@,
    {
        self.map_memory_with_base(va, pa, flags, 0, PageSize::Size1G, pool);
        proof {
            lemma_vpn_bound(va@, 2);
            assert(self.entries@ =~= old(self).entries@.update(
                vpn(va@, 2),
                Slot::Entry(PageTableEntry(leaf_update(old(self).target_entry(va@, 2, 2), pa@, flags))),
            ));
            assert(old(pool).frames@.take(old(pool).frames@.len() as int) =~= old(pool).frames@);
        }
    }

    /// Maps the 4 KiB page at `va` to `pa`.
    pub fn map_vm(&mut self, va: VirtAddr, pa: PhysAddr, flags: PteFlags, pool: &mut FramePool)
        requires
            map_pre(*old(self), va@, pa@, flags, 0),
            old(pool).wf(),
            old(pool).frames@.len() >= old(self).frames_needed(va@, 0, 2),
        ensures
            map_result(*old(self), *final(self), va@, pa@, flags, 0, 2),
            final(pool).wf(),
            final(pool).frames@ == old(pool).frames@.take(
                old(pool).frames@.len() - old(self).frames_needed(va@, 0, 2),
            ),
    {
        self.map_vm_with_page_size(va, pa, flags, PageSize::Size4K, pool);
    }

    /// Maps the page of `page_size` at `va` to `pa`.
    pub fn map_vm_with_page_size(
        &mut self,
        va: VirtAddr,
        pa: PhysAddr,
        flags: PteFlags,
        page_size: PageSize,
        pool: &mut FramePool,
    )
        requires
            map_pre(*old(self), va@, pa@, flags, page_level(page_size)),
            old(pool).wf(),
            old(pool).frames@.len() >= old(self).frames_needed(va@, page_level(page_size), 2),
        ensures
            map_result(*old(self), *final(self), va@, pa@, flags, page_level(page_size), 2),
            final(pool).wf(),
            final(pool).frames@ == old(pool).frames@.take(
                old(pool).frames@.len() - old(self).frames_needed(va@, page_level(page_size), 2),
            ),
    {
        self.map_memory_with_base(va, pa, flags, crate::mappings::KERNEL_DIRECT_MAPPING_BASE, page_size, pool);
    }

    /// Maps the 2 MiB page at `va` to `pa`.
    pub fn map_vm_2m(&mut self, va: VirtAddr, pa: PhysAddr, flags: PteFlags, pool: &mut FramePool)
        requires
            map_pre(*old(self), va@, pa@, flags, 1),
            old(pool).wf(),
            old(pool).frames@.len() >= old(self).frames_needed(va@, 1, 2),
        ensures
            map_result(*old(self), *final(self), va@, pa@, flags, 1, 2),
            final(pool).wf(),
            final(pool).frames@ == old(pool).frames@.take(
                old(pool).frames@.len() - old(self).frames_needed(va@, 1, 2),
            ),
    {
        self.map_memory_with_base(va, pa, flags, crate::mappings::KERNEL_DIRECT_MAPPING_BASE, PageSize::Size2M, pool);
    }

    /// Maps the 1 GiB page at `va` to `pa`; no table is created.
    pub fn map_vm_1g(&mut self, va: VirtAddr, pa: PhysAddr, flags: PteFlags, pool: &mut FramePool)
        requires
            map_pre(*old(self), va@, pa@, flags, 2),
            old(pool).wf(),
        ensures
            map_result(*old(self), *final(self), va@, pa@, flags, 2, 2),
            final(self).entries@ == old(self).entries@.update(
                vpn(va@, 2),
                Slot::Entry(PageTableEntry(leaf_update(old(self).target_entry(va@, 2, 2), pa@, flags))),
            ),
            final(pool).wf(),
            final(pool).frames@ == old(pool).frames@,
    {
        self.map_memory_with_base(va, pa, flags, crate::mappings::KERNEL_DIRECT_MAPPING_BASE, PageSize::Size1G, pool);
        proof {
            lemma_vpn_bound(va@, 2);
            assert(self.entries@ =~= old(self).entries@.update(
                vpn(va@, 2),
                Slot::Entry(PageTableEntry(leaf_update(old(self).target_entry(va@, 2, 2), pa@, flags))),
            ));
            assert(old(pool).frames@.take(old(pool).frames@.len() as int) =~= old(pool).frames@);
        }
    }

    /// Adds `flags` to the leaf mapping `va`.
    pub fn remap_vm(&mut self, va: VirtAddr, flags: PteFlags)
        requires
            old(self).wf(2),
            old(self).walk(va@, 2).is_some(),
        ensures
            remap_result(*old(self), *final(self), va@, flags, 2),
    {
        self.remap_memory_with_base(va, flags, crate::mappings::KERNEL_DIRECT_MAPPING_BASE);
    }

    /// Gives the 4 KiB page of `va` a private copy: a frame from `pool`
    /// (counted once in `meta`) replaces the shared one in the leaf, which
    /// becomes writable, and the shared frame loses a reference; when none is
    /// left it goes back to `pool`. A frame `meta` did not count yet is a
    /// different frame from the shared one and ends with a count of one.
    /// Answers the old frame, the new frame and whether the old one was
    /// freed; copying the bytes is the caller's.
    pub fn copy_on_write(
        &mut self,
        va: VirtAddr,
        pool: &mut FramePool,
        meta: &mut PageMetadataTable,
    ) -> (r: (PhysAddr, PhysAddr, bool))
        requires
            old(self).wf(2),
            old(self).walk(va@, 2) matches Some((_, l)) && l == 0,
            old(pool).wf(),
            old(pool).frames@.len() >= 1,
            old(meta).wf(),
            old(meta)@.contains_key(pte_pa((old(self).walk(va@, 2)->0).0)),
        ensures
            ({
                let old_pa = pte_pa((old(self).walk(va@, 2)->0).0);
                let new_pa = old(pool).frames@.last()@;
                let m1 = add_spec(old(meta)@, new_pa);
                &&& cow_result(*old(self), *final(self), va@, new_pa)
                &&& r.0@ == old_pa
                &&& r.1@ == new_pa
                &&& final(meta).wf()
                &&& final(meta)@ == remove_spec(m1, old_pa)
                &&& r.2 == (m1[old_pa] == 1)
                &&& !old(meta)@.contains_key(new_pa) ==> {
                    &&& new_pa != old_pa
                    &&& final(meta)@.contains_key(new_pa)
                    &&& final(meta)@[new_pa] == 1
                    &&& r.2 == (old(meta)@[old_pa] == 1)
                    &&& r.2 ==> !final(meta)@.contains_key(old_pa)
                    &&& !r.2 ==> final(meta)@[old_pa] == old(meta)@[old_pa] - 1
                }
                &&& final(pool).wf()
                &&& final(pool).frames@ == if r.2 {
                    old(pool).frames@.drop_last().push(r.0)
                } else {
                    old(pool).frames@.drop_last()
                }
            }),
    {
        let ghost e0 = (self.walk(va@, 2)->0).0;
        let old_pa = match self.walk_exec(va, 2) {
            Some((e, _)) => e.physical_address(),
            None => {
                return (PhysAddr(0), PhysAddr(0), false);
            },
        };
        proof {
            lemma_pte_pa_bounds(e0);
        }
        let new_pa = pool.take();
        let _ = crate::page_meta::add(meta, new_pa);
        self.change_leaf_at(va, Some(new_pa), PTE_W, 2);
        let freed = match crate::page_meta::remove(meta, old_pa) {
            Ok(left) => left == 0,
            Err(_) => false,
        };
        if freed {
            let _ = pool.add(old_pa);
        }
        (old_pa, new_pa, freed)
    }
}

impl PageTable {
    /// Where the walk finds no leaf for `va` and a 4 KiB mapping of it can be
    /// made, the entry that mapping writes over is not valid.
    pub proof fn lemma_unmapped_target(&self, va: u64, level: nat)
        requires
            self.wf(level),
            self.walk(va, level).is_none(),
            self.can_map(va, 0, level, true),
        ensures
            !pte_valid(self.target_entry(va, 0, level)),
        decreases self,
    {
        assert(0u64 & 1 == 0) by (bit_vector);
        let idx = vpn(va, level);
        match self.entries@[idx] {
            Slot::Table(_, c) => {
                if level > 0 {
                    c.lemma_unmapped_target(va, (level - 1) as nat);
                }
            },
            Slot::Entry(_) => {},
        }
    }
}

/// Every address follows its own path.
pub proof fn lemma_same_path_refl(va: u64, level: nat, target: nat)
    ensures
        same_path(va, va, level, target),
    decreases level,
{
    if level > target {
        lemma_same_path_refl(va, (level - 1) as nat, target);
    }
}

/// After copy-on-write at `va`, every address of that 4 KiB page reaches
/// the new frame, at its offset, through a writable leaf; every other
/// address translates as before.
pub proof fn lemma_cow_translation(pre: PageTable, post: PageTable, va: u64, pa: u64, va2: u64)
    requires
        pre.wf(2),
        pre.walk(va, 2) matches Some((_, l)) && l == 0,
        pa % 4096 == 0,
        pa_fits(pa),
        cow_result(pre, post, va, pa),
    ensures
        same_path(va2, va, 2, 0) ==> post.translate_spec(va2) == Some((pa + (va2 as nat) % 4096) as u64)
            && pte_writable((post.walk(va2, 2)->0).0),
        !same_path(va2, va, 2, 0) ==> post.translate_spec(va2) == pre.translate_spec(va2),
{
    let (e, l) = pre.walk(va, 2).unwrap();
    pre.lemma_walk_leaf(va, 2);
    lemma_changed_leaf(e, Some(pa), 4);
    assert(4u64 & 4 != 0) by (bit_vector);
    assert(post.walk(va2, 2) == (if same_path(va2, va, 2, l) {
        Some((changed_leaf(e, Some(pa), 4), l))
    } else {
        pre.walk(va2, 2)
    }));
}

/// The index `va` uses at `level`.
fn vpn_at(va: VirtAddr, level: u8) -> (r: usize)
    requires
        level <= 2,
    ensures
        r == vpn(va@, level as nat),
        r < 512,
{
    if level == 2 {
        vpn_2(va)
    } else if level == 1 {
        vpn_1(va)
    } else {
        vpn_0(va)
    }
}

/// A user leaf as fork leaves it in both tables: a writable one loses its
/// write permission, so that the first write copies the page.
pub open spec fn forked_leaf(e: u64) -> u64 {
    if pte_user(e) && pte_writable(e) {
        e & !4u64
    } else {
        e
    }
}

/// An entry as fork leaves it: only valid leaves change.
pub open spec fn forked_entry(e: u64) -> u64 {
    if pte_valid(e) && pte_leaf(e) {
        forked_leaf(e)
    } else {
        e
    }
}

/// A walk's result after fork.
pub open spec fn fork_walk(w: Option<(u64, nat)>) -> Option<(u64, nat)> {
    match w {
        Some((e, l)) => Some((forked_leaf(e), l)),
        None => None,
    }
}

impl PageTable {
    /// Every writable leaf is also readable or executable, as RISC-V asks.
    pub open spec fn leaf_ok(&self, level: nat) -> bool
        decreases self,
    {
        forall|i: int|
            0 <= i < self.entries@.len() ==> match #[trigger] self.entries@[i] {
                Slot::Entry(e) => pte_valid(e@) && pte_leaf(e@) && pte_writable(e@) ==> e@ & 10 != 0,
                Slot::Table(_, c) => level > 0 ==> c.leaf_ok((level - 1) as nat),
            }
    }

    /// Tables in the tree rooted here, this one included.
    pub open spec fn table_count(&self) -> nat
        decreases self, self.entries@.len() + 1,
    {
        1 + self.tables_upto(self.entries@.len() as int)
    }

    /// Tables under the first `i` slots.
    pub open spec fn tables_upto(&self, i: int) -> nat
        decreases self, i,
    {
        if i <= 0 || i > self.entries@.len() {
            0
        } else {
            self.tables_upto(i - 1) + match self.entries@[i - 1] {
                Slot::Table(_, c) => c.table_count(),
                Slot::Entry(_) => 0,
            }
        }
    }

    /// The frames of the user leaves of the tree rooted here, one per leaf,
    /// in the order of the slots.
    pub open spec fn user_leaves(&self) -> Seq<u64>
        decreases self, self.entries@.len() + 1,
    {
        self.user_leaves_upto(self.entries@.len() as int)
    }

    /// The frames of the user leaves under the first `i` slots.
    pub open spec fn user_leaves_upto(&self, i: int) -> Seq<u64>
        decreases self, i,
    {
        if i <= 0 || i > self.entries@.len() {
            Seq::empty()
        } else {
            self.user_leaves_upto(i - 1) + match self.entries@[i - 1] {
                Slot::Table(_, c) => c.user_leaves(),
                Slot::Entry(e) => if pte_valid(e@) && pte_leaf(e@) && pte_user(e@) {
                    seq![pte_pa(e@)]
                } else {
                    Seq::empty()
                },
            }
        }
    }

    proof fn lemma_tables_upto_mono(&self, i: int, j: int)
        requires
            0 <= i <= j <= self.entries@.len(),
        ensures
            self.tables_upto(i) <= self.tables_upto(j),
        decreases j - i,
    {
        if i < j {
            self.lemma_tables_upto_mono(i, j - 1);
        }
    }
}

/// The slot `old` after fork at `level` is `new` in the forked table and
/// `copy` in its copy.
pub open spec fn forked_slot(old: Slot, new: Slot, copy: Slot, level: nat) -> bool {
    match old {
        Slot::Entry(e) => new == Slot::Entry(PageTableEntry(forked_entry(e@))) && copy == new,
        Slot::Table(e, c) => {
            &&& new matches Slot::Table(ne, nc) && ne == e && nc.wf((level - 1) as nat) && (forall|va: u64|
                #[trigger] nc.walk(va, (level - 1) as nat) == fork_walk(c.walk(va, (level - 1) as nat)))
            &&& copy matches Slot::Table(ce, cc) && pte_is_table(ce@) && cc.wf((level - 1) as nat) && (
            forall|va: u64|
                #[trigger] cc.walk(va, (level - 1) as nat) == fork_walk(c.walk(va, (level - 1) as nat)))
        },
    }
}

/// A forked leaf is still a valid leaf at the same frame, with the same
/// user bit, and a user leaf is no longer writable.
pub proof fn lemma_forked_leaf(e: u64)
    requires
        pte_valid(e),
        pte_leaf(e),
        pte_writable(e) ==> e & 10 != 0,
    ensures
        pte_valid(forked_leaf(e)),
        pte_leaf(forked_leaf(e)),
        pte_pa(forked_leaf(e)) == pte_pa(e),
        pte_user(forked_leaf(e)) == pte_user(e),
        pte_user(e) ==> !pte_writable(forked_leaf(e)),
        !pte_user(e) ==> forked_leaf(e) == e,
{
    crate::pte::lemma_clear_write(e);
}

impl PageTable {
    fn fork_at(&mut self, level: u8, pool: &mut FramePool, meta: &mut PageMetadataTable) -> (r: (
        PageTable,
        PhysAddr,
    ))
        requires
            level <= 2,
            old(self).wf(level as nat),
            old(self).leaf_ok(level as nat),
            old(pool).wf(),
            old(pool).frames@.len() >= old(self).table_count(),
            old(meta).wf(),
        ensures
            final(self).wf(level as nat),
            r.0.wf(level as nat),
            forall|va: u64| #[trigger] final(self).walk(va, level as nat) == fork_walk(old(self).walk(va, level as nat)),
            forall|va: u64| #[trigger] r.0.walk(va, level as nat) == fork_walk(old(self).walk(va, level as nat)),
            r.1 == old(pool).frames@.last(),
            final(pool).wf(),
            final(pool).frames@ == old(pool).frames@.take(old(pool).frames@.len() - old(self).table_count()),
            final(meta).wf(),
            final(meta)@ == share_all(old(meta)@, old(self).user_leaves()),
        decreases level,
    {
        let ghost pre = *self;
        let ghost pool0 = pool.frames@;
        let ghost meta0 = meta@;
        let ghost lvl = level as nat;
        proof {
            pre.lemma_tables_upto_mono(0, 512);
            assert(pre.tables_upto(0) == 0);
            assert(pre.user_leaves_upto(0) =~= Seq::<u64>::empty());
            assert(pool0.take(pool0.len() - 1) =~= pool0.drop_last());
        }
        let frame = pool.take();
        let mut copy: Vec<Slot> = Vec::new();
        let mut i: usize = 0;
        while i < 512
            invariant
                level <= 2,
                lvl == level as nat,
                pre.wf(lvl),
                pre.leaf_ok(lvl),
                self.entries@.len() == 512,
                forall|j: int| i <= j < 512 ==> self.entries@[j] == pre.entries@[j],
                copy@.len() == i,
                i <= 512,
                forall|j: int| 0 <= j < i ==> forked_slot(pre.entries@[j], #[trigger] self.entries@[j], copy@[j], lvl),
                pool.wf(),
                pool0.len() >= pre.table_count(),
                pool.frames@ == pool0.take(pool0.len() - 1 - pre.tables_upto(i as int)),
                meta.wf(),
                meta@ == share_all(meta0, pre.user_leaves_upto(i as int)),
            decreases 512 - i,
        {
            proof {
                pre.lemma_tables_upto_mono(i + 1, 512);
            }
            let mut slot = Slot::Entry(PageTableEntry(0));
            std::mem::swap(&mut slot, &mut self.entries[i]);
            match slot {
                Slot::Entry(e) => {
                    let ne = if e.is_valid() && e.is_leaf() {
                        if e.is_user() {
                            let _ = crate::page_meta::share(meta, e.physical_address());
                            proof {
                                let u = pre.user_leaves_upto(i as int);
                                assert(pre.user_leaves_upto(i + 1) =~= u.push(pte_pa(e@)));
                                assert(u.push(pte_pa(e@)).drop_last() =~= u);
                            }
                            if e.is_writable() {
                                e.unset_flags(PTE_W)
                            } else {
                                e
                            }
                        } else {
                            proof {
                                assert(pre.user_leaves_upto(i + 1) =~= pre.user_leaves_upto(i as int));
                            }
                            e
                        }
                    } else {
                        proof {
                            assert(pre.user_leaves_upto(i + 1) =~= pre.user_leaves_upto(i as int));
                        }
                        e
                    };
                    assert(ne@ == forked_entry(e@));
                    self.entries.set(i, Slot::Entry(ne));
                    copy.push(Slot::Entry(ne));
                    proof {
                        assert(pre.tables_upto(i + 1) == pre.tables_upto(i as int));
                    }
                },
                Slot::Table(e, mut c) => {
                    let ghost c0 = *c;
                    assert(pre.entries@[i as int] == Slot::Table(e, c));
                    assert(pre.tables_upto(i + 1) == pre.tables_upto(i as int) + c0.table_count());
                    let (child_copy, child_frame) = (&mut *c).fork_at(level - 1, pool, meta);
                    proof {
                        lemma_share_all_concat(meta0, pre.user_leaves_upto(i as int), c0.user_leaves());
                        assert(pre.user_leaves_upto(i + 1) == pre.user_leaves_upto(i as int) + c0.user_leaves());
                        assert(pool.frames@ =~= pool0.take(pool0.len() - 1 - pre.tables_upto(i + 1)));
                        crate::pte::lemma_pa_of_set_pa(e@, child_frame@);
                        crate::pte::lemma_low_bits_decide(pte_set_pa(e@, child_frame@), e@);
                    }
                    let ce = e.set_physical_address(child_frame);
                    self.entries.set(i, Slot::Table(e, c));
                    copy.push(Slot::Table(ce, Box::new(child_copy)));
                },
            }
            proof {
                assert forall|k: int| 0 <= k < i + 1 implies forked_slot(pre.entries@[k], #[trigger] self.entries@[k], copy@[k], lvl) by {
                    if k < i {
                    }
                }
            }
            i += 1;
        }
        let forked = PageTable { entries: copy };
        proof {
            let post = *self;
            assert(pre.entries@.len() == 512);
            assert(pre.tables_upto(512) + 1 == pre.table_count());
            assert(pre.user_leaves_upto(512) == pre.user_leaves());
            assert(forked.entries@ == copy@);
            assert forall|k: int| 0 <= k < 512 implies forked_slot(
                pre.entries@[k],
                #[trigger] post.entries@[k],
                forked.entries@[k],
                lvl,
            ) by {
                assert(forked_slot(pre.entries@[k], self.entries@[k], copy@[k], lvl));
            }
            assert forall|k: int| 0 <= k < 512 implies match #[trigger] post.entries@[k] {
                Slot::Entry(e) => !(lvl > 0 && pte_is_table(e@)),
                Slot::Table(e, c) => lvl > 0 && pte_is_table(e@) && c.wf((lvl - 1) as nat),
            } by {
                assert(forked_slot(pre.entries@[k], post.entries@[k], forked.entries@[k], lvl));
                match pre.entries@[k] {
                    Slot::Entry(e) => {
                        if pte_valid(e@) && pte_leaf(e@) {
                            lemma_forked_leaf(e@);
                        }
                    },
                    Slot::Table(e, c) => {},
                }
            }
            assert forall|k: int| 0 <= k < 512 implies match #[trigger] forked.entries@[k] {
                Slot::Entry(e) => !(lvl > 0 && pte_is_table(e@)),
                Slot::Table(e, c) => lvl > 0 && pte_is_table(e@) && c.wf((lvl - 1) as nat),
            } by {
                assert(forked_slot(pre.entries@[k], post.entries@[k], forked.entries@[k], lvl));
                match pre.entries@[k] {
                    Slot::Entry(e) => {
                        if pte_valid(e@) && pte_leaf(e@) {
                            lemma_forked_leaf(e@);
                        }
                    },
                    Slot::Table(e, c) => {},
                }
            }
            assert(post.wf(lvl));
            assert(forked.wf(lvl));
            assert forall|va: u64| #[trigger] post.walk(va, lvl) == fork_walk(pre.walk(va, lvl)) by {
                lemma_vpn_bound(va, lvl);
                let k = vpn(va, lvl);
                assert(forked_slot(pre.entries@[k], post.entries@[k], forked.entries@[k], lvl));
                assert(post.entries@.len() == 512);
                match pre.entries@[k] {
                    Slot::Entry(e) => {
                        assert(post.entries@[k] == Slot::Entry(PageTableEntry(forked_entry(e@))));
                        if pte_valid(e@) && pte_leaf(e@) {
                            lemma_forked_leaf(e@);
                            assert(pre.walk(va, lvl) == Some((e@, lvl)));
                        } else {
                            assert(pre.walk(va, lvl) is None);
                        }
                    },
                    Slot::Table(e, c) => {
                        match post.entries@[k] {
                            Slot::Table(ne, nc) => {
                                assert(nc.walk(va, (lvl - 1) as nat) == fork_walk(c.walk(va, (lvl - 1) as nat)));
                                assert(post.walk(va, lvl) == nc.walk(va, (lvl - 1) as nat));
                            },
                            Slot::Entry(_) => {},
                        }
                    },
                }
            }
            assert forall|va: u64| #[trigger] forked.walk(va, lvl) == fork_walk(pre.walk(va, lvl)) by {
                lemma_vpn_bound(va, lvl);
                let k = vpn(va, lvl);
                assert(forked_slot(pre.entries@[k], post.entries@[k], forked.entries@[k], lvl));
                assert(forked.entries@.len() == 512);
                match pre.entries@[k] {
                    Slot::Entry(e) => {
                        assert(forked.entries@[k] == post.entries@[k]);
                        assert(post.walk(va, lvl) == fork_walk(pre.walk(va, lvl)));
                    },
                    Slot::Table(e, c) => {
                        match forked.entries@[k] {
                            Slot::Table(ce, cc) => {
                                assert(cc.walk(va, (lvl - 1) as nat) == fork_walk(c.walk(va, (lvl - 1) as nat)));
                                assert(forked.walk(va, lvl) == cc.walk(va, (lvl - 1) as nat));
                            },
                            Slot::Entry(_) => {},
                        }
                    },
                }
            }
        }
        (forked, frame)
    }

    /// Forks the address space: answers a copy of the tree (and the frame of
    /// its root) in which every table has a frame of its own from `pool`, in
    /// the order the tables are met, and both trees lead every address to the
    /// same leaves. Each user leaf's frame gets one more reference in `meta`
    /// (see [`share`](crate::page_meta::share)), so the pages are shared by
    /// reference count, and, in both trees, user leaves lose their write
    /// permission so that the first write to one copies it.
    pub fn fork(&mut self, pool: &mut FramePool, meta: &mut PageMetadataTable) -> (r: (PageTable, PhysAddr))
        requires
            old(self).wf(2),
            old(self).leaf_ok(2),
            old(pool).wf(),
            old(pool).frames@.len() >= old(self).table_count(),
            old(meta).wf(),
        ensures
            final(self).wf(2),
            r.0.wf(2),
            forall|va: u64| #[trigger] final(self).walk(va, 2) == fork_walk(old(self).walk(va, 2)),
            forall|va: u64| #[trigger] r.0.walk(va, 2) == fork_walk(old(self).walk(va, 2)),
            r.1 == old(pool).frames@.last(),
            final(pool).wf(),
            final(pool).frames@ == old(pool).frames@.take(old(pool).frames@.len() - old(self).table_count()),
            final(meta).wf(),
            final(meta)@ == share_all(old(meta)@, old(self).user_leaves()),
    {
        self.fork_at(2, pool, meta)
    }
}

/// Law: fork shares the user pages by reference count: a frame that `n`
/// user leaves of the tree map has `n` references more afterwards, one not
/// counted before starting from none, as long as its count fits a `u16`;
/// a frame no user leaf maps keeps its count.
pub proof fn lemma_fork_counts(pt: PageTable, m0: Map<u64, u16>, m1: Map<u64, u16>, p: u64)
    requires
        m1 == share_all(m0, pt.user_leaves()),
        count_or_zero(m0, p) + occurrences(pt.user_leaves(), p) <= u16::MAX,
    ensures
        count_or_zero(m1, p) == count_or_zero(m0, p) + occurrences(pt.user_leaves(), p),
        m1.contains_key(p) == (m0.contains_key(p) || occurrences(pt.user_leaves(), p) > 0),
{
    crate::page_meta::lemma_share_all_counts(m0, pt.user_leaves(), p);
}

/// After fork, each tree translates every address as the tree did before,
/// and no user page is writable in it.
pub proof fn lemma_fork_translation(pre: PageTable, post: PageTable, va: u64)
    requires
        pre.wf(2),
        pre.leaf_ok(2),
        forall|v: u64| #[trigger] post.walk(v, 2) == fork_walk(pre.walk(v, 2)),
    ensures
        post.translate_spec(va) == pre.translate_spec(va),
        post.walk(va, 2) matches Some((e, _)) ==> (pte_user(e) ==> !pte_writable(e)),
{
    assert(post.walk(va, 2) == fork_walk(pre.walk(va, 2)));
    match pre.walk(va, 2) {
        Some((e, l)) => {
            pre.lemma_walk_leaf(va, 2);
            pre.lemma_leaf_ok_walk(va, 2);
            lemma_forked_leaf(e);
        },
        None => {},
    }
}

impl PageTable {
    /// The leaf a walk finds obeys [`PageTable::leaf_ok`].
    pub proof fn lemma_leaf_ok_walk(&self, va: u64, level: nat)
        requires
            self.wf(level),
            self.leaf_ok(level),
            self.walk(va, level) is Some,
        ensures
            pte_writable((self.walk(va, level)->0).0) ==> ((self.walk(va, level)->0).0) & 10 != 0,
        decreases self,
    {
        lemma_vpn_bound(va, level);
        match self.entries@[vpn(va, level)] {
            Slot::Table(_, c) => {
                if level > 0 {
                    c.lemma_leaf_ok_walk(va, (level - 1) as nat);
                }
            },
            Slot::Entry(_) => {},
        }
    }
}

impl PageTable {
    /// The frames of the tables of the tree rooted here, whose own frame is
    /// `root`: each subtree's in slot order, then `root`.
    pub open spec fn table_frames(&self, root: u64) -> Seq<PhysAddr>
        decreases self, self.entries@.len() + 1,
    {
        self.frames_upto(self.entries@.len() as int).push(PhysAddr(root))
    }

    /// The frames of the subtrees under the first `i` slots.
    pub open spec fn frames_upto(&self, i: int) -> Seq<PhysAddr>
        decreases self, i,
    {
        if i <= 0 || i > self.entries@.len() {
            Seq::empty()
        } else {
            self.frames_upto(i - 1) + match self.entries@[i - 1] {
                Slot::Table(e, c) => c.table_frames(pte_pa(e@)),
                Slot::Entry(_) => Seq::empty(),
            }
        }
    }

    /// One frame per table.
    pub proof fn lemma_table_frames_len(&self, root: u64)
        ensures
            self.table_frames(root).len() == self.table_count(),
        decreases self, self.entries@.len() + 1,
    {
        self.lemma_frames_upto_len(self.entries@.len() as int);
    }

    pub proof fn lemma_frames_upto_len(&self, i: int)
        ensures
            self.frames_upto(i).len() == self.tables_upto(i),
        decreases self, i,
    {
        if 0 < i <= self.entries@.len() {
            self.lemma_frames_upto_len(i - 1);
            match self.entries@[i - 1] {
                Slot::Table(e, c) => {
                    c.lemma_table_frames_len(pte_pa(e@));
                },
                Slot::Entry(_) => {},
            }
        }
    }

    fn free_at(self, root: PhysAddr, level: u8, pool: &mut FramePool)
        requires
            level <= 2,
            self.wf(level as nat),
            root@ % 4096 == 0,
            pa_fits(root@),
            old(pool).wf(),
        ensures
            final(pool).wf(),
            final(pool).frames@ == old(pool).frames@ + self.table_frames(root@),
        decreases level,
    {
        let ghost pre = self;
        let ghost pool0 = pool.frames@;
        let mut entries = self.entries;
        let mut i: usize = 0;
        proof {
            assert(pool0 + pre.frames_upto(0) =~= pool0);
        }
        while i < 512
            invariant
                level <= 2,
                pre.wf(level as nat),
                entries@.len() == 512,
                pre.entries@.len() == 512,
                forall|j: int| i <= j < 512 ==> entries@[j] == pre.entries@[j],
                i <= 512,
                pool.wf(),
                pool.frames@ == pool0 + pre.frames_upto(i as int),
            decreases 512 - i,
        {
            let mut slot = Slot::Entry(PageTableEntry(0));
            std::mem::swap(&mut slot, &mut entries[i]);
            match slot {
                Slot::Entry(_) => {
                    proof {
                        assert(pre.frames_upto(i + 1) =~= pre.frames_upto(i as int));
                    }
                },
                Slot::Table(e, c) => {
                    proof {
                        assert(pre.entries@[i as int] == Slot::Table(e, c));
                        lemma_pte_pa_bounds(e@);
                    }
                    let child_frame = e.physical_address();
                    (*c).free_at(child_frame, level - 1, pool);
                    proof {
                        assert(pool.frames@ =~= pool0 + pre.frames_upto(i + 1));
                    }
                },
            }
            i += 1;
        }
        let _ = pool.add(root);
        proof {
            assert(pool.frames@ =~= pool0 + pre.table_frames(root@));
        }
    }

    /// Frees the tree: every table's frame goes back to `pool`, the
    /// subtables' first, in slot order, and the root's (`root_pt`) last.
    pub fn traverse_free(self, root_pt: PhysAddr, pool: &mut FramePool)
        requires
            self.wf(2),
            root_pt@ % 4096 == 0,
            pa_fits(root_pt@),
            old(pool).wf(),
        ensures
            final(pool).wf(),
            final(pool).frames@ == old(pool).frames@ + self.table_frames(root_pt@),
            final(pool).frames@.len() == old(pool).frames@.len() + self.table_count(),
    {
        proof {
            self.lemma_table_frames_len(root_pt@);
        }
        self.free_at(root_pt, 2, pool);
    }
}

/// Slot `s` of a table at `level` obeys [`PageTable::leaf_ok`].
pub open spec fn slot_leaf_ok(s: Slot, level: nat) -> bool {
    match s {
        Slot::Entry(e) => pte_valid(e@) && pte_leaf(e@) && pte_writable(e@) ==> e@ & 10 != 0,
        Slot::Table(_, c) => level > 0 ==> c.leaf_ok((level - 1) as nat),
    }
}

impl PageTable {
    fn check_leaves(&self, level: u8) -> (r: bool)
        requires
            level <= 2,
            self.wf(level as nat),
        ensures
            r == self.leaf_ok(level as nat),
        decreases level,
    {
        let mut i: usize = 0;
        while i < 512
            invariant
                level <= 2,
                self.wf(level as nat),
                i <= 512,
                forall|j: int| 0 <= j < i ==> slot_leaf_ok(#[trigger] self.entries@[j], level as nat),
            decreases 512 - i,
        {
            match &self.entries[i] {
                Slot::Entry(e) => {
                    if e.is_valid() && e.is_leaf() && e.is_writable() && e.0 & 10 == 0 {
                        assert(!slot_leaf_ok(self.entries@[i as int], level as nat));
                        return false;
                    }
                },
                Slot::Table(_, c) => {
                    if level > 0 && !c.check_leaves(level - 1) {
                        assert(!slot_leaf_ok(self.entries@[i as int], level as nat));
                        return false;
                    }
                },
            }
            assert(slot_leaf_ok(self.entries@[i as int], level as nat));
            i += 1;
        }
        assert forall|j: int| 0 <= j < self.entries@.len() implies match #[trigger] self.entries@[j] {
            Slot::Entry(e) => pte_valid(e@) && pte_leaf(e@) && pte_writable(e@) ==> e@ & 10 != 0,
            Slot::Table(_, c) => level > 0 ==> c.leaf_ok((level - 1) as nat),
        } by {
            assert(slot_leaf_ok(self.entries@[j], level as nat));
        }
        true
    }

    /// Whether every writable leaf of the tree is also readable or
    /// executable, which [`PageTable::fork`] needs.
    pub fn writable_leaves_readable(&self) -> (r: bool)
        requires
            self.wf(2),
        ensures
            r == self.leaf_ok(2),
    {
        self.check_leaves(2)
    }
}

} // verus!
