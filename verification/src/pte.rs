//! Sv39 page-table entries, permission flags and virtual page numbers.
use vstd::prelude::*;
use crate::addr::{PhysAddr, VirtAddr};

verus! {

/// Permission and status bits of a page-table entry.
pub type PteFlags = u8;

pub const PTE_V: u8 = 1;
pub const PTE_R: u8 = 2;
pub const PTE_W: u8 = 4;
pub const PTE_X: u8 = 8;
pub const PTE_U: u8 = 16;
pub const PTE_G: u8 = 32;
pub const PTE_A: u8 = 64;
pub const PTE_D: u8 = 128;
pub const PTE_RW: u8 = 6;
pub const PTE_RWX: u8 = 14;

/// Mask of the 44-bit physical page number inside an entry (after the shift).
pub const PPN_MASK: u64 = 0xfff_ffff_ffff;

/// Whether every bit of `other` is set in `flags`.
pub fn flags_contain(flags: PteFlags, other: PteFlags) -> (r: bool)
    ensures
        r == (flags & other == other),
{
    flags & other == other
}

/// An Sv39 physical address: 4 KiB aligned frames below 2^56.
pub open spec fn pa_fits(pa: u64) -> bool {
    pa < 0x100_0000_0000_0000
}

pub open spec fn pte_valid(e: u64) -> bool {
    e & 1 != 0
}

pub open spec fn pte_leaf(e: u64) -> bool {
    e & 14 != 0
}

pub open spec fn pte_user(e: u64) -> bool {
    e & 16 != 0
}

pub open spec fn pte_writable(e: u64) -> bool {
    e & 4 != 0
}

pub open spec fn pte_pa(e: u64) -> u64 {
    ((e >> 10u64) & 0xfff_ffff_ffffu64) << 12u64
}

pub open spec fn pte_set_pa(e: u64, pa: u64) -> u64 {
    (e & !(0xfff_ffff_ffffu64 << 10u64)) | (((pa >> 12u64) & 0xfff_ffff_ffffu64) << 10u64)
}

/// A valid entry that points to a next-level table rather than a page.
pub open spec fn pte_is_table(e: u64) -> bool {
    pte_valid(e) && !pte_leaf(e)
}

/// Bits that a mapping writes into a leaf: the permissions plus V, A and D.
pub open spec fn leaf_bits(flags: u8) -> u64 {
    (flags | PTE_V | PTE_A | PTE_D) as u64
}

/// The flag bits of an entry: V, R, W, X, U, G, A and D.
pub open spec fn pte_flags(e: u64) -> u64 {
    e & 0xff
}

/// Adding flag bits `b` to an entry adds them to its flag bits and keeps its
/// address.
pub proof fn lemma_flags_or(e: u64, b: u64)
    requires
        b <= 0xff,
    ensures
        pte_flags(e | b) == pte_flags(e) | b,
        (e | b) & b == b,
        pte_pa(e | b) == pte_pa(e),
        e & b == b ==> pte_flags(e) & b == b,
{
    assert(((e | b) & 0xff) == ((e & 0xff) | b) && (e | b) & b == b && pte_pa(e | b) == pte_pa(e)
        && (e & b == b ==> (e & 0xff) & b == b)) by (bit_vector)
        requires
            b <= 0xff,
    ;
}

/// An empty entry given frame `pa` and flag bits `b` has exactly those flag
/// bits.
pub proof fn lemma_fresh_flags(pa: u64, b: u64)
    requires
        b <= 0xff,
    ensures
        pte_flags(pte_set_pa(0, pa) | b) == b,
{
    assert(((((0u64 & !(0xfff_ffff_ffffu64 << 10u64)) | (((pa >> 12u64) & 0xfff_ffff_ffffu64) << 10u64))
        | b) & 0xff) == b) by (bit_vector)
        requires
            b <= 0xff,
    ;
}

pub proof fn lemma_pa_of_set_pa(e: u64, pa: u64)
    requires
        pa % 4096 == 0,
        pa_fits(pa),
    ensures
        pte_pa(pte_set_pa(e, pa)) == pa,
        pte_set_pa(e, pa) & 0x3ff == e & 0x3ff,
{
    assert(pte_pa(pte_set_pa(e, pa)) == pa && pte_set_pa(e, pa) & 0x3ff == e & 0x3ff) by (bit_vector)
        requires
            pa % 4096 == 0,
            pa < 0x100_0000_0000_0000u64,
    ;
}

/// The flag predicates only read the low ten bits.
pub proof fn lemma_low_bits_decide(x: u64, y: u64)
    requires
        x & 0x3ff == y & 0x3ff,
    ensures
        pte_valid(x) == pte_valid(y),
        pte_leaf(x) == pte_leaf(y),
        pte_user(x) == pte_user(y),
        pte_writable(x) == pte_writable(y),
{
    assert((x & 1 != 0) == (y & 1 != 0) && (x & 14 != 0) == (y & 14 != 0) && (x & 16 != 0) == (
    y & 16 != 0) && (x & 4 != 0) == (y & 4 != 0)) by (bit_vector)
        requires
            x & 0x3ff == y & 0x3ff,
    ;
}

/// Setting flag bits keeps the physical address and adds the flags.
pub proof fn lemma_or_flags(e: u64, f: u64)
    requires
        f <= 0xff,
    ensures
        pte_pa(e | f) == pte_pa(e),
        pte_valid(e | f) == (pte_valid(e) || f & 1 != 0),
        pte_leaf(e | f) == (pte_leaf(e) || f & 14 != 0),
        pte_user(e | f) == (pte_user(e) || f & 16 != 0),
        pte_writable(e | f) == (pte_writable(e) || f & 4 != 0),
{
    assert(pte_pa(e | f) == pte_pa(e) && ((e | f) & 1 != 0) == ((e & 1 != 0) || f & 1 != 0) && ((e
        | f) & 14 != 0) == ((e & 14 != 0) || f & 14 != 0) && ((e | f) & 16 != 0) == ((e & 16 != 0)
        || f & 16 != 0) && ((e | f) & 4 != 0) == ((e & 4 != 0) || f & 4 != 0)) by (bit_vector)
        requires
            f <= 0xff,
    ;
}

/// Clearing the write bit keeps the address and every other flag.
pub proof fn lemma_clear_write(e: u64)
    ensures
        pte_pa(e & !4u64) == pte_pa(e),
        pte_valid(e & !4u64) == pte_valid(e),
        pte_user(e & !4u64) == pte_user(e),
        !pte_writable(e & !4u64),
        pte_leaf(e & !4u64) == ((e & 10) != 0),
{
    assert(pte_pa(e & !4u64) == pte_pa(e) && ((e & !4u64) & 1 != 0) == (e & 1 != 0) && ((e & !4u64)
        & 16 != 0) == (e & 16 != 0) && !((e & !4u64) & 4 != 0) && (((e & !4u64) & 14) != 0) == ((e
        & 10) != 0)) by (bit_vector);
}

/// The largest addresses an entry can hold still leave room for an offset.
pub proof fn lemma_pte_pa_bounds(e: u64)
    ensures
        pte_pa(e) % 4096 == 0,
        pa_fits(pte_pa(e)),
{
    assert(pte_pa(e) % 4096 == 0 && pte_pa(e) < 0x100_0000_0000_0000u64) by (bit_vector);
}

/// An Sv39 page-table entry.
#[derive(Copy, Clone, Debug, PartialEq, Eq, Structural)]
pub struct PageTableEntry(pub u64);

impl View for PageTableEntry {
    type V = u64;

    open spec fn view(&self) -> u64 {
        self.0
    }
}

impl PageTableEntry {
    /// The all-zero, invalid entry.
    pub fn empty() -> (r: Self)
        ensures
            r@ == 0,
    {
        PageTableEntry(0)
    }

    /// An entry with only the valid bit set.
    pub fn new_valid() -> (r: Self)
        ensures
            r@ == 1,
    {
        PageTableEntry(1)
    }

    pub fn is_valid(&self) -> (r: bool)
        ensures
            r == pte_valid(self@),
    {
        self.0 & 1 != 0
    }

    /// Whether the entry maps a page (some of R, W, X set).
    pub fn is_leaf(&self) -> (r: bool)
        ensures
            r == pte_leaf(self@),
    {
        self.0 & 14 != 0
    }

    pub fn is_user(&self) -> (r: bool)
        ensures
            r == pte_user(self@),
    {
        self.0 & 16 != 0
    }

    pub fn is_writable(&self) -> (r: bool)
        ensures
            r == pte_writable(self@),
    {
        self.0 & 4 != 0
    }

    /// The physical address the entry points to.
    pub fn physical_address(&self) -> (r: PhysAddr)
        ensures
            r@ == pte_pa(self@),
    {
        PhysAddr(((self.0 >> 10u64) & PPN_MASK) << 12u64)
    }

    /// The entry with its physical page number replaced by that of `pa`.
    pub fn set_physical_address(&self, pa: PhysAddr) -> (r: Self)
        ensures
            r@ == pte_set_pa(self@, pa@),
    {
        PageTableEntry((self.0 & !(PPN_MASK << 10u64)) | (((pa.0 >> 12u64) & PPN_MASK) << 10u64))
    }

    /// The entry with `flags` added.
    pub fn set_flags(&self, flags: PteFlags) -> (r: Self)
        ensures
            r@ == self@ | (flags as u64),
    {
        PageTableEntry(self.0 | (flags as u64))
    }

    /// The entry with `flags` removed.
    pub fn unset_flags(&self, flags: PteFlags) -> (r: Self)
        ensures
            r@ == self@ & !(flags as u64),
    {
        PageTableEntry(self.0 & !(flags as u64))
    }
}

/// The page-table index that `va` uses at `level` (2 is the root).
pub open spec fn vpn(va: u64, level: nat) -> int {
    if level == 2 {
        ((va >> 30u64) & 0x1ffu64) as int
    } else if level == 1 {
        ((va >> 21u64) & 0x1ffu64) as int
    } else {
        ((va >> 12u64) & 0x1ffu64) as int
    }
}

pub proof fn lemma_vpn_bound(va: u64, level: nat)
    ensures
        0 <= vpn(va, level) < 512,
{
    assert((va >> 30u64) & 0x1ffu64 < 512 && (va >> 21u64) & 0x1ffu64 < 512 && (va >> 12u64)
        & 0x1ffu64 < 512) by (bit_vector);
}

/// Index into the root table.
pub fn vpn_2(va: VirtAddr) -> (r: usize)
    ensures
        r == vpn(va@, 2),
        r < 512,
{
    proof {
        lemma_vpn_bound(va@, 2);
    }
    ((va.0 >> 30u64) & 0x1ffu64) as usize
}

/// Index into a second-level table.
pub fn vpn_1(va: VirtAddr) -> (r: usize)
    ensures
        r == vpn(va@, 1),
        r < 512,
{
    proof {
        lemma_vpn_bound(va@, 1);
    }
    ((va.0 >> 21u64) & 0x1ffu64) as usize
}

/// Index into a last-level table.
pub fn vpn_0(va: VirtAddr) -> (r: usize)
    ensures
        r == vpn(va@, 0),
        r < 512,
{
    proof {
        lemma_vpn_bound(va@, 0);
    }
    ((va.0 >> 12u64) & 0x1ffu64) as usize
}

} // verus!
