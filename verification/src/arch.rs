//! Architecture facts the rest of the kernel relies on.
use vstd::prelude::*;
use crate::addr::VirtAddr;

verus! {

/// Sizes of the pages an Sv39 page table can map.
#[derive(Copy, Clone, Debug, PartialEq, Eq, Structural)]
pub enum PageSize {
    Size4K,
    Size2M,
    Size1G,
}

/// Bytes covered by one entry at page-table `level` (0 maps 4 KiB pages).
pub open spec fn level_bytes(level: nat) -> nat {
    if level == 0 {
        4096
    } else if level == 1 {
        0x20_0000
    } else {
        0x4000_0000
    }
}

/// The page-table level at which a page of size `s` is mapped.
pub open spec fn page_level(s: PageSize) -> nat {
    match s {
        PageSize::Size4K => 0,
        PageSize::Size2M => 1,
        PageSize::Size1G => 2,
    }
}

impl PageSize {
    /// Size of the page in bytes.
    pub fn bytes(self) -> (r: u64)
        ensures
            r == level_bytes(page_level(self)),
    {
        match self {
            PageSize::Size4K => 4 * 1024,
            PageSize::Size2M => 2 * 1024 * 1024,
            PageSize::Size1G => 1024 * 1024 * 1024,
        }
    }

    /// The page-table level at which pages of this size are mapped.
    pub fn level(self) -> (r: u8)
        ensures
            r == page_level(self),
    {
        match self {
            PageSize::Size4K => 0,
            PageSize::Size2M => 1,
            PageSize::Size1G => 2,
        }
    }
}

/// The RISC-V machine the kernel runs on.
pub struct Riscv;

/// Ticks of the machine timer per second.
pub const CPU_HERTZ: u64 = 10_000_000;

/// Timer ticks that elapse in `nanos` nanoseconds.
pub open spec fn nanos_to_ticks_spec(nanos: int) -> int {
    nanos * CPU_HERTZ / 1_000_000_000
}

impl Riscv {
    /// Converts nanoseconds into timer ticks (rounding down).
    pub fn nanos_to_ticks(nanos: u64) -> (r: u64)
        requires
            nanos * CPU_HERTZ <= u64::MAX,
        ensures
            r == nanos_to_ticks_spec(nanos as int),
    {
        nanos * CPU_HERTZ / 1_000_000_000
    }
}

/// Callee-saved registers stored across a context switch.
#[derive(Copy, Clone, Debug, PartialEq, Eq, Structural)]
pub struct Context {
    pub ra: u64,
    pub sp: u64,
    pub s0: u64,
    pub s1: u64,
    pub s2: u64,
    pub s3: u64,
    pub s4: u64,
    pub s5: u64,
    pub s6: u64,
    pub s7: u64,
    pub s8: u64,
    pub s9: u64,
    pub s10: u64,
    pub s11: u64,
}

impl Context {
    /// A context that resumes at `entry` on the stack `kernel_sp`, with every
    /// other register zero.
    pub fn initialize(entry: VirtAddr, kernel_sp: VirtAddr) -> (r: Self)
        ensures
            r.ra == entry@,
            r.sp == kernel_sp@,
            r.s0 == 0 && r.s1 == 0 && r.s2 == 0 && r.s3 == 0 && r.s4 == 0 && r.s5 == 0,
            r.s6 == 0 && r.s7 == 0 && r.s8 == 0 && r.s9 == 0 && r.s10 == 0 && r.s11 == 0,
    {
        Context {
            ra: entry.0,
            sp: kernel_sp.0,
            s0: 0,
            s1: 0,
            s2: 0,
            s3: 0,
            s4: 0,
            s5: 0,
            s6: 0,
            s7: 0,
            s8: 0,
            s9: 0,
            s10: 0,
            s11: 0,
        }
    }
}

} // verus!
