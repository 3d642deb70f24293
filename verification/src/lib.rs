//! Verified core of a small RISC-V (Sv39) kernel: address arithmetic, the
//! page-table walker, the kernel heap allocator, task bookkeeping, the
//! scheduler's decisions, syscall decoding and the VSFS on-disk logic.
#![allow(unused_imports)]

use vstd::prelude::*;

pub mod errno;
pub mod error;
pub mod addr;
pub mod arch;
pub mod pte;
pub mod mappings;
pub mod page_table;
pub mod page_meta;
pub mod kvm;
pub mod kmalloc;
pub mod task;
pub mod sched;
pub mod sleeping;
pub mod mm;
pub mod address_space;
pub mod exec;
pub mod syscall;
pub mod user_stack;
pub mod file_table;
pub mod task_table;
pub mod trap;
pub mod task_life;
pub mod vsfs;
pub mod vfs;
pub mod vsfs_laws;

verus! {

} // verus!
