//! Linux-compatible error numbers returned to userspace.
use vstd::prelude::*;

verus! {

/// Error numbers understood by userspace (a subset of Linux's).
#[derive(Debug, Copy, Clone, PartialEq, Eq, Structural)]
pub enum Errno {
    /// No such file or directory
    ENoEnt,
    /// I/O error
    EIO,
    /// Exec format error
    ENoExec,
    /// Bad file descriptor
    EBadF,
    /// No child processes
    EChild,
    /// Cannot allocate memory
    ENoMem,
    /// Bad address
    EFault,
    /// Device or resource busy
    EBusy,
    /// File exists
    EExist,
    /// Function not implemented
    ENoSys,
    /// Invalid argument
    EInval,
    /// Value too large for defined data type
    EOverflow,
}

/// The numeric value of an error number, as Linux defines it.
pub open spec fn errno_code(e: Errno) -> int {
    match e {
        Errno::ENoEnt => 2,
        Errno::EIO => 5,
        Errno::ENoExec => 8,
        Errno::EBadF => 9,
        Errno::EChild => 10,
        Errno::ENoMem => 12,
        Errno::EFault => 14,
        Errno::EBusy => 16,
        Errno::EExist => 17,
        Errno::ENoSys => 38,
        Errno::EInval => 22,
        Errno::EOverflow => 75,
    }
}

impl Errno {
    /// The numeric value of this error number.
    pub fn code(self) -> (r: isize)
        ensures
            r == errno_code(self),
    {
        match self {
            Errno::ENoEnt => 2,
            Errno::EIO => 5,
            Errno::ENoExec => 8,
            Errno::EBadF => 9,
            Errno::EChild => 10,
            Errno::ENoMem => 12,
            Errno::EFault => 14,
            Errno::EBusy => 16,
            Errno::EExist => 17,
            Errno::ENoSys => 38,
            Errno::EInval => 22,
            Errno::EOverflow => 75,
        }
    }
}

/// Something that can be reported to userspace as an error number.
pub trait IntoError {
    /// The error number that stands for `self`.
    fn to_errno(&self) -> Errno;
}

impl IntoError for Errno {
    fn to_errno(&self) -> (r: Errno)
        ensures
            r == *self,
    {
        *self
    }
}

} // verus!
