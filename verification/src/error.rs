//! The kernel's internal error type and its mapping to error numbers.
use vstd::prelude::*;
use crate::errno::{Errno, IntoError};

verus! {

/// Errors produced inside the kernel.
#[derive(Debug, Copy, Clone, PartialEq, Eq, Structural)]
pub enum Error {
    Unaligned,
    Overflow,
    Oom,
    NotFound,
    InvalidArgs,
    Unmapped,
    NoSys,
    AlreadyExists,
    Todo,
    Errno(Errno),
}

/// The error number that userspace sees for a kernel error.
pub open spec fn error_to_errno(e: Error) -> Errno {
    match e {
        Error::Unaligned => Errno::EInval,
        Error::Overflow => Errno::EOverflow,
        Error::Oom => Errno::ENoMem,
        Error::NotFound => Errno::ENoEnt,
        Error::InvalidArgs => Errno::EInval,
        Error::Unmapped => Errno::EFault,
        Error::NoSys => Errno::ENoSys,
        Error::AlreadyExists => Errno::EExist,
        Error::Todo => Errno::EInval,
        Error::Errno(errno) => errno,
    }
}

impl Error {
    /// Wraps an error number.
    pub fn from_errno(e: Errno) -> (r: Error)
        ensures
            r == Error::Errno(e),
    {
        Error::Errno(e)
    }

    /// Converts the error into the error number reported to userspace.
    pub fn into_errno(self) -> (r: Errno)
        ensures
            r == error_to_errno(self),
    {
        match self {
            Error::Unaligned => Errno::EInval,
            Error::Overflow => Errno::EOverflow,
            Error::Oom => Errno::ENoMem,
            Error::NotFound => Errno::ENoEnt,
            Error::InvalidArgs => Errno::EInval,
            Error::Unmapped => Errno::EFault,
            Error::NoSys => Errno::ENoSys,
            Error::AlreadyExists => Errno::EExist,
            Error::Todo => Errno::EInval,
            Error::Errno(errno) => errno,
        }
    }
}

impl IntoError for Error {
    fn to_errno(&self) -> (r: Errno)
        ensures
            r == error_to_errno(*self),
    {
        self.into_errno()
    }
}

} // verus!
