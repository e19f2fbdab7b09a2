//! Kernel error numbers, as the module hands them back to the kernel.
use vstd::prelude::*;

verus! {

/// `EFAULT`: a bad user-space address.
pub const EFAULT: i32 = 14i32;

/// `EINVAL`: an invalid argument.
pub const EINVAL: i32 = 22i32;

/// `ENOMEM`: out of memory.
pub const ENOMEM: i32 = 12i32;

/// A kernel error: the negated error number that a system call returns.
#[derive(Debug, Clone, Copy, PartialEq, Eq, Structural)]
pub struct Error {
    pub errno: i32,
}

/// Result of an operation of the kernel module.
pub type KernelResult<T> = Result<T, Error>;

/// The error for an invalid argument.
pub open spec fn einval() -> Error {
    Error { errno: -22i32 }
}

impl Error {
    /// The invalid-argument error (`-EINVAL`).
    pub fn invalid() -> (e: Error)
        ensures
            e == einval(),
    {
        Error { errno: -EINVAL }
    }

    /// The error carried by a raw kernel return value.
    pub fn from_kernel_errno(errno: i32) -> (e: Error)
        ensures
            e.errno == errno,
    {
        Error { errno }
    }

    /// The raw value a system call hands back for this error.
    pub fn to_kernel_errno(&self) -> (r: i32)
        ensures
            r == self.errno,
    {
        self.errno
    }
}

} // verus!
