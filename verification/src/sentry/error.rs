//! Errors of the ptrace flavour.
use vstd::prelude::*;

verus! {

/// The kind of an I/O error.
#[derive(Debug, Clone, Copy, PartialEq, Eq, Structural)]
pub enum IoErrorKind {
    /// A file or path was not found (or lies outside the container).
    NotFound,
    /// Data, such as an address or a path read from the tracee, is invalid.
    InvalidData,
    /// Any other I/O failure.
    Other,
}

/// An error: an I/O failure of a given kind, or a failed system call with
/// its error number.
#[derive(Debug, Clone, Copy, PartialEq, Eq, Structural)]
pub enum Error {
    IoError(IoErrorKind),
    NixError(i32),
}

/// Result of an operation of the ptrace flavour.
pub type Result<T> = core::result::Result<T, Error>;

} // verus!
