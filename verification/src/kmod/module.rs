//! The entry point that a kernel module implements.
use vstd::prelude::*;
use crate::kmod::error::KernelResult;

verus! {

/// The top-level entry of a kernel module: `init` is run when the module is
/// loaded; clean-up happens when the value is dropped.
pub trait KernelModule: Sized + Sync {
    fn init() -> KernelResult<Self>;
}

} // verus!
