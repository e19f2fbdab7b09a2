//! What an intercepted system call hands back to the task.
use vstd::prelude::*;
use crate::kmod::error::KernelResult;

verus! {

/// The raw return value of a system call whose outcome is `res`: the value
/// itself, or the negated error number.
pub fn return_result(res: KernelResult<i32>) -> (r: i64)
    ensures
        match res {
            Ok(i) => r == i,
            Err(e) => r == e.errno,
        },
{
    match res {
        Ok(i) => i as i64,
        Err(e) => e.to_kernel_errno() as i64,
    }
}

} // verus!
