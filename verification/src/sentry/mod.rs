//! The ptrace flavour of the sandbox.

pub mod hostpath;
pub mod word;
pub mod error;
pub mod registers;
pub mod memory;
pub mod syscall;
pub mod ptrace;
pub mod fs;
pub mod kernel;
pub mod laws;
