//! The kernel-module flavour of the sandbox.

pub mod error;
pub mod module;
pub mod fs;
pub mod task;
pub mod kernel;
pub mod container;
pub mod iodev;
pub mod syscall;
pub mod laws;
