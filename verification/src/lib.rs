//! rVisor: the sandboxing logic of a gVisor-like container runtime.
//!
//! `kmod` holds the logic of the kernel-module flavour (a task table with
//! per-task working directories, path translation into the container root,
//! the ioctl command protocol); `sentry` holds the logic of the ptrace
//! flavour (register handling, tracee memory words, path confinement, the
//! tracer's event loop decisions).

pub mod path;
pub mod kmod;
pub mod sentry;

