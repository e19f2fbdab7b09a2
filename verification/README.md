# rvisor

The logic of rVisor, a gVisor-like sandbox for Linux processes, as a Verus
library.

* `src/kmod`: the kernel-module flavour. A container holds one kernel with
  a task table, the task that is running a system call, and the
  translation of the paths that tasks name into paths under the
  container's root on the host; user space drives it through the `ioctl`
  commands of a device file.
* `src/sentry`: the ptrace flavour. The registers of a stopped tracee,
  strings in its memory as words, the translation and confinement of the
  paths it opens, and the decisions of the tracer: its event loop and what
  it does when a task enters a system call.
* `src/path.rs`: byte-level path pieces shared by both.
* `app/`: the `runrsc` program (command line, ptrace, the host's file
  system) around the library; `app/kernel_module.rs` is the kernel
  module's root, built against `linux_kernel_module` in a kernel build.
