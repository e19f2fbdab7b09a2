//! The ptrace kernel: the traced tasks and the container's file system.
use vstd::prelude::*;
use crate::sentry::fs::Fs;
use crate::sentry::hostpath::path_starts_with;
use crate::sentry::registers::{Registers, SysReg, with_reg};

verus! {

/// A traced task.
#[derive(Debug, Clone, Copy, PartialEq, Eq, Structural)]
pub struct Task {
    pid: i32,
}

impl Task {
    /// The task's process id.
    pub closed spec fn pid_view(&self) -> i32 {
        self.pid
    }

    /// The task of the process `pid`, which was started under tracing.
    pub fn new(pid: i32) -> (t: Task)
        ensures
            t.pid_view() == pid,
    {
        Task { pid: pid }
    }

    /// The task's process id.
    pub fn pid(&self) -> (p: i32)
        ensures
            p == self.pid_view(),
    {
        self.pid
    }
}

/// The kernel of a ptrace container.
#[derive(Debug)]
pub struct Kernel {
    tasks: Vec<Task>,
    fs: Fs,
}

impl Kernel {
    /// The traced tasks, in order of creation.
    pub closed spec fn tasks_view(&self) -> Seq<Task> {
        self.tasks@
    }

    /// The file system.
    pub closed spec fn fs_view(&self) -> &Fs {
        &self.fs
    }

    /// A kernel without tasks, over the file system `fs`.
    pub fn new(fs: Fs) -> (k: Kernel)
        ensures
            k.tasks_view() == Seq::<Task>::empty(),
            *k.fs_view() == fs,
    {
        Kernel { tasks: Vec::new(), fs: fs }
    }

    /// Records a task that was started under tracing.
    pub fn create_task(&mut self, task: Task)
        ensures
            final(self).tasks_view() == old(self).tasks_view().push(task),
            *final(self).fs_view() == *old(self).fs_view(),
    {
        self.tasks.push(task);
    }

    /// At the entry of `openat`, given the host path that its guest path was
    /// resolved to on the host (`None` when that failed): a resolved path
    /// that lies under the container's root is handed back, to be written
    /// to the tracee as the new path argument, and the registers are left
    /// as they are; otherwise the path argument is set to zero, so that the
    /// call fails, and nothing is handed back.
    pub fn openat_enter(&self, regs: &mut Registers, resolved: Option<Vec<u8>>) -> (w: Option<Vec<u8>>)
        ensures
            final(regs).pid_view() == old(regs).pid_view(),
            final(regs).orig_sp_view() == old(regs).orig_sp_view(),
            (resolved matches Some(h) && path_starts_with(h@, self.fs_view().root_view())) ==> {
                &&& w matches Some(p) && p@ == resolved.unwrap()@
                &&& final(regs).regs_view() == old(regs).regs_view()
            },
            !(resolved matches Some(h) && path_starts_with(h@, self.fs_view().root_view())) ==> {
                &&& w is None
                &&& final(regs).regs_view() == with_reg(old(regs).regs_view(), SysReg::Arg2, 0)
            },
    {
        let confined = match resolved {
            Some(h) => self.fs.confine(h),
            None => {
                regs.chreg(SysReg::Arg2, 0);
                return None;
            },
        };
        match confined {
            Ok(p) => Some(p),
            Err(_) => {
                regs.chreg(SysReg::Arg2, 0);
                None
            },
        }
    }

    /// The file system.
    pub fn fs(&self) -> (r: &Fs)
        ensures
            *r == *self.fs_view(),
    {
        &self.fs
    }
}

} // verus!
