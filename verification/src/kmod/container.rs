//! The container: the single kernel that the module runs, once created.
use vstd::prelude::*;
use crate::kmod::error::KernelResult;
use crate::kmod::kernel::{Kernel, task_added, task_removed, fresh_kernel};

verus! {

/// The container; it holds no kernel until it is created.
#[derive(Debug)]
pub struct Container {
    pub kernel: Option<Kernel>,
}

impl Container {
    /// The kernel, when there is one, is consistent.
    pub open spec fn wf(&self) -> bool {
        self.kernel matches Some(k) ==> k.wf()
    }

    /// A container that has not been created yet.
    pub fn new() -> (c: Container)
        ensures
            c.kernel is None,
            c.wf(),
    {
        Container { kernel: None }
    }

    /// Creates the container's kernel, rooted at the host path `path`; a
    /// kernel created before is dropped.
    pub fn init(&mut self, path: Vec<u8>) -> (r: KernelResult<()>)
        ensures
            r is Ok,
            final(self).wf(),
            final(self).kernel matches Some(k) && fresh_kernel(k, path@),
    {
        self.kernel = Some(Kernel::new(path)?);
        Ok(())
    }

    /// Runs `f` on the kernel, if there is one.
    pub fn runk<T, F: Fn(&Kernel) -> T>(&self, f: F) -> (r: Option<T>)
        requires
            self.kernel matches Some(k) ==> call_requires(f, (&k,)),
        ensures
            self.kernel is None ==> r is None,
            self.kernel matches Some(k) ==> (r matches Some(v) && call_ensures(f, (&k,), v)),
    {
        if let Some(ref k) = self.kernel {
            Some(f(k))
        } else {
            None
        }
    }

    /// The kernel, for a change, if there is one (closures that take the
    /// kernel mutably cannot carry a contract, so the kernel is lent out).
    pub fn runk_mut(&mut self) -> (r: Option<&mut Kernel>)
        ensures
            old(self).kernel is None ==> r is None && final(self).kernel is None,
            old(self).kernel matches Some(k) ==> r matches Some(kr) && *kr == k
                && final(self).kernel == Some(*final(kr)),
    {
        match &mut self.kernel {
            Some(k) => Some(k),
            None => None,
        }
    }

    /// Adds a fresh task under `pid` (see `Kernel::add_task`).
    pub fn add_task(&mut self, pid: i32) -> (r: KernelResult<()>)
        requires
            old(self).wf(),
            old(self).kernel is Some,
        ensures
            r is Ok,
            final(self).wf(),
            final(self).kernel matches Some(k) && task_added(old(self).kernel.unwrap(), k, pid),
    {
        match self.runk_mut() {
            Some(k) => k.add_task(pid),
            None => Ok(()),
        }
    }

    /// Whether the container's kernel holds a task under `pid` (false when
    /// there is no kernel).
    pub fn contains(&self, pid: i32) -> (b: bool)
        ensures
            b == (self.kernel matches Some(k) && k.task_map().contains_key(pid)),
    {
        let r = self.runk(|k: &Kernel| -> (b: bool)
            ensures
                b == k.task_map().contains_key(pid),
            { k.contains(pid) });
        match r {
            Some(b) => b,
            None => false,
        }
    }

    /// Takes the task under `pid` out of the kernel's table (see
    /// `Kernel::remove_task`).
    pub fn remove_task(&mut self, pid: i32) -> (r: KernelResult<()>)
        requires
            old(self).wf(),
            old(self).kernel is Some,
        ensures
            r is Ok,
            final(self).wf(),
            final(self).kernel matches Some(k) && task_removed(old(self).kernel.unwrap(), k, pid),
    {
        match self.runk_mut() {
            Some(k) => k.remove_task(pid),
            None => Ok(()),
        }
    }

    /// Makes the task under `pid` current, if the kernel holds one; false
    /// when there is no kernel (see `Kernel::try_set_current`).
    pub fn try_set_current(&mut self, pid: i32) -> (b: bool)
        requires
            old(self).wf(),
        ensures
            final(self).wf(),
            old(self).kernel is None ==> !b && final(self).kernel is None,
            old(self).kernel matches Some(o) ==> final(self).kernel matches Some(k) && {
                &&& b == o.task_map().contains_key(pid)
                &&& k.root() == o.root()
                &&& k.fs_view() == o.fs_view()
                &&& k.task_map() == o.task_map()
                &&& b ==> k.current_link() == Some(pid) && k.current_task() == Some(o.task_map()[pid])
                &&& !b ==> k.current_link() == o.current_link() && k.current_task() == o.current_task()
            },
    {
        match self.runk_mut() {
            Some(k) => k.try_set_current(pid),
            None => false,
        }
    }
}

} // verus!
