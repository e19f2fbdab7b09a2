//! The device through which user space drives the container: commands sent
//! with `ioctl` on the `rvisor` device file.
use vstd::prelude::*;
use crate::kmod::error::{Error, KernelResult, einval};
use crate::kmod::container::Container;
use crate::kmod::kernel::{task_added, task_removed, fresh_kernel};

verus! {

/// The commands of the device.
#[derive(Debug, Clone, Copy, PartialEq, Eq, Structural)]
pub enum IoctlCmd {
    /// Create the container; the argument points to its root path.
    Create,
    /// Add a process; the argument is its id.
    AddProc,
    /// Remove a process; the argument is its id.
    Remove,
}

/// The command numbered `i`, if there is one.
pub open spec fn ioctl_cmd_of(i: u32) -> Option<IoctlCmd> {
    if i == 0 {
        Some(IoctlCmd::Create)
    } else if i == 1 {
        Some(IoctlCmd::AddProc)
    } else if i == 2 {
        Some(IoctlCmd::Remove)
    } else {
        None
    }
}

impl IoctlCmd {
    /// The command numbered `i`: 0 creates, 1 adds a process, 2 removes
    /// one; any other number is refused with `EINVAL`.
    pub fn try_from(i: u32) -> (r: KernelResult<IoctlCmd>)
        ensures
            match ioctl_cmd_of(i) {
                Some(c) => r == Ok::<IoctlCmd, Error>(c),
                None => r == Err::<IoctlCmd, Error>(einval()),
            },
    {
        match i {
            0 => Ok(IoctlCmd::Create),
            1 => Ok(IoctlCmd::AddProc),
            2 => Ok(IoctlCmd::Remove),
            _ => Err(Error::invalid()),
        }
    }
}

/// The device file.
#[derive(Debug)]
pub struct IoDeviceFile {}

impl IoDeviceFile {
    /// Opening the device always succeeds.
    pub fn open() -> (r: KernelResult<IoDeviceFile>)
        ensures
            r is Ok,
    {
        Ok(IoDeviceFile {})
    }

    /// Carries out the command `cmd` with the argument `arg` on the
    /// container. `create_path` is what reading a path at `arg` from user
    /// memory gave; only `Create` consults it. Every command answers 0.
    pub fn ioctl(&self, container: &mut Container, cmd: u32, arg: u64, create_path: KernelResult<Vec<u8>>) -> (r: KernelResult<i64>)
        requires
            old(container).wf(),
            cmd == 1 || cmd == 2 ==> old(container).kernel is Some,
        ensures
            final(container).wf(),
            match ioctl_cmd_of(cmd) {
                None => r == Err::<i64, Error>(einval()) && final(container).kernel == old(container).kernel,
                Some(IoctlCmd::Create) => match create_path {
                    Err(e) => r == Err::<i64, Error>(e) && final(container).kernel == old(container).kernel,
                    Ok(p) => r == Ok::<i64, Error>(0) && (final(container).kernel matches Some(k) && fresh_kernel(k, p@)),
                },
                Some(IoctlCmd::AddProc) => r == Ok::<i64, Error>(0)
                    && (final(container).kernel matches Some(k) && task_added(old(container).kernel.unwrap(), k, arg as i32)),
                Some(IoctlCmd::Remove) => r == Ok::<i64, Error>(0)
                    && (final(container).kernel matches Some(k) && task_removed(old(container).kernel.unwrap(), k, arg as i32)),
            },
    {
        let cmd = IoctlCmd::try_from(cmd)?;
        match cmd {
            IoctlCmd::Create => {
                let path_str = create_path?;
                container.init(path_str)?;
                Ok(0)
            },
            IoctlCmd::AddProc => {
                container.add_task(arg as i32)?;
                Ok(0)
            },
            IoctlCmd::Remove => {
                container.remove_task(arg as i32)?;
                Ok(0)
            },
        }
    }
}

} // verus!
