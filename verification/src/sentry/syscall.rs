//! The system calls that the tracer knows by number (x86-64 numbering).
use vstd::prelude::*;

verus! {

/// A known system call.
#[derive(Debug, Clone, Copy, PartialEq, Eq, Structural)]
pub enum Syscall {
    Read,
    Write,
    Open,
    Close,
    Stat,
    Fstat,
    Lstat,
    Mmap,
    Mprotect,
    Munmap,
    Brk,
    Ioctl,
    Access,
    ArchPrctl,
    Readlink,
    Openat,
    Uname,
    ExitGroup,
}

/// The x86-64 number of a system call.
pub open spec fn syscall_number(s: Syscall) -> u64 {
    match s {
        Syscall::Read => 0,
        Syscall::Write => 1,
        Syscall::Open => 2,
        Syscall::Close => 3,
        Syscall::Stat => 4,
        Syscall::Fstat => 5,
        Syscall::Lstat => 6,
        Syscall::Mmap => 9,
        Syscall::Mprotect => 10,
        Syscall::Munmap => 11,
        Syscall::Brk => 12,
        Syscall::Ioctl => 16,
        Syscall::Access => 21,
        Syscall::ArchPrctl => 158,
        Syscall::Readlink => 89,
        Syscall::Openat => 257,
        Syscall::Uname => 63,
        Syscall::ExitGroup => 231,
    }
}

/// What the tracer does when a task enters a system call.
#[derive(Debug, Clone, Copy, PartialEq, Eq, Structural)]
pub enum EnterAction {
    /// `openat`: its path argument is redirected into the container's root
    /// (see `Kernel::openat_enter`).
    RedirectOpenat,
    /// A known system call, which runs as it is.
    Pass,
    /// A number that the tracer does not know.
    Unknown,
}

/// The action for the system call numbered `num`.
pub open spec fn enter_action_of(num: u64) -> EnterAction {
    if num == syscall_number(Syscall::Openat) {
        EnterAction::RedirectOpenat
    } else if exists|s: Syscall| syscall_number(s) == num {
        EnterAction::Pass
    } else {
        EnterAction::Unknown
    }
}

/// What the tracer does when a task enters the system call numbered `num`.
pub fn enter_action(num: u64) -> (a: EnterAction)
    ensures
        a == enter_action_of(num),
{
    match Syscall::from_u64(num) {
        Some(Syscall::Openat) => EnterAction::RedirectOpenat,
        Some(s) => {
            assert(syscall_number(s) == num);
            EnterAction::Pass
        },
        None => EnterAction::Unknown,
    }
}

impl Syscall {
    /// The known system call numbered `n`, if there is one.
    pub fn from_u64(n: u64) -> (r: Option<Syscall>)
        ensures
            r matches Some(s) ==> syscall_number(s) == n,
            r is None ==> forall|s: Syscall| syscall_number(s) != n,
    {
        match n {
            0 => Some(Syscall::Read),
            1 => Some(Syscall::Write),
            2 => Some(Syscall::Open),
            3 => Some(Syscall::Close),
            4 => Some(Syscall::Stat),
            5 => Some(Syscall::Fstat),
            6 => Some(Syscall::Lstat),
            9 => Some(Syscall::Mmap),
            10 => Some(Syscall::Mprotect),
            11 => Some(Syscall::Munmap),
            12 => Some(Syscall::Brk),
            16 => Some(Syscall::Ioctl),
            21 => Some(Syscall::Access),
            158 => Some(Syscall::ArchPrctl),
            89 => Some(Syscall::Readlink),
            257 => Some(Syscall::Openat),
            63 => Some(Syscall::Uname),
            231 => Some(Syscall::ExitGroup),
            _ => None,
        }
    }
}

} // verus!
