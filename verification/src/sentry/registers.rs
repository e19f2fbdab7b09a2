//! The registers of a stopped tracee: reading and changing the ones that
//! system calls use, and making room on its stack.
use vstd::prelude::*;
use crate::sentry::error::{Error, IoErrorKind, Result};
use crate::sentry::word::Word;

verus! {

/// Bytes below the stack pointer that the x86-64 ABI reserves (the red
/// zone), which must not be overwritten when the stack pointer has not
/// moved.
pub const RED_ZONE_SIZE: isize = 128isize;

/// The registers that system calls use.
#[derive(Debug, Clone, Copy, PartialEq, Eq, Structural)]
pub enum SysReg {
    /// The system call number.
    Num,
    Arg1,
    Arg2,
    Arg3,
    /// The stack pointer.
    Sp,
}

/// The general-purpose registers of an x86-64 tracee, in the kernel's
/// `user_regs_struct` layout.
#[derive(Debug, Clone, Copy, PartialEq, Eq, Structural)]
pub struct UserRegs {
    pub r15: u64,
    pub r14: u64,
    pub r13: u64,
    pub r12: u64,
    pub rbp: u64,
    pub rbx: u64,
    pub r11: u64,
    pub r10: u64,
    pub r9: u64,
    pub r8: u64,
    pub rax: u64,
    pub rcx: u64,
    pub rdx: u64,
    pub rsi: u64,
    pub rdi: u64,
    pub orig_rax: u64,
    pub rip: u64,
    pub cs: u64,
    pub eflags: u64,
    pub rsp: u64,
    pub ss: u64,
    pub fs_base: u64,
    pub gs_base: u64,
    pub ds: u64,
    pub es: u64,
    pub fs: u64,
    pub gs: u64,
}

/// The register `r` of `regs` (the system call number is `orig_rax`; the
/// arguments are `rdi`, `rsi`, `rdx`).
pub open spec fn reg_value(regs: UserRegs, r: SysReg) -> Word {
    match r {
        SysReg::Num => regs.orig_rax,
        SysReg::Arg1 => regs.rdi,
        SysReg::Arg2 => regs.rsi,
        SysReg::Arg3 => regs.rdx,
        SysReg::Sp => regs.rsp,
    }
}

/// `regs` with the register `r` set to `s`, the others kept.
pub open spec fn with_reg(regs: UserRegs, r: SysReg, s: Word) -> UserRegs {
    match r {
        SysReg::Num => UserRegs { orig_rax: s, ..regs },
        SysReg::Arg1 => UserRegs { rdi: s, ..regs },
        SysReg::Arg2 => UserRegs { rsi: s, ..regs },
        SysReg::Arg3 => UserRegs { rdx: s, ..regs },
        SysReg::Sp => UserRegs { rsp: s, ..regs },
    }
}

/// The stack pointer after making room for `size` bytes below `sp` (a
/// negative size gives room back), or `None` when that would leave the
/// address space. When the stack pointer is still the one the tracee
/// stopped with (`orig_sp`), the red zone is kept free as well.
pub open spec fn alloc_result(sp: Word, orig_sp: Word, size: isize) -> Option<Word> {
    let corrected: int = if sp == orig_sp { size + RED_ZONE_SIZE } else { size as int };
    if corrected > 0 && sp <= corrected {
        None
    } else if corrected < 0 && sp >= u64::MAX - (-corrected) {
        None
    } else {
        Some((sp - corrected) as Word)
    }
}

/// The registers of a stopped tracee, with the stack pointer it stopped
/// with.
#[derive(Debug, Clone, Copy)]
pub struct Registers {
    pid: i32,
    regs: UserRegs,
    orig_sp: Word,
}

impl Registers {
    /// The tracee's process id.
    pub closed spec fn pid_view(&self) -> i32 {
        self.pid
    }

    /// The register values.
    pub closed spec fn regs_view(&self) -> UserRegs {
        self.regs
    }

    /// The stack pointer the tracee stopped with.
    pub closed spec fn orig_sp_view(&self) -> Word {
        self.orig_sp
    }

    /// The registers `regs` of the tracee `pid`, just read: the stack
    /// pointer they hold is the one it stopped with.
    pub fn new(pid: i32, regs: UserRegs) -> (r: Registers)
        ensures
            r.pid_view() == pid,
            r.regs_view() == regs,
            r.orig_sp_view() == regs.rsp,
    {
        Registers { pid: pid, regs: regs, orig_sp: regs.rsp }
    }

    /// The tracee's process id.
    pub fn pid(&self) -> (p: i32)
        ensures
            p == self.pid_view(),
    {
        self.pid
    }

    /// All register values, to be written back to the tracee.
    pub fn user_regs(&self) -> (r: UserRegs)
        ensures
            r == self.regs_view(),
    {
        self.regs
    }

    /// The value of the register `r`.
    pub fn get(&self, r: SysReg) -> (w: Word)
        ensures
            w == reg_value(self.regs_view(), r),
    {
        match r {
            SysReg::Num => self.regs.orig_rax,
            SysReg::Arg1 => self.regs.rdi,
            SysReg::Arg2 => self.regs.rsi,
            SysReg::Arg3 => self.regs.rdx,
            SysReg::Sp => self.regs.rsp,
        }
    }

    /// Sets the register `r` to `s`.
    pub fn chreg(&mut self, r: SysReg, s: Word)
        ensures
            final(self).regs_view() == with_reg(old(self).regs_view(), r, s),
            final(self).pid_view() == old(self).pid_view(),
            final(self).orig_sp_view() == old(self).orig_sp_view(),
    {
        match r {
            SysReg::Num => self.regs.orig_rax = s,
            SysReg::Arg1 => self.regs.rdi = s,
            SysReg::Arg2 => self.regs.rsi = s,
            SysReg::Arg3 => self.regs.rdx = s,
            SysReg::Sp => self.regs.rsp = s,
        }
    }

    /// Makes room for `size` bytes on the tracee's stack (see
    /// `alloc_result`) and hands back the new stack pointer, which the
    /// registers then hold; refuses with an invalid-data error, changing
    /// nothing, when the room is not there.
    pub fn alloc_mem(&mut self, size: isize) -> (r: Result<Word>)
        requires
            old(self).regs_view().rsp == old(self).orig_sp_view() ==> size <= isize::MAX - RED_ZONE_SIZE,
            old(self).regs_view().rsp != old(self).orig_sp_view() ==> size != isize::MIN,
        ensures
            final(self).pid_view() == old(self).pid_view(),
            final(self).orig_sp_view() == old(self).orig_sp_view(),
            match alloc_result(old(self).regs_view().rsp, old(self).orig_sp_view(), size) {
                None => r == Err::<Word, Error>(Error::IoError(IoErrorKind::InvalidData))
                    && final(self).regs_view() == old(self).regs_view(),
                Some(sp) => r == Ok::<Word, Error>(sp)
                    && final(self).regs_view() == with_reg(old(self).regs_view(), SysReg::Sp, sp),
            },
    {
        let stopped_stack_pointer = self.orig_sp;
        let stack_pointer = self.get(SysReg::Sp);
        let corrected_size: isize = if stack_pointer == stopped_stack_pointer {
            size + RED_ZONE_SIZE
        } else {
            size
        };
        let overflow = corrected_size > 0 && stack_pointer <= corrected_size as Word;
        let underflow = corrected_size < 0 && stack_pointer >= u64::MAX - (-corrected_size) as Word;
        if overflow || underflow {
            return Err(Error::IoError(IoErrorKind::InvalidData));
        }
        let new_stack_pointer = if corrected_size > 0 {
            stack_pointer - corrected_size as Word
        } else {
            stack_pointer + (-corrected_size) as Word
        };
        self.chreg(SysReg::Sp, new_stack_pointer);
        Ok(new_stack_pointer)
    }
}

} // verus!
