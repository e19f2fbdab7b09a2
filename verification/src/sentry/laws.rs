//! Properties of the ptrace flavour that span several operations.
use vstd::prelude::*;
use crate::path::SLASH;
use crate::sentry::word::{Word, le_value, word_bytes, lemma_le_bytes_value, lemma_value_le_bytes, lemma_pow256_8, lemma_le_value_bound};
use crate::path::{join_stack, all_normal, is_normal};
use crate::sentry::hostpath::{
    is_absolute, push_path, trim_left, trim_right, first_sep, last_sep, is_skipped,
    lemma_first_sep_bounds, lemma_last_sep_bounds, components, path_starts_with,
    lemma_components_join, lemma_strip_root_join, lemma_join_append,
};
use crate::sentry::fs::{host_path_of, guest_path};
use crate::sentry::syscall::{Syscall, syscall_number, EnterAction, enter_action_of};
use crate::sentry::ptrace::{WaitEvent, TraceAction, event_action, SIGTRAP};
use crate::sentry::registers::{SysReg, UserRegs, reg_value, with_reg};

verus! {

/// A word written as its bytes and read back is the same word, and eight
/// bytes read as a word and written back are the same bytes.
pub proof fn law_word_roundtrip(w: Word, b: Seq<u8>)
    requires
        b.len() == 8,
    ensures
        le_value(word_bytes(w)) == w,
        word_bytes(le_value(b) as Word) == b,
{
    lemma_pow256_8();
    lemma_le_bytes_value(w as nat, 8);
    lemma_le_value_bound(b);
    lemma_value_le_bytes(b);
}

proof fn lemma_trim_left_relative(s: Seq<u8>)
    ensures
        !is_absolute(trim_left(s)),
    decreases s.len(),
{
    if s.len() > 0 {
        let i = first_sep(s);
        lemma_first_sep_bounds(s);
        if s[0] == SLASH {
            assert(i == 0);
            assert(is_skipped(s.take(i)));
        }
        if is_skipped(s.take(i)) && i < s.len() {
            lemma_trim_left_relative(s.skip(i + 1));
        }
    }
}

proof fn lemma_trim_right_prefix(s: Seq<u8>)
    ensures
        trim_right(s).len() <= s.len(),
        trim_right(s) == s.take(trim_right(s).len() as int),
    decreases s.len(),
{
    if s.len() == 0 {
        assert(s.take(0) =~= s);
    } else {
        let i = last_sep(s);
        lemma_last_sep_bounds(s);
        if is_skipped(s.skip(i + 1)) {
            if i >= 0 {
                lemma_trim_right_prefix(s.take(i));
                let r = trim_right(s.take(i));
                assert(s.take(i).take(r.len() as int) =~= s.take(r.len() as int));
            } else {
                assert(s.take(0) =~= Seq::<u8>::empty());
            }
        } else {
            assert(s.take(s.len() as int) =~= s);
        }
    }
}

/// The host path of any guest path, before it is resolved on the host,
/// begins with the container's root.
pub proof fn law_host_path_under_root(root: Seq<u8>, cwd: Seq<u8>, user_path: Seq<u8>)
    ensures
        host_path_of(root, cwd, user_path).len() >= root.len(),
        host_path_of(root, cwd, user_path).take(root.len() as int) == root,
{
    let g = if !is_absolute(user_path) { push_path(cwd, user_path) } else { push_path(seq![SLASH], user_path) };
    let left = trim_left(g.drop_first());
    lemma_trim_left_relative(g.drop_first());
    lemma_trim_right_prefix(left);
    let rel = trim_right(left);
    if rel.len() > 0 {
        assert(rel[0] == left[0]);
    }
    assert(!is_absolute(rel));
    let h = push_path(root, rel);
    if root.len() > 0 && root.last() != SLASH {
        assert(h.take(root.len() as int) =~= root);
    } else {
        assert(h.take(root.len() as int) =~= root);
    }
}

/// Different system calls have different numbers, so decoding a system
/// call's number gives that system call.
pub proof fn law_syscall_numbers_distinct(a: Syscall, b: Syscall)
    ensures
        syscall_number(a) == syscall_number(b) ==> a == b,
{
}

/// System call stops alternate between entry and exit: of two consecutive
/// ones, starting at an entry, the first is handled as an entry and the
/// second as an exit, after which the next is an entry again.
pub proof fn law_syscall_stops_alternate(pid1: i32, pid2: i32)
    ensures
        event_action(true, WaitEvent::PtraceSyscall(pid1)) == (false, TraceAction::EnterSyscall(pid1)),
        event_action(false, WaitEvent::PtraceSyscall(pid2)) == (true, TraceAction::ExitSyscall(pid2)),
{
}

/// Stops other than system call stops leave the entry/exit alternation as
/// it was.
pub proof fn law_other_events_keep_phase(entering: bool, ev: WaitEvent)
    requires
        !(ev is PtraceSyscall),
    ensures
        event_action(entering, ev).0 == entering,
{
}

/// An exit of the traced program ends tracing, whatever its exit status,
/// its process id, and whether a system call entry or exit was expected
/// next; the expectation is left as it was.
pub proof fn law_exit_finishes(entering: bool, pid: i32, status: i32)
    ensures
        event_action(entering, WaitEvent::Exited(pid, status)) == (entering, TraceAction::Finish),
{
}

/// A tracee stopped by any signal, or at a `SIGTRAP` ptrace event, is
/// restarted (the same tracee); a ptrace event with another signal, and any
/// other change of state, is not handled.
pub proof fn law_stops_restart(entering: bool, pid: i32, sig: i32, event: i32)
    ensures
        event_action(entering, WaitEvent::Stopped(pid, sig)).1 == TraceAction::Restart(pid),
        event_action(entering, WaitEvent::PtraceEvent(pid, SIGTRAP, event)).1 == TraceAction::Restart(pid),
        sig != SIGTRAP ==> event_action(entering, WaitEvent::PtraceEvent(pid, sig, event)).1 == TraceAction::Unhandled,
        event_action(entering, WaitEvent::Other).1 == TraceAction::Unhandled,
{
}

/// The system call numbers are those of the x86-64 Linux ABI.
pub proof fn law_syscall_numbers_x86_64()
    ensures
        syscall_number(Syscall::Read) == 0,
        syscall_number(Syscall::Write) == 1,
        syscall_number(Syscall::Open) == 2,
        syscall_number(Syscall::Close) == 3,
        syscall_number(Syscall::Stat) == 4,
        syscall_number(Syscall::Fstat) == 5,
        syscall_number(Syscall::Lstat) == 6,
        syscall_number(Syscall::Mmap) == 9,
        syscall_number(Syscall::Mprotect) == 10,
        syscall_number(Syscall::Munmap) == 11,
        syscall_number(Syscall::Brk) == 12,
        syscall_number(Syscall::Ioctl) == 16,
        syscall_number(Syscall::Access) == 21,
        syscall_number(Syscall::Readlink) == 89,
        syscall_number(Syscall::Uname) == 63,
        syscall_number(Syscall::ArchPrctl) == 158,
        syscall_number(Syscall::ExitGroup) == 231,
        syscall_number(Syscall::Openat) == 257,
{
}

/// At the entry of a system call, `openat` (number 257) is redirected,
/// every other known system call runs as it is, and a number that no known
/// system call has is refused.
pub proof fn law_enter_actions(s: Syscall, n: u64)
    ensures
        enter_action_of(257) == EnterAction::RedirectOpenat,
        s != Syscall::Openat ==> enter_action_of(syscall_number(s)) == EnterAction::Pass,
        (forall|t: Syscall| syscall_number(t) != n) ==> enter_action_of(n) == EnterAction::Unknown,
{
    if s != Syscall::Openat {
        assert(syscall_number(s) != 257);
    }
}

/// The system call registers are those of the x86-64 Linux ABI: the number
/// in `orig_rax`, the first three arguments in `rdi`, `rsi` and `rdx`, the
/// stack pointer in `rsp`.
pub proof fn law_sysreg_abi(regs: UserRegs)
    ensures
        reg_value(regs, SysReg::Num) == regs.orig_rax,
        reg_value(regs, SysReg::Arg1) == regs.rdi,
        reg_value(regs, SysReg::Arg2) == regs.rsi,
        reg_value(regs, SysReg::Arg3) == regs.rdx,
        reg_value(regs, SysReg::Sp) == regs.rsp,
{
}

/// Setting a register and reading it back gives the value set; the other
/// system call registers keep their values, and setting a register to the
/// value it holds changes nothing.
pub proof fn law_set_then_get(regs: UserRegs, r: SysReg, other: SysReg, s: Word)
    ensures
        reg_value(with_reg(regs, r, s), r) == s,
        other != r ==> reg_value(with_reg(regs, r, s), other) == reg_value(regs, other),
        with_reg(regs, r, reg_value(regs, r)) == regs,
        with_reg(regs, r, s).rax == regs.rax,
        with_reg(regs, r, s).rip == regs.rip,
{
}

/// A path starts with a base exactly when the base's components are the
/// first components of the path, each equal byte for byte.
pub proof fn law_starts_with_componentwise(p: Seq<u8>, base: Seq<u8>)
    ensures
        path_starts_with(p, base) == {
            &&& components(base).len() <= components(p).len()
            &&& forall|i: int| 0 <= i < components(base).len() ==> #[trigger] components(p)[i] == components(base)[i]
        },
{
    let c = components(p);
    let b = components(base);
    if b.len() <= c.len() {
        if forall|i: int| 0 <= i < b.len() ==> #[trigger] c[i] == b[i] {
            assert(c.subrange(0, b.len() as int) =~= b);
        }
        if c.subrange(0, b.len() as int) == b {
            assert forall|i: int| 0 <= i < b.len() implies #[trigger] c[i] == b[i] by {
                assert(c.subrange(0, b.len() as int)[i] == c[i]);
            }
        }
    }
}

/// Of two absolute paths made of normal components, the first lies under
/// the second exactly when the second's components are the first
/// components of the first, byte for byte.
pub proof fn law_starts_with_normal_paths(st: Seq<Seq<u8>>, rt: Seq<Seq<u8>>)
    requires
        st.len() > 0,
        rt.len() > 0,
        all_normal(st),
        all_normal(rt),
    ensures
        path_starts_with(join_stack(st), join_stack(rt)) == (rt.len() <= st.len() && st.subrange(0, rt.len() as int) == rt),
{
    lemma_components_join(st);
    lemma_components_join(rt);
    let h = seq![seq![SLASH]];
    let c = h + st;
    let b = h + rt;
    if rt.len() <= st.len() {
        assert(c.subrange(0, b.len() as int) =~= h + st.subrange(0, rt.len() as int));
        if c.subrange(0, b.len() as int) == b {
            assert((h + st.subrange(0, rt.len() as int)).skip(1) =~= st.subrange(0, rt.len() as int));
            assert(b.skip(1) =~= rt);
        }
    }
}

/// The host path of an absolute guest path made of normal components is the
/// container's root followed by that whole guest path, whatever the working
/// directory.
pub proof fn law_host_path_absolute(root: Seq<u8>, cwd: Seq<u8>, st: Seq<Seq<u8>>)
    requires
        root.len() > 0,
        root.last() != SLASH,
        st.len() > 0,
        all_normal(st),
    ensures
        host_path_of(root, cwd, join_stack(st)) == root + join_stack(st),
{
    lemma_strip_root_join(st);
    let j = join_stack(st);
    assert(guest_path(cwd, j) == j);
    assert(root.push(SLASH) + j.drop_first() =~= root + j);
}

/// The host path of a relative guest path made of normal components is the
/// container's root followed by the working directory and then that guest
/// path; the working directory `/c1/.../cn` is given by its components
/// (none for `/`).
pub proof fn law_host_path_relative(root: Seq<u8>, cst: Seq<Seq<u8>>, st: Seq<Seq<u8>>)
    requires
        root.len() > 0,
        root.last() != SLASH,
        all_normal(cst),
        st.len() > 0,
        all_normal(st),
    ensures
        ({
            let cwd = if cst.len() == 0 { seq![SLASH] } else { join_stack(cst) };
            host_path_of(root, cwd, join_stack(st).drop_first()) == root + join_stack(cst + st)
        }),
{
    let cwd = if cst.len() == 0 { seq![SLASH] } else { join_stack(cst) };
    lemma_strip_root_join(st);
    let j = join_stack(st);
    let rel = j.drop_first();
    assert(!is_absolute(rel));
    let all = cst + st;
    assert forall|i: int| 0 <= i < all.len() implies is_normal(#[trigger] all[i]) by {
        if i < cst.len() {
            assert(all[i] == cst[i]);
        } else {
            assert(all[i] == st[i - cst.len()]);
        }
    }
    lemma_join_append(cst, st);
    if cst.len() == 0 {
        assert(all =~= st);
        assert(seq![SLASH] + rel =~= j);
        assert(guest_path(cwd, rel) == join_stack(all));
    } else {
        lemma_strip_root_join(cst);
        assert(cwd.push(SLASH) + rel =~= cwd + j);
        assert(guest_path(cwd, rel) == join_stack(all));
    }
    lemma_strip_root_join(all);
    assert(root.push(SLASH) + join_stack(all).drop_first() =~= root + join_stack(all));
}

} // verus!
