//! The decisions of the tracer's event loop: what to do with each change
//! of state that waiting on the tracees reports.
use vstd::prelude::*;

verus! {

/// The number of `SIGTRAP` on Linux.
pub const SIGTRAP: i32 = 5i32;

/// A change of state of a tracee, as waiting reports it.
#[derive(Debug, Clone, Copy, PartialEq, Eq, Structural)]
pub enum WaitEvent {
    /// Stopped at a system call boundary (process id).
    PtraceSyscall(i32),
    /// Stopped by a signal (process id, signal).
    Stopped(i32, i32),
    /// Stopped at a ptrace event (process id, signal, event).
    PtraceEvent(i32, i32, i32),
    /// Exited (process id, status).
    Exited(i32, i32),
    /// Anything else (killed by a signal, continued, still alive).
    Other,
}

/// What the tracer does next.
#[derive(Debug, Clone, Copy, PartialEq, Eq, Structural)]
pub enum TraceAction {
    /// Handle the entry of a system call of the tracee, then resume it.
    EnterSyscall(i32),
    /// Handle the exit of a system call of the tracee, then resume it.
    ExitSyscall(i32),
    /// Set the tracing options on the tracee again, then resume it.
    Restart(i32),
    /// Stop tracing.
    Finish,
    /// An event that the tracer does not handle.
    Unhandled,
}

/// The action for `ev` and whether the next system call stop is an entry,
/// given whether this one is: system call stops alternate between entry
/// and exit; stops by a signal and `SIGTRAP` ptrace events restart the
/// tracee; an exit ends tracing.
pub open spec fn event_action(entering: bool, ev: WaitEvent) -> (bool, TraceAction) {
    match ev {
        WaitEvent::PtraceSyscall(pid) => if entering {
            (false, TraceAction::EnterSyscall(pid))
        } else {
            (true, TraceAction::ExitSyscall(pid))
        },
        WaitEvent::Stopped(pid, _) => (entering, TraceAction::Restart(pid)),
        WaitEvent::PtraceEvent(pid, sig, _) => if sig == SIGTRAP {
            (entering, TraceAction::Restart(pid))
        } else {
            (entering, TraceAction::Unhandled)
        },
        WaitEvent::Exited(_, _) => (entering, TraceAction::Finish),
        WaitEvent::Other => (entering, TraceAction::Unhandled),
    }
}

/// Decides what to do with `ev` (see `event_action`) and updates whether
/// the next system call stop is an entry.
pub fn event_loop_step(entering: &mut bool, ev: WaitEvent) -> (a: TraceAction)
    ensures
        (*final(entering), a) == event_action(*old(entering), ev),
{
    match ev {
        WaitEvent::PtraceSyscall(pid) => {
            if *entering {
                *entering = false;
                TraceAction::EnterSyscall(pid)
            } else {
                *entering = true;
                TraceAction::ExitSyscall(pid)
            }
        },
        WaitEvent::Stopped(pid, _) => TraceAction::Restart(pid),
        WaitEvent::PtraceEvent(pid, sig, _) => {
            if sig == SIGTRAP {
                TraceAction::Restart(pid)
            } else {
                TraceAction::Unhandled
            }
        },
        WaitEvent::Exited(_, _) => TraceAction::Finish,
        WaitEvent::Other => TraceAction::Unhandled,
    }
}

} // verus!
