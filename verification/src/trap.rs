//! Trap dispatch decisions: on a trap the entry stub saves the
//! interrupted execution into a `Context` and decodes the cause; the
//! function here decides what the machine must do next.  The actual
//! register-load that resumes a thread never returns, so it stays in
//! the low-level driver, which merely obeys the returned outcome.

use vstd::prelude::*;

verus! {

use crate::context::Context;
use crate::context::ContextView;
use crate::process::ThreadView;
use crate::processor::Processor;
use crate::processor::ProcessorModel;
use crate::processor::schedule;

/// Cause of a trap, as decoded from the machine's cause register by
/// the entry stub.
#[derive(Clone, Copy, PartialEq, Eq, Structural, Debug)]
pub enum TrapCause {
    /// The deliberate breakpoint a thread raises to yield or exit.
    Breakpoint,
    /// Any other interrupt or exception, by raw cause code.
    Other(usize),
}

/// What the low-level driver must do after a trap: resume a thread by
/// loading its context, halt the machine because nothing is left to
/// run, or report an unhandled cause and abort.
#[derive(Debug)]
pub enum TrapOutcome {
    Resume(Context),
    Halt,
    Fatal { cause: usize, pc: usize },
}

/// The saved context of a thread that executed a breakpoint: the
/// program counter moved past the two-byte break instruction, so the
/// thread resumes after it.
pub open spec fn advanced(c: ContextView) -> ContextView {
    ContextView { sepc: (c.sepc + 2) as usize, ..c }
}

/// Processor state once the trapped thread's snapshot is stored back:
/// the running thread, if any, holds the freshly saved context.
pub open spec fn after_save(m: ProcessorModel, saved: ContextView) -> ProcessorModel {
    match m.current {
        Some(c) => ProcessorModel { current: Some(ThreadView { context: saved, ..c }), ..m },
        None => m,
    }
}

/// Dispatch one trap.  A breakpoint is the yield-or-exit signal: the
/// interrupted thread's snapshot (program counter advanced past the
/// break instruction) is stored back into the running thread, one
/// schedule decision runs, and the outcome is either the next
/// thread's context to resume or — when no live thread remains —
/// `Halt`.  Any other cause is fatal and reported with the cause code
/// and the faulting program counter.
pub fn handle_trap(processor: &mut Processor, cause: TrapCause, context: Context) -> (r:
    TrapOutcome)
    requires
        cause == TrapCause::Breakpoint ==> context@.sepc + 2 <= usize::MAX,
    ensures
        (cause matches TrapCause::Other(code) ==> final(processor)@ == old(processor)@ && (
        r matches TrapOutcome::Fatal { cause: rc, pc } && rc == code && pc == context@.sepc)),
        (cause == TrapCause::Breakpoint ==> {
            let m1 = after_save(old(processor)@, advanced(context@));
            &&& final(processor)@ == schedule(m1).0
            &&& (schedule(m1).1 matches Some(t) ==> (r matches TrapOutcome::Resume(c) && c@
                == t.context))
            &&& (schedule(m1).1 is None ==> r is Halt)
        }),
{
    match cause {
        TrapCause::Breakpoint => {
            let ghost c0 = context@;
            let mut ctx = context;
            let pc = ctx.sepc();
            ctx.set_sepc(pc + 2);
            proof {
                assert(ctx@ =~= advanced(c0));
            }
            if processor.has_current() {
                processor.park_current_thread(ctx);
                proof {
                    assert(processor@ =~= after_save(old(processor)@, advanced(c0)));
                }
            }
            match processor.prepare_next_thread() {
                Ok(next) => TrapOutcome::Resume(next),
                Err(_) => TrapOutcome::Halt,
            }
        },
        TrapCause::Other(code) => TrapOutcome::Fatal { cause: code, pc: context.sepc() },
    }
}

} // verus!
