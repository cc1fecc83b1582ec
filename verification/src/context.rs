//! Saved CPU register state: the snapshot of one suspended line of
//! execution, installed back into the CPU by the platform's restore
//! primitive.

use vstd::prelude::*;

verus! {

use crate::config::ARGUMENT_REGISTERS;
use crate::config::REGISTER_COUNT;

/// Previous-privilege bit of the saved status register: set when the
/// suspended execution ran in supervisor mode.
pub const SSTATUS_SPP: usize = 0x100;

/// Previous-interrupt-enable bit of the saved status register.
pub const SSTATUS_SPIE: usize = 0x20;

/// Mathematical content of a context: the general-purpose register
/// file, the saved program counter and the saved status register.
#[verifier::ext_equal]
pub ghost struct ContextView {
    pub regs: Seq<usize>,
    pub sepc: usize,
    pub sstatus: usize,
}

impl ContextView {
    pub open spec fn wf(self) -> bool {
        self.regs.len() == REGISTER_COUNT
    }

    /// Saved return address (register `x1`).
    pub open spec fn ra(self) -> usize {
        self.regs[1]
    }

    /// Saved stack pointer (register `x2`).
    pub open spec fn sp(self) -> usize {
        self.regs[2]
    }

    /// Saved `i`-th argument register (`x10` upward).
    pub open spec fn argument(self, i: int) -> usize {
        self.regs[10 + i]
    }
}

/// A saved register file.  Exclusively owned by its thread and only
/// ever read or written while that thread is suspended: while the
/// thread runs, the live values sit in the CPU, not here.
#[derive(Debug)]
pub struct Context {
    regs: Vec<usize>,
    sepc: usize,
    sstatus: usize,
}

impl View for Context {
    type V = ContextView;

    closed spec fn view(&self) -> ContextView {
        ContextView { regs: self.regs@, sepc: self.sepc, sstatus: self.sstatus }
    }
}

impl Clone for Context {
    fn clone(&self) -> (r: Self)
        ensures
            r@ == self@,
    {
        let regs = self.regs.clone();
        proof {
            assert(regs@ =~= self.regs@);
        }
        Context { regs, sepc: self.sepc, sstatus: self.sstatus }
    }
}

impl Context {
    /// A fresh thread context: zeroed registers except the stack
    /// pointer, program counter at the entry point, and a status
    /// register that resumes in supervisor mode (with interrupts
    /// previously enabled) for a kernel thread, in user mode for a
    /// user thread.
    pub fn new(entry_point: usize, stack_top: usize, is_kernel: bool) -> (r: Context)
        ensures
            r@.wf(),
            r@.sepc == entry_point,
            r@.sp() == stack_top,
            r@.ra() == 0,
            forall|i: int| 0 <= i < REGISTER_COUNT && i != 2 ==> r@.regs[i] == 0,
            forall|i: int| 0 <= i < ARGUMENT_REGISTERS ==> r@.argument(i) == 0,
            r@.sstatus == if is_kernel {
                SSTATUS_SPP | SSTATUS_SPIE
            } else {
                SSTATUS_SPIE
            },
    {
        let mut regs: Vec<usize> = Vec::new();
        let mut k: usize = 0;
        while k < REGISTER_COUNT
            invariant
                k <= REGISTER_COUNT,
                regs@.len() == k,
                forall|i: int| 0 <= i < k ==> regs@[i] == 0,
            decreases REGISTER_COUNT - k,
        {
            regs.push(0);
            k = k + 1;
        }
        regs[2] = stack_top;
        let sstatus: usize = if is_kernel {
            SSTATUS_SPP | SSTATUS_SPIE
        } else {
            SSTATUS_SPIE
        };
        Context { regs, sepc: entry_point, sstatus }
    }

    /// Saved program counter.
    pub fn sepc(&self) -> (r: usize)
        ensures
            r == self@.sepc,
    {
        self.sepc
    }

    /// Saved status register.
    pub fn sstatus(&self) -> (r: usize)
        ensures
            r == self@.sstatus,
    {
        self.sstatus
    }

    /// Saved return address.
    pub fn ra(&self) -> (r: usize)
        requires
            self@.wf(),
        ensures
            r == self@.ra(),
    {
        self.regs[1]
    }

    /// Saved stack pointer.
    pub fn sp(&self) -> (r: usize)
        requires
            self@.wf(),
        ensures
            r == self@.sp(),
    {
        self.regs[2]
    }

    /// Saved `i`-th argument register.
    pub fn argument(&self, i: usize) -> (r: usize)
        requires
            self@.wf(),
            i < ARGUMENT_REGISTERS,
        ensures
            r == self@.argument(i as int),
    {
        self.regs[10 + i]
    }

    /// Point the saved program counter somewhere else.
    pub fn set_sepc(&mut self, sepc: usize)
        ensures
            final(self)@ == (ContextView { sepc, ..old(self)@ }),
    {
        self.sepc = sepc;
    }

    /// Set the saved return address, so that falling off the end of
    /// the entry function lands in a designated exit routine instead
    /// of undefined memory.
    pub fn set_ra(&mut self, ra: usize)
        requires
            old(self)@.wf(),
        ensures
            final(self)@ == (ContextView { regs: old(self)@.regs.update(1, ra), ..old(self)@ }),
            final(self)@.wf(),
            final(self)@.ra() == ra,
    {
        self.regs[1] = ra;
    }

    /// Populate the argument-passing registers from `arguments`.
    /// More arguments than the calling convention passes in registers
    /// is an input-constraint violation the caller must avoid.
    pub fn set_arguments(&mut self, arguments: &[usize])
        requires
            old(self)@.wf(),
            arguments@.len() <= ARGUMENT_REGISTERS,
        ensures
            final(self)@.wf(),
            final(self)@.sepc == old(self)@.sepc,
            final(self)@.sstatus == old(self)@.sstatus,
            final(self)@.ra() == old(self)@.ra(),
            final(self)@.sp() == old(self)@.sp(),
            forall|i: int|
                0 <= i < arguments@.len() ==> final(self)@.argument(i) == arguments@[i],
            forall|i: int|
                arguments@.len() <= i < ARGUMENT_REGISTERS ==> final(self)@.argument(i) == old(
                    self,
                )@.argument(i),
            forall|i: int|
                0 <= i < REGISTER_COUNT && !(10 <= i < 10 + arguments@.len())
                    ==> final(self)@.regs[i] == old(self)@.regs[i],
    {
        let n = arguments.len();
        let mut k: usize = 0;
        while k < n
            invariant
                n == arguments@.len(),
                n <= ARGUMENT_REGISTERS,
                k <= n,
                self.regs@.len() == REGISTER_COUNT,
                self.sepc == old(self).sepc,
                self.sstatus == old(self).sstatus,
                forall|i: int| 0 <= i < k ==> self.regs@[10 + i] == arguments@[i],
                forall|i: int|
                    0 <= i < REGISTER_COUNT && !(10 <= i < 10 + k) ==> self.regs@[i] == old(
                        self,
                    ).regs@[i],
            decreases n - k,
        {
            self.regs[10 + k] = arguments[k];
            k = k + 1;
        }
    }
}

} // verus!
