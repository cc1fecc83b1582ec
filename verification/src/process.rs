//! Processes and threads: a process owns an address space; a thread
//! pairs a context and a private stack with its owning process.

use vstd::prelude::*;

verus! {

use crate::config::ARGUMENT_REGISTERS;
use crate::config::REGISTER_COUNT;
use crate::config::STACK_SIZE;
use crate::context::Context;
use crate::context::ContextView;
use crate::frame::MemoryError;
use crate::mapping::Flags;
use crate::mapping::MapType;
use crate::mapping::KernelLayout;
use crate::mapping::MemorySet;
use crate::mapping::Segment;
use crate::mapping::max_end;
use crate::mapping::segments_wf;

/// Mathematical content of a process: its kind and the segments of
/// its address space.
#[verifier::ext_equal]
pub ghost struct ProcessView {
    pub is_user: bool,
    pub segments: Seq<Segment>,
}

/// A process: exactly one address space plus a kind flag that
/// distinguishes a kernel process (identity-mapped, no privilege
/// transition) from a user process.
#[derive(Debug)]
pub struct Process {
    is_user: bool,
    memory_set: MemorySet,
}

impl View for Process {
    type V = ProcessView;

    closed spec fn view(&self) -> ProcessView {
        ProcessView { is_user: self.is_user, segments: self.memory_set@ }
    }
}

impl Process {
    /// Build a kernel process around the kernel's identity-mapped
    /// address space.  Fails exactly when that construction fails.
    pub fn new_kernel(layout: KernelLayout) -> (r: Result<Process, MemoryError>)
        requires
            layout.wf(),
        ensures
            r is Ok <==> segments_wf(layout.segments()),
            r matches Ok(p) ==> !p@.is_user && p@.segments == layout.segments() && segments_wf(
                p@.segments,
            ),
            r matches Err(e) ==> e == MemoryError::Overlap,
    {
        match MemorySet::new_kernel(layout) {
            Ok(memory_set) => Ok(Process { is_user: false, memory_set }),
            Err(e) => Err(e),
        }
    }

    /// Whether this is a user process.
    pub fn is_user(&self) -> (r: bool)
        ensures
            r == self@.is_user,
    {
        self.is_user
    }

    /// Number of segments in the owned address space.
    pub fn segment_count(&self) -> (r: usize)
        ensures
            r == self@.segments.len(),
    {
        self.memory_set.len()
    }

    /// The `i`-th segment of the owned address space.
    pub fn segment(&self, i: usize) -> (r: Segment)
        requires
            i < self@.segments.len(),
        ensures
            r == self@.segments[i as int],
    {
        self.memory_set.segment(i)
    }

    /// Reserve a fresh stack range in the owned address space.
    fn allocate_stack(&mut self) -> (r: Result<Segment, MemoryError>)
        requires
            segments_wf(old(self)@.segments),
        ensures
            segments_wf(final(self)@.segments),
            final(self)@.is_user == old(self)@.is_user,
            r is Ok <==> max_end(old(self)@.segments) + STACK_SIZE <= usize::MAX,
            r matches Ok(seg) ==> seg == (Segment {
                map_type: MapType::Framed,
                start: max_end(old(self)@.segments),
                end: (max_end(old(self)@.segments) + STACK_SIZE) as usize,
                flags: Flags {
                    readable: true,
                    writable: true,
                    executable: false,
                    user: old(self)@.is_user,
                },
            }) && final(self)@.segments == old(self)@.segments.push(seg),
            r is Err ==> final(self)@ == old(self)@,
            r matches Err(e) ==> e == MemoryError::OutOfMemory,
    {
        let user = self.is_user;
        self.memory_set.allocate_segment(
            STACK_SIZE,
            Flags { readable: true, writable: true, executable: false, user },
        )
    }
}

/// Mathematical content of a thread: identity, saved context, stack
/// range and the liveness flag.
#[verifier::ext_equal]
pub ghost struct ThreadView {
    pub id: usize,
    pub context: ContextView,
    pub stack_start: usize,
    pub stack_end: usize,
    pub dead: bool,
}

impl ThreadView {
    pub open spec fn wf(self) -> bool {
        self.context.wf()
    }
}

/// A kernel-schedulable thread: identity, saved context, a dedicated
/// stack range inside its process's address space, and a liveness
/// flag.  A thread whose flag is set is dead and is never scheduled
/// again.
#[derive(Debug)]
pub struct Thread {
    pub(crate) id: usize,
    pub(crate) context: Context,
    pub(crate) stack_start: usize,
    pub(crate) stack_end: usize,
    pub(crate) dead: bool,
}

impl View for Thread {
    type V = ThreadView;

    closed spec fn view(&self) -> ThreadView {
        ThreadView {
            id: self.id,
            context: self.context@,
            stack_start: self.stack_start,
            stack_end: self.stack_end,
            dead: self.dead,
        }
    }
}

impl Thread {
    /// Build a thread in *Ready* state on `process`: reserve a stack
    /// in the process's address space and set up an initial context
    /// whose program counter is the entry point, whose stack pointer
    /// is the top of the fresh stack and whose argument registers
    /// hold `arguments`.  Fails exactly when no stack range fits in
    /// the address space.
    pub fn new(process: &mut Process, entry_point: usize, arguments: Option<&[usize]>, id: usize)
        -> (r: Result<Thread, MemoryError>)
        requires
            segments_wf(old(process)@.segments),
            arguments matches Some(a) ==> a@.len() <= ARGUMENT_REGISTERS,
        ensures
            segments_wf(final(process)@.segments),
            final(process)@.is_user == old(process)@.is_user,
            r is Ok <==> max_end(old(process)@.segments) + STACK_SIZE <= usize::MAX,
            r matches Ok(t) ==> {
                &&& t@.wf()
                &&& t@.id == id
                &&& !t@.dead
                &&& t@.stack_start == max_end(old(process)@.segments)
                &&& t@.stack_end == t@.stack_start + STACK_SIZE
                &&& t@.context.sepc == entry_point
                &&& t@.context.sp() == t@.stack_end
                &&& t@.context.ra() == 0
                &&& (forall|i: int|
                    #![trigger t@.context.argument(i)]
                    0 <= i < ARGUMENT_REGISTERS ==> t@.context.argument(i) == (
                    match arguments {
                        Some(a) => if i < a@.len() {
                            a@[i]
                        } else {
                            0
                        },
                        None => 0,
                    }))
                &&& t@.context.sstatus == if old(process)@.is_user {
                    crate::context::SSTATUS_SPIE
                } else {
                    crate::context::SSTATUS_SPP | crate::context::SSTATUS_SPIE
                }
                &&& (forall|i: int|
                    0 <= i < REGISTER_COUNT && i != 2 && !(10 <= i < 10 + ARGUMENT_REGISTERS)
                        ==> t@.context.regs[i] == 0)
                &&& final(process)@.segments == old(process)@.segments.push(
                    Segment {
                        map_type: MapType::Framed,
                        start: t@.stack_start,
                        end: t@.stack_end,
                        flags: Flags {
                            readable: true,
                            writable: true,
                            executable: false,
                            user: old(process)@.is_user,
                        },
                    },
                )
            },
            r is Err ==> final(process)@ == old(process)@,
            r matches Err(e) ==> e == MemoryError::OutOfMemory,
    {
        let is_kernel = !process.is_user();
        match process.allocate_stack() {
            Ok(stack) => {
                let mut context = Context::new(entry_point, stack.end, is_kernel);
                match arguments {
                    Some(a) => context.set_arguments(a),
                    None => (),
                }
                Ok(
                    Thread {
                        id,
                        context,
                        stack_start: stack.start,
                        stack_end: stack.end,
                        dead: false,
                    },
                )
            },
            Err(e) => Err(e),
        }
    }

    /// Thread identity.
    pub fn id(&self) -> (r: usize)
        ensures
            r == self@.id,
    {
        self.id
    }

    /// Whether the liveness flag is set.
    pub fn is_dead(&self) -> (r: bool)
        ensures
            r == self@.dead,
    {
        self.dead
    }

    /// The saved context.
    pub fn context(&self) -> (r: &Context)
        ensures
            r@ == self@.context,
    {
        &self.context
    }

    /// Replace the saved context with a freshly trapped snapshot.
    pub fn set_context(&mut self, context: Context)
        ensures
            final(self)@ == (ThreadView { context: context@, ..old(self)@ }),
    {
        self.context = context;
    }

    /// Set the liveness flag: the thread is finished and must never
    /// run again.
    pub fn mark_dead(&mut self)
        ensures
            final(self)@ == (ThreadView { dead: true, ..old(self)@ }),
    {
        self.dead = true;
    }

    /// Set the saved return address, so that the entry function's
    /// return lands in a designated exit routine.
    pub fn set_ra(&mut self, ra: usize)
        requires
            old(self)@.wf(),
        ensures
            final(self)@ == (ThreadView {
                context: ContextView {
                    regs: old(self)@.context.regs.update(1, ra),
                    ..old(self)@.context
                },
                ..old(self)@
            }),
            final(self)@.wf(),
            final(self)@.context.ra() == ra,
    {
        self.context.set_ra(ra);
    }
}

/// Build a kernel thread ready to run `entry_point(arguments)`: a
/// thread on `process` whose saved return address is `exit_address`,
/// the routine a kernel thread must fall into when its entry function
/// returns (it marks the thread dead and traps back into the kernel).
pub fn create_kernel_thread(
    process: &mut Process,
    entry_point: usize,
    arguments: Option<&[usize]>,
    id: usize,
    exit_address: usize,
) -> (r: Result<Thread, MemoryError>)
    requires
        segments_wf(old(process)@.segments),
        arguments matches Some(a) ==> a@.len() <= ARGUMENT_REGISTERS,
    ensures
        segments_wf(final(process)@.segments),
        final(process)@.is_user == old(process)@.is_user,
        r is Ok <==> max_end(old(process)@.segments) + STACK_SIZE <= usize::MAX,
        r matches Ok(t) ==> {
            &&& t@.wf()
            &&& t@.id == id
            &&& !t@.dead
            &&& t@.context.sepc == entry_point
            &&& t@.context.ra() == exit_address
            &&& t@.context.sp() == t@.stack_end
            &&& t@.stack_start == max_end(old(process)@.segments)
            &&& t@.stack_end == t@.stack_start + STACK_SIZE
            &&& (forall|i: int|
                #![trigger t@.context.argument(i)]
                0 <= i < ARGUMENT_REGISTERS ==> t@.context.argument(i) == (
                match arguments {
                    Some(a) => if i < a@.len() {
                        a@[i]
                    } else {
                        0
                    },
                    None => 0,
                }))
            &&& t@.context.sstatus == if old(process)@.is_user {
                crate::context::SSTATUS_SPIE
            } else {
                crate::context::SSTATUS_SPP | crate::context::SSTATUS_SPIE
            }
            &&& (forall|i: int|
                0 <= i < REGISTER_COUNT && i != 1 && i != 2 && !(10 <= i < 10
                    + ARGUMENT_REGISTERS) ==> t@.context.regs[i] == 0)
            &&& final(process)@.segments == old(process)@.segments.push(
                Segment {
                    map_type: MapType::Framed,
                    start: t@.stack_start,
                    end: t@.stack_end,
                    flags: Flags {
                        readable: true,
                        writable: true,
                        executable: false,
                        user: old(process)@.is_user,
                    },
                },
            )
        },
        r is Err ==> final(process)@ == old(process)@,
        r matches Err(e) ==> e == MemoryError::OutOfMemory,
{
    match Thread::new(process, entry_point, arguments, id) {
        Ok(mut thread) => {
            let ghost t0 = thread@;
            thread.set_ra(exit_address);
            proof {
                assert forall|i: int|
                    #![trigger thread@.context.argument(i)]
                    0 <= i < ARGUMENT_REGISTERS implies thread@.context.argument(i) == (
                match arguments {
                    Some(a) => if i < a@.len() {
                        a@[i]
                    } else {
                        0
                    },
                    None => 0,
                }) by {
                    assert(thread@.context.regs[10 + i] == t0.context.regs[10 + i]);
                    assert(t0.context.argument(i) == (match arguments {
                        Some(a) => if i < a@.len() {
                            a@[i]
                        } else {
                            0
                        },
                        None => 0,
                    }));
                }
                assert forall|i: int|
                    0 <= i < REGISTER_COUNT && i != 1 implies thread@.context.regs[i]
                    == t0.context.regs[i] by {}
            }
            Ok(thread)
        },
        Err(e) => Err(e),
    }
}

} // verus!
