//! Capacity constants consumed by the kernel core.  Changing them
//! changes capacity only, never behaviour.

use vstd::prelude::*;

verus! {

/// Size in bytes of one physical page.
pub const PAGE_SIZE: usize = 4096;

/// Size in bytes of the stack handed to each kernel thread.
pub const STACK_SIZE: usize = 0x8000;

/// Number of registers a `Context` snapshot holds.
pub const REGISTER_COUNT: usize = 32;

/// Number of argument-passing registers the calling convention offers.
pub const ARGUMENT_REGISTERS: usize = 8;

} // verus!
