//! Verified core of a minimal bare-metal kernel: physical frame
//! allocation, virtual address-space segments, the process/thread data
//! model, the cooperative scheduler and the trap-dispatch decisions
//! that drive it.
//!
//! Everything hardware-facing (the boot sequence, CSR writes, the
//! register-load that resumes a thread, the global heap arena) lives
//! outside this crate; this crate holds the state machines and the
//! invariants those edges rely on.

pub mod config;
pub mod frame;
pub mod context;
pub mod mapping;
pub mod process;
pub mod processor;
pub mod trap;
