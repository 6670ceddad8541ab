//! A verified model of a small cooperative kernel: a bitmap-backed
//! physical-frame allocator, a task store with a stack-priming context
//! primitive, a round-robin scheduler with deferred preemption, a
//! PID-addressed process layer with sleep/wake, and a table-driven
//! syscall dispatcher.
//!
//! All hardware access (port I/O, the real context-switch instruction
//! sequence, interrupt wiring) lives outside this crate; the functions
//! here are the decisions and bookkeeping those mechanisms drive.

#![verifier::loop_isolation(false)]

pub mod fs;
pub mod heap;
pub mod kb;
pub mod kernel;
pub mod memory;
pub mod process;
pub mod scheduler;
pub mod syscall;
pub mod task;
pub mod vga;

use vstd::prelude::*;

verus! {

} // verus!
