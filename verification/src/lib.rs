//! A verified model of a teaching kernel's process core: process records and
//! their lifecycle, a round-robin scheduler, lazily grown per-process stacks,
//! and keyed counting semaphores with FIFO waiter queues.
//!
//! Hardware concerns (page-table plumbing, interrupt delivery, serial ports)
//! stay outside this crate; the state machines that decide scheduling,
//! termination, waiting and synchronization are verified here over plain
//! values.

pub mod context;
pub mod data;
pub mod input;
pub mod io;
pub mod manager;
pub mod pid;
pub mod process;
pub mod stack;
pub mod sync;
pub mod syscall;
pub mod usersync;
pub mod vm;

use vstd::prelude::*;

verus! {

/// The process identifier of the kernel process, the first record ever
/// inserted into the process table.
pub const KERNEL_PID: u16 = 1;

} // verus!
