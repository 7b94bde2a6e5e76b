//! The saved execution context of a process: the registers the scheduler
//! must preserve across a context switch, reduced to the ones the process
//! core actually reads and writes.

use vstd::prelude::*;

verus! {

/// A saved register file. `rax` carries syscall return values back to the
/// process; the instruction and stack pointers say where execution resumes.
/// The remaining general-purpose registers are preserved verbatim by the
/// switch path and never inspected, so the model does not name them.
#[derive(Clone, Copy, Debug, PartialEq, Eq, Structural)]
pub struct ProcessContext {
    /// The return-value register, as the syscall path sets it.
    pub rax: u64,
    /// Where the process resumes executing.
    pub instruction_pointer: u64,
    /// The process's stack pointer.
    pub stack_pointer: u64,
}

impl ProcessContext {
    /// An all-zero context, the state of a record before its entry point is
    /// installed.
    pub fn empty() -> (r: ProcessContext)
        ensures
            r == (ProcessContext { rax: 0u64, instruction_pointer: 0u64, stack_pointer: 0u64 }),
    {
        ProcessContext { rax: 0, instruction_pointer: 0, stack_pointer: 0 }
    }

    /// The entry context of a fresh process: execution starts at `entry`
    /// with the stack pointer at `stack_top`.
    pub fn init(entry: u64, stack_top: u64) -> (r: ProcessContext)
        ensures
            r == (ProcessContext { rax: 0u64, instruction_pointer: entry, stack_pointer: stack_top }),
    {
        ProcessContext { rax: 0, instruction_pointer: entry, stack_pointer: stack_top }
    }

    /// Set the return-value register.
    pub fn set_rax(&mut self, value: u64)
        ensures
            *final(self) == (ProcessContext { rax: value, ..*old(self) }),
    {
        self.rax = value;
    }
}

} // verus!
