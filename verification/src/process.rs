//! One process's record: identity, status, saved context, virtual memory
//! and the handle on its shared data.

use crate::context::ProcessContext;
use crate::pid::ProcessId;
use crate::vm::ProcessVm;
use vstd::prelude::*;

verus! {

/// The lifecycle state of a process. `Dead` is terminal: no operation ever
/// leaves it.
#[derive(Clone, Copy, Debug, PartialEq, Eq, Structural)]
pub enum ProgramStatus {
    /// Holding the processor.
    Running,
    /// Eligible to run, queued or about to be.
    Ready,
    /// Waiting for an explicit wake: an exit it asked for, or a semaphore
    /// token.
    Blocked,
    /// Terminated; the exit code is fixed.
    Dead,
}

/// One process's record. The process manager owns every record; the record
/// names its shared data by index into the manager's data table, so a
/// parent and a forked child can point at one instance.
pub struct Process {
    /// This process's identifier, fixed at creation.
    pub pid: ProcessId,
    /// A human-readable name.
    pub name: String,
    /// The parent's identifier; `None` for the kernel process. The parent
    /// is named, never pointed at: looking a dead parent up in the process
    /// table simply finds a dead record, not freed memory.
    pub parent: Option<ProcessId>,
    /// Where the process stands in its lifecycle.
    pub status: ProgramStatus,
    /// How many times this process's context has been saved.
    pub ticks: u64,
    /// The saved register file; meaningful while the process is not
    /// running.
    pub context: ProcessContext,
    /// The exit code, set exactly once, at the transition to `Dead`.
    pub exit_code: Option<isize>,
    /// The process's virtual memory; `None` only transiently before
    /// initialization, never inside the manager's table.
    pub vm: Option<ProcessVm>,
    /// Which entry of the manager's data table this process shares.
    pub data_id: usize,
}

impl Process {
    /// Well-formedness: the virtual memory is present and well-formed, and
    /// a dead record carries its exit code while a live one carries none.
    pub open spec fn wf(&self) -> bool {
        &&& self.vm is Some
        &&& self.vm->0.wf()
        &&& (self.exit_code is Some <==> self.status is Dead)
    }

    /// A fresh record: no ticks, empty context, not yet dead.
    pub fn new(
        pid: ProcessId,
        name: String,
        parent: Option<ProcessId>,
        vm: ProcessVm,
        data_id: usize,
    ) -> (r: Process)
        requires
            vm.wf(),
        ensures
            r.wf(),
            r.pid == pid,
            r.name == name,
            r.parent == parent,
            r.status == ProgramStatus::Ready,
            r.ticks == 0,
            r.exit_code is None,
            r.vm == Option::Some(vm),
            r.data_id == data_id,
            r.context == (ProcessContext { rax: 0u64, instruction_pointer: 0u64, stack_pointer: 0u64 }),
    {
        Process {
            pid,
            name,
            parent,
            status: ProgramStatus::Ready,
            ticks: 0,
            context: ProcessContext::empty(),
            exit_code: None,
            vm: Some(vm),
            data_id,
        }
    }

    /// Count one save of this record's context.
    pub fn tick(&mut self)
        ensures
            *final(self) == (Process { ticks: final(self).ticks, ..*old(self) }),
            final(self).ticks == (if old(self).ticks < u64::MAX {
                old(self).ticks as int + 1
            } else {
                old(self).ticks as int
            }),
    {
        if self.ticks < u64::MAX {
            self.ticks = self.ticks + 1;
        }
    }

    /// Save the processor's context into this record. A running process
    /// becomes ready — unless the same trap already blocked or killed it,
    /// in which case its status stands.
    pub fn save(&mut self, context: &ProcessContext)
        ensures
            *final(self) == (Process {
                context: *context,
                status: final(self).status,
                ..*old(self)
            }),
            final(self).status == (if old(self).status is Running {
                ProgramStatus::Ready
            } else {
                old(self).status
            }),
    {
        self.context = *context;
        if self.status == ProgramStatus::Running {
            self.status = ProgramStatus::Ready;
        }
    }

    /// Restore this record's saved context into the processor.
    pub fn restore(&self, context: &mut ProcessContext)
        ensures
            *final(context) == self.context,
    {
        *context = self.context;
    }

    /// Mark the process ready.
    pub fn pause(&mut self)
        ensures
            *final(self) == (Process { status: ProgramStatus::Ready, ..*old(self) }),
    {
        self.status = ProgramStatus::Ready;
    }

    /// Mark the process running.
    pub fn resume(&mut self)
        ensures
            *final(self) == (Process { status: ProgramStatus::Running, ..*old(self) }),
    {
        self.status = ProgramStatus::Running;
    }

    /// Mark the process blocked.
    pub fn block(&mut self)
        ensures
            *final(self) == (Process { status: ProgramStatus::Blocked, ..*old(self) }),
    {
        self.status = ProgramStatus::Blocked;
    }

    /// Terminate the process: fix its exit code and make it dead. All
    /// later transitions are illegal, which the manager's guards enforce.
    pub fn kill(&mut self, ret: isize)
        ensures
            *final(self) == (Process {
                status: ProgramStatus::Dead,
                exit_code: Option::Some(ret),
                ..*old(self)
            }),
    {
        self.status = ProgramStatus::Dead;
        self.exit_code = Some(ret);
    }

    /// Set the return-value register of the saved context.
    pub fn set_rax(&mut self, value: u64)
        ensures
            *final(self) == (Process { context: final(self).context, ..*old(self) }),
            final(self).context == (ProcessContext { rax: value, ..old(self).context }),
    {
        self.context.set_rax(value);
    }
}

} // verus!
