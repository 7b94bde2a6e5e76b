//! The syscall boundary: a user trap decoded into one closed set of
//! operations, matched exhaustively — an unrecognized number is its own
//! variant, never a silent fallthrough. Operations on plain state are
//! carried out here against the process manager; operations that must
//! touch user memory or devices are handed back to the surrounding
//! program as an explicit action.

use crate::context::ProcessContext;
use crate::manager::{ProcessManager, ProcessRow};
use crate::pid::ProcessId;
use vstd::prelude::*;

verus! {

/// The operations a user process can request.
#[derive(Clone, Copy, Debug, PartialEq, Eq, Structural)]
pub enum Syscall {
    /// Read bytes from a resource.
    Read,
    /// Write bytes to a resource.
    Write,
    /// The caller's own identifier.
    GetPid,
    /// Start a named application.
    Spawn,
    /// Terminate the caller.
    Exit,
    /// Wait for a process to exit.
    WaitPid,
    /// Dump the process table.
    Stat,
    /// Dump the application list.
    ListApp,
    /// Duplicate the caller.
    Fork,
    /// Create a semaphore.
    SemCreate,
    /// Drop a semaphore.
    SemRemove,
    /// Signal a semaphore.
    SemSignal,
    /// Wait on a semaphore.
    SemWait,
    /// Get heap memory.
    Allocate,
    /// Give heap memory back.
    Deallocate,
    /// A number naming no operation.
    Unknown,
}

/// One decoded trap: the operation and its raw arguments.
#[derive(Clone, Copy, Debug, PartialEq, Eq, Structural)]
pub struct SyscallArgs {
    /// The requested operation.
    pub syscall: Syscall,
    /// First raw argument.
    pub arg0: u64,
    /// Second raw argument.
    pub arg1: u64,
    /// Third raw argument.
    pub arg2: u64,
}

impl SyscallArgs {
    /// Bundle a decoded operation with its raw arguments.
    pub fn new(syscall: Syscall, arg0: u64, arg1: u64, arg2: u64) -> (r: SyscallArgs)
        ensures
            r == (SyscallArgs { syscall, arg0, arg1, arg2 }),
    {
        SyscallArgs { syscall, arg0, arg1, arg2 }
    }
}

/// What remains for the surrounding program to do after dispatch: the
/// operations that touch user memory or devices cannot complete here.
#[derive(Clone, Copy, Debug, PartialEq, Eq, Structural)]
pub enum SyscallAction {
    /// The operation is complete; the context carries any return value.
    Handled,
    /// Decode the name at (`arg0`, `arg1`) from user memory and call
    /// `ProcessManager::spawn` with it.
    SpawnName,
    /// Move bytes from the resource named by `arg0` into user memory.
    ReadBytes,
    /// Move bytes from user memory to the resource named by `arg0`.
    WriteBytes,
    /// Serve a heap allocation from the user allocator.
    AllocateHeap,
    /// Return a heap allocation to the user allocator.
    DeallocateHeap,
    /// Nothing: the number named no operation, which is worth a warning.
    Unknown,
}

/// The action each operation leaves for the surrounding program.
pub open spec fn action_of(s: Syscall) -> SyscallAction {
    match s {
        Syscall::Spawn => SyscallAction::SpawnName,
        Syscall::Read => SyscallAction::ReadBytes,
        Syscall::Write => SyscallAction::WriteBytes,
        Syscall::Allocate => SyscallAction::AllocateHeap,
        Syscall::Deallocate => SyscallAction::DeallocateHeap,
        Syscall::Unknown => SyscallAction::Unknown,
        _ => SyscallAction::Handled,
    }
}

/// The caller's identifier, as the syscall returns it.
pub fn sys_get_current_pid(manager: &ProcessManager) -> (r: u64)
    requires
        manager.wf(),
    ensures
        r == manager.current.0,
{
    manager.get_current_pid().get() as u64
}

/// The diagnostic process listing: one row per process that is not dead.
pub fn list_process(manager: &ProcessManager) -> (r: Vec<ProcessRow>)
    requires
        manager.wf(),
    ensures
        r@ == crate::manager::rows_of(manager.processes@),
{
    manager.list_process()
}

/// The names of the loadable applications.
pub fn list_apps(manager: &ProcessManager) -> (r: Vec<String>)
    requires
        manager.wf(),
    ensures
        r@.len() == manager.app_list@.len(),
        forall|i: int| 0 <= i < r@.len() ==> r@[i]@ == (#[trigger] manager.app_list@[i]).name@,
{
    manager.list_apps()
}

/// The fork syscall, as the dispatcher routes it.
pub fn sys_fork(manager: &mut ProcessManager, context: &mut ProcessContext) -> (r: Option<
    ProcessId,
>)
    requires
        old(manager).wf(),
    ensures
        final(manager).wf(),
        !old(manager).can_grow() ==> r is None,
        crate::manager::fork_rel(
            *old(manager),
            *final(manager),
            *old(context),
            *final(context),
            r,
        ),
{
    manager.fork(context)
}

/// Decode one trap and run it. Operations on the process core happen here,
/// against the manager the caller owns; the returned action says what, if
/// anything, the surrounding program must still do with user memory or
/// devices.
pub fn dispatcher(manager: &mut ProcessManager, args: &SyscallArgs, context: &mut ProcessContext)
    -> (r: SyscallAction)
    requires
        old(manager).wf(),
        !(old(manager).status_of(old(manager).current) is Dead),
        args.syscall is SemSignal ==> ({
            let did = old(manager).proc_of(old(manager).current).data_id as int;
            let d0 = old(manager).datas@[did].semaphores;
            d0.has_key(args.arg0 as u32) ==> d0.count_of(args.arg0 as u32) < usize::MAX
        }),
    ensures
        final(manager).wf(),
        r == action_of(args.syscall),
        // operations deferred to the surrounding program change nothing here
        !(r is Handled) ==> *final(manager) == *old(manager) && *final(context) == *old(context),
        args.syscall is GetPid ==> *final(manager) == *old(manager) && *final(context) == (
        ProcessContext { rax: old(manager).current.0 as u64, ..*old(context) }),
        args.syscall is Stat ==> *final(manager) == *old(manager) && *final(context) == *old(
            context,
        ),
        args.syscall is ListApp ==> *final(manager) == *old(manager) && *final(context) == *old(
            context,
        ),
        // the caller's exit code is on record after an exit
        args.syscall is Exit ==> final(manager).exit_code_spec(old(manager).current)
            == Option::Some(args.arg0 as isize),
        // a wait on a finished process returns its code at once
        args.syscall is WaitPid ==> (old(manager).exit_code_spec(
            ProcessId(args.arg0 as u16),
        ) matches Option::Some(code) ==> *final(manager) == *old(manager) && *final(context) == (
        ProcessContext { rax: code as u64, ..*old(context) })),
        // a wait on a live process registers the caller against it
        args.syscall is WaitPid && old(manager).pid_valid(ProcessId(args.arg0 as u16)) && old(
            manager,
        ).proc_of(ProcessId(args.arg0 as u16)).exit_code is None ==> final(manager).waiters_of(
            ProcessId(args.arg0 as u16),
        ) == crate::manager::insert_waiter(
            old(manager).waiters_of(ProcessId(args.arg0 as u16)),
            old(manager).current,
        ),
        // a fork behaves exactly as the fork syscall's relation says
        args.syscall is Fork ==> exists|child: Option<ProcessId>|
            crate::manager::fork_rel(
                *old(manager),
                *final(manager),
                *old(context),
                *final(context),
                child,
            ),
    {
        match args.syscall {
            Syscall::Read => SyscallAction::ReadBytes,
            Syscall::Write => SyscallAction::WriteBytes,
            Syscall::GetPid => {
                let pid = sys_get_current_pid(manager);
                context.set_rax(pid);
                SyscallAction::Handled
            },
            Syscall::Spawn => SyscallAction::SpawnName,
            Syscall::Exit => {
                manager.exit(#[verifier::truncate] (args.arg0 as isize), context);
                SyscallAction::Handled
            },
            Syscall::WaitPid => {
                manager.wait_pid(ProcessId(#[verifier::truncate] (args.arg0 as u16)), context);
                SyscallAction::Handled
            },
            Syscall::Stat => SyscallAction::Handled,
            Syscall::ListApp => SyscallAction::Handled,
            Syscall::Fork => {
                let child = manager.fork(context);
                proof {
                    assert(crate::manager::fork_rel(
                        *old(manager),
                        *manager,
                        *old(context),
                        *context,
                        child,
                    ));
                }
                SyscallAction::Handled
            },
            Syscall::SemCreate => {
                let created = manager.new_sem(
                    #[verifier::truncate] (args.arg0 as u32),
                    args.arg1 as usize,
                );
                context.set_rax(if created { 0 } else { 1 });
                SyscallAction::Handled
            },
            Syscall::SemRemove => {
                let removed = manager.remove_sem(#[verifier::truncate] (args.arg0 as u32));
                context.set_rax(if removed { 0 } else { 1 });
                SyscallAction::Handled
            },
            Syscall::SemSignal => {
                manager.sem_signal(#[verifier::truncate] (args.arg0 as u32), context);
                SyscallAction::Handled
            },
            Syscall::SemWait => {
                manager.sem_wait(#[verifier::truncate] (args.arg0 as u32), context);
                SyscallAction::Handled
            },
            Syscall::Allocate => SyscallAction::AllocateHeap,
            Syscall::Deallocate => SyscallAction::DeallocateHeap,
            Syscall::Unknown => SyscallAction::Unknown,
        }
    }

} // verus!
