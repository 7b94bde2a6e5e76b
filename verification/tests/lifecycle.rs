use ysos_core::context::ProcessContext;
use ysos_core::manager::{init, AppEntry, ProcessManager};
use ysos_core::pid::{ProcessId, UniqueIdAllocator};
use ysos_core::process::ProgramStatus;

fn fresh_manager() -> ProcessManager {
    init(vec![
        AppEntry { name: "shell".to_string(), entry: 0x40_0000 },
        AppEntry { name: "counter".to_string(), entry: 0x41_0000 },
    ])
}

#[test]
fn test_unique_id() {
    let mut allocator = UniqueIdAllocator::new();
    let id1 = allocator.draw();
    let id2 = allocator.draw();
    assert_ne!(id1, id2);
}

#[test]
fn unique_id_get_returns_value() {
    let mut allocator = UniqueIdAllocator::new();
    let id1 = allocator.draw();
    assert_eq!(id1.get(), 0);
    let id2 = allocator.draw();
    assert_eq!(id2.get(), 1);
}

#[test]
fn init_registers_running_kernel() {
    let m = fresh_manager();
    assert_eq!(m.processes.len(), 1);
    assert_eq!(m.processes[0].pid, ProcessId(1));
    assert_eq!(m.processes[0].status, ProgramStatus::Running);
    assert_eq!(m.processes[0].name, "kernel");
    assert!(m.processes[0].parent.is_none());
    assert_eq!(m.get_current_pid(), ProcessId(1));
}

#[test]
fn spawn_assigns_monotonic_pids() {
    let mut m = fresh_manager();
    let a = m.spawn("shell").unwrap();
    let b = m.spawn("counter").unwrap();
    assert_eq!(a, ProcessId(2));
    assert_eq!(b, ProcessId(3));
    assert_eq!(m.processes.len(), 3);
    // every record carries exactly its slot's identifier
    for (i, p) in m.processes.iter().enumerate() {
        assert_eq!(p.pid.0 as usize, i + 1);
    }
}

#[test]
fn spawn_unknown_name_fails_cleanly() {
    let mut m = fresh_manager();
    assert!(m.spawn("no-such-app").is_none());
    assert_eq!(m.processes.len(), 1);
    assert_eq!(m.ready_queue.len(), 0);
}

#[test]
fn spawn_installs_entry_context() {
    let mut m = fresh_manager();
    let pid = m.spawn("shell").unwrap();
    let p = &m.processes[(pid.0 - 1) as usize];
    assert_eq!(p.status, ProgramStatus::Ready);
    assert_eq!(p.context.instruction_pointer, 0x40_0000);
    assert_eq!(p.context.rax, 0);
    assert_eq!(p.name, "shell");
    assert_eq!(p.parent, Some(ProcessId(1)));
    // the stack pointer sits just below the top of the window for pid 2
    let expected = ysos_core::stack::STACK_INIT_TOP - ysos_core::stack::STACK_MAX_SIZE;
    assert_eq!(p.context.stack_pointer, expected);
}

#[test]
fn switch_is_round_robin() {
    let mut m = fresh_manager();
    m.spawn_kernel_thread(0x1000, "worker-a".to_string(), None)
        .unwrap();
    m.spawn_kernel_thread(0x2000, "worker-b".to_string(), None)
        .unwrap();
    let mut ctx = ProcessContext::empty();
    // three ready processes (kernel running, two queued): six consecutive
    // ticks schedule each exactly twice, in rotation
    let mut scheduled = Vec::new();
    for _ in 0..6 {
        m.switch(&mut ctx);
        scheduled.push(m.get_current_pid().0);
    }
    assert_eq!(scheduled, vec![2, 3, 1, 2, 3, 1]);
}

#[test]
fn switch_skips_stale_queue_entries() {
    let mut m = fresh_manager();
    let a = m.spawn_kernel_thread(0x1000, "worker-a".to_string(), None).unwrap();
    let b = m.spawn_kernel_thread(0x2000, "worker-b".to_string(), None).unwrap();
    // worker-a dies while still queued: its stale entry must be discarded
    m.kill(a, -1);
    let mut ctx = ProcessContext::empty();
    m.switch(&mut ctx);
    assert_eq!(m.get_current_pid(), b);
}

#[test]
fn switch_falls_back_to_current_when_queue_empty() {
    let mut m = fresh_manager();
    let mut ctx = ProcessContext::empty();
    m.switch(&mut ctx);
    assert_eq!(m.get_current_pid(), ProcessId(1));
    assert_eq!(m.processes[0].status, ProgramStatus::Running);
}

#[test]
fn ticks_count_saves() {
    let mut m = fresh_manager();
    let mut ctx = ProcessContext::empty();
    m.switch(&mut ctx);
    m.switch(&mut ctx);
    assert_eq!(m.processes[0].ticks, 2);
}

#[test]
fn kill_unknown_or_dead_is_noop() {
    let mut m = fresh_manager();
    let pid = m.spawn("shell").unwrap();
    m.kill(ProcessId(99), 1);
    assert_eq!(m.processes.len(), 2);
    m.kill(pid, 5);
    assert_eq!(m.get_exit_code(pid), Some(5));
    // a second kill does not disturb the recorded code
    m.kill(pid, 9);
    assert_eq!(m.get_exit_code(pid), Some(5));
}

#[test]
fn wait_after_exit_returns_code_without_blocking() {
    let mut m = fresh_manager();
    let pid = m.spawn("shell").unwrap();
    m.kill(pid, 42);
    let mut ctx = ProcessContext::empty();
    m.wait_pid(pid, &mut ctx);
    assert_eq!(ctx.rax, 42);
    // the caller was not blocked and still runs
    assert_eq!(m.get_current_pid(), ProcessId(1));
    assert_eq!(m.processes[0].status, ProgramStatus::Running);
    // asking again is idempotent: the same code comes back
    let mut ctx2 = ProcessContext::empty();
    m.wait_pid(pid, &mut ctx2);
    assert_eq!(ctx2.rax, 42);
}

#[test]
fn wait_then_kill_wakes_waiter_with_code() {
    let mut m = fresh_manager();
    let target = m.spawn("shell").unwrap();
    let mut ctx = ProcessContext::empty();
    // the kernel waits for the live target: it blocks, the target runs
    m.wait_pid(target, &mut ctx);
    assert_eq!(m.processes[0].status, ProgramStatus::Blocked);
    assert_eq!(m.get_current_pid(), target);
    // the target exits with code 7: the kernel is woken with exactly 7
    m.exit(7, &mut ctx);
    assert_eq!(m.processes[0].status, ProgramStatus::Running);
    assert_eq!(m.get_current_pid(), ProcessId(1));
    assert_eq!(ctx.rax, 7);
    assert_eq!(m.get_exit_code(target), Some(7));
}

#[test]
fn wait_unknown_pid_changes_nothing() {
    let mut m = fresh_manager();
    let mut ctx = ProcessContext::empty();
    ctx.set_rax(77);
    m.wait_pid(ProcessId(99), &mut ctx);
    assert_eq!(ctx.rax, 77);
    assert_eq!(m.get_current_pid(), ProcessId(1));
    assert_eq!(m.processes[0].status, ProgramStatus::Running);
}

#[test]
fn still_alive_follows_exit_code() {
    let mut m = fresh_manager();
    let pid = m.spawn("shell").unwrap();
    assert!(m.still_alive(pid));
    assert!(m.still_alive(ProcessId(99)));
    m.kill(pid, 0);
    assert!(!m.still_alive(pid));
}

#[test]
fn fork_duplicates_the_caller() {
    let mut m = fresh_manager();
    let mut ctx = ProcessContext::empty();
    ctx.instruction_pointer = 0x5000;
    ctx.stack_pointer = ysos_core::stack::KSTACK_INIT_TOP;
    let child = m.fork(&mut ctx).unwrap();
    assert_eq!(child, ProcessId(2));
    let parent = &m.processes[0];
    let kid = &m.processes[1];
    // parent's saved return value is the child's pid; the child's is zero
    assert_eq!(parent.context.rax, 2);
    assert_eq!(kid.context.rax, 0);
    assert_eq!(kid.context.instruction_pointer, 0x5000);
    assert_eq!(kid.name, "kernel");
    assert_eq!(kid.parent, Some(ProcessId(1)));
    // the two share one data instance
    assert_eq!(kid.data_id, parent.data_id);
    // the child was scheduled first (enqueued before the parent)
    assert_eq!(m.get_current_pid(), child);
}

#[test]
fn fork_child_stack_window_is_fresh() {
    let mut m = fresh_manager();
    let mut ctx = ProcessContext::empty();
    m.fork(&mut ctx).unwrap();
    let pw = m.processes[0].vm.as_ref().unwrap().stack.stack_bot()
        / ysos_core::stack::STACK_MAX_SIZE;
    let cw = m.processes[1].vm.as_ref().unwrap().stack.stack_bot()
        / ysos_core::stack::STACK_MAX_SIZE;
    assert_ne!(pw, cw);
}

#[test]
fn list_process_skips_dead_records() {
    let mut m = fresh_manager();
    let a = m.spawn("shell").unwrap();
    let b = m.spawn("counter").unwrap();
    m.kill(a, 0);
    let rows = m.list_process();
    assert_eq!(rows.len(), 2);
    assert_eq!(rows[0].pid, 1);
    assert_eq!(rows[1].pid, b.0);
    assert_eq!(rows[1].name, "counter");
    assert_eq!(rows[1].status, ProgramStatus::Ready);
}

#[test]
fn list_apps_names_every_image() {
    let m = fresh_manager();
    let names = m.list_apps();
    assert_eq!(names, vec!["shell".to_string(), "counter".to_string()]);
}
