use ysos_core::context::ProcessContext;
use ysos_core::manager::{init, AppEntry, ProcessManager};
use ysos_core::pid::ProcessId;
use ysos_core::process::ProgramStatus;
use ysos_core::sync::{SemaphoreResult, SemaphoreSet};

fn fresh_manager() -> ProcessManager {
    init(vec![AppEntry { name: "shell".to_string(), entry: 0x40_0000 }])
}

fn sem_state(m: &ProcessManager, data_id: usize, key: u32) -> (usize, Vec<u16>) {
    for (k, sem) in m.datas[data_id].semaphores.sems.iter() {
        if *k == key {
            let waiters: Vec<u16> = sem.waiters.iter().map(|p| p.0).collect();
            return (sem.count, waiters);
        }
    }
    panic!("no semaphore under key {}", key);
}

#[test]
fn sem_create_and_duplicate() {
    let mut m = fresh_manager();
    assert!(m.new_sem(5, 2));
    assert!(!m.new_sem(5, 9));
    let (count, waiters) = sem_state(&m, 0, 5);
    assert_eq!(count, 2);
    assert!(waiters.is_empty());
}

#[test]
fn sem_remove_only_existing() {
    let mut m = fresh_manager();
    assert!(!m.remove_sem(5));
    assert!(m.new_sem(5, 0));
    assert!(m.remove_sem(5));
    assert!(!m.remove_sem(5));
}

#[test]
fn sem_wait_takes_token_immediately() {
    let mut m = fresh_manager();
    m.new_sem(5, 1);
    let mut ctx = ProcessContext::empty();
    m.sem_wait(5, &mut ctx);
    assert_eq!(ctx.rax, 0);
    let (count, waiters) = sem_state(&m, 0, 5);
    assert_eq!(count, 0);
    assert!(waiters.is_empty());
    // the caller did not block
    assert_eq!(m.get_current_pid(), ProcessId(1));
    assert_eq!(m.processes[0].status, ProgramStatus::Running);
}

#[test]
fn sem_missing_key_reports_failure() {
    let mut m = fresh_manager();
    let mut ctx = ProcessContext::empty();
    m.sem_wait(5, &mut ctx);
    assert_eq!(ctx.rax, 1);
    let mut ctx2 = ProcessContext::empty();
    m.sem_signal(5, &mut ctx2);
    assert_eq!(ctx2.rax, 1);
}

#[test]
fn sem_signal_without_waiters_frees_token() {
    let mut m = fresh_manager();
    m.new_sem(5, 0);
    let mut ctx = ProcessContext::empty();
    m.sem_signal(5, &mut ctx);
    assert_eq!(ctx.rax, 0);
    let (count, _) = sem_state(&m, 0, 5);
    assert_eq!(count, 1);
}

#[test]
fn sem_exhausted_blocks_callers_fifo() {
    // a burst of waits beyond the count blocks the excess in order; each
    // signal wakes exactly one, in that order, with no double wake
    let mut m = fresh_manager();
    m.new_sem(5, 0);
    let mut ctx = ProcessContext::empty();
    let b = m.fork(&mut ctx).unwrap();
    // the child b runs; it waits and blocks, control returns to the kernel
    assert_eq!(m.get_current_pid(), b);
    m.sem_wait(5, &mut ctx);
    assert_eq!(m.get_current_pid(), ProcessId(1));
    let c = m.fork(&mut ctx).unwrap();
    assert_eq!(m.get_current_pid(), c);
    m.sem_wait(5, &mut ctx);
    assert_eq!(m.get_current_pid(), ProcessId(1));
    let (count, waiters) = sem_state(&m, 0, 5);
    assert_eq!(count, 0);
    assert_eq!(waiters, vec![b.0, c.0]);
    // first signal wakes b alone
    m.sem_signal(5, &mut ctx);
    assert_eq!(m.processes[(b.0 - 1) as usize].status, ProgramStatus::Ready);
    assert_eq!(m.processes[(c.0 - 1) as usize].status, ProgramStatus::Blocked);
    let (count, waiters) = sem_state(&m, 0, 5);
    assert_eq!(count, 0);
    assert_eq!(waiters, vec![c.0]);
    // second signal wakes c
    m.sem_signal(5, &mut ctx);
    assert_eq!(m.processes[(c.0 - 1) as usize].status, ProgramStatus::Ready);
    let (count, waiters) = sem_state(&m, 0, 5);
    assert_eq!(count, 0);
    assert!(waiters.is_empty());
}

#[test]
fn sem_token_transfer_scenario() {
    // A creates key 5 with count 0; B waits and blocks; A signals, waking
    // B by handing the token over; C's wait then still finds count 0 and
    // blocks: the token was transferred, not incremented twice
    let mut m = fresh_manager();
    assert!(m.new_sem(5, 0));
    let mut ctx = ProcessContext::empty();
    let b = m.fork(&mut ctx).unwrap();
    assert_eq!(m.get_current_pid(), b);
    m.sem_wait(5, &mut ctx);
    let c = m.fork(&mut ctx).unwrap();
    assert_eq!(m.get_current_pid(), c);
    // C yields so that A can signal first
    m.switch(&mut ctx);
    assert_eq!(m.get_current_pid(), ProcessId(1));
    m.sem_signal(5, &mut ctx);
    assert_eq!(m.processes[(b.0 - 1) as usize].status, ProgramStatus::Ready);
    let (count, _) = sem_state(&m, 0, 5);
    assert_eq!(count, 0);
    // back to C, whose wait now blocks
    m.switch(&mut ctx);
    assert_eq!(m.get_current_pid(), c);
    m.sem_wait(5, &mut ctx);
    assert_eq!(m.processes[(c.0 - 1) as usize].status, ProgramStatus::Blocked);
    let (count, waiters) = sem_state(&m, 0, 5);
    assert_eq!(count, 0);
    assert_eq!(waiters, vec![c.0]);
}

#[test]
fn sem_table_direct_operations() {
    let mut set = SemaphoreSet::new();
    assert!(set.insert(1, 0));
    assert!(!set.insert(1, 3));
    assert!(matches!(set.wait(9, ProcessId(4)), SemaphoreResult::NotExist));
    assert!(matches!(set.wait(1, ProcessId(4)), SemaphoreResult::Block(ProcessId(4))));
    assert!(matches!(set.signal(1), SemaphoreResult::WakeUp(ProcessId(4))));
    assert!(matches!(set.signal(1), SemaphoreResult::Done));
    assert!(matches!(set.wait(1, ProcessId(4)), SemaphoreResult::Done));
    assert!(set.remove(1));
}

#[test]
fn user_semaphore_handles_route_to_kernel() {
    let mut m = fresh_manager();
    let mut ctx = ProcessContext::empty();
    let sem = ysos_core::usersync::Semaphore::new(7);
    assert!(sem.init(&mut m, 1));
    sem.wait(&mut m, &mut ctx);
    assert_eq!(ctx.rax, 0);
    sem.signal(&mut m, &mut ctx);
    let (count, _) = sem_state(&m, 0, 7);
    assert_eq!(count, 1);
    assert!(sem.remove(&mut m));
}

#[test]
fn spinlock_tracks_holder() {
    let mut lock = ysos_core::usersync::SpinLock::new();
    assert!(!lock.locked);
    lock.acquire();
    assert!(lock.locked);
    lock.release();
    assert!(!lock.locked);
}
