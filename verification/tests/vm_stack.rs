use ysos_core::context::ProcessContext;
use ysos_core::manager::{init, AppEntry};
use ysos_core::stack::{
    Stack, StackError, PAGE_SIZE, STACK_DEF_PAGE, STACK_INIT_BOT, STACK_MAX, STACK_MAX_SIZE,
};

#[test]
fn stack_grows_downward_on_decreasing_faults() {
    let mut s = Stack::empty();
    s.init();
    assert_eq!(s.usage, STACK_DEF_PAGE);
    assert_eq!(s.stack_bot(), STACK_INIT_BOT);
    // strictly decreasing faults inside the window succeed one page at a time
    assert!(s.handle_page_fault(STACK_INIT_BOT - 8));
    assert_eq!(s.usage, 2);
    assert!(s.handle_page_fault(STACK_INIT_BOT - PAGE_SIZE - 8));
    assert_eq!(s.usage, 3);
    assert_eq!(s.stack_bot(), STACK_INIT_BOT - 2 * PAGE_SIZE);
    // a repeated fault on a backed page is a handled no-op
    assert!(s.handle_page_fault(STACK_INIT_BOT - 8));
    assert_eq!(s.usage, 3);
}

#[test]
fn fault_outside_window_is_rejected_regardless_of_capacity() {
    let mut s = Stack::empty();
    s.init();
    let below_window = STACK_MAX - STACK_MAX_SIZE - 8;
    assert!(!s.handle_page_fault(below_window));
    assert_eq!(s.usage, STACK_DEF_PAGE);
    assert!(!s.handle_page_fault(0x1234));
    assert_eq!(s.usage, STACK_DEF_PAGE);
}

#[test]
fn fault_above_backed_top_overflows() {
    // a stack that stops short of its window top, as a forked stack does
    let window_base = STACK_MAX - STACK_MAX_SIZE;
    let top_page = (window_base + 3 * PAGE_SIZE) / PAGE_SIZE;
    let mut s = Stack::new(top_page, 2);
    let above_top = window_base + 10 * PAGE_SIZE;
    assert_eq!(s.grow_stack(above_top), Err(StackError::Overflow));
    assert_eq!(s.usage, 2);
    assert!(!s.handle_page_fault(above_top));
}

#[test]
fn forked_stack_is_a_deep_copy() {
    let window_base = STACK_MAX - STACK_MAX_SIZE;
    let top_page = (window_base + 2 * PAGE_SIZE) / PAGE_SIZE;
    let mut parent = Stack::new(top_page, 1);
    parent.write_byte(0, 0xAB);
    let occupied = vec![window_base];
    let mut child = parent.fork(1, &occupied).unwrap();
    // the bytes carried over
    assert_eq!(child.read_byte(0), 0xAB);
    // and the copy is not aliased, in either direction
    child.write_byte(0, 0xCD);
    assert_eq!(parent.read_byte(0), 0xAB);
    parent.write_byte(1, 0x11);
    assert_eq!(child.read_byte(1), 0);
    // the child landed in a window of its own, below the parent's
    assert!(child.stack_bot() < parent.stack_bot());
    assert_ne!(child.stack_bot() / STACK_MAX_SIZE, parent.stack_bot() / STACK_MAX_SIZE);
}

#[test]
fn fork_probes_past_occupied_windows() {
    let window_base = STACK_MAX - STACK_MAX_SIZE;
    let top_page = (window_base + 2 * PAGE_SIZE) / PAGE_SIZE;
    let parent = Stack::new(top_page, 1);
    // the first window below is taken: the probe must go one further
    let occupied = vec![window_base, window_base - STACK_MAX_SIZE];
    let child = parent.fork(1, &occupied).unwrap();
    assert_eq!(child.stack_bot() / STACK_MAX_SIZE, (window_base - 2 * STACK_MAX_SIZE) / STACK_MAX_SIZE);
}

#[test]
fn manager_grows_current_stack_on_fault() {
    let mut m = init(vec![AppEntry { name: "shell".to_string(), entry: 0x40_0000 }]);
    let pid = m.spawn("shell").unwrap();
    let mut ctx = ProcessContext::empty();
    // run the spawned process, then fault one page below its stack
    m.switch(&mut ctx);
    assert_eq!(m.get_current_pid(), pid);
    let bot = m.processes[(pid.0 - 1) as usize]
        .vm
        .as_ref()
        .unwrap()
        .stack
        .stack_bot();
    assert!(m.handle_page_fault(bot - 8, false));
    let grown = m.processes[(pid.0 - 1) as usize]
        .vm
        .as_ref()
        .unwrap()
        .stack
        .usage;
    assert_eq!(grown, STACK_DEF_PAGE + 1);
    // a protection violation is never stack growth
    assert!(!m.handle_page_fault(bot - 8, true));
}

#[test]
fn memory_usage_counts_backed_bytes() {
    let mut s = Stack::empty();
    s.init();
    assert_eq!(s.memory_usage(), STACK_DEF_PAGE * PAGE_SIZE);
    assert_eq!(s.stack_top(), STACK_MAX);
}
