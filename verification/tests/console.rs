use ysos_core::data::ProcessData;
use ysos_core::input::InputBuffer;
use ysos_core::io::{backspace, stderr, stdin, stdout};
use ysos_core::manager::{init, AppEntry};
use ysos_core::syscall::{
    dispatcher, list_apps, list_process, sys_fork, sys_get_current_pid, Syscall, SyscallAction,
    SyscallArgs,
};
use ysos_core::context::ProcessContext;

#[test]
fn read_line_applies_backspace_editing() {
    let keys: Vec<u8> = b"ab\x08c\nzz".to_vec();
    let line = stdin().read_line(&keys);
    assert_eq!(line, b"ac".to_vec());
}

#[test]
fn read_line_delete_on_empty_line_is_harmless() {
    let keys: Vec<u8> = b"\x7f\x08x\r".to_vec();
    let line = stdin().read_line(&keys);
    assert_eq!(line, b"x".to_vec());
}

#[test]
fn read_line_without_break_takes_whole_input() {
    let keys: Vec<u8> = b"abc".to_vec();
    let line = stdin().read_line(&keys);
    assert_eq!(line, b"abc".to_vec());
}

#[test]
fn backspace_is_rub_out_sequence() {
    assert_eq!(backspace(), [0x08, 0x20, 0x08]);
}

#[test]
fn stdout_accumulates_written_bytes() {
    let mut out = stdout();
    out.write("hello");
    out.write(" world");
    assert_eq!(out.written, b"hello world".to_vec());
}

#[test]
fn stderr_accumulates_written_bytes() {
    let mut err = stderr();
    err.write("oops");
    assert_eq!(err.written, b"oops".to_vec());
}

#[test]
fn input_buffer_is_fifo_and_bounded() {
    let mut buf = InputBuffer::new();
    assert!(buf.try_pop_key().is_none());
    buf.push_key(b'a');
    buf.push_key(b'b');
    buf.push_key(b'c');
    assert_eq!(buf.pop_key(), b'a');
    assert_eq!(buf.try_pop_key(), Some(b'b'));
    assert_eq!(buf.pop_key(), b'c');
    // beyond the capacity, keys are dropped, earlier ones kept
    for _ in 0..200 {
        buf.push_key(b'x');
    }
    buf.push_key(b'y');
    let mut count = 0;
    let mut last = 0;
    while let Some(k) = buf.try_pop_key() {
        count += 1;
        last = k;
    }
    assert_eq!(count, 128);
    assert_eq!(last, b'x');
}

#[test]
fn environment_is_a_keyed_store() {
    let mut data = ProcessData::new();
    assert!(data.env("PATH").is_none());
    data.set_env("PATH", "/bin");
    data.set_env("HOME", "/root");
    assert_eq!(data.env("PATH"), Some("/bin".to_string()));
    data.set_env("PATH", "/usr/bin");
    assert_eq!(data.env("PATH"), Some("/usr/bin".to_string()));
    assert_eq!(data.env("HOME"), Some("/root".to_string()));
}

#[test]
fn manager_env_reads_current_data() {
    let m = init(vec![]);
    assert!(m.env("PATH").is_none());
}

#[test]
fn dispatcher_handles_get_pid() {
    let mut m = init(vec![]);
    let mut ctx = ProcessContext::empty();
    let args = SyscallArgs::new(Syscall::GetPid, 0, 0, 0);
    let action = dispatcher(&mut m, &args, &mut ctx);
    assert_eq!(action, SyscallAction::Handled);
    assert_eq!(ctx.rax, 1);
}

#[test]
fn dispatcher_defers_device_operations() {
    let mut m = init(vec![]);
    let mut ctx = ProcessContext::empty();
    let spawn = dispatcher(&mut m, &SyscallArgs::new(Syscall::Spawn, 0, 0, 0), &mut ctx);
    assert_eq!(spawn, SyscallAction::SpawnName);
    let read = dispatcher(&mut m, &SyscallArgs::new(Syscall::Read, 0, 0, 0), &mut ctx);
    assert_eq!(read, SyscallAction::ReadBytes);
    let unknown = dispatcher(&mut m, &SyscallArgs::new(Syscall::Unknown, 0, 0, 0), &mut ctx);
    assert_eq!(unknown, SyscallAction::Unknown);
}

#[test]
fn dispatcher_runs_semaphore_calls() {
    let mut m = init(vec![]);
    let mut ctx = ProcessContext::empty();
    let created = dispatcher(&mut m, &SyscallArgs::new(Syscall::SemCreate, 5, 1, 0), &mut ctx);
    assert_eq!(created, SyscallAction::Handled);
    assert_eq!(ctx.rax, 0);
    dispatcher(&mut m, &SyscallArgs::new(Syscall::SemWait, 5, 0, 0), &mut ctx);
    assert_eq!(ctx.rax, 0);
    dispatcher(&mut m, &SyscallArgs::new(Syscall::SemSignal, 5, 0, 0), &mut ctx);
    assert_eq!(ctx.rax, 0);
    let removed = dispatcher(&mut m, &SyscallArgs::new(Syscall::SemRemove, 5, 0, 0), &mut ctx);
    assert_eq!(removed, SyscallAction::Handled);
    assert_eq!(ctx.rax, 0);
}

#[test]
fn syscall_service_functions_answer() {
    let mut m = init(vec![AppEntry { name: "shell".to_string(), entry: 0x40_0000 }]);
    assert_eq!(sys_get_current_pid(&m), 1);
    assert_eq!(list_apps(&m), vec!["shell".to_string()]);
    assert_eq!(list_process(&m).len(), 1);
    let mut ctx = ProcessContext::empty();
    let child = sys_fork(&mut m, &mut ctx);
    assert!(child.is_some());
    assert_eq!(m.processes.len(), 2);
}
