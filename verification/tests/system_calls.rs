use fracture_kernel::ipc::{IpcManager, MAX_MESSAGE_SIZE};
use fracture_kernel::process::{ProcessManager, ProcessState};
use fracture_kernel::signal::{Signal, SignalAction, SignalManager};
use fracture_kernel::syscall::{
    on_console, on_ipc, on_processes, on_signals, sys_exit, sys_fork, sys_getpid, sys_kill,
    sys_read, sys_receive, sys_send, sys_write, syscall_entry, syscall_handler, user_buffer,
    Kernel, ProcessStep, SyscallArgs, SyscallNumber, TrapFrame, UserBuffer, STDERR, STDOUT,
    SYSCALL_ERROR,
};

const TABLE: [(u64, SyscallNumber); 14] = [
    (0, SyscallNumber::Read),
    (1, SyscallNumber::Write),
    (2, SyscallNumber::Open),
    (3, SyscallNumber::Close),
    (9, SyscallNumber::Mmap),
    (11, SyscallNumber::Munmap),
    (39, SyscallNumber::GetPid),
    (57, SyscallNumber::Fork),
    (59, SyscallNumber::Exec),
    (60, SyscallNumber::Exit),
    (61, SyscallNumber::Wait),
    (62, SyscallNumber::Kill),
    (69, SyscallNumber::Send),
    (70, SyscallNumber::Receive),
];

fn running_kernel() -> Kernel {
    let mut kernel = Kernel::new();
    assert_eq!(kernel.processes.schedule(), Some(1));
    kernel
}

#[test]
fn syscall_numbers() {
    for (n, call) in TABLE {
        assert_eq!(SyscallNumber::from_u64(n), Some(call));
        assert_eq!(call.as_u64(), n);
    }
    for n in [4u64, 10, 12, 58, 63, 68, 71, 1000, u64::MAX] {
        assert_eq!(SyscallNumber::from_u64(n), None);
    }
}

#[test]
fn error_value_is_all_bits_set() {
    assert_eq!(SYSCALL_ERROR, u64::MAX);
    assert_eq!((STDOUT, STDERR), (1, 2));
}

#[test]
fn unknown_and_missing_calls_return_the_error_value() {
    let mut kernel = running_kernel();
    for n in [2u64, 3, 9, 11, 59, 61, 4, 12345, u64::MAX] {
        let ret = syscall_handler(&mut kernel, n, 1, 2, 3, &[1, 2, 3]);
        assert_eq!(ret.value, u64::MAX);
        assert!(ret.output.is_empty());
    }
    assert!(kernel.console.is_empty());
    assert_eq!(kernel.processes.process_count(), 1);
    assert_eq!(kernel.processes.current_pid(), Some(1));
}

#[test]
fn write_reaches_the_console_only() {
    let mut console = Vec::new();
    assert_eq!(sys_write(1, b"hello ", &mut console), 6);
    assert_eq!(sys_write(2, b"world", &mut console), 5);
    assert_eq!(sys_write(0, b"x", &mut console), u64::MAX);
    assert_eq!(sys_write(3, b"x", &mut console), u64::MAX);
    assert_eq!(sys_write(-1, b"x", &mut console), u64::MAX);
    assert_eq!(sys_write(1, b"", &mut console), 0);
    assert_eq!(console, b"hello world".to_vec());
}

#[test]
fn write_through_the_dispatcher() {
    let mut kernel = running_kernel();
    let ret = syscall_handler(&mut kernel, 1, 1, 0x1000, 2, b"ok");
    assert_eq!(ret.value, 2);
    assert!(ret.output.is_empty());
    let ret = syscall_handler(&mut kernel, 1, 7, 0x1000, 2, b"no");
    assert_eq!(ret.value, u64::MAX);
    let ret = syscall_handler(&mut kernel, 1, 0x1_0000_0002, 0x1000, 1, b"!");
    assert_eq!(ret.value, 1);
    assert_eq!(kernel.console, b"ok!".to_vec());
}

#[test]
fn read_reports_no_bytes() {
    assert_eq!(sys_read(0, 0x1000, 100), 0);
    let mut kernel = running_kernel();
    assert_eq!(syscall_handler(&mut kernel, 0, 0, 0x1000, 100, &[]).value, 0);
}

#[test]
fn getpid_is_zero_without_current_process() {
    let mut pm = ProcessManager::new();
    assert_eq!(sys_getpid(&pm), 0);
    pm.create_process(None);
    assert_eq!(sys_getpid(&pm), 0);
    pm.schedule();
    assert_eq!(sys_getpid(&pm), 1);
    let mut kernel = Kernel::new();
    assert_eq!(syscall_handler(&mut kernel, 39, 0, 0, 0, &[]).value, 0);
    kernel.processes.schedule();
    assert_eq!(syscall_handler(&mut kernel, 39, 0, 0, 0, &[]).value, 1);
}

#[test]
fn exit_terminates_the_current_process() {
    let mut pm = ProcessManager::new();
    pm.create_process(None);
    assert_eq!(sys_exit(&mut pm, 0), 0);
    assert_eq!(pm.get_process(1).unwrap().state, ProcessState::Ready);
    pm.schedule();
    assert_eq!(sys_exit(&mut pm, 3), 0);
    assert_eq!(pm.get_process(1).unwrap().state, ProcessState::Terminated);
    assert_eq!(pm.current_pid(), None);
    let mut kernel = running_kernel();
    assert_eq!(syscall_handler(&mut kernel, 60, 0, 0, 0, &[]).value, 0);
    assert_eq!(kernel.processes.current_pid(), None);
    assert_eq!(
        kernel.processes.get_process(1).unwrap().state,
        ProcessState::Terminated
    );
}

#[test]
fn fork_registers_the_child_everywhere() {
    let mut pm = ProcessManager::new();
    let mut ipc = IpcManager::new();
    let mut signals = SignalManager::new();
    pm.create_process(None);
    pm.schedule();
    let child = sys_fork(&mut pm, &mut ipc, &mut signals);
    assert_eq!(child, 2);
    let block = pm.get_process(child).unwrap();
    assert_eq!(block.parent_pid, Some(1));
    assert_eq!(block.state, ProcessState::Ready);
    assert_eq!(sys_send(pm.current_pid(), &mut ipc, child, b"hi"), 0);
    assert_eq!(ipc.message_count(child), 1);
    let msg = ipc.receive(child).unwrap();
    assert_eq!((msg.sender, msg.receiver, msg.data), (1, child, b"hi".to_vec()));
    assert_eq!(sys_kill(pm.current_pid(), &mut signals, child, 15), 0);
    assert_eq!(
        signals.process_signals(child),
        Some((Signal::SIGTERM, SignalAction::Default))
    );
    let second = sys_fork(&mut pm, &mut ipc, &mut signals);
    assert_eq!(second, 3);
    assert!(second > child);
}

#[test]
fn fork_without_current_process_has_no_parent() {
    let mut kernel = Kernel::new();
    let ret = syscall_handler(&mut kernel, 57, 0, 0, 0, &[]);
    assert_eq!(ret.value, 2);
    assert_eq!(kernel.processes.get_process(2).unwrap().parent_pid, None);
}

#[test]
fn send_and_receive_through_the_dispatcher() {
    let mut kernel = running_kernel();
    let child = syscall_handler(&mut kernel, 57, 0, 0, 0, &[]).value;
    assert_eq!(child, 2);
    assert_eq!(
        syscall_handler(&mut kernel, 69, child, 0x1000, 5, b"hello").value,
        0
    );
    assert_eq!(
        syscall_handler(&mut kernel, 69, child, 0x1000, 3, b"abc").value,
        0
    );
    assert_eq!(
        syscall_handler(&mut kernel, 69, 99, 0x1000, 3, b"abc").value,
        u64::MAX
    );
    // Pid 1 is not registered for messages: nothing waits for it.
    let ret = syscall_handler(&mut kernel, 70, 0x2000, 16, 0, &[]);
    assert_eq!(ret.value, 0);
    assert!(ret.output.is_empty());
    // Let the child run.
    assert_eq!(kernel.processes.schedule(), Some(2));
    let ret = syscall_handler(&mut kernel, 70, 0x2000, 3, 0, &[]);
    assert_eq!(ret.value, 3);
    assert_eq!(ret.output, b"hel".to_vec());
    let ret = syscall_handler(&mut kernel, 70, 0x2000, 16, 0, &[]);
    assert_eq!(ret.value, 3);
    assert_eq!(ret.output, b"abc".to_vec());
    let ret = syscall_handler(&mut kernel, 70, 0x2000, 16, 0, &[]);
    assert_eq!(ret.value, 0);
    assert!(ret.output.is_empty());
}

#[test]
fn send_and_receive_need_a_current_process() {
    let pm = ProcessManager::new();
    let mut ipc = IpcManager::new();
    ipc.register_process(1);
    assert_eq!(sys_send(pm.current_pid(), &mut ipc, 1, b"x"), u64::MAX);
    assert_eq!(ipc.message_count(1), 0);
    let ret = sys_receive(pm.current_pid(), &mut ipc, 10);
    assert_eq!(ret.value, u64::MAX);
    assert!(ret.output.is_empty());
}

#[test]
fn send_refuses_oversized_and_overflowing_messages() {
    let mut pm = ProcessManager::new();
    let mut ipc = IpcManager::new();
    pm.create_process(None);
    pm.schedule();
    ipc.register_process(1);
    let big = vec![0u8; MAX_MESSAGE_SIZE + 1];
    assert_eq!(sys_send(pm.current_pid(), &mut ipc, 1, &big), u64::MAX);
    assert_eq!(ipc.message_count(1), 0);
    for _ in 0..64 {
        assert_eq!(sys_send(pm.current_pid(), &mut ipc, 1, b"m"), 0);
    }
    assert_eq!(sys_send(pm.current_pid(), &mut ipc, 1, b"m"), u64::MAX);
    assert_eq!(ipc.message_count(1), 64);
}

#[test]
fn receive_cuts_to_the_buffer_and_consumes_the_message() {
    let mut pm = ProcessManager::new();
    let mut ipc = IpcManager::new();
    pm.create_process(None);
    pm.schedule();
    ipc.register_process(1);
    assert_eq!(sys_send(pm.current_pid(), &mut ipc, 1, b"abcdef"), 0);
    assert_eq!(sys_send(pm.current_pid(), &mut ipc, 1, b"gh"), 0);
    let ret = sys_receive(pm.current_pid(), &mut ipc, 0);
    assert_eq!(ret.value, 0);
    assert!(ret.output.is_empty());
    assert_eq!(ipc.message_count(1), 1);
    let ret = sys_receive(pm.current_pid(), &mut ipc, 2);
    assert_eq!((ret.value, ret.output), (2, b"gh".to_vec()));
    let ret = sys_receive(pm.current_pid(), &mut ipc, 2);
    assert_eq!(ret.value, 0);
}

#[test]
fn kill_sends_a_signal_in_the_name_of_the_current_process() {
    let mut kernel = running_kernel();
    kernel.signals.register_process(1);
    kernel
        .signals
        .set_handler(1, Signal::SIGUSR1, SignalAction::Handler(0x77));
    assert_eq!(syscall_handler(&mut kernel, 62, 1, 10, 0, &[]).value, 0);
    assert_eq!(syscall_handler(&mut kernel, 62, 1, 16, 0, &[]).value, u64::MAX);
    assert_eq!(syscall_handler(&mut kernel, 62, 1, 0, 0, &[]).value, u64::MAX);
    assert_eq!(syscall_handler(&mut kernel, 62, 42, 9, 0, &[]).value, 0);
    assert_eq!(
        kernel.signals.process_signals(1),
        Some((Signal::SIGUSR1, SignalAction::Handler(0x77)))
    );
    assert_eq!(kernel.signals.process_signals(1), None);
    assert_eq!(kernel.signals.process_signals(42), None);
}

#[test]
fn kill_rejects_unknown_signal_numbers() {
    let pm = ProcessManager::new();
    let mut signals = SignalManager::new();
    signals.register_process(3);
    assert_eq!(sys_kill(pm.current_pid(), &mut signals, 3, 21), u64::MAX);
    assert_eq!(sys_kill(pm.current_pid(), &mut signals, 3, 2), 0);
    assert_eq!(
        signals.process_signals(3),
        Some((Signal::SIGINT, SignalAction::Default))
    );
}

#[test]
fn user_buffer_of_each_call() {
    assert_eq!(
        user_buffer(1, 1, 0x1000, 12),
        UserBuffer::Source { address: 0x1000, length: 12 }
    );
    assert_eq!(
        user_buffer(1, 2, 0x1000, 12),
        UserBuffer::Source { address: 0x1000, length: 12 }
    );
    assert_eq!(user_buffer(1, 3, 0x1000, 12), UserBuffer::Unused);
    assert_eq!(
        user_buffer(69, 5, 0x2000, 7),
        UserBuffer::Source { address: 0x2000, length: 7 }
    );
    assert_eq!(
        user_buffer(70, 0x3000, 64, 0),
        UserBuffer::Destination { address: 0x3000, length: 64 }
    );
    for n in [0u64, 2, 3, 9, 11, 39, 57, 59, 60, 61, 62, 5, 1000] {
        assert_eq!(user_buffer(n, 1, 2, 3), UserBuffer::Unused);
    }
}

fn frame(rax: u64, rdi: u64, rsi: u64, rdx: u64) -> TrapFrame {
    TrapFrame {
        rax,
        rdi,
        rsi,
        rdx,
        rcx: 0x40_1000,
        r11: 0x202,
        rsp: 0x7fff_0000,
        rbp: 1,
        rbx: 2,
        r12: 3,
        r13: 4,
        r14: 5,
        r15: 6,
    }
}

#[test]
fn entry_takes_each_argument_from_its_own_register() {
    let mut kernel = running_kernel();
    kernel.ipc.register_process(1);
    // send(receiver = 1): the receiver is in rdi, not the call number.
    let mut regs = frame(69, 1, 0x5000, 4);
    let out = syscall_entry(&mut kernel, &mut regs, b"ping");
    assert!(out.is_empty());
    assert_eq!(regs, TrapFrame { rax: 0, ..frame(69, 1, 0x5000, 4) });
    assert_eq!(kernel.ipc.message_count(1), 1);
    // receive(buffer, length = 3): the length is in rsi.
    let mut regs = frame(70, 0x6000, 3, 0);
    let out = syscall_entry(&mut kernel, &mut regs, &[]);
    assert_eq!(out, b"pin".to_vec());
    assert_eq!(regs, TrapFrame { rax: 3, ..frame(70, 0x6000, 3, 0) });
    // write(fd = 2): the descriptor is in rdi.
    let mut regs = frame(1, 2, 0x5000, 3);
    let out = syscall_entry(&mut kernel, &mut regs, b"err");
    assert!(out.is_empty());
    assert_eq!(regs.rax, 3);
    assert_eq!(kernel.console, b"err".to_vec());
}

#[test]
fn entry_reports_errors_in_rax_and_keeps_the_user_context() {
    let mut kernel = running_kernel();
    let mut regs = frame(4242, 1, 2, 3);
    let out = syscall_entry(&mut kernel, &mut regs, &[]);
    assert!(out.is_empty());
    assert_eq!(regs.rax, u64::MAX);
    assert_eq!((regs.rcx, regs.r11, regs.rsp), (0x40_1000, 0x202, 0x7fff_0000));
    assert_eq!((regs.rdi, regs.rsi, regs.rdx), (1, 2, 3));
    assert_eq!(
        (regs.rbp, regs.rbx, regs.r12, regs.r13, regs.r14, regs.r15),
        (1, 2, 3, 4, 5, 6)
    );
}

#[test]
fn provided_calls() {
    for (_, call) in TABLE {
        let expected = !matches!(
            call,
            SyscallNumber::Open
                | SyscallNumber::Close
                | SyscallNumber::Exec
                | SyscallNumber::Wait
                | SyscallNumber::Mmap
                | SyscallNumber::Munmap
        );
        assert_eq!(call.is_provided(), expected);
    }
    let args = |number| SyscallArgs { number, arg1: 0, arg2: 0, arg3: 0 };
    assert_eq!(args(39).decode(), Some(SyscallNumber::GetPid));
    assert_eq!(args(70).decode(), Some(SyscallNumber::Receive));
    assert_eq!(args(9).decode(), None);
    assert_eq!(args(2).decode(), None);
    assert_eq!(args(777).decode(), None);
}

#[test]
fn frame_hands_out_arguments_and_takes_the_value() {
    let mut regs = frame(69, 11, 22, 33);
    assert_eq!(
        regs.arguments(),
        SyscallArgs { number: 69, arg1: 11, arg2: 22, arg3: 33 }
    );
    regs.set_return(5);
    assert_eq!(regs, TrapFrame { rax: 5, ..frame(69, 11, 22, 33) });
}

#[test]
fn a_fork_in_four_parts() {
    let mut pm = ProcessManager::new();
    let mut ipc = IpcManager::new();
    let mut signals = SignalManager::new();
    let mut console = Vec::new();
    pm.create_process(None);
    pm.schedule();
    let args = SyscallArgs { number: 57, arg1: 0, arg2: 0, arg3: 0 };
    let step = on_processes(&mut pm, &args);
    assert_eq!(step, ProcessStep { current: Some(1), value: 2 });
    assert_eq!(pm.get_process(2).unwrap().parent_pid, Some(1));
    let ret = on_ipc(&mut ipc, &args, &[], step);
    assert_eq!(ret.value, 2);
    assert!(ret.output.is_empty());
    let value = on_signals(&mut signals, &args, step.current, ret.value);
    assert_eq!(value, 2);
    let value = on_console(&mut console, &args, &[], value);
    assert_eq!(value, 2);
    assert!(console.is_empty());
    assert_eq!(sys_send(Some(1), &mut ipc, 2, b"x"), 0);
    assert_eq!(sys_kill(Some(1), &mut signals, 2, 2), 0);
    assert_eq!(
        signals.process_signals(2),
        Some((Signal::SIGINT, SignalAction::Default))
    );
}

#[test]
fn each_part_leaves_other_calls_alone() {
    let mut pm = ProcessManager::new();
    let mut ipc = IpcManager::new();
    let mut signals = SignalManager::new();
    let mut console = Vec::new();
    pm.create_process(None);
    pm.schedule();
    ipc.register_process(1);
    signals.register_process(1);
    // A write acts on the console only.
    let args = SyscallArgs { number: 1, arg1: 1, arg2: 0x1000, arg3: 2 };
    let step = on_processes(&mut pm, &args);
    assert_eq!(step, ProcessStep { current: Some(1), value: 0 });
    let ret = on_ipc(&mut ipc, &args, b"hi", step);
    let value = on_signals(&mut signals, &args, step.current, ret.value);
    assert_eq!(on_console(&mut console, &args, b"hi", value), 2);
    assert_eq!(console, b"hi".to_vec());
    assert_eq!(ipc.message_count(1), 0);
    assert_eq!(signals.process_signals(1), None);
    assert_eq!(pm.process_count(), 1);
    // A refused call acts on nothing and ends in the error value.
    let args = SyscallArgs { number: 9, arg1: 1, arg2: 2, arg3: 3 };
    let step = on_processes(&mut pm, &args);
    assert_eq!(step.value, u64::MAX);
    let ret = on_ipc(&mut ipc, &args, b"hi", step);
    let value = on_signals(&mut signals, &args, step.current, ret.value);
    assert_eq!(on_console(&mut console, &args, b"hi", value), u64::MAX);
    assert_eq!(console, b"hi".to_vec());
    assert_eq!(ipc.message_count(1), 0);
    // A kill acts on the signal state only.
    let args = SyscallArgs { number: 62, arg1: 1, arg2: 15, arg3: 0 };
    let step = on_processes(&mut pm, &args);
    let ret = on_ipc(&mut ipc, &args, &[], step);
    assert_eq!(on_signals(&mut signals, &args, step.current, ret.value), 0);
    assert_eq!(
        signals.process_signals(1),
        Some((Signal::SIGTERM, SignalAction::Default))
    );
    // An exit acts on the process table only.
    let args = SyscallArgs { number: 60, arg1: 0, arg2: 0, arg3: 0 };
    let step = on_processes(&mut pm, &args);
    assert_eq!(step, ProcessStep { current: Some(1), value: 0 });
    assert_eq!(pm.current_pid(), None);
}
