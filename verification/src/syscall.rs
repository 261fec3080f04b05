//! The system-call boundary: decoding of call numbers and the operations that
//! user code reaches through them.
//!
//! Nothing here touches user memory or a device. The platform code that
//! takes the trap reads the bytes that a call refers to, hands them in, and
//! afterwards forwards what the kernel wrote to the console and copies what
//! it returned into the caller's buffer.

use crate::ipc;
use crate::ipc::IpcManager;
use crate::process::{lemma_pid_allocation, Pid, ProcessManager, ProcessTable};
use crate::signal;
use crate::signal::{Signal, SignalAction, SignalManager};
use vstd::prelude::*;

verus! {

/// The value that a failed system call returns: every bit set.
pub const SYSCALL_ERROR: u64 = 0xffff_ffff_ffff_ffff;

/// Descriptor of the standard output.
pub const STDOUT: i32 = 1;

/// Descriptor of the standard error output.
pub const STDERR: i32 = 2;

/// The system calls.
#[derive(Debug, Clone, Copy, PartialEq, Eq, Structural)]
pub enum SyscallNumber {
    Read,
    Write,
    Open,
    Close,
    Fork,
    Exec,
    Exit,
    Wait,
    GetPid,
    Mmap,
    Munmap,
    /// Sends a signal to a process.
    Kill,
    /// Sends a message to a process.
    Send,
    /// Receives a message.
    Receive,
}

impl SyscallNumber {
    /// The number by which user code asks for the call.
    pub open spec fn number(self) -> u64 {
        match self {
            SyscallNumber::Read => 0,
            SyscallNumber::Write => 1,
            SyscallNumber::Open => 2,
            SyscallNumber::Close => 3,
            SyscallNumber::Mmap => 9,
            SyscallNumber::Munmap => 11,
            SyscallNumber::GetPid => 39,
            SyscallNumber::Fork => 57,
            SyscallNumber::Exec => 59,
            SyscallNumber::Exit => 60,
            SyscallNumber::Wait => 61,
            SyscallNumber::Kill => 62,
            SyscallNumber::Send => 69,
            SyscallNumber::Receive => 70,
        }
    }

    /// Whether the kernel carries the call out. The others have a number but
    /// are refused.
    pub open spec fn provided(self) -> bool {
        match self {
            SyscallNumber::Read
            | SyscallNumber::Write
            | SyscallNumber::Exit
            | SyscallNumber::GetPid
            | SyscallNumber::Fork
            | SyscallNumber::Kill
            | SyscallNumber::Send
            | SyscallNumber::Receive => true,
            SyscallNumber::Open
            | SyscallNumber::Close
            | SyscallNumber::Exec
            | SyscallNumber::Wait
            | SyscallNumber::Mmap
            | SyscallNumber::Munmap => false,
        }
    }

    /// The call with number `n`, if there is one.
    pub open spec fn of(n: u64) -> Option<SyscallNumber> {
        if exists|call: SyscallNumber| call.number() == n {
            Some(choose|call: SyscallNumber| call.number() == n)
        } else {
            None
        }
    }

    /// The call with number `n`, if there is one.
    pub fn from_u64(n: u64) -> (call: Option<SyscallNumber>)
        ensures
            call == SyscallNumber::of(n),
            match call {
                Some(c) => c.number() == n,
                None => forall|c: SyscallNumber| c.number() != n,
            },
    {
        let call = match n {
            0 => Some(SyscallNumber::Read),
            1 => Some(SyscallNumber::Write),
            2 => Some(SyscallNumber::Open),
            3 => Some(SyscallNumber::Close),
            9 => Some(SyscallNumber::Mmap),
            11 => Some(SyscallNumber::Munmap),
            39 => Some(SyscallNumber::GetPid),
            57 => Some(SyscallNumber::Fork),
            59 => Some(SyscallNumber::Exec),
            60 => Some(SyscallNumber::Exit),
            61 => Some(SyscallNumber::Wait),
            62 => Some(SyscallNumber::Kill),
            69 => Some(SyscallNumber::Send),
            70 => Some(SyscallNumber::Receive),
            _ => None,
        };
        proof {
            if let Some(c) = call {
                lemma_number_decodes(c);
            }
        }
        call
    }

    /// Whether the kernel carries the call out.
    pub fn is_provided(&self) -> (provided: bool)
        ensures
            provided == self.provided(),
    {
        match self {
            SyscallNumber::Read
            | SyscallNumber::Write
            | SyscallNumber::Exit
            | SyscallNumber::GetPid
            | SyscallNumber::Fork
            | SyscallNumber::Kill
            | SyscallNumber::Send
            | SyscallNumber::Receive => true,
            SyscallNumber::Open
            | SyscallNumber::Close
            | SyscallNumber::Exec
            | SyscallNumber::Wait
            | SyscallNumber::Mmap
            | SyscallNumber::Munmap => false,
        }
    }

    /// The number by which user code asks for the call.
    pub fn as_u64(&self) -> (n: u64)
        ensures
            n == self.number(),
    {
        match self {
            SyscallNumber::Read => 0,
            SyscallNumber::Write => 1,
            SyscallNumber::Open => 2,
            SyscallNumber::Close => 3,
            SyscallNumber::Mmap => 9,
            SyscallNumber::Munmap => 11,
            SyscallNumber::GetPid => 39,
            SyscallNumber::Fork => 57,
            SyscallNumber::Exec => 59,
            SyscallNumber::Exit => 60,
            SyscallNumber::Wait => 61,
            SyscallNumber::Kill => 62,
            SyscallNumber::Send => 69,
            SyscallNumber::Receive => 70,
        }
    }
}

/// No two calls share a number, so every call is found again by its number.
pub proof fn lemma_number_decodes(call: SyscallNumber)
    ensures
        SyscallNumber::of(call.number()) == Some(call),
{
    let n = call.number();
    let found = choose|c: SyscallNumber| c.number() == n;
    assert(found.number() == n);
}

/// Whether `fd` is one of the two console descriptors.
pub open spec fn is_console(fd: i32) -> bool {
    fd == STDOUT || fd == STDERR
}

/// The part of user memory that a call refers to.
#[derive(Debug, Clone, Copy, PartialEq, Eq, Structural)]
pub enum UserBuffer {
    /// The call refers to no memory.
    Unused,
    /// The call reads `length` bytes at `address`; they are handed to the
    /// dispatcher as its input.
    Source { address: u64, length: u64 },
    /// The call returns bytes to be copied to `address`, at most `length`
    /// of them.
    Destination { address: u64, length: u64 },
}

/// The part of user memory that a call with these arguments refers to: the
/// source of a write to a console descriptor and of a send, the
/// destination of a receive, and nothing otherwise.
pub open spec fn buffer_of(syscall_number: u64, arg1: u64, arg2: u64, arg3: u64) -> UserBuffer {
    match SyscallNumber::of(syscall_number) {
        Some(SyscallNumber::Write) => if is_console(arg1 as i32) {
            UserBuffer::Source { address: arg2, length: arg3 }
        } else {
            UserBuffer::Unused
        },
        Some(SyscallNumber::Send) => UserBuffer::Source { address: arg2, length: arg3 },
        Some(SyscallNumber::Receive) => UserBuffer::Destination { address: arg1, length: arg2 },
        _ => UserBuffer::Unused,
    }
}

/// Tells which part of user memory a call with these arguments refers to.
pub fn user_buffer(syscall_number: u64, arg1: u64, arg2: u64, arg3: u64) -> (buffer: UserBuffer)
    ensures
        buffer == buffer_of(syscall_number, arg1, arg2, arg3),
{
    match SyscallNumber::from_u64(syscall_number) {
        Some(SyscallNumber::Write) => {
            let fd = #[verifier::truncate]
            (arg1 as i32);
            if fd == STDOUT || fd == STDERR {
                UserBuffer::Source { address: arg2, length: arg3 }
            } else {
                UserBuffer::Unused
            }
        },
        Some(SyscallNumber::Send) => UserBuffer::Source { address: arg2, length: arg3 },
        Some(SyscallNumber::Receive) => UserBuffer::Destination { address: arg1, length: arg2 },
        _ => UserBuffer::Unused,
    }
}

/// Writes `data` to descriptor `fd`. Only the two console descriptors are
/// served: every byte is appended to `console` in order and the number of
/// bytes is returned. Any other descriptor is refused with the error value
/// and nothing is written.
pub fn sys_write(fd: i32, data: &[u8], console: &mut Vec<u8>) -> (value: u64)
    ensures
        is_console(fd) ==> value == data@.len() && final(console)@ == old(console)@ + data@,
        !is_console(fd) ==> value == SYSCALL_ERROR && final(console)@ == old(console)@,
{
    if fd != STDOUT && fd != STDERR {
        return SYSCALL_ERROR;
    }
    let mut i: usize = 0;
    while i < data.len()
        invariant
            i <= data@.len(),
            console@ == old(console)@ + data@.take(i as int),
        decreases data@.len() - i,
    {
        console.push(data[i]);
        assert(data@.take(i + 1) =~= data@.take(i as int).push(data@[i as int]));
        i += 1;
    }
    assert(data@.take(data@.len() as int) =~= data@);
    data.len() as u64
}

/// Reads from a descriptor. Reading is not provided: the call is accepted
/// and reports that no byte was read.
pub fn sys_read(_fd: i32, _address: u64, _count: u64) -> (value: u64)
    ensures
        value == 0,
{
    0
}

/// Terminates the current process, if there is one. Returns 0.
pub fn sys_exit(processes: &mut ProcessManager, _status: i32) -> (value: u64)
    ensures
        value == 0,
        final(processes)@ == exit_of(old(processes)@),
        old(processes)@.well_formed() ==> final(processes)@.well_formed(),
{
    if let Some(pid) = processes.current_pid() {
        processes.terminate_process(pid);
    }
    0
}

/// The process table after the current process has exited.
pub open spec fn exit_of(table: ProcessTable) -> ProcessTable {
    match table.current {
        Some(pid) => table.terminate(pid),
        None => table,
    }
}

/// The pid of the current process, or 0 if there is none.
pub fn sys_getpid(processes: &ProcessManager) -> (value: u64)
    ensures
        value == getpid_of(processes@),
{
    match processes.current_pid() {
        Some(pid) => pid,
        None => 0,
    }
}

/// What `getpid` returns.
pub open spec fn getpid_of(table: ProcessTable) -> u64 {
    match table.current {
        Some(pid) => pid,
        None => 0,
    }
}

/// Creates a process whose parent is the current process, registers it for
/// messages and for signals, and returns its pid. The child gets a control
/// block of its own and nothing else: no memory, page table or saved
/// context is copied from the parent.
pub fn sys_fork(
    processes: &mut ProcessManager,
    ipc: &mut IpcManager,
    signals: &mut SignalManager,
) -> (value: u64)
    requires
        old(processes)@.next_pid < u64::MAX,
        old(ipc).wf(),
    ensures
        value == old(processes)@.next_pid,
        final(processes)@ == old(processes)@.create(old(processes)@.current),
        final(ipc)@ == ipc::register(old(ipc)@, value),
        final(signals)@ == signal::register(old(signals)@, value),
        final(ipc).wf(),
        old(processes)@.well_formed() ==> final(processes)@.well_formed(),
{
    let parent_pid = processes.current_pid();
    let child_pid = processes.create_process(parent_pid);
    ipc.register_process(child_pid);
    signals.register_process(child_pid);
    child_pid
}

/// What `send` returns: 0 if the message was accepted, and the error value
/// if there is no current process or the send was refused.
pub open spec fn send_value(
    current: Option<Pid>,
    boxes: ipc::Mailboxes,
    receiver: Pid,
    data: Seq<u8>,
) -> u64 {
    match current {
        Some(sender) => if ipc::send_message_result(boxes, sender, receiver, data) is Ok {
            0
        } else {
            SYSCALL_ERROR
        },
        None => SYSCALL_ERROR,
    }
}

/// The mailboxes after `send`.
pub open spec fn send_state(
    current: Option<Pid>,
    boxes: ipc::Mailboxes,
    receiver: Pid,
    data: Seq<u8>,
) -> ipc::Mailboxes {
    match current {
        Some(sender) => ipc::send_message_state(boxes, sender, receiver, data),
        None => boxes,
    }
}

/// Sends `data` from the current process to `receiver`. Returns 0 on
/// success and the error value if there is no current process or the
/// message was refused.
pub fn sys_send(current: Option<Pid>, ipc: &mut IpcManager, receiver: Pid, data: &[u8]) -> (value:
    u64)
    requires
        old(ipc).wf(),
    ensures
        final(ipc).wf(),
        value == send_value(current, old(ipc)@, receiver, data@),
        final(ipc)@ == send_state(current, old(ipc)@, receiver, data@),
{
    match current {
        Some(sender) => match ipc::send_message(ipc, sender, receiver, data) {
            Ok(()) => 0,
            Err(_) => SYSCALL_ERROR,
        },
        None => SYSCALL_ERROR,
    }
}

/// What a system call hands back: the value for the caller, and the bytes
/// to copy into the caller's buffer.
#[derive(Debug)]
pub struct SyscallReturn {
    pub value: u64,
    pub output: Vec<u8>,
}

/// The part of a payload that fits a buffer of `buffer_len` bytes.
pub open spec fn fitting(data: Seq<u8>, buffer_len: u64) -> Seq<u8> {
    if data.len() <= buffer_len {
        data
    } else {
        data.take(buffer_len as int)
    }
}

/// The bytes that `receive` returns for a buffer of `buffer_len` bytes: the
/// payload of the oldest message of the current process, cut to the buffer.
pub open spec fn receive_output(
    current: Option<Pid>,
    boxes: ipc::Mailboxes,
    buffer_len: u64,
) -> Seq<u8> {
    match current {
        Some(pid) => match ipc::received(boxes, pid) {
            Some(msg) => fitting(msg.data, buffer_len),
            None => Seq::empty(),
        },
        None => Seq::empty(),
    }
}

/// What `receive` returns: the number of bytes handed over, which is 0 if
/// no message waits, and the error value if there is no current process.
pub open spec fn receive_value(
    current: Option<Pid>,
    boxes: ipc::Mailboxes,
    buffer_len: u64,
) -> u64 {
    match current {
        Some(pid) => receive_output(current, boxes, buffer_len).len() as u64,
        None => SYSCALL_ERROR,
    }
}

/// The mailboxes after `receive`: the message is gone, also where it did not
/// fit the buffer.
pub open spec fn receive_state(current: Option<Pid>, boxes: ipc::Mailboxes) -> ipc::Mailboxes {
    match current {
        Some(pid) => ipc::receive(boxes, pid),
        None => boxes,
    }
}

/// Receives the oldest message of the current process into a buffer of
/// `buffer_len` bytes. The payload is cut to the buffer and the rest is
/// lost. Returns the number of bytes handed over, 0 if no message waits,
/// and the error value if there is no current process. The call never
/// waits.
pub fn sys_receive(current: Option<Pid>, ipc: &mut IpcManager, buffer_len: u64) -> (ret:
    SyscallReturn)
    requires
        old(ipc).wf(),
    ensures
        final(ipc).wf(),
        ret.value == receive_value(current, old(ipc)@, buffer_len),
        ret.output@ == receive_output(current, old(ipc)@, buffer_len),
        final(ipc)@ == receive_state(current, old(ipc)@),
{
    match current {
        Some(pid) => match ipc::receive_message(ipc, pid) {
            Some(msg) => {
                let mut output = msg.data;
                if output.len() as u64 > buffer_len {
                    output.truncate(buffer_len as usize);
                }
                SyscallReturn { value: output.len() as u64, output }
            },
            None => SyscallReturn { value: 0, output: Vec::new() },
        },
        None => SyscallReturn { value: SYSCALL_ERROR, output: Vec::new() },
    }
}

/// What `kill` returns: 0 for a signal number that exists, the error value
/// otherwise.
pub open spec fn kill_value(signal: u32) -> u64 {
    if Signal::of(signal) is Some {
        0
    } else {
        SYSCALL_ERROR
    }
}

/// The signal table after `kill`.
pub open spec fn kill_state(
    current: Option<Pid>,
    signals: signal::SignalTable,
    target: Pid,
    signal: u32,
) -> signal::SignalTable {
    match Signal::of(signal) {
        Some(sig) => signal::with_signal(signals, target, sig, current),
        None => signals,
    }
}

/// Sends the signal with number `signal` to `target` in the name of the
/// current process. Returns 0, also where `target` is not registered or has
/// the signal blocked, and the error value if no signal has that number.
pub fn sys_kill(
    current: Option<Pid>,
    signals: &mut SignalManager,
    target: Pid,
    signal: u32,
) -> (value: u64)
    ensures
        value == kill_value(signal),
        final(signals)@ == kill_state(current, old(signals)@, target, signal),
{
    match Signal::from_u32(signal) {
        Some(sig) => {
            signals.send_signal(target, sig, current);
            0
        },
        None => SYSCALL_ERROR,
    }
}

/// The number and the three arguments of a system call.
#[derive(Debug, Clone, Copy, PartialEq, Eq, Structural)]
pub struct SyscallArgs {
    pub number: u64,
    pub arg1: u64,
    pub arg2: u64,
    pub arg3: u64,
}

impl SyscallArgs {
    /// The call that is carried out: the one that the number names, if the
    /// kernel provides it.
    pub open spec fn call(self) -> Option<SyscallNumber> {
        match SyscallNumber::of(self.number) {
            Some(call) if call.provided() => Some(call),
            _ => None,
        }
    }

    /// The call that is carried out, if any.
    pub fn decode(&self) -> (call: Option<SyscallNumber>)
        ensures
            call == self.call(),
    {
        match SyscallNumber::from_u64(self.number) {
            Some(call) => if call.is_provided() {
                Some(call)
            } else {
                None
            },
            None => None,
        }
    }
}

/// What the process table has contributed to a call: the pid that was
/// current when the call came in, and the value for the caller as far as the
/// process table decides it.
#[derive(Debug, Clone, Copy, PartialEq, Eq, Structural)]
pub struct ProcessStep {
    pub current: Option<Pid>,
    pub value: u64,
}

/// The process table after a call: an exit terminates the current process,
/// a fork creates its child, and no other call touches the table.
pub open spec fn processes_after(table: ProcessTable, args: SyscallArgs) -> ProcessTable {
    match args.call() {
        Some(SyscallNumber::Exit) => exit_of(table),
        Some(SyscallNumber::Fork) => table.create(table.current),
        _ => table,
    }
}

/// The value of a call as far as the process table decides it: the error
/// value for a call that is refused, the pid for `getpid`, the pid of the
/// child for a fork, and 0 otherwise.
pub open spec fn processes_value(table: ProcessTable, args: SyscallArgs) -> u64 {
    match args.call() {
        None => SYSCALL_ERROR,
        Some(SyscallNumber::GetPid) => getpid_of(table),
        Some(SyscallNumber::Fork) => table.next_pid,
        Some(_) => 0,
    }
}

/// The mailboxes after a call: a fork registers the child, whose pid is the
/// value so far; send and receive act for the current process; and no other
/// call touches them.
pub open spec fn mailboxes_after(
    boxes: ipc::Mailboxes,
    args: SyscallArgs,
    input: Seq<u8>,
    step: ProcessStep,
) -> ipc::Mailboxes {
    match args.call() {
        Some(SyscallNumber::Fork) => ipc::register(boxes, step.value),
        Some(SyscallNumber::Send) => send_state(step.current, boxes, args.arg1, input),
        Some(SyscallNumber::Receive) => receive_state(step.current, boxes),
        _ => boxes,
    }
}

/// The value of a call once the mailboxes have had their part.
pub open spec fn mailboxes_value(
    boxes: ipc::Mailboxes,
    args: SyscallArgs,
    input: Seq<u8>,
    step: ProcessStep,
) -> u64 {
    match args.call() {
        Some(SyscallNumber::Send) => send_value(step.current, boxes, args.arg1, input),
        Some(SyscallNumber::Receive) => receive_value(step.current, boxes, args.arg2),
        _ => step.value,
    }
}

/// The bytes that a call hands back for the caller's buffer.
pub open spec fn mailboxes_output(
    boxes: ipc::Mailboxes,
    args: SyscallArgs,
    step: ProcessStep,
) -> Seq<u8> {
    match args.call() {
        Some(SyscallNumber::Receive) => receive_output(step.current, boxes, args.arg2),
        _ => Seq::empty(),
    }
}

/// The signal table after a call: a fork registers the child, whose pid is
/// the value so far; a kill sends its signal; and no other call touches it.
pub open spec fn signals_after(
    signals: signal::SignalTable,
    args: SyscallArgs,
    current: Option<Pid>,
    value: u64,
) -> signal::SignalTable {
    match args.call() {
        Some(SyscallNumber::Fork) => signal::register(signals, value),
        Some(SyscallNumber::Kill) => kill_state(current, signals, args.arg1, args.arg2 as u32),
        _ => signals,
    }
}

/// The value of a call once the signal table has had its part.
pub open spec fn signals_value(args: SyscallArgs, value: u64) -> u64 {
    match args.call() {
        Some(SyscallNumber::Kill) => kill_value(args.arg2 as u32),
        _ => value,
    }
}

/// The console after a call: a write to a console descriptor appends its
/// input, and no other call touches it.
pub open spec fn console_after(console: Seq<u8>, args: SyscallArgs, input: Seq<u8>) -> Seq<u8> {
    match args.call() {
        Some(SyscallNumber::Write) => if is_console(args.arg1 as i32) {
            console + input
        } else {
            console
        },
        _ => console,
    }
}

/// The value of a call once the console has had its part.
pub open spec fn console_value(args: SyscallArgs, input: Seq<u8>, value: u64) -> u64 {
    match args.call() {
        Some(SyscallNumber::Write) => if is_console(args.arg1 as i32) {
            input.len() as u64
        } else {
            SYSCALL_ERROR
        },
        _ => value,
    }
}

/// The part of a call that acts on the process table. It comes first: the
/// other parts need the pid that was current, and a fork the pid of the
/// child.
pub fn on_processes(processes: &mut ProcessManager, args: &SyscallArgs) -> (step: ProcessStep)
    requires
        args.call() == Some(SyscallNumber::Fork) ==> old(processes)@.next_pid < u64::MAX,
    ensures
        step.current == old(processes)@.current,
        step.value == processes_value(old(processes)@, *args),
        final(processes)@ == processes_after(old(processes)@, *args),
        old(processes)@.well_formed() ==> final(processes)@.well_formed(),
{
    let current = processes.current_pid();
    let value = match args.decode() {
        None => SYSCALL_ERROR,
        Some(SyscallNumber::Exit) => {
            let status = #[verifier::truncate]
            (args.arg1 as i32);
            sys_exit(processes, status)
        },
        Some(SyscallNumber::GetPid) => sys_getpid(processes),
        Some(SyscallNumber::Fork) => processes.create_process(current),
        Some(SyscallNumber::Read) => {
            let fd = #[verifier::truncate]
            (args.arg1 as i32);
            sys_read(fd, args.arg2, args.arg3)
        },
        Some(_) => 0,
    };
    ProcessStep { current, value }
}

/// The part of a call that acts on the message queues.
pub fn on_ipc(ipc: &mut IpcManager, args: &SyscallArgs, input: &[u8], step: ProcessStep) -> (ret:
    SyscallReturn)
    requires
        old(ipc).wf(),
    ensures
        final(ipc).wf(),
        final(ipc)@ == mailboxes_after(old(ipc)@, *args, input@, step),
        ret.value == mailboxes_value(old(ipc)@, *args, input@, step),
        ret.output@ == mailboxes_output(old(ipc)@, *args, step),
{
    match args.decode() {
        Some(SyscallNumber::Fork) => {
            ipc.register_process(step.value);
            SyscallReturn { value: step.value, output: Vec::new() }
        },
        Some(SyscallNumber::Send) => {
            let value = sys_send(step.current, ipc, args.arg1, input);
            SyscallReturn { value, output: Vec::new() }
        },
        Some(SyscallNumber::Receive) => sys_receive(step.current, ipc, args.arg2),
        _ => SyscallReturn { value: step.value, output: Vec::new() },
    }
}

/// The part of a call that acts on the signal state. `value` is the value
/// of the call so far.
pub fn on_signals(
    signals: &mut SignalManager,
    args: &SyscallArgs,
    current: Option<Pid>,
    value: u64,
) -> (next: u64)
    ensures
        final(signals)@ == signals_after(old(signals)@, *args, current, value),
        next == signals_value(*args, value),
{
    match args.decode() {
        Some(SyscallNumber::Fork) => {
            signals.register_process(value);
            value
        },
        Some(SyscallNumber::Kill) => {
            let signal = #[verifier::truncate]
            (args.arg2 as u32);
            sys_kill(current, signals, args.arg1, signal)
        },
        _ => value,
    }
}

/// The part of a call that acts on the console. `value` is the value of the
/// call so far.
pub fn on_console(console: &mut Vec<u8>, args: &SyscallArgs, input: &[u8], value: u64) -> (next:
    u64)
    ensures
        final(console)@ == console_after(old(console)@, *args, input@),
        next == console_value(*args, input@, value),
{
    match args.decode() {
        Some(SyscallNumber::Write) => {
            let fd = #[verifier::truncate]
            (args.arg1 as i32);
            sys_write(fd, input, console)
        },
        _ => value,
    }
}

/// Everything that system calls act on: the process table, the message
/// queues, the signal state, and the bytes written to the console that the
/// platform has yet to forward.
pub struct Kernel {
    pub processes: ProcessManager,
    pub ipc: IpcManager,
    pub signals: SignalManager,
    pub console: Vec<u8>,
}

/// The kernel as plain values.
pub struct KernelState {
    pub processes: ProcessTable,
    pub mailboxes: ipc::Mailboxes,
    pub signals: signal::SignalTable,
    pub console: Seq<u8>,
}

/// What a system call does: the state it leaves, the value it returns, and
/// the bytes it hands back for the caller's buffer.
pub struct SyscallEffect {
    pub state: KernelState,
    pub value: u64,
    pub output: Seq<u8>,
}

impl KernelState {
    /// The effect of the call with number `syscall_number` and the given
    /// arguments, where `input` holds the bytes that the call reads from
    /// user memory. A number that names no call, and a call that the kernel
    /// does not provide, are refused: they return the error value and change
    /// nothing.
    pub open spec fn syscall(
        self,
        syscall_number: u64,
        arg1: u64,
        arg2: u64,
        arg3: u64,
        input: Seq<u8>,
    ) -> SyscallEffect {
        let current = self.processes.current;
        match (SyscallArgs { number: syscall_number, arg1, arg2, arg3 }).call() {
            None => self.refused(),
            Some(SyscallNumber::Write) => if is_console(arg1 as i32) {
                SyscallEffect {
                    state: KernelState { console: self.console + input, ..self },
                    value: input.len() as u64,
                    output: Seq::empty(),
                }
            } else {
                self.refused()
            },
            Some(SyscallNumber::Read) => SyscallEffect {
                state: self,
                value: 0,
                output: Seq::empty(),
            },
            Some(SyscallNumber::Exit) => SyscallEffect {
                state: KernelState { processes: exit_of(self.processes), ..self },
                value: 0,
                output: Seq::empty(),
            },
            Some(SyscallNumber::GetPid) => SyscallEffect {
                state: self,
                value: getpid_of(self.processes),
                output: Seq::empty(),
            },
            Some(SyscallNumber::Fork) => SyscallEffect {
                state: self.fork(),
                value: self.processes.next_pid,
                output: Seq::empty(),
            },
            Some(SyscallNumber::Send) => SyscallEffect {
                state: KernelState {
                    mailboxes: send_state(current, self.mailboxes, arg1, input),
                    ..self
                },
                value: send_value(current, self.mailboxes, arg1, input),
                output: Seq::empty(),
            },
            Some(SyscallNumber::Receive) => SyscallEffect {
                state: KernelState { mailboxes: receive_state(current, self.mailboxes), ..self },
                value: receive_value(current, self.mailboxes, arg2),
                output: receive_output(current, self.mailboxes, arg2),
            },
            Some(SyscallNumber::Kill) => SyscallEffect {
                state: KernelState {
                    signals: kill_state(current, self.signals, arg1, arg2 as u32),
                    ..self
                },
                value: kill_value(arg2 as u32),
                output: Seq::empty(),
            },
            Some(
                SyscallNumber::Open
                | SyscallNumber::Close
                | SyscallNumber::Exec
                | SyscallNumber::Wait
                | SyscallNumber::Mmap
                | SyscallNumber::Munmap,
            ) => self.refused(),
        }
    }

    /// The effect of a call that is refused.
    pub open spec fn refused(self) -> SyscallEffect {
        SyscallEffect { state: self, value: SYSCALL_ERROR, output: Seq::empty() }
    }

    /// The state after a fork: a child of the current process exists under
    /// the next pid and is registered for messages and for signals.
    pub open spec fn fork(self) -> KernelState {
        KernelState {
            processes: self.processes.create(self.processes.current),
            mailboxes: ipc::register(self.mailboxes, self.processes.next_pid),
            signals: signal::register(self.signals, self.processes.next_pid),
            console: self.console,
        }
    }
}

impl View for Kernel {
    type V = KernelState;

    open spec fn view(&self) -> KernelState {
        KernelState {
            processes: self.processes@,
            mailboxes: self.ipc@,
            signals: self.signals@,
            console: self.console@,
        }
    }
}

impl Kernel {
    /// The message queues are well formed.
    pub open spec fn wf(&self) -> bool {
        self.ipc.wf()
    }

    /// Sets up the kernel: the process table holds the init process, no
    /// process is registered for messages or signals, and nothing has been
    /// written.
    pub fn new() -> (kernel: Kernel)
        ensures
            kernel.wf(),
            kernel@.processes == ProcessTable::empty().create(None),
            kernel@.processes.well_formed(),
            kernel@.mailboxes == ipc::Mailboxes::empty(),
            kernel@.signals == signal::SignalTable::empty(),
            kernel@.console == Seq::<u8>::empty(),
    {
        Kernel {
            processes: crate::process::init(),
            ipc: ipc::init(),
            signals: signal::init(),
            console: Vec::new(),
        }
    }
}

/// Carries out the system call with number `syscall_number`. `input` holds
/// the bytes that the call reads from user memory, as [`user_buffer`]
/// describes them. A number that names no call, and a call that the kernel
/// does not provide, return the error value and change nothing.
///
/// The call is carried out in four parts, one on each of the process table,
/// the message queues, the signal state and the console, in this order.
/// Code that keeps these behind separate locks runs the same four parts,
/// each under its own lock.
pub fn syscall_handler(
    kernel: &mut Kernel,
    syscall_number: u64,
    arg1: u64,
    arg2: u64,
    arg3: u64,
    input: &[u8],
) -> (ret: SyscallReturn)
    requires
        old(kernel).wf(),
        SyscallNumber::of(syscall_number) == Some(SyscallNumber::Fork)
            ==> old(kernel)@.processes.next_pid < u64::MAX,
    ensures
        final(kernel).wf(),
        final(kernel)@ == old(kernel)@.syscall(syscall_number, arg1, arg2, arg3, input@).state,
        ret.value == old(kernel)@.syscall(syscall_number, arg1, arg2, arg3, input@).value,
        ret.output@ == old(kernel)@.syscall(syscall_number, arg1, arg2, arg3, input@).output,
        old(kernel)@.processes.well_formed() ==> final(kernel)@.processes.well_formed(),
{
    let args = SyscallArgs { number: syscall_number, arg1, arg2, arg3 };
    let step = on_processes(&mut kernel.processes, &args);
    let ret = on_ipc(&mut kernel.ipc, &args, input, step);
    let value = on_signals(&mut kernel.signals, &args, step.current, ret.value);
    let value = on_console(&mut kernel.console, &args, input, value);
    SyscallReturn { value, output: ret.output }
}

/// The registers of user code at the moment of a system call, as the entry
/// code saves them before it runs any kernel code and restores them before
/// it returns.
#[derive(Debug, Clone, Copy, PartialEq, Eq, Structural)]
pub struct TrapFrame {
    /// The call number on entry and the return value on exit.
    pub rax: u64,
    /// The first argument.
    pub rdi: u64,
    /// The second argument.
    pub rsi: u64,
    /// The third argument.
    pub rdx: u64,
    /// The user instruction pointer, which the trap leaves in this register.
    pub rcx: u64,
    /// The user flags, which the trap leaves in this register.
    pub r11: u64,
    /// The user stack pointer.
    pub rsp: u64,
    pub rbp: u64,
    pub rbx: u64,
    pub r12: u64,
    pub r13: u64,
    pub r14: u64,
    pub r15: u64,
}

impl TrapFrame {
    /// The call number and the three arguments, each taken from the
    /// register that user code put it in.
    pub fn arguments(&self) -> (args: SyscallArgs)
        ensures
            args == (SyscallArgs {
                number: self.rax,
                arg1: self.rdi,
                arg2: self.rsi,
                arg3: self.rdx,
            }),
    {
        SyscallArgs { number: self.rax, arg1: self.rdi, arg2: self.rsi, arg3: self.rdx }
    }

    /// Stores the value of the call where user code expects it and leaves
    /// every other saved register, the user stack pointer, instruction
    /// pointer and flags among them, as it was.
    pub fn set_return(&mut self, value: u64)
        ensures
            *final(self) == (TrapFrame { rax: value, ..*old(self) }),
    {
        self.rax = value;
    }
}

/// The kernel side of the trap: takes the call number and the three
/// arguments out of the saved registers, each from the register that user
/// code put it in, carries out the call and stores its value where user
/// code expects it. Every other saved register, the user stack pointer,
/// instruction pointer and flags among them, is left as it was. Returns the
/// bytes to copy into the caller's buffer.
pub fn syscall_entry(kernel: &mut Kernel, frame: &mut TrapFrame, input: &[u8]) -> (output: Vec<u8>)
    requires
        old(kernel).wf(),
        SyscallNumber::of(old(frame).rax) == Some(SyscallNumber::Fork)
            ==> old(kernel)@.processes.next_pid < u64::MAX,
    ensures
        final(kernel).wf(),
        ({
            let entry = *old(frame);
            let effect = old(kernel)@.syscall(entry.rax, entry.rdi, entry.rsi, entry.rdx, input@);
            &&& final(kernel)@ == effect.state
            &&& *final(frame) == (TrapFrame { rax: effect.value, ..entry })
            &&& output@ == effect.output
        }),
        old(kernel)@.processes.well_formed() ==> final(kernel)@.processes.well_formed(),
{
    let args = frame.arguments();
    let ret = syscall_handler(kernel, args.number, args.arg1, args.arg2, args.arg3, input);
    frame.set_return(ret.value);
    ret.output
}

/// A write that is handed the bytes it asked for returns the count that user
/// code passed: where the input is as long as the source that
/// [`user_buffer`] names, a write to a console descriptor returns its third
/// argument and puts exactly the input on the console.
pub proof fn lemma_write_returns_count(
    state: KernelState,
    fd: u64,
    address: u64,
    count: u64,
    input: Seq<u8>,
)
    requires
        buffer_of(SyscallNumber::Write.number(), fd, address, count) == (UserBuffer::Source {
            address,
            length: count,
        }),
        input.len() == count,
    ensures
        state.syscall(SyscallNumber::Write.number(), fd, address, count, input).value == count,
        state.syscall(SyscallNumber::Write.number(), fd, address, count, input).state.console
            == state.console + input,
{
    lemma_number_decodes(SyscallNumber::Write);
}

/// A forked child is ready for use. Its pid is above every pid issued
/// before. It is registered for messages and for signals, so a send to it
/// does not fail for want of a queue; and where the pid was not registered
/// before the fork, its queue is empty and takes a message of up to 4096
/// bytes, and a signal sent to it is the next one delivered, with the
/// default action.
pub proof fn lemma_fork(state: KernelState, sender: Pid, data: Seq<u8>, sig: Signal)
    requires
        state.processes.well_formed(),
        state.processes.next_pid < u64::MAX,
    ensures
        ({
            let child = state.processes.next_pid;
            let after = state.fork();
            &&& forall|i: int|
                0 <= i < state.processes.processes.len() ==> state.processes.processes[i].pid
                    < child
            &&& after.processes.well_formed()
            &&& after.processes.next_pid == child + 1
            &&& after.processes.lookup(child) is Some
            &&& after.processes.lookup(child).unwrap().parent_pid == state.processes.current
            &&& after.mailboxes.contains_key(child)
            &&& after.signals.contains_key(child)
            &&& ipc::send_message_result(after.mailboxes, sender, child, data) != Err::<
                (),
                ipc::IpcError,
            >(ipc::IpcError::ProcessNotFound)
            &&& !state.mailboxes.contains_key(child) && data.len() <= ipc::MAX_MESSAGE_SIZE ==> {
                &&& ipc::send_message_result(after.mailboxes, sender, child, data) == Ok::<
                    (),
                    ipc::IpcError,
                >(())
                &&& ipc::received(
                    ipc::send_message_state(after.mailboxes, sender, child, data),
                    child,
                ) == Some(ipc::data_message(sender, child, data))
            }
            &&& !state.signals.contains_key(child) ==> signal::delivered(
                signal::with_signal(after.signals, child, sig, Some(sender)),
                child,
            ) == Some((sig, SignalAction::Default))
        }),
{
    lemma_pid_allocation(state.processes, state.processes.current);
    crate::process::lemma_create_well_formed(state.processes, state.processes.current);
}

} // verus!
