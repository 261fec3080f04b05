//! Signals: per-process handler tables, pending signals and blocked sets.

use crate::assoc::{
    is_first_at, keys, lemma_to_map_absent, lemma_to_map_first, lemma_to_map_push,
    lemma_to_map_remove, lemma_to_map_update, to_map,
};
use crate::process::Pid;
use vstd::prelude::*;

verus! {

/// Signals, named as in POSIX.
#[derive(Debug, Clone, Copy, PartialEq, Eq, Structural)]
pub enum Signal {
    /// Hangup.
    SIGHUP,
    /// Interrupt.
    SIGINT,
    /// Quit.
    SIGQUIT,
    /// Illegal instruction.
    SIGILL,
    /// Trace trap.
    SIGTRAP,
    /// Abort.
    SIGABRT,
    /// Bus error.
    SIGBUS,
    /// Floating point exception.
    SIGFPE,
    /// Kill; cannot be caught.
    SIGKILL,
    /// User-defined signal 1.
    SIGUSR1,
    /// Segmentation fault.
    SIGSEGV,
    /// User-defined signal 2.
    SIGUSR2,
    /// Broken pipe.
    SIGPIPE,
    /// Alarm clock.
    SIGALRM,
    /// Termination.
    SIGTERM,
    /// Child status changed.
    SIGCHLD,
    /// Continue.
    SIGCONT,
    /// Stop; cannot be caught.
    SIGSTOP,
    /// Terminal stop.
    SIGTSTP,
}

impl Signal {
    /// The number of the signal.
    pub open spec fn number(self) -> u32 {
        match self {
            Signal::SIGHUP => 1,
            Signal::SIGINT => 2,
            Signal::SIGQUIT => 3,
            Signal::SIGILL => 4,
            Signal::SIGTRAP => 5,
            Signal::SIGABRT => 6,
            Signal::SIGBUS => 7,
            Signal::SIGFPE => 8,
            Signal::SIGKILL => 9,
            Signal::SIGUSR1 => 10,
            Signal::SIGSEGV => 11,
            Signal::SIGUSR2 => 12,
            Signal::SIGPIPE => 13,
            Signal::SIGALRM => 14,
            Signal::SIGTERM => 15,
            Signal::SIGCHLD => 17,
            Signal::SIGCONT => 18,
            Signal::SIGSTOP => 19,
            Signal::SIGTSTP => 20,
        }
    }

    /// The signal with number `n`, if there is one.
    pub open spec fn of(n: u32) -> Option<Signal> {
        if exists|signal: Signal| signal.number() == n {
            Some(choose|signal: Signal| signal.number() == n)
        } else {
            None
        }
    }

    /// Whether a process may handle or ignore the signal: all but kill and
    /// stop.
    pub open spec fn catchable(self) -> bool {
        self != Signal::SIGKILL && self != Signal::SIGSTOP
    }

    /// The signal with number `n`, if there is one.
    pub fn from_u32(n: u32) -> (signal: Option<Signal>)
        ensures
            signal == Signal::of(n),
            match signal {
                Some(s) => s.number() == n,
                None => forall|s: Signal| s.number() != n,
            },
    {
        let signal = match n {
            1 => Some(Signal::SIGHUP),
            2 => Some(Signal::SIGINT),
            3 => Some(Signal::SIGQUIT),
            4 => Some(Signal::SIGILL),
            5 => Some(Signal::SIGTRAP),
            6 => Some(Signal::SIGABRT),
            7 => Some(Signal::SIGBUS),
            8 => Some(Signal::SIGFPE),
            9 => Some(Signal::SIGKILL),
            10 => Some(Signal::SIGUSR1),
            11 => Some(Signal::SIGSEGV),
            12 => Some(Signal::SIGUSR2),
            13 => Some(Signal::SIGPIPE),
            14 => Some(Signal::SIGALRM),
            15 => Some(Signal::SIGTERM),
            17 => Some(Signal::SIGCHLD),
            18 => Some(Signal::SIGCONT),
            19 => Some(Signal::SIGSTOP),
            20 => Some(Signal::SIGTSTP),
            _ => None,
        };
        proof {
            if let Some(s) = signal {
                lemma_number_identifies(s);
            }
        }
        signal
    }

    /// The number of the signal.
    pub fn as_u32(&self) -> (n: u32)
        ensures
            n == self.number(),
    {
        match self {
            Signal::SIGHUP => 1,
            Signal::SIGINT => 2,
            Signal::SIGQUIT => 3,
            Signal::SIGILL => 4,
            Signal::SIGTRAP => 5,
            Signal::SIGABRT => 6,
            Signal::SIGBUS => 7,
            Signal::SIGFPE => 8,
            Signal::SIGKILL => 9,
            Signal::SIGUSR1 => 10,
            Signal::SIGSEGV => 11,
            Signal::SIGUSR2 => 12,
            Signal::SIGPIPE => 13,
            Signal::SIGALRM => 14,
            Signal::SIGTERM => 15,
            Signal::SIGCHLD => 17,
            Signal::SIGCONT => 18,
            Signal::SIGSTOP => 19,
            Signal::SIGTSTP => 20,
        }
    }

    /// Whether a process may handle or ignore the signal.
    pub fn is_catchable(&self) -> (catchable: bool)
        ensures
            catchable == self.catchable(),
    {
        !matches!(self, Signal::SIGKILL | Signal::SIGSTOP)
    }
}

/// Distinct signals have distinct numbers, so every signal is found again
/// by its number.
pub proof fn lemma_number_identifies(signal: Signal)
    ensures
        Signal::of(signal.number()) == Some(signal),
        forall|other: Signal| other.number() == signal.number() ==> other == signal,
{
    let n = signal.number();
    let found = choose|s: Signal| s.number() == n;
    assert(found.number() == n);
}

/// What happens when a signal is delivered.
#[derive(Debug, Clone, Copy, PartialEq, Eq, Structural)]
pub enum SignalAction {
    /// The default action of the signal.
    Default,
    /// The signal is ignored.
    Ignore,
    /// The function at this address handles the signal.
    Handler(u64),
}

/// One entry of a handler table.
#[derive(Debug, Clone, Copy)]
struct SignalHandler {
    signal: Signal,
    action: SignalAction,
}

/// A signal that awaits delivery, with its sender if it has one.
#[derive(Debug, Clone, Copy)]
struct PendingSignal {
    signal: Signal,
    sender: Option<Pid>,
}

/// The signal state of one process as plain values.
pub struct SignalState {
    /// The process that the state belongs to.
    pub pid: Pid,
    /// The action installed for each signal that has one.
    pub handlers: Map<Signal, SignalAction>,
    /// Signals that await delivery, each with its sender, in the order sent.
    pub pending: Seq<(Signal, Option<Pid>)>,
    /// Signals that are dropped when sent.
    pub blocked: Set<Signal>,
}

impl SignalState {
    /// The state of a process that has just been registered.
    pub open spec fn fresh(pid: Pid) -> SignalState {
        SignalState {
            pid,
            handlers: Map::empty(),
            pending: Seq::empty(),
            blocked: Set::empty(),
        }
    }

    /// The action that delivery of `signal` resolves to: the installed one,
    /// and the default where none is installed. Kill and stop always resolve
    /// to the default.
    pub open spec fn action_for(self, signal: Signal) -> SignalAction {
        if signal.catchable() && self.handlers.contains_key(signal) {
            self.handlers[signal]
        } else {
            SignalAction::Default
        }
    }

    /// The state after `action` was installed for `signal`, replacing what
    /// was installed before. Kill and stop take no handler.
    pub open spec fn set_handler(self, signal: Signal, action: SignalAction) -> SignalState {
        if signal.catchable() {
            SignalState { handlers: self.handlers.insert(signal, action), ..self }
        } else {
            self
        }
    }

    /// The state after `signal` was sent: it is pending, unless it is
    /// blocked, in which case it is dropped.
    pub open spec fn add_pending(self, signal: Signal, sender: Option<Pid>) -> SignalState {
        if self.blocked.contains(signal) {
            self
        } else {
            SignalState { pending: self.pending.push((signal, sender)), ..self }
        }
    }

    /// The pending signal that is delivered next: the one sent last.
    pub open spec fn next(self) -> Option<(Signal, Option<Pid>)> {
        if self.pending.len() > 0 {
            Some(self.pending.last())
        } else {
            None
        }
    }

    /// The state after the next pending signal was taken out.
    pub open spec fn take_next(self) -> SignalState {
        if self.pending.len() > 0 {
            SignalState { pending: self.pending.drop_last(), ..self }
        } else {
            self
        }
    }

    /// The state after `signal` was blocked.
    pub open spec fn block(self, signal: Signal) -> SignalState {
        SignalState { blocked: self.blocked.insert(signal), ..self }
    }

    /// The state after `signal` was unblocked.
    pub open spec fn unblock(self, signal: Signal) -> SignalState {
        SignalState { blocked: self.blocked.remove(signal), ..self }
    }
}

/// Signal state of one process.
#[derive(Debug)]
pub struct ProcessSignals {
    pid: Pid,
    handlers: Vec<SignalHandler>,
    pending: Vec<PendingSignal>,
    blocked: Vec<Signal>,
}

impl View for ProcessSignals {
    type V = SignalState;

    closed spec fn view(&self) -> SignalState {
        SignalState {
            pid: self.pid,
            handlers: to_map(self.handler_entries()),
            pending: self.pending@.map_values(|p: PendingSignal| (p.signal, p.sender)),
            blocked: self.blocked@.to_set(),
        }
    }
}

impl ProcessSignals {
    /// The handler table as pairs, in table order.
    spec fn handler_entries(&self) -> Seq<(Signal, SignalAction)> {
        self.handlers@.map_values(|h: SignalHandler| (h.signal, h.action))
    }

    /// Creates the signal state of `pid`: no handler, nothing pending,
    /// nothing blocked.
    pub fn new(pid: Pid) -> (signals: ProcessSignals)
        ensures
            signals@ == SignalState::fresh(pid),
    {
        let signals = ProcessSignals {
            pid,
            handlers: Vec::new(),
            pending: Vec::new(),
            blocked: Vec::new(),
        };
        assert(signals.handler_entries() =~= Seq::empty());
        assert(signals@.pending =~= Seq::empty());
        assert(signals@.blocked =~= Set::empty());
        signals
    }

    /// The process that the state belongs to.
    pub fn pid(&self) -> (pid: Pid)
        ensures
            pid == self@.pid,
    {
        self.pid
    }

    /// Installs `action` for `signal` in place of whatever was installed for
    /// it. Kill and stop take no handler: for them the call changes nothing.
    pub fn set_handler(&mut self, signal: Signal, action: SignalAction)
        ensures
            final(self)@ == old(self)@.set_handler(signal, action),
    {
        if !signal.is_catchable() {
            return;
        }
        let mut i: usize = 0;
        while i < self.handlers.len()
            invariant
                i <= self.handlers@.len(),
                forall|j: int| 0 <= j < i ==> self.handlers@[j].signal != signal,
                self@.handlers.remove(signal) == old(self)@.handlers.remove(signal),
                self@.pid == old(self)@.pid,
                self@.pending == old(self)@.pending,
                self@.blocked == old(self)@.blocked,
            decreases self.handlers@.len() - i,
        {
            if self.handlers[i].signal == signal {
                let ghost before = self.handler_entries();
                proof {
                    lemma_to_map_remove(before, i as int);
                }
                self.handlers.remove(i);
                assert(self.handler_entries() =~= before.remove(i as int));
            } else {
                i += 1;
            }
        }
        let ghost cleaned = self.handler_entries();
        proof {
            lemma_to_map_absent(cleaned, signal);
            lemma_to_map_push(cleaned, signal, action);
            assert(to_map(cleaned) =~= old(self)@.handlers.remove(signal));
        }
        self.handlers.push(SignalHandler { signal, action });
        assert(self.handler_entries() =~= cleaned.push((signal, action)));
        assert(self@.handlers =~= old(self)@.handlers.insert(signal, action));
    }

    /// The action that delivery of `signal` resolves to.
    pub fn get_handler(&self, signal: Signal) -> (action: SignalAction)
        ensures
            action == self@.action_for(signal),
    {
        if !signal.is_catchable() {
            return SignalAction::Default;
        }
        let mut i: usize = 0;
        while i < self.handlers.len()
            invariant
                signal.catchable(),
                i <= self.handlers@.len(),
                forall|j: int| 0 <= j < i ==> self.handlers@[j].signal != signal,
            decreases self.handlers@.len() - i,
        {
            if self.handlers[i].signal == signal {
                proof {
                    assert(is_first_at(keys(self.handler_entries()), signal, i as int));
                    lemma_to_map_first(self.handler_entries(), signal, i as int);
                }
                return self.handlers[i].action;
            }
            i += 1;
        }
        proof {
            lemma_to_map_absent(self.handler_entries(), signal);
        }
        SignalAction::Default
    }

    /// Records `signal` as pending, unless it is blocked: a blocked signal
    /// is dropped and will not be delivered after it is unblocked either.
    pub fn add_pending(&mut self, signal: Signal, sender: Option<Pid>)
        ensures
            final(self)@ == old(self)@.add_pending(signal, sender),
    {
        if !self.is_blocked(signal) {
            self.pending.push(PendingSignal { signal, sender });
            assert(self@.pending =~= old(self)@.pending.push((signal, sender)));
        }
    }

    /// Takes out the pending signal that was sent last, with its sender.
    pub fn next_pending(&mut self) -> (next: Option<(Signal, Option<Pid>)>)
        ensures
            next == old(self)@.next(),
            final(self)@ == old(self)@.take_next(),
    {
        match self.pending.pop() {
            Some(pending) => {
                assert(self@.pending =~= old(self)@.pending.drop_last());
                Some((pending.signal, pending.sender))
            },
            None => None,
        }
    }

    /// Blocks `signal`. Blocking a blocked signal changes nothing.
    pub fn block(&mut self, signal: Signal)
        ensures
            final(self)@ == old(self)@.block(signal),
    {
        if !self.is_blocked(signal) {
            self.blocked.push(signal);
            assert(self@.blocked =~= old(self)@.blocked.insert(signal)) by {
                let before = old(self).blocked@;
                let after = self.blocked@;
                assert(after == before.push(signal));
                assert forall|s: Signal| after.contains(s) <==> before.contains(s) || s
                    == signal by {
                    if before.contains(s) {
                        let j = choose|j: int| 0 <= j < before.len() && before[j] == s;
                        assert(after[j] == s);
                    }
                    if s == signal {
                        assert(after[before.len() as int] == s);
                    }
                }
            }
        } else {
            assert(self@.blocked =~= old(self)@.blocked.insert(signal));
        }
    }

    /// Unblocks `signal`. Unblocking a signal that is not blocked changes
    /// nothing.
    pub fn unblock(&mut self, signal: Signal)
        ensures
            final(self)@ == old(self)@.unblock(signal),
    {
        let mut i: usize = 0;
        while i < self.blocked.len()
            invariant
                i <= self.blocked@.len(),
                forall|j: int| 0 <= j < i ==> self.blocked@[j] != signal,
                self@.blocked.remove(signal) == old(self)@.blocked.remove(signal),
                self@.pid == old(self)@.pid,
                self@.pending == old(self)@.pending,
                self@.handlers == old(self)@.handlers,
            decreases self.blocked@.len() - i,
        {
            if self.blocked[i] == signal {
                let ghost before = self.blocked@;
                self.blocked.remove(i);
                assert(self@.blocked.remove(signal) =~= before.to_set().remove(signal)) by {
                    let after = self.blocked@;
                    assert(after == before.remove(i as int));
                    assert forall|s: Signal| s != signal implies (after.contains(s)
                        <==> before.contains(s)) by {
                        if before.contains(s) {
                            let j = choose|j: int| 0 <= j < before.len() && before[j] == s;
                            if j < i {
                                assert(after[j] == s);
                            } else {
                                assert(after[j - 1] == s);
                            }
                        }
                        if after.contains(s) {
                            let j = choose|j: int| 0 <= j < after.len() && after[j] == s;
                            if j < i {
                                assert(before[j] == s);
                            } else {
                                assert(before[j + 1] == s);
                            }
                        }
                    }
                }
            } else {
                i += 1;
            }
        }
        assert(self@.blocked =~= old(self)@.blocked.remove(signal)) by {
            assert(!self.blocked@.contains(signal));
            assert(self@.blocked.remove(signal) =~= self@.blocked);
        }
    }

    /// Whether `signal` is blocked.
    pub fn is_blocked(&self, signal: Signal) -> (blocked: bool)
        ensures
            blocked == self@.blocked.contains(signal),
    {
        let mut i: usize = 0;
        while i < self.blocked.len()
            invariant
                i <= self.blocked@.len(),
                forall|j: int| 0 <= j < i ==> self.blocked@[j] != signal,
            decreases self.blocked@.len() - i,
        {
            if self.blocked[i] == signal {
                assert(self.blocked@.contains(signal));
                return true;
            }
            i += 1;
        }
        assert(!self.blocked@.contains(signal));
        false
    }

    /// Whether a signal awaits delivery.
    pub fn has_pending(&self) -> (pending: bool)
        ensures
            pending == (self@.pending.len() > 0),
    {
        self.pending.len() > 0
    }
}

/// The signal state of every registered process, under its pid.
pub type SignalTable = Map<Pid, SignalState>;

/// The table after `pid` was registered: it has a fresh state, unless it was
/// registered before, in which case it keeps the state it had.
pub open spec fn register(table: SignalTable, pid: Pid) -> SignalTable {
    if table.contains_key(pid) {
        table
    } else {
        table.insert(pid, SignalState::fresh(pid))
    }
}

/// The table after `signal` was sent to `target`; unchanged if `target` is
/// not registered.
pub open spec fn with_signal(
    table: SignalTable,
    target: Pid,
    signal: Signal,
    sender: Option<Pid>,
) -> SignalTable {
    if table.contains_key(target) {
        table.insert(target, table[target].add_pending(signal, sender))
    } else {
        table
    }
}

/// The table after `action` was installed for `signal` of `pid`; unchanged if
/// `pid` is not registered.
pub open spec fn with_handler(
    table: SignalTable,
    pid: Pid,
    signal: Signal,
    action: SignalAction,
) -> SignalTable {
    if table.contains_key(pid) {
        table.insert(pid, table[pid].set_handler(signal, action))
    } else {
        table
    }
}

/// What the next delivery to `pid` hands over: the pending signal that was
/// sent last, with the action it resolves to.
pub open spec fn delivered(table: SignalTable, pid: Pid) -> Option<(Signal, SignalAction)> {
    if table.contains_key(pid) {
        match table[pid].next() {
            Some(next) => Some((next.0, table[pid].action_for(next.0))),
            None => None,
        }
    } else {
        None
    }
}

/// The table after the next delivery to `pid`: the delivered signal is no
/// longer pending.
pub open spec fn after_delivery(table: SignalTable, pid: Pid) -> SignalTable {
    if table.contains_key(pid) {
        table.insert(pid, table[pid].take_next())
    } else {
        table
    }
}

/// Owner of the signal state of every registered process.
pub struct SignalManager {
    process_signals: Vec<ProcessSignals>,
}

impl View for SignalManager {
    type V = SignalTable;

    closed spec fn view(&self) -> SignalTable {
        to_map(self.entries())
    }
}

impl SignalManager {
    /// The states in registration order, each with its pid.
    spec fn entries(&self) -> Seq<(Pid, SignalState)> {
        self.process_signals@.map_values(|ps: ProcessSignals| (ps.pid, ps@))
    }

    /// Creates a manager with no process registered.
    pub fn new() -> (manager: SignalManager)
        ensures
            manager@ == SignalTable::empty(),
    {
        let manager = SignalManager { process_signals: Vec::new() };
        assert(manager.entries() =~= Seq::empty());
        manager
    }

    /// Position of the first state registered for `pid`.
    fn find(&self, pid: Pid) -> (found: Option<usize>)
        ensures
            match found {
                Some(i) => {
                    &&& i < self.process_signals@.len()
                    &&& self.process_signals@[i as int].pid == pid
                    &&& is_first_at(keys(self.entries()), pid, i as int)
                    &&& self@.contains_key(pid)
                    &&& self@[pid] == self.process_signals@[i as int]@
                },
                None => !self@.contains_key(pid),
            },
    {
        let mut i: usize = 0;
        while i < self.process_signals.len()
            invariant
                i <= self.process_signals@.len(),
                forall|j: int| 0 <= j < i ==> self.process_signals@[j].pid != pid,
            decreases self.process_signals@.len() - i,
        {
            if self.process_signals[i].pid == pid {
                proof {
                    assert(is_first_at(keys(self.entries()), pid, i as int));
                    lemma_to_map_first(self.entries(), pid, i as int);
                }
                return Some(i);
            }
            i += 1;
        }
        proof {
            lemma_to_map_absent(self.entries(), pid);
        }
        None
    }

    /// Whether `pid` is registered.
    pub fn is_registered(&self, pid: Pid) -> (registered: bool)
        ensures
            registered == self@.contains_key(pid),
    {
        self.find(pid).is_some()
    }

    /// Gives `pid` a fresh signal state. A pid that is already registered
    /// keeps the state it has.
    pub fn register_process(&mut self, pid: Pid)
        ensures
            final(self)@ == register(old(self)@, pid),
    {
        let signals = ProcessSignals::new(pid);
        proof {
            lemma_to_map_push(self.entries(), pid, signals@);
        }
        self.process_signals.push(signals);
        assert(self.entries() =~= old(self).entries().push((pid, signals@)));
    }

    /// Drops the signal state of `pid`.
    pub fn unregister_process(&mut self, pid: Pid)
        ensures
            final(self)@ == old(self)@.remove(pid),
    {
        let mut i: usize = 0;
        while i < self.process_signals.len()
            invariant
                i <= self.process_signals@.len(),
                forall|j: int| 0 <= j < i ==> self.process_signals@[j].pid != pid,
                self@.remove(pid) == old(self)@.remove(pid),
            decreases self.process_signals@.len() - i,
        {
            if self.process_signals[i].pid == pid {
                let ghost before = self.entries();
                proof {
                    lemma_to_map_remove(before, i as int);
                }
                self.process_signals.remove(i);
                assert(self.entries() =~= before.remove(i as int));
            } else {
                i += 1;
            }
        }
        proof {
            lemma_to_map_absent(self.entries(), pid);
            assert(self@.remove(pid) =~= self@);
        }
    }

    /// Sends `signal` to `target`: it becomes pending there unless `target`
    /// has it blocked, in which case it is dropped. Does nothing if `target`
    /// is not registered.
    pub fn send_signal(&mut self, target: Pid, signal: Signal, sender: Option<Pid>)
        ensures
            final(self)@ == with_signal(old(self)@, target, signal, sender),
    {
        if let Some(i) = self.find(target) {
            let ghost before = self.entries();
            let ghost after = before[i as int].1.add_pending(signal, sender);
            proof {
                lemma_to_map_update(before, i as int, after);
            }
            self.process_signals[i].add_pending(signal, sender);
            assert(self.entries() =~= before.update(i as int, (target, after)));
        }
    }

    /// Installs `action` for `signal` of `pid` in place of whatever was
    /// installed. Does nothing if `pid` is not registered, and nothing for
    /// kill and stop, which always take their default action.
    pub fn set_handler(&mut self, pid: Pid, signal: Signal, action: SignalAction)
        ensures
            final(self)@ == with_handler(old(self)@, pid, signal, action),
    {
        if let Some(i) = self.find(pid) {
            let ghost before = self.entries();
            let ghost after = before[i as int].1.set_handler(signal, action);
            proof {
                lemma_to_map_update(before, i as int, after);
            }
            self.process_signals[i].set_handler(signal, action);
            assert(self.entries() =~= before.update(i as int, (pid, after)));
        }
    }

    /// Takes the pending signal of `pid` that was sent last and returns it
    /// with the action it resolves to. Returns `None` if nothing is pending
    /// or `pid` is not registered.
    pub fn process_signals(&mut self, pid: Pid) -> (next: Option<(Signal, SignalAction)>)
        ensures
            next == delivered(old(self)@, pid),
            final(self)@ == after_delivery(old(self)@, pid),
    {
        if let Some(i) = self.find(pid) {
            let ghost before = self.entries();
            let ghost after = before[i as int].1.take_next();
            proof {
                lemma_to_map_update(before, i as int, after);
            }
            let taken = self.process_signals[i].next_pending();
            assert(self.entries() =~= before.update(i as int, (pid, after)));
            if let Some((signal, _sender)) = taken {
                let action = self.process_signals[i].get_handler(signal);
                return Some((signal, action));
            }
        }
        None
    }
}

/// Sets up signal handling: a manager with no process registered.
pub fn init() -> (manager: SignalManager)
    ensures
        manager@ == SignalTable::empty(),
{
    SignalManager::new()
}

/// Sends `signal` to `target`; see [`SignalManager::send_signal`].
pub fn send_signal(manager: &mut SignalManager, target: Pid, signal: Signal, sender: Option<Pid>)
    ensures
        final(manager)@ == with_signal(old(manager)@, target, signal, sender),
{
    manager.send_signal(target, signal, sender);
}

/// Installs a handler; see [`SignalManager::set_handler`].
pub fn set_handler(manager: &mut SignalManager, pid: Pid, signal: Signal, action: SignalAction)
    ensures
        final(manager)@ == with_handler(old(manager)@, pid, signal, action),
{
    manager.set_handler(pid, signal, action);
}

/// Registers `pid` for signals; see [`SignalManager::register_process`].
pub fn register_process(manager: &mut SignalManager, pid: Pid)
    ensures
        final(manager)@ == register(old(manager)@, pid),
{
    manager.register_process(pid);
}

/// Drops the signal state of `pid`.
pub fn unregister_process(manager: &mut SignalManager, pid: Pid)
    ensures
        final(manager)@ == old(manager)@.remove(pid),
{
    manager.unregister_process(pid);
}

/// Delivers the next pending signal of `pid`; see
/// [`SignalManager::process_signals`].
pub fn process_signals(manager: &mut SignalManager, pid: Pid) -> (next: Option<
    (Signal, SignalAction),
>)
    ensures
        next == delivered(old(manager)@, pid),
        final(manager)@ == after_delivery(old(manager)@, pid),
{
    manager.process_signals(pid)
}

/// A signal sent while it is blocked leaves no trace: the state is as if it
/// had never been sent, so no later delivery hands it over, not even after
/// it is unblocked.
pub proof fn lemma_blocked_signal_is_dropped(
    state: SignalState,
    signal: Signal,
    sender: Option<Pid>,
)
    requires
        state.blocked.contains(signal),
    ensures
        state.add_pending(signal, sender) == state,
        state.add_pending(signal, sender).unblock(signal).pending == state.pending,
        state.add_pending(signal, sender).unblock(signal).next() == state.next(),
{
}

/// Pending signals are delivered last in, first out: of two signals sent one
/// after the other with neither blocked, the second is delivered first, then
/// the first, and then what was pending before them.
pub proof fn lemma_delivery_is_last_in_first_out(
    state: SignalState,
    first: Signal,
    first_sender: Option<Pid>,
    second: Signal,
    second_sender: Option<Pid>,
)
    requires
        !state.blocked.contains(first),
        !state.blocked.contains(second),
    ensures
        ({
            let sent = state.add_pending(first, first_sender).add_pending(second, second_sender);
            &&& sent.next() == Some((second, second_sender))
            &&& sent.take_next().next() == Some((first, first_sender))
            &&& sent.take_next().take_next() == state
        }),
{
    let sent = state.add_pending(first, first_sender).add_pending(second, second_sender);
    assert(sent.take_next().pending =~= state.pending.push((first, first_sender)));
    assert(sent.take_next().take_next().pending =~= state.pending);
}

/// The same two laws through the manager's operations on a registered
/// process: a blocked signal changes nothing, and of two signals that get
/// through the second is handed over first, each with the action it
/// resolves to.
pub proof fn lemma_table_delivery(
    table: SignalTable,
    pid: Pid,
    first: Signal,
    second: Signal,
    sender: Option<Pid>,
)
    requires
        table.contains_key(pid),
    ensures
        table[pid].blocked.contains(first) ==> with_signal(table, pid, first, sender) == table,
        !table[pid].blocked.contains(first) && !table[pid].blocked.contains(second) ==> ({
            let sent = with_signal(with_signal(table, pid, first, sender), pid, second, sender);
            &&& delivered(sent, pid) == Some((second, table[pid].action_for(second)))
            &&& delivered(after_delivery(sent, pid), pid) == Some(
                (first, table[pid].action_for(first)),
            )
            &&& after_delivery(after_delivery(sent, pid), pid) == table
        }),
{
    if table[pid].blocked.contains(first) {
        assert(with_signal(table, pid, first, sender) =~= table);
    }
    if !table[pid].blocked.contains(first) && !table[pid].blocked.contains(second) {
        lemma_delivery_is_last_in_first_out(table[pid], first, sender, second, sender);
        let sent = with_signal(with_signal(table, pid, first, sender), pid, second, sender);
        assert(sent[pid] == table[pid].add_pending(first, sender).add_pending(second, sender));
        assert(after_delivery(after_delivery(sent, pid), pid) =~= table);
    }
}

} // verus!
