//! The process table and its round-robin scheduler.

use crate::address::{new_virt_addr, virt_addr_value};
use crate::assoc::{is_first_at, lemma_first_at, lemma_first_none, lemma_first_some};
use std::collections::VecDeque;
use vstd::prelude::*;
use x86_64::VirtAddr;

verus! {

/// Process identifier.
pub type Pid = u64;

/// Scheduling state of a process.
#[derive(Debug, Clone, Copy, PartialEq, Eq, Structural)]
pub enum ProcessState {
    Ready,
    Running,
    Blocked,
    Terminated,
}

/// Priority of a process. It is recorded; the scheduler does not consult it.
#[derive(Debug, Clone, Copy, PartialEq, Eq, PartialOrd, Ord, Structural)]
pub enum Priority {
    Low,
    Normal,
    High,
}

/// Process control block.
#[derive(Debug)]
pub struct Process {
    pub pid: Pid,
    pub parent_pid: Option<Pid>,
    pub state: ProcessState,
    pub priority: Priority,
    pub stack_pointer: VirtAddr,
    pub instruction_pointer: VirtAddr,
    pub page_table: VirtAddr,
}

/// A process control block as plain values: each saved address is given by the
/// number it holds.
pub struct ProcessView {
    pub pid: Pid,
    pub parent_pid: Option<Pid>,
    pub state: ProcessState,
    pub priority: Priority,
    pub stack_pointer: u64,
    pub instruction_pointer: u64,
    pub page_table: u64,
}

impl View for Process {
    type V = ProcessView;

    open spec fn view(&self) -> ProcessView {
        ProcessView {
            pid: self.pid,
            parent_pid: self.parent_pid,
            state: self.state,
            priority: self.priority,
            stack_pointer: virt_addr_value(self.stack_pointer),
            instruction_pointer: virt_addr_value(self.instruction_pointer),
            page_table: virt_addr_value(self.page_table),
        }
    }
}

impl ProcessView {
    /// The control block of a process that has just been created.
    pub open spec fn fresh(pid: Pid, parent_pid: Option<Pid>) -> ProcessView {
        ProcessView {
            pid,
            parent_pid,
            state: ProcessState::Ready,
            priority: Priority::Normal,
            stack_pointer: 0,
            instruction_pointer: 0,
            page_table: 0,
        }
    }

    /// This control block with another scheduling state.
    pub open spec fn with_state(self, state: ProcessState) -> ProcessView {
        ProcessView { state, ..self }
    }
}

impl Process {
    /// Creates a process that is ready to run, with normal priority and a
    /// zeroed saved context.
    pub fn new(pid: Pid, parent_pid: Option<Pid>) -> (process: Process)
        ensures
            process@ == ProcessView::fresh(pid, parent_pid),
    {
        Process {
            pid,
            parent_pid,
            state: ProcessState::Ready,
            priority: Priority::Normal,
            stack_pointer: new_virt_addr(0),
            instruction_pointer: new_virt_addr(0),
            page_table: new_virt_addr(0),
        }
    }

    /// Sets the scheduling state.
    pub fn set_state(&mut self, state: ProcessState)
        ensures
            final(self)@ == old(self)@.with_state(state),
    {
        self.state = state;
    }

    /// Sets the priority.
    pub fn set_priority(&mut self, priority: Priority)
        ensures
            final(self)@ == (ProcessView { priority, ..old(self)@ }),
    {
        self.priority = priority;
    }
}

/// The process table as plain values.
pub struct ProcessTable {
    /// Control blocks, in creation order.
    pub processes: Seq<ProcessView>,
    /// Pids waiting for the processor, next to run first.
    pub ready: Seq<Pid>,
    /// The pid that was last given the processor, until it terminates.
    pub current: Option<Pid>,
    /// The pid that the next created process receives.
    pub next_pid: Pid,
}

impl ProcessTable {
    /// The table before any process exists.
    pub open spec fn empty() -> ProcessTable {
        ProcessTable { processes: Seq::empty(), ready: Seq::empty(), current: None, next_pid: 1 }
    }

    /// The pid of each control block, in table order.
    pub open spec fn pids(self) -> Seq<Pid> {
        self.processes.map_values(|p: ProcessView| p.pid)
    }

    /// Position of the control block that a lookup of `pid` finds: the first
    /// one that carries it.
    pub open spec fn index_of(self, pid: Pid) -> Option<int> {
        self.pids().index_of_first(pid)
    }

    /// The control block that a lookup of `pid` finds.
    pub open spec fn lookup(self, pid: Pid) -> Option<ProcessView> {
        match self.index_of(pid) {
            Some(i) => Some(self.processes[i]),
            None => None,
        }
    }

    /// The state of the process that a lookup of `pid` finds.
    pub open spec fn state_of(self, pid: Pid) -> Option<ProcessState> {
        match self.lookup(pid) {
            Some(p) => Some(p.state),
            None => None,
        }
    }

    /// Whether the scheduler may pick `pid`: it is known and Ready or Running.
    pub open spec fn is_runnable(self, pid: Pid) -> bool {
        match self.lookup(pid) {
            Some(p) => p.state == ProcessState::Ready || p.state == ProcessState::Running,
            None => false,
        }
    }

    /// Every pid was issued in order from 1: the control block at position `i`
    /// carries pid `i + 1`, the next pid follows the last one, and the ready
    /// queue and the current pid name issued pids only. At most one process
    /// is Running, and that is the current one.
    pub open spec fn well_formed(self) -> bool {
        &&& self.next_pid == self.processes.len() + 1
        &&& forall|i: int|
            0 <= i < self.processes.len() && (#[trigger] self.processes[i]).state
                == ProcessState::Running ==> self.current == Some(self.processes[i].pid)
        &&& forall|i: int|
            0 <= i < self.processes.len() ==> #[trigger] self.processes[i].pid == i + 1
        &&& forall|k: int|
            0 <= k < self.ready.len() ==> 1 <= #[trigger] self.ready[k] < self.next_pid
        &&& match self.current {
            Some(c) => 1 <= c < self.next_pid,
            None => true,
        }
    }

    /// The table after a process with parent `parent_pid` was created.
    pub open spec fn create(self, parent_pid: Option<Pid>) -> ProcessTable {
        ProcessTable {
            processes: self.processes.push(ProcessView::fresh(self.next_pid, parent_pid)),
            ready: self.ready.push(self.next_pid),
            current: self.current,
            next_pid: (self.next_pid + 1) as Pid,
        }
    }

    /// The table with the state of `pid` replaced; unchanged if `pid` is unknown.
    pub open spec fn with_state(self, pid: Pid, state: ProcessState) -> ProcessTable {
        match self.index_of(pid) {
            Some(i) => ProcessTable {
                processes: self.processes.update(i, self.processes[i].with_state(state)),
                ..self
            },
            None => self,
        }
    }

    /// The table after `pid` was terminated: its state is Terminated if it is
    /// known, and it is no longer the current pid.
    pub open spec fn terminate(self, pid: Pid) -> ProcessTable {
        let marked = self.with_state(pid, ProcessState::Terminated);
        ProcessTable {
            current: if self.current == Some(pid) { None } else { self.current },
            ..marked
        }
    }

    /// The table after `pid` was blocked.
    pub open spec fn block(self, pid: Pid) -> ProcessTable {
        self.with_state(pid, ProcessState::Blocked)
    }

    /// The table after `pid` was unblocked: a Blocked process becomes Ready and
    /// joins the back of the ready queue; anything else is left alone.
    pub open spec fn unblock(self, pid: Pid) -> ProcessTable {
        match self.lookup(pid) {
            Some(p) if p.state == ProcessState::Blocked => ProcessTable {
                ready: self.ready.push(pid),
                ..self.with_state(pid, ProcessState::Ready)
            },
            _ => self,
        }
    }

    /// Whether there is a current process and it is still Running.
    pub open spec fn current_is_running(self) -> bool {
        match self.current {
            Some(c) => self.state_of(c) == Some(ProcessState::Running),
            None => false,
        }
    }

    /// The control blocks once the current process, if it is still Running,
    /// has given up the processor: it is Ready again.
    pub open spec fn preempted(self) -> ProcessTable {
        if self.current_is_running() {
            self.with_state(self.current.unwrap(), ProcessState::Ready)
        } else {
            self
        }
    }

    /// The ready queue once the current process, if it is still Running, has
    /// been put at its back.
    pub open spec fn requeued(self) -> Seq<Pid> {
        if self.current_is_running() {
            self.ready.push(self.current.unwrap())
        } else {
            self.ready
        }
    }

    /// Position in `queue` of the first pid that the scheduler may pick.
    pub open spec fn first_runnable(self, queue: Seq<Pid>) -> Option<int> {
        queue.map_values(|pid: Pid| self.is_runnable(pid)).index_of_first(true)
    }

    /// The pid that the scheduler picks next, if any.
    pub open spec fn next_scheduled(self) -> Option<Pid> {
        match self.first_runnable(self.requeued()) {
            Some(k) => Some(self.requeued()[k]),
            None => None,
        }
    }

    /// The table after one scheduling decision. The current process, if it is
    /// still Running, becomes Ready and waits at the back of the queue; the
    /// chosen pid becomes Running and current, and the entries in front of it
    /// are dropped for good. When nothing can run the queue ends up empty and
    /// everything else stays as it was.
    pub open spec fn schedule(self) -> ProcessTable {
        let queue = self.requeued();
        match self.first_runnable(queue) {
            Some(k) => ProcessTable {
                ready: queue.skip(k + 1),
                current: Some(queue[k]),
                ..self.preempted().with_state(queue[k], ProcessState::Running)
            },
            None => ProcessTable { ready: Seq::empty(), ..self },
        }
    }

    /// Whether every pid that the next scheduling decision looks at may run.
    pub open spec fn all_runnable(self) -> bool {
        forall|k: int|
            0 <= k < self.requeued().len() ==> self.is_runnable(#[trigger] self.requeued()[k])
    }

    /// The table after `n` scheduling decisions in a row.
    pub open spec fn schedule_times(self, n: nat) -> ProcessTable
        decreases n,
    {
        if n == 0 {
            self
        } else {
            self.schedule_times((n - 1) as nat).schedule()
        }
    }
}

/// Owner of every process control block, the ready queue and the current pid.
pub struct ProcessManager {
    processes: Vec<Process>,
    ready_queue: VecDeque<Pid>,
    current_pid: Option<Pid>,
    next_pid: Pid,
}

impl View for ProcessManager {
    type V = ProcessTable;

    closed spec fn view(&self) -> ProcessTable {
        ProcessTable {
            processes: self.processes@.map_values(|p: Process| p@),
            ready: self.ready_queue@,
            current: self.current_pid,
            next_pid: self.next_pid,
        }
    }
}

impl ProcessManager {
    /// Creates an empty process table whose first pid will be 1.
    pub fn new() -> (manager: ProcessManager)
        ensures
            manager@ == ProcessTable::empty(),
    {
        let manager = ProcessManager {
            processes: Vec::new(),
            ready_queue: VecDeque::new(),
            current_pid: None,
            next_pid: 1,
        };
        assert(manager@.processes =~= Seq::empty());
        manager
    }

    /// Position of the first control block that carries `pid`.
    fn find(&self, pid: Pid) -> (found: Option<usize>)
        ensures
            match found {
                Some(i) => self@.index_of(pid) == Some(i as int) && i < self.processes.len(),
                None => self@.index_of(pid) is None,
            },
    {
        let mut i: usize = 0;
        while i < self.processes.len()
            invariant
                i <= self.processes.len(),
                forall|j: int| 0 <= j < i ==> self@.pids()[j] != pid,
            decreases self.processes.len() - i,
        {
            if self.processes[i].pid == pid {
                proof {
                    assert(is_first_at(self@.pids(), pid, i as int));
                    lemma_first_at(self@.pids(), pid, i as int);
                }
                return Some(i);
            }
            i += 1;
        }
        proof {
            lemma_first_none(self@.pids(), pid);
        }
        None
    }

    /// Creates a process in state Ready, appends it to the ready queue and
    /// returns its pid, which is the next one in sequence.
    pub fn create_process(&mut self, parent_pid: Option<Pid>) -> (pid: Pid)
        requires
            old(self)@.next_pid < u64::MAX,
        ensures
            pid == old(self)@.next_pid,
            final(self)@ == old(self)@.create(parent_pid),
            old(self)@.well_formed() ==> final(self)@.well_formed(),
    {
        proof {
            if self@.well_formed() {
                lemma_create_well_formed(self@, parent_pid);
            }
        }
        let pid = self.next_pid;
        self.next_pid += 1;
        let process = Process::new(pid, parent_pid);
        self.processes.push(process);
        self.ready_queue.push_back(pid);
        assert(self@.processes =~= old(self)@.create(parent_pid).processes);
        pid
    }

    /// The control block of `pid`, if the table holds one.
    pub fn get_process(&self, pid: Pid) -> (found: Option<&Process>)
        ensures
            match found {
                Some(p) => self@.lookup(pid) == Some(p@),
                None => self@.lookup(pid) is None,
            },
    {
        match self.find(pid) {
            Some(i) => Some(&self.processes[i]),
            None => None,
        }
    }

    /// Replaces the state of the control block at position `i`.
    fn set_state_at(&mut self, i: usize, state: ProcessState)
        requires
            i < old(self).processes.len(),
        ensures
            final(self)@ == (ProcessTable {
                processes: old(self)@.processes.update(
                    i as int,
                    old(self)@.processes[i as int].with_state(state),
                ),
                ..old(self)@
            }),
    {
        self.processes[i].state = state;
        assert(self@.processes =~= old(self)@.processes.update(
            i as int,
            old(self)@.processes[i as int].with_state(state),
        ));
    }

    /// The control block of `pid` for modification, if the table holds one.
    /// The table afterwards is the old one with that control block replaced
    /// by whatever the caller leaves in it.
    pub fn get_process_mut(&mut self, pid: Pid) -> (found: Option<&mut Process>)
        ensures
            match found {
                Some(p) => {
                    &&& old(self)@.index_of(pid) is Some
                    &&& old(self)@.lookup(pid) == Some(p@)
                    &&& final(self)@.processes =~= old(self)@.processes.update(
                        old(self)@.index_of(pid).unwrap(),
                        final(p)@,
                    )
                    &&& final(self)@.ready == old(self)@.ready
                    &&& final(self)@.current == old(self)@.current
                    &&& final(self)@.next_pid == old(self)@.next_pid
                },
                None => old(self)@.lookup(pid) is None && final(self)@ == old(self)@,
            },
    {
        match self.find(pid) {
            Some(i) => {
                Some(&mut self.processes[i])
            },
            None => None,
        }
    }

    /// Picks the next process to run, round-robin. The current process, if it
    /// is still Running, becomes Ready and goes to the back of the ready
    /// queue; the queue is then drained from the front up to the first pid
    /// that is Ready or Running, which becomes Running and current. Pids met
    /// on the way that are Blocked, Terminated or unknown are dropped.
    /// Returns `None`, leaving the queue empty, when no pid qualifies.
    pub fn schedule(&mut self) -> (next: Option<Pid>)
        ensures
            next == old(self)@.next_scheduled(),
            final(self)@ == old(self)@.schedule(),
            old(self)@.well_formed() ==> final(self)@.well_formed(),
    {
        proof {
            if self@.well_formed() {
                lemma_schedule_well_formed(self@);
            }
        }
        let ghost table = self@;
        let ghost queue = table.requeued();
        let ghost yielded = table.preempted();
        if let Some(current) = self.current_pid {
            if let Some(i) = self.find(current) {
                if self.processes[i].state == ProcessState::Running {
                    self.set_state_at(i, ProcessState::Ready);
                    self.ready_queue.push_back(current);
                }
            }
        }
        let ghost runnable = queue.map_values(|pid: Pid| table.is_runnable(pid));
        let ghost mut dropped: int = 0;
        loop
            invariant
                table == old(self)@,
                table.well_formed() ==> table.schedule().well_formed(),
                yielded == table.preempted(),
                self@.processes == yielded.processes,
                self@.current == table.current,
                self@.next_pid == table.next_pid,
                queue == table.requeued(),
                runnable == queue.map_values(|pid: Pid| table.is_runnable(pid)),
                0 <= dropped <= queue.len(),
                self@.ready == queue.skip(dropped),
                forall|j: int| 0 <= j < dropped ==> !runnable[j],
            decreases self.ready_queue.len(),
        {
            match self.ready_queue.pop_front() {
                None => {
                    proof {
                        lemma_first_none(runnable, true);
                        assert(self@.ready =~= Seq::empty());
                        if table.current_is_running() {
                            assert(runnable[queue.len() - 1]);
                        }
                    }
                    return None;
                },
                Some(pid) => {
                    assert(pid == queue[dropped]);
                    assert(self@.ready =~= queue.skip(dropped + 1));
                    proof {
                        lemma_preempted(table, pid);
                    }
                    if let Some(i) = self.find(pid) {
                        let state = self.processes[i].state;
                        if state == ProcessState::Ready || state == ProcessState::Running {
                            self.set_state_at(i, ProcessState::Running);
                            self.current_pid = Some(pid);
                            proof {
                                assert(is_first_at(runnable, true, dropped));
                                lemma_first_at(runnable, true, dropped);
                            }
                            return Some(pid);
                        }
                    }
                    proof {
                        assert(!runnable[dropped]);
                        dropped = dropped + 1;
                    }
                },
            }
        }
    }

    /// Marks `pid` Terminated if the table holds it, and clears the current
    /// pid if it was `pid`.
    pub fn terminate_process(&mut self, pid: Pid)
        ensures
            final(self)@ == old(self)@.terminate(pid),
            old(self)@.well_formed() ==> final(self)@.well_formed(),
    {
        proof {
            if self@.well_formed() {
                lemma_transitions_well_formed(self@, pid);
            }
        }
        if let Some(i) = self.find(pid) {
            self.set_state_at(i, ProcessState::Terminated);
        }
        if self.current_pid == Some(pid) {
            self.current_pid = None;
        }
    }

    /// Marks `pid` Blocked if the table holds it.
    pub fn block_process(&mut self, pid: Pid)
        ensures
            final(self)@ == old(self)@.block(pid),
            old(self)@.well_formed() ==> final(self)@.well_formed(),
    {
        proof {
            if self@.well_formed() {
                lemma_transitions_well_formed(self@, pid);
            }
        }
        if let Some(i) = self.find(pid) {
            self.set_state_at(i, ProcessState::Blocked);
        }
    }

    /// Makes a Blocked `pid` Ready again and appends it to the ready queue.
    /// Does nothing if `pid` is unknown or not Blocked.
    pub fn unblock_process(&mut self, pid: Pid)
        ensures
            final(self)@ == old(self)@.unblock(pid),
            old(self)@.well_formed() ==> final(self)@.well_formed(),
    {
        proof {
            if self@.well_formed() {
                lemma_transitions_well_formed(self@, pid);
            }
        }
        if let Some(i) = self.find(pid) {
            if self.processes[i].state == ProcessState::Blocked {
                self.set_state_at(i, ProcessState::Ready);
                self.ready_queue.push_back(pid);
            }
        }
    }

    /// The pid that was last given the processor, unless it has terminated.
    pub fn current_pid(&self) -> (pid: Option<Pid>)
        ensures
            pid == self@.current,
    {
        self.current_pid
    }

    /// The pid that the next created process receives.
    pub fn next_pid(&self) -> (pid: Pid)
        ensures
            pid == self@.next_pid,
    {
        self.next_pid
    }

    /// Number of control blocks, terminated processes included.
    pub fn process_count(&self) -> (count: usize)
        ensures
            count == self@.processes.len(),
    {
        self.processes.len()
    }

    /// Length of the ready queue.
    pub fn ready_count(&self) -> (count: usize)
        ensures
            count == self@.ready.len(),
    {
        self.ready_queue.len()
    }
}

/// Sets up process management: a table that holds the init process, which has
/// pid 1 and no parent and is ready to run.
pub fn init() -> (manager: ProcessManager)
    ensures
        manager@ == ProcessTable::empty().create(None),
        manager@.well_formed(),
        manager@.lookup(1) == Some(ProcessView::fresh(1, None)),
{
    let mut manager = ProcessManager::new();
    proof {
        lemma_pid_allocation(manager@, None);
    }
    manager.create_process(None);
    manager
}

/// Creates a process in `manager`; see [`ProcessManager::create_process`].
pub fn create_process(manager: &mut ProcessManager, parent_pid: Option<Pid>) -> (pid: Pid)
    requires
        old(manager)@.next_pid < u64::MAX,
    ensures
        pid == old(manager)@.next_pid,
        final(manager)@ == old(manager)@.create(parent_pid),
        old(manager)@.well_formed() ==> final(manager)@.well_formed(),
{
    manager.create_process(parent_pid)
}

/// Picks the next process to run; see [`ProcessManager::schedule`].
pub fn schedule(manager: &mut ProcessManager) -> (next: Option<Pid>)
    ensures
        next == old(manager)@.next_scheduled(),
        final(manager)@ == old(manager)@.schedule(),
        old(manager)@.well_formed() ==> final(manager)@.well_formed(),
{
    manager.schedule()
}

/// Terminates `pid`; see [`ProcessManager::terminate_process`].
pub fn exit(manager: &mut ProcessManager, pid: Pid)
    ensures
        final(manager)@ == old(manager)@.terminate(pid),
        old(manager)@.well_formed() ==> final(manager)@.well_formed(),
{
    manager.terminate_process(pid);
}

/// The current pid of `manager`.
pub fn current_pid(manager: &ProcessManager) -> (pid: Option<Pid>)
    ensures
        pid == manager@.current,
{
    manager.current_pid()
}

/// Changing the state of `pid` keeps every pid where it is, so every lookup
/// finds the same position as before, and only the control block of `pid`
/// differs.
pub proof fn lemma_with_state(table: ProcessTable, pid: Pid, state: ProcessState, other: Pid)
    ensures
        table.with_state(pid, state).pids() == table.pids(),
        table.with_state(pid, state).index_of(other) == table.index_of(other),
        table.with_state(pid, state).lookup(other) == if other == pid {
            match table.lookup(pid) {
                Some(p) => Some(p.with_state(state)),
                None => None,
            }
        } else {
            table.lookup(other)
        },
{
    let after = table.with_state(pid, state);
    lemma_first_some(table.pids(), pid);
    lemma_first_some(table.pids(), other);
    assert(after.pids() =~= table.pids());
}

/// The empty table is well formed.
pub proof fn lemma_empty_well_formed()
    ensures
        ProcessTable::empty().well_formed(),
{
}

/// Creating a process keeps the table well formed.
pub proof fn lemma_create_well_formed(table: ProcessTable, parent_pid: Option<Pid>)
    requires
        table.well_formed(),
        table.next_pid < u64::MAX,
    ensures
        table.create(parent_pid).well_formed(),
{
}

/// In a well-formed table a lookup by pid finds the control block at the
/// position that the pid names.
pub proof fn lemma_lookup_by_position(table: ProcessTable, i: int)
    requires
        table.well_formed(),
        0 <= i < table.processes.len(),
    ensures
        table.index_of(table.processes[i].pid) == Some(i),
        table.lookup(table.processes[i].pid) == Some(table.processes[i]),
{
    let pids = table.pids();
    let pid = table.processes[i].pid;
    assert forall|j: int| 0 <= j < i implies pids[j] != pid by {
        assert(table.processes[j].pid == j + 1);
    }
    assert(is_first_at(pids, pid, i));
    lemma_first_at(pids, pid, i);
}

/// Changing a state keeps the table well formed, as long as only the current
/// process is made Running.
pub proof fn lemma_with_state_well_formed(table: ProcessTable, pid: Pid, state: ProcessState)
    requires
        table.well_formed(),
        state != ProcessState::Running || table.current == Some(pid),
    ensures
        table.with_state(pid, state).well_formed(),
{
    lemma_first_some(table.pids(), pid);
}

/// Terminating, blocking and unblocking keep the table well formed.
pub proof fn lemma_transitions_well_formed(table: ProcessTable, pid: Pid)
    requires
        table.well_formed(),
    ensures
        table.terminate(pid).well_formed(),
        table.block(pid).well_formed(),
        table.unblock(pid).well_formed(),
{
    lemma_with_state_well_formed(table, pid, ProcessState::Terminated);
    lemma_with_state_well_formed(table, pid, ProcessState::Blocked);
    lemma_with_state_well_formed(table, pid, ProcessState::Ready);
    lemma_first_some(table.pids(), pid);
    let marked = table.with_state(pid, ProcessState::Terminated);
    assert forall|i: int|
        0 <= i < marked.processes.len() && (#[trigger] marked.processes[i]).state
            == ProcessState::Running implies marked.processes[i].pid != pid by {
        lemma_lookup_by_position(table, i);
    }
}

/// At most one process of a well-formed table is Running.
pub proof fn lemma_single_running(table: ProcessTable, i: int, j: int)
    requires
        table.well_formed(),
        0 <= i < table.processes.len(),
        0 <= j < table.processes.len(),
        table.processes[i].state == ProcessState::Running,
        table.processes[j].state == ProcessState::Running,
    ensures
        i == j,
        table.current == Some(table.processes[i].pid),
{
}

/// Giving up the processor changes nothing but the state of the current
/// process: every lookup finds the same position, and every pid may run
/// afterwards exactly if it might before.
pub proof fn lemma_preempted(table: ProcessTable, pid: Pid)
    ensures
        table.preempted().pids() == table.pids(),
        table.preempted().index_of(pid) == table.index_of(pid),
        table.preempted().is_runnable(pid) == table.is_runnable(pid),
        table.preempted().ready == table.ready,
        table.preempted().current == table.current,
        table.preempted().next_pid == table.next_pid,
{
    if table.current_is_running() {
        lemma_with_state(table, table.current.unwrap(), ProcessState::Ready, pid);
    }
}

/// Once the current process has given up the processor, no process of a
/// well-formed table is Running.
pub proof fn lemma_preempted_none_running(table: ProcessTable)
    requires
        table.well_formed(),
    ensures
        table.preempted().well_formed(),
        forall|i: int|
            0 <= i < table.preempted().processes.len() ==> (
            #[trigger] table.preempted().processes[i]).state != ProcessState::Running,
{
    let yielded = table.preempted();
    if table.current_is_running() {
        let c = table.current.unwrap();
        lemma_with_state_well_formed(table, c, ProcessState::Ready);
        lemma_first_some(table.pids(), c);
    }
    assert forall|i: int| 0 <= i < yielded.processes.len() implies (
    #[trigger] yielded.processes[i]).state != ProcessState::Running by {
        if table.processes[i].state == ProcessState::Running {
            lemma_lookup_by_position(table, i);
        }
    }
}

/// A scheduling decision keeps the table well formed: the chosen process is
/// the only one in state Running afterwards, and a process that it displaced
/// is Ready.
pub proof fn lemma_schedule_well_formed(table: ProcessTable)
    requires
        table.well_formed(),
    ensures
        table.schedule().well_formed(),
        match table.next_scheduled() {
            Some(chosen) => {
                &&& table.schedule().current == Some(chosen)
                &&& table.schedule().state_of(chosen) == Some(ProcessState::Running)
                &&& forall|i: int|
                    0 <= i < table.schedule().processes.len() && (
                    #[trigger] table.schedule().processes[i]).pid != chosen
                        ==> table.schedule().processes[i].state != ProcessState::Running
                &&& table.current_is_running() && table.current != Some(chosen)
                    ==> table.schedule().state_of(table.current.unwrap()) == Some(
                    ProcessState::Ready,
                )
            },
            None => forall|i: int|
                0 <= i < table.processes.len() ==> (#[trigger] table.processes[i]).state
                    != ProcessState::Running,
        },
{
    let queue = table.requeued();
    let runnable = queue.map_values(|pid: Pid| table.is_runnable(pid));
    let yielded = table.preempted();
    lemma_first_some(runnable, true);
    lemma_preempted_none_running(table);
    match table.first_runnable(queue) {
        Some(k) => {
            let chosen = queue[k];
            lemma_preempted(table, chosen);
            lemma_first_some(yielded.pids(), chosen);
            lemma_with_state(yielded, chosen, ProcessState::Running, chosen);
            assert(runnable[k]);
            assert(table.is_runnable(chosen));
            let after = table.schedule();
            assert forall|j: int| 0 <= j < after.ready.len() implies 1 <= #[trigger] after.ready[j]
                < after.next_pid by {
                assert(after.ready[j] == queue[j + k + 1]);
            }
            if let Some(c) = table.current {
                if c != chosen {
                    lemma_with_state(yielded, chosen, ProcessState::Running, c);
                    lemma_with_state(table, c, ProcessState::Ready, c);
                }
            }
        },
        None => {
            if table.current_is_running() {
                assert(runnable[queue.len() - 1]);
            }
            assert forall|i: int| 0 <= i < table.processes.len() implies (
            #[trigger] table.processes[i]).state != ProcessState::Running by {
                if table.processes[i].state == ProcessState::Running {
                    lemma_lookup_by_position(table, i);
                }
            }
        },
    }
}

/// Pids are handed out in strictly increasing order starting at 1: the first
/// process of an empty table receives pid 1, every pid that a well-formed
/// table holds or queues is below the pid that the next process receives, and
/// each creation moves that pid up by one.
pub proof fn lemma_pid_allocation(table: ProcessTable, parent_pid: Option<Pid>)
    requires
        table.well_formed(),
        table.next_pid < u64::MAX,
    ensures
        ProcessTable::empty().next_pid == 1,
        table.next_pid >= 1,
        forall|i: int| 0 <= i < table.processes.len() ==> table.processes[i].pid < table.next_pid,
        forall|k: int| 0 <= k < table.ready.len() ==> table.ready[k] < table.next_pid,
        table.current matches Some(c) ==> c < table.next_pid,
        table.create(parent_pid).next_pid == table.next_pid + 1,
        table.create(parent_pid).lookup(table.next_pid) == Some(
            ProcessView::fresh(table.next_pid, parent_pid),
        ),
{
    let after = table.create(parent_pid);
    let i = table.processes.len() as int;
    assert(is_first_at(after.pids(), table.next_pid, i));
    lemma_first_at(after.pids(), table.next_pid, i);
}

/// One round-robin step. While every queued pid may run, the scheduler picks
/// the pid at the head of the rotation and moves it to the back, and every
/// pid of the rotation may still run afterwards.
pub proof fn lemma_schedule_rotates(table: ProcessTable)
    requires
        table.requeued().len() > 0,
        table.all_runnable(),
    ensures
        table.next_scheduled() == Some(table.requeued()[0]),
        table.schedule().requeued() == table.requeued().skip(1).push(table.requeued()[0]),
        table.schedule().all_runnable(),
{
    let queue = table.requeued();
    let head = queue[0];
    let runnable = queue.map_values(|pid: Pid| table.is_runnable(pid));
    let yielded = table.preempted();
    assert(table.is_runnable(queue[0]));
    assert(is_first_at(runnable, true, 0));
    lemma_first_at(runnable, true, 0);
    let after = table.schedule();
    lemma_preempted(table, head);
    lemma_with_state(yielded, head, ProcessState::Running, head);
    assert(after.lookup(head) == Some(
        yielded.lookup(head).unwrap().with_state(ProcessState::Running),
    ));
    assert(after.requeued() == queue.skip(1).push(head));
    assert forall|k: int| 0 <= k < after.requeued().len() implies after.is_runnable(
        #[trigger] after.requeued()[k],
    ) by {
        let pid = after.requeued()[k];
        lemma_preempted(table, pid);
        lemma_with_state(yielded, head, ProcessState::Running, pid);
        if k < queue.len() - 1 {
            assert(pid == queue[k + 1]);
            assert(table.is_runnable(queue[k + 1]));
        }
    }
}

/// Round-robin order. While every queued pid may run, scheduling visits the
/// rotation in order and starts over when it reaches the end: the decision
/// after `n` earlier ones picks entry `n` modulo the length of the rotation.
pub proof fn lemma_round_robin(table: ProcessTable, n: nat)
    requires
        table.requeued().len() > 0,
        table.all_runnable(),
    ensures
        table.schedule_times(n).all_runnable(),
        table.schedule_times(n).requeued().len() == table.requeued().len(),
        forall|i: int|
            0 <= i < table.requeued().len() ==> #[trigger] table.schedule_times(n).requeued()[i]
                == table.requeued()[(i + n) % (table.requeued().len() as int)],
        table.schedule_times(n).next_scheduled() == Some(
            table.requeued()[(n as int) % (table.requeued().len() as int)],
        ),
    decreases n,
{
    let queue = table.requeued();
    let m = queue.len() as int;
    if n == 0 {
        assert forall|i: int| 0 <= i < m implies #[trigger] table.schedule_times(
            n,
        ).requeued()[i] == queue[(i + n) % m] by {
            vstd::arithmetic::div_mod::lemma_small_mod(i as nat, m as nat);
        }
    } else {
        let before = table.schedule_times((n - 1) as nat);
        lemma_round_robin(table, (n - 1) as nat);
        lemma_schedule_rotates(before);
        let now = table.schedule_times(n);
        assert(now == before.schedule());
        assert forall|i: int| 0 <= i < m implies #[trigger] now.requeued()[i] == queue[(i + n)
            % m] by {
            if i < m - 1 {
                assert(now.requeued()[i] == before.requeued()[i + 1]);
                assert((i + 1) + (n - 1) == i + n);
            } else {
                assert(now.requeued()[i] == before.requeued()[0]);
                assert(before.requeued()[0] == queue[(0int + (n - 1)) % m]);
                vstd::arithmetic::div_mod::lemma_mod_add_multiples_vanish(n - 1, m);
                assert(i + n == m + (n - 1));
            }
        }
    }
    lemma_schedule_rotates(table.schedule_times(n));
    assert(table.schedule_times(n).requeued()[0] == queue[(0int + n) % m]);
}

/// A pid that may not run is never picked, and a scheduling decision does
/// not make it runnable: a Blocked process stays out until it is unblocked.
pub proof fn lemma_not_runnable_is_skipped(table: ProcessTable, pid: Pid)
    requires
        !table.is_runnable(pid),
    ensures
        table.next_scheduled() != Some(pid),
        table.schedule().lookup(pid) == table.lookup(pid),
        !table.schedule().is_runnable(pid),
{
    let queue = table.requeued();
    let runnable = queue.map_values(|q: Pid| table.is_runnable(q));
    lemma_first_some(runnable, true);
    let yielded = table.preempted();
    lemma_preempted(table, pid);
    if table.current_is_running() {
        lemma_with_state(table, table.current.unwrap(), ProcessState::Ready, pid);
    }
    match table.first_runnable(queue) {
        Some(k) => {
            assert(runnable[k]);
            lemma_with_state(yielded, queue[k], ProcessState::Running, pid);
        },
        None => {},
    }
}

/// Unblocking a Blocked process makes it runnable and puts it at the back
/// of the ready queue.
pub proof fn lemma_unblock_rejoins(table: ProcessTable, pid: Pid)
    requires
        table.lookup(pid) matches Some(p) && p.state == ProcessState::Blocked,
    ensures
        table.unblock(pid).is_runnable(pid),
        table.unblock(pid).ready == table.ready.push(pid),
{
    lemma_with_state(table, pid, ProcessState::Ready, pid);
}

} // verus!
