//! Message passing between processes through bounded first-in-first-out queues.

use crate::assoc::{
    is_first_at, keys, lemma_first_some, lemma_to_map_absent, lemma_to_map_first,
    lemma_to_map_push, lemma_to_map_remove, lemma_to_map_update, to_map,
};
use crate::process::Pid;
use std::collections::VecDeque;
use vstd::prelude::*;

verus! {

/// Largest payload that a message may carry, in bytes.
pub const MAX_MESSAGE_SIZE: usize = 4096;

/// Number of messages that the queue of a registered process holds at most.
pub const QUEUE_CAPACITY: usize = 64;

/// Kind of a message.
#[derive(Debug, Clone, Copy, PartialEq, Eq, Structural)]
pub enum MessageType {
    Data,
    Signal,
    Request,
    Response,
}

/// Errors of the message-passing operations.
#[derive(Debug, Clone, Copy, PartialEq, Eq, Structural)]
pub enum IpcError {
    QueueFull,
    ProcessNotFound,
    MessageTooLarge,
    InvalidMessage,
}

/// A message from one process to another.
#[derive(Debug, Clone)]
pub struct Message {
    pub sender: Pid,
    pub receiver: Pid,
    pub data: Vec<u8>,
    pub msg_type: MessageType,
}

/// A message as plain values.
pub struct MessageView {
    pub sender: Pid,
    pub receiver: Pid,
    pub data: Seq<u8>,
    pub msg_type: MessageType,
}

impl View for Message {
    type V = MessageView;

    open spec fn view(&self) -> MessageView {
        MessageView {
            sender: self.sender,
            receiver: self.receiver,
            data: self.data@,
            msg_type: self.msg_type,
        }
    }
}

impl Message {
    /// Builds a message from its parts.
    pub fn new(sender: Pid, receiver: Pid, data: Vec<u8>, msg_type: MessageType) -> (msg: Message)
        ensures
            msg@ == (MessageView { sender, receiver, data: data@, msg_type }),
    {
        Message { sender, receiver, data, msg_type }
    }
}

/// What is in a queue after a push of `msg` was tried: the message is at the
/// back if there was room, and nothing has changed if there was none.
pub open spec fn queue_push(queue: Seq<MessageView>, capacity: nat, msg: MessageView) -> Seq<
    MessageView,
> {
    if queue.len() < capacity {
        queue.push(msg)
    } else {
        queue
    }
}

/// What is in a queue after a pop: everything but the oldest message.
pub open spec fn queue_pop(queue: Seq<MessageView>) -> Seq<MessageView> {
    if queue.len() > 0 {
        queue.skip(1)
    } else {
        queue
    }
}

/// The message that a pop delivers: the oldest one.
pub open spec fn queue_front(queue: Seq<MessageView>) -> Option<MessageView> {
    if queue.len() > 0 {
        Some(queue[0])
    } else {
        None
    }
}

/// A first-in-first-out queue of messages that refuses to grow beyond a fixed
/// capacity. Its view is its content, oldest message first.
#[derive(Debug)]
pub struct MessageQueue {
    messages: VecDeque<Message>,
    max_size: usize,
}

impl View for MessageQueue {
    type V = Seq<MessageView>;

    closed spec fn view(&self) -> Seq<MessageView> {
        self.messages@.map_values(|m: Message| m@)
    }
}

impl MessageQueue {
    /// The number of messages that the queue accepts.
    pub closed spec fn capacity(&self) -> nat {
        self.max_size as nat
    }

    /// Creates an empty queue that accepts up to `max_size` messages.
    pub fn new(max_size: usize) -> (queue: MessageQueue)
        ensures
            queue@ == Seq::<MessageView>::empty(),
            queue.capacity() == max_size,
    {
        let queue = MessageQueue { messages: VecDeque::new(), max_size };
        assert(queue@ =~= Seq::<MessageView>::empty());
        queue
    }

    /// Appends `msg`, or fails with `QueueFull` and changes nothing when the
    /// queue already holds as many messages as it accepts.
    pub fn push(&mut self, msg: Message) -> (result: Result<(), IpcError>)
        ensures
            final(self).capacity() == old(self).capacity(),
            final(self)@ == queue_push(old(self)@, old(self).capacity(), msg@),
            old(self)@.len() < old(self).capacity() ==> result == Ok::<(), IpcError>(()),
            old(self)@.len() >= old(self).capacity() ==> result == Err::<(), IpcError>(
                IpcError::QueueFull,
            ),
    {
        if self.messages.len() >= self.max_size {
            return Err(IpcError::QueueFull);
        }
        self.messages.push_back(msg);
        assert(self@ =~= old(self)@.push(msg@));
        Ok(())
    }

    /// Removes and returns the oldest message, if there is one.
    pub fn pop(&mut self) -> (popped: Option<Message>)
        ensures
            final(self).capacity() == old(self).capacity(),
            final(self)@ == queue_pop(old(self)@),
            match popped {
                Some(msg) => queue_front(old(self)@) == Some(msg@),
                None => queue_front(old(self)@) is None,
            },
    {
        let popped = self.messages.pop_front();
        assert(self@ =~= queue_pop(old(self)@));
        popped
    }

    /// Number of messages in the queue.
    pub fn len(&self) -> (len: usize)
        ensures
            len == self@.len(),
    {
        self.messages.len()
    }
}

/// The queues of all registered processes as plain values: the content of
/// each queue, oldest message first, under the pid that owns it.
pub type Mailboxes = Map<Pid, Seq<MessageView>>;

/// The mailboxes after `pid` was registered: it has an empty queue, unless it
/// was registered before, in which case it keeps the queue it had.
pub open spec fn register(boxes: Mailboxes, pid: Pid) -> Mailboxes {
    if boxes.contains_key(pid) {
        boxes
    } else {
        boxes.insert(pid, Seq::empty())
    }
}

/// How a send of `msg` ends: `ProcessNotFound` if the receiver has no queue,
/// `QueueFull` if its queue is at capacity, success otherwise.
pub open spec fn send_result(boxes: Mailboxes, msg: MessageView) -> Result<(), IpcError> {
    if !boxes.contains_key(msg.receiver) {
        Err(IpcError::ProcessNotFound)
    } else if boxes[msg.receiver].len() >= QUEUE_CAPACITY {
        Err(IpcError::QueueFull)
    } else {
        Ok(())
    }
}

/// The mailboxes after a send of `msg`: a push on the receiver's queue, so
/// on success the message is at its back and on failure nothing has changed.
pub open spec fn send(boxes: Mailboxes, msg: MessageView) -> Mailboxes {
    if boxes.contains_key(msg.receiver) {
        boxes.insert(
            msg.receiver,
            queue_push(boxes[msg.receiver], QUEUE_CAPACITY as nat, msg),
        )
    } else {
        boxes
    }
}

/// The message that a receive for `pid` delivers: the oldest one in its queue.
pub open spec fn received(boxes: Mailboxes, pid: Pid) -> Option<MessageView> {
    if boxes.contains_key(pid) {
        queue_front(boxes[pid])
    } else {
        None
    }
}

/// The mailboxes after a receive for `pid`: a pop on its queue, so the
/// delivered message is gone from it.
pub open spec fn receive(boxes: Mailboxes, pid: Pid) -> Mailboxes {
    if boxes.contains_key(pid) {
        boxes.insert(pid, queue_pop(boxes[pid]))
    } else {
        boxes
    }
}

/// The message that `send_message` builds from its arguments.
pub open spec fn data_message(sender: Pid, receiver: Pid, data: Seq<u8>) -> MessageView {
    MessageView { sender, receiver, data, msg_type: MessageType::Data }
}

/// How `send_message` ends: `MessageTooLarge` for a payload of more than
/// 4096 bytes, whatever else holds; otherwise as the send of the message ends.
pub open spec fn send_message_result(
    boxes: Mailboxes,
    sender: Pid,
    receiver: Pid,
    data: Seq<u8>,
) -> Result<(), IpcError> {
    if data.len() > MAX_MESSAGE_SIZE {
        Err(IpcError::MessageTooLarge)
    } else {
        send_result(boxes, data_message(sender, receiver, data))
    }
}

/// The mailboxes after `send_message`: untouched for an oversized payload.
pub open spec fn send_message_state(
    boxes: Mailboxes,
    sender: Pid,
    receiver: Pid,
    data: Seq<u8>,
) -> Mailboxes {
    if data.len() > MAX_MESSAGE_SIZE {
        boxes
    } else {
        send(boxes, data_message(sender, receiver, data))
    }
}

/// Owner of one bounded message queue per registered process.
pub struct IpcManager {
    queues: Vec<(Pid, MessageQueue)>,
}

impl View for IpcManager {
    type V = Mailboxes;

    closed spec fn view(&self) -> Mailboxes {
        to_map(self.entries())
    }
}

impl IpcManager {
    /// The queues in registration order, each with its pid.
    spec fn entries(&self) -> Seq<(Pid, Seq<MessageView>)> {
        self.queues@.map_values(|e: (Pid, MessageQueue)| (e.0, e.1@))
    }

    /// Every queue has the fixed capacity and holds no more than that.
    pub closed spec fn wf(&self) -> bool {
        forall|i: int|
            0 <= i < self.queues@.len() ==> {
                &&& (#[trigger] self.queues@[i]).1.capacity() == QUEUE_CAPACITY
                &&& self.queues@[i].1@.len() <= QUEUE_CAPACITY
            }
    }

    /// No queue of a well-formed manager holds more than the fixed capacity.
    pub proof fn lemma_bounded(&self, pid: Pid)
        requires
            self.wf(),
            self@.contains_key(pid),
        ensures
            self@[pid].len() <= QUEUE_CAPACITY,
    {
        let ks = keys(self.entries());
        lemma_first_some(ks, pid);
        match ks.index_of_first(pid) {
            Some(i) => {
                lemma_to_map_first(self.entries(), pid, i);
                assert(self.entries()[i].1 == self.queues@[i].1@);
            },
            None => {
                assert forall|j: int| 0 <= j < self.entries().len() implies self.entries()[j].0
                    != pid by {
                    assert(ks[j] != pid);
                }
                lemma_to_map_absent(self.entries(), pid);
            },
        }
    }

    /// Creates a manager with no process registered.
    pub fn new() -> (manager: IpcManager)
        ensures
            manager@ == Mailboxes::empty(),
            manager.wf(),
    {
        let manager = IpcManager { queues: Vec::new() };
        assert(manager.entries() =~= Seq::empty());
        manager
    }

    /// Position of the first queue registered for `pid`.
    fn find(&self, pid: Pid) -> (found: Option<usize>)
        ensures
            match found {
                Some(i) => {
                    &&& i < self.queues@.len()
                    &&& is_first_at(keys(self.entries()), pid, i as int)
                    &&& self@.contains_key(pid)
                    &&& self@[pid] == self.queues@[i as int].1@
                },
                None => !self@.contains_key(pid),
            },
    {
        let mut i: usize = 0;
        while i < self.queues.len()
            invariant
                i <= self.queues@.len(),
                forall|j: int| 0 <= j < i ==> self.queues@[j].0 != pid,
            decreases self.queues@.len() - i,
        {
            if self.queues[i].0 == pid {
                proof {
                    assert(is_first_at(keys(self.entries()), pid, i as int));
                    lemma_to_map_first(self.entries(), pid, i as int);
                }
                return Some(i);
            }
            i += 1;
        }
        proof {
            lemma_to_map_absent(self.entries(), pid);
        }
        None
    }

    /// Gives `pid` an empty queue of the fixed capacity. A pid that is already
    /// registered keeps its queue and the messages in it.
    pub fn register_process(&mut self, pid: Pid)
        requires
            old(self).wf(),
        ensures
            final(self).wf(),
            final(self)@ == register(old(self)@, pid),
    {
        let queue = MessageQueue::new(QUEUE_CAPACITY);
        proof {
            lemma_to_map_push(self.entries(), pid, queue@);
        }
        self.queues.push((pid, queue));
        assert(self.entries() =~= old(self).entries().push((pid, queue@)));
    }

    /// Drops the queue of `pid` together with any unread messages.
    pub fn unregister_process(&mut self, pid: Pid)
        requires
            old(self).wf(),
        ensures
            final(self).wf(),
            final(self)@ == old(self)@.remove(pid),
    {
        let mut i: usize = 0;
        while i < self.queues.len()
            invariant
                self.wf(),
                i <= self.queues@.len(),
                forall|j: int| 0 <= j < i ==> self.queues@[j].0 != pid,
                self@.remove(pid) == old(self)@.remove(pid),
            decreases self.queues@.len() - i,
        {
            if self.queues[i].0 == pid {
                let ghost before = self.entries();
                proof {
                    lemma_to_map_remove(before, i as int);
                }
                self.queues.remove(i);
                assert(self.entries() =~= before.remove(i as int));
            } else {
                i += 1;
            }
        }
        proof {
            lemma_to_map_absent(self.entries(), pid);
            assert(self@.remove(pid) =~= self@);
        }
    }

    /// Delivers `msg` to the queue of its receiver. Fails with
    /// `ProcessNotFound` if the receiver is not registered and with
    /// `QueueFull` if its queue holds 64 messages; a failed send changes
    /// nothing.
    pub fn send(&mut self, msg: Message) -> (result: Result<(), IpcError>)
        requires
            old(self).wf(),
        ensures
            final(self).wf(),
            result == send_result(old(self)@, msg@),
            final(self)@ == send(old(self)@, msg@),
    {
        match self.find(msg.receiver) {
            Some(i) => {
                let ghost before = self.entries();
                let ghost receiver = msg.receiver;
                let ghost sent = msg@;
                let ghost pushed = queue_push(before[i as int].1, QUEUE_CAPACITY as nat, sent);
                proof {
                    lemma_to_map_update(before, i as int, pushed);
                }
                let result = self.queues[i].1.push(msg);
                assert(self.entries() =~= before.update(i as int, (receiver, pushed)));
                result
            },
            None => Err(IpcError::ProcessNotFound),
        }
    }

    /// Takes the oldest message out of the queue of `pid`. Returns `None` if
    /// the queue is empty or `pid` is not registered; it never waits.
    pub fn receive(&mut self, pid: Pid) -> (msg: Option<Message>)
        requires
            old(self).wf(),
        ensures
            final(self).wf(),
            match msg {
                Some(m) => received(old(self)@, pid) == Some(m@),
                None => received(old(self)@, pid) is None,
            },
            final(self)@ == receive(old(self)@, pid),
    {
        match self.find(pid) {
            Some(i) => {
                let ghost before = self.entries();
                let ghost popped = queue_pop(before[i as int].1);
                proof {
                    lemma_to_map_update(before, i as int, popped);
                }
                let msg = self.queues[i].1.pop();
                assert(self.entries() =~= before.update(i as int, (pid, popped)));
                msg
            },
            None => None,
        }
    }

    /// Whether a message is waiting for `pid`.
    pub fn has_messages(&self, pid: Pid) -> (waiting: bool)
        ensures
            waiting == received(self@, pid) is Some,
    {
        match self.find(pid) {
            Some(i) => self.queues[i].1.len() > 0,
            None => false,
        }
    }

    /// Number of messages waiting for `pid`; 0 if it is not registered.
    pub fn message_count(&self, pid: Pid) -> (count: usize)
        ensures
            count == if self@.contains_key(pid) {
                self@[pid].len()
            } else {
                0
            },
    {
        match self.find(pid) {
            Some(i) => self.queues[i].1.len(),
            None => 0,
        }
    }
}

/// Sets up message passing: a manager with no process registered.
pub fn init() -> (manager: IpcManager)
    ensures
        manager@ == Mailboxes::empty(),
        manager.wf(),
{
    IpcManager::new()
}

/// Sends `data` from `sender` to `receiver` as a message of type `Data`.
/// A payload of more than 4096 bytes is refused with `MessageTooLarge`
/// before delivery is tried, and no queue changes; otherwise the call ends as
/// [`IpcManager::send`] does.
pub fn send_message(manager: &mut IpcManager, sender: Pid, receiver: Pid, data: &[u8]) -> (result:
    Result<(), IpcError>)
    requires
        old(manager).wf(),
    ensures
        final(manager).wf(),
        result == send_message_result(old(manager)@, sender, receiver, data@),
        final(manager)@ == send_message_state(old(manager)@, sender, receiver, data@),
{
    if data.len() > MAX_MESSAGE_SIZE {
        return Err(IpcError::MessageTooLarge);
    }
    let msg = Message::new(sender, receiver, vstd::slice::slice_to_vec(data), MessageType::Data);
    manager.send(msg)
}

/// Takes the oldest message out of the queue of `pid`; see
/// [`IpcManager::receive`].
pub fn receive_message(manager: &mut IpcManager, pid: Pid) -> (msg: Option<Message>)
    requires
        old(manager).wf(),
    ensures
        final(manager).wf(),
        match msg {
            Some(m) => received(old(manager)@, pid) == Some(m@),
            None => received(old(manager)@, pid) is None,
        },
        final(manager)@ == receive(old(manager)@, pid),
{
    manager.receive(pid)
}

/// Whether a message is waiting for `pid`.
pub fn has_messages(manager: &IpcManager, pid: Pid) -> (waiting: bool)
    ensures
        waiting == received(manager@, pid) is Some,
{
    manager.has_messages(pid)
}

/// Registers `pid` for message passing; see [`IpcManager::register_process`].
pub fn register_process(manager: &mut IpcManager, pid: Pid)
    requires
        old(manager).wf(),
    ensures
        final(manager).wf(),
        final(manager)@ == register(old(manager)@, pid),
{
    manager.register_process(pid);
}

/// Drops the queue of `pid`; see [`IpcManager::unregister_process`].
pub fn unregister_process(manager: &mut IpcManager, pid: Pid)
    requires
        old(manager).wf(),
    ensures
        final(manager).wf(),
        final(manager)@ == old(manager)@.remove(pid),
{
    manager.unregister_process(pid);
}

/// One step on a queue: a push of a message, or a pop.
pub enum QueueOp {
    Push(MessageView),
    Pop,
}

/// A queue together with the record of what it has accepted and handed out.
pub struct QueueTrace {
    /// What the queue holds, oldest message first.
    pub queue: Seq<MessageView>,
    /// The messages whose push succeeded, in push order.
    pub accepted: Seq<MessageView>,
    /// The messages that pops have returned, in pop order.
    pub delivered: Seq<MessageView>,
}

/// The trace of a queue of the given capacity that starts empty and goes
/// through `ops` in order.
pub open spec fn run_queue(ops: Seq<QueueOp>, capacity: nat) -> QueueTrace
    decreases ops.len(),
{
    if ops.len() == 0 {
        QueueTrace { queue: Seq::empty(), accepted: Seq::empty(), delivered: Seq::empty() }
    } else {
        let before = run_queue(ops.drop_last(), capacity);
        match ops.last() {
            QueueOp::Push(msg) => QueueTrace {
                queue: queue_push(before.queue, capacity, msg),
                accepted: if before.queue.len() < capacity {
                    before.accepted.push(msg)
                } else {
                    before.accepted
                },
                delivered: before.delivered,
            },
            QueueOp::Pop => QueueTrace {
                queue: queue_pop(before.queue),
                accepted: before.accepted,
                delivered: match queue_front(before.queue) {
                    Some(msg) => before.delivered.push(msg),
                    None => before.delivered,
                },
            },
        }
    }
}

/// First in, first out. After any sequence of pushes and pops, the accepted
/// messages are exactly the delivered ones followed by those still queued, in
/// the same order: none is lost, duplicated or overtaken. The queue never
/// holds more than its capacity.
pub proof fn lemma_fifo(ops: Seq<QueueOp>, capacity: nat)
    ensures
        run_queue(ops, capacity).accepted == run_queue(ops, capacity).delivered + run_queue(
            ops,
            capacity,
        ).queue,
        run_queue(ops, capacity).queue.len() <= capacity,
    decreases ops.len(),
{
    let now = run_queue(ops, capacity);
    if ops.len() == 0 {
        assert(now.accepted =~= now.delivered + now.queue);
    } else {
        let before = run_queue(ops.drop_last(), capacity);
        lemma_fifo(ops.drop_last(), capacity);
        assert(before.accepted == before.delivered + before.queue);
        assert(now.accepted =~= now.delivered + now.queue);
    }
}

/// A push on a queue that is at capacity fails and leaves the queue as it
/// is; below capacity it succeeds. So of pushes without a pop in between,
/// the first 64 on an empty queue of a registered process succeed and the
/// 65th fails with `QueueFull`.
pub proof fn lemma_full_queue_refuses(boxes: Mailboxes, msg: MessageView)
    requires
        boxes.contains_key(msg.receiver),
        boxes[msg.receiver].len() <= QUEUE_CAPACITY,
    ensures
        boxes[msg.receiver].len() < QUEUE_CAPACITY ==> {
            &&& send_result(boxes, msg) == Ok::<(), IpcError>(())
            &&& send(boxes, msg)[msg.receiver] == boxes[msg.receiver].push(msg)
        },
        boxes[msg.receiver].len() == QUEUE_CAPACITY ==> {
            &&& send_result(boxes, msg) == Err::<(), IpcError>(IpcError::QueueFull)
            &&& send(boxes, msg) == boxes
        },
        forall|pid: Pid|
            pid != msg.receiver && boxes.contains_key(pid) ==> #[trigger] send(boxes, msg)[pid]
                == boxes[pid],
{
    if boxes[msg.receiver].len() == QUEUE_CAPACITY {
        assert(send(boxes, msg) =~= boxes);
    }
}

} // verus!
