use fracture_kernel::ipc::{
    has_messages, init, receive_message, register_process, send_message, unregister_process,
    IpcError, IpcManager, Message, MessageQueue, MessageType, MAX_MESSAGE_SIZE, QUEUE_CAPACITY,
};

#[test]
fn message_new_keeps_its_parts() {
    let m = Message::new(1, 2, vec![9, 8, 7], MessageType::Request);
    assert_eq!(m.sender, 1);
    assert_eq!(m.receiver, 2);
    assert_eq!(m.data, vec![9, 8, 7]);
    assert_eq!(m.msg_type, MessageType::Request);
}

#[test]
fn queue_is_first_in_first_out() {
    let mut q = MessageQueue::new(3);
    assert_eq!(q.len(), 0);
    assert!(q.pop().is_none());
    for i in 0..3u8 {
        assert_eq!(q.push(Message::new(1, 2, vec![i], MessageType::Data)), Ok(()));
    }
    assert_eq!(q.len(), 3);
    assert_eq!(
        q.push(Message::new(1, 2, vec![3], MessageType::Data)),
        Err(IpcError::QueueFull)
    );
    assert_eq!(q.len(), 3);
    for i in 0..3u8 {
        assert_eq!(q.pop().unwrap().data, vec![i]);
    }
    assert!(q.pop().is_none());
}

#[test]
fn queue_of_capacity_zero_accepts_nothing() {
    let mut q = MessageQueue::new(0);
    assert_eq!(
        q.push(Message::new(1, 2, vec![], MessageType::Data)),
        Err(IpcError::QueueFull)
    );
}

#[test]
fn constants_have_their_values() {
    assert_eq!(MAX_MESSAGE_SIZE, 4096);
    assert_eq!(QUEUE_CAPACITY, 64);
}

#[test]
fn send_to_unregistered_process_fails() {
    let mut ipc = IpcManager::new();
    let r = ipc.send(Message::new(1, 2, vec![1], MessageType::Data));
    assert_eq!(r, Err(IpcError::ProcessNotFound));
    assert!(ipc.receive(2).is_none());
    assert!(!ipc.has_messages(2));
    assert_eq!(ipc.message_count(2), 0);
}

#[test]
fn receive_order_equals_send_order() {
    let mut ipc = init();
    register_process(&mut ipc, 2);
    for i in 0..10u8 {
        assert_eq!(send_message(&mut ipc, u64::from(i), 2, &[i, i]), Ok(()));
    }
    assert!(has_messages(&ipc, 2));
    assert_eq!(ipc.message_count(2), 10);
    for i in 0..10u8 {
        let m = receive_message(&mut ipc, 2).unwrap();
        assert_eq!(m.sender, u64::from(i));
        assert_eq!(m.receiver, 2);
        assert_eq!(m.data, vec![i, i]);
        assert_eq!(m.msg_type, MessageType::Data);
    }
    assert!(receive_message(&mut ipc, 2).is_none());
    assert!(!has_messages(&ipc, 2));
}

#[test]
fn sixty_fifth_send_fails_and_nothing_is_lost() {
    let mut ipc = IpcManager::new();
    ipc.register_process(7);
    for i in 0..64u8 {
        assert_eq!(ipc.send(Message::new(1, 7, vec![i], MessageType::Data)), Ok(()));
    }
    assert_eq!(ipc.message_count(7), 64);
    assert_eq!(
        ipc.send(Message::new(1, 7, vec![64], MessageType::Data)),
        Err(IpcError::QueueFull)
    );
    assert_eq!(ipc.message_count(7), 64);
    assert_eq!(ipc.receive(7).unwrap().data, vec![0]);
    assert_eq!(ipc.send(Message::new(1, 7, vec![65], MessageType::Data)), Ok(()));
    for i in 1..64u8 {
        assert_eq!(ipc.receive(7).unwrap().data, vec![i]);
    }
    assert_eq!(ipc.receive(7).unwrap().data, vec![65]);
    assert!(ipc.receive(7).is_none());
}

#[test]
fn payload_of_4096_bytes_is_accepted() {
    let mut ipc = IpcManager::new();
    ipc.register_process(2);
    let data = vec![0xabu8; 4096];
    assert_eq!(send_message(&mut ipc, 1, 2, &data), Ok(()));
    assert_eq!(ipc.message_count(2), 1);
    assert_eq!(ipc.receive(2).unwrap().data, data);
}

#[test]
fn payload_of_4097_bytes_is_refused_without_change() {
    let mut ipc = IpcManager::new();
    ipc.register_process(2);
    assert_eq!(send_message(&mut ipc, 1, 2, &[1, 2, 3]), Ok(()));
    let data = vec![0u8; 4097];
    assert_eq!(send_message(&mut ipc, 1, 2, &data), Err(IpcError::MessageTooLarge));
    assert_eq!(ipc.message_count(2), 1);
    assert_eq!(ipc.receive(2).unwrap().data, vec![1, 2, 3]);
}

#[test]
fn oversized_payload_is_refused_before_the_receiver_is_looked_up() {
    let mut ipc = IpcManager::new();
    let data = vec![0u8; 5000];
    assert_eq!(send_message(&mut ipc, 1, 99, &data), Err(IpcError::MessageTooLarge));
    assert_eq!(send_message(&mut ipc, 1, 99, &[]), Err(IpcError::ProcessNotFound));
}

#[test]
fn queues_are_separate() {
    let mut ipc = IpcManager::new();
    ipc.register_process(1);
    ipc.register_process(2);
    assert_eq!(send_message(&mut ipc, 2, 1, &[1]), Ok(()));
    assert_eq!(send_message(&mut ipc, 1, 2, &[2]), Ok(()));
    assert_eq!(ipc.message_count(1), 1);
    assert_eq!(ipc.message_count(2), 1);
    assert_eq!(ipc.receive(2).unwrap().data, vec![2]);
    assert_eq!(ipc.receive(1).unwrap().data, vec![1]);
}

#[test]
fn unregister_drops_unread_messages() {
    let mut ipc = IpcManager::new();
    ipc.register_process(1);
    ipc.register_process(2);
    assert_eq!(send_message(&mut ipc, 2, 1, &[1]), Ok(()));
    assert_eq!(send_message(&mut ipc, 1, 2, &[2]), Ok(()));
    unregister_process(&mut ipc, 1);
    assert!(ipc.receive(1).is_none());
    assert_eq!(send_message(&mut ipc, 2, 1, &[1]), Err(IpcError::ProcessNotFound));
    assert_eq!(ipc.message_count(2), 1);
    ipc.register_process(1);
    assert_eq!(ipc.message_count(1), 0);
}

#[test]
fn registering_twice_keeps_the_queue() {
    let mut ipc = IpcManager::new();
    ipc.register_process(1);
    assert_eq!(send_message(&mut ipc, 2, 1, &[5]), Ok(()));
    ipc.register_process(1);
    assert_eq!(ipc.message_count(1), 1);
    assert_eq!(ipc.receive(1).unwrap().data, vec![5]);
    ipc.unregister_process(1);
    assert_eq!(send_message(&mut ipc, 2, 1, &[5]), Err(IpcError::ProcessNotFound));
}
