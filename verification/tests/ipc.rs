use proka_kernel::ipc::{
    create_queue, destroy_queue, get_kernel_service_id, get_sync_id, init, is_kernel_service,
    lookup_service, recv, recv_after_wait, register_kernel_service, register_service, send, try_recv,
    wait_expired, IpcError, RecvAction,
    IpcState, Message, MessageQueue, KERNEL_SERVICE_TID, MAX_MESSAGE_SIZE, MAX_QUEUE_SIZE,
};

#[test]
fn test_message_creation() {
    let msg = Message::simple(1, 42);
    assert_eq!(msg.sender, 1);
    assert_eq!(msg.msg_type, 42);
    assert!(msg.payload.is_empty());
}

#[test]
fn test_message_queue() {
    let mut queue = MessageQueue::new(1);
    assert!(queue.is_empty());

    let msg = Message::simple(2, 1);
    queue.send(msg.clone()).unwrap();
    assert_eq!(queue.len(), 1);

    let received = queue.try_recv().unwrap();
    assert_eq!(received.sender, msg.sender);
    assert!(queue.is_empty());
}

#[test]
fn test_queue_full() {
    let mut queue = MessageQueue::new(1);

    for i in 0..MAX_QUEUE_SIZE {
        let msg = Message::simple(i, i as u64);
        queue.send(msg).unwrap();
    }

    let msg = Message::simple(999, 999);
    assert!(matches!(queue.send(msg), Err(IpcError::QueueFull)));
}

#[test]
fn oversized_payload_is_refused() {
    assert!(matches!(
        Message::new(1, 2, vec![0u8; MAX_MESSAGE_SIZE + 1]),
        Err(IpcError::MessageTooLarge)
    ));
    let m = Message::new(1, 2, vec![7u8; MAX_MESSAGE_SIZE]).unwrap();
    assert_eq!(m.payload.len(), MAX_MESSAGE_SIZE);
}

#[test]
fn queue_is_first_in_first_out() {
    let mut queue = MessageQueue::new(3);
    queue.send(Message::simple(1, 10)).unwrap();
    queue.send(Message::simple(2, 20)).unwrap();
    assert_eq!(queue.try_recv().unwrap().msg_type, 10);
    assert_eq!(queue.try_recv().unwrap().msg_type, 20);
    assert!(queue.try_recv().is_none());
}

#[test]
fn uninitialized_state_refuses_everything() {
    let mut st = IpcState::new();
    assert_eq!(create_queue(&mut st, 1), Err(IpcError::NotInitialized));
    assert_eq!(
        send(&mut st, 1, Message::simple(0, 0), false),
        Err(IpcError::NotInitialized)
    );
    assert_eq!(lookup_service(&st, "fs:/"), None);
}

#[test]
fn send_and_try_recv_through_the_registry() {
    let mut st = IpcState::new();
    init(&mut st);
    assert_eq!(send(&mut st, 5, Message::simple(1, 1), false), Err(IpcError::ThreadNotFound));
    create_queue(&mut st, 5).unwrap();
    assert_eq!(create_queue(&mut st, 5), Err(IpcError::QueueExists));
    assert!(matches!(try_recv(&mut st, Some(5), None), Err(IpcError::WouldBlock)));
    send(&mut st, 5, Message::simple(1, 11), false).unwrap();
    send(&mut st, 5, Message::simple(2, 22), false).unwrap();
    let m = try_recv(&mut st, Some(5), Some(2)).unwrap();
    assert_eq!(m.msg_type, 22);
    let m = try_recv(&mut st, Some(5), None).unwrap();
    assert_eq!(m.msg_type, 11);
    assert!(matches!(try_recv(&mut st, Some(6), None), Err(IpcError::NoQueue)));
    assert!(destroy_queue(&mut st, 5));
    assert!(!destroy_queue(&mut st, 5));
}

#[test]
fn full_queue_refuses_a_non_blocking_send() {
    let mut st = IpcState::new();
    init(&mut st);
    create_queue(&mut st, 2).unwrap();
    for i in 0..MAX_QUEUE_SIZE {
        send(&mut st, 2, Message::simple(1, i as u64), false).unwrap();
    }
    assert_eq!(send(&mut st, 2, Message::simple(1, 0), false), Err(IpcError::QueueFull));
}

#[test]
fn services_are_registered_once() {
    let mut st = IpcState::new();
    init(&mut st);
    assert_eq!(register_service(&mut st, None, "fs:/"), Err(IpcError::NotInitialized));
    register_service(&mut st, Some(7), "fs:/").unwrap();
    assert_eq!(register_service(&mut st, Some(8), "fs:/"), Err(IpcError::ServiceExists));
    assert_eq!(lookup_service(&st, "fs:/"), Some(7));
    register_kernel_service(&mut st, "mem:/", 3).unwrap();
    assert_eq!(lookup_service(&st, "mem:/"), Some(KERNEL_SERVICE_TID));
    assert_eq!(lookup_service(&st, "nope:/"), None);
    let tid = 3 << 8;
    assert!(is_kernel_service(tid));
    assert_eq!(get_kernel_service_id(tid), Some(3));
    assert!(!is_kernel_service(7));
    assert_eq!(get_kernel_service_id(7), None);
}

#[test]
fn sync_ids_have_the_top_bit_set() {
    assert_eq!(get_sync_id(5), 0x8000_0000_0000_0005);
}

#[test]
fn recv_waits_with_the_timeout_it_was_given() {
    let mut st = IpcState::new();
    init(&mut st);
    match recv(&mut st, Some(4), None, Some(250)) {
        Ok(RecvAction::Wait { channel, timeout_ms }) => {
            assert_eq!(channel, get_sync_id(4));
            assert_eq!(timeout_ms, Some(250));
        }
        _ => panic!("expected a wait"),
    }
    assert!(matches!(recv_after_wait(&mut st, 4, None), Err(IpcError::Timeout)));
    send(&mut st, 4, Message::simple(9, 1), false).unwrap();
    match recv(&mut st, Some(4), Some(9), None) {
        Ok(RecvAction::Deliver(m)) => assert_eq!(m.sender, 9),
        _ => panic!("expected a message"),
    }
    assert!(!wait_expired(100, 200, None));
    assert!(!wait_expired(100, 349, Some(250)));
    assert!(wait_expired(100, 350, Some(250)));
}
