use iberos::ipc::{MessageType, PidAllocator, Process, MAILBOX_CAPACITY, PAYLOAD_SIZE};

#[test]
fn ids_are_distinct_and_increasing() {
    let mut ids = PidAllocator::new();
    let procs: Vec<Process> = (0..5).map(|_| Process::new(&mut ids, "p")).collect();
    assert_eq!(procs[0].get_pid(), 1);
    for i in 1..procs.len() {
        assert!(procs[i - 1].get_pid() < procs[i].get_pid());
    }
    assert_eq!(ids.peek(), 6);
}

#[test]
fn name_is_kept() {
    let mut ids = PidAllocator::new();
    let p = Process::new(&mut ids, "kernel");
    assert_eq!(p.get_name(), "kernel");
}

#[test]
fn messages_come_out_in_send_order() {
    let mut ids = PidAllocator::new();
    let kernel = Process::new(&mut ids, "kernel");
    let driver = Process::new(&mut ids, "device_driver");
    let mut user = Process::new(&mut ids, "user_app");
    assert!(kernel.send_message(&mut user, MessageType::Command, b"Hello from kernel!"));
    assert!(driver.send_message(&mut user, MessageType::Notification, b"Device status update"));
    let first = user.receive_message().unwrap();
    assert_eq!(first.sender_pid, kernel.get_pid());
    assert_eq!(first.receiver_pid, user.get_pid());
    assert_eq!(first.message_type, MessageType::Command);
    assert_eq!(&first.data[..18], b"Hello from kernel!");
    let second = user.receive_message().unwrap();
    assert_eq!(second.sender_pid, driver.get_pid());
    assert_eq!(second.message_type, MessageType::Notification);
    assert!(user.receive_message().is_none());
}

#[test]
fn full_mailbox_refuses_and_keeps_contents() {
    let mut ids = PidAllocator::new();
    let a = Process::new(&mut ids, "a");
    let mut b = Process::new(&mut ids, "b");
    for i in 0..MAILBOX_CAPACITY {
        assert!(a.send_message(&mut b, MessageType::Command, &[i as u8]));
    }
    assert!(!a.send_message(&mut b, MessageType::Response, &[99]));
    for i in 0..MAILBOX_CAPACITY {
        let m = b.receive_message().unwrap();
        assert_eq!(m.data[0], i as u8);
        assert_eq!(m.message_type, MessageType::Command);
    }
    assert!(b.receive_message().is_none());
}

#[test]
fn drained_mailbox_stays_empty_and_accepts_again() {
    let mut ids = PidAllocator::new();
    let a = Process::new(&mut ids, "a");
    let mut b = Process::new(&mut ids, "b");
    for _ in 0..MAILBOX_CAPACITY {
        assert!(a.send_message(&mut b, MessageType::Response, b"x"));
    }
    while b.receive_message().is_some() {}
    assert!(b.receive_message().is_none());
    assert!(a.send_message(&mut b, MessageType::Response, b"y"));
    assert_eq!(b.receive_message().unwrap().data[0], b'y');
}

#[test]
fn empty_mailbox_receives_nothing() {
    let mut ids = PidAllocator::new();
    let mut p = Process::new(&mut ids, "p");
    assert!(p.receive_message().is_none());
}

#[test]
fn long_payload_is_truncated() {
    let mut ids = PidAllocator::new();
    let a = Process::new(&mut ids, "a");
    let mut b = Process::new(&mut ids, "b");
    let long: Vec<u8> = (1..=40).collect();
    assert!(a.send_message(&mut b, MessageType::Command, &long));
    let m = b.receive_message().unwrap();
    assert_eq!(m.data.len(), PAYLOAD_SIZE);
    assert_eq!(m.data.to_vec(), long[..PAYLOAD_SIZE].to_vec());
}

#[test]
fn short_payload_is_zero_padded() {
    let mut ids = PidAllocator::new();
    let a = Process::new(&mut ids, "a");
    let mut b = Process::new(&mut ids, "b");
    assert!(a.send_message(&mut b, MessageType::Notification, b"abc"));
    let m = b.receive_message().unwrap();
    assert_eq!(&m.data[..3], b"abc");
    assert!(m.data[3..].iter().all(|&x| x == 0));
}

#[test]
fn payload_text_stops_at_zero_and_skips_unprintable() {
    let mut ids = PidAllocator::new();
    let a = Process::new(&mut ids, "a");
    let mut b = Process::new(&mut ids, "b");
    assert!(a.send_message(&mut b, MessageType::Command, &[b'h', 7, b'i', 0, b'x']));
    let m = b.receive_message().unwrap();
    assert_eq!(m.payload_text().as_str(), "hi");
}

#[test]
fn payload_text_of_full_payload() {
    let mut ids = PidAllocator::new();
    let a = Process::new(&mut ids, "a");
    let mut b = Process::new(&mut ids, "b");
    let data = [b'q'; 40];
    assert!(a.send_message(&mut b, MessageType::Command, &data));
    let m = b.receive_message().unwrap();
    assert_eq!(m.payload_text().len(), PAYLOAD_SIZE);
}
