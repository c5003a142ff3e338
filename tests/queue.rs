use sustenet::connection::{classify, ConnectionTask, DisconnectClass, Outbound, ReadErrorKind, TaskSignal};
use sustenet::queue::{OutboundQueue, OUTBOUND_CAPACITY};

#[test]
fn full_queue_makes_the_sender_wait() {
    let mut q = OutboundQueue::new(OUTBOUND_CAPACITY);
    for i in 0..OUTBOUND_CAPACITY {
        assert_eq!(q.try_send(vec![i as u8]), Ok(()));
    }
    assert!(q.is_full());
    assert_eq!(q.try_send(vec![99]), Err(vec![99]));
    assert_eq!(q.recv(), Some(vec![0]));
    assert_eq!(q.try_send(vec![99]), Ok(()));
    assert_eq!(q.len(), OUTBOUND_CAPACITY);
}

#[test]
fn queue_is_fifo() {
    let mut q = OutboundQueue::new(3);
    q.try_send(vec![1]).unwrap();
    q.try_send(vec![2, 2]).unwrap();
    assert_eq!(q.recv(), Some(vec![1]));
    assert_eq!(q.recv(), Some(vec![2, 2]));
    assert_eq!(q.recv(), None);
}

#[test]
fn bytes_are_written_in_order_until_shutdown() {
    let mut t = ConnectionTask::new(4);
    t.send(vec![1, 2]).unwrap();
    t.send(vec![3]).unwrap();
    t.send(vec![]).unwrap();
    t.send(vec![4]).unwrap();
    let mut written = Vec::new();
    loop {
        match t.next_outbound() {
            Outbound::Write(bytes) => written.extend(bytes),
            Outbound::Shutdown => break,
            Outbound::Idle => panic!("the sentinel was lost"),
        }
    }
    assert_eq!(written, vec![1, 2, 3]);
    assert!(t.closed());
    assert_eq!(t.next_outbound(), Outbound::Idle);
    assert_eq!(t.send(vec![5]), Err(vec![5]));
}

#[test]
fn disconnect_taxonomy() {
    assert_eq!(classify(ReadErrorKind::UnexpectedEof), DisconnectClass::Normal);
    assert_eq!(classify(ReadErrorKind::ConnectionReset), DisconnectClass::Normal);
    assert_eq!(classify(ReadErrorKind::ConnectionAborted), DisconnectClass::Normal);
    assert_eq!(classify(ReadErrorKind::TimedOut), DisconnectClass::Logged);
    assert_eq!(classify(ReadErrorKind::BrokenPipe), DisconnectClass::Logged);
    assert_eq!(classify(ReadErrorKind::NotConnected), DisconnectClass::Logged);
    assert_eq!(classify(ReadErrorKind::Other), DisconnectClass::Fault);
    let mut t = ConnectionTask::new(9);
    assert_eq!(t.on_read_error(ReadErrorKind::UnexpectedEof, "eof".to_string()), vec![TaskSignal::Disconnected(9)]);
    assert!(t.closed());
    let mut t = ConnectionTask::new(3);
    assert_eq!(
        t.on_read_error(ReadErrorKind::Other, "boom".to_string()),
        vec![TaskSignal::Error("boom".to_string()), TaskSignal::Disconnected(3)]
    );
}
