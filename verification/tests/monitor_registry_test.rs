use ferrum_kv::network::monitor::{keep_accepted, MonitorMessage, MonitorRegistry};

fn message(args: &[&[u8]]) -> MonitorMessage {
    MonitorMessage {
        timestamp_ms: 1_700_000_000_000,
        peer: "127.0.0.1:50000".to_string(),
        args: args.iter().map(|a| a.to_vec()).collect(),
    }
}

#[test]
fn subscribers_receive_every_message_in_order() {
    let mut registry = MonitorRegistry::default();
    assert_eq!(registry.subscriber_count(), 0);
    let mut rx1 = registry.subscribe();
    let mut rx2 = registry.subscribe();
    assert_eq!(registry.subscriber_count(), 2);

    registry.send(message(&[b"SET", b"x", b"1"]));
    registry.send(message(&[b"SET", b"y", b"2"]));

    for rx in [&mut rx1, &mut rx2] {
        let first = rx.try_recv().expect("first message");
        assert_eq!(first.args, vec![b"SET".to_vec(), b"x".to_vec(), b"1".to_vec()]);
        assert_eq!(first.peer, "127.0.0.1:50000");
        let second = rx.try_recv().expect("second message");
        assert_eq!(second.args, vec![b"SET".to_vec(), b"y".to_vec(), b"2".to_vec()]);
        assert!(rx.try_recv().is_err());
    }
    assert_eq!(registry.subscriber_count(), 2);
}

#[test]
fn disconnected_subscribers_are_purged_on_send() {
    let mut registry = MonitorRegistry::default();
    let rx1 = registry.subscribe();
    let mut rx2 = registry.subscribe();
    drop(rx1);
    assert_eq!(registry.subscriber_count(), 2);

    registry.send(message(&[b"PING"]));
    assert_eq!(registry.subscriber_count(), 1);
    assert_eq!(rx2.try_recv().expect("still subscribed").args, vec![b"PING".to_vec()]);
}

#[test]
fn send_with_no_subscribers_is_a_no_op() {
    let mut registry = MonitorRegistry::default();
    registry.send(message(&[b"GET", b"k"]));
    assert_eq!(registry.subscriber_count(), 0);
}

#[test]
fn keep_accepted_keeps_exactly_the_accepting_senders_in_order() {
    let (tx1, mut rx1) = tokio::sync::mpsc::unbounded_channel::<MonitorMessage>();
    let (tx2, _rx2) = tokio::sync::mpsc::unbounded_channel::<MonitorMessage>();
    let (tx3, mut rx3) = tokio::sync::mpsc::unbounded_channel::<MonitorMessage>();
    let kept = keep_accepted(vec![tx1, tx2, tx3], &vec![true, false, true]);
    assert_eq!(kept.len(), 2);
    kept[0].send(message(&[b"A"])).unwrap();
    kept[1].send(message(&[b"B"])).unwrap();
    assert_eq!(rx1.try_recv().unwrap().args, vec![b"A".to_vec()]);
    assert_eq!(rx3.try_recv().unwrap().args, vec![b"B".to_vec()]);
    assert!(keep_accepted(Vec::new(), &Vec::new()).is_empty());
}

#[test]
fn cloned_message_keeps_every_field() {
    let original = message(&[b"SET", b"k", b"\x00\r\n"]);
    let copy = original.clone();
    assert_eq!(copy.timestamp_ms, original.timestamp_ms);
    assert_eq!(copy.peer, original.peer);
    assert_eq!(copy.args, original.args);
}
