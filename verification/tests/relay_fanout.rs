use fanout_relay::relay::FanOutPolicy;
use fanout_relay::relay::Relay;

fn drain(relay: &mut Relay, id: u64) -> Vec<Vec<u8>> {
    let mut out = Vec::new();
    while let Some(msg) = relay.next_outbound(id) {
        out.push(msg);
    }
    out
}

#[test]
fn exclude_sender_one_copy_each() {
    let mut relay = Relay::new(32, FanOutPolicy::ExcludeSender);
    relay.connect(1).unwrap();
    relay.connect(2).unwrap();
    relay.connect(3).unwrap();

    let delivered = relay.inbound(1, b"hello");
    assert_eq!(delivered, 2);
    assert_eq!(drain(&mut relay, 2), vec![b"hello".to_vec()]);
    assert_eq!(drain(&mut relay, 3), vec![b"hello".to_vec()]);
    assert_eq!(drain(&mut relay, 1), Vec::<Vec<u8>>::new());
}

#[test]
fn include_all_sender_receives_too() {
    let mut relay = Relay::new(32, FanOutPolicy::IncludeAll);
    relay.connect(1).unwrap();
    relay.connect(2).unwrap();
    relay.connect(3).unwrap();

    let delivered = relay.inbound(1, b"hello");
    assert_eq!(delivered, 3);
    assert_eq!(drain(&mut relay, 1), vec![b"hello".to_vec()]);
    assert_eq!(drain(&mut relay, 2), vec![b"hello".to_vec()]);
    assert_eq!(drain(&mut relay, 3), vec![b"hello".to_vec()]);
}

#[test]
fn three_stream_sessions_ping() {
    // Three stream sessions connect; session 1 sends "ping"; sessions 2
    // and 3 each receive exactly the bytes "ping"; session 1 receives
    // nothing from this event.
    let mut relay = Relay::new(32, FanOutPolicy::ExcludeSender);
    relay.connect(1).unwrap();
    relay.connect(2).unwrap();
    relay.connect(3).unwrap();

    relay.inbound(1, b"ping");
    assert_eq!(relay.next_outbound(2), Some(b"ping".to_vec()));
    assert_eq!(relay.next_outbound(2), None);
    assert_eq!(relay.next_outbound(3), Some(b"ping".to_vec()));
    assert_eq!(relay.next_outbound(3), None);
    assert_eq!(relay.next_outbound(1), None);
}

#[test]
fn fifo_order_per_sender() {
    let mut relay = Relay::new(32, FanOutPolicy::ExcludeSender);
    relay.connect(1).unwrap();
    relay.connect(2).unwrap();

    relay.inbound(1, b"first");
    relay.inbound(1, b"second");
    assert_eq!(drain(&mut relay, 2), vec![b"first".to_vec(), b"second".to_vec()]);
}

#[test]
fn stream_chunk_broadcast_verbatim() {
    // The stream transport is not message-framed: whatever byte run one
    // read produced is broadcast verbatim as one unit.
    let mut relay = Relay::new(32, FanOutPolicy::ExcludeSender);
    relay.connect(1).unwrap();
    relay.connect(2).unwrap();

    let chunk = b"two\nmessages\npacked";
    relay.inbound(1, chunk);
    assert_eq!(relay.next_outbound(2), Some(chunk.to_vec()));
}

#[test]
fn fanout_counts_messages() {
    let mut relay = Relay::new(32, FanOutPolicy::IncludeAll);
    relay.connect(1).unwrap();
    relay.connect(2).unwrap();
    assert_eq!(relay.messages_sent(), 0);
    assert_eq!(relay.messages_received(), 0);

    relay.inbound(1, b"x");
    assert_eq!(relay.messages_sent(), 2);
    assert_eq!(relay.messages_received(), 1);

    relay.inbound(2, b"y");
    assert_eq!(relay.messages_sent(), 4);
    assert_eq!(relay.messages_received(), 2);

    // The sampler reads and resets, as the once-a-second reporter does.
    assert_eq!(relay.sample_sent(), 4);
    assert_eq!(relay.messages_sent(), 0);
    assert_eq!(relay.sample_received(), 2);
    assert_eq!(relay.messages_received(), 0);
}

#[test]
fn datagram_inbound_registers_new_peer() {
    let mut relay = Relay::new(32, FanOutPolicy::IncludeAll);
    let (newly, delivered) = relay.datagram_inbound(77, b"dgram");
    assert!(newly);
    assert_eq!(delivered, 1);
    assert_eq!(relay.next_outbound(77), Some(b"dgram".to_vec()));

    let (newly2, delivered2) = relay.datagram_inbound(77, b"again");
    assert!(!newly2);
    assert_eq!(delivered2, 1);
    assert_eq!(relay.next_outbound(77), Some(b"again".to_vec()));
}
