use fanout_relay::relay::FanOutPolicy;
use fanout_relay::relay::Relay;
use fanout_relay::relay::ready_message;

#[test]
fn ready_message_is_the_sentinel_line() {
    assert_eq!(ready_message(), b"ready\n".to_vec());
}

#[test]
fn threshold_two_fires_for_both_sessions_once() {
    // Threshold 2: sessions connect one at a time. After the 2nd
    // connects, both sessions receive the sentinel; a 3rd connecting
    // afterward receives none, and triggers no re-announcement.
    let mut relay = Relay::new(2, FanOutPolicy::ExcludeSender);

    assert_eq!(relay.connect(10), Ok(false));
    assert_eq!(relay.pending_count(10), 0);
    assert!(!relay.ready_has_fired());

    assert_eq!(relay.connect(20), Ok(true));
    assert!(relay.ready_has_fired());
    assert_eq!(relay.next_outbound(10), Some(b"ready\n".to_vec()));
    assert_eq!(relay.next_outbound(10), None);
    assert_eq!(relay.next_outbound(20), Some(b"ready\n".to_vec()));
    assert_eq!(relay.next_outbound(20), None);

    assert_eq!(relay.connect(30), Ok(false));
    assert_eq!(relay.pending_count(30), 0);
    assert_eq!(relay.pending_count(10), 0);
    assert_eq!(relay.pending_count(20), 0);
}

#[test]
fn no_refire_after_dropping_below_threshold() {
    // Re-arming is disabled: once announced, climbing back up to the
    // threshold announces nothing.
    let mut relay = Relay::new(2, FanOutPolicy::ExcludeSender);
    relay.connect(1).unwrap();
    assert_eq!(relay.connect(2), Ok(true));
    relay.next_outbound(1);
    relay.next_outbound(2);

    relay.disconnect(2);
    assert_eq!(relay.size(), 1);
    assert_eq!(relay.connect(3), Ok(false));
    assert_eq!(relay.size(), 2);
    assert_eq!(relay.pending_count(1), 0);
    assert_eq!(relay.pending_count(3), 0);
}

#[test]
fn ready_counts_as_sent() {
    let mut relay = Relay::new(3, FanOutPolicy::ExcludeSender);
    relay.connect(1).unwrap();
    relay.connect(2).unwrap();
    assert_eq!(relay.messages_sent(), 0);
    relay.connect(3).unwrap();
    assert_eq!(relay.messages_sent(), 3);
}

#[test]
fn threshold_one_fires_on_first_connect() {
    let mut relay = Relay::new(1, FanOutPolicy::IncludeAll);
    assert_eq!(relay.connect(9), Ok(true));
    assert_eq!(relay.next_outbound(9), Some(b"ready\n".to_vec()));
}
