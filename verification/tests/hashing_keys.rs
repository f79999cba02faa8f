use fanout_relay::hashing::calculate_hash;

#[test]
fn same_address_same_key() {
    // A datagram peer must map to the same session key every time it
    // sends, or every datagram would look like a new client.
    let addr = b"127.0.0.1:5001";
    assert_eq!(calculate_hash(addr), calculate_hash(addr));
    assert_eq!(calculate_hash(&addr.to_vec()), calculate_hash(addr));
}

#[test]
fn different_addresses_get_different_keys() {
    // Not guaranteed in general (collisions are treated as client
    // identity), but these two must not collide under the standard
    // hasher, or the datagram variant could not tell its test peers
    // apart.
    let a = calculate_hash(b"127.0.0.1:40001");
    let b = calculate_hash(b"127.0.0.1:40002");
    assert_ne!(a, b);
}

#[test]
fn empty_address_is_still_a_key() {
    let a = calculate_hash(b"");
    assert_eq!(a, calculate_hash(b""));
}
