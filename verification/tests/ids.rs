use sui_services::ids::Bytes32;

fn bytes(first: u8, last: u8) -> [u8; 32] {
    let mut bytes = [0u8; 32];
    bytes[0] = first;
    bytes[15] = 3;
    bytes[16] = 4;
    bytes[31] = last;
    bytes
}

#[test]
fn id_round_trips_through_bytes() {
    let id = Bytes32::from_bytes(&bytes(1, 2));
    assert_eq!(id.hi, (1u128 << 120) + 3);
    assert_eq!(id.lo, (4u128 << 120) + 2);
    assert_eq!(id.to_bytes(), bytes(1, 2));
    assert_eq!(Bytes32::from_bytes(&[0xff; 32]).to_bytes(), [0xff; 32]);
}

#[test]
fn ids_are_ordered_as_their_bytes() {
    let ids = [bytes(0, 9), bytes(1, 2), bytes(1, 3), bytes(2, 0)];
    let keys: Vec<(u128, u128)> = ids
        .iter()
        .map(|b| {
            let id = Bytes32::from_bytes(b);
            (id.hi, id.lo)
        })
        .collect();
    let mut sorted = keys.clone();
    sorted.sort();
    assert_eq!(keys, sorted);
}

#[test]
fn ids_with_different_bytes_differ() {
    assert_ne!(Bytes32::from_bytes(&bytes(1, 2)), Bytes32::from_bytes(&bytes(1, 3)));
    assert_ne!(Bytes32::from_bytes(&bytes(1, 2)), Bytes32::from_bytes(&bytes(2, 2)));
}
