use lockstep::wire::{WIRE_MESSAGE_LEN, WireMessage, decode_message, encode_message};

#[test]
fn encode_layout_is_little_endian() {
    let msg = WireMessage { tick: 1, handle: 2, symbol: 3 };
    let bytes = encode_message(&msg);
    assert_eq!(bytes, vec![1, 0, 0, 0, 0, 0, 0, 0, 2, 3]);
    assert_eq!(bytes.len(), WIRE_MESSAGE_LEN);
}

#[test]
fn round_trip_recovers_the_message() {
    let msg = WireMessage { tick: 0x0102_0304_0506_0708, handle: 1, symbol: 8 };
    let bytes = encode_message(&msg);
    assert_eq!(decode_message(&bytes), Some(msg));

    let extremes = [0u64, 1, 255, 256, u64::MAX, u64::MAX - 1];
    for t in extremes.iter() {
        let msg = WireMessage { tick: *t, handle: 0, symbol: 15 };
        assert_eq!(decode_message(&encode_message(&msg)), Some(msg));
    }
}

#[test]
fn wrong_size_datagrams_are_dropped() {
    assert_eq!(decode_message(&vec![]), None);
    assert_eq!(decode_message(&vec![0; 9]), None);
    assert_eq!(decode_message(&vec![0; 11]), None);
    assert_eq!(decode_message(&vec![0xFF; 100]), None);
}

#[test]
fn decode_reads_all_tick_bytes() {
    let mut bytes = vec![0u8; 10];
    bytes[7] = 1;
    let msg = decode_message(&bytes).unwrap();
    assert_eq!(msg.tick, 1u64 << 56);
    assert_eq!(msg.handle, 0);
    assert_eq!(msg.symbol, 0);
}
