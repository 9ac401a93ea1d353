use lockstep::codec::{
    ControlState, encode_local, decode_direction, INPUT_UP, INPUT_DOWN, INPUT_LEFT, INPUT_RIGHT,
};

fn flags(up: bool, down: bool, left: bool, right: bool) -> ControlState {
    ControlState { up, down, left, right }
}

#[test]
fn encode_single_flags() {
    assert_eq!(encode_local(&flags(true, false, false, false)), INPUT_UP);
    assert_eq!(encode_local(&flags(false, true, false, false)), INPUT_DOWN);
    assert_eq!(encode_local(&flags(false, false, true, false)), INPUT_LEFT);
    assert_eq!(encode_local(&flags(false, false, false, true)), INPUT_RIGHT);
    assert_eq!(encode_local(&flags(false, false, false, false)), 0);
    assert_eq!(encode_local(&flags(true, true, true, true)), 15);
}

#[test]
fn decode_of_encode_recovers_axes() {
    // Every flag combination decodes to exactly (right - left, up - down).
    for bits in 0u8..16u8 {
        let c = flags(bits & 1 != 0, bits & 2 != 0, bits & 4 != 0, bits & 8 != 0);
        let s = encode_local(&c);
        let (dx, dy) = decode_direction(s);
        let want_dx = (c.right as i64) - (c.left as i64);
        let want_dy = (c.up as i64) - (c.down as i64);
        assert_eq!((dx, dy), (want_dx, want_dy));
    }
}

#[test]
fn decode_is_stable_across_repeated_calls() {
    let c = flags(true, false, false, true);
    let s1 = encode_local(&c);
    let s2 = encode_local(&c);
    assert_eq!(s1, s2);
    let first = decode_direction(s1);
    let second = decode_direction(s2);
    assert_eq!(first, second);
}

#[test]
fn opposite_flags_cancel() {
    let s = encode_local(&flags(false, false, true, true));
    assert_eq!(decode_direction(s), (0, 0));
    let s = encode_local(&flags(true, true, false, false));
    assert_eq!(decode_direction(s), (0, 0));
}

#[test]
fn unknown_high_bits_are_ignored() {
    assert_eq!(decode_direction(0xF0), (0, 0));
    assert_eq!(decode_direction(INPUT_RIGHT | 0x40), (1, 0));
    assert_eq!(decode_direction(0xFF), (0, 0));
}
