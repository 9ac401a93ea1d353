//! Input codec: a participant's raw control flags become a one-byte symbol,
//! one bit per directional flag, and a symbol decodes to axis deltas.
//!
//! Encoding is total: flag combinations with no movement meaning (for example
//! opposite flags held together) simply decode to a zero delta, and bits
//! beyond the four known flags are ignored by the decoder.

use vstd::prelude::*;

verus! {

/// Bit carried by a symbol when the "up" flag is held.
pub const INPUT_UP: u8 = 1;

/// Bit carried by a symbol when the "down" flag is held.
pub const INPUT_DOWN: u8 = 2;

/// Bit carried by a symbol when the "left" flag is held.
pub const INPUT_LEFT: u8 = 4;

/// Bit carried by a symbol when the "right" flag is held.
pub const INPUT_RIGHT: u8 = 8;

/// Raw directional flags sampled from the local input device for one tick.
#[derive(Clone, Copy, Debug, PartialEq, Eq, Structural)]
pub struct ControlState {
    /// Move towards positive y.
    pub up: bool,
    /// Move towards negative y.
    pub down: bool,
    /// Move towards negative x.
    pub left: bool,
    /// Move towards positive x.
    pub right: bool,
}

/// The symbol a control state encodes to: the sum of the bits of the held
/// flags.
pub open spec fn spec_encode(c: ControlState) -> u8 {
    ((if c.up {
        1int
    } else {
        0int
    }) + (if c.down {
        2int
    } else {
        0int
    }) + (if c.left {
        4int
    } else {
        0int
    }) + (if c.right {
        8int
    } else {
        0int
    })) as u8
}

/// Whether a symbol carries the "up" bit.
pub open spec fn sym_up(s: u8) -> bool {
    (s as int) % 2 == 1
}

/// Whether a symbol carries the "down" bit.
pub open spec fn sym_down(s: u8) -> bool {
    ((s as int) / 2) % 2 == 1
}

/// Whether a symbol carries the "left" bit.
pub open spec fn sym_left(s: u8) -> bool {
    ((s as int) / 4) % 2 == 1
}

/// Whether a symbol carries the "right" bit.
pub open spec fn sym_right(s: u8) -> bool {
    ((s as int) / 8) % 2 == 1
}

/// Horizontal delta a symbol decodes to: right minus left, so opposite flags
/// cancel.
pub open spec fn spec_dx(s: u8) -> int {
    (if sym_right(s) {
        1int
    } else {
        0int
    }) - (if sym_left(s) {
        1int
    } else {
        0int
    })
}

/// Vertical delta a symbol decodes to: up minus down.
pub open spec fn spec_dy(s: u8) -> int {
    (if sym_up(s) {
        1int
    } else {
        0int
    }) - (if sym_down(s) {
        1int
    } else {
        0int
    })
}

/// Encodes the local control flags into the one-byte symbol exchanged with
/// the other participants. Total: every flag combination has a symbol.
pub fn encode_local(c: &ControlState) -> (s: u8)
    ensures
        s == spec_encode(*c),
{
    let mut s: u8 = 0;
    if c.up {
        s = s + INPUT_UP;
    }
    if c.down {
        s = s + INPUT_DOWN;
    }
    if c.left {
        s = s + INPUT_LEFT;
    }
    if c.right {
        s = s + INPUT_RIGHT;
    }
    s
}

/// Decodes a symbol into per-axis deltas, each in -1 ..= 1. Total and
/// deterministic: unknown high bits are ignored, opposite flags cancel to 0.
pub fn decode_direction(s: u8) -> (d: (i64, i64))
    ensures
        d.0 == spec_dx(s),
        d.1 == spec_dy(s),
        -1 <= d.0 <= 1,
        -1 <= d.1 <= 1,
{
    let up = s % 2 == 1;
    let down = (s / 2) % 2 == 1;
    let left = (s / 4) % 2 == 1;
    let right = (s / 8) % 2 == 1;
    let dx: i64 = (if right {
        1
    } else {
        0
    }) - (if left {
        1
    } else {
        0
    });
    let dy: i64 = (if up {
        1
    } else {
        0
    }) - (if down {
        1
    } else {
        0
    });
    (dx, dy)
}

/// Law: decoding an encoded control state recovers exactly the held flags,
/// so the decoded deltas are a pure function of the flags alone and repeated
/// decodes of the same symbol agree.
pub proof fn lemma_decode_of_encode(c: ControlState)
    ensures
        sym_up(spec_encode(c)) == c.up,
        sym_down(spec_encode(c)) == c.down,
        sym_left(spec_encode(c)) == c.left,
        sym_right(spec_encode(c)) == c.right,
        spec_dx(spec_encode(c)) == (if c.right {
            1int
        } else {
            0int
        }) - (if c.left {
            1int
        } else {
            0int
        }),
        spec_dy(spec_encode(c)) == (if c.up {
            1int
        } else {
            0int
        }) - (if c.down {
            1int
        } else {
            0int
        }),
{
}

} // verus!
