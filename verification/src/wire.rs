//! Wire format of one input exchange message: tick, participant handle and
//! input symbol in ten bytes, the tick little-endian. The decoder is total
//! over arbitrary byte strings: a datagram of the wrong size yields `None`
//! and is dropped by the caller, it never fails the session.

use vstd::prelude::*;

verus! {

/// Exact size of an encoded input message.
pub const WIRE_MESSAGE_LEN: usize = 10;

/// One participant's input symbol for one tick, as exchanged between peers.
#[derive(Clone, Copy, Debug, PartialEq, Eq, Structural)]
pub struct WireMessage {
    /// The tick the symbol belongs to.
    pub tick: u64,
    /// Handle of the submitting participant.
    pub handle: u8,
    /// The encoded input symbol.
    pub symbol: u8,
}

/// Value of a little-endian byte string: the first byte is least
/// significant.
pub open spec fn spec_le_value(s: Seq<u8>) -> int
    decreases s.len(),
{
    if s.len() == 0 {
        0
    } else {
        s[0] + 256 * spec_le_value(s.skip(1))
    }
}

/// 256 to the `n`.
pub open spec fn pow256(n: nat) -> int
    decreases n,
{
    if n == 0 {
        1
    } else {
        256 * pow256((n - 1) as nat)
    }
}

/// A byte string's value is bounded by 256 to its length.
proof fn lemma_le_value_bound(s: Seq<u8>)
    ensures
        0 <= spec_le_value(s) < pow256(s.len()),
    decreases s.len(),
{
    if s.len() == 0 {
    } else {
        lemma_le_value_bound(s.skip(1));
    }
}

/// Appending a byte adds its value at the next power of 256.
proof fn lemma_le_value_snoc(s: Seq<u8>, b: u8)
    ensures
        spec_le_value(s.push(b)) == spec_le_value(s) + b * pow256(s.len()),
    decreases s.len(),
{
    if s.len() == 0 {
        assert(s.push(b)[0] == b);
        assert(s.push(b).skip(1) =~= Seq::<u8>::empty());
        assert(spec_le_value(Seq::<u8>::empty()) == 0);
        assert(pow256(0) == 1);
        assert(spec_le_value(s.push(b)) == b);
    } else {
        assert(s.push(b)[0] == s[0]);
        assert(s.push(b).skip(1) =~= s.skip(1).push(b));
        lemma_le_value_snoc(s.skip(1), b);
        assert(s.skip(1).len() == (s.len() - 1) as nat);
        assert(pow256(s.len()) == 256 * pow256((s.len() - 1) as nat));
        assert(256 * (b * pow256((s.len() - 1) as nat)) == b * (256 * pow256(
            (s.len() - 1) as nat,
        ))) by (nonlinear_arith);
        assert(spec_le_value(s.push(b)) == s[0] + 256 * spec_le_value(s.skip(1).push(b)));
        assert(spec_le_value(s) == s[0] + 256 * spec_le_value(s.skip(1)));
        assert(spec_le_value(s.skip(1).push(b)) == spec_le_value(s.skip(1)) + b * pow256(
            (s.len() - 1) as nat,
        ));
    }
}

/// The concrete powers the ten-byte format needs.
proof fn lemma_pow256_vals()
    ensures
        pow256(7) == 0x100_0000_0000_0000,
        pow256(8) == 0x1_0000_0000_0000_0000,
{
    assert(pow256(0) == 1);
    assert(pow256(1) == 256);
    assert(pow256(2) == 0x1_0000);
    assert(pow256(3) == 0x100_0000);
    assert(pow256(4) == 0x1_0000_0000);
    assert(pow256(5) == 0x100_0000_0000);
    assert(pow256(6) == 0x1_0000_0000_0000);
    assert(pow256(7) == 0x100_0000_0000_0000);
    assert(pow256(8) == 0x1_0000_0000_0000_0000);
}

/// Encodes a message into its ten-byte wire form: eight little-endian tick
/// bytes, then the handle, then the symbol.
pub fn encode_message(msg: &WireMessage) -> (bytes: Vec<u8>)
    ensures
        bytes@.len() == WIRE_MESSAGE_LEN as int,
        spec_le_value(bytes@.subrange(0, 8)) == msg.tick as int,
        bytes@[8] == msg.handle,
        bytes@[9] == msg.symbol,
{
    let mut bytes: Vec<u8> = Vec::new();
    let mut v: u64 = msg.tick;
    let mut j: usize = 0;
    proof {
        lemma_pow256_vals();
    }
    while j < 8
        invariant
            j <= 8,
            bytes@.len() == j,
            msg.tick as int == spec_le_value(bytes@) + pow256(j as nat) * v,
            v < pow256((8 - j) as nat),
        decreases 8 - j,
    {
        let b: u8 = (v % 256) as u8;
        let ghost prefix = bytes@;
        let ghost vold = v as int;
        let ghost p = pow256(j as nat);
        bytes.push(b);
        v = v / 256;
        proof {
            lemma_le_value_snoc(prefix, b);
            lemma_pow256_pos(j as nat);
            assert(pow256((j + 1) as nat) == 256 * p);
            assert(p * vold == b * p + (256 * p) * (v as int)) by (nonlinear_arith)
                requires
                    vold == b + 256 * (v as int),
                    0 <= p,
            ;
            assert(v < pow256((8 - (j + 1)) as nat)) by {
                assert(pow256((8 - j) as nat) == 256 * pow256((8 - (j + 1)) as nat));
            }
        }
        j = j + 1;
    }
    let ghost prefix8 = bytes@;
    proof {
        assert(pow256(0) == 1);
        assert(v == 0);
        assert(spec_le_value(prefix8) == msg.tick as int);
    }
    bytes.push(msg.handle);
    bytes.push(msg.symbol);
    proof {
        assert(bytes@.subrange(0, 8) =~= prefix8);
    }
    bytes
}

/// Decodes a datagram. Exactly the ten-byte strings decode; anything of
/// another size is malformed and yields `None`, to be dropped and logged by
/// the caller without failing the session.
pub fn decode_message(bytes: &Vec<u8>) -> (r: Option<WireMessage>)
    ensures
        bytes@.len() != WIRE_MESSAGE_LEN as int ==> r is None,
        bytes@.len() == WIRE_MESSAGE_LEN as int ==> r == Some(
            WireMessage {
                tick: spec_le_value(bytes@.subrange(0, 8)) as u64,
                handle: bytes@[8],
                symbol: bytes@[9],
            },
        ),
{
    if bytes.len() != WIRE_MESSAGE_LEN {
        return None;
    }
    let mut acc: u64 = 0;
    let mut i: usize = 8;
    proof {
        lemma_pow256_vals();
        assert(bytes@.subrange(8, 8) =~= Seq::<u8>::empty());
    }
    while i > 0
        invariant
            i <= 8,
            bytes@.len() == WIRE_MESSAGE_LEN as int,
            acc == spec_le_value(bytes@.subrange(i as int, 8)),
        decreases i,
    {
        i = i - 1;
        proof {
            lemma_pow256_vals();
            let tail = bytes@.subrange(i as int + 1, 8);
            lemma_le_value_bound(tail);
            assert(pow256(tail.len()) <= pow256(7)) by {
                lemma_pow256_mono(tail.len(), 7nat);
            }
            assert(bytes@.subrange(i as int, 8)[0] == bytes@[i as int]);
            assert(bytes@.subrange(i as int, 8).skip(1) =~= tail);
        }
        acc = acc * 256 + (bytes[i] as u64);
    }
    proof {
        assert(bytes@.subrange(0, 8) =~= bytes@.subrange(0 as int, 8));
    }
    Some(WireMessage { tick: acc, handle: bytes[8], symbol: bytes[9] })
}

/// Powers of 256 grow with the exponent.
proof fn lemma_pow256_mono(a: nat, b: nat)
    requires
        a <= b,
    ensures
        pow256(a) <= pow256(b),
    decreases b,
{
    if a < b {
        lemma_pow256_mono(a, (b - 1) as nat);
        assert(1 <= pow256((b - 1) as nat)) by {
            lemma_pow256_pos((b - 1) as nat);
        }
    }
}

/// Powers of 256 are positive.
proof fn lemma_pow256_pos(n: nat)
    ensures
        1 <= pow256(n),
    decreases n,
{
    if n > 0 {
        lemma_pow256_pos((n - 1) as nat);
    }
}

} // verus!
