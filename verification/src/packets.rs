//! Classification of raw UDP payloads into the wire messages of the
//! protocol, and recovery of the destination address from a plaintext IP
//! packet. The first byte names the message kind; index and counter
//! fields sit at fixed little-endian offsets.

use vstd::prelude::*;
use crate::errors::WireGuardError;
use crate::ip::IpAddress;

verus! {

pub const HANDSHAKE_INIT_SZ: usize = 148;

pub const HANDSHAKE_RESP_SZ: usize = 92;

pub const COOKIE_REPLY_SZ: usize = 64;

/// Transport header (16 bytes) plus the authentication tag (16 bytes).
pub const DATA_OVERHEAD_SZ: usize = 32;

/// Bytes of the transport header in front of the encrypted payload.
pub const DATA_HEADER_SZ: usize = 16;

/// The value of `n` little-endian bytes of `s` starting at `off`.
pub open spec fn spec_le_value(s: Seq<u8>, off: int, n: nat) -> int
    decreases n,
{
    if n == 0 {
        0
    } else {
        s[off] + 256 * spec_le_value(s, off + 1, (n - 1) as nat)
    }
}

/// The value of `n` big-endian bytes of `s` starting at `off`.
pub open spec fn spec_be_value(s: Seq<u8>, off: int, n: nat) -> int
    decreases n,
{
    if n == 0 {
        0
    } else {
        spec_be_value(s, off, (n - 1) as nat) * 256 + s[off + n - 1]
    }
}

/// 256 to the `n`th power.
pub open spec fn pow256(n: nat) -> int
    decreases n,
{
    if n == 0 {
        1
    } else {
        256 * pow256((n - 1) as nat)
    }
}

/// A little-endian value of `n` bytes stays below 256^n.
proof fn lemma_le_value_bound(s: Seq<u8>, off: int, n: nat)
    requires
        forall|i: int| off <= i < off + n ==> 0 <= #[trigger] s[i] < 256,
    ensures
        0 <= spec_le_value(s, off, n) < pow256(n),
    decreases n,
{
    if n > 0 {
        lemma_le_value_bound(s, off + 1, (n - 1) as nat);
        assert(spec_le_value(s, off, n) < pow256(n)) by (nonlinear_arith)
            requires
                spec_le_value(s, off, n) == s[off] + 256 * spec_le_value(s, off + 1, (n - 1) as nat),
                0 <= s[off] < 256,
                0 <= spec_le_value(s, off + 1, (n - 1) as nat) < pow256((n - 1) as nat),
                pow256(n) == 256 * pow256((n - 1) as nat),
        ;
    }
}

/// A big-endian value of `n` bytes stays below 256^n.
proof fn lemma_be_value_bound(s: Seq<u8>, off: int, n: nat)
    requires
        forall|i: int| off <= i < off + n ==> 0 <= #[trigger] s[i] < 256,
    ensures
        0 <= spec_be_value(s, off, n) < pow256(n),
    decreases n,
{
    if n > 0 {
        lemma_be_value_bound(s, off, (n - 1) as nat);
        assert(spec_be_value(s, off, n) < pow256(n)) by (nonlinear_arith)
            requires
                spec_be_value(s, off, n) == spec_be_value(s, off, (n - 1) as nat) * 256 + s[off + n
                    - 1],
                0 <= s[off + n - 1] < 256,
                0 <= spec_be_value(s, off, (n - 1) as nat) < pow256((n - 1) as nat),
                pow256(n) == 256 * pow256((n - 1) as nat),
        ;
    }
}

/// Read a 32-bit little-endian field.
pub fn read_u32_le(b: &[u8], off: usize) -> (r: u32)
    requires
        off + 4 <= b@.len(),
    ensures
        r == spec_le_value(b@, off as int, 4),
{
    proof {
        reveal_with_fuel(spec_le_value, 5);
        reveal_with_fuel(pow256, 5);
        lemma_le_value_bound(b@, off as int, 4);
        assert(pow256(4) == 0x100000000);
    }
    (b[off] as u32) + 0x100 * (b[off + 1] as u32) + 0x10000 * (b[off + 2] as u32) + 0x1000000 * (b[
        off + 3
    ] as u32)
}

/// Read a 64-bit little-endian field.
pub fn read_u64_le(b: &[u8], off: usize) -> (r: u64)
    requires
        off + 8 <= b@.len(),
    ensures
        r == spec_le_value(b@, off as int, 8),
{
    let n = b.len();
    proof {
        reveal_with_fuel(pow256, 9);
        lemma_le_value_bound(b@, off as int, 8);
        assert(pow256(8) == 0x10000000000000000);
    }
    let lo = read_u32_le(b, off);
    let hi = read_u32_le(b, off + 4);
    proof {
        reveal_with_fuel(pow256, 5);
        lemma_le_value_bound(b@, off as int, 4);
        lemma_le_value_bound(b@, (off + 4) as int, 4);
        assert(pow256(4) == 0x100000000);
        lemma_le_split(b@, off as int);
    }
    (lo as u64) + 0x100000000 * (hi as u64)
}

/// Eight little-endian bytes are the low four plus the high four scaled.
proof fn lemma_le_split(s: Seq<u8>, off: int)
    ensures
        spec_le_value(s, off, 8) == spec_le_value(s, off, 4) + 0x100000000 * spec_le_value(
            s,
            off + 4,
            4,
        ),
{
    reveal_with_fuel(spec_le_value, 9);
    assert(spec_le_value(s, off, 8) == s[off] + 256 * (s[off + 1] + 256 * (s[off + 2] + 256 * (s[off
        + 3] + 256 * (s[off + 4] + 256 * (s[off + 5] + 256 * (s[off + 6] + 256 * (s[off + 7] + 256
        * 0))))))));
    assert(spec_le_value(s, off, 4) == s[off] + 256 * (s[off + 1] + 256 * (s[off + 2] + 256 * (s[off
        + 3] + 256 * 0))));
    assert(spec_le_value(s, off + 4, 4) == s[off + 4] + 256 * (s[off + 5] + 256 * (s[off + 6] + 256
        * (s[off + 7] + 256 * 0))));
}

/// Read a 32-bit big-endian field.
pub fn read_u32_be(b: &[u8], off: usize) -> (r: u32)
    requires
        off + 4 <= b@.len(),
    ensures
        r == spec_be_value(b@, off as int, 4),
{
    proof {
        reveal_with_fuel(spec_be_value, 5);
        reveal_with_fuel(pow256, 5);
        lemma_be_value_bound(b@, off as int, 4);
        assert(pow256(4) == 0x100000000);
    }
    ((b[off] as u32) * 0x1000000) + ((b[off + 1] as u32) * 0x10000) + ((b[off + 2] as u32) * 0x100)
        + (b[off + 3] as u32)
}

/// Read a 128-bit big-endian field.
pub fn read_u128_be(b: &[u8], off: usize) -> (r: u128)
    requires
        off + 16 <= b@.len(),
    ensures
        r == spec_be_value(b@, off as int, 16),
{
    let n = b.len();
    let mut acc: u128 = 0;
    let mut i: usize = 0;
    while i < 16
        invariant
            i <= 16,
            off + 16 <= b@.len(),
            n == b@.len(),
            acc == spec_be_value(b@, off as int, i as nat),
            acc < pow256(i as nat),
        decreases 16 - i,
    {
        proof {
            lemma_be_value_bound(b@, off as int, (i + 1) as nat);
            lemma_pow256_le(i as nat);
            let byte = b@[off + i];
            assert(acc * 256 + byte < pow256((i + 1) as nat)) by (nonlinear_arith)
                requires
                    0 <= acc < pow256(i as nat),
                    0 <= byte < 256,
                    pow256((i + 1) as nat) == 256 * pow256(i as nat),
            ;
        }
        acc = acc * 256 + (b[off + i] as u128);
        i = i + 1;
    }
    acc
}

/// 256^n for n at most 16 fits the range of a 128-bit word plus one.
proof fn lemma_pow256_le(n: nat)
    requires
        n <= 15,
    ensures
        pow256(n + 1) <= 0x100000000000000000000000000000000,
        pow256(n + 1) == 256 * pow256(n),
    decreases n,
{
    reveal_with_fuel(pow256, 3);
    if n == 0 {
    } else {
        lemma_pow256_le((n - 1) as nat);
        assert(pow256(n + 1) == 256 * pow256(n));
        assert(pow256(n) <= pow256(15nat)) by {
            lemma_pow256_mono(n, 15nat);
        }
        assert(pow256(15nat) == 0x1000000000000000000000000000000) by {
            reveal_with_fuel(pow256, 17);
        }
    }
}

/// pow256 grows with its argument.
proof fn lemma_pow256_mono(a: nat, b: nat)
    requires
        a <= b,
    ensures
        pow256(a) <= pow256(b),
    decreases b,
{
    if a < b {
        lemma_pow256_mono(a, (b - 1) as nat);
        assert(pow256(b) == 256 * pow256((b - 1) as nat));
        assert(pow256((b - 1) as nat) >= 1) by {
            lemma_pow256_pos((b - 1) as nat);
        }
    }
}

/// pow256 is positive.
proof fn lemma_pow256_pos(n: nat)
    ensures
        pow256(n) >= 1,
    decreases n,
{
    if n > 0 {
        lemma_pow256_pos((n - 1) as nat);
    }
}

/// A parsed, classified wire message.
#[derive(Clone, Copy, Debug, PartialEq, Eq, Structural)]
pub enum Packet {
    HandshakeInit { sender_idx: u32 },
    HandshakeResponse { sender_idx: u32, receiver_idx: u32 },
    PacketCookieReply { receiver_idx: u32 },
    PacketData { receiver_idx: u32, counter: u64, encrypted_len: usize },
}

/// What classification yields on a raw datagram: the kind from the first
/// byte, each kind with its exact (or for data, minimum) length, and the
/// index and counter fields at their wire offsets.
pub open spec fn spec_parse_packet(s: Seq<u8>) -> Result<Packet, WireGuardError> {
    if s.len() < 4 {
        Err(WireGuardError::InvalidPacket)
    } else if s[0] == 1 {
        if s.len() == HANDSHAKE_INIT_SZ {
            Ok(Packet::HandshakeInit { sender_idx: spec_le_value(s, 4, 4) as u32 })
        } else {
            Err(WireGuardError::IncorrectPacketLength)
        }
    } else if s[0] == 2 {
        if s.len() == HANDSHAKE_RESP_SZ {
            Ok(
                Packet::HandshakeResponse {
                    sender_idx: spec_le_value(s, 4, 4) as u32,
                    receiver_idx: spec_le_value(s, 8, 4) as u32,
                },
            )
        } else {
            Err(WireGuardError::IncorrectPacketLength)
        }
    } else if s[0] == 3 {
        if s.len() == COOKIE_REPLY_SZ {
            Ok(Packet::PacketCookieReply { receiver_idx: spec_le_value(s, 4, 4) as u32 })
        } else {
            Err(WireGuardError::IncorrectPacketLength)
        }
    } else if s[0] == 4 {
        if s.len() >= DATA_OVERHEAD_SZ {
            Ok(
                Packet::PacketData {
                    receiver_idx: spec_le_value(s, 4, 4) as u32,
                    counter: spec_le_value(s, 8, 8) as u64,
                    encrypted_len: (s.len() - DATA_HEADER_SZ) as usize,
                },
            )
        } else {
            Err(WireGuardError::IncorrectPacketLength)
        }
    } else {
        Err(WireGuardError::InvalidPacket)
    }
}

/// Classify one raw UDP payload.
pub fn parse_incoming_packet(b: &[u8]) -> (r: Result<Packet, WireGuardError>)
    ensures
        r == spec_parse_packet(b@),
{
    if b.len() < 4 {
        return Err(WireGuardError::InvalidPacket);
    }
    let kind = b[0];
    if kind == 1 {
        if b.len() == HANDSHAKE_INIT_SZ {
            Ok(Packet::HandshakeInit { sender_idx: read_u32_le(b, 4) })
        } else {
            Err(WireGuardError::IncorrectPacketLength)
        }
    } else if kind == 2 {
        if b.len() == HANDSHAKE_RESP_SZ {
            Ok(
                Packet::HandshakeResponse {
                    sender_idx: read_u32_le(b, 4),
                    receiver_idx: read_u32_le(b, 8),
                },
            )
        } else {
            Err(WireGuardError::IncorrectPacketLength)
        }
    } else if kind == 3 {
        if b.len() == COOKIE_REPLY_SZ {
            Ok(Packet::PacketCookieReply { receiver_idx: read_u32_le(b, 4) })
        } else {
            Err(WireGuardError::IncorrectPacketLength)
        }
    } else if kind == 4 {
        if b.len() >= DATA_OVERHEAD_SZ {
            Ok(
                Packet::PacketData {
                    receiver_idx: read_u32_le(b, 4),
                    counter: read_u64_le(b, 8),
                    encrypted_len: b.len() - DATA_HEADER_SZ,
                },
            )
        } else {
            Err(WireGuardError::IncorrectPacketLength)
        }
    } else {
        Err(WireGuardError::InvalidPacket)
    }
}

/// The peer-table key inside a receiver index: the 24 high bits.
pub open spec fn spec_peer_of_idx(receiver_idx: u32) -> u32 {
    receiver_idx / 256
}

/// Recover the peer key from a wire receiver index.
pub fn peer_of_idx(receiver_idx: u32) -> (r: u32)
    ensures
        r == spec_peer_of_idx(receiver_idx),
        r <= 0xffffff,
{
    proof {
        let x = receiver_idx;
        assert(x >> 8 == x / 256 && x >> 8 <= 0xffffff) by (bit_vector);
    }
    receiver_idx >> 8
}

/// The destination address of a plaintext IP packet, when its version
/// nibble and length form a valid v4 or v6 header start.
pub open spec fn spec_dst_address(s: Seq<u8>) -> Option<IpAddress> {
    if s.len() >= 20 && s[0] / 16 == 4 {
        Some(IpAddress::V4(spec_be_value(s, 16, 4) as u32))
    } else if s.len() >= 40 && s[0] / 16 == 6 {
        Some(IpAddress::V6(spec_be_value(s, 24, 16) as u128))
    } else {
        None
    }
}

/// Read the destination IP of an outbound plaintext packet.
pub fn dst_address(b: &[u8]) -> (r: Option<IpAddress>)
    ensures
        r == spec_dst_address(b@),
{
    if b.len() >= 20 && b[0] / 16 == 4 {
        proof {
            reveal_with_fuel(pow256, 5);
            lemma_be_value_bound(b@, 16, 4);
            assert(pow256(4) == 0x100000000);
        }
        Some(IpAddress::V4(read_u32_be(b, 16)))
    } else if b.len() >= 40 && b[0] / 16 == 6 {
        proof {
            reveal_with_fuel(pow256, 17);
            lemma_be_value_bound(b@, 24, 16);
            assert(pow256(16) == 0x100000000000000000000000000000000);
        }
        Some(IpAddress::V6(read_u128_be(b, 24)))
    } else {
        None
    }
}

} // verus!
