//! Handshake rate limiting and cookie issuance. A counter of handshake
//! initiations rises through each second and is reset by a periodic event;
//! above the configured threshold, initiations that do not prove source
//! reachability with a second MAC draw a cookie reply instead of work.

use vstd::prelude::*;
use crate::errors::WireGuardError;
use crate::ip::IpAddress;
use crate::packets::Packet;

verus! {

/// What the limiter tells the caller to do with one datagram.
#[derive(Clone, Copy, Debug, PartialEq, Eq, Structural)]
pub enum RateLimiterVerdict {
    /// Process the packet.
    Allowed(Packet),
    /// Too much handshake work this second: answer with a cookie reply.
    SendCookieReply,
    /// Drop the packet with this error.
    Refused(WireGuardError),
}

/// The device-wide rate limiter, rebuilt whenever the device key changes.
pub struct RateLimiter {
    /// The device public key the first MAC is checked against.
    pub public_key: [u8; 32],
    /// Handshake initiations seen in the current second.
    pub count: u64,
    /// Initiations tolerated per second before cookies are demanded.
    pub limit: u64,
}

impl RateLimiter {
    pub fn new(public_key: &[u8; 32], limit: u64) -> (r: Self)
        ensures
            r.public_key == *public_key,
            r.count == 0,
            r.limit == limit,
    {
        RateLimiter { public_key: *public_key, count: 0, limit }
    }

    /// The periodic (once a second) reset of the counter.
    pub fn reset_count(&mut self)
        ensures
            *final(self) == (RateLimiter { count: 0, ..*old(self) }),
    {
        self.count = 0;
    }

    /// The counter after one more initiation.
    pub open spec fn spec_bumped(self) -> u64 {
        if self.count < u64::MAX {
            (self.count + 1) as u64
        } else {
            self.count
        }
    }

    /// The verdict on one classified datagram, given the validity of its
    /// MAC fields (computed by the cookie cryptography outside this
    /// crate). An initiation with a bad first MAC is refused; one arriving
    /// beyond the per-second threshold must carry a valid second MAC, else
    /// it draws a cookie reply — and with no source address to bind the
    /// cookie to, it is refused as arriving under load.
    pub open spec fn spec_verdict(
        self,
        src: Option<IpAddress>,
        packet: Packet,
        mac1_valid: bool,
        mac2_valid: bool,
    ) -> RateLimiterVerdict {
        match packet {
            Packet::HandshakeInit { .. } => {
                if !mac1_valid {
                    RateLimiterVerdict::Refused(WireGuardError::InvalidMac)
                } else if self.spec_bumped() > self.limit && !mac2_valid {
                    if src is Some {
                        RateLimiterVerdict::SendCookieReply
                    } else {
                        RateLimiterVerdict::Refused(WireGuardError::UnderLoad)
                    }
                } else {
                    RateLimiterVerdict::Allowed(packet)
                }
            },
            Packet::HandshakeResponse { .. } => {
                if !mac1_valid {
                    RateLimiterVerdict::Refused(WireGuardError::InvalidMac)
                } else {
                    RateLimiterVerdict::Allowed(packet)
                }
            },
            _ => RateLimiterVerdict::Allowed(packet),
        }
    }

    /// Judge one classified datagram and advance the per-second count.
    pub fn verify_packet(
        &mut self,
        src: Option<IpAddress>,
        packet: Packet,
        mac1_valid: bool,
        mac2_valid: bool,
    ) -> (r: RateLimiterVerdict)
        ensures
            r == old(self).spec_verdict(src, packet, mac1_valid, mac2_valid),
            final(self).count == (match packet {
                Packet::HandshakeInit { .. } => (if mac1_valid {
                    old(self).spec_bumped()
                } else {
                    old(self).count
                }),
                _ => old(self).count,
            }),
            *final(self) == (RateLimiter { count: final(self).count, ..*old(self) }),
    {
        match packet {
            Packet::HandshakeInit { .. } => {
                if !mac1_valid {
                    return RateLimiterVerdict::Refused(WireGuardError::InvalidMac);
                }
                if self.count < u64::MAX {
                    self.count = self.count + 1;
                }
                if self.count > self.limit && !mac2_valid {
                    if src.is_some() {
                        RateLimiterVerdict::SendCookieReply
                    } else {
                        RateLimiterVerdict::Refused(WireGuardError::UnderLoad)
                    }
                } else {
                    RateLimiterVerdict::Allowed(packet)
                }
            },
            Packet::HandshakeResponse { .. } => {
                if !mac1_valid {
                    RateLimiterVerdict::Refused(WireGuardError::InvalidMac)
                } else {
                    RateLimiterVerdict::Allowed(packet)
                }
            },
            _ => RateLimiterVerdict::Allowed(packet),
        }
    }
}

/// Rate-limiter fairness: while the per-second count stays within the
/// threshold, valid initiations pass; the first initiation beyond the
/// threshold without a valid second MAC draws exactly a cookie reply, and
/// the periodic reset admits initiations again.
pub proof fn lemma_rate_limiter_fairness(
    rl: RateLimiter,
    src: IpAddress,
    packet: Packet,
    mac2_valid: bool,
)
    requires
        packet is HandshakeInit,
    ensures
        rl.count < rl.limit ==> rl.spec_verdict(Some(src), packet, true, mac2_valid)
            == RateLimiterVerdict::Allowed(packet),
        rl.count == rl.limit && rl.limit < u64::MAX && !mac2_valid ==> rl.spec_verdict(
            Some(src),
            packet,
            true,
            false,
        ) == RateLimiterVerdict::SendCookieReply,
        rl.count == 0 && rl.limit > 0 ==> rl.spec_verdict(Some(src), packet, true, mac2_valid)
            == RateLimiterVerdict::Allowed(packet),
{
}

} // verus!
