//! Userspace WireGuard-compatible VPN data plane: the device state, the
//! per-peer session timer discipline, allowed-IP longest-prefix routing,
//! the handshake rate limiter, wire-packet classification, and the UAPI
//! configuration protocol, with machine-checked contracts.
//!
//! Socket, TUN and thread plumbing live outside this crate; the modules
//! here hold the decisions and the data they are made over.

use vstd::prelude::*;

pub mod errors;
pub mod index_lfsr;
pub mod ip;
pub mod allowed_ips;
pub mod timers;
pub mod replay;
pub mod ring_buffers;
pub mod tunn;
pub mod packets;
pub mod rate_limiter;
pub mod peer;
pub mod device;
pub mod textfmt;
pub mod keys;
pub mod api;
pub mod xray;
mod rng;

verus! {

/// Handshakes per second tolerated before cookies are demanded.
pub const HANDSHAKE_RATE_LIMIT: u64 = 100;

/// Max packet size, limited by MTU sizes used in wild networks.
pub const MAX_PKT_SIZE: usize = 1550;

/// Most datagrams drained from one socket in one handler pass.
pub const MAX_ITR: usize = 100;

/// Default bound of the inter-thread channels.
pub const CHANNEL_SIZE: usize = 500;

/// Bytes reserved in front of a plaintext packet for the transport header.
pub const WG_HEADER_OFFSET: usize = 16;

/// Default number of packets batched between threads.
pub const MAX_INTERTHREAD_BATCHED_PKTS: usize = 50;

} // verus!
