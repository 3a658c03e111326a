//! Error taxonomy of the tunnel and of the device runtime.

use vstd::prelude::*;

verus! {

/// Protocol-level errors of the WireGuard state machine. A packet that
/// fails with one of these is dropped; other sessions are never torn down.
#[derive(Clone, Copy, Debug, PartialEq, Eq, Structural)]
pub enum WireGuardError {
    DestinationBufferTooSmall,
    IncorrectPacketLength,
    UnexpectedPacket,
    WrongPacketType,
    WrongIndex,
    WrongKey,
    InvalidMac,
    InvalidCounter,
    /// The counter was already seen, or lies behind the replay window.
    DuplicateCounter,
    InvalidPacket,
    NoCurrentSession,
    /// The handshake never completed within the allowed attempt time.
    ConnectionExpired,
    UnderLoad,
}

/// Errors of the device runtime. The string payloads carry the detail a
/// log line would show; contracts speak of the variants alone.
#[derive(Debug)]
pub enum Error {
    Socket(String),
    Bind(String),
    EventQueue(String),
    IOCtl(String),
    Connect(String),
    SetSockOpt(String),
    InvalidTunnelName,
    GetSockName(String),
    IfaceRead(String),
    DropPrivileges(String),
    ApiSocket(String),
    SetTunnel,
    InternalError(String),
}

} // verus!
