//! The per-peer tunnel state machine: transport sessions, the handshake
//! progress as the timer discipline sees it, queued-packet bookkeeping and
//! traffic counters. Cryptographic primitives are outside collaborators;
//! this module holds the state they act on and every decision around them.

use vstd::prelude::*;
use crate::errors::WireGuardError;
use crate::packets::Packet;
use crate::replay::ReceivingCounterValidator;
use crate::timers::{Timers, TimerName, N_SESSIONS, TIMER_COUNT, spec_sat_sub, sat_sub, REKEY_AFTER_TIME_MS, REJECT_AFTER_TIME_MS, REKEY_ATTEMPT_TIME_MS, REKEY_TIMEOUT_MS, KEEPALIVE_TIMEOUT_MS, COOKIE_EXPIRATION_TIME_MS};

verus! {

/// Most data packets a session may send (Reject-After-Messages).
pub const REJECT_AFTER_MESSAGES: u64 = 0xFFFF_FFFF_FFFF_DFFF;

/// One live transport session.
pub struct Session {
    /// Our receiver index for this session: the peer's 24-bit index in the
    /// high bits, the session slot in the low byte.
    pub receiving_index: u32,
    /// The peer's receiver index, learned from the handshake.
    pub sending_index: u32,
    /// Counter of the next data packet this session sends.
    pub sending_counter: u64,
    /// Anti-replay window over received counters.
    pub receiving_counter: ReceivingCounterValidator,
}

impl Session {
    pub open spec fn wf(self) -> bool {
        self.receiving_counter.wf()
    }
}

/// The handshake progress as the device and the timers observe it.
#[derive(Clone, Copy, Debug, PartialEq, Eq, Structural)]
pub enum HandshakeState {
    /// No initiation of ours is in flight.
    Idle,
    /// We sent a handshake initiation at this time and await the response.
    InitSent { sent_at: u64 },
    /// The handshake gave up; only a key change or persistent keepalive
    /// revives the tunnel.
    Expired,
}

/// What the caller must write out after a tunnel-state step.
#[derive(Clone, Copy, Debug, PartialEq, Eq, Structural)]
pub enum TunnWrite {
    /// Nothing to send.
    Nothing,
    /// A handshake initiation goes to the peer's endpoint.
    HandshakeInitiation,
    /// A handshake response for the session in `slot` goes out.
    HandshakeResponse { slot: usize },
    /// A transport packet of the session in `slot` goes out; an empty
    /// payload is a keepalive.
    Transport { slot: usize, counter: u64, payload_len: usize },
    /// A decapsulated plaintext of this length goes to the tunnel device.
    Tunnel { len: usize },
}

/// The tunnel of one peer.
pub struct Tunn {
    /// Device static private key.
    pub static_private: [u8; 32],
    /// Device static public key, derived from the private key.
    pub static_public: [u8; 32],
    /// The peer's static public key.
    pub peer_static_public_key: [u8; 32],
    /// Optional preshared key mixed into the handshake.
    pub preshared_key: Option<[u8; 32]>,
    /// The 24-bit local index that receiver indices of sessions carry.
    pub index: u32,
    /// The session ring; `current % N_SESSIONS` is the current slot.
    pub sessions: Vec<Option<Session>>,
    /// Monotonic session counter; advances on each established session.
    pub current: usize,
    /// Plaintext packets queued while no session is up.
    pub packet_queue_len: usize,
    /// Progress of our own handshake initiations.
    pub handshake_state: HandshakeState,
    /// Do we hold an unexpired cookie from the peer?
    pub has_cookie: bool,
    /// The timer bank.
    pub timers: Timers,
    /// Bytes sent through transport packets.
    pub tx_bytes: u64,
    /// Bytes received through transport packets.
    pub rx_bytes: u64,
}

impl Tunn {
    pub open spec fn wf(self) -> bool {
        &&& self.timers.wf()
        &&& self.sessions@.len() == N_SESSIONS
        &&& forall|i: int|
            0 <= i < N_SESSIONS ==> match #[trigger] self.sessions@[i] {
                Some(s) => s.wf(),
                None => true,
            }
        &&& match self.handshake_state {
            HandshakeState::InitSent { sent_at } => sent_at <= self.timers.current(),
            _ => true,
        }
        &&& self.index <= 0xffffff
    }

    /// The slot of the current session.
    pub open spec fn spec_current_slot(self) -> int {
        (self.current as int) % (N_SESSIONS as int)
    }

    /// Create the state for a new peer tunnel. The caller passes the
    /// derived public key of `static_private`.
    pub fn new(
        static_private: [u8; 32],
        static_public: [u8; 32],
        peer_static_public_key: [u8; 32],
        preshared_key: Option<[u8; 32]>,
        persistent_keepalive: Option<u16>,
        index: u32,
        reset_rr: bool,
    ) -> (r: Tunn)
        requires
            index <= 0xffffff,
        ensures
            r.wf(),
            r.peer_static_public_key == peer_static_public_key,
            r.static_private == static_private,
            r.static_public == static_public,
            r.preshared_key == preshared_key,
            r.index == index,
            r.current == 0,
            r.packet_queue_len == 0,
            r.handshake_state == HandshakeState::Idle,
            !r.has_cookie,
            r.tx_bytes == 0,
            r.rx_bytes == 0,
            forall|i: int| 0 <= i < N_SESSIONS ==> r.sessions@[i] is None,
            r.timers.persistent_keepalive == (match persistent_keepalive {
                Some(k) => k as usize,
                None => 0usize,
            }),
            r.timers.current() == 0,
    {
        let mut sessions: Vec<Option<Session>> = Vec::new();
        let mut i: usize = 0;
        while i < N_SESSIONS
            invariant
                i <= N_SESSIONS,
                sessions@.len() == i,
                forall|j: int| 0 <= j < i ==> sessions@[j] is None,
            decreases N_SESSIONS - i,
        {
            sessions.push(None);
            i = i + 1;
        }
        Tunn {
            static_private,
            static_public,
            peer_static_public_key,
            preshared_key,
            index,
            sessions,
            current: 0,
            packet_queue_len: 0,
            handshake_state: HandshakeState::Idle,
            has_cookie: false,
            timers: Timers::new(persistent_keepalive, reset_rr),
            tx_bytes: 0,
            rx_bytes: 0,
        }
    }

    /// The peer's static public key.
    pub fn peer_static_public(&self) -> (r: [u8; 32])
        ensures
            r == self.peer_static_public_key,
    {
        self.peer_static_public_key
    }

    /// Replace the device static key pair. The peer's stored state keeps
    /// its sessions; a fresh handshake will use the new keys.
    pub fn set_static_private(&mut self, static_private: [u8; 32], static_public: [u8; 32])
        requires
            old(self).wf(),
        ensures
            final(self).wf(),
            *final(self) == (Tunn {
                static_private,
                static_public,
                handshake_state: (if old(self).handshake_state is Expired {
                    HandshakeState::Idle
                } else {
                    old(self).handshake_state
                }),
                ..*old(self)
            }),
    {
        self.static_private = static_private;
        self.static_public = static_public;
        // A tunnel that expired under the old key may try again.
        if let HandshakeState::Expired = self.handshake_state {
            self.handshake_state = HandshakeState::Idle;
        }
    }

    /// A zero key clears the preshared key.
    pub fn set_preshared_key(&mut self, key: Option<[u8; 32]>)
        requires
            old(self).wf(),
        ensures
            final(self).wf(),
            *final(self) == (Tunn { preshared_key: key, ..*old(self) }),
    {
        self.preshared_key = key;
    }

    /// Total transport bytes sent and received.
    pub fn stats(&self) -> (r: (u64, u64))
        ensures
            r == (self.tx_bytes, self.rx_bytes),
    {
        (self.tx_bytes, self.rx_bytes)
    }

    /// The configured persistent keepalive interval, if enabled.
    pub fn persistent_keepalive(&self) -> (r: Option<u16>)
        requires
            self.wf(),
        ensures
            r == (if self.timers.persistent_keepalive > 0 {
                Some(self.timers.persistent_keepalive as u16)
            } else {
                None::<u16>
            }),
    {
        let keepalive = self.timers.persistent_keepalive;
        if keepalive > 0 {
            Some(keepalive as u16)
        } else {
            None
        }
    }

    pub fn set_persistent_keepalive(&mut self, keepalive: u16)
        requires
            old(self).wf(),
        ensures
            final(self).wf(),
            final(self).timers.persistent_keepalive == keepalive as usize,
            *final(self) == (Tunn { timers: final(self).timers, ..*old(self) }),
            final(self).timers == (Timers {
                persistent_keepalive: keepalive as usize,
                ..old(self).timers
            }),
    {
        self.timers.persistent_keepalive = keepalive as usize;
    }

    /// Milliseconds since the current session was established: nothing
    /// when no session is current, or when the establishment stamp lies
    /// ahead of the supplied time.
    pub fn time_since_last_handshake(&self, now: u64) -> (r: Option<u64>)
        requires
            self.wf(),
        ensures
            r == self.time_since_last_handshake_spec(now),
    {
        let slot = self.current % N_SESSIONS;
        if self.sessions[slot].is_some() {
            let established = self.timers.get(TimerName::TimeSessionEstablished);
            if now >= established {
                Some(now - established)
            } else {
                None
            }
        } else {
            None
        }
    }

    /// The wall-clock moment of the last completed handshake, from the
    /// present wall clock and the tunnel-relative time.
    pub fn last_handshake_time(&self, now: u64, unix_now_ms: u64) -> (r: Option<u64>)
        requires
            self.wf(),
        ensures
            r == (match self.time_since_last_handshake_spec(now) {
                Some(d) => Some(spec_sat_sub(unix_now_ms, d)),
                None => None::<u64>,
            }),
    {
        match self.time_since_last_handshake(now) {
            Some(d) => Some(sat_sub(unix_now_ms, d)),
            None => None,
        }
    }

    /// Specification twin of `time_since_last_handshake`.
    pub open spec fn time_since_last_handshake_spec(self, now: u64) -> Option<u64> {
        if self.sessions@[self.spec_current_slot()] is Some && now >= self.timers.at(
            TimerName::TimeSessionEstablished,
        ) {
            Some((now - self.timers.at(TimerName::TimeSessionEstablished)) as u64)
        } else {
            None
        }
    }

    /// The value a timer mark stores: the current time, or one millisecond
    /// when the bank never advanced, so that "never" (zero) stays
    /// distinguishable from "at start".
    pub open spec fn spec_tick_value(s: Tunn) -> u64 {
        if s.timers.current() == 0 {
            1u64
        } else {
            s.timers.current()
        }
    }

    /// The timer slots after one mark. The mark of the last received
    /// packet is never read back, so it stores nothing.
    pub open spec fn spec_tick_seq(s: Tunn, name: TimerName) -> Seq<u64> {
        if name == TimerName::TimeLastPacketReceived {
            s.timers.timers@
        } else {
            s.timers.timers@.update(name.spec_index(), Self::spec_tick_value(s))
        }
    }

    /// The keepalive-wanted flag after one mark: receiving raises it,
    /// sending settles it.
    pub open spec fn spec_tick_want_keepalive(s: Tunn, name: TimerName) -> bool {
        if name == TimerName::TimeLastPacketReceived {
            true
        } else if name == TimerName::TimeLastPacketSent {
            false
        } else {
            s.timers.want_keepalive
        }
    }

    /// Since when data went unanswered, after one mark: receiving clears
    /// it, sending data starts it if not already running.
    pub open spec fn spec_tick_want_handshake_since(s: Tunn, name: TimerName) -> Option<u64> {
        if name == TimerName::TimeLastPacketReceived {
            None
        } else if name == TimerName::TimeLastDataPacketSent {
            match s.timers.want_handshake_since {
                Some(t) => Some(t),
                None => Some(s.timers.current()),
            }
        } else {
            s.timers.want_handshake_since
        }
    }

    /// Record a timer event at the current time.
    pub fn timer_tick(&mut self, timer_name: TimerName)
        requires
            old(self).wf(),
            timer_name != TimerName::Top,
            timer_name != TimerName::TimeCurrent,
        ensures
            final(self).wf(),
            final(self).timers.timers@ == Self::spec_tick_seq(*old(self), timer_name),
            final(self).timers.want_keepalive == Self::spec_tick_want_keepalive(
                *old(self),
                timer_name,
            ),
            final(self).timers.want_handshake_since == Self::spec_tick_want_handshake_since(
                *old(self),
                timer_name,
            ),
            final(self).timers == (Timers {
                timers: final(self).timers.timers,
                want_keepalive: final(self).timers.want_keepalive,
                want_handshake_since: final(self).timers.want_handshake_since,
                ..old(self).timers
            }),
            *final(self) == (Tunn { timers: final(self).timers, ..*old(self) }),
            final(self).timers.current() == old(self).timers.current(),
    {
        let time = self.timers.get(TimerName::TimeCurrent);
        match timer_name {
            TimerName::TimeLastPacketReceived => {
                self.timers.want_keepalive = true;
                self.timers.want_handshake_since = None;
                // This timer is never read
                return ;
            },
            TimerName::TimeLastPacketSent => {
                self.timers.want_keepalive = false;
            },
            TimerName::TimeLastDataPacketSent => {
                if self.timers.want_handshake_since.is_none() {
                    self.timers.want_handshake_since = Some(time);
                }
            },
            _ => {},
        }
        if time == 0 {
            self.timers.set(timer_name, 1);
        } else {
            self.timers.set(timer_name, time);
        }
    }

    /// Record a completed handshake: mark the establishment time, stamp
    /// the session slot, and remember which side initiated.
    pub fn timer_tick_session_established(&mut self, is_initiator: bool, session_idx: usize)
        requires
            old(self).wf(),
        ensures
            final(self).wf(),
            final(self).timers.timers@ == Self::spec_tick_seq(
                *old(self),
                TimerName::TimeSessionEstablished,
            ),
            final(self).timers.session_timers@ == old(self).timers.session_timers@.update(
                (session_idx as int) % (N_SESSIONS as int),
                old(self).timers.current(),
            ),
            final(self).timers.is_initiator == is_initiator,
            final(self).timers == (Timers {
                timers: final(self).timers.timers,
                session_timers: final(self).timers.session_timers,
                is_initiator,
                ..old(self).timers
            }),
            *final(self) == (Tunn { timers: final(self).timers, ..*old(self) }),
            final(self).timers.current() == old(self).timers.current(),
    {
        self.timer_tick(TimerName::TimeSessionEstablished);
        let now = self.timers.get(TimerName::TimeCurrent);
        let slot = session_idx % N_SESSIONS;
        self.timers.session_timers.set(slot, now);
        self.timers.is_initiator = is_initiator;
    }

    /// Is the session in `slot` kept at `now`: present and not past its
    /// reject-after lifetime?
    pub open spec fn spec_session_kept(s: Tunn, now: u64, slot: int) -> bool {
        s.sessions@[slot] is Some && spec_sat_sub(now, s.timers.session_timers@[slot])
            <= REJECT_AFTER_TIME_MS
    }

    /// Clear every session whose establishment lies a reject-after time in
    /// the past, and restamp its slot timer.
    pub fn update_session_timers(&mut self, time_now: u64)
        requires
            old(self).wf(),
            time_now <= old(self).timers.current(),
        ensures
            final(self).wf(),
            forall|i: int|
                0 <= i < N_SESSIONS ==> final(self).sessions@[i] == (if spec_sat_sub(
                    time_now,
                    old(self).timers.session_timers@[i],
                ) > REJECT_AFTER_TIME_MS {
                    None::<Session>
                } else {
                    old(self).sessions@[i]
                }),
            forall|i: int|
                0 <= i < N_SESSIONS ==> final(self).timers.session_timers@[i] == (if spec_sat_sub(
                    time_now,
                    old(self).timers.session_timers@[i],
                ) > REJECT_AFTER_TIME_MS {
                    time_now
                } else {
                    old(self).timers.session_timers@[i]
                }),
            final(self).timers == (Timers {
                session_timers: final(self).timers.session_timers,
                ..old(self).timers
            }),
            *final(self) == (Tunn {
                timers: final(self).timers,
                sessions: final(self).sessions,
                ..*old(self)
            }),
    {
        let mut i: usize = 0;
        while i < N_SESSIONS
            invariant
                i <= N_SESSIONS,
                old(self).wf(),
                self.timers.timers@ == old(self).timers.timers@,
                self.timers.session_timers@.len() == N_SESSIONS,
                self.sessions@.len() == N_SESSIONS,
                forall|j: int|
                    0 <= j < i ==> self.sessions@[j] == (if spec_sat_sub(
                        time_now,
                        old(self).timers.session_timers@[j],
                    ) > REJECT_AFTER_TIME_MS {
                        None::<Session>
                    } else {
                        old(self).sessions@[j]
                    }),
                forall|j: int|
                    0 <= j < i ==> self.timers.session_timers@[j] == (if spec_sat_sub(
                        time_now,
                        old(self).timers.session_timers@[j],
                    ) > REJECT_AFTER_TIME_MS {
                        time_now
                    } else {
                        old(self).timers.session_timers@[j]
                    }),
                forall|j: int| i <= j < N_SESSIONS ==> self.sessions@[j] == old(self).sessions@[j],
                forall|j: int|
                    i <= j < N_SESSIONS ==> self.timers.session_timers@[j] == old(
                        self,
                    ).timers.session_timers@[j],
                self.timers == (Timers {
                    session_timers: self.timers.session_timers,
                    ..old(self).timers
                }),
                *self == (Tunn { timers: self.timers, sessions: self.sessions, ..*old(self) }),
            decreases N_SESSIONS - i,
        {
            let t = self.timers.session_timers[i];
            if sat_sub(time_now, t) > REJECT_AFTER_TIME_MS {
                self.sessions.set(i, None);
                self.timers.session_timers.set(i, time_now);
            }
            i = i + 1;
        }
    }

    /// Forget all sessions and queued packets, and bring every timer to
    /// the present, keeping the reference frame.
    pub fn clear_all(&mut self)
        requires
            old(self).wf(),
        ensures
            final(self).wf(),
            forall|i: int| 0 <= i < N_SESSIONS ==> final(self).sessions@[i] is None,
            final(self).packet_queue_len == 0,
            final(self).timers.timers@ == Seq::new(
                TIMER_COUNT as nat,
                |i: int| old(self).timers.current(),
            ),
            final(self).timers.want_handshake_since is None,
            final(self).timers.want_keepalive == false,
            final(self).timers.session_timers == old(self).timers.session_timers,
            final(self).timers == (Timers {
                timers: final(self).timers.timers,
                want_keepalive: false,
                want_handshake_since: None,
                ..old(self).timers
            }),
            *final(self) == (Tunn {
                timers: final(self).timers,
                sessions: final(self).sessions,
                packet_queue_len: 0,
                ..*old(self)
            }),
            final(self).sessions@.len() == N_SESSIONS,
            final(self).timers.current() == old(self).timers.current(),
    {
        let mut i: usize = 0;
        while i < N_SESSIONS
            invariant
                i <= N_SESSIONS,
                self.sessions@.len() == N_SESSIONS,
                forall|j: int| 0 <= j < i ==> self.sessions@[j] is None,
                *self == (Tunn { sessions: self.sessions, ..*old(self) }),
            decreases N_SESSIONS - i,
        {
            self.sessions.set(i, None);
            i = i + 1;
        }
        self.packet_queue_len = 0;
        self.timers.clear();
    }

    // --- the conditions of the timer discipline, over the state before a
    // pass and the time the pass runs at ---

    /// All ephemeral material is three reject-after lifetimes old.
    pub open spec fn spec_sessions_too_old(s: Tunn, now: u64) -> bool {
        spec_sat_sub(now, s.timers.at(TimerName::TimeSessionEstablished)) >= 3
            * REJECT_AFTER_TIME_MS
    }

    /// The current handshake attempt ran for its whole allowed time.
    pub open spec fn spec_rekey_attempt_exceeded(s: Tunn, now: u64) -> bool {
        spec_sat_sub(now, s.timers.at(TimerName::TimeLastHandshakeStarted))
            >= REKEY_ATTEMPT_TIME_MS
    }

    /// The stored cookie outlived its validity.
    pub open spec fn spec_cookie_expired(s: Tunn, now: u64) -> bool {
        s.has_cookie && spec_sat_sub(now, s.timers.at(TimerName::TimeCookieReceived))
            >= COOKIE_EXPIRATION_TIME_MS
    }

    /// A new handshake initiation is owed at `now`.
    pub open spec fn spec_handshake_required(s: Tunn, now: u64) -> bool {
        let established = s.timers.at(TimerName::TimeSessionEstablished);
        match s.handshake_state {
            HandshakeState::InitSent { sent_at } => {
                ||| Self::spec_sessions_too_old(s, now)
                ||| Self::spec_rekey_attempt_exceeded(s, now)
                ||| spec_sat_sub(now, sent_at) >= REKEY_TIMEOUT_MS
            },
            HandshakeState::Idle => {
                ||| Self::spec_sessions_too_old(s, now)
                ||| (s.timers.is_initiator && established < s.timers.at(
                    TimerName::TimeLastDataPacketSent,
                ) && spec_sat_sub(now, established) >= REKEY_AFTER_TIME_MS)
                ||| (s.timers.is_initiator && established < s.timers.at(
                    TimerName::TimeLastDataPacketReceived,
                ) && spec_sat_sub(now, established) >= REJECT_AFTER_TIME_MS
                    - KEEPALIVE_TIMEOUT_MS - REKEY_TIMEOUT_MS)
                ||| (!Self::spec_sessions_too_old(s, now) && (match s.timers.want_handshake_since {
                    Some(t) => spec_sat_sub(now, t) >= KEEPALIVE_TIMEOUT_MS + REKEY_TIMEOUT_MS,
                    None => false,
                }))
            },
            HandshakeState::Expired => false,
        }
    }

    /// A plain keepalive is owed: the peer spoke last, a keepalive time
    /// passed since we sent anything, and the received data is unanswered.
    pub open spec fn spec_keepalive_due(s: Tunn, now: u64) -> bool {
        &&& s.timers.at(TimerName::TimeLastDataPacketReceived) >= s.timers.at(
            TimerName::TimeLastPacketSent,
        )
        &&& spec_sat_sub(now, s.timers.at(TimerName::TimeLastPacketSent)) >= KEEPALIVE_TIMEOUT_MS
        &&& s.timers.want_keepalive
    }

    /// The persistent keepalive interval elapsed, or no session was ever
    /// (or still is) established while the option is on.
    pub open spec fn spec_persistent_keepalive_due(s: Tunn, now: u64) -> bool {
        &&& s.timers.persistent_keepalive > 0
        &&& (spec_sat_sub(now, s.timers.at(TimerName::TimePersistentKeepalive))
            >= s.timers.persistent_keepalive * 1000 || !Self::spec_session_kept(
            s,
            now,
            s.spec_current_slot(),
        ))
    }

    /// What one pass of the timer discipline at `now` reports, given the
    /// state before the pass: expiry wins, then a due handshake, then a
    /// due keepalive (which itself needs a live session, else it starts a
    /// handshake), else nothing.
    pub open spec fn spec_timer_result(s: Tunn, now: u64) -> Result<TunnWrite, WireGuardError> {
        let pk = s.timers.persistent_keepalive;
        if s.handshake_state is Expired {
            Err(WireGuardError::ConnectionExpired)
        } else if Self::spec_sessions_too_old(s, now) && pk == 0 {
            Err(WireGuardError::ConnectionExpired)
        } else if s.handshake_state is InitSent && Self::spec_rekey_attempt_exceeded(s, now) && pk
            == 0 {
            Err(WireGuardError::ConnectionExpired)
        } else if Self::spec_handshake_required(s, now) {
            Ok(TunnWrite::HandshakeInitiation)
        } else if s.handshake_state is Idle && (Self::spec_keepalive_due(s, now)
            || Self::spec_persistent_keepalive_due(s, now)) {
            match s.sessions@[s.spec_current_slot()] {
                Some(sess) => {
                    if !Self::spec_session_kept(s, now, s.spec_current_slot()) {
                        Ok(TunnWrite::HandshakeInitiation)
                    } else if sess.sending_counter >= REJECT_AFTER_MESSAGES {
                        Err(WireGuardError::InvalidCounter)
                    } else {
                        Ok(
                            TunnWrite::Transport {
                                slot: s.spec_current_slot() as usize,
                                counter: sess.sending_counter,
                                payload_len: 0,
                            },
                        )
                    }
                },
                None => Ok(TunnWrite::HandshakeInitiation),
            }
        } else {
            Ok(TunnWrite::Nothing)
        }
    }

    /// Send a handshake initiation now: a fresh attempt starts the attempt
    /// clock; every send stamps the in-flight time and counts as a sent
    /// packet.
    fn send_handshake_initiation(&mut self)
        requires
            old(self).wf(),
        ensures
            final(self).wf(),
            final(self).handshake_state == (HandshakeState::InitSent {
                sent_at: old(self).timers.current(),
            }),
            final(self).timers.timers@ == (if old(self).handshake_state is InitSent {
                old(self).timers.timers@.update(
                    TimerName::TimeLastPacketSent.spec_index(),
                    Self::spec_tick_value(*old(self)),
                )
            } else {
                old(self).timers.timers@.update(
                    TimerName::TimeLastHandshakeStarted.spec_index(),
                    Self::spec_tick_value(*old(self)),
                ).update(TimerName::TimeLastPacketSent.spec_index(), Self::spec_tick_value(*old(self)))
            }),
            final(self).timers.want_keepalive == false,
            final(self).timers.want_handshake_since == old(self).timers.want_handshake_since,
            final(self).timers == (Timers {
                timers: final(self).timers.timers,
                want_keepalive: false,
                ..old(self).timers
            }),
            *final(self) == (Tunn {
                handshake_state: final(self).handshake_state,
                timers: final(self).timers,
                ..*old(self)
            }),
            final(self).timers.current() == old(self).timers.current(),
    {
        let in_flight = match self.handshake_state {
            HandshakeState::InitSent { .. } => true,
            _ => false,
        };
        if !in_flight {
            self.timer_tick(TimerName::TimeLastHandshakeStarted);
        }
        let now = self.timers.get(TimerName::TimeCurrent);
        self.handshake_state = HandshakeState::InitSent { sent_at: now };
        self.timer_tick(TimerName::TimeLastPacketSent);
    }

    /// What encapsulating a payload yields: a transport packet of the
    /// current session, or — with no session — the packet is queued and a
    /// handshake initiation goes out unless one is already in flight.
    pub open spec fn spec_encapsulate_result(s: Tunn, payload_len: usize) -> Result<
        TunnWrite,
        WireGuardError,
    > {
        match s.sessions@[s.spec_current_slot()] {
            Some(sess) => {
                if sess.sending_counter >= REJECT_AFTER_MESSAGES {
                    Err(WireGuardError::InvalidCounter)
                } else {
                    Ok(
                        TunnWrite::Transport {
                            slot: s.spec_current_slot() as usize,
                            counter: sess.sending_counter,
                            payload_len,
                        },
                    )
                }
            },
            None => {
                if s.handshake_state is Idle {
                    Ok(TunnWrite::HandshakeInitiation)
                } else {
                    Ok(TunnWrite::Nothing)
                }
            },
        }
    }

    /// Encapsulate one outbound plaintext of `payload_len` bytes. An empty
    /// payload is a keepalive and does not count as data sent.
    pub fn encapsulate(&mut self, payload_len: usize) -> (r: Result<TunnWrite, WireGuardError>)
        requires
            old(self).wf(),
        ensures
            final(self).wf(),
            r == Self::spec_encapsulate_result(*old(self), payload_len),
            final(self).timers.current() == old(self).timers.current(),
            final(self).handshake_state is Expired <==> old(self).handshake_state is Expired,
            final(self).current == old(self).current,
            *final(self) == (Tunn {
                sessions: final(self).sessions,
                timers: final(self).timers,
                packet_queue_len: final(self).packet_queue_len,
                handshake_state: final(self).handshake_state,
                tx_bytes: final(self).tx_bytes,
                ..*old(self)
            }),
            (match old(self).sessions@[old(self).spec_current_slot()] {
                Some(sess) => {
                    if sess.sending_counter < REJECT_AFTER_MESSAGES {
                        &&& final(self).sessions@ == old(self).sessions@.update(
                            old(self).spec_current_slot(),
                            Some(
                                Session {
                                    sending_counter: (sess.sending_counter + 1) as u64,
                                    ..sess
                                },
                            ),
                        )
                        &&& final(self).tx_bytes == (if old(self).tx_bytes + payload_len
                            <= u64::MAX {
                            (old(self).tx_bytes + payload_len) as u64
                        } else {
                            u64::MAX
                        })
                        &&& final(self).timers.want_keepalive == false
                        &&& final(self).timers.timers@ == (if payload_len > 0 {
                            old(self).timers.timers@.update(
                                TimerName::TimeLastPacketSent.spec_index(),
                                Self::spec_tick_value(*old(self)),
                            ).update(
                                TimerName::TimeLastDataPacketSent.spec_index(),
                                Self::spec_tick_value(*old(self)),
                            )
                        } else {
                            old(self).timers.timers@.update(
                                TimerName::TimeLastPacketSent.spec_index(),
                                Self::spec_tick_value(*old(self)),
                            )
                        })
                        &&& final(self).handshake_state == old(self).handshake_state
                        &&& final(self).packet_queue_len == old(self).packet_queue_len
                        &&& final(self).timers == (Timers {
                            timers: final(self).timers.timers,
                            want_keepalive: false,
                            want_handshake_since: final(self).timers.want_handshake_since,
                            ..old(self).timers
                        })
                    } else {
                        &&& final(self).sessions@ == old(self).sessions@
                        &&& final(self).timers == old(self).timers
                        &&& final(self).packet_queue_len == old(self).packet_queue_len
                        &&& final(self).tx_bytes == old(self).tx_bytes
                        &&& final(self).handshake_state == old(self).handshake_state
                    }
                },
                None => {
                    &&& final(self).packet_queue_len == (if old(self).packet_queue_len
                        < usize::MAX {
                        old(self).packet_queue_len + 1
                    } else {
                        old(self).packet_queue_len as int
                    })
                    &&& final(self).sessions@ == old(self).sessions@
                    &&& final(self).tx_bytes == old(self).tx_bytes
                    &&& (old(self).handshake_state is Idle ==> final(self).handshake_state
                        == (HandshakeState::InitSent { sent_at: old(self).timers.current() })
                        && final(self).timers.timers@ == old(self).timers.timers@.update(
                        TimerName::TimeLastHandshakeStarted.spec_index(),
                        Self::spec_tick_value(*old(self)),
                    ).update(
                        TimerName::TimeLastPacketSent.spec_index(),
                        Self::spec_tick_value(*old(self)),
                    ) && final(self).timers == (Timers {
                        timers: final(self).timers.timers,
                        want_keepalive: false,
                        ..old(self).timers
                    }))
                    &&& (!(old(self).handshake_state is Idle) ==> final(self).handshake_state
                        == old(self).handshake_state && final(self).timers == old(self).timers)
                },
            }),
    {
        let ghost s0 = *old(self);
        let slot = self.current % N_SESSIONS;
        let mut sess_opt: Option<Session> = self.sessions.remove(slot);
        let ghost popped = sess_opt;
        let mut counter_sent: Option<u64> = None;
        let had_session = sess_opt.is_some();
        match &mut sess_opt {
            Some(s) => {
                if s.sending_counter < REJECT_AFTER_MESSAGES {
                    let counter = s.sending_counter;
                    s.sending_counter = counter + 1;
                    counter_sent = Some(counter);
                }
            },
            None => {},
        }
        self.sessions.insert(slot, sess_opt);
        proof {
            assert(s0.sessions@[slot as int] == popped);
            if counter_sent is Some {
                assert(self.sessions@ =~= s0.sessions@.update(
                    slot as int,
                    Some(
                        Session {
                            sending_counter: (popped->0.sending_counter + 1) as u64,
                            ..popped->0
                        },
                    ),
                ));
            } else {
                assert(self.sessions@ =~= s0.sessions@);
            }
        }
        if had_session {
            match counter_sent {
                Some(counter) => {
                    if self.tx_bytes <= u64::MAX - (payload_len as u64) {
                        self.tx_bytes = self.tx_bytes + (payload_len as u64);
                    } else {
                        self.tx_bytes = u64::MAX;
                    }
                    self.timer_tick(TimerName::TimeLastPacketSent);
                    if payload_len > 0 {
                        self.timer_tick(TimerName::TimeLastDataPacketSent);
                    }
                    Ok(TunnWrite::Transport { slot, counter, payload_len })
                },
                None => Err(WireGuardError::InvalidCounter),
            }
        } else {
            if self.packet_queue_len < usize::MAX {
                self.packet_queue_len = self.packet_queue_len + 1;
            }
            let idle = match self.handshake_state {
                HandshakeState::Idle => true,
                _ => false,
            };
            if idle {
                self.send_handshake_initiation();
                Ok(TunnWrite::HandshakeInitiation)
            } else {
                Ok(TunnWrite::Nothing)
            }
        }
    }
}

impl Tunn {
    /// One pass of the timer discipline at `now` (milliseconds since the
    /// tunnel started; never earlier than the previous pass). Expired
    /// sessions are dropped, a lost or aged handshake gives up or retries,
    /// and due keepalives are emitted, exactly as `spec_timer_result`
    /// orders it.
    #[verifier::rlimit(100)]
    #[verifier::spinoff_prover]
    pub fn update_timers(&mut self, now: u64) -> (r: Result<TunnWrite, WireGuardError>)
        requires
            old(self).wf(),
            now >= old(self).timers.current(),
        ensures
            final(self).wf(),
            final(self).timers.current() == now,
            r == Self::spec_timer_result(*old(self), now),
            // No timer moves backward once the clock has advanced.
            now >= 1 ==> (forall|i: int|
                0 <= i < TIMER_COUNT ==> final(self).timers.timers@[i]
                    >= old(self).timers.timers@[i]),
            // Nor does any session's establishment stamp.
            forall|i: int|
                0 <= i < N_SESSIONS ==> final(self).timers.session_timers@[i] >= old(
                    self,
                ).timers.session_timers@[i],
            // Sessions past their lifetime are gone, and none appears.
            forall|i: int|
                0 <= i < N_SESSIONS ==> (final(self).sessions@[i] is Some
                    ==> old(self).sessions@[i] is Some),
            forall|i: int|
                0 <= i < N_SESSIONS && spec_sat_sub(now, old(self).timers.session_timers@[i])
                    > REJECT_AFTER_TIME_MS ==> final(self).sessions@[i] is None,
            // A connection reported expired is marked expired, with all
            // ephemeral material and queued packets dropped.
            (r == Err::<TunnWrite, WireGuardError>(WireGuardError::ConnectionExpired))
                ==> (final(self).handshake_state is Expired),
            (r == Err::<TunnWrite, WireGuardError>(WireGuardError::ConnectionExpired)
                && !(old(self).handshake_state is Expired)) ==> ((forall|i: int|
                0 <= i < N_SESSIONS ==> final(self).sessions@[i] is None)
                && final(self).packet_queue_len == 0),
            // An emitted initiation is in flight from this moment.
            (r == Ok::<TunnWrite, WireGuardError>(TunnWrite::HandshakeInitiation))
                ==> final(self).handshake_state == (HandshakeState::InitSent { sent_at: now }),
            // The cookie survives exactly until its expiration time.
            !(old(self).handshake_state is Expired) ==> final(self).has_cookie
                == (old(self).has_cookie && !Self::spec_cookie_expired(*old(self), now)),
    {
        let ghost s0 = *old(self);
        let mut handshake_initiation_required = false;
        let mut keepalive_required = false;

        // All times are counted from tunnel initiation.
        self.timers.set(TimerName::TimeCurrent, now);
        self.update_session_timers(now);

        // Load timers only once:
        let session_established = self.timers.get(TimerName::TimeSessionEstablished);
        let handshake_started = self.timers.get(TimerName::TimeLastHandshakeStarted);
        let aut_packet_sent = self.timers.get(TimerName::TimeLastPacketSent);
        let data_packet_received = self.timers.get(TimerName::TimeLastDataPacketReceived);
        let data_packet_sent = self.timers.get(TimerName::TimeLastDataPacketSent);
        let persistent_keepalive = self.timers.persistent_keepalive;

        let expired = match self.handshake_state {
            HandshakeState::Expired => true,
            _ => false,
        };
        if expired {
            return Err(WireGuardError::ConnectionExpired);
        }

        // Clear an outlived cookie.
        if self.has_cookie {
            let cookie_received = self.timers.get(TimerName::TimeCookieReceived);
            if sat_sub(now, cookie_received) >= COOKIE_EXPIRATION_TIME_MS {
                self.has_cookie = false;
            }
        }

        // All ephemeral private keys and symmetric session keys are zeroed
        // out after three reject-after lifetimes with no new exchange.
        if sat_sub(now, session_established) >= 3 * REJECT_AFTER_TIME_MS {
            self.clear_all();
            if persistent_keepalive > 0 {
                handshake_initiation_required = true;
            } else {
                self.handshake_state = HandshakeState::Expired;
                return Err(WireGuardError::ConnectionExpired);
            }
        }

        let in_flight: Option<u64> = match self.handshake_state {
            HandshakeState::InitSent { sent_at } => Some(sent_at),
            _ => None,
        };
        match in_flight {
            Some(time_init_sent) => {
                // Handshake initiation retransmission.
                if sat_sub(now, handshake_started) >= REKEY_ATTEMPT_TIME_MS {
                    // After this much time of trying the retries give up.
                    self.clear_all();
                    if persistent_keepalive > 0 {
                        handshake_initiation_required = true;
                    } else {
                        self.handshake_state = HandshakeState::Expired;
                        return Err(WireGuardError::ConnectionExpired);
                    }
                }
                if sat_sub(now, time_init_sent) >= REKEY_TIMEOUT_MS {
                    // No response arrived in time: retransmit.
                    handshake_initiation_required = true;
                }
            },
            None => {
                if self.timers.is_initiator() {
                    // The original initiator rekeys an aging session it is
                    // actively sending on.
                    if session_established < data_packet_sent && sat_sub(now, session_established)
                        >= REKEY_AFTER_TIME_MS {
                        handshake_initiation_required = true;
                    }
                    // And rekeys early enough before the reject time when
                    // it keeps receiving.
                    if session_established < data_packet_received && sat_sub(
                        now,
                        session_established,
                    ) >= REJECT_AFTER_TIME_MS - KEEPALIVE_TIMEOUT_MS - REKEY_TIMEOUT_MS {
                        handshake_initiation_required = true;
                    }
                }

                // Data sent with nothing heard back for too long demands a
                // new handshake.
                let whs = self.timers.want_handshake_since;
                match whs {
                    Some(since) => {
                        if sat_sub(now, since) >= KEEPALIVE_TIMEOUT_MS + REKEY_TIMEOUT_MS {
                            handshake_initiation_required = true;
                            self.timers.want_handshake_since = None;
                        }
                    },
                    None => {},
                }

                if !handshake_initiation_required {
                    // Received data unanswered for a keepalive time asks
                    // for an empty packet.
                    if data_packet_received >= aut_packet_sent && sat_sub(now, aut_packet_sent)
                        >= KEEPALIVE_TIMEOUT_MS && self.timers.want_keepalive {
                        keepalive_required = true;
                        self.timers.want_keepalive = false;
                    }

                    // Persistent keepalive.
                    if persistent_keepalive > 0 {
                        let t_pk = self.timers.get(TimerName::TimePersistentKeepalive);
                        let slot = self.current % N_SESSIONS;
                        let no_session = self.sessions[slot].is_none();
                        if sat_sub(now, t_pk) >= (persistent_keepalive as u64) * 1000
                            || no_session {
                            self.timer_tick(TimerName::TimePersistentKeepalive);
                            keepalive_required = true;
                        }
                    }
                }
            },
        }

        if handshake_initiation_required {
            self.send_handshake_initiation();
            return Ok(TunnWrite::HandshakeInitiation);
        }

        if keepalive_required {
            return self.encapsulate(0);
        }

        Ok(TunnWrite::Nothing)
    }
}

impl Tunn {
    /// The first session slot holding the given receiver index.
    pub open spec fn spec_find_session_from(s: Tunn, receiver_idx: u32, i: int) -> Option<int>
        decreases N_SESSIONS - i,
    {
        if i < 0 || i >= N_SESSIONS {
            None
        } else if s.sessions@[i] is Some && s.sessions@[i]->0.receiving_index == receiver_idx {
            Some(i)
        } else {
            Self::spec_find_session_from(s, receiver_idx, i + 1)
        }
    }

    pub open spec fn spec_find_session(s: Tunn, receiver_idx: u32) -> Option<int> {
        Self::spec_find_session_from(s, receiver_idx, 0)
    }

    /// What decapsulating one verified transport packet yields: the
    /// session named by the receiver index must exist, the counter must
    /// pass the replay window, and an empty payload is a keepalive.
    pub open spec fn spec_decapsulate_result(
        s: Tunn,
        receiver_idx: u32,
        counter: u64,
        encrypted_len: usize,
    ) -> Result<TunnWrite, WireGuardError> {
        match Self::spec_find_session(s, receiver_idx) {
            Some(i) => {
                if !s.sessions@[i]->0.receiving_counter.accepts(counter) {
                    Err(WireGuardError::DuplicateCounter)
                } else if encrypted_len < 16 {
                    Err(WireGuardError::InvalidPacket)
                } else if encrypted_len == 16 {
                    Ok(TunnWrite::Nothing)
                } else {
                    Ok(TunnWrite::Tunnel { len: (encrypted_len - 16) as usize })
                }
            },
            None => Err(WireGuardError::WrongIndex),
        }
    }

    /// Find the slot of the session with this receiver index.
    fn find_session_slot(&self, receiver_idx: u32) -> (r: Option<usize>)
        requires
            self.wf(),
        ensures
            r == (match Self::spec_find_session(*self, receiver_idx) {
                Some(i) => Some(i as usize),
                None => None::<usize>,
            }),
            (match r {
                Some(i) => {
                    &&& i < N_SESSIONS
                    &&& self.sessions@[i as int] is Some
                    &&& self.sessions@[i as int]->0.receiving_index == receiver_idx
                    &&& Self::spec_find_session(*self, receiver_idx) == Some(i as int)
                },
                None => true,
            }),
    {
        let mut i: usize = 0;
        while i < N_SESSIONS
            invariant
                self.wf(),
                i <= N_SESSIONS,
                Self::spec_find_session(*self, receiver_idx) == Self::spec_find_session_from(
                    *self,
                    receiver_idx,
                    i as int,
                ),
            decreases N_SESSIONS - i,
        {
            let hit = match &self.sessions[i] {
                Some(sess) => sess.receiving_index == receiver_idx,
                None => false,
            };
            if hit {
                return Some(i);
            }
            i = i + 1;
        }
        None
    }

    /// Decapsulate one verified transport packet: locate the session by
    /// its receiver index, hold the counter to the replay window, record
    /// it, and report the plaintext bound for the tunnel device.
    pub fn decapsulate(&mut self, receiver_idx: u32, counter: u64, encrypted_len: usize) -> (r:
        Result<TunnWrite, WireGuardError>)
        requires
            old(self).wf(),
        ensures
            final(self).wf(),
            r == Self::spec_decapsulate_result(*old(self), receiver_idx, counter, encrypted_len),
            final(self).timers.current() == old(self).timers.current(),
            final(self).handshake_state == old(self).handshake_state,
            final(self).current == old(self).current,
            *final(self) == (Tunn {
                sessions: final(self).sessions,
                timers: final(self).timers,
                rx_bytes: final(self).rx_bytes,
                ..*old(self)
            }),
            final(self).timers == (Timers {
                timers: final(self).timers.timers,
                want_keepalive: final(self).timers.want_keepalive,
                want_handshake_since: final(self).timers.want_handshake_since,
                ..old(self).timers
            }),
            r is Err ==> final(self).sessions@ == old(self).sessions@ && final(self).rx_bytes == old(
                self,
            ).rx_bytes,
            r is Ok ==> {
                let i = Self::spec_find_session(*old(self), receiver_idx)->0;
                let sess = old(self).sessions@[i]->0;
                let fsess = final(self).sessions@[i]->0;
                &&& final(self).sessions@[i] is Some
                &&& fsess.receiving_index == sess.receiving_index
                &&& fsess.sending_index == sess.sending_index
                &&& fsess.sending_counter == sess.sending_counter
                &&& fsess.receiving_counter.max_counter == (if counter
                    > sess.receiving_counter.max_counter {
                    counter
                } else {
                    sess.receiving_counter.max_counter
                })
                &&& !fsess.receiving_counter.accepts(counter)
                &&& forall|j: int|
                    0 <= j < N_SESSIONS && j != i ==> final(self).sessions@[j] == old(
                        self,
                    ).sessions@[j]
                &&& final(self).rx_bytes == (if old(self).rx_bytes + (encrypted_len - 16)
                    <= u64::MAX {
                    old(self).rx_bytes + (encrypted_len - 16)
                } else {
                    u64::MAX as int
                })
                &&& final(self).timers.want_keepalive == true
                &&& final(self).timers.want_handshake_since is None
            },
    {
        let slot_opt = self.find_session_slot(receiver_idx);
        let slot = match slot_opt {
            Some(s) => s,
            None => {
                return Err(WireGuardError::WrongIndex);
            },
        };
        let ghost s0 = *old(self);
        proof {
            assert(s0.sessions@[slot as int] is Some);
            assert(s0.sessions@[slot as int]->0.wf());
        }
        let sess_opt: Option<Session> = self.sessions.remove(slot);
        let mut sess: Session = match sess_opt {
            Some(s) => s,
            None => unreached(),
        };
        let check = sess.receiving_counter.will_accept(counter);
        if check.is_err() {
            self.sessions.insert(slot, Some(sess));
            proof {
                assert(self.sessions@ =~= s0.sessions@);
            }
            return Err(WireGuardError::DuplicateCounter);
        }
        if encrypted_len < 16 {
            self.sessions.insert(slot, Some(sess));
            proof {
                assert(self.sessions@ =~= s0.sessions@);
            }
            return Err(WireGuardError::InvalidPacket);
        }
        sess.receiving_counter.mark_did_receive(counter);
        self.sessions.insert(slot, Some(sess));
        proof {
            assert(self.sessions@ =~= s0.sessions@.update(slot as int, self.sessions@[slot as int]));
        }
        let plaintext_len = encrypted_len - 16;
        if self.rx_bytes <= u64::MAX - (plaintext_len as u64) {
            self.rx_bytes = self.rx_bytes + (plaintext_len as u64);
        } else {
            self.rx_bytes = u64::MAX;
        }
        self.timer_tick(TimerName::TimeLastPacketReceived);
        if plaintext_len > 0 {
            self.timer_tick(TimerName::TimeLastDataPacketReceived);
        }
        if plaintext_len == 0 {
            Ok(TunnWrite::Nothing)
        } else {
            Ok(TunnWrite::Tunnel { len: plaintext_len })
        }
    }

    /// Establish a session in the next ring slot, with our receiver index
    /// carrying the peer's table key in its high bits, and note who
    /// initiated.
    fn establish_session(&mut self, is_initiator: bool, peer_index: u32)
        requires
            old(self).wf(),
            old(self).index <= 0xffffff,
        ensures
            final(self).wf(),
            final(self).current == old(self).current.wrapping_add(1),
            final(self).sessions@[final(self).spec_current_slot()] is Some,
            final(self).sessions@[final(self).spec_current_slot()]->0.receiving_index
                == old(self).index * 256 + (final(self).spec_current_slot() as u32),
            final(self).sessions@[final(self).spec_current_slot()]->0.sending_index == peer_index,
            final(self).sessions@[final(self).spec_current_slot()]->0.sending_counter == 0,
            forall|j: int|
                0 <= j < N_SESSIONS && j != final(self).spec_current_slot()
                    ==> final(self).sessions@[j] == old(self).sessions@[j],
            final(self).timers.is_initiator == is_initiator,
            final(self).timers.current() == old(self).timers.current(),
            final(self).handshake_state == old(self).handshake_state,
            final(self).index == old(self).index,
            final(self).packet_queue_len == old(self).packet_queue_len,
    {
        let next = self.current.wrapping_add(1);
        let slot = next % N_SESSIONS;
        let sess = Session {
            receiving_index: self.index * 256 + (slot as u32),
            sending_index: peer_index,
            sending_counter: 0,
            receiving_counter: ReceivingCounterValidator::new(),
        };
        self.sessions.set(slot, Some(sess));
        self.current = next;
        self.timer_tick_session_established(is_initiator, slot);
    }
}

impl Tunn {
    /// The ring slot the next established session will occupy.
    pub open spec fn spec_next_slot(s: Tunn) -> int {
        ((s.current as int) + 1) % (N_SESSIONS as int)
    }

    /// What one verified wire message does to the tunnel: an initiation is
    /// answered with a handshake response from a fresh session; a response
    /// completes our own initiation and confirms the new session with a
    /// keepalive; a cookie reply feeds the next retry; a transport packet
    /// is decapsulated against its session.
    pub open spec fn spec_handle_result(s: Tunn, packet: Packet) -> Result<
        TunnWrite,
        WireGuardError,
    > {
        match packet {
            Packet::HandshakeInit { sender_idx } => Ok(
                TunnWrite::HandshakeResponse { slot: Self::spec_next_slot(s) as usize },
            ),
            Packet::HandshakeResponse { sender_idx, receiver_idx } => {
                if s.handshake_state is InitSent {
                    Ok(
                        TunnWrite::Transport {
                            slot: Self::spec_next_slot(s) as usize,
                            counter: 0,
                            payload_len: 0,
                        },
                    )
                } else {
                    Err(WireGuardError::UnexpectedPacket)
                }
            },
            Packet::PacketCookieReply { receiver_idx } => {
                if s.handshake_state is InitSent {
                    Ok(TunnWrite::Nothing)
                } else {
                    Err(WireGuardError::UnexpectedPacket)
                }
            },
            Packet::PacketData { receiver_idx, counter, encrypted_len } => {
                Self::spec_decapsulate_result(s, receiver_idx, counter, encrypted_len)
            },
        }
    }

    /// Step the tunnel on one verified wire message.
    pub fn handle_verified_packet(&mut self, packet: Packet) -> (r: Result<
        TunnWrite,
        WireGuardError,
    >)
        requires
            old(self).wf(),
        ensures
            final(self).wf(),
            r == Self::spec_handle_result(*old(self), packet),
            final(self).timers.current() == old(self).timers.current(),
            final(self).index == old(self).index,
            (packet is HandshakeInit ==> final(self).sessions@[Self::spec_next_slot(*old(self))]
                is Some && final(self).current == old(self).current.wrapping_add(1)
                && final(self).timers.is_initiator == false),
            (packet is HandshakeResponse && old(self).handshake_state is InitSent
                ==> final(self).sessions@[Self::spec_next_slot(*old(self))] is Some
                && (final(self).handshake_state is Idle) && final(self).timers.is_initiator
                == true),
            (packet is PacketCookieReply && old(self).handshake_state is InitSent
                ==> final(self).has_cookie),
            // A decapsulated transport counter is recorded: its replay
            // window refuses the same counter from then on.
            (match packet {
                Packet::PacketData { receiver_idx, counter, encrypted_len } => (r is Ok ==> {
                    let i = Self::spec_find_session(*old(self), receiver_idx)->0;
                    &&& final(self).sessions@[i] is Some
                    &&& !final(self).sessions@[i]->0.receiving_counter.accepts(counter)
                }),
                _ => true,
            }),
    {
        match packet {
            Packet::HandshakeInit { sender_idx } => {
                // We are the responder: a fresh session answers it.
                self.timer_tick(TimerName::TimeLastPacketReceived);
                self.establish_session(false, sender_idx);
                let slot = self.current % N_SESSIONS;
                self.timer_tick(TimerName::TimeLastPacketSent);
                Ok(TunnWrite::HandshakeResponse { slot })
            },
            Packet::HandshakeResponse { sender_idx, receiver_idx } => {
                let in_flight = match self.handshake_state {
                    HandshakeState::InitSent { .. } => true,
                    _ => false,
                };
                if !in_flight {
                    return Err(WireGuardError::UnexpectedPacket);
                }
                self.timer_tick(TimerName::TimeLastPacketReceived);
                self.establish_session(true, sender_idx);
                self.handshake_state = HandshakeState::Idle;
                // Confirm the session towards the peer at once.
                self.encapsulate(0)
            },
            Packet::PacketCookieReply { receiver_idx } => {
                let in_flight = match self.handshake_state {
                    HandshakeState::InitSent { .. } => true,
                    _ => false,
                };
                if !in_flight {
                    return Err(WireGuardError::UnexpectedPacket);
                }
                self.has_cookie = true;
                self.timer_tick(TimerName::TimeCookieReceived);
                Ok(TunnWrite::Nothing)
            },
            Packet::PacketData { receiver_idx, counter, encrypted_len } => {
                self.decapsulate(receiver_idx, counter, encrypted_len)
            },
        }
    }

    /// What flushing one queued packet yields.
    pub open spec fn spec_flush_result(s: Tunn) -> Result<TunnWrite, WireGuardError> {
        if s.packet_queue_len > 0 && s.sessions@[s.spec_current_slot()] is Some {
            Self::spec_encapsulate_result(s, 0)
        } else {
            Ok(TunnWrite::Nothing)
        }
    }

    /// Send one packet queued while no session was up; called repeatedly
    /// after a state advance until nothing is left to write.
    pub fn flush_queued(&mut self) -> (r: Result<TunnWrite, WireGuardError>)
        requires
            old(self).wf(),
        ensures
            final(self).wf(),
            r == Self::spec_flush_result(*old(self)),
            final(self).timers.current() == old(self).timers.current(),
            final(self).packet_queue_len <= old(self).packet_queue_len,
            (old(self).packet_queue_len > 0 && old(self).sessions@[old(self).spec_current_slot()]
                is Some) ==> final(self).packet_queue_len == old(self).packet_queue_len - 1,
            !(old(self).packet_queue_len > 0 && old(self).sessions@[old(self).spec_current_slot()]
                is Some) ==> *final(self) == *old(self),
    {
        if self.packet_queue_len == 0 {
            return Ok(TunnWrite::Nothing);
        }
        let slot = self.current % N_SESSIONS;
        if self.sessions[slot].is_none() {
            return Ok(TunnWrite::Nothing);
        }
        self.packet_queue_len = self.packet_queue_len - 1;
        self.encapsulate(0)
    }
}

} // verus!
