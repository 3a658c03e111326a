//! Per-tunnel timer bank. All times are milliseconds relative to the
//! tunnel's start; the caller supplies the current time, which must never
//! move backwards.

use vstd::prelude::*;

verus! {

// Timer constants, in milliseconds.
// https://www.wireguard.com/papers/wireguard.pdf#page=14
pub const REKEY_AFTER_TIME_MS: u64 = 120_000;
pub const REJECT_AFTER_TIME_MS: u64 = 180_000;
pub const REKEY_ATTEMPT_TIME_MS: u64 = 90_000;
pub const REKEY_TIMEOUT_MS: u64 = 5_000;
pub const KEEPALIVE_TIMEOUT_MS: u64 = 10_000;
pub const COOKIE_EXPIRATION_TIME_MS: u64 = 120_000;

/// How many transport sessions a tunnel keeps at once (current + previous).
pub const N_SESSIONS: usize = 4;

/// Number of stored timers (every `TimerName` below `Top`).
pub const TIMER_COUNT: usize = 9;

/// Durations between timer marks never underflow: a mark that lies ahead
/// of the clock (the one-millisecond stamp of a never-advanced bank)
/// yields an age of zero.
pub open spec fn spec_sat_sub(a: u64, b: u64) -> u64 {
    if a >= b {
        (a - b) as u64
    } else {
        0
    }
}

pub fn sat_sub(a: u64, b: u64) -> (r: u64)
    ensures
        r == spec_sat_sub(a, b),
{
    if a >= b {
        a - b
    } else {
        0
    }
}

#[derive(Debug, Clone, Copy, PartialEq, Eq, Structural)]
pub enum TimerName {
    /// Current time, updated each call to `update_timers`
    TimeCurrent,
    /// Time when last handshake was completed
    TimeSessionEstablished,
    /// Time the last attempt for a new handshake began
    TimeLastHandshakeStarted,
    /// Time we last received and authenticated a packet
    TimeLastPacketReceived,
    /// Time we last send a packet
    TimeLastPacketSent,
    /// Time we last received and authenticated a DATA packet
    TimeLastDataPacketReceived,
    /// Time we last send a DATA packet
    TimeLastDataPacketSent,
    /// Time we last received a cookie
    TimeCookieReceived,
    /// Time we last sent persistent keepalive
    TimePersistentKeepalive,
    Top,
}

impl TimerName {
    /// Slot of this timer in the bank.
    pub open spec fn spec_index(self) -> int {
        match self {
            TimerName::TimeCurrent => 0,
            TimerName::TimeSessionEstablished => 1,
            TimerName::TimeLastHandshakeStarted => 2,
            TimerName::TimeLastPacketReceived => 3,
            TimerName::TimeLastPacketSent => 4,
            TimerName::TimeLastDataPacketReceived => 5,
            TimerName::TimeLastDataPacketSent => 6,
            TimerName::TimeCookieReceived => 7,
            TimerName::TimePersistentKeepalive => 8,
            TimerName::Top => 9,
        }
    }

    pub fn index(self) -> (r: usize)
        ensures
            r == self.spec_index(),
    {
        match self {
            TimerName::TimeCurrent => 0,
            TimerName::TimeSessionEstablished => 1,
            TimerName::TimeLastHandshakeStarted => 2,
            TimerName::TimeLastPacketReceived => 3,
            TimerName::TimeLastPacketSent => 4,
            TimerName::TimeLastDataPacketReceived => 5,
            TimerName::TimeLastDataPacketSent => 6,
            TimerName::TimeCookieReceived => 7,
            TimerName::TimePersistentKeepalive => 8,
            TimerName::Top => 9,
        }
    }
}

/// The timer bank of one tunnel.
#[derive(Debug)]
pub struct Timers {
    /// Is the owner of the timer the initiator or the responder for the
    /// last handshake?
    pub is_initiator: bool,
    /// The stored timers, one slot per `TimerName` below `Top`.
    pub timers: Vec<u64>,
    /// Establishment time of each session slot.
    pub session_timers: Vec<u64>,
    /// Did we receive data without sending anything back?
    pub want_keepalive: bool,
    /// Since when did we send data without hearing back?
    pub want_handshake_since: Option<u64>,
    /// Persistent keepalive interval in seconds; zero when disabled.
    pub persistent_keepalive: usize,
    /// Should the owner of this timer bank reset the rate limiter (set
    /// when the limiter is not a shared instance)?
    pub should_reset_rr: bool,
}

impl Timers {
    pub open spec fn wf(self) -> bool {
        &&& self.timers@.len() == TIMER_COUNT
        &&& self.session_timers@.len() == N_SESSIONS
        &&& self.persistent_keepalive <= u16::MAX
        &&& forall|i: int|
            0 <= i < TIMER_COUNT ==> (self.timers@[i] <= self.current() || self.timers@[i] == 1)
        &&& forall|i: int| 0 <= i < N_SESSIONS ==> self.session_timers@[i] <= self.current()
    }

    /// The time of the latest `update_timers` call.
    pub open spec fn current(self) -> u64 {
        self.timers@[TimerName::TimeCurrent.spec_index()]
    }

    pub open spec fn at(self, name: TimerName) -> u64 {
        self.timers@[name.spec_index()]
    }

    pub fn new(persistent_keepalive: Option<u16>, reset_rr: bool) -> (r: Timers)
        ensures
            r.wf(),
            r.is_initiator == false,
            r.timers@ == Seq::new(TIMER_COUNT as nat, |i: int| 0u64),
            r.session_timers@ == Seq::new(N_SESSIONS as nat, |i: int| 0u64),
            r.want_keepalive == false,
            r.want_handshake_since is None,
            r.persistent_keepalive == match persistent_keepalive {
                Some(k) => k as usize,
                None => 0usize,
            },
            r.should_reset_rr == reset_rr,
    {
        let mut timers: Vec<u64> = Vec::new();
        let mut i: usize = 0;
        while i < TIMER_COUNT
            invariant
                i <= TIMER_COUNT,
                timers@.len() == i,
                forall|j: int| 0 <= j < i ==> timers@[j] == 0u64,
            decreases TIMER_COUNT - i,
        {
            timers.push(0);
            i = i + 1;
        }
        let mut session_timers: Vec<u64> = Vec::new();
        let mut j: usize = 0;
        while j < N_SESSIONS
            invariant
                j <= N_SESSIONS,
                session_timers@.len() == j,
                forall|k: int| 0 <= k < j ==> session_timers@[k] == 0u64,
            decreases N_SESSIONS - j,
        {
            session_timers.push(0);
            j = j + 1;
        }
        let pk: usize = match persistent_keepalive {
            Some(k) => k as usize,
            None => 0,
        };
        let r = Timers {
            is_initiator: false,
            timers,
            session_timers,
            want_keepalive: false,
            want_handshake_since: None,
            persistent_keepalive: pk,
            should_reset_rr: reset_rr,
        };
        proof {
            assert(r.timers@ =~= Seq::new(TIMER_COUNT as nat, |i: int| 0u64));
            assert(r.session_timers@ =~= Seq::new(N_SESSIONS as nat, |i: int| 0u64));
        }
        r
    }

    pub fn is_initiator(&self) -> (r: bool)
        ensures
            r == self.is_initiator,
    {
        self.is_initiator
    }

    pub fn get(&self, name: TimerName) -> (r: u64)
        requires
            self.wf(),
            name != TimerName::Top,
        ensures
            r == self.at(name),
    {
        let idx = name.index();
        self.timers[idx]
    }

    pub fn set(&mut self, name: TimerName, value: u64)
        requires
            old(self).wf(),
            name != TimerName::Top,
            (if name == TimerName::TimeCurrent {
                value >= old(self).current()
            } else {
                value <= old(self).current() || value == 1
            }),
        ensures
            final(self).wf(),
            final(self).timers@ == old(self).timers@.update(name.spec_index(), value),
            *final(self) == (Timers { timers: final(self).timers, ..*old(self) }),
    {
        let idx = name.index();
        self.timers.set(idx, value);
    }

    /// The timers are not really cleared: they are all set to the present
    /// time, so the reference frame stays the same.
    pub fn clear(&mut self)
        requires
            old(self).wf(),
        ensures
            final(self).wf(),
            final(self).timers@ == Seq::new(TIMER_COUNT as nat, |i: int| old(self).current()),
            final(self).want_handshake_since is None,
            final(self).want_keepalive == false,
            final(self).session_timers == old(self).session_timers,
            final(self).is_initiator == old(self).is_initiator,
            final(self).persistent_keepalive == old(self).persistent_keepalive,
            final(self).should_reset_rr == old(self).should_reset_rr,
            final(self).current() == old(self).current(),
    {
        let now = self.get(TimerName::TimeCurrent);
        let mut i: usize = 0;
        while i < TIMER_COUNT
            invariant
                i <= TIMER_COUNT,
                self.timers@.len() == TIMER_COUNT,
                forall|j: int| 0 <= j < i ==> self.timers@[j] == now,
                forall|j: int| i <= j < TIMER_COUNT ==> self.timers@[j] == old(self).timers@[j],
                self.session_timers == old(self).session_timers,
                self.is_initiator == old(self).is_initiator,
                self.want_keepalive == old(self).want_keepalive,
                self.want_handshake_since == old(self).want_handshake_since,
                self.persistent_keepalive == old(self).persistent_keepalive,
                self.should_reset_rr == old(self).should_reset_rr,
            decreases TIMER_COUNT - i,
        {
            self.timers.set(i, now);
            i = i + 1;
        }
        self.want_handshake_since = None;
        self.want_keepalive = false;
        proof {
            assert(self.timers@ =~= Seq::new(TIMER_COUNT as nat, |i: int| old(self).current()));
        }
    }
}

} // verus!
