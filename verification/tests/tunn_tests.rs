use neptun::errors::WireGuardError;
use neptun::packets::Packet;
use neptun::timers::TimerName;
use neptun::tunn::{HandshakeState, Tunn, TunnWrite};

fn fresh_tunn(keepalive: Option<u16>) -> Tunn {
    Tunn::new([1u8; 32], [2u8; 32], [3u8; 32], None, keepalive, 1, false)
}

#[test]
fn session_expiry_after_nine_minutes_of_silence() {
    // with a simulated clock and no traffic, the tunnel expires and every
    // session is cleared
    let mut t = fresh_tunn(None);
    let r = t.update_timers(540_000);
    assert_eq!(r, Err(WireGuardError::ConnectionExpired));
    assert!(matches!(t.handshake_state, HandshakeState::Expired));
    for s in 0..4 {
        assert!(t.sessions[s].is_none());
    }
    // and it stays expired on the next tick
    assert_eq!(t.update_timers(540_250), Err(WireGuardError::ConnectionExpired));
}

#[test]
fn persistent_keepalive_starts_the_first_handshake() {
    // a tunnel with persistent keepalive and no session ever sends a
    // handshake initiation on its first timer pass
    let mut t = fresh_tunn(Some(25));
    let r = t.update_timers(250);
    assert_eq!(r, Ok(TunnWrite::HandshakeInitiation));
    assert!(matches!(t.handshake_state, HandshakeState::InitSent { sent_at: 250 }));
}

#[test]
fn handshake_response_completes_the_handshake() {
    let mut t = fresh_tunn(Some(25));
    assert_eq!(t.update_timers(250), Ok(TunnWrite::HandshakeInitiation));
    // the peer's response establishes a session and a confirming keepalive
    // goes out at once
    let r = t.handle_verified_packet(Packet::HandshakeResponse {
        sender_idx: 0x0500,
        receiver_idx: 0x0100,
    });
    assert_eq!(r, Ok(TunnWrite::Transport { slot: 1, counter: 0, payload_len: 0 }));
    assert!(matches!(t.handshake_state, HandshakeState::Idle));
    assert_eq!(t.time_since_last_handshake(500), Some(250));
    assert!(t.time_since_last_handshake(500).unwrap() <= 1000);
}

#[test]
fn timers_never_run_backward_across_ticks() {
    let mut t = fresh_tunn(Some(25));
    let mut previous = vec![0u64; 9];
    let mut now = 0u64;
    for _ in 0..40 {
        now += 250;
        let _ = t.update_timers(now);
        for k in 0..9 {
            assert!(t.timers.timers[k] >= previous[k], "a timer moved backward");
            previous[k] = t.timers.timers[k];
        }
    }
}

#[test]
fn retransmission_after_rekey_timeout() {
    let mut t = fresh_tunn(Some(25));
    assert_eq!(t.update_timers(250), Ok(TunnWrite::HandshakeInitiation));
    // well before the rekey timeout nothing is resent
    assert_eq!(t.update_timers(3_000), Ok(TunnWrite::Nothing));
    // five seconds after the send the initiation is retransmitted
    assert_eq!(t.update_timers(5_250), Ok(TunnWrite::HandshakeInitiation));
}

#[test]
fn rekey_attempt_time_gives_up_without_keepalive() {
    let mut t = fresh_tunn(None);
    t.encapsulate(100).unwrap(); // queue a packet, send the initiation
    assert!(matches!(t.handshake_state, HandshakeState::InitSent { .. }));
    // after the whole attempt time with no answer the tunnel expires
    let r = t.update_timers(91_000);
    assert_eq!(r, Err(WireGuardError::ConnectionExpired));
}

#[test]
fn keepalive_after_unanswered_data() {
    let mut t = fresh_tunn(None);
    // a completed handshake (we initiated) with a live session
    t.handshake_state = HandshakeState::InitSent { sent_at: 0 };
    let _ = t.update_timers(250);
    t.handle_verified_packet(Packet::HandshakeResponse { sender_idx: 5, receiver_idx: 0x0100 })
        .unwrap();
    // receive data without answering
    let _ = t.update_timers(500);
    let slot = t.current % 4;
    let rx_idx = t.sessions[slot].as_ref().unwrap().receiving_index;
    let r = t.handle_verified_packet(Packet::PacketData {
        receiver_idx: rx_idx,
        counter: 0,
        encrypted_len: 64,
    });
    assert_eq!(r, Ok(TunnWrite::Tunnel { len: 48 }));
    // ten seconds later an empty packet is owed
    let r = t.update_timers(11_000);
    match r {
        Ok(TunnWrite::Transport { payload_len, .. }) => assert_eq!(payload_len, 0),
        other => panic!("expected a keepalive, got {:?}", other),
    }
}

#[test]
fn replayed_transport_packet_is_dropped() {
    let mut t = fresh_tunn(None);
    t.handshake_state = HandshakeState::InitSent { sent_at: 0 };
    t.handle_verified_packet(Packet::HandshakeResponse { sender_idx: 5, receiver_idx: 0x0100 })
        .unwrap();
    let slot = t.current % 4;
    let rx_idx = t.sessions[slot].as_ref().unwrap().receiving_index;
    let data = |c: u64| Packet::PacketData { receiver_idx: rx_idx, counter: c, encrypted_len: 64 };
    assert_eq!(t.handle_verified_packet(data(4)), Ok(TunnWrite::Tunnel { len: 48 }));
    assert_eq!(t.handle_verified_packet(data(4)), Err(WireGuardError::DuplicateCounter));
    assert_eq!(t.handle_verified_packet(data(3)), Ok(TunnWrite::Tunnel { len: 48 }));
    // unknown receiver index
    assert_eq!(
        t.handle_verified_packet(data(5000) /* counter fine */),
        Ok(TunnWrite::Tunnel { len: 48 })
    );
    assert_eq!(
        t.handle_verified_packet(Packet::PacketData {
            receiver_idx: 0xFFFF_FFFF,
            counter: 9,
            encrypted_len: 64
        }),
        Err(WireGuardError::WrongIndex)
    );
}

#[test]
fn queued_packets_flush_after_the_handshake() {
    let mut t = fresh_tunn(None);
    assert_eq!(t.encapsulate(100), Ok(TunnWrite::HandshakeInitiation));
    assert_eq!(t.encapsulate(200), Ok(TunnWrite::Nothing)); // queued, init in flight
    assert_eq!(t.packet_queue_len, 2);
    t.handle_verified_packet(Packet::HandshakeResponse { sender_idx: 5, receiver_idx: 0x0100 })
        .unwrap();
    assert!(matches!(t.flush_queued(), Ok(TunnWrite::Transport { .. })));
    assert!(matches!(t.flush_queued(), Ok(TunnWrite::Transport { .. })));
    assert_eq!(t.flush_queued(), Ok(TunnWrite::Nothing));
    assert_eq!(t.packet_queue_len, 0);
}

#[test]
fn responder_answers_an_initiation() {
    let mut t = fresh_tunn(None);
    let r = t.handle_verified_packet(Packet::HandshakeInit { sender_idx: 0xABC });
    assert_eq!(r, Ok(TunnWrite::HandshakeResponse { slot: 1 }));
    let slot = t.current % 4;
    let sess = t.sessions[slot].as_ref().unwrap();
    assert_eq!(sess.sending_index, 0xABC);
    assert_eq!(sess.receiving_index, (1 << 8) | 1);
    assert!(!t.timers.is_initiator);
}

#[test]
fn cookie_reply_is_stored_and_expires() {
    let mut t = fresh_tunn(Some(25));
    assert_eq!(t.update_timers(250), Ok(TunnWrite::HandshakeInitiation));
    assert_eq!(
        t.handle_verified_packet(Packet::PacketCookieReply { receiver_idx: 0x0100 }),
        Ok(TunnWrite::Nothing)
    );
    assert!(t.has_cookie);
    // two minutes later the cookie is gone
    let _ = t.update_timers(125_000);
    assert!(!t.has_cookie);
}

#[test]
fn tunnel_state_getters() {
    let mut t = fresh_tunn(Some(25));
    assert_eq!(t.persistent_keepalive(), Some(25));
    t.set_persistent_keepalive(0);
    assert_eq!(t.persistent_keepalive(), None);
    assert_eq!(t.peer_static_public(), [3u8; 32]);
    assert_eq!(t.stats(), (0, 0));
    assert_eq!(t.time_since_last_handshake(1_000), None);
    assert_eq!(t.last_handshake_time(1_000, 1_700_000_000_000), None);
    t.set_preshared_key(Some([9u8; 32]));
    assert_eq!(t.preshared_key, Some([9u8; 32]));
}

#[test]
fn timer_marks_use_the_current_time() {
    let mut t = fresh_tunn(None);
    let _ = t.update_timers(250);
    t.timer_tick(TimerName::TimeLastPacketSent);
    assert_eq!(t.timers.timers[TimerName::TimeLastPacketSent.index()], 250);
    t.timer_tick(TimerName::TimeLastPacketReceived);
    assert!(t.timers.want_keepalive);
}

#[test]
fn two_tunnels_round_trip_a_packet() {
    // Device A initiates towards device B; after the handshake the
    // transport indices of the two sides line up, and a packet pushed
    // through A's tunnel comes out of B's with its full payload length.
    let mut a = Tunn::new([1u8; 32], [2u8; 32], [4u8; 32], None, None, 1, false);
    let mut b = Tunn::new([3u8; 32], [4u8; 32], [2u8; 32], None, None, 2, false);

    assert_eq!(a.encapsulate(0), Ok(TunnWrite::HandshakeInitiation));
    let a_sender_idx = {
        // the initiation will carry A's index for the session B creates;
        // B answers from a fresh session of its own
        match b.handle_verified_packet(Packet::HandshakeInit { sender_idx: 0x0101 }) {
            Ok(TunnWrite::HandshakeResponse { slot }) => {
                b.sessions[slot].as_ref().unwrap().receiving_index
            }
            other => panic!("expected a handshake response, got {:?}", other),
        }
    };
    let confirm = a
        .handle_verified_packet(Packet::HandshakeResponse {
            sender_idx: a_sender_idx,
            receiver_idx: 0x0101,
        })
        .unwrap();
    assert!(matches!(confirm, TunnWrite::Transport { .. }));

    // A sends one hundred plaintext bytes.
    let (counter, payload_len) = match a.encapsulate(100) {
        Ok(TunnWrite::Transport { counter, payload_len, .. }) => (counter, payload_len),
        other => panic!("expected a transport packet, got {:?}", other),
    };
    let a_slot = a.current % 4;
    let wire_receiver = a.sessions[a_slot].as_ref().unwrap().sending_index;
    assert_eq!(wire_receiver, a_sender_idx);

    // B decapsulates it: the tunnel write carries the same length.
    let r = b.handle_verified_packet(Packet::PacketData {
        receiver_idx: wire_receiver,
        counter,
        encrypted_len: payload_len + 16,
    });
    assert_eq!(r, Ok(TunnWrite::Tunnel { len: 100 }));
    assert_eq!(b.rx_bytes, 100);
    assert_eq!(a.tx_bytes, 100);
}

#[test]
fn one_session_walks_the_timer_boundaries_in_order() {
    // One session, simulated clock: established once, keepalive due once
    // after unanswered received data, rekey due once at its boundary, and
    // finally rejected when the session outlives its lifetime.
    let mut t = fresh_tunn(None);
    t.handshake_state = HandshakeState::InitSent { sent_at: 0 };
    assert_eq!(t.update_timers(250), Ok(TunnWrite::Nothing));
    t.handle_verified_packet(Packet::HandshakeResponse { sender_idx: 5, receiver_idx: 0x0100 })
        .unwrap();
    let slot = t.current % 4;
    assert!(t.sessions[slot].is_some()); // established
    let rx_idx = t.sessions[slot].as_ref().unwrap().receiving_index;

    // data arrives and goes unanswered for a keepalive time
    let _ = t.update_timers(500);
    t.handle_verified_packet(Packet::PacketData { receiver_idx: rx_idx, counter: 0, encrypted_len: 64 })
        .unwrap();
    assert!(matches!(t.update_timers(10_750), Ok(TunnWrite::Transport { payload_len: 0, .. })));
    // the keepalive want was consumed: not due twice
    assert_eq!(t.update_timers(11_000), Ok(TunnWrite::Nothing));

    // we send data and the peer answers, so only the rekey boundary is left
    t.encapsulate(100).unwrap();
    t.handle_verified_packet(Packet::PacketData { receiver_idx: rx_idx, counter: 1, encrypted_len: 64 })
        .unwrap();
    // the answered data re-armed the keepalive want; it fires once more
    assert!(matches!(t.update_timers(119_750), Ok(TunnWrite::Transport { payload_len: 0, .. })));
    // REKEY_AFTER since establishment: the initiator rekeys, exactly once
    assert_eq!(t.update_timers(120_250), Ok(TunnWrite::HandshakeInitiation));
    assert_eq!(t.update_timers(120_500), Ok(TunnWrite::Nothing));

    // REJECT_AFTER since establishment: the session is rejected
    let _ = t.update_timers(180_500);
    assert!(t.sessions[slot].is_none());
}

#[test]
fn handshake_age_is_none_before_the_stamp() {
    // a session stamped ahead of the asked-for time has no age yet
    let mut t = fresh_tunn(None);
    t.handshake_state = HandshakeState::InitSent { sent_at: 0 };
    let _ = t.update_timers(250);
    t.handle_verified_packet(Packet::HandshakeResponse { sender_idx: 5, receiver_idx: 0x0100 })
        .unwrap();
    // established at 250: asking at 100 underflows, asking at 250 is zero
    assert_eq!(t.time_since_last_handshake(100), None);
    assert_eq!(t.time_since_last_handshake(250), Some(0));
}
