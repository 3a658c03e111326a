use neptun::errors::WireGuardError;
use neptun::ip::IpAddress;
use neptun::packets::Packet;
use neptun::rate_limiter::{RateLimiter, RateLimiterVerdict};

fn init_packet() -> Packet {
    Packet::HandshakeInit { sender_idx: 77 }
}

#[test]
fn hundred_and_first_init_draws_a_cookie() {
    // with the threshold at 100, packets 1..=100 pass, the 101st draws
    // exactly one cookie reply
    let mut rl = RateLimiter::new(&[7u8; 32], 100);
    let src = IpAddress::V4(0x7F000001);
    let mut cookies = 0;
    for n in 1..=101u32 {
        match rl.verify_packet(Some(src), init_packet(), true, false) {
            RateLimiterVerdict::Allowed(_) => assert!(n <= 100),
            RateLimiterVerdict::SendCookieReply => {
                cookies += 1;
                assert_eq!(n, 101);
            }
            RateLimiterVerdict::Refused(_) => panic!("unexpected refusal"),
        }
    }
    assert_eq!(cookies, 1);
}

#[test]
fn reset_admits_initiations_again() {
    let mut rl = RateLimiter::new(&[7u8; 32], 2);
    let src = IpAddress::V4(1);
    for _ in 0..2 {
        assert!(matches!(
            rl.verify_packet(Some(src), init_packet(), true, false),
            RateLimiterVerdict::Allowed(_)
        ));
    }
    assert!(matches!(
        rl.verify_packet(Some(src), init_packet(), true, false),
        RateLimiterVerdict::SendCookieReply
    ));
    rl.reset_count();
    assert!(matches!(
        rl.verify_packet(Some(src), init_packet(), true, false),
        RateLimiterVerdict::Allowed(_)
    ));
}

#[test]
fn valid_second_mac_bypasses_the_cookie() {
    let mut rl = RateLimiter::new(&[7u8; 32], 0);
    let src = IpAddress::V4(1);
    assert!(matches!(
        rl.verify_packet(Some(src), init_packet(), true, true),
        RateLimiterVerdict::Allowed(_)
    ));
}

#[test]
fn bad_first_mac_is_refused() {
    let mut rl = RateLimiter::new(&[7u8; 32], 100);
    assert_eq!(
        rl.verify_packet(Some(IpAddress::V4(1)), init_packet(), false, false),
        RateLimiterVerdict::Refused(WireGuardError::InvalidMac)
    );
}

#[test]
fn under_load_without_source_is_refused() {
    let mut rl = RateLimiter::new(&[7u8; 32], 0);
    assert_eq!(
        rl.verify_packet(None, init_packet(), true, false),
        RateLimiterVerdict::Refused(WireGuardError::UnderLoad)
    );
}
