use neptun::errors::WireGuardError;
use neptun::ip::IpAddress;
use neptun::packets::{
    dst_address, parse_incoming_packet, peer_of_idx, Packet, COOKIE_REPLY_SZ, HANDSHAKE_INIT_SZ,
    HANDSHAKE_RESP_SZ,
};
use neptun::xray::extract_send_index;

fn with_kind_and_len(kind: u8, len: usize) -> Vec<u8> {
    let mut v = vec![0u8; len];
    v[0] = kind;
    v
}

#[test]
fn classify_handshake_init() {
    let mut p = with_kind_and_len(1, HANDSHAKE_INIT_SZ);
    p[4..8].copy_from_slice(&0x00AABB01u32.to_le_bytes());
    assert_eq!(
        parse_incoming_packet(&p),
        Ok(Packet::HandshakeInit { sender_idx: 0x00AABB01 })
    );
}

#[test]
fn classify_handshake_response() {
    let mut p = with_kind_and_len(2, HANDSHAKE_RESP_SZ);
    p[4..8].copy_from_slice(&7u32.to_le_bytes());
    p[8..12].copy_from_slice(&0x01020304u32.to_le_bytes());
    assert_eq!(
        parse_incoming_packet(&p),
        Ok(Packet::HandshakeResponse { sender_idx: 7, receiver_idx: 0x01020304 })
    );
}

#[test]
fn classify_cookie_reply() {
    let mut p = with_kind_and_len(3, COOKIE_REPLY_SZ);
    p[4..8].copy_from_slice(&0xBEEF00u32.to_le_bytes());
    assert_eq!(
        parse_incoming_packet(&p),
        Ok(Packet::PacketCookieReply { receiver_idx: 0xBEEF00 })
    );
}

#[test]
fn classify_data_packet() {
    let mut p = with_kind_and_len(4, 96);
    p[4..8].copy_from_slice(&0x11223344u32.to_le_bytes());
    p[8..16].copy_from_slice(&99u64.to_le_bytes());
    assert_eq!(
        parse_incoming_packet(&p),
        Ok(Packet::PacketData { receiver_idx: 0x11223344, counter: 99, encrypted_len: 80 })
    );
}

#[test]
fn wrong_lengths_are_refused() {
    assert_eq!(
        parse_incoming_packet(&with_kind_and_len(1, 147)),
        Err(WireGuardError::IncorrectPacketLength)
    );
    assert_eq!(
        parse_incoming_packet(&with_kind_and_len(4, 31)),
        Err(WireGuardError::IncorrectPacketLength)
    );
    assert_eq!(parse_incoming_packet(&[1, 2]), Err(WireGuardError::InvalidPacket));
    assert_eq!(
        parse_incoming_packet(&with_kind_and_len(9, 64)),
        Err(WireGuardError::InvalidPacket)
    );
}

#[test]
fn receiver_index_names_the_peer() {
    // the table key is the receiver index shifted right by eight
    assert_eq!(peer_of_idx(0x12345678), 0x123456);
    assert_eq!(peer_of_idx(0x000000FF), 0);
}

#[test]
fn destination_of_v4_header() {
    let mut p = vec![0u8; 20];
    p[0] = 0x45;
    p[16..20].copy_from_slice(&[10, 1, 2, 3]);
    assert_eq!(dst_address(&p), Some(IpAddress::V4(0x0A010203)));
}

#[test]
fn destination_of_v6_header() {
    let mut p = vec![0u8; 40];
    p[0] = 0x60;
    p[24] = 0x20;
    p[25] = 0x01;
    p[39] = 0x01;
    let expected: u128 = 0x2001_0000_0000_0000_0000_0000_0000_0001;
    assert_eq!(dst_address(&p), Some(IpAddress::V6(expected)));
}

#[test]
fn short_or_unversioned_headers_have_no_destination() {
    assert_eq!(dst_address(&[0x45u8; 12]), None);
    let mut p = vec![0u8; 20];
    p[0] = 0x30;
    assert_eq!(dst_address(&p), None);
}

#[test]
fn send_index_is_little_endian() {
    let mut payload = vec![0u8; 24];
    payload[0..8].copy_from_slice(&0x0102030405060708u64.to_le_bytes());
    assert_eq!(extract_send_index(&payload), 0x0102030405060708);
}
