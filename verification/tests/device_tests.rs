use neptun::device::{Device, DeviceConfig, OutboundRoute, UdpVerdict};
use neptun::ip::{AllowedIP, IpAddress, SocketAddress};
use neptun::peer::{ConnSocket, Endpoint};
use neptun::tunn::TunnWrite;

fn config() -> DeviceConfig {
    DeviceConfig {
        n_threads: 4,
        use_connected_socket: true,
        use_multi_queue: true,
        open_uapi_socket: false,
        skt_buffer_size: None,
        inter_thread_channel_size: None,
        max_inter_thread_batched_pkts: None,
    }
}

fn device_with_peer() -> (Device, [u8; 32]) {
    let mut d = Device::new(config(), 1420);
    d.set_key([0x11; 32], neptun::keys::public_from_private(&[0x11; 32]));
    let peer_key = [0x22u8; 32];
    let ips = vec![AllowedIP { addr: IpAddress::V4(0x0A000000), cidr: 8 }];
    d.new_peer(peer_key, None, &ips, None, None).unwrap();
    (d, peer_key)
}

#[test]
fn peers_enter_and_leave_all_tables() {
    let (mut d, key) = device_with_peer();
    assert_eq!(d.peers.len(), 1);
    assert!(d.find_peer_by_key(&key).is_some());
    let idx = d.peers[0].index;
    assert_eq!(d.find_peer_by_index(idx), Some(0));
    assert_eq!(d.peers_by_ip.find(IpAddress::V4(0x0A010203)), Some(idx));

    d.remove_peer(&key);
    assert!(d.find_peer_by_key(&key).is_none());
    assert_eq!(d.peers_by_ip.find(IpAddress::V4(0x0A010203)), None);
}

#[test]
fn update_peer_applies_each_field() {
    let (mut d, key) = device_with_peer();
    let ep = SocketAddress { ip: IpAddress::V4(0x01020304), port: 51820 };
    let more = vec![AllowedIP { addr: IpAddress::V4(0xC0A80000), cidr: 16 }];
    d.update_peer(key, false, false, false, Some(ep), &more, Some(15), Some([9u8; 32]))
        .unwrap();
    let p = &d.peers[0];
    assert_eq!(p.endpoint.addr, Some(ep));
    assert_eq!(p.tunnel.persistent_keepalive(), Some(15));
    assert_eq!(p.preshared_key, Some([9u8; 32]));
    assert_eq!(d.peers_by_ip.find(IpAddress::V4(0xC0A80001)), Some(p.index));
    // the earlier route is still there
    assert_eq!(d.peers_by_ip.find(IpAddress::V4(0x0A000001)), Some(p.index));
}

#[test]
fn update_only_ignores_unknown_peers() {
    let (mut d, _) = device_with_peer();
    let unknown = [0x77u8; 32];
    d.update_peer(unknown, true, false, false, None, &vec![], None, None).unwrap();
    assert_eq!(d.peers.len(), 1);
    assert!(d.find_peer_by_key(&unknown).is_none());
}

#[test]
fn route_outbound_follows_the_destination() {
    let (d, _) = device_with_peer();
    let mut packet = vec![0u8; 20];
    packet[0] = 0x45;
    packet[16..20].copy_from_slice(&[10, 9, 9, 9]);
    assert_eq!(d.route_outbound(&packet), Some(0));
    packet[16..20].copy_from_slice(&[11, 0, 0, 1]);
    assert_eq!(d.route_outbound(&packet), None);
}

#[test]
fn outbound_prefers_the_connected_socket() {
    let addr = SocketAddress { ip: IpAddress::V4(5), port: 1000 };
    let sock = ConnSocket { bind_port: 7, remote: addr };
    let ep = Endpoint { addr: Some(addr), conn: Some(sock) };
    assert_eq!(Device::outbound_route(&ep), OutboundRoute::ConnectedSocket(sock));
    let ep2 = Endpoint { addr: Some(addr), conn: None };
    assert_eq!(Device::outbound_route(&ep2), OutboundRoute::Listener(addr));
    let ep3 = Endpoint { addr: None, conn: None };
    assert_eq!(Device::outbound_route(&ep3), OutboundRoute::NoEndpoint);
}

#[test]
fn datagram_commits_endpoint_and_connects() {
    let (mut d, key) = device_with_peer();
    d.open_listen_socket(51820);
    let src = SocketAddress { ip: IpAddress::V4(0x08080808), port: 9999 };
    let mut init = vec![0u8; 148];
    init[0] = 1;
    let verdict = d.handle_udp_datagram(&init, src, true, true, Some(key));
    match verdict {
        UdpVerdict::Handled { peer_slot, write, flush, connect } => {
            assert_eq!(peer_slot, 0);
            assert!(matches!(write, TunnWrite::HandshakeResponse { .. }));
            assert!(flush);
            assert_eq!(connect, Some(ConnSocket { bind_port: 51820, remote: src }));
        }
        _ => panic!("the initiation should be handled"),
    }
    assert_eq!(d.peers[0].endpoint.addr, Some(src));
    assert_eq!(d.peers[0].endpoint.conn, Some(ConnSocket { bind_port: 51820, remote: src }));
}

#[test]
fn datagram_for_nobody_is_dropped() {
    let (mut d, _) = device_with_peer();
    let src = SocketAddress { ip: IpAddress::V4(1), port: 1 };
    let mut data = vec![0u8; 64];
    data[0] = 4;
    data[4..8].copy_from_slice(&0xFFFFFF00u32.to_le_bytes());
    assert!(matches!(d.handle_udp_datagram(&data, src, true, true, None), UdpVerdict::NoPeer));
    assert!(matches!(
        d.handle_udp_datagram(&[0u8; 2], src, true, true, None),
        UdpVerdict::Drop(_)
    ));
}

#[test]
fn under_load_the_datagram_draws_a_cookie() {
    let (mut d, key) = device_with_peer();
    let src = SocketAddress { ip: IpAddress::V4(1), port: 1 };
    let mut init = vec![0u8; 148];
    init[0] = 1;
    // exhaust the per-second budget
    for _ in 0..100 {
        let _ = d.handle_udp_datagram(&init, src, true, false, Some(key));
    }
    assert!(matches!(
        d.handle_udp_datagram(&init, src, true, false, Some(key)),
        UdpVerdict::SendCookieReply
    ));
    // the periodic reset admits initiations again
    d.rate_limiter.as_mut().unwrap().reset_count();
    assert!(matches!(
        d.handle_udp_datagram(&init, src, true, false, Some(key)),
        UdpVerdict::Handled { .. }
    ));
}

#[test]
fn replaced_tunnel_device_retires_stale_workers() {
    let (mut d, _) = device_with_peer();
    let worker_seq = d.update_seq;
    assert!(!d.worker_must_exit(worker_seq));
    d.bump_update_seq();
    assert!(d.worker_must_exit(worker_seq));
    assert!(!d.worker_must_exit(d.update_seq));
}

#[test]
fn set_key_rebuilds_the_rate_limiter() {
    let mut d = Device::new(config(), 1420);
    assert!(d.rate_limiter.is_none());
    d.set_key([0x11; 32], neptun::keys::public_from_private(&[0x11; 32]));
    assert!(d.rate_limiter.is_some());
    let pk = d.rate_limiter.as_ref().unwrap().public_key;
    assert_eq!(pk, neptun::keys::public_from_private(&[0x11; 32]));
    // deriving is real elliptic-curve work, not the identity
    assert_ne!(pk, [0x11; 32]);
}

#[test]
fn test_connect_endpoint() {
    let (mut d, _) = device_with_peer();
    let addr = SocketAddress { ip: IpAddress::V4(0x01020304), port: 54321 };
    d.peers[0].set_endpoint(addr);
    let sock = d.peers[0].connect_endpoint(12345).unwrap();
    assert_eq!(sock, ConnSocket { bind_port: 12345, remote: addr });
    // a second connect without a shutdown is refused
    assert!(d.peers[0].connect_endpoint(12345).is_err());
    d.peers[0].shutdown_endpoint();
    assert!(d.peers[0].connect_endpoint(12345).is_ok());
}

#[test]
fn connected_socket_datagrams_use_the_known_peer() {
    let (mut d, _) = device_with_peer();
    // the peer answers an initiation first, so a session exists
    let src = SocketAddress { ip: IpAddress::V4(0x08080808), port: 9999 };
    let mut init = vec![0u8; 148];
    init[0] = 1;
    let key = d.peers[0].public_key;
    let _ = d.handle_udp_datagram(&init, src, true, true, Some(key));
    let slot = d.peers[0].tunnel.current % 4;
    let rx_idx = d.peers[0].tunnel.sessions[slot].as_ref().unwrap().receiving_index;

    let mut data = vec![0u8; 48];
    data[0] = 4;
    data[4..8].copy_from_slice(&rx_idx.to_le_bytes());
    data[8..16].copy_from_slice(&0u64.to_le_bytes());
    let r = d.handle_connected_datagram(0, &data);
    assert_eq!(r, Ok(TunnWrite::Tunnel { len: 16 }));
    // a replay of the same counter is refused
    let r = d.handle_connected_datagram(0, &data);
    assert!(r.is_err());
    // garbage is classified away
    assert!(d.handle_connected_datagram(0, &[0u8; 3]).is_err());
}

#[test]
fn key_derivation_matches_the_known_answer() {
    // the Diffie-Hellman test vector of RFC 7748 section 6.1
    let sk = neptun::textfmt::decode_hex_key(
        b"77076d0a7318a57d3c16c17251b26645df4c2f87ebc0992ab177fba51db92c2a",
    )
    .unwrap();
    let expected = neptun::textfmt::decode_hex_key(
        b"8520f0098930a754748b7ddcb43ef75a0dbf3a0d26381af4eba4a98eaa9b4e6a",
    )
    .unwrap();
    assert_eq!(neptun::keys::public_from_private(&sk), expected);
}

#[test]
fn expired_timers_drop_the_connected_socket() {
    let (mut d, _) = device_with_peer();
    let addr = SocketAddress { ip: IpAddress::V4(5), port: 1000 };
    d.peers[0].set_endpoint(addr);
    d.peers[0].connect_endpoint(51820).unwrap();
    assert!(d.peers[0].endpoint.conn.is_some());
    // nine minutes of silence: the tunnel expires and the socket goes
    let r = d.tick_peer_timers(0, 540_000);
    assert!(matches!(r, Err(neptun::errors::WireGuardError::ConnectionExpired)));
    assert!(d.peers[0].endpoint.conn.is_none());
    assert_eq!(d.peers[0].endpoint.addr, Some(addr));
}

#[test]
fn two_peers_route_by_longest_prefix() {
    // the 10.0.0.0/8-vs-10.1.0.0/16 scenario carried through update_peer
    let mut d = Device::new(config(), 1420);
    d.set_key([0x11; 32], neptun::keys::public_from_private(&[0x11; 32]));
    let p1 = [0x21u8; 32];
    let p2 = [0x22u8; 32];
    d.update_peer(p1, false, false, false, None,
        &vec![AllowedIP { addr: IpAddress::V4(0x0A000000), cidr: 8 }], None, None)
        .unwrap();
    d.update_peer(p2, false, false, false, None,
        &vec![AllowedIP { addr: IpAddress::V4(0x0A010000), cidr: 16 }], None, None)
        .unwrap();
    let route = |d: &Device, a: [u8; 4]| {
        let mut packet = vec![0u8; 20];
        packet[0] = 0x45;
        packet[16..20].copy_from_slice(&a);
        d.route_outbound(&packet).map(|slot| d.peers[slot].public_key)
    };
    assert_eq!(route(&d, [10, 1, 2, 3]), Some(p2));
    assert_eq!(route(&d, [10, 2, 3, 4]), Some(p1));
    assert_eq!(route(&d, [11, 0, 0, 1]), None);
    // re-inserting an equal prefix makes the later peer win
    d.update_peer(p1, false, false, false, None,
        &vec![AllowedIP { addr: IpAddress::V4(0x0A010000), cidr: 16 }], None, None)
        .unwrap();
    assert_eq!(route(&d, [10, 1, 2, 3]), Some(p1));
}
