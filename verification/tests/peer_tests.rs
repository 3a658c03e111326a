use neptun::ip::{AllowedIP, IpAddress, SocketAddress};
use neptun::peer::Peer;
use neptun::tunn::Tunn;

fn fresh_peer(allowed: &Vec<AllowedIP>) -> Peer {
    let tunn = Tunn::new([1u8; 32], [2u8; 32], [3u8; 32], None, None, 7, false);
    Peer::new(tunn, 7, None, allowed, None)
}

#[test]
fn duplicate_prefixes_are_listed_once() {
    // a prefix added twice is stored once: listing and routing agree
    let e = AllowedIP { addr: IpAddress::V4(0x0A000000), cidr: 8 };
    let f = AllowedIP { addr: IpAddress::V4(0xC0A80000), cidr: 16 };
    let peer = fresh_peer(&vec![e, f, e]);
    assert_eq!(peer.allowed_ips(), vec![e, f]);

    let mut peer = fresh_peer(&vec![]);
    peer.set_allowed_ips(&vec![e, e, f, f]);
    assert_eq!(peer.allowed_ips(), vec![e, f]);
    peer.add_allowed_ips(&vec![f, e]);
    assert_eq!(peer.allowed_ips(), vec![e, f]);
    assert!(peer.is_allowed_ip(IpAddress::V4(0x0A010203)));
}

#[test]
fn endpoint_changes_drop_the_connected_socket() {
    let mut peer = fresh_peer(&vec![]);
    let a = SocketAddress { ip: IpAddress::V4(1), port: 1000 };
    let b = SocketAddress { ip: IpAddress::V4(2), port: 1000 };
    peer.set_endpoint(a);
    let sock = peer.connect_endpoint(51820).unwrap();
    assert_eq!(sock.remote, a);
    // the unchanged address keeps the socket
    peer.set_endpoint(a);
    assert!(peer.endpoint().conn.is_some());
    // a new address drops it
    peer.set_endpoint(b);
    assert!(peer.endpoint().conn.is_none());
    assert_eq!(peer.endpoint().addr, Some(b));
}
