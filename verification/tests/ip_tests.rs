use neptun::ip::{
    format_ip, format_ipv4, format_ipv6, format_socket_addr, parse_allowed_ip, parse_ipv4,
    parse_ipv6, parse_socket_addr, AllowedIP, IpAddress, SocketAddress,
};

#[test]
fn v4_text_round_trips() {
    assert_eq!(format_ipv4(0x0A000001), b"10.0.0.1".to_vec());
    assert_eq!(parse_ipv4(b"10.0.0.1"), Some(0x0A000001));
    assert_eq!(parse_ipv4(b"255.255.255.255"), Some(0xFFFFFFFF));
    assert_eq!(parse_ipv4(b"0.0.0.0"), Some(0));
    assert_eq!(parse_ipv4(b"10.0.0"), None);
    assert_eq!(parse_ipv4(b"10.0.0.256"), None);
    assert_eq!(parse_ipv4(b"10.0.0.one"), None);
}

#[test]
fn v6_text_round_trips_in_full_form() {
    let a: u128 = 0x2001_0db8_0000_0000_0000_0000_0000_0001;
    assert_eq!(format_ipv6(a), b"2001:0db8:0000:0000:0000:0000:0000:0001".to_vec());
    assert_eq!(parse_ipv6(b"2001:db8:0:0:0:0:0:1"), Some(a));
    assert_eq!(parse_ipv6(b"2001:0db8:0000:0000:0000:0000:0000:0001"), Some(a));
    assert_eq!(parse_ipv6(b"2001:db8::1"), None); // compression is not taken
    assert_eq!(parse_ipv6(b"2001:db8:0:0:0:0:1"), None);
}

#[test]
fn allowed_ip_text() {
    assert_eq!(
        parse_allowed_ip(b"10.0.0.0/24"),
        Some(AllowedIP { addr: IpAddress::V4(0x0A000000), cidr: 24 })
    );
    assert_eq!(parse_allowed_ip(b"10.0.0.0/33"), None);
    assert_eq!(parse_allowed_ip(b"10.0.0.0"), None);
    assert_eq!(
        parse_allowed_ip(b"0:0:0:0:0:0:0:1/128"),
        Some(AllowedIP { addr: IpAddress::V6(1), cidr: 128 })
    );
    assert_eq!(parse_allowed_ip(b"0:0:0:0:0:0:0:1/129"), None);
}

#[test]
fn socket_address_text() {
    assert_eq!(
        parse_socket_addr(b"1.2.3.4:51820"),
        Some(SocketAddress { ip: IpAddress::V4(0x01020304), port: 51820 })
    );
    assert_eq!(
        parse_socket_addr(b"[0:0:0:0:0:0:0:1]:53"),
        Some(SocketAddress { ip: IpAddress::V6(1), port: 53 })
    );
    assert_eq!(parse_socket_addr(b"1.2.3.4"), None);
    assert_eq!(parse_socket_addr(b"1.2.3.4:99999"), None);

    let sa = SocketAddress { ip: IpAddress::V4(0x01020304), port: 51820 };
    assert_eq!(format_socket_addr(&sa), b"1.2.3.4:51820".to_vec());
    let sa6 = SocketAddress { ip: IpAddress::V6(1), port: 53 };
    assert_eq!(
        format_socket_addr(&sa6),
        b"[0000:0000:0000:0000:0000:0000:0000:0001]:53".to_vec()
    );
    assert_eq!(format_ip(&IpAddress::V4(0x0A000001)), b"10.0.0.1".to_vec());
}
