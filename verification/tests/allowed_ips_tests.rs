use neptun::allowed_ips::AllowedIps;
use neptun::ip::IpAddress;

#[test]
fn longest_prefix_basic() {
    // insert (10.0.0.0/8, 1), (10.1.0.0/16, 2); find follows the longest prefix
    let mut t = AllowedIps::new();
    t.insert(IpAddress::V4(0x0A000000), 8, 1);
    t.insert(IpAddress::V4(0x0A010000), 16, 2);
    assert_eq!(t.find(IpAddress::V4(0x0A010203)), Some(2)); // 10.1.2.3
    assert_eq!(t.find(IpAddress::V4(0x0A020304)), Some(1)); // 10.2.3.4
    assert_eq!(t.find(IpAddress::V4(0x0B000001)), None); // 11.0.0.1
}

#[test]
fn later_insert_wins() {
    let mut t = AllowedIps::new();
    t.insert(IpAddress::V4(0x0A000000), 8, 1);
    t.insert(IpAddress::V4(0x0A000000), 8, 7);
    assert_eq!(t.find(IpAddress::V4(0x0A010203)), Some(7));
}

#[test]
fn zero_cidr_matches_everything() {
    let mut t = AllowedIps::new();
    t.insert(IpAddress::V4(0), 0, 9);
    assert_eq!(t.find(IpAddress::V4(0xFFFFFFFF)), Some(9));
    assert_eq!(t.find(IpAddress::V4(1)), Some(9));
    // The v6 family has its own tree.
    assert_eq!(t.find(IpAddress::V6(1)), None);
}

#[test]
fn removal_preserves_other_entries() {
    let mut t = AllowedIps::new();
    t.insert(IpAddress::V4(0x0A000000), 8, 1);
    t.insert(IpAddress::V4(0x0A010000), 16, 2);
    t.insert(IpAddress::V4(0xC0A80000), 16, 1);
    t.remove(1);
    assert_eq!(t.find(IpAddress::V4(0x0A020304)), None);
    assert_eq!(t.find(IpAddress::V4(0xC0A80001)), None);
    assert_eq!(t.find(IpAddress::V4(0x0A010203)), Some(2));
}

#[test]
fn ipv6_longest_prefix() {
    let mut t = AllowedIps::new();
    let base: u128 = 0x2001_0db8_0000_0000_0000_0000_0000_0000;
    t.insert(IpAddress::V6(base), 32, 4);
    t.insert(IpAddress::V6(base | (1 << 80)), 48, 5);
    assert_eq!(t.find(IpAddress::V6(base | (1 << 80) | 42)), Some(5));
    assert_eq!(t.find(IpAddress::V6(base | 42)), Some(4));
    assert_eq!(t.find(IpAddress::V6(base >> 1)), None);
}

#[test]
fn clear_empties_both_families() {
    let mut t = AllowedIps::new();
    t.insert(IpAddress::V4(0x0A000000), 8, 1);
    t.insert(IpAddress::V6(7), 128, 2);
    t.clear();
    assert_eq!(t.find(IpAddress::V4(0x0A000001)), None);
    assert_eq!(t.find(IpAddress::V6(7)), None);
}
