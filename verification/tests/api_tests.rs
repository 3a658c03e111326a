use neptun::api::api_exec;
use neptun::device::{Device, DeviceConfig};

fn config() -> DeviceConfig {
    DeviceConfig {
        n_threads: 1,
        use_connected_socket: false,
        use_multi_queue: false,
        open_uapi_socket: true,
        skt_buffer_size: None,
        inter_thread_channel_size: None,
        max_inter_thread_batched_pkts: None,
    }
}

fn contains(hay: &[u8], needle: &[u8]) -> bool {
    hay.windows(needle.len()).any(|w| w == needle)
}

#[test]
fn set_then_get_round_trips() {
    let mut d = Device::new(config(), 1420);
    let sk = "77076d0a7318a57d3c16c17251b26645df4c2f87ebc0992ab177fba51db92c2a";
    let peer = "de9edb7d7b7dc1b4d35b61c2ece435373f8343c85b78674dadfc7e146f882b4f";
    let set = format!(
        "set=1\nprivate_key={}\nlisten_port=51820\npublic_key={}\nallowed_ip=10.0.0.0/24\n\n",
        sk, peer
    );
    let response = api_exec(&mut d, set.as_bytes(), 0, 0);
    assert_eq!(response, b"errno=0\n\n".to_vec());

    let response = api_exec(&mut d, b"get=1\n\n", 1_000, 1_700_000_000_000);
    let text = String::from_utf8(response).unwrap();
    assert!(text.starts_with(&format!("private_key={}\n", sk)));
    assert!(contains(text.as_bytes(), b"listen_port=51820\n"));
    assert!(contains(text.as_bytes(), &format!("public_key={}\n", peer).into_bytes()));
    assert!(contains(text.as_bytes(), b"allowed_ip=10.0.0.0/24\n"));
    assert!(contains(text.as_bytes(), b"rx_bytes=0\n"));
    assert!(contains(text.as_bytes(), b"tx_bytes=0\n"));
    assert!(text.ends_with("errno=0\n\n"));
}

#[test]
fn bad_values_report_einval() {
    let mut d = Device::new(config(), 1420);
    let r = api_exec(&mut d, b"set=1\nprivate_key=zz\n\n", 0, 0);
    assert_eq!(r, b"errno=22\n\n".to_vec());
    let r = api_exec(&mut d, b"set=1\nlisten_port=99999\n\n", 0, 0);
    assert_eq!(r, b"errno=22\n\n".to_vec());
    let r = api_exec(&mut d, b"set=1\nnot_a_key=1\n\n", 0, 0);
    assert_eq!(r, b"errno=22\n\n".to_vec());
}

#[test]
fn malformed_lines_report_eproto() {
    let mut d = Device::new(config(), 1420);
    let r = api_exec(&mut d, b"set=1\nno_separator\n\n", 0, 0);
    assert_eq!(r, b"errno=71\n\n".to_vec());
}

#[test]
fn unknown_commands_report_eio() {
    let mut d = Device::new(config(), 1420);
    let r = api_exec(&mut d, b"delete=1\n\n", 0, 0);
    assert_eq!(r, b"errno=5\n\n".to_vec());
}

#[test]
fn closed_devices_report_enoent() {
    let mut d = Device::new(config(), 1420);
    d.closed = true;
    let r = api_exec(&mut d, b"get=1\n\n", 0, 0);
    assert_eq!(r, b"errno=2\n\n".to_vec());
}

#[test]
fn peers_can_be_removed_and_replaced() {
    let mut d = Device::new(config(), 1420);
    let sk = "77076d0a7318a57d3c16c17251b26645df4c2f87ebc0992ab177fba51db92c2a";
    let peer = "de9edb7d7b7dc1b4d35b61c2ece435373f8343c85b78674dadfc7e146f882b4f";
    let set = format!("set=1\nprivate_key={}\npublic_key={}\nallowed_ip=10.0.0.0/24\n\n", sk, peer);
    assert_eq!(api_exec(&mut d, set.as_bytes(), 0, 0), b"errno=0\n\n".to_vec());
    assert_eq!(d.peers.len(), 1);

    let remove = format!("set=1\npublic_key={}\nremove=true\n\n", peer);
    assert_eq!(api_exec(&mut d, remove.as_bytes(), 0, 0), b"errno=0\n\n".to_vec());
    assert_eq!(d.peers.len(), 0);

    let add = format!("set=1\npublic_key={}\npersistent_keepalive_interval=25\n\n", peer);
    assert_eq!(api_exec(&mut d, add.as_bytes(), 0, 0), b"errno=0\n\n".to_vec());
    assert_eq!(d.peers.len(), 1);
    assert_eq!(d.peers[0].tunnel.persistent_keepalive(), Some(25));

    let replace = "set=1\nreplace_peers=true\n\n";
    assert_eq!(api_exec(&mut d, replace.as_bytes(), 0, 0), b"errno=0\n\n".to_vec());
    assert_eq!(d.peers.len(), 0);
}

#[test]
fn endpoint_and_protocol_version_lines() {
    let mut d = Device::new(config(), 1420);
    let sk = "77076d0a7318a57d3c16c17251b26645df4c2f87ebc0992ab177fba51db92c2a";
    let peer = "de9edb7d7b7dc1b4d35b61c2ece435373f8343c85b78674dadfc7e146f882b4f";
    let set = format!(
        "set=1\nprivate_key={}\npublic_key={}\nendpoint=1.2.3.4:51871\nprotocol_version=1\n\n",
        sk, peer
    );
    assert_eq!(api_exec(&mut d, set.as_bytes(), 0, 0), b"errno=0\n\n".to_vec());
    let ep = d.peers[0].endpoint.addr.unwrap();
    assert_eq!(ep.port, 51871);

    let bad = format!("set=1\npublic_key={}\nprotocol_version=2\n\n", peer);
    assert_eq!(api_exec(&mut d, bad.as_bytes(), 0, 0), b"errno=22\n\n".to_vec());
}
