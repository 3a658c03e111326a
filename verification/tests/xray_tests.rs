use neptun::xray::{
    parse_test_type, parse_wg, CliArgs, Packet, PathGenerator, TestType, Wg,
};

#[test]
fn packet_sizes_are_fixed() {
    assert_eq!(Packet::send_size(), 24);
    assert_eq!(Packet::index_size(), 8);
    assert_eq!(Packet::ts_size(), 16);
    let p = Packet::new(123456);
    assert_eq!(p.send_ts, 123456);
    assert!(p.recv_index.is_none() && p.recv_ts.is_none());
}

#[test]
fn adapter_and_test_names_parse() {
    assert_eq!(parse_wg("neptun"), Some(Wg::NepTUN));
    assert_eq!(parse_wg("native"), Some(Wg::LinuxNative));
    assert_eq!(parse_wg("wggo"), Some(Wg::WireguardGo));
    assert_eq!(parse_wg("boringtun"), Some(Wg::BoringTun));
    assert_eq!(parse_wg("other"), None);
    assert_eq!(parse_test_type("crypto"), Some(TestType::Crypto));
    assert_eq!(parse_test_type("plaintext"), Some(TestType::Plaintext));
    assert_eq!(parse_test_type("bidir"), None);
}

#[test]
fn generated_paths_are_exact() {
    let g = PathGenerator::new(Wg::NepTUN, TestType::Crypto, 10, String::from("/work"));
    assert_eq!(g.analyze_script(), "/work/xray/analyze.py");
    assert_eq!(g.results_dir(), "/work/xray/results");
    assert_eq!(g.binary_dir(), "/work/target/release");
    assert_eq!(g.base(), "/work/xray/results/xray_neptun_crypto_10");
    assert_eq!(g.pcap(), "/work/xray/results/xray_neptun_crypto_10.pcap");
    assert_eq!(g.csv(), "/work/xray/results/xray_neptun_crypto_10.csv");
    assert_eq!(g.png(), "/work/xray/results/xray_neptun_crypto_10.png");
    assert_eq!(g.txt(), "/work/xray/results/xray_neptun_crypto_10.txt");
}

#[test]
fn cli_paths_default_from_the_run_options() {
    let args = CliArgs {
        wg: Wg::LinuxNative,
        test_type: TestType::Plaintext,
        packet_count: 500,
        csv_path: None,
        pcap_path: None,
    };
    assert_eq!(args.csv_path(), "results/xray_native_plaintext_500.csv");
    assert_eq!(args.pcap_path(), "results/xray_native_plaintext_500.pcap");
    let args2 = CliArgs { csv_path: Some(String::from("given.csv")), ..args };
    assert_eq!(args2.csv_path(), "given.csv");
}

#[test]
fn ring_cursor_wraps_at_the_size() {
    let mut rb = neptun::ring_buffers::RingBuffer::new();
    for expected in 0..neptun::ring_buffers::RB_SIZE {
        assert_eq!(rb.get_next(), expected);
    }
    // the cursor wrapped: the next taker gets the first slot again
    assert_eq!(rb.get_next(), 0);
    assert_eq!(rb.get_next(), 1);
}
