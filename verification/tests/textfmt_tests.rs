use neptun::textfmt::{
    decode_hex_key, encode_hex_bytes, parse_bool, parse_u16, parse_u64, u64_to_dec,
};

#[test]
fn decimal_rendering_is_exact() {
    assert_eq!(u64_to_dec(0), b"0".to_vec());
    assert_eq!(u64_to_dec(7), b"7".to_vec());
    assert_eq!(u64_to_dec(51820), b"51820".to_vec());
    assert_eq!(u64_to_dec(u64::MAX), b"18446744073709551615".to_vec());
}

#[test]
fn decimal_parsing_is_exact() {
    assert_eq!(parse_u64(b"0"), Some(0));
    assert_eq!(parse_u64(b"51820"), Some(51820));
    assert_eq!(parse_u64(b"18446744073709551615"), Some(u64::MAX));
    assert_eq!(parse_u64(b"18446744073709551616"), None);
    assert_eq!(parse_u64(b""), None);
    assert_eq!(parse_u64(b"12a"), None);
    assert_eq!(parse_u16(b"65535"), Some(65535));
    assert_eq!(parse_u16(b"65536"), None);
}

#[test]
fn booleans_are_only_true_and_false() {
    assert_eq!(parse_bool(b"true"), Some(true));
    assert_eq!(parse_bool(b"false"), Some(false));
    assert_eq!(parse_bool(b"True"), None);
    assert_eq!(parse_bool(b"1"), None);
}

#[test]
fn hex_encoding_is_lowercase_high_nibble_first() {
    // this exercises the hex crate behind its contract: an unchanged
    // argument would fail the comparison
    assert_eq!(encode_hex_bytes(&[0xde, 0xad, 0x01]), b"dead01".to_vec());
    assert_eq!(encode_hex_bytes(&[]), b"".to_vec());
}

#[test]
fn key_decoding_round_trips() {
    let key: Vec<u8> = (0u8..32).collect();
    let hexed = encode_hex_bytes(&key);
    let decoded = decode_hex_key(&hexed).expect("a 64-digit string decodes");
    assert_eq!(decoded.to_vec(), key);
}

#[test]
fn key_decoding_rejects_bad_input() {
    assert_eq!(decode_hex_key(b"abcd"), None);
    let mut long = vec![b'a'; 64];
    long[10] = b'g';
    assert_eq!(decode_hex_key(&long), None);
    assert!(decode_hex_key(&vec![b'A'; 64]).is_some());
}
