use chess_algorithms::utils::{hash_key, parse_hash_key};

#[test]
fn hash_key_writes_decimal_digits() {
    assert_eq!(hash_key(0), b"0".to_vec());
    assert_eq!(hash_key(7), b"7".to_vec());
    assert_eq!(hash_key(10), b"10".to_vec());
    assert_eq!(hash_key(5060803636482931868), b"5060803636482931868".to_vec());
    assert_eq!(hash_key(u64::MAX), b"18446744073709551615".to_vec());
}

#[test]
fn parse_hash_key_reads_what_hash_key_writes() {
    for hash in [0, 1, 9, 10, 99, 100, 12345, 0x463b96181691fc9c, u64::MAX - 1, u64::MAX] {
        assert_eq!(parse_hash_key(&hash_key(hash)), Some(hash));
        assert_eq!(hash_key(hash), hash.to_string().into_bytes());
    }
}

#[test]
fn parse_hash_key_refuses_everything_else() {
    assert_eq!(parse_hash_key(&b"".to_vec()), None);
    assert_eq!(parse_hash_key(&b"007".to_vec()), None);
    assert_eq!(parse_hash_key(&b"00".to_vec()), None);
    assert_eq!(parse_hash_key(&b"+7".to_vec()), None);
    assert_eq!(parse_hash_key(&b"-7".to_vec()), None);
    assert_eq!(parse_hash_key(&b" 7".to_vec()), None);
    assert_eq!(parse_hash_key(&b"7a".to_vec()), None);
    assert_eq!(parse_hash_key(&b"1/".to_vec()), None);
    assert_eq!(parse_hash_key(&b"1:".to_vec()), None);
    // 2^64 and beyond
    assert_eq!(parse_hash_key(&b"18446744073709551616".to_vec()), None);
    assert_eq!(parse_hash_key(&b"18446744073709551620".to_vec()), None);
    assert_eq!(parse_hash_key(&b"99999999999999999999".to_vec()), None);
    assert_eq!(parse_hash_key(&b"184467440737095516150".to_vec()), None);
}
