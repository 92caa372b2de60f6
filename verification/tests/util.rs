use cloudtun::util::{cycle_password, hex2str, i64_to_decimal, parse_u16, to_hex_lower, u64_to_decimal};

#[test]
fn hex2str_joins_bytes_with_commas() {
    assert_eq!(hex2str(&[0x00, 0xab, 0x0f, 0xff]), "00,ab,0f,ff");
    assert_eq!(hex2str(&[0x7]), "07");
    assert_eq!(hex2str(&[]), "");
}

#[test]
fn to_hex_lower_has_no_separator() {
    assert_eq!(to_hex_lower(&[0xde, 0xad, 0xbe, 0xef, 0x01]), "deadbeef01");
    assert_eq!(to_hex_lower(&[]), "");
}

#[test]
fn decimal_renderings() {
    assert_eq!(u64_to_decimal(0), "0");
    assert_eq!(u64_to_decimal(24816), "24816");
    assert_eq!(u64_to_decimal(u64::MAX), u64::MAX.to_string());
    assert_eq!(i64_to_decimal(-1551113065), "-1551113065");
    assert_eq!(i64_to_decimal(i64::MIN), i64::MIN.to_string());
    assert_eq!(i64_to_decimal(1551113065), "1551113065");
}

#[test]
fn parse_u16_follows_std() {
    let cases: [&str; 12] = ["80", "+80", "0080", "65535", "65536", "", "+", "-1", " 1", "1a", "99999999999", "0"];
    for c in cases {
        assert_eq!(parse_u16(c.as_bytes()), c.parse::<u16>().ok(), "case {:?}", c);
    }
    assert_eq!(parse_u16(b"443"), Some(443));
    assert_eq!(parse_u16(b"+"), None);
}

#[test]
fn password_repeats_seed() {
    assert_eq!(cycle_password(b"abc"), b"abcabcabcabcabca".to_vec());
    assert_eq!(cycle_password(b"0123456789abcdefXYZ"), b"0123456789abcdef".to_vec());
}

#[test]
fn port_text_reads_back() {
    for p in [0u16, 1, 80, 443, 24816, 65535] {
        let text = u64_to_decimal(p as u64);
        assert_eq!(parse_u16(text.as_bytes()), Some(p));
    }
}
