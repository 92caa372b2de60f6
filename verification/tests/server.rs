use cloudtun::proxy::generate_proxy_secret;
use cloudtun::server::{
    check_connect_headers, check_token, now_ts, parse_secret, password_for_instance, Context, Rejection,
};
use cloudtun::server_fc;
use cloudtun::tencent::TencentCloudClient;

fn client() -> TencentCloudClient {
    TencentCloudClient::new("id".to_string(), "key".to_string())
}

#[test]
fn ping_expires_after_ten_minutes() {
    let mut ctx = Context::new_at("tok".to_string(), "vm".to_string(), client(), 1000);
    assert_eq!(ctx.last_ping_ts(), 1000);
    assert!(!ctx.is_ping_expired_at(1000));
    assert!(!ctx.is_ping_expired_at(1600));
    assert!(ctx.is_ping_expired_at(1601));
    ctx.touch_ping_ts_at(1500);
    assert_eq!(ctx.last_ping_ts(), 1500);
    assert!(!ctx.is_ping_expired_at(1601));
    assert!(!ctx.is_ping_expired_at(2100));
    assert!(ctx.is_ping_expired_at(2101));
    assert_eq!(ctx.token, "tok");
    assert_eq!(ctx.cvm_name, "vm");
}

#[test]
fn server_password() {
    assert_eq!(password_for_instance(None), vec![0u8; 16]);
    assert_eq!(password_for_instance(Some(b"ins-abc123")), b"ins-abc123ins-ab".to_vec());
}

#[test]
fn fixed_token_server_password() {
    let (token, password) = server_fc::get_password();
    assert_eq!(token, "1234567812345678");
    assert_eq!(password, b"1234567812345678".to_vec());
    let ctx = server_fc::Context::new(token.clone(), password.clone());
    assert_eq!(ctx.token, token);
    assert_eq!(*ctx.password, password);
}

#[test]
fn secret_header_parsing() {
    assert_eq!(
        parse_secret(b"000102030405060708090a0b0c0d0eFF"),
        Some(vec![0, 1, 2, 3, 4, 5, 6, 7, 8, 9, 10, 11, 12, 13, 14, 255])
    );
    // A leading `+` in a pair is accepted, as `u8::from_str_radix` accepts it.
    assert_eq!(parse_secret(b"+f0102030405060708090a0b0c0d0e0f").map(|v| v[0]), Some(15));
    assert_eq!(parse_secret(b"-f0102030405060708090a0b0c0d0e0f"), None);
    assert_eq!(parse_secret(b"000102030405060708090a0b0c0d0e"), None);
    assert_eq!(parse_secret(b"000102030405060708090a0b0c0d0e0g"), None);
    assert_eq!(parse_secret(b"000102030405060708090a0b0c0d0e\x010"), None);
    let (secret, hex) = generate_proxy_secret();
    assert_eq!(parse_secret(hex.as_bytes()), Some(secret));
}

#[test]
fn connect_header_decisions() {
    let secret = b"00112233445566778899aabbccddeeff".as_slice();
    let ok = check_connect_headers(Some(b"tok"), "tok", Some(secret), Some(b"example.com"), Some(b"443"));
    match ok {
        Ok(t) => {
            assert_eq!(t.host, b"example.com".to_vec());
            assert_eq!(t.port, 443);
            assert_eq!(t.secret, vec![0x00, 0x11, 0x22, 0x33, 0x44, 0x55, 0x66, 0x77, 0x88, 0x99, 0xaa, 0xbb, 0xcc, 0xdd, 0xee, 0xff]);
        },
        Err(_) => panic!("expected acceptance"),
    }
    let unauthorized = |r: Result<_, Rejection>| matches!(r, Err(Rejection::Unauthorized));
    let bad = |r: Result<_, Rejection>| matches!(r, Err(Rejection::BadRequest));
    assert!(unauthorized(check_connect_headers(None, "tok", Some(secret), Some(b"h"), Some(b"1"))));
    assert!(unauthorized(check_connect_headers(Some(b"tak"), "tok", Some(secret), Some(b"h"), Some(b"1"))));
    assert!(unauthorized(check_connect_headers(Some(b"x"), "tok", None, None, None)));
    assert!(bad(check_connect_headers(Some(b"tok"), "tok", None, Some(b"h"), Some(b"1"))));
    assert!(bad(check_connect_headers(Some(b"tok"), "tok", Some(b"00"), Some(b"h"), Some(b"1"))));
    assert!(bad(check_connect_headers(Some(b"tok"), "tok", Some(secret), None, Some(b"1"))));
    assert!(bad(check_connect_headers(Some(b"tok"), "tok", Some(secret), Some(b"h\x7f"), Some(b"1"))));
    assert!(bad(check_connect_headers(Some(b"tok"), "tok", Some(secret), Some(b"h"), None)));
    assert!(bad(check_connect_headers(Some(b"tok"), "tok", Some(secret), Some(b"h"), Some(b"70000"))));
    assert!(bad(check_connect_headers(Some(b"tok"), "tok", Some(secret), Some(b"h"), Some(b"\t1"))));
}

#[test]
fn ping_token_check() {
    assert!(check_token(Some(b"secret-token"), "secret-token"));
    assert!(!check_token(Some(b"secret-token2"), "secret-token"));
    assert!(!check_token(None, "secret-token"));
}

#[test]
fn ping_state_by_the_clock() {
    let before = now_ts().unwrap();
    let mut ctx = Context::new("tok".to_string(), "vm".to_string(), client()).unwrap();
    assert!(ctx.last_ping_ts() >= before);
    assert!(ctx.last_ping_ts() >= 1_600_000_000);
    assert_eq!(ctx.is_ping_expired(), Some(false));
    ctx.touch_ping_ts_at(1000);
    assert_eq!(ctx.is_ping_expired(), Some(true));
    assert!(ctx.touch_ping_ts());
    assert!(ctx.last_ping_ts() >= before);
    assert_eq!(ctx.is_ping_expired(), Some(false));
    ctx.touch_ping_ts_at(u64::MAX);
    assert_eq!(ctx.is_ping_expired(), None);
    assert_eq!(ctx.token, "tok");
    assert_eq!(ctx.cvm_name, "vm");
}

#[test]
fn ping_expiry_at_any_time() {
    let ctx = Context::new_at("tok".to_string(), "vm".to_string(), client(), 1000);
    assert_eq!(ctx.ping_expiry_at(999), None);
    assert_eq!(ctx.ping_expiry_at(1000), Some(false));
    assert_eq!(ctx.ping_expiry_at(1600), Some(false));
    assert_eq!(ctx.ping_expiry_at(1601), Some(true));
    let fresh = Context::new_at("tok".to_string(), "vm".to_string(), client(), 0);
    assert!(fresh.is_ping_expired().is_some());
}

#[test]
fn ping_replies() {
    let mut ctx = Context::new_at("tok".to_string(), "vm".to_string(), client(), 1000);
    assert!(matches!(ctx.ping_reply_at(None, 2000), Err(Rejection::Unauthorized)));
    assert!(matches!(ctx.ping_reply_at(Some(b"bad"), 2000), Err(Rejection::Unauthorized)));
    assert_eq!(ctx.last_ping_ts(), 1000);
    assert_eq!(ctx.ping_reply_at(Some(b"tok"), 2000).ok(), Some("pong!"));
    assert_eq!(ctx.last_ping_ts(), 2000);
    assert!(now_ts().unwrap() > 1_600_000_000);
}
