use cloudtun::args::validate_tun;
use cloudtun::ping::{after_ping, ping_reply_ok, ping_url, PingReport};

#[test]
fn ping_request_and_reply() {
    assert_eq!(ping_url("43.152.227.239"), "http://43.152.227.239:24816/ping");
    assert!(ping_reply_ok(200, Some("pong!")));
    assert!(!ping_reply_ok(200, Some("pong")));
    assert!(!ping_reply_ok(200, None));
    assert!(!ping_reply_ok(401, Some("pong!")));
}

#[test]
fn ping_loop_decisions() {
    assert_eq!(after_ping(true, true, true), (false, PingReport::Silent));
    assert_eq!(after_ping(true, false, false), (false, PingReport::Silent));
    assert_eq!(after_ping(false, true, true), (true, PingReport::Alive));
    assert_eq!(after_ping(false, false, true), (false, PingReport::Lost));
    assert_eq!(after_ping(false, false, false), (true, PingReport::Lost));
}

#[test]
fn tun_names() {
    assert_eq!(validate_tun("utun4", true), Ok("utun4".to_string()));
    assert_eq!(validate_tun("utun", true), Err("Invalid tun interface name, please use utunX".to_string()));
    assert_eq!(validate_tun("tun0x", true), Err("Invalid tun interface name, please use utunX".to_string()));
    assert_eq!(validate_tun("tun0", false), Ok("tun0".to_string()));
}
