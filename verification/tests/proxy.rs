use cloudtun::constant::{LOCAL_HTTP_PROXY_PORT, REMOTE_PROXY_PORT};
use cloudtun::proxy::{answer_connect, generate_proxy_secret, plan_connect, tunnel_request, ProxyArgs};
use cloudtun::route::{MatchType, RouteMatcher};
use cloudtun::server::check_connect_headers;

#[test]
fn secret_is_zero_bytes() {
    let (secret, hex) = generate_proxy_secret();
    assert_eq!(secret, vec![0u8; 16]);
    assert_eq!(hex, "00000000000000000000000000000000");
}

#[test]
fn cloud_host_settings() {
    let args = ProxyArgs::for_cloud_host("1.2.3.4", "tok", "ins-xyz");
    assert_eq!(args.server_addr, ("1.2.3.4".to_string(), REMOTE_PROXY_PORT, "tok".to_string()));
    assert_eq!(REMOTE_PROXY_PORT, 24816);
    assert_eq!(args.local_addr, ("0.0.0.0".to_string(), LOCAL_HTTP_PROXY_PORT));
    assert_eq!(LOCAL_HTTP_PROXY_PORT, 7892);
    assert_eq!(args.default_rule, MatchType::Proxy);
    assert!(args.proxy_rules.is_none());
    assert_eq!(args.password, b"ins-xyzins-xyzin".to_vec());
}

#[test]
fn tunnel_request_is_accepted_by_server() {
    let server = ("10.0.0.1".to_string(), 24816u16, "tok".to_string());
    let (secret, hex) = generate_proxy_secret();
    let req = tunnel_request(&server, "example.com", 443, &hex);
    assert_eq!(req.url, "ws://10.0.0.1:24816/ws");
    let get = |name: &str| req.headers.iter().find(|h| h.0 == name).map(|h| h.1.clone());
    assert_eq!(get("x-token").as_deref(), Some("tok"));
    assert_eq!(get("x-connect-host").as_deref(), Some("example.com"));
    assert_eq!(get("x-connect-port").as_deref(), Some("443"));
    assert_eq!(get("x-secret"), Some(hex.clone()));
    let token = get("x-token").unwrap();
    let s = get("x-secret").unwrap();
    let h = get("x-connect-host").unwrap();
    let p = get("x-connect-port").unwrap();
    let target = check_connect_headers(
        Some(token.as_bytes()),
        "tok",
        Some(s.as_bytes()),
        Some(h.as_bytes()),
        Some(p.as_bytes()),
    );
    match target {
        Ok(t) => {
            assert_eq!(t.host, b"example.com".to_vec());
            assert_eq!(t.port, 443);
            assert_eq!(t.secret, secret);
        },
        Err(_) => panic!("server refused the client's request"),
    }
}

#[test]
fn connect_plan() {
    let router = RouteMatcher::load(MatchType::Proxy, Some(b"lan.local:direct\nbad.com:deny")).ok().unwrap();
    assert_eq!(plan_connect(&router, "nas.lan.local", None), (MatchType::Direct, 80));
    assert_eq!(plan_connect(&router, "bad.com", Some(443)), (MatchType::Deny, 443));
    assert_eq!(plan_connect(&router, "github.com", Some(22)), (MatchType::Proxy, 22));
}

#[test]
fn connect_without_target_is_refused() {
    let router = RouteMatcher::load(MatchType::Direct, Some(b"x.com:deny")).ok().unwrap();
    match answer_connect(&router, None) {
        Err(bad) => {
            assert_eq!(bad.status, 400);
            assert_eq!(bad.body, "CONNECT must be to a socket address");
        },
        Ok(_) => panic!("expected a refusal"),
    }
    assert_eq!(answer_connect(&router, Some(("a.x.com", None))).ok(), Some((MatchType::Deny, 80)));
    assert_eq!(answer_connect(&router, Some(("y.com", Some(443)))).ok(), Some((MatchType::Direct, 443)));
}
