use cloudtun::android::plugin_outcome;
use cloudtun::dns::{domain_of_query_names, extract_domain_from_dns_message, parse_data_to_dns_message, tcp_dns_payload, DnsError};

/// A DNS query for `example.com`, type A, class IN.
fn query_bytes() -> Vec<u8> {
    let mut q = vec![0x12, 0x34, 0x01, 0x00, 0x00, 0x01, 0x00, 0x00, 0x00, 0x00, 0x00, 0x00];
    q.extend_from_slice(&[7]);
    q.extend_from_slice(b"example");
    q.extend_from_slice(&[3]);
    q.extend_from_slice(b"com");
    q.extend_from_slice(&[0, 0x00, 0x01, 0x00, 0x01]);
    q
}

#[test]
fn tcp_framing() {
    assert_eq!(tcp_dns_payload(&[0, 3, 1, 2, 3, 4]), Some(&[1u8, 2, 3][..]));
    assert_eq!(tcp_dns_payload(&[0, 3, 1, 2]), None);
    assert_eq!(tcp_dns_payload(&[0]), None);
    assert_eq!(tcp_dns_payload(&[0, 0]), Some(&[][..]));
}

#[test]
fn dns_query_domain() {
    let q = query_bytes();
    let m = parse_data_to_dns_message(&q, false).ok().unwrap();
    assert_eq!(extract_domain_from_dns_message(&m).ok().unwrap(), "example.com.");

    let mut framed = vec![0, q.len() as u8];
    framed.extend_from_slice(&q);
    let m2 = parse_data_to_dns_message(&framed, true).ok().unwrap();
    assert_eq!(extract_domain_from_dns_message(&m2).ok().unwrap(), "example.com.");

    assert!(matches!(parse_data_to_dns_message(&q[..1], true), Err(DnsError::InvalidData)));
    assert!(matches!(parse_data_to_dns_message(&[0, 50, 1], true), Err(DnsError::InvalidData)));
    assert!(matches!(parse_data_to_dns_message(&[1, 2, 3], false), Err(DnsError::Decode(_))));
}

#[test]
fn dns_message_without_query() {
    let header_only = vec![0x12, 0x34, 0x01, 0x00, 0, 0, 0, 0, 0, 0, 0, 0];
    let m = parse_data_to_dns_message(&header_only, false).ok().unwrap();
    assert!(matches!(extract_domain_from_dns_message(&m), Err(DnsError::NoQuery)));
}

#[test]
fn plugin_failures_are_logged() {
    let ok: Result<bool, String> = Ok(true);
    assert_eq!(plugin_outcome(ok, "startVpn", false), (true, None));
    let err: Result<bool, String> = Err("no permission".to_string());
    assert_eq!(
        plugin_outcome(err, "startVpn", false),
        (false, Some("failed startVpn due to: no permission".to_string()))
    );
    let apps: Result<Vec<u8>, String> = Err("x".to_string());
    assert_eq!(plugin_outcome(apps, "listAllApps", vec![]), (vec![], Some("failed listAllApps due to: x".to_string())));
}

#[test]
fn notify_page_url() {
    assert_eq!(
        cloudtun::notify::notify_url("error", "lost"),
        "/notify.html?type=error&message=lost"
    );
    assert_eq!(cloudtun::notify::notify_url("", ""), "/notify.html?type=&message=");
}

#[test]
fn domain_from_query_names() {
    assert_eq!(
        domain_of_query_names(&["a.com.".to_string(), "b.com.".to_string()]).ok().unwrap(),
        "a.com."
    );
    assert!(matches!(domain_of_query_names(&[]), Err(DnsError::NoQuery)));
}

#[test]
fn framed_and_unframed_queries_agree() {
    let q = query_bytes();
    let mut framed = vec![(q.len() / 256) as u8, (q.len() % 256) as u8];
    framed.extend_from_slice(&q);
    framed.extend_from_slice(&[0xAA, 0xBB]);
    let a = parse_data_to_dns_message(&framed, true).ok().unwrap();
    let b = parse_data_to_dns_message(&q, false).ok().unwrap();
    assert_eq!(a.message(), b.message());
    assert_eq!(
        extract_domain_from_dns_message(&a).ok().unwrap(),
        extract_domain_from_dns_message(&b).ok().unwrap()
    );
    let bad = [1u8, 2, 3];
    let mut framed_bad = vec![0u8, 3];
    framed_bad.extend_from_slice(&bad);
    assert!(matches!(parse_data_to_dns_message(&framed_bad, true), Err(DnsError::Decode(_))));
}
