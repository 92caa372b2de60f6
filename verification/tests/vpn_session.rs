use cloudtun::vpn_session::{plan_stream, run_code, stop_code, AcceptedStream, QuitSlot, StreamPlan, DNS_PORT};

#[test]
fn tcp_goes_through_the_tunnel_to_the_resolved_domain() {
    let plan = plan_stream(AcceptedStream::Tcp {
        ip_text: "198.18.0.5".to_string(),
        port: 443,
        resolved: Some("example.com".to_string()),
    });
    match plan {
        StreamPlan::Tunnel { host, port } => {
            assert_eq!(host, "example.com");
            assert_eq!(port, 443);
        },
        _ => panic!("expected a tunnel"),
    }
}

#[test]
fn tcp_without_domain_goes_to_the_address() {
    let plan = plan_stream(AcceptedStream::Tcp { ip_text: "1.2.3.4".to_string(), port: 80, resolved: None });
    match plan {
        StreamPlan::Tunnel { host, port } => {
            assert_eq!(host, "1.2.3.4");
            assert_eq!(port, 80);
        },
        _ => panic!("expected a tunnel"),
    }
}

#[test]
fn udp_plans() {
    assert_eq!(DNS_PORT, 53);
    assert!(matches!(plan_stream(AcceptedStream::Udp { port: 53 }), StreamPlan::VirtualDns));
    assert!(matches!(plan_stream(AcceptedStream::Udp { port: 123 }), StreamPlan::RelayUdp));
    assert!(matches!(plan_stream(AcceptedStream::UnknownTransport), StreamPlan::Ignore));
    assert!(matches!(plan_stream(AcceptedStream::UnknownNetwork), StreamPlan::Ignore));
}

#[test]
fn only_one_vpn_at_a_time() {
    let mut slot: QuitSlot<u32> = QuitSlot::new();
    assert_eq!(stop_code(&slot.stop()), -1);
    assert!(slot.try_start(1));
    assert!(!slot.try_start(2));
    let stopped = slot.stop();
    assert_eq!(stopped, Some(1));
    assert_eq!(stop_code(&stopped), 0);
    assert!(slot.try_start(2));
    assert_eq!(slot.stop(), Some(2));
}

#[test]
fn run_result_codes() {
    assert_eq!(run_code(false, true, true, true, Some(0)), -1);
    assert_eq!(run_code(true, false, true, true, Some(0)), -2);
    assert_eq!(run_code(true, true, false, true, Some(0)), -1);
    assert_eq!(run_code(true, true, true, false, Some(0)), -3);
    assert_eq!(run_code(true, true, true, true, Some(0)), 0);
    assert_eq!(run_code(true, true, true, true, Some(-1)), -1);
    assert_eq!(run_code(true, true, true, true, None), -1);
    let mut slot: QuitSlot<u32> = QuitSlot::new();
    assert!(slot.try_start(1));
    let accepted = slot.try_start(2);
    assert_eq!(run_code(true, true, accepted, true, Some(0)), -1);
    assert_eq!(slot.stop(), Some(1));
}
