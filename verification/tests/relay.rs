use cloudtun::relay::{
    client_downstream, client_upstream, server_downstream, server_upstream, split_messages, RelayStep, StreamRead,
    WsReceive, MESSAGE_LIMIT,
};

const SECRET: &[u8; 16] = b"0123456789ABCDEF";

fn sent(step: RelayStep) -> (Vec<Vec<u8>>, bool) {
    match step {
        RelayStep::Send { messages, stop_on_failure } => (messages, stop_on_failure),
        _ => panic!("expected a send step"),
    }
}

fn written(step: RelayStep) -> (Vec<u8>, bool) {
    match step {
        RelayStep::Write { data, stop_on_failure } => (data, stop_on_failure),
        _ => panic!("expected a write step"),
    }
}

#[test]
fn messages_hold_at_most_one_kilobyte() {
    assert_eq!(MESSAGE_LIMIT, 1024);
    let data: Vec<u8> = (0..2500u32).map(|i| i as u8).collect();
    let ms = split_messages(&data);
    assert_eq!(ms.len(), 3);
    assert_eq!(ms[0].len(), 1024);
    assert_eq!(ms[1].len(), 1024);
    assert_eq!(ms[2].len(), 452);
    assert_eq!(ms.concat(), data);
    assert_eq!(split_messages(&[]).len(), 0);
    assert_eq!(split_messages(&[7u8; 1024]), vec![vec![7u8; 1024]]);
}

#[test]
fn client_upstream_enciphers_chunks() {
    let (ms, stop) = sent(client_upstream(StreamRead::Read(b"ab".to_vec()), SECRET));
    assert_eq!(ms, vec![vec![b'a' ^ b'0', b'b' ^ b'1']]);
    assert!(stop);
    assert!(matches!(client_upstream(StreamRead::Read(vec![]), SECRET), RelayStep::Stop));
    assert!(matches!(client_upstream(StreamRead::Failed, SECRET), RelayStep::Stop));
}

#[test]
fn client_downstream_steps() {
    let (data, stop) = written(client_downstream(WsReceive::Binary(vec![1, 2, 3])));
    assert_eq!(data, vec![1, 2, 3]);
    assert!(stop);
    assert!(matches!(client_downstream(WsReceive::Close), RelayStep::FlushAndStop));
    assert!(matches!(client_downstream(WsReceive::Other), RelayStep::Continue));
    assert!(matches!(client_downstream(WsReceive::Failed), RelayStep::Continue));
    assert!(matches!(client_downstream(WsReceive::End), RelayStep::Stop));
}

#[test]
fn server_upstream_deciphers_messages() {
    let (data, stop) = written(server_upstream(WsReceive::Binary(vec![b'a' ^ b'0', b'b' ^ b'1']), SECRET));
    assert_eq!(data, b"ab".to_vec());
    assert!(!stop);
    assert!(matches!(server_upstream(WsReceive::Close, SECRET), RelayStep::Stop));
    assert!(matches!(server_upstream(WsReceive::Other, SECRET), RelayStep::Continue));
    assert!(matches!(server_upstream(WsReceive::Failed, SECRET), RelayStep::Stop));
    assert!(matches!(server_upstream(WsReceive::End, SECRET), RelayStep::Stop));
}

#[test]
fn server_downstream_steps() {
    let (ms, stop) = sent(server_downstream(StreamRead::Read(vec![9, 8])));
    assert_eq!(ms, vec![vec![9, 8]]);
    assert!(stop);
    assert!(matches!(server_downstream(StreamRead::Read(vec![])), RelayStep::CloseAndStop));
    assert!(matches!(server_downstream(StreamRead::Failed), RelayStep::Continue));
}

#[test]
fn upstream_roundtrip_delivers_the_stream() {
    let reads: Vec<Vec<u8>> = vec![(0..3000u32).map(|i| (i * 7) as u8).collect(), b"tail".to_vec()];
    let mut remote = Vec::new();
    for chunk in &reads {
        let (ms, _) = sent(client_upstream(StreamRead::Read(chunk.clone()), SECRET));
        for m in ms {
            assert!(!m.is_empty() && m.len() <= 1024);
            let (data, _) = written(server_upstream(WsReceive::Binary(m), SECRET));
            remote.extend_from_slice(&data);
        }
    }
    assert_eq!(remote, reads.concat());
}

#[test]
fn downstream_roundtrip_delivers_the_stream() {
    let reads: Vec<Vec<u8>> = vec![vec![0u8, 255, 7, 42], vec![1u8; 2049]];
    let mut local = Vec::new();
    for chunk in &reads {
        let (ms, _) = sent(server_downstream(StreamRead::Read(chunk.clone())));
        for m in ms {
            assert!(!m.is_empty() && m.len() <= 1024);
            let (data, _) = written(client_downstream(WsReceive::Binary(m)));
            local.extend_from_slice(&data);
        }
    }
    assert_eq!(local, reads.concat());
}
