use iris::network::{
    encode_ping, encode_pid_reply, encode_resolve_request, encode_user_frame, is_pong,
    read_u32_be, read_u64_be, remote_resolution, ConnAction, ConnDecoder, MessageType,
    MonitorState, ProbeVerdict, ProtocolError, MAX_NAME_LEN, MAX_PAYLOAD_LEN, PROTOCOL_VERSION,
};

/// Feed `bytes` to a decoder the way a server reads a connection, collecting
/// what it decides; stops at the first `Close` or when the bytes run out.
fn serve(bytes: &[u8], max_payload: usize, max_name_len: usize) -> Vec<ConnAction> {
    let mut dec = ConnDecoder::new();
    let mut pos = 0;
    let mut out = Vec::new();
    loop {
        let n = dec.bytes_needed();
        if pos + n > bytes.len() {
            break;
        }
        let chunk = bytes[pos..pos + n].to_vec();
        pos += n;
        let act = dec.feed(chunk, max_payload, max_name_len);
        match act {
            ConnAction::Continue => {}
            ConnAction::Close { .. } => {
                out.push(act);
                break;
            }
            other => out.push(other),
        }
    }
    out
}

fn delivered(acts: &[ConnAction]) -> Vec<(u64, Vec<u8>)> {
    acts.iter()
        .filter_map(|a| match a {
            ConnAction::Deliver { pid, payload } => Some((*pid, payload.clone())),
            _ => None,
        })
        .collect()
}

#[test]
fn user_frame_layout() {
    let f = encode_user_frame(0x0102_0304_0506_0708, b"hello", MAX_PAYLOAD_LEN).unwrap();
    assert_eq!(
        f,
        vec![0, 1, 2, 3, 4, 5, 6, 7, 8, 0, 0, 0, 5, b'h', b'e', b'l', b'l', b'o']
    );
    assert_eq!(encode_user_frame(1, b"longer", 5), None);
    assert!(encode_user_frame(1, b"12345", 5).is_some());
}

#[test]
fn resolve_request_layout() {
    let r = encode_resolve_request("auth", MAX_NAME_LEN).unwrap();
    assert_eq!(r, vec![PROTOCOL_VERSION, 1, 0, 0, 0, 4, b'a', b'u', b't', b'h']);
    assert_eq!(encode_resolve_request("toolong", 4), None);
    assert_eq!(encode_ping(), vec![1, 2]);
}

#[test]
fn pid_reply_roundtrip() {
    let r = encode_pid_reply(0x0000_0002_0000_0001);
    assert_eq!(r, vec![0, 0, 0, 2, 0, 0, 0, 1]);
    assert_eq!(read_u64_be(&r, 0), 0x0000_0002_0000_0001);
    assert_eq!(remote_resolution(&r), Some(0x0000_0002_0000_0001));
    assert_eq!(remote_resolution(&encode_pid_reply(0)), None);
    assert_eq!(read_u32_be(&[0, 0, 1, 0], 0), 256);
    assert!(is_pong(3));
    assert!(!is_pong(2));
}

#[test]
fn message_type_bytes() {
    assert_eq!(MessageType::from_byte(0), Some(MessageType::User));
    assert_eq!(MessageType::from_byte(1), Some(MessageType::Resolve));
    assert_eq!(MessageType::from_byte(2), Some(MessageType::Ping));
    assert_eq!(MessageType::from_byte(3), None);
    assert_eq!(MessageType::Ping.code(), 2);
}

#[test]
fn frames_are_delivered_in_order() {
    let mut conn = vec![PROTOCOL_VERSION];
    conn.extend(encode_user_frame(7, b"hello", MAX_PAYLOAD_LEN).unwrap());
    conn.extend(encode_user_frame(8, b"", MAX_PAYLOAD_LEN).unwrap());
    conn.extend(encode_user_frame(7, b"again", MAX_PAYLOAD_LEN).unwrap());
    let acts = serve(&conn, MAX_PAYLOAD_LEN, MAX_NAME_LEN);
    assert_eq!(
        delivered(&acts),
        vec![(7, b"hello".to_vec()), (8, vec![]), (7, b"again".to_vec())]
    );
}

#[test]
fn oversized_payload_drops_the_connection() {
    let mut conn = vec![PROTOCOL_VERSION];
    conn.extend(encode_user_frame(7, b"hello", MAX_PAYLOAD_LEN).unwrap());
    // header of an oversized frame
    conn.push(0);
    conn.extend(7u64.to_be_bytes());
    conn.extend(((MAX_PAYLOAD_LEN + 1) as u32).to_be_bytes());
    let acts = serve(&conn, MAX_PAYLOAD_LEN, MAX_NAME_LEN);
    assert_eq!(delivered(&acts), vec![(7, b"hello".to_vec())]);
    assert!(matches!(
        acts.last(),
        Some(ConnAction::Close { error: ProtocolError::PayloadTooLarge })
    ));
    // a later connection is served again
    let mut conn2 = vec![PROTOCOL_VERSION];
    conn2.extend(encode_user_frame(7, b"again", MAX_PAYLOAD_LEN).unwrap());
    assert_eq!(delivered(&serve(&conn2, MAX_PAYLOAD_LEN, MAX_NAME_LEN)), vec![(7, b"again".to_vec())]);
}

#[test]
fn version_mismatch_drops_the_connection() {
    let mut conn = vec![PROTOCOL_VERSION + 1];
    conn.extend(encode_user_frame(7, b"will not be seen", MAX_PAYLOAD_LEN).unwrap());
    let acts = serve(&conn, MAX_PAYLOAD_LEN, MAX_NAME_LEN);
    assert!(delivered(&acts).is_empty());
    assert!(matches!(
        acts.last(),
        Some(ConnAction::Close { error: ProtocolError::VersionMismatch })
    ));
}

#[test]
fn unknown_frame_type_drops_the_connection() {
    let acts = serve(&[PROTOCOL_VERSION, 9], MAX_PAYLOAD_LEN, MAX_NAME_LEN);
    assert!(matches!(
        acts.last(),
        Some(ConnAction::Close { error: ProtocolError::UnknownMessageType })
    ));
}

#[test]
fn resolve_and_ping_are_answered() {
    let mut conn = encode_resolve_request("auth-service", MAX_NAME_LEN).unwrap();
    conn.push(2);
    let acts = serve(&conn, MAX_PAYLOAD_LEN, MAX_NAME_LEN);
    assert_eq!(acts.len(), 2);
    match &acts[0] {
        ConnAction::Resolve { name } => assert_eq!(name, "auth-service"),
        _ => panic!("expected a resolve"),
    }
    assert!(matches!(acts[1], ConnAction::Pong));
}

#[test]
fn long_or_invalid_names_drop_the_connection() {
    let conn = encode_resolve_request("toolong", MAX_NAME_LEN).unwrap();
    let acts = serve(&conn, MAX_PAYLOAD_LEN, 4);
    assert!(matches!(acts.last(), Some(ConnAction::Close { error: ProtocolError::NameTooLong })));
    let bad = vec![PROTOCOL_VERSION, 1, 0, 0, 0, 2, 0xff, 0xfe];
    let acts = serve(&bad, MAX_PAYLOAD_LEN, MAX_NAME_LEN);
    assert!(matches!(acts.last(), Some(ConnAction::Close { error: ProtocolError::InvalidUtf8 })));
}

#[test]
fn decoder_reports_frame_boundaries() {
    let mut dec = ConnDecoder::new();
    assert!(!dec.between_frames());
    assert_eq!(dec.bytes_needed(), 1);
    dec.feed(vec![PROTOCOL_VERSION], 10, 10);
    assert!(dec.between_frames());
    dec.feed(vec![0], 10, 10);
    assert_eq!(dec.bytes_needed(), 12);
    assert!(!dec.between_frames());
}

#[test]
fn monitor_declares_down_after_threshold() {
    let mut m = MonitorState::new(2);
    assert_eq!(m.on_probe(false), ProbeVerdict::Retry);
    assert_eq!(m.on_probe(true), ProbeVerdict::Healthy);
    assert_eq!(m.on_probe(false), ProbeVerdict::Retry);
    assert_eq!(m.on_probe(false), ProbeVerdict::Down);
    let mut m1 = MonitorState::new(1);
    assert_eq!(m1.on_probe(false), ProbeVerdict::Down);
    let mut m0 = MonitorState::new(0);
    assert_eq!(m0.on_probe(false), ProbeVerdict::Down);
}
