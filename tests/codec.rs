use radiant::codec::{ArbiterMessage, ArbiterMessageTypes, SocketRole};

fn message(identity: &[u8], kind: ArbiterMessageTypes, data: &[&[u8]]) -> ArbiterMessage {
    let mut m = ArbiterMessage::new(identity, kind);
    for d in data {
        m.data_frames.push(d.to_vec());
    }
    m
}

#[test]
fn kind_codes_decode() {
    assert_eq!(ArbiterMessageTypes::from_u8(0), ArbiterMessageTypes::Register);
    assert_eq!(ArbiterMessageTypes::from_u8(1), ArbiterMessageTypes::AcceptConnection);
    assert_eq!(ArbiterMessageTypes::from_u8(2), ArbiterMessageTypes::Deregister);
    assert_eq!(ArbiterMessageTypes::from_u8(3), ArbiterMessageTypes::Ping);
    assert_eq!(ArbiterMessageTypes::from_u8(4), ArbiterMessageTypes::Pong);
    assert_eq!(ArbiterMessageTypes::from_u8(5), ArbiterMessageTypes::StateRequest);
    assert_eq!(ArbiterMessageTypes::from_u8(6), ArbiterMessageTypes::Unknown);
    assert_eq!(ArbiterMessageTypes::from_u8(255), ArbiterMessageTypes::Unknown);
    assert_eq!(ArbiterMessageTypes::Pong.code(), 4);
}

#[test]
fn encode_pair_ping_layout() {
    let frames = message(b"", ArbiterMessageTypes::Ping, &[]).encode(SocketRole::Pair);
    assert_eq!(frames, vec![vec![0u8, 3], vec![0u8, 0, 0, 3]]);
}

#[test]
fn encode_dealer_adds_delimiter() {
    let frames = message(b"", ArbiterMessageTypes::StateRequest, &[]).encode(SocketRole::Dealer);
    assert_eq!(frames, vec![vec![], vec![0u8, 5], vec![0u8, 0, 0, 5]]);
}

#[test]
fn encode_router_register_layout() {
    let frames = message(b"C", ArbiterMessageTypes::Register, &[b"ab"]).encode(SocketRole::Router);
    assert_eq!(
        frames,
        vec![vec![67u8], vec![], vec![0u8, 0], vec![97u8, 98], vec![0u8, 0, 0, 195]]
    );
}

#[test]
fn checksum_wraps_into_four_bytes() {
    let big = vec![255u8; 300];
    let frames = message(b"", ArbiterMessageTypes::Pong, &[&big]).encode(SocketRole::Pair);
    // 4 + 300 * 255 = 76504 = 0x00012AD8
    assert_eq!(frames.last().unwrap(), &vec![0x00u8, 0x01, 0x2A, 0xD8]);
}

#[test]
fn round_trip_every_role() {
    for role in [SocketRole::Router, SocketRole::Dealer, SocketRole::Pair] {
        let identity: &[u8] = if role == SocketRole::Router { b"CLIENT1" } else { b"" };
        let sent = message(identity, ArbiterMessageTypes::Register, &[b"c1 command", b"c1 notif"]);
        let decoded = ArbiterMessage::decode(sent.clone().encode(role), role);
        assert_eq!(decoded, sent);
    }
}

#[test]
fn round_trip_drops_identity_without_envelope() {
    let sent = message(b"CLIENT1", ArbiterMessageTypes::Ping, &[]);
    let decoded = ArbiterMessage::decode(sent.encode(SocketRole::Dealer), SocketRole::Dealer);
    assert_eq!(decoded.identity, Vec::<u8>::new());
    assert_eq!(decoded.message_type, ArbiterMessageTypes::Ping);
}

#[test]
fn malformed_header_decodes_unknown() {
    let frames = vec![b"CLIENT1".to_vec(), vec![], vec![0u8], vec![0u8, 0, 0, 0]];
    let decoded = ArbiterMessage::decode(frames, SocketRole::Router);
    assert_eq!(decoded.message_type, ArbiterMessageTypes::Unknown);
    assert!(decoded.data_frames.is_empty());
    assert_eq!(decoded.identity, b"CLIENT1".to_vec());
}

#[test]
fn bad_checksum_decodes_unknown() {
    let mut frames = message(b"", ArbiterMessageTypes::Ping, &[]).encode(SocketRole::Pair);
    frames[1] = vec![0u8, 0, 0, 4];
    let decoded = ArbiterMessage::decode(frames, SocketRole::Pair);
    assert_eq!(decoded.message_type, ArbiterMessageTypes::Unknown);
}

#[test]
fn too_few_frames_decode_unknown() {
    let decoded = ArbiterMessage::decode(vec![], SocketRole::Router);
    assert_eq!(decoded.message_type, ArbiterMessageTypes::Unknown);
    assert!(decoded.identity.is_empty());
    let decoded = ArbiterMessage::decode(vec![vec![0u8, 3]], SocketRole::Pair);
    assert_eq!(decoded.message_type, ArbiterMessageTypes::Unknown);
}

#[test]
fn unknown_code_decodes_unknown() {
    let frames = vec![vec![0u8, 9], vec![0u8, 0, 0, 9]];
    let decoded = ArbiterMessage::decode(frames, SocketRole::Pair);
    assert_eq!(decoded.message_type, ArbiterMessageTypes::Unknown);
}

#[test]
fn get_message_type_reads_kind() {
    let m = message(b"", ArbiterMessageTypes::Deregister, &[]);
    assert_eq!(m.get_message_type(), ArbiterMessageTypes::Deregister);
}
