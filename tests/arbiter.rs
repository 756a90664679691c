use radiant::arbiter::{channel_address, Action, ArbiterServer, Origin, Snapshot, MAX_VERSION};
use radiant::codec::{ArbiterMessage, ArbiterMessageTypes, SocketRole};

fn message(identity: &[u8], kind: ArbiterMessageTypes, data: &[&[u8]]) -> ArbiterMessage {
    let mut m = ArbiterMessage::new(identity, kind);
    for d in data {
        m.data_frames.push(d.to_vec());
    }
    m
}

fn register(server: &mut ArbiterServer, now: u64, id: &[u8], caps: &[&[u8]]) -> Vec<Action> {
    server.process_message(now, Origin::Router, message(id, ArbiterMessageTypes::Register, caps))
}

fn ping(server: &mut ArbiterServer, now: u64, id: &[u8]) -> Vec<Action> {
    server.process_message(now, Origin::Router, message(id, ArbiterMessageTypes::Ping, &[]))
}

fn snapshot(version: u64, members: &[&[u8]]) -> Snapshot {
    Snapshot { version, members: members.iter().map(|m| m.to_vec()).collect() }
}

fn members(server: &ArbiterServer) -> Vec<Vec<u8>> {
    server.snapshot().members
}

fn count_replies(actions: &[Action], kind: ArbiterMessageTypes, id: &[u8]) -> usize {
    actions
        .iter()
        .filter(|a| matches!(a, Action::Reply(m) if m.message_type == kind && m.identity == id))
        .count()
}

#[test]
fn new_server_is_empty() {
    let server = ArbiterServer::new("ARBITER");
    assert_eq!(server.identity(), &b"ARBITER".to_vec());
    assert_eq!(server.snapshot(), snapshot(0, &[]));
}

#[test]
fn happy_path_single_client() {
    let mut server = ArbiterServer::new("ARBITER");
    let actions = register(&mut server, 0, b"CLIENT1", &[b"c1 command", b"c1 notif"]);
    assert_eq!(
        actions,
        vec![
            Action::StartSupervisor(b"CLIENT1".to_vec()),
            Action::Reply(ArbiterMessage::new(b"CLIENT1", ArbiterMessageTypes::AcceptConnection)),
            Action::Publish(snapshot(1, &[b"CLIENT1"])),
        ]
    );
}

#[test]
fn four_clients_in_order() {
    let mut server = ArbiterServer::new("ARBITER");
    let names: [&[u8]; 4] = [b"CLIENT1", b"CLIENT2", b"CLIENT3", b"CLIENT4"];
    let mut accepts = 0;
    for (k, name) in names.iter().enumerate() {
        let actions = register(&mut server, 10 * k as u64, name, &[b"command", b"notif"]);
        accepts += count_replies(&actions, ArbiterMessageTypes::AcceptConnection, name);
        assert_eq!(actions.last().unwrap(), &Action::Publish(snapshot(k as u64 + 1, &names[..=k])));
    }
    assert_eq!(accepts, 4);
}

#[test]
fn timeout_eviction_publishes_next_version() {
    let mut server = ArbiterServer::new("ARBITER");
    register(&mut server, 1000, b"CLIENT1", &[]);
    // Still within the deadline: nothing happens on an unrelated request.
    let early = server.process_message(5999, Origin::Router, message(b"X", ArbiterMessageTypes::Pong, &[]));
    assert!(early.is_empty());
    assert_eq!(members(&server), vec![b"CLIENT1".to_vec()]);
    // The supervisor's Deregister at the deadline.
    let dereg = message(b"CLIENT1", ArbiterMessageTypes::Deregister, &[b"CLIENT1"]);
    let actions = server.process_message(6000, Origin::Supervisor, dereg);
    assert_eq!(
        actions,
        vec![Action::StopSupervisor(b"CLIENT1".to_vec()), Action::Publish(snapshot(2, &[]))]
    );
}

#[test]
fn silent_node_left_out_of_next_snapshot() {
    let mut server = ArbiterServer::new("ARBITER");
    register(&mut server, 0, b"CLIENT1", &[]);
    register(&mut server, 3000, b"CLIENT2", &[]);
    let actions = server.process_message(5000, Origin::Router, message(b"CLIENT2", ArbiterMessageTypes::StateRequest, &[]));
    assert_eq!(
        actions,
        vec![
            Action::StopSupervisor(b"CLIENT1".to_vec()),
            Action::Publish(snapshot(3, &[b"CLIENT2"])),
            Action::Publish(snapshot(4, &[b"CLIENT2"])),
        ]
    );
    // A late Deregister from the evicted node's supervisor changes nothing.
    let dereg = message(b"", ArbiterMessageTypes::Deregister, &[b"CLIENT1"]);
    assert!(server.process_message(5001, Origin::Supervisor, dereg).is_empty());
}

#[test]
fn ping_liveness_keeps_node() {
    let mut server = ArbiterServer::new("ARBITER");
    register(&mut server, 0, b"CLIENT1", &[b"c1 command", b"c1 notif"]);
    for k in 1..=12u64 {
        let actions = ping(&mut server, 1000 * k, b"CLIENT1");
        assert_eq!(
            actions,
            vec![
                Action::ForwardPing(b"CLIENT1".to_vec()),
                Action::Reply(ArbiterMessage::new(b"CLIENT1", ArbiterMessageTypes::Pong)),
            ]
        );
    }
    assert_eq!(server.snapshot(), snapshot(1, &[b"CLIENT1"]));
}

#[test]
fn ping_from_unknown_is_dropped() {
    let mut server = ArbiterServer::new("ARBITER");
    assert!(ping(&mut server, 0, b"STRANGER").is_empty());
    let from_channel = server.process_message(0, Origin::Supervisor, message(b"", ArbiterMessageTypes::Ping, &[]));
    assert!(from_channel.is_empty());
}

#[test]
fn ping_after_deadline_is_not_answered() {
    let mut server = ArbiterServer::new("ARBITER");
    register(&mut server, 0, b"CLIENT1", &[]);
    let actions = ping(&mut server, 5000, b"CLIENT1");
    assert_eq!(
        actions,
        vec![Action::StopSupervisor(b"CLIENT1".to_vec()), Action::Publish(snapshot(2, &[]))]
    );
}

#[test]
fn duplicate_register_accepted_once() {
    let mut server = ArbiterServer::new("ARBITER");
    let first = register(&mut server, 0, b"CLIENT1", &[b"one"]);
    let second = register(&mut server, 1, b"CLIENT1", &[b"two"]);
    assert_eq!(count_replies(&first, ArbiterMessageTypes::AcceptConnection, b"CLIENT1"), 1);
    assert!(second.is_empty());
    assert_eq!(server.snapshot(), snapshot(1, &[b"CLIENT1"]));
}

#[test]
fn empty_identity_register_ignored() {
    let mut server = ArbiterServer::new("ARBITER");
    assert!(register(&mut server, 0, b"", &[b"x"]).is_empty());
    assert_eq!(server.snapshot(), snapshot(0, &[]));
}

#[test]
fn own_identity_register_ignored() {
    let mut server = ArbiterServer::new("ARBITER");
    assert!(register(&mut server, 0, b"ARBITER", &[]).is_empty());
    assert_eq!(server.snapshot(), snapshot(0, &[]));
}

#[test]
fn register_from_channel_ignored() {
    let mut server = ArbiterServer::new("ARBITER");
    let actions = server.process_message(0, Origin::Supervisor, message(b"CLIENT1", ArbiterMessageTypes::Register, &[]));
    assert!(actions.is_empty());
}

#[test]
fn malformed_header_changes_nothing() {
    let mut server = ArbiterServer::new("ARBITER");
    register(&mut server, 0, b"CLIENT1", &[]);
    let frames = vec![b"CLIENT1".to_vec(), vec![], vec![3u8], vec![0u8, 0, 0, 3]];
    let decoded = ArbiterMessage::decode(frames, SocketRole::Router);
    assert!(server.process_message(10, Origin::Router, decoded).is_empty());
    assert_eq!(server.snapshot(), snapshot(1, &[b"CLIENT1"]));
}

#[test]
fn client_deregister_removes_sender() {
    let mut server = ArbiterServer::new("ARBITER");
    register(&mut server, 0, b"CLIENT1", &[]);
    register(&mut server, 0, b"CLIENT2", &[]);
    let actions = server.process_message(1, Origin::Router, message(b"CLIENT1", ArbiterMessageTypes::Deregister, &[]));
    assert_eq!(
        actions,
        vec![Action::StopSupervisor(b"CLIENT1".to_vec()), Action::Publish(snapshot(3, &[b"CLIENT2"]))]
    );
}

#[test]
fn channel_deregister_without_frame_ignored() {
    let mut server = ArbiterServer::new("ARBITER");
    register(&mut server, 0, b"CLIENT1", &[]);
    let actions = server.process_message(1, Origin::Supervisor, message(b"", ArbiterMessageTypes::Deregister, &[]));
    assert!(actions.is_empty());
}

#[test]
fn versions_strictly_increase() {
    let mut server = ArbiterServer::new("ARBITER");
    let mut last = 0u64;
    let mut steps: Vec<Vec<Action>> = Vec::new();
    steps.push(register(&mut server, 0, b"A", &[]));
    steps.push(server.process_message(1, Origin::Router, message(b"A", ArbiterMessageTypes::StateRequest, &[])));
    steps.push(register(&mut server, 2, b"B", &[]));
    steps.push(server.process_message(6000, Origin::Router, message(b"B", ArbiterMessageTypes::StateRequest, &[])));
    for actions in steps {
        for a in actions {
            if let Action::Publish(s) = a {
                assert!(s.version > last);
                assert_eq!(s.version, last + 1);
                last = s.version;
            }
        }
    }
    assert_eq!(last, 5);
    assert!(last <= MAX_VERSION);
}

#[test]
fn unknown_and_pong_dropped() {
    let mut server = ArbiterServer::new("ARBITER");
    assert!(server.process_message(0, Origin::Router, message(b"A", ArbiterMessageTypes::Unknown, &[])).is_empty());
    assert!(server.process_message(0, Origin::Router, message(b"A", ArbiterMessageTypes::AcceptConnection, &[])).is_empty());
}

#[test]
fn snapshot_encoding() {
    let s = snapshot(0x0102, &[b"A", b"BC"]);
    assert_eq!(
        s.encode(),
        vec![vec![0u8, 0, 0, 0, 0, 0, 1, 2], b"A".to_vec(), b"BC".to_vec()]
    );
    assert_eq!(snapshot(u64::MAX, &[]).encode(), vec![vec![255u8; 8]]);
}

#[test]
fn supervisor_channel_address() {
    assert_eq!(channel_address(b"CLIENT1"), b"inproc://CLIENT1".to_vec());
    assert_eq!(channel_address(b""), b"inproc://".to_vec());
}
