use radiant::arbiter::PING_DEADLINE_MS;
use radiant::client::{ArbiterClient, MessageType, SessionState, ACCEPT_TIMEOUT_MS, PING_INTERVAL_MS};
use radiant::codec::{ArbiterMessage, ArbiterMessageTypes};
use radiant::supervisor::{Supervisor, SupervisorAction};

fn bare(kind: ArbiterMessageTypes) -> ArbiterMessage {
    ArbiterMessage::new(b"", kind)
}

fn client1() -> ArbiterClient {
    let mut c = ArbiterClient::new("CLIENT1");
    c.add_message(MessageType::Command, "c1 command".to_string());
    c.add_message(MessageType::Data, "c1 notif".to_string());
    c
}

#[test]
fn message_type_codes() {
    assert_eq!(MessageType::from_u8(0), MessageType::Command);
    assert_eq!(MessageType::from_u8(1), MessageType::Data);
    assert_eq!(MessageType::from_u8(2), MessageType::Unknown);
    assert_eq!(MessageType::from_u8(200), MessageType::Unknown);
}

#[test]
fn register_lists_commands_then_data() {
    let mut c = ArbiterClient::new("CLIENT1");
    c.add_message(MessageType::Data, "d1".to_string());
    c.add_message(MessageType::Command, "c1".to_string());
    c.add_message(MessageType::Unknown, "ignored".to_string());
    c.add_message(MessageType::Command, "c2".to_string());
    let m = c.register_message();
    assert_eq!(m.message_type, ArbiterMessageTypes::Register);
    assert!(m.identity.is_empty());
    assert_eq!(m.data_frames, vec![b"c1".to_vec(), b"c2".to_vec(), b"d1".to_vec()]);
    assert_eq!(c.identity(), "CLIENT1");
    assert_eq!(c.server_identity(), "ARBITER");
}

#[test]
fn register_encodes_utf8() {
    let mut c = ArbiterClient::new("N");
    c.add_message(MessageType::Command, "é".to_string());
    assert_eq!(c.register_message().data_frames, vec![vec![0xC3u8, 0xA9]]);
}

#[test]
fn session_starts_with_register() {
    let c = client1();
    let (state, command) = c.start();
    assert_eq!(state, SessionState::AwaitAccept);
    assert_eq!(command.send, vec![c.register_message()]);
    assert_eq!(command.sleep_ms, 0);
    assert_eq!(command.wait_ms, ACCEPT_TIMEOUT_MS);
    assert_eq!(ACCEPT_TIMEOUT_MS, 2000);
}

#[test]
fn session_retries_until_accepted() {
    let c = client1();
    for received in [None, Some(ArbiterMessageTypes::Pong)] {
        let (state, command) = c.session_step(SessionState::AwaitAccept, received);
        assert_eq!(state, SessionState::AwaitAccept);
        assert_eq!(command.send, vec![bare(ArbiterMessageTypes::StateRequest), c.register_message()]);
        assert_eq!(command.wait_ms, 2000);
    }
    let (state, command) = c.session_step(SessionState::AwaitAccept, Some(ArbiterMessageTypes::AcceptConnection));
    assert_eq!(state, SessionState::Ready);
    assert_eq!(command.send, vec![bare(ArbiterMessageTypes::StateRequest), bare(ArbiterMessageTypes::Ping)]);
    assert_eq!(command.wait_ms, PING_INTERVAL_MS);
}

#[test]
fn session_pings_with_pause_after_pong() {
    let c = client1();
    let (state, command) = c.session_step(SessionState::Ready, Some(ArbiterMessageTypes::Pong));
    assert_eq!(state, SessionState::Ready);
    assert_eq!(command.sleep_ms, 1000);
    assert_eq!(command.wait_ms, 1000);
    assert_eq!(command.send, vec![bare(ArbiterMessageTypes::Ping)]);
    let (state, command) = c.session_step(SessionState::Ready, None);
    assert_eq!(state, SessionState::Ready);
    assert_eq!(command.sleep_ms, 0);
    assert_eq!(command.send, vec![bare(ArbiterMessageTypes::Ping)]);
}

#[test]
fn supervisor_waits_while_pinged() {
    let mut s = Supervisor::new(b"CLIENT1", 0);
    assert_eq!(s.step(1000, Some(ArbiterMessageTypes::Ping)), SupervisorAction::Wait(5000));
    assert_eq!(s.step(2500, None), SupervisorAction::Wait(3500));
    assert_eq!(s.step(3000, Some(ArbiterMessageTypes::Pong)), SupervisorAction::Wait(3000));
}

#[test]
fn supervisor_deregisters_after_deadline() {
    let mut s = Supervisor::new(b"CLIENT1", 100);
    assert_eq!(s.step(5099, None), SupervisorAction::Wait(1));
    let mut expected = ArbiterMessage::new(b"CLIENT1", ArbiterMessageTypes::Deregister);
    expected.data_frames.push(b"CLIENT1".to_vec());
    assert_eq!(s.step(100 + PING_DEADLINE_MS, None), SupervisorAction::Exit(expected));
}

#[test]
fn supervisor_clock_behind_waits_full_deadline() {
    let mut s = Supervisor::new(b"N", 10_000);
    assert_eq!(s.step(5, None), SupervisorAction::Wait(5000));
}
