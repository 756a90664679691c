//! The node side: declared capabilities and the session driver.
//!
//! The driver's task owns a dealer endpoint. It calls
//! [`ArbiterClient::start`], then loops: it sleeps for the current
//! [`ClientCommand`]'s `sleep_ms`, sends its messages in order, waits at most
//! its `wait_ms` for one message, and hands what it received (or `None` on
//! timeout) to [`ArbiterClient::session_step`].

use vstd::prelude::*;
use vstd::string::StringSliceAdditionalSpecFns;
use vstd::utf8::encode_utf8;

use crate::codec::{ArbiterMessage, ArbiterMessageTypes, MessageView, copy_bytes, frames_view};

verus! {

/// How long a Register waits for its AcceptConnection.
pub const ACCEPT_TIMEOUT_MS: u64 = 2000;

/// How long a Ping waits for its Pong, and the pause after each Pong.
pub const PING_INTERVAL_MS: u64 = 1000;

/// The two kinds of capability a node declares.
#[derive(Clone, Copy, Debug, PartialEq, Eq, Structural)]
pub enum MessageType {
    Command,
    Data,
    Unknown,
}

impl MessageType {
    pub open spec fn spec_from_u8(value: u8) -> MessageType {
        match value {
            0 => MessageType::Command,
            1 => MessageType::Data,
            _ => MessageType::Unknown,
        }
    }

    pub fn from_u8(value: u8) -> (r: MessageType)
        ensures
            r == Self::spec_from_u8(value),
            value == 0 ==> r == MessageType::Command,
            value == 1 ==> r == MessageType::Data,
            value >= 2 ==> r == MessageType::Unknown,
    {
        match value {
            0 => MessageType::Command,
            1 => MessageType::Data,
            _ => MessageType::Unknown,
        }
    }
}

/// The UTF-8 bytes of each name, one frame per name.
pub open spec fn name_frames(names: Seq<String>) -> Seq<Seq<u8>> {
    names.map_values(|n: String| encode_utf8(n@))
}

/// Where a node's session stands.
#[derive(Clone, Copy, Debug, PartialEq, Eq, Structural)]
pub enum SessionState {
    /// A Register was sent; waiting for the AcceptConnection.
    AwaitAccept,
    /// Admitted; pinging.
    Ready,
}

/// What the driver does next: sleep `sleep_ms`, send these messages in
/// order, then wait at most `wait_ms` for one message.
#[derive(Clone, Debug, PartialEq, Eq)]
pub struct ClientCommand {
    pub send: Vec<ArbiterMessage>,
    pub sleep_ms: u64,
    pub wait_ms: u64,
}

pub struct CommandView {
    pub send: Seq<MessageView>,
    pub sleep_ms: u64,
    pub wait_ms: u64,
}

impl View for ClientCommand {
    type V = CommandView;

    open spec fn view(&self) -> CommandView {
        CommandView { send: messages_view(self.send@), sleep_ms: self.sleep_ms, wait_ms: self.wait_ms }
    }
}

pub open spec fn messages_view(v: Seq<ArbiterMessage>) -> Seq<MessageView> {
    v.map_values(|m: ArbiterMessage| m@)
}

/// A message with no identity and no data: what a dealer sends for control.
pub open spec fn bare(kind: ArbiterMessageTypes) -> MessageView {
    MessageView { identity: Seq::empty(), kind, data: Seq::empty() }
}

/// A message of the given kind with no identity and no data.
fn control(kind: ArbiterMessageTypes) -> (r: ArbiterMessage)
    ensures
        r@ == bare(kind),
{
    let none: Vec<u8> = Vec::new();
    let r = ArbiterMessage::new(none.as_slice(), kind);
    assert(r@.identity =~= Seq::<u8>::empty());
    r
}

/// A node: its name, the arbiter's name, and the commands and data
/// notifications it declares, in order.
#[derive(Clone)]
pub struct ArbiterClient {
    server_identity: String,
    my_identity: String,
    command_messages: Vec<String>,
    data_messages: Vec<String>,
}

impl ArbiterClient {
    pub closed spec fn spec_identity(&self) -> Seq<char> {
        self.my_identity@
    }

    pub closed spec fn spec_server_identity(&self) -> Seq<char> {
        self.server_identity@
    }

    pub closed spec fn spec_commands(&self) -> Seq<String> {
        self.command_messages@
    }

    pub closed spec fn spec_data(&self) -> Seq<String> {
        self.data_messages@
    }

    /// The Register this node sends: command names, then data names, one
    /// frame each, in declared order.
    pub open spec fn spec_register(&self) -> MessageView {
        MessageView {
            identity: Seq::empty(),
            kind: ArbiterMessageTypes::Register,
            data: name_frames(self.spec_commands()) + name_frames(self.spec_data()),
        }
    }

    /// The driver's first state and command: register, then wait for the
    /// AcceptConnection.
    pub open spec fn spec_start(&self) -> (SessionState, CommandView) {
        (
            SessionState::AwaitAccept,
            CommandView { send: seq![self.spec_register()], sleep_ms: 0, wait_ms: ACCEPT_TIMEOUT_MS },
        )
    }

    /// The driver's transitions. While awaiting acceptance, every outcome is
    /// followed by a StateRequest; anything but an AcceptConnection (a
    /// timeout included) sends the Register again. Once admitted, the node
    /// pings; after a Pong it first pauses, after a missed one it pings again
    /// at once.
    pub open spec fn spec_session_step(&self, state: SessionState, received: Option<ArbiterMessageTypes>) -> (
        SessionState,
        CommandView,
    ) {
        match state {
            SessionState::AwaitAccept => if received == Some(ArbiterMessageTypes::AcceptConnection) {
                (
                    SessionState::Ready,
                    CommandView {
                        send: seq![bare(ArbiterMessageTypes::StateRequest), bare(ArbiterMessageTypes::Ping)],
                        sleep_ms: 0,
                        wait_ms: PING_INTERVAL_MS,
                    },
                )
            } else {
                (
                    SessionState::AwaitAccept,
                    CommandView {
                        send: seq![bare(ArbiterMessageTypes::StateRequest), self.spec_register()],
                        sleep_ms: 0,
                        wait_ms: ACCEPT_TIMEOUT_MS,
                    },
                )
            },
            SessionState::Ready => (
                SessionState::Ready,
                CommandView {
                    send: seq![bare(ArbiterMessageTypes::Ping)],
                    sleep_ms: if received == Some(ArbiterMessageTypes::Pong) {
                        PING_INTERVAL_MS
                    } else {
                        0
                    },
                    wait_ms: PING_INTERVAL_MS,
                },
            ),
        }
    }

    pub fn start(&self) -> (r: (SessionState, ClientCommand))
        ensures
            (r.0, r.1@) == self.spec_start(),
    {
        let mut send: Vec<ArbiterMessage> = Vec::new();
        send.push(self.register_message());
        let command = ClientCommand { send, sleep_ms: 0, wait_ms: ACCEPT_TIMEOUT_MS };
        assert(command@.send =~= seq![self.spec_register()]);
        (SessionState::AwaitAccept, command)
    }

    /// The next state and command after a wait that received a message of
    /// kind `received`, or timed out when it is `None`.
    pub fn session_step(&self, state: SessionState, received: Option<ArbiterMessageTypes>) -> (r: (
        SessionState,
        ClientCommand,
    ))
        ensures
            (r.0, r.1@) == self.spec_session_step(state, received),
    {
        let mut send: Vec<ArbiterMessage> = Vec::new();
        match state {
            SessionState::AwaitAccept => {
                let request = control(ArbiterMessageTypes::StateRequest);
                assert(request@ == bare(ArbiterMessageTypes::StateRequest));
                send.push(request);
                if received == Some(ArbiterMessageTypes::AcceptConnection) {
                    let ping = control(ArbiterMessageTypes::Ping);
                    assert(ping@ == bare(ArbiterMessageTypes::Ping));
                    send.push(ping);
                    let command = ClientCommand { send, sleep_ms: 0, wait_ms: PING_INTERVAL_MS };
                    assert(command@.send =~= seq![bare(ArbiterMessageTypes::StateRequest), bare(ArbiterMessageTypes::Ping)]);
                    (SessionState::Ready, command)
                } else {
                    send.push(self.register_message());
                    let command = ClientCommand { send, sleep_ms: 0, wait_ms: ACCEPT_TIMEOUT_MS };
                    assert(command@.send =~= seq![bare(ArbiterMessageTypes::StateRequest), self.spec_register()]);
                    (SessionState::AwaitAccept, command)
                }
            },
            SessionState::Ready => {
                send.push(control(ArbiterMessageTypes::Ping));
                let sleep_ms = if received == Some(ArbiterMessageTypes::Pong) {
                    PING_INTERVAL_MS
                } else {
                    0
                };
                let command = ClientCommand { send, sleep_ms, wait_ms: PING_INTERVAL_MS };
                assert(command@.send =~= seq![bare(ArbiterMessageTypes::Ping)]);
                (SessionState::Ready, command)
            },
        }
    }

    /// A node named `identity` that declares nothing yet.
    pub fn new(identity: &str) -> (r: ArbiterClient)
        ensures
            r.spec_identity() == identity@,
            r.spec_server_identity() == "ARBITER"@,
            r.spec_commands() == Seq::<String>::empty(),
            r.spec_data() == Seq::<String>::empty(),
    {
        ArbiterClient {
            server_identity: String::from_str("ARBITER"),
            my_identity: identity.to_owned(),
            command_messages: Vec::new(),
            data_messages: Vec::new(),
        }
    }

    pub fn identity(&self) -> (r: &String)
        ensures
            r@ == self.spec_identity(),
    {
        &self.my_identity
    }

    /// The name of the arbiter this node registers with.
    pub fn server_identity(&self) -> (r: &String)
        ensures
            r@ == self.spec_server_identity(),
    {
        &self.server_identity
    }

    /// Declares a capability; an `Unknown` kind is ignored.
    pub fn add_message(&mut self, message_type: MessageType, name: String)
        ensures
            final(self).spec_identity() == old(self).spec_identity(),
            final(self).spec_server_identity() == old(self).spec_server_identity(),
            final(self).spec_commands() == if message_type == MessageType::Command {
                old(self).spec_commands().push(name)
            } else {
                old(self).spec_commands()
            },
            final(self).spec_data() == if message_type == MessageType::Data {
                old(self).spec_data().push(name)
            } else {
                old(self).spec_data()
            },
    {
        match message_type {
            MessageType::Command => self.command_messages.push(name),
            MessageType::Data => self.data_messages.push(name),
            MessageType::Unknown => {},
        }
    }

    /// The Register announcing this node's capabilities.
    pub fn register_message(&self) -> (r: ArbiterMessage)
        ensures
            r@ == self.spec_register(),
    {
        let mut message = control(ArbiterMessageTypes::Register);
        let mut i: usize = 0;
        while i < self.command_messages.len()
            invariant
                i <= self.command_messages@.len(),
                message@.identity == Seq::<u8>::empty(),
                message@.kind == ArbiterMessageTypes::Register,
                message@.data == name_frames(self.command_messages@.subrange(0, i as int)),
            decreases self.command_messages@.len() - i,
        {
            let name = self.command_messages[i].as_str();
            let bytes = name.as_bytes();
            assert(bytes@ == encode_utf8(self.command_messages@[i as int]@));
            let frame = copy_bytes(bytes);
            let ghost prev = message.data_frames@;
            message.data_frames.push(frame);
            assert(frames_view(message.data_frames@) =~= frames_view(prev).push(frame@));
            i = i + 1;
            assert(message@.data =~= name_frames(self.command_messages@.subrange(0, i as int)));
        }
        assert(self.command_messages@.subrange(0, i as int) =~= self.command_messages@);
        let mut j: usize = 0;
        while j < self.data_messages.len()
            invariant
                j <= self.data_messages@.len(),
                message@.identity == Seq::<u8>::empty(),
                message@.kind == ArbiterMessageTypes::Register,
                message@.data == name_frames(self.command_messages@) + name_frames(
                    self.data_messages@.subrange(0, j as int),
                ),
            decreases self.data_messages@.len() - j,
        {
            let name = self.data_messages[j].as_str();
            let bytes = name.as_bytes();
            assert(bytes@ == encode_utf8(self.data_messages@[j as int]@));
            let frame = copy_bytes(bytes);
            let ghost prev = message.data_frames@;
            message.data_frames.push(frame);
            assert(frames_view(message.data_frames@) =~= frames_view(prev).push(frame@));
            j = j + 1;
            assert(message@.data =~= name_frames(self.command_messages@) + name_frames(
                self.data_messages@.subrange(0, j as int),
            ));
        }
        assert(self.data_messages@.subrange(0, j as int) =~= self.data_messages@);
        message
    }
}

} // verus!
