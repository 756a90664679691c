//! Wire codec for arbiter messages.
//!
//! A message travels as a sequence of frames. After an envelope that depends
//! on the endpoint role comes the body:
//! `[0x00, kind] data_0 .. data_{k-1} checksum`.
//!
//! The checksum frame holds four bytes: the sum of every byte of the header
//! and data frames, taken modulo 2^32, most significant byte first.

use vstd::prelude::*;

verus! {

/// Kinds of protocol messages, with their stable wire codes.
#[derive(Clone, Copy, Debug, PartialEq, Eq, Structural)]
pub enum ArbiterMessageTypes {
    Register,
    AcceptConnection,
    Deregister,
    Ping,
    Pong,
    StateRequest,
    Unknown,
}

impl ArbiterMessageTypes {
    /// The wire code of a kind; `Unknown` has the first unused code.
    pub open spec fn spec_code(self) -> u8 {
        match self {
            ArbiterMessageTypes::Register => 0,
            ArbiterMessageTypes::AcceptConnection => 1,
            ArbiterMessageTypes::Deregister => 2,
            ArbiterMessageTypes::Ping => 3,
            ArbiterMessageTypes::Pong => 4,
            ArbiterMessageTypes::StateRequest => 5,
            ArbiterMessageTypes::Unknown => 6,
        }
    }

    /// The kind that a wire code denotes.
    pub open spec fn spec_from_u8(value: u8) -> ArbiterMessageTypes {
        match value {
            0 => ArbiterMessageTypes::Register,
            1 => ArbiterMessageTypes::AcceptConnection,
            2 => ArbiterMessageTypes::Deregister,
            3 => ArbiterMessageTypes::Ping,
            4 => ArbiterMessageTypes::Pong,
            5 => ArbiterMessageTypes::StateRequest,
            _ => ArbiterMessageTypes::Unknown,
        }
    }

    pub fn from_u8(value: u8) -> (r: ArbiterMessageTypes)
        ensures
            r == Self::spec_from_u8(value),
            value < 6 ==> r.spec_code() == value,
            value >= 6 ==> r == ArbiterMessageTypes::Unknown,
    {
        match value {
            0 => ArbiterMessageTypes::Register,
            1 => ArbiterMessageTypes::AcceptConnection,
            2 => ArbiterMessageTypes::Deregister,
            3 => ArbiterMessageTypes::Ping,
            4 => ArbiterMessageTypes::Pong,
            5 => ArbiterMessageTypes::StateRequest,
            _ => ArbiterMessageTypes::Unknown,
        }
    }

    pub fn code(&self) -> (r: u8)
        ensures
            r == self.spec_code(),
    {
        match self {
            ArbiterMessageTypes::Register => 0,
            ArbiterMessageTypes::AcceptConnection => 1,
            ArbiterMessageTypes::Deregister => 2,
            ArbiterMessageTypes::Ping => 3,
            ArbiterMessageTypes::Pong => 4,
            ArbiterMessageTypes::StateRequest => 5,
            ArbiterMessageTypes::Unknown => 6,
        }
    }
}

/// Every kind decodes back from its own code.
pub proof fn lemma_code_round_trip(kind: ArbiterMessageTypes)
    ensures
        ArbiterMessageTypes::spec_from_u8(kind.spec_code()) == kind,
{
}

/// The role of the endpoint a message is sent on or received from.
#[derive(Clone, Copy, Debug, PartialEq, Eq, Structural)]
pub enum SocketRole {
    /// Prefixes a peer identity frame and an empty delimiter frame.
    Router,
    /// Prefixes an empty delimiter frame.
    Dealer,
    /// No envelope.
    Pair,
}

/// Index of the header frame in a received message.
pub open spec fn header_index(role: SocketRole) -> int {
    match role {
        SocketRole::Router => 2,
        SocketRole::Dealer => 1,
        SocketRole::Pair => 0,
    }
}

/// The frames that precede the header on a given endpoint role.
pub open spec fn envelope(role: SocketRole, identity: Seq<u8>) -> Seq<Seq<u8>> {
    match role {
        SocketRole::Router => seq![identity, Seq::<u8>::empty()],
        SocketRole::Dealer => seq![Seq::<u8>::empty()],
        SocketRole::Pair => Seq::<Seq<u8>>::empty(),
    }
}

/// The two-byte header frame of a kind.
pub open spec fn header_frame(kind: ArbiterMessageTypes) -> Seq<u8> {
    seq![0u8, kind.spec_code()]
}

pub open spec fn add_byte(acc: u32, b: u8) -> u32 {
    ((acc as int + b as int) % 0x1_0000_0000) as u32
}

/// Sum of the bytes of `s` added to `acc`, modulo 2^32.
pub open spec fn bytes_sum(acc: u32, s: Seq<u8>) -> u32
    decreases s.len(),
{
    if s.len() == 0 {
        acc
    } else {
        add_byte(bytes_sum(acc, s.drop_last()), s.last())
    }
}

/// Sum of every byte of every frame, modulo 2^32.
pub open spec fn frames_sum(frames: Seq<Seq<u8>>) -> u32
    decreases frames.len(),
{
    if frames.len() == 0 {
        0
    } else {
        bytes_sum(frames_sum(frames.drop_last()), frames.last())
    }
}

/// The checksum frame protecting a body (header and data frames).
pub open spec fn checksum_frame(body: Seq<Seq<u8>>) -> Seq<u8> {
    let c = frames_sum(body);
    seq![
        (c / 0x100_0000) as u8,
        ((c / 0x1_0000) % 0x100) as u8,
        ((c / 0x100) % 0x100) as u8,
        (c % 0x100) as u8,
    ]
}

/// The frames of a sequence of byte vectors.
pub open spec fn frames_view(v: Seq<Vec<u8>>) -> Seq<Seq<u8>> {
    v.map_values(|f: Vec<u8>| f@)
}

/// A decoded message, as a mathematical value.
pub struct MessageView {
    pub identity: Seq<u8>,
    pub kind: ArbiterMessageTypes,
    pub data: Seq<Seq<u8>>,
}

/// The frames of a message sent on an endpoint of the given role.
pub open spec fn spec_encode(role: SocketRole, m: MessageView) -> Seq<Seq<u8>> {
    let body = seq![header_frame(m.kind)] + m.data;
    envelope(role, m.identity) + body + seq![checksum_frame(body)]
}

/// Whether received frames hold a well-formed body after the envelope.
pub open spec fn spec_is_valid(role: SocketRole, frames: Seq<Seq<u8>>) -> bool {
    let h = header_index(role);
    &&& frames.len() >= h + 2
    &&& frames[h].len() == 2
    &&& frames.last() == checksum_frame(frames.subrange(h, frames.len() - 1))
}

/// The message that received frames decode to. Malformed traffic (no header,
/// a header that is not two bytes long, a bad checksum) decodes to `Unknown`
/// with no data.
pub open spec fn spec_decode(role: SocketRole, frames: Seq<Seq<u8>>) -> MessageView {
    let h = header_index(role);
    let identity = if role == SocketRole::Router && frames.len() > 0 {
        frames[0]
    } else {
        Seq::<u8>::empty()
    };
    if spec_is_valid(role, frames) {
        MessageView {
            identity,
            kind: ArbiterMessageTypes::spec_from_u8(frames[h][1]),
            data: frames.subrange(h + 1, frames.len() - 1),
        }
    } else {
        MessageView { identity, kind: ArbiterMessageTypes::Unknown, data: Seq::empty() }
    }
}

/// Decoding what was encoded on the same endpoint role gives back the kind
/// and the data frames, and the identity wherever the role carries one
/// (a router's envelope) or the identity was empty.
pub proof fn lemma_round_trip(role: SocketRole, m: MessageView)
    requires
        role == SocketRole::Router || m.identity.len() == 0,
    ensures
        spec_decode(role, spec_encode(role, m)) == m,
{
    let body = seq![header_frame(m.kind)] + m.data;
    let frames = spec_encode(role, m);
    let h = header_index(role);
    assert(frames.subrange(h, frames.len() - 1) =~= body);
    assert(frames.subrange(h + 1, frames.len() - 1) =~= m.data);
    lemma_code_round_trip(m.kind);
    assert(frames[h] == header_frame(m.kind));
    if role != SocketRole::Router {
        assert(m.identity =~= Seq::<u8>::empty());
    }
}


/// A decoded unit of protocol traffic.
#[derive(Clone, Debug, PartialEq, Eq)]
pub struct ArbiterMessage {
    pub identity: Vec<u8>,
    pub message_type: ArbiterMessageTypes,
    pub data_frames: Vec<Vec<u8>>,
}

impl View for ArbiterMessage {
    type V = MessageView;

    open spec fn view(&self) -> MessageView {
        MessageView {
            identity: self.identity@,
            kind: self.message_type,
            data: frames_view(self.data_frames@),
        }
    }
}

/// A copy of a byte string.
pub fn copy_bytes(s: &[u8]) -> (r: Vec<u8>)
    ensures
        r@ == s@,
{
    let mut r: Vec<u8> = Vec::new();
    let mut i: usize = 0;
    while i < s.len()
        invariant
            i <= s@.len(),
            r@ == s@.subrange(0, i as int),
        decreases s@.len() - i,
    {
        r.push(s[i]);
        i = i + 1;
        assert(r@ =~= s@.subrange(0, i as int));
    }
    assert(r@ =~= s@);
    r
}

/// Whether two byte strings are equal.
pub fn bytes_equal(a: &[u8], b: &[u8]) -> (r: bool)
    ensures
        r == (a@ == b@),
{
    if a.len() != b.len() {
        return false;
    }
    let mut i: usize = 0;
    while i < a.len()
        invariant
            a@.len() == b@.len(),
            i <= a@.len(),
            forall|j: int| 0 <= j < i ==> a@[j] == b@[j],
        decreases a@.len() - i,
    {
        if a[i] != b[i] {
            return false;
        }
        i = i + 1;
    }
    assert(a@ =~= b@);
    true
}

/// Computes the checksum frame of `frames[lo..hi]`.
pub fn checksum_of(frames: &Vec<Vec<u8>>, lo: usize, hi: usize) -> (r: Vec<u8>)
    requires
        lo <= hi <= frames@.len(),
    ensures
        r@ == checksum_frame(frames_view(frames@).subrange(lo as int, hi as int)),
{
    let ghost all = frames_view(frames@);
    let mut acc: u32 = 0;
    let mut k: usize = lo;
    while k < hi
        invariant
            lo <= k <= hi <= frames@.len(),
            all == frames_view(frames@),
            acc == frames_sum(all.subrange(lo as int, k as int)),
        decreases hi - k,
    {
        let frame = &frames[k];
        let ghost start = acc;
        let mut i: usize = 0;
        while i < frame.len()
            invariant
                i <= frame@.len(),
                acc == bytes_sum(start, frame@.subrange(0, i as int)),
            decreases frame@.len() - i,
        {
            let t: u64 = acc as u64 + frame[i] as u64;
            acc = (t % 0x1_0000_0000) as u32;
            proof {
                let s = frame@.subrange(0, i + 1);
                assert(s.drop_last() =~= frame@.subrange(0, i as int));
            }
            i = i + 1;
        }
        proof {
            assert(frame@.subrange(0, i as int) =~= frame@);
            let s = all.subrange(lo as int, k + 1);
            assert(s.drop_last() =~= all.subrange(lo as int, k as int));
            assert(s.last() == frame@);
        }
        k = k + 1;
    }
    let mut r: Vec<u8> = Vec::new();
    r.push((acc / 0x100_0000) as u8);
    r.push(((acc / 0x1_0000) % 0x100) as u8);
    r.push(((acc / 0x100) % 0x100) as u8);
    r.push((acc % 0x100) as u8);
    assert(r@ =~= checksum_frame(all.subrange(lo as int, hi as int)));
    r
}

impl ArbiterMessage {
    /// A message of the given kind, addressed to `identity`, with no data.
    pub fn new(identity: &[u8], message_type: ArbiterMessageTypes) -> (r: ArbiterMessage)
        ensures
            r@ == (MessageView { identity: identity@, kind: message_type, data: Seq::empty() }),
    {
        let r = ArbiterMessage {
            identity: copy_bytes(identity),
            message_type,
            data_frames: Vec::new(),
        };
        assert(r@.data =~= Seq::<Seq<u8>>::empty());
        r
    }

    pub fn get_message_type(&self) -> (r: ArbiterMessageTypes)
        ensures
            r == self.message_type,
    {
        self.message_type
    }

    /// The frames to transmit for this message on an endpoint of `role`:
    /// the envelope, the header, the data frames and the checksum.
    pub fn encode(self, role: SocketRole) -> (r: Vec<Vec<u8>>)
        ensures
            frames_view(r@) == spec_encode(role, self@),
    {
        let ghost m = self@;
        let ArbiterMessage { identity, message_type, mut data_frames } = self;
        let mut body: Vec<Vec<u8>> = Vec::new();
        let mut header: Vec<u8> = Vec::new();
        header.push(0u8);
        header.push(message_type.code());
        assert(header@ =~= header_frame(m.kind));
        body.push(header);
        let ghost data_before = data_frames@;
        assert(frames_view(data_before) == m.data);
        body.append(&mut data_frames);
        assert(body@ =~= seq![body@[0]] + data_before);
        let body_len = body.len();
        let checksum = checksum_of(&body, 0, body_len);
        let ghost body_view = frames_view(body@);
        assert(body_view =~= seq![header_frame(m.kind)] + m.data);
        assert(body_view.subrange(0, body_len as int) =~= body_view);
        let mut frames: Vec<Vec<u8>> = Vec::new();
        match role {
            SocketRole::Router => {
                frames.push(identity);
                frames.push(Vec::new());
            },
            SocketRole::Dealer => {
                frames.push(Vec::new());
            },
            SocketRole::Pair => {},
        }
        assert(frames_view(frames@) =~= envelope(role, m.identity));
        let ghost env = frames_view(frames@);
        frames.append(&mut body);
        frames.push(checksum);
        assert(frames_view(frames@) =~= env + body_view + seq![checksum_frame(body_view)]);
        frames
    }

    /// Decodes the frames of one received message from an endpoint of `role`.
    /// Never fails: malformed traffic decodes to `Unknown` with no data.
    pub fn decode(frames: Vec<Vec<u8>>, role: SocketRole) -> (r: ArbiterMessage)
        ensures
            r@ == spec_decode(role, frames_view(frames@)),
    {
        let ghost fv = frames_view(frames@);
        let h: usize = match role {
            SocketRole::Router => 2,
            SocketRole::Dealer => 1,
            SocketRole::Pair => 0,
        };
        let identity = if role == SocketRole::Router && frames.len() > 0 {
            copy_bytes(frames[0].as_slice())
        } else {
            Vec::new()
        };
        let n = frames.len();
        let valid = if n >= h + 2 && frames[h].len() == 2 {
            let expected = checksum_of(&frames, h, n - 1);
            bytes_equal(expected.as_slice(), frames[n - 1].as_slice())
        } else {
            false
        };
        if valid {
            let message_type = ArbiterMessageTypes::from_u8(frames[h][1]);
            let mut frames = frames;
            frames.truncate(n - 1);
            let data_frames = frames.split_off(h + 1);
            let r = ArbiterMessage { identity, message_type, data_frames };
            assert(r@.data =~= fv.subrange(h + 1, n - 1));
            r
        } else {
            let r = ArbiterMessage {
                identity,
                message_type: ArbiterMessageTypes::Unknown,
                data_frames: Vec::new(),
            };
            assert(r@.data =~= Seq::<Seq<u8>>::empty());
            r
        }
    }
}

} // verus!
