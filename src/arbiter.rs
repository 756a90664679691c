//! The arbiter's membership state machine.
//!
//! The main loop owns every endpoint. For each decoded message it calls
//! [`ArbiterServer::process_message`] with the time of arrival and the kind of
//! endpoint the message came from, then performs the returned actions in order.
//! Before any message is applied, nodes whose ping deadline has passed are
//! evicted, so that no snapshot ever lists a node that has gone silent.

use vstd::prelude::*;
use vstd::seq_lib::group_filter_ensures;
use vstd::string::StringSliceAdditionalSpecFns;

use crate::codec::{ArbiterMessage, ArbiterMessageTypes, MessageView, copy_bytes, bytes_equal, frames_view};

verus! {

/// A node that has not pinged for this many milliseconds is evicted.
pub const PING_DEADLINE_MS: u64 = 5000;

/// Highest snapshot version from which a step may start: one step publishes
/// at most two snapshots.
pub const MAX_VERSION: u64 = 0xffff_ffff_ffff_fffd;

/// Where a message handed to the arbiter came from.
#[derive(Clone, Copy, Debug, PartialEq, Eq, Structural)]
pub enum Origin {
    /// The external router endpoint; the message carries the sender's identity.
    Router,
    /// A supervisor's in-process channel.
    Supervisor,
}

pub struct NodeView {
    pub identity: Seq<u8>,
    pub capabilities: Seq<Seq<u8>>,
    pub admitted_at: u64,
    pub last_seen: u64,
}

pub struct SnapshotView {
    pub version: u64,
    pub members: Seq<Seq<u8>>,
}

pub enum ActionView {
    Reply(MessageView),
    ForwardPing(Seq<u8>),
    StartSupervisor(Seq<u8>),
    StopSupervisor(Seq<u8>),
    Publish(SnapshotView),
}

pub struct ArbiterView {
    pub identity: Seq<u8>,
    pub nodes: Seq<NodeView>,
    pub version: u64,
}

pub open spec fn node_ids(nodes: Seq<NodeView>) -> Seq<Seq<u8>> {
    nodes.map_values(|n: NodeView| n.identity)
}

/// Identities are non-empty, distinct, and never the arbiter's own.
pub open spec fn nodes_wf(nodes: Seq<NodeView>, own: Seq<u8>) -> bool {
    &&& forall|i: int| 0 <= i < nodes.len() ==> (#[trigger] nodes[i]).identity.len() > 0
        && nodes[i].identity != own
    &&& forall|i: int, j: int|
        0 <= i < j < nodes.len() ==> (#[trigger] nodes[i]).identity != (#[trigger] nodes[j]).identity
}

pub open spec fn is_member(nodes: Seq<NodeView>, id: Seq<u8>) -> bool {
    exists|i: int| 0 <= i < nodes.len() && (#[trigger] nodes[i]).identity == id
}

/// Position of the node with identity `id`.
pub open spec fn index_of(nodes: Seq<NodeView>, id: Seq<u8>) -> int {
    choose|i: int| 0 <= i < nodes.len() && (#[trigger] nodes[i]).identity == id
}

pub open spec fn is_live(now: u64, n: NodeView) -> bool {
    (now as int) < n.last_seen as int + PING_DEADLINE_MS as int
}

pub open spec fn live_at(now: u64) -> spec_fn(NodeView) -> bool {
    |n: NodeView| is_live(now, n)
}

pub open spec fn expired_at(now: u64) -> spec_fn(NodeView) -> bool {
    |n: NodeView| !is_live(now, n)
}

pub open spec fn snapshot_of(s: ArbiterView) -> SnapshotView {
    SnapshotView { version: s.version, members: node_ids(s.nodes) }
}

pub open spec fn reply(id: Seq<u8>, kind: ArbiterMessageTypes) -> ActionView {
    ActionView::Reply(MessageView { identity: id, kind, data: Seq::empty() })
}

/// The state once the nodes past their deadline at `now` are removed; the
/// version advances when any is.
pub open spec fn spec_evict(s: ArbiterView, now: u64) -> ArbiterView {
    ArbiterView {
        identity: s.identity,
        nodes: s.nodes.filter(live_at(now)),
        version: if s.nodes.filter(expired_at(now)).len() > 0 {
            (s.version + 1) as u64
        } else {
            s.version
        },
    }
}

pub open spec fn stop_actions(gone: Seq<NodeView>) -> Seq<ActionView> {
    gone.map_values(|n: NodeView| ActionView::StopSupervisor(n.identity))
}

/// One `StopSupervisor` per evicted node, in membership order, then a
/// snapshot when any node was evicted.
pub open spec fn spec_evict_actions(s: ArbiterView, now: u64) -> Seq<ActionView> {
    let gone = s.nodes.filter(expired_at(now));
    let stops = stop_actions(gone);
    if gone.len() > 0 {
        stops.push(ActionView::Publish(snapshot_of(spec_evict(s, now))))
    } else {
        stops
    }
}

/// Whether a Register message is admitted in state `t`.
pub open spec fn can_admit(t: ArbiterView, origin: Origin, m: MessageView) -> bool {
    &&& origin == Origin::Router
    &&& m.identity.len() > 0
    &&& m.identity != t.identity
    &&& !is_member(t.nodes, m.identity)
}

/// The node a Deregister names: its sender on the router, its first data
/// frame on a supervisor channel.
pub open spec fn deregister_target(origin: Origin, m: MessageView) -> Option<Seq<u8>> {
    match origin {
        Origin::Router => Some(m.identity),
        Origin::Supervisor => if m.data.len() > 0 {
            Some(m.data[0])
        } else {
            None
        },
    }
}

/// The transition rules applied to one message in state `t` at time `now`:
/// the next state and the actions to perform.
pub open spec fn spec_apply(t: ArbiterView, now: u64, origin: Origin, m: MessageView) -> (
    ArbiterView,
    Seq<ActionView>,
) {
    match m.kind {
        ArbiterMessageTypes::Register => if can_admit(t, origin, m) {
            let node = NodeView {
                identity: m.identity,
                capabilities: m.data,
                admitted_at: now,
                last_seen: now,
            };
            let u = ArbiterView {
                identity: t.identity,
                nodes: t.nodes.push(node),
                version: (t.version + 1) as u64,
            };
            (
                u,
                seq![
                    ActionView::StartSupervisor(m.identity),
                    reply(m.identity, ArbiterMessageTypes::AcceptConnection),
                    ActionView::Publish(snapshot_of(u)),
                ],
            )
        } else {
            (t, Seq::empty())
        },
        ArbiterMessageTypes::Deregister => match deregister_target(origin, m) {
            Some(id) => if is_member(t.nodes, id) {
                let u = ArbiterView {
                    identity: t.identity,
                    nodes: t.nodes.remove(index_of(t.nodes, id)),
                    version: (t.version + 1) as u64,
                };
                (u, seq![ActionView::StopSupervisor(id), ActionView::Publish(snapshot_of(u))])
            } else {
                (t, Seq::empty())
            },
            None => (t, Seq::empty()),
        },
        ArbiterMessageTypes::Ping => if origin == Origin::Router && is_member(t.nodes, m.identity) {
            let i = index_of(t.nodes, m.identity);
            let u = ArbiterView {
                identity: t.identity,
                nodes: t.nodes.update(i, NodeView { last_seen: now, ..t.nodes[i] }),
                version: t.version,
            };
            (
                u,
                seq![
                    ActionView::ForwardPing(m.identity),
                    reply(m.identity, ArbiterMessageTypes::Pong),
                ],
            )
        } else {
            (t, Seq::empty())
        },
        ArbiterMessageTypes::StateRequest => {
            let u = ArbiterView { identity: t.identity, nodes: t.nodes, version: (t.version + 1) as u64 };
            (u, seq![ActionView::Publish(snapshot_of(u))])
        },
        _ => (t, Seq::empty()),
    }
}

/// One full step: eviction at `now`, then the message's transition.
pub open spec fn spec_step(s: ArbiterView, now: u64, origin: Origin, m: MessageView) -> (
    ArbiterView,
    Seq<ActionView>,
) {
    let t = spec_evict(s, now);
    let r = spec_apply(t, now, origin, m);
    (r.0, spec_evict_actions(s, now) + r.1)
}

proof fn lemma_filter_wf(nodes: Seq<NodeView>, own: Seq<u8>, p: spec_fn(NodeView) -> bool)
    requires
        nodes_wf(nodes, own),
    ensures
        nodes_wf(nodes.filter(p), own),
        forall|n: NodeView| nodes.filter(p).contains(n) ==> nodes.contains(n),
    decreases nodes.len(),
{
    reveal(Seq::filter);
    broadcast use group_filter_ensures;
    assert forall|n: NodeView| nodes.filter(p).contains(n) implies nodes.contains(n) by {
        nodes.lemma_filter_contains_rev(p, n);
    }
    if nodes.len() > 0 {
        let rest = nodes.drop_last();
        assert(nodes_wf(rest, own));
        lemma_filter_wf(rest, own, p);
        let sub = rest.filter(p);
        if p(nodes.last()) {
            let f = sub.push(nodes.last());
            assert(nodes.filter(p) == f);
            assert forall|i: int, j: int| 0 <= i < j < f.len() implies f[i].identity != f[j].identity by {
                if j == f.len() - 1 {
                    assert(sub.contains(sub[i]));
                    assert(rest.contains(sub[i]));
                    let k = choose|k: int| 0 <= k < rest.len() && rest[k] == sub[i];
                    assert(nodes[k] == rest[k]);
                }
            }
            assert forall|i: int| 0 <= i < f.len() implies (#[trigger] f[i]).identity.len() > 0
                && f[i].identity != own by {
                if i < f.len() - 1 {
                    assert(sub.contains(sub[i]));
                    assert(rest.contains(sub[i]));
                    let k = choose|k: int| 0 <= k < rest.len() && rest[k] == sub[i];
                    assert(nodes[k] == rest[k]);
                }
            }
        }
    }
}


/// An admitted node, as the main loop keeps it.
#[derive(Clone, Debug, PartialEq, Eq)]
pub struct NodeRecord {
    pub identity: Vec<u8>,
    /// The names the node declared at registration: commands, then data.
    pub capabilities: Vec<Vec<u8>>,
    pub admitted_at: u64,
    pub last_seen: u64,
}

impl View for NodeRecord {
    type V = NodeView;

    open spec fn view(&self) -> NodeView {
        NodeView {
            identity: self.identity@,
            capabilities: frames_view(self.capabilities@),
            admitted_at: self.admitted_at,
            last_seen: self.last_seen,
        }
    }
}

pub open spec fn nodes_view(v: Seq<NodeRecord>) -> Seq<NodeView> {
    v.map_values(|n: NodeRecord| n@)
}

/// A versioned list of the members' identities, in order of admission.
#[derive(Clone, Debug, PartialEq, Eq)]
pub struct Snapshot {
    pub version: u64,
    pub members: Vec<Vec<u8>>,
}

impl View for Snapshot {
    type V = SnapshotView;

    open spec fn view(&self) -> SnapshotView {
        SnapshotView { version: self.version, members: frames_view(self.members@) }
    }
}

/// The eight bytes of `v`, most significant first.
pub open spec fn be64(v: u64) -> Seq<u8> {
    Seq::new(8, |i: int| ((v as int / pow256(7 - i)) % 256) as u8)
}

pub open spec fn pow256(k: int) -> int
    decreases k,
{
    if k <= 0 {
        1
    } else {
        256 * pow256(k - 1)
    }
}

proof fn lemma_pow256_positive(k: int)
    ensures
        pow256(k) >= 1,
    decreases k,
{
    if k > 0 {
        lemma_pow256_positive(k - 1);
    }
}

impl Snapshot {
    /// The frames broadcast for this snapshot: the version as eight bytes,
    /// most significant first, then one frame per member identity.
    pub fn encode(&self) -> (r: Vec<Vec<u8>>)
        ensures
            frames_view(r@) == seq![be64(self.version)] + frames_view(self.members@),
    {
        let mut version: Vec<u8> = Vec::new();
        let mut k: usize = 0;
        let mut divisor: u64 = 0x100_0000_0000_0000;
        assert(pow256(7) == 0x100_0000_0000_0000) by {
            reveal_with_fuel(pow256, 8);
        }
        while k < 8
            invariant
                k <= 8,
                divisor >= 1,
                divisor as int == pow256(7 - k),
                version@ == be64(self.version).subrange(0, k as int),
            decreases 8 - k,
        {
            version.push(((self.version / divisor) % 256) as u8);
            assert(version@ =~= be64(self.version).subrange(0, k + 1));
            if k < 7 {
                assert(pow256(7 - k) == 256 * pow256(7 - k - 1));
                assert(pow256(7 - k - 1) >= 1) by {
                    lemma_pow256_positive(7 - k - 1);
                }
                divisor = divisor / 256;
            }
            k = k + 1;
        }
        assert(version@ =~= be64(self.version));
        let mut frames: Vec<Vec<u8>> = Vec::new();
        frames.push(version);
        let mut i: usize = 0;
        while i < self.members.len()
            invariant
                i <= self.members@.len(),
                frames_view(frames@) == seq![be64(self.version)] + frames_view(self.members@).subrange(0, i as int),
            decreases self.members@.len() - i,
        {
            let ghost prev = frames@;
            frames.push(copy_bytes(self.members[i].as_slice()));
            assert(frames_view(frames@) =~= frames_view(prev).push(self.members@[i as int]@));
            i = i + 1;
            assert(frames_view(frames@) =~= seq![be64(self.version)] + frames_view(self.members@).subrange(0, i as int));
        }
        assert(frames_view(self.members@).subrange(0, i as int) =~= frames_view(self.members@));
        frames
    }
}

/// The bytes of `inproc://`.
pub open spec fn inproc_prefix() -> Seq<u8> {
    seq![105u8, 110, 112, 114, 111, 99, 58, 47, 47]
}

/// The in-process address of a node's supervisor channel: `inproc://` then
/// the node's identity.
pub fn channel_address(identity: &[u8]) -> (r: Vec<u8>)
    ensures
        r@ == inproc_prefix() + identity@,
{
    let mut r: Vec<u8> = Vec::new();
    r.push(105u8);
    r.push(110u8);
    r.push(112u8);
    r.push(114u8);
    r.push(111u8);
    r.push(99u8);
    r.push(58u8);
    r.push(47u8);
    r.push(47u8);
    let mut i: usize = 0;
    while i < identity.len()
        invariant
            i <= identity@.len(),
            r@ == inproc_prefix() + identity@.subrange(0, i as int),
        decreases identity@.len() - i,
    {
        r.push(identity[i]);
        i = i + 1;
        assert(r@ =~= inproc_prefix() + identity@.subrange(0, i as int));
    }
    assert(identity@.subrange(0, i as int) =~= identity@);
    r
}

/// What the main loop is to do after a step.
#[derive(Clone, Debug, PartialEq, Eq)]
pub enum Action {
    /// Send the message through the router to the peer it names.
    Reply(ArbiterMessage),
    /// Send a Ping over the named node's supervisor channel.
    ForwardPing(Vec<u8>),
    /// Bind `inproc://<identity>` and start the node's supervisor on it.
    StartSupervisor(Vec<u8>),
    /// Close the named node's supervisor channel.
    StopSupervisor(Vec<u8>),
    /// Broadcast the snapshot on the publisher endpoint.
    Publish(Snapshot),
}

impl View for Action {
    type V = ActionView;

    open spec fn view(&self) -> ActionView {
        match self {
            Action::Reply(m) => ActionView::Reply(m@),
            Action::ForwardPing(id) => ActionView::ForwardPing(id@),
            Action::StartSupervisor(id) => ActionView::StartSupervisor(id@),
            Action::StopSupervisor(id) => ActionView::StopSupervisor(id@),
            Action::Publish(snap) => ActionView::Publish(snap@),
        }
    }
}

pub open spec fn actions_view(v: Seq<Action>) -> Seq<ActionView> {
    v.map_values(|a: Action| a@)
}

/// The arbiter: its own identity, the admitted nodes in order of admission,
/// and the version of the last published snapshot.
pub struct ArbiterServer {
    my_identity: Vec<u8>,
    nodes: Vec<NodeRecord>,
    version: u64,
}

impl View for ArbiterServer {
    type V = ArbiterView;

    closed spec fn view(&self) -> ArbiterView {
        ArbiterView { identity: self.my_identity@, nodes: nodes_view(self.nodes@), version: self.version }
    }
}

impl ArbiterServer {
    pub open spec fn wf(&self) -> bool {
        nodes_wf(self@.nodes, self@.identity)
    }

    /// An arbiter named `server_identity`, with no members, before any snapshot.
    pub fn new(server_identity: &str) -> (r: ArbiterServer)
        ensures
            r.wf(),
            r@ == (ArbiterView {
                identity: server_identity.spec_bytes(),
                nodes: Seq::empty(),
                version: 0,
            }),
    {
        let r = ArbiterServer {
            my_identity: copy_bytes(server_identity.as_bytes()),
            nodes: Vec::new(),
            version: 0,
        };
        assert(r@.nodes =~= Seq::<NodeView>::empty());
        r
    }

    pub fn identity(&self) -> (r: &Vec<u8>)
        ensures
            r@ == self@.identity,
    {
        &self.my_identity
    }

    /// The version of the last published snapshot.
    pub fn version(&self) -> (r: u64)
        ensures
            r == self@.version,
    {
        self.version
    }

    /// The current membership and the version of the last snapshot.
    pub fn snapshot(&self) -> (r: Snapshot)
        ensures
            r@ == snapshot_of(self@),
    {
        let mut members: Vec<Vec<u8>> = Vec::new();
        let mut i: usize = 0;
        while i < self.nodes.len()
            invariant
                i <= self.nodes@.len(),
                frames_view(members@) == node_ids(self@.nodes).subrange(0, i as int),
            decreases self.nodes@.len() - i,
        {
            let ghost prev = members@;
            members.push(copy_bytes(self.nodes[i].identity.as_slice()));
            assert(frames_view(members@) =~= frames_view(prev).push(members@.last()@));
            assert(self@.nodes[i as int] == self.nodes@[i as int]@);
            assert(members@.last()@ == node_ids(self@.nodes)[i as int]);
            i = i + 1;
            assert(frames_view(members@) =~= node_ids(self@.nodes).subrange(0, i as int));
        }
        assert(node_ids(self@.nodes).subrange(0, i as int) =~= node_ids(self@.nodes));
        Snapshot { version: self.version, members }
    }

    /// Removes the nodes whose ping deadline has passed at `now`, in
    /// membership order, and publishes a snapshot when any was removed.
    fn evict_expired(&mut self, now: u64) -> (r: Vec<Action>)
        requires
            old(self).wf(),
            old(self)@.version <= MAX_VERSION,
        ensures
            final(self).wf(),
            final(self)@ == spec_evict(old(self)@, now),
            actions_view(r@) == spec_evict_actions(old(self)@, now),
    {
        let ghost s = self@;
        let mut remaining: Vec<NodeRecord> = Vec::new();
        std::mem::swap(&mut self.nodes, &mut remaining);
        let ghost all = nodes_view(remaining@);
        let n = remaining.len();
        let mut actions: Vec<Action> = Vec::new();
        let mut i: usize = 0;
        assert(nodes_view(self.nodes@) =~= all.subrange(0, 0).filter(live_at(now))) by {
            reveal(Seq::filter);
        }
        assert(actions_view(actions@) =~= stop_actions(all.subrange(0, 0).filter(expired_at(now)))) by {
            reveal(Seq::filter);
        }
        while remaining.len() > 0
            invariant
                all == s.nodes,
                n == all.len(),
                i + remaining@.len() == n,
                nodes_view(remaining@) == all.subrange(i as int, n as int),
                nodes_view(self.nodes@) == all.subrange(0, i as int).filter(live_at(now)),
                actions_view(actions@) == stop_actions(all.subrange(0, i as int).filter(expired_at(now))),
                self.my_identity@ == s.identity,
                self.version == s.version,
            decreases remaining@.len(),
        {
            let ghost prefix = all.subrange(0, i as int);
            let ghost prev_nodes = self.nodes@;
            let ghost prev_actions = actions@;
            let ghost prev_rem = remaining@;
            assert(nodes_view(remaining@)[0] == all[i as int]);
            let node = remaining.remove(0);
            assert(node@ == all[i as int]);
            proof {
                assert(all.subrange(0, i + 1) =~= prefix.push(all[i as int]));
                prefix.lemma_filter_push(all[i as int], live_at(now));
                prefix.lemma_filter_push(all[i as int], expired_at(now));
                assert(remaining@ =~= prev_rem.subrange(1, prev_rem.len() as int));
                assert forall|j: int| 0 <= j < remaining@.len() implies remaining@[j]@ == all[i + 1 + j] by {
                    assert(remaining@[j] == prev_rem[j + 1]);
                    assert(nodes_view(prev_rem)[j + 1] == all[i + 1 + j]);
                }
                assert(nodes_view(remaining@) =~= all.subrange(i + 1, n as int));
            }
            if now < node.last_seen || now - node.last_seen < PING_DEADLINE_MS {
                self.nodes.push(node);
                assert(nodes_view(self.nodes@) =~= nodes_view(prev_nodes).push(all[i as int]));
            } else {
                actions.push(Action::StopSupervisor(node.identity));
                assert(actions_view(actions@) =~= actions_view(prev_actions).push(
                    ActionView::StopSupervisor(all[i as int].identity),
                ));
                assert(stop_actions(prefix.filter(expired_at(now)).push(all[i as int])) =~= stop_actions(
                    prefix.filter(expired_at(now)),
                ).push(ActionView::StopSupervisor(all[i as int].identity)));
            }
            i = i + 1;
        }
        proof {
            assert(all.subrange(0, n as int) =~= all);
            lemma_filter_wf(s.nodes, s.identity, live_at(now));
            assert(stop_actions(s.nodes.filter(expired_at(now))).len() == s.nodes.filter(
                expired_at(now),
            ).len());
        }
        if actions.len() > 0 {
            self.version = self.version + 1;
            let ghost prev_actions = actions@;
            actions.push(Action::Publish(self.snapshot()));
            assert(actions_view(actions@) =~= actions_view(prev_actions).push(
                ActionView::Publish(snapshot_of(self@)),
            ));
        }
        actions
    }

    /// Applies the transition rules to one message.
    fn apply(&mut self, now: u64, origin: Origin, message: ArbiterMessage) -> (r: Vec<Action>)
        requires
            old(self).wf(),
            old(self)@.version <= MAX_VERSION + 1,
        ensures
            final(self).wf(),
            (final(self)@, actions_view(r@)) == spec_apply(old(self)@, now, origin, message@),
    {
        let ghost s = self@;
        let ghost m = message@;
        let mut actions: Vec<Action> = Vec::new();
        match message.message_type {
            ArbiterMessageTypes::Register => {
                if origin == Origin::Router && message.identity.len() > 0 && !bytes_equal(
                    message.identity.as_slice(),
                    self.my_identity.as_slice(),
                ) && self.find_node(message.identity.as_slice()).is_none() {
                    let ArbiterMessage { identity, message_type: _, data_frames } = message;
                    let node = NodeRecord {
                        identity: copy_bytes(identity.as_slice()),
                        capabilities: data_frames,
                        admitted_at: now,
                        last_seen: now,
                    };
                    self.nodes.push(node);
                    self.version = self.version + 1;
                    assert(self@.nodes =~= s.nodes.push(node@));
                    proof {
                        let ns = self@.nodes;
                        assert forall|i: int, j: int| 0 <= i < j < ns.len() implies (
                        #[trigger] ns[i]).identity != (#[trigger] ns[j]).identity by {
                            if j == ns.len() - 1 {
                                assert(s.nodes[i] == ns[i]);
                            }
                        }
                        assert forall|i: int| 0 <= i < ns.len() implies (#[trigger] ns[i]).identity.len() > 0
                            && ns[i].identity != s.identity by {
                            if i < ns.len() - 1 {
                                assert(s.nodes[i] == ns[i]);
                            }
                        }
                    }
                    actions.push(Action::StartSupervisor(copy_bytes(identity.as_slice())));
                    actions.push(Action::Reply(ArbiterMessage::new(identity.as_slice(), ArbiterMessageTypes::AcceptConnection)));
                    actions.push(Action::Publish(self.snapshot()));
                    assert(actions_view(actions@) =~= spec_apply(s, now, origin, m).1);
                } else {
                    assert(actions_view(actions@) =~= Seq::<ActionView>::empty());
                }
            },
            ArbiterMessageTypes::Deregister => {
                let target: Option<Vec<u8>> = match origin {
                    Origin::Router => Some(copy_bytes(message.identity.as_slice())),
                    Origin::Supervisor => if message.data_frames.len() > 0 {
                        Some(copy_bytes(message.data_frames[0].as_slice()))
                    } else {
                        None
                    },
                };
                assert(match target {
                    Some(t) => deregister_target(origin, m) == Some(t@),
                    None => deregister_target(origin, m).is_none(),
                });
                match target {
                    Some(id) => {
                        match self.find_node(id.as_slice()) {
                            Some(i) => {
                                self.nodes.remove(i);
                                self.version = self.version + 1;
                                proof {
                                    let ns = self@.nodes;
                                    assert(ns =~= s.nodes.remove(i as int));
                                    assert forall|a: int, b: int| 0 <= a < b < ns.len() implies (
                                    #[trigger] ns[a]).identity != (#[trigger] ns[b]).identity by {
                                        let a2 = if a < i { a } else { a + 1 };
                                        let b2 = if b < i { b } else { b + 1 };
                                        assert(ns[a] == s.nodes[a2]);
                                        assert(ns[b] == s.nodes[b2]);
                                    }
                                    assert forall|a: int| 0 <= a < ns.len() implies (#[trigger] ns[a]).identity.len() > 0
                                        && ns[a].identity != s.identity by {
                                        let a2 = if a < i { a } else { a + 1 };
                                        assert(ns[a] == s.nodes[a2]);
                                    }
                                }
                                actions.push(Action::StopSupervisor(id));
                                actions.push(Action::Publish(self.snapshot()));
                                assert(actions_view(actions@) =~= spec_apply(s, now, origin, m).1);
                            },
                            None => {
                                assert(actions_view(actions@) =~= Seq::<ActionView>::empty());
                            },
                        }
                    },
                    None => {
                        assert(actions_view(actions@) =~= Seq::<ActionView>::empty());
                    },
                }
            },
            ArbiterMessageTypes::Ping => {
                let found = if origin == Origin::Router {
                    self.find_node(message.identity.as_slice())
                } else {
                    None
                };
                match found {
                    Some(i) => {
                        let mut node = self.nodes.remove(i);
                        node.last_seen = now;
                        self.nodes.insert(i, node);
                        proof {
                            let ns = self@.nodes;
                            assert(ns =~= s.nodes.update(i as int, NodeView { last_seen: now, ..s.nodes[i as int] }));
                            assert forall|a: int, b: int| 0 <= a < b < ns.len() implies (
                            #[trigger] ns[a]).identity != (#[trigger] ns[b]).identity by {
                                assert(ns[a].identity == s.nodes[a].identity);
                                assert(ns[b].identity == s.nodes[b].identity);
                            }
                            assert forall|a: int| 0 <= a < ns.len() implies (#[trigger] ns[a]).identity.len() > 0
                                && ns[a].identity != s.identity by {
                                assert(ns[a].identity == s.nodes[a].identity);
                            }
                        }
                        actions.push(Action::ForwardPing(copy_bytes(message.identity.as_slice())));
                        actions.push(Action::Reply(ArbiterMessage::new(message.identity.as_slice(), ArbiterMessageTypes::Pong)));
                        assert(actions_view(actions@) =~= spec_apply(s, now, origin, m).1);
                    },
                    None => {
                        assert(actions_view(actions@) =~= Seq::<ActionView>::empty());
                    },
                }
            },
            ArbiterMessageTypes::StateRequest => {
                self.version = self.version + 1;
                actions.push(Action::Publish(self.snapshot()));
                assert(actions_view(actions@) =~= spec_apply(s, now, origin, m).1);
            },
            _ => {
                assert(actions_view(actions@) =~= Seq::<ActionView>::empty());
            },
        }
        actions
    }

    /// Handles one message that arrived at `now` from `origin`: first evicts
    /// the nodes past their ping deadline, then applies the transition rules.
    /// The returned actions are to be performed in order.
    pub fn process_message(&mut self, now: u64, origin: Origin, message: ArbiterMessage) -> (r: Vec<Action>)
        requires
            old(self).wf(),
            old(self)@.version <= MAX_VERSION,
        ensures
            final(self).wf(),
            (final(self)@, actions_view(r@)) == spec_step(old(self)@, now, origin, message@),
    {
        let ghost s = self@;
        let mut actions = self.evict_expired(now);
        let mut more = self.apply(now, origin, message);
        let ghost a = actions@;
        let ghost b = more@;
        actions.append(&mut more);
        assert(actions_view(actions@) =~= actions_view(a) + actions_view(b));
        actions
    }

    /// Position of the node named `id`, if it is a member.
    fn find_node(&self, id: &[u8]) -> (r: Option<usize>)
        requires
            self.wf(),
        ensures
            match r {
                Some(i) => is_member(self@.nodes, id@) && i == index_of(self@.nodes, id@) && i
                    < self@.nodes.len(),
                None => !is_member(self@.nodes, id@),
            },
    {
        let mut i: usize = 0;
        while i < self.nodes.len()
            invariant
                self.wf(),
                i <= self.nodes@.len(),
                forall|j: int| 0 <= j < i ==> (#[trigger] self@.nodes[j]).identity != id@,
            decreases self.nodes@.len() - i,
        {
            assert(self@.nodes[i as int] == self.nodes@[i as int]@);
            if bytes_equal(self.nodes[i].identity.as_slice(), id) {
                proof {
                    assert(self@.nodes[i as int].identity == id@);
                    let k = index_of(self@.nodes, id@);
                    assert(self@.nodes[k].identity == id@);
                    if k < i {
                        assert(self@.nodes[k].identity != self@.nodes[i as int].identity);
                    }
                    if k > i {
                        assert(self@.nodes[i as int].identity != self@.nodes[k].identity);
                    }
                }
                return Some(i);
            }
            i = i + 1;
        }
        None
    }
}

} // verus!
