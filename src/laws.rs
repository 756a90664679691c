//! Properties of the arbiter's step function that hold of every state and
//! every message.

use vstd::prelude::*;
use vstd::seq_lib::group_filter_ensures;

use crate::arbiter::{
    ActionView, ArbiterView, MAX_VERSION, NodeView, Origin, can_admit, deregister_target, expired_at,
    index_of, is_live, is_member, live_at, node_ids, nodes_wf, reply, snapshot_of, spec_apply,
    spec_evict, spec_evict_actions, spec_step, stop_actions,
};
use crate::codec::{ArbiterMessageTypes, MessageView};

verus! {

/// The version a published snapshot carries.
pub open spec fn published_version(a: ActionView) -> u64 {
    match a {
        ActionView::Publish(snap) => snap.version,
        _ => 0,
    }
}

pub open spec fn published_members(a: ActionView) -> Seq<Seq<u8>> {
    match a {
        ActionView::Publish(snap) => snap.members,
        _ => Seq::empty(),
    }
}

proof fn lemma_member_ids(nodes: Seq<NodeView>, id: Seq<u8>)
    ensures
        node_ids(nodes).contains(id) <==> is_member(nodes, id),
{
    if is_member(nodes, id) {
        let i = choose|i: int| 0 <= i < nodes.len() && (#[trigger] nodes[i]).identity == id;
        assert(node_ids(nodes)[i] == id);
    }
    if node_ids(nodes).contains(id) {
        let i = choose|i: int| 0 <= i < node_ids(nodes).len() && node_ids(nodes)[i] == id;
        assert(nodes[i].identity == id);
    }
}

/// Eviction emits only `StopSupervisor` actions, then at most one snapshot,
/// last, carrying the evicted state's version, one past the old one.
proof fn lemma_evict_actions(s: ArbiterView, now: u64)
    requires
        s.version <= MAX_VERSION,
    ensures
        ({
            let ea = spec_evict_actions(s, now);
            let t = spec_evict(s, now);
            forall|k: int|
                0 <= k < ea.len() ==> (#[trigger] ea[k] is StopSupervisor) || (ea[k] is Publish && k
                    == ea.len() - 1 && published_version(ea[k]) == t.version && t.version == s.version
                    + 1 && published_members(ea[k]) == node_ids(t.nodes))
        }),
        spec_evict(s, now).version == s.version || spec_evict(s, now).version == s.version + 1,
{
    let gone = s.nodes.filter(expired_at(now));
    let stops = stop_actions(gone);
    let ea = spec_evict_actions(s, now);
    assert forall|k: int| 0 <= k < stops.len() implies (#[trigger] stops[k]) is StopSupervisor by {}
    assert forall|k: int| 0 <= k < ea.len() && k < stops.len() implies (#[trigger] ea[k]) == stops[k] by {}
}

/// A Register that is admitted gives the requester exactly one reply, an
/// AcceptConnection; the node is a member afterwards and the step ends with
/// a snapshot that lists it, one version past the previous snapshot.
pub proof fn lemma_register_admits(s: ArbiterView, now: u64, m: MessageView)
    requires
        nodes_wf(s.nodes, s.identity),
        s.version <= MAX_VERSION,
        m.kind == ArbiterMessageTypes::Register,
        can_admit(spec_evict(s, now), Origin::Router, m),
    ensures
        ({
            let r = spec_step(s, now, Origin::Router, m);
            let u = r.0;
            let acts = r.1;
            let t = spec_evict(s, now);
            &&& is_member(u.nodes, m.identity)
            &&& acts.len() >= 3
            &&& acts.last() == ActionView::Publish(snapshot_of(u))
            &&& snapshot_of(u).members.contains(m.identity)
            &&& u.version == t.version + 1
            &&& acts[acts.len() - 2] == reply(m.identity, ArbiterMessageTypes::AcceptConnection)
            &&& forall|k: int| 0 <= k < acts.len() && (#[trigger] acts[k]) is Reply ==> k == acts.len() - 2
        }),
{
    lemma_evict_actions(s, now);
    let t = spec_evict(s, now);
    let u = spec_step(s, now, Origin::Router, m).0;
    let acts = spec_step(s, now, Origin::Router, m).1;
    let ea = spec_evict_actions(s, now);
    assert(u.nodes[u.nodes.len() - 1].identity == m.identity);
    lemma_member_ids(u.nodes, m.identity);
    assert forall|k: int| 0 <= k < acts.len() && (#[trigger] acts[k]) is Reply implies k == acts.len() - 2 by {
        if k < ea.len() {
            assert(acts[k] == ea[k]);
        }
    }
}

/// A Ping from a node that is a member when it is processed is answered by
/// exactly one Pong to that node and exactly one Ping forwarded to its
/// supervisor; membership and the snapshot version stay as they were.
pub proof fn lemma_ping_answered(s: ArbiterView, now: u64, m: MessageView)
    requires
        nodes_wf(s.nodes, s.identity),
        s.version <= MAX_VERSION,
        m.kind == ArbiterMessageTypes::Ping,
        is_member(spec_evict(s, now).nodes, m.identity),
    ensures
        ({
            let r = spec_step(s, now, Origin::Router, m);
            let u = r.0;
            let acts = r.1;
            let t = spec_evict(s, now);
            &&& acts.len() >= 2
            &&& acts.last() == reply(m.identity, ArbiterMessageTypes::Pong)
            &&& acts[acts.len() - 2] == ActionView::ForwardPing(m.identity)
            &&& forall|k: int| 0 <= k < acts.len() && (#[trigger] acts[k]) is Reply ==> k == acts.len() - 1
            &&& forall|k: int| 0 <= k < acts.len() && (#[trigger] acts[k]) is ForwardPing ==> k == acts.len() - 2
            &&& node_ids(u.nodes) == node_ids(t.nodes)
            &&& u.version == t.version
        }),
{
    lemma_evict_actions(s, now);
    let t = spec_evict(s, now);
    let u = spec_step(s, now, Origin::Router, m).0;
    let acts = spec_step(s, now, Origin::Router, m).1;
    let ea = spec_evict_actions(s, now);
    assert forall|k: int| 0 <= k < acts.len() && (#[trigger] acts[k]) is Reply implies k == acts.len() - 1 by {
        if k < ea.len() {
            assert(acts[k] == ea[k]);
        }
    }
    assert forall|k: int| 0 <= k < acts.len() && (#[trigger] acts[k]) is ForwardPing implies k == acts.len() - 2 by {
        if k < ea.len() {
            assert(acts[k] == ea[k]);
        }
    }
    assert(node_ids(u.nodes) =~= node_ids(t.nodes));
}

/// A Register with an empty identity changes nothing beyond the eviction
/// due at its arrival, and is not accepted.
pub proof fn lemma_empty_identity_ignored(s: ArbiterView, now: u64, origin: Origin, m: MessageView)
    requires
        s.version <= MAX_VERSION,
        m.kind == ArbiterMessageTypes::Register,
        m.identity.len() == 0,
    ensures
        spec_step(s, now, origin, m) == (spec_evict(s, now), spec_evict_actions(s, now)),
        forall|k: int| 0 <= k < spec_evict_actions(s, now).len() ==> !(#[trigger] spec_evict_actions(s, now)[k] is Reply)
            && !(spec_evict_actions(s, now)[k] is StartSupervisor),
{
    lemma_evict_actions(s, now);
    assert(spec_evict_actions(s, now) + Seq::<ActionView>::empty() =~= spec_evict_actions(s, now));
}

/// A Register from a node that is already a member when it is processed
/// changes nothing beyond the eviction due at its arrival: the existing
/// record stays as it is and no AcceptConnection is sent.
pub proof fn lemma_duplicate_register_ignored(s: ArbiterView, now: u64, origin: Origin, m: MessageView)
    requires
        s.version <= MAX_VERSION,
        m.kind == ArbiterMessageTypes::Register,
        is_member(spec_evict(s, now).nodes, m.identity),
    ensures
        spec_step(s, now, origin, m) == (spec_evict(s, now), spec_evict_actions(s, now)),
        forall|k: int| 0 <= k < spec_evict_actions(s, now).len() ==> !(#[trigger] spec_evict_actions(s, now)[k] is Reply)
            && !(spec_evict_actions(s, now)[k] is StartSupervisor),
{
    lemma_evict_actions(s, now);
    assert(spec_evict_actions(s, now) + Seq::<ActionView>::empty() =~= spec_evict_actions(s, now));
}

/// Within a step, published versions strictly increase, all lie above the
/// version before the step and at most at the version after it; the version
/// never goes back. Across steps they therefore strictly increase.
pub proof fn lemma_versions_increase(s: ArbiterView, now: u64, origin: Origin, m: MessageView)
    requires
        nodes_wf(s.nodes, s.identity),
        s.version <= MAX_VERSION,
    ensures
        ({
            let r = spec_step(s, now, origin, m);
            let u = r.0;
            let acts = r.1;
            &&& s.version <= u.version
            &&& forall|k: int|
                0 <= k < acts.len() && (#[trigger] acts[k]) is Publish ==> s.version < published_version(acts[k])
                    <= u.version
            &&& forall|k1: int, k2: int|
                0 <= k1 < k2 < acts.len() && (#[trigger] acts[k1]) is Publish && (#[trigger] acts[k2]) is Publish
                    ==> published_version(acts[k1]) < published_version(acts[k2])
        }),
{
    lemma_evict_actions(s, now);
    let t = spec_evict(s, now);
    let r = spec_step(s, now, origin, m);
    let ap = spec_apply(t, now, origin, m);
    let ea = spec_evict_actions(s, now);
    let acts = r.1;
    assert(acts == ea + ap.1);
    // The transition publishes at most once, last, with the new version.
    assert forall|k: int| 0 <= k < ap.1.len() && (#[trigger] ap.1[k]) is Publish implies k == ap.1.len() - 1
        && published_version(ap.1[k]) == ap.0.version && ap.0.version == t.version + 1 by {}
    assert(t.version <= ap.0.version);
    assert forall|k: int| 0 <= k < acts.len() && (#[trigger] acts[k]) is Publish implies s.version
        < published_version(acts[k]) <= r.0.version by {
        if k < ea.len() {
            assert(acts[k] == ea[k]);
        } else {
            assert(acts[k] == ap.1[k - ea.len()]);
        }
    }
    assert forall|k1: int, k2: int|
        0 <= k1 < k2 < acts.len() && (#[trigger] acts[k1]) is Publish && (#[trigger] acts[k2])
            is Publish implies published_version(acts[k1]) < published_version(acts[k2]) by {
        if k2 < ea.len() {
            assert(acts[k2] == ea[k2]);
            assert(acts[k1] == ea[k1]);
        } else if k1 < ea.len() {
            assert(acts[k1] == ea[k1]);
            assert(acts[k2] == ap.1[k2 - ea.len()]);
        } else {
            assert(acts[k1] == ap.1[k1 - ea.len()]);
            assert(acts[k2] == ap.1[k2 - ea.len()]);
        }
    }
}

/// A node whose last Ping is at least the ping deadline old when a message
/// arrives is no member after that step, and no snapshot the step publishes
/// lists it, unless the message is a fresh Register under its identity.
pub proof fn lemma_silent_node_dropped(s: ArbiterView, now: u64, origin: Origin, m: MessageView, n: NodeView)
    requires
        nodes_wf(s.nodes, s.identity),
        s.version <= MAX_VERSION,
        s.nodes.contains(n),
        !is_live(now, n),
        !(m.kind == ArbiterMessageTypes::Register && origin == Origin::Router && m.identity == n.identity),
    ensures
        ({
            let r = spec_step(s, now, origin, m);
            &&& !is_member(r.0.nodes, n.identity)
            &&& forall|k: int|
                0 <= k < r.1.len() && (#[trigger] r.1[k]) is Publish ==> !published_members(r.1[k]).contains(
                    n.identity,
                )
        }),
{
    broadcast use group_filter_ensures;
    lemma_evict_actions(s, now);
    let t = spec_evict(s, now);
    let r = spec_step(s, now, origin, m);
    let ap = spec_apply(t, now, origin, m);
    let ea = spec_evict_actions(s, now);
    let id = n.identity;
    // Eviction removes it.
    assert(!is_member(t.nodes, id)) by {
        if is_member(t.nodes, id) {
            let j = choose|j: int| 0 <= j < t.nodes.len() && (#[trigger] t.nodes[j]).identity == id;
            assert(t.nodes.contains(t.nodes[j]));
            s.nodes.lemma_filter_contains_rev(live_at(now), t.nodes[j]);
            let a = choose|a: int| 0 <= a < s.nodes.len() && s.nodes[a] == t.nodes[j];
            let b = choose|b: int| 0 <= b < s.nodes.len() && s.nodes[b] == n;
            if a < b {
                assert(s.nodes[a].identity != s.nodes[b].identity);
            } else if b < a {
                assert(s.nodes[b].identity != s.nodes[a].identity);
            }
            assert(live_at(now)(t.nodes[j]));
        }
    }
    // The transition does not bring it back.
    assert(!is_member(ap.0.nodes, id)) by {
        if is_member(ap.0.nodes, id) {
            let j = choose|j: int| 0 <= j < ap.0.nodes.len() && (#[trigger] ap.0.nodes[j]).identity == id;
            match m.kind {
                ArbiterMessageTypes::Register => {
                    if can_admit(t, origin, m) {
                        if j < t.nodes.len() {
                            assert(t.nodes[j] == ap.0.nodes[j]);
                        }
                    }
                },
                ArbiterMessageTypes::Deregister => {
                    match deregister_target(origin, m) {
                        Some(d) => {
                            if is_member(t.nodes, d) {
                                let i = index_of(t.nodes, d);
                                if j < i {
                                    assert(t.nodes[j] == ap.0.nodes[j]);
                                } else {
                                    assert(t.nodes[j + 1] == ap.0.nodes[j]);
                                }
                            }
                        },
                        None => {},
                    }
                },
                ArbiterMessageTypes::Ping => {
                    if origin == Origin::Router && is_member(t.nodes, m.identity) {
                        assert(t.nodes[j].identity == ap.0.nodes[j].identity);
                    }
                },
                _ => {},
            }
        }
    }
    lemma_member_ids(t.nodes, id);
    lemma_member_ids(ap.0.nodes, id);
    assert forall|k: int| 0 <= k < r.1.len() && (#[trigger] r.1[k]) is Publish implies !published_members(
        r.1[k],
    ).contains(id) by {
        if k < ea.len() {
            assert(r.1[k] == ea[k]);
        } else {
            assert(r.1[k] == ap.1[k - ea.len()]);
        }
    }
}

} // verus!
