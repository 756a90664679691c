//! The arbiter-side watchdog of one admitted node.
//!
//! The supervisor's task waits on its in-process channel. Each time a message
//! arrives or the wait times out it calls [`Supervisor::step`] with the current
//! time, and either waits again for the returned number of milliseconds or
//! sends the returned Deregister and exits.

use vstd::prelude::*;

use crate::arbiter::PING_DEADLINE_MS;
use crate::codec::{ArbiterMessage, ArbiterMessageTypes, MessageView, copy_bytes};

verus! {

/// What the supervisor's task does next.
#[derive(Clone, Debug, PartialEq, Eq)]
pub enum SupervisorAction {
    /// Wait at most this many milliseconds for the next message.
    Wait(u64),
    /// Send this message to the main loop, then exit.
    Exit(ArbiterMessage),
}

/// A watchdog: the node it guards and the time of the last Ping it saw.
pub struct Supervisor {
    identity: Vec<u8>,
    last_ping: u64,
    exited: bool,
}

/// The Deregister a supervisor emits: the node's identity is the first and
/// only data frame, since an in-process channel carries no envelope.
pub open spec fn deregister_of(id: Seq<u8>) -> MessageView {
    MessageView { identity: id, kind: ArbiterMessageTypes::Deregister, data: seq![id] }
}

impl Supervisor {
    pub closed spec fn identity_view(&self) -> Seq<u8> {
        self.identity@
    }

    pub closed spec fn last_ping(&self) -> u64 {
        self.last_ping
    }

    pub closed spec fn has_exited(&self) -> bool {
        self.exited
    }

    /// A supervisor for the node `identity`, admitted at `now`.
    pub fn new(identity: &[u8], now: u64) -> (r: Supervisor)
        ensures
            r.identity_view() == identity@,
            r.last_ping() == now,
            !r.has_exited(),
    {
        Supervisor { identity: copy_bytes(identity), last_ping: now, exited: false }
    }

    /// Handles the arrival of a message of kind `received`, or a timed-out
    /// wait when it is `None`, at time `now`. A Ping restarts the deadline;
    /// once the deadline has passed without one, the Deregister is emitted
    /// and the supervisor has exited.
    pub fn step(&mut self, now: u64, received: Option<ArbiterMessageTypes>) -> (r: SupervisorAction)
        requires
            !old(self).has_exited(),
        ensures
            final(self).identity_view() == old(self).identity_view(),
            final(self).last_ping() == if received == Some(ArbiterMessageTypes::Ping) {
                now
            } else {
                old(self).last_ping()
            },
            ({
                let last = final(self).last_ping() as int;
                if (now as int) < last + PING_DEADLINE_MS as int {
                    &&& !final(self).has_exited()
                    &&& r == SupervisorAction::Wait(
                        (if (now as int) < last { PING_DEADLINE_MS as int } else { last + PING_DEADLINE_MS - now }) as u64,
                    )
                } else {
                    &&& final(self).has_exited()
                    &&& r is Exit
                    &&& r->Exit_0@ == deregister_of(old(self).identity_view())
                }
            }),
    {
        if received == Some(ArbiterMessageTypes::Ping) {
            self.last_ping = now;
        }
        if now < self.last_ping {
            SupervisorAction::Wait(PING_DEADLINE_MS)
        } else if now - self.last_ping < PING_DEADLINE_MS {
            SupervisorAction::Wait(PING_DEADLINE_MS - (now - self.last_ping))
        } else {
            self.exited = true;
            let mut message = ArbiterMessage::new(self.identity.as_slice(), ArbiterMessageTypes::Deregister);
            message.data_frames.push(copy_bytes(self.identity.as_slice()));
            assert(message@.data =~= seq![self.identity@]);
            SupervisorAction::Exit(message)
        }
    }
}

} // verus!
