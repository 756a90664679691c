//! Arbiter coordination: the framed wire protocol spoken between nodes and
//! the arbiter, the arbiter's membership state machine, the per-node
//! supervisor watchdog and the client-side session driver.
//!
//! Everything here is transport-free: sockets, threads and clocks live with
//! the caller, which feeds events in and performs the returned actions.

use vstd::prelude::*;

pub mod arbiter;
pub mod codec;
pub mod laws;
pub mod supervisor;
pub mod client;

verus! {

} // verus!
