//! A concurrent port scanner's verified core.
//!
//! The heart of the crate is a supervisor state machine that owns a pool of
//! worker records, a queue of scan ranges, and a configuration store.  The
//! machine itself is pure: every transition maps a state and an event (a
//! command or a worker message) to a new state plus a list of actions for a
//! runtime to perform (spawn a worker, send it a target, emit an output).
//! A thin unverified runtime drives threads, channels and sockets around it.

use vstd::prelude::*;

pub mod builder;
pub mod config;
pub mod laws;
pub mod master;
pub mod message;
pub mod parser;
pub mod probe;
pub mod queue;
pub mod range;

verus! {

} // verus!
