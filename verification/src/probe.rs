//! Probe verdict logic: the verdict fold the TCP and UDP probes share, each
//! probe's own retry decision, and the reading of an attempt outcome as a
//! port state.  The socket work itself is the runtime's; it makes attempts
//! while the probe's retry predicate says so, records each outcome, and
//! hands the list back for the verdict.

use vstd::prelude::*;

use crate::range::PortState;

verus! {

/// The verdict of the retry loop over the outcomes of the attempts made, in
/// order: the first success wins, otherwise the last outcome stands, and no
/// attempt at all decides nothing.
pub open spec fn retry_verdict(outcomes: Seq<Option<bool>>) -> Option<bool> {
    if exists|i: int| 0 <= i < outcomes.len() && outcomes[i] == Some(true) {
        Some(true)
    } else if outcomes.len() > 0 {
        outcomes.last()
    } else {
        None
    }
}

/// Whether the TCP retry loop makes another attempt, after `made` attempts
/// whose last outcome was `last`: it stops at the attempt limit or on a
/// successful connection, and keeps trying through refusals and timeouts.
pub fn tcp_probe_again(last: &Option<bool>, made: usize, attempts: usize) -> (r: bool)
    ensures
        r == (made < attempts && *last != Some(true)),
{
    if made >= attempts {
        false
    } else {
        match last {
            Some(hit) => !*hit,
            None => true,
        }
    }
}

/// Whether the UDP retry loop makes another attempt: it stops at the attempt
/// limit, on a reply, and on an undecided attempt — an inability to bind or
/// to send settles the scan as unreachable at once — so it retries only
/// after a silent (closed) port.
pub fn udp_probe_again(last: &Option<bool>, made: usize, attempts: usize) -> (r: bool)
    ensures
        r == (made < attempts && (made == 0 || *last == Some(false))),
{
    if made >= attempts {
        false
    } else if made == 0 {
        true
    } else {
        match last {
            Some(hit) => !*hit,
            None => false,
        }
    }
}

/// The TCP scan's verdict, given the outcome of each connection attempt that
/// was made: `Some(true)` once a connection succeeded, otherwise the last
/// attempt's outcome, and `None` when no attempt ran.
pub fn scan_tcp(outcomes: &Vec<Option<bool>>) -> (r: Option<bool>)
    ensures
        r == retry_verdict(outcomes@),
{
    retry_fold(outcomes)
}

/// The UDP scan's verdict over its attempt outcomes; the verdict fold is the
/// same as for TCP, though the retry decision is not: the runtime stops
/// probing after an undecided attempt, so such a log ends on its `None`.
pub fn scan_udp(outcomes: &Vec<Option<bool>>) -> (r: Option<bool>)
    ensures
        r == retry_verdict(outcomes@),
{
    retry_fold(outcomes)
}

#[verifier::loop_isolation(false)]
fn retry_fold(outcomes: &Vec<Option<bool>>) -> (r: Option<bool>)
    ensures
        r == retry_verdict(outcomes@),
{
    let mut rsl: Option<bool> = None;
    let mut i: usize = 0;
    while i < outcomes.len()
        invariant
            i <= outcomes.len(),
            forall|j: int| 0 <= j < i ==> #[trigger] outcomes@[j] != Some(true),
            rsl == if i > 0 {
                outcomes@[i - 1]
            } else {
                None::<bool>
            },
        decreases outcomes.len() - i,
    {
        let o = outcomes[i];
        rsl = o;
        let hit = match o {
            Some(open) => open,
            None => false,
        };
        i = i + 1;
        if hit {
            return rsl;
        }
    }
    rsl
}

/// How a probe's tri-state outcome reads as a port state.
pub open spec fn spec_port_state(outcome: Option<bool>) -> PortState {
    match outcome {
        Some(true) => PortState::Open,
        Some(false) => PortState::Closed,
        None => PortState::Unreachable,
    }
}

/// Open when the probe succeeded, closed when the host refused, unreachable
/// when nothing could be decided.
pub fn port_state_of(outcome: Option<bool>) -> (r: PortState)
    ensures
        r == spec_port_state(outcome),
{
    match outcome {
        Some(true) => PortState::Open,
        Some(false) => PortState::Closed,
        None => PortState::Unreachable,
    }
}

} // verus!
