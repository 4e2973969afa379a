//! Targets of a scan: protocols, ports, port states and address ranges.

use vstd::prelude::*;

verus! {

/// The transport protocol a probe speaks.
#[derive(Clone, Copy, Debug, PartialEq, Eq, Structural)]
pub enum Protocol {
    Tcp,
    Udp,
}

/// What a probe concluded about one port.
#[derive(Clone, Copy, Debug, PartialEq, Eq, Structural)]
pub enum PortState {
    Open,
    Closed,
    Unreachable,
}

/// A single port together with the protocol to probe it with.
#[derive(Clone, Copy, Debug, PartialEq, Eq, Structural)]
pub struct Port {
    pub protocol: Protocol,
    pub number: u16,
}

/// A contiguous range of ports on one host, the unit in which work is
/// enqueued.  Well-formed ranges satisfy `1 <= from <= to`.
#[derive(Debug)]
pub struct AddressRange {
    pub host: String,
    pub protocol: Protocol,
    pub from: u16,
    pub to: u16,
}

/// The mathematical image of an [`AddressRange`].
pub struct RangeV {
    pub host: Seq<char>,
    pub protocol: Protocol,
    pub from: u16,
    pub to: u16,
}

impl RangeV {
    /// Ports lie in `[1, 65535]` and the range is non-empty.
    pub open spec fn wf(self) -> bool {
        1 <= self.from <= self.to
    }

    /// How many ports the range covers.
    pub open spec fn spec_len(self) -> nat {
        (self.to - self.from + 1) as nat
    }

    /// The `index`-th port of the range.
    pub open spec fn spec_nth(self, index: int) -> u16 {
        (self.from + index) as u16
    }
}

impl View for AddressRange {
    type V = RangeV;

    open spec fn view(&self) -> RangeV {
        RangeV { host: self.host@, protocol: self.protocol, from: self.from, to: self.to }
    }
}

impl AddressRange {
    /// The number of ports the range covers.
    pub fn len(&self) -> (r: usize)
        requires
            self@.wf(),
        ensures
            r == self@.spec_len(),
    {
        (self.to - self.from) as usize + 1
    }

    /// The port at position `index`, counting from `from`.
    pub fn nth(&self, index: usize) -> (r: u16)
        requires
            self@.wf(),
            index < self@.spec_len(),
        ensures
            r == self@.spec_nth(index as int),
    {
        self.from + index as u16
    }
}

} // verus!
