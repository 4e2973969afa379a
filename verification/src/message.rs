//! The control protocol: commands into the supervisor, outputs back to the
//! caller, and the instruction/message exchange with workers.

use vstd::prelude::*;

use crate::queue::{Address, Host, TargetV};
use crate::range::{Port, PortState};

verus! {

/// A command submitted to the supervisor.
#[derive(Debug, Clone, PartialEq, Eq)]
pub enum Input {
    /// Pause dispatch; in-flight probes finish.
    Stop,
    /// Resume dispatch.
    Cont,
    /// Begin termination.
    End,
    /// Enqueue a TCP range `(host, from, to)`.
    TcpRange(String, u16, u16),
    /// Enqueue a UDP range `(host, from, to)`.
    UdpRange(String, u16, u16),
    /// Set the worker pool size.
    Threads(usize),
    /// Enable or disable suppression of stale results.
    Stale(bool),
    /// Drop the queue and mark in-flight work stale.
    Cancel,
    /// No-op.
    NOP,
    /// Liveness probe.
    Ping,
    /// Set the retry count per probe.
    Attempts(usize),
    /// Set the TCP connect timeout in milliseconds.
    TcpTimeout(usize),
    /// Set the UDP receive timeout in milliseconds.
    UdpTimeout(usize),
}

/// The mathematical image of an [`Input`].
pub enum InputV {
    Stop,
    Cont,
    End,
    TcpRange(Seq<char>, u16, u16),
    UdpRange(Seq<char>, u16, u16),
    Threads(usize),
    Stale(bool),
    Cancel,
    NOP,
    Ping,
    Attempts(usize),
    TcpTimeout(usize),
    UdpTimeout(usize),
}

impl View for Input {
    type V = InputV;

    open spec fn view(&self) -> InputV {
        match self {
            Input::Stop => InputV::Stop,
            Input::Cont => InputV::Cont,
            Input::End => InputV::End,
            Input::TcpRange(h, f, t) => InputV::TcpRange(h@, *f, *t),
            Input::UdpRange(h, f, t) => InputV::UdpRange(h@, *f, *t),
            Input::Threads(n) => InputV::Threads(*n),
            Input::Stale(b) => InputV::Stale(*b),
            Input::Cancel => InputV::Cancel,
            Input::NOP => InputV::NOP,
            Input::Ping => InputV::Ping,
            Input::Attempts(n) => InputV::Attempts(*n),
            Input::TcpTimeout(n) => InputV::TcpTimeout(*n),
            Input::UdpTimeout(n) => InputV::UdpTimeout(*n),
        }
    }
}

/// What the supervisor hands back: scan results and the idle signal on the
/// asynchronous callback, `Ok` on the synchronous acknowledgement channel.
#[derive(Debug, Clone, PartialEq, Eq)]
pub enum Output {
    /// A TCP probe's verdict for `(host, port)`.
    TcpScan(String, u16, PortState),
    /// A UDP probe's verdict for `(host, port)`.
    UdpScan(String, u16, PortState),
    /// The queue drained with every worker idle.
    Idle,
    /// A command was processed.
    Ack,
}

/// The mathematical image of an [`Output`].
pub enum OutputV {
    TcpScan(Seq<char>, u16, PortState),
    UdpScan(Seq<char>, u16, PortState),
    Idle,
    Ack,
}

impl View for Output {
    type V = OutputV;

    open spec fn view(&self) -> OutputV {
        match self {
            Output::TcpScan(h, p, s) => OutputV::TcpScan(h@, *p, *s),
            Output::UdpScan(h, p, s) => OutputV::UdpScan(h@, *p, *s),
            Output::Idle => OutputV::Idle,
            Output::Ack => OutputV::Ack,
        }
    }
}

/// What the supervisor sends a worker.
pub enum Instruction {
    /// Probe this target, then report.
    Scan(Address),
    /// Exit without reporting.
    Term,
}

/// What a worker reports back.
pub enum Message {
    /// The probe of `(host, port)` finished with this verdict.
    Scan(Host, Port, PortState),
}

/// A worker's report tagged with its id.
pub struct WorkerMessage {
    pub worker_id: usize,
    pub content: Message,
}

/// The mathematical image of a [`WorkerMessage`].
pub struct MessageV {
    pub worker_id: usize,
    pub target: TargetV,
    pub state: PortState,
}

impl View for WorkerMessage {
    type V = MessageV;

    open spec fn view(&self) -> MessageV {
        match self.content {
            Message::Scan(ref h, p, s) => MessageV {
                worker_id: self.worker_id,
                target: TargetV { host: h@, port: p },
                state: s,
            },
        }
    }
}

} // verus!
