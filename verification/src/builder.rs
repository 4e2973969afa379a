//! The builder: accumulates optional configuration overrides and pre-queued
//! scans, and lays out the command sequence a freshly started scanner is fed.

use vstd::prelude::*;

use crate::message::{Input, InputV};

verus! {

/// The views of a list of commands, in order.
pub open spec fn inputs_view(s: Seq<Input>) -> Seq<InputV> {
    s.map_values(|i: Input| i@)
}

/// One pre-queued scan: host, first port, last port, and whether it is TCP.
pub type ScanEntry = (String, u16, u16, bool);

/// The mathematical image of a [`ScannerBuilder`].
#[verifier::ext_equal]
pub struct BuilderV {
    pub thread_count: Option<usize>,
    pub tcp_timeout: Option<usize>,
    pub udp_timeout: Option<usize>,
    pub attempts: Option<usize>,
    pub stale: Option<bool>,
    pub scans: Seq<(Seq<char>, u16, u16, bool)>,
}

/// The command a pre-queued scan becomes.
pub open spec fn scan_command(s: (Seq<char>, u16, u16, bool)) -> InputV {
    if s.3 {
        InputV::TcpRange(s.0, s.1, s.2)
    } else {
        InputV::UdpRange(s.0, s.1, s.2)
    }
}

/// The command an optional override becomes, if set.
pub open spec fn opt_command<T>(v: Option<T>, f: spec_fn(T) -> InputV) -> Seq<InputV> {
    match v {
        Some(v) => seq![f(v)],
        None => Seq::empty(),
    }
}

impl BuilderV {
    /// The commands issued before any interaction, in fixed order: attempts,
    /// stale, threads, TCP timeout, UDP timeout, then each pre-queued range
    /// in submission order.
    pub open spec fn spec_commands(self) -> Seq<InputV> {
        opt_command(self.attempts, |n: usize| InputV::Attempts(n)) + opt_command(
            self.stale,
            |b: bool| InputV::Stale(b),
        ) + opt_command(self.thread_count, |n: usize| InputV::Threads(n)) + opt_command(
            self.tcp_timeout,
            |n: usize| InputV::TcpTimeout(n),
        ) + opt_command(self.udp_timeout, |n: usize| InputV::UdpTimeout(n))
            + self.scans.map_values(|s: (Seq<char>, u16, u16, bool)| scan_command(s))
    }

    /// The builder holding nothing yet.
    pub open spec fn empty() -> BuilderV {
        BuilderV {
            thread_count: None,
            tcp_timeout: None,
            udp_timeout: None,
            attempts: None,
            stale: None,
            scans: Seq::empty(),
        }
    }
}

/// Accumulator of configuration overrides and pre-queued scan ranges; the
/// runtime's `build` starts a scanner and issues [`initial_commands`] to it.
///
/// [`initial_commands`]: ScannerBuilder::initial_commands
pub struct ScannerBuilder {
    thread_count: Option<usize>,
    tcp_timeout: Option<usize>,
    udp_timeout: Option<usize>,
    attemps: Option<usize>,
    stale: Option<bool>,
    scans: Vec<ScanEntry>,
}

impl View for ScannerBuilder {
    type V = BuilderV;

    closed spec fn view(&self) -> BuilderV {
        BuilderV {
            thread_count: self.thread_count,
            tcp_timeout: self.tcp_timeout,
            udp_timeout: self.udp_timeout,
            attempts: self.attemps,
            stale: self.stale,
            scans: self.scans@.map_values(
                |s: ScanEntry| (s.0@, s.1, s.2, s.3),
            ),
        }
    }
}

impl Default for ScannerBuilder {
    fn default() -> (r: Self)
        ensures
            r@ == BuilderV::empty(),
    {
        let r = ScannerBuilder {
            thread_count: None,
            tcp_timeout: None,
            udp_timeout: None,
            attemps: None,
            stale: None,
            scans: Vec::new(),
        };
        proof {
            assert(r@ =~= BuilderV::empty());
        }
        r
    }
}

impl ScannerBuilder {
    /// Overrides the worker pool size.
    pub fn thread_count(self, value: usize) -> (r: Self)
        ensures
            r@ == (BuilderV { thread_count: Some(value), ..self@ }),
    {
        let mut s = self;
        s.thread_count = Some(value);
        proof {
            assert(s@ =~= (BuilderV { thread_count: Some(value), ..self@ }));
        }
        s
    }

    /// Overrides the retry count per probe.
    pub fn attemps(self, value: usize) -> (r: Self)
        ensures
            r@ == (BuilderV { attempts: Some(value), ..self@ }),
    {
        let mut s = self;
        s.attemps = Some(value);
        proof {
            assert(s@ =~= (BuilderV { attempts: Some(value), ..self@ }));
        }
        s
    }

    /// Pre-queues a TCP range.
    pub fn scan_tcp(self, host: String, from: u16, to: u16) -> (r: Self)
        ensures
            r@ == (BuilderV { scans: self@.scans.push((host@, from, to, true)), ..self@ }),
    {
        let mut s = self;
        s.scans.push((host, from, to, true));
        proof {
            assert(s@.scans =~= self@.scans.push((host@, from, to, true)));
            assert(s@ =~= (BuilderV { scans: self@.scans.push((host@, from, to, true)), ..self@ }));
        }
        s
    }

    /// Pre-queues a UDP range.
    pub fn scan_udp(self, host: String, from: u16, to: u16) -> (r: Self)
        ensures
            r@ == (BuilderV { scans: self@.scans.push((host@, from, to, false)), ..self@ }),
    {
        let mut s = self;
        s.scans.push((host, from, to, false));
        proof {
            assert(s@.scans =~= self@.scans.push((host@, from, to, false)));
            assert(s@ =~= (BuilderV {
                scans: self@.scans.push((host@, from, to, false)),
                ..self@
            }));
        }
        s
    }

    /// Overrides the TCP connect timeout in milliseconds.
    pub fn tcp_timeout(self, value: usize) -> (r: Self)
        ensures
            r@ == (BuilderV { tcp_timeout: Some(value), ..self@ }),
    {
        let mut s = self;
        s.tcp_timeout = Some(value);
        proof {
            assert(s@ =~= (BuilderV { tcp_timeout: Some(value), ..self@ }));
        }
        s
    }

    /// Overrides the UDP receive timeout in milliseconds.
    pub fn udp_timeout(self, value: usize) -> (r: Self)
        ensures
            r@ == (BuilderV { udp_timeout: Some(value), ..self@ }),
    {
        let mut s = self;
        s.udp_timeout = Some(value);
        proof {
            assert(s@ =~= (BuilderV { udp_timeout: Some(value), ..self@ }));
        }
        s
    }

    /// Overrides the stale-result policy.
    pub fn stale(self, value: bool) -> (r: Self)
        ensures
            r@ == (BuilderV { stale: Some(value), ..self@ }),
    {
        let mut s = self;
        s.stale = Some(value);
        proof {
            assert(s@ =~= (BuilderV { stale: Some(value), ..self@ }));
        }
        s
    }

    /// The accumulated commands in the order `build` issues them: the
    /// configuration overrides first (attempts, stale, threads, TCP timeout,
    /// UDP timeout), then the pre-queued ranges.
    #[verifier::loop_isolation(false)]
    pub fn initial_commands(&self) -> (r: Vec<Input>)
        ensures
            inputs_view(r@) == self@.spec_commands(),
    {
        let mut r: Vec<Input> = Vec::new();
        if let Some(val) = self.attemps {
            r.push(Input::Attempts(val));
        }
        if let Some(val) = self.stale {
            r.push(Input::Stale(val));
        }
        if let Some(val) = self.thread_count {
            r.push(Input::Threads(val));
        }
        if let Some(val) = self.tcp_timeout {
            r.push(Input::TcpTimeout(val));
        }
        if let Some(val) = self.udp_timeout {
            r.push(Input::UdpTimeout(val));
        }
        let ghost prefix = inputs_view(r@);
        proof {
            assert(prefix =~= opt_command(self@.attempts, |n: usize| InputV::Attempts(n))
                + opt_command(self@.stale, |b: bool| InputV::Stale(b)) + opt_command(
                self@.thread_count,
                |n: usize| InputV::Threads(n),
            ) + opt_command(self@.tcp_timeout, |n: usize| InputV::TcpTimeout(n)) + opt_command(
                self@.udp_timeout,
                |n: usize| InputV::UdpTimeout(n),
            ));
        }
        let n = self.scans.len();
        let mut i: usize = 0;
        while i < n
            invariant
                i <= n,
                n == self.scans.len(),
                inputs_view(r@) =~= prefix + self@.scans.take(i as int).map_values(
                    |s: (Seq<char>, u16, u16, bool)| scan_command(s),
                ),
            decreases n - i,
        {
            let (host, from, to, is_tcp) = &self.scans[i];
            let ghost r_pre = r@;
            if *is_tcp {
                r.push(Input::TcpRange(host.clone(), *from, *to));
            } else {
                r.push(Input::UdpRange(host.clone(), *from, *to));
            }
            i = i + 1;
            proof {
                assert(self@.scans[i - 1] == (self.scans@[i - 1].0@, self.scans@[i - 1].1,
                    self.scans@[i - 1].2, self.scans@[i - 1].3));
                assert(inputs_view(r@) =~= inputs_view(r_pre).push(
                    scan_command(self@.scans[i - 1]),
                ));
                assert(self@.scans.take(i as int).map_values(
                    |s: (Seq<char>, u16, u16, bool)| scan_command(s),
                ) =~= self@.scans.take(i - 1).map_values(
                    |s: (Seq<char>, u16, u16, bool)| scan_command(s),
                ).push(scan_command(self@.scans[i - 1])));
                assert(inputs_view(r@) =~= prefix + self@.scans.take(i as int).map_values(
                    |s: (Seq<char>, u16, u16, bool)| scan_command(s),
                ));
            }
        }
        proof {
            assert(self@.scans.take(n as int) =~= self@.scans);
            assert(inputs_view(r@) =~= self@.spec_commands());
        }
        r
    }
}

} // verus!
