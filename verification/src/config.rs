//! Shared tuning of the scanner: pool size, timeouts, retry count and the
//! stale-result policy.

use vstd::prelude::*;

verus! {

/// The scanner's tunable options.  The supervisor is the only writer; the
/// runtime hands workers a copy at the start of each probe.
#[derive(Clone, Copy, Debug, PartialEq, Eq, Structural)]
pub struct ScannerConfig {
    /// How many workers the supervisor keeps alive.
    pub thread_count: usize,
    /// Whether results from workers marked stale are suppressed.
    pub stale: bool,
    /// TCP connect timeout in milliseconds.
    pub tcp_timeout: usize,
    /// UDP receive timeout in milliseconds.
    pub udp_timeout: usize,
    /// How many times a probe is retried before its last outcome stands.
    pub attempts: usize,
}

impl ScannerConfig {
    /// The configuration a fresh scanner starts from.
    pub open spec fn spec_default() -> ScannerConfig {
        ScannerConfig {
            thread_count: 1,
            stale: true,
            tcp_timeout: 500,
            udp_timeout: 500,
            attempts: 1,
        }
    }

    /// Returns the configuration with the pool size replaced.
    pub fn thread_count(self, thread_count: usize) -> (r: ScannerConfig)
        ensures
            r == (ScannerConfig { thread_count, ..self }),
    {
        let mut s = self;
        s.thread_count = thread_count;
        s
    }
}

impl Default for ScannerConfig {
    fn default() -> (r: Self)
        ensures
            r == ScannerConfig::spec_default(),
    {
        ScannerConfig {
            attempts: 1,
            thread_count: 1,
            stale: true,
            tcp_timeout: 500,
            udp_timeout: 500,
        }
    }
}

} // verus!
