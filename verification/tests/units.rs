//! Unit tests of the small pieces: ranges, the queue, configuration, probe
//! verdicts and the builder.

use portsqan::builder::ScannerBuilder;
use portsqan::config::ScannerConfig;
use portsqan::message::Input;
use portsqan::probe::{port_state_of, scan_tcp, scan_udp, tcp_probe_again, udp_probe_again};
use portsqan::queue::ScanQueue;
use portsqan::range::{AddressRange, PortState, Protocol};

#[test]
fn range_len_and_nth() {
    let r = AddressRange {
        host: "h".to_string(),
        protocol: Protocol::Tcp,
        from: 10,
        to: 14,
    };
    assert_eq!(r.len(), 5);
    assert_eq!(r.nth(0), 10);
    assert_eq!(r.nth(4), 14);
}

#[test]
fn range_single_port_and_largest() {
    let one = AddressRange {
        host: "h".to_string(),
        protocol: Protocol::Udp,
        from: 7,
        to: 7,
    };
    assert_eq!(one.len(), 1);
    assert_eq!(one.nth(0), 7);
    let all = AddressRange {
        host: "h".to_string(),
        protocol: Protocol::Tcp,
        from: 1,
        to: 65535,
    };
    assert_eq!(all.len(), 65535);
    assert_eq!(all.nth(65534), 65535);
}

#[test]
fn queue_pops_in_order_across_ranges() {
    let mut q = ScanQueue::new();
    assert!(q.pop().is_none());
    q.push(AddressRange {
        host: "a".to_string(),
        protocol: Protocol::Tcp,
        from: 1,
        to: 2,
    });
    q.push(AddressRange {
        host: "b".to_string(),
        protocol: Protocol::Udp,
        from: 5,
        to: 5,
    });
    assert_eq!(q.len(), 2);
    let t1 = q.pop().unwrap();
    assert_eq!(t1.0, "a");
    assert_eq!(t1.1.number, 1);
    let t2 = q.pop().unwrap();
    assert_eq!(t2.0, "a");
    assert_eq!(t2.1.number, 2);
    let t3 = q.pop().unwrap();
    assert_eq!(t3.0, "b");
    assert_eq!(t3.1.number, 5);
    assert!(matches!(t3.1.protocol, Protocol::Udp));
    assert!(q.pop().is_none());
    assert_eq!(q.len(), 0);
}

#[test]
fn queue_clear_empties() {
    let mut q = ScanQueue::new();
    q.push(AddressRange {
        host: "a".to_string(),
        protocol: Protocol::Tcp,
        from: 1,
        to: 100,
    });
    let _ = q.pop();
    q.clear();
    assert_eq!(q.len(), 0);
    assert!(q.pop().is_none());
    q.push(AddressRange {
        host: "c".to_string(),
        protocol: Protocol::Tcp,
        from: 3,
        to: 3,
    });
    let t = q.pop().unwrap();
    assert_eq!(t.1.number, 3);
}

#[test]
fn config_defaults() {
    let c = ScannerConfig::default();
    assert_eq!(c.thread_count, 1);
    assert_eq!(c.tcp_timeout, 500);
    assert_eq!(c.udp_timeout, 500);
    assert_eq!(c.attempts, 1);
    assert!(c.stale);
}

#[test]
fn config_thread_count_setter() {
    let c = ScannerConfig::default().thread_count(9);
    assert_eq!(c.thread_count, 9);
    assert_eq!(c.attempts, 1);
}

#[test]
fn probe_verdicts() {
    assert_eq!(scan_tcp(&vec![]), None);
    assert_eq!(scan_tcp(&vec![None]), None);
    assert_eq!(scan_tcp(&vec![Some(false)]), Some(false));
    assert_eq!(scan_tcp(&vec![None, Some(true)]), Some(true));
    assert_eq!(scan_tcp(&vec![Some(false), None]), None);
    assert_eq!(scan_udp(&vec![Some(true)]), Some(true));
    assert_eq!(scan_udp(&vec![Some(false), Some(true)]), Some(true));
    // the UDP loop stops on an undecided attempt; its log ends on the None
    assert_eq!(scan_udp(&vec![Some(false), None]), None);
}

#[test]
fn probe_retry_decision_tcp() {
    assert!(tcp_probe_again(&None, 0, 1));
    assert!(!tcp_probe_again(&None, 1, 1));
    assert!(!tcp_probe_again(&Some(true), 1, 3));
    assert!(tcp_probe_again(&Some(false), 1, 3));
    // an undecided attempt (timeout, unreachable network) is retried
    assert!(tcp_probe_again(&None, 1, 3));
    assert!(!tcp_probe_again(&Some(false), 3, 3));
}

#[test]
fn probe_retry_decision_udp() {
    assert!(udp_probe_again(&None, 0, 1));
    assert!(!udp_probe_again(&None, 0, 0));
    assert!(!udp_probe_again(&Some(true), 1, 3));
    // a silent port is retried, an undecided attempt is not
    assert!(udp_probe_again(&Some(false), 1, 3));
    assert!(!udp_probe_again(&None, 1, 3));
    assert!(!udp_probe_again(&Some(false), 3, 3));
}

#[test]
fn probe_port_states() {
    assert_eq!(port_state_of(Some(true)), PortState::Open);
    assert_eq!(port_state_of(Some(false)), PortState::Closed);
    assert_eq!(port_state_of(None), PortState::Unreachable);
}

#[test]
fn builder_command_order() {
    let b = ScannerBuilder::default()
        .thread_count(1)
        .tcp_timeout(1000)
        .scan_tcp("192.0.2.1".to_string(), 1, 10)
        .stale(true)
        .attemps(1);
    let cmds = b.initial_commands();
    assert_eq!(cmds.len(), 5);
    assert!(matches!(cmds[0], Input::Attempts(1)));
    assert!(matches!(cmds[1], Input::Stale(true)));
    assert!(matches!(cmds[2], Input::Threads(1)));
    assert!(matches!(cmds[3], Input::TcpTimeout(1000)));
    assert!(matches!(&cmds[4], Input::TcpRange(h, 1, 10) if h == "192.0.2.1"));
}

#[test]
fn builder_scans_in_submission_order() {
    let b = ScannerBuilder::default()
        .scan_udp("u".to_string(), 2, 3)
        .scan_tcp("t".to_string(), 4, 5);
    let cmds = b.initial_commands();
    assert_eq!(cmds.len(), 2);
    assert!(matches!(&cmds[0], Input::UdpRange(h, 2, 3) if h == "u"));
    assert!(matches!(&cmds[1], Input::TcpRange(h, 4, 5) if h == "t"));
}

#[test]
fn builder_empty_yields_nothing() {
    let cmds = ScannerBuilder::default().initial_commands();
    assert!(cmds.is_empty());
}
