//! End-to-end scenarios driven against the supervisor state machine, with a
//! simulated runtime performing its actions.

use portsqan::master::{Action, ScanMaster};
use portsqan::message::{Input, Message, Output, WorkerMessage};
use portsqan::queue::Address;
use portsqan::range::PortState;

/// A simulated runtime: workers, their in-flight jobs, and everything the
/// supervisor emitted.
struct Sim {
    master: ScanMaster,
    workers: Vec<usize>,
    in_flight: Vec<(usize, Address)>,
    outputs: Vec<Output>,
    acks: Vec<Output>,
    spawns: usize,
    sends: usize,
}

impl Sim {
    fn new() -> Sim {
        let mut sim = Sim {
            master: ScanMaster::new(),
            workers: Vec::new(),
            in_flight: Vec::new(),
            outputs: Vec::new(),
            acks: Vec::new(),
            spawns: 0,
            sends: 0,
        };
        let mut acts = Vec::new();
        sim.master.thread_count_control(&mut acts);
        sim.perform(acts);
        sim
    }

    fn perform(&mut self, acts: Vec<Action>) {
        for a in acts {
            match a {
                Action::Spawn(id) => {
                    self.workers.push(id);
                    self.spawns += 1;
                }
                Action::SendScan(id, addr) => {
                    assert!(self.workers.contains(&id));
                    assert!(!self.in_flight.iter().any(|(w, _)| *w == id));
                    self.in_flight.push((id, addr));
                    self.sends += 1;
                }
                Action::Close(id) => {
                    assert!(self.workers.contains(&id));
                    assert!(!self.in_flight.iter().any(|(w, _)| *w == id));
                    self.workers.retain(|w| *w != id);
                }
                Action::Async(o) => self.outputs.push(o),
                Action::Sync(o) => self.acks.push(o),
            }
        }
    }

    fn command(&mut self, input: Input) {
        let acts = self.master.handle_input(input);
        self.perform(acts);
    }

    /// The oldest in-flight probe finishes with this verdict.
    fn reply(&mut self, state: PortState) {
        let (id, (host, port)) = self.in_flight.remove(0);
        let acts = self.master.handle_message(WorkerMessage {
            worker_id: id,
            content: Message::Scan(host, port, state),
        });
        self.perform(acts);
    }

    fn drain(&mut self) {
        while !self.in_flight.is_empty() {
            self.reply(PortState::Closed);
        }
    }

    fn scan_results(&self) -> Vec<(String, u16, PortState)> {
        self.outputs
            .iter()
            .filter_map(|o| match o {
                Output::TcpScan(h, p, s) => Some((h.clone(), *p, *s)),
                Output::UdpScan(h, p, s) => Some((h.clone(), *p, *s)),
                _ => None,
            })
            .collect()
    }

    fn idle_count(&self) -> usize {
        self.outputs.iter().filter(|o| **o == Output::Idle).count()
    }
}

#[test]
fn basic_tcp_range() {
    let mut sim = Sim::new();
    sim.command(Input::Threads(2));
    sim.command(Input::Attempts(1));
    sim.command(Input::TcpRange("127.0.0.1".to_string(), 1, 4));
    sim.drain();
    let mut ports: Vec<u16> = sim
        .outputs
        .iter()
        .filter_map(|o| match o {
            Output::TcpScan(h, p, _) => {
                assert_eq!(h, "127.0.0.1");
                Some(*p)
            }
            _ => None,
        })
        .collect();
    ports.sort();
    assert_eq!(ports, vec![1, 2, 3, 4]);
    assert_eq!(sim.outputs.last(), Some(&Output::Idle));
    assert_eq!(sim.idle_count(), 1);
}

#[test]
fn thread_growth_mid_flight() {
    let mut sim = Sim::new();
    assert_eq!(sim.workers.len(), 1);
    sim.command(Input::TcpRange("h".to_string(), 1, 10));
    sim.reply(PortState::Open);
    sim.reply(PortState::Closed);
    sim.command(Input::Threads(4));
    assert_eq!(sim.workers.len(), 4);
    sim.drain();
    assert_eq!(sim.scan_results().len(), 10);
    assert_eq!(sim.idle_count(), 1);
    assert_eq!(sim.outputs.last(), Some(&Output::Idle));
}

#[test]
fn cancel_suppresses_stragglers() {
    let mut sim = Sim::new();
    sim.command(Input::Threads(2));
    sim.command(Input::TcpRange("h".to_string(), 1, 8));
    sim.reply(PortState::Closed);
    let before = sim.scan_results().len();
    assert_eq!(before, 1);
    sim.command(Input::Cancel);
    sim.drain();
    // every straggler carried the stale mark and the policy suppresses it
    assert!(sim.scan_results().len() - before <= 1);
}

#[test]
fn stale_false_keeps_stragglers() {
    let mut sim = Sim::new();
    sim.command(Input::Stale(false));
    sim.command(Input::Threads(2));
    sim.command(Input::TcpRange("h".to_string(), 1, 8));
    sim.reply(PortState::Closed);
    let in_flight = sim.in_flight.len();
    assert_eq!(in_flight, 2);
    sim.command(Input::Cancel);
    sim.drain();
    // probes already begun at cancel time still report
    assert_eq!(sim.scan_results().len(), 1 + in_flight);
}

#[test]
fn stop_then_cont() {
    let mut sim = Sim::new();
    sim.command(Input::TcpRange("h".to_string(), 1, 6));
    sim.reply(PortState::Closed);
    sim.reply(PortState::Closed);
    let sends_before = sim.sends;
    sim.command(Input::Stop);
    // the probe already in flight may still report; nothing new starts
    sim.drain();
    assert_eq!(sim.sends, sends_before);
    assert_eq!(sim.idle_count(), 0);
    sim.command(Input::Cont);
    sim.drain();
    assert_eq!(sim.scan_results().len(), 6);
    assert_eq!(sim.idle_count(), 1);
    assert_eq!(sim.outputs.last(), Some(&Output::Idle));
}

#[test]
fn graceful_end() {
    let mut sim = Sim::new();
    sim.command(Input::Threads(8));
    sim.command(Input::TcpRange("h".to_string(), 1, 100));
    assert_eq!(sim.in_flight.len(), 8);
    sim.reply(PortState::Open);
    let before = sim.scan_results().len();
    assert_eq!(before, 1);
    sim.command(Input::End);
    assert!(!sim.master.is_terminated());
    sim.drain();
    // the tail is bounded by the workers that were busy at `End`
    assert!(sim.scan_results().len() - before <= 8);
    assert!(sim.master.is_terminated());
}

#[test]
fn threads_twice_is_threads_once() {
    let mut sim = Sim::new();
    sim.command(Input::TcpRange("h".to_string(), 1, 3));
    sim.command(Input::Threads(5));
    let workers_after_first = sim.workers.clone();
    let spawns = sim.spawns;
    let sends = sim.sends;
    sim.command(Input::Threads(5));
    assert_eq!(sim.workers, workers_after_first);
    assert_eq!(sim.spawns, spawns);
    assert_eq!(sim.sends, sends);
    assert_eq!(sim.acks.last(), Some(&Output::Ack));
}

#[test]
fn stop_cont_roundtrip_quiet() {
    let mut sim = Sim::new();
    sim.command(Input::TcpRange("h".to_string(), 1, 2));
    let outputs_before = sim.outputs.len();
    let sends_before = sim.sends;
    sim.command(Input::Stop);
    sim.command(Input::Cont);
    // no observable effect on the output stream, only two acknowledgements
    assert_eq!(sim.outputs.len(), outputs_before);
    assert_eq!(sim.sends, sends_before);
    assert_eq!(&sim.acks[sim.acks.len() - 2..], &[Output::Ack, Output::Ack]);
    sim.drain();
    assert_eq!(sim.scan_results().len(), 2);
}

#[test]
fn cancel_then_new_range_serves_it_fresh() {
    let mut sim = Sim::new();
    sim.command(Input::Threads(2));
    sim.command(Input::UdpRange("old".to_string(), 1, 5));
    sim.reply(PortState::Closed);
    sim.command(Input::Cancel);
    sim.drain();
    let noise = sim.scan_results().len();
    sim.command(Input::TcpRange("new".to_string(), 10, 12));
    sim.drain();
    let fresh: Vec<(String, u16, PortState)> = sim
        .scan_results()
        .into_iter()
        .skip(noise)
        .collect();
    let mut ports: Vec<u16> = fresh
        .iter()
        .map(|(h, p, _)| {
            assert_eq!(h, "new");
            *p
        })
        .collect();
    ports.sort();
    assert_eq!(ports, vec![10, 11, 12]);
}

#[test]
fn idle_only_when_drained_and_all_idle() {
    let mut sim = Sim::new();
    sim.command(Input::Threads(2));
    sim.command(Input::TcpRange("h".to_string(), 1, 3));
    // while anything is queued or in flight, no idle signal
    sim.reply(PortState::Closed);
    assert_eq!(sim.idle_count(), 0);
    sim.reply(PortState::Closed);
    assert_eq!(sim.idle_count(), 0);
    sim.reply(PortState::Closed);
    assert_eq!(sim.idle_count(), 1);
    assert_eq!(sim.outputs.last(), Some(&Output::Idle));
}

#[test]
fn results_per_range_bounded_by_length() {
    let mut sim = Sim::new();
    sim.command(Input::Threads(3));
    sim.command(Input::TcpRange("a".to_string(), 20, 24));
    sim.command(Input::UdpRange("b".to_string(), 30, 31));
    sim.drain();
    let a: Vec<u16> = sim
        .outputs
        .iter()
        .filter_map(|o| match o {
            Output::TcpScan(h, p, _) if h == "a" => Some(*p),
            _ => None,
        })
        .collect();
    let b: Vec<u16> = sim
        .outputs
        .iter()
        .filter_map(|o| match o {
            Output::UdpScan(h, p, _) if h == "b" => Some(*p),
            _ => None,
        })
        .collect();
    assert_eq!(a.len(), 5);
    assert_eq!(b.len(), 2);
    let mut a_sorted = a.clone();
    a_sorted.sort();
    a_sorted.dedup();
    assert_eq!(a_sorted.len(), 5);
}

#[test]
fn config_changes_take_effect_after_ack() {
    let mut sim = Sim::new();
    sim.command(Input::Attempts(3));
    assert_eq!(sim.acks.last(), Some(&Output::Ack));
    assert_eq!(sim.master.config().attempts, 3);
    sim.command(Input::TcpTimeout(250));
    assert_eq!(sim.master.config().tcp_timeout, 250);
    sim.command(Input::UdpTimeout(750));
    assert_eq!(sim.master.config().udp_timeout, 750);
    sim.command(Input::Stale(false));
    assert!(!sim.master.config().stale);
}

#[test]
fn commands_ignored_while_ending() {
    let mut sim = Sim::new();
    sim.command(Input::TcpRange("h".to_string(), 1, 4));
    sim.command(Input::End);
    let workers = sim.workers.clone();
    sim.command(Input::Threads(7));
    // ignored, yet acknowledged
    assert_eq!(sim.workers, workers);
    assert_eq!(sim.acks.last(), Some(&Output::Ack));
    sim.drain();
    assert!(sim.master.is_terminated());
}

#[test]
fn worker_states_alternate_with_messages() {
    // a worker gets work only when idle, and its single-slot channel is
    // never double-filled: the simulated runtime asserts both on every
    // dispatch
    let mut sim = Sim::new();
    sim.command(Input::TcpRange("h".to_string(), 1, 5));
    for _ in 0..5 {
        assert!(sim.in_flight.len() <= sim.workers.len());
        sim.reply(PortState::Unreachable);
    }
    assert_eq!(sim.scan_results().len(), 5);
}
