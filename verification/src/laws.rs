//! The laws the supervisor obeys, proved over the spec-level state machine
//! that [`crate::master::ScanMaster`]'s contracts refine.

use vstd::prelude::*;

use crate::config::ScannerConfig;
use crate::master::{
    spec_assign, spec_spawn_n, spec_stale_all, spec_try_close, assigned_from, idle_count,
    lemma_assign, lemma_idle_count_single, lemma_spawn_n, lemma_try_close, lemma_try_close_no_idle,
    lemma_handle_message_wf, lemma_tcc, ids_bounded, no_idle, sorted_ids, ActionV, MasterV,
    ScannerState,
    WorkerHandle, WorkerState,
};
use crate::message::{InputV, OutputV, MessageV};
use crate::queue::QueueV;

verus! {

/// No action in the list is the idle signal.
pub open spec fn no_idle_signal(acts: Seq<ActionV>) -> bool {
    forall|k: int| 0 <= k < acts.len() ==> #[trigger] acts[k] != ActionV::Async(OutputV::Idle)
}

/// Spawning, closing and dispatching never signal idleness.
proof fn lemma_tcc_no_idle_signal(m: MasterV)
    requires
        m.wf(),
        m.can_step(),
    ensures
        no_idle_signal(m.spec_tcc().1),
{
    let want = m.config.thread_count;
    let have = m.workers.len();
    if want > have {
        lemma_spawn_n(m.workers, m.id_counter, (want - have) as nat);
        let (ws, c, acts) = spec_spawn_n(m.workers, m.id_counter, (want - have) as nat);
        let m1 = MasterV { workers: ws, id_counter: c, ..m };
        lemma_assign_work_no_idle_signal(m1);
        let acts2 = m1.spec_assign_work().1;
        assert forall|k: int| 0 <= k < m.spec_tcc().1.len() implies #[trigger] m.spec_tcc().1[k]
            != ActionV::Async(OutputV::Idle) by {
            if k < acts.len() {
                assert(m.spec_tcc().1[k] == acts[k]);
                assert(acts[k] == ActionV::Spawn((m.id_counter + 1 + k) as usize));
            } else {
                assert(m.spec_tcc().1[k] == acts2[k - acts.len()]);
            }
        }
    } else if want < have {
        lemma_try_close(m.workers, (have - want) as nat);
        let acts = spec_try_close(m.workers, (have - want) as nat).1;
        assert forall|k: int| 0 <= k < acts.len() implies #[trigger] acts[k] != ActionV::Async(
            OutputV::Idle,
        ) by {
            assert(acts[k] is Close);
        }
    }
}

/// Dispatch emits only `SendScan` actions.
proof fn lemma_assign_work_no_idle_signal(m: MasterV)
    requires
        m.queue.wf(),
    ensures
        no_idle_signal(m.spec_assign_work().1),
{
    if m.state == ScannerState::Running {
        lemma_assign(m.workers, m.queue);
        let acts = spec_assign(m.workers, m.queue).2;
        assert forall|k: int| 0 <= k < acts.len() implies #[trigger] acts[k] != ActionV::Async(
            OutputV::Idle,
        ) by {
            assert(crate::master::sends_target(acts[k], m.queue.targets()[k]));
        }
    }
}

/// Closing towards termination emits only `Close` actions.
proof fn lemma_try_terminate_no_idle_signal(m: MasterV)
    ensures
        no_idle_signal(m.spec_try_terminate().1),
{
    lemma_try_close(m.workers, m.workers.len() as nat);
    let acts = spec_try_close(m.workers, m.workers.len() as nat).1;
    assert forall|k: int| 0 <= k < acts.len() implies #[trigger] acts[k] != ActionV::Async(
        OutputV::Idle,
    ) by {
        assert(acts[k] is Close);
    }
}

/// The idle signal is emitted by a result transition exactly when, at that
/// instant, the machine is running, every worker is idle, and no range
/// remains queued.
pub proof fn lemma_idle_signal_iff(m: MasterV, msg: MessageV)
    requires
        m.wf(),
        m.can_step(),
        m.has_worker(msg.worker_id),
    ensures
        ({
            let (m2, acts) = m.spec_handle_message(msg);
            acts.contains(ActionV::Async(OutputV::Idle)) <==> (m2.state == ScannerState::Running
                && m2.all_idle() && m2.queue.ranges.len() == 0)
        }),
{
    let i = m.worker_index(msg.worker_id);
    let w = m.workers[i];
    let ws1 = m.workers.update(
        i,
        WorkerHandle { id: w.id, state: WorkerState::Idle, stale: false },
    );
    let m1 = MasterV { workers: ws1, ..m };
    crate::master::lemma_idle_update_wf(m, i);
    let reported: Seq<ActionV> = if !(w.stale && m.config.stale) {
        seq![ActionV::Async(crate::master::scan_output(msg.target, msg.state))]
    } else {
        Seq::empty()
    };
    assert(no_idle_signal(reported)) by {
        match msg.target.port.protocol {
            crate::range::Protocol::Tcp => {},
            crate::range::Protocol::Udp => {},
        }
    }
    let (m2, acts) = m.spec_handle_message(msg);
    if m.state == ScannerState::Running {
        lemma_tcc(m1);
        lemma_tcc_no_idle_signal(m1);
        let (ma, a2) = m1.spec_tcc();
        crate::master::lemma_assign_work(ma);
        lemma_assign_work_no_idle_signal(ma);
        let (mb, a3) = ma.spec_assign_work();
        let a4 = mb.spec_check_idle();
        assert(m2 == mb);
        assert(acts == reported + a2 + a3 + a4);
        if mb.state == ScannerState::Running && mb.all_idle() && mb.queue.ranges.len() == 0 {
            assert(a4 == seq![ActionV::Async(OutputV::Idle)]);
            assert(acts[acts.len() - 1] == ActionV::Async(OutputV::Idle));
            assert(acts.contains(ActionV::Async(OutputV::Idle)));
        } else {
            assert(a4 =~= Seq::<ActionV>::empty());
            assert forall|k: int| 0 <= k < acts.len() implies #[trigger] acts[k]
                != ActionV::Async(OutputV::Idle) by {
                if k < reported.len() {
                    assert(acts[k] == reported[k]);
                } else if k < reported.len() + a2.len() {
                    assert(acts[k] == a2[k - reported.len()]);
                } else {
                    assert(acts[k] == a3[k - reported.len() - a2.len()]);
                }
            }
            if acts.contains(ActionV::Async(OutputV::Idle)) {
                let k = choose|k: int|
                    0 <= k < acts.len() && acts[k] == ActionV::Async(OutputV::Idle);
                assert(false);
            }
        }
    } else if m.state == ScannerState::Ending {
        lemma_try_terminate_no_idle_signal(m1);
        let (ma, a2) = m1.spec_try_terminate();
        assert(m2 == ma);
        assert(m2.state == ScannerState::Ending || m2.state == ScannerState::Terminated);
        assert(acts == reported + a2);
        assert forall|k: int| 0 <= k < acts.len() implies #[trigger] acts[k] != ActionV::Async(
            OutputV::Idle,
        ) by {
            if k < reported.len() {
                assert(acts[k] == reported[k]);
            } else {
                assert(acts[k] == a2[k - reported.len()]);
            }
        }
        if acts.contains(ActionV::Async(OutputV::Idle)) {
            let k = choose|k: int| 0 <= k < acts.len() && acts[k] == ActionV::Async(OutputV::Idle);
            assert(false);
        }
    } else {
        assert(m2.state != ScannerState::Running);
        assert(acts == reported);
        if acts.contains(ActionV::Async(OutputV::Idle)) {
            let k = choose|k: int| 0 <= k < acts.len() && acts[k] == ActionV::Async(OutputV::Idle);
            assert(false);
        }
    }
}

/// A result is reported exactly when its worker's stale flag at reply time
/// and the stale policy are not both set.
pub proof fn lemma_stale_suppression(m: MasterV, msg: MessageV)
    requires
        m.wf(),
        m.can_step(),
        m.has_worker(msg.worker_id),
    ensures
        ({
            let w = m.workers[m.worker_index(msg.worker_id)];
            let acts = m.spec_handle_message(msg).1;
            acts.contains(ActionV::Async(crate::master::scan_output(msg.target, msg.state)))
                <==> !(w.stale && m.config.stale)
        }),
{
    let i = m.worker_index(msg.worker_id);
    let w = m.workers[i];
    let ws1 = m.workers.update(
        i,
        WorkerHandle { id: w.id, state: WorkerState::Idle, stale: false },
    );
    let m1 = MasterV { workers: ws1, ..m };
    crate::master::lemma_idle_update_wf(m, i);
    let report = ActionV::Async(crate::master::scan_output(msg.target, msg.state));
    let reported: Seq<ActionV> = if !(w.stale && m.config.stale) {
        seq![report]
    } else {
        Seq::empty()
    };
    let acts = m.spec_handle_message(msg).1;
    let rest: Seq<ActionV> = if m.state == ScannerState::Running {
        let (ma, a2) = m1.spec_tcc();
        let (mb, a3) = ma.spec_assign_work();
        a2 + a3 + mb.spec_check_idle()
    } else if m.state == ScannerState::Ending {
        m1.spec_try_terminate().1
    } else {
        Seq::empty()
    };
    assert(acts =~= reported + rest);
    assert(forall|k: int| 0 <= k < rest.len() ==> #[trigger] rest[k] != report) by {
        if m.state == ScannerState::Running {
            lemma_tcc(m1);
            lemma_tcc_no_idle_signal(m1);
            let (ma, a2) = m1.spec_tcc();
            crate::master::lemma_assign_work(ma);
            lemma_assign_work_no_idle_signal(ma);
            let (mb, a3) = ma.spec_assign_work();
            assert forall|k: int| 0 <= k < rest.len() implies #[trigger] rest[k] != report by {
                if k < a2.len() {
                    assert(rest[k] == a2[k]);
                    lemma_no_report_in(a2, m1, report);
                } else if k < a2.len() + a3.len() {
                    lemma_assign(ma.workers, ma.queue);
                    assert(rest[k] == a3[k - a2.len()]);
                    assert(crate::master::sends_target(
                        a3[k - a2.len()],
                        ma.queue.targets()[k - a2.len()],
                    ));
                } else {
                    assert(rest[k] == mb.spec_check_idle()[k - a2.len() - a3.len()]);
                }
            }
        } else if m.state == ScannerState::Ending {
            lemma_try_close(m1.workers, m1.workers.len() as nat);
            assert forall|k: int| 0 <= k < rest.len() implies #[trigger] rest[k] != report by {
                assert(rest[k] is Close);
            }
        }
    }
    if !(w.stale && m.config.stale) {
        assert(acts[0] == report);
        assert(acts.contains(report));
    } else {
        if acts.contains(report) {
            let k = choose|k: int| 0 <= k < acts.len() && acts[k] == report;
            assert(rest[k] == report);
            assert(false);
        }
    }
}

/// Helper: reconciliation actions are spawns, closes or dispatches, never a
/// scan report.
proof fn lemma_no_report_in(a2: Seq<ActionV>, m1: MasterV, report: ActionV)
    requires
        m1.wf(),
        m1.can_step(),
        a2 == m1.spec_tcc().1,
        report is Async,
    ensures
        forall|k: int| 0 <= k < a2.len() ==> #[trigger] a2[k] != report,
{
    let want = m1.config.thread_count;
    let have = m1.workers.len();
    if want > have {
        lemma_spawn_n(m1.workers, m1.id_counter, (want - have) as nat);
        let (ws, c, acts) = spec_spawn_n(m1.workers, m1.id_counter, (want - have) as nat);
        let ma = MasterV { workers: ws, id_counter: c, ..m1 };
        assert forall|k: int| 0 <= k < a2.len() implies #[trigger] a2[k] != report by {
            if k < acts.len() {
                assert(a2[k] == acts[k]);
                assert(acts[k] == ActionV::Spawn((m1.id_counter + 1 + k) as usize));
            } else {
                crate::master::lemma_tcc(m1);
                lemma_assign(ma.workers, ma.queue);
                assert(a2[k] == ma.spec_assign_work().1[k - acts.len()]);
                if ma.state == ScannerState::Running {
                    assert(crate::master::sends_target(
                        spec_assign(ma.workers, ma.queue).2[k - acts.len()],
                        ma.queue.targets()[k - acts.len()],
                    ));
                }
            }
        }
    } else if want < have {
        lemma_try_close(m1.workers, (have - want) as nat);
        assert forall|k: int| 0 <= k < a2.len() implies #[trigger] a2[k] != report by {
            assert(a2[k] is Close);
        }
    }
}

/// A configuration command updates exactly its field and emits only the
/// acknowledgement; once the `Ack` is out, the new value is what the machine
/// holds, so every probe started after it reads the new configuration.
pub proof fn lemma_config_takes_effect(m: MasterV, n: usize, b: bool)
    requires
        m.wf(),
        m.state != ScannerState::Ending,
        m.state != ScannerState::Terminated,
    ensures
        m.spec_handle_input(InputV::Attempts(n)) == (
            MasterV { config: ScannerConfig { attempts: n, ..m.config }, ..m },
            seq![ActionV::Sync(OutputV::Ack)],
        ),
        m.spec_handle_input(InputV::TcpTimeout(n)) == (
            MasterV { config: ScannerConfig { tcp_timeout: n, ..m.config }, ..m },
            seq![ActionV::Sync(OutputV::Ack)],
        ),
        m.spec_handle_input(InputV::UdpTimeout(n)) == (
            MasterV { config: ScannerConfig { udp_timeout: n, ..m.config }, ..m },
            seq![ActionV::Sync(OutputV::Ack)],
        ),
        m.spec_handle_input(InputV::Stale(b)) == (
            MasterV { config: ScannerConfig { stale: b, ..m.config }, ..m },
            seq![ActionV::Sync(OutputV::Ack)],
        ),
{
    assert(Seq::<ActionV>::empty() + seq![ActionV::Sync(OutputV::Ack)] =~= seq![
        ActionV::Sync(OutputV::Ack),
    ]);
}

/// With nobody idle, or with the queue drained, dispatch does nothing.
pub proof fn lemma_assign_identity(ws: Seq<WorkerHandle>, q: QueueV)
    requires
        q.wf(),
        no_idle(ws) || q.ranges.len() == 0,
    ensures
        spec_assign(ws, q) == (ws, q, Seq::<ActionV>::empty()),
    decreases ws.len(),
{
    if ws.len() == 0 {
    } else if ws[0].state == WorkerState::Idle {
        assert(q.ranges.len() == 0);
    } else {
        let tail = ws.drop_first();
        lemma_assign_identity(tail, q);
        assert(spec_assign(ws, q).0 =~= ws);
    }
}

/// `Stop` immediately followed by `Cont` puts the machine back exactly where
/// it was and emits nothing but the two acknowledgements.  The hypothesis
/// holds of every state the machine reaches on its own: after each handled
/// event, either no worker is idle or the queue is drained.
pub proof fn lemma_stop_cont(m: MasterV)
    requires
        m.wf(),
        m.state == ScannerState::Running,
        no_idle(m.workers) || m.queue.ranges.len() == 0,
    ensures
        m.spec_handle_input(InputV::Stop) == (
            MasterV { state: ScannerState::Stop, ..m },
            seq![ActionV::Sync(OutputV::Ack)],
        ),
        (MasterV { state: ScannerState::Stop, ..m }).spec_handle_input(InputV::Cont) == (
            m,
            seq![ActionV::Sync(OutputV::Ack)],
        ),
{
    assert(Seq::<ActionV>::empty() + seq![ActionV::Sync(OutputV::Ack)] =~= seq![
        ActionV::Sync(OutputV::Ack),
    ]);
    let ms = MasterV { state: ScannerState::Stop, ..m };
    lemma_assign_identity(m.workers, m.queue);
    assert(ms.spec_handle_input(InputV::Cont).0 =~= m);
}

/// Setting the same pool size twice is the same as setting it once: the
/// second command changes nothing and emits only its acknowledgement.
pub proof fn lemma_threads_idempotent(m: MasterV, n: usize)
    requires
        m.wf(),
        m.id_counter + n <= usize::MAX,
    ensures
        ({
            let m1 = m.spec_handle_input(InputV::Threads(n)).0;
            m1.spec_handle_input(InputV::Threads(n)) == (m1, seq![ActionV::Sync(OutputV::Ack)])
        }),
{
    assert(Seq::<ActionV>::empty() + seq![ActionV::Sync(OutputV::Ack)] =~= seq![
        ActionV::Sync(OutputV::Ack),
    ]);
    if m.state == ScannerState::Ending || m.state == ScannerState::Terminated {
    } else {
        let mc = MasterV { config: ScannerConfig { thread_count: n, ..m.config }, ..m };
        lemma_tcc(mc);
        let m1 = m.spec_handle_input(InputV::Threads(n)).0;
        assert(m1 == mc.spec_tcc().0);
        assert(m1.config.thread_count == n);
        assert(m1.state == m.state);
        let want = mc.config.thread_count;
        let have = mc.workers.len();
        if want > have {
            lemma_spawn_n(mc.workers, mc.id_counter, (want - have) as nat);
            let (ws, c, acts) = spec_spawn_n(mc.workers, mc.id_counter, (want - have) as nat);
            let ma = MasterV { workers: ws, id_counter: c, ..mc };
            if ma.state == ScannerState::Running {
                lemma_assign(ma.workers, ma.queue);
            }
            assert(m1.workers.len() == n);
        } else if want < have {
            lemma_try_close(mc.workers, (have - want) as nat);
            let (r, acts) = spec_try_close(mc.workers, (have - want) as nat);
            assert(m1.workers == r);
            assert(m1.workers.len() >= n);
            if m1.workers.len() > n {
                assert(acts.len() < have - want);
                assert(no_idle(m1.workers));
            }
        } else {
            assert(m1.workers.len() == n);
        }
        // second command: the machine is not ending, so the Threads arm runs
        // again; the pool is already reconciled.
        let mc2 = MasterV { config: ScannerConfig { thread_count: n, ..m1.config }, ..m1 };
        assert(mc2 =~= m1);
        if m1.workers.len() == n {
            assert(mc2.spec_tcc() == (mc2, Seq::<ActionV>::empty()));
        } else {
            assert(m1.workers.len() > n);
            assert(no_idle(mc2.workers));
            lemma_try_close_no_idle(mc2.workers, (m1.workers.len() - n) as nat);
            assert(mc2.spec_tcc().0 =~= mc2);
            assert(mc2.spec_tcc().1 == Seq::<ActionV>::empty());
        }
        assert(m1.spec_handle_input(InputV::Threads(n)).0 =~= m1);
    }
}

/// `End` marks every worker stale, closes the idle ones, and leaves the
/// machine ending — or terminated at once when nobody was busy.  Every
/// surviving worker is still busy.
pub proof fn lemma_end_drains(m: MasterV)
    requires
        m.wf(),
        m.state != ScannerState::Ending,
        m.state != ScannerState::Terminated,
    ensures
        ({
            let m2 = m.spec_handle_input(InputV::End).0;
            &&& m2.wf()
            &&& (m2.state == if m2.workers.len() == 0 {
                ScannerState::Terminated
            } else {
                ScannerState::Ending
            })
            &&& forall|i: int|
                0 <= i < m2.workers.len() ==> #[trigger] m2.workers[i].state
                    == WorkerState::Working && m2.workers[i].stale
        }),
{
    crate::master::lemma_handle_input_wf(m, InputV::End);
    crate::master::lemma_stale_all(m.workers);
    let ws = spec_stale_all(m.workers);
    let m1 = MasterV { state: ScannerState::Ending, workers: ws, ..m };
    lemma_try_close(ws, ws.len() as nat);
    let (r, acts) = spec_try_close(ws, ws.len() as nat);
    let m2 = m.spec_handle_input(InputV::End).0;
    assert(m2.workers == r);
    assert forall|i: int| 0 <= i < r.len() implies #[trigger] r[i].state == WorkerState::Working
        && r[i].stale by {
        if acts.len() < ws.len() {
            assert(no_idle(r));
        }
        assert(ws.contains(r[i]));
        let j = choose|j: int| 0 <= j < ws.len() && ws[j] == r[i];
        assert(ws[j].stale);
        assert(ws[j].state != WorkerState::Term);
        assert(r[i].state != WorkerState::Idle);
    }
}

/// While ending with every worker busy, each result removes its worker, and
/// the machine reaches `Terminated` exactly when the last one leaves: after
/// `End`, termination comes within as many results as there are workers.
pub proof fn lemma_ending_progress(m: MasterV, msg: MessageV)
    requires
        m.wf(),
        m.can_step(),
        m.state == ScannerState::Ending,
        forall|i: int|
            0 <= i < m.workers.len() ==> #[trigger] m.workers[i].state == WorkerState::Working,
        m.has_worker(msg.worker_id),
    ensures
        ({
            let m2 = m.spec_handle_message(msg).0;
            &&& m2.wf()
            &&& m2.workers.len() == m.workers.len() - 1
            &&& forall|i: int|
                0 <= i < m2.workers.len() ==> #[trigger] m2.workers[i].state
                    == WorkerState::Working
            &&& (m2.state == if m.workers.len() == 1 {
                ScannerState::Terminated
            } else {
                ScannerState::Ending
            })
        }),
{
    lemma_handle_message_wf(m, msg);
    let i = m.worker_index(msg.worker_id);
    let w = m.workers[i];
    let ws1 = m.workers.update(
        i,
        WorkerHandle { id: w.id, state: WorkerState::Idle, stale: false },
    );
    let m1 = MasterV { workers: ws1, ..m };
    crate::master::lemma_idle_update_wf(m, i);
    lemma_idle_count_single(ws1, i);
    lemma_try_close(ws1, ws1.len() as nat);
    let (r, acts) = spec_try_close(ws1, ws1.len() as nat);
    assert(acts.len() == 1);
    let m2 = m.spec_handle_message(msg).0;
    assert(m2.workers == r);
    assert(r.len() == m.workers.len() - 1);
    assert forall|k: int| 0 <= k < r.len() implies #[trigger] r[k].state
        == WorkerState::Working by {
        assert(no_idle(r));
        assert(ws1.contains(r[k]));
        let j = choose|j: int| 0 <= j < ws1.len() && ws1[j] == r[k];
        assert(r[k].state != WorkerState::Idle);
        assert(j != i ==> ws1[j] == m.workers[j]);
    }
}

/// Enqueueing a range of length `L` adds exactly its `L` targets, and the
/// transition's `SendScan` actions consume pending targets one-for-one, in
/// order, each exactly once: with the worker protocol owing one result per
/// instruction, at most `L` results can ever match the range.
pub proof fn lemma_range_dispatch(m: MasterV, h: Seq<char>, f: u16, t: u16, tcp: bool)
    requires
        m.wf(),
        m.state != ScannerState::Ending,
        m.state != ScannerState::Terminated,
        1 <= f <= t,
    ensures
        ({
            let proto = if tcp {
                crate::range::Protocol::Tcp
            } else {
                crate::range::Protocol::Udp
            };
            let r = crate::range::RangeV { host: h, protocol: proto, from: f, to: t };
            let q1 = m.queue.spec_push(r);
            let input = if tcp {
                InputV::TcpRange(h, f, t)
            } else {
                InputV::UdpRange(h, f, t)
            };
            let (m2, acts) = m.spec_handle_input(input);
            let sends = (acts.len() - 1) as int;
            &&& q1.targets() == m.queue.targets() + crate::queue::range_targets(r, 0)
            &&& crate::queue::range_targets(r, 0).len() == t - f + 1
            &&& 0 <= sends <= q1.targets().len()
            &&& acts[sends] == ActionV::Sync(OutputV::Ack)
            &&& forall|k: int|
                0 <= k < sends ==> crate::master::sends_target(
                    #[trigger] acts[k],
                    q1.targets()[k],
                )
            &&& m2.queue.targets() =~= q1.targets().skip(sends)
        }),
{
    let proto = if tcp {
        crate::range::Protocol::Tcp
    } else {
        crate::range::Protocol::Udp
    };
    let r = crate::range::RangeV { host: h, protocol: proto, from: f, to: t };
    crate::queue::lemma_push_targets(m.queue, r);
    let q1 = m.queue.spec_push(r);
    let m1 = MasterV { queue: q1, ..m };
    assert(q1.wf());
    if m.state == ScannerState::Running {
        lemma_assign(m1.workers, m1.queue);
    } else {
        assert(m1.spec_assign_work().1 =~= Seq::<ActionV>::empty());
        assert(m1.spec_assign_work().0.queue.targets() =~= q1.targets().skip(0));
    }
}

/// Two worker lists that agree on ids and states, differing at most in the
/// stale marks.
pub open spec fn eq_mod_stale(a: Seq<WorkerHandle>, b: Seq<WorkerHandle>) -> bool {
    &&& a.len() == b.len()
    &&& forall|i: int|
        0 <= i < a.len() ==> #[trigger] a[i].id == b[i].id && a[i].state == b[i].state
}

/// Consing matching heads keeps lists equal modulo staleness.
proof fn lemma_eq_mod_stale_cons(
    x: WorkerHandle,
    y: WorkerHandle,
    xs: Seq<WorkerHandle>,
    ys: Seq<WorkerHandle>,
)
    requires
        x.id == y.id,
        x.state == y.state,
        eq_mod_stale(xs, ys),
    ensures
        eq_mod_stale(seq![x] + xs, seq![y] + ys),
{
    let a = seq![x] + xs;
    let b = seq![y] + ys;
    assert forall|i: int| 0 <= i < a.len() implies #[trigger] a[i].id == b[i].id && a[i].state
        == b[i].state by {
        if i == 0 {
            assert(a[0] == x && b[0] == y);
        } else {
            assert(a[i] == xs[i - 1] && b[i] == ys[i - 1]);
            assert(xs[i - 1].id == ys[i - 1].id && xs[i - 1].state == ys[i - 1].state);
        }
    }
}

/// Dispatch never reads the stale marks: lists equal modulo staleness are
/// dispatched identically.
proof fn lemma_assign_mod_stale(a: Seq<WorkerHandle>, b: Seq<WorkerHandle>, q: QueueV)
    requires
        q.wf(),
        eq_mod_stale(a, b),
    ensures
        eq_mod_stale(spec_assign(a, q).0, spec_assign(b, q).0),
        spec_assign(a, q).1 == spec_assign(b, q).1,
        spec_assign(a, q).2 == spec_assign(b, q).2,
    decreases a.len(),
{
    crate::queue::lemma_pop_targets(q);
    if a.len() == 0 {
    } else {
        let ta = a.drop_first();
        let tb = b.drop_first();
        assert(eq_mod_stale(ta, tb));
        assert(a[0].state == b[0].state);
        if a[0].state == WorkerState::Idle {
            let (t, q2) = q.spec_pop();
            match t {
                None => {},
                Some(t) => {
                    lemma_assign_mod_stale(ta, tb, q2);
                    let (ra, qa, aa) = spec_assign(a, q);
                    let (rb, qb, ab) = spec_assign(b, q);
                    assert(b[0].state == WorkerState::Idle);
                    assert(ra == seq![
                        WorkerHandle { id: a[0].id, state: WorkerState::Working, stale: a[0].stale },
                    ] + spec_assign(ta, q2).0);
                    assert(rb == seq![
                        WorkerHandle { id: b[0].id, state: WorkerState::Working, stale: b[0].stale },
                    ] + spec_assign(tb, q2).0);
                    assert(aa == seq![ActionV::SendScan(a[0].id, t)] + spec_assign(ta, q2).2);
                    assert(ab == seq![ActionV::SendScan(b[0].id, t)] + spec_assign(tb, q2).2);
                    assert(a[0].id == b[0].id);
                    assert(aa =~= ab);
                    lemma_eq_mod_stale_cons(
                        WorkerHandle { id: a[0].id, state: WorkerState::Working, stale: a[0].stale },
                        WorkerHandle { id: b[0].id, state: WorkerState::Working, stale: b[0].stale },
                        spec_assign(ta, q2).0,
                        spec_assign(tb, q2).0,
                    );
                },
            }
        } else {
            lemma_assign_mod_stale(ta, tb, q);
            let (ra, qa, aa) = spec_assign(a, q);
            let (rb, qb, ab) = spec_assign(b, q);
            assert(b[0].state != WorkerState::Idle);
            assert(ra == seq![a[0]] + spec_assign(ta, q).0);
            assert(rb == seq![b[0]] + spec_assign(tb, q).0);
            assert(aa == spec_assign(ta, q).2);
            assert(ab == spec_assign(tb, q).2);
            assert(aa =~= ab);
            lemma_eq_mod_stale_cons(a[0], b[0], spec_assign(ta, q).0, spec_assign(tb, q).0);
        }
    }
}

/// `Cancel` followed by enqueueing a new range serves that range exactly as
/// if the cancel had not happened: measured against the same machine with an
/// equally empty queue but workers never marked stale, the emitted actions
/// agree and the states differ at most in the stale marks.
pub proof fn lemma_cancel_then_range(m: MasterV, h: Seq<char>, f: u16, t: u16, tcp: bool)
    requires
        m.wf(),
        m.state != ScannerState::Ending,
        m.state != ScannerState::Terminated,
        1 <= f <= t,
    ensures
        ({
            let input = if tcp {
                InputV::TcpRange(h, f, t)
            } else {
                InputV::UdpRange(h, f, t)
            };
            let mc = m.spec_handle_input(InputV::Cancel).0;
            let mb = MasterV { queue: QueueV::cleared(), ..m };
            let ra = mc.spec_handle_input(input);
            let rb = mb.spec_handle_input(input);
            &&& ra.1 == rb.1
            &&& eq_mod_stale(ra.0.workers, rb.0.workers)
            &&& ra.0.queue == rb.0.queue
            &&& ra.0.state == rb.0.state
            &&& ra.0.config == rb.0.config
            &&& ra.0.id_counter == rb.0.id_counter
        }),
{
    let input = if tcp {
        InputV::TcpRange(h, f, t)
    } else {
        InputV::UdpRange(h, f, t)
    };
    let proto = if tcp {
        crate::range::Protocol::Tcp
    } else {
        crate::range::Protocol::Udp
    };
    let r = crate::range::RangeV { host: h, protocol: proto, from: f, to: t };
    crate::master::lemma_stale_all(m.workers);
    let mc = m.spec_handle_input(InputV::Cancel).0;
    let mb = MasterV { queue: QueueV::cleared(), ..m };
    assert(mc.workers == spec_stale_all(m.workers));
    assert(eq_mod_stale(mc.workers, mb.workers));
    let q1 = QueueV::cleared().spec_push(r);
    assert(q1.wf());
    lemma_assign_mod_stale(mc.workers, mb.workers, q1);
    let ma1 = MasterV { queue: mc.queue.spec_push(r), ..mc };
    let mb1 = MasterV { queue: mb.queue.spec_push(r), ..mb };
    assert(ma1.queue == q1);
    assert(mb1.queue == q1);
    if m.state == ScannerState::Running {
        let ra = mc.spec_handle_input(input);
        let rb = mb.spec_handle_input(input);
        assert(ra.1 == rb.1);
        assert(eq_mod_stale(ra.0.workers, rb.0.workers));
    }
}

/// Whether some worker carries this id.
pub open spec fn has_id(ws: Seq<WorkerHandle>, wid: usize) -> bool {
    exists|i: int| 0 <= i < ws.len() && #[trigger] ws[i].id == wid
}

/// The position of the worker with this id.
pub open spec fn id_index(ws: Seq<WorkerHandle>, wid: usize) -> int {
    choose|i: int| 0 <= i < ws.len() && #[trigger] ws[i].id == wid
}

/// The state of the worker with this id, where there is one.
pub open spec fn state_by_id(ws: Seq<WorkerHandle>, wid: usize) -> Option<WorkerState> {
    if has_id(ws, wid) {
        Some(ws[id_index(ws, wid)].state)
    } else {
        None
    }
}

/// With strictly increasing ids an id names one position.
proof fn lemma_id_index_unique(ws: Seq<WorkerHandle>, wid: usize, i: int)
    requires
        sorted_ids(ws),
        0 <= i < ws.len(),
        ws[i].id == wid,
    ensures
        has_id(ws, wid),
        id_index(ws, wid) == i,
        state_by_id(ws, wid) == Some(ws[i].state),
{
    assert(has_id(ws, wid));
    let j = id_index(ws, wid);
    if j < i {
        assert(ws[j].id < ws[i].id);
    } else if j > i {
        assert(ws[i].id < ws[j].id);
    }
}

/// A member of a sorted list is found under its id, unchanged.
proof fn lemma_state_by_id_member(ws: Seq<WorkerHandle>, w: WorkerHandle)
    requires
        sorted_ids(ws),
        ws.contains(w),
    ensures
        state_by_id(ws, w.id) == Some(w.state),
{
    let i = choose|i: int| 0 <= i < ws.len() && ws[i] == w;
    lemma_id_index_unique(ws, w.id, i);
}

/// Lists with pointwise equal ids and states agree on every lookup.
proof fn lemma_state_by_id_pointwise(a: Seq<WorkerHandle>, b: Seq<WorkerHandle>, wid: usize)
    requires
        sorted_ids(a),
        a.len() == b.len(),
        forall|i: int| 0 <= i < a.len() ==> #[trigger] a[i].id == b[i].id,
    ensures
        has_id(a, wid) == has_id(b, wid),
        has_id(a, wid) ==> state_by_id(b, wid) == Some(b[id_index(a, wid)].state),
{
    assert forall|i: int, j: int| 0 <= i < j < b.len() implies #[trigger] b[i].id
        < #[trigger] b[j].id by {
        assert(a[i].id == b[i].id && a[j].id == b[j].id);
    }
    if has_id(a, wid) {
        let i = id_index(a, wid);
        lemma_id_index_unique(a, wid, i);
        assert(b[i].id == wid);
        lemma_id_index_unique(b, wid, i);
    } else {
        if has_id(b, wid) {
            let i = id_index(b, wid);
            assert(a[i].id == wid);
        }
    }
}

/// Marking everyone stale changes no lookup.
proof fn lemma_state_by_id_stale_all(ws: Seq<WorkerHandle>, wid: usize)
    requires
        sorted_ids(ws),
    ensures
        state_by_id(spec_stale_all(ws), wid) == state_by_id(ws, wid),
{
    crate::master::lemma_stale_all(ws);
    let st = spec_stale_all(ws);
    lemma_state_by_id_pointwise(ws, st, wid);
    if has_id(ws, wid) {
        let i = id_index(ws, wid);
        lemma_id_index_unique(ws, wid, i);
        assert(st[i].state == ws[i].state);
    }
}

/// Closing keeps every busy worker busy, and makes nobody busy.
proof fn lemma_state_by_id_close(ws: Seq<WorkerHandle>, count: nat, wid: usize)
    requires
        sorted_ids(ws),
    ensures
        state_by_id(ws, wid) == Some(WorkerState::Working) ==> state_by_id(
            spec_try_close(ws, count).0,
            wid,
        ) == Some(WorkerState::Working),
        state_by_id(spec_try_close(ws, count).0, wid) == Some(WorkerState::Working)
            ==> state_by_id(ws, wid) == Some(WorkerState::Working),
{
    lemma_try_close(ws, count);
    let r = spec_try_close(ws, count).0;
    if state_by_id(ws, wid) == Some(WorkerState::Working) {
        let i = id_index(ws, wid);
        lemma_id_index_unique(ws, wid, i);
        assert(r.contains(ws[i]));
        lemma_state_by_id_member(r, ws[i]);
    }
    if state_by_id(r, wid) == Some(WorkerState::Working) {
        let i = id_index(r, wid);
        assert(0 <= i < r.len() && r[i].id == wid) by {
            assert(has_id(r, wid));
        }
        assert(ws.contains(r[i]));
        lemma_state_by_id_member(ws, r[i]);
    }
}

/// Spawning keeps old lookups and adds only idle workers.
proof fn lemma_state_by_id_spawn_n(ws: Seq<WorkerHandle>, counter: usize, n: nat, wid: usize)
    requires
        sorted_ids(ws),
        ids_bounded(ws, counter),
        counter + n <= usize::MAX,
    ensures
        has_id(ws, wid) ==> state_by_id(spec_spawn_n(ws, counter, n).0, wid) == state_by_id(
            ws,
            wid,
        ),
        !has_id(ws, wid) && has_id(spec_spawn_n(ws, counter, n).0, wid) ==> state_by_id(
            spec_spawn_n(ws, counter, n).0,
            wid,
        ) == Some(WorkerState::Idle),
        sorted_ids(spec_spawn_n(ws, counter, n).0),
{
    lemma_spawn_n(ws, counter, n);
    let ws2 = spec_spawn_n(ws, counter, n).0;
    assert forall|i: int, j: int| 0 <= i < j < ws2.len() implies #[trigger] ws2[i].id
        < #[trigger] ws2[j].id by {
        if j < ws.len() {
        } else if i < ws.len() {
            let k = j - ws.len();
            assert(ws2[ws.len() + k] == (WorkerHandle {
                id: (counter + 1 + k) as usize,
                state: WorkerState::Idle,
                stale: false,
            }));
            assert(counter + 1 + k <= usize::MAX);
        } else {
            let ki = i - ws.len();
            let kj = j - ws.len();
            assert(ws2[ws.len() + ki] == (WorkerHandle {
                id: (counter + 1 + ki) as usize,
                state: WorkerState::Idle,
                stale: false,
            }));
            assert(ws2[ws.len() + kj] == (WorkerHandle {
                id: (counter + 1 + kj) as usize,
                state: WorkerState::Idle,
                stale: false,
            }));
            assert(counter + 1 + kj <= usize::MAX);
        }
    }
    if has_id(ws, wid) {
        let i = id_index(ws, wid);
        lemma_id_index_unique(ws, wid, i);
        assert(ws2[i] == ws[i]);
        lemma_id_index_unique(ws2, wid, i);
    } else if has_id(ws2, wid) {
        let i = id_index(ws2, wid);
        assert(0 <= i < ws2.len() && ws2[i].id == wid) by {
            assert(has_id(ws2, wid));
        }
        if i < ws.len() {
            assert(ws[i].id == wid);
        } else {
            let k = i - ws.len();
            assert(ws2[ws.len() + k] == (WorkerHandle {
                id: (counter + 1 + k) as usize,
                state: WorkerState::Idle,
                stale: false,
            }));
            lemma_id_index_unique(ws2, wid, i);
        }
    }
}

/// Dispatch keeps busy workers busy and makes a worker busy only along a
/// `SendScan` bearing its id.
proof fn lemma_state_by_id_assign(ws: Seq<WorkerHandle>, q: QueueV, wid: usize)
    requires
        sorted_ids(ws),
        q.wf(),
    ensures
        state_by_id(ws, wid) == Some(WorkerState::Working) ==> state_by_id(
            spec_assign(ws, q).0,
            wid,
        ) == Some(WorkerState::Working),
        state_by_id(spec_assign(ws, q).0, wid) == Some(WorkerState::Working) && state_by_id(
            ws,
            wid,
        ) != Some(WorkerState::Working) ==> crate::master::has_send_for(spec_assign(ws, q).2, wid),
        has_id(spec_assign(ws, q).0, wid) == has_id(ws, wid),
{
    lemma_assign(ws, q);
    let ws2 = spec_assign(ws, q).0;
    assert forall|i: int| 0 <= i < ws.len() implies #[trigger] ws2[i].id == ws[i].id by {
        assert(assigned_from(ws2[i], ws[i]));
    }
    lemma_state_by_id_pointwise(ws, ws2, wid);
    if has_id(ws, wid) {
        let i = id_index(ws, wid);
        lemma_id_index_unique(ws, wid, i);
        assert(assigned_from(ws2[i], ws[i]));
        if state_by_id(ws2, wid) == Some(WorkerState::Working) && state_by_id(ws, wid) != Some(
            WorkerState::Working,
        ) {
            assert(ws2[i].state == WorkerState::Working && ws[i].state != WorkerState::Working);
        }
    }
}

/// An instruction in either part of a longer list is in the whole.
proof fn lemma_has_send_concat(a: Seq<ActionV>, b: Seq<ActionV>, wid: usize)
    requires
        crate::master::has_send_for(a, wid) || crate::master::has_send_for(b, wid),
    ensures
        crate::master::has_send_for(a + b, wid),
{
    if crate::master::has_send_for(a, wid) {
        let k = choose|k: int|
            0 <= k < a.len() && (#[trigger] a[k]) is SendScan && a[k]->SendScan_0 == wid;
        assert((a + b)[k] == a[k]);
    } else {
        let k = choose|k: int|
            0 <= k < b.len() && (#[trigger] b[k]) is SendScan && b[k]->SendScan_0 == wid;
        assert((a + b)[a.len() + k] == b[k]);
    }
}

/// Reconciliation keeps busy workers busy; a worker it makes busy is one it
/// dispatched to.
proof fn lemma_state_by_id_tcc(m: MasterV, wid: usize)
    requires
        m.wf(),
        m.can_step(),
    ensures
        state_by_id(m.workers, wid) == Some(WorkerState::Working) ==> state_by_id(
            m.spec_tcc().0.workers,
            wid,
        ) == Some(WorkerState::Working),
        state_by_id(m.spec_tcc().0.workers, wid) == Some(WorkerState::Working) && state_by_id(
            m.workers,
            wid,
        ) != Some(WorkerState::Working) ==> crate::master::has_send_for(m.spec_tcc().1, wid),
{
    let want = m.config.thread_count;
    let have = m.workers.len();
    if want > have {
        lemma_spawn_n(m.workers, m.id_counter, (want - have) as nat);
        lemma_state_by_id_spawn_n(m.workers, m.id_counter, (want - have) as nat, wid);
        let (ws, c, acts) = spec_spawn_n(m.workers, m.id_counter, (want - have) as nat);
        let m1 = MasterV { workers: ws, id_counter: c, ..m };
        lemma_tcc(m);
        assert(sorted_ids(ws));
        if m1.state == ScannerState::Running {
            lemma_state_by_id_assign(ws, m.queue, wid);
            if state_by_id(spec_assign(ws, m.queue).0, wid) == Some(WorkerState::Working)
                && state_by_id(m.workers, wid) != Some(WorkerState::Working) {
                if has_id(m.workers, wid) {
                    lemma_has_send_concat(acts, spec_assign(ws, m.queue).2, wid);
                } else {
                    if has_id(ws, wid) {
                        assert(state_by_id(ws, wid) == Some(WorkerState::Idle));
                    }
                    lemma_has_send_concat(acts, spec_assign(ws, m.queue).2, wid);
                }
            }
        } else {
            assert(m.spec_tcc().0.workers == ws);
        }
    } else if want < have {
        lemma_state_by_id_close(m.workers, (have - want) as nat, wid);
    }
}

/// A command never takes a busy worker out of `Working`, and a worker it
/// turns busy received a `SendScan` in the very same transition: workers
/// alternate `Idle` and `Working` only through dispatch and results.
pub proof fn lemma_alternation_input(m: MasterV, input: InputV, wid: usize)
    requires
        m.wf(),
        m.input_bound(input),
    ensures
        ({
            let (m2, acts) = m.spec_handle_input(input);
            &&& state_by_id(m.workers, wid) == Some(WorkerState::Working) ==> state_by_id(
                m2.workers,
                wid,
            ) == Some(WorkerState::Working)
            &&& (state_by_id(m2.workers, wid) == Some(WorkerState::Working) && state_by_id(
                m.workers,
                wid,
            ) != Some(WorkerState::Working)) ==> crate::master::has_send_for(acts, wid)
        }),
{
    if m.state == ScannerState::Ending || m.state == ScannerState::Terminated {
    } else {
        let (md, acts) = m.spec_dispatch_input(input);
        match input {
            InputV::End => {
                crate::master::lemma_stale_all(m.workers);
                let st = spec_stale_all(m.workers);
                lemma_state_by_id_stale_all(m.workers, wid);
                assert(sorted_ids(st)) by {
                    crate::master::lemma_stale_all_wf(m);
                }
                lemma_state_by_id_close(st, st.len() as nat, wid);
            },
            InputV::Cancel => {
                lemma_state_by_id_stale_all(m.workers, wid);
            },
            InputV::TcpRange(h, f, t) => {
                lemma_state_by_id_assign(m.workers, m.queue.spec_push(
                    crate::range::RangeV {
                        host: h,
                        protocol: crate::range::Protocol::Tcp,
                        from: f,
                        to: t,
                    },
                ), wid);
            },
            InputV::UdpRange(h, f, t) => {
                lemma_state_by_id_assign(m.workers, m.queue.spec_push(
                    crate::range::RangeV {
                        host: h,
                        protocol: crate::range::Protocol::Udp,
                        from: f,
                        to: t,
                    },
                ), wid);
            },
            InputV::Cont => {
                lemma_state_by_id_assign(m.workers, m.queue, wid);
            },
            InputV::Threads(n) => {
                let m1 = MasterV { config: ScannerConfig { thread_count: n, ..m.config }, ..m };
                lemma_state_by_id_tcc(m1, wid);
            },
            _ => {},
        }
        if crate::master::has_send_for(acts, wid) {
            lemma_has_send_concat(acts, seq![ActionV::Sync(OutputV::Ack)], wid);
        }
    }
}

/// A result turns only its own worker idle; every other busy worker stays
/// busy, and any worker that ends up busy — the replying one included — was
/// sent an instruction within the same transition.
pub proof fn lemma_alternation_message(m: MasterV, msg: MessageV, wid: usize)
    requires
        m.wf(),
        m.can_step(),
        m.has_worker(msg.worker_id),
    ensures
        ({
            let (m2, acts) = m.spec_handle_message(msg);
            &&& (wid != msg.worker_id && state_by_id(m.workers, wid) == Some(
                WorkerState::Working,
            )) ==> state_by_id(m2.workers, wid) == Some(WorkerState::Working)
            &&& (state_by_id(m2.workers, wid) == Some(WorkerState::Working) && state_by_id(
                m.workers,
                wid,
            ) != Some(WorkerState::Working)) ==> crate::master::has_send_for(acts, wid)
            &&& (wid == msg.worker_id && state_by_id(m2.workers, wid) == Some(
                WorkerState::Working,
            )) ==> crate::master::has_send_for(acts, wid)
        }),
{
    let i = m.worker_index(msg.worker_id);
    crate::master::lemma_worker_index_unique(m, msg.worker_id, choose|j: int|
        0 <= j < m.workers.len() && #[trigger] m.workers[j].id == msg.worker_id);
    let w = m.workers[i];
    let ws1 = m.workers.update(
        i,
        WorkerHandle { id: w.id, state: WorkerState::Idle, stale: false },
    );
    let m1 = MasterV { workers: ws1, ..m };
    crate::master::lemma_idle_update_wf(m, i);
    assert(ws1.len() == m.workers.len());
    assert forall|j: int| 0 <= j < ws1.len() implies #[trigger] ws1[j].id == m.workers[j].id by {}
    lemma_state_by_id_pointwise(m.workers, ws1, wid);
    if has_id(m.workers, wid) {
        let j = id_index(m.workers, wid);
        lemma_id_index_unique(m.workers, wid, j);
        lemma_id_index_unique(ws1, wid, j);
        if wid != msg.worker_id {
            assert(j != i);
            assert(ws1[j] == m.workers[j]);
        } else {
            assert(j == i);
            assert(ws1[j].state == WorkerState::Idle);
        }
    }
    let reported: Seq<ActionV> = if !(w.stale && m.config.stale) {
        seq![ActionV::Async(crate::master::scan_output(msg.target, msg.state))]
    } else {
        Seq::empty()
    };
    if m.state == ScannerState::Running {
        lemma_tcc(m1);
        lemma_state_by_id_tcc(m1, wid);
        let (ma, a2) = m1.spec_tcc();
        crate::master::lemma_assign_work(ma);
        let (mb, a3) = ma.spec_assign_work();
        let a4 = mb.spec_check_idle();
        if ma.state == ScannerState::Running {
            lemma_state_by_id_assign(ma.workers, ma.queue, wid);
        }
        let acts = m.spec_handle_message(msg).1;
        assert(acts == reported + a2 + a3 + a4);
        if state_by_id(mb.workers, wid) == Some(WorkerState::Working) && state_by_id(
            ws1,
            wid,
        ) != Some(WorkerState::Working) {
            if state_by_id(ma.workers, wid) == Some(WorkerState::Working) {
                lemma_has_send_concat(a2, a3, wid);
            } else {
                lemma_has_send_concat(a2, a3, wid);
            }
            lemma_has_send_concat(reported, a2 + a3, wid);
            assert(reported + (a2 + a3) =~= reported + a2 + a3);
            lemma_has_send_concat(reported + a2 + a3, a4, wid);
        }
    } else if m.state == ScannerState::Ending {
        lemma_state_by_id_close(ws1, ws1.len() as nat, wid);
    }
}

} // verus!
