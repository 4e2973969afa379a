//! The supervisor: a pure state machine over worker records, the scan queue
//! and the configuration.  Every transition maps the current state plus one
//! event — a command or a worker message — to the next state and a list of
//! [`Action`]s for the runtime to perform in order.

use vstd::prelude::*;

use crate::config::ScannerConfig;
use crate::message::{Input, InputV, Message, Output, OutputV, WorkerMessage, MessageV};
use crate::queue::{Address, QueueV, ScanQueue, TargetV};
use crate::range::{AddressRange, Port, PortState, Protocol, RangeV};

verus! {

/// What the supervisor believes a worker is doing.
#[derive(Clone, Copy, Debug, PartialEq, Eq, Structural)]
pub enum WorkerState {
    /// Told to exit; the record is removed once the exit is observed.
    Term,
    /// A probe is in flight; exactly one result message is owed.
    Working,
    /// Ready for an instruction.
    Idle,
}

/// The supervisor's own lifecycle.
#[derive(Clone, Copy, Debug, PartialEq, Eq, Structural)]
pub enum ScannerState {
    /// Draining workers towards termination; commands are ignored.
    Ending,
    /// The control loop has exited.
    Terminated,
    /// Dispatch is paused; queue and workers are kept.
    Stop,
    /// The only state in which new work is dispatched.
    Running,
}

/// The supervisor-side record of one worker.
#[derive(Clone, Copy, Debug, PartialEq, Eq, Structural)]
pub struct WorkerHandle {
    /// Monotonically increasing id assigned at spawn.
    pub id: usize,
    pub state: WorkerState,
    /// Set by `Cancel`/`End`; a result arriving while it is set may be
    /// suppressed, and the flag is cleared either way.
    pub stale: bool,
}

impl WorkerHandle {
    pub fn is_idle(&self) -> (r: bool)
        ensures
            r == (self.state == WorkerState::Idle),
    {
        self.state == WorkerState::Idle
    }

    pub fn is_term(&self) -> (r: bool)
        ensures
            r == (self.state == WorkerState::Term),
    {
        self.state == WorkerState::Term
    }
}

/// One step the runtime must take on the supervisor's behalf, in list order.
pub enum Action {
    /// Start a worker thread under this id.
    Spawn(usize),
    /// Send `Scan(target)` on the instruction channel of this worker.
    SendScan(usize, Address),
    /// Send `Term` to this worker and wait for it to exit.
    Close(usize),
    /// Emit on the asynchronous result callback.
    Async(Output),
    /// Emit on the synchronous acknowledgement channel.
    Sync(Output),
}

/// The mathematical image of an [`Action`].
pub enum ActionV {
    Spawn(usize),
    SendScan(usize, TargetV),
    Close(usize),
    Async(OutputV),
    Sync(OutputV),
}

impl View for Action {
    type V = ActionV;

    open spec fn view(&self) -> ActionV {
        match self {
            Action::Spawn(id) => ActionV::Spawn(*id),
            Action::SendScan(id, a) => ActionV::SendScan(*id, crate::queue::address_view(*a)),
            Action::Close(id) => ActionV::Close(*id),
            Action::Async(o) => ActionV::Async(o@),
            Action::Sync(o) => ActionV::Sync(o@),
        }
    }
}

/// The views of a list of actions, in order.
pub open spec fn acts_view(s: Seq<Action>) -> Seq<ActionV> {
    s.map_values(|a: Action| a@)
}

/// The output a finished probe turns into.
pub open spec fn scan_output(t: TargetV, s: PortState) -> OutputV {
    match t.port.protocol {
        Protocol::Tcp => OutputV::TcpScan(t.host, t.port.number, s),
        Protocol::Udp => OutputV::UdpScan(t.host, t.port.number, s),
    }
}

/// The mathematical image of a [`ScanMaster`].
#[verifier::ext_equal]
pub struct MasterV {
    pub workers: Seq<WorkerHandle>,
    pub queue: QueueV,
    pub config: ScannerConfig,
    pub state: ScannerState,
    pub id_counter: usize,
}

/// Every worker carries the stale mark.
pub open spec fn spec_stale_all(ws: Seq<WorkerHandle>) -> Seq<WorkerHandle> {
    ws.map_values(|w: WorkerHandle| WorkerHandle { id: w.id, state: w.state, stale: true })
}

/// Closing workers: the first up-to-`count` idle workers leave the list, each
/// with a `Close` action; the others are kept in order.
pub open spec fn spec_try_close(ws: Seq<WorkerHandle>, count: nat) -> (Seq<WorkerHandle>, Seq<
    ActionV,
>)
    decreases ws.len(),
{
    if ws.len() == 0 {
        (ws, Seq::empty())
    } else if count > 0 && ws[0].state == WorkerState::Idle {
        let (rest, acts) = spec_try_close(ws.drop_first(), (count - 1) as nat);
        (rest, seq![ActionV::Close(ws[0].id)] + acts)
    } else {
        let (rest, acts) = spec_try_close(ws.drop_first(), count);
        (seq![ws[0]] + rest, acts)
    }
}

/// Spawning `n` workers: each takes the next id and starts idle and fresh.
pub open spec fn spec_spawn_n(ws: Seq<WorkerHandle>, counter: usize, n: nat) -> (Seq<WorkerHandle>, usize, Seq<ActionV>)
    decreases n,
{
    if n == 0 {
        (ws, counter, Seq::empty())
    } else {
        let id = (counter + 1) as usize;
        let w = WorkerHandle { id, state: WorkerState::Idle, stale: false };
        let (ws2, c2, acts) = spec_spawn_n(ws.push(w), id, (n - 1) as nat);
        (ws2, c2, seq![ActionV::Spawn(id)] + acts)
    }
}

/// Dispatch: walk the workers in order; each idle one receives the next
/// target and turns `Working`, until the queue yields nothing.
pub open spec fn spec_assign(ws: Seq<WorkerHandle>, q: QueueV) -> (Seq<WorkerHandle>, QueueV, Seq<
    ActionV,
>)
    decreases ws.len(),
{
    if ws.len() == 0 {
        (ws, q, Seq::empty())
    } else if ws[0].state == WorkerState::Idle {
        let (t, q2) = q.spec_pop();
        match t {
            None => (ws, q2, Seq::empty()),
            Some(t) => {
                let w2 = WorkerHandle { id: ws[0].id, state: WorkerState::Working, stale: ws[0].stale };
                let (rest, q3, acts) = spec_assign(ws.drop_first(), q2);
                (seq![w2] + rest, q3, seq![ActionV::SendScan(ws[0].id, t)] + acts)
            },
        }
    } else {
        let (rest, q2, acts) = spec_assign(ws.drop_first(), q);
        (seq![ws[0]] + rest, q2, acts)
    }
}

/// Worker ids increase strictly along the list.
pub open spec fn sorted_ids(ws: Seq<WorkerHandle>) -> bool {
    forall|i: int, j: int|
        0 <= i < j < ws.len() ==> #[trigger] ws[i].id < #[trigger] ws[j].id
}

/// No id passes the spawn counter.
pub open spec fn ids_bounded(ws: Seq<WorkerHandle>, counter: usize) -> bool {
    forall|i: int| 0 <= i < ws.len() ==> #[trigger] ws[i].id <= counter
}

/// No worker lingers in `Term` between transitions.
pub open spec fn no_term(ws: Seq<WorkerHandle>) -> bool {
    forall|i: int| 0 <= i < ws.len() ==> #[trigger] ws[i].state != WorkerState::Term
}

/// No worker is idle.
pub open spec fn no_idle(ws: Seq<WorkerHandle>) -> bool {
    forall|i: int| 0 <= i < ws.len() ==> #[trigger] ws[i].state != WorkerState::Idle
}

/// How many workers are idle.
pub open spec fn idle_count(ws: Seq<WorkerHandle>) -> nat
    decreases ws.len(),
{
    if ws.len() == 0 {
        0
    } else {
        (if ws[0].state == WorkerState::Idle {
            1 as nat
        } else {
            0 as nat
        }) + idle_count(ws.drop_first())
    }
}

/// Without idle workers the idle count is zero, and a single idle worker
/// among non-idle ones counts one.
pub proof fn lemma_idle_count_none(ws: Seq<WorkerHandle>)
    requires
        no_idle(ws),
    ensures
        idle_count(ws) == 0,
    decreases ws.len(),
{
    if ws.len() > 0 {
        assert(no_idle(ws.drop_first()));
        lemma_idle_count_none(ws.drop_first());
    }
}

/// With exactly one idle position the idle count is one.
pub proof fn lemma_idle_count_single(ws: Seq<WorkerHandle>, i: int)
    requires
        0 <= i < ws.len(),
        ws[i].state == WorkerState::Idle,
        forall|j: int| 0 <= j < ws.len() && j != i ==> #[trigger] ws[j].state != WorkerState::Idle,
    ensures
        idle_count(ws) == 1,
    decreases ws.len(),
{
    let tail = ws.drop_first();
    if i == 0 {
        assert(no_idle(tail));
        lemma_idle_count_none(tail);
    } else {
        lemma_idle_count_single(tail, i - 1);
    }
}

impl MasterV {
    /// Well-formedness: the queue is sound, worker ids increase strictly and
    /// never pass the counter, and no worker lingers in `Term`.
    pub open spec fn wf(self) -> bool {
        &&& self.queue.wf()
        &&& sorted_ids(self.workers)
        &&& ids_bounded(self.workers, self.id_counter)
        &&& no_term(self.workers)
    }

    /// The state a fresh supervisor starts from.
    pub open spec fn init() -> MasterV {
        MasterV {
            workers: Seq::empty(),
            queue: QueueV::cleared(),
            config: ScannerConfig::spec_default(),
            state: ScannerState::Running,
            id_counter: 0,
        }
    }

    pub open spec fn all_idle(self) -> bool {
        forall|i: int|
            0 <= i < self.workers.len() ==> #[trigger] self.workers[i].state == WorkerState::Idle
    }

    pub open spec fn has_worker(self, wid: usize) -> bool {
        exists|i: int| 0 <= i < self.workers.len() && #[trigger] self.workers[i].id == wid
    }

    /// The position of the worker with this id (ids are unique when well
    /// formed).
    pub open spec fn worker_index(self, wid: usize) -> int {
        choose|i: int| 0 <= i < self.workers.len() && #[trigger] self.workers[i].id == wid
    }

    /// Spawning never overflows the id counter under this bound.
    pub open spec fn can_step(self) -> bool {
        self.id_counter + self.config.thread_count <= usize::MAX
    }

    pub open spec fn spec_assign_work(self) -> (MasterV, Seq<ActionV>) {
        if self.state != ScannerState::Running {
            (self, Seq::empty())
        } else {
            let (ws, q, acts) = spec_assign(self.workers, self.queue);
            (MasterV { workers: ws, queue: q, ..self }, acts)
        }
    }

    pub open spec fn spec_close(self, count: nat) -> (MasterV, Seq<ActionV>) {
        let (ws, acts) = spec_try_close(self.workers, count);
        (MasterV { workers: ws, ..self }, acts)
    }

    /// Close whoever is idle; once nobody is left, the machine terminates.
    pub open spec fn spec_try_terminate(self) -> (MasterV, Seq<ActionV>) {
        let (m1, acts) = self.spec_close(self.workers.len() as nat);
        if m1.workers.len() == 0 {
            (MasterV { state: ScannerState::Terminated, ..m1 }, acts)
        } else {
            (m1, acts)
        }
    }

    /// Reconcile the pool with `config.thread_count`: grow by spawning (then
    /// dispatch), shrink by closing idle workers.
    pub open spec fn spec_tcc(self) -> (MasterV, Seq<ActionV>) {
        let want = self.config.thread_count;
        let have = self.workers.len();
        if want > have {
            let (ws, c, acts) = spec_spawn_n(self.workers, self.id_counter, (want - have) as nat);
            let m1 = MasterV { workers: ws, id_counter: c, ..self };
            let (m2, acts2) = m1.spec_assign_work();
            (m2, acts + acts2)
        } else if want < have {
            self.spec_close((have - want) as nat)
        } else {
            (self, Seq::empty())
        }
    }

    /// The idle signal fires exactly when the machine runs, every worker is
    /// idle, and no range remains queued.
    pub open spec fn spec_check_idle(self) -> Seq<ActionV> {
        if self.state == ScannerState::Running && self.all_idle() && self.queue.ranges.len() == 0 {
            seq![ActionV::Async(OutputV::Idle)]
        } else {
            Seq::empty()
        }
    }

    /// A worker's result: the worker turns idle and its stale flag clears;
    /// the result is reported unless it was stale and suppression is on; then
    /// the machine reconciles, dispatches and checks for idleness (running)
    /// or drains towards termination (ending).
    pub open spec fn spec_handle_message(self, msg: MessageV) -> (MasterV, Seq<ActionV>) {
        let i = self.worker_index(msg.worker_id);
        let w = self.workers[i];
        let ws1 = self.workers.update(
            i,
            WorkerHandle { id: w.id, state: WorkerState::Idle, stale: false },
        );
        let m1 = MasterV { workers: ws1, ..self };
        let reported: Seq<ActionV> = if !(w.stale && self.config.stale) {
            seq![ActionV::Async(scan_output(msg.target, msg.state))]
        } else {
            Seq::empty()
        };
        if self.state == ScannerState::Running {
            let (m2, a2) = m1.spec_tcc();
            let (m3, a3) = m2.spec_assign_work();
            let a4 = m3.spec_check_idle();
            (m3, reported + a2 + a3 + a4)
        } else if self.state == ScannerState::Ending {
            let (m2, a2) = m1.spec_try_terminate();
            (m2, reported + a2)
        } else {
            (m1, reported)
        }
    }

    /// What one command does, before the closing acknowledgement.
    pub open spec fn spec_dispatch_input(self, input: InputV) -> (MasterV, Seq<ActionV>) {
        match input {
            InputV::End => {
                let m1 = MasterV {
                    state: ScannerState::Ending,
                    workers: spec_stale_all(self.workers),
                    ..self
                };
                m1.spec_try_terminate()
            },
            InputV::Ping => (self, Seq::empty()),
            InputV::NOP => (self, Seq::empty()),
            InputV::Attempts(n) => (
                MasterV { config: ScannerConfig { attempts: n, ..self.config }, ..self },
                Seq::empty(),
            ),
            InputV::TcpTimeout(ms) => (
                MasterV { config: ScannerConfig { tcp_timeout: ms, ..self.config }, ..self },
                Seq::empty(),
            ),
            InputV::UdpTimeout(ms) => (
                MasterV { config: ScannerConfig { udp_timeout: ms, ..self.config }, ..self },
                Seq::empty(),
            ),
            InputV::Stale(b) => (
                MasterV { config: ScannerConfig { stale: b, ..self.config }, ..self },
                Seq::empty(),
            ),
            InputV::Cancel => (
                MasterV {
                    workers: spec_stale_all(self.workers),
                    queue: QueueV::cleared(),
                    ..self
                },
                Seq::empty(),
            ),
            InputV::TcpRange(h, f, t) => {
                let m1 = MasterV {
                    queue: self.queue.spec_push(
                        RangeV { host: h, protocol: Protocol::Tcp, from: f, to: t },
                    ),
                    ..self
                };
                m1.spec_assign_work()
            },
            InputV::UdpRange(h, f, t) => {
                let m1 = MasterV {
                    queue: self.queue.spec_push(
                        RangeV { host: h, protocol: Protocol::Udp, from: f, to: t },
                    ),
                    ..self
                };
                m1.spec_assign_work()
            },
            InputV::Stop => (
                if self.state == ScannerState::Running {
                    MasterV { state: ScannerState::Stop, ..self }
                } else {
                    self
                },
                Seq::empty(),
            ),
            InputV::Cont => {
                let m1 = if self.state == ScannerState::Stop {
                    MasterV { state: ScannerState::Running, ..self }
                } else {
                    self
                };
                m1.spec_assign_work()
            },
            InputV::Threads(n) => {
                let m1 = MasterV {
                    config: ScannerConfig { thread_count: n, ..self.config },
                    ..self
                };
                m1.spec_tcc()
            },
        }
    }

    /// A command: ignored wholesale while ending or terminated, acted on
    /// otherwise, and acknowledged with `Ok` either way.
    pub open spec fn spec_handle_input(self, input: InputV) -> (MasterV, Seq<ActionV>) {
        if self.state == ScannerState::Ending || self.state == ScannerState::Terminated {
            (self, seq![ActionV::Sync(OutputV::Ack)])
        } else {
            let (m, acts) = self.spec_dispatch_input(input);
            (m, acts + seq![ActionV::Sync(OutputV::Ack)])
        }
    }

    /// The machine-limit bound a command must satisfy before it is handled.
    pub open spec fn input_bound(self, input: InputV) -> bool {
        match input {
            InputV::Threads(n) => self.id_counter + n <= usize::MAX,
            InputV::TcpRange(h, f, t) => 1 <= f <= t,
            InputV::UdpRange(h, f, t) => 1 <= f <= t,
            _ => true,
        }
    }
}

/// Marking everyone stale moves no worker and changes no id.
pub proof fn lemma_stale_all(ws: Seq<WorkerHandle>)
    ensures
        spec_stale_all(ws).len() == ws.len(),
        forall|i: int|
            0 <= i < ws.len() ==> #[trigger] spec_stale_all(ws)[i] == (WorkerHandle {
                id: ws[i].id,
                state: ws[i].state,
                stale: true,
            }),
{
}

/// What closing leaves behind: the survivors come from the old list in order,
/// one `Close` action stands for each removed worker, and when fewer than
/// `count` were closed no idle worker survives.
pub proof fn lemma_try_close(ws: Seq<WorkerHandle>, count: nat)
    ensures
        ({
            let (r, acts) = spec_try_close(ws, count);
            &&& r.len() + acts.len() == ws.len()
            &&& acts.len() <= count
            &&& (acts.len() < count ==> no_idle(r))
            &&& forall|i: int| 0 <= i < r.len() ==> ws.contains(#[trigger] r[i])
            &&& forall|i: int|
                0 <= i < ws.len() && ws[i].state != WorkerState::Idle ==> r.contains(
                    #[trigger] ws[i],
                )
            &&& (sorted_ids(ws) ==> sorted_ids(r))
            &&& forall|k: int| 0 <= k < acts.len() ==> #[trigger] acts[k] is Close
            &&& acts.len() == if count <= idle_count(ws) {
                count as int
            } else {
                idle_count(ws) as int
            }
        }),
    decreases ws.len(),
{
    if ws.len() == 0 {
    } else if count > 0 && ws[0].state == WorkerState::Idle {
        let tail = ws.drop_first();
        lemma_try_close(tail, (count - 1) as nat);
        let (r, acts) = spec_try_close(ws, count);
        let (rt, at) = spec_try_close(tail, (count - 1) as nat);
        assert forall|i: int| 0 <= i < r.len() implies ws.contains(#[trigger] r[i]) by {
            assert(tail.contains(r[i]));
            let j = choose|j: int| 0 <= j < tail.len() && tail[j] == r[i];
            assert(ws[j + 1] == r[i]);
        }
        assert forall|i: int|
            0 <= i < ws.len() && ws[i].state != WorkerState::Idle implies r.contains(
            #[trigger] ws[i],
        ) by {
            assert(i >= 1);
            assert(tail[i - 1] == ws[i]);
            assert(rt.contains(tail[i - 1]));
        }
        if sorted_ids(ws) {
            assert(sorted_ids(tail));
        }
    } else {
        let tail = ws.drop_first();
        lemma_try_close(tail, count);
        let (r, acts) = spec_try_close(ws, count);
        let (rt, at) = spec_try_close(tail, count);
        assert forall|i: int| 0 <= i < r.len() implies ws.contains(#[trigger] r[i]) by {
            if i == 0 {
                assert(ws[0] == r[0]);
            } else {
                assert(tail.contains(rt[i - 1]));
                let j = choose|j: int| 0 <= j < tail.len() && tail[j] == rt[i - 1];
                assert(ws[j + 1] == r[i]);
            }
        }
        assert forall|i: int|
            0 <= i < ws.len() && ws[i].state != WorkerState::Idle implies r.contains(
            #[trigger] ws[i],
        ) by {
            if i == 0 {
                assert(r[0] == ws[0]);
            } else {
                assert(tail[i - 1] == ws[i]);
                assert(rt.contains(tail[i - 1]));
                let j = choose|j: int| 0 <= j < rt.len() && rt[j] == tail[i - 1];
                assert(r[j + 1] == ws[i]);
            }
        }
        if sorted_ids(ws) {
            assert(sorted_ids(tail));
            assert forall|i: int, j: int| 0 <= i < j < r.len() implies #[trigger] r[i].id
                < #[trigger] r[j].id by {
                if i == 0 {
                    assert(tail.contains(rt[j - 1]));
                    let k = choose|k: int| 0 <= k < tail.len() && tail[k] == rt[j - 1];
                    assert(ws[0].id < ws[k + 1].id);
                } else {
                    assert(rt[i - 1].id < rt[j - 1].id);
                }
            }
        }
        if acts.len() < count {
            assert forall|i: int| 0 <= i < r.len() implies #[trigger] r[i].state
                != WorkerState::Idle by {
                if i == 0 {
                } else {
                    assert(rt[i - 1].state != WorkerState::Idle);
                }
            }
        }
    }
}

/// With nobody idle, closing does nothing.
pub proof fn lemma_try_close_no_idle(ws: Seq<WorkerHandle>, count: nat)
    requires
        no_idle(ws),
    ensures
        spec_try_close(ws, count) == (ws, Seq::<ActionV>::empty()),
    decreases ws.len(),
{
    if ws.len() == 0 {
        assert(spec_try_close(ws, count).1 =~= Seq::<ActionV>::empty());
    } else {
        let tail = ws.drop_first();
        assert(no_idle(tail));
        lemma_try_close_no_idle(tail, count);
        assert(spec_try_close(ws, count).0 =~= ws);
        assert(spec_try_close(ws, count).1 =~= Seq::<ActionV>::empty());
    }
}

/// Spawning appends fresh idle workers under the next ids, in order.
pub proof fn lemma_spawn_n(ws: Seq<WorkerHandle>, counter: usize, n: nat)
    requires
        counter + n <= usize::MAX,
    ensures
        ({
            let (ws2, c2, acts) = spec_spawn_n(ws, counter, n);
            &&& c2 == counter + n
            &&& ws2.len() == ws.len() + n
            &&& forall|i: int| 0 <= i < ws.len() ==> #[trigger] ws2[i] == ws[i]
            &&& forall|k: int|
                0 <= k < n ==> #[trigger] ws2[ws.len() + k] == (WorkerHandle {
                    id: (counter + 1 + k) as usize,
                    state: WorkerState::Idle,
                    stale: false,
                })
            &&& acts.len() == n
            &&& forall|k: int|
                0 <= k < n ==> #[trigger] acts[k] == ActionV::Spawn((counter + 1 + k) as usize)
        }),
    decreases n,
{
    if n == 0 {
    } else {
        let id = (counter + 1) as usize;
        let w = WorkerHandle { id, state: WorkerState::Idle, stale: false };
        lemma_spawn_n(ws.push(w), id, (n - 1) as nat);
        let (ws2, c2, acts) = spec_spawn_n(ws, counter, n);
        let (ws2t, c2t, at) = spec_spawn_n(ws.push(w), id, (n - 1) as nat);
        assert forall|k: int|
            0 <= k < n implies #[trigger] ws2[ws.len() + k] == (WorkerHandle {
            id: (counter + 1 + k) as usize,
            state: WorkerState::Idle,
            stale: false,
        }) by {
            if k == 0 {
                assert(ws2[ws.len() as int] == ws.push(w)[ws.len() as int]);
                assert(ws.push(w)[ws.len() as int] == w);
            } else {
                assert(ws2t[ws.push(w).len() + (k - 1)] == (WorkerHandle {
                    id: (id + 1 + (k - 1)) as usize,
                    state: WorkerState::Idle,
                    stale: false,
                }));
            }
        }
        assert forall|k: int|
            0 <= k < n implies #[trigger] acts[k] == ActionV::Spawn((counter + 1 + k) as usize) by {
            if k == 0 {
            } else {
                assert(at[k - 1] == ActionV::Spawn((id + 1 + (k - 1)) as usize));
            }
        }
    }
}

/// How dispatch may change one worker: id and stale flag untouched, and the
/// state either kept or turned from `Idle` to `Working`.
pub open spec fn assigned_from(a: WorkerHandle, b: WorkerHandle) -> bool {
    &&& a.id == b.id
    &&& a.stale == b.stale
    &&& (a.state == b.state || (b.state == WorkerState::Idle && a.state == WorkerState::Working))
    &&& (b.state != WorkerState::Idle ==> a == b)
}

/// Either nobody is idle or the range list is physically empty.
pub open spec fn no_idle_or_empty(ws: Seq<WorkerHandle>, q: QueueV) -> bool {
    forall|i: int|
        0 <= i < ws.len() && #[trigger] ws[i].state == WorkerState::Idle ==> q.ranges.len() == 0
}

/// The action sends this target to some worker.
pub open spec fn sends_target(a: ActionV, t: TargetV) -> bool {
    a is SendScan && a->SendScan_1 == t
}

/// Some action in the list sends work to the worker with this id.
pub open spec fn has_send_for(acts: Seq<ActionV>, wid: usize) -> bool {
    exists|k: int|
        0 <= k < acts.len() && (#[trigger] acts[k]) is SendScan && acts[k]->SendScan_0 == wid
}

/// What dispatch does: ids and stale flags are untouched, only idle workers
/// may turn `Working`, one `SendScan` per consumed target in queue order, and
/// if anyone is still idle afterwards the range list is physically empty.
#[verifier::rlimit(60)]
pub proof fn lemma_assign(ws: Seq<WorkerHandle>, q: QueueV)
    requires
        q.wf(),
    ensures
        spec_assign(ws, q).1.wf(),
        spec_assign(ws, q).0.len() == ws.len(),
        forall|i: int|
            0 <= i < ws.len() ==> #[trigger] assigned_from(spec_assign(ws, q).0[i], ws[i]),
        no_idle_or_empty(spec_assign(ws, q).0, spec_assign(ws, q).1),
        spec_assign(ws, q).2.len() <= q.targets().len(),
        forall|k: int|
            0 <= k < spec_assign(ws, q).2.len() ==> #[trigger] sends_target(
                spec_assign(ws, q).2[k],
                q.targets()[k],
            ),
        spec_assign(ws, q).1.targets() =~= q.targets().skip(spec_assign(ws, q).2.len() as int),
        forall|i: int|
            0 <= i < ws.len() && #[trigger] spec_assign(ws, q).0[i].state != ws[i].state
                ==> has_send_for(spec_assign(ws, q).2, ws[i].id),
    decreases ws.len(),
{
    crate::queue::lemma_pop_targets(q);
    if ws.len() == 0 {
        assert(spec_assign(ws, q).2 =~= Seq::<ActionV>::empty());
        assert(q.targets().skip(0) =~= q.targets());
    } else if ws[0].state == WorkerState::Idle {
        let (t, q2) = q.spec_pop();
        match t {
            None => {
                assert(q.targets().len() == 0);
                assert(q2.targets() =~= q.targets().skip(0));
                assert forall|i: int|
                    0 <= i < ws.len() implies #[trigger] assigned_from(
                    spec_assign(ws, q).0[i],
                    ws[i],
                ) by {}
            },
            Some(t) => {
                let tail = ws.drop_first();
                lemma_assign(tail, q2);
                let (ws2, q3, acts) = spec_assign(ws, q);
                let (rest, q3t, at) = spec_assign(tail, q2);
                let w2 = WorkerHandle {
                    id: ws[0].id,
                    state: WorkerState::Working,
                    stale: ws[0].stale,
                };
                assert(q.targets().len() > 0);
                assert(t == q.targets()[0]);
                assert(ws2 == seq![w2] + rest);
                assert forall|i: int|
                    0 <= i < ws.len() implies #[trigger] assigned_from(ws2[i], ws[i]) by {
                    if i == 0 {
                        assert(ws2[0] == w2);
                    } else {
                        assert(ws2[i] == rest[i - 1] && ws[i] == tail[i - 1]);
                        assert(assigned_from(rest[i - 1], tail[i - 1]));
                    }
                }
                assert(no_idle_or_empty(ws2, q3)) by {
                    assert forall|i: int|
                        0 <= i < ws2.len() && #[trigger] ws2[i].state == WorkerState::Idle
                            implies q3.ranges.len() == 0 by {
                        assert(i >= 1);
                        assert(ws2[i] == rest[i - 1]);
                    }
                }
                assert forall|k: int| 0 <= k < acts.len() implies #[trigger] sends_target(
                    acts[k],
                    q.targets()[k],
                ) by {
                    if k == 0 {
                    } else {
                        assert(sends_target(at[k - 1], q2.targets()[k - 1]));
                        assert(q2.targets()[k - 1] == q.targets().drop_first()[k - 1]);
                    }
                }
                assert(q3.targets() =~= q.targets().skip(acts.len() as int)) by {
                    assert(q3t.targets() =~= q2.targets().skip(at.len() as int));
                    assert(q2.targets() =~= q.targets().drop_first());
                }
                assert forall|i: int|
                    0 <= i < ws.len() && #[trigger] ws2[i].state != ws[i].state implies has_send_for(
                    acts,
                    ws[i].id,
                ) by {
                    if i == 0 {
                        assert(acts[0] is SendScan && acts[0]->SendScan_0 == ws[0].id);
                    } else {
                        assert(ws2[i] == rest[i - 1] && ws[i] == tail[i - 1]);
                        assert(has_send_for(at, tail[i - 1].id));
                        let k = choose|k: int|
                            0 <= k < at.len() && (#[trigger] at[k]) is SendScan
                                && at[k]->SendScan_0 == tail[i - 1].id;
                        assert(acts[k + 1] is SendScan && acts[k + 1]->SendScan_0 == ws[i].id);
                    }
                }
            },
        }
    } else {
        let tail = ws.drop_first();
        let (t, q2) = q.spec_pop();
        lemma_assign(tail, q);
        let (ws2, q3, acts) = spec_assign(ws, q);
        let (rest, q3t, at) = spec_assign(tail, q);
        assert(ws2 == seq![ws[0]] + rest);
        assert forall|i: int|
            0 <= i < ws.len() implies #[trigger] assigned_from(ws2[i], ws[i]) by {
            if i == 0 {
                assert(ws2[0] == ws[0]);
            } else {
                assert(ws2[i] == rest[i - 1] && ws[i] == tail[i - 1]);
                assert(assigned_from(rest[i - 1], tail[i - 1]));
            }
        }
        assert(no_idle_or_empty(ws2, q3)) by {
            assert forall|i: int|
                0 <= i < ws2.len() && #[trigger] ws2[i].state == WorkerState::Idle
                    implies q3.ranges.len() == 0 by {
                if i == 0 {
                } else {
                    assert(ws2[i] == rest[i - 1]);
                }
            }
        }
        assert forall|i: int|
            0 <= i < ws.len() && #[trigger] ws2[i].state != ws[i].state implies has_send_for(
            acts,
            ws[i].id,
        ) by {
            if i == 0 {
                assert(ws2[0] == ws[0]);
            } else {
                assert(ws2[i] == rest[i - 1] && ws[i] == tail[i - 1]);
                assert(has_send_for(at, tail[i - 1].id));
            }
        }
    }
}

/// Dispatch preserves well-formedness and everything but workers and queue.
pub proof fn lemma_assign_work(m: MasterV)
    requires
        m.wf(),
    ensures
        m.spec_assign_work().0.wf(),
        m.spec_assign_work().0.state == m.state,
        m.spec_assign_work().0.config == m.config,
        m.spec_assign_work().0.id_counter == m.id_counter,
        m.spec_assign_work().0.workers.len() == m.workers.len(),
{
    if m.state == ScannerState::Running {
        lemma_assign(m.workers, m.queue);
        let ws2 = spec_assign(m.workers, m.queue).0;
        assert forall|i: int, j: int| 0 <= i < j < ws2.len() implies #[trigger] ws2[i].id
            < #[trigger] ws2[j].id by {
            assert(assigned_from(ws2[i], m.workers[i]));
            assert(assigned_from(ws2[j], m.workers[j]));
        }
        assert forall|i: int| 0 <= i < ws2.len() implies #[trigger] ws2[i].id
            <= m.id_counter by {
            assert(assigned_from(ws2[i], m.workers[i]));
        }
        assert forall|i: int| 0 <= i < ws2.len() implies #[trigger] ws2[i].state
            != WorkerState::Term by {
            assert(assigned_from(ws2[i], m.workers[i]));
        }
    }
}

/// Closing preserves well-formedness and everything but the worker list.
pub proof fn lemma_close(m: MasterV, count: nat)
    requires
        m.wf(),
    ensures
        m.spec_close(count).0.wf(),
        m.spec_close(count).0.state == m.state,
        m.spec_close(count).0.config == m.config,
        m.spec_close(count).0.id_counter == m.id_counter,
        m.spec_close(count).0.queue == m.queue,
        m.spec_close(count).0.workers.len() >= m.workers.len() - count,
{
    lemma_try_close(m.workers, count);
    let r = spec_try_close(m.workers, count).0;
    assert forall|i: int| 0 <= i < r.len() implies #[trigger] r[i].id <= m.id_counter && r[i].state
        != WorkerState::Term by {
        assert(m.workers.contains(r[i]));
        let j = choose|j: int| 0 <= j < m.workers.len() && m.workers[j] == r[i];
        assert(m.workers[j].id <= m.id_counter);
    }
}

/// Draining preserves well-formedness; the machine terminates exactly when
/// the worker list empties.
pub proof fn lemma_try_terminate(m: MasterV)
    requires
        m.wf(),
    ensures
        m.spec_try_terminate().0.wf(),
        m.spec_try_terminate().0.config == m.config,
        m.spec_try_terminate().0.id_counter == m.id_counter,
        m.spec_try_terminate().0.queue == m.queue,
        m.spec_try_terminate().0.workers == m.spec_close(m.workers.len() as nat).0.workers,
        m.spec_try_terminate().0.state == if m.spec_close(m.workers.len() as nat).0.workers.len() == 0 {
            ScannerState::Terminated
        } else {
            m.state
        },
{
    lemma_close(m, m.workers.len() as nat);
}

/// Reconciliation preserves well-formedness, state, config and queue
/// contents, and never shrinks the id counter.
pub proof fn lemma_tcc(m: MasterV)
    requires
        m.wf(),
        m.can_step(),
    ensures
        m.spec_tcc().0.wf(),
        m.spec_tcc().0.state == m.state,
        m.spec_tcc().0.config == m.config,
        m.id_counter <= m.spec_tcc().0.id_counter <= m.id_counter + m.config.thread_count,
{
    let want = m.config.thread_count;
    let have = m.workers.len();
    if want > have {
        lemma_spawn_n(m.workers, m.id_counter, (want - have) as nat);
        let (ws, c, acts) = spec_spawn_n(m.workers, m.id_counter, (want - have) as nat);
        let m1 = MasterV { workers: ws, id_counter: c, ..m };
        assert forall|i: int, j: int| 0 <= i < j < ws.len() implies #[trigger] ws[i].id
            < #[trigger] ws[j].id by {
            if j < have {
            } else if i < have {
                let k = j - have;
                assert(ws[i] == m.workers[i]);
                assert(ws[m.workers.len() + k] == (WorkerHandle {
                    id: (m.id_counter + 1 + k) as usize,
                    state: WorkerState::Idle,
                    stale: false,
                }));
                assert(m.id_counter + 1 + k <= usize::MAX);
            } else {
                let ki = i - have;
                let kj = j - have;
                assert(ws[m.workers.len() + ki] == (WorkerHandle {
                    id: (m.id_counter + 1 + ki) as usize,
                    state: WorkerState::Idle,
                    stale: false,
                }));
                assert(ws[m.workers.len() + kj] == (WorkerHandle {
                    id: (m.id_counter + 1 + kj) as usize,
                    state: WorkerState::Idle,
                    stale: false,
                }));
                assert(m.id_counter + 1 + kj <= usize::MAX);
            }
        }
        assert forall|i: int| 0 <= i < ws.len() implies #[trigger] ws[i].id <= c by {
            if i < have {
                assert(ws[i] == m.workers[i]);
            } else {
                let k = i - have;
                assert(ws[m.workers.len() + k] == (WorkerHandle {
                    id: (m.id_counter + 1 + k) as usize,
                    state: WorkerState::Idle,
                    stale: false,
                }));
                assert(m.id_counter + 1 + k <= usize::MAX);
            }
        }
        assert forall|i: int| 0 <= i < ws.len() implies #[trigger] ws[i].state
            != WorkerState::Term by {
            if i < have {
                assert(ws[i] == m.workers[i]);
            } else {
                let k = i - have;
                assert(ws[m.workers.len() + k] == (WorkerHandle {
                    id: (m.id_counter + 1 + k) as usize,
                    state: WorkerState::Idle,
                    stale: false,
                }));
            }
        }
        assert(m1.wf());
        lemma_assign_work(m1);
    } else if want < have {
        lemma_close(m, (have - want) as nat);
    }
}

/// Handling a worker message preserves well-formedness.
pub proof fn lemma_handle_message_wf(m: MasterV, msg: MessageV)
    requires
        m.wf(),
        m.can_step(),
        m.has_worker(msg.worker_id),
    ensures
        m.spec_handle_message(msg).0.wf(),
{
    let i = m.worker_index(msg.worker_id);
    let w = m.workers[i];
    let ws1 = m.workers.update(
        i,
        WorkerHandle { id: w.id, state: WorkerState::Idle, stale: false },
    );
    let m1 = MasterV { workers: ws1, ..m };
    assert forall|a: int, b: int| 0 <= a < b < ws1.len() implies #[trigger] ws1[a].id
        < #[trigger] ws1[b].id by {
        assert(ws1[a].id == m.workers[a].id);
        assert(ws1[b].id == m.workers[b].id);
    }
    assert forall|a: int| 0 <= a < ws1.len() implies #[trigger] ws1[a].id <= m.id_counter by {
        assert(ws1[a].id == m.workers[a].id);
    }
    assert forall|a: int| 0 <= a < ws1.len() implies #[trigger] ws1[a].state
        != WorkerState::Term by {
        if a != i {
            assert(ws1[a] == m.workers[a]);
        }
    }
    assert(m1.wf());
    if m.state == ScannerState::Running {
        lemma_tcc(m1);
        let m2 = m1.spec_tcc().0;
        lemma_assign_work(m2);
    } else if m.state == ScannerState::Ending {
        lemma_try_terminate(m1);
    }
}

/// Marking everyone stale preserves well-formedness of the list.
pub proof fn lemma_stale_all_wf(m: MasterV)
    requires
        m.wf(),
    ensures
        (MasterV { workers: spec_stale_all(m.workers), ..m }).wf(),
{
    lemma_stale_all(m.workers);
}

/// Handling a command preserves well-formedness.
pub proof fn lemma_handle_input_wf(m: MasterV, input: InputV)
    requires
        m.wf(),
        m.input_bound(input),
    ensures
        m.state != ScannerState::Ending && m.state != ScannerState::Terminated
            ==> m.spec_dispatch_input(input).0.wf(),
        m.spec_handle_input(input).0.wf(),
{
    if m.state == ScannerState::Ending || m.state == ScannerState::Terminated {
    } else {
        match input {
            InputV::End => {
                lemma_stale_all_wf(m);
                let m1 = MasterV {
                    state: ScannerState::Ending,
                    workers: spec_stale_all(m.workers),
                    ..m
                };
                assert(m1.wf());
                lemma_try_terminate(m1);
            },
            InputV::Cancel => {
                lemma_stale_all_wf(m);
            },
            InputV::TcpRange(h, f, t) => {
                let r = RangeV { host: h, protocol: Protocol::Tcp, from: f, to: t };
                let q1 = m.queue.spec_push(r);
                assert(q1.wf());
                lemma_assign_work(MasterV { queue: q1, ..m });
            },
            InputV::UdpRange(h, f, t) => {
                let r = RangeV { host: h, protocol: Protocol::Udp, from: f, to: t };
                let q1 = m.queue.spec_push(r);
                assert(q1.wf());
                lemma_assign_work(MasterV { queue: q1, ..m });
            },
            InputV::Cont => {
                let m1 = if m.state == ScannerState::Stop {
                    MasterV { state: ScannerState::Running, ..m }
                } else {
                    m
                };
                lemma_assign_work(m1);
            },
            InputV::Threads(n) => {
                let m1 = MasterV { config: ScannerConfig { thread_count: n, ..m.config }, ..m };
                lemma_tcc(m1);
            },
            _ => {},
        }
    }
}

/// A worker turning idle with its flag cleared leaves the list well formed.
pub proof fn lemma_idle_update_wf(m: MasterV, i: int)
    requires
        m.wf(),
        0 <= i < m.workers.len(),
    ensures
        (MasterV {
            workers: m.workers.update(
                i,
                WorkerHandle { id: m.workers[i].id, state: WorkerState::Idle, stale: false },
            ),
            ..m
        }).wf(),
{
    let ws1 = m.workers.update(
        i,
        WorkerHandle { id: m.workers[i].id, state: WorkerState::Idle, stale: false },
    );
    assert forall|a: int, b: int| 0 <= a < b < ws1.len() implies #[trigger] ws1[a].id
        < #[trigger] ws1[b].id by {
        assert(ws1[a].id == m.workers[a].id);
        assert(ws1[b].id == m.workers[b].id);
    }
    assert forall|a: int| 0 <= a < ws1.len() implies #[trigger] ws1[a].id <= m.id_counter by {
        assert(ws1[a].id == m.workers[a].id);
    }
    assert forall|a: int| 0 <= a < ws1.len() implies #[trigger] ws1[a].state
        != WorkerState::Term by {
        if a != i {
            assert(ws1[a] == m.workers[a]);
        }
    }
}

/// In a well-formed list the index of a worker id is the only one.
pub proof fn lemma_worker_index_unique(m: MasterV, wid: usize, i: int)
    requires
        m.wf(),
        0 <= i < m.workers.len(),
        m.workers[i].id == wid,
    ensures
        m.worker_index(wid) == i,
        m.has_worker(wid),
{
    assert(0 <= i < m.workers.len() && m.workers[i].id == wid);
    let j = m.worker_index(wid);
    if j < i {
        assert(m.workers[j].id < m.workers[i].id);
    } else if j > i {
        assert(m.workers[i].id < m.workers[j].id);
    }
}

/// The supervisor's owned state: worker records, the queue, the current
/// configuration, the lifecycle state and the id counter.  The runtime's
/// channels and threads live outside; they communicate through [`Action`]s.
pub struct ScanMaster {
    workers: Vec<WorkerHandle>,
    ranges: ScanQueue,
    config: ScannerConfig,
    state: ScannerState,
    id_counter: usize,
}

impl View for ScanMaster {
    type V = MasterV;

    closed spec fn view(&self) -> MasterV {
        MasterV {
            workers: self.workers@,
            queue: self.ranges@,
            config: self.config,
            state: self.state,
            id_counter: self.id_counter,
        }
    }
}

impl ScanMaster {
    /// A fresh supervisor: no workers, an empty queue, default configuration,
    /// running.
    pub fn new() -> (r: ScanMaster)
        ensures
            r@ == MasterV::init(),
            r@.wf(),
    {
        let r = ScanMaster {
            workers: Vec::new(),
            ranges: ScanQueue::new(),
            config: ScannerConfig::default(),
            state: ScannerState::Running,
            id_counter: 0,
        };
        proof {
            assert(r@ =~= MasterV::init());
        }
        r
    }

    /// The current configuration, for the runtime to mirror into the cell the
    /// workers read at probe start.
    pub fn config(&self) -> (c: ScannerConfig)
        ensures
            c == self@.config,
    {
        self.config
    }

    /// Whether the control loop should exit.
    pub fn is_terminated(&self) -> (r: bool)
        ensures
            r == (self@.state == ScannerState::Terminated),
    {
        self.state == ScannerState::Terminated
    }

    #[verifier::loop_isolation(false)]
    fn stale_all(&mut self)
        ensures
            final(self)@ == (MasterV {
                workers: spec_stale_all(old(self)@.workers),
                ..old(self)@
            }),
    {
        let n = self.workers.len();
        let mut i: usize = 0;
        while i < n
            invariant
                i <= n,
                n == self.workers.len(),
                self.ranges@ == old(self).ranges@,
                self.config == old(self).config,
                self.state == old(self).state,
                self.id_counter == old(self).id_counter,
                forall|j: int|
                    0 <= j < i ==> #[trigger] self.workers@[j] == spec_stale_all(
                        old(self)@.workers,
                    )[j],
                forall|j: int| i <= j < n ==> #[trigger] self.workers@[j] == old(self)@.workers[j],
            decreases n - i,
        {
            let w = self.workers[i];
            self.workers.set(i, WorkerHandle { id: w.id, state: w.state, stale: true });
            i = i + 1;
        }
        proof {
            assert(self.workers@ =~= spec_stale_all(old(self)@.workers));
            assert(self@ =~= (MasterV { workers: spec_stale_all(old(self)@.workers), ..old(self)@ }));
        }
    }

    fn spawn(&mut self, out: &mut Vec<Action>)
        requires
            old(self)@.id_counter < usize::MAX,
        ensures
            final(self)@ == (MasterV {
                workers: old(self)@.workers.push(
                    WorkerHandle {
                        id: (old(self)@.id_counter + 1) as usize,
                        state: WorkerState::Idle,
                        stale: false,
                    },
                ),
                id_counter: (old(self)@.id_counter + 1) as usize,
                ..old(self)@
            }),
            acts_view(final(out)@) == acts_view(old(out)@).push(
                ActionV::Spawn((old(self)@.id_counter + 1) as usize),
            ),
    {
        self.id_counter = self.id_counter + 1;
        let id = self.id_counter;
        self.workers.push(WorkerHandle { id, state: WorkerState::Idle, stale: false });
        out.push(Action::Spawn(id));
        proof {
            assert(acts_view(out@) =~= acts_view(old(out)@).push(ActionV::Spawn(id)));
            assert(self@ =~= (MasterV {
                workers: old(self)@.workers.push(
                    WorkerHandle { id, state: WorkerState::Idle, stale: false },
                ),
                id_counter: id,
                ..old(self)@
            }));
        }
    }

    #[verifier::loop_isolation(false)]
    fn try_close(&mut self, count: usize, out: &mut Vec<Action>)
        ensures
            final(self)@ == (MasterV {
                workers: spec_try_close(old(self)@.workers, count as nat).0,
                ..old(self)@
            }),
            acts_view(final(out)@) == acts_view(old(out)@) + spec_try_close(
                old(self)@.workers,
                count as nat,
            ).1,
    {
        let ghost ws0 = self@.workers;
        let n = self.workers.len();
        let mut kept: Vec<WorkerHandle> = Vec::new();
        let mut remaining = count;
        let mut i: usize = 0;
        proof {
            assert(ws0.skip(0) =~= ws0);
        }
        while i < n
            invariant
                i <= n,
                n == self.workers.len(),
                self.workers@ == ws0,
                remaining <= count,
                kept@ + spec_try_close(ws0.skip(i as int), remaining as nat).0 == spec_try_close(
                    ws0,
                    count as nat,
                ).0,
                acts_view(out@) + spec_try_close(ws0.skip(i as int), remaining as nat).1
                    == acts_view(old(out)@) + spec_try_close(ws0, count as nat).1,
            decreases n - i,
        {
            let w = self.workers[i];
            proof {
                assert(ws0.skip(i as int)[0] == w);
                assert(ws0.skip(i as int).drop_first() =~= ws0.skip(i as int + 1));
            }
            let ghost out_pre = out@;
            let ghost kept_pre = kept@;
            if remaining > 0 && w.state == WorkerState::Idle {
                out.push(Action::Close(w.id));
                remaining = remaining - 1;
                proof {
                    assert(acts_view(out@) =~= acts_view(out_pre).push(ActionV::Close(w.id)));
                    assert(spec_try_close(ws0.skip(i as int), (remaining + 1) as nat).1
                        =~= seq![ActionV::Close(w.id)] + spec_try_close(
                        ws0.skip(i as int + 1),
                        remaining as nat,
                    ).1);
                    assert(acts_view(out_pre).push(ActionV::Close(w.id)) + spec_try_close(
                        ws0.skip(i as int + 1),
                        remaining as nat,
                    ).1 =~= acts_view(out_pre) + (seq![ActionV::Close(w.id)] + spec_try_close(
                        ws0.skip(i as int + 1),
                        remaining as nat,
                    ).1));
                }
            } else {
                kept.push(w);
                proof {
                    assert(spec_try_close(ws0.skip(i as int), remaining as nat).0
                        =~= seq![w] + spec_try_close(ws0.skip(i as int + 1), remaining as nat).0);
                    assert(kept_pre.push(w) + spec_try_close(
                        ws0.skip(i as int + 1),
                        remaining as nat,
                    ).0 =~= kept_pre + (seq![w] + spec_try_close(
                        ws0.skip(i as int + 1),
                        remaining as nat,
                    ).0));
                }
            }
            i = i + 1;
        }
        proof {
            assert(ws0.skip(n as int) =~= Seq::<WorkerHandle>::empty());
            assert(kept@ + spec_try_close(ws0.skip(n as int), remaining as nat).0 =~= kept@);
            assert(acts_view(out@) + spec_try_close(ws0.skip(n as int), remaining as nat).1
                =~= acts_view(out@));
        }
        self.workers = kept;
        proof {
            assert(self@ =~= (MasterV {
                workers: spec_try_close(old(self)@.workers, count as nat).0,
                ..old(self)@
            }));
        }
    }

    fn try_terminate(&mut self, out: &mut Vec<Action>)
        ensures
            final(self)@ == old(self)@.spec_try_terminate().0,
            acts_view(final(out)@) == acts_view(old(out)@) + old(self)@.spec_try_terminate().1,
    {
        let n = self.workers.len();
        self.try_close(n, out);
        if self.workers.len() == 0 {
            self.state = ScannerState::Terminated;
        }
        proof {
            assert(self@ =~= old(self)@.spec_try_terminate().0);
        }
    }

    #[verifier::loop_isolation(false)]
    fn assign_work(&mut self, out: &mut Vec<Action>)
        requires
            old(self)@.queue.wf(),
        ensures
            final(self)@ == old(self)@.spec_assign_work().0,
            acts_view(final(out)@) == acts_view(old(out)@) + old(self)@.spec_assign_work().1,
    {
        if self.state != ScannerState::Running {
            proof {
                assert(acts_view(out@) =~= acts_view(out@) + Seq::<ActionV>::empty());
            }
            return ;
        }
        let ghost m0 = self@;
        let n = self.workers.len();
        let mut i: usize = 0;
        let mut done = false;
        proof {
            assert(self.workers@.skip(0) =~= self.workers@);
            assert(self.workers@.take(0) =~= Seq::<WorkerHandle>::empty());
        }
        while i < n && !done
            invariant
                i <= n,
                n == self.workers.len(),
                self.state == old(self).state,
                self.config == old(self).config,
                self.id_counter == old(self).id_counter,
                self@.queue.wf(),
                !done ==> self.workers@.take(i as int) + spec_assign(
                    self.workers@.skip(i as int),
                    self.ranges@,
                ).0 == spec_assign(m0.workers, m0.queue).0,
                !done ==> spec_assign(self.workers@.skip(i as int), self.ranges@).1 == spec_assign(
                    m0.workers,
                    m0.queue,
                ).1,
                !done ==> acts_view(out@) + spec_assign(self.workers@.skip(i as int), self.ranges@).2
                    == acts_view(old(out)@) + spec_assign(m0.workers, m0.queue).2,
                done ==> self.workers@ == spec_assign(m0.workers, m0.queue).0,
                done ==> self.ranges@ == spec_assign(m0.workers, m0.queue).1,
                done ==> acts_view(out@) == acts_view(old(out)@) + spec_assign(
                    m0.workers,
                    m0.queue,
                ).2,
            decreases n - i,
        {
            let w = self.workers[i];
            proof {
                assert(self.workers@.skip(i as int)[0] == w);
                assert(self.workers@.skip(i as int).drop_first() =~= self.workers@.skip(
                    i as int + 1,
                ));
            }
            if w.state == WorkerState::Idle {
                let ghost q_pre = self.ranges@;
                let ghost out_pre = out@;
                let ghost ws_pre = self.workers@;
                let popped = self.ranges.pop();
                match popped {
                    Some(address) => {
                        out.push(Action::SendScan(w.id, address));
                        self.workers.set(
                            i,
                            WorkerHandle { id: w.id, state: WorkerState::Working, stale: w.stale },
                        );
                        proof {
                            let t = q_pre.spec_pop().0->Some_0;
                            let w2 = WorkerHandle {
                                id: w.id,
                                state: WorkerState::Working,
                                stale: w.stale,
                            };
                            assert(self.workers@.skip(i as int + 1) =~= ws_pre.skip(i as int + 1));
                            assert(self.workers@.take(i as int + 1) =~= ws_pre.take(
                                i as int,
                            ).push(w2));
                            assert(spec_assign(ws_pre.skip(i as int), q_pre).0 =~= seq![w2]
                                + spec_assign(ws_pre.skip(i as int + 1), self.ranges@).0);
                            assert(ws_pre.take(i as int).push(w2) + spec_assign(
                                ws_pre.skip(i as int + 1),
                                self.ranges@,
                            ).0 =~= ws_pre.take(i as int) + (seq![w2] + spec_assign(
                                ws_pre.skip(i as int + 1),
                                self.ranges@,
                            ).0));
                            assert(acts_view(out@) =~= acts_view(out_pre).push(
                                ActionV::SendScan(w.id, t),
                            ));
                            assert(spec_assign(ws_pre.skip(i as int), q_pre).2
                                =~= seq![ActionV::SendScan(w.id, t)] + spec_assign(
                                ws_pre.skip(i as int + 1),
                                self.ranges@,
                            ).2);
                            assert(acts_view(out_pre).push(ActionV::SendScan(w.id, t))
                                + spec_assign(ws_pre.skip(i as int + 1), self.ranges@).2
                                =~= acts_view(out_pre) + (seq![ActionV::SendScan(w.id, t)]
                                + spec_assign(ws_pre.skip(i as int + 1), self.ranges@).2));
                        }
                    },
                    None => {
                        proof {
                            assert(self.workers@.take(i as int) + self.workers@.skip(i as int)
                                =~= self.workers@);
                        }
                        done = true;
                    },
                }
            } else {
                proof {
                    assert(self.workers@.take(i as int + 1) =~= self.workers@.take(
                        i as int,
                    ).push(w));
                    assert(spec_assign(self.workers@.skip(i as int), self.ranges@).0 =~= seq![w]
                        + spec_assign(self.workers@.skip(i as int + 1), self.ranges@).0);
                    assert(self.workers@.take(i as int).push(w) + spec_assign(
                        self.workers@.skip(i as int + 1),
                        self.ranges@,
                    ).0 =~= self.workers@.take(i as int) + (seq![w] + spec_assign(
                        self.workers@.skip(i as int + 1),
                        self.ranges@,
                    ).0));
                }
            }
            i = i + 1;
        }
        proof {
            if !done {
                assert(self.workers@.skip(n as int) =~= Seq::<WorkerHandle>::empty());
                assert(self.workers@.take(n as int) =~= self.workers@);
                assert(self.workers@.take(n as int) + spec_assign(
                    self.workers@.skip(n as int),
                    self.ranges@,
                ).0 =~= self.workers@);
                assert(acts_view(out@) + spec_assign(self.workers@.skip(n as int), self.ranges@).2
                    =~= acts_view(out@));
            }
            assert(self@ =~= old(self)@.spec_assign_work().0);
        }
    }

    #[verifier::loop_isolation(false)]
    fn check_idle(&self, out: &mut Vec<Action>)
        ensures
            acts_view(final(out)@) == acts_view(old(out)@) + self@.spec_check_idle(),
    {
        let n = self.workers.len();
        let mut all = true;
        let mut i: usize = 0;
        while i < n
            invariant
                i <= n,
                n == self.workers.len(),
                all == (forall|j: int|
                    0 <= j < i ==> #[trigger] self.workers@[j].state == WorkerState::Idle),
            decreases n - i,
        {
            if !self.workers[i].is_idle() {
                all = false;
            }
            i = i + 1;
        }
        if all && self.state == ScannerState::Running && self.ranges.len() == 0 {
            out.push(Action::Async(Output::Idle));
            proof {
                assert(acts_view(out@) =~= acts_view(old(out)@) + self@.spec_check_idle());
            }
        } else {
            proof {
                assert(acts_view(out@) =~= acts_view(old(out)@) + self@.spec_check_idle());
            }
        }
    }

    /// Reconcile the pool with the configured size.  The runtime calls this
    /// once at start-up; afterwards it runs as part of message handling.
    #[verifier::loop_isolation(false)]
    pub fn thread_count_control(&mut self, out: &mut Vec<Action>)
        requires
            old(self)@.wf(),
            old(self)@.can_step(),
        ensures
            final(self)@ == old(self)@.spec_tcc().0,
            acts_view(final(out)@) == acts_view(old(out)@) + old(self)@.spec_tcc().1,
            final(self)@.wf(),
    {
        proof {
            lemma_tcc(old(self)@);
        }
        let want = self.config.thread_count;
        let have = self.workers.len();
        if want > have {
            let ghost m0 = self@;
            let diff = want - have;
            let mut k: usize = 0;
            while k < diff
                invariant
                    k <= diff,
                    self.id_counter == m0.id_counter + k,
                    self.config == old(self).config,
                    self.state == old(self).state,
                    self.ranges@ == old(self).ranges@,
                    spec_spawn_n(self.workers@, self.id_counter, (diff - k) as nat).0
                        == spec_spawn_n(m0.workers, m0.id_counter, diff as nat).0,
                    spec_spawn_n(self.workers@, self.id_counter, (diff - k) as nat).1
                        == spec_spawn_n(m0.workers, m0.id_counter, diff as nat).1,
                    acts_view(out@) + spec_spawn_n(
                        self.workers@,
                        self.id_counter,
                        (diff - k) as nat,
                    ).2 == acts_view(old(out)@) + spec_spawn_n(
                        m0.workers,
                        m0.id_counter,
                        diff as nat,
                    ).2,
                decreases diff - k,
            {
                let ghost c_pre = self.id_counter;
                let ghost ws_pre = self.workers@;
                let ghost out_pre = out@;
                self.spawn(out);
                k = k + 1;
                proof {
                    let id = (c_pre + 1) as usize;
                    let w = WorkerHandle { id, state: WorkerState::Idle, stale: false };
                    assert(spec_spawn_n(ws_pre, c_pre, (diff - k + 1) as nat).2
                        =~= seq![ActionV::Spawn(id)] + spec_spawn_n(
                        self.workers@,
                        self.id_counter,
                        (diff - k) as nat,
                    ).2);
                    assert(acts_view(out_pre).push(ActionV::Spawn(id)) + spec_spawn_n(
                        self.workers@,
                        self.id_counter,
                        (diff - k) as nat,
                    ).2 =~= acts_view(out_pre) + (seq![ActionV::Spawn(id)] + spec_spawn_n(
                        self.workers@,
                        self.id_counter,
                        (diff - k) as nat,
                    ).2));
                }
            }
            self.assign_work(out);
            proof {
                assert(acts_view(out@) =~= acts_view(old(out)@) + old(self)@.spec_tcc().1);
                assert(self@ =~= old(self)@.spec_tcc().0);
            }
        } else if want < have {
            self.try_close(have - want, out);
            proof {
                assert(self@ =~= old(self)@.spec_tcc().0);
            }
        } else {
            proof {
                assert(acts_view(out@) =~= acts_view(out@) + Seq::<ActionV>::empty());
            }
        }
    }

    #[verifier::loop_isolation(false)]
    fn find_worker(&self, id: usize) -> (r: Option<usize>)
        requires
            self@.wf(),
        ensures
            match r {
                Some(i) => i < self@.workers.len() && self@.workers[i as int].id == id,
                None => forall|j: int|
                    0 <= j < self@.workers.len() ==> #[trigger] self@.workers[j].id != id,
            },
    {
        let mut lo: usize = 0;
        let mut hi: usize = self.workers.len();
        while lo < hi
            invariant
                lo <= hi <= self.workers.len(),
                forall|j: int| 0 <= j < lo ==> #[trigger] self.workers@[j].id < id,
                forall|j: int|
                    hi <= j < self.workers@.len() ==> #[trigger] self.workers@[j].id > id,
            decreases hi - lo,
        {
            let mid = lo + (hi - lo) / 2;
            let wid = self.workers[mid].id;
            if wid == id {
                return Some(mid);
            } else if wid < id {
                lo = mid + 1;
            } else {
                hi = mid;
            }
        }
        None
    }

    /// Handle one worker result, per the message-handling protocol.  The
    /// worker must be known; an unknown id is a protocol violation the
    /// runtime turns into an abort.
    pub fn handle_message(&mut self, message: WorkerMessage) -> (out: Vec<Action>)
        requires
            old(self)@.wf(),
            old(self)@.can_step(),
            old(self)@.has_worker(message@.worker_id),
        ensures
            final(self)@ == old(self)@.spec_handle_message(message@).0,
            acts_view(out@) == old(self)@.spec_handle_message(message@).1,
            final(self)@.wf(),
    {
        proof {
            lemma_handle_message_wf(old(self)@, message@);
        }
        let mut out: Vec<Action> = Vec::new();
        let idx = match self.find_worker(message.worker_id) {
            Some(i) => i,
            None => {
                proof {
                    let j = choose|j: int|
                        0 <= j < old(self)@.workers.len() && #[trigger] old(
                            self,
                        )@.workers[j].id == message@.worker_id;
                    assert(false);
                }
                vstd::pervasive::unreached()
            },
        };
        proof {
            lemma_worker_index_unique(old(self)@, message@.worker_id, idx as int);
            lemma_idle_update_wf(old(self)@, idx as int);
        }
        let w = self.workers[idx];
        self.workers.set(
            idx,
            WorkerHandle { id: w.id, state: WorkerState::Idle, stale: false },
        );
        let ghost m1 = MasterV {
            workers: old(self)@.workers.update(
                idx as int,
                WorkerHandle { id: w.id, state: WorkerState::Idle, stale: false },
            ),
            ..old(self)@
        };
        proof {
            assert(self@ =~= m1);
        }
        let stale = w.stale;
        let Message::Scan(host, port, state) = message.content;
        if !(stale && self.config.stale) {
            let o = match port.protocol {
                Protocol::Tcp => Output::TcpScan(host, port.number, state),
                Protocol::Udp => Output::UdpScan(host, port.number, state),
            };
            out.push(Action::Async(o));
        }
        let ghost reported = acts_view(out@);
        proof {
            assert(reported =~= if !(w.stale && old(self)@.config.stale) {
                seq![ActionV::Async(scan_output(message@.target, message@.state))]
            } else {
                Seq::<ActionV>::empty()
            });
        }
        if self.state == ScannerState::Running {
            self.thread_count_control(&mut out);
            self.assign_work(&mut out);
            self.check_idle(&mut out);
            proof {
                let (m2, a2) = m1.spec_tcc();
                let (m3, a3) = m2.spec_assign_work();
                let a4 = m3.spec_check_idle();
                assert(acts_view(out@) =~= reported + a2 + a3 + a4);
                assert(self@ == old(self)@.spec_handle_message(message@).0);
            }
        } else if self.state == ScannerState::Ending {
            self.try_terminate(&mut out);
            proof {
                let (m2, a2) = m1.spec_try_terminate();
                assert(acts_view(out@) =~= reported + a2);
            }
        }
        out
    }

    /// Handle one command: ignored wholesale while ending or terminated,
    /// acted on otherwise, and acknowledged with `Ack` either way.
    pub fn handle_input(&mut self, input: Input) -> (out: Vec<Action>)
        requires
            old(self)@.wf(),
            old(self)@.input_bound(input@),
        ensures
            final(self)@ == old(self)@.spec_handle_input(input@).0,
            acts_view(out@) == old(self)@.spec_handle_input(input@).1,
            final(self)@.wf(),
    {
        proof {
            lemma_handle_input_wf(old(self)@, input@);
        }
        let mut out: Vec<Action> = Vec::new();
        if self.state == ScannerState::Ending || self.state == ScannerState::Terminated {
            out.push(Action::Sync(Output::Ack));
            proof {
                assert(acts_view(out@) =~= seq![ActionV::Sync(OutputV::Ack)]);
            }
            return out;
        }
        let ghost iv = input@;
        match input {
            Input::End => {
                self.state = ScannerState::Ending;
                self.stale_all();
                self.try_terminate(&mut out);
            },
            Input::Ping => {},
            Input::NOP => {},
            Input::Attempts(count) => {
                self.config.attempts = count;
            },
            Input::TcpTimeout(ms) => {
                self.config.tcp_timeout = ms;
            },
            Input::UdpTimeout(ms) => {
                self.config.udp_timeout = ms;
            },
            Input::Cancel => {
                self.stale_all();
                self.ranges.clear();
            },
            Input::Stale(stale) => {
                self.config.stale = stale;
            },
            Input::TcpRange(host, from, to) => {
                self.ranges.push(
                    AddressRange { host, protocol: Protocol::Tcp, from, to },
                );
                self.assign_work(&mut out);
            },
            Input::UdpRange(host, from, to) => {
                self.ranges.push(
                    AddressRange { host, protocol: Protocol::Udp, from, to },
                );
                self.assign_work(&mut out);
            },
            Input::Stop => {
                if self.state == ScannerState::Running {
                    self.state = ScannerState::Stop;
                }
            },
            Input::Cont => {
                if self.state == ScannerState::Stop {
                    self.state = ScannerState::Running;
                }
                self.assign_work(&mut out);
            },
            Input::Threads(count) => {
                self.config.thread_count = count;
                self.thread_count_control(&mut out);
            },
        }
        proof {
            assert(self@ =~= old(self)@.spec_dispatch_input(iv).0);
            assert(acts_view(out@) =~= old(self)@.spec_dispatch_input(iv).1);
        }
        out.push(Action::Sync(Output::Ack));
        proof {
            assert(acts_view(out@) =~= old(self)@.spec_dispatch_input(iv).1 + seq![
                ActionV::Sync(OutputV::Ack),
            ]);
        }
        out
    }
}

} // verus!
