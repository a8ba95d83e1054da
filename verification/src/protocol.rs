//! The hand-off protocol of the pool as a transition system.
//!
//! The acceptor and the workers run in parallel and touch shared state only
//! through the shutdown flag, the busy flags and the channels. This module
//! models that state and the atomic steps each party takes, built from the
//! same decisions the threads ask of `pool`, and proves what holds after any
//! interleaving of those steps: every connection handed over belongs to one
//! worker only, a worker has at most one connection in flight and never stops
//! with one, a worker whose flag is down is never passed over and one whose
//! flag is up is never chosen, and once shutdown is signalled nothing is
//! handed over but a connection the acceptor already held.
//!
//! A worker raises its flag after it has received a connection and lowers it
//! after it is done, so the flag lags behind what the worker is doing. A
//! connection handed over in such a moment waits in the worker's channel.

use crate::pool::{
    acceptor_decision, first_idle, lemma_first_idle, next_state, AcceptorAction, WorkerEvent,
    WorkerState,
};
use vstd::prelude::*;

verus! {

/// One worker as the protocol sees it.
pub struct WorkerModel {
    pub state: WorkerState,
    /// The busy flag as the worker last published it.
    pub flag: bool,
    /// Every connection handed to this worker so far, oldest first.
    pub handed: Seq<nat>,
    /// How many of them it has taken from its channel.
    pub taken: nat,
    /// How many of them it has processed to the end.
    pub finished: nat,
}

/// The pool as the protocol sees it. Connections are numbered in the order
/// in which they are handed over.
pub struct PoolModel {
    pub workers: Seq<WorkerModel>,
    /// The shutdown flag.
    pub shutdown: bool,
    /// Whether the acceptor is still in its loop.
    pub accepting: bool,
    /// Whether the acceptor holds a connection it has not handed over yet.
    pub holding: bool,
    /// How many connections have been handed over.
    pub dispatched: nat,
}

/// One atomic step of one party.
pub enum PoolStep {
    /// Someone raises the shutdown flag.
    Signal,
    /// An `accept` of the acceptor returns, with a connection or without.
    Accepted { connected: bool },
    /// The acceptor reads the busy flags once, looking for a worker to hand
    /// its connection to.
    Offer,
    /// A worker at the top of its loop reads the shutdown flag.
    Poll { worker: int },
    /// A worker receives the oldest connection waiting in its channel.
    Take { worker: int },
    /// A worker is done with its connection.
    Finish { worker: int },
    /// A worker stores its busy flag.
    Publish { worker: int },
}

impl WorkerModel {
    /// A worker that has just been spawned.
    pub open spec fn fresh() -> WorkerModel {
        WorkerModel {
            state: WorkerState::Idle,
            flag: false,
            handed: Seq::empty(),
            taken: 0,
            finished: 0,
        }
    }

    /// The worker after `event`, as far as its state goes.
    pub open spec fn moved(self, event: WorkerEvent) -> WorkerModel {
        WorkerModel { state: next_state(self.state, event), ..self }
    }
}

impl PoolModel {
    /// The pool right after `workers` workers have been spawned.
    pub open spec fn start(workers: nat) -> PoolModel {
        PoolModel {
            workers: Seq::new(workers, |i: int| WorkerModel::fresh()),
            shutdown: false,
            accepting: true,
            holding: false,
            dispatched: 0,
        }
    }

    /// The busy flags as the acceptor reads them.
    pub open spec fn busy(self) -> Seq<bool> {
        Seq::new(self.workers.len(), |i: int| self.workers[i].flag)
    }

    /// The pool with worker `worker` replaced by `model`.
    pub open spec fn with_worker(self, worker: int, model: WorkerModel) -> PoolModel {
        PoolModel { workers: self.workers.update(worker, model), ..self }
    }

    /// The pool after one step. A step that its party cannot take in this
    /// state changes nothing.
    pub open spec fn step(self, step: PoolStep) -> PoolModel {
        match step {
            PoolStep::Signal => PoolModel { shutdown: true, ..self },
            PoolStep::Accepted { connected } => if !self.accepting || self.holding {
                self
            } else {
                match acceptor_decision(self.shutdown, connected) {
                    AcceptorAction::Stop => PoolModel { accepting: false, ..self },
                    AcceptorAction::Dispatch => PoolModel { holding: true, ..self },
                    AcceptorAction::Discard => self,
                }
            },
            PoolStep::Offer => if !self.holding {
                self
            } else {
                match first_idle(self.busy()) {
                    Some(picked) => {
                        let worker = self.workers[picked];
                        let handed = worker.handed.push(self.dispatched);
                        PoolModel {
                            workers: self.workers.update(picked, WorkerModel { handed, ..worker }),
                            holding: false,
                            dispatched: self.dispatched + 1,
                            ..self
                        }
                    },
                    None => self,
                }
            },
            PoolStep::Poll { worker } => if 0 <= worker < self.workers.len() {
                let event = WorkerEvent::Polled { shutdown: self.shutdown };
                self.with_worker(worker, self.workers[worker].moved(event))
            } else {
                self
            },
            PoolStep::Take { worker } => if 0 <= worker < self.workers.len()
                && self.workers[worker].state == WorkerState::Idle && self.workers[worker].taken
                < self.workers[worker].handed.len() {
                let model = self.workers[worker].moved(WorkerEvent::Assigned);
                self.with_worker(worker, WorkerModel { taken: model.taken + 1, ..model })
            } else {
                self
            },
            PoolStep::Finish { worker } => if 0 <= worker < self.workers.len()
                && self.workers[worker].state == WorkerState::Busy {
                let model = self.workers[worker].moved(WorkerEvent::Finished);
                self.with_worker(worker, WorkerModel { finished: model.finished + 1, ..model })
            } else {
                self
            },
            PoolStep::Publish { worker } => if 0 <= worker < self.workers.len() {
                let model = self.workers[worker];
                let flag = model.state == WorkerState::Busy;
                self.with_worker(worker, WorkerModel { flag, ..model })
            } else {
                self
            },
        }
    }

    /// The pool after the steps of `steps`, in order.
    pub open spec fn run(self, steps: Seq<PoolStep>) -> PoolModel
        decreases steps.len(),
    {
        if steps.len() == 0 {
            self
        } else {
            self.run(steps.drop_last()).step(steps.last())
        }
    }

    /// Whether connection `connection` was handed to worker `worker` as its
    /// `position`-th.
    pub open spec fn holds(self, worker: int, position: int, connection: nat) -> bool {
        &&& 0 <= worker < self.workers.len()
        &&& 0 <= position < self.workers[worker].handed.len()
        &&& self.workers[worker].handed[position] == connection
    }

    /// Whether connection `connection` was handed to some worker.
    pub open spec fn handed_over(self, connection: nat) -> bool {
        exists|w: int, k: int| #[trigger] self.holds(w, k, connection)
    }

    /// What every reachable pool satisfies.
    pub open spec fn consistent(self) -> bool {
        &&& self.holding ==> self.accepting
        &&& forall|w: int|
            0 <= w < self.workers.len() ==> {
                let worker = #[trigger] self.workers[w];
                &&& worker.finished <= worker.taken <= worker.handed.len()
                &&& worker.taken - worker.finished == if worker.state == WorkerState::Busy {
                    1int
                } else {
                    0int
                }
            }
        &&& forall|w: int, k: int, c: nat| #[trigger] self.holds(w, k, c) ==> c < self.dispatched
        &&& forall|w: int, k: int, v: int, l: int, c: nat|
            #[trigger] self.holds(w, k, c) && #[trigger] self.holds(v, l, c) ==> w == v && k == l
        &&& forall|c: nat| c < self.dispatched ==> #[trigger] self.handed_over(c)
    }
}

/// The pool starts out consistent.
pub proof fn lemma_start_is_consistent(workers: nat)
    ensures
        PoolModel::start(workers).consistent(),
{
}

/// Every step keeps the pool consistent.
pub proof fn lemma_step_keeps_consistent(pool: PoolModel, step: PoolStep)
    requires
        pool.consistent(),
    ensures
        pool.step(step).consistent(),
{
    let next = pool.step(step);
    match step {
        PoolStep::Offer => {
            if pool.holding {
                lemma_first_idle(pool.busy());
                match first_idle(pool.busy()) {
                    Some(picked) => {
                        let c = pool.dispatched;
                        let last = pool.workers[picked].handed.len() as int;
                        assert forall|w: int, k: int, other: nat| #[trigger]
                            next.holds(w, k, other) implies (pool.holds(w, k, other) || (w
                            == picked && k == last && other == c)) by {
                            assert(next.workers[w] == if w == picked {
                                next.workers[picked]
                            } else {
                                pool.workers[w]
                            });
                        }
                        assert(next.holds(picked, last, c));
                        assert forall|other: nat| other < next.dispatched implies #[trigger]
                            next.handed_over(other) by {
                            if other < pool.dispatched {
                                assert(pool.handed_over(other));
                                let (w, k) = choose|w: int, k: int| #[trigger]
                                    pool.holds(w, k, other);
                                assert(next.holds(w, k, other));
                            }
                        }
                        assert forall|w: int, k: int, v: int, l: int, other: nat| #[trigger]
                            next.holds(w, k, other) && #[trigger] next.holds(
                                v,
                                l,
                                other,
                            ) implies w == v && k == l by {
                            if pool.holds(w, k, other) && pool.holds(v, l, other) {
                            } else if pool.holds(w, k, other) {
                                assert(other < pool.dispatched);
                            } else if pool.holds(v, l, other) {
                                assert(other < pool.dispatched);
                            }
                        }
                    },
                    None => {},
                }
            }
        },
        _ => {
            lemma_same_hand_offs(pool, next);
        },
    }
}

/// Steps that hand nothing over leave the record of hand-offs as it is.
proof fn lemma_same_hand_offs(pool: PoolModel, next: PoolModel)
    requires
        next.workers.len() == pool.workers.len(),
        forall|w: int|
            0 <= w < pool.workers.len() ==> (#[trigger] next.workers[w]).handed
                == pool.workers[w].handed,
    ensures
        forall|w: int, k: int, c: nat| #[trigger] next.holds(w, k, c) == pool.holds(w, k, c),
        forall|c: nat| #[trigger] next.handed_over(c) == pool.handed_over(c),
{
    assert forall|c: nat| #[trigger] next.handed_over(c) == pool.handed_over(c) by {
        if pool.handed_over(c) {
            let (w, k) = choose|w: int, k: int| #[trigger] pool.holds(w, k, c);
            assert(next.holds(w, k, c));
        }
        if next.handed_over(c) {
            let (w, k) = choose|w: int, k: int| #[trigger] next.holds(w, k, c);
            assert(pool.holds(w, k, c));
        }
    }
}

/// Every run keeps the pool consistent.
pub proof fn lemma_run_keeps_consistent(pool: PoolModel, steps: Seq<PoolStep>)
    requires
        pool.consistent(),
    ensures
        pool.run(steps).consistent(),
    decreases steps.len(),
{
    if steps.len() > 0 {
        lemma_run_keeps_consistent(pool, steps.drop_last());
        lemma_step_keeps_consistent(pool.run(steps.drop_last()), steps.last());
    }
}

/// Whatever the interleaving, a pool that was started is consistent.
pub proof fn lemma_reachable_is_consistent(workers: nat, steps: Seq<PoolStep>)
    ensures
        PoolModel::start(workers).run(steps).consistent(),
{
    lemma_start_is_consistent(workers);
    lemma_run_keeps_consistent(PoolModel::start(workers), steps);
}

/// Every connection handed over went to exactly one worker, exactly once.
pub proof fn lemma_one_worker_per_connection(pool: PoolModel, connection: nat)
    requires
        pool.consistent(),
        connection < pool.dispatched,
    ensures
        exists|w: int, k: int|
            {
                &&& #[trigger] pool.holds(w, k, connection)
                &&& forall|v: int, l: int| #[trigger]
                    pool.holds(v, l, connection) ==> v == w && l == k
            },
{
    assert(pool.handed_over(connection));
    let (w, k) = choose|w: int, k: int| #[trigger] pool.holds(w, k, connection);
    assert(forall|v: int, l: int| #[trigger] pool.holds(v, l, connection) ==> v == w && l == k);
}

/// A worker has one connection in flight while it is busy and none
/// otherwise. In particular a stopped worker has finished all it took.
pub proof fn lemma_in_flight(pool: PoolModel, worker: int)
    requires
        pool.consistent(),
        0 <= worker < pool.workers.len(),
    ensures
        pool.workers[worker].finished <= pool.workers[worker].taken
            <= pool.workers[worker].handed.len(),
        pool.workers[worker].state == WorkerState::Busy ==> pool.workers[worker].taken
            == pool.workers[worker].finished + 1,
        pool.workers[worker].state != WorkerState::Busy ==> pool.workers[worker].taken
            == pool.workers[worker].finished,
{
}

/// When every worker has stopped nothing is in flight: whatever a worker
/// took from its channel it has processed to the end.
pub proof fn lemma_all_stopped_means_all_finished(pool: PoolModel)
    requires
        pool.consistent(),
        forall|w: int|
            0 <= w < pool.workers.len() ==> (#[trigger] pool.workers[w]).state
                == WorkerState::Stopped,
    ensures
        forall|w: int|
            0 <= w < pool.workers.len() ==> (#[trigger] pool.workers[w]).taken
                == pool.workers[w].finished,
{
}

/// A worker whose flag is down is never passed over: when the acceptor
/// holds a connection and reads the flags while one of them is down, the
/// connection goes to the first worker whose flag is down, and the acceptor
/// is free again. A worker whose flag is up is never chosen.
pub proof fn lemma_offer_reaches_idle_worker(pool: PoolModel, idle: int)
    requires
        pool.holding,
        0 <= idle < pool.workers.len(),
        !pool.workers[idle].flag,
    ensures
        first_idle(pool.busy()) is Some,
        ({
            let picked = first_idle(pool.busy())->0;
            let next = pool.step(PoolStep::Offer);
            &&& 0 <= picked <= idle
            &&& !pool.workers[picked].flag
            &&& !next.holding
            &&& next.dispatched == pool.dispatched + 1
            &&& next.workers[picked].handed == pool.workers[picked].handed.push(pool.dispatched)
        }),
{
    lemma_first_idle(pool.busy());
    assert(!pool.busy()[idle]);
}

/// While every flag is up an offer changes nothing: the acceptor keeps its
/// connection and reads the flags again.
pub proof fn lemma_offer_waits_while_all_busy(pool: PoolModel)
    requires
        forall|w: int| 0 <= w < pool.workers.len() ==> (#[trigger] pool.workers[w]).flag,
    ensures
        pool.step(PoolStep::Offer) == pool,
{
    lemma_first_idle(pool.busy());
    if first_idle(pool.busy()) is Some {
        let picked = first_idle(pool.busy())->0;
        assert(pool.workers[picked].flag);
        assert(pool.busy()[picked]);
    }
}

/// Once shutdown is signalled and the acceptor holds no connection, nothing
/// is handed to a worker any more, whatever happens next.
pub proof fn lemma_nothing_handed_over_after_shutdown(pool: PoolModel, steps: Seq<PoolStep>)
    requires
        pool.shutdown,
        !pool.holding,
    ensures
        pool.run(steps).shutdown,
        !pool.run(steps).holding,
        pool.run(steps).dispatched == pool.dispatched,
        pool.run(steps).workers.len() == pool.workers.len(),
        forall|w: int|
            0 <= w < pool.workers.len() ==> (#[trigger] pool.run(steps).workers[w]).handed
                == pool.workers[w].handed,
    decreases steps.len(),
{
    if steps.len() > 0 {
        lemma_nothing_handed_over_after_shutdown(pool, steps.drop_last());
    }
}

/// A worker that has stopped stays stopped, with nothing in flight.
pub proof fn lemma_stopped_worker_stays_stopped(pool: PoolModel, worker: int, step: PoolStep)
    requires
        0 <= worker < pool.workers.len(),
        pool.workers[worker].state == WorkerState::Stopped,
    ensures
        pool.step(step).workers.len() == pool.workers.len(),
        pool.step(step).workers[worker].state == WorkerState::Stopped,
        pool.step(step).workers[worker].taken == pool.workers[worker].taken,
        pool.step(step).workers[worker].finished == pool.workers[worker].finished,
{
    lemma_first_idle(pool.busy());
}

} // verus!
