//! Scheduling decisions of the worker pool.
//!
//! The pool has one acceptor and a fixed number of long-lived workers. Each
//! worker owns a busy flag that it alone raises and lowers; the acceptor only
//! reads the flags. The caller runs the threads, the channels and the shared
//! shutdown flag, and asks the functions of this module what to do next: it
//! reports what it observed and carries out the action that comes back.

use vstd::prelude::*;

verus! {

/// Where a worker is in its life cycle.
#[derive(Clone, Copy, Debug, PartialEq, Eq, Structural)]
pub enum WorkerState {
    /// Waiting for a connection; the busy flag is down.
    Idle,
    /// Processing one connection; the busy flag is up.
    Busy,
    /// Out of its loop for good.
    Stopped,
}

/// What a worker thread has just observed.
#[derive(Clone, Copy, Debug, PartialEq, Eq, Structural)]
pub enum WorkerEvent {
    /// The worker is at the top of its loop and has read the shutdown flag.
    Polled { shutdown: bool },
    /// A connection arrived on the worker's channel.
    Assigned,
    /// The worker is done with its connection, whether the response was
    /// written, the request was abandoned, or the socket failed.
    Finished,
}

/// What a worker thread does next.
#[derive(Clone, Copy, Debug, PartialEq, Eq, Structural)]
pub enum WorkerAction {
    /// Block until a connection is assigned.
    Wait,
    /// Raise the busy flag and process the connection.
    Process,
    /// Lower the busy flag and return to the top of the loop.
    Release,
    /// Leave the loop; the thread ends.
    Exit,
    /// The event does not apply in this state; nothing changes.
    Ignore,
}

/// What the acceptor does with the outcome of one `accept`.
#[derive(Clone, Copy, Debug, PartialEq, Eq, Structural)]
pub enum AcceptorAction {
    /// Shutdown was signalled: drop whatever was accepted and leave the loop.
    Stop,
    /// Hand the accepted connection to an idle worker, polling until one is found.
    Dispatch,
    /// The `accept` failed: report it and accept again.
    Discard,
}

/// The state a worker moves to on `event`.
///
/// A worker stops only when it reads a raised shutdown flag while idle. Once
/// busy it reacts to nothing but the end of its own connection.
pub open spec fn next_state(state: WorkerState, event: WorkerEvent) -> WorkerState {
    match (state, event) {
        (WorkerState::Idle, WorkerEvent::Polled { shutdown: true }) => WorkerState::Stopped,
        (WorkerState::Idle, WorkerEvent::Assigned) => WorkerState::Busy,
        (WorkerState::Busy, WorkerEvent::Finished) => WorkerState::Idle,
        _ => state,
    }
}

/// The action a worker takes on `event`.
pub open spec fn next_action(state: WorkerState, event: WorkerEvent) -> WorkerAction {
    match (state, event) {
        (WorkerState::Idle, WorkerEvent::Polled { shutdown: true }) => WorkerAction::Exit,
        (WorkerState::Idle, WorkerEvent::Polled { shutdown: false }) => WorkerAction::Wait,
        (WorkerState::Idle, WorkerEvent::Assigned) => WorkerAction::Process,
        (WorkerState::Busy, WorkerEvent::Finished) => WorkerAction::Release,
        (WorkerState::Stopped, _) => WorkerAction::Exit,
        _ => WorkerAction::Ignore,
    }
}

/// The state a worker reaches from `state` after the events of `events`, in order.
pub open spec fn run(state: WorkerState, events: Seq<WorkerEvent>) -> WorkerState
    decreases events.len(),
{
    if events.len() == 0 {
        state
    } else {
        next_state(run(state, events.drop_last()), events.last())
    }
}

/// The acceptor's decision once an `accept` has returned, given the shutdown
/// flag as it reads it then and whether the `accept` produced a connection.
/// After shutdown nothing is dispatched, not even a connection already
/// accepted.
pub open spec fn acceptor_decision(shutdown: bool, accepted: bool) -> AcceptorAction {
    if shutdown {
        AcceptorAction::Stop
    } else if accepted {
        AcceptorAction::Dispatch
    } else {
        AcceptorAction::Discard
    }
}

/// The index of the first worker whose busy flag is down, if there is one.
pub open spec fn first_idle(busy: Seq<bool>) -> Option<int>
    decreases busy.len(),
{
    if busy.len() == 0 {
        None
    } else {
        match first_idle(busy.drop_last()) {
            Some(i) => Some(i),
            None => if busy.last() {
                None
            } else {
                Some(busy.len() - 1)
            },
        }
    }
}

impl WorkerState {
    /// The value of the worker's busy flag in this state.
    pub fn is_busy(self) -> (busy: bool)
        ensures
            busy == (self == WorkerState::Busy),
    {
        match self {
            WorkerState::Busy => true,
            _ => false,
        }
    }
}

/// Advances one worker: the state it moves to and what its thread does next.
pub fn worker_step(state: WorkerState, event: WorkerEvent) -> (step: (WorkerState, WorkerAction))
    ensures
        step.0 == next_state(state, event),
        step.1 == next_action(state, event),
{
    match state {
        WorkerState::Idle => match event {
            WorkerEvent::Polled { shutdown } => if shutdown {
                (WorkerState::Stopped, WorkerAction::Exit)
            } else {
                (WorkerState::Idle, WorkerAction::Wait)
            },
            WorkerEvent::Assigned => (WorkerState::Busy, WorkerAction::Process),
            WorkerEvent::Finished => (WorkerState::Idle, WorkerAction::Ignore),
        },
        WorkerState::Busy => match event {
            WorkerEvent::Finished => (WorkerState::Idle, WorkerAction::Release),
            _ => (WorkerState::Busy, WorkerAction::Ignore),
        },
        WorkerState::Stopped => (WorkerState::Stopped, WorkerAction::Exit),
    }
}

/// Decides what the acceptor does once an `accept` has returned.
///
/// `shutdown` is the flag as read after the `accept` returned and before
/// anything is done with its outcome; `accepted` tells whether the outcome is
/// a connection.
pub fn acceptor_step(shutdown: bool, accepted: bool) -> (action: AcceptorAction)
    ensures
        action == acceptor_decision(shutdown, accepted),
        shutdown ==> action == AcceptorAction::Stop,
        action == AcceptorAction::Dispatch <==> !shutdown && accepted,
{
    if shutdown {
        AcceptorAction::Stop
    } else if accepted {
        AcceptorAction::Dispatch
    } else {
        AcceptorAction::Discard
    }
}

/// Picks the worker that gets the next connection: the first one whose busy
/// flag is down. `None` means every worker is busy and the acceptor has to
/// poll again.
pub fn pick_idle(busy: &[bool]) -> (picked: Option<usize>)
    ensures
        picked matches Some(i) ==> i < busy.len() && !busy[i as int] && forall|j: int|
            0 <= j < i ==> busy[j],
        picked is None ==> forall|j: int| 0 <= j < busy.len() ==> busy[j],
        picked is Some <==> exists|j: int| 0 <= j < busy.len() && !busy[j],
        first_idle(busy@) == match picked {
            Some(i) => Some(i as int),
            None => None,
        },
{
    let mut i: usize = 0;
    while i < busy.len()
        invariant
            i <= busy.len(),
            forall|j: int| 0 <= j < i ==> busy[j],
        decreases busy.len() - i,
    {
        if !busy[i] {
            proof {
                lemma_first_idle(busy@);
            }
            return Some(i);
        }
        i += 1;
    }
    proof {
        lemma_first_idle(busy@);
    }
    None
}

/// `first_idle` finds a worker exactly when some flag is down, and the worker
/// it finds is the first one whose flag is down.
pub proof fn lemma_first_idle(busy: Seq<bool>)
    ensures
        first_idle(busy) matches Some(i) ==> 0 <= i < busy.len() && !busy[i] && forall|j: int|
            0 <= j < i ==> busy[j],
        first_idle(busy) is None ==> forall|j: int| 0 <= j < busy.len() ==> busy[j],
    decreases busy.len(),
{
    if busy.len() > 0 {
        let front = busy.drop_last();
        lemma_first_idle(front);
        assert(forall|j: int| 0 <= j < front.len() ==> front[j] == busy[j]);
    }
}

/// An idle worker is never passed over: as soon as one flag is down a worker
/// is picked, and it is the first one whose flag is down.
pub proof fn lemma_idle_worker_is_picked(busy: Seq<bool>, idle: int)
    requires
        0 <= idle < busy.len(),
        !busy[idle],
    ensures
        first_idle(busy) matches Some(picked) && 0 <= picked <= idle && !busy[picked],
{
    lemma_first_idle(busy);
}

/// A worker stops only when it reads a raised shutdown flag while idle.
pub proof fn lemma_stops_only_when_idle(state: WorkerState, event: WorkerEvent)
    requires
        state != WorkerState::Stopped,
        next_state(state, event) == WorkerState::Stopped,
    ensures
        state == WorkerState::Idle,
        event == (WorkerEvent::Polled { shutdown: true }),
{
}

/// A busy worker runs to completion: until its connection is finished, no
/// event moves it, a shutdown signal included.
pub proof fn lemma_busy_until_finished(events: Seq<WorkerEvent>)
    requires
        forall|i: int| 0 <= i < events.len() ==> events[i] != WorkerEvent::Finished,
    ensures
        run(WorkerState::Busy, events) == WorkerState::Busy,
    decreases events.len(),
{
    if events.len() > 0 {
        let front = events.drop_last();
        assert forall|i: int| 0 <= i < front.len() implies front[i] != WorkerEvent::Finished by {
            assert(front[i] == events[i]);
        }
        lemma_busy_until_finished(front);
        assert(events.last() == events[events.len() - 1]);
    }
}

/// A stopped worker stays stopped whatever happens.
pub proof fn lemma_stopped_is_final(events: Seq<WorkerEvent>)
    ensures
        run(WorkerState::Stopped, events) == WorkerState::Stopped,
    decreases events.len(),
{
    if events.len() > 0 {
        lemma_stopped_is_final(events.drop_last());
    }
}

} // verus!
