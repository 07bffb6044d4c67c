//! The decisions of the server: what the accept loop, a worker and the
//! shutdown do next. The socket, the tasks, the rate limiter and the clock
//! are the caller's; it reports what happened and performs what it is told.

use vstd::prelude::*;

verus! {

/// The largest datagram that is received or sent, in bytes.
pub const MAX_DATAGRAM: usize = 1232;

/// How many shutdown notices the broadcast channel has room for.
pub const SHUTDOWN_CAPACITY: usize = 10;

/// How many seconds the shutdown waits before it counts the workers again.
pub const WORKER_POLL_SECS: u64 = 5;

/// Where the accept loop stands.
#[derive(Debug, Clone, Copy, PartialEq, Eq, Structural)]
pub enum Listener {
    /// Waiting for the next datagram.
    Receiving,
    /// A worker was spawned; waiting for the rate limiter.
    Throttled,
    /// Shut down: nothing is received any more.
    Stopped,
}

/// What the accept loop was waiting for, or the shutdown signal.
#[derive(Debug, Clone, Copy, PartialEq, Eq, Structural)]
pub enum ListenerEvent {
    /// A datagram has arrived.
    Datagram,
    /// Receiving has failed.
    ReceiveFailed,
    /// The rate limiter lets the next query in.
    LimiterReady,
    /// The shutdown signal has arrived.
    Shutdown,
}

/// What the accept loop does next.
#[derive(Debug, Clone, Copy, PartialEq, Eq, Structural)]
pub enum ListenerAction {
    /// Wait for the next datagram.
    Receive,
    /// Log the failure at warn level, then wait for the next datagram.
    WarnAndReceive,
    /// Spawn a worker for the datagram, then wait for the rate limiter.
    SpawnAndThrottle,
    /// Go on waiting for what was awaited.
    KeepWaiting,
    /// Leave the loop.
    Stop,
}

/// The state and the action that follow `event` in `state`.
pub open spec fn listener_step(state: Listener, event: ListenerEvent) -> (
    Listener,
    ListenerAction,
) {
    match (state, event) {
        (Listener::Stopped, _) => (Listener::Stopped, ListenerAction::Stop),
        (_, ListenerEvent::Shutdown) => (Listener::Stopped, ListenerAction::Stop),
        (Listener::Receiving, ListenerEvent::Datagram) => (
            Listener::Throttled,
            ListenerAction::SpawnAndThrottle,
        ),
        (Listener::Receiving, ListenerEvent::ReceiveFailed) => (
            Listener::Receiving,
            ListenerAction::WarnAndReceive,
        ),
        (Listener::Throttled, ListenerEvent::LimiterReady) => (
            Listener::Receiving,
            ListenerAction::Receive,
        ),
        (state, _) => (state, ListenerAction::KeepWaiting),
    }
}

/// Whether `action` takes a query in or waits for one.
pub open spec fn accepts(action: ListenerAction) -> bool {
    action == ListenerAction::Receive || action == ListenerAction::WarnAndReceive || action
        == ListenerAction::SpawnAndThrottle
}

/// The state of the accept loop after `events`, from `state`.
pub open spec fn listener_after(state: Listener, events: Seq<ListenerEvent>) -> Listener
    decreases events.len(),
{
    if events.len() == 0 {
        state
    } else {
        listener_step(listener_after(state, events.drop_last()), events.last()).0
    }
}

impl Listener {
    /// The accept loop as it starts: waiting for the first datagram.
    pub fn start() -> (state: Listener)
        ensures
            state == Listener::Receiving,
    {
        Listener::Receiving
    }

    /// Takes what happened and says what to do next. A datagram gets a
    /// worker, and the loop then waits for the rate limiter before it
    /// receives again; a failure to receive is logged and skipped; after
    /// the shutdown signal nothing is received.
    pub fn on_event(&mut self, event: ListenerEvent) -> (action: ListenerAction)
        ensures
            (*final(self), action) == listener_step(*old(self), event),
    {
        let (next, action) = match (*self, event) {
            (Listener::Stopped, _) => (Listener::Stopped, ListenerAction::Stop),
            (_, ListenerEvent::Shutdown) => (Listener::Stopped, ListenerAction::Stop),
            (Listener::Receiving, ListenerEvent::Datagram) => (
                Listener::Throttled,
                ListenerAction::SpawnAndThrottle,
            ),
            (Listener::Receiving, ListenerEvent::ReceiveFailed) => (
                Listener::Receiving,
                ListenerAction::WarnAndReceive,
            ),
            (Listener::Throttled, ListenerEvent::LimiterReady) => (
                Listener::Receiving,
                ListenerAction::Receive,
            ),
            (state, _) => (state, ListenerAction::KeepWaiting),
        };
        *self = next;
        action
    }
}

/// After the shutdown signal the accept loop is stopped, whatever happens
/// next, and takes no query in.
pub proof fn lemma_no_query_after_shutdown(
    state: Listener,
    before: Seq<ListenerEvent>,
    after: Seq<ListenerEvent>,
    event: ListenerEvent,
)
    ensures
        listener_after(state, before.push(ListenerEvent::Shutdown) + after) == Listener::Stopped,
        !accepts(
            listener_step(
                listener_after(state, before.push(ListenerEvent::Shutdown) + after),
                event,
            ).1,
        ),
    decreases after.len(),
{
    let signalled = before.push(ListenerEvent::Shutdown);
    if after.len() == 0 {
        assert(signalled + after =~= signalled);
        assert(signalled.drop_last() =~= before);
    } else {
        lemma_no_query_after_shutdown(state, before, after.drop_last(), event);
        assert((signalled + after).drop_last() =~= signalled + after.drop_last());
    }
}

/// A worker is spawned only for a datagram that arrived while the loop was
/// receiving, and the loop receives again only once the rate limiter has
/// let it.
pub proof fn lemma_spawn_is_throttled(state: Listener, event: ListenerEvent)
    ensures
        listener_step(state, event).1 == ListenerAction::SpawnAndThrottle ==> state
            == Listener::Receiving && event == ListenerEvent::Datagram && listener_step(
            state,
            event,
        ).0 == Listener::Throttled,
        state == Listener::Throttled && accepts(listener_step(state, event).1) ==> event
            == ListenerEvent::LimiterReady,
{
}

/// How many workers the accept loop spawns over `events`, from `state`.
pub open spec fn spawned(state: Listener, events: Seq<ListenerEvent>) -> nat
    decreases events.len(),
{
    if events.len() == 0 {
        0
    } else {
        let before = events.drop_last();
        let action = listener_step(listener_after(state, before), events.last()).1;
        if action == ListenerAction::SpawnAndThrottle {
            spawned(state, before) + 1
        } else {
            spawned(state, before)
        }
    }
}

/// How many times over `events`, from `state`, the rate limiter lets the
/// accept loop go on.
pub open spec fn granted(state: Listener, events: Seq<ListenerEvent>) -> nat
    decreases events.len(),
{
    if events.len() == 0 {
        0
    } else {
        let before = events.drop_last();
        if listener_after(state, before) == Listener::Throttled && events.last()
            == ListenerEvent::LimiterReady {
            granted(state, before) + 1
        } else {
            granted(state, before)
        }
    }
}

/// Over any stretch of events the accept loop spawns at most one worker
/// more than the rate limiter has let in, and no more than it has let in
/// where the stretch begins with the loop throttled or stopped: each worker
/// but the first of the stretch waits for the limiter.
pub proof fn lemma_spawns_follow_grants(state: Listener, events: Seq<ListenerEvent>)
    ensures
        spawned(state, events) <= granted(state, events) + 1,
        state != Listener::Receiving ==> spawned(state, events) <= granted(state, events),
{
    lemma_spawn_balance(state, events);
}

/// How the workers spawned stand to the times the rate limiter has let the
/// loop go on, by the state the loop began in and the state it is in.
proof fn lemma_spawn_balance(state: Listener, events: Seq<ListenerEvent>)
    ensures
        match (state, listener_after(state, events)) {
            (Listener::Receiving, Listener::Receiving) => spawned(state, events) == granted(
                state,
                events,
            ),
            (Listener::Receiving, Listener::Throttled) => spawned(state, events) == granted(
                state,
                events,
            ) + 1,
            (Listener::Receiving, Listener::Stopped) => spawned(state, events) <= granted(
                state,
                events,
            ) + 1,
            (Listener::Throttled, Listener::Receiving) => spawned(state, events) + 1 == granted(
                state,
                events,
            ),
            (Listener::Throttled, Listener::Throttled) => spawned(state, events) == granted(
                state,
                events,
            ),
            (Listener::Throttled, Listener::Stopped) => spawned(state, events) <= granted(
                state,
                events,
            ),
            (Listener::Stopped, after) => after == Listener::Stopped && spawned(state, events)
                == 0,
        },
    decreases events.len(),
{
    if events.len() > 0 {
        lemma_spawn_balance(state, events.drop_last());
    }
}

/// How the work of a worker ended, or the shutdown signal that ended it.
#[derive(Debug, Clone, PartialEq, Eq)]
pub enum WorkerEvent {
    /// The router has answered; these are the bytes of the response.
    Answered(Vec<u8>),
    /// Handling the query has failed.
    Failed,
    /// The shutdown signal came first.
    Shutdown,
}

/// What a worker does last.
#[derive(Debug, Clone, PartialEq, Eq)]
pub enum WorkerAction {
    /// Send these bytes to the source of the query.
    Send(Vec<u8>),
    /// Send nothing: the response is over the ceiling. Log at warn level.
    DropOversized,
    /// Send nothing: the query failed. Log at warn level.
    WarnFailed,
    /// Send nothing: the server is shutting down. Log at warn level.
    Abort,
}

/// Whether `action` sends a datagram of `len` bytes.
pub open spec fn sends(action: WorkerAction, len: nat) -> bool {
    action matches WorkerAction::Send(bytes) && bytes@.len() == len
}

/// Says what a worker does last. A response is sent where it fits in a
/// datagram; a failed query and a shutdown send nothing.
pub fn conclude(event: WorkerEvent) -> (action: WorkerAction)
    ensures
        action == (match event {
            WorkerEvent::Answered(bytes) => if bytes@.len() <= MAX_DATAGRAM {
                WorkerAction::Send(bytes)
            } else {
                WorkerAction::DropOversized
            },
            WorkerEvent::Failed => WorkerAction::WarnFailed,
            WorkerEvent::Shutdown => WorkerAction::Abort,
        }),
        forall|len: nat| sends(action, len) ==> len <= MAX_DATAGRAM,
{
    match event {
        WorkerEvent::Answered(bytes) => {
            if bytes.len() <= MAX_DATAGRAM {
                WorkerAction::Send(bytes)
            } else {
                WorkerAction::DropOversized
            }
        },
        WorkerEvent::Failed => WorkerAction::WarnFailed,
        WorkerEvent::Shutdown => WorkerAction::Abort,
    }
}

/// What the shutdown does next.
#[derive(Debug, Clone, Copy, PartialEq, Eq, Structural)]
pub enum ShutdownStep {
    /// Workers are still out: log at warn level, wait this many seconds,
    /// then count them again.
    Wait(u64),
    /// No worker is left: the server is down.
    Done,
}

/// Says what follows the broadcast of the shutdown notice. `delivered`
/// tells whether any worker was there to take it, `workers` how many are
/// still subscribed.
pub fn after_notice(delivered: bool, workers: usize) -> (step: ShutdownStep)
    ensures
        step == (if delivered && workers != 0 {
            ShutdownStep::Wait(WORKER_POLL_SECS)
        } else {
            ShutdownStep::Done
        }),
{
    if delivered {
        poll_workers(workers)
    } else {
        ShutdownStep::Done
    }
}

/// Says what follows a count of the workers that are still subscribed.
pub fn poll_workers(workers: usize) -> (step: ShutdownStep)
    ensures
        step == (if workers != 0 {
            ShutdownStep::Wait(WORKER_POLL_SECS)
        } else {
            ShutdownStep::Done
        }),
{
    if workers != 0 {
        ShutdownStep::Wait(WORKER_POLL_SECS)
    } else {
        ShutdownStep::Done
    }
}

} // verus!
