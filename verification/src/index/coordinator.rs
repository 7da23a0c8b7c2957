//! The decisions of the index coordinator's loop: which signal it answers
//! and how, when it drains, and when it runs a recovery sweep of all
//! sources, backing off after each one.

use vstd::prelude::*;

verus! {

/// How long, in milliseconds, the coordinator waits after the `step`-th
/// recovery sweep in a row before the next one: one minute, five minutes,
/// half an hour, then the six hours between safety sweeps.
pub open spec fn backoff_millis(step: usize) -> u64 {
    if step == 0 {
        60000
    } else if step == 1 {
        300000
    } else if step == 2 {
        1800000
    } else {
        21600000
    }
}

/// The delay after the `step`-th recovery sweep in a row, in milliseconds.
pub fn full_sweep_backoff(step: usize) -> (r: u64)
    ensures
        r == backoff_millis(step),
{
    if step == 0 {
        60000
    } else if step == 1 {
        300000
    } else if step == 2 {
        1800000
    } else {
        21600000
    }
}

/// What the coordinator's loop remembers between signals.
#[derive(Clone, Copy, Debug, PartialEq, Eq, Structural)]
pub struct CoordinatorState {
    pub draining: bool,
    pub watch_open: bool,
    pub commands_open: bool,
    pub recovery_requested: bool,
    pub recovery_backoff: usize,
    pub next_recovery_sweep_millis: u64,
}

/// What the source watcher reports.
#[derive(Debug)]
pub enum WatchSignal {
    Paths(Vec<String>),
    Reconcile,
    Degraded(String),
    Closed,
}

/// One signal the loop waits for.
#[derive(Debug)]
pub enum CoordinatorEvent {
    /// Shutdown was requested.
    Shutdown,
    /// A scan finished.
    Completion,
    /// A reader asked for one session to be brought up to date.
    EnsureSession(String),
    /// The command channel closed.
    CommandsClosed,
    /// The source watcher spoke.
    Watch(WatchSignal),
    /// The periodic safety sweep is due.
    SafetySweep,
    /// The periodic refresh of hot sessions is due.
    HotRefresh,
    /// The scheduler's tick.
    Tick,
}

/// What the loop does with a signal.
#[derive(Debug)]
pub enum EventAction {
    Nothing,
    HandleCompletion,
    EnsureSession(String),
    HandlePaths(Vec<String>),
    AuditHotSessions,
}

/// The outcome of one signal: the next state, what to do with the signal,
/// and whether to run the scheduler afterwards.
#[derive(Debug)]
pub struct StepOutcome {
    pub state: CoordinatorState,
    pub action: EventAction,
    pub schedule: bool,
}

/// The loop's state when it starts: listening, with a recovery sweep
/// allowed at once but not requested.
pub fn coordinator_start(now_millis: u64) -> (r: CoordinatorState)
    ensures
        r == (CoordinatorState {
            draining: false,
            watch_open: true,
            commands_open: true,
            recovery_requested: false,
            recovery_backoff: 0,
            next_recovery_sweep_millis: now_millis,
        }),
{
    CoordinatorState {
        draining: false,
        watch_open: true,
        commands_open: true,
        recovery_requested: false,
        recovery_backoff: 0,
        next_recovery_sweep_millis: now_millis,
    }
}

/// The state after a signal. Shutdown starts draining; while draining,
/// commands, watcher signals and sweeps are no longer listened to. A closed
/// channel is no longer listened to. A request to reconcile, a degraded
/// watcher and a safety sweep ask for a recovery sweep; a safety sweep also
/// resets the backoff and makes the sweep due at once.
pub open spec fn step_state(s: CoordinatorState, e: CoordinatorEvent, now_millis: u64) -> CoordinatorState {
    match e {
        CoordinatorEvent::Shutdown => if !s.draining { CoordinatorState { draining: true, ..s } } else { s },
        CoordinatorEvent::CommandsClosed => if s.commands_open && !s.draining {
            CoordinatorState { commands_open: false, ..s }
        } else {
            s
        },
        CoordinatorEvent::Watch(w) => if s.watch_open && !s.draining {
            match w {
                WatchSignal::Reconcile => CoordinatorState { recovery_requested: true, ..s },
                WatchSignal::Degraded(_) => CoordinatorState { recovery_requested: true, ..s },
                WatchSignal::Closed => CoordinatorState { watch_open: false, ..s },
                WatchSignal::Paths(_) => s,
            }
        } else {
            s
        },
        CoordinatorEvent::SafetySweep => if !s.draining {
            CoordinatorState { recovery_requested: true, recovery_backoff: 0, next_recovery_sweep_millis: now_millis, ..s }
        } else {
            s
        },
        _ => s,
    }
}

/// What the loop does with a signal: a finished scan is always handled; a
/// session request and changed paths while listening; hot sessions are
/// audited when no cycle is running and the loop is not draining.
pub open spec fn step_action(s: CoordinatorState, e: CoordinatorEvent, cycle_idle: bool) -> EventAction {
    match e {
        CoordinatorEvent::Completion => EventAction::HandleCompletion,
        CoordinatorEvent::EnsureSession(id) => if s.commands_open && !s.draining {
            EventAction::EnsureSession(id)
        } else {
            EventAction::Nothing
        },
        CoordinatorEvent::Watch(WatchSignal::Paths(p)) => if s.watch_open && !s.draining {
            EventAction::HandlePaths(p)
        } else {
            EventAction::Nothing
        },
        CoordinatorEvent::HotRefresh => if !s.draining && cycle_idle {
            EventAction::AuditHotSessions
        } else {
            EventAction::Nothing
        },
        _ => EventAction::Nothing,
    }
}

/// Takes one signal. `cycle_idle` tells whether no indexing cycle is
/// running. The scheduler runs after every signal unless the loop drains.
pub fn coordinator_step(state: CoordinatorState, event: CoordinatorEvent, now_millis: u64, cycle_idle: bool) -> (r: StepOutcome)
    ensures
        r.state == step_state(state, event, now_millis),
        r.action == step_action(state, event, cycle_idle),
        r.schedule == !r.state.draining,
{
    let s = state;
    let (next, action) = match event {
        CoordinatorEvent::Shutdown => if !s.draining {
            (CoordinatorState { draining: true, ..s }, EventAction::Nothing)
        } else {
            (s, EventAction::Nothing)
        },
        CoordinatorEvent::Completion => (s, EventAction::HandleCompletion),
        CoordinatorEvent::EnsureSession(id) => if s.commands_open && !s.draining {
            (s, EventAction::EnsureSession(id))
        } else {
            (s, EventAction::Nothing)
        },
        CoordinatorEvent::CommandsClosed => if s.commands_open && !s.draining {
            (CoordinatorState { commands_open: false, ..s }, EventAction::Nothing)
        } else {
            (s, EventAction::Nothing)
        },
        CoordinatorEvent::Watch(w) => if s.watch_open && !s.draining {
            match w {
                WatchSignal::Paths(p) => (s, EventAction::HandlePaths(p)),
                WatchSignal::Reconcile => (CoordinatorState { recovery_requested: true, ..s }, EventAction::Nothing),
                WatchSignal::Degraded(_) => (CoordinatorState { recovery_requested: true, ..s }, EventAction::Nothing),
                WatchSignal::Closed => (CoordinatorState { watch_open: false, ..s }, EventAction::Nothing),
            }
        } else {
            (s, EventAction::Nothing)
        },
        CoordinatorEvent::SafetySweep => if !s.draining {
            (
                CoordinatorState { recovery_requested: true, recovery_backoff: 0, next_recovery_sweep_millis: now_millis, ..s },
                EventAction::Nothing,
            )
        } else {
            (s, EventAction::Nothing)
        },
        CoordinatorEvent::HotRefresh => if !s.draining && cycle_idle {
            (s, EventAction::AuditHotSessions)
        } else {
            (s, EventAction::Nothing)
        },
        CoordinatorEvent::Tick => (s, EventAction::Nothing),
    };
    let schedule = !next.draining;
    StepOutcome { state: next, action, schedule }
}

/// Whether a recovery sweep starts now: the loop is not draining, one was
/// requested, no cycle is running and its backoff has passed.
pub fn sweep_due(state: CoordinatorState, cycle_idle: bool, now_millis: u64) -> (r: bool)
    ensures
        r == (!state.draining && state.recovery_requested && cycle_idle && now_millis >= state.next_recovery_sweep_millis),
{
    !state.draining && state.recovery_requested && cycle_idle && now_millis >= state.next_recovery_sweep_millis
}

/// The state once a recovery sweep is applied: another one is requested
/// when discovery met problems, and it waits for the next backoff step.
pub fn sweep_done(state: CoordinatorState, issues_found: bool, now_millis: u64) -> (r: CoordinatorState)
    ensures
        r == (CoordinatorState {
            recovery_requested: issues_found,
            recovery_backoff: if state.recovery_backoff == usize::MAX { usize::MAX } else { (state.recovery_backoff + 1) as usize },
            next_recovery_sweep_millis: if now_millis + backoff_millis(state.recovery_backoff) > u64::MAX {
                u64::MAX
            } else {
                (now_millis + backoff_millis(state.recovery_backoff)) as u64
            },
            ..state
        }),
{
    let delay = full_sweep_backoff(state.recovery_backoff);
    CoordinatorState {
        recovery_requested: issues_found,
        recovery_backoff: state.recovery_backoff.saturating_add(1),
        next_recovery_sweep_millis: now_millis.saturating_add(delay),
        ..state
    }
}

/// Whether the loop ends: it drains and no scan is in flight.
pub fn coordinator_finished(state: CoordinatorState, inflight_empty: bool) -> (r: bool)
    ensures
        r == (state.draining && inflight_empty),
{
    state.draining && inflight_empty
}

} // verus!
