//! The scheduling decisions behind the recurring daily reindex: what to do
//! when the process starts, when the daily timer ticks, and when a run ends.
//! The timer thread itself is I/O and lives with the host application; it
//! feeds events into `scheduler_step` and performs the action handed back.

use vstd::prelude::*;

verus! {

/// Whether a reindex run is currently executing.
#[derive(Clone, Copy, PartialEq, Eq, Structural, Debug)]
pub enum SchedulerState {
    Idle,
    Running,
}

/// What the host observed: process start, the daily timer firing, or a run
/// ending in success or in a contained failure.
#[derive(Clone, Copy, PartialEq, Eq, Structural, Debug)]
pub enum SchedulerEvent {
    Startup,
    Tick,
    RunCompleted,
    RunFailed,
}

/// What the host must do next.
#[derive(Clone, Copy, PartialEq, Eq, Structural, Debug)]
pub enum SchedulerAction {
    StartRun,
    Wait,
}

/// The transition relation. Process start and every daily tick launch a run,
/// whether or not another run is still executing: concurrent runs are
/// independent cycles and deliberately not serialized. A run that ends —
/// also one that failed — returns the scheduler to idle and never tears the
/// timer down.
pub open spec fn step_spec(s: SchedulerState, e: SchedulerEvent) -> (SchedulerState,
    SchedulerAction) {
    match e {
        SchedulerEvent::Startup => (SchedulerState::Running, SchedulerAction::StartRun),
        SchedulerEvent::Tick => (SchedulerState::Running, SchedulerAction::StartRun),
        SchedulerEvent::RunCompleted => (SchedulerState::Idle, SchedulerAction::Wait),
        SchedulerEvent::RunFailed => (SchedulerState::Idle, SchedulerAction::Wait),
    }
}

/// Decides the next state and action for one observed event.
pub fn scheduler_step(s: SchedulerState, e: SchedulerEvent) -> (r: (
    SchedulerState,
    SchedulerAction,
))
    ensures
        r == step_spec(s, e),
{
    match e {
        SchedulerEvent::Startup => (SchedulerState::Running, SchedulerAction::StartRun),
        SchedulerEvent::Tick => (SchedulerState::Running, SchedulerAction::StartRun),
        SchedulerEvent::RunCompleted => (SchedulerState::Idle, SchedulerAction::Wait),
        SchedulerEvent::RunFailed => (SchedulerState::Idle, SchedulerAction::Wait),
    }
}

/// Law (schedule survives failure): from any state, a failed run leaves the
/// scheduler idle, and the next daily tick starts a fresh run as if the
/// failure had not happened. A failing run can never tear the schedule down.
pub proof fn lemma_schedule_survives_failure(s: SchedulerState)
    ensures
        step_spec(s, SchedulerEvent::RunFailed).0 == SchedulerState::Idle,
        step_spec(step_spec(s, SchedulerEvent::RunFailed).0, SchedulerEvent::Tick).1
            == SchedulerAction::StartRun,
{
}

} // verus!
