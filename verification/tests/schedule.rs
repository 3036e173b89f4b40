use resource_indexer::schedule::SchedulerAction;
use resource_indexer::schedule::SchedulerEvent;
use resource_indexer::schedule::SchedulerState;
use resource_indexer::schedule::scheduler_step;

#[test]
fn startup_launches_a_run() {
    let (state, action) = scheduler_step(SchedulerState::Idle, SchedulerEvent::Startup);
    assert_eq!(state, SchedulerState::Running);
    assert_eq!(action, SchedulerAction::StartRun);
}

#[test]
fn tick_launches_a_run_even_while_running() {
    let (state, action) = scheduler_step(SchedulerState::Running, SchedulerEvent::Tick);
    assert_eq!(state, SchedulerState::Running);
    assert_eq!(action, SchedulerAction::StartRun);
}

#[test]
fn completion_returns_to_idle() {
    let (state, action) = scheduler_step(SchedulerState::Running, SchedulerEvent::RunCompleted);
    assert_eq!(state, SchedulerState::Idle);
    assert_eq!(action, SchedulerAction::Wait);
}

#[test]
fn failure_is_contained_and_schedule_survives() {
    let (state, action) = scheduler_step(SchedulerState::Running, SchedulerEvent::RunFailed);
    assert_eq!(state, SchedulerState::Idle);
    assert_eq!(action, SchedulerAction::Wait);
    let (state2, action2) = scheduler_step(state, SchedulerEvent::Tick);
    assert_eq!(state2, SchedulerState::Running);
    assert_eq!(action2, SchedulerAction::StartRun);
}
