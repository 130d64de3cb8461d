use simple_parallel::protocol::{worker_step, WorkerEvent, WorkerState};

#[test]
fn worker_walks_the_request_execute_cycle() {
    let s = WorkerState::Idle;
    let s = worker_step(s, WorkerEvent::SendRequest);
    assert_eq!(s, WorkerState::RequestSent);
    let s = worker_step(s, WorkerEvent::ReceiveAssignment);
    assert_eq!(s, WorkerState::Assigned);
    let s = worker_step(s, WorkerEvent::BeginExecute);
    assert_eq!(s, WorkerState::Executing);
    let s = worker_step(s, WorkerEvent::FinishExecute);
    assert_eq!(s, WorkerState::Idle);
    let s = worker_step(s, WorkerEvent::SendRequest);
    let s = worker_step(s, WorkerEvent::ReceiveEndMarker);
    assert_eq!(s, WorkerState::Terminated);
}

#[test]
fn closed_channel_terminates_from_any_state() {
    for s in [
        WorkerState::Idle,
        WorkerState::RequestSent,
        WorkerState::Assigned,
        WorkerState::Executing,
        WorkerState::Terminated,
    ] {
        assert_eq!(worker_step(s, WorkerEvent::ChannelClosed), WorkerState::Terminated);
    }
}

#[test]
fn terminated_worker_stays_terminated() {
    for e in [
        WorkerEvent::SendRequest,
        WorkerEvent::ReceiveAssignment,
        WorkerEvent::ReceiveEndMarker,
        WorkerEvent::ChannelClosed,
        WorkerEvent::BeginExecute,
        WorkerEvent::FinishExecute,
    ] {
        assert_eq!(worker_step(WorkerState::Terminated, e), WorkerState::Terminated);
    }
}

#[test]
fn mismatched_events_leave_the_state_alone() {
    assert_eq!(worker_step(WorkerState::Idle, WorkerEvent::FinishExecute), WorkerState::Idle);
    assert_eq!(
        worker_step(WorkerState::Executing, WorkerEvent::SendRequest),
        WorkerState::Executing
    );
    assert_eq!(
        worker_step(WorkerState::Assigned, WorkerEvent::ReceiveAssignment),
        WorkerState::Assigned
    );
}
