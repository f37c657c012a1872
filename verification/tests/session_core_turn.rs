use std::cell::RefCell;

use daimonos_session::session_core::compaction::SessionCompaction;
use daimonos_session::session_core::event_router::SessionEventRouter;
use daimonos_session::session_core::turn::{TurnCancel, TurnController, TurnError};
use daimonos_session::session_core::{HistoryMutationError, SessionCore};
use daimonos_session::session_protocol::{
    ApprovalDecision, ApprovalRequest, AssistantOutcome, ContextUsage, SessionEvent, TurnStatus,
};

fn new_core() -> SessionCore<u64> {
    SessionCore::new(
        "model".to_string(),
        "medium".to_string(),
        "/workspace".to_string(),
        SessionCompaction::new(None, false),
        None,
    )
}

fn status(event: SessionEvent) -> TurnStatus {
    match event {
        SessionEvent::TurnStatusChanged { status } => status,
        other => panic!("not a status: {other:?}"),
    }
}

#[test]
fn turn_controller_rejects_overlap_and_routes_cancellation() {
    let mut controller = TurnController::new();
    let active = controller.begin().expect("first turn starts");
    assert!(controller.is_active());
    assert!(matches!(controller.begin(), Err(TurnError::Busy)));
    assert!(controller.cancel());
    assert!(controller.is_cancelled(&active));
    assert_eq!(controller.end(active), TurnStatus::Cancelled);
    assert!(!controller.is_active());
}

#[test]
fn cancellation_signal_does_not_leak_into_the_next_turn() {
    let mut controller = TurnController::new();
    let first = controller.begin().expect("first turn starts");
    assert!(controller.cancel());
    assert!(controller.is_cancelled(&first));
    controller.end(first);

    let second = controller.begin().expect("second turn starts");
    assert!(!controller.is_cancelled(&second));
    assert!(controller.cancel());
    assert!(controller.is_cancelled(&second));
}

#[test]
fn dropping_active_turn_clears_slot_and_idle_cancel_is_safe() {
    let mut controller = TurnController::new();
    assert!(!controller.cancel());
    {
        let active = controller.begin().expect("turn starts");
        assert!(controller.is_active());
        controller.end(active);
    }
    assert!(!controller.is_active());
    assert!(controller.begin().is_ok());
}

#[test]
fn cancelled_turn_ends_on_cancelled_after_cancelling() {
    let mut core = new_core();
    let mut statuses = Vec::new();
    let (turn, started) = core.begin_turn().expect("turn starts");
    statuses.push(status(started));
    let (cancelled, event) = core.cancel_turn();
    assert!(cancelled);
    statuses.push(status(event.expect("the first cancel is announced")));
    assert!(core.turn.is_cancelled(&turn));
    statuses.push(status(core.end_turn(turn)));
    assert_eq!(
        statuses,
        vec![TurnStatus::Running, TurnStatus::Cancelling, TurnStatus::Cancelled],
    );
}

#[test]
fn cancel_after_completion_is_refused_and_turn_ends_idle() {
    let mut core = new_core();
    let mut statuses = Vec::new();
    let (turn, started) = core.begin_turn().expect("turn starts");
    statuses.push(status(started));
    core.turn.complete(&turn);
    let (cancelled, event) = core.cancel_turn();
    assert!(!cancelled);
    assert!(event.is_none());
    statuses.push(status(core.end_turn(turn)));
    assert_eq!(statuses, vec![TurnStatus::Running, TurnStatus::Idle]);
}

#[test]
fn repeated_cancel_emits_cancelling_once() {
    let mut core = new_core();
    let mut statuses = Vec::new();
    let (turn, _) = core.begin_turn().expect("turn starts");
    for _ in 0..2 {
        let (cancelled, event) = core.cancel_turn();
        assert!(cancelled);
        if let Some(event) = event {
            statuses.push(status(event));
        }
    }
    statuses.push(status(core.end_turn(turn)));
    assert_eq!(
        statuses,
        vec![TurnStatus::Cancelling, TurnStatus::Cancelled],
        "exactly one Cancelling for two cancel calls"
    );
}

#[test]
fn completed_turn_ends_on_idle() {
    let mut core = new_core();
    let (turn, started) = core.begin_turn().expect("turn starts");
    let statuses = vec![status(started), status(core.end_turn(turn))];
    assert_eq!(statuses, vec![TurnStatus::Running, TurnStatus::Idle]);
}

fn request() -> ApprovalRequest {
    ApprovalRequest {
        id: String::new(),
        tool_call_id: "tool".to_string(),
        tool: "exec".to_string(),
        detail: "run tests".to_string(),
        allow_always_available: true,
        ineligible_deadline_unix_ms: None,
        deadline_paused: false,
    }
}

#[test]
fn completed_error_turn_has_one_fully_ordered_canonical_sequence() {
    let seen: RefCell<Vec<SessionEvent>> = RefCell::new(Vec::new());
    let mut router: SessionEventRouter<()> = SessionEventRouter::new(Some(()));
    let hook = |_: &(), _: u64, event: &SessionEvent| {
        seen.borrow_mut().push(event.clone());
        false
    };
    let mut core = new_core();
    let (turn, started) = core.begin_turn().expect("turn starts");
    router.emit(started, &hook).unwrap();
    router.emit(SessionEvent::AssistantDelta { text: "partial".to_string() }, &hook).unwrap();
    router
        .emit(SessionEvent::TurnStatusChanged { status: TurnStatus::WaitingForApproval }, &hook)
        .unwrap();
    router.emit(SessionEvent::ApprovalRequested { request: request() }, &hook).unwrap();
    let resolved = SessionEvent::ApprovalResolved {
        approval_id: "approval-1".to_string(),
        decision: ApprovalDecision::Deny,
        resolved_by: "acp_local".to_string(),
    };
    router.emit(resolved, &hook).unwrap();
    router.emit(SessionEvent::TurnStatusChanged { status: TurnStatus::Running }, &hook).unwrap();
    core.mark_completed(&turn);
    let usage = core.publish_context_usage(ContextUsage::new(10, Some(100), 10, Some(72)));
    router.emit(usage, &hook).unwrap();
    let done = core.record_outcome(AssistantOutcome::Errored {
        context_overflow: true,
        message: "context exceeded".to_string(),
    });
    router.emit(done, &hook).unwrap();
    router.emit(core.end_turn(turn), &hook).unwrap();
    assert_eq!(
        seen.into_inner(),
        vec![
            SessionEvent::TurnStatusChanged { status: TurnStatus::Running },
            SessionEvent::AssistantDelta { text: "partial".to_string() },
            SessionEvent::TurnStatusChanged { status: TurnStatus::WaitingForApproval },
            SessionEvent::ApprovalRequested { request: request() },
            SessionEvent::ApprovalResolved {
                approval_id: "approval-1".to_string(),
                decision: ApprovalDecision::Deny,
                resolved_by: "acp_local".to_string(),
            },
            SessionEvent::TurnStatusChanged { status: TurnStatus::Running },
            SessionEvent::ContextUsageChanged {
                usage: ContextUsage::new(10, Some(100), 10, Some(72)),
            },
            SessionEvent::AssistantDone {
                outcome: AssistantOutcome::Errored {
                    context_overflow: true,
                    message: "context exceeded".to_string(),
                },
            },
            SessionEvent::TurnStatusChanged { status: TurnStatus::Idle },
        ]
    );
}

#[test]
fn history_mutation_and_turn_exclude_each_other() {
    let mut core = new_core();
    core.acquire_mutation().expect("no turn is active");
    assert!(core.begin_turn().is_err());
    assert_eq!(core.acquire_mutation(), Err(HistoryMutationError::Busy));
    core.release_mutation();
    let (turn, _) = core.begin_turn().expect("the mutation is over");
    assert_eq!(core.acquire_mutation(), Err(HistoryMutationError::Busy));
    core.end_turn(turn);
    assert!(core.acquire_mutation().is_ok());
    assert_eq!(HistoryMutationError::Busy.message(), "session is busy");
}

#[test]
fn first_claim_on_a_turn_decides_its_end() {
    let mut controller = TurnController::new();
    let turn = controller.begin().unwrap();
    controller.cancel();
    controller.complete(&turn);
    assert_eq!(controller.request_cancel(), TurnCancel::Repeated);
    assert!(controller.cancel_with(|| panic!("the turn was cancelled before")));
    let foreign = TurnController::new().begin().unwrap();
    let mut idle = TurnController::new();
    assert!(!idle.cancel_with(|| panic!("no turn runs")));
    assert_eq!(idle.end(foreign), TurnStatus::Idle);
    assert_eq!(controller.end(turn), TurnStatus::Cancelled);
}
