use daimonos_session::session_core::approval::{
    approval_sequence, ApprovalBroker, ApprovalError, ApprovalRequestError, ApprovalResolution,
};
use daimonos_session::session_core::approval_wait::{
    deny_failed_approval, request_approval, system_deadline_unix_ms, ApprovalDeadline,
    ApprovalWaitAction, LapsedApproval,
};
use daimonos_session::session_core::event_router::SessionEventError;
use daimonos_session::session_core::tool_lifecycle::{
    approval_denial_reason, remembers_always,
};
use daimonos_session::session_protocol::{
    ApprovalDecision, ApprovalRequest, ClientCapability, SessionEvent, TurnStatus,
};

fn request() -> ApprovalRequest {
    ApprovalRequest {
        id: String::new(),
        tool_call_id: "tool".to_string(),
        tool: "exec".to_string(),
        detail: "run tests".to_string(),
        allow_always_available: true,
        ineligible_deadline_unix_ms: None,
        deadline_paused: false,
    }
}

fn deadline(clock: u128) -> ApprovalDeadline {
    ApprovalDeadline { clock, unix_ms: (clock / 1_000_000) as u64 }
}

#[test]
fn register_exposes_pending_and_resolution_wakes_waiter() {
    let mut broker = ApprovalBroker::new(false);
    let registered = broker.register(request()).unwrap();
    let approval_id = registered.id.clone();
    assert_eq!(broker.pending(), vec![registered.clone()]);
    assert!(!registered.allow_always_available);

    let resolution = broker
        .resolve(
            &approval_id,
            "local",
            &[ClientCapability::ApproveOnce],
            ApprovalDecision::AllowOnce,
        )
        .unwrap();
    assert_eq!(broker.take_unemitted(&approval_id), Some(resolution));
    assert!(broker.pending().is_empty());
    assert_eq!(
        broker.resolve(
            &approval_id,
            "late",
            &[ClientCapability::ApproveOnce],
            ApprovalDecision::AllowOnce,
        ),
        Err(ApprovalError::AlreadyResolved)
    );
    assert_eq!(
        broker.resolve(
            "approval-999",
            "unknown",
            &[ClientCapability::ApproveOnce],
            ApprovalDecision::AllowOnce,
        ),
        Err(ApprovalError::NotPending)
    );
}

#[test]
fn resolved_but_unemitted_approval_is_claimed_by_cancellation_once() {
    let mut broker = ApprovalBroker::new(true);
    let registered = broker.register(request()).unwrap();
    let resolution = broker
        .resolve(
            &registered.id,
            "acp_local",
            &[ClientCapability::ApproveAlways],
            ApprovalDecision::AllowAlways,
        )
        .unwrap();

    assert_eq!(
        broker.cancel_all("session_cancelled"),
        vec![resolution],
        "cancellation must recover a resolution whose waiter was dropped"
    );
    assert!(broker.cancel_all("session_cancelled").is_empty());
}

#[test]
fn approve_always_only_client_is_eligible_for_available_request() {
    let mut broker = ApprovalBroker::new(true);
    let registered = broker.register(request()).unwrap();
    broker.set_eligible_client_counts(0, 1);
    assert!(broker.has_eligible_client(&registered.id));
    broker.set_eligible_client_counts(0, 0);
    assert!(!broker.has_eligible_client(&registered.id));
}

#[test]
fn recovered_allow_always_resolution_preserves_safety_side_effect() {
    assert!(remembers_always(&ApprovalResolution {
        approval_id: "approval-1".to_string(),
        tool: "exec".to_string(),
        decision: ApprovalDecision::AllowAlways,
        resolved_by: "acp_local".to_string(),
    }));
}

#[test]
fn approval_denial_reason_preserves_transport_failures() {
    let reason = approval_denial_reason(
        "exec",
        &ApprovalResolution {
            approval_id: "approval-1".to_string(),
            tool: "exec".to_string(),
            decision: ApprovalDecision::Deny,
            resolved_by: "acp_request_failed".to_string(),
        },
    );
    assert_eq!(reason, "permission request failed for 'exec'");
    assert_eq!(
        approval_denial_reason(
            "exec",
            &ApprovalResolution {
                approval_id: "approval-2".to_string(),
                tool: "exec".to_string(),
                decision: ApprovalDecision::Deny,
                resolved_by: "acp_cancelled".to_string(),
            },
        ),
        "permission request cancelled for 'exec'"
    );
}

#[test]
fn canonical_approval_waits_for_transport_independent_broker_resolution() {
    let mut broker = ApprovalBroker::new(false);
    let mut seen = Vec::new();
    let (mut wait, waiting, requested) =
        request_approval(&mut broker, request()).expect("approval registers");
    seen.push(waiting);
    seen.push(requested);
    let (announced, action) = wait.plan(&mut broker, deadline(1));
    assert!(announced.is_none());
    assert_eq!(action, ApprovalWaitAction::AwaitAnswer);
    let approval_id = wait.approval_id().to_string();
    let resolution = broker
        .resolve(
            &approval_id,
            "headless",
            &[ClientCapability::ApproveOnce],
            ApprovalDecision::AllowOnce,
        )
        .expect("headless client resolves approval");
    assert_eq!(resolution.decision, ApprovalDecision::AllowOnce);
    assert_eq!(resolution.resolved_by, "headless");
    let (resolved, running) = wait.finish(&mut broker);
    seen.extend(resolved);
    seen.push(running);
    assert!(broker.pending().is_empty());
    assert!(matches!(
        seen.as_slice(),
        [
            SessionEvent::TurnStatusChanged { status: TurnStatus::WaitingForApproval },
            SessionEvent::ApprovalRequested { .. },
            SessionEvent::ApprovalResolved { .. },
            SessionEvent::TurnStatusChanged { status: TurnStatus::Running }
        ]
    ));
}

#[test]
fn canonical_approval_timeout_denies_and_emits_once() {
    let mut broker = ApprovalBroker::new_with_timeout(false, 10_000_000);
    let mut seen = Vec::new();
    let (mut wait, waiting, requested) = request_approval(&mut broker, request()).unwrap();
    seen.push(waiting);
    seen.push(requested);
    let (announced, action) = wait.plan(&mut broker, deadline(10_000_000));
    seen.extend(announced);
    assert!(matches!(
        action,
        ApprovalWaitAction::AwaitAnswerEligibilityOrDeadline { deadline }
            if deadline.clock == 10_000_000
    ));
    let lapsed = wait.lapse(&mut broker);
    let LapsedApproval::Resolved(resolution) = lapsed else {
        panic!("the deadline denies: {lapsed:?}");
    };
    assert_eq!(resolution.decision, ApprovalDecision::Deny);
    assert_eq!(resolution.resolved_by, "approval_timeout");
    let (resolved, running) = wait.finish(&mut broker);
    seen.extend(resolved);
    seen.push(running);
    assert!(broker.pending().is_empty());
    assert_eq!(
        seen.iter()
            .filter(|event| matches!(event, SessionEvent::ApprovalResolved { .. }))
            .count(),
        1
    );
}

#[test]
fn canonical_approval_timeout_pauses_for_eligible_client() {
    let mut broker = ApprovalBroker::new_with_timeout(false, 10_000_000);
    broker.set_eligible_client_counts(1, 0);
    let (mut wait, _, _) = request_approval(&mut broker, request()).unwrap();
    let (_, action) = wait.plan(&mut broker, deadline(10_000_000));
    assert_eq!(action, ApprovalWaitAction::AwaitAnswerOrEligibility);
    let approval = broker.pending().pop().expect("approval remains pending");
    let resolution = broker
        .resolve(
            &approval.id,
            "local",
            &[ClientCapability::ApproveOnce],
            ApprovalDecision::AllowOnce,
        )
        .unwrap();
    assert_eq!(resolution.decision, ApprovalDecision::AllowOnce);
}

#[test]
fn approval_churn_does_not_extend_first_ineligible_deadline() {
    let mut broker = ApprovalBroker::new_with_timeout(false, 30_000_000);
    let (mut wait, _, _) = request_approval(&mut broker, request()).unwrap();
    let (_, first) = wait.plan(&mut broker, deadline(30_000_000));
    assert!(matches!(first, ApprovalWaitAction::AwaitAnswerEligibilityOrDeadline { .. }));
    broker.set_eligible_client_counts(1, 0);
    let (_, paused) = wait.plan(&mut broker, deadline(45_000_000));
    assert_eq!(paused, ApprovalWaitAction::AwaitAnswerOrEligibility);
    broker.set_eligible_client_counts(0, 0);
    let (_, resumed) = wait.plan(&mut broker, deadline(70_000_000));
    assert_eq!(resumed, first, "the first deadline stays");
    assert!(matches!(
        wait.lapse(&mut broker),
        LapsedApproval::Resolved(resolution) if resolution.decision == ApprovalDecision::Deny
    ));
}

#[test]
fn approval_deadline_state_is_anchored_and_paused_not_reset() {
    let mut broker = ApprovalBroker::new_with_timeout(false, 1_000_000_000);
    let (mut wait, _, _) = request_approval(&mut broker, request()).unwrap();
    wait.plan(&mut broker, deadline(1_000_000_000));
    let anchored = broker.pending().pop().unwrap();
    assert_eq!(anchored.ineligible_deadline_unix_ms, Some(1_000));
    assert!(!anchored.deadline_paused);

    broker.set_eligible_client_counts(1, 0);
    let (announced, _) = wait.plan(&mut broker, deadline(2_000_000_000));
    assert!(matches!(
        announced,
        Some(SessionEvent::ApprovalDeadlineChanged {
            ineligible_deadline_unix_ms: 1_000,
            paused: true,
            ..
        })
    ));
    let paused = broker.pending().pop().unwrap();
    assert!(paused.deadline_paused);
    assert_eq!(paused.ineligible_deadline_unix_ms, Some(1_000));

    broker.set_eligible_client_counts(0, 0);
    wait.plan(&mut broker, deadline(3_000_000_000));
    let resumed = broker.pending().pop().unwrap();
    assert!(!resumed.deadline_paused);
    assert_eq!(resumed.ineligible_deadline_unix_ms, Some(1_000));

    let resolution = broker
        .resolve(
            &anchored.id,
            "local",
            &[ClientCapability::ApproveOnce],
            ApprovalDecision::Deny,
        )
        .unwrap();
    assert_eq!(resolution.decision, ApprovalDecision::Deny);
}

#[test]
fn eligibility_restored_before_expiry_pauses_even_past_deadline() {
    let mut broker = ApprovalBroker::new_with_timeout(false, 200_000_000);
    let (mut wait, _, _) = request_approval(&mut broker, request()).unwrap();
    wait.plan(&mut broker, deadline(200_000_000));
    broker.set_eligible_client_counts(1, 0);
    let (_, action) = wait.plan(&mut broker, deadline(300_000_000));
    assert_eq!(action, ApprovalWaitAction::AwaitAnswerOrEligibility);
    let approval_id = wait.approval_id().to_string();
    assert!(
        broker.pending().iter().any(|request| request.id == approval_id),
        "eligible client pauses expiry even after anchored wall time passes"
    );
    let resolution = broker
        .resolve(
            &approval_id,
            "local",
            &[ClientCapability::ApproveOnce],
            ApprovalDecision::AllowOnce,
        )
        .unwrap();
    assert_eq!(resolution.decision, ApprovalDecision::AllowOnce);
}

#[test]
fn observer_cannot_answer_privileged_approval() {
    let mut broker = ApprovalBroker::new(false);
    let registered = broker.register(request()).unwrap();
    assert_eq!(
        broker.resolve(
            &registered.id,
            "observer",
            &[ClientCapability::Observe],
            ApprovalDecision::Deny,
        ),
        Err(ApprovalError::MissingCapability(ClientCapability::ApproveOnce))
    );
    assert_eq!(broker.pending(), vec![registered]);
}

#[test]
fn allow_always_requires_host_policy_request_option_and_capability() {
    let mut disabled = ApprovalBroker::new(false);
    let registered = disabled.register(request()).unwrap();
    assert_eq!(
        disabled.resolve(
            &registered.id,
            "remote",
            &[ClientCapability::ApproveAlways],
            ApprovalDecision::AllowAlways,
        ),
        Err(ApprovalError::AllowAlwaysUnavailable)
    );

    let mut enabled = ApprovalBroker::new(true);
    let mut unavailable = request();
    unavailable.allow_always_available = false;
    let unavailable = enabled.register(unavailable).unwrap();
    assert_eq!(
        enabled.resolve(
            &unavailable.id,
            "remote",
            &[ClientCapability::ApproveAlways],
            ApprovalDecision::AllowAlways,
        ),
        Err(ApprovalError::AllowAlwaysUnavailable)
    );

    let available = enabled.register(request()).unwrap();
    assert_eq!(
        enabled.resolve(
            &available.id,
            "remote",
            &[ClientCapability::ApproveOnce],
            ApprovalDecision::AllowAlways,
        ),
        Err(ApprovalError::MissingCapability(ClientCapability::ApproveAlways))
    );
    assert!(enabled
        .resolve(
            &available.id,
            "remote",
            &[ClientCapability::ApproveAlways],
            ApprovalDecision::AllowAlways,
        )
        .is_ok());
}

#[test]
fn first_resolution_wins_and_late_answers_are_classified() {
    let mut broker = ApprovalBroker::new(false);
    let registered = broker.register(request()).unwrap();
    broker
        .resolve(
            &registered.id,
            "local",
            &[ClientCapability::ApproveOnce],
            ApprovalDecision::Deny,
        )
        .unwrap();
    assert_eq!(
        broker.resolve(
            &registered.id,
            "remote",
            &[ClientCapability::ApproveOnce],
            ApprovalDecision::AllowOnce,
        ),
        Err(ApprovalError::AlreadyResolved)
    );
    assert_eq!(
        broker.resolve(
            "never-issued",
            "remote",
            &[ClientCapability::ApproveOnce],
            ApprovalDecision::Deny,
        ),
        Err(ApprovalError::NotPending)
    );
}

#[test]
fn broker_assigns_monotonic_ids_that_are_never_reused() {
    let mut broker = ApprovalBroker::new(false);
    let first = broker.register(request()).unwrap();
    let second = broker.register(request()).unwrap();
    assert_eq!(first.id, "approval-1");
    assert_eq!(second.id, "approval-2");
    broker
        .resolve(
            &first.id,
            "local",
            &[ClientCapability::ApproveOnce],
            ApprovalDecision::Deny,
        )
        .unwrap();
    let third = broker.register(request()).unwrap();
    assert_eq!(third.id, "approval-3");
}

#[test]
fn cancel_all_denies_every_pending_waiter() {
    let mut broker = ApprovalBroker::new(false);
    broker.register(request()).unwrap();
    broker.register(request()).unwrap();
    let resolutions = broker.cancel_all("daemon_shutdown");
    assert_eq!(resolutions.len(), 2);
    assert!(broker.pending().is_empty());
    assert_eq!(resolutions[0].decision, ApprovalDecision::Deny);
    assert_eq!(resolutions[1].decision, ApprovalDecision::Deny);
}

#[test]
fn cancel_all_preserves_numeric_approval_order() {
    let mut broker = ApprovalBroker::new(false);
    for index in 1..=12 {
        let mut request = request();
        request.tool_call_id = format!("tool-{index}");
        broker.register(request).unwrap();
    }
    let ids = broker
        .cancel_all("session_cancelled")
        .into_iter()
        .map(|resolution| resolution.approval_id)
        .collect::<Vec<_>>();
    assert_eq!(
        ids,
        (1..=12).map(|index| format!("approval-{index}")).collect::<Vec<_>>()
    );
}

#[test]
fn failed_announcement_leaves_nothing_pending() {
    let mut broker = ApprovalBroker::new(false);
    let (wait, _, _) = request_approval(&mut broker, request()).unwrap();
    let (event, error) = deny_failed_approval(
        &mut broker,
        &wait,
        "event_delivery_failed",
        SessionEventError::HandlerPanicked,
    );
    assert_eq!(event, SessionEvent::TurnStatusChanged { status: TurnStatus::Running });
    assert_eq!(error, ApprovalRequestError::Event(SessionEventError::HandlerPanicked));
    assert!(broker.pending().is_empty());
    assert!(broker.cancel_all("later").is_empty());
}

#[test]
fn closed_broker_ends_the_wait() {
    let mut broker = ApprovalBroker::new(false);
    let (wait, _, _) = request_approval(&mut broker, request()).unwrap();
    let (event, error) = wait.broker_closed();
    assert_eq!(event, SessionEvent::TurnStatusChanged { status: TurnStatus::Running });
    assert_eq!(error, ApprovalRequestError::BrokerClosed);
}

#[test]
fn approval_ids_read_back_as_their_numbers() {
    assert_eq!(approval_sequence("approval-12"), 12);
    assert_eq!(approval_sequence("approval-"), u64::MAX);
    assert_eq!(approval_sequence("other"), u64::MAX);
}

#[test]
fn allow_always_consents_need_every_condition() {
    let mut broker = ApprovalBroker::new(true);
    let registered = broker.register(request()).unwrap();
    assert!(registered.allow_always_available);
    assert!(broker
        .resolve(
            &registered.id,
            "remote",
            &[ClientCapability::ApproveAlways],
            ApprovalDecision::AllowAlways,
        )
        .is_ok());
}

#[test]
fn deadlines_are_whole_milliseconds_since_the_epoch() {
    assert_eq!(system_deadline_unix_ms(Some(1_999_999)), 1);
    assert_eq!(system_deadline_unix_ms(None), 0);
    assert_eq!(system_deadline_unix_ms(Some(u128::MAX)), u64::MAX);
}

#[test]
fn failed_announcement_leaves_other_resolutions_to_be_told() {
    let mut broker = ApprovalBroker::new(false);
    let (first, _, _) = request_approval(&mut broker, request()).unwrap();
    let (second, _, _) = request_approval(&mut broker, request()).unwrap();
    for wait in [&first, &second] {
        broker
            .resolve(
                wait.approval_id(),
                "client",
                &[ClientCapability::ApproveOnce],
                ApprovalDecision::AllowOnce,
            )
            .unwrap();
    }
    deny_failed_approval(&mut broker, &first, "host", SessionEventError::SequenceExhausted);
    let (told, _) = second.finish(&mut broker);
    assert!(matches!(
        told,
        Some(SessionEvent::ApprovalResolved { decision: ApprovalDecision::AllowOnce, .. })
    ));
    let (told, _) = first.finish(&mut broker);
    assert_eq!(told, None);
}
