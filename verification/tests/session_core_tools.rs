use daimonos_session::session_core::approval::{ApprovalBroker, ApprovalRequestError};
use daimonos_session::session_core::approval_wait::{request_approval, resolution_to_event};
use daimonos_session::session_core::cleanup_cancelled_turn;
use daimonos_session::session_core::tool_lifecycle::{
    approval_required, bounded_tool_output, title_from_command, tool_call_title, BeforeHookResult,
    CanonicalToolLifecycle, Gate, GateStep, ToolCallInfo,
};
use daimonos_session::session_protocol::{
    ApprovalDecision, ClientCapability, SessionEvent, ToolCallStateStatus,
};

fn info(id: &str, name: &str, input: &str) -> ToolCallInfo {
    ToolCallInfo { id: id.to_string(), name: name.to_string(), input: input.to_string() }
}

/// Runs a call that needs no approval up to its authorization.
fn before(
    lifecycle: &mut CanonicalToolLifecycle,
    info: &ToolCallInfo,
    seen: &mut Vec<SessionEvent>,
) -> BeforeHookResult {
    match lifecycle.reserve(info) {
        Err(reason) => BeforeHookResult::Block(reason),
        Ok(started) => {
            seen.push(started);
            let GateStep::Decided(decision) =
                CanonicalToolLifecycle::gate_reserved(info, Gate::Allow)
            else {
                panic!("an allowed call asks nobody");
            };
            let (updated, finished) = lifecycle.settle_authorization(info, &decision);
            seen.push(updated);
            seen.extend(finished);
            decision
        }
    }
}

#[test]
fn canonical_tool_lifecycle_runs_without_any_frontend_connection() {
    let mut seen = Vec::new();
    let mut lifecycle = CanonicalToolLifecycle::new(4);
    let info = info("tool-1", "read_file", "{\"path\":\"README.md\"}");
    assert!(matches!(before(&mut lifecycle, &info, &mut seen), BeforeHookResult::Allow));
    seen.extend(lifecycle.finish(&info, "contents", false));
    assert!(lifecycle.finish(&info, "duplicate", false).is_none());
    assert!(matches!(
        seen.as_slice(),
        [
            SessionEvent::ToolCallStarted { id, .. },
            SessionEvent::ToolCallUpdated {
                id: updated_id,
                status: ToolCallStateStatus::InProgress,
            },
            SessionEvent::ToolCallFinished {
                id: finished_id,
                status: ToolCallStateStatus::Completed,
                output,
            }
        ] if id == "tool-1"
            && updated_id == "tool-1"
            && finished_id == "tool-1"
            && output == "contents"
    ));
}

#[test]
fn canonical_tool_output_is_utf8_safe_and_bounded_before_emit() {
    let mut seen = Vec::new();
    let mut lifecycle = CanonicalToolLifecycle::new_with_output_limit(1, 64);
    let info = info("tool-1", "read_file", "{\"path\":\"large\"}");
    assert!(matches!(before(&mut lifecycle, &info, &mut seen), BeforeHookResult::Allow));
    seen.extend(lifecycle.finish(&info, &"🙂\0".repeat(100), false));
    let output = seen.iter().find_map(|event| match event {
        SessionEvent::ToolCallFinished { output, .. } => Some(output),
        _ => None,
    });
    let output = output.expect("terminal tool event");
    assert!(output.len() <= 64);
    assert!(output.contains("[tool output truncated]"));
    assert!(std::str::from_utf8(output.as_bytes()).is_ok());
}

#[test]
fn canonical_tool_lifecycle_enforces_duplicate_and_capacity_bounds() {
    let mut seen = Vec::new();
    let mut lifecycle = CanonicalToolLifecycle::new(1);
    let first = info("tool-1", "read_file", "{\"path\":\"README.md\"}");
    let second = info("tool-2", "read_file", "{\"path\":\"AGENTS.md\"}");
    assert!(matches!(before(&mut lifecycle, &first, &mut seen), BeforeHookResult::Allow));
    assert!(matches!(
        before(&mut lifecycle, &first, &mut seen),
        BeforeHookResult::Block(reason) if reason.contains("already active")
    ));
    assert!(matches!(
        before(&mut lifecycle, &second, &mut seen),
        BeforeHookResult::Block(reason) if reason.contains("active tool-call limit")
    ));
    assert!(lifecycle.finish(&first, "done", false).is_some());
}

#[test]
fn canonical_exec_title_is_safe_while_approval_detail_is_specific() {
    let mut seen = Vec::new();
    let mut broker = ApprovalBroker::new(false);
    let mut lifecycle = CanonicalToolLifecycle::new(1);
    let info = info("tool-1", "exec", "{\"command\":\"printf sensitive-value\"}");
    seen.push(lifecycle.reserve(&info).unwrap());
    let GateStep::AskApproval(request) =
        CanonicalToolLifecycle::gate_reserved(&info, Gate::NeedsApproval)
    else {
        panic!("an approval is needed");
    };
    let (wait, waiting, requested) = request_approval(&mut broker, request).unwrap();
    seen.push(waiting);
    seen.push(requested);
    let approval_id = wait.approval_id().to_string();
    let resolution = broker
        .resolve(
            &approval_id,
            "test_client",
            &[ClientCapability::ApproveOnce],
            ApprovalDecision::Deny,
        )
        .unwrap();
    let (resolved, running) = wait.finish(&mut broker);
    seen.extend(resolved);
    seen.push(running);
    let (decision, remember) = CanonicalToolLifecycle::approval_outcome(&info, Ok(resolution));
    assert!(matches!(decision, BeforeHookResult::Block(_)));
    assert!(!remember);
    let (failed, finished) = lifecycle.settle_authorization(&info, &decision);
    seen.push(failed);
    seen.extend(finished);
    assert!(seen.iter().any(|event| matches!(
        event,
        SessionEvent::ToolCallStarted { title, .. } if title == "exec"
    )));
    assert!(seen.iter().any(|event| matches!(
        event,
        SessionEvent::ApprovalRequested { request }
            if request.detail == "printf sensitive-value"
    )));
}

#[test]
fn canonical_reservation_rejects_before_emitting_a_second_start() {
    let mut lifecycle = CanonicalToolLifecycle::new(1);
    let first = info("tool-1", "read_file", "{\"path\":\"README.md\"}");
    let second = info("tool-2", "read_file", "{\"path\":\"AGENTS.md\"}");
    let started = lifecycle.reserve(&first).expect("first reservation");
    assert!(matches!(started, SessionEvent::ToolCallStarted { .. }));
    assert!(lifecycle.reserve(&first).is_err(), "duplicate id must fail");
    assert!(lifecycle.reserve(&second).is_err(), "capacity must fail");
}

#[test]
fn titles_name_commands_from_their_arguments() {
    assert_eq!(tool_call_title(&info("1", "exec", "{\"command\":\"ls -la\"}")), "ls -la");
    assert_eq!(tool_call_title(&info("1", "exec", "{\"path\":\"x\"}")), "exec");
    assert_eq!(tool_call_title(&info("1", "exec", "not json")), "exec");
    assert_eq!(tool_call_title(&info("1", "read_file", "{\"command\":\"ls\"}")), "read_file");
    assert_eq!(title_from_command("exec", Some("make".to_string())), "make");
}

#[test]
fn outputs_within_their_bound_are_kept() {
    assert_eq!(bounded_tool_output("short", 64), "short");
    let cut = bounded_tool_output(&"x".repeat(100), 40);
    assert!(cut.len() <= 40);
    assert_ne!(cut, "x".repeat(100));
}

#[test]
fn gates_decide_who_is_asked() {
    assert!(approval_required(&Gate::NeedsApproval));
    assert!(!approval_required(&Gate::Allow));
    assert!(!approval_required(&Gate::Block("no".to_string())));
    let call = info("tool-1", "exec", "{}");
    assert!(matches!(
        CanonicalToolLifecycle::gate_reserved(&call, Gate::Block("blocked".to_string())),
        GateStep::Decided(BeforeHookResult::Block(reason)) if reason == "blocked"
    ));
    let (decision, remember) = CanonicalToolLifecycle::approval_outcome(
        &call,
        Err(ApprovalRequestError::BrokerClosed),
    );
    assert!(matches!(
        decision,
        BeforeHookResult::Block(reason) if reason == "permission broker unavailable for 'exec'"
    ));
    assert!(!remember);
}

#[test]
fn cancelled_turn_settles_approvals_and_tools() {
    let mut broker = ApprovalBroker::new(true);
    let mut lifecycle = CanonicalToolLifecycle::new(4);
    let call = info("tool-1", "exec", "{}");
    lifecycle.reserve(&call).unwrap();
    let GateStep::AskApproval(request) =
        CanonicalToolLifecycle::gate_reserved(&call, Gate::NeedsApproval)
    else {
        panic!("an approval is needed");
    };
    let registered = broker.register(request).unwrap();
    let resolution = broker
        .resolve(
            &registered.id,
            "local",
            &[ClientCapability::ApproveAlways],
            ApprovalDecision::AllowAlways,
        )
        .unwrap();
    let (events, remembered) = cleanup_cancelled_turn(&mut broker, &mut lifecycle);
    assert_eq!(events[0], resolution_to_event(resolution));
    assert!(events.iter().any(|event| matches!(
        event,
        SessionEvent::ToolCallFinished { id, status: ToolCallStateStatus::Cancelled, .. }
            if id == "tool-1"
    )));
    assert_eq!(remembered, vec!["exec".to_string()]);
    assert!(broker.pending().is_empty());
    assert!(lifecycle.finish(&call, "late", false).is_none());
}
