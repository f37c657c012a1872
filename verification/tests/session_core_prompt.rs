use daimonos_session::providers::{ContentBlock, Message, Role};
use daimonos_session::session_core::compaction::{CompactionPolicy, SessionCompaction};
use daimonos_session::session_core::provider_error::{
    canonical_assistant_outcome, error_has_http_status, error_has_token,
    safe_provider_error_message, sanitize_provider_error, StopReason, TurnResult,
};
use daimonos_session::session_core::reconstruction::reconstruct_timeline;
use daimonos_session::session_core::tool_lifecycle::CanonicalToolLifecycle;
use daimonos_session::session_core::{
    align_client_user_message_ids, occupied_tokens, RuntimeChange, RuntimeConfigError,
    SessionCore, SessionPromptError, SessionPromptOutcome,
};
use daimonos_session::session_protocol::{
    AssistantOutcome, RuntimeChoice, RuntimeOption, RuntimeValue, SessionEvent,
    TimelineEntryKind, ToolCallStateStatus, TurnStatus,
};
use daimonos_session::session_timeline::TimelineReducer;

fn new_core(compaction: SessionCompaction<u64>) -> SessionCore<u64> {
    SessionCore::new(
        "test-model".to_string(),
        "medium".to_string(),
        "/workspace".to_string(),
        compaction,
        None,
    )
}

fn turn() -> TurnResult {
    TurnResult {
        stop_reason: StopReason::EndTurn,
        context_overflow: false,
        error_message: None,
        last_call_prompt_tokens: 4,
        last_call_output_tokens: 2,
    }
}

#[test]
fn prompt_execution_is_transport_independent() {
    let mut core = new_core(SessionCompaction::new(None, false));
    core.admit_prompt(0, Some("request-1")).expect("the request is new");
    let start = core
        .start_prompt(None, "ping".to_string(), Some("request-1".to_string()), None)
        .expect("prompt starts without a frontend connection");
    assert!(start.events.iter().any(|event| matches!(
        event,
        SessionEvent::UserMessage { text, request_id: Some(request_id) }
            if text == "ping" && request_id == "request-1"
    )));
    let finish = core.finish_prompt(
        Some(turn()),
        AssistantOutcome::Completed,
        Some("request-1".to_string()),
        1,
        start.context_window,
        None,
    );
    assert!(matches!(finish.outcome, SessionPromptOutcome::Completed(_)));
    assert!(finish.persist);
    assert!(finish.events.iter().any(|event| matches!(
        event,
        SessionEvent::AssistantDone { outcome: AssistantOutcome::Completed }
    )));
    assert!(core.has_completed_request("request-1"));
    assert_eq!(
        core.admit_prompt(1, Some("request-1")),
        Err(SessionPromptError::DuplicateRequest("request-1".to_string()))
    );
    assert_eq!(core.current_context_usage.unwrap().prompt_tokens, 6);
}

#[test]
fn cancelled_prompt_leaves_the_books_alone() {
    let mut core = new_core(SessionCompaction::new(None, false));
    let finish =
        core.finish_prompt(None, AssistantOutcome::Completed, Some("id".to_string()), 1, None, None);
    assert_eq!(finish.outcome, SessionPromptOutcome::Cancelled);
    assert!(!finish.persist);
    assert!(finish.events.is_empty());
    assert!(!core.has_completed_request("id"));
}

#[test]
fn prompt_prefix_is_streamed_behind_the_message() {
    let mut core = new_core(SessionCompaction::new(None, false));
    let start = core
        .start_prompt(None, "go".to_string(), None, Some("Sure: ".to_string()))
        .unwrap();
    assert_eq!(
        start.events,
        vec![
            SessionEvent::UserMessage { text: "go".to_string(), request_id: None },
            SessionEvent::AssistantDelta { text: "Sure: ".to_string() },
        ]
    );
}

fn policy() -> CompactionPolicy<f64> {
    CompactionPolicy {
        high_water: 0.8,
        low_water: 0.5,
        context_window: 100,
        output_reservation: 10,
        summary_model: None,
        summary_prompt: None,
    }
}

#[test]
fn session_compaction_updates_only_provider_following_windows() {
    let dynamic = SessionCompaction::new(Some(policy()), true);
    assert_eq!(
        dynamic.policy_for("model", Some(200)).unwrap().unwrap().context_window,
        200
    );
    let fixed = SessionCompaction::new(Some(policy()), false);
    assert_eq!(
        fixed.policy_for("model", Some(200)).unwrap().unwrap().context_window,
        100
    );
}

#[test]
fn unusable_windows_are_refused_before_a_prompt_is_announced() {
    let follows = CompactionPolicy {
        high_water: 8,
        low_water: 5,
        context_window: 100,
        output_reservation: 10,
        summary_model: None,
        summary_prompt: None,
    };
    let mut core = new_core(SessionCompaction::new(Some(follows), true));
    let refused = core.start_prompt(None, "hi".to_string(), None, None);
    assert!(matches!(refused, Err(SessionPromptError::Model(text)) if text.contains("test-model")));
    let refused = core.start_prompt(Some(10), "hi".to_string(), None, None);
    assert!(matches!(refused, Err(SessionPromptError::Model(_))));
    assert_eq!(core.cached_window("test-model"), Some(10));
}

#[test]
fn windows_that_are_known_are_not_asked_again() {
    let mut core = new_core(SessionCompaction::new(None, true));
    core.prepare_model("test-model", Some(500)).unwrap();
    let (_, window) = core.prepare_model("test-model", Some(900)).unwrap();
    assert_eq!(window, Some(500));
    assert_eq!(core.cached_window("other"), None);
}

#[test]
fn request_ids_are_kept_one_for_each_user_turn() {
    let mut ids = vec!["a".to_string(), "b".to_string(), "c".to_string()];
    align_client_user_message_ids(&mut ids, 2);
    assert_eq!(ids, vec!["b".to_string(), "c".to_string()]);
    align_client_user_message_ids(&mut ids, 3);
    assert_eq!(ids, vec![String::new(), "b".to_string(), "c".to_string()]);
    assert_eq!(occupied_tokens(u64::MAX, 1), u64::MAX);
    assert_eq!(occupied_tokens(4, 2), 6);
}

fn model_option() -> RuntimeOption {
    RuntimeOption::select(
        "model",
        "Model",
        RuntimeValue::String("test-model".to_string()),
        vec![
            RuntimeChoice::new("test-model", "test-model"),
            RuntimeChoice::new("other", "other"),
        ],
    )
}

#[test]
fn runtime_options_are_checked_before_they_change() {
    let mut core = new_core(SessionCompaction::new(None, false));
    core.set_runtime_options(vec![
        model_option(),
        RuntimeOption::boolean("verbose", "Verbose", RuntimeValue::Bool(false)),
    ]);
    let other = RuntimeValue::String("other".to_string());
    assert_eq!(
        core.apply_runtime_option("model", &other),
        Ok(RuntimeChange::Model("other".to_string()))
    );
    assert_eq!(
        core.apply_runtime_option("missing", &other),
        Err(RuntimeConfigError::UnknownOption)
    );
    assert_eq!(
        core.apply_runtime_option("model", &RuntimeValue::String("unknown".to_string())),
        Err(RuntimeConfigError::InvalidValue)
    );
    assert_eq!(
        core.apply_runtime_option("verbose", &RuntimeValue::Bool(true)),
        Err(RuntimeConfigError::UnsupportedOption)
    );
    let (_turn, _) = core.begin_turn().unwrap();
    assert_eq!(core.apply_runtime_option("model", &other), Err(RuntimeConfigError::Busy));
}

#[test]
fn committed_option_is_announced_with_the_others() {
    let mut core = new_core(SessionCompaction::new(None, false));
    core.set_runtime_options(vec![model_option()]);
    let event = core.commit_runtime_option(
        model_option(),
        RuntimeValue::String("other".to_string()),
    );
    let SessionEvent::RuntimeOptionsChanged { options } = event else {
        panic!("options are announced");
    };
    assert_eq!(options[0].value, RuntimeValue::String("other".to_string()));
    assert_eq!(core.runtime_options[0].value, RuntimeValue::String("other".to_string()));
}

#[test]
fn clearing_an_empty_history_changes_nothing() {
    let mut core = new_core(SessionCompaction::new(None, false));
    assert!(!core.clear_history(true));
    core.record_outcome(AssistantOutcome::Completed);
    assert!(core.clear_history(false));
    assert!(core.assistant_outcomes.is_empty());
    assert!(core.client_user_message_ids.is_empty());
}

#[test]
fn restored_duplicate_tool_ids_update_newest_nonterminal_occurrence() {
    let mut timeline = TimelineReducer::new(8);
    timeline.start_reconstructed_tool(
        "duplicate".to_string(),
        "first".to_string(),
        "first".to_string(),
    );
    timeline.start_reconstructed_tool(
        "duplicate".to_string(),
        "second".to_string(),
        "second".to_string(),
    );
    timeline.update_reconstructed_tool(
        "duplicate",
        ToolCallStateStatus::Completed,
        "first output".to_string(),
    );
    assert!(matches!(
        &timeline.timeline()[1].entry,
        TimelineEntryKind::Tool { output: Some(output), .. } if output == "first output"
    ));
}

#[test]
fn reconstructed_timeline_matches_live_event_fold() {
    let history = vec![
        Message::user("question"),
        Message {
            role: Role::Assistant,
            content: vec![
                ContentBlock::Text("before".to_string()),
                ContentBlock::ToolCall {
                    id: "call_0".to_string(),
                    name: "read".to_string(),
                    input: "{}".to_string(),
                },
            ],
        },
        Message {
            role: Role::User,
            content: vec![ContentBlock::ToolResult {
                tool_use_id: "call_0".to_string(),
                content: "ok".to_string(),
                is_error: false,
            }],
        },
        Message::assistant("after"),
    ];
    let lifecycle = CanonicalToolLifecycle::new(4);
    let mut restored_core: SessionCore<u64> = SessionCore::new(
        "model".to_string(),
        "medium".to_string(),
        "/workspace".to_string(),
        SessionCompaction::new(None, false),
        None,
    );
    restored_core.assistant_outcomes = vec![AssistantOutcome::Completed];
    let restored = restored_core.initial_snapshot(
        "session-1".to_string(),
        32,
        &history,
        "interrupted",
        &lifecycle,
        0,
        Vec::new(),
    );
    let mut live = TimelineReducer::new(32);
    for event in [
        SessionEvent::UserMessage { text: "question".to_string(), request_id: None },
        SessionEvent::AssistantDelta { text: "before".to_string() },
        SessionEvent::ToolCallStarted {
            id: "call_0".to_string(),
            name: "read".to_string(),
            title: "read".to_string(),
            input_summary: None,
        },
        SessionEvent::ToolCallUpdated {
            id: "call_0".to_string(),
            status: ToolCallStateStatus::InProgress,
        },
        SessionEvent::ToolCallFinished {
            id: "call_0".to_string(),
            status: ToolCallStateStatus::Completed,
            output: "ok".to_string(),
        },
        SessionEvent::AssistantDelta { text: "after".to_string() },
        SessionEvent::AssistantDone { outcome: AssistantOutcome::Completed },
    ] {
        live.apply(event);
    }

    assert_eq!(restored.timeline.as_slice(), live.timeline());
    assert_eq!(restored.active_tools.as_slice(), live.active_tools());
    assert_eq!(restored.history_window, *live.history_window());
    assert_eq!(restored.turn_status, TurnStatus::Idle);
}

#[test]
fn restored_calls_without_an_answer_are_cancelled() {
    let history = vec![
        Message::user("first"),
        Message {
            role: Role::Assistant,
            content: vec![ContentBlock::ToolCall {
                id: "dangling".to_string(),
                name: "read_file".to_string(),
                input: "{\"path\":\"README.md\"}".to_string(),
            }],
        },
    ];
    let lifecycle = CanonicalToolLifecycle::new(4);
    let timeline = reconstruct_timeline(&history, &[], 32, "interrupted", &lifecycle);
    assert!(matches!(
        timeline.timeline()[1].entry,
        TimelineEntryKind::Tool { status: ToolCallStateStatus::Cancelled, .. }
    ));
    assert!(timeline.active_tools().is_empty());
}

#[test]
fn provider_errors_are_told_in_fixed_words() {
    assert!(error_has_token("request timeout after 3s", "timeout"));
    assert!(!error_has_token("timeouts happen", "timeout"));
    assert!(error_has_http_status("got http 429 back", "429"));
    let secret = safe_provider_error_message(false, Some("HTTP 401: key sk-123 is wrong"));
    assert!(!secret.contains("sk-123"));
    assert_ne!(secret, safe_provider_error_message(true, None));
    assert_eq!(canonical_assistant_outcome(&turn()), AssistantOutcome::Completed);
    let mut errored = turn();
    errored.stop_reason = StopReason::Error;
    errored.error_message = Some("HTTP 429 too many".to_string());
    assert!(matches!(
        canonical_assistant_outcome(&errored),
        AssistantOutcome::Errored { context_overflow: false, message } if !message.is_empty()
    ));
    errored.stop_reason = StopReason::Refusal;
    assert_eq!(canonical_assistant_outcome(&errored), AssistantOutcome::Refused);
    errored.stop_reason = StopReason::Aborted;
    assert_eq!(canonical_assistant_outcome(&errored), AssistantOutcome::Aborted);
    errored.stop_reason = StopReason::MaxTokens;
    assert_eq!(canonical_assistant_outcome(&errored), AssistantOutcome::MaxTokens);
    assert!(sanitize_provider_error(&"x".repeat(100_000)).len() < 100_000);
}

#[test]
fn prompt_errors_have_texts() {
    assert_eq!(SessionPromptError::Busy.message(), "session is busy");
}

#[test]
fn adopted_model_carries_the_usage_as_an_estimate() {
    let mut core = new_core(SessionCompaction::new(None, false));
    core.adopt_model("other-model".to_string());
    assert_eq!(core.current_model(), "other-model");
    let event = core.publish_carried_usage(70, Some(100), None);
    let SessionEvent::ContextUsageChanged { usage } = event else {
        panic!("the usage is told");
    };
    assert_eq!(usage.prompt_tokens, 70);
    assert!(usage.estimated);
    // The observed occupancy stands against a later estimate.
    core.publish_carried_usage(10, Some(200), None);
    assert_eq!(core.current_context_usage.unwrap().prompt_tokens, 70);
    core.adopt_thinking("high".to_string());
    assert_eq!(core.current_thinking, "high");
}

#[test]
fn option_is_rechecked_against_a_turn_that_started() {
    let mut core = new_core(SessionCompaction::new(None, false));
    let mut option = model_option();
    option.mutable_while_running = false;
    assert_eq!(core.recheck_runtime_option(&option), Ok(()));
    let _turn = core.begin_turn().unwrap();
    assert_eq!(core.recheck_runtime_option(&option), Err(RuntimeConfigError::Busy));
    option.mutable_while_running = true;
    assert_eq!(core.recheck_runtime_option(&option), Ok(()));
}

#[test]
fn context_message_ignores_case_and_separators() {
    let told = safe_provider_error_message(true, None);
    for error in [
        "context_length_exceeded",
        "Context-Length-Exceeded",
        "CONTEXT LENGTH EXCEEDED",
        "Error: `context`_Window was   exceeded!",
        "Maximum-Context_Length is 8192",
    ] {
        assert_eq!(safe_provider_error_message(false, Some(error)), told);
    }
    assert_ne!(safe_provider_error_message(false, Some("context/length/exceeded")), told);
    assert_eq!(
        safe_provider_error_message(false, Some("HTTP 429 Too Many")),
        safe_provider_error_message(false, Some("http 429 too many"))
    );
}
