use daimonos_session::providers::Message;
use daimonos_session::session_core::approval::ApprovalBroker;
use daimonos_session::session_core::compaction::SessionCompaction;
use daimonos_session::session_core::event_router::SessionEventRouter;
use daimonos_session::session_core::turn::TurnError;
use daimonos_session::session_core::{
    HistoryMutationError, RuntimeChange, RuntimeConfigError, SessionCore, SessionPromptError,
};
use daimonos_session::session_daemon::capability::CapabilityPolicy;
use daimonos_session::session_daemon::connection::{
    admit_turn, clear_reply, config_reply, interrupt_reply, stop_reply, stopped_revocation,
    usage_reply, Connection, ConnectionAction, OutgoingAction,
};
use daimonos_session::session_daemon::handshake::{greet, welcome, Introduction};
use daimonos_session::session_daemon::lifecycle::finish_removed_entry;
use daimonos_session::session_daemon::registry::{Attachment, SessionDaemon};
use daimonos_session::session_daemon::snapshot_state::SnapshotState;
use daimonos_session::session_protocol::{
    ApprovalDecision, ApprovalRequest, AssistantOutcome, ClientCapability, ClientInfo, ClientKind,
    ClientMessage, ContextUsage, ProtocolLimits, RevocationCode, RuntimeChoice, RuntimeOption,
    RuntimeValue, ServerMessage, SessionEvent, SessionUsage, TurnStatus, PROTOCOL_VERSION,
};
use daimonos_session::session_store::{SaveCapture, SessionStore};

fn limits() -> ProtocolLimits {
    ProtocolLimits {
        max_frame_bytes: 1024 * 1024,
        max_prompt_bytes: 4_096,
        max_identifier_bytes: 128,
        max_label_bytes: 64,
        max_ticket_bytes: 256,
        max_runtime_value_bytes: 256,
        max_capabilities: 8,
    }
}

fn new_core() -> SessionCore<u64> {
    SessionCore::new(
        "test-model".to_string(),
        "medium".to_string(),
        "/workspace".to_string(),
        SessionCompaction::new(None, false),
        None,
    )
}

/// A daemon with one session, and the session's events and snapshot.
struct Scene {
    daemon: SessionDaemon<u8>,
    router: SessionEventRouter<u8>,
    snapshot: SnapshotState,
}

impl Scene {
    fn new() -> Self {
        let mut daemon = SessionDaemon::new(1, 1, 8, 32);
        daemon.create_session("session-1".to_string(), 7, Ok(())).expect("session");
        Scene {
            daemon,
            router: SessionEventRouter::new_with_replay(None, 8),
            snapshot: SnapshotState::new("session-1".to_string(), 32),
        }
    }

    fn emit(&mut self, event: SessionEvent) -> ServerMessage {
        let seq = self.router.emit(event.clone(), |_, _, _| false).unwrap();
        self.snapshot.apply(seq, event.clone());
        ServerMessage::Event { seq, event }
    }

    fn attach(
        &mut self,
        client_id: &str,
        capabilities: Vec<ClientCapability>,
    ) -> (Attachment, Connection, Vec<ServerMessage>) {
        let introduction = greet(
            ClientMessage::Attach {
                protocol_version: PROTOCOL_VERSION,
                session_id: Some("session-1".to_string()),
                ticket: None,
                client: ClientInfo {
                    id: client_id.to_string(),
                    kind: ClientKind::Terminal,
                    label: "local terminal".to_string(),
                },
                requested_capabilities: capabilities,
            },
            &limits(),
            &CapabilityPolicy::local_trusted(),
        )
        .unwrap();
        let Introduction { client, granted_capabilities, .. } = introduction;
        let attachment =
            self.daemon.attach("session-1", client, &granted_capabilities).expect("attached");
        let observes = attachment.attached.has_capability(ClientCapability::Observe);
        let shown = observes.then(|| self.snapshot.snapshot.clone());
        let welcome = welcome(
            "session-1".to_string(),
            granted_capabilities.clone(),
            None,
            shown,
            self.router.latest_sequence(),
        );
        let connection =
            Connection::new(client_id.to_string(), granted_capabilities, welcome.snapshot_sequence);
        let mut messages = vec![welcome.attach_ok];
        messages.extend(welcome.state);
        (attachment, connection, messages)
    }

    fn stop(&mut self) -> ServerMessage {
        let instance = self.daemon.current_instance("session-1").unwrap();
        let entry = self.daemon.remove_session("session-1", instance).unwrap();
        assert!(entry.stopped);
        let (_, ending) = finish_removed_entry(entry, "stopped");
        self.emit(ending)
    }
}

#[test]
fn attach_existing_session_then_detach_leaves_session_running() {
    let mut scene = Scene::new();
    let (attachment, connection, messages) =
        scene.attach("terminal-1", vec![ClientCapability::Observe, ClientCapability::Prompt]);
    assert!(matches!(
        &messages[0],
        ServerMessage::AttachOk { session_id, granted_capabilities, seq: 0, .. }
            if session_id == "session-1"
                && *granted_capabilities
                    == vec![ClientCapability::Observe, ClientCapability::Prompt]
    ));
    assert_eq!(
        connection.on_message(Some(ClientMessage::Detach), false, &limits()),
        ConnectionAction::Close
    );
    scene.daemon.detach(&attachment.attached, 1);
    assert_eq!(scene.daemon.attached_client_count("session-1"), Some(0));
    assert_eq!(scene.daemon.session("session-1"), Some(&7));
}

#[test]
fn stopping_session_revokes_attached_client() {
    let mut scene = Scene::new();
    let (_, connection, messages) = scene.attach("terminal-1", vec![ClientCapability::Observe]);
    assert!(matches!(messages[1], ServerMessage::Snapshot { .. }));
    let queued = scene.stop();
    assert!(matches!(
        &queued,
        ServerMessage::Event { event: SessionEvent::SessionEnding { .. }, .. }
    ));
    assert!(!connection.covers(&queued));
    assert!(matches!(
        stopped_revocation(),
        ServerMessage::Revoked { code: Some(RevocationCode::SessionStopped), reason }
            if reason == "session stopped"
    ));
    assert!(matches!(
        connection.on_outgoing(&Some(queued), false, true),
        OutgoingAction::ForwardThenRevoke(ServerMessage::Revoked { .. })
    ));
}

#[test]
fn stopped_session_rejects_prompt_racing_end_event() {
    let mut scene = Scene::new();
    let (_, connection, _) =
        scene.attach("terminal-1", vec![ClientCapability::Observe, ClientCapability::Prompt]);
    scene.stop();
    let late = ClientMessage::Prompt {
        request_id: "too-late".to_string(),
        text: "must not run".to_string(),
    };
    assert_eq!(
        connection.on_message(Some(late), true, &limits()),
        ConnectionAction::DrainAndRevoke
    );
    assert_eq!(admit_turn(true, Some(1)), Err(SessionPromptError::Stopped));
    assert!(scene.daemon.session("session-1").is_none());
}

#[test]
fn granted_stop_message_ends_daemon_owned_session() {
    let mut scene = Scene::new();
    let (_, connection, _) =
        scene.attach("terminal-1", vec![ClientCapability::Observe, ClientCapability::Stop]);
    let action = connection.on_message(
        Some(ClientMessage::StopSession { request_id: "stop-1".to_string() }),
        false,
        &limits(),
    );
    let ConnectionAction::StopSession { request_id } = action else {
        panic!("the session is stopped: {action:?}");
    };
    let ending = scene.stop();
    assert!(matches!(
        stop_reply(request_id, Some(true)),
        ServerMessage::CommandResult { request_id, operation, changed: true }
            if request_id == "stop-1" && operation == "stop_session"
    ));
    assert!(matches!(
        ending,
        ServerMessage::Event { event: SessionEvent::SessionEnding { .. }, .. }
    ));
    assert!(scene.daemon.session("session-1").is_none());
}

fn model_option() -> RuntimeOption {
    RuntimeOption::select(
        "model",
        "Model",
        RuntimeValue::String("test-model".to_string()),
        vec![
            RuntimeChoice::new("test-model", "test-model"),
            RuntimeChoice::new("model-b", "model-b"),
        ],
    )
}

#[test]
fn set_config_applies_model_and_projects_runtime_options() {
    let mut core = new_core();
    let thinking = RuntimeOption::select(
        "thinking",
        "Thinking",
        RuntimeValue::String("medium".to_string()),
        vec![RuntimeChoice::new("medium", "medium"), RuntimeChoice::new("high", "high")],
    );
    core.set_runtime_options(vec![model_option(), thinking.clone()]);
    core.publish_context_usage(ContextUsage::new(50, Some(100), 0, None));

    let value = RuntimeValue::String("model-b".to_string());
    let change = core.apply_runtime_option("model", &value).unwrap();
    assert_eq!(change, RuntimeChange::Model("model-b".to_string()));
    let (_, window) = core.prepare_model("model-b", Some(200)).unwrap();
    core.current_model = "model-b".to_string();
    let used = core.carried_tokens(3);
    let usage = core.context_usage(used, window, None).mark_estimated();
    let SessionEvent::ContextUsageChanged { usage } = core.publish_context_usage(usage) else {
        panic!("usage is told");
    };
    assert_eq!(usage.prompt_tokens, 50);
    assert_eq!(usage.model_context_window, Some(200));
    assert!(usage.estimated);
    let SessionEvent::RuntimeOptionsChanged { options } =
        core.commit_runtime_option(model_option(), value.clone())
    else {
        panic!("options are told");
    };
    assert_eq!(options[0].value, value);
    assert!(matches!(
        config_reply(Some("model-change".to_string()), Ok(())),
        Some(ServerMessage::CommandResult { request_id, operation, changed: true })
            if request_id == "model-change" && operation == "set_config"
    ));
    let high = RuntimeValue::String("high".to_string());
    assert_eq!(
        core.apply_runtime_option("thinking", &high),
        Ok(RuntimeChange::Thinking("high".to_string()))
    );
    let SessionEvent::RuntimeOptionsChanged { options } =
        core.commit_runtime_option(thinking, high.clone())
    else {
        panic!("options are told");
    };
    assert!(options.iter().any(|option| option.id == "thinking" && option.value == high));
    assert_eq!(core.current_model(), "model-b");
}

#[test]
fn runtime_config_rejects_invalid_values_and_active_turn_changes() {
    let mut core = new_core();
    core.set_runtime_options(vec![model_option()]);
    assert_eq!(
        core.apply_runtime_option("model", &RuntimeValue::String("not-listed".to_string())),
        Err(RuntimeConfigError::InvalidValue)
    );
    assert!(core
        .apply_runtime_option("model", &RuntimeValue::String("model-b".to_string()))
        .is_ok());
    assert_eq!(core.carried_tokens(12), 12, "restored history must not render as empty");

    let (_turn, _) = core.begin_turn().expect("begin turn");
    assert!(core.turn_is_active());
    assert_eq!(
        core.apply_runtime_option("model", &RuntimeValue::String("test-model".to_string())),
        Err(RuntimeConfigError::Busy)
    );
}

#[test]
fn canonical_clear_resets_memory_persistence_and_snapshot() {
    let mut scene = Scene::new();
    let mut store = SessionStore::new("/sessions".to_string());
    let mut core = new_core();
    core.client_user_message_ids = vec!["request-1".to_string()];
    core.assistant_outcomes = vec![AssistantOutcome::Completed];
    let capture = |messages: Vec<Message>, core: &SessionCore<u64>| SaveCapture {
        model: "test-model".to_string(),
        thinking: "medium".to_string(),
        messages,
        cwd: "/workspace".to_string(),
        client_user_message_ids: core.client_user_message_ids.clone(),
        assistant_outcomes: core.assistant_outcomes.clone(),
    };
    let history = vec![Message::user("before"), Message::assistant("answer")];
    store.save_acp("session-1", capture(history, &core), 1);
    scene.emit(SessionEvent::UserMessage { text: "before".to_string(), request_id: None });

    core.acquire_mutation().unwrap();
    assert!(core.mutation_is_active());
    assert!(matches!(core.begin_turn(), Err(TurnError::Busy)));
    assert!(core.clear_history(false));
    store.save_acp("session-1", capture(Vec::new(), &core), 2);
    scene.emit(SessionEvent::ConversationCleared);
    core.release_mutation();

    assert!(!core.mutation_is_active());
    let record = store.load("session-1").unwrap();
    assert!(record.messages.is_empty());
    assert!(record.client_user_message_ids.is_empty());
    assert!(record.assistant_outcomes.is_empty());
    assert!(scene.snapshot.snapshot.transcript.is_empty());
    core.acquire_mutation().unwrap();
    assert!(!core.clear_history(true));
}

#[test]
fn clear_and_usage_commands_are_daemon_authoritative() {
    let mut scene = Scene::new();
    scene.emit(SessionEvent::UserMessage { text: "before".to_string(), request_id: None });
    let initial_transcript_id = scene.snapshot.snapshot.transcript[0].id;
    let usage = SessionUsage {
        input: 0,
        output: 0,
        reasoning_output: 0,
        thinking_bytes: 0,
        cache_read: 0,
        cache_write: 0,
        cost_usd_micros: 0,
    };
    assert!(matches!(
        usage_reply("usage-1".to_string(), Some(usage)),
        ServerMessage::Usage { request_id, usage }
            if request_id == "usage-1"
                && usage.input == 0
                && usage.output == 0
                && usage.cost_usd_micros == 0
    ));
    scene.emit(SessionEvent::ConversationCleared);
    assert!(matches!(
        clear_reply("clear-1".to_string(), Ok(true)),
        ServerMessage::CommandResult { request_id, operation, changed: true }
            if request_id == "clear-1" && operation == "clear_history"
    ));
    assert!(matches!(
        clear_reply("clear-2".to_string(), Err(HistoryMutationError::Busy)),
        ServerMessage::Error { code, .. } if code == "session_busy"
    ));
    scene.emit(SessionEvent::UserMessage { text: "after".to_string(), request_id: None });
    assert!(scene.snapshot.snapshot.transcript[0].id > initial_transcript_id);
}

#[test]
fn interrupt_capability_cancels_active_turn_without_stopping_session() {
    let mut scene = Scene::new();
    let mut core = new_core();
    let (_, connection, _) = scene.attach(
        "terminal-1",
        vec![ClientCapability::Observe, ClientCapability::Prompt, ClientCapability::Interrupt],
    );
    let (turn, running) = core.begin_turn().unwrap();
    scene.emit(running);
    let action = connection.on_message(
        Some(ClientMessage::Interrupt { request_id: Some("prompt-1".to_string()) }),
        false,
        &limits(),
    );
    let ConnectionAction::Interrupt { request_id } = action else {
        panic!("the turn is interrupted: {action:?}");
    };
    let (changed, cancelling) = core.cancel_turn();
    assert!(interrupt_reply(request_id, changed).is_some());
    scene.emit(cancelling.unwrap());
    let terminal = core.end_turn(turn);
    assert_eq!(terminal, SessionEvent::TurnStatusChanged { status: TurnStatus::Cancelled });
    scene.emit(terminal);
    assert_eq!(scene.snapshot.snapshot.turn_status, TurnStatus::Cancelled);
    assert!(scene.daemon.session("session-1").is_some());
}

#[test]
fn completed_turn_refuses_a_late_cancel() {
    let mut core = new_core();
    let (turn, _) = core.begin_turn().unwrap();
    core.mark_completed(&turn);
    assert_eq!(core.cancel_turn(), (false, None));
    assert_eq!(
        core.end_turn(turn),
        SessionEvent::TurnStatusChanged { status: TurnStatus::Idle }
    );
}

#[test]
fn approval_response_resolves_broker_with_attached_client_identity() {
    let mut scene = Scene::new();
    let mut approvals = ApprovalBroker::new(false);
    let registered = approvals
        .register(ApprovalRequest::unassigned("tool-1", "exec", "cargo test", false))
        .unwrap();
    let (attachment, connection, _) = scene
        .attach("terminal-1", vec![ClientCapability::Observe, ClientCapability::ApproveOnce]);
    let action = connection.on_message(
        Some(ClientMessage::ApprovalResponse {
            approval_id: registered.id.clone(),
            decision: ApprovalDecision::AllowOnce,
        }),
        false,
        &limits(),
    );
    let ConnectionAction::ResolveApproval { approval_id, decision } = action else {
        panic!("the answer is taken: {action:?}");
    };
    let resolution = approvals
        .resolve(
            &approval_id,
            attachment.attached.client_id(),
            attachment.attached.capabilities(),
            decision,
        )
        .unwrap();
    assert_eq!(resolution.decision, ApprovalDecision::AllowOnce);
    assert_eq!(resolution.resolved_by, "terminal-1");
}

#[test]
fn reconnect_receives_equivalent_full_snapshot() {
    let mut scene = Scene::new();
    scene.emit(SessionEvent::UserMessage { text: "ping".to_string(), request_id: None });
    scene.emit(SessionEvent::AssistantDelta { text: "po".to_string() });
    scene.emit(SessionEvent::AssistantDelta { text: "ng".to_string() });
    scene.emit(SessionEvent::AssistantDone {
        outcome: AssistantOutcome::Errored {
            context_overflow: false,
            message: "provider unavailable".to_string(),
        },
    });
    let mut snapshots = Vec::new();
    for client_number in 1..=2 {
        let (attachment, _, messages) = scene
            .attach(&format!("terminal-{client_number}"), vec![ClientCapability::Observe]);
        assert!(matches!(messages[0], ServerMessage::AttachOk { seq: 4, .. }));
        let ServerMessage::Snapshot { seq, state } = &messages[1] else {
            panic!("attach must return a full snapshot");
        };
        assert_eq!(*seq, 4);
        snapshots.push(state.clone());
        scene.daemon.detach(&attachment.attached, client_number);
    }
    assert_eq!(snapshots[0], snapshots[1]);
    assert_eq!(snapshots[0].transcript.len(), 2);
    assert_eq!(snapshots[0].transcript[0].text, "ping");
    assert_eq!(snapshots[0].transcript[1].text, "pong");
    assert!(matches!(
        snapshots[0].transcript[1].outcome,
        Some(AssistantOutcome::Errored { .. })
    ));
}

#[test]
fn attached_client_receives_canonical_session_events() {
    let mut scene = Scene::new();
    let (_, connection, _) = scene.attach("terminal-1", vec![ClientCapability::Observe]);
    let queued = scene.emit(SessionEvent::AssistantDelta { text: "hello".to_string() });
    assert_eq!(connection.on_outgoing(&Some(queued), false, false), OutgoingAction::Forward);
}
