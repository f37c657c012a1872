use daimonos_session::session_core::approval::ApprovalError;
use daimonos_session::session_core::event_router::{SessionEventError, SessionReplay};
use daimonos_session::session_core::{
    HistoryMutationError, RuntimeConfigError, SessionPromptError,
};
use daimonos_session::session_daemon::capability::{CapabilityPolicy, ConnectionTrust};
use daimonos_session::session_daemon::connection::{
    admit_turn, approval_reply, clear_reply, config_reply, interrupt_reply, listing_reply,
    prompt_failure, stop_reply, usage_reply, Connection, ConnectionAction, OutgoingAction,
};
use daimonos_session::session_daemon::handshake::{
    greet, needs_snapshot, refusal, settle_snapshot, welcome,
};
use daimonos_session::session_daemon::listing::SessionListPageError;
use daimonos_session::session_daemon::snapshot_state::SnapshotState;
use daimonos_session::session_daemon::wire_errors::{
    client_request_key, prompt_error, session_daemon_error_code, session_daemon_error_message,
    session_delete_error_message,
};
use daimonos_session::session_daemon::{SessionDaemonError, SessionOpenError};
use daimonos_session::session_protocol::{
    AttachDeniedCode, ClientCapability, ClientInfo, ClientKind, ClientMessage, ProtocolLimits,
    RevocationCode, RuntimeValue, ServerMessage, SessionEvent, SessionUsage, PROTOCOL_VERSION,
};

fn limits() -> ProtocolLimits {
    ProtocolLimits {
        max_frame_bytes: 1024 * 1024,
        max_prompt_bytes: 4_096,
        max_identifier_bytes: 128,
        max_label_bytes: 64,
        max_ticket_bytes: 256,
        max_runtime_value_bytes: 256,
        max_capabilities: 8,
    }
}

fn terminal_client() -> ClientInfo {
    ClientInfo {
        id: "terminal-1".to_string(),
        kind: ClientKind::Terminal,
        label: "terminal".to_string(),
    }
}

fn attach(capabilities: Vec<ClientCapability>) -> ClientMessage {
    ClientMessage::Attach {
        protocol_version: PROTOCOL_VERSION,
        session_id: Some("session-1".to_string()),
        ticket: None,
        client: terminal_client(),
        requested_capabilities: capabilities,
    }
}

fn connection(capabilities: Vec<ClientCapability>) -> Connection {
    Connection::new("terminal-1".to_string(), capabilities, None)
}

fn everything() -> Vec<ClientCapability> {
    vec![
        ClientCapability::Observe,
        ClientCapability::Prompt,
        ClientCapability::Configure,
        ClientCapability::Interrupt,
        ClientCapability::Stop,
    ]
}

fn error_of(message: ServerMessage) -> (Option<String>, String, String) {
    match message {
        ServerMessage::Error { request_id, code, message } => (request_id, code, message),
        other => panic!("not an error: {other:?}"),
    }
}

#[test]
fn typed_open_failures_keep_wire_diagnostics_privacy_safe() {
    for error in [
        SessionOpenError::NotFound,
        SessionOpenError::UnsafeId,
        SessionOpenError::FutureVersion,
        SessionOpenError::UnsupportedVersion,
        SessionOpenError::Corrupt,
        SessionOpenError::Permission,
        SessionOpenError::Io,
        SessionOpenError::WorkspaceUnknown,
        SessionOpenError::WorkspaceMismatch,
        SessionOpenError::Internal,
    ] {
        let daemon_error = SessionDaemonError::OpenFailed(error);
        assert_eq!(
            session_daemon_error_message(&daemon_error),
            "session could not be opened"
        );
        assert_eq!(
            session_daemon_error_code(&daemon_error),
            AttachDeniedCode::SessionOpenFailed
        );
    }
    assert_eq!(
        session_delete_error_message(),
        "persisted session could not be deleted"
    );
}

#[test]
fn client_request_dedup_keys_are_unambiguous() {
    assert_ne!(client_request_key("a:b", "c"), client_request_key("a", "b:c"));
    assert_eq!(client_request_key("a:b", "c"), client_request_key("a:b", "c"));
    assert_eq!(client_request_key("a:b", "c"), "3:a:bc");
}

#[test]
fn connection_rejects_any_first_message_other_than_attach() {
    let refused = greet(ClientMessage::Ping, &limits(), &CapabilityPolicy::local_trusted());
    assert!(matches!(
        refused,
        Err(ServerMessage::AttachDenied {
            code: Some(AttachDeniedCode::InvalidMessage),
            reason,
        }) if reason.contains("first message must be attach")
    ));
}

#[test]
fn introductions_are_checked_before_anything_is_opened() {
    let policy = CapabilityPolicy::local_trusted();
    let mut other = attach(Vec::new());
    if let ClientMessage::Attach { protocol_version, .. } = &mut other {
        *protocol_version = 7;
    }
    assert!(matches!(
        greet(other, &limits(), &policy),
        Err(ServerMessage::AttachDenied { code: Some(AttachDeniedCode::ProtocolVersion), reason })
            if reason == "unsupported protocol version 7; expected 2"
    ));
    assert!(matches!(
        greet(attach(vec![ClientCapability::Observe; 9]), &limits(), &policy),
        Err(ServerMessage::AttachDenied { code: Some(AttachDeniedCode::InvalidMessage), reason })
            if reason == "invalid attach message: TooManyCapabilities { max: 8 }"
    ));
    let resumed = greet(
        ClientMessage::Resume {
            protocol_version: PROTOCOL_VERSION,
            session_id: "session-1".to_string(),
            last_seen_seq: 4,
            ticket: None,
            client: terminal_client(),
            requested_capabilities: vec![ClientCapability::Observe],
        },
        &limits(),
        &policy,
    )
    .unwrap();
    assert_eq!(resumed.resume_seq, Some(4));
    assert_eq!(resumed.session_id.as_deref(), Some("session-1"));
}

#[test]
fn client_without_observe_receives_no_snapshot_or_events() {
    let introduction = greet(
        attach(vec![ClientCapability::Prompt]),
        &limits(),
        &CapabilityPolicy::local_trusted(),
    )
    .unwrap();
    assert!(!needs_snapshot(false, &None));
    let welcome = welcome(
        "session-1".to_string(),
        introduction.granted_capabilities,
        None,
        None,
        7,
    );
    assert!(matches!(welcome.attach_ok, ServerMessage::AttachOk { seq: 7, .. }));
    assert!(welcome.state.is_empty());
    assert_eq!(welcome.snapshot_sequence, None);
    let connection = connection(vec![ClientCapability::Prompt]);
    assert_eq!(
        connection.on_message(Some(ClientMessage::Ping), false, &limits()),
        ConnectionAction::Send(ServerMessage::Pong)
    );
}

#[test]
fn capability_policy_intersects_requested_grants() {
    let policy = CapabilityPolicy::allowing(vec![ClientCapability::Observe]);
    assert_eq!(policy.trust, ConnectionTrust::RemotePaired);
    let introduction = greet(
        attach(vec![
            ClientCapability::Observe,
            ClientCapability::Prompt,
            ClientCapability::Stop,
            ClientCapability::Observe,
        ]),
        &limits(),
        &policy,
    )
    .unwrap();
    assert_eq!(introduction.granted_capabilities, vec![ClientCapability::Observe]);
    let connection = connection(introduction.granted_capabilities);
    let ConnectionAction::Send(denied) = connection.on_message(
        Some(ClientMessage::Prompt {
            request_id: "forged".to_string(),
            text: "must not run".to_string(),
        }),
        false,
        &limits(),
    ) else {
        panic!("a forged prompt is answered");
    };
    let (request_id, code, _) = error_of(denied);
    assert_eq!(code, "capability_denied");
    assert_eq!(request_id.as_deref(), Some("forged"));
    let ConnectionAction::Send(denied) = connection.on_message(
        Some(ClientMessage::SetConfig {
            request_id: Some("forged-config".to_string()),
            config_id: "model".to_string(),
            value: RuntimeValue::String("forged".to_string()),
        }),
        false,
        &limits(),
    ) else {
        panic!("a forged setting is answered");
    };
    let (request_id, code, _) = error_of(denied);
    assert_eq!(code, "capability_denied");
    assert_eq!(request_id.as_deref(), Some("forged-config"));
}

#[test]
fn stopped_client_without_observe_is_revoked_without_sending() {
    let connection = connection(vec![ClientCapability::Prompt]);
    assert_eq!(
        connection.on_message(Some(ClientMessage::Detach), true, &limits()),
        ConnectionAction::DrainAndRevoke
    );
    assert_eq!(connection.on_message(None, true, &limits()), ConnectionAction::Close);
    assert_eq!(
        connection.on_message(Some(ClientMessage::Detach), false, &limits()),
        ConnectionAction::Close
    );
}

#[test]
fn invalid_listing_cursor_is_typed_and_keeps_connection_alive() {
    let connection = connection(vec![ClientCapability::Observe]);
    let action = connection.on_message(
        Some(ClientMessage::ListSessions {
            request_id: "bad-list".to_string(),
            cursor: Some("v1_unknown".to_string()),
        }),
        false,
        &limits(),
    );
    assert_eq!(
        action,
        ConnectionAction::ListSessions {
            request_id: "bad-list".to_string(),
            cursor: Some("v1_unknown".to_string()),
        }
    );
    let (request_id, code, _) = error_of(listing_reply(
        "bad-list".to_string(),
        Err(SessionListPageError::InvalidCursor),
    ));
    assert_eq!(request_id.as_deref(), Some("bad-list"));
    assert_eq!(code, "invalid_cursor");
    assert_eq!(
        connection.on_message(Some(ClientMessage::Ping), false, &limits()),
        ConnectionAction::Send(ServerMessage::Pong)
    );
    let ConnectionAction::Send(answer) = connection.on_message(
        Some(ClientMessage::ListSessions {
            request_id: "oversized".to_string(),
            cursor: Some("x".repeat(129)),
        }),
        false,
        &limits(),
    ) else {
        panic!("an oversized cursor is answered");
    };
    let (_, code, text) = error_of(answer);
    assert_eq!(code, "invalid_cursor");
    assert_eq!(text, "FieldTooLarge { field: \"list_sessions.cursor\", max_bytes: 128 }");
}

#[test]
fn granted_messages_are_performed() {
    let mut connection = connection(everything());
    let limits = limits();
    let ConnectionAction::Prompt { request_id, text, key } = connection.on_message(
        Some(ClientMessage::Prompt { request_id: "r1".to_string(), text: "hi".to_string() }),
        false,
        &limits,
    ) else {
        panic!("the prompt runs");
    };
    assert_eq!(text, "hi");
    assert_eq!(key, "10:terminal-1r1");
    let (_, code, _) = error_of(connection.claim_prompt(&request_id, true).unwrap_err());
    assert_eq!(code, "duplicate_request");
    connection.claim_prompt(&request_id, false).unwrap();
    let (_, code, _) = error_of(connection.claim_prompt(&request_id, false).unwrap_err());
    assert_eq!(code, "session_busy");
    connection.prompt_ended();
    assert!(connection.claim_prompt(&request_id, false).is_ok());

    for message in [
        ClientMessage::Interrupt { request_id: None },
        ClientMessage::StopSession { request_id: "r".to_string() },
        ClientMessage::ClearHistory { request_id: "r".to_string() },
        ClientMessage::GetUsage { request_id: "r".to_string() },
        ClientMessage::SyncRequest { last_seen_seq: 3 },
    ] {
        let action = connection.on_message(Some(message), false, &limits);
        assert!(!matches!(action, ConnectionAction::Send(_)), "{action:?}");
    }
    let ConnectionAction::Send(answer) =
        connection.on_message(Some(attach(Vec::new())), false, &limits)
    else {
        panic!("a second introduction is answered");
    };
    assert_eq!(error_of(answer).1, "unsupported_message");
}

#[test]
fn sync_replays_retained_event_suffix_without_snapshot() {
    let mut connection = connection(vec![ClientCapability::Observe]);
    let events = vec![
        (1, SessionEvent::AssistantDelta { text: "one".to_string() }),
        (2, SessionEvent::AssistantDelta { text: "two".to_string() }),
    ];
    let messages = connection.replayed(events, 2);
    assert!(matches!(
        messages.as_slice(),
        [ServerMessage::Event { seq: 1, .. }, ServerMessage::Event { seq: 2, .. }]
    ));
    let queued = Some(ServerMessage::Event {
        seq: 2,
        event: SessionEvent::AssistantDelta { text: "two".to_string() },
    });
    assert_eq!(connection.on_outgoing(&queued, false, false), OutgoingAction::Skip);
}

#[test]
fn sync_snapshot_is_frame_bounded_and_suppresses_covered_events() {
    let mut connection = connection(vec![ClientCapability::Observe]);
    let mut snapshot = SnapshotState::new("session-1".to_string(), 8).snapshot;
    snapshot.seq = 100;
    let message = connection.resynced(Ok(snapshot));
    assert!(matches!(message, ServerMessage::Snapshot { seq: 100, .. }));
    let event = |seq: u64| {
        Some(ServerMessage::Event {
            seq,
            event: SessionEvent::AssistantDelta { text: "x".to_string() },
        })
    };
    assert_eq!(connection.on_outgoing(&event(100), false, false), OutgoingAction::Skip);
    assert_eq!(connection.on_outgoing(&event(101), false, false), OutgoingAction::Forward);
    assert!(matches!(
        connection.on_outgoing(&event(101), false, true),
        OutgoingAction::ForwardThenRevoke(ServerMessage::Revoked {
            code: Some(RevocationCode::SessionStopped),
            ..
        })
    ));
    assert!(matches!(
        connection.on_outgoing(&event(101), true, false),
        OutgoingAction::Revoke(ServerMessage::Revoked {
            code: Some(RevocationCode::EventQueueLagged),
            ..
        })
    ));
    assert_eq!(connection.on_outgoing(&None, false, false), OutgoingAction::Close);
    assert_eq!(
        error_of(connection.resynced(Err("too large".to_string()))).1,
        "snapshot_too_large"
    );
    assert_eq!(connection.snapshot_sequence, Some(100));
}

#[test]
fn resume_handshake_replays_from_client_watermark() {
    let replay = Some(SessionReplay::Available {
        events: vec![(6, SessionEvent::AssistantDelta { text: "six".to_string() })],
        latest_seq: 6,
    });
    assert!(!needs_snapshot(true, &replay));
    let welcome = welcome(
        "session-1".to_string(),
        vec![ClientCapability::Observe],
        replay,
        None,
        6,
    );
    assert!(matches!(welcome.attach_ok, ServerMessage::AttachOk { seq: 6, .. }));
    assert!(matches!(welcome.state.as_slice(), [ServerMessage::Event { seq: 6, .. }]));
    assert_eq!(welcome.snapshot_sequence, Some(6));
    assert!(needs_snapshot(true, &Some(SessionReplay::SnapshotRequired { latest_seq: 6 })));
}

#[test]
fn snapshots_settle_the_handshake() {
    let snapshot = SnapshotState::new("session-1".to_string(), 8).snapshot;
    assert_eq!(settle_snapshot(false, Ok(snapshot.clone())), Ok(snapshot.clone()));
    assert!(matches!(
        settle_snapshot(true, Ok(snapshot.clone())),
        Err(ServerMessage::AttachDenied { code: Some(AttachDeniedCode::SessionStopped), .. })
    ));
    assert!(matches!(
        settle_snapshot(false, Err("big".to_string())),
        Err(ServerMessage::AttachDenied { code: Some(AttachDeniedCode::SnapshotTooLarge), reason })
            if reason == "big"
    ));
    let welcome = welcome(
        "session-1".to_string(),
        vec![ClientCapability::Observe],
        None,
        Some(snapshot),
        9,
    );
    assert!(matches!(welcome.attach_ok, ServerMessage::AttachOk { seq: 0, .. }));
    assert!(matches!(welcome.state.as_slice(), [ServerMessage::Snapshot { seq: 0, .. }]));
    assert!(matches!(
        refusal(&SessionDaemonError::ClientLimitReached { max: 1 }),
        ServerMessage::AttachDenied { code: Some(AttachDeniedCode::ClientLimitReached), .. }
    ));
}

#[test]
fn replacement_revokes_and_a_lost_notifier_is_forgotten() {
    let mut connection = connection(Vec::new());
    assert!(matches!(
        connection.on_replacement(true, false),
        Some(ServerMessage::Revoked { code: Some(RevocationCode::AttachmentReplaced), .. })
    ));
    assert!(connection.on_replacement(false, true).is_none());
    assert!(!connection.replacement_open);
}

#[test]
fn commands_are_answered_by_what_came_of_them() {
    assert_eq!(interrupt_reply(None, true), None);
    assert!(matches!(
        interrupt_reply(Some("r".to_string()), true),
        Some(ServerMessage::CommandResult { operation, changed: true, .. })
            if operation == "interrupt"
    ));
    assert!(matches!(
        stop_reply("r".to_string(), Some(true)),
        ServerMessage::CommandResult { operation, .. } if operation == "stop_session"
    ));
    assert_eq!(error_of(stop_reply("r".to_string(), None)).1, "session_delete_failed");
    assert!(matches!(
        clear_reply("r".to_string(), Ok(false)),
        ServerMessage::CommandResult { operation, changed: false, .. }
            if operation == "clear_history"
    ));
    assert_eq!(
        error_of(clear_reply("r".to_string(), Err(HistoryMutationError::Busy))).1,
        "session_busy"
    );
    let usage = SessionUsage {
        input: 1,
        output: 2,
        reasoning_output: 0,
        thinking_bytes: 0,
        cache_read: 0,
        cache_write: 0,
        cost_usd_micros: 3,
    };
    assert!(matches!(
        usage_reply("r".to_string(), Some(usage)),
        ServerMessage::Usage { usage: told, .. } if told == usage
    ));
    assert_eq!(error_of(usage_reply("r".to_string(), None)).1, "session_busy");
    assert_eq!(approval_reply(Ok(())), None);
    for (error, code) in [
        (ApprovalError::AlreadyResolved, "approval_already_resolved"),
        (
            ApprovalError::MissingCapability(ClientCapability::ApproveOnce),
            "capability_denied",
        ),
        (ApprovalError::NotPending, "approval_rejected"),
        (ApprovalError::AllowAlwaysUnavailable, "approval_rejected"),
        (ApprovalError::IdExhausted, "approval_rejected"),
    ] {
        assert_eq!(error_of(approval_reply(Err(error)).unwrap()).1, code);
    }
    for (error, code) in [
        (RuntimeConfigError::Busy, "config_locked"),
        (RuntimeConfigError::UnknownOption, "unknown_config"),
        (RuntimeConfigError::InvalidValue, "invalid_config"),
        (RuntimeConfigError::UnsupportedOption, "unsupported_config"),
        (RuntimeConfigError::ApplyFailed("detail".to_string()), "config_apply_failed"),
    ] {
        let (request_id, told, text) =
            error_of(config_reply(Some("r".to_string()), Err(error)).unwrap());
        assert_eq!(told, code);
        assert_eq!(request_id.as_deref(), Some("r"));
        assert!(!text.contains("detail"));
    }
    assert_eq!(config_reply(None, Ok(())), None);
    assert!(config_reply(Some("r".to_string()), Ok(())).is_some());
    assert_eq!(
        error_of(listing_reply("r".to_string(), Err(SessionListPageError::CapacityExceeded))).1,
        "session_list_capacity"
    );
    assert_eq!(
        error_of(listing_reply(
            "r".to_string(),
            Err(SessionListPageError::TooLarge("big".to_string()))
        ))
        .1,
        "session_list_too_large"
    );
}

#[test]
fn prompts_that_do_not_run_are_explained() {
    assert_eq!(admit_turn(true, Some(1)), Err(SessionPromptError::Stopped));
    assert_eq!(admit_turn::<u8>(false, None), Err(SessionPromptError::Busy));
    assert_eq!(admit_turn(false, Some(1)), Ok(1));
    assert_eq!(
        prompt_error(SessionPromptError::DuplicateRequest("r".to_string())).1,
        "request 'r' has already completed"
    );
    assert_eq!(prompt_error(SessionPromptError::Stopped).0, "session_stopped");
    assert_eq!(prompt_error(SessionPromptError::Busy).0, "session_busy");
    let (request_id, code, text) = error_of(prompt_failure(
        "r".to_string(),
        SessionPromptError::Model("no model".to_string()),
    ));
    assert_eq!(request_id.as_deref(), Some("r"));
    assert_eq!(code, "model_error");
    assert_eq!(text, "no model");
    assert_eq!(
        SessionEventError::HandlerLimitReached { max: 3 }.variant_message(),
        "HandlerLimitReached { max: 3 }"
    );
}
