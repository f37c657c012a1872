use daimonos_session::session_core::event_router::{SessionEventRouter, SessionReplay};
use daimonos_session::session_daemon::frame_fit::{
    fit_session_list_to_frame, fit_snapshot_to_frame, tool_call_is_terminal,
    tool_calls_without_oldest_terminal, ListPage,
};
use daimonos_session::session_daemon::snapshot_state::SnapshotState;
use daimonos_session::session_protocol::{
    ApprovalDecision, ApprovalRequest, AssistantOutcome, ContextUsage, HistoryWindow,
    RuntimeOption, RuntimeValue, ServerMessage, SessionEvent, SessionListEntry, SessionSnapshot,
    SessionTimelineSnapshot, TimelineEntry, TimelineEntryKind, ToolCallState, ToolCallStateStatus,
    TranscriptEntry, TranscriptRole, TurnStatus,
};
use serde_json::Value;

fn object(members: Vec<(&str, Value)>) -> Value {
    let mut map = serde_json::Map::new();
    for (name, value) in members {
        map.insert(name.to_string(), value);
    }
    Value::Object(map)
}

fn text(value: &str) -> Value {
    Value::String(value.to_string())
}

fn optional(value: &Option<String>) -> Value {
    match value {
        Some(value) => text(value),
        None => Value::Null,
    }
}

fn snapshot_size(snapshot: &SessionSnapshot) -> Result<usize, String> {
    let transcript = snapshot
        .transcript
        .iter()
        .map(|entry| {
            object(vec![
                ("id", Value::from(entry.id)),
                ("role", text("assistant")),
                ("text", text(&entry.text)),
            ])
        })
        .collect();
    let calls = snapshot
        .tool_calls
        .iter()
        .map(|call| {
            object(vec![
                ("id", text(&call.id)),
                ("name", text(&call.name)),
                ("title", text(&call.title)),
                ("status", text("pending")),
                ("output", optional(&call.output)),
            ])
        })
        .collect();
    let message = object(vec![
        ("type", text("snapshot")),
        ("seq", Value::from(snapshot.seq)),
        (
            "state",
            object(vec![
                ("session_id", text(&snapshot.session_id)),
                ("transcript", Value::Array(transcript)),
                ("tool_calls", Value::Array(calls)),
                ("history_truncated", Value::Bool(snapshot.history_truncated)),
            ]),
        ),
    ]);
    Ok(serde_json::to_vec(&message).map_err(|error| error.to_string())?.len())
}

fn list_size(message: &ServerMessage) -> Result<usize, String> {
    let ServerMessage::SessionList { request_id, sessions, next_cursor, incomplete, .. } = message
    else {
        return Err("not a listing".to_string());
    };
    let rows = sessions
        .iter()
        .map(|row| {
            object(vec![
                ("session_id", text(&row.session_id)),
                ("active", Value::Bool(row.active)),
                ("model", optional(&row.model)),
                ("preview", optional(&row.preview)),
            ])
        })
        .collect();
    let message = object(vec![
        ("type", text("session_list")),
        ("request_id", text(request_id)),
        ("sessions", Value::Array(rows)),
        ("next_cursor", optional(next_cursor)),
        ("incomplete", Value::Bool(*incomplete)),
    ]);
    Ok(serde_json::to_vec(&message).map_err(|error| error.to_string())?.len())
}

fn entry(id: u64, length: usize) -> TranscriptEntry {
    TranscriptEntry {
        id,
        role: TranscriptRole::Assistant,
        text: "x".repeat(length),
        outcome: None,
    }
}

fn call(id: &str, status: ToolCallStateStatus, output: Option<String>) -> ToolCallState {
    ToolCallState {
        id: id.to_string(),
        name: "exec".to_string(),
        title: "exec".to_string(),
        status,
        output,
    }
}

#[test]
fn oversized_snapshot_is_trimmed_to_transport_frame() {
    let mut snapshot = SnapshotState::new("session-1".to_string(), 100).snapshot;
    snapshot.transcript = (0..100).map(|id| entry(id, 100)).collect();

    let fitted = fit_snapshot_to_frame(snapshot, 1_024, snapshot_size).unwrap();

    assert!(snapshot_size(&fitted).unwrap() <= 1_024);
    assert!(fitted.transcript.len() < 100);
    assert!(!fitted.transcript.is_empty());
    assert_eq!(fitted.transcript.last().unwrap().id, 99);
    assert!(fitted.history_truncated);
}

#[test]
fn fitting_snapshot_is_left_alone() {
    let mut snapshot = SnapshotState::new("session-1".to_string(), 100).snapshot;
    snapshot.transcript = vec![entry(1, 10)];
    let fitted = fit_snapshot_to_frame(snapshot.clone(), 1_024, snapshot_size).unwrap();
    assert_eq!(fitted, snapshot);
}

#[test]
fn fitting_gives_up_outputs_then_entries_then_finished_calls() {
    let mut snapshot = SnapshotState::new("session-1".to_string(), 100).snapshot;
    snapshot.transcript = vec![entry(1, 50)];
    snapshot.tool_calls = vec![
        call("done", ToolCallStateStatus::Completed, Some("y".repeat(1_000))),
        call("live", ToolCallStateStatus::InProgress, Some("partial".to_string())),
    ];
    let stripped = fit_snapshot_to_frame(snapshot.clone(), 400, snapshot_size).unwrap();
    assert_eq!(stripped.transcript.len(), 1);
    assert_eq!(stripped.tool_calls[0].output, None);
    assert_eq!(stripped.tool_calls[1].output.as_deref(), Some("partial"));

    snapshot.tool_calls = (0..20)
        .map(|index| call(&format!("done-{index}"), ToolCallStateStatus::Failed, None))
        .collect();
    snapshot.tool_calls.push(call("live", ToolCallStateStatus::Pending, None));
    let cut = fit_snapshot_to_frame(snapshot.clone(), 400, snapshot_size).unwrap();
    assert!(cut.transcript.is_empty());
    assert!(cut.tool_calls.len() < 21);
    assert_eq!(cut.tool_calls.last().unwrap().id, "live");

    assert_eq!(
        fit_snapshot_to_frame(snapshot.clone(), 40, snapshot_size),
        Err("session snapshot exceeds the configured 40-byte frame limit".to_string())
    );
    assert_eq!(
        fit_snapshot_to_frame(snapshot, 40, |_| Err("no encoder".to_string())),
        Err("snapshot serialization failed: no encoder".to_string())
    );
}

#[test]
fn oldest_finished_calls_go_first() {
    let calls = vec![
        call("a", ToolCallStateStatus::Completed, None),
        call("b", ToolCallStateStatus::Pending, None),
        call("c", ToolCallStateStatus::Cancelled, None),
    ];
    assert!(tool_call_is_terminal(&calls[2]));
    let kept = tool_calls_without_oldest_terminal(&calls, 1);
    assert_eq!(
        kept.iter().map(|call| call.id.as_str()).collect::<Vec<_>>(),
        vec!["b", "c"]
    );
}

#[test]
fn maintained_snapshot_marks_collection_cap_truncation() {
    let mut snapshot = SnapshotState::new("session-1".to_string(), 1);
    snapshot.apply(
        1,
        SessionEvent::UserMessage { text: "first".to_string(), request_id: None },
    );
    snapshot.apply(
        2,
        SessionEvent::UserMessage { text: "second".to_string(), request_id: None },
    );
    assert_eq!(snapshot.snapshot.transcript.len(), 1);
    assert!(snapshot.snapshot.history_truncated);
}

#[test]
fn snapshot_follows_every_event() {
    let mut state = SnapshotState::new("session-1".to_string(), 8);
    let request = ApprovalRequest {
        id: "approval-1".to_string(),
        tool_call_id: "tool-1".to_string(),
        tool: "exec".to_string(),
        detail: "make".to_string(),
        allow_always_available: false,
        ineligible_deadline_unix_ms: None,
        deadline_paused: false,
    };
    let usage = ContextUsage::new(10, Some(100), 10, Some(72));
    let option = RuntimeOption::boolean("flag", "Flag", RuntimeValue::Bool(true));
    let events = vec![
        SessionEvent::TurnStatusChanged { status: TurnStatus::Running },
        SessionEvent::UserMessage { text: "hi".to_string(), request_id: None },
        SessionEvent::ThoughtDelta { text: "hm".to_string() },
        SessionEvent::AssistantDelta { text: "a".to_string() },
        SessionEvent::AssistantDelta { text: "b".to_string() },
        SessionEvent::ToolCallStarted {
            id: "tool-1".to_string(),
            name: "exec".to_string(),
            title: "make".to_string(),
            input_summary: None,
        },
        SessionEvent::ToolCallUpdated {
            id: "tool-1".to_string(),
            status: ToolCallStateStatus::InProgress,
        },
        SessionEvent::ApprovalRequested { request: request.clone() },
        SessionEvent::ApprovalRequested { request: request.clone() },
        SessionEvent::ApprovalDeadlineChanged {
            approval_id: "approval-1".to_string(),
            ineligible_deadline_unix_ms: 9,
            paused: true,
        },
        SessionEvent::RuntimeOptionsChanged { options: vec![option.clone()] },
        SessionEvent::ContextUsageChanged { usage },
    ];
    for (index, event) in events.into_iter().enumerate() {
        state.apply(index as u64 + 1, event);
    }
    assert_eq!(state.snapshot.seq, 12);
    assert_eq!(state.snapshot.turn_status, TurnStatus::Running);
    assert_eq!(state.snapshot.transcript.len(), 3);
    assert_eq!(state.snapshot.transcript[2].text, "ab");
    assert_eq!(state.snapshot.transcript[2].id, 3);
    assert_eq!(state.snapshot.tool_calls[0].status, ToolCallStateStatus::InProgress);
    assert_eq!(state.snapshot.pending_approvals.len(), 1);
    assert_eq!(state.snapshot.pending_approvals[0].ineligible_deadline_unix_ms, Some(9));
    assert!(state.snapshot.pending_approvals[0].deadline_paused);
    assert_eq!(state.snapshot.runtime_options, vec![option]);
    assert_eq!(state.snapshot.context_usage, Some(usage));

    state.apply(
        13,
        SessionEvent::ToolCallFinished {
            id: "tool-1".to_string(),
            status: ToolCallStateStatus::Completed,
            output: "ok".to_string(),
        },
    );
    state.apply(
        14,
        SessionEvent::ApprovalResolved {
            approval_id: "approval-1".to_string(),
            decision: ApprovalDecision::Deny,
            resolved_by: "local".to_string(),
        },
    );
    state.apply(15, SessionEvent::AssistantDone { outcome: AssistantOutcome::Completed });
    assert_eq!(state.snapshot.tool_calls[0].output.as_deref(), Some("ok"));
    assert!(state.snapshot.pending_approvals.is_empty());
    assert_eq!(state.snapshot.transcript[2].outcome, Some(AssistantOutcome::Completed));
    state.apply(16, SessionEvent::ConversationCleared);
    assert!(state.snapshot.transcript.is_empty());
    assert!(state.snapshot.tool_calls.is_empty());
    state.apply(17, SessionEvent::AssistantDone { outcome: AssistantOutcome::Aborted });
    assert_eq!(state.snapshot.transcript[0].text, "");
    state.apply(18, SessionEvent::SessionEnding { reason: "stopped".to_string() });
    assert_eq!(state.snapshot.seq, 18);
}

#[test]
fn replayed_client_shows_what_a_live_one_shows() {
    let mut router: SessionEventRouter<u8> = SessionEventRouter::new_with_replay(None, 8);
    let mut live = SnapshotState::new("session-1".to_string(), 4);
    let mut returning = SnapshotState::new("session-1".to_string(), 4);
    for index in 0..6 {
        let text = format!("delta {index}");
        let event = SessionEvent::UserMessage { text: text.clone(), request_id: None };
        let seq = router.emit(event, |_, _, _| false).unwrap();
        live.apply(seq, SessionEvent::UserMessage { text: text.clone(), request_id: None });
        if seq <= 2 {
            returning.apply(seq, SessionEvent::UserMessage { text, request_id: None });
        }
    }
    let SessionReplay::Available { events, latest_seq } = router.replay_since(2) else {
        panic!("the events are retained");
    };
    assert_eq!(latest_seq, 6);
    for (seq, event) in events {
        returning.apply(seq, event);
    }
    assert_eq!(returning.snapshot, live.snapshot);
}

#[test]
fn restored_timeline_is_shown_as_its_events() {
    let text = |text: &str| text.to_string();
    let timeline = vec![
        TimelineEntryKind::User { text: text("ask"), content_truncated: false },
        TimelineEntryKind::Thought { text: text("hm"), content_truncated: false },
        TimelineEntryKind::Tool {
            tool_call_id: text("tool-1"),
            name: text("exec"),
            title: text("make"),
            status: ToolCallStateStatus::Completed,
            output: Some(text("ok")),
            content_truncated: false,
        },
        TimelineEntryKind::System { text: text("note"), content_truncated: false },
        TimelineEntryKind::Assistant { text: text("done"), content_truncated: false },
        TimelineEntryKind::Outcome { outcome: AssistantOutcome::Completed },
    ];
    let snapshot = SessionTimelineSnapshot {
        session_id: text("session-1"),
        seq: 5,
        turn_status: TurnStatus::Idle,
        timeline: timeline
            .into_iter()
            .enumerate()
            .map(|(at, entry)| TimelineEntry { id: at as u64 + 1, order: at as u64 + 1, entry })
            .collect(),
        active_tools: Vec::new(),
        history_window: HistoryWindow { truncated_before: 2, retained: 6, total: Some(8) },
        pending_approvals: vec![ApprovalRequest::unassigned("tool-2", "exec", "ls", false)],
        runtime_options: vec![RuntimeOption::boolean("flag", "Flag", RuntimeValue::Bool(true))],
        context_usage: Some(ContextUsage::new(1, Some(100), 0, None)),
    };
    let state = SnapshotState::restored(snapshot, 0).snapshot;
    assert_eq!(state.transcript.len(), 1, "the bound is at least one");
    assert!(state.history_truncated);

    let snapshot = SessionTimelineSnapshot {
        session_id: text("session-1"),
        seq: 5,
        turn_status: TurnStatus::Running,
        timeline: vec![
            TimelineEntry {
                id: 1,
                order: 1,
                entry: TimelineEntryKind::Assistant { text: text("a"), content_truncated: false },
            },
            TimelineEntry {
                id: 2,
                order: 2,
                entry: TimelineEntryKind::Outcome { outcome: AssistantOutcome::Refused },
            },
        ],
        active_tools: Vec::new(),
        history_window: HistoryWindow { truncated_before: 0, retained: 2, total: Some(2) },
        pending_approvals: Vec::new(),
        runtime_options: Vec::new(),
        context_usage: None,
    };
    let state = SnapshotState::restored(snapshot, 8).snapshot;
    assert_eq!(state.seq, 5);
    assert_eq!(state.turn_status, TurnStatus::Running);
    assert_eq!(state.transcript[0].text, "a");
    assert_eq!(state.transcript[0].outcome, Some(AssistantOutcome::Refused));
    assert!(!state.history_truncated);
}

#[test]
fn restored_snapshot_is_bounded_and_numbers_go_on() {
    let mut snapshot = SnapshotState::new("session-1".to_string(), 8).snapshot;
    snapshot.transcript = vec![entry(3, 1), entry(9, 1), entry(4, 1)];
    let state = SnapshotState::from_snapshot(snapshot.clone(), 2);
    assert_eq!(state.snapshot.transcript.len(), 2);
    assert!(state.snapshot.history_truncated);
    assert_eq!(state.next_transcript_id, 10);
    let state = SnapshotState::from_snapshot(snapshot, 0);
    assert_eq!(state.max_entries, 1);
    assert_eq!(state.next_transcript_id, 5);
}

fn row(index: u64, model: &str, preview: String) -> SessionListEntry {
    SessionListEntry {
        session_id: format!("session-{index:04}"),
        active: true,
        attached_clients: 0,
        model: Some(model.to_string()),
        updated_at_unix_ms: Some(index),
        preview: Some(preview),
        message_count: Some(2),
        turn_status: Some(TurnStatus::Idle),
    }
}

#[test]
fn session_list_is_trimmed_to_transport_frame() {
    let sessions = (0..20).map(|index| row(index, "model", "preview".repeat(4))).collect::<Vec<_>>();
    let (message, sent) = fit_session_list_to_frame(
        ListPage {
            request_id: "list-1".to_string(),
            workspace: None,
            remaining: sessions.len(),
            sessions,
            cursor: "v1_cursor".to_string(),
            incomplete: false,
        },
        300,
        list_size,
    )
    .unwrap();
    assert!(list_size(&message).unwrap() <= 300);
    let ServerMessage::SessionList { sessions, next_cursor, .. } = message else {
        panic!("session list");
    };
    assert!(!sessions.is_empty());
    assert!(next_cursor.is_some());
    assert_eq!(sessions.len(), sent);
    assert_ne!(
        next_cursor.as_deref(),
        sessions.last().map(|row| row.session_id.as_str())
    );
}

#[test]
fn frame_trimmed_pages_cover_snapshot_rows_once_in_order() {
    let rows = (0_u64..12)
        .map(|index| {
            row(
                index,
                "model-with-enough-length-to-force-trimming",
                "bounded preview content".to_string(),
            )
        })
        .collect::<Vec<_>>();
    let expected = rows.iter().map(|row| row.session_id.clone()).collect::<Vec<_>>();
    let mut delivered = Vec::new();
    let mut offset = 0;
    let page_size = 5;
    while offset < rows.len() {
        let end = (offset + page_size).min(rows.len());
        let (message, sent) = fit_session_list_to_frame(
            ListPage {
                request_id: format!("page-{offset}"),
                workspace: None,
                sessions: rows[offset..end].to_vec(),
                remaining: rows.len() - offset,
                cursor: format!("v1_cursor_{offset}"),
                incomplete: false,
            },
            420,
            list_size,
        )
        .unwrap();
        let ServerMessage::SessionList { sessions, next_cursor, .. } = message else {
            panic!("session list");
        };
        assert!(sent > 0);
        assert_eq!(sent, sessions.len());
        delivered.extend(sessions.into_iter().map(|row| row.session_id));
        offset += sent;
        assert_eq!(next_cursor.is_some(), offset < rows.len());
    }
    assert_eq!(delivered, expected);
}

#[test]
fn one_row_too_large_for_a_frame_is_reported() {
    let page = ListPage {
        request_id: "list".to_string(),
        workspace: None,
        sessions: vec![row(1, "model", "p".repeat(500))],
        remaining: 1,
        cursor: "v1_c".to_string(),
        incomplete: false,
    };
    assert_eq!(
        fit_session_list_to_frame(page, 300, list_size),
        Err("one session entry exceeds the configured 300-byte frame limit".to_string())
    );
}

#[test]
fn truncation_mark_stands_exactly_where_something_was_dropped() {
    let mut state = SnapshotState::new("session-1".to_string(), 2);
    let message = |text: &str| SessionEvent::UserMessage {
        text: text.to_string(),
        request_id: None,
    };
    state.apply(1, message("one"));
    state.apply(2, message("two"));
    assert!(!state.snapshot.history_truncated);
    state.apply(3, message("three"));
    assert!(state.snapshot.history_truncated);
    assert_eq!(state.snapshot.transcript.iter().map(|e| e.id).collect::<Vec<_>>(), vec![2, 3]);
    state.apply(4, SessionEvent::ConversationCleared);
    assert!(!state.snapshot.history_truncated);
    state.apply(5, message("four"));
    assert_eq!(state.snapshot.transcript[0].id, 4);
}

#[test]
fn started_call_takes_the_place_of_one_with_its_id() {
    let mut state = SnapshotState::new("session-1".to_string(), 4);
    for (seq, title) in [(1, "first"), (2, "again")] {
        state.apply(
            seq,
            SessionEvent::ToolCallStarted {
                id: "call".to_string(),
                name: "read".to_string(),
                title: title.to_string(),
                input_summary: None,
            },
        );
    }
    assert_eq!(state.snapshot.tool_calls.len(), 1);
    assert_eq!(state.snapshot.tool_calls[0].title, "again");
}

#[test]
fn snapshot_keeps_its_bounds_and_names_after_any_events() {
    let mut state = SnapshotState::new("session-1".to_string(), 2);
    let mut seq: u64 = 0;
    for round in 0..6 {
        for event in [
            SessionEvent::UserMessage { text: format!("m{round}"), request_id: None },
            SessionEvent::AssistantDelta { text: "answer".to_string() },
            SessionEvent::ToolCallStarted {
                id: format!("call-{}", round % 3),
                name: "read".to_string(),
                title: "read".to_string(),
                input_summary: None,
            },
        ] {
            seq += 1;
            state.apply(seq, event);
            let shown = &state.snapshot;
            assert_eq!(shown.seq, seq);
            assert!(shown.transcript.len() <= 2 && shown.tool_calls.len() <= 2);
            assert!(shown.transcript.windows(2).all(|pair| pair[0].id < pair[1].id));
            assert!(shown.tool_calls.windows(2).all(|pair| pair[0].id != pair[1].id));
            assert_eq!(shown.history_truncated, round > 0);
        }
    }
}
