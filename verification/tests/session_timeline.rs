use daimonos_session::session_protocol::{
    AssistantOutcome, SessionEvent, TimelineEntry, TimelineEntryKind, ToolCallStateStatus,
};
use daimonos_session::session_timeline::TimelineReducer;

fn tool_status(entry: &TimelineEntry) -> Option<ToolCallStateStatus> {
    match entry.entry {
        TimelineEntryKind::Tool { status, .. } => Some(status),
        _ => None,
    }
}

#[test]
fn tool_start_closes_text_and_preserves_interleaving() {
    let mut reducer = TimelineReducer::new(32);
    reducer.apply(SessionEvent::AssistantDelta {
        text: "before".into(),
    });
    reducer.apply(SessionEvent::ToolCallStarted {
        id: "call".into(),
        name: "read".into(),
        title: "read".into(),
        input_summary: None,
    });
    reducer.apply(SessionEvent::AssistantDelta {
        text: "after".into(),
    });

    assert!(matches!(
        reducer.timeline()[0].entry,
        TimelineEntryKind::Assistant { .. }
    ));
    assert!(matches!(
        reducer.timeline()[1].entry,
        TimelineEntryKind::Tool { .. }
    ));
    assert!(matches!(
        reducer.timeline()[2].entry,
        TimelineEntryKind::Assistant { .. }
    ));
}

#[test]
fn reused_provider_id_updates_newest_nonterminal_occurrence() {
    let mut reducer = TimelineReducer::new(32);
    for title in ["first", "second"] {
        reducer.apply(SessionEvent::ToolCallStarted {
            id: "call_0".into(),
            name: "exec".into(),
            title: title.into(),
            input_summary: None,
        });
    }

    assert_ne!(reducer.timeline()[0].id, reducer.timeline()[1].id);
    assert_eq!(reducer.active_tools().len(), 2);
    reducer.apply(SessionEvent::ToolCallFinished {
        id: "call_0".into(),
        status: ToolCallStateStatus::Completed,
        output: "second output".into(),
    });
    assert_eq!(
        reducer
            .timeline()
            .iter()
            .filter_map(tool_status)
            .collect::<Vec<_>>(),
        vec![ToolCallStateStatus::Pending, ToolCallStateStatus::Completed]
    );
    assert_eq!(reducer.active_tools().len(), 1);

    reducer.apply(SessionEvent::ToolCallFinished {
        id: "call_0".into(),
        status: ToolCallStateStatus::Completed,
        output: "first output".into(),
    });
    assert_eq!(
        reducer
            .timeline()
            .iter()
            .filter_map(tool_status)
            .collect::<Vec<_>>(),
        vec![
            ToolCallStateStatus::Completed,
            ToolCallStateStatus::Completed
        ]
    );
}

#[test]
fn active_tools_survive_history_trimming_and_remain_authoritative() {
    let mut reducer = TimelineReducer::new(1);
    reducer.apply(SessionEvent::ToolCallStarted {
        id: "long".into(),
        name: "exec".into(),
        title: "long".into(),
        input_summary: None,
    });
    reducer.apply(SessionEvent::UserMessage {
        text: "new".into(),
        request_id: None,
    });

    assert_eq!(reducer.timeline().len(), 1);
    assert_eq!(reducer.active_tools()[0].tool_call_id, "long");
    assert_eq!(reducer.history_window().truncated_before, 1);

    reducer.apply(SessionEvent::ToolCallFinished {
        id: "long".into(),
        status: ToolCallStateStatus::Completed,
        output: "done".into(),
    });
    assert!(reducer.active_tools().is_empty());
}

#[test]
fn outcome_is_its_own_ordered_entry() {
    let mut reducer = TimelineReducer::new(32);
    reducer.apply(SessionEvent::AssistantDelta {
        text: "answer".into(),
    });
    reducer.apply(SessionEvent::AssistantDone {
        outcome: AssistantOutcome::Completed,
    });
    assert!(matches!(
        reducer.timeline()[1].entry,
        TimelineEntryKind::Outcome {
            outcome: AssistantOutcome::Completed
        }
    ));
}

#[test]
fn system_lines_close_what_is_open() {
    let mut reducer = TimelineReducer::new(8);
    reducer.apply(SessionEvent::AssistantDelta { text: "partial".to_string() });
    let id = reducer.timeline()[0].id;
    assert!(reducer.is_open(id));
    reducer.push_system("restarted".to_string());
    assert!(!reducer.is_open(id));
    assert!(matches!(
        &reducer.timeline()[1].entry,
        TimelineEntryKind::System { text, .. } if text == "restarted"
    ));
}

fn user(text: &str) -> SessionEvent {
    SessionEvent::UserMessage { text: text.to_string(), request_id: None }
}

fn started(id: &str) -> SessionEvent {
    SessionEvent::ToolCallStarted {
        id: id.to_string(),
        name: "read".to_string(),
        title: "read a file".to_string(),
        input_summary: None,
    }
}

#[test]
fn truncation_counts_what_was_dropped_since_the_last_clear() {
    let mut reducer = TimelineReducer::new(2);
    for text in ["one", "two", "three", "four", "five"] {
        reducer.apply(user(text));
    }
    assert_eq!(reducer.timeline().len(), 2);
    assert_eq!(reducer.history_window().truncated_before, 3);
    assert_eq!(reducer.history_window().retained, 2);
    assert_eq!(reducer.history_window().total, Some(5));
    reducer.clear();
    reducer.push_system("restored".to_string());
    assert_eq!(reducer.history_window().truncated_before, 0);
    assert_eq!(reducer.history_window().total, Some(1));
}

#[test]
fn ids_are_not_reused_after_a_clear() {
    let mut reducer = TimelineReducer::new(4);
    reducer.apply(user("one"));
    reducer.apply(started("call"));
    reducer.apply(SessionEvent::ConversationCleared);
    let id = reducer.push_reconstructed(TimelineEntryKind::System {
        text: "note".to_string(),
        content_truncated: false,
    });
    assert_eq!(id, 3);
    let newest = reducer.timeline().last().unwrap();
    assert_eq!((newest.id, newest.order), (3, 3));
    assert!(!reducer.is_open(3));
}

#[test]
fn only_the_last_text_is_open() {
    let mut reducer = TimelineReducer::new(8);
    reducer.apply(SessionEvent::AssistantDelta { text: "a".to_string() });
    assert!(reducer.is_open(1));
    reducer.apply(SessionEvent::ThoughtDelta { text: "b".to_string() });
    assert!(reducer.is_open(2) && !reducer.is_open(1));
    reducer.apply(started("call"));
    assert!(!reducer.is_open(2) && !reducer.is_open(3));
}

#[test]
fn unfinished_entries_are_the_active_tools() {
    let mut reducer = TimelineReducer::new(8);
    reducer.apply(started("first"));
    reducer.apply(started("second"));
    reducer.update_reconstructed_tool("first", ToolCallStateStatus::Completed, "done".to_string());
    assert_eq!(reducer.active_tools().len(), 1);
    assert_eq!(reducer.active_tools()[0].occurrence_id, 2);
    assert_eq!(tool_status(&reducer.timeline()[0]), Some(ToolCallStateStatus::Completed));
    assert_eq!(tool_status(&reducer.timeline()[1]), Some(ToolCallStateStatus::Pending));
    reducer.cancel_reconstructed_active_tools();
    assert!(reducer.active_tools().is_empty());
    assert_eq!(tool_status(&reducer.timeline()[1]), Some(ToolCallStateStatus::Cancelled));
}

#[test]
fn parts_give_the_timeline_back() {
    let mut reducer = TimelineReducer::new(3);
    for event in [
        user("one"),
        started("a"),
        SessionEvent::AssistantDelta { text: "text".to_string() },
        started("b"),
        SessionEvent::ToolCallUpdated {
            id: "b".to_string(),
            status: ToolCallStateStatus::InProgress,
        },
    ] {
        reducer.apply(event);
    }
    let (timeline, active, window) = reducer.into_parts();
    assert_eq!(window.truncated_before, 1);
    let again =
        TimelineReducer::from_parts(timeline.clone(), active.clone(), window.clone(), 3);
    assert_eq!(again.into_parts(), (timeline, active, window));
}

#[test]
fn restored_start_is_a_start_in_progress() {
    let mut restored = TimelineReducer::new(4);
    let mut live = TimelineReducer::new(4);
    restored.apply(user("one"));
    live.apply(user("one"));
    let occurrence = restored.start_reconstructed_tool(
        "call".to_string(),
        "read".to_string(),
        "read a file".to_string(),
    );
    live.apply(started("call"));
    live.apply(SessionEvent::ToolCallUpdated {
        id: "call".to_string(),
        status: ToolCallStateStatus::InProgress,
    });
    assert_eq!(occurrence, 2);
    assert_eq!(restored, live);
}

#[test]
fn two_deltas_are_one_delta() {
    let assistant = |text: &str| SessionEvent::AssistantDelta { text: text.to_string() };
    let thought = |text: &str| SessionEvent::ThoughtDelta { text: text.to_string() };
    let mut pieces = TimelineReducer::new(4);
    let mut whole = TimelineReducer::new(4);
    for event in [assistant("a"), assistant(""), assistant("bc"), thought("d"), thought("e")] {
        pieces.apply(event);
    }
    whole.apply(assistant("abc"));
    whole.apply(thought("de"));
    assert_eq!(pieces, whole);
    assert_eq!(whole.timeline().len(), 2);
}

#[test]
fn entries_put_in_after_recorded_parts_have_new_ids() {
    let mut reducer = TimelineReducer::new(2);
    for text in ["one", "two", "three"] {
        reducer.apply(user(text));
    }
    reducer.apply(started("call"));
    let (timeline, active, window) = reducer.into_parts();
    let mut again = TimelineReducer::from_parts(timeline, active, window, 1);
    again.clear();
    let id = again.push_reconstructed(TimelineEntryKind::Outcome {
        outcome: AssistantOutcome::Completed,
    });
    assert_eq!(id, 5);
    assert_eq!((again.timeline()[0].id, again.timeline()[0].order), (5, 5));
    assert!(!again.is_open(5));
}

#[test]
fn parts_with_a_ready_made_call_are_given_back() {
    let mut reducer = TimelineReducer::new(4);
    reducer.apply(started("call"));
    reducer.push_reconstructed(TimelineEntryKind::Tool {
        tool_call_id: "call".to_string(),
        name: "read".to_string(),
        title: "read".to_string(),
        status: ToolCallStateStatus::InProgress,
        output: None,
        content_truncated: false,
    });
    assert_eq!(reducer.active_tools().len(), 1);
    let (timeline, active, window) = reducer.into_parts();
    let again =
        TimelineReducer::from_parts(timeline.clone(), active.clone(), window.clone(), 4);
    assert_eq!(again.into_parts(), (timeline, active, window));
}

#[test]
fn resumed_reducer_gives_its_parts_back_too() {
    let mut reducer = TimelineReducer::new(3);
    reducer.apply(user("one"));
    reducer.apply(started("a"));
    let (timeline, active, window) = reducer.into_parts();
    let mut again = TimelineReducer::from_parts(timeline, active, window, 3);
    again.apply(SessionEvent::ToolCallUpdated {
        id: "a".to_string(),
        status: ToolCallStateStatus::InProgress,
    });
    again.apply(user("two"));
    again.apply(user("three"));
    let (timeline, active, window) = again.into_parts();
    assert_eq!(timeline.iter().map(|entry| entry.id).collect::<Vec<_>>(), vec![2, 3, 4]);
    assert_eq!(active[0].status, ToolCallStateStatus::InProgress);
    assert_eq!(window.truncated_before, 1);
    let third = TimelineReducer::from_parts(timeline.clone(), active.clone(), window.clone(), 3);
    assert_eq!(third.into_parts(), (timeline, active, window));
}
