use daimonos_session::providers::{ContentBlock, Message};
use daimonos_session::session_store::{
    check_directory_owner, check_schema_version, first_user_preview, normalize_preview,
    system_time_unix_ns, PersistedSession, SaveCapture, SessionStore, SessionStoreError,
    SessionStoreErrorKind, SessionWriteError, SessionWriteOutcome, SessionWriter, StoredPayload,
    StoredRow, SESSION_PERSIST_VERSION,
};

const NOW: u64 = 1_700_000_000_000_000_000;

fn msgs() -> Vec<Message> {
    vec![
        Message::user("first question\nsecond line"),
        Message::assistant("the answer"),
    ]
}

fn store() -> SessionStore {
    SessionStore::new("/tmp/sessions".to_string())
}

fn capture(model: &str, messages: Vec<Message>) -> SaveCapture {
    SaveCapture {
        model: model.to_string(),
        thinking: "medium".to_string(),
        messages,
        cwd: "/workspace".to_string(),
        client_user_message_ids: Vec::new(),
        assistant_outcomes: Vec::new(),
    }
}

fn replace_payload(store: &mut SessionStore, id: &str, payload: StoredPayload) {
    let row = store.row(id).unwrap();
    let replaced = StoredRow {
        session_id: row.session_id.clone(),
        generation: row.generation,
        payload,
        preview: row.preview.clone(),
        updated_at_unix_ns: row.updated_at_unix_ns,
    };
    store.put_row(replaced);
}

#[test]
fn save_then_load_round_trips() {
    let mut store = store();
    store.save("abc-123", "test-model", msgs(), NOW);

    let loaded = store.load("abc-123").expect("saved session should load");
    assert_eq!(loaded.session_id, "abc-123");
    assert_eq!(loaded.model, "test-model");
    assert_eq!(loaded.messages.len(), 2);
    assert!(
        matches!(&loaded.messages[0].content[0], ContentBlock::Text(t) if t == "first question\nsecond line")
    );
}

#[test]
fn transactional_generation_rejects_late_stale_write() {
    let mut store = store();
    let writer = store.claim_writer("ordered", None).unwrap();
    let saved = store
        .save_acp_generation_result(
            &writer,
            2,
            capture("new-model", vec![Message::user("new")]),
            64,
            NOW,
        )
        .unwrap();
    assert!(matches!(saved, SessionWriteOutcome::Saved(_)));

    let stale = store
        .save_acp_generation_result(
            &writer,
            1,
            capture("old-model", vec![Message::user("old")]),
            64,
            NOW,
        )
        .unwrap();

    assert!(matches!(
        stale,
        SessionWriteOutcome::Stale {
            stored_generation: 2
        }
    ));
    let loaded = store.load_result("ordered").unwrap();
    assert_eq!(loaded.generation, 2);
    assert_eq!(loaded.model, "new-model");
}

#[test]
fn reopened_writer_epoch_rejects_old_save_and_delete() {
    let mut store = store();
    let old_writer = store.claim_writer("epoch", None).unwrap();
    assert!(matches!(
        store
            .save_acp_generation_result(
                &old_writer,
                1,
                capture("old", vec![Message::user("old state")]),
                64,
                NOW,
            )
            .unwrap(),
        SessionWriteOutcome::Saved(_)
    ));
    let reopened = store.load_result("epoch").unwrap();
    let new_writer = store
        .claim_writer("epoch", Some(reopened.generation))
        .unwrap();

    assert!(matches!(
        store
            .save_acp_generation_result(
                &old_writer,
                99,
                capture("stale", vec![Message::user("stale state")]),
                64,
                NOW,
            )
            .unwrap(),
        SessionWriteOutcome::Superseded
    ));
    assert_eq!(store.delete_writer(&old_writer), None);
    assert!(matches!(
        store
            .save_acp_generation_result(
                &new_writer,
                2,
                capture("new", vec![Message::user("new state")]),
                64,
                NOW,
            )
            .unwrap(),
        SessionWriteOutcome::Saved(_)
    ));
    assert_eq!(store.load_result("epoch").unwrap().model, "new");
    assert_eq!(store.delete_writer(&new_writer), Some(true));
    assert!(matches!(
        store.load_result("epoch"),
        Err(SessionStoreError::NotFound)
    ));
}

#[test]
fn writer_only_reservation_can_be_reclaimed_after_failed_creation() {
    let mut store = store();
    let abandoned = store.claim_writer("unpersisted", None).unwrap();
    let replacement = store.claim_writer("unpersisted", None).unwrap();

    assert!(matches!(
        store
            .save_acp_generation_result(&abandoned, 1, capture("old", vec![]), 64, NOW)
            .unwrap(),
        SessionWriteOutcome::Superseded
    ));
    assert!(matches!(
        store
            .save_acp_generation_result(&replacement, 1, capture("new", vec![]), 64, NOW)
            .unwrap(),
        SessionWriteOutcome::Saved(_)
    ));
}

fn archived(id: &str, version: u32) -> PersistedSession {
    PersistedSession {
        version,
        generation: 99,
        session_id: id.to_string(),
        model: "replacement".to_string(),
        thinking: None,
        cwd: None,
        client_user_message_ids: Vec::new(),
        assistant_outcomes: Vec::new(),
        messages: Vec::new(),
    }
}

#[test]
fn import_rejects_duplicate_without_replacing_session() {
    let mut store = store();
    store.save("duplicate", "original", msgs(), NOW);
    let replacement = archived("duplicate", SESSION_PERSIST_VERSION);

    assert_eq!(
        store
            .import_if_absent(replacement, 64, NOW)
            .unwrap_err()
            .kind(),
        SessionStoreErrorKind::AlreadyExists
    );
    assert_eq!(store.load_result("duplicate").unwrap().model, "original");
}

#[test]
fn import_starts_a_new_lineage_and_refuses_what_it_cannot_read() {
    let mut store = store();
    store
        .import_if_absent(archived("fresh", SESSION_PERSIST_VERSION), 64, NOW)
        .unwrap();
    assert_eq!(store.load_result("fresh").unwrap().generation, 1);
    assert_eq!(
        store
            .import_if_absent(archived("old", 0), 64, NOW)
            .unwrap_err()
            .message(),
        "persisted session version 0 is older than supported version 1"
    );
    assert_eq!(
        store
            .import_if_absent(archived("a/b", SESSION_PERSIST_VERSION), 64, NOW)
            .unwrap_err(),
        SessionStoreError::UnsafeId
    );
    store.claim_writer("claimed", None).unwrap();
    assert_eq!(
        store
            .import_if_absent(archived("claimed", SESSION_PERSIST_VERSION), 64, NOW)
            .unwrap_err(),
        SessionStoreError::AlreadyExists
    );
}

#[test]
fn save_with_cwd_round_trips_and_lists_metadata() {
    let mut store = store();
    store.save_with_cwd("acp-1", "test-model", msgs(), "/workspace", NOW);

    let loaded = store.load("acp-1").expect("saved session should load");
    assert_eq!(loaded.cwd.as_deref(), Some("/workspace"));

    let summary = store
        .list()
        .into_iter()
        .find(|summary| summary.id == "acp-1")
        .expect("saved session should be listed");
    assert_eq!(summary.cwd.as_deref(), Some("/workspace"));
    assert!(summary.updated_at.is_some());
}

#[test]
fn acp_client_user_message_ids_round_trip() {
    let mut store = store();
    let mut given = capture("test-model", msgs());
    given.client_user_message_ids = vec!["user-1".to_string()];
    store.save_acp("acp-ids", given, NOW);

    let loaded = store.load("acp-ids").expect("saved session should load");
    assert_eq!(loaded.client_user_message_ids, vec!["user-1"]);
}

#[test]
fn record_without_cwd_remains_readable() {
    let mut store = store();
    store.save("without-cwd", "m", vec![], NOW);

    let loaded = store
        .load("without-cwd")
        .expect("record without cwd should load");
    assert_eq!(loaded.cwd, None);
    assert!(loaded.client_user_message_ids.is_empty());
    assert_eq!(store.list()[0].cwd, None);
}

#[test]
fn load_unknown_id_is_none() {
    let store = store();
    assert!(store.load("never-saved").is_none());
    assert_eq!(
        store.load_result("never-saved").unwrap_err().kind(),
        SessionStoreErrorKind::NotFound
    );
}

#[test]
fn unsafe_id_is_rejected_not_traversed() {
    let mut store = store();
    store.save("../../etc/passwd", "m", msgs(), NOW);
    assert!(store.load("../../etc/passwd").is_none());
    assert_eq!(
        store.load_result("../../etc/passwd").unwrap_err().kind(),
        SessionStoreErrorKind::UnsafeId
    );
}

#[test]
fn version_mismatch_is_ignored() {
    let mut store = store();
    store.save("future", "m", vec![], NOW);
    let record = archived("future", SESSION_PERSIST_VERSION + 1);
    replace_payload(&mut store, "future", StoredPayload::Record(record));
    assert!(
        store.load("future").is_none(),
        "an unrecognized version must not be loaded"
    );
    assert_eq!(
        store.load_result("future").unwrap_err().kind(),
        SessionStoreErrorKind::FutureVersion
    );
}

#[test]
fn corrupt_and_io_failures_remain_distinct() {
    let mut store = store();
    store.save("corrupt", "m", vec![], NOW);
    replace_payload(
        &mut store,
        "corrupt",
        StoredPayload::Unreadable("key must be a string".to_string()),
    );
    assert_eq!(
        store.load_result("corrupt").unwrap_err().kind(),
        SessionStoreErrorKind::Corrupt
    );
    assert_eq!(
        SessionStoreError::Io {
            permission_denied: false,
            message: "not a directory".to_string(),
        }
        .kind(),
        SessionStoreErrorKind::Io
    );
    assert_eq!(
        SessionStoreError::Io {
            permission_denied: true,
            message: "permission denied".to_string(),
        }
        .kind(),
        SessionStoreErrorKind::Permission
    );
}

#[test]
fn bounded_scan_marks_corrupt_payloads_incomplete_without_exposing_them() {
    let mut store = store();
    store.save("valid", "model", msgs(), NOW);
    store.save("corrupt", "model", msgs(), NOW);
    replace_payload(
        &mut store,
        "corrupt",
        StoredPayload::Unreadable("key must be a string".to_string()),
    );

    let scan = store.scan_summaries(64, None, 10, false, false);
    assert!(!scan.complete);
    assert_eq!(scan.summaries.len(), 1);
    assert_eq!(scan.summaries[0].id, "valid");
}

#[test]
fn list_returns_saved_sessions_with_labels() {
    let mut store = store();
    store.save("s1", "model-a", msgs(), NOW);
    store.save("s2", "model-b", vec![Message::user("only one")], NOW);

    let list = store.list();
    assert_eq!(list.len(), 2);
    let s1 = list.iter().find(|s| s.id == "s1").unwrap();
    assert_eq!(s1.model, "model-a");
    assert_eq!(s1.message_count, 2);
    // Label is the FIRST LINE of the first user message, trimmed.
    assert_eq!(s1.first_user_line.as_deref(), Some("first question"));
}

#[test]
fn bounded_preview_normalizes_whitespace_without_splitting_utf8() {
    let preview =
        first_user_preview(&[Message::user("  alpha   🦀🦀🦀 beta\nignored")], 13).unwrap();
    assert_eq!(preview, "alpha 🦀");
    assert!(preview.len() <= 13);
}

#[test]
fn preview_edges() {
    assert_eq!(normalize_preview("ab cd", 3).as_deref(), Some("ab"));
    assert_eq!(normalize_preview("ab cd", 4).as_deref(), Some("ab c"));
    assert_eq!(normalize_preview("a é", 3).as_deref(), Some("a "));
    assert_eq!(normalize_preview("é", 1), None);
    assert_eq!(normalize_preview("\u{2003}\t", 10), None);
    assert_eq!(first_user_preview(&[Message::user("text")], 0), None);
    let mut blank_first = Message::user("  \nignored");
    blank_first.content.push(ContentBlock::Text("second".to_string()));
    assert_eq!(
        first_user_preview(&[Message::assistant("no"), blank_first], 10).as_deref(),
        Some("second")
    );
}

#[test]
fn list_breaks_equal_mtime_ties_by_session_id() {
    let mut store = store();
    for id in ["session-b", "session-a"] {
        store.save(id, "model", vec![], 1000);
    }

    assert_eq!(
        store
            .list()
            .into_iter()
            .map(|summary| summary.id)
            .collect::<Vec<_>>(),
        vec!["session-a", "session-b"]
    );
}

#[test]
fn list_puts_newer_sessions_first() {
    let mut store = store();
    store.save("a", "m", vec![], 10);
    store.save("b", "m", vec![], 30);
    store.save("c", "m", vec![], 20);
    let ids: Vec<String> = store.list().into_iter().map(|summary| summary.id).collect();
    assert_eq!(ids, vec!["b", "c", "a"]);
}

#[test]
fn delete_is_idempotent_and_rejects_unsafe_ids() {
    let mut store = store();
    store.save("s1", "m", msgs(), NOW);

    assert!(store.delete_unconditionally("s1"));
    assert!(store.load("s1").is_none());
    assert!(!store.delete_unconditionally("s1"));
    assert!(!store.delete_unconditionally("../../etc/passwd"));
}

#[test]
fn bounded_summary_scan_advances_stable_filename_cursor() {
    let mut store = store();
    for id in ["a", "b", "c"] {
        store.save(id, "model", vec![Message::user(id)], NOW);
    }
    let first = store.scan_summaries(64, None, 2, false, false);
    assert!(!first.complete);
    assert_eq!(first.next_cursor.as_deref(), Some("b"));
    let mut ids = first
        .summaries
        .into_iter()
        .map(|summary| summary.id)
        .collect::<Vec<_>>();
    let second = store.scan_summaries(64, first.next_cursor.as_deref(), 2, false, false);
    assert!(second.complete);
    ids.extend(second.summaries.into_iter().map(|summary| summary.id));
    ids.sort();
    assert_eq!(ids, vec!["a", "b", "c"]);
    let suffixed = store.scan_summaries(64, Some("b.json"), 2, false, false);
    assert_eq!(suffixed.summaries[0].id, "c");
}

#[test]
fn expired_summary_scan_is_explicitly_incomplete() {
    let mut store = store();
    store.save("a", "model", vec![Message::user("a")], NOW);
    let scan = store.scan_summaries(64, None, 2, true, true);
    assert!(!scan.complete);
    assert!(scan.summaries.is_empty());
}

#[test]
fn claims_report_what_stands_in_their_way() {
    let mut store = store();
    assert_eq!(
        store.claim_writer("a b", None).unwrap_err(),
        SessionStoreError::UnsafeId
    );
    assert_eq!(
        store.claim_writer("gone", Some(4)).unwrap_err().message(),
        "session changed while claiming writer epoch: expected generation 4, found None"
    );
    store.save("here", "m", vec![], NOW);
    assert_eq!(
        store.claim_writer("here", None).unwrap_err(),
        SessionStoreError::AlreadyExists
    );
    assert_eq!(
        store.claim_writer("here", Some(2)).unwrap_err().message(),
        "session changed while claiming writer epoch: expected generation 2, found Some(1)"
    );
}

#[test]
fn fresh_epochs_are_safe_version_four_identifiers() {
    let mut store = store();
    let first = store.claim_writer("x", None).unwrap();
    let second = store.claim_writer("x", None).unwrap();
    assert_ne!(first.epoch, second.epoch);
    assert_eq!(first.epoch.len(), 36);
    assert_eq!(first.epoch.as_bytes()[14], b'4');
    assert!(SessionStore::valid_id(&first.epoch));
    assert_eq!(store.writer("x"), Some(&second));
}

#[test]
fn automatic_saves_need_an_unclaimed_session() {
    let mut store = store();
    assert_eq!(
        store.save_acp_result("../x", capture("m", vec![]), 8, NOW),
        Err(SessionWriteError::InvalidId)
    );
    assert_eq!(SessionWriteError::InvalidId.message(), "session id is invalid");
    store.put_writer(SessionWriter {
        session_id: "claimed".to_string(),
        epoch: "e".to_string(),
    });
    assert_eq!(
        store.save_acp_result("claimed", capture("m", vec![]), 8, NOW),
        Err(SessionWriteError::AutomaticWriterSuperseded)
    );
    store.put_row(StoredRow {
        session_id: "last".to_string(),
        generation: u64::MAX,
        payload: StoredPayload::Unreadable(String::new()),
        preview: None,
        updated_at_unix_ns: 0,
    });
    assert_eq!(
        store.save_acp_result("last", capture("m", vec![]), 8, NOW),
        Err(SessionWriteError::AutomaticGenerationStale)
    );
    let write = store
        .save_acp_result("free", capture("m", msgs()), 5, NOW)
        .unwrap();
    assert_eq!(write.summary.first_user_line.as_deref(), Some("first"));
    assert_eq!(write.updated_at_unix_ns, NOW);
    assert_eq!(store.load("free").unwrap().generation, 1);
}

#[test]
fn schema_and_directory_checks() {
    assert!(check_schema_version(1).is_ok());
    assert_eq!(
        check_schema_version(2),
        Err(SessionStoreError::FutureVersion { found: 2, supported: 1 })
    );
    assert_eq!(
        check_schema_version(-3),
        Err(SessionStoreError::UnsupportedVersion { found: 0, supported: 1 })
    );
    assert!(check_directory_owner(7, 7).is_ok());
    assert_eq!(
        check_directory_owner(7, 8).unwrap_err().kind(),
        SessionStoreErrorKind::Permission
    );
    assert_eq!(system_time_unix_ns(None), 0);
    assert_eq!(system_time_unix_ns(Some(u128::MAX)), u64::MAX);
    assert_eq!(system_time_unix_ns(Some(5)), 5);
}

#[test]
fn preview_skips_user_messages_without_text() {
    let mut result_only = Message::user("unused");
    result_only.content = vec![ContentBlock::ToolResult {
        tool_use_id: "t".to_string(),
        content: "ok".to_string(),
        is_error: false,
    }];
    let messages = [result_only.clone(), Message::user("hi")];
    assert_eq!(first_user_preview(&messages, 64).as_deref(), Some("hi"));
    assert_eq!(first_user_preview(&[result_only], 64), None);
    // A user message whose text is blank is still the first one with text.
    assert_eq!(first_user_preview(&[Message::user(" "), Message::user("hi")], 64), None);
}

#[test]
fn scans_that_follow_their_cursors_see_every_session_once() {
    let mut store = store();
    for (id, at) in [("c", 5), ("a", 9), ("e", 1), ("b", 2), ("d", 7)] {
        store.save(id, "model", vec![], at);
    }
    for max_entries in 1..7 {
        let mut seen = Vec::new();
        let mut cursor: Option<String> = None;
        loop {
            let scan = store.scan_summaries(64, cursor.as_deref(), max_entries, false, false);
            seen.extend(scan.summaries.into_iter().map(|summary| summary.id));
            assert_eq!(scan.complete, scan.next_cursor.is_none());
            cursor = scan.next_cursor;
            if cursor.is_none() {
                break;
            }
        }
        seen.sort();
        assert_eq!(seen, vec!["a", "b", "c", "d", "e"]);
    }
}

#[test]
fn latest_claim_writes_until_the_session_is_deleted() {
    let mut store = store();
    let first = store.claim_writer_as("s", None, "epoch-1".to_string()).unwrap();
    let other = store.claim_writer_as("t", None, "epoch-1".to_string()).unwrap();
    let second = store.claim_writer_as("s", None, "epoch-2".to_string()).unwrap();
    let saved = |store: &mut SessionStore, writer: &SessionWriter, generation: u64| {
        store
            .save_acp_generation_result(writer, generation, capture("model", msgs()), 64, NOW)
            .unwrap()
    };
    assert_eq!(saved(&mut store, &first, 9), SessionWriteOutcome::Superseded);
    assert!(store.load("s").is_none());
    assert!(matches!(saved(&mut store, &second, 4), SessionWriteOutcome::Saved(_)));
    let loaded = store.load("s").unwrap();
    assert_eq!(loaded.generation, 4);
    assert_eq!(loaded.thinking.as_deref(), Some("medium"));
    assert_eq!(loaded.cwd.as_deref(), Some("/workspace"));
    assert_eq!(loaded.messages, msgs());
    assert_eq!(
        saved(&mut store, &second, 4),
        SessionWriteOutcome::Stale { stored_generation: 4 }
    );
    assert_eq!(store.load("s").unwrap(), loaded);
    assert!(store.delete_unconditionally("s"));
    assert_eq!(saved(&mut store, &second, 5), SessionWriteOutcome::Superseded);
    assert!(store.load("s").is_none());
    assert!(matches!(saved(&mut store, &other, 1), SessionWriteOutcome::Saved(_)));
}

#[test]
fn chat_saves_go_one_generation_on() {
    let mut store = store();
    store.save("chat", "model", msgs(), NOW);
    let loaded = store.load("chat").unwrap();
    assert_eq!(loaded.version, SESSION_PERSIST_VERSION);
    assert_eq!(loaded.generation, 1);
    assert_eq!((loaded.thinking, loaded.cwd), (None, None));
    assert!(loaded.client_user_message_ids.is_empty() && loaded.assistant_outcomes.is_empty());
    store.save("chat", "model", vec![], NOW);
    let loaded = store.load("chat").unwrap();
    assert_eq!((loaded.generation, loaded.messages), (2, vec![]));
    store.claim_writer("chat", Some(2)).unwrap();
    store.save("chat", "other", msgs(), NOW);
    assert_eq!(store.load("chat").unwrap().model, "model");
    store.save("a/b", "model", msgs(), NOW);
    assert!(store.load("a/b").is_none());
    assert_eq!(store.list().len(), 1);
}

#[test]
fn scan_batches_are_bounded_and_ordered() {
    let mut store = store();
    for (id, at) in [("a", 1), ("b", 9), ("c", 9), ("d", 5), ("e", 7)] {
        store.save(id, "model", vec![], at);
    }
    let scan = store.scan_summaries(64, None, 3, false, false);
    let ids: Vec<&str> = scan.summaries.iter().map(|summary| summary.id.as_str()).collect();
    assert_eq!(ids, vec!["b", "c", "a"]);
    assert_eq!(scan.next_cursor.as_deref(), Some("c"));
    assert!(!scan.complete);
    let scan = store.scan_summaries(64, Some("c"), 3, false, true);
    let ids: Vec<&str> = scan.summaries.iter().map(|summary| summary.id.as_str()).collect();
    assert_eq!(ids, vec!["e", "d"]);
    assert_eq!(scan.next_cursor, None);
    assert!(!scan.complete);
    assert!(store.scan_summaries(64, Some("c"), 3, false, false).complete);
    assert_eq!(store.scan_summaries(64, None, 0, false, false).summaries.len(), 1);
}
