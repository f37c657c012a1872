use daimonos_session::providers::Message;
use daimonos_session::session_daemon::{SessionOpenError, SessionOpenMode};
use daimonos_session::session_factory::{
    canonical_session_workspace, missing_persisted_ids, persisted_id_is_missing, runtime_options,
    session_open_error, AgentSessionFactory,
};
use daimonos_session::session_protocol::{RuntimeOptionSpec, RuntimeValue};
use daimonos_session::session_store::{
    SaveCapture, SessionStore, SessionStoreErrorKind, SessionSummary, SessionSummaryScan,
    StoredPayload, StoredRow,
};

fn levels() -> Vec<String> {
    vec!["low".to_string(), "medium".to_string(), "high".to_string()]
}

fn factory() -> AgentSessionFactory<u8> {
    AgentSessionFactory::new(
        "/work/project".to_string(),
        b"/work/project",
        Some("project"),
        64,
        "default-model".to_string(),
        vec!["default-model".to_string(), "saved-model".to_string()],
        "medium".to_string(),
        levels(),
    )
}

fn capture(thinking: &str, text: &str, cwd: &str) -> SaveCapture {
    SaveCapture {
        model: "saved-model".to_string(),
        thinking: thinking.to_string(),
        messages: vec![Message::user(text)],
        cwd: cwd.to_string(),
        client_user_message_ids: Vec::new(),
        assistant_outcomes: Vec::new(),
    }
}

#[test]
fn loaded_core_seeds_reconnect_snapshot_from_persisted_history() {
    let mut store = SessionStore::new("/sessions".to_string());
    store.save_acp("session-1", capture("high", "first", "/work/project/."), 1);
    store.save_acp("foreign-session", capture("medium", "foreign", "/elsewhere"), 2);
    let factory = factory();

    let record = factory
        .load_for_open(&store, "session-1", SessionOpenMode::Load)
        .unwrap()
        .expect("a stored session");
    assert_eq!(factory.check_workspace(&record, Ok("/work/project".to_string())), Ok(()));
    let record = Some(record);
    let start = factory.session_start(&record, Some("high".to_string()));
    assert_eq!(start.model, "saved-model");
    assert_eq!(start.thinking, "high");
    assert_eq!(start.generation, Some(record.as_ref().unwrap().generation));
    assert!(!start.persist_now);
    assert!(start.runtime_options.iter().any(|option| {
        option.id == "thinking" && option.value == RuntimeValue::String("high".to_string())
    }));

    let start = factory.session_start(&record, None);
    assert_eq!(start.thinking, "medium", "an unknown level falls back");

    let foreign = factory
        .load_for_open(&store, "foreign-session", SessionOpenMode::Load)
        .unwrap()
        .unwrap();
    assert_eq!(
        factory.check_workspace(&foreign, Ok("/elsewhere".to_string())),
        Err(SessionOpenError::WorkspaceMismatch)
    );
    assert_eq!(
        factory.check_workspace(&foreign, Err(SessionStoreErrorKind::Io)),
        Err(SessionOpenError::Io)
    );
    store.put_row(StoredRow {
        session_id: "corrupt".to_string(),
        generation: 1,
        payload: StoredPayload::Unreadable("{not-json".to_string()),
        preview: None,
        updated_at_unix_ns: 3,
    });
    assert_eq!(
        factory.load_for_open(&store, "corrupt", SessionOpenMode::Load),
        Err(SessionOpenError::Corrupt)
    );
    assert_eq!(
        factory.load_for_open(&store, "missing", SessionOpenMode::Load),
        Err(SessionOpenError::NotFound)
    );
    store.save("workspace-unknown", "saved-model", Vec::new(), 4);
    let unknown = factory
        .load_for_open(&store, "workspace-unknown", SessionOpenMode::Load)
        .unwrap()
        .unwrap();
    assert_eq!(
        factory.check_workspace(&unknown, Ok("/work/project".to_string())),
        Err(SessionOpenError::WorkspaceUnknown)
    );
    assert!(persisted_id_is_missing(&store, "../../unsafe"));
    assert!(!persisted_id_is_missing(&store, "corrupt"));
    assert_eq!(
        missing_persisted_ids(
            &store,
            &vec!["corrupt".to_string(), "gone".to_string(), "session-1".to_string()],
        ),
        vec!["gone".to_string()]
    );
}

#[test]
fn created_core_executes_and_persists_completed_turn() {
    let store = SessionStore::new("/sessions".to_string());
    let factory = factory().with_catalog_writer(5);
    assert_eq!(factory.catalog_writer, Some(5));
    let record = factory.load_for_open(&store, "session-1", SessionOpenMode::Create).unwrap();
    assert!(record.is_none());
    let start = factory.session_start(&record, None);
    assert_eq!(start.model, "default-model");
    assert_eq!(start.thinking, "medium");
    assert_eq!(start.generation, None);
    assert!(start.persist_now);
}

#[test]
fn workspace_names_are_digests_and_labels() {
    let workspace = canonical_session_workspace(b"abc", Some("project"), 64);
    assert_eq!(workspace.id, "ws_ba7816bf8f01cfea414140de5dae2223");
    assert_eq!(workspace.label, "project");
    assert_eq!(canonical_session_workspace(b"/", None, 4).label, "work");
    assert_eq!(canonical_session_workspace(b"/", Some(""), 64).label, "workspace");
    assert_eq!(canonical_session_workspace(b"/x", Some("añb"), 2).label, "a");
    assert_eq!(
        factory().workspace_identity().unwrap().label,
        "project"
    );
}

#[test]
fn current_model_is_offered_first_and_once() {
    let options = runtime_options(
        &vec!["b".to_string(), "a".to_string(), "b".to_string()],
        &"a".to_string(),
        &"low".to_string(),
        &levels(),
    );
    let RuntimeOptionSpec::Select { choices } = &options[0].spec else {
        panic!("models are chosen from");
    };
    assert_eq!(
        choices.iter().map(|choice| choice.id.as_str()).collect::<Vec<_>>(),
        vec!["a", "b"]
    );
    let RuntimeOptionSpec::Select { choices } = &options[1].spec else {
        panic!("levels are chosen from");
    };
    assert_eq!(choices.len(), 3);
    assert_eq!(options[1].value, RuntimeValue::String("low".to_string()));
}

#[test]
fn store_errors_become_open_errors() {
    for (kind, error) in [
        (SessionStoreErrorKind::UnsafeId, SessionOpenError::UnsafeId),
        (SessionStoreErrorKind::AlreadyExists, SessionOpenError::Internal),
        (SessionStoreErrorKind::WriterChanged, SessionOpenError::Io),
        (SessionStoreErrorKind::NotFound, SessionOpenError::NotFound),
        (SessionStoreErrorKind::FutureVersion, SessionOpenError::FutureVersion),
        (SessionStoreErrorKind::UnsupportedVersion, SessionOpenError::UnsupportedVersion),
        (SessionStoreErrorKind::Corrupt, SessionOpenError::Corrupt),
        (SessionStoreErrorKind::Permission, SessionOpenError::Permission),
        (SessionStoreErrorKind::Database, SessionOpenError::Io),
        (SessionStoreErrorKind::Io, SessionOpenError::Io),
    ] {
        assert_eq!(session_open_error(kind), error);
        assert_eq!(SessionOpenError::from(kind), error);
    }
}

fn summary(id: &str, cwd: Option<&str>) -> SessionSummary {
    SessionSummary {
        id: id.to_string(),
        model: "m".to_string(),
        message_count: 1,
        cwd: cwd.map(str::to_string),
        updated_at: None,
        first_user_line: None,
    }
}

#[test]
fn scans_keep_only_this_workspace() {
    let factory = factory();
    let scan = SessionSummaryScan {
        summaries: vec![
            summary("here", Some("/work/project/.")),
            summary("there", Some("/other")),
            summary("nowhere", None),
        ],
        next_cursor: Some("c".to_string()),
        complete: true,
    };
    let kept = factory.scan_workspace(
        scan,
        &vec![Some("/work/project".to_string()), Some("/other".to_string()), None],
    );
    assert!(kept.complete);
    assert_eq!(kept.next_cursor.as_deref(), Some("c"));
    assert_eq!(kept.summaries.len(), 1);
    assert_eq!(kept.summaries[0].id, "here");
    let scan = SessionSummaryScan {
        summaries: vec![summary("gone", Some("/removed"))],
        next_cursor: None,
        complete: true,
    };
    assert!(!factory.scan_workspace(scan, &vec![None]).complete);
}
