use daimonos_session::providers::Message;
use daimonos_session::session_interchange::{
    archive_read_limit, decode, encode, JsonSessionEnvelope, SessionFormat,
    SessionInterchangeError, SessionTransferError, DAIMONOS_SESSION_FORMAT,
};
use daimonos_session::session_store::{
    PersistedSession, SessionStore, SessionStoreError, SESSION_PERSIST_VERSION,
};
use serde_json::Value;

fn session() -> PersistedSession {
    PersistedSession {
        version: SESSION_PERSIST_VERSION,
        generation: 7,
        session_id: "session-1".to_string(),
        model: "test-model".to_string(),
        thinking: Some("medium".to_string()),
        cwd: Some("/workspace".to_string()),
        client_user_message_ids: vec!["user-1".to_string()],
        assistant_outcomes: Vec::new(),
        messages: vec![Message::user("hello")],
    }
}

fn to_json(envelope: &JsonSessionEnvelope) -> Result<Vec<u8>, String> {
    let mut map = serde_json::Map::new();
    map.insert("format".to_string(), Value::String(envelope.format.clone()));
    map.insert("version".to_string(), Value::from(envelope.session.version));
    map.insert("generation".to_string(), Value::from(envelope.session.generation));
    map.insert("session_id".to_string(), Value::String(envelope.session.session_id.clone()));
    map.insert("model".to_string(), Value::String(envelope.session.model.clone()));
    map.insert("messages".to_string(), Value::from(envelope.session.messages.len()));
    serde_json::to_vec_pretty(&Value::Object(map)).map_err(|error| error.to_string())
}

fn from_json(bytes: &[u8]) -> Result<JsonSessionEnvelope, String> {
    let value: Value = serde_json::from_slice(bytes).map_err(|error| error.to_string())?;
    let text = |name: &str| {
        value.get(name).and_then(Value::as_str).map(str::to_string).ok_or(format!("no {name}"))
    };
    let mut session = session();
    session.session_id = text("session_id")?;
    session.model = text("model")?;
    session.generation = value.get("generation").and_then(Value::as_u64).unwrap_or_default();
    session.messages.truncate(
        value.get("messages").and_then(Value::as_u64).unwrap_or_default() as usize,
    );
    Ok(JsonSessionEnvelope { format: text("format")?, session })
}

#[test]
fn json_archive_round_trips_provider_neutral_session() {
    let bytes = encode(SessionFormat::Json, &session(), to_json).unwrap();
    assert_eq!(bytes.last(), Some(&b'\n'));
    let json: Value = serde_json::from_slice(&bytes).unwrap();
    assert_eq!(json["format"], DAIMONOS_SESSION_FORMAT);
    assert_eq!(json["session_id"], "session-1");

    let decoded = decode(SessionFormat::Json, &bytes, from_json).unwrap();
    assert_eq!(decoded.session_id, "session-1");
    assert_eq!(decoded.generation, 7);
    assert_eq!(decoded.messages.len(), 1);
}

#[test]
fn json_archive_requires_daimonos_envelope_and_session_id() {
    let wrong = br#"{"format":"other","version":1,"session_id":"x","model":"m","messages":[]}"#;
    assert!(matches!(
        decode(SessionFormat::Json, wrong, from_json),
        Err(SessionInterchangeError::InvalidEnvelope(_))
    ));
    let missing =
        br#"{"format":"daimonos.session","version":1,"session_id":"","model":"m","messages":[]}"#;
    assert!(matches!(
        decode(SessionFormat::Json, missing, from_json),
        Err(SessionInterchangeError::InvalidEnvelope(_))
    ));
}

#[test]
fn formats_are_named_in_any_case() {
    assert_eq!(SessionFormat::parse("JSON"), Ok(SessionFormat::Json));
    let error = SessionFormat::parse("yaml").unwrap_err();
    assert_eq!(error.message(), "unsupported session format: yaml");
    assert_eq!(SessionFormat::from_path("a.Json", Some("Json")), Ok(SessionFormat::Json));
    assert_eq!(
        SessionFormat::from_path("archive", None),
        Err(SessionInterchangeError::UnsupportedFormat("archive".to_string()))
    );
}

#[test]
fn archives_enter_and_leave_the_store() {
    let mut store = SessionStore::new("/sessions".to_string());
    let bytes = encode(SessionFormat::Json, &session(), to_json).unwrap();
    assert_eq!(
        store.import_archive(SessionFormat::Json, &bytes, from_json, 10, 64, 1),
        Err(SessionTransferError::TooLarge)
    );
    assert_eq!(
        store.import_archive(SessionFormat::Json, &bytes, from_json, 4_096, 64, 1),
        Ok("session-1".to_string())
    );
    let again = store
        .import_archive(SessionFormat::Json, &bytes, from_json, 4_096, 64, 1)
        .unwrap_err();
    assert_eq!(again, SessionTransferError::Import(SessionStoreError::AlreadyExists));
    assert_eq!(again.message(), "session import failed: session id already exists");
    let broken = store
        .import_archive(SessionFormat::Json, b"{", from_json, 4_096, 64, 1)
        .unwrap_err();
    assert!(matches!(
        broken,
        SessionTransferError::Archive(SessionInterchangeError::Json(_))
    ));
    let exported = store.export_archive("session-1", SessionFormat::Json, to_json).unwrap();
    assert_eq!(decode(SessionFormat::Json, &exported, from_json).unwrap().generation, 1);
    let missing = store.export_archive("gone", SessionFormat::Json, to_json).unwrap_err();
    assert_eq!(missing.message(), "session export failed: persisted session was not found");
    assert_eq!(archive_read_limit(10), 11);
    assert_eq!(archive_read_limit(usize::MAX), u64::MAX);
}
