use daimonos_session::providers::{ContentBlock, Message};
use daimonos_session::session_core::compaction::SessionCompaction;
use daimonos_session::session_core::persistence::{
    is_retryable_persistence_error, IoErrorKind, PersistenceAttempt, PersistenceCapture,
    PersistenceHealth, PersistenceRetryPolicy, PersistenceSaveOutcome, PersistenceStep,
    PersistenceTracker, SessionPersistence,
};
use daimonos_session::session_core::SessionCore;
use daimonos_session::session_protocol::AssistantOutcome;
use daimonos_session::session_store::{SaveCapture, SessionStore};

fn store() -> SessionStore {
    SessionStore::new("/sessions".to_string())
}

fn single_attempt() -> PersistenceRetryPolicy {
    PersistenceRetryPolicy::new(1, 0, 0)
}

fn capture(through_seq: u64, text: &str) -> PersistenceCapture {
    PersistenceCapture {
        generation: through_seq,
        through_seq,
        capture: SaveCapture {
            model: "model".to_string(),
            thinking: "medium".to_string(),
            messages: vec![Message::user(text)],
            cwd: "/workspace".to_string(),
            client_user_message_ids: Vec::new(),
            assistant_outcomes: Vec::new(),
        },
    }
}

/// Runs the saves of one request until they settle. Each attempt fails with the
/// next of the given errors, or goes to the store.
fn persist(
    tracker: &mut PersistenceTracker,
    persistence: &mut SessionPersistence,
    store: &mut SessionStore,
    failures: &mut Vec<IoErrorKind>,
    text: &str,
) {
    let request = tracker.register();
    let Some(mut run) = tracker.start_run(persistence, request) else {
        return;
    };
    loop {
        let generation = tracker.mint_generation();
        let attempt = if failures.is_empty() {
            match persistence.save(store, capture(generation, text), 1) {
                Ok((outcome, _)) => PersistenceAttempt::Settled(outcome),
                Err(_) => PersistenceAttempt::Failed { retryable: false },
            }
        } else {
            PersistenceAttempt::Failed {
                retryable: is_retryable_persistence_error(failures.remove(0)),
            }
        };
        match tracker.settle_attempt(persistence, run, attempt) {
            PersistenceStep::Finished => return,
            PersistenceStep::RetryAfter { run: next, .. } => run = next,
        }
    }
}

fn text_of(store: &SessionStore, id: &str) -> String {
    match &store.load(id).unwrap().messages[0].content[0] {
        ContentBlock::Text(text) => text.clone(),
        other => panic!("not text: {other:?}"),
    }
}

#[test]
fn retryable_save_failure_recaptures_and_recovers() {
    let mut store = store();
    let mut persistence = SessionPersistence::new(
        "session-1",
        &mut store,
        PersistenceRetryPolicy::new(3, 1_000_000, 2_000_000),
    );
    let mut tracker = PersistenceTracker::new();
    persist(
        &mut tracker,
        &mut persistence,
        &mut store,
        &mut vec![IoErrorKind::Interrupted],
        "text",
    );
    assert_eq!(tracker.generation, 2);
    assert_eq!(tracker.persistence_health(Some(&persistence)), PersistenceHealth::Clean);
    assert!(store.load("session-1").is_some());
}

#[test]
fn nonretryable_save_failure_remains_degraded() {
    let mut store = store();
    let mut persistence = SessionPersistence::new(
        "session-1",
        &mut store,
        PersistenceRetryPolicy::new(3, 1_000_000, 2_000_000),
    );
    let mut tracker = PersistenceTracker::new();
    persist(
        &mut tracker,
        &mut persistence,
        &mut store,
        &mut vec![IoErrorKind::PermissionDenied],
        "text",
    );
    assert_eq!(tracker.generation, 1);
    assert_eq!(
        tracker.persistence_health(Some(&persistence)),
        PersistenceHealth::Degraded { retryable: false }
    );
    assert!(store.load("session-1").is_none());
}

#[test]
fn retryable_save_failure_exhausts_configured_attempt_bound() {
    let mut store = store();
    let mut persistence =
        SessionPersistence::new("session-1", &mut store, PersistenceRetryPolicy::new(3, 0, 0));
    let mut tracker = PersistenceTracker::new();
    persist(
        &mut tracker,
        &mut persistence,
        &mut store,
        &mut vec![IoErrorKind::Interrupted; 4],
        "text",
    );
    assert_eq!(tracker.generation, 3);
    assert_eq!(
        tracker.persistence_health(Some(&persistence)),
        PersistenceHealth::Degraded { retryable: true }
    );
    assert_eq!(tracker.completed, 1);
    assert!(store.load("session-1").is_none());
}

#[test]
fn persistence_error_retryability_is_explicit() {
    for kind in [IoErrorKind::Interrupted, IoErrorKind::WouldBlock, IoErrorKind::TimedOut] {
        assert!(is_retryable_persistence_error(kind));
    }
    for kind in [
        IoErrorKind::PermissionDenied,
        IoErrorKind::InvalidData,
        IoErrorKind::NotFound,
        IoErrorKind::StorageFull,
    ] {
        assert!(!is_retryable_persistence_error(kind));
    }
}

#[test]
fn concurrent_save_requests_coalesce_to_latest_capture() {
    let mut store = store();
    let mut persistence = SessionPersistence::new("session-1", &mut store, single_attempt());
    let mut tracker = PersistenceTracker::new();
    let first = tracker.register();
    let second = tracker.register();
    let run = tracker.start_run(&mut persistence, first).expect("the first request runs");
    let generation = tracker.mint_generation();
    let (outcome, _) = persistence.save(&mut store, capture(generation, "latest"), 1).unwrap();
    assert_eq!(
        tracker.settle_attempt(&mut persistence, run, PersistenceAttempt::Settled(outcome)),
        PersistenceStep::Finished
    );
    assert!(tracker.start_run(&mut persistence, second).is_none());
    assert_eq!(tracker.generation, 1);
    assert_eq!(tracker.persistence_health(Some(&persistence)), PersistenceHealth::Clean);
}

#[test]
fn request_registered_after_capture_gets_its_own_save() {
    let mut store = store();
    let mut persistence = SessionPersistence::new("session-1", &mut store, single_attempt());
    let mut tracker = PersistenceTracker::new();
    let first = tracker.register();
    let run = tracker.start_run(&mut persistence, first).unwrap();
    let generation = tracker.mint_generation();
    let old = capture(generation, "old request");
    let second = tracker.register();
    let (outcome, _) = persistence.save(&mut store, old, 1).unwrap();
    tracker.settle_attempt(&mut persistence, run, PersistenceAttempt::Settled(outcome));
    let run = tracker.start_run(&mut persistence, second).expect("the second request runs");
    let generation = tracker.mint_generation();
    let (outcome, _) =
        persistence.save(&mut store, capture(generation, "new request"), 2).unwrap();
    tracker.settle_attempt(&mut persistence, run, PersistenceAttempt::Settled(outcome));
    assert_eq!(tracker.generation, 2);
    assert_eq!(tracker.persistence_health(Some(&persistence)), PersistenceHealth::Clean);
    assert_eq!(text_of(&store, "session-1"), "new request");
}

#[test]
fn stale_generation_fast_forwards_and_recaptures() {
    let mut store = store();
    let mut persistence =
        SessionPersistence::new("session-1", &mut store, PersistenceRetryPolicy::new(2, 0, 0));
    persistence.save(&mut store, capture(100, "earlier"), 1).unwrap();
    let mut tracker = PersistenceTracker::new();
    persist(&mut tracker, &mut persistence, &mut store, &mut Vec::new(), "later");
    assert_eq!(tracker.generation, 101);
    assert_eq!(tracker.persistence_health(Some(&persistence)), PersistenceHealth::Clean);
    assert_eq!(tracker.completed, 1);
    assert_eq!(store.load_result("session-1").unwrap().generation, 101);
}

#[test]
fn reopened_writer_epoch_rejects_delayed_old_core_save() {
    let mut store = store();
    let mut old = SessionPersistence::new("session-1", &mut store, single_attempt());
    let mut old_tracker = PersistenceTracker::new();
    persist(&mut old_tracker, &mut old, &mut store, &mut Vec::new(), "old runtime");

    let mut new = SessionPersistence::new("session-1", &mut store, single_attempt());
    let mut new_tracker = PersistenceTracker::new();
    new_tracker.initialize_generation(1);
    persist(&mut old_tracker, &mut old, &mut store, &mut Vec::new(), "delayed");
    persist(&mut new_tracker, &mut new, &mut store, &mut Vec::new(), "new runtime");

    assert_eq!(
        old_tracker.persistence_health(Some(&old)),
        PersistenceHealth::Superseded
    );
    assert_eq!(store.load_result("session-1").unwrap().generation, 2);
    assert_eq!(text_of(&store, "session-1"), "new runtime");
}

#[test]
fn daemon_persistence_updates_and_tombstones_catalog() {
    let mut store = store();
    let mut persistence =
        SessionPersistence::new("session-1", &mut store, single_attempt()).with_catalog_writer(64);
    let mut first = capture(1, "hello");
    first.capture.client_user_message_ids = vec!["prompt-1".to_string()];
    let (outcome, write) = persistence.save(&mut store, first, 5).unwrap();
    assert_eq!(outcome, PersistenceSaveOutcome::Saved);
    let write = write.expect("the catalog is told");
    assert_eq!(write.summary.first_user_line.as_deref(), Some("hello"));
    let (deleted, tombstone) = persistence.delete(&mut store);
    assert!(deleted);
    assert!(tombstone);
}

#[test]
fn persistence_writer_rejects_lower_generation_and_orders_equal_sequence() {
    let mut store = store();
    let mut persistence = SessionPersistence::new("session-1", &mut store, single_attempt());
    assert_eq!(
        persistence.save(&mut store, capture(2, "newer"), 1).unwrap().0,
        PersistenceSaveOutcome::Saved
    );
    assert_eq!(
        persistence.save(&mut store, capture(1, "stale"), 2).unwrap().0,
        PersistenceSaveOutcome::SkippedStale { stored_generation: 2 }
    );
    assert_eq!(text_of(&store, "session-1"), "newer");

    let mut equal_sequence = capture(2, "equal");
    equal_sequence.generation = 3;
    assert_eq!(
        persistence.save(&mut store, equal_sequence, 3).unwrap().0,
        PersistenceSaveOutcome::Saved
    );
    assert_eq!(text_of(&store, "session-1"), "equal");
}

#[test]
fn deleted_session_takes_no_more_saves() {
    let mut store = store();
    let mut persistence = SessionPersistence::new("session-1", &mut store, single_attempt());
    persistence.save(&mut store, capture(1, "hello"), 1).unwrap();
    let (deleted, _) = persistence.delete(&mut store);
    assert!(deleted);
    assert_eq!(
        persistence.save(&mut store, capture(2, "late"), 2).unwrap().0,
        PersistenceSaveOutcome::SkippedDeleted
    );
    assert!(store.load("session-1").is_none());
    assert!(!persistence.delete_needed());
}

#[test]
fn retry_delays_double_up_to_their_bound() {
    let mut store = store();
    let mut persistence =
        SessionPersistence::new("session-1", &mut store, PersistenceRetryPolicy::new(4, 10, 15));
    let mut tracker = PersistenceTracker::new();
    let request = tracker.register();
    let mut run = tracker.start_run(&mut persistence, request).unwrap();
    let mut delays = Vec::new();
    loop {
        match tracker.settle_attempt(
            &mut persistence,
            run,
            PersistenceAttempt::Failed { retryable: true },
        ) {
            PersistenceStep::Finished => break,
            PersistenceStep::RetryAfter { delay, run: next } => {
                delays.push(delay);
                run = next;
            }
        }
    }
    assert_eq!(delays, vec![10, 15, 15]);
}

fn stored_core(store: &mut SessionStore) -> SessionCore<u64> {
    let persistence = SessionPersistence::claim("session-1", store, None, single_attempt())
        .expect("a new session")
        .with_catalog_writer(64);
    SessionCore::new(
        "model".to_string(),
        "medium".to_string(),
        "/workspace".to_string(),
        SessionCompaction::new(None, false),
        Some(persistence),
    )
}

fn save_core(core: &mut SessionCore<u64>, store: &mut SessionStore, through_seq: u64) {
    let capture =
        core.capture_persistence(through_seq, "model".to_string(), vec![Message::user("hello")]);
    assert_eq!(capture.through_seq, through_seq);
    assert_eq!(capture.generation, core.tracker.generation);
    let persistence = core.persistence.as_mut().unwrap();
    persistence.save(store, capture, 1).unwrap();
}

#[test]
fn explicit_stop_deletes_persisted_session() {
    let mut store = store();
    let mut core = stored_core(&mut store);
    core.client_user_message_ids = vec!["request-1".to_string()];
    core.assistant_outcomes = vec![AssistantOutcome::Completed];
    save_core(&mut core, &mut store, 3);
    let record = store.load("session-1").expect("the session is stored");
    assert_eq!(record.client_user_message_ids, vec!["request-1".to_string()]);
    assert_eq!(record.assistant_outcomes, vec![AssistantOutcome::Completed]);
    assert_eq!(core.persistence_health(), PersistenceHealth::Clean);

    assert_eq!(core.delete_persisted(&mut store), (true, true));
    assert!(store.load("session-1").is_none());
    assert_eq!(core.delete_persisted(&mut store), (false, false));
}

#[test]
fn explicit_stop_cannot_race_persistence_recreation() {
    let mut store = store();
    let mut core = stored_core(&mut store);
    save_core(&mut core, &mut store, 1);
    core.delete_persisted(&mut store);
    save_core(&mut core, &mut store, 2);
    assert!(store.load("session-1").is_none());
}

#[test]
fn daemon_shutdown_preserves_persisted_session() {
    let mut store = store();
    let mut core = stored_core(&mut store);
    save_core(&mut core, &mut store, 1);
    drop(core);
    assert!(store.load("session-1").is_some());
}

#[test]
fn sessions_stored_nowhere_have_nothing_to_delete() {
    let mut store = store();
    let mut core: SessionCore<u64> = SessionCore::new(
        "model".to_string(),
        "medium".to_string(),
        "/workspace".to_string(),
        SessionCompaction::new(None, false),
        None,
    );
    assert_eq!(core.delete_persisted(&mut store), (false, false));
    core.tracker.register();
    assert_eq!(core.persistence_health(), PersistenceHealth::Dirty);
    assert!(core.runtime_options().is_empty());
}
