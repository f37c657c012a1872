//! When a session is saved, which save wins, and how failures are retried.
use vstd::prelude::*;
use crate::foreign::uuid_text;
use crate::session_store::{
    claim_error, holds_epoch, loadable, safe_id, saved_with_outcome, PersistedWrite, SaveCapture,
    SessionStore, SessionStoreError, SessionWriteError, SessionWriteOutcome, SessionWriter,
};

verus! {

/// The I/O failures that the library tells apart.
#[derive(Debug, Clone, Copy, PartialEq, Eq, Structural)]
pub enum IoErrorKind {
    NotFound,
    PermissionDenied,
    ConnectionReset,
    ConnectionAborted,
    WouldBlock,
    InvalidData,
    TimedOut,
    Interrupted,
    OutOfMemory,
    StorageFull,
    Other,
}

/// Failures that may pass by themselves.
pub open spec fn retryable_kind(kind: IoErrorKind) -> bool {
    kind is Interrupted || kind is WouldBlock || kind is TimedOut
}

pub fn is_retryable_persistence_error(kind: IoErrorKind) -> (retryable: bool)
    ensures
        retryable == retryable_kind(kind),
{
    matches!(kind, IoErrorKind::Interrupted | IoErrorKind::WouldBlock | IoErrorKind::TimedOut)
}

/// How often and how patiently a save is retried. Durations are in nanoseconds.
#[derive(Debug, Clone, Copy, PartialEq, Eq, Structural)]
pub struct PersistenceRetryPolicy {
    pub attempts: usize,
    pub initial_backoff: u128,
    pub max_backoff: u128,
}

impl PersistenceRetryPolicy {
    /// At least one attempt is made, and the backoff never shrinks.
    pub open spec fn well_formed(self) -> bool {
        self.attempts >= 1 && self.initial_backoff <= self.max_backoff
    }

    pub fn new(attempts: usize, initial_backoff: u128, max_backoff: u128) -> (policy: Self)
        ensures
            policy.well_formed(),
            policy.attempts == if attempts == 0 {
                1
            } else {
                attempts
            },
            policy.initial_backoff == initial_backoff,
            policy.max_backoff == if max_backoff < initial_backoff {
                initial_backoff
            } else {
                max_backoff
            },
    {
        PersistenceRetryPolicy {
            attempts: if attempts == 0 {
                1
            } else {
                attempts
            },
            initial_backoff,
            max_backoff: if max_backoff < initial_backoff {
                initial_backoff
            } else {
                max_backoff
            },
        }
    }
}

/// The wait after `delay`: twice as long, up to the maximum.
pub open spec fn doubled(delay: u128, max_backoff: u128) -> u128 {
    if 2 * delay > max_backoff {
        max_backoff
    } else {
        (2 * delay) as u128
    }
}

fn next_delay(delay: u128, max_backoff: u128) -> (next: u128)
    ensures
        next == doubled(delay, max_backoff),
{
    if delay > max_backoff / 2 {
        max_backoff
    } else {
        delay * 2
    }
}

#[derive(Debug, Clone, Copy, PartialEq, Eq, Structural)]
pub enum PersistenceSaveOutcome {
    Saved,
    SkippedDeleted,
    Superseded,
    SkippedStale { stored_generation: u64 },
}

#[derive(Debug, Clone, Copy, PartialEq, Eq, Structural)]
pub enum PersistenceHealth {
    Clean,
    Dirty,
    Degraded { retryable: bool },
    Superseded,
}

/// A session's state as captured for one save.
#[derive(Debug, PartialEq, Eq)]
pub struct PersistenceCapture {
    /// Core-local capture order used exclusively for latest-wins admission.
    pub generation: u64,
    /// Core-local event coverage watermark. It may understate captured state
    /// and never participates in latest-wins admission.
    pub through_seq: u64,
    pub capture: SaveCapture,
}

/// What a session knows of its own persistence.
#[derive(Debug, PartialEq, Eq)]
pub struct SessionPersistence {
    session_id: String,
    writer: SessionWriter,
    deleted: bool,
    superseded: bool,
    /// Valid only for this core's lifetime and never persisted.
    last_saved_generation: Option<u64>,
    health: PersistenceHealth,
    catalog_preview_bytes: Option<usize>,
    retry_policy: PersistenceRetryPolicy,
}

/// The state of a session's persistence as the contracts speak of it.
pub struct PersistenceState {
    pub deleted: bool,
    pub superseded: bool,
    pub last_saved_generation: Option<u64>,
    pub health: PersistenceHealth,
}

impl PersistenceState {
    pub open spec fn fresh() -> Self {
        PersistenceState {
            deleted: false,
            superseded: false,
            last_saved_generation: None,
            health: PersistenceHealth::Clean,
        }
    }

    /// Whether the session may still be written.
    pub open spec fn live(self) -> bool {
        !self.deleted && !self.superseded
    }

    /// Records a health while the session may still be written.
    pub open spec fn with_health(self, health: PersistenceHealth) -> Self {
        if self.live() {
            PersistenceState { health, ..self }
        } else {
            self
        }
    }

    /// The outcome that is known without a write.
    pub open spec fn refusal(self, generation: u64) -> Option<PersistenceSaveOutcome> {
        if self.deleted {
            Some(PersistenceSaveOutcome::SkippedDeleted)
        } else if self.superseded {
            Some(PersistenceSaveOutcome::Superseded)
        } else if self.last_saved_generation matches Some(last) && generation < last {
            Some(
                PersistenceSaveOutcome::SkippedStale {
                    stored_generation: self.last_saved_generation->0,
                },
            )
        } else {
            None
        }
    }

    /// The state after the store answered a write.
    pub open spec fn settled(self, generation: u64, outcome: SessionWriteOutcome) -> Self {
        match outcome {
            SessionWriteOutcome::Saved(_) => PersistenceState {
                last_saved_generation: Some(generation),
                ..self
            },
            SessionWriteOutcome::Stale { stored_generation } => PersistenceState {
                last_saved_generation: Some(stored_generation),
                ..self
            },
            SessionWriteOutcome::Superseded => PersistenceState { superseded: true, ..self },
        }
    }

    /// The health that others see.
    pub open spec fn reported_health(self) -> PersistenceHealth {
        if self.deleted {
            PersistenceHealth::Clean
        } else if self.superseded {
            PersistenceHealth::Superseded
        } else {
            self.health
        }
    }
}

/// What a store's answer means for a save.
pub open spec fn save_outcome(outcome: SessionWriteOutcome) -> PersistenceSaveOutcome {
    match outcome {
        SessionWriteOutcome::Saved(_) => PersistenceSaveOutcome::Saved,
        SessionWriteOutcome::Stale { stored_generation } => PersistenceSaveOutcome::SkippedStale {
            stored_generation,
        },
        SessionWriteOutcome::Superseded => PersistenceSaveOutcome::Superseded,
    }
}

/// Whether a store took a writer on under a new epoch, and changed in nothing else.
pub open spec fn claimed_by(
    before: SessionStore,
    after: SessionStore,
    writer: SessionWriter,
) -> bool {
    let id = writer.session_id@;
    &&& uuid_text(writer.epoch@)
    &&& holds_epoch(after, writer)
    &&& after.writers_by_id() == before.writers_by_id().insert(id, after.writers_by_id()[id])
    &&& after.ordered_rows() == before.ordered_rows()
    &&& after.same_settings(before)
}

impl SessionPersistence {
    pub closed spec fn state(self) -> PersistenceState {
        PersistenceState {
            deleted: self.deleted,
            superseded: self.superseded,
            last_saved_generation: self.last_saved_generation,
            health: self.health,
        }
    }

    pub closed spec fn id(self) -> Seq<char> {
        self.session_id@
    }

    pub closed spec fn epoch(self) -> SessionWriter {
        self.writer
    }

    pub closed spec fn policy(self) -> PersistenceRetryPolicy {
        self.retry_policy
    }

    /// The preview limit of the catalog that hears of saves and deletions, if there is one.
    pub closed spec fn catalog_limit(self) -> Option<usize> {
        self.catalog_preview_bytes
    }

    /// The preview limit of a write: the catalog's, else none.
    pub open spec fn preview_limit(self) -> nat {
        match self.catalog_limit() {
            Some(limit) => limit as nat,
            None => usize::MAX as nat,
        }
    }

    /// Everything but the state is what it was.
    pub open spec fn same_identity(self, before: Self) -> bool {
        &&& self.id() == before.id()
        &&& self.epoch() == before.epoch()
        &&& self.policy() == before.policy()
        &&& self.catalog_limit() == before.catalog_limit()
    }

    /// Takes a session over with whatever generation the store holds.
    pub fn new(session_id: &str, store: &mut SessionStore, retry_policy: PersistenceRetryPolicy) -> (
        persistence: Self)
        requires
            old(store).well_formed(),
            safe_id(session_id@),
            old(store).rows_by_id().contains_key(session_id@) ==> loadable(
                old(store).rows_by_id(),
                session_id@,
            ),
        ensures
            final(store).well_formed(),
            final(store).ordered_rows() == old(store).ordered_rows(),
            persistence.state() == PersistenceState::fresh(),
            persistence.id() == session_id@,
            persistence.epoch().session_id@ == session_id@,
            claimed_by(*old(store), *final(store), persistence.epoch()),
            persistence.policy() == retry_policy,
            persistence.catalog_limit() is None,
    {
        let expected_generation: Option<u64> = match store.load(session_id) {
            Some(record) => Some(record.generation),
            None => None,
        };
        let claimed = SessionPersistence::claim(session_id, store, expected_generation, retry_policy);
        match claimed {
            Ok(persistence) => persistence,
            Err(_) => {
                assert(false);
                SessionPersistence::with_writer(
                    session_id.to_owned(),
                    SessionWriter { session_id: String::new(), epoch: String::new() },
                    retry_policy,
                )
            },
        }
    }

    /// Claims a session under a fresh epoch.
    pub fn claim(
        session_id: &str,
        store: &mut SessionStore,
        expected_generation: Option<u64>,
        retry_policy: PersistenceRetryPolicy,
    ) -> (result: Result<Self, SessionStoreError>)
        requires
            old(store).well_formed(),
        ensures
            final(store).well_formed(),
            final(store).ordered_rows() == old(store).ordered_rows(),
            match result {
                Ok(persistence) => {
                    &&& claim_error(old(store).rows_by_id(), session_id@, expected_generation)
                        is None
                    &&& persistence.state() == PersistenceState::fresh()
                    &&& persistence.id() == session_id@
                    &&& persistence.epoch().session_id@ == session_id@
                    &&& claimed_by(*old(store), *final(store), persistence.epoch())
                    &&& persistence.policy() == retry_policy
                    &&& persistence.catalog_limit() is None
                },
                Err(error) => {
                    &&& claim_error(old(store).rows_by_id(), session_id@, expected_generation)
                        == Some(error)
                    &&& final(store).unchanged(*old(store))
                },
            },
    {
        match store.claim_writer(session_id, expected_generation) {
            Ok(writer) => Ok(
                SessionPersistence::with_writer(session_id.to_owned(), writer, retry_policy),
            ),
            Err(error) => Err(error),
        }
    }

    pub fn with_writer(
        session_id: String,
        writer: SessionWriter,
        retry_policy: PersistenceRetryPolicy,
    ) -> (persistence: Self)
        ensures
            persistence.state() == PersistenceState::fresh(),
            persistence.id() == session_id@,
            persistence.epoch() == writer,
            persistence.policy() == retry_policy,
            persistence.catalog_limit() is None,
    {
        SessionPersistence {
            session_id,
            writer,
            deleted: false,
            superseded: false,
            last_saved_generation: None,
            health: PersistenceHealth::Clean,
            catalog_preview_bytes: None,
            retry_policy,
        }
    }

    /// Lets a catalog with the given preview limit hear of saves and deletions.
    pub fn with_catalog_writer(self, max_preview_bytes: usize) -> (persistence: Self)
        ensures
            persistence.state() == self.state(),
            persistence.id() == self.id(),
            persistence.epoch() == self.epoch(),
            persistence.policy() == self.policy(),
            persistence.catalog_limit() == Some(max_preview_bytes),
    {
        let mut persistence = self;
        persistence.catalog_preview_bytes = Some(max_preview_bytes);
        persistence
    }

    pub fn retry_policy(&self) -> (policy: PersistenceRetryPolicy)
        ensures
            policy == self.policy(),
    {
        self.retry_policy
    }

    pub fn writer(&self) -> (writer: &SessionWriter)
        ensures
            *writer == self.epoch(),
    {
        &self.writer
    }

    pub fn mark_dirty(&mut self)
        ensures
            final(self).same_identity(*old(self)),
            final(self).state() == old(self).state().with_health(PersistenceHealth::Dirty),
    {
        if !self.deleted && !self.superseded {
            self.health = PersistenceHealth::Dirty;
        }
    }

    /// Reports whether every request so far was handled; only then is the session clean.
    pub fn mark_clean_if_fully_handled(&mut self, handled_request: u64, requested: u64) -> (done:
        bool)
        ensures
            final(self).same_identity(*old(self)),
            done == (!old(self).state().live() || requested <= handled_request),
            final(self).state() == old(self).state().with_health(
                if requested <= handled_request {
                    PersistenceHealth::Clean
                } else {
                    PersistenceHealth::Dirty
                },
            ),
    {
        if self.deleted || self.superseded {
            return true;
        }
        if requested <= handled_request {
            self.health = PersistenceHealth::Clean;
            true
        } else {
            self.health = PersistenceHealth::Dirty;
            false
        }
    }

    pub fn mark_degraded(&mut self, retryable: bool)
        ensures
            final(self).same_identity(*old(self)),
            final(self).state() == old(self).state().with_health(
                (PersistenceHealth::Degraded { retryable }),
            ),
    {
        if !self.deleted && !self.superseded {
            self.health = PersistenceHealth::Degraded { retryable };
        }
    }

    pub fn health(&self) -> (health: PersistenceHealth)
        ensures
            health == self.state().reported_health(),
    {
        if self.deleted {
            PersistenceHealth::Clean
        } else if self.superseded {
            PersistenceHealth::Superseded
        } else {
            self.health
        }
    }

    /// The outcome of a save that needs no write, if it is known already.
    pub fn admission(&self, generation: u64) -> (refusal: Option<PersistenceSaveOutcome>)
        ensures
            refusal == self.state().refusal(generation),
    {
        if self.deleted {
            return Some(PersistenceSaveOutcome::SkippedDeleted);
        }
        if self.superseded {
            return Some(PersistenceSaveOutcome::Superseded);
        }
        if let Some(last) = self.last_saved_generation {
            if generation < last {
                return Some(PersistenceSaveOutcome::SkippedStale { stored_generation: last });
            }
        }
        None
    }

    /// Takes the store's answer to a write into account. What is handed back is
    /// due to the catalog.
    pub fn settle(&mut self, generation: u64, outcome: SessionWriteOutcome) -> (settled: (
        PersistenceSaveOutcome,
        Option<PersistedWrite>,
    ))
        ensures
            final(self).same_identity(*old(self)),
            final(self).state() == old(self).state().settled(generation, outcome),
            settled.0 == save_outcome(outcome),
            settled.1 == match outcome {
                SessionWriteOutcome::Saved(write) => if old(self).catalog_limit() is Some {
                    Some(write)
                } else {
                    None
                },
                _ => None,
            },
    {
        match outcome {
            SessionWriteOutcome::Saved(write) => {
                self.last_saved_generation = Some(generation);
                let due = if self.catalog_preview_bytes.is_some() {
                    Some(write)
                } else {
                    None
                };
                (PersistenceSaveOutcome::Saved, due)
            },
            SessionWriteOutcome::Stale { stored_generation } => {
                self.last_saved_generation = Some(stored_generation);
                (PersistenceSaveOutcome::SkippedStale { stored_generation }, None)
            },
            SessionWriteOutcome::Superseded => {
                self.superseded = true;
                (PersistenceSaveOutcome::Superseded, None)
            },
        }
    }

    /// Saves a capture: an outdated one, or one of a deleted or superseded
    /// session, never reaches the store.
    pub fn save(
        &mut self,
        store: &mut SessionStore,
        capture: PersistenceCapture,
        now_unix_ns: u64,
    ) -> (result: Result<(PersistenceSaveOutcome, Option<PersistedWrite>), SessionWriteError>)
        requires
            old(store).well_formed(),
        ensures
            final(store).well_formed(),
            final(self).same_identity(*old(self)),
            match old(self).state().refusal(capture.generation) {
                Some(refusal) => {
                    &&& result == Ok::<
                        (PersistenceSaveOutcome, Option<PersistedWrite>),
                        SessionWriteError,
                    >((refusal, None))
                    &&& final(self).state() == old(self).state()
                    &&& final(store).unchanged(*old(store))
                },
                None => match result {
                    Ok((outcome, due)) => safe_id(old(self).epoch().session_id@) && exists|
                        answer: SessionWriteOutcome,
                    |
                        {
                            &&& #[trigger] saved_with_outcome(
                                *old(store),
                                *final(store),
                                old(self).epoch().session_id@,
                                capture.capture,
                                old(self).preview_limit(),
                                Some(capture.generation),
                                Some(&old(self).epoch()),
                                now_unix_ns,
                                answer,
                            )
                            &&& outcome == save_outcome(answer)
                            &&& final(self).state() == old(self).state().settled(
                                capture.generation,
                                answer,
                            )
                            &&& due is Some <==> (answer is Saved && old(self).catalog_limit()
                                is Some)
                            &&& due matches Some(write) ==> answer == SessionWriteOutcome::Saved(
                                write,
                            )
                        },
                    Err(error) => {
                        &&& error == SessionWriteError::InvalidId
                        &&& !safe_id(old(self).epoch().session_id@)
                        &&& final(self).state() == old(self).state()
                        &&& final(store).unchanged(*old(store))
                    },
                },
            },
    {
        if let Some(refusal) = self.admission(capture.generation) {
            return Ok((refusal, None));
        }
        let max_preview_bytes: usize = match self.catalog_preview_bytes {
            Some(limit) => limit,
            None => usize::MAX,
        };
        match store.save_acp_generation_result(
            &self.writer,
            capture.generation,
            capture.capture,
            max_preview_bytes,
            now_unix_ns,
        ) {
            Ok(answer) => {
                let ghost given = answer;
                let settled = self.settle(capture.generation, answer);
                assert(saved_with_outcome(
                    *old(store),
                    *store,
                    old(self).epoch().session_id@,
                    capture.capture,
                    old(self).preview_limit(),
                    Some(capture.generation),
                    Some(&old(self).epoch()),
                    now_unix_ns,
                    given,
                ));
                Ok(settled)
            },
            Err(error) => Err(error),
        }
    }

    /// Whether a deletion has to go to the store at all.
    pub fn delete_needed(&self) -> (needed: bool)
        ensures
            needed == self.state().live(),
    {
        !self.deleted && !self.superseded
    }

    /// Takes the store's answer to a deletion into account: whether a record
    /// was deleted, and whether the catalog has to hear of it.
    pub fn settle_delete(&mut self, deleted: Option<bool>) -> (settled: (bool, bool))
        ensures
            final(self).same_identity(*old(self)),
            final(self).state() == (PersistenceState { deleted: true, ..old(self).state() }),
            settled == match deleted {
                Some(deleted) => (deleted, old(self).catalog_limit() is Some),
                None => (false, false),
            },
    {
        self.deleted = true;
        match deleted {
            Some(deleted) => (deleted, self.catalog_preview_bytes.is_some()),
            None => (false, false),
        }
    }

    /// Deletes the session's record on behalf of its writer. Afterwards no save
    /// of this session reaches the store again.
    pub fn delete(&mut self, store: &mut SessionStore) -> (settled: (bool, bool))
        requires
            old(store).well_formed(),
        ensures
            final(store).well_formed(),
            deletes(*old(self), *final(self), *old(store), *final(store), settled),
    {
        if !self.delete_needed() {
            return (false, false);
        }
        let deleted = store.delete_writer(&self.writer);
        self.settle_delete(deleted)
    }
}

/// The effect of deleting a session on its persistence and on the store, and
/// what is settled: whether a record was deleted, and whether the catalog has to
/// hear of it.
pub open spec fn deletes(
    before: SessionPersistence,
    after: SessionPersistence,
    store: SessionStore,
    store_after: SessionStore,
    settled: (bool, bool),
) -> bool {
    &&& after.same_identity(before)
    &&& store_after.same_settings(store)
    &&& if !before.state().live() {
        &&& settled == (false, false)
        &&& after.state() == before.state()
        &&& store_after.unchanged(store)
    } else {
        let id = before.epoch().session_id@;
        &&& after.state() == (PersistenceState { deleted: true, ..before.state() })
        &&& if holds_epoch(store, before.epoch()) {
            &&& settled == (store.rows_by_id().contains_key(id), before.catalog_limit() is Some)
            &&& store_after.rows_by_id() == store.rows_by_id().remove(id)
            &&& store_after.writers_by_id() == store.writers_by_id().remove(id)
        } else {
            &&& settled == (false, false)
            &&& store_after.unchanged(store)
        }
    }
}

/// Which save requests of a session were made and which were handled.
#[derive(Debug, Clone, Copy, PartialEq, Eq, Structural)]
pub struct PersistenceTracker {
    pub generation: u64,
    pub requested: u64,
    pub completed: u64,
}

/// One owner's run of attempts to save the current state.
#[derive(Debug, Clone, Copy, PartialEq, Eq, Structural)]
pub struct PersistenceRun {
    /// The newest request that the run's captures cover.
    pub handled_request: u64,
    pub attempts: usize,
    pub delay: u128,
}

/// What a run does next.
#[derive(Debug, Clone, Copy, PartialEq, Eq, Structural)]
pub enum PersistenceStep {
    Finished,
    RetryAfter { delay: u128, run: PersistenceRun },
}

/// How one attempt ended.
#[derive(Debug, Clone, Copy, PartialEq, Eq, Structural)]
pub enum PersistenceAttempt {
    Settled(PersistenceSaveOutcome),
    Failed { retryable: bool },
}

impl PersistenceTracker {
    pub fn new() -> (tracker: Self)
        ensures
            tracker == (PersistenceTracker { generation: 0, requested: 0, completed: 0 }),
    {
        PersistenceTracker { generation: 0, requested: 0, completed: 0 }
    }

    pub fn initialize_generation(&mut self, generation: u64)
        ensures
            *final(self) == (PersistenceTracker { generation, ..*old(self) }),
    {
        self.generation = generation;
    }

    /// Registers a save request; a caller does so only after its change is complete.
    pub fn register(&mut self) -> (request: u64)
        requires
            old(self).requested < u64::MAX,
        ensures
            request == old(self).requested + 1,
            *final(self) == (PersistenceTracker { requested: request, ..*old(self) }),
    {
        self.requested = self.requested + 1;
        self.requested
    }

    /// Mints the generation of a capture.
    pub fn mint_generation(&mut self) -> (generation: u64)
        requires
            old(self).generation < u64::MAX,
        ensures
            generation == old(self).generation + 1,
            *final(self) == (PersistenceTracker { generation, ..*old(self) }),
    {
        self.generation = self.generation + 1;
        self.generation
    }

    /// Starts a run for a request unless an earlier run covered it.
    pub fn start_run(&self, persistence: &mut SessionPersistence, request: u64) -> (run: Option<
        PersistenceRun,
    >)
        ensures
            final(persistence).same_identity(*old(persistence)),
            match run {
                Some(run) => {
                    &&& self.completed < request
                    &&& run == (PersistenceRun {
                        handled_request: self.requested,
                        attempts: 0,
                        delay: old(persistence).policy().initial_backoff,
                    })
                    &&& final(persistence).state() == old(persistence).state().with_health(
                        PersistenceHealth::Dirty,
                    )
                },
                None => self.completed >= request && final(persistence).state() == old(persistence).state(),
            },
    {
        if self.completed >= request {
            return None;
        }
        persistence.mark_dirty();
        let policy = persistence.retry_policy();
        Some(
            PersistenceRun {
                handled_request: self.requested,
                attempts: 0,
                delay: policy.initial_backoff,
            },
        )
    }

    pub open spec fn completed_through(self, handled: u64) -> Self {
        PersistenceTracker {
            completed: if handled > self.completed {
                handled
            } else {
                self.completed
            },
            ..self
        }
    }

    fn complete(&mut self, handled: u64)
        ensures
            *final(self) == old(self).completed_through(handled),
    {
        if handled > self.completed {
            self.completed = handled;
        }
    }

    /// Takes the end of one attempt into account and says whether to try again.
    pub fn settle_attempt(
        &mut self,
        persistence: &mut SessionPersistence,
        run: PersistenceRun,
        attempt: PersistenceAttempt,
    ) -> (step: PersistenceStep)
        requires
            run.attempts < old(persistence).policy().attempts,
        ensures
            final(persistence).same_identity(*old(persistence)),
            attempt_settled(
                *old(self),
                *final(self),
                old(persistence).state(),
                final(persistence).state(),
                old(persistence).policy(),
                run,
                attempt,
                step,
            ),
    {
        let policy = persistence.retry_policy();
        let attempts: usize = run.attempts + 1;
        let retry = PersistenceStep::RetryAfter {
            delay: run.delay,
            run: PersistenceRun {
                handled_request: run.handled_request,
                attempts,
                delay: next_delay(run.delay, policy.max_backoff),
            },
        };
        match attempt {
            PersistenceAttempt::Settled(PersistenceSaveOutcome::Saved) => {
                self.complete(run.handled_request);
                persistence.mark_clean_if_fully_handled(run.handled_request, self.requested);
                PersistenceStep::Finished
            },
            PersistenceAttempt::Settled(
                PersistenceSaveOutcome::SkippedStale { stored_generation },
            ) => {
                if stored_generation > self.generation {
                    self.generation = stored_generation;
                }
                persistence.mark_dirty();
                if attempts >= policy.attempts {
                    return PersistenceStep::Finished;
                }
                retry
            },
            PersistenceAttempt::Settled(PersistenceSaveOutcome::SkippedDeleted) => {
                self.complete(run.handled_request);
                PersistenceStep::Finished
            },
            PersistenceAttempt::Settled(PersistenceSaveOutcome::Superseded) => {
                self.complete(run.handled_request);
                PersistenceStep::Finished
            },
            PersistenceAttempt::Failed { retryable } => {
                persistence.mark_degraded(retryable);
                if !retryable || attempts >= policy.attempts {
                    self.complete(run.handled_request);
                    return PersistenceStep::Finished;
                }
                retry
            },
        }
    }

    /// The health of a session's persistence: dirty while a request is open.
    pub fn persistence_health(&self, persistence: Option<&SessionPersistence>) -> (health:
        PersistenceHealth)
        ensures
            health == self.health_of(
                match persistence {
                    Some(persistence) => Some(persistence.state()),
                    None => None,
                },
            ),
    {
        if self.requested > self.completed {
            return PersistenceHealth::Dirty;
        }
        match persistence {
            Some(persistence) => persistence.health(),
            None => PersistenceHealth::Clean,
        }
    }

    pub open spec fn health_of(self, persistence: Option<PersistenceState>) -> PersistenceHealth {
        if self.requested > self.completed {
            PersistenceHealth::Dirty
        } else {
            match persistence {
                Some(state) => state.reported_health(),
                None => PersistenceHealth::Clean,
            }
        }
    }
}

/// The effect of one attempt on the tracker and the persistence state, and the step that follows.
pub open spec fn attempt_settled(
    tracker: PersistenceTracker,
    tracker_after: PersistenceTracker,
    state: PersistenceState,
    state_after: PersistenceState,
    policy: PersistenceRetryPolicy,
    run: PersistenceRun,
    attempt: PersistenceAttempt,
    step: PersistenceStep,
) -> bool {
    let attempts = run.attempts + 1;
    let retry = PersistenceStep::RetryAfter {
        delay: run.delay,
        run: PersistenceRun {
            handled_request: run.handled_request,
            attempts: attempts as usize,
            delay: doubled(run.delay, policy.max_backoff),
        },
    };
    match attempt {
        PersistenceAttempt::Settled(PersistenceSaveOutcome::Saved) => {
            &&& tracker_after == tracker.completed_through(run.handled_request)
            &&& state_after == state.with_health(
                if tracker.requested <= run.handled_request {
                    PersistenceHealth::Clean
                } else {
                    PersistenceHealth::Dirty
                },
            )
            &&& step == PersistenceStep::Finished
        },
        PersistenceAttempt::Settled(
            PersistenceSaveOutcome::SkippedStale { stored_generation },
        ) => {
            &&& tracker_after == PersistenceTracker {
                generation: if stored_generation > tracker.generation {
                    stored_generation
                } else {
                    tracker.generation
                },
                ..tracker
            }
            &&& state_after == state.with_health(PersistenceHealth::Dirty)
            &&& step == if attempts >= policy.attempts {
                PersistenceStep::Finished
            } else {
                retry
            }
        },
        PersistenceAttempt::Settled(PersistenceSaveOutcome::SkippedDeleted)
        | PersistenceAttempt::Settled(PersistenceSaveOutcome::Superseded) => {
            &&& tracker_after == tracker.completed_through(run.handled_request)
            &&& state_after == state
            &&& step == PersistenceStep::Finished
        },
        PersistenceAttempt::Failed { retryable } => {
            &&& state_after == state.with_health(PersistenceHealth::Degraded { retryable })
            &&& if !retryable || attempts >= policy.attempts {
                step == PersistenceStep::Finished && tracker_after == tracker.completed_through(
                    run.handled_request,
                )
            } else {
                step == retry && tracker_after == tracker
            }
        },
    }
}

/// A run makes at most as many attempts as the policy allows: each retry has
/// used one more, and there is none when the last one is used.
pub proof fn law_attempts_are_bounded(
    tracker: PersistenceTracker,
    tracker_after: PersistenceTracker,
    state: PersistenceState,
    state_after: PersistenceState,
    policy: PersistenceRetryPolicy,
    run: PersistenceRun,
    attempt: PersistenceAttempt,
    step: PersistenceStep,
)
    requires
        policy.well_formed(),
        run.attempts < policy.attempts,
        run.delay <= policy.max_backoff,
        attempt_settled(
            tracker,
            tracker_after,
            state,
            state_after,
            policy,
            run,
            attempt,
            step,
        ),
    ensures
        step matches PersistenceStep::RetryAfter { delay, run: next } ==> {
            &&& next.attempts == run.attempts + 1
            &&& next.attempts < policy.attempts
            &&& delay == run.delay
            &&& run.delay <= next.delay <= policy.max_backoff
        },
{
}

/// A session is clean only when every request up to now is covered by a save
/// that went through; a request that came meanwhile leaves it dirty.
pub proof fn law_clean_means_fully_saved(
    tracker: PersistenceTracker,
    tracker_after: PersistenceTracker,
    state: PersistenceState,
    state_after: PersistenceState,
    policy: PersistenceRetryPolicy,
    run: PersistenceRun,
    attempt: PersistenceAttempt,
    step: PersistenceStep,
)
    requires
        state.live(),
        !(state.health is Clean),
        attempt_settled(
            tracker,
            tracker_after,
            state,
            state_after,
            policy,
            run,
            attempt,
            step,
        ),
    ensures
        state_after.health is Clean ==> attempt == PersistenceAttempt::Settled(
            PersistenceSaveOutcome::Saved,
        ) && tracker.requested <= run.handled_request,
{
}

/// Once deleted or superseded, a session's saves are refused whatever their generation.
pub proof fn law_dead_persistence_refuses_saves(state: PersistenceState, generation: u64)
    requires
        !state.live(),
    ensures
        state.refusal(generation) is Some,
        !(state.refusal(generation)->0 is Saved),
{
}

/// A save that went through bars every older capture.
pub proof fn law_older_captures_lose(
    state: PersistenceState,
    newer: u64,
    older: u64,
    write: PersistedWrite,
)
    requires
        state.live(),
        older < newer,
    ensures
        state.settled(newer, SessionWriteOutcome::Saved(write)).refusal(older)
            == Some(PersistenceSaveOutcome::SkippedStale { stored_generation: newer }),
{
}

} // verus!
