//! Which saves reach the store, what their answers mean, and when to try again.
use vstd::prelude::*;
use crate::session_core::persistence::{
    attempt_settled, claimed_by, deletes, doubled, retryable_kind, save_outcome, IoErrorKind,
    PersistenceAttempt, PersistenceHealth, PersistenceRetryPolicy, PersistenceRun,
    PersistenceSaveOutcome, PersistenceState, PersistenceStep, PersistenceTracker,
    SessionPersistence,
};
use crate::foreign::uuid_text;
use crate::session_store::{SessionStore, SessionWriteOutcome, SessionWriter};

verus! {

/// Which captures never reach the store: those of a deleted session, those of a
/// superseded one, and those older than what was saved last. Every other does.
pub proof fn law_only_newer_captures_are_written(state: PersistenceState, generation: u64)
    ensures
        ({
            let refused = state.refusal(generation);
            let older = state.last_saved_generation is Some && generation
                < state.last_saved_generation->0;
            &&& refused == Some(PersistenceSaveOutcome::SkippedDeleted) <==> state.deleted
            &&& refused == Some(PersistenceSaveOutcome::Superseded) <==> !state.deleted
                && state.superseded
            &&& refused matches Some(PersistenceSaveOutcome::SkippedStale { stored_generation })
                ==> !state.deleted && !state.superseded && state.last_saved_generation == Some(
                stored_generation,
            ) && generation < stored_generation
            &&& refused is None <==> !state.deleted && !state.superseded && !older
            &&& refused != Some(PersistenceSaveOutcome::Saved)
        }),
{
}

/// What the store's answer leaves: a save that went through is the last one, one
/// that was stale leaves what is stored as the last one, and one of a superseded
/// writer ends the saving for good. Nothing else of the state changes.
pub proof fn law_answers_are_remembered(
    state: PersistenceState,
    generation: u64,
    outcome: SessionWriteOutcome,
)
    ensures
        ({
            let after = state.settled(generation, outcome);
            &&& after.deleted == state.deleted
            &&& after.health == state.health
            &&& after.superseded == (state.superseded || outcome is Superseded)
            &&& outcome is Saved ==> after.last_saved_generation == Some(generation)
                && save_outcome(outcome) is Saved
            &&& outcome matches SessionWriteOutcome::Stale { stored_generation }
                ==> after.last_saved_generation == Some(stored_generation) && save_outcome(outcome)
                == (PersistenceSaveOutcome::SkippedStale { stored_generation })
            &&& outcome is Superseded ==> after.last_saved_generation == state.last_saved_generation
                && save_outcome(outcome) is Superseded
        }),
{
}

/// When a save is tried again: after a stale answer and after a failure that may
/// pass, as long as attempts are left, each wait twice the one before up to the
/// longest. A run that is not tried again has handled its requests, unless it
/// ended on a stale answer. A stale answer leaves the session dirty and the next
/// capture newer than what is stored; a failure degrades it; a save leaves it
/// clean exactly if no request came meanwhile.
pub proof fn law_attempts_lead_on(
    tracker: PersistenceTracker,
    tracker_after: PersistenceTracker,
    state: PersistenceState,
    state_after: PersistenceState,
    policy: PersistenceRetryPolicy,
    run: PersistenceRun,
    attempt: PersistenceAttempt,
    step: PersistenceStep,
)
    requires
        run.attempts < policy.attempts,
        attempt_settled(
            tracker,
            tracker_after,
            state,
            state_after,
            policy,
            run,
            attempt,
            step,
        ),
    ensures
        ({
            let saved = attempt == PersistenceAttempt::Settled(PersistenceSaveOutcome::Saved);
            let stale = attempt matches PersistenceAttempt::Settled(answer) && answer
                is SkippedStale;
            let passing = attempt == (PersistenceAttempt::Failed { retryable: true });
            let live = !state.deleted && !state.superseded;
            &&& step is RetryAfter <==> (stale || passing) && run.attempts + 1 < policy.attempts
            &&& step matches PersistenceStep::RetryAfter { delay, run: next } ==> delay == run.delay
                && next.handled_request == run.handled_request && next.attempts == run.attempts + 1
                && next.delay == if 2 * run.delay <= policy.max_backoff {
                2 * run.delay
            } else {
                policy.max_backoff as int
            }
            &&& step is Finished && !stale ==> tracker_after.completed >= run.handled_request
            &&& tracker_after.completed >= tracker.completed
            &&& tracker_after.completed > tracker.completed ==> tracker_after.completed
                == run.handled_request
            &&& tracker_after.requested == tracker.requested
            &&& tracker_after.generation >= tracker.generation
            &&& attempt matches PersistenceAttempt::Settled(
                PersistenceSaveOutcome::SkippedStale { stored_generation },
            ) ==> tracker_after.generation >= stored_generation && tracker_after.completed
                == tracker.completed && (live ==> state_after.health is Dirty)
            &&& !stale ==> tracker_after.generation == tracker.generation
            &&& attempt matches PersistenceAttempt::Failed { retryable } ==> (live
                ==> state_after.health == (PersistenceHealth::Degraded { retryable }))
            &&& saved && live ==> (state_after.health is Clean <==> tracker.requested
                <= run.handled_request) && (state_after.health is Dirty <==> tracker.requested
                > run.handled_request)
            &&& state_after.deleted == state.deleted && state_after.superseded == state.superseded
                && state_after.last_saved_generation == state.last_saved_generation
            &&& !live ==> state_after.health == state.health
        }),
{
}

/// The health that is reported: dirty while a request is open; of a deleted
/// session clean, of a superseded one superseded, else what the last save left.
pub proof fn law_reported_health(tracker: PersistenceTracker, state: PersistenceState)
    ensures
        tracker.completed < tracker.requested ==> tracker.health_of(Some(state)) is Dirty
            && tracker.health_of(None) is Dirty,
        tracker.completed >= tracker.requested ==> tracker.health_of(None) is Clean,
        tracker.completed >= tracker.requested && state.deleted ==> tracker.health_of(
            Some(state),
        ) is Clean,
        tracker.completed >= tracker.requested && !state.deleted && state.superseded
            ==> tracker.health_of(Some(state)) is Superseded,
        tracker.completed >= tracker.requested && !state.deleted && !state.superseded
            ==> tracker.health_of(Some(state)) == state.health,
{
}

/// What may pass by itself is an interruption, a blocked call and a timeout.
pub proof fn law_passing_failures(kind: IoErrorKind, delay: u128, max_backoff: u128)
    ensures
        kind is Interrupted || kind is WouldBlock || kind is TimedOut ==> retryable_kind(kind),
        kind is NotFound || kind is PermissionDenied || kind is ConnectionReset
            || kind is ConnectionAborted || kind is InvalidData || kind is OutOfMemory
            || kind is StorageFull || kind is Other ==> !retryable_kind(kind),
        delay <= max_backoff ==> delay <= doubled(delay, max_backoff) <= max_backoff,
        doubled(delay, max_backoff) == 2 * delay || doubled(delay, max_backoff) == max_backoff,
{
}

/// A deletion takes the record and the claim of its session away and leaves every
/// other; only the active writer's does. It is told whether a record went and
/// whether the catalog hears of it, and no save follows.
pub proof fn law_deletion_takes_its_session(
    before: SessionPersistence,
    after: SessionPersistence,
    store: SessionStore,
    store_after: SessionStore,
    settled: (bool, bool),
    other: Seq<char>,
    generation: u64,
)
    requires
        deletes(before, after, store, store_after, settled),
    ensures
        ({
            let id = before.epoch().session_id@;
            let live = !before.state().deleted && !before.state().superseded;
            let active = store.writers_by_id().contains_key(id) && store.writers_by_id()[id].epoch@
                == before.epoch().epoch@;
            let gone = live && active;
            &&& gone ==> !store_after.rows_by_id().contains_key(id)
                && !store_after.writers_by_id().contains_key(id)
            &&& settled.0 <==> gone && store.rows_by_id().contains_key(id)
            &&& settled.1 <==> gone && before.catalog_limit() is Some
            &&& !gone ==> store_after.rows_by_id() == store.rows_by_id()
                && store_after.writers_by_id() == store.writers_by_id()
            &&& other != id ==> store_after.rows_by_id().contains_key(other)
                == store.rows_by_id().contains_key(other)
            &&& other != id && store.rows_by_id().contains_key(other)
                ==> store_after.rows_by_id()[other] == store.rows_by_id()[other]
            &&& other != id ==> store_after.writers_by_id().contains_key(other)
                == store.writers_by_id().contains_key(other)
            &&& after.state().deleted == (before.state().deleted || live)
            &&& after.state().refusal(generation) is Some
        }),
{
}

/// A claim makes its writer the active one, leaves the writers of every other
/// session and changes no record.
pub proof fn law_claim_takes_its_session(
    before: SessionStore,
    after: SessionStore,
    writer: SessionWriter,
    other: Seq<char>,
)
    requires
        claimed_by(before, after, writer),
    ensures
        after.writers_by_id().contains_key(writer.session_id@),
        after.writers_by_id()[writer.session_id@].epoch@ == writer.epoch@,
        other != writer.session_id@ ==> after.writers_by_id().contains_key(other)
            == before.writers_by_id().contains_key(other),
        other != writer.session_id@ && before.writers_by_id().contains_key(other)
            ==> after.writers_by_id()[other] == before.writers_by_id()[other],
        after.rows_by_id() == before.rows_by_id(),
        uuid_text(writer.epoch@),
        after.directory() == before.directory(),
        after.busy_timeout() == before.busy_timeout(),
{
}

/// What is saved under which id, by whom and with how many tries stays, whatever
/// becomes of the saves.
pub proof fn law_saves_keep_their_identity(before: SessionPersistence, after: SessionPersistence)
    requires
        after.same_identity(before),
    ensures
        after.id() == before.id(),
        after.epoch() == before.epoch(),
        after.policy() == before.policy(),
        after.catalog_limit() == before.catalog_limit(),
        after.preview_limit() == before.preview_limit(),
{
}

/// Labels are as long as the catalog takes them, and whole where there is none.
pub proof fn law_labels_are_as_long_as_the_catalog_takes(persistence: SessionPersistence)
    ensures
        persistence.catalog_limit() matches Some(limit) ==> persistence.preview_limit() == limit,
        persistence.catalog_limit() is None ==> persistence.preview_limit() == usize::MAX,
{
}

} // verus!
