//! Which sessions may go, when, and what of them is kept.
use vstd::prelude::*;

use crate::session_core::persistence::PersistenceHealth;
use crate::session_daemon::lifecycle::{
    detached_ids, entry_ids, save_event_outcome, texts, EvictionPlan, FinalSaveEvent,
};
use crate::session_daemon::registry::{SessionDaemon, SessionEntry};
use crate::session_daemon::FinalSaveOutcome;

verus! {

broadcast use vstd::string::group_string_axioms;

/// Whether a time was so long ago, or longer. What lies ahead was not long ago.
pub open spec fn long_ago(then_ns: u64, now_ns: u64, span_ns: u64) -> bool {
    then_ns + span_ns <= now_ns || span_ns == 0
}

/// Whether a session had its last client so long ago.
pub open spec fn left_long_ago<C>(entry: SessionEntry<C>, now_ns: u64, span_ns: u64) -> bool {
    entry.last_detached_ns matches Some(left) && long_ago(left, now_ns, span_ns)
}

/// A session with a client, a running prompt or a turn is in use; one that has
/// not been without clients for long enough may be used again. Every other is
/// idle.
pub proof fn law_sessions_in_use_are_not_idle<C>(
    entry: SessionEntry<C>,
    now_ns: u64,
    retention_ns: u64,
    turn_active: bool,
)
    ensures
        entry.idle_at(now_ns, retention_ns, turn_active) <==> entry.clients@.len() == 0
            && entry.active_prompt_tasks == 0 && !turn_active && left_long_ago(
            entry,
            now_ns,
            retention_ns,
        ),
{
}

/// The sessions that left long ago are named once each, in their order, and no
/// others are.
pub proof fn law_long_left_sessions_are_named<C>(
    sessions: Seq<SessionEntry<C>>,
    now_ns: u64,
    retention_ns: u64,
) -> (places: Seq<int>)
    ensures
        places.len() == detached_ids(sessions, now_ns, retention_ns).len(),
        forall|k: int| 0 <= k < places.len() ==> 0 <= #[trigger] places[k] < sessions.len(),
        forall|k: int|
            0 <= k < places.len() ==> #[trigger] detached_ids(sessions, now_ns, retention_ns)[k]
                == sessions[places[k]].session_id@,
        forall|k: int, l: int|
            0 <= k < l < places.len() ==> #[trigger] places[k] < #[trigger] places[l],
        forall|i: int|
            0 <= i < sessions.len() ==> (#[trigger] places.contains(i) <==> left_long_ago(
                sessions[i],
                now_ns,
                retention_ns,
            )),
    decreases sessions.len(),
{
    if sessions.len() == 0 {
        seq![]
    } else {
        let rest = sessions.drop_last();
        let before = law_long_left_sessions_are_named(rest, now_ns, retention_ns);
        let last = rest.len() as int;
        let ids = detached_ids(sessions, now_ns, retention_ns);
        if left_long_ago(sessions.last(), now_ns, retention_ns) {
            let places = before.push(last);
            assert(places[before.len() as int] == last);
            assert forall|k: int| 0 <= k < places.len() implies #[trigger] ids[k]
                == sessions[places[k]].session_id@ by {
                if k < before.len() {
                    assert(detached_ids(rest, now_ns, retention_ns)[k]
                        == rest[before[k]].session_id@);
                }
            }
            assert forall|i: int| 0 <= i < sessions.len() implies (#[trigger] places.contains(i)
                <==> left_long_ago(sessions[i], now_ns, retention_ns)) by {
                if i < last {
                    assert(rest[i] == sessions[i]);
                    if before.contains(i) {
                        let k = choose|k: int| 0 <= k < before.len() && before[k] == i;
                        assert(places[k] == i);
                    }
                    if places.contains(i) {
                        let k = choose|k: int| 0 <= k < places.len() && places[k] == i;
                        assert(before[k] == i);
                    }
                }
            }
            places
        } else {
            assert forall|k: int| 0 <= k < before.len() implies #[trigger] ids[k]
                == sessions[before[k]].session_id@ by {
                assert(detached_ids(rest, now_ns, retention_ns)[k] == rest[before[k]].session_id@);
            }
            assert forall|i: int| 0 <= i < sessions.len() implies (#[trigger] before.contains(i)
                <==> left_long_ago(sessions[i], now_ns, retention_ns)) by {
                if i < last {
                    assert(rest[i] == sessions[i]);
                } else if before.contains(i) {
                    let k = choose|k: int| 0 <= k < before.len() && before[k] == i;
                    assert(before[k] < last);
                }
            }
            before
        }
    }
}

/// Shutting down names every live session, each by its id.
pub proof fn law_shutdown_names_every_session<C>(
    sessions: Seq<SessionEntry<C>>,
    names: Seq<String>,
    i: int,
)
    requires
        texts(names) == entry_ids(sessions),
        0 <= i < sessions.len(),
    ensures
        names.len() == sessions.len(),
        names[i]@ == sessions[i].session_id@,
{
    assert(texts(names).len() == names.len());
    assert(texts(names)[i] == names[i]@);
    assert(entry_ids(sessions)[i] == sessions[i].session_id@);
}

/// An idle session whose last state is saved goes, as does one that nothing
/// could save. One that is not saved is saved first, and may go without where
/// that has been put off for long enough. A session in use stays, and so do all
/// where idle ones are kept for good.
pub proof fn law_idle_sessions_go_saved<C>(
    daemon: SessionDaemon<C>,
    session_id: Seq<char>,
    now_ns: u64,
    turn_active: bool,
    health: PersistenceHealth,
)
    ensures
        ({
            let plan = daemon.eviction_of(session_id, now_ns, turn_active, health);
            let entry = daemon.by_id()[session_id];
            let retention = daemon.settings.idle_retention_ns;
            let idle = daemon.by_id().contains_key(session_id) && match retention {
                Some(kept_ns) => entry.clients@.len() == 0 && entry.active_prompt_tasks == 0
                    && !turn_active && left_long_ago(entry, now_ns, kept_ns),
                None => false,
            };
            &&& plan is Skip <==> !idle
            &&& plan matches EvictionPlan::Remove { instance } ==> instance == entry.instance && (
            health == PersistenceHealth::Clean
                || daemon.settings.persistence_eviction_extension_ns is None)
            &&& plan matches EvictionPlan::TrySave { instance, extension_expired } ==> {
                &&& instance == entry.instance
                &&& health != PersistenceHealth::Clean
                &&& daemon.settings.persistence_eviction_extension_ns matches Some(extra_ns) && {
                    &&& entry.persistence_deferral_started_ns matches Some(started_ns) ==> (
                    extension_expired <==> long_ago(started_ns, now_ns, extra_ns))
                    &&& entry.persistence_deferral_started_ns is None ==> (extension_expired
                        <==> extra_ns == 0)
                }
            }
        }),
{
}

/// Since when a session is put off counts from its first refused save, and is
/// forgotten once it is saved.
pub proof fn law_putting_off_counts_from_the_first_time<C>(
    daemon: SessionDaemon<C>,
    session_id: Seq<char>,
    now_ns: u64,
    plan: EvictionPlan,
    health: PersistenceHealth,
)
    ensures
        ({
            let before = daemon.by_id()[session_id].persistence_deferral_started_ns;
            let after = daemon.deferral_after(session_id, now_ns, plan, health);
            &&& plan is Skip ==> after == before
            &&& plan is TrySave && before is Some ==> after == before
            &&& plan is TrySave && before is None ==> after == Some(now_ns)
            &&& plan is Remove && health == PersistenceHealth::Clean ==> after is None
            &&& plan is Remove && health != PersistenceHealth::Clean ==> after == before
        }),
{
}

/// Only a save that ended in time and left nothing unsaved counts as made.
pub proof fn law_only_a_clean_end_is_saved(event: FinalSaveEvent)
    ensures
        save_event_outcome(event) == FinalSaveOutcome::Saved <==> event == FinalSaveEvent::Finished(
            PersistenceHealth::Clean,
        ),
        save_event_outcome(event) == FinalSaveOutcome::TimedOut <==> event is TimedOut,
{
}

/// A session that left was the one under its id; it comes back stopped and
/// otherwise as it was. The others stay.
pub proof fn law_one_session_leaves<C>(
    before: SessionDaemon<C>,
    after: SessionDaemon<C>,
    session_id: Seq<char>,
    entry: SessionEntry<C>,
    other: Seq<char>,
)
    requires
        before.removed(after, session_id, entry),
    ensures
        entry.stopped,
        entry.session_id == before.by_id()[session_id].session_id,
        entry.instance == before.by_id()[session_id].instance,
        entry.core == before.by_id()[session_id].core,
        entry.clients == before.by_id()[session_id].clients,
        !after.by_id().contains_key(session_id),
        other != session_id ==> {
            &&& after.by_id().contains_key(other) <==> before.by_id().contains_key(other)
            &&& before.by_id().contains_key(other) ==> after.by_id()[other] == before.by_id()[other]
        },
        after.sessions@.len() == before.sessions@.len() - 1,
        after.settings == before.settings,
        after.late_persistence_saves == before.late_persistence_saves,
        after.creating_sessions == before.creating_sessions,
        after.listings == before.listings,
        after.shutting_down == before.shutting_down,
        after.next_attachment_id == before.next_attachment_id,
        after.next_instance == before.next_instance,
{
}

/// A prompt that starts or ends changes how many run in its session, and
/// nothing else.
pub proof fn law_prompts_are_counted<C>(
    before: SessionDaemon<C>,
    after: SessionDaemon<C>,
    session_id: Seq<char>,
    count: usize,
    other: Seq<char>,
)
    requires
        before.by_id().contains_key(session_id),
        before.prompts_set(after, session_id, count),
    ensures
        after.by_id().contains_key(session_id),
        after.by_id()[session_id].active_prompt_tasks == count,
        after.by_id()[session_id].instance == before.by_id()[session_id].instance,
        after.by_id()[session_id].core == before.by_id()[session_id].core,
        after.by_id()[session_id].clients == before.by_id()[session_id].clients,
        after.by_id()[session_id].stopped == before.by_id()[session_id].stopped,
        after.by_id()[session_id].last_detached_ns == before.by_id()[session_id].last_detached_ns,
        other != session_id ==> {
            &&& after.by_id().contains_key(other) <==> before.by_id().contains_key(other)
            &&& before.by_id().contains_key(other) ==> after.by_id()[other] == before.by_id()[other]
        },
        after.settings == before.settings,
        after.shutting_down == before.shutting_down,
{
}

/// A session that was entered again under an id is not the one that was there.
pub proof fn law_instances_tell_sessions_apart<C>(
    daemon: SessionDaemon<C>,
    session_id: Seq<char>,
    instance: u64,
    other: u64,
)
    requires
        daemon.current(session_id, instance),
    ensures
        daemon.by_id().contains_key(session_id),
        daemon.by_id()[session_id].instance == instance,
        daemon.current(session_id, other) ==> other == instance,
{
}

/// A late save changes how many run for its session, and nothing else.
pub proof fn law_late_saves_are_counted<C>(
    before: SessionDaemon<C>,
    after: SessionDaemon<C>,
    session_id: Seq<char>,
    count: int,
    other: Seq<char>,
)
    requires
        before.late_set(after, session_id, count),
    ensures
        after.late_count(session_id) == count,
        other != session_id ==> after.late_count(other) == before.late_count(other),
        after.sessions == before.sessions,
        after.settings == before.settings,
        after.creating_sessions == before.creating_sessions,
        after.shutting_down == before.shutting_down,
{
}

} // verus!
