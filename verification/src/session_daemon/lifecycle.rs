//! How live sessions end: idle sessions are dropped, stopped ones deleted, and
//! a daemon that shuts down saves what it can.
use vstd::prelude::*;
use vstd::string::*;
use crate::keyed::{lemma_lookup, lemma_push, lemma_remove, lemma_update};
use crate::session_core::persistence::PersistenceHealth;
use crate::session_daemon::registry::{
    detached_long, entry_key, late_key, since, LateSaves, SessionDaemon, SessionEntry,
};
use crate::session_daemon::FinalSaveOutcome;
use crate::session_protocol::SessionEvent;

verus! {

broadcast use vstd::string::group_string_axioms;

/// The ids of sessions that have been without clients for the given time.
pub open spec fn detached_ids<C>(
    sessions: Seq<SessionEntry<C>>,
    now_ns: u64,
    retention_ns: u64,
) -> Seq<Seq<char>>
    decreases sessions.len(),
{
    if sessions.len() == 0 {
        Seq::empty()
    } else {
        let earlier = detached_ids(sessions.drop_last(), now_ns, retention_ns);
        if detached_long(sessions.last().last_detached_ns, now_ns, retention_ns) {
            earlier.push(sessions.last().session_id@)
        } else {
            earlier
        }
    }
}

pub open spec fn entry_ids<C>(sessions: Seq<SessionEntry<C>>) -> Seq<Seq<char>> {
    sessions.map_values(entry_key::<C>())
}

pub open spec fn texts(names: Seq<String>) -> Seq<Seq<char>> {
    names.map_values(|name: String| name@)
}

/// What becomes of a session that looked idle.
#[derive(Debug, Clone, Copy, PartialEq, Eq, Structural)]
pub enum EvictionPlan {
    /// It is in use again, or gone.
    Skip,
    /// It may go.
    Remove { instance: u64 },
    /// Its last state is not saved yet. Saving is tried first; whether it may
    /// go unsaved depends on how long it has been put off.
    TrySave { instance: u64, extension_expired: bool },
}

/// What becomes of an idle session after its last save was tried.
#[derive(Debug, Clone, Copy, PartialEq, Eq, Structural)]
pub enum AfterSave {
    Defer,
    Remove { loss_risk: bool },
}

/// How a last save is made.
#[derive(Debug, Clone, Copy, PartialEq, Eq, Structural)]
pub enum FinalSavePlan {
    Settled(FinalSaveOutcome),
    Run { timeout_ns: u64 },
}

/// How the task that makes a last save ended.
#[derive(Debug, Clone, Copy, PartialEq, Eq, Structural)]
pub enum FinalSaveEvent {
    Finished(PersistenceHealth),
    TaskFailed,
    TimedOut,
}

/// What comes next for a session that is being ended.
#[derive(Debug, Clone, Copy, PartialEq, Eq, Structural)]
pub enum EndStep {
    /// The cancelled turn is cleaned up, and the stored session deleted.
    Delete,
    /// The last state is saved; a session that is not quiescent is saved
    /// whatever its health.
    Save { force: bool },
    /// The session leaves the registry.
    Remove { loss_risk: bool },
    /// The session stays, because its stored form could not be deleted.
    Keep,
}

pub open spec fn save_event_outcome(event: FinalSaveEvent) -> FinalSaveOutcome {
    match event {
        FinalSaveEvent::Finished(PersistenceHealth::Clean) => FinalSaveOutcome::Saved,
        FinalSaveEvent::Finished(_) => FinalSaveOutcome::Failed,
        FinalSaveEvent::TaskFailed => FinalSaveOutcome::Failed,
        FinalSaveEvent::TimedOut => FinalSaveOutcome::TimedOut,
    }
}

/// What follows the last save of an idle session: one that is not saved stays
/// until it has been put off long enough, and then goes at a loss.
pub fn after_eviction_save(outcome: FinalSaveOutcome, extension_expired: bool) -> (next: AfterSave)
    ensures
        next == if outcome == FinalSaveOutcome::Saved {
            AfterSave::Remove { loss_risk: false }
        } else if extension_expired {
            AfterSave::Remove { loss_risk: true }
        } else {
            AfterSave::Defer
        },
{
    if outcome == FinalSaveOutcome::Saved {
        AfterSave::Remove { loss_risk: false }
    } else if extension_expired {
        AfterSave::Remove { loss_risk: true }
    } else {
        AfterSave::Defer
    }
}

/// What follows once a session's turn was cancelled and its prompts were waited
/// for. `quiescent` says whether all of them ended in time.
pub fn end_after_wait(delete_persisted: bool, quiescent: bool) -> (step: EndStep)
    ensures
        step == if delete_persisted {
            EndStep::Delete
        } else {
            EndStep::Save { force: !quiescent }
        },
{
    if delete_persisted {
        EndStep::Delete
    } else {
        EndStep::Save { force: !quiescent }
    }
}

/// What follows the deletion of a stored session.
pub fn end_after_delete(deleted: bool) -> (step: EndStep)
    ensures
        step == if deleted {
            EndStep::Remove { loss_risk: false }
        } else {
            EndStep::Keep
        },
{
    if deleted {
        EndStep::Remove { loss_risk: false }
    } else {
        EndStep::Keep
    }
}

/// What follows the last save of a session that is being ended.
pub fn end_after_save(outcome: FinalSaveOutcome, quiescent: bool) -> (step: EndStep)
    ensures
        step == (EndStep::Remove {
            loss_risk: outcome != FinalSaveOutcome::Saved || !quiescent,
        }),
{
    EndStep::Remove { loss_risk: outcome != FinalSaveOutcome::Saved || !quiescent }
}

/// Closes a session that left the registry: its clients are let go, and what
/// its listeners are told last is handed out beside what the daemon held of it.
pub fn finish_removed_entry<C>(entry: SessionEntry<C>, reason: &str) -> (closed: (C, SessionEvent))
    ensures
        closed.0 == entry.core,
        closed.1 matches SessionEvent::SessionEnding { reason: told } && told@ == reason@,
{
    (entry.core, SessionEvent::SessionEnding { reason: reason.to_owned() })
}

impl<C> SessionDaemon<C> {
    /// Whether the session under an id is a given one.
    pub open spec fn current(self, session_id: Seq<char>, instance: u64) -> bool {
        self.by_id().contains_key(session_id) && self.by_id()[session_id].instance == instance
    }

    /// Whether a session left the registry, marked as stopped, and nothing
    /// else changed.
    pub open spec fn removed(self, after: Self, session_id: Seq<char>, entry: SessionEntry<C>) -> bool {
        &&& entry == (SessionEntry { stopped: true, ..self.by_id()[session_id] })
        &&& after == (SessionDaemon { sessions: after.sessions, ..self })
        &&& after.by_id() == self.by_id().remove(session_id)
        &&& after.sessions@.len() == self.sessions@.len() - 1
    }

    fn take_entry(&mut self, at: usize) -> (entry: SessionEntry<C>)
        requires
            old(self).well_formed(),
            at < old(self).sessions@.len(),
        ensures
            final(self).well_formed(),
            old(self).removed(*final(self), old(self).sessions@[at as int].session_id@, entry),
    {
        proof {
            lemma_lookup(self.sessions@, entry_key::<C>(), at as int);
            lemma_remove(self.sessions@, entry_key::<C>(), at as int);
        }
        let mut entry = self.sessions.remove(at);
        proof {
            assert forall|i: int| 0 <= i < self.sessions@.len() implies (
            #[trigger] self.sessions@[i]).well_formed() && self.sessions@[i].instance
                < self.next_instance by {
                let was = if i < at {
                    i
                } else {
                    i + 1
                };
                assert(self.sessions@[i] == old(self).sessions@[was]);
            }
            assert forall|i: int, k: int|
                #![trigger self.sessions@[i].clients@[k]]
                0 <= i < self.sessions@.len() && 0 <= k
                    < self.sessions@[i].clients@.len() implies self.sessions@[i].clients@[k].attachment_id
                < self.next_attachment_id by {
                let was = if i < at {
                    i
                } else {
                    i + 1
                };
                assert(self.sessions@[i] == old(self).sessions@[was]);
                assert(old(self).sessions@[was].clients@[k].attachment_id
                    < self.next_attachment_id);
            }
        }
        entry.stopped = true;
        entry
    }

    /// The sessions that have been without clients for as long as idle ones
    /// are kept; none where they are kept for good.
    pub fn idle_session_ids(&self, now_ns: u64) -> (ids: Vec<String>)
        ensures
            texts(ids@) == match self.settings.idle_retention_ns {
                None => Seq::empty(),
                Some(retention_ns) => detached_ids(self.sessions@, now_ns, retention_ns),
            },
    {
        let mut ids: Vec<String> = Vec::new();
        let retention_ns = match self.settings.idle_retention_ns {
            None => {
                assert(texts(ids@) =~= Seq::empty());
                return ids;
            },
            Some(retention_ns) => retention_ns,
        };
        let mut i: usize = 0;
        while i < self.sessions.len()
            invariant
                i <= self.sessions@.len(),
                texts(ids@) =~= detached_ids(
                    self.sessions@.take(i as int),
                    now_ns,
                    retention_ns,
                ),
            decreases self.sessions@.len() - i,
        {
            assert(self.sessions@.take(i + 1).drop_last() =~= self.sessions@.take(i as int));
            let long = match self.sessions[i].last_detached_ns {
                Some(detached) => (if now_ns > detached {
                    now_ns - detached
                } else {
                    0
                }) >= retention_ns,
                None => false,
            };
            if long {
                let ghost before = ids@;
                ids.push(self.sessions[i].session_id.clone());
                assert(texts(ids@) =~= texts(before).push(self.sessions@[i as int].session_id@));
            }
            i = i + 1;
        }
        assert(self.sessions@.take(i as int) =~= self.sessions@);
        ids
    }

    pub open spec fn eviction_of(
        self,
        session_id: Seq<char>,
        now_ns: u64,
        turn_active: bool,
        health: PersistenceHealth,
    ) -> EvictionPlan {
        if self.settings.idle_retention_ns is None || !self.by_id().contains_key(session_id)
            || !self.by_id()[session_id].idle_at(
            now_ns,
            self.settings.idle_retention_ns->0,
            turn_active,
        ) {
            EvictionPlan::Skip
        } else {
            let entry = self.by_id()[session_id];
            if health == PersistenceHealth::Clean {
                EvictionPlan::Remove { instance: entry.instance }
            } else {
                match self.settings.persistence_eviction_extension_ns {
                    None => EvictionPlan::Remove { instance: entry.instance },
                    Some(extension_ns) => EvictionPlan::TrySave {
                        instance: entry.instance,
                        extension_expired: match entry.persistence_deferral_started_ns {
                            Some(started) => since(started, now_ns) >= extension_ns,
                            None => extension_ns == 0,
                        },
                    },
                }
            }
        }
    }

    /// Since when a session's eviction is put off, after its plan was made.
    pub open spec fn deferral_after(
        self,
        session_id: Seq<char>,
        now_ns: u64,
        plan: EvictionPlan,
        health: PersistenceHealth,
    ) -> Option<u64> {
        let started = self.by_id()[session_id].persistence_deferral_started_ns;
        match plan {
            EvictionPlan::Skip => started,
            EvictionPlan::TrySave { .. } => if started is Some {
                started
            } else {
                Some(now_ns)
            },
            EvictionPlan::Remove { .. } => if health == PersistenceHealth::Clean {
                None
            } else {
                started
            },
        }
    }

    /// Decides what becomes of a session that looked idle.
    pub fn plan_eviction(
        &mut self,
        session_id: &str,
        now_ns: u64,
        turn_active: bool,
        health: PersistenceHealth,
    ) -> (plan: EvictionPlan)
        requires
            old(self).well_formed(),
        ensures
            final(self).well_formed(),
            plan == old(self).eviction_of(session_id@, now_ns, turn_active, health),
            *final(self) == (SessionDaemon { sessions: final(self).sessions, ..*old(self) }),
            final(self).by_id() == if old(self).by_id().contains_key(session_id@) {
                old(self).by_id().insert(
                    session_id@,
                    SessionEntry {
                        persistence_deferral_started_ns: old(self).deferral_after(
                            session_id@,
                            now_ns,
                            plan,
                            health,
                        ),
                        ..old(self).by_id()[session_id@]
                    },
                )
            } else {
                old(self).by_id()
            },
    {
        let at = match self.find(session_id) {
            None => return EvictionPlan::Skip,
            Some(at) => at,
        };
        let retention_ns = match self.settings.idle_retention_ns {
            None => {
                proof {
                    assert(old(self).by_id().insert(session_id@, old(self).by_id()[session_id@])
                        =~= old(self).by_id());
                }
                return EvictionPlan::Skip;
            },
            Some(retention_ns) => retention_ns,
        };
        if !self.sessions[at].is_idle(now_ns, retention_ns, turn_active) {
            proof {
                assert(old(self).by_id().insert(session_id@, old(self).by_id()[session_id@])
                    =~= old(self).by_id());
            }
            return EvictionPlan::Skip;
        }
        let instance: u64 = self.sessions[at].instance;
        let started = self.sessions[at].persistence_deferral_started_ns;
        let (plan, deferral) = if health == PersistenceHealth::Clean {
            (EvictionPlan::Remove { instance }, None)
        } else {
            match self.settings.persistence_eviction_extension_ns {
                None => (EvictionPlan::Remove { instance }, started),
                Some(extension_ns) => {
                    let from: u64 = match started {
                        Some(started) => started,
                        None => now_ns,
                    };
                    let waited: u64 = if now_ns > from {
                        now_ns - from
                    } else {
                        0
                    };
                    (
                        EvictionPlan::TrySave {
                            instance,
                            extension_expired: waited >= extension_ns,
                        },
                        Some(from),
                    )
                },
            }
        };
        let ghost before = self.sessions@;
        let mut entry = self.sessions.remove(at);
        entry.persistence_deferral_started_ns = deferral;
        let ghost now = entry;
        self.sessions.insert(at, entry);
        proof {
            assert(self.sessions@ =~= before.update(at as int, now));
            lemma_update(before, entry_key::<C>(), at as int, now);
        }
        plan
    }

    /// Takes an idle session out of the registry, if it is still there and
    /// still idle.
    pub fn remove_if_idle(
        &mut self,
        session_id: &str,
        instance: u64,
        now_ns: u64,
        turn_active: bool,
    ) -> (removed: Option<SessionEntry<C>>)
        requires
            old(self).well_formed(),
        ensures
            final(self).well_formed(),
            match removed {
                Some(entry) => {
                    &&& old(self).current(session_id@, instance)
                    &&& old(self).settings.idle_retention_ns matches Some(retention_ns)
                        && old(self).by_id()[session_id@].idle_at(now_ns, retention_ns, turn_active)
                    &&& old(self).removed(*final(self), session_id@, entry)
                },
                None => {
                    &&& *final(self) == *old(self)
                    &&& !(old(self).current(session_id@, instance)
                        && old(self).settings.idle_retention_ns is Some
                        && old(self).by_id()[session_id@].idle_at(
                        now_ns,
                        old(self).settings.idle_retention_ns->0,
                        turn_active,
                    ))
                },
            },
    {
        let at = match self.find(session_id) {
            None => return None,
            Some(at) => at,
        };
        let retention_ns = match self.settings.idle_retention_ns {
            None => return None,
            Some(retention_ns) => retention_ns,
        };
        if self.sessions[at].instance != instance || !self.sessions[at].is_idle(
            now_ns,
            retention_ns,
            turn_active,
        ) {
            return None;
        }
        Some(self.take_entry(at))
    }

    /// The session that is live under an id.
    pub fn current_instance(&self, session_id: &str) -> (instance: Option<u64>)
        requires
            self.well_formed(),
        ensures
            match instance {
                Some(instance) => self.current(session_id@, instance),
                None => !self.by_id().contains_key(session_id@),
            },
    {
        match self.find(session_id) {
            Some(at) => Some(self.sessions[at].instance),
            None => None,
        }
    }

    /// Takes a session out of the registry, unless another one stands there
    /// under its id by now.
    pub fn remove_session(&mut self, session_id: &str, instance: u64) -> (removed: Option<
        SessionEntry<C>,
    >)
        requires
            old(self).well_formed(),
        ensures
            final(self).well_formed(),
            match removed {
                Some(entry) => old(self).current(session_id@, instance) && old(self).removed(
                    *final(self),
                    session_id@,
                    entry,
                ),
                None => !old(self).current(session_id@, instance) && *final(self) == *old(self),
            },
    {
        match self.find(session_id) {
            Some(at) => if self.sessions[at].instance == instance {
                Some(self.take_entry(at))
            } else {
                None
            },
            None => None,
        }
    }

    /// Takes back a session that was made for a connection that failed.
    pub fn rollback_generated_session(&mut self, session_id: &str) -> (removed: Option<
        SessionEntry<C>,
    >)
        requires
            old(self).well_formed(),
        ensures
            final(self).well_formed(),
            match removed {
                Some(entry) => old(self).by_id().contains_key(session_id@) && old(self).removed(
                    *final(self),
                    session_id@,
                    entry,
                ),
                None => !old(self).by_id().contains_key(session_id@) && *final(self) == *old(self),
            },
    {
        match self.find(session_id) {
            Some(at) => Some(self.take_entry(at)),
            None => None,
        }
    }

    /// How a session's last save is made. A clean session needs none.
    pub fn plan_final_save(&self, force: bool, health: PersistenceHealth) -> (plan: FinalSavePlan)
        ensures
            plan == if !force && health == PersistenceHealth::Clean {
                FinalSavePlan::Settled(FinalSaveOutcome::Saved)
            } else {
                match self.settings.persistence_final_save_timeout_ns {
                    Some(timeout_ns) => FinalSavePlan::Run { timeout_ns },
                    None => FinalSavePlan::Settled(FinalSaveOutcome::Failed),
                }
            },
    {
        if !force && health == PersistenceHealth::Clean {
            return FinalSavePlan::Settled(FinalSaveOutcome::Saved);
        }
        match self.settings.persistence_final_save_timeout_ns {
            Some(timeout_ns) => FinalSavePlan::Run { timeout_ns },
            None => FinalSavePlan::Settled(FinalSaveOutcome::Failed),
        }
    }

    /// How many late saves run for a session.
    pub open spec fn late_count(self, session_id: Seq<char>) -> int {
        if self.late_by_id().contains_key(session_id) {
            self.late_by_id()[session_id].count as int
        } else {
            0
        }
    }

    /// Whether the late saves of one session became a number, and nothing else
    /// changed.
    pub open spec fn late_set(self, after: Self, session_id: Seq<char>, count: int) -> bool {
        &&& after == (SessionDaemon {
            late_persistence_saves: after.late_persistence_saves,
            ..self
        })
        &&& after.late_count(session_id) == count
        &&& forall|other: Seq<char>|
            other != session_id ==> #[trigger] after.late_count(other) == self.late_count(other)
    }

    /// Settles a last save by how its task ended. A save that ran out of time
    /// goes on in the background, and is counted.
    pub fn settle_final_save(&mut self, session_id: &str, event: FinalSaveEvent) -> (outcome:
        FinalSaveOutcome)
        requires
            old(self).well_formed(),
            old(self).late_count(session_id@) < usize::MAX,
        ensures
            final(self).well_formed(),
            outcome == save_event_outcome(event),
            if outcome == FinalSaveOutcome::TimedOut {
                old(self).late_set(
                    *final(self),
                    session_id@,
                    old(self).late_count(session_id@) + 1,
                )
            } else {
                *final(self) == *old(self)
            },
    {
        match event {
            FinalSaveEvent::Finished(health) => if health == PersistenceHealth::Clean {
                FinalSaveOutcome::Saved
            } else {
                FinalSaveOutcome::Failed
            },
            FinalSaveEvent::TaskFailed => FinalSaveOutcome::Failed,
            FinalSaveEvent::TimedOut => {
                self.count_late_save(session_id);
                FinalSaveOutcome::TimedOut
            },
        }
    }

    fn count_late_save(&mut self, session_id: &str)
        requires
            old(self).well_formed(),
            old(self).late_count(session_id@) < usize::MAX,
        ensures
            final(self).well_formed(),
            old(self).late_set(*final(self), session_id@, old(self).late_count(session_id@) + 1),
    {
        match self.find_late(session_id) {
            Some(at) => {
                let count: usize = self.late_persistence_saves[at].count;
                let grown = LateSaves {
                    session_id: self.late_persistence_saves[at].session_id.clone(),
                    count: count + 1,
                };
                proof {
                    lemma_update(self.late_persistence_saves@, late_key(), at as int, grown);
                }
                self.late_persistence_saves.set(at, grown);
            },
            None => {
                let first = LateSaves { session_id: session_id.to_owned(), count: 1 };
                proof {
                    lemma_push(self.late_persistence_saves@, late_key(), first);
                }
                self.late_persistence_saves.push(first);
            },
        }
    }

    /// Takes note that a late save is over.
    pub fn late_save_finished(&mut self, session_id: &str)
        requires
            old(self).well_formed(),
        ensures
            final(self).well_formed(),
            old(self).late_set(
                *final(self),
                session_id@,
                if old(self).late_count(session_id@) > 0 {
                    old(self).late_count(session_id@) - 1
                } else {
                    0
                },
            ),
    {
        match self.find_late(session_id) {
            Some(at) => {
                let count: usize = self.late_persistence_saves[at].count;
                if count <= 1 {
                    proof {
                        lemma_remove(self.late_persistence_saves@, late_key(), at as int);
                    }
                    let _ = self.late_persistence_saves.remove(at);
                    proof {
                        assert forall|i: int|
                            0 <= i < self.late_persistence_saves@.len() implies (
                        #[trigger] self.late_persistence_saves@[i]).count > 0 by {
                            let was = if i < at {
                                i
                            } else {
                                i + 1
                            };
                            assert(self.late_persistence_saves@[i] == old(self).late_persistence_saves@[was]);
                        }
                    }
                } else {
                    let shrunk = LateSaves {
                        session_id: self.late_persistence_saves[at].session_id.clone(),
                        count: count - 1,
                    };
                    proof {
                        lemma_update(self.late_persistence_saves@, late_key(), at as int, shrunk);
                    }
                    self.late_persistence_saves.set(at, shrunk);
                }
            },
            None => {},
        }
    }

    /// Whether the running prompts of one session became a number, and nothing
    /// else changed.
    pub open spec fn prompts_set(self, after: Self, session_id: Seq<char>, count: usize) -> bool {
        &&& after == (SessionDaemon { sessions: after.sessions, ..self })
        &&& after.by_id() == self.by_id().insert(
            session_id,
            SessionEntry { active_prompt_tasks: count, ..self.by_id()[session_id] },
        )
    }

    fn set_prompt_tasks(&mut self, at: usize, count: usize)
        requires
            old(self).well_formed(),
            at < old(self).sessions@.len(),
        ensures
            final(self).well_formed(),
            old(self).prompts_set(
                *final(self),
                old(self).sessions@[at as int].session_id@,
                count,
            ),
    {
        let ghost before = self.sessions@;
        proof {
            lemma_lookup(before, entry_key::<C>(), at as int);
        }
        let mut entry = self.sessions.remove(at);
        entry.active_prompt_tasks = count;
        let ghost now = entry;
        self.sessions.insert(at, entry);
        proof {
            assert(self.sessions@ =~= before.update(at as int, now));
            lemma_update(before, entry_key::<C>(), at as int, now);
        }
    }

    /// Takes note that a prompt starts; says whether its session is there.
    pub fn prompt_started(&mut self, session_id: &str, instance: u64) -> (counted: bool)
        requires
            old(self).well_formed(),
            old(self).current(session_id@, instance)
                ==> old(self).by_id()[session_id@].active_prompt_tasks < usize::MAX,
        ensures
            final(self).well_formed(),
            counted == old(self).current(session_id@, instance),
            if counted {
                old(self).prompts_set(
                    *final(self),
                    session_id@,
                    (old(self).by_id()[session_id@].active_prompt_tasks + 1) as usize,
                )
            } else {
                *final(self) == *old(self)
            },
    {
        match self.find(session_id) {
            Some(at) => if self.sessions[at].instance == instance {
                let count: usize = self.sessions[at].active_prompt_tasks;
                self.set_prompt_tasks(at, count + 1);
                true
            } else {
                false
            },
            None => false,
        }
    }

    /// Takes note that a prompt is over; says whether its session is there.
    pub fn prompt_finished(&mut self, session_id: &str, instance: u64) -> (counted: bool)
        requires
            old(self).well_formed(),
            old(self).current(session_id@, instance)
                ==> old(self).by_id()[session_id@].active_prompt_tasks > 0,
        ensures
            final(self).well_formed(),
            counted == old(self).current(session_id@, instance),
            if counted {
                old(self).prompts_set(
                    *final(self),
                    session_id@,
                    (old(self).by_id()[session_id@].active_prompt_tasks - 1) as usize,
                )
            } else {
                *final(self) == *old(self)
            },
    {
        match self.find(session_id) {
            Some(at) => if self.sessions[at].instance == instance {
                let count: usize = self.sessions[at].active_prompt_tasks;
                proof {
                    lemma_lookup(self.sessions@, entry_key::<C>(), at as int);
                }
                self.set_prompt_tasks(at, count - 1);
                true
            } else {
                false
            },
            None => false,
        }
    }

    /// Refuses every further open, and names the sessions that are to be ended.
    pub fn begin_shutdown(&mut self) -> (ids: Vec<String>)
        ensures
            *final(self) == (SessionDaemon { shutting_down: true, ..*old(self) }),
            texts(ids@) == entry_ids(old(self).sessions@),
    {
        self.shutting_down = true;
        let mut ids: Vec<String> = Vec::new();
        let mut i: usize = 0;
        while i < self.sessions.len()
            invariant
                i <= self.sessions@.len(),
                ids@.len() == i,
                forall|k: int| 0 <= k < i ==> (#[trigger] ids@[k])@ == self.sessions@[k].session_id@,
            decreases self.sessions@.len() - i,
        {
            ids.push(self.sessions[i].session_id.clone());
            i = i + 1;
        }
        assert(texts(ids@) =~= entry_ids(self.sessions@));
        ids
    }

    /// How long ending all sessions may take at shutdown.
    pub fn finalization_budget_ns(&self) -> (budget_ns: u128)
        ensures
            budget_ns == self.settings.shutdown_grace_ns
                + match self.settings.persistence_final_save_timeout_ns {
                Some(timeout_ns) => timeout_ns as int,
                None => 0,
            },
    {
        let timeout_ns: u64 = match self.settings.persistence_final_save_timeout_ns {
            Some(timeout_ns) => timeout_ns,
            None => 0,
        };
        self.settings.shutdown_grace_ns as u128 + timeout_ns as u128
    }
}

/// A session whose save still runs in the background cannot be opened again
/// until that save is over.
pub proof fn law_late_save_keeps_identity<C>(
    daemon: SessionDaemon<C>,
    id: String,
    fresh: String,
    result: Result<crate::session_daemon::admission::OpenStep, crate::session_daemon::SessionDaemonError>,
)
    requires
        daemon.late_count(id@) > 0,
        !daemon.shutting_down,
        daemon.settings.has_factory,
        !daemon.by_id().contains_key(id@),
        daemon.open_answer(Some(id), fresh, result),
    ensures
        result == Err::<crate::session_daemon::admission::OpenStep, _>(
            crate::session_daemon::SessionDaemonError::SessionStopped(id),
        ),
{
}

/// A daemon that is shutting down opens nothing.
pub proof fn law_shutdown_refuses_opening<C>(
    daemon: SessionDaemon<C>,
    requested: Option<String>,
    fresh: String,
    result: Result<crate::session_daemon::admission::OpenStep, crate::session_daemon::SessionDaemonError>,
)
    requires
        daemon.shutting_down,
        daemon.open_answer(requested, fresh, result),
    ensures
        result is Err,
{
}

/// A session that left the registry frees its place: another one can be entered.
pub proof fn law_removal_frees_a_slot<C>(
    before: SessionDaemon<C>,
    after: SessionDaemon<C>,
    session_id: Seq<char>,
    entry: SessionEntry<C>,
    newcomer: String,
)
    requires
        before.well_formed(),
        before.removed(after, session_id, entry),
        !after.by_id().contains_key(newcomer@),
        !after.late_by_id().contains_key(newcomer@),
    ensures
        after.entry_refusal(newcomer) is None,
{
}

} // verus!
