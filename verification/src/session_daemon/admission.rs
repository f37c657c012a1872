//! Opening sessions and attaching clients to them.
use vstd::prelude::*;
use vstd::string::*;
use crate::foreign::{fresh_uuid, uuid_text};
use crate::keyed::{has_key, lemma_push, lemma_remove};
use crate::session_core::event_router::SessionEventError;
use crate::session_daemon::registry::{entry_key, name_key, SessionDaemon, SessionEntry};
use crate::session_daemon::{SessionDaemonError, SessionOpenError, SessionOpenMode};

verus! {

broadcast use vstd::string::group_string_axioms;

/// What opening a session starts with.
#[derive(Debug, PartialEq, Eq)]
pub enum OpenStep {
    /// The session is live.
    Existing(String),
    /// The session is to be made or loaded. Its id is held until the open is
    /// finished.
    Open { session_id: String, mode: SessionOpenMode, generated: bool },
}

/// What opening a session came to. A core that did not get into the registry
/// comes back, and with it whether its stored form is to be deleted.
#[derive(Debug, PartialEq, Eq)]
pub struct OpenFinish<C> {
    pub result: Result<(String, bool), SessionDaemonError>,
    pub rejected: Option<C>,
    pub delete_persisted: bool,
}

/// The session id and mode of an open: a named session is loaded, one without a
/// name is made under a new id.
pub open spec fn open_target(requested: Option<String>, fresh: String) -> (
    String,
    SessionOpenMode,
    bool,
) {
    match requested {
        Some(id) => (id, SessionOpenMode::Load, false),
        None => (fresh, SessionOpenMode::Create, true),
    }
}

impl<C> SessionDaemon<C> {
    /// What starting an open comes to, in the order in which it is refused.
    pub open spec fn open_answer(
        self,
        requested: Option<String>,
        fresh: String,
        result: Result<OpenStep, SessionDaemonError>,
    ) -> bool {
        let (id, mode, generated) = open_target(requested, fresh);
        if self.shutting_down {
            result == Err::<OpenStep, _>(SessionDaemonError::ShuttingDown)
        } else if requested is Some && self.by_id().contains_key(id@) {
            result == Ok::<_, SessionDaemonError>(OpenStep::Existing(id))
        } else if !self.settings.has_factory {
            result == Err::<OpenStep, _>(SessionDaemonError::FactoryUnavailable)
        } else if self.by_id().contains_key(id@) {
            result == Ok::<_, SessionDaemonError>(OpenStep::Existing(id))
        } else if self.late_by_id().contains_key(id@) {
            result == Err::<OpenStep, _>(SessionDaemonError::SessionStopped(id))
        } else if self.sessions@.len() + self.creating_sessions@.len()
            >= self.settings.max_sessions {
            result == Err::<OpenStep, _>(
                SessionDaemonError::SessionLimitReached { max: self.settings.max_sessions },
            )
        } else if self.is_creating(id@) {
            result == Err::<OpenStep, _>(SessionDaemonError::DuplicateSession(id))
        } else {
            result == Ok::<_, SessionDaemonError>(
                OpenStep::Open { session_id: id, mode, generated },
            )
        }
    }

    /// Starts an open, with `fresh` as the id of a session without a name.
    pub fn begin_open_as(&mut self, requested: Option<String>, fresh: String) -> (result: Result<
        OpenStep,
        SessionDaemonError,
    >)
        requires
            old(self).well_formed(),
        ensures
            final(self).well_formed(),
            old(self).open_answer(requested, fresh, result),
            match result {
                Ok(OpenStep::Open { session_id, .. }) => {
                    &&& *final(self) == (SessionDaemon {
                        creating_sessions: final(self).creating_sessions,
                        ..*old(self)
                    })
                    &&& final(self).creating_sessions@ == old(self).creating_sessions@.push(
                        session_id,
                    )
                },
                _ => *final(self) == *old(self),
            },
    {
        if self.shutting_down {
            return Err(SessionDaemonError::ShuttingDown);
        }
        let named = requested.is_some();
        let (session_id, mode, generated) = match requested {
            Some(id) => (id, SessionOpenMode::Load, false),
            None => (fresh, SessionOpenMode::Create, true),
        };
        let live = self.session(session_id.as_str()).is_some();
        if named && live {
            return Ok(OpenStep::Existing(session_id));
        }
        if !self.settings.has_factory {
            return Err(SessionDaemonError::FactoryUnavailable);
        }
        if live {
            return Ok(OpenStep::Existing(session_id));
        }
        if self.has_late_persistence_save(session_id.as_str()) {
            return Err(SessionDaemonError::SessionStopped(session_id));
        }
        let max: usize = self.settings.max_sessions;
        if self.sessions.len() >= max || self.creating_sessions.len() >= max
            - self.sessions.len() {
            return Err(SessionDaemonError::SessionLimitReached { max });
        }
        if self.find_creating(session_id.as_str()).is_some() {
            return Err(SessionDaemonError::DuplicateSession(session_id));
        }
        proof {
            lemma_push(self.creating_sessions@, name_key(), session_id);
        }
        self.creating_sessions.push(session_id.clone());
        Ok(OpenStep::Open { session_id, mode, generated })
    }

    /// Starts an open. A session without a name gets a random id.
    pub fn begin_open(&mut self, requested: Option<String>) -> (result: Result<
        OpenStep,
        SessionDaemonError,
    >)
        requires
            old(self).well_formed(),
        ensures
            final(self).well_formed(),
            exists|fresh: String| #[trigger]
                uuid_text(fresh@) && old(self).open_answer(requested, fresh, result),
            match result {
                Ok(OpenStep::Open { session_id, .. }) => {
                    &&& *final(self) == (SessionDaemon {
                        creating_sessions: final(self).creating_sessions,
                        ..*old(self)
                    })
                    &&& final(self).creating_sessions@ == old(self).creating_sessions@.push(
                        session_id,
                    )
                },
                _ => *final(self) == *old(self),
            },
    {
        let fresh = fresh_uuid();
        assert(uuid_text(fresh@));
        self.begin_open_as(requested, fresh)
    }

    /// Why a session cannot be entered into the registry.
    pub open spec fn entry_refusal(self, session_id: String) -> Option<SessionDaemonError> {
        if self.late_by_id().contains_key(session_id@) {
            Some(SessionDaemonError::SessionStopped(session_id))
        } else if self.by_id().contains_key(session_id@) {
            Some(SessionDaemonError::DuplicateSession(session_id))
        } else if self.sessions@.len() >= self.settings.max_sessions {
            Some(SessionDaemonError::SessionLimitReached { max: self.settings.max_sessions })
        } else {
            None
        }
    }

    /// Whether a session may be entered into the registry. Only then is its
    /// snapshot subscribed to its events.
    pub fn admit_session(&self, session_id: &String) -> (result: Result<(), SessionDaemonError>)
        requires
            self.well_formed(),
        ensures
            match self.entry_refusal(*session_id) {
                Some(error) => result == Err::<(), _>(error),
                None => result is Ok,
            },
    {
        if self.has_late_persistence_save(session_id.as_str()) {
            return Err(SessionDaemonError::SessionStopped(session_id.clone()));
        }
        if self.session(session_id.as_str()).is_some() {
            return Err(SessionDaemonError::DuplicateSession(session_id.clone()));
        }
        if self.sessions.len() >= self.settings.max_sessions {
            return Err(
                SessionDaemonError::SessionLimitReached { max: self.settings.max_sessions },
            );
        }
        Ok(())
    }

    /// A session that has just been entered.
    pub open spec fn new_entry(self, session_id: String, core: C, entry: SessionEntry<C>) -> bool {
        &&& entry == (SessionEntry {
            session_id,
            instance: self.next_instance,
            core,
            clients: entry.clients,
            max_clients: self.settings.max_clients_per_session,
            stopped: false,
            last_detached_ns: None,
            active_prompt_tasks: 0,
            persistence_deferral_started_ns: None,
        })
        &&& entry.clients@.len() == 0
    }

    /// Whether a session was entered and nothing else changed.
    pub open spec fn entered(self, after: Self, session_id: String, core: C) -> bool {
        &&& after == (SessionDaemon {
            sessions: after.sessions,
            next_instance: (self.next_instance + 1) as u64,
            ..self
        })
        &&& after.by_id().contains_key(session_id@)
        &&& self.new_entry(session_id, core, after.by_id()[session_id@])
        &&& after.by_id() == self.by_id().insert(session_id@, after.by_id()[session_id@])
        &&& after.sessions@.len() == self.sessions@.len() + 1
    }

    /// Enters a session, with `subscription` as what subscribing its snapshot
    /// came to. A core that is refused comes back.
    pub fn create_session(
        &mut self,
        session_id: String,
        core: C,
        subscription: Result<(), SessionEventError>,
    ) -> (result: Result<(), (SessionDaemonError, C)>)
        requires
            old(self).well_formed(),
            old(self).next_instance < u64::MAX,
        ensures
            final(self).well_formed(),
            match old(self).entry_refusal(session_id) {
                Some(error) => result == Err::<(), _>((error, core)) && *final(self) == *old(self),
                None => match subscription {
                    Err(error) => {
                        &&& result matches Err((SessionDaemonError::EventSubscription(text), back))
                            && text@ == error.variant_text() && back == core
                        &&& *final(self) == *old(self)
                    },
                    Ok(()) => result is Ok && old(self).entered(*final(self), session_id, core),
                },
            },
    {
        match self.admit_session(&session_id) {
            Err(error) => return Err((error, core)),
            Ok(()) => {},
        }
        match subscription {
            Err(error) => return Err(
                (SessionDaemonError::EventSubscription(error.variant_message()), core),
            ),
            Ok(()) => {},
        }
        let instance: u64 = self.next_instance;
        self.next_instance = instance + 1;
        let entry = SessionEntry {
            session_id,
            instance,
            core,
            clients: Vec::new(),
            max_clients: self.settings.max_clients_per_session,
            stopped: false,
            last_detached_ns: None,
            active_prompt_tasks: 0,
            persistence_deferral_started_ns: None,
        };
        proof {
            if has_key(self.sessions@, entry_key::<C>(), session_id@) {
                assert(old(self).by_id().contains_key(session_id@));
            }
            lemma_push(self.sessions@, entry_key::<C>(), entry);
        }
        self.sessions.push(entry);
        Ok(())
    }

    /// The ids that are held, but one.
    pub open spec fn hold_dropped(self, after: Seq<String>, session_id: Seq<char>) -> bool {
        if self.is_creating(session_id) {
            exists|at: int|
                0 <= at < self.creating_sessions@.len() && self.creating_sessions@[at]@
                    == session_id && after == #[trigger] self.creating_sessions@.remove(at)
        } else {
            after == self.creating_sessions@
        }
    }

    fn drop_hold(&mut self, session_id: &str)
        requires
            old(self).well_formed(),
        ensures
            final(self).well_formed(),
            *final(self) == (SessionDaemon {
                creating_sessions: final(self).creating_sessions,
                ..*old(self)
            }),
            old(self).hold_dropped(final(self).creating_sessions@, session_id@),
            !final(self).is_creating(session_id@),
    {
        match self.find_creating(session_id) {
            Some(at) => {
                proof {
                    lemma_remove(self.creating_sessions@, name_key(), at as int);
                }
                let _ = self.creating_sessions.remove(at);
            },
            None => {},
        }
    }

    /// Finishes an open that `begin_open` started. A daemon that is shutting
    /// down by now takes nothing in, and what it made for the open is deleted.
    pub fn finish_open(
        &mut self,
        session_id: String,
        generated: bool,
        opened: Result<C, SessionOpenError>,
        subscription: Result<(), SessionEventError>,
    ) -> (finish: OpenFinish<C>)
        requires
            old(self).well_formed(),
            old(self).next_instance < u64::MAX,
        ensures
            final(self).well_formed(),
            !final(self).is_creating(session_id@),
            exists|held: SessionDaemon<C>|
                #![trigger old(self).hold_dropped(held.creating_sessions@, session_id@)]
                {
                    &&& held == (SessionDaemon {
                        creating_sessions: held.creating_sessions,
                        ..*old(self)
                    })
                    &&& old(self).hold_dropped(held.creating_sessions@, session_id@)
                    &&& match opened {
                        Err(error) => {
                            &&& finish.result == Err::<(String, bool), _>(
                                SessionDaemonError::OpenFailed(error),
                            )
                            &&& finish.rejected is None
                            &&& !finish.delete_persisted
                            &&& *final(self) == held
                        },
                        Ok(core) => if old(self).shutting_down {
                            &&& finish.result == Err::<(String, bool), _>(
                                SessionDaemonError::ShuttingDown,
                            )
                            &&& finish.rejected == Some(core)
                            &&& finish.delete_persisted == generated
                            &&& *final(self) == held
                        } else {
                            match held.entry_refusal(session_id) {
                                Some(error) => {
                                    &&& finish.result == Err::<(String, bool), _>(error)
                                    &&& finish.rejected == Some(core)
                                    &&& !finish.delete_persisted
                                    &&& *final(self) == held
                                },
                                None => match subscription {
                                    Err(error) => {
                                        &&& finish.result matches Err(
                                            SessionDaemonError::EventSubscription(text),
                                        ) && text@ == error.variant_text()
                                        &&& finish.rejected == Some(core)
                                        &&& !finish.delete_persisted
                                        &&& *final(self) == held
                                    },
                                    Ok(()) => {
                                        &&& finish.result == Ok::<_, SessionDaemonError>(
                                            (session_id, generated),
                                        )
                                        &&& finish.rejected is None
                                        &&& !finish.delete_persisted
                                        &&& held.entered(*final(self), session_id, core)
                                    },
                                },
                            }
                        },
                    }
                },
    {
        self.drop_hold(session_id.as_str());
        let ghost held = *self;
        assert(old(self).hold_dropped(held.creating_sessions@, session_id@));
        let core = match opened {
            Err(error) => return OpenFinish {
                result: Err(SessionDaemonError::OpenFailed(error)),
                rejected: None,
                delete_persisted: false,
            },
            Ok(core) => core,
        };
        if self.shutting_down {
            return OpenFinish {
                result: Err(SessionDaemonError::ShuttingDown),
                rejected: Some(core),
                delete_persisted: generated,
            };
        }
        match self.create_session(session_id.clone(), core, subscription) {
            Err((error, core)) => OpenFinish {
                result: Err(error),
                rejected: Some(core),
                delete_persisted: false,
            },
            Ok(()) => OpenFinish {
                result: Ok((session_id, generated)),
                rejected: None,
                delete_persisted: false,
            },
        }
    }
}

} // verus!
