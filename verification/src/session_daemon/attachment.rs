//! Attaching clients to live sessions, and letting them go.
use vstd::prelude::*;
use vstd::string::*;
use crate::keyed::{lemma_lookup, lemma_push, lemma_remove, lemma_update};
use crate::session_daemon::registry::{
    client_key, copy_capabilities, count_holders, entry_key, holders, AttachedSession, Attachment,
    ClientAttachment, SessionDaemon,
};
use crate::session_daemon::SessionDaemonError;
use crate::session_protocol::{ClientCapability, ClientInfo};

verus! {

broadcast use vstd::string::group_string_axioms;

impl<C> SessionDaemon<C> {
    /// Whether one live session changed into another form of itself, and
    /// nothing else of the sessions did.
    pub open spec fn entry_changed(self, after: Self, session_id: Seq<char>) -> bool {
        &&& after.by_id().contains_key(session_id)
        &&& after.by_id() == self.by_id().insert(session_id, after.by_id()[session_id])
        &&& after.sessions@.len() == self.sessions@.len()
        &&& after.by_id()[session_id].session_id == self.by_id()[session_id].session_id
        &&& after.by_id()[session_id].instance == self.by_id()[session_id].instance
        &&& after.by_id()[session_id].core == self.by_id()[session_id].core
        &&& after.by_id()[session_id].max_clients == self.by_id()[session_id].max_clients
        &&& after.by_id()[session_id].stopped == self.by_id()[session_id].stopped
        &&& after.by_id()[session_id].active_prompt_tasks
            == self.by_id()[session_id].active_prompt_tasks
    }

    /// Why a client cannot attach.
    pub open spec fn attach_refused(
        self,
        session_id: Seq<char>,
        client_id: String,
        replace_existing: bool,
        error: SessionDaemonError,
    ) -> bool {
        if !self.by_id().contains_key(session_id) {
            error matches SessionDaemonError::SessionNotFound(id) && id@ == session_id
        } else {
            let entry = self.by_id()[session_id];
            let present = entry.clients_by_id().contains_key(client_id@);
            if entry.stopped {
                error matches SessionDaemonError::SessionStopped(id) && id@ == session_id
            } else if present {
                !replace_existing && error == SessionDaemonError::DuplicateClient(client_id)
            } else {
                entry.clients@.len() >= entry.max_clients && error
                    == (SessionDaemonError::ClientLimitReached { max: entry.max_clients })
            }
        }
    }

    pub open spec fn attach_admitted(
        self,
        session_id: Seq<char>,
        client_id: Seq<char>,
        replace_existing: bool,
    ) -> bool {
        &&& self.by_id().contains_key(session_id)
        &&& !self.by_id()[session_id].stopped
        &&& if self.by_id()[session_id].clients_by_id().contains_key(client_id) {
            replace_existing
        } else {
            self.by_id()[session_id].clients@.len() < self.by_id()[session_id].max_clients
        }
    }

    /// What an attachment changes in the registry.
    pub open spec fn attached_as(
        self,
        after: Self,
        session_id: Seq<char>,
        client: ClientInfo,
        capabilities: Seq<ClientCapability>,
        attachment: Attachment,
    ) -> bool {
        let entry = self.by_id()[session_id];
        let now = after.by_id()[session_id];
        &&& after == (SessionDaemon {
            sessions: after.sessions,
            next_attachment_id: (self.next_attachment_id + 1) as u64,
            ..self
        })
        &&& self.entry_changed(after, session_id)
        &&& now.clients_by_id().contains_key(client.id@)
        &&& now.clients_by_id() == entry.clients_by_id().insert(
            client.id@,
            now.clients_by_id()[client.id@],
        )
        &&& now.clients_by_id()[client.id@].info == client
        &&& now.clients_by_id()[client.id@].capabilities@ == capabilities
        &&& now.clients_by_id()[client.id@].attachment_id == self.next_attachment_id
        &&& now.last_detached_ns is None
        &&& now.persistence_deferral_started_ns is None
        &&& attachment.attached.session_id@ == session_id
        &&& attachment.attached.instance == entry.instance
        &&& attachment.attached.client_id == client.id
        &&& attachment.attached.capabilities@ == capabilities
        &&& attachment.attached.attachment_id == self.next_attachment_id
        &&& attachment.replaced == if entry.clients_by_id().contains_key(client.id@) {
            Some(entry.clients_by_id()[client.id@].attachment_id)
        } else {
            None
        }
        &&& attachment.approve_once == holders(now.clients@, ClientCapability::ApproveOnce)
        &&& attachment.approve_always == holders(now.clients@, ClientCapability::ApproveAlways)
    }

    /// Attaches a client. A client that comes back may take the place of its
    /// own earlier attachment.
    pub fn attach_internal(
        &mut self,
        session_id: &str,
        client: ClientInfo,
        capabilities: &Vec<ClientCapability>,
        replace_existing: bool,
    ) -> (result: Result<Attachment, SessionDaemonError>)
        requires
            old(self).well_formed(),
            old(self).next_attachment_id < u64::MAX,
        ensures
            final(self).well_formed(),
            result is Ok <==> old(self).attach_admitted(
                session_id@,
                client.id@,
                replace_existing,
            ),
            match result {
                Err(error) => *final(self) == *old(self) && old(self).attach_refused(
                    session_id@,
                    client.id,
                    replace_existing,
                    error,
                ),
                Ok(attachment) => old(self).attached_as(
                    *final(self),
                    session_id@,
                    client,
                    capabilities@,
                    attachment,
                ),
            },
    {
        let at = match self.find(session_id) {
            None => return Err(SessionDaemonError::SessionNotFound(session_id.to_owned())),
            Some(at) => at,
        };
        let ghost entry = self.sessions@[at as int];
        assert(entry.well_formed());
        if self.sessions[at].stopped {
            return Err(SessionDaemonError::SessionStopped(session_id.to_owned()));
        }
        let present = self.sessions[at].find_client(client.id.as_str());
        match present {
            Some(_) => {
                if !replace_existing {
                    return Err(SessionDaemonError::DuplicateClient(client.id));
                }
            },
            None => {
                if self.sessions[at].clients.len() >= self.sessions[at].max_clients {
                    return Err(
                        SessionDaemonError::ClientLimitReached {
                            max: self.sessions[at].max_clients,
                        },
                    );
                }
            },
        }
        let attachment_id: u64 = self.next_attachment_id;
        self.next_attachment_id = attachment_id + 1;
        let attached = AttachedSession {
            session_id: session_id.to_owned(),
            instance: self.sessions[at].instance,
            client_id: client.id.clone(),
            capabilities: copy_capabilities(capabilities),
            attachment_id,
        };
        let newcomer = ClientAttachment {
            info: client,
            capabilities: copy_capabilities(capabilities),
            attachment_id,
        };
        let mut changed = self.sessions.remove(at);
        let replaced = match present {
            Some(place) => {
                let earlier: u64 = changed.clients[place].attachment_id;
                proof {
                    lemma_update(changed.clients@, client_key(), place as int, newcomer);
                    lemma_lookup(
                        changed.clients@.update(place as int, newcomer),
                        client_key(),
                        place as int,
                    );
                }
                changed.clients.set(place, newcomer);
                Some(earlier)
            },
            None => {
                proof {
                    lemma_push(changed.clients@, client_key(), newcomer);
                    lemma_lookup(
                        changed.clients@.push(newcomer),
                        client_key(),
                        changed.clients@.len() as int,
                    );
                }
                changed.clients.push(newcomer);
                None
            },
        };
        changed.last_detached_ns = None;
        changed.persistence_deferral_started_ns = None;
        let approve_once: usize = count_holders(&changed.clients, ClientCapability::ApproveOnce);
        let approve_always: usize = count_holders(
            &changed.clients,
            ClientCapability::ApproveAlways,
        );
        let ghost now = changed;
        self.sessions.insert(at, changed);
        proof {
            assert(self.sessions@ =~= old(self).sessions@.update(at as int, now));
            lemma_update(old(self).sessions@, entry_key::<C>(), at as int, now);
            lemma_lookup(self.sessions@, entry_key::<C>(), at as int);
        }
        Ok(Attachment { attached, replaced, approve_once, approve_always })
    }

    /// Attaches a client that is not attached yet.
    pub fn attach(
        &mut self,
        session_id: &str,
        client: ClientInfo,
        capabilities: &Vec<ClientCapability>,
    ) -> (result: Result<Attachment, SessionDaemonError>)
        requires
            old(self).well_formed(),
            old(self).next_attachment_id < u64::MAX,
        ensures
            final(self).well_formed(),
            result is Ok <==> old(self).attach_admitted(session_id@, client.id@, false),
            match result {
                Err(error) => *final(self) == *old(self) && old(self).attach_refused(
                    session_id@,
                    client.id,
                    false,
                    error,
                ),
                Ok(attachment) => old(self).attached_as(
                    *final(self),
                    session_id@,
                    client,
                    capabilities@,
                    attachment,
                ),
            },
    {
        self.attach_internal(session_id, client, capabilities, false)
    }

    /// Whether a client's hold is still the one that counts.
    pub open spec fn holds(self, attached: AttachedSession) -> bool {
        let id = attached.session_id@;
        &&& self.by_id().contains_key(id)
        &&& self.by_id()[id].instance == attached.instance
        &&& self.by_id()[id].clients_by_id().contains_key(attached.client_id@)
        &&& self.by_id()[id].clients_by_id()[attached.client_id@].attachment_id
            == attached.attachment_id
    }

    /// Lets a client go and says how many clients can still answer approvals.
    /// A hold that was replaced lets go of nothing. With the last client the
    /// time of its leaving is noted.
    pub fn detach(&mut self, attached: &AttachedSession, now_ns: u64) -> (left: Option<
        (usize, usize),
    >)
        requires
            old(self).well_formed(),
        ensures
            final(self).well_formed(),
            match left {
                None => !old(self).holds(*attached) && *final(self) == *old(self),
                Some((approve_once, approve_always)) => {
                    let id = attached.session_id@;
                    let entry = old(self).by_id()[id];
                    let now = final(self).by_id()[id];
                    &&& old(self).holds(*attached)
                    &&& *final(self) == (SessionDaemon {
                        sessions: final(self).sessions,
                        ..*old(self)
                    })
                    &&& old(self).entry_changed(*final(self), id)
                    &&& now.clients_by_id() == entry.clients_by_id().remove(attached.client_id@)
                    &&& now.clients@.len() == entry.clients@.len() - 1
                    &&& approve_once == holders(now.clients@, ClientCapability::ApproveOnce)
                    &&& approve_always == holders(now.clients@, ClientCapability::ApproveAlways)
                    &&& now.last_detached_ns == if now.clients@.len() == 0 {
                        Some(now_ns)
                    } else {
                        entry.last_detached_ns
                    }
                    &&& now.persistence_deferral_started_ns
                        == entry.persistence_deferral_started_ns
                },
            },
    {
        let at = match self.find(attached.session_id.as_str()) {
            None => return None,
            Some(at) => at,
        };
        assert(self.sessions@[at as int].well_formed());
        if self.sessions[at].instance != attached.instance {
            return None;
        }
        let place = match self.sessions[at].find_client(attached.client_id.as_str()) {
            None => return None,
            Some(place) => place,
        };
        if self.sessions[at].clients[place].attachment_id != attached.attachment_id {
            return None;
        }
        let mut changed = self.sessions.remove(at);
        let ghost before = changed.clients@;
        proof {
            lemma_remove(changed.clients@, client_key(), place as int);
        }
        let _ = changed.clients.remove(place);
        proof {
            assert forall|k: int| 0 <= k < changed.clients@.len() implies (
            #[trigger] changed.clients@[k]).attachment_id < old(self).next_attachment_id by {
                let was = if k < place {
                    k
                } else {
                    k + 1
                };
                assert(changed.clients@[k] == before[was]);
                assert(old(self).sessions@[at as int].clients@[was] == before[was]);
            }
        }
        let approve_once: usize = count_holders(&changed.clients, ClientCapability::ApproveOnce);
        let approve_always: usize = count_holders(
            &changed.clients,
            ClientCapability::ApproveAlways,
        );
        if changed.clients.len() == 0 {
            changed.last_detached_ns = Some(now_ns);
        }
        let ghost now = changed;
        self.sessions.insert(at, changed);
        proof {
            assert(self.sessions@ =~= old(self).sessions@.update(at as int, now));
            lemma_update(old(self).sessions@, entry_key::<C>(), at as int, now);
            lemma_lookup(self.sessions@, entry_key::<C>(), at as int);
        }
        Some((approve_once, approve_always))
    }
}

/// A client that comes back takes its place over, and the end of its earlier
/// connection takes nothing from it: the earlier hold no longer counts.
pub proof fn law_replaced_attachment_stays<C>(
    before: SessionDaemon<C>,
    after: SessionDaemon<C>,
    session_id: Seq<char>,
    client: ClientInfo,
    capabilities: Seq<ClientCapability>,
    attachment: Attachment,
    earlier: AttachedSession,
)
    requires
        before.well_formed(),
        before.next_attachment_id < u64::MAX,
        before.attach_admitted(session_id, client.id@, true),
        before.attached_as(after, session_id, client, capabilities, attachment),
        before.holds(earlier),
        earlier.session_id@ == session_id,
        earlier.client_id@ == client.id@,
    ensures
        !after.holds(earlier),
        after.holds(attachment.attached),
{
    lemma_attachment_numbered(before, session_id, client.id@);
}

proof fn lemma_attachment_numbered<C>(
    daemon: SessionDaemon<C>,
    session_id: Seq<char>,
    client_id: Seq<char>,
)
    requires
        daemon.well_formed(),
        daemon.by_id().contains_key(session_id),
        daemon.by_id()[session_id].clients_by_id().contains_key(client_id),
    ensures
        daemon.by_id()[session_id].clients_by_id()[client_id].attachment_id
            < daemon.next_attachment_id,
{
    let i = choose|i: int|
        0 <= i < daemon.sessions@.len() && entry_key::<C>()(#[trigger] daemon.sessions@[i])
            == session_id;
    lemma_lookup(daemon.sessions@, entry_key::<C>(), i);
    let entry = daemon.sessions@[i];
    assert(entry.well_formed());
    let k = choose|k: int|
        0 <= k < entry.clients@.len() && client_key()(#[trigger] entry.clients@[k]) == client_id;
    lemma_lookup(entry.clients@, client_key(), k);
    assert(daemon.sessions@[i].clients@[k].attachment_id < daemon.next_attachment_id);
}

/// Letting a client go frees its place: where the session was full, one more
/// client can attach.
pub proof fn law_detach_releases_capacity<C>(
    before: SessionDaemon<C>,
    after: SessionDaemon<C>,
    attached: AttachedSession,
    newcomer: Seq<char>,
)
    requires
        before.well_formed(),
        after.well_formed(),
        before.holds(attached),
        before.entry_changed(after, attached.session_id@),
        !before.by_id()[attached.session_id@].stopped,
        after.by_id()[attached.session_id@].clients@.len()
            == before.by_id()[attached.session_id@].clients@.len() - 1,
        !after.by_id()[attached.session_id@].clients_by_id().contains_key(newcomer),
    ensures
        after.attach_admitted(attached.session_id@, newcomer, false),
{
    let id = attached.session_id@;
    let i = choose|i: int|
        0 <= i < before.sessions@.len() && entry_key::<C>()(#[trigger] before.sessions@[i]) == id;
    lemma_lookup(before.sessions@, entry_key::<C>(), i);
    assert(before.sessions@[i].well_formed());
}

} // verus!
