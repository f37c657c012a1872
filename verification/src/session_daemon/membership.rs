//! Which sessions are live, who is attached to them, and who may join.
use vstd::prelude::*;

use crate::keyed::{has_key, lemma_lookup};
use crate::session_daemon::admission::OpenStep;
use crate::session_daemon::registry::{
    client_key, entry_key, holders, late_key, name_key, AttachedSession, Attachment,
    ClientAttachment, SessionDaemon, SessionEntry,
};
use crate::session_daemon::{SessionDaemonError, SessionOpenMode};
use crate::session_protocol::{ClientCapability, ClientInfo};

verus! {

broadcast use vstd::string::group_string_axioms;

/// Whether a session is live under an id.
pub open spec fn is_live<C>(daemon: SessionDaemon<C>, id: Seq<char>) -> bool {
    exists|i: int| 0 <= i < daemon.sessions@.len() && (#[trigger] daemon.sessions@[i]).session_id@
        == id
}

/// Whether a client is attached to a session.
pub open spec fn is_attached<C>(entry: SessionEntry<C>, client_id: Seq<char>) -> bool {
    exists|k: int| 0 <= k < entry.clients@.len() && (#[trigger] entry.clients@[k]).info.id@
        == client_id
}

/// Whether a save of a session runs late.
pub open spec fn saves_late<C>(daemon: SessionDaemon<C>, id: Seq<char>) -> bool {
    exists|i: int|
        0 <= i < daemon.late_persistence_saves@.len() && (
        #[trigger] daemon.late_persistence_saves@[i]).session_id@ == id
}

/// Whether a session is being made or loaded.
pub open spec fn is_opening<C>(daemon: SessionDaemon<C>, id: Seq<char>) -> bool {
    exists|i: int|
        0 <= i < daemon.creating_sessions@.len() && (#[trigger] daemon.creating_sessions@[i])@ == id
}

/// A session is found under its own id, and under no other. The same holds of
/// its clients, of late saves and of sessions that are being opened.
pub proof fn law_sessions_are_found_by_their_ids<C>(daemon: SessionDaemon<C>, id: Seq<char>)
    requires
        daemon.well_formed(),
    ensures
        daemon.by_id().contains_key(id) <==> is_live(daemon, id),
        forall|i: int|
            0 <= i < daemon.sessions@.len() && (#[trigger] daemon.sessions@[i]).session_id@ == id
                ==> daemon.by_id()[id] == daemon.sessions@[i],
        daemon.late_by_id().contains_key(id) <==> saves_late(daemon, id),
        forall|i: int|
            0 <= i < daemon.late_persistence_saves@.len() && (
            #[trigger] daemon.late_persistence_saves@[i]).session_id@ == id ==> daemon.late_count(
                id,
            ) == daemon.late_persistence_saves@[i].count,
        !saves_late(daemon, id) ==> daemon.late_count(id) == 0,
        daemon.is_creating(id) <==> is_opening(daemon, id),
{
    assert(has_key(daemon.sessions@, entry_key(), id) <==> is_live(daemon, id)) by {
        if is_live(daemon, id) {
            let i = choose|i: int|
                0 <= i < daemon.sessions@.len() && (#[trigger] daemon.sessions@[i]).session_id@
                    == id;
            assert(entry_key::<C>()(daemon.sessions@[i]) == id);
        }
    }
    assert(has_key(daemon.late_persistence_saves@, late_key(), id) <==> saves_late(daemon, id)) by {
        if saves_late(daemon, id) {
            let i = choose|i: int|
                0 <= i < daemon.late_persistence_saves@.len() && (
                #[trigger] daemon.late_persistence_saves@[i]).session_id@ == id;
            assert(late_key()(daemon.late_persistence_saves@[i]) == id);
        }
    }
    assert(daemon.is_creating(id) <==> is_opening(daemon, id)) by {
        if is_opening(daemon, id) {
            let i = choose|i: int|
                0 <= i < daemon.creating_sessions@.len() && (
                #[trigger] daemon.creating_sessions@[i])@ == id;
            assert(name_key()(daemon.creating_sessions@[i]) == id);
        }
    }
    assert forall|i: int|
        0 <= i < daemon.sessions@.len() && (#[trigger] daemon.sessions@[i]).session_id@
            == id implies daemon.by_id()[id] == daemon.sessions@[i] by {
        lemma_lookup(daemon.sessions@, entry_key(), i);
    }
    assert forall|i: int|
        0 <= i < daemon.late_persistence_saves@.len() && (
        #[trigger] daemon.late_persistence_saves@[i]).session_id@ == id implies daemon.late_count(
        id,
    ) == daemon.late_persistence_saves@[i].count by {
        lemma_lookup(daemon.late_persistence_saves@, late_key(), i);
    }
}

/// A client is found under its own id, and under no other.
pub proof fn law_clients_are_found_by_their_ids<C>(entry: SessionEntry<C>, client_id: Seq<char>)
    requires
        entry.well_formed(),
    ensures
        entry.clients_by_id().contains_key(client_id) <==> is_attached(entry, client_id),
        forall|k: int|
            0 <= k < entry.clients@.len() && (#[trigger] entry.clients@[k]).info.id@ == client_id
                ==> entry.clients_by_id()[client_id] == entry.clients@[k],
{
    assert(has_key(entry.clients@, client_key(), client_id) <==> is_attached(entry, client_id)) by {
        if is_attached(entry, client_id) {
            let k = choose|k: int|
                0 <= k < entry.clients@.len() && (#[trigger] entry.clients@[k]).info.id@
                    == client_id;
            assert(client_key()(entry.clients@[k]) == client_id);
        }
    }
    assert forall|k: int|
        0 <= k < entry.clients@.len() && (#[trigger] entry.clients@[k]).info.id@
            == client_id implies entry.clients_by_id()[client_id] == entry.clients@[k] by {
        lemma_lookup(entry.clients@, client_key(), k);
    }
}

/// Who can answer an approval is counted client by client: one more for each
/// that holds the capability, none for one that does not.
pub proof fn law_holders_are_counted(
    clients: Seq<ClientAttachment>,
    next: ClientAttachment,
    capability: ClientCapability,
)
    ensures
        holders(Seq::empty(), capability) == 0,
        next.capabilities@.contains(capability) ==> holders(clients.push(next), capability)
            == holders(clients, capability) + 1,
        !next.capabilities@.contains(capability) ==> holders(clients.push(next), capability)
            == holders(clients, capability),
{
    assert(clients.push(next).drop_last() =~= clients);
}

/// A live session takes a client in that is not attached where there is room,
/// and one that is attached only where it may take its own place. One that has
/// stopped takes none. Whoever is refused is told why.
pub proof fn law_who_may_attach<C>(
    daemon: SessionDaemon<C>,
    session_id: Seq<char>,
    client_id: String,
    replace_existing: bool,
    error: SessionDaemonError,
    i: int,
)
    requires
        daemon.well_formed(),
    ensures
        !is_live(daemon, session_id) ==> !daemon.attach_admitted(
            session_id,
            client_id@,
            replace_existing,
        ) && (daemon.attach_refused(session_id, client_id, replace_existing, error) ==> (
        error matches SessionDaemonError::SessionNotFound(id) && id@ == session_id)),
        0 <= i < daemon.sessions@.len() && daemon.sessions@[i].session_id@ == session_id ==> {
            let entry = daemon.sessions@[i];
            let admitted = daemon.attach_admitted(session_id, client_id@, replace_existing);
            let refused = daemon.attach_refused(session_id, client_id, replace_existing, error);
            &&& entry.stopped ==> !admitted && (refused ==> (
            error matches SessionDaemonError::SessionStopped(id) && id@ == session_id))
            &&& !entry.stopped && is_attached(entry, client_id@) ==> {
                &&& admitted <==> replace_existing
                &&& !replace_existing && refused ==> error == SessionDaemonError::DuplicateClient(
                    client_id,
                )
            }
            &&& !entry.stopped && !is_attached(entry, client_id@) ==> {
                &&& admitted <==> entry.clients@.len() < entry.max_clients
                &&& refused ==> error == (SessionDaemonError::ClientLimitReached {
                    max: entry.max_clients,
                })
            }
        },
{
    law_sessions_are_found_by_their_ids(daemon, session_id);
    if 0 <= i < daemon.sessions@.len() && daemon.sessions@[i].session_id@ == session_id {
        assert(is_live(daemon, session_id));
        law_clients_are_found_by_their_ids(daemon.sessions@[i], client_id@);
    }
}

/// An attached client is in its session, as who it said it is and with what it
/// was granted, under a number that no client had before. The session keeps its
/// other clients, the daemon its other sessions. A session with a client is not
/// idle. The client gets a hold on the session that is good.
pub proof fn law_attached_client_is_in<C>(
    before: SessionDaemon<C>,
    after: SessionDaemon<C>,
    session_id: Seq<char>,
    client: ClientInfo,
    capabilities: Seq<ClientCapability>,
    attachment: Attachment,
    other_session: Seq<char>,
    other_client: Seq<char>,
    now_ns: u64,
    retention_ns: u64,
    turn_active: bool,
)
    requires
        before.well_formed(),
        before.by_id().contains_key(session_id),
        after.well_formed(),
        before.attached_as(after, session_id, client, capabilities, attachment),
    ensures
        after.by_id().contains_key(session_id),
        ({
            let was = before.by_id()[session_id];
            let now = after.by_id()[session_id];
            let joined = now.clients_by_id()[client.id@];
            &&& now.clients_by_id().contains_key(client.id@)
            &&& joined.info == client
            &&& joined.capabilities@ == capabilities
            &&& joined.attachment_id >= before.next_attachment_id
            &&& joined.attachment_id < after.next_attachment_id
            &&& other_client != client.id@ ==> {
                &&& now.clients_by_id().contains_key(other_client)
                    <==> was.clients_by_id().contains_key(other_client)
                &&& was.clients_by_id().contains_key(other_client)
                    ==> now.clients_by_id()[other_client] == was.clients_by_id()[other_client]
            }
            &&& now.session_id == was.session_id
            &&& now.instance == was.instance
            &&& now.core == was.core
            &&& now.max_clients == was.max_clients
            &&& now.stopped == was.stopped
            &&& now.active_prompt_tasks == was.active_prompt_tasks
            &&& now.last_detached_ns is None
            &&& now.persistence_deferral_started_ns is None
            &&& !now.idle_at(now_ns, retention_ns, turn_active)
            &&& attachment.attached.session_id@ == session_id
            &&& attachment.attached.client_id == client.id
            &&& attachment.attached.instance == now.instance
            &&& attachment.attached.attachment_id == joined.attachment_id
            &&& attachment.attached.capabilities@ == capabilities
            &&& match attachment.replaced {
                Some(earlier) => was.clients_by_id().contains_key(client.id@) && earlier
                    == was.clients_by_id()[client.id@].attachment_id,
                None => !was.clients_by_id().contains_key(client.id@),
            }
            &&& attachment.approve_once == holders(now.clients@, ClientCapability::ApproveOnce)
            &&& attachment.approve_always == holders(now.clients@, ClientCapability::ApproveAlways)
        }),
        other_session != session_id ==> {
            &&& after.by_id().contains_key(other_session) <==> before.by_id().contains_key(
                other_session,
            )
            &&& before.by_id().contains_key(other_session) ==> after.by_id()[other_session]
                == before.by_id()[other_session]
        },
        after.sessions@.len() == before.sessions@.len(),
        after.settings == before.settings,
        after.late_persistence_saves == before.late_persistence_saves,
        after.creating_sessions == before.creating_sessions,
        after.shutting_down == before.shutting_down,
        after.next_instance == before.next_instance,
        is_good(after, attachment.attached),
{
    assert(after.by_id().contains_key(session_id));
    let now = after.by_id()[session_id];
    let i = choose|i: int|
        0 <= i < after.sessions@.len() && entry_key::<C>()(#[trigger] after.sessions@[i])
            == session_id;
    assert(has_key(after.sessions@, entry_key::<C>(), session_id));
    lemma_lookup(after.sessions@, entry_key::<C>(), i);
    let k = choose|k: int|
        0 <= k < now.clients@.len() && client_key()(#[trigger] now.clients@[k]) == client.id@;
    assert(has_key(now.clients@, client_key(), client.id@));
    assert(after.sessions@[i].well_formed());
    lemma_lookup(now.clients@, client_key(), k);
    assert(is_the_hold(after.sessions@[i], now.clients@[k], attachment.attached));
}

/// Whether a hold is one client's of one session.
pub open spec fn is_the_hold<C>(
    entry: SessionEntry<C>,
    client: ClientAttachment,
    attached: AttachedSession,
) -> bool {
    &&& entry.session_id@ == attached.session_id@
    &&& entry.instance == attached.instance
    &&& client.info.id@ == attached.client_id@
    &&& client.attachment_id == attached.attachment_id
}

/// Whether a client of a live session has a hold.
pub open spec fn is_good<C>(daemon: SessionDaemon<C>, attached: AttachedSession) -> bool {
    exists|i: int, k: int|
        0 <= i < daemon.sessions@.len() && 0 <= k < daemon.sessions@[i].clients@.len()
            && #[trigger] is_the_hold(
            daemon.sessions@[i],
            daemon.sessions@[i].clients@[k],
            attached,
        )
}

/// A hold is good exactly where a client of the very session that it was given
/// for has it.
pub proof fn law_holds_are_the_clients_own<C>(daemon: SessionDaemon<C>, attached: AttachedSession)
    requires
        daemon.well_formed(),
    ensures
        daemon.holds(attached) <==> is_good(daemon, attached),
{
    let id = attached.session_id@;
    law_sessions_are_found_by_their_ids(daemon, id);
    if is_live(daemon, id) {
        let i = choose|i: int|
            0 <= i < daemon.sessions@.len() && (#[trigger] daemon.sessions@[i]).session_id@ == id;
        let entry = daemon.sessions@[i];
        assert(entry.well_formed());
        law_clients_are_found_by_their_ids(entry, attached.client_id@);
        if daemon.holds(attached) {
            let k = choose|k: int|
                0 <= k < entry.clients@.len() && (#[trigger] entry.clients@[k]).info.id@
                    == attached.client_id@;
            assert(is_the_hold(daemon.sessions@[i], daemon.sessions@[i].clients@[k], attached));
        }
    }
    if is_good(daemon, attached) {
        let (i, k) = choose|i: int, k: int|
            0 <= i < daemon.sessions@.len() && 0 <= k < daemon.sessions@[i].clients@.len()
                && #[trigger] is_the_hold(
                daemon.sessions@[i],
                daemon.sessions@[i].clients@[k],
                attached,
            );
        assert(daemon.sessions@[i].session_id@ == id);
        assert(daemon.sessions@[i].well_formed());
        law_clients_are_found_by_their_ids(daemon.sessions@[i], attached.client_id@);
        assert(daemon.sessions@[i].clients@[k].info.id@ == attached.client_id@);
    }
}

/// An open comes to the live session of that id, or starts one for which there
/// is a factory and room, and which nobody is saving or opening. A session that
/// was asked for by name is loaded, another is made under its new id.
pub proof fn law_opens_are_answered<C>(
    daemon: SessionDaemon<C>,
    requested: Option<String>,
    fresh: String,
    result: Result<OpenStep, SessionDaemonError>,
)
    requires
        daemon.well_formed(),
        daemon.open_answer(requested, fresh, result),
    ensures
        ({
            let id = match requested {
                Some(id) => id,
                None => fresh,
            };
            let live = is_live(daemon, id@);
            let full = daemon.sessions@.len() + daemon.creating_sessions@.len()
                >= daemon.settings.max_sessions;
            &&& daemon.shutting_down ==> result == Err::<OpenStep, _>(
                SessionDaemonError::ShuttingDown,
            )
            &&& !daemon.shutting_down && live && requested is Some ==> result == Ok::<
                _,
                SessionDaemonError,
            >(OpenStep::Existing(id))
            &&& match result {
                Ok(OpenStep::Existing(found)) => found == id && live && !daemon.shutting_down,
                Ok(OpenStep::Open { session_id, mode, generated }) => {
                    &&& session_id == id
                    &&& requested is Some ==> mode == SessionOpenMode::Load && !generated
                    &&& requested is None ==> mode == SessionOpenMode::Create && generated
                    &&& !daemon.shutting_down && daemon.settings.has_factory
                    &&& !live && !saves_late(daemon, id@) && !full && !is_opening(daemon, id@)
                },
                Err(SessionDaemonError::ShuttingDown) => daemon.shutting_down,
                Err(SessionDaemonError::FactoryUnavailable) => !daemon.settings.has_factory,
                Err(SessionDaemonError::SessionStopped(which)) => which == id && saves_late(
                    daemon,
                    id@,
                ) && !live && daemon.settings.has_factory,
                Err(SessionDaemonError::SessionLimitReached { max }) => max
                    == daemon.settings.max_sessions && full && !saves_late(daemon, id@) && !live,
                Err(SessionDaemonError::DuplicateSession(which)) => which == id && is_opening(
                    daemon,
                    id@,
                ) && !full && !live,
                Err(_) => false,
            }
        }),
{
    let id = match requested {
        Some(id) => id,
        None => fresh,
    };
    law_sessions_are_found_by_their_ids(daemon, id@);
}

/// A session is entered unless one is saving late or live under its id, or the
/// daemon is full.
pub proof fn law_sessions_are_entered_where_there_is_room<C>(
    daemon: SessionDaemon<C>,
    session_id: String,
)
    requires
        daemon.well_formed(),
    ensures
        match daemon.entry_refusal(session_id) {
            None => !saves_late(daemon, session_id@) && !is_live(daemon, session_id@)
                && daemon.sessions@.len() < daemon.settings.max_sessions,
            Some(SessionDaemonError::SessionStopped(id)) => id == session_id && saves_late(
                daemon,
                session_id@,
            ),
            Some(SessionDaemonError::DuplicateSession(id)) => id == session_id && is_live(
                daemon,
                session_id@,
            ) && !saves_late(daemon, session_id@),
            Some(SessionDaemonError::SessionLimitReached { max }) => max
                == daemon.settings.max_sessions && daemon.sessions@.len() >= max && !is_live(
                daemon,
                session_id@,
            ),
            Some(_) => false,
        },
{
    law_sessions_are_found_by_their_ids(daemon, session_id@);
}

/// A session that was entered is live with what was made for it. It has no
/// clients and runs no prompt, and is none that was there before. The other
/// sessions stay.
pub proof fn law_entered_session_is_new<C>(
    before: SessionDaemon<C>,
    after: SessionDaemon<C>,
    session_id: String,
    core: C,
    other: Seq<char>,
    i: int,
)
    requires
        before.well_formed(),
        before.next_instance < u64::MAX,
        before.entered(after, session_id, core),
    ensures
        after.by_id().contains_key(session_id@),
        ({
            let entry = after.by_id()[session_id@];
            &&& entry.session_id == session_id
            &&& entry.core == core
            &&& entry.clients@.len() == 0
            &&& entry.max_clients == before.settings.max_clients_per_session
            &&& !entry.stopped
            &&& entry.last_detached_ns is None
            &&& entry.active_prompt_tasks == 0
            &&& entry.persistence_deferral_started_ns is None
            &&& 0 <= i < before.sessions@.len() ==> before.sessions@[i].instance < entry.instance
            &&& entry.instance < after.next_instance
        }),
        other != session_id@ ==> {
            &&& after.by_id().contains_key(other) <==> before.by_id().contains_key(other)
            &&& before.by_id().contains_key(other) ==> after.by_id()[other] == before.by_id()[other]
        },
        after.sessions@.len() == before.sessions@.len() + 1,
        after.settings == before.settings,
        after.late_persistence_saves == before.late_persistence_saves,
        after.creating_sessions == before.creating_sessions,
        after.listings == before.listings,
        after.shutting_down == before.shutting_down,
        after.next_attachment_id == before.next_attachment_id,
{
}

/// An open that is over no longer holds its id; the other opens go on.
pub proof fn law_finished_open_frees_its_id<C>(
    before: SessionDaemon<C>,
    left: Seq<String>,
    session_id: Seq<char>,
    name: String,
)
    requires
        before.well_formed(),
        before.hold_dropped(left, session_id),
    ensures
        left.contains(name) <==> before.creating_sessions@.contains(name) && name@ != session_id,
{
    let names = before.creating_sessions@;
    if before.is_creating(session_id) {
        let at = choose|at: int|
            0 <= at < names.len() && names[at]@ == session_id && left == #[trigger] names.remove(
                at,
            );
        if left.contains(name) {
            let k = choose|k: int| 0 <= k < left.len() && left[k] == name;
            let was = if k < at {
                k
            } else {
                k + 1
            };
            assert(names[was] == name);
            assert(name_key()(names[was]) != name_key()(names[at]));
        }
        if names.contains(name) && name@ != session_id {
            let k = choose|k: int| 0 <= k < names.len() && names[k] == name;
            let now = if k < at {
                k
            } else {
                k - 1
            };
            assert(left[now] == name);
        }
    } else if names.contains(name) {
        let k = choose|k: int| 0 <= k < names.len() && names[k] == name;
        assert(name_key()(names[k]) == name@);
    }
}

} // verus!
