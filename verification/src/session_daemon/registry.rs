//! The daemon's registry: which sessions are live, who is attached to them,
//! and which of them may be opened, replaced or dropped.
//!
//! `C` is what the daemon holds of a running session. Times are nanoseconds of
//! one monotonic clock.
use vstd::prelude::*;
use vstd::string::*;
use crate::keyed::{as_map, has_key, lemma_lookup, unique_keys};
use crate::session_daemon::paging::ListingSnapshotRegistry;
use crate::session_protocol::{has_capability, ClientCapability, ClientInfo, SessionWorkspace};
use crate::text::str_eq;

verus! {

broadcast use vstd::string::group_string_axioms;

/// One client of a session.
#[derive(Debug, PartialEq, Eq)]
pub struct ClientAttachment {
    pub info: ClientInfo,
    pub capabilities: Vec<ClientCapability>,
    pub attachment_id: u64,
}

/// A live session. `instance` tells apart sessions that had the same id at
/// different times.
#[derive(Debug, PartialEq, Eq)]
pub struct SessionEntry<C> {
    pub session_id: String,
    pub instance: u64,
    pub core: C,
    pub clients: Vec<ClientAttachment>,
    pub max_clients: usize,
    pub stopped: bool,
    pub last_detached_ns: Option<u64>,
    pub active_prompt_tasks: usize,
    pub persistence_deferral_started_ns: Option<u64>,
}

/// Saves of a session that outlived their time limit and still run.
#[derive(Debug, PartialEq, Eq)]
pub struct LateSaves {
    pub session_id: String,
    pub count: usize,
}

/// How a daemon is set up.
#[derive(Debug, PartialEq, Eq)]
pub struct DaemonSettings {
    pub max_sessions: usize,
    pub max_clients_per_session: usize,
    pub event_queue_capacity: usize,
    pub max_snapshot_entries: usize,
    pub idle_retention_ns: Option<u64>,
    pub persistence_eviction_extension_ns: Option<u64>,
    pub persistence_final_save_timeout_ns: Option<u64>,
    pub session_list_page_size: usize,
    pub session_list_preview_bytes: usize,
    pub session_list_snapshot_entries: usize,
    pub session_list_snapshot_ttl_ns: u64,
    pub session_list_query_timeout_ns: u64,
    pub session_list_fallback_entries: usize,
    pub session_list_query_concurrency: usize,
    pub workspace_identity: Option<SessionWorkspace>,
    pub has_factory: bool,
    pub shutdown_grace_ns: u64,
}

/// How the session catalog is kept in step. Times are milliseconds.
#[derive(Debug, PartialEq, Eq)]
pub struct CatalogDiscovery {
    pub workspace_id: String,
    pub reconcile_entries: usize,
    pub reconcile_owner: String,
    pub reconcile_interval_ms: u64,
    pub full_rescan_interval_ms: u64,
    pub last_full_rescan_unix_ms: u64,
    pub tombstone_retention_ms: u64,
}

#[derive(Debug, PartialEq, Eq)]
pub struct SessionDaemon<C> {
    pub settings: DaemonSettings,
    pub sessions: Vec<SessionEntry<C>>,
    pub late_persistence_saves: Vec<LateSaves>,
    pub creating_sessions: Vec<String>,
    pub listings: ListingSnapshotRegistry,
    pub catalog_discovery: Option<CatalogDiscovery>,
    pub shutting_down: bool,
    pub next_attachment_id: u64,
    pub next_instance: u64,
}

/// A client's hold on a session.
#[derive(Debug, PartialEq, Eq)]
pub struct AttachedSession {
    pub session_id: String,
    pub instance: u64,
    pub client_id: String,
    pub capabilities: Vec<ClientCapability>,
    pub attachment_id: u64,
}

/// What attaching brings with it: the hold, the attachment that it took the
/// place of, and how many clients can now answer approvals.
#[derive(Debug, PartialEq, Eq)]
pub struct Attachment {
    pub attached: AttachedSession,
    pub replaced: Option<u64>,
    pub approve_once: usize,
    pub approve_always: usize,
}

impl AttachedSession {
    pub fn has_capability(&self, capability: ClientCapability) -> (held: bool)
        ensures
            held == self.capabilities@.contains(capability),
    {
        has_capability(self.capabilities.as_slice(), capability)
    }

    pub fn client_id(&self) -> (id: &str)
        ensures
            id@ == self.client_id@,
    {
        self.client_id.as_str()
    }

    pub fn capabilities(&self) -> (capabilities: &Vec<ClientCapability>)
        ensures
            *capabilities == self.capabilities,
    {
        &self.capabilities
    }
}

pub open spec fn client_key() -> spec_fn(ClientAttachment) -> Seq<char> {
    |client: ClientAttachment| client.info.id@
}

pub open spec fn entry_key<C>() -> spec_fn(SessionEntry<C>) -> Seq<char> {
    |entry: SessionEntry<C>| entry.session_id@
}

pub open spec fn late_key() -> spec_fn(LateSaves) -> Seq<char> {
    |late: LateSaves| late.session_id@
}

pub open spec fn name_key() -> spec_fn(String) -> Seq<char> {
    |name: String| name@
}

/// How many clients hold a capability.
pub open spec fn holders(clients: Seq<ClientAttachment>, capability: ClientCapability) -> nat
    decreases clients.len(),
{
    if clients.len() == 0 {
        0
    } else {
        holders(clients.drop_last(), capability)
            + if clients.last().capabilities@.contains(capability) {
            1nat
        } else {
            0
        }
    }
}

pub fn count_holders(clients: &Vec<ClientAttachment>, capability: ClientCapability) -> (count:
    usize)
    ensures
        count == holders(clients@, capability),
{
    let mut count: usize = 0;
    let mut i: usize = 0;
    while i < clients.len()
        invariant
            i <= clients@.len(),
            count <= i,
            count == holders(clients@.take(i as int), capability),
        decreases clients@.len() - i,
    {
        assert(clients@.take(i + 1).drop_last() =~= clients@.take(i as int));
        if has_capability(clients[i].capabilities.as_slice(), capability) {
            count = count + 1;
        }
        i = i + 1;
    }
    assert(clients@.take(i as int) =~= clients@);
    count
}

pub fn copy_capabilities(capabilities: &Vec<ClientCapability>) -> (copy: Vec<ClientCapability>)
    ensures
        copy@ == capabilities@,
{
    let mut copy: Vec<ClientCapability> = Vec::new();
    let mut i: usize = 0;
    while i < capabilities.len()
        invariant
            i <= capabilities@.len(),
            copy@ =~= capabilities@.take(i as int),
        decreases capabilities@.len() - i,
    {
        copy.push(capabilities[i]);
        i = i + 1;
    }
    assert(capabilities@.take(i as int) =~= capabilities@);
    copy
}

impl<C> SessionEntry<C> {
    pub open spec fn clients_by_id(self) -> Map<Seq<char>, ClientAttachment> {
        as_map(self.clients@, client_key())
    }

    pub open spec fn well_formed(self) -> bool {
        &&& unique_keys(self.clients@, client_key())
        &&& self.clients@.len() <= self.max_clients
    }

    pub fn find_client(&self, client_id: &str) -> (at: Option<usize>)
        requires
            self.well_formed(),
        ensures
            match at {
                Some(at) => at < self.clients@.len() && self.clients@[at as int].info.id@
                    == client_id@ && self.clients_by_id().contains_key(client_id@)
                    && self.clients_by_id()[client_id@] == self.clients@[at as int],
                None => !has_key(self.clients@, client_key(), client_id@)
                    && !self.clients_by_id().contains_key(client_id@),
            },
    {
        let mut i: usize = 0;
        while i < self.clients.len()
            invariant
                self.well_formed(),
                i <= self.clients@.len(),
                forall|k: int| 0 <= k < i ==> (#[trigger] self.clients@[k]).info.id@ != client_id@,
            decreases self.clients@.len() - i,
        {
            if str_eq(self.clients[i].info.id.as_str(), client_id) {
                proof {
                    lemma_lookup(self.clients@, client_key(), i as int);
                }
                return Some(i);
            }
            i = i + 1;
        }
        None
    }

    /// Whether nothing holds the session: no client, no prompt and no turn,
    /// for the time that idle sessions are kept.
    pub open spec fn idle_at(self, now_ns: u64, retention_ns: u64, turn_active: bool) -> bool {
        &&& self.clients@.len() == 0
        &&& detached_long(self.last_detached_ns, now_ns, retention_ns)
        &&& self.active_prompt_tasks == 0
        &&& !turn_active
    }

    pub fn is_idle(&self, now_ns: u64, retention_ns: u64, turn_active: bool) -> (idle: bool)
        ensures
            idle == self.idle_at(now_ns, retention_ns, turn_active),
    {
        self.clients.len() == 0 && is_detached_long(self.last_detached_ns, now_ns, retention_ns)
            && self.active_prompt_tasks == 0 && !turn_active
    }
}

pub open spec fn since(then_ns: u64, now_ns: u64) -> int {
    if now_ns > then_ns {
        now_ns - then_ns
    } else {
        0
    }
}

pub open spec fn detached_long(last_detached_ns: Option<u64>, now_ns: u64, retention_ns: u64) -> bool {
    last_detached_ns matches Some(detached) && since(detached, now_ns) >= retention_ns
}

fn elapsed(then_ns: u64, now_ns: u64) -> (nanos: u64)
    ensures
        nanos == since(then_ns, now_ns),
{
    if now_ns > then_ns {
        now_ns - then_ns
    } else {
        0
    }
}

fn is_detached_long(last_detached_ns: Option<u64>, now_ns: u64, retention_ns: u64) -> (long: bool)
    ensures
        long == detached_long(last_detached_ns, now_ns, retention_ns),
{
    match last_detached_ns {
        Some(detached) => elapsed(detached, now_ns) >= retention_ns,
        None => false,
    }
}

impl<C> SessionDaemon<C> {
    /// The live sessions.
    pub open spec fn by_id(self) -> Map<Seq<char>, SessionEntry<C>> {
        as_map(self.sessions@, entry_key())
    }

    /// How many late saves run for each session.
    pub open spec fn late_by_id(self) -> Map<Seq<char>, LateSaves> {
        as_map(self.late_persistence_saves@, late_key())
    }

    pub open spec fn is_creating(self, id: Seq<char>) -> bool {
        has_key(self.creating_sessions@, name_key(), id)
    }

    /// What every operation keeps: no id twice, no bound passed, and
    /// attachments and instances numbered below what comes next.
    pub open spec fn well_formed(self) -> bool {
        &&& unique_keys(self.sessions@, entry_key())
        &&& self.sessions@.len() <= self.settings.max_sessions
        &&& forall|i: int|
            0 <= i < self.sessions@.len() ==> (#[trigger] self.sessions@[i]).well_formed()
                && self.sessions@[i].instance < self.next_instance
        &&& forall|i: int, k: int|
            #![trigger self.sessions@[i].clients@[k]]
            0 <= i < self.sessions@.len() && 0 <= k < self.sessions@[i].clients@.len()
                ==> self.sessions@[i].clients@[k].attachment_id < self.next_attachment_id
        &&& unique_keys(self.late_persistence_saves@, late_key())
        &&& forall|i: int|
            0 <= i < self.late_persistence_saves@.len() ==> (
            #[trigger] self.late_persistence_saves@[i]).count > 0
        &&& unique_keys(self.creating_sessions@, name_key())
        &&& self.listings.well_formed()
    }

    pub fn find(&self, session_id: &str) -> (at: Option<usize>)
        requires
            self.well_formed(),
        ensures
            match at {
                Some(at) => at < self.sessions@.len() && self.sessions@[at as int].session_id@
                    == session_id@ && self.by_id().contains_key(session_id@)
                    && self.by_id()[session_id@] == self.sessions@[at as int],
                None => !has_key(self.sessions@, entry_key(), session_id@)
                    && !self.by_id().contains_key(session_id@),
            },
    {
        let mut i: usize = 0;
        while i < self.sessions.len()
            invariant
                self.well_formed(),
                i <= self.sessions@.len(),
                forall|k: int|
                    0 <= k < i ==> (#[trigger] self.sessions@[k]).session_id@ != session_id@,
            decreases self.sessions@.len() - i,
        {
            if str_eq(self.sessions[i].session_id.as_str(), session_id) {
                proof {
                    lemma_lookup(self.sessions@, entry_key(), i as int);
                }
                return Some(i);
            }
            i = i + 1;
        }
        None
    }

    /// What the daemon holds of a live session.
    pub fn session(&self, session_id: &str) -> (core: Option<&C>)
        requires
            self.well_formed(),
        ensures
            match core {
                Some(core) => self.by_id().contains_key(session_id@) && *core
                    == self.by_id()[session_id@].core,
                None => !self.by_id().contains_key(session_id@),
            },
    {
        match self.find(session_id) {
            Some(at) => Some(&self.sessions[at].core),
            None => None,
        }
    }

    pub fn attached_client_count(&self, session_id: &str) -> (count: Option<usize>)
        requires
            self.well_formed(),
        ensures
            match count {
                Some(count) => self.by_id().contains_key(session_id@) && count
                    == self.by_id()[session_id@].clients@.len(),
                None => !self.by_id().contains_key(session_id@),
            },
    {
        match self.find(session_id) {
            Some(at) => Some(self.sessions[at].clients.len()),
            None => None,
        }
    }

    pub fn session_count(&self) -> (count: usize)
        ensures
            count == self.sessions@.len(),
    {
        self.sessions.len()
    }

    pub fn has_late_persistence_save(&self, session_id: &str) -> (pending: bool)
        requires
            self.well_formed(),
        ensures
            pending == self.late_by_id().contains_key(session_id@),
    {
        self.find_late(session_id).is_some()
    }

    pub fn find_late(&self, session_id: &str) -> (at: Option<usize>)
        requires
            self.well_formed(),
        ensures
            match at {
                Some(at) => at < self.late_persistence_saves@.len()
                    && self.late_persistence_saves@[at as int].session_id@ == session_id@
                    && self.late_by_id().contains_key(session_id@)
                    && self.late_by_id()[session_id@] == self.late_persistence_saves@[at as int],
                None => !has_key(self.late_persistence_saves@, late_key(), session_id@)
                    && !self.late_by_id().contains_key(session_id@),
            },
    {
        let mut i: usize = 0;
        while i < self.late_persistence_saves.len()
            invariant
                self.well_formed(),
                i <= self.late_persistence_saves@.len(),
                forall|k: int|
                    0 <= k < i ==> (#[trigger] self.late_persistence_saves@[k]).session_id@
                        != session_id@,
            decreases self.late_persistence_saves@.len() - i,
        {
            if str_eq(self.late_persistence_saves[i].session_id.as_str(), session_id) {
                proof {
                    lemma_lookup(self.late_persistence_saves@, late_key(), i as int);
                }
                return Some(i);
            }
            i = i + 1;
        }
        None
    }

    pub fn find_creating(&self, session_id: &str) -> (at: Option<usize>)
        ensures
            match at {
                Some(at) => at < self.creating_sessions@.len() && self.creating_sessions@[at as int]@
                    == session_id@ && self.is_creating(session_id@),
                None => !self.is_creating(session_id@),
            },
    {
        let mut i: usize = 0;
        while i < self.creating_sessions.len()
            invariant
                i <= self.creating_sessions@.len(),
                forall|k: int| 0 <= k < i ==> (#[trigger] self.creating_sessions@[k])@ != session_id@,
            decreases self.creating_sessions@.len() - i,
        {
            if str_eq(self.creating_sessions[i].as_str(), session_id) {
                assert(name_key()(self.creating_sessions@[i as int]) == session_id@);
                return Some(i);
            }
            i = i + 1;
        }
        None
    }
}

} // verus!
