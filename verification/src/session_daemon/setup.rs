//! Setting a daemon up.
use vstd::prelude::*;
use crate::foreign::{fresh_uuid, uuid_text};
use crate::session_daemon::paging::{ListingSettings, ListingSnapshotRegistry};
use crate::session_daemon::registry::{CatalogDiscovery, DaemonSettings, SessionDaemon};
use crate::session_protocol::SessionWorkspace;

verus! {

/// A count that is at least one.
pub open spec fn at_least_one(n: usize) -> usize {
    if n == 0 {
        1
    } else {
        n
    }
}

fn one_or_more(n: usize) -> (count: usize)
    ensures
        count == at_least_one(n),
{
    if n == 0 {
        1
    } else {
        n
    }
}

pub const DEFAULT_PREVIEW_BYTES: usize = 256;

pub const DEFAULT_SNAPSHOT_ENTRIES: usize = 1_000;

pub const DEFAULT_FALLBACK_ENTRIES: usize = 256;

pub const DEFAULT_SNAPSHOT_TTL_NS: u64 = 60_000_000_000;

pub const DEFAULT_QUERY_TIMEOUT_NS: u64 = 6_000_000_000;

pub const DEFAULT_SHUTDOWN_GRACE_NS: u64 = 5_000_000_000;

impl<C> SessionDaemon<C> {
    /// Whether a daemon holds nothing yet.
    pub open spec fn is_empty(self) -> bool {
        &&& self.sessions@.len() == 0
        &&& self.late_persistence_saves@.len() == 0
        &&& self.creating_sessions@.len() == 0
        &&& self.listings.local@.len() == 0
        &&& self.listings.remote@.len() == 0
        &&& self.catalog_discovery is None
        &&& !self.shutting_down
        &&& self.next_attachment_id == 1
        &&& self.next_instance == 0
    }

    fn with_settings(settings: DaemonSettings) -> (daemon: Self)
        ensures
            daemon.well_formed(),
            daemon.is_empty(),
            daemon.settings == settings,
            daemon.listings.capacity == at_least_one(settings.max_sessions),
    {
        let capacity: usize = settings.max_sessions;
        SessionDaemon {
            settings,
            sessions: Vec::new(),
            late_persistence_saves: Vec::new(),
            creating_sessions: Vec::new(),
            listings: ListingSnapshotRegistry::new(capacity),
            catalog_discovery: None,
            shutting_down: false,
            next_attachment_id: 1,
            next_instance: 0,
        }
    }

    /// A daemon that opens no sessions by itself.
    pub fn new(
        max_sessions: usize,
        max_clients_per_session: usize,
        event_queue_capacity: usize,
        max_snapshot_entries: usize,
    ) -> (daemon: Self)
        ensures
            daemon.well_formed(),
            daemon.is_empty(),
            daemon.listings.capacity == at_least_one(max_sessions),
            daemon.settings == (DaemonSettings {
                max_sessions,
                max_clients_per_session,
                event_queue_capacity: at_least_one(event_queue_capacity),
                max_snapshot_entries: at_least_one(max_snapshot_entries),
                idle_retention_ns: None,
                persistence_eviction_extension_ns: None,
                persistence_final_save_timeout_ns: None,
                session_list_page_size: at_least_one(max_sessions),
                session_list_preview_bytes: DEFAULT_PREVIEW_BYTES,
                session_list_snapshot_entries: at_least_one(max_sessions),
                session_list_snapshot_ttl_ns: DEFAULT_SNAPSHOT_TTL_NS,
                session_list_query_timeout_ns: DEFAULT_QUERY_TIMEOUT_NS,
                session_list_fallback_entries: at_least_one(max_sessions),
                session_list_query_concurrency: 1,
                workspace_identity: None,
                has_factory: false,
                shutdown_grace_ns: DEFAULT_SHUTDOWN_GRACE_NS,
            }),
    {
        SessionDaemon::with_settings(
            DaemonSettings {
                max_sessions,
                max_clients_per_session,
                event_queue_capacity: one_or_more(event_queue_capacity),
                max_snapshot_entries: one_or_more(max_snapshot_entries),
                idle_retention_ns: None,
                persistence_eviction_extension_ns: None,
                persistence_final_save_timeout_ns: None,
                session_list_page_size: one_or_more(max_sessions),
                session_list_preview_bytes: DEFAULT_PREVIEW_BYTES,
                session_list_snapshot_entries: one_or_more(max_sessions),
                session_list_snapshot_ttl_ns: DEFAULT_SNAPSHOT_TTL_NS,
                session_list_query_timeout_ns: DEFAULT_QUERY_TIMEOUT_NS,
                session_list_fallback_entries: one_or_more(max_sessions),
                session_list_query_concurrency: 1,
                workspace_identity: None,
                has_factory: false,
                shutdown_grace_ns: DEFAULT_SHUTDOWN_GRACE_NS,
            },
        )
    }

    /// A daemon that opens sessions through a factory for one workspace.
    pub fn with_factory(
        max_sessions: usize,
        max_clients_per_session: usize,
        event_queue_capacity: usize,
        max_snapshot_entries: usize,
        idle_retention_ns: Option<u64>,
        session_list_page_size: usize,
        shutdown_grace_ns: u64,
        workspace_identity: Option<SessionWorkspace>,
    ) -> (daemon: Self)
        ensures
            daemon.well_formed(),
            daemon.is_empty(),
            daemon.listings.capacity == at_least_one(max_sessions),
            daemon.settings == (DaemonSettings {
                max_sessions,
                max_clients_per_session,
                event_queue_capacity: at_least_one(event_queue_capacity),
                max_snapshot_entries: at_least_one(max_snapshot_entries),
                idle_retention_ns,
                persistence_eviction_extension_ns: None,
                persistence_final_save_timeout_ns: None,
                session_list_page_size: at_least_one(session_list_page_size),
                session_list_preview_bytes: DEFAULT_PREVIEW_BYTES,
                session_list_snapshot_entries: DEFAULT_SNAPSHOT_ENTRIES,
                session_list_snapshot_ttl_ns: DEFAULT_SNAPSHOT_TTL_NS,
                session_list_query_timeout_ns: DEFAULT_QUERY_TIMEOUT_NS,
                session_list_fallback_entries: DEFAULT_FALLBACK_ENTRIES,
                session_list_query_concurrency: 2,
                workspace_identity,
                has_factory: true,
                shutdown_grace_ns,
            }),
    {
        SessionDaemon::with_settings(
            DaemonSettings {
                max_sessions,
                max_clients_per_session,
                event_queue_capacity: one_or_more(event_queue_capacity),
                max_snapshot_entries: one_or_more(max_snapshot_entries),
                idle_retention_ns,
                persistence_eviction_extension_ns: None,
                persistence_final_save_timeout_ns: None,
                session_list_page_size: one_or_more(session_list_page_size),
                session_list_preview_bytes: DEFAULT_PREVIEW_BYTES,
                session_list_snapshot_entries: DEFAULT_SNAPSHOT_ENTRIES,
                session_list_snapshot_ttl_ns: DEFAULT_SNAPSHOT_TTL_NS,
                session_list_query_timeout_ns: DEFAULT_QUERY_TIMEOUT_NS,
                session_list_fallback_entries: DEFAULT_FALLBACK_ENTRIES,
                session_list_query_concurrency: 2,
                workspace_identity,
                has_factory: true,
                shutdown_grace_ns,
            },
        )
    }

    pub fn with_listing_limits(
        self,
        preview_bytes: usize,
        snapshot_entries: usize,
        snapshot_ttl_ns: u64,
    ) -> (daemon: Self)
        ensures
            daemon == (SessionDaemon {
                settings: DaemonSettings {
                    session_list_preview_bytes: at_least_one(preview_bytes),
                    session_list_snapshot_entries: at_least_one(
                        if snapshot_entries < self.settings.session_list_page_size {
                            self.settings.session_list_page_size
                        } else {
                            snapshot_entries
                        },
                    ),
                    session_list_snapshot_ttl_ns: snapshot_ttl_ns,
                    ..self.settings
                },
                ..self
            }),
    {
        let mut daemon = self;
        daemon.settings.session_list_preview_bytes = one_or_more(preview_bytes);
        let entries: usize = if snapshot_entries < daemon.settings.session_list_page_size {
            daemon.settings.session_list_page_size
        } else {
            snapshot_entries
        };
        daemon.settings.session_list_snapshot_entries = one_or_more(entries);
        daemon.settings.session_list_snapshot_ttl_ns = snapshot_ttl_ns;
        daemon
    }

    pub fn with_persistence_lifecycle(
        self,
        eviction_extension_ns: u64,
        final_save_timeout_ns: u64,
    ) -> (daemon: Self)
        ensures
            daemon == (SessionDaemon {
                settings: DaemonSettings {
                    persistence_eviction_extension_ns: Some(eviction_extension_ns),
                    persistence_final_save_timeout_ns: Some(final_save_timeout_ns),
                    ..self.settings
                },
                ..self
            }),
    {
        let mut daemon = self;
        daemon.settings.persistence_eviction_extension_ns = Some(eviction_extension_ns);
        daemon.settings.persistence_final_save_timeout_ns = Some(final_save_timeout_ns);
        daemon
    }

    pub fn with_discovery_fallback_limits(
        self,
        query_timeout_ns: u64,
        fallback_entries: usize,
        query_concurrency: usize,
    ) -> (daemon: Self)
        ensures
            daemon == (SessionDaemon {
                settings: DaemonSettings {
                    session_list_query_timeout_ns: query_timeout_ns,
                    session_list_fallback_entries: at_least_one(fallback_entries),
                    session_list_query_concurrency: at_least_one(query_concurrency),
                    ..self.settings
                },
                ..self
            }),
    {
        let mut daemon = self;
        daemon.settings.session_list_query_timeout_ns = query_timeout_ns;
        daemon.settings.session_list_fallback_entries = one_or_more(fallback_entries);
        daemon.settings.session_list_query_concurrency = one_or_more(query_concurrency);
        daemon
    }

    pub fn with_global_listing_snapshot_capacity(self, capacity: usize) -> (daemon: Self)
        ensures
            daemon == (SessionDaemon {
                listings: ListingSnapshotRegistry {
                    capacity: at_least_one(capacity),
                    ..self.listings
                },
                ..self
            }),
            self.well_formed() ==> daemon.well_formed(),
    {
        let mut daemon = self;
        daemon.listings.capacity = one_or_more(capacity);
        daemon
    }

    /// Adds the session catalog of a workspace, under a random name for the
    /// owner of its reconciliation lease. A full pass counts as just made.
    pub fn with_catalog_discovery(
        self,
        workspace_id: String,
        reconcile_entries: usize,
        reconcile_interval_ms: u64,
        full_rescan_interval_ms: u64,
        tombstone_retention_ms: u64,
        now_unix_ms: u64,
    ) -> (daemon: Self)
        ensures
            daemon == (SessionDaemon { catalog_discovery: daemon.catalog_discovery, ..self }),
            daemon.catalog_discovery matches Some(discovery) && uuid_text(
                discovery.reconcile_owner@,
            ) && discovery == (CatalogDiscovery {
                workspace_id,
                reconcile_entries: at_least_one(reconcile_entries),
                reconcile_owner: discovery.reconcile_owner,
                reconcile_interval_ms,
                full_rescan_interval_ms,
                last_full_rescan_unix_ms: now_unix_ms,
                tombstone_retention_ms,
            }),
    {
        let mut daemon = self;
        daemon.catalog_discovery = Some(
            CatalogDiscovery {
                workspace_id,
                reconcile_entries: one_or_more(reconcile_entries),
                reconcile_owner: fresh_uuid(),
                reconcile_interval_ms,
                full_rescan_interval_ms,
                last_full_rescan_unix_ms: now_unix_ms,
                tombstone_retention_ms,
            },
        );
        daemon
    }

    /// How listings are handed out.
    pub fn listing_settings(&self) -> (settings: ListingSettings)
        ensures
            settings == (ListingSettings {
                page_size: self.settings.session_list_page_size,
                snapshot_ttl_ns: self.settings.session_list_snapshot_ttl_ns,
                workspace: self.settings.workspace_identity,
            }),
    {
        ListingSettings {
            page_size: self.settings.session_list_page_size,
            snapshot_ttl_ns: self.settings.session_list_snapshot_ttl_ns,
            workspace: match &self.settings.workspace_identity {
                Some(workspace) => Some(workspace.clone()),
                None => None,
            },
        }
    }

    /// How many local connections are served at a time.
    pub fn connection_limit(&self) -> (limit: usize)
        ensures
            limit == {
                let product = self.settings.max_sessions * self.settings.max_clients_per_session;
                if product > usize::MAX {
                    usize::MAX as int
                } else if product == 0 {
                    1
                } else {
                    product
                }
            },
    {
        match self.settings.max_sessions.checked_mul(self.settings.max_clients_per_session) {
            None => usize::MAX,
            Some(limit) => one_or_more(limit),
        }
    }

    /// How many event handlers a session has at most: one for each client and
    /// one for the snapshot.
    pub fn handler_limit(&self) -> (limit: usize)
        ensures
            limit == if self.settings.max_clients_per_session == usize::MAX {
                usize::MAX as int
            } else {
                self.settings.max_clients_per_session + 1
            },
    {
        if self.settings.max_clients_per_session == usize::MAX {
            usize::MAX
        } else {
            self.settings.max_clients_per_session + 1
        }
    }
}

/// A count of which one is needed is kept where it is one or more, and is one
/// where it is none.
pub proof fn law_counts_are_at_least_one(n: usize)
    ensures
        at_least_one(n) >= 1,
        n >= 1 ==> at_least_one(n) == n,
        n == 0 ==> at_least_one(n) == 1,
{
}

/// A new daemon has no session, opens and saves none, hands out no listing, and
/// takes sessions in.
pub proof fn law_new_daemon_is_empty<C>(daemon: SessionDaemon<C>, id: Seq<char>, token: u64)
    requires
        daemon.is_empty(),
    ensures
        !daemon.by_id().contains_key(id),
        !daemon.late_by_id().contains_key(id),
        !daemon.is_creating(id),
        !daemon.listings.holds(token),
        daemon.catalog_discovery is None,
        !daemon.shutting_down,
{
}

} // verus!
