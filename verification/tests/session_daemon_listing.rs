use daimonos_session::providers::Message;
use daimonos_session::session_daemon::capability::ConnectionTrust;
use daimonos_session::session_daemon::catalog::{
    catalog_entries, ghost_mutations, ghosts_settled, listing_source, observed_mutations,
    scan_entries, scan_settled, ListingSource, ReconcileCursor,
};
use daimonos_session::session_daemon::listing::{
    active_list_entry, catalog_row_to_list_entry, listing_rows, render_listing_rows,
    snapshot_preview, summary_to_list_entry, ActiveSession, CatalogRow, SessionListPageError,
};
use daimonos_session::session_daemon::paging::{
    list_sessions_for_connection, ConnectionListingSnapshot, ListStart, ListingSettings,
    ListingSnapshotRegistry,
};
use daimonos_session::session_protocol::{
    ServerMessage, SessionListEntry, SessionWorkspace, TranscriptEntry, TranscriptRole, TurnStatus,
};
use daimonos_session::session_store::{first_user_preview, SessionSummary, SessionSummaryScan};

fn settings(ttl_ns: u64) -> ListingSettings {
    ListingSettings {
        page_size: 1,
        snapshot_ttl_ns: ttl_ns,
        workspace: Some(SessionWorkspace {
            id: "ws_private".to_string(),
            label: "secret-workspace".to_string(),
        }),
    }
}

fn live(id: &str, activity: u64) -> SessionListEntry {
    active_list_entry(ActiveSession {
        session_id: id.to_string(),
        attached_clients: 0,
        model: "model".to_string(),
        last_activity_unix_ms: activity,
        turn_status: TurnStatus::Idle,
        history: Some((1, Some("hello".to_string()))),
        snapshot_preview: None,
    })
}

fn two_rows() -> Vec<SessionListEntry> {
    listing_rows(Vec::new(), vec![live("session-b", 100), live("session-a", 200)], 10).unwrap()
}

struct Client {
    snapshot: Option<ConnectionListingSnapshot>,
    trust: ConnectionTrust,
}

impl Client {
    fn new(trust: ConnectionTrust) -> Self {
        Client { snapshot: None, trust }
    }

    fn list(
        &mut self,
        registry: &mut ListingSnapshotRegistry,
        settings: &ListingSettings,
        request_id: &str,
        start: ListStart,
        now_ns: u64,
    ) -> Result<ServerMessage, SessionListPageError> {
        list_sessions_for_connection(
            settings,
            registry,
            &mut self.snapshot,
            request_id.to_string(),
            start,
            self.trust,
            now_ns,
            4_096,
            |_| Ok(100),
        )
    }
}

fn page(message: ServerMessage) -> (Vec<SessionListEntry>, Option<String>, bool) {
    let ServerMessage::SessionList { sessions, next_cursor, incomplete, .. } = message else {
        panic!("session-list page");
    };
    (sessions, next_cursor, incomplete)
}

#[test]
fn session_listing_is_bounded_and_snapshot_paginated() {
    let settings = settings(1_000);
    let mut registry = ListingSnapshotRegistry::new(3);
    let mut client = Client::new(ConnectionTrust::LocalOwner);
    let first = client
        .list(&mut registry, &settings, "list-1", ListStart::Fresh(Ok((two_rows(), false))), 0)
        .unwrap();
    let (sessions, cursor, _) = page(first);
    let cursor = cursor.expect("first session-list page");
    assert!(cursor.starts_with("v1_"));
    assert_eq!(cursor.len(), 39);
    assert_eq!(sessions.len(), 1);
    assert_eq!(sessions[0].session_id, "session-a");

    let second = client
        .list(&mut registry, &settings, "list-2", ListStart::Continue(cursor.clone()), 1)
        .unwrap();
    let (sessions, next_cursor, _) = page(second);
    assert_eq!(sessions.len(), 1);
    assert_eq!(sessions[0].session_id, "session-b");
    assert!(next_cursor.is_none());
    assert_eq!(
        client.list(&mut registry, &settings, "list-3", ListStart::Continue(cursor), 2),
        Err(SessionListPageError::InvalidCursor)
    );
}

#[test]
fn incomplete_fallback_marker_survives_every_snapshot_page() {
    let settings = settings(1_000);
    let mut registry = ListingSnapshotRegistry::new(3);
    let mut client = Client::new(ConnectionTrust::LocalOwner);
    let (rows, incomplete) = scan_entries(SessionSummaryScan {
        summaries: vec![summary("session-a"), summary("session-b")],
        next_cursor: None,
        complete: false,
    });
    assert!(incomplete);
    let rows = listing_rows(rows, Vec::new(), 10).unwrap();
    let (_, cursor, marked) = page(
        client
            .list(&mut registry, &settings, "1", ListStart::Fresh(Ok((rows, incomplete))), 0)
            .unwrap(),
    );
    assert!(marked);
    let (_, _, marked) = page(
        client
            .list(&mut registry, &settings, "2", ListStart::Continue(cursor.unwrap()), 0)
            .unwrap(),
    );
    assert!(marked);
}

#[test]
fn remote_session_listing_strips_rich_metadata_and_workspace() {
    let mut settings = settings(1_000);
    settings.page_size = 10;
    let mut registry = ListingSnapshotRegistry::new(3);
    let rows = vec![live("session-a", 5)];

    let mut local = Client::new(ConnectionTrust::LocalOwner);
    let answer = local
        .list(&mut registry, &settings, "local", ListStart::Fresh(Ok((rows.clone(), false))), 0)
        .unwrap();
    let ServerMessage::SessionList { workspace: Some(workspace), sessions: local_rows, .. } = answer
    else {
        panic!("local session list");
    };
    assert_eq!(workspace.id, "ws_private");
    assert!(local_rows[0].model.is_some());
    assert!(local_rows[0].updated_at_unix_ms.is_some());
    assert!(local_rows[0].message_count.is_some());
    assert!(local_rows[0].turn_status.is_some());

    let mut remote = Client::new(ConnectionTrust::RemotePaired);
    let answer = remote
        .list(&mut registry, &settings, "remote", ListStart::Fresh(Ok((rows, false))), 0)
        .unwrap();
    let ServerMessage::SessionList { workspace, sessions: remote_rows, .. } = answer else {
        panic!("remote session list");
    };
    assert!(workspace.is_none());
    assert_eq!(remote_rows[0].session_id, "session-a");
    assert!(remote_rows[0].model.is_none());
    assert!(remote_rows[0].updated_at_unix_ms.is_none());
    assert!(remote_rows[0].preview.is_none());
    assert!(remote_rows[0].message_count.is_none());
    assert!(remote_rows[0].turn_status.is_none());
}

#[test]
fn active_listing_uses_provider_history_and_canonical_activity() {
    let history = vec![Message::user("  hello   world\nignored")];
    let row = active_list_entry(ActiveSession {
        session_id: "session-a".to_string(),
        attached_clients: 0,
        model: "model".to_string(),
        last_activity_unix_ms: 7,
        turn_status: TurnStatus::Idle,
        history: Some((history.len(), first_user_preview(&history, 256))),
        snapshot_preview: None,
    });
    let rows = listing_rows(Vec::new(), vec![row], 1).unwrap();
    assert_eq!(rows.len(), 1);
    assert_eq!(rows[0].message_count, Some(1));
    assert_eq!(rows[0].preview.as_deref(), Some("hello world"));
    assert_eq!(rows[0].turn_status, Some(TurnStatus::Idle));
    assert_eq!(rows[0].updated_at_unix_ms, Some(7));
}

#[test]
fn busy_active_listing_marks_count_unknown_and_uses_snapshot_preview() {
    let transcript = vec![
        TranscriptEntry {
            id: 1,
            role: TranscriptRole::Assistant,
            text: "before".to_string(),
            outcome: None,
        },
        TranscriptEntry {
            id: 2,
            role: TranscriptRole::User,
            text: "  live   prompt\nignored".to_string(),
            outcome: None,
        },
    ];
    let row = active_list_entry(ActiveSession {
        session_id: "session-a".to_string(),
        attached_clients: 0,
        model: "model".to_string(),
        last_activity_unix_ms: 7,
        turn_status: TurnStatus::Running,
        history: None,
        snapshot_preview: snapshot_preview(&transcript, 256),
    });
    assert_eq!(row.message_count, None);
    assert_eq!(row.preview.as_deref(), Some("live prompt"));
}

#[test]
fn listing_cursor_is_connection_bound_and_expires() {
    let settings = settings(1_000_000);
    let mut registry = ListingSnapshotRegistry::new(3);
    let mut first = Client::new(ConnectionTrust::LocalOwner);
    let (_, cursor, _) = page(
        first
            .list(&mut registry, &settings, "first", ListStart::Fresh(Ok((two_rows(), false))), 0)
            .unwrap(),
    );
    let cursor = cursor.expect("first page cursor");
    let mut other = Client::new(ConnectionTrust::RemotePaired);
    assert_eq!(
        other.list(&mut registry, &settings, "other", ListStart::Continue(cursor.clone()), 0),
        Err(SessionListPageError::InvalidCursor)
    );
    assert_eq!(
        first.list(&mut registry, &settings, "expired", ListStart::Continue(cursor), 2_000_000),
        Err(SessionListPageError::InvalidCursor)
    );
    assert!(first.snapshot.is_none());
}

#[test]
fn global_listing_snapshot_capacity_evicts_oldest_cursor() {
    let settings = settings(1_000_000);
    let mut registry = ListingSnapshotRegistry::new(1);
    let mut oldest = Client::new(ConnectionTrust::LocalOwner);
    let (_, cursor, _) = page(
        oldest
            .list(&mut registry, &settings, "first", ListStart::Fresh(Ok((two_rows(), false))), 0)
            .unwrap(),
    );
    let mut newer = Client::new(ConnectionTrust::LocalOwner);
    newer
        .list(&mut registry, &settings, "newer", ListStart::Fresh(Ok((two_rows(), false))), 0)
        .unwrap();
    assert_eq!(
        oldest.list(&mut registry, &settings, "evicted", ListStart::Continue(cursor.unwrap()), 0),
        Err(SessionListPageError::InvalidCursor)
    );
}

#[test]
fn local_snapshot_churn_cannot_evict_remote_cursor() {
    let settings = settings(1_000_000);
    let mut registry = ListingSnapshotRegistry::new(1);
    let mut remote = Client::new(ConnectionTrust::RemotePaired);
    let (_, cursor, _) = page(
        remote
            .list(
                &mut registry,
                &settings,
                "remote-first",
                ListStart::Fresh(Ok((two_rows(), false))),
                0,
            )
            .unwrap(),
    );
    let mut local = Client::new(ConnectionTrust::LocalOwner);
    local
        .list(&mut registry, &settings, "local", ListStart::Fresh(Ok((two_rows(), false))), 0)
        .unwrap();
    assert!(remote
        .list(&mut registry, &settings, "remote-second", ListStart::Continue(cursor.unwrap()), 0)
        .is_ok());
}

#[test]
fn listing_snapshot_capacity_fails_instead_of_hiding_rows() {
    let settings = settings(1_000_000);
    let mut registry = ListingSnapshotRegistry::new(1);
    let mut client = Client::new(ConnectionTrust::LocalOwner);
    let listed = listing_rows(Vec::new(), vec![live("session-a", 1), live("session-b", 2)], 1)
        .map(|rows| (rows, false));
    assert_eq!(listed, Err(SessionListPageError::CapacityExceeded));
    assert_eq!(
        client.list(&mut registry, &settings, "list", ListStart::Fresh(listed), 0),
        Err(SessionListPageError::CapacityExceeded)
    );
}

fn summary(id: &str) -> SessionSummary {
    SessionSummary {
        id: id.to_string(),
        model: "model".to_string(),
        message_count: 1,
        cwd: None,
        updated_at: Some(3_999_999),
        first_user_line: Some(id.to_string()),
    }
}

#[test]
fn live_rows_take_the_place_of_stored_ones() {
    let stored = summary_to_list_entry(summary("session-a"));
    assert_eq!(stored.updated_at_unix_ms, Some(3));
    assert!(!stored.active);
    let rows = listing_rows(
        vec![stored, summary_to_list_entry(summary("session-c"))],
        vec![live("session-a", 1)],
        10,
    )
    .unwrap();
    assert_eq!(rows.len(), 2);
    assert_eq!(rows[0].session_id, "session-c");
    assert!(rows[1].active);
    let shown = render_listing_rows(&rows, 1, 2, ConnectionTrust::RemotePaired);
    assert_eq!(shown.len(), 1);
    assert_eq!(shown[0].model, None);
}

#[test]
fn complete_catalog_serves_without_payload_scan() {
    let mut last = 1_000;
    assert_eq!(
        listing_source(true, Some(true), 2_000, 60_000, &mut last),
        ListingSource::Catalog
    );
    let rows = catalog_entries(vec![CatalogRow {
        session_id: "catalog-session".to_string(),
        model: Some("catalog-model".to_string()),
        updated_at_unix_ns: 42_000_000,
        preview: Some("catalog preview".to_string()),
        message_count: Some(2),
    }]);
    let rows = listing_rows(rows, Vec::new(), 10).unwrap();
    assert_eq!(rows[0].session_id, "catalog-session");
    assert_eq!(rows[0].model.as_deref(), Some("catalog-model"));
    assert_eq!(rows[0].updated_at_unix_ms, Some(42));
    assert_eq!(last, 1_000);
    assert_eq!(
        listing_source(true, Some(true), 70_000, 60_000, &mut last),
        ListingSource::RescanThenStore
    );
    assert_eq!(last, 70_000);
    assert_eq!(
        listing_source(true, Some(false), 70_000, 60_000, &mut last),
        ListingSource::ReconcileThenStore
    );
    assert_eq!(listing_source(false, None, 70_000, 60_000, &mut last), ListingSource::Store);
}

#[test]
fn reconciliation_progresses_directory_then_removes_catalog_ghosts() {
    let stored = ["a", "b"];
    let mut catalog: Vec<(String, bool)> = vec![("ghost".to_string(), false)];
    let mut state = (false, String::new());
    for pass in 0..8 {
        if state.0 {
            break;
        }
        match ReconcileCursor::parse(&state.1) {
            ReconcileCursor::Directory { after } => {
                let at = match after {
                    Some(after) => stored.iter().position(|id| *id == after).unwrap() + 1,
                    None => 0,
                };
                let batch = vec![summary(stored[at])];
                for mutation in observed_mutations(&batch, "workspace", pass) {
                    assert!(!mutation.deleted);
                    catalog.push((mutation.session_id, false));
                }
                let next = scan_settled(at + 1 == stored.len(), &Some(stored[at].to_string()));
                assert!(!next.complete);
                state = (false, next.cursor.unwrap());
            }
            ReconcileCursor::Ghosts { after } => {
                let mut ids: Vec<String> = catalog
                    .iter()
                    .filter(|(_, deleted)| !deleted)
                    .map(|(id, _)| id.clone())
                    .collect();
                ids.sort();
                ids.retain(|id| match &after {
                    Some(after) => id > after,
                    None => true,
                });
                ids.truncate(1);
                let missing: Vec<String> =
                    ids.iter().filter(|id| !stored.contains(&id.as_str())).cloned().collect();
                for mutation in ghost_mutations(&missing, "workspace", 5) {
                    assert!(mutation.deleted);
                    assert_eq!(mutation.updated_at_unix_ns, 5_000_000);
                    for row in catalog.iter_mut() {
                        if row.0 == mutation.session_id {
                            row.1 = true;
                        }
                    }
                }
                let next = ghosts_settled(&ids, 1, 100, 60).unwrap();
                if next.complete {
                    assert_eq!(next.purge_before_ms, Some(40));
                }
                state = (next.complete, next.cursor.unwrap_or_default());
            }
        }
    }
    assert!(state.0);
    assert_eq!(
        catalog,
        vec![
            ("ghost".to_string(), true),
            ("a".to_string(), false),
            ("b".to_string(), false)
        ]
    );
}

#[test]
fn reconcile_cursors_read_back() {
    assert_eq!(ReconcileCursor::parse(""), ReconcileCursor::Directory { after: None });
    assert_eq!(ReconcileCursor::parse("dir:"), ReconcileCursor::Directory { after: None });
    assert_eq!(
        ReconcileCursor::parse("dir:x"),
        ReconcileCursor::Directory { after: Some("x".to_string()) }
    );
    assert_eq!(ReconcileCursor::parse("ghost:"), ReconcileCursor::Ghosts { after: None });
    assert_eq!(
        ReconcileCursor::parse("ghost:y"),
        ReconcileCursor::Ghosts { after: Some("y".to_string()) }
    );
    let row = catalog_row_to_list_entry(CatalogRow {
        session_id: "s".to_string(),
        model: None,
        updated_at_unix_ns: 1_999_999,
        preview: None,
        message_count: None,
    });
    assert_eq!(row.updated_at_unix_ms, Some(1));
}

#[test]
fn released_listings_make_room() {
    let mut registry = ListingSnapshotRegistry::new(0);
    assert_eq!(registry.capacity, 1);
    let first = registry.register(ConnectionTrust::LocalOwner);
    assert!(registry.is_valid(first));
    let second = registry.register(ConnectionTrust::LocalOwner);
    assert!(!registry.is_valid(first));
    registry.release(second);
    assert!(!registry.is_valid(second));
}
