use daimonos_session::session_core::approval::ApprovalBroker;
use daimonos_session::session_core::event_router::SessionEventError;
use daimonos_session::session_core::persistence::PersistenceHealth;
use daimonos_session::session_daemon::admission::OpenStep;
use daimonos_session::session_daemon::lifecycle::{
    after_eviction_save, end_after_delete, end_after_save, end_after_wait, finish_removed_entry,
    AfterSave, EndStep, EvictionPlan, FinalSaveEvent, FinalSavePlan,
};
use daimonos_session::session_daemon::local_socket::{
    accept_error_is_recoverable, check_replaceable, check_socket_parent, instance_metadata_path,
    lock_held, may_remove, missing_parent, socket_lock_path, system_time_unix_ms, temporary_path,
    verify_peer_owner, AcceptErrorKind, FileIdentity, SocketErrorKind,
};
use daimonos_session::session_daemon::registry::SessionDaemon;
use daimonos_session::session_daemon::wire_errors::session_daemon_error_code;
use daimonos_session::session_daemon::{
    FinalSaveOutcome, SessionDaemonError, SessionOpenError, SessionOpenMode,
};
use daimonos_session::session_protocol::{
    ApprovalRequest, AttachDeniedCode, ClientCapability, ClientInfo, ClientKind, SessionEvent,
    SessionWorkspace,
};
use daimonos_session::session_store::SessionStore;

fn client(id: &str) -> ClientInfo {
    ClientInfo { id: id.to_string(), kind: ClientKind::Terminal, label: "terminal".to_string() }
}

fn observe() -> Vec<ClientCapability> {
    vec![ClientCapability::Observe]
}

fn daemon_with_session() -> SessionDaemon<u8> {
    let mut daemon = SessionDaemon::new(1, 1, 8, 32);
    daemon.create_session("session-1".to_string(), 7, Ok(())).expect("session");
    daemon
}

fn retaining(retention_ns: u64) -> SessionDaemon<u8> {
    let mut daemon =
        SessionDaemon::with_factory(1, 1, 8, 32, Some(retention_ns), 50, 1_000, None);
    daemon.create_session("session-1".to_string(), 7, Ok(())).unwrap();
    daemon
}

fn leave(daemon: &mut SessionDaemon<u8>, at_ns: u64) {
    let attachment = daemon.attach("session-1", client("terminal-1"), &observe()).unwrap();
    daemon.detach(&attachment.attached, at_ns);
}

#[test]
fn detaching_last_client_keeps_daemon_owned_session_alive() {
    let mut daemon = daemon_with_session();
    leave(&mut daemon, 5);
    assert_eq!(daemon.session("session-1"), Some(&7));
    assert_eq!(daemon.attached_client_count("session-1"), Some(0));
    assert_eq!(daemon.attached_client_count("other"), None);
}

#[test]
fn stopping_a_session_releases_its_bounded_registry_slot() {
    let mut daemon = daemon_with_session();
    assert!(matches!(
        daemon.create_session("session-2".to_string(), 8, Ok(())),
        Err((SessionDaemonError::SessionLimitReached { max: 1 }, 8))
    ));
    let instance = daemon.current_instance("session-1").unwrap();
    let entry = daemon.remove_session("session-1", instance).expect("the session is live");
    assert!(entry.stopped);
    let (core, event) = finish_removed_entry(entry, "stopped");
    assert_eq!(core, 7);
    assert_eq!(event, SessionEvent::SessionEnding { reason: "stopped".to_string() });
    assert!(daemon.remove_session("session-1", instance).is_none());
    daemon.create_session("session-2".to_string(), 8, Ok(())).expect("the slot is free");
    assert_eq!(daemon.session_count(), 1);
}

#[test]
fn failed_payload_delete_keeps_session_resident_and_retryable() {
    assert_eq!(end_after_wait(true, true), EndStep::Delete);
    assert_eq!(end_after_delete(false), EndStep::Keep);
    let daemon = daemon_with_session();
    assert!(daemon.session("session-1").is_some());
    assert_eq!(end_after_delete(true), EndStep::Remove { loss_risk: false });
}

#[test]
fn attached_clients_are_bounded_and_detach_releases_capacity() {
    let mut daemon = daemon_with_session();
    let first = daemon.attach("session-1", client("terminal-1"), &observe()).expect("first client");
    let second = ClientInfo {
        id: "terminal-2".to_string(),
        kind: ClientKind::Headless,
        label: "headless".to_string(),
    };
    assert_eq!(
        session_daemon_error_code(&SessionDaemonError::ClientLimitReached { max: 1 }),
        AttachDeniedCode::ClientLimitReached
    );
    assert!(matches!(
        daemon.attach("session-1", second.clone(), &observe()),
        Err(SessionDaemonError::ClientLimitReached { max: 1 })
    ));

    daemon.detach(&first.attached, 1);
    daemon
        .attach("session-1", second, &observe())
        .expect("detach releases client capacity");
}

#[test]
fn resume_replaces_same_client_without_old_drop_removing_new_attachment() {
    let mut daemon = daemon_with_session();
    let first = daemon.attach("session-1", client("terminal-1"), &observe()).unwrap();
    let replacement = daemon
        .attach_internal("session-1", client("terminal-1"), &observe(), true)
        .unwrap();

    assert_eq!(replacement.replaced, Some(first.attached.attachment_id));
    assert_eq!(daemon.detach(&first.attached, 1), None);
    assert_eq!(daemon.attached_client_count("session-1"), Some(1));
    assert!(daemon.detach(&replacement.attached, 2).is_some());
    assert_eq!(daemon.attached_client_count("session-1"), Some(0));
}

#[test]
fn detach_and_reattach_updates_approval_eligibility_without_denial() {
    let mut daemon = daemon_with_session();
    let mut approvals = ApprovalBroker::new(false);
    let registered = approvals
        .register(ApprovalRequest::unassigned("tool-1", "exec", "cargo test", false))
        .unwrap();
    let attachment = daemon
        .attach(
            "session-1",
            client("terminal-1"),
            &vec![ClientCapability::Observe, ClientCapability::ApproveOnce],
        )
        .unwrap();
    approvals.set_eligible_client_counts(attachment.approve_once, attachment.approve_always);
    assert!(approvals.has_eligible_client(&registered.id));

    let (once, always) = daemon.detach(&attachment.attached, 1).unwrap();
    approvals.set_eligible_client_counts(once, always);
    assert!(!approvals.has_eligible_client(&registered.id));
    assert_eq!(approvals.pending().len(), 1);

    let reattached = daemon
        .attach("session-1", client("terminal-2"), &vec![ClientCapability::ApproveOnce])
        .unwrap();
    approvals.set_eligible_client_counts(reattached.approve_once, reattached.approve_always);
    assert!(approvals.has_eligible_client(&registered.id));
    assert!(reattached.attached.has_capability(ClientCapability::ApproveOnce));
    assert_eq!(reattached.attached.client_id(), "terminal-2");
    assert_eq!(reattached.attached.capabilities().len(), 1);
}

#[test]
fn repeated_attach_detach_does_not_accumulate_clients() {
    let mut daemon = daemon_with_session();
    for index in 0..100 {
        let attachment = daemon
            .attach("session-1", client(&format!("terminal-{index}")), &observe())
            .unwrap();
        daemon.detach(&attachment.attached, index);
    }
    assert_eq!(daemon.attached_client_count("session-1"), Some(0));
}

#[test]
fn attaching_is_refused_for_a_reason() {
    let mut daemon = daemon_with_session();
    assert!(matches!(
        daemon.attach("missing", client("a"), &observe()),
        Err(SessionDaemonError::SessionNotFound(id)) if id == "missing"
    ));
    daemon.attach("session-1", client("a"), &observe()).unwrap();
    assert!(matches!(
        daemon.attach("session-1", client("a"), &observe()),
        Err(SessionDaemonError::DuplicateClient(id)) if id == "a"
    ));
    daemon.sessions[0].stopped = true;
    assert!(matches!(
        daemon.attach("session-1", client("b"), &observe()),
        Err(SessionDaemonError::SessionStopped(_))
    ));
}

#[test]
fn attach_without_session_id_creates_daemon_owned_session() {
    let mut daemon: SessionDaemon<u8> =
        SessionDaemon::with_factory(1, 1, 8, 32, None, 50, 1_000, None);
    let OpenStep::Open { session_id, mode, generated } = daemon.begin_open(None).unwrap() else {
        panic!("a session is made");
    };
    assert_eq!(mode, SessionOpenMode::Create);
    assert!(generated);
    assert_eq!(session_id.len(), 36);
    assert!(SessionStore::valid_id(&session_id));
    let finish = daemon.finish_open(session_id.clone(), generated, Ok(1), Ok(()));
    assert_eq!(finish.result, Ok((session_id.clone(), true)));
    assert_eq!(daemon.session(&session_id), Some(&1));
    assert_eq!(
        daemon.begin_open(Some(session_id.clone())),
        Ok(OpenStep::Existing(session_id))
    );
}

#[test]
fn full_registry_rejects_before_constructing_session() {
    let mut daemon: SessionDaemon<u8> =
        SessionDaemon::with_factory(1, 1, 8, 32, None, 50, 1_000, None);
    daemon.create_session("session-1".to_string(), 7, Ok(())).unwrap();
    assert_eq!(
        daemon.begin_open(None),
        Err(SessionDaemonError::SessionLimitReached { max: 1 })
    );
}

#[test]
fn opens_in_flight_hold_their_slot_and_id() {
    let mut daemon: SessionDaemon<u8> =
        SessionDaemon::with_factory(2, 1, 8, 32, None, 50, 1_000, None);
    assert!(matches!(
        daemon.begin_open(Some("a".to_string())),
        Ok(OpenStep::Open { mode: SessionOpenMode::Load, generated: false, .. })
    ));
    assert_eq!(
        daemon.begin_open(Some("a".to_string())),
        Err(SessionDaemonError::DuplicateSession("a".to_string()))
    );
    daemon.begin_open(Some("b".to_string())).unwrap();
    assert_eq!(
        daemon.begin_open(Some("c".to_string())),
        Err(SessionDaemonError::SessionLimitReached { max: 2 })
    );
    let failed =
        daemon.finish_open("a".to_string(), false, Err(SessionOpenError::NotFound), Ok(()));
    assert_eq!(
        failed.result,
        Err(SessionDaemonError::OpenFailed(SessionOpenError::NotFound))
    );
    let unsubscribed = daemon.finish_open(
        "b".to_string(),
        false,
        Ok(1),
        Err(SessionEventError::SequenceExhausted),
    );
    assert_eq!(
        unsubscribed.result,
        Err(SessionDaemonError::EventSubscription("SequenceExhausted".to_string()))
    );
    assert_eq!(unsubscribed.rejected, Some(1));
    assert!(daemon.begin_open(Some("c".to_string())).is_ok());
    let mut bare: SessionDaemon<u8> = SessionDaemon::new(1, 1, 1, 1);
    assert_eq!(bare.begin_open(None), Err(SessionDaemonError::FactoryUnavailable));
}

#[test]
fn failed_new_session_handshake_releases_registry_slot() {
    let mut daemon = daemon_with_session();
    let entry = daemon.rollback_generated_session("session-1").expect("the session is live");
    assert!(entry.stopped);
    assert!(daemon.rollback_generated_session("session-1").is_none());
    assert_eq!(daemon.session_count(), 0);
}

#[test]
fn shutdown_preempts_blocked_session_factory() {
    let mut daemon: SessionDaemon<u8> =
        SessionDaemon::with_factory(2, 1, 8, 32, None, 50, 1_000, None);
    let OpenStep::Open { session_id, .. } = daemon.begin_open(None).unwrap() else {
        panic!("a session is made");
    };
    assert!(daemon.begin_shutdown().is_empty());
    let finish = daemon.finish_open(session_id, true, Ok(3), Ok(()));
    assert_eq!(finish.result, Err(SessionDaemonError::ShuttingDown));
    assert_eq!(finish.rejected, Some(3));
    assert!(finish.delete_persisted);
    assert_eq!(daemon.begin_open(None), Err(SessionDaemonError::ShuttingDown));
}

#[test]
fn daemon_shutdown_stops_every_live_session() {
    let mut daemon: SessionDaemon<u8> =
        SessionDaemon::with_factory(2, 1, 8, 32, None, 50, 4, None).with_persistence_lifecycle(1, 6);
    daemon.create_session("session-1".to_string(), 1, Ok(())).unwrap();
    daemon.create_session("session-2".to_string(), 2, Ok(())).unwrap();
    for id in daemon.begin_shutdown() {
        let instance = daemon.current_instance(&id).unwrap();
        assert!(daemon.remove_session(&id, instance).is_some());
    }
    assert_eq!(daemon.session_count(), 0);
    assert_eq!(daemon.finalization_budget_ns(), 10);
}

#[test]
fn idle_retention_evicts_detached_session_and_recovers_capacity() {
    let mut daemon = retaining(10);
    leave(&mut daemon, 0);
    assert!(daemon.idle_session_ids(9).is_empty());
    assert_eq!(daemon.idle_session_ids(20), vec!["session-1".to_string()]);
    let plan = daemon.plan_eviction("session-1", 20, false, PersistenceHealth::Clean);
    let EvictionPlan::Remove { instance } = plan else {
        panic!("an idle session may go: {plan:?}");
    };
    assert!(daemon.remove_if_idle("session-1", instance, 20, false).is_some());
    assert!(daemon.session("session-1").is_none());
    daemon
        .create_session("session-2".to_string(), 8, Ok(()))
        .expect("idle eviction releases capacity");
}

#[test]
fn idle_retention_final_save_recovers_before_eviction() {
    let mut daemon = retaining(1).with_persistence_lifecycle(1_000, 1_000);
    leave(&mut daemon, 0);
    let degraded = PersistenceHealth::Degraded { retryable: true };
    let plan = daemon.plan_eviction("session-1", 10, false, degraded);
    let EvictionPlan::TrySave { instance, extension_expired: false } = plan else {
        panic!("saving comes first: {plan:?}");
    };
    assert_eq!(
        daemon.plan_final_save(false, degraded),
        FinalSavePlan::Run { timeout_ns: 1_000 }
    );
    let outcome =
        daemon.settle_final_save("session-1", FinalSaveEvent::Finished(PersistenceHealth::Clean));
    assert_eq!(outcome, FinalSaveOutcome::Saved);
    assert_eq!(after_eviction_save(outcome, false), AfterSave::Remove { loss_risk: false });
    assert!(daemon.remove_if_idle("session-1", instance, 10, false).is_some());
}

#[test]
fn idle_retention_defers_then_forces_persistently_degraded_session() {
    let mut daemon = retaining(1).with_persistence_lifecycle(1_000, 1_000);
    leave(&mut daemon, 0);
    let degraded = PersistenceHealth::Degraded { retryable: true };
    assert!(matches!(
        daemon.plan_eviction("session-1", 10, false, degraded),
        EvictionPlan::TrySave { extension_expired: false, .. }
    ));
    let outcome = daemon.settle_final_save("session-1", FinalSaveEvent::Finished(degraded));
    assert_eq!(outcome, FinalSaveOutcome::Failed);
    assert_eq!(after_eviction_save(outcome, false), AfterSave::Defer);
    assert!(daemon.session("session-1").is_some());

    let plan = daemon.plan_eviction("session-1", 2_000, false, degraded);
    let EvictionPlan::TrySave { instance, extension_expired: true } = plan else {
        panic!("the extension is over: {plan:?}");
    };
    assert_eq!(after_eviction_save(outcome, true), AfterSave::Remove { loss_risk: true });
    assert!(daemon.remove_if_idle("session-1", instance, 2_000, false).is_some());
}

#[test]
fn reattach_resets_persistence_eviction_extension() {
    let mut daemon = retaining(1).with_persistence_lifecycle(1_000, 1_000);
    leave(&mut daemon, 0);
    let degraded = PersistenceHealth::Degraded { retryable: true };
    daemon.plan_eviction("session-1", 10, false, degraded);
    assert_eq!(daemon.sessions[0].persistence_deferral_started_ns, Some(10));
    let attachment = daemon.attach("session-1", client("terminal-1"), &observe()).unwrap();
    assert_eq!(daemon.sessions[0].persistence_deferral_started_ns, None);
    daemon.detach(&attachment.attached, 2_000);
    assert!(matches!(
        daemon.plan_eviction("session-1", 2_010, false, degraded),
        EvictionPlan::TrySave { extension_expired: false, .. }
    ));
    assert_eq!(daemon.sessions[0].persistence_deferral_started_ns, Some(2_010));
}

#[test]
fn timed_out_eviction_save_quarantines_session_identity() {
    let mut daemon = retaining(1).with_persistence_lifecycle(1, 10);
    leave(&mut daemon, 0);
    let degraded = PersistenceHealth::Degraded { retryable: true };
    daemon.plan_eviction("session-1", 10, false, degraded);
    let EvictionPlan::TrySave { instance, extension_expired } =
        daemon.plan_eviction("session-1", 20, false, degraded)
    else {
        panic!("saving comes first");
    };
    let outcome = daemon.settle_final_save("session-1", FinalSaveEvent::TimedOut);
    assert_eq!(outcome, FinalSaveOutcome::TimedOut);
    assert_eq!(
        after_eviction_save(outcome, extension_expired),
        AfterSave::Remove { loss_risk: true }
    );
    daemon.remove_if_idle("session-1", instance, 20, false).unwrap();
    assert_eq!(
        daemon.begin_open(Some("session-1".to_string())),
        Err(SessionDaemonError::SessionStopped("session-1".to_string()))
    );
    assert!(matches!(
        daemon.create_session("session-1".to_string(), 9, Ok(())),
        Err((SessionDaemonError::SessionStopped(_), 9))
    ));
    daemon.late_save_finished("session-1");
    assert!(matches!(
        daemon.begin_open(Some("session-1".to_string())),
        Ok(OpenStep::Open { generated: false, .. })
    ));
}

#[test]
fn every_late_save_counts() {
    let mut daemon = daemon_with_session();
    daemon.settle_final_save("x", FinalSaveEvent::TimedOut);
    daemon.settle_final_save("x", FinalSaveEvent::TimedOut);
    assert_eq!(
        daemon.settle_final_save("x", FinalSaveEvent::TaskFailed),
        FinalSaveOutcome::Failed
    );
    daemon.late_save_finished("x");
    assert!(daemon.has_late_persistence_save("x"));
    daemon.late_save_finished("x");
    assert!(!daemon.has_late_persistence_save("x"));
    daemon.late_save_finished("x");
    assert!(!daemon.has_late_persistence_save("x"));
}

#[test]
fn idle_retention_rechecks_concurrent_reattach() {
    let mut daemon = retaining(1);
    leave(&mut daemon, 0);
    let EvictionPlan::Remove { instance } =
        daemon.plan_eviction("session-1", 10, false, PersistenceHealth::Clean)
    else {
        panic!("an idle session may go");
    };
    daemon.attach("session-1", client("terminal-2"), &observe()).unwrap();
    assert!(daemon.remove_if_idle("session-1", instance, 10, false).is_none());
    assert!(daemon.session("session-1").is_some());
}

#[test]
fn idle_retention_preserves_pending_prompt_admission() {
    let mut daemon = retaining(1);
    leave(&mut daemon, 0);
    let instance = daemon.current_instance("session-1").unwrap();
    assert!(daemon.prompt_started("session-1", instance));
    assert_eq!(
        daemon.plan_eviction("session-1", 10, false, PersistenceHealth::Clean),
        EvictionPlan::Skip
    );
    assert!(daemon.prompt_finished("session-1", instance));
    assert_eq!(
        daemon.plan_eviction("session-1", 10, true, PersistenceHealth::Clean),
        EvictionPlan::Skip
    );
    assert!(matches!(
        daemon.plan_eviction("session-1", 10, false, PersistenceHealth::Clean),
        EvictionPlan::Remove { .. }
    ));
    assert!(!daemon.prompt_started("missing", 0));
    assert!(!daemon.prompt_finished("missing", 0));
}

#[test]
fn detached_retention_does_not_timeout_attached_client() {
    let mut daemon = retaining(1);
    daemon.attach("session-1", client("terminal-1"), &observe()).unwrap();
    assert!(daemon.idle_session_ids(1_000).is_empty());
}

#[test]
fn shutdown_final_save_obeys_timeout() {
    let daemon = daemon_with_session();
    assert_eq!(
        daemon.plan_final_save(false, PersistenceHealth::Clean),
        FinalSavePlan::Settled(FinalSaveOutcome::Saved)
    );
    assert_eq!(
        daemon.plan_final_save(true, PersistenceHealth::Clean),
        FinalSavePlan::Settled(FinalSaveOutcome::Failed)
    );
    assert_eq!(end_after_wait(false, false), EndStep::Save { force: true });
    assert_eq!(
        end_after_save(FinalSaveOutcome::TimedOut, true),
        EndStep::Remove { loss_risk: true }
    );
    assert_eq!(
        end_after_save(FinalSaveOutcome::Saved, false),
        EndStep::Remove { loss_risk: true }
    );
    assert_eq!(
        end_after_save(FinalSaveOutcome::Saved, true),
        EndStep::Remove { loss_risk: false }
    );
}

#[test]
fn settings_are_at_least_one() {
    let daemon: SessionDaemon<u8> = SessionDaemon::with_factory(
        0,
        3,
        0,
        0,
        None,
        0,
        1,
        Some(SessionWorkspace { id: "ws".to_string(), label: "l".to_string() }),
    )
    .with_listing_limits(0, 0, 9)
    .with_discovery_fallback_limits(8, 0, 0)
    .with_global_listing_snapshot_capacity(0)
    .with_catalog_discovery("ws".to_string(), 0, 1, 2, 3, 4);
    assert_eq!(daemon.settings.event_queue_capacity, 1);
    assert_eq!(daemon.settings.max_snapshot_entries, 1);
    assert_eq!(daemon.settings.session_list_page_size, 1);
    assert_eq!(daemon.settings.session_list_preview_bytes, 1);
    assert_eq!(daemon.settings.session_list_snapshot_entries, 1);
    assert_eq!(daemon.settings.session_list_fallback_entries, 1);
    assert_eq!(daemon.settings.session_list_query_concurrency, 1);
    assert_eq!(daemon.listings.capacity, 1);
    assert_eq!(daemon.connection_limit(), 1);
    assert_eq!(daemon.handler_limit(), 4);
    let discovery = daemon.catalog_discovery.as_ref().unwrap();
    assert_eq!(discovery.reconcile_entries, 1);
    assert_eq!(discovery.reconcile_owner.len(), 36);
    assert_eq!(daemon.listing_settings().snapshot_ttl_ns, 9);
}

#[test]
fn accept_error_classification_retries_resource_pressure_only() {
    let exhausted = (libc::EMFILE, libc::ENFILE);
    assert!(accept_error_is_recoverable(
        AcceptErrorKind::Other,
        Some(libc::EMFILE),
        exhausted
    ));
    assert!(accept_error_is_recoverable(AcceptErrorKind::Interrupted, None, exhausted));
    assert!(!accept_error_is_recoverable(AcceptErrorKind::Other, None, exhausted));
}

#[test]
fn unix_listener_rejects_group_or_world_writable_parent() {
    let error = check_socket_parent(1000, 1000, 0o40777).unwrap_err();
    assert_eq!(error.kind, SocketErrorKind::PermissionDenied);
    assert_eq!(
        error.message,
        "session socket parent must be owner-controlled and not group/world writable \
         (owner=1000, effective_uid=1000, mode=777)"
    );
    assert!(check_socket_parent(0, 1000, 0o40700).is_err());
    assert!(check_socket_parent(1000, 1000, 0o40755).is_ok());
    assert_eq!(missing_parent().kind, SocketErrorKind::InvalidInput);
}

#[test]
fn unix_listener_lock_allows_only_one_daemon_owner() {
    assert_eq!(lock_held(true).unwrap().kind, SocketErrorKind::AddrInUse);
    assert!(lock_held(false).is_none());
}

#[test]
fn unix_listener_replaces_stale_owner_socket_under_lock() {
    assert!(check_replaceable(true, 1, 1, false).is_ok());
    assert_eq!(
        check_replaceable(false, 1, 1, false).unwrap_err().kind,
        SocketErrorKind::AlreadyExists
    );
    assert_eq!(
        check_replaceable(true, 2, 1, false).unwrap_err().kind,
        SocketErrorKind::PermissionDenied
    );
    assert_eq!(
        check_replaceable(true, 1, 1, true).unwrap_err().kind,
        SocketErrorKind::AddrInUse
    );
    let made = FileIdentity { device: 1, inode: 2 };
    assert!(may_remove(made, made, true));
    assert!(!may_remove(made, FileIdentity { device: 1, inode: 3 }, true));
    assert!(!may_remove(made, made, false));
    assert!(verify_peer_owner(1, 2).is_err());
    assert!(verify_peer_owner(2, 2).is_ok());
}

#[test]
fn socket_files_lie_beside_the_socket() {
    assert_eq!(instance_metadata_path(b"/run/s.sock"), b"/run/s.sock.pid");
    assert_eq!(socket_lock_path(b"/run/s.sock"), b"/run/s.sock.lock");
    assert_eq!(socket_lock_path(b"/run/\xff"), b"/run/\xff.lock");
    let temporary = temporary_path(b"/run/s.sock.pid");
    assert!(temporary.starts_with(b"/run/s.sock.pid."));
    assert!(temporary.ends_with(b".tmp"));
    assert_ne!(temporary, temporary_path(b"/run/s.sock.pid"));
    assert_eq!(system_time_unix_ms(Some(1_500_000)), 1);
    assert_eq!(system_time_unix_ms(None), 0);
}
