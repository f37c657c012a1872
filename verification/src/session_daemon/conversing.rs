//! How a client is let in, what its messages lead to, and what it is told.
use vstd::prelude::*;

use crate::keyed::{lemma_pick_next, picked_from};
use crate::session_core::approval::ApprovalError;
use crate::session_core::event_router::SessionReplay;
use crate::session_core::{RuntimeConfigError, SessionPromptError};
use crate::session_daemon::capability::{
    granted, law_grants_are_requested_and_allowed, CapabilityPolicy,
};
use crate::session_daemon::connection::{
    answered, reports, revokes, tells, Connection, ConnectionAction,
};
use crate::session_daemon::handshake::{caught_up_to, denies, event_messages, greeted, Introduction};
use crate::session_daemon::wire_errors::{
    approval_error_text, config_error_text, denied_code, prompt_error_text, request_id_of,
    request_key,
};
use crate::session_daemon::SessionDaemonError;
use crate::session_protocol::bounds::{law_messages_are_held_to_their_limits, message_fits};
use crate::session_protocol::{
    AttachDeniedCode, ClientCapability, ClientMessage, ProtocolLimits, ProtocolValidationError,
    RevocationCode, ServerMessage, SessionEvent, SessionSnapshot, PROTOCOL_VERSION,
};

verus! {

broadcast use vstd::string::group_string_axioms;

/// Whether an action tells the client that something failed, under a request
/// and with a code.
pub open spec fn refuses(
    action: ConnectionAction,
    request_id: Option<String>,
    code: Seq<char>,
) -> bool {
    action matches ConnectionAction::Send(
        ServerMessage::Error { request_id: under, code: told, .. },
    ) && under == request_id && told@ == code
}

/// What a message that keeps its bounds leads to: what it asks for, with what
/// it brought along, where the client may ask for it; else a refusal under its
/// request.
pub open spec fn acted_on(
    message: ClientMessage,
    client_id: Seq<char>,
    capabilities: Seq<ClientCapability>,
    action: ConnectionAction,
) -> bool {
    match message {
        ClientMessage::Prompt { request_id, text } => if capabilities.contains(
            ClientCapability::Prompt,
        ) {
            action matches ConnectionAction::Prompt { request_id: under, text: said, key } && under
                == request_id && said == text && key@ == request_key(client_id, request_id@)
        } else {
            refuses(action, Some(request_id), "capability_denied"@)
        },
        ClientMessage::Interrupt { request_id } => if capabilities.contains(
            ClientCapability::Interrupt,
        ) {
            action == (ConnectionAction::Interrupt { request_id })
        } else {
            refuses(action, request_id, "capability_denied"@)
        },
        ClientMessage::StopSession { request_id } => if capabilities.contains(
            ClientCapability::Stop,
        ) {
            action == (ConnectionAction::StopSession { request_id })
        } else {
            refuses(action, Some(request_id), "capability_denied"@)
        },
        ClientMessage::ClearHistory { request_id } => if capabilities.contains(
            ClientCapability::Configure,
        ) {
            action == (ConnectionAction::ClearHistory { request_id })
        } else {
            refuses(action, Some(request_id), "capability_denied"@)
        },
        ClientMessage::SetConfig { request_id, config_id, value } => if capabilities.contains(
            ClientCapability::Configure,
        ) {
            action == (ConnectionAction::SetConfig { request_id, config_id, value })
        } else {
            refuses(action, request_id, "capability_denied"@)
        },
        ClientMessage::GetUsage { request_id } => if capabilities.contains(
            ClientCapability::Observe,
        ) {
            action == (ConnectionAction::GetUsage { request_id })
        } else {
            refuses(action, Some(request_id), "capability_denied"@)
        },
        ClientMessage::ListSessions { request_id, cursor } => if capabilities.contains(
            ClientCapability::Observe,
        ) {
            action == (ConnectionAction::ListSessions { request_id, cursor })
        } else {
            refuses(action, Some(request_id), "capability_denied"@)
        },
        ClientMessage::SyncRequest { last_seen_seq } => if capabilities.contains(
            ClientCapability::Observe,
        ) {
            action == (ConnectionAction::Sync { last_seen_seq })
        } else {
            refuses(action, None, "capability_denied"@)
        },
        ClientMessage::ApprovalResponse { approval_id, decision } => action == (
        ConnectionAction::ResolveApproval { approval_id, decision }),
        ClientMessage::Ping => action == ConnectionAction::Send(ServerMessage::Pong),
        ClientMessage::Detach => action is Close,
        ClientMessage::Attach { .. } => refuses(action, None, "unsupported_message"@),
        ClientMessage::Resume { .. } => refuses(action, None, "unsupported_message"@),
    }
}

/// A message leads to what it asks for exactly where it keeps its bounds and
/// the client holds the capability. One that breaks a bound is refused under its
/// request, whatever the client holds; a cursor that is too long counts as one
/// that was never handed out.
pub proof fn law_messages_lead_to_what_they_ask(
    message: ClientMessage,
    limits: ProtocolLimits,
    client_id: Seq<char>,
    capabilities: Seq<ClientCapability>,
    verdict: Option<ProtocolValidationError>,
    action: ConnectionAction,
)
    requires
        answered(message, limits, client_id, capabilities, verdict, action),
    ensures
        verdict is None <==> message_fits(limits, message),
        verdict is None ==> acted_on(message, client_id, capabilities, action),
        verdict matches Some(error) ==> {
            let long_cursor = message is ListSessions && (
            error matches ProtocolValidationError::FieldTooLarge { field, .. } && field@
                == "list_sessions.cursor"@);
            &&& long_cursor ==> refuses(
                action,
                Some(message->ListSessions_request_id),
                "invalid_cursor"@,
            )
            &&& !long_cursor ==> refuses(action, request_id_of(message), "invalid_message"@)
        },
{
    law_messages_are_held_to_their_limits(limits, message, verdict);
}

/// A client is answered under the id that it asked with.
pub proof fn law_answers_go_under_their_request(message: ClientMessage)
    ensures
        match message {
            ClientMessage::Prompt { request_id, .. } => request_id_of(message) == Some(request_id),
            ClientMessage::StopSession { request_id } => request_id_of(message) == Some(request_id),
            ClientMessage::ClearHistory { request_id } => request_id_of(message) == Some(
                request_id,
            ),
            ClientMessage::GetUsage { request_id } => request_id_of(message) == Some(request_id),
            ClientMessage::ListSessions { request_id, .. } => request_id_of(message) == Some(
                request_id,
            ),
            ClientMessage::Interrupt { request_id } => request_id_of(message) == request_id,
            ClientMessage::SetConfig { request_id, .. } => request_id_of(message) == request_id,
            ClientMessage::Attach { .. } => request_id_of(message) is None,
            ClientMessage::Resume { .. } => request_id_of(message) is None,
            ClientMessage::ApprovalResponse { .. } => request_id_of(message) is None,
            ClientMessage::SyncRequest { .. } => request_id_of(message) is None,
            ClientMessage::Ping => request_id_of(message) is None,
            ClientMessage::Detach => request_id_of(message) is None,
        },
{
}

/// What is reported of an error, a revocation, a command or a refused client is
/// what was meant, word for word and under the right request.
pub proof fn law_messages_say_what_was_meant(
    message: ServerMessage,
    request_id: Option<String>,
    command_id: String,
    code: Seq<char>,
    text: Seq<char>,
    revocation: RevocationCode,
    denial: AttachDeniedCode,
    changed: bool,
)
    ensures
        reports(message, request_id, code, text) ==> (message matches ServerMessage::Error {
            request_id: under,
            code: told,
            message: said,
        } && under == request_id && told@ == code && said@ == text),
        revokes(message, revocation, text) ==> (message matches ServerMessage::Revoked {
            code: told,
            reason: said,
        } && told == Some(revocation) && said@ == text),
        tells(message, command_id, text, changed) ==> (message matches ServerMessage::CommandResult {
            request_id: under,
            operation: named,
            changed: did,
        } && under == command_id && named@ == text && did == changed),
        denies(message, denial, text) ==> (message matches ServerMessage::AttachDenied {
            code: told,
            reason: said,
        } && told == Some(denial) && said@ == text),
{
}

/// A client is spared an event exactly where it is caught up past it. No other
/// message is held back.
pub proof fn law_only_known_events_are_held_back(connection: Connection, message: ServerMessage)
    ensures
        message matches ServerMessage::Event { seq, .. } ==> {
            &&& connection.snapshot_sequence matches Some(known) ==> (connection.covered(message)
                <==> seq <= known)
            &&& connection.snapshot_sequence is None ==> !connection.covered(message)
        },
        !(message is Event) ==> !connection.covered(message),
{
}

/// Replayed events are sent one for one, each under its own number.
pub proof fn law_replay_is_sent_event_for_event(events: Seq<(u64, SessionEvent)>, i: int)
    requires
        0 <= i < events.len(),
    ensures
        event_messages(events).len() == events.len(),
        event_messages(events)[i] == (ServerMessage::Event { seq: events[i].0, event: events[i].1 }),
{
}

/// A client that comes in is caught up to the end of what was replayed to it,
/// else to the snapshot it gets, else to the session's last event.
pub proof fn law_newcomers_are_caught_up(
    replay: Option<SessionReplay>,
    snapshot: Option<SessionSnapshot>,
    latest_seq: u64,
)
    ensures
        ({
            let known = caught_up_to(replay, snapshot, latest_seq);
            &&& replay matches Some(SessionReplay::Available { latest_seq: replayed, .. })
                ==> known == replayed
            &&& !(replay matches Some(SessionReplay::Available { .. })) ==> match snapshot {
                Some(snapshot) => known == snapshot.seq,
                None => known == latest_seq,
            }
        }),
{
}

/// Only a client that introduces itself in form, and speaks this version of the
/// protocol, gets in: under who it says it is, to the session it names, from
/// where it left off, and with those of the capabilities it asked for that it
/// may have. Any other is told why not.
pub proof fn law_first_message_introduces_the_client(
    first: ClientMessage,
    limits: ProtocolLimits,
    policy: CapabilityPolicy,
    verdict: Option<ProtocolValidationError>,
    result: Result<Introduction, ServerMessage>,
    capability: ClientCapability,
)
    requires
        greeted(first, limits, policy, verdict, result),
    ensures
        verdict is None <==> message_fits(limits, first),
        match result {
            Ok(introduction) => {
                &&& verdict is None
                &&& match first {
                    ClientMessage::Attach {
                        protocol_version,
                        session_id,
                        client,
                        requested_capabilities,
                        ..
                    } => {
                        &&& protocol_version == PROTOCOL_VERSION
                        &&& introduction.session_id == session_id
                        &&& introduction.resume_seq is None
                        &&& introduction.client == client
                        &&& introduction.granted_capabilities@.contains(capability)
                            <==> requested_capabilities@.contains(capability)
                            && policy.allowed@.contains(capability)
                    },
                    ClientMessage::Resume {
                        protocol_version,
                        session_id,
                        last_seen_seq,
                        client,
                        requested_capabilities,
                        ..
                    } => {
                        &&& protocol_version == PROTOCOL_VERSION
                        &&& introduction.session_id == Some(session_id)
                        &&& introduction.resume_seq == Some(last_seen_seq)
                        &&& introduction.client == client
                        &&& introduction.granted_capabilities@.contains(capability)
                            <==> requested_capabilities@.contains(capability)
                            && policy.allowed@.contains(capability)
                    },
                    _ => false,
                }
            },
            Err(ServerMessage::AttachDenied { code, .. }) => {
                let version = match first {
                    ClientMessage::Attach { protocol_version, .. } => Some(protocol_version),
                    ClientMessage::Resume { protocol_version, .. } => Some(protocol_version),
                    _ => None,
                };
                &&& verdict is Some || version is None ==> code == Some(
                    AttachDeniedCode::InvalidMessage,
                )
                &&& verdict is None && version is Some ==> version != Some(PROTOCOL_VERSION)
                    && code == Some(AttachDeniedCode::ProtocolVersion)
            },
            Err(_) => false,
        },
{
    law_messages_are_held_to_their_limits(limits, first, verdict);
    if verdict is None {
        match first {
            ClientMessage::Attach { requested_capabilities, .. } => {
                law_grants_are_requested_and_allowed(requested_capabilities@, policy.allowed@);
            },
            ClientMessage::Resume { requested_capabilities, .. } => {
                law_grants_are_requested_and_allowed(requested_capabilities@, policy.allowed@);
            },
            _ => {},
        }
    }
}

/// Capabilities are granted in the order in which they were asked for first.
pub proof fn law_grants_keep_the_order_asked(
    requested: Seq<ClientCapability>,
    allowed: Seq<ClientCapability>,
) -> (places: Seq<int>)
    ensures
        picked_from(granted(requested, allowed), requested, places),
        forall|k: int, i: int|
            0 <= k < places.len() && 0 <= i < places[k] ==> #[trigger] requested[i]
                != #[trigger] granted(requested, allowed)[k],
    decreases requested.len(),
{
    if requested.len() == 0 {
        seq![]
    } else {
        let rest = requested.drop_last();
        let before = law_grants_keep_the_order_asked(rest, allowed);
        let earlier = granted(rest, allowed);
        let now = granted(requested, allowed);
        lemma_pick_next(earlier, rest, before, requested.last());
        law_grants_are_requested_and_allowed(rest, allowed);
        assert(rest.push(requested.last()) =~= requested);
        let places = if now == earlier {
            before
        } else {
            before.push(rest.len() as int)
        };
        assert forall|k: int, i: int|
            0 <= k < places.len() && 0 <= i < places[k] implies #[trigger] requested[i]
            != #[trigger] now[k] by {
            assert(rest[i] == requested[i]);
            if k < before.len() {
                assert(rest[i] != earlier[k]);
            } else {
                assert(rest.contains(rest[i]));
                assert(earlier.contains(rest[i]) <==> allowed.contains(rest[i]));
            }
        }
        places
    }
}

/// A refused client learns from the code which refusal it met.
pub proof fn law_refusals_have_their_codes(error: SessionDaemonError)
    ensures
        ({
            let code = denied_code(error);
            &&& error is DuplicateSession <==> code == AttachDeniedCode::SessionAlreadyActive
            &&& error is SessionLimitReached <==> code == AttachDeniedCode::SessionLimitReached
            &&& error is SessionNotFound <==> code == AttachDeniedCode::SessionNotFound
            &&& error is SessionStopped <==> code == AttachDeniedCode::SessionStopped
            &&& error is DuplicateClient <==> code == AttachDeniedCode::DuplicateClient
            &&& error is ClientLimitReached <==> code == AttachDeniedCode::ClientLimitReached
            &&& error is EventSubscription <==> code == AttachDeniedCode::EventSubscriptionFailed
            &&& error is FactoryUnavailable <==> code == AttachDeniedCode::FactoryUnavailable
            &&& error is OpenFailed <==> code == AttachDeniedCode::SessionOpenFailed
            &&& error is ShuttingDown <==> code == AttachDeniedCode::DaemonShuttingDown
        }),
{
}

/// A refused prompt, answer or setting has its own code, and says no more than
/// why: a model's words are passed on, the cause of a failed setting is not.
pub proof fn law_refused_requests_have_their_codes(
    prompt: SessionPromptError,
    approval: ApprovalError,
    config: RuntimeConfigError,
)
    ensures
        match prompt {
            SessionPromptError::Busy => prompt_error_text(prompt).0 == "session_busy"@,
            SessionPromptError::Stopped => prompt_error_text(prompt).0 == "session_stopped"@,
            SessionPromptError::DuplicateRequest(id) => prompt_error_text(prompt) == (
                "duplicate_request"@,
                "request '"@ + id@ + "' has already completed"@,
            ),
            SessionPromptError::Model(said) => prompt_error_text(prompt) == (
                "model_error"@,
                said@,
            ),
        },
        match approval {
            ApprovalError::AlreadyResolved => approval_error_text(approval).0
                == "approval_already_resolved"@,
            ApprovalError::MissingCapability(_) => approval_error_text(approval).0
                == "capability_denied"@,
            _ => approval_error_text(approval).0 == "approval_rejected"@,
        },
        match config {
            RuntimeConfigError::Busy => config_error_text(config).0 == "config_locked"@,
            RuntimeConfigError::UnknownOption => config_error_text(config).0 == "unknown_config"@,
            RuntimeConfigError::InvalidValue => config_error_text(config).0 == "invalid_config"@,
            RuntimeConfigError::UnsupportedOption => config_error_text(config).0
                == "unsupported_config"@,
            RuntimeConfigError::ApplyFailed(_) => config_error_text(config) == (
                "config_apply_failed"@,
                "runtime configuration could not be applied"@,
            ),
        },
{
}

} // verus!
