//! The first messages of a connection: who introduces itself how, and what a
//! client that got in is sent before anything else.
use vstd::prelude::*;
use vstd::string::*;
use crate::session_core::event_router::SessionReplay;
use crate::session_daemon::capability::{granted, CapabilityPolicy};
use crate::session_daemon::wire_errors::{
    daemon_error_text, denied_code, session_daemon_error_code, session_daemon_error_message,
};
use crate::session_daemon::SessionDaemonError;
use crate::session_protocol::{
    first_exceeded, AttachDeniedCode, ClientCapability, ClientInfo, ClientMessage, ProtocolLimits,
    ProtocolValidationError, ServerMessage, SessionEvent, SessionSnapshot, PROTOCOL_VERSION,
};
use crate::text::{decimal, decimal_string};

verus! {

broadcast use vstd::string::group_string_axioms;

/// A client that introduced itself in form. `resume_seq` is the last event
/// that a returning client has seen.
#[derive(Debug, PartialEq, Eq)]
pub struct Introduction {
    pub session_id: Option<String>,
    pub resume_seq: Option<u64>,
    pub client: ClientInfo,
    pub granted_capabilities: Vec<ClientCapability>,
}

/// Whether a message refuses a client with a code and a reason.
pub open spec fn denies(message: ServerMessage, code: AttachDeniedCode, reason: Seq<char>) -> bool {
    message matches ServerMessage::AttachDenied { code: told, reason: text } && told == Some(code)
        && text@ == reason
}

fn denial(code: AttachDeniedCode, reason: String) -> (message: ServerMessage)
    ensures
        denies(message, code, reason@),
{
    ServerMessage::AttachDenied { code: Some(code), reason }
}

pub open spec fn version_text(version: u16) -> Seq<char> {
    "unsupported protocol version "@ + decimal(version as nat) + "; expected "@ + decimal(
        PROTOCOL_VERSION as nat,
    )
}

/// What an introduction in form, of a client that speaks the protocol, comes to.
pub open spec fn introduced(
    first: ClientMessage,
    policy: CapabilityPolicy,
    introduction: Introduction,
) -> bool {
    match first {
        ClientMessage::Attach { session_id, client, requested_capabilities, .. } => {
            &&& introduction.session_id == session_id
            &&& introduction.resume_seq is None
            &&& introduction.client == client
            &&& introduction.granted_capabilities@ == granted(
                requested_capabilities@,
                policy.allowed@,
            )
        },
        ClientMessage::Resume { session_id, last_seen_seq, client, requested_capabilities, .. } => {
            &&& introduction.session_id == Some(session_id)
            &&& introduction.resume_seq == Some(last_seen_seq)
            &&& introduction.client == client
            &&& introduction.granted_capabilities@ == granted(
                requested_capabilities@,
                policy.allowed@,
            )
        },
        _ => false,
    }
}

pub open spec fn offered_version(first: ClientMessage) -> Option<u16> {
    match first {
        ClientMessage::Attach { protocol_version, .. } => Some(protocol_version),
        ClientMessage::Resume { protocol_version, .. } => Some(protocol_version),
        _ => None,
    }
}

/// What the first message of a connection comes to: too large a field is
/// refused first, then any message but an introduction, then another version.
pub open spec fn greeted(
    first: ClientMessage,
    limits: ProtocolLimits,
    policy: CapabilityPolicy,
    verdict: Option<ProtocolValidationError>,
    result: Result<Introduction, ServerMessage>,
) -> bool {
    &&& first_exceeded(limits.message_checks(first), verdict)
    &&& match verdict {
        Some(error) => result matches Err(message) && denies(
            message,
            AttachDeniedCode::InvalidMessage,
            "invalid attach message: "@ + error.variant_text(),
        ),
        None => match offered_version(first) {
            None => result matches Err(message) && denies(
                message,
                AttachDeniedCode::InvalidMessage,
                "first message must be attach or resume"@,
            ),
            Some(version) => if version != PROTOCOL_VERSION {
                result matches Err(message) && denies(
                    message,
                    AttachDeniedCode::ProtocolVersion,
                    version_text(version),
                )
            } else {
                result matches Ok(introduction) && introduced(first, policy, introduction)
            },
        },
    }
}

fn version_denial(version: u16) -> (message: ServerMessage)
    ensures
        denies(message, AttachDeniedCode::ProtocolVersion, version_text(version)),
{
    let mut reason = "unsupported protocol version ".to_owned();
    let offered = decimal_string(version as u64);
    reason.append(offered.as_str());
    reason.append("; expected ");
    let expected = decimal_string(PROTOCOL_VERSION as u64);
    reason.append(expected.as_str());
    denial(AttachDeniedCode::ProtocolVersion, reason)
}

/// Reads the first message of a connection.
pub fn greet(first: ClientMessage, limits: &ProtocolLimits, policy: &CapabilityPolicy) -> (result:
    Result<Introduction, ServerMessage>)
    ensures
        exists|verdict: Option<ProtocolValidationError>| #[trigger]
            greeted(first, *limits, *policy, verdict, result),
{
    let checked = limits.validate_client_message(&first);
    let ghost verdict = checked.err();
    match checked {
        Err(error) => {
            let mut reason = "invalid attach message: ".to_owned();
            let detail = error.variant_message();
            reason.append(detail.as_str());
            let refused = Err(denial(AttachDeniedCode::InvalidMessage, reason));
            assert(greeted(first, *limits, *policy, verdict, refused));
            return refused;
        },
        Ok(()) => {},
    }
    let answer = match first {
        ClientMessage::Attach {
            protocol_version,
            session_id,
            client,
            requested_capabilities,
            ..
        } => {
            if protocol_version != PROTOCOL_VERSION {
                Err(version_denial(protocol_version))
            } else {
                Ok(
                    Introduction {
                        session_id,
                        resume_seq: None,
                        client,
                        granted_capabilities: policy.grant(&requested_capabilities),
                    },
                )
            }
        },
        ClientMessage::Resume {
            protocol_version,
            session_id,
            last_seen_seq,
            client,
            requested_capabilities,
            ..
        } => {
            if protocol_version != PROTOCOL_VERSION {
                Err(version_denial(protocol_version))
            } else {
                Ok(
                    Introduction {
                        session_id: Some(session_id),
                        resume_seq: Some(last_seen_seq),
                        client,
                        granted_capabilities: policy.grant(&requested_capabilities),
                    },
                )
            }
        },
        _ => Err(
            denial(
                AttachDeniedCode::InvalidMessage,
                "first message must be attach or resume".to_owned(),
            ),
        ),
    };
    assert(greeted(first, *limits, *policy, verdict, answer));
    answer
}

/// What a client is told that the registry refused.
pub fn refusal(error: &SessionDaemonError) -> (message: ServerMessage)
    ensures
        denies(message, denied_code(*error), daemon_error_text(*error)),
{
    denial(session_daemon_error_code(error), session_daemon_error_message(error))
}

/// Whether a client that came in needs a snapshot: it observes, and what it
/// missed cannot be replayed.
pub fn needs_snapshot(observes: bool, replay: &Option<SessionReplay>) -> (needed: bool)
    ensures
        needed == (observes && !(replay matches Some(SessionReplay::Available { .. }))),
{
    observes && !matches!(replay, Some(SessionReplay::Available { .. }))
}

/// The snapshot that a client is to be sent, or why it is turned away after all.
pub fn settle_snapshot(stopped: bool, fitted: Result<SessionSnapshot, String>) -> (result: Result<
    SessionSnapshot,
    ServerMessage,
>)
    ensures
        if stopped {
            result matches Err(message) && denies(
                message,
                AttachDeniedCode::SessionStopped,
                "session stopped during attach"@,
            )
        } else {
            match fitted {
                Ok(snapshot) => result == Ok::<_, ServerMessage>(snapshot),
                Err(reason) => result matches Err(message) && denies(
                    message,
                    AttachDeniedCode::SnapshotTooLarge,
                    reason@,
                ),
            }
        },
{
    if stopped {
        return Err(
            denial(
                AttachDeniedCode::SessionStopped,
                "session stopped during attach".to_owned(),
            ),
        );
    }
    match fitted {
        Ok(snapshot) => Ok(snapshot),
        Err(reason) => Err(denial(AttachDeniedCode::SnapshotTooLarge, reason)),
    }
}

/// Replayed events as messages.
pub open spec fn event_messages(events: Seq<(u64, SessionEvent)>) -> Seq<ServerMessage> {
    events.map_values(
        |numbered: (u64, SessionEvent)|
            ServerMessage::Event { seq: numbered.0, event: numbered.1 },
    )
}

pub fn replay_messages(events: Vec<(u64, SessionEvent)>) -> (messages: Vec<ServerMessage>)
    ensures
        messages@ == event_messages(events@),
{
    let ghost given = events@;
    let mut rest = events;
    let mut messages: Vec<ServerMessage> = Vec::new();
    while rest.len() > 0
        invariant
            rest@.len() + messages@.len() == given.len(),
            rest@ =~= given.skip(messages@.len() as int),
            messages@ =~= event_messages(given.take(messages@.len() as int)),
        decreases rest@.len(),
    {
        let (seq, event) = rest.remove(0);
        assert(given[messages@.len() as int] == (seq, event));
        messages.push(ServerMessage::Event { seq, event });
    }
    assert(given.take(messages@.len() as int) =~= given);
    messages
}

/// The sequence number up to which a client that came in is caught up.
pub open spec fn caught_up_to(
    replay: Option<SessionReplay>,
    snapshot: Option<SessionSnapshot>,
    latest_seq: u64,
) -> u64 {
    match replay {
        Some(SessionReplay::Available { latest_seq, .. }) => latest_seq,
        _ => match snapshot {
            Some(snapshot) => snapshot.seq,
            None => latest_seq,
        },
    }
}

/// What a client is sent on getting in.
#[derive(Debug, PartialEq, Eq)]
pub struct Welcome {
    pub attach_ok: ServerMessage,
    /// What brings the client up to date, in order.
    pub state: Vec<ServerMessage>,
    /// Up to which event the client needs none any more.
    pub snapshot_sequence: Option<u64>,
}

/// Welcomes a client: what it was granted, then what it missed.
pub fn welcome(
    session_id: String,
    granted_capabilities: Vec<ClientCapability>,
    replay: Option<SessionReplay>,
    snapshot: Option<SessionSnapshot>,
    latest_seq: u64,
) -> (welcome: Welcome)
    ensures
        welcome.attach_ok == (ServerMessage::AttachOk {
            protocol_version: PROTOCOL_VERSION,
            session_id,
            granted_capabilities,
            seq: caught_up_to(replay, snapshot, latest_seq),
        }),
        match replay {
            Some(SessionReplay::Available { events, latest_seq }) => welcome.state@
                == event_messages(events@) && welcome.snapshot_sequence == Some(latest_seq),
            _ => match snapshot {
                Some(snapshot) => welcome.state@ == seq![
                    ServerMessage::Snapshot { seq: snapshot.seq, state: snapshot },
                ] && welcome.snapshot_sequence == Some(snapshot.seq),
                None => welcome.state@.len() == 0 && welcome.snapshot_sequence is None,
            },
        },
{
    let (seq, state, snapshot_sequence) = match replay {
        Some(SessionReplay::Available { events, latest_seq }) => (
            latest_seq,
            replay_messages(events),
            Some(latest_seq),
        ),
        _ => match snapshot {
            Some(snapshot) => {
                let seq: u64 = snapshot.seq;
                let mut state: Vec<ServerMessage> = Vec::new();
                state.push(ServerMessage::Snapshot { seq, state: snapshot });
                (seq, state, Some(seq))
            },
            None => (latest_seq, Vec::new(), None),
        },
    };
    Welcome {
        attach_ok: ServerMessage::AttachOk {
            protocol_version: PROTOCOL_VERSION,
            session_id,
            granted_capabilities,
            seq,
        },
        state,
        snapshot_sequence,
    }
}

} // verus!
