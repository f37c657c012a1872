//! An attached connection: what each message, each event and each change of the
//! session leads to.
//!
//! A `Connection` decides; the loop around it receives, sends and runs what is
//! asked for, and hands back what came of it.
use vstd::prelude::*;
use vstd::string::*;
use crate::session_core::approval::ApprovalError;
use crate::session_core::event_router::SessionEventRouter;
use crate::session_core::{HistoryMutationError, RuntimeConfigError, SessionPromptError};
use crate::session_daemon::handshake::{event_messages, replay_messages};
use crate::session_daemon::listing::SessionListPageError;
use crate::session_daemon::wire_errors::{
    approval_error, approval_error_text, client_request_key, config_error, config_error_text,
    prompt_error, prompt_error_text, request_id, request_id_of, request_key,
    session_delete_error_message,
};
use crate::session_protocol::{
    first_exceeded, has_capability, ApprovalDecision, ClientCapability, ClientMessage,
    ProtocolLimits, ProtocolValidationError, RevocationCode, RuntimeValue, ServerMessage,
    SessionEvent, SessionSnapshot, SessionUsage,
};
use crate::text::str_eq;

verus! {

broadcast use vstd::string::group_string_axioms;

/// What a message asks the loop to do.
#[derive(Debug, PartialEq, Eq)]
pub enum ConnectionAction {
    /// The connection ends without a word.
    Close,
    /// The session has stopped: what is queued is sent, then the client is told.
    DrainAndRevoke,
    Send(ServerMessage),
    Prompt { request_id: String, text: String, key: String },
    Interrupt { request_id: Option<String> },
    StopSession { request_id: String },
    ClearHistory { request_id: String },
    GetUsage { request_id: String },
    ResolveApproval { approval_id: String, decision: ApprovalDecision },
    Sync { last_seen_seq: u64 },
    SetConfig { request_id: Option<String>, config_id: String, value: RuntimeValue },
    ListSessions { request_id: String, cursor: Option<String> },
}

/// What becomes of a queued message.
#[derive(Debug, PartialEq, Eq)]
pub enum OutgoingAction {
    Close,
    /// The client missed events and has to come back.
    Revoke(ServerMessage),
    /// The client has it already.
    Skip,
    Forward,
    /// The message is sent, and after it that the session has stopped.
    ForwardThenRevoke(ServerMessage),
}

/// One attached connection.
#[derive(Debug, PartialEq, Eq)]
pub struct Connection {
    pub client_id: String,
    pub capabilities: Vec<ClientCapability>,
    /// Up to which event the client needs none any more.
    pub snapshot_sequence: Option<u64>,
    pub prompt_in_flight: bool,
    pub replacement_open: bool,
}

/// Whether a message reports an error under a request.
pub open spec fn reports(
    message: ServerMessage,
    request_id: Option<String>,
    code: Seq<char>,
    text: Seq<char>,
) -> bool {
    message matches ServerMessage::Error { request_id: under, code: told, message: said } && under
        == request_id && told@ == code && said@ == text
}

fn error_message(request_id: Option<String>, code: &str, text: &str) -> (message: ServerMessage)
    ensures
        reports(message, request_id, code@, text@),
{
    ServerMessage::Error { request_id, code: code.to_owned(), message: text.to_owned() }
}

/// Whether a message takes a connection's attachment away.
pub open spec fn revokes(message: ServerMessage, code: RevocationCode, reason: Seq<char>) -> bool {
    message matches ServerMessage::Revoked { code: told, reason: said } && told == Some(code)
        && said@ == reason
}

/// What a client is told whose session has stopped.
pub fn stopped_revocation() -> (message: ServerMessage)
    ensures
        revokes(message, RevocationCode::SessionStopped, "session stopped"@),
{
    ServerMessage::Revoked {
        code: Some(RevocationCode::SessionStopped),
        reason: "session stopped".to_owned(),
    }
}

/// The capability that a message needs, and what is said where it is missing.
pub open spec fn needed(message: ClientMessage) -> Option<(ClientCapability, Seq<char>)> {
    match message {
        ClientMessage::Prompt { .. } => Some(
            (ClientCapability::Prompt, "prompt capability was not granted"@),
        ),
        ClientMessage::Interrupt { .. } => Some(
            (ClientCapability::Interrupt, "interrupt capability was not granted"@),
        ),
        ClientMessage::StopSession { .. } => Some(
            (ClientCapability::Stop, "stop capability was not granted"@),
        ),
        ClientMessage::ClearHistory { .. } => Some(
            (ClientCapability::Configure, "configure capability was not granted"@),
        ),
        ClientMessage::SetConfig { .. } => Some(
            (ClientCapability::Configure, "configure capability was not granted"@),
        ),
        ClientMessage::GetUsage { .. } => Some(
            (ClientCapability::Observe, "observe capability was not granted"@),
        ),
        ClientMessage::SyncRequest { .. } => Some(
            (ClientCapability::Observe, "observe capability was not granted"@),
        ),
        ClientMessage::ListSessions { .. } => Some(
            (ClientCapability::Observe, "observe capability was not granted"@),
        ),
        _ => None,
    }
}

fn needed_capability(message: &ClientMessage) -> (needs: Option<(ClientCapability, &'static str)>)
    ensures
        match needs {
            Some((capability, text)) => needed(*message) == Some((capability, text@)),
            None => needed(*message) is None,
        },
{
    match message {
        ClientMessage::Prompt { .. } => Some(
            (ClientCapability::Prompt, "prompt capability was not granted"),
        ),
        ClientMessage::Interrupt { .. } => Some(
            (ClientCapability::Interrupt, "interrupt capability was not granted"),
        ),
        ClientMessage::StopSession { .. } => Some(
            (ClientCapability::Stop, "stop capability was not granted"),
        ),
        ClientMessage::ClearHistory { .. } => Some(
            (ClientCapability::Configure, "configure capability was not granted"),
        ),
        ClientMessage::SetConfig { .. } => Some(
            (ClientCapability::Configure, "configure capability was not granted"),
        ),
        ClientMessage::GetUsage { .. } => Some(
            (ClientCapability::Observe, "observe capability was not granted"),
        ),
        ClientMessage::SyncRequest { .. } => Some(
            (ClientCapability::Observe, "observe capability was not granted"),
        ),
        ClientMessage::ListSessions { .. } => Some(
            (ClientCapability::Observe, "observe capability was not granted"),
        ),
        _ => None,
    }
}

/// The code under which a message that breaks a bound is refused. A cursor that
/// is too long is one that was never handed out.
pub open spec fn invalid_code(message: ClientMessage, error: ProtocolValidationError) -> Seq<char> {
    match (message, error) {
        (
            ClientMessage::ListSessions { .. },
            ProtocolValidationError::FieldTooLarge { field, .. },
        ) => if field@ == "list_sessions.cursor"@ {
            "invalid_cursor"@
        } else {
            "invalid_message"@
        },
        _ => "invalid_message"@,
    }
}

/// What a message that keeps its bounds and is allowed leads to.
pub open spec fn performed(
    message: ClientMessage,
    client_id: Seq<char>,
    action: ConnectionAction,
) -> bool {
    match message {
        ClientMessage::Prompt { request_id, text } => action matches ConnectionAction::Prompt {
            request_id: under,
            text: said,
            key,
        } && under == request_id && said == text && key@ == request_key(client_id, request_id@),
        ClientMessage::Interrupt { request_id } => action == (ConnectionAction::Interrupt {
            request_id,
        }),
        ClientMessage::StopSession { request_id } => action == (ConnectionAction::StopSession {
            request_id,
        }),
        ClientMessage::ClearHistory { request_id } => action == (ConnectionAction::ClearHistory {
            request_id,
        }),
        ClientMessage::GetUsage { request_id } => action == (ConnectionAction::GetUsage {
            request_id,
        }),
        ClientMessage::ApprovalResponse { approval_id, decision } => action == (
        ConnectionAction::ResolveApproval { approval_id, decision }),
        ClientMessage::SyncRequest { last_seen_seq } => action == (ConnectionAction::Sync {
            last_seen_seq,
        }),
        ClientMessage::SetConfig { request_id, config_id, value } => action == (
        ConnectionAction::SetConfig { request_id, config_id, value }),
        ClientMessage::ListSessions { request_id, cursor } => action == (
        ConnectionAction::ListSessions { request_id, cursor }),
        ClientMessage::Ping => action == ConnectionAction::Send(ServerMessage::Pong),
        ClientMessage::Detach => action is Close,
        _ => action matches ConnectionAction::Send(answer) && reports(
            answer,
            None,
            "unsupported_message"@,
            "message is not implemented by the session daemon"@,
        ),
    }
}

/// What a message of a live session leads to: a broken bound is refused first,
/// then a missing capability.
pub open spec fn answered(
    message: ClientMessage,
    limits: ProtocolLimits,
    client_id: Seq<char>,
    capabilities: Seq<ClientCapability>,
    verdict: Option<ProtocolValidationError>,
    action: ConnectionAction,
) -> bool {
    &&& first_exceeded(limits.message_checks(message), verdict)
    &&& match verdict {
        Some(error) => action matches ConnectionAction::Send(answer) && reports(
            answer,
            request_id_of(message),
            invalid_code(message, error),
            error.variant_text(),
        ),
        None => match needed(message) {
            Some((capability, text)) => if capabilities.contains(capability) {
                performed(message, client_id, action)
            } else {
                action matches ConnectionAction::Send(answer) && reports(
                    answer,
                    request_id_of(message),
                    "capability_denied"@,
                    text,
                )
            },
            None => performed(message, client_id, action),
        },
    }
}

/// The message that a queued one carries an event in.
pub open spec fn event_seq(message: ServerMessage) -> Option<u64> {
    match message {
        ServerMessage::Event { seq, .. } => Some(seq),
        _ => None,
    }
}

impl Connection {
    pub fn new(
        client_id: String,
        capabilities: Vec<ClientCapability>,
        snapshot_sequence: Option<u64>,
    ) -> (connection: Self)
        ensures
            connection == (Connection {
                client_id,
                capabilities,
                snapshot_sequence,
                prompt_in_flight: false,
                replacement_open: true,
            }),
    {
        Connection {
            client_id,
            capabilities,
            snapshot_sequence,
            prompt_in_flight: false,
            replacement_open: true,
        }
    }

    fn act(&self, message: ClientMessage) -> (action: ConnectionAction)
        ensures
            performed(message, self.client_id@, action),
    {
        match message {
            ClientMessage::Prompt { request_id, text } => {
                let key = client_request_key(self.client_id.as_str(), request_id.as_str());
                ConnectionAction::Prompt { request_id, text, key }
            },
            ClientMessage::Interrupt { request_id } => ConnectionAction::Interrupt { request_id },
            ClientMessage::StopSession { request_id } => ConnectionAction::StopSession {
                request_id,
            },
            ClientMessage::ClearHistory { request_id } => ConnectionAction::ClearHistory {
                request_id,
            },
            ClientMessage::GetUsage { request_id } => ConnectionAction::GetUsage { request_id },
            ClientMessage::ApprovalResponse { approval_id, decision } =>
                ConnectionAction::ResolveApproval { approval_id, decision },
            ClientMessage::SyncRequest { last_seen_seq } => ConnectionAction::Sync {
                last_seen_seq,
            },
            ClientMessage::SetConfig { request_id, config_id, value } =>
                ConnectionAction::SetConfig { request_id, config_id, value },
            ClientMessage::ListSessions { request_id, cursor } => ConnectionAction::ListSessions {
                request_id,
                cursor,
            },
            ClientMessage::Ping => ConnectionAction::Send(ServerMessage::Pong),
            ClientMessage::Detach => ConnectionAction::Close,
            ClientMessage::Attach { .. } | ClientMessage::Resume { .. } => ConnectionAction::Send(
                error_message(
                    None,
                    "unsupported_message",
                    "message is not implemented by the session daemon",
                ),
            ),
        }
    }

    /// Decides on an incoming message; none means that the client is gone.
    pub fn on_message(
        &self,
        message: Option<ClientMessage>,
        stopped: bool,
        limits: &ProtocolLimits,
    ) -> (action: ConnectionAction)
        ensures
            match message {
                None => action is Close,
                Some(message) => if stopped {
                    action is DrainAndRevoke
                } else {
                    exists|verdict: Option<ProtocolValidationError>| #[trigger]
                        answered(
                            message,
                            *limits,
                            self.client_id@,
                            self.capabilities@,
                            verdict,
                            action,
                        )
                },
            },
    {
        let message = match message {
            None => return ConnectionAction::Close,
            Some(message) => message,
        };
        if stopped {
            return ConnectionAction::DrainAndRevoke;
        }
        let ghost given = message;
        let checked = limits.validate_client_message(&message);
        let ghost verdict = checked.err();
        match checked {
            Err(error) => {
                let cursor = match (&message, &error) {
                    (
                        ClientMessage::ListSessions { .. },
                        ProtocolValidationError::FieldTooLarge { field, .. },
                    ) => str_eq(field, "list_sessions.cursor"),
                    _ => false,
                };
                let code = if cursor {
                    "invalid_cursor"
                } else {
                    "invalid_message"
                };
                let text = error.variant_message();
                let action = ConnectionAction::Send(
                    error_message(request_id(&message), code, text.as_str()),
                );
                assert(answered(
                    given,
                    *limits,
                    self.client_id@,
                    self.capabilities@,
                    verdict,
                    action,
                ));
                return action;
            },
            Ok(()) => {},
        }
        let action = match needed_capability(&message) {
            Some((capability, text)) => if has_capability(
                self.capabilities.as_slice(),
                capability,
            ) {
                self.act(message)
            } else {
                ConnectionAction::Send(
                    error_message(request_id(&message), "capability_denied", text),
                )
            },
            None => self.act(message),
        };
        assert(answered(given, *limits, self.client_id@, self.capabilities@, verdict, action));
        action
    }

    /// Claims the connection's one running prompt. `completed` says whether the
    /// request has run before.
    pub fn claim_prompt(&mut self, request_id: &String, completed: bool) -> (result: Result<
        (),
        ServerMessage,
    >)
        ensures
            result is Ok <==> !completed && !old(self).prompt_in_flight,
            *final(self) == (Connection {
                prompt_in_flight: old(self).prompt_in_flight || result is Ok,
                ..*old(self)
            }),
            result matches Err(message) ==> if completed {
                reports(
                    message,
                    Some(*request_id),
                    "duplicate_request"@,
                    "request has already completed"@,
                )
            } else {
                reports(
                    message,
                    Some(*request_id),
                    "session_busy"@,
                    "a prompt is already running"@,
                )
            },
    {
        if completed {
            return Err(
                error_message(
                    Some(request_id.clone()),
                    "duplicate_request",
                    "request has already completed",
                ),
            );
        }
        if self.prompt_in_flight {
            return Err(
                error_message(
                    Some(request_id.clone()),
                    "session_busy",
                    "a prompt is already running",
                ),
            );
        }
        self.prompt_in_flight = true;
        Ok(())
    }

    /// Takes note that the connection's prompt is over.
    pub fn prompt_ended(&mut self)
        ensures
            *final(self) == (Connection { prompt_in_flight: false, ..*old(self) }),
    {
        self.prompt_in_flight = false;
    }

    /// Whether a queued message is an event that the client has already.
    pub open spec fn covered(self, message: ServerMessage) -> bool {
        event_seq(message) matches Some(seq) && self.snapshot_sequence matches Some(caught_up)
            && seq <= caught_up
    }

    pub fn covers(&self, message: &ServerMessage) -> (covered: bool)
        ensures
            covered == self.covered(*message),
    {
        match (message, self.snapshot_sequence) {
            (ServerMessage::Event { seq, .. }, Some(caught_up)) => *seq <= caught_up,
            _ => false,
        }
    }

    /// Decides on a queued message. `lagged` says whether events were lost
    /// because the queue was full.
    pub fn on_outgoing(&self, outgoing: &Option<ServerMessage>, lagged: bool, stopped: bool) -> (
        action: OutgoingAction)
        ensures
            match outgoing {
                None => action is Close,
                Some(message) => if lagged {
                    action matches OutgoingAction::Revoke(told) && revokes(
                        told,
                        RevocationCode::EventQueueLagged,
                        "event queue lagged; reconnect for a full snapshot"@,
                    )
                } else if self.covered(*message) {
                    action is Skip
                } else if stopped {
                    action matches OutgoingAction::ForwardThenRevoke(told) && revokes(
                        told,
                        RevocationCode::SessionStopped,
                        "session stopped"@,
                    )
                } else {
                    action is Forward
                },
            },
    {
        match outgoing {
            None => OutgoingAction::Close,
            Some(message) => if lagged {
                OutgoingAction::Revoke(
                    ServerMessage::Revoked {
                        code: Some(RevocationCode::EventQueueLagged),
                        reason: "event queue lagged; reconnect for a full snapshot".to_owned(),
                    },
                )
            } else if self.covers(message) {
                OutgoingAction::Skip
            } else if stopped {
                OutgoingAction::ForwardThenRevoke(stopped_revocation())
            } else {
                OutgoingAction::Forward
            },
        }
    }

    /// Decides on a change of the attachment's standing. A replaced attachment
    /// is revoked; one whose notifier is gone is not watched any more.
    pub fn on_replacement(&mut self, replaced: bool, closed: bool) -> (told: Option<ServerMessage>)
        ensures
            match told {
                Some(message) => replaced && revokes(
                    message,
                    RevocationCode::AttachmentReplaced,
                    "attachment replaced by reconnect"@,
                ) && *final(self) == *old(self),
                None => !replaced && *final(self) == (Connection {
                    replacement_open: old(self).replacement_open && !closed,
                    ..*old(self)
                }),
            },
    {
        if replaced {
            return Some(
                ServerMessage::Revoked {
                    code: Some(RevocationCode::AttachmentReplaced),
                    reason: "attachment replaced by reconnect".to_owned(),
                },
            );
        }
        if closed {
            self.replacement_open = false;
        }
        None
    }

    /// Answers a request to catch up from a replay that is available. The
    /// client then needs no event up to the last one replayed.
    pub fn replayed(&mut self, events: Vec<(u64, SessionEvent)>, latest_seq: u64) -> (messages: Vec<
        ServerMessage,
    >)
        ensures
            messages@ == event_messages(events@),
            *final(self) == (Connection {
                snapshot_sequence: Some(latest_seq),
                ..*old(self)
            }),
    {
        self.snapshot_sequence = Some(latest_seq);
        replay_messages(events)
    }

    /// Answers a request to catch up with a snapshot.
    pub fn resynced(&mut self, fitted: Result<SessionSnapshot, String>) -> (message: ServerMessage)
        ensures
            match fitted {
                Ok(snapshot) => {
                    &&& message == (ServerMessage::Snapshot { seq: snapshot.seq, state: snapshot })
                    &&& *final(self) == (Connection {
                        snapshot_sequence: Some(snapshot.seq),
                        ..*old(self)
                    })
                },
                Err(text) => reports(message, None, "snapshot_too_large"@, text@)
                    && *final(self) == *old(self),
            },
    {
        match fitted {
            Ok(snapshot) => {
                let seq: u64 = snapshot.seq;
                self.snapshot_sequence = Some(seq);
                ServerMessage::Snapshot { seq, state: snapshot }
            },
            Err(text) => error_message(None, "snapshot_too_large", text.as_str()),
        }
    }
}

/// Whether a message tells what a command came to.
pub open spec fn tells(
    message: ServerMessage,
    request_id: String,
    operation: Seq<char>,
    changed: bool,
) -> bool {
    message matches ServerMessage::CommandResult {
        request_id: under,
        operation: named,
        changed: did,
    } && under == request_id && named@ == operation && did == changed
}

fn command_result(request_id: String, operation: &str, changed: bool) -> (message: ServerMessage)
    ensures
        tells(message, request_id, operation@, changed),
{
    ServerMessage::CommandResult { request_id, operation: operation.to_owned(), changed }
}

/// Answers an interrupt, where the client wants an answer.
pub fn interrupt_reply(request_id: Option<String>, changed: bool) -> (reply: Option<ServerMessage>)
    ensures
        match request_id {
            Some(request_id) => reply matches Some(message) && tells(
                message,
                request_id,
                "interrupt"@,
                changed,
            ),
            None => reply is None,
        },
{
    match request_id {
        Some(request_id) => Some(command_result(request_id, "interrupt", changed)),
        None => None,
    }
}

/// Answers a stop. `stopped` is none where the stored session could not be
/// deleted.
pub fn stop_reply(request_id: String, stopped: Option<bool>) -> (message: ServerMessage)
    ensures
        match stopped {
            Some(changed) => tells(message, request_id, "stop_session"@, changed),
            None => reports(
                message,
                Some(request_id),
                "session_delete_failed"@,
                "persisted session could not be deleted"@,
            ),
        },
{
    match stopped {
        Some(changed) => command_result(request_id, "stop_session", changed),
        None => error_message(
            Some(request_id),
            "session_delete_failed",
            session_delete_error_message(),
        ),
    }
}

/// Answers a request to clear the conversation.
pub fn clear_reply(request_id: String, cleared: Result<bool, HistoryMutationError>) -> (message:
    ServerMessage)
    ensures
        match cleared {
            Ok(changed) => tells(message, request_id, "clear_history"@, changed),
            Err(_) => reports(
                message,
                Some(request_id),
                "session_busy"@,
                "history cannot be cleared while a turn is running"@,
            ),
        },
{
    match cleared {
        Ok(changed) => command_result(request_id, "clear_history", changed),
        Err(_) => error_message(
            Some(request_id),
            "session_busy",
            "history cannot be cleared while a turn is running",
        ),
    }
}

/// Answers a request for the usage, which is none while a turn is active.
pub fn usage_reply(request_id: String, usage: Option<SessionUsage>) -> (message: ServerMessage)
    ensures
        match usage {
            Some(usage) => message == (ServerMessage::Usage { request_id, usage }),
            None => reports(
                message,
                Some(request_id),
                "session_busy"@,
                "usage is available after the active turn"@,
            ),
        },
{
    match usage {
        Some(usage) => ServerMessage::Usage { request_id, usage },
        None => error_message(
            Some(request_id),
            "session_busy",
            "usage is available after the active turn",
        ),
    }
}

/// Answers an approval response: only one that was not taken is answered.
pub fn approval_reply(resolved: Result<(), ApprovalError>) -> (reply: Option<ServerMessage>)
    ensures
        match resolved {
            Ok(()) => reply is None,
            Err(error) => reply matches Some(message) && reports(
                message,
                None,
                approval_error_text(error).0,
                approval_error_text(error).1,
            ),
        },
{
    match resolved {
        Ok(()) => None,
        Err(error) => {
            let (code, text) = approval_error(error);
            Some(error_message(None, code.as_str(), text.as_str()))
        },
    }
}

/// Answers a change of a setting. A change that was made is answered where the
/// client wants an answer.
pub fn config_reply(request_id: Option<String>, applied: Result<(), RuntimeConfigError>) -> (reply:
    Option<ServerMessage>)
    ensures
        match applied {
            Ok(()) => match request_id {
                Some(request_id) => reply matches Some(message) && tells(
                    message,
                    request_id,
                    "set_config"@,
                    true,
                ),
                None => reply is None,
            },
            Err(error) => reply matches Some(message) && reports(
                message,
                request_id,
                config_error_text(error).0,
                config_error_text(error).1,
            ),
        },
{
    match applied {
        Ok(()) => match request_id {
            Some(request_id) => Some(command_result(request_id, "set_config", true)),
            None => None,
        },
        Err(error) => {
            let (code, text) = config_error(&error);
            Some(error_message(request_id, code.as_str(), text.as_str()))
        },
    }
}

/// Answers a request for a page of sessions.
pub fn listing_reply(request_id: String, page: Result<ServerMessage, SessionListPageError>) -> (
    message: ServerMessage)
    ensures
        match page {
            Ok(listed) => message == listed,
            Err(SessionListPageError::InvalidCursor) => reports(
                message,
                Some(request_id),
                "invalid_cursor"@,
                "session-list cursor is invalid or expired"@,
            ),
            Err(SessionListPageError::CapacityExceeded) => reports(
                message,
                Some(request_id),
                "session_list_capacity"@,
                "session listing exceeds the configured snapshot capacity"@,
            ),
            Err(SessionListPageError::TooLarge(text)) => reports(
                message,
                Some(request_id),
                "session_list_too_large"@,
                text@,
            ),
        },
{
    match page {
        Ok(listed) => listed,
        Err(SessionListPageError::InvalidCursor) => error_message(
            Some(request_id),
            "invalid_cursor",
            "session-list cursor is invalid or expired",
        ),
        Err(SessionListPageError::CapacityExceeded) => error_message(
            Some(request_id),
            "session_list_capacity",
            "session listing exceeds the configured snapshot capacity",
        ),
        Err(SessionListPageError::TooLarge(text)) => error_message(
            Some(request_id),
            "session_list_too_large",
            text.as_str(),
        ),
    }
}

/// What a prompt that was not run is answered with.
pub fn prompt_failure(request_id: String, error: SessionPromptError) -> (message: ServerMessage)
    ensures
        reports(
            message,
            Some(request_id),
            prompt_error_text(error).0,
            prompt_error_text(error).1,
        ),
{
    let (code, text) = prompt_error(error);
    ServerMessage::Error { request_id: Some(request_id), code, message: text }
}

/// Whether a prompt may take the session's turn: not in a stopped session, and
/// not where a turn is taken.
pub fn admit_turn<T>(stopped: bool, turn: Option<T>) -> (result: Result<T, SessionPromptError>)
    ensures
        if stopped {
            result == Err::<T, _>(SessionPromptError::Stopped)
        } else {
            match turn {
                Some(turn) => result == Ok::<_, SessionPromptError>(turn),
                None => result == Err::<T, _>(SessionPromptError::Busy),
            }
        },
{
    if stopped {
        return Err(SessionPromptError::Stopped);
    }
    match turn {
        Some(turn) => Ok(turn),
        None => Err(SessionPromptError::Busy),
    }
}

/// A client cannot act beyond what it was granted: whatever it sends, an action
/// that changes or reads the session comes only with the capability for it.
pub proof fn law_actions_need_capabilities(
    message: ClientMessage,
    limits: ProtocolLimits,
    client_id: Seq<char>,
    capabilities: Seq<ClientCapability>,
    verdict: Option<ProtocolValidationError>,
    action: ConnectionAction,
)
    requires
        answered(message, limits, client_id, capabilities, verdict, action),
    ensures
        action is Prompt ==> capabilities.contains(ClientCapability::Prompt),
        action is Interrupt ==> capabilities.contains(ClientCapability::Interrupt),
        action is StopSession ==> capabilities.contains(ClientCapability::Stop),
        action is ClearHistory || action is SetConfig ==> capabilities.contains(
            ClientCapability::Configure,
        ),
        action is GetUsage || action is Sync || action is ListSessions ==> capabilities.contains(
            ClientCapability::Observe,
        ),
{
}

/// An event that a replay brought is not sent again from the queue: once the
/// replay is answered, every event in it is covered.
pub proof fn law_replayed_events_are_covered<H>(
    router: SessionEventRouter<H>,
    connection: Connection,
    events: Seq<(u64, SessionEvent)>,
    last_seen_seq: u64,
    latest_seq: u64,
    at: int,
)
    requires
        router.replays(last_seen_seq, events, latest_seq),
        connection.snapshot_sequence == Some(latest_seq),
        0 <= at < events.len(),
    ensures
        connection.covered(event_messages(events)[at]),
        forall|later: ServerMessage|
            event_seq(later) matches Some(seq) && seq > latest_seq ==> !#[trigger] connection.covered(
                later,
            ),
{
    assert(events[at].0 <= latest_seq);
}

} // verus!
