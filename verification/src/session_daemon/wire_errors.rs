//! What a connection is told when something is refused: codes and texts that
//! carry no private detail.
use vstd::prelude::*;
use vstd::string::*;
use crate::session_core::approval::ApprovalError;
use crate::session_core::event_router::SessionEventError;
use crate::session_core::{RuntimeConfigError, SessionPromptError};
use crate::session_daemon::SessionDaemonError;
use crate::session_protocol::{copy_text, AttachDeniedCode, ClientMessage, ProtocolValidationError};
use crate::text::{
    byte_len, decimal, decimal_string, is_digit, lemma_decimal_digits, lemma_utf8_len_concat,
    lemma_utf8_len_at_least, utf8_len,
};

verus! {

broadcast use vstd::string::group_string_axioms;

impl ProtocolValidationError {
    /// The error in the form that names its variant and fields.
    pub open spec fn variant_text(self) -> Seq<char> {
        match self {
            ProtocolValidationError::FieldTooLarge { field, max_bytes } =>
                "FieldTooLarge { field: \""@ + field@ + "\", max_bytes: "@ + decimal(
                max_bytes as nat,
            ) + " }"@,
            ProtocolValidationError::TooManyCapabilities { max } =>
                "TooManyCapabilities { max: "@ + decimal(max as nat) + " }"@,
        }
    }

    pub fn variant_message(&self) -> (text: String)
        ensures
            text@ == self.variant_text(),
    {
        match self {
            ProtocolValidationError::FieldTooLarge { field, max_bytes } => {
                let mut text = "FieldTooLarge { field: \"".to_owned();
                text.append(field);
                text.append("\", max_bytes: ");
                let bytes = decimal_string(*max_bytes as u64);
                text.append(bytes.as_str());
                text.append(" }");
                text
            },
            ProtocolValidationError::TooManyCapabilities { max } => {
                let mut text = "TooManyCapabilities { max: ".to_owned();
                let count = decimal_string(*max as u64);
                text.append(count.as_str());
                text.append(" }");
                text
            },
        }
    }
}

impl SessionEventError {
    /// The error in the form that names its variant and fields.
    pub open spec fn variant_text(self) -> Seq<char> {
        match self {
            SessionEventError::SequenceExhausted => "SequenceExhausted"@,
            SessionEventError::HandlerPanicked => "HandlerPanicked"@,
            SessionEventError::HandlerLimitReached { max } => "HandlerLimitReached { max: "@
                + decimal(max as nat) + " }"@,
        }
    }

    pub fn variant_message(&self) -> (text: String)
        ensures
            text@ == self.variant_text(),
    {
        match self {
            SessionEventError::SequenceExhausted => "SequenceExhausted".to_owned(),
            SessionEventError::HandlerPanicked => "HandlerPanicked".to_owned(),
            SessionEventError::HandlerLimitReached { max } => {
                let mut text = "HandlerLimitReached { max: ".to_owned();
                let count = decimal_string(*max as u64);
                text.append(count.as_str());
                text.append(" }");
                text
            },
        }
    }
}

pub open spec fn daemon_error_text(error: SessionDaemonError) -> Seq<char> {
    match error {
        SessionDaemonError::DuplicateSession(_) => "session is already active"@,
        SessionDaemonError::SessionLimitReached { .. } => "session limit reached"@,
        SessionDaemonError::SessionNotFound(_) => "session was not found"@,
        SessionDaemonError::SessionStopped(_) => "session has stopped"@,
        SessionDaemonError::DuplicateClient(_) => "client is already attached"@,
        SessionDaemonError::ClientLimitReached { .. } => "client limit reached"@,
        SessionDaemonError::EventSubscription(_) => "session event subscription failed"@,
        SessionDaemonError::FactoryUnavailable => "session creation is unavailable"@,
        SessionDaemonError::OpenFailed(_) => "session could not be opened"@,
        SessionDaemonError::ShuttingDown => "session daemon is shutting down"@,
    }
}

pub fn session_daemon_error_message(error: &SessionDaemonError) -> (text: String)
    ensures
        text@ == daemon_error_text(*error),
{
    match error {
        SessionDaemonError::DuplicateSession(_) => "session is already active".to_owned(),
        SessionDaemonError::SessionLimitReached { .. } => "session limit reached".to_owned(),
        SessionDaemonError::SessionNotFound(_) => "session was not found".to_owned(),
        SessionDaemonError::SessionStopped(_) => "session has stopped".to_owned(),
        SessionDaemonError::DuplicateClient(_) => "client is already attached".to_owned(),
        SessionDaemonError::ClientLimitReached { .. } => "client limit reached".to_owned(),
        SessionDaemonError::EventSubscription(_) =>
            "session event subscription failed".to_owned(),
        SessionDaemonError::FactoryUnavailable => "session creation is unavailable".to_owned(),
        SessionDaemonError::OpenFailed(_) => "session could not be opened".to_owned(),
        SessionDaemonError::ShuttingDown => "session daemon is shutting down".to_owned(),
    }
}

pub fn session_delete_error_message() -> (text: &'static str)
    ensures
        text@ == "persisted session could not be deleted"@,
{
    "persisted session could not be deleted"
}

pub open spec fn denied_code(error: SessionDaemonError) -> AttachDeniedCode {
    match error {
        SessionDaemonError::DuplicateSession(_) => AttachDeniedCode::SessionAlreadyActive,
        SessionDaemonError::SessionLimitReached { .. } => AttachDeniedCode::SessionLimitReached,
        SessionDaemonError::SessionNotFound(_) => AttachDeniedCode::SessionNotFound,
        SessionDaemonError::SessionStopped(_) => AttachDeniedCode::SessionStopped,
        SessionDaemonError::DuplicateClient(_) => AttachDeniedCode::DuplicateClient,
        SessionDaemonError::ClientLimitReached { .. } => AttachDeniedCode::ClientLimitReached,
        SessionDaemonError::EventSubscription(_) => AttachDeniedCode::EventSubscriptionFailed,
        SessionDaemonError::FactoryUnavailable => AttachDeniedCode::FactoryUnavailable,
        SessionDaemonError::OpenFailed(_) => AttachDeniedCode::SessionOpenFailed,
        SessionDaemonError::ShuttingDown => AttachDeniedCode::DaemonShuttingDown,
    }
}

pub fn session_daemon_error_code(error: &SessionDaemonError) -> (code: AttachDeniedCode)
    ensures
        code == denied_code(*error),
{
    match error {
        SessionDaemonError::DuplicateSession(_) => AttachDeniedCode::SessionAlreadyActive,
        SessionDaemonError::SessionLimitReached { .. } => AttachDeniedCode::SessionLimitReached,
        SessionDaemonError::SessionNotFound(_) => AttachDeniedCode::SessionNotFound,
        SessionDaemonError::SessionStopped(_) => AttachDeniedCode::SessionStopped,
        SessionDaemonError::DuplicateClient(_) => AttachDeniedCode::DuplicateClient,
        SessionDaemonError::ClientLimitReached { .. } => AttachDeniedCode::ClientLimitReached,
        SessionDaemonError::EventSubscription(_) => AttachDeniedCode::EventSubscriptionFailed,
        SessionDaemonError::FactoryUnavailable => AttachDeniedCode::FactoryUnavailable,
        SessionDaemonError::OpenFailed(_) => AttachDeniedCode::SessionOpenFailed,
        SessionDaemonError::ShuttingDown => AttachDeniedCode::DaemonShuttingDown,
    }
}

/// The code and text of a prompt that was not run.
pub open spec fn prompt_error_text(error: SessionPromptError) -> (Seq<char>, Seq<char>) {
    match error {
        SessionPromptError::Busy => ("session_busy"@, "a prompt is already running"@),
        SessionPromptError::Stopped => ("session_stopped"@, "the session has stopped"@),
        SessionPromptError::DuplicateRequest(request_id) => (
            "duplicate_request"@,
            "request '"@ + request_id@ + "' has already completed"@,
        ),
        SessionPromptError::Model(message) => ("model_error"@, message@),
    }
}

pub fn prompt_error(error: SessionPromptError) -> (told: (String, String))
    ensures
        told.0@ == prompt_error_text(error).0,
        told.1@ == prompt_error_text(error).1,
{
    match error {
        SessionPromptError::Busy => (
            "session_busy".to_owned(),
            "a prompt is already running".to_owned(),
        ),
        SessionPromptError::Stopped => (
            "session_stopped".to_owned(),
            "the session has stopped".to_owned(),
        ),
        SessionPromptError::DuplicateRequest(request_id) => {
            let mut text = "request '".to_owned();
            text.append(request_id.as_str());
            text.append("' has already completed");
            ("duplicate_request".to_owned(), text)
        },
        SessionPromptError::Model(message) => ("model_error".to_owned(), message),
    }
}

/// The code and text of an approval response that was not taken.
pub open spec fn approval_error_text(error: ApprovalError) -> (Seq<char>, Seq<char>) {
    match error {
        ApprovalError::AlreadyResolved => (
            "approval_already_resolved"@,
            "approval was already resolved"@,
        ),
        ApprovalError::MissingCapability(_) => (
            "capability_denied"@,
            "approval capability was not granted"@,
        ),
        _ => ("approval_rejected"@, "approval response was rejected"@),
    }
}

pub fn approval_error(error: ApprovalError) -> (told: (String, String))
    ensures
        told.0@ == approval_error_text(error).0,
        told.1@ == approval_error_text(error).1,
{
    match error {
        ApprovalError::AlreadyResolved => (
            "approval_already_resolved".to_owned(),
            "approval was already resolved".to_owned(),
        ),
        ApprovalError::MissingCapability(_) => (
            "capability_denied".to_owned(),
            "approval capability was not granted".to_owned(),
        ),
        ApprovalError::NotPending | ApprovalError::AllowAlwaysUnavailable
        | ApprovalError::IdExhausted => (
            "approval_rejected".to_owned(),
            "approval response was rejected".to_owned(),
        ),
    }
}

/// The code and text of a setting that was not changed.
pub open spec fn config_error_text(error: RuntimeConfigError) -> (Seq<char>, Seq<char>) {
    match error {
        RuntimeConfigError::Busy => (
            "config_locked"@,
            "configuration cannot change while a turn is running"@,
        ),
        RuntimeConfigError::UnknownOption => (
            "unknown_config"@,
            "runtime configuration option is unknown"@,
        ),
        RuntimeConfigError::InvalidValue => (
            "invalid_config"@,
            "runtime configuration value is invalid"@,
        ),
        RuntimeConfigError::UnsupportedOption => (
            "unsupported_config"@,
            "runtime configuration option is not implemented"@,
        ),
        RuntimeConfigError::ApplyFailed(_) => (
            "config_apply_failed"@,
            "runtime configuration could not be applied"@,
        ),
    }
}

pub fn config_error(error: &RuntimeConfigError) -> (told: (String, String))
    ensures
        told.0@ == config_error_text(*error).0,
        told.1@ == config_error_text(*error).1,
{
    match error {
        RuntimeConfigError::Busy => (
            "config_locked".to_owned(),
            "configuration cannot change while a turn is running".to_owned(),
        ),
        RuntimeConfigError::UnknownOption => (
            "unknown_config".to_owned(),
            "runtime configuration option is unknown".to_owned(),
        ),
        RuntimeConfigError::InvalidValue => (
            "invalid_config".to_owned(),
            "runtime configuration value is invalid".to_owned(),
        ),
        RuntimeConfigError::UnsupportedOption => (
            "unsupported_config".to_owned(),
            "runtime configuration option is not implemented".to_owned(),
        ),
        RuntimeConfigError::ApplyFailed(_) => (
            "config_apply_failed".to_owned(),
            "runtime configuration could not be applied".to_owned(),
        ),
    }
}

/// The id under which a client wants its answer.
pub open spec fn request_id_of(message: ClientMessage) -> Option<String> {
    match message {
        ClientMessage::Prompt { request_id, .. } => Some(request_id),
        ClientMessage::Interrupt { request_id } => request_id,
        ClientMessage::StopSession { request_id } => Some(request_id),
        ClientMessage::ClearHistory { request_id } => Some(request_id),
        ClientMessage::GetUsage { request_id } => Some(request_id),
        ClientMessage::ListSessions { request_id, .. } => Some(request_id),
        ClientMessage::SetConfig { request_id, .. } => request_id,
        _ => None,
    }
}

pub fn request_id(message: &ClientMessage) -> (id: Option<String>)
    ensures
        id == request_id_of(*message),
{
    match message {
        ClientMessage::Prompt { request_id, .. } => Some(request_id.clone()),
        ClientMessage::Interrupt { request_id } => copy_text(request_id),
        ClientMessage::StopSession { request_id } => Some(request_id.clone()),
        ClientMessage::ClearHistory { request_id } => Some(request_id.clone()),
        ClientMessage::GetUsage { request_id } => Some(request_id.clone()),
        ClientMessage::ListSessions { request_id, .. } => Some(request_id.clone()),
        ClientMessage::SetConfig { request_id, .. } => copy_text(request_id),
        ClientMessage::Attach { .. } | ClientMessage::Resume { .. }
        | ClientMessage::ApprovalResponse { .. } | ClientMessage::SyncRequest { .. }
        | ClientMessage::Ping | ClientMessage::Detach => None,
    }
}

/// The key under which a client's request is remembered: the length of the
/// client's id, a colon, the client's id and the request's id.
pub open spec fn request_key(client_id: Seq<char>, request_id: Seq<char>) -> Seq<char> {
    decimal(utf8_len(client_id)) + ":"@ + client_id + request_id
}

pub fn client_request_key(client_id: &str, request_id: &str) -> (key: String)
    ensures
        key@ == request_key(client_id@, request_id@),
{
    let bytes: usize = byte_len(client_id);
    let mut key = decimal_string(bytes as u64);
    key.append(":");
    key.append(client_id);
    key.append(request_id);
    key
}

/// Two requests share a key only where both the client and the request are the
/// same.
pub proof fn law_request_keys_are_unambiguous(
    client_a: Seq<char>,
    request_a: Seq<char>,
    client_b: Seq<char>,
    request_b: Seq<char>,
)
    requires
        request_key(client_a, request_a) == request_key(client_b, request_b),
    ensures
        client_a == client_b,
        request_a == request_b,
{
    reveal_strlit(":");
    let digits_a = decimal(utf8_len(client_a));
    let digits_b = decimal(utf8_len(client_b));
    lemma_decimal_digits(utf8_len(client_a));
    lemma_decimal_digits(utf8_len(client_b));
    let key = request_key(client_a, request_a);
    assert(key[digits_a.len() as int] == ':');
    assert(request_key(client_b, request_b)[digits_b.len() as int] == ':');
    if digits_a.len() < digits_b.len() {
        assert(request_key(client_b, request_b)[digits_a.len() as int]
            == digits_b[digits_a.len() as int]);
        assert(is_digit(digits_b[digits_a.len() as int]));
    }
    if digits_b.len() < digits_a.len() {
        assert(key[digits_b.len() as int] == digits_a[digits_b.len() as int]);
        assert(is_digit(digits_a[digits_b.len() as int]));
    }
    assert(digits_a =~= digits_b) by {
        assert forall|i: int| 0 <= i < digits_a.len() implies digits_a[i] == digits_b[i] by {
            assert(key[i] == digits_a[i]);
            assert(request_key(client_b, request_b)[i] == digits_b[i]);
        }
    }
    let from = digits_a.len() + 1;
    assert(key.skip(from as int) =~= client_a + request_a);
    assert(request_key(client_b, request_b).skip(from as int) =~= client_b + request_b);
    lemma_prefix_by_bytes(client_a, request_a, client_b, request_b);
}

/// Of one text, a prefix is settled by its length in bytes.
proof fn lemma_prefix_by_bytes(
    prefix_a: Seq<char>,
    rest_a: Seq<char>,
    prefix_b: Seq<char>,
    rest_b: Seq<char>,
)
    requires
        prefix_a + rest_a == prefix_b + rest_b,
        utf8_len(prefix_a) == utf8_len(prefix_b),
    ensures
        prefix_a == prefix_b,
        rest_a == rest_b,
{
    let whole = prefix_a + rest_a;
    if prefix_a.len() < prefix_b.len() {
        let middle = prefix_b.skip(prefix_a.len() as int);
        assert(prefix_b =~= prefix_a + middle) by {
            assert forall|i: int| 0 <= i < prefix_a.len() implies prefix_b[i] == prefix_a[i] by {
                assert(whole[i] == prefix_a[i]);
                assert((prefix_b + rest_b)[i] == prefix_b[i]);
            }
        }
        lemma_utf8_len_concat(prefix_a, middle);
        lemma_utf8_len_at_least(middle);
    }
    if prefix_b.len() < prefix_a.len() {
        let middle = prefix_a.skip(prefix_b.len() as int);
        assert(prefix_a =~= prefix_b + middle) by {
            assert forall|i: int| 0 <= i < prefix_b.len() implies prefix_a[i] == prefix_b[i] by {
                assert(whole[i] == prefix_a[i]);
                assert((prefix_b + rest_b)[i] == prefix_b[i]);
            }
        }
        lemma_utf8_len_concat(prefix_b, middle);
        lemma_utf8_len_at_least(middle);
    }
    assert(prefix_a =~= whole.take(prefix_a.len() as int));
    assert(prefix_b =~= (prefix_b + rest_b).take(prefix_b.len() as int));
    assert(rest_a =~= whole.skip(prefix_a.len() as int));
    assert(rest_b =~= (prefix_b + rest_b).skip(prefix_b.len() as int));
}

/// A failed open tells the client nothing of its cause: whatever it was, the
/// code and the text are the same.
pub proof fn law_open_failures_tell_no_cause(
    a: crate::session_daemon::SessionOpenError,
    b: crate::session_daemon::SessionOpenError,
)
    ensures
        daemon_error_text(SessionDaemonError::OpenFailed(a)) == daemon_error_text(
            SessionDaemonError::OpenFailed(b),
        ),
        denied_code(SessionDaemonError::OpenFailed(a)) == denied_code(
            SessionDaemonError::OpenFailed(b),
        ),
{
}

} // verus!
