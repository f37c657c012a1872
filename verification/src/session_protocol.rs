//! Wire-level session vocabulary and the rules that untrusted messages must meet.
use vstd::prelude::*;
use crate::text::{byte_len, decimal, decimal_string, utf8_len};

pub mod bounds;

verus! {

broadcast use vstd::string::group_string_axioms;

pub const PROTOCOL_VERSION: u16 = 2;

#[derive(Debug, Clone, Copy, PartialEq, Eq, Hash, Structural)]
pub enum ClientCapability {
    Observe,
    Prompt,
    Configure,
    Interrupt,
    Stop,
    ApproveOnce,
    ApproveAlways,
}

/// Whether `required` is among the granted capabilities. Holding one capability implies no other.
pub fn has_capability(granted: &[ClientCapability], required: ClientCapability) -> (held: bool)
    ensures
        held == granted@.contains(required),
{
    let mut i: usize = 0;
    while i < granted.len()
        invariant
            i <= granted@.len(),
            forall|j: int| 0 <= j < i ==> granted@[j] != required,
        decreases granted@.len() - i,
    {
        if granted[i] == required {
            assert(granted@[i as int] == required);
            return true;
        }
        i = i + 1;
    }
    false
}

#[derive(Debug, Clone, Copy, PartialEq, Eq, Structural)]
pub enum ClientKind {
    Terminal,
    Android,
    Headless,
    Browser,
    Agent,
}

#[derive(Debug, PartialEq, Eq)]
pub struct ClientInfo {
    pub id: String,
    pub kind: ClientKind,
    pub label: String,
}

impl Clone for ClientInfo {
    fn clone(&self) -> (copy: Self)
        ensures
            copy == *self,
    {
        ClientInfo { id: self.id.clone(), kind: self.kind, label: self.label.clone() }
    }
}

#[derive(Debug, Clone, Copy, PartialEq, Eq, Structural)]
pub enum ApprovalDecision {
    AllowOnce,
    AllowAlways,
    Deny,
}

#[derive(Debug, Clone, PartialEq, Eq)]
pub enum ClientMessage {
    Attach {
        protocol_version: u16,
        session_id: Option<String>,
        ticket: Option<String>,
        client: ClientInfo,
        requested_capabilities: Vec<ClientCapability>,
    },
    Resume {
        protocol_version: u16,
        session_id: String,
        last_seen_seq: u64,
        ticket: Option<String>,
        client: ClientInfo,
        requested_capabilities: Vec<ClientCapability>,
    },
    Prompt { request_id: String, text: String },
    ApprovalResponse { approval_id: String, decision: ApprovalDecision },
    Interrupt { request_id: Option<String> },
    StopSession { request_id: String },
    ClearHistory { request_id: String },
    GetUsage { request_id: String },
    ListSessions { request_id: String, cursor: Option<String> },
    SyncRequest { last_seen_seq: u64 },
    SetConfig { request_id: Option<String>, config_id: String, value: RuntimeValue },
    Ping,
    Detach,
}

#[derive(Debug, Clone, Copy, PartialEq, Eq, Structural)]
pub enum AttachDeniedCode {
    InvalidMessage,
    ProtocolVersion,
    SessionAlreadyActive,
    SessionLimitReached,
    SessionNotFound,
    SessionStopped,
    DuplicateClient,
    ClientLimitReached,
    EventSubscriptionFailed,
    FactoryUnavailable,
    SessionOpenFailed,
    DaemonShuttingDown,
    SnapshotTooLarge,
}

#[derive(Debug, Clone, Copy, PartialEq, Eq, Structural)]
pub enum RevocationCode {
    SessionStopped,
    EventQueueLagged,
    AttachmentReplaced,
}

#[derive(Debug, Clone, PartialEq, Eq)]
pub enum ServerMessage {
    AttachOk {
        protocol_version: u16,
        session_id: String,
        granted_capabilities: Vec<ClientCapability>,
        seq: u64,
    },
    AttachDenied { code: Option<AttachDeniedCode>, reason: String },
    Event { seq: u64, event: SessionEvent },
    Snapshot { seq: u64, state: SessionSnapshot },
    Error { request_id: Option<String>, code: String, message: String },
    CommandResult { request_id: String, operation: String, changed: bool },
    Usage { request_id: String, usage: SessionUsage },
    SessionList {
        request_id: String,
        workspace: Option<SessionWorkspace>,
        sessions: Vec<SessionListEntry>,
        next_cursor: Option<String>,
        incomplete: bool,
    },
    Pong,
    Revoked { code: Option<RevocationCode>, reason: String },
}

#[derive(Debug, Clone, Copy, PartialEq, Eq, Structural)]
pub enum TurnStatus {
    Idle,
    Running,
    WaitingForApproval,
    Cancelling,
    /// Terminal state for a turn that was cancelled, as distinct from `Idle`
    /// for one that ran to completion. Without it both outcomes end the stream
    /// on `Idle` and a replaying consumer cannot tell them apart.
    Cancelled,
}

#[derive(Debug, Clone, Copy, PartialEq, Eq, Structural)]
pub enum TranscriptRole {
    User,
    Assistant,
    System,
    Thought,
}

#[derive(Debug, PartialEq, Eq)]
pub struct TranscriptEntry {
    pub id: u64,
    pub role: TranscriptRole,
    pub text: String,
    pub outcome: Option<AssistantOutcome>,
}

impl Clone for TranscriptEntry {
    fn clone(&self) -> (copy: Self)
        ensures
            copy == *self,
    {
        TranscriptEntry {
            id: self.id,
            role: self.role,
            text: self.text.clone(),
            outcome: match &self.outcome {
                Some(outcome) => Some(outcome.clone()),
                None => None,
            },
        }
    }
}

#[derive(Debug, PartialEq, Eq)]
pub struct SessionListEntry {
    pub session_id: String,
    pub active: bool,
    pub attached_clients: usize,
    pub model: Option<String>,
    pub updated_at_unix_ms: Option<u64>,
    pub preview: Option<String>,
    pub message_count: Option<usize>,
    pub turn_status: Option<TurnStatus>,
}

impl Clone for SessionListEntry {
    fn clone(&self) -> (copy: Self)
        ensures
            copy == *self,
    {
        SessionListEntry {
            session_id: self.session_id.clone(),
            active: self.active,
            attached_clients: self.attached_clients,
            model: copy_text(&self.model),
            updated_at_unix_ms: self.updated_at_unix_ms,
            preview: copy_text(&self.preview),
            message_count: self.message_count,
            turn_status: self.turn_status,
        }
    }
}

/// A copy of an optional text.
pub fn copy_text(text: &Option<String>) -> (copy: Option<String>)
    ensures
        copy == *text,
{
    match text {
        Some(text) => Some(text.clone()),
        None => None,
    }
}

/// Names a workspace without disclosing its path.
#[derive(Debug, PartialEq, Eq)]
pub struct SessionWorkspace {
    pub id: String,
    pub label: String,
}

impl Clone for SessionWorkspace {
    fn clone(&self) -> (copy: Self)
        ensures
            copy == *self,
    {
        SessionWorkspace { id: self.id.clone(), label: self.label.clone() }
    }
}

/// Cumulative accounting of one session.
#[derive(Debug, Clone, Copy, PartialEq, Eq, Structural)]
pub struct SessionUsage {
    pub input: u64,
    pub output: u64,
    pub reasoning_output: u64,
    pub thinking_bytes: u64,
    pub cache_read: u64,
    pub cache_write: u64,
    pub cost_usd_micros: u64,
}

#[derive(Debug, Clone, Copy, PartialEq, Eq, Structural)]
pub enum ToolCallStateStatus {
    Pending,
    InProgress,
    Completed,
    Failed,
    Cancelled,
}

impl ToolCallStateStatus {
    /// Whether no further update of the call can follow.
    pub open spec fn terminal(self) -> bool {
        self is Completed || self is Failed || self is Cancelled
    }

    pub fn is_terminal(self) -> (terminal: bool)
        ensures
            terminal == self.terminal(),
    {
        matches!(
            self,
            ToolCallStateStatus::Completed
                | ToolCallStateStatus::Failed
                | ToolCallStateStatus::Cancelled
        )
    }
}

#[derive(Debug, PartialEq, Eq)]
pub struct ToolCallState {
    pub id: String,
    pub name: String,
    pub title: String,
    pub status: ToolCallStateStatus,
    pub output: Option<String>,
}

impl Clone for ToolCallState {
    fn clone(&self) -> (copy: Self)
        ensures
            copy == *self,
    {
        ToolCallState {
            id: self.id.clone(),
            name: self.name.clone(),
            title: self.title.clone(),
            status: self.status,
            output: copy_text(&self.output),
        }
    }
}

#[derive(Debug, PartialEq, Eq)]
pub struct ApprovalRequest {
    pub id: String,
    pub tool_call_id: String,
    pub tool: String,
    pub detail: String,
    pub allow_always_available: bool,
    /// When the approval lapses unless a capable client attaches first.
    pub ineligible_deadline_unix_ms: Option<u64>,
    /// The deadline does not advance while a capable client is attached.
    pub deadline_paused: bool,
}

impl Clone for ApprovalRequest {
    fn clone(&self) -> (copy: Self)
        ensures
            copy == *self,
    {
        ApprovalRequest {
            id: self.id.clone(),
            tool_call_id: self.tool_call_id.clone(),
            tool: self.tool.clone(),
            detail: self.detail.clone(),
            allow_always_available: self.allow_always_available,
            ineligible_deadline_unix_ms: self.ineligible_deadline_unix_ms,
            deadline_paused: self.deadline_paused,
        }
    }
}

impl ApprovalRequest {
    /// Build a request whose wire id will be assigned by `ApprovalBroker`.
    pub fn unassigned(
        tool_call_id: &str,
        tool: &str,
        detail: &str,
        allow_always_available: bool,
    ) -> (request: Self)
        ensures
            request.id@ == Seq::<char>::empty(),
            request.tool_call_id@ == tool_call_id@,
            request.tool@ == tool@,
            request.detail@ == detail@,
            request.allow_always_available == allow_always_available,
            request.ineligible_deadline_unix_ms is None,
            !request.deadline_paused,
    {
        ApprovalRequest {
            id: String::new(),
            tool_call_id: tool_call_id.to_owned(),
            tool: tool.to_owned(),
            detail: detail.to_owned(),
            allow_always_available,
            ineligible_deadline_unix_ms: None,
            deadline_paused: false,
        }
    }
}

#[derive(Debug, PartialEq, Eq)]
pub enum AssistantOutcome {
    Completed,
    Errored {
        context_overflow: bool,
        /// Privacy-safe diagnostic text suitable for every client projection.
        message: String,
    },
    Refused,
    Aborted,
    MaxTokens,
}

impl Clone for AssistantOutcome {
    fn clone(&self) -> (copy: Self)
        ensures
            copy == *self,
    {
        match self {
            AssistantOutcome::Completed => AssistantOutcome::Completed,
            AssistantOutcome::Errored { context_overflow, message } => AssistantOutcome::Errored {
                context_overflow: *context_overflow,
                message: message.clone(),
            },
            AssistantOutcome::Refused => AssistantOutcome::Refused,
            AssistantOutcome::Aborted => AssistantOutcome::Aborted,
            AssistantOutcome::MaxTokens => AssistantOutcome::MaxTokens,
        }
    }
}

#[derive(Debug, PartialEq, Eq)]
pub enum SessionEvent {
    UserMessage { text: String, request_id: Option<String> },
    AssistantDelta { text: String },
    AssistantDone { outcome: AssistantOutcome },
    ThoughtDelta { text: String },
    ToolCallStarted { id: String, name: String, title: String, input_summary: Option<String> },
    ToolCallUpdated { id: String, status: ToolCallStateStatus },
    ToolCallFinished { id: String, status: ToolCallStateStatus, output: String },
    ApprovalRequested { request: ApprovalRequest },
    ApprovalResolved { approval_id: String, decision: ApprovalDecision, resolved_by: String },
    ApprovalDeadlineChanged {
        approval_id: String,
        ineligible_deadline_unix_ms: u64,
        paused: bool,
    },
    RuntimeOptionsChanged { options: Vec<RuntimeOption> },
    ContextUsageChanged { usage: ContextUsage },
    TurnStatusChanged { status: TurnStatus },
    ConversationCleared,
    SessionEnding { reason: String },
}

/// Whether two events are the same.
pub open spec fn same_event(a: SessionEvent, b: SessionEvent) -> bool {
    match (a, b) {
        (
            SessionEvent::RuntimeOptionsChanged { options: a },
            SessionEvent::RuntimeOptionsChanged { options: b },
        ) => same_options(a@, b@),
        (SessionEvent::RuntimeOptionsChanged { .. }, _) => false,
        (_, SessionEvent::RuntimeOptionsChanged { .. }) => false,
        _ => a == b,
    }
}

/// What is the same as the same event is the same.
pub proof fn lemma_same_event_follows(a: SessionEvent, b: SessionEvent, c: SessionEvent)
    requires
        same_event(a, b),
        same_event(b, c),
    ensures
        same_event(a, c),
{
    if let (
        SessionEvent::RuntimeOptionsChanged { options: x },
        SessionEvent::RuntimeOptionsChanged { options: y },
        SessionEvent::RuntimeOptionsChanged { options: z },
    ) = (a, b, c) {
        assert forall|i: int| 0 <= i < x@.len() implies same_option(#[trigger] x@[i], z@[i]) by {
            assert(same_option(x@[i], y@[i]));
            assert(same_option(y@[i], z@[i]));
        }
    }
}

impl Clone for SessionEvent {
    fn clone(&self) -> (copy: Self)
        ensures
            same_event(*self, copy),
    {
        match self {
            SessionEvent::UserMessage { text, request_id } => SessionEvent::UserMessage {
                text: text.clone(),
                request_id: copy_text(request_id),
            },
            SessionEvent::AssistantDelta { text } => SessionEvent::AssistantDelta {
                text: text.clone(),
            },
            SessionEvent::AssistantDone { outcome } => SessionEvent::AssistantDone {
                outcome: outcome.clone(),
            },
            SessionEvent::ThoughtDelta { text } => SessionEvent::ThoughtDelta {
                text: text.clone(),
            },
            SessionEvent::ToolCallStarted { id, name, title, input_summary } =>
                SessionEvent::ToolCallStarted {
                id: id.clone(),
                name: name.clone(),
                title: title.clone(),
                input_summary: copy_text(input_summary),
            },
            SessionEvent::ToolCallUpdated { id, status } => SessionEvent::ToolCallUpdated {
                id: id.clone(),
                status: *status,
            },
            SessionEvent::ToolCallFinished { id, status, output } =>
                SessionEvent::ToolCallFinished {
                id: id.clone(),
                status: *status,
                output: output.clone(),
            },
            SessionEvent::ApprovalRequested { request } => SessionEvent::ApprovalRequested {
                request: request.clone(),
            },
            SessionEvent::ApprovalResolved { approval_id, decision, resolved_by } =>
                SessionEvent::ApprovalResolved {
                approval_id: approval_id.clone(),
                decision: *decision,
                resolved_by: resolved_by.clone(),
            },
            SessionEvent::ApprovalDeadlineChanged {
                approval_id,
                ineligible_deadline_unix_ms,
                paused,
            } => SessionEvent::ApprovalDeadlineChanged {
                approval_id: approval_id.clone(),
                ineligible_deadline_unix_ms: *ineligible_deadline_unix_ms,
                paused: *paused,
            },
            SessionEvent::RuntimeOptionsChanged { options } =>
                SessionEvent::RuntimeOptionsChanged { options: copy_options(options.as_slice()) },
            SessionEvent::ContextUsageChanged { usage } => SessionEvent::ContextUsageChanged {
                usage: *usage,
            },
            SessionEvent::TurnStatusChanged { status } => SessionEvent::TurnStatusChanged {
                status: *status,
            },
            SessionEvent::ConversationCleared => SessionEvent::ConversationCleared,
            SessionEvent::SessionEnding { reason } => SessionEvent::SessionEnding {
                reason: reason.clone(),
            },
        }
    }
}

/// One entry of the ordered session timeline.
#[derive(Debug, PartialEq, Eq)]
pub struct TimelineEntry {
    pub id: u64,
    pub order: u64,
    pub entry: TimelineEntryKind,
}

#[derive(Debug, PartialEq, Eq)]
pub enum TimelineEntryKind {
    User { text: String, content_truncated: bool },
    Assistant { text: String, content_truncated: bool },
    Thought { text: String, content_truncated: bool },
    System { text: String, content_truncated: bool },
    Tool {
        tool_call_id: String,
        name: String,
        title: String,
        status: ToolCallStateStatus,
        output: Option<String>,
        content_truncated: bool,
    },
    Outcome { outcome: AssistantOutcome },
}

impl Clone for TimelineEntryKind {
    fn clone(&self) -> (copy: Self)
        ensures
            copy == *self,
    {
        match self {
            TimelineEntryKind::User { text, content_truncated } => TimelineEntryKind::User {
                text: text.clone(),
                content_truncated: *content_truncated,
            },
            TimelineEntryKind::Assistant { text, content_truncated } =>
                TimelineEntryKind::Assistant {
                text: text.clone(),
                content_truncated: *content_truncated,
            },
            TimelineEntryKind::Thought { text, content_truncated } => TimelineEntryKind::Thought {
                text: text.clone(),
                content_truncated: *content_truncated,
            },
            TimelineEntryKind::System { text, content_truncated } => TimelineEntryKind::System {
                text: text.clone(),
                content_truncated: *content_truncated,
            },
            TimelineEntryKind::Tool {
                tool_call_id,
                name,
                title,
                status,
                output,
                content_truncated,
            } => TimelineEntryKind::Tool {
                tool_call_id: tool_call_id.clone(),
                name: name.clone(),
                title: title.clone(),
                status: *status,
                output: copy_text(output),
                content_truncated: *content_truncated,
            },
            TimelineEntryKind::Outcome { outcome } => TimelineEntryKind::Outcome {
                outcome: outcome.clone(),
            },
        }
    }
}

impl Clone for TimelineEntry {
    fn clone(&self) -> (copy: Self)
        ensures
            copy == *self,
    {
        TimelineEntry { id: self.id, order: self.order, entry: self.entry.clone() }
    }
}

/// A tool call that has not reached a terminal status.
#[derive(Debug, PartialEq, Eq)]
pub struct ActiveToolState {
    pub occurrence_id: u64,
    pub tool_call_id: String,
    pub name: String,
    pub title: String,
    pub status: ToolCallStateStatus,
    pub content_truncated: bool,
}

impl Clone for ActiveToolState {
    fn clone(&self) -> (copy: Self)
        ensures
            copy == *self,
    {
        ActiveToolState {
            occurrence_id: self.occurrence_id,
            tool_call_id: self.tool_call_id.clone(),
            name: self.name.clone(),
            title: self.title.clone(),
            status: self.status,
            content_truncated: self.content_truncated,
        }
    }
}

/// How much of a session's history a timeline still holds.
#[derive(Debug, Clone, Copy, PartialEq, Eq, Structural)]
pub struct HistoryWindow {
    pub truncated_before: u64,
    pub retained: usize,
    pub total: Option<u64>,
}

impl HistoryWindow {
    /// The window of a history of which nothing was dropped.
    pub open spec fn whole(retained: usize) -> HistoryWindow {
        HistoryWindow { truncated_before: 0, retained, total: Some(retained as u64) }
    }

    pub fn complete(retained: usize) -> (window: Self)
        ensures
            window == HistoryWindow::whole(retained),
    {
        HistoryWindow { truncated_before: 0, retained, total: Some(retained as u64) }
    }
}

/// The state of a session with its history as an ordered timeline.
#[derive(Debug, PartialEq, Eq)]
pub struct SessionTimelineSnapshot {
    pub session_id: String,
    pub seq: u64,
    pub turn_status: TurnStatus,
    pub timeline: Vec<TimelineEntry>,
    pub active_tools: Vec<ActiveToolState>,
    pub history_window: HistoryWindow,
    pub pending_approvals: Vec<ApprovalRequest>,
    pub runtime_options: Vec<RuntimeOption>,
    pub context_usage: Option<ContextUsage>,
}

#[derive(Debug, Clone, PartialEq, Eq)]
pub struct SessionSnapshot {
    pub session_id: String,
    pub seq: u64,
    pub turn_status: TurnStatus,
    pub transcript: Vec<TranscriptEntry>,
    pub tool_calls: Vec<ToolCallState>,
    pub pending_approvals: Vec<ApprovalRequest>,
    pub runtime_options: Vec<RuntimeOption>,
    pub context_usage: Option<ContextUsage>,
    pub history_truncated: bool,
}

#[derive(Debug, PartialEq, Eq)]
pub enum RuntimeValue {
    String(String),
    Bool(bool),
    Integer(i64),
}

impl Clone for RuntimeValue {
    fn clone(&self) -> (copy: Self)
        ensures
            copy == *self,
    {
        match self {
            RuntimeValue::String(value) => RuntimeValue::String(value.clone()),
            RuntimeValue::Bool(value) => RuntimeValue::Bool(*value),
            RuntimeValue::Integer(value) => RuntimeValue::Integer(*value),
        }
    }
}

#[derive(Debug, PartialEq, Eq)]
pub struct RuntimeChoice {
    pub id: String,
    pub label: String,
}

impl Clone for RuntimeChoice {
    fn clone(&self) -> (copy: Self)
        ensures
            copy == *self,
    {
        RuntimeChoice { id: self.id.clone(), label: self.label.clone() }
    }
}

impl RuntimeChoice {
    pub fn new(id: &str, label: &str) -> (choice: Self)
        ensures
            choice.id@ == id@,
            choice.label@ == label@,
    {
        RuntimeChoice { id: id.to_owned(), label: label.to_owned() }
    }
}

#[derive(Debug, PartialEq, Eq)]
pub enum RuntimeOptionSpec {
    Select { choices: Vec<RuntimeChoice> },
    Boolean,
    Integer { min: i64, max: i64, step: i64 },
}

/// Whether two option domains are the same.
pub open spec fn same_domain(a: RuntimeOptionSpec, b: RuntimeOptionSpec) -> bool {
    match (a, b) {
        (
            RuntimeOptionSpec::Select { choices: a },
            RuntimeOptionSpec::Select { choices: b },
        ) => a@ == b@,
        (RuntimeOptionSpec::Select { .. }, _) => false,
        (_, RuntimeOptionSpec::Select { .. }) => false,
        _ => a == b,
    }
}

impl Clone for RuntimeOptionSpec {
    fn clone(&self) -> (copy: Self)
        ensures
            same_domain(*self, copy),
    {
        match self {
            RuntimeOptionSpec::Select { choices } => {
                let copied = choices.clone();
                assert(choices@ =~= copied@);
                RuntimeOptionSpec::Select { choices: copied }
            },
            RuntimeOptionSpec::Boolean => RuntimeOptionSpec::Boolean,
            RuntimeOptionSpec::Integer { min, max, step } => RuntimeOptionSpec::Integer {
                min: *min,
                max: *max,
                step: *step,
            },
        }
    }
}

/// Whether two options are the same.
pub open spec fn same_option(a: RuntimeOption, b: RuntimeOption) -> bool {
    &&& a.id == b.id
    &&& a.label == b.label
    &&& a.value == b.value
    &&& a.default_value == b.default_value
    &&& same_domain(a.spec, b.spec)
    &&& a.mutable_while_running == b.mutable_while_running
    &&& a.help == b.help
}

/// Whether two lists of options are the same.
pub open spec fn same_options(a: Seq<RuntimeOption>, b: Seq<RuntimeOption>) -> bool {
    &&& a.len() == b.len()
    &&& forall|i: int| 0 <= i < a.len() ==> same_option(#[trigger] a[i], b[i])
}

impl Clone for RuntimeOption {
    fn clone(&self) -> (copy: Self)
        ensures
            same_option(*self, copy),
    {
        RuntimeOption {
            id: self.id.clone(),
            label: self.label.clone(),
            value: self.value.clone(),
            default_value: self.default_value.clone(),
            spec: self.spec.clone(),
            mutable_while_running: self.mutable_while_running,
            help: copy_text(&self.help),
        }
    }
}

/// A copy of a list of options.
pub fn copy_options(options: &[RuntimeOption]) -> (copy: Vec<RuntimeOption>)
    ensures
        same_options(options@, copy@),
{
    let mut copy: Vec<RuntimeOption> = Vec::new();
    let mut i: usize = 0;
    while i < options.len()
        invariant
            i <= options@.len(),
            copy@.len() == i,
            forall|j: int| 0 <= j < i ==> same_option(#[trigger] options@[j], copy@[j]),
        decreases options@.len() - i,
    {
        copy.push(options[i].clone());
        i = i + 1;
    }
    copy
}

#[derive(Debug, PartialEq, Eq)]
pub struct RuntimeOption {
    pub id: String,
    pub label: String,
    pub value: RuntimeValue,
    pub default_value: RuntimeValue,
    pub spec: RuntimeOptionSpec,
    pub mutable_while_running: bool,
    pub help: Option<String>,
}

/// Whether one of the choices has the given id.
pub open spec fn lists_choice(choices: Seq<RuntimeChoice>, id: Seq<char>) -> bool {
    exists|i: int| 0 <= i < choices.len() && (#[trigger] choices[i]).id@ == id
}

fn has_choice(choices: &[RuntimeChoice], id: &String) -> (listed: bool)
    ensures
        listed == lists_choice(choices@, id@),
{
    let mut i: usize = 0;
    while i < choices.len()
        invariant
            i <= choices@.len(),
            forall|j: int| 0 <= j < i ==> (#[trigger] choices@[j]).id@ != id@,
        decreases choices@.len() - i,
    {
        if choices[i].id == *id {
            assert(choices@[i as int].id@ == id@);
            return true;
        }
        i = i + 1;
    }
    false
}

/// A fresh option: its default is its value, it is fixed while a turn runs and has no help text.
pub open spec fn fresh_option(
    option: RuntimeOption,
    id: Seq<char>,
    label: Seq<char>,
    value: RuntimeValue,
    spec: RuntimeOptionSpec,
) -> bool {
    &&& option.id@ == id
    &&& option.label@ == label
    &&& option.value == value
    &&& option.default_value == value
    &&& option.spec == spec
    &&& !option.mutable_while_running
    &&& option.help is None
}

impl RuntimeOption {
    pub fn select(
        id: &str,
        label: &str,
        value: RuntimeValue,
        choices: Vec<RuntimeChoice>,
    ) -> (option: Self)
        ensures
            fresh_option(option, id@, label@, value, (RuntimeOptionSpec::Select { choices })),
    {
        RuntimeOption {
            id: id.to_owned(),
            label: label.to_owned(),
            default_value: value.clone(),
            value,
            spec: RuntimeOptionSpec::Select { choices },
            mutable_while_running: false,
            help: None,
        }
    }

    pub fn boolean(id: &str, label: &str, value: RuntimeValue) -> (option: Self)
        ensures
            fresh_option(option, id@, label@, value, RuntimeOptionSpec::Boolean),
    {
        RuntimeOption {
            id: id.to_owned(),
            label: label.to_owned(),
            default_value: value.clone(),
            value,
            spec: RuntimeOptionSpec::Boolean,
            mutable_while_running: false,
            help: None,
        }
    }

    /// A step below one is raised to one.
    pub fn integer(
        id: &str,
        label: &str,
        value: RuntimeValue,
        min: i64,
        max: i64,
        step: i64,
    ) -> (option: Self)
        ensures
            fresh_option(
                option,
                id@,
                label@,
                value,
                (RuntimeOptionSpec::Integer { min, max, step: if step < 1 { 1 } else { step } }),
            ),
    {
        RuntimeOption {
            id: id.to_owned(),
            label: label.to_owned(),
            default_value: value.clone(),
            value,
            spec: RuntimeOptionSpec::Integer { min, max, step: if step < 1 { 1 } else { step } },
            mutable_while_running: false,
            help: None,
        }
    }

    /// The values that the option can take: a listed choice, a boolean, or an
    /// integer in range that lies a whole number of steps above the minimum.
    pub open spec fn admits(&self, candidate: RuntimeValue) -> bool {
        match (self.spec, candidate) {
            (RuntimeOptionSpec::Select { choices }, RuntimeValue::String(value)) => lists_choice(
                choices@,
                value@,
            ),
            (RuntimeOptionSpec::Boolean, RuntimeValue::Bool(_)) => true,
            (RuntimeOptionSpec::Integer { min, max, step }, RuntimeValue::Integer(value)) => {
                &&& step > 0
                &&& min <= value <= max
                &&& value - min <= i64::MAX
                &&& (value - min) % (step as int) == 0
            },
            _ => false,
        }
    }

    pub fn accepts(&self, candidate: &RuntimeValue) -> (accepted: bool)
        ensures
            accepted == self.admits(*candidate),
    {
        match (&self.spec, candidate) {
            (RuntimeOptionSpec::Select { choices }, RuntimeValue::String(value)) => has_choice(
                choices.as_slice(),
                value,
            ),
            (RuntimeOptionSpec::Boolean, RuntimeValue::Bool(_)) => true,
            (RuntimeOptionSpec::Integer { min, max, step }, RuntimeValue::Integer(value)) => {
                if !(*step > 0 && *min <= *max && *value >= *min && *value <= *max) {
                    return false;
                }
                match value.checked_sub(*min) {
                    Some(offset) => offset % *step == 0,
                    None => false,
                }
            },
            _ => false,
        }
    }
}

#[derive(Debug, Clone, Copy, PartialEq, Eq, Structural)]
pub enum ContextBudgetError {
    OutputReservationNotBelowWindow,
}

#[derive(Debug, Clone, Copy, PartialEq, Eq, Structural)]
pub struct ContextUsage {
    pub prompt_tokens: u64,
    /// True when prompt_tokens came from the previous model's last observed
    /// occupancy and is being projected onto a newly selected model window.
    pub estimated: bool,
    pub model_context_window: Option<u64>,
    pub output_reservation: u64,
    pub effective_input_budget: Option<u64>,
    pub utilization_basis_points: Option<u16>,
    pub compaction_high_water_tokens: Option<u64>,
    pub budget_error: Option<ContextBudgetError>,
}

/// Whether a flag is left out of the wire form.
pub fn is_false(value: &bool) -> (omitted: bool)
    ensures
        omitted == !*value,
{
    !*value
}

/// Tokens left for the prompt once the reply's share of the window is set aside.
pub open spec fn input_budget(window: Option<u64>, reservation: u64) -> Option<u64> {
    match window {
        Some(window) if reservation < window => Some((window - reservation) as u64),
        _ => None,
    }
}

/// Share of the budget in use, in hundredths of a percent, capped at the whole.
pub open spec fn basis_points(prompt_tokens: nat, budget: nat) -> nat {
    if prompt_tokens * 10_000 / budget > 10_000 {
        10_000
    } else {
        prompt_tokens * 10_000 / budget
    }
}

/// The usage report for some tokens in use.
pub open spec fn usage_of(
    prompt_tokens: u64,
    window: Option<u64>,
    reservation: u64,
    high_water_tokens: Option<u64>,
) -> ContextUsage {
    let budget = input_budget(window, reservation);
    ContextUsage {
        prompt_tokens,
        estimated: false,
        model_context_window: window,
        output_reservation: reservation,
        effective_input_budget: budget,
        utilization_basis_points: match budget {
            Some(budget) => Some(basis_points(prompt_tokens as nat, budget as nat) as u16),
            None => None,
        },
        compaction_high_water_tokens: high_water_tokens,
        budget_error: match window {
            Some(window) if reservation >= window => Some(
                ContextBudgetError::OutputReservationNotBelowWindow,
            ),
            _ => None,
        },
    }
}

impl ContextUsage {
    pub fn new(
        prompt_tokens: u64,
        model_context_window: Option<u64>,
        output_reservation: u64,
        compaction_high_water_tokens: Option<u64>,
    ) -> (usage: Self)
        ensures
            usage == usage_of(
                prompt_tokens,
                model_context_window,
                output_reservation,
                compaction_high_water_tokens,
            ),
    {
        let effective_input_budget: Option<u64> = match model_context_window {
            Some(window) => if output_reservation < window {
                Some(window - output_reservation)
            } else {
                None
            },
            None => None,
        };
        let budget_error = match model_context_window {
            Some(window) => if output_reservation >= window {
                Some(ContextBudgetError::OutputReservationNotBelowWindow)
            } else {
                None
            },
            None => None,
        };
        let utilization_basis_points: Option<u16> = match effective_input_budget {
            Some(budget) => {
                let scaled: u128 = prompt_tokens as u128 * 10_000;
                let basis_points: u128 = scaled / (budget as u128);
                Some(
                    if basis_points > 10_000 {
                        10_000
                    } else {
                        basis_points as u16
                    },
                )
            },
            None => None,
        };
        ContextUsage {
            prompt_tokens,
            estimated: false,
            model_context_window,
            output_reservation,
            effective_input_budget,
            utilization_basis_points,
            compaction_high_water_tokens,
            budget_error,
        }
    }

    pub fn mark_estimated(self) -> (usage: Self)
        ensures
            usage == (ContextUsage { estimated: true, ..self }),
    {
        let mut usage = self;
        usage.estimated = true;
        usage
    }
}

#[derive(Debug, Clone, Copy, PartialEq, Eq, Structural)]
pub enum SequenceError {
    NotIncreasing { previous: u64, next: u64 },
}

/// Sequence numbers strictly advance.
pub fn validate_next_sequence(previous: Option<u64>, next: u64) -> (result: Result<
    (),
    SequenceError,
>)
    ensures
        result == match previous {
            Some(previous) if next <= previous => Err(
                SequenceError::NotIncreasing { previous, next },
            ),
            _ => Ok(()),
        },
{
    if let Some(previous) = previous {
        if next <= previous {
            return Err(SequenceError::NotIncreasing { previous, next });
        }
    }
    Ok(())
}

#[derive(Debug, Clone, Copy, PartialEq, Eq, Structural)]
pub struct ProtocolLimits {
    pub max_frame_bytes: usize,
    /// UTF-8 byte cap. Validation rejects; it never truncates at this boundary.
    pub max_prompt_bytes: usize,
    /// UTF-8 byte cap. Validation rejects; it never truncates at this boundary.
    pub max_label_bytes: usize,
    pub max_identifier_bytes: usize,
    pub max_ticket_bytes: usize,
    pub max_runtime_value_bytes: usize,
    pub max_capabilities: usize,
}

#[derive(Debug, Clone, Copy, PartialEq, Eq)]
pub enum ProtocolValidationError {
    FieldTooLarge { field: &'static str, max_bytes: usize },
    TooManyCapabilities { max: usize },
}

impl ProtocolValidationError {
    pub open spec fn text(self) -> Seq<char> {
        match self {
            ProtocolValidationError::FieldTooLarge { field, max_bytes } => field@ + " exceeds "@
                + decimal(max_bytes as nat) + " bytes"@,
            ProtocolValidationError::TooManyCapabilities { max } =>
                "requested capabilities exceed limit "@ + decimal(max as nat),
        }
    }

    /// The diagnostic that a client sees.
    pub fn message(&self) -> (text: String)
        ensures
            text@ == self.text(),
    {
        match self {
            ProtocolValidationError::FieldTooLarge { field, max_bytes } => {
                let mut text = (*field).to_owned();
                text.append(" exceeds ");
                text.append(decimal_string(*max_bytes as u64).as_str());
                text.append(" bytes");
                text
            },
            ProtocolValidationError::TooManyCapabilities { max } => {
                let mut text = "requested capabilities exceed limit ".to_owned();
                text.append(decimal_string(*max as u64).as_str());
                text
            },
        }
    }
}

/// One bound that a client message has to keep.
pub enum LimitCheck {
    Bytes { field: Seq<char>, size: nat, max_bytes: nat },
    Capabilities { count: nat, max: nat },
}

impl LimitCheck {
    pub open spec fn exceeded(self) -> bool {
        match self {
            LimitCheck::Bytes { size, max_bytes, .. } => size > max_bytes,
            LimitCheck::Capabilities { count, max } => count > max,
        }
    }

    /// The error that reports this check.
    pub open spec fn reported_by(self, error: ProtocolValidationError) -> bool {
        match (self, error) {
            (
                LimitCheck::Bytes { field, max_bytes, .. },
                ProtocolValidationError::FieldTooLarge { field: named, max_bytes: reported },
            ) => named@ == field && reported == max_bytes,
            (
                LimitCheck::Capabilities { max, .. },
                ProtocolValidationError::TooManyCapabilities { max: reported },
            ) => reported == max,
            _ => false,
        }
    }
}

pub open spec fn bytes_check(field: Seq<char>, value: Seq<char>, max_bytes: usize) -> Seq<
    LimitCheck,
> {
    seq![LimitCheck::Bytes { field, size: utf8_len(value), max_bytes: max_bytes as nat }]
}

pub open spec fn optional_bytes_check(
    field: Seq<char>,
    value: Option<String>,
    max_bytes: usize,
) -> Seq<LimitCheck> {
    match value {
        Some(value) => bytes_check(field, value@, max_bytes),
        None => seq![],
    }
}

/// Reports the first exceeded check in order, or nothing when every check holds.
pub open spec fn first_exceeded(
    checks: Seq<LimitCheck>,
    error: Option<ProtocolValidationError>,
) -> bool
    decreases checks.len(),
{
    if checks.len() == 0 {
        error is None
    } else if checks[0].exceeded() {
        error matches Some(error) && checks[0].reported_by(error)
    } else {
        first_exceeded(checks.drop_first(), error)
    }
}

proof fn lemma_first_exceeded_concat(
    left: Seq<LimitCheck>,
    right: Seq<LimitCheck>,
    first: Option<ProtocolValidationError>,
    second: Option<ProtocolValidationError>,
)
    requires
        first_exceeded(left, first),
        first is None ==> first_exceeded(right, second),
    ensures
        first_exceeded(left + right, if first is Some { first } else { second }),
    decreases left.len(),
{
    if left.len() == 0 {
        assert(left + right =~= right);
    } else {
        assert((left + right).drop_first() =~= left.drop_first() + right);
        if !left[0].exceeded() {
            lemma_first_exceeded_concat(left.drop_first(), right, first, second);
        }
    }
}

fn check_bytes(field: &'static str, value: &str, max_bytes: usize) -> (error: Option<
    ProtocolValidationError,
>)
    ensures
        first_exceeded(bytes_check(field@, value@, max_bytes), error),
{
    reveal_with_fuel(first_exceeded, 2);
    if byte_len(value) > max_bytes {
        Some(ProtocolValidationError::FieldTooLarge { field, max_bytes })
    } else {
        None
    }
}

fn check_optional_bytes(field: &'static str, value: &Option<String>, max_bytes: usize) -> (error:
    Option<ProtocolValidationError>)
    ensures
        first_exceeded(optional_bytes_check(field@, *value, max_bytes), error),
{
    match value {
        Some(value) => check_bytes(field, value.as_str(), max_bytes),
        None => None,
    }
}

/// The first of two outcomes that reports an error.
fn or_else(
    first: Option<ProtocolValidationError>,
    second: Option<ProtocolValidationError>,
    Ghost(left): Ghost<Seq<LimitCheck>>,
    Ghost(right): Ghost<Seq<LimitCheck>>,
) -> (error: Option<ProtocolValidationError>)
    requires
        first_exceeded(left, first),
        first is None ==> first_exceeded(right, second),
    ensures
        first_exceeded(left + right, error),
{
    proof {
        lemma_first_exceeded_concat(left, right, first, second);
    }
    match first {
        Some(error) => Some(error),
        None => second,
    }
}

impl ProtocolLimits {
    /// The bounds on one client's introduction, in the order in which they are reported.
    pub open spec fn introduction_checks(
        self,
        prefix: (Seq<char>, Seq<char>, Seq<char>, Seq<char>),
        client: ClientInfo,
        session_id: Option<String>,
        ticket: Option<String>,
        capabilities: nat,
    ) -> Seq<LimitCheck> {
        bytes_check(prefix.0, client.id@, self.max_identifier_bytes) + bytes_check(
            prefix.1,
            client.label@,
            self.max_label_bytes,
        ) + optional_bytes_check(prefix.2, session_id, self.max_identifier_bytes)
            + optional_bytes_check(prefix.3, ticket, self.max_ticket_bytes)
            + seq![LimitCheck::Capabilities {
            count: capabilities,
            max: self.max_capabilities as nat,
        }]
    }

    /// Every bound that applies to a message, in the order in which they are reported.
    pub open spec fn message_checks(self, message: ClientMessage) -> Seq<LimitCheck> {
        match message {
            ClientMessage::Attach {
                session_id,
                ticket,
                client,
                requested_capabilities,
                ..
            } => self.introduction_checks(
                (
                    "attach.client.id"@,
                    "attach.client.label"@,
                    "attach.session_id"@,
                    "attach.ticket"@,
                ),
                client,
                session_id,
                ticket,
                requested_capabilities@.len(),
            ),
            ClientMessage::Resume {
                session_id,
                ticket,
                client,
                requested_capabilities,
                ..
            } => self.introduction_checks(
                (
                    "resume.client.id"@,
                    "resume.client.label"@,
                    "resume.session_id"@,
                    "resume.ticket"@,
                ),
                client,
                Some(session_id),
                ticket,
                requested_capabilities@.len(),
            ),
            ClientMessage::Prompt { request_id, text } => bytes_check(
                "prompt.request_id"@,
                request_id@,
                self.max_identifier_bytes,
            ) + bytes_check("prompt.text"@, text@, self.max_prompt_bytes),
            ClientMessage::ApprovalResponse { approval_id, .. } => bytes_check(
                "approval_response.approval_id"@,
                approval_id@,
                self.max_identifier_bytes,
            ),
            ClientMessage::Interrupt { request_id } => optional_bytes_check(
                "interrupt.request_id"@,
                request_id,
                self.max_identifier_bytes,
            ),
            ClientMessage::StopSession { request_id } => bytes_check(
                "stop_session.request_id"@,
                request_id@,
                self.max_identifier_bytes,
            ),
            ClientMessage::ClearHistory { request_id } => bytes_check(
                "clear_history.request_id"@,
                request_id@,
                self.max_identifier_bytes,
            ),
            ClientMessage::GetUsage { request_id } => bytes_check(
                "get_usage.request_id"@,
                request_id@,
                self.max_identifier_bytes,
            ),
            ClientMessage::ListSessions { request_id, cursor } => bytes_check(
                "list_sessions.request_id"@,
                request_id@,
                self.max_identifier_bytes,
            ) + optional_bytes_check("list_sessions.cursor"@, cursor, self.max_identifier_bytes),
            ClientMessage::SetConfig { request_id, config_id, value } => optional_bytes_check(
                "set_config.request_id"@,
                request_id,
                self.max_identifier_bytes,
            ) + bytes_check("set_config.config_id"@, config_id@, self.max_identifier_bytes)
                + match value {
                RuntimeValue::String(value) => bytes_check(
                    "set_config.value"@,
                    value@,
                    self.max_runtime_value_bytes,
                ),
                _ => seq![],
            },
            ClientMessage::SyncRequest { .. } | ClientMessage::Ping | ClientMessage::Detach =>
                seq![],
        }
    }

    fn check_capabilities(&self, count: usize) -> (error: Option<ProtocolValidationError>)
        ensures
            first_exceeded(
                seq![
                    LimitCheck::Capabilities {
                        count: count as nat,
                        max: self.max_capabilities as nat,
                    },
                ],
                error,
            ),
    {
        reveal_with_fuel(first_exceeded, 2);
        if count > self.max_capabilities {
            Some(ProtocolValidationError::TooManyCapabilities { max: self.max_capabilities })
        } else {
            None
        }
    }

    /// Rejects a message that exceeds any bound, naming the first one in order.
    pub fn validate_client_message(&self, message: &ClientMessage) -> (result: Result<
        (),
        ProtocolValidationError,
    >)
        ensures
            first_exceeded(self.message_checks(*message), result.err()),
    {
        let error = match message {
            ClientMessage::Attach {
                session_id,
                ticket,
                client,
                requested_capabilities,
                ..
            } => self.check_introduction(
                ("attach.client.id", "attach.client.label", "attach.session_id", "attach.ticket"),
                client,
                session_id,
                ticket,
                requested_capabilities.len(),
            ),
            ClientMessage::Resume {
                session_id,
                ticket,
                client,
                requested_capabilities,
                ..
            } => {
                let session_id = Some(session_id.clone());
                self.check_introduction(
                    (
                        "resume.client.id",
                        "resume.client.label",
                        "resume.session_id",
                        "resume.ticket",
                    ),
                    client,
                    &session_id,
                    ticket,
                    requested_capabilities.len(),
                )
            },
            ClientMessage::Prompt { request_id, text } => or_else(
                check_bytes("prompt.request_id", request_id.as_str(), self.max_identifier_bytes),
                check_bytes("prompt.text", text.as_str(), self.max_prompt_bytes),
                Ghost(bytes_check("prompt.request_id"@, request_id@, self.max_identifier_bytes)),
                Ghost(bytes_check("prompt.text"@, text@, self.max_prompt_bytes)),
            ),
            ClientMessage::ApprovalResponse { approval_id, .. } => check_bytes(
                "approval_response.approval_id",
                approval_id.as_str(),
                self.max_identifier_bytes,
            ),
            ClientMessage::Interrupt { request_id } => check_optional_bytes(
                "interrupt.request_id",
                request_id,
                self.max_identifier_bytes,
            ),
            ClientMessage::StopSession { request_id } => check_bytes(
                "stop_session.request_id",
                request_id.as_str(),
                self.max_identifier_bytes,
            ),
            ClientMessage::ClearHistory { request_id } => check_bytes(
                "clear_history.request_id",
                request_id.as_str(),
                self.max_identifier_bytes,
            ),
            ClientMessage::GetUsage { request_id } => check_bytes(
                "get_usage.request_id",
                request_id.as_str(),
                self.max_identifier_bytes,
            ),
            ClientMessage::ListSessions { request_id, cursor } => or_else(
                check_bytes(
                    "list_sessions.request_id",
                    request_id.as_str(),
                    self.max_identifier_bytes,
                ),
                check_optional_bytes("list_sessions.cursor", cursor, self.max_identifier_bytes),
                Ghost(
                    bytes_check(
                        "list_sessions.request_id"@,
                        request_id@,
                        self.max_identifier_bytes,
                    ),
                ),
                Ghost(
                    optional_bytes_check(
                        "list_sessions.cursor"@,
                        *cursor,
                        self.max_identifier_bytes,
                    ),
                ),
            ),
            ClientMessage::SetConfig { request_id, config_id, value } => self.check_set_config(
                request_id,
                config_id,
                value,
            ),
            ClientMessage::SyncRequest { .. } | ClientMessage::Ping | ClientMessage::Detach => None,
        };
        match error {
            Some(error) => Err(error),
            None => Ok(()),
        }
    }

    fn check_introduction(
        &self,
        fields: (&'static str, &'static str, &'static str, &'static str),
        client: &ClientInfo,
        session_id: &Option<String>,
        ticket: &Option<String>,
        capabilities: usize,
    ) -> (error: Option<ProtocolValidationError>)
        ensures
            first_exceeded(
                self.introduction_checks(
                    (fields.0@, fields.1@, fields.2@, fields.3@),
                    *client,
                    *session_id,
                    *ticket,
                    capabilities as nat,
                ),
                error,
            ),
    {
        let ghost id = bytes_check(fields.0@, client.id@, self.max_identifier_bytes);
        let ghost label = bytes_check(fields.1@, client.label@, self.max_label_bytes);
        let ghost session = optional_bytes_check(fields.2@, *session_id, self.max_identifier_bytes);
        let ghost ticketed = optional_bytes_check(fields.3@, *ticket, self.max_ticket_bytes);
        let ghost counted = seq![
            LimitCheck::Capabilities {
                count: capabilities as nat,
                max: self.max_capabilities as nat,
            },
        ];
        let error = check_bytes(fields.0, client.id.as_str(), self.max_identifier_bytes);
        let error = or_else(
            error,
            check_bytes(fields.1, client.label.as_str(), self.max_label_bytes),
            Ghost(id),
            Ghost(label),
        );
        let error = or_else(
            error,
            check_optional_bytes(fields.2, session_id, self.max_identifier_bytes),
            Ghost(id + label),
            Ghost(session),
        );
        let error = or_else(
            error,
            check_optional_bytes(fields.3, ticket, self.max_ticket_bytes),
            Ghost(id + label + session),
            Ghost(ticketed),
        );
        or_else(
            error,
            self.check_capabilities(capabilities),
            Ghost(id + label + session + ticketed),
            Ghost(counted),
        )
    }

    fn check_set_config(
        &self,
        request_id: &Option<String>,
        config_id: &String,
        value: &RuntimeValue,
    ) -> (error: Option<ProtocolValidationError>)
        ensures
            first_exceeded(
                self.message_checks(
                    (ClientMessage::SetConfig {
                        request_id: *request_id,
                        config_id: *config_id,
                        value: *value,
                    }),
                ),
                error,
            ),
    {
        let ghost requested = optional_bytes_check(
            "set_config.request_id"@,
            *request_id,
            self.max_identifier_bytes,
        );
        let ghost config = bytes_check(
            "set_config.config_id"@,
            config_id@,
            self.max_identifier_bytes,
        );
        let error = or_else(
            check_optional_bytes("set_config.request_id", request_id, self.max_identifier_bytes),
            check_bytes("set_config.config_id", config_id.as_str(), self.max_identifier_bytes),
            Ghost(requested),
            Ghost(config),
        );
        match value {
            RuntimeValue::String(value) => or_else(
                error,
                check_bytes("set_config.value", value.as_str(), self.max_runtime_value_bytes),
                Ghost(requested + config),
                Ghost(bytes_check("set_config.value"@, value@, self.max_runtime_value_bytes)),
            ),
            _ => {
                assert(requested + config + Seq::<LimitCheck>::empty() =~= requested + config);
                error
            },
        }
    }
}

} // verus!
