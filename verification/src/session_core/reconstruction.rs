//! Rebuilding the timeline of a session from its conversation.
use vstd::prelude::*;
use vstd::string::*;
use crate::providers::{ContentBlock, Message, Role};
use crate::session_core::tool_lifecycle::CanonicalToolLifecycle;
use crate::session_protocol::{
    ActiveToolState, ApprovalRequest, AssistantOutcome, ContextUsage, HistoryWindow, RuntimeOption,
    SessionTimelineSnapshot, TimelineEntryKind, ToolCallStateStatus, TurnStatus,
};
use crate::session_timeline::{
    entry_models, is_tool_occurrence, lemma_last_where_holds, lemma_update_keeps_order,
    lemma_with_occurrence_keeps_ids, with_cancelled, with_occurrence, EntryContent, EntryModel,
    TimelineModel, TimelineReducer,
};
use crate::text::str_eq;

verus! {

broadcast use vstd::string::group_string_axioms;

#[derive(Debug, Clone, Copy, PartialEq, Eq, Structural)]
pub enum ReconstructedTextKind {
    User,
    Assistant,
    Thought,
}

impl ReconstructedTextKind {
    pub open spec fn content(self, text: Seq<char>) -> EntryContent {
        match self {
            ReconstructedTextKind::User => EntryContent::User { text, truncated: false },
            ReconstructedTextKind::Assistant => EntryContent::Assistant { text, truncated: false },
            ReconstructedTextKind::Thought => EntryContent::Thought { text, truncated: false },
        }
    }

    pub fn into_entry(self, text: String) -> (entry: TimelineEntryKind)
        ensures
            entry@ == self.content(text@),
    {
        match self {
            ReconstructedTextKind::User => TimelineEntryKind::User {
                text,
                content_truncated: false,
            },
            ReconstructedTextKind::Assistant => TimelineEntryKind::Assistant {
                text,
                content_truncated: false,
            },
            ReconstructedTextKind::Thought => TimelineEntryKind::Thought {
                text,
                content_truncated: false,
            },
        }
    }
}

/// Text of a message that no entry holds yet.
pub type PendingText = Option<(ReconstructedTextKind, Seq<char>)>;

pub open spec fn flushed(timeline: TimelineModel, pending: PendingText) -> TimelineModel {
    match pending {
        Some((kind, text)) => timeline.closed().pushed(kind.content(text)),
        None => timeline,
    }
}

/// Whether a message starts a turn: it is the user's and has text.
pub open spec fn starts_turn(message: Message) -> bool {
    message.role == Role::User && exists|i: int|
        0 <= i < message.content@.len() && (#[trigger] message.content@[i]) is Text
}

/// The status that a tool result leaves its call with.
pub open spec fn result_status(
    content: Seq<char>,
    is_error: bool,
    interrupted: Seq<char>,
) -> ToolCallStateStatus {
    if content == interrupted {
        ToolCallStateStatus::Cancelled
    } else if is_error {
        ToolCallStateStatus::Failed
    } else {
        ToolCallStateStatus::Completed
    }
}

/// Adds text: it continues text of the same kind, or starts anew.
pub open spec fn with_pending_text(
    timeline: TimelineModel,
    pending: PendingText,
    kind: ReconstructedTextKind,
    text: Seq<char>,
) -> (TimelineModel, PendingText) {
    match pending {
        Some((held, before)) if held == kind => (timeline, Some((kind, before + text))),
        _ => (flushed(timeline, pending), Some((kind, text))),
    }
}

/// The effect of one block.
pub open spec fn after_block(
    timeline: TimelineModel,
    pending: PendingText,
    role: Role,
    block: ContentBlock,
    interrupted: Seq<char>,
    lifecycle: CanonicalToolLifecycle,
) -> (TimelineModel, PendingText) {
    match block {
        ContentBlock::Text(text) => with_pending_text(
            timeline,
            pending,
            match role {
                Role::User => ReconstructedTextKind::User,
                Role::Assistant => ReconstructedTextKind::Assistant,
            },
            text@,
        ),
        ContentBlock::Thinking(text) => with_pending_text(
            timeline,
            pending,
            ReconstructedTextKind::Thought,
            text@,
        ),
        ContentBlock::ToolCall { id, name, .. } => {
            let base = flushed(timeline, pending);
            (
                base.with_tool_start(
                    ActiveToolState {
                        occurrence_id: base.next_id,
                        tool_call_id: id,
                        name,
                        title: name,
                        status: ToolCallStateStatus::InProgress,
                        content_truncated: false,
                    },
                    ToolCallStateStatus::InProgress,
                ),
                None,
            )
        },
        ContentBlock::ToolResult { tool_use_id, content, is_error } => (
            flushed(timeline, pending).with_tool_update(
                tool_use_id@,
                result_status(content@, is_error, interrupted),
                Some(lifecycle.projected(content@)),
            ),
            None,
        ),
        ContentBlock::Image { .. } | ContentBlock::ProviderState { .. } => (
            flushed(timeline, pending),
            None,
        ),
    }
}

/// The effect of a message's first blocks.
pub open spec fn after_blocks(
    timeline: TimelineModel,
    message: Message,
    count: int,
    interrupted: Seq<char>,
    lifecycle: CanonicalToolLifecycle,
) -> (TimelineModel, PendingText)
    decreases count,
{
    if count <= 0 {
        (timeline, None)
    } else {
        let before = after_blocks(timeline, message, count - 1, interrupted, lifecycle);
        after_block(
            before.0,
            before.1,
            message.role,
            message.content@[count - 1],
            interrupted,
            lifecycle,
        )
    }
}

/// Where a reconstruction stands between two messages.
pub struct Reconstruction {
    pub timeline: TimelineModel,
    /// How many turns have ended.
    pub ended_turns: nat,
    pub turn_started: bool,
}

/// Puts the outcome of the turn that ends behind its entries, where one was recorded.
pub open spec fn with_outcome(
    timeline: TimelineModel,
    outcomes: Seq<AssistantOutcome>,
    turn: nat,
) -> TimelineModel {
    if turn < outcomes.len() {
        timeline.closed().pushed(EntryContent::Outcome { outcome: outcomes[turn as int] })
    } else {
        timeline
    }
}

/// The effect of one message: it may end the turn before it, then its blocks follow.
pub open spec fn after_message(
    state: Reconstruction,
    message: Message,
    outcomes: Seq<AssistantOutcome>,
    interrupted: Seq<char>,
    lifecycle: CanonicalToolLifecycle,
) -> Reconstruction {
    let ends_turn = starts_turn(message) && state.turn_started;
    let base = if ends_turn {
        with_outcome(state.timeline, outcomes, state.ended_turns)
    } else {
        state.timeline
    };
    let (timeline, pending) = after_blocks(
        base,
        message,
        message.content@.len() as int,
        interrupted,
        lifecycle,
    );
    Reconstruction {
        timeline: flushed(timeline, pending),
        ended_turns: if ends_turn {
            state.ended_turns + 1
        } else {
            state.ended_turns
        },
        turn_started: state.turn_started || starts_turn(message),
    }
}

/// The effect of a history's first messages.
pub open spec fn after_messages(
    history: Seq<Message>,
    count: int,
    outcomes: Seq<AssistantOutcome>,
    max_entries: nat,
    interrupted: Seq<char>,
    lifecycle: CanonicalToolLifecycle,
) -> Reconstruction
    decreases count,
{
    if count <= 0 {
        Reconstruction {
            timeline: TimelineModel {
                timeline: seq![],
                active: seq![],
                window: HistoryWindow::whole(0),
                max_entries: if max_entries == 0 {
                    1
                } else {
                    max_entries
                },
                next_id: 1,
                open: None,
            },
            ended_turns: 0,
            turn_started: false,
        }
    } else {
        after_message(
            after_messages(history, count - 1, outcomes, max_entries, interrupted, lifecycle),
            history[count - 1],
            outcomes,
            interrupted,
            lifecycle,
        )
    }
}

/// The timeline of a whole history. Tools that never finished count as cancelled.
pub open spec fn reconstructed(
    history: Seq<Message>,
    outcomes: Seq<AssistantOutcome>,
    max_entries: nat,
    interrupted: Seq<char>,
    lifecycle: CanonicalToolLifecycle,
) -> TimelineModel {
    let state = after_messages(
        history,
        history.len() as int,
        outcomes,
        max_entries,
        interrupted,
        lifecycle,
    );
    let timeline = if state.turn_started {
        with_outcome(state.timeline, outcomes, state.ended_turns)
    } else {
        state.timeline
    };
    TimelineModel {
        timeline: with_cancelled(timeline.timeline, timeline.active),
        active: seq![],
        ..timeline
    }
}

fn message_starts_turn(message: &Message) -> (starts: bool)
    ensures
        starts == starts_turn(*message),
{
    if message.role != Role::User {
        return false;
    }
    let mut i: usize = 0;
    while i < message.content.len()
        invariant
            i <= message.content@.len(),
            message.role == Role::User,
            forall|j: int| 0 <= j < i ==> !((#[trigger] message.content@[j]) is Text),
        decreases message.content@.len() - i,
    {
        if matches!(&message.content[i], ContentBlock::Text(_)) {
            assert(message.content@[i as int] is Text);
            return true;
        }
        i = i + 1;
    }
    false
}

pub open spec fn pending_model(pending: Option<(ReconstructedTextKind, String)>) -> PendingText {
    match pending {
        Some((kind, text)) => Some((kind, text@)),
        None => None,
    }
}

fn flush_text(
    pending: Option<(ReconstructedTextKind, String)>,
    timeline: &mut TimelineReducer,
)
    requires
        old(timeline)@.well_formed(),
    ensures
        final(timeline)@ == flushed(old(timeline)@, pending_model(pending)),
        final(timeline)@.well_formed(),
{
    if let Some((kind, text)) = pending {
        timeline.push_reconstructed(kind.into_entry(text));
    }
}

fn add_text(
    pending: Option<(ReconstructedTextKind, String)>,
    timeline: &mut TimelineReducer,
    kind: ReconstructedTextKind,
    text: &String,
) -> (next: Option<(ReconstructedTextKind, String)>)
    requires
        old(timeline)@.well_formed(),
    ensures
        (final(timeline)@, pending_model(next)) == with_pending_text(
            old(timeline)@,
            pending_model(pending),
            kind,
            text@,
        ),
        final(timeline)@.well_formed(),
{
    match pending {
        Some((held, before)) => if held == kind {
            let mut joined = before;
            joined.append(text.as_str());
            Some((kind, joined))
        } else {
            flush_text(Some((held, before)), timeline);
            Some((kind, text.clone()))
        },
        None => Some((kind, text.clone())),
    }
}

fn add_block(
    pending: Option<(ReconstructedTextKind, String)>,
    timeline: &mut TimelineReducer,
    role: Role,
    block: &ContentBlock,
    interrupted: &str,
    lifecycle: &CanonicalToolLifecycle,
) -> (next: Option<(ReconstructedTextKind, String)>)
    requires
        old(timeline)@.well_formed(),
    ensures
        (final(timeline)@, pending_model(next)) == after_block(
            old(timeline)@,
            pending_model(pending),
            role,
            *block,
            interrupted@,
            *lifecycle,
        ),
        final(timeline)@.well_formed(),
{
    match block {
        ContentBlock::Text(text) => {
            let kind = match role {
                Role::User => ReconstructedTextKind::User,
                Role::Assistant => ReconstructedTextKind::Assistant,
            };
            add_text(pending, timeline, kind, text)
        },
        ContentBlock::Thinking(text) => add_text(
            pending,
            timeline,
            ReconstructedTextKind::Thought,
            text,
        ),
        ContentBlock::ToolCall { id, name, .. } => {
            flush_text(pending, timeline);
            timeline.start_reconstructed_tool(id.clone(), name.clone(), name.clone());
            None
        },
        ContentBlock::ToolResult { tool_use_id, content, is_error } => {
            flush_text(pending, timeline);
            let status = if str_eq(content.as_str(), interrupted) {
                ToolCallStateStatus::Cancelled
            } else if *is_error {
                ToolCallStateStatus::Failed
            } else {
                ToolCallStateStatus::Completed
            };
            timeline.update_reconstructed_tool(
                tool_use_id.as_str(),
                status,
                lifecycle.project_output(content.as_str()),
            );
            None
        },
        ContentBlock::Image { .. } | ContentBlock::ProviderState { .. } => {
            flush_text(pending, timeline);
            None
        },
    }
}

fn add_outcome(timeline: &mut TimelineReducer, outcomes: &[AssistantOutcome], turn: usize)
    requires
        old(timeline)@.well_formed(),
    ensures
        final(timeline)@ == with_outcome(old(timeline)@, outcomes@, turn as nat),
        final(timeline)@.well_formed(),
{
    if turn < outcomes.len() {
        timeline.push_reconstructed(
            TimelineEntryKind::Outcome { outcome: outcomes[turn].clone() },
        );
    }
}

/// Rebuilds the timeline of a conversation. `interrupted` is the result that
/// marks a tool call as interrupted.
pub fn reconstruct_timeline(
    history: &[Message],
    outcomes: &[AssistantOutcome],
    max_entries: usize,
    interrupted: &str,
    lifecycle: &CanonicalToolLifecycle,
) -> (timeline: TimelineReducer)
    ensures
        timeline@ == reconstructed(
            history@,
            outcomes@,
            max_entries as nat,
            interrupted@,
            *lifecycle,
        ),
        timeline@.well_formed(),
        timeline@.active.len() == 0,
{
    let mut timeline = TimelineReducer::new(max_entries);
    let mut ended_turns: usize = 0;
    let mut turn_started = false;
    let mut i: usize = 0;
    while i < history.len()
        invariant
            i <= history@.len(),
            ended_turns <= i,
            timeline@.well_formed(),
            after_messages(
                history@,
                i as int,
                outcomes@,
                max_entries as nat,
                interrupted@,
                *lifecycle,
            ) == (Reconstruction {
                timeline: timeline@,
                ended_turns: ended_turns as nat,
                turn_started,
            }),
        decreases history@.len() - i,
    {
        let message = &history[i];
        if message_starts_turn(message) {
            if turn_started {
                add_outcome(&mut timeline, outcomes, ended_turns);
                ended_turns = ended_turns + 1;
            }
            turn_started = true;
        }
        let ghost base = timeline@;
        let mut pending: Option<(ReconstructedTextKind, String)> = None;
        let mut k: usize = 0;
        while k < message.content.len()
            invariant
                k <= message.content@.len(),
                timeline@.well_formed(),
                (timeline@, pending_model(pending)) == after_blocks(
                    base,
                    *message,
                    k as int,
                    interrupted@,
                    *lifecycle,
                ),
            decreases message.content@.len() - k,
        {
            pending =
            add_block(
                pending,
                &mut timeline,
                message.role,
                &message.content[k],
                interrupted,
                lifecycle,
            );
            k = k + 1;
        }
        flush_text(pending, &mut timeline);
        i = i + 1;
    }
    if turn_started {
        add_outcome(&mut timeline, outcomes, ended_turns);
    }
    timeline.cancel_reconstructed_active_tools();
    timeline
}

/// What a timeline and the state beside it show.
pub fn snapshot_of(
    session_id: String,
    seq: u64,
    turn_active: bool,
    timeline: TimelineReducer,
    pending_approvals: Vec<ApprovalRequest>,
    runtime_options: Vec<RuntimeOption>,
    context_usage: Option<ContextUsage>,
) -> (snapshot: SessionTimelineSnapshot)
    ensures
        snapshot.session_id == session_id,
        snapshot.seq == seq,
        snapshot.turn_status == if turn_active {
            TurnStatus::Running
        } else {
            TurnStatus::Idle
        },
        entry_models(snapshot.timeline@) == timeline@.timeline,
        snapshot.active_tools@ == timeline@.active,
        snapshot.history_window == timeline@.window,
        snapshot.pending_approvals == pending_approvals,
        snapshot.runtime_options == runtime_options,
        snapshot.context_usage == context_usage,
{
    let (timeline, active_tools, history_window) = timeline.into_parts();
    SessionTimelineSnapshot {
        session_id,
        seq,
        turn_status: if turn_active {
            TurnStatus::Running
        } else {
            TurnStatus::Idle
        },
        timeline,
        active_tools,
        history_window,
        pending_approvals,
        runtime_options,
        context_usage,
    }
}

/// Whether an entry is a tool call that has not finished.
pub open spec fn is_unfinished_tool(entry: EntryModel) -> bool {
    entry.content matches EntryContent::Tool { status, .. } && !status.terminal()
}

/// Whether an active tool has the occurrence.
pub open spec fn is_active_occurrence(active: Seq<ActiveToolState>, occurrence_id: u64) -> bool {
    exists|k: int| 0 <= k < active.len() && (#[trigger] active[k]).occurrence_id == occurrence_id
}

/// Every unfinished tool of the timeline is an active one.
pub open spec fn unfinished_are_active(timeline: TimelineModel) -> bool {
    forall|i: int|
        0 <= i < timeline.timeline.len() && is_unfinished_tool(#[trigger] timeline.timeline[i])
            ==> is_active_occurrence(timeline.active, timeline.timeline[i].id)
}

/// How many ids the entries of a history's first messages take at most.
pub open spec fn ids_needed(history: Seq<Message>, count: int) -> nat
    decreases count,
{
    if count <= 0 {
        0
    } else {
        ids_needed(history, count - 1) + 2 * history[count - 1].content@.len() + 2
    }
}

proof fn lemma_push_keeps_tracking(timeline: TimelineModel, content: EntryContent)
    requires
        timeline.ordered(),
        unfinished_are_active(timeline),
        !(content is Tool),
        timeline.max_entries >= 1,
        timeline.next_id < u64::MAX,
    ensures
        timeline.closed().pushed(content).ordered(),
        unfinished_are_active(timeline.closed().pushed(content)),
        timeline.closed().pushed(content).next_id == timeline.next_id + 1,
        timeline.closed().pushed(content).max_entries == timeline.max_entries,
{
}

pub proof fn lemma_flush_keeps_tracking(timeline: TimelineModel, pending: PendingText)
    requires
        timeline.ordered(),
        unfinished_are_active(timeline),
        timeline.max_entries >= 1,
        timeline.next_id < u64::MAX,
    ensures
        flushed(timeline, pending).ordered(),
        unfinished_are_active(flushed(timeline, pending)),
        flushed(timeline, pending).next_id <= timeline.next_id + 1,
        flushed(timeline, pending).max_entries == timeline.max_entries,
{
    if let Some((kind, text)) = pending {
        lemma_push_keeps_tracking(timeline, kind.content(text));
    }
}

proof fn lemma_start_keeps_tracking(
    timeline: TimelineModel,
    tool: ActiveToolState,
    status: ToolCallStateStatus,
)
    requires
        timeline.ordered(),
        unfinished_are_active(timeline),
        timeline.max_entries >= 1,
        timeline.next_id < u64::MAX,
        tool.occurrence_id == timeline.next_id,
    ensures
        timeline.with_tool_start(tool, status).ordered(),
        unfinished_are_active(timeline.with_tool_start(tool, status)),
        timeline.with_tool_start(tool, status).next_id == timeline.next_id + 1,
        timeline.with_tool_start(tool, status).max_entries == timeline.max_entries,
{
    let after = timeline.with_tool_start(tool, status);
    assert forall|i: int|
        0 <= i < after.timeline.len() && is_unfinished_tool(
            #[trigger] after.timeline[i],
        ) implies is_active_occurrence(after.active, after.timeline[i].id) by {
        if after.timeline[i].id == timeline.next_id {
            assert(after.active[timeline.active.len() as int].occurrence_id == timeline.next_id);
        } else {
            let shift = if timeline.timeline.len() + 1 > timeline.max_entries {
                timeline.timeline.len() + 1 - timeline.max_entries
            } else {
                0
            };
            assert(after.timeline[i] == timeline.timeline[i + shift]);
            let k = choose|k: int|
                0 <= k < timeline.active.len() && (#[trigger] timeline.active[k]).occurrence_id
                    == timeline.timeline[i + shift].id;
            assert(after.active[k] == timeline.active[k]);
        }
    }
}

proof fn lemma_settle_occurrence(
    timeline: Seq<EntryModel>,
    occurrence_id: u64,
    status: ToolCallStateStatus,
    output: Option<Seq<char>>,
)
    requires
        status.terminal(),
        forall|i: int, j: int|
            0 <= i < j < timeline.len() ==> (#[trigger] timeline[i]).id < (
            #[trigger] timeline[j]).id,
    ensures
        forall|i: int|
            0 <= i < timeline.len() && is_unfinished_tool(
                #[trigger] with_occurrence(timeline, occurrence_id, status, output)[i],
            ) ==> timeline[i].id != occurrence_id && is_unfinished_tool(timeline[i]),
{
    let holds = |entry: EntryModel| is_tool_occurrence(entry, occurrence_id);
    lemma_last_where_holds(timeline, holds);
    let after = with_occurrence(timeline, occurrence_id, status, output);
    assert forall|i: int|
        0 <= i < timeline.len() && is_unfinished_tool(#[trigger] after[i]) implies timeline[i].id
        != occurrence_id && is_unfinished_tool(timeline[i]) by {
        if timeline[i].id == occurrence_id {
            assert(timeline[i].content is Tool);
            assert(holds(timeline[i]));
        }
    }
}

proof fn lemma_update_keeps_tracking(
    timeline: TimelineModel,
    tool_call_id: Seq<char>,
    status: ToolCallStateStatus,
    output: Option<Seq<char>>,
)
    requires
        timeline.ordered(),
        unfinished_are_active(timeline),
        status.terminal(),
    ensures
        timeline.with_tool_update(tool_call_id, status, output).ordered(),
        unfinished_are_active(timeline.with_tool_update(tool_call_id, status, output)),
{
    lemma_update_keeps_order(timeline, tool_call_id, status, output);
    let after = timeline.with_tool_update(tool_call_id, status, output);
    if let Some(occurrence_id) = timeline.occurrence_of(tool_call_id) {
        lemma_with_occurrence_keeps_ids(timeline.timeline, occurrence_id, status, output);
        lemma_settle_occurrence(timeline.timeline, occurrence_id, status, output);
        let keep = |tool: ActiveToolState| tool.occurrence_id != occurrence_id;
        assert forall|i: int|
            0 <= i < after.timeline.len() && is_unfinished_tool(
                #[trigger] after.timeline[i],
            ) implies is_active_occurrence(after.active, after.timeline[i].id) by {
            let k = choose|k: int|
                0 <= k < timeline.active.len() && (#[trigger] timeline.active[k]).occurrence_id
                    == timeline.timeline[i].id;
            timeline.active.lemma_filter_contains(keep, k);
            let m = choose|m: int|
                0 <= m < after.active.len() && after.active[m] == timeline.active[k];
            assert(after.active[m].occurrence_id == after.timeline[i].id);
        }
    }
}

proof fn lemma_block_keeps_tracking(
    timeline: TimelineModel,
    pending: PendingText,
    role: Role,
    block: ContentBlock,
    interrupted: Seq<char>,
    lifecycle: CanonicalToolLifecycle,
)
    requires
        timeline.ordered(),
        unfinished_are_active(timeline),
        timeline.max_entries >= 1,
        timeline.next_id + 1 < u64::MAX,
    ensures
        ({
            let after = after_block(timeline, pending, role, block, interrupted, lifecycle).0;
            &&& after.ordered()
            &&& unfinished_are_active(after)
            &&& after.next_id <= timeline.next_id + 2
            &&& after.max_entries == timeline.max_entries
        }),
{
    lemma_flush_keeps_tracking(timeline, pending);
    let base = flushed(timeline, pending);
    match block {
        ContentBlock::ToolCall { id, name, .. } => {
            lemma_start_keeps_tracking(
                base,
                ActiveToolState {
                    occurrence_id: base.next_id,
                    tool_call_id: id,
                    name,
                    title: name,
                    status: ToolCallStateStatus::InProgress,
                    content_truncated: false,
                },
                ToolCallStateStatus::InProgress,
            );
        },
        ContentBlock::ToolResult { tool_use_id, content, is_error } => {
            lemma_update_keeps_tracking(
                base,
                tool_use_id@,
                result_status(content@, is_error, interrupted),
                Some(lifecycle.projected(content@)),
            );
        },
        _ => {},
    }
}

pub proof fn lemma_blocks_keep_tracking(
    timeline: TimelineModel,
    message: Message,
    count: int,
    interrupted: Seq<char>,
    lifecycle: CanonicalToolLifecycle,
)
    requires
        0 <= count <= message.content@.len(),
        timeline.ordered(),
        unfinished_are_active(timeline),
        timeline.max_entries >= 1,
        timeline.next_id + 2 * count < u64::MAX,
    ensures
        ({
            let after = after_blocks(timeline, message, count, interrupted, lifecycle).0;
            &&& after.ordered()
            &&& unfinished_are_active(after)
            &&& after.next_id <= timeline.next_id + 2 * count
            &&& after.max_entries == timeline.max_entries
        }),
    decreases count,
{
    if count > 0 {
        lemma_blocks_keep_tracking(timeline, message, count - 1, interrupted, lifecycle);
        let before = after_blocks(timeline, message, count - 1, interrupted, lifecycle);
        lemma_block_keeps_tracking(
            before.0,
            before.1,
            message.role,
            message.content@[count - 1],
            interrupted,
            lifecycle,
        );
    }
}

pub proof fn lemma_outcome_keeps_tracking(
    timeline: TimelineModel,
    outcomes: Seq<AssistantOutcome>,
    turn: nat,
)
    requires
        timeline.ordered(),
        unfinished_are_active(timeline),
        timeline.max_entries >= 1,
        timeline.next_id < u64::MAX,
    ensures
        with_outcome(timeline, outcomes, turn).ordered(),
        unfinished_are_active(with_outcome(timeline, outcomes, turn)),
        with_outcome(timeline, outcomes, turn).next_id <= timeline.next_id + 1,
        with_outcome(timeline, outcomes, turn).max_entries == timeline.max_entries,
{
    if turn < outcomes.len() {
        lemma_push_keeps_tracking(
            timeline,
            EntryContent::Outcome { outcome: outcomes[turn as int] },
        );
    }
}

pub proof fn lemma_messages_keep_tracking(
    history: Seq<Message>,
    count: int,
    outcomes: Seq<AssistantOutcome>,
    max_entries: nat,
    interrupted: Seq<char>,
    lifecycle: CanonicalToolLifecycle,
)
    requires
        0 <= count <= history.len(),
        ids_needed(history, count) + 2 < u64::MAX,
    ensures
        ({
            let after = after_messages(
                history,
                count,
                outcomes,
                max_entries,
                interrupted,
                lifecycle,
            ).timeline;
            &&& after.ordered()
            &&& unfinished_are_active(after)
            &&& after.next_id <= 1 + ids_needed(history, count)
            &&& after.max_entries >= 1
        }),
    decreases count,
{
    if count > 0 {
        lemma_messages_keep_tracking(
            history,
            count - 1,
            outcomes,
            max_entries,
            interrupted,
            lifecycle,
        );
        let before = after_messages(
            history,
            count - 1,
            outcomes,
            max_entries,
            interrupted,
            lifecycle,
        );
        let message = history[count - 1];
        lemma_outcome_keeps_tracking(before.timeline, outcomes, before.ended_turns);
        let base = if starts_turn(message) && before.turn_started {
            with_outcome(before.timeline, outcomes, before.ended_turns)
        } else {
            before.timeline
        };
        let blocks = message.content@.len() as int;
        lemma_blocks_keep_tracking(base, message, blocks, interrupted, lifecycle);
        let (timeline, pending) = after_blocks(base, message, blocks, interrupted, lifecycle);
        lemma_flush_keeps_tracking(timeline, pending);
    }
}

proof fn lemma_cancel_settles(timeline: Seq<EntryModel>, active: Seq<ActiveToolState>)
    requires
        forall|i: int, j: int|
            0 <= i < j < timeline.len() ==> (#[trigger] timeline[i]).id < (
            #[trigger] timeline[j]).id,
    ensures
        with_cancelled(timeline, active).len() == timeline.len(),
        forall|i: int|
            0 <= i < timeline.len() ==> (#[trigger] with_cancelled(timeline, active)[i]).id
                == timeline[i].id,
        forall|i: int|
            0 <= i < timeline.len() && is_unfinished_tool(
                #[trigger] with_cancelled(timeline, active)[i],
            ) ==> is_unfinished_tool(timeline[i]) && !is_active_occurrence(active, timeline[i].id),
    decreases active.len(),
{
    if active.len() > 0 {
        let fewer = active.drop_last();
        let before = with_cancelled(timeline, fewer);
        let last = active.last();
        lemma_cancel_settles(timeline, fewer);
        assert forall|i: int, j: int| 0 <= i < j < before.len() implies (
        #[trigger] before[i]).id < (#[trigger] before[j]).id by {
            assert(timeline[i].id < timeline[j].id);
        }
        lemma_with_occurrence_keeps_ids(
            before,
            last.occurrence_id,
            ToolCallStateStatus::Cancelled,
            None,
        );
        lemma_settle_occurrence(
            before,
            last.occurrence_id,
            ToolCallStateStatus::Cancelled,
            None,
        );
        let after = with_cancelled(timeline, active);
        assert forall|i: int|
            0 <= i < timeline.len() && is_unfinished_tool(
                #[trigger] after[i],
            ) implies is_unfinished_tool(timeline[i]) && !is_active_occurrence(
            active,
            timeline[i].id,
        ) by {
            assert(is_unfinished_tool(before[i]));
            if is_active_occurrence(active, timeline[i].id) {
                let k = choose|k: int|
                    0 <= k < active.len() && (#[trigger] active[k]).occurrence_id
                        == timeline[i].id;
                if k < fewer.len() {
                    assert(fewer[k].occurrence_id == timeline[i].id);
                }
            }
        }
    }
}

/// A restored session shows no tool as still running: every tool call of its
/// timeline has a terminal status, and none is active.
pub proof fn law_restored_tools_are_settled(
    history: Seq<Message>,
    outcomes: Seq<AssistantOutcome>,
    max_entries: nat,
    interrupted: Seq<char>,
    lifecycle: CanonicalToolLifecycle,
)
    requires
        ids_needed(history, history.len() as int) + 2 < u64::MAX,
    ensures
        ({
            let timeline = reconstructed(history, outcomes, max_entries, interrupted, lifecycle);
            &&& timeline.active.len() == 0
            &&& forall|i: int|
                0 <= i < timeline.timeline.len() ==> !is_unfinished_tool(
                    #[trigger] timeline.timeline[i],
                )
        }),
{
    let count = history.len() as int;
    lemma_messages_keep_tracking(history, count, outcomes, max_entries, interrupted, lifecycle);
    let state = after_messages(history, count, outcomes, max_entries, interrupted, lifecycle);
    lemma_outcome_keeps_tracking(state.timeline, outcomes, state.ended_turns);
    let timeline = if state.turn_started {
        with_outcome(state.timeline, outcomes, state.ended_turns)
    } else {
        state.timeline
    };
    lemma_cancel_settles(timeline.timeline, timeline.active);
}

} // verus!
