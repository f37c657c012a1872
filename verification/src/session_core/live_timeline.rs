//! The timeline that clients saw live and the one that is rebuilt from the
//! conversation are the same.
use vstd::prelude::*;
use crate::providers::{ContentBlock, Message, Role};
use crate::session_core::reconstruction::{
    after_block, after_blocks, after_messages, flushed, ids_needed, lemma_blocks_keep_tracking,
    lemma_flush_keeps_tracking, lemma_messages_keep_tracking, lemma_outcome_keeps_tracking,
    reconstructed, result_status, starts_turn, unfinished_are_active, with_outcome, PendingText,
    ReconstructedTextKind,
};
use crate::session_core::tool_lifecycle::CanonicalToolLifecycle;
use crate::session_protocol::{ActiveToolState, AssistantOutcome, ToolCallStateStatus};
use crate::session_timeline::course::law_restored_start_is_start_and_progress;
use crate::session_timeline::{
    fresh_text, with_cancelled, EntryContent, EntryModel, TextKind, TimelineModel,
};

verus! {

/// The effect of the events that one block was streamed with: a user message,
/// a delta, a started tool that is then in progress, or a finished tool.
pub open spec fn live_block(
    timeline: TimelineModel,
    role: Role,
    block: ContentBlock,
    interrupted: Seq<char>,
    lifecycle: CanonicalToolLifecycle,
) -> TimelineModel {
    match block {
        ContentBlock::Text(text) => match role {
            Role::User => timeline.closed().pushed(
                EntryContent::User { text: text@, truncated: false },
            ),
            Role::Assistant => timeline.with_text(TextKind::Assistant, text@),
        },
        ContentBlock::Thinking(text) => timeline.with_text(TextKind::Thought, text@),
        ContentBlock::ToolCall { id, name, .. } => timeline.with_tool_start(
            started(timeline.next_id, id, name, ToolCallStateStatus::Pending),
            ToolCallStateStatus::Pending,
        ).with_tool_update(id@, ToolCallStateStatus::InProgress, None),
        ContentBlock::ToolResult { tool_use_id, content, is_error } => timeline.with_tool_update(
            tool_use_id@,
            result_status(content@, is_error, interrupted),
            Some(lifecycle.projected(content@)),
        ),
        ContentBlock::Image { .. } | ContentBlock::ProviderState { .. } => timeline,
    }
}

pub open spec fn started(
    occurrence_id: u64,
    id: String,
    name: String,
    status: ToolCallStateStatus,
) -> ActiveToolState {
    ActiveToolState {
        occurrence_id,
        tool_call_id: id,
        name,
        title: name,
        status,
        content_truncated: false,
    }
}

/// The effect of the events that a message's first blocks were streamed with.
pub open spec fn live_blocks(
    timeline: TimelineModel,
    message: Message,
    count: int,
    interrupted: Seq<char>,
    lifecycle: CanonicalToolLifecycle,
) -> TimelineModel
    decreases count,
{
    if count <= 0 {
        timeline
    } else {
        live_block(
            live_blocks(timeline, message, count - 1, interrupted, lifecycle),
            message.role,
            message.content@[count - 1],
            interrupted,
            lifecycle,
        )
    }
}

/// The live timeline after a history's first messages. A turn's outcome is
/// told before the next turn starts.
pub open spec fn live_messages(
    history: Seq<Message>,
    count: int,
    outcomes: Seq<AssistantOutcome>,
    max_entries: nat,
    interrupted: Seq<char>,
    lifecycle: CanonicalToolLifecycle,
) -> TimelineModel
    decreases count,
{
    let rebuilt = after_messages(
        history,
        count - 1,
        outcomes,
        max_entries,
        interrupted,
        lifecycle,
    );
    if count <= 0 {
        after_messages(history, 0, outcomes, max_entries, interrupted, lifecycle).timeline
    } else {
        let before = live_messages(
            history,
            count - 1,
            outcomes,
            max_entries,
            interrupted,
            lifecycle,
        );
        let message = history[count - 1];
        let base = if starts_turn(message) && rebuilt.turn_started {
            with_outcome(before, outcomes, rebuilt.ended_turns)
        } else {
            before
        };
        live_blocks(base, message, message.content@.len() as int, interrupted, lifecycle)
    }
}

/// The live timeline of a whole history, with the outcome of its last turn.
pub open spec fn live_timeline(
    history: Seq<Message>,
    outcomes: Seq<AssistantOutcome>,
    max_entries: nat,
    interrupted: Seq<char>,
    lifecycle: CanonicalToolLifecycle,
) -> TimelineModel {
    let count = history.len() as int;
    let rebuilt = after_messages(
        history,
        count,
        outcomes,
        max_entries,
        interrupted,
        lifecycle,
    );
    let live = live_messages(history, count, outcomes, max_entries, interrupted, lifecycle);
    if rebuilt.turn_started {
        with_outcome(live, outcomes, rebuilt.ended_turns)
    } else {
        live
    }
}

/// A message as turns are made of: one text of the user, texts and tool calls
/// of the assistant, or tool results.
pub open spec fn plain_message(message: Message) -> bool {
    match message.role {
        Role::User => message.content@.len() == 1 && message.content@[0] is Text || (forall|i: int|
            0 <= i < message.content@.len() ==> (#[trigger] message.content@[i]) is ToolResult),
        Role::Assistant => forall|i: int|
            0 <= i < message.content@.len() ==> is_plain_block(#[trigger] message.content@[i]),
    }
}

pub open spec fn is_plain_block(block: ContentBlock) -> bool {
    block is Text || block is Thinking || block is ToolCall
}

/// Whether streaming a message leaves no text that later text would continue.
pub open spec fn leaves_nothing_open(message: Message) -> bool {
    message.role == Role::User || message.content@.len() == 0 || message.content@.last() is ToolCall
}

/// A history as turns produce it: plain messages, and an assistant message
/// whose text is last ends its turn.
pub open spec fn plain_history(history: Seq<Message>) -> bool {
    &&& forall|i: int| 0 <= i < history.len() ==> plain_message(#[trigger] history[i])
    &&& forall|i: int, j: int|
        0 <= i < history.len() && j == i + 1 && j < history.len() && !starts_turn(
            #[trigger] history[j],
        ) ==> leaves_nothing_open(#[trigger] history[i])
}

/// The live timeline agrees with a rebuilt one that still holds pending text.
spec fn agrees(live: TimelineModel, timeline: TimelineModel, pending: PendingText) -> bool {
    &&& live.closed() == flushed(timeline, pending).closed()
    &&& match pending {
        None => live.open is None,
        Some((kind, text)) => {
            &&& live.timeline.len() > 0
            &&& live.timeline.last().content == kind.content(text)
            &&& kind != ReconstructedTextKind::User ==> live.open == Some(live.timeline.last().id)
            &&& kind == ReconstructedTextKind::User ==> live.open is None
        },
    }
}

proof fn lemma_push_last(timeline: TimelineModel, content: EntryContent)
    requires
        timeline.max_entries >= 1,
    ensures
        timeline.closed().pushed(content).timeline.len() > 0,
        timeline.closed().pushed(content).timeline.last() == (EntryModel {
            id: timeline.next_id,
            order: timeline.next_id,
            content,
        }),
        timeline.closed().pushed(content).open is None,
        timeline.closed().pushed(content).max_entries == timeline.max_entries,
{
}

proof fn lemma_replace_last(timeline: TimelineModel, before: EntryContent, after: EntryContent)
    requires
        timeline.max_entries >= 1,
    ensures
        ({
            let pushed = timeline.closed().pushed(before);
            TimelineModel {
                timeline: pushed.timeline.update(
                    pushed.timeline.len() - 1,
                    EntryModel { content: after, ..pushed.timeline.last() },
                ),
                ..pushed
            } == timeline.closed().pushed(after)
        }),
{
    let pushed = timeline.closed().pushed(before);
    assert(pushed.timeline.update(
        pushed.timeline.len() - 1,
        EntryModel { content: after, ..pushed.timeline.last() },
    ) =~= timeline.closed().pushed(after).timeline);
}

proof fn lemma_text_agrees(
    live: TimelineModel,
    timeline: TimelineModel,
    pending: PendingText,
    kind: ReconstructedTextKind,
    text_kind: TextKind,
    text: Seq<char>,
)
    requires
        timeline.max_entries >= 1,
        agrees(live, timeline, pending),
        pending matches Some((held, _)) ==> held != ReconstructedTextKind::User,
        kind == ReconstructedTextKind::Assistant && text_kind == TextKind::Assistant || kind
            == ReconstructedTextKind::Thought && text_kind == TextKind::Thought,
    ensures
        ({
            let (after, next) = crate::session_core::reconstruction::with_pending_text(
                timeline,
                pending,
                kind,
                text,
            );
            agrees(live.with_text(text_kind, text), after, next)
        }),
{
    let (after, next) = crate::session_core::reconstruction::with_pending_text(
        timeline,
        pending,
        kind,
        text,
    );
    let streamed = live.with_text(text_kind, text);
    match pending {
        Some((held, before)) if held == kind => {
            assert(live.continues(text_kind));
            lemma_replace_last(timeline, kind.content(before), kind.content(before + text));
            assert(streamed.closed().timeline =~= flushed(after, next).timeline);
        },
        _ => {
            assert(!live.continues(text_kind));
            assert(fresh_text(text_kind, text) == kind.content(text));
            let base = flushed(timeline, pending);
            assert(live.closed() == base.closed());
            lemma_push_last(base, kind.content(text));
            assert(base.max_entries == timeline.max_entries);
            assert(streamed.closed() == base.closed().pushed(kind.content(text)).closed());
        },
    }
}

proof fn lemma_block_agrees(
    live: TimelineModel,
    timeline: TimelineModel,
    pending: PendingText,
    role: Role,
    block: ContentBlock,
    interrupted: Seq<char>,
    lifecycle: CanonicalToolLifecycle,
)
    requires
        agrees(live, timeline, pending),
        timeline.ordered(),
        unfinished_are_active(timeline),
        timeline.max_entries >= 1,
        timeline.next_id + 1 < u64::MAX,
        role == Role::Assistant ==> is_plain_block(block),
        role == Role::User ==> pending is None && (block is Text || block is ToolResult),
        pending matches Some((held, _)) ==> held != ReconstructedTextKind::User,
    ensures
        ({
            let (after, next) = after_block(
                timeline,
                pending,
                role,
                block,
                interrupted,
                lifecycle,
            );
            &&& agrees(live_block(live, role, block, interrupted, lifecycle), after, next)
            &&& role == Role::Assistant ==> (next matches Some((held, _)) ==> held
                != ReconstructedTextKind::User)
            &&& block is ToolCall || block is ToolResult ==> next is None
        }),
{
    match block {
        ContentBlock::Text(text) => match role {
            Role::User => {
                lemma_push_last(timeline, EntryContent::User { text: text@, truncated: false });
            },
            Role::Assistant => {
                lemma_text_agrees(
                    live,
                    timeline,
                    pending,
                    ReconstructedTextKind::Assistant,
                    TextKind::Assistant,
                    text@,
                );
            },
        },
        ContentBlock::Thinking(text) => {
            lemma_text_agrees(
                live,
                timeline,
                pending,
                ReconstructedTextKind::Thought,
                TextKind::Thought,
                text@,
            );
        },
        ContentBlock::ToolCall { id, name, .. } => {
            let base = flushed(timeline, pending);
            lemma_flush_keeps_tracking(timeline, pending);
            assert(live.closed() == base.closed());
            assert(live.ordered());
            law_restored_start_is_start_and_progress(live, id, name, name, None);
            assert(live.with_tool_start(
                started(live.next_id, id, name, ToolCallStateStatus::InProgress),
                ToolCallStateStatus::InProgress,
            ) == base.with_tool_start(
                started(base.next_id, id, name, ToolCallStateStatus::InProgress),
                ToolCallStateStatus::InProgress,
            ));
        },
        ContentBlock::ToolResult { tool_use_id, content, is_error } => {
            assert(live == live.closed());
            let status = result_status(content@, is_error, interrupted);
            let output = Some(lifecycle.projected(content@));
            assert(live.timeline == timeline.timeline);
            assert(live.active == timeline.active);
        },
        _ => {},
    }
}

proof fn lemma_blocks_agree(
    live: TimelineModel,
    timeline: TimelineModel,
    message: Message,
    count: int,
    interrupted: Seq<char>,
    lifecycle: CanonicalToolLifecycle,
)
    requires
        0 <= count <= message.content@.len(),
        plain_message(message),
        live.open is None,
        live.closed() == timeline.closed(),
        timeline.ordered(),
        unfinished_are_active(timeline),
        timeline.max_entries >= 1,
        timeline.next_id + 2 * message.content@.len() < u64::MAX,
    ensures
        ({
            let (after, pending) = after_blocks(timeline, message, count, interrupted, lifecycle);
            let streamed = live_blocks(live, message, count, interrupted, lifecycle);
            &&& agrees(streamed, after, pending)
            &&& message.role == Role::Assistant ==> (pending matches Some((held, _)) ==> held
                != ReconstructedTextKind::User)
            &&& count > 0 && (message.content@[count - 1] is ToolCall || message.content@[count - 1]
                is ToolResult) ==> pending is None
            &&& count == 0 ==> pending is None
        }),
    decreases count,
{
    if count > 0 {
        lemma_blocks_agree(live, timeline, message, count - 1, interrupted, lifecycle);
        lemma_blocks_keep_tracking(timeline, message, count - 1, interrupted, lifecycle);
        let (after, pending) = after_blocks(
            timeline,
            message,
            count - 1,
            interrupted,
            lifecycle,
        );
        let streamed = live_blocks(live, message, count - 1, interrupted, lifecycle);
        let block = message.content@[count - 1];
        assert(message.role == Role::Assistant ==> is_plain_block(block));
        if message.role == Role::User && count > 1 {
            assert(message.content@[count - 2] is ToolResult);
        }
        lemma_block_agrees(
            streamed,
            after,
            pending,
            message.role,
            block,
            interrupted,
            lifecycle,
        );
    }
}

proof fn lemma_outcome_agrees(
    live: TimelineModel,
    timeline: TimelineModel,
    outcomes: Seq<AssistantOutcome>,
    turn: nat,
)
    requires
        live.closed() == timeline.closed(),
        timeline.max_entries >= 1,
    ensures
        with_outcome(live, outcomes, turn).closed() == with_outcome(
            timeline,
            outcomes,
            turn,
        ).closed(),
        turn < outcomes.len() ==> with_outcome(live, outcomes, turn).open is None,
{
    if turn < outcomes.len() {
        lemma_push_last(live, EntryContent::Outcome { outcome: outcomes[turn as int] });
    }
}

/// Streaming a user message closes whatever text was open before it.
proof fn lemma_user_text_closes(
    live: TimelineModel,
    message: Message,
    interrupted: Seq<char>,
    lifecycle: CanonicalToolLifecycle,
)
    requires
        starts_turn(message),
        plain_message(message),
        live.max_entries >= 1,
    ensures
        live_blocks(live, message, message.content@.len() as int, interrupted, lifecycle)
            == live_blocks(
            live.closed(),
            message,
            message.content@.len() as int,
            interrupted,
            lifecycle,
        ),
        message.content@.len() == 1,
{
    let k = choose|k: int| 0 <= k < message.content@.len() && (#[trigger] message.content@[k]) is Text;
    assert(message.content@.len() == 1 && message.content@[0] is Text);
    reveal_with_fuel(live_blocks, 2);
}

proof fn lemma_messages_agree(
    history: Seq<Message>,
    count: int,
    outcomes: Seq<AssistantOutcome>,
    max_entries: nat,
    interrupted: Seq<char>,
    lifecycle: CanonicalToolLifecycle,
)
    requires
        0 <= count <= history.len(),
        plain_history(history),
        ids_needed(history, count) + 2 < u64::MAX,
    ensures
        ({
            let rebuilt = after_messages(
                history,
                count,
                outcomes,
                max_entries,
                interrupted,
                lifecycle,
            );
            let live = live_messages(
                history,
                count,
                outcomes,
                max_entries,
                interrupted,
                lifecycle,
            );
            &&& live.closed() == rebuilt.timeline.closed()
            &&& count == 0 || leaves_nothing_open(history[count - 1]) ==> live.open is None
        }),
    decreases count,
{
    if count > 0 {
        lemma_messages_agree(
            history,
            count - 1,
            outcomes,
            max_entries,
            interrupted,
            lifecycle,
        );
        lemma_messages_keep_tracking(
            history,
            count - 1,
            outcomes,
            max_entries,
            interrupted,
            lifecycle,
        );
        let rebuilt = after_messages(
            history,
            count - 1,
            outcomes,
            max_entries,
            interrupted,
            lifecycle,
        );
        let before = live_messages(
            history,
            count - 1,
            outcomes,
            max_entries,
            interrupted,
            lifecycle,
        );
        let message = history[count - 1];
        let ends = starts_turn(message) && rebuilt.turn_started;
        lemma_outcome_agrees(before, rebuilt.timeline, outcomes, rebuilt.ended_turns);
        lemma_outcome_keeps_tracking(rebuilt.timeline, outcomes, rebuilt.ended_turns);
        let base = if ends {
            with_outcome(rebuilt.timeline, outcomes, rebuilt.ended_turns)
        } else {
            rebuilt.timeline
        };
        let live_base = if ends {
            with_outcome(before, outcomes, rebuilt.ended_turns)
        } else {
            before
        };
        assert(live_base.closed() == base.closed());
        let blocks = message.content@.len() as int;
        if starts_turn(message) {
            lemma_user_text_closes(live_base, message, interrupted, lifecycle);
            assert(live_base.closed().closed() == base.closed());
            lemma_blocks_agree(
                live_base.closed(),
                base,
                message,
                blocks,
                interrupted,
                lifecycle,
            );
        } else {
            if count > 1 {
                assert(leaves_nothing_open(history[count - 2]));
            }
            assert(live_base.open is None);
            lemma_blocks_agree(live_base, base, message, blocks, interrupted, lifecycle);
            if message.role == Role::User && blocks > 0 {
                assert(message.content@[blocks - 1] is ToolResult || message.content@[blocks - 1]
                    is Text);
            }
        }
        if blocks > 0 && message.role == Role::User && !starts_turn(message) {
            assert(!(message.content@[blocks - 1] is Text));
        }
    }
}

/// What is rebuilt from a conversation is what was seen live: the same entries
/// under the same ids, the same active tools and the same window, for a
/// conversation in which every tool call was answered.
pub proof fn law_reconstruction_matches_live_timeline(
    history: Seq<Message>,
    outcomes: Seq<AssistantOutcome>,
    max_entries: nat,
    interrupted: Seq<char>,
    lifecycle: CanonicalToolLifecycle,
)
    requires
        plain_history(history),
        ids_needed(history, history.len() as int) + 2 < u64::MAX,
        after_messages(
            history,
            history.len() as int,
            outcomes,
            max_entries,
            interrupted,
            lifecycle,
        ).timeline.active.len() == 0,
    ensures
        ({
            let rebuilt = reconstructed(history, outcomes, max_entries, interrupted, lifecycle);
            let live = live_timeline(history, outcomes, max_entries, interrupted, lifecycle);
            &&& live.timeline == rebuilt.timeline
            &&& live.active == rebuilt.active
            &&& live.window == rebuilt.window
        }),
{
    let count = history.len() as int;
    lemma_messages_agree(history, count, outcomes, max_entries, interrupted, lifecycle);
    lemma_messages_keep_tracking(history, count, outcomes, max_entries, interrupted, lifecycle);
    let state = after_messages(history, count, outcomes, max_entries, interrupted, lifecycle);
    let live = live_messages(history, count, outcomes, max_entries, interrupted, lifecycle);
    lemma_outcome_agrees(live, state.timeline, outcomes, state.ended_turns);
    let timeline = if state.turn_started {
        with_outcome(state.timeline, outcomes, state.ended_turns)
    } else {
        state.timeline
    };
    assert(timeline.active =~= state.timeline.active);
    assert(with_cancelled(timeline.timeline, timeline.active) == timeline.timeline);
    assert(timeline.active =~= Seq::<ActiveToolState>::empty());
}

} // verus!
