//! What a restored timeline shows of a conversation, block by block.
use vstd::prelude::*;
use crate::providers::{ContentBlock, Message, Role};
use crate::session_core::reconstruction::{
    after_block, after_blocks, after_messages, flushed, reconstructed, starts_turn, with_outcome,
    PendingText, ReconstructedTextKind,
};
use crate::session_core::tool_lifecycle::CanonicalToolLifecycle;
use crate::session_protocol::{ActiveToolState, AssistantOutcome, ToolCallStateStatus};
use crate::session_timeline::course::{
    is_active, lemma_cancelled_keeps_ids, lemma_cancelled_pointwise, lemma_occurrence_pointwise,
    lemma_step_ordered, lemma_step_tracks, runs, shows_tool, unfinished, ReducerStep,
};
use crate::session_timeline::{
    is_call, is_open_tool, is_tool_occurrence, last_where, lemma_last_where_holds, with_tool_status,
    EntryContent, EntryModel, TimelineModel,
};

verus! {

broadcast use vstd::string::group_string_axioms;

/// One block of a conversation, and the message that holds it.
pub struct Told {
    pub message: int,
    pub role: Role,
    pub block: ContentBlock,
}

/// The first blocks of one message.
pub open spec fn told_blocks(history: Seq<Message>, message: int, count: int) -> Seq<Told> {
    Seq::new(
        count as nat,
        |k: int|
            Told { message, role: history[message].role, block: history[message].content@[k] },
    )
}

/// The blocks of a conversation's first messages, in order.
pub open spec fn told(history: Seq<Message>, count: int) -> Seq<Told>
    decreases count,
{
    if count <= 0 {
        seq![]
    } else {
        told(history, count - 1) + told_blocks(
            history,
            count - 1,
            history[count - 1].content@.len() as int,
        )
    }
}

/// The kind of text that a block is, if it is text.
pub open spec fn kind_of(told: Told) -> Option<ReconstructedTextKind> {
    match told.block {
        ContentBlock::Text(_) => if told.role is User {
            Some(ReconstructedTextKind::User)
        } else {
            Some(ReconstructedTextKind::Assistant)
        },
        ContentBlock::Thinking(_) => Some(ReconstructedTextKind::Thought),
        _ => None,
    }
}

pub open spec fn text_of(told: Told) -> Seq<char> {
    match told.block {
        ContentBlock::Text(text) => text@,
        ContentBlock::Thinking(text) => text@,
        _ => seq![],
    }
}

/// The texts of some blocks behind each other.
pub open spec fn joined(told: Seq<Told>, from: int, to: int) -> Seq<char>
    decreases to - from,
{
    if from >= to {
        seq![]
    } else {
        joined(told, from, to - 1) + text_of(told[to - 1])
    }
}

/// Whether some blocks are text of one kind and of one message.
pub open spec fn is_run(
    told: Seq<Told>,
    kind: ReconstructedTextKind,
    from: int,
    to: int,
) -> bool {
    &&& 0 <= from < to <= told.len()
    &&& forall|q: int|
        from <= q < to ==> kind_of(#[trigger] told[q]) == Some(kind) && told[q].message
            == told[from].message
}

/// Whether a block would continue such text.
pub open spec fn continues_run(block: Told, kind: ReconstructedTextKind, message: int) -> bool {
    kind_of(block) == Some(kind) && block.message == message
}

/// The calls with an id that no result has answered: a result answers the newest
/// of them.
pub open spec fn open_calls(told: Seq<Told>, id: Seq<char>) -> Seq<int>
    decreases told.len(),
{
    if told.len() == 0 {
        seq![]
    } else {
        let before = open_calls(told.drop_last(), id);
        match told.last().block {
            ContentBlock::ToolCall { id: called, .. } => if called@ == id {
                before.push(told.len() - 1)
            } else {
                before
            },
            ContentBlock::ToolResult { tool_use_id, .. } => if tool_use_id@ == id && before.len()
                > 0 {
                before.drop_last()
            } else {
                before
            },
            _ => before,
        }
    }
}

/// Whether a result answers a call: they have one id, and the call is the newest
/// with that id that no earlier result answered.
pub open spec fn answers(told: Seq<Told>, call: int, result: int) -> bool {
    &&& 0 <= result < told.len()
    &&& told[result].block matches ContentBlock::ToolResult { tool_use_id, .. } && {
        let waiting = open_calls(told.take(result), tool_use_id@);
        waiting.len() > 0 && waiting.last() == call
    }
}

/// What one entry of a restored timeline stands for: text of one kind, a tool
/// call, or the outcome of a turn.
pub enum Piece {
    Text { kind: ReconstructedTextKind, from: int, to: int },
    Call { at: int },
    Outcome { turn: int, at: int },
}

impl Piece {
    pub open spec fn begin(self) -> int {
        match self {
            Piece::Text { from, .. } => from,
            Piece::Call { at } => at,
            Piece::Outcome { at, .. } => at,
        }
    }

    pub open spec fn end(self) -> int {
        match self {
            Piece::Text { to, .. } => to,
            Piece::Call { at } => at + 1,
            Piece::Outcome { at, .. } => at,
        }
    }
}

/// What a conversation is restored with.
pub struct Telling {
    pub outcomes: Seq<AssistantOutcome>,
    pub interrupted: Seq<char>,
    pub lifecycle: CanonicalToolLifecycle,
}

/// What the result of a call leaves on its entry.
pub open spec fn settled_by(
    status: ToolCallStateStatus,
    output: Option<Seq<char>>,
    result: ContentBlock,
    telling: Telling,
) -> bool {
    result matches ContentBlock::ToolResult { content, is_error, .. } && {
        &&& output == Some(telling.lifecycle.projected(content@))
        &&& status is Cancelled <==> content@ == telling.interrupted
        &&& status is Failed <==> content@ != telling.interrupted && is_error
        &&& status is Completed <==> content@ != telling.interrupted && !is_error
    }
}

/// Whether an entry shows a piece of what was told so far; `settled` says that
/// the conversation is over, so that a call without an answer is cancelled.
pub open spec fn shows(
    content: EntryContent,
    piece: Piece,
    told: Seq<Told>,
    telling: Telling,
    settled: bool,
) -> bool {
    match piece {
        Piece::Text { kind, from, to } => match kind {
            ReconstructedTextKind::User => content == (EntryContent::User {
                text: joined(told, from, to),
                truncated: false,
            }),
            ReconstructedTextKind::Assistant => content == (EntryContent::Assistant {
                text: joined(told, from, to),
                truncated: false,
            }),
            ReconstructedTextKind::Thought => content == (EntryContent::Thought {
                text: joined(told, from, to),
                truncated: false,
            }),
        },
        Piece::Call { at } => {
            &&& told[at].block matches ContentBlock::ToolCall { id, name, .. }
            &&& content matches EntryContent::Tool {
                tool_call_id,
                name: tool,
                title,
                status,
                output,
                truncated,
            }
            &&& tool_call_id == id@
            &&& tool == name@
            &&& title == name@
            &&& !truncated
            &&& forall|result: int|
                #[trigger] answers(told, at, result) ==> settled_by(
                    status,
                    output,
                    told[result].block,
                    telling,
                )
            &&& (forall|result: int| !#[trigger] answers(told, at, result)) ==> {
                &&& output is None
                &&& status == if settled {
                    ToolCallStateStatus::Cancelled
                } else {
                    ToolCallStateStatus::InProgress
                }
            }
        },
        Piece::Outcome { turn, .. } => 0 <= turn < telling.outcomes.len() && content == (
        EntryContent::Outcome { outcome: telling.outcomes[turn] }),
    }
}

/// Whether a block is shown by an entry: text, thoughts and tool calls are.
pub open spec fn is_shown(told: Told) -> bool {
    kind_of(told) is Some || told.block is ToolCall
}

/// Whether a piece is one of what was told: text that no neighbouring block
/// continues, or a tool call.
pub open spec fn is_piece_of(piece: Piece, told: Seq<Told>) -> bool {
    match piece {
        Piece::Text { kind, from, to } => {
            &&& is_run(told, kind, from, to)
            &&& from > 0 ==> !continues_run(told[from - 1], kind, told[from].message)
            &&& to < told.len() ==> !continues_run(told[to], kind, told[from].message)
        },
        Piece::Call { at } => 0 <= at < told.len() && told[at].block is ToolCall,
        Piece::Outcome { at, .. } => 0 <= at <= told.len(),
    }
}

/// Whether pieces tell a conversation up to a place: each is one of it, they
/// stand in its order, and every block that is shown is in one of them.
pub open spec fn pieces_tell(pieces: Seq<Piece>, told: Seq<Told>, upto: int) -> bool {
    &&& forall|i: int|
        0 <= i < pieces.len() ==> is_piece_of(#[trigger] pieces[i], told) && pieces[i].end()
            <= upto
    &&& forall|i: int, j: int|
        0 <= i < j < pieces.len() ==> (#[trigger] pieces[i]).end() <= (
        #[trigger] pieces[j]).begin()
    &&& forall|q: int|
        0 <= q < upto && #[trigger] is_shown(told[q]) ==> exists|i: int|
            0 <= i < pieces.len() && (#[trigger] pieces[i]).begin() <= q < pieces[i].end()
}

proof fn lemma_open_calls(told: Seq<Told>, id: Seq<char>)
    ensures
        forall|i: int|
            0 <= i < open_calls(told, id).len() ==> 0 <= #[trigger] open_calls(told, id)[i]
                < told.len(),
        forall|i: int|
            0 <= i < open_calls(told, id).len() ==> (told[#[trigger] open_calls(
                told,
                id,
            )[i]].block matches ContentBlock::ToolCall { id: called, .. } && called@ == id),
        forall|i: int, j: int|
            0 <= i < j < open_calls(told, id).len() ==> #[trigger] open_calls(told, id)[i]
                < #[trigger] open_calls(told, id)[j],
    decreases told.len(),
{
    if told.len() > 0 {
        let rest = told.drop_last();
        lemma_open_calls(rest, id);
        let before = open_calls(rest, id);
        assert forall|i: int| 0 <= i < before.len() implies 0 <= #[trigger] before[i] < rest.len()
            && told[before[i]] == rest[before[i]] by {}
    }
}

/// A call waits exactly as long as no result answers it.
proof fn lemma_waits_until_answered(told: Seq<Told>, id: Seq<char>, call: int)
    requires
        0 <= call < told.len(),
        told[call].block matches ContentBlock::ToolCall { id: called, .. } && called@ == id,
    ensures
        open_calls(told, id).contains(call) <==> forall|result: int|
            !#[trigger] answers(told, call, result),
    decreases told.len(),
{
    let rest = told.drop_last();
    let last = told.len() - 1;
    let before = open_calls(rest, id);
    let now = open_calls(told, id);
    lemma_open_calls(rest, id);
    assert(told.take(last) =~= rest);
    assert forall|result: int| 0 <= result < last implies #[trigger] answers(told, call, result)
        == answers(rest, call, result) by {
        assert(told.take(result) =~= rest.take(result));
    }
    if call == last {
        assert(now[now.len() - 1] == call);
        assert forall|result: int| !#[trigger] answers(told, call, result) by {
            if answers(told, call, result) {
                if let ContentBlock::ToolResult { tool_use_id, .. } = told[result].block {
                    lemma_open_calls(told.take(result), tool_use_id@);
                    let waiting = open_calls(told.take(result), tool_use_id@);
                    assert(waiting[waiting.len() - 1] < result);
                }
            }
        }
    } else {
        lemma_waits_until_answered(rest, id, call);
        let answered_now = answers(told, call, last);
        if answered_now {
            if let ContentBlock::ToolResult { tool_use_id, .. } = told[last].block {
                let waiting = open_calls(rest, tool_use_id@);
                lemma_open_calls(rest, tool_use_id@);
                assert(waiting[waiting.len() - 1] == call);
                assert(tool_use_id@ == id);
                assert(!now.contains(call)) by {
                    if now.contains(call) {
                        let i = choose|i: int| 0 <= i < now.len() && now[i] == call;
                        assert(before[i] < before[before.len() - 1]);
                    }
                }
            }
        } else {
            if before.contains(call) {
                let i = choose|i: int| 0 <= i < before.len() && before[i] == call;
                if let ContentBlock::ToolResult { tool_use_id, .. } = told[last].block {
                    if tool_use_id@ == id {
                        assert(before.last() != call);
                        assert(now[i] == call);
                    }
                }
                assert(i < now.len() && now[i] == call);
            } else {
                if now.contains(call) {
                    let i = choose|i: int| 0 <= i < now.len() && now[i] == call;
                    assert(before[i] == call);
                }
                let result = choose|result: int| #[trigger] answers(rest, call, result);
                assert(answers(told, call, result));
            }
        }
        if before.contains(call) && !answered_now {
            assert forall|result: int| !#[trigger] answers(told, call, result) by {
                if answers(told, call, result) && result < last {
                    assert(answers(rest, call, result));
                }
            }
        }
    }
}

/// Only one result answers a call.
proof fn lemma_answered_once(told: Seq<Told>, call: int, first: int, second: int)
    requires
        answers(told, call, first),
        answers(told, call, second),
    ensures
        first == second,
{
    if first != second {
        let early = if first < second {
            first
        } else {
            second
        };
        let late = if first < second {
            second
        } else {
            first
        };
        if let ContentBlock::ToolResult { tool_use_id, .. } = told[late].block {
            let upto = told.take(late);
            let waiting = open_calls(upto, tool_use_id@);
            lemma_open_calls(upto, tool_use_id@);
            assert(waiting[waiting.len() - 1] == call);
            lemma_waits_until_answered(upto, tool_use_id@, call);
            assert(waiting.contains(call));
            assert(upto.take(early) =~= told.take(early));
            assert(answers(upto, call, early));
        }
    }
}

/// Whether the entries of a timeline show the newest pieces of what was told.
pub open spec fn entries_show(
    timeline: TimelineModel,
    pieces: Seq<Piece>,
    told: Seq<Told>,
    telling: Telling,
) -> bool {
    &&& timeline.sound()
    &&& timeline.unfinished_are_active()
    &&& timeline.next_id == pieces.len() + 1
    &&& timeline.timeline.len() == if pieces.len() <= timeline.max_entries {
        pieces.len()
    } else {
        timeline.max_entries
    }
    &&& timeline.window.truncated_before == pieces.len() - timeline.timeline.len()
    &&& forall|i: int|
        0 <= i < timeline.timeline.len() ==> shows(
            (#[trigger] timeline.timeline[i]).content,
            pieces[i + pieces.len() - timeline.timeline.len()],
            told,
            telling,
            false,
        )
}

proof fn lemma_push_shows(
    timeline: TimelineModel,
    content: EntryContent,
    pieces: Seq<Piece>,
    piece: Piece,
    told: Seq<Told>,
    telling: Telling,
)
    requires
        entries_show(timeline, pieces, told, telling),
        !runs(content),
        shows(content, piece, told, telling, false),
        pieces.len() + 1 < u64::MAX,
    ensures
        entries_show(timeline.closed().pushed(content), pieces.push(piece), told, telling),
        timeline.closed().pushed(content).max_entries == timeline.max_entries,
{
    let step = ReducerStep::PushReconstructed(content);
    let after = timeline.closed().pushed(content);
    assert(timeline.after(step) == after);
    lemma_step_tracks(timeline, step);
    lemma_step_ordered(timeline, step);
    let more = pieces.push(piece);
    let dropped = more.len() - after.timeline.len();
    assert forall|i: int| 0 <= i < after.timeline.len() implies shows(
        (#[trigger] after.timeline[i]).content,
        more[i + more.len() - after.timeline.len()],
        told,
        telling,
        false,
    ) by {
        if i < after.timeline.len() - 1 {
            let at = i + dropped - (pieces.len() - timeline.timeline.len());
            assert(after.timeline[i] == timeline.timeline[at]);
        }
    }
}

proof fn lemma_start_shows(
    timeline: TimelineModel,
    tool: ActiveToolState,
    pieces: Seq<Piece>,
    told: Seq<Told>,
    telling: Telling,
)
    requires
        entries_show(timeline, pieces, told, telling),
        pieces.len() + 1 < u64::MAX,
        told.len() > 0,
        told.last().block matches ContentBlock::ToolCall { id, name, .. } && tool.tool_call_id == id
            && tool.name == name && tool.title == name,
        tool.occurrence_id == timeline.next_id,
        tool.status is InProgress,
        !tool.content_truncated,
    ensures
        entries_show(
            timeline.with_tool_start(tool, ToolCallStateStatus::InProgress),
            pieces.push(Piece::Call { at: told.len() - 1 }),
            told,
            telling,
        ),
        timeline.with_tool_start(tool, ToolCallStateStatus::InProgress).max_entries
            == timeline.max_entries,
{
    let step = ReducerStep::StartTool {
        tool_call_id: tool.tool_call_id,
        name: tool.name,
        title: tool.title,
    };
    let after = timeline.with_tool_start(tool, ToolCallStateStatus::InProgress);
    assert(timeline.after(step) == after);
    lemma_step_tracks(timeline, step);
    lemma_step_ordered(timeline, step);
    let piece = Piece::Call { at: told.len() - 1 };
    let more = pieces.push(piece);
    let dropped = more.len() - after.timeline.len();
    lemma_waits_until_answered(told, tool.tool_call_id@, told.len() - 1);
    let waiting = open_calls(told, tool.tool_call_id@);
    assert(waiting[waiting.len() - 1] == told.len() - 1);
    assert(waiting.contains(told.len() - 1));
    assert forall|i: int| 0 <= i < after.timeline.len() implies shows(
        (#[trigger] after.timeline[i]).content,
        more[i + more.len() - after.timeline.len()],
        told,
        telling,
        false,
    ) by {
        if i < after.timeline.len() - 1 {
            let at = i + dropped - (pieces.len() - timeline.timeline.len());
            assert(after.timeline[i] == timeline.timeline[at]);
        }
    }
}

proof fn lemma_joined_same(told: Seq<Told>, longer: Seq<Told>, from: int, to: int)
    requires
        0 <= from,
        to <= told.len() <= longer.len(),
        forall|q: int| 0 <= q < told.len() ==> #[trigger] told[q] == longer[q],
    ensures
        joined(told, from, to) == joined(longer, from, to),
    decreases to - from,
{
    if from < to {
        lemma_joined_same(told, longer, from, to - 1);
    }
}

/// What was shown is still shown when a block follows that answers it not.
proof fn lemma_shows_on(
    content: EntryContent,
    piece: Piece,
    told: Seq<Told>,
    next: Told,
    telling: Telling,
)
    requires
        shows(content, piece, told, telling, false),
        is_piece_of(piece, told),
        piece is Call ==> !answers(told.push(next), piece->Call_at, told.len() as int),
    ensures
        shows(content, piece, told.push(next), telling, false),
{
    let longer = told.push(next);
    match piece {
        Piece::Text { from, to, .. } => {
            lemma_joined_same(told, longer, from, to);
        },
        Piece::Call { at } => {
            assert forall|result: int| #[trigger] answers(longer, at, result) <==> answers(
                told,
                at,
                result,
            ) by {
                if 0 <= result < told.len() {
                    assert(longer.take(result) =~= told.take(result));
                }
            }
            assert forall|result: int| #[trigger] answers(longer, at, result) implies settled_by(
                content->Tool_status,
                content->Tool_output,
                longer[result].block,
                telling,
            ) by {
                assert(answers(told, at, result));
            }
            if forall|result: int| !#[trigger] answers(longer, at, result) {
                assert forall|result: int| !#[trigger] answers(told, at, result) by {
                    assert(!answers(longer, at, result));
                }
            }
        },
        Piece::Outcome { .. } => {},
    }
}

proof fn lemma_extend_shows(
    timeline: TimelineModel,
    pieces: Seq<Piece>,
    told: Seq<Told>,
    next: Told,
    telling: Telling,
    upto: int,
)
    requires
        entries_show(timeline, pieces, told, telling),
        pieces_tell(pieces, told, upto),
        !(next.block is ToolResult),
    ensures
        entries_show(timeline, pieces, told.push(next), telling),
{
    assert forall|i: int| 0 <= i < timeline.timeline.len() implies shows(
        (#[trigger] timeline.timeline[i]).content,
        pieces[i + pieces.len() - timeline.timeline.len()],
        told.push(next),
        telling,
        false,
    ) by {
        let piece = pieces[i + pieces.len() - timeline.timeline.len()];
        assert(is_piece_of(piece, told));
        lemma_shows_on(timeline.timeline[i].content, piece, told, next, telling);
    }
}

/// The entry that a result reaches is that of the call that it answers.
proof fn lemma_result_target(
    timeline: TimelineModel,
    pieces: Seq<Piece>,
    told: Seq<Told>,
    telling: Telling,
    id: Seq<char>,
    i: int,
)
    requires
        entries_show(timeline, pieces, told, telling),
        pieces_tell(pieces, told, told.len() as int),
        0 <= i < timeline.timeline.len(),
    ensures
        ({
            let piece = pieces[i + pieces.len() - timeline.timeline.len()];
            &&& is_open_tool(timeline.timeline[i], id) <==> piece is Call && open_calls(
                told,
                id,
            ).contains(piece->Call_at)
            &&& timeline.timeline[i].content is Tool <==> piece is Call
        }),
{
    let entry = timeline.timeline[i];
    let piece = pieces[i + pieces.len() - timeline.timeline.len()];
    assert(shows(entry.content, piece, told, telling, false));
    assert(is_piece_of(piece, told));
    lemma_open_calls(told, id);
    if let Piece::Call { at } = piece {
        if let ContentBlock::ToolCall { id: called, .. } = told[at].block {
            lemma_waits_until_answered(told, called@, at);
            let waiting = open_calls(told, id);
            if waiting.contains(at) {
                let k = choose|k: int| 0 <= k < waiting.len() && waiting[k] == at;
                assert(waiting[k] == at);
                assert(called@ == id);
            }
            if !open_calls(told, called@).contains(at) {
                let result = choose|result: int| #[trigger] answers(told, at, result);
                assert(settled_by(
                    entry.content->Tool_status,
                    entry.content->Tool_output,
                    told[result].block,
                    telling,
                ));
            }
        }
    }
}

proof fn lemma_result_shows(
    timeline: TimelineModel,
    pieces: Seq<Piece>,
    told: Seq<Told>,
    next: Told,
    telling: Telling,
    id: Seq<char>,
    status: ToolCallStateStatus,
    output: Seq<char>,
)
    requires
        entries_show(timeline, pieces, told, telling),
        pieces_tell(pieces, told, told.len() as int),
        next.block matches ContentBlock::ToolResult { tool_use_id, .. } && tool_use_id@ == id,
        settled_by(status, Some(output), next.block, telling),
        status.terminal(),
    ensures
        entries_show(
            timeline.with_tool_update(id, status, Some(output)),
            pieces,
            told.push(next),
            telling,
        ),
        timeline.with_tool_update(id, status, Some(output)).max_entries == timeline.max_entries,
{
    let step = ReducerStep::UpdateTool { tool_call_id: id, status, output };
    let after = timeline.with_tool_update(id, status, Some(output));
    assert(timeline.after(step) == after);
    lemma_step_tracks(timeline, step);
    lemma_step_ordered(timeline, step);
    let entries = timeline.timeline;
    let shift = pieces.len() - entries.len();
    let waiting = open_calls(told, id);
    let longer = told.push(next);
    assert(longer.take(told.len() as int) =~= told);
    let target = if waiting.len() > 0 {
        waiting.last()
    } else {
        -1
    };
    // Which entry changes: that of the newest call that waits, if it is retained.
    assert forall|i: int| 0 <= i < entries.len() implies #[trigger] after.timeline[i]
        == if pieces[i + shift] == (Piece::Call { at: target }) && waiting.len() > 0 {
        with_tool_status(entries[i], status, Some(output))
    } else {
        entries[i]
    } by {
        lemma_changed_entry(timeline, pieces, told, telling, id, status, output, i);
    }
    assert(after.timeline.len() == entries.len()) by {
        if let Some(occurrence_id) = timeline.occurrence_of(id) {
            lemma_occurrence_pointwise(entries, occurrence_id, status, Some(output));
        }
    }
    assert forall|i: int| 0 <= i < after.timeline.len() implies shows(
        (#[trigger] after.timeline[i]).content,
        pieces[i + pieces.len() - after.timeline.len()],
        longer,
        telling,
        false,
    ) by {
        let piece = pieces[i + shift];
        assert(shows(entries[i].content, piece, told, telling, false));
        assert(is_piece_of(piece, told));
        if piece == (Piece::Call { at: target }) && waiting.len() > 0 {
            lemma_answered_shows(entries[i], target, told, next, telling, id, status, output);
        } else {
            lemma_shows_on(entries[i].content, piece, told, next, telling);
        }
    }
}

/// The entry of the newest call that waits, once a result has answered it.
proof fn lemma_answered_shows(
    entry: EntryModel,
    call: int,
    told: Seq<Told>,
    next: Told,
    telling: Telling,
    id: Seq<char>,
    status: ToolCallStateStatus,
    output: Seq<char>,
)
    requires
        shows(entry.content, Piece::Call { at: call }, told, telling, false),
        0 <= call < told.len(),
        next.block matches ContentBlock::ToolResult { tool_use_id, .. } && tool_use_id@ == id,
        settled_by(status, Some(output), next.block, telling),
        open_calls(told, id).len() > 0,
        open_calls(told, id).last() == call,
    ensures
        shows(
            with_tool_status(entry, status, Some(output)).content,
            Piece::Call { at: call },
            told.push(next),
            telling,
            false,
        ),
{
    let longer = told.push(next);
    assert(longer.take(told.len() as int) =~= told);
    assert(answers(longer, call, told.len() as int));
    assert forall|result: int| #[trigger] answers(longer, call, result) implies settled_by(
        status,
        Some(output),
        longer[result].block,
        telling,
    ) by {
        lemma_answered_once(longer, call, result, told.len() as int);
    }
}

/// Whether the open entries with an id are those of the calls that wait.
spec fn open_entries_wait(
    entries: Seq<EntryModel>,
    pieces: Seq<Piece>,
    waiting: Seq<int>,
    id: Seq<char>,
) -> bool {
    forall|i: int|
        0 <= i < entries.len() ==> is_open_tool(#[trigger] entries[i], id) == (pieces[i
            + pieces.len() - entries.len()] is Call && waiting.contains(
            pieces[i + pieces.len() - entries.len()]->Call_at,
        ))
}

proof fn lemma_open_entries(
    timeline: TimelineModel,
    pieces: Seq<Piece>,
    told: Seq<Told>,
    telling: Telling,
    id: Seq<char>,
)
    requires
        entries_show(timeline, pieces, told, telling),
        pieces_tell(pieces, told, told.len() as int),
    ensures
        open_entries_wait(timeline.timeline, pieces, open_calls(told, id), id),
{
    let entries = timeline.timeline;
    let waiting = open_calls(told, id);
    assert forall|i: int| 0 <= i < entries.len() implies is_open_tool(#[trigger] entries[i], id)
        == (pieces[i + pieces.len() - entries.len()] is Call && waiting.contains(
        pieces[i + pieces.len() - entries.len()]->Call_at,
    )) by {
        lemma_result_target(timeline, pieces, told, telling, id, i);
    }
}

/// A call is a piece of its own.
proof fn lemma_call_piece(pieces: Seq<Piece>, told: Seq<Told>, call: int) -> (j: int)
    requires
        pieces_tell(pieces, told, told.len() as int),
        0 <= call < told.len(),
        told[call].block is ToolCall,
    ensures
        0 <= j < pieces.len(),
        pieces[j] == (Piece::Call { at: call }),
{
    assert(is_shown(told[call]));
    let j = choose|j: int|
        0 <= j < pieces.len() && (#[trigger] pieces[j]).begin() <= call < pieces[j].end();
    assert(is_piece_of(pieces[j], told));
    if pieces[j] is Text {
        assert(kind_of(told[call]) is Some);
    }
    j
}

/// The newest open entry with an id is that of the newest call that waits.
proof fn lemma_newest_waits(
    entries: Seq<EntryModel>,
    pieces: Seq<Piece>,
    told: Seq<Told>,
    id: Seq<char>,
    at: int,
)
    requires
        entries.len() <= pieces.len(),
        pieces_tell(pieces, told, told.len() as int),
        open_entries_wait(entries, pieces, open_calls(told, id), id),
        0 <= at < entries.len(),
        is_open_tool(entries[at], id),
        forall|j: int| at < j < entries.len() ==> !is_open_tool(#[trigger] entries[j], id),
    ensures
        open_calls(told, id).len() > 0,
        pieces[at + pieces.len() - entries.len()] == (Piece::Call {
            at: open_calls(told, id).last(),
        }),
{
    let shift = pieces.len() - entries.len();
    let waiting = open_calls(told, id);
    lemma_open_calls(told, id);
    let call = pieces[at + shift]->Call_at;
    let k = choose|k: int| 0 <= k < waiting.len() && waiting[k] == call;
    if k < waiting.len() - 1 {
        let newer = waiting.last();
        assert(waiting[waiting.len() - 1] == newer);
        assert(waiting[k] < newer);
        let j = lemma_call_piece(pieces, told, newer);
        if j < at + shift {
            assert(pieces[j].end() <= pieces[at + shift].begin());
        }
        assert(waiting.contains(newer));
        assert(!is_open_tool(entries[j - shift], id));
    }
}

proof fn lemma_changed_entry(
    timeline: TimelineModel,
    pieces: Seq<Piece>,
    told: Seq<Told>,
    telling: Telling,
    id: Seq<char>,
    status: ToolCallStateStatus,
    output: Seq<char>,
    i: int,
)
    requires
        entries_show(timeline, pieces, told, telling),
        pieces_tell(pieces, told, told.len() as int),
        0 <= i < timeline.timeline.len(),
    ensures
        ({
            let waiting = open_calls(told, id);
            let piece = pieces[i + pieces.len() - timeline.timeline.len()];
            let after = timeline.with_tool_update(id, status, Some(output)).timeline;
            after[i] == if waiting.len() > 0 && piece == (Piece::Call { at: waiting.last() }) {
                with_tool_status(timeline.timeline[i], status, Some(output))
            } else {
                timeline.timeline[i]
            }
        }),
{
    let entries = timeline.timeline;
    let shift = pieces.len() - entries.len();
    let waiting = open_calls(told, id);
    lemma_open_calls(told, id);
    let open = |entry: EntryModel| is_open_tool(entry, id);
    let named = |tool: ActiveToolState| is_call(tool, id);
    lemma_last_where_holds(entries, open);
    lemma_last_where_holds(timeline.active, named);
    lemma_result_target(timeline, pieces, told, telling, id, i);
    match last_where(entries, open) {
        Some(at) => {
            lemma_result_target(timeline, pieces, told, telling, id, at);
            assert(open(entries[at]));
            lemma_open_entries(timeline, pieces, told, telling, id);
            lemma_newest_waits(entries, pieces, told, id, at);
            let occurrence_id = entries[at].id;
            assert(timeline.occurrence_of(id) == Some(occurrence_id));
            lemma_occurrence_pointwise(entries, occurrence_id, status, Some(output));
            if i != at {
                if i < at {
                    assert(entries[i].id < entries[at].id);
                    assert(pieces[i + shift].end() <= pieces[at + shift].begin());
                } else {
                    assert(entries[at].id < entries[i].id);
                    assert(pieces[at + shift].end() <= pieces[i + shift].begin());
                }
            }
        },
        None => {
            if waiting.len() > 0 {
                assert(waiting[waiting.len() - 1] == waiting.last());
                assert(waiting.contains(waiting.last()));
            }
            assert(!open(entries[i]));
            if let Some(occurrence_id) = timeline.occurrence_of(id) {
                let at = last_where(timeline.active, named)->0;
                assert(named(timeline.active[at]));
                lemma_occurrence_pointwise(entries, occurrence_id, status, Some(output));
                if is_tool_occurrence(entries[i], occurrence_id) {
                    assert(entries[i].id == timeline.active[at].occurrence_id);
                    assert(shows_tool(entries[i], timeline.active[at]));
                    assert(!timeline.active[at].status.terminal());
                    assert(is_open_tool(entries[i], id));
                }
            }
        },
    }
}

proof fn lemma_push_tells(
    pieces: Seq<Piece>,
    piece: Piece,
    told: Seq<Told>,
    from: int,
    upto: int,
)
    requires
        pieces_tell(pieces, told, from),
        from <= piece.begin(),
        piece.end() <= upto,
        from <= upto,
        is_piece_of(piece, told),
        forall|q: int|
            from <= q < upto && #[trigger] is_shown(told[q]) ==> piece.begin() <= q < piece.end(),
    ensures
        pieces_tell(pieces.push(piece), told, upto),
{
    let more = pieces.push(piece);
    assert forall|q: int| 0 <= q < upto && #[trigger] is_shown(told[q]) implies exists|i: int|
        0 <= i < more.len() && (#[trigger] more[i]).begin() <= q < more[i].end() by {
        if q < from {
            let i = choose|i: int|
                0 <= i < pieces.len() && (#[trigger] pieces[i]).begin() <= q < pieces[i].end();
            assert(more[i] == pieces[i]);
        } else {
            assert(more[pieces.len() as int] == piece);
        }
    }
}

proof fn lemma_extend_tells(pieces: Seq<Piece>, told: Seq<Told>, next: Told, upto: int)
    requires
        pieces_tell(pieces, told, upto),
        0 <= upto <= told.len(),
        forall|i: int|
            0 <= i < pieces.len() ==> (#[trigger] pieces[i] matches Piece::Text { kind, from, to }
                ==> (to == told.len() ==> !continues_run(next, kind, told[from].message))),
    ensures
        pieces_tell(pieces, told.push(next), upto),
{
    let longer = told.push(next);
    assert forall|i: int| 0 <= i < pieces.len() implies is_piece_of(#[trigger] pieces[i], longer)
        && pieces[i].end() <= upto by {
        assert(is_piece_of(pieces[i], told));
        if let Piece::Text { kind, from, to } = pieces[i] {
            assert(told[from] == longer[from]);
        }
    }
    assert forall|q: int| 0 <= q < upto && #[trigger] is_shown(longer[q]) implies exists|i: int|
        0 <= i < pieces.len() && (#[trigger] pieces[i]).begin() <= q < pieces[i].end() by {
        assert(is_shown(told[q]));
    }
}

/// Whether pieces go on from others without an outcome.
spec fn goes_on(pieces: Seq<Piece>, more: Seq<Piece>) -> bool {
    &&& pieces.len() <= more.len()
    &&& forall|i: int| 0 <= i < pieces.len() ==> #[trigger] more[i] == pieces[i]
    &&& forall|i: int| pieces.len() <= i < more.len() ==> !((#[trigger] more[i]) is Outcome)
}

/// Where a restoration stands inside a message: the pieces before `from` have
/// their entries, and the text behind it waits for its own.
spec fn stands(
    timeline: TimelineModel,
    pending: PendingText,
    from: int,
    pieces: Seq<Piece>,
    told: Seq<Told>,
    message: int,
    telling: Telling,
) -> bool {
    &&& entries_show(timeline, pieces, told, telling)
    &&& 0 <= from <= told.len()
    &&& pieces_tell(pieces, told, from)
    &&& match pending {
        None => from == told.len() && (told.len() == 0 || told.last().message != message || kind_of(
            told.last(),
        ) is None),
        Some((kind, text)) => {
            &&& is_run(told, kind, from, told.len() as int)
            &&& told[from].message == message
            &&& text == joined(told, from, told.len() as int)
            &&& from > 0 ==> !continues_run(told[from - 1], kind, message)
        },
    }
}

/// Pending text gets its entry.
proof fn lemma_flush_stands(
    timeline: TimelineModel,
    pending: PendingText,
    from: int,
    pieces: Seq<Piece>,
    told: Seq<Told>,
    message: int,
    telling: Telling,
) -> (more: Seq<Piece>)
    requires
        stands(timeline, pending, from, pieces, told, message, telling),
        pieces.len() + 1 < u64::MAX,
    ensures
        entries_show(flushed(timeline, pending), more, told, telling),
        flushed(timeline, pending).max_entries == timeline.max_entries,
        pieces_tell(more, told, told.len() as int),
        goes_on(pieces, more),
        more.len() - pieces.len() <= told.len() - from,
        pending is None ==> more == pieces,
        pending matches Some((kind, _)) ==> more == pieces.push(
            Piece::Text { kind, from, to: told.len() as int },
        ),
{
    match pending {
        None => pieces,
        Some((kind, text)) => {
            let piece = Piece::Text { kind, from, to: told.len() as int };
            lemma_push_shows(timeline, kind.content(text), pieces, piece, told, telling);
            lemma_push_tells(pieces, piece, told, from, told.len() as int);
            pieces.push(piece)
        },
    }
}

/// Text of a block joins what waits, or waits in its place.
proof fn lemma_text_stands(
    timeline: TimelineModel,
    pending: PendingText,
    from: int,
    pieces: Seq<Piece>,
    told: Seq<Told>,
    next: Told,
    telling: Telling,
    interrupted: Seq<char>,
    lifecycle: CanonicalToolLifecycle,
) -> (stand: (int, Seq<Piece>))
    requires
        stands(timeline, pending, from, pieces, told, next.message, telling),
        kind_of(next) is Some,
        pieces.len() + 1 < u64::MAX,
    ensures
        ({
            let (after, held) = after_block(
                timeline,
                pending,
                next.role,
                next.block,
                interrupted,
                lifecycle,
            );
            &&& stands(after, held, stand.0, stand.1, told.push(next), next.message, telling)
            &&& after.max_entries == timeline.max_entries
            &&& goes_on(pieces, stand.1)
            &&& stand.1.len() - pieces.len() <= stand.0 - from
        }),
{
    let longer = told.push(next);
    let kind = kind_of(next)->0;
    let n = told.len() as int;
    assert(joined(longer, n, n + 1) =~= text_of(next)) by {
        assert(joined(longer, n, n) =~= seq![]);
    }
    if pending matches Some((held, _)) && held == kind {
        lemma_extend_shows(timeline, pieces, told, next, telling, from);
        lemma_extend_tells(pieces, told, next, from);
        lemma_joined_same(told, longer, from, n);
        assert(told[from] == longer[from]);
        (from, pieces)
    } else {
        let more = lemma_flush_stands(
            timeline,
            pending,
            from,
            pieces,
            told,
            next.message,
            telling,
        );
        let base = flushed(timeline, pending);
        lemma_extend_shows(base, more, told, next, telling, n);
        assert forall|i: int| 0 <= i < more.len() implies (#[trigger] more[i] matches Piece::Text {
            kind: other,
            from: start,
            to,
        } ==> (to == told.len() ==> !continues_run(next, other, told[start].message))) by {
            assert(is_piece_of(more[i], told));
            if let Piece::Text { kind: other, from: start, to } = more[i] {
                if to == told.len() {
                    assert(kind_of(told[n - 1]) == Some(other));
                    assert(told[n - 1].message == told[start].message);
                }
            }
        }
        lemma_extend_tells(more, told, next, n);
        (n, more)
    }
}

/// A block that is no text gives what waits its entry; a call gets one of its
/// own, and a result reaches the call that it answers.
proof fn lemma_other_stands(
    timeline: TimelineModel,
    pending: PendingText,
    from: int,
    pieces: Seq<Piece>,
    told: Seq<Told>,
    next: Told,
    telling: Telling,
) -> (stand: (int, Seq<Piece>))
    requires
        stands(timeline, pending, from, pieces, told, next.message, telling),
        kind_of(next) is None,
        pieces.len() + 2 < u64::MAX,
    ensures
        ({
            let (after, held) = after_block(
                timeline,
                pending,
                next.role,
                next.block,
                telling.interrupted,
                telling.lifecycle,
            );
            &&& stands(after, held, stand.0, stand.1, told.push(next), next.message, telling)
            &&& after.max_entries == timeline.max_entries
            &&& goes_on(pieces, stand.1)
            &&& stand.1.len() - pieces.len() <= stand.0 - from
        }),
{
    let longer = told.push(next);
    let n = told.len() as int;
    let more = lemma_flush_stands(timeline, pending, from, pieces, told, next.message, telling);
    let base = flushed(timeline, pending);
    lemma_extend_tells(more, told, next, n);
    match next.block {
        ContentBlock::ToolCall { id, name, .. } => {
            lemma_extend_shows(base, more, told, next, telling, n);
            let tool = ActiveToolState {
                occurrence_id: base.next_id,
                tool_call_id: id,
                name,
                title: name,
                status: ToolCallStateStatus::InProgress,
                content_truncated: false,
            };
            lemma_start_shows(base, tool, more, longer, telling);
            let piece = Piece::Call { at: n };
            lemma_push_tells(more, piece, longer, n, n + 1);
            (n + 1, more.push(piece))
        },
        ContentBlock::ToolResult { tool_use_id, content, is_error } => {
            let status = crate::session_core::reconstruction::result_status(
                content@,
                is_error,
                telling.interrupted,
            );
            lemma_result_shows(
                base,
                more,
                told,
                next,
                telling,
                tool_use_id@,
                status,
                telling.lifecycle.projected(content@),
            );
            assert(pieces_tell(more, longer, n + 1));
            (n + 1, more)
        },
        _ => {
            lemma_extend_shows(base, more, told, next, telling, n);
            assert(pieces_tell(more, longer, n + 1));
            (n + 1, more)
        },
    }
}

proof fn lemma_blocks_stand(
    timeline: TimelineModel,
    pieces: Seq<Piece>,
    history: Seq<Message>,
    message: int,
    count: int,
    telling: Telling,
) -> (stand: (int, Seq<Piece>))
    requires
        0 <= message < history.len(),
        0 <= count <= history[message].content@.len(),
        stands(
            timeline,
            None,
            told(history, message).len() as int,
            pieces,
            told(history, message),
            message,
            telling,
        ),
        pieces.len() + count + 2 < u64::MAX,
    ensures
        ({
            let (after, held) = after_blocks(
                timeline,
                history[message],
                count,
                telling.interrupted,
                telling.lifecycle,
            );
            let now = told(history, message) + told_blocks(history, message, count);
            &&& stands(after, held, stand.0, stand.1, now, message, telling)
            &&& after.max_entries == timeline.max_entries
            &&& goes_on(pieces, stand.1)
            &&& stand.1.len() - pieces.len() <= stand.0 - told(history, message).len()
        }),
    decreases count,
{
    let earlier = told(history, message);
    if count == 0 {
        assert(earlier + told_blocks(history, message, 0) =~= earlier);
        (earlier.len() as int, pieces)
    } else {
        let (from, more) = lemma_blocks_stand(
            timeline,
            pieces,
            history,
            message,
            count - 1,
            telling,
        );
        let (before, held) = after_blocks(
            timeline,
            history[message],
            count - 1,
            telling.interrupted,
            telling.lifecycle,
        );
        let now = earlier + told_blocks(history, message, count - 1);
        let next = Told {
            message,
            role: history[message].role,
            block: history[message].content@[count - 1],
        };
        assert(now.push(next) =~= earlier + told_blocks(history, message, count));
        if kind_of(next) is Some {
            lemma_text_stands(
                before,
                held,
                from,
                more,
                now,
                next,
                telling,
                telling.interrupted,
                telling.lifecycle,
            )
        } else {
            lemma_other_stands(before, held, from, more, now, next, telling)
        }
    }
}

/// Whether a message is one of the user's that says something.
pub open spec fn says_something(message: Message) -> bool {
    message.role is User && exists|i: int|
        0 <= i < message.content@.len() && (#[trigger] message.content@[i]) is Text
}

/// How many turns a conversation's first messages start: one for each message in
/// which the user says something.
pub open spec fn turns(history: Seq<Message>, count: int) -> nat
    decreases count,
{
    if count <= 0 {
        0
    } else {
        turns(history, count - 1) + if says_something(history[count - 1]) {
            1nat
        } else {
            0
        }
    }
}

/// Whether a turn ends at a place: before the message that starts the next one,
/// or with the conversation.
pub open spec fn turn_ends_at(history: Seq<Message>, turn: int, at: int) -> bool {
    exists|m: int|
        {
            &&& 0 <= m <= history.len()
            &&& at == (#[trigger] told(history, m)).len()
            &&& turns(history, m) == turn + 1
            &&& m == history.len() || says_something(history[m])
        }
}

/// Whether pieces have the recorded outcome of each turn that ended, once, in
/// the order of the turns and where the turn ended.
pub open spec fn outcomes_told(
    pieces: Seq<Piece>,
    history: Seq<Message>,
    outcomes: Seq<AssistantOutcome>,
    ended: nat,
) -> bool {
    &&& forall|i: int|
        0 <= i < pieces.len() ==> (#[trigger] pieces[i] matches Piece::Outcome { turn, at } ==> 0
            <= turn < outcomes.len() && turn < ended && turn_ends_at(history, turn, at))
    &&& forall|turn: int|
        0 <= turn < ended && turn < outcomes.len() ==> #[trigger] has_outcome(pieces, turn)
    &&& forall|i: int, j: int|
        0 <= i < j < pieces.len() && (#[trigger] pieces[i]) is Outcome && (
        #[trigger] pieces[j]) is Outcome ==> pieces[i]->Outcome_turn < pieces[j]->Outcome_turn
}

pub open spec fn is_outcome(piece: Piece, turn: int) -> bool {
    piece matches Piece::Outcome { turn: ended, .. } && ended == turn
}

pub open spec fn has_outcome(pieces: Seq<Piece>, turn: int) -> bool {
    exists|i: int| 0 <= i < pieces.len() && #[trigger] is_outcome(pieces[i], turn)
}

proof fn lemma_outcomes_go_on(
    pieces: Seq<Piece>,
    more: Seq<Piece>,
    history: Seq<Message>,
    outcomes: Seq<AssistantOutcome>,
    ended: nat,
)
    requires
        outcomes_told(pieces, history, outcomes, ended),
        goes_on(pieces, more),
    ensures
        outcomes_told(more, history, outcomes, ended),
{
    assert forall|turn: int|
        0 <= turn < ended && turn < outcomes.len() implies #[trigger] has_outcome(more, turn) by {
        assert(has_outcome(pieces, turn));
        let i = choose|i: int| 0 <= i < pieces.len() && #[trigger] is_outcome(pieces[i], turn);
        assert(is_outcome(more[i], turn));
    }
    assert forall|i: int, j: int|
        0 <= i < j < more.len() && (#[trigger] more[i]) is Outcome && (
        #[trigger] more[j]) is Outcome implies more[i]->Outcome_turn < more[j]->Outcome_turn by {
        assert(j < pieces.len());
        assert(pieces[i] is Outcome && pieces[j] is Outcome);
    }
}

/// The outcome of a turn gets its entry where the turn ends, if it was recorded.
proof fn lemma_outcome_stands(
    timeline: TimelineModel,
    pieces: Seq<Piece>,
    history: Seq<Message>,
    message: int,
    telling: Telling,
    turn: nat,
) -> (more: Seq<Piece>)
    requires
        0 <= message <= history.len(),
        stands(
            timeline,
            None,
            told(history, message).len() as int,
            pieces,
            told(history, message),
            message,
            telling,
        ),
        outcomes_told(pieces, history, telling.outcomes, turn),
        turns(history, message) == turn + 1,
        message == history.len() || says_something(history[message]),
        pieces.len() + 1 < u64::MAX,
    ensures
        stands(
            with_outcome(timeline, telling.outcomes, turn),
            None,
            told(history, message).len() as int,
            more,
            told(history, message),
            message,
            telling,
        ),
        with_outcome(timeline, telling.outcomes, turn).max_entries == timeline.max_entries,
        outcomes_told(more, history, telling.outcomes, turn + 1),
        more.len() <= pieces.len() + 1,
{
    let all = told(history, message);
    let n = all.len() as int;
    assert(turn_ends_at(history, turn as int, n));
    if turn < telling.outcomes.len() {
        let piece = Piece::Outcome { turn: turn as int, at: n };
        let content = EntryContent::Outcome { outcome: telling.outcomes[turn as int] };
        lemma_push_shows(timeline, content, pieces, piece, all, telling);
        lemma_push_tells(pieces, piece, all, n, n);
        let more = pieces.push(piece);
        assert forall|other: int|
            0 <= other < turn + 1 && other < telling.outcomes.len() implies #[trigger] has_outcome(
            more,
            other,
        ) by {
            if other < turn {
                assert(has_outcome(pieces, other));
                let i = choose|i: int|
                    0 <= i < pieces.len() && #[trigger] is_outcome(pieces[i], other);
                assert(is_outcome(more[i], other));
            } else {
                assert(is_outcome(more[pieces.len() as int], other));
            }
        }
        assert forall|i: int, j: int|
            0 <= i < j < more.len() && (#[trigger] more[i]) is Outcome && (
            #[trigger] more[j]) is Outcome implies more[i]->Outcome_turn
            < more[j]->Outcome_turn by {
            if j < pieces.len() {
                assert(pieces[i] is Outcome && pieces[j] is Outcome);
            } else {
                assert(pieces[i] is Outcome);
            }
        }
        more
    } else {
        pieces
    }
}

proof fn lemma_told_before(history: Seq<Message>, count: int)
    requires
        0 <= count <= history.len(),
    ensures
        forall|q: int| 0 <= q < told(history, count).len() ==> 0 <= (#[trigger] told(history, count)[q]).message
            < count,
    decreases count,
{
    if count > 0 {
        lemma_told_before(history, count - 1);
    }
}

proof fn lemma_messages_stand(
    history: Seq<Message>,
    count: int,
    max_entries: usize,
    telling: Telling,
) -> (pieces: Seq<Piece>)
    requires
        0 <= count <= history.len(),
        told(history, count).len() + count + 3 < u64::MAX,
    ensures
        ({
            let state = after_messages(
                history,
                count,
                telling.outcomes,
                max_entries as nat,
                telling.interrupted,
                telling.lifecycle,
            );
            let all = told(history, count);
            let started = turns(history, count);
            &&& stands(state.timeline, None, all.len() as int, pieces, all, count, telling)
            &&& state.timeline.max_entries == TimelineModel::fresh(max_entries).max_entries
            &&& state.turn_started == (started > 0)
            &&& state.ended_turns == if started > 0 {
                started - 1
            } else {
                0
            }
            &&& outcomes_told(pieces, history, telling.outcomes, state.ended_turns)
            &&& pieces.len() <= all.len() + count
        }),
    decreases count,
{
    if count == 0 {
        crate::session_timeline::course::law_new_reducer_is_sound(max_entries);
        seq![]
    } else {
        let m = count - 1;
        let earlier = lemma_messages_stand(history, m, max_entries, telling);
        let state = after_messages(
            history,
            m,
            telling.outcomes,
            max_entries as nat,
            telling.interrupted,
            telling.lifecycle,
        );
        let message = history[m];
        assert(starts_turn(message) == says_something(message));
        let ends = starts_turn(message) && state.turn_started;
        let base = if ends {
            with_outcome(state.timeline, telling.outcomes, state.ended_turns)
        } else {
            state.timeline
        };
        let begun = if ends {
            lemma_outcome_stands(
                state.timeline,
                earlier,
                history,
                m,
                telling,
                state.ended_turns,
            )
        } else {
            earlier
        };
        let ended = if ends {
            state.ended_turns + 1
        } else {
            state.ended_turns
        };
        let blocks = message.content@.len() as int;
        let (from, more) = lemma_blocks_stand(base, begun, history, m, blocks, telling);
        let (timeline, held) = after_blocks(
            base,
            message,
            blocks,
            telling.interrupted,
            telling.lifecycle,
        );
        let all = told(history, count);
        let pieces = lemma_flush_stands(timeline, held, from, more, all, m, telling);
        lemma_told_before(history, count);
        assert(goes_on(begun, pieces));
        lemma_outcomes_go_on(begun, pieces, history, telling.outcomes, ended);
        pieces
    }
}

/// What a conversation is restored as. Its blocks fall into pieces: texts of one
/// kind that follow each other in one message, tool calls, and, where each turn
/// ends, its recorded outcome; every text, thought and tool call is in one. The
/// timeline shows the newest pieces in their order, as many as it retains, and
/// counts the others as truncated. A text is shown whole. A call is shown under
/// its id and name. The result that answers it leaves its output, and `Failed`
/// exactly if it is an error, `Completed` exactly if it is none, unless it says
/// that the call was interrupted; a call without an answer is cancelled. No tool
/// is active.
pub proof fn law_restored_timeline_tells_the_conversation(
    history: Seq<Message>,
    outcomes: Seq<AssistantOutcome>,
    max_entries: usize,
    interrupted: Seq<char>,
    lifecycle: CanonicalToolLifecycle,
) -> (pieces: Seq<Piece>)
    requires
        told(history, history.len() as int).len() + history.len() + 4 < u64::MAX,
    ensures
        ({
            let all = told(history, history.len() as int);
            let telling = Telling { outcomes, interrupted, lifecycle };
            let restored = reconstructed(
                history,
                outcomes,
                max_entries as nat,
                interrupted,
                lifecycle,
            );
            let entries = restored.timeline;
            let retained: int = if max_entries == 0 {
                1
            } else {
                max_entries as int
            };
            &&& pieces_tell(pieces, all, all.len() as int)
            &&& outcomes_told(pieces, history, outcomes, turns(history, history.len() as int))
            &&& entries.len() == if pieces.len() <= retained {
                pieces.len() as int
            } else {
                retained
            }
            &&& restored.window.truncated_before == pieces.len() - entries.len()
            &&& forall|i: int|
                0 <= i < entries.len() ==> shows(
                    (#[trigger] entries[i]).content,
                    pieces[i + pieces.len() - entries.len()],
                    all,
                    telling,
                    true,
                )
            &&& restored.active.len() == 0
        }),
{
    let count = history.len() as int;
    let all = told(history, count);
    let telling = Telling { outcomes, interrupted, lifecycle };
    let earlier = lemma_messages_stand(history, count, max_entries, telling);
    let state = after_messages(
        history,
        count,
        outcomes,
        max_entries as nat,
        interrupted,
        lifecycle,
    );
    let pieces = if state.turn_started {
        lemma_outcome_stands(
            state.timeline,
            earlier,
            history,
            count,
            telling,
            state.ended_turns,
        )
    } else {
        earlier
    };
    let open = if state.turn_started {
        with_outcome(state.timeline, outcomes, state.ended_turns)
    } else {
        state.timeline
    };
    let restored = reconstructed(history, outcomes, max_entries as nat, interrupted, lifecycle);
    lemma_cancelled_pointwise(open.timeline, open.active);
    lemma_cancelled_keeps_ids(open.timeline, open.active);
    assert forall|i: int| 0 <= i < restored.timeline.len() implies shows(
        (#[trigger] restored.timeline[i]).content,
        pieces[i + pieces.len() - restored.timeline.len()],
        all,
        telling,
        true,
    ) by {
        let entry = open.timeline[i];
        let piece = pieces[i + pieces.len() - open.timeline.len()];
        assert(shows(entry.content, piece, all, telling, false));
        if let Piece::Call { at } = piece {
            if forall|result: int| !#[trigger] answers(all, at, result) {
                assert(unfinished(entry));
                assert(is_active(open.active, entry.id));
            } else {
                let result = choose|result: int| #[trigger] answers(all, at, result);
                assert(settled_by(
                    entry.content->Tool_status,
                    entry.content->Tool_output,
                    all[result].block,
                    telling,
                ));
                if is_active(open.active, entry.id) {
                    let j = choose|j: int|
                        0 <= j < open.active.len() && (#[trigger] open.active[j]).occurrence_id
                            == entry.id;
                    assert(shows_tool(entry, open.active[j]));
                    assert(!open.active[j].status.terminal());
                }
            }
        }
    }
    pieces
}

/// A result whose call is the only one with its id, and which is the only result
/// for it, leaves its mark on every entry of that call: `Failed` if and only if
/// it is an error, `Completed` if and only if it is none, and what it says.
pub proof fn law_result_decides_how_its_call_is_restored(
    history: Seq<Message>,
    outcomes: Seq<AssistantOutcome>,
    max_entries: usize,
    interrupted: Seq<char>,
    lifecycle: CanonicalToolLifecycle,
    call: int,
    result: int,
    id: Seq<char>,
)
    requires
        told(history, history.len() as int).len() + history.len() + 4 < u64::MAX,
        0 <= call < result < told(history, history.len() as int).len(),
        ({
            let all = told(history, history.len() as int);
            &&& forall|q: int|
                0 <= q < all.len() ==> ((#[trigger] all[q]).block matches ContentBlock::ToolCall {
                    id: called,
                    ..
                } && called@ == id <==> q == call)
            &&& forall|q: int|
                0 <= q < all.len() ==> ((#[trigger] all[q]).block matches ContentBlock::ToolResult {
                    tool_use_id,
                    ..
                } && tool_use_id@ == id <==> q == result)
            &&& all[result].block->ToolResult_content@ != interrupted
        }),
    ensures
        ({
            let all = told(history, history.len() as int);
            let entries = reconstructed(
                history,
                outcomes,
                max_entries as nat,
                interrupted,
                lifecycle,
            ).timeline;
            let failed = all[result].block->ToolResult_is_error;
            let said = all[result].block->ToolResult_content@;
            &&& forall|i: int|
                0 <= i < entries.len() && ((#[trigger] entries[i]).content is Tool
                    && entries[i].content->Tool_tool_call_id == id) ==> {
                    &&& entries[i].content->Tool_status is Failed <==> failed
                    &&& entries[i].content->Tool_status is Completed <==> !failed
                    &&& entries[i].content->Tool_output == Some(lifecycle.projected(said))
                }
            &&& all.len() + history.len() + 1 <= max_entries ==> exists|i: int|
                0 <= i < entries.len() && (#[trigger] entries[i]).content is Tool
                    && entries[i].content->Tool_tool_call_id == id
        }),
{
    let all = told(history, history.len() as int);
    let telling = Telling { outcomes, interrupted, lifecycle };
    let pieces = law_restored_timeline_tells_the_conversation(
        history,
        outcomes,
        max_entries,
        interrupted,
        lifecycle,
    );
    let entries = reconstructed(
        history,
        outcomes,
        max_entries as nat,
        interrupted,
        lifecycle,
    ).timeline;
    let upto = all.take(result);
    let waiting = open_calls(upto, id);
    lemma_open_calls(upto, id);
    assert(all[call].block is ToolCall && all[call].block->ToolCall_id@ == id);
    assert(all[result].block is ToolResult && all[result].block->ToolResult_tool_use_id@ == id);
    lemma_waits_until_answered(upto, id, call);
    assert forall|other: int| !#[trigger] answers(upto, call, other) by {
        if answers(upto, call, other) {
            let named = upto[other].block->ToolResult_tool_use_id@;
            lemma_open_calls(upto.take(other), named);
            let before = open_calls(upto.take(other), named);
            assert(before[before.len() - 1] == call);
            assert(all[other] == upto[other]);
        }
    }
    assert(waiting.contains(call));
    assert forall|k: int| 0 <= k < waiting.len() implies #[trigger] waiting[k] == call by {
        assert(all[waiting[k]] == upto[waiting[k]]);
    }
    assert(waiting[waiting.len() - 1] == call);
    assert(answers(all, call, result));
    assert forall|i: int|
        0 <= i < entries.len() && ((#[trigger] entries[i]).content is Tool
            && entries[i].content->Tool_tool_call_id == id) implies settled_by(
        entries[i].content->Tool_status,
        entries[i].content->Tool_output,
        all[result].block,
        telling,
    ) by {
        let piece = pieces[i + pieces.len() - entries.len()];
        assert(shows(entries[i].content, piece, all, telling, true));
        assert(is_piece_of(piece, all));
        if let Piece::Call { at } = piece {
            assert(all[at].block->ToolCall_id@ == id);
        }
    }
    if all.len() + history.len() + 1 <= max_entries {
        lemma_few_pieces(history, outcomes, max_entries, interrupted, lifecycle, pieces);
        let j = lemma_call_piece(pieces, all, call);
        assert(shows(entries[j].content, pieces[j], all, telling, true));
    }
}

/// There are no more pieces than blocks and turns.
proof fn lemma_few_pieces(
    history: Seq<Message>,
    outcomes: Seq<AssistantOutcome>,
    max_entries: usize,
    interrupted: Seq<char>,
    lifecycle: CanonicalToolLifecycle,
    pieces: Seq<Piece>,
)
    requires
        pieces_tell(
            pieces,
            told(history, history.len() as int),
            told(history, history.len() as int).len() as int,
        ),
        outcomes_told(pieces, history, outcomes, turns(history, history.len() as int)),
    ensures
        pieces.len() <= told(history, history.len() as int).len() + history.len(),
{
    let all = told(history, history.len() as int);
    lemma_turns_bounded(history, history.len() as int);
    lemma_pieces_counted(
        pieces,
        all,
        pieces.len() as int,
        turns(history, history.len() as int) as int,
    );
}

proof fn lemma_turns_bounded(history: Seq<Message>, count: int)
    requires
        0 <= count,
    ensures
        turns(history, count) <= count,
    decreases count,
{
    if count > 0 {
        lemma_turns_bounded(history, count - 1);
    }
}

/// How many of the first pieces are outcomes.
spec fn outcome_count(pieces: Seq<Piece>, count: int) -> nat
    decreases count,
{
    if count <= 0 {
        0
    } else {
        outcome_count(pieces, count - 1) + if pieces[count - 1] is Outcome {
            1nat
        } else {
            0
        }
    }
}

proof fn lemma_pieces_counted(pieces: Seq<Piece>, told: Seq<Told>, count: int, turns: int)
    requires
        0 <= count <= pieces.len(),
        pieces_tell(pieces, told, told.len() as int),
        forall|i: int|
            0 <= i < pieces.len() && (#[trigger] pieces[i]) is Outcome ==> 0
                <= pieces[i]->Outcome_turn < turns,
        forall|i: int, j: int|
            0 <= i < j < pieces.len() && (#[trigger] pieces[i]) is Outcome && (
            #[trigger] pieces[j]) is Outcome ==> pieces[i]->Outcome_turn
                < pieces[j]->Outcome_turn,
        turns >= 0,
    ensures
        count <= told.len() + turns,
{
    lemma_counted(pieces, told, count);
    lemma_outcomes_counted(pieces, count);
    if outcome_count(pieces, count) > turns {
        let last = lemma_last_outcome(pieces, count);
        lemma_outcomes_counted(pieces, count);
        assert(pieces[last]->Outcome_turn < turns);
    }
}

proof fn lemma_counted(pieces: Seq<Piece>, told: Seq<Told>, count: int)
    requires
        0 <= count <= pieces.len(),
        pieces_tell(pieces, told, told.len() as int),
    ensures
        count > 0 ==> count <= pieces[count - 1].end() + outcome_count(pieces, count),
        count > 0 ==> pieces[count - 1].end() <= told.len(),
    decreases count,
{
    if count > 0 {
        lemma_counted(pieces, told, count - 1);
        assert(is_piece_of(pieces[count - 1], told));
        if count > 1 {
            assert(pieces[count - 2].end() <= pieces[count - 1].begin());
        }
    }
}

proof fn lemma_outcomes_counted(pieces: Seq<Piece>, count: int)
    requires
        0 <= count <= pieces.len(),
        forall|i: int|
            0 <= i < pieces.len() && (#[trigger] pieces[i]) is Outcome ==> 0
                <= pieces[i]->Outcome_turn,
        forall|i: int, j: int|
            0 <= i < j < pieces.len() && (#[trigger] pieces[i]) is Outcome && (
            #[trigger] pieces[j]) is Outcome ==> pieces[i]->Outcome_turn
                < pieces[j]->Outcome_turn,
    ensures
        forall|i: int|
            0 <= i < count && (#[trigger] pieces[i]) is Outcome ==> outcome_count(pieces, i + 1)
                <= pieces[i]->Outcome_turn + 1,
    decreases count,
{
    if count > 0 {
        lemma_outcomes_counted(pieces, count - 1);
        let i = count - 1;
        if pieces[i] is Outcome && outcome_count(pieces, i) > 0 {
            let last = lemma_last_outcome(pieces, i);
            assert(pieces[last] is Outcome);
            assert(pieces[last]->Outcome_turn < pieces[i]->Outcome_turn);
        }
    }
}

proof fn lemma_last_outcome(pieces: Seq<Piece>, count: int) -> (last: int)
    requires
        0 <= count <= pieces.len(),
        outcome_count(pieces, count) > 0,
    ensures
        0 <= last < count,
        pieces[last] is Outcome,
        outcome_count(pieces, last + 1) == outcome_count(pieces, count),
    decreases count,
{
    if pieces[count - 1] is Outcome {
        count - 1
    } else {
        lemma_last_outcome(pieces, count - 1)
    }
}

} // verus!
