//! What holds of a timeline whatever a reducer goes through.
use vstd::prelude::*;
use crate::session_protocol::{
    ActiveToolState, HistoryWindow, SessionEvent, ToolCallStateStatus,
};
use crate::session_timeline::{
    highest_id, is_call, is_open_tool, is_tool_occurrence, lemma_last_where_found,
    lemma_last_where_holds, lemma_with_active_status_prefix, lemma_with_occurrence_keeps_ids,
    saturating_sum, with_active_status, with_active_statuses, with_cancelled, with_occurrence,
    with_tool_status, EntryContent, EntryModel, TextKind, TimelineModel,
};

verus! {

broadcast use vstd::string::group_string_axioms;

/// One thing that a reducer is asked to do.
pub enum ReducerStep {
    Apply(SessionEvent),
    PushReconstructed(EntryContent),
    PushSystem(Seq<char>),
    StartTool { tool_call_id: String, name: String, title: String },
    UpdateTool { tool_call_id: Seq<char>, status: ToolCallStateStatus, output: Seq<char> },
    CancelActive,
    Clear,
}

impl ReducerStep {
    /// Whether the step puts in an unfinished tool call ready-made.
    pub open spec fn puts_running(self) -> bool {
        self matches ReducerStep::PushReconstructed(content) && runs(content)
    }

    /// Whether the step forgets the conversation.
    pub open spec fn clears(self) -> bool {
        self is Clear || (self matches ReducerStep::Apply(event) && event is ConversationCleared)
    }
}

impl TimelineModel {
    pub open spec fn after(self, step: ReducerStep) -> Self {
        match step {
            ReducerStep::Apply(event) => self.applied(event),
            ReducerStep::PushReconstructed(content) => self.closed().pushed(content),
            ReducerStep::PushSystem(text) => self.closed().pushed(
                EntryContent::System { text, truncated: false },
            ),
            ReducerStep::StartTool { tool_call_id, name, title } => self.with_tool_start(
                ActiveToolState {
                    occurrence_id: self.next_id,
                    tool_call_id,
                    name,
                    title,
                    status: ToolCallStateStatus::InProgress,
                    content_truncated: false,
                },
                ToolCallStateStatus::InProgress,
            ),
            ReducerStep::UpdateTool { tool_call_id, status, output } => self.with_tool_update(
                tool_call_id,
                status,
                Some(output),
            ),
            ReducerStep::CancelActive => self.all_cancelled(),
            ReducerStep::Clear => self.cleared(),
        }
    }

    /// Whether a step makes a new entry.
    pub open spec fn pushes(self, step: ReducerStep) -> bool {
        match step {
            ReducerStep::Apply(event) => match event {
                SessionEvent::UserMessage { .. } => true,
                SessionEvent::AssistantDone { .. } => true,
                SessionEvent::ToolCallStarted { .. } => true,
                SessionEvent::AssistantDelta { .. } => !self.continues(TextKind::Assistant),
                SessionEvent::ThoughtDelta { .. } => !self.continues(TextKind::Thought),
                _ => false,
            },
            ReducerStep::PushReconstructed(_) => true,
            ReducerStep::PushSystem(_) => true,
            ReducerStep::StartTool { .. } => true,
            _ => false,
        }
    }

    pub open spec fn after_all(self, steps: Seq<ReducerStep>) -> Self
        decreases steps.len(),
    {
        if steps.len() == 0 {
            self
        } else {
            self.after_all(steps.drop_last()).after(steps.last())
        }
    }

    /// Whether an id is left for every entry that the steps make.
    pub open spec fn enough_ids(self, steps: Seq<ReducerStep>) -> bool
        decreases steps.len(),
    {
        steps.len() == 0 || {
            let before = self.after_all(steps.drop_last());
            &&& self.enough_ids(steps.drop_last())
            &&& before.pushes(steps.last()) ==> before.next_id < u64::MAX
        }
    }

    /// How many entries the steps made since the last one that cleared.
    pub open spec fn created(self, steps: Seq<ReducerStep>) -> nat
        decreases steps.len(),
    {
        if steps.len() == 0 || steps.last().clears() {
            0
        } else {
            self.created(steps.drop_last()) + if self.after_all(steps.drop_last()).pushes(
                steps.last(),
            ) {
                1nat
            } else {
                0
            }
        }
    }

    /// Whether a reducer has just been made: from new, or from recorded parts
    /// that leave an id.
    pub open spec fn begins(self) -> bool {
        ||| exists|max_entries: usize| self == #[trigger] TimelineModel::fresh(max_entries)
        ||| exists|
            timeline: Seq<EntryModel>,
            active: Seq<ActiveToolState>,
            window: HistoryWindow,
            max_entries: usize,
        |
            self == #[trigger] TimelineModel::resumed(timeline, active, window, max_entries)
                && highest_id(timeline, active) < u64::MAX
    }

    /// Every id, order and occurrence in use lies below the next id.
    pub open spec fn ids_below(self) -> bool {
        &&& forall|i: int|
            0 <= i < self.timeline.len() ==> (#[trigger] self.timeline[i]).id < self.next_id
                && self.timeline[i].order < self.next_id
        &&& forall|i: int|
            0 <= i < self.active.len() ==> (#[trigger] self.active[i]).occurrence_id < self.next_id
    }

    /// The open entry is the newest one, and streamed text.
    pub open spec fn open_is_last_text(self) -> bool {
        self.open matches Some(id) ==> {
            &&& self.timeline.len() > 0
            &&& self.timeline.last().id == id
            &&& self.timeline.last().content is Assistant || self.timeline.last().content is Thought
        }
    }

    /// Each active tool is unfinished, they stand in the order of their
    /// occurrences, and a retained entry of one shows what it says.
    pub open spec fn shows_active(self) -> bool {
        &&& self.active_unfinished()
        &&& forall|i: int, j: int|
            0 <= i < j < self.active.len() ==> (#[trigger] self.active[i]).occurrence_id < (
            #[trigger] self.active[j]).occurrence_id
        &&& forall|i: int, j: int|
            0 <= i < self.timeline.len() && 0 <= j < self.active.len() && (
            #[trigger] self.timeline[i]).id == (#[trigger] self.active[j]).occurrence_id
                ==> shows_tool(self.timeline[i], self.active[j])
    }

    /// What holds of a reducer from new, and of one that goes on from the parts
    /// of another: its entries stand in order, and it shows its active tools.
    pub open spec fn sound(self) -> bool {
        &&& self.well_formed()
        &&& self.ordered()
        &&& self.shows_active()
    }

    /// Every unfinished entry is that of an active tool.
    pub open spec fn unfinished_are_active(self) -> bool {
        forall|i: int|
            0 <= i < self.timeline.len() && unfinished(#[trigger] self.timeline[i]) ==> is_active(
                self.active,
                self.timeline[i].id,
            )
    }
}

/// Whether an entry holds a tool call that has not finished.
pub open spec fn runs(content: EntryContent) -> bool {
    content matches EntryContent::Tool { status, .. } && !status.terminal()
}

pub open spec fn unfinished(entry: EntryModel) -> bool {
    runs(entry.content)
}

pub open spec fn is_active(active: Seq<ActiveToolState>, occurrence_id: u64) -> bool {
    exists|j: int| 0 <= j < active.len() && (#[trigger] active[j]).occurrence_id == occurrence_id
}

/// Whether an entry is the call of an active tool, with its names and status.
pub open spec fn shows_tool(entry: EntryModel, tool: ActiveToolState) -> bool {
    entry.content matches EntryContent::Tool { tool_call_id, name, title, status, .. }
        && tool_call_id == tool.tool_call_id@ && name == tool.name@ && title == tool.title@
        && status == tool.status
}

pub proof fn lemma_cancelled_keeps_ids(timeline: Seq<EntryModel>, active: Seq<ActiveToolState>)
    ensures
        with_cancelled(timeline, active).len() == timeline.len(),
        forall|i: int|
            0 <= i < timeline.len() ==> (#[trigger] with_cancelled(timeline, active)[i]).id
                == timeline[i].id && with_cancelled(timeline, active)[i].order == timeline[i].order
                && (with_cancelled(timeline, active)[i].content is Tool
                <==> timeline[i].content is Tool) && (!(timeline[i].content is Tool)
                ==> with_cancelled(timeline, active)[i] == timeline[i]),
    decreases active.len(),
{
    if active.len() > 0 {
        let before = with_cancelled(timeline, active.drop_last());
        lemma_cancelled_keeps_ids(timeline, active.drop_last());
        lemma_with_occurrence_keeps_ids(
            before,
            active.last().occurrence_id,
            ToolCallStateStatus::Cancelled,
            None,
        );
        lemma_last_where_holds(
            before,
            |entry: EntryModel| is_tool_occurrence(entry, active.last().occurrence_id),
        );
        assert forall|i: int| 0 <= i < timeline.len() implies (#[trigger] with_cancelled(
            timeline,
            active,
        )[i]).id == timeline[i].id && with_cancelled(timeline, active)[i].order
            == timeline[i].order && (with_cancelled(timeline, active)[i].content is Tool
            <==> timeline[i].content is Tool) && (!(timeline[i].content is Tool) ==> with_cancelled(
            timeline,
            active,
        )[i] == timeline[i]) by {
            assert(before[i].id == timeline[i].id);
        }
    }
}

/// Whether one more entry was made: it is retained where there is room, and
/// the oldest one is dropped and counted where there is none.
spec fn grown(before: TimelineModel, after: TimelineModel) -> bool {
    &&& after.well_formed()
    &&& after.max_entries == before.max_entries
    &&& after.next_id == saturating_sum(before.next_id as nat, 1)
    &&& if before.timeline.len() < before.max_entries {
        after.timeline.len() == before.timeline.len() + 1 && after.window.truncated_before
            == before.window.truncated_before
    } else {
        after.timeline.len() == before.timeline.len() && after.window.truncated_before
            == saturating_sum(before.window.truncated_before as nat, 1)
    }
}

/// Whether the count of entries and the next id stayed.
spec fn kept(before: TimelineModel, after: TimelineModel) -> bool {
    &&& after.well_formed()
    &&& after.max_entries == before.max_entries
    &&& after.next_id == before.next_id
    &&& after.timeline.len() == before.timeline.len()
    &&& after.window == before.window
}

proof fn lemma_push_grows(state: TimelineModel, content: EntryContent)
    requires
        state.well_formed(),
    ensures
        grown(state, state.closed().pushed(content)),
{
}

proof fn lemma_text_grows(state: TimelineModel, kind: TextKind, text: Seq<char>)
    requires
        state.well_formed(),
    ensures
        if state.continues(kind) {
            kept(state, state.with_text(kind, text))
        } else {
            grown(state, state.with_text(kind, text))
        },
{
    lemma_push_grows(state, super::fresh_text(kind, text));
}

proof fn lemma_start_grows(state: TimelineModel, tool: ActiveToolState, status: ToolCallStateStatus)
    requires
        state.well_formed(),
    ensures
        grown(state, state.with_tool_start(tool, status)),
{
    lemma_push_grows(
        state,
        EntryContent::Tool {
            tool_call_id: tool.tool_call_id@,
            name: tool.name@,
            title: tool.title@,
            status,
            output: None,
            truncated: false,
        },
    );
}

proof fn lemma_update_keeps(
    state: TimelineModel,
    tool_call_id: Seq<char>,
    status: ToolCallStateStatus,
    output: Option<Seq<char>>,
)
    requires
        state.well_formed(),
    ensures
        kept(state, state.with_tool_update(tool_call_id, status, output)),
{
    if let Some(occurrence_id) = state.occurrence_of(tool_call_id) {
        lemma_with_occurrence_keeps_ids(state.timeline, occurrence_id, status, output);
    }
}

proof fn lemma_event_counts(state: TimelineModel, event: SessionEvent)
    requires
        state.well_formed(),
        !(event is ConversationCleared),
    ensures
        if state.pushes(ReducerStep::Apply(event)) {
            grown(state, state.applied(event))
        } else {
            kept(state, state.applied(event))
        },
{
    match event {
        SessionEvent::UserMessage { text, .. } => {
            lemma_push_grows(state, EntryContent::User { text: text@, truncated: false });
        },
        SessionEvent::AssistantDone { outcome } => {
            lemma_push_grows(state, EntryContent::Outcome { outcome });
        },
        SessionEvent::AssistantDelta { text } => {
            lemma_text_grows(state, TextKind::Assistant, text@);
        },
        SessionEvent::ThoughtDelta { text } => {
            lemma_text_grows(state, TextKind::Thought, text@);
        },
        SessionEvent::ToolCallStarted { id, name, title, .. } => {
            lemma_start_grows(
                state,
                ActiveToolState {
                    occurrence_id: state.next_id,
                    tool_call_id: id,
                    name,
                    title,
                    status: ToolCallStateStatus::Pending,
                    content_truncated: false,
                },
                ToolCallStateStatus::Pending,
            );
        },
        SessionEvent::ToolCallUpdated { id, status } => {
            lemma_update_keeps(state, id@, status, None);
        },
        SessionEvent::ToolCallFinished { id, status, output } => {
            lemma_update_keeps(state, id@, status, Some(output@));
        },
        _ => {},
    }
}

/// What one step does to the count of entries and to the next id.
proof fn lemma_step_counts(state: TimelineModel, step: ReducerStep)
    requires
        state.well_formed(),
    ensures
        state.after(step).well_formed(),
        state.after(step).max_entries == state.max_entries,
        step.clears() ==> state.after(step) == state.cleared(),
        !step.clears() && !state.pushes(step) ==> kept(state, state.after(step)),
        state.pushes(step) ==> grown(state, state.after(step)),
{
    match step {
        ReducerStep::Apply(event) => {
            if !(event is ConversationCleared) {
                lemma_event_counts(state, event);
            }
        },
        ReducerStep::PushReconstructed(content) => {
            lemma_push_grows(state, content);
        },
        ReducerStep::PushSystem(text) => {
            lemma_push_grows(state, EntryContent::System { text, truncated: false });
        },
        ReducerStep::StartTool { tool_call_id, name, title } => {
            lemma_start_grows(
                state,
                ActiveToolState {
                    occurrence_id: state.next_id,
                    tool_call_id,
                    name,
                    title,
                    status: ToolCallStateStatus::InProgress,
                    content_truncated: false,
                },
                ToolCallStateStatus::InProgress,
            );
        },
        ReducerStep::UpdateTool { tool_call_id, status, output } => {
            lemma_update_keeps(state, tool_call_id, status, Some(output));
        },
        ReducerStep::CancelActive => {
            lemma_cancelled_keeps_ids(state.timeline, state.active);
        },
        ReducerStep::Clear => {},
    }
}

proof fn lemma_course_well_formed(start: TimelineModel, steps: Seq<ReducerStep>)
    requires
        start.well_formed(),
    ensures
        start.after_all(steps).well_formed(),
        start.after_all(steps).max_entries == start.max_entries,
    decreases steps.len(),
{
    if steps.len() > 0 {
        lemma_course_well_formed(start, steps.drop_last());
        lemma_step_counts(start.after_all(steps.drop_last()), steps.last());
    }
}

/// The window counts what was dropped: whatever a new reducer goes through, it
/// retains no more entries than its limit, and the count of truncated entries
/// is the number of entries made since the last clear that are retained no more
/// (as far as 64 bits count).
pub proof fn law_truncation_is_counted(max_entries: usize, steps: Seq<ReducerStep>)
    ensures
        ({
            let start = TimelineModel::fresh(max_entries);
            let now = start.after_all(steps);
            let dropped = start.created(steps) - now.timeline.len();
            &&& now.well_formed()
            &&& now.max_entries == start.max_entries
            &&& dropped >= 0
            &&& now.window.truncated_before == if dropped > u64::MAX {
                u64::MAX as int
            } else {
                dropped
            }
        }),
    decreases steps.len(),
{
    if steps.len() > 0 {
        law_truncation_is_counted(max_entries, steps.drop_last());
        let before = TimelineModel::fresh(max_entries).after_all(steps.drop_last());
        lemma_step_counts(before, steps.last());
    }
}

proof fn lemma_step_ids(state: TimelineModel, step: ReducerStep)
    requires
        state.well_formed(),
        state.ids_below(),
        state.pushes(step) ==> state.next_id < u64::MAX,
    ensures
        state.after(step).ids_below(),
        state.after(step).next_id >= state.next_id,
{
    lemma_step_counts(state, step);
    lemma_cancelled_keeps_ids(state.timeline, state.active);
    match step {
        ReducerStep::Apply(SessionEvent::ToolCallUpdated { id, status }) => {
            lemma_update_ids(state, id@, status, None);
        },
        ReducerStep::Apply(SessionEvent::ToolCallFinished { id, status, output }) => {
            lemma_update_ids(state, id@, status, Some(output@));
        },
        ReducerStep::UpdateTool { tool_call_id, status, output } => {
            lemma_update_ids(state, tool_call_id, status, Some(output));
        },
        _ => {},
    }
}

proof fn lemma_update_ids(
    state: TimelineModel,
    tool_call_id: Seq<char>,
    status: ToolCallStateStatus,
    output: Option<Seq<char>>,
)
    requires
        state.ids_below(),
    ensures
        state.with_tool_update(tool_call_id, status, output).ids_below(),
{
    if let Some(occurrence_id) = state.occurrence_of(tool_call_id) {
        lemma_with_occurrence_keeps_ids(state.timeline, occurrence_id, status, output);
        super::lemma_with_active_status_keeps(state.active, occurrence_id, status);
        let keep = |tool: ActiveToolState| tool.occurrence_id != occurrence_id;
        let kept = state.active.filter(keep);
        assert forall|i: int| 0 <= i < kept.len() implies (#[trigger] kept[i]).occurrence_id
            < state.next_id by {
            assert(kept.contains(kept[i]));
            state.active.lemma_filter_contains_rev(keep, kept[i]);
        }
    }
}

proof fn lemma_course_ids(start: TimelineModel, steps: Seq<ReducerStep>)
    requires
        start.well_formed(),
        start.ids_below(),
        start.enough_ids(steps),
    ensures
        start.after_all(steps).ids_below(),
        start.after_all(steps).next_id >= start.next_id,
    decreases steps.len(),
{
    if steps.len() > 0 {
        lemma_course_ids(start, steps.drop_last());
        lemma_course_well_formed(start, steps.drop_last());
        lemma_step_ids(start.after_all(steps.drop_last()), steps.last());
    }
}

/// Ids are never used twice: whatever a reducer goes through, clearing
/// included, the next id is larger than every id, order and occurrence that it
/// held at any time, as long as ids are left.
pub proof fn law_ids_are_never_reused(start: TimelineModel, steps: Seq<ReducerStep>, count: int)
    requires
        start.well_formed(),
        start.ids_below(),
        start.enough_ids(steps),
        0 <= count <= steps.len(),
    ensures
        ({
            let earlier = start.after_all(steps.take(count));
            let now = start.after_all(steps);
            &&& earlier.next_id <= now.next_id
            &&& forall|i: int|
                0 <= i < earlier.timeline.len() ==> (#[trigger] earlier.timeline[i]).id
                    < now.next_id && earlier.timeline[i].order < now.next_id
            &&& forall|i: int|
                0 <= i < earlier.active.len() ==> (#[trigger] earlier.active[i]).occurrence_id
                    < now.next_id
        }),
    decreases steps.len(),
{
    if count == steps.len() {
        assert(steps.take(count) =~= steps);
        lemma_course_ids(start, steps);
    } else {
        assert(steps.drop_last().take(count) =~= steps.take(count));
        law_ids_are_never_reused(start, steps.drop_last(), count);
        lemma_course_ids(start, steps.drop_last());
        lemma_course_well_formed(start, steps.drop_last());
        lemma_step_ids(start.after_all(steps.drop_last()), steps.last());
    }
}

/// A pushed entry is the newest, stands under the next id, and is not open to
/// more text.
pub proof fn law_pushed_entry_is_newest(state: TimelineModel, content: EntryContent)
    requires
        state.well_formed(),
    ensures
        state.after(ReducerStep::PushReconstructed(content)).timeline.last() == (EntryModel {
            id: state.next_id,
            order: state.next_id,
            content,
        }),
        state.after(ReducerStep::PushReconstructed(content)).open is None,
{
}

proof fn lemma_highest(timeline: Seq<EntryModel>, active: Seq<ActiveToolState>)
    ensures
        forall|i: int|
            0 <= i < timeline.len() ==> (#[trigger] timeline[i]).id <= highest_id(timeline, active)
                && timeline[i].order <= highest_id(timeline, active),
        forall|i: int|
            0 <= i < active.len() ==> (#[trigger] active[i]).occurrence_id <= highest_id(
                timeline,
                active,
            ),
    decreases timeline.len() + active.len(),
{
    if timeline.len() > 0 {
        let rest = timeline.drop_last();
        lemma_highest(rest, active);
        assert forall|i: int| 0 <= i < timeline.len() implies (#[trigger] timeline[i]).id
            <= highest_id(timeline, active) && timeline[i].order <= highest_id(timeline, active) by {
            if i < rest.len() {
                assert(rest[i] == timeline[i]);
            }
        }
    } else if active.len() > 0 {
        let rest = active.drop_last();
        lemma_highest(timeline, rest);
        assert forall|i: int| 0 <= i < active.len() implies (#[trigger] active[i]).occurrence_id
            <= highest_id(timeline, active) by {
            if i < rest.len() {
                assert(rest[i] == active[i]);
            }
        }
    }
}

pub proof fn lemma_statuses_keep_ids(timeline: Seq<EntryModel>, active: Seq<ActiveToolState>)
    ensures
        with_active_statuses(timeline, active).len() == timeline.len(),
        forall|i: int|
            0 <= i < timeline.len() ==> (#[trigger] with_active_statuses(timeline, active)[i]).id
                == timeline[i].id && with_active_statuses(timeline, active)[i].order
                == timeline[i].order,
    decreases active.len(),
{
    if active.len() > 0 {
        let before = with_active_statuses(timeline, active.drop_last());
        lemma_statuses_keep_ids(timeline, active.drop_last());
        lemma_with_occurrence_keeps_ids(
            before,
            active.last().occurrence_id,
            active.last().status,
            None,
        );
        assert forall|i: int| 0 <= i < timeline.len() implies (#[trigger] with_active_statuses(
            timeline,
            active,
        )[i]).id == timeline[i].id && with_active_statuses(timeline, active)[i].order
            == timeline[i].order by {
            assert(before[i].id == timeline[i].id);
        }
    }
}

/// A reducer that goes on from recorded parts hands out no id that they use,
/// as long as one is left.
pub proof fn law_resumed_ids_are_new(
    timeline: Seq<EntryModel>,
    active: Seq<ActiveToolState>,
    window: HistoryWindow,
    max_entries: usize,
)
    requires
        highest_id(timeline, active) < u64::MAX,
    ensures
        ({
            let next_id = TimelineModel::resumed(timeline, active, window, max_entries).next_id;
            &&& forall|i: int|
                0 <= i < timeline.len() ==> (#[trigger] timeline[i]).id < next_id
                    && timeline[i].order < next_id
            &&& forall|i: int|
                0 <= i < active.len() ==> (#[trigger] active[i]).occurrence_id < next_id
        }),
        TimelineModel::resumed(timeline, active, window, max_entries).ids_below(),
        TimelineModel::resumed(timeline, active, window, max_entries).open is None,
{
    lemma_highest(timeline, active);
    lemma_statuses_keep_ids(timeline, active);
}

proof fn lemma_begins(start: TimelineModel)
    requires
        start.begins(),
    ensures
        start.well_formed(),
        start.ids_below(),
{
    if !(exists|max_entries: usize| start == #[trigger] TimelineModel::fresh(max_entries)) {
        let (timeline, active, window, max_entries) = choose|
            timeline: Seq<EntryModel>,
            active: Seq<ActiveToolState>,
            window: HistoryWindow,
            max_entries: usize,
        |
            start == #[trigger] TimelineModel::resumed(timeline, active, window, max_entries)
                && highest_id(timeline, active) < u64::MAX;
        law_resumed_ids_are_new(timeline, active, window, max_entries);
    }
}

proof fn lemma_step_open(state: TimelineModel, step: ReducerStep)
    requires
        state.well_formed(),
        state.open_is_last_text(),
    ensures
        state.after(step).open_is_last_text(),
{
    lemma_cancelled_keeps_ids(state.timeline, state.active);
    match step {
        ReducerStep::Apply(SessionEvent::ToolCallUpdated { id, status }) => {
            lemma_update_open(state, id@, status, None);
        },
        ReducerStep::Apply(SessionEvent::ToolCallFinished { id, status, output }) => {
            lemma_update_open(state, id@, status, Some(output@));
        },
        ReducerStep::UpdateTool { tool_call_id, status, output } => {
            lemma_update_open(state, tool_call_id, status, Some(output));
        },
        _ => {},
    }
}

proof fn lemma_update_open(
    state: TimelineModel,
    tool_call_id: Seq<char>,
    status: ToolCallStateStatus,
    output: Option<Seq<char>>,
)
    requires
        state.open_is_last_text(),
    ensures
        state.with_tool_update(tool_call_id, status, output).open_is_last_text(),
{
    if let Some(occurrence_id) = state.occurrence_of(tool_call_id) {
        lemma_last_where_holds(
            state.timeline,
            |entry: EntryModel| is_tool_occurrence(entry, occurrence_id),
        );
    }
}

/// At most one entry is open, and it is the newest one and streamed text,
/// whatever a reducer goes through.
pub proof fn law_open_entry_is_the_last_text(start: TimelineModel, steps: Seq<ReducerStep>)
    requires
        start.well_formed(),
        start.open_is_last_text(),
    ensures
        start.after_all(steps).open_is_last_text(),
    decreases steps.len(),
{
    if steps.len() > 0 {
        law_open_entry_is_the_last_text(start, steps.drop_last());
        lemma_course_well_formed(start, steps.drop_last());
        lemma_step_open(start.after_all(steps.drop_last()), steps.last());
    }
}

/// Streamed text leaves the newest entry open; a message, an outcome, a tool
/// that starts and a cleared conversation leave none.
pub proof fn law_text_opens_and_the_rest_closes(state: TimelineModel, event: SessionEvent)
    requires
        state.well_formed(),
    ensures
        event is AssistantDelta || event is ThoughtDelta ==> state.applied(event).timeline.len() > 0
            && state.applied(event).open == Some(state.applied(event).timeline.last().id),
        event is UserMessage || event is AssistantDone || event is ToolCallStarted
            || event is ConversationCleared ==> state.applied(event).open is None,
{
}

/// A tool that starts and is at once in progress is as one that is restored:
/// restored history folds to the same state as live events.
pub proof fn law_restored_start_is_start_and_progress(
    state: TimelineModel,
    tool_call_id: String,
    name: String,
    title: String,
    input_summary: Option<String>,
)
    requires
        state.max_entries >= 1,
        state.ids_below(),
        state.next_id < u64::MAX,
    ensures
        ({
            let restored = state.after(ReducerStep::StartTool { tool_call_id, name, title });
            &&& state.applied(
                SessionEvent::ToolCallStarted { id: tool_call_id, name, title, input_summary },
            ).applied(
                SessionEvent::ToolCallUpdated {
                    id: tool_call_id,
                    status: ToolCallStateStatus::InProgress,
                },
            ) == restored
            &&& restored.timeline.last().id == state.next_id
            &&& restored.active.last().occurrence_id == state.next_id
        }),
{
    let pending = ActiveToolState {
        occurrence_id: state.next_id,
        tool_call_id,
        name,
        title,
        status: ToolCallStateStatus::Pending,
        content_truncated: false,
    };
    let first = state.with_tool_start(pending, ToolCallStateStatus::Pending);
    let second = state.after(ReducerStep::StartTool { tool_call_id, name, title });
    let last = first.timeline.len() - 1;
    lemma_last_where_found(
        first.timeline,
        |entry: EntryModel| is_open_tool(entry, tool_call_id@),
        last,
    );
    lemma_last_where_found(
        first.timeline,
        |entry: EntryModel| is_tool_occurrence(entry, state.next_id),
        last,
    );
    assert(first.active =~= state.active.push(pending));
    lemma_with_active_status_prefix(
        first.active,
        state.active.len() as int,
        state.next_id,
        ToolCallStateStatus::InProgress,
    );
    let updated = first.with_tool_update(tool_call_id@, ToolCallStateStatus::InProgress, None);
    assert(updated.timeline =~= second.timeline);
    assert(updated.active =~= second.active);
}

/// With distinct ids, a new status reaches exactly the entry of its occurrence.
pub proof fn lemma_occurrence_pointwise(
    timeline: Seq<EntryModel>,
    occurrence_id: u64,
    status: ToolCallStateStatus,
    output: Option<Seq<char>>,
)
    requires
        forall|i: int, j: int|
            0 <= i < j < timeline.len() ==> (#[trigger] timeline[i]).id < (
            #[trigger] timeline[j]).id,
    ensures
        with_occurrence(timeline, occurrence_id, status, output).len() == timeline.len(),
        forall|i: int|
            0 <= i < timeline.len() ==> #[trigger] with_occurrence(
                timeline,
                occurrence_id,
                status,
                output,
            )[i] == if is_tool_occurrence(timeline[i], occurrence_id) {
                with_tool_status(timeline[i], status, output)
            } else {
                timeline[i]
            },
{
    let holds = |entry: EntryModel| is_tool_occurrence(entry, occurrence_id);
    lemma_last_where_holds(timeline, holds);
    let updated = with_occurrence(timeline, occurrence_id, status, output);
    assert forall|i: int| 0 <= i < timeline.len() implies #[trigger] updated[i]
        == if is_tool_occurrence(timeline[i], occurrence_id) {
        with_tool_status(timeline[i], status, output)
    } else {
        timeline[i]
    } by {
        if is_tool_occurrence(timeline[i], occurrence_id) {
            match super::last_where(timeline, holds) {
                Some(at) => {
                    if i < at {
                        assert(timeline[i].id < timeline[at].id);
                    }
                    if at < i {
                        assert(!holds(timeline[i]));
                    }
                },
                None => {
                    assert(!holds(timeline[i]));
                },
            }
        }
    }
}

/// With distinct ids, cancelling reaches exactly the entries of active tools.
pub proof fn lemma_cancelled_pointwise(timeline: Seq<EntryModel>, active: Seq<ActiveToolState>)
    requires
        forall|i: int, j: int|
            0 <= i < j < timeline.len() ==> (#[trigger] timeline[i]).id < (
            #[trigger] timeline[j]).id,
    ensures
        forall|i: int|
            0 <= i < timeline.len() ==> #[trigger] with_cancelled(timeline, active)[i]
                == if timeline[i].content is Tool && is_active(active, timeline[i].id) {
                with_tool_status(timeline[i], ToolCallStateStatus::Cancelled, None)
            } else {
                timeline[i]
            },
    decreases active.len(),
{
    if active.len() > 0 {
        let rest = active.drop_last();
        let before = with_cancelled(timeline, rest);
        lemma_cancelled_keeps_ids(timeline, rest);
        lemma_cancelled_pointwise(timeline, rest);
        assert forall|i: int, j: int| 0 <= i < j < before.len() implies (#[trigger] before[i]).id
            < (#[trigger] before[j]).id by {
            assert(timeline[i].id < timeline[j].id);
        }
        lemma_occurrence_pointwise(
            before,
            active.last().occurrence_id,
            ToolCallStateStatus::Cancelled,
            None,
        );
        assert forall|i: int| 0 <= i < timeline.len() implies #[trigger] with_cancelled(
            timeline,
            active,
        )[i] == if timeline[i].content is Tool && is_active(active, timeline[i].id) {
            with_tool_status(timeline[i], ToolCallStateStatus::Cancelled, None)
        } else {
            timeline[i]
        } by {
            let id = timeline[i].id;
            assert(before[i].id == id);
            if is_active(rest, id) {
                let j = choose|j: int|
                    0 <= j < rest.len() && (#[trigger] rest[j]).occurrence_id == id;
                assert(active[j].occurrence_id == id);
            }
            if is_active(active, id) && !is_active(rest, id) {
                let j = choose|j: int|
                    0 <= j < active.len() && (#[trigger] active[j]).occurrence_id == id;
                if j < rest.len() {
                    assert(rest[j].occurrence_id == id);
                }
                assert(active.last().occurrence_id == id);
            }
            if active.last().occurrence_id == id {
                assert(active[active.len() - 1].occurrence_id == id);
            }
        }
    }
}

/// Leaving out an occurrence keeps the others, in order.
proof fn lemma_others_in_order(active: Seq<ActiveToolState>, occurrence_id: u64)
    requires
        forall|i: int, j: int|
            0 <= i < j < active.len() ==> (#[trigger] active[i]).occurrence_id < (
            #[trigger] active[j]).occurrence_id,
    ensures
        ({
            let kept = active.filter(|tool: ActiveToolState| tool.occurrence_id != occurrence_id);
            &&& forall|i: int, j: int|
                0 <= i < j < kept.len() ==> (#[trigger] kept[i]).occurrence_id < (
                #[trigger] kept[j]).occurrence_id
            &&& forall|i: int|
                0 <= i < kept.len() ==> (#[trigger] kept[i]).occurrence_id != occurrence_id
                    && active.contains(kept[i])
            &&& forall|i: int|
                0 <= i < active.len() && (#[trigger] active[i]).occurrence_id != occurrence_id
                    ==> kept.contains(active[i])
        }),
    decreases active.len(),
{
    reveal(Seq::filter);
    let keep = |tool: ActiveToolState| tool.occurrence_id != occurrence_id;
    let kept = active.filter(keep);
    if active.len() > 0 {
        let rest = active.drop_last();
        lemma_others_in_order(rest, occurrence_id);
        let before = rest.filter(keep);
        assert forall|i: int| 0 <= i < before.len() implies active.contains(
            #[trigger] before[i],
        ) && before[i].occurrence_id < active.last().occurrence_id by {
            assert(rest.contains(before[i]));
            let k = choose|k: int| 0 <= k < rest.len() && rest[k] == before[i];
            assert(active[k] == before[i]);
            assert(active[k].occurrence_id < active[active.len() - 1].occurrence_id);
        }
        assert forall|i: int| 0 <= i < kept.len() implies (#[trigger] kept[i]).occurrence_id
            != occurrence_id && active.contains(kept[i]) by {
            if i < before.len() {
                assert(kept[i] == before[i]);
            } else {
                assert(kept[i] == active[active.len() - 1]);
            }
        }
        assert forall|i: int, j: int| 0 <= i < j < kept.len() implies (
        #[trigger] kept[i]).occurrence_id < (#[trigger] kept[j]).occurrence_id by {
            assert(kept[i] == before[i]);
            if j < before.len() {
                assert(kept[j] == before[j]);
            }
        }
        assert forall|i: int|
            0 <= i < active.len() && (#[trigger] active[i]).occurrence_id
                != occurrence_id implies kept.contains(active[i]) by {
            if i < rest.len() {
                assert(rest[i] == active[i]);
                assert(before.contains(rest[i]));
                let k = choose|k: int| 0 <= k < before.len() && before[k] == rest[i];
                assert(kept[k] == active[i]);
            } else {
                assert(kept[kept.len() - 1] == active[i]);
            }
        }
    }
}

proof fn lemma_update_tracks(
    state: TimelineModel,
    tool_call_id: Seq<char>,
    status: ToolCallStateStatus,
    output: Option<Seq<char>>,
)
    requires
        state.ordered(),
        state.shows_active(),
    ensures
        state.with_tool_update(tool_call_id, status, output).shows_active(),
        state.unfinished_are_active() ==> state.with_tool_update(
            tool_call_id,
            status,
            output,
        ).unfinished_are_active(),
{
    let after = state.with_tool_update(tool_call_id, status, output);
    let open = |entry: EntryModel| is_open_tool(entry, tool_call_id);
    let named = |tool: ActiveToolState| is_call(tool, tool_call_id);
    lemma_last_where_holds(state.timeline, open);
    lemma_last_where_holds(state.active, named);
    if let Some(occurrence_id) = state.occurrence_of(tool_call_id) {
        if super::last_where(state.timeline, open) is Some {
            let at = super::last_where(state.timeline, open)->0;
            assert(open(state.timeline[at]));
            assert(unfinished(state.timeline[at]));
            assert(occurrence_id == state.timeline[at].id);
        } else {
            assert(super::last_where(state.active, named) is Some);
            let at = super::last_where(state.active, named)->0;
            assert(state.active[at].occurrence_id == occurrence_id);
        }
        if status.terminal() {
            lemma_finished_tracks(state, occurrence_id, status, output, after);
        } else if is_active(state.active, occurrence_id) {
            let place = choose|j: int|
                0 <= j < state.active.len() && (#[trigger] state.active[j]).occurrence_id
                    == occurrence_id;
            assert forall|j: int| 0 <= j < place implies (#[trigger] state.active[j]).occurrence_id
                != occurrence_id by {
                assert(state.active[j].occurrence_id < state.active[place].occurrence_id);
            }
            lemma_with_active_status_prefix(state.active, place, occurrence_id, status);
            lemma_progress_tracks(state, place, status, output, after);
        } else {
            lemma_inactive_status(state.active, occurrence_id, status);
            lemma_inactive_tracks(state, occurrence_id, status, output, after);
        }
    }
}

pub proof fn lemma_inactive_status(
    active: Seq<ActiveToolState>,
    occurrence_id: u64,
    status: ToolCallStateStatus,
)
    requires
        !is_active(active, occurrence_id),
    ensures
        with_active_status(active, occurrence_id, status) == active,
    decreases active.len(),
{
    if active.len() > 0 {
        let rest = active.drop_first();
        assert(active[0].occurrence_id != occurrence_id);
        assert forall|j: int| 0 <= j < rest.len() implies (#[trigger] rest[j]).occurrence_id
            != occurrence_id by {
            assert(active[j + 1].occurrence_id != occurrence_id);
        }
        lemma_inactive_status(rest, occurrence_id, status);
        assert(with_active_status(active, occurrence_id, status) =~= active);
    }
}

/// An entry of no active tool changes without the active tools.
proof fn lemma_inactive_tracks(
    state: TimelineModel,
    occurrence_id: u64,
    status: ToolCallStateStatus,
    output: Option<Seq<char>>,
    after: TimelineModel,
)
    requires
        state.ordered(),
        state.shows_active(),
        !is_active(state.active, occurrence_id),
        exists|i: int|
            0 <= i < state.timeline.len() && (#[trigger] state.timeline[i]).id == occurrence_id
                && unfinished(state.timeline[i]),
        after.timeline == with_occurrence(state.timeline, occurrence_id, status, output),
        after.active == state.active,
    ensures
        after.shows_active(),
        state.unfinished_are_active() ==> after.unfinished_are_active(),
{
    lemma_occurrence_pointwise(state.timeline, occurrence_id, status, output);
    assert forall|i: int, j: int|
        0 <= i < after.timeline.len() && 0 <= j < after.active.len() && (
        #[trigger] after.timeline[i]).id == (
        #[trigger] after.active[j]).occurrence_id implies shows_tool(
        after.timeline[i],
        after.active[j],
    ) by {
        assert(state.active[j].occurrence_id != occurrence_id);
        assert(state.timeline[i].id == state.active[j].occurrence_id);
    }
}

proof fn lemma_finished_tracks(
    state: TimelineModel,
    occurrence_id: u64,
    status: ToolCallStateStatus,
    output: Option<Seq<char>>,
    after: TimelineModel,
)
    requires
        state.ordered(),
        state.shows_active(),
        status.terminal(),
        after.timeline == with_occurrence(state.timeline, occurrence_id, status, output),
        after.active == state.active.filter(
            |tool: ActiveToolState| tool.occurrence_id != occurrence_id,
        ),
    ensures
        after.shows_active(),
        state.unfinished_are_active() ==> after.unfinished_are_active(),
{
    lemma_occurrence_pointwise(state.timeline, occurrence_id, status, output);
    lemma_others_in_order(state.active, occurrence_id);
    assert forall|i: int| 0 <= i < after.active.len() implies !(
    #[trigger] after.active[i]).status.terminal() by {
        assert(state.active.contains(after.active[i]));
    }
    assert forall|i: int, j: int|
        0 <= i < after.timeline.len() && 0 <= j < after.active.len() && (
        #[trigger] after.timeline[i]).id == (
        #[trigger] after.active[j]).occurrence_id implies shows_tool(
        after.timeline[i],
        after.active[j],
    ) by {
        assert(state.active.contains(after.active[j]));
        let k = choose|k: int| 0 <= k < state.active.len() && state.active[k] == after.active[j];
        assert(state.timeline[i].id == state.active[k].occurrence_id);
    }
    assert forall|i: int|
        state.unfinished_are_active() && 0 <= i < after.timeline.len() && unfinished(
            #[trigger] after.timeline[i],
        ) implies is_active(after.active, after.timeline[i].id) by {
        assert(after.timeline[i] == state.timeline[i]);
        assert(state.timeline[i].id != occurrence_id);
        let k = choose|k: int|
            0 <= k < state.active.len() && (#[trigger] state.active[k]).occurrence_id
                == state.timeline[i].id;
        assert(after.active.contains(state.active[k]));
        let j = choose|j: int| 0 <= j < after.active.len() && after.active[j] == state.active[k];
        assert(after.active[j].occurrence_id == after.timeline[i].id);
    }
}

proof fn lemma_progress_tracks(
    state: TimelineModel,
    place: int,
    status: ToolCallStateStatus,
    output: Option<Seq<char>>,
    after: TimelineModel,
)
    requires
        state.ordered(),
        state.shows_active(),
        !status.terminal(),
        0 <= place < state.active.len(),
        after.timeline == with_occurrence(
            state.timeline,
            state.active[place].occurrence_id,
            status,
            output,
        ),
        after.active == state.active.update(
            place,
            ActiveToolState { status, ..state.active[place] },
        ),
    ensures
        after.shows_active(),
        state.unfinished_are_active() ==> after.unfinished_are_active(),
{
    let occurrence_id = state.active[place].occurrence_id;
    lemma_occurrence_pointwise(state.timeline, occurrence_id, status, output);
    assert forall|j: int| 0 <= j < after.active.len() implies (
    #[trigger] after.active[j]).occurrence_id == state.active[j].occurrence_id && (j != place
        ==> after.active[j] == state.active[j]) && !after.active[j].status.terminal() by {
        assert(!state.active[j].status.terminal());
    }
    assert forall|i: int, j: int| 0 <= i < j < after.active.len() implies (
    #[trigger] after.active[i]).occurrence_id < (#[trigger] after.active[j]).occurrence_id by {
        assert(state.active[i].occurrence_id < state.active[j].occurrence_id);
    }
    assert forall|i: int, j: int|
        0 <= i < after.timeline.len() && 0 <= j < after.active.len() && (
        #[trigger] after.timeline[i]).id == (
        #[trigger] after.active[j]).occurrence_id implies shows_tool(
        after.timeline[i],
        after.active[j],
    ) by {
        assert(state.timeline[i].id == state.active[j].occurrence_id);
        assert(shows_tool(state.timeline[i], state.active[j]));
        if j != place {
            if j < place {
                assert(state.active[j].occurrence_id < state.active[place].occurrence_id);
            } else {
                assert(state.active[place].occurrence_id < state.active[j].occurrence_id);
            }
            assert(after.timeline[i] == state.timeline[i]);
        }
    }
    assert forall|i: int|
        state.unfinished_are_active() && 0 <= i < after.timeline.len() && unfinished(
            #[trigger] after.timeline[i],
        ) implies is_active(after.active, after.timeline[i].id) by {
        if is_tool_occurrence(state.timeline[i], occurrence_id) {
            assert(after.active[place].occurrence_id == after.timeline[i].id);
        } else {
            assert(after.timeline[i] == state.timeline[i]);
            let k = choose|k: int|
                0 <= k < state.active.len() && (#[trigger] state.active[k]).occurrence_id
                    == state.timeline[i].id;
            assert(after.active[k].occurrence_id == after.timeline[i].id);
        }
    }
}

proof fn lemma_push_tracks(state: TimelineModel, content: EntryContent)
    requires
        state.well_formed(),
        state.ordered(),
        state.shows_active(),
        state.next_id < u64::MAX,
    ensures
        state.closed().pushed(content).shows_active(),
        state.unfinished_are_active() && !runs(content) ==> state.closed().pushed(
            content,
        ).unfinished_are_active(),
        state.closed().pushed(content).active == state.active,
{
    let after = state.closed().pushed(content);
    let excess = state.timeline.len() + 1 - after.timeline.len();
    assert forall|i: int| 0 <= i < after.timeline.len() - 1 implies #[trigger] after.timeline[i]
        == state.timeline[i + excess] by {}
    assert forall|i: int, j: int|
        0 <= i < after.timeline.len() && 0 <= j < after.active.len() && (
        #[trigger] after.timeline[i]).id == (
        #[trigger] after.active[j]).occurrence_id implies shows_tool(
        after.timeline[i],
        after.active[j],
    ) by {
        assert(state.active[j].occurrence_id < state.next_id);
        assert(i < after.timeline.len() - 1);
        assert(state.timeline[i + excess].id == state.active[j].occurrence_id);
    }
    assert forall|i: int|
        state.unfinished_are_active() && !runs(content) && 0 <= i < after.timeline.len()
            && unfinished(#[trigger] after.timeline[i]) implies is_active(after.active, after.timeline[i].id) by {
        assert(i < after.timeline.len() - 1);
        assert(unfinished(state.timeline[i + excess]));
    }
}

proof fn lemma_start_tracks(state: TimelineModel, tool: ActiveToolState)
    requires
        state.well_formed(),
        state.ordered(),
        state.shows_active(),
        state.next_id < u64::MAX,
        tool.occurrence_id == state.next_id,
        !tool.status.terminal(),
    ensures
        state.with_tool_start(tool, tool.status).shows_active(),
        state.unfinished_are_active() ==> state.with_tool_start(
            tool,
            tool.status,
        ).unfinished_are_active(),
{
    let after = state.with_tool_start(tool, tool.status);
    let excess = state.timeline.len() + 1 - after.timeline.len();
    let newest = after.timeline.len() - 1;
    assert(after.active =~= state.active.push(tool));
    assert(after.timeline[newest].id == state.next_id);
    assert(shows_tool(after.timeline[newest], tool));
    assert forall|i: int| 0 <= i < newest implies #[trigger] after.timeline[i]
        == state.timeline[i + excess] by {}
    assert forall|i: int, j: int| 0 <= i < j < after.active.len() implies (
    #[trigger] after.active[i]).occurrence_id < (#[trigger] after.active[j]).occurrence_id by {
        if j < state.active.len() {
            assert(state.active[i].occurrence_id < state.active[j].occurrence_id);
        } else {
            assert(state.active[i].occurrence_id < state.next_id);
        }
    }
    assert forall|i: int| 0 <= i < after.active.len() implies !(
    #[trigger] after.active[i]).status.terminal() by {
        if i < state.active.len() {
            assert(!state.active[i].status.terminal());
        }
    }
    assert forall|i: int, j: int|
        0 <= i < after.timeline.len() && 0 <= j < after.active.len() && (
        #[trigger] after.timeline[i]).id == (
        #[trigger] after.active[j]).occurrence_id implies shows_tool(
        after.timeline[i],
        after.active[j],
    ) by {
        if j < state.active.len() {
            assert(state.active[j].occurrence_id < state.next_id);
            assert(i < newest);
            assert(state.timeline[i + excess].id == state.active[j].occurrence_id);
        } else if i < newest {
            assert(state.timeline[i + excess].id < state.next_id);
        }
    }
    assert forall|i: int|
        state.unfinished_are_active() && 0 <= i < after.timeline.len() && unfinished(
            #[trigger] after.timeline[i],
        ) implies is_active(after.active, after.timeline[i].id) by {
        if i < newest {
            assert(unfinished(state.timeline[i + excess]));
            let k = choose|k: int|
                0 <= k < state.active.len() && (#[trigger] state.active[k]).occurrence_id
                    == state.timeline[i + excess].id;
            assert(after.active[k].occurrence_id == after.timeline[i].id);
        } else {
            assert(after.active[state.active.len() as int].occurrence_id == after.timeline[i].id);
        }
    }
}

proof fn lemma_text_tracks(state: TimelineModel, kind: TextKind, text: Seq<char>)
    requires
        state.well_formed(),
        state.ordered(),
        state.shows_active(),
        !state.continues(kind) ==> state.next_id < u64::MAX,
    ensures
        state.with_text(kind, text).shows_active(),
        state.unfinished_are_active() ==> state.with_text(kind, text).unfinished_are_active(),
{
    let after = state.with_text(kind, text);
    if state.continues(kind) {
        assert forall|i: int| 0 <= i < after.timeline.len() implies (
        #[trigger] after.timeline[i]).id == state.timeline[i].id && (
        state.timeline[i].content is Tool ==> after.timeline[i] == state.timeline[i]) && (
        after.timeline[i].content is Tool ==> state.timeline[i].content is Tool) by {}
        assert forall|i: int, j: int|
            0 <= i < after.timeline.len() && 0 <= j < after.active.len() && (
            #[trigger] after.timeline[i]).id == (
            #[trigger] after.active[j]).occurrence_id implies shows_tool(
            after.timeline[i],
            after.active[j],
        ) by {
            assert(shows_tool(state.timeline[i], state.active[j]));
        }
        assert forall|i: int|
            state.unfinished_are_active() && 0 <= i < after.timeline.len() && unfinished(
                #[trigger] after.timeline[i],
            ) implies is_active(after.active, after.timeline[i].id) by {
            assert(unfinished(state.timeline[i]));
        }
    } else {
        lemma_push_tracks(state, super::fresh_text(kind, text));
    }
}

pub proof fn lemma_step_tracks(state: TimelineModel, step: ReducerStep)
    requires
        state.well_formed(),
        state.ordered(),
        state.shows_active(),
        state.pushes(step) ==> state.next_id < u64::MAX,
    ensures
        state.after(step).shows_active(),
        state.unfinished_are_active() && !step.puts_running() ==> state.after(
            step,
        ).unfinished_are_active(),
{
    match step {
        ReducerStep::Apply(event) => match event {
            SessionEvent::UserMessage { text, .. } => {
                lemma_push_tracks(state, EntryContent::User { text: text@, truncated: false });
            },
            SessionEvent::AssistantDone { outcome } => {
                lemma_push_tracks(state, EntryContent::Outcome { outcome });
            },
            SessionEvent::AssistantDelta { text } => {
                lemma_text_tracks(state, TextKind::Assistant, text@);
            },
            SessionEvent::ThoughtDelta { text } => {
                lemma_text_tracks(state, TextKind::Thought, text@);
            },
            SessionEvent::ToolCallStarted { id, name, title, .. } => {
                lemma_start_tracks(
                    state,
                    ActiveToolState {
                        occurrence_id: state.next_id,
                        tool_call_id: id,
                        name,
                        title,
                        status: ToolCallStateStatus::Pending,
                        content_truncated: false,
                    },
                );
            },
            SessionEvent::ToolCallUpdated { id, status } => {
                lemma_update_tracks(state, id@, status, None);
            },
            SessionEvent::ToolCallFinished { id, status, output } => {
                lemma_update_tracks(state, id@, status, Some(output@));
            },
            _ => {},
        },
        ReducerStep::PushReconstructed(content) => {
            lemma_push_tracks(state, content);
        },
        ReducerStep::PushSystem(text) => {
            lemma_push_tracks(state, EntryContent::System { text, truncated: false });
        },
        ReducerStep::StartTool { tool_call_id, name, title } => {
            lemma_start_tracks(
                state,
                ActiveToolState {
                    occurrence_id: state.next_id,
                    tool_call_id,
                    name,
                    title,
                    status: ToolCallStateStatus::InProgress,
                    content_truncated: false,
                },
            );
        },
        ReducerStep::UpdateTool { tool_call_id, status, output } => {
            lemma_update_tracks(state, tool_call_id, status, Some(output));
        },
        ReducerStep::CancelActive => {
            lemma_cancelled_keeps_ids(state.timeline, state.active);
            lemma_cancelled_pointwise(state.timeline, state.active);
            let after = state.all_cancelled();
            assert forall|i: int|
                state.unfinished_are_active() && 0 <= i < after.timeline.len() && unfinished(
                    #[trigger] after.timeline[i],
                ) implies is_active(after.active, after.timeline[i].id) by {
                if unfinished(state.timeline[i]) {
                    assert(is_active(state.active, state.timeline[i].id));
                }
            }
        },
        ReducerStep::Clear => {},
    }
}

pub proof fn lemma_step_ordered(state: TimelineModel, step: ReducerStep)
    requires
        state.well_formed(),
        state.ordered(),
        state.pushes(step) ==> state.next_id < u64::MAX,
    ensures
        state.after(step).ordered(),
{
    match step {
        ReducerStep::Apply(SessionEvent::ToolCallUpdated { id, status }) => {
            super::lemma_update_keeps_order(state, id@, status, None);
        },
        ReducerStep::Apply(SessionEvent::ToolCallFinished { id, status, output }) => {
            super::lemma_update_keeps_order(state, id@, status, Some(output@));
        },
        ReducerStep::UpdateTool { tool_call_id, status, output } => {
            super::lemma_update_keeps_order(state, tool_call_id, status, Some(output));
        },
        ReducerStep::CancelActive => {
            lemma_cancelled_keeps_ids(state.timeline, state.active);
        },
        _ => {},
    }
}

/// Entries stand in the order of their ids, which is the order in which they
/// came, whatever a reducer goes through, as long as ids are left.
pub proof fn law_entries_stay_ordered(start: TimelineModel, steps: Seq<ReducerStep>)
    requires
        start.well_formed(),
        start.ordered(),
        start.enough_ids(steps),
    ensures
        start.after_all(steps).ordered(),
    decreases steps.len(),
{
    if steps.len() > 0 {
        law_entries_stay_ordered(start, steps.drop_last());
        lemma_course_well_formed(start, steps.drop_last());
        lemma_step_ordered(start.after_all(steps.drop_last()), steps.last());
    }
}

/// A new reducer is sound, and has no unfinished call.
pub proof fn law_new_reducer_is_sound(max_entries: usize)
    ensures
        TimelineModel::fresh(max_entries).sound(),
        TimelineModel::fresh(max_entries).unfinished_are_active(),
{
}

/// A sound reducer stays sound whatever it goes through, as long as ids are
/// left: its entries stand in order, and each active tool is unfinished and shown
/// by its entry as it is, if that is retained.
pub proof fn law_reducer_stays_sound(start: TimelineModel, steps: Seq<ReducerStep>)
    requires
        start.sound(),
        start.enough_ids(steps),
    ensures
        start.after_all(steps).sound(),
    decreases steps.len(),
{
    lemma_course_well_formed(start, steps);
    law_entries_stay_ordered(start, steps);
    if steps.len() > 0 {
        law_reducer_stays_sound(start, steps.drop_last());
        lemma_step_tracks(start.after_all(steps.drop_last()), steps.last());
    }
}

/// The active tools are exactly the unfinished calls: whatever a sound reducer
/// goes through, but for unfinished calls that are put in ready-made, each
/// active tool is unfinished, a retained tool entry is unfinished if and only if
/// it is active, and both then show the same.
pub proof fn law_active_tools_are_the_unfinished_calls(
    start: TimelineModel,
    steps: Seq<ReducerStep>,
)
    requires
        start.sound(),
        start.unfinished_are_active(),
        start.enough_ids(steps),
        forall|i: int| 0 <= i < steps.len() ==> !(#[trigger] steps[i]).puts_running(),
    ensures
        ({
            let now = start.after_all(steps);
            &&& now.shows_active()
            &&& now.unfinished_are_active()
            &&& forall|i: int|
                0 <= i < now.timeline.len() && (#[trigger] now.timeline[i]).content is Tool ==> (
                unfinished(now.timeline[i]) <==> is_active(now.active, now.timeline[i].id))
        }),
    decreases steps.len(),
{
    let now = start.after_all(steps);
    law_reducer_stays_sound(start, steps);
    if steps.len() > 0 {
        assert forall|i: int| 0 <= i < steps.drop_last().len() implies !(
        #[trigger] steps.drop_last()[i]).puts_running() by {
            assert(steps.drop_last()[i] == steps[i]);
        }
        law_active_tools_are_the_unfinished_calls(start, steps.drop_last());
        law_reducer_stays_sound(start, steps.drop_last());
        assert(!steps[steps.len() - 1].puts_running());
        lemma_step_tracks(start.after_all(steps.drop_last()), steps.last());
    }
    assert forall|i: int|
        0 <= i < now.timeline.len() && (#[trigger] now.timeline[i]).content is Tool && is_active(
            now.active,
            now.timeline[i].id,
        ) implies unfinished(now.timeline[i]) by {
        let j = choose|j: int|
            0 <= j < now.active.len() && (#[trigger] now.active[j]).occurrence_id
                == now.timeline[i].id;
        assert(shows_tool(now.timeline[i], now.active[j]));
        assert(!now.active[j].status.terminal());
    }
}

proof fn lemma_same_statuses(state: TimelineModel, count: int)
    requires
        state.ordered(),
        state.shows_active(),
        0 <= count <= state.active.len(),
    ensures
        with_active_statuses(state.timeline, state.active.take(count)) == state.timeline,
    decreases count,
{
    if count > 0 {
        let tools = state.active.take(count);
        assert(tools.drop_last() =~= state.active.take(count - 1));
        lemma_same_statuses(state, count - 1);
        let tool = state.active[count - 1];
        assert(tools.last() == tool);
        lemma_occurrence_pointwise(state.timeline, tool.occurrence_id, tool.status, None);
        let updated = with_occurrence(state.timeline, tool.occurrence_id, tool.status, None);
        assert forall|i: int| 0 <= i < state.timeline.len() implies #[trigger] updated[i]
            == state.timeline[i] by {
            if is_tool_occurrence(state.timeline[i], tool.occurrence_id) {
                assert(shows_tool(state.timeline[i], state.active[count - 1]));
            }
        }
        assert(updated =~= state.timeline);
    }
}

proof fn lemma_highest_below(
    timeline: Seq<EntryModel>,
    active: Seq<ActiveToolState>,
    bound: u64,
)
    requires
        bound > 0,
        forall|i: int|
            0 <= i < timeline.len() ==> (#[trigger] timeline[i]).id < bound && timeline[i].order
                < bound,
        forall|i: int| 0 <= i < active.len() ==> (#[trigger] active[i]).occurrence_id < bound,
    ensures
        highest_id(timeline, active) < bound,
    decreases timeline.len() + active.len(),
{
    if timeline.len() > 0 {
        assert(timeline[timeline.len() - 1].id < bound);
        lemma_highest_below(timeline.drop_last(), active, bound);
    } else if active.len() > 0 {
        assert(active[active.len() - 1].occurrence_id < bound);
        lemma_highest_below(timeline, active.drop_last(), bound);
    }
}

/// Taking a reducer apart and going on from the parts gives the same parts
/// back, and a sound reducer again: what a reducer shows after any steps from
/// new, or from such parts, it shows again.
pub proof fn law_parts_give_the_timeline_back(
    start: TimelineModel,
    steps: Seq<ReducerStep>,
    max_entries: usize,
)
    requires
        start.sound(),
        start.enough_ids(steps),
        start.max_entries == TimelineModel::fresh(max_entries).max_entries,
    ensures
        ({
            let now = start.after_all(steps);
            let again = TimelineModel::resumed(now.timeline, now.active, now.window, max_entries);
            &&& again.timeline == now.timeline
            &&& again.active == now.active
            &&& again.window == now.window
            &&& again.max_entries == now.max_entries
            &&& again.sound()
        }),
{
    let now = start.after_all(steps);
    lemma_course_well_formed(start, steps);
    law_reducer_stays_sound(start, steps);
    lemma_same_statuses(now, now.active.len() as int);
    assert(now.active.take(now.active.len() as int) =~= now.active);
    assert forall|i: int| 0 <= i < now.timeline.len() implies (#[trigger] now.timeline[i]).id
        < u64::MAX && now.timeline[i].order < u64::MAX by {
        assert(now.timeline[i].order == now.timeline[i].id);
    }
    lemma_highest_below(now.timeline, now.active, u64::MAX);
    law_resumed_ids_are_new(now.timeline, now.active, now.window, max_entries);
}

/// A reducer from new, or one that goes on from recorded parts, can put in an
/// entry at any time, clearing included: it is the newest, it stands under one
/// number as id and as order, larger than every id, order and occurrence that
/// the reducer held at any time, and it is not open to more text.
pub proof fn law_pushed_entry_has_a_new_id(
    start: TimelineModel,
    steps: Seq<ReducerStep>,
    content: EntryContent,
    count: int,
)
    requires
        start.begins(),
        start.enough_ids(steps),
        0 <= count <= steps.len(),
    ensures
        ({
            let earlier = start.after_all(steps.take(count));
            let now = start.after_all(steps);
            let pushed = now.after(ReducerStep::PushReconstructed(content));
            let id = pushed.timeline.last().id;
            &&& pushed.timeline.last() == (EntryModel { id, order: id, content })
            &&& start.next_id <= id
            &&& forall|i: int|
                0 <= i < earlier.timeline.len() ==> (#[trigger] earlier.timeline[i]).id < id
                    && earlier.timeline[i].order < id
            &&& forall|i: int|
                0 <= i < earlier.active.len() ==> (#[trigger] earlier.active[i]).occurrence_id < id
            &&& pushed.open is None
        }),
{
    lemma_begins(start);
    law_ids_are_never_reused(start, steps, count);
    lemma_course_ids(start, steps);
    lemma_course_well_formed(start, steps);
    law_pushed_entry_is_newest(start.after_all(steps), content);
}

} // verus!
