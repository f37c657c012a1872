//! Canonical ordered session timeline reducer.
use vstd::prelude::*;
use vstd::string::*;
use crate::session_protocol::{
    ActiveToolState, AssistantOutcome, HistoryWindow, SessionEvent, TimelineEntry,
    TimelineEntryKind, ToolCallStateStatus,
};
use crate::text::str_eq;

pub mod course;
pub mod showing;

verus! {

broadcast use vstd::string::group_string_axioms;

/// What one timeline entry says.
pub enum EntryContent {
    User { text: Seq<char>, truncated: bool },
    Assistant { text: Seq<char>, truncated: bool },
    Thought { text: Seq<char>, truncated: bool },
    System { text: Seq<char>, truncated: bool },
    Tool {
        tool_call_id: Seq<char>,
        name: Seq<char>,
        title: Seq<char>,
        status: ToolCallStateStatus,
        output: Option<Seq<char>>,
        truncated: bool,
    },
    Outcome { outcome: AssistantOutcome },
}

/// A timeline entry as the contracts speak of it.
pub struct EntryModel {
    pub id: u64,
    pub order: u64,
    pub content: EntryContent,
}

pub open spec fn text_model(text: Option<String>) -> Option<Seq<char>> {
    match text {
        Some(text) => Some(text@),
        None => None,
    }
}

impl View for TimelineEntryKind {
    type V = EntryContent;

    open spec fn view(&self) -> EntryContent {
        match *self {
            TimelineEntryKind::User { text, content_truncated } => EntryContent::User {
                text: text@,
                truncated: content_truncated,
            },
            TimelineEntryKind::Assistant { text, content_truncated } => EntryContent::Assistant {
                text: text@,
                truncated: content_truncated,
            },
            TimelineEntryKind::Thought { text, content_truncated } => EntryContent::Thought {
                text: text@,
                truncated: content_truncated,
            },
            TimelineEntryKind::System { text, content_truncated } => EntryContent::System {
                text: text@,
                truncated: content_truncated,
            },
            TimelineEntryKind::Tool {
                tool_call_id,
                name,
                title,
                status,
                output,
                content_truncated,
            } => EntryContent::Tool {
                tool_call_id: tool_call_id@,
                name: name@,
                title: title@,
                status,
                output: text_model(output),
                truncated: content_truncated,
            },
            TimelineEntryKind::Outcome { outcome } => EntryContent::Outcome { outcome },
        }
    }
}

impl View for TimelineEntry {
    type V = EntryModel;

    open spec fn view(&self) -> EntryModel {
        EntryModel { id: self.id, order: self.order, content: self.entry@ }
    }
}

/// The entries of a timeline as the contracts speak of them.
pub open spec fn entry_models(timeline: Seq<TimelineEntry>) -> Seq<EntryModel> {
    timeline.map_values(|entry: TimelineEntry| entry@)
}

pub open spec fn saturating_sum(a: nat, b: nat) -> u64 {
    if a + b > u64::MAX {
        u64::MAX
    } else {
        (a + b) as u64
    }
}

/// The index of the last element that meets a condition.
pub open spec fn last_where<T>(s: Seq<T>, holds: spec_fn(T) -> bool) -> Option<int>
    decreases s.len(),
{
    if s.len() == 0 {
        None
    } else if holds(s.last()) {
        Some(s.len() - 1)
    } else {
        last_where(s.drop_last(), holds)
    }
}

pub proof fn lemma_last_where_found<T>(s: Seq<T>, holds: spec_fn(T) -> bool, at: int)
    requires
        0 <= at < s.len(),
        holds(s[at]),
        forall|j: int| at < j < s.len() ==> !holds(#[trigger] s[j]),
    ensures
        last_where(s, holds) == Some(at),
    decreases s.len(),
{
    if at < s.len() - 1 {
        lemma_last_where_found(s.drop_last(), holds, at);
    }
}

pub proof fn lemma_last_where_absent<T>(s: Seq<T>, holds: spec_fn(T) -> bool)
    requires
        forall|j: int| 0 <= j < s.len() ==> !holds(#[trigger] s[j]),
    ensures
        last_where(s, holds) is None,
    decreases s.len(),
{
    if s.len() > 0 {
        lemma_last_where_absent(s.drop_last(), holds);
    }
}

pub proof fn lemma_last_where_holds<T>(s: Seq<T>, holds: spec_fn(T) -> bool)
    ensures
        last_where(s, holds) matches Some(at) ==> 0 <= at < s.len() && holds(s[at]) && (forall|
            j: int,
        |
            at < j < s.len() ==> !holds(#[trigger] s[j])),
        last_where(s, holds) is None ==> (forall|j: int|
            0 <= j < s.len() ==> !holds(#[trigger] s[j])),
    decreases s.len(),
{
    if s.len() > 0 && !holds(s.last()) {
        lemma_last_where_holds(s.drop_last(), holds);
        assert forall|j: int| 0 <= j < s.len() - 1 implies s[j] == #[trigger] s.drop_last()[j] by {}
        if last_where(s, holds) is None {
            assert forall|j: int| 0 <= j < s.len() implies !holds(#[trigger] s[j]) by {
                if j < s.len() - 1 {
                    assert(!holds(s.drop_last()[j]));
                }
            }
        } else {
            let at = last_where(s, holds)->0;
            assert forall|j: int| at < j < s.len() implies !holds(#[trigger] s[j]) by {
                if j < s.len() - 1 {
                    assert(!holds(s.drop_last()[j]));
                }
            }
        }
    }
}

/// Whether an entry is the tool call with the given occurrence.
pub open spec fn is_tool_occurrence(entry: EntryModel, occurrence_id: u64) -> bool {
    entry.id == occurrence_id && entry.content is Tool
}

/// Whether an entry is an unfinished call with the given provider id.
pub open spec fn is_open_tool(entry: EntryModel, tool_call_id: Seq<char>) -> bool {
    entry.content matches EntryContent::Tool { tool_call_id: candidate, status, .. }
        && candidate == tool_call_id && !status.terminal()
}

/// Whether a tool is a call with the given provider id.
pub open spec fn is_call(tool: ActiveToolState, tool_call_id: Seq<char>) -> bool {
    tool.tool_call_id@ == tool_call_id
}

/// Gives the newest entry of an occurrence a new status, and a new output when there is one.
pub open spec fn with_occurrence(
    timeline: Seq<EntryModel>,
    occurrence_id: u64,
    status: ToolCallStateStatus,
    output: Option<Seq<char>>,
) -> Seq<EntryModel> {
    match last_where(timeline, |entry: EntryModel| is_tool_occurrence(entry, occurrence_id)) {
        Some(at) => timeline.update(at, with_tool_status(timeline[at], status, output)),
        None => timeline,
    }
}

pub open spec fn with_tool_status(
    entry: EntryModel,
    status: ToolCallStateStatus,
    output: Option<Seq<char>>,
) -> EntryModel {
    match entry.content {
        EntryContent::Tool {
            tool_call_id,
            name,
            title,
            status: _,
            output: current,
            truncated,
        } => EntryModel {
            content: EntryContent::Tool {
                tool_call_id,
                name,
                title,
                status,
                output: if output is Some {
                    output
                } else {
                    current
                },
                truncated,
            },
            ..entry
        },
        _ => entry,
    }
}

/// Brings the entries of the given active tools to their recorded status, first to last.
pub open spec fn with_active_statuses(
    timeline: Seq<EntryModel>,
    active: Seq<ActiveToolState>,
) -> Seq<EntryModel>
    decreases active.len(),
{
    if active.len() == 0 {
        timeline
    } else {
        with_occurrence(
            with_active_statuses(timeline, active.drop_last()),
            active.last().occurrence_id,
            active.last().status,
            None,
        )
    }
}

/// Cancels the entries of the given active tools, first to last.
pub open spec fn with_cancelled(
    timeline: Seq<EntryModel>,
    active: Seq<ActiveToolState>,
) -> Seq<EntryModel>
    decreases active.len(),
{
    if active.len() == 0 {
        timeline
    } else {
        with_occurrence(
            with_cancelled(timeline, active.drop_last()),
            active.last().occurrence_id,
            ToolCallStateStatus::Cancelled,
            None,
        )
    }
}

/// The highest id, order or occurrence in use; zero where there is none.
pub open spec fn highest_id(timeline: Seq<EntryModel>, active: Seq<ActiveToolState>) -> u64
    decreases timeline.len() + active.len(),
{
    if timeline.len() > 0 {
        larger(
            larger(timeline.last().id, timeline.last().order),
            highest_id(timeline.drop_last(), active),
        )
    } else if active.len() > 0 {
        larger(active.last().occurrence_id, highest_id(timeline, active.drop_last()))
    } else {
        0
    }
}

pub open spec fn larger(a: u64, b: u64) -> u64 {
    if a > b {
        a
    } else {
        b
    }
}

/// The streamed texts that consecutive deltas extend.
#[derive(Clone, Copy, PartialEq, Eq, Structural)]
pub enum TextKind {
    Assistant,
    Thought,
}

/// The state of a reducer as the contracts speak of it.
#[verifier::ext_equal]
pub struct TimelineModel {
    pub timeline: Seq<EntryModel>,
    pub active: Seq<ActiveToolState>,
    pub window: HistoryWindow,
    pub max_entries: nat,
    pub next_id: u64,
    pub open: Option<u64>,
}

impl TimelineModel {
    /// A reducer that has seen nothing; it retains at least one entry.
    pub open spec fn fresh(max_entries: usize) -> Self {
        TimelineModel {
            timeline: seq![],
            active: seq![],
            window: HistoryWindow::whole(0),
            max_entries: if max_entries == 0 {
                1
            } else {
                max_entries as nat
            },
            next_id: 1,
            open: None,
        }
    }

    /// A reducer that goes on from recorded parts: entries of active tools take
    /// the recorded status, the oldest entries beyond the limit are dropped,
    /// and new ids follow every id in use.
    pub open spec fn resumed(
        timeline: Seq<EntryModel>,
        active: Seq<ActiveToolState>,
        window: HistoryWindow,
        max_entries: usize,
    ) -> Self {
        TimelineModel {
            timeline: with_active_statuses(timeline, active),
            active,
            window,
            max_entries: if max_entries == 0 {
                1
            } else {
                max_entries as nat
            },
            next_id: saturating_sum(highest_id(timeline, active) as nat, 1),
            open: None,
        }.trimmed().synced()
    }

    /// Every active tool cancelled, and none left active.
    pub open spec fn all_cancelled(self) -> Self {
        TimelineModel {
            timeline: with_cancelled(self.timeline, self.active),
            active: seq![],
            ..self
        }
    }

    /// The limits and the window agree with what is retained.
    pub open spec fn well_formed(self) -> bool {
        &&& 1 <= self.max_entries <= usize::MAX
        &&& self.timeline.len() <= self.max_entries
        &&& self.window.retained == self.timeline.len()
        &&& self.window.total == Some(
            saturating_sum(self.window.truncated_before as nat, self.timeline.len()),
        )
    }

    pub open spec fn closed(self) -> Self {
        TimelineModel { open: None, ..self }
    }

    /// Records how many entries are retained and how many there were.
    pub open spec fn synced(self) -> Self {
        TimelineModel {
            window: HistoryWindow {
                truncated_before: self.window.truncated_before,
                retained: self.timeline.len() as usize,
                total: Some(
                    saturating_sum(self.window.truncated_before as nat, self.timeline.len()),
                ),
            },
            ..self
        }
    }

    /// Drops the oldest entries beyond the limit and counts them as truncated.
    pub open spec fn trimmed(self) -> Self {
        if self.timeline.len() <= self.max_entries {
            self
        } else {
            let excess = (self.timeline.len() - self.max_entries) as nat;
            let kept = self.timeline.skip(excess as int);
            TimelineModel {
                timeline: kept,
                window: HistoryWindow {
                    truncated_before: saturating_sum(self.window.truncated_before as nat, excess),
                    ..self.window
                },
                open: match self.open {
                    Some(id) if has_entry(kept, id) => Some(id),
                    _ => None,
                },
                ..self
            }
        }
    }

    /// Puts a new entry behind the others, under the next id.
    pub open spec fn pushed(self, content: EntryContent) -> Self {
        TimelineModel {
            timeline: self.timeline.push(
                EntryModel { id: self.next_id, order: self.next_id, content },
            ),
            next_id: saturating_sum(self.next_id as nat, 1),
            ..self
        }.trimmed().synced()
    }

    /// Whether text of this kind continues the newest entry.
    pub open spec fn continues(self, kind: TextKind) -> bool {
        &&& self.timeline.len() > 0
        &&& self.open == Some(self.timeline.last().id)
        &&& match kind {
            TextKind::Assistant => self.timeline.last().content is Assistant,
            TextKind::Thought => self.timeline.last().content is Thought,
        }
    }

    pub open spec fn with_text(self, kind: TextKind, text: Seq<char>) -> Self {
        if self.continues(kind) {
            let last = self.timeline.last();
            TimelineModel {
                timeline: self.timeline.update(
                    self.timeline.len() - 1,
                    EntryModel { content: extended(last.content, text), ..last },
                ),
                ..self
            }
        } else {
            let pushed = self.closed().pushed(fresh_text(kind, text));
            TimelineModel { open: Some(self.next_id), ..pushed }
        }
    }

    /// The occurrence that an update for a provider's call id refers to: the
    /// newest unfinished entry, else the newest active tool.
    pub open spec fn occurrence_of(self, tool_call_id: Seq<char>) -> Option<u64> {
        match last_where(
            self.timeline,
            |entry: EntryModel| is_open_tool(entry, tool_call_id),
        ) {
            Some(at) => Some(self.timeline[at].id),
            None => match last_where(
                self.active,
                |tool: ActiveToolState| is_call(tool, tool_call_id),
            ) {
                Some(at) => Some(self.active[at].occurrence_id),
                None => None,
            },
        }
    }

    pub open spec fn with_tool_update(
        self,
        tool_call_id: Seq<char>,
        status: ToolCallStateStatus,
        output: Option<Seq<char>>,
    ) -> Self {
        match self.occurrence_of(tool_call_id) {
            Some(occurrence_id) => TimelineModel {
                timeline: with_occurrence(self.timeline, occurrence_id, status, output),
                active: if status.terminal() {
                    self.active.filter(
                        |tool: ActiveToolState| tool.occurrence_id != occurrence_id,
                    )
                } else {
                    with_active_status(self.active, occurrence_id, status)
                },
                ..self
            },
            None => self,
        }
    }

    pub open spec fn with_tool_start(
        self,
        tool: ActiveToolState,
        status: ToolCallStateStatus,
    ) -> Self {
        let pushed = self.closed().pushed(
            EntryContent::Tool {
                tool_call_id: tool.tool_call_id@,
                name: tool.name@,
                title: tool.title@,
                status,
                output: None,
                truncated: false,
            },
        );
        TimelineModel { active: pushed.active.push(tool), ..pushed }
    }

    pub open spec fn cleared(self) -> Self {
        TimelineModel {
            timeline: seq![],
            active: seq![],
            window: HistoryWindow::whole(0),
            open: None,
            ..self
        }
    }

    /// The effect of one session event.
    pub open spec fn applied(self, event: SessionEvent) -> Self {
        match event {
            SessionEvent::UserMessage { text, .. } => self.closed().pushed(
                EntryContent::User { text: text@, truncated: false },
            ),
            SessionEvent::AssistantDelta { text } => self.with_text(TextKind::Assistant, text@),
            SessionEvent::ThoughtDelta { text } => self.with_text(TextKind::Thought, text@),
            SessionEvent::AssistantDone { outcome } => self.closed().pushed(
                EntryContent::Outcome { outcome },
            ),
            SessionEvent::ToolCallStarted { id, name, title, .. } => self.with_tool_start(
                ActiveToolState {
                    occurrence_id: self.next_id,
                    tool_call_id: id,
                    name,
                    title,
                    status: ToolCallStateStatus::Pending,
                    content_truncated: false,
                },
                ToolCallStateStatus::Pending,
            ),
            SessionEvent::ToolCallUpdated { id, status } => self.with_tool_update(
                id@,
                status,
                None,
            ),
            SessionEvent::ToolCallFinished { id, status, output } => self.with_tool_update(
                id@,
                status,
                Some(output@),
            ),
            SessionEvent::ConversationCleared => self.cleared(),
            _ => self,
        }
    }
}

pub open spec fn has_entry(timeline: Seq<EntryModel>, id: u64) -> bool {
    exists|i: int| 0 <= i < timeline.len() && (#[trigger] timeline[i]).id == id
}

/// Gives the oldest active tool of an occurrence a new status.
pub open spec fn with_active_status(
    active: Seq<ActiveToolState>,
    occurrence_id: u64,
    status: ToolCallStateStatus,
) -> Seq<ActiveToolState>
    decreases active.len(),
{
    if active.len() == 0 {
        active
    } else if active[0].occurrence_id == occurrence_id {
        active.update(0, ActiveToolState { status, ..active[0] })
    } else {
        seq![active[0]] + with_active_status(active.drop_first(), occurrence_id, status)
    }
}

pub open spec fn extended(content: EntryContent, more: Seq<char>) -> EntryContent {
    match content {
        EntryContent::Assistant { text, truncated } => EntryContent::Assistant {
            text: text + more,
            truncated,
        },
        EntryContent::Thought { text, truncated } => EntryContent::Thought {
            text: text + more,
            truncated,
        },
        _ => content,
    }
}

pub open spec fn fresh_text(kind: TextKind, text: Seq<char>) -> EntryContent {
    match kind {
        TextKind::Assistant => EntryContent::Assistant { text, truncated: false },
        TextKind::Thought => EntryContent::Thought { text, truncated: false },
    }
}

pub proof fn lemma_with_active_status_prefix(
    active: Seq<ActiveToolState>,
    at: int,
    occurrence_id: u64,
    status: ToolCallStateStatus,
)
    requires
        0 <= at < active.len(),
        active[at].occurrence_id == occurrence_id,
        forall|j: int| 0 <= j < at ==> (#[trigger] active[j]).occurrence_id != occurrence_id,
    ensures
        with_active_status(active, occurrence_id, status) == active.update(
            at,
            ActiveToolState { status, ..active[at] },
        ),
    decreases active.len(),
{
    if at > 0 {
        assert(active[0].occurrence_id != occurrence_id);
        lemma_with_active_status_prefix(active.drop_first(), at - 1, occurrence_id, status);
        assert(with_active_status(active, occurrence_id, status) =~= active.update(
            at,
            ActiveToolState { status, ..active[at] },
        ));
    }
}

proof fn lemma_with_active_status_absent(
    active: Seq<ActiveToolState>,
    occurrence_id: u64,
    status: ToolCallStateStatus,
)
    requires
        forall|j: int|
            0 <= j < active.len() ==> (#[trigger] active[j]).occurrence_id != occurrence_id,
    ensures
        with_active_status(active, occurrence_id, status) == active,
    decreases active.len(),
{
    if active.len() > 0 {
        assert(active[0].occurrence_id != occurrence_id);
        lemma_with_active_status_absent(active.drop_first(), occurrence_id, status);
        assert(seq![active[0]] + active.drop_first() =~= active);
    }
}

#[derive(Debug, PartialEq, Eq)]
pub struct TimelineReducer {
    timeline: Vec<TimelineEntry>,
    active_tools: Vec<ActiveToolState>,
    history_window: HistoryWindow,
    max_entries: usize,
    next_id: u64,
    open_entry_id: Option<u64>,
}

impl View for TimelineReducer {
    type V = TimelineModel;

    closed spec fn view(&self) -> TimelineModel {
        TimelineModel {
            timeline: entry_models(self.timeline@),
            active: self.active_tools@,
            window: self.history_window,
            max_entries: self.max_entries as nat,
            next_id: self.next_id,
            open: self.open_entry_id,
        }
    }
}

impl TimelineReducer {
    pub fn new(max_entries: usize) -> (reducer: Self)
        ensures
            reducer@ == TimelineModel::fresh(max_entries),
            reducer@.well_formed(),
    {
        let reducer = TimelineReducer::from_parts(
            Vec::new(),
            Vec::new(),
            HistoryWindow::complete(0),
            max_entries,
        );
        proof {
            assert(entry_models(Seq::<TimelineEntry>::empty()) =~= Seq::<EntryModel>::empty());
        }
        reducer
    }

    /// Resumes from recorded parts: entries of active tools take the recorded
    /// status, the oldest entries beyond the limit are dropped, and new ids
    /// follow every id in use.
    pub fn from_parts(
        timeline: Vec<TimelineEntry>,
        active_tools: Vec<ActiveToolState>,
        history_window: HistoryWindow,
        max_entries: usize,
    ) -> (reducer: Self)
        ensures
            reducer@ == TimelineModel::resumed(
                entry_models(timeline@),
                active_tools@,
                history_window,
                max_entries,
            ),
            reducer@.well_formed(),
    {
        let highest: u64 = TimelineReducer::highest_in_use(&timeline, &active_tools);
        let ghost models = entry_models(timeline@);
        let mut reducer = TimelineReducer {
            timeline,
            active_tools: Vec::new(),
            history_window,
            max_entries: if max_entries == 0 {
                1
            } else {
                max_entries
            },
            next_id: highest.saturating_add(1),
            open_entry_id: None,
        };
        let ghost start = reducer@;
        let mut i: usize = 0;
        while i < active_tools.len()
            invariant
                i <= active_tools@.len(),
                start.timeline == models,
                reducer@ == (TimelineModel {
                    timeline: with_active_statuses(models, active_tools@.take(i as int)),
                    ..start
                }),
            decreases active_tools@.len() - i,
        {
            proof {
                assert(active_tools@.take(i + 1).drop_last() =~= active_tools@.take(i as int));
            }
            reducer.update_occurrence(active_tools[i].occurrence_id, active_tools[i].status, None);
            i = i + 1;
        }
        assert(active_tools@.take(active_tools@.len() as int) =~= active_tools@);
        reducer.active_tools = active_tools;
        reducer.trim_to_limit();
        reducer.sync_window();
        reducer
    }

    fn highest_in_use(timeline: &Vec<TimelineEntry>, active_tools: &Vec<ActiveToolState>) -> (highest:
        u64)
        ensures
            highest == highest_id(entry_models(timeline@), active_tools@),
    {
        let mut highest: u64 = 0;
        let mut i: usize = 0;
        let ghost none = Seq::<EntryModel>::empty();
        while i < active_tools.len()
            invariant
                i <= active_tools@.len(),
                none == Seq::<EntryModel>::empty(),
                highest == highest_id(none, active_tools@.take(i as int)),
            decreases active_tools@.len() - i,
        {
            proof {
                assert(active_tools@.take(i + 1).drop_last() =~= active_tools@.take(i as int));
            }
            if active_tools[i].occurrence_id > highest {
                highest = active_tools[i].occurrence_id;
            }
            i = i + 1;
        }
        assert(active_tools@.take(active_tools@.len() as int) =~= active_tools@);
        let ghost models = entry_models(timeline@);
        assert(models.take(0) =~= none);
        let mut k: usize = 0;
        while k < timeline.len()
            invariant
                k <= timeline@.len(),
                models == entry_models(timeline@),
                highest == highest_id(models.take(k as int), active_tools@),
            decreases timeline@.len() - k,
        {
            proof {
                assert(models.take(k + 1).drop_last() =~= models.take(k as int));
                assert(models[k as int] == timeline@[k as int]@);
            }
            let id: u64 = timeline[k].id;
            let order: u64 = timeline[k].order;
            let own: u64 = if id > order {
                id
            } else {
                order
            };
            if own > highest {
                highest = own;
            }
            k = k + 1;
        }
        assert(models.take(models.len() as int) =~= models);
        highest
    }

    pub fn timeline(&self) -> (timeline: &[TimelineEntry])
        ensures
            entry_models(timeline@) == self@.timeline,
    {
        self.timeline.as_slice()
    }

    pub fn active_tools(&self) -> (active_tools: &[ActiveToolState])
        ensures
            active_tools@ == self@.active,
    {
        self.active_tools.as_slice()
    }

    pub fn history_window(&self) -> (window: &HistoryWindow)
        ensures
            *window == self@.window,
    {
        &self.history_window
    }

    pub fn is_open(&self, id: u64) -> (open: bool)
        ensures
            open == (self@.open == Some(id)),
    {
        match self.open_entry_id {
            Some(open) => open == id,
            None => false,
        }
    }

    pub fn into_parts(self) -> (parts: (Vec<TimelineEntry>, Vec<ActiveToolState>, HistoryWindow))
        ensures
            entry_models(parts.0@) == self@.timeline,
            parts.1@ == self@.active,
            parts.2 == self@.window,
    {
        (self.timeline, self.active_tools, self.history_window)
    }

    /// Folds one event into the timeline.
    pub fn apply(&mut self, event: SessionEvent)
        requires
            old(self)@.well_formed(),
        ensures
            final(self)@ == old(self)@.applied(event),
            final(self)@.well_formed(),
    {
        match event {
            SessionEvent::UserMessage { text, .. } => {
                self.close_open();
                self.push(TimelineEntryKind::User { text, content_truncated: false });
            },
            SessionEvent::AssistantDelta { text } => {
                self.append_text(TextKind::Assistant, text);
            },
            SessionEvent::ThoughtDelta { text } => {
                self.append_text(TextKind::Thought, text);
            },
            SessionEvent::AssistantDone { outcome } => {
                self.close_open();
                self.push(TimelineEntryKind::Outcome { outcome });
            },
            SessionEvent::ToolCallStarted { id, name, title, .. } => {
                self.start_tool(id, name, title, ToolCallStateStatus::Pending);
            },
            SessionEvent::ToolCallUpdated { id, status } => {
                self.update_tool(id.as_str(), status, None);
            },
            SessionEvent::ToolCallFinished { id, status, output } => {
                self.update_tool(id.as_str(), status, Some(output));
            },
            SessionEvent::ConversationCleared => {
                self.clear();
            },
            SessionEvent::ApprovalRequested { .. }
            | SessionEvent::ApprovalResolved { .. }
            | SessionEvent::ApprovalDeadlineChanged { .. }
            | SessionEvent::RuntimeOptionsChanged { .. }
            | SessionEvent::ContextUsageChanged { .. }
            | SessionEvent::TurnStatusChanged { .. }
            | SessionEvent::SessionEnding { .. } => {},
        }
        self.sync_window();
    }

    pub fn push_reconstructed(&mut self, entry: TimelineEntryKind) -> (id: u64)
        requires
            old(self)@.well_formed(),
        ensures
            final(self)@ == old(self)@.closed().pushed(entry@),
            final(self)@.well_formed(),
            id == old(self)@.next_id,
    {
        self.close_open();
        self.push(entry)
    }

    pub fn start_reconstructed_tool(
        &mut self,
        tool_call_id: String,
        name: String,
        title: String,
    ) -> (occurrence_id: u64)
        requires
            old(self)@.well_formed(),
        ensures
            final(self)@ == old(self)@.with_tool_start(
                (ActiveToolState {
                    occurrence_id: old(self)@.next_id,
                    tool_call_id,
                    name,
                    title,
                    status: ToolCallStateStatus::InProgress,
                    content_truncated: false,
                }),
                ToolCallStateStatus::InProgress,
            ),
            final(self)@.well_formed(),
            occurrence_id == old(self)@.next_id,
    {
        self.start_tool(tool_call_id, name, title, ToolCallStateStatus::InProgress)
    }

    fn start_tool(
        &mut self,
        tool_call_id: String,
        name: String,
        title: String,
        status: ToolCallStateStatus,
    ) -> (occurrence_id: u64)
        requires
            old(self)@.well_formed(),
        ensures
            final(self)@ == old(self)@.with_tool_start(
                (ActiveToolState {
                    occurrence_id: old(self)@.next_id,
                    tool_call_id,
                    name,
                    title,
                    status,
                    content_truncated: false,
                }),
                status,
            ),
            final(self)@.well_formed(),
            occurrence_id == old(self)@.next_id,
    {
        self.close_open();
        let occurrence_id: u64 = self.push(
            TimelineEntryKind::Tool {
                tool_call_id: tool_call_id.clone(),
                name: name.clone(),
                title: title.clone(),
                status,
                output: None,
                content_truncated: false,
            },
        );
        self.active_tools.push(
            ActiveToolState {
                occurrence_id,
                tool_call_id,
                name,
                title,
                status,
                content_truncated: false,
            },
        );
        occurrence_id
    }

    pub fn push_system(&mut self, text: String)
        requires
            old(self)@.well_formed(),
        ensures
            final(self)@ == old(self)@.closed().pushed(
                (EntryContent::System { text: text@, truncated: false }),
            ),
            final(self)@.well_formed(),
    {
        self.close_open();
        self.push(TimelineEntryKind::System { text, content_truncated: false });
    }

    pub fn update_reconstructed_tool(
        &mut self,
        tool_call_id: &str,
        status: ToolCallStateStatus,
        output: String,
    )
        requires
            old(self)@.well_formed(),
        ensures
            final(self)@ == old(self)@.with_tool_update(tool_call_id@, status, Some(output@)),
            final(self)@.well_formed(),
    {
        self.update_tool(tool_call_id, status, Some(output));
    }

    /// Cancels every tool that never finished; none stays active.
    pub fn cancel_reconstructed_active_tools(&mut self)
        requires
            old(self)@.well_formed(),
        ensures
            final(self)@ == old(self)@.all_cancelled(),
            final(self)@.well_formed(),
    {
        let mut active: Vec<ActiveToolState> = Vec::new();
        std::mem::swap(&mut active, &mut self.active_tools);
        let ghost start = old(self)@;
        assert(self@ == TimelineModel { active: seq![], ..start });
        let mut i: usize = 0;
        while i < active.len()
            invariant
                i <= active@.len(),
                start == old(self)@,
                active@ == start.active,
                self@ == (TimelineModel {
                    timeline: with_cancelled(start.timeline, active@.take(i as int)),
                    active: seq![],
                    ..start
                }),
                with_cancelled(start.timeline, active@.take(i as int)).len()
                    == start.timeline.len(),
            decreases active@.len() - i,
        {
            proof {
                assert(active@.take(i + 1).drop_last() =~= active@.take(i as int));
            }
            self.update_occurrence(active[i].occurrence_id, ToolCallStateStatus::Cancelled, None);
            i = i + 1;
        }
        assert(active@.take(active@.len() as int) =~= active@);
    }

    pub fn clear(&mut self)
        requires
            old(self)@.well_formed(),
        ensures
            final(self)@ == old(self)@.cleared(),
            final(self)@.well_formed(),
    {
        self.timeline.clear();
        self.active_tools.clear();
        self.history_window = HistoryWindow::complete(0);
        self.open_entry_id = None;
        assert(entry_models(self.timeline@) =~= Seq::<EntryModel>::empty());
    }

    fn append_text(&mut self, kind: TextKind, text: String)
        requires
            old(self)@.well_formed(),
        ensures
            final(self)@ == old(self)@.with_text(kind, text@),
            final(self)@.well_formed(),
    {
        if let Some(open_id) = self.open_entry_id {
            let len: usize = self.timeline.len();
            if len > 0 && self.timeline[len - 1].id == open_id {
                let ghost before = self.timeline@;
                assert(entry_models(before)[len - 1] == before[len - 1]@);
                let mut last = self.timeline.pop().unwrap();
                let continued = match (&mut last.entry, kind) {
                    (
                        TimelineEntryKind::Assistant { text: target, .. },
                        TextKind::Assistant,
                    ) => {
                        target.append(text.as_str());
                        true
                    },
                    (TimelineEntryKind::Thought { text: target, .. }, TextKind::Thought) => {
                        target.append(text.as_str());
                        true
                    },
                    _ => false,
                };
                self.timeline.push(last);
                if continued {
                    assert(entry_models(self.timeline@) =~= old(self)@.with_text(
                        kind,
                        text@,
                    ).timeline);
                    return ;
                }
                assert(self.timeline@ =~= before);
            }
        }
        assert(!old(self)@.continues(kind));
        self.close_open();
        let entry = match kind {
            TextKind::Assistant => TimelineEntryKind::Assistant { text, content_truncated: false },
            TextKind::Thought => TimelineEntryKind::Thought { text, content_truncated: false },
        };
        let id: u64 = self.push(entry);
        self.open_entry_id = Some(id);
    }

    fn find_open_tool(&self, tool_call_id: &str) -> (found: Option<u64>)
        ensures
            found == match last_where(
                self@.timeline,
                |entry: EntryModel| is_open_tool(entry, tool_call_id@),
            ) {
                Some(at) => Some(self@.timeline[at].id),
                None => None,
            },
    {
        let ghost holds = |entry: EntryModel| is_open_tool(entry, tool_call_id@);
        let mut i: usize = self.timeline.len();
        while i > 0
            invariant
                i <= self.timeline@.len(),
                self@.timeline == entry_models(self.timeline@),
                holds == (|entry: EntryModel| is_open_tool(entry, tool_call_id@)),
                forall|j: int| i <= j < self@.timeline.len() ==> !holds(#[trigger] self@.timeline[j]),
            decreases i,
        {
            i = i - 1;
            assert(self@.timeline[i as int] == self.timeline@[i as int]@);
            if let TimelineEntryKind::Tool { tool_call_id: candidate, status, .. } =
                &self.timeline[i].entry {
                if str_eq(candidate.as_str(), tool_call_id) && !status.is_terminal() {
                    proof {
                        lemma_last_where_found(self@.timeline, holds, i as int);
                    }
                    return Some(self.timeline[i].id);
                }
            }
        }
        proof {
            lemma_last_where_absent(self@.timeline, holds);
        }
        None
    }

    fn find_active(&self, tool_call_id: &str) -> (found: Option<u64>)
        ensures
            found == match last_where(
                self@.active,
                |tool: ActiveToolState| is_call(tool, tool_call_id@),
            ) {
                Some(at) => Some(self@.active[at].occurrence_id),
                None => None,
            },
    {
        let ghost holds = |tool: ActiveToolState| is_call(tool, tool_call_id@);
        let mut i: usize = self.active_tools.len();
        while i > 0
            invariant
                i <= self.active_tools@.len(),
                self@.active == self.active_tools@,
                holds == (|tool: ActiveToolState| is_call(tool, tool_call_id@)),
                forall|j: int| i <= j < self@.active.len() ==> !holds(#[trigger] self@.active[j]),
            decreases i,
        {
            i = i - 1;
            if str_eq(self.active_tools[i].tool_call_id.as_str(), tool_call_id) {
                proof {
                    lemma_last_where_found(self@.active, holds, i as int);
                }
                return Some(self.active_tools[i].occurrence_id);
            }
        }
        proof {
            lemma_last_where_absent(self@.active, holds);
        }
        None
    }

    fn update_tool(
        &mut self,
        tool_call_id: &str,
        status: ToolCallStateStatus,
        output: Option<String>,
    )
        requires
            old(self)@.well_formed(),
        ensures
            final(self)@ == old(self)@.with_tool_update(tool_call_id@, status, text_model(output)),
            final(self)@.well_formed(),
    {
        let found: Option<u64> = match self.find_open_tool(tool_call_id) {
            Some(id) => Some(id),
            None => self.find_active(tool_call_id),
        };
        if let Some(occurrence_id) = found {
            self.update_occurrence(occurrence_id, status, output);
            if status.is_terminal() {
                self.retain_others(occurrence_id);
            } else {
                self.set_active_status(occurrence_id, status);
            }
        }
    }

    fn retain_others(&mut self, occurrence_id: u64)
        ensures
            final(self)@ == (TimelineModel {
                active: old(self)@.active.filter(
                    (|tool: ActiveToolState| tool.occurrence_id != occurrence_id),
                ),
                ..old(self)@
            }),
    {
        let ghost keep = |tool: ActiveToolState| tool.occurrence_id != occurrence_id;
        let ghost start = self.active_tools@;
        let mut i: usize = 0;
        let ghost mut seen: int = 0;
        assert(start.take(0).filter(keep) =~= Seq::<ActiveToolState>::empty()) by {
            reveal(Seq::filter);
        }
        assert(self.active_tools@ =~= start.take(0).filter(keep) + start.skip(0));
        while i < self.active_tools.len()
            invariant
                0 <= seen <= start.len(),
                keep == (|tool: ActiveToolState| tool.occurrence_id != occurrence_id),
                start == old(self).active_tools@,
                i == start.take(seen).filter(keep).len(),
                self.active_tools@ == start.take(seen).filter(keep) + start.skip(seen),
                self.timeline == old(self).timeline,
                self.history_window == old(self).history_window,
                self.max_entries == old(self).max_entries,
                self.next_id == old(self).next_id,
                self.open_entry_id == old(self).open_entry_id,
            decreases start.len() - seen,
        {
            proof {
                assert(start.take(seen + 1).drop_last() =~= start.take(seen));
                assert(start.take(seen + 1).last() == start[seen]);
                assert(self.active_tools@[i as int] == start[seen]);
                reveal(Seq::filter);
            }
            if self.active_tools[i].occurrence_id == occurrence_id {
                self.active_tools.remove(i);
                assert(self.active_tools@ =~= start.take(seen + 1).filter(keep) + start.skip(
                    seen + 1,
                ));
            } else {
                assert(self.active_tools@ =~= start.take(seen + 1).filter(keep) + start.skip(
                    seen + 1,
                ));
                i = i + 1;
            }
            proof {
                seen = seen + 1;
            }
        }
        assert(start.take(seen) =~= start);
        assert(self.active_tools@ =~= start.filter(keep));
    }

    fn set_active_status(&mut self, occurrence_id: u64, status: ToolCallStateStatus)
        ensures
            final(self)@ == (TimelineModel {
                active: with_active_status(old(self)@.active, occurrence_id, status),
                ..old(self)@
            }),
    {
        let mut i: usize = 0;
        while i < self.active_tools.len()
            invariant
                i <= self.active_tools@.len(),
                *self == *old(self),
                forall|j: int|
                    0 <= j < i ==> (#[trigger] self.active_tools@[j]).occurrence_id
                        != occurrence_id,
            decreases self.active_tools@.len() - i,
        {
            if self.active_tools[i].occurrence_id == occurrence_id {
                proof {
                    lemma_with_active_status_prefix(
                        self.active_tools@,
                        i as int,
                        occurrence_id,
                        status,
                    );
                }
                self.active_tools[i].status = status;
                return ;
            }
            i = i + 1;
        }
        proof {
            lemma_with_active_status_absent(self.active_tools@, occurrence_id, status);
        }
    }

    fn update_occurrence(
        &mut self,
        occurrence_id: u64,
        status: ToolCallStateStatus,
        output: Option<String>,
    )
        ensures
            final(self)@ == (TimelineModel {
                timeline: with_occurrence(
                    old(self)@.timeline,
                    occurrence_id,
                    status,
                    text_model(output),
                ),
                ..old(self)@
            }),
            final(self)@.timeline.len() == old(self)@.timeline.len(),
    {
        let ghost holds = |entry: EntryModel| is_tool_occurrence(entry, occurrence_id);
        let ghost start = self@.timeline;
        let mut i: usize = self.timeline.len();
        while i > 0
            invariant
                i <= self.timeline@.len(),
                *self == *old(self),
                start == entry_models(self.timeline@),
                start == old(self)@.timeline,
                holds == (|entry: EntryModel| is_tool_occurrence(entry, occurrence_id)),
                forall|j: int| i <= j < start.len() ==> !holds(#[trigger] start[j]),
            decreases i,
        {
            i = i - 1;
            assert(start[i as int] == self.timeline@[i as int]@);
            let is_tool = matches!(&self.timeline[i].entry, TimelineEntryKind::Tool { .. });
            if self.timeline[i].id == occurrence_id && is_tool {
                proof {
                    lemma_last_where_found(start, holds, i as int);
                }
                if let TimelineEntryKind::Tool { status: current, output: current_output, .. } =
                    &mut self.timeline[i].entry {
                    *current = status;
                    if output.is_some() {
                        *current_output = output;
                    }
                }
                assert(entry_models(self.timeline@) =~= with_occurrence(
                    start,
                    occurrence_id,
                    status,
                    text_model(output),
                ));
                return ;
            }
        }
        proof {
            lemma_last_where_absent(start, holds);
        }
    }

    fn push(&mut self, entry: TimelineEntryKind) -> (id: u64)
        requires
            old(self)@.well_formed(),
        ensures
            final(self)@ == old(self)@.pushed(entry@),
            final(self)@.well_formed(),
            id == old(self)@.next_id,
    {
        let id: u64 = self.next_id;
        self.next_id = self.next_id.saturating_add(1);
        self.timeline.push(TimelineEntry { id, order: id, entry });
        proof {
            assert(self@.timeline =~= old(self)@.timeline.push(
                EntryModel { id, order: id, content: entry@ },
            ));
        }
        self.trim_to_limit();
        self.sync_window();
        id
    }

    fn close_open(&mut self)
        ensures
            final(self)@ == old(self)@.closed(),
    {
        self.open_entry_id = None;
    }

    fn trim_to_limit(&mut self)
        requires
            old(self)@.max_entries >= 1,
        ensures
            final(self)@ == old(self)@.trimmed(),
            final(self)@.timeline.len() <= final(self)@.max_entries,
    {
        if self.timeline.len() > self.max_entries {
            let excess: usize = self.timeline.len() - self.max_entries;
            let ghost start = self.timeline@;
            let kept = self.timeline.split_off(excess);
            self.timeline = kept;
            assert(self@.timeline =~= old(self)@.timeline.skip(excess as int));
            self.history_window.truncated_before =
            self.history_window.truncated_before.saturating_add(excess as u64);
            if let Some(id) = self.open_entry_id {
                if !self.holds_entry(id) {
                    self.open_entry_id = None;
                }
            }
        }
    }

    fn holds_entry(&self, id: u64) -> (held: bool)
        ensures
            held == has_entry(self@.timeline, id),
    {
        let mut i: usize = 0;
        while i < self.timeline.len()
            invariant
                i <= self.timeline@.len(),
                self@.timeline == entry_models(self.timeline@),
                forall|j: int| 0 <= j < i ==> (#[trigger] self@.timeline[j]).id != id,
            decreases self.timeline@.len() - i,
        {
            assert(self@.timeline[i as int] == self.timeline@[i as int]@);
            if self.timeline[i].id == id {
                return true;
            }
            i = i + 1;
        }
        false
    }

    fn sync_window(&mut self)
        ensures
            final(self)@ == old(self)@.synced(),
    {
        self.history_window.retained = self.timeline.len();
        self.history_window.total = Some(
            self.history_window.truncated_before.saturating_add(self.timeline.len() as u64),
        );
    }
}


impl TimelineModel {
    /// Entries stand in the order of their ids, and every id in use lies below the next one.
    pub open spec fn ordered(self) -> bool {
        &&& forall|i: int, j: int|
            0 <= i < j < self.timeline.len() ==> (#[trigger] self.timeline[i]).id < (
            #[trigger] self.timeline[j]).id
        &&& forall|i: int|
            0 <= i < self.timeline.len() ==> (#[trigger] self.timeline[i]).id < self.next_id
        &&& forall|i: int|
            0 <= i < self.timeline.len() ==> (#[trigger] self.timeline[i]).order
                == self.timeline[i].id
        &&& forall|i: int|
            0 <= i < self.active.len() ==> (#[trigger] self.active[i]).occurrence_id < self.next_id
    }

    /// No active tool has finished.
    pub open spec fn active_unfinished(self) -> bool {
        forall|i: int|
            0 <= i < self.active.len() ==> !(#[trigger] self.active[i]).status.terminal()
    }
}

pub proof fn lemma_with_occurrence_keeps_ids(
    timeline: Seq<EntryModel>,
    occurrence_id: u64,
    status: ToolCallStateStatus,
    output: Option<Seq<char>>,
)
    ensures
        with_occurrence(timeline, occurrence_id, status, output).len() == timeline.len(),
        forall|i: int|
            0 <= i < timeline.len() ==> (#[trigger] with_occurrence(
                timeline,
                occurrence_id,
                status,
                output,
            )[i]).id == timeline[i].id && with_occurrence(
                timeline,
                occurrence_id,
                status,
                output,
            )[i].order == timeline[i].order,
{
    lemma_last_where_holds(
        timeline,
        |entry: EntryModel| is_tool_occurrence(entry, occurrence_id),
    );
}

proof fn lemma_with_active_status_keeps(
    active: Seq<ActiveToolState>,
    occurrence_id: u64,
    status: ToolCallStateStatus,
)
    ensures
        with_active_status(active, occurrence_id, status).len() == active.len(),
        forall|i: int|
            0 <= i < active.len() ==> {
                let updated = #[trigger] with_active_status(active, occurrence_id, status)[i];
                updated.occurrence_id == active[i].occurrence_id && (updated.status
                    == active[i].status || updated.status == status)
            },
    decreases active.len(),
{
    if active.len() > 0 && active[0].occurrence_id != occurrence_id {
        lemma_with_active_status_keeps(active.drop_first(), occurrence_id, status);
        let rest = with_active_status(active.drop_first(), occurrence_id, status);
        assert forall|i: int| 0 <= i < active.len() implies {
            let updated = #[trigger] with_active_status(active, occurrence_id, status)[i];
            updated.occurrence_id == active[i].occurrence_id && (updated.status
                == active[i].status || updated.status == status)
        } by {
            if i > 0 {
                assert(with_active_status(active, occurrence_id, status)[i] == rest[i - 1]);
                assert(active.drop_first()[i - 1] == active[i]);
            }
        }
    }
}

pub proof fn lemma_update_keeps_order(
    state: TimelineModel,
    tool_call_id: Seq<char>,
    status: ToolCallStateStatus,
    output: Option<Seq<char>>,
)
    requires
        state.ordered(),
    ensures
        state.with_tool_update(tool_call_id, status, output).ordered(),
{
    if let Some(occurrence_id) = state.occurrence_of(tool_call_id) {
        lemma_with_occurrence_keeps_ids(state.timeline, occurrence_id, status, output);
        lemma_with_active_status_keeps(state.active, occurrence_id, status);
        let keep = |tool: ActiveToolState| tool.occurrence_id != occurrence_id;
        let kept = state.active.filter(keep);
        assert forall|i: int| 0 <= i < kept.len() implies (#[trigger] kept[i]).occurrence_id
            < state.next_id by {
            assert(kept.contains(kept[i]));
            state.active.lemma_filter_contains_rev(keep, kept[i]);
        }
    }
}

/// A tool stays active exactly until it finishes: the active tools are all unfinished.
pub proof fn law_active_tools_are_unfinished(state: TimelineModel, event: SessionEvent)
    requires
        state.active_unfinished(),
    ensures
        state.applied(event).active_unfinished(),
{
    let (tool_call_id, status) = match event {
        SessionEvent::ToolCallUpdated { id, status } => (id@, status),
        SessionEvent::ToolCallFinished { id, status, .. } => (id@, status),
        _ => (seq![], ToolCallStateStatus::Pending),
    };
    if let Some(occurrence_id) = state.occurrence_of(tool_call_id) {
        lemma_with_active_status_keeps(state.active, occurrence_id, status);
        let keep = |tool: ActiveToolState| tool.occurrence_id != occurrence_id;
        let kept = state.active.filter(keep);
        assert forall|i: int| 0 <= i < kept.len() implies !(
        #[trigger] kept[i]).status.terminal() by {
            assert(kept.contains(kept[i]));
            state.active.lemma_filter_contains_rev(keep, kept[i]);
        }
    }
}

/// Active tools outlive the entries that history trimming drops: only an
/// update of a tool or a cleared conversation changes an earlier active tool.
pub proof fn law_active_tools_survive_trimming(state: TimelineModel, event: SessionEvent)
    requires
        !(event is ToolCallUpdated),
        !(event is ToolCallFinished),
        !(event is ConversationCleared),
    ensures
        state.applied(event).active.len() >= state.active.len(),
        state.applied(event).active.take(state.active.len() as int) == state.active,
        event is ToolCallStarted || state.applied(event).active == state.active,
{
    assert(state.applied(event).active.take(state.active.len() as int) =~= state.active);
}

/// A finished tool is no longer active, whether or not its entry is still retained.
pub proof fn law_finished_tool_is_not_active(
    state: TimelineModel,
    tool_call_id: Seq<char>,
    status: ToolCallStateStatus,
    output: Option<Seq<char>>,
)
    requires
        status.terminal(),
        state.occurrence_of(tool_call_id) is Some,
    ensures
        forall|i: int|
            0 <= i < state.with_tool_update(tool_call_id, status, output).active.len() ==> (
            #[trigger] state.with_tool_update(tool_call_id, status, output).active[i]).occurrence_id
                != state.occurrence_of(tool_call_id)->0,
{
    let occurrence_id = state.occurrence_of(tool_call_id)->0;
    let keep = |tool: ActiveToolState| tool.occurrence_id != occurrence_id;
    let kept = state.active.filter(keep);
    assert forall|i: int| 0 <= i < kept.len() implies (#[trigger] kept[i]).occurrence_id
        != occurrence_id by {
        state.active.lemma_filter_pred(keep, i);
    }
}

/// Consecutive deltas of one kind make one entry: two of them leave the same
/// state as one delta with the joined text.
pub proof fn law_deltas_coalesce(
    state: TimelineModel,
    first: String,
    second: String,
    joined: String,
)
    requires
        state.well_formed(),
        joined@ == first@ + second@,
    ensures
        state.applied(SessionEvent::AssistantDelta { text: first }).applied(
            SessionEvent::AssistantDelta { text: second },
        ) == state.applied(SessionEvent::AssistantDelta { text: joined }),
        state.applied(SessionEvent::ThoughtDelta { text: first }).applied(
            SessionEvent::ThoughtDelta { text: second },
        ) == state.applied(SessionEvent::ThoughtDelta { text: joined }),
{
    lemma_texts_join(state, TextKind::Assistant, first@, second@);
    lemma_texts_join(state, TextKind::Thought, first@, second@);
}

proof fn lemma_texts_join(
    state: TimelineModel,
    kind: TextKind,
    first: Seq<char>,
    second: Seq<char>,
)
    requires
        state.well_formed(),
    ensures
        state.with_text(kind, first).with_text(kind, second) == state.with_text(
            kind,
            first + second,
        ),
{
    let once = state.with_text(kind, first);
    let twice = once.with_text(kind, second);
    let whole = state.with_text(kind, first + second);
    if state.continues(kind) {
        let last = state.timeline.last();
        assert(once.timeline.last().content == extended(last.content, first));
        assert(extended(extended(last.content, first), second) == extended(
            last.content,
            first + second,
        )) by {
            match last.content {
                EntryContent::Assistant { text, .. } => {
                    assert(text + first + second =~= text + (first + second));
                },
                EntryContent::Thought { text, .. } => {
                    assert(text + first + second =~= text + (first + second));
                },
                _ => {},
            }
        }
    } else {
        assert(once.timeline.last().content == fresh_text(kind, first));
        assert(once.timeline.last().id == state.next_id);
        assert(once.continues(kind));
    }
    assert(twice.timeline =~= whole.timeline);
}

} // verus!
