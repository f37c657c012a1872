//! What holds of a snapshot whatever events it goes through.
use vstd::prelude::*;
use crate::session_daemon::snapshot_state::{
    after_replay, approval_named, approval_other, call_named, first_at, first_where,
    law_snapshot_stays_bounded, newest, EntryView, SnapshotModel, StateModel,
};
use crate::session_protocol::{
    ApprovalRequest, SessionEvent, ToolCallState, ToolCallStateStatus, TranscriptRole,
};

verus! {

broadcast use vstd::string::group_string_axioms;

impl StateModel {
    /// Whether the transcript ends in an entry of a role.
    pub open spec fn ends_in(self, role: TranscriptRole) -> bool {
        self.shown.transcript.len() > 0 && self.shown.transcript.last().role == role
    }

    /// Whether an event makes a new transcript entry.
    pub open spec fn makes_entry(self, event: SessionEvent) -> bool {
        match event {
            SessionEvent::UserMessage { .. } => true,
            SessionEvent::AssistantDelta { .. } => !self.ends_in(TranscriptRole::Assistant),
            SessionEvent::ThoughtDelta { .. } => !self.ends_in(TranscriptRole::Thought),
            SessionEvent::AssistantDone { .. } => !self.ends_in(TranscriptRole::Assistant),
            _ => false,
        }
    }

    /// Whether an event makes a new tool call.
    pub open spec fn makes_call(self, event: SessionEvent) -> bool {
        match event {
            SessionEvent::ToolCallStarted { id, .. } => first_where(
                self.shown.tool_calls,
                call_named(id@),
            ) is None,
            _ => false,
        }
    }

    /// Transcript entries stand in the order of their ids, all below the next one.
    pub open spec fn ids_rise(self) -> bool {
        &&& forall|i: int, j: int|
            0 <= i < j < self.shown.transcript.len() ==> (#[trigger] self.shown.transcript[i]).id
                < (#[trigger] self.shown.transcript[j]).id
        &&& forall|i: int|
            0 <= i < self.shown.transcript.len() ==> (#[trigger] self.shown.transcript[i]).id
                < self.next_transcript_id
    }

    /// No two tool calls and no two pending approvals have the same id.
    pub open spec fn names_distinct(self) -> bool {
        &&& calls_distinct(self.shown.tool_calls)
        &&& approvals_distinct(self.shown.pending_approvals)
    }

    /// Whether nothing of a conversation is shown, and nothing is marked as dropped.
    pub open spec fn blank(self) -> bool {
        &&& self.shown.transcript.len() == 0
        &&& self.shown.tool_calls.len() == 0
        &&& !self.shown.history_truncated
    }
}

pub open spec fn calls_distinct(calls: Seq<ToolCallState>) -> bool {
    forall|i: int, j: int|
        0 <= i < j < calls.len() ==> (#[trigger] calls[i]).id@ != (#[trigger] calls[j]).id@
}

pub open spec fn approvals_distinct(approvals: Seq<ApprovalRequest>) -> bool {
    forall|i: int, j: int|
        0 <= i < j < approvals.len() ==> (#[trigger] approvals[i]).id@ != (
        #[trigger] approvals[j]).id@
}

/// Whether an id is left for every entry that the events make.
pub open spec fn enough_ids(start: StateModel, events: Seq<(u64, SessionEvent)>) -> bool
    decreases events.len(),
{
    events.len() == 0 || {
        let before = after_replay(start, events.drop_last());
        &&& enough_ids(start, events.drop_last())
        &&& before.makes_entry(events.last().1) ==> before.next_transcript_id < u64::MAX
    }
}

/// How many transcript entries the events made since the conversation was last cleared.
pub open spec fn entries_made(start: StateModel, events: Seq<(u64, SessionEvent)>) -> nat
    decreases events.len(),
{
    if events.len() == 0 || events.last().1 is ConversationCleared {
        0
    } else {
        entries_made(start, events.drop_last()) + if after_replay(
            start,
            events.drop_last(),
        ).makes_entry(events.last().1) {
            1nat
        } else {
            0
        }
    }
}

/// How many tool calls the events made since the conversation was last cleared.
pub open spec fn calls_made(start: StateModel, events: Seq<(u64, SessionEvent)>) -> nat
    decreases events.len(),
{
    if events.len() == 0 || events.last().1 is ConversationCleared {
        0
    } else {
        calls_made(start, events.drop_last()) + if after_replay(
            start,
            events.drop_last(),
        ).makes_call(events.last().1) {
            1nat
        } else {
            0
        }
    }
}

proof fn lemma_push_rises(state: StateModel, role: TranscriptRole, text: Seq<char>)
    requires
        state.ids_rise(),
        state.next_transcript_id < u64::MAX,
    ensures
        state.entry_pushed(role, text).ids_rise(),
        state.entry_pushed(role, text).next_transcript_id == state.next_transcript_id + 1,
{
    let grown = state.shown.transcript.push(
        EntryView { id: state.next_transcript_id, role, text, outcome: None },
    );
    assert forall|i: int, j: int| 0 <= i < j < grown.len() implies (#[trigger] grown[i]).id < (
    #[trigger] grown[j]).id by {
        if j < state.shown.transcript.len() {
            assert(state.shown.transcript[i].id < state.shown.transcript[j].id);
        } else {
            assert(state.shown.transcript[i].id < state.next_transcript_id);
        }
    }
}

proof fn lemma_event_rises(state: StateModel, seq: u64, event: SessionEvent)
    requires
        state.ids_rise(),
        state.makes_entry(event) ==> state.next_transcript_id < u64::MAX,
    ensures
        state.applied(seq, event).ids_rise(),
        state.applied(seq, event).next_transcript_id >= state.next_transcript_id,
{
    let numbered = StateModel {
        shown: SnapshotModel { seq, ..state.shown },
        ..state
    };
    assert(numbered.ids_rise());
    match event {
        SessionEvent::UserMessage { text, .. } => {
            lemma_push_rises(numbered, TranscriptRole::User, text@);
        },
        SessionEvent::AssistantDelta { text } => {
            if state.makes_entry(event) {
                lemma_push_rises(numbered, TranscriptRole::Assistant, text@);
            }
        },
        SessionEvent::ThoughtDelta { text } => {
            if state.makes_entry(event) {
                lemma_push_rises(numbered, TranscriptRole::Thought, text@);
            }
        },
        SessionEvent::AssistantDone { .. } => {
            if state.makes_entry(event) {
                lemma_push_rises(numbered, TranscriptRole::Assistant, Seq::empty());
            }
        },
        _ => {},
    }
}

/// Transcript entries stand in the order of their ids, which are all different,
/// whatever events a snapshot goes through, as long as ids are left.
pub proof fn law_transcript_ids_rise(start: StateModel, events: Seq<(u64, SessionEvent)>)
    requires
        start.ids_rise(),
        enough_ids(start, events),
    ensures
        after_replay(start, events).ids_rise(),
        after_replay(start, events).next_transcript_id >= start.next_transcript_id,
    decreases events.len(),
{
    if events.len() > 0 {
        law_transcript_ids_rise(start, events.drop_last());
        lemma_event_rises(
            after_replay(start, events.drop_last()),
            events.last().0,
            events.last().1,
        );
    }
}

/// Transcript ids are never used twice, also across a cleared conversation: the
/// next id is larger than every id that was shown at any time.
pub proof fn law_transcript_ids_are_never_reused(
    start: StateModel,
    events: Seq<(u64, SessionEvent)>,
    count: int,
)
    requires
        start.ids_rise(),
        enough_ids(start, events),
        0 <= count <= events.len(),
    ensures
        ({
            let earlier = after_replay(start, events.take(count));
            let now = after_replay(start, events);
            &&& earlier.next_transcript_id <= now.next_transcript_id
            &&& forall|i: int|
                0 <= i < earlier.shown.transcript.len() ==> (
                #[trigger] earlier.shown.transcript[i]).id < now.next_transcript_id
        }),
    decreases events.len(),
{
    if count == events.len() {
        assert(events.take(count) =~= events);
        law_transcript_ids_rise(start, events);
    } else {
        assert(events.drop_last().take(count) =~= events.take(count));
        law_transcript_ids_are_never_reused(start, events.drop_last(), count);
        law_transcript_ids_rise(start, events.drop_last());
        lemma_event_rises(
            after_replay(start, events.drop_last()),
            events.last().0,
            events.last().1,
        );
    }
}

/// What an event does to the counts that the truncation mark tells of.
proof fn lemma_event_counts(state: StateModel, seq: u64, event: SessionEvent)
    requires
        !(event is ConversationCleared),
    ensures
        ({
            let after = state.applied(seq, event);
            let entries = state.shown.transcript.len() + if state.makes_entry(event) {
                1nat
            } else {
                0
            };
            let calls = state.shown.tool_calls.len() + if state.makes_call(event) {
                1nat
            } else {
                0
            };
            &&& after.shown.transcript.len() <= entries
            &&& after.shown.tool_calls.len() <= calls
            &&& after.shown.history_truncated <==> state.shown.history_truncated
                || after.shown.transcript.len() < entries || after.shown.tool_calls.len() < calls
        }),
{
}

/// The truncation mark is exact: after any events on a blank snapshot it stands
/// if and only if a transcript entry or a tool call that was made since the
/// conversation was last cleared is not shown any more.
pub proof fn law_truncation_mark_is_exact(start: StateModel, events: Seq<(u64, SessionEvent)>)
    requires
        start.blank(),
    ensures
        ({
            let now = after_replay(start, events);
            &&& entries_made(start, events) >= now.shown.transcript.len()
            &&& calls_made(start, events) >= now.shown.tool_calls.len()
            &&& now.shown.history_truncated <==> entries_made(start, events)
                > now.shown.transcript.len() || calls_made(start, events)
                > now.shown.tool_calls.len()
        }),
    decreases events.len(),
{
    if events.len() > 0 {
        law_truncation_mark_is_exact(start, events.drop_last());
        let before = after_replay(start, events.drop_last());
        if !(events.last().1 is ConversationCleared) {
            lemma_event_counts(before, events.last().0, events.last().1);
        }
    }
}

proof fn lemma_nowhere<T>(s: Seq<T>, p: spec_fn(T) -> bool, at: int)
    requires
        first_where(s, p) is None,
        0 <= at < s.len(),
    ensures
        !p(s[at]),
    decreases at,
{
    if p(s[at]) {
        assert forall|i: int| 0 <= i < at implies !p(#[trigger] s[i]) by {
            lemma_nowhere(s, p, i);
        }
        assert(first_at(s, p, at));
    }
}

proof fn lemma_call_names(state: StateModel, call: ToolCallState)
    requires
        calls_distinct(state.shown.tool_calls),
    ensures
        calls_distinct(state.call_started(call).shown.tool_calls),
{
    let calls = state.shown.tool_calls;
    let p = call_named(call.id@);
    match first_where(calls, p) {
        Some(at) => {
            assert(first_at(calls, p, at));
        },
        None => {
            let grown = calls.push(call);
            assert forall|i: int, j: int| 0 <= i < j < grown.len() implies (
            #[trigger] grown[i]).id@ != (#[trigger] grown[j]).id@ by {
                lemma_nowhere(calls, p, i);
                if j < calls.len() {
                    assert(calls[i].id@ != calls[j].id@);
                } else {
                    assert(!p(calls[i]));
                }
            }
            assert(calls_distinct(newest(grown, state.max_entries)));
        },
    }
}

proof fn lemma_changed_names(
    state: StateModel,
    id: Seq<char>,
    status: ToolCallStateStatus,
    output: Option<String>,
)
    requires
        calls_distinct(state.shown.tool_calls),
    ensures
        calls_distinct(state.call_changed(id, status, output).shown.tool_calls),
{
    let calls = state.shown.tool_calls;
    let p = call_named(id);
    if let Some(at) = first_where(calls, p) {
        assert(first_at(calls, p, at));
        let changed = state.call_changed(id, status, output).shown.tool_calls;
        assert forall|i: int, j: int| 0 <= i < j < changed.len() implies (
        #[trigger] changed[i]).id@ != (#[trigger] changed[j]).id@ by {
            assert(calls[i].id@ != calls[j].id@);
        }
    }
}

proof fn lemma_filtered_names(approvals: Seq<ApprovalRequest>, id: Seq<char>)
    requires
        approvals_distinct(approvals),
    ensures
        ({
            let kept = approvals.filter(approval_other(id));
            &&& approvals_distinct(kept)
            &&& forall|i: int| 0 <= i < kept.len() ==> approvals.contains(#[trigger] kept[i])
        }),
    decreases approvals.len(),
{
    reveal(Seq::filter);
    let keep = approval_other(id);
    let kept = approvals.filter(keep);
    if approvals.len() > 0 {
        let rest = approvals.drop_last();
        lemma_filtered_names(rest, id);
        let before = rest.filter(keep);
        assert forall|i: int| 0 <= i < kept.len() implies approvals.contains(#[trigger] kept[i]) by {
            if i < before.len() {
                assert(rest.contains(before[i]));
                let k = choose|k: int| 0 <= k < rest.len() && rest[k] == before[i];
                assert(approvals[k] == kept[i]);
            } else {
                assert(approvals[approvals.len() - 1] == kept[i]);
            }
        }
        assert forall|i: int, j: int| 0 <= i < j < kept.len() implies (#[trigger] kept[i]).id@ != (
        #[trigger] kept[j]).id@ by {
            assert(kept[i] == before[i]);
            if j < before.len() {
                assert(before[i].id@ != before[j].id@);
            } else {
                assert(rest.contains(before[i]));
                let k = choose|k: int| 0 <= k < rest.len() && rest[k] == before[i];
                assert(approvals[k].id@ != approvals[approvals.len() - 1].id@);
            }
        }
    }
}

proof fn lemma_event_names(state: StateModel, seq: u64, event: SessionEvent)
    requires
        state.names_distinct(),
    ensures
        state.applied(seq, event).names_distinct(),
{
    let numbered = StateModel {
        shown: SnapshotModel { seq, ..state.shown },
        ..state
    };
    let approvals = state.shown.pending_approvals;
    match event {
        SessionEvent::ToolCallStarted { id, name, title, .. } => {
            let call = ToolCallState {
                id,
                name,
                title,
                status: ToolCallStateStatus::Pending,
                output: None,
            };
            lemma_call_names(numbered, call);
            assert(state.applied(seq, event) == numbered.call_started(call));
            assert(numbered.call_started(call).shown.pending_approvals == approvals);
        },
        SessionEvent::ToolCallUpdated { id, status } => {
            lemma_changed_names(numbered, id@, status, None);
        },
        SessionEvent::ToolCallFinished { id, status, output } => {
            lemma_changed_names(numbered, id@, status, Some(output));
        },
        SessionEvent::ApprovalRequested { request } => {
            let p = approval_named(request.id@);
            if first_where(approvals, p) is None {
                let grown = approvals.push(request);
                assert forall|i: int, j: int| 0 <= i < j < grown.len() implies (
                #[trigger] grown[i]).id@ != (#[trigger] grown[j]).id@ by {
                    lemma_nowhere(approvals, p, i);
                    if j < approvals.len() {
                        assert(approvals[i].id@ != approvals[j].id@);
                    } else {
                        assert(!p(approvals[i]));
                    }
                }
            }
        },
        SessionEvent::ApprovalResolved { approval_id, .. } => {
            lemma_filtered_names(approvals, approval_id@);
        },
        SessionEvent::ApprovalDeadlineChanged { approval_id, .. } => {
            let p = approval_named(approval_id@);
            if let Some(at) = first_where(approvals, p) {
                assert(first_at(approvals, p, at));
                let changed = state.applied(seq, event).shown.pending_approvals;
                assert forall|i: int, j: int| 0 <= i < j < changed.len() implies (
                #[trigger] changed[i]).id@ != (#[trigger] changed[j]).id@ by {
                    assert(approvals[i].id@ != approvals[j].id@);
                }
            }
        },
        _ => {},
    }
}

/// A snapshot never shows two tool calls or two pending approvals under one id,
/// whatever events it goes through.
pub proof fn law_shown_names_are_distinct(start: StateModel, events: Seq<(u64, SessionEvent)>)
    requires
        start.names_distinct(),
    ensures
        after_replay(start, events).names_distinct(),
    decreases events.len(),
{
    if events.len() > 0 {
        law_shown_names_are_distinct(start, events.drop_last());
        lemma_event_names(
            after_replay(start, events.drop_last()),
            events.last().0,
            events.last().1,
        );
    }
}

proof fn lemma_stays_bounded(start: StateModel, events: Seq<(u64, SessionEvent)>)
    requires
        start.bounded(),
    ensures
        after_replay(start, events).bounded(),
        after_replay(start, events).max_entries == start.max_entries,
        after_replay(start, events).shown.session_id == start.shown.session_id,
    decreases events.len(),
{
    if events.len() > 0 {
        lemma_stays_bounded(start, events.drop_last());
        law_snapshot_stays_bounded(
            after_replay(start, events.drop_last()),
            events.last().0,
            events.last().1,
        );
    }
}

/// What holds of the snapshot of a session after any events from its start. Its
/// transcript, tool calls and runtime options are within the bound. No two tool
/// calls and no two pending approvals have one id. Transcript ids rise strictly,
/// as long as ids are left. The sequence number is that of the last event. The
/// truncation mark stands if and only if a transcript entry or a tool call was
/// dropped since the conversation was last cleared.
pub proof fn law_snapshot_holds_after_any_events(
    session_id: Seq<char>,
    max_entries: nat,
    events: Seq<(u64, SessionEvent)>,
)
    ensures
        ({
            let start = StateModel::fresh(session_id, max_entries);
            let now = after_replay(start, events);
            &&& now.shown.session_id == session_id
            &&& now.shown.transcript.len() <= max_entries
            &&& now.shown.tool_calls.len() <= max_entries
            &&& now.shown.runtime_options.len() <= max_entries
            &&& calls_distinct(now.shown.tool_calls)
            &&& approvals_distinct(now.shown.pending_approvals)
            &&& enough_ids(start, events) ==> now.ids_rise()
            &&& now.shown.seq == if events.len() > 0 {
                events.last().0
            } else {
                0
            }
            &&& now.shown.history_truncated <==> entries_made(start, events)
                > now.shown.transcript.len() || calls_made(start, events)
                > now.shown.tool_calls.len()
        }),
{
    let start = StateModel::fresh(session_id, max_entries);
    lemma_stays_bounded(start, events);
    lemma_stays_bounded(start, events.drop_last());
    law_shown_names_are_distinct(start, events);
    law_truncation_mark_is_exact(start, events);
    if enough_ids(start, events) {
        law_transcript_ids_rise(start, events);
    }
    if events.len() > 0 {
        law_snapshot_stays_bounded(
            after_replay(start, events.drop_last()),
            events.last().0,
            events.last().1,
        );
    }
}

} // verus!
