//! The snapshot of a session whose history was restored: its timeline is taken
//! in as the events that it stands for.
use vstd::prelude::*;
use crate::session_daemon::snapshot_state::{SnapshotModel, SnapshotState, StateModel};
use crate::session_protocol::{
    copy_text, ApprovalRequest, ContextUsage, SessionEvent, SessionTimelineSnapshot, TimelineEntry,
    TimelineEntryKind, TurnStatus,
};

verus! {

broadcast use vstd::string::group_string_axioms;

/// The events that an entry of a timeline stands for. No event carries a
/// system line.
pub open spec fn entry_events(entry: TimelineEntryKind) -> Seq<SessionEvent> {
    match entry {
        TimelineEntryKind::User { text, .. } => seq![
            SessionEvent::UserMessage { text, request_id: None },
        ],
        TimelineEntryKind::Assistant { text, .. } => seq![SessionEvent::AssistantDelta { text }],
        TimelineEntryKind::Thought { text, .. } => seq![SessionEvent::ThoughtDelta { text }],
        TimelineEntryKind::System { .. } => seq![],
        TimelineEntryKind::Tool { tool_call_id, name, title, status, output, .. } => seq![
            SessionEvent::ToolCallStarted { id: tool_call_id, name, title, input_summary: None },
            match output {
                Some(output) => SessionEvent::ToolCallFinished {
                    id: tool_call_id,
                    status,
                    output,
                },
                None => SessionEvent::ToolCallUpdated { id: tool_call_id, status },
            },
        ],
        TimelineEntryKind::Outcome { outcome } => seq![SessionEvent::AssistantDone { outcome }],
    }
}

/// The events that a timeline stands for, in order.
pub open spec fn timeline_events(entries: Seq<TimelineEntry>) -> Seq<SessionEvent>
    decreases entries.len(),
{
    if entries.len() == 0 {
        seq![]
    } else {
        timeline_events(entries.drop_last()) + entry_events(entries.last().entry)
    }
}

/// The events that pending approvals stand for, in order.
pub open spec fn approval_events(requests: Seq<ApprovalRequest>) -> Seq<SessionEvent> {
    requests.map_values(|request: ApprovalRequest| SessionEvent::ApprovalRequested { request })
}

pub open spec fn usage_events(usage: Option<ContextUsage>) -> Seq<SessionEvent> {
    match usage {
        Some(usage) => seq![SessionEvent::ContextUsageChanged { usage }],
        None => seq![],
    }
}

/// Everything that a restored session shows, as events.
pub open spec fn restoring_events(snapshot: SessionTimelineSnapshot) -> Seq<SessionEvent> {
    timeline_events(snapshot.timeline@) + approval_events(snapshot.pending_approvals@)
        + usage_events(snapshot.context_usage) + seq![
        SessionEvent::RuntimeOptionsChanged { options: snapshot.runtime_options },
        SessionEvent::TurnStatusChanged { status: snapshot.turn_status },
    ]
}

/// The state after events that share one number.
pub open spec fn all_applied(state: StateModel, seq: u64, events: Seq<SessionEvent>) -> StateModel
    decreases events.len(),
{
    if events.len() == 0 {
        state
    } else {
        all_applied(state, seq, events.drop_last()).applied(seq, events.last())
    }
}

proof fn lemma_applied_in_turn(
    state: StateModel,
    seq: u64,
    first: Seq<SessionEvent>,
    then: Seq<SessionEvent>,
)
    ensures
        all_applied(state, seq, first + then) == all_applied(
            all_applied(state, seq, first),
            seq,
            then,
        ),
    decreases then.len(),
{
    if then.len() == 0 {
        assert(first + then =~= first);
    } else {
        assert((first + then).drop_last() =~= first + then.drop_last());
        lemma_applied_in_turn(state, seq, first, then.drop_last());
    }
}

/// The state of a session in which nothing has happened.
pub open spec fn untouched(session_id: Seq<char>, max_entries: nat) -> StateModel {
    StateModel {
        shown: SnapshotModel {
            session_id,
            seq: 0,
            turn_status: TurnStatus::Idle,
            transcript: Seq::empty(),
            tool_calls: Seq::empty(),
            pending_approvals: Seq::empty(),
            runtime_options: Seq::empty(),
            context_usage: None,
            history_truncated: false,
        },
        max_entries,
        next_transcript_id: 1,
    }
}

impl SnapshotState {
    fn apply_under(&mut self, seq: u64, event: SessionEvent)
        ensures
            final(self).model() == all_applied(old(self).model(), seq, seq![event]),
    {
        proof {
            reveal_with_fuel(all_applied, 2);
            assert(seq![event].drop_last() =~= Seq::<SessionEvent>::empty());
        }
        self.apply(seq, event);
    }

    fn take_entry(&mut self, seq: u64, entry: &TimelineEntryKind)
        ensures
            final(self).model() == all_applied(old(self).model(), seq, entry_events(*entry)),
    {
        match entry {
            TimelineEntryKind::User { text, .. } => {
                self.apply_under(
                    seq,
                    SessionEvent::UserMessage { text: text.clone(), request_id: None },
                );
            },
            TimelineEntryKind::Assistant { text, .. } => {
                self.apply_under(seq, SessionEvent::AssistantDelta { text: text.clone() });
            },
            TimelineEntryKind::Thought { text, .. } => {
                self.apply_under(seq, SessionEvent::ThoughtDelta { text: text.clone() });
            },
            TimelineEntryKind::System { .. } => {},
            TimelineEntryKind::Tool { tool_call_id, name, title, status, output, .. } => {
                let started = SessionEvent::ToolCallStarted {
                    id: tool_call_id.clone(),
                    name: name.clone(),
                    title: title.clone(),
                    input_summary: None,
                };
                let settled = match copy_text(output) {
                    Some(output) => SessionEvent::ToolCallFinished {
                        id: tool_call_id.clone(),
                        status: *status,
                        output,
                    },
                    None => SessionEvent::ToolCallUpdated {
                        id: tool_call_id.clone(),
                        status: *status,
                    },
                };
                proof {
                    lemma_applied_in_turn(self.model(), seq, seq![started], seq![settled]);
                    assert(entry_events(*entry) =~= seq![started] + seq![settled]);
                }
                self.apply_under(seq, started);
                self.apply_under(seq, settled);
            },
            TimelineEntryKind::Outcome { outcome } => {
                self.apply_under(seq, SessionEvent::AssistantDone { outcome: outcome.clone() });
            },
        }
    }

    /// The state of a session that starts from a restored history. What the
    /// history had lost before stays marked.
    pub fn restored(snapshot: SessionTimelineSnapshot, max_entries: usize) -> (state: Self)
        ensures
            ({
                let max: nat = if max_entries == 0 {
                    1
                } else {
                    max_entries as nat
                };
                let shown = all_applied(
                    untouched(snapshot.session_id@, max),
                    snapshot.seq,
                    restoring_events(snapshot),
                );
                state.model() == (StateModel {
                    shown: SnapshotModel {
                        history_truncated: shown.shown.history_truncated
                            || snapshot.history_window.truncated_before > 0,
                        ..shown.shown
                    },
                    ..shown
                })
            }),
    {
        let ghost whole = snapshot;
        let max: usize = if max_entries == 0 {
            1
        } else {
            max_entries
        };
        let seq: u64 = snapshot.seq;
        let mut state = SnapshotState::new(snapshot.session_id, max);
        let ghost start = state.model();
        let timeline = snapshot.timeline;
        let mut i: usize = 0;
        assert(timeline@.take(0) =~= Seq::<TimelineEntry>::empty());
        while i < timeline.len()
            invariant
                i <= timeline@.len(),
                state.model() == all_applied(start, seq, timeline_events(timeline@.take(i as int))),
            decreases timeline@.len() - i,
        {
            proof {
                let taken = timeline@.take(i + 1);
                assert(taken.drop_last() =~= timeline@.take(i as int));
                lemma_applied_in_turn(
                    start,
                    seq,
                    timeline_events(timeline@.take(i as int)),
                    entry_events(timeline@[i as int].entry),
                );
            }
            state.take_entry(seq, &timeline[i].entry);
            i = i + 1;
        }
        assert(timeline@.take(timeline@.len() as int) =~= timeline@);
        let ghost told = timeline_events(timeline@);
        let approvals = snapshot.pending_approvals;
        let mut k: usize = 0;
        assert(told + approval_events(approvals@.take(0)) =~= told);
        while k < approvals.len()
            invariant
                k <= approvals@.len(),
                state.model() == all_applied(
                    start,
                    seq,
                    told + approval_events(approvals@.take(k as int)),
                ),
            decreases approvals@.len() - k,
        {
            let event = SessionEvent::ApprovalRequested { request: approvals[k].clone() };
            proof {
                let before = told + approval_events(approvals@.take(k as int));
                assert(told + approval_events(approvals@.take(k + 1)) =~= before + seq![event]);
                lemma_applied_in_turn(start, seq, before, seq![event]);
            }
            state.apply_under(seq, event);
            k = k + 1;
        }
        assert(approvals@.take(approvals@.len() as int) =~= approvals@);
        let ghost told = told + approval_events(approvals@);
        if let Some(usage) = snapshot.context_usage {
            let event = SessionEvent::ContextUsageChanged { usage };
            proof {
                lemma_applied_in_turn(start, seq, told, seq![event]);
            }
            state.apply_under(seq, event);
        } else {
            assert(told + usage_events(whole.context_usage) =~= told);
        }
        let ghost told = told + usage_events(whole.context_usage);
        let options = SessionEvent::RuntimeOptionsChanged { options: snapshot.runtime_options };
        let status = SessionEvent::TurnStatusChanged { status: snapshot.turn_status };
        proof {
            lemma_applied_in_turn(start, seq, told, seq![options]);
            lemma_applied_in_turn(start, seq, told + seq![options], seq![status]);
            assert(restoring_events(whole) =~= told + seq![options] + seq![status]);
        }
        state.apply_under(seq, options);
        state.apply_under(seq, status);
        if snapshot.history_window.truncated_before > 0 {
            state.snapshot.history_truncated = true;
        }
        state
    }
}

} // verus!
