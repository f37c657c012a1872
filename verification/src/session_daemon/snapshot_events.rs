//! What each event does to what a snapshot shows, list by list.
use vstd::prelude::*;
use crate::keyed::{ends_otherwise, grown_within, lemma_filter_picks, picked_from};
use crate::session_daemon::snapshot_course::{approvals_distinct, calls_distinct};
use crate::session_daemon::snapshot_state::{
    approval_named, approval_other, call_named, first_at, first_where, lemma_first_where, EntryView,
    StateModel,
};
use crate::session_protocol::{
    ApprovalRequest, SessionEvent, ToolCallState, ToolCallStateStatus, TranscriptRole,
};

verus! {

broadcast use vstd::string::group_string_axioms;

/// An answered approval is shown no more, and every other one still is: what
/// stays pending is exactly what has another id, unchanged and in its order.
pub proof fn law_answered_approval_alone_goes(
    state: StateModel,
    seq: u64,
    event: SessionEvent,
) -> (places: Seq<int>)
    requires
        event is ApprovalResolved,
    ensures
        ({
            let before = state.shown.pending_approvals;
            let after = state.applied(seq, event).shown.pending_approvals;
            &&& picked_from(after, before, places)
            &&& forall|i: int|
                0 <= i < before.len() ==> (#[trigger] places.contains(i) <==> before[i].id@
                    != event->ApprovalResolved_approval_id@)
        }),
{
    let id = event->ApprovalResolved_approval_id@;
    let before = state.shown.pending_approvals;
    let places = lemma_filter_picks(before, approval_other(id));
    assert forall|i: int| 0 <= i < before.len() implies (#[trigger] places.contains(i)
        <==> before[i].id@ != id) by {
        assert(approval_other(id)(before[i]) <==> before[i].id@ != id);
    }
    places
}

/// A requested approval is shown behind the others, unless one with its id is
/// shown already.
pub proof fn law_requested_approval_is_shown(
    state: StateModel,
    seq: u64,
    request: ApprovalRequest,
)
    ensures
        ({
            let before = state.shown.pending_approvals;
            let after = state.applied(
                seq,
                SessionEvent::ApprovalRequested { request },
            ).shown.pending_approvals;
            if exists|i: int| 0 <= i < before.len() && (#[trigger] before[i]).id@ == request.id@ {
                after == before
            } else {
                after.len() == before.len() + 1 && after.last() == request && after.drop_last()
                    == before
            }
        }),
{
    let before = state.shown.pending_approvals;
    let named = approval_named(request.id@);
    if exists|i: int| 0 <= i < before.len() && (#[trigger] before[i]).id@ == request.id@ {
        let i = choose|i: int| 0 <= i < before.len() && (#[trigger] before[i]).id@ == request.id@;
        lemma_somewhere(before, named, i);
    } else {
        assert(first_where(before, named) is None) by {
            if exists|at: int| first_at(before, named, at) {
                let at = choose|at: int| first_at(before, named, at);
                assert(before[at].id@ == request.id@);
            }
        }
        assert(before.push(request).drop_last() =~= before);
    }
}

proof fn lemma_somewhere<T>(s: Seq<T>, p: spec_fn(T) -> bool, i: int) -> (at: int)
    requires
        0 <= i < s.len(),
        p(s[i]),
    ensures
        first_where(s, p) == Some(at),
        first_at(s, p, at),
    decreases i,
{
    if exists|j: int| 0 <= j < i && p(#[trigger] s[j]) {
        let j = choose|j: int| 0 <= j < i && p(#[trigger] s[j]);
        lemma_somewhere(s, p, j)
    } else {
        assert(first_at(s, p, i));
        lemma_first_where(s, p, i);
        i
    }
}

/// A changed deadline reaches the approval with its id and no other, and of that
/// one nothing but the deadline and its pause.
pub proof fn law_deadline_reaches_its_approval(state: StateModel, seq: u64, event: SessionEvent)
    requires
        event is ApprovalDeadlineChanged,
        approvals_distinct(state.shown.pending_approvals),
    ensures
        ({
            let before = state.shown.pending_approvals;
            let after = state.applied(seq, event).shown.pending_approvals;
            &&& after.len() == before.len()
            &&& forall|i: int|
                0 <= i < before.len() ==> #[trigger] after[i] == if before[i].id@
                    == event->ApprovalDeadlineChanged_approval_id@ {
                    ApprovalRequest {
                        ineligible_deadline_unix_ms: Some(
                            event->ApprovalDeadlineChanged_ineligible_deadline_unix_ms,
                        ),
                        deadline_paused: event->ApprovalDeadlineChanged_paused,
                        ..before[i]
                    }
                } else {
                    before[i]
                }
        }),
{
    let before = state.shown.pending_approvals;
    let after = state.applied(seq, event).shown.pending_approvals;
    let id = event->ApprovalDeadlineChanged_approval_id@;
    let named = approval_named(id);
    if let Some(at) = first_where(before, named) {
        assert(first_at(before, named, at));
        assert forall|i: int| 0 <= i < before.len() && i != at implies (
        #[trigger] before[i]).id@ != id by {
            if i < at {
                assert(before[i].id@ != before[at].id@);
            } else {
                assert(before[at].id@ != before[i].id@);
            }
        }
    } else {
        assert forall|i: int| 0 <= i < before.len() implies (#[trigger] before[i]).id@ != id by {
            if before[i].id@ == id {
                let found = lemma_somewhere(before, named, i);
            }
        }
    }
}

/// A started call is shown once, pending and without output: in the place of one
/// with its id, else behind the others.
pub proof fn law_started_call_is_shown(
    state: StateModel,
    seq: u64,
    id: String,
    name: String,
    title: String,
    input_summary: Option<String>,
)
    requires
        calls_distinct(state.shown.tool_calls),
        state.max_entries >= 1,
        state.bounded(),
    ensures
        ({
            let before = state.shown.tool_calls;
            let after = state.applied(
                seq,
                SessionEvent::ToolCallStarted { id, name, title, input_summary },
            ).shown.tool_calls;
            let call = ToolCallState {
                id,
                name,
                title,
                status: ToolCallStateStatus::Pending,
                output: None,
            };
            if exists|i: int| 0 <= i < before.len() && (#[trigger] before[i]).id@ == id@ {
                &&& after.len() == before.len()
                &&& forall|i: int|
                    0 <= i < before.len() ==> #[trigger] after[i] == if before[i].id@ == id@ {
                        call
                    } else {
                        before[i]
                    }
            } else {
                grown_within(before, after, state.max_entries, call)
            }
        }),
{
    let before = state.shown.tool_calls;
    let named = call_named(id@);
    if exists|i: int| 0 <= i < before.len() && (#[trigger] before[i]).id@ == id@ {
        let i = choose|i: int| 0 <= i < before.len() && (#[trigger] before[i]).id@ == id@;
        let at = lemma_somewhere(before, named, i);
        assert forall|i: int| 0 <= i < before.len() && i != at implies (
        #[trigger] before[i]).id@ != id@ by {
            if i < at {
                assert(before[i].id@ != before[at].id@);
            } else {
                assert(before[at].id@ != before[i].id@);
            }
        }
    } else {
        assert(first_where(before, named) is None) by {
            if exists|at: int| first_at(before, named, at) {
                let at = choose|at: int| first_at(before, named, at);
                assert(before[at].id@ == id@);
            }
        }
    }
}

/// The new status of a call, and the output of a finished one, are shown on the
/// call with that id and on no other; calls keep their names and places.
pub proof fn law_call_status_is_shown(
    state: StateModel,
    seq: u64,
    id: String,
    status: ToolCallStateStatus,
    output: String,
)
    requires
        calls_distinct(state.shown.tool_calls),
    ensures
        ({
            let before = state.shown.tool_calls;
            let updated = state.applied(
                seq,
                SessionEvent::ToolCallUpdated { id, status },
            ).shown.tool_calls;
            let finished = state.applied(
                seq,
                SessionEvent::ToolCallFinished { id, status, output },
            ).shown.tool_calls;
            &&& updated.len() == before.len()
            &&& finished.len() == before.len()
            &&& forall|i: int|
                0 <= i < before.len() ==> #[trigger] updated[i] == if before[i].id@ == id@ {
                    ToolCallState { status, ..before[i] }
                } else {
                    before[i]
                }
            &&& forall|i: int|
                0 <= i < before.len() ==> #[trigger] finished[i] == if before[i].id@ == id@ {
                    ToolCallState { status, output: Some(output), ..before[i] }
                } else {
                    before[i]
                }
        }),
{
    let before = state.shown.tool_calls;
    let named = call_named(id@);
    if let Some(at) = first_where(before, named) {
        assert(first_at(before, named, at));
        assert forall|i: int| 0 <= i < before.len() && i != at implies (
        #[trigger] before[i]).id@ != id@ by {
            if i < at {
                assert(before[i].id@ != before[at].id@);
            } else {
                assert(before[at].id@ != before[i].id@);
            }
        }
    } else {
        assert forall|i: int| 0 <= i < before.len() implies (#[trigger] before[i]).id@ != id@ by {
            if before[i].id@ == id@ {
                let found = lemma_somewhere(before, named, i);
            }
        }
    }
}

/// What is said is shown at the end of the transcript: a message as an entry of
/// its own under the next id, streamed text behind the text of its role where the
/// transcript ends in that, else as a new entry.
pub proof fn law_said_text_is_shown_last(
    state: StateModel,
    seq: u64,
    text: String,
    request_id: Option<String>,
)
    requires
        state.max_entries >= 1,
        state.bounded(),
    ensures
        ({
            let before = state.shown.transcript;
            let message = state.applied(
                seq,
                SessionEvent::UserMessage { text, request_id },
            ).shown.transcript;
            let answer = state.applied(
                seq,
                SessionEvent::AssistantDelta { text },
            ).shown.transcript;
            let thought = state.applied(seq, SessionEvent::ThoughtDelta { text }).shown.transcript;
            let id = state.next_transcript_id;
            let last = before.last();
            &&& grown_within(
                before,
                message,
                state.max_entries,
                EntryView { id, role: TranscriptRole::User, text: text@, outcome: None },
            )
            &&& if before.len() > 0 && last.role is Assistant {
                ends_otherwise(before, answer, EntryView { text: last.text + text@, ..last })
            } else {
                grown_within(
                    before,
                    answer,
                    state.max_entries,
                    EntryView { id, role: TranscriptRole::Assistant, text: text@, outcome: None },
                )
            }
            &&& if before.len() > 0 && last.role is Thought {
                ends_otherwise(before, thought, EntryView { text: last.text + text@, ..last })
            } else {
                grown_within(
                    before,
                    thought,
                    state.max_entries,
                    EntryView { id, role: TranscriptRole::Thought, text: text@, outcome: None },
                )
            }
        }),
{
}

/// The outcome of a turn is shown on the assistant entry that the transcript
/// ends in; where it ends in another, an empty one is made for it.
pub proof fn law_outcome_is_shown_last(state: StateModel, seq: u64, event: SessionEvent)
    requires
        event is AssistantDone,
        state.max_entries >= 1,
        state.bounded(),
    ensures
        ({
            let before = state.shown.transcript;
            let after = state.applied(seq, event).shown.transcript;
            let outcome = Some(event->AssistantDone_outcome);
            let last = before.last();
            if before.len() > 0 && last.role is Assistant {
                ends_otherwise(before, after, EntryView { outcome, ..last })
            } else {
                grown_within(
                    before,
                    after,
                    state.max_entries,
                    EntryView {
                        id: state.next_transcript_id,
                        role: TranscriptRole::Assistant,
                        text: seq![],
                        outcome,
                    },
                )
            }
        }),
{
}

/// Options, usage and turn status are shown as the latest event told them, of
/// the options the last ones that the bound allows.
pub proof fn law_latest_settings_are_shown(state: StateModel, seq: u64, event: SessionEvent)
    ensures
        ({
            let after = state.applied(seq, event).shown;
            &&& event matches SessionEvent::RuntimeOptionsChanged { options } ==> {
                let dropped: int = if options@.len() <= state.max_entries {
                    0
                } else {
                    options@.len() - state.max_entries
                };
                &&& after.runtime_options.len() == options@.len() - dropped
                &&& forall|i: int|
                    0 <= i < after.runtime_options.len() ==> #[trigger] after.runtime_options[i]
                        == options@[i + dropped]
            }
            &&& event matches SessionEvent::ContextUsageChanged { usage } ==> after.context_usage
                == Some(usage)
            &&& event matches SessionEvent::TurnStatusChanged { status } ==> after.turn_status
                == status
            &&& event is ConversationCleared ==> after.transcript.len() == 0
                && after.tool_calls.len() == 0 && after.pending_approvals.len() == 0
                && !after.history_truncated
        }),
{
}

/// An event changes what it tells of and nothing else, but for the sequence
/// number and what a cleared conversation takes with it.
pub proof fn law_event_changes_its_own_part(state: StateModel, seq: u64, event: SessionEvent)
    ensures
        ({
            let before = state.shown;
            let after = state.applied(seq, event).shown;
            let said = event is UserMessage || event is AssistantDelta || event is ThoughtDelta
                || event is AssistantDone;
            let called = event is ToolCallStarted || event is ToolCallUpdated
                || event is ToolCallFinished;
            let asked = event is ApprovalRequested || event is ApprovalResolved
                || event is ApprovalDeadlineChanged;
            let cleared = event is ConversationCleared;
            &&& after.session_id == before.session_id
            &&& after.seq == seq
            &&& !said && !cleared ==> after.transcript == before.transcript
                && state.applied(seq, event).next_transcript_id == state.next_transcript_id
            &&& !called && !cleared ==> after.tool_calls == before.tool_calls
            &&& !asked && !cleared ==> after.pending_approvals == before.pending_approvals
            &&& !(event is RuntimeOptionsChanged) ==> after.runtime_options
                == before.runtime_options
            &&& !(event is ContextUsageChanged) ==> after.context_usage == before.context_usage
            &&& !(event is TurnStatusChanged) ==> after.turn_status == before.turn_status
            &&& !said && !called && !cleared ==> after.history_truncated
                == before.history_truncated
        }),
{
}

} // verus!
