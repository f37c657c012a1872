//! What a snapshot shows of a session that was restored or taken over.
use vstd::prelude::*;

use crate::session_daemon::restoring::{
    all_applied, approval_events, entry_events, restoring_events, timeline_events, untouched,
    usage_events,
};
use crate::session_daemon::snapshot_events::law_event_changes_its_own_part;
use crate::session_daemon::snapshot_state::{
    approval_named, first_where, following_id, id_after, newest, StateModel,
};
use crate::session_protocol::{
    ApprovalRequest, SessionEvent, SessionTimelineSnapshot, TimelineEntry, TimelineEntryKind,
    TranscriptEntry, TurnStatus,
};

verus! {

broadcast use vstd::string::group_string_axioms;

/// A bounded list keeps its end: all of it where it fits, else as much as fits.
pub proof fn law_newest_entries_stay<T>(entries: Seq<T>, max_entries: nat)
    ensures
        entries.len() <= max_entries ==> newest(entries, max_entries) == entries,
        entries.len() > max_entries ==> newest(entries, max_entries).len() == max_entries,
        forall|i: int|
            0 <= i < newest(entries, max_entries).len() ==> #[trigger] newest(
                entries,
                max_entries,
            )[i] == entries[entries.len() - newest(entries, max_entries).len() + i],
{
}

/// The next transcript id is above every one in use, and the first where none
/// is; ids do not go past the largest there is.
pub proof fn law_next_id_is_above_all(entries: Seq<TranscriptEntry>, next: u64)
    requires
        id_after(entries, next),
    ensures
        entries.len() == 0 ==> next == 1,
        forall|i: int|
            0 <= i < entries.len() ==> (#[trigger] entries[i]).id < next || next == u64::MAX,
        entries.len() > 0 ==> exists|i: int|
            0 <= i < entries.len() && ((#[trigger] entries[i]).id + 1 == next || next == u64::MAX
                && entries[i].id == u64::MAX),
{
    if entries.len() > 0 {
        let at = choose|at: int|
            0 <= at < entries.len() && next == following_id(#[trigger] entries[at].id) && forall|
                i: int,
            |
                0 <= i < entries.len() ==> (#[trigger] entries[i]).id <= entries[at].id;
        assert(entries[at].id <= entries[at].id);
    }
}

/// Every entry of a restored timeline is told again as what it was: what was
/// said in its words, a call under its name with how it ended and what it gave,
/// a turn's outcome as it was. A system line is not told to clients.
pub proof fn law_entries_are_told_again(entry: TimelineEntryKind)
    ensures
        match entry {
            TimelineEntryKind::User { text, .. } => entry_events(entry).len() == 1 && (entry_events(
                entry,
            )[0] matches SessionEvent::UserMessage { text: told, .. } && told == text),
            TimelineEntryKind::Assistant { text, .. } => entry_events(entry).len() == 1 && (
            entry_events(entry)[0] matches SessionEvent::AssistantDelta { text: told } && told
                == text),
            TimelineEntryKind::Thought { text, .. } => entry_events(entry).len() == 1 && (
            entry_events(entry)[0] matches SessionEvent::ThoughtDelta { text: told } && told
                == text),
            TimelineEntryKind::System { .. } => entry_events(entry).len() == 0,
            TimelineEntryKind::Tool { tool_call_id, name, title, status, output, .. } => {
                let told = entry_events(entry);
                &&& told.len() == 2
                &&& told[0] matches SessionEvent::ToolCallStarted {
                    id,
                    name: called,
                    title: shown,
                    ..
                } && id == tool_call_id && called == name && shown == title
                &&& match output {
                    Some(output) => told[1] == (SessionEvent::ToolCallFinished {
                        id: tool_call_id,
                        status,
                        output,
                    }),
                    None => told[1] == (SessionEvent::ToolCallUpdated { id: tool_call_id, status }),
                }
            },
            TimelineEntryKind::Outcome { outcome } => entry_events(entry).len() == 1
                && entry_events(entry)[0] == (SessionEvent::AssistantDone { outcome }),
        },
{
}

/// A timeline is told entry for entry, in its order.
pub proof fn law_timeline_is_told_in_order(first: Seq<TimelineEntry>, then: Seq<TimelineEntry>)
    ensures
        timeline_events(first + then) == timeline_events(first) + timeline_events(then),
        first.len() == 1 ==> timeline_events(first) == entry_events(first[0].entry),
        first.len() == 0 ==> timeline_events(first).len() == 0,
    decreases then.len(),
{
    if first.len() == 1 {
        assert(first.drop_last() =~= seq![]);
        assert(timeline_events(first.drop_last()) =~= seq![]);
        assert(timeline_events(first) =~= entry_events(first[0].entry));
    }
    if then.len() == 0 {
        assert(first + then =~= first);
        assert(timeline_events(first) + timeline_events(then) =~= timeline_events(first));
    } else {
        assert((first + then).drop_last() =~= first + then.drop_last());
        assert((first + then).last() == then.last());
        law_timeline_is_told_in_order(first, then.drop_last());
        assert(timeline_events(first + then) =~= timeline_events(first) + timeline_events(then));
    }
}

/// Events are taken in one after the other.
pub proof fn law_events_are_taken_in_turn(
    state: StateModel,
    seq: u64,
    first: Seq<SessionEvent>,
    then: Seq<SessionEvent>,
)
    ensures
        all_applied(state, seq, first + then) == all_applied(
            all_applied(state, seq, first),
            seq,
            then,
        ),
        first.len() == 1 ==> all_applied(state, seq, first) == state.applied(seq, first[0]),
        first.len() == 0 ==> all_applied(state, seq, first) == state,
    decreases then.len(),
{
    if first.len() == 1 {
        assert(first.drop_last() =~= seq![]);
        assert(all_applied(state, seq, first.drop_last()) == state);
    }
    if then.len() == 0 {
        assert(first + then =~= first);
    } else {
        assert((first + then).drop_last() =~= first + then.drop_last());
        law_events_are_taken_in_turn(state, seq, first, then.drop_last());
    }
}

/// Whether an event belongs to the conversation.
spec fn is_story(event: SessionEvent) -> bool {
    ||| event is UserMessage
    ||| event is AssistantDelta
    ||| event is ThoughtDelta
    ||| event is AssistantDone
    ||| event is ToolCallStarted
    ||| event is ToolCallUpdated
    ||| event is ToolCallFinished
}

/// A restored session is shown with its id and number, in the state it was in:
/// with its approvals that still wait, its usage, its settings and its turn.
pub proof fn law_restored_session_shows_its_state(
    snapshot: SessionTimelineSnapshot,
    max_entries: nat,
)
    requires
        forall|i: int, j: int|
            0 <= i < j < snapshot.pending_approvals@.len() ==> (
            #[trigger] snapshot.pending_approvals@[i]).id@ != (
            #[trigger] snapshot.pending_approvals@[j]).id@,
    ensures
        ({
            let shown = all_applied(
                untouched(snapshot.session_id@, max_entries),
                snapshot.seq,
                restoring_events(snapshot),
            ).shown;
            &&& shown.session_id == snapshot.session_id@
            &&& shown.seq == snapshot.seq
            &&& shown.turn_status == snapshot.turn_status
            &&& shown.pending_approvals == snapshot.pending_approvals@
            &&& shown.context_usage == snapshot.context_usage
            &&& shown.runtime_options == newest(snapshot.runtime_options@, max_entries)
        }),
{
    let start = untouched(snapshot.session_id@, max_entries);
    let seq = snapshot.seq;
    let story = timeline_events(snapshot.timeline@);
    let asked = approval_events(snapshot.pending_approvals@);
    let used = usage_events(snapshot.context_usage);
    let set = seq![
        SessionEvent::RuntimeOptionsChanged { options: snapshot.runtime_options },
        SessionEvent::TurnStatusChanged { status: snapshot.turn_status },
    ];
    law_events_are_taken_in_turn(start, seq, story + asked + used, set);
    law_events_are_taken_in_turn(start, seq, story + asked, used);
    law_events_are_taken_in_turn(start, seq, story, asked);
    lemma_story(snapshot.timeline@);
    lemma_story_leaves_the_rest(start, seq, story);
    let told = all_applied(start, seq, story);
    lemma_approvals_are_shown(told, seq, snapshot.pending_approvals@);
    let waiting = all_applied(told, seq, asked);
    let measured = all_applied(waiting, seq, used);
    if used.len() == 1 {
        law_events_are_taken_in_turn(waiting, seq, used, seq![]);
        law_event_changes_its_own_part(waiting, seq, used[0]);
    }
    let first = seq![set[0]];
    let second = seq![set[1]];
    assert(set =~= first + second);
    law_events_are_taken_in_turn(measured, seq, first, second);
    let configured = measured.applied(seq, set[0]);
    law_events_are_taken_in_turn(configured, seq, second, seq![]);
    law_event_changes_its_own_part(measured, seq, set[0]);
    law_event_changes_its_own_part(configured, seq, set[1]);
}

proof fn lemma_story(timeline: Seq<TimelineEntry>)
    ensures
        forall|i: int|
            0 <= i < timeline_events(timeline).len() ==> is_story(
                #[trigger] timeline_events(timeline)[i],
            ),
    decreases timeline.len(),
{
    if timeline.len() > 0 {
        lemma_story(timeline.drop_last());
        let earlier = timeline_events(timeline.drop_last());
        let last = entry_events(timeline.last().entry);
        assert forall|i: int| 0 <= i < timeline_events(timeline).len() implies is_story(
            #[trigger] timeline_events(timeline)[i],
        ) by {
            if i < earlier.len() {
                assert((earlier + last)[i] == earlier[i]);
            } else {
                assert((earlier + last)[i] == last[i - earlier.len()]);
            }
        }
    }
}

proof fn lemma_story_leaves_the_rest(state: StateModel, seq: u64, events: Seq<SessionEvent>)
    requires
        forall|i: int| 0 <= i < events.len() ==> is_story(#[trigger] events[i]),
    ensures
        ({
            let after = all_applied(state, seq, events);
            &&& after.max_entries == state.max_entries
            &&& after.shown.session_id == state.shown.session_id
            &&& after.shown.pending_approvals == state.shown.pending_approvals
            &&& after.shown.context_usage == state.shown.context_usage
            &&& events.len() > 0 ==> after.shown.seq == seq
        }),
    decreases events.len(),
{
    if events.len() > 0 {
        let rest = events.drop_last();
        assert forall|i: int| 0 <= i < rest.len() implies is_story(#[trigger] rest[i]) by {
            assert(rest[i] == events[i]);
        }
        lemma_story_leaves_the_rest(state, seq, rest);
        assert(is_story(events[events.len() - 1]));
        law_event_changes_its_own_part(all_applied(state, seq, rest), seq, events.last());
    }
}

proof fn lemma_approvals_are_shown(state: StateModel, seq: u64, requests: Seq<ApprovalRequest>)
    requires
        state.shown.pending_approvals.len() == 0,
        forall|i: int, j: int|
            0 <= i < j < requests.len() ==> (#[trigger] requests[i]).id@ != (
            #[trigger] requests[j]).id@,
    ensures
        ({
            let after = all_applied(state, seq, approval_events(requests));
            &&& after.max_entries == state.max_entries
            &&& after.shown.session_id == state.shown.session_id
            &&& after.shown.pending_approvals == requests
            &&& after.shown.context_usage == state.shown.context_usage
        }),
    decreases requests.len(),
{
    let events = approval_events(requests);
    if requests.len() == 0 {
        assert(state.shown.pending_approvals =~= requests);
    } else {
        let rest = requests.drop_last();
        let next = requests.last();
        assert forall|i: int, j: int| 0 <= i < j < rest.len() implies (#[trigger] rest[i]).id@ != (
        #[trigger] rest[j]).id@ by {
            assert(rest[i] == requests[i] && rest[j] == requests[j]);
        }
        lemma_approvals_are_shown(state, seq, rest);
        assert(events.drop_last() =~= approval_events(rest));
        assert(events.last() == (SessionEvent::ApprovalRequested { request: next }));
        let before = all_applied(state, seq, approval_events(rest));
        law_event_changes_its_own_part(before, seq, events.last());
        assert forall|i: int| 0 <= i < rest.len() implies !approval_named(next.id@)(
            #[trigger] rest[i],
        ) by {
            assert(rest[i] == requests[i]);
            assert(requests[requests.len() - 1] == next);
        }
        assert(first_where(rest, approval_named(next.id@)) is None);
        assert(rest.push(next) =~= requests);
    }
}

/// A session that nothing happened in shows nothing, and numbers from the first.
pub proof fn law_untouched_session_shows_nothing(session_id: Seq<char>, max_entries: nat)
    ensures
        ({
            let state = untouched(session_id, max_entries);
            &&& state.shown.session_id == session_id
            &&& state.shown.seq == 0
            &&& state.shown.turn_status == TurnStatus::Idle
            &&& state.shown.transcript.len() == 0
            &&& state.shown.tool_calls.len() == 0
            &&& state.shown.pending_approvals.len() == 0
            &&& state.shown.runtime_options.len() == 0
            &&& state.shown.context_usage is None
            &&& !state.shown.history_truncated
            &&& state.max_entries == max_entries
            &&& state.next_transcript_id == 1
            &&& StateModel::fresh(session_id, max_entries) == state
        }),
{
}

} // verus!
