//! What each event does to the entries of a timeline and to the active tools.
use vstd::prelude::*;
use crate::keyed::{ends_otherwise, grown_within, lemma_filter_picks, picked_from};
use crate::session_protocol::{ActiveToolState, HistoryWindow, SessionEvent, ToolCallStateStatus};
use crate::session_timeline::course::{
    is_active, lemma_cancelled_keeps_ids, lemma_cancelled_pointwise, lemma_inactive_status,
    lemma_occurrence_pointwise, lemma_statuses_keep_ids, shows_tool, ReducerStep,
};
use crate::session_timeline::{
    is_call, is_open_tool, is_tool_occurrence, last_where, lemma_last_where_found,
    lemma_last_where_holds, lemma_with_active_status_prefix, with_active_status,
    with_active_statuses, with_occurrence, EntryContent, EntryModel, TimelineModel,
};

verus! {

broadcast use vstd::string::group_string_axioms;

/// What is said, done and started is shown as an entry of its own under the next
/// id: a message with its text, an outcome, a system line, a tool with its names.
pub proof fn law_new_entry_shows_what_happened(
    state: TimelineModel,
    event: SessionEvent,
    line: Seq<char>,
)
    requires
        state.well_formed(),
    ensures
        ({
            let id = state.next_id;
            let before = state.timeline;
            let after = state.applied(event).timeline;
            let max = state.max_entries;
            &&& event matches SessionEvent::UserMessage { text, .. } ==> grown_within(
                before,
                after,
                max,
                EntryModel {
                    id,
                    order: id,
                    content: EntryContent::User { text: text@, truncated: false },
                },
            )
            &&& event matches SessionEvent::AssistantDone { outcome } ==> grown_within(
                before,
                after,
                max,
                EntryModel { id, order: id, content: EntryContent::Outcome { outcome } },
            )
            &&& event matches SessionEvent::ToolCallStarted { id: call, name, title, .. }
                ==> grown_within(
                before,
                after,
                max,
                EntryModel {
                    id,
                    order: id,
                    content: EntryContent::Tool {
                        tool_call_id: call@,
                        name: name@,
                        title: title@,
                        status: ToolCallStateStatus::Pending,
                        output: None,
                        truncated: false,
                    },
                },
            ) && state.applied(event).active == state.active.push(
                ActiveToolState {
                    occurrence_id: id,
                    tool_call_id: call,
                    name,
                    title,
                    status: ToolCallStateStatus::Pending,
                    content_truncated: false,
                },
            )
            &&& grown_within(
                before,
                state.after(ReducerStep::PushSystem(line)).timeline,
                max,
                EntryModel {
                    id,
                    order: id,
                    content: EntryContent::System { text: line, truncated: false },
                },
            )
        }),
{
}

/// Streamed text goes behind the text of its kind where that is open, and is an
/// entry of its own where it is not.
pub proof fn law_streamed_text_is_shown(state: TimelineModel, text: String)
    requires
        state.well_formed(),
    ensures
        ({
            let id = state.next_id;
            let before = state.timeline;
            let last = before.last();
            let open = before.len() > 0 && state.open == Some(last.id);
            let answer = state.applied(SessionEvent::AssistantDelta { text }).timeline;
            let thought = state.applied(SessionEvent::ThoughtDelta { text }).timeline;
            &&& match last.content {
                EntryContent::Assistant { text: earlier, truncated } if open => ends_otherwise(
                    before,
                    answer,
                    EntryModel {
                        content: EntryContent::Assistant { text: earlier + text@, truncated },
                        ..last
                    },
                ),
                _ => grown_within(
                    before,
                    answer,
                    state.max_entries,
                    EntryModel {
                        id,
                        order: id,
                        content: EntryContent::Assistant { text: text@, truncated: false },
                    },
                ),
            }
            &&& match last.content {
                EntryContent::Thought { text: earlier, truncated } if open => ends_otherwise(
                    before,
                    thought,
                    EntryModel {
                        content: EntryContent::Thought { text: earlier + text@, truncated },
                        ..last
                    },
                ),
                _ => grown_within(
                    before,
                    thought,
                    state.max_entries,
                    EntryModel {
                        id,
                        order: id,
                        content: EntryContent::Thought { text: text@, truncated: false },
                    },
                ),
            }
        }),
{
}

/// Whether a call with the status is over.
pub open spec fn is_over(status: ToolCallStateStatus) -> bool {
    status is Completed || status is Failed || status is Cancelled
}

/// Whether an entry is the newest unfinished call with an id.
pub open spec fn newest_open(timeline: Seq<EntryModel>, id: Seq<char>, at: int) -> bool {
    &&& 0 <= at < timeline.len()
    &&& timeline[at].content matches EntryContent::Tool { tool_call_id, status, .. }
        && tool_call_id == id && !is_over(status)
    &&& forall|j: int|
        at < j < timeline.len() ==> !((#[trigger] timeline[j]).content matches EntryContent::Tool {
            tool_call_id,
            status,
            ..
        } && tool_call_id == id && !is_over(status))
}

/// The entry of a tool with a status, and with an output where there is one.
pub open spec fn told_status(
    entry: EntryModel,
    status: ToolCallStateStatus,
    output: Option<Seq<char>>,
) -> EntryModel {
    match entry.content {
        EntryContent::Tool { tool_call_id, name, title, status: _, output: said, truncated } =>
            EntryModel {
            content: EntryContent::Tool {
                tool_call_id,
                name,
                title,
                status,
                output: match output {
                    Some(output) => Some(output),
                    None => said,
                },
                truncated,
            },
            ..entry
        },
        _ => entry,
    }
}

/// The status of a tool, and the output of a finished one, reach the newest
/// unfinished call with that id and no other entry. Among the active tools it
/// reaches that call alone too: a finished one is active no more, another shows
/// its status, and the rest stay as they are, in their order.
pub proof fn law_tool_status_reaches_its_call(
    state: TimelineModel,
    id: String,
    status: ToolCallStateStatus,
    output: String,
    at: int,
) -> (places: Seq<int>)
    requires
        state.sound(),
        newest_open(state.timeline, id@, at),
    ensures
        ({
            let before = state.timeline;
            let updated = state.applied(SessionEvent::ToolCallUpdated { id, status });
            let finished = state.applied(SessionEvent::ToolCallFinished { id, status, output });
            &&& updated.timeline.len() == before.len()
            &&& finished.timeline.len() == before.len()
            &&& forall|i: int|
                0 <= i < before.len() ==> #[trigger] updated.timeline[i] == if i == at {
                    told_status(before[i], status, None)
                } else {
                    before[i]
                }
            &&& forall|i: int|
                0 <= i < before.len() ==> #[trigger] finished.timeline[i] == if i == at {
                    told_status(before[i], status, Some(output@))
                } else {
                    before[i]
                }
            &&& updated.active == finished.active
            &&& if is_over(status) {
                &&& picked_from(finished.active, state.active, places)
                &&& forall|i: int|
                    0 <= i < state.active.len() ==> (#[trigger] places.contains(i)
                        <==> state.active[i].occurrence_id != before[at].id)
            } else {
                &&& finished.active.len() == state.active.len()
                &&& forall|i: int|
                    0 <= i < state.active.len() ==> #[trigger] finished.active[i]
                        == if state.active[i].occurrence_id == before[at].id {
                        ActiveToolState { status, ..state.active[i] }
                    } else {
                        state.active[i]
                    }
            }
        }),
{
    let before = state.timeline;
    let open = |entry: EntryModel| is_open_tool(entry, id@);
    assert(open(before[at]));
    assert forall|j: int| at < j < before.len() implies !open(#[trigger] before[j]) by {}
    lemma_last_where_found(before, open, at);
    let occurrence_id = before[at].id;
    assert(state.occurrence_of(id@) == Some(occurrence_id));
    lemma_occurrence_pointwise(before, occurrence_id, status, None);
    lemma_occurrence_pointwise(before, occurrence_id, status, Some(output@));
    assert forall|i: int| 0 <= i < before.len() && i != at implies (#[trigger] before[i]).id
        != occurrence_id by {
        if i < at {
            assert(before[i].id < before[at].id);
        } else {
            assert(before[at].id < before[i].id);
        }
    }
    let keep = |tool: ActiveToolState| tool.occurrence_id != occurrence_id;
    let places = lemma_filter_picks(state.active, keep);
    assert forall|i: int| 0 <= i < state.active.len() implies (#[trigger] places.contains(i)
        <==> state.active[i].occurrence_id != occurrence_id) by {
        assert(keep(state.active[i]) <==> state.active[i].occurrence_id != occurrence_id);
    }
    lemma_active_status(state.active, occurrence_id, status);
    places
}

proof fn lemma_active_status(
    active: Seq<ActiveToolState>,
    occurrence_id: u64,
    status: ToolCallStateStatus,
)
    requires
        forall|i: int, j: int|
            0 <= i < j < active.len() ==> (#[trigger] active[i]).occurrence_id < (
            #[trigger] active[j]).occurrence_id,
    ensures
        with_active_status(active, occurrence_id, status).len() == active.len(),
        forall|i: int|
            0 <= i < active.len() ==> #[trigger] with_active_status(active, occurrence_id, status)[i]
                == if active[i].occurrence_id == occurrence_id {
                ActiveToolState { status, ..active[i] }
            } else {
                active[i]
            },
{
    if is_active(active, occurrence_id) {
        let place = choose|j: int|
            0 <= j < active.len() && (#[trigger] active[j]).occurrence_id == occurrence_id;
        assert forall|j: int| 0 <= j < place implies (#[trigger] active[j]).occurrence_id
            != occurrence_id by {
            assert(active[j].occurrence_id < active[place].occurrence_id);
        }
        lemma_with_active_status_prefix(active, place, occurrence_id, status);
        assert forall|i: int| place < i < active.len() implies (#[trigger] active[i]).occurrence_id
            != occurrence_id by {
            assert(active[place].occurrence_id < active[i].occurrence_id);
        }
    } else {
        lemma_inactive_status(active, occurrence_id, status);
        assert forall|i: int| 0 <= i < active.len() implies (#[trigger] active[i]).occurrence_id
            != occurrence_id by {}
    }
}

/// The status of a call that no retained entry shows as unfinished changes no
/// entry. It reaches the newest active tool with that id; where none has it,
/// nothing changes at all.
pub proof fn law_status_of_a_dropped_call(
    state: TimelineModel,
    id: String,
    status: ToolCallStateStatus,
    output: String,
)
    requires
        state.sound(),
        forall|at: int| !#[trigger] newest_open(state.timeline, id@, at),
    ensures
        ({
            let after = state.applied(SessionEvent::ToolCallFinished { id, status, output });
            let known = exists|i: int|
                0 <= i < state.active.len() && (#[trigger] state.active[i]).tool_call_id@ == id@;
            &&& after.timeline == state.timeline
            &&& after.window == state.window
            &&& !known ==> after == state
            &&& known && status is Completed ==> after.active.len() == state.active.len() - 1
        }),
{
    let before = state.timeline;
    let open = |entry: EntryModel| is_open_tool(entry, id@);
    let named = |tool: ActiveToolState| is_call(tool, id@);
    lemma_last_where_holds(before, open);
    lemma_last_where_holds(state.active, named);
    let after = state.applied(SessionEvent::ToolCallFinished { id, status, output });
    if let Some(at) = last_where(before, open) {
        assert(open(before[at]));
        assert forall|j: int| at < j < before.len() implies !is_open_tool(
            #[trigger] before[j],
            id@,
        ) by {
            assert(!open(before[j]));
        }
        assert(newest_open(before, id@, at));
    }
    match last_where(state.active, named) {
        Some(at) => {
            let tool = state.active[at];
            assert(named(tool));
            lemma_occurrence_pointwise(before, tool.occurrence_id, status, Some(output@));
            assert forall|i: int| 0 <= i < before.len() implies !is_tool_occurrence(
                #[trigger] before[i],
                tool.occurrence_id,
            ) by {
                if is_tool_occurrence(before[i], tool.occurrence_id) {
                    assert(shows_tool(before[i], state.active[at]));
                    assert(!state.active[at].status.terminal());
                    assert(!open(before[i]));
                }
            }
            assert(after.timeline =~= before);
            if status is Completed {
                lemma_filter_one(state.active, tool.occurrence_id, at);
            }
        },
        None => {
            if exists|i: int|
                0 <= i < state.active.len() && (#[trigger] state.active[i]).tool_call_id@ == id@ {
                let i = choose|i: int|
                    0 <= i < state.active.len() && (#[trigger] state.active[i]).tool_call_id@
                        == id@;
                assert(named(state.active[i]));
            }
        },
    }
}

proof fn lemma_filter_one(active: Seq<ActiveToolState>, occurrence_id: u64, at: int)
    requires
        0 <= at < active.len(),
        active[at].occurrence_id == occurrence_id,
        forall|i: int, j: int|
            0 <= i < j < active.len() ==> (#[trigger] active[i]).occurrence_id < (
            #[trigger] active[j]).occurrence_id,
    ensures
        active.filter(|tool: ActiveToolState| tool.occurrence_id != occurrence_id).len()
            == active.len() - 1,
    decreases active.len(),
{
    reveal(Seq::filter);
    let keep = |tool: ActiveToolState| tool.occurrence_id != occurrence_id;
    let rest = active.drop_last();
    if at == active.len() - 1 {
        assert forall|i: int| 0 <= i < rest.len() implies keep(#[trigger] rest[i]) by {
            assert(active[i].occurrence_id < active[at].occurrence_id);
        }
        lemma_filter_all(rest, keep);
    } else {
        lemma_filter_one(rest, occurrence_id, at);
        assert(active[at].occurrence_id < active[active.len() - 1].occurrence_id);
    }
}

proof fn lemma_filter_all<T>(s: Seq<T>, keep: spec_fn(T) -> bool)
    requires
        forall|i: int| 0 <= i < s.len() ==> keep(#[trigger] s[i]),
    ensures
        s.filter(keep) == s,
    decreases s.len(),
{
    reveal(Seq::filter);
    if s.len() > 0 {
        assert forall|i: int| 0 <= i < s.drop_last().len() implies keep(
            #[trigger] s.drop_last()[i],
        ) by {
            assert(s.drop_last()[i] == s[i]);
        }
        lemma_filter_all(s.drop_last(), keep);
        assert(s.drop_last().push(s.last()) =~= s);
        assert(keep(s[s.len() - 1]));
    } else {
        assert(s.filter(keep) =~= s);
    }
}

/// Cancelling reaches the entries of the active tools and no others, keeps what
/// they said, and leaves none active.
pub proof fn law_cancelling_reaches_the_active_tools(state: TimelineModel)
    requires
        state.sound(),
    ensures
        ({
            let before = state.timeline;
            let after = state.after(ReducerStep::CancelActive);
            &&& after.active.len() == 0
            &&& after.timeline.len() == before.len()
            &&& forall|i: int|
                0 <= i < before.len() ==> #[trigger] after.timeline[i] == if exists|j: int|
                    0 <= j < state.active.len() && (#[trigger] state.active[j]).occurrence_id
                        == before[i].id {
                    told_status(before[i], ToolCallStateStatus::Cancelled, None)
                } else {
                    before[i]
                }
        }),
{
    lemma_cancelled_keeps_ids(state.timeline, state.active);
    lemma_cancelled_pointwise(state.timeline, state.active);
    let before = state.timeline;
    let after = state.after(ReducerStep::CancelActive);
    assert forall|i: int| 0 <= i < before.len() implies #[trigger] after.timeline[i]
        == if exists|j: int|
        0 <= j < state.active.len() && (#[trigger] state.active[j]).occurrence_id
            == before[i].id {
        told_status(before[i], ToolCallStateStatus::Cancelled, None)
    } else {
        before[i]
    } by {
        if is_active(state.active, before[i].id) {
            let j = choose|j: int|
                0 <= j < state.active.len() && (#[trigger] state.active[j]).occurrence_id
                    == before[i].id;
            assert(shows_tool(before[i], state.active[j]));
        }
    }
}

/// What tells of neither text, tools nor turns leaves the timeline as it is, and
/// a cleared conversation leaves nothing of it.
pub proof fn law_other_events_show_nothing(state: TimelineModel, event: SessionEvent)
    ensures
        event is ApprovalRequested || event is ApprovalResolved || event is ApprovalDeadlineChanged
            || event is RuntimeOptionsChanged || event is ContextUsageChanged
            || event is TurnStatusChanged || event is SessionEnding ==> state.applied(event)
            == state,
        event is ConversationCleared ==> state.applied(event).timeline.len() == 0
            && state.applied(event).active.len() == 0
            && state.applied(event).window.truncated_before == 0
            && state.applied(event).window.retained == 0
            && state.applied(event).window.total == Some(0u64)
            && state.applied(event).next_id == state.next_id,
{
}

/// Recorded parts are shown as they were recorded: the newest entries that the
/// bound allows, each as it was, but for the status of a tool that is recorded as
/// active, which is the recorded one.
pub proof fn law_recorded_parts_are_shown(
    timeline: Seq<EntryModel>,
    active: Seq<ActiveToolState>,
    window: HistoryWindow,
    max_entries: usize,
)
    requires
        forall|i: int, j: int|
            0 <= i < j < timeline.len() ==> (#[trigger] timeline[i]).id < (
            #[trigger] timeline[j]).id,
        forall|i: int, j: int|
            0 <= i < j < active.len() ==> (#[trigger] active[i]).occurrence_id != (
            #[trigger] active[j]).occurrence_id,
    ensures
        ({
            let again = TimelineModel::resumed(timeline, active, window, max_entries);
            let retained: int = if max_entries == 0 {
                1
            } else {
                max_entries as int
            };
            let dropped: int = if timeline.len() <= retained {
                0
            } else {
                timeline.len() - retained
            };
            &&& again.active == active
            &&& again.timeline.len() == timeline.len() - dropped
            &&& window.truncated_before + dropped <= u64::MAX ==> again.window.truncated_before
                == window.truncated_before + dropped
            &&& forall|i: int|
                0 <= i < again.timeline.len() && !(exists|j: int|
                    0 <= j < active.len() && (#[trigger] active[j]).occurrence_id == timeline[i
                        + dropped].id) ==> #[trigger] again.timeline[i] == timeline[i + dropped]
            &&& forall|i: int, j: int|
                0 <= i < again.timeline.len() && 0 <= j < active.len() && (
                #[trigger] active[j]).occurrence_id == timeline[i + dropped].id
                    ==> #[trigger] again.timeline[i] == told_status(
                    timeline[i + dropped],
                    active[j].status,
                    None,
                )
        }),
{
    lemma_statuses(timeline, active);
    lemma_statuses_keep_ids(timeline, active);
}

proof fn lemma_statuses(timeline: Seq<EntryModel>, active: Seq<ActiveToolState>)
    requires
        forall|i: int, j: int|
            0 <= i < j < timeline.len() ==> (#[trigger] timeline[i]).id < (
            #[trigger] timeline[j]).id,
        forall|i: int, j: int|
            0 <= i < j < active.len() ==> (#[trigger] active[i]).occurrence_id != (
            #[trigger] active[j]).occurrence_id,
    ensures
        ({
            let after = with_active_statuses(timeline, active);
            &&& after.len() == timeline.len()
            &&& forall|i: int|
                0 <= i < timeline.len() && !(exists|j: int|
                    0 <= j < active.len() && (#[trigger] active[j]).occurrence_id
                        == timeline[i].id) ==> #[trigger] after[i] == timeline[i]
            &&& forall|i: int, j: int|
                0 <= i < timeline.len() && 0 <= j < active.len() && (
                #[trigger] active[j]).occurrence_id == timeline[i].id ==> #[trigger] after[i]
                    == told_status(timeline[i], active[j].status, None)
        }),
    decreases active.len(),
{
    if active.len() > 0 {
        let rest = active.drop_last();
        let last = active.last();
        let before = with_active_statuses(timeline, rest);
        let after = with_active_statuses(timeline, active);
        assert forall|i: int, j: int| 0 <= i < j < rest.len() implies (
        #[trigger] rest[i]).occurrence_id != (#[trigger] rest[j]).occurrence_id by {
            assert(active[i].occurrence_id != active[j].occurrence_id);
        }
        lemma_statuses(timeline, rest);
        lemma_statuses_keep_ids(timeline, rest);
        assert forall|i: int, j: int| 0 <= i < j < before.len() implies (
        #[trigger] before[i]).id < (#[trigger] before[j]).id by {
            assert(before[i].id == timeline[i].id && before[j].id == timeline[j].id);
            assert(timeline[i].id < timeline[j].id);
        }
        lemma_occurrence_pointwise(before, last.occurrence_id, last.status, None);
        assert(after == with_occurrence(before, last.occurrence_id, last.status, None));
        assert forall|i: int|
            0 <= i < timeline.len() && !(exists|j: int|
                0 <= j < active.len() && (#[trigger] active[j]).occurrence_id
                    == timeline[i].id) implies #[trigger] after[i] == timeline[i] by {
            assert(before[i].id == timeline[i].id);
            assert(active[active.len() - 1].occurrence_id != timeline[i].id);
            if exists|j: int|
                0 <= j < rest.len() && (#[trigger] rest[j]).occurrence_id == timeline[i].id {
                let j = choose|j: int|
                    0 <= j < rest.len() && (#[trigger] rest[j]).occurrence_id == timeline[i].id;
                assert(active[j].occurrence_id == timeline[i].id);
            }
        }
        assert forall|i: int, j: int|
            0 <= i < timeline.len() && 0 <= j < active.len() && (
            #[trigger] active[j]).occurrence_id == timeline[i].id implies #[trigger] after[i]
            == told_status(timeline[i], active[j].status, None) by {
            assert(before[i].id == timeline[i].id);
            if j < rest.len() {
                assert(rest[j].occurrence_id == timeline[i].id);
                assert(active[j].occurrence_id != active[active.len() - 1].occurrence_id);
                assert(before[i] == told_status(timeline[i], rest[j].status, None));
            } else if exists|k: int|
                0 <= k < rest.len() && (#[trigger] rest[k]).occurrence_id == timeline[i].id {
                let k = choose|k: int|
                    0 <= k < rest.len() && (#[trigger] rest[k]).occurrence_id == timeline[i].id;
                assert(active[k].occurrence_id != active[j].occurrence_id);
            } else {
                assert(before[i] == timeline[i]);
            }
        }
    }
}

} // verus!
