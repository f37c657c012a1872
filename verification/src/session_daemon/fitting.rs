//! What a client is shown of a snapshot that has to go into one frame.
use vstd::prelude::*;

use crate::keyed::{lemma_pick_next, picked_from};
use crate::session_daemon::frame_fit::{
    calls_settled, cut_down, cut_measured_over, cut_measured_within, entries_settled, fitted,
    measured_over, measured_within, stripped_call, stripped_calls, terminal_count,
    without_oldest_terminal, ListPage,
};
use crate::session_protocol::{
    ServerMessage, SessionSnapshot, ToolCallState, ToolCallStateStatus, TranscriptEntry,
};

verus! {

broadcast use vstd::string::group_string_axioms;

/// Whether a call is over: it ended well, failed or was cancelled.
pub open spec fn has_ended(call: ToolCallState) -> bool {
    match call.status {
        ToolCallStateStatus::Pending => false,
        ToolCallStateStatus::InProgress => false,
        ToolCallStateStatus::Completed => true,
        ToolCallStateStatus::Failed => true,
        ToolCallStateStatus::Cancelled => true,
    }
}

/// Whether a call is shown as it is but for its output, which an ended call
/// gave up.
pub open spec fn shown_without_output(call: ToolCallState, shown: ToolCallState) -> bool {
    &&& shown.id == call.id
    &&& shown.name == call.name
    &&& shown.title == call.title
    &&& shown.status == call.status
    &&& shown.output == if has_ended(call) {
        None
    } else {
        call.output
    }
}

/// Whether of the calls those at some places are shown: every call that goes on
/// is, and of those that ended the oldest are the ones that are not.
pub open spec fn newest_are_shown(
    calls: Seq<ToolCallState>,
    shown: Seq<ToolCallState>,
    places: Seq<int>,
) -> bool {
    &&& places.len() == shown.len()
    &&& forall|k: int| 0 <= k < places.len() ==> 0 <= #[trigger] places[k] < calls.len()
    &&& forall|k: int|
        0 <= k < places.len() ==> shown_without_output(calls[places[k]], #[trigger] shown[k])
    &&& forall|k: int, l: int|
        0 <= k < l < places.len() ==> #[trigger] places[k] < #[trigger] places[l]
    &&& forall|i: int|
        0 <= i < calls.len() && !has_ended(calls[i]) ==> #[trigger] places.contains(i)
    &&& forall|i: int, j: int|
        0 <= i < j < calls.len() && has_ended(calls[j]) && #[trigger] places.contains(i)
            && has_ended(calls[i]) ==> #[trigger] places.contains(j)
}

/// A snapshot that was cut down says so, and is otherwise the one that it was
/// cut from, with the end of its transcript, its calls that go on, and the newest
/// of those that ended without their output.
pub proof fn law_cut_snapshot_shows_the_newest(
    whole: SessionSnapshot,
    cut: SessionSnapshot,
    entries_dropped: int,
    calls_dropped: int,
) -> (places: Seq<int>)
    requires
        cut_down(whole, cut, entries_dropped, calls_dropped),
    ensures
        cut.history_truncated,
        cut.session_id == whole.session_id,
        cut.seq == whole.seq,
        cut.turn_status == whole.turn_status,
        cut.pending_approvals == whole.pending_approvals,
        cut.runtime_options == whole.runtime_options,
        cut.context_usage == whole.context_usage,
        whole.transcript@ == whole.transcript@.take(entries_dropped) + cut.transcript@,
        cut.tool_calls@.len() == whole.tool_calls@.len() - calls_dropped,
        newest_are_shown(whole.tool_calls@, cut.tool_calls@, places),
{
    let calls = whole.tool_calls@;
    let stripped = stripped_calls(calls);
    let n = calls_dropped as nat;
    let places = lemma_kept_places(stripped, n);
    lemma_counts_agree(calls);
    assert forall|k: int| 0 <= k < places.len() implies shown_without_output(
        calls[places[k]],
        #[trigger] cut.tool_calls@[k],
    ) by {
        assert(cut.tool_calls@[k] == stripped[places[k]]);
        assert(stripped[places[k]] == stripped_call(calls[places[k]]));
    }
    assert forall|i: int| 0 <= i < calls.len() && !has_ended(calls[i]) implies
        #[trigger] places.contains(i) by {
        assert(stripped[i] == stripped_call(calls[i]));
    }
    assert forall|i: int, j: int|
        0 <= i < j < calls.len() && has_ended(calls[j]) && #[trigger] places.contains(i)
            && has_ended(calls[i]) implies #[trigger] places.contains(j) by {
        assert(stripped[i] == stripped_call(calls[i]));
        assert(stripped[j] == stripped_call(calls[j]));
        lemma_count_grows(stripped, i, j);
    }
    assert(whole.transcript@ =~= whole.transcript@.take(entries_dropped) + cut.transcript@);
    places
}

/// Where the size of a snapshot depends on what it shows, room is made in an
/// order and no further than needed. A snapshot that fits is left as it is. One
/// that fits without the output of ended calls keeps its transcript and its
/// calls. Calls are given up only where the whole transcript was, and what was
/// given up last would not have fitted.
pub proof fn law_room_is_made_in_order<F: Fn(&SessionSnapshot) -> Result<usize, String>>(
    measure: F,
    weight: spec_fn(Seq<TranscriptEntry>, Seq<ToolCallState>, bool) -> int,
    whole: SessionSnapshot,
    max_frame_bytes: usize,
    cut: SessionSnapshot,
) -> (again: (int, ToolCallState))
    requires
        forall|probe: SessionSnapshot, size: usize| #[trigger]
            measure.ensures((&probe,), Ok(size)) ==> size == weight(
                probe.transcript@,
                probe.tool_calls@,
                probe.history_truncated,
            ),
        fitted(measure, whole, max_frame_bytes, Ok(cut)),
    ensures
        weight(cut.transcript@, cut.tool_calls@, cut.history_truncated) <= max_frame_bytes,
        weight(whole.transcript@, whole.tool_calls@, whole.history_truncated) <= max_frame_bytes
            ==> cut == whole,
        cut != whole ==> {
            let entries_dropped = whole.transcript@.len() - cut.transcript@.len();
            let calls_dropped = whole.tool_calls@.len() - cut.tool_calls@.len();
            &&& cut_down(whole, cut, entries_dropped, calls_dropped)
            &&& entries_dropped > 0 && calls_dropped == 0 ==> weight(
                whole.transcript@.skip(entries_dropped - 1),
                cut.tool_calls@,
                true,
            ) > max_frame_bytes
            &&& calls_dropped > 0 ==> {
                &&& cut.transcript@.len() == 0
                &&& 0 <= again.0 <= cut.tool_calls@.len()
                &&& exists|i: int|
                    0 <= i < whole.tool_calls@.len() && has_ended(whole.tool_calls@[i])
                        && #[trigger] shown_without_output(whole.tool_calls@[i], again.1)
                &&& weight(cut.transcript@, cut.tool_calls@.insert(again.0, again.1), true)
                    > max_frame_bytes
            }
        },
{
    let calls = whole.tool_calls@;
    let stripped = stripped_calls(calls);
    lemma_counts_agree(calls);
    lemma_kept_places(stripped, 0);
    assert(measured_over(measure, whole, max_frame_bytes) ==> weight(
        whole.transcript@,
        whole.tool_calls@,
        whole.history_truncated,
    ) > max_frame_bytes);
    let by_entries = exists|entries: int|
        cut_down(whole, cut, entries, 0) && #[trigger] entries_settled(
            measure,
            whole,
            entries,
            max_frame_bytes,
        );
    let by_calls = exists|entries: int, calls: int|
        cut_down(whole, cut, entries, calls) && #[trigger] calls_settled(
            measure,
            whole,
            entries,
            calls,
            max_frame_bytes,
        );
    if cut == whole {
        (0, arbitrary())
    } else if measured_over(measure, whole, max_frame_bytes) && cut_down(whole, cut, 0, 0) {
        let places = law_cut_snapshot_shows_the_newest(whole, cut, 0, 0);
        (0, arbitrary())
    } else if by_entries {
        let entries = choose|entries: int|
            cut_down(whole, cut, entries, 0) && #[trigger] entries_settled(
                measure,
                whole,
                entries,
                max_frame_bytes,
            );
        let places = law_cut_snapshot_shows_the_newest(whole, cut, entries, 0);
        if entries > 0 {
            lemma_over_weighs(measure, weight, whole, entries - 1, 0, max_frame_bytes);
        }
        (0, arbitrary())
    } else {
        assert(by_calls);
        let (entries, dropped) = choose|entries: int, calls: int|
            cut_down(whole, cut, entries, calls) && #[trigger] calls_settled(
                measure,
                whole,
                entries,
                calls,
                max_frame_bytes,
            );
        let places = law_cut_snapshot_shows_the_newest(whole, cut, entries, dropped);
        lemma_over_weighs(measure, weight, whole, entries, 0, max_frame_bytes);
        if entries < whole.transcript@.len() {
            lemma_within_weighs(measure, weight, whole, entries, 0, max_frame_bytes);
        }
        if dropped > 0 {
            lemma_over_weighs(measure, weight, whole, entries, dropped - 1, max_frame_bytes);
            let (at, i) = lemma_one_more_kept(stripped, dropped as nat);
            assert(stripped[i] == stripped_call(calls[i]));
            assert(shown_without_output(calls[i], stripped[i]));
            (at, stripped[i])
        } else {
            assert(entries < whole.transcript@.len() ==> false);
            assert(without_oldest_terminal(stripped, 0) == cut.tool_calls@);
            assert(weight(cut.transcript@, cut.tool_calls@, true) > max_frame_bytes);
            (0, arbitrary())
        }
    }
}

/// A snapshot is refused only where even its least would not fit: nothing of its
/// transcript, and only the calls that go on.
pub proof fn law_refused_snapshot_cannot_fit<F: Fn(&SessionSnapshot) -> Result<usize, String>>(
    measure: F,
    weight: spec_fn(Seq<TranscriptEntry>, Seq<ToolCallState>, bool) -> int,
    whole: SessionSnapshot,
    max_frame_bytes: usize,
    text: String,
) -> (least: (Seq<ToolCallState>, Seq<int>))
    requires
        forall|probe: SessionSnapshot, size: usize| #[trigger]
            measure.ensures((&probe,), Ok(size)) ==> size == weight(
                probe.transcript@,
                probe.tool_calls@,
                probe.history_truncated,
            ),
        forall|probe: SessionSnapshot, error: String| !#[trigger]
            measure.ensures((&probe,), Err(error)),
        fitted(measure, whole, max_frame_bytes, Err(text)),
    ensures
        newest_are_shown(whole.tool_calls@, least.0, least.1),
        forall|k: int| 0 <= k < least.0.len() ==> !has_ended(#[trigger] least.0[k]),
        weight(Seq::empty(), least.0, true) > max_frame_bytes,
{
    let calls = whole.tool_calls@;
    let stripped = stripped_calls(calls);
    let (entries, dropped) = choose|entries: int, calls: int|
        #[trigger] calls_settled(measure, whole, entries, calls, max_frame_bytes)
            && cut_measured_over(measure, whole, entries, calls, max_frame_bytes);
    lemma_over_weighs(measure, weight, whole, entries, 0, max_frame_bytes);
    lemma_over_weighs(measure, weight, whole, entries, dropped, max_frame_bytes);
    if entries < whole.transcript@.len() {
        lemma_within_weighs(measure, weight, whole, entries, 0, max_frame_bytes);
    }
    if dropped < terminal_count(calls) {
        lemma_within_weighs(measure, weight, whole, entries, dropped, max_frame_bytes);
    }
    assert(whole.transcript@.skip(entries) =~= Seq::empty());
    let probe = choose|cut: SessionSnapshot|
        cut_down(whole, cut, entries, dropped) && #[trigger] measured_over(
            measure,
            cut,
            max_frame_bytes,
        );
    let places = law_cut_snapshot_shows_the_newest(whole, probe, entries, dropped);
    let shown = probe.tool_calls@;
    lemma_counts_agree(calls);
    let kept = lemma_kept_places(stripped, dropped as nat);
    assert forall|k: int| 0 <= k < shown.len() implies !has_ended(#[trigger] shown[k]) by {
        assert(shown[k] == stripped[kept[k]]);
        assert(kept.contains(kept[k]));
        lemma_count_bounds(stripped, kept[k]);
    }
    (shown, places)
}

/// Of a page of sessions everything is sent where nothing is too large for a
/// frame, and nothing is refused.
pub proof fn law_whole_page_is_sent_where_it_fits<F: Fn(&ServerMessage) -> Result<usize, String>>(
    page: ListPage,
    measure: F,
    max_frame_bytes: usize,
    result: Result<(ServerMessage, usize), String>,
)
    requires
        forall|message: ServerMessage, size: usize| #[trigger]
            measure.ensures((&message,), Ok(size)) ==> size <= max_frame_bytes,
        forall|message: ServerMessage, error: String| !#[trigger]
            measure.ensures((&message,), Err(error)),
        page.fitted(measure, max_frame_bytes, result),
    ensures
        result matches Ok((message, sent)) && sent == page.sessions@.len() && (
        message matches ServerMessage::SessionList { sessions, .. } && sessions@
            == page.sessions@),
{
    let all = page.sessions@.len() as int;
    assert(!page.over(measure, all, max_frame_bytes));
    assert(!page.over(measure, 0, max_frame_bytes));
    if let Ok((message, sent)) = result {
        assert(page.sessions@.take(all) =~= page.sessions@);
    }
}

proof fn lemma_over_weighs<F: Fn(&SessionSnapshot) -> Result<usize, String>>(
    measure: F,
    weight: spec_fn(Seq<TranscriptEntry>, Seq<ToolCallState>, bool) -> int,
    whole: SessionSnapshot,
    entries: int,
    calls: int,
    max_frame_bytes: usize,
)
    requires
        forall|probe: SessionSnapshot, size: usize| #[trigger]
            measure.ensures((&probe,), Ok(size)) ==> size == weight(
                probe.transcript@,
                probe.tool_calls@,
                probe.history_truncated,
            ),
        cut_measured_over(measure, whole, entries, calls, max_frame_bytes),
    ensures
        weight(
            whole.transcript@.skip(entries),
            without_oldest_terminal(stripped_calls(whole.tool_calls@), calls as nat),
            true,
        ) > max_frame_bytes,
{
    let probe = choose|cut: SessionSnapshot|
        cut_down(whole, cut, entries, calls) && #[trigger] measured_over(
            measure,
            cut,
            max_frame_bytes,
        );
    assert(measured_over(measure, probe, max_frame_bytes));
}

proof fn lemma_within_weighs<F: Fn(&SessionSnapshot) -> Result<usize, String>>(
    measure: F,
    weight: spec_fn(Seq<TranscriptEntry>, Seq<ToolCallState>, bool) -> int,
    whole: SessionSnapshot,
    entries: int,
    calls: int,
    max_frame_bytes: usize,
)
    requires
        forall|probe: SessionSnapshot, size: usize| #[trigger]
            measure.ensures((&probe,), Ok(size)) ==> size == weight(
                probe.transcript@,
                probe.tool_calls@,
                probe.history_truncated,
            ),
        cut_measured_within(measure, whole, entries, calls, max_frame_bytes),
    ensures
        weight(
            whole.transcript@.skip(entries),
            without_oldest_terminal(stripped_calls(whole.tool_calls@), calls as nat),
            true,
        ) <= max_frame_bytes,
{
    let probe = choose|cut: SessionSnapshot|
        cut_down(whole, cut, entries, calls) && #[trigger] measured_within(
            measure,
            cut,
            max_frame_bytes,
        );
    assert(measured_within(measure, probe, max_frame_bytes));
}

/// The calls that stay are those that go on and those that enough ended ones
/// stand before.
proof fn lemma_kept_places(calls: Seq<ToolCallState>, n: nat) -> (places: Seq<int>)
    ensures
        picked_from(without_oldest_terminal(calls, n), calls, places),
        n <= terminal_count(calls) ==> places.len() == calls.len() - n,
        n > terminal_count(calls) ==> places.len() == calls.len() - terminal_count(calls),
        forall|i: int|
            0 <= i < calls.len() ==> (#[trigger] places.contains(i) <==> !(has_ended(calls[i])
                && terminal_count(calls.take(i)) < n)),
    decreases calls.len(),
{
    if calls.len() == 0 {
        seq![]
    } else {
        let rest = calls.drop_last();
        let before = lemma_kept_places(rest, n);
        let kept = without_oldest_terminal(rest, n);
        lemma_pick_next(kept, rest, before, calls.last());
        assert(rest.push(calls.last()) =~= calls);
        assert(calls.take(rest.len() as int) =~= rest);
        let gone = has_ended(calls.last()) && terminal_count(rest) < n;
        let places = if gone {
            before
        } else {
            before.push(rest.len() as int)
        };
        assert forall|i: int| 0 <= i < calls.len() implies (#[trigger] places.contains(i) <==> !(
        has_ended(calls[i]) && terminal_count(calls.take(i)) < n)) by {
            if i < rest.len() {
                assert(rest[i] == calls[i]);
                assert(rest.take(i) =~= calls.take(i));
                assert(before.contains(i) <==> !(has_ended(rest[i]) && terminal_count(rest.take(i))
                    < n));
            } else if before.contains(i) {
                let k = choose|k: int| 0 <= k < before.len() && before[k] == i;
                assert(before[k] < rest.len());
            }
        }
        places
    }
}

proof fn lemma_count_grows(calls: Seq<ToolCallState>, i: int, j: int)
    requires
        0 <= i <= j <= calls.len(),
    ensures
        terminal_count(calls.take(i)) <= terminal_count(calls.take(j)),
    decreases j,
{
    if i < j {
        assert(calls.take(j).drop_last() =~= calls.take(j - 1));
        lemma_count_grows(calls, i, j - 1);
    }
}

/// Before an ended call fewer ended than in all.
proof fn lemma_count_bounds(calls: Seq<ToolCallState>, i: int)
    requires
        0 <= i < calls.len(),
    ensures
        has_ended(calls[i]) ==> terminal_count(calls.take(i)) < terminal_count(calls),
{
    assert(calls.take(i + 1).drop_last() =~= calls.take(i));
    lemma_count_grows(calls, i + 1, calls.len() as int);
    assert(calls.take(calls.len() as int) =~= calls);
}

proof fn lemma_counts_agree(calls: Seq<ToolCallState>)
    ensures
        terminal_count(stripped_calls(calls)) == terminal_count(calls),
        without_oldest_terminal(stripped_calls(calls), 0) == stripped_calls(calls),
        terminal_count(calls) <= calls.len(),
    decreases calls.len(),
{
    if calls.len() > 0 {
        lemma_counts_agree(calls.drop_last());
        assert(stripped_calls(calls).drop_last() =~= stripped_calls(calls.drop_last()));
        assert(stripped_calls(calls).last() == stripped_call(calls.last()));
        assert(stripped_calls(calls).drop_last().push(stripped_calls(calls).last())
            =~= stripped_calls(calls));
    } else {
        assert(stripped_calls(calls) =~= Seq::empty());
    }
}

/// With enough to go, every ended call goes.
proof fn lemma_all_gone(calls: Seq<ToolCallState>, n: nat, m: nat)
    requires
        terminal_count(calls) <= n,
        terminal_count(calls) <= m,
    ensures
        without_oldest_terminal(calls, n) == without_oldest_terminal(calls, m),
    decreases calls.len(),
{
    if calls.len() > 0 {
        lemma_all_gone(calls.drop_last(), n, m);
    }
}

/// To give one call less up is to put an ended one back.
proof fn lemma_one_more_kept(calls: Seq<ToolCallState>, n: nat) -> (put: (int, int))
    requires
        1 <= n <= terminal_count(calls),
    ensures
        0 <= put.0 <= without_oldest_terminal(calls, n).len(),
        0 <= put.1 < calls.len(),
        has_ended(calls[put.1]),
        without_oldest_terminal(calls, (n - 1) as nat) == without_oldest_terminal(calls, n).insert(
            put.0,
            calls[put.1],
        ),
    decreases calls.len(),
{
    let rest = calls.drop_last();
    let last = calls.len() - 1;
    let fewer = (n - 1) as nat;
    let kept = without_oldest_terminal(rest, n);
    if has_ended(calls.last()) && terminal_count(rest) == fewer {
        lemma_all_gone(rest, fewer, n);
        assert(kept.insert(kept.len() as int, calls[last]) =~= kept.push(calls.last()));
        (kept.len() as int, last)
    } else {
        let put = lemma_one_more_kept(rest, n);
        assert(kept.push(calls.last()).insert(put.0, calls[put.1]) =~= kept.insert(
            put.0,
            rest[put.1],
        ).push(calls.last()));
        put
    }
}

/// What is sent of a page is its beginning, was measured within the frame, and is
/// nothing only where the page has nothing. It brings the cursor exactly where
/// rows are left.
pub proof fn law_sent_rows_fit_the_frame<F: Fn(&ServerMessage) -> Result<usize, String>>(
    page: ListPage,
    measure: F,
    max_frame_bytes: usize,
    message: ServerMessage,
    sent: usize,
)
    requires
        page.fitted(measure, max_frame_bytes, Ok((message, sent))),
    ensures
        exists|size: usize| #[trigger]
            measure.ensures((&message,), Ok(size)) && size <= max_frame_bytes,
        sent <= page.sessions@.len(),
        sent == 0 ==> page.sessions@.len() == 0,
        message matches ServerMessage::SessionList {
            request_id,
            workspace,
            sessions,
            next_cursor,
            incomplete,
        } && request_id == page.request_id && workspace == page.workspace && sessions@
            == page.sessions@.take(sent as int) && incomplete == page.incomplete && (
        next_cursor is Some <==> sent < page.remaining) && (next_cursor is Some ==> next_cursor
            == Some(page.cursor)),
{
}

} // verus!
