//! What answers, lapses and cancellations do to the approvals of a session, and
//! what clients are told of them.
use vstd::prelude::*;
use crate::keyed::picked_from;
use crate::session_core::approval::{
    approval_number, approval_text, can_be_answered, drained, drained_one, is_unemitted,
    law_approval_ids_are_unambiguous, resolve_error, resolved, ApprovalBroker, ApprovalError,
    ApprovalResolution, BrokerSettings, PendingApproval, UnemittedResolution,
};
use crate::session_core::approval_wait::{
    answerable, deadline_event, deadline_recorded, resolution_event, status_event,
    undelivered_without,
};
use crate::session_core::tool_lifecycle::{
    cancels, denial_text, is_finish_event, runs, title_text, CanonicalToolLifecycle,
};
use crate::session_protocol::{
    ApprovalDecision, ApprovalRequest, ClientCapability, SessionEvent, ToolCallStateStatus,
    TurnStatus,
};
use crate::text::utf8_len;

verus! {

broadcast use vstd::string::group_string_axioms;

/// When an answer is taken. It takes the capability for it: to allow for good
/// takes another than to allow once or to deny. It takes an approval that waits;
/// where none does, one that was given out before is resolved and any other is
/// not pending. To allow for good takes a request that offers it.
pub proof fn law_answers_are_judged(
    broker: ApprovalBroker,
    id: Seq<char>,
    capabilities: Seq<ClientCapability>,
    decision: ApprovalDecision,
)
    ensures
        ({
            let refused = resolve_error(broker, id, capabilities, decision);
            let needed = if decision is AllowAlways {
                ClientCapability::ApproveAlways
            } else {
                ClientCapability::ApproveOnce
            };
            let able = exists|i: int| 0 <= i < capabilities.len() && capabilities[i] == needed;
            let waits = exists|i: int|
                0 <= i < broker.waiting().len() && (#[trigger] broker.waiting()[i]).request.id@
                    == id;
            let offered = exists|i: int|
                0 <= i < broker.waiting().len() && (#[trigger] broker.waiting()[i]).request.id@
                    == id && broker.waiting()[i].request.allow_always_available;
            &&& refused == Some(ApprovalError::MissingCapability(needed)) <==> !able
            &&& refused == Some(ApprovalError::AlreadyResolved) <==> able && !waits
                && approval_number(id) <= broker.newest()
            &&& refused == Some(ApprovalError::NotPending) <==> able && !waits && approval_number(
                id,
            ) > broker.newest()
            &&& refused == Some(ApprovalError::AllowAlwaysUnavailable) <==> able && waits
                && decision is AllowAlways && !offered
            &&& refused is None <==> able && waits && (decision is AllowAlways ==> offered)
        }),
{
}

/// An answer that is taken settles one approval and no other: what still waits
/// are the others, in their order; the resolution has the approval's id and tool,
/// the answer and who gave it, and is what is to be told beside what was.
pub proof fn law_answer_settles_one_approval(
    before: ApprovalBroker,
    after: ApprovalBroker,
    id: Seq<char>,
    resolved_by: Seq<char>,
    capabilities: Seq<ClientCapability>,
    decision: ApprovalDecision,
    result: Result<ApprovalResolution, ApprovalError>,
) -> (places: Seq<int>)
    requires
        before.well_formed(),
        resolved(before, after, id, resolved_by, capabilities, decision, result),
    ensures
        match result {
            Ok(resolution) => {
                &&& picked_from(after.waiting(), before.waiting(), places)
                &&& forall|i: int|
                    0 <= i < before.waiting().len() ==> (#[trigger] places.contains(i)
                        <==> before.waiting()[i].request.id@ != id)
                &&& resolution.approval_id@ == id
                &&& resolution.decision == decision
                &&& resolution.resolved_by@ == resolved_by
                &&& exists|i: int|
                    0 <= i < before.waiting().len() && (#[trigger] before.waiting()[i]).request.id@
                        == id && before.waiting()[i].request.tool == resolution.tool
                &&& after.undelivered().len() == before.undelivered().len() + 1
                &&& exists|k: int|
                    0 <= k < after.undelivered().len() && (
                    #[trigger] after.undelivered()[k]).resolution == resolution
                        && after.undelivered().remove(k) == before.undelivered()
            },
            Err(_) => after.waiting() == before.waiting() && after.undelivered()
                == before.undelivered(),
        },
{
    match result {
        Err(_) => seq![],
        Ok(resolution) => {
            let (place, at) = choose|i: int, at: int|
                {
                    &&& 0 <= i < before.waiting().len()
                    &&& (#[trigger] before.waiting()[i]).request.id@ == id
                    &&& resolution.tool == before.waiting()[i].request.tool
                    &&& after.waiting() == before.waiting().remove(i)
                    &&& 0 <= at <= before.undelivered().len()
                    &&& after.undelivered() == #[trigger] before.undelivered().insert(
                        at,
                        UnemittedResolution { number: before.waiting()[i].number, resolution },
                    )
                };
            before.lemma_one_place(id);
            let n = before.waiting().len();
            let places = Seq::new(
                (n - 1) as nat,
                |k: int|
                    if k < place {
                        k
                    } else {
                        k + 1
                    },
            );
            assert forall|i: int| 0 <= i < n implies (#[trigger] places.contains(i)
                <==> before.waiting()[i].request.id@ != id) by {
                if i < place {
                    assert(places[i] == i);
                } else if i > place {
                    assert(places[i - 1] == i);
                } else if places.contains(i) {
                    let k = choose|k: int| 0 <= k < places.len() && places[k] == i;
                    assert(places[k] != place);
                }
            }
            assert(after.undelivered()[at].resolution == resolution);
            assert(after.undelivered().remove(at) =~= before.undelivered());
            places
        },
    }
}

/// A cancellation leaves no approval unanswered: each that waited is denied, with
/// its id and tool and in the canceller's name; each answer that was still to be
/// told is handed out as it was given; nothing else is, nothing twice, and all of
/// it in the order in which the approvals were given out.
pub proof fn law_cancellation_answers_everything(
    before: ApprovalBroker,
    resolved_by: Seq<char>,
    resolutions: Seq<ApprovalResolution>,
    numbers: Seq<u64>,
)
    requires
        before.well_formed(),
        drained(before, resolved_by, resolutions, numbers),
    ensures
        forall|i: int|
            0 <= i < before.waiting().len() ==> exists|k: int|
                0 <= k < resolutions.len() && denied_as(
                    #[trigger] resolutions[k],
                    (#[trigger] before.waiting()[i]).request,
                    resolved_by,
                ),
        forall|i: int|
            0 <= i < before.undelivered().len() ==> resolutions.contains(
                (#[trigger] before.undelivered()[i]).resolution,
            ),
        forall|k: int|
            0 <= k < resolutions.len() ==> (#[trigger] resolutions[k]).approval_id@
                == approval_text(numbers[k] as nat),
        forall|k: int|
            0 <= k < resolutions.len() ==> (exists|i: int|
                0 <= i < before.undelivered().len() && (
                #[trigger] before.undelivered()[i]).resolution == #[trigger] resolutions[k]) || (
            exists|i: int|
                0 <= i < before.waiting().len() && denied_as(
                    resolutions[k],
                    (#[trigger] before.waiting()[i]).request,
                    resolved_by,
                )),
        forall|j: int, k: int|
            0 <= j < k < resolutions.len() ==> (#[trigger] resolutions[j]).approval_id@ != (
            #[trigger] resolutions[k]).approval_id@,
{
    assert forall|k: int| 0 <= k < resolutions.len() implies (
    #[trigger] resolutions[k]).approval_id@ == approval_text(numbers[k] as nat) by {
        assert(drained_one(before, resolved_by, resolutions[k], numbers[k]));
    }
    assert forall|k: int| 0 <= k < resolutions.len() implies (exists|i: int|
        0 <= i < before.undelivered().len() && (#[trigger] before.undelivered()[i]).resolution
            == #[trigger] resolutions[k]) || (exists|i: int|
        0 <= i < before.waiting().len() && denied_as(
            resolutions[k],
            (#[trigger] before.waiting()[i]).request,
            resolved_by,
        )) by {
        assert(drained_one(before, resolved_by, resolutions[k], numbers[k]));
        if exists|i: int|
            {
                &&& 0 <= i < before.waiting().len()
                &&& (#[trigger] before.waiting()[i]).number == numbers[k]
                &&& resolutions[k].approval_id@ == before.waiting()[i].request.id@
                &&& resolutions[k].tool@ == before.waiting()[i].request.tool@
                &&& resolutions[k].decision == ApprovalDecision::Deny
                &&& resolutions[k].resolved_by@ == resolved_by
            } {
            let i = choose|i: int|
                {
                    &&& 0 <= i < before.waiting().len()
                    &&& (#[trigger] before.waiting()[i]).number == numbers[k]
                    &&& resolutions[k].approval_id@ == before.waiting()[i].request.id@
                    &&& resolutions[k].tool@ == before.waiting()[i].request.tool@
                    &&& resolutions[k].decision == ApprovalDecision::Deny
                    &&& resolutions[k].resolved_by@ == resolved_by
                };
            assert(denied_as(resolutions[k], before.waiting()[i].request, resolved_by));
        }
    }
    assert forall|i: int| 0 <= i < before.waiting().len() implies exists|k: int|
        0 <= k < resolutions.len() && denied_as(
            #[trigger] resolutions[k],
            (#[trigger] before.waiting()[i]).request,
            resolved_by,
        ) by {
        let number = before.waiting()[i].number;
        let k = choose|k: int| 0 <= k < numbers.len() && numbers[k] == number;
        assert(drained_one(before, resolved_by, resolutions[k], numbers[k]));
        before.lemma_one_place(before.waiting()[i].request.id@);
        assert(denied_as(resolutions[k], before.waiting()[i].request, resolved_by));
    }
    assert forall|i: int| 0 <= i < before.undelivered().len() implies resolutions.contains(
        (#[trigger] before.undelivered()[i]).resolution,
    ) by {
        let number = before.undelivered()[i].number;
        let k = choose|k: int| 0 <= k < numbers.len() && numbers[k] == number;
        assert(drained_one(before, resolved_by, resolutions[k], numbers[k]));
        before.lemma_one_undelivered(before.undelivered()[i].resolution.approval_id@);
        assert(resolutions[k] == before.undelivered()[i].resolution);
    }
    assert forall|j: int, k: int| 0 <= j < k < resolutions.len() implies (
    #[trigger] resolutions[j]).approval_id@ != (#[trigger] resolutions[k]).approval_id@ by {
        assert(numbers[j] < numbers[k]);
        law_approval_ids_are_unambiguous(numbers[j]);
        law_approval_ids_are_unambiguous(numbers[k]);
    }
}

/// Whether a resolution denies a request in someone's name.
pub open spec fn denied_as(
    resolution: ApprovalResolution,
    request: ApprovalRequest,
    resolved_by: Seq<char>,
) -> bool {
    &&& resolution.approval_id@ == request.id@
    &&& resolution.tool@ == request.tool@
    &&& resolution.decision is Deny
    &&& resolution.resolved_by@ == resolved_by
}

/// Who could answer an approval: one who may approve once can answer any, one who
/// may approve for good only a request that offers it; with neither attached, or
/// where it does not wait, nobody can.
pub proof fn law_who_can_answer(
    settings: BrokerSettings,
    pending: Seq<PendingApproval>,
    id: Seq<char>,
    at: int,
)
    requires
        0 <= at < pending.len(),
        pending[at].request.id@ == id,
        forall|i: int|
            0 <= i < pending.len() && (#[trigger] pending[i]).request.id@ == id ==> i == at,
    ensures
        answerable(settings, pending, id) == can_be_answered(settings, pending[at].request),
        settings.approve_once_clients > 0 ==> answerable(settings, pending, id),
        settings.approve_once_clients == 0 ==> (answerable(settings, pending, id) <==> (
        settings.approve_always_clients > 0 && pending[at].request.allow_always_available)),
{
    if can_be_answered(settings, pending[at].request) {
        assert(answerable(settings, pending, id));
    }
}

/// What clients are told of an answer is its approval, the decision and who gave
/// it; of a deadline, when it is and whether it is paused, and only if that is not
/// what they were told before. The broker then shows it on that approval alone.
pub proof fn law_clients_are_told(
    before: ApprovalBroker,
    after: ApprovalBroker,
    resolution: ApprovalResolution,
    id: String,
    deadline_unix_ms: u64,
    paused: bool,
    event: Option<SessionEvent>,
    at: int,
)
    requires
        before.well_formed(),
        deadline_event(before, id, deadline_unix_ms, paused, event),
        deadline_recorded(before, after, id@, deadline_unix_ms, paused),
        0 <= at < before.waiting().len(),
        before.waiting()[at].request.id@ == id@,
    ensures
        resolution_event(resolution) matches SessionEvent::ApprovalResolved {
            approval_id,
            decision,
            resolved_by,
        } && approval_id == resolution.approval_id && decision == resolution.decision
            && resolved_by == resolution.resolved_by,
        event is None <==> before.waiting()[at].request.ineligible_deadline_unix_ms == Some(
            deadline_unix_ms,
        ) && before.waiting()[at].request.deadline_paused == paused,
        event matches Some(told) ==> (told matches SessionEvent::ApprovalDeadlineChanged {
            approval_id,
            ineligible_deadline_unix_ms,
            paused: held,
        } && approval_id == id && ineligible_deadline_unix_ms == deadline_unix_ms && held == paused),
        after.waiting().len() == before.waiting().len(),
        after.waiting()[at].request.ineligible_deadline_unix_ms == Some(deadline_unix_ms),
        after.waiting()[at].request.deadline_paused == paused,
        after.waiting()[at].request.id == before.waiting()[at].request.id,
        after.waiting()[at].request.tool == before.waiting()[at].request.tool,
        after.waiting()[at].request.allow_always_available
            == before.waiting()[at].request.allow_always_available,
        forall|i: int|
            0 <= i < before.waiting().len() && i != at ==> #[trigger] after.waiting()[i]
                == before.waiting()[i],
{
    before.lemma_one_place(id@);
}

/// A call is shown under its command where it runs one and names it, else under
/// its tool's name. Its output is shown whole where there is no limit, and whole
/// where it fits.
pub proof fn law_calls_are_named_and_shown(
    name: Seq<char>,
    command: Option<Seq<char>>,
    lifecycle: CanonicalToolLifecycle,
    output: Seq<char>,
)
    ensures
        name == "exec"@ && command is Some ==> title_text(name, command) == command->0,
        name != "exec"@ || command is None ==> title_text(name, command) == name,
        lifecycle.output_limit() is None ==> lifecycle.projected(output) == output,
        lifecycle.output_limit() matches Some(limit) ==> (utf8_len(output) <= limit
            ==> lifecycle.projected(output) == output),
{
}

/// Every call that runs is cancelled when all are: two events for each, one that
/// it is cancelled and one that it is finished as cancelled, and none for others.
pub proof fn law_cancelled_calls_are_told(
    running: Seq<String>,
    ids: Seq<String>,
    events: Seq<SessionEvent>,
    at: int,
)
    requires
        cancels(events, ids),
        ids.len() == running.len(),
        forall|i: int| 0 <= i < running.len() ==> ids.contains(#[trigger] running[i]),
        0 <= at < running.len(),
    ensures
        events.len() == 2 * running.len(),
        exists|k: int|
            {
                &&& 0 <= k < running.len()
                &&& #[trigger] events[2 * k] == (SessionEvent::ToolCallUpdated {
                    id: running[at],
                    status: ToolCallStateStatus::Cancelled,
                })
                &&& events[2 * k + 1] matches SessionEvent::ToolCallFinished { id, status, output }
                    && id == running[at] && status is Cancelled && output@ == "cancelled"@
            },
{
    let k = choose|k: int| 0 <= k < ids.len() && ids[k] == running[at];
    let id = ids[k];
    assert(events[2 * k] == SessionEvent::ToolCallUpdated {
        id,
        status: ToolCallStateStatus::Cancelled,
    });
}

/// The end of a call is told under its id, with the status and output given, and
/// a call runs exactly if its id is among those that run.
pub proof fn law_finish_is_told(
    event: SessionEvent,
    id: String,
    status: ToolCallStateStatus,
    output: Seq<char>,
    active: Seq<String>,
    named: Seq<char>,
)
    ensures
        is_finish_event(event, id, status, output) <==> event is ToolCallFinished
            && event->ToolCallFinished_id == id && event->ToolCallFinished_status == status
            && event->ToolCallFinished_output@ == output,
        runs(active, named) <==> !(forall|i: int|
            0 <= i < active.len() ==> (#[trigger] active[i])@ != named),
{
}

/// A denial names the tool, and tells a request that was cancelled, one with an
/// unknown outcome, one that failed, one that the broker dropped and one that
/// could not be resolved from an answer of no.
pub proof fn law_denials_say_why(tool: Seq<char>, resolved_by: Seq<char>)
    ensures
        denial_text(tool, "acp_cancelled"@) == "permission request cancelled for '"@ + tool
            + "'"@,
        denial_text(tool, "acp_unrecognized"@) == "unrecognized permission outcome for '"@ + tool
            + "'"@,
        denial_text(tool, "acp_request_failed"@) == "permission request failed for '"@ + tool
            + "'"@,
        denial_text(tool, "acp_unavailable"@) == "permission request failed for '"@ + tool + "'"@,
        denial_text(tool, "acp_spawn_failed"@) == "permission request failed for '"@ + tool + "'"@,
        denial_text(tool, "broker_closed"@) == "permission broker closed for '"@ + tool + "'"@,
        denial_text(tool, "resolution_failed"@) == "permission resolution failed for '"@ + tool
            + "'"@,
        resolved_by != "acp_cancelled"@ && resolved_by != "acp_unrecognized"@ && resolved_by
            != "acp_request_failed"@ && resolved_by != "acp_unavailable"@ && resolved_by
            != "acp_spawn_failed"@ && resolved_by != "broker_closed"@ && resolved_by
            != "resolution_failed"@ ==> denial_text(tool, resolved_by)
            == "permission denied for '"@ + tool + "'"@,
{
    reveal_strlit("acp_cancelled");
    reveal_strlit("acp_unrecognized");
    reveal_strlit("acp_request_failed");
    reveal_strlit("acp_unavailable");
    reveal_strlit("acp_spawn_failed");
    reveal_strlit("broker_closed");
    reveal_strlit("resolution_failed");
    assert("acp_cancelled"@.len() == 13 && "broker_closed"@.len() == 13);
    assert("acp_unrecognized"@.len() == 16 && "acp_spawn_failed"@.len() == 16);
    assert("acp_request_failed"@.len() == 18 && "acp_unavailable"@.len() == 15);
    assert("resolution_failed"@.len() == 17);
    assert("acp_cancelled"@[0] != "broker_closed"@[0]);
    assert("acp_unrecognized"@[4] != "acp_spawn_failed"@[4]);
}

/// Of the answers that are still to be told one goes, where there is one for the
/// approval, and the others stay.
pub proof fn law_one_answer_is_told(
    before: ApprovalBroker,
    after: ApprovalBroker,
    id: Seq<char>,
    other: UnemittedResolution,
)
    requires
        undelivered_without(before, after, id),
    ensures
        other.resolution.approval_id@ != id ==> (after.undelivered().contains(other)
            <==> before.undelivered().contains(other)),
        before.undelivered().len() == after.undelivered().len() || before.undelivered().len()
            == after.undelivered().len() + 1,
        (forall|i: int|
            0 <= i < before.undelivered().len() ==> (
            #[trigger] before.undelivered()[i]).resolution.approval_id@ != id)
            <==> before.undelivered().len() == after.undelivered().len(),
{
    let was = before.undelivered();
    let now = after.undelivered();
    if is_unemitted(was, id) {
        let at = choose|at: int|
            {
                &&& 0 <= at < was.len()
                &&& (#[trigger] was[at]).resolution.approval_id@ == id
                &&& now == was.remove(at)
            };
        assert(was[at].resolution.approval_id@ == id);
        if now.contains(other) {
            let k = choose|k: int| 0 <= k < now.len() && now[k] == other;
            let from = if k < at {
                k
            } else {
                k + 1
            };
            assert(was[from] == other);
        }
        if was.contains(other) && other.resolution.approval_id@ != id {
            let k = choose|k: int| 0 <= k < was.len() && was[k] == other;
            let to = if k < at {
                k
            } else {
                k - 1
            };
            assert(now[to] == other);
        }
    }
}

/// A session's turn is told by its status alone.
pub proof fn law_turn_status_is_told(status: TurnStatus)
    ensures
        status_event(status) == (SessionEvent::TurnStatusChanged { status }),
{
}

/// The deadline of an approval that does not wait changes nothing.
pub proof fn law_deadline_of_no_approval_is_nothing(
    before: ApprovalBroker,
    after: ApprovalBroker,
    id: String,
    deadline_unix_ms: u64,
    paused: bool,
    event: Option<SessionEvent>,
)
    requires
        deadline_event(before, id, deadline_unix_ms, paused, event),
        deadline_recorded(before, after, id@, deadline_unix_ms, paused),
        forall|i: int|
            0 <= i < before.waiting().len() ==> (#[trigger] before.waiting()[i]).request.id@ != id@,
    ensures
        event is None,
        after.waiting() == before.waiting(),
{
}

} // verus!
