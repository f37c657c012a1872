//! The course of one approval request: announced, waited for, resolved or lapsed.
//!
//! Waiting itself is done by the caller: it performs what `ApprovalWait::plan`
//! asks for and reports what happened.
use vstd::prelude::*;
use crate::session_core::approval::{
    approval_text, can_be_answered, is_pending, is_unemitted, resolved, ApprovalBroker,
    ApprovalError, ApprovalRequestError, ApprovalResolution, BrokerSettings, PendingApproval,
    UnemittedResolution,
};
use crate::session_core::event_router::SessionEventError;
use crate::session_protocol::{
    ApprovalDecision, ApprovalRequest, ClientCapability, SessionEvent, TurnStatus,
};

verus! {

broadcast use vstd::string::group_string_axioms;

/// When an approval lapses: on the caller's clock, and as clients are told.
#[derive(Debug, Clone, Copy, PartialEq, Eq, Structural)]
pub struct ApprovalDeadline {
    pub clock: u128,
    pub unix_ms: u64,
}

/// One approval that is waited for.
#[derive(Debug, PartialEq, Eq)]
pub struct ApprovalWait {
    approval_id: String,
    deadline: Option<ApprovalDeadline>,
}

/// What the caller waits for next. An answer takes precedence over the rest.
#[derive(Debug, Clone, Copy, PartialEq, Eq, Structural)]
pub enum ApprovalWaitAction {
    AwaitAnswer,
    AwaitAnswerOrEligibility,
    AwaitAnswerEligibilityOrDeadline { deadline: ApprovalDeadline },
}

/// What became of an approval whose deadline passed.
#[derive(Debug, PartialEq, Eq)]
pub enum LapsedApproval {
    Resolved(ApprovalResolution),
    KeepWaiting,
    Failed(ApprovalRequestError),
}

/// Milliseconds since the epoch of a deadline; zero where it is not representable or lies before.
pub fn system_deadline_unix_ms(deadline_since_epoch_ns: Option<u128>) -> (deadline: u64)
    ensures
        deadline == match deadline_since_epoch_ns {
            Some(nanos) => if nanos / 1_000_000 > u64::MAX {
                u64::MAX as int
            } else {
                (nanos / 1_000_000) as int
            },
            None => 0,
        },
{
    match deadline_since_epoch_ns {
        Some(nanos) => {
            let millis: u128 = nanos / 1_000_000;
            if millis > u64::MAX as u128 {
                u64::MAX
            } else {
                millis as u64
            }
        },
        None => 0,
    }
}

pub open spec fn status_event(status: TurnStatus) -> SessionEvent {
    SessionEvent::TurnStatusChanged { status }
}

/// The event that tells of a resolution.
pub open spec fn resolution_event(resolution: ApprovalResolution) -> SessionEvent {
    SessionEvent::ApprovalResolved {
        approval_id: resolution.approval_id,
        decision: resolution.decision,
        resolved_by: resolution.resolved_by,
    }
}

pub fn resolution_to_event(resolution: ApprovalResolution) -> (event: SessionEvent)
    ensures
        event == resolution_event(resolution),
{
    SessionEvent::ApprovalResolved {
        approval_id: resolution.approval_id,
        decision: resolution.decision,
        resolved_by: resolution.resolved_by,
    }
}

/// The event that tells of a deadline, if the pending approval did not show it yet.
pub open spec fn deadline_event(
    before: ApprovalBroker,
    id: String,
    deadline_unix_ms: u64,
    paused: bool,
    event: Option<SessionEvent>,
) -> bool {
    match event {
        Some(event) => event == SessionEvent::ApprovalDeadlineChanged {
            approval_id: id,
            ineligible_deadline_unix_ms: deadline_unix_ms,
            paused,
        } && shows_other_deadline(before.waiting(), id@, deadline_unix_ms, paused),
        None => !shows_other_deadline(before.waiting(), id@, deadline_unix_ms, paused),
    }
}

/// Whether the approval is pending and shows another deadline or pause.
pub open spec fn shows_other_deadline(
    pending: Seq<PendingApproval>,
    id: Seq<char>,
    deadline_unix_ms: u64,
    paused: bool,
) -> bool {
    exists|i: int|
        {
            &&& 0 <= i < pending.len()
            &&& (#[trigger] pending[i]).request.id@ == id
            &&& pending[i].request.ineligible_deadline_unix_ms != Some(deadline_unix_ms)
                || pending[i].request.deadline_paused != paused
        }
}

/// Whether the approval is pending and some attached client could answer it.
pub open spec fn answerable(
    settings: BrokerSettings,
    pending: Seq<PendingApproval>,
    id: Seq<char>,
) -> bool {
    exists|i: int|
        0 <= i < pending.len() && (#[trigger] pending[i]).request.id@ == id && can_be_answered(
            settings,
            pending[i].request,
        )
}

/// What waits once a deadline is recorded: the approval with that id shows it,
/// if it is pending, and nothing else changes.
pub open spec fn deadline_recorded(
    before: ApprovalBroker,
    after: ApprovalBroker,
    id: Seq<char>,
    deadline_unix_ms: u64,
    paused: bool,
) -> bool {
    &&& !is_pending(before.waiting(), id) ==> after.waiting() == before.waiting()
    &&& forall|i: int|
        0 <= i < before.waiting().len() && (#[trigger] before.waiting()[i]).request.id@ == id
            ==> after.waiting() == before.waiting().update(
            i,
            PendingApproval {
                request: ApprovalRequest {
                    ineligible_deadline_unix_ms: Some(deadline_unix_ms),
                    deadline_paused: paused,
                    ..before.waiting()[i].request
                },
                ..before.waiting()[i]
            },
        )
}

/// Register one canonical approval. The caller emits the two events in turn,
/// then waits; if an emission fails it calls `deny_failed_approval`.
pub fn request_approval(broker: &mut ApprovalBroker, request: ApprovalRequest) -> (result: Result<
    (ApprovalWait, SessionEvent, SessionEvent),
    ApprovalRequestError,
>)
    requires
        old(broker).well_formed(),
    ensures
        final(broker).well_formed(),
        final(broker).settings() == old(broker).settings(),
        final(broker).undelivered() == old(broker).undelivered(),
        match result {
            Ok((wait, status, announced)) => {
                &&& old(broker).newest() < u64::MAX
                &&& final(broker).newest() == old(broker).newest() + 1
                &&& final(broker).waiting().len() == old(broker).waiting().len() + 1
                &&& final(broker).waiting() == old(broker).waiting().push(
                    final(broker).waiting().last(),
                )
                &&& final(broker).waiting().last().number == final(broker).newest()
                &&& final(broker).waiting().last().request == (ApprovalRequest {
                    id: final(broker).waiting().last().request.id,
                    allow_always_available: request.allow_always_available
                        && old(broker).settings().allow_always,
                    ..request
                })
                &&& final(broker).waiting().last().request.id@ == approval_text(
                    final(broker).newest() as nat,
                )
                &&& wait.id() == final(broker).waiting().last().request.id@
                &&& wait.anchored() is None
                &&& status == status_event(TurnStatus::WaitingForApproval)
                &&& announced == (SessionEvent::ApprovalRequested {
                    request: final(broker).waiting().last().request,
                })
            },
            Err(error) => {
                &&& error == ApprovalRequestError::Broker(ApprovalError::IdExhausted)
                &&& old(broker).newest() == u64::MAX
                &&& final(broker).newest() == old(broker).newest()
                &&& final(broker).waiting() == old(broker).waiting()
            },
        },
{
    match broker.register(request) {
        Err(error) => Err(ApprovalRequestError::Broker(error)),
        Ok(registered) => {
            let wait = ApprovalWait { approval_id: registered.id.clone(), deadline: None };
            Ok(
                (
                    wait,
                    SessionEvent::TurnStatusChanged { status: TurnStatus::WaitingForApproval },
                    SessionEvent::ApprovalRequested { request: registered },
                ),
            )
        },
    }
}

/// Whether only the undelivered resolution with an id left, where there was one.
pub open spec fn undelivered_without(
    before: ApprovalBroker,
    after: ApprovalBroker,
    id: Seq<char>,
) -> bool {
    if is_unemitted(before.undelivered(), id) {
        exists|at: int|
            {
                &&& 0 <= at < before.undelivered().len()
                &&& (#[trigger] before.undelivered()[at]).resolution.approval_id@ == id
                &&& after.undelivered() == before.undelivered().remove(at)
            }
    } else {
        after.undelivered() == before.undelivered()
    }
}

/// Withdraws an approval that could not be announced: it is denied, nothing of
/// it is left to emit, and the turn runs on.
pub fn deny_failed_approval(
    broker: &mut ApprovalBroker,
    wait: &ApprovalWait,
    resolved_by: &str,
    error: SessionEventError,
) -> (failed: (SessionEvent, ApprovalRequestError))
    requires
        old(broker).well_formed(),
    ensures
        final(broker).well_formed(),
        final(broker).newest() == old(broker).newest(),
        final(broker).settings() == old(broker).settings(),
        !is_pending(final(broker).waiting(), wait.id()),
        !is_unemitted(final(broker).undelivered(), wait.id()),
        !is_pending(old(broker).waiting(), wait.id()) ==> {
            &&& final(broker).waiting() == old(broker).waiting()
            &&& undelivered_without(*old(broker), *final(broker), wait.id())
        },
        forall|i: int|
            0 <= i < old(broker).waiting().len() && (
            #[trigger] old(broker).waiting()[i]).request.id@ == wait.id() ==> {
                &&& final(broker).waiting() == old(broker).waiting().remove(i)
                &&& final(broker).undelivered() == old(broker).undelivered()
            },
        failed == (status_event(TurnStatus::Running), ApprovalRequestError::Event(error)),
{
    let capabilities = vec![ClientCapability::ApproveOnce];
    proof {
        assert(capabilities@[0] == ClientCapability::ApproveOnce);
        assert(capabilities@.contains(ClientCapability::ApproveOnce));
    }
    let result = broker.resolve(
        wait.approval_id.as_str(),
        resolved_by,
        capabilities.as_slice(),
        ApprovalDecision::Deny,
    );
    let ghost answered = *broker;
    let taken = broker.take_unemitted(wait.approval_id.as_str());
    proof {
        assert forall|i: int|
            0 <= i < old(broker).waiting().len() && (
            #[trigger] old(broker).waiting()[i]).request.id@ == wait.id() implies broker.waiting()
            == old(broker).waiting().remove(i) && broker.undelivered() == old(broker).undelivered() by {
            assert(result is Ok);
            old(broker).lemma_one_place(wait.id());
            let resolution = result->Ok_0;
            let (place, at) = choose|place: int, at: int|
                {
                    &&& 0 <= place < old(broker).waiting().len()
                    &&& (#[trigger] old(broker).waiting()[place]).request.id@ == wait.id()
                    &&& resolution.tool == old(broker).waiting()[place].request.tool
                    &&& answered.waiting() == old(broker).waiting().remove(place)
                    &&& 0 <= at <= old(broker).undelivered().len()
                    &&& answered.undelivered() == #[trigger] old(broker).undelivered().insert(
                        at,
                        UnemittedResolution {
                            number: old(broker).waiting()[place].number,
                            resolution,
                        },
                    )
                };
            assert(answered.undelivered()[at].resolution.approval_id@ == wait.id());
            answered.lemma_one_undelivered(wait.id());
            assert(answered.undelivered().remove(at) =~= old(broker).undelivered());
        }
    }
    (
        SessionEvent::TurnStatusChanged { status: TurnStatus::Running },
        ApprovalRequestError::Event(error),
    )
}

impl ApprovalWait {
    pub closed spec fn id_text(self) -> String {
        self.approval_id
    }

    /// The id that the approval was registered under.
    pub open spec fn id(self) -> Seq<char> {
        self.id_text()@
    }

    /// The deadline, which is fixed when the approval first has no capable client.
    pub closed spec fn anchored(self) -> Option<ApprovalDeadline> {
        self.deadline
    }

    pub fn approval_id(&self) -> (id: &str)
        ensures
            id@ == self.id(),
    {
        self.approval_id.as_str()
    }

    /// Decides what to wait for, and what clients are told of the deadline
    /// first. While a capable client is attached the deadline is paused; it is
    /// anchored at `fresh` when there is none for the first time.
    pub fn plan(&mut self, broker: &mut ApprovalBroker, fresh: ApprovalDeadline) -> (planned: (
        Option<SessionEvent>,
        ApprovalWaitAction,
    ))
        requires
            old(broker).well_formed(),
        ensures
            final(broker).well_formed(),
            final(broker).undelivered() == old(broker).undelivered(),
            final(broker).newest() == old(broker).newest(),
            final(broker).settings() == old(broker).settings(),
            final(self).id_text() == old(self).id_text(),
            final(self).id() == old(self).id(),
            if old(broker).settings().timeout is None {
                &&& planned == (None::<SessionEvent>, ApprovalWaitAction::AwaitAnswer)
                &&& final(self).anchored() == old(self).anchored()
                &&& final(broker).waiting() == old(broker).waiting()
            } else if answerable(
                old(broker).settings(),
                old(broker).waiting(),
                old(self).id(),
            ) {
                &&& planned.1 == ApprovalWaitAction::AwaitAnswerOrEligibility
                &&& final(self).anchored() == old(self).anchored()
                &&& match old(self).anchored() {
                    Some(deadline) => {
                        &&& deadline_event(
                            *old(broker),
                            old(self).id_text(),
                            deadline.unix_ms,
                            true,
                            planned.0,
                        )
                        &&& deadline_recorded(
                            *old(broker),
                            *final(broker),
                            old(self).id(),
                            deadline.unix_ms,
                            true,
                        )
                    },
                    None => planned.0 is None && final(broker).waiting() == old(broker).waiting(),
                }
            } else {
                let deadline = match old(self).anchored() {
                    Some(deadline) => deadline,
                    None => fresh,
                };
                &&& planned.1 == (ApprovalWaitAction::AwaitAnswerEligibilityOrDeadline { deadline })
                &&& final(self).anchored() == Some(deadline)
                &&& deadline_event(
                    *old(broker),
                    old(self).id_text(),
                    deadline.unix_ms,
                    false,
                    planned.0,
                )
                &&& deadline_recorded(
                    *old(broker),
                    *final(broker),
                    old(self).id(),
                    deadline.unix_ms,
                    false,
                )
            },
    {
        if broker.timeout().is_none() {
            return (None, ApprovalWaitAction::AwaitAnswer);
        }
        if broker.has_eligible_client(self.approval_id.as_str()) {
            let event = match self.deadline {
                Some(deadline) => self.tell_deadline(broker, deadline.unix_ms, true),
                None => None,
            };
            return (event, ApprovalWaitAction::AwaitAnswerOrEligibility);
        }
        let deadline = match self.deadline {
            Some(deadline) => deadline,
            None => fresh,
        };
        self.deadline = Some(deadline);
        let event = self.tell_deadline(broker, deadline.unix_ms, false);
        (event, ApprovalWaitAction::AwaitAnswerEligibilityOrDeadline { deadline })
    }

    fn tell_deadline(&self, broker: &mut ApprovalBroker, deadline_unix_ms: u64, paused: bool) -> (
        event: Option<SessionEvent>)
        requires
            old(broker).well_formed(),
        ensures
            final(broker).well_formed(),
            final(broker).undelivered() == old(broker).undelivered(),
            final(broker).newest() == old(broker).newest(),
            final(broker).settings() == old(broker).settings(),
            deadline_event(*old(broker), self.id_text(), deadline_unix_ms, paused, event),
            deadline_recorded(*old(broker), *final(broker), self.id(), deadline_unix_ms, paused),
    {
        let changed = broker.update_deadline(self.approval_id.as_str(), deadline_unix_ms, paused);
        if changed {
            Some(
                SessionEvent::ApprovalDeadlineChanged {
                    approval_id: self.approval_id.clone(),
                    ineligible_deadline_unix_ms: deadline_unix_ms,
                    paused,
                },
            )
        } else {
            None
        }
    }

    /// Lets the deadline pass: the approval is denied unless an answer came first.
    pub fn lapse(&self, broker: &mut ApprovalBroker) -> (lapsed: LapsedApproval)
        requires
            old(broker).well_formed(),
        ensures
            final(broker).well_formed(),
            final(broker).newest() == old(broker).newest(),
            final(broker).settings() == old(broker).settings(),
            match lapsed {
                LapsedApproval::Resolved(resolution) => resolved(
                    *old(broker),
                    *final(broker),
                    self.id(),
                    "approval_timeout"@,
                    seq![ClientCapability::ApproveOnce],
                    ApprovalDecision::Deny,
                    Ok(resolution),
                ),
                LapsedApproval::KeepWaiting => resolved(
                    *old(broker),
                    *final(broker),
                    self.id(),
                    "approval_timeout"@,
                    seq![ClientCapability::ApproveOnce],
                    ApprovalDecision::Deny,
                    Err(ApprovalError::NotPending),
                ),
                LapsedApproval::Failed(error) => error matches ApprovalRequestError::Broker(error)
                    && error != ApprovalError::NotPending && resolved(
                    *old(broker),
                    *final(broker),
                    self.id(),
                    "approval_timeout"@,
                    seq![ClientCapability::ApproveOnce],
                    ApprovalDecision::Deny,
                    Err(error),
                ),
            },
    {
        let capabilities = vec![ClientCapability::ApproveOnce];
        assert(capabilities@ =~= seq![ClientCapability::ApproveOnce]);
        match broker.resolve(
            self.approval_id.as_str(),
            "approval_timeout",
            capabilities.as_slice(),
            ApprovalDecision::Deny,
        ) {
            Ok(resolution) => LapsedApproval::Resolved(resolution),
            Err(ApprovalError::NotPending) => LapsedApproval::KeepWaiting,
            Err(error) => LapsedApproval::Failed(ApprovalRequestError::Broker(error)),
        }
    }

    /// Ends the wait with an answer: the events to emit, in order. The
    /// resolution is told only if nobody told of it before.
    pub fn finish(self, broker: &mut ApprovalBroker) -> (events: (
        Option<SessionEvent>,
        SessionEvent,
    ))
        requires
            old(broker).well_formed(),
        ensures
            final(broker).well_formed(),
            final(broker).waiting() == old(broker).waiting(),
            final(broker).newest() == old(broker).newest(),
            final(broker).settings() == old(broker).settings(),
            !is_unemitted(final(broker).undelivered(), self.id()),
            events.1 == status_event(TurnStatus::Running),
            match events.0 {
                Some(event) => exists|at: int|
                    {
                        &&& 0 <= at < old(broker).undelivered().len()
                        &&& (#[trigger] old(broker).undelivered()[at]).resolution.approval_id@
                            == self.id()
                        &&& event == resolution_event(old(broker).undelivered()[at].resolution)
                        &&& final(broker).undelivered() == old(broker).undelivered().remove(at)
                    },
                None => !is_unemitted(old(broker).undelivered(), self.id())
                    && final(broker).undelivered() == old(broker).undelivered(),
            },
    {
        let told = match broker.take_unemitted(self.approval_id.as_str()) {
            Some(resolution) => Some(resolution_to_event(resolution)),
            None => None,
        };
        (told, SessionEvent::TurnStatusChanged { status: TurnStatus::Running })
    }

    /// Ends the wait without an answer because the broker is gone.
    pub fn broker_closed(self) -> (closed: (SessionEvent, ApprovalRequestError))
        ensures
            closed == (status_event(TurnStatus::Running), ApprovalRequestError::BrokerClosed),
    {
        (
            SessionEvent::TurnStatusChanged { status: TurnStatus::Running },
            ApprovalRequestError::BrokerClosed,
        )
    }
}

} // verus!
