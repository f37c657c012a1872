//! Ownership of one session's active turn.
use vstd::prelude::*;
use crate::session_protocol::TurnStatus;

verus! {

#[derive(Debug, Clone, Copy, PartialEq, Eq, Structural)]
pub enum TurnError {
    Busy,
}

impl TurnError {
    pub fn message(&self) -> (text: &'static str)
        ensures
            text@ == "session is busy"@,
    {
        "session is busy"
    }
}

/// How a turn ended, decided once: exactly one of completion and cancellation
/// wins the transition out of `Live`. Otherwise a cancel that arrives between
/// the end of the work and the end of the turn could relabel a finished turn.
#[derive(Debug, Clone, Copy, PartialEq, Eq, Structural)]
pub enum TurnClaim {
    Live,
    Completed,
    Cancelled,
}

/// The permit of the turn that runs; `TurnController::end` takes it back.
#[derive(Debug, PartialEq, Eq)]
pub struct ActiveTurn {
    id: u64,
}

impl ActiveTurn {
    pub closed spec fn number(self) -> u64 {
        self.id
    }
}

/// What a request to cancel came to.
#[derive(Debug, Clone, Copy, PartialEq, Eq, Structural)]
pub enum TurnCancel {
    /// No turn runs, or it has already completed.
    Refused,
    /// The turn is cancelled by this request: `Cancelling` is announced before
    /// the turn is notified, so that it cannot follow the turn's end.
    First,
    /// The turn was cancelled before; it is only notified again.
    Repeated,
}

/// A claim as completion leaves it.
pub open spec fn after_complete(claim: TurnClaim) -> TurnClaim {
    if claim == TurnClaim::Live {
        TurnClaim::Completed
    } else {
        claim
    }
}

/// A claim as a request to cancel leaves it.
pub open spec fn after_cancel(claim: TurnClaim) -> TurnClaim {
    if claim == TurnClaim::Live {
        TurnClaim::Cancelled
    } else {
        claim
    }
}

/// Transport-independent ownership for one session's active turn. A second
/// prompt cannot replace the first turn's cancellation route.
#[derive(Debug, PartialEq, Eq)]
pub struct TurnController {
    active: Option<(u64, TurnClaim)>,
    last_id: u64,
}

impl TurnController {
    /// The claim on the turn that runs, if one does.
    pub closed spec fn claim(self) -> Option<TurnClaim> {
        match self.active {
            Some((_, claim)) => Some(claim),
            None => None,
        }
    }

    /// Whether the permit is that of the turn that runs.
    pub closed spec fn owns(self, turn: ActiveTurn) -> bool {
        self.active matches Some((id, _)) && id == turn.id
    }

    pub fn new() -> (controller: Self)
        ensures
            controller.claim() is None,
    {
        TurnController { active: None, last_id: 0 }
    }

    pub fn begin(&mut self) -> (result: Result<ActiveTurn, TurnError>)
        ensures
            match result {
                Ok(turn) => {
                    &&& old(self).claim() is None
                    &&& final(self).claim() == Some(TurnClaim::Live)
                    &&& final(self).owns(turn)
                    &&& forall|other: ActiveTurn|
                        final(self).owns(other) ==> other.number() == turn.number()
                },
                Err(error) => {
                    &&& error == TurnError::Busy
                    &&& old(self).claim() is Some
                    &&& *final(self) == *old(self)
                },
            },
    {
        if self.active.is_some() {
            return Err(TurnError::Busy);
        }
        self.last_id = self.last_id.wrapping_add(1);
        self.active = Some((self.last_id, TurnClaim::Live));
        Ok(ActiveTurn { id: self.last_id })
    }

    /// Claims cancellation of the turn that runs. One that already completed
    /// refuses.
    pub fn request_cancel(&mut self) -> (outcome: TurnCancel)
        ensures
            outcome == match old(self).claim() {
                None | Some(TurnClaim::Completed) => TurnCancel::Refused,
                Some(TurnClaim::Live) => TurnCancel::First,
                Some(TurnClaim::Cancelled) => TurnCancel::Repeated,
            },
            final(self).claim() == match old(self).claim() {
                Some(claim) => Some(after_cancel(claim)),
                None => None,
            },
            forall|turn: ActiveTurn| final(self).owns(turn) == old(self).owns(turn),
    {
        match self.active {
            None => TurnCancel::Refused,
            Some((_, TurnClaim::Completed)) => TurnCancel::Refused,
            Some((_, TurnClaim::Cancelled)) => TurnCancel::Repeated,
            Some((id, TurnClaim::Live)) => {
                self.active = Some((id, TurnClaim::Cancelled));
                TurnCancel::First
            },
        }
    }

    /// Cancels the turn that runs and tells whether it takes the request.
    pub fn cancel(&mut self) -> (accepted: bool)
        ensures
            accepted == match old(self).claim() {
                Some(claim) => after_cancel(claim) == TurnClaim::Cancelled,
                None => false,
            },
            final(self).claim() == match old(self).claim() {
                Some(claim) => Some(after_cancel(claim)),
                None => None,
            },
            forall|turn: ActiveTurn| final(self).owns(turn) == old(self).owns(turn),
    {
        !matches!(self.request_cancel(), TurnCancel::Refused)
    }

    /// Cancels the turn that runs; `before_signal` runs only for the request
    /// that decides, so that what it announces is announced once per turn. It
    /// need not be callable for any other request.
    pub fn cancel_with<F: FnOnce()>(&mut self, before_signal: F) -> (accepted: bool)
        requires
            old(self).claim() == Some(TurnClaim::Live) ==> before_signal.requires(()),
        ensures
            accepted == match old(self).claim() {
                Some(claim) => after_cancel(claim) == TurnClaim::Cancelled,
                None => false,
            },
            final(self).claim() == match old(self).claim() {
                Some(claim) => Some(after_cancel(claim)),
                None => None,
            },
            forall|turn: ActiveTurn| final(self).owns(turn) == old(self).owns(turn),
            old(self).claim() == Some(TurnClaim::Live) ==> before_signal.ensures((), ()),
    {
        match self.request_cancel() {
            TurnCancel::Refused => false,
            TurnCancel::First => {
                before_signal();
                true
            },
            TurnCancel::Repeated => true,
        }
    }

    pub fn is_active(&self) -> (active: bool)
        ensures
            active == self.claim() is Some,
    {
        self.active.is_some()
    }

    /// Claims completion for a turn, so that a later cancel cannot relabel it.
    /// If cancellation claimed first, the turn stays cancelled.
    pub fn complete(&mut self, turn: &ActiveTurn)
        ensures
            final(self).claim() == match old(self).claim() {
                Some(claim) => Some(
                    if old(self).owns(*turn) {
                        after_complete(claim)
                    } else {
                        claim
                    },
                ),
                None => None,
            },
            forall|other: ActiveTurn| final(self).owns(other) == old(self).owns(other),
    {
        if let Some((id, TurnClaim::Live)) = self.active {
            if id == turn.id {
                self.active = Some((id, TurnClaim::Completed));
            }
        }
    }

    /// Whether the turn was cancelled.
    pub fn is_cancelled(&self, turn: &ActiveTurn) -> (cancelled: bool)
        ensures
            cancelled == (self.owns(*turn) && self.claim() == Some(TurnClaim::Cancelled)),
    {
        match self.active {
            Some((id, TurnClaim::Cancelled)) => id == turn.id,
            _ => false,
        }
    }

    /// Ends a turn and tells which terminal status it announces.
    pub fn end(&mut self, turn: ActiveTurn) -> (status: TurnStatus)
        ensures
            status == if old(self).owns(turn) && old(self).claim() == Some(TurnClaim::Cancelled) {
                TurnStatus::Cancelled
            } else {
                TurnStatus::Idle
            },
            final(self).claim() == if old(self).owns(turn) {
                None
            } else {
                old(self).claim()
            },
            forall|other: ActiveTurn|
                final(self).owns(other) == (old(self).owns(other) && !old(self).owns(turn)),
    {
        let status = if self.is_cancelled(&turn) {
            TurnStatus::Cancelled
        } else {
            TurnStatus::Idle
        };
        if let Some((id, _)) = self.active {
            if id == turn.id {
                self.active = None;
            }
        }
        status
    }
}

/// The first of completion and cancellation decides how a turn ends, however
/// often either is claimed afterwards.
pub proof fn law_first_claim_decides(claim: TurnClaim)
    requires
        claim == TurnClaim::Live,
    ensures
        after_cancel(after_complete(claim)) == TurnClaim::Completed,
        after_complete(after_cancel(claim)) == TurnClaim::Cancelled,
        after_cancel(after_cancel(claim)) == after_cancel(claim),
        after_complete(after_complete(claim)) == after_complete(claim),
{
}

} // verus!
