//! Approvals: who may answer them, which answer counts, and how long they wait.
use vstd::prelude::*;
use vstd::string::*;
use crate::session_core::event_router::SessionEventError;
use crate::session_protocol::{has_capability, ApprovalDecision, ApprovalRequest, ClientCapability};
use crate::text::{
    chars_of, decimal, decimal_string, has_prefix, lemma_decimal_reads_back, lemma_text_less_total,
    lemma_text_less_transitive, parse_u64, parsed_u64, starts_with, str_eq, str_less, string_of,
    text_less,
};

verus! {

broadcast use vstd::string::group_string_axioms;

#[derive(Debug, PartialEq, Eq)]
pub struct ApprovalResolution {
    pub approval_id: String,
    pub tool: String,
    pub decision: ApprovalDecision,
    pub resolved_by: String,
}

impl Clone for ApprovalResolution {
    fn clone(&self) -> (copy: Self)
        ensures
            copy == *self,
    {
        ApprovalResolution {
            approval_id: self.approval_id.clone(),
            tool: self.tool.clone(),
            decision: self.decision,
            resolved_by: self.resolved_by.clone(),
        }
    }
}

#[derive(Debug, Clone, Copy, PartialEq, Eq, Structural)]
pub enum ApprovalError {
    NotPending,
    AlreadyResolved,
    MissingCapability(ClientCapability),
    AllowAlwaysUnavailable,
    IdExhausted,
}

#[derive(Debug, Clone, Copy, PartialEq, Eq, Structural)]
pub enum ApprovalRequestError {
    Broker(ApprovalError),
    Event(SessionEventError),
    BrokerClosed,
}

/// The wire id of the approval with a given number.
pub open spec fn approval_text(number: nat) -> Seq<char> {
    "approval-"@ + decimal(number)
}

/// The number that a wire id stands for; the largest one where it stands for none.
pub open spec fn approval_number(id: Seq<char>) -> u64 {
    if starts_with(id, "approval-"@) {
        match parsed_u64(id.skip(9)) {
            Some(number) => number,
            None => u64::MAX,
        }
    } else {
        u64::MAX
    }
}

pub fn approval_sequence(approval_id: &str) -> (number: u64)
    ensures
        number == approval_number(approval_id@),
{
    proof {
        reveal_strlit("approval-");
    }
    let chars = chars_of(approval_id);
    if !has_prefix(chars.as_slice(), "approval-") {
        return u64::MAX;
    }
    let digits = string_of(chars.as_slice(), 9, chars.len());
    assert(digits@ =~= approval_id@.skip(9));
    match parse_u64(digits.as_str()) {
        Some(number) => number,
        None => u64::MAX,
    }
}

/// A wire id reads back as the number it was made from, so no two numbers share an id.
pub proof fn law_approval_ids_are_unambiguous(number: u64)
    ensures
        approval_number(approval_text(number as nat)) == number,
{
    reveal_strlit("approval-");
    let id = approval_text(number as nat);
    assert(id.subrange(0, 9) =~= "approval-"@);
    assert(id.skip(9) =~= decimal(number as nat));
    lemma_decimal_reads_back(number);
}

/// An approval that waits for an answer.
#[derive(Debug, PartialEq, Eq)]
pub struct PendingApproval {
    pub number: u64,
    pub request: ApprovalRequest,
}

/// A resolution whose canonical event is still to be emitted. The waiting
/// prompt and cancellation race to take it, so that it is emitted exactly once.
#[derive(Debug, PartialEq, Eq)]
pub struct UnemittedResolution {
    pub number: u64,
    pub resolution: ApprovalResolution,
}

/// Pending approvals stand in the order of their numbers, under their ids.
pub open spec fn pending_ordered(pending: Seq<PendingApproval>, last: u64) -> bool {
    &&& forall|i: int|
        0 <= i < pending.len() ==> 1 <= (#[trigger] pending[i]).number <= last
            && pending[i].request.id@ == approval_text(pending[i].number as nat)
    &&& forall|i: int, j: int|
        0 <= i < j < pending.len() ==> (#[trigger] pending[i]).number < (
        #[trigger] pending[j]).number
}

pub open spec fn unemitted_ordered(unemitted: Seq<UnemittedResolution>, last: u64) -> bool {
    &&& forall|i: int|
        0 <= i < unemitted.len() ==> 1 <= (#[trigger] unemitted[i]).number <= last
            && unemitted[i].resolution.approval_id@ == approval_text(unemitted[i].number as nat)
    &&& forall|i: int, j: int|
        0 <= i < j < unemitted.len() ==> (#[trigger] unemitted[i]).number < (
        #[trigger] unemitted[j]).number
}

/// Whether an approval with the id waits for an answer.
pub open spec fn is_pending(pending: Seq<PendingApproval>, id: Seq<char>) -> bool {
    exists|i: int| 0 <= i < pending.len() && (#[trigger] pending[i]).request.id@ == id
}

/// Whether a resolution with the id is still to be emitted.
pub open spec fn is_unemitted(unemitted: Seq<UnemittedResolution>, id: Seq<char>) -> bool {
    exists|i: int| 0 <= i < unemitted.len() && (#[trigger] unemitted[i]).resolution.approval_id@
        == id
}

proof fn lemma_distinct_ids(a: u64, b: u64)
    requires
        approval_text(a as nat) == approval_text(b as nat),
    ensures
        a == b,
{
    law_approval_ids_are_unambiguous(a);
    law_approval_ids_are_unambiguous(b);
}

/// What a decision takes to be given.
pub open spec fn required_capability(decision: ApprovalDecision) -> ClientCapability {
    match decision {
        ApprovalDecision::AllowAlways => ClientCapability::ApproveAlways,
        ApprovalDecision::AllowOnce | ApprovalDecision::Deny => ClientCapability::ApproveOnce,
    }
}

#[derive(Debug, PartialEq, Eq)]
pub struct ApprovalBroker {
    pending: Vec<PendingApproval>,
    unemitted: Vec<UnemittedResolution>,
    last_number: u64,
    allow_always: bool,
    timeout: Option<u128>,
    approve_once_clients: usize,
    approve_always_clients: usize,
}

/// The settings and counts of a broker that resolving does not change.
pub struct BrokerSettings {
    pub allow_always: bool,
    pub timeout: Option<u128>,
    pub approve_once_clients: usize,
    pub approve_always_clients: usize,
}

impl ApprovalBroker {
    pub closed spec fn waiting(self) -> Seq<PendingApproval> {
        self.pending@
    }

    pub closed spec fn undelivered(self) -> Seq<UnemittedResolution> {
        self.unemitted@
    }

    /// The number of the newest approval.
    pub closed spec fn newest(self) -> u64 {
        self.last_number
    }

    pub closed spec fn settings(self) -> BrokerSettings {
        BrokerSettings {
            allow_always: self.allow_always,
            timeout: self.timeout,
            approve_once_clients: self.approve_once_clients,
            approve_always_clients: self.approve_always_clients,
        }
    }

    pub open spec fn well_formed(self) -> bool {
        &&& pending_ordered(self.waiting(), self.newest())
        &&& unemitted_ordered(self.undelivered(), self.newest())
        &&& forall|i: int, j: int|
            0 <= i < self.waiting().len() && 0 <= j < self.undelivered().len() ==> (
            #[trigger] self.waiting()[i]).number != (#[trigger] self.undelivered()[j]).number
        &&& forall|i: int|
            0 <= i < self.waiting().len() && (
            #[trigger] self.waiting()[i]).request.allow_always_available
                ==> self.settings().allow_always
    }

    pub fn new(allow_always: bool) -> (broker: Self)
        ensures
            broker.well_formed(),
            broker.waiting().len() == 0,
            broker.undelivered().len() == 0,
            broker.newest() == 0,
            broker.settings() == (BrokerSettings {
                allow_always,
                timeout: None,
                approve_once_clients: 0,
                approve_always_clients: 0,
            }),
    {
        ApprovalBroker {
            pending: Vec::new(),
            unemitted: Vec::new(),
            last_number: 0,
            allow_always,
            timeout: None,
            approve_once_clients: 0,
            approve_always_clients: 0,
        }
    }

    /// A broker whose approvals lapse after `timeout` nanoseconds without a capable client.
    pub fn new_with_timeout(allow_always: bool, timeout: u128) -> (broker: Self)
        ensures
            broker.well_formed(),
            broker.waiting().len() == 0,
            broker.undelivered().len() == 0,
            broker.newest() == 0,
            broker.settings() == (BrokerSettings {
                allow_always,
                timeout: Some(timeout),
                approve_once_clients: 0,
                approve_always_clients: 0,
            }),
    {
        ApprovalBroker {
            pending: Vec::new(),
            unemitted: Vec::new(),
            last_number: 0,
            allow_always,
            timeout: Some(timeout),
            approve_once_clients: 0,
            approve_always_clients: 0,
        }
    }

    pub fn timeout(&self) -> (timeout: Option<u128>)
        ensures
            timeout == self.settings().timeout,
    {
        self.timeout
    }

    pub fn set_eligible_client_counts(&mut self, approve_once: usize, approve_always: usize)
        ensures
            final(self).waiting() == old(self).waiting(),
            final(self).undelivered() == old(self).undelivered(),
            final(self).newest() == old(self).newest(),
            final(self).settings() == (BrokerSettings {
                approve_once_clients: approve_once,
                approve_always_clients: approve_always,
                ..old(self).settings()
            }),
    {
        self.approve_once_clients = approve_once;
        self.approve_always_clients = approve_always;
    }

    /// At most one approval waits under an id.
    pub proof fn lemma_one_place(&self, id: Seq<char>)
        requires
            self.well_formed(),
        ensures
            forall|i: int, j: int|
                0 <= i < self.waiting().len() && 0 <= j < self.waiting().len() && (
                #[trigger] self.waiting()[i]).request.id@ == id && (
                #[trigger] self.waiting()[j]).request.id@ == id ==> i == j,
    {
        assert forall|i: int, j: int|
            0 <= i < self.waiting().len() && 0 <= j < self.waiting().len() && (
            #[trigger] self.waiting()[i]).request.id@ == id && (
            #[trigger] self.waiting()[j]).request.id@ == id implies i == j by {
            lemma_distinct_ids(self.waiting()[i].number, self.waiting()[j].number);
        }
    }

    /// At most one resolution is to be emitted under an id.
    pub proof fn lemma_one_undelivered(&self, id: Seq<char>)
        requires
            self.well_formed(),
        ensures
            forall|i: int, j: int|
                0 <= i < self.undelivered().len() && 0 <= j < self.undelivered().len() && (
                #[trigger] self.undelivered()[i]).resolution.approval_id@ == id && (
                #[trigger] self.undelivered()[j]).resolution.approval_id@ == id ==> i == j,
    {
        assert forall|i: int, j: int|
            0 <= i < self.undelivered().len() && 0 <= j < self.undelivered().len() && (
            #[trigger] self.undelivered()[i]).resolution.approval_id@ == id && (
            #[trigger] self.undelivered()[j]).resolution.approval_id@ == id implies i == j by {
            lemma_distinct_ids(self.undelivered()[i].number, self.undelivered()[j].number);
        }
    }

    fn place(&self, approval_id: &str) -> (place: Option<usize>)
        requires
            self.well_formed(),
        ensures
            match place {
                Some(at) => at < self.pending@.len() && self.pending@[at as int].request.id@
                    == approval_id@ && (forall|i: int|
                    0 <= i < self.pending@.len() && (#[trigger] self.pending@[i]).request.id@
                        == approval_id@ ==> i == at),
                None => !is_pending(self.pending@, approval_id@),
            },
    {
        let mut i: usize = 0;
        while i < self.pending.len()
            invariant
                i <= self.pending@.len(),
                self.well_formed(),
                forall|j: int|
                    0 <= j < i ==> (#[trigger] self.pending@[j]).request.id@ != approval_id@,
            decreases self.pending@.len() - i,
        {
            if str_eq(self.pending[i].request.id.as_str(), approval_id) {
                proof {
                    assert forall|j: int|
                        0 <= j < self.pending@.len() && (#[trigger] self.pending@[j]).request.id@
                            == approval_id@ implies j == i by {
                        assert(self.waiting()[j].request.id@ == approval_text(
                            self.waiting()[j].number as nat,
                        ));
                        assert(self.waiting()[i as int].request.id@ == approval_text(
                            self.waiting()[i as int].number as nat,
                        ));
                        lemma_distinct_ids(
                            self.waiting()[j].number,
                            self.waiting()[i as int].number,
                        );
                    }
                }
                return Some(i);
            }
            i = i + 1;
        }
        None
    }

    /// Whether a client that could answer the approval is attached.
    pub fn has_eligible_client(&self, approval_id: &str) -> (eligible: bool)
        requires
            self.well_formed(),
        ensures
            !is_pending(self.waiting(), approval_id@) ==> !eligible,
            forall|i: int|
                0 <= i < self.waiting().len() && (#[trigger] self.waiting()[i]).request.id@
                    == approval_id@ ==> eligible == can_be_answered(
                    self.settings(),
                    self.waiting()[i].request,
                ),
    {
        match self.place(approval_id) {
            Some(at) => self.approve_once_clients > 0
                || self.pending[at].request.allow_always_available && self.approve_always_clients
                > 0,
            None => false,
        }
    }

    /// Register one approval using a broker-generated, session-local monotonic
    /// id. Callers never choose ids, so a late response cannot collide with a
    /// newer request during this broker's lifetime.
    pub fn register(&mut self, request: ApprovalRequest) -> (result: Result<
        ApprovalRequest,
        ApprovalError,
    >)
        requires
            old(self).well_formed(),
        ensures
            final(self).well_formed(),
            final(self).undelivered() == old(self).undelivered(),
            final(self).settings() == old(self).settings(),
            match result {
                Ok(registered) => {
                    &&& old(self).newest() < u64::MAX
                    &&& final(self).newest() == old(self).newest() + 1
                    &&& registered.id@ == approval_text((old(self).newest() + 1) as nat)
                    &&& registered == (ApprovalRequest {
                        id: registered.id,
                        allow_always_available: request.allow_always_available
                            && old(self).settings().allow_always,
                        ..request
                    })
                    &&& final(self).waiting() == old(self).waiting().push(
                        PendingApproval { number: final(self).newest(), request: registered },
                    )
                    &&& !is_pending(old(self).waiting(), registered.id@)
                    &&& !is_unemitted(old(self).undelivered(), registered.id@)
                },
                Err(error) => {
                    &&& error == ApprovalError::IdExhausted
                    &&& old(self).newest() == u64::MAX
                    &&& final(self).newest() == old(self).newest()
                    &&& final(self).waiting() == old(self).waiting()
                },
            },
    {
        if self.last_number == u64::MAX {
            return Err(ApprovalError::IdExhausted);
        }
        let number: u64 = self.last_number + 1;
        let mut id = "approval-".to_owned();
        id.append(decimal_string(number).as_str());
        let mut request = request;
        request.id = id;
        request.allow_always_available = request.allow_always_available && self.allow_always;
        let registered = request.clone();
        proof {
            assert forall|i: int| 0 <= i < old(self).waiting().len() implies (
            #[trigger] old(self).waiting()[i]).request.id@ != registered.id@ by {
                if old(self).waiting()[i].request.id@ == registered.id@ {
                    lemma_distinct_ids(old(self).waiting()[i].number, number);
                }
            }
            assert forall|i: int| 0 <= i < old(self).undelivered().len() implies (
            #[trigger] old(self).undelivered()[i]).resolution.approval_id@ != registered.id@ by {
                if old(self).undelivered()[i].resolution.approval_id@ == registered.id@ {
                    lemma_distinct_ids(old(self).undelivered()[i].number, number);
                }
            }
        }
        self.last_number = number;
        self.pending.push(PendingApproval { number, request });
        Ok(registered)
    }

    /// The approvals that wait for an answer, by id.
    pub fn pending(&self) -> (pending: Vec<ApprovalRequest>)
        requires
            self.well_formed(),
        ensures
            pending@.len() == self.waiting().len(),
            ids_ascend(pending@),
            forall|i: int|
                0 <= i < self.waiting().len() ==> pending@.contains(
                    (#[trigger] self.waiting()[i]).request,
                ),
    {
        let mut sorted: Vec<ApprovalRequest> = Vec::new();
        let mut i: usize = 0;
        while i < self.pending.len()
            invariant
                i <= self.pending@.len(),
                self.well_formed(),
                self.waiting() == self.pending@,
                sorted@.len() == i,
                ids_ascend(sorted@),
                forall|j: int|
                    0 <= j < sorted@.len() ==> comes_from(
                        #[trigger] sorted@[j],
                        self.waiting().take(i as int),
                    ),
                forall|j: int|
                    0 <= j < i ==> sorted@.contains((#[trigger] self.waiting()[j]).request),
            decreases self.pending@.len() - i,
        {
            let request = self.pending[i].request.clone();
            let ghost before = sorted@;
            proof {
                self.lemma_unlisted(before, i as int);
            }
            insert_by_id(&mut sorted, request);
            proof {
                let at = choose|at: int|
                    0 <= at <= before.len() && sorted@ == #[trigger] before.insert(at, request);
                assert forall|j: int| 0 <= j < i + 1 implies sorted@.contains(
                    (#[trigger] self.waiting()[j]).request,
                ) by {
                    if j == i {
                        assert(sorted@[at] == request);
                    } else {
                        let k = choose|k: int|
                            0 <= k < before.len() && before[k] == self.waiting()[j].request;
                        assert(sorted@[if k < at { k } else { k + 1 }] == before[k]);
                    }
                }
                assert forall|j: int| 0 <= j < sorted@.len() implies comes_from(
                    #[trigger] sorted@[j],
                    self.waiting().take(i + 1),
                ) by {
                    let more = self.waiting().take(i + 1);
                    if j == at {
                        assert(more[i as int].request == sorted@[j]);
                    } else {
                        let o = if j < at {
                            j
                        } else {
                            j - 1
                        };
                        assert(sorted@[j] == before[o]);
                        let fewer = self.waiting().take(i as int);
                        let k = choose|k: int|
                            0 <= k < fewer.len() && (#[trigger] fewer[k]).request == before[o];
                        assert(more[k].request == sorted@[j]);
                    }
                }
            }
            i = i + 1;
        }
        sorted
    }

    proof fn lemma_unlisted(&self, listed: Seq<ApprovalRequest>, at: int)
        requires
            self.well_formed(),
            0 <= at < self.waiting().len(),
            forall|j: int|
                0 <= j < listed.len() ==> comes_from(
                    #[trigger] listed[j],
                    self.waiting().take(at),
                ),
        ensures
            forall|j: int|
                0 <= j < listed.len() ==> (#[trigger] listed[j]).id@
                    != self.waiting()[at].request.id@,
    {
        assert forall|j: int| 0 <= j < listed.len() implies (#[trigger] listed[j]).id@
            != self.waiting()[at].request.id@ by {
            let earlier = self.waiting().take(at);
            let k = choose|k: int|
                0 <= k < earlier.len() && (#[trigger] earlier[k]).request == listed[j];
            assert(earlier[k] == self.waiting()[k]);
            assert(self.waiting()[k].number < self.waiting()[at].number);
            if listed[j].id@ == self.waiting()[at].request.id@ {
                lemma_distinct_ids(self.waiting()[k].number, self.waiting()[at].number);
            }
        }
    }

    /// Records when a pending approval lapses and whether that is paused;
    /// reports whether anything changed.
    pub fn update_deadline(&mut self, approval_id: &str, deadline_unix_ms: u64, paused: bool) -> (
        changed: bool)
        requires
            old(self).well_formed(),
        ensures
            final(self).well_formed(),
            final(self).undelivered() == old(self).undelivered(),
            final(self).newest() == old(self).newest(),
            final(self).settings() == old(self).settings(),
            !is_pending(old(self).waiting(), approval_id@) ==> !changed && final(self).waiting()
                == old(self).waiting(),
            forall|i: int|
                0 <= i < old(self).waiting().len() && (
                #[trigger] old(self).waiting()[i]).request.id@ == approval_id@ ==> {
                    let request = old(self).waiting()[i].request;
                    &&& changed == (request.ineligible_deadline_unix_ms != Some(deadline_unix_ms)
                        || request.deadline_paused != paused)
                    &&& final(self).waiting() == old(self).waiting().update(
                        i,
                        PendingApproval {
                            request: ApprovalRequest {
                                ineligible_deadline_unix_ms: Some(deadline_unix_ms),
                                deadline_paused: paused,
                                ..request
                            },
                            ..old(self).waiting()[i]
                        },
                    )
                },
    {
        match self.place(approval_id) {
            None => false,
            Some(at) => {
                let ghost before = self.pending@;
                let same_deadline = match self.pending[at].request.ineligible_deadline_unix_ms {
                    Some(current) => current == deadline_unix_ms,
                    None => false,
                };
                let same_pause = self.pending[at].request.deadline_paused == paused;
                if same_deadline && same_pause {
                    assert(before =~= before.update(at as int, before[at as int]));
                    return false;
                }
                self.pending[at].request.ineligible_deadline_unix_ms = Some(deadline_unix_ms);
                self.pending[at].request.deadline_paused = paused;
                assert(self.pending@ =~= before.update(
                    at as int,
                    PendingApproval {
                        request: ApprovalRequest {
                            ineligible_deadline_unix_ms: Some(deadline_unix_ms),
                            deadline_paused: paused,
                            ..before[at as int].request
                        },
                        ..before[at as int]
                    },
                ));
                true
            },
        }
    }

    /// Answers an approval. The first answer counts; only a client with the
    /// right capability may give it.
    pub fn resolve(
        &mut self,
        approval_id: &str,
        resolved_by: &str,
        capabilities: &[ClientCapability],
        decision: ApprovalDecision,
    ) -> (result: Result<ApprovalResolution, ApprovalError>)
        requires
            old(self).well_formed(),
        ensures
            final(self).well_formed(),
            final(self).newest() == old(self).newest(),
            final(self).settings() == old(self).settings(),
            resolved(
                *old(self),
                *final(self),
                approval_id@,
                resolved_by@,
                capabilities@,
                decision,
                result,
            ),
    {
        let required = match decision {
            ApprovalDecision::AllowAlways => ClientCapability::ApproveAlways,
            ApprovalDecision::AllowOnce | ApprovalDecision::Deny => ClientCapability::ApproveOnce,
        };
        if !has_capability(capabilities, required) {
            return Err(ApprovalError::MissingCapability(required));
        }
        match self.place(approval_id) {
            None => {
                if approval_sequence(approval_id) <= self.last_number {
                    Err(ApprovalError::AlreadyResolved)
                } else {
                    Err(ApprovalError::NotPending)
                }
            },
            Some(at) => {
                if matches!(decision, ApprovalDecision::AllowAlways)
                    && !self.pending[at].request.allow_always_available {
                    return Err(ApprovalError::AllowAlwaysUnavailable);
                }
                let ghost before = self.pending@;
                let pending = self.pending.remove(at);
                assert(self.pending@ == before.remove(at as int));
                let resolution = ApprovalResolution {
                    approval_id: approval_id.to_owned(),
                    tool: pending.request.tool,
                    decision,
                    resolved_by: resolved_by.to_owned(),
                };
                self.keep_unemitted(pending.number, resolution.clone());
                Ok(resolution)
            },
        }
    }

    fn keep_unemitted(&mut self, number: u64, resolution: ApprovalResolution)
        requires
            pending_ordered(old(self).waiting(), old(self).newest()),
            unemitted_ordered(old(self).undelivered(), old(self).newest()),
            1 <= number <= old(self).newest(),
            resolution.approval_id@ == approval_text(number as nat),
            forall|j: int|
                0 <= j < old(self).undelivered().len() ==> (
                #[trigger] old(self).undelivered()[j]).number != number,
        ensures
            final(self).waiting() == old(self).waiting(),
            final(self).newest() == old(self).newest(),
            final(self).settings() == old(self).settings(),
            unemitted_ordered(final(self).undelivered(), final(self).newest()),
            exists|at: int|
                0 <= at <= old(self).undelivered().len() && final(self).undelivered()
                    == #[trigger] old(self).undelivered().insert(
                    at,
                    UnemittedResolution { number, resolution },
                ),
    {
        let mut at: usize = 0;
        while at < self.unemitted.len() && self.unemitted[at].number < number
            invariant
                at <= self.unemitted@.len(),
                *self == *old(self),
                forall|j: int| 0 <= j < at ==> (#[trigger] self.unemitted@[j]).number < number,
            decreases self.unemitted@.len() - at,
        {
            at = at + 1;
        }
        let ghost before = self.unemitted@;
        self.unemitted.insert(at, UnemittedResolution { number, resolution });
        proof {
            assert(self.unemitted@ == before.insert(
                at as int,
                UnemittedResolution { number, resolution },
            ));
            assert forall|j: int| at <= j < before.len() implies (#[trigger] before[j]).number
                > number by {
                assert(old(self).undelivered()[j].number != number);
                if j > at {
                    assert(old(self).undelivered()[at as int].number
                        < old(self).undelivered()[j].number);
                }
                assert(old(self).undelivered()[at as int].number != number);
            }
        }
    }

    /// Takes the resolution of an approval for emission, unless it was taken before.
    pub fn take_unemitted(&mut self, approval_id: &str) -> (taken: Option<ApprovalResolution>)
        requires
            old(self).well_formed(),
        ensures
            final(self).well_formed(),
            final(self).waiting() == old(self).waiting(),
            final(self).newest() == old(self).newest(),
            final(self).settings() == old(self).settings(),
            !is_unemitted(final(self).undelivered(), approval_id@),
            match taken {
                Some(resolution) => exists|at: int|
                    {
                        &&& 0 <= at < old(self).undelivered().len()
                        &&& (#[trigger] old(self).undelivered()[at]).resolution == resolution
                        &&& resolution.approval_id@ == approval_id@
                        &&& final(self).undelivered() == old(self).undelivered().remove(at)
                    },
                None => !is_unemitted(old(self).undelivered(), approval_id@)
                    && final(self).undelivered() == old(self).undelivered(),
            },
    {
        let mut i: usize = 0;
        while i < self.unemitted.len()
            invariant
                i <= self.unemitted@.len(),
                *self == *old(self),
                self.well_formed(),
                forall|j: int|
                    0 <= j < i ==> (#[trigger] self.unemitted@[j]).resolution.approval_id@
                        != approval_id@,
            decreases self.unemitted@.len() - i,
        {
            if str_eq(self.unemitted[i].resolution.approval_id.as_str(), approval_id) {
                let ghost before = self.unemitted@;
                let taken = self.unemitted.remove(i);
                proof {
                    assert(self.unemitted@ == before.remove(i as int));
                    assert(old(self).undelivered()[i as int] == taken);
                    assert forall|j: int| 0 <= j < self.unemitted@.len() implies (
                    #[trigger] self.unemitted@[j]).resolution.approval_id@ != approval_id@ by {
                        let o = if j < i {
                            j
                        } else {
                            j + 1
                        };
                        assert(self.unemitted@[j] == old(self).undelivered()[o]);
                        if old(self).undelivered()[o].resolution.approval_id@ == approval_id@ {
                            lemma_distinct_ids(
                                old(self).undelivered()[o].number,
                                old(self).undelivered()[i as int].number,
                            );
                        }
                    }
                }
                return Some(taken.resolution);
            }
            i = i + 1;
        }
        None
    }

    /// Denies every pending approval and hands out, in the order of their
    /// numbers, all resolutions whose event is still to be emitted.
    pub fn cancel_all(&mut self, resolved_by: &str) -> (resolutions: Vec<ApprovalResolution>)
        requires
            old(self).well_formed(),
        ensures
            final(self).well_formed(),
            final(self).waiting().len() == 0,
            final(self).undelivered().len() == 0,
            final(self).newest() == old(self).newest(),
            final(self).settings() == old(self).settings(),
            resolutions@.len() == old(self).waiting().len() + old(self).undelivered().len(),
            exists|numbers: Seq<u64>|
                #[trigger] drained(*old(self), resolved_by@, resolutions@, numbers),
    {
        let mut resolutions: Vec<ApprovalResolution> = Vec::new();
        let ghost mut numbers: Seq<u64> = Seq::empty();
        let mut waiting: Vec<PendingApproval> = Vec::new();
        std::mem::swap(&mut waiting, &mut self.pending);
        let mut unemitted: Vec<UnemittedResolution> = Vec::new();
        std::mem::swap(&mut unemitted, &mut self.unemitted);
        let mut i: usize = 0;
        let mut k: usize = 0;
        while i < waiting.len() || k < unemitted.len()
            invariant
                i <= waiting@.len(),
                k <= unemitted@.len(),
                waiting@ == old(self).waiting(),
                unemitted@ == old(self).undelivered(),
                old(self).well_formed(),
                self.pending@.len() == 0,
                self.unemitted@.len() == 0,
                self.last_number == old(self).last_number,
                self.settings() == old(self).settings(),
                resolutions@.len() == i + k,
                numbers.len() == i + k,
                forall|a: int, b: int|
                    0 <= a < b < numbers.len() ==> #[trigger] numbers[a] < #[trigger] numbers[b],
                forall|a: int|
                    0 <= a < numbers.len() ==> (i < waiting@.len() ==> #[trigger] numbers[a]
                        < waiting@[i as int].number) && (k < unemitted@.len() ==> numbers[a]
                        < unemitted@[k as int].number),
                forall|a: int|
                    0 <= a < numbers.len() ==> drained_one(
                        *old(self),
                        resolved_by@,
                        resolutions@[a],
                        #[trigger] numbers[a],
                    ),
                forall|a: int|
                    0 <= a < i ==> numbers.contains((#[trigger] old(self).waiting()[a]).number),
                forall|a: int|
                    0 <= a < k ==> numbers.contains((#[trigger] old(self).undelivered()[a]).number),
            decreases waiting@.len() - i + unemitted@.len() - k,
        {
            let ghost before = numbers;
            let from_waiting = if i < waiting.len() && k < unemitted.len() {
                waiting[i].number < unemitted[k].number
            } else {
                i < waiting.len()
            };
            if from_waiting {
                let resolution = ApprovalResolution {
                    approval_id: waiting[i].request.id.clone(),
                    tool: waiting[i].request.tool.clone(),
                    decision: ApprovalDecision::Deny,
                    resolved_by: resolved_by.to_owned(),
                };
                proof {
                    numbers = numbers.push(waiting@[i as int].number);
                    assert(numbers[before.len() as int] == waiting@[i as int].number);
                    assert(old(self).waiting()[i as int] == waiting@[i as int]);
                    assert(drained_one(
                        *old(self),
                        resolved_by@,
                        resolution,
                        waiting@[i as int].number,
                    ));
                }
                resolutions.push(resolution);
                i = i + 1;
            } else {
                let resolution = unemitted[k].resolution.clone();
                proof {
                    numbers = numbers.push(unemitted@[k as int].number);
                    assert(numbers[before.len() as int] == unemitted@[k as int].number);
                    assert(old(self).undelivered()[k as int] == unemitted@[k as int]);
                    assert(drained_one(
                        *old(self),
                        resolved_by@,
                        resolution,
                        unemitted@[k as int].number,
                    ));
                    if i < waiting@.len() {
                        assert(old(self).waiting()[i as int].number
                            != old(self).undelivered()[k as int].number);
                    }
                }
                resolutions.push(resolution);
                k = k + 1;
            }
            proof {
                assert forall|v: u64| before.contains(v) implies #[trigger] numbers.contains(v) by {
                    let a = choose|a: int| 0 <= a < before.len() && before[a] == v;
                    assert(numbers[a] == v);
                }
            }
        }
        assert(drained(*old(self), resolved_by@, resolutions@, numbers));
        resolutions
    }
}

/// Whether a request is that of one of the pending approvals.
pub open spec fn comes_from(request: ApprovalRequest, pending: Seq<PendingApproval>) -> bool {
    exists|k: int| 0 <= k < pending.len() && (#[trigger] pending[k]).request == request
}

/// Requests stand in the order of their ids, none twice.
pub open spec fn ids_ascend(requests: Seq<ApprovalRequest>) -> bool {
    forall|i: int, j: int|
        0 <= i < j < requests.len() ==> text_less(
            (#[trigger] requests[i]).id@,
            (#[trigger] requests[j]).id@,
        )
}

fn insert_by_id(sorted: &mut Vec<ApprovalRequest>, request: ApprovalRequest)
    requires
        ids_ascend(old(sorted)@),
        forall|j: int|
            0 <= j < old(sorted)@.len() ==> (#[trigger] old(sorted)@[j]).id@ != request.id@,
    ensures
        ids_ascend(final(sorted)@),
        exists|at: int|
            0 <= at <= old(sorted)@.len() && final(sorted)@ == #[trigger] old(sorted)@.insert(
                at,
                request,
            ),
{
    let mut at: usize = 0;
    while at < sorted.len() && str_less(sorted[at].id.as_str(), request.id.as_str())
        invariant
            at <= sorted@.len(),
            sorted@ == old(sorted)@,
            forall|j: int| 0 <= j < at ==> text_less((#[trigger] sorted@[j]).id@, request.id@),
        decreases sorted@.len() - at,
    {
        at = at + 1;
    }
    let ghost before = sorted@;
    proof {
        assert forall|j: int| at <= j < before.len() implies text_less(
            request.id@,
            (#[trigger] before[j]).id@,
        ) by {
            lemma_text_less_total(before[at as int].id@, request.id@);
            if j > at {
                lemma_text_less_transitive(request.id@, before[at as int].id@, before[j].id@);
            }
        }
    }
    sorted.insert(at, request);
    assert(sorted@ == before.insert(at as int, request));
}

/// Whether some attached client could answer a request.
pub open spec fn can_be_answered(settings: BrokerSettings, request: ApprovalRequest) -> bool {
    settings.approve_once_clients > 0 || request.allow_always_available
        && settings.approve_always_clients > 0
}

/// One resolution that a drain hands out: a denial of a pending approval, or one taken before.
pub open spec fn drained_one(
    before: ApprovalBroker,
    resolved_by: Seq<char>,
    resolution: ApprovalResolution,
    number: u64,
) -> bool {
    ||| exists|i: int|
        {
            &&& 0 <= i < before.waiting().len()
            &&& (#[trigger] before.waiting()[i]).number == number
            &&& resolution.approval_id@ == before.waiting()[i].request.id@
            &&& resolution.tool@ == before.waiting()[i].request.tool@
            &&& resolution.decision == ApprovalDecision::Deny
            &&& resolution.resolved_by@ == resolved_by
        }
    ||| exists|i: int|
        {
            &&& 0 <= i < before.undelivered().len()
            &&& (#[trigger] before.undelivered()[i]).number == number
            &&& resolution == before.undelivered()[i].resolution
        }
}

/// Everything that waited or was to be emitted, once, in the order of the numbers.
pub open spec fn drained(
    before: ApprovalBroker,
    resolved_by: Seq<char>,
    resolutions: Seq<ApprovalResolution>,
    numbers: Seq<u64>,
) -> bool {
    &&& numbers.len() == resolutions.len()
    &&& forall|i: int, j: int|
        0 <= i < j < numbers.len() ==> #[trigger] numbers[i] < #[trigger] numbers[j]
    &&& forall|i: int|
        0 <= i < numbers.len() ==> drained_one(
            before,
            resolved_by,
            resolutions[i],
            #[trigger] numbers[i],
        )
    &&& forall|i: int|
        0 <= i < before.waiting().len() ==> numbers.contains((#[trigger] before.waiting()[i]).number)
    &&& forall|i: int|
        0 <= i < before.undelivered().len() ==> numbers.contains(
            (#[trigger] before.undelivered()[i]).number,
        )
}

/// Why an answer is refused.
pub open spec fn resolve_error(
    broker: ApprovalBroker,
    id: Seq<char>,
    capabilities: Seq<ClientCapability>,
    decision: ApprovalDecision,
) -> Option<ApprovalError> {
    if !capabilities.contains(required_capability(decision)) {
        Some(ApprovalError::MissingCapability(required_capability(decision)))
    } else if !is_pending(broker.waiting(), id) {
        if approval_number(id) <= broker.newest() {
            Some(ApprovalError::AlreadyResolved)
        } else {
            Some(ApprovalError::NotPending)
        }
    } else if decision == ApprovalDecision::AllowAlways && !always_allowed(broker.waiting(), id) {
        Some(ApprovalError::AllowAlwaysUnavailable)
    } else {
        None
    }
}

/// Whether the pending approval may be answered for good.
pub open spec fn always_allowed(pending: Seq<PendingApproval>, id: Seq<char>) -> bool {
    exists|i: int|
        0 <= i < pending.len() && (#[trigger] pending[i]).request.id@ == id
            && pending[i].request.allow_always_available
}

/// The effect and the result of one answer.
pub open spec fn resolved(
    before: ApprovalBroker,
    after: ApprovalBroker,
    id: Seq<char>,
    resolved_by: Seq<char>,
    capabilities: Seq<ClientCapability>,
    decision: ApprovalDecision,
    result: Result<ApprovalResolution, ApprovalError>,
) -> bool {
    match result {
        Err(error) => {
            &&& resolve_error(before, id, capabilities, decision) == Some(error)
            &&& after.waiting() == before.waiting()
            &&& after.undelivered() == before.undelivered()
        },
        Ok(resolution) => {
            &&& resolve_error(before, id, capabilities, decision) is None
            &&& resolution.approval_id@ == id
            &&& resolution.decision == decision
            &&& resolution.resolved_by@ == resolved_by
            &&& !is_pending(after.waiting(), id)
            &&& exists|i: int, at: int|
                {
                    &&& 0 <= i < before.waiting().len()
                    &&& (#[trigger] before.waiting()[i]).request.id@ == id
                    &&& resolution.tool == before.waiting()[i].request.tool
                    &&& after.waiting() == before.waiting().remove(i)
                    &&& 0 <= at <= before.undelivered().len()
                    &&& after.undelivered() == #[trigger] before.undelivered().insert(
                        at,
                        UnemittedResolution { number: before.waiting()[i].number, resolution },
                    )
                }
        },
    }
}


/// The first answer counts: whoever answers again learns that the approval is resolved.
pub proof fn law_first_answer_counts(
    before: ApprovalBroker,
    after: ApprovalBroker,
    id: Seq<char>,
    resolved_by: Seq<char>,
    capabilities: Seq<ClientCapability>,
    decision: ApprovalDecision,
    resolution: ApprovalResolution,
    later_capabilities: Seq<ClientCapability>,
    later_decision: ApprovalDecision,
)
    requires
        before.well_formed(),
        after.newest() == before.newest(),
        resolved(before, after, id, resolved_by, capabilities, decision, Ok(resolution)),
        later_capabilities.contains(required_capability(later_decision)),
    ensures
        resolve_error(after, id, later_capabilities, later_decision) == Some(
            ApprovalError::AlreadyResolved,
        ),
{
    let i = choose|i: int, at: int|
        {
            &&& 0 <= i < before.waiting().len()
            &&& (#[trigger] before.waiting()[i]).request.id@ == id
            &&& resolution.tool == before.waiting()[i].request.tool
            &&& after.waiting() == before.waiting().remove(i)
            &&& 0 <= at <= before.undelivered().len()
            &&& after.undelivered() == #[trigger] before.undelivered().insert(
                at,
                UnemittedResolution { number: before.waiting()[i].number, resolution },
            )
        };
    law_approval_ids_are_unambiguous(before.waiting()[i.0].number);
}

/// An approval for good takes three consents: the host's policy, the request, and a
/// client that may give it.
pub proof fn law_always_takes_every_consent(
    before: ApprovalBroker,
    after: ApprovalBroker,
    id: Seq<char>,
    resolved_by: Seq<char>,
    capabilities: Seq<ClientCapability>,
    resolution: ApprovalResolution,
)
    requires
        before.well_formed(),
        resolved(
            before,
            after,
            id,
            resolved_by,
            capabilities,
            ApprovalDecision::AllowAlways,
            Ok(resolution),
        ),
    ensures
        before.settings().allow_always,
        always_allowed(before.waiting(), id),
        capabilities.contains(ClientCapability::ApproveAlways),
{
}

} // verus!
