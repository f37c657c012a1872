//! The snapshot that a daemon keeps of each session, and how events change it.
use vstd::prelude::*;
use vstd::string::*;
use crate::session_core::event_router::SessionEventRouter;
use crate::session_protocol::{
    same_event, same_options, ApprovalRequest, AssistantOutcome, ContextUsage, RuntimeOption,
    SessionEvent, SessionSnapshot, ToolCallState, ToolCallStateStatus, TranscriptEntry,
    TranscriptRole, TurnStatus,
};

verus! {

broadcast use vstd::string::group_string_axioms;

/// The newest entries of a list, as many as it may hold.
pub open spec fn newest<T>(entries: Seq<T>, max_entries: nat) -> Seq<T> {
    if entries.len() > max_entries {
        entries.skip(entries.len() - max_entries)
    } else {
        entries
    }
}

/// Drops the oldest entries over a bound and says whether any were dropped.
pub fn trim_oldest<T>(entries: &mut Vec<T>, max_entries: usize) -> (trimmed: bool)
    ensures
        final(entries)@ == newest(old(entries)@, max_entries as nat),
        trimmed == (old(entries)@.len() > max_entries),
{
    if entries.len() > max_entries {
        let excess: usize = entries.len() - max_entries;
        let kept = entries.split_off(excess);
        *entries = kept;
        true
    } else {
        false
    }
}

/// Whether `at` is the first place in a list where something holds.
pub open spec fn first_at<T>(s: Seq<T>, p: spec_fn(T) -> bool, at: int) -> bool {
    &&& 0 <= at < s.len()
    &&& p(s[at])
    &&& forall|i: int| 0 <= i < at ==> !p(#[trigger] s[i])
}

/// The first place in a list where something holds.
pub open spec fn first_where<T>(s: Seq<T>, p: spec_fn(T) -> bool) -> Option<int> {
    if exists|at: int| first_at(s, p, at) {
        Some(choose|at: int| first_at(s, p, at))
    } else {
        None
    }
}

pub proof fn lemma_first_where<T>(s: Seq<T>, p: spec_fn(T) -> bool, at: int)
    requires
        first_at(s, p, at),
    ensures
        first_where(s, p) == Some(at),
{
    let chosen = choose|other: int| first_at(s, p, other);
    assert(first_at(s, p, chosen));
    if chosen < at {
        assert(!p(s[chosen]));
    }
    if at < chosen {
        assert(!p(s[at]));
    }
}

pub open spec fn call_named(id: Seq<char>) -> spec_fn(ToolCallState) -> bool {
    |call: ToolCallState| call.id@ == id
}

pub open spec fn approval_named(id: Seq<char>) -> spec_fn(ApprovalRequest) -> bool {
    |request: ApprovalRequest| request.id@ == id
}

pub open spec fn approval_other(id: Seq<char>) -> spec_fn(ApprovalRequest) -> bool {
    |request: ApprovalRequest| request.id@ != id
}

/// A transcript entry by its content.
pub struct EntryView {
    pub id: u64,
    pub role: TranscriptRole,
    pub text: Seq<char>,
    pub outcome: Option<AssistantOutcome>,
}

pub open spec fn entry_view(entry: TranscriptEntry) -> EntryView {
    EntryView { id: entry.id, role: entry.role, text: entry.text@, outcome: entry.outcome }
}

pub open spec fn entry_views(entries: Seq<TranscriptEntry>) -> Seq<EntryView> {
    entries.map_values(|entry: TranscriptEntry| entry_view(entry))
}

/// What a snapshot shows.
#[verifier::ext_equal]
pub struct SnapshotModel {
    pub session_id: Seq<char>,
    pub seq: u64,
    pub turn_status: TurnStatus,
    pub transcript: Seq<EntryView>,
    pub tool_calls: Seq<ToolCallState>,
    pub pending_approvals: Seq<ApprovalRequest>,
    pub runtime_options: Seq<RuntimeOption>,
    pub context_usage: Option<ContextUsage>,
    pub history_truncated: bool,
}

pub open spec fn snapshot_model(snapshot: SessionSnapshot) -> SnapshotModel {
    SnapshotModel {
        session_id: snapshot.session_id@,
        seq: snapshot.seq,
        turn_status: snapshot.turn_status,
        transcript: entry_views(snapshot.transcript@),
        tool_calls: snapshot.tool_calls@,
        pending_approvals: snapshot.pending_approvals@,
        runtime_options: snapshot.runtime_options@,
        context_usage: snapshot.context_usage,
        history_truncated: snapshot.history_truncated,
    }
}

/// A snapshot under change: what it shows, its bound, and the id that the next
/// transcript entry gets.
#[verifier::ext_equal]
pub struct StateModel {
    pub shown: SnapshotModel,
    pub max_entries: nat,
    pub next_transcript_id: u64,
}

pub open spec fn following_id(id: u64) -> u64 {
    if id == u64::MAX {
        id
    } else {
        (id + 1) as u64
    }
}

impl StateModel {
    /// A new entry at the end of the transcript.
    pub open spec fn entry_pushed(self, role: TranscriptRole, text: Seq<char>) -> StateModel {
        let grown = self.shown.transcript.push(
            EntryView { id: self.next_transcript_id, role, text, outcome: None },
        );
        StateModel {
            shown: SnapshotModel {
                transcript: newest(grown, self.max_entries),
                history_truncated: self.shown.history_truncated || grown.len() > self.max_entries,
                ..self.shown
            },
            next_transcript_id: following_id(self.next_transcript_id),
            ..self
        }
    }

    /// Text that continues the last entry where the role is the same, and
    /// starts a new one where it is not.
    pub open spec fn text_appended(self, role: TranscriptRole, text: Seq<char>) -> StateModel {
        let entries = self.shown.transcript;
        if entries.len() > 0 && entries.last().role == role {
            let last = EntryView { text: entries.last().text + text, ..entries.last() };
            StateModel {
                shown: SnapshotModel {
                    transcript: entries.update(entries.len() - 1, last),
                    ..self.shown
                },
                ..self
            }
        } else {
            self.entry_pushed(role, text)
        }
    }

    /// An outcome on the assistant's last entry, which is made where the
    /// transcript ends in none.
    pub open spec fn outcome_set(self, outcome: AssistantOutcome) -> StateModel {
        let entries = self.shown.transcript;
        let ready = if entries.len() == 0 || entries.last().role != TranscriptRole::Assistant {
            self.entry_pushed(TranscriptRole::Assistant, Seq::empty())
        } else {
            self
        };
        let entries = ready.shown.transcript;
        if entries.len() == 0 {
            ready
        } else {
            let last = EntryView { outcome: Some(outcome), ..entries.last() };
            StateModel {
                shown: SnapshotModel {
                    transcript: entries.update(entries.len() - 1, last),
                    ..ready.shown
                },
                ..ready
            }
        }
    }

    /// A started call takes the place of one with its id, else the last place.
    pub open spec fn call_started(self, call: ToolCallState) -> StateModel {
        let calls = self.shown.tool_calls;
        match first_where(calls, call_named(call.id@)) {
            Some(at) => StateModel {
                shown: SnapshotModel { tool_calls: calls.update(at, call), ..self.shown },
                ..self
            },
            None => {
                let grown = calls.push(call);
                StateModel {
                    shown: SnapshotModel {
                        tool_calls: newest(grown, self.max_entries),
                        history_truncated: self.shown.history_truncated || grown.len()
                            > self.max_entries,
                        ..self.shown
                    },
                    ..self
                }
            },
        }
    }

    /// A call's new status, and its output where there is one.
    pub open spec fn call_changed(
        self,
        id: Seq<char>,
        status: ToolCallStateStatus,
        output: Option<String>,
    ) -> StateModel {
        let calls = self.shown.tool_calls;
        match first_where(calls, call_named(id)) {
            Some(at) => {
                let call = ToolCallState {
                    status,
                    output: if output is Some {
                        output
                    } else {
                        calls[at].output
                    },
                    ..calls[at]
                };
                StateModel {
                    shown: SnapshotModel { tool_calls: calls.update(at, call), ..self.shown },
                    ..self
                }
            },
            None => self,
        }
    }

    pub open spec fn with_approvals(self, pending_approvals: Seq<ApprovalRequest>) -> StateModel {
        StateModel { shown: SnapshotModel { pending_approvals, ..self.shown }, ..self }
    }

    /// The state after an event with a sequence number.
    pub open spec fn applied(self, seq: u64, event: SessionEvent) -> StateModel {
        let state = StateModel { shown: SnapshotModel { seq, ..self.shown }, ..self };
        let approvals = self.shown.pending_approvals;
        match event {
            SessionEvent::UserMessage { text, .. } => state.entry_pushed(
                TranscriptRole::User,
                text@,
            ),
            SessionEvent::AssistantDelta { text } => state.text_appended(
                TranscriptRole::Assistant,
                text@,
            ),
            SessionEvent::ThoughtDelta { text } => state.text_appended(
                TranscriptRole::Thought,
                text@,
            ),
            SessionEvent::AssistantDone { outcome } => state.outcome_set(outcome),
            SessionEvent::SessionEnding { .. } => state,
            SessionEvent::ToolCallStarted { id, name, title, .. } => state.call_started(
                ToolCallState {
                    id,
                    name,
                    title,
                    status: ToolCallStateStatus::Pending,
                    output: None,
                },
            ),
            SessionEvent::ToolCallUpdated { id, status } => state.call_changed(id@, status, None),
            SessionEvent::ToolCallFinished { id, status, output } => state.call_changed(
                id@,
                status,
                Some(output),
            ),
            SessionEvent::ApprovalRequested { request } => match first_where(
                approvals,
                approval_named(request.id@),
            ) {
                Some(_) => state,
                None => state.with_approvals(approvals.push(request)),
            },
            SessionEvent::ApprovalResolved { approval_id, .. } => state.with_approvals(
                approvals.filter(approval_other(approval_id@)),
            ),
            SessionEvent::ApprovalDeadlineChanged {
                approval_id,
                ineligible_deadline_unix_ms,
                paused,
            } => match first_where(approvals, approval_named(approval_id@)) {
                Some(at) => state.with_approvals(
                    approvals.update(
                        at,
                        ApprovalRequest {
                            ineligible_deadline_unix_ms: Some(ineligible_deadline_unix_ms),
                            deadline_paused: paused,
                            ..approvals[at]
                        },
                    ),
                ),
                None => state,
            },
            SessionEvent::RuntimeOptionsChanged { options } => StateModel {
                shown: SnapshotModel {
                    runtime_options: newest(options@, self.max_entries),
                    ..state.shown
                },
                ..state
            },
            SessionEvent::ContextUsageChanged { usage } => StateModel {
                shown: SnapshotModel { context_usage: Some(usage), ..state.shown },
                ..state
            },
            SessionEvent::ConversationCleared => StateModel {
                shown: SnapshotModel {
                    transcript: Seq::empty(),
                    tool_calls: Seq::empty(),
                    pending_approvals: Seq::empty(),
                    history_truncated: false,
                    ..state.shown
                },
                ..state
            },
            SessionEvent::TurnStatusChanged { status } => StateModel {
                shown: SnapshotModel { turn_status: status, ..state.shown },
                ..state
            },
        }
    }

    /// The state of a session in which nothing has happened.
    pub open spec fn fresh(session_id: Seq<char>, max_entries: nat) -> Self {
        StateModel {
            shown: SnapshotModel {
                session_id,
                seq: 0,
                turn_status: TurnStatus::Idle,
                transcript: seq![],
                tool_calls: seq![],
                pending_approvals: seq![],
                runtime_options: seq![],
                context_usage: None,
                history_truncated: false,
            },
            max_entries,
            next_transcript_id: 1,
        }
    }

    /// Whether every bounded list is within its bound.
    pub open spec fn bounded(self) -> bool {
        &&& self.shown.transcript.len() <= self.max_entries
        &&& self.shown.tool_calls.len() <= self.max_entries
        &&& self.shown.runtime_options.len() <= self.max_entries
    }
}

/// The snapshot of one live session.
#[derive(Debug, PartialEq, Eq)]
pub struct SnapshotState {
    pub snapshot: SessionSnapshot,
    pub max_entries: usize,
    pub next_transcript_id: u64,
}

/// The id after the largest in a transcript.
pub open spec fn id_after(entries: Seq<TranscriptEntry>, next: u64) -> bool {
    if entries.len() == 0 {
        next == 1
    } else {
        exists|at: int|
            0 <= at < entries.len() && next == following_id(#[trigger] entries[at].id) && forall|
                i: int,
            |
                0 <= i < entries.len() ==> (#[trigger] entries[i]).id <= entries[at].id
    }
}

impl SnapshotState {
    pub open spec fn model(self) -> StateModel {
        StateModel {
            shown: snapshot_model(self.snapshot),
            max_entries: self.max_entries as nat,
            next_transcript_id: self.next_transcript_id,
        }
    }

    /// The state of a session in which nothing has happened.
    pub fn new(session_id: String, max_entries: usize) -> (state: Self)
        ensures
            state.model() == StateModel::fresh(session_id@, max_entries as nat),
            state.model().bounded(),
    {
        let state = SnapshotState {
            snapshot: SessionSnapshot {
                session_id,
                seq: 0,
                turn_status: TurnStatus::Idle,
                transcript: Vec::new(),
                tool_calls: Vec::new(),
                pending_approvals: Vec::new(),
                runtime_options: Vec::new(),
                context_usage: None,
                history_truncated: false,
            },
            max_entries,
            next_transcript_id: 1,
        };
        assert(state.model().shown.transcript =~= Seq::empty());
        state
    }

    /// The state that goes on from a given snapshot, cut to its bound.
    pub fn from_snapshot(snapshot: SessionSnapshot, max_entries: usize) -> (state: Self)
        ensures
            ({
                let max: nat = if max_entries == 0 {
                    1
                } else {
                    max_entries as nat
                };
                &&& state.max_entries == max
                &&& state.snapshot == (SessionSnapshot {
                    transcript: state.snapshot.transcript,
                    tool_calls: state.snapshot.tool_calls,
                    runtime_options: state.snapshot.runtime_options,
                    history_truncated: snapshot.history_truncated || snapshot.transcript@.len()
                        > max || snapshot.tool_calls@.len() > max,
                    ..snapshot
                })
                &&& state.snapshot.transcript@ == newest(snapshot.transcript@, max)
                &&& state.snapshot.tool_calls@ == newest(snapshot.tool_calls@, max)
                &&& state.snapshot.runtime_options@ == newest(snapshot.runtime_options@, max)
                &&& id_after(state.snapshot.transcript@, state.next_transcript_id)
            }),
            state.model().bounded(),
    {
        let mut snapshot = snapshot;
        let max_entries: usize = if max_entries == 0 {
            1
        } else {
            max_entries
        };
        let transcript_trimmed = trim_oldest(&mut snapshot.transcript, max_entries);
        let calls_trimmed = trim_oldest(&mut snapshot.tool_calls, max_entries);
        if transcript_trimmed || calls_trimmed {
            snapshot.history_truncated = true;
        }
        // Runtime-option bounding does not omit conversation history.
        let _ = trim_oldest(&mut snapshot.runtime_options, max_entries);
        let mut largest: u64 = 0;
        let ghost mut witness: int = 0;
        let mut i: usize = 0;
        while i < snapshot.transcript.len()
            invariant
                i <= snapshot.transcript@.len(),
                i == 0 ==> largest == 0,
                i > 0 ==> 0 <= witness < i && snapshot.transcript@[witness].id == largest,
                forall|k: int| 0 <= k < i ==> (#[trigger] snapshot.transcript@[k]).id <= largest,
            decreases snapshot.transcript@.len() - i,
        {
            if snapshot.transcript[i].id >= largest {
                largest = snapshot.transcript[i].id;
                proof {
                    witness = i as int;
                }
            }
            i = i + 1;
        }
        let next_transcript_id: u64 = if largest == u64::MAX {
            largest
        } else {
            largest + 1
        };
        proof {
            if snapshot.transcript@.len() > 0 {
                assert(next_transcript_id == following_id(snapshot.transcript@[witness].id));
            }
        }
        SnapshotState { snapshot, max_entries, next_transcript_id }
    }

    pub fn push_transcript(&mut self, role: TranscriptRole, text: String)
        ensures
            final(self).model() == old(self).model().entry_pushed(role, text@),
    {
        let id: u64 = self.next_transcript_id;
        self.next_transcript_id = if id == u64::MAX {
            id
        } else {
            id + 1
        };
        self.snapshot.transcript.push(TranscriptEntry { id, role, text, outcome: None });
        let ghost grown = self.snapshot.transcript@;
        if trim_oldest(&mut self.snapshot.transcript, self.max_entries) {
            self.snapshot.history_truncated = true;
        }
        assert(entry_views(grown) =~= entry_views(old(self).snapshot.transcript@).push(
            entry_view(grown.last()),
        ));
        assert(entry_views(self.snapshot.transcript@) =~= newest(
            entry_views(grown),
            self.max_entries as nat,
        ));
        assert(self.model() =~= old(self).model().entry_pushed(role, text@));
    }

    pub fn append_transcript(&mut self, role: TranscriptRole, text: String)
        ensures
            final(self).model() == old(self).model().text_appended(role, text@),
    {
        let n: usize = self.snapshot.transcript.len();
        if n > 0 && self.snapshot.transcript[n - 1].role == role {
            let mut last = self.snapshot.transcript[n - 1].clone();
            last.text.append(text.as_str());
            self.snapshot.transcript.set(n - 1, last);
            assert(entry_views(self.snapshot.transcript@) =~= old(self).model().text_appended(
                role,
                text@,
            ).shown.transcript);
            assert(self.model() =~= old(self).model().text_appended(role, text@));
        } else {
            self.push_transcript(role, text);
        }
    }

    fn set_outcome(&mut self, outcome: AssistantOutcome)
        ensures
            final(self).model() == old(self).model().outcome_set(outcome),
    {
        let n: usize = self.snapshot.transcript.len();
        if n == 0 || self.snapshot.transcript[n - 1].role != TranscriptRole::Assistant {
            self.push_transcript(TranscriptRole::Assistant, String::new());
        }
        let ghost ready = self.model();
        let n: usize = self.snapshot.transcript.len();
        if n > 0 {
            let mut last = self.snapshot.transcript[n - 1].clone();
            last.outcome = Some(outcome);
            self.snapshot.transcript.set(n - 1, last);
            assert(entry_views(self.snapshot.transcript@) =~= old(self).model().outcome_set(
                outcome,
            ).shown.transcript);
        }
        assert(self.model() =~= old(self).model().outcome_set(outcome));
    }

    fn find_call(&self, id: &String) -> (at: Option<usize>)
        ensures
            match at {
                Some(at) => first_where(self.snapshot.tool_calls@, call_named(id@)) == Some(
                    at as int,
                ) && at < self.snapshot.tool_calls@.len(),
                None => first_where(self.snapshot.tool_calls@, call_named(id@)) is None,
            },
    {
        let ghost p = call_named(id@);
        let mut i: usize = 0;
        while i < self.snapshot.tool_calls.len()
            invariant
                i <= self.snapshot.tool_calls@.len(),
                p == call_named(id@),
                forall|k: int| 0 <= k < i ==> !p(#[trigger] self.snapshot.tool_calls@[k]),
            decreases self.snapshot.tool_calls@.len() - i,
        {
            if self.snapshot.tool_calls[i].id == *id {
                proof {
                    lemma_first_where(self.snapshot.tool_calls@, p, i as int);
                }
                return Some(i);
            }
            i = i + 1;
        }
        None
    }

    fn find_approval(&self, id: &String) -> (at: Option<usize>)
        ensures
            match at {
                Some(at) => first_where(self.snapshot.pending_approvals@, approval_named(id@))
                    == Some(at as int) && at < self.snapshot.pending_approvals@.len(),
                None => first_where(self.snapshot.pending_approvals@, approval_named(id@)) is None,
            },
    {
        let ghost p = approval_named(id@);
        let mut i: usize = 0;
        while i < self.snapshot.pending_approvals.len()
            invariant
                i <= self.snapshot.pending_approvals@.len(),
                p == approval_named(id@),
                forall|k: int| 0 <= k < i ==> !p(#[trigger] self.snapshot.pending_approvals@[k]),
            decreases self.snapshot.pending_approvals@.len() - i,
        {
            if self.snapshot.pending_approvals[i].id == *id {
                proof {
                    lemma_first_where(self.snapshot.pending_approvals@, p, i as int);
                }
                return Some(i);
            }
            i = i + 1;
        }
        None
    }

    fn start_call(&mut self, call: ToolCallState)
        ensures
            final(self).model() == old(self).model().call_started(call),
    {
        match self.find_call(&call.id) {
            Some(at) => {
                self.snapshot.tool_calls.set(at, call);
            },
            None => {
                self.snapshot.tool_calls.push(call);
                if trim_oldest(&mut self.snapshot.tool_calls, self.max_entries) {
                    self.snapshot.history_truncated = true;
                }
            },
        }
        assert(self.model() =~= old(self).model().call_started(call));
    }

    fn change_call(&mut self, id: &String, status: ToolCallStateStatus, output: Option<String>)
        ensures
            final(self).model() == old(self).model().call_changed(id@, status, output),
    {
        match self.find_call(id) {
            Some(at) => {
                let mut call = self.snapshot.tool_calls[at].clone();
                call.status = status;
                if output.is_some() {
                    call.output = output;
                }
                self.snapshot.tool_calls.set(at, call);
            },
            None => {},
        }
        assert(self.model() =~= old(self).model().call_changed(id@, status, output));
    }

    fn remove_approval(&mut self, id: &String)
        ensures
            final(self).model() == old(self).model().with_approvals(
                old(self).model().shown.pending_approvals.filter(approval_other(id@)),
            ),
    {
        let ghost p = approval_other(id@);
        let mut kept: Vec<ApprovalRequest> = Vec::new();
        let mut i: usize = 0;
        while i < self.snapshot.pending_approvals.len()
            invariant
                i <= self.snapshot.pending_approvals@.len(),
                p == approval_other(id@),
                kept@ == self.snapshot.pending_approvals@.take(i as int).filter(p),
            decreases self.snapshot.pending_approvals@.len() - i,
        {
            proof {
                reveal(Seq::filter);
                let next = self.snapshot.pending_approvals@.take(i + 1);
                assert(next.drop_last() =~= self.snapshot.pending_approvals@.take(i as int));
            }
            if self.snapshot.pending_approvals[i].id != *id {
                kept.push(self.snapshot.pending_approvals[i].clone());
            }
            i = i + 1;
        }
        assert(self.snapshot.pending_approvals@.take(i as int)
            =~= self.snapshot.pending_approvals@);
        self.snapshot.pending_approvals = kept;
        assert(self.model() =~= old(self).model().with_approvals(
            old(self).model().shown.pending_approvals.filter(p),
        ));
    }

    /// Takes an event into the snapshot.
    pub fn apply(&mut self, seq: u64, event: SessionEvent)
        ensures
            final(self).model() == old(self).model().applied(seq, event),
    {
        self.snapshot.seq = seq;
        let ghost state = self.model();
        match event {
            SessionEvent::UserMessage { text, .. } => {
                self.push_transcript(TranscriptRole::User, text);
            },
            SessionEvent::AssistantDelta { text } => {
                self.append_transcript(TranscriptRole::Assistant, text);
            },
            SessionEvent::ThoughtDelta { text } => {
                self.append_transcript(TranscriptRole::Thought, text);
            },
            SessionEvent::AssistantDone { outcome } => {
                self.set_outcome(outcome);
            },
            SessionEvent::SessionEnding { .. } => {},
            SessionEvent::ToolCallStarted { id, name, title, .. } => {
                self.start_call(
                    ToolCallState {
                        id,
                        name,
                        title,
                        status: ToolCallStateStatus::Pending,
                        output: None,
                    },
                );
            },
            SessionEvent::ToolCallUpdated { id, status } => {
                self.change_call(&id, status, None);
            },
            SessionEvent::ToolCallFinished { id, status, output } => {
                self.change_call(&id, status, Some(output));
            },
            SessionEvent::ApprovalRequested { request } => {
                if self.find_approval(&request.id).is_none() {
                    self.snapshot.pending_approvals.push(request);
                }
            },
            SessionEvent::ApprovalResolved { approval_id, .. } => {
                self.remove_approval(&approval_id);
            },
            SessionEvent::ApprovalDeadlineChanged {
                approval_id,
                ineligible_deadline_unix_ms,
                paused,
            } => {
                match self.find_approval(&approval_id) {
                    Some(at) => {
                        let mut approval = self.snapshot.pending_approvals[at].clone();
                        approval.ineligible_deadline_unix_ms = Some(ineligible_deadline_unix_ms);
                        approval.deadline_paused = paused;
                        self.snapshot.pending_approvals.set(at, approval);
                    },
                    None => {},
                }
            },
            SessionEvent::RuntimeOptionsChanged { options } => {
                self.snapshot.runtime_options = options;
                // Runtime-option bounding does not omit conversation history.
                let _ = trim_oldest(&mut self.snapshot.runtime_options, self.max_entries);
            },
            SessionEvent::ContextUsageChanged { usage } => {
                self.snapshot.context_usage = Some(usage);
            },
            SessionEvent::ConversationCleared => {
                self.snapshot.transcript = Vec::new();
                self.snapshot.tool_calls = Vec::new();
                self.snapshot.pending_approvals = Vec::new();
                self.snapshot.history_truncated = false;
                assert(entry_views(self.snapshot.transcript@) =~= Seq::empty());
            },
            SessionEvent::TurnStatusChanged { status } => {
                self.snapshot.turn_status = status;
            },
        }
        assert(self.model() =~= old(self).model().applied(seq, event));
    }
}

/// The state after a session's events from its first one on; the event at index
/// `i` has number `i + 1`.
pub open spec fn after_events(state: StateModel, events: Seq<SessionEvent>) -> StateModel
    decreases events.len(),
{
    if events.len() == 0 {
        state
    } else {
        after_events(state, events.drop_last()).applied(events.len() as u64, events.last())
    }
}

/// The state after numbered events.
pub open spec fn after_replay(state: StateModel, replay: Seq<(u64, SessionEvent)>) -> StateModel
    decreases replay.len(),
{
    if replay.len() == 0 {
        state
    } else {
        after_replay(state, replay.drop_last()).applied(replay.last().0, replay.last().1)
    }
}

/// Whether two states show the same.
pub open spec fn same_state(a: StateModel, b: StateModel) -> bool {
    &&& a == (StateModel {
        shown: SnapshotModel { runtime_options: a.shown.runtime_options, ..b.shown },
        ..b
    })
    &&& same_options(a.shown.runtime_options, b.shown.runtime_options)
}

proof fn lemma_applied_same(
    a: StateModel,
    b: StateModel,
    seq: u64,
    event: SessionEvent,
    copy: SessionEvent,
)
    requires
        same_state(a, b),
        same_event(event, copy),
    ensures
        same_state(a.applied(seq, event), b.applied(seq, copy)),
{
}

proof fn lemma_replay_follows(
    state: StateModel,
    log: Seq<SessionEvent>,
    last_seen_seq: int,
    replay: Seq<(u64, SessionEvent)>,
)
    requires
        0 <= last_seen_seq,
        last_seen_seq + replay.len() <= log.len() <= u64::MAX,
        forall|i: int|
            0 <= i < replay.len() ==> (#[trigger] replay[i]).0 == last_seen_seq + 1 + i
                && same_event(log[last_seen_seq + i], replay[i].1),
    ensures
        same_state(
            after_events(state, log.take(last_seen_seq + replay.len())),
            after_replay(after_events(state, log.take(last_seen_seq)), replay),
        ),
    decreases replay.len(),
{
    if replay.len() > 0 {
        let shorter = replay.drop_last();
        let reached = log.take(last_seen_seq + replay.len());
        lemma_replay_follows(state, log, last_seen_seq, shorter);
        assert(reached.drop_last() =~= log.take(last_seen_seq + shorter.len()));
        assert(replay[replay.len() - 1] == replay.last());
        lemma_applied_same(
            after_events(state, reached.drop_last()),
            after_replay(after_events(state, log.take(last_seen_seq)), shorter),
            reached.len() as u64,
            reached.last(),
            replay.last().1,
        );
    }
}

/// A client that comes back and takes in what is replayed to it shows what a
/// client that missed nothing shows.
pub proof fn law_replay_reaches_live_state<H>(
    router: SessionEventRouter<H>,
    state: StateModel,
    last_seen_seq: u64,
    replay: Seq<(u64, SessionEvent)>,
    latest_seq: u64,
)
    requires
        router.replays(last_seen_seq, replay, latest_seq),
    ensures
        same_state(
            after_events(state, router.emitted()),
            after_replay(
                after_events(state, router.emitted().take(last_seen_seq as int)),
                replay,
            ),
        ),
{
    let log = router.emitted();
    lemma_replay_follows(state, log, last_seen_seq as int, replay);
    assert(log.take(log.len() as int) =~= log);
}

/// The bounded lists of a snapshot stay within the bound under every event.
pub proof fn law_snapshot_stays_bounded(state: StateModel, seq: u64, event: SessionEvent)
    requires
        state.bounded(),
    ensures
        state.applied(seq, event).bounded(),
        state.applied(seq, event).max_entries == state.max_entries,
        state.applied(seq, event).shown.session_id == state.shown.session_id,
        state.applied(seq, event).shown.seq == seq,
{
}

/// Nothing of the conversation is dropped without the snapshot saying so. A
/// mark stays until the conversation is cleared, and an event that leaves the
/// snapshot unmarked leaves every transcript entry and every tool call in its
/// place.
pub proof fn law_dropped_history_is_marked(state: StateModel, seq: u64, event: SessionEvent)
    requires
        !(event is ConversationCleared),
    ensures
        state.shown.history_truncated ==> state.applied(seq, event).shown.history_truncated,
        !state.applied(seq, event).shown.history_truncated ==> {
            let before = state.shown;
            let after = state.applied(seq, event).shown;
            &&& before.transcript.len() <= after.transcript.len()
            &&& forall|i: int|
                0 <= i < before.transcript.len() ==> (#[trigger] after.transcript[i]).id
                    == before.transcript[i].id && after.transcript[i].role
                    == before.transcript[i].role
            &&& before.tool_calls.len() <= after.tool_calls.len()
            &&& forall|i: int|
                0 <= i < before.tool_calls.len() ==> (#[trigger] after.tool_calls[i]).id@
                    == before.tool_calls[i].id@
        },
{
    let calls = state.shown.tool_calls;
    if event is ToolCallStarted {
        let p = call_named(event->ToolCallStarted_id@);
        if first_where(calls, p) is Some {
            assert(first_at(calls, p, first_where(calls, p)->0));
        }
    }
    if event is ToolCallUpdated {
        let p = call_named(event->ToolCallUpdated_id@);
        if first_where(calls, p) is Some {
            assert(first_at(calls, p, first_where(calls, p)->0));
        }
    }
    if event is ToolCallFinished {
        let p = call_named(event->ToolCallFinished_id@);
        if first_where(calls, p) is Some {
            assert(first_at(calls, p, first_where(calls, p)->0));
        }
    }
}

} // verus!
