//! Frontend-neutral tool lifecycle: admission, authorization and exactly one
//! terminal event per call.
use vstd::prelude::*;
use vstd::string::*;
use crate::foreign::{json_string_member, json_string_member_of};
use crate::session_core::approval::{ApprovalRequestError, ApprovalResolution};
use crate::session_protocol::{ApprovalDecision, ApprovalRequest, SessionEvent, ToolCallStateStatus};
use crate::text::{
    byte_len, chars_of, decimal, decimal_string, fitting_chars, lemma_fitting_bounds,
    lemma_fitting_is_maximal, lemma_utf8_len_concat, prefix_within, sorted_texts, str_eq, string_of, texts_ascend, texts_distinct, utf8_len,
    utf8_prefix,
};

verus! {

broadcast use vstd::string::group_string_axioms;

/// A tool call as the model asks for it; `input` is the JSON document of its arguments.
#[derive(Debug, Clone, PartialEq, Eq)]
pub struct ToolCallInfo {
    pub id: String,
    pub name: String,
    pub input: String,
}

/// Whether a tool call may run.
#[derive(Debug, PartialEq, Eq)]
pub enum BeforeHookResult {
    Allow,
    Block(String),
}

/// What the safety policy says of a tool.
#[derive(Debug, PartialEq, Eq)]
pub enum Gate {
    Allow,
    NeedsApproval,
    Block(String),
}

/// How a call is authorized.
#[derive(Debug, PartialEq, Eq)]
pub enum GateStep {
    Decided(BeforeHookResult),
    AskApproval(ApprovalRequest),
}

/// The title of a call: for `exec` the command where its input names one, else the tool's name.
pub open spec fn title_text(name: Seq<char>, command: Option<Seq<char>>) -> Seq<char> {
    match command {
        Some(command) => if name == "exec"@ {
            command
        } else {
            name
        },
        None => name,
    }
}

/// As `title_text`, given the command that was read from the input.
pub fn title_from_command(name: &str, command: Option<String>) -> (title: String)
    ensures
        title@ == title_text(
            name@,
            match command {
                Some(command) => Some(command@),
                None => None,
            },
        ),
{
    match command {
        Some(command) => if str_eq(name, "exec") {
            command
        } else {
            name.to_owned()
        },
        None => name.to_owned(),
    }
}

/// The title of a tool call.
pub fn tool_call_title(info: &ToolCallInfo) -> (title: String)
    ensures
        title@ == title_text(info.name@, json_string_member_of(info.input@, "command"@)),
{
    if str_eq(info.name.as_str(), "exec") {
        let command = json_string_member(info.input.as_str(), "command");
        title_from_command(info.name.as_str(), command)
    } else {
        info.name.clone()
    }
}

/// The mark behind a cut tool output.
pub open spec fn truncation_mark() -> Seq<char> {
    "\n[tool output truncated]"@
}

/// A tool output as clients see it: whole where it fits, else a prefix and the
/// mark, of which no more is shown than fits.
pub open spec fn bounded_output(output: Seq<char>, max_bytes: nat) -> Seq<char> {
    let mark = truncation_mark();
    if utf8_len(output) <= max_bytes {
        output
    } else if max_bytes >= mark.len() {
        utf8_prefix(output, (max_bytes - mark.len()) as nat) + mark
    } else {
        mark.take(max_bytes as int)
    }
}

pub fn bounded_tool_output(output: &str, max_bytes: usize) -> (bounded: String)
    ensures
        bounded@ == bounded_output(output@, max_bytes as nat),
{
    if byte_len(output) <= max_bytes {
        return output.to_owned();
    }
    let mark = chars_of("\n[tool output truncated]");
    if max_bytes >= mark.len() {
        let mut bounded = prefix_within(output, max_bytes - mark.len());
        bounded.append("\n[tool output truncated]");
        bounded
    } else {
        let bounded = string_of(mark.as_slice(), 0, max_bytes);
        assert(bounded@ =~= truncation_mark().take(max_bytes as int));
        bounded
    }
}

/// A bounded output keeps its byte bound, and an output that fits is not touched.
pub proof fn law_output_is_bounded(output: Seq<char>, max_bytes: nat)
    ensures
        utf8_len(bounded_output(output, max_bytes)) <= max_bytes,
        utf8_len(output) <= max_bytes ==> bounded_output(output, max_bytes) == output,
{
    let mark = truncation_mark();
    lemma_mark_is_ascii(mark.len() as int);
    if utf8_len(output) > max_bytes {
        if max_bytes >= mark.len() {
            let budget = (max_bytes - mark.len()) as nat;
            lemma_fitting_bounds(output, budget);
            lemma_utf8_len_concat(utf8_prefix(output, budget), mark);
            assert(mark.take(mark.len() as int) =~= mark);
        } else {
            lemma_mark_is_ascii(max_bytes as int);
        }
    }
}

/// An output over the bound is shown as far as it fits beside the mark: a prefix
/// of it, the mark behind it, and one more character would be too long. Where
/// the bound leaves no room for the whole mark, as much of the mark is shown as
/// the bound has bytes.
pub proof fn law_cut_output_is_the_longest_prefix(output: Seq<char>, max_bytes: nat)
    requires
        utf8_len(output) > max_bytes,
    ensures
        ({
            let mark = "\n[tool output truncated]"@;
            let shown = bounded_output(output, max_bytes);
            if max_bytes >= utf8_len(mark) {
                exists|k: int|
                    {
                        &&& 0 <= k < output.len()
                        &&& shown == #[trigger] output.take(k) + mark
                        &&& utf8_len(output.take(k)) + utf8_len(mark) <= max_bytes
                        &&& utf8_len(output.take(k + 1)) + utf8_len(mark) > max_bytes
                    }
            } else {
                shown.len() == max_bytes && shown.is_prefix_of(mark)
            }
        }),
{
    let mark = truncation_mark();
    lemma_mark_is_ascii(mark.len() as int);
    assert(mark.take(mark.len() as int) =~= mark);
    if max_bytes >= mark.len() {
        let budget = (max_bytes - mark.len()) as nat;
        let k = fitting_chars(output, budget) as int;
        lemma_fitting_bounds(output, budget);
        lemma_fitting_is_maximal(output, budget, k);
        lemma_fitting_is_maximal(output, budget, output.len() as int);
        assert(output.take(output.len() as int) =~= output);
        lemma_fitting_is_maximal(output, budget, k + 1);
        assert(bounded_output(output, max_bytes) == output.take(k) + mark);
    }
}

proof fn lemma_mark_is_ascii(k: int)
    requires
        0 <= k <= truncation_mark().len(),
    ensures
        utf8_len(truncation_mark().take(k)) == k,
    decreases k,
{
    reveal_strlit("\n[tool output truncated]");
    if k > 0 {
        lemma_mark_is_ascii(k - 1);
        assert(truncation_mark().take(k).drop_last() =~= truncation_mark().take(k - 1));
        assert(truncation_mark().take(k).last() as u32 <= 0x7f);
    }
}

/// The reasons of a denial that clients tell apart.
pub open spec fn denial_text(tool: Seq<char>, resolved_by: Seq<char>) -> Seq<char> {
    let lead = if resolved_by == "acp_cancelled"@ {
        "permission request cancelled for '"@
    } else if resolved_by == "acp_unrecognized"@ {
        "unrecognized permission outcome for '"@
    } else if resolved_by == "acp_request_failed"@ || resolved_by == "acp_unavailable"@
        || resolved_by == "acp_spawn_failed"@ {
        "permission request failed for '"@
    } else if resolved_by == "broker_closed"@ {
        "permission broker closed for '"@
    } else if resolved_by == "resolution_failed"@ {
        "permission resolution failed for '"@
    } else {
        "permission denied for '"@
    };
    lead + tool + "'"@
}

pub fn approval_denial_reason(tool: &str, resolution: &ApprovalResolution) -> (reason: String)
    ensures
        reason@ == denial_text(tool@, resolution.resolved_by@),
{
    let resolved_by = resolution.resolved_by.as_str();
    let lead = if str_eq(resolved_by, "acp_cancelled") {
        "permission request cancelled for '"
    } else if str_eq(resolved_by, "acp_unrecognized") {
        "unrecognized permission outcome for '"
    } else if str_eq(resolved_by, "acp_request_failed") || str_eq(resolved_by, "acp_unavailable")
        || str_eq(resolved_by, "acp_spawn_failed") {
        "permission request failed for '"
    } else if str_eq(resolved_by, "broker_closed") {
        "permission broker closed for '"
    } else if str_eq(resolved_by, "resolution_failed") {
        "permission resolution failed for '"
    } else {
        "permission denied for '"
    };
    let mut reason = lead.to_owned();
    reason.append(tool);
    reason.append("'");
    reason
}

/// Whether a resolution lets the tool run from now on without asking.
pub fn remembers_always(resolution: &ApprovalResolution) -> (remembers: bool)
    ensures
        remembers == (resolution.decision == ApprovalDecision::AllowAlways),
{
    matches!(resolution.decision, ApprovalDecision::AllowAlways)
}

/// Whether a call waits for an approval.
pub fn approval_required(gate: &Gate) -> (required: bool)
    ensures
        required == (gate is NeedsApproval),
{
    matches!(gate, Gate::NeedsApproval)
}

#[derive(Debug, PartialEq, Eq)]
pub struct CanonicalToolLifecycle {
    active: Vec<String>,
    max_active_tools: usize,
    max_output_bytes: Option<usize>,
}

/// Whether a call with the id runs.
pub open spec fn runs(active: Seq<String>, id: Seq<char>) -> bool {
    exists|i: int| 0 <= i < active.len() && (#[trigger] active[i])@ == id
}

/// The terminal event of a call.
pub open spec fn is_finish_event(
    event: SessionEvent,
    id: String,
    status: ToolCallStateStatus,
    output: Seq<char>,
) -> bool {
    event matches SessionEvent::ToolCallFinished { id: told, status: state, output: text } && told
        == id && state == status && text@ == output
}

impl CanonicalToolLifecycle {
    /// The ids of the calls that run.
    pub closed spec fn running(self) -> Seq<String> {
        self.active@
    }

    pub closed spec fn capacity(self) -> nat {
        self.max_active_tools as nat
    }

    pub closed spec fn output_limit(self) -> Option<usize> {
        self.max_output_bytes
    }

    pub open spec fn well_formed(self) -> bool {
        &&& texts_distinct(self.running())
        &&& self.running().len() <= self.capacity()
        &&& self.capacity() >= 1
        &&& self.output_limit() matches Some(limit) ==> limit >= 16
    }

    pub open spec fn same_limits(self, before: Self) -> bool {
        self.capacity() == before.capacity() && self.output_limit() == before.output_limit()
    }

    /// A tool output as clients see it.
    pub open spec fn projected(self, output: Seq<char>) -> Seq<char> {
        match self.output_limit() {
            Some(limit) => bounded_output(output, limit as nat),
            None => output,
        }
    }

    pub fn new(max_active_tools: usize) -> (lifecycle: Self)
        ensures
            lifecycle.well_formed(),
            lifecycle.running().len() == 0,
            lifecycle.capacity() == if max_active_tools == 0 {
                1
            } else {
                max_active_tools as nat
            },
            lifecycle.output_limit() is None,
    {
        CanonicalToolLifecycle {
            active: Vec::new(),
            max_active_tools: if max_active_tools == 0 {
                1
            } else {
                max_active_tools
            },
            max_output_bytes: None,
        }
    }

    pub fn new_with_output_limit(max_active_tools: usize, max_output_bytes: usize) -> (lifecycle:
        Self)
        ensures
            lifecycle.well_formed(),
            lifecycle.running().len() == 0,
            lifecycle.capacity() == if max_active_tools == 0 {
                1
            } else {
                max_active_tools as nat
            },
            lifecycle.output_limit() == Some(
                if max_output_bytes < 16 {
                    16
                } else {
                    max_output_bytes
                },
            ),
    {
        CanonicalToolLifecycle {
            active: Vec::new(),
            max_active_tools: if max_active_tools == 0 {
                1
            } else {
                max_active_tools
            },
            max_output_bytes: Some(
                if max_output_bytes < 16 {
                    16
                } else {
                    max_output_bytes
                },
            ),
        }
    }

    fn place(&self, id: &str) -> (place: Option<usize>)
        ensures
            match place {
                Some(at) => at < self.active@.len() && self.active@[at as int]@ == id@,
                None => !runs(self.active@, id@),
            },
    {
        let mut i: usize = 0;
        while i < self.active.len()
            invariant
                i <= self.active@.len(),
                forall|j: int| 0 <= j < i ==> (#[trigger] self.active@[j])@ != id@,
            decreases self.active@.len() - i,
        {
            if str_eq(self.active[i].as_str(), id) {
                return Some(i);
            }
            i = i + 1;
        }
        None
    }

    /// Admits one tool call before any frontend announces it. Duplicates and
    /// calls beyond the limit stay absent from every projection.
    pub fn reserve(&mut self, info: &ToolCallInfo) -> (result: Result<SessionEvent, String>)
        requires
            old(self).well_formed(),
        ensures
            final(self).well_formed(),
            final(self).same_limits(*old(self)),
            match result {
                Ok(event) => {
                    &&& !runs(old(self).running(), info.id@)
                    &&& old(self).running().len() < old(self).capacity()
                    &&& final(self).running() == old(self).running().push(info.id)
                    &&& event == (SessionEvent::ToolCallStarted {
                        id: info.id,
                        name: info.name,
                        title: info.name,
                        input_summary: None,
                    })
                },
                Err(reason) => {
                    &&& final(self).running() == old(self).running()
                    &&& if runs(old(self).running(), info.id@) {
                        reason@ == "tool call '"@ + info.id@ + "' is already active"@
                    } else {
                        &&& old(self).running().len() == old(self).capacity()
                        &&& reason@ == "active tool-call limit ("@ + decimal(old(self).capacity())
                            + ") reached"@
                    }
                },
            },
    {
        if self.place(info.id.as_str()).is_some() {
            let mut reason = "tool call '".to_owned();
            reason.append(info.id.as_str());
            reason.append("' is already active");
            return Err(reason);
        }
        if self.active.len() >= self.max_active_tools {
            let mut reason = "active tool-call limit (".to_owned();
            reason.append(decimal_string(self.max_active_tools as u64).as_str());
            reason.append(") reached");
            return Err(reason);
        }
        self.active.push(info.id.clone());
        Ok(
            SessionEvent::ToolCallStarted {
                id: info.id.clone(),
                name: info.name.clone(),
                title: info.name.clone(),
                input_summary: None,
            },
        )
    }

    /// Applies the policy to an admitted call: it is decided, or an approval is asked for.
    pub fn gate_reserved(info: &ToolCallInfo, gate: Gate) -> (step: GateStep)
        ensures
            match gate {
                Gate::Block(reason) => step == GateStep::Decided(BeforeHookResult::Block(reason)),
                Gate::Allow => step == GateStep::Decided(BeforeHookResult::Allow),
                Gate::NeedsApproval => step matches GateStep::AskApproval(request)
                    && request.id@.len() == 0 && request.tool_call_id@ == info.id@
                    && request.tool@ == info.name@ && request.detail@ == title_text(
                    info.name@,
                    json_string_member_of(info.input@, "command"@),
                ) && request.allow_always_available && request.ineligible_deadline_unix_ms is None
                    && !request.deadline_paused,
            },
    {
        match gate {
            Gate::Block(reason) => GateStep::Decided(BeforeHookResult::Block(reason)),
            Gate::Allow => GateStep::Decided(BeforeHookResult::Allow),
            Gate::NeedsApproval => {
                let title = tool_call_title(info);
                GateStep::AskApproval(
                    ApprovalRequest::unassigned(
                        info.id.as_str(),
                        info.name.as_str(),
                        title.as_str(),
                        true,
                    ),
                )
            },
        }
    }

    /// What an approval's outcome means for the call, and whether the tool is
    /// to be remembered as allowed.
    pub fn approval_outcome(
        info: &ToolCallInfo,
        result: Result<ApprovalResolution, ApprovalRequestError>,
    ) -> (outcome: (BeforeHookResult, bool))
        ensures
            match result {
                Ok(resolution) => match resolution.decision {
                    ApprovalDecision::AllowOnce => outcome == (BeforeHookResult::Allow, false),
                    ApprovalDecision::AllowAlways => outcome == (BeforeHookResult::Allow, true),
                    ApprovalDecision::Deny => !outcome.1 && (outcome.0 matches
                        BeforeHookResult::Block(reason) && reason@ == denial_text(
                        info.name@,
                        resolution.resolved_by@,
                    )),
                },
                Err(_) => !outcome.1 && (outcome.0 matches BeforeHookResult::Block(reason)
                    && reason@ == "permission broker unavailable for '"@ + info.name@ + "'"@),
            },
    {
        match result {
            Ok(resolution) => match resolution.decision {
                ApprovalDecision::AllowOnce => (BeforeHookResult::Allow, false),
                ApprovalDecision::AllowAlways => (BeforeHookResult::Allow, true),
                ApprovalDecision::Deny => (
                    BeforeHookResult::Block(
                        approval_denial_reason(info.name.as_str(), &resolution),
                    ),
                    false,
                ),
            },
            Err(_) => {
                let mut reason = "permission broker unavailable for '".to_owned();
                reason.append(info.name.as_str());
                reason.append("'");
                (BeforeHookResult::Block(reason), false)
            },
        }
    }

    /// Tells of a decision: an allowed call is in progress; a blocked one has
    /// failed and is finished at once.
    pub fn settle_authorization(&mut self, info: &ToolCallInfo, decision: &BeforeHookResult) -> (
        events: (SessionEvent, Option<SessionEvent>))
        requires
            old(self).well_formed(),
        ensures
            final(self).well_formed(),
            final(self).same_limits(*old(self)),
            match *decision {
                BeforeHookResult::Allow => {
                    &&& events == (
                        SessionEvent::ToolCallUpdated {
                            id: info.id,
                            status: ToolCallStateStatus::InProgress,
                        },
                        None::<SessionEvent>,
                    )
                    &&& final(self).running() == old(self).running()
                },
                BeforeHookResult::Block(_) => {
                    &&& events.0 == (SessionEvent::ToolCallUpdated {
                        id: info.id,
                        status: ToolCallStateStatus::Failed,
                    })
                    &&& events.1 is Some == runs(old(self).running(), info.id@)
                    &&& events.1 matches Some(event) ==> is_finish_event(
                        event,
                        info.id,
                        ToolCallStateStatus::Failed,
                        old(self).projected("blocked"@),
                    )
                    &&& !runs(final(self).running(), info.id@)
                    &&& !runs(old(self).running(), info.id@) ==> final(self).running() == old(self).running()
                    &&& forall|i: int|
                        0 <= i < old(self).running().len() && (
                        #[trigger] old(self).running()[i])@ == info.id@ ==> final(self).running()
                            == old(self).running().remove(i)
                },
            },
    {
        match decision {
            BeforeHookResult::Allow => (
                SessionEvent::ToolCallUpdated {
                    id: info.id.clone(),
                    status: ToolCallStateStatus::InProgress,
                },
                None,
            ),
            BeforeHookResult::Block(_) => {
                let updated = SessionEvent::ToolCallUpdated {
                    id: info.id.clone(),
                    status: ToolCallStateStatus::Failed,
                };
                let finished = self.finish(info, "blocked", true);
                (updated, finished)
            },
        }
    }

    /// Claims the one terminal event of a call. A duplicate or late callback
    /// gets none.
    pub fn finish(&mut self, info: &ToolCallInfo, output: &str, is_error: bool) -> (event: Option<
        SessionEvent,
    >)
        requires
            old(self).well_formed(),
        ensures
            final(self).well_formed(),
            final(self).same_limits(*old(self)),
            !runs(final(self).running(), info.id@),
            match event {
                Some(event) => {
                    &&& runs(old(self).running(), info.id@)
                    &&& is_finish_event(
                        event,
                        info.id,
                        if is_error {
                            ToolCallStateStatus::Failed
                        } else {
                            ToolCallStateStatus::Completed
                        },
                        old(self).projected(output@),
                    )
                    &&& forall|i: int|
                        0 <= i < old(self).running().len() && (
                        #[trigger] old(self).running()[i])@ == info.id@ ==> final(self).running()
                            == old(self).running().remove(i)
                },
                None => !runs(old(self).running(), info.id@) && final(self).running() == old(self).running(),
            },
    {
        match self.place(info.id.as_str()) {
            None => None,
            Some(at) => {
                let ghost before = self.active@;
                let text = self.project_output(output);
                self.active.remove(at);
                proof {
                    assert(self.active@ == before.remove(at as int));
                    assert forall|j: int| 0 <= j < self.active@.len() implies (
                    #[trigger] self.active@[j])@ != info.id@ by {
                        let o = if j < at {
                            j
                        } else {
                            j + 1
                        };
                        assert(before[o]@ != before[at as int]@);
                    }
                }
                Some(
                    SessionEvent::ToolCallFinished {
                        id: info.id.clone(),
                        status: if is_error {
                            ToolCallStateStatus::Failed
                        } else {
                            ToolCallStateStatus::Completed
                        },
                        output: text,
                    },
                )
            },
        }
    }

    pub fn project_output(&self, output: &str) -> (text: String)
        ensures
            text@ == self.projected(output@),
    {
        match self.max_output_bytes {
            Some(limit) => bounded_tool_output(output, limit),
            None => output.to_owned(),
        }
    }

    /// Cancels every call that runs, in the order of their ids: each is updated, then finished.
    pub fn cancel_all(&mut self) -> (events: Vec<SessionEvent>)
        requires
            old(self).well_formed(),
        ensures
            final(self).well_formed(),
            final(self).same_limits(*old(self)),
            final(self).running().len() == 0,
            exists|ids: Seq<String>|
                #[trigger] texts_ascend(ids) && ids.len() == old(self).running().len() && (forall|
                    i: int,
                |
                    0 <= i < old(self).running().len() ==> ids.contains(
                        #[trigger] old(self).running()[i],
                    )) && cancels(events@, ids),
    {
        let ids = sorted_texts(&self.active);
        self.active = Vec::new();
        let mut events: Vec<SessionEvent> = Vec::new();
        let mut i: usize = 0;
        while i < ids.len()
            invariant
                i <= ids@.len(),
                cancels(events@, ids@.take(i as int)),
            decreases ids@.len() - i,
        {
            events.push(
                SessionEvent::ToolCallUpdated {
                    id: ids[i].clone(),
                    status: ToolCallStateStatus::Cancelled,
                },
            );
            events.push(
                SessionEvent::ToolCallFinished {
                    id: ids[i].clone(),
                    status: ToolCallStateStatus::Cancelled,
                    output: "cancelled".to_owned(),
                },
            );
            i = i + 1;
        }
        assert(ids@.take(ids@.len() as int) =~= ids@);
        events
    }
}

/// Two events per id, in order: the call is cancelled, then finished.
pub open spec fn cancels(events: Seq<SessionEvent>, ids: Seq<String>) -> bool {
    &&& events.len() == 2 * ids.len()
    &&& forall|i: int|
        0 <= i < ids.len() ==> {
            let id = #[trigger] ids[i];
            &&& events[2 * i] == SessionEvent::ToolCallUpdated {
                id,
                status: ToolCallStateStatus::Cancelled,
            }
            &&& is_finish_event(
                events[2 * i + 1],
                id,
                ToolCallStateStatus::Cancelled,
                "cancelled"@,
            )
        }
}

} // verus!
