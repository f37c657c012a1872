//! One session's canonical state: events, turns, approvals, tools, history and persistence.
use vstd::prelude::*;
use vstd::string::*;
use crate::providers::Message;
use crate::session_core::approval::{drained, ApprovalBroker, ApprovalResolution};
use crate::session_core::approval_wait::{resolution_event, resolution_to_event, status_event};
use crate::session_core::compaction::{policy_error_text, CompactionPolicy, SessionCompaction};
use crate::session_core::persistence::{
    deletes, PersistenceCapture, PersistenceHealth, PersistenceTracker, SessionPersistence,
};
use crate::session_core::provider_error::TurnResult;
use crate::session_core::reconstruction::{reconstruct_timeline, reconstructed, snapshot_of};
use crate::session_core::tool_lifecycle::{cancels, remembers_always, CanonicalToolLifecycle};
use crate::session_core::turn::{
    after_complete, ActiveTurn, TurnCancel, TurnClaim, TurnController, TurnError,
};
use crate::session_protocol::{
    copy_options, same_options, ApprovalDecision, ApprovalRequest, AssistantOutcome, ContextUsage,
    RuntimeOption, RuntimeValue, SessionEvent, SessionTimelineSnapshot, TurnStatus,
};
use crate::session_store::{SaveCapture, SessionStore};
use crate::session_timeline::entry_models;
use crate::text::{str_eq, texts_ascend};

pub mod answering;
pub mod approval;
pub mod approval_wait;
pub mod books;
pub mod compaction;
pub mod event_router;
pub mod live_timeline;
pub mod persistence;
pub mod provider_error;
pub mod provider_evidence;
pub mod reconstruction;
pub mod restored_history;
pub mod saves;
pub mod tool_lifecycle;
pub mod turn;

verus! {

broadcast use vstd::string::group_string_axioms;

#[derive(Debug, Clone, Copy, PartialEq, Eq, Structural)]
pub enum HistoryMutationError {
    Busy,
}

impl HistoryMutationError {
    pub fn message(&self) -> (text: &'static str)
        ensures
            text@ == "session is busy"@,
    {
        "session is busy"
    }
}

#[derive(Debug, Clone, PartialEq, Eq)]
pub enum RuntimeConfigError {
    Busy,
    UnknownOption,
    InvalidValue,
    UnsupportedOption,
    ApplyFailed(String),
}

#[derive(Debug, PartialEq, Eq)]
pub enum SessionPromptOutcome {
    Completed(Box<TurnResult>),
    Cancelled,
}

/// What one prompt came to. The cost is carried as the provider's accounting gives it.
#[derive(Debug, PartialEq, Eq)]
pub struct SessionPromptExecution<C> {
    pub outcome: SessionPromptOutcome,
    pub context_window: Option<u64>,
    pub cumulative_cost_usd: C,
}

#[derive(Debug, Clone, PartialEq, Eq)]
pub enum SessionPromptError {
    Busy,
    Stopped,
    DuplicateRequest(String),
    Model(String),
}

impl SessionPromptError {
    pub open spec fn text(self) -> Seq<char> {
        match self {
            SessionPromptError::Busy => "session is busy"@,
            SessionPromptError::Stopped => "session is stopped"@,
            SessionPromptError::DuplicateRequest(id) => "duplicate client user message id '"@ + id@
                + "'"@,
            SessionPromptError::Model(error) => error@,
        }
    }

    pub fn message(&self) -> (text: String)
        ensures
            text@ == self.text(),
    {
        match self {
            SessionPromptError::Busy => "session is busy".to_owned(),
            SessionPromptError::Stopped => "session is stopped".to_owned(),
            SessionPromptError::DuplicateRequest(id) => {
                let mut text = "duplicate client user message id '".to_owned();
                text.append(id.as_str());
                text.append("'");
                text
            },
            SessionPromptError::Model(error) => error.clone(),
        }
    }
}

/// Brings one id per user turn: the oldest ids give way, missing ones are empty.
pub open spec fn ids_aligned(before: Seq<String>, after: Seq<String>, turns: nat) -> bool {
    &&& after.len() == turns
    &&& if before.len() >= turns {
        after == before.skip(before.len() - turns)
    } else {
        let padding = (turns - before.len()) as int;
        &&& after.skip(padding) == before
        &&& forall|i: int| 0 <= i < padding ==> (#[trigger] after[i])@.len() == 0
    }
}

pub fn align_client_user_message_ids(ids: &mut Vec<String>, user_turn_count: usize)
    ensures
        ids_aligned(old(ids)@, final(ids)@, user_turn_count as nat),
{
    if ids.len() > user_turn_count {
        let excess: usize = ids.len() - user_turn_count;
        let kept = ids.split_off(excess);
        *ids = kept;
        assert(ids@ =~= old(ids)@.skip(excess as int));
    } else if ids.len() < user_turn_count {
        let padding: usize = user_turn_count - ids.len();
        let mut padded: Vec<String> = Vec::new();
        while padded.len() < padding
            invariant
                padded@.len() <= padding,
                forall|i: int| 0 <= i < padded@.len() ==> (#[trigger] padded@[i])@.len() == 0,
            decreases padding - padded@.len(),
        {
            padded.push(String::new());
        }
        let ghost blank = padded@;
        padded.append(ids);
        *ids = padded;
        assert(ids@ =~= blank + old(ids)@);
        assert(ids@.skip(padding as int) =~= old(ids)@);
    } else {
        assert(ids@ =~= old(ids)@.skip(0));
    }
}

/// Whether an id is among those of the user turns.
pub open spec fn has_request(ids: Seq<String>, id: Seq<char>) -> bool {
    exists|i: int| 0 <= i < ids.len() && (#[trigger] ids[i])@ == id
}

fn contains_request(ids: &Vec<String>, id: &str) -> (found: bool)
    ensures
        found == has_request(ids@, id@),
{
    let mut i: usize = 0;
    while i < ids.len()
        invariant
            i <= ids@.len(),
            forall|j: int| 0 <= j < i ==> (#[trigger] ids@[j])@ != id@,
        decreases ids@.len() - i,
    {
        if str_eq(ids[i].as_str(), id) {
            return true;
        }
        i = i + 1;
    }
    false
}

/// The tokens that a turn's last model call occupies.
pub fn occupied_tokens(prompt_tokens: u64, output_tokens: u64) -> (tokens: u64)
    ensures
        tokens == if prompt_tokens + output_tokens > u64::MAX {
            u64::MAX as int
        } else {
            prompt_tokens + output_tokens
        },
{
    prompt_tokens.saturating_add(output_tokens)
}

/// The context window that a provider reported for a model.
#[derive(Debug, Clone, PartialEq, Eq)]
pub struct ModelWindow {
    pub model: String,
    pub window: u64,
}

/// The window on record for a model.
pub open spec fn recorded_window(windows: Seq<ModelWindow>, model: Seq<char>) -> Option<u64>
    decreases windows.len(),
{
    if windows.len() == 0 {
        None
    } else if windows[0].model@ == model {
        Some(windows[0].window)
    } else {
        recorded_window(windows.drop_first(), model)
    }
}

/// A change of configuration that has to be applied to the running session.
#[derive(Debug, PartialEq, Eq)]
pub enum RuntimeChange {
    Model(String),
    Thinking(String),
}

/// The first option with an id.
pub open spec fn option_place(options: Seq<RuntimeOption>, id: Seq<char>) -> Option<int>
    decreases options.len(),
{
    if options.len() == 0 {
        None
    } else if options[0].id@ == id {
        Some(0)
    } else {
        match option_place(options.drop_first(), id) {
            Some(at) => Some(at + 1),
            None => None,
        }
    }
}

proof fn lemma_option_place(options: Seq<RuntimeOption>, id: Seq<char>, at: int)
    requires
        0 <= at <= options.len(),
        forall|j: int| 0 <= j < at ==> (#[trigger] options[j]).id@ != id,
        at < options.len() ==> options[at].id@ == id,
    ensures
        option_place(options, id) == if at < options.len() {
            Some(at)
        } else {
            None
        },
    decreases options.len(),
{
    if options.len() > 0 && at > 0 {
        assert(options[0].id@ != id);
        lemma_option_place(options.drop_first(), id, at - 1);
    }
}

fn find_option(options: &Vec<RuntimeOption>, id: &str) -> (place: Option<usize>)
    ensures
        match place {
            Some(at) => at < options@.len() && option_place(options@, id@) == Some(at as int),
            None => option_place(options@, id@) is None,
        },
{
    let mut i: usize = 0;
    while i < options.len()
        invariant
            i <= options@.len(),
            forall|j: int| 0 <= j < i ==> (#[trigger] options@[j]).id@ != id@,
        decreases options@.len() - i,
    {
        if str_eq(options[i].id.as_str(), id) {
            proof {
                lemma_option_place(options@, id@, i as int);
            }
            return Some(i);
        }
        i = i + 1;
    }
    proof {
        lemma_option_place(options@, id@, i as int);
    }
    None
}

/// The configuration that can be changed at run time.
pub open spec fn supported_change(config_id: Seq<char>, value: RuntimeValue) -> Option<
    RuntimeChange,
> {
    match value {
        RuntimeValue::String(text) => if config_id == "model"@ {
            Some(RuntimeChange::Model(text))
        } else if config_id == "thinking"@ {
            Some(RuntimeChange::Thinking(text))
        } else {
            None
        },
        _ => None,
    }
}

/// Why a change of configuration is refused.
pub open spec fn config_error(
    options: Seq<RuntimeOption>,
    config_id: Seq<char>,
    value: RuntimeValue,
    turn_active: bool,
) -> Option<RuntimeConfigError> {
    match option_place(options, config_id) {
        None => Some(RuntimeConfigError::UnknownOption),
        Some(at) => if !options[at].admits(value) {
            Some(RuntimeConfigError::InvalidValue)
        } else if turn_active && !options[at].mutable_while_running {
            Some(RuntimeConfigError::Busy)
        } else if supported_change(config_id, value) is None {
            Some(RuntimeConfigError::UnsupportedOption)
        } else {
            None
        },
    }
}

fn copy_ids(ids: &Vec<String>) -> (copy: Vec<String>)
    ensures
        copy@ == ids@,
{
    let mut copy: Vec<String> = Vec::new();
    let mut i: usize = 0;
    while i < ids.len()
        invariant
            i <= ids@.len(),
            copy@ == ids@.take(i as int),
        decreases ids@.len() - i,
    {
        copy.push(ids[i].clone());
        assert(copy@ =~= ids@.take(i + 1));
        i = i + 1;
    }
    assert(ids@.take(ids@.len() as int) =~= ids@);
    copy
}

fn copy_outcomes(outcomes: &Vec<AssistantOutcome>) -> (copy: Vec<AssistantOutcome>)
    ensures
        copy@ == outcomes@,
{
    let mut copy: Vec<AssistantOutcome> = Vec::new();
    let mut i: usize = 0;
    while i < outcomes.len()
        invariant
            i <= outcomes@.len(),
            copy@ == outcomes@.take(i as int),
        decreases outcomes@.len() - i,
    {
        copy.push(outcomes[i].clone());
        assert(copy@ =~= outcomes@.take(i + 1));
        i = i + 1;
    }
    assert(outcomes@.take(outcomes@.len() as int) =~= outcomes@);
    copy
}

/// Transport-independent state for one live agent session.
pub struct SessionCore<W> {
    pub turn: TurnController,
    pub mutation_active: bool,
    pub current_model: String,
    pub current_thinking: String,
    pub cwd: String,
    pub client_user_message_ids: Vec<String>,
    pub assistant_outcomes: Vec<AssistantOutcome>,
    pub compaction: SessionCompaction<W>,
    pub context_windows: Vec<ModelWindow>,
    pub runtime_options: Vec<RuntimeOption>,
    pub current_context_usage: Option<ContextUsage>,
    pub tracker: PersistenceTracker,
    pub persistence: Option<SessionPersistence>,
}

impl<W> SessionCore<W> {
    /// History changes and turns never overlap.
    pub open spec fn well_formed(self) -> bool {
        !(self.mutation_active && self.turn.claim() is Some)
    }

    pub fn new(
        current_model: String,
        current_thinking: String,
        cwd: String,
        compaction: SessionCompaction<W>,
        persistence: Option<SessionPersistence>,
    ) -> (core: Self)
        ensures
            core.well_formed(),
            core.turn.claim() is None,
            !core.mutation_active,
            core.current_model == current_model,
            core.current_thinking == current_thinking,
            core.cwd == cwd,
            core.client_user_message_ids@.len() == 0,
            core.assistant_outcomes@.len() == 0,
            core.compaction == compaction,
            core.context_windows@.len() == 0,
            core.runtime_options@.len() == 0,
            core.current_context_usage is None,
            core.tracker == (PersistenceTracker { generation: 0, requested: 0, completed: 0 }),
            core.persistence == persistence,
    {
        SessionCore {
            turn: TurnController::new(),
            mutation_active: false,
            current_model,
            current_thinking,
            cwd,
            client_user_message_ids: Vec::new(),
            assistant_outcomes: Vec::new(),
            compaction,
            context_windows: Vec::new(),
            runtime_options: Vec::new(),
            current_context_usage: None,
            tracker: PersistenceTracker::new(),
            persistence,
        }
    }

    /// Whether a user turn with this id was already taken.
    pub fn has_completed_request(&self, request_id: &str) -> (completed: bool)
        ensures
            completed == has_request(self.client_user_message_ids@, request_id@),
    {
        contains_request(&self.client_user_message_ids, request_id)
    }

    /// Starts a turn unless one runs or the history is being changed.
    pub fn begin_turn(&mut self) -> (result: Result<(ActiveTurn, SessionEvent), TurnError>)
        requires
            old(self).well_formed(),
        ensures
            final(self).well_formed(),
            *final(self) == (SessionCore { turn: final(self).turn, ..*old(self) }),
            match result {
                Ok((turn, event)) => {
                    &&& !old(self).mutation_active
                    &&& old(self).turn.claim() is None
                    &&& final(self).turn.claim() == Some(TurnClaim::Live)
                    &&& final(self).turn.owns(turn)
                    &&& forall|other: ActiveTurn|
                        final(self).turn.owns(other) ==> other.number() == turn.number()
                    &&& event == status_event(TurnStatus::Running)
                },
                Err(error) => {
                    &&& error == TurnError::Busy
                    &&& old(self).mutation_active || old(self).turn.claim() is Some
                    &&& final(self).turn == old(self).turn
                },
            },
    {
        if self.mutation_active {
            return Err(TurnError::Busy);
        }
        match self.turn.begin() {
            Ok(turn) => Ok(
                (turn, SessionEvent::TurnStatusChanged { status: TurnStatus::Running }),
            ),
            Err(error) => Err(error),
        }
    }

    /// Cancels the turn that runs. `Cancelling` is told once per turn, before
    /// the turn is notified, so that it cannot follow the turn's terminal status.
    pub fn cancel_turn(&mut self) -> (cancelled: (bool, Option<SessionEvent>))
        requires
            old(self).well_formed(),
        ensures
            final(self).well_formed(),
            *final(self) == (SessionCore { turn: final(self).turn, ..*old(self) }),
            match old(self).turn.claim() {
                Some(TurnClaim::Live) => cancelled == (
                    true,
                    Some(status_event(TurnStatus::Cancelling)),
                ) && final(self).turn.claim() == Some(TurnClaim::Cancelled),
                Some(TurnClaim::Cancelled) => cancelled == (true, None::<SessionEvent>)
                    && final(self).turn.claim() == old(self).turn.claim(),
                _ => cancelled == (false, None::<SessionEvent>) && final(self).turn.claim()
                    == old(self).turn.claim(),
            },
            forall|turn: ActiveTurn| final(self).turn.owns(turn) == old(self).turn.owns(turn),
    {
        match self.turn.request_cancel() {
            TurnCancel::Refused => (false, None),
            TurnCancel::First => (
                true,
                Some(SessionEvent::TurnStatusChanged { status: TurnStatus::Cancelling }),
            ),
            TurnCancel::Repeated => (true, None),
        }
    }

    /// Claims completion for a turn whose work is done, so that a cancel during
    /// the bookkeeping that follows cannot relabel it.
    pub fn mark_completed(&mut self, turn: &ActiveTurn)
        requires
            old(self).well_formed(),
        ensures
            final(self).well_formed(),
            *final(self) == (SessionCore { turn: final(self).turn, ..*old(self) }),
            final(self).turn.claim() == match old(self).turn.claim() {
                Some(claim) => Some(
                    if old(self).turn.owns(*turn) {
                        after_complete(claim)
                    } else {
                        claim
                    },
                ),
                None => None,
            },
            forall|other: ActiveTurn|
                final(self).turn.owns(other) == old(self).turn.owns(other),
    {
        self.turn.complete(turn);
    }

    pub fn turn_is_active(&self) -> (active: bool)
        ensures
            active == self.turn.claim() is Some,
    {
        self.turn.is_active()
    }

    /// Ends a turn with the one terminal status that its claim calls for.
    pub fn end_turn(&mut self, turn: ActiveTurn) -> (event: SessionEvent)
        requires
            old(self).well_formed(),
        ensures
            final(self).well_formed(),
            *final(self) == (SessionCore { turn: final(self).turn, ..*old(self) }),
            event == status_event(
                if old(self).turn.owns(turn) && old(self).turn.claim() == Some(
                    TurnClaim::Cancelled,
                ) {
                    TurnStatus::Cancelled
                } else {
                    TurnStatus::Idle
                },
            ),
            old(self).turn.owns(turn) ==> final(self).turn.claim() is None,
            !old(self).turn.owns(turn) ==> final(self).turn.claim() == old(self).turn.claim(),
            forall|other: ActiveTurn|
                final(self).turn.owns(other) == (old(self).turn.owns(other) && !old(
                    self,
                ).turn.owns(turn)),
    {
        let status = self.turn.end(turn);
        SessionEvent::TurnStatusChanged { status }
    }

    pub fn mutation_is_active(&self) -> (active: bool)
        ensures
            active == self.mutation_active,
    {
        self.mutation_active
    }

    pub fn current_model(&self) -> (model: String)
        ensures
            model@ == self.current_model@,
    {
        self.current_model.clone()
    }

    pub fn runtime_options(&self) -> (options: Vec<RuntimeOption>)
        ensures
            same_options(self.runtime_options@, options@),
    {
        copy_options(self.runtime_options.as_slice())
    }

    /// How far what the session holds is saved.
    pub fn persistence_health(&self) -> (health: PersistenceHealth)
        ensures
            health == self.tracker.health_of(
                match self.persistence {
                    Some(persistence) => Some(persistence.state()),
                    None => None,
                },
            ),
    {
        match &self.persistence {
            Some(persistence) => self.tracker.persistence_health(Some(persistence)),
            None => self.tracker.persistence_health(None),
        }
    }

    /// Captures what is to be saved, under a generation of its own. The
    /// watermark was read before the state, so that it claims no event that the
    /// capture does not hold.
    pub fn capture_persistence(
        &mut self,
        through_seq: u64,
        model: String,
        messages: Vec<Message>,
    ) -> (capture: PersistenceCapture)
        requires
            old(self).tracker.generation < u64::MAX,
        ensures
            *final(self) == (SessionCore {
                tracker: PersistenceTracker {
                    generation: capture.generation,
                    ..old(self).tracker
                },
                ..*old(self)
            }),
            capture.generation == old(self).tracker.generation + 1,
            capture.through_seq == through_seq,
            capture.capture == (SaveCapture {
                model,
                thinking: old(self).current_thinking,
                messages,
                cwd: old(self).cwd,
                client_user_message_ids: capture.capture.client_user_message_ids,
                assistant_outcomes: capture.capture.assistant_outcomes,
            }),
            capture.capture.client_user_message_ids@ == old(self).client_user_message_ids@,
            capture.capture.assistant_outcomes@ == old(self).assistant_outcomes@,
    {
        let generation: u64 = self.tracker.mint_generation();
        PersistenceCapture {
            generation,
            through_seq,
            capture: SaveCapture {
                model,
                thinking: self.current_thinking.clone(),
                messages,
                cwd: self.cwd.clone(),
                client_user_message_ids: copy_ids(&self.client_user_message_ids),
                assistant_outcomes: copy_outcomes(&self.assistant_outcomes),
            },
        }
    }

    /// Deletes what is stored of the session. One that is stored nowhere has
    /// nothing to delete.
    pub fn delete_persisted(&mut self, store: &mut SessionStore) -> (settled: (bool, bool))
        requires
            old(store).well_formed(),
        ensures
            final(store).well_formed(),
            *final(self) == (SessionCore { persistence: final(self).persistence, ..*old(self) }),
            match old(self).persistence {
                Some(before) => final(self).persistence matches Some(after) && deletes(
                    before,
                    after,
                    *old(store),
                    *final(store),
                    settled,
                ),
                None => {
                    &&& settled == (false, false)
                    &&& final(self).persistence is None
                    &&& *final(store) == *old(store)
                },
            },
    {
        match self.persistence.take() {
            Some(mut persistence) => {
                let settled = persistence.delete(store);
                self.persistence = Some(persistence);
                settled
            },
            None => (false, false),
        }
    }

    /// What a client that attaches is shown of the session: its history as far
    /// as the bound allows, and its state now.
    pub fn initial_snapshot(
        &self,
        session_id: String,
        max_entries: usize,
        history: &[Message],
        interrupted: &str,
        tools: &CanonicalToolLifecycle,
        seq: u64,
        pending_approvals: Vec<ApprovalRequest>,
    ) -> (snapshot: SessionTimelineSnapshot)
        ensures
            ({
                let timeline = reconstructed(
                    history@,
                    self.assistant_outcomes@,
                    max_entries as nat,
                    interrupted@,
                    *tools,
                );
                &&& snapshot.session_id == session_id
                &&& snapshot.seq == seq
                &&& snapshot.turn_status == if self.turn.claim() is Some {
                    TurnStatus::Running
                } else {
                    TurnStatus::Idle
                }
                &&& entry_models(snapshot.timeline@) == timeline.timeline
                &&& snapshot.active_tools@.len() == 0
                &&& snapshot.history_window == timeline.window
                &&& snapshot.pending_approvals == pending_approvals
                &&& same_options(self.runtime_options@, snapshot.runtime_options@)
                &&& snapshot.context_usage == self.current_context_usage
            }),
    {
        let timeline = reconstruct_timeline(
            history,
            self.assistant_outcomes.as_slice(),
            max_entries,
            interrupted,
            tools,
        );
        snapshot_of(
            session_id,
            seq,
            self.turn.is_active(),
            timeline,
            pending_approvals,
            self.runtime_options(),
            self.current_context_usage,
        )
    }

    /// Claims the history for a change; no turn can start until it is released.
    pub fn acquire_mutation(&mut self) -> (result: Result<(), HistoryMutationError>)
        requires
            old(self).well_formed(),
        ensures
            final(self).well_formed(),
            match result {
                Ok(()) => !old(self).mutation_active && old(self).turn.claim() is None
                    && *final(self) == (SessionCore { mutation_active: true, ..*old(self) }),
                Err(error) => error == HistoryMutationError::Busy && (old(self).mutation_active
                    || old(self).turn.claim() is Some) && *final(self) == *old(self),
            },
    {
        if self.mutation_active || self.turn.is_active() {
            return Err(HistoryMutationError::Busy);
        }
        self.mutation_active = true;
        Ok(())
    }

    pub fn release_mutation(&mut self)
        ensures
            *final(self) == (SessionCore { mutation_active: false, ..*old(self) }),
    {
        self.mutation_active = false;
    }

    /// Forgets the conversation's ids and outcomes while usage and configuration
    /// stay; reports whether there was anything to forget.
    pub fn clear_history(&mut self, history_was_empty: bool) -> (changed: bool)
        requires
            old(self).well_formed(),
            old(self).mutation_active,
        ensures
            final(self).well_formed(),
            changed == (!history_was_empty || old(self).client_user_message_ids@.len() > 0
                || old(self).assistant_outcomes@.len() > 0),
            *final(self) == (SessionCore {
                client_user_message_ids: final(self).client_user_message_ids,
                assistant_outcomes: final(self).assistant_outcomes,
                ..*old(self)
            }),
            final(self).client_user_message_ids@.len() == 0,
            final(self).assistant_outcomes@.len() == 0,
    {
        let changed = !history_was_empty || self.client_user_message_ids.len() > 0
            || self.assistant_outcomes.len() > 0;
        self.client_user_message_ids = Vec::new();
        self.assistant_outcomes = Vec::new();
        changed
    }

    pub fn set_runtime_options(&mut self, options: Vec<RuntimeOption>)
        ensures
            *final(self) == (SessionCore { runtime_options: options, ..*old(self) }),
    {
        self.runtime_options = options;
    }

    /// Decides a change of configuration. The caller applies it to the provider
    /// session, makes it current with `adopt_model` and `publish_carried_usage`
    /// or with `adopt_thinking`, and records it with `commit_runtime_option`.
    pub fn apply_runtime_option(&self, config_id: &str, value: &RuntimeValue) -> (result: Result<
        RuntimeChange,
        RuntimeConfigError,
    >)
        ensures
            match result {
                Ok(change) => config_error(
                    self.runtime_options@,
                    config_id@,
                    *value,
                    self.turn.claim() is Some,
                ) is None && supported_change(config_id@, *value) == Some(change),
                Err(error) => config_error(
                    self.runtime_options@,
                    config_id@,
                    *value,
                    self.turn.claim() is Some,
                ) == Some(error),
            },
    {
        match find_option(&self.runtime_options, config_id) {
            None => Err(RuntimeConfigError::UnknownOption),
            Some(at) => {
                if !self.runtime_options[at].accepts(value) {
                    return Err(RuntimeConfigError::InvalidValue);
                }
                if self.turn.is_active() && !self.runtime_options[at].mutable_while_running {
                    return Err(RuntimeConfigError::Busy);
                }
                match value {
                    RuntimeValue::String(text) => {
                        if str_eq(config_id, "model") {
                            Ok(RuntimeChange::Model(text.clone()))
                        } else if str_eq(config_id, "thinking") {
                            Ok(RuntimeChange::Thinking(text.clone()))
                        } else {
                            Err(RuntimeConfigError::UnsupportedOption)
                        }
                    },
                    _ => Err(RuntimeConfigError::UnsupportedOption),
                }
            },
        }
    }

    /// Whether an option that was allowed to change still is: a turn may have
    /// started since.
    pub fn recheck_runtime_option(&self, option: &RuntimeOption) -> (result: Result<
        (),
        RuntimeConfigError,
    >)
        ensures
            result == if self.turn.claim() is Some && !option.mutable_while_running {
                Err::<(), RuntimeConfigError>(RuntimeConfigError::Busy)
            } else {
                Ok(())
            },
    {
        if self.turn.is_active() && !option.mutable_while_running {
            return Err(RuntimeConfigError::Busy);
        }
        Ok(())
    }

    /// Makes a model that the provider session took the current one.
    pub fn adopt_model(&mut self, model: String)
        ensures
            *final(self) == (SessionCore { current_model: model, ..*old(self) }),
    {
        self.current_model = model;
    }

    /// Makes a thinking level that the provider session took the current one.
    pub fn adopt_thinking(&mut self, level: String)
        ensures
            *final(self) == (SessionCore { current_thinking: level, ..*old(self) }),
    {
        self.current_thinking = level;
    }

    /// Records an applied value. An option that vanished meanwhile is restored,
    /// since the change has already taken effect.
    pub fn commit_runtime_option(&mut self, option: RuntimeOption, value: RuntimeValue) -> (event:
        SessionEvent)
        ensures
            *final(self) == (SessionCore {
                runtime_options: final(self).runtime_options,
                ..*old(self)
            }),
            final(self).runtime_options@ == match option_place(
                old(self).runtime_options@,
                option.id@,
            ) {
                Some(at) => old(self).runtime_options@.update(
                    at,
                    RuntimeOption { value, ..old(self).runtime_options@[at] },
                ),
                None => old(self).runtime_options@.push(RuntimeOption { value, ..option }),
            },
            event matches SessionEvent::RuntimeOptionsChanged { options } && same_options(
                final(self).runtime_options@,
                options@,
            ),
    {
        match find_option(&self.runtime_options, option.id.as_str()) {
            Some(at) => {
                let ghost before = self.runtime_options@;
                self.runtime_options[at].value = value;
                assert(self.runtime_options@ =~= before.update(
                    at as int,
                    RuntimeOption { value, ..before[at as int] },
                ));
            },
            None => {
                let mut applied = option;
                applied.value = value;
                self.runtime_options.push(applied);
            },
        }
        SessionEvent::RuntimeOptionsChanged {
            options: copy_options(self.runtime_options.as_slice()),
        }
    }

    /// The window on record for a model.
    pub fn cached_window(&self, model: &str) -> (window: Option<u64>)
        ensures
            window == recorded_window(self.context_windows@, model@),
    {
        let mut i: usize = 0;
        assert(self.context_windows@.skip(0) =~= self.context_windows@);
        while i < self.context_windows.len()
            invariant
                i <= self.context_windows@.len(),
                recorded_window(self.context_windows@, model@) == recorded_window(
                    self.context_windows@.skip(i as int),
                    model@,
                ),
            decreases self.context_windows@.len() - i,
        {
            assert(self.context_windows@.skip(i as int)[0] == self.context_windows@[i as int]);
            assert(self.context_windows@.skip(i as int).drop_first()
                =~= self.context_windows@.skip(i + 1));
            if str_eq(self.context_windows[i].model.as_str(), model) {
                return Some(self.context_windows[i].window);
            }
            i = i + 1;
        }
        None
    }

    /// Makes a usage the current one.
    pub fn publish_context_usage(&mut self, usage: ContextUsage) -> (event: SessionEvent)
        ensures
            *final(self) == (SessionCore { current_context_usage: Some(usage), ..*old(self) }),
            event == (SessionEvent::ContextUsageChanged { usage }),
    {
        self.current_context_usage = Some(usage);
        SessionEvent::ContextUsageChanged { usage }
    }

    /// The tokens in use after a change of model: the conversation is the same,
    /// so the last observed occupancy stands, else the estimate.
    pub open spec fn carried(self, estimated: u64) -> u64 {
        match self.current_context_usage {
            Some(usage) => usage.prompt_tokens,
            None => estimated,
        }
    }

    pub fn carried_tokens(&self, estimated: u64) -> (tokens: u64)
        ensures
            tokens == self.carried(estimated),
    {
        match &self.current_context_usage {
            Some(usage) => usage.prompt_tokens,
            None => estimated,
        }
    }

    /// Admits a prompt unless its id was taken by an earlier turn.
    pub fn admit_prompt(&mut self, user_turn_count: usize, client_id: Option<&str>) -> (result:
        Result<(), SessionPromptError>)
        ensures
            *final(self) == (SessionCore {
                client_user_message_ids: final(self).client_user_message_ids,
                ..*old(self)
            }),
            ids_aligned(
                old(self).client_user_message_ids@,
                final(self).client_user_message_ids@,
                user_turn_count as nat,
            ),
            match client_id {
                Some(id) => if has_request(final(self).client_user_message_ids@, id@) {
                    result matches Err(SessionPromptError::DuplicateRequest(told)) && told@ == id@
                } else {
                    result is Ok
                },
                None => result is Ok,
            },
    {
        align_client_user_message_ids(&mut self.client_user_message_ids, user_turn_count);
        match client_id {
            Some(id) => {
                if contains_request(&self.client_user_message_ids, id) {
                    Err(SessionPromptError::DuplicateRequest(id.to_owned()))
                } else {
                    Ok(())
                }
            },
            None => Ok(()),
        }
    }

    /// Takes a completed turn into the books: its id is the newest, and at most
    /// one outcome per earlier turn is kept.
    pub fn record_completed_turn(&mut self, client_id: Option<String>, user_turn_count: usize)
        ensures
            *final(self) == (SessionCore {
                client_user_message_ids: final(self).client_user_message_ids,
                assistant_outcomes: final(self).assistant_outcomes,
                ..*old(self)
            }),
            id_recorded(
                old(self).client_user_message_ids@,
                final(self).client_user_message_ids@,
                client_id,
                user_turn_count as nat,
            ),
            final(self).assistant_outcomes@ == kept_outcomes(
                old(self).assistant_outcomes@,
                user_turn_count as nat,
            ),
            old(self).assistant_outcomes@.len() < user_turn_count
                ==> final(self).assistant_outcomes@ == old(self).assistant_outcomes@,
    {
        let id = match client_id {
            Some(id) => id,
            None => String::new(),
        };
        self.client_user_message_ids.push(id);
        align_client_user_message_ids(&mut self.client_user_message_ids, user_turn_count);
        assert(ids_aligned(
            old(self).client_user_message_ids@.push(id),
            self.client_user_message_ids@,
            user_turn_count as nat,
        ));
        let earlier: usize = if user_turn_count == 0 {
            0
        } else {
            user_turn_count - 1
        };
        if self.assistant_outcomes.len() > earlier {
            let excess: usize = self.assistant_outcomes.len() - earlier;
            let kept = self.assistant_outcomes.split_off(excess);
            self.assistant_outcomes = kept;
            assert(self.assistant_outcomes@ =~= old(self).assistant_outcomes@.skip(excess as int));
        }
    }

    /// Records the outcome of a turn and tells of it.
    pub fn record_outcome(&mut self, outcome: AssistantOutcome) -> (event: SessionEvent)
        ensures
            *final(self) == (SessionCore {
                assistant_outcomes: final(self).assistant_outcomes,
                ..*old(self)
            }),
            final(self).assistant_outcomes@ == old(self).assistant_outcomes@.push(outcome),
            event == (SessionEvent::AssistantDone { outcome }),
    {
        self.assistant_outcomes.push(outcome.clone());
        SessionEvent::AssistantDone { outcome }
    }
}

impl<W: Copy> SessionCore<W> {
    /// Settles a model's window and policy. `resolved` is what the provider
    /// says; it counts only where no window is on record, and is then recorded.
    pub fn prepare_model(&mut self, model: &str, resolved: Option<u64>) -> (result: Result<
        (Option<CompactionPolicy<W>>, Option<u64>),
        String,
    >)
        ensures
            ({
                let window = known_window(old(self).context_windows@, model@, resolved);
                &&& *final(self) == (SessionCore {
                    context_windows: final(self).context_windows,
                    ..*old(self)
                })
                &&& recorded_window(final(self).context_windows@, model@) == window
                &&& forall|other: Seq<char>|
                    other != model@ ==> recorded_window(final(self).context_windows@, other)
                        == #[trigger] recorded_window(old(self).context_windows@, other)
                &&& match old(self).compaction.resolved(window) {
                    Ok(policy) => result == Ok::<
                        (Option<CompactionPolicy<W>>, Option<u64>),
                        String,
                    >((policy, old(self).compaction.window_for(window))),
                    Err(error) => result matches Err(text) && text@ == policy_error_text(
                        error,
                        model@,
                    ),
                }
            }),
    {
        let cached = self.cached_window(model);
        let context_window: Option<u64> = match cached {
            Some(window) => Some(window),
            None => match resolved {
                Some(window) => if window > 0 {
                    let ghost before = self.context_windows@;
                    let entry = ModelWindow { model: model.to_owned(), window };
                    self.context_windows.push(entry);
                    proof {
                        assert forall|other: Seq<char>| recorded_window(
                            self.context_windows@,
                            other,
                        ) == if #[trigger] recorded_window(before, other) is Some {
                            recorded_window(before, other)
                        } else if other == model@ {
                            Some(window)
                        } else {
                            None
                        } by {
                            lemma_recorded_push(before, entry, other);
                        }
                    }
                    Some(window)
                } else {
                    None
                },
                None => None,
            },
        };
        match self.compaction.policy_for(model, context_window) {
            Ok(policy) => Ok((policy, self.compaction.effective_window(context_window))),
            Err(text) => Err(text),
        }
    }

    /// The usage to report for the current model.
    pub fn context_usage(
        &self,
        used_tokens: u64,
        context_window: Option<u64>,
        high_water_tokens: Option<u64>,
    ) -> (usage: ContextUsage)
        ensures
            usage == self.compaction.usage_for(used_tokens, context_window, high_water_tokens),
    {
        self.compaction.context_usage(
            self.current_model.as_str(),
            used_tokens,
            context_window,
            high_water_tokens,
        )
    }
}

impl<W: Copy> SessionCore<W> {
    /// Publishes the usage after a change of model: the carried tokens against
    /// the new window, marked as an estimate until the model itself counts.
    pub fn publish_carried_usage(
        &mut self,
        estimated: u64,
        context_window: Option<u64>,
        high_water_tokens: Option<u64>,
    ) -> (event: SessionEvent)
        ensures
            ({
                let usage = ContextUsage {
                    estimated: true,
                    ..old(self).compaction.usage_for(
                        old(self).carried(estimated),
                        context_window,
                        high_water_tokens,
                    )
                };
                &&& *final(self) == (SessionCore {
                    current_context_usage: Some(usage),
                    ..*old(self)
                })
                &&& event == (SessionEvent::ContextUsageChanged { usage })
            }),
    {
        let used: u64 = self.carried_tokens(estimated);
        let usage = self.context_usage(used, context_window, high_water_tokens);
        self.publish_context_usage(usage.mark_estimated())
    }
}

/// What a prompt starts with.
#[derive(Debug, PartialEq, Eq)]
pub struct PromptStart<W> {
    pub policy: Option<CompactionPolicy<W>>,
    pub context_window: Option<u64>,
    pub events: Vec<SessionEvent>,
}

/// What a prompt ends with: the events to emit in order, whether the session
/// is to be saved, and the outcome.
#[derive(Debug, PartialEq, Eq)]
pub struct PromptFinish {
    pub events: Vec<SessionEvent>,
    pub persist: bool,
    pub outcome: SessionPromptOutcome,
}

impl<W: Copy> SessionCore<W> {
    /// Prepares the model for an admitted prompt and announces the turn. A
    /// model without a usable window refuses before anything is announced.
    pub fn start_prompt(
        &mut self,
        resolved: Option<u64>,
        text: String,
        request_id: Option<String>,
        assistant_prefix: Option<String>,
    ) -> (result: Result<PromptStart<W>, SessionPromptError>)
        ensures
            ({
                let model = old(self).current_model@;
                let window = known_window(old(self).context_windows@, model, resolved);
                &&& *final(self) == (SessionCore {
                    context_windows: final(self).context_windows,
                    ..*old(self)
                })
                &&& recorded_window(final(self).context_windows@, model) == window
                &&& forall|other: Seq<char>|
                    other != model ==> recorded_window(final(self).context_windows@, other)
                        == #[trigger] recorded_window(old(self).context_windows@, other)
                &&& match old(self).compaction.resolved(window) {
                    Ok(policy) => {
                        &&& result matches Ok(start) && start.policy == policy
                            && start.context_window == old(self).compaction.window_for(window)
                            && start.events@ == opening_events(text, request_id, assistant_prefix)
                    },
                    Err(error) => result matches Err(SessionPromptError::Model(told)) && told@
                        == policy_error_text(error, model),
                }
            }),
    {
        let model = self.current_model.clone();
        match self.prepare_model(model.as_str(), resolved) {
            Err(text) => Err(SessionPromptError::Model(text)),
            Ok((policy, context_window)) => Ok(
                PromptStart {
                    policy,
                    context_window,
                    events: prompt_events(text, request_id, assistant_prefix),
                },
            ),
        }
    }

    /// Takes the end of a prompt into the books. A completed turn is recorded
    /// and told with its usage first, then its outcome, and is to be saved; a
    /// cancelled one leaves the books as they were.
    pub fn finish_prompt(
        &mut self,
        turn: Option<TurnResult>,
        outcome: AssistantOutcome,
        client_id: Option<String>,
        user_turn_count: usize,
        context_window: Option<u64>,
        high_water_tokens: Option<u64>,
    ) -> (finish: PromptFinish)
        ensures
            match turn {
                None => {
                    &&& *final(self) == *old(self)
                    &&& finish.events@.len() == 0
                    &&& !finish.persist
                    &&& finish.outcome is Cancelled
                },
                Some(turn) => {
                    &&& *final(self) == (SessionCore {
                        client_user_message_ids: final(self).client_user_message_ids,
                        assistant_outcomes: final(self).assistant_outcomes,
                        current_context_usage: final(self).current_context_usage,
                        ..*old(self)
                    })
                    &&& turn_booked(
                        *old(self),
                        *final(self),
                        client_id,
                        outcome,
                        user_turn_count as nat,
                    )
                    &&& old(self).assistant_outcomes@.len() < user_turn_count
                        ==> final(self).assistant_outcomes@
                        == old(self).assistant_outcomes@.push(outcome)
                    &&& final(self).current_context_usage == Some(
                        prompt_usage(old(self).compaction, turn, context_window, high_water_tokens),
                    )
                    &&& finish.events@ == seq![
                        SessionEvent::ContextUsageChanged {
                            usage: prompt_usage(
                                old(self).compaction,
                                turn,
                                context_window,
                                high_water_tokens,
                            ),
                        },
                        SessionEvent::AssistantDone { outcome },
                    ]
                    &&& finish.persist
                    &&& finish.outcome == SessionPromptOutcome::Completed(Box::new(turn))
                },
            },
    {
        match turn {
            None => PromptFinish {
                events: Vec::new(),
                persist: false,
                outcome: SessionPromptOutcome::Cancelled,
            },
            Some(turn) => {
                self.record_completed_turn(client_id, user_turn_count);
                let used: u64 = occupied_tokens(
                    turn.last_call_prompt_tokens,
                    turn.last_call_output_tokens,
                );
                let usage = self.context_usage(used, context_window, high_water_tokens);
                let mut events: Vec<SessionEvent> = Vec::new();
                events.push(self.publish_context_usage(usage));
                events.push(self.record_outcome(outcome));
                PromptFinish {
                    events,
                    persist: true,
                    outcome: SessionPromptOutcome::Completed(Box::new(turn)),
                }
            },
        }
    }
}

/// How a completed turn is taken into the books: its id and its outcome join
/// those of the earlier turns.
pub open spec fn turn_booked<W>(
    before: SessionCore<W>,
    after: SessionCore<W>,
    client_id: Option<String>,
    outcome: AssistantOutcome,
    user_turn_count: nat,
) -> bool {
    &&& id_recorded(
        before.client_user_message_ids@,
        after.client_user_message_ids@,
        client_id,
        user_turn_count,
    )
    &&& after.assistant_outcomes@ == kept_outcomes(
        before.assistant_outcomes@,
        user_turn_count,
    ).push(outcome)
}

/// The ids after a turn: the client's own id, or an empty one, joins the
/// earlier ids, and the list is brought to one id for each user turn.
pub open spec fn id_recorded(
    before: Seq<String>,
    after: Seq<String>,
    client_id: Option<String>,
    user_turn_count: nat,
) -> bool {
    exists|id: String|
        id@ == match client_id {
            Some(id) => id@,
            None => Seq::<char>::empty(),
        } && #[trigger] ids_aligned(before.push(id), after, user_turn_count)
}

/// The outcomes that stay beside a new one: the newest, one for each earlier turn.
pub open spec fn kept_outcomes(outcomes: Seq<AssistantOutcome>, user_turn_count: nat) -> Seq<
    AssistantOutcome,
> {
    let earlier = if user_turn_count == 0 {
        0
    } else {
        user_turn_count - 1
    };
    if outcomes.len() > earlier {
        outcomes.skip(outcomes.len() - earlier)
    } else {
        outcomes
    }
}

/// The usage that a completed turn leaves behind.
pub open spec fn prompt_usage<W>(
    compaction: SessionCompaction<W>,
    turn: TurnResult,
    context_window: Option<u64>,
    high_water_tokens: Option<u64>,
) -> ContextUsage {
    compaction.usage_for(
        saturated(turn.last_call_prompt_tokens, turn.last_call_output_tokens),
        context_window,
        high_water_tokens,
    )
}

pub open spec fn saturated(a: u64, b: u64) -> u64 {
    if a + b > u64::MAX {
        u64::MAX
    } else {
        (a + b) as u64
    }
}

/// The window that a model is known to have: the one on record, else what the
/// provider says where that is positive.
pub open spec fn known_window(
    windows: Seq<ModelWindow>,
    model: Seq<char>,
    resolved: Option<u64>,
) -> Option<u64> {
    if recorded_window(windows, model) is Some {
        recorded_window(windows, model)
    } else {
        match resolved {
            Some(window) if window > 0 => Some(window),
            _ => None,
        }
    }
}

proof fn lemma_recorded_push(windows: Seq<ModelWindow>, entry: ModelWindow, model: Seq<char>)
    ensures
        recorded_window(windows.push(entry), model) == if recorded_window(windows, model) is Some {
            recorded_window(windows, model)
        } else if model == entry.model@ {
            Some(entry.window)
        } else {
            None
        },
    decreases windows.len(),
{
    if windows.len() == 0 {
        reveal_with_fuel(recorded_window, 2);
        assert(windows.push(entry).drop_first() =~= Seq::<ModelWindow>::empty());
    } else {
        assert(windows.push(entry).drop_first() =~= windows.drop_first().push(entry));
        lemma_recorded_push(windows.drop_first(), entry, model);
    }
}

/// The events that open a turn: the user's message, then the prefix of the
/// assistant's reply where one was given.
pub open spec fn opening_events(
    text: String,
    request_id: Option<String>,
    assistant_prefix: Option<String>,
) -> Seq<SessionEvent> {
    match assistant_prefix {
        Some(prefix) => seq![
            SessionEvent::UserMessage { text, request_id },
            SessionEvent::AssistantDelta { text: prefix },
        ],
        None => seq![SessionEvent::UserMessage { text, request_id }],
    }
}

pub fn prompt_events(text: String, request_id: Option<String>, assistant_prefix: Option<String>) -> (
    events: Vec<SessionEvent>)
    ensures
        events@ == opening_events(text, request_id, assistant_prefix),
{
    let mut events: Vec<SessionEvent> = Vec::new();
    events.push(SessionEvent::UserMessage { text, request_id });
    if let Some(prefix) = assistant_prefix {
        events.push(SessionEvent::AssistantDelta { text: prefix });
    }
    events
}

/// The events of some resolutions, in order.
pub open spec fn resolution_events(resolutions: Seq<ApprovalResolution>) -> Seq<SessionEvent> {
    resolutions.map_values(|resolution: ApprovalResolution| resolution_event(resolution))
}

/// The tools that resolutions allow for good, in order.
pub open spec fn always_tools(resolutions: Seq<ApprovalResolution>) -> Seq<String>
    decreases resolutions.len(),
{
    if resolutions.len() == 0 {
        seq![]
    } else if resolutions.last().decision == ApprovalDecision::AllowAlways {
        always_tools(resolutions.drop_last()).push(resolutions.last().tool)
    } else {
        always_tools(resolutions.drop_last())
    }
}

/// Settles everything that a cancelled turn left open: approvals are resolved,
/// tools that a recovered answer allows for good are remembered, and calls
/// that still ran are cancelled. The events are to be emitted in order.
pub fn cleanup_cancelled_turn(
    approvals: &mut ApprovalBroker,
    tools: &mut CanonicalToolLifecycle,
) -> (settled: (Vec<SessionEvent>, Vec<String>))
    requires
        old(approvals).well_formed(),
        old(tools).well_formed(),
    ensures
        final(approvals).well_formed(),
        final(tools).well_formed(),
        final(approvals).waiting().len() == 0,
        final(approvals).undelivered().len() == 0,
        final(approvals).newest() == old(approvals).newest(),
        final(approvals).settings() == old(approvals).settings(),
        final(tools).running().len() == 0,
        final(tools).same_limits(*old(tools)),
        exists|resolutions: Seq<ApprovalResolution>, numbers: Seq<u64>, ids: Seq<String>|
            {
                &&& #[trigger] drained(
                    *old(approvals),
                    "session_cancelled"@,
                    resolutions,
                    numbers,
                )
                &&& #[trigger] texts_ascend(ids)
                &&& ids.len() == old(tools).running().len()
                &&& forall|i: int|
                    0 <= i < old(tools).running().len() ==> ids.contains(
                        #[trigger] old(tools).running()[i],
                    )
                &&& settled.0@.len() == resolutions.len() + 2 * ids.len()
                &&& settled.0@.take(resolutions.len() as int) == resolution_events(resolutions)
                &&& cancels(settled.0@.skip(resolutions.len() as int), ids)
                &&& settled.1@ == always_tools(resolutions)
            },
{
    let resolutions = approvals.cancel_all("session_cancelled");
    let ghost given = resolutions@;
    let ghost numbers = choose|numbers: Seq<u64>|
        #[trigger] drained(*old(approvals), "session_cancelled"@, given, numbers);
    let mut events: Vec<SessionEvent> = Vec::new();
    let mut remembered: Vec<String> = Vec::new();
    let mut i: usize = 0;
    while i < resolutions.len()
        invariant
            i <= resolutions@.len(),
            resolutions@ == given,
            events@ == resolution_events(given.take(i as int)),
            remembered@ == always_tools(given.take(i as int)),
        decreases resolutions@.len() - i,
    {
        proof {
            assert(given.take(i + 1).drop_last() =~= given.take(i as int));
        }
        if remembers_always(&resolutions[i]) {
            remembered.push(resolutions[i].tool.clone());
        }
        let ghost before = events@;
        events.push(resolution_to_event(resolutions[i].clone()));
        assert(events@ =~= resolution_events(given.take(i + 1)));
        i = i + 1;
    }
    assert(given.take(given.len() as int) =~= given);
    let ghost told = events@;
    let mut cancelled = tools.cancel_all();
    let ghost tail = cancelled@;
    events.append(&mut cancelled);
    proof {
        assert(events@ =~= told + tail);
        assert(events@.take(given.len() as int) =~= told);
        assert(events@.skip(given.len() as int) =~= tail);
        let ids = choose|ids: Seq<String>|
            #[trigger] texts_ascend(ids) && ids.len() == old(tools).running().len() && (forall|
                i: int,
            |
                0 <= i < old(tools).running().len() ==> ids.contains(
                    #[trigger] old(tools).running()[i],
                )) && cancels(tail, ids);
        assert(drained(*old(approvals), "session_cancelled"@, given, numbers));
        assert(texts_ascend(ids));
    }
    (events, remembered)
}

} // verus!
