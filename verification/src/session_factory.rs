//! What a daemon's sessions are made from: whether a stored session may be
//! loaded here, and with which model and settings a session starts.
use vstd::prelude::*;
use vstd::string::*;
use crate::foreign::{lower_hex, sha256_hex, sha256_hex_of};
use crate::keyed::{lemma_pick_next, picked_from};
use crate::session_daemon::{SessionOpenError, SessionOpenMode};
use crate::session_protocol::{
    fresh_option, RuntimeChoice, RuntimeOption, RuntimeOptionSpec, RuntimeValue, SessionWorkspace,
};
use crate::session_store::{
    load_error, loadable, loaded_record, safe_id, same_record, PersistedSession, SessionStore,
    SessionStoreError, SessionStoreErrorKind, SessionSummary, SessionSummaryScan,
};
use crate::text::{chars_of, prefix_within, str_eq, string_of, utf8_prefix};

verus! {

broadcast use vstd::string::group_string_axioms;

/// What a client is told of a stored session that could not be opened.
pub open spec fn open_error_of(kind: SessionStoreErrorKind) -> SessionOpenError {
    match kind {
        SessionStoreErrorKind::UnsafeId => SessionOpenError::UnsafeId,
        SessionStoreErrorKind::AlreadyExists => SessionOpenError::Internal,
        SessionStoreErrorKind::WriterChanged => SessionOpenError::Io,
        SessionStoreErrorKind::NotFound => SessionOpenError::NotFound,
        SessionStoreErrorKind::FutureVersion => SessionOpenError::FutureVersion,
        SessionStoreErrorKind::UnsupportedVersion => SessionOpenError::UnsupportedVersion,
        SessionStoreErrorKind::Corrupt => SessionOpenError::Corrupt,
        SessionStoreErrorKind::Permission => SessionOpenError::Permission,
        SessionStoreErrorKind::Database | SessionStoreErrorKind::Io => SessionOpenError::Io,
    }
}

pub fn session_open_error(kind: SessionStoreErrorKind) -> (error: SessionOpenError)
    ensures
        error == open_error_of(kind),
{
    match kind {
        SessionStoreErrorKind::UnsafeId => SessionOpenError::UnsafeId,
        SessionStoreErrorKind::AlreadyExists => SessionOpenError::Internal,
        SessionStoreErrorKind::WriterChanged => SessionOpenError::Io,
        SessionStoreErrorKind::NotFound => SessionOpenError::NotFound,
        SessionStoreErrorKind::FutureVersion => SessionOpenError::FutureVersion,
        SessionStoreErrorKind::UnsupportedVersion => SessionOpenError::UnsupportedVersion,
        SessionStoreErrorKind::Corrupt => SessionOpenError::Corrupt,
        SessionStoreErrorKind::Permission => SessionOpenError::Permission,
        SessionStoreErrorKind::Database | SessionStoreErrorKind::Io => SessionOpenError::Io,
    }
}

impl From<SessionStoreErrorKind> for SessionOpenError {
    fn from(kind: SessionStoreErrorKind) -> (error: Self) {
        session_open_error(kind)
    }
}

impl vstd::std_specs::convert::FromSpecImpl<SessionStoreErrorKind> for SessionOpenError {
    open spec fn obeys_from_spec() -> bool {
        true
    }

    open spec fn from_spec(kind: SessionStoreErrorKind) -> Self {
        open_error_of(kind)
    }
}

/// Whether the store has no session of an id: none is there, or none could be.
/// A session that is there but cannot be read is not missing.
pub fn persisted_id_is_missing(store: &SessionStore, session_id: &str) -> (missing: bool)
    requires
        store.well_formed(),
    ensures
        missing == id_missing(*store, session_id@),
{
    match store.load_result(session_id) {
        Err(SessionStoreError::NotFound) => true,
        Err(SessionStoreError::UnsafeId) => true,
        _ => false,
    }
}

pub open spec fn id_missing(store: SessionStore, id: Seq<char>) -> bool {
    !crate::session_store::safe_id(id) || !store.rows_by_id().contains_key(id)
}

/// The ids of a list that the store has no session of.
pub open spec fn missing_of(store: SessionStore, ids: Seq<String>) -> Seq<String>
    decreases ids.len(),
{
    if ids.len() == 0 {
        Seq::empty()
    } else {
        let earlier = missing_of(store, ids.drop_last());
        if id_missing(store, ids.last()@) {
            earlier.push(ids.last())
        } else {
            earlier
        }
    }
}

pub fn missing_persisted_ids(store: &SessionStore, session_ids: &Vec<String>) -> (missing: Vec<
    String,
>)
    requires
        store.well_formed(),
    ensures
        missing@ == missing_of(*store, session_ids@),
{
    let mut missing: Vec<String> = Vec::new();
    let mut i: usize = 0;
    while i < session_ids.len()
        invariant
            store.well_formed(),
            i <= session_ids@.len(),
            missing@ == missing_of(*store, session_ids@.take(i as int)),
        decreases session_ids@.len() - i,
    {
        assert(session_ids@.take(i + 1).drop_last() =~= session_ids@.take(i as int));
        if persisted_id_is_missing(store, session_ids[i].as_str()) {
            missing.push(session_ids[i].clone());
        }
        i = i + 1;
    }
    assert(session_ids@.take(i as int) =~= session_ids@);
    missing
}

/// The name under which a workspace is shown: its last path component, where
/// that is readable and not empty.
pub open spec fn workspace_name(file_name: Option<&str>) -> Seq<char> {
    match file_name {
        Some(name) => if name@.len() > 0 {
            name@
        } else {
            "workspace"@
        },
        None => "workspace"@,
    }
}

/// Names a workspace without disclosing its path: the id is drawn from a digest
/// of the path's bytes, the label from its last component.
pub fn canonical_session_workspace(
    path_bytes: &[u8],
    file_name: Option<&str>,
    max_label_bytes: usize,
) -> (workspace: SessionWorkspace)
    ensures
        workspace.id@ == "ws_"@ + sha256_hex_of(path_bytes@).take(32),
        workspace.id@.len() == 35,
        forall|i: int| 3 <= i < 35 ==> lower_hex(#[trigger] workspace.id@[i]),
        workspace.label@ == utf8_prefix(workspace_name(file_name), max_label_bytes as nat),
{
    let digest = sha256_hex(path_bytes);
    let digits = chars_of(digest.as_str());
    let head = string_of(digits.as_slice(), 0, 32);
    assert(head@ =~= sha256_hex_of(path_bytes@).take(32));
    let mut id = "ws_".to_owned();
    id.append(head.as_str());
    proof {
        reveal_strlit("ws_");
        assert forall|i: int| 3 <= i < 35 implies lower_hex(#[trigger] id@[i]) by {
            assert(id@[i] == digest@[i - 3]);
        }
    }
    let label = match file_name {
        Some(name) => if name.is_empty() {
            prefix_within("workspace", max_label_bytes)
        } else {
            prefix_within(name, max_label_bytes)
        },
        None => prefix_within("workspace", max_label_bytes),
    };
    SessionWorkspace { id, label }
}

/// Whether a text is among some names.
pub open spec fn named(names: Seq<String>, text: Seq<char>) -> bool {
    exists|i: int| 0 <= i < names.len() && (#[trigger] names[i])@ == text
}

fn is_named(names: &Vec<String>, text: &str) -> (found: bool)
    ensures
        found == named(names@, text@),
{
    let mut i: usize = 0;
    while i < names.len()
        invariant
            i <= names@.len(),
            forall|k: int| 0 <= k < i ==> (#[trigger] names@[k])@ != text@,
        decreases names@.len() - i,
    {
        if str_eq(names[i].as_str(), text) {
            assert(names@[i as int]@ == text@);
            return true;
        }
        i = i + 1;
    }
    false
}

/// The models to choose from: the current one first, then the others that are
/// offered, each once.
pub open spec fn model_candidates(models: Seq<String>, current: String) -> Seq<String>
    decreases models.len(),
{
    if models.len() == 0 {
        seq![current]
    } else {
        let earlier = model_candidates(models.drop_last(), current);
        if named(earlier, models.last()@) {
            earlier
        } else {
            earlier.push(models.last())
        }
    }
}

/// Whether choices stand for names, each under itself.
pub open spec fn choices_of(choices: Seq<RuntimeChoice>, names: Seq<String>) -> bool {
    choices.len() == names.len() && forall|i: int|
        0 <= i < choices.len() ==> (#[trigger] choices[i]).id@ == names[i]@ && choices[i].label@
            == names[i]@
}

fn choices_from(names: &Vec<String>) -> (choices: Vec<RuntimeChoice>)
    ensures
        choices_of(choices@, names@),
{
    let mut choices: Vec<RuntimeChoice> = Vec::new();
    let mut i: usize = 0;
    while i < names.len()
        invariant
            i <= names@.len(),
            choices_of(choices@, names@.take(i as int)),
        decreases names@.len() - i,
    {
        choices.push(RuntimeChoice::new(names[i].as_str(), names[i].as_str()));
        i = i + 1;
    }
    assert(names@.take(i as int) =~= names@);
    choices
}

/// Whether an option lets one name be chosen.
pub open spec fn selects(
    option: RuntimeOption,
    id: Seq<char>,
    label: Seq<char>,
    value: String,
    names: Seq<String>,
) -> bool {
    option.spec matches RuntimeOptionSpec::Select { choices } && choices_of(choices@, names)
        && fresh_option(option, id, label, RuntimeValue::String(value), option.spec)
}

/// The settings of a session: its model and how much it thinks.
pub fn runtime_options(
    models: &Vec<String>,
    current_model: &String,
    thinking: &String,
    thinking_levels: &Vec<String>,
) -> (options: Vec<RuntimeOption>)
    ensures
        options@.len() == 2,
        selects(
            options@[0],
            "model"@,
            "Model"@,
            *current_model,
            model_candidates(models@, *current_model),
        ),
        selects(options@[1], "thinking"@, "Thinking"@, *thinking, thinking_levels@),
{
    let mut candidates: Vec<String> = Vec::new();
    candidates.push(current_model.clone());
    assert(candidates@ =~= seq![*current_model]);
    let mut i: usize = 0;
    assert(models@.take(0) =~= Seq::empty());
    while i < models.len()
        invariant
            i <= models@.len(),
            candidates@ == model_candidates(models@.take(i as int), *current_model),
        decreases models@.len() - i,
    {
        assert(models@.take(i + 1).drop_last() =~= models@.take(i as int));
        if !is_named(&candidates, models[i].as_str()) {
            candidates.push(models[i].clone());
        }
        i = i + 1;
    }
    assert(models@.take(i as int) =~= models@);
    let mut options: Vec<RuntimeOption> = Vec::new();
    options.push(
        RuntimeOption::select(
            "model",
            "Model",
            RuntimeValue::String(current_model.clone()),
            choices_from(&candidates),
        ),
    );
    options.push(
        RuntimeOption::select(
            "thinking",
            "Thinking",
            RuntimeValue::String(thinking.clone()),
            choices_from(thinking_levels),
        ),
    );
    options
}

/// Makes the sessions of one workspace. `W` is what the catalog is written
/// through.
#[derive(Debug, PartialEq, Eq)]
pub struct AgentSessionFactory<W> {
    pub workspace: String,
    pub workspace_identity: SessionWorkspace,
    pub default_model: String,
    pub models: Vec<String>,
    pub thinking: String,
    pub thinking_levels: Vec<String>,
    pub catalog_writer: Option<W>,
}

/// What a session starts with.
#[derive(Debug, PartialEq, Eq)]
pub struct SessionStart {
    pub model: String,
    pub thinking: String,
    pub runtime_options: Vec<RuntimeOption>,
    /// The generation that a loaded session was saved under.
    pub generation: Option<u64>,
    /// A new session is saved at once.
    pub persist_now: bool,
}

impl<W> AgentSessionFactory<W> {
    pub fn new(
        workspace: String,
        path_bytes: &[u8],
        file_name: Option<&str>,
        max_label_bytes: usize,
        default_model: String,
        models: Vec<String>,
        thinking: String,
        thinking_levels: Vec<String>,
    ) -> (factory: Self)
        ensures
            factory == (AgentSessionFactory::<W> {
                workspace,
                workspace_identity: factory.workspace_identity,
                default_model,
                models,
                thinking,
                thinking_levels,
                catalog_writer: None,
            }),
            factory.workspace_identity.id@ == "ws_"@ + sha256_hex_of(path_bytes@).take(32),
            factory.workspace_identity.label@ == utf8_prefix(
                workspace_name(file_name),
                max_label_bytes as nat,
            ),
    {
        let workspace_identity = canonical_session_workspace(
            path_bytes,
            file_name,
            max_label_bytes,
        );
        AgentSessionFactory {
            workspace,
            workspace_identity,
            default_model,
            models,
            thinking,
            thinking_levels,
            catalog_writer: None,
        }
    }

    pub fn with_catalog_writer(self, catalog_writer: W) -> (factory: Self)
        ensures
            factory == (AgentSessionFactory { catalog_writer: Some(catalog_writer), ..self }),
    {
        let mut factory = self;
        factory.catalog_writer = Some(catalog_writer);
        factory
    }

    pub fn workspace_identity(&self) -> (identity: Option<SessionWorkspace>)
        ensures
            identity == Some(self.workspace_identity),
    {
        Some(self.workspace_identity.clone())
    }

    /// The stored form that an open starts from: none where a session is made.
    pub fn load_for_open(&self, store: &SessionStore, session_id: &str, mode: SessionOpenMode) -> (
        result: Result<Option<PersistedSession>, SessionOpenError>)
        requires
            store.well_formed(),
        ensures
            match mode {
                SessionOpenMode::Create => result == Ok::<
                    Option<PersistedSession>,
                    SessionOpenError,
                >(None),
                SessionOpenMode::Load => if loadable(store.rows_by_id(), session_id@) {
                    result matches Ok(Some(record)) && same_record(
                        loaded_record(store.rows_by_id(), session_id@),
                        record,
                    )
                } else {
                    result matches Err(told) && exists|error: SessionStoreError| #[trigger]
                        load_error(store.rows_by_id(), session_id@, error) && told
                            == open_error_of(error.classified())
                },
            },
    {
        match mode {
            SessionOpenMode::Create => Ok(None),
            SessionOpenMode::Load => match store.load_result(session_id) {
                Ok(record) => Ok(Some(record)),
                Err(error) => {
                    assert(load_error(store.rows_by_id(), session_id@, error));
                    Err(session_open_error(error.kind()))
                },
            },
        }
    }

    /// Whether a stored session belongs to this workspace. `resolved` is what
    /// the directory that it was saved under resolves to, or why it does not.
    pub fn check_workspace(
        &self,
        record: &PersistedSession,
        resolved: Result<String, SessionStoreErrorKind>,
    ) -> (result: Result<(), SessionOpenError>)
        ensures
            result == if record.cwd is None {
                Err(SessionOpenError::WorkspaceUnknown)
            } else {
                match resolved {
                    Err(kind) => Err(open_error_of(kind)),
                    Ok(directory) => if directory@ == self.workspace@ {
                        Ok(())
                    } else {
                        Err(SessionOpenError::WorkspaceMismatch)
                    },
                }
            },
    {
        match &record.cwd {
            None => Err(SessionOpenError::WorkspaceUnknown),
            Some(_) => match resolved {
                Err(kind) => Err(session_open_error(kind)),
                Ok(directory) => if str_eq(directory.as_str(), self.workspace.as_str()) {
                    Ok(())
                } else {
                    Err(SessionOpenError::WorkspaceMismatch)
                },
            },
        }
    }

    pub open spec fn starting_model(self, record: Option<PersistedSession>) -> String {
        match record {
            Some(record) => record.model,
            None => self.default_model,
        }
    }

    pub open spec fn starting_thinking(
        self,
        record: Option<PersistedSession>,
        accepted: Option<String>,
    ) -> String {
        if record is Some && record->0.thinking is Some && accepted is Some {
            accepted->0
        } else {
            self.thinking
        }
    }

    /// What a session starts with: a loaded one with its own model and, where
    /// it is still known, its own thinking level; `accepted` is the level that
    /// the stored one was read as.
    pub fn session_start(&self, record: &Option<PersistedSession>, accepted: Option<String>) -> (
        start: SessionStart)
        ensures
            start.model == self.starting_model(*record),
            start.thinking == self.starting_thinking(*record, accepted),
            start.runtime_options@.len() == 2,
            selects(
                start.runtime_options@[0],
                "model"@,
                "Model"@,
                start.model,
                model_candidates(self.models@, start.model),
            ),
            selects(
                start.runtime_options@[1],
                "thinking"@,
                "Thinking"@,
                start.thinking,
                self.thinking_levels@,
            ),
            start.generation == match *record {
                Some(record) => Some(record.generation),
                None => None,
            },
            start.persist_now == (*record is None),
    {
        let (model, thinking, generation) = match record {
            Some(record) => {
                let thinking = match (&record.thinking, accepted) {
                    (Some(_), Some(accepted)) => accepted,
                    _ => self.thinking.clone(),
                };
                (record.model.clone(), thinking, Some(record.generation))
            },
            None => (self.default_model.clone(), self.thinking.clone(), None),
        };
        let runtime_options = runtime_options(
            &self.models,
            &model,
            &thinking,
            &self.thinking_levels,
        );
        SessionStart { model, thinking, runtime_options, generation, persist_now: record.is_none() }
    }

    /// Whether a stored session belongs here, by what its directory resolves to.
    pub open spec fn belongs(self, summary: SessionSummary, resolved: Option<String>) -> bool {
        &&& summary.cwd is Some
        &&& resolved matches Some(directory) && directory@ == self.workspace@
    }

    pub open spec fn belonging(
        self,
        summaries: Seq<SessionSummary>,
        resolved: Seq<Option<String>>,
    ) -> Seq<SessionSummary>
        decreases summaries.len(),
    {
        if summaries.len() == 0 || resolved.len() != summaries.len() {
            Seq::empty()
        } else {
            let earlier = self.belonging(summaries.drop_last(), resolved.drop_last());
            if self.belongs(summaries.last(), resolved.last()) {
                earlier.push(summaries.last())
            } else {
                earlier
            }
        }
    }

    /// Cuts a scan down to this workspace. `resolved` is what the directory of
    /// each session resolves to, none where it does not; a session whose
    /// directory does not resolve leaves the scan incomplete.
    pub fn scan_workspace(
        &self,
        scan: SessionSummaryScan,
        resolved: &Vec<Option<String>>,
    ) -> (kept: SessionSummaryScan)
        requires
            resolved@.len() == scan.summaries@.len(),
        ensures
            kept.summaries@ == self.belonging(scan.summaries@, resolved@),
            kept.next_cursor == scan.next_cursor,
            kept.complete == (scan.complete && forall|i: int|
                0 <= i < scan.summaries@.len() && (#[trigger] scan.summaries@[i]).cwd is Some
                    ==> resolved@[i] is Some),
    {
        let mut summaries: Vec<SessionSummary> = Vec::new();
        let mut all_resolved = true;
        let mut i: usize = 0;
        while i < scan.summaries.len()
            invariant
                resolved@.len() == scan.summaries@.len(),
                i <= scan.summaries@.len(),
                summaries@ == self.belonging(
                    scan.summaries@.take(i as int),
                    resolved@.take(i as int),
                ),
                all_resolved == (forall|k: int|
                    0 <= k < i && (#[trigger] scan.summaries@[k]).cwd is Some
                        ==> resolved@[k] is Some),
            decreases scan.summaries@.len() - i,
        {
            assert(scan.summaries@.take(i + 1).drop_last() =~= scan.summaries@.take(i as int));
            assert(resolved@.take(i + 1).drop_last() =~= resolved@.take(i as int));
            if scan.summaries[i].cwd.is_some() {
                match &resolved[i] {
                    None => {
                        assert(scan.summaries@[i as int].cwd is Some);
                        all_resolved = false;
                    },
                    Some(directory) => {
                        if str_eq(directory.as_str(), self.workspace.as_str()) {
                            summaries.push(scan.summaries[i].clone());
                        }
                    },
                }
            }
            i = i + 1;
        }
        assert(scan.summaries@.take(i as int) =~= scan.summaries@);
        assert(resolved@.take(i as int) =~= resolved@);
        SessionSummaryScan {
            summaries,
            next_cursor: scan.next_cursor,
            complete: scan.complete && all_resolved,
        }
    }
}

/// The sessions of a workspace are exactly those of the scan that have a
/// directory that resolves to it, in the order of the scan.
pub proof fn law_workspace_keeps_its_sessions<W>(
    factory: AgentSessionFactory<W>,
    summaries: Seq<SessionSummary>,
    resolved: Seq<Option<String>>,
) -> (places: Seq<int>)
    requires
        summaries.len() == resolved.len(),
    ensures
        picked_from(factory.belonging(summaries, resolved), summaries, places),
        forall|i: int|
            0 <= i < summaries.len() ==> (#[trigger] places.contains(i) <==> summaries[i].cwd is Some
                && (resolved[i] matches Some(directory) && directory@ == factory.workspace@)),
    decreases summaries.len(),
{
    if summaries.len() == 0 {
        seq![]
    } else {
        let rest = summaries.drop_last();
        let before = law_workspace_keeps_its_sessions(factory, rest, resolved.drop_last());
        lemma_pick_next(
            factory.belonging(rest, resolved.drop_last()),
            rest,
            before,
            summaries.last(),
        );
        assert(rest.push(summaries.last()) =~= summaries);
        let places = if factory.belongs(summaries.last(), resolved.last()) {
            before.push(rest.len() as int)
        } else {
            before
        };
        assert forall|i: int| 0 <= i < summaries.len() implies (#[trigger] places.contains(i)
            <==> summaries[i].cwd is Some && (resolved[i] matches Some(directory) && directory@
            == factory.workspace@)) by {
            if i < rest.len() {
                assert(before.contains(i) <==> rest[i].cwd is Some && (resolved.drop_last()[i]
                    matches Some(directory) && directory@ == factory.workspace@));
            } else if before.contains(i) {
                let k = choose|k: int| 0 <= k < before.len() && before[k] == i;
                assert(before[k] < rest.len());
            }
        }
        places
    }
}

/// The model that a session has can always be kept: it is the first to choose
/// from, and no model is offered twice.
pub proof fn law_current_model_is_offered(models: Seq<String>, current: String)
    ensures
        model_candidates(models, current).len() > 0,
        model_candidates(models, current)[0] == current,
        forall|i: int, j: int|
            0 <= i < j < model_candidates(models, current).len() ==> (
            #[trigger] model_candidates(models, current)[i])@ != (
            #[trigger] model_candidates(models, current)[j])@,
    decreases models.len(),
{
    if models.len() > 0 {
        law_current_model_is_offered(models.drop_last(), current);
    }
}

/// Every model that is offered can be chosen, and no other but the current one.
pub proof fn law_offered_models_can_be_chosen(
    models: Seq<String>,
    current: String,
    text: Seq<char>,
)
    ensures
        named(model_candidates(models, current), text) <==> text == current@ || named(models, text),
    decreases models.len(),
{
    let all = model_candidates(models, current);
    if models.len() == 0 {
        assert(all[0] == current);
    } else {
        let rest = models.drop_last();
        let earlier = model_candidates(rest, current);
        law_offered_models_can_be_chosen(rest, current, text);
        law_offered_models_can_be_chosen(rest, current, models.last()@);
        if named(rest, text) {
            let i = choose|i: int| 0 <= i < rest.len() && (#[trigger] rest[i])@ == text;
            assert(models[i] == rest[i]);
        }
        if named(models, text) {
            let i = choose|i: int| 0 <= i < models.len() && (#[trigger] models[i])@ == text;
            if i < rest.len() {
                assert(rest[i] == models[i]);
            } else {
                assert(models[i] == models.last());
            }
        }
        assert(models[models.len() - 1] == models.last());
        if named(earlier, text) {
            let i = choose|i: int| 0 <= i < earlier.len() && (#[trigger] earlier[i])@ == text;
            assert(all[i] == earlier[i]);
        }
        if named(all, text) {
            let i = choose|i: int| 0 <= i < all.len() && (#[trigger] all[i])@ == text;
            if i < earlier.len() {
                assert(earlier[i] == all[i]);
            }
        }
        if !named(earlier, models.last()@) {
            assert(all[earlier.len() as int] == models.last());
        }
    }
}

/// A choice lets each name be chosen under itself, in their order, and starts
/// with a value that it can go back to.
pub proof fn law_choices_stand_for_their_names(
    option: RuntimeOption,
    id: Seq<char>,
    label: Seq<char>,
    value: String,
    names: Seq<String>,
)
    requires
        selects(option, id, label, value, names),
    ensures
        option.id@ == id,
        option.label@ == label,
        option.value == RuntimeValue::String(value),
        option.default_value == RuntimeValue::String(value),
        !option.mutable_while_running,
        option.spec matches RuntimeOptionSpec::Select { choices } && choices@.len() == names.len()
            && forall|i: int|
            0 <= i < names.len() ==> (#[trigger] choices@[i]).id@ == names[i]@ && choices@[i].label@
                == names[i]@,
{
}

/// A stored session goes on with its model, and with its thinking where that is
/// still accepted; any other starts as the factory was told to.
pub proof fn law_stored_settings_go_on<W>(
    factory: AgentSessionFactory<W>,
    record: Option<PersistedSession>,
    accepted: Option<String>,
)
    ensures
        record matches Some(stored) ==> factory.starting_model(record) == stored.model,
        record is None ==> factory.starting_model(record) == factory.default_model,
        record matches Some(stored) ==> (stored.thinking is Some ==> (accepted matches Some(level)
            ==> factory.starting_thinking(record, accepted) == level)),
        record is None || accepted is None || record->0.thinking is None
            ==> factory.starting_thinking(record, accepted) == factory.thinking,
{
}

/// Of some ids exactly those are missing that nothing is stored under, in their
/// order.
pub proof fn law_missing_sessions_are_not_stored(store: SessionStore, ids: Seq<String>) -> (places:
    Seq<int>)
    ensures
        picked_from(missing_of(store, ids), ids, places),
        forall|i: int|
            0 <= i < ids.len() ==> (#[trigger] places.contains(i) <==> !safe_id(ids[i]@)
                || !store.rows_by_id().contains_key(ids[i]@)),
    decreases ids.len(),
{
    if ids.len() == 0 {
        seq![]
    } else {
        let rest = ids.drop_last();
        let before = law_missing_sessions_are_not_stored(store, rest);
        lemma_pick_next(missing_of(store, rest), rest, before, ids.last());
        assert(rest.push(ids.last()) =~= ids);
        let places = if id_missing(store, ids.last()@) {
            before.push(rest.len() as int)
        } else {
            before
        };
        assert forall|i: int| 0 <= i < ids.len() implies (#[trigger] places.contains(i)
            <==> !safe_id(ids[i]@) || !store.rows_by_id().contains_key(ids[i]@)) by {
            if i < rest.len() {
                assert(rest[i] == ids[i]);
                assert(before.contains(i) <==> !safe_id(rest[i]@)
                    || !store.rows_by_id().contains_key(rest[i]@));
            } else if before.contains(i) {
                let k = choose|k: int| 0 <= k < before.len() && before[k] == i;
                assert(before[k] < rest.len());
            }
        }
        places
    }
}

/// A workspace goes by the name of its directory, and never without one.
pub proof fn law_workspaces_have_names(file_name: Option<&str>)
    ensures
        workspace_name(file_name).len() > 0,
        file_name matches Some(name) ==> (name@.len() > 0 ==> workspace_name(file_name) == name@),
{
    reveal_strlit("workspace");
}

/// A client learns of a stored session that could not be opened whether it asked
/// for what is not there, may not be read, or cannot be; of the daemon's own
/// trouble it learns no more than that there is some.
pub proof fn law_failed_opens_say_what_to_do(kind: SessionStoreErrorKind)
    ensures
        open_error_of(kind) is UnsafeId <==> kind is UnsafeId,
        open_error_of(kind) is NotFound <==> kind is NotFound,
        open_error_of(kind) is FutureVersion <==> kind is FutureVersion,
        open_error_of(kind) is UnsupportedVersion <==> kind is UnsupportedVersion,
        open_error_of(kind) is Corrupt <==> kind is Corrupt,
        open_error_of(kind) is Permission <==> kind is Permission,
        open_error_of(kind) is Internal <==> kind is AlreadyExists,
        open_error_of(kind) is Io <==> kind is Io || kind is Database || kind is WriterChanged,
{
}

/// An error of the store is of its own kind; input and output that was not
/// permitted is told apart from other.
pub proof fn law_store_errors_are_told_apart(error: SessionStoreError)
    ensures
        error is UnsafeId <==> error.classified() is UnsafeId,
        error is AlreadyExists <==> error.classified() is AlreadyExists,
        error is WriterChanged <==> error.classified() is WriterChanged,
        error is NotFound <==> error.classified() is NotFound,
        error is FutureVersion <==> error.classified() is FutureVersion,
        error is UnsupportedVersion <==> error.classified() is UnsupportedVersion,
        error is Corrupt <==> error.classified() is Corrupt,
        error is Database <==> error.classified() is Database,
        error matches SessionStoreError::Io { permission_denied, .. } ==> (if permission_denied {
            error.classified() is Permission
        } else {
            error.classified() is Io
        }),
{
}

} // verus!
