//! Rules of the session database: who may write a record, which generation
//! wins, what a listing shows.
//!
//! A `SessionStore` holds the rows that one transaction works on. The rules are
//! stated over those rows; reading them from the database and writing them back
//! belongs to the database layer.
use vstd::prelude::*;
use vstd::string::*;
use crate::foreign::{fresh_uuid, uuid_text};
use crate::keyed::{
    as_map, has_key, lemma_insert, lemma_lookup, lemma_push, lemma_remove, lemma_update,
    unique_keys,
};
use crate::providers::{copy_messages, same_messages, ContentBlock, Message, Role};
use crate::session_protocol::{copy_text, AssistantOutcome};
use crate::text::{
    ascii_alphanumeric, byte_len, chars_of, collapse_whitespace, collapsed, decimal, decimal_string,
    is_ascii_alphanumeric, lemma_fitting_bounds, lemma_text_less_irreflexive, lemma_text_less_total,
    lemma_text_less_transitive, matches_at, prefix_within, str_eq, str_less, string_of, text_less,
    utf8_len, utf8_prefix,
};

pub mod keeping;
pub mod saving;
pub mod scanning;

verus! {

broadcast use vstd::string::group_string_axioms;

/// Version tag on the persisted-session JSON, so a future on-disk format
/// change can be detected and old files ignored rather than mis-parsed.
pub const SESSION_PERSIST_VERSION: u32 = 1;

pub const SESSION_STORE_SCHEMA_VERSION: i64 = 1;

#[derive(Debug, Clone, Copy, PartialEq, Eq, Structural)]
pub enum SessionStoreErrorKind {
    UnsafeId,
    AlreadyExists,
    WriterChanged,
    NotFound,
    FutureVersion,
    UnsupportedVersion,
    Corrupt,
    Database,
    Permission,
    Io,
}

/// Why a store operation failed. The database, JSON and I/O errors carry their diagnostics.
#[derive(Debug, Clone, PartialEq, Eq)]
pub enum SessionStoreError {
    UnsafeId,
    AlreadyExists,
    WriterChanged { expected: u64, found: Option<u64> },
    NotFound,
    FutureVersion { found: u32, supported: u32 },
    UnsupportedVersion { found: u32, supported: u32 },
    Corrupt(String),
    Database(String),
    Io { permission_denied: bool, message: String },
}

impl SessionStoreError {
    pub open spec fn classified(self) -> SessionStoreErrorKind {
        match self {
            SessionStoreError::UnsafeId => SessionStoreErrorKind::UnsafeId,
            SessionStoreError::AlreadyExists => SessionStoreErrorKind::AlreadyExists,
            SessionStoreError::WriterChanged { .. } => SessionStoreErrorKind::WriterChanged,
            SessionStoreError::NotFound => SessionStoreErrorKind::NotFound,
            SessionStoreError::FutureVersion { .. } => SessionStoreErrorKind::FutureVersion,
            SessionStoreError::UnsupportedVersion { .. } =>
                SessionStoreErrorKind::UnsupportedVersion,
            SessionStoreError::Corrupt(_) => SessionStoreErrorKind::Corrupt,
            SessionStoreError::Database(_) => SessionStoreErrorKind::Database,
            SessionStoreError::Io { permission_denied, .. } => if permission_denied {
                SessionStoreErrorKind::Permission
            } else {
                SessionStoreErrorKind::Io
            },
        }
    }

    pub fn kind(&self) -> (kind: SessionStoreErrorKind)
        ensures
            kind == self.classified(),
    {
        match self {
            SessionStoreError::UnsafeId => SessionStoreErrorKind::UnsafeId,
            SessionStoreError::AlreadyExists => SessionStoreErrorKind::AlreadyExists,
            SessionStoreError::WriterChanged { .. } => SessionStoreErrorKind::WriterChanged,
            SessionStoreError::NotFound => SessionStoreErrorKind::NotFound,
            SessionStoreError::FutureVersion { .. } => SessionStoreErrorKind::FutureVersion,
            SessionStoreError::UnsupportedVersion { .. } =>
                SessionStoreErrorKind::UnsupportedVersion,
            SessionStoreError::Corrupt(_) => SessionStoreErrorKind::Corrupt,
            SessionStoreError::Database(_) => SessionStoreErrorKind::Database,
            SessionStoreError::Io { permission_denied, .. } => if *permission_denied {
                SessionStoreErrorKind::Permission
            } else {
                SessionStoreErrorKind::Io
            },
        }
    }

    pub open spec fn text(self) -> Seq<char> {
        match self {
            SessionStoreError::UnsafeId => "session id is not a safe path component"@,
            SessionStoreError::AlreadyExists => "session id already exists"@,
            SessionStoreError::WriterChanged { expected, found } =>
                "session changed while claiming writer epoch: expected generation "@ + decimal(
                expected as nat,
            ) + ", found "@ + match found {
                Some(found) => "Some("@ + decimal(found as nat) + ")"@,
                None => "None"@,
            },
            SessionStoreError::NotFound => "persisted session was not found"@,
            SessionStoreError::FutureVersion { found, supported } =>
                "persisted session version "@ + decimal(found as nat)
                + " is newer than supported version "@ + decimal(supported as nat),
            SessionStoreError::UnsupportedVersion { found, supported } =>
                "persisted session version "@ + decimal(found as nat)
                + " is older than supported version "@ + decimal(supported as nat),
            SessionStoreError::Corrupt(error) => "persisted session JSON is invalid: "@ + error@,
            SessionStoreError::Database(error) => "session database failed: "@ + error@,
            SessionStoreError::Io { message, .. } => "session store I/O failed: "@ + message@,
        }
    }

    /// The diagnostic text.
    pub fn message(&self) -> (text: String)
        ensures
            text@ == self.text(),
    {
        match self {
            SessionStoreError::UnsafeId => "session id is not a safe path component".to_owned(),
            SessionStoreError::AlreadyExists => "session id already exists".to_owned(),
            SessionStoreError::WriterChanged { expected, found } => {
                let mut text =
                    "session changed while claiming writer epoch: expected generation ".to_owned();
                text.append(decimal_string(*expected).as_str());
                text.append(", found ");
                match found {
                    Some(found) => {
                        let mut inner = "Some(".to_owned();
                        inner.append(decimal_string(*found).as_str());
                        inner.append(")");
                        text.append(inner.as_str());
                    },
                    None => {
                        text.append("None");
                    },
                }
                text
            },
            SessionStoreError::NotFound => "persisted session was not found".to_owned(),
            SessionStoreError::FutureVersion { found, supported } => {
                let mut text = "persisted session version ".to_owned();
                text.append(decimal_string(*found as u64).as_str());
                text.append(" is newer than supported version ");
                text.append(decimal_string(*supported as u64).as_str());
                text
            },
            SessionStoreError::UnsupportedVersion { found, supported } => {
                let mut text = "persisted session version ".to_owned();
                text.append(decimal_string(*found as u64).as_str());
                text.append(" is older than supported version ");
                text.append(decimal_string(*supported as u64).as_str());
                text
            },
            SessionStoreError::Corrupt(error) => {
                let mut text = "persisted session JSON is invalid: ".to_owned();
                text.append(error.as_str());
                text
            },
            SessionStoreError::Database(error) => {
                let mut text = "session database failed: ".to_owned();
                text.append(error.as_str());
                text
            },
            SessionStoreError::Io { message, .. } => {
                let mut text = "session store I/O failed: ".to_owned();
                text.append(message.as_str());
                text
            },
        }
    }
}

/// One session's on-disk record: enough to rebuild a conversation (history +
/// the model it was on).
#[derive(Debug, PartialEq, Eq)]
pub struct PersistedSession {
    pub version: u32,
    pub generation: u64,
    pub session_id: String,
    pub model: String,
    pub thinking: Option<String>,
    pub cwd: Option<String>,
    pub client_user_message_ids: Vec<String>,
    pub assistant_outcomes: Vec<AssistantOutcome>,
    pub messages: Vec<Message>,
}

/// Whether two records are the same.
pub open spec fn same_record(a: PersistedSession, b: PersistedSession) -> bool {
    &&& a.version == b.version
    &&& a.generation == b.generation
    &&& a.session_id == b.session_id
    &&& a.model == b.model
    &&& a.thinking == b.thinking
    &&& a.cwd == b.cwd
    &&& a.client_user_message_ids@ == b.client_user_message_ids@
    &&& a.assistant_outcomes@ == b.assistant_outcomes@
    &&& same_messages(a.messages@, b.messages@)
}

impl Clone for PersistedSession {
    fn clone(&self) -> (copy: Self)
        ensures
            same_record(*self, copy),
    {
        let client_user_message_ids = self.client_user_message_ids.clone();
        assert(client_user_message_ids@ =~= self.client_user_message_ids@);
        let assistant_outcomes = self.assistant_outcomes.clone();
        assert(assistant_outcomes@ =~= self.assistant_outcomes@);
        PersistedSession {
            version: self.version,
            generation: self.generation,
            session_id: self.session_id.clone(),
            model: self.model.clone(),
            thinking: copy_text(&self.thinking),
            cwd: copy_text(&self.cwd),
            client_user_message_ids,
            assistant_outcomes,
            messages: copy_messages(self.messages.as_slice()),
        }
    }
}

/// Lightweight metadata for listing saved sessions.
#[derive(Debug, PartialEq, Eq)]
pub struct SessionSummary {
    pub id: String,
    pub model: String,
    pub message_count: usize,
    pub cwd: Option<String>,
    /// When the record was written, in nanoseconds since the epoch.
    pub updated_at: Option<u64>,
    /// First line of the first user message, for a human-recognizable label.
    pub first_user_line: Option<String>,
}

impl Clone for SessionSummary {
    fn clone(&self) -> (copy: Self)
        ensures
            copy == *self,
    {
        SessionSummary {
            id: self.id.clone(),
            model: self.model.clone(),
            message_count: self.message_count,
            cwd: copy_text(&self.cwd),
            updated_at: self.updated_at,
            first_user_line: copy_text(&self.first_user_line),
        }
    }
}

#[derive(Debug, PartialEq, Eq)]
pub struct PersistedWrite {
    pub summary: SessionSummary,
    pub updated_at_unix_ns: u64,
}

/// The right to write one session, valid until another writer claims it.
#[derive(Debug, PartialEq, Eq)]
pub struct SessionWriter {
    pub session_id: String,
    pub epoch: String,
}

impl Clone for SessionWriter {
    fn clone(&self) -> (copy: Self)
        ensures
            copy == *self,
    {
        SessionWriter { session_id: self.session_id.clone(), epoch: self.epoch.clone() }
    }
}

#[derive(Debug, PartialEq, Eq)]
pub enum SessionWriteOutcome {
    Saved(PersistedWrite),
    Stale { stored_generation: u64 },
    Superseded,
}

/// Why a save was refused before it reached a row.
#[derive(Debug, Clone, Copy, PartialEq, Eq, Structural)]
pub enum SessionWriteError {
    InvalidId,
    AutomaticGenerationStale,
    AutomaticWriterSuperseded,
}

impl SessionWriteError {
    pub open spec fn text(self) -> Seq<char> {
        match self {
            SessionWriteError::InvalidId => "session id is invalid"@,
            SessionWriteError::AutomaticGenerationStale => "automatic session generation was stale"@,
            SessionWriteError::AutomaticWriterSuperseded =>
                "automatic session writer was superseded"@,
        }
    }

    pub fn message(&self) -> (text: &'static str)
        ensures
            text@ == self.text(),
    {
        match self {
            SessionWriteError::InvalidId => "session id is invalid",
            SessionWriteError::AutomaticGenerationStale => "automatic session generation was stale",
            SessionWriteError::AutomaticWriterSuperseded =>
                "automatic session writer was superseded",
        }
    }
}

#[derive(Debug, PartialEq, Eq)]
pub struct SessionSummaryScan {
    pub summaries: Vec<SessionSummary>,
    pub next_cursor: Option<String>,
    pub complete: bool,
}

/// A stored payload as it decodes.
#[derive(Debug, PartialEq, Eq)]
pub enum StoredPayload {
    Record(PersistedSession),
    Unreadable(String),
}

/// One row of the session table.
#[derive(Debug, PartialEq, Eq)]
pub struct StoredRow {
    pub session_id: String,
    pub generation: u64,
    pub payload: StoredPayload,
    pub preview: Option<String>,
    pub updated_at_unix_ns: u64,
}

/// Ids that are safe as a path component.
pub open spec fn safe_id(id: Seq<char>) -> bool {
    id.len() > 0 && forall|i: int|
        0 <= i < id.len() ==> ascii_alphanumeric(#[trigger] id[i]) || id[i] == '-' || id[i] == '_'
}

/// Where the first line of a text ends.
pub open spec fn line_end(s: Seq<char>) -> nat
    decreases s.len(),
{
    if s.len() == 0 || s[0] == '\n' {
        0
    } else {
        1 + line_end(s.drop_first())
    }
}

/// The words of a line with single spaces between them, cut to `max_bytes`
/// without splitting a character and without a space that fills the last byte.
pub open spec fn preview_of(line: Seq<char>, max_bytes: nat) -> Option<Seq<char>> {
    let cut = utf8_prefix(collapsed(line), max_bytes);
    let text = if cut.len() > 0 && cut.last() == ' ' && utf8_len(cut) == max_bytes {
        cut.drop_last()
    } else {
        cut
    };
    if text.len() == 0 {
        None
    } else {
        Some(text)
    }
}

/// The preview that a block gives: that of its first line, if it is text.
pub open spec fn block_preview(block: ContentBlock, max_bytes: nat) -> Option<Seq<char>> {
    match block {
        ContentBlock::Text(text) => preview_of(text@.take(line_end(text@) as int), max_bytes),
        _ => None,
    }
}

/// The first preview that any of the blocks gives.
pub open spec fn blocks_preview(blocks: Seq<ContentBlock>, max_bytes: nat) -> Option<Seq<char>>
    decreases blocks.len(),
{
    if blocks.len() == 0 {
        None
    } else if block_preview(blocks[0], max_bytes) is Some {
        block_preview(blocks[0], max_bytes)
    } else {
        blocks_preview(blocks.drop_first(), max_bytes)
    }
}

/// Whether any of the blocks is text.
pub open spec fn has_text(blocks: Seq<ContentBlock>) -> bool {
    exists|i: int| 0 <= i < blocks.len() && (#[trigger] blocks[i]) is Text
}

fn holds_text(blocks: &[ContentBlock]) -> (found: bool)
    ensures
        found == has_text(blocks@),
{
    let mut i: usize = 0;
    while i < blocks.len()
        invariant
            i <= blocks@.len(),
            forall|k: int| 0 <= k < i ==> !((#[trigger] blocks@[k]) is Text),
        decreases blocks@.len() - i,
    {
        if matches!(blocks[i], ContentBlock::Text(_)) {
            assert(blocks@[i as int] is Text);
            return true;
        }
        i = i + 1;
    }
    false
}

/// The preview of a conversation: that of its first user message with text.
pub open spec fn user_preview(messages: Seq<Message>, max_bytes: nat) -> Option<Seq<char>>
    decreases messages.len(),
{
    if max_bytes == 0 || messages.len() == 0 {
        None
    } else if messages[0].role == Role::User && has_text(messages[0].content@) {
        blocks_preview(messages[0].content@, max_bytes)
    } else {
        user_preview(messages.drop_first(), max_bytes)
    }
}

pub open spec fn same_optional(text: Option<String>, model: Option<Seq<char>>) -> bool {
    match text {
        Some(text) => model == Some(text@),
        None => model is None,
    }
}

pub fn normalize_preview(line: &str, max_bytes: usize) -> (preview: Option<String>)
    ensures
        same_optional(preview, preview_of(line@, max_bytes as nat)),
{
    let chars = chars_of(line);
    let words = collapse_whitespace(chars.as_slice());
    let text = string_of(words.as_slice(), 0, words.len());
    assert(text@ =~= collapsed(line@));
    let mut cut = prefix_within(text.as_str(), max_bytes);
    let kept = chars_of(cut.as_str());
    let ghost whole = cut@;
    if kept.len() > 0 && kept[kept.len() - 1] == ' ' && byte_len(cut.as_str()) == max_bytes {
        cut = string_of(kept.as_slice(), 0, kept.len() - 1);
        assert(cut@ =~= whole.drop_last());
    }
    if cut.as_str().is_empty() {
        None
    } else {
        Some(cut)
    }
}

pub fn first_line_preview(text: &str, max_bytes: usize) -> (preview: Option<String>)
    ensures
        same_optional(
            preview,
            preview_of(text@.take(line_end(text@) as int), max_bytes as nat),
        ),
{
    let chars = chars_of(text);
    let mut end: usize = 0;
    assert(text@.skip(0) =~= text@);
    while end < chars.len() && chars[end] != '\n'
        invariant
            end <= chars@.len(),
            chars@ == text@,
            line_end(text@) == end + line_end(text@.skip(end as int)),
        decreases chars@.len() - end,
    {
        assert(text@.skip(end as int).drop_first() =~= text@.skip(end + 1));
        end = end + 1;
    }
    let line = string_of(chars.as_slice(), 0, end);
    assert(line@ =~= text@.take(end as int));
    normalize_preview(line.as_str(), max_bytes)
}

/// Whitespace-normalized first line of the first user text message, bounded
/// without splitting a UTF-8 code point.
pub fn first_user_preview(messages: &[Message], max_bytes: usize) -> (preview: Option<String>)
    ensures
        same_optional(preview, user_preview(messages@, max_bytes as nat)),
{
    if max_bytes == 0 {
        return None;
    }
    let mut i: usize = 0;
    assert(messages@.skip(0) =~= messages@);
    while i < messages.len()
        invariant
            i <= messages@.len(),
            max_bytes > 0,
            user_preview(messages@, max_bytes as nat) == user_preview(
                messages@.skip(i as int),
                max_bytes as nat,
            ),
        decreases messages@.len() - i,
    {
        assert(messages@.skip(i as int)[0] == messages@[i as int]);
        assert(messages@.skip(i as int).drop_first() =~= messages@.skip(i + 1));
        if messages[i].role == Role::User && holds_text(messages[i].content.as_slice()) {
            let blocks = &messages[i].content;
            let mut k: usize = 0;
            assert(blocks@.skip(0) =~= blocks@);
            while k < blocks.len()
                invariant
                    k <= blocks@.len(),
                    i < messages@.len(),
                    user_preview(messages@, max_bytes as nat) == blocks_preview(
                        blocks@.skip(k as int),
                        max_bytes as nat,
                    ),
                decreases blocks@.len() - k,
            {
                assert(blocks@.skip(k as int)[0] == blocks@[k as int]);
                assert(blocks@.skip(k as int).drop_first() =~= blocks@.skip(k + 1));
                if let ContentBlock::Text(text) = &blocks[k] {
                    let preview = first_line_preview(text.as_str(), max_bytes);
                    if preview.is_some() {
                        return preview;
                    }
                }
                k = k + 1;
            }
            return None;
        }
        i = i + 1;
    }
    None
}

/// Nanoseconds since the epoch, at most what 64 bits hold; a time before the epoch counts as zero.
pub fn system_time_unix_ns(nanos_since_epoch: Option<u128>) -> (nanos: u64)
    ensures
        nanos == match nanos_since_epoch {
            Some(nanos) => if nanos > u64::MAX {
                u64::MAX as int
            } else {
                nanos as int
            },
            None => 0,
        },
{
    match nanos_since_epoch {
        Some(nanos) => if nanos > u64::MAX as u128 {
            u64::MAX
        } else {
            nanos as u64
        },
        None => 0,
    }
}

/// The record format that this library reads and writes.
pub open spec fn version_error(record: PersistedSession) -> Option<SessionStoreError> {
    if record.version > SESSION_PERSIST_VERSION {
        Some(
            SessionStoreError::FutureVersion {
                found: record.version,
                supported: SESSION_PERSIST_VERSION,
            },
        )
    } else if record.version != SESSION_PERSIST_VERSION {
        Some(
            SessionStoreError::UnsupportedVersion {
                found: record.version,
                supported: SESSION_PERSIST_VERSION,
            },
        )
    } else {
        None
    }
}

pub fn validate_persisted_session(record: &PersistedSession) -> (result: Result<
    (),
    SessionStoreError,
>)
    ensures
        result == match version_error(*record) {
            Some(error) => Err::<(), SessionStoreError>(error),
            None => Ok(()),
        },
{
    if record.version > SESSION_PERSIST_VERSION {
        return Err(
            SessionStoreError::FutureVersion {
                found: record.version,
                supported: SESSION_PERSIST_VERSION,
            },
        );
    }
    if record.version != SESSION_PERSIST_VERSION {
        return Err(
            SessionStoreError::UnsupportedVersion {
                found: record.version,
                supported: SESSION_PERSIST_VERSION,
            },
        );
    }
    Ok(())
}

/// Accepts the one schema version that this library works with.
pub fn check_schema_version(found: i64) -> (result: Result<(), SessionStoreError>)
    ensures
        result == if found > SESSION_STORE_SCHEMA_VERSION {
            Err::<(), SessionStoreError>(
                SessionStoreError::FutureVersion { found: found as u32, supported: 1 },
            )
        } else if found < SESSION_STORE_SCHEMA_VERSION {
            Err(SessionStoreError::UnsupportedVersion { found: 0, supported: 1 })
        } else {
            Ok(())
        },
{
    if found > SESSION_STORE_SCHEMA_VERSION {
        return Err(
            SessionStoreError::FutureVersion {
                found: #[verifier::truncate]
                (found as u32),
                supported: 1,
            },
        );
    }
    if found < SESSION_STORE_SCHEMA_VERSION {
        return Err(SessionStoreError::UnsupportedVersion { found: 0, supported: 1 });
    }
    Ok(())
}

/// The store's directory has to belong to the user that the process runs as.
pub fn check_directory_owner(owner_uid: u32, effective_uid: u32) -> (result: Result<
    (),
    SessionStoreError,
>)
    ensures
        owner_uid == effective_uid <==> result is Ok,
        result matches Err(error) ==> (error matches SessionStoreError::Io {
            permission_denied,
            message,
        } && permission_denied && message@
            == "session store directory is not owned by the current user"@),
{
    if owner_uid != effective_uid {
        return Err(
            SessionStoreError::Io {
                permission_denied: true,
                message: "session store directory is not owned by the current user".to_owned(),
            },
        );
    }
    Ok(())
}


pub open spec fn row_key() -> spec_fn(StoredRow) -> Seq<char> {
    |row: StoredRow| row.session_id@
}

pub open spec fn writer_key() -> spec_fn(SessionWriter) -> Seq<char> {
    |writer: SessionWriter| writer.session_id@
}

/// Rows stand in the order of their ids, none twice.
pub open spec fn rows_ordered(rows: Seq<StoredRow>) -> bool {
    forall|i: int, j: int|
        0 <= i < j < rows.len() ==> text_less(
            (#[trigger] rows[i]).session_id@,
            (#[trigger] rows[j]).session_id@,
        )
}

proof fn lemma_ordered_unique(rows: Seq<StoredRow>)
    requires
        rows_ordered(rows),
    ensures
        unique_keys(rows, row_key()),
{
    assert forall|i: int, j: int| 0 <= i < j < rows.len() implies row_key()(#[trigger] rows[i])
        != row_key()(#[trigger] rows[j]) by {
        lemma_text_less_irreflexive(rows[i].session_id@);
    }
}

/// The generation that a write gets: the requested one, or one more than the stored.
pub open spec fn next_generation(requested: Option<u64>, stored: Option<u64>) -> u64 {
    match requested {
        Some(requested) => requested,
        None => match stored {
            Some(stored) => if stored == u64::MAX {
                u64::MAX
            } else {
                (stored + 1) as u64
            },
            None => 1,
        },
    }
}

/// What is decided of a write before anything is changed.
pub enum WriteDecision {
    Superseded,
    Stale { stored_generation: u64 },
    Write { generation: u64 },
}

/// A write needs the active epoch, or that no writer claimed the session; and
/// a generation above the stored one.
pub open spec fn write_decision(
    rows: Map<Seq<char>, StoredRow>,
    writers: Map<Seq<char>, SessionWriter>,
    id: Seq<char>,
    epoch: Option<Seq<char>>,
    requested: Option<u64>,
) -> WriteDecision {
    let epoch_matches = match epoch {
        Some(epoch) => writers.contains_key(id) && writers[id].epoch@ == epoch,
        None => !writers.contains_key(id),
    };
    let stored = if rows.contains_key(id) {
        Some(rows[id].generation)
    } else {
        None
    };
    let generation = next_generation(requested, stored);
    if !epoch_matches {
        WriteDecision::Superseded
    } else if stored is Some && generation <= stored->0 {
        WriteDecision::Stale { stored_generation: stored->0 }
    } else {
        WriteDecision::Write { generation }
    }
}

/// The row that a record makes when it is written.
pub open spec fn row_holds(
    row: StoredRow,
    record: PersistedSession,
    generation: u64,
    max_preview_bytes: nat,
    now_unix_ns: u64,
) -> bool {
    &&& row.session_id@ == record.session_id@
    &&& row.generation == generation
    &&& row.payload == StoredPayload::Record(PersistedSession { generation, ..record })
    &&& same_optional(row.preview, user_preview(record.messages@, max_preview_bytes))
    &&& row.updated_at_unix_ns == now_unix_ns
}

/// The summary of a record that was written at some time.
pub open spec fn summarizes(
    summary: SessionSummary,
    record: PersistedSession,
    max_preview_bytes: nat,
    updated_at_unix_ns: u64,
) -> bool {
    &&& summary.id@ == record.session_id@
    &&& summary.model@ == record.model@
    &&& summary.message_count == record.messages@.len()
    &&& summary.cwd == record.cwd
    &&& summary.updated_at == Some(updated_at_unix_ns)
    &&& same_optional(summary.first_user_line, user_preview(record.messages@, max_preview_bytes))
}

/// A record in the current format.
pub open spec fn fresh_record(
    record: PersistedSession,
    id: Seq<char>,
    model: Seq<char>,
    thinking: Option<Seq<char>>,
    messages: Vec<Message>,
    cwd: Option<Seq<char>>,
) -> bool {
    &&& record.version == SESSION_PERSIST_VERSION
    &&& record.session_id@ == id
    &&& record.model@ == model
    &&& same_optional(record.thinking, thinking)
    &&& same_optional(record.cwd, cwd)
    &&& record.messages == messages
}

/// Whether a row's payload decodes to a record in the current format.
pub open spec fn readable(row: StoredRow) -> bool {
    row.payload matches StoredPayload::Record(record) && version_error(record) is None
}

pub open spec fn listing_id(row: StoredRow, by_payload: bool) -> Seq<char> {
    match row.payload {
        StoredPayload::Record(record) => if by_payload {
            record.session_id@
        } else {
            row.session_id@
        },
        StoredPayload::Unreadable(_) => row.session_id@,
    }
}

/// Newer rows come first; among equally new ones the smaller id, then the earlier row.
pub open spec fn listed_before(rows: Seq<StoredRow>, by_payload: bool, a: int, b: int) -> bool {
    let left = listing_id(rows[a], by_payload);
    let right = listing_id(rows[b], by_payload);
    ||| rows[a].updated_at_unix_ns > rows[b].updated_at_unix_ns
    ||| rows[a].updated_at_unix_ns == rows[b].updated_at_unix_ns && (text_less(left, right)
        || left == right && a < b)
}

pub open spec fn in_listing_order(
    rows: Seq<StoredRow>,
    by_payload: bool,
    order: Seq<int>,
) -> bool {
    forall|i: int, j: int|
        0 <= i < j < order.len() ==> listed_before(
            rows,
            by_payload,
            #[trigger] order[i],
            #[trigger] order[j],
        )
}

/// The same row numbers, in listing order.
pub open spec fn listing_of(
    rows: Seq<StoredRow>,
    by_payload: bool,
    picks: Seq<int>,
    order: Seq<int>,
) -> bool {
    &&& in_listing_order(rows, by_payload, order)
    &&& order.len() == picks.len()
    &&& forall|k: int| #[trigger] order.contains(k) <==> picks.contains(k)
}

/// The summaries of the given rows, in that order.
pub open spec fn summaries_of(
    summaries: Seq<SessionSummary>,
    rows: Seq<StoredRow>,
    order: Seq<int>,
    max_preview_bytes: nat,
) -> bool {
    &&& summaries.len() == order.len()
    &&& forall|i: int|
        0 <= i < order.len() ==> {
            let row = rows[#[trigger] order[i]];
            summarizes(
                summaries[i],
                row.payload->Record_0,
                max_preview_bytes,
                row.updated_at_unix_ns,
            )
        }
}

/// The numbers of the readable rows in `from..to`.
pub open spec fn readable_between(rows: Seq<StoredRow>, from: int, to: int) -> Seq<int>
    decreases to - from,
{
    if from >= to {
        seq![]
    } else if readable(rows[to - 1]) {
        readable_between(rows, from, to - 1).push(to - 1)
    } else {
        readable_between(rows, from, to - 1)
    }
}

/// How many rows have an id up to and with `after`.
pub open spec fn rows_through(rows: Seq<StoredRow>, after: Seq<char>) -> nat
    decreases rows.len(),
{
    if rows.len() == 0 {
        0
    } else if text_less(after, rows.last().session_id@) {
        rows_through(rows.drop_last(), after)
    } else {
        rows.len()
    }
}

/// A cursor without the file suffix that older cursors carry.
pub open spec fn stripped(after: Seq<char>) -> Seq<char> {
    if after.len() >= 5 && after.skip(after.len() - 5) == ".json"@ {
        after.take(after.len() - 5)
    } else {
        after
    }
}

/// The id that a scan goes on behind.
pub open spec fn cursor_id(after_name: Option<&str>) -> Seq<char> {
    match after_name {
        Some(after) => stripped(after@),
        None => seq![],
    }
}

/// The working set of one transaction on a directory of persisted sessions.
#[derive(Debug, PartialEq, Eq)]
pub struct SessionStore {
    dir: String,
    busy_timeout_ms: u64,
    rows: Vec<StoredRow>,
    writers: Vec<SessionWriter>,
}

impl SessionStore {
    pub closed spec fn directory(self) -> Seq<char> {
        self.dir@
    }

    pub closed spec fn busy_timeout(self) -> u64 {
        self.busy_timeout_ms
    }

    /// The rows in the order of their ids.
    pub closed spec fn ordered_rows(self) -> Seq<StoredRow> {
        self.rows@
    }

    /// The rows by their ids.
    pub open spec fn rows_by_id(self) -> Map<Seq<char>, StoredRow> {
        as_map(self.ordered_rows(), row_key())
    }

    pub closed spec fn writer_rows(self) -> Seq<SessionWriter> {
        self.writers@
    }

    /// The active writers by their session ids.
    pub open spec fn writers_by_id(self) -> Map<Seq<char>, SessionWriter> {
        as_map(self.writer_rows(), writer_key())
    }

    pub open spec fn well_formed(self) -> bool {
        &&& rows_ordered(self.ordered_rows())
        &&& unique_keys(self.writer_rows(), writer_key())
    }

    /// Rows and writers are what they were.
    pub open spec fn unchanged(self, before: SessionStore) -> bool {
        &&& self.ordered_rows() == before.ordered_rows()
        &&& self.writer_rows() == before.writer_rows()
        &&& self.same_settings(before)
    }

    pub open spec fn same_settings(self, before: SessionStore) -> bool {
        self.directory() == before.directory() && self.busy_timeout() == before.busy_timeout()
    }

    pub fn new(dir: String) -> (store: Self)
        ensures
            store.directory() == dir@,
            store.busy_timeout() == 0,
            store.ordered_rows() == Seq::<StoredRow>::empty(),
            store.writer_rows() == Seq::<SessionWriter>::empty(),
            store.well_formed(),
    {
        SessionStore { dir, busy_timeout_ms: 0, rows: Vec::new(), writers: Vec::new() }
    }

    pub fn with_busy_timeout(self, busy_timeout_ms: u64) -> (store: Self)
        ensures
            store.directory() == self.directory(),
            store.busy_timeout() == busy_timeout_ms,
            store.ordered_rows() == self.ordered_rows(),
            store.writer_rows() == self.writer_rows(),
    {
        let mut store = self;
        store.busy_timeout_ms = busy_timeout_ms;
        store
    }

    pub fn valid_id(id: &str) -> (valid: bool)
        ensures
            valid == safe_id(id@),
    {
        let chars = chars_of(id);
        if chars.len() == 0 {
            return false;
        }
        let mut i: usize = 0;
        while i < chars.len()
            invariant
                i <= chars@.len(),
                chars@ == id@,
                forall|j: int|
                    0 <= j < i ==> ascii_alphanumeric(#[trigger] id@[j]) || id@[j] == '-' || id@[j]
                        == '_',
            decreases chars@.len() - i,
        {
            let c: char = chars[i];
            if !(is_ascii_alphanumeric(c) || c == '-' || c == '_') {
                assert(!(ascii_alphanumeric(id@[i as int]) || id@[i as int] == '-' || id@[i as int]
                    == '_'));
                return false;
            }
            i = i + 1;
        }
        true
    }

    /// The place of an id among the rows: the row itself, or where it would stand.
    fn row_place(&self, id: &str) -> (place: (usize, bool))
        requires
            self.well_formed(),
        ensures
            place.0 <= self.rows@.len(),
            place.1 ==> place.0 < self.rows@.len() && self.rows@[place.0 as int].session_id@ == id@,
            !place.1 ==> !has_key(self.rows@, row_key(), id@),
            forall|j: int|
                0 <= j < place.0 ==> text_less((#[trigger] self.rows@[j]).session_id@, id@),
            !place.1 ==> forall|j: int|
                place.0 <= j < self.rows@.len() ==> text_less(
                    id@,
                    (#[trigger] self.rows@[j]).session_id@,
                ),
    {
        let mut i: usize = 0;
        while i < self.rows.len() && str_less(self.rows[i].session_id.as_str(), id)
            invariant
                i <= self.rows@.len(),
                forall|j: int| 0 <= j < i ==> text_less((#[trigger] self.rows@[j]).session_id@, id@),
            decreases self.rows@.len() - i,
        {
            i = i + 1;
        }
        if i < self.rows.len() && str_eq(self.rows[i].session_id.as_str(), id) {
            return (i, true);
        }
        proof {
            if i < self.rows@.len() {
                lemma_text_less_total(self.rows@[i as int].session_id@, id@);
            }
            assert forall|j: int| i <= j < self.rows@.len() implies text_less(
                id@,
                (#[trigger] self.rows@[j]).session_id@,
            ) by {
                if j > i {
                    lemma_text_less_transitive(
                        id@,
                        self.rows@[i as int].session_id@,
                        self.rows@[j].session_id@,
                    );
                }
            }
            assert forall|j: int| 0 <= j < self.rows@.len() implies row_key()(
                #[trigger] self.rows@[j],
            ) != id@ by {
                lemma_text_less_irreflexive(id@);
            }
        }
        (i, false)
    }

    /// The row of a session.
    pub fn row(&self, id: &str) -> (row: Option<&StoredRow>)
        requires
            self.well_formed(),
        ensures
            match row {
                Some(row) => self.rows_by_id().contains_key(id@) && *row == self.rows_by_id()[id@],
                None => !self.rows_by_id().contains_key(id@),
            },
    {
        let (at, found) = self.row_place(id);
        proof {
            lemma_ordered_unique(self.rows@);
        }
        if found {
            proof {
                lemma_lookup(self.rows@, row_key(), at as int);
            }
            Some(&self.rows[at])
        } else {
            None
        }
    }

    /// Puts a row into the table, in place of the session's earlier row.
    pub fn put_row(&mut self, row: StoredRow)
        requires
            old(self).well_formed(),
        ensures
            final(self).well_formed(),
            final(self).rows_by_id() == old(self).rows_by_id().insert(row.session_id@, row),
            final(self).writer_rows() == old(self).writer_rows(),
            final(self).same_settings(*old(self)),
    {
        let (at, found) = self.row_place(row.session_id.as_str());
        let ghost before = self.rows@;
        proof {
            lemma_ordered_unique(before);
        }
        if found {
            proof {
                lemma_update(before, row_key(), at as int, row);
            }
            self.rows[at] = row;
            assert(self.rows@ == before.update(at as int, row));
        } else {
            proof {
                lemma_insert(before, row_key(), at as int, row);
            }
            self.rows.insert(at, row);
            assert(self.rows@ == before.insert(at as int, row));
            assert(rows_ordered(self.rows@));
        }
    }

    fn remove_row(&mut self, id: &str) -> (removed: bool)
        requires
            old(self).well_formed(),
        ensures
            final(self).well_formed(),
            removed == old(self).rows_by_id().contains_key(id@),
            final(self).rows_by_id() == old(self).rows_by_id().remove(id@),
            final(self).writer_rows() == old(self).writer_rows(),
            final(self).same_settings(*old(self)),
    {
        let (at, found) = self.row_place(id);
        let ghost before = self.rows@;
        proof {
            lemma_ordered_unique(before);
        }
        if found {
            proof {
                lemma_lookup(before, row_key(), at as int);
                lemma_remove(before, row_key(), at as int);
            }
            self.rows.remove(at);
            assert(self.rows@ == before.remove(at as int));
            true
        } else {
            assert(self.rows_by_id() =~= self.rows_by_id().remove(id@));
            false
        }
    }

    fn writer_place(&self, id: &str) -> (place: Option<usize>)
        requires
            self.well_formed(),
        ensures
            match place {
                Some(at) => at < self.writers@.len() && self.writers@[at as int].session_id@ == id@,
                None => !has_key(self.writers@, writer_key(), id@),
            },
    {
        let mut i: usize = 0;
        while i < self.writers.len()
            invariant
                i <= self.writers@.len(),
                forall|j: int| 0 <= j < i ==> (#[trigger] self.writers@[j]).session_id@ != id@,
            decreases self.writers@.len() - i,
        {
            if str_eq(self.writers[i].session_id.as_str(), id) {
                return Some(i);
            }
            i = i + 1;
        }
        None
    }

    /// The active writer of a session.
    pub fn writer(&self, id: &str) -> (writer: Option<&SessionWriter>)
        requires
            self.well_formed(),
        ensures
            match writer {
                Some(writer) => self.writers_by_id().contains_key(id@) && *writer
                    == self.writers_by_id()[id@],
                None => !self.writers_by_id().contains_key(id@),
            },
    {
        match self.writer_place(id) {
            Some(at) => {
                proof {
                    lemma_lookup(self.writers@, writer_key(), at as int);
                }
                Some(&self.writers[at])
            },
            None => None,
        }
    }

    /// Makes a writer the active one of its session.
    pub fn put_writer(&mut self, writer: SessionWriter)
        requires
            old(self).well_formed(),
        ensures
            final(self).well_formed(),
            final(self).writers_by_id() == old(self).writers_by_id().insert(
                writer.session_id@,
                writer,
            ),
            final(self).ordered_rows() == old(self).ordered_rows(),
            final(self).same_settings(*old(self)),
    {
        let ghost before = self.writers@;
        match self.writer_place(writer.session_id.as_str()) {
            Some(at) => {
                proof {
                    lemma_update(before, writer_key(), at as int, writer);
                }
                self.writers[at] = writer;
                assert(self.writers@ == before.update(at as int, writer));
            },
            None => {
                proof {
                    lemma_push(before, writer_key(), writer);
                }
                self.writers.push(writer);
            },
        }
    }

    fn remove_writer(&mut self, id: &str)
        requires
            old(self).well_formed(),
        ensures
            final(self).well_formed(),
            final(self).writers_by_id() == old(self).writers_by_id().remove(id@),
            final(self).ordered_rows() == old(self).ordered_rows(),
            final(self).same_settings(*old(self)),
    {
        let ghost before = self.writers@;
        match self.writer_place(id) {
            Some(at) => {
                proof {
                    lemma_remove(before, writer_key(), at as int);
                }
                self.writers.remove(at);
                assert(self.writers@ == before.remove(at as int));
            },
            None => {
                assert(self.writers_by_id() =~= self.writers_by_id().remove(id@));
            },
        }
    }

    /// Claims a session for a new writer under a fresh epoch.
    pub fn claim_writer(&mut self, session_id: &str, expected_generation: Option<u64>) -> (result:
        Result<SessionWriter, SessionStoreError>)
        requires
            old(self).well_formed(),
        ensures
            final(self).well_formed(),
            final(self).ordered_rows() == old(self).ordered_rows(),
            final(self).same_settings(*old(self)),
            match result {
                Ok(writer) => {
                    &&& claim_error(old(self).rows_by_id(), session_id@, expected_generation) is None
                    &&& writer.session_id@ == session_id@
                    &&& uuid_text(writer.epoch@)
                    &&& final(self).writers_by_id().contains_key(session_id@)
                    &&& final(self).writers_by_id()[session_id@].epoch@ == writer.epoch@
                    &&& final(self).writers_by_id() == old(self).writers_by_id().insert(
                        session_id@,
                        final(self).writers_by_id()[session_id@],
                    )
                },
                Err(error) => {
                    &&& claim_error(old(self).rows_by_id(), session_id@, expected_generation)
                        == Some(error)
                    &&& final(self).writer_rows() == old(self).writer_rows()
                },
            },
    {
        let epoch = fresh_uuid();
        self.claim_writer_as(session_id, expected_generation, epoch)
    }

    /// Claims a session for a new writer under the given epoch; whoever held it before is superseded.
    pub fn claim_writer_as(
        &mut self,
        session_id: &str,
        expected_generation: Option<u64>,
        epoch: String,
    ) -> (result: Result<SessionWriter, SessionStoreError>)
        requires
            old(self).well_formed(),
        ensures
            final(self).well_formed(),
            final(self).ordered_rows() == old(self).ordered_rows(),
            final(self).same_settings(*old(self)),
            match result {
                Ok(writer) => {
                    &&& claim_error(old(self).rows_by_id(), session_id@, expected_generation) is None
                    &&& writer.session_id@ == session_id@
                    &&& writer.epoch@ == epoch@
                    &&& final(self).writers_by_id() == old(self).writers_by_id().insert(
                        session_id@,
                        writer,
                    )
                },
                Err(error) => {
                    &&& claim_error(old(self).rows_by_id(), session_id@, expected_generation)
                        == Some(error)
                    &&& final(self).writer_rows() == old(self).writer_rows()
                },
            },
    {
        if !SessionStore::valid_id(session_id) {
            return Err(SessionStoreError::UnsafeId);
        }
        let found_generation: Option<u64> = match self.row(session_id) {
            Some(row) => Some(row.generation),
            None => None,
        };
        match (expected_generation, found_generation) {
            (Some(expected), Some(found)) => {
                if expected != found {
                    return Err(
                        SessionStoreError::WriterChanged { expected, found: found_generation },
                    );
                }
            },
            (Some(expected), None) => {
                return Err(SessionStoreError::WriterChanged { expected, found: None });
            },
            (None, Some(_)) => {
                return Err(SessionStoreError::AlreadyExists);
            },
            (None, None) => {},
        }
        let writer = SessionWriter { session_id: session_id.to_owned(), epoch };
        self.put_writer(writer.clone());
        Ok(writer)
    }

    /// Writes a record unless the writer is superseded or the generation is stale.
    pub fn write_record(
        &mut self,
        record: PersistedSession,
        max_preview_bytes: usize,
        requested_generation: Option<u64>,
        writer: Option<&SessionWriter>,
        now_unix_ns: u64,
    ) -> (outcome: SessionWriteOutcome)
        requires
            old(self).well_formed(),
            writer matches Some(writer) ==> writer.session_id@ == record.session_id@,
        ensures
            final(self).well_formed(),
            written(
                *old(self),
                *final(self),
                record,
                max_preview_bytes as nat,
                requested_generation,
                writer,
                now_unix_ns,
                outcome,
            ),
    {
        let active = self.writer(record.session_id.as_str());
        let epoch_matches = match (writer, active) {
            (Some(writer), Some(active)) => str_eq(writer.epoch.as_str(), active.epoch.as_str()),
            (Some(_), None) => false,
            (None, Some(_)) => false,
            (None, None) => true,
        };
        if !epoch_matches {
            return SessionWriteOutcome::Superseded;
        }
        let stored_generation: Option<u64> = match self.row(record.session_id.as_str()) {
            Some(row) => Some(row.generation),
            None => None,
        };
        let generation: u64 = match requested_generation {
            Some(requested) => requested,
            None => match stored_generation {
                Some(stored) => stored.saturating_add(1),
                None => 1,
            },
        };
        if let Some(stored) = stored_generation {
            if generation <= stored {
                return SessionWriteOutcome::Stale { stored_generation: stored };
            }
        }
        let ghost given = record;
        let mut record = record;
        record.generation = generation;
        let preview = first_user_preview(record.messages.as_slice(), max_preview_bytes);
        let summary = SessionSummary {
            id: record.session_id.clone(),
            model: record.model.clone(),
            message_count: record.messages.len(),
            cwd: copy_text(&record.cwd),
            updated_at: Some(now_unix_ns),
            first_user_line: copy_text(&preview),
        };
        let row = StoredRow {
            session_id: record.session_id.clone(),
            generation,
            payload: StoredPayload::Record(record),
            preview,
            updated_at_unix_ns: now_unix_ns,
        };
        assert(row_holds(row, given, generation, max_preview_bytes as nat, now_unix_ns));
        self.put_row(row);
        SessionWriteOutcome::Saved(PersistedWrite { summary, updated_at_unix_ns: now_unix_ns })
    }
}

/// Why a session cannot be claimed: an unsafe id, a record where none was
/// expected, or another generation than the expected one.
pub open spec fn claim_error(
    rows: Map<Seq<char>, StoredRow>,
    id: Seq<char>,
    expected: Option<u64>,
) -> Option<SessionStoreError> {
    let found = if rows.contains_key(id) {
        Some(rows[id].generation)
    } else {
        None
    };
    if !safe_id(id) {
        Some(SessionStoreError::UnsafeId)
    } else {
        match expected {
            Some(expected) => if found == Some(expected) {
                None
            } else {
                Some(SessionStoreError::WriterChanged { expected, found })
            },
            None => if found is Some {
                Some(SessionStoreError::AlreadyExists)
            } else {
                None
            },
        }
    }
}

/// The effect and the outcome of one write.
pub open spec fn written(
    before: SessionStore,
    after: SessionStore,
    record: PersistedSession,
    max_preview_bytes: nat,
    requested_generation: Option<u64>,
    writer: Option<&SessionWriter>,
    now_unix_ns: u64,
    outcome: SessionWriteOutcome,
) -> bool {
    let id = record.session_id@;
    let epoch = match writer {
        Some(writer) => Some(writer.epoch@),
        None => None,
    };
    match write_decision(
        before.rows_by_id(),
        before.writers_by_id(),
        id,
        epoch,
        requested_generation,
    ) {
        WriteDecision::Superseded => outcome is Superseded && after.unchanged(before),
        WriteDecision::Stale { stored_generation } => outcome == SessionWriteOutcome::Stale {
            stored_generation,
        } && after.unchanged(before),
        WriteDecision::Write { generation } => {
            &&& outcome matches SessionWriteOutcome::Saved(write) && write.updated_at_unix_ns
                == now_unix_ns && summarizes(write.summary, record, max_preview_bytes, now_unix_ns)
            &&& after.rows_by_id().contains_key(id)
            &&& row_holds(
                after.rows_by_id()[id],
                record,
                generation,
                max_preview_bytes,
                now_unix_ns,
            )
            &&& after.rows_by_id() == before.rows_by_id().insert(id, after.rows_by_id()[id])
            &&& after.writer_rows() == before.writer_rows()
            &&& after.same_settings(before)
        },
    }
}


/// The effect of a best-effort save of a chat session without an outcome to report.
pub open spec fn saved_quietly(
    before: SessionStore,
    after: SessionStore,
    id: Seq<char>,
    model: Seq<char>,
    messages: Vec<Message>,
    cwd: Option<Seq<char>>,
    now_unix_ns: u64,
) -> bool {
    if safe_id(id) {
        exists|record: PersistedSession, outcome: SessionWriteOutcome|
            fresh_record(record, id, model, None, messages, cwd)
                && record.client_user_message_ids@.len() == 0 && record.assistant_outcomes@.len()
                == 0 && #[trigger] written(
                before,
                after,
                record,
                usize::MAX as nat,
                None,
                None,
                now_unix_ns,
                outcome,
            )
    } else {
        after.unchanged(before)
    }
}

/// The effect and the outcome of a save with a client's runtime state.
pub open spec fn saved_with_outcome(
    before: SessionStore,
    after: SessionStore,
    id: Seq<char>,
    capture: SaveCapture,
    max_preview_bytes: nat,
    requested_generation: Option<u64>,
    writer: Option<&SessionWriter>,
    now_unix_ns: u64,
    outcome: SessionWriteOutcome,
) -> bool {
    exists|record: PersistedSession|
        captured_record(record, id, capture) && #[trigger] written(
            before,
            after,
            record,
            max_preview_bytes,
            requested_generation,
            writer,
            now_unix_ns,
            outcome,
        )
}

/// The record that a capture makes.
pub open spec fn captured_record(
    record: PersistedSession,
    id: Seq<char>,
    capture: SaveCapture,
) -> bool {
    &&& fresh_record(
        record,
        id,
        capture.model@,
        Some(capture.thinking@),
        capture.messages,
        Some(capture.cwd@),
    )
    &&& record.client_user_message_ids == capture.client_user_message_ids
    &&& record.assistant_outcomes == capture.assistant_outcomes
}

/// The state of a session that is to be persisted.
#[derive(Debug, PartialEq, Eq)]
pub struct SaveCapture {
    pub model: String,
    pub thinking: String,
    pub messages: Vec<Message>,
    pub cwd: String,
    pub client_user_message_ids: Vec<String>,
    pub assistant_outcomes: Vec<AssistantOutcome>,
}

/// Why a session does not load.
pub open spec fn load_error(
    rows: Map<Seq<char>, StoredRow>,
    id: Seq<char>,
    error: SessionStoreError,
) -> bool {
    if !safe_id(id) {
        error is UnsafeId
    } else if !rows.contains_key(id) {
        error is NotFound
    } else {
        match rows[id].payload {
            StoredPayload::Unreadable(detail) => error == SessionStoreError::Corrupt(detail),
            StoredPayload::Record(record) => if version_error(record) is Some {
                Some(error) == version_error(record)
            } else {
                record.session_id@ != id && error is Database
            },
        }
    }
}

/// Whether a session loads.
pub open spec fn loadable(rows: Map<Seq<char>, StoredRow>, id: Seq<char>) -> bool {
    &&& safe_id(id)
    &&& rows.contains_key(id)
    &&& rows[id].payload matches StoredPayload::Record(record) && version_error(record) is None
        && record.session_id@ == id
}

/// The record that a loadable session has; the row's generation is the valid one.
pub open spec fn loaded_record(rows: Map<Seq<char>, StoredRow>, id: Seq<char>) -> PersistedSession {
    PersistedSession { generation: rows[id].generation, ..rows[id].payload->Record_0 }
}

impl SessionStore {
    /// Persist a single-writer chat session. The generation follows the stored
    /// one; a refusal is not reported.
    pub fn save(&mut self, id: &str, model: &str, messages: Vec<Message>, now_unix_ns: u64)
        requires
            old(self).well_formed(),
        ensures
            final(self).well_formed(),
            saved_quietly(*old(self), *final(self), id@, model@, messages, None, now_unix_ns),
    {
        self.save_record(id, model, messages, None, now_unix_ns);
    }

    /// Persist a session and the working directory that a session listing needs.
    pub fn save_with_cwd(
        &mut self,
        id: &str,
        model: &str,
        messages: Vec<Message>,
        cwd: &str,
        now_unix_ns: u64,
    )
        requires
            old(self).well_formed(),
        ensures
            final(self).well_formed(),
            saved_quietly(
                *old(self),
                *final(self),
                id@,
                model@,
                messages,
                Some(cwd@),
                now_unix_ns,
            ),
    {
        self.save_record(id, model, messages, Some(cwd.to_owned()), now_unix_ns);
    }

    fn save_record(
        &mut self,
        id: &str,
        model: &str,
        messages: Vec<Message>,
        cwd: Option<String>,
        now_unix_ns: u64,
    )
        requires
            old(self).well_formed(),
        ensures
            final(self).well_formed(),
            saved_quietly(
                *old(self),
                *final(self),
                id@,
                model@,
                messages,
                match cwd {
                    Some(cwd) => Some(cwd@),
                    None => None,
                },
                now_unix_ns,
            ),
    {
        if !SessionStore::valid_id(id) {
            return ;
        }
        let record = PersistedSession {
            version: SESSION_PERSIST_VERSION,
            generation: 0,
            session_id: id.to_owned(),
            model: model.to_owned(),
            thinking: None,
            cwd,
            client_user_message_ids: Vec::new(),
            assistant_outcomes: Vec::new(),
            messages,
        };
        let ghost given = record;
        let outcome = self.write_record(record, usize::MAX, None, None, now_unix_ns);
        assert(written(
            *old(self),
            *self,
            given,
            usize::MAX as nat,
            None,
            None,
            now_unix_ns,
            outcome,
        ));
    }

    pub fn save_record_result(
        &mut self,
        id: &str,
        capture: SaveCapture,
        max_preview_bytes: usize,
        generation: Option<u64>,
        writer: Option<&SessionWriter>,
        now_unix_ns: u64,
    ) -> (result: Result<SessionWriteOutcome, SessionWriteError>)
        requires
            old(self).well_formed(),
            writer matches Some(writer) ==> writer.session_id@ == id@,
        ensures
            final(self).well_formed(),
            match result {
                Ok(outcome) => safe_id(id@) && saved_with_outcome(
                    *old(self),
                    *final(self),
                    id@,
                    capture,
                    max_preview_bytes as nat,
                    generation,
                    writer,
                    now_unix_ns,
                    outcome,
                ),
                Err(error) => !safe_id(id@) && error == SessionWriteError::InvalidId
                    && final(self).unchanged(*old(self)),
            },
    {
        if !SessionStore::valid_id(id) {
            return Err(SessionWriteError::InvalidId);
        }
        let record = PersistedSession {
            version: SESSION_PERSIST_VERSION,
            generation: match generation {
                Some(generation) => generation,
                None => 0,
            },
            session_id: id.to_owned(),
            model: capture.model,
            thinking: Some(capture.thinking),
            cwd: Some(capture.cwd),
            client_user_message_ids: capture.client_user_message_ids,
            assistant_outcomes: capture.assistant_outcomes,
            messages: capture.messages,
        };
        let ghost given = record;
        let outcome = self.write_record(record, max_preview_bytes, generation, writer, now_unix_ns);
        proof {
            assert(captured_record(given, id@, capture));
            assert(written(
                *old(self),
                *self,
                given,
                max_preview_bytes as nat,
                generation,
                writer,
                now_unix_ns,
                outcome,
            ));
        }
        Ok(outcome)
    }

    /// Persist a session that no writer claimed, including its effort level.
    pub fn save_acp_result(
        &mut self,
        id: &str,
        capture: SaveCapture,
        max_preview_bytes: usize,
        now_unix_ns: u64,
    ) -> (result: Result<PersistedWrite, SessionWriteError>)
        requires
            old(self).well_formed(),
        ensures
            final(self).well_formed(),
            match result {
                Ok(write) => safe_id(id@) && saved_with_outcome(
                    *old(self),
                    *final(self),
                    id@,
                    capture,
                    max_preview_bytes as nat,
                    None,
                    None,
                    now_unix_ns,
                    SessionWriteOutcome::Saved(write),
                ),
                Err(error) => {
                    &&& final(self).unchanged(*old(self))
                    &&& error == if !safe_id(id@) {
                        SessionWriteError::InvalidId
                    } else if old(self).writers_by_id().contains_key(id@) {
                        SessionWriteError::AutomaticWriterSuperseded
                    } else {
                        SessionWriteError::AutomaticGenerationStale
                    }
                    &&& safe_id(id@) && !old(self).writers_by_id().contains_key(id@) ==> {
                        &&& old(self).rows_by_id().contains_key(id@)
                        &&& old(self).rows_by_id()[id@].generation == u64::MAX
                    }
                },
            },
    {
        match self.save_record_result(id, capture, max_preview_bytes, None, None, now_unix_ns) {
            Ok(SessionWriteOutcome::Saved(write)) => Ok(write),
            Ok(SessionWriteOutcome::Stale { .. }) => Err(
                SessionWriteError::AutomaticGenerationStale,
            ),
            Ok(SessionWriteOutcome::Superseded) => Err(
                SessionWriteError::AutomaticWriterSuperseded,
            ),
            Err(error) => Err(error),
        }
    }

    /// As `save_acp_result`, with no outcome to report.
    pub fn save_acp(&mut self, id: &str, capture: SaveCapture, now_unix_ns: u64)
        requires
            old(self).well_formed(),
        ensures
            final(self).well_formed(),
            safe_id(id@) ==> exists|outcome: SessionWriteOutcome|
                #[trigger] saved_with_outcome(
                    *old(self),
                    *final(self),
                    id@,
                    capture,
                    usize::MAX as nat,
                    None,
                    None,
                    now_unix_ns,
                    outcome,
                ),
            !safe_id(id@) ==> final(self).unchanged(*old(self)),
    {
        let result = self.save_record_result(id, capture, usize::MAX, None, None, now_unix_ns);
        proof {
            if let Ok(outcome) = result {
                assert(saved_with_outcome(
                    *old(self),
                    *self,
                    id@,
                    capture,
                    usize::MAX as nat,
                    None,
                    None,
                    now_unix_ns,
                    outcome,
                ));
            }
        }
    }

    /// Persist a claimed session under an explicit generation.
    pub fn save_acp_generation_result(
        &mut self,
        writer: &SessionWriter,
        generation: u64,
        capture: SaveCapture,
        max_preview_bytes: usize,
        now_unix_ns: u64,
    ) -> (result: Result<SessionWriteOutcome, SessionWriteError>)
        requires
            old(self).well_formed(),
        ensures
            final(self).well_formed(),
            match result {
                Ok(outcome) => safe_id(writer.session_id@) && saved_with_outcome(
                    *old(self),
                    *final(self),
                    writer.session_id@,
                    capture,
                    max_preview_bytes as nat,
                    Some(generation),
                    Some(writer),
                    now_unix_ns,
                    outcome,
                ),
                Err(error) => !safe_id(writer.session_id@) && error == SessionWriteError::InvalidId
                    && final(self).unchanged(*old(self)),
            },
    {
        self.save_record_result(
            writer.session_id.as_str(),
            capture,
            max_preview_bytes,
            Some(generation),
            Some(writer),
            now_unix_ns,
        )
    }

    pub fn load_result(&self, id: &str) -> (result: Result<PersistedSession, SessionStoreError>)
        requires
            self.well_formed(),
        ensures
            match result {
                Ok(record) => loadable(self.rows_by_id(), id@) && same_record(
                    loaded_record(self.rows_by_id(), id@),
                    record,
                ),
                Err(error) => !loadable(self.rows_by_id(), id@) && load_error(
                    self.rows_by_id(),
                    id@,
                    error,
                ),
            },
    {
        if !SessionStore::valid_id(id) {
            return Err(SessionStoreError::UnsafeId);
        }
        match self.row(id) {
            None => Err(SessionStoreError::NotFound),
            Some(row) => match &row.payload {
                StoredPayload::Unreadable(detail) => Err(
                    SessionStoreError::Corrupt(detail.clone()),
                ),
                StoredPayload::Record(record) => {
                    match validate_persisted_session(record) {
                        Err(error) => return Err(error),
                        Ok(()) => {},
                    }
                    if !str_eq(record.session_id.as_str(), id) {
                        return Err(
                            SessionStoreError::Database("Query is not read-only".to_owned()),
                        );
                    }
                    let mut record = record.clone();
                    record.generation = row.generation;
                    Ok(record)
                },
            },
        }
    }

    /// Loads a session, with every failure treated as not resumable.
    pub fn load(&self, id: &str) -> (record: Option<PersistedSession>)
        requires
            self.well_formed(),
        ensures
            match record {
                Some(record) => loadable(self.rows_by_id(), id@) && same_record(
                    loaded_record(self.rows_by_id(), id@),
                    record,
                ),
                None => !loadable(self.rows_by_id(), id@),
            },
    {
        match self.load_result(id) {
            Ok(record) => Some(record),
            Err(_) => None,
        }
    }

    /// Takes in an archived record under an id that is neither stored nor
    /// claimed. It starts a new local lineage: an archived generation must not
    /// pin later writes.
    pub fn import_if_absent(
        &mut self,
        record: PersistedSession,
        max_preview_bytes: usize,
        now_unix_ns: u64,
    ) -> (result: Result<(), SessionStoreError>)
        requires
            old(self).well_formed(),
        ensures
            final(self).well_formed(),
            match result {
                Ok(()) => {
                    let id = record.session_id@;
                    &&& import_error(*old(self), record) is None
                    &&& final(self).rows_by_id().contains_key(id)
                    &&& row_holds(
                        final(self).rows_by_id()[id],
                        record,
                        1,
                        max_preview_bytes as nat,
                        now_unix_ns,
                    )
                    &&& final(self).rows_by_id() == old(self).rows_by_id().insert(
                        id,
                        final(self).rows_by_id()[id],
                    )
                    &&& final(self).writer_rows() == old(self).writer_rows()
                    &&& final(self).same_settings(*old(self))
                },
                Err(error) => {
                    &&& import_error(*old(self), record) == Some(error)
                    &&& final(self).unchanged(*old(self))
                },
            },
    {
        match validate_persisted_session(&record) {
            Err(error) => return Err(error),
            Ok(()) => {},
        }
        if !SessionStore::valid_id(record.session_id.as_str()) {
            return Err(SessionStoreError::UnsafeId);
        }
        if self.row(record.session_id.as_str()).is_some() || self.writer(
            record.session_id.as_str(),
        ).is_some() {
            return Err(SessionStoreError::AlreadyExists);
        }
        let ghost given = record;
        let mut record = record;
        record.generation = 1;
        let preview = first_user_preview(record.messages.as_slice(), max_preview_bytes);
        let row = StoredRow {
            session_id: record.session_id.clone(),
            generation: 1,
            payload: StoredPayload::Record(record),
            preview,
            updated_at_unix_ns: now_unix_ns,
        };
        assert(row_holds(row, given, 1, max_preview_bytes as nat, now_unix_ns));
        self.put_row(row);
        Ok(())
    }

    /// Deletes a session by id, whoever writes it. Missing and unsafe ids count
    /// as already deleted.
    pub fn delete_unconditionally(&mut self, id: &str) -> (deleted: bool)
        requires
            old(self).well_formed(),
        ensures
            final(self).well_formed(),
            final(self).same_settings(*old(self)),
            deleted == (safe_id(id@) && old(self).rows_by_id().contains_key(id@)),
            safe_id(id@) ==> final(self).rows_by_id() == old(self).rows_by_id().remove(id@)
                && final(self).writers_by_id() == old(self).writers_by_id().remove(id@),
            !safe_id(id@) ==> final(self).unchanged(*old(self)),
    {
        if !SessionStore::valid_id(id) {
            return false;
        }
        let changed = self.remove_row(id);
        self.remove_writer(id);
        changed
    }

    /// Deletes a session on behalf of its writer; nothing happens, and `None`
    /// comes back, when that writer is no longer the active one.
    pub fn delete_writer(&mut self, writer: &SessionWriter) -> (deleted: Option<bool>)
        requires
            old(self).well_formed(),
        ensures
            final(self).well_formed(),
            final(self).same_settings(*old(self)),
            match deleted {
                Some(changed) => {
                    let id = writer.session_id@;
                    &&& holds_epoch(*old(self), *writer)
                    &&& changed == old(self).rows_by_id().contains_key(id)
                    &&& final(self).rows_by_id() == old(self).rows_by_id().remove(id)
                    &&& final(self).writers_by_id() == old(self).writers_by_id().remove(id)
                },
                None => !holds_epoch(*old(self), *writer) && final(self).unchanged(*old(self)),
            },
    {
        let active = match self.writer(writer.session_id.as_str()) {
            Some(active) => str_eq(active.epoch.as_str(), writer.epoch.as_str()),
            None => false,
        };
        if !active {
            return None;
        }
        let changed = self.remove_row(writer.session_id.as_str());
        self.remove_writer(writer.session_id.as_str());
        Some(changed)
    }
}

/// Whether a writer is the active one of its session.
pub open spec fn holds_epoch(store: SessionStore, writer: SessionWriter) -> bool {
    store.writers_by_id().contains_key(writer.session_id@)
        && store.writers_by_id()[writer.session_id@].epoch@ == writer.epoch@
}

/// Why an archived record is not taken in.
pub open spec fn import_error(store: SessionStore, record: PersistedSession) -> Option<
    SessionStoreError,
> {
    if version_error(record) is Some {
        version_error(record)
    } else if !safe_id(record.session_id@) {
        Some(SessionStoreError::UnsafeId)
    } else if store.rows_by_id().contains_key(record.session_id@)
        || store.writers_by_id().contains_key(record.session_id@) {
        Some(SessionStoreError::AlreadyExists)
    } else {
        None
    }
}


proof fn lemma_listed_before_total(rows: Seq<StoredRow>, by_payload: bool, a: int, b: int)
    requires
        a != b,
    ensures
        listed_before(rows, by_payload, a, b) || listed_before(rows, by_payload, b, a),
{
    lemma_text_less_total(listing_id(rows[a], by_payload), listing_id(rows[b], by_payload));
}

proof fn lemma_listed_before_transitive(
    rows: Seq<StoredRow>,
    by_payload: bool,
    a: int,
    b: int,
    c: int,
)
    requires
        listed_before(rows, by_payload, a, b),
        listed_before(rows, by_payload, b, c),
    ensures
        listed_before(rows, by_payload, a, c),
{
    let (x, y, z) = (
        listing_id(rows[a], by_payload),
        listing_id(rows[b], by_payload),
        listing_id(rows[c], by_payload),
    );
    if text_less(x, y) && text_less(y, z) {
        lemma_text_less_transitive(x, y, z);
    }
}

pub open spec fn row_numbers(picks: Seq<usize>) -> Seq<int> {
    picks.map_values(|i: usize| i as int)
}

proof fn lemma_readable_between(rows: Seq<StoredRow>, from: int, to: int)
    requires
        0 <= from,
    ensures
        readable_between(rows, from, to).len() <= if from >= to {
            0
        } else {
            to - from
        },
        forall|i: int|
            0 <= i < readable_between(rows, from, to).len() ==> from <= #[trigger] readable_between(
                rows,
                from,
                to,
            )[i] < to && readable(rows[readable_between(rows, from, to)[i]]),
        forall|i: int, j: int|
            0 <= i < j < readable_between(rows, from, to).len() ==> #[trigger] readable_between(
                rows,
                from,
                to,
            )[i] < #[trigger] readable_between(rows, from, to)[j],
    decreases to - from,
{
    if from < to {
        lemma_readable_between(rows, from, to - 1);
    }
}

proof fn lemma_rows_through(rows: Seq<StoredRow>, after: Seq<char>, at: int)
    requires
        rows_ordered(rows),
        0 <= at <= rows.len(),
        forall|j: int| 0 <= j < at ==> !text_less(after, (#[trigger] rows[j]).session_id@),
        at < rows.len() ==> text_less(after, rows[at].session_id@),
    ensures
        rows_through(rows, after) == at,
    decreases rows.len(),
{
    if rows.len() > 0 {
        let last = rows.last();
        if at < rows.len() {
            if at < rows.len() - 1 {
                lemma_text_less_transitive(after, rows[at].session_id@, last.session_id@);
            }
            assert(rows_ordered(rows.drop_last()));
            lemma_rows_through(rows.drop_last(), after, at);
        } else {
            assert(!text_less(after, rows[rows.len() - 1].session_id@));
        }
    }
}

impl SessionStore {
    fn is_listed_before(&self, by_payload: bool, a: usize, b: usize) -> (before: bool)
        requires
            a < self.rows@.len(),
            b < self.rows@.len(),
        ensures
            before == listed_before(self.rows@, by_payload, a as int, b as int),
    {
        let left = &self.rows[a];
        let right = &self.rows[b];
        if left.updated_at_unix_ns != right.updated_at_unix_ns {
            return left.updated_at_unix_ns > right.updated_at_unix_ns;
        }
        let left_id = SessionStore::row_listing_id(left, by_payload);
        let right_id = SessionStore::row_listing_id(right, by_payload);
        str_less(left_id, right_id) || (str_eq(left_id, right_id) && a < b)
    }

    fn row_listing_id(row: &StoredRow, by_payload: bool) -> (id: &str)
        ensures
            id@ == listing_id(*row, by_payload),
    {
        match &row.payload {
            StoredPayload::Record(record) => if by_payload {
                record.session_id.as_str()
            } else {
                row.session_id.as_str()
            },
            StoredPayload::Unreadable(_) => row.session_id.as_str(),
        }
    }

    /// Brings row numbers into listing order.
    fn in_order(&self, picks: &Vec<usize>, by_payload: bool) -> (order: Vec<usize>)
        requires
            forall|i: int| 0 <= i < picks@.len() ==> #[trigger] picks@[i] < self.rows@.len(),
            forall|i: int, j: int|
                0 <= i < j < picks@.len() ==> #[trigger] picks@[i] != #[trigger] picks@[j],
        ensures
            listing_of(self.rows@, by_payload, row_numbers(picks@), row_numbers(order@)),
    {
        let mut order: Vec<usize> = Vec::new();
        let mut i: usize = 0;
        while i < picks.len()
            invariant
                i <= picks@.len(),
                order@.len() == i,
                forall|k: int| 0 <= k < picks@.len() ==> #[trigger] picks@[k] < self.rows@.len(),
                forall|k: int, l: int|
                    0 <= k < l < picks@.len() ==> #[trigger] picks@[k] != #[trigger] picks@[l],
                forall|k: int| 0 <= k < order@.len() ==> #[trigger] order@[k] < self.rows@.len(),
                forall|k: int, l: int|
                    0 <= k < l < order@.len() ==> listed_before(
                        self.rows@,
                        by_payload,
                        #[trigger] order@[k] as int,
                        #[trigger] order@[l] as int,
                    ),
                forall|v: usize| #[trigger] order@.contains(v) <==> picks@.take(i as int).contains(v),
            decreases picks@.len() - i,
        {
            let pick: usize = picks[i];
            let mut at: usize = 0;
            while at < order.len() && !self.is_listed_before(by_payload, pick, order[at])
                invariant
                    at <= order@.len(),
                    pick < self.rows@.len(),
                    forall|k: int| 0 <= k < order@.len() ==> #[trigger] order@[k] < self.rows@.len(),
                    forall|k: int|
                        0 <= k < at ==> !listed_before(
                            self.rows@,
                            by_payload,
                            pick as int,
                            #[trigger] order@[k] as int,
                        ),
                decreases order@.len() - at,
            {
                at = at + 1;
            }
            let ghost before = order@;
            proof {
                assert forall|k: int| 0 <= k < before.len() implies #[trigger] before[k]
                    != pick by {
                    assert(before.contains(before[k]));
                    let taken = picks@.take(i as int);
                    assert(taken.contains(before[k]));
                    let m = choose|m: int| 0 <= m < taken.len() && taken[m] == before[k];
                    assert(picks@[m] != picks@[i as int]);
                }
                assert forall|k: int| 0 <= k < at implies listed_before(
                    self.rows@,
                    by_payload,
                    #[trigger] before[k] as int,
                    pick as int,
                ) by {
                    lemma_listed_before_total(
                        self.rows@,
                        by_payload,
                        before[k] as int,
                        pick as int,
                    );
                }
                assert forall|k: int| at <= k < before.len() implies listed_before(
                    self.rows@,
                    by_payload,
                    pick as int,
                    #[trigger] before[k] as int,
                ) by {
                    if k > at {
                        lemma_listed_before_transitive(
                            self.rows@,
                            by_payload,
                            pick as int,
                            before[at as int] as int,
                            before[k] as int,
                        );
                    }
                }
            }
            order.insert(at, pick);
            proof {
                assert(order@ == before.insert(at as int, pick));
                assert forall|v: usize| #[trigger] order@.contains(v) <==> picks@.take(
                    i + 1,
                ).contains(v) by {
                    let taken = picks@.take(i as int);
                    let more = picks@.take(i + 1);
                    if order@.contains(v) {
                        let k = choose|k: int| 0 <= k < order@.len() && order@[k] == v;
                        if k == at {
                            assert(more[i as int] == v);
                        } else {
                            let o = if k < at {
                                k
                            } else {
                                k - 1
                            };
                            assert(before[o] == v);
                            assert(before.contains(v));
                            let m = choose|m: int| 0 <= m < taken.len() && taken[m] == v;
                            assert(more[m] == v);
                        }
                    }
                    if more.contains(v) {
                        let m = choose|m: int| 0 <= m < more.len() && more[m] == v;
                        if m == i {
                            assert(order@[at as int] == v);
                        } else {
                            assert(taken[m] == v);
                            assert(before.contains(v));
                            let o = choose|o: int| 0 <= o < before.len() && before[o] == v;
                            if o < at {
                                assert(order@[o] == v);
                            } else {
                                assert(order@[o + 1] == v);
                            }
                        }
                    }
                }
            }
            i = i + 1;
        }
        proof {
            assert(picks@.take(picks@.len() as int) =~= picks@);
            let numbers = row_numbers(order@);
            let picked = row_numbers(picks@);
            assert forall|k: int| #[trigger] numbers.contains(k) <==> picked.contains(k) by {
                if numbers.contains(k) {
                    let m = choose|m: int| 0 <= m < numbers.len() && numbers[m] == k;
                    assert(order@.contains(order@[m]));
                    assert(picks@.contains(order@[m]));
                    let n = choose|n: int| 0 <= n < picks@.len() && picks@[n] == order@[m];
                    assert(picked[n] == k);
                }
                if picked.contains(k) {
                    let m = choose|m: int| 0 <= m < picked.len() && picked[m] == k;
                    assert(picks@.contains(picks@[m]));
                    assert(order@.contains(picks@[m]));
                    let n = choose|n: int| 0 <= n < order@.len() && order@[n] == picks@[m];
                    assert(numbers[n] == k);
                }
            }
        }
        order
    }

    fn row_is_readable(row: &StoredRow) -> (holds: bool)
        ensures
            holds == readable(*row),
    {
        match &row.payload {
            StoredPayload::Record(record) => validate_persisted_session(record).is_ok(),
            StoredPayload::Unreadable(_) => false,
        }
    }

    fn readable_rows(&self, from: usize, to: usize) -> (picks: Vec<usize>)
        requires
            from <= to <= self.rows@.len(),
        ensures
            row_numbers(picks@) == readable_between(self.rows@, from as int, to as int),
    {
        let mut picks: Vec<usize> = Vec::new();
        let mut i: usize = from;
        assert(row_numbers(picks@) =~= Seq::<int>::empty());
        while i < to
            invariant
                from <= i <= to <= self.rows@.len(),
                row_numbers(picks@) == readable_between(self.rows@, from as int, i as int),
            decreases to - i,
        {
            if SessionStore::row_is_readable(&self.rows[i]) {
                let ghost before = picks@;
                picks.push(i);
                assert(row_numbers(picks@) =~= row_numbers(before).push(i as int));
            }
            i = i + 1;
        }
        picks
    }

    fn summarize(&self, order: &Vec<usize>, max_preview_bytes: usize) -> (summaries: Vec<
        SessionSummary,
    >)
        requires
            forall|i: int|
                0 <= i < order@.len() ==> #[trigger] order@[i] < self.rows@.len() && readable(
                    self.rows@[order@[i] as int],
                ),
        ensures
            summaries_of(
                summaries@,
                self.rows@,
                row_numbers(order@),
                max_preview_bytes as nat,
            ),
    {
        let mut summaries: Vec<SessionSummary> = Vec::new();
        let mut i: usize = 0;
        while i < order.len()
            invariant
                i <= order@.len(),
                summaries@.len() == i,
                forall|k: int|
                    0 <= k < order@.len() ==> #[trigger] order@[k] < self.rows@.len() && readable(
                        self.rows@[order@[k] as int],
                    ),
                forall|k: int|
                    0 <= k < i ==> {
                        let row = self.rows@[#[trigger] order@[k] as int];
                        summarizes(
                            summaries@[k],
                            row.payload->Record_0,
                            max_preview_bytes as nat,
                            row.updated_at_unix_ns,
                        )
                    },
            decreases order@.len() - i,
        {
            let row = &self.rows[order[i]];
            match &row.payload {
                StoredPayload::Record(record) => {
                    summaries.push(
                        SessionSummary {
                            id: record.session_id.clone(),
                            model: record.model.clone(),
                            message_count: record.messages.len(),
                            cwd: copy_text(&record.cwd),
                            updated_at: Some(row.updated_at_unix_ns),
                            first_user_line: first_user_preview(
                                record.messages.as_slice(),
                                max_preview_bytes,
                            ),
                        },
                    );
                },
                StoredPayload::Unreadable(_) => {
                    assert(readable(self.rows@[order@[i as int] as int]));
                },
            }
            i = i + 1;
        }
        summaries
    }

    /// Summaries of all saved sessions, most recently written first. Rows that
    /// do not decode are left out.
    pub fn list(&self) -> (summaries: Vec<SessionSummary>)
        requires
            self.well_formed(),
        ensures
            listing(self.ordered_rows(), summaries@, usize::MAX as nat),
    {
        self.list_with_preview_limit(usize::MAX)
    }

    /// As `list`, with previews bounded in bytes.
    pub fn list_with_preview_limit(&self, max_preview_bytes: usize) -> (summaries: Vec<
        SessionSummary,
    >)
        requires
            self.well_formed(),
        ensures
            listing(self.ordered_rows(), summaries@, max_preview_bytes as nat),
    {
        let picks = self.readable_rows(0, self.rows.len());
        let ghost numbers = row_numbers(picks@);
        proof {
            lemma_readable_between(self.rows@, 0, self.rows@.len() as int);
            lemma_picks_in_range(picks@, self.rows@);
        }
        let order = self.in_order(&picks, false);
        proof {
            lemma_order_in_range(picks@, order@, self.rows@, false);
        }
        let summaries = self.summarize(&order, max_preview_bytes);
        assert(listing_of(self.rows@, false, numbers, row_numbers(order@)));
        summaries
    }

    /// One bounded batch of summaries in the order of ids, for reconciliation
    /// and incomplete fallback. The flags say whether the deadline had passed
    /// before the scan and when it ended.
    pub fn scan_summaries(
        &self,
        max_preview_bytes: usize,
        after_name: Option<&str>,
        max_entries: usize,
        expired_before: bool,
        expired_after: bool,
    ) -> (scan: SessionSummaryScan)
        requires
            self.well_formed(),
        ensures
            expired_before ==> scan.summaries@.len() == 0 && !scan.complete && same_optional(
                scan.next_cursor,
                match after_name {
                    Some(after) => Some(after@),
                    None => None,
                },
            ),
            !expired_before ==> scanned(
                self.ordered_rows(),
                cursor_id(after_name),
                if max_entries == 0 {
                    1
                } else {
                    max_entries as nat
                },
                max_preview_bytes as nat,
                expired_after,
                scan,
            ),
    {
        if expired_before {
            return SessionSummaryScan {
                summaries: Vec::new(),
                next_cursor: match after_name {
                    Some(after) => Some(after.to_owned()),
                    None => None,
                },
                complete: false,
            };
        }
        let max_entries: usize = if max_entries == 0 {
            1
        } else {
            max_entries
        };
        let after = SessionStore::strip_cursor(after_name);
        let mut from: usize = 0;
        while from < self.rows.len() && !str_less(
            after.as_str(),
            self.rows[from].session_id.as_str(),
        )
            invariant
                from <= self.rows@.len(),
                forall|j: int|
                    0 <= j < from ==> !text_less(after@, (#[trigger] self.rows@[j]).session_id@),
            decreases self.rows@.len() - from,
        {
            from = from + 1;
        }
        proof {
            lemma_rows_through(self.rows@, after@, from as int);
        }
        let remaining: usize = self.rows.len() - from;
        let to: usize = if remaining > max_entries {
            from + max_entries + 1
        } else {
            self.rows.len()
        };
        let mut picks = self.readable_rows(from, to);
        let payload_complete = picks.len() == to - from;
        let has_more = picks.len() > max_entries;
        let ghost all = picks@;
        proof {
            lemma_readable_between(self.rows@, from as int, to as int);
        }
        if has_more {
            picks.truncate(max_entries);
        }
        proof {
            assert(row_numbers(picks@) =~= page_of(row_numbers(all), max_entries as nat));
            lemma_picks_in_range(picks@, self.rows@);
        }
        let next_cursor = if has_more {
            let last: usize = picks[picks.len() - 1];
            assert(page_of(row_numbers(all), max_entries as nat).last() == last);
            Some(SessionStore::row_listing_id(&self.rows[last], true).to_owned())
        } else {
            None
        };
        let order = self.in_order(&picks, true);
        proof {
            lemma_order_in_range(picks@, order@, self.rows@, true);
        }
        let summaries = self.summarize(&order, max_preview_bytes);
        assert(listing_of(self.rows@, true, row_numbers(picks@), row_numbers(order@)));
        SessionSummaryScan {
            summaries,
            next_cursor,
            complete: !has_more && payload_complete && !expired_after,
        }
    }

    fn strip_cursor(after_name: Option<&str>) -> (id: String)
        ensures
            id@ == cursor_id(after_name),
    {
        match after_name {
            Some(after) => {
                let chars = chars_of(after);
                let suffix = chars_of(".json");
                proof {
                    reveal_strlit(".json");
                }
                if chars.len() >= 5 && matches_at(
                    chars.as_slice(),
                    suffix.as_slice(),
                    chars.len() - 5,
                ) {
                    assert(after@.subrange(after@.len() - 5, after@.len() as int) =~= after@.skip(
                        after@.len() - 5,
                    ));
                    let id = string_of(chars.as_slice(), 0, chars.len() - 5);
                    assert(id@ =~= after@.take(after@.len() - 5));
                    id
                } else {
                    proof {
                        if after@.len() >= 5 {
                            assert(after@.subrange(after@.len() - 5, after@.len() as int)
                                =~= after@.skip(after@.len() - 5));
                        }
                    }
                    after.to_owned()
                }
            },
            None => {
                let id = String::new();
                id
            },
        }
    }
}

proof fn lemma_picks_in_range(picks: Seq<usize>, rows: Seq<StoredRow>)
    requires
        forall|i: int|
            0 <= i < row_numbers(picks).len() ==> 0 <= #[trigger] row_numbers(picks)[i]
                < rows.len(),
        forall|i: int, j: int|
            0 <= i < j < row_numbers(picks).len() ==> #[trigger] row_numbers(picks)[i]
                < #[trigger] row_numbers(picks)[j],
    ensures
        forall|i: int| 0 <= i < picks.len() ==> #[trigger] picks[i] < rows.len(),
        forall|i: int, j: int|
            0 <= i < j < picks.len() ==> #[trigger] picks[i] != #[trigger] picks[j],
{
    assert forall|i: int| 0 <= i < picks.len() implies #[trigger] picks[i] < rows.len() by {
        assert(row_numbers(picks)[i] == picks[i]);
    }
    assert forall|i: int, j: int| 0 <= i < j < picks.len() implies #[trigger] picks[i]
        != #[trigger] picks[j] by {
        assert(row_numbers(picks)[i] < row_numbers(picks)[j]);
    }
}

proof fn lemma_order_in_range(
    picks: Seq<usize>,
    order: Seq<usize>,
    rows: Seq<StoredRow>,
    by_payload: bool,
)
    requires
        listing_of(rows, by_payload, row_numbers(picks), row_numbers(order)),
        forall|i: int|
            0 <= i < row_numbers(picks).len() ==> 0 <= #[trigger] row_numbers(picks)[i]
                < rows.len() && readable(rows[row_numbers(picks)[i]]),
    ensures
        forall|i: int|
            0 <= i < order.len() ==> #[trigger] order[i] < rows.len() && readable(
                rows[order[i] as int],
            ),
{
    assert forall|i: int| 0 <= i < order.len() implies #[trigger] order[i] < rows.len() && readable(
        rows[order[i] as int],
    ) by {
        let numbers = row_numbers(order);
        assert(numbers[i] == order[i]);
        assert(numbers.contains(numbers[i]));
        let picked = row_numbers(picks);
        let k = choose|k: int| 0 <= k < picked.len() && picked[k] == numbers[i];
        assert(readable(rows[picked[k]]));
    }
}

/// The summaries of every readable row, in listing order.
pub open spec fn listing(
    rows: Seq<StoredRow>,
    summaries: Seq<SessionSummary>,
    max_preview_bytes: nat,
) -> bool {
    exists|order: Seq<int>|
        #[trigger] listing_of(rows, false, readable_between(rows, 0, rows.len() as int), order)
            && summaries_of(summaries, rows, order, max_preview_bytes)
}

pub open spec fn page_of(picks: Seq<int>, max_entries: nat) -> Seq<int> {
    if picks.len() > max_entries {
        picks.take(max_entries as int)
    } else {
        picks
    }
}

/// Where the rows end that one batch looks at: one more than it may return.
pub open spec fn scan_end(rows: Seq<StoredRow>, after: Seq<char>, max_entries: nat) -> int {
    let from = rows_through(rows, after);
    if rows.len() - from > max_entries {
        (from + max_entries + 1) as int
    } else {
        rows.len() as int
    }
}

/// One batch: the first readable rows behind the cursor, in listing order, and
/// the cursor of the next batch when more are known.
pub open spec fn scanned(
    rows: Seq<StoredRow>,
    after: Seq<char>,
    max_entries: nat,
    max_preview_bytes: nat,
    expired_after: bool,
    scan: SessionSummaryScan,
) -> bool {
    let from = rows_through(rows, after) as int;
    let to = scan_end(rows, after, max_entries);
    let picks = readable_between(rows, from, to);
    let page = page_of(picks, max_entries);
    let has_more = picks.len() > max_entries;
    &&& exists|order: Seq<int>|
        #[trigger] listing_of(rows, true, page, order) && summaries_of(
            scan.summaries@,
            rows,
            order,
            max_preview_bytes,
        )
    &&& same_optional(
        scan.next_cursor,
        if has_more {
            Some(listing_id(rows[page.last()], true))
        } else {
            None
        },
    )
    &&& scan.complete == (!has_more && picks.len() == to - from && !expired_after)
}


/// What was saved is what loads: after a write went through, the session loads
/// with the written record under the generation of that write.
pub proof fn law_saved_session_loads(
    before: SessionStore,
    after: SessionStore,
    record: PersistedSession,
    max_preview_bytes: nat,
    requested_generation: Option<u64>,
    writer: Option<&SessionWriter>,
    now_unix_ns: u64,
    write: PersistedWrite,
)
    requires
        safe_id(record.session_id@),
        record.version == SESSION_PERSIST_VERSION,
        written(
            before,
            after,
            record,
            max_preview_bytes,
            requested_generation,
            writer,
            now_unix_ns,
            SessionWriteOutcome::Saved(write),
        ),
    ensures
        loadable(after.rows_by_id(), record.session_id@),
        loaded_record(after.rows_by_id(), record.session_id@) == (PersistedSession {
            generation: after.rows_by_id()[record.session_id@].generation,
            ..record
        }),
        requested_generation matches Some(generation)
            ==> after.rows_by_id()[record.session_id@].generation == generation,
{
}

/// Generations only grow: no write leaves a session with an older generation,
/// and a write that went through leaves it with a newer one.
pub proof fn law_generations_grow(
    before: SessionStore,
    after: SessionStore,
    record: PersistedSession,
    max_preview_bytes: nat,
    requested_generation: Option<u64>,
    writer: Option<&SessionWriter>,
    now_unix_ns: u64,
    outcome: SessionWriteOutcome,
)
    requires
        before.rows_by_id().contains_key(record.session_id@),
        written(
            before,
            after,
            record,
            max_preview_bytes,
            requested_generation,
            writer,
            now_unix_ns,
            outcome,
        ),
    ensures
        after.rows_by_id().contains_key(record.session_id@),
        after.rows_by_id()[record.session_id@].generation
            >= before.rows_by_id()[record.session_id@].generation,
        outcome is Saved ==> after.rows_by_id()[record.session_id@].generation
            > before.rows_by_id()[record.session_id@].generation,
        !(outcome is Saved) ==> after.rows_by_id() == before.rows_by_id(),
{
}

/// A new claim ends the rights of every earlier writer of the session: what it
/// tries to write is superseded, whatever its generation.
pub proof fn law_claim_supersedes_earlier_writers(
    before: SessionStore,
    after: SessionStore,
    earlier: SessionWriter,
    claimed: SessionWriter,
    generation: Option<u64>,
)
    requires
        earlier.session_id@ == claimed.session_id@,
        earlier.epoch@ != claimed.epoch@,
        after.writers_by_id() == before.writers_by_id().insert(claimed.session_id@, claimed),
    ensures
        write_decision(
            after.rows_by_id(),
            after.writers_by_id(),
            earlier.session_id@,
            Some(earlier.epoch@),
            generation,
        ) is Superseded,
        !holds_epoch(after, earlier),
{
}

/// A deleted session stays deleted for its writer: nothing that the writer
/// still tries to save brings it back.
pub proof fn law_deleted_session_is_not_written_again(
    before: SessionStore,
    after: SessionStore,
    writer: SessionWriter,
    generation: Option<u64>,
)
    requires
        after.writers_by_id() == before.writers_by_id().remove(writer.session_id@),
    ensures
        write_decision(
            after.rows_by_id(),
            after.writers_by_id(),
            writer.session_id@,
            Some(writer.epoch@),
            generation,
        ) is Superseded,
{
}

/// A scan that resumes behind a row looks at the next row first, so that
/// successive batches neither repeat nor skip a row.
pub proof fn law_scan_resumes_behind_its_cursor(rows: Seq<StoredRow>, at: int)
    requires
        rows_ordered(rows),
        0 <= at < rows.len(),
    ensures
        rows_through(rows, rows[at].session_id@) == at + 1,
{
    let after = rows[at].session_id@;
    lemma_text_less_irreflexive(after);
    assert forall|j: int| 0 <= j < at + 1 implies !text_less(
        after,
        (#[trigger] rows[j]).session_id@,
    ) by {
        if j < at {
            lemma_text_less_total(rows[j].session_id@, after);
        }
    }
    lemma_rows_through(rows, after, at + 1);
}

/// A generated id is always a safe one.
pub proof fn law_generated_ids_are_safe(id: Seq<char>)
    requires
        uuid_text(id),
    ensures
        safe_id(id),
{
}

/// A preview keeps its byte bound.
pub proof fn law_preview_is_bounded(line: Seq<char>, max_bytes: nat)
    ensures
        preview_of(line, max_bytes) matches Some(text) ==> 0 < text.len() && utf8_len(text)
            <= max_bytes,
{
    lemma_fitting_bounds(collapsed(line), max_bytes);
    let cut = utf8_prefix(collapsed(line), max_bytes);
    if cut.len() > 0 {
        assert(utf8_len(cut.drop_last()) <= utf8_len(cut));
    }
}

} // verus!
