//! Provider-neutral session archives: which formats there are, what an archive
//! must carry, and how one enters and leaves the session store.
//!
//! The JSON text itself is written and read by functions that the caller hands
//! in; what they are given, and what becomes of their answer, is settled here.
use vstd::prelude::*;
use vstd::string::*;
use crate::providers::same_message;
use crate::session_store::{
    import_error, load_error, loadable, loaded_record, row_holds, same_record, PersistedSession,
    SessionStore, SessionStoreError,
};
use crate::text::{chars_of, lowercase, lowercase_chars, str_eq, string_of};

verus! {

broadcast use vstd::string::group_string_axioms;

pub const DAIMONOS_SESSION_FORMAT: &'static str = "daimonos.session";

#[derive(Debug, Clone, Copy, PartialEq, Eq, Structural)]
pub enum SessionFormat {
    Json,
}

#[derive(Debug, PartialEq, Eq)]
pub enum SessionInterchangeError {
    UnsupportedFormat(String),
    InvalidEnvelope(String),
    Json(String),
}

impl SessionInterchangeError {
    pub open spec fn text(self) -> Seq<char> {
        match self {
            SessionInterchangeError::UnsupportedFormat(format) => "unsupported session format: "@
                + format@,
            SessionInterchangeError::InvalidEnvelope(message) => "invalid session archive: "@
                + message@,
            SessionInterchangeError::Json(error) => "invalid session JSON: "@ + error@,
        }
    }

    /// The diagnostic text.
    pub fn message(&self) -> (text: String)
        ensures
            text@ == self.text(),
    {
        match self {
            SessionInterchangeError::UnsupportedFormat(format) => {
                let mut out = "unsupported session format: ".to_owned();
                out.append(format.as_str());
                out
            },
            SessionInterchangeError::InvalidEnvelope(message) => {
                let mut out = "invalid session archive: ".to_owned();
                out.append(message.as_str());
                out
            },
            SessionInterchangeError::Json(error) => {
                let mut out = "invalid session JSON: ".to_owned();
                out.append(error.as_str());
                out
            },
        }
    }
}

/// What the name of a format stands for, in any letter case.
pub open spec fn format_named(value: Seq<char>) -> Option<SessionFormat> {
    if lowercase(value) == "json"@ {
        Some(SessionFormat::Json)
    } else {
        None
    }
}

impl SessionFormat {
    pub fn parse(value: &str) -> (result: Result<Self, SessionInterchangeError>)
        ensures
            match format_named(value@) {
                Some(format) => result == Ok::<SessionFormat, SessionInterchangeError>(format),
                None => result matches Err(SessionInterchangeError::UnsupportedFormat(named))
                    && named@ == value@,
            },
    {
        let chars = chars_of(value);
        let lower = lowercase_chars(chars.as_slice());
        let name = string_of(lower.as_slice(), 0, lower.len());
        assert(name@ =~= lowercase(value@));
        if str_eq(name.as_str(), "json") {
            Ok(SessionFormat::Json)
        } else {
            Err(SessionInterchangeError::UnsupportedFormat(value.to_owned()))
        }
    }

    /// The format that a path's extension names. `shown` is the path as it is
    /// displayed; a path without a readable extension is refused under it.
    pub fn from_path(shown: &str, extension: Option<&str>) -> (result: Result<
        Self,
        SessionInterchangeError,
    >)
        ensures
            match extension {
                Some(extension) => match format_named(extension@) {
                    Some(format) => result == Ok::<SessionFormat, SessionInterchangeError>(format),
                    None => result matches Err(SessionInterchangeError::UnsupportedFormat(named))
                        && named@ == extension@,
                },
                None => result matches Err(SessionInterchangeError::UnsupportedFormat(named))
                    && named@ == shown@,
            },
    {
        match extension {
            Some(extension) => SessionFormat::parse(extension),
            None => Err(SessionInterchangeError::UnsupportedFormat(shown.to_owned())),
        }
    }
}

/// An archive's document: the session's own members beside the format tag.
#[derive(Debug, PartialEq, Eq)]
pub struct JsonSessionEnvelope {
    pub format: String,
    pub session: PersistedSession,
}

/// Whether an envelope carries a session under the format's tag.
pub open spec fn envelops(envelope: JsonSessionEnvelope, session: PersistedSession) -> bool {
    envelope.format@ == DAIMONOS_SESSION_FORMAT@ && same_record(session, envelope.session)
}

/// What an envelope is refused for: a foreign tag, then a missing session id.
pub open spec fn envelope_problem(envelope: JsonSessionEnvelope) -> Option<Seq<char>> {
    if envelope.format@ != DAIMONOS_SESSION_FORMAT@ {
        Some("expected format "@ + DAIMONOS_SESSION_FORMAT@)
    } else if envelope.session.session_id@.len() == 0 {
        Some("session_id is required"@)
    } else {
        None
    }
}

/// Takes the session out of a parsed envelope.
pub fn open_envelope(envelope: JsonSessionEnvelope) -> (result: Result<
    PersistedSession,
    SessionInterchangeError,
>)
    ensures
        match envelope_problem(envelope) {
            None => result == Ok::<PersistedSession, SessionInterchangeError>(envelope.session),
            Some(problem) => result matches Err(SessionInterchangeError::InvalidEnvelope(message))
                && message@ == problem,
        },
{
    if !str_eq(envelope.format.as_str(), DAIMONOS_SESSION_FORMAT) {
        let mut message = "expected format ".to_owned();
        message.append(DAIMONOS_SESSION_FORMAT);
        return Err(SessionInterchangeError::InvalidEnvelope(message));
    }
    proof {
        reveal_strlit("");
    }
    assert(envelope.session.session_id@.len() == 0 ==> envelope.session.session_id@ =~= ""@);
    if str_eq(envelope.session.session_id.as_str(), "") {
        return Err(SessionInterchangeError::InvalidEnvelope("session_id is required".to_owned()));
    }
    Ok(envelope.session)
}

/// Whether a result is an answer of the writing function to an envelope of the
/// session: its document closed by a line feed, or its error.
pub open spec fn encoded<F: Fn(&JsonSessionEnvelope) -> Result<Vec<u8>, String>>(
    session: PersistedSession,
    to_json: F,
    result: Result<Vec<u8>, SessionInterchangeError>,
) -> bool {
    exists|envelope: JsonSessionEnvelope, answer: Result<Vec<u8>, String>|
        #![trigger to_json.ensures((&envelope,), answer)]
        envelops(envelope, session) && to_json.ensures((&envelope,), answer) && match answer {
            Ok(document) => result matches Ok(bytes) && bytes@ == document@.push(10u8),
            Err(error) => result == Err::<Vec<u8>, _>(SessionInterchangeError::Json(error)),
        }
}

/// An archive of a session, with `to_json` writing the envelope's pretty-printed
/// document.
pub fn encode<F: Fn(&JsonSessionEnvelope) -> Result<Vec<u8>, String>>(
    format: SessionFormat,
    session: &PersistedSession,
    to_json: F,
) -> (result: Result<Vec<u8>, SessionInterchangeError>)
    requires
        forall|envelope: &JsonSessionEnvelope| #[trigger] to_json.requires((envelope,)),
    ensures
        encoded(*session, to_json, result),
{
    match format {
        SessionFormat::Json => {
            let envelope = JsonSessionEnvelope {
                format: DAIMONOS_SESSION_FORMAT.to_owned(),
                session: session.clone(),
            };
            let answer = to_json(&envelope);
            let ghost given = answer;
            assert(envelops(envelope, *session) && to_json.ensures((&envelope,), given));
            match answer {
                Ok(document) => {
                    let mut bytes = document;
                    bytes.push(10u8);
                    Ok(bytes)
                },
                Err(error) => Err(SessionInterchangeError::Json(error)),
            }
        },
    }
}

/// Whether a result is what the reading function's answer to the bytes comes to.
pub open spec fn decoded<G: Fn(&[u8]) -> Result<JsonSessionEnvelope, String>>(
    bytes: &[u8],
    from_json: G,
    result: Result<PersistedSession, SessionInterchangeError>,
) -> bool {
    exists|answer: Result<JsonSessionEnvelope, String>|
        #![trigger from_json.ensures((bytes,), answer)]
        from_json.ensures((bytes,), answer) && match answer {
            Ok(envelope) => match envelope_problem(envelope) {
                None => result == Ok::<PersistedSession, SessionInterchangeError>(envelope.session),
                Some(problem) => result matches Err(
                    SessionInterchangeError::InvalidEnvelope(message),
                ) && message@ == problem,
            },
            Err(error) => result == Err::<PersistedSession, _>(
                SessionInterchangeError::Json(error),
            ),
        }
}

/// The session in an archive, with `from_json` parsing the envelope.
pub fn decode<G: Fn(&[u8]) -> Result<JsonSessionEnvelope, String>>(
    format: SessionFormat,
    bytes: &[u8],
    from_json: G,
) -> (result: Result<PersistedSession, SessionInterchangeError>)
    requires
        forall|given: &[u8]| #[trigger] from_json.requires((given,)),
    ensures
        decoded(bytes, from_json, result),
{
    match format {
        SessionFormat::Json => {
            let answer = from_json(bytes);
            assert(from_json.ensures((bytes,), answer));
            match answer {
                Ok(envelope) => open_envelope(envelope),
                Err(error) => Err(SessionInterchangeError::Json(error)),
            }
        },
    }
}

/// Why an archive could not be taken in or given out.
#[derive(Debug, PartialEq, Eq)]
pub enum SessionTransferError {
    TooLarge,
    Archive(SessionInterchangeError),
    Import(SessionStoreError),
    Export(SessionStoreError),
}

impl SessionTransferError {
    pub open spec fn text(self) -> Seq<char> {
        match self {
            SessionTransferError::TooLarge => "session archive exceeds configured byte limit"@,
            SessionTransferError::Archive(error) => error.text(),
            SessionTransferError::Import(error) => "session import failed: "@ + error.text(),
            SessionTransferError::Export(error) => "session export failed: "@ + error.text(),
        }
    }

    /// The diagnostic text.
    pub fn message(&self) -> (text: String)
        ensures
            text@ == self.text(),
    {
        match self {
            SessionTransferError::TooLarge =>
                "session archive exceeds configured byte limit".to_owned(),
            SessionTransferError::Archive(error) => error.message(),
            SessionTransferError::Import(error) => {
                let mut out = "session import failed: ".to_owned();
                let detail = error.message();
                out.append(detail.as_str());
                out
            },
            SessionTransferError::Export(error) => {
                let mut out = "session export failed: ".to_owned();
                let detail = error.message();
                out.append(detail.as_str());
                out
            },
        }
    }
}

/// How many bytes of an archive are read: one more than may stand in it, so
/// that a longer archive is seen to be too long.
pub fn archive_read_limit(max_bytes: usize) -> (limit: u64)
    ensures
        limit == if max_bytes as u64 == u64::MAX {
            u64::MAX as int
        } else {
            max_bytes + 1
        },
{
    let max: u64 = max_bytes as u64;
    if max == u64::MAX {
        max
    } else {
        max + 1
    }
}

impl SessionStore {
    /// Takes a session in from the bytes of an archive and returns its id. A
    /// session that the store knows is left alone.
    pub fn import_archive<G: Fn(&[u8]) -> Result<JsonSessionEnvelope, String>>(
        &mut self,
        format: SessionFormat,
        bytes: &[u8],
        from_json: G,
        max_bytes: usize,
        max_preview_bytes: usize,
        now_unix_ns: u64,
    ) -> (result: Result<String, SessionTransferError>)
        requires
            old(self).well_formed(),
            forall|given: &[u8]| #[trigger] from_json.requires((given,)),
        ensures
            final(self).well_formed(),
            result is Err ==> final(self).unchanged(*old(self)),
            result == Err::<String, _>(SessionTransferError::TooLarge) <==> bytes@.len()
                > max_bytes,
            bytes@.len() <= max_bytes ==> exists|archive|
                #[trigger] decoded(bytes, from_json, archive) && match archive {
                    Err(error) => result == Err::<String, _>(SessionTransferError::Archive(error)),
                    Ok(session) => match import_error(*old(self), session) {
                        Some(error) => result == Err::<String, _>(
                            SessionTransferError::Import(error),
                        ),
                        None => {
                            &&& result matches Ok(id) && id == session.session_id
                            &&& final(self).rows_by_id().contains_key(session.session_id@)
                            &&& row_holds(
                                final(self).rows_by_id()[session.session_id@],
                                session,
                                1,
                                max_preview_bytes as nat,
                                now_unix_ns,
                            )
                            &&& final(self).rows_by_id() == old(self).rows_by_id().insert(
                                session.session_id@,
                                final(self).rows_by_id()[session.session_id@],
                            )
                            &&& final(self).writer_rows() == old(self).writer_rows()
                            &&& final(self).same_settings(*old(self))
                        },
                    },
                },
    {
        if bytes.len() > max_bytes {
            return Err(SessionTransferError::TooLarge);
        }
        let archive = decode(format, bytes, from_json);
        assert(decoded(bytes, from_json, archive));
        match archive {
            Err(error) => Err(SessionTransferError::Archive(error)),
            Ok(session) => {
                let id = session.session_id.clone();
                match self.import_if_absent(session, max_preview_bytes, now_unix_ns) {
                    Err(error) => Err(SessionTransferError::Import(error)),
                    Ok(()) => Ok(id),
                }
            },
        }
    }

    /// The archive of a stored session.
    pub fn export_archive<F: Fn(&JsonSessionEnvelope) -> Result<Vec<u8>, String>>(
        &self,
        session_id: &str,
        format: SessionFormat,
        to_json: F,
    ) -> (result: Result<Vec<u8>, SessionTransferError>)
        requires
            self.well_formed(),
            forall|envelope: &JsonSessionEnvelope| #[trigger] to_json.requires((envelope,)),
        ensures
            if loadable(self.rows_by_id(), session_id@) {
                exists|archive, session|
                    #![trigger encoded(session, to_json, archive)]
                    same_record(loaded_record(self.rows_by_id(), session_id@), session) && encoded(
                        session,
                        to_json,
                        archive,
                    ) && match archive {
                        Ok(bytes) => result == Ok::<Vec<u8>, SessionTransferError>(bytes),
                        Err(error) => result == Err::<Vec<u8>, _>(
                            SessionTransferError::Archive(error),
                        ),
                    }
            } else {
                result matches Err(SessionTransferError::Export(error)) && load_error(
                    self.rows_by_id(),
                    session_id@,
                    error,
                )
            },
    {
        match self.load_result(session_id) {
            Err(error) => Err(SessionTransferError::Export(error)),
            Ok(session) => {
                let archive = encode(format, &session, to_json);
                assert(encoded(session, to_json, archive));
                match archive {
                    Ok(bytes) => Ok(bytes),
                    Err(error) => Err(SessionTransferError::Archive(error)),
                }
            },
        }
    }
}

/// Whether a reader reads what a writer wrote: from a document closed by a line
/// feed it gets an envelope that says what the written one said.
pub open spec fn reads_back<
    F: Fn(&JsonSessionEnvelope) -> Result<Vec<u8>, String>,
    G: Fn(&[u8]) -> Result<JsonSessionEnvelope, String>,
>(to_json: F, from_json: G) -> bool {
    forall|
        envelope: JsonSessionEnvelope,
        document: Vec<u8>,
        bytes: &[u8],
        answer: Result<JsonSessionEnvelope, String>,
    |
        #![trigger
            to_json.ensures((&envelope,), Ok(document)),
            from_json.ensures((bytes,), answer),
        ]
        to_json.ensures((&envelope,), Ok(document)) && from_json.ensures((bytes,), answer) && bytes@
            == document@.push(10u8) ==> (answer matches Ok(read) && read.format@ == envelope.format@
            && same_record(envelope.session, read.session))
}

/// What an archive gives back on reading is the session that went in, where the
/// reader reads what the writer wrote; only a session without an id does not
/// come back.
pub proof fn law_archive_round_trips<
    F: Fn(&JsonSessionEnvelope) -> Result<Vec<u8>, String>,
    G: Fn(&[u8]) -> Result<JsonSessionEnvelope, String>,
>(
    session: PersistedSession,
    to_json: F,
    from_json: G,
    archive: Vec<u8>,
    bytes: &[u8],
    result: Result<PersistedSession, SessionInterchangeError>,
)
    requires
        reads_back(to_json, from_json),
        encoded(session, to_json, Ok(archive)),
        bytes@ == archive@,
        decoded(bytes, from_json, result),
    ensures
        result is Ok <==> session.session_id@.len() > 0,
        result matches Ok(back) ==> same_record(session, back),
{
    let (envelope, written) = choose|
        envelope: JsonSessionEnvelope,
        answer: Result<Vec<u8>, String>,
    |
        #![trigger to_json.ensures((&envelope,), answer)]
        envelops(envelope, session) && to_json.ensures((&envelope,), answer) && match answer {
            Ok(document) => archive@ == document@.push(10u8),
            Err(error) => false,
        };
    let document = written->Ok_0;
    assert(to_json.ensures((&envelope,), Ok(document)));
    let answer = choose|answer: Result<JsonSessionEnvelope, String>|
        #![trigger from_json.ensures((bytes,), answer)]
        from_json.ensures((bytes,), answer) && match answer {
            Ok(envelope) => match envelope_problem(envelope) {
                None => result == Ok::<PersistedSession, SessionInterchangeError>(envelope.session),
                Some(problem) => result matches Err(
                    SessionInterchangeError::InvalidEnvelope(message),
                ) && message@ == problem,
            },
            Err(error) => result == Err::<PersistedSession, _>(
                SessionInterchangeError::Json(error),
            ),
        };
    assert(from_json.ensures((bytes,), answer));
    let read = answer->Ok_0;
    assert(same_record(envelope.session, read.session));
    lemma_same_record_follows(session, envelope.session, read.session);
}

proof fn lemma_same_record_follows(a: PersistedSession, b: PersistedSession, c: PersistedSession)
    requires
        same_record(a, b),
        same_record(b, c),
    ensures
        same_record(a, c),
{
    assert forall|i: int| 0 <= i < a.messages@.len() implies same_message(
        #[trigger] a.messages@[i],
        c.messages@[i],
    ) by {
        assert(same_message(a.messages@[i], b.messages@[i]));
        assert(same_message(b.messages@[i], c.messages@[i]));
    }
}

/// A stored session that was archived can be taken in wherever it is not known:
/// the record that its archive gives back is the stored one, and only a store
/// that knows the id refuses it.
pub proof fn law_exported_session_imports<
    F: Fn(&JsonSessionEnvelope) -> Result<Vec<u8>, String>,
    G: Fn(&[u8]) -> Result<JsonSessionEnvelope, String>,
>(
    from: SessionStore,
    into: SessionStore,
    session_id: Seq<char>,
    session: PersistedSession,
    to_json: F,
    from_json: G,
    archive: Vec<u8>,
    bytes: &[u8],
    result: Result<PersistedSession, SessionInterchangeError>,
)
    requires
        loadable(from.rows_by_id(), session_id),
        same_record(loaded_record(from.rows_by_id(), session_id), session),
        reads_back(to_json, from_json),
        encoded(session, to_json, Ok(archive)),
        bytes@ == archive@,
        decoded(bytes, from_json, result),
    ensures
        result matches Ok(back) && same_record(loaded_record(from.rows_by_id(), session_id), back)
            && (import_error(into, back) is None <==> !into.rows_by_id().contains_key(session_id)
            && !into.writers_by_id().contains_key(session_id)),
{
    law_archive_round_trips(session, to_json, from_json, archive, bytes, result);
    lemma_same_record_follows(
        loaded_record(from.rows_by_id(), session_id),
        session,
        result->Ok_0,
    );
}

/// A format is known by its name in any letter case, and by no other.
pub proof fn law_formats_go_by_their_names(value: Seq<char>, other: Seq<char>)
    requires
        lowercase(value) == lowercase(other),
    ensures
        format_named(value) == format_named(other),
        format_named(value) is Some <==> lowercase(value) == "json"@,
{
}

/// An archive is taken that carries the format's tag and a session with an id.
/// Any other is refused, and says which of the two it lacks.
pub proof fn law_archives_carry_a_tag_and_an_id(envelope: JsonSessionEnvelope)
    ensures
        envelope_problem(envelope) is None <==> envelope.format@ == DAIMONOS_SESSION_FORMAT@
            && envelope.session.session_id@.len() > 0,
        envelope.format@ != DAIMONOS_SESSION_FORMAT@ ==> envelope_problem(envelope) == Some(
            "expected format "@ + DAIMONOS_SESSION_FORMAT@,
        ),
        envelope.format@ == DAIMONOS_SESSION_FORMAT@ && envelope.session.session_id@.len() == 0
            ==> envelope_problem(envelope) == Some("session_id is required"@),
{
}

} // verus!
