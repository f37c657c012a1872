//! Session listings: what a row shows to whom, in which order rows come, and
//! how a listing is handed out page by page.
use vstd::prelude::*;
use vstd::string::*;
use crate::session_daemon::capability::ConnectionTrust;
use crate::session_protocol::{SessionListEntry, TranscriptEntry, TranscriptRole, TurnStatus};
use crate::session_store::{first_line_preview, line_end, preview_of, same_optional, SessionSummary};
use crate::text::{
    lemma_text_less_irreflexive, lemma_text_less_total, lemma_text_less_transitive, str_eq,
    str_less, text_less,
};

verus! {

broadcast use vstd::string::group_string_axioms;

/// A row of the session catalog.
#[derive(Debug, PartialEq, Eq)]
pub struct CatalogRow {
    pub session_id: String,
    pub model: Option<String>,
    pub updated_at_unix_ns: u64,
    pub preview: Option<String>,
    pub message_count: Option<usize>,
}

#[derive(Debug, PartialEq, Eq)]
pub enum SessionListPageError {
    InvalidCursor,
    CapacityExceeded,
    TooLarge(String),
}

pub open spec fn summary_row(summary: SessionSummary) -> SessionListEntry {
    SessionListEntry {
        session_id: summary.id,
        active: false,
        attached_clients: 0,
        model: Some(summary.model),
        updated_at_unix_ms: match summary.updated_at {
            Some(nanos) => Some((nanos / 1_000_000) as u64),
            None => None,
        },
        preview: summary.first_user_line,
        message_count: Some(summary.message_count),
        turn_status: None,
    }
}

/// A stored session as a row.
pub fn summary_to_list_entry(summary: SessionSummary) -> (row: SessionListEntry)
    ensures
        row == summary_row(summary),
{
    SessionListEntry {
        session_id: summary.id,
        active: false,
        attached_clients: 0,
        model: Some(summary.model),
        updated_at_unix_ms: match summary.updated_at {
            Some(nanos) => Some(nanos / 1_000_000),
            None => None,
        },
        preview: summary.first_user_line,
        message_count: Some(summary.message_count),
        turn_status: None,
    }
}

pub open spec fn catalog_list_row(row: CatalogRow) -> SessionListEntry {
    SessionListEntry {
        session_id: row.session_id,
        active: false,
        attached_clients: 0,
        model: row.model,
        updated_at_unix_ms: Some((row.updated_at_unix_ns / 1_000_000) as u64),
        preview: row.preview,
        message_count: row.message_count,
        turn_status: None,
    }
}

/// A catalogued session as a row.
pub fn catalog_row_to_list_entry(row: CatalogRow) -> (entry: SessionListEntry)
    ensures
        entry == catalog_list_row(row),
{
    SessionListEntry {
        session_id: row.session_id,
        active: false,
        attached_clients: 0,
        model: row.model,
        updated_at_unix_ms: Some(row.updated_at_unix_ns / 1_000_000),
        preview: row.preview,
        message_count: row.message_count,
        turn_status: None,
    }
}

/// The preview that a transcript gives: that of its first user entry.
pub open spec fn transcript_preview(entries: Seq<TranscriptEntry>, max_bytes: nat) -> Option<
    Seq<char>,
>
    decreases entries.len(),
{
    if entries.len() == 0 {
        None
    } else if entries[0].role == TranscriptRole::User {
        preview_of(entries[0].text@.take(line_end(entries[0].text@) as int), max_bytes)
    } else {
        transcript_preview(entries.drop_first(), max_bytes)
    }
}

pub fn snapshot_preview(entries: &[TranscriptEntry], max_bytes: usize) -> (preview: Option<String>)
    ensures
        same_optional(preview, transcript_preview(entries@, max_bytes as nat)),
{
    let mut i: usize = 0;
    assert(entries@.skip(0) =~= entries@);
    while i < entries.len()
        invariant
            i <= entries@.len(),
            transcript_preview(entries@, max_bytes as nat) == transcript_preview(
                entries@.skip(i as int),
                max_bytes as nat,
            ),
        decreases entries@.len() - i,
    {
        assert(entries@.skip(i as int)[0] == entries@[i as int]);
        assert(entries@.skip(i as int).drop_first() =~= entries@.skip(i + 1));
        if entries[i].role == TranscriptRole::User {
            return first_line_preview(entries[i].text.as_str(), max_bytes);
        }
        i = i + 1;
    }
    None
}

/// What is known of a live session when it is listed. `history` is its length
/// and preview, where the conversation could be read without waiting.
#[derive(Debug, PartialEq, Eq)]
pub struct ActiveSession {
    pub session_id: String,
    pub attached_clients: usize,
    pub model: String,
    pub last_activity_unix_ms: u64,
    pub turn_status: TurnStatus,
    pub history: Option<(usize, Option<String>)>,
    pub snapshot_preview: Option<String>,
}

pub open spec fn active_row(session: ActiveSession) -> SessionListEntry {
    SessionListEntry {
        session_id: session.session_id,
        active: true,
        attached_clients: session.attached_clients,
        model: Some(session.model),
        updated_at_unix_ms: Some(session.last_activity_unix_ms),
        preview: match session.history {
            Some((_, preview)) => preview,
            None => session.snapshot_preview,
        },
        message_count: match session.history {
            Some((count, _)) => Some(count),
            None => None,
        },
        turn_status: Some(session.turn_status),
    }
}

/// A live session as a row.
pub fn active_list_entry(session: ActiveSession) -> (row: SessionListEntry)
    ensures
        row == active_row(session),
{
    let (message_count, preview) = match session.history {
        Some((count, preview)) => (Some(count), preview),
        None => (None, session.snapshot_preview),
    };
    SessionListEntry {
        session_id: session.session_id,
        active: true,
        attached_clients: session.attached_clients,
        model: Some(session.model),
        updated_at_unix_ms: Some(session.last_activity_unix_ms),
        preview,
        message_count,
        turn_status: Some(session.turn_status),
    }
}

/// What a connection sees of a row. A paired device learns that a session is
/// there, not what is in it.
pub open spec fn rendered(row: SessionListEntry, trust: ConnectionTrust) -> SessionListEntry {
    match trust {
        ConnectionTrust::LocalOwner => row,
        ConnectionTrust::RemotePaired => SessionListEntry {
            model: None,
            updated_at_unix_ms: None,
            preview: None,
            message_count: None,
            turn_status: None,
            ..row
        },
    }
}

pub open spec fn rendered_rows(rows: Seq<SessionListEntry>, trust: ConnectionTrust) -> Seq<
    SessionListEntry,
> {
    rows.map_values(|row: SessionListEntry| rendered(row, trust))
}

/// Renders the rows of a listing from one place up to another.
pub fn render_listing_rows(
    rows: &Vec<SessionListEntry>,
    from: usize,
    to: usize,
    trust: ConnectionTrust,
) -> (shown: Vec<SessionListEntry>)
    requires
        from <= to <= rows@.len(),
    ensures
        shown@ == rendered_rows(rows@.subrange(from as int, to as int), trust),
{
    let mut shown: Vec<SessionListEntry> = Vec::new();
    let mut i: usize = from;
    while i < to
        invariant
            from <= i <= to <= rows@.len(),
            shown@ =~= rendered_rows(rows@.subrange(from as int, i as int), trust),
        decreases to - i,
    {
        let mut row = rows[i].clone();
        if trust == ConnectionTrust::RemotePaired {
            row.model = None;
            row.updated_at_unix_ms = None;
            row.preview = None;
            row.message_count = None;
            row.turn_status = None;
        }
        shown.push(row);
        i = i + 1;
    }
    shown
}

pub open spec fn activity(row: SessionListEntry) -> u64 {
    match row.updated_at_unix_ms {
        Some(millis) => millis,
        None => 0,
    }
}

/// Newer rows come first; rows of one time come by id.
pub open spec fn row_before(a: SessionListEntry, b: SessionListEntry) -> bool {
    activity(a) > activity(b) || (activity(a) == activity(b) && text_less(
        a.session_id@,
        b.session_id@,
    ))
}

pub open spec fn rows_in_order(rows: Seq<SessionListEntry>) -> bool {
    forall|i: int, j: int| 0 <= i < j < rows.len() ==> row_before(#[trigger] rows[i], #[trigger] rows[j])
}

/// Whether a row is the last under its id.
pub open spec fn last_of_its_id(rows: Seq<SessionListEntry>, at: int) -> bool {
    0 <= at < rows.len() && forall|later: int|
        at < later < rows.len() ==> (#[trigger] rows[later]).session_id@ != rows[at].session_id@
}

/// Whether a row stands, from some place on, as the last under its id.
pub open spec fn stands_last(given: Seq<SessionListEntry>, from: int, row: SessionListEntry) -> bool {
    exists|at: int| from <= at && #[trigger] last_of_its_id(given, at) && given[at] == row
}

/// Whether a listing shows, of all rows given, the last under each id, in order.
pub open spec fn listing_shows(
    given: Seq<SessionListEntry>,
    from: int,
    listed: Seq<SessionListEntry>,
) -> bool {
    &&& rows_in_order(listed)
    &&& forall|at: int| from <= at && #[trigger] last_of_its_id(given, at) ==> listed.contains(given[at])
    &&& forall|k: int| 0 <= k < listed.len() ==> stands_last(given, from, #[trigger] listed[k])
}

fn comes_before(a: &SessionListEntry, b: &SessionListEntry) -> (before: bool)
    ensures
        before == row_before(*a, *b),
{
    let a_time: u64 = match a.updated_at_unix_ms {
        Some(millis) => millis,
        None => 0,
    };
    let b_time: u64 = match b.updated_at_unix_ms {
        Some(millis) => millis,
        None => 0,
    };
    a_time > b_time || (a_time == b_time && str_less(a.session_id.as_str(), b.session_id.as_str()))
}

proof fn lemma_row_order(a: SessionListEntry, b: SessionListEntry, c: SessionListEntry)
    ensures
        row_before(a, b) && row_before(b, c) ==> row_before(a, c),
        a.session_id@ != b.session_id@ ==> row_before(a, b) || row_before(b, a),
        row_before(a, b) ==> !row_before(b, a),
{
    if text_less(a.session_id@, b.session_id@) && text_less(b.session_id@, c.session_id@) {
        lemma_text_less_transitive(a.session_id@, b.session_id@, c.session_id@);
    }
    if a.session_id@ != b.session_id@ {
        lemma_text_less_total(a.session_id@, b.session_id@);
    }
    if text_less(a.session_id@, b.session_id@) && text_less(b.session_id@, a.session_id@) {
        lemma_text_less_transitive(a.session_id@, b.session_id@, a.session_id@);
        lemma_text_less_irreflexive(a.session_id@);
    }
}

/// Puts a row where it belongs in an ordered listing that has no row of its id.
fn insert_row(rows: &mut Vec<SessionListEntry>, row: SessionListEntry)
    requires
        rows_in_order(old(rows)@),
        forall|k: int| 0 <= k < old(rows)@.len() ==> (#[trigger] old(rows)@[k]).session_id@
            != row.session_id@,
    ensures
        rows_in_order(final(rows)@),
        exists|at: int|
            0 <= at <= old(rows)@.len() && final(rows)@ == #[trigger] old(rows)@.insert(at, row),
{
    let mut at: usize = 0;
    while at < rows.len() && comes_before(&rows[at], &row)
        invariant
            at <= rows@.len(),
            rows@ == old(rows)@,
            forall|k: int| 0 <= k < at ==> row_before(#[trigger] rows@[k], row),
        decreases rows@.len() - at,
    {
        at = at + 1;
    }
    proof {
        assert forall|k: int| at <= k < rows@.len() implies row_before(
            row,
            #[trigger] rows@[k],
        ) by {
            lemma_row_order(row, rows@[at as int], rows@[k]);
            if k > at {
                assert(row_before(rows@[at as int], rows@[k]));
            }
        }
    }
    rows.insert(at, row);
    proof {
        let grown = old(rows)@.insert(at as int, row);
        assert forall|i: int, j: int| 0 <= i < j < grown.len() implies row_before(
            #[trigger] grown[i],
            #[trigger] grown[j],
        ) by {
            let a = if i < at {
                i
            } else {
                i - 1
            };
            let b = if j < at {
                j
            } else {
                j - 1
            };
            if i != at {
                assert(grown[i] == old(rows)@[a]);
            }
            if j != at {
                assert(grown[j] == old(rows)@[b]);
            }
        }
    }
}

/// The listing of stored and live sessions. A live session takes the place of
/// its stored row. More rows than may be kept for paging are refused.
pub fn listing_rows(
    durable: Vec<SessionListEntry>,
    active: Vec<SessionListEntry>,
    max_rows: usize,
) -> (result: Result<Vec<SessionListEntry>, SessionListPageError>)
    ensures
        exists|listed: Seq<SessionListEntry>| #[trigger]
            listing_shows(durable@ + active@, 0, listed) && match result {
                Ok(rows) => rows@ == listed && listed.len() <= max_rows,
                Err(error) => error == SessionListPageError::CapacityExceeded && listed.len()
                    > max_rows,
            },
{
    let ghost whole = durable@ + active@;
    let mut given = durable;
    let mut active = active;
    given.append(&mut active);
    assert(given@ =~= whole);
    let mut rows: Vec<SessionListEntry> = Vec::new();
    let mut i: usize = given.len();
    while i > 0
        invariant
            i <= given@.len(),
            listing_shows(given@, i as int, rows@),
        decreases i,
    {
        i = i - 1;
        if id_listed_behind(&given, i) {
            proof {
                lemma_row_superseded(given@, i as int, rows@);
            }
        } else {
            let ghost before = rows@;
            assert(last_of_its_id(given@, i as int));
            proof {
                lemma_id_not_listed(given@, i as int, rows@);
            }
            insert_row(&mut rows, given[i].clone());
            proof {
                let at = choose|at: int|
                    0 <= at <= before.len() && rows@ == #[trigger] before.insert(
                        at,
                        given@[i as int],
                    );
                lemma_row_listed(given@, i as int, before, rows@, at);
            }
        }
    }
    assert(listing_shows(whole, 0, rows@));
    if rows.len() > max_rows {
        Err(SessionListPageError::CapacityExceeded)
    } else {
        Ok(rows)
    }
}

proof fn lemma_row_superseded(
    given: Seq<SessionListEntry>,
    from: int,
    listed: Seq<SessionListEntry>,
)
    requires
        listing_shows(given, from + 1, listed),
        !last_of_its_id(given, from),
    ensures
        listing_shows(given, from, listed),
{
    assert forall|k: int| 0 <= k < listed.len() implies stands_last(
        given,
        from,
        #[trigger] listed[k],
    ) by {
        assert(stands_last(given, from + 1, listed[k]));
    }
}

proof fn lemma_id_not_listed(
    given: Seq<SessionListEntry>,
    from: int,
    listed: Seq<SessionListEntry>,
)
    requires
        listing_shows(given, from + 1, listed),
        last_of_its_id(given, from),
    ensures
        forall|k: int| 0 <= k < listed.len() ==> (#[trigger] listed[k]).session_id@
            != given[from].session_id@,
{
    assert forall|k: int| 0 <= k < listed.len() implies (#[trigger] listed[k]).session_id@
        != given[from].session_id@ by {
        assert(stands_last(given, from + 1, listed[k]));
    }
}

proof fn lemma_row_listed(
    given: Seq<SessionListEntry>,
    from: int,
    before: Seq<SessionListEntry>,
    after: Seq<SessionListEntry>,
    at: int,
)
    requires
        listing_shows(given, from + 1, before),
        last_of_its_id(given, from),
        0 <= at <= before.len(),
        after == before.insert(at, given[from]),
        rows_in_order(after),
    ensures
        listing_shows(given, from, after),
{
    assert(after[at] == given[from]);
    assert forall|k: int| from <= k && #[trigger] last_of_its_id(given, k) implies after.contains(
        given[k],
    ) by {
        if k > from {
            assert(before.contains(given[k]));
            let place = before.index_of(given[k]);
            if place < at {
                assert(after[place] == given[k]);
            } else {
                assert(after[place + 1] == given[k]);
            }
        }
    }
    assert forall|k: int| 0 <= k < after.len() implies stands_last(
        given,
        from,
        #[trigger] after[k],
    ) by {
        if k != at {
            let old_k = if k < at {
                k
            } else {
                k - 1
            };
            assert(before[old_k] == after[k]);
            assert(stands_last(given, from + 1, before[old_k]));
        }
    }
}

fn id_listed_behind(rows: &Vec<SessionListEntry>, at: usize) -> (found: bool)
    requires
        at < rows@.len(),
    ensures
        found == exists|later: int|
            at < later < rows@.len() && (#[trigger] rows@[later]).session_id@
                == rows@[at as int].session_id@,
{
    let count: usize = rows.len();
    let mut i: usize = at + 1;
    while i < count
        invariant
            at < i <= rows@.len(),
            count == rows@.len(),
            forall|k: int| at < k < i ==> (#[trigger] rows@[k]).session_id@
                != rows@[at as int].session_id@,
        decreases rows@.len() - i,
    {
        if str_eq(rows[i].session_id.as_str(), rows[at].session_id.as_str()) {
            assert(rows@[i as int].session_id@ == rows@[at as int].session_id@);
            return true;
        }
        i = i + 1;
    }
    false
}

} // verus!
