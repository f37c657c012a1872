//! Keeping the session catalog in step with the session store: which rows a
//! listing takes from it, and what each reconciliation pass writes.
use vstd::prelude::*;
use vstd::string::*;
use crate::session_daemon::listing::{
    catalog_list_row, catalog_row_to_list_entry, summary_row, summary_to_list_entry, CatalogRow,
};
use crate::session_protocol::SessionListEntry;
use crate::session_store::{SessionSummary, SessionSummaryScan};
use crate::text::{chars_of, has_prefix, starts_with, string_of};

verus! {

broadcast use vstd::string::group_string_axioms;

/// One observation for the catalog.
#[derive(Debug, PartialEq, Eq)]
pub struct CatalogMutation {
    pub session_id: String,
    pub workspace_id: String,
    pub model: Option<String>,
    pub updated_at_unix_ns: u64,
    pub preview: Option<String>,
    pub message_count: Option<usize>,
    pub writer_instance_id: String,
    pub generation: u64,
    pub deleted: bool,
    pub observed_at_unix_ms: u64,
    pub authoritative_observation: bool,
}

pub open spec fn capped_sum(a: nat, b: nat) -> u64 {
    if a + b > u64::MAX {
        u64::MAX
    } else {
        (a + b) as u64
    }
}

pub open spec fn capped_nanos(millis: u64) -> u64 {
    if millis * 1_000_000 > u64::MAX {
        u64::MAX
    } else {
        (millis * 1_000_000) as u64
    }
}

fn nanos_of(millis: u64) -> (nanos: u64)
    ensures
        nanos == capped_nanos(millis),
{
    if millis > u64::MAX / 1_000_000 {
        u64::MAX
    } else {
        millis * 1_000_000
    }
}

fn sum_of(a: u64, b: usize) -> (sum: u64)
    ensures
        sum == capped_sum(a as nat, b as nat),
{
    let b: u64 = b as u64;
    if a > u64::MAX - b {
        u64::MAX
    } else {
        a + b
    }
}

/// Where a listing takes its stored rows from.
#[derive(Debug, Clone, Copy, PartialEq, Eq, Structural)]
pub enum ListingSource {
    /// The catalog's rows, as they are.
    Catalog,
    /// The store, after the catalog was marked for a full pass and reconciled.
    RescanThenStore,
    /// The store, after the catalog was reconciled.
    ReconcileThenStore,
    /// The store alone.
    Store,
}

pub open spec fn elapsed_ms(since_ms: u64, now_ms: u64) -> int {
    if now_ms > since_ms {
        now_ms - since_ms
    } else {
        0
    }
}

/// Decides where a listing's stored rows come from. `healthy` says whether a
/// catalog is there and its writer works; `complete` what the catalog said of
/// itself, if it could be asked. A full pass that has come due is claimed: its
/// time moves to now.
pub fn listing_source(
    healthy: bool,
    complete: Option<bool>,
    now_ms: u64,
    full_rescan_interval_ms: u64,
    last_full_rescan_ms: &mut u64,
) -> (source: ListingSource)
    ensures
        source == if !healthy {
            ListingSource::Store
        } else if complete != Some(true) {
            ListingSource::ReconcileThenStore
        } else if elapsed_ms(*old(last_full_rescan_ms), now_ms) < full_rescan_interval_ms {
            ListingSource::Catalog
        } else {
            ListingSource::RescanThenStore
        },
        *final(last_full_rescan_ms) == if source == ListingSource::RescanThenStore {
            now_ms
        } else {
            *old(last_full_rescan_ms)
        },
{
    if !healthy {
        return ListingSource::Store;
    }
    match complete {
        Some(true) => {
            let elapsed: u64 = if now_ms > *last_full_rescan_ms {
                now_ms - *last_full_rescan_ms
            } else {
                0
            };
            if elapsed < full_rescan_interval_ms {
                ListingSource::Catalog
            } else {
                *last_full_rescan_ms = now_ms;
                ListingSource::RescanThenStore
            }
        },
        _ => ListingSource::ReconcileThenStore,
    }
}

/// The catalog's rows for a listing.
pub fn catalog_entries(rows: Vec<CatalogRow>) -> (entries: Vec<SessionListEntry>)
    ensures
        entries@ == rows@.map_values(|row: CatalogRow| catalog_list_row(row)),
{
    let ghost given = rows@;
    let mut rows = rows;
    let mut reversed: Vec<SessionListEntry> = Vec::new();
    while rows.len() > 0
        invariant
            rows@.len() + reversed@.len() == given.len(),
            rows@ =~= given.take(rows@.len() as int),
            forall|i: int|
                0 <= i < reversed@.len() ==> #[trigger] reversed@[i] == catalog_list_row(
                    given[given.len() - 1 - i],
                ),
        decreases rows@.len(),
    {
        match rows.pop() {
            Some(row) => {
                reversed.push(catalog_row_to_list_entry(row));
            },
            None => {},
        }
    }
    let entries = turned_round(reversed);
    assert(entries@ =~= given.map_values(|row: CatalogRow| catalog_list_row(row)));
    entries
}

/// A scan's rows for a listing.
pub fn scan_entries(scan: SessionSummaryScan) -> (listed: (Vec<SessionListEntry>, bool))
    ensures
        listed.0@ == scan.summaries@.map_values(|summary: SessionSummary| summary_row(summary)),
        listed.1 == !scan.complete,
{
    let ghost given = scan.summaries@;
    let incomplete = !scan.complete;
    let mut summaries = scan.summaries;
    let mut reversed: Vec<SessionListEntry> = Vec::new();
    while summaries.len() > 0
        invariant
            summaries@.len() + reversed@.len() == given.len(),
            summaries@ =~= given.take(summaries@.len() as int),
            forall|i: int|
                0 <= i < reversed@.len() ==> #[trigger] reversed@[i] == summary_row(
                    given[given.len() - 1 - i],
                ),
        decreases summaries@.len(),
    {
        match summaries.pop() {
            Some(summary) => {
                reversed.push(summary_to_list_entry(summary));
            },
            None => {},
        }
    }
    let entries = turned_round(reversed);
    assert(entries@ =~= given.map_values(|summary: SessionSummary| summary_row(summary)));
    (entries, incomplete)
}

fn turned_round<T>(items: Vec<T>) -> (turned: Vec<T>)
    ensures
        turned@.len() == items@.len(),
        forall|i: int|
            0 <= i < turned@.len() ==> #[trigger] turned@[i] == items@[items@.len() - 1 - i],
{
    let ghost given = items@;
    let mut items = items;
    let mut turned: Vec<T> = Vec::new();
    while items.len() > 0
        invariant
            items@.len() + turned@.len() == given.len(),
            items@ =~= given.take(items@.len() as int),
            forall|i: int|
                0 <= i < turned@.len() ==> #[trigger] turned@[i] == given[given.len() - 1 - i],
        decreases items@.len(),
    {
        match items.pop() {
            Some(item) => {
                turned.push(item);
            },
            None => {},
        }
    }
    turned
}

/// Where reconciliation stands: going through the store, or looking for
/// catalogued sessions that the store no longer has.
#[derive(Debug, PartialEq, Eq)]
pub enum ReconcileCursor {
    Directory { after: Option<String> },
    Ghosts { after: Option<String> },
}

/// The text behind a prefix, if there is any.
pub open spec fn rest_behind(text: Seq<char>, prefix: Seq<char>) -> Option<Seq<char>> {
    if starts_with(text, prefix) && text.len() > prefix.len() {
        Some(text.skip(prefix.len() as int))
    } else {
        None
    }
}

pub open spec fn cursor_text_of(after: Option<String>) -> Option<Seq<char>> {
    match after {
        Some(after) => Some(after@),
        None => None,
    }
}

impl ReconcileCursor {
    /// Reads the state that the catalog keeps for a workspace.
    pub fn parse(state: &str) -> (cursor: Self)
        ensures
            if starts_with(state@, "ghost:"@) {
                cursor matches ReconcileCursor::Ghosts { after } && cursor_text_of(after)
                    == rest_behind(state@, "ghost:"@)
            } else {
                cursor matches ReconcileCursor::Directory { after } && cursor_text_of(after)
                    == rest_behind(state@, "dir:"@)
            },
    {
        let chars = chars_of(state);
        if has_prefix(chars.as_slice(), "ghost:") {
            ReconcileCursor::Ghosts { after: rest_of(&chars, "ghost:") }
        } else {
            ReconcileCursor::Directory { after: rest_of(&chars, "dir:") }
        }
    }
}

fn rest_of(chars: &Vec<char>, prefix: &str) -> (rest: Option<String>)
    ensures
        cursor_text_of(rest) == rest_behind(chars@, prefix@),
{
    let skipped = chars_of(prefix);
    if has_prefix(chars.as_slice(), prefix) && chars.len() > skipped.len() {
        let rest = string_of(chars.as_slice(), skipped.len(), chars.len());
        assert(rest@ =~= chars@.skip(prefix@.len() as int));
        Some(rest)
    } else {
        None
    }
}

/// What the catalog is told of a session that the store no longer has.
pub open spec fn ghost_mutation(
    mutation: CatalogMutation,
    session_id: Seq<char>,
    workspace_id: Seq<char>,
    now_ms: u64,
    offset: nat,
) -> bool {
    &&& mutation.session_id@ == session_id
    &&& mutation.workspace_id@ == workspace_id
    &&& mutation.model is None
    &&& mutation.updated_at_unix_ns == capped_sum(capped_nanos(now_ms) as nat, offset)
    &&& mutation.preview is None
    &&& mutation.message_count is None
    &&& mutation.writer_instance_id@ == "reconciler"@
    &&& mutation.generation == capped_sum(now_ms as nat, offset)
    &&& mutation.deleted
    &&& mutation.observed_at_unix_ms == now_ms
    &&& mutation.authoritative_observation
}

pub fn ghost_mutations(missing: &Vec<String>, workspace_id: &str, now_ms: u64) -> (mutations: Vec<
    CatalogMutation,
>)
    ensures
        mutations@.len() == missing@.len(),
        forall|i: int|
            0 <= i < mutations@.len() ==> ghost_mutation(
                #[trigger] mutations@[i],
                missing@[i]@,
                workspace_id@,
                now_ms,
                i as nat,
            ),
{
    let mut mutations: Vec<CatalogMutation> = Vec::new();
    let mut offset: usize = 0;
    while offset < missing.len()
        invariant
            offset <= missing@.len(),
            mutations@.len() == offset,
            forall|i: int|
                0 <= i < offset ==> ghost_mutation(
                    #[trigger] mutations@[i],
                    missing@[i]@,
                    workspace_id@,
                    now_ms,
                    i as nat,
                ),
        decreases missing@.len() - offset,
    {
        let nanos: u64 = nanos_of(now_ms);
        mutations.push(
            CatalogMutation {
                session_id: missing[offset].clone(),
                workspace_id: workspace_id.to_owned(),
                model: None,
                updated_at_unix_ns: sum_of(nanos, offset),
                preview: None,
                message_count: None,
                writer_instance_id: "reconciler".to_owned(),
                generation: sum_of(now_ms, offset),
                deleted: true,
                observed_at_unix_ms: now_ms,
                authoritative_observation: true,
            },
        );
        offset = offset + 1;
    }
    mutations
}

/// What the catalog is told of a stored session.
pub open spec fn observed_mutation(
    mutation: CatalogMutation,
    summary: SessionSummary,
    workspace_id: Seq<char>,
    now_ms: u64,
    offset: nat,
) -> bool {
    &&& mutation.session_id == summary.id
    &&& mutation.workspace_id@ == workspace_id
    &&& mutation.model == Some(summary.model)
    &&& mutation.updated_at_unix_ns == match summary.updated_at {
        Some(nanos) => nanos,
        None => 0,
    }
    &&& mutation.preview == summary.first_user_line
    &&& mutation.message_count == Some(summary.message_count)
    &&& mutation.writer_instance_id@ == "reconciler"@
    &&& mutation.generation == capped_sum(now_ms as nat, offset)
    &&& !mutation.deleted
    &&& mutation.observed_at_unix_ms == now_ms
    &&& mutation.authoritative_observation
}

pub fn observed_mutations(summaries: &Vec<SessionSummary>, workspace_id: &str, now_ms: u64) -> (
    mutations: Vec<CatalogMutation>)
    ensures
        mutations@.len() == summaries@.len(),
        forall|i: int|
            0 <= i < mutations@.len() ==> observed_mutation(
                #[trigger] mutations@[i],
                summaries@[i],
                workspace_id@,
                now_ms,
                i as nat,
            ),
{
    let mut mutations: Vec<CatalogMutation> = Vec::new();
    let mut offset: usize = 0;
    while offset < summaries.len()
        invariant
            offset <= summaries@.len(),
            mutations@.len() == offset,
            forall|i: int|
                0 <= i < offset ==> observed_mutation(
                    #[trigger] mutations@[i],
                    summaries@[i],
                    workspace_id@,
                    now_ms,
                    i as nat,
                ),
        decreases summaries@.len() - offset,
    {
        let summary = summaries[offset].clone();
        mutations.push(
            CatalogMutation {
                session_id: summary.id,
                workspace_id: workspace_id.to_owned(),
                model: Some(summary.model),
                updated_at_unix_ns: match summary.updated_at {
                    Some(nanos) => nanos,
                    None => 0,
                },
                preview: summary.first_user_line,
                message_count: Some(summary.message_count),
                writer_instance_id: "reconciler".to_owned(),
                generation: sum_of(now_ms, offset),
                deleted: false,
                observed_at_unix_ms: now_ms,
                authoritative_observation: true,
            },
        );
        offset = offset + 1;
    }
    mutations
}

/// What a pass leaves behind in the catalog: whether the workspace is complete,
/// where to go on, and up to which time tombstones may go.
#[derive(Debug, PartialEq, Eq)]
pub struct ReconcileState {
    pub complete: bool,
    pub cursor: Option<String>,
    pub purge_before_ms: Option<u64>,
}

/// Whether a state goes on under a prefix from some id.
pub open spec fn goes_on(state: ReconcileState, prefix: Seq<char>, from: Seq<char>) -> bool {
    &&& !state.complete
    &&& state.purge_before_ms is None
    &&& state.cursor matches Some(cursor) && cursor@ == prefix + from
}

/// Where a pass over catalogued ids leaves off: a short batch was the last, and
/// the workspace is complete; a full one goes on behind its last id. Nothing is
/// written where the limit is zero and no id came.
pub fn ghosts_settled(ids: &Vec<String>, limit: usize, now_ms: u64, retention_ms: u64) -> (state:
    Option<ReconcileState>)
    ensures
        if ids@.len() < limit {
            state == Some(
                ReconcileState {
                    complete: true,
                    cursor: None,
                    purge_before_ms: Some(
                        if now_ms < retention_ms {
                            0
                        } else {
                            (now_ms - retention_ms) as u64
                        },
                    ),
                },
            )
        } else if ids@.len() > 0 {
            state matches Some(state) && goes_on(state, "ghost:"@, ids@.last()@)
        } else {
            state is None
        },
{
    if ids.len() < limit {
        return Some(
            ReconcileState {
                complete: true,
                cursor: None,
                purge_before_ms: Some(
                    if now_ms < retention_ms {
                        0
                    } else {
                        now_ms - retention_ms
                    },
                ),
            },
        );
    }
    let n: usize = ids.len();
    if n == 0 {
        return None;
    }
    let mut cursor = "ghost:".to_owned();
    cursor.append(ids[n - 1].as_str());
    Some(ReconcileState { complete: false, cursor: Some(cursor), purge_before_ms: None })
}

/// Where a pass over the store leaves off: behind a finished scan comes the
/// look for ghosts, behind another the rest of the scan.
pub fn scan_settled(complete: bool, next_cursor: &Option<String>) -> (state: ReconcileState)
    ensures
        if complete {
            goes_on(state, "ghost:"@, Seq::empty())
        } else {
            match next_cursor {
                Some(next) => goes_on(state, "dir:"@, next@),
                None => !state.complete && state.cursor is None && state.purge_before_ms is None,
            }
        },
{
    let cursor = if complete {
        let text = "ghost:".to_owned();
        assert(text@ =~= "ghost:"@ + Seq::empty());
        Some(text)
    } else {
        match next_cursor {
            Some(next) => {
                let mut text = "dir:".to_owned();
                text.append(next.as_str());
                Some(text)
            },
            None => None,
        }
    };
    ReconcileState { complete: false, cursor, purge_before_ms: None }
}

/// What a pass leaves behind is where the next one goes on: each cursor that is
/// written reads back as the same phase behind the same id.
pub proof fn law_cursors_resume(from: Seq<char>)
    ensures
        starts_with("ghost:"@ + from, "ghost:"@),
        rest_behind("ghost:"@ + from, "ghost:"@) == if from.len() > 0 {
            Some(from)
        } else {
            None
        },
        !starts_with("dir:"@ + from, "ghost:"@),
        rest_behind("dir:"@ + from, "dir:"@) == if from.len() > 0 {
            Some(from)
        } else {
            None
        },
{
    reveal_strlit("ghost:");
    reveal_strlit("dir:");
    assert(("ghost:"@ + from).subrange(0, 6) =~= "ghost:"@);
    assert(("ghost:"@ + from).skip(6) =~= from);
    assert(("dir:"@ + from).subrange(0, 4) =~= "dir:"@);
    if starts_with("dir:"@ + from, "ghost:"@) {
        assert(("dir:"@ + from).subrange(0, 6)[0] == 'd');
    }
    assert(("dir:"@ + from).skip(4) =~= from);
    assert(("dir:"@ + from)[0] == 'd');
    assert("ghost:"@[0] == 'g');
}

/// A pass that goes on is not complete, forgets nothing, and says from where.
pub proof fn law_passes_go_on_from_their_cursor(
    state: ReconcileState,
    prefix: Seq<char>,
    from: Seq<char>,
)
    requires
        goes_on(state, prefix, from),
    ensures
        !state.complete,
        state.purge_before_ms is None,
        state.cursor matches Some(cursor) && cursor@ == prefix + from,
{
}

/// Sums, times and spans stop at what 64 bits hold, and are exact below. What
/// lies ahead took no time.
pub proof fn law_sums_and_spans_stop_at_their_bounds(
    a: nat,
    b: nat,
    millis: u64,
    then: u64,
    now: u64,
)
    ensures
        a + b <= u64::MAX ==> capped_sum(a, b) == a + b,
        a + b > u64::MAX ==> capped_sum(a, b) == u64::MAX,
        millis * 1_000_000 <= u64::MAX ==> capped_nanos(millis) == millis * 1_000_000,
        millis * 1_000_000 > u64::MAX ==> capped_nanos(millis) == u64::MAX,
        then <= now ==> elapsed_ms(then, now) == now - then,
        then > now ==> elapsed_ms(then, now) == 0,
{
}

} // verus!
