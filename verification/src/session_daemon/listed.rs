//! What a listing shows of which session, and to whom.
use vstd::prelude::*;
use crate::session_daemon::capability::ConnectionTrust;
use crate::session_daemon::catalog::{ghost_mutation, observed_mutation, CatalogMutation};
use crate::session_daemon::listing::{
    active_row, catalog_list_row, last_of_its_id, listing_shows, rendered, rendered_rows,
    row_before, stands_last, summary_row, transcript_preview, ActiveSession, CatalogRow,
};
use crate::session_protocol::{SessionListEntry, TranscriptEntry};
use crate::session_store::{line_end, preview_of, SessionSummary};
use crate::text::{lemma_text_less_irreflexive, text_less};

verus! {

broadcast use vstd::string::group_string_axioms;

/// Whether a row with an id is among some rows.
pub open spec fn has_row(rows: Seq<SessionListEntry>, id: Seq<char>) -> bool {
    exists|i: int| 0 <= i < rows.len() && (#[trigger] rows[i]).session_id@ == id
}

/// A listing has every session once. A live session is listed as it lives, also
/// where it is stored; a stored one that is not live is listed as it is stored;
/// nothing else is listed. Newer sessions come first, equally new ones by id.
pub proof fn law_listing_has_every_session_once(
    durable: Seq<SessionListEntry>,
    active: Seq<SessionListEntry>,
    listed: Seq<SessionListEntry>,
)
    requires
        listing_shows(durable + active, 0, listed),
        forall|i: int, j: int|
            0 <= i < j < durable.len() ==> (#[trigger] durable[i]).session_id@ != (
            #[trigger] durable[j]).session_id@,
        forall|i: int, j: int|
            0 <= i < j < active.len() ==> (#[trigger] active[i]).session_id@ != (
            #[trigger] active[j]).session_id@,
    ensures
        forall|i: int| 0 <= i < active.len() ==> listed.contains(#[trigger] active[i]),
        forall|i: int|
            0 <= i < durable.len() && !has_row(active, (#[trigger] durable[i]).session_id@)
                ==> listed.contains(durable[i]),
        forall|k: int|
            0 <= k < listed.len() ==> active.contains(#[trigger] listed[k]) || (durable.contains(
                listed[k],
            ) && !has_row(active, listed[k].session_id@)),
        forall|k: int, l: int|
            0 <= k < l < listed.len() ==> (#[trigger] listed[k]).session_id@ != (
            #[trigger] listed[l]).session_id@,
        forall|k: int, l: int|
            0 <= k < l < listed.len() ==> newer(#[trigger] listed[k], #[trigger] listed[l]),
{
    let given = durable + active;
    let shift = durable.len() as int;
    assert forall|i: int| 0 <= i < active.len() implies listed.contains(#[trigger] active[i]) by {
        let at = i + shift;
        assert(given[at] == active[i]);
        assert forall|later: int| at < later < given.len() implies (
        #[trigger] given[later]).session_id@ != given[at].session_id@ by {
            assert(given[later] == active[later - shift]);
        }
        assert(last_of_its_id(given, at));
    }
    assert forall|i: int|
        0 <= i < durable.len() && !has_row(
            active,
            (#[trigger] durable[i]).session_id@,
        ) implies listed.contains(durable[i]) by {
        assert(given[i] == durable[i]);
        assert forall|later: int| i < later < given.len() implies (
        #[trigger] given[later]).session_id@ != given[i].session_id@ by {
            if later < shift {
                assert(given[later] == durable[later]);
            } else {
                assert(given[later] == active[later - shift]);
            }
        }
        assert(last_of_its_id(given, i));
    }
    assert forall|k: int| 0 <= k < listed.len() implies active.contains(#[trigger] listed[k]) || (
    durable.contains(listed[k]) && !has_row(active, listed[k].session_id@)) by {
        assert(stands_last(given, 0, listed[k]));
        let at = choose|at: int|
            0 <= at && #[trigger] last_of_its_id(given, at) && given[at] == listed[k];
        if at < shift {
            assert(durable[at] == listed[k]);
            if has_row(active, listed[k].session_id@) {
                let i = choose|i: int|
                    0 <= i < active.len() && (#[trigger] active[i]).session_id@
                        == listed[k].session_id@;
                assert(given[i + shift] == active[i]);
            }
        } else {
            assert(active[at - shift] == listed[k]);
        }
    }
    assert forall|k: int, l: int| 0 <= k < l < listed.len() implies (
    #[trigger] listed[k]).session_id@ != (#[trigger] listed[l]).session_id@ by {
        assert(row_before(listed[k], listed[l]));
        if listed[k].session_id@ == listed[l].session_id@ {
            lemma_text_less_irreflexive(listed[k].session_id@);
            assert(stands_last(given, 0, listed[k]));
            assert(stands_last(given, 0, listed[l]));
            let a = choose|at: int|
                0 <= at && #[trigger] last_of_its_id(given, at) && given[at] == listed[k];
            let b = choose|at: int|
                0 <= at && #[trigger] last_of_its_id(given, at) && given[at] == listed[l];
            if a < b {
                assert(given[b].session_id@ != given[a].session_id@);
            } else if b < a {
                assert(given[a].session_id@ != given[b].session_id@);
            }
        }
    }
    assert forall|k: int, l: int| 0 <= k < l < listed.len() implies newer(
        #[trigger] listed[k],
        #[trigger] listed[l],
    ) by {
        assert(row_before(listed[k], listed[l]));
    }
}

/// Whether a row comes before another: it is newer, or as new and its id smaller.
/// A row without a time is the oldest.
pub open spec fn newer(a: SessionListEntry, b: SessionListEntry) -> bool {
    match (a.updated_at_unix_ms, b.updated_at_unix_ms) {
        (Some(left), Some(right)) => left > right || left == right && text_less(
            a.session_id@,
            b.session_id@,
        ),
        (Some(left), None) => left > 0 || text_less(a.session_id@, b.session_id@),
        (None, Some(right)) => right == 0 && text_less(a.session_id@, b.session_id@),
        (None, None) => text_less(a.session_id@, b.session_id@),
    }
}

/// What a row says of a stored session: that it is not live, its model, length
/// and preview, and when it was written, in whole milliseconds; of a live one:
/// that it is, who is attached, its turn, and its conversation as far as that
/// could be read, else what its snapshot shows.
pub proof fn law_rows_say_what_is_known(
    summary: SessionSummary,
    row: CatalogRow,
    session: ActiveSession,
)
    ensures
        ({
            let stored = summary_row(summary);
            &&& stored.session_id == summary.id
            &&& !stored.active && stored.attached_clients == 0 && stored.turn_status is None
            &&& stored.model == Some(summary.model)
            &&& stored.preview == summary.first_user_line
            &&& stored.message_count == Some(summary.message_count)
            &&& stored.updated_at_unix_ms is Some <==> summary.updated_at is Some
            &&& summary.updated_at matches Some(nanos) ==> stored.updated_at_unix_ms->0 * 1_000_000
                <= nanos < (stored.updated_at_unix_ms->0 + 1) * 1_000_000
        }),
        ({
            let stored = catalog_list_row(row);
            &&& stored.session_id == row.session_id
            &&& !stored.active && stored.attached_clients == 0 && stored.turn_status is None
            &&& stored.model == row.model
            &&& stored.preview == row.preview
            &&& stored.message_count == row.message_count
            &&& stored.updated_at_unix_ms is Some
            &&& stored.updated_at_unix_ms->0 * 1_000_000 <= row.updated_at_unix_ns < (
            stored.updated_at_unix_ms->0 + 1) * 1_000_000
        }),
        ({
            let live = active_row(session);
            &&& live.session_id == session.session_id
            &&& live.active && live.attached_clients == session.attached_clients
            &&& live.turn_status == Some(session.turn_status)
            &&& live.model == Some(session.model)
            &&& live.updated_at_unix_ms == Some(session.last_activity_unix_ms)
            &&& session.history matches Some((count, preview)) ==> live.message_count == Some(count)
                && live.preview == preview
            &&& session.history is None ==> live.message_count is None && live.preview
                == session.snapshot_preview
        }),
{
}

/// The daemon's own user sees a listing as it is. A paired device sees which
/// sessions there are, whether they are live and who is attached, and nothing
/// that depends on what is in them.
pub proof fn law_paired_devices_see_no_content(a: SessionListEntry, b: SessionListEntry)
    ensures
        rendered(a, ConnectionTrust::LocalOwner) == a,
        rendered(a, ConnectionTrust::RemotePaired).session_id == a.session_id,
        rendered(a, ConnectionTrust::RemotePaired).active == a.active,
        rendered(a, ConnectionTrust::RemotePaired).attached_clients == a.attached_clients,
        a.session_id == b.session_id && a.active == b.active && a.attached_clients
            == b.attached_clients ==> rendered(a, ConnectionTrust::RemotePaired) == rendered(
            b,
            ConnectionTrust::RemotePaired,
        ),
        rendered(a, ConnectionTrust::RemotePaired).preview is None,
        rendered(a, ConnectionTrust::RemotePaired).model is None,
        rendered(a, ConnectionTrust::RemotePaired).message_count is None,
{
}

/// Rows are shown each by itself and in their order.
pub proof fn law_rows_are_shown_in_order(rows: Seq<SessionListEntry>, trust: ConnectionTrust)
    ensures
        rendered_rows(rows, trust).len() == rows.len(),
        forall|i: int|
            0 <= i < rows.len() ==> #[trigger] rendered_rows(rows, trust)[i] == rendered(
                rows[i],
                trust,
            ),
{
}

/// The preview of a live session is that of the first thing the user said: the
/// first line of it.
pub proof fn law_snapshot_preview_is_of_the_first_message(
    entries: Seq<TranscriptEntry>,
    max_bytes: nat,
    at: int,
)
    requires
        0 <= at <= entries.len(),
        forall|i: int| 0 <= i < at ==> !((#[trigger] entries[i]).role is User),
        at < entries.len() ==> entries[at].role is User,
    ensures
        transcript_preview(entries, max_bytes) == if at < entries.len() {
            preview_of(entries[at].text@.take(line_end(entries[at].text@) as int), max_bytes)
        } else {
            None
        },
    decreases entries.len(),
{
    if entries.len() > 0 && at > 0 {
        assert(!(entries[0].role is User));
        assert forall|i: int| 0 <= i < at - 1 implies !((
        #[trigger] entries.drop_first()[i]).role is User) by {
            assert(!(entries[i + 1].role is User));
        }
        law_snapshot_preview_is_of_the_first_message(entries.drop_first(), max_bytes, at - 1);
    }
}

/// What reconciliation tells the catalog: of a session that the store has, what
/// its summary says; of one that it has no more, that it is gone. Either counts as
/// seen now, and of two in one pass the later is the newer.
pub proof fn law_reconciliation_tells_what_the_store_has(
    gone: CatalogMutation,
    kept: CatalogMutation,
    id: Seq<char>,
    summary: SessionSummary,
    workspace_id: Seq<char>,
    now_ms: u64,
    offset: nat,
)
    requires
        ghost_mutation(gone, id, workspace_id, now_ms, offset),
        observed_mutation(kept, summary, workspace_id, now_ms, offset),
    ensures
        gone.deleted && gone.session_id@ == id && gone.preview is None && gone.model is None
            && gone.message_count is None,
        !kept.deleted && kept.session_id == summary.id && kept.model == Some(summary.model)
            && kept.preview == summary.first_user_line && kept.message_count == Some(
            summary.message_count,
        ),
        summary.updated_at matches Some(nanos) ==> kept.updated_at_unix_ns == nanos,
        gone.workspace_id@ == workspace_id && kept.workspace_id@ == workspace_id,
        gone.authoritative_observation && kept.authoritative_observation,
        gone.observed_at_unix_ms == now_ms && kept.observed_at_unix_ms == now_ms,
        now_ms + offset <= u64::MAX ==> gone.generation == now_ms + offset && kept.generation
            == now_ms + offset,
        now_ms * 1_000_000 + offset <= u64::MAX ==> gone.updated_at_unix_ns == now_ms * 1_000_000
            + offset,
{
}

} // verus!
