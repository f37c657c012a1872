//! Scans that follow their cursors see every stored session once.
use vstd::prelude::*;
use vstd::string::*;
use crate::session_store::{
    in_listing_order, law_scan_resumes_behind_its_cursor, listed_before, listing_id, listing_of,
    page_of, readable, readable_between, rows_ordered, rows_through, safe_id, scan_end, scanned,
    stripped, summaries_of, SessionSummary, SessionSummaryScan, StoredRow,
};
use crate::text::{lemma_text_less_irreflexive, text_less};

verus! {

broadcast use vstd::string::group_string_axioms;

/// Whether every row can be read, under a safe id that its record has too.
pub open spec fn rows_sound(rows: Seq<StoredRow>) -> bool {
    forall|i: int|
        0 <= i < rows.len() ==> readable(#[trigger] rows[i]) && safe_id(rows[i].session_id@)
            && listing_id(rows[i], true) == rows[i].session_id@
}

/// What the scan at a place goes on behind: the first one behind nothing, each
/// other behind the cursor of the one before.
pub open spec fn scan_after(scans: Seq<SessionSummaryScan>, at: int) -> Seq<char> {
    if at <= 0 {
        seq![]
    } else {
        match scans[at - 1].next_cursor {
            Some(cursor) => stripped(cursor@),
            None => seq![],
        }
    }
}

/// Whether the scan at a place is one that goes on behind the one before, and
/// only the last has no cursor. `expired` says of each whether the deadline had
/// passed when it ended.
pub open spec fn scan_step(
    rows: Seq<StoredRow>,
    max_entries: nat,
    max_preview_bytes: nat,
    expired: Seq<bool>,
    scans: Seq<SessionSummaryScan>,
    k: int,
) -> bool {
    &&& scanned(
        rows,
        scan_after(scans, k),
        max_entries,
        max_preview_bytes,
        expired[k],
        scans[k],
    )
    &&& scans[k].next_cursor is None <==> k == scans.len() - 1
}

/// Whether scans of the same rows follow their cursors to the end.
pub open spec fn scan_course(
    rows: Seq<StoredRow>,
    max_entries: nat,
    max_preview_bytes: nat,
    expired: Seq<bool>,
    scans: Seq<SessionSummaryScan>,
) -> bool {
    &&& scans.len() > 0
    &&& forall|k: int|
        0 <= k < scans.len() ==> #[trigger] scan_step(
            rows,
            max_entries,
            max_preview_bytes,
            expired,
            scans,
            k,
        )
}

/// Whether a scan has a session in a place.
pub open spec fn lists(scans: Seq<SessionSummaryScan>, k: int, i: int, id: Seq<char>) -> bool {
    &&& 0 <= k < scans.len()
    &&& 0 <= i < scans[k].summaries@.len()
    &&& scans[k].summaries@[i].id@ == id
}

proof fn lemma_all_readable(rows: Seq<StoredRow>, from: int, to: int)
    requires
        rows_sound(rows),
        0 <= from <= to <= rows.len(),
    ensures
        readable_between(rows, from, to).len() == to - from,
        forall|i: int|
            0 <= i < to - from ==> #[trigger] readable_between(rows, from, to)[i] == from + i,
    decreases to - from,
{
    if from < to {
        assert(readable(rows[to - 1]));
        lemma_all_readable(rows, from, to - 1);
    }
}

proof fn lemma_safe_is_not_stripped(id: Seq<char>)
    requires
        safe_id(id),
    ensures
        stripped(id) == id,
{
    reveal_strlit(".json");
    if id.len() >= 5 && id.skip(id.len() - 5) == ".json"@ {
        assert(id.skip(id.len() - 5)[0] == '.');
        assert(id[id.len() - 5] == '.');
    }
}

proof fn lemma_starts_at_first(rows: Seq<StoredRow>)
    requires
        rows_sound(rows),
    ensures
        rows_through(rows, seq![]) == 0,
    decreases rows.len(),
{
    if rows.len() > 0 {
        assert(safe_id(rows[rows.len() - 1].session_id@));
        assert(text_less(seq![], rows.last().session_id@));
        assert(rows_sound(rows.drop_last()));
        lemma_starts_at_first(rows.drop_last());
    }
}

/// The rows of one scan: from where it starts, as many as it may return.
proof fn lemma_page(
    rows: Seq<StoredRow>,
    max_entries: nat,
    max_preview_bytes: nat,
    expired: Seq<bool>,
    scans: Seq<SessionSummaryScan>,
    k: int,
)
    requires
        rows_ordered(rows),
        rows_sound(rows),
        max_entries > 0,
        scan_course(rows, max_entries, max_preview_bytes, expired, scans),
        0 <= k < scans.len(),
        rows_through(rows, scan_after(scans, k)) <= rows.len(),
    ensures
        ({
            let from = rows_through(rows, scan_after(scans, k)) as int;
            let page = page_of(
                readable_between(rows, from, scan_end(rows, scan_after(scans, k), max_entries)),
                max_entries,
            );
            let end = if k == scans.len() - 1 {
                rows.len() as int
            } else {
                rows_through(rows, scan_after(scans, k + 1)) as int
            };
            &&& page.len() == end - from
            &&& forall|i: int| 0 <= i < page.len() ==> #[trigger] page[i] == from + i
            &&& k < scans.len() - 1 ==> from < end <= rows.len()
            &&& scans[k].summaries@.len() == page.len()
        }),
{
    let after = scan_after(scans, k);
    let from = rows_through(rows, after) as int;
    let to = scan_end(rows, after, max_entries);
    assert(scan_step(rows, max_entries, max_preview_bytes, expired, scans, k));
    lemma_all_readable(rows, from, to);
    let picks = readable_between(rows, from, to);
    let page = page_of(picks, max_entries);
    if k < scans.len() - 1 {
        assert(scans[k].next_cursor is Some);
        assert(picks.len() > max_entries);
        let last = from + max_entries - 1;
        assert(page.last() == last);
        assert(listing_id(rows[last], true) == rows[last].session_id@);
        lemma_safe_is_not_stripped(rows[last].session_id@);
        assert(scan_after(scans, k + 1) == rows[last].session_id@);
        law_scan_resumes_behind_its_cursor(rows, last);
    } else {
        assert(scans[k].next_cursor is None);
    }
}

proof fn lemma_start_in_rows(
    rows: Seq<StoredRow>,
    max_entries: nat,
    max_preview_bytes: nat,
    expired: Seq<bool>,
    scans: Seq<SessionSummaryScan>,
    k: int,
)
    requires
        rows_ordered(rows),
        rows_sound(rows),
        max_entries > 0,
        scan_course(rows, max_entries, max_preview_bytes, expired, scans),
        0 <= k < scans.len(),
    ensures
        rows_through(rows, scan_after(scans, k)) <= rows.len(),
        k == 0 ==> rows_through(rows, scan_after(scans, k)) == 0,
    decreases k,
{
    if k == 0 {
        lemma_starts_at_first(rows);
    } else {
        lemma_start_in_rows(rows, max_entries, max_preview_bytes, expired, scans, k - 1);
        lemma_page(rows, max_entries, max_preview_bytes, expired, scans, k - 1);
    }
}

/// Later scans start behind the rows of earlier ones.
proof fn lemma_starts_rise(
    rows: Seq<StoredRow>,
    max_entries: nat,
    max_preview_bytes: nat,
    expired: Seq<bool>,
    scans: Seq<SessionSummaryScan>,
    a: int,
    b: int,
)
    requires
        rows_ordered(rows),
        rows_sound(rows),
        max_entries > 0,
        scan_course(rows, max_entries, max_preview_bytes, expired, scans),
        0 <= a < b < scans.len(),
    ensures
        rows_through(rows, scan_after(scans, a + 1)) <= rows_through(rows, scan_after(scans, b)),
    decreases b - a,
{
    if a + 1 < b {
        lemma_starts_rise(rows, max_entries, max_preview_bytes, expired, scans, a, b - 1);
        lemma_start_in_rows(rows, max_entries, max_preview_bytes, expired, scans, b - 1);
        lemma_page(rows, max_entries, max_preview_bytes, expired, scans, b - 1);
    }
}

/// The scan that reaches a row.
proof fn lemma_reached(
    rows: Seq<StoredRow>,
    max_entries: nat,
    max_preview_bytes: nat,
    expired: Seq<bool>,
    scans: Seq<SessionSummaryScan>,
    row: int,
    k: int,
) -> (found: int)
    requires
        rows_ordered(rows),
        rows_sound(rows),
        max_entries > 0,
        scan_course(rows, max_entries, max_preview_bytes, expired, scans),
        0 <= row < rows.len(),
        0 <= k < scans.len(),
        rows_through(rows, scan_after(scans, k)) <= row,
    ensures
        0 <= found < scans.len(),
        rows_through(rows, scan_after(scans, found)) <= row,
        found < scans.len() - 1 ==> row < rows_through(rows, scan_after(scans, found + 1)),
    decreases scans.len() - k,
{
    if k == scans.len() - 1 || row < rows_through(rows, scan_after(scans, k + 1)) {
        k
    } else {
        lemma_reached(rows, max_entries, max_preview_bytes, expired, scans, row, k + 1)
    }
}

/// The row of a listed summary lies in the rows of its scan.
proof fn lemma_listed_row(
    rows: Seq<StoredRow>,
    max_entries: nat,
    max_preview_bytes: nat,
    expired: Seq<bool>,
    scans: Seq<SessionSummaryScan>,
    k: int,
    order: Seq<int>,
    i: int,
)
    requires
        rows_ordered(rows),
        rows_sound(rows),
        max_entries > 0,
        scan_course(rows, max_entries, max_preview_bytes, expired, scans),
        0 <= k < scans.len(),
        0 <= i < scans[k].summaries@.len(),
        listing_of(
            rows,
            true,
            page_of(
                readable_between(
                    rows,
                    rows_through(rows, scan_after(scans, k)) as int,
                    scan_end(rows, scan_after(scans, k), max_entries),
                ),
                max_entries,
            ),
            order,
        ),
        summaries_of(scans[k].summaries@, rows, order, max_preview_bytes),
    ensures
        rows_through(rows, scan_after(scans, k)) <= order[i] < rows.len(),
        k < scans.len() - 1 ==> order[i] < rows_through(rows, scan_after(scans, k + 1)),
        scans[k].summaries@[i].id@ == rows[order[i]].session_id@,
{
    lemma_start_in_rows(rows, max_entries, max_preview_bytes, expired, scans, k);
    lemma_page(rows, max_entries, max_preview_bytes, expired, scans, k);
    let page = page_of(
        readable_between(
            rows,
            rows_through(rows, scan_after(scans, k)) as int,
            scan_end(rows, scan_after(scans, k), max_entries),
        ),
        max_entries,
    );
    assert(order.contains(order[i]));
    let at = choose|at: int| 0 <= at < page.len() && page[at] == order[i];
    assert(page[at] == order[i]);
    assert(listing_id(rows[order[i]], true) == rows[order[i]].session_id@);
    assert(readable(rows[order[i]]));
}

/// Every stored session is seen once: where every row can be read, scans that
/// follow their cursors from the first to the last have each session in exactly
/// one place. (A row that cannot be read ends the scans, which are then not
/// complete.)
pub proof fn law_scans_see_every_session_once(
    rows: Seq<StoredRow>,
    max_entries: nat,
    max_preview_bytes: nat,
    expired: Seq<bool>,
    scans: Seq<SessionSummaryScan>,
)
    requires
        rows_ordered(rows),
        rows_sound(rows),
        max_entries > 0,
        scan_course(rows, max_entries, max_preview_bytes, expired, scans),
    ensures
        forall|row: int|
            0 <= row < rows.len() ==> exists|k: int, i: int|
                lists(scans, k, i, (#[trigger] rows[row]).session_id@),
        forall|id: Seq<char>, k: int, i: int, l: int, j: int|
            #[trigger] lists(scans, k, i, id) && #[trigger] lists(scans, l, j, id) ==> k == l && i
                == j,
{
    assert forall|row: int| 0 <= row < rows.len() implies exists|k: int, i: int|
        lists(scans, k, i, (#[trigger] rows[row]).session_id@) by {
        lemma_start_in_rows(rows, max_entries, max_preview_bytes, expired, scans, 0);
        let k = lemma_reached(
            rows,
            max_entries,
            max_preview_bytes,
            expired,
            scans,
            row,
            0,
        );
        lemma_start_in_rows(rows, max_entries, max_preview_bytes, expired, scans, k);
        lemma_page(rows, max_entries, max_preview_bytes, expired, scans, k);
        let from = rows_through(rows, scan_after(scans, k)) as int;
        let page = page_of(
            readable_between(rows, from, scan_end(rows, scan_after(scans, k), max_entries)),
            max_entries,
        );
        assert(scan_step(rows, max_entries, max_preview_bytes, expired, scans, k));
        let order = choose|order: Seq<int>|
            #[trigger] listing_of(rows, true, page, order) && summaries_of(
                scans[k].summaries@,
                rows,
                order,
                max_preview_bytes,
            );
        assert(page[row - from] == row);
        assert(page.contains(row));
        assert(order.contains(row));
        let i = choose|i: int| 0 <= i < order.len() && order[i] == row;
        lemma_listed_row(
            rows,
            max_entries,
            max_preview_bytes,
            expired,
            scans,
            k,
            order,
            i,
        );
        assert(lists(scans, k, i, rows[row].session_id@));
    }
    assert forall|id: Seq<char>, k: int, i: int, l: int, j: int|
        #[trigger] lists(scans, k, i, id) && #[trigger] lists(scans, l, j, id) implies k == l && i
        == j by {
        let (first, a) = lemma_place(
            rows,
            max_entries,
            max_preview_bytes,
            expired,
            scans,
            k,
            i,
        );
        let (second, b) = lemma_place(
            rows,
            max_entries,
            max_preview_bytes,
            expired,
            scans,
            l,
            j,
        );
        if a < b {
            assert(text_less(rows[a].session_id@, rows[b].session_id@));
            lemma_text_less_irreflexive(id);
        }
        if b < a {
            assert(text_less(rows[b].session_id@, rows[a].session_id@));
            lemma_text_less_irreflexive(id);
        }
        if k < l {
            lemma_starts_rise(rows, max_entries, max_preview_bytes, expired, scans, k, l);
        }
        if l < k {
            lemma_starts_rise(rows, max_entries, max_preview_bytes, expired, scans, l, k);
        }
        assert(k == l);
        assert(first == second);
        lemma_once_in_order(rows, first, i, j);
    }
}

/// The order that a scan's summaries stand in, and the row of one of them.
proof fn lemma_place(
    rows: Seq<StoredRow>,
    max_entries: nat,
    max_preview_bytes: nat,
    expired: Seq<bool>,
    scans: Seq<SessionSummaryScan>,
    k: int,
    i: int,
) -> (place: (Seq<int>, int))
    requires
        rows_ordered(rows),
        rows_sound(rows),
        max_entries > 0,
        scan_course(rows, max_entries, max_preview_bytes, expired, scans),
        0 <= k < scans.len(),
        0 <= i < scans[k].summaries@.len(),
    ensures
        ({
            let (order, row) = place;
            &&& order == order_of(rows, max_entries, max_preview_bytes, scans, k)
            &&& listing_of(
                rows,
                true,
                page_of(
                    readable_between(
                        rows,
                        rows_through(rows, scan_after(scans, k)) as int,
                        scan_end(rows, scan_after(scans, k), max_entries),
                    ),
                    max_entries,
                ),
                order,
            )
            &&& order.len() == scans[k].summaries@.len()
            &&& row == order[i]
            &&& rows_through(rows, scan_after(scans, k)) <= row < rows.len()
            &&& k < scans.len() - 1 ==> row < rows_through(rows, scan_after(scans, k + 1))
            &&& scans[k].summaries@[i].id@ == rows[row].session_id@
        }),
{
    assert(scan_step(rows, max_entries, max_preview_bytes, expired, scans, k));
    let order = order_of(rows, max_entries, max_preview_bytes, scans, k);
    lemma_listed_row(
        rows,
        max_entries,
        max_preview_bytes,
        expired,
        scans,
        k,
        order,
        i,
    );
    (order, order[i])
}

spec fn order_of(
    rows: Seq<StoredRow>,
    max_entries: nat,
    max_preview_bytes: nat,
    scans: Seq<SessionSummaryScan>,
    k: int,
) -> Seq<int> {
    choose|order: Seq<int>|
        #[trigger] listing_of(
            rows,
            true,
            page_of(
                readable_between(
                    rows,
                    rows_through(rows, scan_after(scans, k)) as int,
                    scan_end(rows, scan_after(scans, k), max_entries),
                ),
                max_entries,
            ),
            order,
        ) && summaries_of(scans[k].summaries@, rows, order, max_preview_bytes)
}

proof fn lemma_once_in_order(rows: Seq<StoredRow>, order: Seq<int>, i: int, j: int)
    requires
        in_listing_order(rows, true, order),
        0 <= i < order.len(),
        0 <= j < order.len(),
        order[i] == order[j],
    ensures
        i == j,
{
    lemma_text_less_irreflexive(listing_id(rows[order[i]], true));
    if i < j {
        assert(listed_before(rows, true, order[i], order[j]));
    } else if j < i {
        assert(listed_before(rows, true, order[j], order[i]));
    }
}

/// Whether a summary comes before another in a batch: the newer one, and among
/// equally new ones the one with the smaller id.
pub open spec fn summary_before(a: SessionSummary, b: SessionSummary) -> bool {
    a.updated_at matches Some(left) && b.updated_at matches Some(right) && (left > right || left
        == right && text_less(a.id@, b.id@))
}

/// Whether an id is the greatest of a batch.
pub open spec fn greatest_id(summaries: Seq<SessionSummary>, id: Seq<char>) -> bool {
    &&& exists|i: int| 0 <= i < summaries.len() && (#[trigger] summaries[i]).id@ == id
    &&& forall|i: int|
        0 <= i < summaries.len() ==> (#[trigger] summaries[i]).id@ == id || text_less(
            summaries[i].id@,
            id,
        )
}

/// What holds of one batch, where every row can be read: it has no more
/// summaries than it may return, the newest first and equally new ones by their
/// ids; its cursor, if it has one, is the greatest id in it; and it is complete
/// if and only if it has none and the deadline had not passed.
pub proof fn law_scan_batch(
    rows: Seq<StoredRow>,
    after: Seq<char>,
    max_entries: nat,
    max_preview_bytes: nat,
    expired_after: bool,
    scan: SessionSummaryScan,
)
    requires
        rows_ordered(rows),
        rows_sound(rows),
        max_entries > 0,
        scanned(rows, after, max_entries, max_preview_bytes, expired_after, scan),
    ensures
        scan.summaries@.len() <= max_entries,
        forall|i: int, j: int|
            0 <= i < j < scan.summaries@.len() ==> summary_before(
                #[trigger] scan.summaries@[i],
                #[trigger] scan.summaries@[j],
            ),
        scan.next_cursor matches Some(cursor) ==> greatest_id(scan.summaries@, cursor@),
        scan.complete <==> scan.next_cursor is None && !expired_after,
{
    lemma_through_is_within(rows, after);
    let from = rows_through(rows, after) as int;
    let to = scan_end(rows, after, max_entries);
    lemma_all_readable(rows, from, to);
    let picks = readable_between(rows, from, to);
    let page = page_of(picks, max_entries);
    assert forall|i: int| 0 <= i < page.len() implies #[trigger] page[i] == from + i by {
        assert(page[i] == picks[i]);
    }
    let summaries = scan.summaries@;
    let order = choose|order: Seq<int>|
        #[trigger] listing_of(rows, true, page, order) && summaries_of(
            summaries,
            rows,
            order,
            max_preview_bytes,
        );
    assert forall|i: int| 0 <= i < order.len() implies from <= #[trigger] order[i] < from
        + page.len() && summaries[i].id@ == rows[order[i]].session_id@
        && summaries[i].updated_at == Some(rows[order[i]].updated_at_unix_ns) by {
        assert(order.contains(order[i]));
        let at = choose|at: int| 0 <= at < page.len() && page[at] == order[i];
        assert(page[at] == order[i]);
        assert(readable(rows[order[i]]));
        assert(listing_id(rows[order[i]], true) == rows[order[i]].session_id@);
    }
    assert forall|i: int, j: int| 0 <= i < j < summaries.len() implies summary_before(
        #[trigger] summaries[i],
        #[trigger] summaries[j],
    ) by {
        let a = order[i];
        let b = order[j];
        assert(listed_before(rows, true, a, b));
        assert(listing_id(rows[a], true) == rows[a].session_id@);
        assert(listing_id(rows[b], true) == rows[b].session_id@);
        if rows[a].session_id@ == rows[b].session_id@ {
            lemma_text_less_irreflexive(rows[a].session_id@);
            if a < b {
                assert(text_less(rows[a].session_id@, rows[b].session_id@));
            } else if b < a {
                assert(text_less(rows[b].session_id@, rows[a].session_id@));
            } else {
                lemma_once_in_order(rows, order, i, j);
            }
        }
    }
    if let Some(cursor) = scan.next_cursor {
        let last = from + max_entries - 1;
        assert(page.last() == last);
        assert(listing_id(rows[last], true) == rows[last].session_id@);
        assert(page[page.len() - 1] == last);
        assert(page.contains(last));
        assert(order.contains(last));
        let at = choose|at: int| 0 <= at < order.len() && order[at] == last;
        assert(summaries[at].id@ == cursor@);
        assert forall|i: int| 0 <= i < summaries.len() implies (#[trigger] summaries[i]).id@
            == cursor@ || text_less(summaries[i].id@, cursor@) by {
            if order[i] < last {
                assert(text_less(rows[order[i]].session_id@, rows[last].session_id@));
            }
        }
    }
}

proof fn lemma_through_is_within(rows: Seq<StoredRow>, after: Seq<char>)
    ensures
        rows_through(rows, after) <= rows.len(),
    decreases rows.len(),
{
    if rows.len() > 0 {
        lemma_through_is_within(rows.drop_last(), after);
    }
}

/// Only the last of the scans that follow their cursors is complete, and it is
/// unless its deadline had passed.
pub proof fn law_last_scan_is_complete(
    rows: Seq<StoredRow>,
    max_entries: nat,
    max_preview_bytes: nat,
    expired: Seq<bool>,
    scans: Seq<SessionSummaryScan>,
)
    requires
        rows_ordered(rows),
        rows_sound(rows),
        max_entries > 0,
        scan_course(rows, max_entries, max_preview_bytes, expired, scans),
    ensures
        forall|k: int|
            0 <= k < scans.len() ==> ((#[trigger] scans[k]).complete <==> k == scans.len() - 1
                && !expired[k]),
{
    assert forall|k: int| 0 <= k < scans.len() implies ((#[trigger] scans[k]).complete <==> k
        == scans.len() - 1 && !expired[k]) by {
        assert(scan_step(rows, max_entries, max_preview_bytes, expired, scans, k));
        law_scan_batch(
            rows,
            scan_after(scans, k),
            max_entries,
            max_preview_bytes,
            expired[k],
            scans[k],
        );
    }
}

} // verus!
