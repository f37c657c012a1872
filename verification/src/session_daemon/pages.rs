//! What a client gets for the pages that it asks for.
use vstd::prelude::*;

use crate::foreign::uuid_text;
use crate::keyed::{grown_within, lemma_filter_picks, picked_from};
use crate::session_daemon::capability::ConnectionTrust;
use crate::session_daemon::fitting::law_whole_page_is_sent_where_it_fits;
use crate::session_daemon::frame_fit::ListPage;
use crate::session_daemon::listing::{rendered_rows, SessionListPageError};
use crate::session_daemon::paging::{
    fresh_cursor, listing_answered, next_page, other_than, page_answered, page_end, page_served,
    page_settled, replaced, servable, tokens_without, ConnectionListingSnapshot, ListStart,
    ListingSettings, ListingSnapshotRegistry,
};
use crate::session_protocol::{ServerMessage, SessionListEntry};

verus! {

broadcast use vstd::string::group_string_axioms;

/// A new listing is held behind the others of its kind. Where as many are held
/// as there is room for, the oldest of its kind gives way. Listings of the
/// other kind stay.
pub proof fn law_new_listing_costs_the_oldest_of_its_kind(
    before: ListingSnapshotRegistry,
    after: ListingSnapshotRegistry,
    trust: ConnectionTrust,
)
    requires
        before.well_formed(),
        before.registered(after, trust),
    ensures
        trust is LocalOwner ==> after.remote@ == before.remote@,
        trust is RemotePaired ==> after.local@ == before.local@,
        trust is LocalOwner && before.local@.len() <= before.capacity ==> grown_within(
            before.local@,
            after.local@,
            before.capacity as nat,
            before.next_token,
        ),
        trust is RemotePaired && before.remote@.len() <= before.capacity ==> grown_within(
            before.remote@,
            after.remote@,
            before.capacity as nat,
            before.next_token,
        ),
        after.next_token > before.next_token,
        after.capacity == before.capacity,
{
    assert(trust is LocalOwner ==> after.of(trust) == after.local@ && before.of(trust)
        == before.local@);
    assert(trust is RemotePaired ==> after.of(trust) == after.remote@ && before.of(trust)
        == before.remote@);
}

/// A listing that is given up is held no more; every other is held as it was.
pub proof fn law_given_up_listing_is_not_held(
    before: ListingSnapshotRegistry,
    after: ListingSnapshotRegistry,
    token: u64,
    other: u64,
)
    requires
        before.released(after, token),
    ensures
        !after.holds(token),
        other != token ==> (after.local@.contains(other) <==> before.local@.contains(other)) && (
        after.remote@.contains(other) <==> before.remote@.contains(other)),
        after.next_token == before.next_token,
        after.capacity == before.capacity,
{
    lemma_without(before.local@, token, other);
    lemma_without(before.remote@, token, other);
}

proof fn lemma_without(tokens: Seq<u64>, token: u64, other: u64) -> (places: Seq<int>)
    ensures
        picked_from(tokens_without(tokens, token), tokens, places),
        !tokens_without(tokens, token).contains(token),
        other != token ==> (tokens_without(tokens, token).contains(other) <==> tokens.contains(
            other,
        )),
{
    let places = lemma_filter_picks(tokens, other_than(token));
    let left = tokens_without(tokens, token);
    assert forall|t: u64| left.contains(t) implies tokens.contains(t) && t != token by {
        let k = choose|k: int| 0 <= k < left.len() && left[k] == t;
        assert(left[k] == tokens[places[k]]);
        assert(places.contains(places[k]));
    }
    if other != token && tokens.contains(other) {
        let i = choose|i: int| 0 <= i < tokens.len() && tokens[i] == other;
        assert(places.contains(i));
        let k = choose|k: int| 0 <= k < places.len() && places[k] == i;
        assert(left[k] == tokens[places[k]]);
    }
    places
}

/// Whether a message is a page of some rows from a place on: the rows as the
/// client may see them, at least one where any is left, no more than a page
/// holds, and a cursor exactly where rows are left behind them.
pub open spec fn shows_page(
    message: ServerMessage,
    settings: ListingSettings,
    listing: ConnectionListingSnapshot,
    asked: String,
    trust: ConnectionTrust,
    cursor: String,
    end: int,
) -> bool {
    &&& message matches ServerMessage::SessionList {
        request_id,
        workspace,
        sessions,
        next_cursor,
        incomplete,
    }
    &&& request_id == asked
    &&& workspace == match trust {
        ConnectionTrust::LocalOwner => settings.workspace,
        ConnectionTrust::RemotePaired => None,
    }
    &&& listing.offset <= end <= listing.rows@.len()
    &&& end <= listing.offset + settings.page_size
    &&& sessions@ == rendered_rows(listing.rows@.subrange(listing.offset as int, end), trust)
    &&& listing.offset < listing.rows@.len() ==> end > listing.offset
    &&& next_cursor == if end < listing.rows@.len() {
        Some(cursor)
    } else {
        None
    }
    &&& incomplete == listing.incomplete
}

/// Whether a page that was sent leaves its listing behind its rows, to go on
/// with the cursor that it brought, and held as it was; or, where it was the
/// last, given up.
pub open spec fn left_behind(
    listing: ConnectionListingSnapshot,
    cursor: String,
    end: int,
    registry: ListingSnapshotRegistry,
    after: (ListingSnapshotRegistry, Option<ConnectionListingSnapshot>),
) -> bool {
    if end < listing.rows@.len() {
        &&& after.0 == registry
        &&& after.1 matches Some(rest) && {
            &&& rest.rows == listing.rows
            &&& rest.offset == end
            &&& rest.expected_cursor == Some(cursor)
            &&& rest.expires_at_ns == listing.expires_at_ns
            &&& rest.incomplete == listing.incomplete
            &&& rest.token == listing.token
        }
    } else {
        after.1 is None && !after.0.holds(listing.token)
    }
}

/// A page that was sent shows the next rows and leaves the listing behind them.
/// A page that fits into no frame is refused, and can be asked for again.
pub proof fn law_next_page_follows<F: Fn(&ServerMessage) -> Result<usize, String>>(
    settings: ListingSettings,
    listing: ConnectionListingSnapshot,
    asked: String,
    trust: ConnectionTrust,
    cursor: String,
    max_frame_bytes: usize,
    measure: F,
    registry: ListingSnapshotRegistry,
    after: (ListingSnapshotRegistry, Option<ConnectionListingSnapshot>),
    result: Result<ServerMessage, SessionListPageError>,
) -> (end: int)
    requires
        settings.page_size >= 1,
        listing.well_formed(),
        page_served(
            settings,
            listing,
            asked,
            trust,
            cursor,
            max_frame_bytes,
            measure,
            registry,
            after,
            result,
        ),
    ensures
        match result {
            Ok(message) => shows_page(message, settings, listing, asked, trust, cursor, end)
                && left_behind(listing, cursor, end, registry, after),
            Err(error) => error is TooLarge && after == (registry, Some(listing)),
        },
{
    let (page, fitting) = choose|page: ListPage, fitting: Result<(ServerMessage, usize), String>|
        next_page(page, settings, listing, asked, trust, cursor) && #[trigger] page.fitted(
            measure,
            max_frame_bytes,
            fitting,
        ) && page_settled(page, fitting, listing, registry, after, result);
    match fitting {
        Err(_) => 0,
        Ok((message, sent)) => {
            let shown = listing.rows@.subrange(
                listing.offset as int,
                page_end(listing, settings.page_size),
            );
            assert(page.sent_as(message, sent as int));
            assert(rendered_rows(shown, trust).take(sent as int) =~= rendered_rows(
                listing.rows@.subrange(listing.offset as int, listing.offset + sent),
                trust,
            ));
            if sent >= page.remaining {
                law_given_up_listing_is_not_held(registry, after.0, listing.token, 0);
            }
            listing.offset + sent
        },
    }
}

/// Where nothing is too large for a frame, a page holds as many rows as a page
/// may, or all that are left.
pub proof fn law_pages_are_full<F: Fn(&ServerMessage) -> Result<usize, String>>(
    settings: ListingSettings,
    listing: ConnectionListingSnapshot,
    asked: String,
    trust: ConnectionTrust,
    cursor: String,
    max_frame_bytes: usize,
    measure: F,
    registry: ListingSnapshotRegistry,
    after: (ListingSnapshotRegistry, Option<ConnectionListingSnapshot>),
    result: Result<ServerMessage, SessionListPageError>,
)
    requires
        listing.well_formed(),
        forall|message: ServerMessage, size: usize| #[trigger]
            measure.ensures((&message,), Ok(size)) ==> size <= max_frame_bytes,
        forall|message: ServerMessage, error: String| !#[trigger]
            measure.ensures((&message,), Err(error)),
        page_served(
            settings,
            listing,
            asked,
            trust,
            cursor,
            max_frame_bytes,
            measure,
            registry,
            after,
            result,
        ),
    ensures
        result matches Ok(ServerMessage::SessionList { sessions, .. }) && {
            let left = listing.rows@.len() - listing.offset;
            sessions@.len() == if left < settings.page_size {
                left
            } else {
                settings.page_size as int
            }
        },
{
    let (page, fitting) = choose|page: ListPage, fitting: Result<(ServerMessage, usize), String>|
        next_page(page, settings, listing, asked, trust, cursor) && #[trigger] page.fitted(
            measure,
            max_frame_bytes,
            fitting,
        ) && page_settled(page, fitting, listing, registry, after, result);
    law_whole_page_is_sent_where_it_fits(page, measure, max_frame_bytes, fitting);
}

/// Whether a cursor is good for a listing: the listing is held and has not run
/// out, and the cursor is the one that its last page brought.
pub open spec fn good_cursor(
    registry: ListingSnapshotRegistry,
    listing: ConnectionListingSnapshot,
    cursor: String,
    now_ns: u64,
) -> bool {
    &&& registry.local@.contains(listing.token) || registry.remote@.contains(listing.token)
    &&& now_ns < listing.expires_at_ns
    &&& listing.expected_cursor matches Some(expected) && expected@ == cursor@
}

/// A client goes on with a good cursor and gets the next page. With any other
/// it is refused, and the listing that it was in the middle of is given up. One
/// that is in the middle of none is refused and changes nothing.
pub proof fn law_only_a_good_cursor_goes_on<F: Fn(&ServerMessage) -> Result<usize, String>>(
    settings: ListingSettings,
    before: (ListingSnapshotRegistry, Option<ConnectionListingSnapshot>),
    asked: String,
    given: String,
    trust: ConnectionTrust,
    now_ns: u64,
    cursor: String,
    max_frame_bytes: usize,
    measure: F,
    after: (ListingSnapshotRegistry, Option<ConnectionListingSnapshot>),
    result: Result<ServerMessage, SessionListPageError>,
) -> (end: int)
    requires
        settings.page_size >= 1,
        before.1 matches Some(listing) ==> listing.well_formed(),
        page_answered(
            settings,
            before,
            asked,
            ListStart::Continue(given),
            trust,
            now_ns,
            cursor,
            max_frame_bytes,
            measure,
            after,
            result,
        ),
    ensures
        match before.1 {
            None => result == Err::<ServerMessage, _>(SessionListPageError::InvalidCursor) && after
                == before,
            Some(listing) => if good_cursor(before.0, listing, given, now_ns) {
                match result {
                    Ok(message) => shows_page(
                        message,
                        settings,
                        listing,
                        asked,
                        trust,
                        cursor,
                        end,
                    ) && left_behind(listing, cursor, end, before.0, after),
                    Err(error) => error is TooLarge && after == before,
                }
            } else {
                &&& result == Err::<ServerMessage, _>(SessionListPageError::InvalidCursor)
                &&& after.1 is None
                &&& !after.0.holds(listing.token)
            },
        },
{
    match before.1 {
        None => 0,
        Some(listing) => {
            if servable(before.0, listing, Some(given), now_ns) {
                law_next_page_follows(
                    settings,
                    listing,
                    asked,
                    trust,
                    cursor,
                    max_frame_bytes,
                    measure,
                    before.0,
                    after,
                    result,
                )
            } else {
                law_given_up_listing_is_not_held(before.0, after.0, listing.token, 0);
                0
            }
        },
    }
}

/// A client that asks for a listing from its start gets the first page of the
/// rows that were gathered, whatever it was in the middle of. The listing is
/// kept for the time that listings are.
pub proof fn law_listing_starts_at_its_first_row<F: Fn(&ServerMessage) -> Result<usize, String>>(
    settings: ListingSettings,
    before: (ListingSnapshotRegistry, Option<ConnectionListingSnapshot>),
    asked: String,
    gathered: Result<(Vec<SessionListEntry>, bool), SessionListPageError>,
    trust: ConnectionTrust,
    now_ns: u64,
    cursor: String,
    max_frame_bytes: usize,
    measure: F,
    after: (ListingSnapshotRegistry, Option<ConnectionListingSnapshot>),
    result: Result<ServerMessage, SessionListPageError>,
) -> (found: (ConnectionListingSnapshot, ListingSnapshotRegistry, int))
    requires
        settings.page_size >= 1,
        settings.snapshot_ttl_ns >= 1,
        before.0.well_formed(),
        before.1 matches Some(listing) ==> listing.token < before.0.next_token,
        page_answered(
            settings,
            before,
            asked,
            ListStart::Fresh(gathered),
            trust,
            now_ns,
            cursor,
            max_frame_bytes,
            measure,
            after,
            result,
        ),
    ensures
        gathered matches Err(error) ==> result == Err::<ServerMessage, _>(error) && after == before,
        gathered matches Ok((rows, incomplete)) ==> {
            let listing = found.0;
            &&& listing.rows == rows
            &&& listing.incomplete == incomplete
            &&& listing.offset == 0
            &&& listing.expires_at_ns == now_ns + settings.snapshot_ttl_ns
            &&& match result {
                Ok(message) => shows_page(
                    message,
                    settings,
                    listing,
                    asked,
                    trust,
                    cursor,
                    found.2,
                ) && left_behind(listing, cursor, found.2, found.1, after),
                Err(error) => error is TooLarge && after.1 == Some(listing),
            }
            &&& before.1 matches Some(earlier) ==> !after.0.holds(earlier.token)
            &&& after.1 is Some ==> after.0.holds(listing.token)
        },
{
    match gathered {
        Err(_) => arbitrary(),
        Ok((rows, incomplete)) => {
            let listing = ConnectionListingSnapshot {
                rows,
                offset: 0,
                expected_cursor: None,
                expires_at_ns: (now_ns + settings.snapshot_ttl_ns) as u128,
                incomplete,
                token: before.0.next_token,
            };
            let (held, kept) = choose|
                held: ListingSnapshotRegistry,
                kept: ListingSnapshotRegistry,
            |
                #![trigger before.0.registered(held, trust), replaced(before.1, held, kept)]
                before.0.registered(held, trust) && replaced(before.1, held, kept)
                    && listing_answered(
                    settings,
                    kept,
                    listing,
                    asked,
                    None,
                    trust,
                    now_ns,
                    cursor,
                    max_frame_bytes,
                    measure,
                    after,
                    result,
                );
            let mine = held.of(trust);
            assert(mine.last() == listing.token);
            assert(mine[mine.len() - 1] == listing.token);
            assert(held.holds(listing.token));
            if let Some(earlier) = before.1 {
                law_given_up_listing_is_not_held(held, kept, earlier.token, listing.token);
            }
            assert(servable(kept, listing, None, now_ns));
            let end = law_next_page_follows(
                settings,
                listing,
                asked,
                trust,
                cursor,
                max_frame_bytes,
                measure,
                kept,
                after,
                result,
            );
            if let Some(earlier) = before.1 {
                if after.0 != kept {
                    law_given_up_listing_is_not_held(
                        kept,
                        after.0,
                        listing.token,
                        earlier.token,
                    );
                }
            }
            (listing, kept, end)
        },
    }
}

/// A new cursor is told by its version, and is a random number otherwise.
pub proof fn law_cursors_tell_their_version(cursor: Seq<char>)
    requires
        fresh_cursor(cursor),
    ensures
        cursor == "v1_"@ + cursor.skip(3),
        uuid_text(cursor.skip(3)),
{
    assert(cursor =~= cursor.take(3) + cursor.skip(3));
}

} // verus!
