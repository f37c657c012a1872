//! Handing a listing out page by page: which snapshots are still served, what
//! a page holds, and when a cursor is refused.
use vstd::prelude::*;
use vstd::string::*;
use crate::foreign::{fresh_uuid, uuid_text};
use crate::session_daemon::capability::ConnectionTrust;
use crate::session_daemon::frame_fit::{fit_session_list_to_frame, ListPage};
use crate::session_daemon::listing::{render_listing_rows, rendered_rows, SessionListPageError};
use crate::session_daemon::snapshot_state::{newest, trim_oldest};
use crate::session_protocol::{ServerMessage, SessionListEntry, SessionWorkspace};
use crate::text::str_eq;

verus! {

broadcast use vstd::string::group_string_axioms;

/// The listings that connections are in the middle of, oldest first, apart by
/// where the connection came from. A listing that is not among them any more
/// has been given up.
#[derive(Debug, PartialEq, Eq)]
pub struct ListingSnapshotRegistry {
    pub local: Vec<u64>,
    pub remote: Vec<u64>,
    pub capacity: usize,
    pub next_token: u64,
}

/// The tokens of a list but one.
pub open spec fn tokens_without(tokens: Seq<u64>, token: u64) -> Seq<u64> {
    tokens.filter(other_than(token))
}

pub open spec fn other_than(token: u64) -> spec_fn(u64) -> bool {
    |other: u64| other != token
}

impl ListingSnapshotRegistry {
    pub open spec fn of(self, trust: ConnectionTrust) -> Seq<u64> {
        match trust {
            ConnectionTrust::LocalOwner => self.local@,
            ConnectionTrust::RemotePaired => self.remote@,
        }
    }

    pub open spec fn well_formed(self) -> bool {
        &&& self.capacity >= 1
        &&& forall|i: int| 0 <= i < self.local@.len() ==> #[trigger] self.local@[i]
            < self.next_token
        &&& forall|i: int| 0 <= i < self.remote@.len() ==> #[trigger] self.remote@[i]
            < self.next_token
    }

    pub open spec fn holds(self, token: u64) -> bool {
        self.local@.contains(token) || self.remote@.contains(token)
    }

    /// The registry with a new listing, which may cost the oldest of its kind
    /// its place.
    pub open spec fn registered(self, after: Self, trust: ConnectionTrust) -> bool {
        &&& after.next_token == self.next_token + 1
        &&& after.capacity == self.capacity
        &&& after.of(trust) == newest(
            self.of(trust).push(self.next_token),
            self.capacity as nat,
        )
        &&& match trust {
            ConnectionTrust::LocalOwner => after.remote@ == self.remote@,
            ConnectionTrust::RemotePaired => after.local@ == self.local@,
        }
    }

    pub open spec fn released(self, after: Self, token: u64) -> bool {
        &&& after.next_token == self.next_token
        &&& after.capacity == self.capacity
        &&& after.local@ == tokens_without(self.local@, token)
        &&& after.remote@ == tokens_without(self.remote@, token)
    }

    pub fn new(capacity: usize) -> (registry: Self)
        ensures
            registry.well_formed(),
            registry.capacity == if capacity == 0 {
                1
            } else {
                capacity
            },
            registry.local@.len() == 0,
            registry.remote@.len() == 0,
    {
        ListingSnapshotRegistry {
            local: Vec::new(),
            remote: Vec::new(),
            capacity: if capacity == 0 {
                1
            } else {
                capacity
            },
            next_token: 0,
        }
    }

    pub fn register(&mut self, trust: ConnectionTrust) -> (token: u64)
        requires
            old(self).well_formed(),
            old(self).next_token < u64::MAX,
        ensures
            final(self).well_formed(),
            token == old(self).next_token,
            old(self).registered(*final(self), trust),
            final(self).holds(token),
    {
        let token: u64 = self.next_token;
        self.next_token = token + 1;
        match trust {
            ConnectionTrust::LocalOwner => {
                self.local.push(token);
                let _ = trim_oldest(&mut self.local, self.capacity);
                assert(self.local@.last() == token);
                assert(self.local@[self.local@.len() - 1] == token);
            },
            ConnectionTrust::RemotePaired => {
                self.remote.push(token);
                let _ = trim_oldest(&mut self.remote, self.capacity);
                assert(self.remote@[self.remote@.len() - 1] == token);
            },
        }
        token
    }

    pub fn release(&mut self, token: u64)
        requires
            old(self).well_formed(),
        ensures
            final(self).well_formed(),
            old(self).released(*final(self), token),
            !final(self).holds(token),
    {
        let local = without_token(&self.local, token);
        let remote = without_token(&self.remote, token);
        self.local = local;
        self.remote = remote;
    }

    pub fn is_valid(&self, token: u64) -> (valid: bool)
        ensures
            valid == self.holds(token),
    {
        has_token(&self.local, token) || has_token(&self.remote, token)
    }
}

fn has_token(tokens: &Vec<u64>, token: u64) -> (found: bool)
    ensures
        found == tokens@.contains(token),
{
    let mut i: usize = 0;
    while i < tokens.len()
        invariant
            i <= tokens@.len(),
            forall|k: int| 0 <= k < i ==> tokens@[k] != token,
        decreases tokens@.len() - i,
    {
        if tokens[i] == token {
            assert(tokens@[i as int] == token);
            return true;
        }
        i = i + 1;
    }
    false
}

fn without_token(tokens: &Vec<u64>, token: u64) -> (kept: Vec<u64>)
    ensures
        kept@ == tokens_without(tokens@, token),
        !kept@.contains(token),
        kept@.len() <= tokens@.len(),
        forall|i: int| 0 <= i < kept@.len() ==> tokens@.contains(#[trigger] kept@[i]),
{
    let ghost p = other_than(token);
    let mut kept: Vec<u64> = Vec::new();
    let mut i: usize = 0;
    while i < tokens.len()
        invariant
            i <= tokens@.len(),
            p == other_than(token),
            kept@ == tokens@.take(i as int).filter(p),
            kept@.len() <= i,
            forall|k: int| 0 <= k < kept@.len() ==> kept@[k] != token && tokens@.contains(
                #[trigger] kept@[k],
            ),
        decreases tokens@.len() - i,
    {
        proof {
            reveal(Seq::filter);
            assert(tokens@.take(i + 1).drop_last() =~= tokens@.take(i as int));
        }
        if tokens[i] != token {
            assert(tokens@.contains(tokens@[i as int]));
            kept.push(tokens[i]);
        }
        i = i + 1;
    }
    assert(tokens@.take(i as int) =~= tokens@);
    kept
}

/// A listing that a connection is in the middle of.
#[derive(Debug, PartialEq, Eq)]
pub struct ConnectionListingSnapshot {
    pub rows: Vec<SessionListEntry>,
    pub offset: usize,
    pub expected_cursor: Option<String>,
    pub expires_at_ns: u128,
    pub incomplete: bool,
    pub token: u64,
}

impl ConnectionListingSnapshot {
    pub open spec fn well_formed(self) -> bool {
        self.offset <= self.rows@.len()
    }
}

/// How listings are handed out.
#[derive(Debug, PartialEq, Eq)]
pub struct ListingSettings {
    pub page_size: usize,
    pub snapshot_ttl_ns: u64,
    pub workspace: Option<SessionWorkspace>,
}

/// What a client asks for: a listing from its start, with the rows that were
/// gathered for it and whether any may be missing, or the page behind a cursor.
#[derive(Debug, PartialEq, Eq)]
pub enum ListStart {
    Fresh(Result<(Vec<SessionListEntry>, bool), SessionListPageError>),
    Continue(String),
}

pub open spec fn snapshot_well_formed(snapshot: Option<ConnectionListingSnapshot>) -> bool {
    snapshot matches Some(listing) ==> listing.well_formed()
}

/// Whether a listing may be served: it was not given up, has not run out, and
/// the cursor is the one that was handed out last.
pub open spec fn servable(
    registry: ListingSnapshotRegistry,
    listing: ConnectionListingSnapshot,
    cursor: Option<String>,
    now_ns: u64,
) -> bool {
    &&& registry.holds(listing.token)
    &&& now_ns < listing.expires_at_ns
    &&& cursor matches Some(cursor) ==> (listing.expected_cursor matches Some(expected)
        && expected@ == cursor@)
}

/// Where the page of a listing ends before it is known what fits.
pub open spec fn page_end(listing: ConnectionListingSnapshot, page_size: usize) -> int {
    if listing.offset + page_size < listing.rows@.len() {
        listing.offset + page_size
    } else {
        listing.rows@.len() as int
    }
}

/// Whether a page is the next of a listing.
pub open spec fn next_page(
    page: ListPage,
    settings: ListingSettings,
    listing: ConnectionListingSnapshot,
    request_id: String,
    trust: ConnectionTrust,
    cursor: String,
) -> bool {
    &&& page.request_id == request_id
    &&& page.workspace == match trust {
        ConnectionTrust::LocalOwner => settings.workspace,
        ConnectionTrust::RemotePaired => None,
    }
    &&& page.sessions@ == rendered_rows(
        listing.rows@.subrange(listing.offset as int, page_end(listing, settings.page_size)),
        trust,
    )
    &&& page.remaining == listing.rows@.len() - listing.offset
    &&& page.cursor == cursor
    &&& page.incomplete == listing.incomplete
}

/// What serving the next page comes to.
pub open spec fn page_served<F: Fn(&ServerMessage) -> Result<usize, String>>(
    settings: ListingSettings,
    listing: ConnectionListingSnapshot,
    request_id: String,
    trust: ConnectionTrust,
    cursor: String,
    max_frame_bytes: usize,
    measure: F,
    registry: ListingSnapshotRegistry,
    after: (ListingSnapshotRegistry, Option<ConnectionListingSnapshot>),
    result: Result<ServerMessage, SessionListPageError>,
) -> bool {
    exists|page: ListPage, fitting: Result<(ServerMessage, usize), String>|
        next_page(page, settings, listing, request_id, trust, cursor) && #[trigger] page.fitted(
            measure,
            max_frame_bytes,
            fitting,
        ) && page_settled(page, fitting, listing, registry, after, result)
}

/// Where a fitted page leaves the connection.
pub open spec fn page_settled(
    page: ListPage,
    fitting: Result<(ServerMessage, usize), String>,
    listing: ConnectionListingSnapshot,
    registry: ListingSnapshotRegistry,
    after: (ListingSnapshotRegistry, Option<ConnectionListingSnapshot>),
    result: Result<ServerMessage, SessionListPageError>,
) -> bool {
    match fitting {
        Err(text) => {
            &&& result == Err::<ServerMessage, _>(SessionListPageError::TooLarge(text))
            &&& after == (registry, Some(listing))
        },
        Ok((message, sent)) => {
            &&& result == Ok::<_, SessionListPageError>(message)
            &&& if sent < page.remaining {
                &&& after.0 == registry
                &&& after.1 matches Some(rest) && rest.offset == listing.offset + sent && rest == (
                ConnectionListingSnapshot {
                    offset: rest.offset,
                    expected_cursor: Some(page.cursor),
                    ..listing
                })
            } else {
                registry.released(after.0, listing.token) && after.1 is None
            }
        },
    }
}

/// Serves the next page of a listing that may be served.
fn serve_page<F: Fn(&ServerMessage) -> Result<usize, String>>(
    settings: &ListingSettings,
    registry: &mut ListingSnapshotRegistry,
    snapshot: &mut Option<ConnectionListingSnapshot>,
    listing: ConnectionListingSnapshot,
    request_id: String,
    trust: ConnectionTrust,
    cursor: String,
    max_frame_bytes: usize,
    measure: F,
) -> (result: Result<ServerMessage, SessionListPageError>)
    requires
        old(registry).well_formed(),
        listing.well_formed(),
        forall|message: &ServerMessage| #[trigger] measure.requires((message,)),
    ensures
        final(registry).well_formed(),
        snapshot_well_formed(*final(snapshot)),
        page_served(
            *settings,
            listing,
            request_id,
            trust,
            cursor,
            max_frame_bytes,
            measure,
            *old(registry),
            (*final(registry), *final(snapshot)),
            result,
        ),
{
    let left: usize = listing.rows.len() - listing.offset;
    let end: usize = if settings.page_size < left {
        listing.offset + settings.page_size
    } else {
        listing.rows.len()
    };
    let sessions = render_listing_rows(&listing.rows, listing.offset, end, trust);
    let workspace = match trust {
        ConnectionTrust::LocalOwner => match &settings.workspace {
            Some(workspace) => Some(workspace.clone()),
            None => None,
        },
        ConnectionTrust::RemotePaired => None,
    };
    let ghost given = listing;
    let page = ListPage {
        request_id,
        workspace,
        sessions,
        remaining: left,
        cursor: cursor.clone(),
        incomplete: listing.incomplete,
    };
    let ghost shown = page;
    assert(next_page(page, *settings, listing, request_id, trust, cursor));
    let fitting = fit_session_list_to_frame(page, max_frame_bytes, measure);
    assert(shown.fitted(measure, max_frame_bytes, fitting));
    match fitting {
        Err(text) => {
            *snapshot = Some(listing);
            Err(SessionListPageError::TooLarge(text))
        },
        Ok((message, sent)) => {
            if sent < left {
                let mut listing = listing;
                listing.offset = listing.offset + sent;
                listing.expected_cursor = Some(cursor);
                *snapshot = Some(listing);
            } else {
                registry.release(listing.token);
                *snapshot = None;
            }
            Ok(message)
        },
    }
}

/// A new listing gives up the one that the connection was in the middle of.
pub open spec fn replaced(
    earlier: Option<ConnectionListingSnapshot>,
    held: ListingSnapshotRegistry,
    kept: ListingSnapshotRegistry,
) -> bool {
    match earlier {
        Some(earlier) => held.released(kept, earlier.token),
        None => kept == held,
    }
}

/// What asking for a page comes to.
pub open spec fn page_answered<F: Fn(&ServerMessage) -> Result<usize, String>>(
    settings: ListingSettings,
    before: (ListingSnapshotRegistry, Option<ConnectionListingSnapshot>),
    request_id: String,
    start: ListStart,
    trust: ConnectionTrust,
    now_ns: u64,
    next_cursor: String,
    max_frame_bytes: usize,
    measure: F,
    after: (ListingSnapshotRegistry, Option<ConnectionListingSnapshot>),
    result: Result<ServerMessage, SessionListPageError>,
) -> bool {
    match start {
        ListStart::Fresh(Err(error)) => result == Err::<ServerMessage, _>(error) && after
            == before,
        ListStart::Fresh(Ok((rows, incomplete))) => exists|
            held: ListingSnapshotRegistry,
            kept: ListingSnapshotRegistry,
        |
            #![trigger before.0.registered(held, trust), replaced(before.1, held, kept)]
            {
                let listing = ConnectionListingSnapshot {
                    rows,
                    offset: 0,
                    expected_cursor: None,
                    expires_at_ns: (now_ns + settings.snapshot_ttl_ns) as u128,
                    incomplete,
                    token: before.0.next_token,
                };
                &&& before.0.registered(held, trust)
                &&& replaced(before.1, held, kept)
                &&& listing_answered(
                    settings,
                    kept,
                    listing,
                    request_id,
                    None,
                    trust,
                    now_ns,
                    next_cursor,
                    max_frame_bytes,
                    measure,
                    after,
                    result,
                )
            },
        ListStart::Continue(cursor) => match before.1 {
            None => result == Err::<ServerMessage, _>(SessionListPageError::InvalidCursor)
                && after == before,
            Some(listing) => listing_answered(
                settings,
                before.0,
                listing,
                request_id,
                Some(cursor),
                trust,
                now_ns,
                next_cursor,
                max_frame_bytes,
                measure,
                after,
                result,
            ),
        },
    }
}

/// What asking for a page of one listing comes to: a listing that may not be
/// served is given up, and the cursor refused.
pub open spec fn listing_answered<F: Fn(&ServerMessage) -> Result<usize, String>>(
    settings: ListingSettings,
    registry: ListingSnapshotRegistry,
    listing: ConnectionListingSnapshot,
    request_id: String,
    cursor: Option<String>,
    trust: ConnectionTrust,
    now_ns: u64,
    next_cursor: String,
    max_frame_bytes: usize,
    measure: F,
    after: (ListingSnapshotRegistry, Option<ConnectionListingSnapshot>),
    result: Result<ServerMessage, SessionListPageError>,
) -> bool {
    if servable(registry, listing, cursor, now_ns) {
        page_served(
            settings,
            listing,
            request_id,
            trust,
            next_cursor,
            max_frame_bytes,
            measure,
            registry,
            after,
            result,
        )
    } else {
        &&& result == Err::<ServerMessage, _>(SessionListPageError::InvalidCursor)
        &&& registry.released(after.0, listing.token)
        &&& after.1 is None
    }
}

fn answer_from<F: Fn(&ServerMessage) -> Result<usize, String>>(
    settings: &ListingSettings,
    registry: &mut ListingSnapshotRegistry,
    snapshot: &mut Option<ConnectionListingSnapshot>,
    listing: ConnectionListingSnapshot,
    request_id: String,
    cursor: Option<String>,
    trust: ConnectionTrust,
    now_ns: u64,
    next_cursor: String,
    max_frame_bytes: usize,
    measure: F,
) -> (result: Result<ServerMessage, SessionListPageError>)
    requires
        old(registry).well_formed(),
        listing.well_formed(),
        forall|message: &ServerMessage| #[trigger] measure.requires((message,)),
    ensures
        final(registry).well_formed(),
        snapshot_well_formed(*final(snapshot)),
        listing_answered(
            *settings,
            *old(registry),
            listing,
            request_id,
            cursor,
            trust,
            now_ns,
            next_cursor,
            max_frame_bytes,
            measure,
            (*final(registry), *final(snapshot)),
            result,
        ),
{
    let expected = match &cursor {
        None => true,
        Some(cursor) => match &listing.expected_cursor {
            Some(expected) => str_eq(expected.as_str(), cursor.as_str()),
            None => false,
        },
    };
    if !registry.is_valid(listing.token) || now_ns as u128 >= listing.expires_at_ns || !expected {
        registry.release(listing.token);
        *snapshot = None;
        return Err(SessionListPageError::InvalidCursor);
    }
    serve_page(
        settings,
        registry,
        snapshot,
        listing,
        request_id,
        trust,
        next_cursor,
        max_frame_bytes,
        measure,
    )
}

/// Answers a request for a page, with `next_cursor` as the cursor for the page
/// behind it.
pub fn list_page<F: Fn(&ServerMessage) -> Result<usize, String>>(
    settings: &ListingSettings,
    registry: &mut ListingSnapshotRegistry,
    snapshot: &mut Option<ConnectionListingSnapshot>,
    request_id: String,
    start: ListStart,
    trust: ConnectionTrust,
    now_ns: u64,
    next_cursor: String,
    max_frame_bytes: usize,
    measure: F,
) -> (result: Result<ServerMessage, SessionListPageError>)
    requires
        old(registry).well_formed(),
        old(registry).next_token < u64::MAX,
        snapshot_well_formed(*old(snapshot)),
        forall|message: &ServerMessage| #[trigger] measure.requires((message,)),
    ensures
        final(registry).well_formed(),
        snapshot_well_formed(*final(snapshot)),
        page_answered(
            *settings,
            (*old(registry), *old(snapshot)),
            request_id,
            start,
            trust,
            now_ns,
            next_cursor,
            max_frame_bytes,
            measure,
            (*final(registry), *final(snapshot)),
            result,
        ),
{
    match start {
        ListStart::Fresh(Err(error)) => Err(error),
        ListStart::Fresh(Ok((rows, incomplete))) => {
            let token: u64 = registry.register(trust);
            let ghost held = *registry;
            match snapshot.take() {
                Some(earlier) => {
                    registry.release(earlier.token);
                },
                None => {},
            }
            let ghost kept = *registry;
            let listing = ConnectionListingSnapshot {
                rows,
                offset: 0,
                expected_cursor: None,
                expires_at_ns: now_ns as u128 + settings.snapshot_ttl_ns as u128,
                incomplete,
                token,
            };
            assert(old(registry).registered(held, trust) && replaced(*old(snapshot), held, kept));
            answer_from(
                settings,
                registry,
                snapshot,
                listing,
                request_id,
                None,
                trust,
                now_ns,
                next_cursor,
                max_frame_bytes,
                measure,
            )
        },
        ListStart::Continue(cursor) => match snapshot.take() {
            None => Err(SessionListPageError::InvalidCursor),
            Some(listing) => answer_from(
                settings,
                registry,
                snapshot,
                listing,
                request_id,
                Some(cursor),
                trust,
                now_ns,
                next_cursor,
                max_frame_bytes,
                measure,
            ),
        },
    }
}

/// A cursor that was just made: `v1_` and a random UUID.
pub open spec fn fresh_cursor(cursor: Seq<char>) -> bool {
    cursor.len() == 39 && cursor.take(3) == "v1_"@ && uuid_text(cursor.skip(3))
}

/// Answers a request for a page under a new random cursor.
pub fn list_sessions_for_connection<F: Fn(&ServerMessage) -> Result<usize, String>>(
    settings: &ListingSettings,
    registry: &mut ListingSnapshotRegistry,
    snapshot: &mut Option<ConnectionListingSnapshot>,
    request_id: String,
    start: ListStart,
    trust: ConnectionTrust,
    now_ns: u64,
    max_frame_bytes: usize,
    measure: F,
) -> (result: Result<ServerMessage, SessionListPageError>)
    requires
        old(registry).well_formed(),
        old(registry).next_token < u64::MAX,
        snapshot_well_formed(*old(snapshot)),
        forall|message: &ServerMessage| #[trigger] measure.requires((message,)),
    ensures
        final(registry).well_formed(),
        snapshot_well_formed(*final(snapshot)),
        exists|next_cursor: String|
            #[trigger] fresh_cursor(next_cursor@) && page_answered(
                *settings,
                (*old(registry), *old(snapshot)),
                request_id,
                start,
                trust,
                now_ns,
                next_cursor,
                max_frame_bytes,
                measure,
                (*final(registry), *final(snapshot)),
                result,
            ),
{
    let uuid = fresh_uuid();
    let mut next_cursor = "v1_".to_owned();
    next_cursor.append(uuid.as_str());
    proof {
        reveal_strlit("v1_");
        assert(next_cursor@.take(3) =~= "v1_"@);
        assert(next_cursor@.skip(3) =~= uuid@);
        assert(fresh_cursor(next_cursor@));
    }
    list_page(
        settings,
        registry,
        snapshot,
        request_id,
        start,
        trust,
        now_ns,
        next_cursor,
        max_frame_bytes,
        measure,
    )
}

/// Pages cover a listing once and in order: a page shows the rows from where
/// the last one ended; where it hands out a cursor, at least one row came, and
/// the next page starts behind the rows that came; where it hands out none, the
/// last row came.
pub proof fn law_pages_cover_listing<F: Fn(&ServerMessage) -> Result<usize, String>>(
    settings: ListingSettings,
    listing: ConnectionListingSnapshot,
    request_id: String,
    trust: ConnectionTrust,
    cursor: String,
    max_frame_bytes: usize,
    measure: F,
    registry: ListingSnapshotRegistry,
    after: (ListingSnapshotRegistry, Option<ConnectionListingSnapshot>),
    message: ServerMessage,
)
    requires
        settings.page_size >= 1,
        listing.well_formed(),
        page_served(
            settings,
            listing,
            request_id,
            trust,
            cursor,
            max_frame_bytes,
            measure,
            registry,
            after,
            Ok(message),
        ),
    ensures
        message matches ServerMessage::SessionList { sessions, next_cursor, .. } && {
            let end = listing.offset + sessions@.len();
            &&& end <= listing.rows@.len()
            &&& sessions@ == rendered_rows(
                listing.rows@.subrange(listing.offset as int, end as int),
                trust,
            )
            &&& match next_cursor {
                Some(next) => {
                    &&& next == cursor
                    &&& sessions@.len() > 0
                    &&& end < listing.rows@.len()
                    &&& after.1 matches Some(rest) && rest.rows == listing.rows && rest.offset
                        == end && rest.expected_cursor == Some(cursor)
                },
                None => end == listing.rows@.len() && after.1 is None,
            }
        },
{
    let (page, fitting) = choose|page: ListPage, fitting: Result<(ServerMessage, usize), String>|
        next_page(page, settings, listing, request_id, trust, cursor) && #[trigger] page.fitted(
            measure,
            max_frame_bytes,
            fitting,
        ) && page_settled(page, fitting, listing, registry, after, Ok(message));
    let sent = fitting->Ok_0.1;
    let shown = listing.rows@.subrange(
        listing.offset as int,
        page_end(listing, settings.page_size),
    );
    assert(page.sent_as(message, sent as int));
    assert(rendered_rows(shown, trust).take(sent as int) =~= rendered_rows(
        listing.rows@.subrange(listing.offset as int, listing.offset + sent),
        trust,
    ));
}

} // verus!
