//! What a stored session is, how it is labelled and listed, and who may write it.
use vstd::prelude::*;

use crate::providers::{ContentBlock, Message, Role};
use crate::session_store::{
    block_preview, blocks_preview, captured_record, claim_error, cursor_id, has_text, import_error,
    line_end, listed_before, listing, listing_of, load_error, loadable, loaded_record, preview_of,
    readable, readable_between, safe_id, same_optional, same_record, stripped, summaries_of,
    user_preview, version_error, written, PersistedSession, SaveCapture, SessionStore,
    SessionStoreError, SessionSummary, SessionWriteOutcome, SessionWriter, StoredPayload, StoredRow,
    SESSION_PERSIST_VERSION,
};
use crate::text::{
    collapsed, fitting_chars, lemma_fitting_bounds, lemma_fitting_is_maximal,
    lemma_text_less_irreflexive, text_less, utf8_len, utf8_prefix,
};

verus! {

broadcast use vstd::string::group_string_axioms;

/// A safe id has letters, digits, hyphens and underscores, and at least one of
/// them; so it is no path and has no dots. Every such id is safe.
pub proof fn law_safe_ids_are_plain_names(id: Seq<char>)
    ensures
        safe_id(id) <==> id.len() > 0 && forall|i: int|
            0 <= i < id.len() ==> {
                ||| 'a' <= #[trigger] id[i] <= 'z'
                ||| 'A' <= id[i] <= 'Z'
                ||| '0' <= id[i] <= '9'
                ||| id[i] == '-'
                ||| id[i] == '_'
            },
        safe_id(id) ==> !id.contains('/') && !id.contains('.') && !id.contains('\\'),
{
    if safe_id(id) {
        assert forall|c: char| id.contains(c) implies c != '/' && c != '.' && c != '\\' by {
            let i = choose|i: int| 0 <= i < id.len() && id[i] == c;
            assert(id[i] == c);
        }
    }
    let plain = forall|i: int|
        0 <= i < id.len() ==> {
            ||| 'a' <= #[trigger] id[i] <= 'z'
            ||| 'A' <= id[i] <= 'Z'
            ||| '0' <= id[i] <= '9'
            ||| id[i] == '-'
            ||| id[i] == '_'
        };
    assert(plain && id.len() > 0 ==> safe_id(id));
}

/// Only a record of the current version is read. An older or a newer one is
/// told apart, with the version it has.
pub proof fn law_only_the_current_version_is_read(record: PersistedSession)
    ensures
        match version_error(record) {
            None => record.version == SESSION_PERSIST_VERSION,
            Some(SessionStoreError::FutureVersion { found, supported }) => found == record.version
                && supported == SESSION_PERSIST_VERSION && found > supported,
            Some(SessionStoreError::UnsupportedVersion { found, supported }) => found
                == record.version && supported == SESSION_PERSIST_VERSION && found < supported,
            Some(_) => false,
        },
{
}

/// The first line of a text has no line feed, and ends where the text does or
/// where the first line feed stands.
pub proof fn law_first_line_ends_at_the_first_feed(text: Seq<char>)
    ensures
        line_end(text) <= text.len(),
        forall|i: int| 0 <= i < line_end(text) ==> #[trigger] text[i] != '\n',
        line_end(text) < text.len() ==> text[line_end(text) as int] == '\n',
    decreases text.len(),
{
    if text.len() > 0 && text[0] != '\n' {
        let rest = text.drop_first();
        law_first_line_ends_at_the_first_feed(rest);
        assert forall|i: int| 0 <= i < line_end(text) implies #[trigger] text[i] != '\n' by {
            if i > 0 {
                assert(text[i] == rest[i - 1]);
            }
        }
        if line_end(text) < text.len() {
            assert(text[line_end(text) as int] == rest[line_end(rest) as int]);
        }
    }
}

/// The preview of a line is the longest beginning of its words that fits, save a
/// space that would fill the last byte. A line has none where nothing of it fits.
pub proof fn law_preview_is_the_longest_that_fits(line: Seq<char>, max_bytes: nat)
    ensures
        ({
            let words = collapsed(line);
            match preview_of(line, max_bytes) {
                Some(text) => {
                    let n = text.len() as int;
                    &&& 0 < n <= words.len()
                    &&& text == words.take(n)
                    &&& utf8_len(text) <= max_bytes
                    &&& n < words.len() ==> {
                        let longer = utf8_len(words.take(n + 1));
                        longer > max_bytes || longer == max_bytes && words[n] == ' '
                    }
                    &&& words[n - 1] == ' ' ==> utf8_len(text) < max_bytes
                },
                None => words.len() > 0 ==> utf8_len(words.take(1)) > max_bytes || utf8_len(
                    words.take(1),
                ) == max_bytes && words[0] == ' ',
            }
        }),
{
    let words = collapsed(line);
    let k = fitting_chars(words, max_bytes) as int;
    lemma_fitting_bounds(words, max_bytes);
    let cut = utf8_prefix(words, max_bytes);
    assert(cut == words.take(k));
    if k < words.len() {
        lemma_fitting_is_maximal(words, max_bytes, k + 1);
    }
    if cut.len() > 0 {
        assert(cut.drop_last() =~= words.take(k - 1));
        lemma_fitting_is_maximal(words, max_bytes, k - 1);
        assert(utf8_len(cut) > utf8_len(cut.drop_last()));
    }
}

/// Whether a block's first line gives a label.
pub open spec fn gives_label(block: ContentBlock, max_bytes: nat, label: Option<Seq<char>>) -> bool {
    match block {
        ContentBlock::Text(text) => label == preview_of(
            text@.take(line_end(text@) as int),
            max_bytes,
        ),
        _ => label is None,
    }
}

/// Whether a message is one that a user wrote text in.
pub open spec fn users_text(message: Message) -> bool {
    message.role == Role::User && exists|i: int|
        0 <= i < message.content@.len() && (#[trigger] message.content@[i]) is Text
}

/// A conversation is labelled by the first user message that has text: by the
/// first of its blocks that gives a label. Nothing that comes later, or from
/// elsewhere, labels it.
pub proof fn law_conversation_is_labelled_by_its_first_text(
    messages: Seq<Message>,
    max_bytes: nat,
) -> (found: (int, int))
    requires
        max_bytes > 0,
    ensures
        ({
            let (m, b) = found;
            let label = user_preview(messages, max_bytes);
            &&& 0 <= m <= messages.len()
            &&& forall|i: int| 0 <= i < m ==> !users_text(#[trigger] messages[i])
            &&& m == messages.len() ==> label is None
            &&& m < messages.len() ==> {
                let blocks = messages[m].content@;
                &&& users_text(messages[m])
                &&& 0 <= b <= blocks.len()
                &&& forall|j: int|
                    0 <= j < b ==> gives_label(#[trigger] blocks[j], max_bytes, None)
                &&& b == blocks.len() ==> label is None
                &&& b < blocks.len() ==> label is Some && gives_label(blocks[b], max_bytes, label)
            }
        }),
    decreases messages.len(),
{
    if messages.len() == 0 {
        (0, 0)
    } else {
        let first = messages[0];
        assert(users_text(first) <==> first.role == Role::User && has_text(first.content@));
        if users_text(first) {
            let b = lemma_first_block(first.content@, max_bytes);
            (0, b)
        } else {
            let rest = messages.drop_first();
            let (m, b) = law_conversation_is_labelled_by_its_first_text(rest, max_bytes);
            assert forall|i: int| 0 <= i < m + 1 implies !users_text(#[trigger] messages[i]) by {
                if i > 0 {
                    assert(messages[i] == rest[i - 1]);
                }
            }
            (m + 1, b)
        }
    }
}

proof fn lemma_first_block(blocks: Seq<ContentBlock>, max_bytes: nat) -> (b: int)
    ensures
        0 <= b <= blocks.len(),
        forall|j: int| 0 <= j < b ==> gives_label(#[trigger] blocks[j], max_bytes, None),
        b == blocks.len() ==> blocks_preview(blocks, max_bytes) is None,
        b < blocks.len() ==> blocks_preview(blocks, max_bytes) is Some && gives_label(
            blocks[b],
            max_bytes,
            blocks_preview(blocks, max_bytes),
        ),
    decreases blocks.len(),
{
    if blocks.len() == 0 {
        0
    } else if block_preview(blocks[0], max_bytes) is Some {
        0
    } else {
        let rest = blocks.drop_first();
        let b = lemma_first_block(rest, max_bytes);
        assert forall|j: int| 0 <= j < b + 1 implies gives_label(
            #[trigger] blocks[j],
            max_bytes,
            None,
        ) by {
            if j > 0 {
                assert(blocks[j] == rest[j - 1]);
            }
        }
        b + 1
    }
}

/// Whether a row can be listed: its record was read and is of this version.
pub open spec fn can_be_listed(row: StoredRow) -> bool {
    row.payload matches StoredPayload::Record(record) && record.version == SESSION_PERSIST_VERSION
}

/// Whether a summary says what a row holds.
pub open spec fn says_what_is_stored(
    summary: SessionSummary,
    row: StoredRow,
    max_preview_bytes: nat,
) -> bool {
    row.payload matches StoredPayload::Record(record) && {
        &&& summary.id@ == record.session_id@
        &&& summary.model@ == record.model@
        &&& summary.message_count == record.messages@.len()
        &&& summary.cwd == record.cwd
        &&& summary.updated_at == Some(row.updated_at_unix_ns)
        &&& match summary.first_user_line {
            Some(line) => user_preview(record.messages@, max_preview_bytes) == Some(line@),
            None => user_preview(record.messages@, max_preview_bytes) is None,
        }
    }
}

/// A listing has every session that can be read once, and no other. Each is
/// told as it is stored, the newest first and equally new ones by id.
pub proof fn law_listing_tells_every_readable_session(
    rows: Seq<StoredRow>,
    summaries: Seq<SessionSummary>,
    max_preview_bytes: nat,
) -> (order: Seq<int>)
    requires
        listing(rows, summaries, max_preview_bytes),
    ensures
        order.len() == summaries.len(),
        forall|i: int|
            #[trigger] order.contains(i) <==> 0 <= i < rows.len() && can_be_listed(rows[i]),
        forall|k: int, l: int| 0 <= k < l < order.len() ==> #[trigger] order[k] != #[trigger] order[l],
        forall|k: int|
            0 <= k < order.len() ==> says_what_is_stored(
                summaries[k],
                rows[#[trigger] order[k]],
                max_preview_bytes,
            ),
        forall|k: int, l: int|
            0 <= k < l < order.len() ==> {
                let a = rows[#[trigger] order[k]];
                let b = rows[#[trigger] order[l]];
                &&& a.updated_at_unix_ns >= b.updated_at_unix_ns
                &&& a.updated_at_unix_ns == b.updated_at_unix_ns ==> !text_less(
                    b.session_id@,
                    a.session_id@,
                )
            },
{
    let order = choose|order: Seq<int>|
        #[trigger] listing_of(rows, false, readable_between(rows, 0, rows.len() as int), order)
            && summaries_of(summaries, rows, order, max_preview_bytes);
    assert forall|i: int| #[trigger] order.contains(i) <==> 0 <= i < rows.len() && can_be_listed(
        rows[i],
    ) by {
        lemma_readable(rows, 0, rows.len() as int, i);
    }
    assert forall|k: int, l: int| 0 <= k < l < order.len() implies #[trigger] order[k]
        != #[trigger] order[l] by {
        assert(listed_before(rows, false, order[k], order[l]));
        lemma_text_less_irreflexive(rows[order[k]].session_id@);
    }
    assert forall|k: int| 0 <= k < order.len() implies says_what_is_stored(
        summaries[k],
        rows[#[trigger] order[k]],
        max_preview_bytes,
    ) by {
        assert(order.contains(order[k]));
    }
    assert forall|k: int, l: int| 0 <= k < l < order.len() implies {
        let a = rows[#[trigger] order[k]];
        let b = rows[#[trigger] order[l]];
        &&& a.updated_at_unix_ns >= b.updated_at_unix_ns
        &&& a.updated_at_unix_ns == b.updated_at_unix_ns ==> !text_less(
            b.session_id@,
            a.session_id@,
        )
    } by {
        assert(listed_before(rows, false, order[k], order[l]));
        let left = rows[order[k]].session_id@;
        let right = rows[order[l]].session_id@;
        if text_less(left, right) && text_less(right, left) {
            crate::text::lemma_text_less_transitive(left, right, left);
        }
        lemma_text_less_irreflexive(left);
    }
    order
}

proof fn lemma_readable(rows: Seq<StoredRow>, from: int, to: int, i: int)
    ensures
        readable_between(rows, from, to).contains(i) <==> from <= i < to && readable(rows[i]),
    decreases to - from,
{
    if from < to {
        lemma_readable(rows, from, to - 1, i);
        let earlier = readable_between(rows, from, to - 1);
        if readable(rows[to - 1]) {
            let all = earlier.push(to - 1);
            assert(all[earlier.len() as int] == to - 1);
            if earlier.contains(i) {
                let k = choose|k: int| 0 <= k < earlier.len() && earlier[k] == i;
                assert(all[k] == i);
            }
            if all.contains(i) && i != to - 1 {
                let k = choose|k: int| 0 <= k < all.len() && all[k] == i;
                assert(earlier[k] == i);
            }
        }
    }
}

/// A session is claimed under a safe id: one that is stored by who knows its
/// generation, one that is not by who expects none.
pub proof fn law_claims_need_the_stored_generation(
    rows: Map<Seq<char>, StoredRow>,
    id: Seq<char>,
    expected: Option<u64>,
)
    ensures
        match claim_error(rows, id, expected) {
            None => safe_id(id) && match expected {
                Some(generation) => rows.contains_key(id) && rows[id].generation == generation,
                None => !rows.contains_key(id),
            },
            Some(SessionStoreError::UnsafeId) => !safe_id(id),
            Some(SessionStoreError::AlreadyExists) => safe_id(id) && expected is None
                && rows.contains_key(id),
            Some(SessionStoreError::WriterChanged { expected: asked, found }) => {
                &&& safe_id(id)
                &&& expected == Some(asked)
                &&& rows.contains_key(id) ==> found == Some(rows[id].generation) && rows[id].generation
                    != asked
                &&& !rows.contains_key(id) ==> found is None
            },
            Some(_) => false,
        },
{
}

/// A session loads where it is stored under its own id and can be read, and then
/// as it was stored, with its row's generation. What does not load says why.
pub proof fn law_loading_gives_what_is_stored(
    rows: Map<Seq<char>, StoredRow>,
    id: Seq<char>,
    error: SessionStoreError,
)
    ensures
        loadable(rows, id) <==> safe_id(id) && rows.contains_key(id) && can_be_listed(rows[id])
            && rows[id].payload->Record_0.session_id@ == id,
        loadable(rows, id) ==> {
            let stored = rows[id].payload->Record_0;
            let loaded = loaded_record(rows, id);
            &&& loaded.generation == rows[id].generation
            &&& loaded.version == stored.version
            &&& loaded.session_id == stored.session_id
            &&& loaded.model == stored.model
            &&& loaded.thinking == stored.thinking
            &&& loaded.cwd == stored.cwd
            &&& loaded.client_user_message_ids == stored.client_user_message_ids
            &&& loaded.assistant_outcomes == stored.assistant_outcomes
            &&& loaded.messages == stored.messages
        },
        load_error(rows, id, error) ==> {
            &&& !loadable(rows, id)
            &&& error is UnsafeId <==> !safe_id(id)
            &&& error is NotFound <==> safe_id(id) && !rows.contains_key(id)
            &&& error is Corrupt <==> safe_id(id) && rows.contains_key(id)
                && rows[id].payload is Unreadable
            &&& error is FutureVersion <==> safe_id(id) && rows.contains_key(id) && (
            rows[id].payload matches StoredPayload::Record(record) && record.version
                > SESSION_PERSIST_VERSION)
            &&& error is UnsupportedVersion <==> safe_id(id) && rows.contains_key(id) && (
            rows[id].payload matches StoredPayload::Record(record) && record.version
                < SESSION_PERSIST_VERSION)
        },
{
}

/// An archived session is taken in where it is of this version, has a safe id,
/// and nothing is stored or claimed under it.
pub proof fn law_imports_replace_nothing(store: SessionStore, record: PersistedSession)
    ensures
        ({
            let id = record.session_id@;
            let taken = store.rows_by_id().contains_key(id) || store.writers_by_id().contains_key(
                id,
            );
            match import_error(store, record) {
                None => record.version == SESSION_PERSIST_VERSION && safe_id(id) && !taken,
                Some(SessionStoreError::FutureVersion { found, .. }) => found == record.version
                    && found > SESSION_PERSIST_VERSION,
                Some(SessionStoreError::UnsupportedVersion { found, .. }) => found
                    == record.version && found < SESSION_PERSIST_VERSION,
                Some(SessionStoreError::UnsafeId) => !safe_id(id),
                Some(SessionStoreError::AlreadyExists) => safe_id(id) && taken,
                Some(_) => false,
            }
        }),
{
}

/// A write changes the row of its session or nothing. It is made by the writer
/// who holds the session, or by one who claims nothing where nobody holds it,
/// under the generation asked for or else the next, and only where that is newer
/// than what is stored.
pub proof fn law_writes_are_made_by_their_holder(
    before: SessionStore,
    after: SessionStore,
    record: PersistedSession,
    max_preview_bytes: nat,
    requested: Option<u64>,
    writer: Option<&SessionWriter>,
    now_unix_ns: u64,
    outcome: SessionWriteOutcome,
    other: Seq<char>,
)
    requires
        written(
            before,
            after,
            record,
            max_preview_bytes,
            requested,
            writer,
            now_unix_ns,
            outcome,
        ),
    ensures
        ({
            let id = record.session_id@;
            let rows = before.rows_by_id();
            let writers = before.writers_by_id();
            let holds = match writer {
                Some(writer) => writers.contains_key(id) && writers[id].epoch@ == writer.epoch@,
                None => !writers.contains_key(id),
            };
            &&& outcome is Superseded <==> !holds
            &&& outcome matches SessionWriteOutcome::Stale { stored_generation } ==> holds
                && rows.contains_key(id) && stored_generation == rows[id].generation && match requested {
                Some(asked) => asked <= stored_generation,
                None => stored_generation == u64::MAX,
            }
            &&& outcome matches SessionWriteOutcome::Saved(write) ==> {
                let row = after.rows_by_id()[id];
                &&& holds
                &&& after.rows_by_id().contains_key(id)
                &&& requested matches Some(asked) ==> row.generation == asked
                &&& requested is None && rows.contains_key(id) ==> row.generation
                    == rows[id].generation + 1
                &&& requested is None && !rows.contains_key(id) ==> row.generation == 1
                &&& row.session_id@ == id
                &&& row.updated_at_unix_ns == now_unix_ns
                &&& write.updated_at_unix_ns == now_unix_ns
                &&& row.payload matches StoredPayload::Record(stored) && {
                    &&& stored.generation == row.generation
                    &&& stored.version == record.version
                    &&& stored.session_id == record.session_id
                    &&& stored.model == record.model
                    &&& stored.thinking == record.thinking
                    &&& stored.cwd == record.cwd
                    &&& stored.client_user_message_ids == record.client_user_message_ids
                    &&& stored.assistant_outcomes == record.assistant_outcomes
                    &&& stored.messages == record.messages
                }
                &&& says_what_is_stored(write.summary, row, max_preview_bytes)
                &&& row.preview matches Some(line) ==> user_preview(
                    record.messages@,
                    max_preview_bytes,
                ) == Some(line@)
                &&& row.preview is None ==> user_preview(record.messages@, max_preview_bytes)
                    is None
            }
            &&& !(outcome is Saved) ==> after.rows_by_id() == before.rows_by_id()
            &&& other != id ==> {
                &&& after.rows_by_id().contains_key(other) <==> rows.contains_key(other)
                &&& rows.contains_key(other) ==> after.rows_by_id()[other] == rows[other]
            }
            &&& after.writers_by_id() == writers
        }),
{
}

/// A captured session is stored with all that was captured, in the current
/// version, under its id.
pub proof fn law_capture_is_stored_whole(
    record: PersistedSession,
    id: Seq<char>,
    capture: SaveCapture,
)
    requires
        captured_record(record, id, capture),
    ensures
        record.version == SESSION_PERSIST_VERSION,
        record.session_id@ == id,
        record.model@ == capture.model@,
        record.thinking matches Some(thinking) && thinking@ == capture.thinking@,
        record.cwd matches Some(cwd) && cwd@ == capture.cwd@,
        record.messages == capture.messages,
        record.client_user_message_ids == capture.client_user_message_ids,
        record.assistant_outcomes == capture.assistant_outcomes,
{
}

/// A cursor that names a file stands for the session in it; any other stands for
/// itself.
pub proof fn law_cursor_names_a_session(name: Seq<char>)
    ensures
        stripped(name + ".json"@) == name,
        stripped(name) == name || stripped(name) + ".json"@ == name,
        name.len() < 5 ==> stripped(name) == name,
{
    reveal_strlit(".json");
    let file = name + ".json"@;
    assert(file.skip(file.len() - 5) =~= ".json"@);
    assert(file.take(file.len() - 5) =~= name);
    if name.len() >= 5 && name.skip(name.len() - 5) == ".json"@ {
        assert(name.take(name.len() - 5) + name.skip(name.len() - 5) =~= name);
    }
}

/// A text that may be missing is the same as another where both are there and
/// say the same, or both are missing.
pub proof fn law_missing_texts_are_missing(text: Option<String>, model: Option<Seq<char>>)
    ensures
        same_optional(text, model) ==> (text is Some <==> model is Some),
        same_optional(text, model) && text is Some ==> text->0@ == model->0,
{
}

/// A scan starts at the first session, or behind the one that its cursor names.
pub proof fn law_scan_starts_behind_its_cursor(after_name: Option<&str>)
    ensures
        after_name is None ==> cursor_id(after_name).len() == 0,
        after_name matches Some(name) ==> cursor_id(after_name) == stripped(name@),
{
}

/// Records that are the same say the same: of themselves, of their turns, and
/// message for message.
pub proof fn law_same_records_say_the_same(a: PersistedSession, b: PersistedSession, i: int)
    requires
        same_record(a, b),
    ensures
        a.version == b.version,
        a.generation == b.generation,
        a.session_id == b.session_id,
        a.model == b.model,
        a.thinking == b.thinking,
        a.cwd == b.cwd,
        a.client_user_message_ids@ == b.client_user_message_ids@,
        a.assistant_outcomes@ == b.assistant_outcomes@,
        a.messages@.len() == b.messages@.len(),
        0 <= i < a.messages@.len() ==> a.messages@[i].role == b.messages@[i].role
            && a.messages@[i].content@ == b.messages@[i].content@,
{
}

} // verus!
