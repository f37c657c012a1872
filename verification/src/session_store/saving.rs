//! What saves come to: who may write, which generation goes through, and what
//! loads afterwards.
use vstd::prelude::*;
use crate::providers::Message;
use crate::session_store::{
    captured_record, fresh_record, holds_epoch, loadable, loaded_record, safe_id,
    saved_quietly, saved_with_outcome, write_decision, written, PersistedSession, SaveCapture,
    SessionStore, SessionWriteOutcome, SessionWriter, WriteDecision,
};

verus! {

broadcast use vstd::string::group_string_axioms;

/// What happens to the writers of a store.
pub enum WriterStep {
    /// A session is claimed.
    Claim(SessionWriter),
    /// A session is deleted.
    Delete(Seq<char>),
    /// Anything that leaves the writers as they are: a save, an import, a
    /// refused claim, a deletion by a superseded writer.
    Other,
}

/// The effect of a step on the writers, as claims, deletions and saves state it.
pub open spec fn writers_stepped(
    before: SessionStore,
    after: SessionStore,
    step: WriterStep,
) -> bool {
    match step {
        WriterStep::Claim(writer) => after.writers_by_id() == before.writers_by_id().insert(
            writer.session_id@,
            writer,
        ),
        WriterStep::Delete(id) => after.writers_by_id() == before.writers_by_id().remove(id),
        WriterStep::Other => after.writers_by_id() == before.writers_by_id(),
    }
}

/// Whether a store went through the steps, one after the other.
pub open spec fn writer_course(stores: Seq<SessionStore>, steps: Seq<WriterStep>) -> bool {
    &&& stores.len() == steps.len() + 1
    &&& forall|k: int|
        0 <= k < steps.len() ==> writers_stepped(stores[k], stores[k + 1], #[trigger] steps[k])
}

/// Whether a step is about who writes a session.
pub open spec fn concerns(step: WriterStep, id: Seq<char>) -> bool {
    match step {
        WriterStep::Claim(writer) => writer.session_id@ == id,
        WriterStep::Delete(deleted) => deleted == id,
        WriterStep::Other => false,
    }
}

/// Whether the step in a place claims the session of a writer under its epoch,
/// and nothing later claims or deletes that session.
pub open spec fn latest_claim(steps: Seq<WriterStep>, k: int, writer: SessionWriter) -> bool {
    &&& 0 <= k < steps.len()
    &&& steps[k] matches WriterStep::Claim(claimed) && claimed.session_id@ == writer.session_id@
        && claimed.epoch@ == writer.epoch@
    &&& forall|l: int| k < l < steps.len() ==> !concerns(#[trigger] steps[l], writer.session_id@)
}

proof fn lemma_untouched(
    stores: Seq<SessionStore>,
    steps: Seq<WriterStep>,
    from: int,
    to: int,
    id: Seq<char>,
)
    requires
        writer_course(stores, steps),
        0 <= from <= to <= steps.len(),
        forall|l: int| from <= l < to ==> !concerns(#[trigger] steps[l], id),
    ensures
        stores[from].writers_by_id().contains_key(id) == stores[to].writers_by_id().contains_key(
            id,
        ),
        stores[to].writers_by_id().contains_key(id) ==> stores[to].writers_by_id()[id]
            == stores[from].writers_by_id()[id],
    decreases to - from,
{
    if from < to {
        lemma_untouched(stores, steps, from, to - 1, id);
        assert(!concerns(steps[to - 1], id));
        assert(writers_stepped(stores[to - 1], stores[to], steps[to - 1]));
    }
}

/// The last of the steps up to a place that concerns a session.
proof fn lemma_last_concern(steps: Seq<WriterStep>, to: int, id: Seq<char>) -> (last: Option<int>)
    requires
        0 <= to <= steps.len(),
    ensures
        match last {
            Some(k) => {
                &&& 0 <= k < to
                &&& concerns(steps[k], id)
                &&& forall|l: int| k < l < to ==> !concerns(#[trigger] steps[l], id)
            },
            None => forall|l: int| 0 <= l < to ==> !concerns(#[trigger] steps[l], id),
        },
    decreases to,
{
    if to == 0 {
        None
    } else if concerns(steps[to - 1], id) {
        Some(to - 1)
    } else {
        lemma_last_concern(steps, to - 1, id)
    }
}

/// Who writes a session is who claimed it last: from a store that nobody claimed
/// the session in, a writer is the active one if and only if the session was
/// claimed under its epoch, and neither claimed again nor deleted since.
pub proof fn law_latest_claim_writes(
    stores: Seq<SessionStore>,
    steps: Seq<WriterStep>,
    writer: SessionWriter,
)
    requires
        writer_course(stores, steps),
        !stores[0].writers_by_id().contains_key(writer.session_id@),
    ensures
        holds_epoch(stores.last(), writer) <==> exists|k: int|
            #[trigger] latest_claim(steps, k, writer),
{
    let id = writer.session_id@;
    let end = steps.len() as int;
    match lemma_last_concern(steps, end, id) {
        Some(k) => {
            assert(writers_stepped(stores[k], stores[k + 1], steps[k]));
            lemma_untouched(stores, steps, k + 1, end, id);
            if holds_epoch(stores.last(), writer) {
                assert(latest_claim(steps, k, writer));
            }
            if exists|other: int| #[trigger] latest_claim(steps, other, writer) {
                let other = choose|other: int| #[trigger] latest_claim(steps, other, writer);
                assert(concerns(steps[other], id));
                assert(other == k);
            }
        },
        None => {
            lemma_untouched(stores, steps, 0, end, id);
            if exists|other: int| #[trigger] latest_claim(steps, other, writer) {
                let other = choose|other: int| #[trigger] latest_claim(steps, other, writer);
                assert(concerns(steps[other], id));
            }
        },
    }
}

/// What a save of a claimed session under a generation comes to. It is
/// superseded if and only if the writer is not the active one; else it is stale
/// if and only if the stored generation is at least as high; else it goes
/// through, and the session loads with what was captured under this generation.
/// A save that does not go through changes nothing.
pub proof fn law_generation_save(
    before: SessionStore,
    after: SessionStore,
    writer: SessionWriter,
    generation: u64,
    capture: SaveCapture,
    max_preview_bytes: nat,
    now_unix_ns: u64,
    outcome: SessionWriteOutcome,
)
    requires
        safe_id(writer.session_id@),
        saved_with_outcome(
            before,
            after,
            writer.session_id@,
            capture,
            max_preview_bytes,
            Some(generation),
            Some(&writer),
            now_unix_ns,
            outcome,
        ),
    ensures
        ({
            let id = writer.session_id@;
            let rows = before.rows_by_id();
            let active = holds_epoch(before, writer);
            let stale = rows.contains_key(id) && generation <= rows[id].generation;
            &&& outcome is Superseded <==> !active
            &&& outcome is Stale <==> active && stale
            &&& outcome is Stale ==> outcome == (SessionWriteOutcome::Stale {
                stored_generation: rows[id].generation,
            })
            &&& outcome is Saved <==> active && !stale
            &&& if outcome is Saved {
                &&& loadable(after.rows_by_id(), id)
                &&& captured_record(loaded_record(after.rows_by_id(), id), id, capture)
                &&& loaded_record(after.rows_by_id(), id).generation == generation
            } else {
                after.unchanged(before)
            }
        }),
{
    let record = choose|record: PersistedSession|
        captured_record(record, writer.session_id@, capture) && #[trigger] written(
            before,
            after,
            record,
            max_preview_bytes,
            Some(generation),
            Some(&writer),
            now_unix_ns,
            outcome,
        );
    assert(record.session_id@ == writer.session_id@);
}

/// What a chat save comes to. Under a safe id that no writer claimed, and while
/// generations are left, the session loads with the model, the messages and the
/// working directory that were saved, no thinking level, no client ids and no
/// outcomes, in the current format and one generation on: the first one if it is
/// new. Under any other id nothing is stored or loads; a claimed session, and
/// one at the last generation, stay as they are.
pub proof fn law_chat_save_loads(
    before: SessionStore,
    after: SessionStore,
    id: Seq<char>,
    model: Seq<char>,
    messages: Vec<Message>,
    cwd: Option<Seq<char>>,
    now_unix_ns: u64,
)
    requires
        saved_quietly(before, after, id, model, messages, cwd, now_unix_ns),
    ensures
        ({
            let stored = before.rows_by_id();
            let rows = after.rows_by_id();
            let left = !stored.contains_key(id) || stored[id].generation < u64::MAX;
            if safe_id(id) && !before.writers_by_id().contains_key(id) && left {
                let loaded = loaded_record(rows, id);
                &&& loadable(rows, id)
                &&& fresh_record(loaded, id, model, None, messages, cwd)
                &&& loaded.client_user_message_ids@.len() == 0
                &&& loaded.assistant_outcomes@.len() == 0
                &&& loaded.generation == if stored.contains_key(id) {
                    stored[id].generation + 1
                } else {
                    1
                }
            } else {
                &&& after.unchanged(before)
                &&& !safe_id(id) ==> !loadable(rows, id)
            }
        }),
{
    if safe_id(id) {
        let (record, outcome) = choose|record: PersistedSession, outcome: SessionWriteOutcome|
            fresh_record(record, id, model, None, messages, cwd)
                && record.client_user_message_ids@.len() == 0 && record.assistant_outcomes@.len()
                == 0 && #[trigger] written(
                before,
                after,
                record,
                usize::MAX as nat,
                None,
                None,
                now_unix_ns,
                outcome,
            );
        assert(record.session_id@ == id);
        assert(match write_decision(
            before.rows_by_id(),
            before.writers_by_id(),
            id,
            None,
            None,
        ) {
            WriteDecision::Write { .. } => outcome is Saved,
            _ => after.unchanged(before),
        });
    }
}

} // verus!
