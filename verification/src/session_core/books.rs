//! What the books of a session hold after its turns, and what they are kept for.
use vstd::prelude::*;
use crate::keyed::{lemma_pick_next, picked_from};
use crate::session_core::approval::ApprovalResolution;
use crate::session_core::provider_error::TurnResult;
use crate::session_core::{
    always_tools, config_error, has_request, id_recorded, ids_aligned, known_window, opening_events,
    option_place, prompt_usage, recorded_window, resolution_events, supported_change, turn_booked,
    ModelWindow, RuntimeChange, RuntimeConfigError, SessionCore,
};
use crate::session_protocol::{
    ApprovalDecision, AssistantOutcome, RuntimeOption, RuntimeValue, SessionEvent,
};

verus! {

broadcast use vstd::string::group_string_axioms;

/// The id that a turn is booked under: the client's own, or an empty one.
pub open spec fn booked_id(client_id: Option<String>) -> Seq<char> {
    match client_id {
        Some(id) => id@,
        None => seq![],
    }
}

/// A completed turn adds its outcome behind those of the earlier turns. Where
/// these are no more than the earlier user turns, every one stays in place;
/// where a compaction left fewer user turns, the newest stay, one for each.
pub proof fn law_turn_adds_its_outcome<W>(
    before: SessionCore<W>,
    after: SessionCore<W>,
    client_id: Option<String>,
    outcome: AssistantOutcome,
    user_turn_count: nat,
)
    requires
        turn_booked(before, after, client_id, outcome, user_turn_count),
    ensures
        ({
            let earlier = before.assistant_outcomes@;
            let now = after.assistant_outcomes@;
            &&& now.len() > 0 && now.last() == outcome
            &&& earlier.len() + 1 <= user_turn_count ==> now == earlier.push(outcome)
            &&& 0 < user_turn_count <= earlier.len() ==> now.len() == user_turn_count
            &&& user_turn_count == 0 ==> now.len() == 1
            &&& forall|k: int|
                1 <= k < now.len() ==> #[trigger] now[now.len() - 1 - k] == earlier[earlier.len()
                    - k]
        }),
{
}

/// A completed turn adds its id behind those of the earlier turns: there is one
/// id for each user turn, the newest is the turn's own, the ones before it are
/// those that were there, and where there were too few the oldest are empty.
pub proof fn law_turn_adds_its_id<W>(
    before: SessionCore<W>,
    after: SessionCore<W>,
    client_id: Option<String>,
    outcome: AssistantOutcome,
    user_turn_count: nat,
)
    requires
        turn_booked(before, after, client_id, outcome, user_turn_count),
    ensures
        ({
            let earlier = before.client_user_message_ids@;
            let now = after.client_user_message_ids@;
            &&& now.len() == user_turn_count
            &&& user_turn_count > 0 ==> now.last()@ == booked_id(client_id)
            &&& forall|k: int|
                1 <= k < now.len() ==> (#[trigger] now[now.len() - 1 - k])@ == if k <= earlier.len() {
                    earlier[earlier.len() - k]@
                } else {
                    seq![]
                }
        }),
{
    let earlier = before.client_user_message_ids@;
    let now = after.client_user_message_ids@;
    let id = choose|id: String|
        id@ == booked_id(client_id) && #[trigger] ids_aligned(
            earlier.push(id),
            now,
            user_turn_count,
        );
    assert(id_recorded(earlier, now, client_id, user_turn_count));
    let all = earlier.push(id);
    if all.len() < user_turn_count {
        let padding = (user_turn_count - all.len()) as int;
        assert(now.skip(padding)[all.len() - 1] == now.last());
        assert forall|k: int| 1 <= k < now.len() implies (#[trigger] now[now.len() - 1 - k])@
            == if k <= earlier.len() {
            earlier[earlier.len() - k]@
        } else {
            seq![]
        } by {
            if k <= earlier.len() {
                assert(now.skip(padding)[all.len() - 1 - k] == now[now.len() - 1 - k]);
            }
        }
    }
}

/// Whether a session went through turns one after the other, with no compaction
/// between them: each was one user turn more.
pub open spec fn turns_booked<W>(
    cores: Seq<SessionCore<W>>,
    ids: Seq<Option<String>>,
    outcomes: Seq<AssistantOutcome>,
) -> bool {
    &&& cores.len() == outcomes.len() + 1
    &&& ids.len() == outcomes.len()
    &&& cores[0].client_user_message_ids@.len() == 0
    &&& cores[0].assistant_outcomes@.len() == 0
    &&& forall|k: int|
        0 <= k < outcomes.len() ==> turn_booked(
            cores[k],
            cores[k + 1],
            ids[k],
            #[trigger] outcomes[k],
            (k + 1) as nat,
        )
}

/// A number of turns leaves that many outcomes and that many ids, each of its
/// turn and in the order of the turns.
pub proof fn law_turns_are_booked_in_order<W>(
    cores: Seq<SessionCore<W>>,
    ids: Seq<Option<String>>,
    outcomes: Seq<AssistantOutcome>,
)
    requires
        turns_booked(cores, ids, outcomes),
    ensures
        cores.last().assistant_outcomes@ == outcomes,
        cores.last().client_user_message_ids@.len() == outcomes.len(),
        forall|k: int|
            0 <= k < outcomes.len() ==> (#[trigger] cores.last().client_user_message_ids@[k])@
                == booked_id(ids[k]),
    decreases outcomes.len(),
{
    if outcomes.len() == 0 {
        assert(cores.last().assistant_outcomes@ =~= outcomes);
    } else {
        let count = outcomes.len() - 1;
        let cores_before = cores.drop_last();
        let ids_before = ids.drop_last();
        let outcomes_before = outcomes.drop_last();
        assert forall|k: int| 0 <= k < outcomes_before.len() implies turn_booked(
            cores_before[k],
            cores_before[k + 1],
            ids_before[k],
            #[trigger] outcomes_before[k],
            (k + 1) as nat,
        ) by {
            assert(outcomes_before[k] == outcomes[k]);
            assert(turn_booked(cores[k], cores[k + 1], ids[k], outcomes[k], (k + 1) as nat));
        }
        law_turns_are_booked_in_order(cores_before, ids_before, outcomes_before);
        assert(cores_before.last() == cores[count]);
        let before = cores[count];
        let after = cores[count + 1];
        assert(turn_booked(before, after, ids[count], outcomes[count], (count + 1) as nat));
        law_turn_adds_its_outcome(
            before,
            after,
            ids[count],
            outcomes[count],
            (count + 1) as nat,
        );
        law_turn_adds_its_id(before, after, ids[count], outcomes[count], (count + 1) as nat);
        assert(after.assistant_outcomes@ =~= outcomes);
        let now = after.client_user_message_ids@;
        let earlier = before.client_user_message_ids@;
        assert forall|k: int| 0 <= k < outcomes.len() implies (#[trigger] now[k])@ == booked_id(
            ids[k],
        ) by {
            if k < count {
                let back = count - k;
                assert(now[now.len() - 1 - back] == now[k]);
                assert(earlier[earlier.len() - back] == earlier[k]);
                assert(earlier[k]@ == booked_id(ids_before[k]));
            }
        }
    }
}

/// A prompt is taken once: the id of a booked turn is a completed request from
/// then on, and an id is one exactly if a booked turn has it.
pub proof fn law_booked_request_is_known<W>(
    before: SessionCore<W>,
    after: SessionCore<W>,
    client_id: Option<String>,
    outcome: AssistantOutcome,
    user_turn_count: nat,
    id: Seq<char>,
)
    requires
        turn_booked(before, after, client_id, outcome, user_turn_count),
    ensures
        user_turn_count > 0 ==> has_request(
            after.client_user_message_ids@,
            booked_id(client_id),
        ),
        has_request(after.client_user_message_ids@, id) <==> !(forall|i: int|
            0 <= i < after.client_user_message_ids@.len() ==> (
            #[trigger] after.client_user_message_ids@[i])@ != id),
        has_request(after.client_user_message_ids@, id) && id != booked_id(client_id) && id.len()
            > 0 ==> has_request(before.client_user_message_ids@, id),
{
    law_turn_adds_its_id(before, after, client_id, outcome, user_turn_count);
    let now = after.client_user_message_ids@;
    let earlier = before.client_user_message_ids@;
    if user_turn_count > 0 {
        assert(now[now.len() - 1]@ == booked_id(client_id));
    }
    if has_request(now, id) && id != booked_id(client_id) && id.len() > 0 {
        let i = choose|i: int| 0 <= i < now.len() && (#[trigger] now[i])@ == id;
        let k = now.len() - 1 - i;
        assert(now[now.len() - 1 - k]@ == id);
        assert(earlier[earlier.len() - k]@ == id);
    }
}

/// The window of a model is the one that was recorded first for it; where none
/// was, what the provider says counts if it is positive.
pub proof fn law_recorded_window_stands(
    windows: Seq<ModelWindow>,
    model: Seq<char>,
    resolved: Option<u64>,
)
    ensures
        match known_window(windows, model, resolved) {
            Some(window) => {
                ||| exists|i: int|
                    {
                        &&& 0 <= i < windows.len()
                        &&& (#[trigger] windows[i]).model@ == model
                        &&& windows[i].window == window
                        &&& forall|j: int| 0 <= j < i ==> (#[trigger] windows[j]).model@ != model
                    }
                ||| (forall|j: int| 0 <= j < windows.len() ==> (#[trigger] windows[j]).model@ != model)
                    && resolved == Some(window) && window > 0
            },
            None => (forall|j: int|
                0 <= j < windows.len() ==> (#[trigger] windows[j]).model@ != model) && (
            resolved is None || resolved == Some(0u64)),
        },
    decreases windows.len(),
{
    if windows.len() > 0 && windows[0].model@ != model {
        let rest = windows.drop_first();
        law_recorded_window_stands(rest, model, resolved);
        assert(recorded_window(windows, model) == recorded_window(rest, model));
        if exists|j: int| 0 <= j < rest.len() && (#[trigger] rest[j]).model@ == model {
            if exists|i: int|
                {
                    &&& 0 <= i < rest.len()
                    &&& (#[trigger] rest[i]).model@ == model
                    &&& rest[i].window == known_window(windows, model, resolved)->0
                    &&& forall|j: int| 0 <= j < i ==> (#[trigger] rest[j]).model@ != model
                } {
                let i = choose|i: int|
                    {
                        &&& 0 <= i < rest.len()
                        &&& (#[trigger] rest[i]).model@ == model
                        &&& rest[i].window == known_window(windows, model, resolved)->0
                        &&& forall|j: int| 0 <= j < i ==> (#[trigger] rest[j]).model@ != model
                    };
                assert(windows[i + 1] == rest[i]);
                assert forall|j: int| 0 <= j < i + 1 implies (#[trigger] windows[j]).model@
                    != model by {
                    if j > 0 {
                        assert(rest[j - 1].model@ != model);
                    }
                }
            }
        } else {
            assert forall|j: int| 0 <= j < windows.len() implies (#[trigger] windows[j]).model@
                != model by {
                if j > 0 {
                    assert(rest[j - 1].model@ != model);
                }
            }
        }
    }
}

proof fn lemma_place(options: Seq<RuntimeOption>, id: Seq<char>)
    ensures
        match option_place(options, id) {
            Some(at) => {
                &&& 0 <= at < options.len()
                &&& options[at].id@ == id
                &&& forall|j: int| 0 <= j < at ==> (#[trigger] options[j]).id@ != id
            },
            None => forall|j: int| 0 <= j < options.len() ==> (#[trigger] options[j]).id@ != id,
        },
    decreases options.len(),
{
    if options.len() > 0 && options[0].id@ != id {
        let rest = options.drop_first();
        lemma_place(rest, id);
        match option_place(rest, id) {
            Some(at) => {
                assert forall|j: int| 0 <= j < at + 1 implies (#[trigger] options[j]).id@
                    != id by {
                    if j > 0 {
                        assert(rest[j - 1].id@ != id);
                    }
                }
            },
            None => {
                assert forall|j: int| 0 <= j < options.len() implies (#[trigger] options[j]).id@
                    != id by {
                    if j > 0 {
                        assert(rest[j - 1].id@ != id);
                    }
                }
            },
        }
    }
}

/// When a change of configuration goes through: the option exists, it takes the
/// value, no turn runs or it may change meanwhile, and it is the model or the
/// thinking level, given as text. Each refusal names the first of these that
/// fails.
pub proof fn law_configuration_changes(
    options: Seq<RuntimeOption>,
    config_id: Seq<char>,
    value: RuntimeValue,
    turn_active: bool,
    at: int,
)
    requires
        0 <= at <= options.len(),
        forall|j: int| 0 <= j < at ==> (#[trigger] options[j]).id@ != config_id,
        at < options.len() ==> options[at].id@ == config_id,
    ensures
        ({
            let refused = config_error(options, config_id, value, turn_active);
            let known = at < options.len();
            let taken = known && options[at].admits(value);
            let free = taken && (!turn_active || options[at].mutable_while_running);
            let named = config_id == "model"@ || config_id == "thinking"@;
            &&& refused == Some(RuntimeConfigError::UnknownOption) <==> !known
            &&& refused == Some(RuntimeConfigError::InvalidValue) <==> known && !taken
            &&& refused == Some(RuntimeConfigError::Busy) <==> taken && !free
            &&& refused == Some(RuntimeConfigError::UnsupportedOption) <==> free && !(value is String
                && named)
            &&& refused is None <==> free && value is String && named
            &&& refused is None && config_id == "model"@ ==> supported_change(config_id, value)
                == Some(RuntimeChange::Model(value->String_0))
            &&& refused is None && config_id == "thinking"@ ==> supported_change(config_id, value)
                == Some(RuntimeChange::Thinking(value->String_0))
        }),
{
    reveal_strlit("model");
    reveal_strlit("thinking");
    assert("model"@ != "thinking"@) by {
        assert("model"@.len() == 5);
        assert("thinking"@.len() == 8);
    }
    lemma_place(options, config_id);
    if let Some(found) = option_place(options, config_id) {
        if found < at {
            assert(options[found].id@ != config_id);
        }
        if at < found {
            assert(options[at].id@ != config_id);
        }
    } else if at < options.len() {
        assert(options[at].id@ != config_id);
    }
}

/// A prompt opens its turn with the user's message under its request id; where
/// the reply has a prefix that follows as the assistant's, and nothing else does.
pub proof fn law_prompt_opens_with_its_message(
    text: String,
    request_id: Option<String>,
    prefix: Option<String>,
)
    ensures
        ({
            let events = opening_events(text, request_id, prefix);
            &&& events.len() == if prefix is Some {
                2
            } else {
                1int
            }
            &&& events[0] matches SessionEvent::UserMessage { text: told, request_id: under }
                && told == text && under == request_id
            &&& prefix matches Some(prefix) ==> (events[1] matches SessionEvent::AssistantDelta {
                text: told,
            } && told == prefix)
        }),
{
}

/// What a cancelled turn remembers for good are exactly the tools of the answers
/// that allow them always, in the order of the answers.
pub proof fn law_always_answers_are_remembered(resolutions: Seq<ApprovalResolution>) -> (places:
    Seq<int>)
    ensures
        picked_from(
            always_tools(resolutions),
            resolutions.map_values(|resolution: ApprovalResolution| resolution.tool),
            places,
        ),
        forall|i: int|
            0 <= i < resolutions.len() ==> (#[trigger] places.contains(i) <==> (
            resolutions[i].decision is AllowAlways)),
    decreases resolutions.len(),
{
    let tools = resolutions.map_values(|resolution: ApprovalResolution| resolution.tool);
    if resolutions.len() == 0 {
        seq![]
    } else {
        let rest = resolutions.drop_last();
        let before = law_always_answers_are_remembered(rest);
        let tools_before = rest.map_values(|resolution: ApprovalResolution| resolution.tool);
        lemma_pick_next(always_tools(rest), tools_before, before, resolutions.last().tool);
        assert(tools_before.push(resolutions.last().tool) =~= tools);
        let places = if resolutions.last().decision == ApprovalDecision::AllowAlways {
            before.push(rest.len() as int)
        } else {
            before
        };
        assert forall|i: int| 0 <= i < resolutions.len() implies (#[trigger] places.contains(i)
            <==> (resolutions[i].decision is AllowAlways)) by {
            if i < rest.len() {
                assert(before.contains(i) <==> (rest[i].decision is AllowAlways));
            } else if before.contains(i) {
                let k = choose|k: int| 0 <= k < before.len() && before[k] == i;
                assert(before[k] < rest.len());
            }
        }
        places
    }
}

/// The usage that a turn leaves counts what its last call read and wrote, at most
/// what 64 bits hold. A change of model leaves what was counted last, and an
/// estimate only where nothing was.
pub proof fn law_usage_counts_the_last_call<W>(
    core: SessionCore<W>,
    turn: TurnResult,
    context_window: Option<u64>,
    high_water_tokens: Option<u64>,
    estimated: u64,
)
    ensures
        ({
            let usage = prompt_usage(core.compaction, turn, context_window, high_water_tokens);
            let counted = turn.last_call_prompt_tokens + turn.last_call_output_tokens;
            &&& counted <= u64::MAX ==> usage.prompt_tokens == counted
            &&& counted > u64::MAX ==> usage.prompt_tokens == u64::MAX
            &&& usage.model_context_window == context_window
        }),
        core.current_context_usage matches Some(usage) ==> core.carried(estimated)
            == usage.prompt_tokens,
        core.current_context_usage is None ==> core.carried(estimated) == estimated,
{
}

/// Every answer is told, in the order in which they were given.
pub proof fn law_answers_are_told_in_order(resolutions: Seq<ApprovalResolution>, i: int)
    requires
        0 <= i < resolutions.len(),
    ensures
        resolution_events(resolutions).len() == resolutions.len(),
        resolution_events(resolutions)[i] matches SessionEvent::ApprovalResolved {
            approval_id,
            decision,
            ..
        } && approval_id@ == resolutions[i].approval_id@ && decision == resolutions[i].decision,
{
}

} // verus!
