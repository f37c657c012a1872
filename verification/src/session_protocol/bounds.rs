//! What messages, option values and usage reports are held to.
use vstd::arithmetic::div_mod::{lemma_fundamental_div_mod, lemma_fundamental_div_mod_converse};
use vstd::prelude::*;
use crate::session_protocol::{
    bytes_check, first_exceeded, optional_bytes_check, same_event, usage_of, ClientInfo,
    ClientMessage, ContextBudgetError, LimitCheck, ProtocolLimits, ProtocolValidationError,
    RuntimeOption, RuntimeOptionSpec, RuntimeValue, SessionEvent,
};
use crate::text::utf8_len;

verus! {

broadcast use vstd::string::group_string_axioms;

/// Whether a text has no more bytes than a limit.
pub open spec fn fits(text: Seq<char>, max_bytes: usize) -> bool {
    utf8_len(text) <= max_bytes
}

pub open spec fn optional_fits(text: Option<String>, max_bytes: usize) -> bool {
    text matches Some(text) ==> fits(text@, max_bytes)
}

/// Whether a client introduces itself within the limits.
pub open spec fn introduction_fits(
    limits: ProtocolLimits,
    client: ClientInfo,
    session_id: Option<String>,
    ticket: Option<String>,
    capabilities: nat,
) -> bool {
    &&& fits(client.id@, limits.max_identifier_bytes)
    &&& fits(client.label@, limits.max_label_bytes)
    &&& optional_fits(session_id, limits.max_identifier_bytes)
    &&& optional_fits(ticket, limits.max_ticket_bytes)
    &&& capabilities <= limits.max_capabilities
}

/// Whether every part of a message is within its limit: ids and cursors within
/// that for identifiers, a prompt within its own, and so on.
pub open spec fn message_fits(limits: ProtocolLimits, message: ClientMessage) -> bool {
    match message {
        ClientMessage::Attach { session_id, ticket, client, requested_capabilities, .. } =>
            introduction_fits(limits, client, session_id, ticket, requested_capabilities@.len()),
        ClientMessage::Resume { session_id, ticket, client, requested_capabilities, .. } =>
            introduction_fits(
            limits,
            client,
            Some(session_id),
            ticket,
            requested_capabilities@.len(),
        ),
        ClientMessage::Prompt { request_id, text } => fits(
            request_id@,
            limits.max_identifier_bytes,
        ) && fits(text@, limits.max_prompt_bytes),
        ClientMessage::ApprovalResponse { approval_id, .. } => fits(
            approval_id@,
            limits.max_identifier_bytes,
        ),
        ClientMessage::Interrupt { request_id } => optional_fits(
            request_id,
            limits.max_identifier_bytes,
        ),
        ClientMessage::StopSession { request_id } => fits(request_id@, limits.max_identifier_bytes),
        ClientMessage::ClearHistory { request_id } => fits(
            request_id@,
            limits.max_identifier_bytes,
        ),
        ClientMessage::GetUsage { request_id } => fits(request_id@, limits.max_identifier_bytes),
        ClientMessage::ListSessions { request_id, cursor } => fits(
            request_id@,
            limits.max_identifier_bytes,
        ) && optional_fits(cursor, limits.max_identifier_bytes),
        ClientMessage::SetConfig { request_id, config_id, value } => {
            &&& optional_fits(request_id, limits.max_identifier_bytes)
            &&& fits(config_id@, limits.max_identifier_bytes)
            &&& value matches RuntimeValue::String(text) ==> fits(
                text@,
                limits.max_runtime_value_bytes,
            )
        },
        ClientMessage::SyncRequest { .. } => true,
        ClientMessage::Ping => true,
        ClientMessage::Detach => true,
    }
}

spec fn all_hold(checks: Seq<LimitCheck>) -> bool {
    forall|i: int| 0 <= i < checks.len() ==> !(#[trigger] checks[i]).exceeded()
}

proof fn lemma_verdict(checks: Seq<LimitCheck>, error: Option<ProtocolValidationError>)
    requires
        first_exceeded(checks, error),
    ensures
        error is None <==> all_hold(checks),
        error matches Some(error) ==> exists|i: int|
            0 <= i < checks.len() && (#[trigger] checks[i]).exceeded() && checks[i].reported_by(
                error,
            ),
    decreases checks.len(),
{
    if checks.len() > 0 && !checks[0].exceeded() {
        let rest = checks.drop_first();
        lemma_verdict(rest, error);
        if all_hold(rest) {
            assert forall|i: int| 0 <= i < checks.len() implies !(
            #[trigger] checks[i]).exceeded() by {
                if i > 0 {
                    assert(!rest[i - 1].exceeded());
                }
            }
        } else {
            let i = choose|i: int| 0 <= i < rest.len() && (#[trigger] rest[i]).exceeded();
            assert(checks[i + 1].exceeded());
        }
        if let Some(told) = error {
            let i = choose|i: int|
                0 <= i < rest.len() && (#[trigger] rest[i]).exceeded() && rest[i].reported_by(told);
            assert(checks[i + 1] == rest[i]);
        }
    }
}

proof fn lemma_all_hold_concat(left: Seq<LimitCheck>, right: Seq<LimitCheck>)
    ensures
        all_hold(left + right) <==> all_hold(left) && all_hold(right),
{
    let both = left + right;
    if all_hold(both) {
        assert forall|i: int| 0 <= i < left.len() implies !(#[trigger] left[i]).exceeded() by {
            assert(both[i] == left[i]);
        }
        assert forall|i: int| 0 <= i < right.len() implies !(#[trigger] right[i]).exceeded() by {
            assert(both[i + left.len()] == right[i]);
        }
    }
}

proof fn lemma_checks_hold(field: Seq<char>, text: Seq<char>, value: Option<String>, max: usize)
    ensures
        all_hold(bytes_check(field, text, max)) <==> fits(text, max),
        all_hold(optional_bytes_check(field, value, max)) <==> optional_fits(value, max),
        all_hold(seq![]),
{
    let check = bytes_check(field, text, max);
    assert(check[0].exceeded() == !fits(text, max));
    if let Some(value) = value {
        let check = bytes_check(field, value@, max);
        assert(check[0].exceeded() == !fits(value@, max));
    }
}

proof fn lemma_introduction_holds(
    limits: ProtocolLimits,
    prefix: (Seq<char>, Seq<char>, Seq<char>, Seq<char>),
    client: ClientInfo,
    session_id: Option<String>,
    ticket: Option<String>,
    capabilities: nat,
)
    ensures
        all_hold(
            limits.introduction_checks(prefix, client, session_id, ticket, capabilities),
        ) <==> introduction_fits(limits, client, session_id, ticket, capabilities),
{
    let id = bytes_check(prefix.0, client.id@, limits.max_identifier_bytes);
    let label = bytes_check(prefix.1, client.label@, limits.max_label_bytes);
    let session = optional_bytes_check(prefix.2, session_id, limits.max_identifier_bytes);
    let ticketed = optional_bytes_check(prefix.3, ticket, limits.max_ticket_bytes);
    let counted = seq![
        LimitCheck::Capabilities { count: capabilities, max: limits.max_capabilities as nat },
    ];
    lemma_checks_hold(prefix.0, client.id@, None, limits.max_identifier_bytes);
    lemma_checks_hold(prefix.1, client.label@, None, limits.max_label_bytes);
    lemma_checks_hold(prefix.2, seq![], session_id, limits.max_identifier_bytes);
    lemma_checks_hold(prefix.3, seq![], ticket, limits.max_ticket_bytes);
    assert(counted[0].exceeded() == (capabilities > limits.max_capabilities));
    lemma_all_hold_concat(id, label);
    lemma_all_hold_concat(id + label, session);
    lemma_all_hold_concat(id + label + session, ticketed);
    lemma_all_hold_concat(id + label + session + ticketed, counted);
}

/// How many capabilities a message asks for.
pub open spec fn requested(message: ClientMessage) -> nat {
    match message {
        ClientMessage::Attach { requested_capabilities, .. } => requested_capabilities@.len(),
        ClientMessage::Resume { requested_capabilities, .. } => requested_capabilities@.len(),
        _ => 0,
    }
}

/// A message is taken exactly if every part of it is within its limit, and what
/// is told of one that is not is a limit that it breaks.
pub proof fn law_messages_are_held_to_their_limits(
    limits: ProtocolLimits,
    message: ClientMessage,
    error: Option<ProtocolValidationError>,
)
    requires
        first_exceeded(limits.message_checks(message), error),
    ensures
        error is None <==> message_fits(limits, message),
        error matches Some(ProtocolValidationError::TooManyCapabilities { max }) ==> max
            == limits.max_capabilities && requested(message) > max,
        message matches ClientMessage::Prompt { request_id, text } ==> (error matches Some(
            ProtocolValidationError::FieldTooLarge { field, max_bytes },
        ) ==> if fits(request_id@, limits.max_identifier_bytes) {
            field@ == "prompt.text"@ && max_bytes == limits.max_prompt_bytes
        } else {
            field@ == "prompt.request_id"@ && max_bytes == limits.max_identifier_bytes
        }),
{
    let checks = limits.message_checks(message);
    lemma_verdict(checks, error);
    lemma_message_holds(limits, message);
    if let Some(told) = error {
        let i = choose|i: int|
            0 <= i < checks.len() && (#[trigger] checks[i]).exceeded() && checks[i].reported_by(
                told,
            );
        assert(checks[i].exceeded());
    }
    reveal_with_fuel(first_exceeded, 3);
    if let ClientMessage::Prompt { request_id, text } = message {
        let first = bytes_check("prompt.request_id"@, request_id@, limits.max_identifier_bytes);
        let second = bytes_check("prompt.text"@, text@, limits.max_prompt_bytes);
        assert(checks == first + second);
        assert(checks[0] == first[0]);
        assert(checks.drop_first() =~= second);
    }
}

proof fn lemma_message_holds(limits: ProtocolLimits, message: ClientMessage)
    ensures
        all_hold(limits.message_checks(message)) <==> message_fits(limits, message),
{
    let max = limits.max_identifier_bytes;
    match message {
        ClientMessage::Attach { session_id, ticket, client, requested_capabilities, .. } => {
            lemma_introduction_holds(
                limits,
                (
                    "attach.client.id"@,
                    "attach.client.label"@,
                    "attach.session_id"@,
                    "attach.ticket"@,
                ),
                client,
                session_id,
                ticket,
                requested_capabilities@.len(),
            );
        },
        ClientMessage::Resume { session_id, ticket, client, requested_capabilities, .. } => {
            lemma_introduction_holds(
                limits,
                (
                    "resume.client.id"@,
                    "resume.client.label"@,
                    "resume.session_id"@,
                    "resume.ticket"@,
                ),
                client,
                Some(session_id),
                ticket,
                requested_capabilities@.len(),
            );
        },
        ClientMessage::Prompt { request_id, text } => {
            lemma_checks_hold("prompt.request_id"@, request_id@, None, max);
            lemma_checks_hold("prompt.text"@, text@, None, limits.max_prompt_bytes);
            lemma_all_hold_concat(
                bytes_check("prompt.request_id"@, request_id@, max),
                bytes_check("prompt.text"@, text@, limits.max_prompt_bytes),
            );
        },
        ClientMessage::ApprovalResponse { approval_id, .. } => {
            lemma_checks_hold("approval_response.approval_id"@, approval_id@, None, max);
        },
        ClientMessage::Interrupt { request_id } => {
            lemma_checks_hold("interrupt.request_id"@, seq![], request_id, max);
        },
        ClientMessage::StopSession { request_id } => {
            lemma_checks_hold("stop_session.request_id"@, request_id@, None, max);
        },
        ClientMessage::ClearHistory { request_id } => {
            lemma_checks_hold("clear_history.request_id"@, request_id@, None, max);
        },
        ClientMessage::GetUsage { request_id } => {
            lemma_checks_hold("get_usage.request_id"@, request_id@, None, max);
        },
        ClientMessage::ListSessions { request_id, cursor } => {
            lemma_checks_hold("list_sessions.request_id"@, request_id@, None, max);
            lemma_checks_hold("list_sessions.cursor"@, seq![], cursor, max);
            lemma_all_hold_concat(
                bytes_check("list_sessions.request_id"@, request_id@, max),
                optional_bytes_check("list_sessions.cursor"@, cursor, max),
            );
        },
        ClientMessage::SetConfig { request_id, config_id, value } => {
            let requested = optional_bytes_check("set_config.request_id"@, request_id, max);
            let config = bytes_check("set_config.config_id"@, config_id@, max);
            lemma_checks_hold("set_config.request_id"@, seq![], request_id, max);
            lemma_checks_hold("set_config.config_id"@, config_id@, None, max);
            lemma_all_hold_concat(requested, config);
            match value {
                RuntimeValue::String(text) => {
                    lemma_checks_hold(
                        "set_config.value"@,
                        text@,
                        None,
                        limits.max_runtime_value_bytes,
                    );
                    lemma_all_hold_concat(
                        requested + config,
                        bytes_check("set_config.value"@, text@, limits.max_runtime_value_bytes),
                    );
                },
                _ => {
                    assert(requested + config + Seq::<LimitCheck>::empty() =~= requested + config);
                },
            }
        },
        _ => {},
    }
}

/// What values an option takes: of a choice, the id of one that is listed; of a
/// switch, either position; of a number, what lies in its range a whole number of
/// steps above the smallest. It takes nothing of another sort.
pub proof fn law_options_take_their_values(option: RuntimeOption, value: RuntimeValue)
    ensures
        match option.spec {
            RuntimeOptionSpec::Select { choices } => option.admits(value) <==> (value is String
                && exists|i: int|
                0 <= i < choices@.len() && (#[trigger] choices@[i]).id@ == value->String_0@),
            RuntimeOptionSpec::Boolean => option.admits(value) <==> value is Bool,
            RuntimeOptionSpec::Integer { min, max, step } => {
                &&& option.admits(value) ==> value is Integer && step > 0 && min
                    <= value->Integer_0 <= max && exists|k: int|
                    k >= 0 && value->Integer_0 == min + #[trigger] (k * step)
                &&& value is Integer && step > 0 && min <= value->Integer_0 <= max
                    && value->Integer_0 - min <= i64::MAX && (exists|k: int|
                    value->Integer_0 == min + #[trigger] (k * step)) ==> option.admits(value)
            },
        },
{
    if let RuntimeOptionSpec::Integer { min, max, step } = option.spec {
        if let RuntimeValue::Integer(number) = value {
            if step > 0 {
                let offset = number - min;
                lemma_fundamental_div_mod(offset, step as int);
                if option.admits(value) {
                    let k = offset / (step as int);
                    assert(k * step == step * k) by (nonlinear_arith);
                    assert(k >= 0) by (nonlinear_arith)
                        requires
                            offset >= 0,
                            step > 0,
                            k == offset / (step as int),
                    ;
                    assert(number == min + k * step);
                }
                if exists|k: int| number == min + #[trigger] (k * step) {
                    let k = choose|k: int| number == min + #[trigger] (k * step);
                    lemma_fundamental_div_mod_converse(offset, step as int, k, 0);
                }
            }
        }
    }
}

/// What a usage report says: the tokens in use, against the window and what is
/// set aside for the answer. The budget is the rest, where there is one. The share
/// of it in use is rounded down, in hundredths of a percent, and the whole where
/// more is in use. A window that the answer's share fills is told as an error.
pub proof fn law_usage_reports_the_share_in_use(
    prompt_tokens: u64,
    window: Option<u64>,
    reservation: u64,
    high_water_tokens: Option<u64>,
)
    ensures
        ({
            let usage = usage_of(prompt_tokens, window, reservation, high_water_tokens);
            let roomy = window is Some && reservation < window->0;
            &&& usage.prompt_tokens == prompt_tokens
            &&& !usage.estimated
            &&& usage.model_context_window == window
            &&& usage.output_reservation == reservation
            &&& usage.compaction_high_water_tokens == high_water_tokens
            &&& roomy ==> usage.effective_input_budget == Some((window->0 - reservation) as u64)
            &&& !roomy ==> usage.effective_input_budget is None
                && usage.utilization_basis_points is None
            &&& usage.budget_error == (if window is Some && !roomy {
                Some(ContextBudgetError::OutputReservationNotBelowWindow)
            } else {
                None
            })
            &&& roomy ==> ({
                let budget = window->0 - reservation;
                &&& usage.utilization_basis_points is Some
                &&& {
                    let share = usage.utilization_basis_points->0;
                    if prompt_tokens > budget {
                        share == 10_000
                    } else {
                        share * budget <= prompt_tokens * 10_000 < (share + 1) * budget
                    }
                }
            })
        }),
{
    if window is Some && reservation < window->0 {
        let budget = (window->0 - reservation) as nat;
        let scaled = (prompt_tokens as nat) * 10_000;
        lemma_fundamental_div_mod(scaled as int, budget as int);
        let share = scaled / budget;
        assert(share * budget == budget * share) by (nonlinear_arith);
        assert((share + 1) * budget == share * budget + budget) by (nonlinear_arith);
        assert(0 <= scaled as int % budget as int && (scaled as int % budget as int) < budget);
        if prompt_tokens > budget {
            assert(share >= 10_000) by (nonlinear_arith)
                requires
                    scaled == prompt_tokens * 10_000,
                    prompt_tokens > budget,
                    budget > 0,
                    share == scaled / budget,
            ;
        } else {
            assert(share <= 10_000) by (nonlinear_arith)
                requires
                    scaled == prompt_tokens * 10_000,
                    prompt_tokens <= budget,
                    budget > 0,
                    share == scaled / budget,
            ;
        }
    }
}

/// Events that are the same are equal, but for settings, of which the same are
/// told one by one.
pub proof fn law_same_events_tell_the_same(a: SessionEvent, b: SessionEvent)
    requires
        same_event(a, b),
    ensures
        !(a is RuntimeOptionsChanged) ==> a == b,
        a is RuntimeOptionsChanged <==> b is RuntimeOptionsChanged,
        a matches SessionEvent::RuntimeOptionsChanged { options } ==> (
        b matches SessionEvent::RuntimeOptionsChanged { options: others } && options@.len()
            == others@.len() && forall|i: int|
            0 <= i < options@.len() ==> {
                let one = #[trigger] options@[i];
                let other = others@[i];
                &&& one.id == other.id
                &&& one.label == other.label
                &&& one.value == other.value
                &&& one.default_value == other.default_value
                &&& one.mutable_while_running == other.mutable_while_running
                &&& one.help == other.help
                &&& one.spec matches RuntimeOptionSpec::Select { choices } ==> (
                other.spec matches RuntimeOptionSpec::Select { choices: offered } && choices@
                    == offered@)
                &&& !(one.spec is Select) ==> one.spec == other.spec
            }),
{
}

} // verus!
