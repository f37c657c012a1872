//! Privacy-safe classification of provider failures.
use vstd::prelude::*;
use vstd::string::*;
use crate::session_protocol::AssistantOutcome;
use crate::text::{
    append_chars, ascii_alphanumeric, ascii_lower, byte_len, chars_of, collapse_whitespace,
    collapsed, contains_text, has_prefix, is_ascii_alphanumeric, is_digit, is_whitespace,
    lemma_fitting_bounds, lemma_utf8_len_concat, lowercase, lowercase_chars, matches_at, occurs,
    occurs_at, prefix_within, starts_with, string_of, utf8_len, utf8_prefix, whitespace,
};

verus! {

broadcast use vstd::string::group_string_axioms;

/// Whether `s[from..to]` is one of the pieces between separators that are not ASCII alphanumeric.
pub open spec fn is_piece(s: Seq<char>, from: int, to: int) -> bool {
    &&& 0 <= from <= to <= s.len()
    &&& from == 0 || !ascii_alphanumeric(s[from - 1])
    &&& to == s.len() || !ascii_alphanumeric(s[to])
    &&& forall|i: int| from <= i < to ==> ascii_alphanumeric(#[trigger] s[i])
}

/// Whether `token` is one of the alphanumeric pieces of `s`.
pub open spec fn has_token(s: Seq<char>, token: Seq<char>) -> bool {
    exists|from: int, to: int| #[trigger] is_piece(s, from, to) && s.subrange(from, to) == token
}

pub fn error_has_token(error: &str, token: &str) -> (found: bool)
    ensures
        found == has_token(error@, token@),
{
    token_in(chars_of(error).as_slice(), chars_of(token).as_slice())
}

fn token_in(error: &[char], token: &[char]) -> (found: bool)
    ensures
        found == has_token(error@, token@),
{
    let mut start: usize = 0;
    loop
        invariant
            start <= error@.len(),
            start == 0 || !ascii_alphanumeric(error@[start - 1]),
            forall|from: int, to: int|
                #[trigger] is_piece(error@, from, to) && from < start ==> error@.subrange(from, to)
                    != token@,
        decreases error@.len() - start,
    {
        let mut end: usize = start;
        while end < error.len() && is_ascii_alphanumeric(error[end])
            invariant
                start <= end <= error@.len(),
                forall|i: int| start <= i < end ==> ascii_alphanumeric(#[trigger] error@[i]),
            decreases error@.len() - end,
        {
            end = end + 1;
        }
        assert(is_piece(error@, start as int, end as int));
        if end - start == token.len() && matches_at(error, token, start) {
            return true;
        }
        assert(error@.subrange(start as int, end as int) != token@);
        assert forall|from: int, to: int| #[trigger]
            is_piece(error@, from, to) && from < end + 1 implies error@.subrange(from, to)
            != token@ by {
            if from > start {
                assert(ascii_alphanumeric(error@[from - 1]));
            } else if from == start {
                if to < end {
                    assert(ascii_alphanumeric(error@[to]));
                } else if to > end {
                    assert(ascii_alphanumeric(error@[end as int]));
                }
            }
        }
        if end == error.len() {
            assert(!has_token(error@, token@));
            return false;
        }
        start = end + 1;
    }
}

/// The alphanumeric characters of a text.
pub open spec fn compact(s: Seq<char>) -> Seq<char> {
    s.filter(|c: char| ascii_alphanumeric(c))
}

/// Whether one of the successive occurrences of `needle` from `from` on is not followed by a digit.
pub open spec fn unextended_match(s: Seq<char>, needle: Seq<char>, from: int) -> bool
    decreases s.len() - from,
{
    if needle.len() == 0 || from < 0 || from + needle.len() > s.len() {
        false
    } else if occurs_at(s, needle, from) {
        from + needle.len() == s.len() || !is_digit(s[from + needle.len() as int])
            || unextended_match(s, needle, from + needle.len() as int)
    } else {
        unextended_match(s, needle, from + 1)
    }
}

/// Whether a text names an HTTP status: as a word of its own, or run together
/// with `http`, `api` or `status` in front.
pub open spec fn names_status(s: Seq<char>, status: Seq<char>) -> bool {
    ||| has_token(s, status)
    ||| unextended_match(compact(s), "http"@ + status, 0)
    ||| unextended_match(compact(s), "api"@ + status, 0)
    ||| unextended_match(compact(s), "status"@ + status, 0)
}

fn compact_chars(chars: &[char]) -> (out: Vec<char>)
    ensures
        out@ == compact(chars@),
{
    let mut out: Vec<char> = Vec::new();
    let mut i: usize = 0;
    let ghost keep = |c: char| ascii_alphanumeric(c);
    assert(chars@.take(0).filter(keep) =~= Seq::<char>::empty()) by {
        reveal(Seq::filter);
    }
    while i < chars.len()
        invariant
            i <= chars@.len(),
            keep == (|c: char| ascii_alphanumeric(c)),
            out@ == chars@.take(i as int).filter(keep),
        decreases chars@.len() - i,
    {
        proof {
            assert(chars@.take(i + 1).drop_last() =~= chars@.take(i as int));
            reveal(Seq::filter);
        }
        if is_ascii_alphanumeric(chars[i]) {
            out.push(chars[i]);
        }
        i = i + 1;
    }
    assert(chars@.take(chars@.len() as int) =~= chars@);
    out
}

fn has_unextended(compacted: &[char], prefix: &str, status: &[char]) -> (found: bool)
    requires
        prefix@.len() > 0,
    ensures
        found == unextended_match(compacted@, prefix@ + status@, 0),
{
    let mut needle = chars_of(prefix);
    append_chars(&mut needle, status, 0, status.len());
    assert(needle@ =~= prefix@ + status@);
    let mut from: usize = 0;
    while from <= compacted.len() && needle.len() <= compacted.len() - from
        invariant
            from <= compacted@.len(),
            needle@ == prefix@ + status@,
            needle@.len() > 0,
            unextended_match(compacted@, needle@, 0) == unextended_match(
                compacted@,
                needle@,
                from as int,
            ),
        decreases compacted@.len() - from,
    {
        if matches_at(compacted, needle.as_slice(), from) {
            let next: usize = from + needle.len();
            if next == compacted.len() || !(compacted[next] >= '0' && compacted[next] <= '9') {
                return true;
            }
            from = next;
        } else {
            from = from + 1;
        }
    }
    false
}

pub fn error_has_http_status(error: &str, status: &str) -> (found: bool)
    ensures
        found == names_status(error@, status@),
{
    status_in(chars_of(error).as_slice(), status)
}

fn status_in(error: &[char], status: &str) -> (found: bool)
    ensures
        found == names_status(error@, status@),
{
    let status = chars_of(status);
    if token_in(error, status.as_slice()) {
        return true;
    }
    let compacted = compact_chars(error);
    proof {
        reveal_strlit("http");
        reveal_strlit("api");
        reveal_strlit("status");
    }
    has_unextended(compacted.as_slice(), "http", status.as_slice()) || has_unextended(
        compacted.as_slice(),
        "api",
        status.as_slice(),
    ) || has_unextended(compacted.as_slice(), "status", status.as_slice())
}

/// Joins words that are written with underscores, hyphens or backquotes.
pub open spec fn word_separated(s: Seq<char>) -> Seq<char> {
    s.map_values(
        |c: char|
            if c == '_' || c == '-' || c == '`' {
                ' '
            } else {
                c
            },
    )
}

/// The text that failure phrases are looked up in.
pub open spec fn normalized_error(lower: Seq<char>) -> Seq<char> {
    collapsed(word_separated(lower))
}

fn normalize_error(lower: &[char]) -> (out: Vec<char>)
    ensures
        out@ == normalized_error(lower@),
{
    let mut separated: Vec<char> = Vec::new();
    let mut i: usize = 0;
    while i < lower.len()
        invariant
            i <= lower@.len(),
            separated@ == word_separated(lower@.take(i as int)),
        decreases lower@.len() - i,
    {
        let c: char = lower[i];
        separated.push(
            if c == '_' || c == '-' || c == '`' {
                ' '
            } else {
                c
            },
        );
        assert(separated@ =~= word_separated(lower@.take(i + 1)));
        i = i + 1;
    }
    assert(lower@.take(lower@.len() as int) =~= lower@);
    collapse_whitespace(separated.as_slice())
}

/// The kinds of provider failure that clients are told apart.
#[derive(Debug, Clone, Copy, PartialEq, Eq, Structural)]
pub enum ProviderErrorClass {
    ContextExceeded,
    InvalidToolHistory,
    Billing,
    Authentication,
    Authorization,
    RateLimit,
    Timeout,
    Network,
    InvalidResponse,
    Stream,
    Other,
}

pub open spec fn says_context_exceeded(normalized: Seq<char>) -> bool {
    ||| occurs(normalized, "prompt is too long"@)
    ||| occurs(normalized, "exceed context limit"@)
    ||| occurs(normalized, "maximum context length"@)
    ||| occurs(normalized, "context overflow"@)
    ||| occurs(normalized, "context length exceeded"@)
    ||| occurs(normalized, "context window exceeded"@)
    ||| occurs(normalized, "context window was exceeded"@)
}

pub open spec fn says_invalid_tool_history(lower: Seq<char>, normalized: Seq<char>) -> bool {
    names_status(lower, "400"@) && occurs(
        normalized,
        "tool use ids were found without tool result blocks"@,
    )
}

pub open spec fn says_billing(lower: Seq<char>, normalized: Seq<char>) -> bool {
    ||| names_status(lower, "402"@)
    ||| occurs(normalized, "insufficient credit"@)
    ||| occurs(normalized, "payment required"@)
}

pub open spec fn says_authentication(lower: Seq<char>, normalized: Seq<char>) -> bool {
    ||| names_status(lower, "401"@)
    ||| occurs(normalized, "authentication"@)
    ||| occurs(normalized, "invalid api key"@)
    ||| occurs(normalized, "unauthorized"@)
    ||| occurs(normalized, "not authorized"@)
}

pub open spec fn says_authorization(lower: Seq<char>, normalized: Seq<char>) -> bool {
    ||| names_status(lower, "403"@)
    ||| occurs(normalized, "permission denied"@)
    ||| occurs(normalized, "forbidden"@)
    ||| occurs(normalized, "authorization failed"@)
    ||| occurs(normalized, "authorization error"@)
}

pub open spec fn says_rate_limit(lower: Seq<char>, normalized: Seq<char>) -> bool {
    names_status(lower, "429"@) || occurs(normalized, "rate limit"@)
}

pub open spec fn says_timeout(normalized: Seq<char>) -> bool {
    ||| occurs(normalized, "timeout"@)
    ||| occurs(normalized, "timed out"@)
    ||| occurs(normalized, "time out"@)
}

pub open spec fn says_network(normalized: Seq<char>) -> bool {
    ||| occurs(normalized, "network"@)
    ||| occurs(normalized, "connection"@)
    ||| occurs(normalized, "upstream"@)
}

pub open spec fn says_invalid_response(normalized: Seq<char>) -> bool {
    occurs(normalized, "parse"@) || occurs(normalized, "decode"@)
}

pub open spec fn says_stream(normalized: Seq<char>) -> bool {
    ||| occurs(normalized, "stream error"@)
    ||| occurs(normalized, "stream failed"@)
    ||| occurs(normalized, "response stream"@)
}

/// The first class, in this order, that the flag or the text supports.
pub open spec fn error_class(context_overflow: bool, error: Seq<char>) -> ProviderErrorClass {
    let lower = lowercase(error);
    let normalized = normalized_error(lower);
    if context_overflow || says_context_exceeded(normalized) {
        ProviderErrorClass::ContextExceeded
    } else if says_invalid_tool_history(lower, normalized) {
        ProviderErrorClass::InvalidToolHistory
    } else if says_billing(lower, normalized) {
        ProviderErrorClass::Billing
    } else if says_authentication(lower, normalized) {
        ProviderErrorClass::Authentication
    } else if says_authorization(lower, normalized) {
        ProviderErrorClass::Authorization
    } else if says_rate_limit(lower, normalized) {
        ProviderErrorClass::RateLimit
    } else if says_timeout(normalized) {
        ProviderErrorClass::Timeout
    } else if says_network(normalized) {
        ProviderErrorClass::Network
    } else if says_invalid_response(normalized) {
        ProviderErrorClass::InvalidResponse
    } else if says_stream(normalized) {
        ProviderErrorClass::Stream
    } else {
        ProviderErrorClass::Other
    }
}

/// The fixed diagnostic of each class.
pub open spec fn class_text(class: ProviderErrorClass) -> Seq<char> {
    match class {
        ProviderErrorClass::ContextExceeded =>
            "Provider rejected the prompt because the context window was exceeded."@,
        ProviderErrorClass::InvalidToolHistory =>
            "Provider rejected invalid tool-call history. Restart/reload the session or use /clear."@,
        ProviderErrorClass::Billing =>
            "Provider billing/credit issue (HTTP 402). Check the provider account balance."@,
        ProviderErrorClass::Authentication => "Provider authentication failed (HTTP 401)."@,
        ProviderErrorClass::Authorization => "Provider authorization failed (HTTP 403)."@,
        ProviderErrorClass::RateLimit => "Provider rate limit exceeded (HTTP 429)."@,
        ProviderErrorClass::Timeout => "Provider request timed out."@,
        ProviderErrorClass::Network => "Provider network request failed."@,
        ProviderErrorClass::InvalidResponse => "Provider returned an invalid response."@,
        ProviderErrorClass::Stream => "Provider response stream failed."@,
        ProviderErrorClass::Other => "Provider request failed."@,
    }
}

/// The text of a provider error, where an absent one counts as empty.
pub open spec fn error_text(error: Option<&str>) -> Seq<char> {
    match error {
        Some(error) => error@,
        None => seq![],
    }
}

fn classify_provider_error(context_overflow: bool, error: Option<&str>) -> (class:
    ProviderErrorClass)
    ensures
        class == error_class(context_overflow, error_text(error)),
{
    let chars = match error {
        Some(error) => chars_of(error),
        None => Vec::new(),
    };
    assert(chars@ =~= error_text(error));
    let lower = lowercase_chars(chars.as_slice());
    let lower = lower.as_slice();
    let normalized = normalize_error(lower);
    let normalized = normalized.as_slice();
    if context_overflow || contains_text(normalized, "prompt is too long") || contains_text(
        normalized,
        "exceed context limit",
    ) || contains_text(normalized, "maximum context length") || contains_text(
        normalized,
        "context overflow",
    ) || contains_text(normalized, "context length exceeded") || contains_text(
        normalized,
        "context window exceeded",
    ) || contains_text(normalized, "context window was exceeded") {
        ProviderErrorClass::ContextExceeded
    } else if status_in(lower, "400") && contains_text(
        normalized,
        "tool use ids were found without tool result blocks",
    ) {
        ProviderErrorClass::InvalidToolHistory
    } else if status_in(lower, "402") || contains_text(normalized, "insufficient credit")
        || contains_text(normalized, "payment required") {
        ProviderErrorClass::Billing
    } else if status_in(lower, "401") || contains_text(normalized, "authentication")
        || contains_text(normalized, "invalid api key") || contains_text(normalized, "unauthorized")
        || contains_text(normalized, "not authorized") {
        ProviderErrorClass::Authentication
    } else if status_in(lower, "403") || contains_text(normalized, "permission denied")
        || contains_text(normalized, "forbidden") || contains_text(
        normalized,
        "authorization failed",
    ) || contains_text(normalized, "authorization error") {
        ProviderErrorClass::Authorization
    } else if status_in(lower, "429") || contains_text(normalized, "rate limit") {
        ProviderErrorClass::RateLimit
    } else if contains_text(normalized, "timeout") || contains_text(normalized, "timed out")
        || contains_text(normalized, "time out") {
        ProviderErrorClass::Timeout
    } else if contains_text(normalized, "network") || contains_text(normalized, "connection")
        || contains_text(normalized, "upstream") {
        ProviderErrorClass::Network
    } else if contains_text(normalized, "parse") || contains_text(normalized, "decode") {
        ProviderErrorClass::InvalidResponse
    } else if contains_text(normalized, "stream error") || contains_text(
        normalized,
        "stream failed",
    ) || contains_text(normalized, "response stream") {
        ProviderErrorClass::Stream
    } else {
        ProviderErrorClass::Other
    }
}

/// The diagnostic for a provider failure. It is one of a fixed set of texts,
/// so that nothing of the provider's own words reaches a client.
pub fn safe_provider_error_message(context_overflow: bool, error: Option<&str>) -> (message:
    &'static str)
    ensures
        message@ == class_text(error_class(context_overflow, error_text(error))),
{
    match classify_provider_error(context_overflow, error) {
        ProviderErrorClass::ContextExceeded =>
            "Provider rejected the prompt because the context window was exceeded.",
        ProviderErrorClass::InvalidToolHistory =>
            "Provider rejected invalid tool-call history. Restart/reload the session or use /clear.",
        ProviderErrorClass::Billing =>
            "Provider billing/credit issue (HTTP 402). Check the provider account balance.",
        ProviderErrorClass::Authentication => "Provider authentication failed (HTTP 401).",
        ProviderErrorClass::Authorization => "Provider authorization failed (HTTP 403).",
        ProviderErrorClass::RateLimit => "Provider rate limit exceeded (HTTP 429).",
        ProviderErrorClass::Timeout => "Provider request timed out.",
        ProviderErrorClass::Network => "Provider network request failed.",
        ProviderErrorClass::InvalidResponse => "Provider returned an invalid response.",
        ProviderErrorClass::Stream => "Provider response stream failed.",
        ProviderErrorClass::Other => "Provider request failed.",
    }
}

/// Why a model stopped.
#[derive(Debug, Clone, Copy, PartialEq, Eq, Structural)]
pub enum StopReason {
    EndTurn,
    ToolUse,
    MaxTokens,
    Error,
    Refusal,
    Aborted,
}

/// What one finished turn reports.
#[derive(Debug, Clone, PartialEq, Eq)]
pub struct TurnResult {
    pub stop_reason: StopReason,
    pub context_overflow: bool,
    pub error_message: Option<String>,
    /// Tokens that the turn's last model call took in and gave out.
    pub last_call_prompt_tokens: u64,
    pub last_call_output_tokens: u64,
}

/// The outcome that clients are shown for a turn.
pub open spec fn outcome_of(turn: TurnResult, outcome: AssistantOutcome) -> bool {
    match turn.stop_reason {
        StopReason::Error => outcome matches AssistantOutcome::Errored {
            context_overflow,
            message,
        } && context_overflow == turn.context_overflow && message@ == class_text(
            error_class(
                turn.context_overflow,
                match turn.error_message {
                    Some(error) => error@,
                    None => seq![],
                },
            ),
        ),
        StopReason::Refusal => outcome is Refused,
        StopReason::Aborted => outcome is Aborted,
        StopReason::MaxTokens => outcome is MaxTokens,
        StopReason::EndTurn | StopReason::ToolUse => outcome is Completed,
    }
}

pub fn canonical_assistant_outcome(turn: &TurnResult) -> (outcome: AssistantOutcome)
    ensures
        outcome_of(*turn, outcome),
{
    match turn.stop_reason {
        StopReason::Error => {
            let error = match &turn.error_message {
                Some(error) => Some(error.as_str()),
                None => None,
            };
            AssistantOutcome::Errored {
                context_overflow: turn.context_overflow,
                message: safe_provider_error_message(turn.context_overflow, error).to_owned(),
            }
        },
        StopReason::Refusal => AssistantOutcome::Refused,
        StopReason::Aborted => AssistantOutcome::Aborted,
        StopReason::MaxTokens => AssistantOutcome::MaxTokens,
        StopReason::EndTurn | StopReason::ToolUse => AssistantOutcome::Completed,
    }
}

pub const RAW_ERROR_LOG_CAP: usize = 500;

/// The length of the first token: everything up to and with the first whitespace.
pub open spec fn first_token_len(s: Seq<char>) -> nat
    decreases s.len(),
{
    if s.len() == 0 {
        0
    } else if whitespace(s[0]) {
        1
    } else {
        1 + first_token_len(s.drop_first())
    }
}

pub proof fn lemma_first_token_bounds(s: Seq<char>)
    ensures
        first_token_len(s) <= s.len(),
        s.len() > 0 ==> first_token_len(s) > 0,
    decreases s.len(),
{
    if s.len() > 0 && !whitespace(s[0]) {
        lemma_first_token_bounds(s.drop_first());
    }
}

/// A token without the whitespace that ends it.
pub open spec fn trimmed_token(token: Seq<char>) -> Seq<char> {
    if token.len() > 0 && whitespace(token.last()) {
        token.drop_last()
    } else {
        token
    }
}

/// Whether a token may be a credential: by how it starts, or as a long run of
/// letters, digits, hyphens and underscores.
pub open spec fn looks_secret(trimmed: Seq<char>) -> bool {
    let lower = lowercase(trimmed);
    ||| starts_with(lower, "bearer"@)
    ||| starts_with(lower, "authorization"@)
    ||| starts_with(lower, "sk-"@)
    ||| starts_with(lower, "or-"@)
    ||| utf8_len(trimmed) >= 20 && (forall|i: int|
        0 <= i < trimmed.len() ==> key_char(#[trigger] trimmed[i]))
}

pub open spec fn key_char(c: char) -> bool {
    ascii_alphanumeric(c) || c == '-' || c == '_'
}

pub open spec fn sanitized_token(token: Seq<char>) -> Seq<char> {
    let trimmed = trimmed_token(token);
    if looks_secret(trimmed) {
        "[REDACTED]"@ + token.skip(trimmed.len() as int)
    } else {
        token
    }
}

/// The tokens of `raw` in turn, until the cap is reached; and whether it was.
pub open spec fn sanitized_tokens(raw: Seq<char>, out: Seq<char>) -> (Seq<char>, bool)
    decreases raw.len(),
{
    if raw.len() == 0 {
        (out, false)
    } else {
        let token = raw.take(first_token_len(raw) as int);
        let next = out + sanitized_token(token);
        if utf8_len(next) >= RAW_ERROR_LOG_CAP {
            (next, true)
        } else {
            proof {
                lemma_first_token_bounds(raw);
            }
            sanitized_tokens(raw.skip(first_token_len(raw) as int), next)
        }
    }
}

pub open spec fn sanitized(raw: Seq<char>) -> Seq<char> {
    let (out, truncated) = sanitized_tokens(raw, seq![]);
    if truncated {
        utf8_prefix(out, RAW_ERROR_LOG_CAP as nat) + "…[truncated]"@
    } else {
        out
    }
}

proof fn lemma_first_token(s: Seq<char>, end: int)
    requires
        0 <= end < s.len(),
        forall|i: int| 0 <= i < end ==> !whitespace(#[trigger] s[i]),
        whitespace(s[end]) || end + 1 == s.len(),
    ensures
        first_token_len(s) == end + 1,
    decreases s.len(),
{
    reveal_with_fuel(first_token_len, 2);
    if end > 0 {
        assert(!whitespace(s[0]));
        assert forall|i: int| 0 <= i < end - 1 implies !whitespace(
            #[trigger] s.drop_first()[i],
        ) by {
            assert(!whitespace(s[i + 1]));
        }
        lemma_first_token(s.drop_first(), end - 1);
    } else if !whitespace(s[0]) {
        assert(s.drop_first().len() == 0);
    }
}

fn token_looks_secret(chars: &[char], from: usize, to: usize) -> (secret: bool)
    requires
        from <= to <= chars@.len(),
    ensures
        secret == looks_secret(chars@.subrange(from as int, to as int)),
{
    let text = string_of(chars, from, to);
    let trimmed = chars_of(text.as_str());
    let ghost whole = chars@.subrange(from as int, to as int);
    let lower = lowercase_chars(trimmed.as_slice());
    let lower = lower.as_slice();
    if has_prefix(lower, "bearer") || has_prefix(lower, "authorization") || has_prefix(lower, "sk-")
        || has_prefix(lower, "or-") {
        return true;
    }
    if byte_len(text.as_str()) < 20 {
        return false;
    }
    let mut i: usize = 0;
    while i < trimmed.len()
        invariant
            i <= trimmed@.len(),
            trimmed@ == whole,
            whole == chars@.subrange(from as int, to as int),
            !starts_with(lowercase(whole), "bearer"@),
            !starts_with(lowercase(whole), "authorization"@),
            !starts_with(lowercase(whole), "sk-"@),
            !starts_with(lowercase(whole), "or-"@),
            forall|j: int| 0 <= j < i ==> key_char(#[trigger] trimmed@[j]),
        decreases trimmed@.len() - i,
    {
        let c: char = trimmed[i];
        if !(is_ascii_alphanumeric(c) || c == '-' || c == '_') {
            assert(!key_char(trimmed@[i as int]));
            return false;
        }
        i = i + 1;
    }
    true
}

/// A provider's raw error for the debug log: likely credentials are redacted and the size is capped.
pub fn sanitize_provider_error(raw: &str) -> (text: String)
    ensures
        text@ == sanitized(raw@),
{
    let chars = chars_of(raw);
    let mut out = String::new();
    let mut truncated = false;
    let mut start: usize = 0;
    assert(raw@.skip(0) =~= raw@);
    while start < chars.len() && !truncated
        invariant
            start <= chars@.len(),
            chars@ == raw@,
            !truncated ==> sanitized_tokens(raw@, seq![]) == sanitized_tokens(
                raw@.skip(start as int),
                out@,
            ),
            truncated ==> sanitized_tokens(raw@, seq![]) == (out@, true),
        decreases chars@.len() - start, if truncated { 0int } else { 1int },
    {
        let mut last: usize = start;
        let len: usize = chars.len();
        while last < len - 1 && !is_whitespace(chars[last])
            invariant
                start <= last < chars@.len(),
                len == chars@.len(),
                forall|i: int| start <= i < last ==> !whitespace(#[trigger] chars@[i]),
            decreases chars@.len() - last,
        {
            last = last + 1;
        }
        let ghost rest = raw@.skip(start as int);
        let end: usize = last + 1;
        proof {
            assert forall|i: int| 0 <= i < last - start implies !whitespace(#[trigger] rest[i]) by {
                assert(!whitespace(chars@[i + start]));
            }
            lemma_first_token(rest, last - start);
            assert(rest.take(end - start) =~= chars@.subrange(start as int, end as int));
            assert(rest.skip(end - start) =~= raw@.skip(end as int));
        }
        let ghost token = chars@.subrange(start as int, end as int);
        let trimmed_end: usize = if is_whitespace(chars[last]) {
            last
        } else {
            end
        };
        assert(chars@.subrange(start as int, trimmed_end as int) =~= trimmed_token(token));
        if token_looks_secret(chars.as_slice(), start, trimmed_end) {
            let ghost before = out@;
            out.append("[REDACTED]");
            out.append(string_of(chars.as_slice(), trimmed_end, end).as_str());
            assert(chars@.subrange(trimmed_end as int, end as int) =~= token.skip(
                trimmed_end - start,
            ));
            assert(out@ =~= before + sanitized_token(token));
        } else {
            out.append(string_of(chars.as_slice(), start, end).as_str());
        }
        if byte_len(out.as_str()) >= RAW_ERROR_LOG_CAP {
            truncated = true;
        }
        start = end;
    }
    if truncated {
        let mut text = prefix_within(out.as_str(), RAW_ERROR_LOG_CAP);
        text.append("…[truncated]");
        return text;
    }
    out
}

/// Whatever a provider says, the message that clients see is one of the fixed diagnostics.
pub proof fn law_message_is_one_of_fixed_texts(context_overflow: bool, error: Seq<char>)
    ensures
        exists|class: ProviderErrorClass|
            #[trigger] class_text(class) == class_text(error_class(context_overflow, error)),
        context_overflow ==> error_class(context_overflow, error)
            == ProviderErrorClass::ContextExceeded,
{
    let class = error_class(context_overflow, error);
    assert(class_text(class) == class_text(error_class(context_overflow, error)));
}

/// Whether a text gets the context-window message depends on its lowercase words
/// alone: texts that are the same once lowercased and normalized get it together
/// or not at all.
pub proof fn law_context_message_depends_on_the_words(
    context_overflow: bool,
    a: Seq<char>,
    b: Seq<char>,
)
    requires
        normalized_error(lowercase(a)) == normalized_error(lowercase(b)),
    ensures
        error_class(context_overflow, a) is ContextExceeded <==> error_class(
            context_overflow,
            b,
        ) is ContextExceeded,
        class_text(error_class(context_overflow, a)) == class_text(
            ProviderErrorClass::ContextExceeded,
        ) <==> class_text(error_class(context_overflow, b)) == class_text(
            ProviderErrorClass::ContextExceeded,
        ),
{
    lemma_context_text_is_its_own(error_class(context_overflow, a));
    lemma_context_text_is_its_own(error_class(context_overflow, b));
}

/// The context-window message is unaffected by ASCII letter case, and by `_`,
/// `-` or a backquote written for a space or the other way round. Texts that
/// differ in letter case alone are told in the same words, whatever they tell of.
pub proof fn law_context_message_ignores_case_and_separators(
    context_overflow: bool,
    a: Seq<char>,
    b: Seq<char>,
)
    requires
        a.len() == b.len(),
        forall|i: int|
            0 <= i < a.len() ==> ascii_lower(#[trigger] a[i]) == ascii_lower(b[i]) || (separator(
                a[i],
            ) && separator(b[i])),
    ensures
        normalized_error(lowercase(a)) == normalized_error(lowercase(b)),
        error_class(context_overflow, a) is ContextExceeded <==> error_class(
            context_overflow,
            b,
        ) is ContextExceeded,
        class_text(error_class(context_overflow, a)) == class_text(
            ProviderErrorClass::ContextExceeded,
        ) <==> class_text(error_class(context_overflow, b)) == class_text(
            ProviderErrorClass::ContextExceeded,
        ),
        lowercase(a) == lowercase(b) ==> error_class(context_overflow, a) == error_class(
            context_overflow,
            b,
        ),
{
    assert(word_separated(lowercase(a)) =~= word_separated(lowercase(b)));
    law_context_message_depends_on_the_words(context_overflow, a, b);
}

/// What parts words: a space, or what may be written for one.
pub open spec fn separator(c: char) -> bool {
    c == ' ' || c == '_' || c == '-' || c == '`'
}

proof fn lemma_context_text_is_its_own(class: ProviderErrorClass)
    ensures
        class_text(class) == class_text(ProviderErrorClass::ContextExceeded) ==> class
            == ProviderErrorClass::ContextExceeded,
{
    reveal_strlit("Provider rejected the prompt because the context window was exceeded.");
    reveal_strlit(
        "Provider rejected invalid tool-call history. Restart/reload the session or use /clear.",
    );
    reveal_strlit("Provider billing/credit issue (HTTP 402). Check the provider account balance.");
    reveal_strlit("Provider authentication failed (HTTP 401).");
    reveal_strlit("Provider authorization failed (HTTP 403).");
    reveal_strlit("Provider rate limit exceeded (HTTP 429).");
    reveal_strlit("Provider request timed out.");
    reveal_strlit("Provider network request failed.");
    reveal_strlit("Provider returned an invalid response.");
    reveal_strlit("Provider response stream failed.");
    reveal_strlit("Provider request failed.");
    let own = class_text(ProviderErrorClass::ContextExceeded);
    if class_text(class) == own {
        assert(class_text(class).len() == own.len());
    }
}

/// A sanitized error never exceeds the cap by more than the truncation mark.
pub proof fn law_sanitized_is_bounded(raw: Seq<char>)
    ensures
        utf8_len(sanitized(raw)) <= RAW_ERROR_LOG_CAP + utf8_len("…[truncated]"@),
{
    let (out, truncated) = sanitized_tokens(raw, seq![]);
    lemma_untruncated_is_short(raw, seq![]);
    lemma_fitting_bounds(out, RAW_ERROR_LOG_CAP as nat);
    lemma_utf8_len_concat(utf8_prefix(out, RAW_ERROR_LOG_CAP as nat), "…[truncated]"@);
}

proof fn lemma_untruncated_is_short(raw: Seq<char>, out: Seq<char>)
    requires
        utf8_len(out) < RAW_ERROR_LOG_CAP,
    ensures
        !sanitized_tokens(raw, out).1 ==> utf8_len(sanitized_tokens(raw, out).0)
            < RAW_ERROR_LOG_CAP,
    decreases raw.len(),
{
    if raw.len() > 0 {
        let next = out + sanitized_token(raw.take(first_token_len(raw) as int));
        lemma_first_token_bounds(raw);
        if utf8_len(next) < RAW_ERROR_LOG_CAP {
            lemma_untruncated_is_short(raw.skip(first_token_len(raw) as int), next);
        }
    }
}

} // verus!
