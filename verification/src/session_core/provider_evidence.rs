//! What clients and logs are told of a provider's failure.
use vstd::prelude::*;

use crate::keyed::{lemma_filter_picks, picked_from};
use crate::session_core::provider_error::{
    class_text, compact, error_class, first_token_len, has_token, is_piece,
    lemma_first_token_bounds, looks_secret, names_status, normalized_error, outcome_of, sanitized,
    sanitized_token, sanitized_tokens, trimmed_token, unextended_match, word_separated,
    ProviderErrorClass, TurnResult, RAW_ERROR_LOG_CAP,
};
use crate::session_protocol::AssistantOutcome;
use crate::text::{
    ascii_alphanumeric, is_digit, lemma_utf8_len_concat, lowercase, occurs, occurs_at, starts_with,
    utf8_len, whitespace,
};

verus! {

broadcast use vstd::string::group_string_axioms;

/// The phrases that speak for a kind of failure.
pub open spec fn phrases(class: ProviderErrorClass) -> Seq<Seq<char>> {
    match class {
        ProviderErrorClass::ContextExceeded => seq![
            "prompt is too long"@,
            "exceed context limit"@,
            "maximum context length"@,
            "context overflow"@,
            "context length exceeded"@,
            "context window exceeded"@,
            "context window was exceeded"@,
        ],
        ProviderErrorClass::InvalidToolHistory => seq![],
        ProviderErrorClass::Billing => seq!["insufficient credit"@, "payment required"@],
        ProviderErrorClass::Authentication => seq![
            "authentication"@,
            "invalid api key"@,
            "unauthorized"@,
            "not authorized"@,
        ],
        ProviderErrorClass::Authorization => seq![
            "permission denied"@,
            "forbidden"@,
            "authorization failed"@,
            "authorization error"@,
        ],
        ProviderErrorClass::RateLimit => seq!["rate limit"@],
        ProviderErrorClass::Timeout => seq!["timeout"@, "timed out"@, "time out"@],
        ProviderErrorClass::Network => seq!["network"@, "connection"@, "upstream"@],
        ProviderErrorClass::InvalidResponse => seq!["parse"@, "decode"@],
        ProviderErrorClass::Stream => seq![
            "stream error"@,
            "stream failed"@,
            "response stream"@,
        ],
        ProviderErrorClass::Other => seq![],
    }
}

/// The HTTP status that speaks for a kind of failure by itself.
pub open spec fn status_of(class: ProviderErrorClass) -> Option<Seq<char>> {
    match class {
        ProviderErrorClass::Billing => Some("402"@),
        ProviderErrorClass::Authentication => Some("401"@),
        ProviderErrorClass::Authorization => Some("403"@),
        ProviderErrorClass::RateLimit => Some("429"@),
        _ => None,
    }
}

/// The place of a kind of failure among those that an error can speak for. An
/// error that speaks for several is of the first.
pub open spec fn rank(class: ProviderErrorClass) -> int {
    match class {
        ProviderErrorClass::ContextExceeded => 0,
        ProviderErrorClass::InvalidToolHistory => 1,
        ProviderErrorClass::Billing => 2,
        ProviderErrorClass::Authentication => 3,
        ProviderErrorClass::Authorization => 4,
        ProviderErrorClass::RateLimit => 5,
        ProviderErrorClass::Timeout => 6,
        ProviderErrorClass::Network => 7,
        ProviderErrorClass::InvalidResponse => 8,
        ProviderErrorClass::Stream => 9,
        ProviderErrorClass::Other => 10,
    }
}

/// Whether an error speaks for a kind of failure: by a phrase, by a status, or,
/// where the context ran over, by what the provider said of it.
pub open spec fn speaks_for(
    class: ProviderErrorClass,
    context_overflow: bool,
    error: Seq<char>,
) -> bool {
    let lower = lowercase(error);
    let words = normalized_error(lower);
    ||| exists|i: int| 0 <= i < phrases(class).len() && occurs(words, #[trigger] phrases(class)[i])
    ||| status_of(class) is Some && names_status(lower, status_of(class)->0)
    ||| class is ContextExceeded && context_overflow
    ||| class is InvalidToolHistory && names_status(lower, "400"@) && occurs(
        words,
        "tool use ids were found without tool result blocks"@,
    )
    ||| class is Other
}

/// An error is of the first kind that it speaks for.
pub proof fn law_first_evidence_decides(
    context_overflow: bool,
    error: Seq<char>,
    other: ProviderErrorClass,
)
    ensures
        speaks_for(error_class(context_overflow, error), context_overflow, error),
        speaks_for(other, context_overflow, error) ==> rank(
            error_class(context_overflow, error),
        ) <= rank(other),
{
    let class = error_class(context_overflow, error);
    assert(phrases(class).len() > 0 ==> phrases(class)[0] == phrases(class)[0]);
    assert(phrases(class).len() > 1 ==> phrases(class)[1] == phrases(class)[1]);
    assert(phrases(class).len() > 2 ==> phrases(class)[2] == phrases(class)[2]);
    assert(phrases(class).len() > 3 ==> phrases(class)[3] == phrases(class)[3]);
    assert(phrases(class).len() > 4 ==> phrases(class)[4] == phrases(class)[4]);
    assert(phrases(class).len() > 5 ==> phrases(class)[5] == phrases(class)[5]);
    assert(phrases(class).len() > 6 ==> phrases(class)[6] == phrases(class)[6]);
}

/// What clients are told of a failure fits its kind: the status where one
/// stands for it, what happened where none does.
pub proof fn law_message_fits_the_kind(class: ProviderErrorClass)
    ensures
        match class {
            ProviderErrorClass::ContextExceeded => occurs(
                class_text(class),
                "context window was exceeded"@,
            ),
            ProviderErrorClass::InvalidToolHistory => occurs(
                class_text(class),
                "invalid tool-call history"@,
            ),
            ProviderErrorClass::Billing => occurs(class_text(class), "402"@),
            ProviderErrorClass::Authentication => occurs(class_text(class), "401"@),
            ProviderErrorClass::Authorization => occurs(class_text(class), "403"@),
            ProviderErrorClass::RateLimit => occurs(class_text(class), "429"@),
            ProviderErrorClass::Timeout => occurs(class_text(class), "timed out"@),
            ProviderErrorClass::Network => occurs(class_text(class), "network"@),
            ProviderErrorClass::InvalidResponse => occurs(class_text(class), "invalid response"@),
            ProviderErrorClass::Stream => occurs(class_text(class), "stream failed"@),
            ProviderErrorClass::Other => class_text(class) == "Provider request failed."@,
        },
{
    match class {
        ProviderErrorClass::ContextExceeded => {
            reveal_strlit("Provider rejected the prompt because the context window was exceeded.");
            reveal_strlit("context window was exceeded");
            assert(class_text(class).subrange(41, 68) =~= "context window was exceeded"@);
            assert(occurs_at(class_text(class), "context window was exceeded"@, 41));
        },
        ProviderErrorClass::InvalidToolHistory => {
            reveal_strlit(
                "Provider rejected invalid tool-call history. Restart/reload the session or use /clear.",
            );
            reveal_strlit("invalid tool-call history");
            assert(class_text(class).subrange(18, 43) =~= "invalid tool-call history"@);
            assert(occurs_at(class_text(class), "invalid tool-call history"@, 18));
        },
        ProviderErrorClass::Billing => {
            reveal_strlit(
                "Provider billing/credit issue (HTTP 402). Check the provider account balance.",
            );
            reveal_strlit("402");
            assert(class_text(class).subrange(36, 39) =~= "402"@);
            assert(occurs_at(class_text(class), "402"@, 36));
        },
        ProviderErrorClass::Authentication => {
            reveal_strlit("Provider authentication failed (HTTP 401).");
            reveal_strlit("401");
            assert(class_text(class).subrange(37, 40) =~= "401"@);
            assert(occurs_at(class_text(class), "401"@, 37));
        },
        ProviderErrorClass::Authorization => {
            reveal_strlit("Provider authorization failed (HTTP 403).");
            reveal_strlit("403");
            assert(class_text(class).subrange(36, 39) =~= "403"@);
            assert(occurs_at(class_text(class), "403"@, 36));
        },
        ProviderErrorClass::RateLimit => {
            reveal_strlit("Provider rate limit exceeded (HTTP 429).");
            reveal_strlit("429");
            assert(class_text(class).subrange(35, 38) =~= "429"@);
            assert(occurs_at(class_text(class), "429"@, 35));
        },
        ProviderErrorClass::Timeout => {
            reveal_strlit("Provider request timed out.");
            reveal_strlit("timed out");
            assert(class_text(class).subrange(17, 26) =~= "timed out"@);
            assert(occurs_at(class_text(class), "timed out"@, 17));
        },
        ProviderErrorClass::Network => {
            reveal_strlit("Provider network request failed.");
            reveal_strlit("network");
            assert(class_text(class).subrange(9, 16) =~= "network"@);
            assert(occurs_at(class_text(class), "network"@, 9));
        },
        ProviderErrorClass::InvalidResponse => {
            reveal_strlit("Provider returned an invalid response.");
            reveal_strlit("invalid response");
            assert(class_text(class).subrange(21, 37) =~= "invalid response"@);
            assert(occurs_at(class_text(class), "invalid response"@, 21));
        },
        ProviderErrorClass::Stream => {
            reveal_strlit("Provider response stream failed.");
            reveal_strlit("stream failed");
            assert(class_text(class).subrange(18, 31) =~= "stream failed"@);
            assert(occurs_at(class_text(class), "stream failed"@, 18));
        },
        ProviderErrorClass::Other => {},
    }
}

/// A turn is shown by how it stopped. Only one that failed says more: whether
/// the context ran over, and what kind of failure it was; a provider that said
/// nothing failed in some other way unless the context ran over.
pub proof fn law_turn_is_shown_by_how_it_stopped(turn: TurnResult, outcome: AssistantOutcome)
    requires
        outcome_of(turn, outcome),
    ensures
        turn.stop_reason is Refusal <==> outcome is Refused,
        turn.stop_reason is Aborted <==> outcome is Aborted,
        turn.stop_reason is MaxTokens <==> outcome is MaxTokens,
        turn.stop_reason is EndTurn || turn.stop_reason is ToolUse <==> outcome is Completed,
        turn.stop_reason is Error <==> outcome is Errored,
        outcome matches AssistantOutcome::Errored { context_overflow, message } ==> {
            &&& context_overflow == turn.context_overflow
            &&& turn.error_message matches Some(said) ==> message@ == class_text(
                error_class(turn.context_overflow, said@),
            )
            &&& turn.context_overflow ==> message@ == class_text(
                ProviderErrorClass::ContextExceeded,
            )
        },
{
}

/// A status that stands as a word of its own is named.
pub proof fn law_status_is_named_as_a_word(
    before: Seq<char>,
    status: Seq<char>,
    after: Seq<char>,
)
    requires
        forall|i: int| 0 <= i < status.len() ==> ascii_alphanumeric(#[trigger] status[i]),
        before.len() == 0 || !ascii_alphanumeric(before.last()),
        after.len() == 0 || !ascii_alphanumeric(after[0]),
    ensures
        names_status(before + status + after, status),
{
    let text = before + status + after;
    let from = before.len() as int;
    let to = (before.len() + status.len()) as int;
    assert forall|i: int| from <= i < to implies ascii_alphanumeric(#[trigger] text[i]) by {
        assert(text[i] == status[i - from]);
    }
    assert(is_piece(text, from, to));
    assert(text.subrange(from, to) =~= status);
}

/// Whether a text holds another that no digit follows.
pub open spec fn stands_unextended(text: Seq<char>, needle: Seq<char>, at: int) -> bool {
    &&& occurs_at(text, needle, at)
    &&& at + needle.len() == text.len() || !is_digit(text[at + needle.len() as int])
}

/// A status is named exactly where it stands as a word of its own, or where it
/// stands behind `http`, `api` or `status` in the letters and digits of the text
/// and no digit follows.
pub proof fn law_status_is_named(text: Seq<char>, status: Seq<char>)
    requires
        status.len() > 0,
        forall|i: int| 0 <= i < status.len() ==> is_digit(#[trigger] status[i]),
    ensures
        names_status(text, status) <==> {
            ||| has_token(text, status)
            ||| exists|at: int| #[trigger]
                stands_unextended(compact(text), "http"@ + status, at)
            ||| exists|at: int| #[trigger] stands_unextended(compact(text), "api"@ + status, at)
            ||| exists|at: int| #[trigger]
                stands_unextended(compact(text), "status"@ + status, at)
        },
{
    reveal_strlit("http");
    reveal_strlit("api");
    reveal_strlit("status");
    let letters = compact(text);
    let http = "http"@ + status;
    let api = "api"@ + status;
    let named = "status"@ + status;
    assert forall|k: int| 0 < k < http.len() implies !overlaps_itself(http, k) by {
        assert(http.skip(k)[0] == http[k]);
        assert(http.take(http.len() - k)[0] == http[0]);
        if k >= 4 {
            assert(is_digit(status[k - 4]));
        }
    }
    assert forall|k: int| 0 < k < api.len() implies !overlaps_itself(api, k) by {
        assert(api.skip(k)[0] == api[k]);
        assert(api.take(api.len() - k)[0] == api[0]);
        if k >= 3 {
            assert(is_digit(status[k - 3]));
        }
    }
    assert forall|k: int| 0 < k < named.len() implies !overlaps_itself(named, k) by {
        assert(named.skip(k)[0] == named[k]);
        assert(named.take(named.len() - k)[0] == named[0]);
        if k >= 6 {
            assert(is_digit(status[k - 6]));
        } else if k == 5 {
            assert(is_digit(status[0]));
            assert(named.skip(k)[1] == status[0]);
            assert(named.take(named.len() - k)[1] == named[1]);
        }
    }
    lemma_joined_status(letters, http, 0);
    lemma_joined_status(letters, api, 0);
    lemma_joined_status(letters, named, 0);
}

/// Whether a text ends as it begins, from a place on.
spec fn overlaps_itself(needle: Seq<char>, k: int) -> bool {
    needle.skip(k) == needle.take(needle.len() - k)
}

proof fn lemma_joined_status(text: Seq<char>, needle: Seq<char>, from: int)
    requires
        0 <= from <= text.len(),
        needle.len() > 0,
        forall|k: int| 0 < k < needle.len() ==> !#[trigger] overlaps_itself(needle, k),
    ensures
        unextended_match(text, needle, from) <==> exists|at: int|
            from <= at && #[trigger] stands_unextended(text, needle, at),
    decreases text.len() - from,
{
    if from + needle.len() <= text.len() {
        let here = occurs_at(text, needle, from);
        let next = if here {
            from + needle.len() as int
        } else {
            from + 1
        };
        lemma_joined_status(text, needle, next);
        assert forall|at: int| from < at && #[trigger] stands_unextended(text, needle, at) implies at
            >= next by {
            if here && at < next {
                let k = at - from;
                let first = text.subrange(from, from + needle.len());
                let second = text.subrange(at, at + needle.len());
                assert(needle.skip(k) =~= first.skip(k));
                assert(needle.take(needle.len() - k) =~= second.take(needle.len() - k));
                assert(first.skip(k) =~= second.take(needle.len() - k));
                assert(overlaps_itself(needle, k));
            }
        }
        if stands_unextended(text, needle, from) {
            assert(unextended_match(text, needle, from));
        }
        if exists|at: int| from <= at && #[trigger] stands_unextended(text, needle, at) {
            let at = choose|at: int| from <= at && #[trigger] stands_unextended(text, needle, at);
            if at > from {
                assert(next <= at);
            }
        }
    }
}

/// Whether a word may be a credential, by how it begins or by being long and of
/// the characters that keys are made of.
pub open spec fn may_be_secret(word: Seq<char>) -> bool {
    let lower = lowercase(word);
    ||| starts_with(lower, "bearer"@)
    ||| starts_with(lower, "authorization"@)
    ||| starts_with(lower, "sk-"@)
    ||| starts_with(lower, "or-"@)
    ||| utf8_len(word) >= 20 && forall|i: int|
        0 <= i < word.len() ==> ascii_alphanumeric(#[trigger] word[i]) || word[i] == '-' || word[i]
            == '_'
}

/// Words one after the other, each with a space behind it.
pub open spec fn spelled(words: Seq<Seq<char>>) -> Seq<char>
    decreases words.len(),
{
    if words.len() == 0 {
        seq![]
    } else {
        words[0].push(' ') + spelled(words.drop_first())
    }
}

/// A word, or what stands for it where it may be a credential.
pub open spec fn masked_word(word: Seq<char>) -> Seq<char> {
    if may_be_secret(word) {
        "[REDACTED]"@
    } else {
        word
    }
}

/// Words with those masked that may be credentials.
pub open spec fn masked(words: Seq<Seq<char>>) -> Seq<Seq<char>> {
    words.map_values(|word: Seq<char>| masked_word(word))
}

/// What is logged of an error is its words, with each masked that may be a
/// credential, and nothing else changed, as long as it stays below the cap.
pub proof fn law_log_masks_credentials(words: Seq<Seq<char>>)
    requires
        forall|i: int, j: int|
            0 <= i < words.len() && 0 <= j < words[i].len() ==> !whitespace(
                #[trigger] words[i][j],
            ),
        utf8_len(spelled(masked(words))) < RAW_ERROR_LOG_CAP,
    ensures
        sanitized(spelled(words)) == spelled(masked(words)),
{
    lemma_words_are_masked(words, seq![]);
    assert(seq![] + spelled(masked(words)) =~= spelled(masked(words)));
}

proof fn lemma_words_are_masked(words: Seq<Seq<char>>, out: Seq<char>)
    requires
        forall|i: int, j: int|
            0 <= i < words.len() && 0 <= j < words[i].len() ==> !whitespace(
                #[trigger] words[i][j],
            ),
        utf8_len(out + spelled(masked(words))) < RAW_ERROR_LOG_CAP,
    ensures
        sanitized_tokens(spelled(words), out) == (out + spelled(masked(words)), false),
    decreases words.len(),
{
    if words.len() == 0 {
        assert(out + spelled(masked(words)) =~= out);
    } else {
        let word = words[0];
        let rest = words.drop_first();
        let raw = spelled(words);
        assert forall|j: int| 0 <= j < word.len() implies !whitespace(#[trigger] word[j]) by {
            assert(words[0][j] == word[j]);
        }
        lemma_first_word(word, spelled(rest));
        let token = raw.take(first_token_len(raw) as int);
        assert(token =~= word.push(' '));
        assert(trimmed_token(token) =~= word);
        assert(looks_secret(word) <==> may_be_secret(word));
        assert(token.skip(word.len() as int) =~= seq![' ']);
        assert("[REDACTED]"@ + seq![' '] =~= "[REDACTED]"@.push(' '));
        assert(sanitized_token(token) == masked_word(word).push(' '));
        let next = out + sanitized_token(token);
        assert(masked(words)[0] == masked_word(word));
        assert(masked(words).drop_first() =~= masked(rest));
        assert(out + spelled(masked(words)) =~= next + spelled(masked(rest)));
        lemma_utf8_len_concat(next, spelled(masked(rest)));
        assert(raw.skip(first_token_len(raw) as int) =~= spelled(rest));
        assert forall|i: int, j: int|
            0 <= i < rest.len() && 0 <= j < rest[i].len() implies !whitespace(
            #[trigger] rest[i][j],
        ) by {
            assert(words[i + 1][j] == rest[i][j]);
        }
        lemma_words_are_masked(rest, next);
        lemma_first_token_bounds(raw);
    }
}

/// The first token of a text that starts with a word and a space is the two.
proof fn lemma_first_word(word: Seq<char>, rest: Seq<char>)
    requires
        forall|j: int| 0 <= j < word.len() ==> !whitespace(#[trigger] word[j]),
    ensures
        first_token_len(word.push(' ') + rest) == word.len() + 1,
    decreases word.len(),
{
    let text = word.push(' ') + rest;
    if word.len() > 0 {
        let tail = word.drop_first();
        assert forall|j: int| 0 <= j < tail.len() implies !whitespace(#[trigger] tail[j]) by {
            assert(word[j + 1] == tail[j]);
        }
        lemma_first_word(tail, rest);
        assert(text.drop_first() =~= tail.push(' ') + rest);
        assert(text[0] == word[0]);
    }
}

/// What a status is looked for in has the letters and digits of the text, in
/// their order, and nothing else.
pub proof fn law_letters_and_digits_are_kept(text: Seq<char>) -> (places: Seq<int>)
    ensures
        picked_from(compact(text), text, places),
        forall|i: int|
            0 <= i < text.len() ==> (#[trigger] places.contains(i) <==> ('a' <= text[i] <= 'z' || 'A'
                <= text[i] <= 'Z' || '0' <= text[i] <= '9')),
{
    let keep = |c: char| ascii_alphanumeric(c);
    let places = lemma_filter_picks(text, keep);
    assert forall|i: int| 0 <= i < text.len() implies (#[trigger] places.contains(i) <==> ('a'
        <= text[i] <= 'z' || 'A' <= text[i] <= 'Z' || '0' <= text[i] <= '9')) by {
        assert(places.contains(i) <==> keep(text[i]));
    }
    places
}

/// Whether a word of letters and digits stands in a text by itself.
pub open spec fn stands_alone(text: Seq<char>, word: Seq<char>, at: int) -> bool {
    &&& occurs_at(text, word, at)
    &&& forall|i: int|
        0 <= i < word.len() ==> ('a' <= #[trigger] word[i] <= 'z' || 'A' <= word[i] <= 'Z' || '0'
            <= word[i] <= '9')
    &&& at > 0 ==> !ascii_alphanumeric(text[at - 1])
    &&& at + word.len() < text.len() ==> !ascii_alphanumeric(text[at + word.len() as int])
}

/// A text has a token exactly where it stands in it by itself.
pub proof fn law_tokens_stand_alone(text: Seq<char>, token: Seq<char>)
    ensures
        has_token(text, token) <==> exists|at: int| #[trigger] stands_alone(text, token, at),
{
    if has_token(text, token) {
        let (from, to) = choose|from: int, to: int|
            #[trigger] is_piece(text, from, to) && text.subrange(from, to) == token;
        assert forall|i: int| 0 <= i < token.len() implies ('a' <= #[trigger] token[i] <= 'z' || 'A'
            <= token[i] <= 'Z' || '0' <= token[i] <= '9') by {
            assert(token[i] == text[from + i]);
        }
        assert(stands_alone(text, token, from));
    }
    if exists|at: int| #[trigger] stands_alone(text, token, at) {
        let at = choose|at: int| #[trigger] stands_alone(text, token, at);
        let to = at + token.len();
        assert forall|i: int| at <= i < to implies ascii_alphanumeric(#[trigger] text[i]) by {
            assert(text.subrange(at, to)[i - at] == token[i - at]);
        }
        assert(is_piece(text, at, to));
    }
}

/// Words that are written together with underscores, hyphens or backquotes are
/// parted by spaces instead; capital letters are made small. Nothing else of a
/// text changes.
pub proof fn law_separators_and_capitals_are_evened_out(text: Seq<char>, i: int)
    requires
        0 <= i < text.len(),
    ensures
        word_separated(text).len() == text.len(),
        word_separated(text)[i] == if text[i] == '_' || text[i] == '-' || text[i] == '`' {
            ' '
        } else {
            text[i]
        },
        lowercase(text).len() == text.len(),
        'A' <= text[i] <= 'Z' ==> lowercase(text)[i] as u32 == text[i] as u32 + 32,
        !('A' <= text[i] <= 'Z') ==> lowercase(text)[i] == text[i],
{
}

} // verus!
