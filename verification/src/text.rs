//! Text helpers over characters and UTF-8 byte lengths.
use vstd::prelude::*;
use vstd::string::*;
use vstd::utf8::*;

verus! {

broadcast use vstd::string::group_string_axioms;

/// Bytes that one character takes in UTF-8.
pub open spec fn char_width(c: char) -> nat {
    if c as u32 <= 0x7f {
        1
    } else if c as u32 <= 0x7ff {
        2
    } else if c as u32 <= 0xffff {
        3
    } else {
        4
    }
}

/// Bytes that a text takes in UTF-8.
pub open spec fn utf8_len(s: Seq<char>) -> nat
    decreases s.len(),
{
    if s.len() == 0 {
        0
    } else {
        utf8_len(s.drop_last()) + char_width(s.last())
    }
}

/// The number of leading characters of `s` whose UTF-8 encodings fit into `max` bytes.
pub open spec fn fitting_chars(s: Seq<char>, max: nat) -> nat
    decreases s.len(),
{
    if utf8_len(s) <= max {
        s.len()
    } else if s.len() == 0 {
        0
    } else {
        fitting_chars(s.drop_last(), max)
    }
}

/// The longest prefix of `s` that fits into `max` bytes without splitting a character.
pub open spec fn utf8_prefix(s: Seq<char>, max: nat) -> Seq<char> {
    s.take(fitting_chars(s, max) as int)
}

pub proof fn lemma_fitting_bounds(s: Seq<char>, max: nat)
    ensures
        fitting_chars(s, max) <= s.len(),
        utf8_len(utf8_prefix(s, max)) <= max,
        utf8_len(s) <= max ==> utf8_prefix(s, max) == s,
    decreases s.len(),
{
    if utf8_len(s) <= max {
        assert(s.take(s.len() as int) =~= s);
    } else if s.len() > 0 {
        lemma_fitting_bounds(s.drop_last(), max);
        let k = fitting_chars(s, max) as int;
        assert(s.drop_last().take(k) =~= s.take(k));
    }
}

pub proof fn lemma_utf8_len_concat(a: Seq<char>, b: Seq<char>)
    ensures
        utf8_len(a + b) == utf8_len(a) + utf8_len(b),
    decreases b.len(),
{
    if b.len() == 0 {
        assert(a + b =~= a);
    } else {
        assert((a + b).drop_last() =~= a + b.drop_last());
        lemma_utf8_len_concat(a, b.drop_last());
    }
}

pub proof fn lemma_utf8_len_take(s: Seq<char>, k: int)
    requires
        0 <= k <= s.len(),
    ensures
        utf8_len(s.take(k)) <= utf8_len(s),
        k < s.len() ==> utf8_len(s.take(k + 1)) == utf8_len(s.take(k)) + char_width(s[k]),
        k <= utf8_len(s.take(k)),
    decreases s.len() - k, k,
{
    assert(s =~= s.take(k) + s.skip(k));
    lemma_utf8_len_concat(s.take(k), s.skip(k));
    if k < s.len() {
        assert(s.take(k + 1).drop_last() =~= s.take(k));
    }
    lemma_utf8_len_at_least(s.take(k));
}

pub proof fn lemma_utf8_len_at_least(s: Seq<char>)
    ensures
        s.len() <= utf8_len(s) <= 4 * s.len(),
    decreases s.len(),
{
    if s.len() > 0 {
        lemma_utf8_len_at_least(s.drop_last());
    }
}

/// A prefix of `k` characters fits exactly when `k` does not exceed `fitting_chars`.
pub proof fn lemma_fitting_is_maximal(s: Seq<char>, max: nat, k: int)
    requires
        0 <= k <= s.len(),
    ensures
        utf8_len(s.take(k)) <= max <==> k <= fitting_chars(s, max),
    decreases s.len(),
{
    if utf8_len(s) <= max {
        lemma_utf8_len_take(s, k);
    } else if s.len() == 0 {
    } else if k == s.len() {
        assert(s.take(k) =~= s);
        lemma_fitting_bounds(s.drop_last(), max);
    } else {
        lemma_fitting_is_maximal(s.drop_last(), max, k);
        assert(s.drop_last().take(k) =~= s.take(k));
    }
}

proof fn lemma_encode_len(s: Seq<char>)
    ensures
        encode_utf8(s).len() == utf8_len(s),
    decreases s.len(),
{
    if s.len() > 0 {
        char_is_scalar(s[0]);
        lemma_encode_len(s.drop_first());
        assert(s =~= seq![s[0]] + s.drop_first());
        lemma_utf8_len_concat(seq![s[0]], s.drop_first());
        assert(seq![s[0]].drop_last() =~= Seq::<char>::empty());
        assert(utf8_len(seq![s[0]]) == char_width(s[0])) by {
            reveal_with_fuel(utf8_len, 2);
        }
        assert(encode_scalar(s[0] as u32).len() == char_width(s[0]));
    }
}

/// Length of a text in UTF-8 bytes.
pub fn byte_len(s: &str) -> (n: usize)
    ensures
        n == utf8_len(s@),
{
    proof {
        lemma_encode_len(s@);
    }
    s.as_bytes().len()
}

/// Appends one character: `String::push` puts the character behind the text.
pub assume_specification[ std::string::String::push ](s: &mut std::string::String, c: char)
    ensures
        final(s)@ == old(s)@.push(c),
;

/// The characters of a text.
pub fn chars_of(s: &str) -> (out: Vec<char>)
    ensures
        out@ == s@,
{
    let mut out: Vec<char> = Vec::new();
    for c in it: s.chars()
        invariant
            it.seq() == s@,
            out@ == it.seq().take(it.index() as int),
    {
        out.push(c);
    }
    assert(out@ =~= s@);
    out
}

/// The text that the characters `from..to` of `chars` make.
pub fn string_of(chars: &[char], from: usize, to: usize) -> (out: String)
    requires
        from <= to <= chars@.len(),
    ensures
        out@ == chars@.subrange(from as int, to as int),
{
    let mut out = String::new();
    let mut i: usize = from;
    while i < to
        invariant
            from <= i <= to <= chars@.len(),
            out@ == chars@.subrange(from as int, i as int),
        decreases to - i,
    {
        out.push(chars[i]);
        proof {
            assert(chars@.subrange(from as int, i as int).push(chars@[i as int])
                =~= chars@.subrange(from as int, i + 1));
        }
        i = i + 1;
    }
    out
}


proof fn lemma_encode_injective(a: Seq<char>, b: Seq<char>)
    requires
        encode_utf8(a) == encode_utf8(b),
    ensures
        a == b,
{
    encode_utf8_decode_utf8(a);
    encode_utf8_decode_utf8(b);
}

/// Whether two texts hold the same characters.
pub fn str_eq(a: &str, b: &str) -> (same: bool)
    ensures
        same == (a@ == b@),
{
    let left = a.as_bytes();
    let right = b.as_bytes();
    if left.len() != right.len() {
        return false;
    }
    let mut i: usize = 0;
    while i < left.len()
        invariant
            i <= left@.len(),
            left@ == encode_utf8(a@),
            right@ == encode_utf8(b@),
            left@.len() == right@.len(),
            forall|j: int| 0 <= j < i ==> left@[j] == right@[j],
        decreases left@.len() - i,
    {
        if left[i] != right[i] {
            return false;
        }
        i = i + 1;
    }
    proof {
        assert(left@ =~= right@);
        lemma_encode_injective(a@, b@);
    }
    true
}

/// The longest prefix of `s` that fits into `max` bytes without splitting a character.
pub fn prefix_within(s: &str, max: usize) -> (out: String)
    ensures
        out@ == utf8_prefix(s@, max as nat),
        utf8_len(out@) <= max,
{
    proof {
        lemma_fitting_bounds(s@, max as nat);
    }
    if byte_len(s) <= max {
        return s.to_owned();
    }
    let chars = chars_of(s);
    let mut taken: usize = 0;
    let mut used: usize = 0;
    while taken < chars.len() && char_bytes(chars[taken]) <= max - used
        invariant
            chars@ == s@,
            taken <= chars@.len(),
            used <= max,
            used == utf8_len(s@.take(taken as int)),
        decreases chars@.len() - taken,
    {
        proof {
            lemma_utf8_len_take(s@, taken as int);
        }
        used = used + char_bytes(chars[taken]);
        taken = taken + 1;
    }
    proof {
        lemma_fitting_is_maximal(s@, max as nat, taken as int);
        if taken < s@.len() {
            lemma_utf8_len_take(s@, taken as int);
            lemma_fitting_is_maximal(s@, max as nat, taken + 1);
        }
    }
    string_of(chars.as_slice(), 0, taken)
}

/// Bytes that one character takes in UTF-8.
pub fn char_bytes(c: char) -> (n: usize)
    ensures
        n == char_width(c),
        1 <= n <= 4,
{
    let code: u32 = c as u32;
    if code <= 0x7f {
        1
    } else if code <= 0x7ff {
        2
    } else if code <= 0xffff {
        3
    } else {
        4
    }
}

/// The decimal digit for a value below ten.
pub open spec fn digit_char(d: nat) -> char {
    ('0' as u32 + d) as char
}

/// Decimal notation without leading zeros.
pub open spec fn decimal(n: nat) -> Seq<char>
    decreases n,
{
    if n < 10 {
        seq![digit_char(n)]
    } else {
        decimal(n / 10).push(digit_char(n % 10))
    }
}

fn digit_of(d: u64) -> (c: char)
    requires
        d < 10,
    ensures
        c == digit_char(d as nat),
{
    if d == 0 {
        '0'
    } else if d == 1 {
        '1'
    } else if d == 2 {
        '2'
    } else if d == 3 {
        '3'
    } else if d == 4 {
        '4'
    } else if d == 5 {
        '5'
    } else if d == 6 {
        '6'
    } else if d == 7 {
        '7'
    } else if d == 8 {
        '8'
    } else {
        '9'
    }
}

/// Decimal notation of an unsigned integer.
pub fn decimal_string(n: u64) -> (out: String)
    ensures
        out@ == decimal(n as nat),
    decreases n,
{
    if n < 10 {
        let mut out = String::new();
        out.push(digit_of(n));
        assert(out@ =~= decimal(n as nat));
        out
    } else {
        let mut out = decimal_string(n / 10);
        out.push(digit_of(n % 10));
        out
    }
}

pub open spec fn is_digit(c: char) -> bool {
    '0' <= c <= '9'
}

/// The number that a string of decimal digits denotes.
pub open spec fn digits_value(s: Seq<char>) -> nat
    decreases s.len(),
{
    if s.len() == 0 {
        0
    } else {
        10 * digits_value(s.drop_last()) + (s.last() as u32 - '0' as u32) as nat
    }
}

/// Text that reads as an unsigned decimal number: an optional `+`, then at least one digit.
pub open spec fn unsigned_body(s: Seq<char>) -> Seq<char> {
    if s.len() > 0 && s[0] == '+' {
        s.drop_first()
    } else {
        s
    }
}

/// The value of an unsigned 64-bit decimal number, if the text is one.
pub open spec fn parsed_u64(s: Seq<char>) -> Option<u64> {
    let body = unsigned_body(s);
    if body.len() > 0 && (forall|i: int| 0 <= i < body.len() ==> is_digit(#[trigger] body[i]))
        && digits_value(body) <= u64::MAX {
        Some(digits_value(body) as u64)
    } else {
        None
    }
}

pub proof fn lemma_digits_value_take(s: Seq<char>, k: int)
    requires
        0 <= k <= s.len(),
        forall|i: int| 0 <= i < s.len() ==> is_digit(#[trigger] s[i]),
    ensures
        digits_value(s.take(k)) <= digits_value(s),
    decreases s.len(),
{
    if k == s.len() {
        assert(s.take(k) =~= s);
    } else {
        assert(s.drop_last().take(k) =~= s.take(k));
        lemma_digits_value_take(s.drop_last(), k);
    }
}

/// Reads an unsigned 64-bit decimal number.
pub fn parse_u64(s: &str) -> (value: Option<u64>)
    ensures
        value == parsed_u64(s@),
{
    let chars = chars_of(s);
    let start: usize = if chars.len() > 0 && chars[0] == '+' {
        1
    } else {
        0
    };
    let ghost body = unsigned_body(s@);
    assert(forall|i: int| 0 <= i < body.len() ==> body[i] == chars@[i + start]);
    if start == chars.len() {
        return None;
    }
    let mut value: u64 = 0;
    let mut i: usize = start;
    while i < chars.len()
        invariant
            start <= i <= chars@.len(),
            start <= 1,
            chars@ == s@,
            body == unsigned_body(s@),
            body.len() == chars@.len() - start,
            forall|j: int| 0 <= j < body.len() ==> body[j] == chars@[j + start],
            forall|j: int| 0 <= j < i - start ==> is_digit(#[trigger] body[j]),
            value == digits_value(body.take(i - start)),
        decreases chars@.len() - i,
    {
        let c: char = chars[i];
        assert(c == body[i - start]);
        if !(c >= '0' && c <= '9') {
            return None;
        }
        let digit: u64 = (c as u32 - '0' as u32) as u64;
        proof {
            assert(body.take(i - start + 1).drop_last() =~= body.take(i - start));
            if forall|j: int| 0 <= j < body.len() ==> is_digit(#[trigger] body[j]) {
                lemma_digits_value_take(body, i - start + 1);
            }
        }
        if value > (u64::MAX - digit) / 10 {
            assert(10 * value + digit > u64::MAX);
            return None;
        }
        value = value * 10 + digit;
        i = i + 1;
    }
    assert(body.take(body.len() as int) =~= body);
    Some(value)
}

/// Decimal notation reads back as the number that it denotes.
pub proof fn lemma_decimal_reads_back(n: u64)
    ensures
        parsed_u64(decimal(n as nat)) == Some(n),
{
    lemma_decimal_digits(n as nat);
}

pub proof fn lemma_decimal_digits(n: nat)
    ensures
        decimal(n).len() > 0,
        forall|i: int| 0 <= i < decimal(n).len() ==> is_digit(#[trigger] decimal(n)[i]),
        digits_value(decimal(n)) == n,
    decreases n,
{
    if n < 10 {
        reveal_with_fuel(digits_value, 2);
        assert(decimal(n).drop_last() =~= Seq::<char>::empty());
    } else {
        lemma_decimal_digits(n / 10);
        assert(decimal(n).drop_last() =~= decimal(n / 10));
    }
}


/// The characters with the Unicode `White_Space` property.
pub open spec fn whitespace(c: char) -> bool {
    let code = c as u32;
    ||| 0x09 <= code <= 0x0d
    ||| code == 0x20
    ||| code == 0x85
    ||| code == 0xa0
    ||| code == 0x1680
    ||| 0x2000 <= code <= 0x200a
    ||| code == 0x2028
    ||| code == 0x2029
    ||| code == 0x202f
    ||| code == 0x205f
    ||| code == 0x3000
}

pub fn is_whitespace(c: char) -> (blank: bool)
    ensures
        blank == whitespace(c),
{
    let code: u32 = c as u32;
    (code >= 0x09 && code <= 0x0d) || code == 0x20 || code == 0x85 || code == 0xa0 || code == 0x1680
        || (code >= 0x2000 && code <= 0x200a) || code == 0x2028 || code == 0x2029 || code == 0x202f
        || code == 0x205f || code == 0x3000
}

pub open spec fn ascii_alphanumeric(c: char) -> bool {
    ('0' <= c <= '9') || ('a' <= c <= 'z') || ('A' <= c <= 'Z')
}

pub fn is_ascii_alphanumeric(c: char) -> (holds: bool)
    ensures
        holds == ascii_alphanumeric(c),
{
    (c >= '0' && c <= '9') || (c >= 'a' && c <= 'z') || (c >= 'A' && c <= 'Z')
}

/// The lower-case form of an ASCII letter; any other character is kept.
pub open spec fn ascii_lower(c: char) -> char {
    if 'A' <= c <= 'Z' {
        (c as u32 + 32) as char
    } else {
        c
    }
}

pub open spec fn lowercase(s: Seq<char>) -> Seq<char> {
    s.map_values(|c: char| ascii_lower(c))
}

fn lower_char(c: char) -> (lower: char)
    ensures
        lower == ascii_lower(c),
{
    if c >= 'A' && c <= 'Z' {
        let code: u8 = (c as u32 + 32) as u8;
        code as char
    } else {
        c
    }
}

/// Lower-cases the ASCII letters of a text.
pub fn lowercase_chars(chars: &[char]) -> (out: Vec<char>)
    ensures
        out@ == lowercase(chars@),
{
    let mut out: Vec<char> = Vec::new();
    let mut i: usize = 0;
    while i < chars.len()
        invariant
            i <= chars@.len(),
            out@ == lowercase(chars@.take(i as int)),
        decreases chars@.len() - i,
    {
        out.push(lower_char(chars[i]));
        assert(out@ =~= lowercase(chars@.take(i + 1)));
        i = i + 1;
    }
    assert(chars@.take(chars@.len() as int) =~= chars@);
    out
}

/// Whether `needle` stands in `text` at `at`.
pub open spec fn occurs_at(text: Seq<char>, needle: Seq<char>, at: int) -> bool {
    0 <= at && at + needle.len() <= text.len() && text.subrange(at, at + needle.len()) == needle
}

/// Whether `needle` stands anywhere in `text`.
pub open spec fn occurs(text: Seq<char>, needle: Seq<char>) -> bool {
    exists|at: int| #[trigger] occurs_at(text, needle, at)
}

pub fn matches_at(text: &[char], needle: &[char], at: usize) -> (found: bool)
    requires
        at <= text@.len(),
    ensures
        found == occurs_at(text@, needle@, at as int),
{
    let len: usize = text.len();
    if needle.len() > len - at {
        return false;
    }
    let mut i: usize = 0;
    while i < needle.len()
        invariant
            i <= needle@.len(),
            len == text@.len(),
            at + needle@.len() <= len,
            forall|j: int| 0 <= j < i ==> needle@[j] == text@[at + j],
        decreases needle@.len() - i,
    {
        if text[at + i] != needle[i] {
            assert(text@.subrange(at as int, at + needle@.len())[i as int] != needle@[i as int]);
            return false;
        }
        i = i + 1;
    }
    assert(text@.subrange(at as int, at + needle@.len()) =~= needle@);
    true
}

pub fn contains_text(text: &[char], needle: &str) -> (found: bool)
    ensures
        found == occurs(text@, needle@),
{
    let sought = chars_of(needle);
    let mut at: usize = 0;
    while at < text.len()
        invariant
            at <= text@.len(),
            sought@ == needle@,
            forall|j: int| 0 <= j < at ==> !#[trigger] occurs_at(text@, needle@, j),
        decreases text@.len() - at,
    {
        if matches_at(text, sought.as_slice(), at) {
            return true;
        }
        at = at + 1;
    }
    if sought.len() == 0 {
        assert(text@.subrange(at as int, at as int) =~= needle@);
        assert(occurs_at(text@, needle@, at as int));
    }
    sought.len() == 0
}

pub open spec fn starts_with(text: Seq<char>, prefix: Seq<char>) -> bool {
    occurs_at(text, prefix, 0)
}

pub fn has_prefix(text: &[char], prefix: &str) -> (found: bool)
    ensures
        found == starts_with(text@, prefix@),
{
    matches_at(text, chars_of(prefix).as_slice(), 0)
}

/// A text with each run of whitespace between words made one space, and none around them.
pub open spec fn collapsed(s: Seq<char>) -> Seq<char>
    decreases s.len(),
{
    if s.len() == 0 {
        seq![]
    } else if whitespace(s.last()) {
        collapsed(s.drop_last())
    } else if s.len() >= 2 && whitespace(s[s.len() - 2]) && collapsed(s.drop_last()).len() > 0 {
        collapsed(s.drop_last()).push(' ').push(s.last())
    } else {
        collapsed(s.drop_last()).push(s.last())
    }
}

pub fn collapse_whitespace(chars: &[char]) -> (out: Vec<char>)
    ensures
        out@ == collapsed(chars@),
{
    let mut out: Vec<char> = Vec::new();
    let mut i: usize = 0;
    assert(collapsed(chars@.take(0)) =~= Seq::<char>::empty());
    while i < chars.len()
        invariant
            i <= chars@.len(),
            out@ == collapsed(chars@.take(i as int)),
        decreases chars@.len() - i,
    {
        proof {
            assert(chars@.take(i + 1).drop_last() =~= chars@.take(i as int));
        }
        if !is_whitespace(chars[i]) {
            if i > 0 && is_whitespace(chars[i - 1]) && out.len() > 0 {
                out.push(' ');
            }
            out.push(chars[i]);
        }
        i = i + 1;
    }
    assert(chars@.take(chars@.len() as int) =~= chars@);
    out
}

/// Appends characters to a vector of characters.
pub fn append_chars(out: &mut Vec<char>, chars: &[char], from: usize, to: usize)
    requires
        from <= to <= chars@.len(),
    ensures
        final(out)@ == old(out)@ + chars@.subrange(from as int, to as int),
{
    let mut i: usize = from;
    while i < to
        invariant
            from <= i <= to <= chars@.len(),
            out@ == old(out)@ + chars@.subrange(from as int, i as int),
        decreases to - i,
    {
        out.push(chars[i]);
        assert(out@ =~= old(out)@ + chars@.subrange(from as int, i + 1));
        i = i + 1;
    }
    assert(out@ =~= old(out)@ + chars@.subrange(from as int, to as int));
}


/// Lexicographic order by code points, which is the byte order of UTF-8.
pub open spec fn text_less(a: Seq<char>, b: Seq<char>) -> bool
    decreases a.len(),
{
    if b.len() == 0 {
        false
    } else if a.len() == 0 {
        true
    } else if a[0] != b[0] {
        a[0] < b[0]
    } else {
        text_less(a.drop_first(), b.drop_first())
    }
}

pub proof fn lemma_text_less_irreflexive(a: Seq<char>)
    ensures
        !text_less(a, a),
    decreases a.len(),
{
    if a.len() > 0 {
        lemma_text_less_irreflexive(a.drop_first());
    }
}

pub proof fn lemma_text_less_transitive(a: Seq<char>, b: Seq<char>, c: Seq<char>)
    requires
        text_less(a, b),
        text_less(b, c),
    ensures
        text_less(a, c),
    decreases a.len(),
{
    if a.len() > 0 && a[0] == b[0] && b[0] == c[0] {
        lemma_text_less_transitive(a.drop_first(), b.drop_first(), c.drop_first());
    }
}

pub proof fn lemma_text_less_total(a: Seq<char>, b: Seq<char>)
    ensures
        a == b || text_less(a, b) || text_less(b, a),
        !(text_less(a, b) && text_less(b, a)),
    decreases a.len(),
{
    if a.len() == 0 || b.len() == 0 {
        if a.len() == 0 && b.len() == 0 {
            assert(a =~= b);
        }
    } else if a[0] == b[0] {
        lemma_text_less_total(a.drop_first(), b.drop_first());
        assert(a =~= seq![a[0]] + a.drop_first());
        assert(b =~= seq![b[0]] + b.drop_first());
    }
}

proof fn lemma_text_less_common(a: Seq<char>, b: Seq<char>, k: int)
    requires
        0 <= k <= a.len(),
        k <= b.len(),
        forall|i: int| 0 <= i < k ==> a[i] == b[i],
    ensures
        text_less(a, b) == text_less(a.skip(k), b.skip(k)),
    decreases k,
{
    if k == 0 {
        assert(a.skip(0) =~= a);
        assert(b.skip(0) =~= b);
    } else {
        lemma_text_less_common(a.drop_first(), b.drop_first(), k - 1);
        assert(a.drop_first().skip(k - 1) =~= a.skip(k));
        assert(b.drop_first().skip(k - 1) =~= b.skip(k));
    }
}

/// Whether `a` precedes `b` in lexicographic order.
pub fn str_less(a: &str, b: &str) -> (less: bool)
    ensures
        less == text_less(a@, b@),
{
    let left = chars_of(a);
    let right = chars_of(b);
    let mut i: usize = 0;
    while i < left.len() && i < right.len()
        invariant
            i <= left@.len(),
            i <= right@.len(),
            left@ == a@,
            right@ == b@,
            forall|j: int| 0 <= j < i ==> left@[j] == right@[j],
        decreases left@.len() - i,
    {
        if left[i] != right[i] {
            proof {
                lemma_text_less_common(a@, b@, i as int);
            }
            return left[i] < right[i];
        }
        i = i + 1;
    }
    proof {
        lemma_text_less_common(a@, b@, i as int);
    }
    left.len() < right.len()
}


/// Texts stand in lexicographic order, none twice.
pub open spec fn texts_ascend(texts: Seq<String>) -> bool {
    forall|i: int, j: int|
        0 <= i < j < texts.len() ==> text_less((#[trigger] texts[i])@, (#[trigger] texts[j])@)
}

/// No text occurs twice.
pub open spec fn texts_distinct(texts: Seq<String>) -> bool {
    forall|i: int, j: int| 0 <= i < j < texts.len() ==> (#[trigger] texts[i])@ != (
    #[trigger] texts[j])@
}

fn insert_text(sorted: &mut Vec<String>, text: String)
    requires
        texts_ascend(old(sorted)@),
        forall|j: int| 0 <= j < old(sorted)@.len() ==> (#[trigger] old(sorted)@[j])@ != text@,
    ensures
        texts_ascend(final(sorted)@),
        exists|at: int|
            0 <= at <= old(sorted)@.len() && final(sorted)@ == #[trigger] old(sorted)@.insert(
                at,
                text,
            ),
{
    let mut at: usize = 0;
    while at < sorted.len() && str_less(sorted[at].as_str(), text.as_str())
        invariant
            at <= sorted@.len(),
            sorted@ == old(sorted)@,
            forall|j: int| 0 <= j < at ==> text_less((#[trigger] sorted@[j])@, text@),
        decreases sorted@.len() - at,
    {
        at = at + 1;
    }
    let ghost before = sorted@;
    proof {
        assert forall|j: int| at <= j < before.len() implies text_less(
            text@,
            (#[trigger] before[j])@,
        ) by {
            lemma_text_less_total(before[at as int]@, text@);
            if j > at {
                lemma_text_less_transitive(text@, before[at as int]@, before[j]@);
            }
        }
    }
    sorted.insert(at, text);
    assert(sorted@ == before.insert(at as int, text));
}

/// Distinct texts in lexicographic order.
pub fn sorted_texts(texts: &Vec<String>) -> (sorted: Vec<String>)
    requires
        texts_distinct(texts@),
    ensures
        texts_ascend(sorted@),
        sorted@.len() == texts@.len(),
        forall|i: int| 0 <= i < texts@.len() ==> sorted@.contains(#[trigger] texts@[i]),
{
    let mut sorted: Vec<String> = Vec::new();
    let mut i: usize = 0;
    while i < texts.len()
        invariant
            i <= texts@.len(),
            texts_distinct(texts@),
            texts_ascend(sorted@),
            sorted@.len() == i,
            forall|j: int| 0 <= j < i ==> sorted@.contains(#[trigger] texts@[j]),
            forall|j: int|
                0 <= j < sorted@.len() ==> texts@.take(i as int).contains(#[trigger] sorted@[j]),
        decreases texts@.len() - i,
    {
        let text = texts[i].clone();
        let ghost before = sorted@;
        proof {
            assert forall|j: int| 0 <= j < before.len() implies (#[trigger] before[j])@
                != text@ by {
                let taken = texts@.take(i as int);
                let k = choose|k: int| 0 <= k < taken.len() && taken[k] == before[j];
                assert(texts@[k]@ != texts@[i as int]@);
            }
        }
        insert_text(&mut sorted, text);
        proof {
            let at = choose|at: int|
                0 <= at <= before.len() && sorted@ == #[trigger] before.insert(at, text);
            assert forall|j: int| 0 <= j < i + 1 implies sorted@.contains(
                #[trigger] texts@[j],
            ) by {
                if j == i {
                    assert(sorted@[at] == texts@[j]);
                } else {
                    let k = choose|k: int| 0 <= k < before.len() && before[k] == texts@[j];
                    assert(sorted@[if k < at { k } else { k + 1 }] == before[k]);
                }
            }
            assert forall|j: int| 0 <= j < sorted@.len() implies texts@.take(i + 1).contains(
                #[trigger] sorted@[j],
            ) by {
                let more = texts@.take(i + 1);
                if j == at {
                    assert(more[i as int] == sorted@[j]);
                } else {
                    let o = if j < at {
                        j
                    } else {
                        j - 1
                    };
                    let taken = texts@.take(i as int);
                    assert(taken.contains(before[o]));
                    let k = choose|k: int| 0 <= k < taken.len() && taken[k] == before[o];
                    assert(more[k] == sorted@[j]);
                }
            }
        }
        i = i + 1;
    }
    sorted
}

/// Two texts with a space between, or the one that is there.
pub open spec fn spaced(a: Seq<char>, b: Seq<char>) -> Seq<char> {
    if a.len() == 0 {
        b
    } else if b.len() == 0 {
        a
    } else {
        a.push(' ') + b
    }
}

/// A text without whitespace is left as it is; texts that whitespace stands
/// between are each made plain and joined by one space, however much of it there
/// was; whitespace around a text goes.
pub proof fn law_words_are_joined_by_one_space(a: Seq<char>, gap: char, b: Seq<char>)
    ensures
        (forall|i: int| 0 <= i < a.len() ==> !whitespace(#[trigger] a[i])) ==> collapsed(a) == a,
        whitespace(gap) ==> collapsed(a.push(gap) + b) == spaced(collapsed(a), collapsed(b)),
    decreases a.len(), b.len(),
{
    if a.len() > 0 && (forall|i: int| 0 <= i < a.len() ==> !whitespace(#[trigger] a[i])) {
        let rest = a.drop_last();
        assert forall|i: int| 0 <= i < rest.len() implies !whitespace(#[trigger] rest[i]) by {
            assert(rest[i] == a[i]);
        }
        law_words_are_joined_by_one_space(rest, 'x', seq![]);
        assert(!whitespace(a[a.len() - 1]));
        if a.len() >= 2 {
            assert(!whitespace(a[a.len() - 2]));
        }
        assert(rest.push(a.last()) =~= a);
    } else if a.len() == 0 {
        assert(collapsed(a) =~= a);
    }
    if whitespace(gap) {
        let whole = a.push(gap) + b;
        if b.len() == 0 {
            assert(whole =~= a.push(gap));
            assert(whole.drop_last() =~= a);
        } else {
            let rest = b.drop_last();
            law_words_are_joined_by_one_space(a, gap, rest);
            assert(whole.drop_last() =~= a.push(gap) + rest);
            assert(whole.last() == b.last());
            let x = b.last();
            if !whitespace(x) {
                lemma_collapsed_ends_in_words(rest);
                if rest.len() == 0 {
                    assert(whole[whole.len() - 2] == gap);
                    assert(collapsed(rest) =~= seq![]);
                    assert(collapsed(b) =~= seq![x]);
                    assert(collapsed(a).push(' ').push(x) =~= collapsed(a).push(' ') + seq![x]);
                    assert(collapsed(a).push(x) =~= collapsed(a) + seq![x]);
                } else {
                    assert(whole[whole.len() - 2] == b[b.len() - 2]);
                    assert(b[b.len() - 2] == rest.last());
                    let joined = spaced(collapsed(a), collapsed(rest));
                    if collapsed(rest).len() == 0 {
                        assert(collapsed(b) =~= seq![x]);
                        assert(joined.push(' ').push(x) =~= joined.push(' ') + seq![x]);
                    } else {
                        assert((collapsed(a).push(' ') + collapsed(rest)).push(x) =~= collapsed(
                            a,
                        ).push(' ') + collapsed(rest).push(x));
                        assert((collapsed(a).push(' ') + collapsed(rest)).push(' ').push(x)
                            =~= collapsed(a).push(' ') + collapsed(rest).push(' ').push(x));
                    }
                }
            }
        }
    }
}

/// What does not end in whitespace does not come to nothing.
proof fn lemma_collapsed_ends_in_words(s: Seq<char>)
    ensures
        s.len() > 0 && !whitespace(s.last()) ==> collapsed(s).len() > 0,
{
}

/// Of two texts that begin alike, the one that ends there comes first, else the
/// one whose next character does.
pub proof fn law_texts_are_ordered_by_their_first_difference(
    common: Seq<char>,
    a: Seq<char>,
    b: Seq<char>,
)
    ensures
        b.len() > 0 ==> text_less(common, common + b),
        a.len() > 0 && b.len() > 0 && a[0] < b[0] ==> text_less(common + a, common + b)
            && !text_less(common + b, common + a),
    decreases common.len(),
{
    if common.len() == 0 {
        assert(common + a =~= a);
        assert(common + b =~= b);
    } else {
        law_texts_are_ordered_by_their_first_difference(common.drop_first(), a, b);
        assert((common + a).drop_first() =~= common.drop_first() + a);
        assert((common + b).drop_first() =~= common.drop_first() + b);
    }
}

} // verus!
