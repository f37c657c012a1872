//! Calls into other crates, with what is relied on of each.
use vstd::prelude::*;

verus! {

pub open spec fn lower_hex(c: char) -> bool {
    ('0' <= c <= '9') || ('a' <= c <= 'f')
}

/// The hyphenated form of a version 4 UUID.
pub open spec fn uuid_text(s: Seq<char>) -> bool {
    &&& s.len() == 36
    &&& s[8] == '-' && s[13] == '-' && s[18] == '-' && s[23] == '-'
    &&& s[14] == '4'
    &&& forall|i: int|
        0 <= i < 36 && i != 8 && i != 13 && i != 18 && i != 23 ==> lower_hex(#[trigger] s[i])
}

/// `uuid::Uuid::new_v4` with its `Display` form: lower-case hexadecimal digits
/// in the hyphenated layout, with the version digit 4. Which UUID comes is random
/// and left open.
#[verifier::external_body]
pub(crate) fn fresh_uuid() -> (id: String)
    ensures
        uuid_text(id@),
{
    uuid::Uuid::new_v4().to_string()
}

/// The SHA-256 digest of some bytes in lower-case hexadecimal digits.
pub uninterp spec fn sha256_hex_of(bytes: Seq<u8>) -> Seq<char>;

/// `sha2::Sha256` over the whole input, formatted with `{:x}`: 64 lower-case
/// hexadecimal digits that depend on the bytes alone.
#[verifier::external_body]
pub(crate) fn sha256_hex(bytes: &[u8]) -> (digest: String)
    ensures
        digest@ == sha256_hex_of(bytes@),
        digest@.len() == 64,
        forall|i: int| 0 <= i < digest@.len() ==> lower_hex(#[trigger] digest@[i]),
{
    format!("{:x}", <sha2::Sha256 as sha2::Digest>::digest(bytes))
}

/// The string that a JSON object has under a key, where the document is an
/// object and that member is a string.
pub uninterp spec fn json_string_member_of(document: Seq<char>, key: Seq<char>) -> Option<Seq<char>>;

/// `serde_json::from_str` to a `Value`, then `Value::get` and `Value::as_str`:
/// the result depends on the document and the key alone, and is absent where
/// the document does not parse, is no object, or has no such string member.
#[verifier::external_body]
pub(crate) fn json_string_member(document: &str, key: &str) -> (member: Option<String>)
    ensures
        match member {
            Some(text) => json_string_member_of(document@, key@) == Some(text@),
            None => json_string_member_of(document@, key@) is None,
        },
{
    let value: serde_json::Value = serde_json::from_str(document).ok()?;
    value.get(key)?.as_str().map(str::to_owned)
}

} // verus!
