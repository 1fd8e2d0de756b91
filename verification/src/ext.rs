//! Trusted boundary to the outside crates and to the few std functions
//! that vstd leaves unspecified. Every verified function that needs a
//! fresh identifier, the current time, a JSON string, or a Unicode
//! character class goes through exactly one wrapper here.
use vstd::prelude::*;

verus! {

/// The JSON string literal that encodes a piece of text: the quoted,
/// escaped form that `serde_json` produces. A function of the text alone.
pub uninterp spec fn json_str_of(s: Seq<char>) -> Seq<char>;

/// Whether a character is alphanumeric in the Unicode sense of
/// `char::is_alphanumeric`. A function of the character alone.
pub uninterp spec fn is_alnum(c: char) -> bool;

/// Relies on `uuid::Uuid::new_v4` and its `Display` form: a freshly drawn
/// random identifier. Nothing is promised of the value; callers must
/// handle a collision with an existing identifier.
#[verifier::external_body]
pub(crate) fn fresh_id() -> (r: String) {
    uuid::Uuid::new_v4().to_string()
}

/// Relies on `chrono::Utc::now` and `DateTime::to_rfc3339`: the current
/// wall-clock instant rendered as ISO-8601/RFC 3339 text. The value
/// depends on the clock, so nothing is promised of it.
#[verifier::external_body]
pub(crate) fn now_rfc3339() -> (r: String) {
    chrono::Utc::now().to_rfc3339()
}

/// Relies on `serde_json::to_string`: serializing a string slice yields
/// its JSON string literal and cannot fail (only maps with non-string
/// keys or a failing `Serialize` impl can).
#[verifier::external_body]
pub(crate) fn json_quote(s: &str) -> (r: String)
    ensures
        r@ == json_str_of(s@),
{
    match serde_json::to_string(s) {
        Ok(r) => r,
        Err(_) => String::new(),
    }
}

/// Relies on `char::is_alphanumeric` of std, which vstd does not specify:
/// the Unicode alphanumeric classification of the character.
#[verifier::external_body]
pub(crate) fn char_is_alphanumeric(c: char) -> (r: bool)
    ensures
        r == is_alnum(c),
{
    c.is_alphanumeric()
}

/// Relies on `String::push` of std, which vstd does not specify: appends
/// the given character to the end of the string.
#[verifier::external_body]
pub(crate) fn push_char(s: &mut String, c: char)
    ensures
        final(s)@ == old(s)@.push(c),
{
    s.push(c)
}

} // verus!
