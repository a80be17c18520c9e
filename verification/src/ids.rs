//! Identifiers of nodes, edges and chunks: the 128-bit value of a UUID.

use vstd::prelude::*;

verus! {

/// A fresh random identifier: the 128-bit value of `uuid::Uuid::new_v4()`.
/// The crate sets the version and variant bits of every such UUID, so the
/// value is never the nil UUID; nothing else is said of it.
#[verifier::external_body]
pub(crate) fn new_id() -> (r: u128)
    ensures
        r != 0,
{
    uuid::Uuid::new_v4().as_u128()
}

/// The lower-case hex digit of a value below 16.
pub open spec fn hex_digit(v: int) -> char {
    if v < 10 {
        (v + 48) as char
    } else {
        (v + 87) as char
    }
}

/// The `n` lowest hex digits of a number, the most significant first.
pub open spec fn hex_digits(x: int, n: nat) -> Seq<char>
    decreases n,
{
    if n == 0 {
        Seq::empty()
    } else {
        hex_digits(x / 16, (n - 1) as nat).push(hex_digit(x % 16))
    }
}

/// The hyphenated text of the UUID with the given value: its 32 lower-case
/// hex digits, the most significant first, in groups of 8, 4, 4, 4 and 12
/// joined by hyphens.
#[verifier::opaque]
pub open spec fn uuid_text(id: u128) -> Seq<char> {
    let h = hex_digits(id as int, 32);
    h.subrange(0, 8) + seq!['-'] + h.subrange(8, 12) + seq!['-'] + h.subrange(12, 16) + seq!['-'] + h.subrange(16, 20)
        + seq!['-'] + h.subrange(20, 32)
}

/// Formats an identifier as `uuid::Uuid::from_u128(id).to_string()` does:
/// `Display` writes the hyphenated lower-case form, the bytes of the value
/// taken most significant first.
#[verifier::external_body]
pub(crate) fn id_to_string(id: u128) -> (r: String)
    ensures
        r@ == uuid_text(id),
{
    uuid::Uuid::from_u128(id).to_string()
}

} // verus!

verus! {

/// What `uuid::Uuid::parse_str` gives for a text: the 128-bit value of the
/// UUID it spells, or `None` when it spells none.
pub uninterp spec fn parsed_uuid(s: Seq<char>) -> Option<u128>;

/// Reads a UUID with `uuid::Uuid::parse_str` (any of the formats that crate
/// accepts) and gives its 128-bit value; which texts are accepted is left to
/// the crate and only named here.
#[verifier::external_body]
fn uuid_from_text(s: &str) -> (r: Option<u128>)
    ensures
        r == parsed_uuid(s@),
{
    match uuid::Uuid::parse_str(s) {
        Ok(u) => Some(u.as_u128()),
        Err(_) => None,
    }
}

/// The id read from a text, or the error that the service answers for a
/// text that spells no UUID.
pub fn id_or_invalid(parsed: Option<u128>) -> (r: Result<u128, String>)
    ensures
        parsed matches Some(id) ==> r == Ok::<u128, String>(id),
        parsed is None ==> (r matches Err(m) && m@ == "Invalid UUID format"@),
{
    match parsed {
        Some(id) => Ok(id),
        None => Err(String::from_str("Invalid UUID format")),
    }
}

/// Reads a node id from its UUID text; a text that spells no UUID is
/// refused with "Invalid UUID format".
pub fn parse_uuid(s: &str) -> (r: Result<u128, String>)
    ensures
        parsed_uuid(s@) matches Some(id) ==> r == Ok::<u128, String>(id),
        parsed_uuid(s@) is None ==> (r matches Err(m) && m@ == "Invalid UUID format"@),
{
    id_or_invalid(uuid_from_text(s))
}

} // verus!
