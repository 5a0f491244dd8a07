//! Identifiers of tasks and clocks.
//!
//! An identifier is a 128-bit number. Fresh ones are drawn at random, and
//! the textual form is the hyphenated one of a UUID.

use uuid::Uuid;
use vstd::prelude::*;

verus! {

/// An opaque 128-bit identifier.
pub type Id = u128;

/// Whether `id` carries the marks of a random (version 4) identifier:
/// version nibble 4 and the two variant bits `10`.
pub open spec fn is_random_id(id: u128) -> bool {
    (id >> 76) & 0xf == 4 && (id >> 62) & 0x3 == 2
}

/// What the text of an identifier parses to, `None` where it is malformed.
pub uninterp spec fn parsed_id(text: Seq<char>) -> Option<u128>;

/// The hyphenated lower-case text of an identifier.
pub uninterp spec fn id_text(id: u128) -> Seq<char>;

/// Draws a fresh identifier with `uuid::Uuid::new_v4`.
///
/// Not proved: that the result carries the version and variant marks, which
/// `new_v4` sets by masking the random bits. Nothing is said of the other
/// bits: they are random.
#[verifier::external_body]
pub(crate) fn new_id() -> (id: u128)
    ensures
        is_random_id(id),
{
    Uuid::new_v4().as_u128()
}

/// Parses an identifier with `uuid::Uuid`'s `FromStr`.
///
/// Not proved: that the outcome is a function of the text alone, named
/// [`parsed_id`].
#[verifier::external_body]
pub(crate) fn parse_id(text: &str) -> (r: Option<u128>)
    ensures
        r == parsed_id(text@),
{
    match text.parse::<Uuid>() {
        Ok(id) => Some(id.as_u128()),
        Err(_) => None,
    }
}

/// Writes an identifier with `uuid::Uuid`'s `Display`.
///
/// Not proved: that the text is a function of the identifier alone, named
/// [`id_text`].
#[verifier::external_body]
pub(crate) fn format_id(id: u128) -> (s: String)
    ensures
        s@ == id_text(id),
{
    Uuid::from_u128(id).to_string()
}

} // verus!
