//! Game identifiers: 128-bit values drawn and decoded by the uuid crate
//! behind trusted wrappers.

use vstd::prelude::*;

verus! {

/// What uuid's `Uuid::parse_str` yields for a given string: the identifier's
/// 128-bit value, or nothing when the text is not a well-formed identifier.
pub uninterp spec fn uuid_of(s: Seq<char>) -> Option<int>;

/// Relies on uuid's `Uuid::parse_str` (the `FromStr` parse) and `as_u128`;
/// the result depends on the input characters alone.
#[verifier::external_body]
pub fn parse_uuid(s: &str) -> (r: Option<u128>)
    ensures
        match r {
            Some(v) => uuid_of(s@) == Some(v as int),
            None => uuid_of(s@) is None,
        },
{
    match uuid::Uuid::parse_str(s) {
        Ok(u) => Some(u.as_u128()),
        Err(_) => None,
    }
}

/// Relies on uuid's `Uuid::new_v4` and `as_u128`: a freshly drawn random
/// identifier; nothing is assumed of its value.
#[verifier::external_body]
pub fn fresh_uuid() -> (r: u128) {
    uuid::Uuid::new_v4().as_u128()
}

} // verus!
