//! Identifiers of imported images.

use vstd::prelude::*;

verus! {

/// A lower-case hexadecimal digit.
pub open spec fn is_hex_digit(c: char) -> bool {
    ('0' <= c && c <= '9') || ('a' <= c && c <= 'f')
}

/// The shape of an identifier: a random UUID as 36 characters, five groups of
/// lower-case hexadecimal digits with hyphens between them, the third group
/// starting with the version 4, the fourth with one of `8`, `9`, `a`, `b`.
pub open spec fn is_identifier(id: Seq<char>) -> bool {
    &&& id.len() == 36
    &&& forall|i: int|
        0 <= i < 36 ==> if i == 8 || i == 13 || i == 18 || i == 23 {
            id[i] == '-'
        } else {
            is_hex_digit(#[trigger] id[i])
        }
    &&& id[14] == '4'
    &&& (id[19] == '8' || id[19] == '9' || id[19] == 'a' || id[19] == 'b')
}

/// Calls `uuid::Uuid::new_v4` and writes the result as text.
///
/// The identifier is drawn from the operating system's random numbers, so two
/// calls differ and nothing is promised of their values. Believed: the text
/// has the shape of `is_identifier`, which is how the crate prints a version 4
/// UUID. The crate gives up with a panic where the system has no random
/// numbers to give.
#[verifier::external_body]
pub(crate) fn fresh_identifier() -> (id: String)
    ensures
        is_identifier(id@),
{
    uuid::Uuid::new_v4().to_string()
}

} // verus!
