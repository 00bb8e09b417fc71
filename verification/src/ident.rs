//! Fresh identifiers for notes and relations.

use vstd::prelude::*;

verus! {

/// Whether `c` is a lower-case hexadecimal digit.
pub open spec fn is_lower_hex(c: char) -> bool {
    ('0' <= c <= '9') || ('a' <= c <= 'f')
}

/// The shape of a version-4 identifier in hyphenated form: 36 characters,
/// hyphens after the 8th, 12th, 16th and 20th digit, lower-case hexadecimal
/// digits elsewhere, and the version digit `4`.
pub open spec fn is_identifier(s: Seq<char>) -> bool {
    &&& s.len() == 36
    &&& s[8] == '-' && s[13] == '-' && s[18] == '-' && s[23] == '-'
    &&& forall|i: int|
        0 <= i < 36 && i != 8 && i != 13 && i != 18 && i != 23 ==> is_lower_hex(#[trigger] s[i])
    &&& s[14] == '4'
}

/// Draws a random identifier with `uuid::Uuid::new_v4` and renders it through
/// its `Display` form. Trusted: the rendering is the lower-case hyphenated
/// form of a version-4 identifier. Nothing is claimed about which identifier
/// comes back; the draw aborts when the system has no random source.
#[verifier::external_body]
pub(crate) fn fresh_identifier() -> (id: String)
    ensures
        is_identifier(id@),
{
    uuid::Uuid::new_v4().to_string()
}

} // verus!
