//! Fresh names for tasks that come without one.

use vstd::prelude::*;

verus! {

/// Whether a character is a hexadecimal digit, letters in lower case.
pub open spec fn is_hex_digit(c: char) -> bool {
    '0' <= c <= '9' || 'a' <= c <= 'f'
}

/// Whether a text is a random UUID (version 4 of RFC 9562) in its usual
/// notation: 32 hexadecimal digits in groups of 8, 4, 4, 4 and 12, with
/// hyphens between the groups, the third group beginning with the version and
/// the fourth with the variant.
pub open spec fn is_random_uuid(s: Seq<char>) -> bool {
    &&& s.len() == 36
    &&& forall|i: int|
        0 <= i < 36 ==> if i == 8 || i == 13 || i == 18 || i == 23 {
            #[trigger] s[i] == '-'
        } else {
            is_hex_digit(s[i])
        }
    &&& s[14] == '4'
    &&& s[19] == '8' || s[19] == '9' || s[19] == 'a' || s[19] == 'b'
}

/// `Uuid::new_v4` of the crate `uuid`, written out with `to_string`: a random
/// UUID in its usual notation, in lower case. Which one it is rests on chance,
/// so nothing else is claimed of it, in particular not that it differs from
/// others.
#[verifier::external_body]
pub(crate) fn random_uuid() -> (id: String)
    ensures
        is_random_uuid(id@),
{
    uuid::Uuid::new_v4().to_string()
}

} // verus!
