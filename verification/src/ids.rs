//! Random identifiers, as the hyphenated lowercase text of a version 4 UUID.

use vstd::prelude::*;

verus! {

pub open spec fn is_lower_hex(c: char) -> bool {
    ('0' <= c && c <= '9') || ('a' <= c && c <= 'f')
}

/// Whether `s` has the shape `xxxxxxxx-xxxx-xxxx-xxxx-xxxxxxxxxxxx` with
/// lowercase hexadecimal digits.
pub open spec fn is_hyphenated_uuid(s: Seq<char>) -> bool {
    &&& s.len() == 36
    &&& forall|i: int|
        0 <= i < 36 ==> if i == 8 || i == 13 || i == 18 || i == 23 {
            #[trigger] s[i] == '-'
        } else {
            is_lower_hex(s[i])
        }
}

/// A fresh random identifier: `uuid::Uuid::new_v4()` formatted with
/// `Display`, which writes the hyphenated lowercase form. The value is
/// random, so only its shape is claimed.
#[verifier::external_body]
pub fn random_uuid_text() -> (s: String)
    ensures
        is_hyphenated_uuid(s@),
{
    uuid::Uuid::new_v4().to_string()
}

} // verus!
