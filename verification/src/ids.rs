//! Fresh record identifiers: random (version 4) UUIDs in their hyphenated
//! text form.

use vstd::prelude::*;

verus! {

/// A lower-case hexadecimal digit.
pub open spec fn is_lower_hex(c: char) -> bool {
    ('0' <= c && c <= '9') || ('a' <= c && c <= 'f')
}

/// `s` is a random UUID written as `xxxxxxxx-xxxx-4xxx-yxxx-xxxxxxxxxxxx`:
/// 36 characters, hyphens at 8, 13, 18 and 23, lower-case hexadecimal
/// digits elsewhere, the version digit `4` at 14 and one of `8`, `9`, `a`,
/// `b` (the variant) at 19.
pub open spec fn is_v4_uuid_text(s: Seq<char>) -> bool {
    &&& s.len() == 36
    &&& forall|i: int|
        0 <= i < 36 ==> if i == 8 || i == 13 || i == 18 || i == 23 {
            s[i] == '-'
        } else {
            is_lower_hex(#[trigger] s[i])
        }
    &&& s[14] == '4'
    &&& (s[19] == '8' || s[19] == '9' || s[19] == 'a' || s[19] == 'b')
}

/// Calls `uuid::Uuid::new_v4` and formats it with `to_string`. The crate
/// draws 122 random bits and fixes the version (4) and variant bits, and
/// `Display` writes the lower-case hyphenated form; that form is what the
/// contract claims. Which random bits come out is not stated. The call
/// panics only when the operating system cannot supply random bytes.
#[verifier::external_body]
pub(crate) fn new_v4_text() -> (id: String)
    ensures
        is_v4_uuid_text(id@),
{
    uuid::Uuid::new_v4().to_string()
}

} // verus!
