//! Identifiers for new records.

use uuid::Uuid;
use vstd::prelude::*;

verus! {

pub open spec fn is_lower_hex(c: char) -> bool {
    '0' <= c <= '9' || 'a' <= c <= 'f'
}

/// The text of a random UUID (version 4, the variant of RFC 9562): 32 lower case hexadecimal
/// digits in groups of 8, 4, 4, 4 and 12 with a hyphen between each two groups.
pub open spec fn is_v4_text(s: Seq<char>) -> bool {
    &&& s.len() == 36
    &&& forall|i: int|
        0 <= i < 36 ==> if i == 8 || i == 13 || i == 18 || i == 23 {
            #[trigger] s[i] == '-'
        } else {
            is_lower_hex(s[i])
        }
    &&& s[14] == '4'
    &&& s[19] == '8' || s[19] == '9' || s[19] == 'a' || s[19] == 'b'
}

/// `uuid::Uuid::new_v4` and its text: a random UUID in lower case hyphenated form. Which one is
/// up to chance. The call panics where the system gives no random bytes.
#[verifier::external_body]
pub(crate) fn new_v4() -> (r: String)
    ensures
        is_v4_text(r@),
{
    Uuid::new_v4().to_string()
}

} // verus!
