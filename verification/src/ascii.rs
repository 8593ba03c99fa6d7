//! ASCII text and its bytes.

use vstd::prelude::*;
use vstd::string::*;

verus! {

/// The bytes of ASCII text: one for each character, with the character's
/// number.
pub proof fn lemma_ascii_bytes(s: &str)
    requires
        s.is_ascii(),
    ensures
        s.spec_bytes().len() == s@.len(),
        forall|i: int|
            0 <= i < s@.len() ==> '\0' <= s@[i] <= '\u{7f}' && #[trigger] s.spec_bytes()[i]
                == s@[i] as u8,
{
    is_ascii_spec_bytes(s);
}

} // verus!
