//! Standard base64 text, as it arrives in requests and in the configuration.

use base64::prelude::BASE64_STANDARD;
use base64::Engine;
use vstd::prelude::*;

verus! {

/// The error of the `base64` crate's decoder, carried through unread.
#[verifier::external_type_specification]
#[verifier::external_body]
pub struct ExDecodeError(base64::DecodeError);

/// What the `STANDARD` engine of the `base64` crate makes of `text`: the bytes
/// that it decodes to, or `None` where the engine refuses it. The engine reads
/// the alphabet `A-Z a-z 0-9 + /` and wants the padding with `=`.
pub uninterp spec fn base64_decoding(text: Seq<char>) -> Option<Seq<u8>>;

/// Calls `decode` of the `base64` crate's `STANDARD` engine on `text`.
///
/// Trusted: what the engine returns depends on `text` alone, so that
/// `base64_decoding` can stand for it.
#[verifier::external_body]
fn engine_decode(text: &str) -> (decoded: Result<Vec<u8>, base64::DecodeError>)
    ensures
        match decoded {
            Ok(bytes) => base64_decoding(text@) == Some(bytes@),
            Err(_) => base64_decoding(text@) is None,
        },
{
    BASE64_STANDARD.decode(text)
}

/// Decodes standard base64 text.
pub fn decode_base64(text: &str) -> (decoded: Option<Vec<u8>>)
    ensures
        match decoded {
            Some(bytes) => base64_decoding(text@) == Some(bytes@),
            None => base64_decoding(text@) is None,
        },
{
    match engine_decode(text) {
        Ok(bytes) => Some(bytes),
        Err(_) => None,
    }
}

} // verus!
