//! Transport encoding of icon payloads: binary image bytes cross the
//! interface boundary as standard base64 text.

use vstd::prelude::*;
use base64::Engine;
use crate::error::Error;

verus! {

/// The base64 text of the given bytes, under the standard alphabet with
/// padding. A function of the bytes alone.
pub uninterp spec fn b64_of(bytes: Seq<u8>) -> Seq<char>;

/// Relies on base64's standard engine (`general_purpose::STANDARD`):
/// encoding is deterministic in the input bytes.
#[verifier::external_body]
pub(crate) fn b64_encode(bytes: &Vec<u8>) -> (r: String)
    ensures
        r@ == b64_of(bytes@),
{
    base64::engine::general_purpose::STANDARD.encode(bytes)
}

/// Relies on base64's standard engine decode, which is strict: it requires
/// canonical padding and rejects non-zero trailing bits, so a successful
/// decode means the input is exactly the encoding of the result; and
/// decoding an encoding always succeeds with the original bytes.
#[verifier::external_body]
pub(crate) fn b64_decode(s: &str) -> (r: Result<Vec<u8>, Error>)
    ensures
        r matches Ok(b) ==> s@ == b64_of(b@),
        r matches Ok(v) ==> forall|b: Seq<u8>| s@ == b64_of(b) ==> v@ == b,
        r matches Err(e) ==> e matches Error::DecodeError(_) && (forall|b: Seq<u8>|
            s@ != b64_of(b)),
{
    match base64::engine::general_purpose::STANDARD.decode(s) {
        Ok(b) => Ok(b),
        Err(e) => Err(Error::DecodeError(format!("invalid base64 payload: {}", e))),
    }
}

} // verus!
