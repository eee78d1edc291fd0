//! UTF-8 decoding of chunk payloads, behind one trusted declaration.
use vstd::prelude::*;
use vstd::utf8::decode_utf8;
use vstd::utf8::valid_utf8;

verus! {

/// Relies on std::str::from_utf8: returns the decoded string slice
/// exactly when the bytes are valid UTF-8, and nothing otherwise.
#[verifier::external_body]
pub(crate) fn utf8_from_bytes(bytes: &[u8]) -> (r: Option<&str>)
    ensures
        r is Some <==> valid_utf8(bytes@),
        r matches Some(s) ==> s@ == decode_utf8(bytes@),
{
    std::str::from_utf8(bytes).ok()
}

} // verus!
