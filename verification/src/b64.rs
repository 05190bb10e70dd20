//! Base64 text for the `binary` YANG type, through the base64 crate.

use vstd::prelude::*;

verus! {

/// The base64 text of a byte sequence, as the STANDARD engine writes it.
pub uninterp spec fn b64_of(b: Seq<u8>) -> Seq<char>;

/// The bytes a base64 text stands for, if it is the encoding of any.
pub open spec fn spec_b64_decode(s: Seq<char>) -> Option<Seq<u8>> {
    if exists|bs: Seq<u8>| b64_of(bs) == s {
        Some(choose|bs: Seq<u8>| b64_of(bs) == s)
    } else {
        None
    }
}

/// Relies on base64's STANDARD engine encode: the output depends on the
/// input bytes alone, and empty input gives the empty string.
#[verifier::external_body]
pub fn b64_encode(b: &[u8]) -> (r: String)
    ensures
        r@ == b64_of(b@),
        b@.len() == 0 ==> r@.len() == 0,
{
    base64::Engine::encode(&base64::engine::general_purpose::STANDARD, b)
}

/// Relies on base64's STANDARD engine decode: it accepts exactly the
/// canonical encodings (padding required, trailing bits refused) and
/// returns the bytes that encode to the input.
#[verifier::external_body]
pub fn b64_decode(s: &str) -> (r: Option<Vec<u8>>)
    ensures
        r matches Some(d) ==> s@ == b64_of(d@) && (forall|bs: Seq<u8>|
            s@ == b64_of(bs) ==> d@ == bs),
        r is None ==> (forall|bs: Seq<u8>| s@ != b64_of(bs)),
{
    match base64::Engine::decode(&base64::engine::general_purpose::STANDARD, s) {
        Ok(d) => Some(d),
        Err(_) => None,
    }
}

} // verus!
