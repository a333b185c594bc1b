//! Base64 between the editor frontend and the files the backend writes,
//! through the `base64` crate's standard engine.
use vstd::prelude::*;
use base64::DecodeError;
use base64::Engine;

verus! {

#[verifier::external_type_specification]
#[verifier::external_body]
pub struct ExDecodeError(DecodeError);

/// What the standard engine (RFC 4648 alphabet, with padding) encodes the
/// bytes to.
pub uninterp spec fn base64_encoding(bytes: Seq<u8>) -> Seq<char>;

/// What the standard engine decodes the text to; `None` when it refuses the
/// text.
pub uninterp spec fn base64_decoding(text: Seq<char>) -> Option<Seq<u8>>;

/// `STANDARD.encode`. The standard engine pads its output and requires
/// canonical padding when decoding, so decoding what it encoded gives the
/// bytes back.
#[verifier::external_body]
fn standard_encode(bytes: &[u8]) -> (r: String)
    ensures
        r@ == base64_encoding(bytes@),
        base64_decoding(r@) == Some(bytes@),
{
    base64::engine::general_purpose::STANDARD.encode(bytes)
}

/// `STANDARD.decode`.
#[verifier::external_body]
fn standard_decode(text: &str) -> (r: Result<Vec<u8>, DecodeError>)
    ensures
        match base64_decoding(text@) {
            Some(b) => r matches Ok(v) && v@ == b,
            None => r is Err,
        },
{
    base64::engine::general_purpose::STANDARD.decode(text)
}

/// The base64 text the frontend receives for a converted document.
pub fn encode_payload(bytes: &[u8]) -> (r: String)
    ensures
        r@ == base64_encoding(bytes@),
        base64_decoding(r@) == Some(bytes@),
{
    standard_encode(bytes)
}

/// The bytes the frontend sent as base64 text; the decoder's message when
/// the text is not valid base64.
pub fn decode_payload(data: &str) -> (r: Result<Vec<u8>, String>)
    ensures
        match base64_decoding(data@) {
            Some(b) => r matches Ok(v) && v@ == b,
            None => r is Err,
        },
{
    match standard_decode(data) {
        Ok(v) => Ok(v),
        Err(e) => Err(e.to_string()),
    }
}

} // verus!
