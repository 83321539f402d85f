//! Base58 text, as produced and read by the `bs58` crate with its default
//! alphabet.

use vstd::prelude::*;

verus! {

/// The error type of `bs58` decoding, opaque to verification.
#[verifier::external_type_specification]
#[verifier::external_body]
pub struct ExDecodeError(bs58::decode::Error);

/// The base58 text of a byte string.
pub uninterp spec fn base58_encoded(bytes: Seq<u8>) -> Seq<char>;

/// The bytes that a base58 text stands for; `None` where the text is not
/// base58.
pub uninterp spec fn base58_decoded(text: Seq<char>) -> Option<Seq<u8>>;

/// `bs58::encode(..).into_string()` on 32 bytes.
///
/// Trusted: the result is the base58 text of `bytes`, and decoding that text
/// gives exactly `bytes` back, leading zero bytes included.
#[verifier::external_body]
pub(crate) fn encode_id_bytes(bytes: &[u8; 32]) -> (text: String)
    ensures
        text@ == base58_encoded(bytes@),
        base58_decoded(text@) == Some(bytes@),
{
    bs58::encode(bytes).into_string()
}

/// `bs58::decode(..).into_vec()`.
///
/// Trusted: `Ok` holds the bytes that `text` stands for, and `Err` comes
/// exactly where `text` is not base58.
#[verifier::external_body]
pub(crate) fn decode_text(text: &str) -> (r: Result<Vec<u8>, bs58::decode::Error>)
    ensures
        match r {
            Ok(bytes) => base58_decoded(text@) == Some(bytes@),
            Err(_) => base58_decoded(text@) is None,
        },
{
    bs58::decode(text).into_vec()
}

} // verus!
