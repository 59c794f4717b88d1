//! The base64 engine behind the legacy multibox encoding: RFC 4648 standard
//! alphabet with `=` padding on encode, and padding-indifferent decode (the
//! legacy decoder enforces canonical padding itself, by checking that the
//! encoded text is a whole number of four-byte blocks).

use vstd::prelude::*;

verus! {

use base64::Engine;

/// Everything that can go wrong when decoding base64 text.
#[derive(Debug, PartialEq, Eq, Clone)]
pub enum Base64DecodeError {
    /// An invalid byte at the given offset.
    InvalidByte(usize, u8),
    /// The number of base64 symbols in the input is invalid.
    InvalidLength(usize),
    /// The last symbol (offset, symbol, decoded bits) carries nonzero bits
    /// that a canonical encoding would not produce.
    InvalidLastSymbol(usize, u8, u8),
    /// The padding is malformed.
    InvalidPadding,
}

/// A byte that base64 encoding can produce: the standard alphabet
/// (`A`-`Z`, `a`-`z`, `0`-`9`, `+`, `/`) or the padding byte `=`.
pub open spec fn is_b64_byte(c: u8) -> bool {
    (65 <= c <= 90) || (97 <= c <= 122) || (48 <= c <= 57) || c == 43 || c == 47 || c == 61
}

/// The standard-alphabet, padded base64 encoding of a byte sequence.
pub uninterp spec fn b64_encode_of(bytes: Seq<u8>) -> Seq<u8>;

/// What padding-indifferent, standard-alphabet base64 decoding yields:
/// the decoded bytes, or `None` when the text is rejected.
pub uninterp spec fn b64_decode_of(text: Seq<u8>) -> Option<Seq<u8>>;

/// Relies on base64's `STANDARD_PAD_INDIFFERENT.encode`: the output is a
/// function of the input bytes alone; it is four bytes of standard alphabet
/// or `=` padding per three input bytes (rounded up); and decoding it with
/// the same engine gives back the input bytes.
#[verifier::external_body]
pub(crate) fn b64_encode(bytes: &[u8]) -> (r: Vec<u8>)
    requires
        4 * ((bytes@.len() + 2) / 3) <= usize::MAX,
    ensures
        r@ == b64_encode_of(bytes@),
        r@.len() == 4 * ((bytes@.len() + 2) / 3),
        forall|i: int| 0 <= i < r@.len() ==> is_b64_byte(#[trigger] r@[i]),
        b64_decode_of(r@) == Some(bytes@),
{
    base64::engine::general_purpose::STANDARD_PAD_INDIFFERENT.encode(bytes).into_bytes()
}

/// Relies on base64's `STANDARD_PAD_INDIFFERENT.decode`: success and the
/// decoded bytes are a function of the input text alone. The engine accepts
/// standard-alphabet text with correct or absent padding, and rejects bytes
/// outside the alphabet, misplaced padding, impossible symbol counts, and a
/// last symbol with nonzero discarded bits.
#[verifier::external_body]
pub(crate) fn b64_decode(text: &[u8]) -> (r: Result<Vec<u8>, Base64DecodeError>)
    ensures
        match r {
            Ok(v) => b64_decode_of(text@) == Some(v@),
            Err(_) => b64_decode_of(text@) is None,
        },
{
    match base64::engine::general_purpose::STANDARD_PAD_INDIFFERENT.decode(text) {
        Ok(v) => Ok(v),
        Err(base64::DecodeError::InvalidByte(i, b)) => Err(Base64DecodeError::InvalidByte(i, b)),
        Err(base64::DecodeError::InvalidLength(l)) => Err(Base64DecodeError::InvalidLength(l)),
        Err(base64::DecodeError::InvalidLastSymbol { offset, symbol, symbol_value }) => {
            Err(Base64DecodeError::InvalidLastSymbol(offset, symbol, symbol_value))
        }
        Err(base64::DecodeError::InvalidPadding) => Err(Base64DecodeError::InvalidPadding),
    }
}

} // verus!
