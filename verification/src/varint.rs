//! The variable-length integer encoding used by the compact multibox format:
//! a canonical, self-delimiting big-endian encoding of `u64` values.
//!
//! Values below 248 are a single byte. Larger values get a tag byte
//! (248 + k - 1 for k value bytes, 1 <= k <= 8) followed by the value in
//! big-endian order, using the smallest k that fits.

use vstd::prelude::*;

verus! {

use vstd::arithmetic::div_mod::lemma_fundamental_div_mod;

/// Everything that can go wrong when decoding a varint.
#[derive(Debug, PartialEq, Eq, Clone)]
pub enum VaruDecodeError {
    /// The encoding is not the shortest possible one for the number.
    /// Carries the encoded number.
    NonCanonical(u64),
    /// The input holds less data than the encoding needs.
    UnexpectedEndOfInput,
}

/// How many bytes the encoding of `n` takes up.
pub open spec fn varu_len(n: u64) -> int {
    if n < 248 {
        1
    } else if n < 256 {
        2
    } else if n < 65536 {
        3
    } else if n < 16777216 {
        4
    } else if n < 4294967296 {
        5
    } else if n < 1099511627776 {
        6
    } else if n < 281474976710656 {
        7
    } else if n < 72057594037927936 {
        8
    } else {
        9
    }
}

/// The `k` least significant bytes of `n`, in big-endian order.
pub open spec fn be_bytes(n: nat, k: nat) -> Seq<u8>
    decreases k,
{
    if k == 0 {
        Seq::empty()
    } else {
        be_bytes(n / 256, (k - 1) as nat).push((n % 256) as u8)
    }
}

/// The value of a big-endian byte sequence.
pub open spec fn be_val(s: Seq<u8>) -> nat
    decreases s.len(),
{
    if s.len() == 0 {
        0
    } else {
        be_val(s.drop_last()) * 256 + (s.last() as nat)
    }
}

/// 256 to the power `k`.
pub open spec fn pow256(k: nat) -> nat
    decreases k,
{
    if k == 0 {
        1
    } else {
        256 * pow256((k - 1) as nat)
    }
}

/// The canonical varint encoding of `n`.
pub open spec fn varu_enc(n: u64) -> Seq<u8> {
    if n < 248 {
        seq![n as u8]
    } else {
        seq![(246 + varu_len(n)) as u8] + be_bytes(n as nat, (varu_len(n) - 1) as nat)
    }
}

/// What decoding a varint from the front of `s` yields: the value and the
/// unconsumed remainder, or the error. A tag byte of 248 + k - 1 announces
/// k big-endian value bytes; an encoding longer than the value needs is
/// rejected as non-canonical.
pub open spec fn varu_decode_spec(s: Seq<u8>) -> Result<(u64, Seq<u8>), VaruDecodeError> {
    if s.len() == 0 {
        Err(VaruDecodeError::UnexpectedEndOfInput)
    } else if s[0] < 248 {
        Ok((s[0] as u64, s.skip(1)))
    } else {
        let total = s[0] as int - 246;
        if s.len() < total {
            Err(VaruDecodeError::UnexpectedEndOfInput)
        } else {
            let n = be_val(s.subrange(1, total));
            if total > varu_len(n as u64) {
                Err(VaruDecodeError::NonCanonical(n as u64))
            } else {
                Ok((n as u64, s.skip(total)))
            }
        }
    }
}

/// Relies on `varu64::decode`: it reads one canonical varint from the front
/// of the input and returns the value with the unconsumed remainder, or
/// `UnexpectedEndOfInput` when the input is shorter than the encoding needs,
/// or `NonCanonical` when the encoding is longer than the smallest one for
/// the value. Its other two error variants only arise in the crate's
/// non-zero decoding entry points, never from `decode`.
#[verifier::external_body]
pub(crate) fn varu_decode<'a>(s: &'a [u8]) -> (r: Result<(u64, &'a [u8]), VaruDecodeError>)
    ensures
        match r {
            Ok(p) => varu_decode_spec(s@) == Ok::<(u64, Seq<u8>), VaruDecodeError>((p.0, p.1@)),
            Err(e) => varu_decode_spec(s@) == Err::<(u64, Seq<u8>), VaruDecodeError>(e),
        },
{
    match varu64::decode(s) {
        Ok((n, rest)) => Ok((n, rest)),
        Err((varu64::DecodeError::NonCanonical { encoded_number }, _)) => {
            Err(VaruDecodeError::NonCanonical(encoded_number))
        }
        Err((varu64::DecodeError::UnexpectedEndOfInput, _)) => {
            Err(VaruDecodeError::UnexpectedEndOfInput)
        }
        Err((varu64::DecodeError::ExpectedANonZeroU64, _)) => {
            Err(VaruDecodeError::UnexpectedEndOfInput)
        }
        Err((varu64::DecodeError::EncodedNonZeroValueOverflowed, _)) => {
            Err(VaruDecodeError::UnexpectedEndOfInput)
        }
    }
}

/// Relies on `varu64::encode`: it writes the canonical varint encoding of
/// `n` (at most 9 bytes) into the buffer and returns how many bytes it
/// wrote.
#[verifier::external_body]
pub(crate) fn varu_encode_vec(n: u64) -> (r: Vec<u8>)
    ensures
        r@ == varu_enc(n),
{
    let mut buf = [0u8; 9];
    let len = varu64::encode(n, &mut buf);
    buf[..len].to_vec()
}

proof fn lemma_be_val_be_bytes(n: nat, k: nat)
    requires
        n < pow256(k),
    ensures
        be_bytes(n, k).len() == k,
        be_val(be_bytes(n, k)) == n,
    decreases k,
{
    if k == 0 {
    } else {
        assert(pow256(k) == 256 * pow256((k - 1) as nat));
        assert(n / 256 < pow256((k - 1) as nat)) by (nonlinear_arith)
            requires
                n < 256 * pow256((k - 1) as nat),
        ;
        lemma_be_val_be_bytes(n / 256, (k - 1) as nat);
        let prev = be_bytes(n / 256, (k - 1) as nat);
        let whole = prev.push((n % 256) as u8);
        assert(whole.drop_last() =~= prev);
        assert(whole.last() == (n % 256) as u8);
        lemma_fundamental_div_mod(n as int, 256);
    }
}

proof fn lemma_varu_len_bound(n: u64)
    ensures
        1 <= varu_len(n) <= 9,
        (n as nat) < pow256((varu_len(n) - 1) as nat) || n < 248,
{
    reveal_with_fuel(pow256, 10);
}

/// A varint decodes from the front of any byte stream that begins with its
/// canonical encoding, yielding the value and the exact remainder.
pub proof fn lemma_varu_round_trip(n: u64, rest: Seq<u8>)
    ensures
        varu_decode_spec(varu_enc(n) + rest) == Ok::<(u64, Seq<u8>), VaruDecodeError>((n, rest)),
{
    let s = varu_enc(n) + rest;
    if n < 248 {
        assert(s[0] == n as u8);
        assert(s.skip(1) =~= rest);
    } else {
        lemma_varu_len_bound(n);
        let k = (varu_len(n) - 1) as nat;
        assert((n as nat) < pow256(k));
        lemma_be_val_be_bytes(n as nat, k);
        let tag = (246 + varu_len(n)) as u8;
        assert(s[0] == tag);
        assert(248 <= tag <= 255);
        let total = tag as int - 246;
        assert(total == varu_len(n));
        assert(s.len() == varu_len(n) + rest.len());
        assert(s.subrange(1, total) =~= be_bytes(n as nat, k));
        assert(be_val(s.subrange(1, total)) == n as nat);
        assert(s.skip(total) =~= rest);
    }
}

} // verus!
