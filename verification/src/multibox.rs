//! The multibox value and its two wire encodings.
//!
//! A multibox wraps a ciphertext payload together with a variant tag; this
//! codec never decrypts, it only transports the bytes faithfully. The legacy
//! encoding is base64 text followed by the literal suffix `.box`, embedded in
//! a quote-delimited context; the compact encoding is a varint type tag, a
//! varint length, and the payload bytes.

use vstd::prelude::*;

verus! {

use crate::b64::{b64_decode, b64_decode_of, b64_encode, b64_encode_of, is_b64_byte,
    Base64DecodeError};
use crate::varint::{varu_decode, varu_decode_spec, varu_enc, varu_encode_vec, VaruDecodeError};
use crate::varint::lemma_varu_round_trip;
use vstd::slice::{slice_subrange, slice_to_vec};

/// Everything that can go wrong when decoding a `Multibox` from the compact
/// encoding.
#[derive(Debug, PartialEq, Eq, Clone)]
pub enum DecodeCompactError {
    /// The type indicator was invalid.
    InvalidType(VaruDecodeError),
    /// The length indicator was invalid.
    InvalidLength(VaruDecodeError),
    /// Needed more input to continue decoding.
    NotEnoughInput,
    /// The type indicator names a variant this implementation does not know.
    UnknownVariant(u64),
}

/// A multibox that owns its data. This does no decryption, it stores
/// ciphertext.
#[derive(Debug, Eq, Clone, PartialOrd, Ord)]
pub struct Multibox(MultiboxInner);

#[derive(Debug, PartialEq, Eq, Clone, PartialOrd, Ord)]
enum MultiboxInner {
    PrivateBox(Vec<u8>),
}

impl View for Multibox {
    type V = Seq<u8>;

    closed spec fn view(&self) -> Seq<u8> {
        match self.0 {
            MultiboxInner::PrivateBox(v) => v@,
        }
    }
}

impl PartialEq for Multibox {
    fn eq(&self, other: &Multibox) -> (r: bool) {
        match (&self.0, &other.0) {
            (MultiboxInner::PrivateBox(a), MultiboxInner::PrivateBox(b)) => vec_u8_eq(a, b),
        }
    }
}

impl vstd::std_specs::cmp::PartialEqSpecImpl for Multibox {
    open spec fn obeys_eq_spec() -> bool {
        true
    }

    open spec fn eq_spec(&self, other: &Multibox) -> bool {
        self@ == other@
    }
}

fn vec_u8_eq(a: &Vec<u8>, b: &Vec<u8>) -> (r: bool)
    ensures
        r == (a@ == b@),
{
    if a.len() != b.len() {
        proof {
            assert(a@ != b@);
        }
        return false;
    }
    let n: usize = a.len();
    let mut i: usize = 0;
    while i < n
        invariant
            n == a@.len() == b@.len(),
            0 <= i <= n,
            forall|j: int| 0 <= j < i ==> a@[j] == b@[j],
        decreases n - i,
    {
        if a[i] != b[i] {
            return false;
        }
        i += 1;
    }
    proof {
        assert(a@ =~= b@);
    }
    true
}

impl Multibox {
    /// Wraps raw ciphertext bytes as a private-box multibox.
    pub fn private_box(payload: Vec<u8>) -> (m: Multibox)
        ensures
            m@ == payload@,
    {
        Multibox(MultiboxInner::PrivateBox(payload))
    }

    /// The ciphertext bytes, exactly as supplied at construction or decode
    /// time.
    pub fn payload(&self) -> (r: &Vec<u8>)
        ensures
            r@ == self@,
    {
        match &self.0 {
            MultiboxInner::PrivateBox(v) => v,
        }
    }

    /// Parses a legacy encoding into a `Multibox`. This expects the suffix
    /// to be terminated by a quote (`"`, U+0022), and returns a slice
    /// starting at the first byte *after* the quote.
    pub fn from_legacy<'a>(s: &'a [u8]) -> (r: Result<(Multibox, &'a [u8]), DecodeLegacyError>)
        ensures
            match r {
                Ok(p) => legacy_decode_ok(s@) == Some((p.0@, p.1@)),
                Err(e) => legacy_decode_ok(s@) is None && legacy_error_matches(s@, e),
            },
    {
        match split_at_byte(s, 46) {
            None => Err(DecodeLegacyError::NoDot),
            Some((data, suffix)) => match skip_box_prefix(suffix) {
                None => Err(DecodeLegacyError::UnknownSuffix),
                Some(tail) => match split_at_byte(tail, 34) {
                    None => Err(DecodeLegacyError::NoTerminatingQuote),
                    Some((between, rest)) => {
                        if between.len() != 0 {
                            return Err(DecodeLegacyError::UnknownSuffix);
                        }
                        match b64_decode(data) {
                            Err(e) => Err(DecodeLegacyError::InvalidBase64(e)),
                            Ok(payload) => {
                                if data.len() % 4 != 0 {
                                    return Err(DecodeLegacyError::NoncanonicPadding);
                                }
                                Ok((Multibox(MultiboxInner::PrivateBox(payload)), rest))
                            }
                        }
                    }
                },
            },
        }
    }

    /// Serializes a `Multibox` into an owned byte vector, using the legacy
    /// encoding. The result, followed by a terminating quote and any further
    /// bytes, decodes back to this very multibox with exactly those further
    /// bytes left over.
    pub fn to_legacy_vec(&self) -> (r: Vec<u8>)
        requires
            4 * ((self@.len() + 2) / 3) + 4 <= usize::MAX,
        ensures
            r@ == legacy_encode_spec(self@),
            forall|i: int| 0 <= i < r@.len() ==> (#[trigger] r@[i]) < 128,
            forall|t: Seq<u8>|
                legacy_decode_ok(#[trigger] quote_terminated(r@, t)) == Some((self@, t)),
    {
        match &self.0 {
            MultiboxInner::PrivateBox(bytes) => {
                let mut out = b64_encode(bytes.as_slice());
                let ghost enc = out@;
                out.push(46);
                out.push(98);
                out.push(111);
                out.push(120);
                proof {
                    assert(out@ =~= enc + seq![46u8, 98u8, 111u8, 120u8]);
                    assert(out@ =~= legacy_encode_spec(self@));
                    assert forall|i: int| 0 <= i < out@.len() implies out@[i] < 128 by {
                        if i < enc.len() {
                            assert(out@[i] == enc[i]);
                            assert(is_b64_byte(enc[i]));
                        }
                    }
                    lemma_legacy_decode_of_encoding(enc, out@, self@);
                }
                out
            }
        }
    }

    /// Serializes a `Multibox` into an owned string, using the legacy
    /// encoding. Base64 text plus the ASCII suffix `.box` is always valid
    /// text.
    pub fn to_legacy_string(&self) -> (r: String)
        requires
            4 * ((self@.len() + 2) / 3) + 4 <= usize::MAX,
        ensures
            r@ == legacy_encode_spec(self@).map_values(|b: u8| b as char),
    {
        let v = self.to_legacy_vec();
        ascii_to_string(v)
    }

    /// Parses the compact encoding `<type varint><length varint><payload>`
    /// from the front of `s` into a `Multibox`, returning it with the
    /// unconsumed remainder of the input.
    pub fn from_compact<'a>(s: &'a [u8]) -> (r: Result<
        (Multibox, &'a [u8]),
        DecodeCompactError,
    >)
        ensures
            match r {
                Ok(p) => compact_decode_spec(s@) == Ok::<(Seq<u8>, Seq<u8>), DecodeCompactError>(
                    (p.0@, p.1@),
                ),
                Err(e) => compact_decode_spec(s@) == Err::<(Seq<u8>, Seq<u8>), DecodeCompactError>(
                    e,
                ),
            },
    {
        match varu_decode(s) {
            Err(e) => Err(DecodeCompactError::InvalidType(e)),
            Ok((type_, tail)) => {
                if type_ != 0 {
                    return Err(DecodeCompactError::UnknownVariant(type_));
                }
                match varu_decode(tail) {
                    Err(e) => Err(DecodeCompactError::InvalidLength(e)),
                    Ok((len, tail2)) => {
                        if (tail2.len() as u64) < len {
                            return Err(DecodeCompactError::NotEnoughInput);
                        }
                        let n = len as usize;
                        let data = slice_to_vec(slice_subrange(tail2, 0, n));
                        let rest = slice_subrange(tail2, n, tail2.len());
                        Ok((Multibox(MultiboxInner::PrivateBox(data)), rest))
                    }
                }
            }
        }
    }

    /// Serializes a `Multibox` into an owned byte vector, using the compact
    /// encoding: type byte `0x00`, then the payload length as a varint, then
    /// the payload bytes.
    pub fn to_compact_vec(&self) -> (r: Vec<u8>)
        ensures
            r@ == compact_encode_spec(self@),
    {
        match &self.0 {
            MultiboxInner::PrivateBox(bytes) => {
                let mut out: Vec<u8> = Vec::new();
                out.push(0);
                let mut len_enc = varu_encode_vec(bytes.len() as u64);
                out.append(&mut len_enc);
                let mut body = slice_to_vec(bytes.as_slice());
                out.append(&mut body);
                proof {
                    assert(out@ =~= compact_encode_spec(self@));
                }
                out
            }
        }
    }
}

/// Everything that can go wrong when decoding a `Multibox` from the legacy
/// encoding.
#[derive(Debug, PartialEq, Eq, Clone)]
pub enum DecodeLegacyError {
    /// Input did not contain a `.` to separate the data from the suffix.
    NoDot,
    /// The base64 portion of the box was invalid.
    InvalidBase64(Base64DecodeError),
    /// The base64 portion of the box did not use the correct amount of
    /// padding.
    NoncanonicPadding,
    /// The suffix is not a known box suffix.
    UnknownSuffix,
    /// The input did not indicate the end of the box suffix via a quote
    /// character `"`.
    NoTerminatingQuote,
}

/// The index of the first occurrence of `b` in `s`, if any.
pub open spec fn find_byte(s: Seq<u8>, b: u8) -> Option<int>
    decreases s.len(),
{
    if s.len() == 0 {
        None
    } else if s[0] == b {
        Some(0)
    } else {
        match find_byte(s.skip(1), b) {
            None => None,
            Some(i) => Some(i + 1),
        }
    }
}

proof fn lemma_find_byte_first(s: Seq<u8>, b: u8, i: int)
    requires
        0 <= i < s.len(),
        s[i] == b,
        forall|j: int| 0 <= j < i ==> s[j] != b,
    ensures
        find_byte(s, b) == Some(i),
    decreases i,
{
    if i == 0 {
    } else {
        let t = s.skip(1);
        assert(t[i - 1] == b);
        assert(forall|j: int| 0 <= j < i - 1 ==> t[j] == s[j + 1] && t[j] != b);
        lemma_find_byte_first(t, b, i - 1);
    }
}

proof fn lemma_find_byte_none(s: Seq<u8>, b: u8)
    requires
        forall|j: int| 0 <= j < s.len() ==> s[j] != b,
    ensures
        find_byte(s, b) is None,
    decreases s.len(),
{
    if s.len() == 0 {
    } else {
        let t = s.skip(1);
        assert(forall|j: int| 0 <= j < t.len() ==> t[j] == s[j + 1] && t[j] != b);
        lemma_find_byte_none(t, b);
    }
}

/// Splits `s` at the first occurrence of `b`: everything before it, and
/// everything after it (the byte itself belongs to neither part).
fn split_at_byte<'a>(s: &'a [u8], b: u8) -> (r: Option<(&'a [u8], &'a [u8])>)
    ensures
        match r {
            Some(p) => {
                &&& find_byte(s@, b) == Some(p.0@.len() as int)
                &&& p.0@ == s@.take(p.0@.len() as int)
                &&& p.1@ == s@.skip(p.0@.len() as int + 1)
            },
            None => find_byte(s@, b) is None,
        },
{
    let n: usize = s.len();
    let mut i: usize = 0;
    while i < n
        invariant
            n == s@.len(),
            0 <= i <= n,
            forall|j: int| 0 <= j < i ==> s@[j] != b,
        decreases n - i,
    {
        if *vstd::slice::slice_index_get(s, i) == b {
            proof {
                lemma_find_byte_first(s@, b, i as int);
            }
            return Some((slice_subrange(s, 0, i), slice_subrange(s, i + 1, n)));
        }
        i += 1;
    }
    proof {
        lemma_find_byte_none(s@, b);
    }
    None
}

/// Whether `s` begins with the literal ASCII bytes `box`.
pub open spec fn has_box_prefix(s: Seq<u8>) -> bool {
    s.len() >= 3 && s[0] == 98u8 && s[1] == 111u8 && s[2] == 120u8
}

/// Consumes the literal ASCII prefix `box`, returning the rest of `s`.
fn skip_box_prefix<'a>(s: &'a [u8]) -> (r: Option<&'a [u8]>)
    ensures
        match r {
            Some(t) => has_box_prefix(s@) && t@ == s@.skip(3),
            None => !has_box_prefix(s@),
        },
{
    if s.len() < 3 {
        return None;
    }
    let b0 = *vstd::slice::slice_index_get(s, 0);
    let b1 = *vstd::slice::slice_index_get(s, 1);
    let b2 = *vstd::slice::slice_index_get(s, 2);
    if b0 == 98 && b1 == 111 && b2 == 120 {
        Some(slice_subrange(s, 3, s.len()))
    } else {
        None
    }
}

/// The legacy encoding of a payload: its base64 text, then the literal
/// suffix `.box`. The terminating quote is the enclosing format's business,
/// not the encoder's.
pub open spec fn legacy_encode_spec(payload: Seq<u8>) -> Seq<u8> {
    b64_encode_of(payload) + seq![46u8, 98u8, 111u8, 120u8]
}

/// A byte sequence, then a terminating quote (`"`, 0x22), then further
/// bytes: the shape in which a legacy-encoded multibox sits inside the
/// surrounding quote-delimited message.
pub open spec fn quote_terminated(enc: Seq<u8>, tail: Seq<u8>) -> Seq<u8> {
    enc + seq![34u8] + tail
}

/// What decoding the legacy form from the front of `s` yields when it
/// succeeds: the payload and the remainder just after the terminating quote,
/// or `None` on any decode error. The text before the first `.` must be
/// base64 in whole four-byte blocks, and the `.` must be followed by
/// exactly `box"`.
pub open spec fn legacy_decode_ok(s: Seq<u8>) -> Option<(Seq<u8>, Seq<u8>)> {
    match find_byte(s, 46u8) {
        None => None,
        Some(d) => {
            let data = s.take(d);
            let suffix = s.skip(d + 1);
            if !has_box_prefix(suffix) {
                None
            } else {
                let tail = suffix.skip(3);
                match find_byte(tail, 34u8) {
                    None => None,
                    Some(q) => if q != 0 {
                        None
                    } else {
                        match b64_decode_of(data) {
                            None => None,
                            Some(payload) => if data.len() % 4 != 0 {
                                None
                            } else {
                                Some((payload, tail.skip(1)))
                            },
                        }
                    },
                }
            }
        },
    }
}

/// Which legacy decode error `s` is rejected with: the first failure among
/// the missing dot, an unknown suffix, a missing terminating quote, stray
/// bytes between `box` and the quote, malformed base64, and non-canonical
/// padding, in the order the decoder checks them.
pub open spec fn legacy_error_matches(s: Seq<u8>, e: DecodeLegacyError) -> bool {
    match find_byte(s, 46u8) {
        None => e == DecodeLegacyError::NoDot,
        Some(d) => {
            let data = s.take(d);
            let suffix = s.skip(d + 1);
            if !has_box_prefix(suffix) {
                e == DecodeLegacyError::UnknownSuffix
            } else {
                let tail = suffix.skip(3);
                match find_byte(tail, 34u8) {
                    None => e == DecodeLegacyError::NoTerminatingQuote,
                    Some(q) => if q != 0 {
                        e == DecodeLegacyError::UnknownSuffix
                    } else if b64_decode_of(data) is None {
                        e matches DecodeLegacyError::InvalidBase64(_)
                    } else {
                        data.len() % 4 != 0 && e == DecodeLegacyError::NoncanonicPadding
                    },
                }
            }
        },
    }
}

/// The compact encoding of a payload: type byte `0x00`, the payload length
/// as a varint, then the payload itself.
pub open spec fn compact_encode_spec(payload: Seq<u8>) -> Seq<u8> {
    seq![0u8] + varu_enc(payload.len() as u64) + payload
}

/// What decoding the compact form from the front of `s` yields: the payload
/// and the unconsumed remainder, or the error. Only type value `0`
/// (private-box) is defined.
pub open spec fn compact_decode_spec(s: Seq<u8>) -> Result<
    (Seq<u8>, Seq<u8>),
    DecodeCompactError,
> {
    match varu_decode_spec(s) {
        Err(e) => Err(DecodeCompactError::InvalidType(e)),
        Ok((type_, tail)) => {
            if type_ != 0 {
                Err(DecodeCompactError::UnknownVariant(type_))
            } else {
                match varu_decode_spec(tail) {
                    Err(e) => Err(DecodeCompactError::InvalidLength(e)),
                    Ok((len, tail2)) => {
                        if tail2.len() < len {
                            Err(DecodeCompactError::NotEnoughInput)
                        } else {
                            Ok((tail2.take(len as int), tail2.skip(len as int)))
                        }
                    },
                }
            }
        },
    }
}

/// Relies on `String::from_utf8`: bytes below 128 are valid UTF-8, the call
/// cannot fail on them, and the string holds exactly those characters.
#[verifier::external_body]
fn ascii_to_string(v: Vec<u8>) -> (r: String)
    requires
        forall|i: int| 0 <= i < v@.len() ==> (#[trigger] v@[i]) < 128,
    ensures
        r@ == v@.map_values(|b: u8| b as char),
{
    String::from_utf8(v).unwrap()
}

proof fn lemma_legacy_decode_of_encoding(enc: Seq<u8>, lenc: Seq<u8>, payload: Seq<u8>)
    requires
        lenc == enc + seq![46u8, 98u8, 111u8, 120u8],
        enc.len() % 4 == 0,
        forall|i: int| 0 <= i < enc.len() ==> is_b64_byte(#[trigger] enc[i]),
        b64_decode_of(enc) == Some(payload),
    ensures
        forall|t: Seq<u8>|
            legacy_decode_ok(#[trigger] quote_terminated(lenc, t)) == Some((payload, t)),
{
    assert forall|t: Seq<u8>|
        legacy_decode_ok(#[trigger] quote_terminated(lenc, t)) == Some((payload, t)) by {
        let s = quote_terminated(lenc, t);
        let d = enc.len() as int;
        assert(s[d] == 46u8);
        assert forall|j: int| 0 <= j < d implies s[j] != 46u8 by {
            assert(s[j] == enc[j]);
            assert(is_b64_byte(enc[j]));
        }
        lemma_find_byte_first(s, 46u8, d);
        assert(s.take(d) =~= enc);
        let suffix = s.skip(d + 1);
        assert(suffix =~= seq![98u8, 111u8, 120u8, 34u8] + t);
        assert(has_box_prefix(suffix));
        let tail = suffix.skip(3);
        assert(tail =~= seq![34u8] + t);
        assert(tail[0] == 34u8);
        lemma_find_byte_first(tail, 34u8, 0);
        assert(tail.skip(1) =~= t);
    }
}

/// Round trip for the compact encoding: decoding the compact form of any
/// payload, followed by any further bytes, yields that payload and exactly
/// those further bytes.
pub proof fn lemma_compact_round_trip(payload: Seq<u8>, rest: Seq<u8>)
    requires
        payload.len() <= u64::MAX,
    ensures
        compact_decode_spec(compact_encode_spec(payload) + rest) == Ok::<
            (Seq<u8>, Seq<u8>),
            DecodeCompactError,
        >((payload, rest)),
{
    let len = payload.len() as u64;
    let s = compact_encode_spec(payload) + rest;
    assert(s[0] == 0u8);
    assert(varu_decode_spec(s) == Ok::<(u64, Seq<u8>), VaruDecodeError>((0u64, s.skip(1))));
    assert(s.skip(1) =~= varu_enc(len) + (payload + rest));
    lemma_varu_round_trip(len, payload + rest);
    let tail2 = payload + rest;
    assert(tail2.take(len as int) =~= payload);
    assert(tail2.skip(len as int) =~= rest);
}

} // verus!
