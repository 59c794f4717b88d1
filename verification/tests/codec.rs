use multibox::b64::Base64DecodeError;
use multibox::varint::VaruDecodeError;
use multibox::{DecodeCompactError, DecodeLegacyError, Multibox};
use base64::Engine;

#[test]
fn test_from_legacy() {
    assert!(Multibox::from_legacy(b"lA==.box\"").is_ok());
    assert!(Multibox::from_legacy(b"lB==.box\"").is_err());
    assert!(Multibox::from_legacy(b"lA==.boxx\"").is_err());
}

#[test]
fn legacy_decode_concrete() {
    let (m, rest) = Multibox::from_legacy(b"lA==.box\"").unwrap();
    assert_eq!(m, Multibox::private_box(vec![0x94]));
    assert_eq!(rest, b"");
}

#[test]
fn legacy_encode_concrete() {
    let m = Multibox::private_box(vec![0x94]);
    assert_eq!(m.to_legacy_vec(), b"lA==.box".to_vec());
    assert_eq!(m.to_legacy_string(), "lA==.box");
}

#[test]
fn legacy_round_trip() {
    let m = Multibox::private_box(vec![1, 2, 3, 250, 251, 252]);
    let mut input = m.to_legacy_vec();
    input.push(b'"');
    input.extend_from_slice(b"rest of the message");
    let (decoded, rest) = Multibox::from_legacy(&input).unwrap();
    assert_eq!(decoded, m);
    assert_eq!(rest, b"rest of the message");
}

#[test]
fn legacy_round_trip_empty_payload() {
    let m = Multibox::private_box(Vec::new());
    assert_eq!(m.to_legacy_vec(), b".box".to_vec());
    let (decoded, rest) = Multibox::from_legacy(b".box\"").unwrap();
    assert_eq!(decoded, m);
    assert_eq!(rest, b"");
    assert!(decoded.payload().is_empty());
}

#[test]
fn legacy_boundary_extraction() {
    // the remainder starts right after the first quote, whatever follows
    let (_, rest) = Multibox::from_legacy(b"lA==.box\"abc\"def\"").unwrap();
    assert_eq!(rest, b"abc\"def\"");
    let (_, rest) = Multibox::from_legacy(b"lA==.box\"\x00\xff\x2e").unwrap();
    assert_eq!(rest, b"\x00\xff\x2e");
}

#[test]
fn legacy_noncanonic_padding() {
    // "lA" decodes under lenient padding, but is not a whole base64 block
    assert_eq!(
        Multibox::from_legacy(b"lA.box\"").unwrap_err(),
        DecodeLegacyError::NoncanonicPadding
    );
}

#[test]
fn legacy_invalid_base64() {
    assert!(matches!(
        Multibox::from_legacy(b"lB==.box\"").unwrap_err(),
        DecodeLegacyError::InvalidBase64(_)
    ));
    assert!(matches!(
        Multibox::from_legacy(b"l*==.box\"").unwrap_err(),
        DecodeLegacyError::InvalidBase64(Base64DecodeError::InvalidByte(1, b'*'))
    ));
}

#[test]
fn legacy_unknown_suffix() {
    assert_eq!(
        Multibox::from_legacy(b"lA==.boxx\"").unwrap_err(),
        DecodeLegacyError::UnknownSuffix
    );
    assert_eq!(
        Multibox::from_legacy(b"lA==.bax\"").unwrap_err(),
        DecodeLegacyError::UnknownSuffix
    );
}

#[test]
fn legacy_no_dot() {
    assert_eq!(
        Multibox::from_legacy(b"lA==box\"").unwrap_err(),
        DecodeLegacyError::NoDot
    );
}

#[test]
fn legacy_no_terminating_quote() {
    assert_eq!(
        Multibox::from_legacy(b"lA==.box").unwrap_err(),
        DecodeLegacyError::NoTerminatingQuote
    );
}

#[test]
fn legacy_matches_base64_engine() {
    let payload = vec![1u8, 2, 3, 4, 5, 6, 7];
    let mut expected = base64::engine::general_purpose::STANDARD
        .encode(&payload)
        .into_bytes();
    expected.extend_from_slice(b".box");
    assert_eq!(Multibox::private_box(payload).to_legacy_vec(), expected);
}

#[test]
fn compact_decode_concrete() {
    let (m, rest) = Multibox::from_compact(&[0x00, 0x02, 0xAB, 0xCD, 0xFF]).unwrap();
    assert_eq!(m, Multibox::private_box(vec![0xAB, 0xCD]));
    assert_eq!(rest, &[0xFF]);
}

#[test]
fn compact_not_enough_input() {
    assert_eq!(
        Multibox::from_compact(&[0x00, 0x05, 0xAB]).unwrap_err(),
        DecodeCompactError::NotEnoughInput
    );
}

#[test]
fn compact_round_trip() {
    let m = Multibox::private_box(vec![9, 8, 7]);
    let mut input = m.to_compact_vec();
    assert_eq!(input, vec![0x00, 0x03, 9, 8, 7]);
    input.extend_from_slice(&[0xDE, 0xAD]);
    let (decoded, rest) = Multibox::from_compact(&input).unwrap();
    assert_eq!(decoded, m);
    assert_eq!(rest, &[0xDE, 0xAD]);
}

#[test]
fn compact_round_trip_empty_payload() {
    let m = Multibox::private_box(Vec::new());
    assert_eq!(m.to_compact_vec(), vec![0x00, 0x00]);
    let (decoded, rest) = Multibox::from_compact(&[0x00, 0x00]).unwrap();
    assert_eq!(decoded, m);
    assert_eq!(rest, b"");
}

#[test]
fn compact_round_trip_long_payload() {
    // a 248-byte payload forces the two-byte form of the length varint
    let payload: Vec<u8> = (0..248u32).map(|i| (i % 256) as u8).collect();
    let m = Multibox::private_box(payload.clone());
    let enc = m.to_compact_vec();
    assert_eq!(&enc[..3], &[0x00, 248, 248]);
    assert_eq!(&enc[3..], &payload[..]);
    let (decoded, rest) = Multibox::from_compact(&enc).unwrap();
    assert_eq!(decoded, m);
    assert_eq!(rest, b"");
}

#[test]
fn compact_matches_varu64_encoding() {
    let payload = vec![0u8; 300];
    let mut expected = vec![0x00];
    varu64::encode_write(300, &mut expected).unwrap();
    expected.extend_from_slice(&payload);
    assert_eq!(Multibox::private_box(payload).to_compact_vec(), expected);
}

#[test]
fn compact_unknown_variant() {
    assert_eq!(
        Multibox::from_compact(&[0x01, 0x00]).unwrap_err(),
        DecodeCompactError::UnknownVariant(1)
    );
}

#[test]
fn compact_invalid_type() {
    assert_eq!(
        Multibox::from_compact(b"").unwrap_err(),
        DecodeCompactError::InvalidType(VaruDecodeError::UnexpectedEndOfInput)
    );
    assert_eq!(
        Multibox::from_compact(&[248, 42]).unwrap_err(),
        DecodeCompactError::InvalidType(VaruDecodeError::NonCanonical(42))
    );
}

#[test]
fn compact_invalid_length() {
    assert_eq!(
        Multibox::from_compact(&[0x00]).unwrap_err(),
        DecodeCompactError::InvalidLength(VaruDecodeError::UnexpectedEndOfInput)
    );
    assert_eq!(
        Multibox::from_compact(&[0x00, 248, 42, 0]).unwrap_err(),
        DecodeCompactError::InvalidLength(VaruDecodeError::NonCanonical(42))
    );
}

#[test]
fn multibox_equality_and_order() {
    let a = Multibox::private_box(vec![1, 2]);
    let b = Multibox::private_box(vec![1, 2]);
    let c = Multibox::private_box(vec![1, 3]);
    assert_eq!(a, b);
    assert_ne!(a, c);
    assert!(a < c);
    assert_eq!(a.payload(), &vec![1u8, 2]);
}
