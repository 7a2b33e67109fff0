//! The CBOR primitives and the self-describing value codec.

use many_core::cbor;
use many_core::cborany::{decode_any, encode_any, CborAny, CborNull, MAX_ANY_DEPTH};

#[test]
fn cbor_null() {
    let null = CborNull;
    let mut enc: Vec<u8> = Vec::new();
    null.encode(&mut enc);
    // See the CBOR specification: simple value 22 is null.
    assert_eq!(hex::encode(enc), "f6");
}

#[test]
fn uint_encodings_are_minimal() {
    let cases: Vec<(u64, &str)> = vec![
        (0, "00"),
        (23, "17"),
        (24, "1818"),
        (255, "18ff"),
        (256, "190100"),
        (65535, "19ffff"),
        (65536, "1a00010000"),
        (4294967295, "1affffffff"),
        (4294967296, "1b0000000100000000"),
    ];
    for (v, expect) in cases {
        let mut out: Vec<u8> = Vec::new();
        cbor::encode_uint(v, &mut out);
        assert_eq!(hex::encode(&out), expect);
        let (back, end) = cbor::decode_uint(&out, 0).unwrap();
        assert_eq!(back, v);
        assert_eq!(end, out.len());
    }
}

#[test]
fn non_minimal_header_is_rejected() {
    // 0x1817 would encode 23 in the two-byte form; only `0x17` is canonical.
    let bad: Vec<u8> = vec![0x18, 0x17];
    assert!(cbor::decode_uint(&bad, 0).is_err());
}

#[test]
fn int_negative_round_trip() {
    let mut out: Vec<u8> = Vec::new();
    cbor::encode_int(-90001, &mut out);
    assert_eq!(hex::encode(&out), "3a00015f90");
    let (back, _) = cbor::decode_int(&out, 0).unwrap();
    assert_eq!(back, -90001);
}

#[test]
fn text_round_trip() {
    let mut out: Vec<u8> = Vec::new();
    cbor::encode_text(&String::from("status"), &mut out);
    let (back, end) = cbor::decode_text(&out, 0).unwrap();
    assert_eq!(back, "status");
    assert_eq!(end, out.len());
}

#[test]
fn any_value_round_trip() {
    let v = CborAny::Array(vec![
        CborAny::Bool(true),
        CborAny::Int(-5),
        CborAny::Text(String::from("hi")),
        CborAny::Bytes(vec![1, 2, 3]),
        CborAny::Dict(vec![(CborAny::Int(1), CborAny::Tagged(7, Box::new(CborAny::Int(2))))]),
    ]);
    let mut out: Vec<u8> = Vec::new();
    encode_any(&v, &mut out);
    let (_back, end) = decode_any(&out, 0, MAX_ANY_DEPTH).unwrap();
    assert_eq!(end, out.len());
    // The decoded value re-encodes to the exact input bytes.
    let (back2, _) = decode_any(&out, 0, MAX_ANY_DEPTH).unwrap();
    let mut out2: Vec<u8> = Vec::new();
    encode_any(&back2, &mut out2);
    assert_eq!(out, out2);
}
