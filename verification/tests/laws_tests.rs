//! Concrete checks of the stated laws: length reversibility, fixed encodings
//! for the zeros, annotation-order sensitivity, the end-to-end example, and
//! the error conditions.

use ion_binary::decoder::{read_value, read_var_uint};
use ion_binary::encoder::{write_var_uint, BinaryValueWriter_1_0};
use ion_binary::raw_reader::{Expandable, IonError, RawStreamItem};
use ion_binary::types::{Int, IonType, SymbolToken, Value};
use num_bigint::BigInt;

fn encode(v: &Value) -> Vec<u8> {
    let mut writer = BinaryValueWriter_1_0::new();
    writer.write_value(v).unwrap();
    writer.into_bytes()
}

#[test]
fn variable_length_is_reversible() {
    for len in [0u64, 1, 13, 14, 127, 128, 200, 16384, u64::from(u32::MAX)] {
        let mut buf = Vec::new();
        write_var_uint(&mut buf, len);
        let (value, next) = read_var_uint(&buf, 0).unwrap();
        assert_eq!(value, len);
        assert_eq!(next, buf.len());
    }
    // A payload longer than 13 bytes forces the variable-length form; the
    // decoded payload length must round-trip exactly.
    let payload = vec![7u8; 200];
    let mut writer = BinaryValueWriter_1_0::new();
    writer.write_blob(&payload).unwrap();
    let bytes = writer.into_bytes();
    assert_eq!(bytes[0], 0xAE);
    let (v, end) = read_value(&bytes, 0, bytes.len()).unwrap();
    assert_eq!(v, Value::Blob(payload));
    assert_eq!(end, bytes.len());
}

#[test]
fn zero_int_encodes_bare_descriptor() {
    let mut writer = BinaryValueWriter_1_0::new();
    writer.write_i64(0).unwrap();
    assert_eq!(writer.into_bytes(), vec![0x20]);

    let zero = Int::from_bigint(&BigInt::from(0));
    let mut writer = BinaryValueWriter_1_0::new();
    writer.write_int(&zero).unwrap();
    assert_eq!(writer.into_bytes(), vec![0x20]);
}

#[test]
fn bigint_magnitudes_are_minimal_big_endian() {
    let value = Int::from_bigint(&BigInt::from(-1125));
    assert!(value.negative);
    assert_eq!(value.magnitude, vec![4, 101]);
    let mut writer = BinaryValueWriter_1_0::new();
    writer.write_int(&value).unwrap();
    assert_eq!(writer.into_bytes(), vec![0x32, 0x04, 0x65]);

    let big = BigInt::parse_bytes(b"123456789012345678901234567890", 10).unwrap();
    let round = Int::from_bigint(&big);
    let mut writer = BinaryValueWriter_1_0::new();
    writer.write_int(&round).unwrap();
    let bytes = writer.into_bytes();
    let (decoded, _) = read_value(&bytes, 0, bytes.len()).unwrap();
    assert_eq!(decoded, Value::Int(round));
}

#[test]
fn float_zero_encodings() {
    let mut writer = BinaryValueWriter_1_0::new();
    writer.write_f32(0f32.to_bits()).unwrap();
    assert_eq!(writer.into_bytes(), vec![0x40]);

    let mut writer = BinaryValueWriter_1_0::new();
    writer.write_f64(0f64.to_bits()).unwrap();
    assert_eq!(writer.into_bytes(), vec![0x40]);

    let mut writer = BinaryValueWriter_1_0::new();
    writer.write_f32((-0f32).to_bits()).unwrap();
    assert_eq!(writer.into_bytes(), vec![0x44, 0x80, 0x00, 0x00, 0x00]);
}

#[test]
fn annotation_nesting_is_not_flattening() {
    let x = Value::Str(b"x".to_vec());
    let nested = Value::Annotated(
        vec![SymbolToken::SymbolId(5)],
        Box::new(Value::Annotated(
            vec![SymbolToken::SymbolId(4)],
            Box::new(x),
        )),
    );
    let flat = Value::Annotated(
        vec![SymbolToken::SymbolId(5), SymbolToken::SymbolId(4)],
        Box::new(Value::Str(b"x".to_vec())),
    );
    assert_ne!(encode(&nested), encode(&flat));
    // Annotation order within one wrapper is preserved exactly.
    let swapped = Value::Annotated(
        vec![SymbolToken::SymbolId(4), SymbolToken::SymbolId(5)],
        Box::new(Value::Str(b"x".to_vec())),
    );
    assert_ne!(encode(&flat), encode(&swapped));
    let (back, _) = {
        let b = encode(&flat);
        read_value(&b, 0, b.len()).unwrap()
    };
    assert_eq!(back, flat);
}

#[test]
fn end_to_end_sequence_round_trips() {
    let list = Value::List(vec![
        Value::Int(Int::from_i64(1)),
        Value::Bool(false),
        Value::Float32(3f32.to_bits()),
        Value::Str(b"foo".to_vec()),
        Value::Symbol(SymbolToken::SymbolId(4)),
        Value::Clob(vec![1, 2, 3, 4]),
    ]);
    let bytes = encode(&list);
    let (decoded, end) = read_value(&bytes, 0, bytes.len()).unwrap();
    assert_eq!(end, bytes.len());
    assert_eq!(decoded, list);
    // Re-encoding the decoded value reproduces the bytes exactly.
    assert_eq!(encode(&decoded), bytes);
}

#[test]
fn text_symbols_are_rejected() {
    let mut writer = BinaryValueWriter_1_0::new();
    let r = writer.write_symbol(&SymbolToken::Text(b"name".to_vec()));
    assert_eq!(r, Err(IonError::IllegalOperation));
    assert!(writer.buffer().is_empty());

    let mut writer = BinaryValueWriter_1_0::new();
    let r = writer.write_value(&Value::Annotated(
        vec![SymbolToken::Text(b"a".to_vec())],
        Box::new(Value::Bool(true)),
    ));
    assert_eq!(r, Err(IonError::IllegalOperation));

    let mut writer = BinaryValueWriter_1_0::new();
    let r = writer.write_struct(&vec![(
        SymbolToken::Text(b"name".to_vec()),
        Value::Bool(true),
    )]);
    assert_eq!(r, Err(IonError::IllegalOperation));

    // An annotation wrapper is never invoked with an empty sequence.
    let mut writer = BinaryValueWriter_1_0::new();
    let r = writer.write_annotated(&Vec::new(), &Value::Bool(true));
    assert_eq!(r, Err(IonError::IllegalOperation));
}

#[test]
fn truncated_and_reserved_inputs_fail() {
    let truncated = vec![0x8Eu8, 0x85];
    assert_eq!(
        read_value(&truncated, 0, truncated.len()),
        Err(IonError::DecodingError)
    );
    let reserved = vec![0xF0u8];
    assert_eq!(
        read_value(&reserved, 0, reserved.len()),
        Err(IonError::DecodingError)
    );
}

#[test]
fn typed_nulls_round_trip() {
    let types = [
        (IonType::Null, 0x0Fu8),
        (IonType::Bool, 0x1F),
        (IonType::Int, 0x2F),
        (IonType::Float, 0x4F),
        (IonType::Decimal, 0x5F),
        (IonType::Timestamp, 0x6F),
        (IonType::Symbol, 0x7F),
        (IonType::String, 0x8F),
        (IonType::Clob, 0x9F),
        (IonType::Blob, 0xAF),
        (IonType::List, 0xBF),
        (IonType::SExp, 0xCF),
        (IonType::Struct, 0xDF),
    ];
    for (t, byte) in types {
        let mut writer = BinaryValueWriter_1_0::new();
        writer.write_null(t).unwrap();
        let bytes = writer.into_bytes();
        assert_eq!(bytes, vec![byte]);
        let (v, _) = read_value(&bytes, 0, bytes.len()).unwrap();
        assert_eq!(v, Value::Null(t));
    }
}

#[test]
fn raw_stream_items() {
    assert_eq!(
        RawStreamItem::nullable_value(IonType::Int, true),
        RawStreamItem::Null(IonType::Int)
    );
    assert_eq!(
        RawStreamItem::nullable_value(IonType::Int, false),
        RawStreamItem::Value(IonType::Int)
    );
    let buffer: Vec<u8> = Vec::new();
    assert!(buffer.expandable());
}
