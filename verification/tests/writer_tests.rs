//! The writer round trips: values written through the binary writer decode
//! back to the same values.

use ion_binary::decoder::read_value;
use ion_binary::encoder::BinaryValueWriter_1_0;
use ion_binary::types::{Int, SymbolToken, Value};

fn decode_all(data: &Vec<u8>) -> Vec<Value> {
    let mut out = Vec::new();
    let mut pos = 0usize;
    while pos < data.len() {
        let (v, q) = read_value(data, pos, data.len()).expect("well-formed stream");
        out.push(v);
        pos = q;
    }
    out
}

fn int_value(i: i64) -> Value {
    Value::Int(Int::from_i64(i))
}

fn str_value(s: &str) -> Value {
    Value::Str(s.as_bytes().to_vec())
}

#[test]
fn write_scalars() {
    let mut writer = BinaryValueWriter_1_0::new();
    writer.write_i64(1).unwrap();
    writer.write_bool(false).unwrap();
    writer.write_f32(3f32.to_bits()).unwrap();
    writer.write_string("foo").unwrap();
    writer.write_symbol_id(4).unwrap();
    writer.write_blob(&[0xE0u8, 0x01, 0x00, 0xEA]).unwrap();
    let bytes = writer.into_bytes();
    let expected = vec![
        int_value(1),
        Value::Bool(false),
        Value::Float32(3f32.to_bits()),
        str_value("foo"),
        Value::Symbol(SymbolToken::SymbolId(4)),
        Value::Blob(vec![0xE0, 0x01, 0x00, 0xEA]),
    ];
    assert_eq!(decode_all(&bytes), expected);
}

#[test]
fn write_empty_list() {
    let mut writer = BinaryValueWriter_1_0::new();
    writer.write_list(&Vec::new()).unwrap();
    let bytes = writer.into_bytes();
    assert_eq!(bytes, vec![0xB0]);
    assert_eq!(decode_all(&bytes), vec![Value::List(Vec::new())]);
}

fn sequence_elements() -> Vec<Value> {
    vec![
        int_value(1),
        Value::Bool(false),
        Value::Float32(3f32.to_bits()),
        str_value("foo"),
        Value::Symbol(SymbolToken::SymbolId(4)),
        Value::Blob(vec![0xE0, 0x01, 0x00, 0xEA]),
        Value::List(vec![int_value(1), int_value(2), int_value(3)]),
    ]
}

#[test]
fn write_list() {
    let mut writer = BinaryValueWriter_1_0::new();
    writer.write_list(&sequence_elements()).unwrap();
    let bytes = writer.into_bytes();
    assert_eq!(decode_all(&bytes), vec![Value::List(sequence_elements())]);
}

#[test]
fn write_empty_sexp() {
    let mut writer = BinaryValueWriter_1_0::new();
    writer.write_sexp(&Vec::new()).unwrap();
    let bytes = writer.into_bytes();
    assert_eq!(bytes, vec![0xC0]);
    assert_eq!(decode_all(&bytes), vec![Value::SExp(Vec::new())]);
}

#[test]
fn write_sexp() {
    let mut writer = BinaryValueWriter_1_0::new();
    writer.write_sexp(&sequence_elements()).unwrap();
    let bytes = writer.into_bytes();
    assert_eq!(decode_all(&bytes), vec![Value::SExp(sequence_elements())]);
}

#[test]
fn write_empty_struct() {
    let mut writer = BinaryValueWriter_1_0::new();
    writer.write_struct(&Vec::new()).unwrap();
    let bytes = writer.into_bytes();
    assert_eq!(bytes, vec![0xD0]);
    assert_eq!(decode_all(&bytes), vec![Value::Struct(Vec::new())]);
}

#[test]
fn write_struct() {
    let fields: Vec<(SymbolToken, Value)> = sequence_elements()
        .into_iter()
        .enumerate()
        .map(|(i, v)| (SymbolToken::SymbolId(i as u64), v))
        .collect();
    let mut writer = BinaryValueWriter_1_0::new();
    writer.write_struct(&fields).unwrap();
    let bytes = writer.into_bytes();
    assert_eq!(decode_all(&bytes), vec![Value::Struct(fields)]);
}

fn annotated(ids: &[u64], v: Value) -> Value {
    Value::Annotated(
        ids.iter().map(|s| SymbolToken::SymbolId(*s)).collect(),
        Box::new(v),
    )
}

#[test]
fn write_annotated_scalars() {
    // The raw writer has no symbol table, so only IDs of symbols already in
    // the system table are used.
    let expected = vec![
        annotated(&[4], int_value(1)),
        annotated(&[5], Value::Bool(false)),
        annotated(&[6, 7], Value::Float32(3f32.to_bits())),
        annotated(&[8, 5], str_value("foo")),
        annotated(&[1], Value::Symbol(SymbolToken::SymbolId(4))),
        annotated(&[2], Value::Blob(vec![0xE0, 0x01, 0x00, 0xEA])),
    ];
    let mut writer = BinaryValueWriter_1_0::new();
    for v in &expected {
        writer.write_value(v).unwrap();
    }
    let bytes = writer.into_bytes();
    assert_eq!(decode_all(&bytes), expected);
}

fn one_two_three() -> Vec<Value> {
    vec![int_value(1), int_value(2), int_value(3)]
}

#[test]
fn write_annotated_containers() {
    let expected = vec![
        Value::List(Vec::new()),
        annotated(&[4], Value::List(Vec::new())),
        annotated(&[4], Value::List(one_two_three())),
        annotated(&[4, 7], Value::List(one_two_three())),
        annotated(
            &[4, 7],
            Value::List(vec![annotated(&[4, 7], Value::List(one_two_three()))]),
        ),
        Value::SExp(Vec::new()),
        annotated(&[4], Value::SExp(Vec::new())),
        annotated(&[4], Value::SExp(one_two_three())),
        annotated(&[4, 7], Value::SExp(Vec::new())),
        annotated(
            &[4, 7],
            Value::SExp(vec![annotated(&[4, 7], Value::SExp(one_two_three()))]),
        ),
    ];
    let mut writer = BinaryValueWriter_1_0::new();
    for v in &expected {
        writer.write_value(v).unwrap();
    }
    let bytes = writer.into_bytes();
    assert_eq!(decode_all(&bytes), expected);
}
