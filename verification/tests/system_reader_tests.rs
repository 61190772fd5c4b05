//! The system reader: version markers, symbol-table interception, and the
//! commit of pending symbol-table changes.

use ion_binary::encoder::BinaryValueWriter_1_0;
use ion_binary::raw_reader::IonError;
use ion_binary::symbol_table::{PendingLst, SymbolTable};
use ion_binary::system_reader::{LazySystemBinaryReader, LazySystemReader, SystemStreamItem};
use ion_binary::types::{SymbolToken, Value};

fn sid(s: u64) -> SymbolToken {
    SymbolToken::SymbolId(s)
}

fn symbols_list(texts: &[&str]) -> Value {
    Value::List(texts.iter().map(|t| Value::Str(t.as_bytes().to_vec())).collect())
}

/// A top-level local symbol table defining the given texts.
fn lst(texts: &[&str]) -> Value {
    Value::Annotated(
        vec![sid(3)],
        Box::new(Value::Struct(vec![(sid(7), symbols_list(texts))])),
    )
}

/// A local symbol table that appends the given texts.
fn lst_append(texts: &[&str]) -> Value {
    Value::Annotated(
        vec![sid(3)],
        Box::new(Value::Struct(vec![
            (sid(7), symbols_list(texts)),
            (sid(6), Value::Symbol(sid(3))),
        ])),
    )
}

fn encode_stream(values: &[Value]) -> Vec<u8> {
    let mut data = vec![0xE0u8, 0x01, 0x00, 0xEA];
    let mut writer = BinaryValueWriter_1_0::new();
    for v in values {
        writer.write_value(v).unwrap();
    }
    data.extend_from_slice(&writer.into_bytes());
    data
}

#[test]
fn try_it() {
    // The stream holds the symbols foo bar $ion_symbol_table baz name gary
    // imports hello; the non-system ones are defined by a local symbol table.
    let values = vec![
        lst(&["foo", "bar", "baz", "gary", "hello"]),
        Value::Symbol(sid(10)), // foo
        Value::Symbol(sid(11)), // bar
        Value::Symbol(sid(3)),  // $ion_symbol_table
        Value::Symbol(sid(12)), // baz
        Value::Symbol(sid(4)),  // name
        Value::Symbol(sid(13)), // gary
        Value::Symbol(sid(6)),  // imports
        Value::Symbol(sid(14)), // hello
    ];
    let ion_data = encode_stream(&values);
    let mut system_reader = LazySystemBinaryReader::new(&ion_data);
    loop {
        match system_reader.next_item().unwrap() {
            SystemStreamItem::VersionMarker(major, minor) => {
                println!("ivm => v{}.{}", major, minor)
            }
            SystemStreamItem::SymbolTable(ref s) => println!("symtab => {:?}", s),
            SystemStreamItem::Value(ref v) => println!("value => {:?}", v),
            SystemStreamItem::EndOfStream => break,
        }
    }
    // Five symbols were added after the nine system symbols.
    assert_eq!(system_reader.symbol_table.len(), 14);
    assert_eq!(system_reader.symbol_table.symbol_text(10), Some(b"foo".to_vec()));
    assert_eq!(system_reader.symbol_table.symbol_text(14), Some(b"hello".to_vec()));
}

#[test]
fn sequence_iter() {
    let values = vec![
        lst(&["foo", "baz", "a", "b", "c"]),
        Value::SExp(vec![
            Value::SExp(vec![
                Value::Symbol(sid(10)),
                Value::Symbol(sid(11)),
                Value::Symbol(sid(11)),
            ]),
            Value::SExp(vec![
                Value::Int(ion_binary::types::Int::from_i64(1)),
                Value::Int(ion_binary::types::Int::from_i64(2)),
                Value::Int(ion_binary::types::Int::from_i64(3)),
            ]),
            Value::SExp(vec![
                Value::Symbol(sid(12)),
                Value::Symbol(sid(13)),
                Value::Symbol(sid(14)),
            ]),
        ]),
    ];
    let ion_data = encode_stream(&values);
    let mut system_reader = LazySystemBinaryReader::new(&ion_data);
    let mut seen = 0usize;
    loop {
        match system_reader.next_item().unwrap() {
            SystemStreamItem::Value(value) => match value {
                Value::SExp(children) => {
                    for value in &children {
                        println!("{:?}", value);
                        seen += 1;
                    }
                }
                other => panic!("expected an s-expression, got {:?}", other),
            },
            SystemStreamItem::EndOfStream => break,
            _ => {}
        }
    }
    assert_eq!(seen, 3);
}

#[test]
fn struct_iter() {
    let values = vec![
        lst(&["foo", "bar", "baz", "quux"]),
        Value::Struct(vec![
            (sid(10), Value::Int(ion_binary::types::Int::from_i64(1))),
            (sid(11), Value::Bool(true)),
            (sid(12), Value::Null(ion_binary::types::IonType::Symbol)),
            (sid(13), Value::Str(b"hello".to_vec())),
        ]),
    ];
    let ion_data = encode_stream(&values);
    let mut system_reader = LazySystemBinaryReader::new(&ion_data);
    let mut seen = 0usize;
    loop {
        match system_reader.next_item().unwrap() {
            SystemStreamItem::Value(value) => match value {
                Value::Struct(fields) => {
                    for field in &fields {
                        println!("{:?}: {:?},", field.0, field.1);
                        seen += 1;
                    }
                }
                other => panic!("expected a struct, got {:?}", other),
            },
            SystemStreamItem::EndOfStream => break,
            _ => {}
        }
    }
    assert_eq!(seen, 4);
}

#[test]
fn commit_replaces_previous_symbols() {
    // A table reset to system symbols plus a leftover symbol; a structure with
    // symbols: ["foo", "bar"] and no imports replaces everything after the
    // system symbols.
    let mut table = SymbolTable::new();
    table.intern_or_add_placeholder(Some(b"doomed".to_vec()));
    assert_eq!(table.len(), 10);
    let mut pending = PendingLst::new();
    LazySystemReader::process_symbol_table(&mut pending, &lst(&["foo", "bar"])).unwrap();
    LazySystemReader::apply_pending_lst(&mut table, &mut pending);
    assert_eq!(table.len(), 11);
    assert_eq!(table.symbol_text(10), Some(b"foo".to_vec()));
    assert_eq!(table.symbol_text(11), Some(b"bar".to_vec()));
    assert_eq!(table.symbol_text(12), None);
}

#[test]
fn commit_append_keeps_existing_symbols() {
    let mut table = SymbolTable::new();
    table.intern_or_add_placeholder(Some(b"kept".to_vec()));
    let mut pending = PendingLst::new();
    LazySystemReader::process_symbol_table(&mut pending, &lst_append(&["baz"])).unwrap();
    assert!(pending.is_lst_append);
    LazySystemReader::apply_pending_lst(&mut table, &mut pending);
    assert_eq!(table.len(), 11);
    assert_eq!(table.symbol_text(10), Some(b"kept".to_vec()));
    assert_eq!(table.symbol_text(11), Some(b"baz".to_vec()));
}

#[test]
fn duplicate_symbols_field_fails() {
    let bad = Value::Annotated(
        vec![sid(3)],
        Box::new(Value::Struct(vec![
            (sid(7), symbols_list(&["foo"])),
            (sid(7), symbols_list(&["bar"])),
        ])),
    );
    let mut pending = PendingLst::new();
    let r = LazySystemReader::process_symbol_table(&mut pending, &bad);
    assert_eq!(r, Err(IonError::DecodingError));
    assert!(!pending.has_changes);
    assert!(pending.symbols.is_empty());

    // Through the reader, the failing structure leaves the live table as it
    // was.
    let ion_data = encode_stream(&[bad]);
    let mut reader = LazySystemBinaryReader::new(&ion_data);
    assert!(matches!(reader.next_item(), Ok(SystemStreamItem::VersionMarker(1, 0))));
    assert_eq!(reader.next_item(), Err(IonError::DecodingError));
    assert_eq!(reader.symbol_table.len(), 9);
}

#[test]
fn imports_list_fails() {
    let bad = Value::Annotated(
        vec![sid(3)],
        Box::new(Value::Struct(vec![(sid(6), Value::List(vec![]))])),
    );
    let mut pending = PendingLst::new();
    let r = LazySystemReader::process_symbol_table(&mut pending, &bad);
    assert_eq!(r, Err(IonError::DecodingError));
    assert!(!pending.has_changes);
    assert!(pending.symbols.is_empty());
}

#[test]
fn next_value_skips_encoding_artifacts() {
    let values = vec![lst(&["foo"]), Value::Symbol(sid(10)), Value::Bool(true)];
    let ion_data = encode_stream(&values);
    let mut reader = LazySystemBinaryReader::new(&ion_data);
    assert_eq!(reader.next_value(), Ok(Some(Value::Symbol(sid(10)))));
    assert_eq!(reader.next_value(), Ok(Some(Value::Bool(true))));
    assert_eq!(reader.next_value(), Ok(None));
    // The skipped symbol table was still committed.
    assert_eq!(reader.symbol_table.symbol_text(10), Some(b"foo".to_vec()));
}
