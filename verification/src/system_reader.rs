//! The system-level stream reader: it walks top-level items of a binary
//! stream, surfaces version markers, intercepts structures annotated as
//! symbol tables into the pending-change buffer, and commits pending changes
//! to the live symbol table immediately before the next item is surfaced.

use vstd::prelude::*;
use crate::decoding::{dec_one, lemma_dec_one_advances};
use crate::decoder::read_value;
use crate::raw_reader::IonError;
use crate::symbol_table::{
    clone_bytes, empty_pending, system_symbols, text_imports, text_imports_vec,
    text_ion_symbol_table, text_ion_symbol_table_vec, text_symbols, text_symbols_vec, PendingLst,
    PendingLstModel, SymbolTable,
};
use crate::types::{
    fields_model, lemma_fields_model, lemma_seq_model, lemma_value_model_variants, seq_model,
    tokens_model, value_model, SymbolToken, SymbolTokenModel, Value, ValueModel,
};

verus! {

/// Whether a symbol reference resolves to the given ID or the given text.
pub open spec fn token_matches(t: SymbolTokenModel, sid: u64, text: Seq<u8>) -> bool {
    match t {
        SymbolTokenModel::SymbolId(s) => s == sid,
        SymbolTokenModel::Text(b) => b == text,
    }
}

impl SymbolToken {
    /// Whether this reference resolves to the given ID or the given text.
    pub fn matches_sid_or_text(&self, sid: u64, text: &Vec<u8>) -> (r: bool)
        ensures
            r == token_matches((*self)@, sid, text@),
    {
        match self {
            SymbolToken::SymbolId(s) => *s == sid,
            SymbolToken::Text(b) => crate::symbol_table::bytes_eq(b, text),
        }
    }
}

/// A value is a symbol-table structure when it is a struct whose first
/// annotation resolves to the reserved marker, by ID 3 or by text.
pub open spec fn is_symtab_model(v: ValueModel) -> bool {
    match v {
        ValueModel::Annotated(anns, inner) => anns.len() >= 1 && token_matches(
            anns[0],
            3,
            text_ion_symbol_table(),
        ) && (*inner matches ValueModel::Struct(_)),
        _ => false,
    }
}

/// The fields of a symbol-table structure.
pub open spec fn symtab_fields(v: ValueModel) -> Seq<(SymbolTokenModel, ValueModel)> {
    match v {
        ValueModel::Annotated(_, inner) => match *inner {
            ValueModel::Struct(fs) => fs,
            _ => Seq::empty(),
        },
        _ => Seq::empty(),
    }
}

pub open spec fn is_symbols_field(f: (SymbolTokenModel, ValueModel)) -> bool {
    token_matches(f.0, 7, text_symbols())
}

pub open spec fn is_imports_field(f: (SymbolTokenModel, ValueModel)) -> bool {
    token_matches(f.0, 6, text_imports())
}

pub open spec fn symbols_field_count(fs: Seq<(SymbolTokenModel, ValueModel)>) -> nat
    decreases fs,
{
    if fs.len() == 0 {
        0
    } else {
        (if is_symbols_field(fs[0]) {
            1nat
        } else {
            0nat
        }) + symbols_field_count(fs.drop_first())
    }
}

pub open spec fn imports_field_count(fs: Seq<(SymbolTokenModel, ValueModel)>) -> nat
    decreases fs,
{
    if fs.len() == 0 {
        0
    } else {
        (if is_imports_field(fs[0]) {
            1nat
        } else {
            0nat
        }) + imports_field_count(fs.drop_first())
    }
}

pub open spec fn first_symbols_value(fs: Seq<(SymbolTokenModel, ValueModel)>) -> Option<ValueModel>
    decreases fs,
{
    if fs.len() == 0 {
        None
    } else if is_symbols_field(fs[0]) {
        Some(fs[0].1)
    } else {
        first_symbols_value(fs.drop_first())
    }
}

pub open spec fn first_imports_value(fs: Seq<(SymbolTokenModel, ValueModel)>) -> Option<ValueModel>
    decreases fs,
{
    if fs.len() == 0 {
        None
    } else if is_imports_field(fs[0]) {
        Some(fs[0].1)
    } else {
        first_imports_value(fs.drop_first())
    }
}

/// The pending entry each element of a `symbols` list contributes: its text
/// for a string, a placeholder for anything else.
pub open spec fn entries_of(vs: Seq<ValueModel>) -> Seq<Option<Seq<u8>>> {
    vs.map(
        |i: int, v: ValueModel|
            match v {
                ValueModel::Str(b) => Some(b),
                _ => None,
            },
    )
}

/// What a `symbols` field contributes: its elements if it is a list, nothing
/// otherwise (nulls and non-lists are ignored).
pub open spec fn symbols_entries(v: ValueModel) -> Seq<Option<Seq<u8>>> {
    match v {
        ValueModel::List(vs) => entries_of(vs),
        _ => Seq::empty(),
    }
}

/// Whether an `imports` value is the marker symbol that turns the table into
/// an append.
pub open spec fn import_is_append(v: ValueModel) -> bool {
    match v {
        ValueModel::Symbol(t) => token_matches(t, 3, text_ion_symbol_table()),
        _ => false,
    }
}

/// Whether an `imports` value is a list of shared-table imports, which this
/// implementation does not support.
pub open spec fn import_is_list(v: ValueModel) -> bool {
    v is List
}

/// A symbol-table structure is accepted when neither `symbols` nor `imports`
/// occurs twice and `imports` does not hold a list.
pub open spec fn process_ok(fs: Seq<(SymbolTokenModel, ValueModel)>) -> bool {
    &&& symbols_field_count(fs) <= 1
    &&& imports_field_count(fs) <= 1
    &&& !(match first_imports_value(fs) {
        Some(v) => import_is_list(v),
        None => false,
    })
}

/// The pending symbol entries an accepted structure queues.
pub open spec fn pending_symbols_of(fs: Seq<(SymbolTokenModel, ValueModel)>) -> Seq<
    Option<Seq<u8>>,
> {
    match first_symbols_value(fs) {
        Some(v) => symbols_entries(v),
        None => Seq::empty(),
    }
}

/// Whether an accepted structure appends to the table instead of replacing it.
pub open spec fn pending_append_of(fs: Seq<(SymbolTokenModel, ValueModel)>) -> bool {
    match first_imports_value(fs) {
        Some(v) => import_is_append(v),
        None => false,
    }
}

/// How one more field changes the scan of a field sequence.
proof fn lemma_fields_scan_push(fs: Seq<(SymbolTokenModel, ValueModel)>, f: (
    SymbolTokenModel,
    ValueModel,
))
    ensures
        symbols_field_count(fs.push(f)) == symbols_field_count(fs) + (if is_symbols_field(f) {
            1nat
        } else {
            0nat
        }),
        imports_field_count(fs.push(f)) == imports_field_count(fs) + (if is_imports_field(f) {
            1nat
        } else {
            0nat
        }),
        first_symbols_value(fs.push(f)) == (match first_symbols_value(fs) {
            Some(v) => Some(v),
            None => if is_symbols_field(f) {
                Some(f.1)
            } else {
                None::<ValueModel>
            },
        }),
        first_imports_value(fs.push(f)) == (match first_imports_value(fs) {
            Some(v) => Some(v),
            None => if is_imports_field(f) {
                Some(f.1)
            } else {
                None::<ValueModel>
            },
        }),
    decreases fs,
{
    if fs.len() == 0 {
        reveal_with_fuel(symbols_field_count, 2);
        reveal_with_fuel(imports_field_count, 2);
        reveal_with_fuel(first_symbols_value, 2);
        reveal_with_fuel(first_imports_value, 2);
        assert(fs.push(f).drop_first() =~= Seq::<(SymbolTokenModel, ValueModel)>::empty());
        assert(fs.push(f)[0] == f);
    } else {
        assert(fs.push(f).drop_first() =~= fs.drop_first().push(f));
        assert(fs.push(f)[0] == fs[0]);
        lemma_fields_scan_push(fs.drop_first(), f);
    }
}

/// A prefix's scan bounds the whole sequence's scan.
proof fn lemma_fields_scan_take(fs: Seq<(SymbolTokenModel, ValueModel)>, j: int)
    requires
        0 <= j <= fs.len(),
    ensures
        symbols_field_count(fs.take(j)) <= symbols_field_count(fs),
        imports_field_count(fs.take(j)) <= imports_field_count(fs),
        first_symbols_value(fs.take(j)) matches Some(v) ==> first_symbols_value(fs) == Some(v),
        first_imports_value(fs.take(j)) matches Some(v) ==> first_imports_value(fs) == Some(v),
    decreases fs.len() - j,
{
    if j == fs.len() {
        assert(fs.take(j) =~= fs);
    } else {
        assert(fs.take(j + 1) =~= fs.take(j).push(fs[j]));
        lemma_fields_scan_push(fs.take(j), fs[j]);
        lemma_fields_scan_take(fs, j + 1);
    }
}

/// Commit semantics: nothing without queued changes; an append extends the
/// table; a replacement rebuilds it from the system symbols.
pub open spec fn apply_model(t: Seq<Option<Seq<u8>>>, p: PendingLstModel) -> Seq<Option<Seq<u8>>> {
    if !p.has_changes {
        t
    } else if p.is_lst_append {
        t + p.symbols
    } else {
        system_symbols() + p.symbols
    }
}

/// Whether the four bytes at `pos` are the version marker of this format.
pub open spec fn is_ivm_at(s: Seq<u8>, pos: int) -> bool {
    &&& 0 <= pos
    &&& pos + 4 <= s.len()
    &&& s[pos] == 0xE0
    &&& s[pos + 1] == 0x01
    &&& s[pos + 2] == 0x00
    &&& s[pos + 3] == 0xEA
}

/// Ghost model of a reader's state: position, live table, pending changes.
pub struct StreamStateModel {
    pub pos: int,
    pub table: Seq<Option<Seq<u8>>>,
    pub pending: PendingLstModel,
}

/// Ghost model of one surfaced stream item.
pub enum SystemItemModel {
    VersionMarker(u8, u8),
    SymbolTable(ValueModel),
    Value(ValueModel),
    EndOfStream,
}

/// Ghost model of one reader step: an item and the state after it, or a
/// failure and the state it leaves behind.
pub enum StepModel {
    Item(SystemItemModel, StreamStateModel),
    Failed(StreamStateModel),
}

/// One step of the reader: pending changes are committed first, then the next
/// top-level construct is read. A structure recognized as a symbol table is
/// scanned into the pending set instead of being surfaced as a plain value.
pub open spec fn step_spec(s: Seq<u8>, st: StreamStateModel) -> StepModel {
    let table1 = apply_model(st.table, st.pending);
    if st.pos == s.len() {
        StepModel::Item(
            SystemItemModel::EndOfStream,
            StreamStateModel { pos: st.pos, table: table1, pending: empty_pending() },
        )
    } else if is_ivm_at(s, st.pos) {
        StepModel::Item(
            SystemItemModel::VersionMarker(1, 0),
            StreamStateModel { pos: st.pos + 4, table: table1, pending: empty_pending() },
        )
    } else {
        match dec_one(s, st.pos, s.len() as int) {
            Some((v, q)) => if is_symtab_model(v) {
                if process_ok(symtab_fields(v)) {
                    StepModel::Item(
                        SystemItemModel::SymbolTable(v),
                        StreamStateModel {
                            pos: q,
                            table: table1,
                            pending: PendingLstModel {
                                has_changes: true,
                                is_lst_append: pending_append_of(symtab_fields(v)),
                                symbols: pending_symbols_of(symtab_fields(v)),
                            },
                        },
                    )
                } else {
                    StepModel::Failed(
                        StreamStateModel { pos: q, table: table1, pending: empty_pending() },
                    )
                }
            } else {
                StepModel::Item(
                    SystemItemModel::Value(v),
                    StreamStateModel { pos: q, table: table1, pending: empty_pending() },
                )
            },
            None => StepModel::Failed(
                StreamStateModel { pos: st.pos, table: table1, pending: empty_pending() },
            ),
        }
    }
}

/// Ghost model of driving the reader to the next application value.
pub enum DriveModel {
    Value(Option<ValueModel>, StreamStateModel),
    Failed(StreamStateModel),
}

/// Steps until a plain value or the end of the stream, skipping version
/// markers and symbol tables (whose commits still take effect).
pub open spec fn drive_spec(s: Seq<u8>, st: StreamStateModel) -> DriveModel
    decreases s.len() - st.pos,
{
    match step_spec(s, st) {
        StepModel::Failed(st1) => DriveModel::Failed(st1),
        StepModel::Item(m, st1) => match m {
            SystemItemModel::EndOfStream => DriveModel::Value(None, st1),
            SystemItemModel::Value(v) => DriveModel::Value(Some(v), st1),
            _ => if st.pos < st1.pos <= s.len() {
                drive_spec(s, st1)
            } else {
                DriveModel::Failed(st1)
            },
        },
    }
}

/// One top-level stream item.
#[derive(Debug, PartialEq, Eq)]
pub enum SystemStreamItem {
    VersionMarker(u8, u8),
    SymbolTable(Value),
    Value(Value),
    EndOfStream,
}

impl View for SystemStreamItem {
    type V = SystemItemModel;

    open spec fn view(&self) -> SystemItemModel {
        match self {
            SystemStreamItem::VersionMarker(maj, min) => SystemItemModel::VersionMarker(
                *maj,
                *min,
            ),
            SystemStreamItem::SymbolTable(v) => SystemItemModel::SymbolTable((*v)@),
            SystemStreamItem::Value(v) => SystemItemModel::Value((*v)@),
            SystemStreamItem::EndOfStream => SystemItemModel::EndOfStream,
        }
    }
}

/// A reader over one binary stream: the bytes, the current position, the live
/// symbol table, and the pending-change buffer of the last symbol table seen.
pub struct LazySystemReader {
    pub data: Vec<u8>,
    pub pos: usize,
    pub symbol_table: SymbolTable,
    pub pending_lst: PendingLst,
}

/// This reader handles the binary encoding for any supported stream.
pub type LazySystemAnyReader = LazySystemReader;

/// The binary-encoding reader.
pub type LazySystemBinaryReader = LazySystemReader;

impl LazySystemReader {
    /// The reader's ghost state.
    pub open spec fn state_model(&self) -> StreamStateModel {
        StreamStateModel {
            pos: self.pos as int,
            table: self.symbol_table@,
            pending: self.pending_lst@,
        }
    }

    /// A reader positioned at the start of the given stream, with the system
    /// symbols live and nothing pending.
    pub fn new(ion_data: &[u8]) -> (r: LazySystemReader)
        ensures
            r.data@ == ion_data@,
            r.state_model() == (StreamStateModel {
                pos: 0,
                table: system_symbols(),
                pending: empty_pending(),
            }),
    {
        let r = LazySystemReader {
            data: vstd::slice::slice_to_vec(ion_data),
            pos: 0,
            symbol_table: SymbolTable::new(),
            pending_lst: PendingLst::new(),
        };
        r
    }

    /// Whether the value is a struct whose first annotation resolves to the
    /// symbol-table marker.
    pub fn is_symbol_table_struct(lazy_value: &Value) -> (r: bool)
        ensures
            r == is_symtab_model((*lazy_value)@),
    {
        match lazy_value {
            Value::Annotated(anns, inner) => {
                if anns.len() == 0 {
                    return false;
                }
                proof {
                    assert(tokens_model(anns@)[0] == anns@[0]@);
                }
                let marker = text_ion_symbol_table_vec();
                if !anns[0].matches_sid_or_text(3, &marker) {
                    return false;
                }
                proof {
                    lemma_value_model_variants(**inner);
                }
                match &**inner {
                    Value::Struct(_) => true,
                    _ => false,
                }
            },
            _ => {
                proof {
                    lemma_value_model_variants(*lazy_value);
                }
                false
            },
        }
    }

    /// Commits the pending changes: an append with nothing queued is a no-op;
    /// an append adds each pending entry in order; a replacement first resets
    /// the table to the system symbols. The pending list is drained.
    pub fn apply_pending_lst(symbol_table: &mut SymbolTable, pending_lst: &mut PendingLst)
        ensures
            old(pending_lst)@.is_lst_append && old(pending_lst)@.symbols.len() == 0
                ==> final(symbol_table)@ == old(symbol_table)@ && final(pending_lst)@ == old(
                pending_lst,
            )@,
            !(old(pending_lst)@.is_lst_append && old(pending_lst)@.symbols.len() == 0) ==> {
                &&& final(symbol_table)@ == (if old(pending_lst)@.is_lst_append {
                    old(symbol_table)@
                } else {
                    system_symbols()
                }) + old(pending_lst)@.symbols
                &&& final(pending_lst)@.symbols.len() == 0
                &&& final(pending_lst)@.is_lst_append == false
                &&& final(pending_lst)@.has_changes == old(pending_lst)@.has_changes
            },
    {
        if pending_lst.is_lst_append {
            if pending_lst.symbols.len() == 0 {
                return;
            }
        } else {
            symbol_table.reset();
        }
        let ghost base = symbol_table@;
        let ghost queued = pending_lst@.symbols;
        let mut i: usize = 0;
        while i < pending_lst.symbols.len()
            invariant
                i <= pending_lst.symbols@.len(),
                queued == pending_lst@.symbols,
                queued.len() == pending_lst.symbols@.len(),
                symbol_table@ == base + queued.take(i as int),
            decreases pending_lst.symbols@.len() - i,
        {
            proof {
                assert(queued[i as int] == pending_lst.symbols@[i as int].deep_view());
            }
            let entry = crate::symbol_table::clone_entry(&pending_lst.symbols[i]);
            symbol_table.intern_or_add_placeholder(entry);
            proof {
                assert(queued.take(i as int + 1) =~= queued.take(i as int).push(queued[i as int]));
                assert(symbol_table@ =~= base + queued.take(i as int + 1));
            }
            i = i + 1;
        }
        proof {
            assert(queued.take(queued.len() as int) =~= queued);
        }
        pending_lst.symbols = Vec::new();
        pending_lst.is_lst_append = false;
        proof {
            assert(final(pending_lst)@.symbols =~= Seq::<Option<Seq<u8>>>::empty());
        }
    }

    /// Queues the entries of a `symbols` field: each string becomes pending
    /// text, anything else a placeholder; a non-list contributes nothing.
    pub fn process_symbols(pending_lst: &mut PendingLst, symbols: &Value) -> (r: Result<
        (),
        IonError,
    >)
        ensures
            r is Ok,
            final(pending_lst)@.symbols == old(pending_lst)@.symbols + symbols_entries(
                (*symbols)@,
            ),
            final(pending_lst)@.has_changes == old(pending_lst)@.has_changes,
            final(pending_lst)@.is_lst_append == old(pending_lst)@.is_lst_append,
    {
        match symbols {
            Value::List(items) => {
                let ghost ms = seq_model(items@);
                let ghost base = pending_lst@.symbols;
                proof {
                    lemma_seq_model(items@);
                }
                let mut i: usize = 0;
                while i < items.len()
                    invariant
                        i <= items@.len(),
                        ms == seq_model(items@),
                        ms.len() == items@.len(),
                        forall|j: int| 0 <= j < items@.len() ==> ms[j] == crate::types::value_model(
                            items@[j],
                        ),
                        pending_lst@.symbols == base + entries_of(ms).take(i as int),
                        pending_lst@.has_changes == old(pending_lst)@.has_changes,
                        pending_lst@.is_lst_append == old(pending_lst)@.is_lst_append,
                    decreases items@.len() - i,
                {
                    let ghost before = pending_lst@.symbols;
                    match &items[i] {
                        Value::Str(b) => {
                            pending_lst.symbols.push(Some(clone_bytes(b)));
                        },
                        _ => {
                            pending_lst.symbols.push(None);
                        },
                    }
                    proof {
                        assert(pending_lst@.symbols =~~= before.push(entries_of(ms)[i as int]));
                        assert(entries_of(ms).take(i as int + 1) =~= entries_of(ms).take(
                            i as int,
                        ).push(entries_of(ms)[i as int]));
                        assert(pending_lst@.symbols =~= base + entries_of(ms).take(i as int + 1));
                    }
                    i = i + 1;
                }
                proof {
                    assert(entries_of(ms).take(items@.len() as int) =~= entries_of(ms));
                    assert(symbols_entries((*symbols)@) == entries_of(ms));
                }
                Ok(())
            },
            _ => {
                proof {
                    assert(final(pending_lst)@.symbols =~= old(pending_lst)@.symbols
                        + symbols_entries((*symbols)@));
                }
                Ok(())
            },
        }
    }

    /// Handles an `imports` field: the marker symbol turns the pending change
    /// into an append; a list (shared-table imports) is unsupported and fails;
    /// anything else is ignored.
    pub fn process_imports(pending_lst: &mut PendingLst, imports: &Value) -> (r: Result<
        (),
        IonError,
    >)
        ensures
            r is Ok <==> !import_is_list((*imports)@),
            r is Ok ==> {
                &&& final(pending_lst)@.is_lst_append == (old(pending_lst)@.is_lst_append
                    || import_is_append((*imports)@))
                &&& final(pending_lst)@.symbols == old(pending_lst)@.symbols
                &&& final(pending_lst)@.has_changes == old(pending_lst)@.has_changes
            },
            !(r is Ok) ==> final(pending_lst)@ == old(pending_lst)@ && r == Err::<(), IonError>(
                IonError::DecodingError,
            ),
    {
        match imports {
            Value::Symbol(token) => {
                let marker = text_ion_symbol_table_vec();
                if token.matches_sid_or_text(3, &marker) {
                    pending_lst.is_lst_append = true;
                }
                Ok(())
            },
            Value::List(_) => Err(IonError::DecodingError),
            _ => Ok(()),
        }
    }

    /// Scans a symbol-table structure into the pending set, after clearing any
    /// stale state: at most one `symbols` and one `imports` field are allowed,
    /// shared-table imports are refused, and other fields are ignored. On
    /// failure the pending set is left empty and the live table untouched.
    pub fn process_symbol_table(pending_lst: &mut PendingLst, symbol_table: &Value) -> (r: Result<
        (),
        IonError,
    >)
        requires
            is_symtab_model((*symbol_table)@),
        ensures
            r is Ok <==> process_ok(symtab_fields((*symbol_table)@)),
            r is Ok ==> final(pending_lst)@ == (PendingLstModel {
                has_changes: true,
                is_lst_append: pending_append_of(symtab_fields((*symbol_table)@)),
                symbols: pending_symbols_of(symtab_fields((*symbol_table)@)),
            }),
            !(r is Ok) ==> final(pending_lst)@ == empty_pending() && r == Err::<(), IonError>(
                IonError::DecodingError,
            ),
    {
        match symbol_table {
            Value::Annotated(_, inner) => match &**inner {
                Value::Struct(fields) => {
                    proof {
                        reveal_with_fuel(value_model, 3);
                        assert(symtab_fields((*symbol_table)@) == fields_model(fields@));
                    }
                    Self::process_symbol_table_fields(pending_lst, fields)
                },
                _ => {
                    proof {
                        lemma_value_model_variants(**inner);
                        reveal_with_fuel(value_model, 3);
                    }
                    clear_pending(pending_lst);
                    Err(IonError::DecodingError)
                },
            },
            _ => {
                proof {
                    lemma_value_model_variants(*symbol_table);
                }
                clear_pending(pending_lst);
                Err(IonError::DecodingError)
            },
        }
    }

    /// Scans the fields of a symbol-table structure, as `process_symbol_table`
    /// describes.
    fn process_symbol_table_fields(pending_lst: &mut PendingLst, fields: &Vec<(SymbolToken, Value)>)
        -> (r: Result<(), IonError>)
        ensures
            r is Ok <==> process_ok(fields_model(fields@)),
            r is Ok ==> final(pending_lst)@ == (PendingLstModel {
                has_changes: true,
                is_lst_append: pending_append_of(fields_model(fields@)),
                symbols: pending_symbols_of(fields_model(fields@)),
            }),
            !(r is Ok) ==> final(pending_lst)@ == empty_pending() && r == Err::<(), IonError>(
                IonError::DecodingError,
            ),
    {
        clear_pending(pending_lst);
        let ghost fm = fields_model(fields@);
        proof {
            lemma_fields_model(fields@);
        }
        let mut found_symbols_field = false;
        let mut found_imports_field = false;
        let mut i: usize = 0;
        while i < fields.len()
            invariant
                i <= fields@.len(),
                fm == fields_model(fields@),
                fm.len() == fields@.len(),
                forall|j: int| 0 <= j < fields@.len() ==> fm[j] == (
                    fields@[j].0@,
                    crate::types::value_model(fields@[j].1),
                ),
                symbols_field_count(fm.take(i as int)) <= 1,
                imports_field_count(fm.take(i as int)) <= 1,
                found_symbols_field == (symbols_field_count(fm.take(i as int)) == 1),
                found_imports_field == (imports_field_count(fm.take(i as int)) == 1),
                found_symbols_field == (first_symbols_value(fm.take(i as int)) is Some),
                found_imports_field == (first_imports_value(fm.take(i as int)) is Some),
                first_imports_value(fm.take(i as int)) matches Some(v) ==> !import_is_list(v),
                pending_lst@.symbols == pending_symbols_of(fm.take(i as int)),
                pending_lst@.is_lst_append == pending_append_of(fm.take(i as int)),
                pending_lst@.has_changes == false,
            decreases fields@.len() - i,
        {
            proof {
                assert(fm.take(i as int + 1) =~= fm.take(i as int).push(fm[i as int]));
                lemma_fields_scan_push(fm.take(i as int), fm[i as int]);
            }
            let symbols_text = text_symbols_vec();
            let imports_text = text_imports_vec();
            if fields[i].0.matches_sid_or_text(7, &symbols_text) {
                if found_symbols_field {
                    proof {
                        lemma_fields_scan_take(fm, i as int + 1);
                    }
                    clear_pending(pending_lst);
                    return Err(IonError::DecodingError);
                }
                found_symbols_field = true;
                let ghost before = pending_lst@.symbols;
                match Self::process_symbols(pending_lst, &fields[i].1) {
                    Ok(()) => {},
                    Err(_) => {
                        clear_pending(pending_lst);
                        return Err(IonError::DecodingError);
                    },
                }
                proof {
                    assert(before =~= Seq::<Option<Seq<u8>>>::empty());
                    assert(pending_lst@.symbols =~= symbols_entries(fm[i as int].1));
                    assert(pending_lst@.symbols =~= pending_symbols_of(fm.take(i as int + 1)));
                }
            }
            if fields[i].0.matches_sid_or_text(6, &imports_text) {
                if found_imports_field {
                    proof {
                        lemma_fields_scan_take(fm, i as int + 1);
                    }
                    clear_pending(pending_lst);
                    return Err(IonError::DecodingError);
                }
                found_imports_field = true;
                match Self::process_imports(pending_lst, &fields[i].1) {
                    Ok(()) => {},
                    Err(_) => {
                        proof {
                            lemma_fields_scan_take(fm, i as int + 1);
                        }
                        clear_pending(pending_lst);
                        return Err(IonError::DecodingError);
                    },
                }
            }
            i = i + 1;
        }
        proof {
            assert(fm.take(fields@.len() as int) =~= fm);
        }
        pending_lst.has_changes = true;
        Ok(())
    }

    /// Returns the next top-level stream item (version marker, symbol table,
    /// value, or end of stream), committing any pending symbol-table changes
    /// first.
    pub fn next_item(&mut self) -> (r: Result<SystemStreamItem, IonError>)
        ensures
            final(self).data == old(self).data,
            ({
                match step_spec(old(self).data@, old(self).state_model()) {
                    StepModel::Item(m, st1) => r matches Ok(item) && item@ == m
                        && final(self).state_model() == st1,
                    StepModel::Failed(st1) => r == Err::<SystemStreamItem, IonError>(
                        IonError::DecodingError,
                    ) && final(self).state_model() == st1,
                }
            }),
    {
        let ghost st0 = self.state_model();
        if self.pending_lst.has_changes {
            Self::apply_pending_lst(&mut self.symbol_table, &mut self.pending_lst);
            proof {
                if st0.pending.is_lst_append && st0.pending.symbols.len() == 0 {
                    assert(st0.table + st0.pending.symbols =~= st0.table);
                }
            }
        }
        self.pending_lst = PendingLst::new();
        proof {
            assert(self.symbol_table@ == apply_model(st0.table, st0.pending));
        }
        if self.pos == self.data.len() {
            return Ok(SystemStreamItem::EndOfStream);
        }
        if self.pos < self.data.len() && self.data.len() - self.pos >= 4 {
            if self.data[self.pos] == 0xE0 && self.data[self.pos + 1] == 0x01 && self.data[self.pos
                + 2] == 0x00 && self.data[self.pos + 3] == 0xEA {
                self.pos = self.pos + 4;
                return Ok(SystemStreamItem::VersionMarker(1, 0));
            }
        }
        proof {
            assert(!is_ivm_at(self.data@, self.pos as int));
        }
        match read_value(&self.data, self.pos, self.data.len()) {
            Ok((v, q)) => {
                if Self::is_symbol_table_struct(&v) {
                    self.pos = q;
                    match Self::process_symbol_table(&mut self.pending_lst, &v) {
                        Ok(()) => Ok(SystemStreamItem::SymbolTable(v)),
                        Err(e) => Err(e),
                    }
                } else {
                    self.pos = q;
                    Ok(SystemStreamItem::Value(v))
                }
            },
            Err(e) => Err(e),
        }
    }

    /// Returns the next value of the application data model, skipping version
    /// markers and symbol tables while still committing their changes.
    pub fn next_value(&mut self) -> (r: Result<Option<Value>, IonError>)
        ensures
            final(self).data == old(self).data,
            ({
                match drive_spec(old(self).data@, old(self).state_model()) {
                    DriveModel::Value(ov, st1) => r matches Ok(o) && final(self).state_model()
                        == st1 && (match ov {
                        Some(m) => o matches Some(v) && v@ == m,
                        None => o is None,
                    }),
                    DriveModel::Failed(st1) => r == Err::<Option<Value>, IonError>(
                        IonError::DecodingError,
                    ) && final(self).state_model() == st1,
                }
            }),
    {
        loop
            invariant
                self.data == old(self).data,
                drive_spec(self.data@, self.state_model()) == drive_spec(
                    old(self).data@,
                    old(self).state_model(),
                ),
            decreases self.data@.len() - self.pos,
        {
            let ghost st_b = self.state_model();
            match self.next_item() {
                Ok(item) => {
                    match item {
                        SystemStreamItem::VersionMarker(_, _) => {
                            proof {
                                assert(is_ivm_at(self.data@, st_b.pos));
                            }
                        },
                        SystemStreamItem::SymbolTable(_) => {
                            proof {
                                lemma_dec_one_advances(
                                    self.data@,
                                    st_b.pos,
                                    self.data@.len() as int,
                                );
                            }
                        },
                        SystemStreamItem::Value(v) => {
                            return Ok(Some(v));
                        },
                        SystemStreamItem::EndOfStream => {
                            return Ok(None);
                        },
                    }
                },
                Err(e) => {
                    return Err(e);
                },
            }
        }
    }
}

/// Empties the pending set.
fn clear_pending(pending_lst: &mut PendingLst)
    ensures
        final(pending_lst)@ == empty_pending(),
{
    pending_lst.has_changes = false;
    pending_lst.is_lst_append = false;
    pending_lst.symbols = Vec::new();
    proof {
        assert(final(pending_lst)@.symbols =~= Seq::<Option<Seq<u8>>>::empty());
    }
}

} // verus!
