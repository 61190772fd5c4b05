//! The data model: value kinds, symbol references, arbitrary-precision
//! integers as sign + magnitude bytes, and the tree of values a writer can
//! encode. Each executable type has a ghost model used by the contracts.

use vstd::prelude::*;
use crate::encoding::{be_bytes, abs_int};
use crate::encoder::u64_be_bytes;

verus! {

/// The thirteen value kinds of the format.
#[derive(Clone, Copy, Debug, PartialEq, Eq)]
pub enum IonType {
    Null,
    Bool,
    Int,
    Float,
    Decimal,
    Timestamp,
    Symbol,
    String,
    Clob,
    Blob,
    List,
    SExp,
    Struct,
}

/// A symbol reference: either an integer symbol ID already resolved against a
/// symbol table, or raw text (as UTF-8 bytes). The binary encoding can only
/// represent IDs; text symbols are rejected by the writer.
#[derive(Clone, Debug, PartialEq, Eq)]
pub enum SymbolToken {
    SymbolId(u64),
    Text(Vec<u8>),
}

/// Ghost model of a `SymbolToken`.
pub enum SymbolTokenModel {
    SymbolId(u64),
    Text(Seq<u8>),
}

impl View for SymbolToken {
    type V = SymbolTokenModel;

    open spec fn view(&self) -> SymbolTokenModel {
        match self {
            SymbolToken::SymbolId(s) => SymbolTokenModel::SymbolId(*s),
            SymbolToken::Text(t) => SymbolTokenModel::Text(t@),
        }
    }
}

/// An integer of arbitrary size: a sign and the minimal big-endian bytes of
/// the magnitude. Zero is the empty magnitude with `negative == false`.
#[derive(Clone, Debug, PartialEq, Eq)]
pub struct Int {
    pub negative: bool,
    pub magnitude: Vec<u8>,
}

/// Ghost model of an `Int`.
pub struct IntModel {
    pub negative: bool,
    pub magnitude: Seq<u8>,
}

impl View for Int {
    type V = IntModel;

    open spec fn view(&self) -> IntModel {
        IntModel { negative: self.negative, magnitude: self.magnitude@ }
    }
}

/// Well-formedness of an `Int`: the magnitude carries no leading zero byte
/// (zero itself is the empty magnitude), and a negative value is never zero.
pub open spec fn int_wf(m: IntModel) -> bool {
    &&& (m.magnitude.len() > 0 ==> m.magnitude[0] != 0)
    &&& (m.negative ==> m.magnitude.len() > 0)
}

impl Int {
    /// Builds the sign/magnitude form of a machine integer.
    pub fn from_i64(value: i64) -> (r: Int)
        ensures
            r@.negative == (value < 0),
            r@.magnitude == be_bytes(abs_int(value as int)),
            int_wf(r@),
    {
        let magnitude_u64: u64 = if value >= 0 {
            value as u64
        } else {
            (-(value as i128)) as u64
        };
        proof {
            crate::encoding::lemma_be_bytes_minimal(magnitude_u64 as nat);
        }
        Int { negative: value < 0, magnitude: u64_be_bytes(magnitude_u64) }
    }
}

/// A value of the data model. Floats are carried as their IEEE-754 bit
/// patterns; strings are carried as their UTF-8 bytes. Struct field names and
/// annotations are symbol references.
#[derive(Debug, PartialEq, Eq)]
pub enum Value {
    Null(IonType),
    Bool(bool),
    Int(Int),
    Float32(u32),
    Float64(u64),
    Str(Vec<u8>),
    Symbol(SymbolToken),
    Clob(Vec<u8>),
    Blob(Vec<u8>),
    List(Vec<Value>),
    SExp(Vec<Value>),
    Struct(Vec<(SymbolToken, Value)>),
    Annotated(Vec<SymbolToken>, Box<Value>),
}

/// Ghost model of a `Value`.
pub enum ValueModel {
    Null(IonType),
    Bool(bool),
    Int(IntModel),
    Float32(u32),
    Float64(u64),
    Str(Seq<u8>),
    Symbol(SymbolTokenModel),
    Clob(Seq<u8>),
    Blob(Seq<u8>),
    List(Seq<ValueModel>),
    SExp(Seq<ValueModel>),
    Struct(Seq<(SymbolTokenModel, ValueModel)>),
    Annotated(Seq<SymbolTokenModel>, Box<ValueModel>),
}

/// Models of a sequence of symbol tokens.
pub open spec fn tokens_model(ts: Seq<SymbolToken>) -> Seq<SymbolTokenModel> {
    ts.map(|i: int, t: SymbolToken| t@)
}

/// Model of a value; containers model their children element by element.
pub open spec fn value_model(v: Value) -> ValueModel
    decreases v,
{
    match v {
        Value::Null(t) => ValueModel::Null(t),
        Value::Bool(b) => ValueModel::Bool(b),
        Value::Int(i) => ValueModel::Int(i@),
        Value::Float32(bits) => ValueModel::Float32(bits),
        Value::Float64(bits) => ValueModel::Float64(bits),
        Value::Str(b) => ValueModel::Str(b@),
        Value::Symbol(t) => ValueModel::Symbol(t@),
        Value::Clob(b) => ValueModel::Clob(b@),
        Value::Blob(b) => ValueModel::Blob(b@),
        Value::List(vs) => ValueModel::List(seq_model(vs@)),
        Value::SExp(vs) => ValueModel::SExp(seq_model(vs@)),
        Value::Struct(fs) => ValueModel::Struct(fields_model(fs@)),
        Value::Annotated(anns, inner) => ValueModel::Annotated(
            tokens_model(anns@),
            Box::new(value_model(*inner)),
        ),
    }
}

pub open spec fn seq_model(vs: Seq<Value>) -> Seq<ValueModel>
    decreases vs,
{
    if vs.len() == 0 {
        Seq::empty()
    } else {
        seq![value_model(vs[0])] + seq_model(vs.drop_first())
    }
}

pub open spec fn fields_model(fs: Seq<(SymbolToken, Value)>) -> Seq<(SymbolTokenModel, ValueModel)>
    decreases fs,
{
    if fs.len() == 0 {
        Seq::empty()
    } else {
        seq![(fs[0].0@, value_model(fs[0].1))] + fields_model(fs.drop_first())
    }
}

impl View for Value {
    type V = ValueModel;

    open spec fn view(&self) -> ValueModel {
        value_model(*self)
    }
}

/// A value and its model are the same kind of value.
pub proof fn lemma_value_model_variants(v: Value)
    ensures
        (value_model(v) is Struct) == (v is Struct),
        (value_model(v) is Annotated) == (v is Annotated),
        (value_model(v) is List) == (v is List),
        (value_model(v) is Symbol) == (v is Symbol),
        (value_model(v) is Str) == (v is Str),
{
    match v {
        Value::Null(_) => {},
        Value::Bool(_) => {},
        Value::Int(_) => {},
        Value::Float32(_) => {},
        Value::Float64(_) => {},
        Value::Str(_) => {},
        Value::Symbol(_) => {},
        Value::Clob(_) => {},
        Value::Blob(_) => {},
        Value::List(_) => {},
        Value::SExp(_) => {},
        Value::Struct(_) => {},
        Value::Annotated(_, _) => {},
    }
}

/// `seq_model` maps element by element.
pub proof fn lemma_seq_model(vs: Seq<Value>)
    ensures
        seq_model(vs).len() == vs.len(),
        forall|i: int| 0 <= i < vs.len() ==> seq_model(vs)[i] == value_model(vs[i]),
    decreases vs,
{
    if vs.len() > 0 {
        lemma_seq_model(vs.drop_first());
    }
}

/// `fields_model` maps field by field.
pub proof fn lemma_fields_model(fs: Seq<(SymbolToken, Value)>)
    ensures
        fields_model(fs).len() == fs.len(),
        forall|i: int| 0 <= i < fs.len()
            ==> fields_model(fs)[i] == (fs[i].0@, value_model(fs[i].1)),
    decreases fs,
{
    if fs.len() > 0 {
        lemma_fields_model(fs.drop_first());
    }
}

} // verus!
