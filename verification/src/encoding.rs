//! The encoding, stated as spec functions: variable-length unsigned integers,
//! minimal big-endian magnitudes, type descriptors, and the byte sequence each
//! value of the model encodes to. These functions are the reference that the
//! executable writer is proved against.

use vstd::prelude::*;
use crate::types::{IonType, IntModel, SymbolTokenModel, ValueModel};

verus! {

/// Variable-length unsigned integer: seven payload bits per byte, least
/// significant group first; the final byte has its high bit set.
pub open spec fn var_uint(n: nat) -> Seq<u8>
    decreases n,
{
    if n < 128 {
        seq![(128 + n) as u8]
    } else {
        seq![(n % 128) as u8] + var_uint(n / 128)
    }
}

/// Minimal big-endian byte representation of an unsigned integer; zero is the
/// empty sequence.
pub open spec fn be_bytes(n: nat) -> Seq<u8>
    decreases n,
{
    if n == 0 {
        Seq::empty()
    } else {
        be_bytes(n / 256) + seq![(n % 256) as u8]
    }
}

/// A nonzero magnitude has at least one byte and no leading zero byte.
pub proof fn lemma_be_bytes_minimal(n: nat)
    ensures
        n > 0 ==> be_bytes(n).len() > 0 && be_bytes(n)[0] != 0,
        n == 0 ==> be_bytes(n).len() == 0,
    decreases n,
{
    if n > 0 {
        lemma_be_bytes_minimal(n / 256);
    }
}

/// The four big-endian bytes of a 32-bit pattern.
pub open spec fn be32(bits: u32) -> Seq<u8> {
    seq![(bits >> 24) as u8, (bits >> 16) as u8, (bits >> 8) as u8, bits as u8]
}

/// The eight big-endian bytes of a 64-bit pattern.
pub open spec fn be64(bits: u64) -> Seq<u8> {
    seq![
        (bits >> 56) as u8,
        (bits >> 48) as u8,
        (bits >> 40) as u8,
        (bits >> 32) as u8,
        (bits >> 24) as u8,
        (bits >> 16) as u8,
        (bits >> 8) as u8,
        bits as u8,
    ]
}

/// A type descriptor byte for the given type code (high nibble, low nibble
/// zero) and payload length: the length rides inline in the low nibble when it
/// is at most 13, otherwise the low nibble is 14 and the length follows as a
/// variable-length unsigned integer. Low nibble 15 (the null marker) is never
/// produced here.
pub open spec fn td_bytes(code: u8, len: nat) -> Seq<u8> {
    if len <= 13 {
        seq![(code as nat + len) as u8]
    } else {
        seq![(code as nat + 14) as u8] + var_uint(len)
    }
}

/// The one-byte encoding of a typed null.
pub open spec fn null_descriptor(t: IonType) -> u8 {
    match t {
        IonType::Null => 0x0F,
        IonType::Bool => 0x1F,
        IonType::Int => 0x2F,
        IonType::Float => 0x4F,
        IonType::Decimal => 0x5F,
        IonType::Timestamp => 0x6F,
        IonType::Symbol => 0x7F,
        IonType::String => 0x8F,
        IonType::Clob => 0x9F,
        IonType::Blob => 0xAF,
        IonType::List => 0xBF,
        IonType::SExp => 0xCF,
        IonType::Struct => 0xDF,
    }
}

/// The magnitude of a signed machine integer.
pub open spec fn abs_int(v: int) -> nat {
    if v < 0 {
        (-v) as nat
    } else {
        v as nat
    }
}

/// An integer encodes as the positive-int or negative-int type code with the
/// magnitude bytes as payload; zero is the positive code with no payload.
pub open spec fn enc_int(m: IntModel) -> Seq<u8> {
    td_bytes(if m.negative { 0x30u8 } else { 0x20u8 }, m.magnitude.len()) + m.magnitude
}

/// The encoding of a machine integer: sign code plus minimal magnitude bytes.
pub open spec fn enc_i64(v: int) -> Seq<u8> {
    td_bytes(if v < 0 { 0x30u8 } else { 0x20u8 }, be_bytes(abs_int(v)).len()) + be_bytes(abs_int(v))
}

/// A 32-bit float: the all-zero pattern (positive zero) is descriptor-only;
/// everything else, negative zero included, carries four big-endian bytes.
pub open spec fn enc_f32(bits: u32) -> Seq<u8> {
    if bits == 0 {
        seq![0x40u8]
    } else {
        seq![0x44u8] + be32(bits)
    }
}

/// A 64-bit float, as `enc_f32` with eight payload bytes.
pub open spec fn enc_f64(bits: u64) -> Seq<u8> {
    if bits == 0 {
        seq![0x40u8]
    } else {
        seq![0x48u8] + be64(bits)
    }
}

/// A symbol ID value: symbol type code, magnitude bytes as payload.
pub open spec fn enc_symbol_id(sid: u64) -> Seq<u8> {
    td_bytes(0x70u8, be_bytes(sid as nat).len()) + be_bytes(sid as nat)
}

/// A string, clob or blob: descriptor for the given code, raw payload bytes.
pub open spec fn enc_lob(code: u8, b: Seq<u8>) -> Seq<u8> {
    td_bytes(code, b.len()) + b
}

/// The annotation sequence: each symbol ID as a variable-length unsigned
/// integer, in order, with no separators. Text tokens have no binary form.
pub open spec fn enc_anns_seq(anns: Seq<SymbolTokenModel>) -> Seq<u8>
    decreases anns.len(),
{
    if anns.len() == 0 {
        Seq::empty()
    } else {
        (match anns[0] {
            SymbolTokenModel::SymbolId(s) => var_uint(s as nat),
            SymbolTokenModel::Text(_) => Seq::empty(),
        }) + enc_anns_seq(anns.drop_first())
    }
}

/// The bytes a value encodes to.
pub open spec fn enc(v: ValueModel) -> Seq<u8>
    decreases v,
{
    match v {
        ValueModel::Null(t) => seq![null_descriptor(t)],
        ValueModel::Bool(b) => seq![if b { 0x11u8 } else { 0x10u8 }],
        ValueModel::Int(m) => enc_int(m),
        ValueModel::Float32(bits) => enc_f32(bits),
        ValueModel::Float64(bits) => enc_f64(bits),
        ValueModel::Str(b) => enc_lob(0x80u8, b),
        ValueModel::Symbol(t) => match t {
            SymbolTokenModel::SymbolId(s) => enc_symbol_id(s),
            SymbolTokenModel::Text(_) => Seq::empty(),
        },
        ValueModel::Clob(b) => enc_lob(0x90u8, b),
        ValueModel::Blob(b) => enc_lob(0xA0u8, b),
        ValueModel::List(vs) => {
            let body = enc_seq(vs);
            td_bytes(0xB0u8, body.len()) + body
        },
        ValueModel::SExp(vs) => {
            let body = enc_seq(vs);
            td_bytes(0xC0u8, body.len()) + body
        },
        ValueModel::Struct(fs) => {
            let body = enc_fields(fs);
            td_bytes(0xD0u8, body.len()) + body
        },
        ValueModel::Annotated(anns, inner) => {
            let aseq = enc_anns_seq(anns);
            let body = var_uint(aseq.len()) + aseq + enc(*inner);
            td_bytes(0xE0u8, body.len()) + body
        },
    }
}

/// The concatenated encodings of a sequence of sibling values.
pub open spec fn enc_seq(vs: Seq<ValueModel>) -> Seq<u8>
    decreases vs,
{
    if vs.len() == 0 {
        Seq::empty()
    } else {
        enc(vs[0]) + enc_seq(vs.drop_first())
    }
}

/// The concatenated encodings of struct fields: each field-name symbol ID as a
/// variable-length unsigned integer, then the field's value.
pub open spec fn enc_fields(fs: Seq<(SymbolTokenModel, ValueModel)>) -> Seq<u8>
    decreases fs,
{
    if fs.len() == 0 {
        Seq::empty()
    } else {
        (match fs[0].0 {
            SymbolTokenModel::SymbolId(s) => var_uint(s as nat),
            SymbolTokenModel::Text(_) => Seq::empty(),
        }) + enc(fs[0].1) + enc_fields(fs.drop_first())
    }
}

/// Whether every annotation in the sequence is a resolved symbol ID.
pub open spec fn all_sids(ts: Seq<SymbolTokenModel>) -> bool {
    forall|i: int| 0 <= i < ts.len() ==> ts[i] is SymbolId
}

/// Whether the binary writer can represent a value: no text symbol occurs
/// anywhere (as a value, a field name, or an annotation), and every annotation
/// wrapper carries at least one annotation.
pub open spec fn writable(v: ValueModel) -> bool
    decreases v,
{
    match v {
        ValueModel::Null(_) => true,
        ValueModel::Bool(_) => true,
        ValueModel::Int(_) => true,
        ValueModel::Float32(_) => true,
        ValueModel::Float64(_) => true,
        ValueModel::Str(_) => true,
        ValueModel::Symbol(t) => t is SymbolId,
        ValueModel::Clob(_) => true,
        ValueModel::Blob(_) => true,
        ValueModel::List(vs) => writable_seq(vs),
        ValueModel::SExp(vs) => writable_seq(vs),
        ValueModel::Struct(fs) => writable_fields(fs),
        ValueModel::Annotated(anns, inner) => anns.len() > 0 && all_sids(anns) && writable(
            *inner,
        ),
    }
}

pub open spec fn writable_seq(vs: Seq<ValueModel>) -> bool
    decreases vs,
{
    if vs.len() == 0 {
        true
    } else {
        writable(vs[0]) && writable_seq(vs.drop_first())
    }
}

pub open spec fn writable_fields(fs: Seq<(SymbolTokenModel, ValueModel)>) -> bool
    decreases fs,
{
    if fs.len() == 0 {
        true
    } else {
        fs[0].0 is SymbolId && writable(fs[0].1) && writable_fields(fs.drop_first())
    }
}

/// Every element of a writable sequence is writable.
pub proof fn lemma_writable_seq_index(vs: Seq<ValueModel>)
    ensures
        writable_seq(vs) ==> forall|i: int| 0 <= i < vs.len() ==> writable(vs[i]),
    decreases vs,
{
    if vs.len() > 0 {
        lemma_writable_seq_index(vs.drop_first());
        if writable_seq(vs) {
            assert forall|i: int| 0 <= i < vs.len() implies writable(vs[i]) by {
                if i > 0 {
                    assert(vs.drop_first()[i - 1] == vs[i]);
                }
            }
        }
    }
}

/// Every field of a writable field sequence has an ID name and a writable value.
pub proof fn lemma_writable_fields_index(fs: Seq<(SymbolTokenModel, ValueModel)>)
    ensures
        writable_fields(fs) ==> forall|i: int|
            0 <= i < fs.len() ==> fs[i].0 is SymbolId && writable(fs[i].1),
    decreases fs,
{
    if fs.len() > 0 {
        lemma_writable_fields_index(fs.drop_first());
        if writable_fields(fs) {
            assert forall|i: int|
                0 <= i < fs.len() implies fs[i].0 is SymbolId && writable(fs[i].1) by {
                if i > 0 {
                    assert(fs.drop_first()[i - 1] == fs[i]);
                }
            }
        }
    }
}

/// Appending one annotation extends the sequence by its encoding.
pub proof fn lemma_enc_anns_push(ts: Seq<SymbolTokenModel>, t: SymbolTokenModel)
    ensures
        enc_anns_seq(ts.push(t)) == enc_anns_seq(ts) + (match t {
            SymbolTokenModel::SymbolId(s) => var_uint(s as nat),
            SymbolTokenModel::Text(_) => Seq::empty(),
        }),
    decreases ts,
{
    if ts.len() == 0 {
        reveal_with_fuel(enc_anns_seq, 2);
        assert(ts.push(t).drop_first() =~= Seq::<SymbolTokenModel>::empty());
        assert(ts.push(t)[0] == t);
        assert(enc_anns_seq(ts.push(t)) =~= enc_anns_seq(ts) + (match t {
            SymbolTokenModel::SymbolId(s) => var_uint(s as nat),
            SymbolTokenModel::Text(_) => Seq::empty(),
        }));
    } else {
        assert(ts.push(t).drop_first() =~= ts.drop_first().push(t));
        lemma_enc_anns_push(ts.drop_first(), t);
        assert(enc_anns_seq(ts.push(t)) =~= enc_anns_seq(ts) + (match t {
            SymbolTokenModel::SymbolId(s) => var_uint(s as nat),
            SymbolTokenModel::Text(_) => Seq::empty(),
        }));
    }
}

/// Appending one sibling extends the encoded body by that sibling's encoding.
pub proof fn lemma_enc_seq_push(vs: Seq<ValueModel>, v: ValueModel)
    ensures
        enc_seq(vs.push(v)) == enc_seq(vs) + enc(v),
    decreases vs,
{
    if vs.len() == 0 {
        reveal_with_fuel(enc_seq, 2);
        assert(vs.push(v).drop_first() =~= Seq::<ValueModel>::empty());
        assert(vs.push(v)[0] == v);
        assert(enc_seq(vs.push(v)) =~= enc(v));
        assert(enc_seq(vs) + enc(v) =~= enc(v));
    } else {
        assert(vs.push(v).drop_first() =~= vs.drop_first().push(v));
        lemma_enc_seq_push(vs.drop_first(), v);
        assert(enc_seq(vs.push(v)) =~= enc_seq(vs) + enc(v));
    }
}

pub proof fn lemma_enc_fields_push(fs: Seq<(SymbolTokenModel, ValueModel)>, f: (SymbolTokenModel, ValueModel))
    ensures
        enc_fields(fs.push(f)) == enc_fields(fs) + (match f.0 {
            SymbolTokenModel::SymbolId(s) => var_uint(s as nat),
            SymbolTokenModel::Text(_) => Seq::empty(),
        }) + enc(f.1),
    decreases fs,
{
    if fs.len() == 0 {
        reveal_with_fuel(enc_fields, 2);
        assert(fs.push(f).drop_first() =~= Seq::<(SymbolTokenModel, ValueModel)>::empty());
        assert(fs.push(f)[0] == f);
        assert(enc_fields(fs.push(f)) =~= enc_fields(fs) + (match f.0 {
            SymbolTokenModel::SymbolId(s) => var_uint(s as nat),
            SymbolTokenModel::Text(_) => Seq::empty(),
        }) + enc(f.1));
    } else {
        assert(fs.push(f).drop_first() =~= fs.drop_first().push(f));
        lemma_enc_fields_push(fs.drop_first(), f);
        assert(enc_fields(fs.push(f)) =~= enc_fields(fs) + (match f.0 {
            SymbolTokenModel::SymbolId(s) => var_uint(s as nat),
            SymbolTokenModel::Text(_) => Seq::empty(),
        }) + enc(f.1));
    }
}

pub proof fn lemma_writable_seq_push(vs: Seq<ValueModel>, v: ValueModel)
    ensures
        writable_seq(vs.push(v)) == (writable_seq(vs) && writable(v)),
    decreases vs,
{
    if vs.len() == 0 {
        reveal_with_fuel(writable_seq, 2);
        assert(vs.push(v).drop_first() =~= Seq::<ValueModel>::empty());
        assert(vs.push(v)[0] == v);
    } else {
        assert(vs.push(v).drop_first() =~= vs.drop_first().push(v));
        lemma_writable_seq_push(vs.drop_first(), v);
    }
}

pub proof fn lemma_writable_fields_push(fs: Seq<(SymbolTokenModel, ValueModel)>, f: (SymbolTokenModel, ValueModel))
    ensures
        writable_fields(fs.push(f)) == (writable_fields(fs) && f.0 is SymbolId && writable(f.1)),
    decreases fs,
{
    if fs.len() == 0 {
        reveal_with_fuel(writable_fields, 2);
        assert(fs.push(f).drop_first() =~= Seq::<(SymbolTokenModel, ValueModel)>::empty());
        assert(fs.push(f)[0] == f);
    } else {
        assert(fs.push(f).drop_first() =~= fs.drop_first().push(f));
        lemma_writable_fields_push(fs.drop_first(), f);
    }
}

} // verus!
