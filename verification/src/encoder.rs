//! The executable binary writer, proved against the spec functions of
//! `encoding`. A writer owns the buffer of the one value (or sequence of
//! top-level values) being encoded; container and annotation encodings are
//! buffered in a fresh child writer and spliced into the parent only once
//! complete, so a parent never holds a partially written child.

use vstd::prelude::*;
use vstd::slice::slice_index_get;
use vstd::string::StringSliceAdditionalSpecFns;
use crate::encoding::{
    abs_int, all_sids, be_bytes, enc, enc_anns_seq, enc_f32, enc_f64, enc_fields, enc_i64,
    enc_int, enc_lob, enc_seq, enc_symbol_id, lemma_enc_anns_push, lemma_enc_fields_push,
    lemma_enc_seq_push, lemma_writable_fields_index, lemma_writable_fields_push,
    lemma_writable_seq_index, lemma_writable_seq_push, null_descriptor, td_bytes, var_uint,
    writable, writable_fields, writable_seq,
};
use crate::raw_reader::IonError;
use crate::types::{
    fields_model, lemma_fields_model, lemma_seq_model, seq_model, tokens_model, Int, IonType,
    SymbolToken, Value, ValueModel,
};

verus! {

/// Appends `value` as a variable-length unsigned integer.
pub fn write_var_uint(buffer: &mut Vec<u8>, value: u64)
    ensures
        final(buffer)@ == old(buffer)@ + var_uint(value as nat),
{
    let ghost n0: nat = value as nat;
    let mut n: u64 = value;
    while n >= 128
        invariant
            buffer@ + var_uint(n as nat) == old(buffer)@ + var_uint(n0),
        decreases n,
    {
        buffer.push((n % 128) as u8);
        n = n / 128;
    }
    buffer.push((n as u8) + 128);
    proof {
        assert(final(buffer)@ =~= old(buffer)@ + var_uint(n0));
    }
}

/// Appends the minimal big-endian bytes of `value`; nothing for zero.
pub fn u64_be_bytes(value: u64) -> (r: Vec<u8>)
    ensures
        r@ == be_bytes(value as nat),
{
    let mut r: Vec<u8> = Vec::new();
    let mut n: u64 = value;
    while n > 0
        invariant
            be_bytes(n as nat) + r@ == be_bytes(value as nat),
        decreases n,
    {
        let b: u8 = (n % 256) as u8;
        let ghost r_before = r@;
        r.insert(0, b);
        proof {
            assert(r@ =~= seq![b] + r_before);
            assert(be_bytes((n / 256) as nat) + r@ =~= be_bytes(n as nat) + r_before);
        }
        n = n / 256;
    }
    r
}

/// Appends the bytes of a slice.
pub fn push_slice(buffer: &mut Vec<u8>, bytes: &[u8])
    ensures
        final(buffer)@ == old(buffer)@ + bytes@,
{
    let mut i: usize = 0;
    while i < bytes.len()
        invariant
            i <= bytes@.len(),
            buffer@ == old(buffer)@ + bytes@.take(i as int),
        decreases bytes@.len() - i,
    {
        let b: u8 = *slice_index_get(bytes, i);
        buffer.push(b);
        proof {
            assert(bytes@.take(i as int + 1) =~= bytes@.take(i as int).push(bytes@[i as int]));
            assert(buffer@ =~= old(buffer)@ + bytes@.take(i as int + 1));
        }
        i = i + 1;
    }
    proof {
        assert(bytes@.take(bytes@.len() as int) =~= bytes@);
    }
}

/// Appends a type descriptor byte for `code` and a payload of `len` bytes,
/// followed by `len` as a variable-length integer when it cannot ride inline.
pub fn write_type_descriptor(buffer: &mut Vec<u8>, code: u8, len: usize)
    requires
        code % 16 == 0,
        code <= 0xE0,
    ensures
        final(buffer)@ == old(buffer)@ + td_bytes(code, len as nat),
{
    if len <= 13 {
        buffer.push(code + (len as u8));
        proof {
            assert(final(buffer)@ =~= old(buffer)@ + td_bytes(code, len as nat));
        }
    } else {
        buffer.push(code + 14);
        write_var_uint(buffer, len as u64);
        proof {
            assert(final(buffer)@ =~= old(buffer)@ + td_bytes(code, len as nat));
        }
    }
}

/// Encodes each annotation as a variable-length symbol ID, in order, with no
/// separators. Fails, appending nothing, if any annotation is textual.
pub fn encode_annotations_sequence(buffer: &mut Vec<u8>, annotations: &Vec<SymbolToken>) -> (r:
    Result<(), IonError>)
    ensures
        r is Ok <==> all_sids(tokens_model(annotations@)),
        r is Ok ==> final(buffer)@ == old(buffer)@ + enc_anns_seq(tokens_model(annotations@)),
        !(r is Ok) ==> final(buffer)@ == old(buffer)@ && r == Err::<(), IonError>(
            IonError::IllegalOperation,
        ),
{
    let ghost tm = tokens_model(annotations@);
    let mut i: usize = 0;
    while i < annotations.len()
        invariant
            i <= annotations@.len(),
            tm == tokens_model(annotations@),
            forall|j: int| 0 <= j < i ==> tm[j] is SymbolId,
            buffer@ == old(buffer)@,
        decreases annotations@.len() - i,
    {
        proof {
            assert(tm[i as int] == annotations@[i as int]@);
        }
        match &annotations[i] {
            SymbolToken::SymbolId(_) => {},
            SymbolToken::Text(_) => {
                return Err(IonError::IllegalOperation);
            },
        }
        i = i + 1;
    }
    let mut k: usize = 0;
    while k < annotations.len()
        invariant
            k <= annotations@.len(),
            tm == tokens_model(annotations@),
            all_sids(tm),
            buffer@ == old(buffer)@ + enc_anns_seq(tm.take(k as int)),
        decreases annotations@.len() - k,
    {
        match &annotations[k] {
            SymbolToken::SymbolId(s) => {
                write_var_uint(buffer, *s);
            },
            SymbolToken::Text(_) => {
                return Err(IonError::IllegalOperation);
            },
        }
        proof {
            assert(tm.take(k as int + 1) =~= tm.take(k as int).push(tm[k as int]));
            lemma_enc_anns_push(tm.take(k as int), tm[k as int]);
        }
        k = k + 1;
    }
    proof {
        assert(tm.take(annotations@.len() as int) =~= tm);
    }
    Ok(())
}

/// A single-use writer for one position in an encoded stream: it owns the
/// buffer it encodes into, and hands the bytes back once the value is
/// complete.
#[allow(non_camel_case_types)]
pub struct BinaryValueWriter_1_0 {
    encoding_buffer: Vec<u8>,
}

impl View for BinaryValueWriter_1_0 {
    type V = Seq<u8>;

    closed spec fn view(&self) -> Seq<u8> {
        self.encoding_buffer@
    }
}

impl BinaryValueWriter_1_0 {
    /// A writer over a fresh, empty buffer.
    pub fn new() -> (r: BinaryValueWriter_1_0)
        ensures
            r@ == Seq::<u8>::empty(),
    {
        BinaryValueWriter_1_0 { encoding_buffer: Vec::new() }
    }

    /// The bytes encoded so far.
    pub fn buffer(&self) -> (r: &[u8])
        ensures
            r@ == self@,
    {
        self.encoding_buffer.as_slice()
    }

    /// Consumes the writer, yielding its buffer.
    pub fn into_bytes(self) -> (r: Vec<u8>)
        ensures
            r@ == self@,
    {
        self.encoding_buffer
    }

    /// Writes a typed null: a descriptor with the null marker in its low
    /// nibble, no payload.
    pub fn write_null(&mut self, ion_type: IonType) -> (r: Result<(), IonError>)
        ensures
            r is Ok,
            final(self)@ == old(self)@ + seq![null_descriptor(ion_type)],
    {
        let byte: u8 = match ion_type {
            IonType::Null => 0x0F,
            IonType::Bool => 0x1F,
            IonType::Int => 0x2F,
            IonType::Float => 0x4F,
            IonType::Decimal => 0x5F,
            IonType::Timestamp => 0x6F,
            IonType::Symbol => 0x7F,
            IonType::String => 0x8F,
            IonType::Clob => 0x9F,
            IonType::Blob => 0xAF,
            IonType::List => 0xBF,
            IonType::SExp => 0xCF,
            IonType::Struct => 0xDF,
        };
        self.encoding_buffer.push(byte);
        Ok(())
    }

    /// Writes a boolean in the descriptor's low nibble; no payload.
    pub fn write_bool(&mut self, value: bool) -> (r: Result<(), IonError>)
        ensures
            r is Ok,
            final(self)@ == old(self)@ + seq![if value { 0x11u8 } else { 0x10u8 }],
    {
        let byte: u8 = if value {
            0x11
        } else {
            0x10
        };
        self.encoding_buffer.push(byte);
        Ok(())
    }

    /// Writes a machine integer: the sign picks the type code, the magnitude
    /// is the minimal big-endian payload, and zero is descriptor-only.
    pub fn write_i64(&mut self, value: i64) -> (r: Result<(), IonError>)
        ensures
            r is Ok,
            final(self)@ == old(self)@ + enc_i64(value as int),
    {
        let magnitude = Int::from_i64(value);
        self.write_int(&magnitude)
    }

    /// Writes a sign/magnitude integer as `write_i64` does, without a size
    /// limit on the magnitude.
    pub fn write_int(&mut self, value: &Int) -> (r: Result<(), IonError>)
        ensures
            r is Ok,
            final(self)@ == old(self)@ + enc_int((*value)@),
    {
        let code: u8 = if value.negative {
            0x30
        } else {
            0x20
        };
        write_type_descriptor(&mut self.encoding_buffer, code, value.magnitude.len());
        push_slice(&mut self.encoding_buffer, value.magnitude.as_slice());
        proof {
            assert(final(self)@ =~= old(self)@ + enc_int((*value)@));
        }
        Ok(())
    }

    /// Writes a 32-bit float from its IEEE-754 bit pattern: the all-zero
    /// pattern (positive zero) is descriptor-only, every other pattern is a
    /// four-byte big-endian payload.
    pub fn write_f32(&mut self, bits: u32) -> (r: Result<(), IonError>)
        ensures
            r is Ok,
            final(self)@ == old(self)@ + enc_f32(bits),
    {
        if bits == 0 {
            self.encoding_buffer.push(0x40);
            return Ok(());
        }
        self.encoding_buffer.push(0x44);
        self.encoding_buffer.push((bits >> 24) as u8);
        self.encoding_buffer.push((bits >> 16) as u8);
        self.encoding_buffer.push((bits >> 8) as u8);
        self.encoding_buffer.push(bits as u8);
        proof {
            assert(final(self)@ =~= old(self)@ + enc_f32(bits));
        }
        Ok(())
    }

    /// Writes a 64-bit float from its IEEE-754 bit pattern, as `write_f32`
    /// with an eight-byte payload.
    pub fn write_f64(&mut self, bits: u64) -> (r: Result<(), IonError>)
        ensures
            r is Ok,
            final(self)@ == old(self)@ + enc_f64(bits),
    {
        if bits == 0 {
            self.encoding_buffer.push(0x40);
            return Ok(());
        }
        self.encoding_buffer.push(0x48);
        self.encoding_buffer.push((bits >> 56) as u8);
        self.encoding_buffer.push((bits >> 48) as u8);
        self.encoding_buffer.push((bits >> 40) as u8);
        self.encoding_buffer.push((bits >> 32) as u8);
        self.encoding_buffer.push((bits >> 24) as u8);
        self.encoding_buffer.push((bits >> 16) as u8);
        self.encoding_buffer.push((bits >> 8) as u8);
        self.encoding_buffer.push(bits as u8);
        proof {
            assert(final(self)@ =~= old(self)@ + enc_f64(bits));
        }
        Ok(())
    }

    /// Writes a string or lob payload under the given type code (high nibble,
    /// low nibble zero): descriptor, length, raw bytes.
    pub fn write_lob(&mut self, value: &[u8], type_code: u8) -> (r: Result<(), IonError>)
        requires
            type_code % 16 == 0,
            type_code <= 0xE0,
        ensures
            r is Ok,
            final(self)@ == old(self)@ + enc_lob(type_code, value@),
    {
        write_type_descriptor(&mut self.encoding_buffer, type_code, value.len());
        push_slice(&mut self.encoding_buffer, value);
        proof {
            assert(final(self)@ =~= old(self)@ + enc_lob(type_code, value@));
        }
        Ok(())
    }

    /// Writes a string: its UTF-8 bytes as the payload, with no further
    /// validation.
    pub fn write_string(&mut self, value: &str) -> (r: Result<(), IonError>)
        ensures
            r is Ok,
            final(self)@ == old(self)@ + enc_lob(0x80u8, value.spec_bytes()),
    {
        let bytes = value.as_bytes();
        self.write_lob(bytes, 0x80)
    }

    /// Writes a symbol value: the ID's minimal big-endian magnitude under the
    /// symbol type code.
    pub fn write_symbol_id(&mut self, symbol_id: u64) -> (r: Result<(), IonError>)
        ensures
            r is Ok,
            final(self)@ == old(self)@ + enc_symbol_id(symbol_id),
    {
        let bytes = u64_be_bytes(symbol_id);
        write_type_descriptor(&mut self.encoding_buffer, 0x70, bytes.len());
        push_slice(&mut self.encoding_buffer, bytes.as_slice());
        proof {
            assert(final(self)@ =~= old(self)@ + enc_symbol_id(symbol_id));
        }
        Ok(())
    }

    /// Writes a symbol reference. Only resolved IDs can be represented; a
    /// token that still carries text is an illegal operation for this binary
    /// form.
    pub fn write_symbol(&mut self, value: &SymbolToken) -> (r: Result<(), IonError>)
        ensures
            r is Ok <==> (*value)@ is SymbolId,
            r is Ok ==> final(self)@ == old(self)@ + enc(ValueModel::Symbol((*value)@)),
            !(r is Ok) ==> final(self)@ == old(self)@ && r == Err::<(), IonError>(
                IonError::IllegalOperation,
            ),
    {
        match value {
            SymbolToken::SymbolId(sid) => self.write_symbol_id(*sid),
            SymbolToken::Text(_) => Err(IonError::IllegalOperation),
        }
    }

    /// Writes a clob: an opaque byte payload under the clob type code.
    pub fn write_clob(&mut self, value: &[u8]) -> (r: Result<(), IonError>)
        ensures
            r is Ok,
            final(self)@ == old(self)@ + enc_lob(0x90u8, value@),
    {
        self.write_lob(value, 0x90)
    }

    /// Writes a blob: an opaque byte payload under the blob type code.
    pub fn write_blob(&mut self, value: &[u8]) -> (r: Result<(), IonError>)
        ensures
            r is Ok,
            final(self)@ == old(self)@ + enc_lob(0xA0u8, value@),
    {
        self.write_lob(value, 0xA0)
    }

    /// Writes a list: the children are encoded into a fresh buffer, and only
    /// the sealed result is spliced after a descriptor carrying its length.
    /// An unwritable child leaves this writer untouched.
    pub fn write_list(&mut self, values: &Vec<Value>) -> (r: Result<(), IonError>)
        ensures
            r is Ok <==> writable_seq(seq_model(values@)),
            r is Ok ==> final(self)@ == old(self)@ + enc(ValueModel::List(seq_model(values@))),
            !(r is Ok) ==> final(self)@ == old(self)@ && r == Err::<(), IonError>(
                IonError::IllegalOperation,
            ),
        decreases *values, 1nat,
    {
        let body = self.encode_sequence(values)?;
        write_type_descriptor(&mut self.encoding_buffer, 0xB0, body.len());
        push_slice(&mut self.encoding_buffer, body.as_slice());
        proof {
            assert(final(self)@ =~= old(self)@ + enc(ValueModel::List(seq_model(values@))));
        }
        Ok(())
    }

    /// Writes an s-expression exactly as `write_list`, under its own code.
    pub fn write_sexp(&mut self, values: &Vec<Value>) -> (r: Result<(), IonError>)
        ensures
            r is Ok <==> writable_seq(seq_model(values@)),
            r is Ok ==> final(self)@ == old(self)@ + enc(ValueModel::SExp(seq_model(values@))),
            !(r is Ok) ==> final(self)@ == old(self)@ && r == Err::<(), IonError>(
                IonError::IllegalOperation,
            ),
        decreases *values, 1nat,
    {
        let body = self.encode_sequence(values)?;
        write_type_descriptor(&mut self.encoding_buffer, 0xC0, body.len());
        push_slice(&mut self.encoding_buffer, body.as_slice());
        proof {
            assert(final(self)@ =~= old(self)@ + enc(ValueModel::SExp(seq_model(values@))));
        }
        Ok(())
    }

    /// Encodes a sequence of sibling values into a fresh buffer; the caller's
    /// buffer is untouched either way.
    fn encode_sequence(&mut self, values: &Vec<Value>) -> (r: Result<Vec<u8>, IonError>)
        ensures
            r is Ok <==> writable_seq(seq_model(values@)),
            r matches Ok(body) ==> body@ == enc_seq(seq_model(values@)),
            final(self)@ == old(self)@,
            !(r is Ok) ==> r == Err::<Vec<u8>, IonError>(IonError::IllegalOperation),
        decreases *values, 0nat,
    {
        let mut child = BinaryValueWriter_1_0::new();
        let ghost ms = seq_model(values@);
        proof {
            lemma_seq_model(values@);
        }
        let mut i: usize = 0;
        while i < values.len()
            invariant
                i <= values@.len(),
                ms == seq_model(values@),
                ms.len() == values@.len(),
                forall|j: int| 0 <= j < values@.len() ==> ms[j] == crate::types::value_model(
                    values@[j],
                ),
                child@ == enc_seq(ms.take(i as int)),
                writable_seq(ms.take(i as int)),
                self.encoding_buffer@ == old(self).encoding_buffer@,
            decreases values@.len() - i,
        {
            proof {
                assert(decreases_to!(*values => values@[i as int]));
            }
            match child.write_value(&values[i]) {
                Ok(()) => {},
                Err(e) => {
                    proof {
                        lemma_writable_seq_index(ms);
                    }
                    return Err(e);
                },
            }
            proof {
                assert(ms.take(i as int + 1) =~= ms.take(i as int).push(ms[i as int]));
                lemma_enc_seq_push(ms.take(i as int), ms[i as int]);
                lemma_writable_seq_push(ms.take(i as int), ms[i as int]);
            }
            i = i + 1;
        }
        proof {
            assert(ms.take(values@.len() as int) =~= ms);
        }
        Ok(child.into_bytes())
    }

    /// Writes a struct: within the sealed body, each field is its name's
    /// symbol ID as a variable-length integer followed by the field's value.
    /// A text field name is an illegal operation at this layer.
    pub fn write_struct(&mut self, fields: &Vec<(SymbolToken, Value)>) -> (r: Result<
        (),
        IonError,
    >)
        ensures
            r is Ok <==> writable_fields(fields_model(fields@)),
            r is Ok ==> final(self)@ == old(self)@ + enc(
                ValueModel::Struct(fields_model(fields@)),
            ),
            !(r is Ok) ==> final(self)@ == old(self)@ && r == Err::<(), IonError>(
                IonError::IllegalOperation,
            ),
        decreases *fields, 0nat,
    {
        let mut child = BinaryValueWriter_1_0::new();
        let ghost fm = fields_model(fields@);
        proof {
            lemma_fields_model(fields@);
        }
        let mut i: usize = 0;
        while i < fields.len()
            invariant
                i <= fields@.len(),
                fm == fields_model(fields@),
                fm.len() == fields@.len(),
                forall|j: int| 0 <= j < fields@.len() ==> fm[j] == (
                    fields@[j].0@,
                    crate::types::value_model(fields@[j].1),
                ),
                child@ == enc_fields(fm.take(i as int)),
                writable_fields(fm.take(i as int)),
                self.encoding_buffer@ == old(self).encoding_buffer@,
            decreases fields@.len() - i,
        {
            let ghost before_name = child@;
            match &fields[i].0 {
                SymbolToken::SymbolId(s) => {
                    write_var_uint(&mut child.encoding_buffer, *s);
                },
                SymbolToken::Text(_) => {
                    proof {
                        assert(fields@[i as int].0@ is Text);
                        assert(fm[i as int].0 is Text);
                        lemma_writable_fields_index(fm);
                        assert(!writable_fields(fm));
                    }
                    return Err(IonError::IllegalOperation);
                },
            }
            proof {
                assert(decreases_to!(*fields => fields@[i as int].1));
            }
            match child.write_value(&fields[i].1) {
                Ok(()) => {},
                Err(e) => {
                    proof {
                        assert(!writable(fm[i as int].1));
                        lemma_writable_fields_index(fm);
                        assert(!writable_fields(fm));
                    }
                    return Err(e);
                },
            }
            proof {
                assert(fm.take(i as int + 1) =~= fm.take(i as int).push(fm[i as int]));
                lemma_enc_fields_push(fm.take(i as int), fm[i as int]);
                lemma_writable_fields_push(fm.take(i as int), fm[i as int]);
                assert(child@ =~= enc_fields(fm.take(i as int + 1)));
            }
            i = i + 1;
        }
        proof {
            assert(fm.take(fields@.len() as int) =~= fm);
        }
        write_type_descriptor(&mut self.encoding_buffer, 0xD0, child.encoding_buffer.len());
        self.encoding_buffer.append(&mut child.encoding_buffer);
        proof {
            assert(final(self)@ =~= old(self)@ + enc(ValueModel::Struct(fm)));
        }
        Ok(())
    }

    /// Wraps a value in an annotation sequence: the value is fully encoded in
    /// a fresh buffer first, the annotation IDs and their byte length are
    /// encoded separately, and descriptor, annotation-length, annotations and
    /// value are emitted in that exact order. The sequence must be non-empty
    /// and carry only resolved IDs.
    pub fn write_annotated(&mut self, annotations: &Vec<SymbolToken>, value: &Value) -> (r: Result<
        (),
        IonError,
    >)
        ensures
            r is Ok <==> (annotations@.len() > 0 && all_sids(tokens_model(annotations@))
                && writable((*value)@)),
            r is Ok ==> final(self)@ == old(self)@ + enc(
                ValueModel::Annotated(tokens_model(annotations@), Box::new((*value)@)),
            ),
            !(r is Ok) ==> final(self)@ == old(self)@ && r == Err::<(), IonError>(
                IonError::IllegalOperation,
            ),
        decreases *value, 1nat,
    {
        if annotations.len() == 0 {
            return Err(IonError::IllegalOperation);
        }
        let mut vbuf = BinaryValueWriter_1_0::new();
        match vbuf.write_value(value) {
            Ok(()) => {},
            Err(e) => {
                return Err(e);
            },
        }
        let mut aseq: Vec<u8> = Vec::new();
        match encode_annotations_sequence(&mut aseq, annotations) {
            Ok(()) => {},
            Err(e) => {
                return Err(e);
            },
        }
        let mut body: Vec<u8> = Vec::new();
        write_var_uint(&mut body, aseq.len() as u64);
        body.append(&mut aseq);
        let mut vbytes = vbuf.into_bytes();
        body.append(&mut vbytes);
        write_type_descriptor(&mut self.encoding_buffer, 0xE0, body.len());
        self.encoding_buffer.append(&mut body);
        proof {
            assert(final(self)@ =~= old(self)@ + enc(
                ValueModel::Annotated(tokens_model(annotations@), Box::new((*value)@)),
            ));
        }
        Ok(())
    }

    /// Writes one value of any kind, dispatching to the operation for its
    /// kind. Exactly the writable values succeed; on failure this writer is
    /// left untouched.
    pub fn write_value(&mut self, value: &Value) -> (r: Result<(), IonError>)
        ensures
            r is Ok <==> writable((*value)@),
            r is Ok ==> final(self)@ == old(self)@ + enc((*value)@),
            !(r is Ok) ==> final(self)@ == old(self)@ && r == Err::<(), IonError>(
                IonError::IllegalOperation,
            ),
        decreases *value, 0nat,
    {
        match value {
            Value::Null(t) => self.write_null(*t),
            Value::Bool(b) => self.write_bool(*b),
            Value::Int(i) => self.write_int(i),
            Value::Float32(bits) => self.write_f32(*bits),
            Value::Float64(bits) => self.write_f64(*bits),
            Value::Str(b) => self.write_lob(b.as_slice(), 0x80),
            Value::Symbol(t) => self.write_symbol(t),
            Value::Clob(b) => self.write_clob(b.as_slice()),
            Value::Blob(b) => self.write_blob(b.as_slice()),
            Value::List(vs) => self.write_list(vs),
            Value::SExp(vs) => self.write_sexp(vs),
            Value::Struct(fs) => self.write_struct(fs),
            Value::Annotated(anns, inner) => self.write_annotated(anns, &**inner),
        }
    }
}

} // verus!
