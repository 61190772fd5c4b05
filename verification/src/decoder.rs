//! The executable reader, proved to return exactly what the decoding spec
//! functions describe: `Ok` with the decoded value and the position just past
//! it where the spec reads a value, and a decoding error where it does not.

use vstd::prelude::*;
use crate::decoding::{
    be_value, dec_annotated_body, dec_fields, dec_len, dec_one, dec_seq, dec_sids, dec_var_uint,
    lemma_dec_one_advances, lemma_dec_var_uint_advances, lemma_pow256_monotone, lemma_pow256_u64,
    pow256,
};
use crate::raw_reader::IonError;
use crate::types::{
    fields_model, lemma_fields_model, lemma_seq_model, seq_model, tokens_model, Int, IonType,
    SymbolToken, SymbolTokenModel, Value, ValueModel,
};

verus! {

/// Reads a variable-length unsigned integer; fails on truncated input or a
/// value beyond the 64-bit range this reader supports.
pub fn read_var_uint(data: &Vec<u8>, pos: usize) -> (r: Result<(u64, usize), IonError>)
    ensures
        ({
            let d = dec_var_uint(data@, pos as int);
            match d {
                Some((v, q)) => if v <= u64::MAX {
                    r == Ok::<(u64, usize), IonError>((v as u64, q as usize))
                } else {
                    r == Err::<(u64, usize), IonError>(IonError::DecodingError)
                },
                None => r == Err::<(u64, usize), IonError>(IonError::DecodingError),
            }
        }),
    decreases data@.len() - pos,
{
    proof {
        vstd::std_specs::vec::axiom_spec_len(data);
        lemma_dec_var_uint_advances(data@, pos as int);
    }
    if pos >= data.len() {
        return Err(IonError::DecodingError);
    }
    let b: u8 = data[pos];
    if b >= 128 {
        return Ok(((b - 128) as u64, pos + 1));
    }
    match read_var_uint(data, pos + 1) {
        Ok((hi, q)) => {
            if hi <= (u64::MAX - (b as u64)) / 128 {
                Ok(((b as u64) + 128 * hi, q))
            } else {
                Err(IonError::DecodingError)
            }
        },
        Err(e) => Err(e),
    }
}

/// Resolves a descriptor's low nibble (0 through 14) into a payload length.
fn read_len(data: &Vec<u8>, pos: usize, low: u8) -> (r: Result<(u64, usize), IonError>)
    requires
        low <= 14,
    ensures
        ({
            let d = dec_len(data@, pos as int, low as int);
            match d {
                Some((len, q)) => if len <= u64::MAX {
                    r == Ok::<(u64, usize), IonError>((len as u64, q as usize))
                } else {
                    r == Err::<(u64, usize), IonError>(IonError::DecodingError)
                },
                None => r == Err::<(u64, usize), IonError>(IonError::DecodingError),
            }
        }),
{
    if low <= 13 {
        Ok((low as u64, pos))
    } else {
        read_var_uint(data, pos)
    }
}

/// Copies `data[from..to]` into a fresh buffer.
fn copy_range(data: &Vec<u8>, from: usize, to: usize) -> (r: Vec<u8>)
    requires
        from <= to <= data@.len(),
    ensures
        r@ == data@.subrange(from as int, to as int),
{
    let mut r: Vec<u8> = Vec::new();
    let mut i: usize = from;
    while i < to
        invariant
            from <= i <= to <= data@.len(),
            r@ == data@.subrange(from as int, i as int),
        decreases to - i,
    {
        r.push(data[i]);
        proof {
            vstd::std_specs::vec::axiom_spec_len(data);
            assert(data@.subrange(from as int, i as int + 1) =~= data@.subrange(
                from as int,
                i as int,
            ).push(data@[i as int]));
        }
        i = i + 1;
    }
    r
}

/// Reads `len` big-endian bytes as an unsigned 64-bit value.
fn read_uint_be(data: &Vec<u8>, from: usize, len: usize) -> (r: u64)
    requires
        from + len <= data@.len(),
        len <= 8,
    ensures
        r as nat == be_value(data@.subrange(from as int, from as int + len as int)),
{
    proof {
        vstd::std_specs::vec::axiom_spec_len(data);
        lemma_pow256_u64();
    }
    let mut acc: u64 = 0;
    let mut i: usize = 0;
    while i < len
        invariant
            i <= len,
            from + len <= data@.len(),
            len <= 8,
            acc as nat == be_value(data@.subrange(from as int, from as int + i as int)),
            (acc as nat) < pow256(i as nat),
            pow256(8) == 0x10000000000000000,
        decreases len - i,
    {
        proof {
            vstd::std_specs::vec::axiom_spec_len(data);
            let sub = data@.subrange(from as int, from as int + i as int);
            let sub1 = data@.subrange(from as int, from as int + i as int + 1);
            assert(sub1.drop_last() =~= sub);
            assert(sub1.last() == data@[from as int + i as int]);
            assert(pow256(i as nat + 1) == 256 * pow256(i as nat));
            lemma_pow256_monotone(i as nat + 1, 8);
            assert(acc as nat * 256 + 255 < pow256(i as nat + 1));
        }
        acc = acc * 256 + (data[from + i] as u64);
        i = i + 1;
    }
    acc
}

/// Reads the annotation symbol IDs that fill `data[pos..end]` exactly.
fn read_sids(data: &Vec<u8>, pos: usize, end: usize) -> (r: Result<Vec<SymbolToken>, IonError>)
    requires
        pos <= end <= data@.len(),
    ensures
        ({
            let d = dec_sids(data@, pos as int, end as int);
            match d {
                Some(sids) => r matches Ok(v) && tokens_model(v@) == sids,
                None => r == Err::<Vec<SymbolToken>, IonError>(IonError::DecodingError),
            }
        }),
{
    let mut out: Vec<SymbolToken> = Vec::new();
    let mut cur: usize = pos;
    while cur < end
        invariant
            pos <= cur <= end <= data@.len(),
            ({
                let full = dec_sids(data@, pos as int, end as int);
                match dec_sids(data@, cur as int, end as int) {
                    Some(rest) => full == Some(tokens_model(out@) + rest),
                    None => full == None::<Seq<SymbolTokenModel>>,
                }
            }),
        decreases end - cur,
    {
        proof {
            vstd::std_specs::vec::axiom_spec_len(data);
            lemma_dec_var_uint_advances(data@, cur as int);
        }
        let ghost out_before = out@;
        match read_var_uint(data, cur) {
            Ok((v, q)) => {
                if q > end {
                    return Err(IonError::DecodingError);
                }
                out.push(SymbolToken::SymbolId(v));
                proof {
                    assert(out@ =~= out_before.push(SymbolToken::SymbolId(v)));
                    assert(tokens_model(out@) =~= tokens_model(out_before).push(
                        SymbolTokenModel::SymbolId(v),
                    ));
                    match dec_sids(data@, q as int, end as int) {
                        Some(rest2) => {
                            assert(dec_sids(data@, cur as int, end as int) == Some(
                                seq![SymbolTokenModel::SymbolId(v)] + rest2,
                            ));
                            assert(tokens_model(out_before).push(SymbolTokenModel::SymbolId(v))
                                + rest2 =~= tokens_model(out_before) + (seq![
                                SymbolTokenModel::SymbolId(v),
                            ] + rest2));
                        },
                        None => {
                            assert(dec_sids(data@, cur as int, end as int)
                                == None::<Seq<SymbolTokenModel>>);
                        },
                    }
                }
                cur = q;
            },
            Err(e) => {
                return Err(e);
            },
        }
    }
    proof {
        assert(tokens_model(out@) + Seq::<SymbolTokenModel>::empty() =~= tokens_model(out@));
    }
    Ok(out)
}

/// Reads the sibling values that fill `data[pos..end]` exactly.
fn read_sequence_values(data: &Vec<u8>, pos: usize, end: usize) -> (r: Result<Vec<Value>, IonError>)
    requires
        pos <= end <= data@.len(),
    ensures
        ({
            let d = dec_seq(data@, pos as int, end as int);
            match d {
                Some(ms) => r matches Ok(v) && seq_model(v@) == ms,
                None => r == Err::<Vec<Value>, IonError>(IonError::DecodingError),
            }
        }),
    decreases end - pos, 1nat,
{
    let mut values: Vec<Value> = Vec::new();
    let mut cur: usize = pos;
    while cur < end
        invariant
            pos <= cur <= end <= data@.len(),
            ({
                let full = dec_seq(data@, pos as int, end as int);
                match dec_seq(data@, cur as int, end as int) {
                    Some(rest) => full == Some(seq_model(values@) + rest),
                    None => full == None::<Seq<ValueModel>>,
                }
            }),
        decreases end - cur,
    {
        proof {
            vstd::std_specs::vec::axiom_spec_len(data);
            lemma_dec_one_advances(data@, cur as int, end as int);
        }
        let ghost values_before = values@;
        match read_value(data, cur, end) {
            Ok((v, q)) => {
                let ghost vm = v@;
                values.push(v);
                proof {
                    lemma_seq_model(values_before);
                    lemma_seq_model(values@);
                    assert(seq_model(values@) =~= seq_model(values_before).push(vm));
                    match dec_seq(data@, q as int, end as int) {
                        Some(rest2) => {
                            assert(dec_seq(data@, cur as int, end as int) == Some(
                                seq![vm] + rest2,
                            ));
                            assert(seq_model(values_before).push(vm) + rest2 =~= seq_model(
                                values_before,
                            ) + (seq![vm] + rest2));
                        },
                        None => {
                            assert(dec_seq(data@, cur as int, end as int)
                                == None::<Seq<ValueModel>>);
                        },
                    }
                }
                cur = q;
            },
            Err(e) => {
                return Err(e);
            },
        }
    }
    proof {
        assert(seq_model(values@) + Seq::<ValueModel>::empty() =~= seq_model(values@));
    }
    Ok(values)
}

/// Reads the struct fields that fill `data[pos..end]` exactly.
fn read_struct_fields(data: &Vec<u8>, pos: usize, end: usize) -> (r: Result<
    Vec<(SymbolToken, Value)>,
    IonError,
>)
    requires
        pos <= end <= data@.len(),
    ensures
        ({
            let d = dec_fields(data@, pos as int, end as int);
            match d {
                Some(ms) => r matches Ok(v) && fields_model(v@) == ms,
                None => r == Err::<Vec<(SymbolToken, Value)>, IonError>(IonError::DecodingError),
            }
        }),
    decreases end - pos, 1nat,
{
    let mut fields: Vec<(SymbolToken, Value)> = Vec::new();
    let mut cur: usize = pos;
    while cur < end
        invariant
            pos <= cur <= end <= data@.len(),
            ({
                let full = dec_fields(data@, pos as int, end as int);
                match dec_fields(data@, cur as int, end as int) {
                    Some(rest) => full == Some(fields_model(fields@) + rest),
                    None => full == None::<Seq<(SymbolTokenModel, ValueModel)>>,
                }
            }),
        decreases end - cur,
    {
        proof {
            vstd::std_specs::vec::axiom_spec_len(data);
            lemma_dec_var_uint_advances(data@, cur as int);
        }
        let (sid, pn) = match read_var_uint(data, cur) {
            Ok(sp) => sp,
            Err(e) => {
                return Err(e);
            },
        };
        if pn >= end {
            return Err(IonError::DecodingError);
        }
        proof {
            lemma_dec_one_advances(data@, pn as int, end as int);
        }
        let ghost fields_before = fields@;
        match read_value(data, pn, end) {
            Ok((v, q)) => {
                let ghost vm = v@;
                fields.push((SymbolToken::SymbolId(sid), v));
                proof {
                    lemma_fields_model(fields_before);
                    lemma_fields_model(fields@);
                    assert(fields_model(fields@) =~= fields_model(fields_before).push(
                        (SymbolTokenModel::SymbolId(sid), vm),
                    ));
                    match dec_fields(data@, q as int, end as int) {
                        Some(rest2) => {
                            assert(dec_fields(data@, cur as int, end as int) == Some(
                                seq![(SymbolTokenModel::SymbolId(sid), vm)] + rest2,
                            ));
                            assert(fields_model(fields_before).push(
                                (SymbolTokenModel::SymbolId(sid), vm),
                            ) + rest2 =~= fields_model(fields_before) + (seq![
                                (SymbolTokenModel::SymbolId(sid), vm),
                            ] + rest2));
                        },
                        None => {
                            assert(dec_fields(data@, cur as int, end as int)
                                == None::<Seq<(SymbolTokenModel, ValueModel)>>);
                        },
                    }
                }
                cur = q;
            },
            Err(e) => {
                return Err(e);
            },
        }
    }
    proof {
        assert(fields_model(fields@) + Seq::<(SymbolTokenModel, ValueModel)>::empty()
            =~= fields_model(fields@));
    }
    Ok(fields)
}

/// Reads an annotation wrapper's body from `data[pos..end]`.
fn read_annotated(data: &Vec<u8>, pos: usize, end: usize) -> (r: Result<Value, IonError>)
    requires
        end <= data@.len(),
    ensures
        ({
            let d = dec_annotated_body(data@, pos as int, end as int);
            match d {
                Some(m) => r matches Ok(v) && v@ == m,
                None => r == Err::<Value, IonError>(IonError::DecodingError),
            }
        }),
    decreases end - pos, 1nat,
{
    if !(pos < end) {
        return Err(IonError::DecodingError);
    }
    proof {
        vstd::std_specs::vec::axiom_spec_len(data);
        lemma_dec_var_uint_advances(data@, pos as int);
    }
    let (alen, p3) = match read_var_uint(data, pos) {
        Ok(x) => x,
        Err(e) => {
            return Err(e);
        },
    };
    if p3 > end || alen > (end - p3) as u64 {
        return Err(IonError::DecodingError);
    }
    let p4: usize = p3 + (alen as usize);
    let sids = match read_sids(data, p3, p4) {
        Ok(x) => x,
        Err(e) => {
            return Err(e);
        },
    };
    if sids.len() == 0 {
        return Err(IonError::DecodingError);
    }
    match read_value(data, p4, end) {
        Ok((inner, q)) => {
            if q != end {
                return Err(IonError::DecodingError);
            }
            Ok(Value::Annotated(sids, Box::new(inner)))
        },
        Err(e) => Err(e),
    }
}

/// Reads one value from `data[pos..end]`. The result's position is just past
/// the value; the bytes read are exactly those the decoding spec reads.
#[verifier::rlimit(100)]
#[verifier::spinoff_prover]
pub fn read_value(data: &Vec<u8>, pos: usize, end: usize) -> (r: Result<(Value, usize), IonError>)
    ensures
        ({
            let d = dec_one(data@, pos as int, end as int);
            match d {
                Some((m, q)) => r matches Ok(p) && p.0@ == m && p.1 == q,
                None => r == Err::<(Value, usize), IonError>(IonError::DecodingError),
            }
        }),
    decreases end - pos, 0nat,
{
    if !(pos < end && end <= data.len()) {
        return Err(IonError::DecodingError);
    }
    let b: u8 = data[pos];
    let code: u8 = b / 16;
    let low: u8 = b % 16;
    let p1: usize = pos + 1;
    if code == 0 {
        if low == 15 {
            Ok((Value::Null(IonType::Null), p1))
        } else {
            Err(IonError::DecodingError)
        }
    } else if code == 1 {
        if low == 0 {
            Ok((Value::Bool(false), p1))
        } else if low == 1 {
            Ok((Value::Bool(true), p1))
        } else if low == 15 {
            Ok((Value::Null(IonType::Bool), p1))
        } else {
            Err(IonError::DecodingError)
        }
    } else if code == 2 || code == 3 {
        if low == 15 {
            return Ok((Value::Null(IonType::Int), p1));
        }
        let (len, p2) = match read_len(data, p1, low) {
            Ok(lp) => lp,
            Err(e) => {
                return Err(e);
            },
        };
        proof {
            vstd::std_specs::vec::axiom_spec_len(data);
            lemma_dec_var_uint_advances(data@, p1 as int);
        }
        if p2 > end || len > (end - p2) as u64 {
            return Err(IonError::DecodingError);
        }
        let len_usize: usize = len as usize;
        let magnitude = copy_range(data, p2, p2 + len_usize);
        Ok((Value::Int(Int { negative: code == 3, magnitude }), p2 + len_usize))
    } else if code == 4 {
        if low == 15 {
            Ok((Value::Null(IonType::Float), p1))
        } else if low == 0 {
            Ok((Value::Float64(0), p1))
        } else if low == 4 {
            if end - p1 < 4 {
                return Err(IonError::DecodingError);
            }
            let bits: u32 = ((data[p1] as u32) << 24) | ((data[p1 + 1] as u32) << 16) | ((data[p1
                + 2] as u32) << 8) | (data[p1 + 3] as u32);
            proof {
                let sub = data@.subrange(p1 as int, p1 as int + 4);
                assert(sub[0] == data@[p1 as int]);
                assert(sub[1] == data@[p1 as int + 1]);
                assert(sub[2] == data@[p1 as int + 2]);
                assert(sub[3] == data@[p1 as int + 3]);
            }
            Ok((Value::Float32(bits), p1 + 4))
        } else if low == 8 {
            if end - p1 < 8 {
                return Err(IonError::DecodingError);
            }
            let bits: u64 = ((data[p1] as u64) << 56) | ((data[p1 + 1] as u64) << 48) | ((data[p1
                + 2] as u64) << 40) | ((data[p1 + 3] as u64) << 32) | ((data[p1 + 4] as u64) << 24)
                | ((data[p1 + 5] as u64) << 16) | ((data[p1 + 6] as u64) << 8) | (data[p1
                + 7] as u64);
            proof {
                let sub = data@.subrange(p1 as int, p1 as int + 8);
                assert(sub[0] == data@[p1 as int]);
                assert(sub[1] == data@[p1 as int + 1]);
                assert(sub[2] == data@[p1 as int + 2]);
                assert(sub[3] == data@[p1 as int + 3]);
                assert(sub[4] == data@[p1 as int + 4]);
                assert(sub[5] == data@[p1 as int + 5]);
                assert(sub[6] == data@[p1 as int + 6]);
                assert(sub[7] == data@[p1 as int + 7]);
            }
            Ok((Value::Float64(bits), p1 + 8))
        } else {
            Err(IonError::DecodingError)
        }
    } else if code == 5 {
        if low == 15 {
            Ok((Value::Null(IonType::Decimal), p1))
        } else {
            Err(IonError::DecodingError)
        }
    } else if code == 6 {
        if low == 15 {
            Ok((Value::Null(IonType::Timestamp), p1))
        } else {
            Err(IonError::DecodingError)
        }
    } else if code == 7 {
        if low == 15 {
            return Ok((Value::Null(IonType::Symbol), p1));
        }
        let (len, p2) = match read_len(data, p1, low) {
            Ok(lp) => lp,
            Err(e) => {
                return Err(e);
            },
        };
        proof {
            vstd::std_specs::vec::axiom_spec_len(data);
            lemma_dec_var_uint_advances(data@, p1 as int);
        }
        if p2 > end || len > (end - p2) as u64 || len > 8 {
            return Err(IonError::DecodingError);
        }
        let len_usize: usize = len as usize;
        let sid: u64 = read_uint_be(data, p2, len_usize);
        Ok((Value::Symbol(SymbolToken::SymbolId(sid)), p2 + len_usize))
    } else if code == 8 || code == 9 || code == 10 {
        if low == 15 {
            let t = if code == 8 {
                IonType::String
            } else if code == 9 {
                IonType::Clob
            } else {
                IonType::Blob
            };
            return Ok((Value::Null(t), p1));
        }
        let (len, p2) = match read_len(data, p1, low) {
            Ok(lp) => lp,
            Err(e) => {
                return Err(e);
            },
        };
        proof {
            vstd::std_specs::vec::axiom_spec_len(data);
            lemma_dec_var_uint_advances(data@, p1 as int);
        }
        if p2 > end || len > (end - p2) as u64 {
            return Err(IonError::DecodingError);
        }
        let len_usize: usize = len as usize;
        let payload = copy_range(data, p2, p2 + len_usize);
        let v = if code == 8 {
            Value::Str(payload)
        } else if code == 9 {
            Value::Clob(payload)
        } else {
            Value::Blob(payload)
        };
        Ok((v, p2 + len_usize))
    } else if code == 11 || code == 12 {
        if low == 15 {
            let t = if code == 11 {
                IonType::List
            } else {
                IonType::SExp
            };
            return Ok((Value::Null(t), p1));
        }
        let (len, p2) = match read_len(data, p1, low) {
            Ok(lp) => lp,
            Err(e) => {
                return Err(e);
            },
        };
        proof {
            vstd::std_specs::vec::axiom_spec_len(data);
            lemma_dec_var_uint_advances(data@, p1 as int);
        }
        if p2 > end || len > (end - p2) as u64 {
            return Err(IonError::DecodingError);
        }
        let body_end: usize = p2 + (len as usize);
        match read_sequence_values(data, p2, body_end) {
            Ok(values) => {
                let v = if code == 11 {
                    Value::List(values)
                } else {
                    Value::SExp(values)
                };
                Ok((v, body_end))
            },
            Err(e) => Err(e),
        }
    } else if code == 13 {
        if low == 15 {
            return Ok((Value::Null(IonType::Struct), p1));
        }
        let (len, p2) = match read_len(data, p1, low) {
            Ok(lp) => lp,
            Err(e) => {
                return Err(e);
            },
        };
        proof {
            vstd::std_specs::vec::axiom_spec_len(data);
            lemma_dec_var_uint_advances(data@, p1 as int);
        }
        if p2 > end || len > (end - p2) as u64 {
            return Err(IonError::DecodingError);
        }
        let body_end: usize = p2 + (len as usize);
        match read_struct_fields(data, p2, body_end) {
            Ok(fields) => Ok((Value::Struct(fields), body_end)),
            Err(e) => Err(e),
        }
    } else if code == 14 {
        if low == 15 {
            return Err(IonError::DecodingError);
        }
        let (len, p2) = match read_len(data, p1, low) {
            Ok(lp) => lp,
            Err(e) => {
                return Err(e);
            },
        };
        proof {
            vstd::std_specs::vec::axiom_spec_len(data);
            lemma_dec_var_uint_advances(data@, p1 as int);
        }
        if p2 > end || len > (end - p2) as u64 || len < 1 {
            return Err(IonError::DecodingError);
        }
        let body_end: usize = p2 + (len as usize);
        match read_annotated(data, p2, body_end) {
            Ok(v) => Ok((v, body_end)),
            Err(e) => Err(e),
        }
    } else {
        Err(IonError::DecodingError)
    }
}

} // verus!
