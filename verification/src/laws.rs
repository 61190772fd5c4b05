//! The laws of the codec, stated and proved once over the spec functions:
//! the length encoding is reversible, a value's encoding decodes back to the
//! value, zero and the float zeros encode to their fixed descriptors, and
//! nested annotation wrapping is byte-distinct from a combined wrapper.

use vstd::prelude::*;
use crate::decoding::{
    be_value, dec_annotated_body, dec_fields, dec_len, dec_one, dec_seq, dec_sids, dec_var_uint,
    pow256, lemma_pow256_pos, lemma_pow256_u64, u32_from_be, u64_from_be,
};
use crate::encoding::{
    abs_int, all_sids, be32, be64, be_bytes, enc, enc_anns_seq, enc_f32, enc_f64, enc_fields,
    enc_i64, enc_int, enc_seq, null_descriptor, td_bytes, var_uint, writable, writable_fields,
    writable_seq,
};
use crate::types::{IntModel, SymbolTokenModel, ValueModel};

verus! {

/// The bytes `b` stand at position `pos` of `s`.
pub open spec fn bytes_at(s: Seq<u8>, pos: int, b: Seq<u8>) -> bool {
    &&& 0 <= pos
    &&& pos + b.len() <= s.len()
    &&& forall|i: int| 0 <= i < b.len() ==> s[pos + i] == b[i]
}

/// Concatenated bytes stand at a position exactly when each part does.
pub proof fn lemma_bytes_at_concat(s: Seq<u8>, pos: int, a: Seq<u8>, b: Seq<u8>)
    requires
        bytes_at(s, pos, a + b),
    ensures
        bytes_at(s, pos, a),
        bytes_at(s, pos + a.len(), b),
{
    assert forall|i: int| 0 <= i < a.len() implies s[pos + i] == a[i] by {
        assert((a + b)[i] == a[i]);
    }
    assert forall|i: int| 0 <= i < b.len() implies s[pos + a.len() + i] == b[i] by {
        assert((a + b)[a.len() + i] == b[i]);
    }
}

/// A variable-length integer decodes back to the value it was produced from.
pub proof fn lemma_var_uint_round_trip(s: Seq<u8>, pos: int, n: nat)
    requires
        bytes_at(s, pos, var_uint(n)),
    ensures
        dec_var_uint(s, pos) == Some((n, pos + var_uint(n).len())),
        var_uint(n).len() >= 1,
    decreases n,
{
    if n < 128 {
        assert(s[pos] == var_uint(n)[0]);
    } else {
        assert(s[pos] == var_uint(n)[0]);
        lemma_bytes_at_concat(s, pos, seq![(n % 128) as u8], var_uint(n / 128));
        lemma_var_uint_round_trip(s, pos + 1, n / 128);
    }
}

/// A type descriptor decodes back to its type code and payload length.
pub proof fn lemma_length_round_trip(s: Seq<u8>, pos: int, code: u8, len: nat)
    requires
        code % 16 == 0,
        code <= 0xE0,
        bytes_at(s, pos, td_bytes(code, len)),
    ensures
        (s[pos] as int) / 16 == (code as int) / 16,
        (s[pos] as int) % 16 == (if len <= 13 {
            len as int
        } else {
            14int
        }),
        dec_len(s, pos + 1, (s[pos] as int) % 16) == Some((len, pos + td_bytes(code, len).len())),
        td_bytes(code, len).len() >= 1,
{
    if len <= 13 {
        assert(s[pos] == td_bytes(code, len)[0]);
        assert(s[pos] as int == code + len);
        assert((code as int + len) / 16 == (code as int) / 16 && (code as int + len) % 16
            == len as int) by (nonlinear_arith)
            requires
                code % 16 == 0,
                0 <= code <= 0xE0,
                0 <= len <= 13,
        ;
    } else {
        assert(s[pos] == td_bytes(code, len)[0]);
        assert(s[pos] as int == code + 14);
        assert((code as int + 14) / 16 == (code as int) / 16 && (code as int + 14) % 16 == 14int)
            by (nonlinear_arith)
            requires
                code % 16 == 0,
                0 <= code <= 0xE0,
        ;
        lemma_bytes_at_concat(s, pos, seq![(code as nat + 14) as u8], var_uint(len));
        lemma_var_uint_round_trip(s, pos + 1, len);
    }
}

/// Big-endian magnitude bytes decode back to their value.
pub proof fn lemma_be_value_round_trip(n: nat)
    ensures
        be_value(be_bytes(n)) == n,
    decreases n,
{
    if n > 0 {
        lemma_be_value_round_trip(n / 256);
        assert(be_bytes(n).drop_last() =~= be_bytes(n / 256));
        assert(be_bytes(n).last() == (n % 256) as u8);
    }
}

/// A value below 256^k needs at most k magnitude bytes.
pub proof fn lemma_be_bytes_len(n: nat, k: nat)
    requires
        n < pow256(k),
    ensures
        be_bytes(n).len() <= k,
    decreases k,
{
    if n > 0 {
        lemma_pow256_pos(k);
        assert(k > 0);
        assert(n / 256 < pow256((k - 1) as nat));
        lemma_be_bytes_len(n / 256, (k - 1) as nat);
    }
}

/// Splitting a 32-bit pattern into big-endian bytes and reassembling it is
/// the identity.
pub proof fn lemma_be32_round_trip(bits: u32)
    ensures
        u32_from_be(be32(bits)) == bits,
{
    let b = be32(bits);
    assert(b[0] == (bits >> 24) as u8);
    assert(b[1] == (bits >> 16) as u8);
    assert(b[2] == (bits >> 8) as u8);
    assert(b[3] == bits as u8);
    assert(((((bits >> 24) as u8) as u32) << 24) | ((((bits >> 16) as u8) as u32) << 16) | ((((bits
        >> 8) as u8) as u32) << 8) | ((bits as u8) as u32) == bits) by (bit_vector);
}

/// As `lemma_be32_round_trip`, for 64-bit patterns.
pub proof fn lemma_be64_round_trip(bits: u64)
    ensures
        u64_from_be(be64(bits)) == bits,
{
    let b = be64(bits);
    assert(b[0] == (bits >> 56) as u8);
    assert(b[1] == (bits >> 48) as u8);
    assert(b[2] == (bits >> 40) as u8);
    assert(b[3] == (bits >> 32) as u8);
    assert(b[4] == (bits >> 24) as u8);
    assert(b[5] == (bits >> 16) as u8);
    assert(b[6] == (bits >> 8) as u8);
    assert(b[7] == bits as u8);
    assert(((((bits >> 56) as u8) as u64) << 56) | ((((bits >> 48) as u8) as u64) << 48) | ((((bits
        >> 40) as u8) as u64) << 40) | ((((bits >> 32) as u8) as u64) << 32) | ((((bits
        >> 24) as u8) as u64) << 24) | ((((bits >> 16) as u8) as u64) << 16) | ((((bits
        >> 8) as u8) as u64) << 8) | ((bits as u8) as u64) == bits) by (bit_vector);
}

/// Writing zero as an int always yields the bare positive-int descriptor with
/// no payload bytes, whichever representation carried the zero.
pub proof fn lemma_int_zero_encoding(m: IntModel)
    requires
        crate::types::int_wf(m),
        m.magnitude.len() == 0,
    ensures
        enc_int(m) == seq![0x20u8],
        enc_i64(0) == seq![0x20u8],
{
    assert(enc_int(m) =~= seq![0x20u8]);
    assert(be_bytes(abs_int(0)) =~= Seq::<u8>::empty());
    assert(enc_i64(0) =~= seq![0x20u8]);
}

/// The positive zero of either float width encodes to the bare descriptor;
/// the negative 32-bit zero keeps its four payload bytes.
pub proof fn lemma_float_zero_encoding()
    ensures
        enc_f32(0) == seq![0x40u8],
        enc_f64(0) == seq![0x40u8],
        enc_f32(0x80000000) == seq![0x44u8, 0x80u8, 0x00u8, 0x00u8, 0x00u8],
{
    assert((0x80000000u32 >> 24) as u8 == 0x80u8) by (bit_vector);
    assert((0x80000000u32 >> 16) as u8 == 0x00u8) by (bit_vector);
    assert((0x80000000u32 >> 8) as u8 == 0x00u8) by (bit_vector);
    assert(0x80000000u32 as u8 == 0x00u8) by (bit_vector);
    assert(enc_f32(0x80000000) =~= seq![0x44u8, 0x80u8, 0x00u8, 0x00u8, 0x00u8]);
}

/// Whether a value holds no 32-bit positive zero float anywhere. The 32-bit
/// positive zero shares its one-byte encoding with the 64-bit positive zero,
/// and reads back as the 64-bit form; every other value reads back exactly.
pub open spec fn no_float32_zero(v: ValueModel) -> bool
    decreases v,
{
    match v {
        ValueModel::Float32(bits) => bits != 0,
        ValueModel::List(vs) => no_float32_zero_seq(vs),
        ValueModel::SExp(vs) => no_float32_zero_seq(vs),
        ValueModel::Struct(fs) => no_float32_zero_fields(fs),
        ValueModel::Annotated(_, inner) => no_float32_zero(*inner),
        _ => true,
    }
}

pub open spec fn no_float32_zero_seq(vs: Seq<ValueModel>) -> bool
    decreases vs,
{
    if vs.len() == 0 {
        true
    } else {
        no_float32_zero(vs[0]) && no_float32_zero_seq(vs.drop_first())
    }
}

pub open spec fn no_float32_zero_fields(fs: Seq<(SymbolTokenModel, ValueModel)>) -> bool
    decreases fs,
{
    if fs.len() == 0 {
        true
    } else {
        no_float32_zero(fs[0].1) && no_float32_zero_fields(fs.drop_first())
    }
}

/// A writable value encodes to at least one byte.
pub proof fn lemma_enc_nonempty(v: ValueModel)
    requires
        writable(v),
    ensures
        enc(v).len() >= 1,
{
    match v {
        ValueModel::Null(_) => {},
        ValueModel::Bool(_) => {},
        ValueModel::Int(_) => {},
        ValueModel::Float32(_) => {},
        ValueModel::Float64(_) => {},
        ValueModel::Str(_) => {},
        ValueModel::Symbol(_) => {},
        ValueModel::Clob(_) => {},
        ValueModel::Blob(_) => {},
        ValueModel::List(_) => {},
        ValueModel::SExp(_) => {},
        ValueModel::Struct(_) => {},
        ValueModel::Annotated(_, _) => {},
    }
}

/// An annotation sequence of resolved IDs decodes back to itself.
proof fn lemma_dec_sids_enc(s: Seq<u8>, pos: int, end: int, anns: Seq<SymbolTokenModel>)
    requires
        all_sids(anns),
        bytes_at(s, pos, enc_anns_seq(anns)),
        end == pos + enc_anns_seq(anns).len(),
        end <= s.len(),
    ensures
        dec_sids(s, pos, end) == Some(anns),
    decreases anns.len(),
{
    if anns.len() == 0 {
        assert(Seq::<SymbolTokenModel>::empty() =~= anns);
    } else {
        let sid = anns[0]->SymbolId_0;
        assert(anns[0] is SymbolId);
        assert(anns[0] == SymbolTokenModel::SymbolId(sid));
        lemma_bytes_at_concat(s, pos, var_uint(sid as nat), enc_anns_seq(anns.drop_first()));
        lemma_var_uint_round_trip(s, pos, sid as nat);
        let q = pos + var_uint(sid as nat).len();
        assert(all_sids(anns.drop_first())) by {
            assert(forall|i: int|
                0 <= i < anns.drop_first().len() ==> anns.drop_first()[i] == anns[i + 1]);
        }
        lemma_dec_sids_enc(s, q, end, anns.drop_first());
        assert(seq![SymbolTokenModel::SymbolId(sid)] + anns.drop_first() =~= anns);
    }
}

/// A value's encoding decodes back to the value, consuming exactly its bytes.
#[verifier::rlimit(100)]
#[verifier::spinoff_prover]
proof fn lemma_dec_enc(s: Seq<u8>, pos: int, end: int, v: ValueModel)
    requires
        writable(v),
        no_float32_zero(v),
        bytes_at(s, pos, enc(v)),
        pos + enc(v).len() <= end,
        end <= s.len(),
    ensures
        dec_one(s, pos, end) == Some((v, pos + enc(v).len())),
    decreases v, 0nat,
{
    match v {
        ValueModel::Null(t) => {
            assert(s[pos + 0] == enc(v)[0]);
            assert(s[pos] == null_descriptor(t));
        },
        ValueModel::Bool(b) => {
            assert(s[pos + 0] == enc(v)[0]);
            assert(s[pos] == (if b {
                0x11u8
            } else {
                0x10u8
            }));
        },
        ValueModel::Int(m) => {
            let code: u8 = if m.negative {
                0x30
            } else {
                0x20
            };
            lemma_bytes_at_concat(s, pos, td_bytes(code, m.magnitude.len()), m.magnitude);
            lemma_length_round_trip(s, pos, code, m.magnitude.len());
            let p2 = pos + td_bytes(code, m.magnitude.len()).len();
            assert(s.subrange(p2, p2 + m.magnitude.len()) =~= m.magnitude);
        },
        ValueModel::Float32(bits) => {
            assert(s[pos + 0] == enc(v)[0]);
            assert(s[pos] == 0x44);
            lemma_bytes_at_concat(s, pos, seq![0x44u8], be32(bits));
            assert(s.subrange(pos + 1, pos + 5) =~= be32(bits));
            lemma_be32_round_trip(bits);
        },
        ValueModel::Float64(bits) => {
            if bits == 0 {
                assert(s[pos + 0] == enc(v)[0]);
                assert(s[pos] == 0x40);
            } else {
                assert(s[pos + 0] == enc(v)[0]);
                assert(s[pos] == 0x48);
                lemma_bytes_at_concat(s, pos, seq![0x48u8], be64(bits));
                assert(s.subrange(pos + 1, pos + 9) =~= be64(bits));
                lemma_be64_round_trip(bits);
            }
        },
        ValueModel::Str(b) => {
            lemma_bytes_at_concat(s, pos, td_bytes(0x80u8, b.len()), b);
            lemma_length_round_trip(s, pos, 0x80u8, b.len());
            let p2 = pos + td_bytes(0x80u8, b.len()).len();
            assert(s.subrange(p2, p2 + b.len()) =~= b);
        },
        ValueModel::Symbol(t) => {
            let sid = t->SymbolId_0;
            assert(t == SymbolTokenModel::SymbolId(sid));
            let mag = be_bytes(sid as nat);
            lemma_bytes_at_concat(s, pos, td_bytes(0x70u8, mag.len()), mag);
            lemma_length_round_trip(s, pos, 0x70u8, mag.len());
            lemma_pow256_u64();
            lemma_be_bytes_len(sid as nat, 8);
            let p2 = pos + td_bytes(0x70u8, mag.len()).len();
            assert(s.subrange(p2, p2 + mag.len()) =~= mag);
            lemma_be_value_round_trip(sid as nat);
        },
        ValueModel::Clob(b) => {
            lemma_bytes_at_concat(s, pos, td_bytes(0x90u8, b.len()), b);
            lemma_length_round_trip(s, pos, 0x90u8, b.len());
            let p2 = pos + td_bytes(0x90u8, b.len()).len();
            assert(s.subrange(p2, p2 + b.len()) =~= b);
        },
        ValueModel::Blob(b) => {
            lemma_bytes_at_concat(s, pos, td_bytes(0xA0u8, b.len()), b);
            lemma_length_round_trip(s, pos, 0xA0u8, b.len());
            let p2 = pos + td_bytes(0xA0u8, b.len()).len();
            assert(s.subrange(p2, p2 + b.len()) =~= b);
        },
        ValueModel::List(vs) => {
            let body = enc_seq(vs);
            lemma_bytes_at_concat(s, pos, td_bytes(0xB0u8, body.len()), body);
            lemma_length_round_trip(s, pos, 0xB0u8, body.len());
            let p2 = pos + td_bytes(0xB0u8, body.len()).len();
            lemma_dec_enc_seq(s, p2, p2 + body.len(), vs);
        },
        ValueModel::SExp(vs) => {
            let body = enc_seq(vs);
            lemma_bytes_at_concat(s, pos, td_bytes(0xC0u8, body.len()), body);
            lemma_length_round_trip(s, pos, 0xC0u8, body.len());
            let p2 = pos + td_bytes(0xC0u8, body.len()).len();
            lemma_dec_enc_seq(s, p2, p2 + body.len(), vs);
        },
        ValueModel::Struct(fs) => {
            let body = enc_fields(fs);
            lemma_bytes_at_concat(s, pos, td_bytes(0xD0u8, body.len()), body);
            lemma_length_round_trip(s, pos, 0xD0u8, body.len());
            let p2 = pos + td_bytes(0xD0u8, body.len()).len();
            lemma_dec_enc_fields(s, p2, p2 + body.len(), fs);
        },
        ValueModel::Annotated(anns, inner) => {
            let aseq = enc_anns_seq(anns);
            let body = var_uint(aseq.len()) + aseq + enc(*inner);
            lemma_bytes_at_concat(s, pos, td_bytes(0xE0u8, body.len()), body);
            lemma_length_round_trip(s, pos, 0xE0u8, body.len());
            let p2 = pos + td_bytes(0xE0u8, body.len()).len();
            assert(body =~= var_uint(aseq.len()) + (aseq + enc(*inner)));
            lemma_bytes_at_concat(s, p2, var_uint(aseq.len()), aseq + enc(*inner));
            lemma_var_uint_round_trip(s, p2, aseq.len());
            let p3 = p2 + var_uint(aseq.len()).len();
            lemma_bytes_at_concat(s, p3, aseq, enc(*inner));
            lemma_dec_sids_enc(s, p3, p3 + aseq.len(), anns);
            lemma_dec_enc(s, p3 + aseq.len(), p2 + body.len(), *inner);
            lemma_enc_nonempty(*inner);
            assert(dec_annotated_body(s, p2, p2 + body.len()) == Some(v));
        },
    }
}

/// Sibling encodings filling a window decode back to the sibling sequence.
proof fn lemma_dec_enc_seq(s: Seq<u8>, pos: int, end: int, vs: Seq<ValueModel>)
    requires
        writable_seq(vs),
        no_float32_zero_seq(vs),
        bytes_at(s, pos, enc_seq(vs)),
        end == pos + enc_seq(vs).len(),
        end <= s.len(),
    ensures
        dec_seq(s, pos, end) == Some(vs),
    decreases vs, 0nat,
{
    if vs.len() == 0 {
        assert(Seq::<ValueModel>::empty() =~= vs);
    } else {
        lemma_bytes_at_concat(s, pos, enc(vs[0]), enc_seq(vs.drop_first()));
        lemma_dec_enc(s, pos, end, vs[0]);
        lemma_enc_nonempty(vs[0]);
        let q = pos + enc(vs[0]).len();
        lemma_dec_enc_seq(s, q, end, vs.drop_first());
        assert(seq![vs[0]] + vs.drop_first() =~= vs);
    }
}

/// Field encodings filling a window decode back to the field sequence.
proof fn lemma_dec_enc_fields(s: Seq<u8>, pos: int, end: int, fs: Seq<(SymbolTokenModel, ValueModel)>)
    requires
        writable_fields(fs),
        no_float32_zero_fields(fs),
        bytes_at(s, pos, enc_fields(fs)),
        end == pos + enc_fields(fs).len(),
        end <= s.len(),
    ensures
        dec_fields(s, pos, end) == Some(fs),
    decreases fs, 0nat,
{
    if fs.len() == 0 {
        assert(Seq::<(SymbolTokenModel, ValueModel)>::empty() =~= fs);
    } else {
        let sid = fs[0].0->SymbolId_0;
        assert(fs[0].0 == SymbolTokenModel::SymbolId(sid));
        assert(enc_fields(fs) =~= var_uint(sid as nat) + (enc(fs[0].1) + enc_fields(
            fs.drop_first(),
        )));
        lemma_bytes_at_concat(
            s,
            pos,
            var_uint(sid as nat),
            enc(fs[0].1) + enc_fields(fs.drop_first()),
        );
        lemma_var_uint_round_trip(s, pos, sid as nat);
        let p1 = pos + var_uint(sid as nat).len();
        lemma_bytes_at_concat(s, p1, enc(fs[0].1), enc_fields(fs.drop_first()));
        lemma_enc_nonempty(fs[0].1);
        lemma_dec_enc(s, p1, end, fs[0].1);
        let q = p1 + enc(fs[0].1).len();
        lemma_dec_enc_fields(s, q, end, fs.drop_first());
        assert(seq![fs[0]] + fs.drop_first() =~= fs);
        assert(seq![(SymbolTokenModel::SymbolId(sid), fs[0].1)] + fs.drop_first() =~= fs);
    }
}

/// Round trip: for every writable value that holds no 32-bit positive zero
/// float, decoding its encoding yields the value back and consumes exactly
/// its bytes. (The 32-bit positive zero is the one exception: its encoding is
/// the shared zero-float descriptor, which reads back as the 64-bit zero.)
pub proof fn lemma_value_round_trip(v: ValueModel)
    requires
        writable(v),
        no_float32_zero(v),
    ensures
        dec_one(enc(v), 0, enc(v).len() as int) == Some((v, enc(v).len() as int)),
{
    let s = enc(v);
    assert(bytes_at(s, 0, s));
    lemma_dec_enc(s, 0, s.len() as int, v);
}

/// Powers of 128.
pub open spec fn pow128(k: nat) -> nat
    decreases k,
{
    if k == 0 {
        1
    } else {
        128 * pow128((k - 1) as nat)
    }
}

proof fn lemma_pow128_pos(k: nat)
    ensures
        pow128(k) >= 1,
    decreases k,
{
    if k > 0 {
        lemma_pow128_pos((k - 1) as nat);
    }
}

proof fn lemma_pow128_monotone(i: nat, j: nat)
    requires
        i <= j,
    ensures
        pow128(i) <= pow128(j),
    decreases j,
{
    if i < j {
        lemma_pow128_monotone(i, (j - 1) as nat);
        lemma_pow128_pos((j - 1) as nat);
    }
}

/// A value below 128^k needs at most k seven-bit groups.
proof fn lemma_var_uint_len_le(n: nat, k: nat)
    requires
        n < pow128(k),
        k >= 1,
    ensures
        var_uint(n).len() <= k,
    decreases k,
{
    if n >= 128 {
        assert(pow128(1) == 128) by {
            reveal_with_fuel(pow128, 2);
        }
        if k == 1 {
            assert(false);
        }
        vstd::arithmetic::div_mod::lemma_fundamental_div_mod(n as int, 128);
        assert(n / 128 < pow128((k - 1) as nat));
        lemma_var_uint_len_le(n / 128, (k - 1) as nat);
    }
}

/// A value needs all its seven-bit groups.
proof fn lemma_var_uint_len_lower(n: nat)
    ensures
        n < pow128(var_uint(n).len()),
    decreases n,
{
    if n < 128 {
        assert(pow128(1) == 128) by {
            reveal_with_fuel(pow128, 2);
        }
    } else {
        lemma_var_uint_len_lower(n / 128);
        let l1 = var_uint(n / 128).len();
        vstd::arithmetic::div_mod::lemma_fundamental_div_mod(n as int, 128);
        assert(pow128(l1 + 1) == 128 * pow128(l1));
        assert(n < pow128(l1 + 1));
    }
}

proof fn lemma_var_uint_len_monotone(m: nat, n: nat)
    requires
        m <= n,
    ensures
        var_uint(m).len() <= var_uint(n).len(),
    decreases n,
{
    if m >= 128 {
        lemma_var_uint_len_monotone(m / 128, n / 128);
    }
}

/// The length of a sum's encoding is at most the sum of the lengths.
proof fn lemma_var_uint_len_subadd(m: nat, n: nat)
    ensures
        var_uint(m + n).len() <= var_uint(m).len() + var_uint(n).len(),
{
    let km = var_uint(m).len();
    let kn = var_uint(n).len();
    lemma_var_uint_len_lower(m);
    lemma_var_uint_len_lower(n);
    let kmax: nat = if km >= kn {
        km
    } else {
        kn
    };
    lemma_pow128_monotone(km, kmax);
    lemma_pow128_monotone(kn, kmax);
    assert(pow128(kmax + 1) == 128 * pow128(kmax));
    lemma_pow128_pos(kmax);
    assert(m + n < pow128(kmax + 1));
    lemma_var_uint_len_le(m + n, kmax + 1);
}

/// Wrapping a value with one annotation and then wrapping the result with
/// another is byte-distinct from wrapping the value once with both: the
/// nested form is strictly longer. Annotation order within one wrapper is
/// itself part of the encoding (`enc_anns_seq` concatenates in order).
pub proof fn lemma_annotation_nesting(a: u64, b: u64, x: ValueModel)
    requires
        writable(x),
    ensures
        enc(
            ValueModel::Annotated(
                seq![SymbolTokenModel::SymbolId(b)],
                Box::new(
                    ValueModel::Annotated(seq![SymbolTokenModel::SymbolId(a)], Box::new(x)),
                ),
            ),
        ) != enc(
            ValueModel::Annotated(
                seq![SymbolTokenModel::SymbolId(b), SymbolTokenModel::SymbolId(a)],
                Box::new(x),
            ),
        ),
{
    let va = var_uint(a as nat);
    let vb = var_uint(b as nat);
    let ann_a = seq![SymbolTokenModel::SymbolId(a)];
    let ann_b = seq![SymbolTokenModel::SymbolId(b)];
    let ann_ba = seq![SymbolTokenModel::SymbolId(b), SymbolTokenModel::SymbolId(a)];
    assert(enc_anns_seq(ann_a) =~= va) by {
        reveal_with_fuel(enc_anns_seq, 2);
        assert(ann_a.drop_first() =~= Seq::<SymbolTokenModel>::empty());
    }
    assert(enc_anns_seq(ann_b) =~= vb) by {
        reveal_with_fuel(enc_anns_seq, 2);
        assert(ann_b.drop_first() =~= Seq::<SymbolTokenModel>::empty());
    }
    assert(enc_anns_seq(ann_ba) =~= vb + va) by {
        reveal_with_fuel(enc_anns_seq, 3);
        assert(ann_ba.drop_first() =~= ann_a);
        assert(ann_a.drop_first() =~= Seq::<SymbolTokenModel>::empty());
    }
    let inner = ValueModel::Annotated(ann_a, Box::new(x));
    let nested = ValueModel::Annotated(ann_b, Box::new(inner));
    let flat = ValueModel::Annotated(ann_ba, Box::new(x));
    let ex = enc(x).len();
    let body_i = var_uint(va.len()) + va + enc(x);
    assert(enc(inner) == td_bytes(0xE0u8, body_i.len()) + body_i);
    assert(td_bytes(0xE0u8, body_i.len()).len() >= 1);
    let body_n = var_uint(vb.len()) + vb + enc(inner);
    assert(enc(nested) == td_bytes(0xE0u8, body_n.len()) + body_n);
    let lf = (vb + va).len();
    let body_f = var_uint(lf) + (vb + va) + enc(x);
    assert(enc(flat) == td_bytes(0xE0u8, body_f.len()) + body_f);
    lemma_var_uint_len_subadd(vb.len(), va.len());
    assert(var_uint(lf).len() <= var_uint(vb.len()).len() + var_uint(va.len()).len());
    assert(enc(inner).len() >= 1 + var_uint(va.len()).len() + va.len() + ex);
    assert(body_n.len() >= body_f.len() + 1);
    lemma_var_uint_len_monotone(body_f.len(), body_n.len());
    assert(td_bytes(0xE0u8, body_n.len()).len() >= td_bytes(0xE0u8, body_f.len()).len());
    assert(enc(nested).len() > enc(flat).len());
}

/// The encoding is injective: two values that both read back exactly and
/// encode to the same bytes are the same value. In particular two wrappers
/// whose annotation sequences differ, in content or in order, encode to
/// different bytes.
pub proof fn lemma_encoding_injective(v1: ValueModel, v2: ValueModel)
    requires
        writable(v1),
        no_float32_zero(v1),
        writable(v2),
        no_float32_zero(v2),
        enc(v1) == enc(v2),
    ensures
        v1 == v2,
{
    lemma_value_round_trip(v1);
    lemma_value_round_trip(v2);
}

} // verus!
