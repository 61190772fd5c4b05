//! The decoding, stated as spec functions over a byte sequence and a window
//! `[pos, end)` inside it. Each function returns what was read and the
//! position just past it, or `None` when the window holds no well-formed
//! value. The executable reader is proved against these functions, and the
//! round-trip laws connect them to the encoding.

use vstd::prelude::*;
use crate::encoding::{var_uint, be_bytes};
use crate::types::{IntModel, IonType, SymbolTokenModel, ValueModel};

verus! {

/// Reads a variable-length unsigned integer starting at `pos`.
pub open spec fn dec_var_uint(s: Seq<u8>, pos: int) -> Option<(nat, int)>
    decreases s.len() - pos,
{
    if pos < 0 || pos >= s.len() {
        None
    } else if s[pos] >= 128 {
        Some(((s[pos] - 128) as nat, pos + 1))
    } else {
        match dec_var_uint(s, pos + 1) {
            Some((hi, q)) => Some(((s[pos] as nat + 128 * hi) as nat, q)),
            None => None,
        }
    }
}

/// Resolves a descriptor's low nibble into the payload length: inline for 0
/// through 13, a trailing variable-length integer for 14. The caller handles
/// nibble 15 (null) before asking.
pub open spec fn dec_len(s: Seq<u8>, pos: int, low: int) -> Option<(nat, int)> {
    if 0 <= low <= 13 {
        Some((low as nat, pos))
    } else if low == 14 {
        dec_var_uint(s, pos)
    } else {
        None
    }
}

/// The unsigned value of big-endian bytes.
pub open spec fn be_value(b: Seq<u8>) -> nat
    decreases b.len(),
{
    if b.len() == 0 {
        0
    } else {
        (be_value(b.drop_last()) * 256 + b.last()) as nat
    }
}

/// The 32-bit pattern held by four big-endian bytes.
pub open spec fn u32_from_be(b: Seq<u8>) -> u32 {
    (((b[0] as u32) << 24) | ((b[1] as u32) << 16) | ((b[2] as u32) << 8) | (b[3] as u32))
}

/// The 64-bit pattern held by eight big-endian bytes.
pub open spec fn u64_from_be(b: Seq<u8>) -> u64 {
    (((b[0] as u64) << 56) | ((b[1] as u64) << 48) | ((b[2] as u64) << 40) | ((b[3] as u64) << 32)
        | ((b[4] as u64) << 24) | ((b[5] as u64) << 16) | ((b[6] as u64) << 8) | (b[7] as u64))
}

/// Reads the annotation symbol IDs that fill `[pos, end)` exactly.
pub open spec fn dec_sids(s: Seq<u8>, pos: int, end: int) -> Option<Seq<SymbolTokenModel>>
    decreases end - pos,
{
    if pos == end {
        Some(Seq::empty())
    } else if pos < end <= s.len() {
        match dec_var_uint(s, pos) {
            Some((v, q)) => if pos < q && q <= end && v <= u64::MAX {
                match dec_sids(s, q, end) {
                    Some(rest) => Some(seq![SymbolTokenModel::SymbolId(v as u64)] + rest),
                    None => None,
                }
            } else {
                None
            },
            None => None,
        }
    } else {
        None
    }
}

/// Reads one value starting at `pos`, never beyond `end`. Decimal and
/// timestamp payloads are the province of their own sub-encoders and only
/// their nulls are read here; the reserved type code and padding are refused.
pub open spec fn dec_one(s: Seq<u8>, pos: int, end: int) -> Option<(ValueModel, int)>
    decreases end - pos, 1int,
{
    if !(0 <= pos && pos < end && end <= s.len()) {
        None
    } else {
        let b = s[pos] as int;
        let code = b / 16;
        let low = b % 16;
        let p1 = pos + 1;
        if code == 0 {
            if low == 15 {
                Some((ValueModel::Null(IonType::Null), p1))
            } else {
                None
            }
        } else if code == 1 {
            if low == 0 {
                Some((ValueModel::Bool(false), p1))
            } else if low == 1 {
                Some((ValueModel::Bool(true), p1))
            } else if low == 15 {
                Some((ValueModel::Null(IonType::Bool), p1))
            } else {
                None
            }
        } else if code == 2 || code == 3 {
            if low == 15 {
                Some((ValueModel::Null(IonType::Int), p1))
            } else {
                match dec_len(s, p1, low) {
                    Some((len, p2)) => if p1 <= p2 && p2 + len <= end {
                        Some(
                            (
                                ValueModel::Int(
                                    IntModel {
                                        negative: code == 3,
                                        magnitude: s.subrange(p2, p2 + len),
                                    },
                                ),
                                p2 + len,
                            ),
                        )
                    } else {
                        None
                    },
                    None => None,
                }
            }
        } else if code == 4 {
            if low == 15 {
                Some((ValueModel::Null(IonType::Float), p1))
            } else if low == 0 {
                Some((ValueModel::Float64(0), p1))
            } else if low == 4 {
                if p1 + 4 <= end {
                    Some((ValueModel::Float32(u32_from_be(s.subrange(p1, p1 + 4))), p1 + 4))
                } else {
                    None
                }
            } else if low == 8 {
                if p1 + 8 <= end {
                    Some((ValueModel::Float64(u64_from_be(s.subrange(p1, p1 + 8))), p1 + 8))
                } else {
                    None
                }
            } else {
                None
            }
        } else if code == 5 {
            if low == 15 {
                Some((ValueModel::Null(IonType::Decimal), p1))
            } else {
                None
            }
        } else if code == 6 {
            if low == 15 {
                Some((ValueModel::Null(IonType::Timestamp), p1))
            } else {
                None
            }
        } else if code == 7 {
            if low == 15 {
                Some((ValueModel::Null(IonType::Symbol), p1))
            } else {
                match dec_len(s, p1, low) {
                    Some((len, p2)) => if p1 <= p2 && p2 + len <= end && len <= 8 {
                        Some(
                            (
                                ValueModel::Symbol(
                                    SymbolTokenModel::SymbolId(
                                        be_value(s.subrange(p2, p2 + len)) as u64,
                                    ),
                                ),
                                p2 + len,
                            ),
                        )
                    } else {
                        None
                    },
                    None => None,
                }
            }
        } else if code == 8 || code == 9 || code == 10 {
            if low == 15 {
                Some(
                    (
                        ValueModel::Null(
                            if code == 8 {
                                IonType::String
                            } else if code == 9 {
                                IonType::Clob
                            } else {
                                IonType::Blob
                            },
                        ),
                        p1,
                    ),
                )
            } else {
                match dec_len(s, p1, low) {
                    Some((len, p2)) => if p1 <= p2 && p2 + len <= end {
                        let payload = s.subrange(p2, p2 + len);
                        Some(
                            (
                                if code == 8 {
                                    ValueModel::Str(payload)
                                } else if code == 9 {
                                    ValueModel::Clob(payload)
                                } else {
                                    ValueModel::Blob(payload)
                                },
                                p2 + len,
                            ),
                        )
                    } else {
                        None
                    },
                    None => None,
                }
            }
        } else if code == 11 || code == 12 {
            if low == 15 {
                Some(
                    (
                        ValueModel::Null(
                            if code == 11 {
                                IonType::List
                            } else {
                                IonType::SExp
                            },
                        ),
                        p1,
                    ),
                )
            } else {
                match dec_len(s, p1, low) {
                    Some((len, p2)) => if p1 <= p2 && p2 + len <= end {
                        match dec_seq(s, p2, p2 + len) {
                            Some(vs) => Some(
                                (
                                    if code == 11 {
                                        ValueModel::List(vs)
                                    } else {
                                        ValueModel::SExp(vs)
                                    },
                                    p2 + len,
                                ),
                            ),
                            None => None,
                        }
                    } else {
                        None
                    },
                    None => None,
                }
            }
        } else if code == 13 {
            if low == 15 {
                Some((ValueModel::Null(IonType::Struct), p1))
            } else {
                match dec_len(s, p1, low) {
                    Some((len, p2)) => if p1 <= p2 && p2 + len <= end {
                        match dec_fields(s, p2, p2 + len) {
                            Some(fs) => Some((ValueModel::Struct(fs), p2 + len)),
                            None => None,
                        }
                    } else {
                        None
                    },
                    None => None,
                }
            }
        } else if code == 14 {
            if low == 15 {
                None
            } else {
                match dec_len(s, p1, low) {
                    Some((len, p2)) => if p1 <= p2 && p2 + len <= end && len >= 1 {
                        match dec_annotated_body(s, p2, p2 + len) {
                            Some(v) => Some((v, p2 + len)),
                            None => None,
                        }
                    } else {
                        None
                    },
                    None => None,
                }
            }
        } else {
            None
        }
    }
}

/// Reads an annotation wrapper's body, which must fill `[pos, end)` exactly:
/// the annotation sequence's byte length, the annotation symbol IDs (at least
/// one), then the single wrapped value.
pub open spec fn dec_annotated_body(s: Seq<u8>, pos: int, end: int) -> Option<ValueModel>
    decreases end - pos, 0int,
{
    if !(0 <= pos && pos < end && end <= s.len()) {
        None
    } else {
        match dec_var_uint(s, pos) {
            Some((alen, p3)) => if pos < p3 && p3 + alen <= end {
                match dec_sids(s, p3, p3 + alen) {
                    Some(sids) => if sids.len() >= 1 {
                        match dec_one(s, p3 + alen, end) {
                            Some((inner, q)) => if q == end {
                                Some(ValueModel::Annotated(sids, Box::new(inner)))
                            } else {
                                None
                            },
                            None => None,
                        }
                    } else {
                        None
                    },
                    None => None,
                }
            } else {
                None
            },
            None => None,
        }
    }
}

/// Reads the sibling values that fill `[pos, end)` exactly.
pub open spec fn dec_seq(s: Seq<u8>, pos: int, end: int) -> Option<Seq<ValueModel>>
    decreases end - pos, 2int,
{
    if pos == end {
        Some(Seq::empty())
    } else if pos < end {
        match dec_one(s, pos, end) {
            Some((v, q)) => if pos < q && q <= end {
                match dec_seq(s, q, end) {
                    Some(rest) => Some(seq![v] + rest),
                    None => None,
                }
            } else {
                None
            },
            None => None,
        }
    } else {
        None
    }
}

/// Reads the struct fields that fill `[pos, end)` exactly: each field is a
/// variable-length field-name symbol ID followed by a value.
pub open spec fn dec_fields(s: Seq<u8>, pos: int, end: int) -> Option<
    Seq<(SymbolTokenModel, ValueModel)>,
>
    decreases end - pos, 2int,
{
    if pos == end {
        Some(Seq::empty())
    } else if pos < end {
        match dec_var_uint(s, pos) {
            Some((sid, p1)) => if pos < p1 && p1 < end && sid <= u64::MAX {
                match dec_one(s, p1, end) {
                    Some((v, q)) => if p1 < q && q <= end {
                        match dec_fields(s, q, end) {
                            Some(rest) => Some(
                                seq![(SymbolTokenModel::SymbolId(sid as u64), v)] + rest,
                            ),
                            None => None,
                        }
                    } else {
                        None
                    },
                    None => None,
                }
            } else {
                None
            },
            None => None,
        }
    } else {
        None
    }
}

/// Powers of 256.
pub open spec fn pow256(k: nat) -> nat
    decreases k,
{
    if k == 0 {
        1
    } else {
        256 * pow256((k - 1) as nat)
    }
}

pub proof fn lemma_pow256_pos(k: nat)
    ensures
        pow256(k) >= 1,
    decreases k,
{
    if k > 0 {
        lemma_pow256_pos((k - 1) as nat);
    }
}

pub proof fn lemma_pow256_monotone(i: nat, j: nat)
    requires
        i <= j,
    ensures
        pow256(i) <= pow256(j),
    decreases j,
{
    if i < j {
        lemma_pow256_monotone(i, (j - 1) as nat);
        lemma_pow256_pos((j - 1) as nat);
    }
}

/// Eight bytes hold at most the 64-bit range.
pub proof fn lemma_pow256_u64()
    ensures
        pow256(8) == 0x10000000000000000,
{
    reveal_with_fuel(pow256, 9);
    assert(pow256(8) == 0x10000000000000000) by {
        reveal_with_fuel(pow256, 9);
    }
}

/// A variable-length integer consumes at least one byte and stays in bounds.
pub proof fn lemma_dec_var_uint_advances(s: Seq<u8>, pos: int)
    ensures
        dec_var_uint(s, pos) matches Some(p) ==> pos < p.1 <= s.len(),
    decreases s.len() - pos,
{
    if 0 <= pos < s.len() && s[pos] < 128 {
        lemma_dec_var_uint_advances(s, pos + 1);
    }
}

/// A decoded value consumes at least one byte and stays inside its window.
pub proof fn lemma_dec_one_advances(s: Seq<u8>, pos: int, end: int)
    ensures
        dec_one(s, pos, end) matches Some(p) ==> pos < p.1 <= end,
{
    if 0 <= pos && pos < end && end <= s.len() {
        let low = s[pos] as int % 16;
        lemma_dec_var_uint_advances(s, pos + 1);
    }
}

} // verus!
