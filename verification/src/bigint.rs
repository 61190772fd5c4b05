//! The bridge from arbitrary-precision integers to this library's
//! sign/magnitude form. The outside crate computes the big-endian bytes; the
//! verified code normalizes them (no leading zero, zero as the empty
//! magnitude) so that the writer's contracts apply.

use vstd::prelude::*;
use crate::types::{int_wf, Int};

verus! {

#[verifier::external_type_specification]
#[verifier::external_body]
pub struct ExBigInt(num_bigint::BigInt);

#[verifier::external_type_specification]
#[verifier::external_body]
pub struct ExSign(num_bigint::Sign);

/// Relies on num_bigint::BigInt::to_bytes_be: the sign and the magnitude in
/// big-endian byte order (a single zero byte for zero). The sign is mapped to
/// `true` exactly for `Sign::Minus`.
#[verifier::external_body]
fn bigint_to_sign_bytes(value: &num_bigint::BigInt) -> (r: (bool, Vec<u8>))
    ensures
        r.1@.len() >= 1,
{
    let (sign, bytes) = value.to_bytes_be();
    let negative = match sign {
        num_bigint::Sign::Minus => true,
        num_bigint::Sign::NoSign => false,
        num_bigint::Sign::Plus => false,
    };
    (negative, bytes)
}

impl Int {
    /// Builds the sign/magnitude form of an arbitrary-precision integer:
    /// leading zero bytes are stripped, so zero becomes the positive empty
    /// magnitude whatever bytes the conversion produced.
    pub fn from_bigint(value: &num_bigint::BigInt) -> (r: Int)
        ensures
            int_wf(r@),
    {
        let (negative, bytes) = bigint_to_sign_bytes(value);
        let mut start: usize = 0;
        while start < bytes.len() && bytes[start] == 0
            invariant
                start <= bytes@.len(),
            decreases bytes@.len() - start,
        {
            start = start + 1;
        }
        let mut magnitude: Vec<u8> = Vec::new();
        let mut i: usize = start;
        while i < bytes.len()
            invariant
                start <= i <= bytes@.len(),
                magnitude@ == bytes@.subrange(start as int, i as int),
                start < bytes@.len() ==> bytes@[start as int] != 0,
            decreases bytes@.len() - i,
        {
            magnitude.push(bytes[i]);
            proof {
                assert(bytes@.subrange(start as int, i as int + 1) =~= bytes@.subrange(
                    start as int,
                    i as int,
                ).push(bytes@[i as int]));
            }
            i = i + 1;
        }
        let is_negative = if magnitude.len() == 0 {
            false
        } else {
            negative
        };
        Int { negative: is_negative, magnitude }
    }
}

} // verus!
