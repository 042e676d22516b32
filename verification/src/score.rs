//! Fuzzy score operators over bit-pattern weights.
//!
//! A weight is an IEEE 754 single-precision value in `[0, 1]` carried as its
//! bit pattern in a `u32`. The arithmetic steps (addition, multiplication,
//! subtraction, division, square root, integer conversion) are exactly
//! rounded under round-to-nearest-even, so each result is a function of the
//! operand bits alone. The uninterpreted spec functions below name those
//! results, and trusted wrappers around the `rustc_apfloat` software
//! implementation of IEEE 754 connect the names to the computed bits.
//!
//! Both operators use the p-norm with p fixed at two, the default, which
//! keeps every arithmetic step exactly rounded and therefore deterministic;
//! a general `p`-th root would go through a power function of unspecified
//! precision.

use vstd::prelude::*;

use rustc_apfloat::Float;

use crate::error::RankError;
use crate::op::Op;

verus! {

/// Bit pattern of positive one.
pub const ONE_BITS: u32 = 0x3F80_0000;

/// Bits of the IEEE 754 single-precision sum of the values given by bits.
pub uninterp spec fn add_bits(a: u32, b: u32) -> u32;

/// Bits of the IEEE 754 single-precision product of the values given by bits.
pub uninterp spec fn mul_bits(a: u32, b: u32) -> u32;

/// Bits of the IEEE 754 single-precision difference of the values given by bits.
pub uninterp spec fn sub_bits(a: u32, b: u32) -> u32;

/// Bits of the IEEE 754 single-precision quotient of the values given by bits.
pub uninterp spec fn div_bits(a: u32, b: u32) -> u32;

/// Bits of the IEEE 754 single-precision square root of the value given by bits.
pub uninterp spec fn sqrt_bits(a: u32) -> u32;

/// Bits of the IEEE 754 single-precision value nearest to the integer `n`.
pub uninterp spec fn of_usize_bits(n: usize) -> u32;

/// Relies on `rustc_apfloat::ieee::Single` addition, rounding to nearest
/// even: the exactly rounded IEEE 754 sum, a function of the operand bits.
#[verifier::external_body]
fn ieee_add(a: u32, b: u32) -> (r: u32)
    ensures
        r == add_bits(a, b),
{
    let x = rustc_apfloat::ieee::Single::from_bits(a as u128);
    let y = rustc_apfloat::ieee::Single::from_bits(b as u128);
    (x + y).value.to_bits() as u32
}

/// Relies on `rustc_apfloat::ieee::Single` multiplication, rounding to
/// nearest even: the exactly rounded IEEE 754 product, a function of the
/// operand bits.
#[verifier::external_body]
fn ieee_mul(a: u32, b: u32) -> (r: u32)
    ensures
        r == mul_bits(a, b),
{
    let x = rustc_apfloat::ieee::Single::from_bits(a as u128);
    let y = rustc_apfloat::ieee::Single::from_bits(b as u128);
    (x * y).value.to_bits() as u32
}

/// Relies on `rustc_apfloat::ieee::Single` subtraction, rounding to nearest
/// even: the exactly rounded IEEE 754 difference, a function of the operand
/// bits.
#[verifier::external_body]
fn ieee_sub(a: u32, b: u32) -> (r: u32)
    ensures
        r == sub_bits(a, b),
{
    let x = rustc_apfloat::ieee::Single::from_bits(a as u128);
    let y = rustc_apfloat::ieee::Single::from_bits(b as u128);
    (x - y).value.to_bits() as u32
}

/// Relies on `rustc_apfloat::ieee::Single` division, rounding to nearest
/// even: the exactly rounded IEEE 754 quotient, a function of the operand
/// bits.
#[verifier::external_body]
fn ieee_div(a: u32, b: u32) -> (r: u32)
    ensures
        r == div_bits(a, b),
{
    let x = rustc_apfloat::ieee::Single::from_bits(a as u128);
    let y = rustc_apfloat::ieee::Single::from_bits(b as u128);
    (x / y).value.to_bits() as u32
}

/// Relies on `ieee_apsqrt::sqrt_accurate`, rounding to nearest even: the
/// exactly rounded IEEE 754 square root, a function of the operand bits.
#[verifier::external_body]
fn ieee_sqrt(a: u32) -> (r: u32)
    ensures
        r == sqrt_bits(a),
{
    ieee_apsqrt::sqrt_accurate(a, rustc_apfloat::Round::NearestTiesToEven).0.value
}

/// Relies on `rustc_apfloat::ieee::Single::from_u128`, rounding to nearest
/// even: the nearest single-precision value, a function of the integer alone.
#[verifier::external_body]
fn ieee_of_usize(n: usize) -> (r: u32)
    ensures
        r == of_usize_bits(n),
{
    rustc_apfloat::ieee::Single::from_u128(n as u128).value.to_bits() as u32
}

/// Bits of the square of the value given by bits.
pub open spec fn sq_bits(x: u32) -> u32 {
    mul_bits(x, x)
}

/// Left-to-right sum of the squared products of the first `n` entries, as
/// the union operator accumulates it: `0.0 + (q[0]*d[0])^2 + ...`.
pub open spec fn or_sum_bits(q: Seq<u32>, d: Seq<u32>, n: int) -> u32
    decreases n,
{
    if n <= 0 {
        0u32
    } else {
        add_bits(or_sum_bits(q, d, n - 1), sq_bits(mul_bits(q[n - 1], d[n - 1])))
    }
}

/// Left-to-right sum of the squared complements of the products of the first
/// `n` entries, as the intersection operator accumulates it:
/// `0.0 + (1 - q[0]*d[0])^2 + ...`.
pub open spec fn and_sum_bits(q: Seq<u32>, d: Seq<u32>, n: int) -> u32
    decreases n,
{
    if n <= 0 {
        0u32
    } else {
        add_bits(
            and_sum_bits(q, d, n - 1),
            sq_bits(sub_bits(ONE_BITS, mul_bits(q[n - 1], d[n - 1]))),
        )
    }
}

/// Score of the fuzzy union: the root of the mean of the squared products,
/// `sqrt(mean((q_i * d_i)^2))`.
pub open spec fn or_bits(q: Seq<u32>, d: Seq<u32>) -> u32 {
    sqrt_bits(div_bits(or_sum_bits(q, d, q.len() as int), of_usize_bits(q.len() as usize)))
}

/// Score of the fuzzy intersection: one minus the root of the mean of the
/// squared complements, `1 - sqrt(mean((1 - q_i * d_i)^2))`.
pub open spec fn and_bits(q: Seq<u32>, d: Seq<u32>) -> u32 {
    sub_bits(
        ONE_BITS,
        sqrt_bits(div_bits(and_sum_bits(q, d, q.len() as int), of_usize_bits(q.len() as usize))),
    )
}

/// Score of a document row against the query under the chosen operator.
pub open spec fn score_bits(q: Seq<u32>, d: Seq<u32>, op: Op) -> u32 {
    match op {
        Op::AND => and_bits(q, d),
        Op::OR => or_bits(q, d),
    }
}

/// Fuzzy union score of a document against the query, both as bit-pattern
/// weight vectors. Equal lengths are demanded of the caller's data, not of
/// the caller: a mismatch is the `InvalidInput` failure.
pub fn or(a: &Vec<u32>, b: &Vec<u32>) -> (r: Result<u32, RankError>)
    ensures
        a@.len() == b@.len() ==> r == Ok::<u32, RankError>(or_bits(a@, b@)),
        a@.len() != b@.len() ==> r == Err::<u32, RankError>(RankError::InvalidInput),
{
    if a.len() != b.len() {
        return Err(RankError::InvalidInput);
    }
    let n: usize = a.len();
    let mut acc: u32 = 0;
    let mut i: usize = 0;
    while i < n
        invariant
            n == a@.len() == b@.len(),
            0 <= i <= n,
            acc == or_sum_bits(a@, b@, i as int),
        decreases n - i,
    {
        let prod = ieee_mul(a[i], b[i]);
        acc = ieee_add(acc, ieee_mul(prod, prod));
        i = i + 1;
    }
    Ok(ieee_sqrt(ieee_div(acc, ieee_of_usize(n))))
}

/// Fuzzy intersection score of a document against the query, both as
/// bit-pattern weight vectors. A length mismatch is the `InvalidInput`
/// failure.
pub fn and(a: &Vec<u32>, b: &Vec<u32>) -> (r: Result<u32, RankError>)
    ensures
        a@.len() == b@.len() ==> r == Ok::<u32, RankError>(and_bits(a@, b@)),
        a@.len() != b@.len() ==> r == Err::<u32, RankError>(RankError::InvalidInput),
{
    if a.len() != b.len() {
        return Err(RankError::InvalidInput);
    }
    let n: usize = a.len();
    let mut acc: u32 = 0;
    let mut i: usize = 0;
    while i < n
        invariant
            n == a@.len() == b@.len(),
            0 <= i <= n,
            acc == and_sum_bits(a@, b@, i as int),
        decreases n - i,
    {
        let diff = ieee_sub(ONE_BITS, ieee_mul(a[i], b[i]));
        acc = ieee_add(acc, ieee_mul(diff, diff));
        i = i + 1;
    }
    Ok(ieee_sub(ONE_BITS, ieee_sqrt(ieee_div(acc, ieee_of_usize(n)))))
}

/// Score of one document row under the chosen operator, for callers that
/// have already checked the dimensions.
pub fn score_row(q: &Vec<u32>, row: &Vec<u32>, op: Op) -> (r: u32)
    requires
        q@.len() == row@.len(),
    ensures
        r == score_bits(q@, row@, op),
{
    let scored = match op {
        Op::AND => and(q, row),
        Op::OR => or(q, row),
    };
    match scored {
        Ok(s) => s,
        Err(_) => {
            proof {
                assert(false);
            }
            0
        },
    }
}

/// A total-order key for score bits: on everything the operators produce
/// short of NaN, `key_of(a) <= key_of(b)` holds exactly when the value
/// behind `a` is at most the value behind `b`. It is the IEEE 754 total
/// order, ordering bit patterns as `f32::total_cmp` does: the sign bit is
/// flipped on non-negative patterns and the whole word on negative ones.
pub open spec fn key_of(bits: u32) -> u32 {
    if bits >= 0x8000_0000 {
        (0xFFFF_FFFFu32 - bits) as u32
    } else {
        (bits + 0x8000_0000) as u32
    }
}

/// Key of the bits of positive zero: a score is admitted by the positive
/// filter exactly when its key lies strictly above this one.
pub open spec fn zero_key() -> u32 {
    key_of(0)
}

/// A positively scored document: its key lies strictly above the key of
/// zero. On non-NaN scores this is exactly `score > 0.0`.
pub open spec fn positive(bits: u32) -> bool {
    key_of(bits) > zero_key()
}

/// Two distinct bit patterns never share a key.
pub proof fn lemma_key_of_injective(a: u32, b: u32)
    ensures
        key_of(a) == key_of(b) ==> a == b,
{
}

/// Decides `positive`.
pub fn is_positive(bits: u32) -> (r: bool)
    ensures
        r == positive(bits),
{
    score_key(bits) > score_key(0)
}

/// Computes `key_of` on a score's bits.
pub fn score_key(bits: u32) -> (k: u32)
    ensures
        k == key_of(bits),
{
    if bits >= 0x8000_0000 {
        0xFFFF_FFFF - bits
    } else {
        bits + 0x8000_0000
    }
}

} // verus!
