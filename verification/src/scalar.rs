//! The scalar arithmetic of matrix entries: IEEE-754 double addition and
//! multiplication, performed on 64-bit patterns.
//!
//! An entry is carried as the bit pattern of a double. The two operations are
//! named by uninterpreted spec functions: each result is a function of the
//! operand patterns alone, but writing out IEEE-754 arithmetic would take
//! pages, so contracts refer to the names instead. The executable side calls
//! `rustc_apfloat`, a software implementation of IEEE-754 binary64 that works
//! directly on bit patterns.

use rustc_apfloat::Float;
use vstd::prelude::*;

verus! {

/// The bit pattern of the IEEE-754 double sum of the doubles with patterns
/// `a` and `b` (round to nearest, ties to even).
pub uninterp spec fn dbl_add_bits(a: u64, b: u64) -> u64;

/// The bit pattern of the IEEE-754 double product of the doubles with
/// patterns `a` and `b` (round to nearest, ties to even).
pub uninterp spec fn dbl_mul_bits(a: u64, b: u64) -> u64;

/// Relies on `rustc_apfloat::ieee::Double`'s `Add`: IEEE-754 binary64
/// addition with round-to-nearest-even, a deterministic function of the two
/// operand bit patterns.
#[verifier::external_body]
pub(crate) fn dbl_add(a: u64, b: u64) -> (r: u64)
    ensures
        r == dbl_add_bits(a, b),
{
    let x = rustc_apfloat::ieee::Double::from_bits(a as u128);
    let y = rustc_apfloat::ieee::Double::from_bits(b as u128);
    (x + y).value.to_bits() as u64
}

/// Relies on `rustc_apfloat::ieee::Double`'s `Mul`: IEEE-754 binary64
/// multiplication with round-to-nearest-even, a deterministic function of the
/// two operand bit patterns.
#[verifier::external_body]
pub(crate) fn dbl_mul(a: u64, b: u64) -> (r: u64)
    ensures
        r == dbl_mul_bits(a, b),
{
    let x = rustc_apfloat::ieee::Double::from_bits(a as u128);
    let y = rustc_apfloat::ieee::Double::from_bits(b as u128);
    (x * y).value.to_bits() as u64
}

} // verus!
