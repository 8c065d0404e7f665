//! Scalar arithmetic in the prime field whose elements serve as machine words.
//!
//! Every scalar immediate in an instruction, and every value the compiled
//! program manipulates at run time, is a canonical field element: an integer
//! strictly below the modulus. The compiler itself only needs multiplication
//! (to turn an allocation's element count and element size into a byte count);
//! the execution model in `machine` also uses the addition spec.

use vstd::prelude::*;

verus! {

/// Order of the prime field: 2^31 - 2^27 + 1.
pub const FIELD_MODULUS: u32 = 2013265921;

/// A canonical field element is an integer strictly below the modulus.
pub open spec fn is_felt(x: u32) -> bool {
    x < FIELD_MODULUS
}

/// Field addition on canonical representatives.
pub open spec fn fadd(a: int, b: int) -> int {
    (a + b) % (FIELD_MODULUS as int)
}

/// Field subtraction on canonical representatives.
pub open spec fn fsub(a: int, b: int) -> int {
    (a - b) % (FIELD_MODULUS as int)
}

/// Field multiplication on canonical representatives.
pub open spec fn fmul(a: int, b: int) -> int {
    (a * b) % (FIELD_MODULUS as int)
}

/// Multiplies two canonical field elements.
pub fn felt_mul(a: u32, b: u32) -> (r: u32)
    requires
        is_felt(a),
        is_felt(b),
    ensures
        r == fmul(a as int, b as int),
        is_felt(r),
{
    proof {
        assert((a as int) * (b as int) < (FIELD_MODULUS as int) * (FIELD_MODULUS as int))
            by (nonlinear_arith)
            requires
                a < FIELD_MODULUS,
                b < FIELD_MODULUS,
        ;
    }
    let wide: u64 = (a as u64) * (b as u64);
    (wide % (FIELD_MODULUS as u64)) as u32
}

/// Adds two canonical field elements.
pub fn felt_add(a: u32, b: u32) -> (r: u32)
    requires
        is_felt(a),
        is_felt(b),
    ensures
        r == fadd(a as int, b as int),
        is_felt(r),
{
    let wide: u64 = (a as u64) + (b as u64);
    (wide % (FIELD_MODULUS as u64)) as u32
}

} // verus!
