//! Integer division with rounding up, and clamping to 32 bits.

use vstd::prelude::*;

verus! {

/// The quotient `a / b` rounded towards positive infinity.
pub open spec fn ceil_div(a: int, b: int) -> int
    recommends
        b > 0,
{
    if a % b == 0 {
        a / b
    } else {
        a / b + 1
    }
}

/// The smaller of two integers.
pub open spec fn min_of(a: int, b: int) -> int {
    if a <= b {
        a
    } else {
        b
    }
}

/// The value of `v` brought into the range of `u32`.
pub open spec fn clamp_u32(v: int) -> u32 {
    if v <= 0 {
        0u32
    } else if v >= u32::MAX {
        u32::MAX
    } else {
        v as u32
    }
}

/// `ceil_div(a, b)` is the least integer whose product with `b` reaches `a`.
pub proof fn lemma_ceil_div_bounds(a: int, b: int)
    requires
        b > 0,
    ensures
        (ceil_div(a, b) - 1) * b < a <= ceil_div(a, b) * b,
{
    let q = a / b;
    let r = a % b;
    assert(a == q * b + r && 0 <= r < b) by (nonlinear_arith)
        requires
            b > 0,
            q == a / b,
            r == a % b,
    ;
    assert((q + 1) * b == q * b + b) by (nonlinear_arith);
    assert((q - 1) * b == q * b - b) by (nonlinear_arith);
}

/// Rounding up a non-negative dividend gives no less than zero and no more
/// than the dividend.
pub proof fn lemma_ceil_div_range(a: int, b: int)
    requires
        a >= 0,
        b > 0,
    ensures
        0 <= ceil_div(a, b) <= a,
{
    let c = ceil_div(a, b);
    lemma_ceil_div_bounds(a, b);
    assert(0 <= c <= a) by (nonlinear_arith)
        requires
            a >= 0,
            b > 0,
            (c - 1) * b < a <= c * b,
    ;
}

/// `a / b` rounded up, for 32-bit operands.
pub fn ceil_div_u32(a: u32, b: u32) -> (q: u32)
    requires
        b > 0,
    ensures
        q == ceil_div(a as int, b as int),
{
    let whole: u32 = a / b;
    if a % b == 0 {
        whole
    } else {
        assert(whole < u32::MAX) by (nonlinear_arith)
            requires
                whole == a / b,
                b > 0,
                a % b != 0,
                a <= u32::MAX,
        ;
        whole + 1
    }
}

} // verus!
