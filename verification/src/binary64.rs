//! Double-precision arithmetic on integers.
//!
//! Slides report downsample factors as IEEE-754 doubles, and viewers map
//! tiles with products and quotients of doubles. To give the same pixels as
//! they do, the engine rounds as doubles round: every operation here gives
//! the double nearest to the exact result, a tie going to the even
//! significand. Only positive values that are neither subnormal nor too large
//! for a double occur, and zero.

use crate::arith::{ceil_div, clamp_u32, lemma_ceil_div_bounds};
use vstd::arithmetic::power2::{
    lemma2_to64, lemma2_to64_rest, lemma_pow2_adds, lemma_pow2_pos, lemma_pow2_strictly_increases,
    lemma_pow2_unfold, pow2,
};
use vstd::bits::lemma_u64_shl_is_mul;
use vstd::prelude::*;

verus! {

/// `2^52`: the least significand of a normal double.
pub const TWO_52: u64 = 0x10_0000_0000_0000;

/// `2^53`: the bound of the significands of doubles.
pub const TWO_53: u64 = 0x20_0000_0000_0000;

/// The value `m * 2^e`. A double other than zero has `2^52 <= m < 2^53`;
/// zero has `m == 0` and `e == 0`.
pub struct Dyadic {
    pub m: nat,
    pub e: int,
}

/// How often `p / q` is doubled until it is at least `2^52`.
pub open spec fn doublings(p: nat, q: nat) -> nat
    decreases
            (if p < TWO_52 * q {
                TWO_52 * q - p
            } else {
                0
            }),
{
    if 0 < p < TWO_52 * q {
        1 + doublings(2 * p, q)
    } else {
        0
    }
}

/// How often `p / q` is halved until it is less than `2^53`.
pub open spec fn halvings_of(p: nat, q: nat) -> nat
    decreases
            (if p >= TWO_53 * q {
                p - TWO_53 * q + 1
            } else {
                0
            }),
{
    if q > 0 && p >= TWO_53 * q {
        1 + halvings_of(p, 2 * q)
    } else {
        0
    }
}

/// The integer nearest to `p / q`; of two that are equally near, the even
/// one.
pub open spec fn nearest_even(p: nat, q: nat) -> nat
    recommends
        q > 0,
{
    let below = p / q;
    let rest = p % q;
    if 2 * rest < q {
        below
    } else if 2 * rest > q {
        below + 1
    } else if below % 2 == 0 {
        below
    } else {
        below + 1
    }
}

/// The double nearest to `(p / q) * 2^scale`: the quotient is doubled or
/// halved until it lies between `2^52` and `2^53`, rounded to an integer, and
/// the exponent makes up for the doubling and halving.
pub open spec fn nearest_double(p: nat, q: nat, scale: int) -> Dyadic
    recommends
        q > 0,
{
    if p == 0 {
        Dyadic { m: 0, e: 0 }
    } else {
        let up = doublings(p, q);
        let down = halvings_of(p, q);
        let m = nearest_even(p * pow2(up), q * pow2(down));
        let e = scale + down - up;
        if m == TWO_53 {
            Dyadic { m: TWO_52 as nat, e: e + 1 }
        } else {
            Dyadic { m, e }
        }
    }
}

impl Dyadic {
    /// The value is zero or has the significand of a normal double.
    pub open spec fn normal(self) -> bool {
        (self.m == 0 && self.e == 0) || TWO_52 <= self.m < TWO_53
    }

    /// The value rounded down to an integer.
    pub open spec fn floor(self) -> nat {
        if self.e >= 0 {
            self.m * pow2(self.e as nat)
        } else {
            self.m / pow2((-self.e) as nat)
        }
    }

    /// The value rounded up to an integer.
    pub open spec fn ceil(self) -> nat {
        if self.e >= 0 {
            self.m * pow2(self.e as nat)
        } else {
            ceil_div(self.m as int, pow2((-self.e) as nat) as int) as nat
        }
    }

    /// The double product of the value and the integer `v`.
    pub open spec fn times(self, v: nat) -> Dyadic {
        nearest_double(self.m * v, 1, self.e)
    }

    /// The double sum of the value and the integer `v`.
    pub open spec fn plus(self, v: nat) -> Dyadic {
        if self.e >= 0 {
            nearest_double(self.m * pow2(self.e as nat) + v, 1, 0)
        } else {
            nearest_double(self.m + v * pow2((-self.e) as nat), 1, self.e)
        }
    }

    /// The double quotient of the integer `total` and the value.
    pub open spec fn under(self, total: nat) -> Dyadic {
        nearest_double(total, self.m, -self.e)
    }

    /// The double product of the value and `v`, rounded up to an integer of
    /// 32 bits; zero where `v` is not positive.
    pub open spec fn ceil_times(self, v: int) -> u32 {
        if v <= 0 {
            0u32
        } else {
            clamp_u32(self.times(v as nat).ceil() as int)
        }
    }

    /// The double sum of `offset` and the double product of the value and
    /// `v`, rounded down to an integer of 32 bits.
    pub open spec fn floor_times_plus(self, v: nat, offset: nat) -> u32 {
        clamp_u32(self.times(v).plus(offset).floor() as int)
    }
}

/// The double quotient of two integers.
pub open spec fn double_ratio(a: nat, b: nat) -> Dyadic {
    nearest_double(a, b, 0)
}

/// The sign bit of a double's bit pattern.
pub open spec fn bits_sign(bits: u64) -> nat {
    (bits / 0x8000_0000_0000_0000) as nat
}

/// The exponent field of a double, the eleven bits below the sign.
pub open spec fn bits_exponent(bits: u64) -> nat {
    ((bits / 0x10_0000_0000_0000) % 0x800) as nat
}

/// The bit pattern is that of a positive normal double: not zero, not
/// subnormal, not infinite and not a NaN.
pub open spec fn bits_normal(bits: u64) -> bool {
    bits_sign(bits) == 0 && 0 < bits_exponent(bits) < 0x7ff
}

/// The value of a normal double: the low 52 bits under an implicit one, times
/// two to the exponent field less 1075.
pub open spec fn dyadic_of_bits(bits: u64) -> Dyadic {
    Dyadic {
        m: (TWO_52 + bits % 0x10_0000_0000_0000) as nat,
        e: bits_exponent(bits) - 1075,
    }
}

/// `nearest_even` rounds to the nearest integer: no integer is nearer to
/// `p / q` than it is, it is no more than half a unit away, and it is even
/// where `p / q` lies halfway between two integers.
pub proof fn lemma_nearest_even(p: nat, q: nat, other: int)
    requires
        q > 0,
    ensures
        ({
            let m = nearest_even(p, q);
            &&& -q <= 2 * (p - m * q) <= q
            &&& 2 * (p - m * q) == q || 2 * (p - m * q) == -q ==> m % 2 == 0
            &&& other != m ==> {
                ||| 2 * (p - other * q) >= q
                ||| 2 * (p - other * q) <= -q
            }
        }),
{
    let below = p / q;
    let rest = p % q;
    let m = nearest_even(p, q);
    assert(p == below * q + rest && 0 <= rest < q) by (nonlinear_arith)
        requires
            q > 0,
            below == p / q,
            rest == p % q,
    ;
    assert((below + 1) * q == below * q + q) by (nonlinear_arith);
    assert(p - m * q == rest || p - m * q == rest - q);
    if other != m {
        if other <= below {
            assert(other * q <= below * q) by (nonlinear_arith)
                requires
                    other <= below,
                    q > 0,
            ;
            if other < below {
                assert(other * q <= below * q - q) by (nonlinear_arith)
                    requires
                        other <= below - 1,
                        q > 0,
                ;
            }
        } else {
            assert(other * q >= below * q + q) by (nonlinear_arith)
                requires
                    other >= below + 1,
                    q > 0,
            ;
            if other > below + 1 {
                assert(other * q >= below * q + 2 * q) by (nonlinear_arith)
                    requires
                        other >= below + 2,
                        q > 0,
                ;
            }
        }
    }
}

/// Doubling brings a quotient below `2^52` to at least `2^52` and leaves it
/// below `2^53`.
proof fn lemma_doubled(p: nat, q: nat)
    requires
        p > 0,
        q > 0,
        p < TWO_53 * q,
    ensures
        TWO_52 * q <= p * pow2(doublings(p, q)) < TWO_53 * q,
        halvings_of(p, q) == 0,
    decreases
            (if p < TWO_52 * q {
                TWO_52 * q - p
            } else {
                0
            }),
{
    lemma2_to64();
    if p < TWO_52 * q {
        lemma_doubled(2 * p, q);
        let up = doublings(2 * p, q);
        lemma_pow2_unfold(up + 1);
        assert(p * pow2(up + 1) == (2 * p) * pow2(up)) by (nonlinear_arith)
            requires
                pow2(up + 1) == 2 * pow2(up),
        ;
    } else {
        assert(p * pow2(0) == p) by (nonlinear_arith)
            requires
                pow2(0) == 1,
        ;
    }
}

/// Halving brings a quotient of at least `2^53` below `2^53` and leaves it
/// at least `2^52`.
proof fn lemma_halved(p: nat, q: nat)
    requires
        q > 0,
        p >= TWO_52 * q,
    ensures
        TWO_52 * (q * pow2(halvings_of(p, q))) <= p < TWO_53 * (q * pow2(halvings_of(p, q))),
        doublings(p, q) == 0,
    decreases
            (if p >= TWO_53 * q {
                p - TWO_53 * q + 1
            } else {
                0
            }),
{
    lemma2_to64();
    if p >= TWO_53 * q {
        lemma_halved(p, 2 * q);
        let down = halvings_of(p, 2 * q);
        lemma_pow2_unfold(down + 1);
        assert(q * pow2(down + 1) == (2 * q) * pow2(down)) by (nonlinear_arith)
            requires
                pow2(down + 1) == 2 * pow2(down),
        ;
    } else {
        assert(q * pow2(0) == q) by (nonlinear_arith)
            requires
                pow2(0) == 1,
        ;
    }
}

/// The doubling and halving of `nearest_double` normalise: of the two only
/// one takes place, and after it the quotient lies between `2^52` and
/// `2^53`, so that rounding it to an integer leaves 53 significant bits.
pub proof fn lemma_normalised(p: nat, q: nat)
    requires
        p > 0,
        q > 0,
    ensures
        doublings(p, q) == 0 || halvings_of(p, q) == 0,
        TWO_52 * (q * pow2(halvings_of(p, q))) <= p * pow2(doublings(p, q)),
        p * pow2(doublings(p, q)) < TWO_53 * (q * pow2(halvings_of(p, q))),
        TWO_52 <= nearest_even(p * pow2(doublings(p, q)), q * pow2(halvings_of(p, q))) <= TWO_53,
        nearest_double(p, q, 0).normal(),
{
    lemma2_to64();
    if p < TWO_52 * q {
        lemma_doubled(p, q);
        assert(q * pow2(0) == q) by (nonlinear_arith)
            requires
                pow2(0) == 1,
        ;
    } else {
        lemma_halved(p, q);
        assert(p * pow2(0) == p) by (nonlinear_arith)
            requires
                pow2(0) == 1,
        ;
    }
    let num = p * pow2(doublings(p, q));
    let den = q * pow2(halvings_of(p, q));
    lemma_pow2_pos(halvings_of(p, q));
    assert(den > 0) by (nonlinear_arith)
        requires
            den == q * pow2(halvings_of(p, q)),
            q > 0,
            pow2(halvings_of(p, q)) > 0,
    ;
    assert(TWO_52 <= num / den < TWO_53) by (nonlinear_arith)
        requires
            den > 0,
            TWO_52 * den <= num < TWO_53 * den,
    ;
}

/// A quotient below `2^(53 + j)` is halved at most `j` times.
pub proof fn lemma_halvings_bound(p: nat, q: nat, j: nat)
    requires
        q > 0,
        p < TWO_53 * pow2(j) * q,
    ensures
        halvings_of(p, q) <= j,
    decreases j,
{
    lemma2_to64();
    if p >= TWO_53 * q {
        if j == 0 {
            assert(false) by (nonlinear_arith)
                requires
                    p >= TWO_53 * q,
                    p < TWO_53 * 1 * q,
            ;
        } else {
            lemma_pow2_unfold(j);
            assert(TWO_53 * pow2(j) * q == TWO_53 * pow2((j - 1) as nat) * (2 * q))
                by (nonlinear_arith)
                requires
                    pow2(j) == 2 * pow2((j - 1) as nat),
            ;
            lemma_halvings_bound(p, 2 * q, (j - 1) as nat);
        }
    }
}

/// A quotient that is a significand times a power of two is halved as often
/// as the power says, and rounds to the significand.
proof fn lemma_exact_halved(p: nat, q: nat, m: nat, b: nat)
    requires
        q > 0,
        TWO_52 <= m < TWO_53,
        p == m * q * pow2(b),
    ensures
        doublings(p, q) == 0,
        halvings_of(p, q) == b,
        nearest_even(p, q * pow2(b)) == m,
    decreases b,
{
    lemma2_to64();
    lemma_pow2_pos(b);
    let unit = pow2(b);
    let d = q * unit;
    assert(d > 0 && p == m * d && p >= TWO_52 * q) by (nonlinear_arith)
        requires
            q > 0,
            unit > 0,
            d == q * unit,
            p == m * q * unit,
            m >= TWO_52,
    ;
    assert(p / d == m && p % d == 0) by (nonlinear_arith)
        requires
            d > 0,
            p == m * d,
    ;
    if b == 0 {
        assert(p < TWO_53 * q) by (nonlinear_arith)
            requires
                p == m * q * unit,
                unit == 1,
                m < TWO_53,
                q > 0,
        ;
    } else {
        lemma_pow2_unfold(b);
        let half = pow2((b - 1) as nat);
        lemma_pow2_pos((b - 1) as nat);
        assert(p >= TWO_53 * q && p == m * (2 * q) * half) by (nonlinear_arith)
            requires
                p == m * q * unit,
                unit == 2 * half,
                half >= 1,
                m >= TWO_52,
                q > 0,
                TWO_53 == 2 * TWO_52,
        ;
        lemma_exact_halved(p, 2 * q, m, (b - 1) as nat);
    }
}

/// A quotient that is a significand over a power of two is doubled as often
/// as the power says, and rounds to the significand.
proof fn lemma_exact_doubled(p: nat, q: nat, m: nat, a: nat)
    requires
        q > 0,
        TWO_52 <= m < TWO_53,
        p * pow2(a) == m * q,
    ensures
        doublings(p, q) == a,
        halvings_of(p, q) == 0,
        nearest_even(p * pow2(a), q) == m,
    decreases a,
{
    lemma2_to64();
    lemma_pow2_pos(a);
    let unit = pow2(a);
    let n = p * unit;
    assert(n / q == m && n % q == 0) by (nonlinear_arith)
        requires
            q > 0,
            n == m * q,
    ;
    assert(p > 0 && p < TWO_53 * q) by (nonlinear_arith)
        requires
            p * unit == m * q,
            unit >= 1,
            TWO_52 <= m < TWO_53,
            q > 0,
    ;
    if a == 0 {
        assert(p >= TWO_52 * q) by (nonlinear_arith)
            requires
                p * unit == m * q,
                unit == 1,
                m >= TWO_52,
                q > 0,
        ;
    } else {
        lemma_pow2_unfold(a);
        let half = pow2((a - 1) as nat);
        lemma_pow2_pos((a - 1) as nat);
        assert(p < TWO_52 * q && (2 * p) * half == m * q) by (nonlinear_arith)
            requires
                p * unit == m * q,
                unit == 2 * half,
                half >= 1,
                m < TWO_53,
                q > 0,
                TWO_53 == 2 * TWO_52,
        ;
        lemma_exact_doubled(2 * p, q, m, (a - 1) as nat);
    }
}

/// Rounding leaves a double as it is: where `p / q` is the significand `m`
/// times `2^b` over `2^a`, the double nearest to `(p / q) * 2^scale` has that
/// significand and the exponent `scale + b - a`.
pub proof fn lemma_nearest_exact(p: nat, q: nat, scale: int, m: nat, a: nat, b: nat)
    requires
        q > 0,
        TWO_52 <= m < TWO_53,
        p * pow2(a) == m * q * pow2(b),
        a == 0 || b == 0,
    ensures
        nearest_double(p, q, scale) == (Dyadic { m, e: scale + b - a }),
{
    lemma2_to64();
    lemma_pow2_pos(b);
    assert(p > 0) by (nonlinear_arith)
        requires
            p * pow2(a) == m * q * pow2(b),
            m > 0,
            q > 0,
            pow2(b) > 0,
    ;
    if a == 0 {
        assert(p == m * q * pow2(b)) by (nonlinear_arith)
            requires
                p * pow2(a) == m * q * pow2(b),
                pow2(a) == 1,
        ;
        lemma_exact_halved(p, q, m, b);
        assert(p * pow2(0) == p) by (nonlinear_arith)
            requires
                pow2(0) == 1,
        ;
    } else {
        assert(p * pow2(a) == m * q) by (nonlinear_arith)
            requires
                p * pow2(a) == m * q * pow2(b),
                pow2(b) == 1,
        ;
        lemma_exact_doubled(p, q, m, a);
        assert(q * pow2(0) == q) by (nonlinear_arith)
            requires
                pow2(0) == 1,
        ;
    }
}

/// The position of the highest bit of `k`: the binary logarithm rounded
/// down, and zero for zero.
pub open spec fn ilog2(k: nat) -> nat
    decreases k,
{
    if k < 2 {
        0
    } else {
        1 + ilog2(k / 2)
    }
}

/// The double of the integer `k`.
pub open spec fn double_of(k: nat) -> Dyadic {
    nearest_double(k, 1, 0)
}

/// `k` lies between two to its binary logarithm and twice that.
pub proof fn lemma_ilog2(k: nat)
    requires
        k > 0,
    ensures
        pow2(ilog2(k)) <= k < pow2(ilog2(k) + 1),
    decreases k,
{
    lemma2_to64();
    if k >= 2 {
        lemma_ilog2(k / 2);
        lemma_pow2_unfold(ilog2(k));
        lemma_pow2_unfold(ilog2(k) + 1);
    }
}

/// The binary logarithm does not decrease with its argument.
pub proof fn lemma_ilog2_ordered(a: nat, b: nat)
    requires
        0 < a <= b,
    ensures
        ilog2(a) <= ilog2(b),
{
    lemma_ilog2(a);
    lemma_ilog2(b);
    if ilog2(a) > ilog2(b) {
        if ilog2(a) > ilog2(b) + 1 {
            lemma_pow2_strictly_increases(ilog2(b) + 1, ilog2(a));
        }
    }
}

/// An integer below `2^53` is a double: its double has the integer as its
/// value, with the highest bit of the integer as the highest bit of the
/// significand.
pub proof fn lemma_double_of_integer(k: nat)
    requires
        0 < k < TWO_53,
    ensures
        ilog2(k) <= 52,
        double_of(k) == (Dyadic { m: k * pow2((52 - ilog2(k)) as nat), e: ilog2(k) - 52 }),
        double_of(k).normal(),
        double_of(k).floor() == k,
        double_of(k).ceil() == k,
{
    lemma2_to64();
    lemma2_to64_rest();
    lemma_ilog2(k);
    let log = ilog2(k);
    if log > 52 {
        if log > 53 {
            lemma_pow2_strictly_increases(53, log);
        }
        lemma_pow2_adds(52, 1);
    }
    let room = (52 - log) as nat;
    let unit = pow2(room);
    let m = k * unit;
    lemma_pow2_pos(room);
    lemma_pow2_adds(log, room);
    lemma_pow2_adds(log + 1, room);
    lemma_pow2_adds(52, 1);
    assert(TWO_52 <= m < TWO_53) by (nonlinear_arith)
        requires
            m == k * unit,
            unit > 0,
            pow2(log) <= k < pow2(log + 1),
            pow2(log) * unit == TWO_52,
            pow2(log + 1) * unit == TWO_53,
    ;
    assert(k * unit == m * 1 * pow2(0)) by (nonlinear_arith)
        requires
            m == k * unit,
            pow2(0) == 1,
    ;
    lemma_nearest_exact(k, 1, 0, m, room, 0);
    assert(m as int / unit as int == k && m as int % unit as int == 0) by (nonlinear_arith)
        requires
            m == k * unit,
            unit > 0,
    ;
    if room == 0 {
        assert(m * pow2(0) == k) by (nonlinear_arith)
            requires
                m == k * unit,
                unit == 1,
                pow2(0) == 1,
        ;
    }
}

/// The double product of two integers is their product, where that is below
/// `2^53`.
pub proof fn lemma_times_integers(k: nat, v: nat)
    requires
        0 < k,
        0 < v,
        k * v < TWO_53,
    ensures
        double_of(k).times(v) == double_of(k * v),
{
    assert(k <= k * v) by (nonlinear_arith)
        requires
            0 < k,
            0 < v,
    ;
    lemma_double_of_integer(k);
    lemma_double_of_integer(k * v);
    lemma_ilog2_ordered(k, k * v);
    lemma_scaled_integer(k, k * v, v);
}

/// The double sum of two integers is their sum, where that is below `2^53`.
pub proof fn lemma_plus_integers(k: nat, v: nat)
    requires
        k + v < TWO_53,
    ensures
        double_of(k).plus(v) == double_of(k + v),
{
    lemma2_to64();
    if k == 0 {
        assert(0nat * pow2(0) + v == v) by (nonlinear_arith);
    } else {
        lemma_double_of_integer(k);
        lemma_double_of_integer(k + v);
        lemma_ilog2_ordered(k, k + v);
        let room = (52 - ilog2(k)) as nat;
        let m = k * pow2(room);
        if room == 0 {
            assert(m * pow2(0) + v == k + v) by (nonlinear_arith)
                requires
                    m == k * pow2(room),
                    room == 0,
                    pow2(0) == 1,
            ;
        } else {
            assert(m + v * pow2(room) == (k + v) * pow2(room)) by (nonlinear_arith)
                requires
                    m == k * pow2(room),
            ;
            lemma_rescaled(k, k + v);
        }
    }
}

/// The double quotient of a multiple of an integer and that integer is the
/// other factor, where the multiple is below `2^53`.
pub proof fn lemma_under_integers(k: nat, j: nat)
    requires
        0 < k,
        0 < j,
        k * j < TWO_53,
    ensures
        double_of(k).under(k * j) == double_of(j),
{
    lemma2_to64();
    assert(k <= k * j && j <= k * j) by (nonlinear_arith)
        requires
            0 < k,
            0 < j,
    ;
    lemma_double_of_integer(k);
    lemma_double_of_integer(j);
    let room_k = (52 - ilog2(k)) as nat;
    let room_j = (52 - ilog2(j)) as nat;
    let q = k * pow2(room_k);
    let m = j * pow2(room_j);
    lemma_pow2_adds(room_j, room_k);
    assert((k * j) * pow2(room_j + room_k) == m * q * pow2(0)) by (nonlinear_arith)
        requires
            q == k * pow2(room_k),
            m == j * pow2(room_j),
            pow2(room_j + room_k) == pow2(room_j) * pow2(room_k),
            pow2(0) == 1,
    ;
    lemma_nearest_exact(k * j, q, room_k as int, m, room_j + room_k, 0);
}

/// An integer times the power of two that brings a smaller integer to 53
/// bits, taken with the exponent of that smaller integer, is the double of
/// the integer.
proof fn lemma_rescaled(small: nat, large: nat)
    requires
        0 < small <= large < TWO_53,
    ensures
        nearest_double(
            large * pow2((52 - ilog2(small)) as nat),
            1,
            ilog2(small) - 52,
        ) == double_of(large),
{
    lemma2_to64();
    lemma_double_of_integer(small);
    lemma_double_of_integer(large);
    lemma_ilog2_ordered(small, large);
    let room_small = (52 - ilog2(small)) as nat;
    let room_large = (52 - ilog2(large)) as nat;
    let gain = (ilog2(large) - ilog2(small)) as nat;
    let m = large * pow2(room_large);
    lemma_pow2_adds(room_large, gain);
    assert((large * pow2(room_small)) * pow2(0) == m * 1 * pow2(gain)) by (nonlinear_arith)
        requires
            m == large * pow2(room_large),
            pow2(room_small) == pow2(room_large) * pow2(gain),
            pow2(0) == 1,
    ;
    lemma_nearest_exact(large * pow2(room_small), 1, ilog2(small) - 52, m, 0, gain);
}

/// The product of the significand of `small` and `v` is `large` at the
/// scale of `small`.
proof fn lemma_scaled_integer(small: nat, large: nat, v: nat)
    requires
        0 < small,
        large == small * v,
        0 < v,
        large < TWO_53,
    ensures
        double_of(small).times(v) == double_of(large),
{
    assert(small <= large) by (nonlinear_arith)
        requires
            large == small * v,
            0 < small,
            0 < v,
    ;
    lemma_double_of_integer(small);
    let room = pow2((52 - ilog2(small)) as nat);
    assert((small * room) * v == large * room) by (nonlinear_arith)
        requires
            large == small * v,
    ;
    lemma_rescaled(small, large);
}

/// A double held as its significand and exponent.
#[derive(Clone, Copy, Debug)]
pub struct Double {
    m: u64,
    e: i32,
}

impl View for Double {
    type V = Dyadic;

    closed spec fn view(&self) -> Dyadic {
        Dyadic { m: self.m as nat, e: self.e as int }
    }
}

impl Double {
    #[verifier::type_invariant]
    spec fn inv(self) -> bool {
        &&& (self.m == 0 && self.e == 0) || TWO_52 <= self.m < TWO_53
        &&& -2000 <= self.e <= 2000
    }

    /// The double nearest to `(p / q) * 2^scale`.
    pub fn nearest(p: u128, q: u128, scale: i32) -> (out: Double)
        requires
            0 < q <= 0x1_0000_0000_0000_0000,
            p < 0x8000_0000_0000_0000_0000_0000_0000_0000,
            -1000 <= scale <= 1000,
        ensures
            out@ == nearest_double(p as nat, q as nat, scale as int),
            out@.normal(),
            out@.m == 0 <==> p == 0,
            p > 0 ==> scale - 116 <= out@.e <= scale + 76,
    {
        if p == 0 {
            return Double { m: 0, e: 0 };
        }
        let mut num: u128 = p;
        let mut e: i32 = scale;
        let ghost mut up: nat = 0;
        proof {
            lemma_pow2_large();
            lemma2_to64();
            assert(p * pow2(0) == p) by (nonlinear_arith)
                requires
                    pow2(0) == 1,
            ;
        }
        while num < 0x10_0000_0000_0000 * q
            invariant
                0 < q <= 0x1_0000_0000_0000_0000,
                0 < num < 0x8000_0000_0000_0000_0000_0000_0000_0000,
                num == p * pow2(up),
                doublings(p as nat, q as nat) == up + doublings(num as nat, q as nat),
                -1000 <= scale <= 1000,
                e == scale - up,
                up <= 116,
                pow2(up) <= num,
                up > 0 ==> num < 0x20_0000_0000_0000 * q,
            decreases 116 - up,
        {
            proof {
                lemma_pow2_large();
                if up >= 116 {
                    if up > 116 {
                        lemma_pow2_strictly_increases(116, up);
                    }
                    assert(false);
                }
                lemma_pow2_unfold(up + 1);
                assert(2 * num == p * pow2(up + 1)) by (nonlinear_arith)
                    requires
                        num == p * pow2(up),
                        pow2(up + 1) == 2 * pow2(up),
                ;
                up = up + 1;
            }
            num = 2 * num;
            e = e - 1;
        }
        let mut den: u128 = q;
        let ghost mut down: nat = 0;
        proof {
            lemma2_to64();
            lemma_pow2_pos(up);
            assert(q * pow2(0) == q) by (nonlinear_arith)
                requires
                    pow2(0) == 1,
            ;
            if up > 0 {
                assert(p <= num) by (nonlinear_arith)
                    requires
                        num == p * pow2(up),
                        pow2(up) >= 1,
                ;
            }
        }
        while num >= 0x20_0000_0000_0000 * den
            invariant
                0 < q <= den,
                0x10_0000_0000_0000 * den <= num < 0x8000_0000_0000_0000_0000_0000_0000_0000,
                den == q * pow2(down),
                halvings_of(p as nat, q as nat) == down + halvings_of(num as nat, den as nat),
                up > 0 ==> num < 0x20_0000_0000_0000 * q,
                -1000 <= scale <= 1000,
                e == scale - up + down,
                up <= 116,
                down <= 75,
                pow2(down) <= den,
            decreases 75 - down,
        {
            proof {
                lemma_pow2_large();
                if down >= 75 {
                    if down > 75 {
                        lemma_pow2_strictly_increases(75, down);
                    }
                    assert(false);
                }
                lemma_pow2_unfold(down + 1);
                assert(2 * den == q * pow2(down + 1)) by (nonlinear_arith)
                    requires
                        den == q * pow2(down),
                        pow2(down + 1) == 2 * pow2(down),
                ;
                down = down + 1;
            }
            den = 2 * den;
            e = e + 1;
        }
        let below: u128 = num / den;
        let rest: u128 = num % den;
        assert(0x10_0000_0000_0000 <= below < 0x20_0000_0000_0000) by (nonlinear_arith)
            requires
                below == num / den,
                den > 0,
                0x10_0000_0000_0000 * den <= num < 0x20_0000_0000_0000 * den,
        ;
        let m: u128 = if 2 * rest < den {
            below
        } else if 2 * rest > den {
            below + 1
        } else if below % 2 == 0 {
            below
        } else {
            below + 1
        };
        assert(m == nearest_even(num as nat, den as nat));
        if m == 0x20_0000_0000_0000 {
            Double { m: 0x10_0000_0000_0000, e: e + 1 }
        } else {
            Double { m: m as u64, e }
        }
    }

    /// The double with the bit pattern `bits`, if it is positive and normal.
    pub fn from_bits(bits: u64) -> (out: Option<Double>)
        ensures
            out.is_some() <==> bits_normal(bits),
            out matches Some(value) ==> value@ == dyadic_of_bits(bits) && value@.normal()
                && value@.m > 0,
    {
        let sign: u64 = bits >> 63;
        let field: u64 = (bits >> 52) & 0x7ff;
        let low: u64 = bits & 0xf_ffff_ffff_ffff;
        proof {
            assert(bits >> 63 == bits / 0x8000_0000_0000_0000) by (bit_vector);
            assert((bits >> 52) & 0x7ff == (bits / 0x10_0000_0000_0000) % 0x800) by (bit_vector);
            assert(bits & 0xf_ffff_ffff_ffff == bits % 0x10_0000_0000_0000) by (bit_vector);
        }
        if sign != 0 || field == 0 || field == 0x7ff {
            None
        } else {
            Some(Double { m: low + 0x10_0000_0000_0000, e: field as i32 - 1075 })
        }
    }

    /// The exponent of the value.
    pub fn exponent(&self) -> (out: i32)
        ensures
            out == self@.e,
    {
        self.e
    }

    /// The double product of the value and `v`.
    pub fn times(&self, v: u32) -> (out: Double)
        requires
            -800 <= self@.e <= 800,
        ensures
            out@ == self@.times(v as nat),
            out@.normal(),
            out@.m == 0 <==> self@.m == 0 || v == 0,
            out@.m > 0 ==> self@.e <= out@.e <= self@.e + 33,
    {
        proof {
            use_type_invariant(self);
            assert(self.m * v <= 0x20_0000_0000_0000 * 0xffff_ffff) by (nonlinear_arith)
                requires
                    self.m <= 0x20_0000_0000_0000,
                    v <= 0xffff_ffff,
            ;
        }
        let product: u128 = self.m as u128 * v as u128;
        proof {
            if product > 0 {
                assert(self.m > 0 && v > 0) by (nonlinear_arith)
                    requires
                        product == self.m * v,
                        product > 0,
                ;
                assert(product >= TWO_52 * 1) by (nonlinear_arith)
                    requires
                        product == self.m * v,
                        self.m >= TWO_52,
                        v >= 1,
                ;
                lemma2_to64();
                assert(product < TWO_53 * pow2(32) * 1) by (nonlinear_arith)
                    requires
                        product == self.m * v,
                        self.m < TWO_53,
                        v < pow2(32),
                ;
                lemma_halvings_bound(product as nat, 1, 32);
                assert(doublings(product as nat, 1) == 0);
            } else {
                assert(self.m == 0 || v == 0) by (nonlinear_arith)
                    requires
                        self.m * v == 0,
                ;
            }
        }
        Double::nearest(product, 1, self.e)
    }

    /// The double sum of the value and `v`.
    pub fn plus(&self, v: u32) -> (out: Double)
        requires
            -63 <= self@.e <= 44,
        ensures
            out@ == self@.plus(v as nat),
            out@.normal(),
    {
        proof {
            use_type_invariant(self);
            lemma2_to64();
            lemma2_to64_rest();
        }
        if self.e >= 0 {
            let shift: u64 = self.e as u64;
            proof {
                if shift < 44 {
                    lemma_pow2_strictly_increases(shift as nat, 44);
                }
                lemma_pow2_pos(shift as nat);
                lemma_u64_shl_is_mul(1, shift);
                assert(self.m * pow2(shift as nat) <= 0x20_0000_0000_0000 * 0x1000_0000_0000)
                    by (nonlinear_arith)
                    requires
                        self.m <= 0x20_0000_0000_0000,
                        pow2(shift as nat) <= 0x1000_0000_0000,
                ;
            }
            let unit: u128 = (1u64 << shift) as u128;
            Double::nearest(self.m as u128 * unit + v as u128, 1, 0)
        } else {
            let shift: u64 = (-self.e) as u64;
            proof {
                if shift < 63 {
                    lemma_pow2_strictly_increases(shift as nat, 63);
                }
                lemma_pow2_pos(shift as nat);
                lemma_u64_shl_is_mul(1, shift);
                assert(v * pow2(shift as nat) <= 0xffff_ffff * 0x8000_0000_0000_0000)
                    by (nonlinear_arith)
                    requires
                        v <= 0xffff_ffff,
                        pow2(shift as nat) <= 0x8000_0000_0000_0000,
                ;
            }
            let unit: u128 = (1u64 << shift) as u128;
            Double::nearest(self.m as u128 + v as u128 * unit, 1, self.e)
        }
    }

    /// The double quotient of `total` and the value.
    pub fn under(&self, total: u64) -> (out: Double)
        requires
            self@.m > 0,
            -800 <= self@.e <= 800,
        ensures
            out@ == self@.under(total as nat),
            out@.normal(),
            out@.m > 0 ==> -self@.e - 116 <= out@.e <= -self@.e + 76,
    {
        proof {
            use_type_invariant(self);
        }
        Double::nearest(total as u128, self.m as u128, -self.e)
    }

    /// The double quotient of two integers.
    pub fn ratio(a: u32, b: u32) -> (out: Double)
        requires
            b > 0,
        ensures
            out@ == double_ratio(a as nat, b as nat),
            out@.normal(),
            -116 <= out@.e <= 76,
    {
        Double::nearest(a as u128, b as u128, 0)
    }

    /// The value rounded down to an integer and brought into 32 bits.
    pub fn floor_u32(&self) -> (out: u32)
        ensures
            out == clamp_u32(self@.floor() as int),
    {
        self.to_u32(false)
    }

    /// The value rounded up to an integer and brought into 32 bits.
    pub fn ceil_u32(&self) -> (out: u32)
        ensures
            out == clamp_u32(self@.ceil() as int),
    {
        self.to_u32(true)
    }

    /// The value as an integer of 32 bits, rounded up or down.
    fn to_u32(&self, up: bool) -> (out: u32)
        ensures
            out == clamp_u32(
                if up {
                    self@.ceil() as int
                } else {
                    self@.floor() as int
                },
            ),
    {
        proof {
            use_type_invariant(self);
            lemma2_to64();
            lemma2_to64_rest();
        }
        if self.m == 0 {
            proof {
                lemma_pow2_pos(0);
                assert(0nat * pow2(0) == 0) by (nonlinear_arith);
            }
            0
        } else if self.e >= 0 {
            proof {
                let unit = pow2(self.e as nat);
                lemma_pow2_pos(self.e as nat);
                assert(self.m * unit >= 0x10_0000_0000_0000) by (nonlinear_arith)
                    requires
                        self.m >= 0x10_0000_0000_0000,
                        unit >= 1,
                ;
            }
            u32::MAX
        } else if self.e > -21 {
            proof {
                let shift = (-self.e) as nat;
                let unit = pow2(shift);
                lemma_pow2_pos(shift);
                if shift < 20 {
                    lemma_pow2_strictly_increases(shift, 20);
                }
                assert(self.m as int / unit as int >= 0x1_0000_0000) by (nonlinear_arith)
                    requires
                        self.m >= 0x10_0000_0000_0000,
                        0 < unit <= 0x10_0000,
                ;
                lemma_ceil_div_bounds(self.m as int, unit as int);
                let c = ceil_div(self.m as int, unit as int);
                assert(c >= 0x1_0000_0000) by (nonlinear_arith)
                    requires
                        self.m <= c * unit,
                        self.m >= 0x10_0000_0000_0000,
                        0 < unit <= 0x10_0000,
                ;
            }
            u32::MAX
        } else if self.e < -53 {
            proof {
                let shift = (-self.e) as nat;
                let unit = pow2(shift);
                lemma_pow2_strictly_increases(53, shift);
                assert(self.m as int / unit as int == 0 && self.m as int % unit as int == self.m)
                    by (nonlinear_arith)
                    requires
                        0 < self.m < unit,
                ;
            }
            if up {
                1
            } else {
                0
            }
        } else {
            let shift: u64 = (-self.e) as u64;
            proof {
                lemma_pow2_pos(shift as nat);
                if shift < 53 {
                    lemma_pow2_strictly_increases(shift as nat, 53);
                }
                if shift > 21 {
                    lemma_pow2_strictly_increases(21, shift as nat);
                }
                lemma_u64_shl_is_mul(1, shift);
            }
            let unit: u64 = 1u64 << shift;
            let whole: u64 = self.m / unit;
            assert(whole < 0x1_0000_0000) by (nonlinear_arith)
                requires
                    whole == self.m / unit,
                    self.m < 0x20_0000_0000_0000,
                    unit >= 0x20_0000,
            ;
            if up && self.m % unit != 0 {
                clamp_u64(whole + 1)
            } else {
                clamp_u64(whole)
            }
        }
    }
}

/// Brings a 64-bit value into the range of `u32`.
fn clamp_u64(v: u64) -> (out: u32)
    ensures
        out == clamp_u32(v as int),
{
    if v >= 0xffff_ffff {
        u32::MAX
    } else {
        v as u32
    }
}

/// The powers of two that bound what `Double::nearest` holds.
proof fn lemma_pow2_large()
    ensures
        pow2(75) == 0x800_0000_0000_0000_0000,
        pow2(116) == 0x10_0000_0000_0000_0000_0000_0000_0000,
{
    lemma2_to64();
    lemma2_to64_rest();
    lemma_pow2_adds(64, 11);
    lemma_pow2_adds(64, 52);
}

} // verus!
