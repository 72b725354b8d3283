//! Downsample factors, and the ratios that map a Deep Zoom level to a native
//! level.

use crate::binary64::{
    bits_exponent, bits_normal, double_ratio, dyadic_of_bits, Double, Dyadic,
};
use vstd::prelude::*;

verus! {

/// The doubles that a `Downsample` can hold: positive and normal, at least
/// `2^-11` and below `2^64`.
pub open spec fn bits_representable(bits: u64) -> bool {
    bits_normal(bits) && 1012 <= bits_exponent(bits) <= 1086
}

/// The downsample factor of a native level relative to level 0: a double.
#[derive(Clone, Copy, Debug)]
pub struct Downsample {
    value: Double,
}

impl View for Downsample {
    type V = Dyadic;

    closed spec fn view(&self) -> Dyadic {
        self.value@
    }
}

impl Downsample {
    #[verifier::type_invariant]
    spec fn inv(self) -> bool {
        &&& self.value@.normal()
        &&& self.value@.m > 0
        &&& -63 <= self.value@.e <= 11
    }

    /// The factor whose double has the bit pattern `bits`; `None` for a
    /// double that is negative, zero, subnormal, not finite, below `2^-11`
    /// or at least `2^64`.
    pub fn from_bits(bits: u64) -> (out: Option<Downsample>)
        ensures
            out.is_some() <==> bits_representable(bits),
            out matches Some(d) ==> d@ == dyadic_of_bits(bits),
    {
        match Double::from_bits(bits) {
            Some(value) => {
                let e = value.exponent();
                if -63 <= e && e <= 11 {
                    Some(Downsample { value })
                } else {
                    None
                }
            },
            None => None,
        }
    }

    /// The double nearest to `num / den`, as a factor; `None` where either
    /// is zero or the quotient is below `2^-11`.
    pub fn from_ratio(num: u32, den: u32) -> (out: Option<Downsample>)
        ensures
            out.is_some() <==> num > 0 && den > 0 && double_ratio(num as nat, den as nat).e >= -63,
            out matches Some(d) ==> d@ == double_ratio(num as nat, den as nat),
    {
        if num == 0 || den == 0 {
            return None;
        }
        let value = Double::ratio(num, den);
        proof {
            lemma_ratio_below_two_64(num, den);
        }
        if value.exponent() >= -63 {
            Some(Downsample { value })
        } else {
            None
        }
    }

    /// The double sum of `offset` and the double product of the factor and
    /// `v`, with the fraction of a unit dropped, brought into 32 bits.
    pub fn floor_times_plus(&self, v: u32, offset: u32) -> (out: u32)
        ensures
            out == self@.floor_times_plus(v as nat, offset as nat),
    {
        proof {
            use_type_invariant(self);
        }
        self.value.times(v).plus(offset).floor_u32()
    }
}

/// The quotient of two 32-bit integers is a double with an exponent of at
/// most 11.
proof fn lemma_ratio_below_two_64(num: u32, den: u32)
    requires
        num > 0,
        den > 0,
    ensures
        double_ratio(num as nat, den as nat).e <= 11,
{
    vstd::arithmetic::power2::lemma2_to64();
    assert(num < crate::binary64::TWO_53 * vstd::arithmetic::power2::pow2(0) * den)
        by (nonlinear_arith)
        requires
            num <= 0xffff_ffff,
            den >= 1,
            vstd::arithmetic::power2::pow2(0) == 1,
            crate::binary64::TWO_53 == 0x20_0000_0000_0000,
    ;
    crate::binary64::lemma_halvings_bound(num as nat, den as nat, 0);
}

/// The ratio between the total downsample of a Deep Zoom level and the
/// downsample factor of the native level chosen for it: the number of native
/// pixels that one pixel of the Deep Zoom level covers, as a double.
#[derive(Clone, Copy, Debug)]
pub struct LevelRatio {
    value: Double,
}

impl View for LevelRatio {
    type V = Dyadic;

    closed spec fn view(&self) -> Dyadic {
        self.value@
    }
}

impl LevelRatio {
    #[verifier::type_invariant]
    spec fn inv(self) -> bool {
        &&& self.value@.normal()
        &&& -200 <= self.value@.e <= 200
    }

    /// The double quotient of `total` and `factor`, for a total downsample
    /// of at most `2^32`.
    pub fn new(total: u64, factor: &Downsample) -> (out: LevelRatio)
        requires
            total <= 0x1_0000_0000,
        ensures
            out@ == factor@.under(total as nat),
    {
        proof {
            use_type_invariant(factor);
        }
        LevelRatio { value: factor.value.under(total) }
    }

    /// The double product of the ratio and `v`, rounded up and brought into
    /// 32 bits; zero where `v` is not positive.
    pub fn ceil_times(&self, v: i64) -> (out: u32)
        requires
            v <= u32::MAX,
        ensures
            out == self@.ceil_times(v as int),
    {
        proof {
            use_type_invariant(self);
        }
        if v <= 0 {
            0
        } else {
            self.value.times(v as u32).ceil_u32()
        }
    }
}

} // verus!
