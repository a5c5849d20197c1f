//! Numbers of the IEEE 754 binary32 format, compared by their bit patterns.

use vstd::arithmetic::power2::{lemma_pow2_pos, lemma_pow2_strictly_increases, lemma_pow2_unfold, pow2};
use vstd::prelude::*;

verus! {

/// A binary32 number, held by its bit pattern: a sign bit, 8 bits of exponent and 23 bits of
/// fraction.
#[derive(Clone, Copy, Debug)]
pub struct Binary32 {
    pub bits: u32,
}

impl Binary32 {
    pub open spec fn is_negative(self) -> bool {
        self.bits >= 0x8000_0000
    }

    /// The bit pattern without its sign.
    pub open spec fn magnitude(self) -> nat {
        (self.bits % 0x8000_0000) as nat
    }

    pub open spec fn exponent(self) -> nat {
        self.magnitude() / 0x80_0000
    }

    pub open spec fn fraction(self) -> nat {
        self.magnitude() % 0x80_0000
    }

    pub open spec fn is_nan(self) -> bool {
        self.exponent() == 0xff && self.fraction() != 0
    }

    /// The absolute value, counted in units of two to the power of -149, the smallest positive
    /// binary32 number. Infinity counts as the power of two that follows the finite numbers.
    pub open spec fn absolute_units(self) -> nat {
        if self.exponent() == 0 {
            self.fraction()
        } else {
            (0x80_0000 + self.fraction()) * pow2((self.exponent() - 1) as nat)
        }
    }

    /// The value, counted in units of two to the power of -149.
    pub open spec fn units(self) -> int {
        if self.is_negative() {
            -self.absolute_units()
        } else {
            self.absolute_units() as int
        }
    }

    /// `self < other`: false when either is not a number.
    pub open spec fn less(self, other: Binary32) -> bool {
        !self.is_nan() && !other.is_nan() && self.units() < other.units()
    }

    /// `low <= self && self <= high`: false when any of them is not a number.
    pub open spec fn between(self, low: Binary32, high: Binary32) -> bool {
        &&& !self.is_nan() && !low.is_nan() && !high.is_nan()
        &&& low.units() <= self.units() <= high.units()
    }

    /// The bit pattern as a signed number that grows with the value.
    spec fn rank_spec(self) -> int {
        if self.is_negative() {
            -self.magnitude()
        } else {
            self.magnitude() as int
        }
    }

    fn rank(self) -> (rank: i64)
        ensures
            rank == self.rank_spec(),
    {
        if self.bits >= 0x8000_0000 {
            -((self.bits - 0x8000_0000) as i64)
        } else {
            self.bits as i64
        }
    }

    fn not_a_number(self) -> (nan: bool)
        ensures
            nan == self.is_nan(),
    {
        self.bits % 0x8000_0000 > 0x7f80_0000
    }

    /// Whether `self` is less than `other`.
    pub fn less_than(self, other: Binary32) -> (less: bool)
        ensures
            less == self.less(other),
    {
        proof {
            lemma_rank_orders(self, other);
        }
        !self.not_a_number() && !other.not_a_number() && self.rank() < other.rank()
    }

    /// Whether `self` lies in the closed range from `low` to `high`.
    pub fn lies_between(self, low: Binary32, high: Binary32) -> (inside: bool)
        ensures
            inside == self.between(low, high),
    {
        proof {
            lemma_rank_orders(self, low);
            lemma_rank_orders(high, self);
        }
        !self.not_a_number() && !low.not_a_number() && !high.not_a_number() && low.rank()
            <= self.rank() && self.rank() <= high.rank()
    }
}

/// A larger bit pattern, the sign apart, is a larger absolute value.
pub proof fn lemma_magnitude_orders(a: Binary32, b: Binary32)
    requires
        a.magnitude() < b.magnitude(),
    ensures
        a.absolute_units() < b.absolute_units(),
{
    let (e, f) = (a.exponent(), b.exponent());
    assert(a.magnitude() == 0x80_0000 * e + a.fraction());
    assert(b.magnitude() == 0x80_0000 * f + b.fraction());
    if e == f {
        if e > 0 {
            lemma_pow2_pos((e - 1) as nat);
            let p = pow2((e - 1) as nat);
            let (m, n) = (0x80_0000 + a.fraction(), 0x80_0000 + b.fraction());
            assert(m * p < n * p) by (nonlinear_arith)
                requires
                    m < n,
                    0 < p,
            ;
        }
    } else {
        lemma_pow2_pos((f - 1) as nat);
        let q = pow2((f - 1) as nat);
        let n = 0x80_0000 + b.fraction();
        assert(0x80_0000 * q <= n * q) by (nonlinear_arith)
            requires
                0x80_0000 <= n,
                0 < q,
        ;
        if e > 0 {
            let p = pow2((e - 1) as nat);
            lemma_pow2_pos((e - 1) as nat);
            lemma_pow2_unfold(e);
            if e < f - 1 {
                lemma_pow2_strictly_increases(e, (f - 1) as nat);
            }
            let m = 0x80_0000 + a.fraction();
            assert(m * p < 0x100_0000 * p) by (nonlinear_arith)
                requires
                    m < 0x100_0000,
                    0 < p,
            ;
        }
    }
}

/// The rank orders the numbers as their values do.
proof fn lemma_rank_orders(a: Binary32, b: Binary32)
    ensures
        a.rank_spec() < b.rank_spec() <==> a.units() < b.units(),
{
    if a.magnitude() < b.magnitude() {
        lemma_magnitude_orders(a, b);
    } else if b.magnitude() < a.magnitude() {
        lemma_magnitude_orders(b, a);
    }
    lemma_zero_units(a);
    lemma_zero_units(b);
}

/// Only the two zeros have the value zero.
proof fn lemma_zero_units(a: Binary32)
    ensures
        a.magnitude() == 0 <==> a.absolute_units() == 0,
{
    if a.magnitude() > 0 {
        lemma_magnitude_orders(Binary32 { bits: 0 }, a);
    }
}

/// Which bit patterns are no numbers, and how the bit patterns of numbers tell which is less: a
/// number without the sign bit counts by its pattern, one with it by the rest of its pattern
/// below zero.
pub proof fn bits_order_the_numbers(a: Binary32, b: Binary32)
    ensures
        a.is_nan() <==> 0x7f80_0000 < a.bits < 0x8000_0000 || 0xff80_0000 < a.bits,
        a.is_nan() || b.is_nan() ==> !a.less(b),
        !a.is_nan() && !b.is_nan() ==> (a.less(b) <==> (if a.bits < 0x8000_0000 {
            a.bits as int
        } else {
            0x8000_0000 - a.bits
        }) < (if b.bits < 0x8000_0000 {
            b.bits as int
        } else {
            0x8000_0000 - b.bits
        })),
{
    lemma_rank_orders(a, b);
}

/// A number lies in a range exactly when it is not below its lower and not above its upper end.
pub proof fn ranges_are_closed(a: Binary32, low: Binary32, high: Binary32)
    ensures
        a.between(low, high) <==> !a.is_nan() && !low.is_nan() && !high.is_nan() && !a.less(low)
            && !high.less(a),
{
}

/// What bit patterns are worth: up to the second exponent the pattern counts the units; one more
/// in the exponent doubles the value; the sign bit negates it.
pub proof fn bits_are_worth(a: Binary32)
    ensures
        a.bits < 0x100_0000 ==> a.units() == a.bits,
        0x80_0000 <= a.bits < 0x7f80_0000 ==> (Binary32 {
            bits: (a.bits + 0x80_0000) as u32,
        }).units() == 2 * a.units(),
        a.bits < 0x8000_0000 ==> (Binary32 { bits: (a.bits + 0x8000_0000) as u32 }).units()
            == -a.units(),
{
    if a.bits < 0x100_0000 {
        vstd::arithmetic::power2::lemma2_to64();
        if a.exponent() > 0 {
            assert(a.exponent() == 1);
            assert(a.fraction() == a.bits - 0x80_0000);
            assert(a.absolute_units() == (0x80_0000 + a.fraction()) * 1) by {
                assert(pow2(0) == 1);
            }
        }
    }
    if 0x80_0000 <= a.bits < 0x7f80_0000 {
        let double = Binary32 { bits: (a.bits + 0x80_0000) as u32 };
        assert(double.exponent() == a.exponent() + 1);
        assert(double.fraction() == a.fraction());
        lemma_pow2_unfold(a.exponent());
        let m = 0x80_0000 + a.fraction();
        let p = pow2((a.exponent() - 1) as nat);
        assert(m * (2 * p) == 2 * (m * p)) by (nonlinear_arith);
    }
}

} // verus!
