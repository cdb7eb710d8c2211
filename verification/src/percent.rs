//! Percentages in the single precision format of IEEE 754.

use vstd::arithmetic::power2::{lemma_pow2_adds, lemma_pow2_pos, lemma_pow2_strictly_increases, pow2};
use vstd::prelude::*;

verus! {

/// The encoding of an infinite value, and the smallest that no finite positive value has.
pub const INFINITY_BITS: u32 = 0x7f80_0000;

/// The encoding of 100.
pub const HUNDRED_BITS: u32 = 0x42c8_0000;

/// The encoding of zero with a minus sign.
pub const NEGATIVE_ZERO_BITS: u32 = 0x8000_0000;

/// A percentage, held by the 32 bits that encode it in single precision. Not every encoding is a
/// number: some stand for an infinite value and some for none.
#[derive(Debug, Clone, Copy, PartialEq, Eq, Structural)]
pub struct Percent {
    pub bits: u32,
}

impl Percent {
    /// Whether the sign bit is set.
    pub open spec fn negative(self) -> bool {
        self.bits >= 0x8000_0000
    }

    /// The exponent field.
    pub open spec fn exponent(self) -> int {
        (self.bits as int / 0x80_0000) % 0x100
    }

    /// The fraction field.
    pub open spec fn fraction(self) -> int {
        self.bits as int % 0x80_0000
    }

    /// Whether the encoding stands for a finite number.
    pub open spec fn finite(self) -> bool {
        self.exponent() < 255
    }

    /// Whether the encoding stands for no number at all.
    pub open spec fn nan(self) -> bool {
        self.exponent() == 255 && self.fraction() != 0
    }

    /// The absolute value of a finite number, in units of 2 to the power of -149, of which every
    /// finite number is a multiple.
    pub open spec fn magnitude(self) -> int {
        if self.exponent() == 0 {
            self.fraction()
        } else {
            (0x80_0000 + self.fraction()) * pow2((self.exponent() - 1) as nat)
        }
    }

    /// The value of a finite number, in units of 2 to the power of -149.
    pub open spec fn value(self) -> int {
        if self.negative() {
            -self.magnitude()
        } else {
            self.magnitude()
        }
    }

    /// Whether the value lies between 0 and 100, both included.
    pub open spec fn in_range(self) -> bool {
        self.finite() && 0 <= self.value() <= 100 * pow2(149)
    }

    /// Whether the value is greater than zero.
    pub open spec fn positive(self) -> bool {
        !self.nan() && !self.negative() && (self.finite() ==> self.value() > 0)
    }

    /// Whether the value lies between 0 and 100, both included.
    pub fn is_in_range(&self) -> (yes: bool)
        ensures
            yes == self.in_range(),
    {
        proof {
            lemma_range(*self);
        }
        self.bits <= HUNDRED_BITS || self.bits == NEGATIVE_ZERO_BITS
    }

    /// Whether the value is greater than zero.
    pub fn is_positive(&self) -> (yes: bool)
        ensures
            yes == self.positive(),
    {
        proof {
            lemma_magnitude_sign(*self);
        }
        0 < self.bits && self.bits <= INFINITY_BITS
    }
}

/// The magnitude vanishes exactly where both fields do.
proof fn lemma_magnitude_sign(p: Percent)
    ensures
        p.magnitude() >= 0,
        p.magnitude() == 0 <==> p.exponent() == 0 && p.fraction() == 0,
{
    if p.exponent() != 0 {
        let scale = pow2((p.exponent() - 1) as nat) as int;
        lemma_pow2_pos((p.exponent() - 1) as nat);
        let m = 0x80_0000 + p.fraction();
        assert(m * scale > 0) by (nonlinear_arith)
            requires
                m > 0,
                scale > 0,
        ;
    }
}

/// The encodings of the numbers from 0 to 100.
proof fn lemma_range(p: Percent)
    ensures
        p.in_range() <==> p.bits <= HUNDRED_BITS || p.bits == NEGATIVE_ZERO_BITS,
{
    lemma_magnitude_sign(p);
    let (e, f) = (p.exponent(), p.fraction());
    let hundred = 100 * pow2(149);
    // 100 is 25 * 2^19 * 2^132 units: the significand 0xc80000 with the exponent field 133.
    lemma_pow2_adds(132, 17);
    assert(pow2(17) == 0x2_0000) by {
        vstd::arithmetic::power2::lemma2_to64();
    }
    let top = pow2(132) as int;
    assert(hundred == 0xc8_0000 * top) by (nonlinear_arith)
        requires
            hundred == 100 * (top * 0x2_0000),
    ;
    lemma_pow2_pos(132);
    if 0 < e < 255 {
        let scale = pow2((e - 1) as nat) as int;
        let m = 0x80_0000 + f;
        lemma_pow2_pos((e - 1) as nat);
        if e < 133 {
            lemma_pow2_adds((e - 1) as nat, (133 - e) as nat);
            lemma_pow2_at_least_double((133 - e) as nat);
            let ratio = pow2((133 - e) as nat) as int;
            assert(m * scale <= 0xc8_0000 * top) by (nonlinear_arith)
                requires
                    top == scale * ratio,
                    ratio >= 2,
                    0 < m < 0x100_0000,
                    scale > 0,
            ;
        } else if e == 133 {
            assert(m * scale <= 0xc8_0000 * top <==> m <= 0xc8_0000) by (nonlinear_arith)
                requires
                    scale == top,
                    top > 0,
            ;
        } else {
            lemma_pow2_adds(132, (e - 133) as nat);
            lemma_pow2_at_least_double((e - 133) as nat);
            let ratio = pow2((e - 133) as nat) as int;
            assert(m * scale > 0xc8_0000 * top) by (nonlinear_arith)
                requires
                    scale == top * ratio,
                    ratio >= 2,
                    m >= 0x80_0000,
                    top > 0,
            ;
        }
    } else if e == 0 {
        assert(f <= 0xc8_0000 * top) by (nonlinear_arith)
            requires
                f < 0x80_0000,
                top > 0,
        ;
    }
}

proof fn lemma_pow2_at_least_double(k: nat)
    requires
        k > 0,
    ensures
        pow2(k) >= 2,
{
    vstd::arithmetic::power2::lemma2_to64();
    if k > 1 {
        lemma_pow2_strictly_increases(1, k);
    }
}

/// The encodings of the numbers from 0 to 100, zero with a minus sign among them, and of the
/// numbers greater than zero, the infinite among them.
pub proof fn law_ranges_of_encodings(p: Percent)
    ensures
        p.in_range() <==> p.bits <= 0x42c8_0000 || p.bits == 0x8000_0000,
        p.positive() <==> 0 < p.bits <= 0x7f80_0000,
{
    lemma_range(p);
    lemma_magnitude_sign(p);
}

/// Of two finite numbers without a sign, the one with the larger encoding is larger.
pub proof fn law_encodings_are_ordered(p: Percent, q: Percent)
    requires
        p.bits < q.bits < 0x7f80_0000,
    ensures
        p.value() < q.value(),
{
    let (e, f, g, h) = (p.exponent(), p.fraction(), q.exponent(), q.fraction());
    assert(e < g || (e == g && f < h));
    if e == g {
        if e > 0 {
            let scale = pow2((e - 1) as nat) as int;
            lemma_pow2_pos((e - 1) as nat);
            assert((0x80_0000 + f) * scale < (0x80_0000 + h) * scale) by (nonlinear_arith)
                requires
                    f < h,
                    scale > 0,
            ;
        }
    } else {
        let scale = pow2((g - 1) as nat) as int;
        lemma_pow2_pos((g - 1) as nat);
        assert(0x80_0000 * scale <= (0x80_0000 + h) * scale) by (nonlinear_arith)
            requires
                0 <= h,
                scale > 0,
        ;
        if e == 0 {
            assert(0x80_0000 * scale >= 0x80_0000) by (nonlinear_arith)
                requires
                    scale >= 1,
            ;
        } else {
            let less = pow2((e - 1) as nat) as int;
            lemma_pow2_pos((e - 1) as nat);
            lemma_pow2_adds((e - 1) as nat, (g - e) as nat);
            lemma_pow2_at_least_double((g - e) as nat);
            let ratio = pow2((g - e) as nat) as int;
            assert((0x80_0000 + f) * less < 0x80_0000 * scale) by (nonlinear_arith)
                requires
                    scale == less * ratio,
                    ratio >= 2,
                    0 <= f < 0x80_0000,
                    less > 0,
            ;
        }
    }
}

} // verus!
