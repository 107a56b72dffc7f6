//! Single-precision numbers as bit patterns.
//!
//! Level files store their real numbers in IEEE 754 binary32 form. This
//! module keeps such a number as the 32 bits it was read from and offers
//! the operations on it that need no rounding: comparison, negation,
//! absolute value, selection, and the conversion from and to bytes. What
//! a pattern stands for is counted in the smallest positive number, so
//! that every value is a whole number, and the operations are shown to
//! agree with the values.

use vstd::prelude::*;
use vstd::arithmetic::div_mod::{lemma_basic_div, lemma_div_multiples_vanish_quotient};
use vstd::arithmetic::power2::{
    lemma2_to64, lemma_pow2_adds, lemma_pow2_pos, lemma_pow2_strictly_increases,
    lemma_pow2_unfold, pow2,
};

verus! {

/// Pattern of the sign bit.
pub const SIGN_BIT: u32 = 0x8000_0000;

/// Pattern of positive infinity; every larger magnitude is not a number.
pub const INFINITY_BITS: u32 = 0x7F80_0000;

/// Pattern of `0`.
pub const ZERO_BITS: u32 = 0;

/// Pattern of `1`.
pub const ONE_BITS: u32 = 0x3F80_0000;

/// Pattern of `-1`.
pub const MINUS_ONE_BITS: u32 = 0xBF80_0000;

/// Pattern of `2`.
pub const TWO_BITS: u32 = 0x4000_0000;

/// Pattern of `1/32`, the bias that keeps a probe off the surface it hits.
pub const EPSILON_BITS: u32 = 0x3D00_0000;

/// A binary32 number, held as its bit pattern.
#[derive(Clone, Copy, Debug)]
pub struct Scalar {
    pub bits: u32,
}

impl Scalar {
    /// The pattern without its sign bit.
    pub open spec fn magnitude(self) -> int {
        if self.bits >= SIGN_BIT {
            self.bits - SIGN_BIT
        } else {
            self.bits as int
        }
    }

    /// Whether the sign bit is set.
    pub open spec fn is_negative(self) -> bool {
        self.bits >= SIGN_BIT
    }

    /// Whether the pattern encodes no number.
    pub open spec fn is_nan(self) -> bool {
        self.magnitude() > INFINITY_BITS
    }

    /// An integer that orders the numbers as their values do: for two
    /// patterns that encode numbers, the smaller value has the smaller key,
    /// and both zeros have key `0`.
    pub open spec fn key(self) -> int {
        if self.is_negative() {
            -self.magnitude()
        } else {
            self.magnitude()
        }
    }

    /// `self < other` as binary32 comparison decides it.
    pub open spec fn spec_lt(self, other: Scalar) -> bool {
        !self.is_nan() && !other.is_nan() && self.key() < other.key()
    }

    /// `self <= other` as binary32 comparison decides it.
    pub open spec fn spec_le(self, other: Scalar) -> bool {
        !self.is_nan() && !other.is_nan() && self.key() <= other.key()
    }

    /// `self == other` as binary32 comparison decides it.
    pub open spec fn spec_same(self, other: Scalar) -> bool {
        !self.is_nan() && !other.is_nan() && self.key() == other.key()
    }

    /// The pattern with its sign bit flipped.
    pub open spec fn spec_neg(self) -> Scalar {
        if self.bits >= SIGN_BIT {
            Scalar { bits: (self.bits - SIGN_BIT) as u32 }
        } else {
            Scalar { bits: (self.bits + SIGN_BIT) as u32 }
        }
    }

    /// The pattern with its sign bit cleared.
    pub open spec fn spec_abs(self) -> Scalar {
        Scalar { bits: self.magnitude() as u32 }
    }

    /// `other` where `self < other`, else `self`.
    pub open spec fn spec_max(self, other: Scalar) -> Scalar {
        if self.spec_lt(other) {
            other
        } else {
            self
        }
    }

    /// `0` below zero, `1` above one, else the number itself.
    pub open spec fn spec_clamp_unit(self) -> Scalar {
        if self.spec_lt(Scalar { bits: ZERO_BITS }) {
            Scalar { bits: ZERO_BITS }
        } else if (Scalar { bits: ONE_BITS }).spec_lt(self) {
            Scalar { bits: ONE_BITS }
        } else {
            self
        }
    }

    /// The number with the given pattern.
    pub fn from_bits(bits: u32) -> (r: Scalar)
        ensures
            r.bits == bits,
    {
        Scalar { bits }
    }

    /// The number `0`.
    pub fn zero() -> (r: Scalar)
        ensures
            r.bits == ZERO_BITS,
    {
        Scalar { bits: ZERO_BITS }
    }

    /// The number `1`.
    pub fn one() -> (r: Scalar)
        ensures
            r.bits == ONE_BITS,
    {
        Scalar { bits: ONE_BITS }
    }

    /// The number `-1`.
    pub fn minus_one() -> (r: Scalar)
        ensures
            r.bits == MINUS_ONE_BITS,
    {
        Scalar { bits: MINUS_ONE_BITS }
    }

    /// The number `2`.
    pub fn two() -> (r: Scalar)
        ensures
            r.bits == TWO_BITS,
    {
        Scalar { bits: TWO_BITS }
    }

    /// The number `1/32`.
    pub fn epsilon() -> (r: Scalar)
        ensures
            r.bits == EPSILON_BITS,
    {
        Scalar { bits: EPSILON_BITS }
    }

    /// The pattern without its sign bit.
    fn magnitude_bits(self) -> (m: u32)
        ensures
            m == self.magnitude(),
            m < SIGN_BIT,
    {
        if self.bits >= SIGN_BIT {
            self.bits - SIGN_BIT
        } else {
            self.bits
        }
    }

    /// Whether the pattern encodes no number.
    #[verifier::when_used_as_spec(is_nan)]
    pub fn nan(self) -> (r: bool)
        ensures
            r == self.is_nan(),
    {
        self.magnitude_bits() > INFINITY_BITS
    }

    /// The integer that orders the numbers as their values do.
    pub fn ordering_key(self) -> (k: i64)
        ensures
            k == self.key(),
    {
        let m: i64 = self.magnitude_bits() as i64;
        if self.bits >= SIGN_BIT {
            -m
        } else {
            m
        }
    }

    /// Whether `self < other`.
    pub fn lt(self, other: Scalar) -> (r: bool)
        ensures
            r == self.spec_lt(other),
    {
        !self.nan() && !other.nan() && self.ordering_key() < other.ordering_key()
    }

    /// Whether `self <= other`.
    pub fn le(self, other: Scalar) -> (r: bool)
        ensures
            r == self.spec_le(other),
    {
        !self.nan() && !other.nan() && self.ordering_key() <= other.ordering_key()
    }

    /// Whether `self > other`.
    pub fn gt(self, other: Scalar) -> (r: bool)
        ensures
            r == other.spec_lt(self),
    {
        other.lt(self)
    }

    /// Whether `self >= other`.
    pub fn ge(self, other: Scalar) -> (r: bool)
        ensures
            r == other.spec_le(self),
    {
        other.le(self)
    }

    /// Whether `self == other` as numbers: both zeros are the same, and
    /// what is no number is the same as nothing.
    pub fn same(self, other: Scalar) -> (r: bool)
        ensures
            r == self.spec_same(other),
    {
        !self.nan() && !other.nan() && self.ordering_key() == other.ordering_key()
    }

    /// The number with the opposite sign.
    pub fn neg(self) -> (r: Scalar)
        ensures
            r == self.spec_neg(),
    {
        if self.bits >= SIGN_BIT {
            Scalar { bits: self.bits - SIGN_BIT }
        } else {
            Scalar { bits: self.bits + SIGN_BIT }
        }
    }

    /// The number without its sign.
    pub fn abs(self) -> (r: Scalar)
        ensures
            r == self.spec_abs(),
    {
        Scalar { bits: self.magnitude_bits() }
    }

    /// The larger of two numbers; `self` where they do not compare.
    pub fn max(self, other: Scalar) -> (r: Scalar)
        ensures
            r == self.spec_max(other),
    {
        if self.lt(other) {
            other
        } else {
            self
        }
    }

    /// The number kept between `0` and `1`.
    pub fn clamp_unit(self) -> (r: Scalar)
        ensures
            r == self.spec_clamp_unit(),
    {
        if self.lt(Scalar::zero()) {
            Scalar::zero()
        } else if Scalar::one().lt(self) {
            Scalar::one()
        } else {
            self
        }
    }
}

/// Negation mirrors the order: it keeps whether a pattern is a number and
/// negates its key.
pub proof fn lemma_neg_mirrors(a: Scalar)
    ensures
        a.spec_neg().is_nan() == a.is_nan(),
        a.spec_neg().key() == -a.key(),
        a.spec_neg().spec_neg() == a,
{
}

/// The absolute value is never below zero and agrees with the number or
/// with its negation.
pub proof fn lemma_abs_is_magnitude(a: Scalar)
    ensures
        a.spec_abs().is_nan() == a.is_nan(),
        a.spec_abs().key() == a.magnitude(),
        a.spec_abs().key() >= 0,
        a.spec_abs() == a || a.spec_abs() == a.spec_neg(),
{
}

/// Clamping a number yields a number between zero and one.
pub proof fn lemma_clamp_unit_bounds(a: Scalar)
    requires
        !a.is_nan(),
    ensures
        !a.spec_clamp_unit().is_nan(),
        0 <= a.spec_clamp_unit().key() <= ONE_BITS,
{
}

/// `2` to the power `k`, for `k` up to `23`.
pub open spec fn power_of_two(k: int) -> int {
    if k <= 0 {
        1
    } else if k == 1 {
        2
    } else if k == 2 {
        4
    } else if k == 3 {
        8
    } else if k == 4 {
        0x10
    } else if k == 5 {
        0x20
    } else if k == 6 {
        0x40
    } else if k == 7 {
        0x80
    } else if k == 8 {
        0x100
    } else if k == 9 {
        0x200
    } else if k == 10 {
        0x400
    } else if k == 11 {
        0x800
    } else if k == 12 {
        0x1000
    } else if k == 13 {
        0x2000
    } else if k == 14 {
        0x4000
    } else if k == 15 {
        0x8000
    } else if k == 16 {
        0x1_0000
    } else if k == 17 {
        0x2_0000
    } else if k == 18 {
        0x4_0000
    } else if k == 19 {
        0x8_0000
    } else if k == 20 {
        0x10_0000
    } else if k == 21 {
        0x20_0000
    } else if k == 22 {
        0x40_0000
    } else {
        0x80_0000
    }
}

/// The power of two that a number from `1` to `255` starts with: the
/// place of its highest bit.
pub open spec fn highest_bit(v: int) -> int {
    if v >= 128 {
        7
    } else if v >= 64 {
        6
    } else if v >= 32 {
        5
    } else if v >= 16 {
        4
    } else if v >= 8 {
        3
    } else if v >= 4 {
        2
    } else if v >= 2 {
        1
    } else {
        0
    }
}

/// Pattern of `255`.
pub const BYTE_MAX_BITS: u32 = 0x437F_0000;

/// Number of bits of the fraction of a pattern.
pub const FRACTION_BITS: u32 = 23;

/// What the bits of a pattern below its fraction count for: `2` to the
/// power `23`.
pub const HIDDEN_BIT: u32 = 0x80_0000;

/// The exponent of `1` as patterns store it.
pub const EXPONENT_BIAS: u32 = 127;

impl Scalar {
    /// The pattern of a whole number from `0` to `255`: for a number with
    /// highest bit `e`, the exponent `127 + e` and as fraction the rest
    /// of the number, moved up to the top of the fraction.
    pub open spec fn of_byte(v: u8) -> Scalar {
        if v == 0 {
            Scalar { bits: ZERO_BITS }
        } else {
            Scalar {
                bits: ((EXPONENT_BIAS + highest_bit(v as int)) * HIDDEN_BIT + (v - power_of_two(
                    highest_bit(v as int),
                )) * power_of_two(FRACTION_BITS - highest_bit(v as int))) as u32,
            }
        }
    }

    /// The whole number from `0` to `255` that a number is cut down to:
    /// `0` for what is no number or is below `1`, `255` for what is `255`
    /// or above, and else the number without what follows its point. For
    /// a pattern with exponent `127 + e` that is the fraction with its
    /// hidden bit, without its lowest `23 - e` bits.
    pub open spec fn to_byte(self) -> u8 {
        if self.is_nan() || self.is_negative() || self.bits < ONE_BITS {
            0
        } else if self.bits >= BYTE_MAX_BITS {
            255
        } else {
            ((HIDDEN_BIT + self.bits % HIDDEN_BIT) / power_of_two(
                FRACTION_BITS + EXPONENT_BIAS - self.bits / HIDDEN_BIT,
            )) as u8
        }
    }

    /// `2` to the power `k`.
    fn pow2(k: u32) -> (r: u32)
        requires
            k <= 23,
        ensures
            r == power_of_two(k as int),
    {
        let mut r: u32 = 1;
        let mut i: u32 = 0;
        while i < k
            invariant
                i <= k <= 23,
                r == power_of_two(i as int),
            decreases k - i,
        {
            r = r * 2;
            i = i + 1;
        }
        r
    }

    /// The pattern of a whole number from `0` to `255`.
    pub fn from_u8(v: u8) -> (r: Scalar)
        ensures
            r == Scalar::of_byte(v),
    {
        if v == 0 {
            return Scalar { bits: ZERO_BITS };
        }
        let e: u32 = if v >= 128 {
            7
        } else if v >= 64 {
            6
        } else if v >= 32 {
            5
        } else if v >= 16 {
            4
        } else if v >= 8 {
            3
        } else if v >= 4 {
            2
        } else if v >= 2 {
            1
        } else {
            0
        };
        let top: u32 = Scalar::pow2(e);
        let scale: u32 = Scalar::pow2(FRACTION_BITS - e);
        let rest: u32 = v as u32 - top;
        assert(rest * scale < 0x80_0000) by (nonlinear_arith)
            requires
                rest < top,
                top * scale == 0x80_0000,
                scale > 0,
        ;
        Scalar { bits: (EXPONENT_BIAS + e) * HIDDEN_BIT + rest * scale }
    }

    /// The whole number from `0` to `255` that the number is cut down to.
    pub fn to_u8(self) -> (r: u8)
        ensures
            r == self.to_byte(),
    {
        if self.bits >= SIGN_BIT || self.bits > INFINITY_BITS || self.bits < ONE_BITS {
            return 0;
        }
        if self.bits >= BYTE_MAX_BITS {
            return 255;
        }
        let e: u32 = self.bits / HIDDEN_BIT;
        let significand: u32 = HIDDEN_BIT + self.bits % HIDDEN_BIT;
        let cut: u32 = Scalar::pow2(FRACTION_BITS + EXPONENT_BIAS - e);
        (significand / cut) as u8
    }
}

/// A whole number from `0` to `255` that is made a pattern and cut down
/// again is the same number.
pub proof fn lemma_byte_round_trip(v: u8)
    ensures
        Scalar::of_byte(v).to_byte() == v,
        !Scalar::of_byte(v).is_nan(),
        !Scalar::of_byte(v).is_negative(),
{
    if v >= 128 {
    } else if v >= 64 {
    } else if v >= 32 {
    } else if v >= 16 {
    } else if v >= 8 {
    } else if v >= 4 {
    } else if v >= 2 {
    } else if v >= 1 {
    } else {
    }
}

/// How many of the smallest positive number make up `1`: `2` to the power
/// `149`.
pub open spec fn unit() -> int {
    pow2(149) as int
}

impl Scalar {
    /// The exponent that the pattern stores.
    pub open spec fn exponent(self) -> int {
        self.magnitude() / (HIDDEN_BIT as int)
    }

    /// The fraction that the pattern stores.
    pub open spec fn fraction(self) -> int {
        self.magnitude() % (HIDDEN_BIT as int)
    }

    /// The size of the number that a pattern stands for, counted in the
    /// smallest positive number. With the exponent `0` that is the
    /// fraction. Else it is the fraction with its hidden bit, doubled for
    /// each step of the exponent above `1`. Infinity counts as the number
    /// that would follow the largest.
    pub open spec fn size(self) -> int {
        if self.exponent() == 0 {
            self.fraction()
        } else {
            (HIDDEN_BIT + self.fraction()) * pow2((self.exponent() - 1) as nat)
        }
    }

    /// The number that a pattern stands for, counted in the smallest
    /// positive number.
    pub open spec fn value(self) -> int {
        if self.is_negative() {
            -self.size()
        } else {
            self.size()
        }
    }
}

/// The tabled powers of two are powers of two.
pub proof fn lemma_power_of_two(k: int)
    requires
        0 <= k <= 23,
    ensures
        power_of_two(k) == pow2(k as nat),
{
    lemma2_to64();
}

/// A pattern with the larger magnitude stands for the larger size.
pub proof fn lemma_size_grows(a: Scalar, b: Scalar)
    requires
        a.magnitude() < b.magnitude(),
    ensures
        0 <= a.size() < b.size(),
{
    let h = HIDDEN_BIT as int;
    let ea = a.exponent();
    let eb = b.exponent();
    let fa = a.fraction();
    let fb = b.fraction();
    assert(0 <= ea <= eb);
    if ea == eb {
        if ea > 0 {
            let p = pow2((ea - 1) as nat) as int;
            lemma_pow2_pos((ea - 1) as nat);
            assert(0 <= (h + fa) * p < (h + fb) * p) by (nonlinear_arith)
                requires
                    0 <= fa < fb,
                    0 < h,
                    0 < p,
            ;
        }
    } else {
        let pb = pow2((eb - 1) as nat) as int;
        lemma_pow2_pos((eb - 1) as nat);
        if ea == 0 {
            assert(h <= (h + fb) * pb) by (nonlinear_arith)
                requires
                    0 <= fb,
                    0 < h,
                    1 <= pb,
            ;
        } else {
            let pa = pow2((ea - 1) as nat) as int;
            lemma_pow2_pos((ea - 1) as nat);
            lemma_pow2_unfold(ea as nat);
            if ea < eb - 1 {
                lemma_pow2_strictly_increases(ea as nat, (eb - 1) as nat);
            }
            assert(0 <= (h + fa) * pa < (h + fb) * pb) by (nonlinear_arith)
                requires
                    0 <= fa < h,
                    0 <= fb,
                    0 < pa,
                    2 * pa <= pb,
            ;
        }
    }
}

/// Patterns are ordered as the numbers that they stand for: the
/// comparisons of two patterns that are numbers agree with the
/// comparisons of their values.
pub proof fn lemma_order_is_by_value(a: Scalar, b: Scalar)
    requires
        !a.is_nan(),
        !b.is_nan(),
    ensures
        a.spec_lt(b) <==> a.value() < b.value(),
        a.spec_le(b) <==> a.value() <= b.value(),
        a.spec_same(b) <==> a.value() == b.value(),
{
    if a.magnitude() < b.magnitude() {
        lemma_size_grows(a, b);
    } else if b.magnitude() < a.magnitude() {
        lemma_size_grows(b, a);
    }
    let zero = Scalar { bits: ZERO_BITS };
    if 0 < a.magnitude() {
        lemma_size_grows(zero, a);
    }
    if 0 < b.magnitude() {
        lemma_size_grows(zero, b);
    }
}

/// Negation negates the value, and the absolute value is the size.
pub proof fn lemma_neg_value(a: Scalar)
    ensures
        a.spec_neg().value() == -a.value(),
        a.spec_abs().value() == a.size(),
        a.size() >= 0,
{
    if 0 < a.magnitude() {
        lemma_size_grows(Scalar { bits: ZERO_BITS }, a);
    }
}

/// The named patterns stand for their numbers: `0`, `1`, `-1`, `2` and
/// `1/32`, and `255` for the largest whole number that has a byte.
pub proof fn lemma_named_values()
    ensures
        (Scalar { bits: ZERO_BITS }).value() == 0,
        (Scalar { bits: ONE_BITS }).value() == unit(),
        (Scalar { bits: MINUS_ONE_BITS }).value() == -unit(),
        (Scalar { bits: TWO_BITS }).value() == 2 * unit(),
        32 * (Scalar { bits: EPSILON_BITS }).value() == unit(),
        (Scalar { bits: BYTE_MAX_BITS }).value() == 255 * unit(),
{
    lemma2_to64();
    lemma_pow2_adds(23, 126);
    lemma_pow2_adds(23, 127);
    lemma_pow2_adds(23, 121);
    lemma_pow2_adds(5, 144);
    lemma_pow2_adds(16, 133);
    lemma_pow2_adds(16, 7);
    let one = Scalar { bits: ONE_BITS };
    assert(one.exponent() == 127 && one.fraction() == 0);
    let minus = Scalar { bits: MINUS_ONE_BITS };
    assert(minus.exponent() == 127 && minus.fraction() == 0);
    let two = Scalar { bits: TWO_BITS };
    assert(two.exponent() == 128 && two.fraction() == 0);
    lemma_pow2_unfold(150);
    let eps = Scalar { bits: EPSILON_BITS };
    assert(eps.exponent() == 122 && eps.fraction() == 0);
    assert(pow2(144) == pow2(23) * pow2(121));
    assert(pow2(149) == pow2(5) * pow2(144));
    let top = Scalar { bits: BYTE_MAX_BITS };
    assert(top.exponent() == 134 && top.fraction() == 0x7F_0000);
    assert(pow2(149) == pow2(16) * pow2(133));
    assert((HIDDEN_BIT + 0x7F_0000) * pow2(133) == 255 * (pow2(16) * pow2(133)))
        by (nonlinear_arith)
        requires
            HIDDEN_BIT + 0x7F_0000 == 255 * pow2(16),
    ;
}

/// The pattern of a whole number from `0` to `255` stands for that number.
pub proof fn lemma_of_byte_value(v: u8)
    ensures
        Scalar::of_byte(v).value() == v * unit(),
{
    lemma2_to64();
    if v > 0 {
        let e = highest_bit(v as int);
        let s = Scalar::of_byte(v);
        let top = power_of_two(e);
        let scale = power_of_two(FRACTION_BITS - e);
        let rest = v - top;
        assert(top * scale == HIDDEN_BIT);
        assert(0 <= rest < top);
        assert(0 <= rest * scale < HIDDEN_BIT) by (nonlinear_arith)
            requires
                0 <= rest < top,
                top * scale == HIDDEN_BIT,
                0 < scale,
        ;
        assert(s.bits == (EXPONENT_BIAS + e) * HIDDEN_BIT + rest * scale);
        assert(s.exponent() == EXPONENT_BIAS + e);
        assert(s.fraction() == rest * scale);
        lemma_power_of_two(FRACTION_BITS - e);
        lemma_pow2_adds((FRACTION_BITS - e) as nat, (126 + e) as nat);
        let p = pow2((126 + e) as nat) as int;
        assert((HIDDEN_BIT + rest * scale) * p == v * (scale * p)) by (nonlinear_arith)
            requires
                top * scale == HIDDEN_BIT,
                rest == v - top,
        ;
    } else {
        assert(v * unit() == 0) by (nonlinear_arith)
            requires
                v == 0,
        ;
    }
}

/// A number is cut down to the whole number of ones that it holds, but to
/// no less than `0` and no more than `255`; what is no number is cut down
/// to `0`.
pub proof fn lemma_to_byte_value(s: Scalar)
    ensures
        s.is_nan() ==> s.to_byte() == 0,
        !s.is_nan() && s.value() < unit() ==> s.to_byte() == 0,
        !s.is_nan() && s.value() >= 255 * unit() ==> s.to_byte() == 255,
        !s.is_nan() && unit() <= s.value() < 255 * unit() ==> s.to_byte() == s.value() / unit(),
{
    lemma_named_values();
    lemma_pow2_pos(149);
    let one = Scalar { bits: ONE_BITS };
    let top = Scalar { bits: BYTE_MAX_BITS };
    if !s.is_nan() {
        lemma_order_is_by_value(s, one);
        lemma_order_is_by_value(s, top);
        lemma_neg_value(s);
        if !s.is_negative() && ONE_BITS <= s.bits < BYTE_MAX_BITS {
            let e = s.exponent();
            let cut = FRACTION_BITS + EXPONENT_BIAS - e;
            assert(127 <= e <= 134);
            lemma_power_of_two(cut);
            lemma_pow2_adds(cut as nat, (e - 1) as nat);
            lemma_pow2_pos(cut as nat);
            lemma_pow2_pos((e - 1) as nat);
            let significand = HIDDEN_BIT + s.fraction();
            let p = pow2((e - 1) as nat) as int;
            let c = pow2(cut as nat) as int;
            lemma_div_multiples_vanish_quotient(p, significand, c);
            assert(significand * p == p * significand) by (nonlinear_arith);
            assert(unit() == p * c) by (nonlinear_arith)
                requires
                    unit() == c * p,
            ;
            assert(s.to_byte() == (significand / c) as u8);
            lemma2_to64();
            assert(significand / c < 256) by {
                assert(significand < 0x100_0000);
                assert(c >= 0x1_0000);
                assert(significand / c <= significand / 0x1_0000) by (nonlinear_arith)
                    requires
                        0 <= significand,
                        0x1_0000 <= c,
                ;
            }
            assert(0 <= significand / c) by (nonlinear_arith)
                requires
                    0 <= significand,
                    0 < c,
            ;
        }
    }
}

} // verus!
