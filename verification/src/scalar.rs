//! Single-precision numbers, held by their IEEE 754 binary32 bit pattern.
//!
//! The geometry of a scene arrives as single-precision coordinates. The
//! library never computes with machine floating point; it reads the bit
//! pattern and reasons about the number that the pattern denotes.
use vstd::arithmetic::div_mod::*;
use vstd::arithmetic::mul::*;
use vstd::arithmetic::power2::*;
use vstd::bits::*;
use vstd::prelude::*;

verus! {

/// Bit pattern of `+infinity`.
pub const POSITIVE_INFINITY_BITS: u32 = 0x7f80_0000;

/// Bit pattern of `-infinity`.
pub const NEGATIVE_INFINITY_BITS: u32 = 0xff80_0000;

/// Bit pattern of `1.0`.
pub const ONE_BITS: u32 = 0x3f80_0000;

/// The sign bit.
pub const SIGN_BIT: u32 = 0x8000_0000;

/// Two to the 23rd: the implicit leading bit of a normal significand.
pub const HIDDEN_BIT: u32 = 0x80_0000;

/// A binary32 number, by its bit pattern.
#[derive(Clone, Copy, Debug, PartialEq, Eq, Structural)]
pub struct Scalar {
    pub bits: u32,
}

impl Scalar {
    /// The pattern without its sign bit.
    pub open spec fn magnitude_bits(self) -> int {
        self.bits as int % 0x8000_0000
    }

    pub open spec fn is_negative(self) -> bool {
        self.bits >= 0x8000_0000
    }

    pub open spec fn is_nan(self) -> bool {
        self.magnitude_bits() > 0x7f80_0000
    }

    pub open spec fn is_infinite(self) -> bool {
        self.magnitude_bits() == 0x7f80_0000
    }

    pub open spec fn is_finite(self) -> bool {
        self.magnitude_bits() < 0x7f80_0000
    }

    /// The eight exponent bits, as a number from 0 to 255.
    pub open spec fn biased_exponent(self) -> int {
        self.magnitude_bits() / 0x80_0000
    }

    /// The 23 fraction bits.
    pub open spec fn fraction(self) -> int {
        self.bits as int % 0x80_0000
    }

    /// The integer significand: the fraction, with the implicit leading bit
    /// for a normal number.
    pub open spec fn significand(self) -> int {
        if self.biased_exponent() == 0 {
            self.fraction()
        } else {
            self.fraction() + 0x80_0000
        }
    }

    /// The power of two by which the significand is scaled, counted from the
    /// smallest subnormal step.
    pub open spec fn scale(self) -> nat {
        if self.biased_exponent() == 0 {
            0
        } else {
            (self.biased_exponent() - 1) as nat
        }
    }

    /// The absolute value of a finite number, in units of two to the -149.
    pub open spec fn magnitude(self) -> nat
        recommends
            self.is_finite(),
    {
        (self.significand() * pow2(self.scale())) as nat
    }

    /// The value of a finite number, in units of two to the -149 (the
    /// smallest positive binary32 number), so that every finite binary32
    /// number is an integer.
    pub open spec fn units(self) -> int
        recommends
            self.is_finite(),
    {
        if self.is_negative() {
            -(self.magnitude() as int)
        } else {
            self.magnitude() as int
        }
    }

    /// The key by which numbers that are not NaN are ordered: the magnitude
    /// bits, negated for a negative number. Both zeros have key 0.
    pub open spec fn order_key(self) -> int {
        if self.is_negative() {
            -self.magnitude_bits()
        } else {
            self.magnitude_bits()
        }
    }

    /// `self < other` as numbers; false when either is NaN.
    pub open spec fn spec_less(self, other: Scalar) -> bool {
        !self.is_nan() && !other.is_nan() && self.order_key() < other.order_key()
    }

    /// The lesser of two numbers, where a NaN yields to the other operand
    /// and `self` is kept when neither is less.
    pub open spec fn spec_lesser(self, other: Scalar) -> Scalar {
        if self.is_nan() {
            other
        } else if other.spec_less(self) {
            other
        } else {
            self
        }
    }

    /// The greater of two numbers, where a NaN yields to the other operand
    /// and `self` is kept when neither is greater.
    pub open spec fn spec_greater(self, other: Scalar) -> Scalar {
        if self.is_nan() {
            other
        } else if self.spec_less(other) {
            other
        } else {
            self
        }
    }

    /// Number of whole grid cells that an extent covers: the extent is
    /// raised to one unit where it is below (or is NaN), then cut to a whole
    /// number, and held to the largest `i32`.
    pub open spec fn spec_cells(self) -> int {
        if self.is_nan() || self.is_negative() {
            1
        } else if self.is_infinite() {
            i32::MAX as int
        } else {
            let whole = self.units() / (pow2(149) as int);
            if whole < 1 {
                1
            } else if whole > i32::MAX {
                i32::MAX as int
            } else {
                whole
            }
        }
    }

    pub fn from_bits(bits: u32) -> (s: Scalar)
        ensures
            s.bits == bits,
    {
        Scalar { bits }
    }

    pub fn to_bits(self) -> (bits: u32)
        ensures
            bits == self.bits,
    {
        self.bits
    }

    pub fn zero() -> (s: Scalar)
        ensures
            s.bits == 0,
            s.is_finite(),
            s.units() == 0,
    {
        let s = Scalar { bits: 0 };
        proof {
            assert(s.significand() == 0);
            lemma_mul_basics(pow2(s.scale()) as int);
        }
        s
    }

    pub fn one() -> (s: Scalar)
        ensures
            s.bits == ONE_BITS,
            s.is_finite(),
            s.units() == pow2(149),
    {
        let s = Scalar { bits: ONE_BITS };
        proof {
            assert(s.biased_exponent() == 127);
            assert(s.fraction() == 0);
            lemma_pow2_adds(23, 126);
            lemma2_to64();
        }
        s
    }

    pub fn infinity() -> (s: Scalar)
        ensures
            s.bits == POSITIVE_INFINITY_BITS,
            s.is_infinite(),
            !s.is_negative(),
    {
        Scalar { bits: POSITIVE_INFINITY_BITS }
    }

    pub fn negative_infinity() -> (s: Scalar)
        ensures
            s.bits == NEGATIVE_INFINITY_BITS,
            s.is_infinite(),
            s.is_negative(),
    {
        Scalar { bits: NEGATIVE_INFINITY_BITS }
    }

    pub fn check_nan(self) -> (r: bool)
        ensures
            r == self.is_nan(),
    {
        self.bits % SIGN_BIT > POSITIVE_INFINITY_BITS
    }

    /// Whether `self` is less than `other` as a number.
    pub fn less(self, other: Scalar) -> (r: bool)
        ensures
            r == self.spec_less(other),
    {
        if self.check_nan() || other.check_nan() {
            return false;
        }
        let a: u32 = self.bits % SIGN_BIT;
        let b: u32 = other.bits % SIGN_BIT;
        let a_neg: bool = self.bits >= SIGN_BIT;
        let b_neg: bool = other.bits >= SIGN_BIT;
        if a_neg {
            if b_neg {
                b < a
            } else {
                a > 0 || b > 0
            }
        } else {
            if b_neg {
                false
            } else {
                a < b
            }
        }
    }

    /// The lesser of two numbers; a NaN operand is ignored.
    pub fn lesser(self, other: Scalar) -> (r: Scalar)
        ensures
            r == self.spec_lesser(other),
    {
        if self.check_nan() {
            other
        } else if other.less(self) {
            other
        } else {
            self
        }
    }

    /// The greater of two numbers; a NaN operand is ignored.
    pub fn greater(self, other: Scalar) -> (r: Scalar)
        ensures
            r == self.spec_greater(other),
    {
        if self.check_nan() {
            other
        } else if self.less(other) {
            other
        } else {
            self
        }
    }

    /// Number of whole grid cells that an extent covers, never less than one.
    pub fn cells(self) -> (n: i32)
        ensures
            n == self.spec_cells(),
            n >= 1,
    {
        let mag: u32 = self.bits % SIGN_BIT;
        if self.bits >= SIGN_BIT || mag > POSITIVE_INFINITY_BITS {
            return 1;
        }
        if mag == POSITIVE_INFINITY_BITS {
            return i32::MAX;
        }
        let exponent: u32 = mag / HIDDEN_BIT;
        let fraction: u32 = mag % HIDDEN_BIT;
        assert(exponent == self.biased_exponent());
        assert(fraction == self.fraction());
        if exponent < 127 {
            proof {
                lemma_cells_below_one(self);
            }
            return 1;
        }
        let significand: u32 = fraction + HIDDEN_BIT;
        if exponent >= 158 {
            proof {
                lemma_cells_above_range(self);
            }
            return i32::MAX;
        }
        if exponent >= 150 {
            let shift: u32 = exponent - 150;
            proof {
                lemma_cells_shift_up(self);
                lemma_u32_shl_is_mul(significand, shift);
            }
            let whole: u32 = significand << shift;
            whole as i32
        } else {
            let shift: u32 = 150 - exponent;
            proof {
                lemma_cells_shift_down(self);
                lemma_u32_shr_is_div(significand, shift);
            }
            let whole: u32 = significand >> shift;
            whole as i32
        }
    }
}

/// A finite, positive number with exponent field below 127 is below one.
proof fn lemma_cells_below_one(s: Scalar)
    requires
        s.is_finite(),
        !s.is_negative(),
        s.biased_exponent() < 127,
    ensures
        s.units() / (pow2(149) as int) < 1,
{
    let m = s.significand();
    let q = s.scale();
    assert(q <= 125);
    lemma_pow2_pos(q);
    lemma_pow2_adds(24, q);
    lemma2_to64();
    if 24 + q < 149 {
        lemma_pow2_strictly_increases(24 + q, 149);
    }
    assert(m * pow2(q) < pow2(24) * pow2(q)) by {
        lemma_mul_strict_inequality(m, pow2(24) as int, pow2(q) as int);
    }
    assert(m * pow2(q) >= 0) by {
        lemma_mul_nonnegative(m, pow2(q) as int);
    }
    lemma_basic_div(s.units(), pow2(149) as int);
}

/// A finite, positive number with exponent field of 158 or more is at
/// least two to the 31st.
proof fn lemma_cells_above_range(s: Scalar)
    requires
        s.is_finite(),
        !s.is_negative(),
        s.biased_exponent() >= 158,
    ensures
        s.units() / (pow2(149) as int) > i32::MAX,
{
    let m = s.significand();
    let q = s.scale();
    lemma2_to64();
    lemma_pow2_pos(149);
    lemma_pow2_adds(23, q);
    lemma_pow2_adds(31, 149);
    if 180 < 23 + q {
        lemma_pow2_strictly_increases(180, 23 + q);
    }
    assert(m * pow2(q) >= pow2(23) * pow2(q)) by {
        lemma_mul_inequality(pow2(23) as int, m, pow2(q) as int);
    }
    assert(s.units() >= pow2(31) * pow2(149));
    lemma_div_is_ordered((pow2(31) * pow2(149)) as int, s.units(), pow2(149) as int);
    lemma_div_by_multiple(pow2(31) as int, pow2(149) as int);
}

/// With exponent field from 150 to 157 the number is whole: its
/// significand times a small power of two.
proof fn lemma_cells_shift_up(s: Scalar)
    requires
        s.is_finite(),
        !s.is_negative(),
        150 <= s.biased_exponent() < 158,
    ensures
        s.units() / (pow2(149) as int) == s.significand() * pow2(
            (s.biased_exponent() - 150) as nat,
        ),
        0x80_0000 <= s.significand() * pow2((s.biased_exponent() - 150) as nat) <= i32::MAX,
{
    let m = s.significand();
    let k = (s.biased_exponent() - 150) as nat;
    lemma2_to64();
    lemma_pow2_pos(149);
    lemma_pow2_pos(k);
    lemma_pow2_adds(k, 149);
    assert(s.units() == (m * pow2(k)) * pow2(149)) by {
        lemma_mul_is_associative(m, pow2(k) as int, pow2(149) as int);
    }
    lemma_div_by_multiple(m * pow2(k), pow2(149) as int);
    if k < 7 {
        lemma_pow2_strictly_increases(k, 7);
    }
    assert(m * pow2(k) <= m * pow2(7)) by {
        lemma_mul_inequality(pow2(k) as int, pow2(7) as int, m);
        lemma_mul_is_commutative(m, pow2(k) as int);
        lemma_mul_is_commutative(m, pow2(7) as int);
    }
    assert(m * pow2(k) >= m * 1) by {
        lemma_mul_inequality(1, pow2(k) as int, m);
        lemma_mul_is_commutative(m, pow2(k) as int);
    }
}

/// With exponent field from 127 to 149 the whole part is the significand
/// without its low bits.
proof fn lemma_cells_shift_down(s: Scalar)
    requires
        s.is_finite(),
        !s.is_negative(),
        127 <= s.biased_exponent() < 150,
    ensures
        s.units() / (pow2(149) as int) == s.significand() / (pow2(
            (150 - s.biased_exponent()) as nat,
        ) as int),
        1 <= s.significand() / (pow2((150 - s.biased_exponent()) as nat) as int) <= 0x80_0000,
{
    let m = s.significand();
    let q = s.scale();
    let k = (150 - s.biased_exponent()) as nat;
    lemma2_to64();
    lemma_pow2_pos(q);
    lemma_pow2_pos(k);
    lemma_pow2_adds(q, k);
    assert(pow2(149) == pow2(q) * pow2(k));
    // (m * 2^q) / (2^q * 2^k) == m / 2^k
    lemma_div_denominator(m * pow2(q), pow2(q) as int, pow2(k) as int);
    lemma_div_by_multiple(m, pow2(q) as int);
    if k < 23 {
        lemma_pow2_strictly_increases(k, 23);
    }
    lemma_div_is_ordered(pow2(k) as int, m, pow2(k) as int);
    lemma_div_by_self(pow2(k) as int);
    lemma_pow2_strictly_increases(0, k);
    lemma_div_is_ordered_by_denominator(m, 2, pow2(k) as int);
}

/// Among finite numbers the magnitude grows with the magnitude bits.
proof fn lemma_magnitude_grows_with_bits(a: Scalar, b: Scalar)
    requires
        a.is_finite(),
        b.is_finite(),
        a.magnitude_bits() < b.magnitude_bits(),
    ensures
        a.magnitude() < b.magnitude(),
{
    let ma = a.significand();
    let mb = b.significand();
    let qa = a.scale();
    let qb = b.scale();
    lemma2_to64();
    lemma_pow2_pos(qa);
    lemma_pow2_pos(qb);
    lemma_mul_nonnegative(ma, pow2(qa) as int);
    lemma_mul_nonnegative(mb, pow2(qb) as int);
    if a.biased_exponent() == b.biased_exponent() {
        lemma_mul_strict_inequality(ma, mb, pow2(qa) as int);
    } else {
        assert(a.biased_exponent() < b.biased_exponent());
        // a is below 2^23 * 2^reach, and b is at least that
        let reach: nat = if a.biased_exponent() == 0 { 0 } else { qa + 1 };
        assert(reach <= qb);
        assert(ma * pow2(qa) < 0x80_0000 * pow2(reach)) by {
            if a.biased_exponent() == 0 {
                lemma_mul_basics(ma);
            } else {
                lemma_mul_strict_inequality(ma, 0x100_0000, pow2(qa) as int);
                lemma_pow2_unfold(reach);
                lemma_mul_is_associative(0x80_0000, 2, pow2(qa) as int);
            }
        }
        if reach < qb {
            lemma_pow2_strictly_increases(reach, qb);
        }
        lemma_mul_inequality(pow2(reach) as int, pow2(qb) as int, 0x80_0000);
        lemma_mul_is_commutative(0x80_0000, pow2(reach) as int);
        lemma_mul_is_commutative(0x80_0000, pow2(qb) as int);
        lemma_mul_inequality(0x80_0000, mb, pow2(qb) as int);
    }
}

/// The order of the keys is the order of the numbers: of two finite
/// numbers, the one with the lesser key is the lesser value.
pub proof fn lemma_order_key_follows_value(a: Scalar, b: Scalar)
    requires
        a.is_finite(),
        b.is_finite(),
    ensures
        a.order_key() < b.order_key() <==> a.units() < b.units(),
        a.spec_less(b) <==> a.units() < b.units(),
{
    let zero = Scalar { bits: 0 };
    assert(zero.magnitude() == 0) by {
        assert(zero.significand() == 0);
        lemma_mul_basics(pow2(zero.scale()) as int);
    }
    if a.magnitude_bits() > 0 {
        lemma_magnitude_grows_with_bits(zero, a);
    } else {
        assert(a.significand() == 0);
        lemma_mul_basics(pow2(a.scale()) as int);
    }
    if b.magnitude_bits() > 0 {
        lemma_magnitude_grows_with_bits(zero, b);
    } else {
        assert(b.significand() == 0);
        lemma_mul_basics(pow2(b.scale()) as int);
    }
    if a.magnitude_bits() < b.magnitude_bits() {
        lemma_magnitude_grows_with_bits(a, b);
    } else if b.magnitude_bits() < a.magnitude_bits() {
        lemma_magnitude_grows_with_bits(b, a);
    } else {
        assert(a.biased_exponent() == b.biased_exponent());
        assert(a.bits % 0x80_0000 == a.magnitude_bits() % 0x80_0000);
        assert(b.bits % 0x80_0000 == b.magnitude_bits() % 0x80_0000);
        assert(a.fraction() == b.fraction());
    }
}

/// A greater extent never takes fewer cells: where `a` is not above `b`,
/// the cells of `a` are no more than those of `b`.
pub proof fn lemma_cells_grow_with_extent(a: Scalar, b: Scalar)
    requires
        !a.is_nan(),
        !b.is_nan(),
        a.order_key() <= b.order_key(),
    ensures
        1 <= a.spec_cells() <= b.spec_cells() <= i32::MAX,
{
    lemma_pow2_pos(149);
    if a.is_finite() && !a.is_negative() {
        lemma_mul_nonnegative(a.significand(), pow2(a.scale()) as int);
        if b.is_negative() {
            // both are zero
            assert(a.magnitude_bits() == 0);
            assert(a.significand() == 0);
            lemma_mul_basics(pow2(a.scale()) as int);
        } else if b.is_finite() {
            lemma_mul_nonnegative(b.significand(), pow2(b.scale()) as int);
            if a.order_key() < b.order_key() {
                lemma_order_key_follows_value(a, b);
            } else {
                assert(a.bits == b.bits);
            }
            lemma_div_is_ordered(a.units(), b.units(), pow2(149) as int);
        }
    }
}

} // verus!
