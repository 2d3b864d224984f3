//! Rounding to the nearest binary32 number, and the difference of two
//! binary32 numbers.
//!
//! Every finite binary32 number is a whole number of units of two to the
//! -149, so an exact difference is an integer, and rounding it is integer
//! arithmetic.
use crate::scalar::{Scalar, HIDDEN_BIT, NEGATIVE_INFINITY_BITS, POSITIVE_INFINITY_BITS, SIGN_BIT};
use vstd::arithmetic::div_mod::*;
use vstd::arithmetic::mul::*;
use vstd::arithmetic::power2::*;
use vstd::bits::*;
use vstd::prelude::*;

verus! {

/// Bit pattern of the NaN that this library produces.
pub const NAN_BITS: u32 = 0x7fc0_0000;

/// Two to the 24th: the first integer that a significand cannot hold.
pub const SIGNIFICAND_LIMIT: u64 = 0x100_0000;

/// `n / step` rounded to the nearest whole number, a tie going to the even
/// one.
pub open spec fn nearest_even(n: nat, step: nat) -> nat
    recommends
        step > 0,
{
    let whole = n / step;
    let rest = n % step;
    if 2 * rest > step || (2 * rest == step && whole % 2 == 1) {
        whole + 1
    } else {
        whole
    }
}

/// Magnitude bits of the binary32 number nearest to `n` units, trying the
/// scales from `q` upwards: the first scale at which `n` fits a significand
/// is the one to round at. Past the last scale the result is infinity.
///
/// A significand `m` at scale `q` has the magnitude bits `q * 2^23 + m`,
/// also when rounding carried `m` up to two to the 24th.
pub open spec fn round_from(n: nat, q: nat) -> int
    decreases 254 - q,
{
    if q >= 254 {
        0x7f80_0000
    } else if n / pow2(q) < 0x100_0000 {
        (q * 0x80_0000 + nearest_even(n, pow2(q))) as int
    } else {
        round_from(n, q + 1)
    }
}

/// Magnitude bits of the binary32 number nearest to `n` units, ties to even.
pub open spec fn nearest_magnitude_bits(n: nat) -> int {
    round_from(n, 0)
}

impl Scalar {
    /// `self - other`, rounded to the nearest binary32 number, ties to even.
    ///
    /// A NaN operand, or the difference of two infinities of one sign, gives
    /// the NaN of `NAN_BITS`. An exact zero is negative only for `-0 - +0`.
    pub open spec fn spec_minus(self, other: Scalar) -> Scalar {
        if self.is_nan() || other.is_nan() {
            Scalar { bits: NAN_BITS }
        } else if self.is_infinite() {
            if other.is_infinite() && self.is_negative() == other.is_negative() {
                Scalar { bits: NAN_BITS }
            } else {
                self
            }
        } else if other.is_infinite() {
            if other.is_negative() {
                Scalar { bits: POSITIVE_INFINITY_BITS }
            } else {
                Scalar { bits: NEGATIVE_INFINITY_BITS }
            }
        } else {
            let exact = self.units() - other.units();
            if exact > 0 {
                Scalar { bits: nearest_magnitude_bits(exact as nat) as u32 }
            } else if exact < 0 {
                Scalar { bits: (0x8000_0000 + nearest_magnitude_bits((-exact) as nat)) as u32 }
            } else if self.is_negative() && !other.is_negative() {
                Scalar { bits: SIGN_BIT }
            } else {
                Scalar { bits: 0 }
            }
        }
    }

    /// Significand and scale of a number. For a finite number the scale is
    /// at most 253, and the significand times two to the scale is its
    /// magnitude.
    pub fn unpack(self) -> (r: (u32, u32))
        ensures
            r.0 == self.significand(),
            r.1 == self.scale(),
            r.0 < 0x100_0000,
            r.1 <= 254,
            self.is_finite() ==> r.1 <= 253,
            r.1 > 0 ==> r.0 >= 0x80_0000,
            self.magnitude_bits() == r.1 * 0x80_0000 + r.0,
    {
        let mag: u32 = self.bits % SIGN_BIT;
        let exponent: u32 = mag / HIDDEN_BIT;
        let fraction: u32 = mag % HIDDEN_BIT;
        assert(fraction == self.fraction());
        if exponent == 0 {
            (fraction, 0)
        } else {
            (fraction + HIDDEN_BIT, exponent - 1)
        }
    }

    /// `self - other`, rounded as binary32 subtraction rounds.
    pub fn minus(self, other: Scalar) -> (r: Scalar)
        ensures
            r == self.spec_minus(other),
    {
        if self.check_nan() || other.check_nan() {
            return Scalar { bits: NAN_BITS };
        }
        let a_neg: bool = self.bits >= SIGN_BIT;
        let b_neg: bool = other.bits >= SIGN_BIT;
        if self.bits % SIGN_BIT == POSITIVE_INFINITY_BITS {
            if other.bits % SIGN_BIT == POSITIVE_INFINITY_BITS && a_neg == b_neg {
                return Scalar { bits: NAN_BITS };
            }
            return self;
        }
        if other.bits % SIGN_BIT == POSITIVE_INFINITY_BITS {
            if b_neg {
                return Scalar { bits: POSITIVE_INFINITY_BITS };
            }
            return Scalar { bits: NEGATIVE_INFINITY_BITS };
        }
        let (ma, qa) = self.unpack();
        let (mb, qb) = other.unpack();
        // self - other is x + y, where y is other with its sign turned.
        let y_neg: bool = !b_neg;
        let ghost exact: int = self.units() - other.units();
        proof {
            lemma_mul_nonnegative(ma as int, pow2(qa as nat) as int);
            lemma_mul_nonnegative(mb as int, pow2(qb as nat) as int);
        }
        let first: bool = qa >= qb;
        let (s1, m1, q1) = if first { (a_neg, ma, qa) } else { (y_neg, mb, qb) };
        let (s2, m2, q2) = if first { (y_neg, mb, qb) } else { (a_neg, ma, qa) };
        let ghost big_one: int = m1 * pow2(q1 as nat);
        let ghost big_two: int = m2 * pow2(q2 as nat);
        assert(exact == (if s1 { -big_one } else { big_one }) + (if s2 { -big_two } else { big_two }));
        let gap: u32 = q1 - q2;
        if gap > 26 {
            proof {
                lemma_far_apart(m1 as nat, q1 as nat, m2 as nat, q2 as nat, s1 == s2);
                lemma_mul_nonnegative(m2 as int, pow2(q2 as nat) as int);
            }
            let magnitude: u32 = q1 * HIDDEN_BIT + m1;
            return Scalar { bits: if s1 { SIGN_BIT + magnitude } else { magnitude } };
        }
        proof {
            lemma2_to64();
            lemma_pow2_pos(gap as nat);
            if gap < 26 {
                lemma_pow2_strictly_increases(gap as nat, 26);
            }
            lemma_mul_inequality(pow2(gap as nat) as int, pow2(26) as int, m1 as int);
            lemma_mul_is_commutative(m1 as int, pow2(gap as nat) as int);
            lemma_mul_is_commutative(m1 as int, pow2(26) as int);
            lemma_mul_nonnegative(m1 as int, pow2(gap as nat) as int);
            lemma_u64_shl_is_mul(m1 as u64, gap as u64);
            // m1 * 2^q1 == (m1 * 2^gap) * 2^q2
            lemma_pow2_adds(gap as nat, q2 as nat);
            lemma_mul_is_associative(m1 as int, pow2(gap as nat) as int, pow2(q2 as nat) as int);
        }
        let lifted: u64 = (m1 as u64) << (gap as u64);
        let low: u64 = m2 as u64;
        assert(big_one == lifted * pow2(q2 as nat));
        let ghost unit: int = pow2(q2 as nat) as int;
        let (negative, total): (bool, u64) = if s1 == s2 {
            (s1, lifted + low)
        } else if lifted > low {
            (s1, lifted - low)
        } else if lifted < low {
            (s2, low - lifted)
        } else {
            (false, 0)
        };
        proof {
            lemma_pow2_pos(q2 as nat);
            lemma_mul_is_distributive_add_other_way(unit, lifted as int, low as int);
            lemma_mul_is_distributive_sub_other_way(unit, lifted as int, low as int);
            lemma_mul_is_distributive_sub_other_way(unit, low as int, lifted as int);
            lemma_mul_basics(unit);
            if total > 0 {
                lemma_mul_strictly_positive(total as int, unit);
            }
            assert(exact == if negative { -(total * unit) } else { total * unit });
        }
        let magnitude: u32 = round_shifted(total, q2);
        if total == 0 {
            assert(magnitude == 0);
            assert(exact == 0);
            if s1 == s2 && s1 {
                return Scalar { bits: SIGN_BIT };
            }
            return Scalar { bits: 0 };
        }
        Scalar { bits: if negative { SIGN_BIT + magnitude } else { magnitude } }
    }
}

/// Rounds `big * 2^q` units to the nearest binary32 magnitude.
fn round_shifted(big: u64, q: u32) -> (bits: u32)
    requires
        big < 0x10_0000_0000_0000,
        q <= 253,
    ensures
        bits == nearest_magnitude_bits((big * pow2(q as nat)) as nat),
        bits <= 0x7f80_0000,
        big == 0 ==> bits == 0,
{
    let ghost n: nat = (big * pow2(q as nat)) as nat;
    proof {
        lemma_pow2_pos(q as nat);
        lemma_mul_nonnegative(big as int, pow2(q as nat) as int);
    }
    let mut m: u64 = big;
    let mut s: u32 = q;
    while s > 0 && m < 0x80_0000
        invariant
            m * pow2(s as nat) == n,
            m < 0x10_0000_0000_0000,
            s <= 253,
            big == 0 ==> m == 0,
        decreases s,
    {
        proof {
            lemma_pow2_unfold(s as nat);
            lemma_mul_is_associative(m as int, 2, pow2((s - 1) as nat) as int);
        }
        m = m * 2;
        s = s - 1;
    }
    proof {
        lemma_pow2_pos(s as nat);
        lemma2_to64();
    }
    if m < SIGNIFICAND_LIMIT {
        proof {
            lemma_exact_fit(n, m as nat, s as nat);
        }
        return s * HIDDEN_BIT + (m as u32);
    }
    let mut j: u32 = 0;
    let mut t: u64 = m;
    while t >= SIGNIFICAND_LIMIT
        invariant
            t == m as nat / pow2(j as nat),
            j <= 29,
            m < 0x10_0000_0000_0000,
            j > 0 ==> m as nat / pow2((j - 1) as nat) >= 0x100_0000,
            j == 0 ==> t == m,
            t >= 0x80_0000,
        decreases t,
    {
        proof {
            lemma2_to64();
            lemma_pow2_pos(j as nat);
            lemma_pow2_unfold((j + 1) as nat);
            // (m / 2^j) / 2 == m / (2^j * 2)
            lemma_div_denominator(m as int, pow2(j as nat) as int, 2);
            if j >= 28 {
                // m < 2^52, so m / 2^28 < 2^24
                lemma_pow2_adds(24, 28);
                if j > 28 {
                    lemma_pow2_strictly_increases(28, j as nat);
                }
                lemma_div_is_ordered_by_denominator(
                    m as int,
                    pow2(28) as int,
                    pow2(j as nat) as int,
                );
                lemma_multiply_divide_lt(m as int, pow2(28) as int, pow2(24) as int);
            }
        }
        t = t / 2;
        j = j + 1;
    }
    assert(j >= 1);
    proof {
        lemma2_to64();
        lemma_pow2_pos(j as nat);
        lemma_pow2_pos((j - 1) as nat);
        lemma_pow2_unfold(j as nat);
        lemma_u64_shl_is_mul(1, j as u64);
        lemma_u64_shl_is_mul(1, (j - 1) as u64);
        if j < 29 {
            lemma_pow2_strictly_increases(j as nat, 29);
        }
        lemma_fundamental_div_mod(m as int, pow2(j as nat) as int);
        lemma_mod_bound(m as int, pow2(j as nat) as int);
        lemma_mul_is_commutative(t as int, pow2(j as nat) as int);
    }
    let step: u64 = 1u64 << (j as u64);
    let half: u64 = 1u64 << ((j - 1) as u64);
    let rest: u64 = m - t * step;
    assert(rest == m as nat % pow2(j as nat));
    let up: bool = rest > half || (rest == half && t % 2 == 1);
    let rounded: u64 = if up { t + 1 } else { t };
    proof {
        lemma_inexact_fit(n, m as nat, s as nat, j as nat);
    }
    let scale: u32 = s + j;
    if scale >= 254 {
        return POSITIVE_INFINITY_BITS;
    }
    scale * HIDDEN_BIT + (rounded as u32)
}

/// A binary32 number rounds to itself: rounding the magnitude of a finite
/// number gives its own magnitude bits.
pub proof fn lemma_number_rounds_to_itself(s: Scalar)
    requires
        s.is_finite(),
    ensures
        nearest_magnitude_bits(s.magnitude()) == s.magnitude_bits(),
{
    let m = s.significand();
    let q = s.scale();
    lemma_pow2_pos(q);
    lemma_mul_nonnegative(m, pow2(q) as int);
    lemma_exact_fit(s.magnitude(), m as nat, q);
}

/// What rounding gives is the magnitude of a number or of infinity, never
/// the pattern of a NaN.
pub proof fn lemma_rounded_bits_in_range(n: nat)
    ensures
        0 <= nearest_magnitude_bits(n) <= 0x7f80_0000,
{
    lemma_round_from_in_range(n, 0);
}

proof fn lemma_round_from_in_range(n: nat, q: nat)
    ensures
        0 <= round_from(n, q) <= 0x7f80_0000,
    decreases 254 - q,
{
    if q < 254 {
        if n / pow2(q) < 0x100_0000 {
            lemma_pow2_pos(q);
            lemma_div_pos_is_pos(n as int, pow2(q) as int);
        } else {
            lemma_round_from_in_range(n, q + 1);
        }
    }
}

/// Turning a difference round turns its sign and nothing else: for finite
/// numbers of different value, `b - a` has the magnitude of `a - b` and the
/// other sign.
pub proof fn lemma_minus_turned_round(a: Scalar, b: Scalar)
    requires
        a.is_finite(),
        b.is_finite(),
        a.units() != b.units(),
    ensures
        b.spec_minus(a).magnitude_bits() == a.spec_minus(b).magnitude_bits(),
        b.spec_minus(a).is_negative() == !a.spec_minus(b).is_negative(),
{
    let exact = a.units() - b.units();
    if exact > 0 {
        lemma_rounded_bits_in_range(exact as nat);
    } else {
        lemma_rounded_bits_in_range((-exact) as nat);
    }
}

/// Dividing by a larger power of two gives no more.
proof fn lemma_div_pow2_ordered(n: nat, lo: nat, hi: nat)
    requires
        lo <= hi,
    ensures
        n / pow2(hi) <= n / pow2(lo),
{
    lemma_pow2_pos(lo);
    if lo < hi {
        lemma_pow2_strictly_increases(lo, hi);
    }
    lemma_div_is_ordered_by_denominator(n as int, pow2(lo) as int, pow2(hi) as int);
}

/// Scales at which `n` does not fit a significand are passed over.
proof fn lemma_round_from_skips(n: nat, from: nat, to: nat)
    requires
        from <= to <= 254,
        to > 0 ==> n / pow2((to - 1) as nat) >= 0x100_0000,
    ensures
        round_from(n, from) == round_from(n, to),
    decreases to - from,
{
    if from < to {
        lemma_div_pow2_ordered(n, from, (to - 1) as nat);
        lemma_round_from_skips(n, from + 1, to);
    }
}

/// `n` rounds at scale `q` when it fits there and at no scale below.
proof fn lemma_round_at(n: nat, q: nat)
    requires
        q <= 253,
        n / pow2(q) < 0x100_0000,
        q > 0 ==> n / pow2((q - 1) as nat) >= 0x100_0000,
    ensures
        nearest_magnitude_bits(n) == q * 0x80_0000 + nearest_even(n, pow2(q)),
{
    lemma_round_from_skips(n, 0, q);
}

/// A significand `m` at scale `s`, normal or at the lowest scale, is its own
/// rounding.
proof fn lemma_exact_fit(n: nat, m: nat, s: nat)
    requires
        n == m * pow2(s),
        m < 0x100_0000,
        s <= 253,
        s > 0 ==> m >= 0x80_0000,
    ensures
        nearest_magnitude_bits(n) == s * 0x80_0000 + m,
{
    lemma_pow2_pos(s);
    lemma_div_by_multiple(m as int, pow2(s) as int);
    lemma_mod_multiples_basic(m as int, pow2(s) as int);
    assert(n / pow2(s) == m);
    assert(n % pow2(s) == 0);
    if s > 0 {
        let below = (s - 1) as nat;
        lemma_pow2_pos(below);
        lemma_pow2_unfold(s);
        lemma_mul_is_associative(m as int, 2, pow2(below) as int);
        assert(n == (m * 2) * pow2(below));
        lemma_div_by_multiple((m * 2) as int, pow2(below) as int);
    }
    lemma_round_at(n, s);
}

/// Rounding `m * 2^s` where `m` needs `j` bits cut: the cut is made in `m`
/// alone.
proof fn lemma_inexact_fit(n: nat, m: nat, s: nat, j: nat)
    requires
        n == m * pow2(s),
        j >= 1,
        m / pow2(j) < 0x100_0000,
        m / pow2((j - 1) as nat) >= 0x100_0000,
    ensures
        s + j <= 253 ==> nearest_magnitude_bits(n) == (s + j) * 0x80_0000 + nearest_even(
            m,
            pow2(j),
        ),
        s + j >= 254 ==> nearest_magnitude_bits(n) == 0x7f80_0000,
{
    lemma_scaled_div(m, s, j);
    lemma_scaled_div(m, s, (j - 1) as nat);
    let q = s + j;
    if q <= 253 {
        lemma_round_at(n, q);
        // nearest_even(n, 2^q) == nearest_even(m, 2^j)
        let unit = pow2(s) as int;
        let rest = (m % pow2(j)) as int;
        let step = pow2(j) as int;
        lemma_pow2_pos(s);
        lemma_pow2_pos(j);
        assert(n % pow2(q) == unit * rest);
        assert(pow2(q) == unit * step);
        lemma_mul_is_associative(2, unit, rest);
        lemma_mul_is_commutative(2, unit);
        lemma_mul_is_associative(unit, 2, rest);
        assert(2 * (unit * rest) == unit * (2 * rest));
        if 2 * rest > step {
            lemma_mul_strict_inequality(step, 2 * rest, unit);
            lemma_mul_is_commutative(unit, step);
            lemma_mul_is_commutative(unit, 2 * rest);
        } else if 2 * rest < step {
            lemma_mul_strict_inequality(2 * rest, step, unit);
            lemma_mul_is_commutative(unit, step);
            lemma_mul_is_commutative(unit, 2 * rest);
        }
    } else {
        lemma_div_pow2_ordered(n, 253, (q - 1) as nat);
        lemma_round_from_skips(n, 0, 254);
    }
}

/// `(m * 2^s) / 2^(s + j) == m / 2^j`, and the remainder is that of `m`,
/// scaled.
proof fn lemma_scaled_div(m: nat, s: nat, j: nat)
    ensures
        (m * pow2(s)) as nat / pow2(s + j) == m / pow2(j),
        (m * pow2(s)) as nat % pow2(s + j) == pow2(s) * (m % pow2(j)),
        pow2(s + j) == pow2(s) * pow2(j),
{
    lemma_pow2_pos(s);
    lemma_pow2_pos(j);
    lemma_pow2_adds(s, j);
    lemma_mul_is_commutative(m as int, pow2(s) as int);
    lemma_truncate_middle(m as int, pow2(s) as int, pow2(j) as int);
    lemma_mul_nonnegative(m as int, pow2(s) as int);
    lemma_div_denominator((m * pow2(s)) as int, pow2(s) as int, pow2(j) as int);
    lemma_div_by_multiple(m as int, pow2(s) as int);
}

/// Where two numbers are more than 26 scales apart, their sum or difference
/// rounds to the larger one.
proof fn lemma_far_apart(m1: nat, q1: nat, m2: nat, q2: nat, same_sign: bool)
    requires
        0x80_0000 <= m1 < 0x100_0000,
        m2 < 0x100_0000,
        q1 <= 253,
        q1 > q2 + 26,
    ensures
        ({
            let one = (m1 * pow2(q1)) as int;
            let two = (m2 * pow2(q2)) as int;
            let n = if same_sign { one + two } else { one - two };
            &&& two < one
            &&& nearest_magnitude_bits(n as nat) == q1 * 0x80_0000 + m1
        }),
{
    let one = (m1 * pow2(q1)) as int;
    let two = (m2 * pow2(q2)) as int;
    let n = if same_sign { one + two } else { one - two };
    let unit = pow2(q1) as int;
    let eighth = pow2((q1 - 3) as nat) as int;
    lemma2_to64();
    lemma_pow2_pos(q1);
    lemma_pow2_pos(q2);
    lemma_pow2_pos((q1 - 3) as nat);
    lemma_pow2_adds(3, (q1 - 3) as nat);
    assert(unit == 8 * eighth);
    // two < 2^24 * 2^q2 <= 2^(q1 - 3)
    lemma_pow2_adds(24, q2);
    if 24 + q2 < q1 - 3 {
        lemma_pow2_strictly_increases(24 + q2, (q1 - 3) as nat);
    }
    lemma_mul_nonnegative(m2 as int, pow2(q2) as int);
    if m2 > 0 {
        lemma_mul_strict_inequality(m2 as int, pow2(24) as int, pow2(q2) as int);
    } else {
        lemma_mul_basics(pow2(q2) as int);
    }
    assert(0 <= two < eighth);
    lemma_mul_inequality(0x80_0000, m1 as int, unit);
    assert(one >= 0x80_0000 * unit);
    assert(two < one);
    let below = pow2((q1 - 1) as nat) as int;
    lemma_pow2_unfold(q1);
    lemma_pow2_pos((q1 - 1) as nat);
    assert(unit == 2 * below);
    if same_sign || two == 0 {
        // n == m1 * unit + two, with two under an eighth of the unit
        lemma_fundamental_div_mod_converse(n, unit, m1 as int, two);
        lemma_mul_is_commutative(unit, m1 as int);
        // below this scale n does not fit
        lemma_mul_is_associative(m1 as int, 2, below);
        lemma_fundamental_div_mod_converse_div(one, below, (m1 * 2) as int, 0);
        lemma_mul_is_commutative(below, (m1 * 2) as int);
        lemma_div_is_ordered(one, n, below);
        lemma_round_at(n as nat, q1);
    } else if m1 > 0x80_0000 {
        // n == (m1 - 1) * unit + (unit - two): rounds up to m1
        lemma_mul_is_distributive_sub_other_way(unit, m1 as int, 1);
        lemma_fundamental_div_mod_converse(n, unit, m1 - 1, unit - two);
        lemma_mul_is_commutative(unit, m1 - 1);
        let floor = ((m1 - 1) * unit) as int;
        lemma_mul_is_associative(m1 - 1, 2, below);
        lemma_fundamental_div_mod_converse_div(floor, below, (m1 - 1) * 2, 0);
        lemma_mul_is_commutative(below, (m1 - 1) * 2);
        lemma_div_is_ordered(floor, n, below);
        lemma_round_at(n as nat, q1);
    } else {
        // m1 is two to the 23rd: n lies just under it, a scale lower
        let top: int = 0xff_ffff;
        assert(one == 0x100_0000 * below) by {
            lemma_mul_is_associative(0x80_0000, 2, below);
        }
        assert(below == 4 * eighth) by {
            lemma_pow2_adds(2, (q1 - 3) as nat);
        }
        lemma_mul_is_distributive_sub_other_way(below, 0x100_0000, 1);
        assert(n == top * below + (below - two));
        lemma_fundamental_div_mod_converse(n, below, top, below - two);
        lemma_mul_is_commutative(below, top);
        // two scales lower n does not fit
        let lower = pow2((q1 - 2) as nat) as int;
        lemma_pow2_unfold((q1 - 1) as nat);
        lemma_pow2_pos((q1 - 2) as nat);
        assert(below == 2 * lower);
        let floor = (top * below) as int;
        lemma_mul_is_associative(top, 2, lower);
        lemma_fundamental_div_mod_converse_div(floor, lower, top * 2, 0);
        lemma_mul_is_commutative(lower, top * 2);
        lemma_div_is_ordered(floor, n, lower);
        lemma_round_at(n as nat, (q1 - 1) as nat);
    }
}

} // verus!
