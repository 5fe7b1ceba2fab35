//! Double-precision numbers as their bit patterns.
//!
//! Cursor positions, fractions of screen sides and display scales are IEEE 754
//! doubles. Here each is its bit pattern, and each operation is integer
//! arithmetic whose contract says which double it yields: the one nearest to
//! the exact result, the even one in between.

use crate::rounding::{
    bit_length, excess, half_even_power, lemma_bit_length, lemma_bit_length_unique,
    lemma_extended_bound, lemma_nearest_of_integer, lemma_nearest_of_nothing, lemma_nearest_rescaled,
    lemma_rounding_scales, lemma_vanishes, nearest, power_of_two, round_quotient, round_scaled,
    rounded_half_even, IMPLICIT, INFINITY,
};
use crate::text::{digit, is_digit};
use vstd::arithmetic::div_mod::*;
use vstd::arithmetic::power2::*;
use vstd::prelude::*;

verus! {

/// The weight of the sign bit.
pub const SIGN: u64 = 0x8000_0000_0000_0000;

/// The bit pattern given to every result that is not a number.
pub const NOT_A_NUMBER: u64 = 0x7ff8_0000_0000_0000;

/// A double-precision number, as its bit pattern.
#[derive(Clone, Copy, Debug, PartialEq, Eq, Structural)]
pub struct Double {
    pub bits: u64,
}

impl Double {
    pub open spec fn negative(self) -> bool {
        self.bits >= SIGN
    }

    /// The bit pattern without its sign.
    pub open spec fn magnitude(self) -> nat {
        if self.negative() {
            (self.bits - SIGN) as nat
        } else {
            self.bits as nat
        }
    }

    pub open spec fn not_a_number(self) -> bool {
        self.magnitude() > INFINITY
    }

    pub open spec fn infinite(self) -> bool {
        self.magnitude() == INFINITY
    }

    pub open spec fn finite(self) -> bool {
        self.magnitude() < INFINITY
    }

    /// The size of a finite number, in units of two to the power -1074.
    pub open spec fn units(self) -> nat {
        let exponent = self.magnitude() / IMPLICIT as nat;
        let fraction = self.magnitude() % IMPLICIT as nat;
        if exponent == 0 {
            fraction
        } else {
            (IMPLICIT as nat + fraction) * pow2((exponent - 1) as nat)
        }
    }

    /// A finite number, in units of two to the power -1074.
    pub open spec fn value(self) -> int {
        if self.negative() {
            -(self.units() as int)
        } else {
            self.units() as int
        }
    }

    /// Where the number stands among the others: magnitudes order as the bit
    /// patterns do, and both zeros stand in one place.
    pub open spec fn rank(self) -> int {
        if self.negative() {
            -(self.magnitude() as int)
        } else {
            self.magnitude() as int
        }
    }

    /// The order of numbers, in which nothing takes part that is not one.
    pub open spec fn below(self, other: Double) -> bool {
        !self.not_a_number() && !other.not_a_number() && self.rank() < other.rank()
    }

    pub open spec fn at_most(self, other: Double) -> bool {
        !self.not_a_number() && !other.not_a_number() && self.rank() <= other.rank()
    }

    /// Whether the number lies between zero and one.
    pub open spec fn in_unit(self) -> bool {
        zero().at_most(self) && self.at_most(one())
    }
}

pub open spec fn zero() -> Double {
    Double { bits: 0 }
}

pub open spec fn half() -> Double {
    Double { bits: 0x3fe0_0000_0000_0000 }
}

pub open spec fn one() -> Double {
    Double { bits: 0x3ff0_0000_0000_0000 }
}

// ---------------------------------------------------------------------------
// What the operations yield
// ---------------------------------------------------------------------------
/// The number of a given sign and magnitude.
pub open spec fn signed(negative: bool, magnitude: nat) -> Double {
    Double {
        bits: if negative {
            (SIGN + magnitude) as u64
        } else {
            magnitude as u64
        },
    }
}

pub open spec fn not_a_number() -> Double {
    Double { bits: NOT_A_NUMBER }
}

pub open spec fn magnitude_of(v: int) -> nat {
    if v < 0 {
        (-v) as nat
    } else {
        v as nat
    }
}

/// `a + b`.
pub open spec fn sum(a: Double, b: Double) -> Double {
    if a.not_a_number() || b.not_a_number() {
        not_a_number()
    } else if a.infinite() {
        if b.infinite() && a.negative() != b.negative() {
            not_a_number()
        } else {
            a
        }
    } else if b.infinite() {
        b
    } else {
        let v = a.value() + b.value();
        if v == 0 {
            signed(a.negative() && b.negative(), 0)
        } else {
            signed(v < 0, nearest(magnitude_of(v), 1))
        }
    }
}

pub open spec fn negated(a: Double) -> Double {
    signed(!a.negative(), a.magnitude())
}

pub open spec fn absolute(a: Double) -> Double {
    signed(false, a.magnitude())
}

/// `a - b`.
pub open spec fn difference(a: Double, b: Double) -> Double {
    sum(a, negated(b))
}

/// `a * b`.
pub open spec fn product(a: Double, b: Double) -> Double {
    let negative = a.negative() != b.negative();
    if a.not_a_number() || b.not_a_number() {
        not_a_number()
    } else if a.infinite() || b.infinite() {
        if a.magnitude() == 0 || b.magnitude() == 0 {
            not_a_number()
        } else {
            signed(negative, INFINITY as nat)
        }
    } else {
        signed(negative, nearest(a.units() * b.units(), pow2(1074)))
    }
}

/// `a / b`.
pub open spec fn quotient(a: Double, b: Double) -> Double {
    let negative = a.negative() != b.negative();
    if a.not_a_number() || b.not_a_number() {
        not_a_number()
    } else if a.infinite() {
        if b.infinite() {
            not_a_number()
        } else {
            signed(negative, INFINITY as nat)
        }
    } else if b.infinite() {
        signed(negative, 0)
    } else if b.magnitude() == 0 {
        if a.magnitude() == 0 {
            not_a_number()
        } else {
            signed(negative, INFINITY as nat)
        }
    } else {
        signed(negative, nearest(a.units() * pow2(1074), b.units()))
    }
}

/// The number that an integer is.
pub open spec fn whole(i: int) -> Double {
    signed(i < 0, nearest(magnitude_of(i) * pow2(1074), 1))
}

/// The larger of two numbers; the other one where one is not a number.
pub open spec fn larger(a: Double, b: Double) -> Double {
    if a.not_a_number() || a.below(b) {
        b
    } else {
        a
    }
}

/// The smaller of two numbers; the other one where one is not a number.
pub open spec fn smaller(a: Double, b: Double) -> Double {
    if a.not_a_number() || b.below(a) {
        b
    } else {
        a
    }
}

/// The number itself where it lies between two bounds, the nearer bound where
/// it does not. What is not a number stays so.
pub open spec fn clamped(d: Double, low: Double, high: Double) -> Double {
    if d.below(low) {
        low
    } else if high.below(d) {
        high
    } else {
        d
    }
}

/// The nearest integer, away from zero in between, kept within 32 bits; zero
/// for what is not a number.
pub open spec fn rounded(d: Double) -> i32 {
    if d.not_a_number() {
        0
    } else if d.infinite() {
        if d.negative() {
            i32::MIN
        } else {
            i32::MAX
        }
    } else {
        let n = ((2 * d.units() + pow2(1074)) / (2 * pow2(1074))) as int;
        let v = if d.negative() {
            -n
        } else {
            n
        };
        if v < i32::MIN {
            i32::MIN
        } else if v > i32::MAX {
            i32::MAX
        } else {
            v as i32
        }
    }
}

/// The size of a finite number in ten-thousandths, the even one in between.
pub open spec fn ten_thousandths(d: Double) -> nat {
    rounded_half_even(d.units() * 10000, pow2(1074))
}

/// A number between zero and one with four decimals.
pub open spec fn fixed4(d: Double) -> Seq<char> {
    if d.not_a_number() {
        "NaN"@
    } else {
        let n = ten_thousandths(d) as int;
        (if d.negative() {
            seq!['-']
        } else {
            seq![]
        }) + seq![
            digit(n / 10000),
            '.',
            digit(n / 1000 % 10),
            digit(n / 100 % 10),
            digit(n / 10 % 10),
            digit(n % 10),
        ]
    }
}

// ---------------------------------------------------------------------------
// Facts about units
// ---------------------------------------------------------------------------
/// A magnitude splits into a significand and an exponent from one upwards.
pub proof fn lemma_units(d: Double, m: nat, e: int)
    requires
        d.finite(),
        1 <= e,
        d.magnitude() == (e - 1) * IMPLICIT + m,
        m < 2 * IMPLICIT,
        e > 1 ==> m >= IMPLICIT,
    ensures
        d.units() == m * pow2((e - 1) as nat),
        e <= 2046,
{
    lemma2_to64();
    let magnitude = d.magnitude() as int;
    if m >= IMPLICIT {
        lemma_fundamental_div_mod_converse(magnitude, IMPLICIT as int, e, m - IMPLICIT);
    } else {
        lemma_fundamental_div_mod_converse(magnitude, IMPLICIT as int, 0, m as int);
        assert(m * 1 == m);
    }
}

/// Only zero has no units.
pub proof fn lemma_units_zero(d: Double)
    requires
        d.finite(),
    ensures
        d.units() == 0 <==> d.magnitude() == 0,
{
    let exponent = d.magnitude() / IMPLICIT as nat;
    let fraction = d.magnitude() % IMPLICIT as nat;
    if exponent > 0 {
        lemma_pow2_pos((exponent - 1) as nat);
        assert((IMPLICIT as nat + fraction) * pow2((exponent - 1) as nat) > 0) by (nonlinear_arith)
            requires
                pow2((exponent - 1) as nat) > 0,
        ;
    }
}

/// A larger magnitude has at least as many units.
pub proof fn lemma_larger_magnitude(a: Double, b: Double)
    requires
        a.finite(),
        b.finite(),
        a.magnitude() >= b.magnitude(),
    ensures
        a.units() >= b.units(),
{
    let xa = a.magnitude() / IMPLICIT as nat;
    let xb = b.magnitude() / IMPLICIT as nat;
    let fa = a.magnitude() % IMPLICIT as nat;
    let fb = b.magnitude() % IMPLICIT as nat;
    lemma_div_is_ordered(b.magnitude() as int, a.magnitude() as int, IMPLICIT as int);
    if xa == xb {
        assert(fa >= fb);
        if xa > 0 {
            let p = pow2((xa - 1) as nat);
            assert((IMPLICIT as nat + fa) * p >= (IMPLICIT as nat + fb) * p) by (nonlinear_arith)
                requires
                    fa >= fb,
                    p >= 0,
            ;
        }
    } else {
        let p = pow2((xa - 1) as nat);
        lemma_pow2_pos((xa - 1) as nat);
        assert((IMPLICIT as nat + fa) * p >= IMPLICIT * p) by (nonlinear_arith)
            requires
                p > 0,
        ;
        if xb == 0 {
            assert(IMPLICIT * p >= IMPLICIT) by (nonlinear_arith)
                requires
                    p >= 1,
            ;
        } else {
            let q = pow2((xb - 1) as nat);
            lemma_pow2_pos((xb - 1) as nat);
            lemma_pow2_unfold(xb);
            if xb < xa - 1 {
                lemma_pow2_strictly_increases(xb, (xa - 1) as nat);
            }
            assert((IMPLICIT as nat + fb) * q <= IMPLICIT * p) by (nonlinear_arith)
                requires
                    fb <= IMPLICIT,
                    2 * q <= p,
                    q > 0,
            ;
        }
    }
}

/// Where the point stands at or past the last digit of the significand, the
/// number exceeds 32 bits.
proof fn lemma_huge(d: Double, m: nat, e: nat)
    requires
        m >= IMPLICIT,
        e >= 1075,
        d.units() == m * pow2((e - 1) as nat),
    ensures
        (2 * d.units() + pow2(1074)) / (2 * pow2(1074)) >= 0x1_0000_0000,
{
    let p = pow2(1074);
    lemma_pow2_pos(1074);
    if e > 1075 {
        lemma_pow2_strictly_increases(1074, (e - 1) as nat);
    }
    let u = d.units();
    let g = pow2((e - 1) as nat);
    assert(u >= 0x1_0000_0000 * p) by (nonlinear_arith)
        requires
            u == m * g,
            m >= 0x1_0000_0000,
            g >= p,
    ;
    assert((2 * u + p) / (2 * p) >= 0x1_0000_0000) by (nonlinear_arith)
        requires
            u >= 0x1_0000_0000 * p,
            p > 0,
    ;
}

/// The rounding to an integer, with the digits of the significand alone.
proof fn lemma_half_away(d: Double, m: nat, down: nat)
    requires
        1 <= down <= 1074,
        d.units() == m * pow2((1074 - down) as nat),
    ensures
        (2 * d.units() + pow2(1074)) / (2 * pow2(1074)) == (2 * m + pow2(down)) / (2 * pow2(down)),
{
    let c = pow2((1074 - down) as nat);
    let p = pow2(down);
    lemma_pow2_pos((1074 - down) as nat);
    lemma_pow2_pos(down);
    lemma_pow2_adds(down, (1074 - down) as nat);
    lemma_rounding_scales(2 * m + p, 2 * p, c);
    assert((2 * m + p) * c == 2 * (m * c) + p * c) by (nonlinear_arith);
    assert((2 * p) * c == 2 * (p * c)) by (nonlinear_arith);
}

/// Where all digits stand far behind the point, nothing is left.
proof fn lemma_tiny(d: Double, m: nat, down: nat)
    requires
        m < 2 * IMPLICIT,
        60 < down <= 1074,
        d.units() == m * pow2((1074 - down) as nat),
    ensures
        (2 * d.units() + pow2(1074)) / (2 * pow2(1074)) == 0,
{
    lemma_half_away(d, m, down);
    lemma2_to64_rest();
    if down > 61 {
        lemma_pow2_strictly_increases(61, down);
    }
    lemma_basic_div((2 * m + pow2(down)) as int, (2 * pow2(down)) as int);
}

/// A number between zero and one has at most ten thousand ten-thousandths.
proof fn lemma_unit_bound(d: Double, m: nat, e: int)
    requires
        d.in_unit(),
        1 <= e,
        m < 2 * IMPLICIT,
        e > 1 ==> m >= IMPLICIT,
        d.magnitude() == (e - 1) * IMPLICIT + m,
        d.units() == m * pow2((e - 1) as nat),
    ensures
        e <= 1023,
        ten_thousandths(d) == rounded_half_even(m * 10000, pow2((1075 - e) as nat)),
        ten_thousandths(d) <= 10000,
{
    assert(d.magnitude() <= one().magnitude());
    assert(e <= 1023);
    let down = (1075 - e) as nat;
    let up = (e - 1) as nat;
    lemma_pow2_adds(down, up);
    lemma_pow2_pos(up);
    lemma_pow2_pos(down);
    let p = pow2(down);
    assert((m * pow2(up)) * 10000 == (m * 10000) * pow2(up)) by (nonlinear_arith);
    lemma_rounding_scales(m * 10000, p, pow2(up));
    lemma2_to64_rest();
    if e == 1023 {
        assert(m == IMPLICIT);
        lemma_fundamental_div_mod_converse((m * 10000) as int, p as int, 10000, 0);
    } else {
        if down > 53 {
            lemma_pow2_strictly_increases(53, down);
        }
        assert((m * 10000) / p < 10000) by (nonlinear_arith)
            requires
                m < p,
                p > 0,
        ;
    }
}

/// The same, whatever the number's significand.
proof fn lemma_few_ten_thousandths(d: Double)
    requires
        d.in_unit(),
    ensures
        ten_thousandths(d) <= 10000,
{
    let exponent = d.magnitude() / IMPLICIT as nat;
    let fraction = d.magnitude() % IMPLICIT as nat;
    lemma_fundamental_div_mod(d.magnitude() as int, IMPLICIT as int);
    lemma2_to64();
    if exponent == 0 {
        assert(fraction * 1 == fraction);
        lemma_unit_bound(d, fraction, 1);
    } else {
        lemma_unit_bound(d, IMPLICIT as nat + fraction, exponent as int);
    }
}

/// A rounded ratio is off by at most a half.
pub proof fn lemma_half_even_is_near(n: nat, d: nat)
    requires
        d > 0,
    ensures
        -(d as int) <= 2 * (n - d * rounded_half_even(n, d)) <= d,
{
    let q = n / d;
    let r = n % d;
    lemma_fundamental_div_mod(n as int, d as int);
    lemma_mod_bound(n as int, d as int);
    assert(d * (q + 1) == d * q + d) by (nonlinear_arith);
}

/// Whether two numbers are more than a ten-thousandth apart, or only one of
/// them is a number.
pub open spec fn apart(a: Double, b: Double) -> bool {
    if a.not_a_number() || b.not_a_number() {
        a.not_a_number() != b.not_a_number()
    } else {
        magnitude_of(a.value() - b.value()) * 10000 > pow2(1074)
    }
}

/// Whether a character occurs in a number with four decimals.
pub open spec fn in_fixed4(c: char) -> bool {
    is_digit(c) || c == '.' || c == '-' || c == 'N' || c == 'a'
}

pub proof fn lemma_fixed4_chars(d: Double)
    requires
        d.not_a_number() || d.in_unit(),
    ensures
        forall|i: int| 0 <= i < fixed4(d).len() ==> in_fixed4(#[trigger] fixed4(d)[i]),
        fixed4(d).len() == (if fixed4(d)[0] == 'N' {
            3nat
        } else if fixed4(d)[0] == '-' {
            7
        } else {
            6
        }),
{
    reveal_strlit("NaN");
    if !d.not_a_number() {
        lemma_few_ten_thousandths(d);
    }
}

/// Where two texts begin with numbers of four decimals, the numbers read the
/// same and so does what follows.
pub proof fn lemma_fixed4_ends(a: Double, rest_of_a: Seq<char>, b: Double, rest_of_b: Seq<char>)
    requires
        a.not_a_number() || a.in_unit(),
        b.not_a_number() || b.in_unit(),
        fixed4(a) + rest_of_a == fixed4(b) + rest_of_b,
    ensures
        fixed4(a) == fixed4(b),
        rest_of_a == rest_of_b,
{
    lemma_fixed4_chars(a);
    lemma_fixed4_chars(b);
    let left = fixed4(a) + rest_of_a;
    let right = fixed4(b) + rest_of_b;
    assert(left[0] == fixed4(a)[0]);
    assert(right[0] == fixed4(b)[0]);
    let n = fixed4(a).len() as int;
    assert(fixed4(a) =~= left.take(n));
    assert(fixed4(b) =~= right.take(n));
    assert(rest_of_a =~= left.skip(n));
    assert(rest_of_b =~= right.skip(n));
}

/// Numbers that read the same with four decimals are no more than a
/// ten-thousandth apart.
#[verifier::rlimit(60)]
pub proof fn lemma_same_fixed4_is_near(a: Double, b: Double)
    requires
        a.not_a_number() || a.in_unit(),
        b.not_a_number() || b.in_unit(),
        fixed4(a) == fixed4(b),
    ensures
        !apart(a, b),
{
    reveal_strlit("NaN");
    lemma_fixed4_chars(a);
    lemma_fixed4_chars(b);
    if !a.not_a_number() {
        lemma_few_ten_thousandths(a);
    }
    if !b.not_a_number() {
        lemma_few_ten_thousandths(b);
    }
    assert(a.not_a_number() == (fixed4(a)[0] == 'N'));
    assert(b.not_a_number() == (fixed4(b)[0] == 'N'));
    if !a.not_a_number() {
        assert(a.negative() == (fixed4(a)[0] == '-'));
        assert(b.negative() == (fixed4(b)[0] == '-'));
        let at: int = if a.negative() {
            1
        } else {
            0
        };
        let m = ten_thousandths(a) as int;
        let n = ten_thousandths(b) as int;
        assert(fixed4(a)[at] == digit(m / 10000));
        assert(fixed4(b)[at] == digit(n / 10000));
        assert(fixed4(a)[at + 2] == digit(m / 1000 % 10));
        assert(fixed4(b)[at + 2] == digit(n / 1000 % 10));
        assert(fixed4(a)[at + 3] == digit(m / 100 % 10));
        assert(fixed4(b)[at + 3] == digit(n / 100 % 10));
        assert(fixed4(a)[at + 4] == digit(m / 10 % 10));
        assert(fixed4(b)[at + 4] == digit(n / 10 % 10));
        assert(fixed4(a)[at + 5] == digit(m % 10));
        assert(fixed4(b)[at + 5] == digit(n % 10));
        assert(m == n);
        let p = pow2(1074);
        lemma_pow2_pos(1074);
        lemma_half_even_is_near(a.units() * 10000, p);
        lemma_half_even_is_near(b.units() * 10000, p);
        lemma_units_zero(a);
        lemma_units_zero(b);
    }
}

/// The bits of an integer of at most 53 digits: its digits, extended by zeros
/// to a significand, under an exponent that counts them.
proof fn lemma_whole_magnitude(i: int)
    requires
        0 < i < IMPLICIT,
    ensures
        ({
            let l = bit_length(i as nat);
            &&& 1 <= l <= 53
            &&& whole(i).magnitude() == (l + 1021) * IMPLICIT + i * pow2((53 - l) as nat)
            &&& IMPLICIT <= i * pow2((53 - l) as nat) < 2 * IMPLICIT
            &&& whole(-i).magnitude() == whole(i).magnitude()
        }),
        whole(i).finite(),
        whole(-i).finite(),
        !whole(i).negative(),
        whole(-i).negative(),
{
    let n = i as nat;
    let l = bit_length(n);
    lemma_bit_length(n);
    lemma2_to64_rest();
    if l > 53 {
        if l > 54 {
            lemma_pow2_strictly_increases(53, (l - 1) as nat);
        }
    }
    lemma_nearest_of_integer(n, 1074);
    lemma_extended_bound(n);
    assert(magnitude_of(i) == n && magnitude_of(-i) == n);
}

/// Integers order as the numbers that they are.
pub proof fn lemma_whole_ordered(i: int, j: int)
    requires
        -0x10_0000_0000_0000 < i <= j < 0x10_0000_0000_0000,
    ensures
        whole(i).at_most(whole(j)),
        whole(i).finite(),
        whole(j).finite(),
        i < j ==> whole(i).below(whole(j)),
{
    lemma_whole_zero();
    if i != 0 {
        lemma_whole_magnitude(if i < 0 {
            -i
        } else {
            i
        });
    }
    if j != 0 {
        lemma_whole_magnitude(if j < 0 {
            -j
        } else {
            j
        });
    }
    if i > 0 {
        lemma_whole_magnitudes_ordered(i, j);
    } else if j < 0 {
        lemma_whole_magnitudes_ordered(-j, -i);
    }
}

proof fn lemma_whole_magnitudes_ordered(i: int, j: int)
    requires
        0 < i <= j < IMPLICIT,
    ensures
        whole(i).magnitude() <= whole(j).magnitude(),
        i < j ==> whole(i).magnitude() < whole(j).magnitude(),
{
    lemma_whole_magnitude(i);
    lemma_whole_magnitude(j);
    let li = bit_length(i as nat);
    let lj = bit_length(j as nat);
    lemma_bit_length(i as nat);
    lemma_bit_length(j as nat);
    if lj < li {
        if lj < li - 1 {
            lemma_pow2_strictly_increases(lj, (li - 1) as nat);
        }
        assert(false);
    }
    if li == lj {
        let p = pow2((53 - li) as nat);
        lemma_pow2_pos((53 - li) as nat);
        assert(i * p <= j * p && (i < j ==> i * p < j * p)) by (nonlinear_arith)
            requires
                i <= j,
                p > 0,
        ;
    }
}

pub proof fn lemma_whole_zero()
    ensures
        whole(0) == zero(),
{
    assert(0 * pow2(1074) == 0);
    lemma_nearest_of_nothing(1);
}

/// Integers compare as the numbers that they are.
pub proof fn lemma_whole_at_most(i: int, j: int)
    requires
        -0x10_0000_0000_0000 < i < 0x10_0000_0000_0000,
        -0x10_0000_0000_0000 < j < 0x10_0000_0000_0000,
    ensures
        whole(i).at_most(whole(j)) <==> i <= j,
{
    if i <= j {
        lemma_whole_ordered(i, j);
    } else {
        lemma_whole_ordered(j, i);
    }
}

/// The bits of one.
pub proof fn lemma_whole_one()
    ensures
        whole(1) == one(),
        whole(-1) == negated(one()),
{
    lemma_whole_magnitude(1);
    lemma2_to64_rest();
    lemma2_to64();
    lemma_bit_length_unique(1, 1);
}

/// The bits of an integer of eight binary digits.
pub proof fn lemma_whole_of_eight_digits(i: int)
    requires
        128 <= i < 256,
    ensures
        whole(i).bits == 1029 * IMPLICIT + i * 0x2000_0000_0000,
{
    lemma_whole_magnitude(i);
    lemma2_to64_rest();
    lemma2_to64();
    lemma_bit_length_unique(i as nat, 8);
}

/// An integer has its own size.
pub proof fn lemma_whole_value(i: int)
    requires
        -IMPLICIT < i < IMPLICIT,
    ensures
        whole(i).finite(),
        whole(i).value() == i * pow2(1074),
        whole(i).negative() == (i < 0),
{
    lemma_whole_zero();
    if i == 0 {
        lemma_units_zero(zero());
        assert(0 * pow2(1074) == 0);
    } else {
        let n = magnitude_of(i);
        lemma_whole_magnitude(n as int);
        let l = bit_length(n);
        let m = n * pow2((53 - l) as nat);
        let e = l + 1022;
        lemma_units(whole(i), m, e as int);
        lemma_pow2_adds((53 - l) as nat, (l + 1021) as nat);
        assert((e - 1) as nat == l + 1021);
        assert(m * pow2((l + 1021) as nat) == n * pow2(1074)) by (nonlinear_arith)
            requires
                m == n * pow2((53 - l) as nat),
                pow2(1074) == pow2((53 - l) as nat) * pow2((l + 1021) as nat),
        ;
        assert(i < 0 ==> n * pow2(1074) == -(i * pow2(1074))) by (nonlinear_arith)
            requires
                i < 0 ==> n == -i,
        ;
    }
}

/// Integers add up exactly.
pub proof fn law_integers_add_exactly(i: int, j: int)
    requires
        -0x10_0000_0000_0000 < i < 0x10_0000_0000_0000,
        -0x10_0000_0000_0000 < j < 0x10_0000_0000_0000,
    ensures
        sum(whole(i), whole(j)) == whole(i + j),
        difference(whole(i), whole(j)) == whole(i - j),
{
    lemma_whole_value(i);
    lemma_whole_value(j);
    lemma_whole_zero();
    lemma_pow2_pos(1074);
    let p = pow2(1074);
    lemma_scaled_sum(i, j, p);
    lemma_scaled_sum(i, -j, p);
    let minus = negated(whole(j));
    assert(minus.magnitude() == whole(j).magnitude());
    assert(minus.negative() == !whole(j).negative());
    assert(minus.value() == -whole(j).value());
    assert((-j) * p == -(j * p)) by (nonlinear_arith);
}

proof fn lemma_scaled_sum(i: int, j: int, p: nat)
    requires
        p > 0,
    ensures
        i * p + j * p == (i + j) * p,
        (i + j) * p == 0 <==> i + j == 0,
        (i + j) * p < 0 <==> i + j < 0,
        magnitude_of((i + j) * p) == magnitude_of(i + j) * p,
{
    let k = i + j;
    assert(i * p + j * p == k * p) by (nonlinear_arith)
        requires
            k == i + j,
    ;
    assert(k > 0 ==> k * p > 0) by (nonlinear_arith)
        requires
            p > 0,
    ;
    assert(k < 0 ==> k * p < 0) by (nonlinear_arith)
        requires
            p > 0,
    ;
    assert((-k) * p == -(k * p)) by (nonlinear_arith);
}

/// Adding a number far below the last digit of another one changes nothing.
proof fn lemma_far_apart(ma: nat, ea: nat, x: nat, n: nat)
    requires
        IMPLICIT <= ma < 2 * IMPLICIT,
        ea >= 60,
        x * 0x10_0000 <= pow2(ea),
        n == ma * pow2(ea) + x || n == ma * pow2(ea) - x,
    ensures
        nearest(n, 1) == (if ea * IMPLICIT + ma >= INFINITY {
            INFINITY as nat
        } else {
            ea * IMPLICIT as nat + ma
        }),
{
    let g = pow2(ea);
    lemma_pow2_pos(ea);
    lemma2_to64_rest();
    assert(n / 1 == n);
    let top = IMPLICIT as nat * g;
    assert(top <= ma * g) by (nonlinear_arith)
        requires
            top == IMPLICIT * g,
            IMPLICIT <= ma,
    ;
    assert(ma * g <= 2 * top - g) by (nonlinear_arith)
        requires
            top == IMPLICIT * g,
            ma <= 2 * IMPLICIT - 1,
            g > 0,
    ;
    lemma_pow2_adds(52, ea);
    lemma_pow2_adds(53, ea);
    assert(pow2(53) * g == 2 * top) by (nonlinear_arith)
        requires
            pow2(53) == 2 * IMPLICIT,
            top == IMPLICIT * g,
    ;
    if n >= top {
        assert(n < pow2(53 + ea));
        lemma_bit_length_unique(n, 53 + ea);
        assert(excess(n, 1) == ea);
        assert(1 * g == g);
        if n == ma * g + x {
            lemma_fundamental_div_mod_converse(n as int, g as int, ma as int, x as int);
        } else if x > 0 {
            assert(n == (ma - 1) * g + (g - x)) by (nonlinear_arith)
                requires
                    n == ma * g - x,
            ;
            lemma_fundamental_div_mod_converse(n as int, g as int, ma - 1, g - x);
        } else {
            lemma_fundamental_div_mod_converse(n as int, g as int, ma as int, 0);
        }
    } else {
        // Just below a power of two, where the digits are half as wide.
        assert(ma == IMPLICIT) by (nonlinear_arith)
            requires
                n < top,
                n >= ma * g - x,
                x < g,
                top == IMPLICIT * g,
                ma >= IMPLICIT,
                g > 0,
        ;
        let below = (ea - 1) as nat;
        let h = pow2(below);
        lemma_pow2_unfold(ea);
        lemma_pow2_adds(52, below);
        lemma_pow2_adds(53, below);
        assert(52 + ea == 53 + below);
        lemma_pow2_pos(below);
        assert(pow2(52 + below) == IMPLICIT * h);
        assert(IMPLICIT * h <= n) by (nonlinear_arith)
            requires
                n == IMPLICIT * g - x,
                g == 2 * h,
                x <= h,
                IMPLICIT == 0x10_0000_0000_0000,
        ;
        lemma_bit_length_unique(n, 53 + below);
        assert(excess(n, 1) == below);
        assert(1 * h == h);
        assert(n == (2 * IMPLICIT - 1) * h + (h - x)) by (nonlinear_arith)
            requires
                n == IMPLICIT * g - x,
                g == 2 * h,
        ;
        lemma_fundamental_div_mod_converse(n as int, h as int, 2 * IMPLICIT - 1, h - x);
    }
}

// ---------------------------------------------------------------------------
// Computing
// ---------------------------------------------------------------------------
impl Double {
    pub fn zero() -> (r: Double)
        ensures
            r == zero(),
    {
        Double { bits: 0 }
    }

    pub fn half() -> (r: Double)
        ensures
            r == half(),
    {
        Double { bits: 0x3fe0_0000_0000_0000 }
    }

    pub fn one() -> (r: Double)
        ensures
            r == one(),
    {
        Double { bits: 0x3ff0_0000_0000_0000 }
    }

    pub(crate) fn sized(negative: bool, magnitude: u64) -> (r: Double)
        requires
            magnitude < SIGN,
        ensures
            r == signed(negative, magnitude as nat),
            r.negative() == negative,
            r.magnitude() == magnitude,
    {
        if negative {
            Double { bits: SIGN + magnitude }
        } else {
            Double { bits: magnitude }
        }
    }

    fn magnitude_bits(self) -> (r: u64)
        ensures
            r == self.magnitude(),
            r < SIGN,
    {
        if self.bits >= SIGN {
            self.bits - SIGN
        } else {
            self.bits
        }
    }

    pub(crate) fn is_negative(self) -> (r: bool)
        ensures
            r == self.negative(),
    {
        self.bits >= SIGN
    }

    /// The significand and the exponent, which counts from one.
    pub(crate) fn parts(self) -> (r: (u64, i32))
        requires
            self.finite(),
        ensures
            1 <= r.1 <= 2046,
            r.0 < 2 * IMPLICIT,
            r.1 > 1 ==> r.0 >= IMPLICIT,
            self.magnitude() == (r.1 - 1) * IMPLICIT + r.0,
            self.units() == r.0 * pow2((r.1 - 1) as nat),
    {
        let magnitude: u64 = self.magnitude_bits();
        let exponent: u64 = magnitude / IMPLICIT;
        let fraction: u64 = magnitude % IMPLICIT;
        let (significand, e): (u64, u64) = if exponent == 0 {
            (fraction, 1)
        } else {
            (IMPLICIT + fraction, exponent)
        };
        proof {
            lemma_units(self, significand as nat, e as int);
        }
        (significand, e as i32)
    }

    pub fn is_nan(self) -> (r: bool)
        ensures
            r == self.not_a_number(),
    {
        self.magnitude_bits() > INFINITY
    }

    pub fn is_finite(self) -> (r: bool)
        ensures
            r == self.finite(),
    {
        self.magnitude_bits() < INFINITY
    }

    fn rank_of(self) -> (r: i128)
        ensures
            r == self.rank(),
    {
        if self.bits >= SIGN {
            -((self.bits - SIGN) as i128)
        } else {
            self.bits as i128
        }
    }

    pub fn less(self, other: Double) -> (r: bool)
        ensures
            r == self.below(other),
    {
        !self.is_nan() && !other.is_nan() && self.rank_of() < other.rank_of()
    }

    pub fn less_or_equal(self, other: Double) -> (r: bool)
        ensures
            r == self.at_most(other),
    {
        !self.is_nan() && !other.is_nan() && self.rank_of() <= other.rank_of()
    }

    pub fn clamp(self, low: Double, high: Double) -> (r: Double)
        requires
            low.at_most(high),
        ensures
            r == clamped(self, low, high),
            !self.not_a_number() ==> low.at_most(r) && r.at_most(high),
    {
        if self.less(low) {
            low
        } else if high.less(self) {
            high
        } else {
            self
        }
    }

    pub fn max(self, other: Double) -> (r: Double)
        ensures
            r == larger(self, other),
    {
        if self.is_nan() || self.less(other) {
            other
        } else {
            self
        }
    }

    pub fn min(self, other: Double) -> (r: Double)
        ensures
            r == smaller(self, other),
    {
        if self.is_nan() || other.less(self) {
            other
        } else {
            self
        }
    }

    pub fn neg(self) -> (r: Double)
        ensures
            r == negated(self),
    {
        Double::sized(!self.is_negative(), self.magnitude_bits())
    }

    pub fn abs(self) -> (r: Double)
        ensures
            r == absolute(self),
    {
        Double::sized(false, self.magnitude_bits())
    }

    pub fn from_int(i: i64) -> (r: Double)
        ensures
            r == whole(i as int),
    {
        let size: u128 = if i < 0 {
            (-(i as i128)) as u128
        } else {
            i as u128
        };
        let magnitude: u64 = round_scaled(size, 1074);
        Double::sized(i < 0, magnitude)
    }

    pub fn plus(self, other: Double) -> (r: Double)
        ensures
            r == sum(self, other),
    {
        if self.is_nan() || other.is_nan() {
            return Double { bits: NOT_A_NUMBER };
        }
        if self.magnitude_bits() == INFINITY {
            if other.magnitude_bits() == INFINITY && self.is_negative() != other.is_negative() {
                return Double { bits: NOT_A_NUMBER };
            }
            return self;
        }
        if other.magnitude_bits() == INFINITY {
            return other;
        }
        if self.magnitude_bits() >= other.magnitude_bits() {
            self.plus_smaller(other)
        } else {
            other.plus_smaller(self)
        }
    }

    fn plus_smaller(self, other: Double) -> (r: Double)
        requires
            self.finite(),
            other.finite(),
            self.magnitude() >= other.magnitude(),
        ensures
            r == sum(self, other),
    {
        let (ma, ea) = self.parts();
        let (mb, eb) = other.parts();
        let same_sign: bool = self.is_negative() == other.is_negative();
        proof {
            lemma_units_zero(self);
            lemma_units_zero(other);
            lemma2_to64_rest();
            lemma2_to64();
            lemma_pow2_pos((ea - 1) as nat);
            lemma_pow2_pos((eb - 1) as nat);
        }
        assert(ea >= eb) by (nonlinear_arith)
            requires
                (ea - 1) * IMPLICIT + ma >= (eb - 1) * IMPLICIT + mb,
                ma < 2 * IMPLICIT,
                0 <= mb,
                eb > 1 ==> mb >= IMPLICIT,
                ea >= 1,
        ;
        let apart: u32 = (ea - eb) as u32;
        if apart <= 73 {
            let factor: u128 = power_of_two(apart);
            let ghost u = pow2((eb - 1) as nat);
            proof {
                lemma_pow2_adds(apart as nat, (eb - 1) as nat);
                lemma_pow2_adds(64, 9);
                if apart < 73 {
                    lemma_pow2_strictly_increases(apart as nat, 73);
                }
                assert(ma * factor < 0x20_0000_0000_0000 * 0x200_0000_0000_0000_0000)
                    by (nonlinear_arith)
                    requires
                        ma < 0x20_0000_0000_0000,
                        factor <= 0x200_0000_0000_0000_0000,
                ;
                assert(self.units() == (ma * factor) * u) by (nonlinear_arith)
                    requires
                        self.units() == ma * pow2((ea - 1) as nat),
                        pow2((ea - 1) as nat) == factor * u,
                ;
                lemma_larger_magnitude(self, other);
                assert(ma * factor >= mb) by (nonlinear_arith)
                    requires
                        (ma * factor) * u >= mb * u,
                        u > 0,
                ;
            }
            let big: u128 = ma as u128 * factor;
            let total: u128 = if same_sign {
                big + mb as u128
            } else {
                big - mb as u128
            };
            proof {
                assert(total * u == magnitude_of(self.value() + other.value())) by (nonlinear_arith)
                    requires
                        self.units() == big * u,
                        other.units() == mb * u,
                        big >= mb,
                        same_sign ==> total == big + mb,
                        !same_sign ==> total == big - mb,
                        same_sign == (self.negative() == other.negative()),
                        self.value() == (if self.negative() {
                            -(self.units() as int)
                        } else {
                            self.units() as int
                        }),
                        other.value() == (if other.negative() {
                            -(other.units() as int)
                        } else {
                            other.units() as int
                        }),
                        magnitude_of(self.value() + other.value()) == (if self.value()
                            + other.value() < 0 {
                            -(self.value() + other.value())
                        } else {
                            self.value() + other.value()
                        }),
                        u > 0,
                ;
                assert(total == 0 <==> self.value() + other.value() == 0) by (nonlinear_arith)
                    requires
                        total * u == magnitude_of(self.value() + other.value()),
                        magnitude_of(self.value() + other.value()) == (if self.value()
                            + other.value() < 0 {
                            -(self.value() + other.value())
                        } else {
                            self.value() + other.value()
                        }),
                        u > 0,
                ;
            }
            if total == 0 {
                return Double::sized(self.is_negative() && other.is_negative(), 0);
            }
            let magnitude: u64 = round_scaled(total, eb - 1);
            Double::sized(self.is_negative(), magnitude)
        } else {
            proof {
                let g = pow2((ea - 1) as nat);
                let x = other.units();
                lemma_pow2_adds((ea - eb) as nat, (eb - 1) as nat);
                lemma_pow2_adds(64, 10);
                if apart > 74 {
                    lemma_pow2_strictly_increases(74, apart as nat);
                }
                let u = pow2((eb - 1) as nat);
                let f = pow2(apart as nat);
                assert((ea - eb) as nat == apart as nat);
                assert(x * 0x10_0000 <= g) by (nonlinear_arith)
                    requires
                        x == mb * u,
                        mb < 0x20_0000_0000_0000,
                        g == f * u,
                        f >= 0x400_0000_0000_0000_0000,
                        u > 0,
                ;
                let n = magnitude_of(self.value() + other.value());
                assert(ma * g >= g) by (nonlinear_arith)
                    requires
                        ma >= 1,
                        g > 0,
                ;
                lemma_far_apart(ma as nat, (ea - 1) as nat, x, n);
            }
            self
        }
    }

    pub fn minus(self, other: Double) -> (r: Double)
        ensures
            r == difference(self, other),
    {
        self.plus(other.neg())
    }

    pub fn times(self, other: Double) -> (r: Double)
        ensures
            r == product(self, other),
    {
        if self.is_nan() || other.is_nan() {
            return Double { bits: NOT_A_NUMBER };
        }
        let negative: bool = self.is_negative() != other.is_negative();
        if !self.is_finite() || !other.is_finite() {
            if self.magnitude_bits() == 0 || other.magnitude_bits() == 0 {
                return Double { bits: NOT_A_NUMBER };
            }
            return Double::sized(negative, INFINITY);
        }
        let (ma, ea) = self.parts();
        let (mb, eb) = other.parts();
        assert(ma * mb < 0x20_0000_0000_0000 * 0x20_0000_0000_0000) by (nonlinear_arith)
            requires
                ma < 0x20_0000_0000_0000,
                mb < 0x20_0000_0000_0000,
        ;
        let significands: u128 = ma as u128 * mb as u128;
        let magnitude: u64 = round_scaled(significands, ea + eb - 2 - 1074);
        proof {
            let up = (ea + eb - 2) as nat;
            lemma_pow2_adds((ea - 1) as nat, (eb - 1) as nat);
            assert(self.units() * other.units() == significands * pow2(up)) by (nonlinear_arith)
                requires
                    self.units() == ma * pow2((ea - 1) as nat),
                    other.units() == mb * pow2((eb - 1) as nat),
                    significands == ma * mb,
                    pow2(up) == pow2((ea - 1) as nat) * pow2((eb - 1) as nat),
            ;
            lemma_nearest_rescaled(significands as nat, 1, up, 1074);
            assert(1 * pow2(1074) == pow2(1074));
        }
        Double::sized(negative, magnitude)
    }

    pub fn over(self, other: Double) -> (r: Double)
        ensures
            r == quotient(self, other),
    {
        if self.is_nan() || other.is_nan() {
            return Double { bits: NOT_A_NUMBER };
        }
        let negative: bool = self.is_negative() != other.is_negative();
        if !self.is_finite() {
            if !other.is_finite() {
                return Double { bits: NOT_A_NUMBER };
            }
            return Double::sized(negative, INFINITY);
        }
        if !other.is_finite() {
            return Double::sized(negative, 0);
        }
        if other.magnitude_bits() == 0 {
            if self.magnitude_bits() == 0 {
                return Double { bits: NOT_A_NUMBER };
            }
            return Double::sized(negative, INFINITY);
        }
        let (ma, ea) = self.parts();
        let (mb, eb) = other.parts();
        proof {
            lemma_units_zero(self);
            lemma_units_zero(other);
            let up = (ea - 1 + 1074) as nat;
            let down = (eb - 1) as nat;
            lemma_pow2_adds((ea - 1) as nat, 1074);
            lemma_pow2_pos(down);
            assert(self.units() * pow2(1074) == ma * pow2(up)) by (nonlinear_arith)
                requires
                    self.units() == ma * pow2((ea - 1) as nat),
                    pow2(up) == pow2((ea - 1) as nat) * pow2(1074),
            ;
            if mb > 0 {
                lemma_nearest_rescaled(ma as nat, mb as nat, up, down);
            } else {
                assert(0 * pow2(down) == 0);
            }
        }
        if ma == 0 {
            proof {
                assert(0 * pow2(1074) == 0);
                lemma_nearest_of_nothing(other.units());
            }
            return Double::sized(negative, 0);
        }
        let magnitude: u64 = round_quotient(ma, mb, ea + 1074 - eb);
        Double::sized(negative, magnitude)
    }

    /// The nearest integer, away from zero in between.
    pub fn round(self) -> (r: i32)
        ensures
            r == rounded(self),
    {
        if self.is_nan() {
            return 0;
        }
        if !self.is_finite() {
            return if self.is_negative() {
                i32::MIN
            } else {
                i32::MAX
            };
        }
        let (significand, e) = self.parts();
        let size: u128 = if e >= 1075 {
            proof {
                lemma_huge(self, significand as nat, e as nat);
            }
            0x1_0000_0000
        } else {
            let down: u32 = (1075 - e) as u32;
            if down > 60 {
                proof {
                    lemma_tiny(self, significand as nat, down as nat);
                }
                0
            } else {
                let divisor: u128 = power_of_two(down);
                proof {
                    lemma_half_away(self, significand as nat, down as nat);
                    lemma2_to64_rest();
                    lemma2_to64();
                    if down < 60 {
                        lemma_pow2_strictly_increases(down as nat, 60);
                    }
                }
                let quotient: u128 = (2 * significand as u128 + divisor) / (2 * divisor);
                assert(quotient <= 2 * significand as u128 + divisor) by (nonlinear_arith)
                    requires
                        quotient == (2 * significand as u128 + divisor) / (2 * divisor),
                        divisor > 0,
                ;
                quotient
            }
        };
        if self.is_negative() {
            if size > 0x8000_0000 {
                i32::MIN
            } else {
                (-(size as i64)) as i32
            }
        } else if size > 0x7fff_ffff {
            i32::MAX
        } else {
            size as i32
        }
    }

    /// The number with four decimals.
    pub fn to_fixed4(self) -> (r: String)
        requires
            self.not_a_number() || self.in_unit(),
        ensures
            r@ == fixed4(self),
    {
        if self.is_nan() {
            return String::from_str("NaN");
        }
        let mut out: String = String::new();
        if self.is_negative() {
            out.push('-');
        }
        let (significand, e) = self.parts();
        proof {
            lemma_unit_bound(self, significand as nat, e as int);
        }
        let numerator: u128 = significand as u128 * 10000;
        let down: u32 = (1075 - e) as u32;
        let scaled: u64 = if down > 127 {
            proof {
                lemma_vanishes(numerator as nat, down as nat);
            }
            0
        } else {
            half_even_power(numerator, down) as u64
        };
        out.push(digit_char(scaled / 10000));
        out.push('.');
        out.push(digit_char(scaled / 1000 % 10));
        out.push(digit_char(scaled / 100 % 10));
        out.push(digit_char(scaled / 10 % 10));
        out.push(digit_char(scaled % 10));
        assert(out@ =~= fixed4(self));
        out
    }
}

fn digit_char(d: u64) -> (c: char)
    requires
        d < 10,
    ensures
        c == digit(d as int),
{
    (48u8 + d as u8) as char
}

} // verus!
