//! Arithmetic on numbers as arithmetic with a small error.
//!
//! An operation on doubles yields the number nearest to the exact result. So it
//! keeps the order of its operands, leaves alone what needs no rounding, and is
//! off by no more than the last of 53 binary digits. Whatever is said of
//! positions in terms of plain arithmetic rests on these three facts.

use crate::double::{
    clamped, difference, lemma_half_even_is_near, lemma_larger_magnitude, lemma_units,
    lemma_units_zero, lemma_whole_value, magnitude_of, negated, one, product, quotient, signed, sum,
    zero, Double,
};
use crate::rounding::{
    bit_length, excess, lemma_bit_length, lemma_nearest_of_integer, lemma_nearest_of_nothing,
    lemma_rounding_scales, nearest, rounded_half_even, IMPLICIT, INFINITY,
};
use vstd::arithmetic::div_mod::*;
use vstd::arithmetic::power2::*;
use vstd::prelude::*;

verus! {

// ---------------------------------------------------------------------------
// Rounding keeps the order
// ---------------------------------------------------------------------------
proof fn lemma_half_even_ordered(a: nat, b: nat, d: nat)
    requires
        d > 0,
        a <= b,
    ensures
        rounded_half_even(a, d) <= rounded_half_even(b, d),
{
    lemma_fundamental_div_mod(a as int, d as int);
    lemma_fundamental_div_mod(b as int, d as int);
    lemma_mod_bound(a as int, d as int);
    lemma_mod_bound(b as int, d as int);
    let qa = a / d;
    let qb = b / d;
    assert(qa <= qb) by {
        lemma_div_is_ordered(a as int, b as int, d as int);
    }
    if qa == qb {
        assert(d * qa == d * qb);
    }
}

proof fn lemma_half_even_of_ratios(n1: nat, d1: nat, n2: nat, d2: nat)
    requires
        d1 > 0,
        d2 > 0,
        n1 * d2 <= n2 * d1,
    ensures
        rounded_half_even(n1, d1) <= rounded_half_even(n2, d2),
        n1 / d1 <= n2 / d2,
{
    lemma_rounding_scales(n1, d1, d2);
    lemma_rounding_scales(n2, d2, d1);
    assert(d1 * d2 == d2 * d1) by (nonlinear_arith);
    lemma_half_even_ordered(n1 * d2, n2 * d1, d1 * d2);
    lemma_div_is_ordered((n1 * d2) as int, (n2 * d1) as int, (d1 * d2) as int);
}

proof fn lemma_bit_length_ordered(a: nat, b: nat)
    requires
        a <= b,
    ensures
        bit_length(a) <= bit_length(b),
    decreases a,
{
    if a > 0 {
        lemma_bit_length_ordered(a / 2, b / 2);
    }
}

/// What the digits of a rounded ratio are at least and at most.
proof fn lemma_digits_of_nearest(n: nat, d: nat)
    requires
        d > 0,
    ensures
        d * pow2(excess(n, d)) > 0,
        rounded_half_even(n, d * pow2(excess(n, d))) <= 2 * IMPLICIT,
        excess(n, d) > 0 ==> rounded_half_even(n, d * pow2(excess(n, d))) >= IMPLICIT,
{
    let s = excess(n, d);
    let g = pow2(s);
    let f = n / d;
    lemma_pow2_pos(s);
    lemma2_to64_rest();
    lemma_fundamental_div_mod(n as int, d as int);
    lemma_mod_bound(n as int, d as int);
    let c = d * g;
    assert(c > 0) by (nonlinear_arith)
        requires
            c == d * g,
            d > 0,
            g > 0,
    ;
    if f > 0 {
        lemma_bit_length(f);
        if bit_length(f) < 53 {
            lemma_pow2_strictly_increases(bit_length(f), 53);
        }
        if s > 0 {
            lemma_pow2_adds(53, s);
            lemma_pow2_adds(52, s);
            assert((bit_length(f) - 1) as nat == 52 + s);
        }
    }
    if s == 0 {
        lemma2_to64();
    }
    assert(f < pow2(53) * g) by {
        if s == 0 {
            assert(pow2(53) * 1 == pow2(53));
        }
    }
    let top = pow2(53);
    assert(n <= (top * g) * d) by (nonlinear_arith)
        requires
            n == d * f + n % d,
            n % d < d,
            f + 1 <= top * g,
            d > 0,
    ;
    assert((top * g) * d == top * c) by (nonlinear_arith)
        requires
            c == d * g,
    ;
    lemma_half_even_ordered(n, top * c, c);
    lemma_half_even_of_multiple(top, c);
    if s > 0 {
        let low = pow2(52);
        assert(n >= (low * g) * d) by (nonlinear_arith)
            requires
                n == d * f + n % d,
                n % d >= 0,
                f >= low * g,
                d > 0,
        ;
        assert((low * g) * d == low * c) by (nonlinear_arith)
            requires
                c == d * g,
        ;
        lemma_half_even_ordered(low * c, n, c);
        lemma_half_even_of_multiple(low, c);
    }
}

proof fn lemma_half_even_of_multiple(m: nat, d: nat)
    requires
        d > 0,
    ensures
        rounded_half_even(m * d, d) == m,
{
    lemma_fundamental_div_mod_converse((m * d) as int, d as int, m as int, 0);
}

/// A larger ratio is rounded to no smaller a number.
pub proof fn lemma_nearest_ordered(n1: nat, d1: nat, n2: nat, d2: nat)
    requires
        d1 > 0,
        d2 > 0,
        n1 * d2 <= n2 * d1,
    ensures
        nearest(n1, d1) <= nearest(n2, d2),
{
    lemma_half_even_of_ratios(n1, d1, n2, d2);
    lemma_bit_length_ordered(n1 / d1, n2 / d2);
    let s1 = excess(n1, d1);
    let s2 = excess(n2, d2);
    lemma_digits_of_nearest(n1, d1);
    lemma_digits_of_nearest(n2, d2);
    let i = IMPLICIT as nat;
    let m1 = rounded_half_even(n1, d1 * pow2(s1));
    let m2 = rounded_half_even(n2, d2 * pow2(s2));
    if s1 == s2 {
        let g = pow2(s1);
        assert(n1 * (d2 * g) <= n2 * (d1 * g)) by (nonlinear_arith)
            requires
                n1 * d2 <= n2 * d1,
                g >= 0,
        ;
        lemma_half_even_of_ratios(n1, d1 * g, n2, d2 * g);
    } else {
        assert(s1 * i + m1 <= s2 * i + m2) by (nonlinear_arith)
            requires
                s1 + 1 <= s2,
                m1 <= 2 * i,
                m2 >= i,
        ;
    }
}

// ---------------------------------------------------------------------------
// Ranks and values
// ---------------------------------------------------------------------------
/// The rank of the number nearest to `n / d` units.
pub open spec fn rank_near(n: int, d: nat) -> int {
    if n < 0 {
        -(nearest((-n) as nat, d) as int)
    } else {
        nearest(n as nat, d) as int
    }
}

pub proof fn lemma_rank_near_ordered(n1: int, d1: nat, n2: int, d2: nat)
    requires
        d1 > 0,
        d2 > 0,
        n1 * d2 <= n2 * d1,
    ensures
        rank_near(n1, d1) <= rank_near(n2, d2),
{
    if n1 >= 0 && n2 < 0 {
        assert(n1 * d2 >= 0 && n2 * d1 < 0) by (nonlinear_arith)
            requires
                n1 >= 0,
                n2 < 0,
                d1 > 0,
                d2 > 0,
        ;
    } else if n1 >= 0 {
        lemma_nearest_ordered(n1 as nat, d1, n2 as nat, d2);
    } else if n2 < 0 {
        assert((-n2) * d1 <= (-n1) * d2) by (nonlinear_arith)
            requires
                n1 * d2 <= n2 * d1,
        ;
        lemma_nearest_ordered((-n2) as nat, d2, (-n1) as nat, d1);
    }
}

/// A number needs no rounding.
proof fn lemma_nearest_of_units(x: Double)
    requires
        x.finite(),
    ensures
        nearest(x.units(), 1) == x.magnitude(),
{
    let e = x.magnitude() / IMPLICIT as nat;
    let f = x.magnitude() % IMPLICIT as nat;
    lemma_fundamental_div_mod(x.magnitude() as int, IMPLICIT as int);
    lemma2_to64();
    lemma2_to64_rest();
    if x.magnitude() == 0 {
        lemma_nearest_of_nothing(1);
    } else if e == 0 {
        lemma_bit_length(f);
        if bit_length(f) > 53 {
            lemma_pow2_strictly_increases(53, (bit_length(f) - 1) as nat);
        }
        if bit_length(f) == 53 {
            assert(pow2(52) <= f);
        }
        lemma_nearest_of_integer(f, 0);
        assert(f * 1 == f);
    } else {
        let m = IMPLICIT as nat + f;
        crate::rounding::lemma_bit_length_unique(m, 53);
        lemma_nearest_of_integer(m, e - 1);
        assert(m * 1 == m);
    }
}

pub proof fn lemma_rank_of_value(x: Double)
    requires
        x.finite(),
    ensures
        rank_near(x.value(), 1) == x.rank(),
{
    lemma_nearest_of_units(x);
    lemma_units_zero(x);
}

/// The same where the value is written as a ratio.
pub proof fn lemma_rank_of_ratio(x: Double, n: int, d: nat)
    requires
        x.finite(),
        d > 0,
        n == x.value() * d,
    ensures
        rank_near(n, d) == x.rank(),
{
    lemma_rank_of_value(x);
    let v = x.value();
    lemma_rank_near_ordered(n, d, v, 1);
    lemma_rank_near_ordered(v, 1, n, d);
}

/// Numbers are ordered by their values as by their ranks.
pub proof fn lemma_values_ordered(a: Double, b: Double)
    requires
        a.finite(),
        b.finite(),
    ensures
        a.rank() <= b.rank() <==> a.value() <= b.value(),
        a.rank() == b.rank() <==> a.value() == b.value(),
{
    lemma_rank_of_value(a);
    lemma_rank_of_value(b);
    if a.value() <= b.value() {
        lemma_rank_near_ordered(a.value(), 1, b.value(), 1);
    }
    if b.value() <= a.value() {
        lemma_rank_near_ordered(b.value(), 1, a.value(), 1);
    }
    if a.magnitude() <= b.magnitude() {
        lemma_larger_magnitude(b, a);
    } else {
        lemma_larger_magnitude(a, b);
    }
    lemma_units_zero(a);
    lemma_units_zero(b);
    if a.rank() == b.rank() {
        assert(a.magnitude() == b.magnitude());
    }
}

proof fn lemma_signed(negative: bool, magnitude: nat)
    requires
        magnitude <= INFINITY,
    ensures
        signed(negative, magnitude).magnitude() == magnitude,
        signed(negative, magnitude).negative() == negative,
        !signed(negative, magnitude).not_a_number(),
{
}

// ---------------------------------------------------------------------------
// What the operations yield, by rank
// ---------------------------------------------------------------------------
pub proof fn lemma_sum_rank(a: Double, b: Double)
    requires
        a.finite(),
        b.finite(),
    ensures
        !sum(a, b).not_a_number(),
        sum(a, b).rank() == rank_near(a.value() + b.value(), 1),
{
    let v = a.value() + b.value();
    lemma_nearest_of_nothing(1);
    lemma_signed(a.negative() && b.negative(), 0);
    lemma_signed(v < 0, nearest(magnitude_of(v), 1));
}

pub proof fn lemma_negated(a: Double)
    ensures
        !a.not_a_number() ==> !negated(a).not_a_number() && negated(a).rank() == -a.rank(),
        a.finite() ==> negated(a).finite() && negated(a).value() == -a.value(),
{
    if !a.not_a_number() {
        lemma_signed(!a.negative(), a.magnitude());
    }
}

pub proof fn lemma_difference_rank(a: Double, b: Double)
    requires
        a.finite(),
        b.finite(),
    ensures
        !difference(a, b).not_a_number(),
        difference(a, b).rank() == rank_near(a.value() - b.value(), 1),
{
    lemma_negated(b);
    lemma_sum_rank(a, negated(b));
}

pub proof fn lemma_product_rank(a: Double, b: Double)
    requires
        a.finite(),
        b.finite(),
    ensures
        !product(a, b).not_a_number(),
        product(a, b).rank() == rank_near(a.value() * b.value(), pow2(1074)),
{
    let p = pow2(1074);
    lemma_pow2_pos(1074);
    let n = a.units() * b.units();
    lemma_nearest_of_nothing(p);
    lemma_signed(a.negative() != b.negative(), nearest(n, p));
    let ua = a.units() as int;
    let ub = b.units() as int;
    assert(a.value() * b.value() == (if a.negative() != b.negative() {
        -(ua * ub)
    } else {
        ua * ub
    })) by {
        assert((-ua) * ub == -(ua * ub)) by (nonlinear_arith);
        assert(ua * (-ub) == -(ua * ub)) by (nonlinear_arith);
        assert((-ua) * (-ub) == ua * ub) by (nonlinear_arith);
    }
    assert(ua * ub >= 0) by (nonlinear_arith)
        requires
            ua >= 0,
            ub >= 0,
    ;
}

/// A quotient by a positive number.
pub proof fn lemma_quotient_rank(a: Double, b: Double)
    requires
        a.finite(),
        b.finite(),
        b.value() > 0,
    ensures
        !quotient(a, b).not_a_number(),
        quotient(a, b).rank() == rank_near(a.value() * pow2(1074), b.value() as nat),
{
    let p = pow2(1074);
    lemma_pow2_pos(1074);
    lemma_units_zero(b);
    assert(b.units() == b.value());
    let n = a.units() * p;
    lemma_nearest_of_nothing(b.units());
    lemma_signed(a.negative() != b.negative(), nearest(n, b.units()));
    let ua = a.units() as int;
    assert((-ua) * p == -(ua * p)) by (nonlinear_arith);
    assert(ua * p >= 0) by (nonlinear_arith)
        requires
            ua >= 0,
            p >= 0,
    ;
}

// ---------------------------------------------------------------------------
// The error of one rounding
// ---------------------------------------------------------------------------
/// The number nearest to a ratio below a power of two is off by at most its
/// 53rd digit.
proof fn lemma_nearest_error(n: nat, d: nat, k: nat, x: Double)
    requires
        d > 0,
        53 <= k <= 2000,
        n <= d * pow2(k),
        x.magnitude() == nearest(n, d),
    ensures
        x.finite(),
        x.units() * d - n <= d * pow2((k - 53) as nat),
        n - x.units() * d <= d * pow2((k - 53) as nat),
{
    let s = excess(n, d);
    let g = pow2(s);
    let c = d * g;
    let m = rounded_half_even(n, c);
    lemma_digits_of_nearest(n, d);
    lemma_pow2_pos(s);
    lemma_pow2_pos(k);
    let f = n / d;
    assert(f <= pow2(k)) by {
        let top = pow2(k);
        lemma_div_is_ordered(n as int, (d * top) as int, d as int);
        lemma_fundamental_div_mod_converse((top * d) as int, d as int, top as int, 0);
        assert(d * top == top * d) by (nonlinear_arith);
    }
    assert(s <= k - 52) by {
        if s > k - 52 {
            lemma_bit_length(f);
            lemma_pow2_strictly_increases(k, (bit_length(f) - 1) as nat);
        }
    }
    if s == k - 52 {
        lemma_bit_length(f);
        assert((bit_length(f) - 1) as nat == k);
        assert(f == pow2(k));
        lemma_exact_top(n, d, k, x);
    } else {
        let h = pow2((k - 53) as nat);
        assert(g <= h) by {
            if s < k - 53 {
                lemma_pow2_strictly_increases(s, (k - 53) as nat);
            }
        }
        lemma_bits_to_units(s, m, x, n, d);
        lemma_half_even_is_near(n, c);
        let u = x.units() as int;
        assert(u * d == c * m) by (nonlinear_arith)
            requires
                u == m * g,
                c == d * g,
        ;
        assert(c <= d * h) by (nonlinear_arith)
            requires
                c == d * g,
                g <= h,
                d > 0,
        ;
    }
}

/// At the power of two itself nothing is rounded.
proof fn lemma_exact_top(n: nat, d: nat, k: nat, x: Double)
    requires
        d > 0,
        53 <= k <= 2000,
        n <= d * pow2(k),
        n / d == pow2(k),
        x.magnitude() == nearest(n, d),
    ensures
        x.finite(),
        x.units() * d == n,
        d * pow2((k - 53) as nat) >= 0,
{
    let top = pow2(k);
    lemma_pow2_pos(k);
    lemma_fundamental_div_mod(n as int, d as int);
    lemma_mod_bound(n as int, d as int);
    assert(n == d * top);
    let s = excess(n, d);
    lemma_bit_length(top);
    lemma_pow2_strictly_increases(k, k + 1);
    crate::rounding::lemma_bit_length_unique(top, k + 1);
    assert(s == k - 52);
    lemma_pow2_adds(52, s);
    let g = pow2(s);
    let c = d * g;
    lemma_pow2_pos(s);
    lemma2_to64_rest();
    assert(n == pow2(52) * c) by (nonlinear_arith)
        requires
            n == d * top,
            top == pow2(52) * g,
            c == d * g,
    ;
    lemma_digits_of_nearest(n, d);
    lemma_half_even_of_multiple(pow2(52), c);
    lemma_bits_to_units(s, pow2(52), x, n, d);
    assert(x.units() * d == n) by (nonlinear_arith)
        requires
            x.units() == pow2(52) * g,
            n == d * top,
            top == pow2(52) * g,
    ;
}

proof fn lemma_bits_to_units(s: nat, m: nat, x: Double, n: nat, d: nat)
    requires
        s <= 1960,
        m <= 2 * IMPLICIT,
        s > 0 ==> m >= IMPLICIT,
        s == excess(n, d),
        m == rounded_half_even(n, d * pow2(s)),
        x.magnitude() == nearest(n, d),
    ensures
        x.finite(),
        x.units() == m * pow2(s),
{
    lemma2_to64();
    assert(s * IMPLICIT + m < INFINITY) by (nonlinear_arith)
        requires
            s <= 1960,
            m <= 2 * IMPLICIT,
            IMPLICIT == 0x0010_0000_0000_0000,
            INFINITY == 0x7ff0_0000_0000_0000,
    ;
    if m == 2 * IMPLICIT {
        let i = IMPLICIT as nat;
        assert(s * i + 2 * i == (s + 1) * i + i) by (nonlinear_arith);
        lemma_units(x, i, (s + 2) as int);
        lemma_pow2_unfold(s + 1);
        assert(i * pow2(s + 1) == (2 * i) * pow2(s)) by (nonlinear_arith)
            requires
                pow2(s + 1) == 2 * pow2(s),
        ;
    } else {
        lemma_units(x, m, (s + 1) as int);
    }
}

// ---------------------------------------------------------------------------
// The error of one operation
// ---------------------------------------------------------------------------
/// One, in the units of numbers.
pub open spec fn unit() -> int {
    pow2(1074) as int
}

/// Whether two amounts differ by at most a bound.
pub open spec fn close(a: int, b: int, bound: int) -> bool {
    -bound <= a - b <= bound
}

/// What two to the power of 53 is.
pub open spec fn digits53() -> int {
    0x20_0000_0000_0000
}

proof fn lemma_rank_error(n: int, d: nat, k: nat, x: Double)
    requires
        d > 0,
        k <= 60,
        close(n, 0, d * (pow2(k) * unit())),
        !x.not_a_number(),
        x.rank() == rank_near(n, d),
    ensures
        x.finite(),
        close(digits53() * (x.value() * d), digits53() * n, d * (pow2(k) * unit())),
{
    let top = (1074 + k) as nat;
    lemma_pow2_adds(k, 1074);
    lemma_pow2_adds(53, (top - 53) as nat);
    lemma2_to64_rest();
    let size = magnitude_of(n);
    assert(x.magnitude() == nearest(size, d));
    lemma_nearest_error(size, d, top, x);
    let h = pow2((top - 53) as nat) as int;
    let u = x.units() as int;
    lemma_units_zero(x);
    lemma_nearest_of_nothing(d);
    let v = x.value();
    assert(v * d == (if x.negative() {
        -(u * d)
    } else {
        u * d
    })) by {
        assert((-u) * d == -(u * d)) by (nonlinear_arith);
    }
    assert(n != 0 && x.magnitude() > 0 ==> x.negative() == (n < 0));
    assert(close(v * d, n, d * h));
    assert(digits53() * (d * h) == d * (pow2(k) * unit())) by (nonlinear_arith)
        requires
            pow2(k) * unit() == digits53() * h,
    ;
    let a = v * d;
    let b = d * h;
    assert(close(digits53() * a, digits53() * n, digits53() * b)) by (nonlinear_arith)
        requires
            close(a, n, b),
            digits53() > 0,
    ;
}

pub proof fn lemma_sum_near(a: Double, b: Double, k: nat)
    requires
        a.finite(),
        b.finite(),
        k <= 60,
        close(a.value() + b.value(), 0, pow2(k) * unit()),
    ensures
        sum(a, b).finite(),
        close(
            digits53() * sum(a, b).value(),
            digits53() * (a.value() + b.value()),
            pow2(k) * unit(),
        ),
{
    lemma_sum_rank(a, b);
    assert(1 * (pow2(k) * unit()) == pow2(k) * unit());
    lemma_rank_error(a.value() + b.value(), 1, k, sum(a, b));
    assert(sum(a, b).value() * 1 == sum(a, b).value());
}

pub proof fn lemma_difference_near(a: Double, b: Double, k: nat)
    requires
        a.finite(),
        b.finite(),
        k <= 60,
        close(a.value() - b.value(), 0, pow2(k) * unit()),
    ensures
        difference(a, b).finite(),
        close(
            digits53() * difference(a, b).value(),
            digits53() * (a.value() - b.value()),
            pow2(k) * unit(),
        ),
{
    lemma_negated(b);
    lemma_sum_near(a, negated(b), k);
}

pub proof fn lemma_product_near(a: Double, b: Double, k: nat)
    requires
        a.finite(),
        b.finite(),
        k <= 60,
        close(a.value() * b.value(), 0, unit() * (pow2(k) * unit())),
    ensures
        product(a, b).finite(),
        close(
            digits53() * (product(a, b).value() * unit()),
            digits53() * (a.value() * b.value()),
            unit() * (pow2(k) * unit()),
        ),
{
    lemma_pow2_pos(1074);
    lemma_product_rank(a, b);
    lemma_rank_error(a.value() * b.value(), pow2(1074), k, product(a, b));
}

pub proof fn lemma_quotient_near(a: Double, b: Double, k: nat)
    requires
        a.finite(),
        b.finite(),
        b.value() > 0,
        k <= 60,
        close(a.value() * unit(), 0, b.value() * (pow2(k) * unit())),
    ensures
        quotient(a, b).finite(),
        close(
            digits53() * (quotient(a, b).value() * b.value()),
            digits53() * (a.value() * unit()),
            b.value() * (pow2(k) * unit()),
        ),
{
    lemma_quotient_rank(a, b);
    lemma_rank_error(a.value() * unit(), b.value() as nat, k, quotient(a, b));
}

// ---------------------------------------------------------------------------
// Operations that need no rounding
// ---------------------------------------------------------------------------
pub proof fn lemma_one_value()
    ensures
        one().finite(),
        one().value() == unit(),
        zero().finite(),
        zero().value() == 0,
        unit() > 0,
{
    crate::double::lemma_whole_one();
    crate::double::lemma_whole_zero();
    lemma_whole_value(1);
    lemma_whole_value(0);
    lemma_pow2_pos(1074);
    assert(1 * pow2(1074) == pow2(1074));
    assert(0 * pow2(1074) == 0);
}

/// A result that is a number already is that number.
pub proof fn lemma_exact(x: Double, y: Double, n: int, d: nat)
    requires
        !x.not_a_number(),
        y.finite(),
        d > 0,
        n == y.value() * d,
        x.rank() == rank_near(n, d),
    ensures
        x.finite(),
        x.value() == y.value(),
        x.rank() == y.rank(),
{
    lemma_rank_of_ratio(y, n, d);
    assert(x.magnitude() == y.magnitude());
    lemma_values_ordered(x, y);
}

pub proof fn lemma_exact_sum(a: Double, b: Double, y: Double)
    requires
        a.finite(),
        b.finite(),
        y.finite(),
        a.value() + b.value() == y.value(),
    ensures
        sum(a, b).finite(),
        sum(a, b).value() == y.value(),
{
    lemma_sum_rank(a, b);
    lemma_exact(sum(a, b), y, a.value() + b.value(), 1);
}

pub proof fn lemma_exact_difference(a: Double, b: Double, y: Double)
    requires
        a.finite(),
        b.finite(),
        y.finite(),
        a.value() - b.value() == y.value(),
    ensures
        difference(a, b).finite(),
        difference(a, b).value() == y.value(),
{
    lemma_difference_rank(a, b);
    lemma_exact(difference(a, b), y, a.value() - b.value(), 1);
}

pub proof fn lemma_exact_product(a: Double, b: Double, y: Double)
    requires
        a.finite(),
        b.finite(),
        y.finite(),
        a.value() * b.value() == y.value() * unit(),
    ensures
        product(a, b).finite(),
        product(a, b).value() == y.value(),
{
    lemma_pow2_pos(1074);
    lemma_product_rank(a, b);
    lemma_exact(product(a, b), y, a.value() * b.value(), pow2(1074));
}

pub proof fn lemma_exact_quotient(a: Double, b: Double, y: Double)
    requires
        a.finite(),
        b.finite(),
        b.value() > 0,
        y.finite(),
        a.value() * unit() == y.value() * b.value(),
    ensures
        quotient(a, b).finite(),
        quotient(a, b).value() == y.value(),
{
    lemma_quotient_rank(a, b);
    lemma_exact(quotient(a, b), y, a.value() * unit(), b.value() as nat);
}

/// A clamped number, by value.
pub proof fn lemma_clamped(d: Double, low: Double, high: Double)
    requires
        d.finite(),
        low.finite(),
        high.finite(),
        low.value() <= high.value(),
    ensures
        clamped(d, low, high).finite(),
        clamped(d, low, high).value() == (if d.value() < low.value() {
            low.value()
        } else if d.value() > high.value() {
            high.value()
        } else {
            d.value()
        }),
{
    lemma_values_ordered(d, low);
    lemma_values_ordered(high, d);
    lemma_values_ordered(low, d);
    lemma_values_ordered(d, high);
}

// ---------------------------------------------------------------------------
// Operations keep the order
// ---------------------------------------------------------------------------
pub proof fn lemma_sum_ordered(a: Double, b: Double, c: Double)
    requires
        a.finite(),
        b.finite(),
        c.finite(),
        a.value() <= b.value(),
    ensures
        sum(a, c).rank() <= sum(b, c).rank(),
        sum(c, a).rank() <= sum(c, b).rank(),
        difference(a, c).rank() <= difference(b, c).rank(),
        !sum(a, c).not_a_number(),
        !sum(c, a).not_a_number(),
        !difference(a, c).not_a_number(),
        !sum(b, c).not_a_number(),
        !sum(c, b).not_a_number(),
        !difference(b, c).not_a_number(),
{
    lemma_sum_rank(a, c);
    lemma_sum_rank(b, c);
    lemma_sum_rank(c, a);
    lemma_sum_rank(c, b);
    lemma_difference_rank(a, c);
    lemma_difference_rank(b, c);
    lemma_rank_near_ordered(a.value() + c.value(), 1, b.value() + c.value(), 1);
    lemma_rank_near_ordered(a.value() - c.value(), 1, b.value() - c.value(), 1);
}

pub proof fn lemma_product_ordered(a: Double, b: Double, c: Double)
    requires
        a.finite(),
        b.finite(),
        c.finite(),
        c.value() >= 0,
        a.value() <= b.value(),
    ensures
        product(a, c).rank() <= product(b, c).rank(),
        !product(a, c).not_a_number(),
        !product(b, c).not_a_number(),
{
    lemma_product_rank(a, c);
    lemma_product_rank(b, c);
    let (x, y, z) = (a.value(), b.value(), c.value());
    let p = pow2(1074);
    lemma_pow2_pos(1074);
    assert((x * z) * p <= (y * z) * p) by (nonlinear_arith)
        requires
            x <= y,
            z >= 0,
            p > 0,
    ;
    lemma_rank_near_ordered(x * z, p, y * z, p);
}

pub proof fn lemma_quotient_ordered(a: Double, b: Double, c: Double)
    requires
        a.finite(),
        b.finite(),
        c.finite(),
        c.value() > 0,
        a.value() <= b.value(),
    ensures
        quotient(a, c).rank() <= quotient(b, c).rank(),
        !quotient(a, c).not_a_number(),
        !quotient(b, c).not_a_number(),
{
    lemma_quotient_rank(a, c);
    lemma_quotient_rank(b, c);
    let (x, y) = (a.value(), b.value());
    let p = pow2(1074);
    lemma_pow2_pos(1074);
    let z = c.value() as nat;
    assert((x * p) * z <= (y * p) * z) by (nonlinear_arith)
        requires
            x <= y,
            z > 0,
            p > 0,
    ;
    lemma_rank_near_ordered(x * p, z, y * p, z);
}

} // verus!
