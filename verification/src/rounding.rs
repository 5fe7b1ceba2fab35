//! Rounding of exact ratios to 53 significant bits.
//!
//! Every finite double is a whole number of units of two to the power -1074,
//! written with a significand of at most 53 bits. So the result of an
//! arithmetic operation is an exact ratio of integers in those units, rounded
//! to such a number; `nearest` says to which, and the functions here compute
//! it with integers of 128 bits.

use vstd::arithmetic::div_mod::*;
use vstd::arithmetic::mul::*;
use vstd::arithmetic::power2::*;
use vstd::prelude::*;

verus! {

/// The weight of the implicit leading bit of a significand.
pub const IMPLICIT: u64 = 0x0010_0000_0000_0000;

/// The bit pattern of infinity.
pub const INFINITY: u64 = 0x7ff0_0000_0000_0000;

/// How many binary digits a number has.
pub open spec fn bit_length(n: nat) -> nat
    decreases n,
{
    if n == 0 {
        0
    } else {
        1 + bit_length(n / 2)
    }
}

/// `n / d`, rounded to the nearest integer and to the even one in between.
pub open spec fn rounded_half_even(n: nat, d: nat) -> nat {
    let q = n / d;
    let r = n % d;
    if 2 * r < d || (2 * r == d && q % 2 == 0) {
        q
    } else {
        q + 1
    }
}

/// How many of the binary digits before the point exceed a significand.
pub open spec fn excess(n: nat, d: nat) -> nat {
    if bit_length(n / d) > 53 {
        (bit_length(n / d) - 53) as nat
    } else {
        0
    }
}

/// The magnitude bits of the double nearest to `n / d` units, and of the one
/// with the even significand in between; infinity where it is out of reach.
pub open spec fn nearest(n: nat, d: nat) -> nat {
    let s = excess(n, d);
    let bits = s * IMPLICIT as nat + rounded_half_even(n, d * pow2(s));
    if bits >= INFINITY {
        INFINITY as nat
    } else {
        bits
    }
}

/// `nearest` of `n / d` times two to the power `e`.
pub open spec fn nearest_scaled(n: nat, d: nat, e: int) -> nat {
    if e >= 0 {
        nearest(n * pow2(e as nat), d)
    } else {
        nearest(n, d * pow2((-e) as nat))
    }
}

// ---------------------------------------------------------------------------
// Powers of two and binary digits
// ---------------------------------------------------------------------------
pub proof fn lemma_bit_length(n: nat)
    requires
        n > 0,
    ensures
        bit_length(n) >= 1,
        pow2((bit_length(n) - 1) as nat) <= n < pow2(bit_length(n)),
    decreases n,
{
    lemma2_to64();
    if n >= 2 {
        lemma_bit_length(n / 2);
        lemma_pow2_unfold(bit_length(n));
        lemma_pow2_unfold((bit_length(n) - 1) as nat);
    } else {
        assert(bit_length(1nat / 2) == 0);
    }
}

pub proof fn lemma_bit_length_unique(n: nat, length: nat)
    requires
        length >= 1,
        pow2((length - 1) as nat) <= n < pow2(length),
    ensures
        bit_length(n) == length,
{
    lemma_pow2_pos((length - 1) as nat);
    lemma_bit_length(n);
    let l = bit_length(n);
    if l < length {
        if l < length - 1 {
            lemma_pow2_strictly_increases(l, (length - 1) as nat);
        }
    } else if l > length {
        if l - 1 > length {
            lemma_pow2_strictly_increases(length, (l - 1) as nat);
        }
    }
}

/// Multiplying by a power of two adds binary digits.
proof fn lemma_bit_length_shifted_up(n: nat, k: nat)
    requires
        n > 0,
    ensures
        bit_length(n * pow2(k)) == bit_length(n) + k,
{
    lemma_bit_length(n);
    let l = bit_length(n);
    lemma_pow2_adds((l - 1) as nat, k);
    lemma_pow2_adds(l, k);
    lemma_pow2_pos(k);
    assert(pow2((l - 1) as nat) * pow2(k) <= n * pow2(k)) by (nonlinear_arith)
        requires
            pow2((l - 1) as nat) <= n,
            pow2(k) > 0,
    ;
    assert(n * pow2(k) < pow2(l) * pow2(k)) by (nonlinear_arith)
        requires
            n < pow2(l),
            pow2(k) > 0,
    ;
    assert((l - 1) as nat + k == (l + k - 1) as nat);
    lemma_bit_length_unique(n * pow2(k), l + k);
}

/// Dividing by a power of two takes binary digits away.
proof fn lemma_bit_length_shifted_down(n: nat, k: nat)
    requires
        n > 0,
    ensures
        bit_length(n / pow2(k)) == (if bit_length(n) > k {
            (bit_length(n) - k) as nat
        } else {
            0
        }),
{
    lemma_bit_length(n);
    lemma_pow2_pos(k);
    let l = bit_length(n);
    let p = pow2(k);
    if l > k {
        let m = (l - k) as nat;
        lemma_pow2_adds(m, k);
        lemma_pow2_adds((m - 1) as nat, k);
        assert(pow2(m) * p == pow2(l));
        assert(pow2((m - 1) as nat) * p == pow2((l - 1) as nat));
        assert(n / p >= pow2((m - 1) as nat)) by (nonlinear_arith)
            requires
                n >= pow2((m - 1) as nat) * p,
                p > 0,
        ;
        assert(n / p < pow2(m)) by (nonlinear_arith)
            requires
                n < pow2(m) * p,
                p > 0,
        ;
        lemma_bit_length_unique(n / p, m);
    } else {
        if l < k {
            lemma_pow2_strictly_increases(l, k);
        }
        lemma_basic_div(n as int, p as int);
    }
}

/// Rounding does not depend on the unit.
pub proof fn lemma_rounding_scales(n: nat, d: nat, c: nat)
    requires
        d > 0,
        c > 0,
    ensures
        d * c > 0,
        rounded_half_even(n * c, d * c) == rounded_half_even(n, d),
        (n * c) / (d * c) == n / d,
{
    let q = n / d;
    let r = n % d;
    lemma_fundamental_div_mod(n as int, d as int);
    assert(d * c > 0) by (nonlinear_arith)
        requires
            d > 0,
            c > 0,
    ;
    assert(n * c == q * (d * c) + r * c) by (nonlinear_arith)
        requires
            n == d * q + r,
    ;
    assert(0 <= r * c < d * c) by (nonlinear_arith)
        requires
            0 <= r < d,
            c > 0,
    ;
    lemma_fundamental_div_mod_converse((n * c) as int, (d * c) as int, q as int, (r * c) as int);
    assert(2 * (r * c) < d * c <==> 2 * r < d) by (nonlinear_arith)
        requires
            c > 0,
    ;
    assert(2 * (r * c) == d * c <==> 2 * r == d) by (nonlinear_arith)
        requires
            c > 0,
    ;
}

proof fn lemma_rounding_by_one(n: nat)
    ensures
        rounded_half_even(n, 1) == n,
{
    assert(n / 1 == n && n % 1 == 0);
}

/// The rounded ratio does not depend on the unit either.
pub proof fn lemma_nearest_scales(n: nat, d: nat, c: nat)
    requires
        d > 0,
        c > 0,
    ensures
        nearest(n * c, d * c) == nearest(n, d),
{
    lemma_rounding_scales(n, d, c);
    let s = excess(n, d);
    lemma_pow2_pos(s);
    assert(d * pow2(s) > 0) by (nonlinear_arith)
        requires
            d > 0,
            pow2(s) > 0,
    ;
    lemma_rounding_scales(n, d * pow2(s), c);
    assert((d * pow2(s)) * c == (d * c) * pow2(s)) by (nonlinear_arith);
}

/// Powers of two move between numerator and denominator.
pub proof fn lemma_nearest_rescaled(n: nat, d: nat, up: nat, down: nat)
    requires
        d > 0,
    ensures
        nearest(n * pow2(up), d * pow2(down)) == nearest_scaled(n, d, up - down),
{
    lemma_pow2_pos(up);
    lemma_pow2_pos(down);
    if up >= down {
        let e = (up - down) as nat;
        lemma_pow2_adds(e, down);
        assert(n * pow2(up) == (n * pow2(e)) * pow2(down)) by (nonlinear_arith)
            requires
                pow2(up) == pow2(e) * pow2(down),
        ;
        lemma_nearest_scales(n * pow2(e), d, pow2(down));
    } else {
        let e = (down - up) as nat;
        lemma_pow2_adds(e, up);
        lemma_pow2_pos(e);
        assert(d * pow2(down) == (d * pow2(e)) * pow2(up)) by (nonlinear_arith)
            requires
                pow2(down) == pow2(e) * pow2(up),
        ;
        assert(d * pow2(e) > 0) by (nonlinear_arith)
            requires
                d > 0,
                pow2(e) > 0,
        ;
        lemma_nearest_scales(n, d * pow2(e), pow2(up));
    }
}

// ---------------------------------------------------------------------------
// Computing with 128 bits
// ---------------------------------------------------------------------------
pub fn power_of_two(exponent: u32) -> (r: u128)
    requires
        exponent <= 127,
    ensures
        r == pow2(exponent as nat),
        r > 0,
{
    let mut r: u128 = 1;
    let mut i: u32 = 0;
    proof {
        lemma2_to64();
        lemma_pow2_127();
    }
    while i < exponent
        invariant
            i <= exponent <= 127,
            r == pow2(i as nat),
            pow2(127) == 0x8000_0000_0000_0000_0000_0000_0000_0000,
        decreases exponent - i,
    {
        proof {
            lemma_pow2_unfold((i + 1) as nat);
            if i + 1 < 127 {
                lemma_pow2_strictly_increases((i + 1) as nat, 127);
            }
        }
        r = r * 2;
        i = i + 1;
    }
    proof {
        lemma_pow2_pos(exponent as nat);
    }
    r
}

proof fn lemma_pow2_127()
    ensures
        pow2(127) == 0x8000_0000_0000_0000_0000_0000_0000_0000,
        pow2(126) == 0x4000_0000_0000_0000_0000_0000_0000_0000,
{
    lemma2_to64_rest();
    lemma_pow2_adds(64, 63);
    lemma_pow2_adds(64, 62);
    assert(0x1_0000_0000_0000_0000nat * 0x8000_0000_0000_0000nat
        == 0x8000_0000_0000_0000_0000_0000_0000_0000nat);
    assert(0x1_0000_0000_0000_0000nat * 0x4000_0000_0000_0000nat
        == 0x4000_0000_0000_0000_0000_0000_0000_0000nat);
}

pub fn length_of(n: u128) -> (r: u32)
    ensures
        r == bit_length(n as nat),
        r <= 128,
        n < 0x8000_0000_0000_0000_0000_0000_0000_0000 ==> r <= 127,
{
    let mut rest: u128 = n;
    let mut r: u32 = 0;
    proof {
        lemma2_to64();
    }
    while rest > 0
        invariant
            r + bit_length(rest as nat) == bit_length(n as nat),
            r <= 128,
            rest > 0 ==> rest * pow2(r as nat) <= n,
            r == 0 ==> rest == n,
        decreases rest,
    {
        proof {
            lemma_pow2_unfold((r + 1) as nat);
            let half = rest as nat / 2;
            let p = pow2(r as nat);
            lemma_pow2_pos(r as nat);
            assert(half * (2 * p) <= rest * p) by (nonlinear_arith)
                requires
                    2 * half <= rest,
                    p > 0,
            ;
            if r == 128 {
                lemma_pow2_127();
                lemma_pow2_unfold(128);
                assert(rest * p >= p) by (nonlinear_arith)
                    requires
                        rest >= 1,
                        p > 0,
                ;
                assert(false);
            }
        }
        rest = rest / 2;
        r = r + 1;
    }
    proof {
        if n < 0x8000_0000_0000_0000_0000_0000_0000_0000 && r > 127 {
            lemma_bit_length(n as nat);
            lemma_pow2_127();
        }
    }
    r
}

pub fn half_even(n: u128, d: u128) -> (r: u128)
    requires
        0 < d <= 0x8000_0000_0000_0000_0000_0000_0000_0000,
        n <= 0x8000_0000_0000_0000_0000_0000_0000_0000,
    ensures
        r == rounded_half_even(n as nat, d as nat),
{
    let q: u128 = n / d;
    let rest: u128 = n % d;
    assert(q <= n) by (nonlinear_arith)
        requires
            q == n / d,
            d > 0,
    ;
    if rest < d - rest || (rest == d - rest && q % 2 == 0) {
        q
    } else {
        q + 1
    }
}

/// How `nearest` of a scaled integer comes out: the digits beyond the 53rd are
/// rounded away, and a number with fewer is extended by zeros.
pub proof fn lemma_nearest_of_integer(n: nat, e: int)
    requires
        n > 0,
    ensures
        ({
            let l = bit_length(n);
            let (s, m): (nat, nat) = if l + e > 53 {
                (
                    (l + e - 53) as nat,
                    if l > 53 {
                        rounded_half_even(n, pow2((l - 53) as nat))
                    } else {
                        n * pow2((53 - l) as nat)
                    },
                )
            } else {
                (
                    0,
                    if e >= 0 {
                        n * pow2(e as nat)
                    } else {
                        rounded_half_even(n, pow2((-e) as nat))
                    },
                )
            };
            let bits = s * IMPLICIT as nat + m;
            nearest_scaled(n, 1, e) == (if bits >= INFINITY {
                INFINITY as nat
            } else {
                bits
            })
        }),
{
    let l = bit_length(n);
    if e >= 0 {
        let big = n * pow2(e as nat);
        lemma_bit_length_shifted_up(n, e as nat);
        assert(big / 1 == big);
        if l + e > 53 {
            let s = (l + e - 53) as nat;
            assert(excess(big, 1) == s);
            if l > 53 {
                let k = (l - 53) as nat;
                lemma_pow2_pos(k);
                lemma_pow2_pos(e as nat);
                lemma_pow2_adds(k, e as nat);
                lemma_rounding_scales(n, pow2(k), pow2(e as nat));
                assert(1 * pow2(s) == pow2(k) * pow2(e as nat));
            } else {
                let k = (53 - l) as nat;
                lemma_pow2_pos(s);
                lemma_pow2_adds(k, s);
                assert(n * pow2(e as nat) == (n * pow2(k)) * pow2(s)) by (nonlinear_arith)
                    requires
                        pow2(e as nat) == pow2(k) * pow2(s),
                ;
                lemma_rounding_scales(n * pow2(k), 1, pow2(s));
                lemma_rounding_by_one(n * pow2(k));
                assert(1 * pow2(s) == pow2(s));
            }
        } else {
            assert(excess(big, 1) == 0);
            lemma2_to64();
            lemma_rounding_by_one(big);
        }
    } else {
        let k = (-e) as nat;
        lemma_pow2_pos(k);
        lemma_bit_length_shifted_down(n, k);
        assert(1 * pow2(k) == pow2(k));
        if l + e > 53 {
            let s = (l + e - 53) as nat;
            assert(excess(n, pow2(k)) == s);
            lemma_pow2_adds(k, s);
            assert(k + s == (l - 53) as nat);
        } else {
            assert(excess(n, pow2(k)) == 0);
            lemma2_to64();
            assert(pow2(k) * 1 == pow2(k));
        }
    }
}

/// A number of at most 53 digits stays so when it is extended to 53.
pub proof fn lemma_extended_bound(n: nat)
    requires
        n > 0,
        bit_length(n) <= 53,
    ensures
        IMPLICIT <= n * pow2((53 - bit_length(n)) as nat) < 2 * IMPLICIT,
{
    let l = bit_length(n);
    let k = (53 - l) as nat;
    lemma_bit_length_shifted_up(n, k);
    lemma_pow2_pos(k);
    assert(n * pow2(k) > 0) by (nonlinear_arith)
        requires
            n > 0,
            pow2(k) > 0,
    ;
    lemma_bit_length(n * pow2(k));
    lemma2_to64_rest();
}

/// Rounding to 53 digits leaves a significand, or the next power of two.
proof fn lemma_rounded_bound(n: nat)
    requires
        n > 0,
        bit_length(n) > 53,
    ensures
        IMPLICIT <= rounded_half_even(n, pow2((bit_length(n) - 53) as nat)) <= 2 * IMPLICIT,
{
    let l = bit_length(n);
    let k = (l - 53) as nat;
    lemma_bit_length_shifted_down(n, k);
    lemma_pow2_pos(k);
    let q = n / pow2(k);
    assert(bit_length(q) == 53);
    lemma2_to64_rest();
    assert(q > 0);
    lemma_bit_length(q);
}

/// The magnitude bits of the double nearest to `n` times two to the power `e`.
pub fn round_scaled(n: u128, e: i32) -> (r: u64)
    requires
        n < 0x8000_0000_0000_0000_0000_0000_0000_0000,
        -10000 <= e <= 10000,
    ensures
        r == nearest_scaled(n as nat, 1, e as int),
        r <= INFINITY,
{
    if n == 0 {
        proof {
            lemma_nearest_zero(e as int);
        }
        return 0;
    }
    let length: u32 = length_of(n);
    let total: i32 = length as i32 + e;
    proof {
        lemma_nearest_of_integer(n as nat, e as int);
        lemma_bit_length(n as nat);
    }
    if total > 53 {
        let exponent: i32 = total - 53;
        let significand: u64 = if length > 53 {
            proof {
                lemma_rounded_bound(n as nat);
            }
            half_even_power(n, length - 53) as u64
        } else {
            proof {
                lemma_extended_bound(n as nat);
            }
            let factor: u128 = power_of_two(53 - length);
            (n * factor) as u64
        };
        if exponent >= 2046 {
            return INFINITY;
        }
        let bits: u64 = exponent as u64 * IMPLICIT + significand;
        if bits >= INFINITY {
            INFINITY
        } else {
            bits
        }
    } else if e >= 0 {
        proof {
            lemma_bit_length_shifted_up(n as nat, e as nat);
            lemma_pow2_pos(e as nat);
            assert(n * pow2(e as nat) > 0) by (nonlinear_arith)
                requires
                    n > 0,
                    pow2(e as nat) > 0,
            ;
            lemma_bit_length(n as nat * pow2(e as nat));
            lemma2_to64_rest();
            if total < 53 {
                lemma_pow2_strictly_increases(total as nat, 53);
            }
        }
        let factor: u128 = power_of_two(e as u32);
        (n * factor) as u64
    } else {
        let down: u32 = (-e) as u32;
        if down > 127 {
            proof {
                lemma_vanishes(n as nat, down as nat);
            }
            0
        } else {
            proof {
                lemma_small_rounded_bound(n as nat, down as nat);
            }
            half_even_power(n, down) as u64
        }
    }
}

pub proof fn lemma_nearest_of_nothing(d: nat)
    requires
        d > 0,
    ensures
        nearest(0, d) == 0,
{
    lemma2_to64();
    lemma_basic_div(0, d as int);
    lemma_small_mod(0, d);
    assert(d * 1 == d);
}

proof fn lemma_nearest_zero(e: int)
    ensures
        nearest_scaled(0, 1, e) == 0,
{
    lemma2_to64();
    if e >= 0 {
        assert(0 * pow2(e as nat) == 0);
        lemma_rounding_by_one(0);
    } else {
        let p = pow2((-e) as nat);
        lemma_pow2_pos((-e) as nat);
        assert(0nat / p == 0) by {
            lemma_basic_div(0, p as int);
        }
        assert(0nat % p == 0) by {
            lemma_small_mod(0, p);
        }
        assert(1 * p == p);
        assert(p * 1 == p);
    }
}

/// What is far below one unit rounds to nothing.
pub proof fn lemma_vanishes(n: nat, k: nat)
    requires
        n < 0x8000_0000_0000_0000_0000_0000_0000_0000,
        k > 127,
    ensures
        rounded_half_even(n, pow2(k)) == 0,
{
    lemma_pow2_127();
    lemma_pow2_unfold(128);
    if k > 128 {
        lemma_pow2_strictly_increases(128, k);
    }
    lemma_small_mod(n, pow2(k));
    lemma_basic_div(n as int, pow2(k) as int);
}

proof fn lemma_small_rounded_bound(n: nat, k: nat)
    requires
        n > 0,
        bit_length(n) <= 53 + k,
    ensures
        rounded_half_even(n, pow2(k)) <= 2 * IMPLICIT,
{
    lemma_bit_length_shifted_down(n, k);
    lemma_pow2_pos(k);
    lemma_div_pos_is_pos(n as int, pow2(k) as int);
    let q = n / pow2(k);
    lemma2_to64_rest();
    if q > 0 {
        lemma_bit_length(q);
        if bit_length(q) < 53 {
            lemma_pow2_strictly_increases(bit_length(q), 53);
        }
    }
}

pub fn half_even_power(n: u128, exponent: u32) -> (r: u128)
    requires
        n < 0x8000_0000_0000_0000_0000_0000_0000_0000,
        exponent <= 127,
    ensures
        r == rounded_half_even(n as nat, pow2(exponent as nat)),
{
    let divisor: u128 = power_of_two(exponent);
    proof {
        lemma_pow2_127();
        if exponent < 127 {
            lemma_pow2_strictly_increases(exponent as nat, 127);
        }
    }
    half_even(n, divisor)
}

// ---------------------------------------------------------------------------
// Quotients
// ---------------------------------------------------------------------------
/// The quotient with one binary digit more, which is odd where the division
/// left a remainder: it rounds as the exact ratio does.
pub open spec fn sticky(n: nat, d: nat) -> nat {
    2 * (n / d) + (if n % d == 0 {
        0nat
    } else {
        1nat
    })
}

proof fn lemma_sticky_rounds_alike(n: nat, d: nat, j: nat)
    requires
        d > 0,
        j >= 1,
    ensures
        rounded_half_even(n, d * pow2(j)) == rounded_half_even(sticky(n, d), pow2(j + 1)),
        n / (d * pow2(j)) == sticky(n, d) / pow2(j + 1),
{
    let q = n / d;
    let r = n % d;
    let p = pow2(j);
    let odd: nat = if r == 0 {
        0
    } else {
        1
    };
    lemma_pow2_pos(j);
    lemma_pow2_unfold(j + 1);
    lemma_pow2_unfold(j);
    lemma_fundamental_div_mod(n as int, d as int);
    lemma_fundamental_div_mod(q as int, p as int);
    let high = q / p;
    let low = q % p;
    assert(n == high * (d * p) + (low * d + r)) by (nonlinear_arith)
        requires
            n == d * q + r,
            q == p * high + low,
    ;
    assert(0 <= low * d + r < d * p) by (nonlinear_arith)
        requires
            0 <= low <= p - 1,
            0 <= r < d,
            p > 0,
    ;
    assert(d * p > 0) by (nonlinear_arith)
        requires
            d > 0,
            p > 0,
    ;
    lemma_fundamental_div_mod_converse(
        n as int,
        (d * p) as int,
        high as int,
        (low * d + r) as int,
    );
    let w = 2 * p;
    assert(sticky(n, d) == high * w + (2 * low + odd)) by (nonlinear_arith)
        requires
            sticky(n, d) == 2 * q + odd,
            q == p * high + low,
            w == 2 * p,
    ;
    lemma_fundamental_div_mod_converse(
        sticky(n, d) as int,
        w as int,
        high as int,
        (2 * low + odd) as int,
    );
    // The half of the divisor is even, so only the remainder decides between
    // it and the digits above.
    let h = pow2((j - 1) as nat);
    assert(p == 2 * h);
    if low < h {
        assert(2 * (low * d + r) < d * p) by (nonlinear_arith)
            requires
                low <= h - 1,
                r < d,
                p == 2 * h,
        ;
    } else if low > h {
        assert(2 * (low * d + r) > d * p) by (nonlinear_arith)
            requires
                low >= h + 1,
                r >= 0,
                d > 0,
                p == 2 * h,
        ;
    } else {
        assert(2 * (low * d + r) == d * p + 2 * r) by (nonlinear_arith)
            requires
                low == h,
                p == 2 * h,
        ;
    }
}

proof fn lemma_nearest_of_sticky(n: nat, d: nat, e: int)
    requires
        d > 0,
        bit_length(n / d) >= 55,
    ensures
        nearest_scaled(n, d, e) == nearest_scaled(sticky(n, d), 1, e - 1),
{
    let q = n / d;
    let t = sticky(n, d);
    let l = bit_length(q);
    assert(t / 2 == q);
    assert(bit_length(t) == l + 1);
    lemma_nearest_of_integer(t, e - 1);
    if l + e > 53 {
        let s = (l + e - 53) as nat;
        let j = (l - 53) as nat;
        lemma_sticky_rounds_alike(n, d, j);
        assert(rounded_half_even(t, pow2((l + 1 - 53) as nat)) == rounded_half_even(
            n,
            d * pow2(j),
        ));
        if e >= 0 {
            let p = pow2(e as nat);
            lemma_pow2_pos(e as nat);
            assert(bit_length((n * p) / d) == l + e) by {
                lemma_scaled_quotient_length(n, d, e as nat);
            }
            lemma_pow2_pos(j);
            assert(d * pow2(j) > 0) by (nonlinear_arith)
                requires
                    d > 0,
                    pow2(j) > 0,
            ;
            lemma_rounding_scales(n, d * pow2(j), p);
            lemma_pow2_adds(j, e as nat);
            assert((d * pow2(j)) * p == d * pow2(s)) by (nonlinear_arith)
                requires
                    pow2(s) == pow2(j) * p,
            ;
            assert(nearest(n * p, d) == nearest_scaled(n, d, e));
        } else {
            let k = (-e) as nat;
            lemma_pow2_pos(k);
            lemma_div_denominator(n as int, d as int, pow2(k) as int);
            lemma_bit_length_shifted_down(q, k);
            assert(n / (d * pow2(k)) == q / pow2(k));
            assert(excess(n, d * pow2(k)) == s);
            lemma_pow2_adds(k, s);
            assert((d * pow2(k)) * pow2(s) == d * pow2(j)) by (nonlinear_arith)
                requires
                    pow2(j) == pow2(k) * pow2(s),
            ;
        }
    } else {
        let k = (-e) as nat;
        assert(k >= 2);
        lemma_pow2_pos(k);
        lemma_div_denominator(n as int, d as int, pow2(k) as int);
        lemma_bit_length_shifted_down(q, k);
        assert(n / (d * pow2(k)) == q / pow2(k));
        assert(excess(n, d * pow2(k)) == 0);
        let whole = d * pow2(k);
        lemma2_to64();
        assert(whole * pow2(0) == whole) by (nonlinear_arith)
            requires
                pow2(0) == 1,
        ;
        lemma_sticky_rounds_alike(n, d, k);
        assert((-(e - 1)) as nat == k + 1);
    }
}

/// Scaling a ratio up adds binary digits to its whole part.
proof fn lemma_scaled_quotient_length(n: nat, d: nat, e: nat)
    requires
        d > 0,
        n / d > 0,
    ensures
        bit_length((n * pow2(e)) / d) == bit_length(n / d) + e,
{
    let q = n / d;
    let p = pow2(e);
    let l = bit_length(q);
    lemma_pow2_pos(e);
    lemma_bit_length(q);
    lemma_fundamental_div_mod(n as int, d as int);
    lemma_pow2_adds((l - 1) as nat, e);
    lemma_pow2_adds(l, e);
    let low = pow2((l - 1) as nat);
    let high = pow2(l);
    assert((n * p) / d >= low * p) by (nonlinear_arith)
        requires
            n >= d * q,
            q >= low,
            d > 0,
            p > 0,
    ;
    let r = n % d;
    assert(n < d * (q + 1)) by (nonlinear_arith)
        requires
            n == d * q + r,
            r < d,
    ;
    assert((n * p) / d < high * p) by (nonlinear_arith)
        requires
            n < d * (q + 1),
            q + 1 <= high,
            d > 0,
            p > 0,
    ;
    assert((l - 1) as nat + e == (l + e - 1) as nat);
    lemma_bit_length_unique((n * p) / d, l + e);
}

/// The magnitude bits of the double nearest to `a / b` times two to the power
/// `e`.
pub fn round_quotient(a: u64, b: u64, e: i32) -> (r: u64)
    requires
        0 < a < 2 * IMPLICIT,
        0 < b < 2 * IMPLICIT,
        -5000 <= e <= 5000,
    ensures
        r == nearest_scaled(a as nat, b as nat, e as int),
        r <= INFINITY,
{
    let length: u32 = length_of(a as u128);
    proof {
        lemma_bit_length(a as nat);
        lemma2_to64_rest();
        if length > 53 {
            if length > 54 {
                lemma_pow2_strictly_increases(53, (length - 1) as nat);
            }
        }
        lemma_extended_bound(a as nat);
    }
    let up: u32 = 53 - length;
    let factor: u128 = power_of_two(up);
    let extended: u128 = a as u128 * factor;
    let numerator: u128 = extended * 0x1000_0000_0000_0000;
    let divisor: u128 = b as u128;
    let q: u128 = numerator / divisor;
    let rest: u128 = numerator % divisor;
    let with_sticky: u128 = if rest == 0 {
        2 * q
    } else {
        2 * q + 1
    };
    proof {
        assert(numerator == a * pow2((up + 60) as nat)) by {
            lemma_pow2_adds(up as nat, 60);
            assert(a * (pow2(up as nat) * pow2(60)) == (a * pow2(up as nat)) * pow2(60))
                by (nonlinear_arith);
        }
        assert(q >= 0x8000_0000_0000_00) by (nonlinear_arith)
            requires
                q == numerator / divisor,
                numerator >= 0x10_0000_0000_0000 * 0x1000_0000_0000_0000,
                0 < divisor < 0x20_0000_0000_0000,
        ;
        assert(q <= numerator) by (nonlinear_arith)
            requires
                q == numerator / divisor,
                divisor > 0,
        ;
        lemma_bit_length(q as nat);
        if bit_length(q as nat) < 55 {
            lemma_pow2_strictly_increases(bit_length(q as nat), 55);
        }
        assert(with_sticky == sticky(numerator as nat, divisor as nat));
        let shift = (up + 60) as nat;
        lemma_nearest_of_sticky(numerator as nat, divisor as nat, e - shift);
        lemma_quotient_rescaled(a as nat, b as nat, shift, e as int);
    }
    round_scaled(with_sticky, e - up as i32 - 61)
}

/// Extending the numerator by binary zeros and scaling down by as many cancels.
proof fn lemma_quotient_rescaled(a: nat, b: nat, shift: nat, e: int)
    requires
        b > 0,
    ensures
        nearest_scaled(a * pow2(shift), b, e - shift) == nearest_scaled(a, b, e),
{
    if e >= shift {
        let up = (e - shift) as nat;
        lemma_pow2_adds(shift, up);
        assert((a * pow2(shift)) * pow2(up) == a * pow2(e as nat)) by (nonlinear_arith)
            requires
                pow2(e as nat) == pow2(shift) * pow2(up),
        ;
    } else {
        let down = (shift - e) as nat;
        lemma_nearest_rescaled(a, b, shift, down);
        assert(shift - down == e);
    }
}

} // verus!
