//! Single precision, and whole parts.
//!
//! A single is kept as the double of the same value. An operation on singles is
//! the operation on doubles, rounded to single precision.

use crate::double::{difference, not_a_number, product, quotient, signed, sum, Double};
use crate::rounding::{
    bit_length, half_even_power, lemma_bit_length, lemma_rounding_scales, lemma_vanishes,
    length_of, nearest, power_of_two, round_scaled, rounded_half_even, INFINITY, IMPLICIT,
};
use vstd::arithmetic::div_mod::{
    lemma_basic_div, lemma_div_denominator, lemma_div_multiples_vanish,
};
use vstd::arithmetic::power2::{
    lemma2_to64, lemma2_to64_rest, lemma_pow2_adds, lemma_pow2_pos, lemma_pow2_strictly_increases, pow2,
};
use vstd::prelude::*;

verus! {

/// The weight of the last place of a single of a given size, as a power of two
/// in units of two to the power -1074: it has twenty-four binary digits, but
/// its last place weighs at least two to the power -149.
pub open spec fn last_place(units: nat) -> nat {
    if bit_length(units) > 949 {
        (bit_length(units) - 24) as nat
    } else {
        925
    }
}

/// The nearest single, with an even last place in between; infinity from two to
/// the power 128 on.
pub open spec fn single(d: Double) -> Double {
    if d.not_a_number() {
        not_a_number()
    } else if d.infinite() {
        d
    } else {
        let place = last_place(d.units());
        let n = rounded_half_even(d.units(), pow2(place));
        signed(
            d.negative(),
            if n * pow2(place) >= pow2(1202) {
                INFINITY as nat
            } else {
                nearest(n * pow2(place), 1)
            },
        )
    }
}

/// A number without its fraction.
pub open spec fn truncated(d: Double) -> Double {
    if !d.finite() {
        d
    } else {
        signed(d.negative(), nearest((d.units() / pow2(1074)) * pow2(1074), 1))
    }
}

pub open spec fn sum_single(a: Double, b: Double) -> Double {
    single(sum(a, b))
}

pub open spec fn difference_single(a: Double, b: Double) -> Double {
    single(difference(a, b))
}

pub open spec fn product_single(a: Double, b: Double) -> Double {
    single(product(a, b))
}

pub open spec fn quotient_single(a: Double, b: Double) -> Double {
    single(quotient(a, b))
}

/// The length of a shifted number.
pub proof fn lemma_length_shifted(m: nat, e: nat)
    requires
        m > 0,
    ensures
        bit_length(m * pow2(e)) == bit_length(m) + e,
{
    lemma_bit_length(m);
    let l = bit_length(m);
    lemma_pow2_pos(e);
    lemma_pow2_adds(l, e);
    lemma_pow2_adds((l - 1) as nat, e);
    assert(pow2((l - 1) as nat) * pow2(e) <= m * pow2(e) < pow2(l) * pow2(e)) by (nonlinear_arith)
        requires
            pow2((l - 1) as nat) <= m < pow2(l),
            pow2(e) > 0,
    ;
    crate::rounding::lemma_bit_length_unique(m * pow2(e), l + e);
}

impl Double {
    /// The nearest single.
    pub fn to_single(self) -> (r: Double)
        ensures
            r == single(self),
    {
        if self.is_nan() {
            return Double { bits: crate::double::NOT_A_NUMBER };
        }
        if !self.is_finite() {
            return self;
        }
        let (m, e) = self.parts();
        let length: u32 = length_of(m as u128);
        let ghost u = self.units();
        let ghost low = (e - 1) as nat;
        proof {
            if m == 0 {
                assert(u == 0) by (nonlinear_arith)
                    requires
                        u == 0 * pow2(low),
                ;
                assert(bit_length(0) == 0);
            } else {
                lemma_length_shifted(m as nat, low);
                lemma_bit_length(m as nat);
                if length > 53 {
                    lemma2_to64();
                    lemma2_to64_rest();
                    lemma_pow2_strictly_increases(52, (length - 1) as nat);
                    if length > 54 {
                        lemma_pow2_strictly_increases(53, (length - 1) as nat);
                    }
                }
                if e > 1 && length < 53 {
                    lemma2_to64();
                    lemma2_to64_rest();
                    if length < 52 {
                        lemma_pow2_strictly_increases(length as nat, 52);
                    }
                }
            }
        }
        let total: i32 = if m == 0 {
            0
        } else {
            length as i32 + e - 1
        };
        assert(total == bit_length(u));
        let place: i32 = if total > 949 {
            total - 24
        } else {
            925
        };
        assert(place == last_place(u));
        assert(place >= e - 1);
        let shift: u32 = (place - (e - 1)) as u32;
        proof {
            lemma_pow2_pos(shift as nat);
            lemma_pow2_pos(low);
            lemma_pow2_adds(shift as nat, low);
            lemma_rounding_scales(m as nat, pow2(shift as nat), pow2(low));
            assert(rounded_half_even(u, pow2(place as nat)) == rounded_half_even(
                m as nat,
                pow2(shift as nat),
            ));
        }
        let n: u128 = if shift > 127 {
            proof {
                lemma_vanishes(m as nat, shift as nat);
            }
            0
        } else {
            half_even_power(m as u128, shift)
        };
        proof {
            lemma_round_bound(m as nat, shift as nat);
        }
        let n_length: u32 = length_of(n);
        let over: bool = n > 0 && n_length as i32 + place > 1202;
        proof {
            if n > 0 {
                lemma_length_shifted(n as nat, place as nat);
                lemma_bit_length((n * pow2(place as nat)) as nat);
                let l = bit_length((n * pow2(place as nat)) as nat);
                if l > 1202 {
                    if l > 1203 {
                        lemma_pow2_strictly_increases(1202, (l - 1) as nat);
                    }
                } else if l < 1202 {
                    lemma_pow2_strictly_increases(l, 1202);
                }
            } else {
                lemma_pow2_pos(1202);
                assert(n * pow2(place as nat) == 0) by (nonlinear_arith)
                    requires
                        n == 0,
                ;
            }
        }
        if over {
            return Double::sized(self.is_negative(), INFINITY);
        }
        let bits: u64 = round_scaled(n, place);
        Double::sized(self.is_negative(), bits)
    }

    /// The number without its fraction.
    pub fn trunc(self) -> (r: Double)
        ensures
            r == truncated(self),
    {
        if !self.is_finite() {
            return self;
        }
        let (m, e) = self.parts();
        let ghost u = self.units();
        let ghost whole = u / pow2(1074);
        let bits: u64 = if e >= 1075 {
            proof {
                let up = (e - 1 - 1074) as nat;
                lemma_pow2_pos(1074);
                lemma_pow2_adds(up, 1074);
                assert(u == (m * pow2(up)) * pow2(1074)) by (nonlinear_arith)
                    requires
                        u == m * pow2((e - 1) as nat),
                        pow2((e - 1) as nat) == pow2(up) * pow2(1074),
                ;
                lemma_div_multiples_vanish((m * pow2(up)) as int, pow2(1074) as int);
                assert(pow2(1074) * (m * pow2(up)) == (m * pow2(up)) * pow2(1074)) by (nonlinear_arith);
            }
            round_scaled(m as u128, e - 1)
        } else {
            let down: u32 = (1075 - e) as u32;
            proof {
                let low = (e - 1) as nat;
                lemma_pow2_pos(low);
                lemma_pow2_pos(down as nat);
                lemma_pow2_adds(down as nat, low);
                assert(down + low == 1074);
                lemma_shifted_quotient(m as nat, down as nat, low);
            }
            let q: u128 = if down > 60 {
                proof {
                    lemma2_to64();
                    lemma2_to64_rest();
                    lemma_pow2_strictly_increases(60, down as nat);
                    lemma_basic_div(m as int, pow2(down as nat) as int);
                }
                0
            } else {
                m as u128 / power_of_two(down)
            };
            proof {
                assert(q == whole);
                assert(q <= m) by (nonlinear_arith)
                    requires
                        q == m as nat / pow2(down as nat),
                        pow2(down as nat) > 0,
                ;
            }
            round_scaled(q, 1074)
        };
        Double::sized(self.is_negative(), bits)
    }
}

/// Rounding does not go beyond the number.
proof fn lemma_round_bound(m: nat, shift: nat)
    requires
        m < 2 * IMPLICIT,
    ensures
        rounded_half_even(m, pow2(shift)) <= 2 * IMPLICIT,
{
    lemma_pow2_pos(shift);
    let d = pow2(shift);
    assert(m / d <= m) by (nonlinear_arith)
        requires
            d > 0,
            m >= 0,
    ;
}

proof fn lemma_shifted_quotient(m: nat, down: nat, low: nat)
    requires
        down + low == 1074,
    ensures
        (m * pow2(low)) / pow2(1074) == m / pow2(down),
{
    lemma_pow2_pos(low);
    lemma_pow2_pos(down);
    lemma_pow2_adds(low, down);
    lemma_div_denominator((m * pow2(low)) as int, pow2(low) as int, pow2(down) as int);
    lemma_div_multiples_vanish(m as int, pow2(low) as int);
    assert(pow2(low) * m == m * pow2(low)) by (nonlinear_arith);
}

} // verus!
