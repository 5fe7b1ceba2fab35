//! The arithmetic of the library beside the machine's own.

use mykvm::double::Double;
use mykvm::rounding::{half_even, length_of, power_of_two};

fn d(value: f64) -> Double {
    Double { bits: value.to_bits() }
}

fn f(value: Double) -> f64 {
    f64::from_bits(value.bits)
}

fn agrees(ours: Double, machine: f64) -> bool {
    (f(ours).is_nan() && machine.is_nan()) || ours.bits == machine.to_bits()
}

/// Numbers of every size, the same ones at every run.
struct Numbers {
    state: u64,
}

impl Numbers {
    fn bits(&mut self) -> u64 {
        self.state ^= self.state << 13;
        self.state ^= self.state >> 7;
        self.state ^= self.state << 17;
        self.state
    }

    fn next(&mut self) -> f64 {
        let bits = self.bits();
        match bits % 4 {
            0 => f64::from_bits(self.bits()),
            1 => (self.bits() % 20000) as f64 / 7.0 - 1000.0,
            2 => (self.bits() as i64 % 5000) as f64,
            _ => f64::from_bits((self.bits() & 0x000f_ffff_ffff_ffff) | (0x3f8 + bits % 16) << 52),
        }
    }
}

fn special() -> Vec<f64> {
    vec![
        0.0,
        -0.0,
        1.0,
        -1.0,
        0.5,
        -0.5,
        1.5,
        2.5,
        -2.5,
        0.1,
        1.0 / 3.0,
        4503599627370495.5,
        9007199254740993.0,
        f64::MAX,
        f64::MIN,
        f64::MIN_POSITIVE,
        f64::from_bits(1),
        f64::from_bits(0x000f_ffff_ffff_ffff),
        f64::EPSILON,
        f64::INFINITY,
        f64::NEG_INFINITY,
        f64::NAN,
        2147483647.0,
        2147483647.5,
        -2147483648.0,
        -2147483648.5,
        1e300,
        1e-300,
    ]
}

fn check_pair(a: f64, b: f64) {
    assert!(agrees(d(a).plus(d(b)), a + b), "{a} + {b}");
    assert!(agrees(d(a).minus(d(b)), a - b), "{a} - {b}");
    assert!(agrees(d(a).times(d(b)), a * b), "{a} * {b}");
    assert!(agrees(d(a).over(d(b)), a / b), "{a} / {b}");
    assert_eq!(d(a).less(d(b)), a < b, "{a} < {b}");
    assert_eq!(d(a).less_or_equal(d(b)), a <= b, "{a} <= {b}");
    if a != b {
        assert!(agrees(d(a).max(d(b)), a.max(b)), "{a} max {b}");
        assert!(agrees(d(a).min(d(b)), a.min(b)), "{a} min {b}");
    }
}

fn check_one(a: f64) {
    assert_eq!(d(a).round(), a.round() as i32, "round {a}");
    assert!(agrees(d(a).neg(), -a) || a.is_nan(), "-{a}");
    assert!(agrees(d(a).abs(), a.abs()) || a.is_nan(), "abs {a}");
    assert_eq!(d(a).is_nan(), a.is_nan());
    assert_eq!(d(a).is_finite(), a.is_finite());
    assert!(agrees(d(a).trunc(), a.trunc()), "trunc {a}");
    assert!(agrees(d(a).to_single(), (a as f32) as f64), "single {a}");
    if (0.0..=1.0).contains(&a) || a.is_nan() {
        assert_eq!(d(a).to_fixed4(), format!("{a:.4}"));
    }
}

#[test]
fn special_numbers_behave_as_the_machines_do() {
    for a in special() {
        check_one(a);
        for b in special() {
            check_pair(a, b);
        }
    }
}

#[test]
fn arithmetic_agrees_with_the_machine_on_many_numbers() {
    let mut numbers = Numbers { state: 0x9e37_79b9_7f4a_7c15 };
    for _ in 0..20000 {
        let a = numbers.next();
        let b = numbers.next();
        check_one(a);
        check_pair(a, b);
    }
}

#[test]
fn halves_and_neighbours_round_as_the_machine_rounds() {
    for i in -3000..3000 {
        let half = i as f64 + 0.5;
        for a in [half, f64::from_bits(half.to_bits() - 1), f64::from_bits(half.to_bits() + 1)] {
            check_one(a);
        }
    }
    for i in 0..=20000u32 {
        let a = i as f64 / 20000.0;
        assert_eq!(d(a).to_fixed4(), format!("{a:.4}"));
    }
}

#[test]
fn integers_convert_exactly_or_to_the_nearest() {
    for i in [0, 1, -1, 5, 1 << 53, (1 << 53) + 1, i64::MAX, i64::MIN, -123456789] {
        assert_eq!(d(i as f64), Double::from_int(i));
    }
}

#[test]
fn single_precision_arithmetic_goes_through_doubles() {
    let mut numbers = Numbers { state: 12345 };
    for _ in 0..20000 {
        let a = numbers.next() as f32;
        let b = numbers.next() as f32;
        let (x, y) = (d(a as f64), d(b as f64));
        assert!(agrees(x.plus(y).to_single(), (a + b) as f64), "{a} + {b}");
        assert!(agrees(x.minus(y).to_single(), (a - b) as f64), "{a} - {b}");
        assert!(agrees(x.times(y).to_single(), (a * b) as f64), "{a} * {b}");
        assert!(agrees(x.over(y).to_single(), (a / b) as f64), "{a} / {b}");
    }
}

#[test]
fn clamping_keeps_within_the_bounds() {
    for (a, low, high) in [(5.0, 0.0, 3.0), (-5.0, 0.0, 3.0), (2.0, 0.0, 3.0), (f64::NAN, 0.0, 3.0)] {
        assert!(agrees(d(a).clamp(d(low), d(high)), f64::clamp(a, low, high)));
    }
}

#[test]
fn rounding_to_even_and_powers() {
    assert_eq!(half_even(5, 2), 2);
    assert_eq!(half_even(7, 2), 4);
    assert_eq!(half_even(7, 3), 2);
    assert_eq!(power_of_two(10), 1024);
    assert_eq!(length_of(0), 0);
    assert_eq!(length_of(255), 8);
}

#[test]
fn integers_add_up_exactly() {
    for (i, j) in [(0, 0), (7, -7), (-7, 7), (0, -3), (2_147_483_647, 2_147_483_648), (-9400, 2560)] {
        let (a, b): (i64, i64) = (i, j);
        let sum = Double::from_int(a).plus(Double::from_int(b));
        let difference = Double::from_int(a).minus(Double::from_int(b));
        assert_eq!(sum, Double::from_int(a + b));
        assert_eq!(difference, Double::from_int(a - b));
    }
}
