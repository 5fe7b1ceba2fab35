//! Scrolling on Linux, in both directions.

use mykvm::double::Double;
use mykvm::linux_inject::scroll_to_ei;
use mykvm::linux_input::{discrete_to_notches, CaptureEvent, ScrollState};

fn d(value: f64) -> Double {
    Double { bits: value.to_bits() }
}

fn scrolled(delta_x: i32, delta_y: i32) -> Option<CaptureEvent> {
    Some(CaptureEvent::Scroll { delta_x, delta_y })
}

#[test]
fn scrolling_up_on_the_wire_scrolls_up_in_libei() {
    assert_eq!(scroll_to_ei(0, 1), (0, -120));
    assert_eq!(scroll_to_ei(0, -3), (0, 360));
    // Right is positive on both sides.
    assert_eq!(scroll_to_ei(2, 0), (240, 0));
}

#[test]
fn scroll_notches_are_divided_and_vertical_axis_is_inverted() {
    assert_eq!(discrete_to_notches(120), 1);
    assert_eq!(discrete_to_notches(-240), -2);
    assert_eq!(discrete_to_notches(60), 0);
}

#[test]
fn a_wheel_click_scrolls_once_even_though_it_arrives_twice() {
    let mut scroll = ScrollState::default();
    // One frame: pixels first, then the discrete counterpart.
    assert_eq!(scroll.delta(100, d(0.0), d(15.0)), None);
    assert_eq!(scroll.discrete(100, 0, 120), scrolled(0, -1));
    assert_eq!(scroll.flush(), None);
}

#[test]
fn a_high_resolution_wheel_scrolls_instead_of_being_rounded_to_nothing() {
    let mut scroll = ScrollState::default();
    for frame in 0..3u64 {
        assert_eq!(scroll.discrete(frame, 0, 30), None);
    }
    assert_eq!(scroll.discrete(3, 0, 30), scrolled(0, -1));
}

#[test]
fn high_resolution_remainders_do_not_leak_across_a_reversal() {
    let mut scroll = ScrollState::default();
    assert_eq!(scroll.discrete(0, 0, 60), None);
    assert_eq!(scroll.discrete(1, 0, -60), None);
    assert_eq!(scroll.discrete(2, 0, -120), scrolled(0, 1));
}

#[test]
fn smooth_scroll_without_a_discrete_counterpart_still_gets_through() {
    let mut scroll = ScrollState::default();
    assert_eq!(scroll.delta(100, d(0.0), d(-15.0)), None);
    // The next frame flushes the one before it.
    assert_eq!(scroll.delta(200, d(0.0), d(-15.0)), scrolled(0, 1));
    assert_eq!(scroll.stop(), scrolled(0, 1));
}

#[test]
fn slow_smooth_scrolling_accumulates_instead_of_being_rounded_away() {
    let mut scroll = ScrollState::default();
    for frame in 0..3u64 {
        assert_eq!(scroll.delta(frame, d(0.0), d(5.0)), None);
    }
    assert_eq!(scroll.delta(3, d(0.0), d(5.0)), scrolled(0, -1));
}

#[test]
fn deltas_within_one_frame_are_merged_rather_than_sent_twice() {
    let mut scroll = ScrollState::default();
    assert_eq!(scroll.delta(100, d(0.0), d(8.0)), None);
    assert_eq!(scroll.delta(100, d(0.0), d(8.0)), None);
    assert_eq!(scroll.flush(), scrolled(0, -1));
}

#[test]
fn horizontal_scrolling_keeps_its_sign() {
    let mut scroll = ScrollState::default();
    assert_eq!(scroll.discrete(0, 240, 0), scrolled(2, 0));
    assert_eq!(scroll.delta(1, d(-30.0), d(0.0)), None);
    assert_eq!(scroll.stop(), scrolled(-2, 0));
}

#[test]
fn no_fraction_of_a_notch_is_lost_on_either_axis() {
    let mut scroll = ScrollState::default();
    let steps: [(i32, i32); 7] =
        [(50, -30), (50, -30), (50, 200), (-300, 7), (1, 1), (130, -119), (95, 95)];
    let (mut x, mut y): (i32, i32) = (0, 0);
    for (time, (dx, dy)) in steps.iter().enumerate() {
        if let Some(CaptureEvent::Scroll { delta_x, delta_y }) =
            scroll.discrete(time as u64 / 2, *dx, *dy)
        {
            x += delta_x;
            y -= delta_y;
        }
    }
    let total_x: i32 = steps.iter().map(|step| step.0).sum();
    let total_y: i32 = steps.iter().map(|step| step.1).sum();
    assert_eq!(120 * x + scroll.residue_v120_x, total_x);
    assert_eq!(120 * y + scroll.residue_v120_y, total_y);
    assert!(scroll.residue_v120_x.abs() < 120 && scroll.residue_v120_y.abs() < 120);
}
