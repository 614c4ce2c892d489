use std::collections::VecDeque;

use trendline::trendline_estimator::{linear_fit_slope, PacketTiming, Slope};

fn sample(x: i32, y: i32, raw: i32) -> PacketTiming {
    PacketTiming {
        arrival_time_ms: x,
        smoothed_delay_ms: y,
        raw_delay: raw,
    }
}

fn window(points: &[(i32, i32)]) -> VecDeque<PacketTiming> {
    let mut packets = VecDeque::new();
    for &(x, y) in points {
        packets.push_back(sample(x, y, y));
    }
    packets
}

fn value(slope: Slope) -> f64 {
    slope.numerator as f64 / slope.denominator as f64
}

#[test]
fn test_linear_fit_slope_pos() {
    let mut packets = VecDeque::new();
    packets.push_back(sample(1, 1, 1));
    packets.push_back(sample(2, 2, 2));
    packets.push_back(sample(3, 3, 3));

    let slope = linear_fit_slope(&packets);
    assert!(slope.is_some());
    assert_eq!(value(slope.unwrap()), 1.0);
}

#[test]
fn test_linear_fit_slope_neg() {
    let mut packets = VecDeque::new();
    packets.push_back(sample(1, 3, 3));
    packets.push_back(sample(2, 2, 2));
    packets.push_back(sample(3, 1, 1));

    let slope = linear_fit_slope(&packets);
    assert!(slope.is_some());
    assert_eq!(value(slope.unwrap()), -1.0);
}

#[test]
fn test_linear_fit_slope_none() {
    let mut packets = VecDeque::new();
    packets.push_back(sample(1, 3, 3));
    let slope = linear_fit_slope(&packets);
    assert!(slope.is_none());
}

#[test]
fn empty_window_has_no_slope() {
    assert_eq!(linear_fit_slope(&VecDeque::new()), None);
}

#[test]
fn single_sample_has_no_slope_whatever_it_holds() {
    assert_eq!(linear_fit_slope(&window(&[(-7, 1000)])), None);
    assert_eq!(linear_fit_slope(&window(&[(i32::MAX, i32::MIN)])), None);
}

#[test]
fn identical_arrival_times_have_no_slope() {
    assert_eq!(linear_fit_slope(&window(&[(5, 10), (5, 20), (5, 30)])), None);
    assert_eq!(linear_fit_slope(&window(&[(0, 1), (0, 1)])), None);
}

#[test]
fn flat_delay_gives_zero_slope() {
    let slope = linear_fit_slope(&window(&[(1, 5), (2, 5), (3, 5)]));
    assert!(slope.is_some());
    let slope = slope.unwrap();
    assert_eq!(slope.numerator, 0);
    assert!(slope.denominator > 0);
    assert_eq!(value(slope), 0.0);
}

#[test]
fn scaled_sums_are_exact() {
    // n = 3, offsets 3 * x - 6 are -3, 0, 3 for both axes.
    let slope = linear_fit_slope(&window(&[(1, 1), (2, 2), (3, 3)])).unwrap();
    assert_eq!(slope, Slope { numerator: 18, denominator: 18 });
}

#[test]
fn scattered_points_give_least_squares_slope() {
    // n = 4, x offsets -6, -2, 2, 6; y offsets -4, 0, -4, 8.
    let slope = linear_fit_slope(&window(&[(0, 0), (1, 1), (2, 0), (3, 3)])).unwrap();
    assert_eq!(slope, Slope { numerator: 64, denominator: 80 });
    assert_eq!(value(slope), 0.8);
}

#[test]
fn line_with_integer_slope_is_recovered() {
    let points: Vec<(i32, i32)> = [10, 15, 40, 41, 41].iter().map(|&x| (x, 3 * x + 7)).collect();
    let slope = linear_fit_slope(&window(&points)).unwrap();
    assert_eq!(slope.numerator, 3 * slope.denominator);
    assert_eq!(value(slope), 3.0);
}

#[test]
fn line_with_fractional_slope_is_recovered() {
    let slope = linear_fit_slope(&window(&[(0, 1), (2, 2), (4, 3), (10, 6)])).unwrap();
    assert_eq!(2 * slope.numerator, slope.denominator);
    assert_eq!(value(slope), 0.5);
}

#[test]
fn order_of_samples_does_not_matter() {
    let a = linear_fit_slope(&window(&[(0, 0), (1, 1), (2, 0), (3, 3)]));
    let b = linear_fit_slope(&window(&[(3, 3), (0, 0), (2, 0), (1, 1)]));
    assert_eq!(a, b);
    let c = linear_fit_slope(&window(&[(5, 10), (5, 20), (5, 30)]));
    let d = linear_fit_slope(&window(&[(5, 30), (5, 10), (5, 20)]));
    assert_eq!(c, d);
}

#[test]
fn raw_delay_is_not_used() {
    let mut a = VecDeque::new();
    a.push_back(sample(1, 4, 0));
    a.push_back(sample(3, 8, 0));
    let mut b = VecDeque::new();
    b.push_back(sample(1, 4, 1000));
    b.push_back(sample(3, 8, -1000));
    assert_eq!(linear_fit_slope(&a), linear_fit_slope(&b));
    assert_eq!(value(linear_fit_slope(&a).unwrap()), 2.0);
}

#[test]
fn extreme_values_do_not_overflow() {
    let slope = linear_fit_slope(&window(&[(i32::MIN, i32::MAX), (i32::MAX, i32::MIN)])).unwrap();
    assert_eq!(slope.numerator, -slope.denominator);
    assert_eq!(value(slope), -1.0);
}

#[test]
fn long_window_of_extremes() {
    let mut packets = VecDeque::new();
    for i in 0..10000 {
        let x = if i % 2 == 0 { i32::MIN } else { i32::MAX };
        packets.push_back(sample(x, x, 0));
    }
    let slope = linear_fit_slope(&packets).unwrap();
    assert_eq!(slope.numerator, slope.denominator);
}
