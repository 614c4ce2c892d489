//! The least-squares slope of smoothed delay against arrival time.
//!
//! Times and delays are integers in a unit the caller picks (the same for
//! both), so the fit is exact: the slope comes back as a ratio of two integers
//! rather than a rounded quotient.
use std::collections::VecDeque;
use vstd::prelude::*;

use crate::sums::{lemma_sum_of_affine, lemma_sum_of_nonneg, lemma_sum_of_take_next, sum_of};

verus! {

/// The longest window the estimator accepts: its 128-bit accumulators hold
/// every intermediate value of the fit up to this length.
pub const MAX_WINDOW_LEN: usize = 1048576;

/// One observation of network delay at a point in time.
#[derive(Clone, Copy, Debug, PartialEq, Eq, Structural)]
pub struct PacketTiming {
    /// When the packet arrived: the independent variable.
    pub arrival_time_ms: i32,
    /// The filtered delay of the packet: the dependent variable.
    pub smoothed_delay_ms: i32,
    /// The unfiltered delay, carried for other consumers and not used here.
    pub raw_delay: i32,
}

/// A fitted slope, `numerator / denominator` delay units per time unit.
/// A slope from `linear_fit_slope` has a positive denominator, so the sign of
/// the slope is the sign of its numerator.
#[derive(Clone, Copy, Debug, PartialEq, Eq, Structural)]
pub struct Slope {
    pub numerator: i128,
    pub denominator: i128,
}

/// The arrival time of a sample, the `x` of the fit.
pub open spec fn arrival(p: PacketTiming) -> int {
    p.arrival_time_ms as int
}

/// The smoothed delay of a sample, the `y` of the fit.
pub open spec fn delay(p: PacketTiming) -> int {
    p.smoothed_delay_ms as int
}

/// The sum of all arrival times of the window.
pub open spec fn sum_arrival(s: Seq<PacketTiming>) -> int {
    sum_of(s, |p: PacketTiming| arrival(p))
}

/// The sum of all smoothed delays of the window.
pub open spec fn sum_delay(s: Seq<PacketTiming>) -> int {
    sum_of(s, |p: PacketTiming| delay(p))
}

/// `n * (x - x_avg)` for the arrival time `x` of `p`, over a window of `n` samples.
pub open spec fn arrival_offset(s: Seq<PacketTiming>, p: PacketTiming) -> int {
    s.len() * arrival(p) - sum_arrival(s)
}

/// `n * (y - y_avg)` for the smoothed delay `y` of `p`, over a window of `n` samples.
pub open spec fn delay_offset(s: Seq<PacketTiming>, p: PacketTiming) -> int {
    s.len() * delay(p) - sum_delay(s)
}

/// The term of one sample in `scaled_covariance`.
pub open spec fn covariance_term(s: Seq<PacketTiming>) -> spec_fn(PacketTiming) -> int {
    |p: PacketTiming| arrival_offset(s, p) * delay_offset(s, p)
}

/// The term of one sample in `scaled_variance`.
pub open spec fn variance_term(s: Seq<PacketTiming>) -> spec_fn(PacketTiming) -> int {
    |p: PacketTiming| arrival_offset(s, p) * arrival_offset(s, p)
}

/// `n^2` times the least-squares numerator `sum (x_i - x_avg)(y_i - y_avg)`.
pub open spec fn scaled_covariance(s: Seq<PacketTiming>) -> int {
    sum_of(s, covariance_term(s))
}

/// `n^2` times the least-squares denominator `sum (x_i - x_avg)^2`.
pub open spec fn scaled_variance(s: Seq<PacketTiming>) -> int {
    sum_of(s, variance_term(s))
}

/// Every sample of the window arrived at the same time.
pub open spec fn same_arrival(s: Seq<PacketTiming>) -> bool {
    forall|i: int, j: int|
        0 <= i < s.len() && 0 <= j < s.len() ==> #[trigger] s[i].arrival_time_ms
            == #[trigger] s[j].arrival_time_ms
}

/// A slope can be fitted: two samples or more, not all at one arrival time.
pub open spec fn has_slope(s: Seq<PacketTiming>) -> bool {
    s.len() >= 2 && !same_arrival(s)
}

/// The scaled variance is never negative, and it is zero exactly when all
/// samples of a non-empty window share one arrival time.
pub proof fn lemma_scaled_variance_zero(s: Seq<PacketTiming>)
    requires
        s.len() >= 1,
    ensures
        scaled_variance(s) >= 0,
        scaled_variance(s) == 0 <==> same_arrival(s),
{
    let n = s.len() as int;
    let f = variance_term(s);
    assert forall|i: int| 0 <= i < s.len() implies f(#[trigger] s[i]) >= 0 by {
        let d = arrival_offset(s, s[i]);
        assert(d * d >= 0) by (nonlinear_arith);
    }
    lemma_sum_of_nonneg(s, f);
    if scaled_variance(s) == 0 {
        assert forall|i: int, j: int|
            0 <= i < s.len() && 0 <= j < s.len() implies #[trigger] s[i].arrival_time_ms
            == #[trigger] s[j].arrival_time_ms by {
            let di = arrival_offset(s, s[i]);
            let dj = arrival_offset(s, s[j]);
            assert(f(s[i]) == 0 && f(s[j]) == 0);
            assert(di == 0) by (nonlinear_arith)
                requires
                    di * di == 0,
            ;
            assert(dj == 0) by (nonlinear_arith)
                requires
                    dj * dj == 0,
            ;
            let xi = arrival(s[i]);
            let xj = arrival(s[j]);
            assert(xi == xj) by (nonlinear_arith)
                requires
                    n * xi == n * xj,
                    n > 0,
            ;
        }
    }
    if same_arrival(s) {
        let x0 = arrival(s[0]);
        assert forall|i: int| 0 <= i < s.len() implies arrival(#[trigger] s[i]) == x0 by {
            assert(s[i].arrival_time_ms == s[0].arrival_time_ms);
        }
        lemma_sum_of_affine(s, |p: PacketTiming| arrival(p), |p: PacketTiming| arrival(p), 0, x0);
        assert forall|i: int| 0 <= i < s.len() implies f(#[trigger] s[i]) == 0 by {
            assert(s[i].arrival_time_ms == s[0].arrival_time_ms);
            let d = arrival_offset(s, s[i]);
            assert(d == 0);
            assert(f(s[i]) == d * d);
            assert(d * d == 0) by (nonlinear_arith)
                requires
                    d == 0,
            ;
        }
        lemma_sum_of_affine(s, f, f, 0, 0);
    }
}

/// The offset `n * v - total` of one sample from the mean, scaled by `n`.
fn scaled_offset(n: i128, v: i32, total: i128) -> (r: i128)
    requires
        0 <= n <= MAX_WINDOW_LEN,
        -n * 2147483648 <= total <= n * 2147483648,
    ensures
        r == n * v - total,
        -4503599627370496 <= r <= 4503599627370496,
{
    let w = v as i128;
    proof {
        assert(-2251799813685248 <= n * w <= 2251799813685248) by (nonlinear_arith)
            requires
                0 <= n <= 1048576,
                -2147483648 <= w <= 2147483647,
        ;
    }
    n * w - total
}

/// The product of two scaled offsets.
fn offset_product(a: i128, b: i128) -> (r: i128)
    requires
        -4503599627370496 <= a <= 4503599627370496,
        -4503599627370496 <= b <= 4503599627370496,
    ensures
        r == a * b,
        -20282409603651670423947251286016 <= r <= 20282409603651670423947251286016,
{
    proof {
        assert(-20282409603651670423947251286016 <= a * b <= 20282409603651670423947251286016)
            by (nonlinear_arith)
            requires
                -4503599627370496 <= a <= 4503599627370496,
                -4503599627370496 <= b <= 4503599627370496,
        ;
    }
    a * b
}

/// Fits a line to the window by ordinary least squares and returns its slope,
/// `sum (x_i - x_avg)(y_i - y_avg) / sum (x_i - x_avg)^2` for arrival times `x`
/// and smoothed delays `y`. Both sums are returned multiplied by `n^2`, which
/// keeps them integral and leaves the ratio unchanged.
///
/// There is no slope for fewer than two samples, nor when all samples share
/// one arrival time; the result is then `None`, which is distinct from a flat
/// slope of zero.
pub fn linear_fit_slope(packets: &VecDeque<PacketTiming>) -> (r: Option<Slope>)
    requires
        packets@.len() <= MAX_WINDOW_LEN,
    ensures
        r.is_some() == has_slope(packets@),
        r matches Some(k) ==> {
            &&& k.numerator == scaled_covariance(packets@)
            &&& k.denominator == scaled_variance(packets@)
            &&& k.denominator > 0
        },
{
    let ghost s = packets@;
    let n = packets.len();
    if n < 2 {
        return None;
    }
    let len = n as i128;

    let mut sum_x: i128 = 0;
    let mut sum_y: i128 = 0;
    let mut i: usize = 0;
    while i < n
        invariant
            s == packets@,
            n == s.len(),
            n <= MAX_WINDOW_LEN,
            i <= n,
            sum_x == sum_arrival(s.take(i as int)),
            sum_y == sum_delay(s.take(i as int)),
            -i * 2147483648 <= sum_x <= i * 2147483648,
            -i * 2147483648 <= sum_y <= i * 2147483648,
        decreases n - i,
    {
        let p = &packets[i];
        proof {
            lemma_sum_of_take_next(s, |q: PacketTiming| arrival(q), i as int);
            lemma_sum_of_take_next(s, |q: PacketTiming| delay(q), i as int);
        }
        sum_x = sum_x + p.arrival_time_ms as i128;
        sum_y = sum_y + p.smoothed_delay_ms as i128;
        i = i + 1;
    }
    proof {
        assert(s.take(n as int) =~= s);
    }

    let mut numerator: i128 = 0;
    let mut denominator: i128 = 0;
    let mut j: usize = 0;
    while j < n
        invariant
            s == packets@,
            n == s.len(),
            n <= MAX_WINDOW_LEN,
            len == n,
            j <= n,
            sum_x == sum_arrival(s),
            sum_y == sum_delay(s),
            -len * 2147483648 <= sum_x <= len * 2147483648,
            -len * 2147483648 <= sum_y <= len * 2147483648,
            numerator == sum_of(s.take(j as int), covariance_term(s)),
            denominator == sum_of(s.take(j as int), variance_term(s)),
            -j * 20282409603651670423947251286016 <= numerator <= j
                * 20282409603651670423947251286016,
            -j * 20282409603651670423947251286016 <= denominator <= j
                * 20282409603651670423947251286016,
        decreases n - j,
    {
        let p = &packets[j];
        let dx = scaled_offset(len, p.arrival_time_ms, sum_x);
        let dy = scaled_offset(len, p.smoothed_delay_ms, sum_y);
        proof {
            lemma_sum_of_take_next(s, covariance_term(s), j as int);
            lemma_sum_of_take_next(s, variance_term(s), j as int);
        }
        numerator = numerator + offset_product(dx, dy);
        denominator = denominator + offset_product(dx, dx);
        j = j + 1;
    }
    proof {
        assert(s.take(n as int) =~= s);
        lemma_scaled_variance_zero(s);
    }
    if denominator == 0 {
        return None;
    }
    Some(Slope { numerator, denominator })
}

} // verus!
