//! General facts about the fitted slope, stated over the window's model.
use vstd::prelude::*;
use vstd::seq_lib::to_multiset_len;

use crate::sums::{lemma_sum_of_affine, lemma_sum_of_permutation};
use crate::trendline_estimator::{
    arrival,
    arrival_offset,
    covariance_term,
    delay,
    delay_offset,
    has_slope,
    lemma_scaled_variance_zero,
    same_arrival,
    scaled_covariance,
    scaled_variance,
    sum_arrival,
    sum_delay,
    variance_term,
    PacketTiming,
};

verus! {

/// A window of no sample or of one sample never has a slope, whatever it holds.
pub proof fn law_minimum_size(s: Seq<PacketTiming>)
    requires
        s.len() <= 1,
    ensures
        !has_slope(s),
{
}

/// A window whose samples all share one arrival time has no slope, whatever
/// their delays and however many there are: its variance is zero.
pub proof fn law_degenerate_variance(s: Seq<PacketTiming>)
    requires
        same_arrival(s),
    ensures
        !has_slope(s),
        s.len() >= 1 ==> scaled_variance(s) == 0,
{
    if s.len() >= 1 {
        lemma_scaled_variance_zero(s);
    }
}

/// Where every sample lies on the line `y = (p / q) * x + c / q` and not all
/// arrival times are equal, the fitted slope is exactly `p / q`.
pub proof fn law_exact_linear_recovery(s: Seq<PacketTiming>, p: int, q: int, c: int)
    requires
        q != 0,
        !same_arrival(s),
        forall|i: int| 0 <= i < s.len() ==> q * delay(#[trigger] s[i]) == p * arrival(s[i]) + c,
    ensures
        has_slope(s),
        scaled_variance(s) > 0,
        q * scaled_covariance(s) == p * scaled_variance(s),
{
    let n = s.len() as int;
    assert(n >= 2) by {
        if n < 2 {
            assert(same_arrival(s));
        }
    }
    lemma_scaled_variance_zero(s);
    let sx = sum_arrival(s);
    let sy = sum_delay(s);
    let qy = |e: PacketTiming| q * delay(e);
    lemma_sum_of_affine(s, qy, |e: PacketTiming| delay(e), q, 0);
    lemma_sum_of_affine(s, qy, |e: PacketTiming| arrival(e), p, c);
    assert(q * sy == p * sx + n * c);

    let cov = covariance_term(s);
    let var = variance_term(s);
    let q_cov = |e: PacketTiming| q * cov(e);
    assert forall|i: int| 0 <= i < s.len() implies #[trigger] q_cov(s[i]) == p * var(s[i]) + 0 by {
        let e = s[i];
        let x = arrival(e);
        let y = delay(e);
        let dx = arrival_offset(s, e);
        let dy = delay_offset(s, e);
        assert(q * dy == p * dx) by (nonlinear_arith)
            requires
                q * y == p * x + c,
                q * sy == p * sx + n * c,
                dx == n * x - sx,
                dy == n * y - sy,
        ;
        assert(q * (dx * dy) == p * (dx * dx)) by (nonlinear_arith)
            requires
                q * dy == p * dx,
        ;
    }
    lemma_sum_of_affine(s, q_cov, cov, q, 0);
    lemma_sum_of_affine(s, q_cov, var, p, 0);
}

/// Reordering the samples of a window changes neither whether it has a slope
/// nor the slope: the fit depends on which samples there are, not their order.
pub proof fn law_order_independence(s1: Seq<PacketTiming>, s2: Seq<PacketTiming>)
    requires
        s1.to_multiset() == s2.to_multiset(),
    ensures
        has_slope(s1) == has_slope(s2),
        scaled_covariance(s1) == scaled_covariance(s2),
        scaled_variance(s1) == scaled_variance(s2),
{
    to_multiset_len(s1);
    to_multiset_len(s2);
    lemma_sum_of_permutation(s1, s2, |e: PacketTiming| arrival(e));
    lemma_sum_of_permutation(s1, s2, |e: PacketTiming| delay(e));

    let (c1, c2) = (covariance_term(s1), covariance_term(s2));
    assert forall|i: int| 0 <= i < s1.len() implies #[trigger] c1(s1[i]) == 1 * c2(s1[i]) + 0 by {}
    lemma_sum_of_affine(s1, c1, c2, 1, 0);
    lemma_sum_of_permutation(s1, s2, c2);

    let (v1, v2) = (variance_term(s1), variance_term(s2));
    assert forall|i: int| 0 <= i < s1.len() implies #[trigger] v1(s1[i]) == 1 * v2(s1[i]) + 0 by {}
    lemma_sum_of_affine(s1, v1, v2, 1, 0);
    lemma_sum_of_permutation(s1, s2, v2);

    if s1.len() >= 1 {
        lemma_scaled_variance_zero(s1);
        lemma_scaled_variance_zero(s2);
    }
}

} // verus!
