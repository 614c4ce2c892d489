//! Sums over sequences of samples and the algebra the slope proofs need.
use vstd::prelude::*;
use vstd::multiset::group_multiset_axioms;
use vstd::seq_lib::group_to_multiset_ensures;

verus! {

/// The sum of `f` over the elements of `s`, taken left to right.
pub open spec fn sum_of<T>(s: Seq<T>, f: spec_fn(T) -> int) -> int
    decreases s.len(),
{
    if s.len() == 0 {
        0
    } else {
        sum_of(s.drop_last(), f) + f(s.last())
    }
}

/// The sum over a sequence extended by one element adds that element's term.
pub proof fn lemma_sum_of_push<T>(s: Seq<T>, f: spec_fn(T) -> int, e: T)
    ensures
        sum_of(s.push(e), f) == sum_of(s, f) + f(e),
{
    assert(s.push(e).drop_last() =~= s);
}

/// Extending a prefix by the next element adds that element's term.
pub proof fn lemma_sum_of_take_next<T>(s: Seq<T>, f: spec_fn(T) -> int, i: int)
    requires
        0 <= i < s.len(),
    ensures
        sum_of(s.take(i + 1), f) == sum_of(s.take(i), f) + f(s[i]),
{
    assert(s.take(i + 1) =~= s.take(i).push(s[i]));
    lemma_sum_of_push(s.take(i), f, s[i]);
}

/// The sum over the whole sequence is the sum over all of it but position `k`,
/// plus the term at `k`.
pub proof fn lemma_sum_of_remove<T>(s: Seq<T>, f: spec_fn(T) -> int, k: int)
    requires
        0 <= k < s.len(),
    ensures
        sum_of(s, f) == sum_of(s.remove(k), f) + f(s[k]),
    decreases s.len(),
{
    if k == s.len() - 1 {
        assert(s.remove(k) =~= s.drop_last());
    } else {
        let init = s.drop_last();
        lemma_sum_of_remove(init, f, k);
        assert(s.remove(k) =~= init.remove(k).push(s.last()));
        lemma_sum_of_push(init.remove(k), f, s.last());
    }
}

/// Two sequences that hold the same elements, each as often, have the same sum.
pub proof fn lemma_sum_of_permutation<T>(s1: Seq<T>, s2: Seq<T>, f: spec_fn(T) -> int)
    requires
        s1.to_multiset() == s2.to_multiset(),
    ensures
        sum_of(s1, f) == sum_of(s2, f),
    decreases s2.len(),
{
    broadcast use group_to_multiset_ensures, group_multiset_axioms;

    if s2.len() == 0 {
        assert(s1.to_multiset().len() == 0);
    } else {
        let e = s2.last();
        let init = s2.drop_last();
        assert(s2 =~= init.push(e));
        assert(s1.to_multiset().count(e) > 0);
        assert(s1.contains(e));
        let k = choose|k: int| 0 <= k < s1.len() && s1[k] == e;
        lemma_sum_of_remove(s1, f, k);
        assert(s1.remove(k).to_multiset() =~= init.to_multiset());
        lemma_sum_of_permutation(s1.remove(k), init, f);
    }
}

/// A sum of terms that are never negative is never negative, and it is zero
/// only when every term is.
pub proof fn lemma_sum_of_nonneg<T>(s: Seq<T>, f: spec_fn(T) -> int)
    requires
        forall|i: int| 0 <= i < s.len() ==> f(#[trigger] s[i]) >= 0,
    ensures
        sum_of(s, f) >= 0,
        sum_of(s, f) == 0 ==> forall|i: int| 0 <= i < s.len() ==> f(#[trigger] s[i]) == 0,
    decreases s.len(),
{
    if s.len() > 0 {
        let init = s.drop_last();
        assert forall|i: int| 0 <= i < init.len() implies f(#[trigger] init[i]) >= 0 by {
            assert(init[i] == s[i]);
        }
        lemma_sum_of_nonneg(init, f);
        assert(f(s[s.len() - 1]) >= 0);
        if sum_of(s, f) == 0 {
            assert forall|i: int| 0 <= i < s.len() implies f(#[trigger] s[i]) == 0 by {
                if i < s.len() - 1 {
                    assert(init[i] == s[i]);
                }
            }
        }
    }
}

/// Where each term of one sum is `a` times the matching term of another plus
/// `b`, the first sum is `a` times the second plus `n * b`.
pub proof fn lemma_sum_of_affine<T>(
    s: Seq<T>,
    g: spec_fn(T) -> int,
    h: spec_fn(T) -> int,
    a: int,
    b: int,
)
    requires
        forall|i: int| 0 <= i < s.len() ==> g(#[trigger] s[i]) == a * h(s[i]) + b,
    ensures
        sum_of(s, g) == a * sum_of(s, h) + s.len() * b,
    decreases s.len(),
{
    if s.len() > 0 {
        let init = s.drop_last();
        assert forall|i: int| 0 <= i < init.len() implies g(#[trigger] init[i]) == a * h(init[i])
            + b by {
            assert(init[i] == s[i]);
        }
        lemma_sum_of_affine(init, g, h, a, b);
        let sh = sum_of(init, h);
        let e = h(s.last());
        let m = init.len() as int;
        assert(g(s[s.len() - 1]) == a * e + b);
        assert((a * sh + m * b) + (a * e + b) == a * (sh + e) + (m + 1) * b) by (nonlinear_arith);
    }
}

} // verus!
