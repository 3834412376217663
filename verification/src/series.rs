//! Sums and extremes of sequences of scalars, and what appending and
//! dropping an element does to them.
use vstd::prelude::*;
use crate::scalar::{is_sample, max2, min2, SAMPLE_LIMIT};

verus! {

/// Sum of a sequence.
pub open spec fn seq_sum(s: Seq<int>) -> int
    decreases s.len(),
{
    if s.len() == 0 {
        0
    } else {
        seq_sum(s.drop_last()) + s.last()
    }
}

/// Sum of the squares of a sequence.
pub open spec fn seq_sum_sq(s: Seq<int>) -> int
    decreases s.len(),
{
    if s.len() == 0 {
        0
    } else {
        seq_sum_sq(s.drop_last()) + s.last() * s.last()
    }
}

/// Every element of `s` is a sample that a window accepts.
pub open spec fn all_samples(s: Seq<int>) -> bool {
    forall|i: int| 0 <= i < s.len() ==> is_sample(#[trigger] s[i])
}

/// Appending an element adds it to the sum and its square to the sum of
/// squares.
pub proof fn lemma_sum_push(s: Seq<int>, x: int)
    ensures
        seq_sum(s.push(x)) == seq_sum(s) + x,
        seq_sum_sq(s.push(x)) == seq_sum_sq(s) + x * x,
{
    assert(s.push(x).drop_last() =~= s);
}

/// Dropping the oldest element takes it from the sum and its square from the
/// sum of squares.
pub proof fn lemma_sum_skip_first(s: Seq<int>)
    requires
        s.len() > 0,
    ensures
        seq_sum(s.skip(1)) == seq_sum(s) - s[0],
        seq_sum_sq(s.skip(1)) == seq_sum_sq(s) - s[0] * s[0],
    decreases s.len(),
{
    if s.len() == 1 {
        assert(s.skip(1) =~= Seq::<int>::empty());
        assert(s.drop_last() =~= Seq::<int>::empty());
    } else {
        lemma_sum_skip_first(s.drop_last());
        assert(s.skip(1).drop_last() =~= s.drop_last().skip(1));
    }
}

/// The sums of accepted samples are bounded by their number.
pub proof fn lemma_sum_bounds(s: Seq<int>)
    requires
        all_samples(s),
    ensures
        -s.len() * SAMPLE_LIMIT <= seq_sum(s) <= s.len() * SAMPLE_LIMIT,
        0 <= seq_sum_sq(s) <= s.len() * (SAMPLE_LIMIT * SAMPLE_LIMIT),
    decreases s.len(),
{
    if s.len() > 0 {
        let t = s.drop_last();
        let x = s.last();
        lemma_sum_bounds(t);
        assert(is_sample(x));
        assert(0 <= x * x <= SAMPLE_LIMIT * SAMPLE_LIMIT) by (nonlinear_arith)
            requires
                -SAMPLE_LIMIT <= x <= SAMPLE_LIMIT,
        ;
        assert(s.len() * SAMPLE_LIMIT == t.len() * SAMPLE_LIMIT + SAMPLE_LIMIT) by (nonlinear_arith)
            requires
                s.len() == t.len() + 1,
        ;
        assert(s.len() * (SAMPLE_LIMIT * SAMPLE_LIMIT) == t.len() * (SAMPLE_LIMIT * SAMPLE_LIMIT)
            + SAMPLE_LIMIT * SAMPLE_LIMIT) by (nonlinear_arith)
            requires
                s.len() == t.len() + 1,
        ;
    }
}

/// Every element of `s` is at least `lo` and at most `hi`.
pub open spec fn all_between(s: Seq<int>, lo: int, hi: int) -> bool {
    forall|i: int| 0 <= i < s.len() ==> lo <= #[trigger] s[i] <= hi
}

/// The sum of a sequence lies between its length times a lower bound of its
/// elements and its length times an upper bound.
pub proof fn lemma_sum_between(s: Seq<int>, lo: int, hi: int)
    requires
        all_between(s, lo, hi),
    ensures
        s.len() * lo <= seq_sum(s) <= s.len() * hi,
    decreases s.len(),
{
    if s.len() > 0 {
        let t = s.drop_last();
        lemma_sum_between(t, lo, hi);
        assert(lo <= s[s.len() - 1] <= hi);
        assert(s.len() * lo == t.len() * lo + lo && s.len() * hi == t.len() * hi + hi)
            by (nonlinear_arith)
            requires
                s.len() == t.len() + 1,
        ;
    } else {
        assert(s.len() * lo == 0 && s.len() * hi == 0) by (nonlinear_arith)
            requires
                s.len() == 0,
        ;
    }
}

/// The least element of a sequence that is not empty.
pub open spec fn seq_min(s: Seq<int>) -> int
    decreases s.len(),
{
    if s.len() == 0 {
        0
    } else if s.len() == 1 {
        s[0]
    } else {
        min2(seq_min(s.drop_last()), s.last())
    }
}

/// The greatest element of a sequence that is not empty.
pub open spec fn seq_max(s: Seq<int>) -> int
    decreases s.len(),
{
    if s.len() == 0 {
        0
    } else if s.len() == 1 {
        s[0]
    } else {
        max2(seq_max(s.drop_last()), s.last())
    }
}

/// The least and the greatest element bound every element, and each is an
/// element.
pub proof fn lemma_min_max(s: Seq<int>)
    requires
        s.len() > 0,
    ensures
        forall|i: int| 0 <= i < s.len() ==> seq_min(s) <= #[trigger] s[i] <= seq_max(s),
        exists|i: int| 0 <= i < s.len() && s[i] == seq_min(s),
        exists|i: int| 0 <= i < s.len() && s[i] == seq_max(s),
    decreases s.len(),
{
    if s.len() == 1 {
        assert(s[0] == seq_min(s));
        assert(s[0] == seq_max(s));
    } else {
        let t = s.drop_last();
        lemma_min_max(t);
        let i = choose|i: int| 0 <= i < t.len() && t[i] == seq_min(t);
        let j = choose|j: int| 0 <= j < t.len() && t[j] == seq_max(t);
        assert(s[i] == t[i] && s[j] == t[j]);
        assert(s[s.len() - 1] == s.last());
        assert forall|k: int| 0 <= k < s.len() implies seq_min(s) <= #[trigger] s[k] <= seq_max(
            s,
        ) by {
            if k < t.len() {
                assert(s[k] == t[k]);
            }
        }
    }
}

/// Dropping the oldest element keeps the least and the greatest element
/// unless it was one of them.
pub proof fn lemma_min_max_skip_first(s: Seq<int>)
    requires
        s.len() >= 2,
    ensures
        s[0] != seq_min(s) ==> seq_min(s.skip(1)) == seq_min(s),
        s[0] != seq_max(s) ==> seq_max(s.skip(1)) == seq_max(s),
{
    let t = s.skip(1);
    lemma_min_max(s);
    lemma_min_max(t);
    assert forall|i: int| 0 <= i < t.len() implies seq_min(s) <= #[trigger] t[i] <= seq_max(
        s,
    ) by {
        assert(t[i] == s[i + 1]);
    }
    let a = choose|i: int| 0 <= i < t.len() && t[i] == seq_min(t);
    let b = choose|i: int| 0 <= i < t.len() && t[i] == seq_max(t);
    assert(t[a] == s[a + 1] && t[b] == s[b + 1]);
    if s[0] != seq_min(s) {
        let i = choose|i: int| 0 <= i < s.len() && s[i] == seq_min(s);
        assert(t[i - 1] == s[i]);
    }
    if s[0] != seq_max(s) {
        let j = choose|j: int| 0 <= j < s.len() && s[j] == seq_max(s);
        assert(t[j - 1] == s[j]);
    }
}

} // verus!
