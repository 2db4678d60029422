//! Sums of integer sequences, and the absolute-value bound that keeps the
//! executable summations of this crate inside `i64`.

use vstd::prelude::*;

verus! {

/// Sum of a sequence of integers.
pub open spec fn sum_ints(s: Seq<int>) -> int
    decreases s.len(),
{
    if s.len() == 0 {
        0
    } else {
        sum_ints(s.drop_last()) + s.last()
    }
}

pub open spec fn abs_int(x: int) -> int {
    if x < 0 {
        -x
    } else {
        x
    }
}

/// Sum of the absolute values of a sequence of integers. Bounding this bounds
/// every partial sum of every subsequence.
pub open spec fn sum_abs(s: Seq<int>) -> int
    decreases s.len(),
{
    if s.len() == 0 {
        0
    } else {
        sum_abs(s.drop_last()) + abs_int(s.last())
    }
}

pub proof fn lemma_sum_abs_nonneg(s: Seq<int>)
    ensures
        sum_abs(s) >= 0,
    decreases s.len(),
{
    if s.len() > 0 {
        lemma_sum_abs_nonneg(s.drop_last());
    }
}

/// A sum never strays beyond the sum of absolute values.
pub proof fn lemma_sum_within_abs(s: Seq<int>)
    ensures
        -sum_abs(s) <= sum_ints(s) <= sum_abs(s),
    decreases s.len(),
{
    if s.len() > 0 {
        lemma_sum_within_abs(s.drop_last());
    }
}

/// Summing a prefix keeps the absolute-value bound of the whole.
pub proof fn lemma_sum_abs_take_le(s: Seq<int>, i: int)
    requires
        0 <= i <= s.len(),
    ensures
        sum_abs(s.take(i)) <= sum_abs(s),
    decreases s.len() - i,
{
    if i == s.len() {
        assert(s.take(i) =~= s);
    } else {
        lemma_sum_abs_take_le(s, i + 1);
        assert(s.take(i + 1).drop_last() =~= s.take(i));
        assert(abs_int(s.take(i + 1).last()) >= 0);
    }
}

/// Sums of absolute values split over concatenation.
pub proof fn lemma_sum_abs_concat(a: Seq<int>, b: Seq<int>)
    ensures
        sum_abs(a + b) == sum_abs(a) + sum_abs(b),
    decreases b.len(),
{
    if b.len() == 0 {
        assert(a + b =~= a);
    } else {
        lemma_sum_abs_concat(a, b.drop_last());
        assert((a + b).drop_last() =~= a + b.drop_last());
        assert((a + b).last() == b.last());
    }
}

} // verus!
