//! Total score and status label.

use vstd::prelude::*;
use crate::models::Finding;

verus! {

/// The sum of the scores of `s`, in mathematical integers.
pub open spec fn score_sum(s: Seq<Finding>) -> int
    decreases s.len(),
{
    if s.len() == 0 {
        0
    } else {
        score_sum(s.drop_last()) + s.last().score
    }
}

/// The sum of the scores of `s` as `i32` addition computes it in a release build:
/// each addition wraps around modulo 2^32.
pub open spec fn wrapped_score_sum(s: Seq<Finding>) -> i32
    decreases s.len(),
{
    if s.len() == 0 {
        0
    } else {
        vstd::wrapping::i32_specs::wrapping_add(wrapped_score_sum(s.drop_last()), s.last().score)
    }
}

/// Every running total of the scores of `s` fits in an `i32`.
pub open spec fn no_score_overflow(s: Seq<Finding>) -> bool {
    forall|k: int| 0 <= k <= s.len() ==> i32::MIN <= #[trigger] score_sum(s.take(k)) <= i32::MAX
}

/// The total score of `findings`.
pub fn compute_score(findings: &[Finding]) -> (r: i32)
    ensures
        r == wrapped_score_sum(findings@),
{
    let mut total: i32 = 0;
    let mut i: usize = 0;
    while i < findings.len()
        invariant
            i <= findings@.len(),
            total == wrapped_score_sum(findings@.take(i as int)),
        decreases findings.len() - i,
    {
        assert(findings@.take(i + 1).drop_last() == findings@.take(i as int));
        total = total.wrapping_add(findings[i].score);
        i += 1;
    }
    assert(findings@.take(findings@.len() as int) == findings@);
    total
}

/// When no running total leaves the `i32` range, the total score is the exact sum
/// of the scores.
pub proof fn lemma_total_is_exact_sum(s: Seq<Finding>)
    requires
        no_score_overflow(s),
    ensures
        wrapped_score_sum(s) == score_sum(s),
    decreases s.len(),
{
    if s.len() > 0 {
        let p = s.drop_last();
        assert forall|k: int| 0 <= k <= p.len() implies i32::MIN <= #[trigger] score_sum(p.take(k))
            <= i32::MAX by {
            assert(p.take(k) == s.take(k));
        }
        lemma_total_is_exact_sum(p);
        assert(s.take(s.len() as int) == s);
        assert(i32::MIN <= score_sum(s.take(s.len() as int)) <= i32::MAX);
    }
}

/// The status label for a total score.
pub open spec fn grade_of(score: i32) -> Seq<char> {
    if score < 10 {
        "healthy"@
    } else if score < 20 {
        "warning"@
    } else {
        "fail"@
    }
}

/// The status label for a total score: `healthy` below 10, `warning` below 20,
/// `fail` otherwise.
pub fn grade(score: i32) -> (r: &'static str)
    ensures
        r@ == grade_of(score),
{
    if score < 10 {
        "healthy"
    } else if score < 20 {
        "warning"
    } else {
        "fail"
    }
}

} // verus!
