//! Calibration of the Binomial mechanism: the search for the smallest number
//! of secure coin flips whose sum is noise enough for a privacy budget.
//!
//! Whether a candidate count meets the variance bound and the privacy bound
//! is a numeric question that the caller answers; the search relies only on
//! the answers being monotone: once a count passes, every larger one does.
use vstd::prelude::*;

verus! {

/// The largest number of coin flips that the search considers.
pub const MAX_NUM_BERNOULLI: u32 = 10_000_000;

/// Why no number of coin flips could be chosen.
#[derive(Debug, Clone, Copy, PartialEq, Eq, Structural)]
pub enum CalibrationError {
    /// No count in `1..=MAX_NUM_BERNOULLI` meets both bounds: the privacy
    /// budget cannot be reached with these parameters.
    PrivacyBudgetUnreachable,
}

/// The predicate can be asked about every candidate count.
pub open spec fn answers_every_candidate<F: Fn(u32) -> bool>(f: F) -> bool {
    forall|n: u32| 1 <= n <= MAX_NUM_BERNOULLI ==> #[trigger] f.requires((n,))
}

/// Once a count passes, every larger count passes.
pub open spec fn is_monotone<F: Fn(u32) -> bool>(f: F) -> bool {
    forall|a: u32, b: u32, ra: bool, rb: bool|
        #![trigger f.ensures((a,), ra), f.ensures((b,), rb)]
        a <= b && f.ensures((a,), ra) && f.ensures((b,), rb) && ra ==> rb
}

/// `n` is the smallest candidate count that passes.
pub open spec fn is_smallest_passing<F: Fn(u32) -> bool>(f: F, n: u32) -> bool {
    &&& 1 <= n <= MAX_NUM_BERNOULLI
    &&& f.ensures((n,), true)
    &&& forall|m: u32| 1 <= m < n ==> !#[trigger] f.ensures((m,), true)
}

/// No candidate count passes.
pub open spec fn none_passes<F: Fn(u32) -> bool>(f: F) -> bool {
    forall|m: u32| 1 <= m <= MAX_NUM_BERNOULLI ==> !#[trigger] f.ensures((m,), true)
}

/// Binary search for the smallest `num_bernoulli` in `1..=MAX_NUM_BERNOULLI`
/// that meets both the variance bound and the privacy bound, as
/// `meets_bounds` answers. Fails when no candidate meets them.
pub fn find_smallest_num_bernoulli<F: Fn(u32) -> bool>(meets_bounds: F) -> (r: Result<u32, CalibrationError>)
    requires
        answers_every_candidate(meets_bounds),
        is_monotone(meets_bounds),
    ensures
        r matches Ok(n) ==> is_smallest_passing(meets_bounds, n),
        r is Err ==> none_passes(meets_bounds),
{
    let mut index: u32 = 0;
    let mut lower: u32 = 1;
    let mut higher: u32 = MAX_NUM_BERNOULLI;
    while lower <= higher
        invariant
            answers_every_candidate(meets_bounds),
            is_monotone(meets_bounds),
            1 <= lower,
            higher <= MAX_NUM_BERNOULLI,
            lower <= higher + 1,
            forall|m: u32| 1 <= m < lower ==> !#[trigger] meets_bounds.ensures((m,), true),
            index == 0 ==> higher == MAX_NUM_BERNOULLI,
            index <= MAX_NUM_BERNOULLI,
            index != 0 ==> index == higher + 1 && meets_bounds.ensures((index,), true),
        decreases higher + 1 - lower,
    {
        let mid: u32 = (higher - lower) / 2 + lower;
        let passes = meets_bounds(mid);
        if passes {
            index = mid;
            higher = mid - 1;
        } else {
            proof {
                assert forall|m: u32| 1 <= m < mid + 1 implies !#[trigger] meets_bounds.ensures((m,), true) by {
                    if m >= lower && meets_bounds.ensures((m,), true) {
                        assert(meets_bounds.ensures((mid,), false));
                    }
                }
            }
            lower = mid + 1;
        }
    }
    if index == 0 {
        Err(CalibrationError::PrivacyBudgetUnreachable)
    } else {
        Ok(index)
    }
}

/// Asking for less privacy never costs more coin flips: when every count that
/// meets the stricter target also meets the looser one, the smallest count
/// for the looser target is no larger than the smallest for the stricter.
pub proof fn lemma_looser_target_needs_no_more<F: Fn(u32) -> bool, G: Fn(u32) -> bool>(
    stricter: F,
    looser: G,
    n_stricter: u32,
    n_looser: u32,
)
    requires
        is_smallest_passing(stricter, n_stricter),
        is_smallest_passing(looser, n_looser),
        forall|m: u32| #[trigger] stricter.ensures((m,), true) ==> looser.ensures((m,), true),
    ensures
        n_looser <= n_stricter,
{
    if n_looser > n_stricter {
        assert(stricter.ensures((n_stricter,), true));
        assert(looser.ensures((n_stricter,), true));
    }
}

} // verus!
