//! Candidate selection of the probabilistic pitch tracker.
//!
//! The tracker scores every integer lag from 21 to 122 samples; lower is better.
//! For each of a set of thresholds it takes the first local minimum below the
//! threshold, or the overall minimum if there is none.

use vstd::prelude::*;

use crate::selection::first_max;
use crate::selection::first_min;
use crate::selection::is_first_max;
use crate::selection::is_first_min;

verus! {

/// Samples compared at each lag.
pub const PYIN_WINDOW: usize = 160;

/// Lags on the grid.
pub const PYIN_GRID_LEN: usize = 102;

/// Thresholds tried per frame.
pub const PYIN_NUM_THRESHOLDS: usize = 100;

/// Position `i` is a local minimum: at an end strictly below its neighbour,
/// elsewhere strictly below the left and not above the right neighbour.
pub open spec fn is_local_min(scores: Seq<i64>, i: int) -> bool {
    &&& 0 <= i < scores.len()
    &&& if i == 0 {
        scores.len() == 1 || scores[0] < scores[1]
    } else if i == scores.len() - 1 {
        scores[i] < scores[i - 1]
    } else {
        scores[i] < scores[i - 1] && scores[i] <= scores[i + 1]
    }
}

/// Position `i` is a local minimum below `threshold`.
pub open spec fn qualifies(scores: Seq<i64>, threshold: i64, i: int) -> bool {
    is_local_min(scores, i) && scores[i] < threshold
}

/// The first local minimum below `threshold`.
pub fn first_local_min_below(scores: &[i64], threshold: i64) -> (found: Option<usize>)
    ensures
        match found {
            Some(i) => qualifies(scores@, threshold, i as int) && forall|j: int|
                0 <= j < i ==> !qualifies(scores@, threshold, j),
            None => forall|j: int| 0 <= j < scores@.len() ==> !qualifies(scores@, threshold, j),
        },
{
    let n: usize = scores.len();
    if n == 0 {
        return None;
    }
    if scores[0] < threshold && (n == 1 || scores[0] < scores[1]) {
        return Some(0);
    }
    let mut i: usize = 1;
    while i < n - 1
        invariant
            1 <= n == scores@.len(),
            1 <= i,
            i <= n - 1 || n == 1,
            forall|j: int| 0 <= j < i && j < n ==> !qualifies(scores@, threshold, j),
        decreases n - i,
    {
        if scores[i] < threshold && scores[i] < scores[i - 1] && scores[i] <= scores[i + 1] {
            return Some(i);
        }
        i = i + 1;
    }
    if n >= 2 && scores[n - 1] < threshold && scores[n - 1] < scores[n - 2] {
        return Some(n - 1);
    }
    None
}

/// The candidate for one threshold.
pub open spec fn is_candidate(scores: Seq<i64>, threshold: i64, i: int) -> bool {
    if exists|j: int| qualifies(scores, threshold, j) {
        qualifies(scores, threshold, i) && forall|j: int|
            0 <= j < i ==> !qualifies(scores, threshold, j)
    } else {
        is_first_min(scores, 0, scores.len() as int, i)
    }
}

/// The candidate for every threshold.
pub fn threshold_candidates(scores: &[i64], thresholds: &[i64]) -> (candidates: Vec<usize>)
    requires
        scores@.len() > 0,
    ensures
        candidates@.len() == thresholds@.len(),
        forall|k: int|
            0 <= k < candidates@.len() ==> is_candidate(
                scores@,
                thresholds@[k],
                #[trigger] candidates@[k] as int,
            ),
        forall|k: int|
            0 <= k < candidates@.len() ==> #[trigger] candidates@[k] < scores@.len(),
{
    let fallback: usize = first_min(scores, 0, scores.len());
    let mut candidates: Vec<usize> = Vec::new();
    let mut k: usize = 0;
    while k < thresholds.len()
        invariant
            k <= thresholds@.len(),
            is_first_min(scores@, 0, scores@.len() as int, fallback as int),
            candidates@.len() == k,
            forall|i: int|
                0 <= i < k ==> is_candidate(
                    scores@,
                    thresholds@[i],
                    #[trigger] candidates@[i] as int,
                ),
            forall|i: int| 0 <= i < k ==> #[trigger] candidates@[i] < scores@.len(),
        decreases thresholds@.len() - k,
    {
        let pick: usize = match first_local_min_below(scores, thresholds[k]) {
            Some(i) => i,
            None => fallback,
        };
        candidates.push(pick);
        k = k + 1;
    }
    candidates
}

/// Raising the threshold never moves the first qualifying minimum to a longer
/// lag.
pub proof fn law_candidate_moves_down(scores: Seq<i64>, low: i64, high: i64, i: int, j: int)
    requires
        low <= high,
        qualifies(scores, low, i),
        forall|k: int| 0 <= k < i ==> !qualifies(scores, low, k),
        qualifies(scores, high, j),
        forall|k: int| 0 <= k < j ==> !qualifies(scores, high, k),
    ensures
        j <= i,
{
    assert(qualifies(scores, high, i));
}

/// The overall minimum is a local minimum, unless it is the first score and the
/// second one equals it, so it qualifies under every threshold above its score.
pub proof fn law_overall_min_qualifies(scores: Seq<i64>, threshold: i64, i: int)
    requires
        is_first_min(scores, 0, scores.len() as int, i),
        scores[i] < threshold,
        i == 0 && scores.len() > 1 ==> scores[0] < scores[1],
    ensures
        qualifies(scores, threshold, i),
{
}

/// The lag with the greatest mass; the first if several tie.
pub fn best_lag(mass: &[i64]) -> (best: usize)
    requires
        mass@.len() == PYIN_GRID_LEN,
    ensures
        is_first_max(mass@, 0, PYIN_GRID_LEN as int, best as int),
{
    first_max(mass, 0, PYIN_GRID_LEN)
}

/// Smoother state: the running log-likelihood of every lag.
#[derive(Clone, Debug)]
pub struct PyinHmmState<T> {
    log_alpha: Vec<T>,
    primed: bool,
}

impl<T: Copy> PyinHmmState<T> {
    /// The running log-likelihoods.
    pub closed spec fn alpha(self) -> Seq<T> {
        self.log_alpha@
    }

    /// Whether a frame has been seen.
    pub closed spec fn is_primed(self) -> bool {
        self.primed
    }

    /// Every lag equally likely, no frame seen.
    pub fn new(zero: T) -> (state: Self)
        ensures
            state.alpha() == Seq::new(102, |i: int| zero),
            !state.is_primed(),
    {
        let mut log_alpha: Vec<T> = Vec::new();
        let mut i: usize = 0;
        while i < PYIN_GRID_LEN
            invariant
                i <= PYIN_GRID_LEN,
                log_alpha@.len() == i,
                forall|j: int| 0 <= j < i ==> log_alpha@[j] == zero,
            decreases PYIN_GRID_LEN - i,
        {
            log_alpha.push(zero);
            i = i + 1;
        }
        assert(log_alpha@ =~= Seq::new(102, |i: int| zero));
        PyinHmmState { log_alpha, primed: false }
    }

    /// Back to the state of [`PyinHmmState::new`].
    pub fn reset(&mut self, zero: T)
        ensures
            final(self).alpha() == Seq::new(102, |i: int| zero),
            !final(self).is_primed(),
    {
        *self = PyinHmmState::new(zero);
    }

    /// The log-likelihoods of the previous frame, or `None` before the first.
    pub fn prior(&self) -> (prior: Option<&[T]>)
        ensures
            !self.is_primed() ==> prior is None,
            self.is_primed() ==> prior is Some && prior->Some_0@ == self.alpha(),
    {
        if self.primed {
            Some(self.log_alpha.as_slice())
        } else {
            None
        }
    }

    /// Takes the log-likelihoods of the current frame.
    pub fn advance(&mut self, log_alpha: Vec<T>)
        requires
            log_alpha@.len() == PYIN_GRID_LEN,
        ensures
            final(self).alpha() == log_alpha@,
            final(self).is_primed(),
    {
        self.log_alpha = log_alpha;
        self.primed = true;
    }
}

/// What qualifies under a threshold: a score below it that lies strictly below its
/// left neighbour and not above its right one; at the left end it lies strictly
/// below its right neighbour, and a single score has none to lie below.
pub proof fn law_qualifying_scores(scores: Seq<i64>, threshold: i64, i: int)
    requires
        0 <= i < scores.len(),
    ensures
        qualifies(scores, threshold, i) <==> scores[i] < threshold && (i > 0 ==> scores[i] < scores[i
            - 1]) && (i > 0 && i + 1 < scores.len() ==> scores[i] <= scores[i + 1]) && (i == 0
            && scores.len() > 1 ==> scores[0] < scores[1]),
{
}

/// What the candidate of a threshold is: the first score that qualifies, or if none
/// does, the first of the least scores.
pub proof fn law_threshold_candidate(scores: Seq<i64>, threshold: i64, i: int, j: int)
    requires
        is_candidate(scores, threshold, i),
        scores.len() > 0,
        0 <= j < scores.len(),
    ensures
        0 <= i < scores.len(),
        qualifies(scores, threshold, j) ==> i <= j && qualifies(scores, threshold, i),
        !qualifies(scores, threshold, i) ==> scores[i] <= scores[j] && (j < i ==> scores[i]
            < scores[j]),
{
}

} // verus!
