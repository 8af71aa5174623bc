//! Initial pitch estimation on the half-sample grid.
//!
//! Candidate periods run from 21 to 122 samples in steps of half a sample.
//! Candidate `i` has the period `42 + i` half-samples.  Each analysed frame
//! gives an error for every candidate; only the order of these errors matters
//! to the search, so they stand as order keys.

use vstd::prelude::*;

use crate::selection::first_min;
use crate::selection::is_first_min;

verus! {

/// Candidates on the grid.
pub const PITCH_GRID_LEN: usize = 203;

/// Shortest candidate period, in half-samples.
pub const PITCH_GRID_MIN_HALVES: usize = 42;

/// Longest candidate period, in half-samples.
pub const PITCH_GRID_MAX_HALVES: usize = 244;

/// Levels of the range-minimum table: the widest window, 128 candidates, is
/// the largest power of two that fits on the grid.
pub const SPARSE_LEVELS: usize = 8;

/// The order key of the error 1, which stands for a candidate off the grid.
pub const OFF_GRID_KEY: i64 = 0x3FF0_0000_0000_0000;

/// Width of the windows at table level `k`.
pub open spec fn window_width(k: nat) -> nat
    decreases k,
{
    if k == 0 { 1 } else { 2 * window_width((k - 1) as nat) }
}

proof fn lemma_window_width(k: nat)
    requires
        k < SPARSE_LEVELS,
    ensures
        1 <= window_width(k) <= 128,
        k < 7 ==> window_width(k) <= 64,
        k == 7 ==> window_width(k) == 128,
{
    reveal_with_fuel(window_width, 8);
}

/// End of the window of width `width` that starts at candidate `i`, cut off at
/// the end of the grid.
pub open spec fn window_end(i: int, width: int) -> int {
    if i + width < PITCH_GRID_LEN { i + width } else { PITCH_GRID_LEN as int }
}

/// The lesser of two (key, candidate) pairs; between equal keys the smaller
/// candidate.
pub fn lex_min(a: (i64, u16), b: (i64, u16)) -> (least: (i64, u16))
    ensures
        least == if a.0 < b.0 || (a.0 == b.0 && a.1 <= b.1) { a } else { b },
{
    if a.0 < b.0 {
        a
    } else if b.0 < a.0 {
        b
    } else if a.1 <= b.1 {
        a
    } else {
        b
    }
}

/// What a search of a candidate range found.
#[derive(Clone, Copy, Debug, PartialEq, Eq, Structural)]
pub enum GridPick {
    /// The candidate with the least error.
    At(usize),
    /// The range held no candidate; carries the step it starts at.
    Empty(i32),
}

/// The errors of one frame over the candidate grid, with an optional table
/// that answers range searches in constant time.
#[derive(Clone, Debug)]
pub struct PitchSearch {
    keys: Vec<i64>,
    sparse: Option<Vec<Vec<(i64, u16)>>>,
}

/// `row` gives, for every candidate, the first least key of the window of
/// width `width` that starts there.
pub open spec fn is_sparse_row(keys: Seq<i64>, row: Seq<(i64, u16)>, width: int) -> bool {
    &&& row.len() == PITCH_GRID_LEN
    &&& forall|i: int|
        0 <= i < PITCH_GRID_LEN ==> {
            &&& is_first_min(keys, i, window_end(i, width), (#[trigger] row[i]).1 as int)
            &&& row[i].0 == keys[row[i].1 as int]
        }
}

proof fn lemma_join_windows(keys: Seq<i64>, lo: int, mid: int, mid2: int, hi: int, a: int, b: int)
    requires
        lo <= mid2 <= mid <= hi,
        is_first_min(keys, lo, mid, a),
        is_first_min(keys, mid2, hi, b),
    ensures
        keys[a] < keys[b] || (keys[a] == keys[b] && a <= b) ==> is_first_min(keys, lo, hi, a),
        !(keys[a] < keys[b] || (keys[a] == keys[b] && a <= b)) ==> is_first_min(keys, lo, hi, b),
{
    if keys[a] < keys[b] || (keys[a] == keys[b] && a <= b) {
        assert forall|j: int| lo <= j < hi implies keys[a] <= keys[j] by {
            if j >= mid {
                assert(keys[b] <= keys[j]);
            }
        }
    } else {
        assert forall|j: int| lo <= j < hi implies keys[b] <= keys[j] by {
            if j < mid {
                assert(keys[a] <= keys[j]);
            }
        }
        assert forall|j: int| lo <= j < b implies keys[b] < keys[j] by {
            if j < mid2 {
                assert(keys[a] <= keys[j]);
                if keys[a] == keys[b] {
                    assert(b < a);
                    assert(keys[a] < keys[j]);
                }
            }
        }
    }
}

impl PitchSearch {
    /// The error keys, one per candidate.
    pub closed spec fn keys(self) -> Seq<i64> {
        self.keys@
    }

    /// Whether range searches use the table.
    pub closed spec fn is_fast(self) -> bool {
        self.sparse is Some
    }

    /// There is one key per candidate, and the table, if built, holds the first
    /// least key of every window.
    pub closed spec fn wf(self) -> bool {
        &&& self.keys@.len() == PITCH_GRID_LEN
        &&& match self.sparse {
            None => true,
            Some(rows) => {
                &&& rows@.len() == SPARSE_LEVELS
                &&& forall|k: int|
                    0 <= k < SPARSE_LEVELS ==> is_sparse_row(
                        self.keys@,
                        (#[trigger] rows@[k])@,
                        window_width(k as nat) as int,
                    )
            },
        }
    }

    /// A search over the given error keys, without the table.
    pub fn from_keys(keys: Vec<i64>) -> (search: Self)
        requires
            keys@.len() == PITCH_GRID_LEN,
        ensures
            search.wf(),
            search.keys() == keys@,
            !search.is_fast(),
    {
        PitchSearch { keys, sparse: None }
    }

    /// The error key of candidate `i`; that of the error 1 off the grid.
    pub fn e_of_p_grid(&self, i: usize) -> (key: i64)
        requires
            self.wf(),
        ensures
            key == if i < PITCH_GRID_LEN { self.keys()[i as int] } else { OFF_GRID_KEY },
    {
        if i < PITCH_GRID_LEN {
            self.keys[i]
        } else {
            OFF_GRID_KEY
        }
    }

    /// Builds the range-minimum table.  A second call changes nothing.
    pub fn enable_argmin_fast(&mut self)
        requires
            old(self).wf(),
        ensures
            final(self).wf(),
            final(self).keys() == old(self).keys(),
            final(self).is_fast(),
            old(self).is_fast() ==> *final(self) == *old(self),
    {
        if self.sparse.is_some() {
            return;
        }
        let mut rows: Vec<Vec<(i64, u16)>> = Vec::new();
        let mut level: Vec<(i64, u16)> = Vec::new();
        let mut i: usize = 0;
        while i < PITCH_GRID_LEN
            invariant
                i <= PITCH_GRID_LEN,
                self.keys@.len() == PITCH_GRID_LEN,
                level@.len() == i,
                forall|j: int|
                    0 <= j < i ==> (#[trigger] level@[j]).1 == j && level@[j].0 == self.keys@[j],
            decreases PITCH_GRID_LEN - i,
        {
            level.push((self.keys[i], i as u16));
            i = i + 1;
        }
        assert(is_sparse_row(self.keys@, level@, 1));
        rows.push(level);
        let mut k: usize = 1;
        let mut half: usize = 1;
        while k < SPARSE_LEVELS
            invariant
                1 <= k <= SPARSE_LEVELS,
                half == window_width((k - 1) as nat),
                self.keys@.len() == PITCH_GRID_LEN,
                rows@.len() == k,
                forall|n: int|
                    0 <= n < k ==> is_sparse_row(
                        self.keys@,
                        (#[trigger] rows@[n])@,
                        window_width(n as nat) as int,
                    ),
            decreases SPARSE_LEVELS - k,
        {
            let mut next: Vec<(i64, u16)> = Vec::new();
            let mut i: usize = 0;
            proof {
                lemma_window_width((k - 1) as nat);
            }
            assert(is_sparse_row(self.keys@, rows@[k - 1]@, half as int));
            while i < PITCH_GRID_LEN
                invariant
                    i <= PITCH_GRID_LEN,
                    1 <= k < SPARSE_LEVELS,
                    1 <= half <= 64,
                    self.keys@.len() == PITCH_GRID_LEN,
                    rows@.len() == k,
                    is_sparse_row(self.keys@, rows@[k - 1]@, half as int),
                    next@.len() == i,
                    forall|j: int|
                        0 <= j < i ==> {
                            &&& is_first_min(
                                self.keys@,
                                j,
                                window_end(j, 2 * half),
                                (#[trigger] next@[j]).1 as int,
                            )
                            &&& next@[j].0 == self.keys@[next@[j].1 as int]
                        },
                decreases PITCH_GRID_LEN - i,
            {
                let left: (i64, u16) = rows[k - 1][i];
                let right: (i64, u16) = if i + half < PITCH_GRID_LEN {
                    rows[k - 1][i + half]
                } else {
                    left
                };
                let least: (i64, u16) = lex_min(left, right);
                proof {
                    let row = rows@[k - 1]@;
                    assert(row[i as int] == left);
                    if i + half < PITCH_GRID_LEN {
                        assert(row[i + half] == right);
                        lemma_join_windows(
                            self.keys@,
                            i as int,
                            i + half,
                            i + half,
                            window_end(i as int, 2 * half),
                            left.1 as int,
                            right.1 as int,
                        );
                    }
                }
                next.push(least);
                i = i + 1;
            }
            assert(is_sparse_row(self.keys@, next@, 2 * half));
            rows.push(next);
            k = k + 1;
            half = 2 * half;
        }
        self.sparse = Some(rows);
    }

    /// The candidate with the least error between the grid steps `i_lo` and
    /// `i_hi`, both inclusive and both cut off at the ends of the grid; the
    /// smallest such candidate if several tie.
    pub fn argmin_in_range(&self, i_lo: i32, i_hi: i32) -> (pick: GridPick)
        requires
            self.wf(),
        ensures
            ({
                let lo = if i_lo < 0 { 0int } else { i_lo as int };
                let hi = if i_hi > 202 { 202int } else { i_hi as int };
                match pick {
                    GridPick::At(i) => lo <= hi && is_first_min(self.keys(), lo, hi + 1, i as int),
                    GridPick::Empty(start) => lo > hi && start == lo,
                }
            }),
    {
        let lo: i32 = if i_lo < 0 { 0 } else { i_lo };
        let hi: i32 = if i_hi > 202 { 202 } else { i_hi };
        if lo > hi {
            return GridPick::Empty(lo);
        }
        let first: usize = lo as usize;
        let last: usize = hi as usize;
        match &self.sparse {
            Some(rows) => {
                let len: usize = last - first + 1;
                let mut k: usize = 0;
                let mut width: usize = 1;
                while 2 * width <= len
                    invariant
                        len <= PITCH_GRID_LEN,
                        1 <= width <= len,
                        width == window_width(k as nat),
                        k < SPARSE_LEVELS,
                    decreases len - width,
                {
                    proof {
                        lemma_window_width(k as nat);
                    }
                    k = k + 1;
                    width = 2 * width;
                }
                let left: (i64, u16) = rows[k][first];
                let right: (i64, u16) = rows[k][last + 1 - width];
                let least: (i64, u16) = lex_min(left, right);
                proof {
                    let row = rows@[k as int]@;
                    assert(is_sparse_row(self.keys@, row, width as int));
                    assert(row[first as int] == left);
                    assert(row[last + 1 - width] == right);
                    lemma_join_windows(
                        self.keys@,
                        first as int,
                        first + width,
                        last + 1 - width,
                        last + 1,
                        left.1 as int,
                        right.1 as int,
                    );
                }
                GridPick::At(least.1 as usize)
            },
            None => GridPick::At(first_min(self.keys.as_slice(), first, last + 1)),
        }
    }
}

/// Both ways of searching a range agree: the first least key of a range is
/// unique, so with or without the table the pick is the same.
pub proof fn law_range_pick_unique(keys: Seq<i64>, lo: int, hi: int, a: int, b: int)
    requires
        is_first_min(keys, lo, hi, a),
        is_first_min(keys, lo, hi, b),
    ensures
        a == b,
{
    if a < b {
        assert(keys[b] < keys[a]);
    }
    if b < a {
        assert(keys[a] < keys[b]);
    }
}

/// First candidate within a fifth of candidate `i`'s period.
pub open spec fn continuity_lo(i: int) -> int {
    let low = (4 * (PITCH_GRID_MIN_HALVES + i) + 4) / 5;
    if low < PITCH_GRID_MIN_HALVES { 0 } else { low - PITCH_GRID_MIN_HALVES }
}

/// Last candidate within a fifth of candidate `i`'s period.
pub open spec fn continuity_hi(i: int) -> int {
    let high = 6 * (PITCH_GRID_MIN_HALVES + i) / 5;
    if high > PITCH_GRID_MAX_HALVES { 202 } else { high - PITCH_GRID_MIN_HALVES }
}

/// The candidates whose period lies between 0.8 and 1.2 times that of `i`.
pub fn continuity_window(i: usize) -> (range: (usize, usize))
    requires
        i < PITCH_GRID_LEN,
    ensures
        range.0 == continuity_lo(i as int),
        range.1 == continuity_hi(i as int),
{
    let halves: usize = PITCH_GRID_MIN_HALVES + i;
    let low: usize = (4 * halves + 4) / 5;
    let high: usize = 6 * halves / 5;
    let lo: usize = if low < PITCH_GRID_MIN_HALVES { 0 } else { low - PITCH_GRID_MIN_HALVES };
    let hi: usize = if high > PITCH_GRID_MAX_HALVES { 202 } else { high - PITCH_GRID_MIN_HALVES };
    (lo, hi)
}

/// A candidate lies in its own continuity window, and the window lies on the
/// grid, so a search of it always finds a candidate.
pub proof fn law_continuity_window(i: int)
    requires
        0 <= i < PITCH_GRID_LEN,
    ensures
        0 <= continuity_lo(i) <= i <= continuity_hi(i) < PITCH_GRID_LEN,
{
}

/// The continuity window is exactly the set of candidates `j` with
/// `0.8 P(i) <= P(j) <= 1.2 P(i)`.
pub proof fn law_continuity_window_exact(i: int, j: int)
    requires
        0 <= i < PITCH_GRID_LEN,
        0 <= j < PITCH_GRID_LEN,
    ensures
        continuity_lo(i) <= j <= continuity_hi(i) <==> 4 * (PITCH_GRID_MIN_HALVES + i) <= 5 * (
        PITCH_GRID_MIN_HALVES + j) <= 6 * (PITCH_GRID_MIN_HALVES + i),
{
}

/// From candidate `i` the track goes to the best candidate `p1` of the next
/// frame within the continuity window of `i`, then to the best candidate `p2`
/// of the frame after it within the window of `p1`.
pub open spec fn is_path(next1: Seq<i64>, next2: Seq<i64>, i: int, p1: int, p2: int) -> bool {
    &&& is_first_min(next1, continuity_lo(i), continuity_hi(i) + 1, p1)
    &&& is_first_min(next2, continuity_lo(p1), continuity_hi(p1) + 1, p2)
}

/// The best candidate of `search` within the continuity window of `i`.
fn best_near(search: &PitchSearch, i: usize) -> (best: usize)
    requires
        search.wf(),
        i < PITCH_GRID_LEN,
    ensures
        is_first_min(search.keys(), continuity_lo(i as int), continuity_hi(i as int) + 1, best as int),
        best < PITCH_GRID_LEN,
{
    let (lo, hi): (usize, usize) = continuity_window(i);
    proof {
        law_continuity_window(i as int);
    }
    match search.argmin_in_range(lo as i32, hi as i32) {
        GridPick::At(best) => best,
        GridPick::Empty(_) => i,
    }
}

/// Follows the best track from candidate `i` over the next two frames.
pub fn follow_path(next1: &PitchSearch, next2: &PitchSearch, i: usize) -> (path: (usize, usize))
    requires
        next1.wf(),
        next2.wf(),
        i < PITCH_GRID_LEN,
    ensures
        is_path(next1.keys(), next2.keys(), i as int, path.0 as int, path.1 as int),
        path.0 < PITCH_GRID_LEN,
        path.1 < PITCH_GRID_LEN,
{
    let p1: usize = best_near(next1, i);
    let p2: usize = best_near(next2, p1);
    (p1, p2)
}

/// The best track from every candidate.
pub fn look_ahead_paths(next1: &PitchSearch, next2: &PitchSearch) -> (paths: Vec<(usize, usize)>)
    requires
        next1.wf(),
        next2.wf(),
    ensures
        paths@.len() == PITCH_GRID_LEN,
        forall|i: int|
            0 <= i < PITCH_GRID_LEN ==> is_path(
                next1.keys(),
                next2.keys(),
                i,
                (#[trigger] paths@[i]).0 as int,
                paths@[i].1 as int,
            ),
{
    let mut paths: Vec<(usize, usize)> = Vec::new();
    let mut i: usize = 0;
    while i < PITCH_GRID_LEN
        invariant
            i <= PITCH_GRID_LEN,
            next1.wf(),
            next2.wf(),
            paths@.len() == i,
            forall|j: int|
                0 <= j < i ==> is_path(
                    next1.keys(),
                    next2.keys(),
                    j,
                    (#[trigger] paths@[j]).0 as int,
                    paths@[j].1 as int,
                ),
        decreases PITCH_GRID_LEN - i,
    {
        paths.push(follow_path(next1, next2, i));
        i = i + 1;
    }
    paths
}

/// The candidate whose track has the least cumulative error.
pub fn best_track(costs: &[i64]) -> (best: usize)
    requires
        costs@.len() == PITCH_GRID_LEN,
    ensures
        is_first_min(costs@, 0, PITCH_GRID_LEN as int, best as int),
{
    first_min(costs, 0, PITCH_GRID_LEN)
}

/// The grid candidate nearest to a period of `num / den` half-samples, half
/// steps rounding up; `None` if it falls off the grid.
pub fn snap_to_pitch_grid(num: u32, den: u32) -> (snapped: Option<usize>)
    requires
        den > 0,
    ensures
        ({
            let halves = (2 * num + den) / (2 * den as int);
            snapped == if PITCH_GRID_MIN_HALVES <= halves <= PITCH_GRID_MAX_HALVES {
                Some((halves - PITCH_GRID_MIN_HALVES) as usize)
            } else {
                None::<usize>
            }
        }),
        snapped is Some ==> snapped->Some_0 < PITCH_GRID_LEN,
        snapped is Some ==> 2 * num - den < 2 * den * (42 + snapped->Some_0) <= 2 * num + den,
{
    let halves: u64 = (2 * (num as u64) + den as u64) / (2 * (den as u64));
    assert(2 * num - den < 2 * den * halves <= 2 * num + den) by (nonlinear_arith)
        requires
            halves == (2 * num + den) / (2 * den as int),
            den > 0,
    ;
    if 42 <= halves && halves <= 244 {
        Some((halves - 42) as usize)
    } else {
        None
    }
}

/// The largest divisor that leaves candidate `i`'s period at 21 samples or
/// more.
pub open spec fn max_divisor(i: int) -> int {
    (PITCH_GRID_MIN_HALVES + i) / 42
}

/// The candidate nearest to the `n`-th part of candidate `i`'s period.
pub open spec fn submultiple(i: int, n: int) -> int {
    (2 * (PITCH_GRID_MIN_HALVES + i) + n) / (2 * n) - PITCH_GRID_MIN_HALVES
}

/// How many sub-multiples of candidate `i` are on the grid.
pub open spec fn submultiple_count(i: int) -> int {
    if max_divisor(i) < 2 { 0 } else { max_divisor(i) - 1 }
}

/// Every sub-multiple is on the grid and lies within half a grid step of the
/// exact quotient.
pub proof fn law_submultiple_on_grid(i: int, n: int)
    requires
        0 <= i < PITCH_GRID_LEN,
        2 <= n <= max_divisor(i),
    ensures
        0 <= submultiple(i, n) < i,
        -n <= 2 * n * (PITCH_GRID_MIN_HALVES + submultiple(i, n)) - 2 * (PITCH_GRID_MIN_HALVES + i)
            <= n,
{
    let h = PITCH_GRID_MIN_HALVES + i;
    let q = (2 * h + n) / (2 * n);
    assert(42 * n <= h);
    assert(2 * n * q <= 2 * h + n < 2 * n * q + 2 * n) by (nonlinear_arith)
        requires
            q == (2 * h + n) / (2 * n),
            n >= 2,
    ;
    assert(42 <= q < h) by (nonlinear_arith)
        requires
            2 * n * q <= 2 * h + n < 2 * n * q + 2 * n,
            42 * n <= h,
            n >= 2,
    ;
}

/// The sub-multiples of candidate `i`, shortest period first.
pub fn submultiples(i: usize) -> (subs: Vec<usize>)
    requires
        i < PITCH_GRID_LEN,
    ensures
        subs@.len() == submultiple_count(i as int),
        forall|j: int|
            0 <= j < subs@.len() ==> #[trigger] subs@[j] == submultiple(
                i as int,
                max_divisor(i as int) - j,
            ),
        forall|j: int| 0 <= j < subs@.len() ==> #[trigger] subs@[j] < PITCH_GRID_LEN,
{
    let halves: u32 = (PITCH_GRID_MIN_HALVES + i) as u32;
    let n_max: u32 = halves / 42;
    let mut subs: Vec<usize> = Vec::new();
    let mut n: u32 = n_max;
    while n >= 2
        invariant
            i < PITCH_GRID_LEN,
            halves == PITCH_GRID_MIN_HALVES + i,
            n_max == max_divisor(i as int),
            n <= n_max,
            n_max < 2 ==> subs@.len() == 0,
            n_max >= 2 ==> n >= 1 && subs@.len() == n_max - n,
            forall|j: int|
                0 <= j < subs@.len() ==> #[trigger] subs@[j] == submultiple(
                    i as int,
                    max_divisor(i as int) - j,
                ),
            forall|j: int| 0 <= j < subs@.len() ==> #[trigger] subs@[j] < PITCH_GRID_LEN,
        decreases n,
    {
        proof {
            law_submultiple_on_grid(i as int, n as int);
        }
        match snap_to_pitch_grid(halves, n) {
            Some(sub) => subs.push(sub),
            None => {},
        }
        n = n - 1;
    }
    subs
}

/// The look-ahead pick: the shortest accepted sub-multiple of the best track's
/// candidate, or that candidate if none is accepted.  `accepted[j]` belongs to
/// the `j`-th of [`submultiples`].
pub fn look_ahead(best: usize, accepted: &[bool]) -> (pick: usize)
    requires
        best < PITCH_GRID_LEN,
        accepted@.len() == submultiple_count(best as int),
    ensures
        pick < PITCH_GRID_LEN,
        (forall|j: int| 0 <= j < accepted@.len() ==> !accepted@[j]) ==> pick == best,
        forall|j: int|
            0 <= j < accepted@.len() && #[trigger] accepted@[j] && (forall|k: int|
                0 <= k < j ==> !accepted@[k]) ==> pick == submultiple(
                best as int,
                max_divisor(best as int) - j,
            ),
{
    let subs = submultiples(best);
    let mut at: usize = 0;
    while at < accepted.len()
        invariant
            at <= accepted@.len(),
            accepted@.len() == subs@.len(),
            best < PITCH_GRID_LEN,
            forall|k: int| 0 <= k < at ==> !accepted@[k],
            forall|j: int|
                0 <= j < subs@.len() ==> #[trigger] subs@[j] == submultiple(
                    best as int,
                    max_divisor(best as int) - j,
                ),
            forall|j: int| 0 <= j < subs@.len() ==> #[trigger] subs@[j] < PITCH_GRID_LEN,
        decreases accepted@.len() - at,
    {
        if accepted[at] {
            return subs[at];
        }
        at = at + 1;
    }
    best
}

/// Which of the two trackers supplies the pitch.
#[derive(Clone, Copy, Debug, PartialEq, Eq, Structural)]
pub enum PitchPick {
    /// The tracker that looks back at the previous frames.
    Back,
    /// The tracker that looks ahead at the next frames.
    Ahead,
}

/// Chooses between the trackers.  A look-back error that is good in absolute
/// terms (`strong_back`) wins outright; otherwise the smaller error wins, and
/// look-back wins a tie.
pub fn decide_initial_pitch(strong_back: bool, ce_b: i64, ce_f: i64) -> (pick: PitchPick)
    ensures
        pick == if strong_back || ce_b <= ce_f { PitchPick::Back } else { PitchPick::Ahead },
{
    if strong_back {
        PitchPick::Back
    } else if ce_b <= ce_f {
        PitchPick::Back
    } else {
        PitchPick::Ahead
    }
}

/// As [`decide_initial_pitch`], but look-ahead wins when its error is strictly
/// smaller and the look-back period is a multiple of the look-ahead period
/// (`octave_related`).
pub fn decide_initial_pitch_escape(
    octave_related: bool,
    strong_back: bool,
    ce_b: i64,
    ce_f: i64,
) -> (pick: PitchPick)
    ensures
        pick == if ce_f < ce_b && (octave_related || !strong_back) {
            PitchPick::Ahead
        } else {
            PitchPick::Back
        },
{
    if ce_f < ce_b && octave_related {
        return PitchPick::Ahead;
    }
    decide_initial_pitch(strong_back, ce_b, ce_f)
}

/// A track stays near: from candidate `i` it goes to the best candidate of the next
/// frame between 0.8 and 1.2 times its period, the shortest if several tie, and from
/// there in the same way to the frame after.  Candidate `i` has the period `42 + i`
/// half-samples.
pub proof fn law_path_stays_near(
    next1: Seq<i64>,
    next2: Seq<i64>,
    i: int,
    p1: int,
    p2: int,
    j: int,
)
    requires
        0 <= i < PITCH_GRID_LEN,
        is_path(next1, next2, i, p1, p2),
        0 <= j < 203,
    ensures
        0 <= p1 < 203,
        0 <= p2 < 203,
        4 * (42 + i) <= 5 * (42 + p1) <= 6 * (42 + i),
        4 * (42 + p1) <= 5 * (42 + p2) <= 6 * (42 + p1),
        4 * (42 + i) <= 5 * (42 + j) <= 6 * (42 + i) ==> next1[p1] <= next1[j],
        4 * (42 + i) <= 5 * (42 + j) <= 6 * (42 + i) && j < p1 ==> next1[p1] < next1[j],
        4 * (42 + p1) <= 5 * (42 + j) <= 6 * (42 + p1) ==> next2[p2] <= next2[j],
        4 * (42 + p1) <= 5 * (42 + j) <= 6 * (42 + p1) && j < p2 ==> next2[p2] < next2[j],
{
    law_continuity_window(i);
    law_continuity_window_exact(i, p1);
    law_continuity_window_exact(i, j);
    law_continuity_window(p1);
    law_continuity_window_exact(p1, p2);
    law_continuity_window_exact(p1, j);
}

proof fn lemma_submultiple_nearest(i: int, n: int)
    requires
        0 <= i < PITCH_GRID_LEN,
        2 <= n <= max_divisor(i),
    ensures
        -n < 2 * n * (42 + submultiple(i, n)) - 2 * (42 + i) <= n,
{
    let h = 42 + i;
    let q = (2 * h + n) / (2 * n);
    assert(2 * n * q <= 2 * h + n < 2 * n * q + 2 * n) by (nonlinear_arith)
        requires
            q == (2 * h + n) / (2 * n),
            n >= 2,
    ;
}

/// The sub-multiples of a candidate.  Its period of `42 + i` half-samples is divided
/// by every number from 2 up that leaves 21 samples or more, the largest first, and
/// each quotient goes to the nearest candidate, a tie to the longer period.
pub proof fn law_submultiples(i: int, subs: Seq<usize>, n: int)
    requires
        0 <= i < PITCH_GRID_LEN,
        subs.len() == submultiple_count(i),
        forall|j: int|
            0 <= j < subs.len() ==> #[trigger] subs[j] == submultiple(i, max_divisor(i) - j),
        n >= 2,
    ensures
        n < subs.len() + 2 <==> 42 * n <= 42 + i,
        42 * n <= 42 + i ==> {
            let sub = subs[subs.len() + 1 - n];
            &&& -n < 2 * n * (42 + sub) - 2 * (42 + i) <= n
            &&& 0 <= sub < i
        },
{
    if 42 * n <= 42 + i {
        assert(n <= max_divisor(i));
        lemma_submultiple_nearest(i, n);
        law_submultiple_on_grid(i, n);
        let at: int = subs.len() + 1 - n;
        assert(subs[at] == submultiple(i, max_divisor(i) - at));
    }
}

/// The look-ahead pick never goes to a longer period than the best track's.
pub proof fn law_pick_is_no_longer(best: int, accepted: Seq<bool>, pick: int)
    requires
        0 <= best < PITCH_GRID_LEN,
        accepted.len() == submultiple_count(best),
        (forall|j: int| 0 <= j < accepted.len() ==> !accepted[j]) ==> pick == best,
        forall|j: int|
            0 <= j < accepted.len() && #[trigger] accepted[j] && (forall|k: int|
                0 <= k < j ==> !accepted[k]) ==> pick == submultiple(best, max_divisor(best) - j),
    ensures
        0 <= pick <= best,
        pick < best <==> accepted.contains(true),
{
    if accepted.contains(true) {
        let j = lemma_first_accepted(accepted, accepted.len() as int);
        law_submultiple_on_grid(best, max_divisor(best) - j);
    } else {
        assert forall|j: int| 0 <= j < accepted.len() implies !accepted[j] by {
            assert(accepted[j] ==> accepted.contains(true));
        }
    }
}

proof fn lemma_first_accepted(accepted: Seq<bool>, n: int) -> (first: int)
    requires
        0 <= n <= accepted.len(),
        exists|j: int| 0 <= j < n && accepted[j],
    ensures
        0 <= first < n,
        accepted[first],
        forall|k: int| 0 <= k < first ==> !accepted[k],
    decreases n,
{
    if exists|j: int| 0 <= j < n - 1 && accepted[j] {
        lemma_first_accepted(accepted, n - 1)
    } else {
        n - 1
    }
}

} // verus!
