//! Pitch refinement to quarter-sample resolution.

use vstd::prelude::*;

verus! {

/// Refinement candidates per frame.
pub const N_REFINE_CANDIDATES: usize = 10;

/// Offsets of the candidates from the initial period, in eighths of a sample.
pub const REFINE_OFFSETS: [i32; 10] = [-9, -7, -5, -3, -1, 1, 3, 5, 7, 9];

/// Fewest harmonics that a frame can have.
pub const L_HAT_MIN: u8 = 9;

/// Most harmonics that a frame can have.
pub const L_HAT_MAX: u8 = 56;

/// Largest quantised pitch index.
pub const B0_MAX: u8 = 207;

/// First bin of the residual sum.
pub const E_R_LOWER_M: i32 = 50;

/// Distance of candidate `i` from the initial period, in eighths of a sample.
pub open spec fn offset_size(i: int) -> int {
    if 2 * i - 9 < 0 { 9 - 2 * i } else { 2 * i - 9 }
}

/// Candidate `i` comes before `j`: its residual is smaller or, if they tie, it
/// lies closer to the initial period or, if that ties too, it comes first.
pub open spec fn refines_before(residuals: Seq<i64>, i: int, j: int) -> bool {
    ||| residuals[i] < residuals[j]
    ||| residuals[i] == residuals[j] && offset_size(i) < offset_size(j)
    ||| residuals[i] == residuals[j] && offset_size(i) == offset_size(j) && i <= j
}

/// The candidate with the least residual; of several that tie, the one closest
/// to the initial period, and then the first.
pub fn refine_pitch(residuals: &[i64]) -> (best: usize)
    requires
        residuals@.len() == N_REFINE_CANDIDATES,
    ensures
        best < N_REFINE_CANDIDATES,
        forall|j: int|
            0 <= j < N_REFINE_CANDIDATES ==> #[trigger] refines_before(
                residuals@,
                best as int,
                j,
            ),
{
    let mut best: usize = 0;
    let mut best_size: i32 = 9;
    let mut at: usize = 1;
    while at < N_REFINE_CANDIDATES
        invariant
            1 <= at <= N_REFINE_CANDIDATES,
            best < at,
            best_size == offset_size(best as int),
            residuals@.len() == N_REFINE_CANDIDATES,
            forall|j: int|
                0 <= j < at ==> #[trigger] refines_before(residuals@, best as int, j),
        decreases N_REFINE_CANDIDATES - at,
    {
        let offset: i32 = REFINE_OFFSETS[at];
        assert(offset == 2 * at - 9);
        let size: i32 = if offset < 0 { 0 - offset } else { offset };
        if residuals[at] < residuals[best] || (residuals[at] == residuals[best] && size
            < best_size) {
            proof {
                assert forall|j: int| 0 <= j < at + 1 implies #[trigger] refines_before(
                    residuals@,
                    at as int,
                    j,
                ) by {
                    if j < at {
                        assert(refines_before(residuals@, best as int, j));
                    }
                }
            }
            best = at;
            best_size = size;
        }
        at = at + 1;
    }
    best
}

/// The harmonic count for a rounded half-period of `inner` samples: 0.9254 of
/// it, rounded down, held between the smallest and the largest count.
pub fn harmonic_count_for(inner: u32) -> (l_hat: u8)
    ensures
        ({
            let raw = inner * 9254 / 10000;
            l_hat == if raw < 9 { 9 } else if raw > 56 { 56 } else { raw }
        }),
        9 <= l_hat <= 56,
        9 < l_hat ==> 10000 * l_hat <= 9254 * inner,
        l_hat < 56 ==> 9254 * inner < 10000 * (l_hat + 1),
{
    let raw: u64 = (inner as u64) * 9254 / 10000;
    if raw < 9 {
        9
    } else if raw > 56 {
        56
    } else {
        raw as u8
    }
}

/// The quantised pitch index for the rounded-down quantiser value `raw`, or
/// `None` if it is out of range.
pub fn quantize_pitch_index(raw: i64) -> (b0: Option<u8>)
    ensures
        b0 == if 0 <= raw <= B0_MAX { Some(raw as u8) } else { None::<u8> },
{
    if 0 <= raw && raw <= 207 {
        Some(raw as u8)
    } else {
        None
    }
}

/// The bins of one harmonic that the residual sum visits: `start` up to but not
/// including `end`.
#[derive(Clone, Copy, Debug, PartialEq, Eq, Structural)]
pub struct ResidualBand {
    /// The harmonic.
    pub harmonic: usize,
    /// First bin.
    pub start: i32,
    /// One past the last bin.
    pub end: i32,
}

/// The sweep over harmonics stops before harmonic `l`: there is none, or it
/// starts above the last bin, or the sweep has passed harmonic 58.
pub open spec fn sweep_stops(edges: Seq<(i32, i32)>, m_max: int, l: int) -> bool {
    ||| l >= edges.len()
    ||| edges[l].0 > m_max
    ||| l > 58 && edges[l - 1].1 > E_R_LOWER_M
}

/// The first harmonic from `from` on before which the sweep stops.
pub open spec fn sweep_end(edges: Seq<(i32, i32)>, m_max: int, from: int) -> int
    decreases edges.len() - from,
{
    if sweep_stops(edges, m_max, from) {
        from
    } else {
        sweep_end(edges, m_max, from + 1)
    }
}

/// The residual sum visits bin `m` as part of harmonic `l`.
pub open spec fn visits(edges: Seq<(i32, i32)>, m_max: int, l: int, m: int) -> bool {
    &&& m_max >= E_R_LOWER_M
    &&& 0 <= l < sweep_end(edges, m_max, 0)
    &&& edges[l].0 <= m < edges[l].1
    &&& E_R_LOWER_M <= m <= m_max
}

/// `bands` lists the bins that the residual sum visits in harmonics below
/// `upto`.
pub open spec fn lists_visits(
    bands: Seq<ResidualBand>,
    edges: Seq<(i32, i32)>,
    m_max: int,
    upto: int,
) -> bool {
    &&& forall|i: int, j: int|
        0 <= i < j < bands.len() ==> (#[trigger] bands[i]).harmonic < (#[trigger] bands[j]).harmonic
    &&& forall|i: int, m: int|
        0 <= i < bands.len() && bands[i].start <= m < bands[i].end ==> #[trigger] visits(
            edges,
            m_max,
            (#[trigger] bands[i]).harmonic as int,
            m,
        )
    &&& forall|i: int| 0 <= i < bands.len() ==> (#[trigger] bands[i]).harmonic < upto
    &&& forall|l: int, m: int|
        l < upto && #[trigger] visits(edges, m_max, l, m) ==> exists|i: int|
            0 <= i < bands.len() && (#[trigger] bands[i]).harmonic == l && bands[i].start <= m
                < bands[i].end
}

proof fn lemma_sweep_end(edges: Seq<(i32, i32)>, m_max: int, from: int, l: int)
    requires
        0 <= from <= l,
        forall|k: int| from <= k < l ==> !#[trigger] sweep_stops(edges, m_max, k),
    ensures
        sweep_end(edges, m_max, from) >= l,
        sweep_stops(edges, m_max, l) ==> sweep_end(edges, m_max, from) == l,
    decreases l - from,
{
    if from < l {
        assert(!sweep_stops(edges, m_max, from));
        lemma_sweep_end(edges, m_max, from + 1, l);
    } else if !sweep_stops(edges, m_max, l) {
        lemma_sweep_end_ge(edges, m_max, l);
    }
}

proof fn lemma_sweep_end_ge(edges: Seq<(i32, i32)>, m_max: int, from: int)
    ensures
        sweep_end(edges, m_max, from) >= from,
    decreases edges.len() - from,
{
    if !sweep_stops(edges, m_max, from) {
        lemma_sweep_end_ge(edges, m_max, from + 1);
    }
}

/// The bins that the residual sum visits, harmonic by harmonic.  `edges[l]` is
/// the bin range of harmonic `l`, `m_max` the last bin of the sum.
pub fn residual_bands(edges: &[(i32, i32)], m_max: i32) -> (bands: Vec<ResidualBand>)
    requires
        m_max < i32::MAX,
    ensures
        lists_visits(bands@, edges@, m_max as int, edges@.len() as int),
{
    let mut bands: Vec<ResidualBand> = Vec::new();
    if m_max < E_R_LOWER_M {
        return bands;
    }
    let mut l: usize = 0;
    while l < edges.len()
        invariant
            l <= edges@.len(),
            E_R_LOWER_M <= m_max < i32::MAX,
            forall|k: int| 0 <= k < l ==> !#[trigger] sweep_stops(edges@, m_max as int, k),
            lists_visits(bands@, edges@, m_max as int, l as int),
        decreases edges@.len() - l,
    {
        let (m_lo, m_hi): (i32, i32) = edges[l];
        if m_lo > m_max || (l > 58 && edges[l - 1].1 > E_R_LOWER_M) {
            proof {
                lemma_sweep_end(edges@, m_max as int, 0, l as int);
                assert(sweep_stops(edges@, m_max as int, l as int));
            }
            return bands;
        }
        assert(!sweep_stops(edges@, m_max as int, l as int));
        proof {
            lemma_sweep_end(edges@, m_max as int, 0, l + 1);
        }
        if m_hi > E_R_LOWER_M {
            let start: i32 = if m_lo < E_R_LOWER_M { E_R_LOWER_M } else { m_lo };
            let end: i32 = if m_hi < m_max + 1 { m_hi } else { m_max + 1 };
            let ghost before = bands@;
            bands.push(ResidualBand { harmonic: l, start, end });
            proof {
                let after = bands@;
                assert forall|k: int, m: int|
                    k < l + 1 && #[trigger] visits(edges@, m_max as int, k, m) implies exists|i: int|
                    0 <= i < after.len() && (#[trigger] after[i]).harmonic == k && after[i].start
                        <= m < after[i].end by {
                    if k < l {
                        let i = choose|i: int|
                            0 <= i < before.len() && (#[trigger] before[i]).harmonic == k
                                && before[i].start <= m < before[i].end;
                        assert(after[i] == before[i]);
                    } else {
                        assert(after[before.len() as int].harmonic == l);
                    }
                }
            }
        }
        l = l + 1;
    }
    bands
}

/// When the harmonics' bin ranges follow one another without a gap, the
/// residual sum visits every bin at most once.
pub proof fn law_bins_visited_once(edges: Seq<(i32, i32)>, m_max: int, l1: int, l2: int, m: int)
    requires
        forall|l: int| 0 <= l < edges.len() ==> (#[trigger] edges[l]).0 <= edges[l].1,
        forall|l: int| 0 <= l < edges.len() - 1 ==> (#[trigger] edges[l]).1 == edges[l + 1].0,
        visits(edges, m_max, l1, m),
        visits(edges, m_max, l2, m),
    ensures
        l1 == l2,
{
    lemma_sweep_end_le(edges, m_max, 0);
    if l1 < l2 {
        lemma_ranges_ascend(edges, l1, l2);
    }
    if l2 < l1 {
        lemma_ranges_ascend(edges, l2, l1);
    }
}

proof fn lemma_sweep_end_le(edges: Seq<(i32, i32)>, m_max: int, from: int)
    requires
        from <= edges.len(),
    ensures
        sweep_end(edges, m_max, from) <= edges.len(),
    decreases edges.len() - from,
{
    if !sweep_stops(edges, m_max, from) {
        lemma_sweep_end_le(edges, m_max, from + 1);
    }
}

proof fn lemma_ranges_ascend(edges: Seq<(i32, i32)>, a: int, b: int)
    requires
        0 <= a < b < edges.len(),
        forall|l: int| 0 <= l < edges.len() ==> (#[trigger] edges[l]).0 <= edges[l].1,
        forall|l: int| 0 <= l < edges.len() - 1 ==> (#[trigger] edges[l]).1 == edges[l + 1].0,
    ensures
        edges[a].1 <= edges[b].0,
    decreases b - a,
{
    if a + 1 < b {
        lemma_ranges_ascend(edges, a, b - 1);
        assert(edges[b - 1].1 == edges[b - 1 + 1].0);
    } else {
        assert(edges[a].1 == edges[a + 1].0);
    }
}

/// When the ranges leave no gap, the sum visits every bin from its first bin up
/// to `m_max` that the swept harmonics reach.
pub proof fn law_bins_all_visited(edges: Seq<(i32, i32)>, m_max: int, m: int)
    requires
        forall|l: int| 0 <= l < edges.len() ==> (#[trigger] edges[l]).0 <= edges[l].1,
        forall|l: int| 0 <= l < edges.len() - 1 ==> (#[trigger] edges[l]).1 == edges[l + 1].0,
        sweep_end(edges, m_max, 0) > 0,
        edges[0].0 <= m < edges[sweep_end(edges, m_max, 0) - 1].1,
        E_R_LOWER_M <= m <= m_max,
    ensures
        exists|l: int| visits(edges, m_max, l, m),
{
    lemma_sweep_end_le(edges, m_max, 0);
    let l = lemma_find_range(edges, sweep_end(edges, m_max, 0) - 1, m);
    assert(visits(edges, m_max, l, m));
}

proof fn lemma_find_range(edges: Seq<(i32, i32)>, last: int, m: int) -> (found: int)
    requires
        0 <= last < edges.len(),
        forall|l: int| 0 <= l < edges.len() - 1 ==> (#[trigger] edges[l]).1 == edges[l + 1].0,
        edges[0].0 <= m < edges[last].1,
    ensures
        0 <= found <= last,
        edges[found].0 <= m < edges[found].1,
    decreases last,
{
    if edges[last].0 <= m {
        last
    } else {
        assert(edges[last - 1].1 == edges[last - 1 + 1].0);
        lemma_find_range(edges, last - 1, m)
    }
}

/// The refined pitch has the least residual of the ten candidates.  Candidate `i`
/// lies `2 i - 9` eighths of a sample from the initial period; of several with the
/// least residual none lies closer than the chosen one, and of two equally close
/// ones the shorter period is chosen.
pub proof fn law_refinement(residuals: Seq<i64>, best: int, j: int)
    requires
        0 <= best < N_REFINE_CANDIDATES,
        forall|j: int|
            0 <= j < N_REFINE_CANDIDATES ==> #[trigger] refines_before(residuals, best, j),
        0 <= j < 10,
    ensures
        residuals[best] <= residuals[j],
        residuals[best] == residuals[j] ==> (2 * best - 9) * (2 * best - 9) <= (2 * j - 9) * (2 * j
            - 9),
        residuals[best] == residuals[j] && 2 * best - 9 == 9 - 2 * j ==> best <= j,
{
    assert(refines_before(residuals, best, j));
    let a = offset_size(best);
    let b = offset_size(j);
    assert(a * a == (2 * best - 9) * (2 * best - 9)) by (nonlinear_arith)
        requires
            a == 2 * best - 9 || a == 9 - 2 * best,
    ;
    assert(b * b == (2 * j - 9) * (2 * j - 9)) by (nonlinear_arith)
        requires
            b == 2 * j - 9 || b == 9 - 2 * j,
    ;
    if a <= b {
        assert(a * a <= b * b) by (nonlinear_arith)
            requires
                0 <= a <= b,
        ;
    }
}

/// Which bins the residual sum visits.  With at most 59 harmonics whose ranges start
/// in ascending order, it visits bin `m` as part of harmonic `l` exactly if `m` lies
/// in the range of `l` and between bin 50 and the last bin.
pub proof fn law_residual_bins(edges: Seq<(i32, i32)>, m_max: int, l: int, m: int)
    requires
        edges.len() <= 59,
        forall|i: int, j: int| 0 <= i <= j < edges.len() ==> edges[i].0 <= edges[j].0,
    ensures
        visits(edges, m_max, l, m) <==> 0 <= l < edges.len() && edges[l].0 <= m < edges[l].1 && 50
            <= m <= m_max,
{
    lemma_sweep_end_le(edges, m_max, 0);
    if 0 <= l < edges.len() && edges[l].0 <= m <= m_max {
        assert forall|k: int| 0 <= k < l + 1 implies !#[trigger] sweep_stops(edges, m_max, k) by {
            assert(edges[k].0 <= edges[l].0);
        }
        lemma_sweep_end(edges, m_max, 0, l + 1);
    }
}

/// The ranges that are listed make up the bins that are visited: bin `m` lies in a
/// listed range of harmonic `l` exactly if the sum visits it there.
pub proof fn law_residual_bands_cover(
    bands: Seq<ResidualBand>,
    edges: Seq<(i32, i32)>,
    m_max: int,
    l: int,
    m: int,
)
    requires
        lists_visits(bands, edges, m_max, edges.len() as int),
        edges.len() <= 59,
        forall|i: int, j: int| 0 <= i <= j < edges.len() ==> edges[i].0 <= edges[j].0,
    ensures
        (exists|i: int|
            0 <= i < bands.len() && (#[trigger] bands[i]).harmonic == l && bands[i].start <= m
                < bands[i].end) <==> 0 <= l < edges.len() && edges[l].0 <= m < edges[l].1 && 50 <= m
            <= m_max,
{
    law_residual_bins(edges, m_max, l, m);
    if exists|i: int|
        0 <= i < bands.len() && (#[trigger] bands[i]).harmonic == l && bands[i].start <= m
            < bands[i].end {
        let i = choose|i: int|
            0 <= i < bands.len() && (#[trigger] bands[i]).harmonic == l && bands[i].start <= m
                < bands[i].end;
        assert(visits(edges, m_max, bands[i].harmonic as int, m));
    }
}

} // verus!
