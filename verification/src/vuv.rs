//! Voicing decisions per band.
//!
//! The harmonics of a frame are grouped into at most twelve bands of three; the
//! last band takes whatever harmonics are left.  Each band is voiced or not.

use vstd::prelude::*;

verus! {

/// Most bands that a frame can have.
pub const K_HAT_MAX: u8 = 12;

/// The band count for `l_hat` harmonics.
pub open spec fn band_count(l_hat: int) -> int {
    if l_hat <= 36 { (l_hat + 2) / 3 } else { 12 }
}

/// The band count for `l_hat` harmonics.
pub fn band_count_for(l_hat: u8) -> (k_hat: u8)
    ensures
        k_hat == band_count(l_hat as int),
        k_hat <= K_HAT_MAX,
        l_hat <= 36 ==> 3 * k_hat - 3 < l_hat <= 3 * k_hat || l_hat == k_hat == 0,
        l_hat >= 36 ==> k_hat == 12,
{
    if l_hat <= 36 {
        (l_hat + 2) / 3
    } else {
        K_HAT_MAX
    }
}

/// First harmonic of band `k`.
pub open spec fn band_first(k: int) -> int {
    3 * k - 2
}

/// Last harmonic of band `k` out of `k_hat` bands over `l_hat` harmonics.
pub open spec fn band_last(k: int, k_hat: int, l_hat: int) -> int {
    if k < k_hat { 3 * k } else { l_hat }
}

/// The harmonics of band `k`, both ends included.
pub fn band_harmonics(k: u8, k_hat: u8, l_hat: u8) -> (range: (u32, u32))
    requires
        1 <= k <= k_hat <= K_HAT_MAX,
    ensures
        range.0 == band_first(k as int),
        range.1 == band_last(k as int, k_hat as int, l_hat as int),
        range.0 + 2 == 3 * k,
        k < k_hat ==> range.1 == range.0 + 2,
        k == k_hat ==> range.1 == l_hat,
{
    let first: u32 = 3 * (k as u32) - 2;
    let last: u32 = if k < k_hat { 3 * (k as u32) } else { l_hat as u32 };
    (first, last)
}

/// The band that holds harmonic `l` when there are `k_hat` bands.
pub open spec fn band_of(l: int, k_hat: int) -> int {
    if l == 0 || k_hat == 0 {
        0
    } else if (l + 2) / 3 < k_hat {
        (l + 2) / 3
    } else {
        k_hat
    }
}

/// The bands split the harmonics: harmonic `l` lies in the band that
/// [`band_of`] names and in no other.
pub proof fn law_bands_partition_harmonics(l_hat: int, l: int, k: int)
    requires
        1 <= l <= l_hat <= 255,
        1 <= k <= band_count(l_hat),
    ensures
        1 <= band_of(l, band_count(l_hat)) <= band_count(l_hat),
        band_first(k) <= l <= band_last(k, band_count(l_hat), l_hat) <==> k == band_of(
            l,
            band_count(l_hat),
        ),
{
}

/// Voicing decisions of one frame.  Band `k` stands in slot `k`; slot 0 and the
/// slots past `k_hat` are 0.
#[derive(Clone, Copy, Debug)]
pub struct VuvResult {
    /// Number of bands.
    pub k_hat: u8,
    /// Decision per band: 1 voiced, 0 unvoiced.
    pub vuv: [u8; 13],
}

impl VuvResult {
    /// The slots past the last band are 0 and there are at most twelve bands.
    pub open spec fn wf(self) -> bool {
        &&& self.k_hat <= K_HAT_MAX
        &&& self.vuv@[0] == 0
        &&& forall|k: int| self.k_hat < k < 13 ==> self.vuv@[k] == 0
    }

    /// Whether harmonic `l` is voiced.
    pub open spec fn voices(self, l: int) -> bool {
        band_of(l, self.k_hat as int) >= 1 && self.vuv@[band_of(l, self.k_hat as int)] == 1
    }
}

/// Which threshold a band is held against.
#[derive(Clone, Copy, Debug, PartialEq, Eq, Structural)]
pub enum ThetaCase {
    /// The pitch fits poorly: the threshold is zero, so the band is unvoiced.
    ForceUnvoiced,
    /// The band was voiced in the previous frame.
    VoicedHistory,
    /// The band was unvoiced in the previous frame.
    UnvoicedHistory,
}

/// Whether a band is voiced whose threshold case is `case`; `below` says that its
/// error is below that threshold.  A threshold of zero voices no band.
pub fn band_voiced(case: ThetaCase, below: bool) -> (voiced: bool)
    ensures
        voiced == (case != ThetaCase::ForceUnvoiced && below),
{
    match case {
        ThetaCase::ForceUnvoiced => false,
        ThetaCase::VoicedHistory => below,
        ThetaCase::UnvoicedHistory => below,
    }
}

/// Voicing history over frames.
#[derive(Clone, Debug)]
pub struct VuvState {
    vuv_prev: [u8; 13],
    k_prev: u8,
    mxi_grade: bool,
}

impl VuvState {
    /// Previous decision per slot.
    pub closed spec fn history(self) -> Seq<u8> {
        self.vuv_prev@
    }

    /// Previous band count.
    pub closed spec fn previous_bands(self) -> u8 {
        self.k_prev
    }

    /// Whether thresholds are graded by signal level.
    pub closed spec fn grades(self) -> bool {
        self.mxi_grade
    }

    /// No history: every band unvoiced.
    pub fn cold_start() -> (state: Self)
        ensures
            state.history() == Seq::new(13, |k: int| 0u8),
            state.previous_bands() == 0,
            !state.grades(),
    {
        let state = VuvState { vuv_prev: [0;13], k_prev: 0, mxi_grade: false };
        assert(state.vuv_prev@ =~= Seq::new(13, |k: int| 0u8));
        state
    }

    /// Turns the grading of thresholds on or off.
    pub fn set_mxi_grade(&mut self, on: bool)
        ensures
            final(self).grades() == on,
            final(self).history() == old(self).history(),
            final(self).previous_bands() == old(self).previous_bands(),
    {
        self.mxi_grade = on;
    }

    /// Whether thresholds are graded by signal level.
    pub fn mxi_grade_enabled(&self) -> (on: bool)
        ensures
            on == self.grades(),
    {
        self.mxi_grade
    }

    /// Previous decision of band `k`; 0 for a band that cannot exist.
    pub fn vuv_prev(&self, k: u8) -> (decision: u8)
        ensures
            decision == if 1 <= k <= K_HAT_MAX { self.history()[k as int] } else { 0u8 },
    {
        if 1 <= k && k <= K_HAT_MAX {
            self.vuv_prev[k as usize]
        } else {
            0
        }
    }

    /// Replaces the history: slot `k` of `decisions` for each band up to
    /// `k_hat` (and the largest possible band), every other slot 0.
    pub fn override_vuv_prev(&mut self, decisions: &[u8], k_hat: u8)
        requires
            decisions@.len() == 0 || k_hat == 0 || decisions@.len() > k_hat || decisions@.len()
                > K_HAT_MAX,
        ensures
            final(self).history().len() == 13,
            final(self).previous_bands() == k_hat,
            final(self).grades() == old(self).grades(),
            forall|k: int|
                0 <= k < 13 ==> #[trigger] final(self).history()[k] == if 1 <= k <= k_hat && k
                    < decisions@.len() {
                    decisions@[k]
                } else {
                    0u8
                },
    {
        let mut n: usize = k_hat as usize;
        if decisions.len() < n {
            n = decisions.len();
        }
        if n > 12 {
            n = 12;
        }
        let mut next: [u8; 13] = [0;13];
        let mut k: usize = 1;
        while k <= n
            invariant
                1 <= k <= n + 1,
                n <= 12,
                n <= k_hat,
                n == 0 || n < decisions@.len(),
                forall|j: int|
                    0 <= j < 13 ==> #[trigger] next@[j] == if 1 <= j < k {
                        decisions@[j]
                    } else {
                        0u8
                    },
            decreases n + 1 - k,
        {
            next[k] = decisions[k];
            k = k + 1;
        }
        self.vuv_prev = next;
        self.k_prev = k_hat;
    }

    /// The threshold case of band `k`: a poor match spares only the first band,
    /// and otherwise the previous decision counts.
    pub open spec fn case_of(self, k: int, poor_match: bool) -> ThetaCase {
        if poor_match && k >= 2 {
            ThetaCase::ForceUnvoiced
        } else if self.history()[k] == 1 {
            ThetaCase::VoicedHistory
        } else {
            ThetaCase::UnvoicedHistory
        }
    }

    /// The threshold case of band `k`.  `poor_match` says that the pitch error
    /// is above the poor-match threshold; it spares the first band.
    pub fn theta_case(&self, k: u8, poor_match: bool) -> (case: ThetaCase)
        requires
            1 <= k <= K_HAT_MAX,
        ensures
            case == self.case_of(k as int, poor_match),
            case == ThetaCase::ForceUnvoiced <==> poor_match && k >= 2,
            case == ThetaCase::VoicedHistory <==> !(poor_match && k >= 2)
                && self.history()[k as int] == 1,
    {
        if poor_match && k >= 2 {
            ThetaCase::ForceUnvoiced
        } else if self.vuv_prev[k as usize] == 1 {
            ThetaCase::VoicedHistory
        } else {
            ThetaCase::UnvoicedHistory
        }
    }

    /// Whether the threshold of band `k` is graded: grading is on, the pitch
    /// error is below the poor-match threshold (`good_match`), and the threshold
    /// is not forced to zero.
    pub fn theta_graded(&self, k: u8, poor_match: bool, good_match: bool) -> (graded: bool)
        requires
            1 <= k <= K_HAT_MAX,
        ensures
            graded == (self.grades() && good_match && !(poor_match && k >= 2)),
    {
        self.mxi_grade && good_match && !(poor_match && k >= 2)
    }
}

impl Default for VuvState {
    fn default() -> (state: Self)
        ensures
            state.history() == Seq::new(13, |k: int| 0u8),
            state.previous_bands() == 0,
            !state.grades(),
    {
        VuvState::cold_start()
    }
}

/// Band `k` is voiced: `below` says that its error is below its threshold, which a
/// poor match forces to zero for every band but the first.
pub open spec fn voiced_band(k: int, poor_match: bool, below: bool) -> bool {
    !(poor_match && k >= 2) && below
}

/// `vuv` holds the decisions of a frame with `l_hat` harmonics: 1 for each voiced
/// band, 0 for every other slot.
pub open spec fn records(vuv: Seq<u8>, l_hat: int, poor_match: bool, below: Seq<bool>) -> bool {
    &&& vuv.len() == 13
    &&& forall|k: int|
        0 <= k < 13 ==> #[trigger] vuv[k] == if 1 <= k <= band_count(l_hat) && voiced_band(
            k,
            poor_match,
            below[k - 1],
        ) {
            1u8
        } else {
            0u8
        }
}

/// Decides the voicing of a frame with `l_hat` harmonics.  `poor_match` says that
/// the pitch error is above the poor-match threshold, `below[k - 1]` that the error
/// of band `k` is below the threshold of its case ([`VuvState::theta_case`]).  The
/// decisions become the history of the next frame.
pub fn determine_vuv(l_hat: u8, poor_match: bool, below: &[bool], state: &mut VuvState) -> (result:
    VuvResult)
    requires
        below@.len() == band_count(l_hat as int),
    ensures
        result.wf(),
        result.k_hat == band_count(l_hat as int),
        forall|k: int|
            1 <= k <= result.k_hat ==> (#[trigger] result.vuv@[k] == 1 <==> !(poor_match && k >= 2)
                && below@[k - 1]),
        records(result.vuv@, l_hat as int, poor_match, below@),
        final(state).history() == result.vuv@,
        final(state).previous_bands() == result.k_hat,
        final(state).grades() == old(state).grades(),
{
    let k_hat: u8 = band_count_for(l_hat);
    let mut vuv: [u8; 13] = [0;13];
    let mut k: u8 = 1;
    while k <= k_hat
        invariant
            1 <= k <= k_hat + 1,
            k_hat <= K_HAT_MAX,
            below@.len() == k_hat,
            *state == *old(state),
            forall|j: int|
                1 <= j < k ==> #[trigger] vuv@[j] == if voiced_band(j, poor_match, below@[j - 1]) {
                    1u8
                } else {
                    0u8
                },
            forall|j: int| k <= j < 13 ==> vuv@[j] == 0,
            vuv@[0] == 0,
        decreases k_hat + 1 - k,
    {
        let case = state.theta_case(k, poor_match);
        vuv[k as usize] = if band_voiced(case, below[k as usize - 1]) { 1 } else { 0 };
        k = k + 1;
    }
    state.vuv_prev = vuv;
    state.k_prev = k_hat;
    VuvResult { k_hat, vuv }
}

/// When the pitch fits poorly, every band from the second on is recorded as
/// unvoiced, and with it every harmonic past the third, whatever the band errors
/// are.
pub proof fn law_poor_match_unvoices(l_hat: int, below: Seq<bool>, result: VuvResult)
    requires
        0 <= l_hat <= 255,
        result.k_hat == band_count(l_hat),
        records(result.vuv@, l_hat, true, below),
    ensures
        forall|k: int| 2 <= k < 13 ==> #[trigger] result.vuv@[k] == 0,
        forall|l: int| 4 <= l <= l_hat ==> !#[trigger] result.voices(l),
{
    assert forall|l: int| 4 <= l <= l_hat implies !#[trigger] result.voices(l) by {
        assert(2 <= band_of(l, result.k_hat as int) < 13);
    }
}

/// The bands are groups of three harmonics: there are just enough of them for the
/// harmonics, but at most twelve; every band but the last holds exactly three, one
/// after the other from harmonic 1 on; and the last holds all that are left.
pub proof fn law_bands_are_threes(l_hat: int, k: int)
    requires
        0 <= l_hat <= 255,
        1 <= k <= band_count(l_hat),
    ensures
        1 <= l_hat <= 36 ==> 3 * band_count(l_hat) - 2 <= l_hat <= 3 * band_count(l_hat),
        l_hat >= 36 ==> band_count(l_hat) == 12,
        band_first(1) == 1,
        band_first(k + 1) == band_first(k) + 3,
        k < band_count(l_hat) ==> band_last(k, band_count(l_hat), l_hat) == band_first(k + 1) - 1,
        band_last(band_count(l_hat), band_count(l_hat), l_hat) == l_hat,
{
}

/// A frame without harmonics has no bands, and one with harmonics has some.
pub proof fn law_bands_exist(l_hat: int)
    requires
        0 <= l_hat <= 255,
    ensures
        band_count(l_hat) >= 1 <==> l_hat >= 1,
        0 <= band_count(l_hat) <= 12,
{
}

/// A harmonic is voiced exactly if its own band is: harmonics `3k - 2` to `3k` go
/// by band `k`, and every harmonic past the last band's first goes by that band.
pub proof fn law_harmonic_goes_by_its_band(vuv: VuvResult, l: int, k: int)
    requires
        vuv.wf(),
        1 <= k <= vuv.k_hat,
        3 * k - 2 <= l,
        l <= 3 * k || k == vuv.k_hat,
    ensures
        vuv.voices(l) <==> vuv.vuv@[k] == 1,
{
}

/// Without bands, and at harmonic 0, nothing is voiced.
pub proof fn law_no_band_no_voice(vuv: VuvResult, l: int)
    requires
        vuv.wf(),
        l == 0 || vuv.k_hat == 0,
    ensures
        !vuv.voices(l),
{
}

/// Hysteresis goes band by band.  Let `after` be the state that a frame with the
/// decisions `result` left.  In the next frame band `k` is held against the
/// threshold of a voiced band exactly if `result` voiced that band, whatever the
/// other bands are; only a poor match overrides it, and not for the first band.
pub proof fn law_hysteresis_per_band(after: VuvState, result: VuvResult, k: int)
    requires
        after.history() == result.vuv@,
        1 <= k <= K_HAT_MAX,
    ensures
        after.case_of(k, false) == ThetaCase::VoicedHistory <==> result.vuv@[k] == 1,
        after.case_of(k, false) == ThetaCase::UnvoicedHistory <==> result.vuv@[k] != 1,
        after.case_of(1, true) == after.case_of(1, false),
        k >= 2 ==> after.case_of(k, true) == ThetaCase::ForceUnvoiced,
{
}

/// A frame's decisions show up in the next frame's thresholds: with a good match in
/// both, band `k` of the next frame is held against the threshold of a voiced band
/// exactly if its error was below its threshold in this frame.
pub proof fn law_decisions_carry_over(
    after: VuvState,
    result: VuvResult,
    l_hat: int,
    below: Seq<bool>,
    k: int,
)
    requires
        0 <= l_hat <= 255,
        below.len() == band_count(l_hat),
        records(result.vuv@, l_hat, false, below),
        after.history() == result.vuv@,
        1 <= k <= K_HAT_MAX,
    ensures
        after.case_of(k, false) == ThetaCase::VoicedHistory <==> k <= below.len() && below[k - 1],
        result.vuv@[k] == 1 <==> k <= below.len() && below[k - 1],
{
}

} // verus!
