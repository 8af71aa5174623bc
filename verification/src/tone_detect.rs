//! Detection of single tones and tone pairs in a spectrum.
//!
//! A frame of 160 samples gives a one-sided power spectrum of 129 bins.  The
//! powers stand as order keys.  A tone table lists, per tone, the two harmonic
//! numbers at which it sounds; a single tone has both equal.

use vstd::prelude::*;

use crate::selection::first_max;
use crate::selection::is_first_max;
use crate::selection::is_rank;
use crate::selection::key_of_rank;

verus! {

/// Samples per detector frame.
pub const TONE_DETECT_FRAME: usize = 160;

/// Bins of the one-sided spectrum.
pub const TONE_BINS: usize = 129;

/// A detected tone.
#[derive(Clone, Copy, Debug, PartialEq, Eq, Structural)]
pub struct ToneDetection {
    /// Position in the tone table.
    pub id: u8,
    /// Logarithmic amplitude, at most 127.
    pub amplitude: u8,
}

/// The harmonic numbers of a tone.
#[derive(Clone, Copy, Debug, PartialEq, Eq, Structural)]
pub struct ToneRow {
    /// First harmonic number.
    pub l1: u8,
    /// Second harmonic number.
    pub l2: u8,
}

/// The broadband floor: the power at the first quartile of the bins above
/// zero frequency.
pub fn tone_floor(psd: &[i64]) -> (floor: i64)
    requires
        psd@.len() == TONE_BINS,
    ensures
        is_rank(psd@.subrange(1, 129), 32, floor),
{
    let bins: &[i64] = &psd[1..129];
    key_of_rank(bins, 32)
}

/// The strongest bin above zero frequency; the first if several tie.
pub fn primary_peak(psd: &[i64]) -> (peak: usize)
    requires
        psd@.len() == TONE_BINS,
    ensures
        is_first_max(psd@, 1, TONE_BINS as int, peak as int),
{
    first_max(psd, 1, TONE_BINS)
}

/// Bin `k` is at least three bins away from `primary`.
pub open spec fn apart(k: int, primary: int) -> bool {
    1 <= k < TONE_BINS && (k - primary >= 3 || primary - k >= 3)
}

/// The strongest bin above zero frequency that is at least three bins away from
/// `primary` and above `floor`; the first if several tie.
pub fn secondary_peak(psd: &[i64], primary: usize, floor: i64) -> (peak: Option<usize>)
    requires
        psd@.len() == TONE_BINS,
        primary < TONE_BINS,
    ensures
        match peak {
            Some(k) => {
                &&& apart(k as int, primary as int)
                &&& psd@[k as int] > floor
                &&& forall|j: int|
                    #[trigger] apart(j, primary as int) ==> psd@[j] <= psd@[k as int]
                &&& forall|j: int|
                    #[trigger] apart(j, primary as int) && j < k ==> psd@[j] < psd@[k as int]
            },
            None => forall|j: int| #[trigger] apart(j, primary as int) ==> psd@[j] <= floor,
        },
{
    let mut best: Option<usize> = None;
    let mut best_power: i64 = floor;
    let mut k: usize = 1;
    while k < TONE_BINS
        invariant
            1 <= k <= TONE_BINS,
            psd@.len() == TONE_BINS,
            primary < TONE_BINS,
            match best {
                Some(b) => {
                    &&& apart(b as int, primary as int)
                    &&& b < k
                    &&& psd@[b as int] == best_power
                    &&& best_power > floor
                    &&& forall|j: int|
                        #[trigger] apart(j, primary as int) && j < b ==> psd@[j] < best_power
                },
                None => best_power == floor,
            },
            forall|j: int| #[trigger] apart(j, primary as int) && j < k ==> psd@[j] <= best_power,
        decreases TONE_BINS - k,
    {
        let distance: usize = if k < primary { primary - k } else { k - primary };
        if distance >= 3 && psd[k] > best_power {
            assert(apart(k as int, primary as int));
            best_power = psd[k];
            best = Some(k);
        }
        k = k + 1;
    }
    best
}

/// Row `i` is in play: it exists, is a pair or not as asked, and lies within
/// the tolerance.
pub open spec fn row_in_play(
    rows: Seq<Option<ToneRow>>,
    errors: Seq<i64>,
    tolerance: i64,
    pairs: bool,
    i: int,
) -> bool {
    &&& 0 <= i < rows.len()
    &&& rows[i] is Some
    &&& (rows[i]->Some_0.l1 != rows[i]->Some_0.l2) == pairs
    &&& errors[i] < tolerance
}

/// The row in play with the least frequency error is `found`; the first if
/// several tie, `None` if no row is in play.
pub open spec fn is_closest_row(
    rows: Seq<Option<ToneRow>>,
    errors: Seq<i64>,
    tolerance: i64,
    pairs: bool,
    found: Option<u8>,
) -> bool {
    match found {
        Some(id) => {
            &&& row_in_play(rows, errors, tolerance, pairs, id as int)
            &&& forall|j: int|
                #[trigger] row_in_play(rows, errors, tolerance, pairs, j) ==> errors[id as int]
                    <= errors[j]
            &&& forall|j: int|
                #[trigger] row_in_play(rows, errors, tolerance, pairs, j) && j < id
                    ==> errors[id as int] < errors[j]
        },
        None => forall|j: int| !#[trigger] row_in_play(rows, errors, tolerance, pairs, j),
    }
}

/// The row of the table that fits best.  `errors[i]` is the frequency error of
/// row `i`.
pub fn closest_row(rows: &[Option<ToneRow>], errors: &[i64], tolerance: i64, pairs: bool) -> (found:
    Option<u8>)
    requires
        rows@.len() == errors@.len(),
        rows@.len() <= 256,
    ensures
        is_closest_row(rows@, errors@, tolerance, pairs, found),
{
    let mut best: Option<u8> = None;
    let mut best_error: i64 = tolerance;
    let mut i: usize = 0;
    while i < rows.len()
        invariant
            i <= rows@.len() <= 256,
            rows@.len() == errors@.len(),
            match best {
                Some(b) => {
                    &&& b < i
                    &&& row_in_play(rows@, errors@, tolerance, pairs, b as int)
                    &&& errors@[b as int] == best_error
                    &&& forall|j: int|
                        #[trigger] row_in_play(rows@, errors@, tolerance, pairs, j) && j < b
                            ==> best_error < errors@[j]
                },
                None => best_error == tolerance && forall|j: int|
                    j < i ==> !#[trigger] row_in_play(rows@, errors@, tolerance, pairs, j),
            },
            forall|j: int|
                #[trigger] row_in_play(rows@, errors@, tolerance, pairs, j) && j < i ==> best_error
                    <= errors@[j],
        decreases rows@.len() - i,
    {
        match rows[i] {
            Some(row) => {
                if (row.l1 != row.l2) == pairs && errors[i] < tolerance && errors[i] < best_error {
                    assert(row_in_play(rows@, errors@, tolerance, pairs, i as int));
                    best = Some(i as u8);
                    best_error = errors[i];
                }
            },
            None => {},
        }
        i = i + 1;
    }
    best
}

/// The amplitude field for a rounded logarithmic amplitude: held between 0 and
/// 127.
pub open spec fn amplitude_field(rounded: int) -> int {
    if rounded < 0 { 0 } else if rounded > 127 { 127 } else { rounded }
}

/// The amplitude field for a rounded logarithmic amplitude.
pub fn magnitude_to_amplitude(rounded: i64) -> (amplitude: u8)
    ensures
        amplitude == amplitude_field(rounded as int),
        amplitude <= 127,
        0 <= rounded <= 127 ==> amplitude == rounded,
        rounded < 0 ==> amplitude == 0,
        rounded > 127 ==> amplitude == 127,
{
    if rounded < 0 {
        0
    } else if rounded > 127 {
        127
    } else {
        rounded as u8
    }
}

/// Detects a single tone.  `clears_floor` says that the primary peak stands far
/// enough above the floor; `errors[i]` is the distance of its frequency from
/// row `i`; `rounded` is its logarithmic amplitude, rounded.
pub fn detect_single_tone(
    frame_len: usize,
    clears_floor: bool,
    rows: &[Option<ToneRow>],
    errors: &[i64],
    tolerance: i64,
    rounded: i64,
) -> (detection: Option<ToneDetection>)
    requires
        rows@.len() == errors@.len(),
        rows@.len() <= 256,
    ensures
        frame_len != TONE_DETECT_FRAME || !clears_floor ==> detection is None,
        frame_len == TONE_DETECT_FRAME && clears_floor ==> {
            &&& is_closest_row(
                rows@,
                errors@,
                tolerance,
                false,
                match detection {
                    Some(tone) => Some(tone.id),
                    None => None,
                },
            )
            &&& detection is Some ==> detection->Some_0.amplitude == amplitude_field(
                rounded as int,
            )
        },
        detection is Some ==> detection->Some_0.amplitude <= 127,
{
    if frame_len != TONE_DETECT_FRAME || !clears_floor {
        return None;
    }
    match closest_row(rows, errors, tolerance, false) {
        Some(id) => Some(ToneDetection { id, amplitude: magnitude_to_amplitude(rounded) }),
        None => None,
    }
}

/// Detects a tone pair.  `clears_floor` says that both peaks stand far enough
/// above the floor, `secondary` where the second peak is; `errors[i]` is the
/// distance of the two frequencies from row `i`; `rounded` is the logarithmic
/// amplitude of the stronger one, rounded.
pub fn detect_dtmf(
    frame_len: usize,
    clears_floor: bool,
    secondary: Option<usize>,
    rows: &[Option<ToneRow>],
    errors: &[i64],
    tolerance: i64,
    rounded: i64,
) -> (detection: Option<ToneDetection>)
    requires
        rows@.len() == errors@.len(),
        rows@.len() <= 256,
    ensures
        frame_len != TONE_DETECT_FRAME || !clears_floor || secondary is None ==> detection is None,
        frame_len == TONE_DETECT_FRAME && clears_floor && secondary is Some ==> {
            &&& is_closest_row(
                rows@,
                errors@,
                tolerance,
                true,
                match detection {
                    Some(tone) => Some(tone.id),
                    None => None,
                },
            )
            &&& detection is Some ==> detection->Some_0.amplitude == amplitude_field(
                rounded as int,
            )
        },
        detection is Some ==> detection->Some_0.amplitude <= 127,
{
    if frame_len != TONE_DETECT_FRAME || !clears_floor || secondary.is_none() {
        return None;
    }
    match closest_row(rows, errors, tolerance, true) {
        Some(id) => Some(ToneDetection { id, amplitude: magnitude_to_amplitude(rounded) }),
        None => None,
    }
}

/// The tone of a frame: the pair if one was detected, else the single tone.
pub fn detect_tone(pair: Option<ToneDetection>, single: Option<ToneDetection>) -> (detection: Option<
    ToneDetection,
>)
    ensures
        detection == if pair is Some { pair } else { single },
{
    match pair {
        Some(tone) => Some(tone),
        None => single,
    }
}

/// A row of the table is either a single tone or a pair, never both, so the two
/// detectors never report the same row.
pub proof fn law_detectors_disjoint(
    rows: Seq<Option<ToneRow>>,
    pair_errors: Seq<i64>,
    pair_tolerance: i64,
    single_errors: Seq<i64>,
    single_tolerance: i64,
    id: int,
)
    ensures
        !(row_in_play(rows, pair_errors, pair_tolerance, true, id) && row_in_play(
            rows,
            single_errors,
            single_tolerance,
            false,
            id,
        )),
{
}

/// The amplitude field is the rounded amplitude where it fits in seven bits, and
/// else the limit that it passes.
pub proof fn law_amplitude_field(rounded: int)
    ensures
        0 <= rounded <= 127 ==> amplitude_field(rounded) == rounded,
        rounded < 0 ==> amplitude_field(rounded) == 0,
        rounded > 127 ==> amplitude_field(rounded) == 127,
{
}

/// What a match is.  The row found exists, has two harmonic numbers exactly if a
/// pair was asked for, and has an error below the tolerance; no other such row has
/// a lesser error, and none before it an equal one.  If nothing is found, there is
/// no such row.
pub proof fn law_closest_row(
    rows: Seq<Option<ToneRow>>,
    errors: Seq<i64>,
    tolerance: i64,
    pairs: bool,
    found: Option<u8>,
    j: int,
)
    requires
        is_closest_row(rows, errors, tolerance, pairs, found),
        0 <= j < rows.len(),
    ensures
        match found {
            Some(id) => {
                &&& id < rows.len()
                &&& rows[id as int] is Some
                &&& pairs <==> rows[id as int]->Some_0.l1 != rows[id as int]->Some_0.l2
                &&& errors[id as int] < tolerance
                &&& rows[j] is Some && (pairs <==> rows[j]->Some_0.l1 != rows[j]->Some_0.l2) && j
                    < id ==> errors[j] > errors[id as int]
                &&& rows[j] is Some && (pairs <==> rows[j]->Some_0.l1 != rows[j]->Some_0.l2)
                    ==> errors[j] >= errors[id as int]
            },
            None => rows[j] is Some && (pairs <==> rows[j]->Some_0.l1 != rows[j]->Some_0.l2)
                ==> errors[j] >= tolerance,
        },
{
    assert(row_in_play(rows, errors, tolerance, pairs, j) <==> rows[j] is Some && (pairs
        <==> rows[j]->Some_0.l1 != rows[j]->Some_0.l2) && errors[j] < tolerance);
}

/// Bins count as apart if at least two bins lie between them.
pub proof fn law_apart(k: int, primary: int)
    requires
        1 <= k <= 128,
    ensures
        apart(k, primary) <==> (k - primary) * (k - primary) >= 9,
{
    let d = k - primary;
    assert(d * d >= 9 <==> d >= 3 || d <= -3) by (nonlinear_arith);
}

} // verus!
