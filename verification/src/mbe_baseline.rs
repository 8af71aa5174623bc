//! Frame synthesis: noise source, error concealment, band and harmonic plans.

use vstd::prelude::*;

verus! {

/// Samples per frame.
pub const FRAME_SAMPLES: usize = 160;

/// Most harmonics that a frame can have.
pub const L_MAX: usize = 56;

/// Entries of the synthesis window, which covers -105 to 105.
pub const SYNTH_WINDOW_LEN: usize = 211;

/// First state of the noise generator.
pub const NOISE_INIT: u32 = 3147;

/// Modulus of the noise generator.
pub const NOISE_MODULUS: u32 = 53125;

/// Samples in the noise window.
pub const NOISE_WINDOW_LEN: usize = 209;

// ---- Noise source -----------------------------------------------------------

/// The noise value after `u`.
pub open spec fn noise_after(u: int) -> int {
    (171 * u + 11213) % 53125
}

/// The `k`-th noise value; the 0-th is the seed.
pub open spec fn noise_at(k: nat) -> int
    decreases k,
{
    if k == 0 { NOISE_INIT as int } else { noise_after(noise_at((k - 1) as nat)) }
}

/// Noise source of the unvoiced synthesiser, with the transform output that the
/// next frame overlaps with.
#[derive(Clone, Debug)]
pub struct UnvoicedSynthState<T> {
    lcg: u32,
    noise_window: Vec<u32>,
    prev_idft: Vec<T>,
    initialized: bool,
}

impl<T: Copy> UnvoicedSynthState<T> {
    /// State of the noise generator.
    pub closed spec fn generator(self) -> int {
        self.lcg as int
    }

    /// The current noise window.
    pub closed spec fn window(self) -> Seq<u32> {
        self.noise_window@
    }

    /// The transform output of the previous frame.
    pub closed spec fn overlap(self) -> Seq<T> {
        self.prev_idft@
    }

    /// Whether the window holds noise.
    pub closed spec fn started(self) -> bool {
        self.initialized
    }

    /// The generator is in range and the buffers have their sizes.
    pub closed spec fn wf(self) -> bool {
        &&& self.lcg < NOISE_MODULUS
        &&& self.noise_window@.len() == NOISE_WINDOW_LEN
        &&& self.prev_idft@.len() == 256
    }

    /// The window holds the noise values after the `start`-th, in order, and the
    /// generator stands at the last of them.
    pub open spec fn follows(self, start: nat) -> bool {
        &&& self.started()
        &&& forall|i: int| 0 <= i < NOISE_WINDOW_LEN ==> #[trigger] self.window()[i] == noise_at(
            (start + i + 1) as nat,
        )
        &&& self.generator() == noise_at((start + 209) as nat)
    }

    /// How many values of the window stay when it moves on.
    pub open spec fn kept(self) -> int {
        if self.started() { 49 } else { 0 }
    }

    /// `after` is the state one frame later: the last 49 noise values come
    /// first (none before the first frame), and the rest are drawn one after
    /// the other.
    pub open spec fn advances_to(self, after: UnvoicedSynthState<T>) -> bool {
        &&& after.started()
        &&& after.overlap() == self.overlap()
        &&& forall|i: int|
            0 <= i < self.kept() ==> #[trigger] after.window()[i] == self.window()[i + 160]
        &&& forall|i: int|
            self.kept() <= i < NOISE_WINDOW_LEN ==> #[trigger] after.window()[i] == noise_after(
                if i == self.kept() { self.generator() } else { after.window()[i - 1] as int },
            )
        &&& after.generator() == after.window()[208]
    }

    /// Seeded generator, no noise yet, nothing to overlap with.
    pub fn new(zero: T) -> (state: Self)
        ensures
            state.wf(),
            !state.started(),
            state.generator() == NOISE_INIT,
            state.window() == Seq::new(209, |i: int| 0u32),
            state.overlap() == Seq::new(256, |i: int| zero),
    {
        let mut noise_window: Vec<u32> = Vec::new();
        let mut i: usize = 0;
        while i < NOISE_WINDOW_LEN
            invariant
                i <= NOISE_WINDOW_LEN,
                noise_window@.len() == i,
                forall|j: int| 0 <= j < i ==> noise_window@[j] == 0,
            decreases NOISE_WINDOW_LEN - i,
        {
            noise_window.push(0);
            i = i + 1;
        }
        let mut prev_idft: Vec<T> = Vec::new();
        let mut k: usize = 0;
        while k < 256
            invariant
                k <= 256,
                prev_idft@.len() == k,
                forall|j: int| 0 <= j < k ==> prev_idft@[j] == zero,
            decreases 256 - k,
        {
            prev_idft.push(zero);
            k = k + 1;
        }
        assert(noise_window@ =~= Seq::new(209, |i: int| 0u32));
        assert(prev_idft@ =~= Seq::new(256, |i: int| zero));
        UnvoicedSynthState { lcg: NOISE_INIT, noise_window, prev_idft, initialized: false }
    }

    /// The next noise value.
    fn next_noise(&mut self) -> (u: u32)
        requires
            old(self).lcg < NOISE_MODULUS,
        ensures
            u == noise_after(old(self).lcg as int),
            final(self).lcg == u,
            u < NOISE_MODULUS,
            final(self).noise_window == old(self).noise_window,
            final(self).prev_idft == old(self).prev_idft,
            final(self).initialized == old(self).initialized,
    {
        self.lcg = (171 * self.lcg + 11213) % 53125;
        self.lcg
    }

    /// Moves the noise window on by one frame.  The first call fills it; later
    /// calls keep the last 49 values and add 160.
    pub fn advance_window(&mut self)
        requires
            old(self).wf(),
        ensures
            final(self).wf(),
            old(self).advances_to(*final(self)),
    {
        let ghost before = *self;
        let mut i: usize = 0;
        if self.initialized {
            while i < 49
                invariant
                    i <= 49,
                    before.noise_window@.len() == NOISE_WINDOW_LEN,
                    self.noise_window@.len() == NOISE_WINDOW_LEN,
                    self.prev_idft == before.prev_idft,
                    self.lcg == before.lcg,
                    self.initialized == before.initialized,
                    forall|j: int|
                        0 <= j < i ==> #[trigger] self.noise_window@[j] == before.noise_window@[j
                            + 160],
                    forall|j: int|
                        i <= j < NOISE_WINDOW_LEN ==> #[trigger] self.noise_window@[j]
                            == before.noise_window@[j],
                decreases 49 - i,
            {
                let kept: u32 = self.noise_window[i + 160];
                self.noise_window[i] = kept;
                i = i + 1;
            }
        }
        let first: usize = i;
        while i < NOISE_WINDOW_LEN
            invariant
                first <= i <= NOISE_WINDOW_LEN,
                first == if before.initialized { 49int } else { 0 },
                before.noise_window@.len() == NOISE_WINDOW_LEN,
                self.noise_window@.len() == NOISE_WINDOW_LEN,
                self.prev_idft == before.prev_idft,
                self.lcg < NOISE_MODULUS,
                self.lcg == if i == first {
                    before.lcg
                } else {
                    self.noise_window@[i - 1]
                },
                before.initialized ==> forall|j: int|
                    0 <= j < 49 ==> #[trigger] self.noise_window@[j] == before.noise_window@[j
                        + 160],
                forall|j: int|
                    first <= j < i ==> #[trigger] self.noise_window@[j] == noise_after(
                        if j == first {
                            before.lcg as int
                        } else {
                            self.noise_window@[j - 1] as int
                        },
                    ),
            decreases NOISE_WINDOW_LEN - i,
        {
            let u: u32 = self.next_noise();
            self.noise_window[i] = u;
            i = i + 1;
        }
        self.initialized = true;
    }

    /// The noise values for the phases of harmonics 1 to 56.
    pub fn voiced_noise_samples(&self) -> (samples: Vec<u32>)
        requires
            self.wf(),
        ensures
            samples@ == self.window().subrange(105, 161),
    {
        let mut samples: Vec<u32> = Vec::new();
        let mut l: usize = 1;
        while l <= L_MAX
            invariant
                1 <= l <= L_MAX + 1,
                self.wf(),
                samples@ == self.noise_window@.subrange(105, 104 + l),
            decreases L_MAX + 1 - l,
        {
            samples.push(self.noise_window[l + 104]);
            assert(samples@ =~= self.noise_window@.subrange(105, 105 + l));
            l = l + 1;
        }
        samples
    }

    /// The current noise window.
    pub fn noise_window(&self) -> (window: &[u32])
        ensures
            window@ == self.window(),
    {
        self.noise_window.as_slice()
    }

    /// The transform output of the previous frame.
    pub fn prev_idft(&self) -> (overlap: &[T])
        ensures
            overlap@ == self.overlap(),
    {
        self.prev_idft.as_slice()
    }

    /// `after` keeps `idft` for the overlap; the noise stays.
    pub open spec fn stores(self, idft: Seq<T>, after: Self) -> bool {
        &&& after.overlap() == idft
        &&& after.window() == self.window()
        &&& after.generator() == self.generator()
        &&& after.started() == self.started()
    }

    /// Keeps the transform output of the current frame.
    pub fn store_idft(&mut self, idft: Vec<T>)
        requires
            old(self).wf(),
            idft@.len() == 256,
        ensures
            final(self).wf(),
            old(self).stores(idft@, *final(self)),
    {
        self.prev_idft = idft;
    }
}

/// Every noise value lies below the modulus.
pub proof fn law_noise_in_range(k: nat)
    ensures
        0 <= noise_at(k) < NOISE_MODULUS,
{
}

proof fn lemma_follows_from(
    window: Seq<u32>,
    first: int,
    generator: int,
    start: nat,
    i: int,
)
    requires
        window.len() == NOISE_WINDOW_LEN,
        0 <= first <= i < NOISE_WINDOW_LEN,
        generator == noise_at((start + first) as nat),
        forall|j: int|
            first <= j < NOISE_WINDOW_LEN ==> #[trigger] window[j] == noise_after(
                if j == first { generator } else { window[j - 1] as int },
            ),
    ensures
        window[i] == noise_at((start + i + 1) as nat),
    decreases i,
{
    if i > first {
        lemma_follows_from(window, first, generator, start, i - 1);
    }
}

/// The windows of successive frames are successive stretches of one noise
/// sequence, 160 values apart: the first window holds values 1 to 209, and each
/// later window starts 160 values after the one before.
pub proof fn law_windows_follow_one_sequence<T: Copy>(
    before: UnvoicedSynthState<T>,
    after: UnvoicedSynthState<T>,
    start: nat,
)
    requires
        before.wf(),
        after.wf(),
        before.advances_to(after),
        before.started() ==> before.follows(start),
        !before.started() ==> before.generator() == NOISE_INIT,
    ensures
        before.started() ==> after.follows(start + 160),
        !before.started() ==> after.follows(0),
{
    if before.started() {
        let next: nat = start + 160;
        assert forall|i: int| 0 <= i < NOISE_WINDOW_LEN implies #[trigger] after.window()[i]
            == noise_at((next + i + 1) as nat) by {
            if i < 49 {
                assert(before.window()[i + 160] == noise_at((start + i + 160 + 1) as nat));
            } else {
                lemma_follows_from(after.window(), 49, before.generator(), next, i);
            }
        }
        assert(after.window()[208] == noise_at((next + 208 + 1) as nat));
    } else {
        assert forall|i: int| 0 <= i < NOISE_WINDOW_LEN implies #[trigger] after.window()[i]
            == noise_at((0 + i + 1) as nat) by {
            lemma_follows_from(after.window(), 0, before.generator(), 0, i);
        }
        assert(after.window()[208] == noise_at((0 + 208 + 1) as nat));
    }
}

/// Positions in the previous and in the current transform output that sample
/// `n` of a frame takes its two overlapping terms from.
pub fn overlap_slots(n: usize) -> (slots: (Option<usize>, Option<usize>))
    requires
        n < FRAME_SAMPLES,
    ensures
        slots.0 == if n <= 127 { Some((n + 128) as usize) } else { None::<usize> },
        slots.1 == if n >= 32 { Some((n - 32) as usize) } else { None::<usize> },
        slots.0 is Some || slots.1 is Some,
        slots.0 is Some && slots.1 is Some ==> slots.0->Some_0 == slots.1->Some_0 + FRAME_SAMPLES,
{
    let previous = if n <= 127 { Some(n + 128) } else { None };
    let current = if n >= 32 { Some(n - 32) } else { None };
    (previous, current)
}

// ---- Error concealment ------------------------------------------------------

/// Bit errors of a frame.
#[derive(Clone, Copy, Debug, PartialEq, Eq, Structural)]
pub struct FrameErrorContext {
    /// Errors corrected in the first vector.
    pub epsilon_0: u8,
    /// Errors corrected in the fifth vector.
    pub epsilon_4: u8,
    /// Errors over all protected vectors.
    pub epsilon_t: u8,
    /// The decoded pitch index is not a valid one.
    pub bad_pitch: bool,
}

impl Default for FrameErrorContext {
    fn default() -> (err: Self)
        ensures
            err.epsilon_0 == 0,
            err.epsilon_4 == 0,
            err.epsilon_t == 0,
            !err.bad_pitch,
    {
        FrameErrorContext { epsilon_0: 0, epsilon_4: 0, epsilon_t: 0, bad_pitch: false }
    }
}

/// What the synthesiser does with a frame.
#[derive(Clone, Copy, Debug, PartialEq, Eq, Structural)]
pub enum FrameDisposition {
    /// Synthesise from its parameters.
    Use,
    /// Synthesise from the previous parameters.
    Repeat,
    /// Emit silence.
    Mute,
}

/// The disposition of a frame.  `rate_mutes` says that the smoothed error rate
/// is above the mute threshold, `errors_repeat` that the error count reaches the
/// repeat threshold at that rate.
pub open spec fn disposition(err: FrameErrorContext, rate_mutes: bool, errors_repeat: bool)
    -> FrameDisposition {
    if rate_mutes {
        FrameDisposition::Mute
    } else if err.bad_pitch || (err.epsilon_0 >= 2 && errors_repeat) {
        FrameDisposition::Repeat
    } else {
        FrameDisposition::Use
    }
}

/// The disposition of a frame; see [`disposition`].
pub fn frame_disposition(err: &FrameErrorContext, rate_mutes: bool, errors_repeat: bool) -> (chosen:
    FrameDisposition)
    ensures
        chosen == disposition(*err, rate_mutes, errors_repeat),
{
    if rate_mutes {
        FrameDisposition::Mute
    } else if err.bad_pitch || (err.epsilon_0 >= 2 && errors_repeat) {
        FrameDisposition::Repeat
    } else {
        FrameDisposition::Use
    }
}

/// Parameters that drive one frame of synthesis.
#[derive(Clone, Debug)]
pub struct FrameParams<T> {
    /// Fundamental frequency.
    pub omega_0: T,
    /// Voicing per harmonic.
    pub voiced: Vec<bool>,
    /// Amplitude per harmonic.
    pub m_tilde: Vec<T>,
}

impl<T: Copy> FrameParams<T> {
    /// At most 56 harmonics, each with a voicing and an amplitude.
    pub open spec fn wf(self) -> bool {
        self.voiced@.len() == self.m_tilde@.len() <= L_MAX
    }

    /// Both hold the same values.
    pub open spec fn same(self, other: FrameParams<T>) -> bool {
        &&& self.omega_0 == other.omega_0
        &&& self.voiced@ == other.voiced@
        &&& self.m_tilde@ == other.m_tilde@
    }

    /// A copy.
    pub fn duplicate(&self) -> (copy: Self)
        ensures
            copy.same(*self),
    {
        let mut voiced: Vec<bool> = Vec::new();
        let mut i: usize = 0;
        while i < self.voiced.len()
            invariant
                i <= self.voiced@.len(),
                voiced@ == self.voiced@.take(i as int),
            decreases self.voiced@.len() - i,
        {
            voiced.push(self.voiced[i]);
            assert(voiced@ =~= self.voiced@.take(i + 1));
            i = i + 1;
        }
        assert(voiced@ =~= self.voiced@);
        let mut m_tilde: Vec<T> = Vec::new();
        let mut k: usize = 0;
        while k < self.m_tilde.len()
            invariant
                k <= self.m_tilde@.len(),
                m_tilde@ == self.m_tilde@.take(k as int),
            decreases self.m_tilde@.len() - k,
        {
            m_tilde.push(self.m_tilde[k]);
            assert(m_tilde@ =~= self.m_tilde@.take(k + 1));
            k = k + 1;
        }
        assert(m_tilde@ =~= self.m_tilde@);
        FrameParams { omega_0: self.omega_0, voiced, m_tilde }
    }
}

/// Concealment state: the parameters that drove the last frame.
#[derive(Clone, Debug)]
pub struct Concealment<T> {
    last_good: Option<FrameParams<T>>,
}

impl<T: Copy> Concealment<T> {
    /// The parameters that drove the last frame, if there was one.
    pub closed spec fn last(self) -> Option<FrameParams<T>> {
        self.last_good
    }

    /// The remembered parameters are well formed.
    pub open spec fn wf(self) -> bool {
        self.last() is Some ==> self.last()->Some_0.wf()
    }

    /// No frame yet.
    pub fn new() -> (state: Self)
        ensures
            state.wf(),
            state.last() is None,
    {
        Concealment { last_good: None }
    }

    /// Chooses the parameters that drive the frame and remembers them: those of
    /// the frame itself if it is used or if there is no earlier frame, else
    /// those that drove the last frame.
    pub fn drive(&mut self, params: &FrameParams<T>, chosen: FrameDisposition) -> (driving: FrameParams<
        T,
    >)
        requires
            old(self).wf(),
            params.wf(),
        ensures
            final(self).wf(),
            driving.wf(),
            driving.same(
                if chosen == FrameDisposition::Use || old(self).last() is None {
                    *params
                } else {
                    old(self).last()->Some_0
                },
            ),
            final(self).last() is Some,
            final(self).last()->Some_0.same(driving),
    {
        let driving = match chosen {
            FrameDisposition::Use => params.duplicate(),
            _ => match &self.last_good {
                Some(previous) => previous.duplicate(),
                None => params.duplicate(),
            },
        };
        self.last_good = Some(driving.duplicate());
        driving
    }
}

/// Whether a frame is emitted as silence although its synthesis state advances.
pub fn emits_silence(chosen: FrameDisposition) -> (silent: bool)
    ensures
        silent == (chosen == FrameDisposition::Mute),
{
    match chosen {
        FrameDisposition::Mute => true,
        _ => false,
    }
}

/// However many frames in a row are repeated or muted, each is driven by the
/// parameters of the last frame before them.
pub proof fn law_repeats_hold_parameters<T: Copy>(
    states: Seq<Concealment<T>>,
    driving: Seq<FrameParams<T>>,
    n: int,
)
    requires
        states.len() == driving.len() + 1,
        0 <= n < driving.len(),
        states[0].last() is Some,
        forall|i: int|
            0 <= i < driving.len() ==> {
                &&& (#[trigger] driving[i]).same(states[i].last()->Some_0)
                &&& states[i + 1].last() is Some
                &&& states[i + 1].last()->Some_0.same(driving[i])
            },
    ensures
        driving[n].same(states[0].last()->Some_0),
    decreases n,
{
    if n > 0 {
        law_repeats_hold_parameters(states, driving, n - 1);
        assert(driving[n - 1].same(states[n - 1].last()->Some_0));
    }
}

// ---- Enhancement and smoothing ----------------------------------------------

/// How the enhancement treats the amplitude of a harmonic.
#[derive(Clone, Copy, Debug, PartialEq, Eq, Structural)]
pub enum EnhanceRule {
    /// The amplitude is kept.
    Keep,
    /// The weight is held at its upper limit.
    UpperLimit,
    /// The weight is held at its lower limit.
    LowerLimit,
    /// The amplitude is scaled by its weight.
    Weight,
}

/// Where the weight of a harmonic lies.
#[derive(Clone, Copy, Debug, PartialEq, Eq, Structural)]
pub enum WeightRange {
    /// The weight is not defined.
    Undefined,
    /// Past the upper limit.
    Above,
    /// Past the lower limit.
    Below,
    /// Between the limits.
    Within,
}

/// The rule for harmonic `l` of `l_count`.  The lowest eighth of the harmonics
/// is never weighted.
pub open spec fn enhance_rule(
    l: int,
    l_count: int,
    degenerate: bool,
    weight: WeightRange,
) -> EnhanceRule {
    if degenerate || 8 * l <= l_count || weight == WeightRange::Undefined {
        EnhanceRule::Keep
    } else {
        match weight {
            WeightRange::Above => EnhanceRule::UpperLimit,
            WeightRange::Below => EnhanceRule::LowerLimit,
            _ => EnhanceRule::Weight,
        }
    }
}

/// The rule for every harmonic of a frame, harmonic `l` at position `l - 1`.
/// `degenerate` says that the frame has no usable energy moments.
pub fn enhance_spectral_amplitudes(degenerate: bool, weights: &[WeightRange]) -> (rules: Vec<
    EnhanceRule,
>)
    requires
        weights@.len() <= L_MAX,
    ensures
        rules@.len() == weights@.len(),
        forall|i: int|
            0 <= i < rules@.len() ==> #[trigger] rules@[i] == enhance_rule(
                i + 1,
                weights@.len() as int,
                degenerate,
                weights@[i],
            ),
{
    let mut rules: Vec<EnhanceRule> = Vec::new();
    let mut i: usize = 0;
    while i < weights.len()
        invariant
            i <= weights@.len() <= L_MAX,
            rules@.len() == i,
            forall|j: int|
                0 <= j < i ==> #[trigger] rules@[j] == enhance_rule(
                    j + 1,
                    weights@.len() as int,
                    degenerate,
                    weights@[j],
                ),
        decreases weights@.len() - i,
    {
        let rule = if degenerate || 8 * (i + 1) <= weights.len() {
            EnhanceRule::Keep
        } else {
            match weights[i] {
                WeightRange::Undefined => EnhanceRule::Keep,
                WeightRange::Above => EnhanceRule::UpperLimit,
                WeightRange::Below => EnhanceRule::LowerLimit,
                WeightRange::Within => EnhanceRule::Weight,
            }
        };
        rules.push(rule);
        i = i + 1;
    }
    rules
}

/// The amplitude threshold above which a harmonic is made voiced.
#[derive(Clone, Copy, Debug, PartialEq, Eq, Structural)]
pub enum VoicingThreshold {
    /// No amplitude reaches it.
    Infinite,
    /// It falls with the error rate.
    Falling,
    /// It is fixed by the local energy.
    Fixed,
}

/// The threshold for a frame.  `rate_low` and `rate_medium` say that the
/// smoothed error rate is at most the lower and the upper rate limit.
pub fn voicing_threshold(rate_low: bool, rate_medium: bool, epsilon_t: u8, epsilon_4: u8) -> (case:
    VoicingThreshold)
    ensures
        case == if rate_low && epsilon_t <= 4 {
            VoicingThreshold::Infinite
        } else if rate_medium && epsilon_4 == 0 {
            VoicingThreshold::Falling
        } else {
            VoicingThreshold::Fixed
        },
{
    if rate_low && epsilon_t <= 4 {
        VoicingThreshold::Infinite
    } else if rate_medium && epsilon_4 == 0 {
        VoicingThreshold::Falling
    } else {
        VoicingThreshold::Fixed
    }
}

/// How the amplitude limit is updated.
#[derive(Clone, Copy, Debug, PartialEq, Eq, Structural)]
pub enum AmplitudeLimit {
    /// Back to its initial value.
    Reset,
    /// This much is added to the previous limit.
    Shift(i32),
}

/// The update of the amplitude limit for a frame with `epsilon_t` errors.
pub fn amplitude_limit(rate_low: bool, epsilon_t: u8) -> (update: AmplitudeLimit)
    ensures
        update == if rate_low && epsilon_t <= 6 {
            AmplitudeLimit::Reset
        } else {
            AmplitudeLimit::Shift((6000 - 300 * epsilon_t) as i32)
        },
{
    if rate_low && epsilon_t <= 6 {
        AmplitudeLimit::Reset
    } else {
        AmplitudeLimit::Shift(6000 - 300 * (epsilon_t as i32))
    }
}

/// The smoothed voicing: a harmonic is voiced if its amplitude exceeds the
/// threshold or if it was decoded as voiced.
pub fn apply_smoothing(exceeds: &[bool], v_tilde: &[bool]) -> (v_bar: Vec<bool>)
    requires
        exceeds@.len() == v_tilde@.len(),
    ensures
        v_bar@.len() == v_tilde@.len(),
        forall|i: int|
            0 <= i < v_bar@.len() ==> #[trigger] v_bar@[i] == (exceeds@[i] || v_tilde@[i]),
{
    let mut v_bar: Vec<bool> = Vec::new();
    let mut i: usize = 0;
    while i < v_tilde.len()
        invariant
            i <= v_tilde@.len() == exceeds@.len(),
            v_bar@.len() == i,
            forall|j: int| 0 <= j < i ==> #[trigger] v_bar@[j] == (exceeds@[j] || v_tilde@[j]),
        decreases v_tilde@.len() - i,
    {
        v_bar.push(if exceeds[i] { true } else { v_tilde[i] });
        i = i + 1;
    }
    v_bar
}

// ---- Spectral shaping -------------------------------------------------------

/// Whether the bin in `slot` (bin `slot - 128`) lies outside all bands: its
/// distance from zero is below the first band or at or past the end of the last.
pub fn outside_bands(slot: usize, a1: i32, b_last: i32) -> (outside: bool)
    requires
        slot < 256,
        a1 >= 0,
    ensures
        ({
            let distance = if slot < 128 { 128 - slot } else { slot - 128 };
            outside == (distance < a1 || distance >= b_last)
        }),
{
    let distance: i32 = if slot < 128 { 128 - (slot as i32) } else { slot as i32 - 128 };
    distance < a1 || distance >= b_last
}

/// Slots of the two bins at distance `eta` from zero that exist.
pub open spec fn slots_at(eta: int) -> Seq<usize> {
    let above = if 0 <= 128 + eta < 256 { seq![(128 + eta) as usize] } else { Seq::empty() };
    let below = if 0 <= 128 - eta < 256 { seq![(128 - eta) as usize] } else { Seq::empty() };
    above + below
}

/// Slots of the bins at distances `lo` up to but not including `hi`, nearest
/// first.
pub open spec fn slots_between(lo: int, hi: int) -> Seq<usize>
    decreases hi - lo,
{
    if hi <= lo { Seq::empty() } else { slots_between(lo, hi - 1) + slots_at(hi - 1) }
}

/// Slots of the bins at distances `lo` up to but not including `hi`, in the order
/// in which they are summed.
pub fn band_slots(lo: i32, hi: i32) -> (slots: Vec<usize>)
    ensures
        slots@ == slots_between(lo as int, hi as int),
{
    let mut slots: Vec<usize> = Vec::new();
    let mut eta: i32 = lo;
    while eta < hi
        invariant
            lo <= eta,
            eta <= hi || eta == lo,
            slots@ == slots_between(lo as int, eta as int),
        decreases hi - eta,
    {
        let ghost before = slots@;
        if -128 <= eta && eta < 128 {
            slots.push((128 + eta) as usize);
        }
        if -128 < eta && eta <= 128 {
            slots.push((128 - eta) as usize);
        }
        assert(slots@ =~= before + slots_at(eta as int));
        eta = eta + 1;
    }
    slots
}

/// What shaping does to one band.
#[derive(Clone, Debug)]
pub struct BandShape {
    /// Slots whose power sets the norm of the band.
    pub norm: Vec<usize>,
    /// Slots that are changed.
    pub slots: Vec<usize>,
    /// The band is voiced, so its slots become zero; else they are scaled.
    pub zeroed: bool,
}

/// The shaping of every band.  Band `i` covers the distances `edges[i].0` up to
/// but not including `edges[i].1`; the change reaches the end as well, which must
/// have a successor.
pub fn shape_spectrum(edges: &[(i32, i32)], v_bar: &[bool]) -> (shapes: Vec<BandShape>)
    requires
        edges@.len() == v_bar@.len(),
        forall|i: int| 0 <= i < edges@.len() ==> (#[trigger] edges@[i]).1 < i32::MAX,
    ensures
        shapes@.len() == edges@.len(),
        forall|i: int|
            0 <= i < shapes@.len() ==> {
                &&& (#[trigger] shapes@[i]).norm@ == slots_between(
                    edges@[i].0 as int,
                    edges@[i].1 as int,
                )
                &&& shapes@[i].slots@ == slots_between(edges@[i].0 as int, edges@[i].1 + 1)
                &&& shapes@[i].zeroed == v_bar@[i]
            },
{
    let mut shapes: Vec<BandShape> = Vec::new();
    let mut i: usize = 0;
    while i < edges.len()
        invariant
            i <= edges@.len() == v_bar@.len(),
            forall|j: int| 0 <= j < edges@.len() ==> (#[trigger] edges@[j]).1 < i32::MAX,
            shapes@.len() == i,
            forall|j: int|
                0 <= j < i ==> {
                    &&& (#[trigger] shapes@[j]).norm@ == slots_between(
                        edges@[j].0 as int,
                        edges@[j].1 as int,
                    )
                    &&& shapes@[j].slots@ == slots_between(edges@[j].0 as int, edges@[j].1 + 1)
                    &&& shapes@[j].zeroed == v_bar@[j]
                },
        decreases edges@.len() - i,
    {
        let (lo, hi): (i32, i32) = edges[i];
        let shape = BandShape {
            norm: band_slots(lo, hi),
            slots: band_slots(lo, hi + 1),
            zeroed: v_bar[i],
        };
        shapes.push(shape);
        i = i + 1;
    }
    shapes
}

/// A slot is listed for the distances `lo` to `hi` exactly if its distance from
/// zero lies among them.
pub proof fn law_slots_between(lo: int, hi: int, slot: usize)
    requires
        0 <= lo,
        slot < 256,
    ensures
        slots_between(lo, hi).contains(slot) <==> lo <= (if slot < 128 {
            128 - slot
        } else {
            slot - 128
        }) < hi,
    decreases hi - lo,
{
    if hi > lo {
        law_slots_between(lo, hi - 1, slot);
        let head = slots_between(lo, hi - 1);
        let tail = slots_at(hi - 1);
        let all = slots_between(lo, hi);
        assert(all == head + tail);
        let distance = if slot < 128 { 128 - slot } else { slot - 128 };
        if head.contains(slot) {
            let i = choose|i: int| 0 <= i < head.len() && head[i] == slot;
            assert(all[i] == slot);
        }
        if tail.contains(slot) {
            let i = choose|i: int| 0 <= i < tail.len() && tail[i] == slot;
            assert(all[head.len() + i] == slot);
        }
        if all.contains(slot) {
            let i = choose|i: int| 0 <= i < all.len() && all[i] == slot;
            if i < head.len() {
                assert(head[i] == slot);
            } else {
                assert(tail[i - head.len()] == slot);
            }
        }
        if distance == hi - 1 {
            if slot >= 128 {
                assert(tail[0] == slot);
            } else {
                assert(tail[tail.len() - 1] == slot);
            }
        }
    }
}

// ---- Voiced synthesis -------------------------------------------------------

/// How a harmonic is synthesised over a frame.
#[derive(Clone, Copy, Debug, PartialEq, Eq, Structural)]
pub enum VoicedBranch {
    /// Unvoiced before and now: nothing.
    UvUv,
    /// Voiced before, unvoiced now: fades out.
    VUv,
    /// Unvoiced before, voiced now: fades in.
    UvV,
    /// Voiced in both, as the sum of a fading and a rising sinusoid.
    VVSum,
    /// Voiced in both, with ramped amplitude and frequency.
    VVRamp,
}

/// The branch for harmonic `l`.  `moved` says that its frequency changed by a
/// tenth or more.
pub open spec fn branch(v_prev: bool, v_curr: bool, l: int, moved: bool) -> VoicedBranch {
    if !v_prev && !v_curr {
        VoicedBranch::UvUv
    } else if !v_curr {
        VoicedBranch::VUv
    } else if !v_prev {
        VoicedBranch::UvV
    } else if l >= 8 || moved {
        VoicedBranch::VVSum
    } else {
        VoicedBranch::VVRamp
    }
}

/// Harmonic state of the voiced synthesiser; slot `l` belongs to harmonic `l`.
#[derive(Clone, Debug)]
pub struct VoicedSynthState<T> {
    prev_m_bar: Vec<T>,
    prev_v_bar: Vec<bool>,
    prev_l: u8,
    zero: T,
}

impl<T: Copy> VoicedSynthState<T> {
    /// Amplitudes of the previous frame.
    pub closed spec fn amplitudes(self) -> Seq<T> {
        self.prev_m_bar@
    }

    /// Voicing of the previous frame.
    pub closed spec fn voicing(self) -> Seq<bool> {
        self.prev_v_bar@
    }

    /// Harmonics of the previous frame.
    pub closed spec fn harmonics(self) -> int {
        self.prev_l as int
    }

    /// The amplitude of a harmonic that is not there.
    pub closed spec fn zero(self) -> T {
        self.zero
    }

    /// There is a slot for every harmonic.
    pub closed spec fn wf(self) -> bool {
        &&& self.prev_l <= L_MAX
        &&& self.prev_m_bar@.len() == 57
        &&& self.prev_v_bar@.len() == 57
    }

    /// Whether harmonic `l` was voiced in the previous frame.
    pub open spec fn was_voiced(self, l: int) -> bool {
        l <= self.harmonics() && self.voicing()[l]
    }

    /// Thirty silent harmonics.
    pub fn new(zero: T) -> (state: Self)
        ensures
            state.wf(),
            state.harmonics() == 30,
            state.zero() == zero,
            state.amplitudes() == Seq::new(57, |l: int| zero),
            state.voicing() == Seq::new(57, |l: int| false),
    {
        let mut prev_m_bar: Vec<T> = Vec::new();
        let mut prev_v_bar: Vec<bool> = Vec::new();
        let mut l: usize = 0;
        while l < 57
            invariant
                l <= 57,
                prev_m_bar@.len() == l,
                prev_v_bar@.len() == l,
                forall|j: int| 0 <= j < l ==> prev_m_bar@[j] == zero,
                forall|j: int| 0 <= j < l ==> !prev_v_bar@[j],
            decreases 57 - l,
        {
            prev_m_bar.push(zero);
            prev_v_bar.push(false);
            l = l + 1;
        }
        assert(prev_m_bar@ =~= Seq::new(57, |l: int| zero));
        assert(prev_v_bar@ =~= Seq::new(57, |l: int| false));
        VoicedSynthState { prev_m_bar, prev_v_bar, prev_l: 30, zero }
    }

    /// The branch and the two amplitudes (previous, current) of every harmonic
    /// that either frame has, harmonic `l` at position `l - 1`.  `moved[l - 1]`
    /// says that the frequency of harmonic `l` changed by a tenth or more.
    pub fn synthesize_voiced(&self, m_bar: &[T], v_bar: &[bool], moved: &[bool]) -> (plan: Vec<
        (VoicedBranch, T, T),
    >)
        requires
            self.wf(),
            m_bar@.len() == v_bar@.len() <= L_MAX,
            moved@.len() == L_MAX,
        ensures
            plan@.len() == if v_bar@.len() > self.harmonics() {
                v_bar@.len() as int
            } else {
                self.harmonics()
            },
            forall|i: int|
                0 <= i < plan@.len() ==> {
                    &&& (#[trigger] plan@[i]).0 == branch(
                        self.was_voiced(i + 1),
                        i < v_bar@.len() && v_bar@[i],
                        i + 1,
                        moved@[i],
                    )
                    &&& plan@[i].1 == if i + 1 <= self.harmonics() {
                        self.amplitudes()[i + 1]
                    } else {
                        self.zero()
                    }
                    &&& plan@[i].2 == if i < m_bar@.len() { m_bar@[i] } else { self.zero() }
                },
            forall|i: int|
                0 <= i < plan@.len() ==> ((#[trigger] plan@[i]).0 == VoicedBranch::VVRamp ==> i < 7
                    && !moved@[i]),
            forall|i: int|
                0 <= i < plan@.len() ==> ((#[trigger] plan@[i]).0 == VoicedBranch::VVSum ==> i >= 7
                    || moved@[i]),
    {
        let l_curr: usize = v_bar.len();
        let l_prev: usize = self.prev_l as usize;
        let max_l: usize = if l_curr > l_prev { l_curr } else { l_prev };
        let mut plan: Vec<(VoicedBranch, T, T)> = Vec::new();
        let mut l: usize = 1;
        while l <= max_l
            invariant
                1 <= l <= max_l + 1,
                self.wf(),
                l_curr == v_bar@.len() == m_bar@.len(),
                l_prev == self.prev_l,
                max_l <= L_MAX,
                max_l == if l_curr > l_prev { l_curr } else { l_prev },
                moved@.len() == L_MAX,
                plan@.len() == l - 1,
                forall|i: int|
                    0 <= i < plan@.len() ==> {
                        &&& (#[trigger] plan@[i]).0 == branch(
                            self.was_voiced(i + 1),
                            i < v_bar@.len() && v_bar@[i],
                            i + 1,
                            moved@[i],
                        )
                        &&& plan@[i].1 == if i + 1 <= self.harmonics() {
                            self.amplitudes()[i + 1]
                        } else {
                            self.zero()
                        }
                        &&& plan@[i].2 == if i < m_bar@.len() {
                            m_bar@[i]
                        } else {
                            self.zero()
                        }
                    },
            decreases max_l + 1 - l,
        {
            let v_curr: bool = l <= l_curr && v_bar[l - 1];
            let v_prev: bool = l <= l_prev && self.prev_v_bar[l];
            let m_curr: T = if l <= l_curr { m_bar[l - 1] } else { self.zero };
            let m_prev: T = if l <= l_prev { self.prev_m_bar[l] } else { self.zero };
            let which = if v_prev && v_curr {
                if l >= 8 || moved[l - 1] {
                    VoicedBranch::VVSum
                } else {
                    VoicedBranch::VVRamp
                }
            } else if v_prev {
                VoicedBranch::VUv
            } else if v_curr {
                VoicedBranch::UvV
            } else {
                VoicedBranch::UvUv
            };
            plan.push((which, m_prev, m_curr));
            l = l + 1;
        }
        plan
    }

    /// `after` remembers a frame with these amplitudes and this voicing.
    pub open spec fn commits_to(self, m_bar: Seq<T>, v_bar: Seq<bool>, after: Self) -> bool {
        &&& after.zero() == self.zero()
        &&& after.harmonics() == v_bar.len()
        &&& after.amplitudes().len() == 57
        &&& after.voicing().len() == 57
        &&& forall|l: int|
            1 <= l < 57 ==> #[trigger] after.amplitudes()[l] == if l <= m_bar.len() {
                m_bar[l - 1]
            } else {
                self.zero()
            }
        &&& forall|l: int|
            1 <= l < 57 ==> #[trigger] after.voicing()[l] == (l <= v_bar.len() && v_bar[l - 1])
    }

    /// Remembers the current frame.
    pub fn commit(&mut self, m_bar: &[T], v_bar: &[bool])
        requires
            old(self).wf(),
            m_bar@.len() == v_bar@.len() <= L_MAX,
        ensures
            final(self).wf(),
            old(self).commits_to(m_bar@, v_bar@, *final(self)),
    {
        let l_curr: usize = v_bar.len();
        let mut l: usize = 1;
        while l <= L_MAX
            invariant
                1 <= l <= L_MAX + 1,
                l_curr == v_bar@.len() == m_bar@.len() <= L_MAX,
                self.prev_m_bar@.len() == 57,
                self.prev_v_bar@.len() == 57,
                self.zero == old(self).zero,
                forall|j: int|
                    1 <= j < l ==> #[trigger] self.prev_m_bar@[j] == if j <= m_bar@.len() {
                        m_bar@[j - 1]
                    } else {
                        self.zero
                    },
                forall|j: int|
                    1 <= j < l ==> #[trigger] self.prev_v_bar@[j] == (j <= v_bar@.len() && v_bar@[j
                        - 1]),
            decreases L_MAX + 1 - l,
        {
            self.prev_m_bar[l] = if l <= l_curr { m_bar[l - 1] } else { self.zero };
            self.prev_v_bar[l] = l <= l_curr && v_bar[l - 1];
            l = l + 1;
        }
        self.prev_l = l_curr as u8;
    }
}

/// The number of unvoiced harmonics.
pub open spec fn unvoiced_upto(v_bar: Seq<bool>, n: int) -> int
    decreases n,
{
    if n <= 0 { 0 } else { unvoiced_upto(v_bar, n - 1) + if v_bar[n - 1] { 0int } else { 1int } }
}

/// The number of unvoiced harmonics.
pub fn unvoiced_count(v_bar: &[bool]) -> (count: u8)
    requires
        v_bar@.len() <= L_MAX,
    ensures
        count == unvoiced_upto(v_bar@, v_bar@.len() as int),
        count <= v_bar@.len(),
{
    let mut count: u8 = 0;
    let mut i: usize = 0;
    while i < v_bar.len()
        invariant
            i <= v_bar@.len() <= L_MAX,
            count == unvoiced_upto(v_bar@, i as int),
            count <= i,
        decreases v_bar@.len() - i,
    {
        if !v_bar[i] {
            count = count + 1;
        }
        i = i + 1;
    }
    count
}

/// Whether the phase of harmonic `l` is left free of noise: the lowest quarter
/// of the harmonics.
pub fn phase_is_clean(l: usize, l_curr: usize) -> (clean: bool)
    ensures
        clean == (l <= l_curr / 4),
{
    l <= l_curr / 4
}

/// Voicing transitions chain: the branch of a harmonic in the next frame starts
/// from the voicing with which the current frame ends.
pub proof fn law_transitions_chain<T: Copy>(
    before: VoicedSynthState<T>,
    after: VoicedSynthState<T>,
    m_bar: Seq<T>,
    v_bar: Seq<bool>,
    l: int,
)
    requires
        1 <= l <= L_MAX,
        v_bar.len() <= L_MAX,
        before.commits_to(m_bar, v_bar, after),
    ensures
        after.was_voiced(l) == (l <= v_bar.len() && v_bar[l - 1]),
{
}

// ---- Output -----------------------------------------------------------------

/// The PCM sample of a value rounded to an integer.
pub open spec fn pcm_sample(rounded: int) -> int {
    if rounded < -32768 { -32768 } else if rounded > 32767 { 32767 } else { rounded }
}

/// PCM samples of values rounded to integers; what does not fit is held at the
/// limit.
pub fn pcm_from_rounded(rounded: &[i64]) -> (pcm: Vec<i16>)
    ensures
        pcm@.len() == rounded@.len(),
        forall|i: int|
            0 <= i < pcm@.len() ==> #[trigger] pcm@[i] == pcm_sample(rounded@[i] as int),
{
    let mut pcm: Vec<i16> = Vec::new();
    let mut i: usize = 0;
    while i < rounded.len()
        invariant
            i <= rounded@.len(),
            pcm@.len() == i,
            forall|j: int| 0 <= j < i ==> #[trigger] pcm@[j] == pcm_sample(rounded@[j] as int),
        decreases rounded@.len() - i,
    {
        let x: i64 = rounded[i];
        let sample: i16 = if x < -32768 {
            -32768
        } else if x > 32767 {
            32767
        } else {
            x as i16
        };
        pcm.push(sample);
        i = i + 1;
    }
    pcm
}

// ---- Frame synthesis --------------------------------------------------------

/// Synthesis state across frames.
#[derive(Clone, Debug)]
pub struct SynthState<T> {
    /// Noise source and overlap.
    pub unvoiced: UnvoicedSynthState<T>,
    /// Harmonics of the previous frame.
    pub voiced: VoicedSynthState<T>,
    /// Parameters of the previous frame.
    pub concealment: Concealment<T>,
}

impl<T: Copy> SynthState<T> {
    /// All parts are well formed.
    pub open spec fn wf(self) -> bool {
        self.unvoiced.wf() && self.voiced.wf() && self.concealment.wf()
    }

    /// `after` is the state once the synthesis of a frame has begun, and `frame`
    /// says how it goes on.  A frame that is not used is driven by the parameters
    /// of the one before, if there is one.
    pub open spec fn begins(
        self,
        params: FrameParams<T>,
        chosen: FrameDisposition,
        frame: DrivenFrame<T>,
        after: Self,
    ) -> bool {
        &&& frame.disposition == chosen
        &&& frame.silent == (chosen == FrameDisposition::Mute)
        &&& frame.params.wf()
        &&& frame.params.same(
            if chosen == FrameDisposition::Use || self.concealment.last() is None {
                params
            } else {
                self.concealment.last()->Some_0
            },
        )
        &&& after.concealment.last() is Some
        &&& after.concealment.last()->Some_0.same(frame.params)
        &&& after.voiced == self.voiced
        &&& self.unvoiced.advances_to(after.unvoiced)
    }

    /// `after` is the state once a frame with these harmonics and this transform
    /// output has been synthesised.
    pub open spec fn finishes(
        self,
        m_bar: Seq<T>,
        v_bar: Seq<bool>,
        idft: Seq<T>,
        after: Self,
    ) -> bool {
        &&& self.voiced.commits_to(m_bar, v_bar, after.voiced)
        &&& self.unvoiced.stores(idft, after.unvoiced)
        &&& after.concealment == self.concealment
    }

    /// The state before the first frame.
    pub fn new(zero: T) -> (state: Self)
        ensures
            state.wf(),
            !state.unvoiced.started(),
            state.unvoiced.generator() == NOISE_INIT,
            state.unvoiced.window() == Seq::new(209, |i: int| 0u32),
            state.unvoiced.overlap() == Seq::new(256, |i: int| zero),
            state.voiced.harmonics() == 30,
            state.voiced.zero() == zero,
            state.voiced.amplitudes() == Seq::new(57, |l: int| zero),
            state.voiced.voicing() == Seq::new(57, |l: int| false),
            state.concealment.last() is None,
    {
        SynthState {
            unvoiced: UnvoicedSynthState::new(zero),
            voiced: VoicedSynthState::new(zero),
            concealment: Concealment::new(),
        }
    }
}

/// How a frame is synthesised.
#[derive(Clone, Debug)]
pub struct DrivenFrame<T> {
    /// What is done with the frame.
    pub disposition: FrameDisposition,
    /// The parameters that drive it.
    pub params: FrameParams<T>,
    /// The output is silence, although the state advances.
    pub silent: bool,
}

/// Begins the synthesis of a frame: decides its disposition, chooses and
/// remembers the parameters that drive it, and moves the noise on.
pub fn synthesize_frame<T: Copy>(
    params: &FrameParams<T>,
    err: &FrameErrorContext,
    rate_mutes: bool,
    errors_repeat: bool,
    state: &mut SynthState<T>,
) -> (frame: DrivenFrame<T>)
    requires
        old(state).wf(),
        params.wf(),
    ensures
        final(state).wf(),
        old(state).begins(
            *params,
            disposition(*err, rate_mutes, errors_repeat),
            frame,
            *final(state),
        ),
{
    let chosen = frame_disposition(err, rate_mutes, errors_repeat);
    let driving = state.concealment.drive(params, chosen);
    state.unvoiced.advance_window();
    DrivenFrame { disposition: chosen, params: driving, silent: emits_silence(chosen) }
}

/// Ends the synthesis of a frame, muted or not: remembers its harmonics, keeps its
/// transform output for the overlap, and gives its PCM samples.  `rounded` is the
/// waveform rounded to integers; a silent frame gives zeros in its place.
pub fn finish_frame<T: Copy>(
    frame: &DrivenFrame<T>,
    m_bar: &[T],
    v_bar: &[bool],
    idft: Vec<T>,
    rounded: &[i64],
    state: &mut SynthState<T>,
) -> (pcm: Vec<i16>)
    requires
        old(state).wf(),
        m_bar@.len() == v_bar@.len() <= L_MAX,
        idft@.len() == 256,
        rounded@.len() == FRAME_SAMPLES,
    ensures
        final(state).wf(),
        old(state).finishes(m_bar@, v_bar@, idft@, *final(state)),
        pcm@.len() == FRAME_SAMPLES,
        forall|i: int|
            0 <= i < FRAME_SAMPLES ==> #[trigger] pcm@[i] == if frame.silent {
                0
            } else {
                pcm_sample(rounded@[i] as int)
            },
{
    state.voiced.commit(m_bar, v_bar);
    state.unvoiced.store_idft(idft);
    if !frame.silent {
        return pcm_from_rounded(rounded);
    }
    let mut pcm: Vec<i16> = Vec::new();
    let mut i: usize = 0;
    while i < FRAME_SAMPLES
        invariant
            i <= FRAME_SAMPLES,
            pcm@.len() == i,
            forall|j: int| 0 <= j < i ==> pcm@[j] == 0,
        decreases FRAME_SAMPLES - i,
    {
        pcm.push(0);
        i = i + 1;
    }
    pcm
}

/// Every frame advances every part of the state, whatever its disposition, so a
/// muted frame too: the voiced part remembers its harmonics, its transform output
/// is kept, the noise moves on by one frame, and the parameters that drove it are
/// there to be repeated.
pub proof fn law_every_frame_advances<T: Copy>(
    before: SynthState<T>,
    begun: SynthState<T>,
    after: SynthState<T>,
    params: FrameParams<T>,
    chosen: FrameDisposition,
    frame: DrivenFrame<T>,
    m_bar: Seq<T>,
    v_bar: Seq<bool>,
    idft: Seq<T>,
    start: nat,
)
    requires
        before.wf(),
        begun.wf(),
        before.begins(params, chosen, frame, begun),
        begun.finishes(m_bar, v_bar, idft, after),
        before.unvoiced.started() ==> before.unvoiced.follows(start),
        !before.unvoiced.started() ==> before.unvoiced.generator() == NOISE_INIT,
    ensures
        before.voiced.commits_to(m_bar, v_bar, after.voiced),
        after.unvoiced.overlap() == idft,
        before.unvoiced.started() ==> after.unvoiced.follows(start + 160),
        !before.unvoiced.started() ==> after.unvoiced.follows(0),
        after.concealment.last() is Some,
        after.concealment.last()->Some_0.same(frame.params),
{
    law_windows_follow_one_sequence(before.unvoiced, begun.unvoiced, start);
}

// ---- What the plans amount to -----------------------------------------------

/// How each harmonic of a frame is synthesised.  One that was not voiced and is
/// not, is left out; one that was voiced only before fades out; one that is voiced
/// only now fades in.  One that is voiced in both frames is a sum of two sinusoids
/// from harmonic 8 on, moved or not, and below that if its frequency moved; it is
/// ramped only up to harmonic 7 and only at an unmoved frequency.
pub proof fn law_voiced_plan<T: Copy>(
    state: VoicedSynthState<T>,
    v_bar: Seq<bool>,
    moved: Seq<bool>,
    plan: Seq<(VoicedBranch, T, T)>,
    l: int,
)
    requires
        1 <= l <= plan.len(),
        forall|i: int|
            0 <= i < plan.len() ==> (#[trigger] plan[i]).0 == branch(
                state.was_voiced(i + 1),
                i < v_bar.len() && v_bar[i],
                i + 1,
                moved[i],
            ),
    ensures
        ({
            let before = l <= state.harmonics() && state.voicing()[l];
            let now = l <= v_bar.len() && v_bar[l - 1];
            let chosen = plan[l - 1].0;
            &&& chosen == VoicedBranch::UvUv <==> !before && !now
            &&& chosen == VoicedBranch::VUv <==> before && !now
            &&& chosen == VoicedBranch::UvV <==> !before && now
            &&& before && now && l >= 8 ==> chosen == VoicedBranch::VVSum
            &&& before && now && moved[l - 1] ==> chosen == VoicedBranch::VVSum
            &&& before && now && l <= 7 && !moved[l - 1] ==> chosen == VoicedBranch::VVRamp
        }),
{
    assert(plan[l - 1].0 == branch(
        state.was_voiced(l - 1 + 1),
        l - 1 < v_bar.len() && v_bar[l - 1],
        l - 1 + 1,
        moved[l - 1],
    ));
}

/// A frame leaves behind its own harmonics: in the next frame harmonic `l` starts
/// from this frame's voicing and amplitude, or, if this frame did not have it, from
/// silence.
pub proof fn law_commit_remembers<T: Copy>(
    before: VoicedSynthState<T>,
    after: VoicedSynthState<T>,
    m_bar: Seq<T>,
    v_bar: Seq<bool>,
    l: int,
)
    requires
        before.commits_to(m_bar, v_bar, after),
        m_bar.len() == v_bar.len() <= L_MAX,
        1 <= l <= L_MAX,
    ensures
        after.harmonics() == m_bar.len(),
        l <= m_bar.len() ==> after.amplitudes()[l] == m_bar[l - 1] && after.voicing()[l] == v_bar[l
            - 1] && after.was_voiced(l) == v_bar[l - 1],
        l > m_bar.len() ==> after.amplitudes()[l] == before.zero() && !after.was_voiced(l),
{
}

/// Two frames in a row: what the second frame's plan does with a harmonic depends
/// on the two frames' voicing of that harmonic alone.
pub proof fn law_voiced_frames_chain<T: Copy>(
    before: VoicedSynthState<T>,
    middle: VoicedSynthState<T>,
    first_m: Seq<T>,
    first_v: Seq<bool>,
    second_v: Seq<bool>,
    moved: Seq<bool>,
    plan: Seq<(VoicedBranch, T, T)>,
    l: int,
)
    requires
        before.commits_to(first_m, first_v, middle),
        first_m.len() == first_v.len() <= L_MAX,
        second_v.len() == first_v.len(),
        1 <= l <= first_v.len() <= plan.len(),
        forall|i: int|
            0 <= i < plan.len() ==> (#[trigger] plan[i]).0 == branch(
                middle.was_voiced(i + 1),
                i < second_v.len() && second_v[i],
                i + 1,
                moved[i],
            ),
    ensures
        !first_v[l - 1] && !second_v[l - 1] ==> plan[l - 1].0 == VoicedBranch::UvUv,
        first_v[l - 1] && !second_v[l - 1] ==> plan[l - 1].0 == VoicedBranch::VUv,
        !first_v[l - 1] && second_v[l - 1] ==> plan[l - 1].0 == VoicedBranch::UvV,
        first_v[l - 1] && second_v[l - 1] && 8 <= l ==> plan[l - 1].0 == VoicedBranch::VVSum,
        first_v[l - 1] && second_v[l - 1] && l < 8 && !moved[l - 1] ==> plan[l - 1].0
            == VoicedBranch::VVRamp,
{
    law_voiced_plan(middle, second_v, moved, plan, l);
}

/// The noise is a linear congruential sequence: within a window each value follows
/// from the one before, and the first new value from the last one drawn.
pub proof fn law_noise_recurrence<T: Copy>(
    before: UnvoicedSynthState<T>,
    after: UnvoicedSynthState<T>,
    i: int,
)
    requires
        before.advances_to(after),
        before.started() ==> 50 <= i < NOISE_WINDOW_LEN,
        !before.started() ==> 1 <= i < NOISE_WINDOW_LEN,
    ensures
        after.window()[i] == (171 * after.window()[i - 1] + 11213) % 53125,
        before.started() ==> after.window()[49] == (171 * before.generator() + 11213) % 53125,
        !before.started() ==> after.window()[0] == (171 * before.generator() + 11213) % 53125,
        after.generator() == after.window()[208],
{
    assert(after.window()[i] == noise_after(after.window()[i - 1] as int));
    assert(before.started() ==> after.window()[49] == noise_after(before.generator()));
    assert(!before.started() ==> after.window()[0] == noise_after(before.generator()));
}

/// Successive windows overlap by 49 values, which stay as they are.
pub proof fn law_noise_windows_overlap<T: Copy>(
    before: UnvoicedSynthState<T>,
    after: UnvoicedSynthState<T>,
    i: int,
)
    requires
        before.advances_to(after),
        before.started(),
        0 <= i < 49,
    ensures
        after.window()[i] == before.window()[160 + i],
        after.overlap() == before.overlap(),
        after.started(),
{
    assert(after.window()[i] == before.window()[i + 160]);
}

/// A frame is muted exactly if the error rate mutes it.  Otherwise it is used
/// exactly if its pitch is good and it does not have both two errors in the first
/// vector and too many errors in all; in every other case it is repeated.
pub proof fn law_disposition(err: FrameErrorContext, rate_mutes: bool, errors_repeat: bool)
    ensures
        disposition(err, rate_mutes, errors_repeat) == FrameDisposition::Mute <==> rate_mutes,
        disposition(err, rate_mutes, errors_repeat) == FrameDisposition::Use <==> !rate_mutes
            && !err.bad_pitch && (err.epsilon_0 < 2 || !errors_repeat),
        disposition(err, rate_mutes, errors_repeat) == FrameDisposition::Repeat <==> !rate_mutes && (
        err.bad_pitch || (err.epsilon_0 >= 2 && errors_repeat)),
{
}

/// What drives a frame: its own parameters if it is used or nothing came before, and
/// otherwise those that drove the frame before it.  Only a muted frame is silent.
pub proof fn law_driving_parameters<T: Copy>(
    before: SynthState<T>,
    params: FrameParams<T>,
    chosen: FrameDisposition,
    frame: DrivenFrame<T>,
    begun: SynthState<T>,
)
    requires
        before.begins(params, chosen, frame, begun),
    ensures
        frame.silent <==> chosen == FrameDisposition::Mute,
        chosen == FrameDisposition::Use || before.concealment.last() is None ==> {
            &&& frame.params.omega_0 == params.omega_0
            &&& frame.params.voiced@ == params.voiced@
            &&& frame.params.m_tilde@ == params.m_tilde@
        },
        chosen != FrameDisposition::Use && before.concealment.last() is Some ==> {
            &&& frame.params.omega_0 == before.concealment.last()->Some_0.omega_0
            &&& frame.params.voiced@ == before.concealment.last()->Some_0.voiced@
            &&& frame.params.m_tilde@ == before.concealment.last()->Some_0.m_tilde@
        },
        begun.concealment.last() is Some,
        begun.concealment.last()->Some_0.m_tilde@ == frame.params.m_tilde@,
        begun.concealment.last()->Some_0.voiced@ == frame.params.voiced@,
        begun.concealment.last()->Some_0.omega_0 == frame.params.omega_0,
{
}

/// How enhancement treats a harmonic.  Nothing is weighted in a degenerate frame,
/// nor in the lowest eighth of the harmonics; above it a defined weight is applied,
/// held at the limit that it passes.
pub proof fn law_enhancement(
    degenerate: bool,
    weights: Seq<WeightRange>,
    rules: Seq<EnhanceRule>,
    l: int,
)
    requires
        rules.len() == weights.len(),
        forall|i: int|
            0 <= i < rules.len() ==> #[trigger] rules[i] == enhance_rule(
                i + 1,
                weights.len() as int,
                degenerate,
                weights[i],
            ),
        1 <= l <= weights.len(),
    ensures
        degenerate || 8 * l <= weights.len() ==> rules[l - 1] == EnhanceRule::Keep,
        !degenerate && 8 * l > weights.len() ==> {
            &&& rules[l - 1] == EnhanceRule::Keep <==> weights[l - 1] == WeightRange::Undefined
            &&& rules[l - 1] == EnhanceRule::UpperLimit <==> weights[l - 1] == WeightRange::Above
            &&& rules[l - 1] == EnhanceRule::LowerLimit <==> weights[l - 1] == WeightRange::Below
            &&& rules[l - 1] == EnhanceRule::Weight <==> weights[l - 1] == WeightRange::Within
        },
{
    assert(rules[l - 1] == enhance_rule(
        l - 1 + 1,
        weights.len() as int,
        degenerate,
        weights[l - 1],
    ));
}

/// A PCM sample is the rounded value where it fits, and else the limit it passes.
pub proof fn law_pcm_sample(rounded: int)
    ensures
        -32768 <= pcm_sample(rounded) <= 32767,
        -32768 <= rounded <= 32767 ==> pcm_sample(rounded) == rounded,
        rounded > 32767 ==> pcm_sample(rounded) == 32767,
        rounded < -32768 ==> pcm_sample(rounded) == -32768,
{
}

/// The count of unvoiced harmonics is the number of harmonics that are not voiced.
pub proof fn law_unvoiced_count(v_bar: Seq<bool>, n: int)
    requires
        0 <= n <= v_bar.len(),
    ensures
        unvoiced_upto(v_bar, n) == v_bar.take(n).filter(|v: bool| !v).len(),
    decreases n,
{
    let unvoiced = |v: bool| !v;
    reveal(Seq::filter);
    if n > 0 {
        law_unvoiced_count(v_bar, n - 1);
        assert(v_bar.take(n).drop_last() =~= v_bar.take(n - 1));
        assert(v_bar.take(n).last() == v_bar[n - 1]);
        assert(v_bar.take(n - 1).filter(unvoiced) == v_bar.take(n).drop_last().filter(unvoiced));
    }
}

proof fn lemma_slot_distances(lo: int, hi: int, i: int)
    requires
        0 <= lo,
        0 <= i < slots_between(lo, hi).len(),
    ensures
        slots_between(lo, hi)[i] < 256,
        lo <= distance_of(slots_between(lo, hi)[i]) < hi,
    decreases hi - lo,
{
    let head = slots_between(lo, hi - 1);
    if hi > lo {
        assert(slots_between(lo, hi) == head + slots_at(hi - 1));
        if i < head.len() {
            lemma_slot_distances(lo, hi - 1, i);
        }
    }
}

/// Distance of the bin in `slot` from zero.
pub open spec fn distance_of(slot: usize) -> int {
    if slot < 128 { 128 - slot } else { slot - 128 }
}

/// The slots of a band come nearest first, and none comes twice unless it is that
/// of bin zero.
pub proof fn law_slots_nearest_first(lo: int, hi: int, i: int, j: int)
    requires
        0 <= lo,
        0 <= i < j < slots_between(lo, hi).len(),
    ensures
        slots_between(lo, hi)[i] < 256 && slots_between(lo, hi)[j] < 256,
        distance_of(slots_between(lo, hi)[i]) <= distance_of(slots_between(lo, hi)[j]),
        slots_between(lo, hi)[i] == slots_between(lo, hi)[j] ==> slots_between(lo, hi)[i] == 128,
    decreases hi - lo,
{
    let head = slots_between(lo, hi - 1);
    if hi > lo {
        assert(slots_between(lo, hi) == head + slots_at(hi - 1));
        if j < head.len() {
            law_slots_nearest_first(lo, hi - 1, i, j);
        } else if i < head.len() {
            lemma_slot_distances(lo, hi - 1, i);
            lemma_slot_distances(lo, hi, j);
        } else {
            lemma_slot_distances(lo, hi, i);
            lemma_slot_distances(lo, hi, j);
        }
    }
}

/// Bands that follow one another without overlap take their norms from different
/// slots.
pub proof fn law_band_norms_disjoint(
    edges: Seq<(i32, i32)>,
    shapes: Seq<BandShape>,
    i: int,
    j: int,
    slot: usize,
)
    requires
        0 <= i < j < edges.len() == shapes.len(),
        0 <= edges[i].0,
        edges[i].1 <= edges[j].0,
        0 <= edges[j].0,
        slot < 256,
        forall|k: int|
            0 <= k < shapes.len() ==> (#[trigger] shapes[k]).norm@ == slots_between(
                edges[k].0 as int,
                edges[k].1 as int,
            ),
    ensures
        !(shapes[i].norm@.contains(slot) && shapes[j].norm@.contains(slot)),
        shapes[i].norm@.contains(slot) <==> edges[i].0 <= (if slot < 128 {
            128 - slot
        } else {
            slot - 128
        }) < edges[i].1,
{
    law_slots_between(edges[i].0 as int, edges[i].1 as int, slot);
    law_slots_between(edges[j].0 as int, edges[j].1 as int, slot);
    assert(shapes[i].norm@ == slots_between(edges[i].0 as int, edges[i].1 as int));
    assert(shapes[j].norm@ == slots_between(edges[j].0 as int, edges[j].1 as int));
}

} // verus!
