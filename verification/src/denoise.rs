//! Gate of the noise-spectrum estimate.
//!
//! A frame may update the noise estimate only if its spectrum matches the recent
//! reference and its energy is low, and only once two such frames have come in
//! a row.

use vstd::prelude::*;

verus! {

/// Eligible frames in a row before the estimate is updated.
pub const STRICT_CONSECUTIVE_FRAMES: u32 = 2;

/// What happens to a running spectrum.
#[derive(Clone, Copy, Debug, PartialEq, Eq, Structural)]
pub enum SpectrumUpdate {
    /// It stays as it is.
    Hold,
    /// The current spectrum replaces it.
    Seed,
    /// The current spectrum is averaged into it.
    Blend,
}

/// Gate state.
#[derive(Clone, Copy, Debug, PartialEq, Eq, Structural)]
pub struct NoiseSpectrum {
    primed: bool,
    eligible_run: u32,
    spectrum_ref_primed: bool,
}

impl NoiseSpectrum {
    /// Whether a noise estimate exists.
    pub closed spec fn has_estimate(self) -> bool {
        self.primed
    }

    /// Whether a reference spectrum exists.
    pub closed spec fn has_reference(self) -> bool {
        self.spectrum_ref_primed
    }

    /// Eligible frames in a row, counted up to [`STRICT_CONSECUTIVE_FRAMES`].
    pub closed spec fn run(self) -> u32 {
        self.eligible_run
    }

    /// `after` is the state after a frame; `eligible` says that the frame is
    /// both similar and quiet enough.  The first frame only sets the reference.
    pub open spec fn moves_to(self, eligible: bool, after: NoiseSpectrum) -> bool {
        &&& after.has_reference()
        &&& after.run() == if !(self.has_reference() && eligible) {
            0
        } else if self.run() < STRICT_CONSECUTIVE_FRAMES {
            self.run() + 1
        } else {
            STRICT_CONSECUTIVE_FRAMES as int
        }
        &&& after.has_estimate() == (self.has_estimate() || after.run()
            >= STRICT_CONSECUTIVE_FRAMES)
    }

    /// No estimate, no reference.
    pub fn new() -> (gate: Self)
        ensures
            !gate.has_estimate(),
            !gate.has_reference(),
            gate.run() == 0,
    {
        NoiseSpectrum { primed: false, eligible_run: 0, spectrum_ref_primed: false }
    }

    /// Back to the state of [`NoiseSpectrum::new`].
    pub fn reset(&mut self)
        ensures
            !final(self).has_estimate(),
            !final(self).has_reference(),
            final(self).run() == 0,
    {
        self.primed = false;
        self.eligible_run = 0;
        self.spectrum_ref_primed = false;
    }

    /// Whether a noise estimate exists, so that subtraction has an effect.
    pub fn is_primed(&self) -> (primed: bool)
        ensures
            primed == self.has_estimate(),
    {
        self.primed
    }

    /// Takes one frame.  `similar` says that its spectrum is close enough to
    /// the reference, `energy_ok` that it is silent or its energy low.  Returns
    /// what happens to the reference and to the noise estimate.
    pub fn update(&mut self, similar: bool, energy_ok: bool) -> (action: (
        SpectrumUpdate,
        SpectrumUpdate,
    ))
        ensures
            old(self).moves_to(similar && energy_ok, *final(self)),
            action.0 == if old(self).has_reference() {
                SpectrumUpdate::Blend
            } else {
                SpectrumUpdate::Seed
            },
            action.1 == if final(self).run() < STRICT_CONSECUTIVE_FRAMES {
                SpectrumUpdate::Hold
            } else if old(self).has_estimate() {
                SpectrumUpdate::Blend
            } else {
                SpectrumUpdate::Seed
            },
    {
        let stationary: bool = self.spectrum_ref_primed && similar;
        let reference = if self.spectrum_ref_primed {
            SpectrumUpdate::Blend
        } else {
            SpectrumUpdate::Seed
        };
        self.spectrum_ref_primed = true;
        if !stationary || !energy_ok {
            self.eligible_run = 0;
            return (reference, SpectrumUpdate::Hold);
        }
        self.eligible_run = if self.eligible_run < STRICT_CONSECUTIVE_FRAMES {
            self.eligible_run + 1
        } else {
            STRICT_CONSECUTIVE_FRAMES
        };
        if self.eligible_run < STRICT_CONSECUTIVE_FRAMES {
            return (reference, SpectrumUpdate::Hold);
        }
        if !self.primed {
            self.primed = true;
            return (reference, SpectrumUpdate::Seed);
        }
        (reference, SpectrumUpdate::Blend)
    }
}

impl Default for NoiseSpectrum {
    fn default() -> (gate: Self)
        ensures
            !gate.has_estimate(),
            !gate.has_reference(),
            gate.run() == 0,
    {
        NoiseSpectrum::new()
    }
}

/// `states` holds the state before each frame and after the last one.
pub open spec fn is_noise_run(states: Seq<NoiseSpectrum>, eligible: Seq<bool>) -> bool {
    &&& states.len() == eligible.len() + 1
    &&& forall|i: int|
        0 <= i < eligible.len() ==> (#[trigger] states[i]).moves_to(eligible[i], states[i + 1])
}

/// Frames `i` and `i + 1` are both eligible.
pub open spec fn eligible_pair(eligible: Seq<bool>, i: int) -> bool {
    eligible[i] && eligible[i + 1]
}

/// From a fresh state a noise estimate exists exactly when two frames in a row
/// were eligible, the very first frame not counted.
pub proof fn law_estimate_needs_two_in_a_row(states: Seq<NoiseSpectrum>, eligible: Seq<bool>)
    requires
        is_noise_run(states, eligible),
        !states[0].has_reference(),
        !states[0].has_estimate(),
        states[0].run() == 0,
    ensures
        states.last().has_estimate() <==> exists|i: int|
            1 <= i < eligible.len() - 1 && #[trigger] eligible_pair(eligible, i),
        eligible.len() >= 1 ==> states.last().has_reference(),
        states.last().run() >= 1 <==> eligible.len() >= 2 && eligible.last(),
        states.last().run() >= 2 <==> eligible.len() >= 3 && eligible_pair(
            eligible,
            eligible.len() - 2,
        ),
    decreases eligible.len(),
{
    let n = eligible.len() as int;
    if n > 0 {
        let fewer = eligible.drop_last();
        let shorter = states.drop_last();
        assert forall|i: int| 0 <= i < fewer.len() implies (#[trigger] shorter[i]).moves_to(
            fewer[i],
            shorter[i + 1],
        ) by {
            assert(states[i].moves_to(eligible[i], states[i + 1]));
        }
        law_estimate_needs_two_in_a_row(shorter, fewer);
        assert(states[n - 1].moves_to(eligible[n - 1], states[n]));
        if exists|i: int| 1 <= i < fewer.len() - 1 && #[trigger] eligible_pair(fewer, i) {
            let i = choose|i: int| 1 <= i < fewer.len() - 1 && #[trigger] eligible_pair(fewer, i);
            assert(eligible_pair(eligible, i));
        }
        if exists|i: int| 1 <= i < n - 1 && #[trigger] eligible_pair(eligible, i) {
            let i = choose|i: int| 1 <= i < n - 1 && #[trigger] eligible_pair(eligible, i);
            if i < n - 2 {
                assert(eligible_pair(fewer, i));
            }
        }
        if n >= 3 {
            assert(fewer.last() == eligible[n - 2]);
            assert(eligible_pair(eligible, n - 2) == (eligible[n - 2] && eligible[n - 1]));
        }
        assert(states.last() == states[n]);
        assert(shorter.last() == states[n - 1]);
    }
}

/// What one frame does to the noise estimate.  The first only sets the reference.  After
/// it an eligible frame adds one to the run, up to two, and any other ends it; the
/// estimate comes with a run of two and never goes.
pub proof fn law_noise_step(before: NoiseSpectrum, eligible: bool, after: NoiseSpectrum)
    requires
        before.moves_to(eligible, after),
        before.run() <= 2,
    ensures
        after.has_reference(),
        !before.has_reference() || !eligible ==> after.run() == 0,
        before.has_reference() && eligible && before.run() == 0 ==> after.run() == 1,
        before.has_reference() && eligible && before.run() >= 1 ==> after.run() == 2,
        before.has_estimate() ==> after.has_estimate(),
        !before.has_estimate() ==> (after.has_estimate() <==> before.has_reference() && eligible
            && before.run() >= 1),
{
}

} // verus!
