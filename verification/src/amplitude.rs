//! Bookkeeping of the spectral amplitude estimate.

use vstd::prelude::*;

use crate::refine::L_HAT_MAX;
use crate::vuv::VuvResult;
use crate::vuv::band_of;

verus! {

/// The band that holds harmonic `l` when there are `k_hat` bands: the third
/// part of `l` rounded up, but at most the last band; 0 for harmonic 0 and for
/// no bands.
pub fn band_for_harmonic(l: u32, k_hat: u8) -> (k: u8)
    ensures
        k == band_of(l as int, k_hat as int),
        k <= k_hat,
        k == 0 <==> l == 0 || k_hat == 0,
        0 < k < k_hat ==> 3 * k - 2 <= l <= 3 * k,
        0 < k == k_hat ==> 3 * k - 2 <= l,
{
    if l == 0 || k_hat == 0 {
        return 0;
    }
    let k: u32 = if l % 3 == 0 { l / 3 } else { l / 3 + 1 };
    if k < k_hat as u32 {
        k as u8
    } else {
        k_hat
    }
}

/// Whether harmonic `l` is voiced.
pub fn harmonic_voiced(l: u32, vuv: &VuvResult) -> (voiced: bool)
    requires
        vuv.wf(),
    ensures
        voiced == vuv.voices(l as int),
{
    let k: u8 = band_for_harmonic(l, vuv.k_hat);
    k >= 1 && vuv.vuv[k as usize] == 1
}

/// Voicing of harmonics 1 to `l_hat`, harmonic `l` at position `l - 1`.
pub fn expand_voicing(l_hat: u8, vuv: &VuvResult) -> (voiced: Vec<bool>)
    requires
        vuv.wf(),
    ensures
        voiced@.len() == l_hat,
        forall|i: int| 0 <= i < l_hat ==> #[trigger] voiced@[i] == vuv.voices(i + 1),
{
    let mut voiced: Vec<bool> = Vec::new();
    let mut l: u32 = 1;
    while l <= l_hat as u32
        invariant
            1 <= l <= l_hat + 1,
            vuv.wf(),
            voiced@.len() == l - 1,
            forall|i: int| 0 <= i < l - 1 ==> #[trigger] voiced@[i] == vuv.voices(i + 1),
        decreases l_hat + 1 - l,
    {
        voiced.push(harmonic_voiced(l, vuv));
        l = l + 1;
    }
    voiced
}

/// How the amplitude of a harmonic is computed.
#[derive(Clone, Copy, Debug, PartialEq, Eq, Structural)]
pub enum AmplitudeRule {
    /// The harmonic covers no bin: its amplitude is zero.
    Zero,
    /// Ratio of signal energy to window energy.
    Voiced,
    /// Mean signal energy per bin.
    Unvoiced,
}

/// The rule for harmonic `l` over the bins `edge.0` up to but not including
/// `edge.1`.
pub open spec fn amplitude_rule(l: int, edge: (i32, i32), vuv: VuvResult) -> AmplitudeRule {
    if edge.1 <= edge.0 {
        AmplitudeRule::Zero
    } else if vuv.voices(l) {
        AmplitudeRule::Voiced
    } else {
        AmplitudeRule::Unvoiced
    }
}

/// The rule for every harmonic of a frame, harmonic `l` at position `l - 1`.
/// `edges` holds the bin range of each harmonic.
pub fn estimate_spectral_amplitudes(edges: &[(i32, i32)], vuv: &VuvResult) -> (rules: Vec<
    AmplitudeRule,
>)
    requires
        vuv.wf(),
        edges@.len() <= L_HAT_MAX,
    ensures
        rules@.len() == edges@.len(),
        forall|i: int|
            0 <= i < rules@.len() ==> #[trigger] rules@[i] == amplitude_rule(i + 1, edges@[i], *vuv),
        forall|i: int|
            0 <= i < rules@.len() ==> (#[trigger] rules@[i] == AmplitudeRule::Zero <==> edges@[i].1
                <= edges@[i].0),
        forall|i: int|
            0 <= i < rules@.len() && edges@[i].0 < edges@[i].1 ==> (#[trigger] rules@[i]
                == AmplitudeRule::Voiced <==> vuv.voices(i + 1)),
{
    let mut rules: Vec<AmplitudeRule> = Vec::new();
    let mut i: usize = 0;
    while i < edges.len()
        invariant
            i <= edges@.len() <= L_HAT_MAX,
            vuv.wf(),
            rules@.len() == i,
            forall|j: int|
                0 <= j < i ==> #[trigger] rules@[j] == amplitude_rule(j + 1, edges@[j], *vuv),
        decreases edges@.len() - i,
    {
        let edge: (i32, i32) = edges[i];
        let rule = if edge.1 <= edge.0 {
            AmplitudeRule::Zero
        } else if harmonic_voiced((i + 1) as u32, vuv) {
            AmplitudeRule::Voiced
        } else {
            AmplitudeRule::Unvoiced
        };
        rules.push(rule);
        i = i + 1;
    }
    rules
}

/// What the amplitude smoother remembers of the previous frame.
#[derive(Clone, Debug)]
pub struct AmplitudeHistory {
    prev_l_hat: u8,
    prev_pitch_known: bool,
    prev_vuv: VuvResult,
}

impl AmplitudeHistory {
    /// Harmonics of the previous frame; 0 means no usable history.
    pub closed spec fn harmonics(self) -> u8 {
        self.prev_l_hat
    }

    /// Whether a previous pitch is known.
    pub closed spec fn pitch_known(self) -> bool {
        self.prev_pitch_known
    }

    /// Voicing of the previous frame.
    pub closed spec fn voicing(self) -> VuvResult {
        self.prev_vuv
    }

    /// The remembered voicing is well formed.
    pub closed spec fn wf(self) -> bool {
        self.prev_vuv.k_hat <= 12
    }

    /// Whether the smoother blends harmonic `l` of a frame with `l_hat`
    /// harmonics and voicing `vuv` with the previous frame.
    pub open spec fn blends(self, enabled: bool, close: bool, l_hat: int, vuv: VuvResult, l: int)
        -> bool {
        &&& enabled
        &&& self.harmonics() > 0
        &&& self.pitch_known()
        &&& close
        &&& 1 <= l <= l_hat
        &&& l <= self.harmonics()
        &&& band_of(l, vuv.k_hat as int) != 0
        &&& band_of(l, self.voicing().k_hat as int) != 0
        &&& vuv.vuv@[band_of(l, vuv.k_hat as int)] == self.voicing().vuv@[band_of(
            l,
            self.voicing().k_hat as int,
        )]
    }

    /// No history: no harmonics, no pitch, no bands, every band slot unvoiced.
    pub fn new() -> (history: Self)
        ensures
            history.wf(),
            history.harmonics() == 0,
            !history.pitch_known(),
            history.voicing().k_hat == 0,
            history.voicing().vuv@ == Seq::new(13, |k: int| 0u8),
    {
        let history = AmplitudeHistory {
            prev_l_hat: 0,
            prev_pitch_known: false,
            prev_vuv: VuvResult { k_hat: 0, vuv: [0;13] },
        };
        assert(history.prev_vuv.vuv@ =~= Seq::new(13, |k: int| 0u8));
        history
    }

    /// Which harmonics of the current frame are blended with the previous one.
    /// `enabled` says that the smoothing weight lies strictly between 0 and 1,
    /// `close` that the pitch moved by less than a quarter.  Entry `l` stands
    /// for harmonic `l`.
    pub fn blend_mask(&self, enabled: bool, close: bool, l_hat: u8, vuv: &VuvResult) -> (mask: Vec<
        bool,
    >)
        requires
            self.wf(),
            vuv.wf(),
            l_hat <= L_HAT_MAX,
        ensures
            mask@.len() == 57,
            forall|l: int|
                0 <= l < 57 ==> #[trigger] mask@[l] == self.blends(
                    enabled,
                    close,
                    l_hat as int,
                    *vuv,
                    l,
                ),
    {
        let mut mask: Vec<bool> = Vec::new();
        let active: bool = enabled && self.prev_l_hat > 0 && self.prev_pitch_known && close;
        let mut l: u32 = 0;
        while l < 57
            invariant
                l <= 57,
                self.wf(),
                vuv.wf(),
                active == (enabled && self.prev_l_hat > 0 && self.prev_pitch_known && close),
                mask@.len() == l,
                forall|i: int|
                    0 <= i < l ==> #[trigger] mask@[i] == self.blends(
                        enabled,
                        close,
                        l_hat as int,
                        *vuv,
                        i,
                    ),
            decreases 57 - l,
        {
            let k_now: u8 = band_for_harmonic(l, vuv.k_hat);
            let k_prev: u8 = band_for_harmonic(l, self.prev_vuv.k_hat);
            let blend: bool = active && 1 <= l && l <= l_hat as u32 && l <= self.prev_l_hat as u32
                && k_now != 0 && k_prev != 0 && vuv.vuv[k_now as usize]
                == self.prev_vuv.vuv[k_prev as usize];
            mask.push(blend);
            l = l + 1;
        }
        mask
    }

    /// Remembers the current frame.
    pub fn commit(&mut self, l_hat: u8, pitch_known: bool, vuv: &VuvResult)
        requires
            vuv.wf(),
        ensures
            final(self).wf(),
            final(self).harmonics() == l_hat,
            final(self).pitch_known() == pitch_known,
            final(self).voicing() == *vuv,
    {
        self.prev_l_hat = l_hat;
        self.prev_pitch_known = pitch_known;
        self.prev_vuv = *vuv;
    }

    /// Forgets the previous frame, so that the next one is not blended.
    pub fn reset(&mut self)
        requires
            old(self).wf(),
        ensures
            final(self).wf(),
            final(self).harmonics() == 0,
            !final(self).pitch_known(),
            final(self).voicing().k_hat == 0,
    {
        self.prev_l_hat = 0;
        self.prev_pitch_known = false;
        self.prev_vuv.k_hat = 0;
    }
}

impl Default for AmplitudeHistory {
    fn default() -> (history: Self)
        ensures
            history.wf(),
            history.harmonics() == 0,
            !history.pitch_known(),
            history.voicing().k_hat == 0,
            history.voicing().vuv@ == Seq::new(13, |k: int| 0u8),
    {
        AmplitudeHistory::new()
    }
}

/// After a reset no harmonic of the next frame is blended.
pub proof fn law_reset_stops_blending(
    history: AmplitudeHistory,
    enabled: bool,
    close: bool,
    l_hat: int,
    vuv: VuvResult,
    l: int,
)
    requires
        history.harmonics() == 0,
    ensures
        !history.blends(enabled, close, l_hat, vuv, l),
{
}

/// A harmonic is blended only with one of the same voicing.
pub proof fn law_blend_keeps_voicing(
    history: AmplitudeHistory,
    enabled: bool,
    close: bool,
    l_hat: int,
    vuv: VuvResult,
    l: int,
)
    requires
        history.blends(enabled, close, l_hat, vuv, l),
    ensures
        vuv.voices(l) == history.voicing().voices(l),
{
}

/// The rule of a harmonic goes by the harmonic's own band.  Harmonics `3k - 2` to
/// `3k` lie in band `k`, and the last band goes on to the last harmonic.  A harmonic
/// without bins is zero; any other is estimated by the voiced rule exactly if its
/// band is voiced, and by the unvoiced rule exactly if it is not.
pub proof fn law_rule_goes_by_band(
    rules: Seq<AmplitudeRule>,
    edges: Seq<(i32, i32)>,
    vuv: VuvResult,
    k: int,
    l: int,
)
    requires
        vuv.wf(),
        rules.len() == edges.len(),
        forall|i: int|
            0 <= i < rules.len() ==> #[trigger] rules[i] == amplitude_rule(i + 1, edges[i], vuv),
        1 <= k <= vuv.k_hat,
        3 * k - 2 <= l <= edges.len(),
        l <= 3 * k || k == vuv.k_hat,
    ensures
        edges[l - 1].0 >= edges[l - 1].1 ==> rules[l - 1] == AmplitudeRule::Zero,
        edges[l - 1].0 < edges[l - 1].1 && vuv.vuv@[k] == 1 ==> rules[l - 1]
            == AmplitudeRule::Voiced,
        edges[l - 1].0 < edges[l - 1].1 && vuv.vuv@[k] != 1 ==> rules[l - 1]
            == AmplitudeRule::Unvoiced,
{
    assert(rules[l - 1] == amplitude_rule(l - 1 + 1, edges[l - 1], vuv));
}

/// The voicing of a frame spread over its harmonics is that of each harmonic's own
/// band.
pub proof fn law_expansion_goes_by_band(voiced: Seq<bool>, vuv: VuvResult, k: int, l: int)
    requires
        vuv.wf(),
        forall|i: int| 0 <= i < voiced.len() ==> #[trigger] voiced[i] == vuv.voices(i + 1),
        1 <= k <= vuv.k_hat,
        3 * k - 2 <= l <= voiced.len(),
        l <= 3 * k || k == vuv.k_hat,
    ensures
        voiced[l - 1] <==> vuv.vuv@[k] == 1,
{
    assert(voiced[l - 1] == vuv.voices(l - 1 + 1));
}

/// Which harmonics are blended.  Let harmonic `l` lie in band `k` now and in band
/// `k_prev` of the previous frame.  It is blended exactly if smoothing is on, both
/// frames have it, the previous pitch is known and close, and the two bands have
/// the same decision.
pub proof fn law_blend_exact(
    history: AmplitudeHistory,
    enabled: bool,
    close: bool,
    l_hat: int,
    vuv: VuvResult,
    l: int,
    k: int,
    k_prev: int,
)
    requires
        1 <= k <= vuv.k_hat,
        3 * k - 2 <= l,
        l <= 3 * k || k == vuv.k_hat,
        1 <= k_prev <= history.voicing().k_hat,
        3 * k_prev - 2 <= l,
        l <= 3 * k_prev || k_prev == history.voicing().k_hat,
    ensures
        history.blends(enabled, close, l_hat, vuv, l) <==> enabled && close && history.pitch_known()
            && l <= l_hat && l <= history.harmonics() && vuv.vuv@[k]
            == history.voicing().vuv@[k_prev],
{
}

/// A harmonic that lies in no band of one of the two frames is not blended.
pub proof fn law_no_blend_without_band(
    history: AmplitudeHistory,
    enabled: bool,
    close: bool,
    l_hat: int,
    vuv: VuvResult,
    l: int,
)
    requires
        l <= 0 || vuv.k_hat == 0 || history.voicing().k_hat == 0,
    ensures
        !history.blends(enabled, close, l_hat, vuv, l),
{
}

} // verus!
