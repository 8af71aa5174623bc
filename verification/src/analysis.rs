//! Frame dispatch of the analysis encoder.
//!
//! The encoder takes 160 samples at a time.  While its lookahead fills it emits
//! silence.  After that each frame is analysed and emitted as silence or voice;
//! the state of the next frame depends on which.  Sample, pitch and amplitude
//! values are opaque here.

use vstd::prelude::*;

use crate::amplitude::expand_voicing;
use crate::amplitude::AmplitudeHistory;
use crate::denoise::NoiseSpectrum;
use crate::lookahead::ingested;
use crate::lookahead::Lookahead;
use crate::lookahead::SAMPLES_PER_FRAME;
use crate::predictor::HalfratePredictorState;
use crate::predictor::PredictorState;
use crate::pyin::PyinHmmState;
use crate::refine::L_HAT_MAX;
use crate::silence::SilenceDetector;
use crate::silence::Vote;
use crate::vuv::band_count;
use crate::vuv::records;
use crate::vuv::ThetaCase;
use crate::vuv::VuvResult;
use crate::vuv::VuvState;

verus! {

/// Frames before the lookahead suffices.
pub const PREROLL_FRAMES: u8 = 2;

/// Why a frame could not be encoded.
#[derive(Clone, Copy, Debug, PartialEq, Eq, Structural)]
pub enum AnalysisError {
    /// The frame does not have exactly 160 samples.
    WrongFrameLength,
    /// The refined pitch cannot be quantised.
    PitchOutOfRange,
    /// Reserved.
    SpecGap,
}

/// An encoded frame.
#[derive(Clone, Debug, PartialEq)]
pub enum AnalysisOutput<P> {
    /// A silence frame.
    Silence,
    /// A voice frame with its parameters.
    Voice(P),
}

/// Pitch history: the previous pitch and the errors of the previous two.
#[derive(Clone, Copy, Debug)]
pub struct LookBackContext<T> {
    /// Previous pitch.
    pub prev_pitch: T,
    /// Error of the previous pitch.
    pub prev_err_1: T,
    /// Error of the pitch before it.
    pub prev_err_2: T,
}

/// The fixed values that the state is built from.
#[derive(Clone, Copy, Debug)]
pub struct ColdStart<T> {
    /// A zero sample, error or amplitude.
    pub zero: T,
    /// The amplitude below the first harmonic.
    pub one: T,
    /// The pitch before the first frame.
    pub pitch: T,
    /// The pitch put in place of a phantom one.
    pub default_pitch: T,
    /// The error that goes with it.
    pub default_err: T,
}

/// Encoder state across frames.
#[derive(Clone, Debug)]
pub struct AnalysisState<T> {
    /// Buffered frames.
    pub lookahead: Lookahead<T>,
    /// Pitch history.
    pub pitch_history: LookBackContext<T>,
    /// Voicing history.
    pub vuv: VuvState,
    /// Full-rate predictor.
    pub predictor: PredictorState<T>,
    /// Half-rate predictor.
    pub predictor_ambe_plus2: HalfratePredictorState<T>,
    /// Frames seen, counted up to [`PREROLL_FRAMES`].
    pub preroll: u8,
    /// Silence detector.
    pub silence: SilenceDetector,
    /// Frames that the detector flags become silence frames.
    pub silence_detection: bool,
    /// So do isolated quiet frames with an unreliable pitch.
    pub pitch_silence_override: bool,
    /// Phantom pitches of silent frames are replaced in the history.
    pub default_pitch_on_silence: bool,
    /// The probabilistic pitch tracker is used.
    pub pyin_pitch: bool,
    /// Smoother of that tracker.
    pub pyin_hmm: PyinHmmState<T>,
    /// Noise is subtracted before amplitudes are estimated.
    pub spectral_subtraction: bool,
    /// Gate of the noise estimate.
    pub noise_spectrum: NoiseSpectrum,
    /// What the amplitude smoother remembers.
    pub amplitudes: AmplitudeHistory,
    /// The fixed values.
    pub cold: ColdStart<T>,
}

/// What the analysis of a frame says about silence.
#[derive(Clone, Copy, Debug, PartialEq, Eq, Structural)]
pub struct FrameSignals {
    /// The silence detector flags the frame.
    pub silent: bool,
    /// The pitch error is at or above the reliability threshold.
    pub unreliable: bool,
    /// The period is longer than the phantom threshold.
    pub long_period: bool,
    /// The energy is below twice the noise floor.
    pub low_energy: bool,
}

/// How a frame begins.
#[derive(Clone, Copy, Debug, PartialEq, Eq, Structural)]
pub enum FrameStart {
    /// The lookahead is still filling: the frame is silence.
    Preroll,
    /// The frame is to be analysed; carries the silence detector's decision.
    Analyse(bool),
}

/// What the matched full-rate decoder reconstructed.
#[derive(Clone, Debug)]
pub struct FullRateFrame<T> {
    /// Harmonics.
    pub l_hat: u8,
    /// Amplitude per harmonic; slot 0 unused.
    pub m_tilde: Vec<T>,
}

/// What the matched half-rate decoder reconstructed.
#[derive(Clone, Debug)]
pub struct HalfRateFrame<T> {
    /// Harmonics.
    pub l_tilde: u8,
    /// Log amplitude per harmonic; slot 0 unused.
    pub lambda_tilde: Vec<T>,
    /// Gain.
    pub gamma_tilde: T,
}

/// The parameters of a voice frame.
#[derive(Clone, Debug, PartialEq)]
pub struct VoiceParams<T> {
    /// Fundamental.
    pub omega_0: T,
    /// Harmonics.
    pub l_hat: u8,
    /// Voicing per harmonic, harmonic `l` at position `l - 1`.
    pub voiced: Vec<bool>,
    /// Amplitude per harmonic, harmonic `l` at position `l - 1`.
    pub amplitudes: Vec<T>,
}

/// Collects the parameters of a voice frame at either rate.  Slot `l` of `m_hat`
/// is the amplitude of harmonic `l`.
pub fn voice_params<T: Copy>(omega_0: T, l_hat: u8, vuv: &VuvResult, m_hat: &[T]) -> (params:
    VoiceParams<T>)
    requires
        vuv.wf(),
        m_hat@.len() > l_hat,
    ensures
        params.omega_0 == omega_0,
        params.l_hat == l_hat,
        params.voiced@ == Seq::new(l_hat as nat, |i: int| vuv.voices(i + 1)),
        params.amplitudes@ == m_hat@.subrange(1, l_hat + 1),
{
    let voiced: Vec<bool> = expand_voicing(l_hat, vuv);
    assert(voiced@ =~= Seq::new(l_hat as nat, |i: int| vuv.voices(i + 1)));
    let mut amplitudes: Vec<T> = Vec::new();
    let mut l: usize = 1;
    while l <= l_hat as usize
        invariant
            1 <= l <= l_hat + 1,
            m_hat@.len() > l_hat,
            amplitudes@ == m_hat@.subrange(1, l as int),
        decreases l_hat + 1 - l,
    {
        amplitudes.push(m_hat[l]);
        assert(amplitudes@ =~= m_hat@.subrange(1, l + 1));
        l = l + 1;
    }
    VoiceParams { omega_0, l_hat, voiced, amplitudes }
}

/// Whether the half-rate quantiser can represent the pitch.
#[derive(Clone, Copy, Debug, PartialEq, Eq, Structural)]
pub enum PitchCode {
    /// It can.
    Encodable,
    /// It cannot: the frame becomes silence.
    NotEncodable,
    /// Its index does not decode.
    Invalid,
}

impl<T: Copy> AnalysisState<T> {
    /// All parts are well formed.
    pub open spec fn wf(self) -> bool {
        &&& self.lookahead.wf()
        &&& self.predictor.wf()
        &&& self.predictor_ambe_plus2.wf()
        &&& self.amplitudes.wf()
        &&& self.preroll <= PREROLL_FRAMES
    }

    /// The state before the first frame: nothing buffered, remembered or counted,
    /// and every option off.
    pub open spec fn fresh(self, cold: ColdStart<T>) -> bool {
        &&& self.cold == cold
        &&& self.preroll == 0
        &&& self.lookahead.fill() == 0
        &&& self.lookahead.zero() == cold.zero
        &&& self.lookahead.samples() == Seq::new(480, |i: int| cold.zero)
        &&& self.pitch_history == (LookBackContext {
            prev_pitch: cold.pitch,
            prev_err_1: cold.zero,
            prev_err_2: cold.zero,
        })
        &&& self.vuv.history() == Seq::new(13, |k: int| 0u8)
        &&& self.vuv.previous_bands() == 0
        &&& !self.vuv.grades()
        &&& self.predictor.dc() == cold.one
        &&& self.predictor.values() == Seq::new(57, |l: int| cold.one)
        &&& self.predictor.harmonics() == 30
        &&& self.predictor_ambe_plus2.values() == Seq::new(57, |l: int| cold.one)
        &&& self.predictor_ambe_plus2.harmonics() == 15
        &&& self.predictor_ambe_plus2.gain() == cold.zero
        &&& !self.silence.silent()
        &&& self.silence.silent_votes() == 0
        &&& self.silence.voice_votes() == 0
        &&& !self.silence_detection
        &&& !self.pitch_silence_override
        &&& !self.default_pitch_on_silence
        &&& !self.pyin_pitch
        &&& !self.pyin_hmm.is_primed()
        &&& self.pyin_hmm.alpha() == Seq::new(102, |i: int| cold.zero)
        &&& !self.spectral_subtraction
        &&& !self.noise_spectrum.has_estimate()
        &&& !self.noise_spectrum.has_reference()
        &&& self.noise_spectrum.run() == 0
        &&& self.amplitudes.harmonics() == 0
        &&& !self.amplitudes.pitch_known()
        &&& self.amplitudes.voicing().k_hat == 0
    }

    /// The state before the first frame.
    pub fn new(cold: ColdStart<T>) -> (state: Self)
        ensures
            state.wf(),
            state.fresh(cold),
    {
        AnalysisState {
            lookahead: Lookahead::new(cold.zero),
            pitch_history: LookBackContext {
                prev_pitch: cold.pitch,
                prev_err_1: cold.zero,
                prev_err_2: cold.zero,
            },
            vuv: VuvState::cold_start(),
            predictor: PredictorState::cold_start(cold.one),
            predictor_ambe_plus2: HalfratePredictorState::cold_start(cold.one, cold.zero),
            preroll: 0,
            silence: SilenceDetector::cold_start(),
            silence_detection: false,
            pitch_silence_override: false,
            default_pitch_on_silence: false,
            pyin_pitch: false,
            pyin_hmm: PyinHmmState::new(cold.zero),
            spectral_subtraction: false,
            noise_spectrum: NoiseSpectrum::new(),
            amplitudes: AmplitudeHistory::new(),
            cold,
        }
    }

    /// Switches silence frames on or off.
    pub fn set_silence_detection(&mut self, enabled: bool)
        ensures
            *final(self) == (AnalysisState { silence_detection: enabled, ..*old(self) }),
    {
        self.silence_detection = enabled;
    }

    /// Whether flagged frames become silence frames.
    pub fn silence_detection_enabled(&self) -> (enabled: bool)
        ensures
            enabled == self.silence_detection,
    {
        self.silence_detection
    }

    /// Switches the override for isolated quiet frames on or off.
    pub fn set_pitch_silence_override(&mut self, enabled: bool)
        ensures
            *final(self) == (AnalysisState { pitch_silence_override: enabled, ..*old(self) }),
    {
        self.pitch_silence_override = enabled;
    }

    /// Whether that override is on.
    pub fn pitch_silence_override_enabled(&self) -> (enabled: bool)
        ensures
            enabled == self.pitch_silence_override,
    {
        self.pitch_silence_override
    }

    /// Switches the replacement of phantom pitches on or off.
    pub fn set_default_pitch_on_silence(&mut self, enabled: bool)
        ensures
            *final(self) == (AnalysisState { default_pitch_on_silence: enabled, ..*old(self) }),
    {
        self.default_pitch_on_silence = enabled;
    }

    /// Whether that replacement is on.
    pub fn default_pitch_on_silence_enabled(&self) -> (enabled: bool)
        ensures
            enabled == self.default_pitch_on_silence,
    {
        self.default_pitch_on_silence
    }

    /// Switches the probabilistic pitch tracker on or off.
    pub fn set_pyin_pitch(&mut self, enabled: bool)
        ensures
            *final(self) == (AnalysisState { pyin_pitch: enabled, ..*old(self) }),
    {
        self.pyin_pitch = enabled;
    }

    /// Whether that tracker is on.
    pub fn pyin_pitch_enabled(&self) -> (enabled: bool)
        ensures
            enabled == self.pyin_pitch,
    {
        self.pyin_pitch
    }

    /// Switches noise subtraction on or off.
    pub fn set_spectral_subtraction(&mut self, enabled: bool)
        ensures
            *final(self) == (AnalysisState { spectral_subtraction: enabled, ..*old(self) }),
    {
        self.spectral_subtraction = enabled;
    }

    /// Whether noise subtraction is on.
    pub fn spectral_subtraction_enabled(&self) -> (enabled: bool)
        ensures
            enabled == self.spectral_subtraction,
    {
        self.spectral_subtraction
    }

    /// Whether the lookahead is still filling.
    pub fn in_preroll(&self) -> (filling: bool)
        ensures
            filling == (self.preroll < PREROLL_FRAMES),
    {
        self.preroll < PREROLL_FRAMES
    }

    /// Frames seen, counted up to [`PREROLL_FRAMES`].
    pub fn preroll_counter(&self) -> (count: u8)
        ensures
            count == self.preroll,
    {
        self.preroll
    }

    /// Counts a frame.
    pub fn advance_preroll(&mut self)
        ensures
            *final(self) == (AnalysisState {
                preroll: counted_frame(old(self).preroll),
                ..*old(self)
            }),
    {
        if self.preroll < PREROLL_FRAMES {
            self.preroll = self.preroll + 1;
        }
    }

    /// The history after pitch `p` with error `e`.
    pub open spec fn with_pitch(self, p: T, e: T) -> LookBackContext<T> {
        LookBackContext {
            prev_pitch: p,
            prev_err_1: e,
            prev_err_2: self.pitch_history.prev_err_1,
        }
    }

    /// Puts pitch `p` with error `e` into the history.
    pub fn commit_pitch(&mut self, p: T, e: T)
        ensures
            *final(self) == (AnalysisState {
                pitch_history: old(self).with_pitch(p, e),
                ..*old(self)
            }),
    {
        self.pitch_history.prev_err_2 = self.pitch_history.prev_err_1;
        self.pitch_history.prev_err_1 = e;
        self.pitch_history.prev_pitch = p;
    }

    /// The pitch history.
    pub fn pitch_history(&self) -> (history: LookBackContext<T>)
        ensures
            history == self.pitch_history,
    {
        self.pitch_history
    }

    /// The silence detector.
    pub fn silence_detector(&self) -> (detector: &SilenceDetector)
        ensures
            *detector == self.silence,
    {
        &self.silence
    }

    /// The voicing history.
    pub fn vuv(&self) -> (vuv: &VuvState)
        ensures
            *vuv == self.vuv,
    {
        &self.vuv
    }

    /// The voicing history, to be changed.
    pub fn vuv_mut(&mut self) -> (vuv: &mut VuvState)
        ensures
            *vuv == old(self).vuv,
            *final(self) == (AnalysisState { vuv: *final(vuv), ..*old(self) }),
    {
        &mut self.vuv
    }

    /// The voicing history, for a caller that supplies one of its own.
    pub fn vuv_state_mut(&mut self) -> (vuv: &mut VuvState)
        ensures
            *vuv == old(self).vuv,
            *final(self) == (AnalysisState { vuv: *final(vuv), ..*old(self) }),
    {
        &mut self.vuv
    }

    /// The full-rate predictor.
    pub fn predictor(&self) -> (predictor: &PredictorState<T>)
        ensures
            *predictor == self.predictor,
    {
        &self.predictor
    }

    /// The full-rate predictor, to be changed.
    pub fn predictor_mut(&mut self) -> (predictor: &mut PredictorState<T>)
        ensures
            *predictor == old(self).predictor,
            *final(self) == (AnalysisState { predictor: *final(predictor), ..*old(self) }),
    {
        &mut self.predictor
    }

    /// `after` is the state once a frame of `pcm_len` samples has begun, and
    /// `start` says how it begins.
    pub open spec fn begins(
        self,
        pcm_len: int,
        filtered: Seq<T>,
        vote: Vote,
        start: Result<FrameStart, AnalysisError>,
        after: Self,
    ) -> bool {
        if pcm_len != SAMPLES_PER_FRAME {
            &&& start == Err::<FrameStart, AnalysisError>(AnalysisError::WrongFrameLength)
            &&& after == self
        } else {
            &&& self.silence.moves_to(vote, after.silence)
            &&& after.lookahead.samples() == ingested(
                self.lookahead.samples(),
                self.lookahead.fill(),
                filtered,
            )
            &&& after.lookahead.zero() == self.lookahead.zero()
            &&& after.lookahead.fill() == if self.lookahead.fill() < 3 {
                self.lookahead.fill() + 1
            } else {
                3
            }
            &&& after == (AnalysisState {
                silence: after.silence,
                lookahead: after.lookahead,
                preroll: counted_frame(self.preroll),
                ..self
            })
            &&& start == Ok::<FrameStart, AnalysisError>(
                if self.preroll < PREROLL_FRAMES {
                    FrameStart::Preroll
                } else {
                    FrameStart::Analyse(after.silence.silent())
                },
            )
        }
    }

    /// Begins a frame of `pcm_len` samples: counts its vote, buffers its filtered
    /// samples, and says whether it is to be analysed.
    pub fn start_frame(&mut self, pcm_len: usize, filtered: &[T], vote: Vote) -> (start: Result<
        FrameStart,
        AnalysisError,
    >)
        requires
            old(self).wf(),
            pcm_len == SAMPLES_PER_FRAME ==> filtered@.len() == SAMPLES_PER_FRAME,
        ensures
            final(self).wf(),
            old(self).begins(pcm_len as int, filtered@, vote, start, *final(self)),
    {
        if pcm_len != SAMPLES_PER_FRAME {
            return Err(AnalysisError::WrongFrameLength);
        }
        let silent: bool = self.silence.update(vote);
        self.lookahead.ingest_frame(filtered);
        if self.in_preroll() {
            self.advance_preroll();
            return Ok(FrameStart::Preroll);
        }
        Ok(FrameStart::Analyse(silent))
    }

    /// Whether a frame with these signals becomes a silence frame.
    pub open spec fn silences(self, signals: FrameSignals) -> bool {
        self.silence_detection && (signals.silent || (self.pitch_silence_override
            && signals.unreliable && signals.low_energy))
    }

    /// Whether a frame with these signals becomes a silence frame.
    pub fn dispatches_silence(&self, signals: &FrameSignals) -> (silence: bool)
        ensures
            silence == self.silences(*signals),
    {
        let override_silent: bool = self.silence_detection && self.pitch_silence_override
            && signals.unreliable && signals.low_energy;
        (self.silence_detection && signals.silent) || override_silent
    }

    /// The pitch and error that enter the history for a frame whose pitch is `p`
    /// with error `e`: the default ones if it is a phantom of a silent frame.
    pub open spec fn history_entry(self, signals: FrameSignals, p: T, e: T) -> (T, T) {
        if self.default_pitch_on_silence && signals.silent && signals.long_period
            && signals.unreliable {
            (self.cold.default_pitch, self.cold.default_err)
        } else {
            (p, e)
        }
    }

    fn entry_for_history(&self, signals: &FrameSignals, p: T, e: T) -> (entry: (T, T))
        ensures
            entry == self.history_entry(*signals, p, e),
    {
        let phantom: bool = signals.long_period && signals.unreliable;
        if self.default_pitch_on_silence && signals.silent && phantom {
            (self.cold.default_pitch, self.cold.default_err)
        } else {
            (p, e)
        }
    }

    /// The state after a silence frame: the pitch history moves on, the amplitude
    /// smoother forgets, and the predictors stay.
    pub open spec fn silenced(self, signals: FrameSignals, p: T, e: T, after: Self) -> bool {
        let entry = self.history_entry(signals, p, e);
        &&& after.amplitudes.wf()
        &&& after.amplitudes.harmonics() == 0
        &&& !after.amplitudes.pitch_known()
        &&& after.amplitudes.voicing().k_hat == 0
        &&& after == (AnalysisState {
            pitch_history: self.with_pitch(entry.0, entry.1),
            preroll: counted_frame(self.preroll),
            amplitudes: after.amplitudes,
            ..self
        })
    }

    /// `after` and `output` are what a full-rate frame ends with.  It is silence if
    /// the signals say so.  Otherwise, if it could not be quantised, it is an error
    /// that changes nothing; else it is voice, or an error without parameters, and
    /// the full-rate predictor remembers what the decoder reconstructed.
    pub open spec fn finishes_full<P>(
        self,
        signals: FrameSignals,
        p: T,
        e: T,
        roundtrip: Option<FullRateFrame<T>>,
        params: Option<P>,
        output: Result<AnalysisOutput<P>, AnalysisError>,
        after: Self,
    ) -> bool {
        if self.silences(signals) {
            &&& output == Ok::<AnalysisOutput<P>, AnalysisError>(AnalysisOutput::Silence)
            &&& self.silenced(signals, p, e, after)
        } else {
            match roundtrip {
                None => {
                    &&& output == Err::<AnalysisOutput<P>, AnalysisError>(
                        AnalysisError::PitchOutOfRange,
                    )
                    &&& after == self
                },
                Some(frame) => {
                    &&& output == voice_or_error(params)
                    &&& self.predictor.commits_to(
                        frame.m_tilde@,
                        frame.l_hat as int,
                        after.predictor,
                    )
                    &&& after == (AnalysisState {
                        predictor: after.predictor,
                        ..self.voiced(signals, p, e, params is Some)
                    })
                },
            }
        }
    }

    /// `after` and `output` are what a half-rate frame ends with.  A pitch without
    /// a code makes it silence, a code that does not decode an error that changes
    /// nothing.  Otherwise it ends as a full-rate frame does, with the half-rate
    /// predictor in place of the other.
    pub open spec fn finishes_half<P>(
        self,
        signals: FrameSignals,
        p: T,
        e: T,
        code: PitchCode,
        roundtrip: Option<HalfRateFrame<T>>,
        params: Option<P>,
        output: Result<AnalysisOutput<P>, AnalysisError>,
        after: Self,
    ) -> bool {
        if code == PitchCode::Invalid {
            &&& output == Err::<AnalysisOutput<P>, AnalysisError>(AnalysisError::PitchOutOfRange)
            &&& after == self
        } else if code == PitchCode::NotEncodable || self.silences(signals) {
            &&& output == Ok::<AnalysisOutput<P>, AnalysisError>(AnalysisOutput::Silence)
            &&& self.silenced(signals, p, e, after)
        } else {
            match roundtrip {
                None => {
                    &&& output == Err::<AnalysisOutput<P>, AnalysisError>(
                        AnalysisError::PitchOutOfRange,
                    )
                    &&& after == self
                },
                Some(frame) => {
                    &&& output == voice_or_error(params)
                    &&& self.predictor_ambe_plus2.commits_to(
                        frame.lambda_tilde@,
                        frame.l_tilde as int,
                        frame.gamma_tilde,
                        after.predictor_ambe_plus2,
                    )
                    &&& after == (AnalysisState {
                        predictor_ambe_plus2: after.predictor_ambe_plus2,
                        ..self.voiced(signals, p, e, params is Some)
                    })
                },
            }
        }
    }

    /// The state after a voice frame, the predictors aside: the pitch history
    /// moves on, and the frame is counted if it has parameters.
    pub open spec fn voiced(self, signals: FrameSignals, p: T, e: T, counts: bool) -> Self {
        let entry = self.history_entry(signals, p, e);
        AnalysisState {
            pitch_history: self.with_pitch(entry.0, entry.1),
            preroll: if counts { counted_frame(self.preroll) } else { self.preroll },
            ..self
        }
    }

    fn finish_silence(&mut self, signals: &FrameSignals, p: T, e: T)
        requires
            old(self).wf(),
        ensures
            old(self).silenced(*signals, p, e, *final(self)),
    {
        let entry: (T, T) = self.entry_for_history(signals, p, e);
        self.amplitudes.reset();
        self.commit_pitch(entry.0, entry.1);
        self.advance_preroll();
    }
}

/// The frame count one higher, held at [`PREROLL_FRAMES`].
pub open spec fn counted_frame(preroll: u8) -> u8 {
    if preroll < PREROLL_FRAMES { (preroll + 1) as u8 } else { preroll }
}

/// The output of a voice frame with these parameters.
pub open spec fn voice_or_error<P>(params: Option<P>) -> Result<AnalysisOutput<P>, AnalysisError> {
    match params {
        Some(voice) => Ok(AnalysisOutput::Voice(voice)),
        None => Err(AnalysisError::PitchOutOfRange),
    }
}

/// Finishes a full-rate frame whose pitch is `p` with error `e`.
///
/// `roundtrip` is what the matched decoder reconstructed, or `None` if the frame
/// could not be quantised; `params` are the voice parameters, or `None` if they
/// are out of range.  Both are ignored for a silence frame.
pub fn encode<T: Copy, P>(
    state: &mut AnalysisState<T>,
    signals: &FrameSignals,
    p: T,
    e: T,
    roundtrip: Option<FullRateFrame<T>>,
    params: Option<P>,
) -> (output: Result<AnalysisOutput<P>, AnalysisError>)
    requires
        old(state).wf(),
        roundtrip is Some ==> roundtrip->Some_0.l_hat <= L_HAT_MAX
            && roundtrip->Some_0.m_tilde@.len() > roundtrip->Some_0.l_hat,
    ensures
        final(state).wf(),
        old(state).finishes_full(*signals, p, e, roundtrip, params, output, *final(state)),
{
    if state.dispatches_silence(signals) {
        state.finish_silence(signals, p, e);
        return Ok(AnalysisOutput::Silence);
    }
    match roundtrip {
        None => Err(AnalysisError::PitchOutOfRange),
        Some(frame) => {
            let entry: (T, T) = state.entry_for_history(signals, p, e);
            state.predictor.commit(frame.m_tilde.as_slice(), frame.l_hat);
            state.commit_pitch(entry.0, entry.1);
            match params {
                Some(voice) => {
                    state.advance_preroll();
                    Ok(AnalysisOutput::Voice(voice))
                },
                None => Err(AnalysisError::PitchOutOfRange),
            }
        },
    }
}

/// Finishes a half-rate frame whose pitch is `p` with error `e`.
///
/// `code` says whether the pitch can be represented; the rest is as in
/// [`encode`].
pub fn encode_ambe_plus2<T: Copy, P>(
    state: &mut AnalysisState<T>,
    signals: &FrameSignals,
    p: T,
    e: T,
    code: PitchCode,
    roundtrip: Option<HalfRateFrame<T>>,
    params: Option<P>,
) -> (output: Result<AnalysisOutput<P>, AnalysisError>)
    requires
        old(state).wf(),
        roundtrip is Some ==> roundtrip->Some_0.l_tilde <= L_HAT_MAX
            && roundtrip->Some_0.lambda_tilde@.len() > roundtrip->Some_0.l_tilde,
    ensures
        final(state).wf(),
        old(state).finishes_half(*signals, p, e, code, roundtrip, params, output, *final(state)),
{
    match code {
        PitchCode::Invalid => {
            return Err(AnalysisError::PitchOutOfRange);
        },
        PitchCode::NotEncodable => {
            state.finish_silence(signals, p, e);
            return Ok(AnalysisOutput::Silence);
        },
        PitchCode::Encodable => {},
    }
    if state.dispatches_silence(signals) {
        state.finish_silence(signals, p, e);
        return Ok(AnalysisOutput::Silence);
    }
    match roundtrip {
        None => Err(AnalysisError::PitchOutOfRange),
        Some(frame) => {
            let entry: (T, T) = state.entry_for_history(signals, p, e);
            state.predictor_ambe_plus2.commit(
                frame.lambda_tilde.as_slice(),
                frame.l_tilde,
                frame.gamma_tilde,
            );
            state.commit_pitch(entry.0, entry.1);
            match params {
                Some(voice) => {
                    state.advance_preroll();
                    Ok(AnalysisOutput::Voice(voice))
                },
                None => Err(AnalysisError::PitchOutOfRange),
            }
        },
    }
}

/// A silence frame leaves both predictors, the voicing history and the buffered
/// samples as they were.
pub proof fn law_silence_keeps_predictors<T: Copy>(
    before: AnalysisState<T>,
    signals: FrameSignals,
    p: T,
    e: T,
    after: AnalysisState<T>,
)
    requires
        before.silenced(signals, p, e, after),
    ensures
        after.predictor == before.predictor,
        after.predictor_ambe_plus2 == before.predictor_ambe_plus2,
        after.vuv == before.vuv,
        after.lookahead == before.lookahead,
{
}

/// With silence detection off no frame becomes a silence frame.
pub proof fn law_no_silence_when_disabled<T: Copy>(state: AnalysisState<T>, signals: FrameSignals)
    requires
        !state.silence_detection,
    ensures
        !state.silences(signals),
{
}

/// The substitution of phantom pitches has no say in whether a frame is silence.
pub proof fn law_default_pitch_keeps_dispatch<T: Copy>(
    state: AnalysisState<T>,
    enabled: bool,
    signals: FrameSignals,
)
    ensures
        (AnalysisState { default_pitch_on_silence: enabled, ..state }).silences(signals)
            == state.silences(signals),
{
}

/// The pitch history holds the errors of the last two frames, the latest first.
pub proof fn law_history_holds_last_two<T: Copy>(
    state: AnalysisState<T>,
    p1: T,
    e1: T,
    p2: T,
    e2: T,
)
    ensures
        ({
            let once = AnalysisState { pitch_history: state.with_pitch(p1, e1), ..state };
            once.with_pitch(p2, e2) == (LookBackContext {
                prev_pitch: p2,
                prev_err_1: e2,
                prev_err_2: e1,
            })
        }),
{
}

/// The frame count after `n` frames have begun.
pub open spec fn preroll_after(n: nat) -> u8
    decreases n,
{
    if n == 0 { 0 } else { counted_frame(preroll_after((n - 1) as nat)) }
}

/// From a fresh state the first two frames are preroll and every later one is
/// analysed.
pub proof fn law_preroll_is_two_frames(n: nat)
    ensures
        preroll_after(n) < PREROLL_FRAMES <==> n < 2,
        preroll_after(n) <= PREROLL_FRAMES,
    decreases n,
{
    if n > 0 {
        law_preroll_is_two_frames((n - 1) as nat);
        if n == 1 {
            assert(preroll_after(0) == 0);
        }
        if n == 2 {
            assert(preroll_after(0) == 0);
            assert(preroll_after(1) == 1);
        }
    }
}

// ---- What the two rates share -----------------------------------------------

/// What goes into one frame and what its analysis finds.
pub struct FrameAnalysis<T, P> {
    /// Filtered samples.
    pub filtered: Seq<T>,
    /// Vote of the frame.
    pub vote: Vote,
    /// What the analysis says about silence.
    pub signals: FrameSignals,
    /// Pitch.
    pub p: T,
    /// Error of the pitch.
    pub e: T,
    /// Harmonics.
    pub l_hat: u8,
    /// The pitch error is above the poor-match threshold.
    pub poor_match: bool,
    /// Whether the error of each band is below its threshold, band `k` at position
    /// `k - 1`.
    pub below: Seq<bool>,
    /// The fundamental is positive.
    pub pitch_known: bool,
    /// The frame may update the noise estimate.
    pub eligible: bool,
    /// New state of the probabilistic pitch tracker, if it ran.
    pub alpha: Option<Seq<T>>,
    /// Parameters, unless they are out of range.
    pub params: Option<P>,
    /// What the full-rate decoder reconstructs.
    pub full: Option<FullRateFrame<T>>,
    /// What the half-rate decoder reconstructs.
    pub half: Option<HalfRateFrame<T>>,
}

impl<T, P> FrameAnalysis<T, P> {
    /// At full rate `self` and at half rate `other`: the same samples, pitch and
    /// signals, and both can be quantised and have parameters, or neither.
    pub open spec fn tracks_as(self, other: Self) -> bool {
        &&& self.filtered == other.filtered
        &&& self.vote == other.vote
        &&& self.signals == other.signals
        &&& self.p == other.p
        &&& self.e == other.e
        &&& self.eligible == other.eligible
        &&& self.alpha == other.alpha
        &&& self.params is Some <==> other.params is Some
        &&& self.full is Some <==> other.half is Some
    }
}

/// Both outputs are silence, or both are the same error, or both are voice with
/// the parameters of their frame.
pub open spec fn dispatched_alike<P>(
    one: Result<AnalysisOutput<P>, AnalysisError>,
    one_params: Option<P>,
    two: Result<AnalysisOutput<P>, AnalysisError>,
    two_params: Option<P>,
) -> bool {
    match (one, two) {
        (Ok(AnalysisOutput::Silence), Ok(AnalysisOutput::Silence)) => true,
        (Ok(AnalysisOutput::Voice(p1)), Ok(AnalysisOutput::Voice(p2))) => one_params == Some(p1)
            && two_params == Some(p2),
        (Err(e1), Err(e2)) => e1 == e2,
        _ => false,
    }
}

impl<T: Copy> AnalysisState<T> {
    /// The two states agree in the samples, the pitch history, the frame count,
    /// the silence detector, the noise gate, the pitch tracker and the options.
    pub open spec fn same_tracking(self, other: Self) -> bool {
        &&& self.cold == other.cold
        &&& self.preroll == other.preroll
        &&& self.lookahead.samples() == other.lookahead.samples()
        &&& self.lookahead.fill() == other.lookahead.fill()
        &&& self.lookahead.zero() == other.lookahead.zero()
        &&& self.pitch_history == other.pitch_history
        &&& self.silence.silent() == other.silence.silent()
        &&& self.silence.silent_votes() == other.silence.silent_votes()
        &&& self.silence.voice_votes() == other.silence.voice_votes()
        &&& self.silence_detection == other.silence_detection
        &&& self.pitch_silence_override == other.pitch_silence_override
        &&& self.default_pitch_on_silence == other.default_pitch_on_silence
        &&& self.pyin_pitch == other.pyin_pitch
        &&& self.pyin_hmm.is_primed() == other.pyin_hmm.is_primed()
        &&& self.pyin_hmm.alpha() == other.pyin_hmm.alpha()
        &&& self.spectral_subtraction == other.spectral_subtraction
        &&& self.noise_spectrum.has_estimate() == other.noise_spectrum.has_estimate()
        &&& self.noise_spectrum.has_reference() == other.noise_spectrum.has_reference()
        &&& self.noise_spectrum.run() == other.noise_spectrum.run()
    }

    /// The two states agree in everything but the predictors.  Of the amplitude
    /// smoother's voicing only the bands that it has count.
    pub open spec fn same_front(self, other: Self) -> bool {
        &&& self.same_tracking(other)
        &&& self.vuv.history() == other.vuv.history()
        &&& self.vuv.previous_bands() == other.vuv.previous_bands()
        &&& self.vuv.grades() == other.vuv.grades()
        &&& self.amplitudes.harmonics() == other.amplitudes.harmonics()
        &&& self.amplitudes.pitch_known() == other.amplitudes.pitch_known()
        &&& self.amplitudes.voicing().k_hat == other.amplitudes.voicing().k_hat
        &&& forall|k: int|
            1 <= k <= self.amplitudes.voicing().k_hat
                ==> #[trigger] self.amplitudes.voicing().vuv@[k]
                == other.amplitudes.voicing().vuv@[k]
    }

    /// `after` is the state once the frame has been analysed: the noise gate, the
    /// pitch tracker, the voicing history and the amplitude smoother have taken it.
    pub open spec fn analyses<P>(self, frame: FrameAnalysis<T, P>, after: Self) -> bool {
        &&& self.noise_spectrum.moves_to(frame.eligible, after.noise_spectrum)
        &&& match frame.alpha {
            Some(alpha) => after.pyin_hmm.is_primed() && after.pyin_hmm.alpha() == alpha,
            None => after.pyin_hmm == self.pyin_hmm,
        }
        &&& records(after.vuv.history(), frame.l_hat as int, frame.poor_match, frame.below)
        &&& after.vuv.previous_bands() == band_count(frame.l_hat as int)
        &&& after.vuv.grades() == self.vuv.grades()
        &&& after.amplitudes.harmonics() == frame.l_hat
        &&& after.amplitudes.pitch_known() == frame.pitch_known
        &&& after.amplitudes.voicing().k_hat == band_count(frame.l_hat as int)
        &&& after.amplitudes.voicing().vuv@ == after.vuv.history()
        &&& after == (AnalysisState {
            noise_spectrum: after.noise_spectrum,
            pyin_hmm: after.pyin_hmm,
            vuv: after.vuv,
            amplitudes: after.amplitudes,
            ..self
        })
    }

    /// A full-rate frame leads from `self` over `started` and `analysed` to
    /// `after`.
    pub open spec fn full_rate_via<P>(
        self,
        frame: FrameAnalysis<T, P>,
        started: Self,
        analysed: Self,
        output: Result<AnalysisOutput<P>, AnalysisError>,
        after: Self,
    ) -> bool {
        if self.preroll < PREROLL_FRAMES {
            &&& self.begins(160, frame.filtered, frame.vote, Ok(FrameStart::Preroll), started)
            &&& output == Ok::<AnalysisOutput<P>, AnalysisError>(AnalysisOutput::Silence)
            &&& after == started
        } else {
            &&& self.begins(
                160,
                frame.filtered,
                frame.vote,
                Ok(FrameStart::Analyse(frame.signals.silent)),
                started,
            )
            &&& started.analyses(frame, analysed)
            &&& analysed.finishes_full(
                frame.signals,
                frame.p,
                frame.e,
                frame.full,
                frame.params,
                output,
                after,
            )
        }
    }

    /// A half-rate frame whose pitch has a code leads from `self` over `started`
    /// and `analysed` to `after`.
    pub open spec fn half_rate_via<P>(
        self,
        frame: FrameAnalysis<T, P>,
        started: Self,
        analysed: Self,
        output: Result<AnalysisOutput<P>, AnalysisError>,
        after: Self,
    ) -> bool {
        if self.preroll < PREROLL_FRAMES {
            &&& self.begins(160, frame.filtered, frame.vote, Ok(FrameStart::Preroll), started)
            &&& output == Ok::<AnalysisOutput<P>, AnalysisError>(AnalysisOutput::Silence)
            &&& after == started
        } else {
            &&& self.begins(
                160,
                frame.filtered,
                frame.vote,
                Ok(FrameStart::Analyse(frame.signals.silent)),
                started,
            )
            &&& started.analyses(frame, analysed)
            &&& analysed.finishes_half(
                frame.signals,
                frame.p,
                frame.e,
                PitchCode::Encodable,
                frame.half,
                frame.params,
                output,
                after,
            )
        }
    }

    /// A full-rate frame leads from `self` to `after`.
    pub open spec fn full_rate_frame<P>(
        self,
        frame: FrameAnalysis<T, P>,
        output: Result<AnalysisOutput<P>, AnalysisError>,
        after: Self,
    ) -> bool {
        exists|started: Self, analysed: Self| #[trigger]
            self.full_rate_via(frame, started, analysed, output, after)
    }

    /// A half-rate frame whose pitch has a code leads from `self` to `after`.
    pub open spec fn half_rate_frame<P>(
        self,
        frame: FrameAnalysis<T, P>,
        output: Result<AnalysisOutput<P>, AnalysisError>,
        after: Self,
    ) -> bool {
        exists|started: Self, analysed: Self| #[trigger]
            self.half_rate_via(frame, started, analysed, output, after)
    }
}

/// Two fresh states with the same fixed values agree.
pub proof fn law_fresh_states_agree<T: Copy>(
    one: AnalysisState<T>,
    two: AnalysisState<T>,
    cold: ColdStart<T>,
)
    requires
        one.fresh(cold),
        two.fresh(cold),
    ensures
        one.same_front(two),
{
}

#[verifier::spinoff_prover]
proof fn lemma_rates_track_a_frame<T: Copy, P>(
    full: AnalysisState<T>,
    half: AnalysisState<T>,
    full_frame: FrameAnalysis<T, P>,
    half_frame: FrameAnalysis<T, P>,
    full_output: Result<AnalysisOutput<P>, AnalysisError>,
    half_output: Result<AnalysisOutput<P>, AnalysisError>,
    full_after: AnalysisState<T>,
    half_after: AnalysisState<T>,
)
    requires
        full.same_tracking(half),
        full.full_rate_frame(full_frame, full_output, full_after),
        half.half_rate_frame(half_frame, half_output, half_after),
        full_frame.tracks_as(half_frame),
    ensures
        dispatched_alike(full_output, full_frame.params, half_output, half_frame.params),
        full_after.same_tracking(half_after),
{
    let (s1, a1) = choose|started: AnalysisState<T>, analysed: AnalysisState<T>| #[trigger]
        full.full_rate_via(full_frame, started, analysed, full_output, full_after);
    let (s2, a2) = choose|started: AnalysisState<T>, analysed: AnalysisState<T>| #[trigger]
        half.half_rate_via(half_frame, started, analysed, half_output, half_after);
    assert(s1.same_tracking(s2));
    if full.preroll >= PREROLL_FRAMES {
        assert(a1.same_tracking(a2));
    }
}

/// One run of frames at each rate: the same samples, pitch and signals.
#[verifier::opaque]
pub open spec fn is_tracked_pair<T: Copy, P>(
    full: Seq<AnalysisState<T>>,
    half: Seq<AnalysisState<T>>,
    full_frames: Seq<FrameAnalysis<T, P>>,
    half_frames: Seq<FrameAnalysis<T, P>>,
    full_outputs: Seq<Result<AnalysisOutput<P>, AnalysisError>>,
    half_outputs: Seq<Result<AnalysisOutput<P>, AnalysisError>>,
) -> bool {
    &&& full.len() == full_frames.len() + 1
    &&& half.len() == full_frames.len() + 1
    &&& half_frames.len() == full_frames.len()
    &&& full_outputs.len() == full_frames.len()
    &&& half_outputs.len() == full_frames.len()
    &&& forall|i: int|
        0 <= i < full_frames.len() ==> {
            &&& #[trigger] full[i].full_rate_frame(full_frames[i], full_outputs[i], full[i + 1])
            &&& half[i].half_rate_frame(half_frames[i], half_outputs[i], half[i + 1])
            &&& full_frames[i].tracks_as(half_frames[i])
        }
}

/// The same samples at full rate and at half rate, from states that agree in what
/// they track: every frame is silence at both rates, or voice at both, or the same
/// error, and they go on agreeing in what they track, whatever harmonic counts,
/// voicing and amplitudes the two rates find.  So where the parameters of a frame
/// carry one fundamental, both outputs do.
///
/// Left out are pitches without a half-rate code, and frames that only one of the
/// two rates can quantise or give parameters.
#[verifier::spinoff_prover]
pub proof fn law_rates_track_alike<T: Copy, P>(
    full: Seq<AnalysisState<T>>,
    half: Seq<AnalysisState<T>>,
    full_frames: Seq<FrameAnalysis<T, P>>,
    half_frames: Seq<FrameAnalysis<T, P>>,
    full_outputs: Seq<Result<AnalysisOutput<P>, AnalysisError>>,
    half_outputs: Seq<Result<AnalysisOutput<P>, AnalysisError>>,
    n: int,
)
    requires
        0 <= n <= full_frames.len(),
        full[0].same_tracking(half[0]),
        is_tracked_pair(full, half, full_frames, half_frames, full_outputs, half_outputs),
    ensures
        full[n].same_tracking(half[n]),
        forall|i: int|
            0 <= i < n ==> #[trigger] dispatched_alike(
                full_outputs[i],
                full_frames[i].params,
                half_outputs[i],
                half_frames[i].params,
            ),
    decreases n,
{
    if n > 0 {
        let i: int = n - 1;
        law_rates_track_alike(
            full,
            half,
            full_frames,
            half_frames,
            full_outputs,
            half_outputs,
            i,
        );
        reveal(is_tracked_pair);
        assert(full[i].full_rate_frame(full_frames[i], full_outputs[i], full[i + 1]));
        lemma_rates_track_a_frame(
            full[i],
            half[i],
            full_frames[i],
            half_frames[i],
            full_outputs[i],
            half_outputs[i],
            full[n],
            half[n],
        );
    }
}

#[verifier::spinoff_prover]
proof fn lemma_rates_agree_on_a_frame<T: Copy, P>(
    full: AnalysisState<T>,
    half: AnalysisState<T>,
    frame: FrameAnalysis<T, P>,
    full_output: Result<AnalysisOutput<P>, AnalysisError>,
    half_output: Result<AnalysisOutput<P>, AnalysisError>,
    full_after: AnalysisState<T>,
    half_after: AnalysisState<T>,
)
    requires
        full.same_front(half),
        full.full_rate_frame(frame, full_output, full_after),
        half.half_rate_frame(frame, half_output, half_after),
        frame.full is Some <==> frame.half is Some,
    ensures
        full_output == half_output,
        full_after.same_front(half_after),
{
    let (s1, a1) = choose|started: AnalysisState<T>, analysed: AnalysisState<T>| #[trigger]
        full.full_rate_via(frame, started, analysed, full_output, full_after);
    let (s2, a2) = choose|started: AnalysisState<T>, analysed: AnalysisState<T>| #[trigger]
        half.half_rate_via(frame, started, analysed, half_output, half_after);
    assert(s1.same_front(s2));
    if full.preroll >= PREROLL_FRAMES {
        assert(a1.vuv.history() =~= a2.vuv.history());
        assert(a1.same_front(a2));
    }
}

/// One run of frames at each rate: the same analysis, and both rates can quantise
/// a frame, or neither.
#[verifier::opaque]
pub open spec fn is_equal_pair<T: Copy, P>(
    full: Seq<AnalysisState<T>>,
    half: Seq<AnalysisState<T>>,
    frames: Seq<FrameAnalysis<T, P>>,
    full_outputs: Seq<Result<AnalysisOutput<P>, AnalysisError>>,
    half_outputs: Seq<Result<AnalysisOutput<P>, AnalysisError>>,
) -> bool {
    &&& full.len() == frames.len() + 1
    &&& half.len() == frames.len() + 1
    &&& full_outputs.len() == frames.len()
    &&& half_outputs.len() == frames.len()
    &&& forall|i: int|
        0 <= i < frames.len() ==> {
            &&& #[trigger] full[i].full_rate_frame(frames[i], full_outputs[i], full[i + 1])
            &&& half[i].half_rate_frame(frames[i], half_outputs[i], half[i + 1])
            &&& frames[i].full is Some <==> frames[i].half is Some
        }
}

/// The same frames at full rate and at half rate, from states that agree: every
/// frame gives the same output at both rates, so equal fundamentals, harmonic
/// counts, voicing and amplitudes, and only the predictors drift apart.
///
/// A frame is the same at both rates if its analysis is.  That asks for a pitch
/// with a half-rate code that stands for the harmonic count of the full rate.
#[verifier::spinoff_prover]
pub proof fn law_rates_agree<T: Copy, P>(
    full: Seq<AnalysisState<T>>,
    half: Seq<AnalysisState<T>>,
    frames: Seq<FrameAnalysis<T, P>>,
    full_outputs: Seq<Result<AnalysisOutput<P>, AnalysisError>>,
    half_outputs: Seq<Result<AnalysisOutput<P>, AnalysisError>>,
    n: int,
)
    requires
        0 <= n <= frames.len(),
        full[0].same_front(half[0]),
        is_equal_pair(full, half, frames, full_outputs, half_outputs),
    ensures
        full[n].same_front(half[n]),
        forall|i: int| 0 <= i < n ==> #[trigger] full_outputs[i] == half_outputs[i],
    decreases n,
{
    if n > 0 {
        law_rates_agree(full, half, frames, full_outputs, half_outputs, n - 1);
        reveal(is_equal_pair);
        assert(full[n - 1].full_rate_frame(frames[n - 1], full_outputs[n - 1], full[n - 1 + 1]));
        lemma_rates_agree_on_a_frame(
            full[n - 1],
            half[n - 1],
            frames[n - 1],
            full_outputs[n - 1],
            half_outputs[n - 1],
            full[n],
            half[n],
        );
    }
}

// ---- What the steps amount to -----------------------------------------------

/// A frame becomes silence exactly if silence detection is on and either the
/// detector flags the frame, or the override is on and the frame is quiet with an
/// unreliable pitch.  The length of its period has no say.
pub proof fn law_silence_dispatch<T: Copy>(state: AnalysisState<T>, signals: FrameSignals)
    ensures
        state.silences(signals) ==> state.silence_detection,
        state.silence_detection && signals.silent ==> state.silences(signals),
        state.silence_detection && !signals.silent ==> (state.silences(signals)
            <==> state.pitch_silence_override && signals.unreliable && signals.low_energy),
{
}

/// The default pitch enters the history in place of a frame's own exactly if the
/// option is on, the detector flags the frame, and its pitch is both long and
/// unreliable.
pub proof fn law_default_pitch<T: Copy>(
    state: AnalysisState<T>,
    signals: FrameSignals,
    p: T,
    e: T,
)
    ensures
        state.default_pitch_on_silence && signals.silent && signals.long_period
            && signals.unreliable ==> state.history_entry(signals, p, e) == (
            state.cold.default_pitch,
            state.cold.default_err,
        ),
        !state.default_pitch_on_silence || !signals.silent || !signals.long_period
            || !signals.unreliable ==> state.history_entry(signals, p, e) == (p, e),
{
}

/// A frame that is begun.  One of the wrong length is refused and changes nothing.
/// Any other is buffered and its vote counted; of the first two nothing more is
/// done, and every later one is to be analysed, with the detector's decision.
pub proof fn law_frame_begins<T: Copy>(
    before: AnalysisState<T>,
    pcm_len: int,
    filtered: Seq<T>,
    vote: Vote,
    start: Result<FrameStart, AnalysisError>,
    after: AnalysisState<T>,
)
    requires
        before.begins(pcm_len, filtered, vote, start, after),
        before.preroll <= 2,
    ensures
        pcm_len != 160 ==> start == Err::<FrameStart, AnalysisError>(
            AnalysisError::WrongFrameLength,
        ) && after == before,
        pcm_len == 160 ==> {
            &&& start is Ok
            &&& start->Ok_0 == FrameStart::Preroll <==> before.preroll < 2
            &&& before.preroll == 2 ==> start->Ok_0 == FrameStart::Analyse(after.silence.silent())
            &&& before.preroll < 2 ==> after.preroll == before.preroll + 1
            &&& before.preroll == 2 ==> after.preroll == 2
            &&& before.silence.moves_to(vote, after.silence)
            &&& after.lookahead.samples() == ingested(
                before.lookahead.samples(),
                before.lookahead.fill(),
                filtered,
            )
            &&& after.pitch_history == before.pitch_history
            &&& after.predictor == before.predictor
            &&& after.predictor_ambe_plus2 == before.predictor_ambe_plus2
            &&& after.vuv == before.vuv
            &&& after.amplitudes == before.amplitudes
        },
{
}

/// What a full-rate frame ends with.  A silence frame leaves both predictors alone.
/// A frame that cannot be quantised is an error and leaves everything alone.  Any
/// other frame is voice with its parameters, or an error if it has none; the
/// full-rate predictor then reads back what the decoder reconstructed, and the other
/// predictor stays.  Unless everything is left alone, the pitch history moves on; a
/// frame without an error is counted, up to two.
pub proof fn law_full_rate_outcome<T: Copy, P>(
    before: AnalysisState<T>,
    signals: FrameSignals,
    p: T,
    e: T,
    roundtrip: Option<FullRateFrame<T>>,
    params: Option<P>,
    output: Result<AnalysisOutput<P>, AnalysisError>,
    after: AnalysisState<T>,
    l: int,
)
    requires
        before.finishes_full(signals, p, e, roundtrip, params, output, after),
        roundtrip is Some ==> roundtrip->Some_0.l_hat <= L_HAT_MAX,
    ensures
        output is Ok && output->Ok_0 is Silence <==> before.silences(signals),
        output is Ok && output->Ok_0 is Voice <==> !before.silences(signals) && roundtrip is Some
            && params is Some,
        output is Ok && output->Ok_0 is Voice ==> params == Some(output->Ok_0->Voice_0),
        output is Err ==> output->Err_0 == AnalysisError::PitchOutOfRange,
        after.predictor_ambe_plus2 == before.predictor_ambe_plus2,
        after.vuv == before.vuv,
        after.lookahead == before.lookahead,
        after.silence == before.silence,
        after.cold == before.cold,
        after.noise_spectrum == before.noise_spectrum,
        after.pyin_hmm == before.pyin_hmm,
        after.silence_detection == before.silence_detection,
        after.pitch_silence_override == before.pitch_silence_override,
        after.default_pitch_on_silence == before.default_pitch_on_silence,
        after.pyin_pitch == before.pyin_pitch,
        after.spectral_subtraction == before.spectral_subtraction,
        output is Err || before.preroll >= 2 ==> after.preroll == before.preroll,
        output is Ok && before.preroll < 2 ==> after.preroll == before.preroll + 1,
        before.silences(signals) ==> after.predictor == before.predictor,
        before.silences(signals) ==> after.amplitudes.harmonics() == 0,
        !before.silences(signals) ==> after.amplitudes == before.amplitudes,
        !before.silences(signals) && roundtrip is None ==> after == before,
        !before.silences(signals) && roundtrip is Some ==> {
            &&& after.predictor.harmonics() == roundtrip->Some_0.l_hat
            &&& 1 <= l <= roundtrip->Some_0.l_hat ==> after.predictor.reads(l)
                == roundtrip->Some_0.m_tilde@[l]
            &&& after.predictor.reads(0) == before.predictor.dc()
        },
        before.silences(signals) || roundtrip is Some ==> {
            &&& after.pitch_history.prev_pitch == before.history_entry(signals, p, e).0
            &&& after.pitch_history.prev_err_1 == before.history_entry(signals, p, e).1
            &&& after.pitch_history.prev_err_2 == before.pitch_history.prev_err_1
        },
{
}

/// What a half-rate frame ends with.  A pitch without a code makes it silence, and a
/// code that does not decode an error that leaves everything alone; otherwise it
/// ends as a full-rate frame does, with the half-rate predictor, which also takes the
/// gain.
pub proof fn law_half_rate_outcome<T: Copy, P>(
    before: AnalysisState<T>,
    signals: FrameSignals,
    p: T,
    e: T,
    code: PitchCode,
    roundtrip: Option<HalfRateFrame<T>>,
    params: Option<P>,
    output: Result<AnalysisOutput<P>, AnalysisError>,
    after: AnalysisState<T>,
    l: int,
)
    requires
        before.finishes_half(signals, p, e, code, roundtrip, params, output, after),
        roundtrip is Some ==> roundtrip->Some_0.l_tilde <= L_HAT_MAX,
    ensures
        output is Ok && output->Ok_0 is Silence <==> code == PitchCode::NotEncodable || (code
            == PitchCode::Encodable && before.silences(signals)),
        output is Ok && output->Ok_0 is Voice <==> code == PitchCode::Encodable && !before.silences(
            signals,
        ) && roundtrip is Some && params is Some,
        output is Ok && output->Ok_0 is Voice ==> params == Some(output->Ok_0->Voice_0),
        output is Err ==> output->Err_0 == AnalysisError::PitchOutOfRange,
        code == PitchCode::Invalid ==> output is Err && after == before,
        after.predictor == before.predictor,
        after.vuv == before.vuv,
        after.lookahead == before.lookahead,
        after.silence == before.silence,
        after.cold == before.cold,
        after.noise_spectrum == before.noise_spectrum,
        after.pyin_hmm == before.pyin_hmm,
        after.silence_detection == before.silence_detection,
        after.pitch_silence_override == before.pitch_silence_override,
        after.default_pitch_on_silence == before.default_pitch_on_silence,
        after.pyin_pitch == before.pyin_pitch,
        after.spectral_subtraction == before.spectral_subtraction,
        output is Err || before.preroll >= 2 ==> after.preroll == before.preroll,
        output is Ok && before.preroll < 2 ==> after.preroll == before.preroll + 1,
        output is Ok && output->Ok_0 is Silence ==> after.predictor_ambe_plus2
            == before.predictor_ambe_plus2 && after.amplitudes.harmonics() == 0,
        code == PitchCode::Encodable && !before.silences(signals) && roundtrip is None ==> after
            == before,
        code == PitchCode::Encodable && !before.silences(signals) && roundtrip is Some ==> {
            &&& after.predictor_ambe_plus2.harmonics() == roundtrip->Some_0.l_tilde
            &&& after.predictor_ambe_plus2.gain() == roundtrip->Some_0.gamma_tilde
            &&& 1 <= l <= roundtrip->Some_0.l_tilde ==> after.predictor_ambe_plus2.reads(l)
                == roundtrip->Some_0.lambda_tilde@[l]
            &&& after.pitch_history.prev_pitch == before.history_entry(signals, p, e).0
            &&& after.pitch_history.prev_err_1 == before.history_entry(signals, p, e).1
            &&& after.pitch_history.prev_err_2 == before.pitch_history.prev_err_1
        },
        output is Ok && output->Ok_0 is Silence ==> {
            &&& after.pitch_history.prev_pitch == before.history_entry(signals, p, e).0
            &&& after.pitch_history.prev_err_1 == before.history_entry(signals, p, e).1
            &&& after.pitch_history.prev_err_2 == before.pitch_history.prev_err_1
        },
{
}

/// Before the first frame every option is off, nothing is buffered or counted, the
/// full-rate predictor stands at 30 harmonics and the half-rate one at 15, and every
/// band counts as unvoiced.
pub proof fn law_fresh_state<T: Copy>(state: AnalysisState<T>, cold: ColdStart<T>, l: int, k: int)
    requires
        state.fresh(cold),
    ensures
        !state.silence_detection && !state.pitch_silence_override && !state.default_pitch_on_silence
            && !state.pyin_pitch && !state.spectral_subtraction && !state.vuv.grades(),
        forall|signals: FrameSignals| !#[trigger] state.silences(signals),
        state.preroll == 0,
        state.lookahead.fill() == 0,
        0 <= l < 480 ==> state.lookahead.samples()[l] == cold.zero,
        state.predictor.harmonics() == 30,
        state.predictor.reads(l) == cold.one,
        state.predictor_ambe_plus2.harmonics() == 15,
        state.predictor_ambe_plus2.reads(l) == cold.one,
        state.predictor_ambe_plus2.gain() == cold.zero,
        1 <= k <= 12 ==> state.vuv.case_of(k, false) == ThetaCase::UnvoicedHistory,
        state.pitch_history.prev_pitch == cold.pitch,
        !state.silence.silent(),
        state.amplitudes.harmonics() == 0,
{
}

} // verus!
