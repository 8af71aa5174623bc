//! Frame dispatch of the encoder, silence detection, predictors and lookahead.

use blip25_mbe::analysis::{
    encode, encode_ambe_plus2, voice_params, AnalysisError, AnalysisOutput, AnalysisState,
    ColdStart, FrameSignals, FrameStart, FullRateFrame, HalfRateFrame, PitchCode, VoiceParams,
    PREROLL_FRAMES,
};
use blip25_mbe::denoise::{NoiseSpectrum, SpectrumUpdate, STRICT_CONSECUTIVE_FRAMES};
use blip25_mbe::lookahead::{slot_s_lpf, Lookahead};
use blip25_mbe::predictor::{
    interpolation_slots, lambda_from_snapshot, HalfratePredictorState, PredictorState,
    L_TILDE_COLD_START,
};
use blip25_mbe::refine::{L_HAT_MAX, L_HAT_MIN};
use blip25_mbe::silence::{SilenceDetector, Vote, SILENCE_ENTER_FRAMES, SILENCE_EXIT_FRAMES};
use blip25_mbe::vuv::{band_count_for, determine_vuv};

const ETA_INIT: f64 = 20000.0;
const DEFAULT_PITCH: f64 = 25.0;

fn cold() -> ColdStart<f64> {
    ColdStart { zero: 0.0, one: 1.0, pitch: 100.0, default_pitch: DEFAULT_PITCH, default_err: 1.0 }
}

/// Adaptive energy floor in front of the silence detector.
struct Floor {
    eta: f64,
}

impl Floor {
    fn vote(&mut self, energy: f64) -> Vote {
        self.eta = if energy < self.eta {
            0.95 * self.eta + 0.05 * energy
        } else {
            0.99 * self.eta + 0.01 * energy
        };
        Vote::of(energy < 2.0 * self.eta, energy > 4.0 * self.eta)
    }
}

fn check_cold_detector() {
    let d = SilenceDetector::cold_start();
    assert!(!d.is_silent());
    assert!(!SilenceDetector::default().is_silent());
}

#[test]
fn analysis_silence_detector_cold_start_is_not_silent() {
    check_cold_detector();
}

#[test]
fn silence_silence_detector_cold_start_is_not_silent() {
    check_cold_detector();
}

fn check_exit_hysteresis() {
    let mut d = SilenceDetector::cold_start();
    let mut f = Floor { eta: ETA_INIT };
    for _ in 0..20 {
        d.update(f.vote(0.0));
    }
    assert!(d.is_silent(), "should have entered silence");
    d.update(f.vote(1e12));
    d.update(f.vote(1e12));
    assert!(d.is_silent(), "should still be silent after 2 voice frames");
    d.update(f.vote(1e12));
    assert!(!d.is_silent(), "should have exited silence after {SILENCE_EXIT_FRAMES} voice frames");
}

#[test]
fn analysis_silence_detector_exits_silence_after_voice_hysteresis() {
    check_exit_hysteresis();
}

#[test]
fn silence_silence_detector_exits_silence_after_voice_hysteresis() {
    check_exit_hysteresis();
}

fn check_enter_hysteresis() {
    let mut d = SilenceDetector::cold_start();
    let mut f = Floor { eta: ETA_INIT };
    for _ in 0..30 {
        d.update(f.vote(1e8));
    }
    assert!(!d.is_silent(), "loud frames should not be silent");
    for i in 0..SILENCE_ENTER_FRAMES {
        assert!(!d.is_silent(), "should not be silent before {i} silent frames");
        d.update(f.vote(0.0));
    }
    assert!(d.is_silent(), "should have entered silence after enter-hysteresis");
}

#[test]
fn analysis_silence_detector_enters_silence_after_hysteresis() {
    check_enter_hysteresis();
}

#[test]
fn silence_silence_detector_enters_silence_after_hysteresis() {
    check_enter_hysteresis();
}

#[test]
fn neutral_votes_neither_count_nor_clear() {
    let mut d = SilenceDetector::cold_start();
    for _ in 0..4 {
        assert!(!d.update(Vote::Silent));
        assert!(!d.update(Vote::Neither));
    }
    assert!(d.update(Vote::Silent));
    d.update(Vote::Voice);
    d.update(Vote::Voice);
    d.update(Vote::Silent);
    d.update(Vote::Voice);
    assert!(d.update(Vote::Voice), "a silent vote restarts the voice count");
    assert!(!d.update(Vote::Voice));
}

#[test]
fn votes_of_energies() {
    assert_eq!(Vote::of(true, false), Vote::Silent);
    assert_eq!(Vote::of(false, true), Vote::Voice);
    assert_eq!(Vote::of(false, false), Vote::Neither);
    assert_eq!(Vote::of(true, true), Vote::Silent);
}

#[test]
fn long_runs_of_votes_saturate() {
    let mut d = SilenceDetector::cold_start();
    for _ in 0..600 {
        d.update(Vote::Silent);
    }
    assert!(d.is_silent());
    for _ in 0..600 {
        d.update(Vote::Voice);
    }
    assert!(!d.is_silent());
}

const VOICE: FrameSignals =
    FrameSignals { silent: false, unreliable: false, long_period: false, low_energy: false };

fn check_wrong_length() {
    let mut s = AnalysisState::new(cold());
    for len in [159usize, 161] {
        let filtered = vec![0.0; len];
        assert_eq!(
            s.start_frame(len, &filtered, Vote::Neither),
            Err(AnalysisError::WrongFrameLength)
        );
    }
    assert_eq!(s.preroll_counter(), 0);
}

#[test]
fn analysis_encode_rejects_wrong_length() {
    check_wrong_length();
}

#[test]
fn mod_encode_rejects_wrong_length() {
    check_wrong_length();
}

#[test]
fn analysis_encode_rejects_wrong_length_in_preroll() {
    check_wrong_length();
}

#[test]
fn mod_encode_rejects_wrong_length_in_preroll() {
    check_wrong_length();
}

fn check_preroll() {
    let mut s = AnalysisState::new(cold());
    let frame = [0.0; 160];
    for i in 0..PREROLL_FRAMES {
        assert_eq!(
            s.start_frame(160, &frame, Vote::Silent),
            Ok(FrameStart::Preroll),
            "frame {i} should be silence during preroll"
        );
    }
    assert_eq!(s.start_frame(160, &frame, Vote::Silent), Ok(FrameStart::Analyse(false)));
}

#[test]
fn analysis_encode_emits_silence_during_preroll() {
    check_preroll();
}

#[test]
fn mod_encode_emits_silence_during_preroll() {
    check_preroll();
}

#[test]
fn analysis_encode_preroll_is_exactly_two_frames() {
    check_preroll();
}

#[test]
fn mod_encode_preroll_is_exactly_two_frames() {
    check_preroll();
}

fn check_cold_state() {
    let s = AnalysisState::new(cold());
    assert!(s.in_preroll());
    assert_eq!(s.preroll_counter(), 0);
    assert_eq!(s.predictor().l_tilde_prev(), L_TILDE_COLD_START);
    assert_eq!(s.pitch_history().prev_pitch, 100.0);
    assert_eq!(s.vuv().vuv_prev(1), 0);
    assert!(!s.silence_detector().is_silent());
}

#[test]
fn analysis_analysis_state_cold_start_is_in_preroll() {
    check_cold_state();
}

#[test]
fn mod_analysis_state_cold_start_is_in_preroll() {
    check_cold_state();
}

fn check_preroll_saturates() {
    let mut s = AnalysisState::new(cold());
    s.advance_preroll();
    assert_eq!(s.preroll_counter(), 1);
    assert!(s.in_preroll());
    s.advance_preroll();
    assert_eq!(s.preroll_counter(), PREROLL_FRAMES);
    assert!(!s.in_preroll());
    s.advance_preroll();
    assert_eq!(s.preroll_counter(), PREROLL_FRAMES);
    s.advance_preroll();
    assert_eq!(s.preroll_counter(), PREROLL_FRAMES);
}

#[test]
fn analysis_analysis_state_preroll_saturates_at_two() {
    check_preroll_saturates();
}

#[test]
fn mod_analysis_state_preroll_saturates_at_two() {
    check_preroll_saturates();
}

fn check_commit_pitch() {
    let mut s = AnalysisState::new(cold());
    s.commit_pitch(55.0, 0.25);
    let h1 = s.pitch_history();
    assert_eq!(h1.prev_pitch, 55.0);
    assert_eq!(h1.prev_err_1, 0.25);
    assert_eq!(h1.prev_err_2, 0.0);
    s.commit_pitch(60.0, 0.30);
    let h2 = s.pitch_history();
    assert_eq!(h2.prev_pitch, 60.0);
    assert_eq!(h2.prev_err_1, 0.30);
    assert_eq!(h2.prev_err_2, 0.25);
}

#[test]
fn analysis_analysis_state_commit_pitch_shifts_history() {
    check_commit_pitch();
}

#[test]
fn mod_analysis_state_commit_pitch_shifts_history() {
    check_commit_pitch();
}

fn check_predictor_mut() {
    let mut s = AnalysisState::new(cold());
    let mut m_tilde = [0.0f64; L_HAT_MAX as usize + 1];
    for l in 1..=16u32 {
        m_tilde[l as usize] = f64::from(l) * 0.5;
    }
    s.predictor_mut().commit(&m_tilde, 16);
    assert_eq!(s.predictor().l_tilde_prev(), 16);
    s.vuv_mut().override_vuv_prev(&[0, 1], 1);
    assert_eq!(s.vuv().vuv_prev(1), 1);
}

#[test]
fn analysis_analysis_state_predictor_mut_allows_matched_decoder_commit() {
    check_predictor_mut();
}

#[test]
fn mod_analysis_state_predictor_mut_allows_matched_decoder_commit() {
    check_predictor_mut();
}

fn frame(l_hat: u8, fill: f64) -> Option<FullRateFrame<f64>> {
    Some(FullRateFrame { l_hat, m_tilde: vec![fill; 57] })
}

fn check_no_silence_when_disabled() {
    let mut s = AnalysisState::new(cold());
    for bits in 0..16u32 {
        let signals = FrameSignals {
            silent: bits & 1 != 0,
            unreliable: bits & 2 != 0,
            long_period: bits & 4 != 0,
            low_energy: bits & 8 != 0,
        };
        let out = encode(&mut s, &signals, 50.0, 0.1, frame(9, 2.0), Some("voice"));
        assert_eq!(out, Ok(AnalysisOutput::Voice("voice")));
    }
}

#[test]
fn analysis_encode_with_silence_detection_disabled_never_emits_non_preroll_silence() {
    check_no_silence_when_disabled();
}

#[test]
fn mod_encode_with_silence_detection_disabled_never_emits_non_preroll_silence() {
    check_no_silence_when_disabled();
}

fn check_silent_input_gated() {
    let mut s = AnalysisState::new(cold());
    s.set_silence_detection(true);
    assert!(s.silence_detection_enabled());
    let zero = [0.0; 160];
    let mut floor = Floor { eta: ETA_INIT };
    let mut saw_silence_after_preroll = false;
    for i in 0..30u8 {
        match s.start_frame(160, &zero, floor.vote(0.0)).unwrap() {
            FrameStart::Preroll => assert!(i < PREROLL_FRAMES),
            FrameStart::Analyse(silent) => {
                let signals = FrameSignals { silent, ..VOICE };
                let out = encode(&mut s, &signals, 100.0, 1.0, frame(9, 1.0), Some(0u8));
                if out == Ok(AnalysisOutput::Silence) {
                    saw_silence_after_preroll = true;
                    break;
                }
            }
        }
    }
    assert!(saw_silence_after_preroll);
}

#[test]
fn analysis_encode_with_silence_detection_enabled_gates_silent_input() {
    check_silent_input_gated();
}

#[test]
fn mod_encode_with_silence_detection_enabled_gates_silent_input() {
    check_silent_input_gated();
}

fn check_silence_keeps_predictor() {
    let mut s = AnalysisState::new(cold());
    s.set_silence_detection(true);
    encode(&mut s, &VOICE, 60.0, 0.2, frame(12, 3.0), Some(0u8)).unwrap();
    let l_before = s.predictor().l_tilde_prev();
    let m1_before = s.predictor().read(1);
    let signals = FrameSignals { silent: true, ..VOICE };
    for _ in 0..5 {
        let out = encode(&mut s, &signals, 61.0, 0.9, frame(20, 7.0), Some(0u8));
        assert_eq!(out, Ok(AnalysisOutput::Silence));
    }
    assert_eq!(l_before, s.predictor().l_tilde_prev(), "harmonics changed across silent frames");
    assert_eq!(m1_before, s.predictor().read(1), "amplitude changed across silent frames");
    assert_eq!(s.pitch_history().prev_pitch, 61.0);
}

#[test]
fn analysis_encode_silence_does_not_update_predictor_state() {
    check_silence_keeps_predictor();
}

#[test]
fn mod_encode_silence_does_not_update_predictor_state() {
    check_silence_keeps_predictor();
}

fn check_first_frame_commits() {
    let mut s = AnalysisState::new(cold());
    let quiet = [0.0; 160];
    for _ in 0..3 {
        s.start_frame(160, &quiet, Vote::Voice).unwrap();
    }
    assert_eq!(s.predictor().l_tilde_prev(), L_TILDE_COLD_START);
    encode(&mut s, &VOICE, 50.0, 0.1, frame(23, 5.0), Some(0u8)).unwrap();
    assert_eq!(s.predictor().l_tilde_prev(), 23);
    assert_eq!(s.predictor().read(1), 5.0);
}

#[test]
fn analysis_encode_updates_predictor_state_after_first_real_frame() {
    check_first_frame_commits();
}

#[test]
fn mod_encode_updates_predictor_state_after_first_real_frame() {
    check_first_frame_commits();
}

#[test]
fn encode_pitch_silence_override_fires_without_hysteresis() {
    let mut s = AnalysisState::new(cold());
    s.set_silence_detection(true);
    s.set_pitch_silence_override(true);
    let quiet = FrameSignals { silent: false, unreliable: true, long_period: false, low_energy: true };
    assert!(s.dispatches_silence(&quiet));
    let out = encode(&mut s, &quiet, 50.0, 1.0, frame(9, 1.0), Some(0u8));
    assert_eq!(out, Ok(AnalysisOutput::Silence));
    let loud = FrameSignals { low_energy: false, ..quiet };
    assert!(!s.dispatches_silence(&loud));
}

#[test]
fn pitch_silence_override_requires_silence_detection() {
    let mut s = AnalysisState::new(cold());
    assert!(!s.pitch_silence_override_enabled());
    s.set_pitch_silence_override(true);
    assert!(s.pitch_silence_override_enabled());
    assert!(!s.silence_detection_enabled());
    let quiet = FrameSignals { silent: true, unreliable: true, long_period: true, low_energy: true };
    let out = encode(&mut s, &quiet, 50.0, 1.0, frame(9, 1.0), Some(0u8));
    assert!(matches!(out, Ok(AnalysisOutput::Voice(_))));
}

#[test]
fn default_pitch_on_silence_does_not_change_current_frame_output() {
    let mut s_off = AnalysisState::new(cold());
    let mut s_on = AnalysisState::new(cold());
    s_on.set_default_pitch_on_silence(true);
    assert!(s_on.default_pitch_on_silence_enabled());
    for bits in 0..16u32 {
        let signals = FrameSignals {
            silent: bits & 1 != 0,
            unreliable: bits & 2 != 0,
            long_period: bits & 4 != 0,
            low_energy: bits & 8 != 0,
        };
        let off = encode(&mut s_off, &signals, 110.0, 0.9, frame(9, 2.0), Some(bits));
        let on = encode(&mut s_on, &signals, 110.0, 0.9, frame(9, 2.0), Some(bits));
        assert_eq!(format!("{off:?}"), format!("{on:?}"), "frame {bits} output diverged");
        let fires = signals.silent && signals.unreliable && signals.long_period;
        assert_eq!(s_on.pitch_history().prev_pitch, if fires { DEFAULT_PITCH } else { 110.0 });
        assert_eq!(s_off.pitch_history().prev_pitch, 110.0);
    }
}

#[test]
fn default_pitch_on_silence_does_not_fire_on_single_quiet_frame() {
    let mut s = AnalysisState::new(cold());
    s.set_default_pitch_on_silence(true);
    let loud = [1e4; 160];
    for _ in 0..20 {
        s.start_frame(160, &loud, Vote::Voice).unwrap();
    }
    let quiet = [5.0; 160];
    let FrameStart::Analyse(silent) = s.start_frame(160, &quiet, Vote::Silent).unwrap() else {
        panic!("past the preroll");
    };
    let signals = FrameSignals { silent, unreliable: true, long_period: true, low_energy: true };
    encode(&mut s, &signals, 110.0, 0.9, frame(9, 2.0), Some(0u8)).unwrap();
    assert_ne!(s.pitch_history().prev_pitch, DEFAULT_PITCH);
}

#[test]
fn unquantisable_pitch_leaves_the_state_alone() {
    let mut s = AnalysisState::new(cold());
    let out = encode::<f64, u8>(&mut s, &VOICE, 10.0, 0.1, None, None);
    assert_eq!(out, Err(AnalysisError::PitchOutOfRange));
    assert_eq!(s.pitch_history().prev_pitch, 100.0);
    assert_eq!(s.predictor().l_tilde_prev(), L_TILDE_COLD_START);
    let out = encode::<f64, u8>(&mut s, &VOICE, 40.0, 0.1, frame(10, 2.0), None);
    assert_eq!(out, Err(AnalysisError::PitchOutOfRange));
    assert_eq!(s.predictor().l_tilde_prev(), 10);
}

fn half_frame(l_tilde: u8, fill: f64) -> Option<HalfRateFrame<f64>> {
    Some(HalfRateFrame { l_tilde, lambda_tilde: vec![fill; 57], gamma_tilde: 2.5 })
}

#[test]
fn encode_ambe_plus2_predictor_advances_across_frames() {
    let mut s = AnalysisState::new(cold());
    for l in [14u8, 17] {
        let code = PitchCode::Encodable;
        let out = encode_ambe_plus2(&mut s, &VOICE, 50.0, 0.1, code, half_frame(l, 0.5), Some(1u8));
        assert_eq!(out, Ok(AnalysisOutput::Voice(1)));
        assert_eq!(s.predictor_ambe_plus2.l_tilde_prev(), l);
        assert_eq!(s.predictor_ambe_plus2.gamma_tilde_prev(), 2.5);
    }
    assert_eq!(s.predictor().l_tilde_prev(), L_TILDE_COLD_START, "full-rate state is separate");
}

#[test]
fn half_rate_pitch_codes() {
    let mut s = AnalysisState::new(cold());
    let out = encode_ambe_plus2(&mut s, &VOICE, 30.0, 0.1, PitchCode::Invalid, half_frame(9, 0.0), Some(1u8));
    assert_eq!(out, Err(AnalysisError::PitchOutOfRange));
    assert_eq!(s.pitch_history().prev_pitch, 100.0);
    let out = encode_ambe_plus2(&mut s, &VOICE, 30.0, 0.1, PitchCode::NotEncodable, half_frame(9, 0.0), Some(1u8));
    assert_eq!(out, Ok(AnalysisOutput::Silence));
    assert_eq!(s.pitch_history().prev_pitch, 30.0);
    assert_eq!(s.predictor_ambe_plus2.l_tilde_prev(), 15);
    let out = encode_ambe_plus2::<f64, u8>(&mut s, &VOICE, 30.0, 0.1, PitchCode::Encodable, None, None);
    assert_eq!(out, Err(AnalysisError::PitchOutOfRange));
}

#[test]
fn flags_of_the_state() {
    let mut s = AnalysisState::new(cold());
    assert!(!s.pyin_pitch_enabled() && !s.spectral_subtraction_enabled());
    assert!(!s.silence_detection_enabled() && !s.pitch_silence_override_enabled());
    assert!(!s.default_pitch_on_silence_enabled() && !s.vuv().mxi_grade_enabled());
    s.set_pyin_pitch(true);
    s.set_spectral_subtraction(true);
    assert!(s.pyin_pitch_enabled() && s.spectral_subtraction_enabled());
    s.vuv_state_mut().set_mxi_grade(true);
    assert!(s.vuv().mxi_grade_enabled());
}

#[test]
fn parameters_of_a_voice_frame() {
    let mut s = AnalysisState::new(cold());
    let vuv = determine_vuv(10, false, &[true, false, false, true], s.vuv_mut());
    let m_hat: Vec<f64> = (0..57).map(f64::from).collect();
    let params = voice_params(0.25, 10, &vuv, &m_hat);
    assert_eq!(params.omega_0, 0.25);
    assert_eq!(params.l_hat, 10);
    assert_eq!(
        params.voiced,
        vec![true, true, true, false, false, false, false, false, false, true]
    );
    assert_eq!(params.amplitudes, (1..=10).map(f64::from).collect::<Vec<f64>>());
    assert!(voice_params(0.25, 0, &vuv, &m_hat).amplitudes.is_empty());
}

fn periodic_pcm_frame(period: f64, max_h: u32, phase_offset: f64) -> [i16; 160] {
    let mut out = [0i16; 160];
    let omega = 2.0 * std::f64::consts::PI / period;
    for (idx, slot) in out.iter_mut().enumerate() {
        let nf = idx as f64 + phase_offset;
        let mut s = 0.0;
        for h in 1..=max_h {
            s += (f64::from(h) * omega * nf).cos() / f64::from(h);
        }
        *slot = (s * 8000.0).clamp(i16::MIN as f64, i16::MAX as f64) as i16;
    }
    out
}

/// Period, fundamental, harmonic count and amplitudes of buffered samples, by
/// comparison at each lag and by projection on each harmonic.
fn measure(x: &[f64]) -> (f64, f64, u8, Vec<f64>) {
    let distance = |lag: usize| -> f64 { (0..320).map(|n| (x[n] - x[n + lag]).powi(2)).sum() };
    let mut lag = 21;
    for other in 22..=122 {
        if distance(other) < 0.5 * distance(lag) {
            lag = other;
        }
    }
    let omega = 2.0 * std::f64::consts::PI / lag as f64;
    let l_hat = (0.9254 * (std::f64::consts::PI / omega + 0.25).floor()).floor() as u8;
    let mut m_hat = vec![0.0; 57];
    for l in 1..=usize::from(l_hat) {
        let (mut re, mut im) = (0.0, 0.0);
        for (n, s) in x[..4 * lag.min(120)].iter().enumerate() {
            re += s * (omega * l as f64 * n as f64).cos();
            im -= s * (omega * l as f64 * n as f64).sin();
        }
        m_hat[l] = (re * re + im * im).sqrt();
    }
    (lag as f64, omega, l_hat, m_hat)
}

#[derive(Clone, Copy, PartialEq)]
enum Rate {
    Full,
    Half,
}

/// One frame through the dispatch at a rate, analysed by [`measure`].
fn run_frame(
    pcm: &[i16],
    s: &mut AnalysisState<f64>,
    floor: &mut Floor,
    rate: Rate,
) -> Result<AnalysisOutput<VoiceParams<f64>>, AnalysisError> {
    let filtered: Vec<f64> = pcm.iter().map(|&v| f64::from(v)).collect();
    let vote = floor.vote(filtered.iter().map(|v| v * v).sum());
    let silent = match s.start_frame(pcm.len(), &filtered, vote)? {
        FrameStart::Preroll => return Ok(AnalysisOutput::Silence),
        FrameStart::Analyse(silent) => silent,
    };
    let (p, omega, l_hat, m_hat) = measure(s.lookahead.lookahead_buf());
    let voiced = vec![true; usize::from(band_count_for(l_hat))];
    let vuv = determine_vuv(l_hat, false, &voiced, s.vuv_mut());
    let params = Some(voice_params(omega, l_hat, &vuv, &m_hat));
    let signals = FrameSignals { silent, ..VOICE };
    match rate {
        Rate::Full => {
            let frame = Some(FullRateFrame { l_hat, m_tilde: m_hat });
            encode(s, &signals, p, 0.0, frame, params)
        }
        Rate::Half => {
            let lambda_tilde: Vec<f64> = m_hat.iter().map(|m| (m + 1.0).log2()).collect();
            let frame = Some(HalfRateFrame { l_tilde: l_hat, lambda_tilde, gamma_tilde: 2.5 });
            encode_ambe_plus2(s, &signals, p, 0.0, PitchCode::Encodable, frame, params)
        }
    }
}

fn check_third_frame(rate: Rate) {
    let mut s = AnalysisState::new(cold());
    let mut floor = Floor { eta: ETA_INIT };
    let p0 = periodic_pcm_frame(50.0, 10, 0.0);
    let p1 = periodic_pcm_frame(50.0, 10, 160.0);
    let p2 = periodic_pcm_frame(50.0, 10, 320.0);
    assert_eq!(run_frame(&p0, &mut s, &mut floor, rate), Ok(AnalysisOutput::Silence));
    assert_eq!(run_frame(&p1, &mut s, &mut floor, rate), Ok(AnalysisOutput::Silence));
    match run_frame(&p2, &mut s, &mut floor, rate).unwrap() {
        AnalysisOutput::Voice(params) => {
            let omega = params.omega_0;
            assert!(omega.is_finite() && omega > 0.0);
            let p = 2.0 * std::f64::consts::PI / omega;
            assert!((19.875..=123.125).contains(&p), "P = {p} out of admissible range");
            let l = params.l_hat;
            assert!((L_HAT_MIN..=L_HAT_MAX).contains(&l));
            let any_nonzero = (0..l as usize).any(|i| params.amplitudes[i].abs() > 1e-6);
            assert!(any_nonzero, "all amplitudes zero on periodic input");
        }
        other => panic!("expected Voice, got {other:?}"),
    }
}

#[test]
fn analysis_encode_third_frame_emits_voice_on_periodic_input() {
    check_third_frame(Rate::Full);
}

#[test]
fn mod_encode_third_frame_emits_voice_on_periodic_input() {
    check_third_frame(Rate::Full);
}

#[test]
fn encode_ambe_plus2_third_frame_emits_voice_on_periodic_input() {
    check_third_frame(Rate::Half);
}

#[test]
fn encode_ambe_plus2_matches_encode_on_frontend_outputs() {
    let mut s_full = AnalysisState::new(cold());
    let mut s_half = AnalysisState::new(cold());
    let mut f_full = Floor { eta: ETA_INIT };
    let mut f_half = Floor { eta: ETA_INIT };
    for i in 0..2 {
        let pcm = periodic_pcm_frame(50.0, 10, 160.0 * f64::from(i));
        run_frame(&pcm, &mut s_full, &mut f_full, Rate::Full).unwrap();
        run_frame(&pcm, &mut s_half, &mut f_half, Rate::Half).unwrap();
    }
    let p2 = periodic_pcm_frame(50.0, 10, 320.0);
    let out_full = run_frame(&p2, &mut s_full, &mut f_full, Rate::Full).unwrap();
    let out_half = run_frame(&p2, &mut s_half, &mut f_half, Rate::Half).unwrap();
    let (pf, ph) = match (&out_full, &out_half) {
        (AnalysisOutput::Voice(pf), AnalysisOutput::Voice(ph)) => (pf, ph),
        _ => panic!("expected Voice from both, got full={out_full:?} half={out_half:?}"),
    };
    assert_eq!(pf.omega_0, ph.omega_0, "fundamental drift across encoders");
    assert_eq!(pf.l_hat, ph.l_hat, "harmonic count drift across encoders");
    for i in 0..pf.l_hat as usize {
        assert_eq!(pf.voiced[i], ph.voiced[i], "voicing mismatch at l={}", i + 1);
        assert_eq!(pf.amplitudes[i], ph.amplitudes[i], "amplitude mismatch at l={}", i + 1);
    }
    assert_eq!(s_full.pitch_history().prev_pitch, s_half.pitch_history().prev_pitch);
    assert_eq!(s_full.preroll_counter(), s_half.preroll_counter());
    assert_eq!(s_full.silence_detector(), s_half.silence_detector());
    assert_eq!(s_full.predictor().l_tilde_prev(), pf.l_hat);
    assert_eq!(s_half.predictor().l_tilde_prev(), L_TILDE_COLD_START);
    assert_eq!(s_half.predictor_ambe_plus2.l_tilde_prev(), ph.l_hat);
}

fn check_predictor_cold_start() {
    let st = PredictorState::cold_start(1.0);
    assert_eq!(st.l_tilde_prev(), L_TILDE_COLD_START);
    for l in 0..=u32::from(L_HAT_MAX) {
        assert_eq!(st.read(l), 1.0);
    }
    assert_eq!(st.m_tilde_prev_slice(), vec![1.0; 30]);
}

#[test]
fn analysis_predictor_state_cold_start_matches_spec() {
    check_predictor_cold_start();
}

#[test]
fn predictor_predictor_state_cold_start_matches_spec() {
    check_predictor_cold_start();
}

fn check_predictor_bounds() {
    let mut st = PredictorState::cold_start(1.0);
    let mut m_tilde = [0.0f64; L_HAT_MAX as usize + 1];
    m_tilde[1] = 2.0;
    m_tilde[2] = 4.0;
    m_tilde[3] = 8.0;
    st.commit(&m_tilde, 3);
    assert_eq!(st.read(0), 1.0);
    assert_eq!(st.read(1), 2.0);
    assert_eq!(st.read(3), 8.0);
    assert_eq!(st.read(4), 8.0);
    assert_eq!(st.read(30), 8.0);
    assert_eq!(st.m_tilde_prev_slice(), vec![2.0, 4.0, 8.0]);
}

#[test]
fn analysis_predictor_state_read_applies_eq56_eq57_boundaries() {
    check_predictor_bounds();
}

#[test]
fn predictor_predictor_state_read_applies_eq56_eq57_boundaries() {
    check_predictor_bounds();
}

#[test]
fn ambe_plus2_predictor_cold_start_values() {
    let st = HalfratePredictorState::cold_start(1.0, 0.0);
    assert_eq!(st.l_tilde_prev(), 15);
    assert_eq!(st.gamma_tilde_prev(), 0.0);
    for l in 0..=L_HAT_MAX as usize {
        assert_eq!(st.lambda_tilde_prev()[l], 1.0);
    }
}

#[test]
fn ambe_plus2_predictor_read_applies_eq156_eq157() {
    let mut st = HalfratePredictorState::cold_start(1.0, 0.0);
    st.commit(&[0.0, 0.1, 0.2, 0.3, 0.4, 0.5], 5, 0.0);
    assert_eq!(st.read(0), 0.1);
    assert_eq!(st.read(1), 0.1);
    assert_eq!(st.read(5), 0.5);
    assert_eq!(st.read(6), 0.5);
    assert_eq!(st.read(999), 0.5);
}

#[test]
fn ambe_plus2_predictor_commit_advances_state() {
    let mut st = HalfratePredictorState::cold_start(1.0, 0.0);
    let mut lambda_curr = [0.0f64; L_HAT_MAX as usize + 1];
    for l in 1..=12 {
        lambda_curr[l] = l as f64 * 0.25;
    }
    st.commit(&lambda_curr, 12, 5.0);
    assert_eq!(st.l_tilde_prev(), 12);
    assert_eq!(st.gamma_tilde_prev(), 5.0);
    for l in 1..=12 {
        assert_eq!(st.lambda_tilde_prev()[l], l as f64 * 0.25);
    }
    let slice = st.lambda_prev_slice(0.0);
    assert_eq!(slice.len(), 13);
    assert_eq!(slice[0], 0.0);
    let back = lambda_from_snapshot(&slice, 12, 9.0);
    assert_eq!(back.len(), 57);
    assert_eq!(back[0], 9.0);
    assert_eq!(back[12], 3.0);
    assert_eq!(back[13], 9.0);
}

#[test]
fn values_past_the_last_harmonic_are_its_value() {
    let mut st = PredictorState::cold_start(1);
    st.commit(&[0, 7, 8, 9], 3);
    assert_eq!((3..=56).map(|l| st.read(l)).collect::<Vec<i32>>(), vec![9; 54]);
    st.commit(&[0, 5], 1);
    assert_eq!((0..=56).map(|l| st.read(l)).sum::<i32>(), 1 + 56 * 5);
    st.commit(&[4], 0);
    assert!((0..=60).all(|l| st.read(l) == 1));
    assert!(st.m_tilde_prev_slice().is_empty());
}

#[test]
fn half_rate_reads_below_two_harmonics() {
    let mut st = HalfratePredictorState::cold_start(1, 0);
    st.commit(&[7], 0, 0);
    assert_eq!(st.read(0), 1);
    assert_eq!(st.read(9), 1);
}

#[test]
fn interpolation_is_held_at_the_ends() {
    assert_eq!(interpolation_slots(3, 10), (3, 4));
    assert_eq!(interpolation_slots(10, 10), (10, 10));
    assert_eq!(interpolation_slots(25, 10), (10, 10));
    assert_eq!(interpolation_slots(-1, 10), (0, 0));
    assert_eq!(interpolation_slots(0, 10), (0, 1));
    assert_eq!(interpolation_slots(5, 0), (1, 1));
}

#[test]
fn lookahead_keeps_the_last_three_frames() {
    let mut buf: Lookahead<i32> = Lookahead::new(0);
    for f in 1..=5i32 {
        buf.ingest_frame(&[f; 160]);
    }
    let held = buf.lookahead_buf();
    assert_eq!((held[0], held[159], held[160], held[479]), (3, 3, 4, 5));
    let mut short: Lookahead<i32> = Lookahead::new(0);
    short.ingest_frame(&[7; 160]);
    assert_eq!((short.lookahead_buf()[159], short.lookahead_buf()[160]), (7, 0));
}

#[test]
fn windows_are_centred_and_padded() {
    let mut buf: Lookahead<i32> = Lookahead::new(-1);
    for f in 0..3i32 {
        let frame: Vec<i32> = (0..160).map(|i| 160 * f + i).collect();
        buf.ingest_frame(&frame);
    }
    let refinement = buf.extract_refinement_window();
    assert_eq!((refinement.len(), refinement[0], refinement[29], refinement[30]), (221, -1, -1, 0));
    assert_eq!(refinement[110], 80);
    let first = buf.extract_pitch_window(0);
    assert_eq!((first.len(), first[79], first[80], first[160]), (321, -1, 0, 80));
    let last = buf.extract_pitch_window(2);
    assert_eq!((last[160], last[239], last[240]), (400, 479, -1));
    let padded = buf.padded();
    assert_eq!((padded.len(), padded[79], padded[80], padded[559], padded[560]), (641, -1, 0, 479, -1));
}

#[test]
fn shared_filter_gives_each_slot_its_part() {
    let mut buf: Lookahead<i64> = Lookahead::new(0);
    for f in 0..3i64 {
        let frame: Vec<i64> = (0..160).map(|i| (f + 1) * (i % 13) - i).collect();
        buf.ingest_frame(&frame);
    }
    let taps: Vec<i64> = (0..21).map(|j| (j - 10) * (j - 10) + 1).collect();
    let filter = |x: &[i64]| -> Vec<i64> {
        (0..x.len() - 20).map(|n| (0..21).map(|j| taps[j] * x[n + j]).sum()).collect()
    };
    let shared = filter(&buf.padded());
    for slot in 0..3 {
        assert_eq!(slot_s_lpf(&shared, slot), &filter(&buf.extract_pitch_window(slot))[..]);
    }
}

#[test]
fn strict_gate_requires_consecutive_stationary_frames() {
    let mut gate = NoiseSpectrum::new();
    assert_eq!(gate.update(false, true), (SpectrumUpdate::Seed, SpectrumUpdate::Hold));
    for _ in 1..STRICT_CONSECUTIVE_FRAMES {
        assert_eq!(gate.update(true, true), (SpectrumUpdate::Blend, SpectrumUpdate::Hold));
    }
    assert!(!gate.is_primed());
    assert_eq!(gate.update(true, true), (SpectrumUpdate::Blend, SpectrumUpdate::Seed));
    assert!(gate.is_primed());
    assert_eq!(gate.update(true, true), (SpectrumUpdate::Blend, SpectrumUpdate::Blend));
    gate.reset();
    assert!(!gate.is_primed());
}

#[test]
fn non_stationary_frame_breaks_eligible_run() {
    let mut gate = NoiseSpectrum::default();
    for _ in 0..STRICT_CONSECUTIVE_FRAMES {
        gate.update(true, true);
    }
    gate.update(false, true);
    assert!(!gate.is_primed());
    gate.update(true, true);
    assert!(!gate.is_primed());
}

#[test]
fn voiced_frames_hold_noise_estimate() {
    let mut gate = NoiseSpectrum::new();
    for _ in 0..(STRICT_CONSECUTIVE_FRAMES + 1) {
        gate.update(true, true);
    }
    assert!(gate.is_primed());
    assert_eq!(gate.update(false, false), (SpectrumUpdate::Blend, SpectrumUpdate::Hold));
    assert_eq!(gate.update(true, false), (SpectrumUpdate::Blend, SpectrumUpdate::Hold));
    assert!(gate.is_primed());
}
