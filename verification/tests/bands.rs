//! Spectrum slots, voicing bands and amplitude bookkeeping.

use blip25_mbe::amplitude::{
    band_for_harmonic, estimate_spectral_amplitudes, expand_voicing, harmonic_voiced,
    AmplitudeHistory, AmplitudeRule,
};
use blip25_mbe::basis::{
    bin_slots, centred_slot, packed_index, unpacked_m, window_spectrum_slot, DFT_SIZE, W_R_HALF,
};
use blip25_mbe::refine::{L_HAT_MAX, L_HAT_MIN};
use blip25_mbe::vuv::{
    band_count_for, band_harmonics, band_voiced, determine_vuv, ThetaCase, VuvResult, VuvState,
    K_HAT_MAX,
};

fn check_packing() {
    for m in -127i32..=128 {
        let idx = packed_index(m);
        assert!(idx < DFT_SIZE, "packed_index({m}) out of bounds");
        assert_eq!(unpacked_m(idx), m, "roundtrip failed for m = {m}");
    }
}

#[test]
fn analysis_packed_index_roundtrips_two_sided_range() {
    check_packing();
}

#[test]
fn basis_packed_index_roundtrips_two_sided_range() {
    check_packing();
}

#[test]
fn packed_index_wraps_past_the_spectrum() {
    assert_eq!(packed_index(256), 0);
    assert_eq!(packed_index(-256), 0);
    assert_eq!(packed_index(300), 44);
    for idx in 0..DFT_SIZE {
        assert_eq!(packed_index(unpacked_m(idx)), idx);
    }
}

#[test]
fn centred_table_slots() {
    assert_eq!(centred_slot(-110, W_R_HALF), Some(0));
    assert_eq!(centred_slot(0, W_R_HALF), Some(110));
    assert_eq!(centred_slot(110, W_R_HALF), Some(220));
    assert_eq!(centred_slot(111, W_R_HALF), None);
    assert_eq!(centred_slot(-111, W_R_HALF), None);
    assert_eq!(centred_slot(i32::MIN, W_R_HALF), None);
    assert_eq!(window_spectrum_slot(-8192), Some(8192));
    assert_eq!(window_spectrum_slot(17), Some(17));
    assert_eq!(window_spectrum_slot(8193), None);
    assert_eq!(window_spectrum_slot(i32::MIN), None);
    assert_eq!(bin_slots(-2, 2), vec![254, 255, 0, 1]);
    assert!(bin_slots(5, 5).is_empty());
}

fn check_band_count() {
    assert_eq!(band_count_for(9), 3);
    assert_eq!(band_count_for(10), 4);
    assert_eq!(band_count_for(11), 4);
    assert_eq!(band_count_for(12), 4);
    assert_eq!(band_count_for(36), 12);
    assert_eq!(band_count_for(37), 12);
    assert_eq!(band_count_for(56), 12);
    let mut prev = 0u8;
    for l in L_HAT_MIN..=L_HAT_MAX {
        let k = band_count_for(l);
        assert!(k >= prev, "bands for {l} = {k}, prev = {prev}");
        assert!(k <= K_HAT_MAX);
        prev = k;
    }
}

#[test]
fn analysis_band_count_matches_eq34_table() {
    check_band_count();
}

#[test]
fn vuv_band_count_matches_eq34_table() {
    check_band_count();
}

fn check_band_for_harmonic() {
    assert_eq!(band_for_harmonic(1, 12), 1);
    assert_eq!(band_for_harmonic(2, 12), 1);
    assert_eq!(band_for_harmonic(3, 12), 1);
    assert_eq!(band_for_harmonic(4, 12), 2);
    assert_eq!(band_for_harmonic(33, 12), 11);
    assert_eq!(band_for_harmonic(34, 12), 12);
    assert_eq!(band_for_harmonic(56, 12), 12);
    assert_eq!(band_for_harmonic(9, 3), 3);
    assert_eq!(band_for_harmonic(10, 3), 3);
    assert_eq!(band_for_harmonic(5, 3), 2);
    assert_eq!(band_for_harmonic(0, 12), 0);
    assert_eq!(band_for_harmonic(1, 0), 0);
}

#[test]
fn analysis_band_for_harmonic_follows_ceil_l_div_3() {
    check_band_for_harmonic();
}

#[test]
fn amplitude_band_for_harmonic_follows_ceil_l_div_3() {
    check_band_for_harmonic();
}

#[test]
fn bands_split_the_harmonics() {
    for l_hat in 1u8..=255 {
        let k_hat = band_count_for(l_hat);
        let mut next = 1u32;
        for k in 1..=k_hat {
            let (first, last) = band_harmonics(k, k_hat, l_hat);
            assert_eq!(first, next);
            for l in first..=last {
                assert_eq!(band_for_harmonic(l, k_hat), k);
            }
            next = last + 1;
        }
        assert_eq!(next, u32::from(l_hat) + 1);
    }
}

fn check_vuv_cold_start() {
    let s = VuvState::cold_start();
    for k in 0..=K_HAT_MAX {
        assert_eq!(s.vuv_prev(k), 0);
    }
    assert_eq!(s.vuv_prev(K_HAT_MAX + 1), 0);
    assert_eq!(VuvState::default().vuv_prev(1), 0);
}

#[test]
fn analysis_vuv_state_cold_start_matches_spec() {
    check_vuv_cold_start();
}

#[test]
fn vuv_vuv_state_cold_start_matches_spec() {
    check_vuv_cold_start();
}

/// Voicing of a frame from band errors and the fixed thresholds 0.5625 (voiced
/// before) and 0.45 (unvoiced before).
fn decide(l_hat: u8, d_k: &[f64], e_p: f64, state: &mut VuvState) -> VuvResult {
    let k_hat = band_count_for(l_hat);
    let mut below: Vec<bool> = Vec::new();
    for k in 1..=k_hat {
        let theta = match state.theta_case(k, e_p > 0.5) {
            ThetaCase::ForceUnvoiced => 0.0,
            ThetaCase::VoicedHistory => 0.5625,
            ThetaCase::UnvoicedHistory => 0.45,
        };
        below.push(d_k[k as usize - 1] < theta);
    }
    determine_vuv(l_hat, e_p > 0.5, &below, state)
}

#[test]
fn poor_match_overrides_the_band_errors() {
    assert!(!band_voiced(ThetaCase::ForceUnvoiced, true));
    assert!(band_voiced(ThetaCase::VoicedHistory, true));
    assert!(band_voiced(ThetaCase::UnvoicedHistory, true));
    assert!(!band_voiced(ThetaCase::VoicedHistory, false));
    let mut state = VuvState::cold_start();
    state.override_vuv_prev(&[1; 13], 12);
    let result = determine_vuv(56, true, &[true; 12], &mut state);
    assert_eq!(result.vuv, [0, 1, 0, 0, 0, 0, 0, 0, 0, 0, 0, 0, 0]);
    assert_eq!(expand_voicing(56, &result).iter().filter(|v| **v).count(), 3);
    assert_eq!(state.vuv_prev(2), 0);
    let result = determine_vuv(56, false, &[true; 12], &mut state);
    assert_eq!(result.vuv[1..], [1; 12]);
    let result = determine_vuv(56, true, &[false; 12], &mut state);
    assert_eq!(result.vuv, [0; 13]);
}

fn check_k_hat() {
    for l_hat in L_HAT_MIN..=L_HAT_MAX {
        let mut state = VuvState::cold_start();
        let res = decide(l_hat, &[0.1; 12], 0.1, &mut state);
        assert_eq!(res.k_hat, band_count_for(l_hat));
        assert!(res.k_hat <= K_HAT_MAX);
    }
}

#[test]
fn analysis_vuv_result_k_hat_matches_band_count() {
    check_k_hat();
}

#[test]
fn vuv_vuv_result_k_hat_matches_band_count() {
    check_k_hat();
}

fn check_silent_vuv() {
    let mut state = VuvState::cold_start();
    let res = decide(23, &[1.0; 12], 0.1, &mut state);
    for k in 1..=res.k_hat {
        assert_eq!(res.vuv[k as usize], 0, "band {k} voiced on silence");
    }
}

#[test]
fn analysis_vuv_silent_input_yields_all_unvoiced() {
    check_silent_vuv();
}

#[test]
fn vuv_vuv_silent_input_yields_all_unvoiced() {
    check_silent_vuv();
}

fn check_poor_match() {
    let mut state = VuvState::cold_start();
    let res = decide(23, &[0.1; 12], 0.75, &mut state);
    assert_eq!(res.vuv[1], 1, "the first band is exempt");
    for k in 2..=res.k_hat {
        assert_eq!(res.vuv[k as usize], 0, "band {k} voiced under poor pitch match");
    }
}

#[test]
fn analysis_vuv_poor_pitch_match_forces_bands_2_plus_unvoiced() {
    check_poor_match();
}

#[test]
fn vuv_vuv_poor_pitch_match_forces_bands_2_plus_unvoiced() {
    check_poor_match();
}

fn check_hysteresis() {
    let d_k = [0.5; 12];
    let mut cold = VuvState::cold_start();
    let res_cold = decide(23, &d_k, 0.1, &mut cold);
    let mut warm = VuvState::cold_start();
    warm.override_vuv_prev(&[1u8; 13], K_HAT_MAX);
    let res_warm = decide(23, &d_k, 0.1, &mut warm);
    let count = |r: &VuvResult| -> u32 {
        (1..=r.k_hat).map(|k| u32::from(r.vuv[k as usize])).sum()
    };
    assert_eq!(count(&res_cold), 0);
    assert_eq!(count(&res_warm), u32::from(res_warm.k_hat));
    assert!(count(&res_warm) >= count(&res_cold));
}

#[test]
fn analysis_vuv_hysteresis_threshold_depends_on_previous_decision() {
    check_hysteresis();
}

#[test]
fn vuv_vuv_hysteresis_threshold_depends_on_previous_decision() {
    check_hysteresis();
}

fn check_vuv_commit() {
    let mut state = VuvState::cold_start();
    state.override_vuv_prev(&[1u8; 13], K_HAT_MAX);
    let res = decide(23, &[0.1, 0.9, 0.1, 0.9, 0.1, 0.9, 0.1, 0.9, 0.0, 0.0, 0.0, 0.0], 0.1, &mut state);
    for k in 1..=res.k_hat {
        assert_eq!(state.vuv_prev(k), res.vuv[k as usize]);
    }
    for k in (res.k_hat + 1)..=K_HAT_MAX {
        assert_eq!(state.vuv_prev(k), 0);
    }
    assert_eq!(&res.vuv[1..9], &[1, 0, 1, 0, 1, 0, 1, 0]);
}

#[test]
fn analysis_vuv_state_is_committed_after_call() {
    check_vuv_commit();
}

#[test]
fn vuv_vuv_state_is_committed_after_call() {
    check_vuv_commit();
}

#[test]
fn grading_spares_forced_bands() {
    let mut state = VuvState::cold_start();
    assert!(!state.mxi_grade_enabled());
    assert!(!state.theta_graded(1, false, true));
    state.set_mxi_grade(true);
    assert!(state.mxi_grade_enabled());
    assert!(state.theta_graded(3, false, true));
    assert!(!state.theta_graded(3, false, false));
    assert!(!state.theta_graded(3, true, false));
    determine_vuv(9, false, &[true; 3], &mut state);
    assert!(state.mxi_grade_enabled(), "a frame leaves the setting alone");
}

#[test]
fn override_replaces_the_whole_history() {
    let mut state = VuvState::cold_start();
    state.override_vuv_prev(&[1u8; 13], 12);
    state.override_vuv_prev(&[0, 1, 0, 1, 1], 3);
    let seen: Vec<u8> = (1..=12).map(|k| state.vuv_prev(k)).collect();
    assert_eq!(seen, vec![1, 0, 1, 0, 0, 0, 0, 0, 0, 0, 0, 0]);
}

fn voicing(k_hat: u8, bits: &[u8]) -> VuvResult {
    let mut vuv = [0u8; 13];
    for (i, &b) in bits.iter().enumerate() {
        vuv[i + 1] = b;
    }
    VuvResult { k_hat, vuv }
}

#[test]
fn voicing_expands_by_threes() {
    let v = voicing(4, &[1, 0, 1, 0]);
    let voiced = expand_voicing(12, &v);
    assert_eq!(
        voiced,
        vec![true, true, true, false, false, false, true, true, true, false, false, false]
    );
    assert!(harmonic_voiced(7, &v));
    assert!(!harmonic_voiced(0, &v));
    assert!(!harmonic_voiced(200, &v));
}

#[test]
fn amplitude_rule_follows_support_and_voicing() {
    let v = voicing(1, &[1]);
    let rules = estimate_spectral_amplitudes(&[(5, 5), (5, 9), (9, 8)], &v);
    assert_eq!(rules, vec![AmplitudeRule::Zero, AmplitudeRule::Voiced, AmplitudeRule::Zero]);
    let u = voicing(1, &[0]);
    assert_eq!(estimate_spectral_amplitudes(&[(5, 9)], &u), vec![AmplitudeRule::Unvoiced]);
}

/// Amplitude smoothing with weight `alpha` around the library's history.
struct Smoother {
    history: AmplitudeHistory,
    alpha: f64,
    prev: [f64; 57],
    prev_omega: f64,
}

impl Smoother {
    fn new(alpha: f64) -> Self {
        Smoother { history: AmplitudeHistory::new(), alpha, prev: [0.0; 57], prev_omega: 0.0 }
    }

    fn apply(&mut self, m: &mut [f64; 57], l_hat: u8, omega: f64, vuv: &VuvResult) {
        let enabled = self.alpha > 0.0 && self.alpha < 1.0;
        let close = ((omega - self.prev_omega) / self.prev_omega).abs() < 0.25;
        let mask = self.history.blend_mask(enabled, close, l_hat, vuv);
        for l in 1..=l_hat as usize {
            if mask[l] {
                m[l] = self.alpha * m[l] + (1.0 - self.alpha) * self.prev[l];
            }
            self.prev[l] = m[l];
        }
        self.prev_omega = omega;
        self.history.commit(l_hat, omega > 0.0, vuv);
    }
}

fn two_frames(alpha: f64, omega_b: f64, second: &VuvResult, reset: bool) -> f64 {
    let mut s = Smoother::new(alpha);
    let mut a = [0.0; 57];
    a[1] = 10.0;
    s.apply(&mut a, 1, 0.10, &voicing(1, &[1]));
    if reset {
        s.history.reset();
    }
    let mut b = [0.0; 57];
    b[1] = 20.0;
    s.apply(&mut b, 1, omega_b, second);
    b[1]
}

#[test]
fn amp_ema_off_is_passthrough() {
    let mut s = Smoother::new(0.0);
    let mut m = [0.0; 57];
    m[1] = 1.0;
    m[2] = 2.0;
    s.apply(&mut m, 2, 0.1, &voicing(1, &[1]));
    assert_eq!(m[1], 1.0);
    assert_eq!(m[2], 2.0);
    assert_eq!(two_frames(0.0, 0.10, &voicing(1, &[1]), false), 20.0);
}

#[test]
fn amp_ema_first_frame_is_passthrough() {
    let mut s = Smoother::new(0.5);
    let mut m = [0.0; 57];
    m[1] = 4.0;
    s.apply(&mut m, 1, 0.1, &voicing(1, &[1]));
    assert!((m[1] - 4.0f64).abs() < 1e-12);
}

#[test]
fn amp_ema_blends_when_pitch_and_vuv_stable() {
    assert!((two_frames(0.5, 0.10, &voicing(1, &[1]), false) - 15.0).abs() < 1e-12);
}

#[test]
fn amp_ema_resets_on_pitch_jump() {
    assert!((two_frames(0.5, 0.20, &voicing(1, &[1]), false) - 20.0).abs() < 1e-12);
}

#[test]
fn amp_ema_skips_blend_on_vuv_flip() {
    assert!((two_frames(0.5, 0.10, &voicing(1, &[0]), false) - 20.0).abs() < 1e-12);
}

#[test]
fn amp_ema_history_cleared_by_reset() {
    assert!((two_frames(0.5, 0.10, &voicing(1, &[1]), true) - 20.0).abs() < 1e-12);
}

#[test]
fn blend_mask_stops_at_the_shorter_frame() {
    let mut h = AmplitudeHistory::default();
    h.commit(5, true, &voicing(2, &[1, 1]));
    let mask = h.blend_mask(true, true, 9, &voicing(3, &[1, 1, 1]));
    assert_eq!(mask.len(), 57);
    let on: Vec<usize> = (0..57).filter(|&l| mask[l]).collect();
    assert_eq!(on, vec![1, 2, 3, 4, 5]);
}
