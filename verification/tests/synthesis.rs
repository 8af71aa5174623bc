//! Frame synthesis plans and the noise source.

use blip25_mbe::mbe_baseline::{
    amplitude_limit, apply_smoothing, band_slots, emits_silence, enhance_spectral_amplitudes,
    finish_frame, frame_disposition,
    outside_bands, overlap_slots, pcm_from_rounded, phase_is_clean, shape_spectrum, synthesize_frame,
    unvoiced_count, voicing_threshold, AmplitudeLimit, Concealment, EnhanceRule,
    FrameDisposition, FrameErrorContext, FrameParams, SynthState, UnvoicedSynthState,
    VoicedBranch, VoicedSynthState, VoicingThreshold, WeightRange, L_MAX, SYNTH_WINDOW_LEN,
};
use blip25_mbe::phase_regen::{ambe_phase_regen, PHASE_KERNEL_D};

#[test]
fn synth_window_table_length_matches_constant() {
    assert_eq!((-105i32..=105).count(), SYNTH_WINDOW_LEN);
    assert_eq!(SYNTH_WINDOW_LEN, 211);
}

fn err(epsilon_0: u8, epsilon_t: u8, epsilon_4: u8) -> FrameErrorContext {
    FrameErrorContext { epsilon_0, epsilon_4, epsilon_t, bad_pitch: false }
}

/// Disposition from the previous error rate.
fn dispose(e: &FrameErrorContext, rate_prev: f64) -> (FrameDisposition, f64) {
    let rate = 0.95 * rate_prev + 0.05 * f64::from(e.epsilon_t) / 144.0;
    let repeat = f64::from(e.epsilon_t) >= 10.0 + 40.0 * rate;
    (frame_disposition(e, rate > 0.0875, repeat), rate)
}

#[test]
fn frame_disposition_clean_frame_uses() {
    let (d, er) = dispose(&err(0, 0, 0), 0.0);
    assert_eq!(d, FrameDisposition::Use);
    assert_eq!(er, 0.0);
    assert_eq!(dispose(&FrameErrorContext::default(), 0.0).0, FrameDisposition::Use);
}

#[test]
fn frame_disposition_bad_pitch_repeats() {
    let mut e = err(0, 0, 0);
    e.bad_pitch = true;
    assert_eq!(dispose(&e, 0.0).0, FrameDisposition::Repeat);
}

#[test]
fn frame_disposition_joint_error_threshold_repeats() {
    assert_eq!(dispose(&err(2, 12, 0), 0.0).0, FrameDisposition::Repeat);
    assert_eq!(dispose(&err(1, 12, 0), 0.0).0, FrameDisposition::Use);
}

#[test]
fn frame_disposition_high_error_rate_mutes() {
    let (d, _) = dispose(&err(0, 50, 0), 0.5);
    assert_eq!(d, FrameDisposition::Mute);
    assert!(emits_silence(d));
    assert!(!emits_silence(FrameDisposition::Repeat));
}

/// Smoothing of a frame around the library's decisions.
fn smooth(
    m_bar: &[f32],
    v_tilde: &[bool],
    s_e: f64,
    rate: f64,
    epsilon_t: u8,
    epsilon_4: u8,
    tau_prev: f64,
) -> (Vec<bool>, Vec<f32>, f64) {
    let v_m = match voicing_threshold(rate <= 0.005, rate <= 0.0125, epsilon_t, epsilon_4) {
        VoicingThreshold::Infinite => f64::INFINITY,
        VoicingThreshold::Falling => 45.255 * s_e.powf(0.375) / (277.26 * rate).exp(),
        VoicingThreshold::Fixed => 1.414 * s_e.powf(0.375),
    };
    let exceeds: Vec<bool> = m_bar.iter().map(|&m| f64::from(m) > v_m).collect();
    let v_bar = apply_smoothing(&exceeds, v_tilde);
    let tau_m = match amplitude_limit(rate <= 0.005, epsilon_t) {
        AmplitudeLimit::Reset => 20480.0,
        AmplitudeLimit::Shift(by) => f64::from(by) + tau_prev,
    };
    let total: f64 = m_bar.iter().map(|&m| f64::from(m)).sum();
    let gamma = if tau_m > total { 1.0 } else { tau_m / total };
    let scaled: Vec<f32> = m_bar.iter().map(|&m| (f64::from(m) * gamma) as f32).collect();
    (v_bar, scaled, tau_m)
}

#[test]
fn smoothing_low_error_uses_infinite_v_m() {
    let (v_bar, _, _) = smooth(&[1e6; 9], &[false; 9], 75000.0, 0.001, 2, 0, 20480.0);
    assert!(v_bar.iter().all(|&v| !v));
}

#[test]
fn smoothing_v_uv_override_when_amplitude_exceeds_threshold() {
    let m_bar = [1.0f32, 100.0, 1.0, 100.0, 1.0, 100.0, 1.0, 100.0, 1.0];
    let (v_bar, _, _) = smooth(&m_bar, &[false; 9], 100.0, 0.05, 10, 1, 20480.0);
    for i in 0..9 {
        assert_eq!(v_bar[i], m_bar[i] > 8.27);
    }
}

#[test]
fn smoothing_amplitude_low_error_resets_tau_m() {
    let (_, _, tau_m) = smooth(&[10.0; 9], &[true; 9], 1000.0, 0.001, 3, 0, 5000.0);
    assert_eq!(tau_m, 20480.0);
}

#[test]
fn smoothing_amplitude_recurrence_under_errors() {
    let (_, _, tau_m) = smooth(&[10.0; 9], &[true; 9], 1000.0, 0.05, 8, 1, 10000.0);
    assert!((tau_m - 13600.0).abs() < 1e-6);
}

#[test]
fn smoothing_gamma_m_is_one_when_tau_m_exceeds_amplitude_total() {
    let (_, m, _) = smooth(&[0.01; 9], &[true; 9], 1000.0, 0.001, 0, 0, 20480.0);
    assert!(m.iter().all(|&m| (m - 0.01).abs() < 1e-6));
}

#[test]
fn smoothing_gamma_m_clamps_loud_frames() {
    let (_, m, _) = smooth(&[10000.0; 9], &[true; 9], 1000.0, 0.001, 0, 0, 20480.0);
    let expected_gamma = 20480.0 / 90000.0;
    for (i, &v) in m.iter().enumerate() {
        let ratio = v / 10000.0;
        assert!((ratio - expected_gamma as f32).abs() < 1e-3, "l={}: {ratio}", i + 1);
    }
}

#[test]
fn smoothing_thresholds_at_their_limits() {
    assert_eq!(voicing_threshold(true, true, 4, 9), VoicingThreshold::Infinite);
    assert_eq!(voicing_threshold(true, true, 5, 0), VoicingThreshold::Falling);
    assert_eq!(voicing_threshold(true, true, 5, 1), VoicingThreshold::Fixed);
    assert_eq!(voicing_threshold(false, false, 0, 0), VoicingThreshold::Fixed);
    assert_eq!(amplitude_limit(true, 6), AmplitudeLimit::Reset);
    assert_eq!(amplitude_limit(true, 7), AmplitudeLimit::Shift(3900));
    assert_eq!(amplitude_limit(false, 255), AmplitudeLimit::Shift(-70500));
}

#[test]
fn low_harmonics_are_not_weighted() {
    let rules = enhance_spectral_amplitudes(false, &[WeightRange::Above; 56]);
    for (i, rule) in rules.into_iter().enumerate() {
        assert_eq!(rule, if i < 7 { EnhanceRule::Keep } else { EnhanceRule::UpperLimit });
    }
    let weights = [
        WeightRange::Above,
        WeightRange::Undefined,
        WeightRange::Below,
        WeightRange::Within,
    ];
    assert_eq!(
        enhance_spectral_amplitudes(false, &weights),
        vec![EnhanceRule::UpperLimit, EnhanceRule::Keep, EnhanceRule::LowerLimit, EnhanceRule::Weight]
    );
    assert_eq!(enhance_spectral_amplitudes(true, &weights), vec![EnhanceRule::Keep; 4]);
}

#[test]
fn lcg_first_few_values_match_recurrence() {
    let mut state: UnvoicedSynthState<f64> = UnvoicedSynthState::new(0.0);
    state.advance_window();
    assert_eq!(state.noise_window()[0], 18100);
    assert_eq!(state.noise_window()[1], 25063);
}

#[test]
fn voiced_noise_samples_extracts_from_window() {
    let mut us: UnvoicedSynthState<f64> = UnvoicedSynthState::new(0.0);
    us.advance_window();
    let n = us.voiced_noise_samples();
    assert_eq!(n.len(), L_MAX);
    for l in 1..=L_MAX {
        assert_eq!(n[l - 1], us.noise_window()[l + 104]);
    }
}

#[test]
fn noise_windows_follow_one_sequence() {
    let mut us: UnvoicedSynthState<f64> = UnvoicedSynthState::new(0.0);
    let mut u = 3147u32;
    let noise: Vec<u32> = (0..700)
        .map(|_| {
            u = (171 * u + 11213) % 53125;
            u
        })
        .collect();
    for frame in 0..4 {
        us.advance_window();
        assert_eq!(us.noise_window(), &noise[160 * frame..160 * frame + 209]);
    }
    us.store_idft(vec![1.5; 256]);
    assert_eq!(us.prev_idft()[255], 1.5);
    assert_eq!(us.noise_window()[0], noise[480]);
}

#[test]
fn overlap_covers_every_sample() {
    assert_eq!(overlap_slots(0), (Some(128), None));
    assert_eq!(overlap_slots(31), (Some(159), None));
    assert_eq!(overlap_slots(32), (Some(160), Some(0)));
    assert_eq!(overlap_slots(127), (Some(255), Some(95)));
    assert_eq!(overlap_slots(159), (None, Some(127)));
}

#[test]
fn voiced_state_init_matches_annex_a() {
    let s = VoicedSynthState::new(0.0);
    let plan = s.synthesize_voiced(&[1.0; 40], &[true; 40], &[false; 56]);
    assert_eq!(plan.len(), 40);
    for (branch, prev, curr) in plan {
        assert_eq!(branch, VoicedBranch::UvV, "nothing was voiced before");
        assert_eq!(prev, 0.0);
        assert_eq!(curr, 1.0);
    }
    assert_eq!(s.synthesize_voiced(&[], &[], &[false; 56]).len(), 30);
}

#[test]
fn voiced_all_unvoiced_produces_silence() {
    let m_bar = vec![10.0f32; 12];
    let v_bar = vec![false; 12];
    let noise = [0f64; L_MAX as usize];
    let state = VoicedSynthState::new(0.0f32);
    let moved = noise.map(|p| p != 0.0);
    let plan = state.synthesize_voiced(&m_bar, &v_bar, &moved);
    let mut pcm = [0f64; 160];
    for (l, (branch, prev, curr)) in plan.into_iter().enumerate() {
        let gain = match branch {
            VoicedBranch::UvUv => 0.0,
            VoicedBranch::VUv => prev,
            VoicedBranch::UvV => curr,
            VoicedBranch::VVSum | VoicedBranch::VVRamp => prev + curr,
        };
        for (n, s) in pcm.iter_mut().enumerate() {
            *s += f64::from(gain) * (0.2 * (l + 1) as f64 * n as f64).cos();
        }
    }
    for &s in pcm.iter() {
        assert!(s.abs() < 1e-9);
    }
}

#[test]
fn voiced_branches() {
    let mut s = VoicedSynthState::new(0);
    s.commit(&[1, 2, 3, 4, 5, 6, 7, 8, 9], &[true, false, true, false, true, true, true, true, true]);
    let mut moved = [false; 56];
    moved[4] = true;
    let plan = s.synthesize_voiced(&[11, 12, 13, 14, 15, 16, 17, 18], &[true, true, false, false, true, true, true, true], &moved);
    assert_eq!(
        plan,
        vec![
            (VoicedBranch::VVRamp, 1, 11),
            (VoicedBranch::UvV, 2, 12),
            (VoicedBranch::VUv, 3, 13),
            (VoicedBranch::UvUv, 4, 14),
            (VoicedBranch::VVSum, 5, 15),
            (VoicedBranch::VVRamp, 6, 16),
            (VoicedBranch::VVRamp, 7, 17),
            (VoicedBranch::VVSum, 8, 18),
            (VoicedBranch::VUv, 9, 0),
        ]
    );
}

#[test]
fn bands_shape_both_halves_of_the_spectrum() {
    assert_eq!(band_slots(2, 4), vec![130, 126, 131, 125]);
    assert_eq!(band_slots(127, 130), vec![255, 1, 0]);
    assert!(band_slots(4, 4).is_empty());
    assert!(band_slots(i32::MAX - 3, i32::MAX).is_empty());
    assert_eq!(band_slots(-200, -126), vec![0, 1, 255]);
    let far = shape_spectrum(&[(i32::MAX - 3, i32::MAX - 1)], &[true]);
    assert!(far[0].norm.is_empty() && far[0].slots.is_empty());
    let shapes = shape_spectrum(&[(2, 3), (3, 5)], &[true, false]);
    assert!(shapes[0].zeroed && !shapes[1].zeroed);
    assert_eq!(shapes[0].norm, vec![130, 126]);
    assert_eq!(shapes[0].slots, vec![130, 126, 131, 125]);
    assert_eq!(shapes[1].norm.len(), 4);
    assert!(outside_bands(128, 2, 5));
    assert!(!outside_bands(130, 2, 5));
    assert!(!outside_bands(124, 2, 5));
    assert!(outside_bands(133, 2, 5));
}

#[test]
fn phase_bookkeeping() {
    assert_eq!(unvoiced_count(&[true, false, false, true]), 2);
    assert!(phase_is_clean(14, 56));
    assert!(!phase_is_clean(15, 56));
    assert_eq!(PHASE_KERNEL_D, 19);
    assert_eq!(ambe_phase_regen(5, 5, 56), (Some(10), None));
    assert_eq!(ambe_phase_regen(50, 19, 56), (None, Some(31)));
    assert_eq!(ambe_phase_regen(37, 19, 56), (Some(56), Some(18)));
    assert_eq!(ambe_phase_regen(5, 5, 10), (Some(10), None));
    assert_eq!(ambe_phase_regen(5, 5, 9), (None, None), "past the harmonics of the frame");
    assert_eq!(ambe_phase_regen(9, 5, 9), (None, Some(4)));
}

fn params(omega_0: f32, l: usize, amp: f32) -> FrameParams<f32> {
    FrameParams { omega_0, voiced: vec![true; l], m_tilde: vec![amp; l] }
}

#[test]
fn synthesize_frame_advances_all_substates() {
    let mut state: SynthState<f32> = SynthState::new(0.0);
    let p = params(0.2, 9, 100.0);
    let first = synthesize_frame(&p, &FrameErrorContext::default(), false, false, &mut state);
    assert_eq!(first.disposition, FrameDisposition::Use);
    assert!(!first.silent);
    let window = state.unvoiced.noise_window().to_vec();
    assert_eq!(window[0], 18100);
    synthesize_frame(&p, &FrameErrorContext::default(), false, false, &mut state);
    assert_eq!(&state.unvoiced.noise_window()[..49], &window[160..]);
}

#[test]
fn synthesize_frame_mute_emits_silence_but_advances_state() {
    let mut state: SynthState<f32> = SynthState::new(0.0);
    let e = FrameErrorContext { epsilon_t: 100, ..Default::default() };
    let frame = synthesize_frame(&params(0.2, 9, 100.0), &e, true, true, &mut state);
    assert!(frame.silent, "Mute should output silence");
    assert_eq!(frame.disposition, FrameDisposition::Mute);
    assert_eq!(state.unvoiced.noise_window()[0], 18100);
    let m_bar = vec![100.0; 9];
    let pcm = finish_frame(&frame, &m_bar, &[true; 9], vec![1.5; 256], &[40_000; 160], &mut state);
    assert_eq!(pcm, vec![0; 160], "Mute should output silence");
    assert_eq!(state.unvoiced.prev_idft(), &[1.5; 256][..]);
    let plan = state.voiced.synthesize_voiced(&[0.0; 9], &[false; 9], &[false; 56]);
    assert_eq!(plan, vec![(VoicedBranch::VUv, 100.0, 0.0); 9]);
}

#[test]
fn finished_frames_give_their_samples() {
    let mut state: SynthState<f32> = SynthState::new(0.0);
    let p = params(0.2, 9, 100.0);
    let frame = synthesize_frame(&p, &FrameErrorContext::default(), false, false, &mut state);
    let window = state.unvoiced.noise_window().to_vec();
    let mut rounded = [7i64; 160];
    rounded[0] = 40_000;
    rounded[159] = -40_000;
    let pcm = finish_frame(&frame, &[1.0; 2], &[true, false], vec![0.5; 256], &rounded, &mut state);
    assert_eq!((pcm[0], pcm[1], pcm[159]), (32767, 7, -32768));
    assert_eq!(state.unvoiced.noise_window(), &window[..], "the noise stays");
    let again = synthesize_frame(&p, &FrameErrorContext { bad_pitch: true, ..Default::default() }, false, false, &mut state);
    assert_eq!(again.params.m_tilde, vec![100.0; 9], "so do the parameters");
}

#[test]
fn synthesize_frame_repeat_reuses_last_good() {
    let good = params(0.2, 9, 50.0);
    let other = params(0.1, 12, 1.0);
    let repeat = FrameErrorContext { bad_pitch: true, ..Default::default() };
    let mut state: SynthState<f32> = SynthState::new(0.0);
    synthesize_frame(&good, &FrameErrorContext::default(), false, false, &mut state);
    for _ in 0..3 {
        let frame = synthesize_frame(&other, &repeat, false, false, &mut state);
        assert_eq!(frame.disposition, FrameDisposition::Repeat);
        assert_eq!(frame.params.omega_0, 0.2);
        assert_eq!(frame.params.m_tilde, vec![50.0; 9]);
    }
}

#[test]
fn first_frame_is_used_whatever_its_errors() {
    let mut c: Concealment<f32> = Concealment::new();
    let driving = c.drive(&params(0.3, 4, 2.0), FrameDisposition::Repeat);
    assert_eq!(driving.omega_0, 0.3);
    let driving = c.drive(&params(0.4, 5, 3.0), FrameDisposition::Mute);
    assert_eq!(driving.omega_0, 0.3);
    let copy = driving.duplicate();
    assert_eq!(copy.m_tilde, driving.m_tilde);
    assert_eq!(copy.voiced, driving.voiced);
}

#[test]
fn pcm_from_f64_clamps_and_rounds() {
    let input = [0.0f64, 100.4, 100.6, -100.6, 50000.0, -50000.0, f64::INFINITY];
    let rounded: Vec<i64> = input.iter().map(|s| s.round() as i64).collect();
    assert_eq!(pcm_from_rounded(&rounded), vec![0, 100, 101, -101, 32767, -32768, 32767]);
}
