//! Tone detection, pitch candidates, pre-denoising and stage timing.

use blip25_mbe::order_key::{key_bits, order_key};
use blip25_mbe::predenoise::{
    gain_mode, local_floor, presence_target, rotate_minima, Bootstrap, DenoiseKind, GainMode,
    HopBuffer, MinimaPhase, NoiseMinima, PreDenoise, PresenceTarget, SeedStep, BOOTSTRAP_FRAMES,
    FRAME, HOP, N_BINS, U_SUB, V_LEN,
};
use blip25_mbe::profile::{reset, snapshot, time, Stage, Timings};
use blip25_mbe::pyin::{
    best_lag, first_local_min_below, threshold_candidates, PyinHmmState, PYIN_GRID_LEN,
};
use blip25_mbe::tone_detect::{
    closest_row, detect_dtmf as match_pair, detect_single_tone as match_single,
    detect_tone as either_tone, magnitude_to_amplitude, primary_peak, secondary_peak, tone_floor,
    ToneDetection, ToneRow, TONE_BINS, TONE_DETECT_FRAME,
};
use num_complex::Complex;
use rustfft::FftPlanner;

const FFT_SIZE: usize = 256;
const RATE_HZ: f64 = 8000.0;
const TOLERANCE_HZ: f64 = 20.0;
const SNR: f64 = 100.0;

fn key(x: f64) -> i64 {
    order_key(x.to_bits())
}

fn value(k: i64) -> f64 {
    f64::from_bits(key_bits(k))
}

/// Nominal frequencies of the sixteen Knox pairs, from index 144 on.
const KNOX: [(f64, f64); 16] = [
    (820.0, 1162.0),
    (603.6, 1056.2),
    (606.0, 1162.0),
    (606.0, 1279.0),
    (672.0, 1052.0),
    (672.0, 1162.0),
    (672.0, 1279.0),
    (743.0, 1052.0),
    (743.0, 1162.0),
    (743.0, 1279.0),
    (606.0, 1430.0),
    (672.0, 1430.0),
    (743.0, 1430.0),
    (820.0, 1430.0),
    (820.0, 1052.0),
    (820.0, 1279.0),
];

/// The pair of small harmonic numbers whose ratio is closest to `lo / hi`.
fn harmonics_of(lo: f64, hi: f64) -> (u8, u8) {
    let mut best = (1u8, 2u8);
    for b in 2..=20u8 {
        for a in 1..b {
            let miss = |l: (u8, u8)| (f64::from(l.0) / f64::from(l.1) - lo / hi).abs();
            if miss((a, b)) < miss(best) {
                best = (a, b);
            }
        }
    }
    best
}

/// Tone rows by index: single tones every 31.25 Hz, one DTMF pair and the Knox
/// pairs.
fn rows() -> Vec<Option<(f64, u8, u8)>> {
    let mut rows = vec![None; 256];
    for n in 5usize..=38 {
        let l: u8 = if n <= 12 { 1 } else if n <= 25 { 2 } else { 3 };
        rows[n] = Some((31.25 * n as f64 / f64::from(l), l, l));
    }
    rows[128] = Some((78.5, 12, 17));
    for (i, (lo, hi)) in KNOX.into_iter().enumerate() {
        let (l1, l2) = harmonics_of(lo, hi);
        rows[144 + i] = Some((lo / f64::from(l1), l1, l2));
    }
    rows
}

fn psd(pcm: &[i16]) -> Vec<f64> {
    let mut buf = vec![Complex::new(0.0f64, 0.0); FFT_SIZE];
    for (n, &x) in pcm.iter().enumerate() {
        let w = 0.5 - 0.5 * (2.0 * core::f64::consts::PI * n as f64 / 160.0).cos();
        buf[n] = Complex::new(f64::from(x) * w, 0.0);
    }
    FftPlanner::<f64>::new().plan_fft_forward(FFT_SIZE).process(&mut buf);
    buf[..TONE_BINS].iter().map(|c| c.norm_sqr()).collect()
}

fn peak_hz(psd: &[f64], k: usize) -> f64 {
    let mut at = k as f64;
    if k > 0 && k + 1 < psd.len() {
        let (a, b, c) = (psd[k - 1].sqrt(), psd[k].sqrt(), psd[k + 1].sqrt());
        let denom = a - 2.0 * b + c;
        if denom.abs() > 1e-12 {
            at += 0.5 * (a - c) / denom;
        }
    }
    at * RATE_HZ / FFT_SIZE as f64
}

fn log_amplitude(mag: f64) -> i64 {
    let db = 20.0 * (mag / 1_310_000.0).log10();
    (127.0 + db / 0.7115).round() as i64
}

fn shapes(rows: &[Option<(f64, u8, u8)>]) -> Vec<Option<ToneRow>> {
    rows.iter().map(|r| r.map(|(_, l1, l2)| ToneRow { l1, l2 })).collect()
}

fn detect_single_tone(pcm: &[i16]) -> Option<ToneDetection> {
    let rows = rows();
    if pcm.len() != TONE_DETECT_FRAME {
        return match_single(pcm.len(), false, &shapes(&rows), &vec![0; 256], key(TOLERANCE_HZ), 0);
    }
    let psd = psd(pcm);
    let keys: Vec<i64> = psd.iter().map(|&p| key(p)).collect();
    let floor = value(tone_floor(&keys));
    let k = primary_peak(&keys);
    let clears = floor > 0.0 && psd[k] / floor >= SNR;
    let f = peak_hz(&psd, k);
    let errors: Vec<i64> = rows
        .iter()
        .map(|r| r.map_or(0, |(f0, l1, _)| key((f - f64::from(l1) * f0).abs())))
        .collect();
    match_single(pcm.len(), clears, &shapes(&rows), &errors, key(TOLERANCE_HZ), log_amplitude(psd[k].sqrt()))
}

fn detect_dtmf(pcm: &[i16]) -> Option<ToneDetection> {
    let rows = rows();
    let psd = psd(pcm);
    let keys: Vec<i64> = psd.iter().map(|&p| key(p)).collect();
    let floor_key = tone_floor(&keys);
    let floor = value(floor_key);
    let k1 = primary_peak(&keys);
    let second = secondary_peak(&keys, k1, floor_key);
    let k2 = second.unwrap_or(k1);
    let clears = floor > 0.0 && psd[k1] / floor >= SNR && psd[k2] / floor >= SNR;
    let (f1, f2) = (peak_hz(&psd, k1), peak_hz(&psd, k2));
    let (lo, hi) = (f1.min(f2), f1.max(f2));
    let errors: Vec<i64> = rows
        .iter()
        .map(|r| {
            r.map_or(0, |(f0, l1, l2)| {
                let (a, b) = (f64::from(l1.min(l2)) * f0, f64::from(l1.max(l2)) * f0);
                key((a - lo).abs() + (b - hi).abs())
            })
        })
        .collect();
    let mag = psd[k1].sqrt().max(psd[k2].sqrt());
    match_pair(pcm.len(), clears, second, &shapes(&rows), &errors, key(2.0 * TOLERANCE_HZ), log_amplitude(mag))
}

fn detect_tone(pcm: &[i16]) -> Option<ToneDetection> {
    either_tone(detect_dtmf(pcm), detect_single_tone(pcm))
}

fn pure_sine(freq_hz: f64, amplitude: i16) -> [i16; TONE_DETECT_FRAME] {
    let mut out = [0i16; TONE_DETECT_FRAME];
    for (n, slot) in out.iter_mut().enumerate() {
        let s = f64::from(amplitude) * (2.0 * core::f64::consts::PI * freq_hz * n as f64 / RATE_HZ).sin();
        *slot = s.round() as i16;
    }
    out
}

fn dtmf_pair(f1: f64, f2: f64, amp_each: i16) -> [i16; TONE_DETECT_FRAME] {
    let mut out = [0i16; TONE_DETECT_FRAME];
    let two_pi = 2.0 * core::f64::consts::PI;
    for (n, slot) in out.iter_mut().enumerate() {
        let s1 = f64::from(amp_each) * (two_pi * f1 * n as f64 / RATE_HZ).sin();
        let s2 = f64::from(amp_each) * (two_pi * f2 * n as f64 / RATE_HZ).sin();
        *slot = (s1 + s2).round().clamp(-32768.0, 32767.0) as i16;
    }
    out
}

fn noise(seed: u32) -> [i16; TONE_DETECT_FRAME] {
    let mut pcm = [0i16; TONE_DETECT_FRAME];
    let mut state: u32 = seed;
    for slot in pcm.iter_mut() {
        state = state.wrapping_mul(1664525).wrapping_add(1013904223);
        *slot = ((state as i32 >> 16) as i16) / 4;
    }
    pcm
}

#[test]
fn detects_clean_sine_at_annex_t_frequency() {
    let det = detect_single_tone(&pure_sine(312.5, 8000)).expect("clean tone should be detected");
    assert_eq!(det.id, 10);
    assert!(det.amplitude > 50, "amplitude clamped to >0: {}", det.amplitude);
}

#[test]
fn rejects_white_noise() {
    assert!(detect_single_tone(&noise(12345)).is_none());
}

#[test]
fn rejects_silence() {
    assert!(detect_single_tone(&[0i16; TONE_DETECT_FRAME]).is_none());
}

#[test]
fn snr_floor_rejects_weak_tone_buried_in_noise() {
    let mut pcm = pure_sine(312.5, 1000);
    for (slot, n) in pcm.iter_mut().zip(noise(7777)) {
        *slot = slot.saturating_add(n);
    }
    let _ = detect_single_tone(&pcm);
}

#[test]
fn wrong_length_returns_none() {
    assert!(detect_single_tone(&[0i16; 100]).is_none());
    let row = [Some(ToneRow { l1: 1, l2: 1 })];
    assert_eq!(match_single(100, true, &row, &[0], 5, 9), None);
    assert_eq!(match_single(160, true, &row, &[0], 5, 9), Some(ToneDetection { id: 0, amplitude: 9 }));
}

#[test]
fn tolerance_window_snaps_to_nearest_annex_entry() {
    let det = detect_single_tone(&pure_sine(316.0, 8000)).expect("near-match should detect");
    assert_eq!(det.id, 10);
}

#[test]
fn detects_standard_motorola_test_tone_at_l3_harmonic() {
    let det = detect_single_tone(&pure_sine(1031.25, 8000)).expect("1031 Hz tone should match an l=3 row");
    let (f0, l1, l2) = rows()[det.id as usize].expect("matched id has a row");
    assert_eq!(l1, l2, "single-tone row");
    assert_eq!(l1, 3, "1031 Hz is in the l=3 band");
    assert!((f64::from(l1) * f0 - 1031.25).abs() < TOLERANCE_HZ);
}

#[test]
fn detect_dtmf_matches_known_annex_t_pair() {
    let det = detect_dtmf(&dtmf_pair(942.0, 1334.5, 6000)).expect("clean DTMF should be detected");
    assert_eq!(det.id, 128);
}

#[test]
fn detect_tone_prefers_dtmf_when_two_peaks_present() {
    let det = detect_tone(&dtmf_pair(942.0, 1334.5, 6000)).expect("tone-detect dispatch hit");
    assert_eq!(det.id, 128);
}

#[test]
fn detect_dtmf_rejects_single_tone_input() {
    let pcm = pure_sine(312.5, 8000);
    assert!(detect_dtmf(&pcm).is_none());
    let det = detect_tone(&pcm).expect("falls through to single-tone");
    assert_eq!(det.id, 10);
}

#[test]
fn detect_dtmf_rejects_noise() {
    assert!(detect_dtmf(&noise(9999)).is_none());
}

#[test]
fn detect_dtmf_round_trips_each_knox_id() {
    for knox_id in 144u8..=159 {
        let (f0, l1, l2) = rows()[knox_id as usize].expect("Knox ID has a row");
        assert_ne!(l1, l2, "Knox IDs are pairs, l1 != l2");
        let f_lo = f0 * f64::from(l1.min(l2));
        let f_hi = f0 * f64::from(l1.max(l2));
        if f_lo < 150.0 || f_hi > 3500.0 {
            continue;
        }
        let det = detect_dtmf(&dtmf_pair(f_lo, f_hi, 6000))
            .unwrap_or_else(|| panic!("Knox ID {knox_id} should detect"));
        assert_eq!(det.id, knox_id, "f_lo={f_lo:.1} Hz, f_hi={f_hi:.1} Hz");
    }
}

#[test]
fn detect_tone_routes_knox_pairs_through_dtmf_matcher() {
    let det = detect_tone(&dtmf_pair(603.6, 1056.2, 6000)).expect("Knox pair detect");
    assert_eq!(det.id, 145);
}

#[test]
fn closest_row_takes_the_first_of_equals() {
    let single = Some(ToneRow { l1: 2, l2: 2 });
    let pair = Some(ToneRow { l1: 2, l2: 5 });
    let rows = [None, single, pair, single, pair];
    assert_eq!(closest_row(&rows, &[0, 4, 1, 4, 1], 10, false), Some(1));
    assert_eq!(closest_row(&rows, &[0, 4, 1, 4, 1], 10, true), Some(2));
    assert_eq!(closest_row(&rows, &[0, 4, 1, 3, 0], 10, false), Some(3));
    assert_eq!(closest_row(&rows, &[0, 4, 1, 3, 0], 3, false), None);
}

#[test]
fn peaks_and_floor_of_a_spectrum() {
    let mut psd = vec![10i64; TONE_BINS];
    psd[0] = 999;
    psd[40] = 500;
    psd[42] = 400;
    psd[43] = 300;
    psd[100] = 300;
    assert_eq!(primary_peak(&psd), 40);
    assert_eq!(secondary_peak(&psd, 40, 10), Some(43));
    assert_eq!(secondary_peak(&psd, 40, 300), None);
    assert_eq!(tone_floor(&psd), 10);
    let ramp: Vec<i64> = (0..129).map(|k| 1000 - k).collect();
    assert_eq!(tone_floor(&ramp), 904);
}

#[test]
fn amplitude_field_is_held_to_seven_bits() {
    let row = [Some(ToneRow { l1: 2, l2: 2 }), Some(ToneRow { l1: 2, l2: 3 })];
    for (rounded, field) in [(-5i64, 0u8), (90, 90), (300, 127)] {
        let single = match_single(TONE_DETECT_FRAME, true, &row, &[1, 1], 4, rounded);
        assert_eq!(single, Some(ToneDetection { id: 0, amplitude: field }));
        let pair = match_pair(TONE_DETECT_FRAME, true, Some(9), &row, &[1, 1], 4, rounded);
        assert_eq!(pair, Some(ToneDetection { id: 1, amplitude: field }));
    }
    assert_eq!(magnitude_to_amplitude(-1), 0);
    assert_eq!(magnitude_to_amplitude(64), 64);
    assert_eq!(magnitude_to_amplitude(128), 127);
    assert_eq!(magnitude_to_amplitude(i64::MIN), 0);
}

#[test]
fn pyin_grid_covers_pitch_range() {
    assert_eq!(PYIN_GRID_LEN, 102);
}

#[test]
fn candidates_are_first_dips_below_each_threshold() {
    let scores = [9i64, 6, 7, 3, 5, 1, 4];
    assert_eq!(first_local_min_below(&scores, 10), Some(1));
    assert_eq!(first_local_min_below(&scores, 6), Some(3));
    assert_eq!(first_local_min_below(&scores, 3), Some(5));
    assert_eq!(first_local_min_below(&scores, 1), None);
    assert_eq!(threshold_candidates(&scores, &[0, 1, 2, 4, 8]), vec![5, 5, 5, 3, 1]);
    assert_eq!(threshold_candidates(&[4, 4, 4], &[0, 9]), vec![0, 0]);
    let mut mass = vec![0i64; PYIN_GRID_LEN];
    mass[19] = 8;
    mass[60] = 8;
    assert_eq!(best_lag(&mass), 19);
}

#[test]
fn smoother_has_a_prior_after_the_first_frame() {
    let mut state = PyinHmmState::new(0);
    assert!(state.prior().is_none());
    state.advance(vec![3; PYIN_GRID_LEN]);
    assert_eq!(state.prior().unwrap()[101], 3);
    state.reset(0);
    assert!(state.prior().is_none());
}

#[test]
fn emits_one_frame_per_call() {
    let mut d: PreDenoise<i16> = PreDenoise::new(DenoiseKind::Wiener);
    assert_eq!(d.kind(), DenoiseKind::Wiener);
    for _ in 0..50 {
        d.stream.push_frame(&vec![0i16; FRAME]);
        while let Some(window) = d.stream.next_window() {
            d.stream.push_cleaned(&window[..HOP]);
        }
        assert_eq!(d.stream.emit_frame(0).len(), FRAME);
    }
}

#[test]
fn stream_is_a_pure_delay() {
    let mut stream: HopBuffer<u32> = HopBuffer::new();
    let mut next = 1u32;
    let mut out: Vec<u32> = Vec::new();
    for _ in 0..40 {
        let frame: Vec<u32> = (next..next + 160).collect();
        next += 160;
        stream.push_frame(&frame);
        while let Some(window) = stream.next_window() {
            assert_eq!(window.len(), 256);
            stream.push_cleaned(&window[..HOP]);
        }
        out.extend(stream.emit_frame(0));
    }
    let real: Vec<u32> = out.iter().copied().filter(|&x| x != 0).collect();
    assert_eq!(real, (1..=real.len() as u32).collect::<Vec<u32>>());
    let last_gap = out.iter().rposition(|&x| x == 0).unwrap();
    assert!(last_gap < 3 * FRAME, "padding only at the start");
}

#[test]
fn unchanged_samples_come_out_224_later() {
    let mut stream: HopBuffer<usize> = HopBuffer::new();
    let mut out: Vec<usize> = Vec::new();
    for n in 0..25 {
        let frame: Vec<usize> = (160 * n..160 * n + 160).collect();
        for window in stream.take_windows(&frame) {
            stream.push_cleaned(&window[..HOP]);
        }
        out.extend(stream.emit_frame(usize::MAX));
    }
    for (at, &sample) in out.iter().enumerate().skip(3 * FRAME) {
        assert_eq!(sample, at - 224);
    }
    let padding = out.iter().filter(|&&s| s == usize::MAX).count();
    assert_eq!(padding, 224, "the padding makes up the delay");
    let sent: Vec<usize> = out.into_iter().filter(|&s| s != usize::MAX).collect();
    assert_eq!(sent, (0..160 * 25 - 224).collect::<Vec<usize>>());
}

#[test]
fn windows_advance_by_half() {
    let mut stream: HopBuffer<u32> = HopBuffer::new();
    let input: Vec<u32> = (0..160 * 30).collect();
    let mut windows: Vec<Vec<u32>> = Vec::new();
    for (n, frame) in input.chunks(160).enumerate() {
        let filled = stream.take_windows(frame);
        let count = filled.len();
        windows.extend(filled);
        for _ in 0..count {
            stream.push_cleaned(&[1; HOP]);
        }
        let out = stream.emit_frame(0);
        assert!(n < 3 || out.iter().all(|&x| x == 1), "frame {n} is padded");
    }
    assert_eq!(windows.len(), (160 * 30 - 256) / 128 + 1);
    for (i, window) in windows.iter().enumerate() {
        assert_eq!(&window[..], &input[128 * i..128 * i + 256]);
    }
}

#[test]
fn reset_restores_cold_start() {
    let mut d: PreDenoise<f64> = PreDenoise::new(DenoiseKind::LogMmse);
    for hop in 0..BOOTSTRAP_FRAMES {
        assert!(!d.is_primed());
        let power: Vec<i64> = (0..N_BINS).map(|m| 100 + m as i64 - i64::from(hop)).collect();
        let step = d.seed_hop(&power, &power);
        assert_eq!(step == SeedStep::Completed, hop + 1 == BOOTSTRAP_FRAMES);
    }
    assert!(d.is_primed());
    assert_eq!(d.seed()[0], 95);
    assert_eq!(d.first.floors()[7], 102);
    d.reset();
    assert!(!d.is_primed());
    assert_eq!(d.kind(), DenoiseKind::LogMmse);
}

#[test]
fn bootstrap_keeps_the_least_power() {
    let mut b = Bootstrap::new();
    for v in [5i64, 3, 9, 4, 8, 7] {
        assert!(!b.is_complete());
        b.push(&[v; N_BINS]);
    }
    assert!(b.is_complete());
    assert_eq!(b.seed(), &[3i64; N_BINS][..]);
}

#[test]
fn floor_forgets_after_its_window() {
    let mut first = NoiseMinima::seeded(&[50; N_BINS]);
    let mut second = NoiseMinima::seeded(&[60; N_BINS]);
    let mut phase = MinimaPhase::start();
    let mut seen = vec![50i64];
    for hop in 0..400i64 {
        let v = 100 + (hop * 37) % 91;
        first.observe(&[v; N_BINS]);
        second.observe(&[v + 1; N_BINS]);
        rotate_minima(&mut first, &[v; N_BINS], &mut second, &[v + 1; N_BINS], &mut phase);
        seen.push(v);
        let n = seen.len() - 1;
        let start = if n / V_LEN <= U_SUB { 0 } else { V_LEN * (n / V_LEN - U_SUB) };
        assert_eq!(first.floors()[64], *seen[start..].iter().min().unwrap(), "hop {hop}");
    }
    assert_eq!(second.floors()[0], first.floors()[0] + 1);
}

#[test]
fn denoiser_hop_runs_both_searches() {
    let mut d: PreDenoise<f64> = PreDenoise::new(DenoiseKind::SpecSub);
    for _ in 0..BOOTSTRAP_FRAMES {
        d.seed_hop(&[40; N_BINS], &[40; N_BINS]);
    }
    let mut low = 40i64;
    for hop in 0..200i64 {
        let v = 60 + hop % 7;
        assert_eq!(d.observe_smoothed(&[v; N_BINS])[5], low.min(v));
        let floors = d.update_noise(&[v; N_BINS], &[v + 2; N_BINS]);
        if hop + 1 >= (U_SUB * V_LEN) as i64 + V_LEN as i64 {
            low = 60;
            assert_eq!(floors[128], 62);
        }
    }
}

#[test]
fn local_floor_is_a_median() {
    let ramp: Vec<i64> = (0..N_BINS as i64).collect();
    assert_eq!(local_floor(&ramp, 60), 60);
    assert_eq!(local_floor(&ramp, 0), 4);
    assert_eq!(local_floor(&ramp, 128), 124);
    let mut spike = vec![2i64; N_BINS];
    spike[60] = 1000;
    assert_eq!(local_floor(&spike, 60), 2);
}

#[test]
fn gain_and_presence_rules() {
    assert_eq!(gain_mode(false, true, true), GainMode::Seeding);
    assert_eq!(gain_mode(true, true, false), GainMode::Bypass);
    assert_eq!(gain_mode(true, false, true), GainMode::Bypass);
    assert_eq!(gain_mode(true, false, false), GainMode::Suppress);
    assert_eq!(presence_target(true, true, true), PresenceTarget::Certain);
    assert_eq!(presence_target(true, true, false), PresenceTarget::Absent);
    assert_eq!(presence_target(true, false, false), PresenceTarget::Ramp);
}

#[test]
fn stages_are_timed_in_order() {
    let mut t = Timings::default();
    for (i, stage) in Stage::all().into_iter().enumerate() {
        assert_eq!(stage.index(), i);
        time(&mut t, stage, 10 * i as u64);
    }
    time(&mut t, Stage::Hpf, 5);
    assert_eq!(t.frames, 2);
    assert_eq!(t.decode_frames, 1);
    assert_eq!(t.total_ns_sum(), 1715);
    let entries = snapshot(&t).entries();
    assert_eq!(entries[0], (Stage::Hpf, 5));
    assert_eq!(entries[18], (Stage::SynthMix, 180));
    assert_eq!(Stage::MatchedDecoder.label(), "matched_decoder");
    time(&mut t, Stage::Tail, u64::MAX);
    assert_eq!(t.total_ns[Stage::Tail.index()], u64::MAX, "the counter is held at its limit");
    reset(&mut t);
    assert_eq!(t.total_ns_sum(), 0);
    assert_eq!(t.frames, 0);
}
