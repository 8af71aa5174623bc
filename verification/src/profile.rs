//! Accumulated time per stage of the encode and decode pipelines.

use vstd::prelude::*;

verus! {

/// Stages of the encode pipeline, then those of the decode pipeline.
#[derive(Clone, Copy, Debug, PartialEq, Eq, Hash, Structural)]
pub enum Stage {
    /// High-pass filter.
    Hpf,
    /// Frame energy and silence detector.
    SilenceDetect,
    /// Lookahead buffer.
    Ingest,
    /// Pitch search tables.
    PitchSearch,
    /// Pitch tracking.
    PitchTrack,
    /// Signal transform.
    SignalSpectrum,
    /// Pitch refinement.
    RefinePitch,
    /// Voicing decisions.
    Vuv,
    /// Spectral amplitudes.
    Amplitude,
    /// Matched decoder.
    MatchedDecoder,
    /// State commit.
    Tail,
    /// Dibit unpacking.
    DibitUnpack,
    /// Frame decoding.
    DecodeFrame,
    /// Dequantisation.
    Dequantize,
    /// Spectral enhancement.
    Enhance,
    /// Smoothing.
    Smoothing,
    /// Unvoiced synthesis.
    SynthUnvoiced,
    /// Voiced synthesis.
    SynthVoiced,
    /// Final mix.
    SynthMix,
}

/// Number of stages.
pub const STAGE_COUNT: usize = 19;

impl Stage {
    /// Position in pipeline order.
    pub open spec fn position(self) -> int {
        match self {
            Stage::Hpf => 0,
            Stage::SilenceDetect => 1,
            Stage::Ingest => 2,
            Stage::PitchSearch => 3,
            Stage::PitchTrack => 4,
            Stage::SignalSpectrum => 5,
            Stage::RefinePitch => 6,
            Stage::Vuv => 7,
            Stage::Amplitude => 8,
            Stage::MatchedDecoder => 9,
            Stage::Tail => 10,
            Stage::DibitUnpack => 11,
            Stage::DecodeFrame => 12,
            Stage::Dequantize => 13,
            Stage::Enhance => 14,
            Stage::Smoothing => 15,
            Stage::SynthUnvoiced => 16,
            Stage::SynthVoiced => 17,
            Stage::SynthMix => 18,
        }
    }

    /// The stage at a position in pipeline order.
    pub open spec fn at(i: int) -> Stage {
        if i == 0 {
            Stage::Hpf
        } else if i == 1 {
            Stage::SilenceDetect
        } else if i == 2 {
            Stage::Ingest
        } else if i == 3 {
            Stage::PitchSearch
        } else if i == 4 {
            Stage::PitchTrack
        } else if i == 5 {
            Stage::SignalSpectrum
        } else if i == 6 {
            Stage::RefinePitch
        } else if i == 7 {
            Stage::Vuv
        } else if i == 8 {
            Stage::Amplitude
        } else if i == 9 {
            Stage::MatchedDecoder
        } else if i == 10 {
            Stage::Tail
        } else if i == 11 {
            Stage::DibitUnpack
        } else if i == 12 {
            Stage::DecodeFrame
        } else if i == 13 {
            Stage::Dequantize
        } else if i == 14 {
            Stage::Enhance
        } else if i == 15 {
            Stage::Smoothing
        } else if i == 16 {
            Stage::SynthUnvoiced
        } else if i == 17 {
            Stage::SynthVoiced
        } else {
            Stage::SynthMix
        }
    }

    /// Position in pipeline order.
    pub fn index(self) -> (i: usize)
        ensures
            i == self.position(),
            i < STAGE_COUNT,
    {
        match self {
            Stage::Hpf => 0,
            Stage::SilenceDetect => 1,
            Stage::Ingest => 2,
            Stage::PitchSearch => 3,
            Stage::PitchTrack => 4,
            Stage::SignalSpectrum => 5,
            Stage::RefinePitch => 6,
            Stage::Vuv => 7,
            Stage::Amplitude => 8,
            Stage::MatchedDecoder => 9,
            Stage::Tail => 10,
            Stage::DibitUnpack => 11,
            Stage::DecodeFrame => 12,
            Stage::Dequantize => 13,
            Stage::Enhance => 14,
            Stage::Smoothing => 15,
            Stage::SynthUnvoiced => 16,
            Stage::SynthVoiced => 17,
            Stage::SynthMix => 18,
        }
    }

    /// All stages in pipeline order.
    pub fn all() -> (stages: [Stage; 19])
        ensures
            forall|i: int| 0 <= i < STAGE_COUNT ==> #[trigger] stages@[i] == Stage::at(i),
    {
        [
            Stage::Hpf,
            Stage::SilenceDetect,
            Stage::Ingest,
            Stage::PitchSearch,
            Stage::PitchTrack,
            Stage::SignalSpectrum,
            Stage::RefinePitch,
            Stage::Vuv,
            Stage::Amplitude,
            Stage::MatchedDecoder,
            Stage::Tail,
            Stage::DibitUnpack,
            Stage::DecodeFrame,
            Stage::Dequantize,
            Stage::Enhance,
            Stage::Smoothing,
            Stage::SynthUnvoiced,
            Stage::SynthVoiced,
            Stage::SynthMix,
        ]
    }

    /// The label of a stage.
    pub open spec fn label_text(self) -> Seq<char> {
        match self {
            Stage::Hpf => "hpf"@,
            Stage::SilenceDetect => "silence_detect"@,
            Stage::Ingest => "ingest"@,
            Stage::PitchSearch => "pitch_search"@,
            Stage::PitchTrack => "pitch_track"@,
            Stage::SignalSpectrum => "signal_spectrum"@,
            Stage::RefinePitch => "refine_pitch"@,
            Stage::Vuv => "vuv"@,
            Stage::Amplitude => "amplitude"@,
            Stage::MatchedDecoder => "matched_decoder"@,
            Stage::Tail => "tail"@,
            Stage::DibitUnpack => "dibit_unpack"@,
            Stage::DecodeFrame => "decode_frame"@,
            Stage::Dequantize => "dequantize"@,
            Stage::Enhance => "enhance"@,
            Stage::Smoothing => "smoothing"@,
            Stage::SynthUnvoiced => "synth_unvoiced"@,
            Stage::SynthVoiced => "synth_voiced"@,
            Stage::SynthMix => "synth_mix"@,
        }
    }

    /// Short label in snake case.
    pub fn label(self) -> (text: &'static str)
        ensures
            text@ == self.label_text(),
    {
        match self {
            Stage::Hpf => "hpf",
            Stage::SilenceDetect => "silence_detect",
            Stage::Ingest => "ingest",
            Stage::PitchSearch => "pitch_search",
            Stage::PitchTrack => "pitch_track",
            Stage::SignalSpectrum => "signal_spectrum",
            Stage::RefinePitch => "refine_pitch",
            Stage::Vuv => "vuv",
            Stage::Amplitude => "amplitude",
            Stage::MatchedDecoder => "matched_decoder",
            Stage::Tail => "tail",
            Stage::DibitUnpack => "dibit_unpack",
            Stage::DecodeFrame => "decode_frame",
            Stage::Dequantize => "dequantize",
            Stage::Enhance => "enhance",
            Stage::Smoothing => "smoothing",
            Stage::SynthUnvoiced => "synth_unvoiced",
            Stage::SynthVoiced => "synth_voiced",
            Stage::SynthMix => "synth_mix",
        }
    }
}

/// Positions and stages correspond one to one.
pub proof fn law_stage_order(stage: Stage, i: int)
    requires
        0 <= i < STAGE_COUNT,
    ensures
        0 <= stage.position() < STAGE_COUNT,
        Stage::at(stage.position()) == stage,
        Stage::at(i).position() == i,
{
}

/// Accumulated time per stage, with frame counts.
#[derive(Clone, Copy, Debug)]
pub struct Timings {
    /// Nanoseconds per stage, in pipeline order.
    pub total_ns: [u64; 19],
    /// Encoded frames; counted at the high-pass filter.
    pub frames: u64,
    /// Decoded frames; counted at dibit unpacking.
    pub decode_frames: u64,
}

/// The sum of the first `n` entries.
pub open spec fn sum_upto(ns: Seq<u64>, n: int) -> int
    decreases n,
{
    if n <= 0 { 0 } else { sum_upto(ns, n - 1) + ns[n - 1] }
}

/// `a + b`, held at the largest 64-bit value.
pub open spec fn held_sum(a: u64, b: u64) -> u64 {
    if a + b > u64::MAX { u64::MAX } else { (a + b) as u64 }
}

proof fn lemma_sum_monotone(ns: Seq<u64>, m: int, n: int)
    requires
        m <= n,
    ensures
        sum_upto(ns, m) <= sum_upto(ns, n),
    decreases n - m,
{
    if m < n {
        lemma_sum_monotone(ns, m, n - 1);
    }
}

impl Timings {
    /// Nothing recorded.
    pub open spec fn is_zero(self) -> bool {
        &&& self.total_ns@ == Seq::new(19, |i: int| 0u64)
        &&& self.frames == 0
        &&& self.decode_frames == 0
    }

    /// Each stage with its time, in pipeline order.
    pub fn entries(&self) -> (entries: Vec<(Stage, u64)>)
        ensures
            entries@.len() == STAGE_COUNT,
            forall|i: int|
                0 <= i < STAGE_COUNT ==> #[trigger] entries@[i] == (
                    Stage::at(i),
                    self.total_ns@[i],
                ),
    {
        let stages = Stage::all();
        let mut entries: Vec<(Stage, u64)> = Vec::new();
        let mut i: usize = 0;
        while i < STAGE_COUNT
            invariant
                i <= STAGE_COUNT,
                forall|j: int| 0 <= j < STAGE_COUNT ==> #[trigger] stages@[j] == Stage::at(j),
                entries@.len() == i,
                forall|j: int|
                    0 <= j < i ==> #[trigger] entries@[j] == (Stage::at(j), self.total_ns@[j]),
            decreases STAGE_COUNT - i,
        {
            entries.push((stages[i], self.total_ns[i]));
            i = i + 1;
        }
        entries
    }

    /// Time over all stages.
    pub fn total_ns_sum(&self) -> (sum: u64)
        requires
            sum_upto(self.total_ns@, 19) <= u64::MAX,
        ensures
            sum == sum_upto(self.total_ns@, 19),
    {
        let mut sum: u64 = 0;
        let mut i: usize = 0;
        while i < STAGE_COUNT
            invariant
                i <= STAGE_COUNT,
                sum == sum_upto(self.total_ns@, i as int),
                sum_upto(self.total_ns@, 19) <= u64::MAX,
            decreases STAGE_COUNT - i,
        {
            proof {
                lemma_sum_monotone(self.total_ns@, i + 1, 19);
            }
            sum = sum + self.total_ns[i];
            i = i + 1;
        }
        sum
    }
}

impl Default for Timings {
    fn default() -> (timings: Self)
        ensures
            timings.is_zero(),
    {
        let timings = Timings { total_ns: [0;19], frames: 0, decode_frames: 0 };
        assert(timings.total_ns@ =~= Seq::new(19, |i: int| 0u64));
        timings
    }
}

/// Adds the time that a run of `stage` took.  A run of the first encode stage
/// counts an encoded frame, a run of the first decode stage a decoded one.
pub fn time(timings: &mut Timings, stage: Stage, elapsed_ns: u64)
    ensures
        final(timings).total_ns@ == old(timings).total_ns@.update(
            stage.position(),
            held_sum(old(timings).total_ns@[stage.position()], elapsed_ns),
        ),
        final(timings).frames == if stage == Stage::Hpf {
            held_sum(old(timings).frames, 1)
        } else {
            old(timings).frames
        },
        final(timings).decode_frames == if stage == Stage::DibitUnpack {
            held_sum(old(timings).decode_frames, 1)
        } else {
            old(timings).decode_frames
        },
{
    let i: usize = stage.index();
    timings.total_ns[i] = timings.total_ns[i].saturating_add(elapsed_ns);
    match stage {
        Stage::Hpf => {
            timings.frames = timings.frames.saturating_add(1);
        },
        Stage::DibitUnpack => {
            timings.decode_frames = timings.decode_frames.saturating_add(1);
        },
        _ => {},
    }
}

/// A copy of what has been recorded.
pub fn snapshot(timings: &Timings) -> (copy: Timings)
    ensures
        copy == *timings,
{
    *timings
}

/// Forgets everything recorded.
pub fn reset(timings: &mut Timings)
    ensures
        final(timings).is_zero(),
{
    *timings = Timings::default();
}

/// The sum over the first stages is their times added up one after the other.
pub proof fn law_sum_of_stages(ns: Seq<u64>, n: int)
    requires
        0 <= n < ns.len(),
    ensures
        sum_upto(ns, 0) == 0,
        sum_upto(ns, n + 1) == sum_upto(ns, n) + ns[n],
        0 <= sum_upto(ns, n),
        sum_upto(ns, n + 1) == ns.take(n + 1).fold_left(0int, |sum: int, t: u64| sum + t),
    decreases n,
{
    let plus = |sum: int, t: u64| sum + t;
    let taken = ns.take(n + 1);
    assert(taken.drop_last() =~= ns.take(n));
    assert(taken.last() == ns[n]);
    reveal_with_fuel(Seq::fold_left, 2);
    if n > 0 {
        law_sum_of_stages(ns, n - 1);
        assert(taken.fold_left(0int, plus) == plus(ns.take(n).fold_left(0int, plus), ns[n]));
    } else {
        assert(ns.take(0) =~= Seq::<u64>::empty());
        assert(taken.fold_left(0int, plus) == plus(ns.take(0).fold_left(0int, plus), ns[0]));
    }
}

/// A run of a stage adds to that stage's time and to no other's, and never lowers
/// it; where the sum fits, it adds exactly the time taken.
pub proof fn law_time_adds_to_one_stage(
    before: Seq<u64>,
    after: Seq<u64>,
    stage: Stage,
    other: Stage,
    elapsed: u64,
)
    requires
        before.len() == STAGE_COUNT,
        after == before.update(
            stage.position(),
            held_sum(before[stage.position()], elapsed),
        ),
    ensures
        other != stage ==> after[other.position()] == before[other.position()],
        after[stage.position()] >= before[stage.position()],
        before[stage.position()] + elapsed <= u64::MAX ==> after[stage.position()]
            == before[stage.position()] + elapsed,
        before[stage.position()] + elapsed > u64::MAX ==> after[stage.position()] == u64::MAX,
{
    law_stage_order(stage, 0);
    law_stage_order(other, 0);
    if other != stage {
        assert(Stage::at(other.position()) == other);
        assert(Stage::at(stage.position()) == stage);
    }
}

/// The encode stages come first, from the high-pass filter on, and the decode stages
/// after them, from dibit unpacking to the mix.
pub proof fn law_pipeline_order()
    ensures
        Stage::Hpf.position() == 0,
        Stage::Tail.position() + 1 == Stage::DibitUnpack.position(),
        Stage::SynthMix.position() + 1 == STAGE_COUNT,
        Stage::Hpf.position() < Stage::SilenceDetect.position() < Stage::Ingest.position()
            < Stage::PitchSearch.position() < Stage::PitchTrack.position()
            < Stage::SignalSpectrum.position() < Stage::RefinePitch.position()
            < Stage::Vuv.position() < Stage::Amplitude.position() < Stage::MatchedDecoder.position()
            < Stage::Tail.position(),
        Stage::DibitUnpack.position() < Stage::DecodeFrame.position() < Stage::Dequantize.position()
            < Stage::Enhance.position() < Stage::Smoothing.position()
            < Stage::SynthUnvoiced.position() < Stage::SynthVoiced.position()
            < Stage::SynthMix.position(),
{
}

} // verus!
