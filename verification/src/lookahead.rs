//! The rolling buffer of three frames that the encoder analyses.
//!
//! The first frame is the one being analysed, the other two are the future
//! frames that pitch tracking looks at.  Reads outside the buffer give zero.

use vstd::prelude::*;

verus! {

/// Samples per frame.
pub const SAMPLES_PER_FRAME: usize = 160;

/// Samples in the buffer.
pub const LOOKAHEAD_LEN: usize = 480;

/// Samples of the window from which one frame's pitch is searched.
pub const PITCH_INPUT_LEN: usize = 321;

/// Samples of the window from which the spectrum is taken.
pub const REFINEMENT_LEN: usize = 221;

/// Samples of the zero-extended buffer that the shared low-pass filter reads.
pub const PADDED_LEN: usize = 641;

/// Samples that the shared low-pass filter gives.
pub const SHARED_LPF_LEN: usize = 621;

/// Samples of the filtered signal that one frame's pitch search reads.
pub const SLOT_LPF_LEN: usize = 301;

/// Rolling sample buffer.
#[derive(Clone, Debug)]
pub struct Lookahead<T> {
    samples: Vec<T>,
    fill: u8,
    zero: T,
}

/// Sample `at` of `samples`, or `zero` outside.
pub open spec fn extended<T>(samples: Seq<T>, zero: T, at: int) -> T {
    if 0 <= at < samples.len() { samples[at] } else { zero }
}

/// The buffer contents after `frame` comes in when `fill` frames were in it: the
/// frame goes behind those until there are three; after that the oldest leaves.
pub open spec fn ingested<T>(samples: Seq<T>, fill: int, frame: Seq<T>) -> Seq<T> {
    if fill < 3 {
        samples.take(160 * fill) + frame + samples.skip(160 * fill + 160)
    } else {
        samples.skip(160) + frame
    }
}

impl<T: Copy> Lookahead<T> {
    /// The buffered samples, oldest first.
    pub closed spec fn samples(self) -> Seq<T> {
        self.samples@
    }

    /// Frames placed so far, at most three.
    pub closed spec fn fill(self) -> int {
        self.fill as int
    }

    /// The sample that stands for silence.
    pub closed spec fn zero(self) -> T {
        self.zero
    }

    /// The buffer has its size.
    pub closed spec fn wf(self) -> bool {
        self.samples@.len() == LOOKAHEAD_LEN && self.fill <= 3
    }

    /// Sample `at` of the buffer, or zero outside.
    pub open spec fn sample(self, at: int) -> T {
        extended(self.samples(), self.zero(), at)
    }

    /// An empty buffer.
    pub fn new(zero: T) -> (buffer: Self)
        ensures
            buffer.wf(),
            buffer.fill() == 0,
            buffer.zero() == zero,
            buffer.samples() == Seq::new(480, |i: int| zero),
    {
        let mut samples: Vec<T> = Vec::new();
        let mut i: usize = 0;
        while i < LOOKAHEAD_LEN
            invariant
                i <= LOOKAHEAD_LEN,
                samples@.len() == i,
                forall|j: int| 0 <= j < i ==> samples@[j] == zero,
            decreases LOOKAHEAD_LEN - i,
        {
            samples.push(zero);
            i = i + 1;
        }
        assert(samples@ =~= Seq::new(480, |i: int| zero));
        Lookahead { samples, fill: 0, zero }
    }

    /// Takes a frame of 160 samples.
    pub fn ingest_frame(&mut self, frame: &[T])
        requires
            old(self).wf(),
            frame@.len() == SAMPLES_PER_FRAME,
        ensures
            final(self).wf(),
            final(self).zero() == old(self).zero(),
            final(self).fill() == if old(self).fill() < 3 { old(self).fill() + 1 } else { 3 },
            final(self).samples() == ingested(old(self).samples(), old(self).fill(), frame@),
    {
        let ghost before = self.samples@;
        let full: bool = self.fill >= 3;
        if full {
            let mut i: usize = 0;
            while i < 320
                invariant
                    i <= 320,
                    before.len() == LOOKAHEAD_LEN,
                    self.samples@.len() == LOOKAHEAD_LEN,
                    self.fill == old(self).fill,
                    self.zero == old(self).zero,
                    forall|j: int| 0 <= j < i ==> #[trigger] self.samples@[j] == before[j + 160],
                    forall|j: int| i <= j < 480 ==> #[trigger] self.samples@[j] == before[j],
                decreases 320 - i,
            {
                let kept: T = self.samples[i + 160];
                self.samples[i] = kept;
                i = i + 1;
            }
        }
        let start: usize = if full { 320 } else { 160 * (self.fill as usize) };
        let ghost shifted = self.samples@;
        let mut k: usize = 0;
        while k < SAMPLES_PER_FRAME
            invariant
                k <= SAMPLES_PER_FRAME,
                start <= 320,
                frame@.len() == SAMPLES_PER_FRAME,
                shifted.len() == LOOKAHEAD_LEN,
                self.samples@.len() == LOOKAHEAD_LEN,
                self.fill == old(self).fill,
                self.zero == old(self).zero,
                forall|j: int|
                    0 <= j < 480 ==> #[trigger] self.samples@[j] == if start <= j < start + k {
                        frame@[j - start]
                    } else {
                        shifted[j]
                    },
            decreases SAMPLES_PER_FRAME - k,
        {
            self.samples[start + k] = frame[k];
            k = k + 1;
        }
        if !full {
            self.fill = self.fill + 1;
        }
        assert(self.samples@ =~= ingested(before, old(self).fill as int, frame@));
    }

    /// The buffered samples.
    pub fn lookahead_buf(&self) -> (samples: &[T])
        ensures
            samples@ == self.samples(),
    {
        self.samples.as_slice()
    }

    fn at(&self, at: i32) -> (sample: T)
        requires
            self.wf(),
        ensures
            sample == self.sample(at as int),
    {
        if 0 <= at && at < 480 {
            self.samples[at as usize]
        } else {
            self.zero
        }
    }

    fn window(&self, first: i32, len: usize) -> (window: Vec<T>)
        requires
            self.wf(),
            -1000 <= first <= 1000,
            len <= 1000,
        ensures
            window@.len() == len,
            forall|i: int| 0 <= i < len ==> #[trigger] window@[i] == self.sample(first + i),
    {
        let mut window: Vec<T> = Vec::new();
        let mut i: usize = 0;
        while i < len
            invariant
                i <= len <= 1000,
                self.wf(),
                -1000 <= first <= 1000,
                window@.len() == i,
                forall|j: int| 0 <= j < i ==> #[trigger] window@[j] == self.sample(first + j),
            decreases len - i,
        {
            window.push(self.at(first + i as i32));
            i = i + 1;
        }
        window
    }

    /// The window of 221 samples centred on the frame being analysed.
    pub fn extract_refinement_window(&self) -> (window: Vec<T>)
        requires
            self.wf(),
        ensures
            window@.len() == REFINEMENT_LEN,
            forall|i: int|
                0 <= i < REFINEMENT_LEN ==> #[trigger] window@[i] == self.sample(80 + i - 110),
    {
        self.window(-30, REFINEMENT_LEN)
    }

    /// The window of 321 samples centred on frame `slot`.
    pub fn extract_pitch_window(&self, slot: usize) -> (window: Vec<T>)
        requires
            self.wf(),
            slot < 3,
        ensures
            window@.len() == PITCH_INPUT_LEN,
            forall|i: int|
                0 <= i < PITCH_INPUT_LEN ==> #[trigger] window@[i] == self.sample(
                    160 * slot + 80 + i - 160,
                ),
    {
        self.window(160 * (slot as i32) - 80, PITCH_INPUT_LEN)
    }

    /// The buffer with 80 zeros before and 81 after, as the shared low-pass
    /// filter reads it.
    pub fn padded(&self) -> (padded: Vec<T>)
        requires
            self.wf(),
        ensures
            padded@.len() == PADDED_LEN,
            forall|i: int| 0 <= i < PADDED_LEN ==> #[trigger] padded@[i] == self.sample(i - 80),
    {
        self.window(-80, PADDED_LEN)
    }
}

/// The part of the shared filtered signal that the pitch search of frame `slot`
/// reads.
pub fn slot_s_lpf<T>(shared: &[T], slot: usize) -> (part: &[T])
    requires
        shared@.len() == SHARED_LPF_LEN,
        slot < 3,
    ensures
        part@ == shared@.subrange(160 * slot, 160 * slot + 301),
        part@.len() == SLOT_LPF_LEN,
{
    let start: usize = 160 * slot;
    &shared[start..start + 301]
}

/// Filtering the padded buffer once gives each frame what filtering its own
/// zero-extended window would: output `160 * slot + i` of the shared filter reads
/// the same samples as output `i` of the filter on the window of frame `slot`.
pub proof fn law_shared_filter_matches_slots<T: Copy>(
    buffer: Lookahead<T>,
    padded: Seq<T>,
    window: Seq<T>,
    slot: int,
    i: int,
    tap: int,
)
    requires
        0 <= slot < 3,
        0 <= i < SLOT_LPF_LEN,
        0 <= tap <= 20,
        padded.len() == PADDED_LEN,
        forall|j: int| 0 <= j < PADDED_LEN ==> #[trigger] padded[j] == buffer.sample(j - 80),
        window.len() == PITCH_INPUT_LEN,
        forall|j: int|
            0 <= j < PITCH_INPUT_LEN ==> #[trigger] window[j] == buffer.sample(
                160 * slot + 80 + j - 160,
            ),
    ensures
        0 <= 160 * slot + i + 20 - tap < PADDED_LEN,
        0 <= i + 20 - tap < PITCH_INPUT_LEN,
        padded[160 * slot + i + 20 - tap] == window[i + 20 - tap],
{
}

/// Buffer contents after frames come into an empty buffer.
pub open spec fn after_frames<T>(zero: T, frames: Seq<Seq<T>>) -> Seq<T>
    decreases frames.len(),
{
    if frames.len() == 0 {
        Seq::new(480, |i: int| zero)
    } else {
        let fill = if frames.len() - 1 < 3 { frames.len() - 1 } else { 3 };
        ingested(after_frames(zero, frames.drop_last()), fill, frames.last())
    }
}

/// Once three frames have come in, the buffer holds exactly the last three, in
/// order.
pub proof fn law_buffer_holds_last_three<T>(zero: T, frames: Seq<Seq<T>>)
    requires
        frames.len() >= 3,
        forall|i: int| 0 <= i < frames.len() ==> (#[trigger] frames[i]).len() == SAMPLES_PER_FRAME,
    ensures
        after_frames(zero, frames) == frames[frames.len() - 3] + frames[frames.len() - 2]
            + frames[frames.len() - 1],
    decreases frames.len(),
{
    let before = frames.drop_last();
    let goal = frames[frames.len() - 3] + frames[frames.len() - 2] + frames[frames.len() - 1];
    if frames.len() == 3 {
        let f0 = frames[0];
        let f1 = frames[1];
        let f2 = frames[2];
        let one = before.drop_last();
        let none = one.drop_last();
        assert(none.len() == 0);
        assert(one.last() == f0 && before.last() == f1 && frames.last() == f2);
        let s0 = after_frames(zero, none);
        let s1 = after_frames(zero, one);
        let s2 = after_frames(zero, before);
        assert(s1 == ingested(s0, 0, f0));
        assert(s2 == ingested(s1, 1, f1));
        assert(after_frames(zero, frames) == ingested(s2, 2, f2));
        assert(s1.len() == 480);
        assert(s2.len() == 480);
        assert(after_frames(zero, frames) =~= goal);
    } else {
        law_buffer_holds_last_three(zero, before);
        assert(before[before.len() - 3] == frames[frames.len() - 4]);
        assert(after_frames(zero, frames) =~= goal);
    }
}

/// A frame goes behind the ones already there while there are fewer than three, and
/// leaves the rest of the buffer alone; after that the oldest frame leaves, the
/// other two move up, and the new one comes last.
pub proof fn law_ingest<T>(samples: Seq<T>, fill: int, frame: Seq<T>, at: int)
    requires
        samples.len() == 480,
        frame.len() == 160,
        0 <= fill <= 3,
        0 <= at < 480,
    ensures
        ingested(samples, fill, frame).len() == 480,
        fill < 3 && 160 * fill <= at < 160 * fill + 160 ==> ingested(samples, fill, frame)[at]
            == frame[at - 160 * fill],
        fill < 3 && !(160 * fill <= at < 160 * fill + 160) ==> ingested(samples, fill, frame)[at]
            == samples[at],
        fill == 3 && at < 320 ==> ingested(samples, fill, frame)[at] == samples[at + 160],
        fill == 3 && at >= 320 ==> ingested(samples, fill, frame)[at] == frame[at - 320],
{
}

/// A read inside the buffer gives the buffered sample, and one outside gives
/// silence.
pub proof fn law_reads_are_extended<T: Copy>(buffer: Lookahead<T>, at: int)
    requires
        buffer.samples().len() == 480,
    ensures
        0 <= at < 480 ==> buffer.sample(at) == buffer.samples()[at],
        at < 0 || at >= 480 ==> buffer.sample(at) == buffer.zero(),
{
}

/// The windows are centred on the frames: the middle of the spectrum window is the
/// middle of the first frame, and the middle of the pitch window of frame `slot` is
/// the middle of that frame; neighbours in a window are neighbours in the buffer.
pub proof fn law_windows_are_centred<T: Copy>(
    buffer: Lookahead<T>,
    refinement: Seq<T>,
    pitch: Seq<T>,
    slot: int,
    d: int,
)
    requires
        buffer.samples().len() == 480,
        0 <= slot < 3,
        refinement.len() == REFINEMENT_LEN,
        forall|i: int|
            0 <= i < REFINEMENT_LEN ==> #[trigger] refinement[i] == buffer.sample(80 + i - 110),
        pitch.len() == PITCH_INPUT_LEN,
        forall|i: int|
            0 <= i < PITCH_INPUT_LEN ==> #[trigger] pitch[i] == buffer.sample(
                160 * slot + 80 + i - 160,
            ),
    ensures
        refinement.len() == 2 * 110 + 1,
        pitch.len() == 2 * 160 + 1,
        -80 <= d <= 110 ==> refinement[110 + d] == buffer.samples()[80 + d],
        -110 <= d < -80 ==> refinement[110 + d] == buffer.zero(),
        -160 <= d <= 160 && 0 <= 160 * slot + 80 + d < 480 ==> pitch[160 + d]
            == buffer.samples()[160 * slot + 80 + d],
        -160 <= d <= 160 && !(0 <= 160 * slot + 80 + d < 480) ==> pitch[160 + d] == buffer.zero(),
{
}

} // verus!
