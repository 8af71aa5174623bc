//! Streaming and noise-floor tracking of the pre-analysis denoiser.
//!
//! Input arrives in frames of 160 samples and is processed in windows of 256
//! samples that advance by 128.  Powers per bin stand as order keys.

use vstd::prelude::*;

use crate::selection::is_rank;
use crate::selection::key_of_rank;

verus! {

/// Samples per frame.
pub const FRAME: usize = 160;

/// Samples per window.
pub const FFT_SIZE: usize = 256;

/// Samples by which the window advances.
pub const HOP: usize = 128;

/// Bins of the one-sided spectrum.
pub const N_BINS: usize = 129;

/// Sub-windows that the minimum search keeps.
pub const U_SUB: usize = 8;

/// Hops per sub-window.
pub const V_LEN: usize = 15;

/// Hops that seed the noise floor.
pub const BOOTSTRAP_FRAMES: u32 = 6;

/// Bins on either side that the local floor looks at.
pub const FLOOR_HALF: usize = 8;

/// Suppression rule.
#[derive(Clone, Copy, Debug, PartialEq, Eq, Structural)]
pub enum DenoiseKind {
    /// Log-spectral amplitude estimator.
    LogMmse,
    /// Decision-directed Wiener gain.
    Wiener,
    /// Power spectral subtraction.
    SpecSub,
}

// ---- Framing ----------------------------------------------------------------

/// Samples waiting for a full window, and processed samples waiting to go out.
#[derive(Clone, Debug)]
pub struct HopBuffer<T> {
    pending: Vec<T>,
    ready: Vec<T>,
}

impl<T: Copy> HopBuffer<T> {
    /// Samples that have come in and not been passed by the window.
    pub closed spec fn pending(self) -> Seq<T> {
        self.pending@
    }

    /// Samples that are ready to go out.
    pub closed spec fn ready(self) -> Seq<T> {
        self.ready@
    }

    /// Nothing waiting.
    pub fn new() -> (buffer: Self)
        ensures
            buffer.pending() == Seq::<T>::empty(),
            buffer.ready() == Seq::<T>::empty(),
    {
        HopBuffer { pending: Vec::new(), ready: Vec::new() }
    }

    /// Takes input samples.
    pub fn push_frame(&mut self, frame: &[T])
        ensures
            final(self).pending() == old(self).pending() + frame@,
            final(self).ready() == old(self).ready(),
    {
        let mut i: usize = 0;
        while i < frame.len()
            invariant
                i <= frame@.len(),
                self.pending@ == old(self).pending@ + frame@.take(i as int),
                self.ready@ == old(self).ready@,
            decreases frame@.len() - i,
        {
            self.pending.push(frame[i]);
            assert(self.pending@ =~= old(self).pending@ + frame@.take(i + 1));
            i = i + 1;
        }
        assert(frame@.take(i as int) =~= frame@);
        assert(self.pending@ =~= old(self).pending@ + frame@);
    }

    /// The next window, if the input fills one; the window then advances.
    pub fn next_window(&mut self) -> (window: Option<Vec<T>>)
        ensures
            final(self).ready() == old(self).ready(),
            old(self).pending().len() < FFT_SIZE ==> window is None && final(self).pending() == old(self).pending(),
            old(self).pending().len() >= FFT_SIZE ==> {
                &&& window is Some
                &&& window->Some_0@ == old(self).pending().take(256)
                &&& final(self).pending() == old(self).pending().skip(128)
            },
    {
        if self.pending.len() < FFT_SIZE {
            return None;
        }
        let mut window: Vec<T> = Vec::new();
        let mut rest: Vec<T> = Vec::new();
        let mut i: usize = 0;
        while i < self.pending.len()
            invariant
                i <= self.pending@.len(),
                *self == *old(self),
                window@ == self.pending@.take(if i < 256 { i as int } else { 256 }),
                i <= 128 ==> rest@.len() == 0,
                i >= 128 ==> rest@ == self.pending@.subrange(128, i as int),
            decreases self.pending@.len() - i,
        {
            let sample: T = self.pending[i];
            if i < FFT_SIZE {
                window.push(sample);
                assert(window@ =~= self.pending@.take(i + 1));
            }
            if i >= HOP {
                rest.push(sample);
                assert(rest@ =~= self.pending@.subrange(128, i + 1));
            }
            i = i + 1;
        }
        assert(rest@ =~= self.pending@.skip(128));
        self.pending = rest;
        Some(window)
    }

    /// Takes input samples and gives every window that is now full, each 128
    /// samples after the one before.
    pub fn take_windows(&mut self, frame: &[T]) -> (windows: Vec<Vec<T>>)
        ensures
            final(self).ready() == old(self).ready(),
            windows@.len() == windows_filled((old(self).pending() + frame@).len() as int),
            forall|i: int|
                0 <= i < windows@.len() ==> (#[trigger] windows@[i])@ == (old(self).pending()
                    + frame@).subrange(128 * i, 128 * i + 256),
            final(self).pending() == (old(self).pending() + frame@).skip(
                128 * windows@.len() as int,
            ),
    {
        let ghost all = old(self).pending() + frame@;
        self.push_frame(frame);
        let mut windows: Vec<Vec<T>> = Vec::new();
        assert(all.skip(0) =~= all);
        while self.pending.len() >= FFT_SIZE
            invariant
                self.ready() == old(self).ready(),
                128 * windows@.len() <= all.len(),
                self.pending() == all.skip(128 * windows@.len() as int),
                self.pending() == self.pending@,
                windows@.len() > 0 ==> 128 * (windows@.len() - 1) + 256 <= all.len(),
                forall|i: int|
                    0 <= i < windows@.len() ==> (#[trigger] windows@[i])@ == all.subrange(
                        128 * i,
                        128 * i + 256,
                    ),
            decreases self.pending@.len(),
        {
            let ghost taken = windows@.len() as int;
            match self.next_window() {
                Some(window) => {
                    assert(window@ =~= all.subrange(128 * taken, 128 * taken + 256));
                    windows.push(window);
                },
                None => {},
            }
            assert(self.pending() =~= all.skip(128 * windows@.len() as int));
        }
        windows
    }

    /// Takes the processed samples of one hop.
    pub fn push_cleaned(&mut self, hop: &[T])
        ensures
            final(self).ready() == old(self).ready() + hop@,
            final(self).pending() == old(self).pending(),
    {
        let mut i: usize = 0;
        while i < hop.len()
            invariant
                i <= hop@.len(),
                self.ready@ == old(self).ready@ + hop@.take(i as int),
                self.pending@ == old(self).pending@,
            decreases hop@.len() - i,
        {
            self.ready.push(hop[i]);
            assert(self.ready@ =~= old(self).ready@ + hop@.take(i + 1));
            i = i + 1;
        }
        assert(hop@.take(i as int) =~= hop@);
        assert(self.ready@ =~= old(self).ready@ + hop@);
    }

    /// One frame of output: the samples that are ready, followed by `zero`
    /// where there are too few.
    pub fn emit_frame(&mut self, zero: T) -> (frame: Vec<T>)
        ensures
            frame@.len() == FRAME,
            forall|i: int|
                0 <= i < FRAME ==> #[trigger] frame@[i] == if i < old(self).ready().len() {
                    old(self).ready()[i]
                } else {
                    zero
                },
            final(self).ready() == if old(self).ready().len() <= FRAME {
                Seq::<T>::empty()
            } else {
                old(self).ready().skip(160)
            },
            final(self).pending() == old(self).pending(),
    {
        let mut frame: Vec<T> = Vec::new();
        let mut i: usize = 0;
        while i < FRAME
            invariant
                i <= FRAME,
                *self == *old(self),
                frame@.len() == i,
                forall|j: int|
                    0 <= j < i ==> #[trigger] frame@[j] == if j < self.ready@.len() {
                        self.ready@[j]
                    } else {
                        zero
                    },
            decreases FRAME - i,
        {
            if i < self.ready.len() {
                frame.push(self.ready[i]);
            } else {
                frame.push(zero);
            }
            i = i + 1;
        }
        let mut rest: Vec<T> = Vec::new();
        let mut k: usize = FRAME;
        while k < self.ready.len()
            invariant
                160 <= k,
                k <= self.ready@.len() || k == 160,
                *self == *old(self),
                rest@.len() == k - 160,
                forall|j: int| 0 <= j < k - 160 ==> #[trigger] rest@[j] == self.ready@[j + 160],
            decreases self.ready@.len() - k,
        {
            rest.push(self.ready[k]);
            k = k + 1;
        }
        proof {
            if self.ready@.len() <= 160 {
                assert(rest@ =~= Seq::<T>::empty());
            } else {
                assert(rest@ =~= self.ready@.skip(160));
            }
        }
        self.ready = rest;
        frame
    }
}

/// Windows that `pending` samples fill.
pub open spec fn windows_filled(pending: int) -> int {
    if pending < FFT_SIZE { 0 } else { (pending - FFT_SIZE) / 128 + 1 }
}

/// Samples pending after `n` frames, each fully processed.
pub open spec fn pending_after(n: nat) -> int
    decreases n,
{
    if n == 0 {
        0
    } else {
        let filled = pending_after((n - 1) as nat) + FRAME;
        filled - HOP * windows_filled(filled)
    }
}

/// Samples ready when frame `n` is about to go out.
pub open spec fn ready_at(n: nat) -> int
    decreases n,
{
    if n == 0 {
        0
    } else {
        ready_after((n - 1) as nat) + HOP * windows_filled(
            pending_after((n - 1) as nat) + FRAME,
        )
    }
}

/// Samples still ready once frame `n` has gone out.
pub open spec fn ready_after(n: nat) -> int
    decreases n,
{
    if n == 0 {
        0
    } else {
        let at = ready_after((n - 1) as nat) + HOP * windows_filled(
            pending_after((n - 1) as nat) + FRAME,
        );
        if at < FRAME { 0 } else { at - FRAME }
    }
}

proof fn lemma_steady(n: nat)
    requires
        n >= 3,
    ensures
        pending_after(n) + ready_after(n) == 224,
        128 <= pending_after(n) <= 224,
        pending_after(n) % 32 == 0,
    decreases n,
{
    if n == 3 {
        reveal_with_fuel(pending_after, 4);
        reveal_with_fuel(ready_after, 4);
    } else {
        lemma_steady((n - 1) as nat);
    }
}

/// Only the first three frames that go out are padded: from the fourth on a
/// full frame is always ready.
pub proof fn law_padding_only_at_start(n: nat)
    requires
        n >= 4,
    ensures
        ready_at(n) >= FRAME,
{
    lemma_steady((n - 1) as nat);
}

impl<T: Copy> HopBuffer<T> {
    /// `frame` goes in, the windows that it fills are processed into the samples
    /// `cleaned`, and `out` goes out, which leaves `after`.
    pub open spec fn passes(
        self,
        frame: Seq<T>,
        cleaned: Seq<T>,
        zero: T,
        out: Seq<T>,
        after: Self,
    ) -> bool {
        let all = self.pending() + frame;
        let ready = self.ready() + cleaned;
        &&& cleaned.len() == HOP * windows_filled(all.len() as int)
        &&& after.pending() == all.skip(cleaned.len() as int)
        &&& after.ready() == if ready.len() <= FRAME {
            Seq::<T>::empty()
        } else {
            ready.skip(160)
        }
        &&& out.len() == FRAME
        &&& forall|i: int|
            0 <= i < FRAME ==> #[trigger] out[i] == if i < ready.len() { ready[i] } else { zero }
    }
}

/// The calls for one frame ([`HopBuffer::take_windows`], then one
/// [`HopBuffer::push_cleaned`] of 128 samples for each window, then
/// [`HopBuffer::emit_frame`]) pass the frame.
pub proof fn law_calls_pass_a_frame<T: Copy>(
    before: HopBuffer<T>,
    pushed: Seq<HopBuffer<T>>,
    after: HopBuffer<T>,
    frame: Seq<T>,
    hops: Seq<Seq<T>>,
    zero: T,
    out: Seq<T>,
)
    requires
        hops.len() == windows_filled((before.pending() + frame).len() as int),
        pushed.len() == hops.len() + 1,
        pushed[0].ready() == before.ready(),
        pushed[0].pending() == (before.pending() + frame).skip(128 * hops.len() as int),
        forall|i: int| 0 <= i < hops.len() ==> (#[trigger] hops[i]).len() == HOP,
        forall|i: int|
            0 <= i < hops.len() ==> #[trigger] pushed[i + 1].ready() == pushed[i].ready() + hops[i],
        forall|i: int|
            0 <= i < hops.len() ==> #[trigger] pushed[i + 1].pending() == pushed[i].pending(),
        out.len() == FRAME,
        forall|i: int|
            0 <= i < FRAME ==> #[trigger] out[i] == if i < pushed.last().ready().len() {
                pushed.last().ready()[i]
            } else {
                zero
            },
        after.ready() == if pushed.last().ready().len() <= FRAME {
            Seq::<T>::empty()
        } else {
            pushed.last().ready().skip(160)
        },
        after.pending() == pushed.last().pending(),
    ensures
        before.passes(frame, joined(hops, hops.len()), zero, out, after),
{
    lemma_pushed(before, pushed, hops, hops.len());
}

proof fn lemma_pushed<T: Copy>(
    before: HopBuffer<T>,
    pushed: Seq<HopBuffer<T>>,
    hops: Seq<Seq<T>>,
    n: nat,
)
    requires
        n <= hops.len(),
        pushed.len() == hops.len() + 1,
        pushed[0].ready() == before.ready(),
        forall|i: int| 0 <= i < hops.len() ==> (#[trigger] hops[i]).len() == HOP,
        forall|i: int|
            0 <= i < hops.len() ==> #[trigger] pushed[i + 1].ready() == pushed[i].ready() + hops[i],
        forall|i: int|
            0 <= i < hops.len() ==> #[trigger] pushed[i + 1].pending() == pushed[i].pending(),
    ensures
        pushed[n as int].ready() == before.ready() + joined(hops, n),
        pushed[n as int].pending() == pushed[0].pending(),
        joined(hops, n).len() == HOP * n,
    decreases n,
{
    if n == 0 {
        assert(before.ready() + joined(hops, 0) =~= before.ready());
    } else {
        let i: int = n - 1;
        lemma_pushed(before, pushed, hops, i as nat);
        assert(pushed[i + 1].ready() == pushed[i].ready() + hops[i]);
        assert(pushed[i + 1].pending() == pushed[i].pending());
        assert(before.ready() + joined(hops, i as nat) + hops[i] =~= before.ready() + joined(
            hops,
            n,
        ));
    }
}

/// The first `n` of `parts`, one after the other.
pub open spec fn joined<T>(parts: Seq<Seq<T>>, n: nat) -> Seq<T>
    decreases n,
{
    if n == 0 {
        Seq::empty()
    } else {
        joined(parts, (n - 1) as nat) + parts[n - 1]
    }
}

/// `frames` of 160 samples pass one after the other through a buffer that is empty
/// at first.
pub open spec fn is_stream<T: Copy>(
    buffers: Seq<HopBuffer<T>>,
    frames: Seq<Seq<T>>,
    cleaned: Seq<Seq<T>>,
    zero: T,
    outs: Seq<Seq<T>>,
) -> bool {
    &&& buffers.len() == frames.len() + 1
    &&& cleaned.len() == frames.len()
    &&& outs.len() == frames.len()
    &&& buffers[0].pending() == Seq::<T>::empty()
    &&& buffers[0].ready() == Seq::<T>::empty()
    &&& forall|i: int| 0 <= i < frames.len() ==> (#[trigger] frames[i]).len() == FRAME
    &&& forall|i: int|
        0 <= i < frames.len() ==> (#[trigger] buffers[i]).passes(
            frames[i],
            cleaned[i],
            zero,
            outs[i],
            buffers[i + 1],
        )
}

/// Processed samples that have gone out once frame `n` has: all input but what is
/// still held.
pub open spec fn sent_after(n: nat) -> int {
    FRAME * n - pending_after(n) - ready_after(n)
}

proof fn lemma_stream<T: Copy>(
    buffers: Seq<HopBuffer<T>>,
    frames: Seq<Seq<T>>,
    cleaned: Seq<Seq<T>>,
    zero: T,
    outs: Seq<Seq<T>>,
    n: nat,
)
    requires
        is_stream(buffers, frames, cleaned, zero, outs),
        n <= frames.len(),
    ensures
        buffers[n as int].pending().len() == pending_after(n),
        buffers[n as int].ready().len() == ready_after(n),
        joined(cleaned, n).len() == FRAME * n - pending_after(n),
        0 <= sent_after(n) <= joined(cleaned, n).len(),
        buffers[n as int].ready() == joined(cleaned, n).skip(sent_after(n)),
    decreases n,
{
    if n == 0 {
        assert(joined(cleaned, 0).skip(0) =~= Seq::<T>::empty());
    } else {
        let i: int = n - 1;
        let m: nat = i as nat;
        lemma_stream(buffers, frames, cleaned, zero, outs, m);
        let before = buffers[i];
        let after = buffers[i + 1];
        assert(before.passes(frames[i], cleaned[i], zero, outs[i], after));
        let ready = before.ready() + cleaned[i];
        assert(joined(cleaned, n) == joined(cleaned, m) + cleaned[i]);
        assert(ready =~= joined(cleaned, n).skip(sent_after(m)));
        assert(ready.len() == ready_at(n));
        if ready.len() <= FRAME {
            assert(after.ready() =~= joined(cleaned, n).skip(sent_after(n)));
        } else {
            assert(sent_after(n) == sent_after(m) + FRAME);
            assert(after.ready() =~= joined(cleaned, n).skip(sent_after(n)));
        }
    }
}

/// What goes out, the padding aside, is the processed samples in order, none left
/// out and none twice: frame `n` begins where the frames before it ended.
pub proof fn law_output_follows_cleaned<T: Copy>(
    buffers: Seq<HopBuffer<T>>,
    frames: Seq<Seq<T>>,
    cleaned: Seq<Seq<T>>,
    zero: T,
    outs: Seq<Seq<T>>,
    n: nat,
)
    requires
        is_stream(buffers, frames, cleaned, zero, outs),
        n < frames.len(),
    ensures
        0 <= sent_after(n) <= sent_after(n + 1) <= sent_after(n) + FRAME,
        sent_after(n + 1) <= joined(cleaned, n + 1).len(),
        outs[n as int] == joined(cleaned, n + 1).subrange(sent_after(n), sent_after(n + 1))
            + Seq::new((sent_after(n) + FRAME - sent_after(n + 1)) as nat, |i: int| zero),
{
    let i: int = n as int;
    lemma_stream(buffers, frames, cleaned, zero, outs, n);
    lemma_stream(buffers, frames, cleaned, zero, outs, n + 1);
    assert(buffers[i].passes(frames[i], cleaned[i], zero, outs[i], buffers[i + 1]));
    let ready = buffers[i].ready() + cleaned[i];
    assert(joined(cleaned, n + 1) == joined(cleaned, n) + cleaned[i]);
    assert(ready =~= joined(cleaned, n + 1).skip(sent_after(n)));
    assert(ready.len() == ready_at(n + 1));
    assert(outs[i] =~= joined(cleaned, n + 1).subrange(sent_after(n), sent_after(n + 1))
        + Seq::new((sent_after(n) + FRAME - sent_after(n + 1)) as nat, |j: int| zero));
}

/// Where processing leaves samples unchanged, they go out 224 samples after they
/// came in: from the fourth frame on, such a frame that goes out is the input that
/// ends 224 samples before the end of the frame that came in.
///
/// Of the 224 samples one hop of 128 waits for the other half of its window, and
/// 96 are the largest rest that frames of 160 leave between hops of 128.
pub proof fn law_unchanged_input_is_delayed<T: Copy>(
    buffers: Seq<HopBuffer<T>>,
    frames: Seq<Seq<T>>,
    cleaned: Seq<Seq<T>>,
    zero: T,
    outs: Seq<Seq<T>>,
    n: nat,
)
    requires
        is_stream(buffers, frames, cleaned, zero, outs),
        3 <= n < frames.len(),
        forall|k: int|
            FRAME * n - 224 <= k < FRAME * n + FRAME - 224 ==> #[trigger] joined(cleaned, n + 1)[k]
                == joined(frames, n + 1)[k],
    ensures
        joined(frames, n + 1).len() == FRAME * n + FRAME,
        outs[n as int] == joined(frames, n + 1).subrange(FRAME * n - 224, FRAME * n + FRAME - 224),
{
    law_output_follows_cleaned(buffers, frames, cleaned, zero, outs, n);
    lemma_steady(n);
    lemma_steady(n + 1);
    lemma_joined_frames(frames, n + 1);
    assert(outs[n as int] =~= joined(frames, n + 1).subrange(
        FRAME * n - 224,
        FRAME * n + FRAME - 224,
    ));
}

proof fn lemma_joined_frames<T>(frames: Seq<Seq<T>>, n: nat)
    requires
        n <= frames.len(),
        forall|i: int| 0 <= i < frames.len() ==> (#[trigger] frames[i]).len() == FRAME,
    ensures
        joined(frames, n).len() == FRAME * n,
    decreases n,
{
    if n > 0 {
        lemma_joined_frames(frames, (n - 1) as nat);
    }
}

impl<T: Copy> HopBuffer<T> {
    /// The samples waiting are those of `input` from window `windows` on.
    pub open spec fn continues(self, input: Seq<T>, windows: int) -> bool {
        &&& 0 <= 128 * windows <= input.len()
        &&& self.pending() == input.skip(128 * windows)
    }
}

/// The windows follow the input without a gap: those that a frame fills are the
/// next ones of the whole input.
pub proof fn law_windows_follow_input<T: Copy>(
    before: HopBuffer<T>,
    after: HopBuffer<T>,
    input: Seq<T>,
    frame: Seq<T>,
    done: int,
    filled: int,
)
    requires
        before.continues(input, done),
        filled == windows_filled((before.pending() + frame).len() as int),
        after.pending() == (before.pending() + frame).skip(128 * filled),
    ensures
        after.continues(input + frame, done + filled),
        forall|i: int|
            0 <= i < filled ==> #[trigger] (before.pending() + frame).subrange(
                128 * i,
                128 * i + 256,
            ) == (input + frame).subrange(128 * (done + i), 128 * (done + i) + 256),
{
    let all = before.pending() + frame;
    assert(all =~= (input + frame).skip(128 * done));
    assert(after.pending() =~= (input + frame).skip(128 * (done + filled)));
    assert forall|i: int| 0 <= i < filled implies #[trigger] all.subrange(128 * i, 128 * i + 256)
        == (input + frame).subrange(128 * (done + i), 128 * (done + i) + 256) by {
        assert(all.subrange(128 * i, 128 * i + 256) =~= (input + frame).subrange(
            128 * (done + i),
            128 * (done + i) + 256,
        ));
    }
}

// ---- Minimum statistics -----------------------------------------------------

/// Minimum search of one bin: the least value of the current sub-window and of
/// each of the last eight complete ones.
pub struct BinMinima {
    /// Least value of the current sub-window.
    pub run: int,
    /// Least values of the sub-windows kept.
    pub sub: Seq<int>,
    /// The sub-window to be replaced next.
    pub next: int,
    /// Hops since the current sub-window began.
    pub phase: int,
}

/// The lesser of two values.
pub open spec fn lesser(a: int, b: int) -> int {
    if b < a { b } else { a }
}

impl BinMinima {
    /// Every minimum is `seed`.
    pub open spec fn seeded(seed: int) -> BinMinima {
        BinMinima { run: seed, sub: Seq::new(8, |u: int| seed), next: 0, phase: 0 }
    }

    /// The state once `v` has been seen.
    pub open spec fn observed(self, v: int) -> BinMinima {
        BinMinima { run: lesser(self.run, v), ..self }
    }

    /// The state at the end of a hop with value `v`: a full sub-window is put
    /// away, and the next one begins with `v`.
    pub open spec fn rotated(self, v: int) -> BinMinima {
        if self.phase + 1 >= V_LEN {
            BinMinima {
                run: v,
                sub: self.sub.update(self.next, self.run),
                next: (self.next + 1) % 8,
                phase: 0,
            }
        } else {
            BinMinima { phase: self.phase + 1, ..self }
        }
    }

    /// The state after a hop with value `v`.
    pub open spec fn hop(self, v: int) -> BinMinima {
        self.observed(v).rotated(v)
    }

    /// The least of all minima kept.
    pub open spec fn floor(self) -> int {
        let a = lesser(lesser(self.sub[0], self.sub[1]), lesser(self.sub[2], self.sub[3]));
        let b = lesser(lesser(self.sub[4], self.sub[5]), lesser(self.sub[6], self.sub[7]));
        lesser(self.run, lesser(a, b))
    }
}

/// The search of one bin after the values in `seen`, the first of which is the
/// seed.
pub open spec fn minima_after(seen: Seq<int>) -> BinMinima
    decreases seen.len(),
{
    if seen.len() <= 1 {
        BinMinima::seeded(seen[0])
    } else {
        minima_after(seen.drop_last()).hop(seen.last())
    }
}

/// `v` is the least of `seen[a..=b]`.
pub open spec fn is_least(seen: Seq<int>, a: int, b: int, v: int) -> bool {
    &&& forall|i: int| a <= i <= b ==> v <= #[trigger] seen[i]
    &&& exists|i: int| a <= i <= b && v == #[trigger] seen[i]
}

/// First hop that the floor still covers after `n` hops: the one that ended the
/// ninth-last sub-window, or the seed.
pub open spec fn window_start(n: int) -> int {
    if n / 15 <= 8 { 0 } else { 15 * (n / 15 - 8) }
}

/// What the search holds after `seen`: slot `(r - 1) % 8` covers sub-window `r`.
spec fn minima_cover(seen: Seq<int>, state: BinMinima) -> bool {
    let n = seen.len() - 1;
    let done = n / 15;
    &&& state.phase == n % 15
    &&& state.next == done % 8
    &&& state.sub.len() == 8
    &&& is_least(seen, 15 * done, n, state.run)
    &&& forall|r: int|
        1 <= r <= done && done - 8 < r ==> is_least(
            seen,
            15 * (r - 1),
            15 * r,
            #[trigger] state.sub[(r - 1) % 8],
        )
    &&& forall|u: int| done <= u < 8 ==> #[trigger] state.sub[u] == seen[0]
}

proof fn lemma_least_extend(seen: Seq<int>, longer: Seq<int>, a: int, b: int, v: int)
    requires
        is_least(seen, a, b, v),
        0 <= a <= b < seen.len() <= longer.len(),
        forall|i: int| 0 <= i < seen.len() ==> longer[i] == seen[i],
    ensures
        is_least(longer, a, b, v),
{
    let w = choose|i: int| a <= i <= b && v == #[trigger] seen[i];
    assert(longer[w] == seen[w]);
    assert forall|i: int| a <= i <= b implies v <= #[trigger] longer[i] by {
        assert(longer[i] == seen[i]);
    }
}

proof fn lemma_minima_cover(seen: Seq<int>)
    requires
        seen.len() >= 1,
    ensures
        minima_cover(seen, minima_after(seen)),
    decreases seen.len(),
{
    let n = seen.len() - 1;
    if n == 0 {
        let state = minima_after(seen);
        assert(seen[0] == state.run);
        assert(is_least(seen, 0, 0, state.run));
    } else {
        let before = seen.drop_last();
        lemma_minima_cover(before);
        let prior = minima_after(before);
        let state = minima_after(seen);
        let v = seen.last();
        let done = (n - 1) / 15;
        assert(before.len() - 1 == n - 1);
        assert(state == prior.hop(v));
        let run = lesser(prior.run, v);
        lemma_least_extend(before, seen, 15 * done, n - 1, prior.run);
        assert(is_least(seen, 15 * done, n, run)) by {
            let w = choose|i: int| 15 * done <= i <= n - 1 && prior.run == #[trigger] seen[i];
            assert(seen[n] == v);
            if run == v {
                assert(run == seen[n]);
            } else {
                assert(run == seen[w]);
            }
        }
        assert forall|r: int| 1 <= r <= done && done - 8 < r implies is_least(
            seen,
            15 * (r - 1),
            15 * r,
            #[trigger] prior.sub[(r - 1) % 8],
        ) by {
            lemma_least_extend(before, seen, 15 * (r - 1), 15 * r, prior.sub[(r - 1) % 8]);
        }
        if prior.phase + 1 >= V_LEN {
            assert((n - 1) % 15 == 14);
            assert(n == 15 * (done + 1));
            assert(n / 15 == done + 1);
            assert(is_least(seen, n, n, v)) by {
                assert(seen[n] == v);
            }
            assert forall|r: int| 1 <= r <= done + 1 && done + 1 - 8 < r implies is_least(
                seen,
                15 * (r - 1),
                15 * r,
                #[trigger] state.sub[(r - 1) % 8],
            ) by {
                if r == done + 1 {
                    assert(state.sub[done % 8] == run);
                } else {
                    assert((r - 1) % 8 != done % 8) by {
                        assert(1 <= done - (r - 1) <= 7);
                    }
                    assert(state.sub[(r - 1) % 8] == prior.sub[(r - 1) % 8]);
                }
            }
            assert forall|u: int| done + 1 <= u < 8 implies #[trigger] state.sub[u] == seen[0] by {
                assert(prior.sub[u] == before[0]);
            }
        } else {
            assert(n / 15 == done);
            assert(n % 15 == (n - 1) % 15 + 1);
            assert forall|u: int| done <= u < 8 implies #[trigger] state.sub[u] == seen[0] by {
                assert(prior.sub[u] == before[0]);
            }
        }
    }
}

/// The floor of a bin is the least value seen since [`window_start`], a span of
/// between 120 and 134 hops once that many have passed.
pub proof fn law_floor_is_windowed_minimum(seen: Seq<int>)
    requires
        seen.len() >= 1,
    ensures
        is_least(
            seen,
            window_start(seen.len() - 1),
            seen.len() - 1,
            minima_after(seen).floor(),
        ),
        seen.len() - 1 >= 120 ==> 120 <= seen.len() - 1 - window_start(seen.len() - 1) <= 134,
{
    lemma_minima_cover(seen);
    let n = seen.len() - 1;
    let done = n / 15;
    let state = minima_after(seen);
    let floor = state.floor();
    let start = window_start(n);
    // Every value in the window is at least one of the minima kept.
    assert forall|i: int| start <= i <= n implies floor <= #[trigger] seen[i] by {
        if i >= 15 * done {
            assert(state.run <= seen[i]);
        } else {
            let r = i / 15 + 1;
            assert(1 <= r <= done && done - 8 < r);
            assert(15 * (r - 1) <= i <= 15 * r);
            let u = (r - 1) % 8;
            assert(is_least(seen, 15 * (r - 1), 15 * r, state.sub[(r - 1) % 8]));
            assert(state.sub[u] <= seen[i]);
            lemma_floor_below(state, u);
        }
    }
    // Every minimum kept is a value in the window.
    assert forall|u: int| 0 <= u < 8 implies exists|i: int|
        start <= i <= n && #[trigger] state.sub[u] == #[trigger] seen[i] by {
        if u >= done {
            assert(state.sub[u] == seen[0]);
            assert(start == 0);
        } else {
            let r = slot_window(u, done);
            lemma_slot_window(u, done);
            assert(is_least(seen, 15 * (r - 1), 15 * r, state.sub[(r - 1) % 8]));
            let i = choose|i: int| 15 * (r - 1) <= i <= 15 * r && state.sub[u] == #[trigger] seen[i];
            assert(start <= i <= n && state.sub[u] == seen[i]);
        }
    }
    assert(exists|i: int| start <= i <= n && floor == #[trigger] seen[i]) by {
        let w = choose|i: int| 15 * done <= i <= n && state.run == #[trigger] seen[i];
        assert(start <= w <= n);
        if floor == state.run {
            assert(floor == seen[w]);
        } else {
            let u: int = if floor == state.sub[0] {
                0
            } else if floor == state.sub[1] {
                1
            } else if floor == state.sub[2] {
                2
            } else if floor == state.sub[3] {
                3
            } else if floor == state.sub[4] {
                4
            } else if floor == state.sub[5] {
                5
            } else if floor == state.sub[6] {
                6
            } else {
                7
            };
            assert(floor == state.sub[u]);
        }
    }
}

proof fn lemma_floor_below(state: BinMinima, u: int)
    requires
        0 <= u < 8,
    ensures
        state.floor() <= state.sub[u],
{
}

/// The last sub-window up to `done` that slot `u` holds.
spec fn slot_window(u: int, done: int) -> int {
    done - (done - 1 - u) % 8
}

proof fn lemma_slot_window(u: int, done: int)
    requires
        0 <= u < 8,
        u < done,
    ensures
        1 <= slot_window(u, done) <= done,
        done - 8 < slot_window(u, done),
        (slot_window(u, done) - 1) % 8 == u,
{
}

/// Minimum searches of all bins over two smoothed spectra that share one phase.
#[derive(Clone, Debug)]
pub struct NoiseMinima {
    run: Vec<i64>,
    sub: Vec<Vec<i64>>,
}

impl NoiseMinima {
    /// One minimum per bin, and eight sub-windows of them.
    pub closed spec fn wf(self) -> bool {
        &&& self.run@.len() == N_BINS
        &&& self.sub@.len() == U_SUB
        &&& forall|u: int| 0 <= u < U_SUB ==> (#[trigger] self.sub@[u])@.len() == N_BINS
    }

    /// The search of bin `m`, given the shared phase.
    pub closed spec fn bin(self, m: int, phase: MinimaPhase) -> BinMinima {
        BinMinima {
            run: self.run@[m] as int,
            sub: Seq::new(8, |u: int| self.sub@[u]@[m] as int),
            next: phase.next as int,
            phase: phase.phase as int,
        }
    }

    /// All minima set to the given value per bin.
    pub fn seeded(values: &[i64]) -> (minima: Self)
        requires
            values@.len() == N_BINS,
        ensures
            minima.wf(),
            forall|m: int|
                0 <= m < N_BINS ==> #[trigger] minima.bin(m, MinimaPhase { next: 0, phase: 0 })
                    == BinMinima::seeded(values@[m] as int),
    {
        let run = copy_bins(values);
        let mut sub: Vec<Vec<i64>> = Vec::new();
        let mut u: usize = 0;
        while u < U_SUB
            invariant
                u <= U_SUB,
                values@.len() == N_BINS,
                sub@.len() == u,
                forall|j: int| 0 <= j < u ==> (#[trigger] sub@[j])@ == values@,
            decreases U_SUB - u,
        {
            sub.push(copy_bins(values));
            u = u + 1;
        }
        let minima = NoiseMinima { run, sub };
        proof {
            assert forall|m: int| 0 <= m < N_BINS implies #[trigger] minima.bin(
                m,
                MinimaPhase { next: 0, phase: 0 },
            ) == BinMinima::seeded(values@[m] as int) by {
                assert(minima.bin(m, MinimaPhase { next: 0, phase: 0 }).sub =~= BinMinima::seeded(
                    values@[m] as int,
                ).sub);
            }
        }
        minima
    }

    /// Takes the values of a hop into the current sub-window.
    pub fn observe(&mut self, values: &[i64])
        requires
            old(self).wf(),
            values@.len() == N_BINS,
        ensures
            final(self).wf(),
            forall|m: int, p: MinimaPhase|
                0 <= m < N_BINS ==> #[trigger] final(self).bin(m, p) == old(self).bin(
                    m,
                    p,
                ).observed(values@[m] as int),
    {
        let mut m: usize = 0;
        while m < N_BINS
            invariant
                m <= N_BINS,
                self.wf(),
                values@.len() == N_BINS,
                self.sub@ == old(self).sub@,
                old(self).run@.len() == N_BINS,
                forall|j: int| m <= j < N_BINS ==> self.run@[j] == old(self).run@[j],
                forall|j: int|
                    0 <= j < m ==> #[trigger] self.run@[j] == lesser(
                        old(self).run@[j] as int,
                        values@[j] as int,
                    ),
            decreases N_BINS - m,
        {
            if values[m] < self.run[m] {
                self.run[m] = values[m];
            }
            m = m + 1;
        }
    }

    /// The least of the minima kept, per bin.
    pub fn floors(&self) -> (floors: Vec<i64>)
        requires
            self.wf(),
        ensures
            floors@.len() == N_BINS,
            forall|m: int, p: MinimaPhase|
                0 <= m < N_BINS ==> #[trigger] self.bin(m, p).floor() == floors@[m],
    {
        let mut floors: Vec<i64> = Vec::new();
        let mut m: usize = 0;
        while m < N_BINS
            invariant
                m <= N_BINS,
                self.wf(),
                floors@.len() == m,
                forall|j: int, p: MinimaPhase|
                    0 <= j < m ==> #[trigger] self.bin(j, p).floor() == floors@[j],
            decreases N_BINS - m,
        {
            let mut least: i64 = self.run[m];
            let mut u: usize = 0;
            while u < U_SUB
                invariant
                    u <= U_SUB,
                    m < N_BINS,
                    self.wf(),
                    least <= self.run@[m as int],
                    forall|j: int| 0 <= j < u ==> least <= (#[trigger] self.sub@[j])@[m as int],
                    least == self.run@[m as int] || exists|j: int|
                        0 <= j < u && least == (#[trigger] self.sub@[j])@[m as int],
                decreases U_SUB - u,
            {
                let value: i64 = self.sub[u][m];
                if value < least {
                    least = value;
                    assert(least == self.sub@[u as int]@[m as int]);
                }
                u = u + 1;
            }
            proof {
                assert forall|p: MinimaPhase| #[trigger]
                    self.bin(m as int, p).floor() == least by {
                    let state = self.bin(m as int, p);
                    if least != self.run@[m as int] {
                        let j = choose|j: int|
                            0 <= j < 8 && least == (#[trigger] self.sub@[j])@[m as int];
                        assert(state.sub[j] == least);
                    }
                    lemma_floor_is_least(state, least as int);
                }
            }
            floors.push(least);
            m = m + 1;
        }
        floors
    }

    /// Ends a hop.  `values` are those last observed; when the hop completes a
    /// sub-window, it is stored and the next begins with them.
    fn close_hop(&mut self, values: &[i64], phase: &MinimaPhase)
        requires
            old(self).wf(),
            values@.len() == N_BINS,
            phase.wf(),
        ensures
            final(self).wf(),
            forall|m: int|
                0 <= m < N_BINS ==> #[trigger] final(self).bin(m, phase.advanced()) == old(
                    self).bin(m, *phase).rotated(values@[m] as int),
    {
        if phase.phase + 1 >= V_LEN {
            let fresh = copy_bins(values);
            let complete = copy_bins(self.run.as_slice());
            self.sub[phase.next] = complete;
            self.run = fresh;
        }
        proof {
            assert forall|m: int| 0 <= m < N_BINS implies #[trigger] self.bin(m, phase.advanced())
                == old(self).bin(m, *phase).rotated(values@[m] as int) by {
                assert(self.bin(m, phase.advanced()).sub =~= old(self).bin(m, *phase).rotated(
                    values@[m] as int,
                ).sub);
            }
        }
    }
}

proof fn lemma_floor_is_least(state: BinMinima, least: int)
    requires
        state.sub.len() == 8,
        least <= state.run,
        forall|j: int| 0 <= j < 8 ==> least <= #[trigger] state.sub[j],
        least == state.run || exists|j: int| 0 <= j < 8 && least == #[trigger] state.sub[j],
    ensures
        state.floor() == least,
{
    if least != state.run {
        let j = choose|j: int| 0 <= j < 8 && least == #[trigger] state.sub[j];
        lemma_floor_below(state, j);
    }
}

fn copy_bins(values: &[i64]) -> (copy: Vec<i64>)
    requires
        values@.len() == N_BINS,
    ensures
        copy@ == values@,
{
    let mut copy: Vec<i64> = Vec::new();
    let mut m: usize = 0;
    while m < N_BINS
        invariant
            m <= N_BINS,
            values@.len() == N_BINS,
            copy@ == values@.take(m as int),
        decreases N_BINS - m,
    {
        copy.push(values[m]);
        assert(copy@ =~= values@.take(m + 1));
        m = m + 1;
    }
    assert(values@.take(m as int) =~= values@);
    copy
}

/// Phase of the minimum search.
#[derive(Clone, Copy, Debug, PartialEq, Eq, Structural)]
pub struct MinimaPhase {
    /// The sub-window to be replaced next.
    pub next: usize,
    /// Hops since the current sub-window began.
    pub phase: usize,
}

impl MinimaPhase {
    /// The phase is within its sub-window, the sub-window within the ring.
    pub open spec fn wf(self) -> bool {
        self.next < U_SUB && self.phase < V_LEN
    }

    /// The start of the first sub-window.
    pub fn start() -> (phase: Self)
        ensures
            phase.wf(),
            phase.next == 0,
            phase.phase == 0,
    {
        MinimaPhase { next: 0, phase: 0 }
    }

    /// The phase after one more hop.
    pub open spec fn advanced(self) -> MinimaPhase {
        if self.phase + 1 >= V_LEN {
            MinimaPhase { next: ((self.next + 1) % 8) as usize, phase: 0 }
        } else {
            MinimaPhase { next: self.next, phase: (self.phase + 1) as usize }
        }
    }
}

/// Ends a hop for both searches, which have observed `first_values` and
/// `second_values`, and advances the phase they share.
pub fn rotate_minima(
    first: &mut NoiseMinima,
    first_values: &[i64],
    second: &mut NoiseMinima,
    second_values: &[i64],
    phase: &mut MinimaPhase,
)
    requires
        old(first).wf(),
        old(second).wf(),
        first_values@.len() == N_BINS,
        second_values@.len() == N_BINS,
        old(phase).wf(),
    ensures
        final(first).wf(),
        final(second).wf(),
        final(phase).wf(),
        *final(phase) == old(phase).advanced(),
        forall|m: int|
            0 <= m < N_BINS ==> #[trigger] final(first).bin(m, *final(phase)) == old(first).bin(
                m,
                *old(phase),
            ).rotated(first_values@[m] as int),
        forall|m: int|
            0 <= m < N_BINS ==> #[trigger] final(second).bin(m, *final(phase)) == old(second).bin(
                m,
                *old(phase),
            ).rotated(second_values@[m] as int),
{
    first.close_hop(first_values, phase);
    second.close_hop(second_values, phase);
    if phase.phase + 1 >= V_LEN {
        *phase = MinimaPhase { next: (phase.next + 1) % U_SUB, phase: 0 };
    } else {
        *phase = MinimaPhase { next: phase.next, phase: phase.phase + 1 };
    }
}

/// A hop extends the history of a search by its value.
pub proof fn law_hop_extends_history(seen: Seq<int>, v: int)
    requires
        seen.len() >= 1,
    ensures
        minima_after(seen.push(v)) == minima_after(seen).hop(v),
{
    assert(seen.push(v).drop_last() =~= seen);
}

// ---- Bootstrap and guards ---------------------------------------------------

/// Seeding of the noise floor: the least power of each bin over the first hops.
#[derive(Clone, Debug)]
pub struct Bootstrap {
    least: Vec<i64>,
    count: u32,
}

impl Bootstrap {
    /// Least power per bin so far.
    pub closed spec fn least(self) -> Seq<i64> {
        self.least@
    }

    /// Hops taken.
    pub closed spec fn hops(self) -> u32 {
        self.count
    }

    /// One entry per bin once a hop has been taken.
    pub closed spec fn wf(self) -> bool {
        self.count > 0 ==> self.least@.len() == N_BINS
    }

    /// No hop taken.
    pub fn new() -> (bootstrap: Self)
        ensures
            bootstrap.wf(),
            bootstrap.hops() == 0,
            bootstrap.least() == Seq::<i64>::empty(),
    {
        Bootstrap { least: Vec::new(), count: 0 }
    }

    /// Whether enough hops have been taken.
    pub fn is_complete(&self) -> (complete: bool)
        ensures
            complete == (self.hops() >= BOOTSTRAP_FRAMES),
    {
        self.count >= BOOTSTRAP_FRAMES
    }

    /// The least powers.
    pub fn seed(&self) -> (seed: &[i64])
        ensures
            seed@ == self.least(),
    {
        self.least.as_slice()
    }

    /// Takes one hop.
    pub fn push(&mut self, power: &[i64])
        requires
            old(self).wf(),
            old(self).hops() < BOOTSTRAP_FRAMES,
            power@.len() == N_BINS,
        ensures
            final(self).wf(),
            final(self).hops() == old(self).hops() + 1,
            final(self).least().len() == N_BINS,
            forall|m: int|
                0 <= m < N_BINS ==> #[trigger] final(self).least()[m] == if old(self).hops() == 0 {
                    power@[m] as int
                } else {
                    lesser(old(self).least()[m] as int, power@[m] as int)
                },
    {
        if self.count == 0 {
            self.least = copy_bins(power);
        } else {
            let mut m: usize = 0;
            while m < N_BINS
                invariant
                    m <= N_BINS,
                    power@.len() == N_BINS,
                    self.count == old(self).count,
                    self.least@.len() == N_BINS,
                    old(self).least@.len() == N_BINS,
                    forall|j: int| m <= j < N_BINS ==> self.least@[j] == old(self).least@[j],
                    forall|j: int|
                        0 <= j < m ==> #[trigger] self.least@[j] == lesser(
                            old(self).least@[j] as int,
                            power@[j] as int,
                        ),
                decreases N_BINS - m,
            {
                if power[m] < self.least[m] {
                    self.least[m] = power[m];
                }
                m = m + 1;
            }
        }
        self.count = self.count + 1;
    }
}

/// First bin of the neighbourhood of bin `m`.
pub open spec fn floor_lo(m: int) -> int {
    if m < FLOOR_HALF { 0 } else { m - FLOOR_HALF }
}

/// One past the last bin of the neighbourhood of bin `m`.
pub open spec fn floor_hi(m: int) -> int {
    if m + FLOOR_HALF < N_BINS { m + FLOOR_HALF + 1 } else { N_BINS as int }
}

/// The local floor of bin `m`: the median power of its neighbourhood, the upper
/// one if the neighbourhood has an even number of bins.
pub fn local_floor(power: &[i64], m: usize) -> (floor: i64)
    requires
        power@.len() == N_BINS,
        m < N_BINS,
    ensures
        is_rank(
            power@.subrange(floor_lo(m as int), floor_hi(m as int)),
            (floor_hi(m as int) - floor_lo(m as int)) / 2,
            floor,
        ),
{
    let lo: usize = m.saturating_sub(FLOOR_HALF);
    let hi: usize = if m + FLOOR_HALF < N_BINS { m + FLOOR_HALF + 1 } else { N_BINS };
    let window: &[i64] = &power[lo..hi];
    key_of_rank(window, (hi - lo) / 2)
}

/// What the gain stage does with a hop.
#[derive(Clone, Copy, Debug, PartialEq, Eq, Structural)]
pub enum GainMode {
    /// The noise floor is still being seeded: pass the input through.
    Seeding,
    /// The input is clean or a tone: pass it through.
    Bypass,
    /// Suppress noise.
    Suppress,
}

/// The mode for a hop.  `clean` says that the long-term signal-to-noise ratio is
/// above the bypass threshold, `tonal` that the spectrum is that of a tone.
pub fn gain_mode(primed: bool, clean: bool, tonal: bool) -> (mode: GainMode)
    ensures
        mode == if !primed {
            GainMode::Seeding
        } else if clean || tonal {
            GainMode::Bypass
        } else {
            GainMode::Suppress
        },
{
    if !primed {
        GainMode::Seeding
    } else if clean || tonal {
        GainMode::Bypass
    } else {
        GainMode::Suppress
    }
}

/// How the speech-presence target of a bin is set.
#[derive(Clone, Copy, Debug, PartialEq, Eq, Structural)]
pub enum PresenceTarget {
    /// No speech.
    Absent,
    /// In proportion to the power above the floor.
    Ramp,
    /// Speech for certain.
    Certain,
}

/// The speech-presence target of a bin.  `power_low` and `smooth_low` say that
/// its power and its smoothed power are near the floor; `peak` that it stands
/// out from its neighbourhood, which always counts as speech.
pub fn presence_target(power_low: bool, smooth_low: bool, peak: bool) -> (target: PresenceTarget)
    ensures
        target == if peak {
            PresenceTarget::Certain
        } else if power_low && smooth_low {
            PresenceTarget::Absent
        } else {
            PresenceTarget::Ramp
        },
{
    if peak {
        PresenceTarget::Certain
    } else if power_low && smooth_low {
        PresenceTarget::Absent
    } else {
        PresenceTarget::Ramp
    }
}

// ---- Denoiser state ---------------------------------------------------------

/// Discrete state of the denoiser: framing, seeding and minimum search.
#[derive(Clone, Debug)]
pub struct PreDenoise<T> {
    /// Suppression rule.
    pub kind: DenoiseKind,
    /// Samples in and out.
    pub stream: HopBuffer<T>,
    /// Seeding of the noise floor.
    pub bootstrap: Bootstrap,
    /// Minimum search over the smoothed spectrum.
    pub first: NoiseMinima,
    /// Minimum search over the spectrum smoothed without speech.
    pub second: NoiseMinima,
    /// Phase that both searches share.
    pub phase: MinimaPhase,
}

/// What a hop did to the seeding.
#[derive(Clone, Copy, Debug, PartialEq, Eq, Structural)]
pub enum SeedStep {
    /// More hops are needed.
    Seeding,
    /// This hop completed the seed.
    Completed,
}

impl<T: Copy> PreDenoise<T> {
    /// Whether the noise floor has been seeded.
    pub open spec fn primed(self) -> bool {
        self.bootstrap.hops() >= BOOTSTRAP_FRAMES
    }

    /// All parts have their sizes.
    pub open spec fn wf(self) -> bool {
        &&& self.bootstrap.wf()
        &&& self.bootstrap.hops() <= BOOTSTRAP_FRAMES
        &&& self.first.wf()
        &&& self.second.wf()
        &&& self.phase.wf()
    }

    /// The state before the first frame.
    pub open spec fn fresh(self) -> bool {
        &&& self.wf()
        &&& self.stream.pending() == Seq::<T>::empty()
        &&& self.stream.ready() == Seq::<T>::empty()
        &&& self.bootstrap.hops() == 0
        &&& self.bootstrap.least() == Seq::<i64>::empty()
        &&& self.phase == (MinimaPhase { next: 0, phase: 0 })
        &&& forall|m: int|
            0 <= m < N_BINS ==> #[trigger] self.first.bin(m, self.phase) == BinMinima::seeded(
                i64::MAX as int,
            )
        &&& forall|m: int|
            0 <= m < N_BINS ==> #[trigger] self.second.bin(m, self.phase) == BinMinima::seeded(
                i64::MAX as int,
            )
    }

    /// The state before the first frame.
    pub fn new(kind: DenoiseKind) -> (state: Self)
        ensures
            state.fresh(),
            state.kind == kind,
            !state.primed(),
    {
        let unset = unset_bins();
        PreDenoise {
            kind,
            stream: HopBuffer::new(),
            bootstrap: Bootstrap::new(),
            first: NoiseMinima::seeded(unset.as_slice()),
            second: NoiseMinima::seeded(unset.as_slice()),
            phase: MinimaPhase::start(),
        }
    }

    /// Back to the state before the first frame, with the same rule.
    pub fn reset(&mut self)
        ensures
            final(self).fresh(),
            final(self).kind == old(self).kind,
            !final(self).primed(),
    {
        let kind = self.kind;
        *self = PreDenoise::new(kind);
    }

    /// The suppression rule.
    pub fn kind(&self) -> (kind: DenoiseKind)
        ensures
            kind == self.kind,
    {
        self.kind
    }

    /// Whether the noise floor has been seeded.
    pub fn is_primed(&self) -> (primed: bool)
        ensures
            primed == self.primed(),
    {
        self.bootstrap.is_complete()
    }

    /// The least power per bin over the seeding hops.
    pub fn seed(&self) -> (seed: &[i64])
        ensures
            seed@ == self.bootstrap.least(),
    {
        self.bootstrap.seed()
    }

    /// Takes a hop while the noise floor is being seeded.  The hop that completes
    /// the seed starts both minimum searches from `smooth`.
    pub fn seed_hop(&mut self, power: &[i64], smooth: &[i64]) -> (step: SeedStep)
        requires
            old(self).wf(),
            !old(self).primed(),
            power@.len() == N_BINS,
            smooth@.len() == N_BINS,
        ensures
            final(self).wf(),
            final(self).kind == old(self).kind,
            final(self).stream == old(self).stream,
            final(self).phase == old(self).phase,
            final(self).bootstrap.hops() == old(self).bootstrap.hops() + 1,
            final(self).bootstrap.least().len() == N_BINS,
            forall|m: int|
                0 <= m < N_BINS ==> #[trigger] final(self).bootstrap.least()[m] == if old(
                    self).bootstrap.hops() == 0 {
                    power@[m] as int
                } else {
                    lesser(old(self).bootstrap.least()[m] as int, power@[m] as int)
                },
            final(self).primed() == (old(self).bootstrap.hops() + 1 == BOOTSTRAP_FRAMES),
            (step == SeedStep::Completed) == final(self).primed(),
            !final(self).primed() ==> final(self).first == old(self).first && final(self).second
                == old(self).second,
            final(self).primed() ==> forall|m: int|
                0 <= m < N_BINS ==> #[trigger] final(self).first.bin(
                    m,
                    MinimaPhase { next: 0, phase: 0 },
                ) == BinMinima::seeded(smooth@[m] as int),
            final(self).primed() ==> forall|m: int|
                0 <= m < N_BINS ==> #[trigger] final(self).second.bin(
                    m,
                    MinimaPhase { next: 0, phase: 0 },
                ) == BinMinima::seeded(smooth@[m] as int),
    {
        self.bootstrap.push(power);
        if self.bootstrap.is_complete() {
            self.first = NoiseMinima::seeded(smooth);
            self.second = NoiseMinima::seeded(smooth);
            SeedStep::Completed
        } else {
            SeedStep::Seeding
        }
    }

    /// First half of a hop once the floor is seeded: records the smoothed power
    /// per bin and returns the least that the first search holds of it.
    pub fn observe_smoothed(&mut self, smooth: &[i64]) -> (floors: Vec<i64>)
        requires
            old(self).wf(),
            smooth@.len() == N_BINS,
        ensures
            final(self).wf(),
            *final(self) == (PreDenoise { first: final(self).first, ..*old(self) }),
            floors@.len() == N_BINS,
            forall|m: int|
                0 <= m < N_BINS ==> {
                    &&& #[trigger] final(self).first.bin(m, final(self).phase) == old(
                        self).first.bin(m, old(self).phase).observed(smooth@[m] as int)
                    &&& floors@[m] == final(self).first.bin(m, final(self).phase).floor()
                },
    {
        self.first.observe(smooth);
        self.first.floors()
    }

    /// Second half of a hop once the floor is seeded: records the power smoothed
    /// without speech, ends the hop for both searches, and returns the least
    /// that the second search then holds.
    pub fn update_noise(&mut self, smooth: &[i64], without_speech: &[i64]) -> (floors: Vec<i64>)
        requires
            old(self).wf(),
            smooth@.len() == N_BINS,
            without_speech@.len() == N_BINS,
        ensures
            final(self).wf(),
            *final(self) == (PreDenoise {
                first: final(self).first,
                second: final(self).second,
                phase: old(self).phase.advanced(),
                ..*old(self)
            }),
            floors@.len() == N_BINS,
            forall|m: int|
                0 <= m < N_BINS ==> #[trigger] final(self).first.bin(m, final(self).phase) == old(
                    self).first.bin(m, old(self).phase).rotated(smooth@[m] as int),
            forall|m: int|
                0 <= m < N_BINS ==> {
                    &&& #[trigger] final(self).second.bin(m, final(self).phase) == old(
                        self).second.bin(m, old(self).phase).hop(without_speech@[m] as int)
                    &&& floors@[m] == final(self).second.bin(m, final(self).phase).floor()
                },
    {
        self.second.observe(without_speech);
        rotate_minima(
            &mut self.first,
            smooth,
            &mut self.second,
            without_speech,
            &mut self.phase,
        );
        self.second.floors()
    }
}

/// A value per bin above every power.
fn unset_bins() -> (values: Vec<i64>)
    ensures
        values@ == Seq::new(129, |m: int| i64::MAX),
{
    let mut values: Vec<i64> = Vec::new();
    let mut m: usize = 0;
    while m < N_BINS
        invariant
            m <= N_BINS,
            values@.len() == m,
            forall|j: int| 0 <= j < m ==> values@[j] == i64::MAX,
        decreases N_BINS - m,
    {
        values.push(i64::MAX);
        m = m + 1;
    }
    assert(values@ =~= Seq::new(129, |m: int| i64::MAX));
    values
}

// ---- What the parts amount to -----------------------------------------------

/// As many windows are filled as fit: the last one ends within the samples, and one
/// more, 128 samples on, would not.
pub proof fn law_windows_filled(pending: int)
    requires
        pending >= 0,
    ensures
        windows_filled(pending) >= 0,
        windows_filled(pending) >= 1 ==> 128 * (windows_filled(pending) - 1) + 256 <= pending,
        128 * windows_filled(pending) + 256 > pending,
{
}

/// What a frame does to the stream.  The samples waiting and those of the frame form
/// one sequence, off which the window takes 128 samples at a time; fewer than 256
/// stay.  What was ready and what is processed form one sequence too, off which 160
/// samples go out; where it is shorter, silence makes up the rest.
pub proof fn law_frame_through<T: Copy>(
    before: HopBuffer<T>,
    frame: Seq<T>,
    cleaned: Seq<T>,
    zero: T,
    out: Seq<T>,
    after: HopBuffer<T>,
    i: int,
)
    requires
        before.passes(frame, cleaned, zero, out, after),
        before.pending().len() < 256,
        0 <= i < 160,
    ensures
        cleaned.len() % 128 == 0,
        after.pending().len() < 256,
        after.pending().len() + cleaned.len() == before.pending().len() + frame.len(),
        forall|k: int|
            0 <= k < after.pending().len() ==> #[trigger] after.pending()[k] == (before.pending()
                + frame)[cleaned.len() + k],
        out.len() == 160,
        i < before.ready().len() ==> out[i] == before.ready()[i],
        before.ready().len() <= i < before.ready().len() + cleaned.len() ==> out[i] == cleaned[i
            - before.ready().len()],
        i >= before.ready().len() + cleaned.len() ==> out[i] == zero,
        before.ready().len() + cleaned.len() >= 160 ==> after.ready().len() == before.ready().len()
            + cleaned.len() - 160,
        before.ready().len() + cleaned.len() < 160 ==> after.ready().len() == 0,
        forall|k: int|
            0 <= k < after.ready().len() ==> #[trigger] after.ready()[k] == (before.ready()
                + cleaned)[160 + k],
{
    law_windows_filled((before.pending() + frame).len() as int);
}

/// A hop only ever lowers the current minimum, unless it ends a sub-window; every
/// fifteenth hop ends one, which then takes the place of the oldest of the eight.
pub proof fn law_minimum_hop(state: BinMinima, v: int)
    requires
        state.sub.len() == 8,
        0 <= state.phase < 15,
        0 <= state.next < 8,
    ensures
        state.phase < 14 ==> state.hop(v).run <= state.run && state.hop(v).run <= v && (
        state.hop(v).run == state.run || state.hop(v).run == v) && state.hop(v).sub == state.sub
            && state.hop(v).phase == state.phase + 1 && state.hop(v).next == state.next,
        state.phase == 14 ==> state.hop(v).run == v && state.hop(v).phase == 0 && state.hop(v).next
            == (if state.next == 7 { 0 } else { state.next + 1 }) && state.hop(v).sub[state.next]
            == (if v < state.run { v } else { state.run }),
        forall|u: int|
            0 <= u < 8 && u != state.next ==> #[trigger] state.hop(v).sub[u] == state.sub[u],
{
}

/// The floor is the least of the current minimum and the eight kept ones.
pub proof fn law_floor_is_least(state: BinMinima)
    ensures
        state.floor() <= state.run,
        forall|u: int| 0 <= u < 8 ==> state.floor() <= #[trigger] state.sub[u],
        state.floor() == state.run || exists|u: int|
            0 <= u < 8 && state.floor() == #[trigger] state.sub[u],
{
    let floor = state.floor();
    if floor != state.run {
        let u: int = if floor == state.sub[0] {
            0
        } else if floor == state.sub[1] {
            1
        } else if floor == state.sub[2] {
            2
        } else if floor == state.sub[3] {
            3
        } else if floor == state.sub[4] {
            4
        } else if floor == state.sub[5] {
            5
        } else if floor == state.sub[6] {
            6
        } else {
            7
        };
        assert(floor == state.sub[u]);
    }
}

/// The phase counts hops in fifteens and sub-windows in eights.
pub proof fn law_phase_counts(phase: MinimaPhase)
    requires
        phase.next < 8,
        phase.phase < 15,
    ensures
        phase.advanced().next < 8,
        phase.advanced().phase < 15,
        phase.phase < 14 ==> phase.advanced().phase == phase.phase + 1 && phase.advanced().next
            == phase.next,
        phase.phase == 14 ==> phase.advanced().phase == 0 && (phase.advanced().next == phase.next + 1
            || (phase.next == 7 && phase.advanced().next == 0)),
{
}

/// The neighbourhood of a bin reaches eight bins to either side, as far as there are
/// bins.
pub proof fn law_neighbourhood(m: int, k: int)
    requires
        0 <= m < 129,
        0 <= k < 129,
    ensures
        floor_lo(m) <= k < floor_hi(m) <==> -8 <= k - m <= 8,
        0 <= floor_lo(m) <= m < floor_hi(m) <= 129,
{
}

/// Seeding keeps the least power of each bin: after any number of hops the value
/// kept is one of the powers, and none of them is less.
pub proof fn law_seed_is_least(powers: Seq<i64>, kept: Seq<i64>, n: int)
    requires
        1 <= n <= powers.len() == kept.len(),
        kept[0] == powers[0],
        forall|i: int|
            1 <= i < kept.len() ==> #[trigger] kept[i] == lesser(
                kept[i - 1] as int,
                powers[i] as int,
            ),
    ensures
        forall|i: int| 0 <= i < n ==> kept[n - 1] <= #[trigger] powers[i],
        exists|i: int| 0 <= i < n && kept[n - 1] == #[trigger] powers[i],
    decreases n,
{
    if n > 1 {
        law_seed_is_least(powers, kept, n - 1);
        assert(kept[n - 1] == lesser(kept[n - 1 - 1] as int, powers[n - 1] as int));
        let w = choose|i: int| 0 <= i < n - 1 && kept[n - 2] == #[trigger] powers[i];
        if kept[n - 1] == powers[n - 1] {
            assert(kept[n - 1] == powers[n - 1]);
        } else {
            assert(kept[n - 1] == powers[w]);
        }
    } else {
        assert(kept[n - 1] == powers[0]);
    }
}

} // verus!
