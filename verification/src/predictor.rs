//! State of the log-magnitude predictors.
//!
//! A predictor remembers one value per harmonic of the previous frame.  Reads
//! past the last harmonic give the value of the last one.  The values are
//! opaque here.

use vstd::prelude::*;

use crate::refine::L_HAT_MAX;

verus! {

/// Harmonics that the full-rate predictor starts with.
pub const L_TILDE_COLD_START: u8 = 30;

/// Harmonics that the half-rate predictor starts with.
pub const L_TILDE_COLD_START_HALFRATE: u8 = 15;

/// Full-rate predictor state.  Slot 0 holds the value below the first harmonic.
#[derive(Clone, Debug)]
pub struct PredictorState<T> {
    dc: T,
    prev: Vec<T>,
    l_prev: u8,
}

fn filled<T: Copy>(value: T) -> (values: Vec<T>)
    ensures
        values@ == Seq::new(57, |l: int| value),
{
    let mut values: Vec<T> = Vec::new();
    let mut l: usize = 0;
    while l < 57
        invariant
            l <= 57,
            values@.len() == l,
            forall|i: int| 0 <= i < l ==> values@[i] == value,
        decreases 57 - l,
    {
        values.push(value);
        l = l + 1;
    }
    assert(values@ =~= Seq::new(57, |l: int| value));
    values
}

fn copy_harmonics<T: Copy>(target: &mut Vec<T>, source: &[T], l_count: u8)
    requires
        old(target)@.len() == 57,
        l_count <= L_HAT_MAX,
        source@.len() > l_count,
    ensures
        final(target)@.len() == 57,
        forall|l: int|
            0 <= l < 57 ==> #[trigger] final(target)@[l] == if 1 <= l <= l_count {
                source@[l]
            } else {
                old(target)@[l]
            },
{
    let mut l: usize = 1;
    while l <= l_count as usize
        invariant
            1 <= l <= l_count + 1,
            l_count <= L_HAT_MAX,
            source@.len() > l_count,
            target@.len() == 57,
            forall|i: int|
                0 <= i < 57 ==> #[trigger] target@[i] == if 1 <= i < l {
                    source@[i]
                } else {
                    old(target)@[i]
                },
        decreases l_count + 1 - l,
    {
        target[l] = source[l];
        l = l + 1;
    }
}

impl<T: Copy> PredictorState<T> {
    /// The remembered values; slot `l` belongs to harmonic `l`.
    pub closed spec fn values(self) -> Seq<T> {
        self.prev@
    }

    /// The value below the first harmonic.
    pub closed spec fn dc(self) -> T {
        self.dc
    }

    /// Harmonics of the previous frame.
    pub closed spec fn harmonics(self) -> int {
        self.l_prev as int
    }

    /// There is a slot for every harmonic, and slot 0 holds the value below the
    /// first one.
    pub closed spec fn wf(self) -> bool {
        &&& self.prev@.len() == 57
        &&& self.l_prev <= L_HAT_MAX
        &&& self.prev@[0] == self.dc
    }

    /// What a read of harmonic `l` gives.
    pub open spec fn reads(self, l: int) -> T {
        if l <= 0 {
            self.dc()
        } else if l <= self.harmonics() {
            self.values()[l]
        } else {
            self.values()[self.harmonics()]
        }
    }

    /// The state before the first frame: every value is `dc`.
    pub fn cold_start(dc: T) -> (state: Self)
        ensures
            state.wf(),
            state.dc() == dc,
            state.values() == Seq::new(57, |l: int| dc),
            state.harmonics() == L_TILDE_COLD_START,
    {
        PredictorState { dc, prev: filled(dc), l_prev: L_TILDE_COLD_START }
    }

    /// The value of harmonic `l`, with the rules for `l` below the first and
    /// above the last harmonic.
    pub fn read(&self, l: u32) -> (value: T)
        requires
            self.wf(),
        ensures
            value == self.reads(l as int),
    {
        if l == 0 {
            return self.dc;
        }
        if l <= self.l_prev as u32 {
            self.prev[l as usize]
        } else {
            self.prev[self.l_prev as usize]
        }
    }

    /// The values of harmonics 1 up to the last, harmonic `l` at `l - 1`.
    pub fn m_tilde_prev_slice(&self) -> (values: Vec<T>)
        requires
            self.wf(),
        ensures
            values@ == self.values().subrange(1, self.harmonics() + 1),
    {
        let mut values: Vec<T> = Vec::new();
        let mut l: usize = 1;
        while l <= self.l_prev as usize
            invariant
                self.wf(),
                1 <= l <= self.l_prev + 1,
                values@ == self.prev@.subrange(1, l as int),
            decreases self.l_prev + 1 - l,
        {
            values.push(self.prev[l]);
            assert(values@ =~= self.prev@.subrange(1, l + 1));
            l = l + 1;
        }
        values
    }

    /// Harmonics of the previous frame.
    pub fn l_tilde_prev(&self) -> (l_prev: u8)
        requires
            self.wf(),
        ensures
            l_prev == self.harmonics(),
            l_prev <= L_HAT_MAX,
    {
        self.l_prev
    }

    /// `after` remembers a frame with the values `curr` of `l_curr` harmonics.
    /// Slots past the last harmonic hold its value; without harmonics that is
    /// the value below the first.
    pub open spec fn commits_to(self, curr: Seq<T>, l_curr: int, after: Self) -> bool {
        &&& after.dc() == self.dc()
        &&& after.harmonics() == l_curr
        &&& after.values().len() == 57
        &&& forall|l: int|
            0 <= l < 57 ==> #[trigger] after.values()[l] == if l == 0 || l_curr == 0 {
                self.dc()
            } else if l <= l_curr {
                curr[l]
            } else {
                curr[l_curr]
            }
    }

    /// Remembers the values of a frame; slot `l` of `m_tilde_curr` belongs to
    /// harmonic `l`.
    pub fn commit(&mut self, m_tilde_curr: &[T], l_tilde_curr: u8)
        requires
            old(self).wf(),
            l_tilde_curr <= L_HAT_MAX,
            m_tilde_curr@.len() > l_tilde_curr,
        ensures
            final(self).wf(),
            old(self).commits_to(m_tilde_curr@, l_tilde_curr as int, *final(self)),
    {
        copy_harmonics(&mut self.prev, m_tilde_curr, l_tilde_curr);
        let last: T = self.prev[l_tilde_curr as usize];
        let mut l: usize = l_tilde_curr as usize + 1;
        while l < 57
            invariant
                l_tilde_curr + 1 <= l <= 57,
                l_tilde_curr <= L_HAT_MAX,
                m_tilde_curr@.len() > l_tilde_curr,
                self.prev@.len() == 57,
                self.dc == old(self).dc,
                old(self).wf(),
                last == if l_tilde_curr == 0 {
                    self.dc
                } else {
                    m_tilde_curr@[l_tilde_curr as int]
                },
                self.prev@[0] == self.dc,
                forall|i: int|
                    1 <= i < l ==> #[trigger] self.prev@[i] == if i <= l_tilde_curr {
                        m_tilde_curr@[i]
                    } else {
                        last
                    },
            decreases 57 - l,
        {
            self.prev[l] = last;
            l = l + 1;
        }
        self.l_prev = l_tilde_curr;
    }
}

/// After a commit, reads give back what was committed; past the last harmonic
/// they give its value, and below the first the fixed one.  Up to the highest
/// possible harmonic a read is the remembered value itself.
pub proof fn law_read_after_commit<T: Copy>(
    before: PredictorState<T>,
    after: PredictorState<T>,
    curr: Seq<T>,
    l_curr: int,
    l: int,
)
    requires
        0 <= l_curr <= L_HAT_MAX,
        before.commits_to(curr, l_curr, after),
    ensures
        l <= 0 ==> after.reads(l) == before.dc(),
        1 <= l <= l_curr ==> after.reads(l) == curr[l],
        1 <= l_curr < l ==> after.reads(l) == curr[l_curr],
        l_curr == 0 ==> after.reads(l) == before.dc(),
        0 <= l < 57 ==> after.reads(l) == after.values()[l],
{
}

/// The two harmonics between which the predictor interpolates at position
/// `k_floor` (rounded down) when the previous frame has `l_prev` harmonics.
pub fn interpolation_slots(k_floor: i32, l_prev: u8) -> (slots: (u32, u32))
    ensures
        ({
            let top = if l_prev < 1 { 1int } else { l_prev as int };
            &&& slots.0 == if k_floor < 0 { 0 } else if k_floor <= top { k_floor as int } else { top }
            &&& slots.1 == if k_floor < 0 { 0 } else if k_floor < top { k_floor + 1 } else { top }
        }),
        slots.0 <= slots.1 <= slots.0 + 1,
        slots.1 <= l_prev || slots.1 == 1,
        0 <= k_floor < l_prev ==> slots.0 == k_floor && slots.1 == k_floor + 1,
        k_floor >= l_prev >= 1 ==> slots.0 == l_prev && slots.1 == l_prev,
        k_floor < 0 ==> slots.1 == 0,
{
    let top: i32 = if l_prev < 1 { 1 } else { l_prev as i32 };
    if k_floor < 0 {
        (0, 0)
    } else if k_floor < top {
        (k_floor as u32, (k_floor + 1) as u32)
    } else {
        (top as u32, top as u32)
    }
}

/// Half-rate predictor state: log-domain values and the gain of the previous
/// frame.  A read below the first harmonic gives the value of the first.
#[derive(Clone, Debug)]
pub struct HalfratePredictorState<T> {
    prev: Vec<T>,
    l_prev: u8,
    gamma: T,
}

impl<T: Copy> HalfratePredictorState<T> {
    /// The remembered values; slot `l` belongs to harmonic `l`.
    pub closed spec fn values(self) -> Seq<T> {
        self.prev@
    }

    /// Harmonics of the previous frame.
    pub closed spec fn harmonics(self) -> int {
        self.l_prev as int
    }

    /// Gain of the previous frame.
    pub closed spec fn gain(self) -> T {
        self.gamma
    }

    /// There is a slot for every harmonic.
    pub closed spec fn wf(self) -> bool {
        self.prev@.len() == 57 && self.l_prev <= L_HAT_MAX
    }

    /// What a read of harmonic `l` gives.
    pub open spec fn reads(self, l: int) -> T {
        if l <= 1 || self.harmonics() <= 1 {
            self.values()[1]
        } else if l <= self.harmonics() {
            self.values()[l]
        } else {
            self.values()[self.harmonics()]
        }
    }

    /// The state before the first frame.
    pub fn cold_start(value: T, gain: T) -> (state: Self)
        ensures
            state.wf(),
            state.values() == Seq::new(57, |l: int| value),
            state.harmonics() == L_TILDE_COLD_START_HALFRATE,
            state.gain() == gain,
    {
        HalfratePredictorState {
            prev: filled(value),
            l_prev: L_TILDE_COLD_START_HALFRATE,
            gamma: gain,
        }
    }

    /// The value of harmonic `l`, with the rules for `l` below the first and
    /// above the last harmonic.
    pub fn read(&self, l: u32) -> (value: T)
        requires
            self.wf(),
        ensures
            value == self.reads(l as int),
    {
        if l == 0 {
            return self.prev[1];
        }
        let top: u32 = if self.l_prev < 1 { 1 } else { self.l_prev as u32 };
        if l <= top {
            self.prev[l as usize]
        } else {
            self.prev[top as usize]
        }
    }

    /// Harmonics of the previous frame.
    pub fn l_tilde_prev(&self) -> (l_prev: u8)
        requires
            self.wf(),
        ensures
            l_prev == self.harmonics(),
            l_prev <= L_HAT_MAX,
    {
        self.l_prev
    }

    /// Gain of the previous frame.
    pub fn gamma_tilde_prev(&self) -> (gain: T)
        ensures
            gain == self.gain(),
    {
        self.gamma
    }

    /// The remembered values.
    pub fn lambda_tilde_prev(&self) -> (values: &[T])
        requires
            self.wf(),
        ensures
            values@ == self.values(),
            values@.len() == 57,
    {
        self.prev.as_slice()
    }

    /// `after` remembers a frame with the values `curr` of `l_curr` harmonics and
    /// the gain `gain`.  The other slots stay.
    pub open spec fn commits_to(self, curr: Seq<T>, l_curr: int, gain: T, after: Self) -> bool {
        &&& after.harmonics() == l_curr
        &&& after.gain() == gain
        &&& after.values().len() == 57
        &&& forall|l: int|
            0 <= l < 57 ==> #[trigger] after.values()[l] == if 1 <= l <= l_curr {
                curr[l]
            } else {
                self.values()[l]
            }
    }

    /// Remembers the values and the gain of a frame.
    pub fn commit(&mut self, lambda_tilde_curr: &[T], l_tilde_curr: u8, gamma_tilde_curr: T)
        requires
            old(self).wf(),
            l_tilde_curr <= L_HAT_MAX,
            lambda_tilde_curr@.len() > l_tilde_curr,
        ensures
            final(self).wf(),
            old(self).commits_to(
                lambda_tilde_curr@,
                l_tilde_curr as int,
                gamma_tilde_curr,
                *final(self),
            ),
    {
        copy_harmonics(&mut self.prev, lambda_tilde_curr, l_tilde_curr);
        self.l_prev = l_tilde_curr;
        self.gamma = gamma_tilde_curr;
    }
}

impl<T: Copy> HalfratePredictorState<T> {
    /// The values handed to the matched decoder: `zero` in slot 0, then the
    /// values of harmonics 1 up to the last.
    pub fn lambda_prev_slice(&self, zero: T) -> (values: Vec<T>)
        requires
            self.wf(),
        ensures
            values@ == seq![zero] + self.values().subrange(1, self.harmonics() + 1),
    {
        let mut values: Vec<T> = Vec::new();
        values.push(zero);
        assert(values@ =~= seq![zero] + self.prev@.subrange(1, 1));
        let mut l: usize = 1;
        while l <= self.l_prev as usize
            invariant
                self.wf(),
                1 <= l <= self.l_prev + 1,
                values@ == seq![zero] + self.prev@.subrange(1, l as int),
            decreases self.l_prev + 1 - l,
        {
            values.push(self.prev[l]);
            assert(values@ =~= seq![zero] + self.prev@.subrange(1, l + 1));
            l = l + 1;
        }
        values
    }
}

/// The values that the matched decoder committed: those of `snapshot` for
/// harmonics 1 to `committed_l` as far as it reaches, `zero` elsewhere.
pub fn lambda_from_snapshot<T: Copy>(snapshot: &[T], committed_l: u8, zero: T) -> (values: Vec<T>)
    requires
        committed_l <= L_HAT_MAX,
    ensures
        values@.len() == 57,
        forall|l: int|
            0 <= l < 57 ==> #[trigger] values@[l] == if 1 <= l <= committed_l && l
                < snapshot@.len() {
                snapshot@[l]
            } else {
                zero
            },
{
    let mut values: Vec<T> = Vec::new();
    let mut l: usize = 0;
    while l < 57
        invariant
            l <= 57,
            values@.len() == l,
            forall|i: int|
                0 <= i < l ==> #[trigger] values@[i] == if 1 <= i <= committed_l && i
                    < snapshot@.len() {
                    snapshot@[i]
                } else {
                    zero
                },
        decreases 57 - l,
    {
        if 1 <= l && l <= committed_l as usize && l < snapshot.len() {
            values.push(snapshot[l]);
        } else {
            values.push(zero);
        }
        l = l + 1;
    }
    values
}

/// After a commit of at least one harmonic, half-rate reads give back what was
/// committed: the first value below the first harmonic, the last value past the
/// last.
pub proof fn law_halfrate_read_after_commit<T: Copy>(
    before: HalfratePredictorState<T>,
    after: HalfratePredictorState<T>,
    curr: Seq<T>,
    l_curr: int,
    gain: T,
    l: int,
)
    requires
        1 <= l_curr <= L_HAT_MAX,
        before.commits_to(curr, l_curr, gain, after),
    ensures
        l <= 1 ==> after.reads(l) == curr[1],
        1 <= l <= l_curr ==> after.reads(l) == curr[l],
        l_curr < l ==> after.reads(l) == curr[l_curr],
{
}

/// Before the first frame every full-rate read gives the same value.
pub proof fn law_cold_reads<T: Copy>(state: PredictorState<T>, dc: T, l: int)
    requires
        state.dc() == dc,
        state.values() == Seq::new(57, |l: int| dc),
        0 <= state.harmonics() <= L_HAT_MAX,
    ensures
        state.reads(l) == dc,
{
}

/// A read repeats: past the last harmonic, and at half rate below the first, it gives
/// the value at that end.
pub proof fn law_reads_are_held<T: Copy>(
    full: PredictorState<T>,
    half: HalfratePredictorState<T>,
    l: int,
)
    requires
        full.harmonics() >= 1,
        half.harmonics() >= 1,
    ensures
        l >= full.harmonics() ==> full.reads(l) == full.values()[full.harmonics()],
        l <= 0 ==> full.reads(l) == full.dc(),
        1 <= l <= full.harmonics() ==> full.reads(l) == full.values()[l],
        l >= half.harmonics() ==> half.reads(l) == half.values()[half.harmonics()],
        l <= 1 ==> half.reads(l) == half.values()[1],
        1 <= l <= half.harmonics() ==> half.reads(l) == half.values()[l],
{
}

} // verus!
