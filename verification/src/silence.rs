//! Silence detection with hysteresis.
//!
//! Each frame votes: silent, voice, or neither.  Five silent votes with no voice
//! vote among them enter silence, three voice votes with no silent vote among
//! them leave it.  Frames that vote neither way keep both counts.

use vstd::prelude::*;

verus! {

/// Silent votes that enter silence.
pub const SILENCE_ENTER_FRAMES: u8 = 5;

/// Voice votes that leave silence.
pub const SILENCE_EXIT_FRAMES: u8 = 3;

/// The vote of one frame.
#[derive(Clone, Copy, Debug, PartialEq, Eq, Structural)]
pub enum Vote {
    /// The energy is below the low multiple of the noise floor.
    Silent,
    /// The energy is above the high multiple of the noise floor.
    Voice,
    /// Neither.
    Neither,
}

impl Vote {
    /// The vote of a frame: silent if its energy is below the lower multiple of
    /// the noise floor, voice if it is above the upper one.
    pub fn of(below: bool, above: bool) -> (vote: Vote)
        ensures
            vote == if below {
                Vote::Silent
            } else if above {
                Vote::Voice
            } else {
                Vote::Neither
            },
    {
        if below {
            Vote::Silent
        } else if above {
            Vote::Voice
        } else {
            Vote::Neither
        }
    }
}

/// Detector state.
#[derive(Clone, Copy, Debug, PartialEq, Eq, Structural)]
pub struct SilenceDetector {
    silent_count: u8,
    voice_count: u8,
    in_silence: bool,
}

/// A count one higher, held at the largest byte.
pub open spec fn counted(count: u8) -> u8 {
    if count < 255 { (count + 1) as u8 } else { 255 }
}

impl SilenceDetector {
    /// Silent votes since the last voice vote.
    pub closed spec fn silent_votes(self) -> u8 {
        self.silent_count
    }

    /// Voice votes since the last silent vote.
    pub closed spec fn voice_votes(self) -> u8 {
        self.voice_count
    }

    /// The current decision.
    pub closed spec fn silent(self) -> bool {
        self.in_silence
    }

    /// No votes, not in silence.
    pub fn cold_start() -> (detector: Self)
        ensures
            detector.silent_votes() == 0,
            detector.voice_votes() == 0,
            !detector.silent(),
    {
        SilenceDetector { silent_count: 0, voice_count: 0, in_silence: false }
    }

    /// The current decision.
    pub fn is_silent(&self) -> (silent: bool)
        ensures
            silent == self.silent(),
    {
        self.in_silence
    }

    /// `after` is the state that `vote` leads to from `self`.
    pub open spec fn moves_to(self, vote: Vote, after: SilenceDetector) -> bool {
        &&& after.silent_votes() == match vote {
            Vote::Silent => counted(self.silent_votes()),
            Vote::Voice => 0,
            Vote::Neither => self.silent_votes(),
        }
        &&& after.voice_votes() == match vote {
            Vote::Silent => 0,
            Vote::Voice => counted(self.voice_votes()),
            Vote::Neither => self.voice_votes(),
        }
        &&& after.silent() == if self.silent() {
            after.voice_votes() < SILENCE_EXIT_FRAMES
        } else {
            after.silent_votes() >= SILENCE_ENTER_FRAMES
        }
    }

    /// Takes the vote of a frame and returns the decision after it.
    pub fn update(&mut self, vote: Vote) -> (silent: bool)
        ensures
            old(self).moves_to(vote, *final(self)),
            silent == final(self).silent(),
    {
        match vote {
            Vote::Silent => {
                self.silent_count = self.silent_count.saturating_add(1);
                self.voice_count = 0;
            },
            Vote::Voice => {
                self.voice_count = self.voice_count.saturating_add(1);
                self.silent_count = 0;
            },
            Vote::Neither => {},
        }
        if !self.in_silence && self.silent_count >= SILENCE_ENTER_FRAMES {
            self.in_silence = true;
        } else if self.in_silence && self.voice_count >= SILENCE_EXIT_FRAMES {
            self.in_silence = false;
        }
        self.in_silence
    }
}

impl Default for SilenceDetector {
    fn default() -> (detector: Self)
        ensures
            detector.silent_votes() == 0,
            detector.voice_votes() == 0,
            !detector.silent(),
    {
        SilenceDetector::cold_start()
    }
}

/// The states that a sequence of votes leads through.
pub open spec fn is_run(states: Seq<SilenceDetector>, votes: Seq<Vote>) -> bool {
    &&& states.len() == votes.len() + 1
    &&& forall|i: int|
        0 <= i < votes.len() ==> states[i].moves_to(#[trigger] votes[i], states[i + 1])
}

proof fn lemma_silent_run(states: Seq<SilenceDetector>, votes: Seq<Vote>, n: int)
    requires
        is_run(states, votes),
        forall|i: int| 0 <= i < votes.len() ==> #[trigger] votes[i] == Vote::Silent,
        states[0].silent_votes() == 0,
        !states[0].silent(),
        0 <= n <= votes.len(),
        n <= 255,
    ensures
        states[n].silent_votes() == n,
        states[n].silent() <==> n >= 5,
        n > 0 ==> states[n].voice_votes() == 0,
    decreases n,
{
    if n > 0 {
        lemma_silent_run(states, votes, n - 1);
        assert(states[n - 1].moves_to(votes[n - 1], states[n - 1 + 1]));
    }
}

/// From a state with no silent vote pending, silence is entered with the fifth
/// silent vote in a row and not before.
pub proof fn law_silence_needs_five_votes(states: Seq<SilenceDetector>, votes: Seq<Vote>)
    requires
        is_run(states, votes),
        forall|i: int| 0 <= i < votes.len() ==> #[trigger] votes[i] == Vote::Silent,
        votes.len() <= 255,
        states[0].silent_votes() == 0,
        !states[0].silent(),
    ensures
        states.last().silent() <==> votes.len() >= 5,
{
    lemma_silent_run(states, votes, votes.len() as int);
}

proof fn lemma_voice_run(states: Seq<SilenceDetector>, votes: Seq<Vote>, n: int)
    requires
        is_run(states, votes),
        forall|i: int| 0 <= i < votes.len() ==> #[trigger] votes[i] == Vote::Voice,
        states[0].voice_votes() == 0,
        states[0].silent(),
        0 <= n <= votes.len(),
        n <= 255,
    ensures
        states[n].voice_votes() == n,
        states[n].silent() <==> n < 3,
        n > 0 ==> states[n].silent_votes() == 0,
    decreases n,
{
    if n > 0 {
        lemma_voice_run(states, votes, n - 1);
        assert(states[n - 1].moves_to(votes[n - 1], states[n - 1 + 1]));
    }
}

/// In silence with no voice vote pending, silence is left with the third voice
/// vote in a row and not before.
pub proof fn law_silence_left_after_three_votes(states: Seq<SilenceDetector>, votes: Seq<Vote>)
    requires
        is_run(states, votes),
        forall|i: int| 0 <= i < votes.len() ==> #[trigger] votes[i] == Vote::Voice,
        votes.len() <= 255,
        states[0].voice_votes() == 0,
        states[0].silent(),
    ensures
        states.last().silent() <==> votes.len() < 3,
{
    lemma_voice_run(states, votes, votes.len() as int);
}

/// A frame that votes neither way never changes the decision of a settled
/// detector: one that any sequence of votes can reach.
pub proof fn law_neutral_vote_keeps_decision(before: SilenceDetector, after: SilenceDetector)
    requires
        before.moves_to(Vote::Neither, after),
        before.silent() ==> before.voice_votes() < SILENCE_EXIT_FRAMES,
        !before.silent() ==> before.silent_votes() < SILENCE_ENTER_FRAMES,
    ensures
        after == before,
{
}

/// Every vote leads from a settled detector to a settled detector.
pub proof fn law_detector_stays_settled(before: SilenceDetector, vote: Vote, after: SilenceDetector)
    requires
        before.moves_to(vote, after),
        before.silent() ==> before.voice_votes() < SILENCE_EXIT_FRAMES,
        !before.silent() ==> before.silent_votes() < SILENCE_ENTER_FRAMES,
    ensures
        after.silent() ==> after.voice_votes() < SILENCE_EXIT_FRAMES,
        !after.silent() ==> after.silent_votes() < SILENCE_ENTER_FRAMES,
{
}

/// The positions of the last `k` silent votes before vote `n`, if so many are
/// counted.
proof fn lemma_counted_silent(states: Seq<SilenceDetector>, votes: Seq<Vote>, n: int, k: int) -> (at:
    Seq<int>)
    requires
        is_run(states, votes),
        states[0].silent_votes() == 0,
        0 <= n <= votes.len(),
        0 <= k <= states[n].silent_votes(),
    ensures
        at.len() == k,
        forall|i: int| 0 <= i < k ==> 0 <= #[trigger] at[i] < n && votes[at[i]] == Vote::Silent,
        forall|i: int, j: int| 0 <= i < j < k ==> at[i] < at[j],
        k > 0 ==> forall|j: int| at[0] <= j < n ==> votes[j] != Vote::Voice,
    decreases n,
{
    if k == 0 {
        Seq::empty()
    } else {
        let i: int = n - 1;
        assert(states[i].moves_to(votes[i], states[i + 1]));
        if votes[i] == Vote::Silent {
            let before = lemma_counted_silent(states, votes, i, k - 1);
            let at = before.push(i);
            assert forall|x: int| 0 <= x < k implies 0 <= #[trigger] at[x] < n && votes[at[x]]
                == Vote::Silent by {
                if x < k - 1 {
                    assert(at[x] == before[x]);
                }
            }
            assert forall|x: int, y: int| 0 <= x < y < k implies at[x] < at[y] by {
                assert(at[x] == before[x]);
                if y < k - 1 {
                    assert(at[y] == before[y]);
                }
            }
            assert forall|j: int| at[0] <= j < n implies votes[j] != Vote::Voice by {
                if k > 1 && j < i {
                    assert(at[0] == before[0]);
                }
            }
            at
        } else {
            lemma_counted_silent(states, votes, i, k)
        }
    }
}

proof fn lemma_counted_voice(states: Seq<SilenceDetector>, votes: Seq<Vote>, n: int, k: int) -> (at:
    Seq<int>)
    requires
        is_run(states, votes),
        states[0].voice_votes() == 0,
        0 <= n <= votes.len(),
        0 <= k <= states[n].voice_votes(),
    ensures
        at.len() == k,
        forall|i: int| 0 <= i < k ==> 0 <= #[trigger] at[i] < n && votes[at[i]] == Vote::Voice,
        forall|i: int, j: int| 0 <= i < j < k ==> at[i] < at[j],
        k > 0 ==> forall|j: int| at[0] <= j < n ==> votes[j] != Vote::Silent,
    decreases n,
{
    if k == 0 {
        Seq::empty()
    } else {
        let i: int = n - 1;
        assert(states[i].moves_to(votes[i], states[i + 1]));
        if votes[i] == Vote::Voice {
            let before = lemma_counted_voice(states, votes, i, k - 1);
            let at = before.push(i);
            assert forall|x: int| 0 <= x < k implies 0 <= #[trigger] at[x] < n && votes[at[x]]
                == Vote::Voice by {
                if x < k - 1 {
                    assert(at[x] == before[x]);
                }
            }
            assert forall|x: int, y: int| 0 <= x < y < k implies at[x] < at[y] by {
                assert(at[x] == before[x]);
                if y < k - 1 {
                    assert(at[y] == before[y]);
                }
            }
            assert forall|j: int| at[0] <= j < n implies votes[j] != Vote::Silent by {
                if k > 1 && j < i {
                    assert(at[0] == before[0]);
                }
            }
            at
        } else {
            lemma_counted_voice(states, votes, i, k)
        }
    }
}

/// Silence is entered only on five silent votes with no voice vote since the first
/// of them: if the detector is silent after `n` votes and was not one vote before,
/// there are five such votes, at the positions `at`.
pub proof fn law_silence_entered_only_by_five(
    states: Seq<SilenceDetector>,
    votes: Seq<Vote>,
    n: int,
) -> (at: Seq<int>)
    requires
        is_run(states, votes),
        states[0].silent_votes() == 0,
        1 <= n <= votes.len(),
        !states[n - 1].silent(),
        states[n].silent(),
    ensures
        at.len() == 5,
        forall|i: int| 0 <= i < 5 ==> 0 <= #[trigger] at[i] < n && votes[at[i]] == Vote::Silent,
        forall|i: int, j: int| 0 <= i < j < 5 ==> at[i] < at[j],
        forall|j: int| at[0] <= j < n ==> votes[j] != Vote::Voice,
{
    assert(states[n - 1].moves_to(votes[n - 1], states[n - 1 + 1]));
    lemma_counted_silent(states, votes, n, 5)
}

/// A run outside silence in which every five silent votes have a voice vote among
/// them never becomes silent.
pub proof fn law_broken_silence_is_not_silence(
    states: Seq<SilenceDetector>,
    votes: Seq<Vote>,
    n: int,
)
    requires
        is_run(states, votes),
        states[0].silent_votes() == 0,
        !states[0].silent(),
        0 <= n <= votes.len(),
        forall|at: Seq<int>|
            #![trigger at.len()]
            at.len() == 5 && (forall|i: int|
                0 <= i < 5 ==> 0 <= #[trigger] at[i] < votes.len() && votes[at[i]] == Vote::Silent)
                && (forall|i: int, j: int| 0 <= i < j < 5 ==> at[i] < at[j]) ==> exists|j: int|
                at[0] < j < at[4] && #[trigger] votes[j] == Vote::Voice,
    ensures
        !states[n].silent(),
    decreases n,
{
    if n > 0 {
        law_broken_silence_is_not_silence(states, votes, n - 1);
        if states[n].silent() {
            let at = law_silence_entered_only_by_five(states, votes, n);
            assert(at.len() == 5);
            let j = choose|j: int| at[0] < j < at[4] && #[trigger] votes[j] == Vote::Voice;
            assert(at[4] < n);
            assert(votes[j] != Vote::Voice);
        }
    }
}

/// Silence is left only on three voice votes with no silent vote since the first of
/// them, at the positions `at`.
pub proof fn law_silence_left_only_by_three(
    states: Seq<SilenceDetector>,
    votes: Seq<Vote>,
    n: int,
) -> (at: Seq<int>)
    requires
        is_run(states, votes),
        states[0].voice_votes() == 0,
        1 <= n <= votes.len(),
        states[n - 1].silent(),
        !states[n].silent(),
    ensures
        at.len() == 3,
        forall|i: int| 0 <= i < 3 ==> 0 <= #[trigger] at[i] < n && votes[at[i]] == Vote::Voice,
        forall|i: int, j: int| 0 <= i < j < 3 ==> at[i] < at[j],
        forall|j: int| at[0] <= j < n ==> votes[j] != Vote::Silent,
{
    assert(states[n - 1].moves_to(votes[n - 1], states[n - 1 + 1]));
    lemma_counted_voice(states, votes, n, 3)
}

/// From vote `from` on, where no voice vote comes, silent votes add up.
proof fn lemma_silent_adds_up(
    states: Seq<SilenceDetector>,
    votes: Seq<Vote>,
    from: int,
    to: int,
)
    requires
        is_run(states, votes),
        0 <= from < to <= votes.len(),
        votes[from] == Vote::Silent,
        forall|j: int| from <= j < to ==> #[trigger] votes[j] != Vote::Voice,
    ensures
        states[to].voice_votes() == 0,
        states[to].silent_votes() >= (if states[from].silent_votes() < 255 {
            states[from].silent_votes() + 1
        } else {
            255
        }),
        states[from].silent() ==> states[to].silent(),
        states[from + 1].silent() ==> states[to].silent(),
    decreases to,
{
    assert(states[from].moves_to(votes[from], states[from + 1]));
    if to > from + 1 {
        lemma_silent_adds_up(states, votes, from, to - 1);
        assert(states[to - 1].moves_to(votes[to - 1], states[to - 1 + 1]));
    }
}

/// Five silent votes with no voice vote since the first of them always lead to
/// silence, and it lasts while no voice vote comes.
pub proof fn law_five_silent_votes_enter(
    states: Seq<SilenceDetector>,
    votes: Seq<Vote>,
    a: int,
    b: int,
    c: int,
    d: int,
    e: int,
    n: int,
)
    requires
        is_run(states, votes),
        0 <= a < b < c < d < e < n <= votes.len(),
        votes[a] == Vote::Silent,
        votes[b] == Vote::Silent,
        votes[c] == Vote::Silent,
        votes[d] == Vote::Silent,
        votes[e] == Vote::Silent,
        forall|j: int| a <= j < n ==> #[trigger] votes[j] != Vote::Voice,
    ensures
        states[n].silent(),
{
    lemma_silent_adds_up(states, votes, a, b);
    lemma_silent_adds_up(states, votes, b, c);
    lemma_silent_adds_up(states, votes, c, d);
    lemma_silent_adds_up(states, votes, d, e);
    lemma_silent_adds_up(states, votes, e, n);
    assert(states[e].moves_to(votes[e], states[e + 1]));
}

proof fn lemma_voice_adds_up(
    states: Seq<SilenceDetector>,
    votes: Seq<Vote>,
    from: int,
    to: int,
)
    requires
        is_run(states, votes),
        0 <= from < to <= votes.len(),
        votes[from] == Vote::Voice,
        forall|j: int| from <= j < to ==> #[trigger] votes[j] != Vote::Silent,
    ensures
        states[to].silent_votes() == 0,
        states[to].voice_votes() >= (if states[from].voice_votes() < 255 {
            states[from].voice_votes() + 1
        } else {
            255
        }),
        !states[from].silent() ==> !states[to].silent(),
        !states[from + 1].silent() ==> !states[to].silent(),
    decreases to,
{
    assert(states[from].moves_to(votes[from], states[from + 1]));
    if to > from + 1 {
        lemma_voice_adds_up(states, votes, from, to - 1);
        assert(states[to - 1].moves_to(votes[to - 1], states[to - 1 + 1]));
    }
}

/// Three voice votes with no silent vote since the first of them always end
/// silence, and it stays away while no silent vote comes.
pub proof fn law_three_voice_votes_leave(
    states: Seq<SilenceDetector>,
    votes: Seq<Vote>,
    a: int,
    b: int,
    c: int,
    n: int,
)
    requires
        is_run(states, votes),
        0 <= a < b < c < n <= votes.len(),
        votes[a] == Vote::Voice,
        votes[b] == Vote::Voice,
        votes[c] == Vote::Voice,
        forall|j: int| a <= j < n ==> #[trigger] votes[j] != Vote::Silent,
    ensures
        !states[n].silent(),
{
    lemma_voice_adds_up(states, votes, a, b);
    lemma_voice_adds_up(states, votes, b, c);
    lemma_voice_adds_up(states, votes, c, n);
    assert(states[c].moves_to(votes[c], states[c + 1]));
}

} // verus!
