//! Searching and ranking sequences of order keys.

use vstd::prelude::*;

verus! {

/// `i` is the first position of the least key in `keys[lo..hi]`.
pub open spec fn is_first_min(keys: Seq<i64>, lo: int, hi: int, i: int) -> bool {
    &&& lo <= i < hi
    &&& forall|j: int| lo <= j < hi ==> keys[i] <= keys[j]
    &&& forall|j: int| lo <= j < i ==> keys[i] < keys[j]
}

/// `i` is the first position of the greatest key in `keys[lo..hi]`.
pub open spec fn is_first_max(keys: Seq<i64>, lo: int, hi: int, i: int) -> bool {
    &&& lo <= i < hi
    &&& forall|j: int| lo <= j < hi ==> keys[j] <= keys[i]
    &&& forall|j: int| lo <= j < i ==> keys[j] < keys[i]
}

/// The first position of the least key in `keys[lo..hi]`.
pub fn first_min(keys: &[i64], lo: usize, hi: usize) -> (best: usize)
    requires
        lo < hi <= keys@.len(),
    ensures
        is_first_min(keys@, lo as int, hi as int, best as int),
{
    let mut best: usize = lo;
    let mut at: usize = lo + 1;
    while at < hi
        invariant
            lo < at <= hi <= keys@.len(),
            is_first_min(keys@, lo as int, at as int, best as int),
        decreases hi - at,
    {
        if keys[at] < keys[best] {
            best = at;
        }
        at = at + 1;
    }
    best
}

/// The first position of the greatest key in `keys[lo..hi]`.
pub fn first_max(keys: &[i64], lo: usize, hi: usize) -> (best: usize)
    requires
        lo < hi <= keys@.len(),
    ensures
        is_first_max(keys@, lo as int, hi as int, best as int),
{
    let mut best: usize = lo;
    let mut at: usize = lo + 1;
    while at < hi
        invariant
            lo < at <= hi <= keys@.len(),
            is_first_max(keys@, lo as int, at as int, best as int),
        decreases hi - at,
    {
        if keys[at] > keys[best] {
            best = at;
        }
        at = at + 1;
    }
    best
}

/// How many keys of `s` lie below `v`.
pub open spec fn count_below(s: Seq<i64>, v: int) -> nat
    decreases s.len(),
{
    if s.len() == 0 {
        0
    } else {
        count_below(s.drop_last(), v) + if s.last() < v { 1nat } else { 0nat }
    }
}

/// `v` is the key of rank `k` (counted from 0) when `s` is put in ascending
/// order: at most `k` keys lie below it, and more than `k` lie at or below it.
pub open spec fn is_rank(s: Seq<i64>, k: int, v: i64) -> bool {
    &&& s.contains(v)
    &&& count_below(s, v as int) <= k < count_below(s, v + 1)
}

proof fn lemma_count_insert(s: Seq<i64>, i: int, a: i64, v: int)
    requires
        0 <= i <= s.len(),
    ensures
        count_below(s.insert(i, a), v) == count_below(s, v) + if a < v { 1nat } else { 0nat },
    decreases s.len(),
{
    let t = s.insert(i, a);
    if i == s.len() {
        assert(t.drop_last() =~= s);
    } else {
        assert(t.drop_last() =~= s.drop_last().insert(i, a));
        lemma_count_insert(s.drop_last(), i, a, v);
    }
}

proof fn lemma_count_bounds(s: Seq<i64>, k: int, v: int)
    requires
        0 <= k <= s.len(),
        forall|i: int, j: int| 0 <= i <= j < s.len() ==> s[i] <= s[j],
    ensures
        k < s.len() && s[k] >= v ==> count_below(s, v) <= k,
        k > 0 && s[k - 1] < v ==> k <= count_below(s, v),
        count_below(s, v) <= s.len(),
    decreases s.len(),
{
    if s.len() > 0 {
        let rest = s.drop_last();
        let k_rest = if k < s.len() { k } else { k - 1 };
        lemma_count_bounds(rest, k_rest, v);
        if k == s.len() && k > 1 {
            assert(rest[k - 2] <= s[k - 1]);
        }
    }
}

/// The keys in ascending order.
fn ascending(keys: &[i64]) -> (sorted: Vec<i64>)
    ensures
        sorted@.len() == keys@.len(),
        forall|i: int, j: int| 0 <= i <= j < sorted@.len() ==> sorted@[i] <= sorted@[j],
        forall|i: int| 0 <= i < sorted@.len() ==> keys@.contains(#[trigger] sorted@[i]),
        forall|v: int| #[trigger] count_below(sorted@, v) == count_below(keys@, v),
{
    let mut sorted: Vec<i64> = Vec::new();
    let mut at: usize = 0;
    assert(keys@.take(0) =~= Seq::<i64>::empty());
    while at < keys.len()
        invariant
            at <= keys@.len(),
            sorted@.len() == at,
            forall|i: int, j: int| 0 <= i <= j < sorted@.len() ==> sorted@[i] <= sorted@[j],
            forall|i: int| 0 <= i < sorted@.len() ==> keys@.contains(#[trigger] sorted@[i]),
            forall|v: int| #[trigger]
                count_below(sorted@, v) == count_below(keys@.take(at as int), v),
        decreases keys@.len() - at,
    {
        let key: i64 = keys[at];
        let mut slot: usize = at;
        while slot > 0 && sorted[slot - 1] > key
            invariant
                slot <= at == sorted@.len(),
                forall|i: int, j: int| 0 <= i <= j < sorted@.len() ==> sorted@[i] <= sorted@[j],
                forall|i: int| slot <= i < sorted@.len() ==> sorted@[i] > key,
            decreases slot,
        {
            slot = slot - 1;
        }
        let ghost before = sorted@;
        sorted.insert(slot, key);
        proof {
            assert forall|i: int| 0 <= i < sorted@.len() implies keys@.contains(
                #[trigger] sorted@[i],
            ) by {
                if i < slot {
                    assert(sorted@[i] == before[i]);
                } else if i > slot {
                    assert(sorted@[i] == before[i - 1]);
                } else {
                    assert(keys@[at as int] == key);
                }
            }
            assert forall|v: int| #[trigger]
                count_below(sorted@, v) == count_below(keys@.take(at + 1), v) by {
                lemma_count_insert(before, slot as int, key, v);
                assert(keys@.take(at + 1).drop_last() =~= keys@.take(at as int));
                assert(count_below(before, v) == count_below(keys@.take(at as int), v));
            }
        }
        at = at + 1;
    }
    assert(keys@.take(at as int) =~= keys@);
    sorted
}

/// The key of rank `k` (counted from 0) in ascending order.
pub fn key_of_rank(keys: &[i64], k: usize) -> (key: i64)
    requires
        k < keys@.len(),
    ensures
        is_rank(keys@, k as int, key),
{
    let sorted = ascending(keys);
    let key: i64 = sorted[k];
    proof {
        lemma_count_bounds(sorted@, k as int, key as int);
        lemma_count_bounds(sorted@, k + 1, key + 1);
        assert(count_below(sorted@, key as int) == count_below(keys@, key as int));
        assert(count_below(sorted@, key + 1) == count_below(keys@, key + 1));
    }
    key
}

proof fn lemma_count_monotone(s: Seq<i64>, v: int, w: int)
    requires
        v <= w,
    ensures
        count_below(s, v) <= count_below(s, w),
    decreases s.len(),
{
    if s.len() > 0 {
        lemma_count_monotone(s.drop_last(), v, w);
    }
}

/// Only one key has a given rank.
pub proof fn law_rank_unique(s: Seq<i64>, k: int, v: i64, w: i64)
    requires
        is_rank(s, k, v),
        is_rank(s, k, w),
    ensures
        v == w,
{
    if v < w {
        lemma_count_monotone(s, v + 1, w as int);
    }
    if w < v {
        lemma_count_monotone(s, w + 1, v as int);
    }
}

/// What a first minimum is: a position in the range whose key no key in the range
/// undercuts and none before it equals.
pub proof fn law_first_min(keys: Seq<i64>, lo: int, hi: int, i: int)
    ensures
        is_first_min(keys, lo, hi, i) <==> lo <= i < hi && (forall|j: int|
            lo <= j < hi ==> if j < i { #[trigger] keys[j] > keys[i] } else { keys[j] >= keys[i] }),
{
}

/// What a first maximum is: a position in the range whose key no key in the range
/// exceeds and none before it equals.
pub proof fn law_first_max(keys: Seq<i64>, lo: int, hi: int, i: int)
    ensures
        is_first_max(keys, lo, hi, i) <==> lo <= i < hi && (forall|j: int|
            lo <= j < hi ==> if j < i { #[trigger] keys[j] < keys[i] } else { keys[j] <= keys[i] }),
{
}

proof fn lemma_count_is_filter(s: Seq<i64>, v: int)
    ensures
        count_below(s, v) == s.filter(|x: i64| x < v).len(),
    decreases s.len(),
{
    reveal(Seq::filter);
    if s.len() > 0 {
        lemma_count_is_filter(s.drop_last(), v);
    }
}

/// What the key of rank `k` is: one of the keys, with at most `k` of them less than
/// it and more than `k` of them less than or equal to it.
pub proof fn law_rank(s: Seq<i64>, k: int, v: i64)
    requires
        is_rank(s, k, v),
    ensures
        s.contains(v),
        s.filter(|x: i64| x < v as int).len() <= k,
        s.filter(|x: i64| x < v + 1).len() > k,
{
    lemma_count_is_filter(s, v as int);
    lemma_count_is_filter(s, v + 1);
}

/// In ascending keys the key of rank `k` stands at position `k`.
pub proof fn law_rank_in_order(s: Seq<i64>, k: int, v: i64)
    requires
        forall|i: int, j: int| 0 <= i <= j < s.len() ==> s[i] <= s[j],
        0 <= k < s.len(),
        is_rank(s, k, v),
    ensures
        v == s[k],
{
    lemma_count_bounds(s, k, s[k] as int);
    lemma_count_bounds(s, k + 1, s[k] + 1);
    assert(s.contains(s[k]));
    law_rank_unique(s, k, v, s[k]);
}

} // verus!
