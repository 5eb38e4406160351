//! The mathematical model of a filter: an array of bits and a count of
//! insertions, with insertion and lookup defined on hashes and on words.

use crate::bits::bit_index;
use crate::hashing::{hash_fragment, word_hash, PROBES};
use vstd::prelude::*;

verus! {

/// The hashes of a run of words.
pub open spec fn word_hashes(words: Seq<Seq<char>>) -> Seq<u64> {
    words.map_values(|w: Seq<char>| word_hash(w))
}

/// The bit array `bits` with every in-range position of `positions` set.
pub open spec fn with_bits_set(bits: Seq<bool>, positions: Seq<int>) -> Seq<bool> {
    Seq::new(bits.len(), |p: int| bits[p] || positions.contains(p))
}

/// Setting one more position is one update of the bit array.
pub proof fn lemma_with_bits_set_push(bits: Seq<bool>, positions: Seq<int>, p: int)
    requires
        0 <= p < bits.len(),
    ensures
        with_bits_set(bits, positions.push(p)) == with_bits_set(bits, positions).update(p, true),
{
    let longer = positions.push(p);
    assert forall|q: int| 0 <= q < bits.len() implies (longer.contains(q) <==> positions.contains(q)
        || q == p) by {
        if positions.contains(q) {
            let i: int = choose|i: int| 0 <= i < positions.len() && positions[i] == q;
            assert(longer[i] == q);
        }
        if q == p {
            assert(longer[positions.len() as int] == q);
        }
    }
}

/// What a filter is, apart from how its bits are stored.
pub struct FilterState {
    /// The bits, in address order. The array's size never changes.
    pub bits: Seq<bool>,
    /// How many insertions were made, repeated words counted each time.
    pub inserted: nat,
}

impl FilterState {
    /// The filter of `bit_len` bits into which nothing was inserted.
    pub open spec fn empty(bit_len: nat) -> FilterState {
        FilterState { bits: Seq::new(bit_len, |p: int| false), inserted: 0 }
    }

    /// The size of the bit array.
    pub open spec fn bit_len(self) -> nat {
        self.bits.len()
    }

    /// The bit position of the `k`-th probe for hash `h`.
    pub open spec fn probe(self, h: u64, k: int) -> int
        recommends
            0 <= k < PROBES,
            self.bit_len() > 0,
    {
        bit_index(hash_fragment(h, k), self.bit_len())
    }

    /// The four bit positions probed for hash `h`.
    pub open spec fn probes(self, h: u64) -> Seq<int> {
        Seq::new(PROBES as nat, |k: int| self.probe(h, k))
    }

    /// The filter after inserting hash `h`: its four probed bits are set, all
    /// other bits are kept, and the insertion is counted.
    pub open spec fn insert(self, h: u64) -> FilterState {
        FilterState {
            bits: with_bits_set(self.bits, self.probes(h)),
            inserted: self.inserted + 1,
        }
    }

    /// Whether all four bits probed for hash `h` are set.
    pub open spec fn contains(self, h: u64) -> bool {
        forall|k: int| 0 <= k < PROBES ==> self.bits[#[trigger] self.probe(h, k)]
    }

    /// The filter after inserting the hashes `hs` one after the other.
    pub open spec fn insert_all(self, hs: Seq<u64>) -> FilterState
        decreases hs.len(),
    {
        if hs.len() == 0 {
            self
        } else {
            self.insert_all(hs.drop_last()).insert(hs.last())
        }
    }

    /// The filter after inserting `word`.
    pub open spec fn insert_word(self, word: Seq<char>) -> FilterState {
        self.insert(word_hash(word))
    }

    /// Whether the filter reports `word` as present.
    pub open spec fn contains_word(self, word: Seq<char>) -> bool {
        self.contains(word_hash(word))
    }

    /// The filter after inserting `words` one after the other.
    pub open spec fn insert_words(self, words: Seq<Seq<char>>) -> FilterState {
        self.insert_all(word_hashes(words))
    }
}

/// Every probe addresses a bit of the array.
pub proof fn lemma_probe_in_range(state: FilterState, h: u64, k: int)
    requires
        state.bit_len() > 0,
    ensures
        0 <= state.probe(h, k) < state.bit_len(),
{
}

/// Insertion keeps the array's size, sets the probed bits and clears none.
pub proof fn lemma_insert_bits(state: FilterState, h: u64)
    ensures
        state.insert(h).bit_len() == state.bit_len(),
        forall|p: int|
            0 <= p < state.bit_len() ==> (#[trigger] state.insert(h).bits[p] <==> state.bits[p]
                || exists|k: int| 0 <= k < PROBES && state.probe(h, k) == p),
{
    let ps = state.probes(h);
    let after = state.insert(h);
    assert forall|p: int| 0 <= p < state.bit_len() implies (#[trigger] after.bits[p]
        <==> state.bits[p] || exists|k: int| 0 <= k < PROBES && state.probe(h, k) == p) by {
        if exists|k: int| 0 <= k < PROBES && state.probe(h, k) == p {
            let k: int = choose|k: int| 0 <= k < PROBES && state.probe(h, k) == p;
            assert(ps[k] == p);
        }
    }
}

/// A hash that was inserted is found.
pub proof fn lemma_insert_contains(state: FilterState, h: u64)
    requires
        state.bit_len() > 0,
    ensures
        state.insert(h).contains(h),
{
    lemma_insert_bits(state, h);
    let after = state.insert(h);
    assert forall|k: int| 0 <= k < PROBES implies after.bits[#[trigger] after.probe(h, k)] by {
        lemma_probe_in_range(state, h, k);
    }
}

/// A hash that is found stays found when another is inserted: no bit is
/// ever cleared.
pub proof fn lemma_insert_keeps(state: FilterState, g: u64, h: u64)
    requires
        state.bit_len() > 0,
        state.contains(h),
    ensures
        state.insert(g).contains(h),
{
    lemma_insert_bits(state, g);
    let after = state.insert(g);
    assert forall|k: int| 0 <= k < PROBES implies after.bits[#[trigger] after.probe(h, k)] by {
        lemma_probe_in_range(state, h, k);
    }
}

/// Inserting a hash a second time changes no bit; only the count grows.
pub proof fn lemma_insert_twice(state: FilterState, h: u64)
    ensures
        state.insert(h).insert(h).bits == state.insert(h).bits,
        state.insert(h).insert(h).inserted == state.insert(h).inserted + 1,
{
    assert(state.insert(h).probes(h) == state.probes(h));
}

/// Two insertions give the same filter in either order.
pub proof fn lemma_insert_commutes(state: FilterState, g: u64, h: u64)
    ensures
        state.insert(g).insert(h) == state.insert(h).insert(g),
{
    assert(state.insert(g).probes(h) == state.probes(h));
    assert(state.insert(h).probes(g) == state.probes(g));
    assert(state.insert(g).insert(h).bits =~= state.insert(h).insert(g).bits);
}

/// Nothing is found in an empty filter.
pub proof fn lemma_empty_contains_nothing(bit_len: nat, h: u64)
    requires
        bit_len > 0,
    ensures
        !FilterState::empty(bit_len).contains(h),
{
    lemma_probe_in_range(FilterState::empty(bit_len), h, 0);
}

/// Inserting a run of hashes and then one more is one longer run.
pub proof fn lemma_insert_all_push(state: FilterState, hs: Seq<u64>, h: u64)
    ensures
        state.insert_all(hs.push(h)) == state.insert_all(hs).insert(h),
{
    assert(hs.push(h).drop_last() == hs);
}

/// Whether position `p` is probed for one of the hashes `hs`.
pub open spec fn probed_by_any(state: FilterState, hs: Seq<u64>, p: int) -> bool {
    exists|i: int, k: int|
        0 <= i < hs.len() && 0 <= k < PROBES && #[trigger] state.probe(hs[i], k) == p
}

/// After a run of insertions the array has its old size, the count has grown
/// by the length of the run, and a bit is set exactly if it was set before or
/// is probed for one of the inserted hashes.
pub proof fn lemma_insert_all_bits(state: FilterState, hs: Seq<u64>)
    ensures
        state.insert_all(hs).bit_len() == state.bit_len(),
        state.insert_all(hs).inserted == state.inserted + hs.len(),
        forall|p: int|
            0 <= p < state.bit_len() ==> (#[trigger] state.insert_all(hs).bits[p] <==> state.bits[p]
                || probed_by_any(state, hs, p)),
    decreases hs.len(),
{
    if hs.len() > 0 {
        let front = hs.drop_last();
        let before = state.insert_all(front);
        let after = state.insert_all(hs);
        lemma_insert_all_bits(state, front);
        lemma_insert_bits(before, hs.last());
        assert forall|p: int| 0 <= p < state.bit_len() implies (#[trigger] after.bits[p]
            <==> state.bits[p] || probed_by_any(state, hs, p)) by {
            if exists|k: int| 0 <= k < PROBES && before.probe(hs.last(), k) == p {
                let k: int = choose|k: int| 0 <= k < PROBES && before.probe(hs.last(), k) == p;
                assert(state.probe(hs[hs.len() - 1], k) == p);
            }
            if probed_by_any(state, hs, p) {
                let (i, k): (int, int) = choose|i: int, k: int|
                    0 <= i < hs.len() && 0 <= k < PROBES && #[trigger] state.probe(hs[i], k) == p;
                if i < front.len() {
                    assert(state.probe(front[i], k) == p);
                } else {
                    assert(before.probe(hs.last(), k) == p);
                }
            }
        }
    }
}

/// A hash that was inserted is found, whatever is inserted afterwards.
pub proof fn lemma_insert_all_keeps(state: FilterState, h: u64, later: Seq<u64>)
    requires
        state.bit_len() > 0,
        state.contains(h),
    ensures
        state.insert_all(later).contains(h),
    decreases later.len(),
{
    if later.len() > 0 {
        lemma_insert_all_keeps(state, h, later.drop_last());
        lemma_insert_all_bits(state, later.drop_last());
        lemma_insert_keeps(state.insert_all(later.drop_last()), later.last(), h);
    }
}

/// The filter that a run of insertions leaves depends only on which hashes
/// were inserted and on how many insertions were made.
pub proof fn lemma_insert_all_same_hashes(state: FilterState, hs1: Seq<u64>, hs2: Seq<u64>)
    requires
        hs1.len() == hs2.len(),
        forall|h: u64| hs1.contains(h) <==> hs2.contains(h),
    ensures
        state.insert_all(hs1) == state.insert_all(hs2),
{
    lemma_insert_all_bits(state, hs1);
    lemma_insert_all_bits(state, hs2);
    assert forall|p: int| 0 <= p < state.bit_len() implies (probed_by_any(state, hs1, p)
        <==> probed_by_any(state, hs2, p)) by {
        lemma_probed_by_any_subset(state, hs1, hs2, p);
        lemma_probed_by_any_subset(state, hs2, hs1, p);
    }
    assert(state.insert_all(hs1).bits =~= state.insert_all(hs2).bits);
}

/// A position probed for one of `hs1` is probed for one of `hs2` when every
/// hash of `hs1` occurs in `hs2`.
proof fn lemma_probed_by_any_subset(state: FilterState, hs1: Seq<u64>, hs2: Seq<u64>, p: int)
    requires
        forall|h: u64| hs1.contains(h) ==> hs2.contains(h),
    ensures
        probed_by_any(state, hs1, p) ==> probed_by_any(state, hs2, p),
{
    if probed_by_any(state, hs1, p) {
        let (i, k): (int, int) = choose|i: int, k: int|
            0 <= i < hs1.len() && 0 <= k < PROBES && #[trigger] state.probe(hs1[i], k) == p;
        assert(hs1.contains(hs1[i]));
    }
}

} // verus!
