//! What the filter promises about words, for every filter and every word.

use crate::hashing::{word_hash, PROBES};
use crate::model::{
    lemma_empty_contains_nothing, lemma_insert_all_bits, lemma_insert_all_keeps,
    lemma_insert_all_same_hashes, lemma_insert_bits, lemma_insert_commutes, lemma_insert_contains,
    lemma_insert_twice, lemma_probe_in_range, word_hashes, FilterState,
};
use vstd::prelude::*;

verus! {

/// No false negatives: once a word was inserted it is reported as present,
/// whatever the filter held before and whichever words are inserted
/// afterwards.
pub proof fn lemma_no_false_negatives(
    state: FilterState,
    word: Seq<char>,
    later: Seq<Seq<char>>,
)
    requires
        state.bit_len() > 0,
    ensures
        state.insert_word(word).insert_words(later).contains_word(word),
{
    let h: u64 = word_hash(word);
    lemma_insert_bits(state, h);
    lemma_insert_contains(state, h);
    lemma_insert_all_keeps(state.insert(h), h, word_hashes(later));
}

/// Inserting a word a second time leaves every bit as the first insertion
/// left it. The count of insertions still grows by one.
pub proof fn lemma_insert_word_twice(state: FilterState, word: Seq<char>)
    ensures
        state.insert_word(word).insert_word(word).bits == state.insert_word(word).bits,
        state.insert_word(word).insert_word(word).inserted == state.insert_word(word).inserted + 1,
{
    lemma_insert_twice(state, word_hash(word));
}

/// Two words inserted in either order give the same filter.
pub proof fn lemma_insert_word_commutes(state: FilterState, a: Seq<char>, b: Seq<char>)
    ensures
        state.insert_word(a).insert_word(b) == state.insert_word(b).insert_word(a),
{
    lemma_insert_commutes(state, word_hash(a), word_hash(b));
}

/// Three words inserted in any of their six orders give the same filter.
pub proof fn lemma_insert_three_words_any_order(
    state: FilterState,
    a: Seq<char>,
    b: Seq<char>,
    c: Seq<char>,
)
    ensures
        ({
            let abc = state.insert_word(a).insert_word(b).insert_word(c);
            &&& state.insert_word(a).insert_word(c).insert_word(b) == abc
            &&& state.insert_word(b).insert_word(a).insert_word(c) == abc
            &&& state.insert_word(b).insert_word(c).insert_word(a) == abc
            &&& state.insert_word(c).insert_word(a).insert_word(b) == abc
            &&& state.insert_word(c).insert_word(b).insert_word(a) == abc
        }),
{
    lemma_insert_word_commutes(state, a, b);
    lemma_insert_word_commutes(state, a, c);
    lemma_insert_word_commutes(state, b, c);
    lemma_insert_word_commutes(state.insert_word(a), b, c);
    lemma_insert_word_commutes(state.insert_word(b), a, c);
    lemma_insert_word_commutes(state.insert_word(c), a, b);
}

/// Order independence: two runs of insertions that hold the same words the
/// same number of times, in whatever order, give the same filter.
pub proof fn lemma_insert_words_any_order(
    state: FilterState,
    words1: Seq<Seq<char>>,
    words2: Seq<Seq<char>>,
)
    requires
        words1.to_multiset() == words2.to_multiset(),
    ensures
        state.insert_words(words1) == state.insert_words(words2),
{
    let hs1 = word_hashes(words1);
    let hs2 = word_hashes(words2);
    words1.to_multiset_ensures();
    words2.to_multiset_ensures();
    assert forall|h: u64| hs1.contains(h) <==> hs2.contains(h) by {
        if hs1.contains(h) {
            let i: int = choose|i: int| 0 <= i < hs1.len() && hs1[i] == h;
            assert(words2.to_multiset().count(words1[i]) > 0);
            let j: int = choose|j: int| 0 <= j < words2.len() && words2[j] == words1[i];
            assert(hs2[j] == h);
        }
        if hs2.contains(h) {
            let i: int = choose|i: int| 0 <= i < hs2.len() && hs2[i] == h;
            assert(words1.to_multiset().count(words2[i]) > 0);
            let j: int = choose|j: int| 0 <= j < words1.len() && words1[j] == words2[i];
            assert(hs1[j] == h);
        }
    }
    lemma_insert_all_same_hashes(state, hs1, hs2);
}

/// A filter into which nothing was inserted reports no word as present.
pub proof fn lemma_empty_reports_no_word(bit_len: nat, word: Seq<char>)
    requires
        bit_len > 0,
    ensures
        !FilterState::empty(bit_len).contains_word(word),
{
    lemma_empty_contains_nothing(bit_len, word_hash(word));
}

/// Every bit position probed for a word lies inside the bit array.
pub proof fn lemma_word_probes_in_range(state: FilterState, word: Seq<char>)
    requires
        state.bit_len() > 0,
    ensures
        state.probes(word_hash(word)).len() == PROBES,
        forall|k: int|
            0 <= k < PROBES ==> 0 <= #[trigger] state.probes(word_hash(word))[k] < state.bit_len(),
{
    assert forall|k: int| 0 <= k < PROBES implies 0 <= #[trigger] state.probes(word_hash(word))[k]
        < state.bit_len() by {
        lemma_probe_in_range(state, word_hash(word), k);
    }
}

/// The bit positions probed for a word depend on the word and on the size of
/// the bit array alone: two filters of one size probe the same positions.
pub proof fn lemma_word_probes_reproducible(a: FilterState, b: FilterState, word: Seq<char>)
    requires
        a.bit_len() == b.bit_len(),
    ensures
        a.probes(word_hash(word)) == b.probes(word_hash(word)),
{
}

} // verus!
