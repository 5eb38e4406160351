//! The filter itself: a byte buffer holding the bit array, and a counter of
//! insertions.

use crate::bits::{
    bit_mask, bit_position, bits_of, lemma_bytes_with_bit_set, lemma_zero_byte_has_no_bit,
};
use crate::hashing::{hash_fragments, hash_word, split_hash, PROBES};
use crate::model::{
    lemma_insert_all_bits, lemma_insert_all_push, lemma_with_bits_set_push, with_bits_set,
    word_hashes, FilterState,
};
use vstd::prelude::*;

verus! {

/// The words held by a run of strings.
pub open spec fn word_views(words: Seq<String>) -> Seq<Seq<char>> {
    words.map_values(|w: String| w@)
}

/// A Bloom filter over a bit array of fixed size.
pub struct BitArray {
    array: Vec<u8>,
    word_count: usize,
}

impl View for BitArray {
    type V = FilterState;

    /// The bits that the buffer holds, most significant bit of each byte
    /// first, and the number of insertions.
    closed spec fn view(&self) -> FilterState {
        FilterState { bits: bits_of(self.array@), inserted: self.word_count as nat }
    }
}

impl BitArray {
    /// Creates an empty filter of `s / 8` bytes. When `s` is not a multiple
    /// of 8, the remaining bits are dropped.
    pub fn new(s: usize) -> (filter: BitArray)
        ensures
            filter@ == FilterState::empty((s / 8 * 8) as nat),
    {
        let b = BitArray { array: vec![0u8; s / 8], word_count: 0 };
        proof {
            assert forall|p: int| 0 <= p < b.array@.len() * 8 implies !bits_of(b.array@)[p] by {
                lemma_zero_byte_has_no_bit(p % 8);
            }
            assert(b@.bits =~= FilterState::empty((s / 8 * 8) as nat).bits);
        }
        b
    }

    /// The number of insertions made so far. A word inserted twice counts
    /// twice: this is no estimate of how many distinct words the filter holds.
    pub fn len(&self) -> (n: usize)
        ensures
            n == self@.inserted,
    {
        self.word_count
    }

    /// The bytes that store the bit array: bit `p` of the filter is held by
    /// byte `p / 8`, at place `p % 8` counted from the most significant bit.
    pub fn as_bytes(&self) -> (bytes: &[u8])
        ensures
            bits_of(bytes@) == self@.bits,
            bytes@.len() * 8 == self@.bit_len(),
    {
        self.array.as_slice()
    }

    /// Inserts a word given by its hash: sets the four bits that the hash
    /// probes and counts the insertion.
    pub fn add_hash(&mut self, h: u64)
        requires
            old(self)@.bit_len() > 0,
            old(self)@.inserted < usize::MAX,
        ensures
            final(self)@ == old(self)@.insert(h),
    {
        let fragments: Vec<u16> = split_hash(h);
        let byte_len: usize = self.array.len();
        let ghost start = self@;
        let ghost probes = start.probes(h);
        let mut k: usize = 0;
        while k < PROBES
            invariant
                k <= PROBES,
                byte_len > 0,
                self.array@.len() == byte_len,
                self.word_count == old(self).word_count,
                start == old(self)@,
                start.bit_len() == byte_len * 8,
                probes == start.probes(h),
                fragments@ == hash_fragments(h),
                bits_of(self.array@) == with_bits_set(start.bits, probes.take(k as int)),
            decreases PROBES - k,
        {
            let p: usize = bit_position(fragments[k], byte_len);
            let index: usize = p / 8;
            let current: u8 = self.array[index];
            proof {
                lemma_bytes_with_bit_set(self.array@, p as int);
                assert(probes.take(k + 1) == probes.take(k as int).push(p as int));
                lemma_with_bits_set_push(start.bits, probes.take(k as int), p as int);
            }
            self.array[index] = current | bit_mask(p);
            k += 1;
        }
        assert(probes.take(PROBES as int) == probes);
        self.word_count += 1;
    }

    /// Inserts a word: sets the four bits that its hash probes and counts the
    /// insertion, whether or not the word was inserted before.
    pub fn add_word(&mut self, s: &str)
        requires
            old(self)@.bit_len() > 0,
            old(self)@.inserted < usize::MAX,
        ensures
            final(self)@ == old(self)@.insert_word(s@),
    {
        let h: u64 = hash_word(s);
        self.add_hash(h);
    }

    /// Inserts every word of `words`, first to last.
    pub fn add_words(&mut self, words: &[String])
        requires
            words.len() > 0 ==> old(self)@.bit_len() > 0,
            old(self)@.inserted + words.len() <= usize::MAX,
        ensures
            final(self)@ == old(self)@.insert_words(word_views(words@)),
    {
        let ghost start = self@;
        let ghost hashes = word_hashes(word_views(words@));
        let mut i: usize = 0;
        while i < words.len()
            invariant
                i <= words.len(),
                words.len() > 0 ==> start.bit_len() > 0,
                start.inserted + words.len() <= usize::MAX,
                hashes == word_hashes(word_views(words@)),
                self@ == start.insert_all(hashes.take(i as int)),
            decreases words.len() - i,
        {
            proof {
                lemma_insert_all_bits(start, hashes.take(i as int));
                lemma_insert_all_push(start, hashes.take(i as int), hashes[i as int]);
                assert(hashes.take(i + 1) == hashes.take(i as int).push(hashes[i as int]));
            }
            self.add_word(words[i].as_str());
            i += 1;
        }
        assert(hashes.take(words.len() as int) == hashes);
    }

    /// Looks a word up by its hash: tells whether all four bits that the hash
    /// probes are set.
    pub fn check_hash(&self, h: u64) -> (found: bool)
        requires
            self@.bit_len() > 0,
        ensures
            found == self@.contains(h),
    {
        let fragments: Vec<u16> = split_hash(h);
        let byte_len: usize = self.array.len();
        let mut k: usize = 0;
        while k < PROBES
            invariant
                k <= PROBES,
                byte_len > 0,
                self.array@.len() == byte_len,
                fragments@ == hash_fragments(h),
                forall|j: int| 0 <= j < k ==> self@.bits[#[trigger] self@.probe(h, j)],
            decreases PROBES - k,
        {
            let p: usize = bit_position(fragments[k], byte_len);
            assert(p == self@.probe(h, k as int));
            if self.array[p / 8] & bit_mask(p) == 0 {
                return false;
            }
            k += 1;
        }
        true
    }

    /// Tells whether a word may have been inserted: `true` for every word
    /// that was, and for those others whose four probed bits happen to be set.
    pub fn check(&self, s: &str) -> (found: bool)
        requires
            self@.bit_len() > 0,
        ensures
            found == self@.contains_word(s@),
    {
        let h: u64 = hash_word(s);
        self.check_hash(h)
    }
}

} // verus!
