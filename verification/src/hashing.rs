//! Hashing a word to 64 bits, and splitting the hash into the four 16-bit
//! fragments that drive the filter's probes.

use vstd::prelude::*;
use vstd::utf8::encode_utf8;

verus! {

/// The SeaHash value of a byte string, as computed by the `seahash` crate with
/// its default seed. The value depends on the bytes alone.
pub uninterp spec fn seahash_of(bytes: Seq<u8>) -> u64;

/// `seahash::hash` is not verified here. It is taken to return, for every
/// buffer, the SeaHash value of the buffer's bytes: the same value for the
/// same bytes, on every call and on every machine.
pub assume_specification[ seahash::hash ](buf: &[u8]) -> (h: u64)
    ensures
        h == seahash_of(buf@),
;

/// The hash of a word: the SeaHash value of its UTF-8 encoding.
pub open spec fn word_hash(word: Seq<char>) -> u64 {
    seahash_of(encode_utf8(word))
}

/// Hashes a word.
pub fn hash_word(word: &str) -> (h: u64)
    ensures
        h == word_hash(word@),
{
    seahash::hash(word.as_bytes())
}

/// Number of bit positions probed for every word.
pub const PROBES: usize = 4;

/// The `k`-th 16-bit fragment of `h`: bits `[16k, 16k + 16)` of the hash,
/// counted from the least significant bit.
pub open spec fn hash_fragment(h: u64, k: int) -> u16
    recommends
        0 <= k < PROBES,
{
    if k == 0 {
        (h % 0x1_0000) as u16
    } else if k == 1 {
        (h / 0x1_0000 % 0x1_0000) as u16
    } else if k == 2 {
        (h / 0x1_0000_0000 % 0x1_0000) as u16
    } else {
        (h / 0x1_0000_0000_0000 % 0x1_0000) as u16
    }
}

/// The four fragments of `h`, lowest bits first.
pub open spec fn hash_fragments(h: u64) -> Seq<u16> {
    Seq::new(PROBES as nat, |k: int| hash_fragment(h, k))
}

/// Splits a 64-bit hash into its four 16-bit fragments, lowest bits first.
pub fn split_hash(h: u64) -> (fragments: Vec<u16>)
    ensures
        fragments@ == hash_fragments(h),
{
    let a: u64 = h & 0xFFFF;
    let b: u64 = (h >> 16) & 0xFFFF;
    let c: u64 = (h >> 32) & 0xFFFF;
    let d: u64 = (h >> 48) & 0xFFFF;
    assert(h & 0xFFFF == h % 0x1_0000) by (bit_vector);
    assert((h >> 16) & 0xFFFF == h / 0x1_0000 % 0x1_0000) by (bit_vector);
    assert((h >> 32) & 0xFFFF == h / 0x1_0000_0000 % 0x1_0000) by (bit_vector);
    assert((h >> 48) & 0xFFFF == h / 0x1_0000_0000_0000 % 0x1_0000) by (bit_vector);
    vec![a as u16, b as u16, c as u16, d as u16]
}

} // verus!
