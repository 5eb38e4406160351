//! Addressing single bits in a byte buffer, most significant bit first.

use vstd::arithmetic::div_mod::lemma_small_mod;
use vstd::prelude::*;

verus! {

/// The bit position that a 16-bit hash fragment selects in an array of
/// `bit_len` bits: the fragment reduced modulo the array's size.
pub open spec fn bit_index(fragment: u16, bit_len: nat) -> int
    recommends
        bit_len > 0,
{
    fragment as int % bit_len as int
}

/// The mask of bit `i` of a byte, where bit 0 is the most significant one.
pub open spec fn msb_mask(i: u8) -> u8
    recommends
        i < 8,
{
    1u8 << ((7 - i) as u8)
}

/// Whether bit `i` of `byte` is set, where bit 0 is the most significant one.
pub open spec fn byte_has_bit(byte: u8, i: int) -> bool
    recommends
        0 <= i < 8,
{
    byte & msb_mask(i as u8) != 0
}

/// The bits held by a byte buffer, in address order: bit `p` lives in byte
/// `p / 8`, at place `p % 8` counted from that byte's most significant bit.
pub open spec fn bits_of(bytes: Seq<u8>) -> Seq<bool> {
    Seq::new(bytes.len() * 8, |p: int| byte_has_bit(bytes[p / 8], p % 8))
}

/// The byte buffer `bytes` with bit `p` set.
pub open spec fn bytes_with_bit_set(bytes: Seq<u8>, p: int) -> Seq<u8>
    recommends
        0 <= p < bytes.len() * 8,
{
    bytes.update(p / 8, bytes[p / 8] | msb_mask((p % 8) as u8))
}

/// Reduces a hash fragment to a bit position of a buffer of `byte_len` bytes.
pub fn bit_position(fragment: u16, byte_len: usize) -> (p: usize)
    requires
        byte_len > 0,
    ensures
        p == bit_index(fragment, (byte_len * 8) as nat),
        p < byte_len * 8,
{
    if byte_len > 0x1FFF {
        // The array has more bits than a fragment can count: nothing wraps.
        proof {
            lemma_small_mod(fragment as nat, (byte_len * 8) as nat);
        }
        fragment as usize
    } else {
        (fragment as usize) % (byte_len * 8)
    }
}

/// The mask that selects bit position `p` within its byte.
pub fn bit_mask(p: usize) -> (mask: u8)
    ensures
        mask == msb_mask((p % 8) as u8),
{
    1u8 << (7 - (p % 8))
}

/// A zeroed byte holds no bit.
pub proof fn lemma_zero_byte_has_no_bit(i: int)
    requires
        0 <= i < 8,
    ensures
        !byte_has_bit(0, i),
{
    let a: u8 = i as u8;
    assert(0u8 & (1u8 << ((7 - a) as u8)) == 0) by (bit_vector);
}

/// Or-ing the mask of bit `i` into a byte sets bit `i` and keeps every other
/// bit as it was.
pub proof fn lemma_or_mask(byte: u8, i: int, j: int)
    requires
        0 <= i < 8,
        0 <= j < 8,
    ensures
        byte_has_bit(byte | msb_mask(i as u8), j) == (i == j || byte_has_bit(byte, j)),
{
    let a: u8 = i as u8;
    let b: u8 = j as u8;
    let mask_a: u8 = 1u8 << ((7 - a) as u8);
    let mask_b: u8 = 1u8 << ((7 - b) as u8);
    assert(((byte | mask_a) & mask_b != 0) == (a == b || byte & mask_b != 0)) by (bit_vector)
        requires
            a < 8,
            b < 8,
            mask_a == 1u8 << ((7 - a) as u8),
            mask_b == 1u8 << ((7 - b) as u8),
    ;
}

/// Setting bit `p` in the bytes sets bit `p` of the bit array they hold, and
/// nothing else.
pub proof fn lemma_bytes_with_bit_set(bytes: Seq<u8>, p: int)
    requires
        0 <= p < bytes.len() * 8,
    ensures
        bits_of(bytes_with_bit_set(bytes, p)) == bits_of(bytes).update(p, true),
{
    let after = bits_of(bytes_with_bit_set(bytes, p));
    let updated = bits_of(bytes).update(p, true);
    assert forall|q: int| 0 <= q < bytes.len() * 8 implies after[q] == updated[q] by {
        if q / 8 == p / 8 {
            lemma_or_mask(bytes[p / 8], p % 8, q % 8);
        }
    }
}

} // verus!
