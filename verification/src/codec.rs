//! The 8-byte signed-magnitude integer encoding used by the patch header
//! and by control records.
//!
//! A value is stored as its magnitude in little-endian order, with the sign
//! carried in the highest bit of the last byte.  This is not two's
//! complement: the word with only the sign bit set reads back as zero.

use vstd::bytes::*;
use vstd::prelude::*;

verus! {

/// The 64-bit word that encodes `x`: the magnitude, with the sign in the
/// highest bit.
pub open spec fn int_word(x: i64) -> u64
    recommends
        x != i64::MIN,
{
    if x >= 0 {
        x as u64
    } else {
        ((0 - x as int) as u64) | 0x8000_0000_0000_0000u64
    }
}

/// The value read back from an encoded 64-bit word: the low 63 bits give
/// the magnitude, the highest bit the sign.
pub open spec fn word_value(w: u64) -> i64 {
    if w >> 63 == 0 {
        w as i64
    } else {
        (0 - (w & 0x7fff_ffff_ffff_ffffu64) as int) as i64
    }
}

/// The 8 bytes that encode `x`.
pub open spec fn enc_int(x: i64) -> Seq<u8>
    recommends
        x != i64::MIN,
{
    spec_u64_to_le_bytes(int_word(x))
}

/// The value encoded by the first 8 bytes of `b`.
pub open spec fn dec_int(b: Seq<u8>) -> i64
    recommends
        b.len() >= 8,
{
    word_value(spec_u64_from_le_bytes(b.subrange(0, 8)))
}

/// Writes the 8-byte signed-magnitude encoding of `x`.
pub fn encode_int(x: i64) -> (b: Vec<u8>)
    requires
        x != i64::MIN,
    ensures
        b@ == enc_int(x),
        b@.len() == 8,
{
    let w: u64 = if x >= 0 {
        x as u64
    } else {
        let m: u64 = ((-1i64 - x) as u64) + 1;
        m | 0x8000_0000_0000_0000u64
    };
    proof {
        assert(w == int_word(x));
        lemma_auto_spec_u64_to_from_le_bytes();
    }
    u64_to_le_bytes(w)
}

/// Reads the value encoded by the first 8 bytes of `b`.
pub fn decode_int(b: &[u8]) -> (x: i64)
    requires
        b@.len() >= 8,
    ensures
        x == dec_int(b@),
{
    let head = vstd::slice::slice_subrange(b, 0, 8);
    let w = u64_from_le_bytes(head);
    if w >> 63 == 0 {
        proof {
            assert(w >> 63 == 0 ==> w <= 0x7fff_ffff_ffff_ffffu64) by (bit_vector);
        }
        w as i64
    } else {
        let m: u64 = w & 0x7fff_ffff_ffff_ffffu64;
        proof {
            assert(w & 0x7fff_ffff_ffff_ffffu64 <= 0x7fff_ffff_ffff_ffffu64) by (bit_vector);
        }
        -(m as i64)
    }
}

/// Every value whose magnitude fits in 63 bits reads back unchanged:
/// `dec_int(enc_int(x)) == x`.
pub proof fn lemma_codec_round_trip(x: i64)
    requires
        x != i64::MIN,
    ensures
        enc_int(x).len() == 8,
        dec_int(enc_int(x)) == x,
{
    lemma_auto_spec_u64_to_from_le_bytes();
    let w = int_word(x);
    assert(enc_int(x).subrange(0, 8) =~= enc_int(x));
    assert(spec_u64_from_le_bytes(enc_int(x).subrange(0, 8)) == w);
    lemma_word_round_trip(x);
}

/// The word-level half of the round trip: packing a sign and magnitude and
/// reading them back is the identity.
proof fn lemma_word_round_trip(x: i64)
    requires
        x != i64::MIN,
    ensures
        word_value(int_word(x)) == x,
{
    if x >= 0 {
        let w = int_word(x);
        assert(w <= 0x7fff_ffff_ffff_ffffu64);
        assert(w <= 0x7fff_ffff_ffff_ffffu64 ==> w >> 63 == 0) by (bit_vector);
        assert(word_value(w) == x);
    } else {
        let m = (0 - x as int) as u64;
        assert(1 <= m <= 0x7fff_ffff_ffff_ffffu64);
        assert(m <= 0x7fff_ffff_ffff_ffffu64 ==> ((m | 0x8000_0000_0000_0000u64) >> 63 != 0
            && (m | 0x8000_0000_0000_0000u64) & 0x7fff_ffff_ffff_ffffu64 == m)) by (bit_vector);
        assert(word_value(int_word(x)) == x);
    }
}

/// A decoded value is never `i64::MIN`: magnitudes stop at `2^63 - 1`.
pub proof fn lemma_dec_int_range(b: Seq<u8>)
    ensures
        dec_int(b) != i64::MIN,
{
    let w = spec_u64_from_le_bytes(b.subrange(0, 8));
    if w >> 63 == 0 {
        assert(w >> 63 == 0 ==> w <= 0x7fff_ffff_ffff_ffffu64) by (bit_vector);
    } else {
        assert(w & 0x7fff_ffff_ffff_ffffu64 <= 0x7fff_ffff_ffff_ffffu64) by (bit_vector);
    }
}

} // verus!
