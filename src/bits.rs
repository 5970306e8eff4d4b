//! Squares as bits of a 64-bit set: bit `s` stands for square `s`.
use vstd::prelude::*;

verus! {

/// Whether square `s` belongs to the set `bb`.
pub open spec fn has_bit(bb: u64, s: int) -> bool {
    0 <= s < 64 && (bb >> (s as u64)) & 1u64 == 1u64
}

/// The set `bb` without square `s`.
pub open spec fn without(bb: u64, s: int) -> u64 {
    bb & !(1u64 << (s as u64))
}

/// The set `bb` with square `s` added.
pub open spec fn with(bb: u64, s: int) -> u64 {
    bb | (1u64 << (s as u64))
}

pub proof fn lemma_without_u64(bb: u64, s: u64, t: u64)
    by (bit_vector)
    requires
        s < 64,
        t < 64,
    ensures
        ((bb & !(1u64 << s)) >> t) & 1u64 == 1u64 <==> (bb >> t) & 1u64 == 1u64 && t != s,
{
}

pub proof fn lemma_with_u64(bb: u64, s: u64, t: u64)
    by (bit_vector)
    requires
        s < 64,
        t < 64,
    ensures
        ((bb | (1u64 << s)) >> t) & 1u64 == 1u64 <==> (bb >> t) & 1u64 == 1u64 || t == s,
{
}

/// Removing a square leaves every other square as it was.
pub proof fn lemma_without(bb: u64, s: int, t: int)
    requires
        0 <= s < 64,
    ensures
        has_bit(without(bb, s), t) == (has_bit(bb, t) && t != s),
{
    if 0 <= t < 64 {
        lemma_without_u64(bb, s as u64, t as u64);
    }
}

/// Adding a square leaves every other square as it was.
pub proof fn lemma_with(bb: u64, s: int, t: int)
    requires
        0 <= s < 64,
    ensures
        has_bit(with(bb, s), t) == (has_bit(bb, t) || (t == s)),
{
    if 0 <= t < 64 {
        lemma_with_u64(bb, s as u64, t as u64);
    }
}

pub proof fn lemma_empty_u64(t: u64)
    by (bit_vector)
    ensures
        (0u64 >> t) & 1u64 != 1u64,
{
}

/// The empty set holds no square.
pub proof fn lemma_empty(t: int)
    ensures
        !has_bit(0u64, t),
{
    if 0 <= t < 64 {
        lemma_empty_u64(t as u64);
    }
}

/// Tests whether square `s` belongs to `bb`.
pub fn test_bit(bb: u64, s: u8) -> (r: bool)
    requires
        s < 64,
    ensures
        r == has_bit(bb, s as int),
{
    (bb >> (s as u64)) & 1u64 == 1u64
}

/// Removes square `s` from `bb`.
pub fn clear_bit(bb: u64, s: u8) -> (r: u64)
    requires
        s < 64,
    ensures
        r == without(bb, s as int),
        forall|t: int| #[trigger] has_bit(r, t) == (has_bit(bb, t) && t != s),
{
    proof {
        assert forall|t: int| #[trigger] has_bit(without(bb, s as int), t) == (has_bit(bb, t) && t != s) by {
            lemma_without(bb, s as int, t);
        }
    }
    bb & !(1u64 << (s as u64))
}

/// Adds square `s` to `bb`.
pub fn set_bit(bb: u64, s: u8) -> (r: u64)
    requires
        s < 64,
    ensures
        r == with(bb, s as int),
        forall|t: int| #[trigger] has_bit(r, t) == (has_bit(bb, t) || t == s),
{
    proof {
        assert forall|t: int| #[trigger] has_bit(with(bb, s as int), t) == (has_bit(bb, t) || t == s) by {
            lemma_with(bb, s as int, t);
        }
    }
    bb | (1u64 << (s as u64))
}

proof fn lemma_equal_bits_u64(a: u64, b: u64)
    by (bit_vector)
    requires
        ((a >> 0u64) & 1u64 == 1u64) == ((b >> 0u64) & 1u64 == 1u64),
        ((a >> 1u64) & 1u64 == 1u64) == ((b >> 1u64) & 1u64 == 1u64),
        ((a >> 2u64) & 1u64 == 1u64) == ((b >> 2u64) & 1u64 == 1u64),
        ((a >> 3u64) & 1u64 == 1u64) == ((b >> 3u64) & 1u64 == 1u64),
        ((a >> 4u64) & 1u64 == 1u64) == ((b >> 4u64) & 1u64 == 1u64),
        ((a >> 5u64) & 1u64 == 1u64) == ((b >> 5u64) & 1u64 == 1u64),
        ((a >> 6u64) & 1u64 == 1u64) == ((b >> 6u64) & 1u64 == 1u64),
        ((a >> 7u64) & 1u64 == 1u64) == ((b >> 7u64) & 1u64 == 1u64),
        ((a >> 8u64) & 1u64 == 1u64) == ((b >> 8u64) & 1u64 == 1u64),
        ((a >> 9u64) & 1u64 == 1u64) == ((b >> 9u64) & 1u64 == 1u64),
        ((a >> 10u64) & 1u64 == 1u64) == ((b >> 10u64) & 1u64 == 1u64),
        ((a >> 11u64) & 1u64 == 1u64) == ((b >> 11u64) & 1u64 == 1u64),
        ((a >> 12u64) & 1u64 == 1u64) == ((b >> 12u64) & 1u64 == 1u64),
        ((a >> 13u64) & 1u64 == 1u64) == ((b >> 13u64) & 1u64 == 1u64),
        ((a >> 14u64) & 1u64 == 1u64) == ((b >> 14u64) & 1u64 == 1u64),
        ((a >> 15u64) & 1u64 == 1u64) == ((b >> 15u64) & 1u64 == 1u64),
        ((a >> 16u64) & 1u64 == 1u64) == ((b >> 16u64) & 1u64 == 1u64),
        ((a >> 17u64) & 1u64 == 1u64) == ((b >> 17u64) & 1u64 == 1u64),
        ((a >> 18u64) & 1u64 == 1u64) == ((b >> 18u64) & 1u64 == 1u64),
        ((a >> 19u64) & 1u64 == 1u64) == ((b >> 19u64) & 1u64 == 1u64),
        ((a >> 20u64) & 1u64 == 1u64) == ((b >> 20u64) & 1u64 == 1u64),
        ((a >> 21u64) & 1u64 == 1u64) == ((b >> 21u64) & 1u64 == 1u64),
        ((a >> 22u64) & 1u64 == 1u64) == ((b >> 22u64) & 1u64 == 1u64),
        ((a >> 23u64) & 1u64 == 1u64) == ((b >> 23u64) & 1u64 == 1u64),
        ((a >> 24u64) & 1u64 == 1u64) == ((b >> 24u64) & 1u64 == 1u64),
        ((a >> 25u64) & 1u64 == 1u64) == ((b >> 25u64) & 1u64 == 1u64),
        ((a >> 26u64) & 1u64 == 1u64) == ((b >> 26u64) & 1u64 == 1u64),
        ((a >> 27u64) & 1u64 == 1u64) == ((b >> 27u64) & 1u64 == 1u64),
        ((a >> 28u64) & 1u64 == 1u64) == ((b >> 28u64) & 1u64 == 1u64),
        ((a >> 29u64) & 1u64 == 1u64) == ((b >> 29u64) & 1u64 == 1u64),
        ((a >> 30u64) & 1u64 == 1u64) == ((b >> 30u64) & 1u64 == 1u64),
        ((a >> 31u64) & 1u64 == 1u64) == ((b >> 31u64) & 1u64 == 1u64),
        ((a >> 32u64) & 1u64 == 1u64) == ((b >> 32u64) & 1u64 == 1u64),
        ((a >> 33u64) & 1u64 == 1u64) == ((b >> 33u64) & 1u64 == 1u64),
        ((a >> 34u64) & 1u64 == 1u64) == ((b >> 34u64) & 1u64 == 1u64),
        ((a >> 35u64) & 1u64 == 1u64) == ((b >> 35u64) & 1u64 == 1u64),
        ((a >> 36u64) & 1u64 == 1u64) == ((b >> 36u64) & 1u64 == 1u64),
        ((a >> 37u64) & 1u64 == 1u64) == ((b >> 37u64) & 1u64 == 1u64),
        ((a >> 38u64) & 1u64 == 1u64) == ((b >> 38u64) & 1u64 == 1u64),
        ((a >> 39u64) & 1u64 == 1u64) == ((b >> 39u64) & 1u64 == 1u64),
        ((a >> 40u64) & 1u64 == 1u64) == ((b >> 40u64) & 1u64 == 1u64),
        ((a >> 41u64) & 1u64 == 1u64) == ((b >> 41u64) & 1u64 == 1u64),
        ((a >> 42u64) & 1u64 == 1u64) == ((b >> 42u64) & 1u64 == 1u64),
        ((a >> 43u64) & 1u64 == 1u64) == ((b >> 43u64) & 1u64 == 1u64),
        ((a >> 44u64) & 1u64 == 1u64) == ((b >> 44u64) & 1u64 == 1u64),
        ((a >> 45u64) & 1u64 == 1u64) == ((b >> 45u64) & 1u64 == 1u64),
        ((a >> 46u64) & 1u64 == 1u64) == ((b >> 46u64) & 1u64 == 1u64),
        ((a >> 47u64) & 1u64 == 1u64) == ((b >> 47u64) & 1u64 == 1u64),
        ((a >> 48u64) & 1u64 == 1u64) == ((b >> 48u64) & 1u64 == 1u64),
        ((a >> 49u64) & 1u64 == 1u64) == ((b >> 49u64) & 1u64 == 1u64),
        ((a >> 50u64) & 1u64 == 1u64) == ((b >> 50u64) & 1u64 == 1u64),
        ((a >> 51u64) & 1u64 == 1u64) == ((b >> 51u64) & 1u64 == 1u64),
        ((a >> 52u64) & 1u64 == 1u64) == ((b >> 52u64) & 1u64 == 1u64),
        ((a >> 53u64) & 1u64 == 1u64) == ((b >> 53u64) & 1u64 == 1u64),
        ((a >> 54u64) & 1u64 == 1u64) == ((b >> 54u64) & 1u64 == 1u64),
        ((a >> 55u64) & 1u64 == 1u64) == ((b >> 55u64) & 1u64 == 1u64),
        ((a >> 56u64) & 1u64 == 1u64) == ((b >> 56u64) & 1u64 == 1u64),
        ((a >> 57u64) & 1u64 == 1u64) == ((b >> 57u64) & 1u64 == 1u64),
        ((a >> 58u64) & 1u64 == 1u64) == ((b >> 58u64) & 1u64 == 1u64),
        ((a >> 59u64) & 1u64 == 1u64) == ((b >> 59u64) & 1u64 == 1u64),
        ((a >> 60u64) & 1u64 == 1u64) == ((b >> 60u64) & 1u64 == 1u64),
        ((a >> 61u64) & 1u64 == 1u64) == ((b >> 61u64) & 1u64 == 1u64),
        ((a >> 62u64) & 1u64 == 1u64) == ((b >> 62u64) & 1u64 == 1u64),
        ((a >> 63u64) & 1u64 == 1u64) == ((b >> 63u64) & 1u64 == 1u64),
    ensures
        a == b,
{
}

/// Two sets holding the same squares are equal.
pub proof fn lemma_same_squares(a: u64, b: u64)
    requires
        forall|s: int| 0 <= s < 64 ==> #[trigger] has_bit(a, s) == has_bit(b, s),
    ensures
        a == b,
{
    assert(has_bit(a, 0) == has_bit(b, 0));
    assert(has_bit(a, 1) == has_bit(b, 1));
    assert(has_bit(a, 2) == has_bit(b, 2));
    assert(has_bit(a, 3) == has_bit(b, 3));
    assert(has_bit(a, 4) == has_bit(b, 4));
    assert(has_bit(a, 5) == has_bit(b, 5));
    assert(has_bit(a, 6) == has_bit(b, 6));
    assert(has_bit(a, 7) == has_bit(b, 7));
    assert(has_bit(a, 8) == has_bit(b, 8));
    assert(has_bit(a, 9) == has_bit(b, 9));
    assert(has_bit(a, 10) == has_bit(b, 10));
    assert(has_bit(a, 11) == has_bit(b, 11));
    assert(has_bit(a, 12) == has_bit(b, 12));
    assert(has_bit(a, 13) == has_bit(b, 13));
    assert(has_bit(a, 14) == has_bit(b, 14));
    assert(has_bit(a, 15) == has_bit(b, 15));
    assert(has_bit(a, 16) == has_bit(b, 16));
    assert(has_bit(a, 17) == has_bit(b, 17));
    assert(has_bit(a, 18) == has_bit(b, 18));
    assert(has_bit(a, 19) == has_bit(b, 19));
    assert(has_bit(a, 20) == has_bit(b, 20));
    assert(has_bit(a, 21) == has_bit(b, 21));
    assert(has_bit(a, 22) == has_bit(b, 22));
    assert(has_bit(a, 23) == has_bit(b, 23));
    assert(has_bit(a, 24) == has_bit(b, 24));
    assert(has_bit(a, 25) == has_bit(b, 25));
    assert(has_bit(a, 26) == has_bit(b, 26));
    assert(has_bit(a, 27) == has_bit(b, 27));
    assert(has_bit(a, 28) == has_bit(b, 28));
    assert(has_bit(a, 29) == has_bit(b, 29));
    assert(has_bit(a, 30) == has_bit(b, 30));
    assert(has_bit(a, 31) == has_bit(b, 31));
    assert(has_bit(a, 32) == has_bit(b, 32));
    assert(has_bit(a, 33) == has_bit(b, 33));
    assert(has_bit(a, 34) == has_bit(b, 34));
    assert(has_bit(a, 35) == has_bit(b, 35));
    assert(has_bit(a, 36) == has_bit(b, 36));
    assert(has_bit(a, 37) == has_bit(b, 37));
    assert(has_bit(a, 38) == has_bit(b, 38));
    assert(has_bit(a, 39) == has_bit(b, 39));
    assert(has_bit(a, 40) == has_bit(b, 40));
    assert(has_bit(a, 41) == has_bit(b, 41));
    assert(has_bit(a, 42) == has_bit(b, 42));
    assert(has_bit(a, 43) == has_bit(b, 43));
    assert(has_bit(a, 44) == has_bit(b, 44));
    assert(has_bit(a, 45) == has_bit(b, 45));
    assert(has_bit(a, 46) == has_bit(b, 46));
    assert(has_bit(a, 47) == has_bit(b, 47));
    assert(has_bit(a, 48) == has_bit(b, 48));
    assert(has_bit(a, 49) == has_bit(b, 49));
    assert(has_bit(a, 50) == has_bit(b, 50));
    assert(has_bit(a, 51) == has_bit(b, 51));
    assert(has_bit(a, 52) == has_bit(b, 52));
    assert(has_bit(a, 53) == has_bit(b, 53));
    assert(has_bit(a, 54) == has_bit(b, 54));
    assert(has_bit(a, 55) == has_bit(b, 55));
    assert(has_bit(a, 56) == has_bit(b, 56));
    assert(has_bit(a, 57) == has_bit(b, 57));
    assert(has_bit(a, 58) == has_bit(b, 58));
    assert(has_bit(a, 59) == has_bit(b, 59));
    assert(has_bit(a, 60) == has_bit(b, 60));
    assert(has_bit(a, 61) == has_bit(b, 61));
    assert(has_bit(a, 62) == has_bit(b, 62));
    assert(has_bit(a, 63) == has_bit(b, 63));
    lemma_equal_bits_u64(a, b);
}

} // verus!
