//! Facts about single bits of 64-bit words, proved once by the bit-vector
//! solver and used by the bitboard and move-encoding code.

use vstd::prelude::*;

verus! {

/// Whether bit `b` (0 = least significant) of `w` is set.
pub open spec fn bit64(w: u64, b: int) -> bool {
    0 <= b < 64 && (w >> (b as u64)) & 1u64 == 1u64
}

/// The number of set bits of `w`.
pub open spec fn pop64(w: u64) -> nat
    decreases w,
{
    if w == 0 {
        0
    } else {
        (w % 2) as nat + pop64(w / 2)
    }
}

/// Bitwise operators act bit by bit.
pub proof fn lemma_bit_ops(x: u64, y: u64, b: u64)
    by (bit_vector)
    requires
        b < 64,
    ensures
        ((x | y) >> b) & 1 == 1 <==> ((x >> b) & 1 == 1 || (y >> b) & 1 == 1),
        ((x & y) >> b) & 1 == 1 <==> ((x >> b) & 1 == 1 && (y >> b) & 1 == 1),
        ((x ^ y) >> b) & 1 == 1 <==> (((x >> b) & 1 == 1) != ((y >> b) & 1 == 1)),
        ((!x) >> b) & 1 == 1 <==> !((x >> b) & 1 == 1),
        (0u64 >> b) & 1 != 1,
        ((x >> b) & 1 != 0) <==> ((x >> b) & 1 == 1),
        (0xffff_ffff_ffff_ffffu64 >> b) & 1 == 1,
        ((0xffffu64 >> b) & 1 == 1) <==> b < 16,
        (((x & 0xffffu64) >> b) & 1 == 1) <==> ((x >> b) & 1 == 1 && b < 16),
        ((!x) & 0xffffu64) < 65536,
        (x & 0xffffu64) < 65536,
        x < 65536 && b >= 16 ==> (x >> b) & 1 != 1,
        x < 65536 ==> (x & y) < 65536,
        y < 65536 ==> (x & y) < 65536,
        x < 65536 && y < 65536 ==> (x | y) < 65536 && (x ^ y) < 65536,
        x < 65536 ==> (x >> b) < 65536,
{
}

/// Setting and clearing one bit.
pub proof fn lemma_bit_single(x: u64, s: u64, b: u64)
    by (bit_vector)
    requires
        s < 64,
        b < 64,
    ensures
        (((1u64 << s) >> b) & 1 == 1) <==> s == b,
        (((x | (1u64 << s)) >> b) & 1 == 1) <==> ((x >> b) & 1 == 1 || s == b),
        (((x & !(1u64 << s)) >> b) & 1 == 1) <==> ((x >> b) & 1 == 1 && s != b),
        x < 65536 && s < 16 ==> (x | (1u64 << s)) < 65536,
        x < 65536 ==> (x & !(1u64 << s)) < 65536,
        s < 16 ==> (1u64 << s) < 65536,
{
}

/// Shifting words left, alone and combined with the bits carried in from
/// the word below (`sc == 64 - s`).
pub proof fn lemma_shl_pair(x: u64, y: u64, s: u64, sc: u64, b: u64, k: u64)
    by (bit_vector)
    requires
        0 < s < 64,
        sc == 64 - s,
        b < 64,
    ensures
        b >= s && k == b - s ==> (((((x << s) | (y >> sc)) >> b) & 1 == 1) <==> ((x >> k) & 1
            == 1)),
        b < s && k == b + sc ==> (((((x << s) | (y >> sc)) >> b) & 1 == 1) <==> ((y >> k) & 1
            == 1)),
        b >= s && k == b - s ==> ((((x << s) >> b) & 1 == 1) <==> ((x >> k) & 1 == 1)),
        b < s ==> ((x << s) >> b) & 1 != 1,
{
}

/// Shifting words right, alone and combined with the bits carried in from
/// the word above (`sc == 64 - s`).
pub proof fn lemma_shr_pair(x: u64, y: u64, s: u64, sc: u64, b: u64, k: u64)
    by (bit_vector)
    requires
        0 < s < 64,
        sc == 64 - s,
        b < 64,
    ensures
        b + s < 64 && k == b + s ==> (((((x >> s) | (y << sc)) >> b) & 1 == 1) <==> ((x >> k) & 1
            == 1)),
        b + s >= 64 && k == b + s - 64 ==> (((((x >> s) | (y << sc)) >> b) & 1 == 1) <==> ((y
            >> k) & 1 == 1)),
        b + s < 64 && k == b + s ==> ((((x >> s) >> b) & 1 == 1) <==> ((x >> k) & 1 == 1)),
        b + s >= 64 ==> ((x >> s) >> b) & 1 != 1,
{
}

/// Shifting a single word left: bit `b` of `x << s` is bit `b - s` of `x`.
pub proof fn lemma_shl_one(x: u64, s: u64, b: u64, k: u64)
    by (bit_vector)
    requires
        s < 64,
        b < 64,
    ensures
        b >= s && k == b - s ==> ((((x << s) >> b) & 1 == 1) <==> ((x >> k) & 1 == 1)),
        b < s ==> ((x << s) >> b) & 1 != 1,
{
}

/// Shifting a single word right: bit `b` of `x >> s` is bit `b + s` of `x`.
pub proof fn lemma_shr_one(x: u64, s: u64, b: u64, k: u64)
    by (bit_vector)
    requires
        s < 64,
        b < 64,
    ensures
        b + s < 64 && k == b + s ==> ((((x >> s) >> b) & 1 == 1) <==> ((x >> k) & 1 == 1)),
        b + s >= 64 ==> ((x >> s) >> b) & 1 != 1,
        x < 65536 ==> (x >> s) < 65536,
{
}

/// Halving a word drops its lowest bit.
pub proof fn lemma_halve(x: u64)
    by (bit_vector)
    ensures
        x >> 1 == x / 2,
        x & 1 == x % 2,
        (x >> 1) < 0x8000_0000_0000_0000u64,
{
}

/// A word with no set bit is zero.
pub proof fn lemma_word_zero(x: u64)
    ensures
        (forall|b: int| 0 <= b < 64 ==> !#[trigger] bit64(x, b)) ==> x == 0,
{
    broadcast use vstd::std_specs::bits::axiom_u64_trailing_zeros;
    if x != 0 {
        let t = vstd::std_specs::bits::u64_trailing_zeros(x);
        assert(bit64(x, t as int));
    }
}

/// Two words with the same bits are equal.
pub proof fn lemma_word_eq(x: u64, y: u64)
    requires
        forall|b: int| 0 <= b < 64 ==> #[trigger] bit64(x, b) == bit64(y, b),
    ensures
        x == y,
{
    assert forall|b: int| 0 <= b < 64 implies !#[trigger] bit64(x ^ y, b) by {
        lemma_bit_ops(x, y, b as u64);
        assert(bit64(x, b) == bit64(y, b));
    }
    lemma_word_zero(x ^ y);
    assert(x ^ y == 0 ==> x == y) by (bit_vector);
}

/// `pop64` of a word is at most 64.
pub proof fn lemma_pop64_bound(x: u64, k: nat)
    requires
        x < pow2_u(k),
        k <= 64,
    ensures
        pop64(x) <= k,
    decreases k,
{
    if x != 0 {
        assert(k > 0);
        assert(x / 2 < pow2_u((k - 1) as nat));
        lemma_pop64_bound(x / 2, (k - 1) as nat);
    }
}

/// `2^k` as an integer.
pub open spec fn pow2_u(k: nat) -> int
    decreases k,
{
    if k == 0 {
        1
    } else {
        2 * pow2_u((k - 1) as nat)
    }
}

/// Every word is below `2^64`.
pub proof fn lemma_pow2_64()
    ensures
        pow2_u(64) == 0x1_0000_0000_0000_0000int,
{
    reveal_with_fuel(pow2_u, 65);
}

/// Counts the set bits of `x`.
pub fn popcount(x: u64) -> (r: u32)
    ensures
        r as nat == pop64(x),
        r <= 64,
{
    proof {
        lemma_pow2_64();
        lemma_pop64_bound(x, 64);
    }
    let mut y = x;
    let mut c: u32 = 0;
    while y != 0
        invariant
            c as nat + pop64(y) == pop64(x),
            pop64(x) <= 64,
        decreases y,
    {
        proof {
            lemma_halve(y);
        }
        c = c + (y & 1) as u32;
        y = y >> 1;
    }
    c
}

} // verus!
