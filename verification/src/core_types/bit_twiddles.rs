//! Bit manipulation helpers on single 64-bit words.

use vstd::prelude::*;

use super::bits::{bit64, pop64, popcount};

verus! {

broadcast use vstd::std_specs::bits::axiom_u64_trailing_zeros,
    vstd::std_specs::bits::axiom_u64_leading_zeros;

/// `t` is the index of the lowest set bit of `b`.
pub open spec fn is_lowest_bit(b: u64, t: int) -> bool {
    0 <= t < 64 && bit64(b, t) && forall|j: int| 0 <= j < t ==> !#[trigger] bit64(b, j)
}

/// `t` is the index of the highest set bit of `b`.
pub open spec fn is_highest_bit(b: u64, t: int) -> bool {
    0 <= t < 64 && bit64(b, t) && forall|j: int| t < j < 64 ==> !#[trigger] bit64(b, j)
}

/// Byte `k` (0 = least significant) of `b`.
pub open spec fn byte_of(b: u64, k: u64) -> u64 {
    (b >> (8 * k)) & 0xff
}

/// Returns the number of set bits in a u64.
pub fn popcount64(b: u64) -> (r: u8)
    ensures
        r as nat == pop64(b),
{
    popcount(b) as u8
}

/// Returns the index of the least significant bit.
pub fn bit_scan_forward(b: u64) -> (r: u8)
    requires
        b != 0,
    ensures
        is_lowest_bit(b, r as int),
{
    let t = b.trailing_zeros();
    proof {
        assert forall|j: int| 0 <= j < t implies !#[trigger] bit64(b, j) by {
            assert((b >> (j as u64)) & 1u64 == 0u64);
        }
    }
    t as u8
}

/// Returns the index of the most significant bit.
pub fn bit_scan_reverse(b: u64) -> (r: u8)
    requires
        b != 0,
    ensures
        is_highest_bit(b, r as int),
{
    let l = b.leading_zeros();
    let r = 63 - l as u8;
    proof {
        assert((b >> (r as u64)) & 1u64 != 0u64);
        assert(((b >> (r as u64)) & 1u64 != 0u64) ==> ((b >> (r as u64)) & 1u64 == 1u64))
            by (bit_vector);
        assert forall|j: int| r < j < 64 implies !#[trigger] bit64(b, j) by {
            assert((b >> (j as u64)) & 1u64 == 0u64);
        }
    }
    r
}

/// Returns the least significant set bit as a one-bit word (zero for zero).
pub fn lsb(b: u64) -> (r: u64)
    ensures
        b == 0 ==> r == 0,
        b != 0 ==> exists|t: int| is_lowest_bit(b, t) && r == 1u64 << (t as u64),
{
    if b == 0 {
        return 0;
    }
    let t = bit_scan_forward(b);
    1u64 << (t as u64)
}

/// Returns the most significant set bit as a one-bit word (zero for zero).
pub fn msb(b: u64) -> (r: u64)
    ensures
        b == 0 ==> r == 0,
        b != 0 ==> exists|t: int| is_highest_bit(b, t) && r == 1u64 << (t as u64),
{
    if b == 0 {
        return 0;
    }
    let t = bit_scan_reverse(b);
    1u64 << (t as u64)
}

/// Returns true if more than one bit is set.
pub fn more_than_one(b: u64) -> (r: bool)
    ensures
        r == (pop64(b) > 1),
{
    popcount(b) > 1
}

/// Reverses the byte order of a u64.
pub fn reverse_bytes(b: u64) -> (r: u64)
    ensures
        byte_of(r, 0) == byte_of(b, 7),
        byte_of(r, 1) == byte_of(b, 6),
        byte_of(r, 2) == byte_of(b, 5),
        byte_of(r, 3) == byte_of(b, 4),
        byte_of(r, 4) == byte_of(b, 3),
        byte_of(r, 5) == byte_of(b, 2),
        byte_of(r, 6) == byte_of(b, 1),
        byte_of(r, 7) == byte_of(b, 0),
{
    let r = ((b & 0xff) << 56) | (((b >> 8) & 0xff) << 48) | (((b >> 16) & 0xff) << 40) | (((b
        >> 24) & 0xff) << 32) | (((b >> 32) & 0xff) << 24) | (((b >> 40) & 0xff) << 16) | (((b
        >> 48) & 0xff) << 8) | (b >> 56);
    assert(byte_of(r, 0) == byte_of(b, 7) && byte_of(r, 1) == byte_of(b, 6) && byte_of(r, 2)
        == byte_of(b, 5) && byte_of(r, 3) == byte_of(b, 4) && byte_of(r, 4) == byte_of(b, 3)
        && byte_of(r, 5) == byte_of(b, 2) && byte_of(r, 6) == byte_of(b, 1) && byte_of(r, 7)
        == byte_of(b, 0)) by (bit_vector)
        requires
            r == ((b & 0xff) << 56) | (((b >> 8) & 0xff) << 48) | (((b >> 16) & 0xff) << 40) | (((b
                >> 24) & 0xff) << 32) | (((b >> 32) & 0xff) << 24) | (((b >> 40) & 0xff) << 16) | (((b
                >> 48) & 0xff) << 8) | (b >> 56),
    ;
    r
}

/// The 8x8 grid picture of `b`: eight lines, the highest rank first, each
/// cell `'1'` or `'.'` followed by a space.
pub open spec fn grid_u64(b: u64) -> Seq<char> {
    Seq::new(
        136,
        |k: int|
            {
                let row = k / 17;
                let col = k % 17;
                if col == 16 {
                    '\n'
                } else if col % 2 == 1 {
                    ' '
                } else if bit64(b, (7 - row) * 8 + col / 2) {
                    '1'
                } else {
                    '.'
                }
            },
    )
}

/// Formats a u64 as a 8x8 grid string.
pub fn string_u64(b: u64) -> (r: String)
    ensures
        r@ == grid_u64(b),
{
    let mut v: Vec<char> = Vec::new();
    let mut row: u64 = 0;
    while row < 8
        invariant
            row <= 8,
            v.len() == row * 17,
            forall|k: int| 0 <= k < v.len() ==> v@[k] == #[trigger] grid_u64(b)[k],
        decreases 8 - row,
    {
        let rank = 7 - row;
        let mut file: u64 = 0;
        while file < 8
            invariant
                row < 8,
                rank == 7 - row,
                file <= 8,
                v.len() == row * 17 + file * 2,
                forall|k: int| 0 <= k < v.len() ==> v@[k] == #[trigger] grid_u64(b)[k],
            decreases 8 - file,
        {
            let bit = rank * 8 + file;
            let set = (b >> bit) & 1 == 1;
            let ghost k0 = v.len() as int;
            if set {
                v.push('1');
            } else {
                v.push('.');
            }
            v.push(' ');
            proof {
                assert(k0 / 17 == row && k0 % 17 == file * 2) by (nonlinear_arith)
                    requires
                        k0 == row * 17 + file * 2,
                        file < 8,
                ;
                assert((k0 + 1) / 17 == row && (k0 + 1) % 17 == file * 2 + 1) by (nonlinear_arith)
                    requires
                        k0 == row * 17 + file * 2,
                        file < 8,
                ;
                assert(v@[k0] == grid_u64(b)[k0]);
                assert(v@[k0 + 1] == grid_u64(b)[k0 + 1]);
            }
            file += 1;
        }
        let ghost k0 = v.len() as int;
        v.push('\n');
        proof {
            assert(k0 / 17 == row && k0 % 17 == 16) by (nonlinear_arith)
                requires
                    k0 == row * 17 + 16,
            ;
            assert(v@[k0] == grid_u64(b)[k0]);
        }
        row += 1;
    }
    assert(v@ =~= grid_u64(b));
    crate::text::string_from(&v)
}

} // verus!
