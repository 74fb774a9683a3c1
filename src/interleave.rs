//! The quadratic permutation that spreads the 368 coded bits of a frame.

use vstd::prelude::*;
use crate::bits::{bit_of, get_bit, set_bit, lemma_set_then_get};

verus! {

/// Number of bits that the interleaver permutes.
pub const INTERLEAVED_BITS: usize = 368;

/// The interleaver's permutation: bit `i` of the output is bit
/// `(45 i + 92 i^2) mod 368` of the input.
pub open spec fn perm(i: int) -> int {
    (45 * i + 92 * i * i) % 368
}

proof fn lemma_perm_involution(i: int)
    requires
        0 <= i < 368,
    ensures
        0 <= perm(i) < 368,
        perm(perm(i)) == i,
{
    let x = i as u32;
    let a = ((45u32 * x) as u32 + ((92u32 * x) as u32 * x) as u32) as u32;
    let p = (a % 368u32) as u32;
    let b = ((45u32 * p) as u32 + ((92u32 * p) as u32 * p) as u32) as u32;
    assert(p < 368u32 && b % 368u32 == x) by (bit_vector)
        requires
            x < 368u32,
            a == ((45u32 * x) as u32 + ((92u32 * x) as u32 * x) as u32) as u32,
            p == (a % 368u32) as u32,
            b == ((45u32 * p) as u32 + ((92u32 * p) as u32 * p) as u32) as u32,
    ;
    assert(a as int == 45 * i + 92 * i * i) by (nonlinear_arith)
        requires
            x as int == i,
            0 <= i < 368,
            a == ((45u32 * x) as u32 + ((92u32 * x) as u32 * x) as u32) as u32,
    ;
    assert(p as int == perm(i));
    assert(b as int == 45 * perm(i) + 92 * perm(i) * perm(i)) by (nonlinear_arith)
        requires
            p as int == perm(i),
            0 <= perm(i) < 368,
            b == ((45u32 * p) as u32 + ((92u32 * p) as u32 * p) as u32) as u32,
    ;
}

fn perm_exec(i: usize) -> (r: usize)
    requires
        i < 368,
    ensures
        r == perm(i as int),
        r < 368,
{
    assert(45 * i + 92 * i * i < 13_000_000) by (nonlinear_arith)
        requires i < 368;
    (45 * i + 92 * i * i) % 368
}

/// Permute the 368 bits of a frame payload.
pub fn interleave(input: &[u8; 46]) -> (r: [u8; 46])
    ensures
        forall|i: int| 0 <= i < 368 ==> bit_of(r@, i) == bit_of(input@, perm(i)),
{
    let mut out = [0u8; 46];
    let mut i: usize = 0;
    while i < INTERLEAVED_BITS
        invariant
            0 <= i <= 368,
            forall|j: int| 0 <= j < i ==> bit_of(out@, j) == bit_of(input@, perm(j)),
        decreases 368 - i,
    {
        let src = perm_exec(i);
        let b = get_bit(input, src);
        let ghost before = out@;
        set_bit(&mut out, i, b);
        proof {
            assert forall|j: int| 0 <= j < i + 1 implies bit_of(out@, j) == bit_of(input@, perm(j)) by {
                lemma_set_then_get(before, i as int, b != 0, j);
            }
        }
        i = i + 1;
    }
    out
}

/// Interleaving twice gives back the input: the permutation is its own
/// inverse.
pub proof fn lemma_interleave_involution(x: Seq<u8>, y: Seq<u8>, z: Seq<u8>)
    requires
        x.len() == 46,
        y.len() == 46,
        z.len() == 46,
        forall|i: int| 0 <= i < 368 ==> bit_of(y, i) == bit_of(x, perm(i)),
        forall|i: int| 0 <= i < 368 ==> bit_of(z, i) == bit_of(y, perm(i)),
    ensures
        z == x,
{
    assert forall|i: int| 0 <= i < 368 implies bit_of(z, i) == bit_of(x, i) by {
        lemma_perm_involution(i);
    }
    assert forall|k: int| 0 <= k < 46 implies z[k] == x[k] by {
        lemma_bytes_from_bits(z[k], x[k], z, x, k);
    }
    assert(z =~= x);
}

/// Two bytes whose eight bits agree are equal.
proof fn lemma_bytes_from_bits(a: u8, b: u8, z: Seq<u8>, x: Seq<u8>, k: int)
    requires
        0 <= k < 46,
        z.len() == 46,
        x.len() == 46,
        a == z[k],
        b == x[k],
        forall|i: int| 0 <= i < 368 ==> bit_of(z, i) == bit_of(x, i),
    ensures
        a == b,
{
    assert(bit_of(z, 8 * k) == bit_of(x, 8 * k));
    assert(bit_of(z, 8 * k + 1) == bit_of(x, 8 * k + 1));
    assert(bit_of(z, 8 * k + 2) == bit_of(x, 8 * k + 2));
    assert(bit_of(z, 8 * k + 3) == bit_of(x, 8 * k + 3));
    assert(bit_of(z, 8 * k + 4) == bit_of(x, 8 * k + 4));
    assert(bit_of(z, 8 * k + 5) == bit_of(x, 8 * k + 5));
    assert(bit_of(z, 8 * k + 6) == bit_of(x, 8 * k + 6));
    assert(bit_of(z, 8 * k + 7) == bit_of(x, 8 * k + 7));
    assert((8 * k) / 8 == k && (8 * k + 1) / 8 == k && (8 * k + 2) / 8 == k && (8 * k + 3) / 8 == k
        && (8 * k + 4) / 8 == k && (8 * k + 5) / 8 == k && (8 * k + 6) / 8 == k && (8 * k + 7) / 8 == k);
    assert((8 * k) % 8 == 0 && (8 * k + 1) % 8 == 1 && (8 * k + 2) % 8 == 2 && (8 * k + 3) % 8 == 3
        && (8 * k + 4) % 8 == 4 && (8 * k + 5) % 8 == 5 && (8 * k + 6) % 8 == 6 && (8 * k + 7) % 8 == 7);
    assert(((a >> 7u8) & 1u8) == ((b >> 7u8) & 1u8) && ((a >> 6u8) & 1u8) == ((b >> 6u8) & 1u8)
        && ((a >> 5u8) & 1u8) == ((b >> 5u8) & 1u8) && ((a >> 4u8) & 1u8) == ((b >> 4u8) & 1u8)
        && ((a >> 3u8) & 1u8) == ((b >> 3u8) & 1u8) && ((a >> 2u8) & 1u8) == ((b >> 2u8) & 1u8)
        && ((a >> 1u8) & 1u8) == ((b >> 1u8) & 1u8) && ((a >> 0u8) & 1u8) == ((b >> 0u8) & 1u8)
        ==> a == b) by (bit_vector);
}

} // verus!
