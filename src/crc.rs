//! The M17 CRC-16: polynomial 0x5935, initial value 0xFFFF, no reflection,
//! no final XOR.

use vstd::prelude::*;

verus! {

/// The generator polynomial.
pub const M17_POLY: u16 = 0x5935;

/// The register value before any byte is fed in.
pub const M17_INIT: u16 = 0xFFFF;

/// Feed the low bit of `bit` into the register.
pub open spec fn crc_shift(reg: u16, bit: u8) -> u16 {
    if (((reg >> 15u16) as u8 ^ bit) & 1u8) == 1u8 {
        ((reg << 1u16) ^ M17_POLY) as u16
    } else {
        (reg << 1u16) as u16
    }
}

/// Feed the `k` most significant bits of `b` into the register, MSB first.
pub open spec fn crc_bits(reg: u16, b: u8, k: nat) -> u16
    decreases k,
{
    if k == 0 {
        reg
    } else {
        crc_shift(crc_bits(reg, b, (k - 1) as nat), (b >> ((8 - k) as u8)) as u8)
    }
}

/// Feed one whole byte into the register.
pub open spec fn crc_byte(reg: u16, b: u8) -> u16 {
    crc_bits(reg, b, 8)
}

/// The register after feeding `s` into it, starting from `reg`.
pub open spec fn crc_from(reg: u16, s: Seq<u8>) -> u16
    decreases s.len(),
{
    if s.len() == 0 {
        reg
    } else {
        crc_byte(crc_from(reg, s.drop_last()), s.last())
    }
}

/// The M17 CRC-16 of a byte sequence.
pub open spec fn crc16(s: Seq<u8>) -> u16 {
    crc_from(M17_INIT, s)
}

/// The two bytes of a `u16`, most significant first.
pub open spec fn be16(v: u16) -> Seq<u8> {
    seq![(v >> 8u16) as u8, v as u8]
}

fn shift_bit(reg: u16, bit: u8) -> (r: u16)
    ensures
        r == crc_shift(reg, bit),
{
    if (((reg >> 15u16) as u8 ^ bit) & 1u8) == 1u8 {
        (reg << 1u16) ^ M17_POLY
    } else {
        reg << 1u16
    }
}

fn update_byte(reg: u16, b: u8) -> (r: u16)
    ensures
        r == crc_byte(reg, b),
{
    let mut r: u16 = reg;
    let mut k: u8 = 0;
    while k < 8
        invariant
            k <= 8,
            r == crc_bits(reg, b, k as nat),
        decreases 8 - k,
    {
        r = shift_bit(r, b >> (7 - k));
        k = k + 1;
    }
    r
}

/// The M17 CRC-16 of `input`.
pub fn m17_crc(input: &[u8]) -> (r: u16)
    ensures
        r == crc16(input@),
{
    let r = crc_of_range(input, 0, input.len());
    assert(input@.subrange(0, input@.len() as int) =~= input@);
    r
}

/// The M17 CRC-16 of `input[start..end]`.
pub fn crc_of_range(input: &[u8], start: usize, end: usize) -> (r: u16)
    requires
        start <= end <= input@.len(),
    ensures
        r == crc16(input@.subrange(start as int, end as int)),
{
    let mut reg: u16 = M17_INIT;
    let mut i: usize = start;
    while i < end
        invariant
            start <= i <= end <= input@.len(),
            reg == crc16(input@.subrange(start as int, i as int)),
        decreases end - i,
    {
        proof {
            let s = input@.subrange(start as int, i as int + 1);
            assert(s.drop_last() =~= input@.subrange(start as int, i as int));
        }
        reg = update_byte(reg, input[i]);
        i = i + 1;
    }
    reg
}

/// Feeding a register its own top byte, MSB first, shifts that byte out.
proof fn lemma_byte_of_own_top(reg: u16, b: u8)
    requires
        b == (reg >> 8u16) as u8,
    ensures
        crc_byte(reg, b) == (reg << 8u16) as u16,
{
    reveal_with_fuel(crc_bits, 9);
    let r1 = (reg << 1u16) as u16;
    let r2 = (r1 << 1u16) as u16;
    let r3 = (r2 << 1u16) as u16;
    let r4 = (r3 << 1u16) as u16;
    let r5 = (r4 << 1u16) as u16;
    let r6 = (r5 << 1u16) as u16;
    let r7 = (r6 << 1u16) as u16;
    assert(r2 == (reg << 2u16) as u16) by (bit_vector)
        requires r1 == (reg << 1u16) as u16, r2 == (r1 << 1u16) as u16;
    assert(r3 == (reg << 3u16) as u16) by (bit_vector)
        requires r2 == (reg << 2u16) as u16, r3 == (r2 << 1u16) as u16;
    assert(r4 == (reg << 4u16) as u16) by (bit_vector)
        requires r3 == (reg << 3u16) as u16, r4 == (r3 << 1u16) as u16;
    assert(r5 == (reg << 5u16) as u16) by (bit_vector)
        requires r4 == (reg << 4u16) as u16, r5 == (r4 << 1u16) as u16;
    assert(r6 == (reg << 6u16) as u16) by (bit_vector)
        requires r5 == (reg << 5u16) as u16, r6 == (r5 << 1u16) as u16;
    assert(r7 == (reg << 7u16) as u16) by (bit_vector)
        requires r6 == (reg << 6u16) as u16, r7 == (r6 << 1u16) as u16;
    assert(((r7 << 1u16) as u16) == (reg << 8u16) as u16) by (bit_vector)
        requires r7 == (reg << 7u16) as u16;
    assert(((((reg >> 15u16) as u8) ^ (b >> 7u8)) & 1u8) == 0u8) by (bit_vector)
        requires b == (reg >> 8u16) as u8;
    assert(crc_bits(reg, b, 0) == reg);
    assert(((((r1 >> 15u16) as u8) ^ (b >> 6u8)) & 1u8) == 0u8) by (bit_vector)
        requires b == (reg >> 8u16) as u8, r1 == (reg << 1u16) as u16;
    assert(crc_bits(reg, b, 1) == r1);
    assert(((((r2 >> 15u16) as u8) ^ (b >> 5u8)) & 1u8) == 0u8) by (bit_vector)
        requires b == (reg >> 8u16) as u8, r2 == (reg << 2u16) as u16;
    assert(crc_bits(reg, b, 2) == r2);
    assert(((((r3 >> 15u16) as u8) ^ (b >> 4u8)) & 1u8) == 0u8) by (bit_vector)
        requires b == (reg >> 8u16) as u8, r3 == (reg << 3u16) as u16;
    assert(crc_bits(reg, b, 3) == r3);
    assert(((((r4 >> 15u16) as u8) ^ (b >> 3u8)) & 1u8) == 0u8) by (bit_vector)
        requires b == (reg >> 8u16) as u8, r4 == (reg << 4u16) as u16;
    assert(crc_bits(reg, b, 4) == r4);
    assert(((((r5 >> 15u16) as u8) ^ (b >> 2u8)) & 1u8) == 0u8) by (bit_vector)
        requires b == (reg >> 8u16) as u8, r5 == (reg << 5u16) as u16;
    assert(crc_bits(reg, b, 5) == r5);
    assert(((((r6 >> 15u16) as u8) ^ (b >> 1u8)) & 1u8) == 0u8) by (bit_vector)
        requires b == (reg >> 8u16) as u8, r6 == (reg << 6u16) as u16;
    assert(crc_bits(reg, b, 6) == r6);
    assert(((((r7 >> 15u16) as u8) ^ (b >> 0u8)) & 1u8) == 0u8) by (bit_vector)
        requires b == (reg >> 8u16) as u8, r7 == (reg << 7u16) as u16;
    assert(crc_bits(reg, b, 7) == r7);
    assert(crc_bits(reg, b, 8) == (r7 << 1u16) as u16);
}

/// The only two bytes that bring a register to zero are its own value,
/// most significant byte first.
proof fn lemma_zeroing_bytes_unique(c: u16, hi: u8, lo: u8)
    requires
        crc_byte(crc_byte(c, hi), lo) == 0,
    ensures
        hi == (c >> 8u16) as u8,
        lo == c as u8,
{
    reveal_with_fuel(crc_bits, 9);
    let r1 = crc_shift(c, (hi >> 7u8) as u8);
    let r2 = crc_shift(r1, (hi >> 6u8) as u8);
    let r3 = crc_shift(r2, (hi >> 5u8) as u8);
    let r4 = crc_shift(r3, (hi >> 4u8) as u8);
    let r5 = crc_shift(r4, (hi >> 3u8) as u8);
    let r6 = crc_shift(r5, (hi >> 2u8) as u8);
    let r7 = crc_shift(r6, (hi >> 1u8) as u8);
    let r8 = crc_shift(r7, (hi >> 0u8) as u8);
    let r9 = crc_shift(r8, (lo >> 7u8) as u8);
    let r10 = crc_shift(r9, (lo >> 6u8) as u8);
    let r11 = crc_shift(r10, (lo >> 5u8) as u8);
    let r12 = crc_shift(r11, (lo >> 4u8) as u8);
    let r13 = crc_shift(r12, (lo >> 3u8) as u8);
    let r14 = crc_shift(r13, (lo >> 2u8) as u8);
    let r15 = crc_shift(r14, (lo >> 1u8) as u8);
    let r16 = crc_shift(r15, (lo >> 0u8) as u8);
    assert(crc_byte(c, hi) == r8);
    assert(crc_byte(r8, lo) == r16);
    assert(r1 == (if ((((c >> 15u16) as u8) ^ (hi >> 7u8)) & 1u8) == 1u8 { ((c << 1u16) ^ 0x5935u16) as u16 } else { (c << 1u16) as u16 }));
    assert(r2 == (if ((((r1 >> 15u16) as u8) ^ (hi >> 6u8)) & 1u8) == 1u8 { ((r1 << 1u16) ^ 0x5935u16) as u16 } else { (r1 << 1u16) as u16 }));
    assert(r3 == (if ((((r2 >> 15u16) as u8) ^ (hi >> 5u8)) & 1u8) == 1u8 { ((r2 << 1u16) ^ 0x5935u16) as u16 } else { (r2 << 1u16) as u16 }));
    assert(r4 == (if ((((r3 >> 15u16) as u8) ^ (hi >> 4u8)) & 1u8) == 1u8 { ((r3 << 1u16) ^ 0x5935u16) as u16 } else { (r3 << 1u16) as u16 }));
    assert(r5 == (if ((((r4 >> 15u16) as u8) ^ (hi >> 3u8)) & 1u8) == 1u8 { ((r4 << 1u16) ^ 0x5935u16) as u16 } else { (r4 << 1u16) as u16 }));
    assert(r6 == (if ((((r5 >> 15u16) as u8) ^ (hi >> 2u8)) & 1u8) == 1u8 { ((r5 << 1u16) ^ 0x5935u16) as u16 } else { (r5 << 1u16) as u16 }));
    assert(r7 == (if ((((r6 >> 15u16) as u8) ^ (hi >> 1u8)) & 1u8) == 1u8 { ((r6 << 1u16) ^ 0x5935u16) as u16 } else { (r6 << 1u16) as u16 }));
    assert(r8 == (if ((((r7 >> 15u16) as u8) ^ (hi >> 0u8)) & 1u8) == 1u8 { ((r7 << 1u16) ^ 0x5935u16) as u16 } else { (r7 << 1u16) as u16 }));
    assert(r9 == (if ((((r8 >> 15u16) as u8) ^ (lo >> 7u8)) & 1u8) == 1u8 { ((r8 << 1u16) ^ 0x5935u16) as u16 } else { (r8 << 1u16) as u16 }));
    assert(r10 == (if ((((r9 >> 15u16) as u8) ^ (lo >> 6u8)) & 1u8) == 1u8 { ((r9 << 1u16) ^ 0x5935u16) as u16 } else { (r9 << 1u16) as u16 }));
    assert(r11 == (if ((((r10 >> 15u16) as u8) ^ (lo >> 5u8)) & 1u8) == 1u8 { ((r10 << 1u16) ^ 0x5935u16) as u16 } else { (r10 << 1u16) as u16 }));
    assert(r12 == (if ((((r11 >> 15u16) as u8) ^ (lo >> 4u8)) & 1u8) == 1u8 { ((r11 << 1u16) ^ 0x5935u16) as u16 } else { (r11 << 1u16) as u16 }));
    assert(r13 == (if ((((r12 >> 15u16) as u8) ^ (lo >> 3u8)) & 1u8) == 1u8 { ((r12 << 1u16) ^ 0x5935u16) as u16 } else { (r12 << 1u16) as u16 }));
    assert(r14 == (if ((((r13 >> 15u16) as u8) ^ (lo >> 2u8)) & 1u8) == 1u8 { ((r13 << 1u16) ^ 0x5935u16) as u16 } else { (r13 << 1u16) as u16 }));
    assert(r15 == (if ((((r14 >> 15u16) as u8) ^ (lo >> 1u8)) & 1u8) == 1u8 { ((r14 << 1u16) ^ 0x5935u16) as u16 } else { (r14 << 1u16) as u16 }));
    assert(r16 == (if ((((r15 >> 15u16) as u8) ^ (lo >> 0u8)) & 1u8) == 1u8 { ((r15 << 1u16) ^ 0x5935u16) as u16 } else { (r15 << 1u16) as u16 }));
    assert(hi == (c >> 8u16) as u8 && lo == c as u8) by (bit_vector)
        requires
            r1 == (if ((((c >> 15u16) as u8) ^ (hi >> 7u8)) & 1u8) == 1u8 { ((c << 1u16) ^ 0x5935u16) as u16 } else { (c << 1u16) as u16 }),
            r2 == (if ((((r1 >> 15u16) as u8) ^ (hi >> 6u8)) & 1u8) == 1u8 { ((r1 << 1u16) ^ 0x5935u16) as u16 } else { (r1 << 1u16) as u16 }),
            r3 == (if ((((r2 >> 15u16) as u8) ^ (hi >> 5u8)) & 1u8) == 1u8 { ((r2 << 1u16) ^ 0x5935u16) as u16 } else { (r2 << 1u16) as u16 }),
            r4 == (if ((((r3 >> 15u16) as u8) ^ (hi >> 4u8)) & 1u8) == 1u8 { ((r3 << 1u16) ^ 0x5935u16) as u16 } else { (r3 << 1u16) as u16 }),
            r5 == (if ((((r4 >> 15u16) as u8) ^ (hi >> 3u8)) & 1u8) == 1u8 { ((r4 << 1u16) ^ 0x5935u16) as u16 } else { (r4 << 1u16) as u16 }),
            r6 == (if ((((r5 >> 15u16) as u8) ^ (hi >> 2u8)) & 1u8) == 1u8 { ((r5 << 1u16) ^ 0x5935u16) as u16 } else { (r5 << 1u16) as u16 }),
            r7 == (if ((((r6 >> 15u16) as u8) ^ (hi >> 1u8)) & 1u8) == 1u8 { ((r6 << 1u16) ^ 0x5935u16) as u16 } else { (r6 << 1u16) as u16 }),
            r8 == (if ((((r7 >> 15u16) as u8) ^ (hi >> 0u8)) & 1u8) == 1u8 { ((r7 << 1u16) ^ 0x5935u16) as u16 } else { (r7 << 1u16) as u16 }),
            r9 == (if ((((r8 >> 15u16) as u8) ^ (lo >> 7u8)) & 1u8) == 1u8 { ((r8 << 1u16) ^ 0x5935u16) as u16 } else { (r8 << 1u16) as u16 }),
            r10 == (if ((((r9 >> 15u16) as u8) ^ (lo >> 6u8)) & 1u8) == 1u8 { ((r9 << 1u16) ^ 0x5935u16) as u16 } else { (r9 << 1u16) as u16 }),
            r11 == (if ((((r10 >> 15u16) as u8) ^ (lo >> 5u8)) & 1u8) == 1u8 { ((r10 << 1u16) ^ 0x5935u16) as u16 } else { (r10 << 1u16) as u16 }),
            r12 == (if ((((r11 >> 15u16) as u8) ^ (lo >> 4u8)) & 1u8) == 1u8 { ((r11 << 1u16) ^ 0x5935u16) as u16 } else { (r11 << 1u16) as u16 }),
            r13 == (if ((((r12 >> 15u16) as u8) ^ (lo >> 3u8)) & 1u8) == 1u8 { ((r12 << 1u16) ^ 0x5935u16) as u16 } else { (r12 << 1u16) as u16 }),
            r14 == (if ((((r13 >> 15u16) as u8) ^ (lo >> 2u8)) & 1u8) == 1u8 { ((r13 << 1u16) ^ 0x5935u16) as u16 } else { (r13 << 1u16) as u16 }),
            r15 == (if ((((r14 >> 15u16) as u8) ^ (lo >> 1u8)) & 1u8) == 1u8 { ((r14 << 1u16) ^ 0x5935u16) as u16 } else { (r14 << 1u16) as u16 }),
            r16 == (if ((((r15 >> 15u16) as u8) ^ (lo >> 0u8)) & 1u8) == 1u8 { ((r15 << 1u16) ^ 0x5935u16) as u16 } else { (r15 << 1u16) as u16 }),
            r16 == 0u16,
    ;
}

/// A sequence whose CRC is zero ends in the big-endian CRC of the rest.
pub proof fn lemma_crc_zero_suffix(x: Seq<u8>, hi: u8, lo: u8)
    requires
        crc16(x.push(hi).push(lo)) == 0,
    ensures
        be16(crc16(x)) == seq![hi, lo],
{
    let s = x.push(hi).push(lo);
    assert(s.drop_last() =~= x.push(hi));
    assert(x.push(hi).drop_last() =~= x);
    assert(s.last() == lo);
    assert(x.push(hi).last() == hi);
    assert(crc16(x.push(hi)) == crc_byte(crc16(x), hi));
    assert(crc16(s) == crc_byte(crc16(x.push(hi)), lo));
    lemma_zeroing_bytes_unique(crc16(x), hi, lo);
    assert(be16(crc16(x)) =~= seq![hi, lo]);
}

/// Appending the big-endian CRC of a sequence to it gives a sequence whose
/// CRC is zero.
pub proof fn lemma_crc_residue(x: Seq<u8>)
    ensures
        crc16(x + be16(crc16(x))) == 0,
{
    let c = crc16(x);
    let hi = #[verifier::truncate] ((c >> 8u16) as u8);
    let lo = #[verifier::truncate] (c as u8);
    let s = x + be16(c);
    assert(s.drop_last() =~= x.push(hi));
    assert(s.drop_last().drop_last() =~= x);
    assert(s.last() == lo);
    assert(x.push(hi).last() == hi);
    lemma_byte_of_own_top(c, hi);
    let c2 = (c << 8u16) as u16;
    assert(lo == (c2 >> 8u16) as u8) by (bit_vector)
        requires c2 == (c << 8u16) as u16, lo == c as u8;
    lemma_byte_of_own_top(c2, lo);
    assert(crc16(x.push(hi)) == crc_byte(crc16(x), hi));
    assert(crc16(s) == crc_byte(crc16(s.drop_last()), lo));
    assert(((c2 << 8u16) as u16) == 0u16) by (bit_vector)
        requires c2 == (c << 8u16) as u16;
}

} // verus!
