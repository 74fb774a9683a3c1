//! Bit-addressable views over byte buffers, most significant bit first.

use vstd::prelude::*;

verus! {

/// Bit `i` of a byte sequence: bit `7 - i % 8` of byte `i / 8`.
pub open spec fn bit_of(s: Seq<u8>, i: int) -> u8 {
    (s[i / 8] >> ((7 - i % 8) as u8)) & 1u8
}

/// Byte `b` with bit position `k` (0 = most significant) set to `v`.
pub open spec fn byte_with_bit(b: u8, k: int, v: bool) -> u8 {
    if v {
        b | (1u8 << ((7 - k) as u8))
    } else {
        b & !(1u8 << ((7 - k) as u8))
    }
}

/// Read bit `idx` of `data`.
pub fn get_bit(data: &[u8], idx: usize) -> (r: u8)
    requires
        idx / 8 < data@.len(),
    ensures
        r == bit_of(data@, idx as int),
        r <= 1,
{
    let x = data[idx / 8] >> ((7 - idx % 8) as u8);
    assert(x & 1u8 <= 1) by (bit_vector);
    x & 1u8
}

/// Set bit `idx` of `data` to one if `value` is non-zero, else to zero.
pub fn set_bit(data: &mut [u8], idx: usize, value: u8)
    requires
        idx / 8 < old(data)@.len(),
    ensures
        final(data)@ == old(data)@.update(
            idx as int / 8,
            byte_with_bit(old(data)@[idx as int / 8], idx as int % 8, value != 0),
        ),
{
    let existing = data[idx / 8];
    let k = (7 - idx % 8) as u8;
    if value == 0 {
        data[idx / 8] = existing & !(1u8 << k);
    } else {
        data[idx / 8] = existing | (1u8 << k);
    }
}

/// Setting a bit and reading it back gives the value set; other bits keep
/// their values.
pub proof fn lemma_set_then_get(s: Seq<u8>, idx: int, v: bool, j: int)
    requires
        0 <= idx,
        0 <= j,
        idx / 8 < s.len(),
        j / 8 < s.len(),
    ensures
        bit_of(s.update(idx / 8, byte_with_bit(s[idx / 8], idx % 8, v)), j) == if j == idx {
            if v {
                1u8
            } else {
                0u8
            }
        } else {
            bit_of(s, j)
        },
{
    let t = s.update(idx / 8, byte_with_bit(s[idx / 8], idx % 8, v));
    let b = s[idx / 8];
    let k = (7 - idx % 8) as u8;
    let kj = (7 - j % 8) as u8;
    assert(k < 8 && kj < 8);
    if j / 8 == idx / 8 {
        if j == idx {
            assert(((b | (1u8 << k)) >> k) & 1u8 == 1u8) by (bit_vector)
                requires k < 8;
            assert(((b & !(1u8 << k)) >> k) & 1u8 == 0u8) by (bit_vector)
                requires k < 8;
        } else {
            assert(kj != k);
            assert(((b | (1u8 << k)) >> kj) & 1u8 == (b >> kj) & 1u8) by (bit_vector)
                requires k < 8, kj < 8, kj != k;
            assert(((b & !(1u8 << k)) >> kj) & 1u8 == (b >> kj) & 1u8) by (bit_vector)
                requires k < 8, kj < 8, kj != k;
        }
    }
}

/// A read-only bit view over a byte slice.
pub struct Bits<'a> {
    data: &'a [u8],
}

impl<'a> Bits<'a> {
    pub fn new(data: &'a [u8]) -> (r: Self)
        ensures
            r.view() == data@,
    {
        Bits { data }
    }

    pub closed spec fn view(&self) -> Seq<u8> {
        self.data@
    }

    /// Read bit `idx`.
    pub fn get_bit(&self, idx: usize) -> (r: u8)
        requires
            idx / 8 < self.view().len(),
        ensures
            r == bit_of(self.view(), idx as int),
    {
        get_bit(self.data, idx)
    }

    /// An iterator over all the bits, first to last.
    pub fn iter(&self) -> (r: BitsIterator<'a>)
        ensures
            r.view() == self.view(),
            r.position() == 0,
    {
        BitsIterator { data: self.data, idx: 0 }
    }
}

/// Walks the bits of a byte slice in order.
pub struct BitsIterator<'a> {
    data: &'a [u8],
    idx: usize,
}

impl<'a> BitsIterator<'a> {
    pub closed spec fn view(&self) -> Seq<u8> {
        self.data@
    }

    pub closed spec fn position(&self) -> int {
        self.idx as int
    }

    /// The next bit, or `None` once all have been read.
    pub fn next(&mut self) -> (r: Option<u8>)
        ensures
            final(self).view() == old(self).view(),
            old(self).position() < 8 * old(self).view().len() && old(self).position() < usize::MAX ==> r == Some(
                bit_of(old(self).view(), old(self).position()),
            ) && final(self).position() == old(self).position() + 1,
            old(self).position() >= 8 * old(self).view().len() || old(self).position() == usize::MAX ==> r is None
                && final(self).position() == old(self).position(),
    {
        if self.idx / 8 >= self.data.len() || self.idx == usize::MAX {
            return None;
        }
        let bit = get_bit(self.data, self.idx);
        self.idx = self.idx + 1;
        Some(bit)
    }
}

} // verus!
