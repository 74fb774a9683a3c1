//! UDP datagrams exchanged between stations and reflectors, and between
//! reflectors: fixed layouts behind a four-byte magic, each with its own
//! integrity rule.

use vstd::prelude::*;
use crate::address::{Address, decode_address, encode_address, decoded_address, be48, be48_bytes, address_value};
use crate::crc::{crc16, be16, crc_of_range};
use crate::protocol::{LsfFrame, with_crc};

verus! {

pub const MAGIC_VOICE: [u8; 4] = [77, 49, 55, 32];
pub const MAGIC_VOICE_HEADER: [u8; 4] = [77, 49, 55, 72];
pub const MAGIC_VOICE_DATA: [u8; 4] = [77, 49, 55, 68];
pub const MAGIC_PACKET: [u8; 4] = [77, 49, 55, 80];
pub const MAGIC_ACKNOWLEDGE: [u8; 4] = [65, 67, 75, 78];
pub const MAGIC_CONNECT: [u8; 4] = [67, 79, 78, 78];
pub const MAGIC_DISCONNECT: [u8; 4] = [68, 73, 83, 67];
pub const MAGIC_LISTEN: [u8; 4] = [76, 83, 84, 78];
pub const MAGIC_NACK: [u8; 4] = [78, 65, 67, 75];
pub const MAGIC_PING: [u8; 4] = [80, 73, 78, 71];
pub const MAGIC_PONG: [u8; 4] = [80, 79, 78, 71];

/// A big-endian `u16` at `at`.
pub open spec fn u16_at(b: Seq<u8>, at: int) -> u16 {
    ((b[at] as u16) << 8u16) | (b[at + 1] as u16)
}

/// `b` with the big-endian `v` written at `at`.
pub open spec fn with_u16(b: Seq<u8>, at: int, v: u16) -> Seq<u8> {
    b.update(at, (v >> 8u16) as u8).update(at + 1, v as u8)
}

/// `b` with `src` written from `at` on.
pub open spec fn with_bytes(b: Seq<u8>, at: int, src: Seq<u8>) -> Seq<u8> {
    Seq::new(b.len(), |i: int| if at <= i < at + src.len() { src[i - at] } else { b[i] })
}

/// `b` with the CRC of `b[0..end - 2]` written into `b[end - 2..end]`.
pub open spec fn with_crc_at(b: Seq<u8>, end: int) -> Seq<u8> {
    with_bytes(b, end - 2, be16(crc16(b.subrange(0, end - 2))))
}

/// A datagram padded with zeros to `n` bytes.
pub open spec fn padded(b: Seq<u8>, n: int) -> Seq<u8> {
    b + Seq::new((n - b.len()) as nat, |i: int| 0u8)
}

/// A message of this layout starts with the given magic.
pub open spec fn has_magic(b: Seq<u8>, magic: [u8; 4]) -> bool {
    b.len() >= 4 && b.subrange(0, 4) == magic@
}

/// The packet payload of a packet datagram of length `len`.
pub open spec fn packet_payload(b: Seq<u8>, len: int) -> Seq<u8> {
    b.subrange(34, len)
}

/// A packet datagram of length `len` is intact: its LSF and its payload
/// both check out.
pub open spec fn packet_parts_intact(b: Seq<u8>, len: int) -> bool {
    crc16(b.subrange(4, 34)) == 0 && len - 34 >= 4 && crc16(b.subrange(34, len)) == 0
}

pub(crate) fn u16_from(b: &[u8], at: usize) -> (r: u16)
    requires
        at + 2 <= b@.len(),
    ensures
        r == u16_at(b@, at as int),
{
    ((b[at] as u16) << 8u16) | (b[at + 1] as u16)
}

pub(crate) fn write_u16(b: &mut [u8], at: usize, v: u16)
    requires
        at + 2 <= old(b)@.len(),
    ensures
        final(b)@ == with_u16(old(b)@, at as int, v),
{
    b[at] = (v >> 8u16) as u8;
    b[at + 1] = v as u8;
}

pub(crate) fn write_bytes(b: &mut [u8], at: usize, src: &[u8])
    requires
        at + src@.len() <= old(b)@.len() <= usize::MAX,
    ensures
        final(b)@ == with_bytes(old(b)@, at as int, src@),
{
    let mut k: usize = 0;
    while k < src.len()
        invariant
            0 <= k <= src@.len(),
            at + src@.len() <= b@.len() <= usize::MAX,
            b@.len() == old(b)@.len(),
            forall|i: int| 0 <= i < b@.len() ==> b@[i] == if at <= i < at + k { src@[i - at] } else { old(b)@[i] },
        decreases src@.len() - k,
    {
        b[at + k] = src[k];
        k = k + 1;
    }
    assert(b@ =~= with_bytes(old(b)@, at as int, src@));
}

pub(crate) fn write_crc_at(b: &mut [u8], end: usize)
    requires
        2 <= end <= old(b)@.len(),
    ensures
        final(b)@ == with_crc_at(old(b)@, end as int),
        crc16(final(b)@.subrange(0, end as int)) == 0,
{
    let c = crc_of_range(b, 0, end - 2);
    let ghost pre = b@.subrange(0, end - 2);
    b[end - 2] = (c >> 8u16) as u8;
    b[end - 1] = c as u8;
    assert(b@ =~= with_crc_at(old(b)@, end as int));
    proof {
        crate::crc::lemma_crc_residue(pre);
        assert(b@.subrange(0, end as int) =~= pre + be16(crc16(pre)));
    }
}

fn magic_is(b: &[u8], magic: &[u8; 4]) -> (r: bool)
    requires
        b@.len() >= 4,
    ensures
        r == (b@.subrange(0, 4) == magic@),
{
    let r = b[0] == magic[0] && b[1] == magic[1] && b[2] == magic[2] && b[3] == magic[3];
    if r {
        assert(b@.subrange(0, 4) =~= magic@);
    } else {
        assert(b@.subrange(0, 4) != magic@) by {
            if b@.subrange(0, 4) == magic@ {
                assert(b@.subrange(0, 4)[0] == b@[0]);
                assert(b@.subrange(0, 4)[1] == b@[1]);
                assert(b@.subrange(0, 4)[2] == b@[2]);
                assert(b@.subrange(0, 4)[3] == b@[3]);
            }
        }
    }
    r
}

fn address_from(b: &[u8], at: usize) -> (r: Address)
    requires
        at + 6 <= b@.len(),
    ensures
        decoded_address(be48(b@.subrange(at as int, at + 6)), r),
{
    let a = [b[at], b[at + 1], b[at + 2], b[at + 3], b[at + 4], b[at + 5]];
    assert(a@ =~= b@.subrange(at as int, at + 6));
    decode_address(a)
}

fn link_setup_from(b: &[u8], at: usize) -> (r: LsfFrame)
    requires
        at + 28 <= b@.len() <= usize::MAX,
    ensures
        r.0@ == with_crc(b@.subrange(at as int, at + 28)),
{
    let _len = b.len();
    let mut frame = LsfFrame([0u8; 30]);
    let mut k: usize = 0;
    while k < 28
        invariant
            0 <= k <= 28,
            at + 28 <= b@.len() <= usize::MAX,
            forall|i: int| 0 <= i < k ==> frame.0@[i] == b@[at + i],
        decreases 28 - k,
    {
        frame.0[k] = b[at + k];
        k = k + 1;
    }
    assert(frame.0@.subrange(0, 28) =~= b@.subrange(at as int, at + 28));
    assert(b@.subrange(at as int, at + 28).subrange(0, 28) =~= b@.subrange(at as int, at + 28));
    frame.recalculate_crc();
    frame
}

fn link_setup_frame_from(b: &[u8], at: usize) -> (r: LsfFrame)
    requires
        at + 30 <= b@.len() <= usize::MAX,
    ensures
        r.0@ == b@.subrange(at as int, at + 30),
{
    let _len = b.len();
    let mut frame = LsfFrame([0u8; 30]);
    let mut k: usize = 0;
    while k < 30
        invariant
            0 <= k <= 30,
            at + 30 <= b@.len() <= usize::MAX,
            forall|i: int| 0 <= i < k ==> frame.0@[i] == b@[at + i],
        decreases 30 - k,
    {
        frame.0[k] = b[at + k];
        k = k + 1;
    }
    assert(frame.0@ =~= b@.subrange(at as int, at + 30));
    frame
}

/// Walks a null-terminated list of module letters.
pub struct ModulesIterator<'a> {
    modules: &'a [u8],
    idx: usize,
}

impl<'a> ModulesIterator<'a> {
    fn new(modules: &'a [u8]) -> (r: Self)
        ensures
            r.view() == modules@,
            r.position() == 0,
    {
        Self { modules, idx: 0 }
    }

    pub closed spec fn view(&self) -> Seq<u8> {
        self.modules@
    }

    pub closed spec fn position(&self) -> int {
        self.idx as int
    }

    /// The next module letter, or `None` at the terminating zero or the end.
    pub fn next(&mut self) -> (r: Option<char>)
        ensures
            final(self).view() == old(self).view(),
            (old(self).position() < old(self).view().len() && old(self).view()[old(self).position()] != 0)
                ==> r == Some(old(self).view()[old(self).position()] as char)
                && final(self).position() == old(self).position() + 1,
            !(old(self).position() < old(self).view().len() && old(self).view()[old(self).position()] != 0)
                ==> r is None && final(self).position() == old(self).position(),
    {
        if self.idx < self.modules.len() {
            if self.modules[self.idx] == 0 {
                return None;
            }
            self.idx = self.idx + 1;
            return Some(self.modules[self.idx - 1] as char);
        }
        None
    }
}

/// Whether bytes `b`, of which the first `len` are the datagram, form an
/// intact `Voice`.
pub open spec fn voice_intact(b: Seq<u8>, len: int) -> bool {
    crc16(b) == 0
}

/// Whether a datagram parses as `Voice`.
pub open spec fn voice_parses(b: Seq<u8>) -> bool {
    54 <= b.len() <= 54 && voice_intact(padded(b, 54), b.len() as int)
}

pub struct Voice(pub [u8; 54], pub usize);

impl Voice {
    /// A message holding only its magic.
    pub fn new() -> (r: Self)
        ensures
            r.1 == 54,
            has_magic(r.0@, MAGIC_VOICE),
    {
        let mut bytes = [0u8; 54];
        bytes[0] = MAGIC_VOICE[0];
        bytes[1] = MAGIC_VOICE[1];
        bytes[2] = MAGIC_VOICE[2];
        bytes[3] = MAGIC_VOICE[3];
        assert(bytes@.subrange(0, 4) =~= MAGIC_VOICE@);
        Self(bytes, 54)
    }

    /// Parse a datagram; `None` unless its length and integrity are right.
    pub fn from_bytes(b: &[u8]) -> (r: Option<Self>)
        ensures
            r is Some <==> voice_parses(b@),
            r is Some ==> r->Some_0.1 == b@.len() && r->Some_0.0@ == padded(b@, 54),
    {
        let len = b.len();
        if len != 54 {
            return None;
        }
        let mut s = Self([0u8; 54], len);
        write_bytes(&mut s.0, 0, b);
        assert(s.0@ =~= padded(b@, 54));
        if !s.verify_integrity() {
            return None;
        }
        Some(s)
    }

    /// The datagram's bytes.
    pub fn as_bytes(&self) -> (r: &[u8])
        requires
            self.1 <= 54,
        ensures
            r@ == self.0@.subrange(0, self.1 as int),
    {
        &self.0[0..self.1]
    }

    /// The trailing CRC covers the whole datagram.
    pub fn verify_integrity(&self) -> (r: bool)
        ensures
            r == voice_intact(self.0@, self.1 as int),
    {
        let r = crc_of_range(&self.0, 0, 54) == 0;
        assert(self.0@.subrange(0, 54) =~= self.0@);
        r
    }

    /// Rewrite the trailing CRC to match the rest of the datagram.
    pub fn recalculate_crc(&mut self)
        ensures
            final(self).0@ == with_crc_at(old(self).0@, 54),
            final(self).1 == old(self).1,
            voice_intact(final(self).0@, final(self).1 as int),
    {
        write_crc_at(&mut self.0, 54);
        assert(self.0@.subrange(0, 54) =~= self.0@);
    }

    pub fn stream_id(&self) -> (r: u16)
        ensures
            r == u16_at(self.0@, 4),
    {
        u16_from(&self.0, 4)
    }

    pub fn set_stream_id(&mut self, id: u16)
        ensures
            final(self).0@ == with_crc_at(with_u16(old(self).0@, 4, id), 54),
            final(self).1 == old(self).1,
    {
        write_u16(&mut self.0, 4, id);
        self.recalculate_crc();
    }

    /// The LSF: the 28 bytes carried here followed by a fresh CRC.
    pub fn link_setup_frame(&self) -> (r: LsfFrame)
        ensures
            r.0@ == with_crc(self.0@.subrange(6, 34)),
    {
        link_setup_from(&self.0, 6)
    }

    /// Carry the first 28 bytes of `lsf`.
    pub fn set_link_setup_frame(&mut self, lsf: &LsfFrame)
        ensures
            final(self).0@ == with_crc_at(with_bytes(old(self).0@, 6, lsf.0@.subrange(0, 28)), 54),
            final(self).1 == old(self).1,
    {
        write_bytes(&mut self.0, 6, &lsf.0[0..28]);
        self.recalculate_crc();
    }

    pub fn frame_number(&self) -> (r: u16)
        ensures
            r == u16_at(self.0@, 34) & 0x7fffu16,
    {
        u16_from(&self.0, 34) & 0x7fffu16
    }

    pub fn is_end_of_stream(&self) -> (r: bool)
        ensures
            r == (u16_at(self.0@, 34) & 0x8000u16 != 0),
    {
        u16_from(&self.0, 34) & 0x8000u16 != 0
    }

    /// Set the frame number to the low 15 bits of `number`; the end of stream
    /// flag is kept.
    pub fn set_frame_number(&mut self, number: u16)
        ensures
            final(self).0@ == with_crc_at(with_u16(old(self).0@, 34, ((u16_at(old(self).0@, 34) & 0x8000u16) | (number & 0x7fffu16)) as u16), 54),
            final(self).1 == old(self).1,
    {
        let existing_eos = u16_from(&self.0, 34) & 0x8000u16;
        write_u16(&mut self.0, 34, existing_eos | (number & 0x7fffu16));
        self.recalculate_crc();
    }

    /// Set the end of stream flag; the frame number is kept.
    pub fn set_end_of_stream(&mut self, eos: bool)
        ensures
            final(self).0@ == with_crc_at(with_u16(old(self).0@, 34, ((u16_at(old(self).0@, 34) & 0x7fffu16) | if eos { 0x8000u16 } else { 0u16 }) as u16), 54),
            final(self).1 == old(self).1,
    {
        let existing_fn = u16_from(&self.0, 34) & 0x7fffu16;
        write_u16(&mut self.0, 34, existing_fn | if eos { 0x8000u16 } else { 0u16 });
        self.recalculate_crc();
    }

    pub fn payload(&self) -> (r: &[u8])
        ensures
            r@ == self.0@.subrange(36, 52),
    {
        &self.0[36..52]
    }

    pub fn set_payload(&mut self, bytes: &[u8])
        requires
            bytes@.len() == 16,
        ensures
            final(self).0@ == with_crc_at(with_bytes(old(self).0@, 36, bytes@), 54),
            final(self).1 == old(self).1,
    {
        write_bytes(&mut self.0, 36, bytes);
        self.recalculate_crc();
    }

}

/// Whether bytes `b`, of which the first `len` are the datagram, form an
/// intact `VoiceHeader`.
pub open spec fn voice_header_intact(b: Seq<u8>, len: int) -> bool {
    crc16(b) == 0
}

/// Whether a datagram parses as `VoiceHeader`.
pub open spec fn voice_header_parses(b: Seq<u8>) -> bool {
    36 <= b.len() <= 36 && voice_header_intact(padded(b, 36), b.len() as int)
}

pub struct VoiceHeader(pub [u8; 36], pub usize);

impl VoiceHeader {
    /// A message holding only its magic.
    pub fn new() -> (r: Self)
        ensures
            r.1 == 36,
            has_magic(r.0@, MAGIC_VOICE_HEADER),
    {
        let mut bytes = [0u8; 36];
        bytes[0] = MAGIC_VOICE_HEADER[0];
        bytes[1] = MAGIC_VOICE_HEADER[1];
        bytes[2] = MAGIC_VOICE_HEADER[2];
        bytes[3] = MAGIC_VOICE_HEADER[3];
        assert(bytes@.subrange(0, 4) =~= MAGIC_VOICE_HEADER@);
        Self(bytes, 36)
    }

    /// Parse a datagram; `None` unless its length and integrity are right.
    pub fn from_bytes(b: &[u8]) -> (r: Option<Self>)
        ensures
            r is Some <==> voice_header_parses(b@),
            r is Some ==> r->Some_0.1 == b@.len() && r->Some_0.0@ == padded(b@, 36),
    {
        let len = b.len();
        if len != 36 {
            return None;
        }
        let mut s = Self([0u8; 36], len);
        write_bytes(&mut s.0, 0, b);
        assert(s.0@ =~= padded(b@, 36));
        if !s.verify_integrity() {
            return None;
        }
        Some(s)
    }

    /// The datagram's bytes.
    pub fn as_bytes(&self) -> (r: &[u8])
        requires
            self.1 <= 36,
        ensures
            r@ == self.0@.subrange(0, self.1 as int),
    {
        &self.0[0..self.1]
    }

    /// The trailing CRC covers the whole datagram.
    pub fn verify_integrity(&self) -> (r: bool)
        ensures
            r == voice_header_intact(self.0@, self.1 as int),
    {
        let r = crc_of_range(&self.0, 0, 36) == 0;
        assert(self.0@.subrange(0, 36) =~= self.0@);
        r
    }

    /// Rewrite the trailing CRC to match the rest of the datagram.
    pub fn recalculate_crc(&mut self)
        ensures
            final(self).0@ == with_crc_at(old(self).0@, 36),
            final(self).1 == old(self).1,
            voice_header_intact(final(self).0@, final(self).1 as int),
    {
        write_crc_at(&mut self.0, 36);
        assert(self.0@.subrange(0, 36) =~= self.0@);
    }

    pub fn stream_id(&self) -> (r: u16)
        ensures
            r == u16_at(self.0@, 4),
    {
        u16_from(&self.0, 4)
    }

    pub fn set_stream_id(&mut self, id: u16)
        ensures
            final(self).0@ == with_crc_at(with_u16(old(self).0@, 4, id), 36),
            final(self).1 == old(self).1,
    {
        write_u16(&mut self.0, 4, id);
        self.recalculate_crc();
    }

    /// The LSF: the 28 bytes carried here followed by a fresh CRC.
    pub fn link_setup_frame(&self) -> (r: LsfFrame)
        ensures
            r.0@ == with_crc(self.0@.subrange(6, 34)),
    {
        link_setup_from(&self.0, 6)
    }

    /// Carry the first 28 bytes of `lsf`.
    pub fn set_link_setup_frame(&mut self, lsf: &LsfFrame)
        ensures
            final(self).0@ == with_crc_at(with_bytes(old(self).0@, 6, lsf.0@.subrange(0, 28)), 36),
            final(self).1 == old(self).1,
    {
        write_bytes(&mut self.0, 6, &lsf.0[0..28]);
        self.recalculate_crc();
    }

}

/// Whether bytes `b`, of which the first `len` are the datagram, form an
/// intact `VoiceData`.
pub open spec fn voice_data_intact(b: Seq<u8>, len: int) -> bool {
    crc16(b) == 0
}

/// Whether a datagram parses as `VoiceData`.
pub open spec fn voice_data_parses(b: Seq<u8>) -> bool {
    26 <= b.len() <= 26 && voice_data_intact(padded(b, 26), b.len() as int)
}

pub struct VoiceData(pub [u8; 26], pub usize);

impl VoiceData {
    /// A message holding only its magic.
    pub fn new() -> (r: Self)
        ensures
            r.1 == 26,
            has_magic(r.0@, MAGIC_VOICE_DATA),
    {
        let mut bytes = [0u8; 26];
        bytes[0] = MAGIC_VOICE_DATA[0];
        bytes[1] = MAGIC_VOICE_DATA[1];
        bytes[2] = MAGIC_VOICE_DATA[2];
        bytes[3] = MAGIC_VOICE_DATA[3];
        assert(bytes@.subrange(0, 4) =~= MAGIC_VOICE_DATA@);
        Self(bytes, 26)
    }

    /// Parse a datagram; `None` unless its length and integrity are right.
    pub fn from_bytes(b: &[u8]) -> (r: Option<Self>)
        ensures
            r is Some <==> voice_data_parses(b@),
            r is Some ==> r->Some_0.1 == b@.len() && r->Some_0.0@ == padded(b@, 26),
    {
        let len = b.len();
        if len != 26 {
            return None;
        }
        let mut s = Self([0u8; 26], len);
        write_bytes(&mut s.0, 0, b);
        assert(s.0@ =~= padded(b@, 26));
        if !s.verify_integrity() {
            return None;
        }
        Some(s)
    }

    /// The datagram's bytes.
    pub fn as_bytes(&self) -> (r: &[u8])
        requires
            self.1 <= 26,
        ensures
            r@ == self.0@.subrange(0, self.1 as int),
    {
        &self.0[0..self.1]
    }

    /// The trailing CRC covers the whole datagram.
    pub fn verify_integrity(&self) -> (r: bool)
        ensures
            r == voice_data_intact(self.0@, self.1 as int),
    {
        let r = crc_of_range(&self.0, 0, 26) == 0;
        assert(self.0@.subrange(0, 26) =~= self.0@);
        r
    }

    /// Rewrite the trailing CRC to match the rest of the datagram.
    pub fn recalculate_crc(&mut self)
        ensures
            final(self).0@ == with_crc_at(old(self).0@, 26),
            final(self).1 == old(self).1,
            voice_data_intact(final(self).0@, final(self).1 as int),
    {
        write_crc_at(&mut self.0, 26);
        assert(self.0@.subrange(0, 26) =~= self.0@);
    }

    pub fn stream_id(&self) -> (r: u16)
        ensures
            r == u16_at(self.0@, 4),
    {
        u16_from(&self.0, 4)
    }

    pub fn set_stream_id(&mut self, id: u16)
        ensures
            final(self).0@ == with_crc_at(with_u16(old(self).0@, 4, id), 26),
            final(self).1 == old(self).1,
    {
        write_u16(&mut self.0, 4, id);
        self.recalculate_crc();
    }

    pub fn frame_number(&self) -> (r: u16)
        ensures
            r == u16_at(self.0@, 6) & 0x7fffu16,
    {
        u16_from(&self.0, 6) & 0x7fffu16
    }

    pub fn is_end_of_stream(&self) -> (r: bool)
        ensures
            r == (u16_at(self.0@, 6) & 0x8000u16 != 0),
    {
        u16_from(&self.0, 6) & 0x8000u16 != 0
    }

    /// Set the frame number to the low 15 bits of `number`; the end of stream
    /// flag is kept.
    pub fn set_frame_number(&mut self, number: u16)
        ensures
            final(self).0@ == with_crc_at(with_u16(old(self).0@, 6, ((u16_at(old(self).0@, 6) & 0x8000u16) | (number & 0x7fffu16)) as u16), 26),
            final(self).1 == old(self).1,
    {
        let existing_eos = u16_from(&self.0, 6) & 0x8000u16;
        write_u16(&mut self.0, 6, existing_eos | (number & 0x7fffu16));
        self.recalculate_crc();
    }

    /// Set the end of stream flag; the frame number is kept.
    pub fn set_end_of_stream(&mut self, eos: bool)
        ensures
            final(self).0@ == with_crc_at(with_u16(old(self).0@, 6, ((u16_at(old(self).0@, 6) & 0x7fffu16) | if eos { 0x8000u16 } else { 0u16 }) as u16), 26),
            final(self).1 == old(self).1,
    {
        let existing_fn = u16_from(&self.0, 6) & 0x7fffu16;
        write_u16(&mut self.0, 6, existing_fn | if eos { 0x8000u16 } else { 0u16 });
        self.recalculate_crc();
    }

    pub fn payload(&self) -> (r: &[u8])
        ensures
            r@ == self.0@.subrange(8, 24),
    {
        &self.0[8..24]
    }

    pub fn set_payload(&mut self, bytes: &[u8])
        requires
            bytes@.len() == 16,
        ensures
            final(self).0@ == with_crc_at(with_bytes(old(self).0@, 8, bytes@), 26),
            final(self).1 == old(self).1,
    {
        write_bytes(&mut self.0, 8, bytes);
        self.recalculate_crc();
    }

}

/// Whether bytes `b`, of which the first `len` are the datagram, form an
/// intact `Packet`.
pub open spec fn packet_intact(b: Seq<u8>, len: int) -> bool {
    packet_parts_intact(b, len)
}

/// Whether a datagram parses as `Packet`.
pub open spec fn packet_parses(b: Seq<u8>) -> bool {
    38 <= b.len() <= 859 && packet_intact(padded(b, 859), b.len() as int)
}

pub struct Packet(pub [u8; 859], pub usize);

impl Packet {
    /// A message holding only its magic.
    pub fn new() -> (r: Self)
        ensures
            r.1 == 859,
            has_magic(r.0@, MAGIC_PACKET),
    {
        let mut bytes = [0u8; 859];
        bytes[0] = MAGIC_PACKET[0];
        bytes[1] = MAGIC_PACKET[1];
        bytes[2] = MAGIC_PACKET[2];
        bytes[3] = MAGIC_PACKET[3];
        assert(bytes@.subrange(0, 4) =~= MAGIC_PACKET@);
        Self(bytes, 859)
    }

    /// Parse a datagram; `None` unless its length and integrity are right.
    pub fn from_bytes(b: &[u8]) -> (r: Option<Self>)
        ensures
            r is Some <==> packet_parses(b@),
            r is Some ==> r->Some_0.1 == b@.len() && r->Some_0.0@ == padded(b@, 859),
    {
        let len = b.len();
        if len > 859 || len < 38 {
            return None;
        }
        let mut s = Self([0u8; 859], len);
        write_bytes(&mut s.0, 0, b);
        assert(s.0@ =~= padded(b@, 859));
        if !s.verify_integrity() {
            return None;
        }
        Some(s)
    }

    /// The datagram's bytes.
    pub fn as_bytes(&self) -> (r: &[u8])
        requires
            self.1 <= 859,
        ensures
            r@ == self.0@.subrange(0, self.1 as int),
    {
        &self.0[0..self.1]
    }

    /// The packet payload: type prefix, data and CRC.
    pub fn payload(&self) -> (r: &[u8])
        requires
            34 <= self.1 <= 859,
        ensures
            r@ == packet_payload(self.0@, self.1 as int),
    {
        &self.0[34..self.1]
    }

    /// Replace the payload, which must fit after the LSF.
    pub fn set_payload(&mut self, bytes: &[u8])
        requires
            34 + bytes@.len() <= 859,
        ensures
            final(self).1 == 34 + bytes@.len() + 0,
            final(self).0@.subrange(34, 34 + bytes@.len() as int) == bytes@,
            final(self).0@.subrange(0, 34) == old(self).0@.subrange(0, 34),
    {
        write_bytes(&mut self.0, 34, bytes);
        self.1 = 34 + bytes.len();
        assert(self.0@.subrange(34, 34 + bytes@.len() as int) =~= bytes@);
        assert(self.0@.subrange(0, 34) =~= old(self).0@.subrange(0, 34));
    }

    /// The LSF checks out, and the payload has at least four bytes and checks out.
    pub fn verify_integrity(&self) -> (r: bool)
        ensures
            (38 <= self.1 <= 859) ==> r == packet_intact(self.0@, self.1 as int),
            !(38 <= self.1 <= 859) ==> !r,
    {
        if self.1 < 38 || self.1 > 859 {
            return false;
        }
        let end = self.1;
        crc_of_range(&self.0, 4, 34) == 0 && end - 34 >= 4 && crc_of_range(&self.0, 34, end) == 0
    }

    /// The LSF and payload carry their own CRCs, checked on construction:
    /// nothing to do.
    pub fn recalculate_crc(&mut self)
        ensures
            final(self).0@ == old(self).0@,
            final(self).1 == old(self).1,
    {
    }

    /// The full 30-byte LSF carried here.
    pub fn link_setup_frame(&self) -> (r: LsfFrame)
        ensures
            r.0@ == self.0@.subrange(4, 34),
    {
        link_setup_frame_from(&self.0, 4)
    }

    /// Carry `lsf`, which should have a valid CRC.
    pub fn set_link_setup_frame(&mut self, lsf: &LsfFrame)
        ensures
            final(self).0@ == with_bytes(old(self).0@, 4, lsf.0@),
            final(self).1 == old(self).1,
    {
        write_bytes(&mut self.0, 4, &lsf.0);
        self.recalculate_crc();
    }

}

/// Whether bytes `b`, of which the first `len` are the datagram, form an
/// intact `Pong`.
pub open spec fn pong_intact(b: Seq<u8>, len: int) -> bool {
    true
}

/// Whether a datagram parses as `Pong`.
pub open spec fn pong_parses(b: Seq<u8>) -> bool {
    10 <= b.len() <= 10 && pong_intact(padded(b, 10), b.len() as int)
}

pub struct Pong(pub [u8; 10], pub usize);

impl Pong {
    /// A message holding only its magic.
    pub fn new() -> (r: Self)
        ensures
            r.1 == 10,
            has_magic(r.0@, MAGIC_PONG),
    {
        let mut bytes = [0u8; 10];
        bytes[0] = MAGIC_PONG[0];
        bytes[1] = MAGIC_PONG[1];
        bytes[2] = MAGIC_PONG[2];
        bytes[3] = MAGIC_PONG[3];
        assert(bytes@.subrange(0, 4) =~= MAGIC_PONG@);
        Self(bytes, 10)
    }

    /// Parse a datagram; `None` unless its length and integrity are right.
    pub fn from_bytes(b: &[u8]) -> (r: Option<Self>)
        ensures
            r is Some <==> pong_parses(b@),
            r is Some ==> r->Some_0.1 == b@.len() && r->Some_0.0@ == padded(b@, 10),
    {
        let len = b.len();
        if len != 10 {
            return None;
        }
        let mut s = Self([0u8; 10], len);
        write_bytes(&mut s.0, 0, b);
        assert(s.0@ =~= padded(b@, 10));
        if !s.verify_integrity() {
            return None;
        }
        Some(s)
    }

    /// The datagram's bytes.
    pub fn as_bytes(&self) -> (r: &[u8])
        requires
            self.1 <= 10,
        ensures
            r@ == self.0@.subrange(0, self.1 as int),
    {
        &self.0[0..self.1]
    }

    /// This message carries no CRC.
    pub fn verify_integrity(&self) -> (r: bool)
        ensures
            r,
    {
        true
    }

    /// This message carries no CRC: nothing to do.
    pub fn recalculate_crc(&mut self)
        ensures
            final(self).0@ == old(self).0@,
            final(self).1 == old(self).1,
    {
    }

    pub fn address(&self) -> (r: Address)
        ensures
            decoded_address(be48(self.0@.subrange(4, 10)), r),
    {
        address_from(&self.0, 4)
    }

    pub fn set_address(&mut self, address: Address)
        ensures
            final(self).0@ == with_bytes(old(self).0@, 4, be48_bytes(address_value(address))),
            final(self).1 == old(self).1,
    {
        let encoded = encode_address(&address);
        write_bytes(&mut self.0, 4, &encoded);
        self.recalculate_crc();
    }

}

/// Whether bytes `b`, of which the first `len` are the datagram, form an
/// intact `Connect`.
pub open spec fn connect_intact(b: Seq<u8>, len: int) -> bool {
    true
}

/// Whether a datagram parses as `Connect`.
pub open spec fn connect_parses(b: Seq<u8>) -> bool {
    11 <= b.len() <= 11 && connect_intact(padded(b, 11), b.len() as int)
}

pub struct Connect(pub [u8; 11], pub usize);

impl Connect {
    /// A message holding only its magic.
    pub fn new() -> (r: Self)
        ensures
            r.1 == 11,
            has_magic(r.0@, MAGIC_CONNECT),
    {
        let mut bytes = [0u8; 11];
        bytes[0] = MAGIC_CONNECT[0];
        bytes[1] = MAGIC_CONNECT[1];
        bytes[2] = MAGIC_CONNECT[2];
        bytes[3] = MAGIC_CONNECT[3];
        assert(bytes@.subrange(0, 4) =~= MAGIC_CONNECT@);
        Self(bytes, 11)
    }

    /// Parse a datagram; `None` unless its length and integrity are right.
    pub fn from_bytes(b: &[u8]) -> (r: Option<Self>)
        ensures
            r is Some <==> connect_parses(b@),
            r is Some ==> r->Some_0.1 == b@.len() && r->Some_0.0@ == padded(b@, 11),
    {
        let len = b.len();
        if len != 11 {
            return None;
        }
        let mut s = Self([0u8; 11], len);
        write_bytes(&mut s.0, 0, b);
        assert(s.0@ =~= padded(b@, 11));
        if !s.verify_integrity() {
            return None;
        }
        Some(s)
    }

    /// The datagram's bytes.
    pub fn as_bytes(&self) -> (r: &[u8])
        requires
            self.1 <= 11,
        ensures
            r@ == self.0@.subrange(0, self.1 as int),
    {
        &self.0[0..self.1]
    }

    /// This message carries no CRC.
    pub fn verify_integrity(&self) -> (r: bool)
        ensures
            r,
    {
        true
    }

    /// This message carries no CRC: nothing to do.
    pub fn recalculate_crc(&mut self)
        ensures
            final(self).0@ == old(self).0@,
            final(self).1 == old(self).1,
    {
    }

    pub fn address(&self) -> (r: Address)
        ensures
            decoded_address(be48(self.0@.subrange(4, 10)), r),
    {
        address_from(&self.0, 4)
    }

    pub fn set_address(&mut self, address: Address)
        ensures
            final(self).0@ == with_bytes(old(self).0@, 4, be48_bytes(address_value(address))),
            final(self).1 == old(self).1,
    {
        let encoded = encode_address(&address);
        write_bytes(&mut self.0, 4, &encoded);
        self.recalculate_crc();
    }

    /// The module letter.
    pub fn module(&self) -> (r: char)
        ensures
            r == self.0@[10] as char,
    {
        self.0[10] as char
    }

    pub fn set_module(&mut self, m: char)
        ensures
            final(self).0@ == old(self).0@.update(10, m as u8),
            final(self).1 == old(self).1,
    {
        self.0[10] = m as u8;
        self.recalculate_crc();
    }

}

/// Whether bytes `b`, of which the first `len` are the datagram, form an
/// intact `Listen`.
pub open spec fn listen_intact(b: Seq<u8>, len: int) -> bool {
    true
}

/// Whether a datagram parses as `Listen`.
pub open spec fn listen_parses(b: Seq<u8>) -> bool {
    11 <= b.len() <= 11 && listen_intact(padded(b, 11), b.len() as int)
}

pub struct Listen(pub [u8; 11], pub usize);

impl Listen {
    /// A message holding only its magic.
    pub fn new() -> (r: Self)
        ensures
            r.1 == 11,
            has_magic(r.0@, MAGIC_LISTEN),
    {
        let mut bytes = [0u8; 11];
        bytes[0] = MAGIC_LISTEN[0];
        bytes[1] = MAGIC_LISTEN[1];
        bytes[2] = MAGIC_LISTEN[2];
        bytes[3] = MAGIC_LISTEN[3];
        assert(bytes@.subrange(0, 4) =~= MAGIC_LISTEN@);
        Self(bytes, 11)
    }

    /// Parse a datagram; `None` unless its length and integrity are right.
    pub fn from_bytes(b: &[u8]) -> (r: Option<Self>)
        ensures
            r is Some <==> listen_parses(b@),
            r is Some ==> r->Some_0.1 == b@.len() && r->Some_0.0@ == padded(b@, 11),
    {
        let len = b.len();
        if len != 11 {
            return None;
        }
        let mut s = Self([0u8; 11], len);
        write_bytes(&mut s.0, 0, b);
        assert(s.0@ =~= padded(b@, 11));
        if !s.verify_integrity() {
            return None;
        }
        Some(s)
    }

    /// The datagram's bytes.
    pub fn as_bytes(&self) -> (r: &[u8])
        requires
            self.1 <= 11,
        ensures
            r@ == self.0@.subrange(0, self.1 as int),
    {
        &self.0[0..self.1]
    }

    /// This message carries no CRC.
    pub fn verify_integrity(&self) -> (r: bool)
        ensures
            r,
    {
        true
    }

    /// This message carries no CRC: nothing to do.
    pub fn recalculate_crc(&mut self)
        ensures
            final(self).0@ == old(self).0@,
            final(self).1 == old(self).1,
    {
    }

    pub fn address(&self) -> (r: Address)
        ensures
            decoded_address(be48(self.0@.subrange(4, 10)), r),
    {
        address_from(&self.0, 4)
    }

    pub fn set_address(&mut self, address: Address)
        ensures
            final(self).0@ == with_bytes(old(self).0@, 4, be48_bytes(address_value(address))),
            final(self).1 == old(self).1,
    {
        let encoded = encode_address(&address);
        write_bytes(&mut self.0, 4, &encoded);
        self.recalculate_crc();
    }

    /// The module letter.
    pub fn module(&self) -> (r: char)
        ensures
            r == self.0@[10] as char,
    {
        self.0[10] as char
    }

    pub fn set_module(&mut self, m: char)
        ensures
            final(self).0@ == old(self).0@.update(10, m as u8),
            final(self).1 == old(self).1,
    {
        self.0[10] = m as u8;
        self.recalculate_crc();
    }

}

/// Whether bytes `b`, of which the first `len` are the datagram, form an
/// intact `Disconnect`.
pub open spec fn disconnect_intact(b: Seq<u8>, len: int) -> bool {
    true
}

/// Whether a datagram parses as `Disconnect`.
pub open spec fn disconnect_parses(b: Seq<u8>) -> bool {
    10 <= b.len() <= 10 && disconnect_intact(padded(b, 10), b.len() as int)
}

pub struct Disconnect(pub [u8; 10], pub usize);

impl Disconnect {
    /// A message holding only its magic.
    pub fn new() -> (r: Self)
        ensures
            r.1 == 10,
            has_magic(r.0@, MAGIC_DISCONNECT),
    {
        let mut bytes = [0u8; 10];
        bytes[0] = MAGIC_DISCONNECT[0];
        bytes[1] = MAGIC_DISCONNECT[1];
        bytes[2] = MAGIC_DISCONNECT[2];
        bytes[3] = MAGIC_DISCONNECT[3];
        assert(bytes@.subrange(0, 4) =~= MAGIC_DISCONNECT@);
        Self(bytes, 10)
    }

    /// Parse a datagram; `None` unless its length and integrity are right.
    pub fn from_bytes(b: &[u8]) -> (r: Option<Self>)
        ensures
            r is Some <==> disconnect_parses(b@),
            r is Some ==> r->Some_0.1 == b@.len() && r->Some_0.0@ == padded(b@, 10),
    {
        let len = b.len();
        if len != 10 {
            return None;
        }
        let mut s = Self([0u8; 10], len);
        write_bytes(&mut s.0, 0, b);
        assert(s.0@ =~= padded(b@, 10));
        if !s.verify_integrity() {
            return None;
        }
        Some(s)
    }

    /// The datagram's bytes.
    pub fn as_bytes(&self) -> (r: &[u8])
        requires
            self.1 <= 10,
        ensures
            r@ == self.0@.subrange(0, self.1 as int),
    {
        &self.0[0..self.1]
    }

    /// This message carries no CRC.
    pub fn verify_integrity(&self) -> (r: bool)
        ensures
            r,
    {
        true
    }

    /// This message carries no CRC: nothing to do.
    pub fn recalculate_crc(&mut self)
        ensures
            final(self).0@ == old(self).0@,
            final(self).1 == old(self).1,
    {
    }

    pub fn address(&self) -> (r: Address)
        ensures
            decoded_address(be48(self.0@.subrange(4, 10)), r),
    {
        address_from(&self.0, 4)
    }

    pub fn set_address(&mut self, address: Address)
        ensures
            final(self).0@ == with_bytes(old(self).0@, 4, be48_bytes(address_value(address))),
            final(self).1 == old(self).1,
    {
        let encoded = encode_address(&address);
        write_bytes(&mut self.0, 4, &encoded);
        self.recalculate_crc();
    }

}

/// Whether bytes `b`, of which the first `len` are the datagram, form an
/// intact `Ping`.
pub open spec fn ping_intact(b: Seq<u8>, len: int) -> bool {
    true
}

/// Whether a datagram parses as `Ping`.
pub open spec fn ping_parses(b: Seq<u8>) -> bool {
    10 <= b.len() <= 10 && ping_intact(padded(b, 10), b.len() as int)
}

pub struct Ping(pub [u8; 10], pub usize);

impl Ping {
    /// A message holding only its magic.
    pub fn new() -> (r: Self)
        ensures
            r.1 == 10,
            has_magic(r.0@, MAGIC_PING),
    {
        let mut bytes = [0u8; 10];
        bytes[0] = MAGIC_PING[0];
        bytes[1] = MAGIC_PING[1];
        bytes[2] = MAGIC_PING[2];
        bytes[3] = MAGIC_PING[3];
        assert(bytes@.subrange(0, 4) =~= MAGIC_PING@);
        Self(bytes, 10)
    }

    /// Parse a datagram; `None` unless its length and integrity are right.
    pub fn from_bytes(b: &[u8]) -> (r: Option<Self>)
        ensures
            r is Some <==> ping_parses(b@),
            r is Some ==> r->Some_0.1 == b@.len() && r->Some_0.0@ == padded(b@, 10),
    {
        let len = b.len();
        if len != 10 {
            return None;
        }
        let mut s = Self([0u8; 10], len);
        write_bytes(&mut s.0, 0, b);
        assert(s.0@ =~= padded(b@, 10));
        if !s.verify_integrity() {
            return None;
        }
        Some(s)
    }

    /// The datagram's bytes.
    pub fn as_bytes(&self) -> (r: &[u8])
        requires
            self.1 <= 10,
        ensures
            r@ == self.0@.subrange(0, self.1 as int),
    {
        &self.0[0..self.1]
    }

    /// This message carries no CRC.
    pub fn verify_integrity(&self) -> (r: bool)
        ensures
            r,
    {
        true
    }

    /// This message carries no CRC: nothing to do.
    pub fn recalculate_crc(&mut self)
        ensures
            final(self).0@ == old(self).0@,
            final(self).1 == old(self).1,
    {
    }

    pub fn address(&self) -> (r: Address)
        ensures
            decoded_address(be48(self.0@.subrange(4, 10)), r),
    {
        address_from(&self.0, 4)
    }

    pub fn set_address(&mut self, address: Address)
        ensures
            final(self).0@ == with_bytes(old(self).0@, 4, be48_bytes(address_value(address))),
            final(self).1 == old(self).1,
    {
        let encoded = encode_address(&address);
        write_bytes(&mut self.0, 4, &encoded);
        self.recalculate_crc();
    }

}

/// Whether bytes `b`, of which the first `len` are the datagram, form an
/// intact `DisconnectAcknowledge`.
pub open spec fn disconnect_acknowledge_intact(b: Seq<u8>, len: int) -> bool {
    true
}

/// Whether a datagram parses as `DisconnectAcknowledge`.
pub open spec fn disconnect_acknowledge_parses(b: Seq<u8>) -> bool {
    4 <= b.len() <= 4 && disconnect_acknowledge_intact(padded(b, 4), b.len() as int)
}

pub struct DisconnectAcknowledge(pub [u8; 4], pub usize);

impl DisconnectAcknowledge {
    /// A message holding only its magic.
    pub fn new() -> (r: Self)
        ensures
            r.1 == 4,
            has_magic(r.0@, MAGIC_DISCONNECT),
    {
        let mut bytes = [0u8; 4];
        bytes[0] = MAGIC_DISCONNECT[0];
        bytes[1] = MAGIC_DISCONNECT[1];
        bytes[2] = MAGIC_DISCONNECT[2];
        bytes[3] = MAGIC_DISCONNECT[3];
        assert(bytes@.subrange(0, 4) =~= MAGIC_DISCONNECT@);
        Self(bytes, 4)
    }

    /// Parse a datagram; `None` unless its length and integrity are right.
    pub fn from_bytes(b: &[u8]) -> (r: Option<Self>)
        ensures
            r is Some <==> disconnect_acknowledge_parses(b@),
            r is Some ==> r->Some_0.1 == b@.len() && r->Some_0.0@ == padded(b@, 4),
    {
        let len = b.len();
        if len != 4 {
            return None;
        }
        let mut s = Self([0u8; 4], len);
        write_bytes(&mut s.0, 0, b);
        assert(s.0@ =~= padded(b@, 4));
        if !s.verify_integrity() {
            return None;
        }
        Some(s)
    }

    /// The datagram's bytes.
    pub fn as_bytes(&self) -> (r: &[u8])
        requires
            self.1 <= 4,
        ensures
            r@ == self.0@.subrange(0, self.1 as int),
    {
        &self.0[0..self.1]
    }

    /// This message carries no CRC.
    pub fn verify_integrity(&self) -> (r: bool)
        ensures
            r,
    {
        true
    }

    /// This message carries no CRC: nothing to do.
    pub fn recalculate_crc(&mut self)
        ensures
            final(self).0@ == old(self).0@,
            final(self).1 == old(self).1,
    {
    }

}

/// Whether bytes `b`, of which the first `len` are the datagram, form an
/// intact `ForceDisconnect`.
pub open spec fn force_disconnect_intact(b: Seq<u8>, len: int) -> bool {
    true
}

/// Whether a datagram parses as `ForceDisconnect`.
pub open spec fn force_disconnect_parses(b: Seq<u8>) -> bool {
    10 <= b.len() <= 10 && force_disconnect_intact(padded(b, 10), b.len() as int)
}

pub struct ForceDisconnect(pub [u8; 10], pub usize);

impl ForceDisconnect {
    /// A message holding only its magic.
    pub fn new() -> (r: Self)
        ensures
            r.1 == 10,
            has_magic(r.0@, MAGIC_DISCONNECT),
    {
        let mut bytes = [0u8; 10];
        bytes[0] = MAGIC_DISCONNECT[0];
        bytes[1] = MAGIC_DISCONNECT[1];
        bytes[2] = MAGIC_DISCONNECT[2];
        bytes[3] = MAGIC_DISCONNECT[3];
        assert(bytes@.subrange(0, 4) =~= MAGIC_DISCONNECT@);
        Self(bytes, 10)
    }

    /// Parse a datagram; `None` unless its length and integrity are right.
    pub fn from_bytes(b: &[u8]) -> (r: Option<Self>)
        ensures
            r is Some <==> force_disconnect_parses(b@),
            r is Some ==> r->Some_0.1 == b@.len() && r->Some_0.0@ == padded(b@, 10),
    {
        let len = b.len();
        if len != 10 {
            return None;
        }
        let mut s = Self([0u8; 10], len);
        write_bytes(&mut s.0, 0, b);
        assert(s.0@ =~= padded(b@, 10));
        if !s.verify_integrity() {
            return None;
        }
        Some(s)
    }

    /// The datagram's bytes.
    pub fn as_bytes(&self) -> (r: &[u8])
        requires
            self.1 <= 10,
        ensures
            r@ == self.0@.subrange(0, self.1 as int),
    {
        &self.0[0..self.1]
    }

    /// This message carries no CRC.
    pub fn verify_integrity(&self) -> (r: bool)
        ensures
            r,
    {
        true
    }

    /// This message carries no CRC: nothing to do.
    pub fn recalculate_crc(&mut self)
        ensures
            final(self).0@ == old(self).0@,
            final(self).1 == old(self).1,
    {
    }

    pub fn address(&self) -> (r: Address)
        ensures
            decoded_address(be48(self.0@.subrange(4, 10)), r),
    {
        address_from(&self.0, 4)
    }

    pub fn set_address(&mut self, address: Address)
        ensures
            final(self).0@ == with_bytes(old(self).0@, 4, be48_bytes(address_value(address))),
            final(self).1 == old(self).1,
    {
        let encoded = encode_address(&address);
        write_bytes(&mut self.0, 4, &encoded);
        self.recalculate_crc();
    }

}

/// Whether bytes `b`, of which the first `len` are the datagram, form an
/// intact `ConnectAcknowledge`.
pub open spec fn connect_acknowledge_intact(b: Seq<u8>, len: int) -> bool {
    true
}

/// Whether a datagram parses as `ConnectAcknowledge`.
pub open spec fn connect_acknowledge_parses(b: Seq<u8>) -> bool {
    4 <= b.len() <= 4 && connect_acknowledge_intact(padded(b, 4), b.len() as int)
}

pub struct ConnectAcknowledge(pub [u8; 4], pub usize);

impl ConnectAcknowledge {
    /// A message holding only its magic.
    pub fn new() -> (r: Self)
        ensures
            r.1 == 4,
            has_magic(r.0@, MAGIC_ACKNOWLEDGE),
    {
        let mut bytes = [0u8; 4];
        bytes[0] = MAGIC_ACKNOWLEDGE[0];
        bytes[1] = MAGIC_ACKNOWLEDGE[1];
        bytes[2] = MAGIC_ACKNOWLEDGE[2];
        bytes[3] = MAGIC_ACKNOWLEDGE[3];
        assert(bytes@.subrange(0, 4) =~= MAGIC_ACKNOWLEDGE@);
        Self(bytes, 4)
    }

    /// Parse a datagram; `None` unless its length and integrity are right.
    pub fn from_bytes(b: &[u8]) -> (r: Option<Self>)
        ensures
            r is Some <==> connect_acknowledge_parses(b@),
            r is Some ==> r->Some_0.1 == b@.len() && r->Some_0.0@ == padded(b@, 4),
    {
        let len = b.len();
        if len != 4 {
            return None;
        }
        let mut s = Self([0u8; 4], len);
        write_bytes(&mut s.0, 0, b);
        assert(s.0@ =~= padded(b@, 4));
        if !s.verify_integrity() {
            return None;
        }
        Some(s)
    }

    /// The datagram's bytes.
    pub fn as_bytes(&self) -> (r: &[u8])
        requires
            self.1 <= 4,
        ensures
            r@ == self.0@.subrange(0, self.1 as int),
    {
        &self.0[0..self.1]
    }

    /// This message carries no CRC.
    pub fn verify_integrity(&self) -> (r: bool)
        ensures
            r,
    {
        true
    }

    /// This message carries no CRC: nothing to do.
    pub fn recalculate_crc(&mut self)
        ensures
            final(self).0@ == old(self).0@,
            final(self).1 == old(self).1,
    {
    }

}

/// Whether bytes `b`, of which the first `len` are the datagram, form an
/// intact `ConnectNack`.
pub open spec fn connect_nack_intact(b: Seq<u8>, len: int) -> bool {
    true
}

/// Whether a datagram parses as `ConnectNack`.
pub open spec fn connect_nack_parses(b: Seq<u8>) -> bool {
    4 <= b.len() <= 4 && connect_nack_intact(padded(b, 4), b.len() as int)
}

pub struct ConnectNack(pub [u8; 4], pub usize);

impl ConnectNack {
    /// A message holding only its magic.
    pub fn new() -> (r: Self)
        ensures
            r.1 == 4,
            has_magic(r.0@, MAGIC_NACK),
    {
        let mut bytes = [0u8; 4];
        bytes[0] = MAGIC_NACK[0];
        bytes[1] = MAGIC_NACK[1];
        bytes[2] = MAGIC_NACK[2];
        bytes[3] = MAGIC_NACK[3];
        assert(bytes@.subrange(0, 4) =~= MAGIC_NACK@);
        Self(bytes, 4)
    }

    /// Parse a datagram; `None` unless its length and integrity are right.
    pub fn from_bytes(b: &[u8]) -> (r: Option<Self>)
        ensures
            r is Some <==> connect_nack_parses(b@),
            r is Some ==> r->Some_0.1 == b@.len() && r->Some_0.0@ == padded(b@, 4),
    {
        let len = b.len();
        if len != 4 {
            return None;
        }
        let mut s = Self([0u8; 4], len);
        write_bytes(&mut s.0, 0, b);
        assert(s.0@ =~= padded(b@, 4));
        if !s.verify_integrity() {
            return None;
        }
        Some(s)
    }

    /// The datagram's bytes.
    pub fn as_bytes(&self) -> (r: &[u8])
        requires
            self.1 <= 4,
        ensures
            r@ == self.0@.subrange(0, self.1 as int),
    {
        &self.0[0..self.1]
    }

    /// This message carries no CRC.
    pub fn verify_integrity(&self) -> (r: bool)
        ensures
            r,
    {
        true
    }

    /// This message carries no CRC: nothing to do.
    pub fn recalculate_crc(&mut self)
        ensures
            final(self).0@ == old(self).0@,
            final(self).1 == old(self).1,
    {
    }

}

/// Whether bytes `b`, of which the first `len` are the datagram, form an
/// intact `VoiceInterlink`.
pub open spec fn voice_interlink_intact(b: Seq<u8>, len: int) -> bool {
    crc16(b.subrange(0, 54)) == 0
}

/// Whether a datagram parses as `VoiceInterlink`.
pub open spec fn voice_interlink_parses(b: Seq<u8>) -> bool {
    55 <= b.len() <= 55 && voice_interlink_intact(padded(b, 55), b.len() as int)
}

pub struct VoiceInterlink(pub [u8; 55], pub usize);

impl VoiceInterlink {
    /// A message holding only its magic.
    pub fn new() -> (r: Self)
        ensures
            r.1 == 55,
            has_magic(r.0@, MAGIC_VOICE),
    {
        let mut bytes = [0u8; 55];
        bytes[0] = MAGIC_VOICE[0];
        bytes[1] = MAGIC_VOICE[1];
        bytes[2] = MAGIC_VOICE[2];
        bytes[3] = MAGIC_VOICE[3];
        assert(bytes@.subrange(0, 4) =~= MAGIC_VOICE@);
        Self(bytes, 55)
    }

    /// Parse a datagram; `None` unless its length and integrity are right.
    pub fn from_bytes(b: &[u8]) -> (r: Option<Self>)
        ensures
            r is Some <==> voice_interlink_parses(b@),
            r is Some ==> r->Some_0.1 == b@.len() && r->Some_0.0@ == padded(b@, 55),
    {
        let len = b.len();
        if len != 55 {
            return None;
        }
        let mut s = Self([0u8; 55], len);
        write_bytes(&mut s.0, 0, b);
        assert(s.0@ =~= padded(b@, 55));
        if !s.verify_integrity() {
            return None;
        }
        Some(s)
    }

    /// The datagram's bytes.
    pub fn as_bytes(&self) -> (r: &[u8])
        requires
            self.1 <= 55,
        ensures
            r@ == self.0@.subrange(0, self.1 as int),
    {
        &self.0[0..self.1]
    }

    /// The CRC covers everything before it; the relay flag after it is not covered.
    pub fn verify_integrity(&self) -> (r: bool)
        ensures
            r == voice_interlink_intact(self.0@, self.1 as int),
    {
        crc_of_range(&self.0, 0, 54) == 0
    }

    /// Rewrite the CRC, which covers everything before it.
    pub fn recalculate_crc(&mut self)
        ensures
            final(self).0@ == with_crc_at(old(self).0@, 54),
            final(self).1 == old(self).1,
            voice_interlink_intact(final(self).0@, final(self).1 as int),
    {
        write_crc_at(&mut self.0, 54);
    }

    pub fn stream_id(&self) -> (r: u16)
        ensures
            r == u16_at(self.0@, 4),
    {
        u16_from(&self.0, 4)
    }

    pub fn set_stream_id(&mut self, id: u16)
        ensures
            final(self).0@ == with_crc_at(with_u16(old(self).0@, 4, id), 54),
            final(self).1 == old(self).1,
    {
        write_u16(&mut self.0, 4, id);
        self.recalculate_crc();
    }

    /// The LSF: the 28 bytes carried here followed by a fresh CRC.
    pub fn link_setup_frame(&self) -> (r: LsfFrame)
        ensures
            r.0@ == with_crc(self.0@.subrange(6, 34)),
    {
        link_setup_from(&self.0, 6)
    }

    /// Carry the first 28 bytes of `lsf`.
    pub fn set_link_setup_frame(&mut self, lsf: &LsfFrame)
        ensures
            final(self).0@ == with_crc_at(with_bytes(old(self).0@, 6, lsf.0@.subrange(0, 28)), 54),
            final(self).1 == old(self).1,
    {
        write_bytes(&mut self.0, 6, &lsf.0[0..28]);
        self.recalculate_crc();
    }

    pub fn frame_number(&self) -> (r: u16)
        ensures
            r == u16_at(self.0@, 34) & 0x7fffu16,
    {
        u16_from(&self.0, 34) & 0x7fffu16
    }

    pub fn is_end_of_stream(&self) -> (r: bool)
        ensures
            r == (u16_at(self.0@, 34) & 0x8000u16 != 0),
    {
        u16_from(&self.0, 34) & 0x8000u16 != 0
    }

    /// Set the frame number to the low 15 bits of `number`; the end of stream
    /// flag is kept.
    pub fn set_frame_number(&mut self, number: u16)
        ensures
            final(self).0@ == with_crc_at(with_u16(old(self).0@, 34, ((u16_at(old(self).0@, 34) & 0x8000u16) | (number & 0x7fffu16)) as u16), 54),
            final(self).1 == old(self).1,
    {
        let existing_eos = u16_from(&self.0, 34) & 0x8000u16;
        write_u16(&mut self.0, 34, existing_eos | (number & 0x7fffu16));
        self.recalculate_crc();
    }

    /// Set the end of stream flag; the frame number is kept.
    pub fn set_end_of_stream(&mut self, eos: bool)
        ensures
            final(self).0@ == with_crc_at(with_u16(old(self).0@, 34, ((u16_at(old(self).0@, 34) & 0x7fffu16) | if eos { 0x8000u16 } else { 0u16 }) as u16), 54),
            final(self).1 == old(self).1,
    {
        let existing_fn = u16_from(&self.0, 34) & 0x7fffu16;
        write_u16(&mut self.0, 34, existing_fn | if eos { 0x8000u16 } else { 0u16 });
        self.recalculate_crc();
    }

    pub fn payload(&self) -> (r: &[u8])
        ensures
            r@ == self.0@.subrange(36, 52),
    {
        &self.0[36..52]
    }

    pub fn set_payload(&mut self, bytes: &[u8])
        requires
            bytes@.len() == 16,
        ensures
            final(self).0@ == with_crc_at(with_bytes(old(self).0@, 36, bytes@), 54),
            final(self).1 == old(self).1,
    {
        write_bytes(&mut self.0, 36, bytes);
        self.recalculate_crc();
    }

    /// The relay flag, the last byte, outside the CRC.
    pub fn is_relayed(&self) -> (r: bool)
        ensures
            r == (self.0@[54] != 0),
    {
        self.0[54] != 0
    }

    pub fn set_relayed(&mut self, relayed: bool)
        ensures
            final(self).0@ == with_crc_at(old(self).0@.update(54, if relayed { 1u8 } else { 0u8 }), 54),
            final(self).1 == old(self).1,
    {
        self.0[54] = if relayed { 1 } else { 0 };
        self.recalculate_crc();
    }

}

/// Whether bytes `b`, of which the first `len` are the datagram, form an
/// intact `VoiceHeaderInterlink`.
pub open spec fn voice_header_interlink_intact(b: Seq<u8>, len: int) -> bool {
    crc16(b.subrange(0, 36)) == 0
}

/// Whether a datagram parses as `VoiceHeaderInterlink`.
pub open spec fn voice_header_interlink_parses(b: Seq<u8>) -> bool {
    37 <= b.len() <= 37 && voice_header_interlink_intact(padded(b, 37), b.len() as int)
}

pub struct VoiceHeaderInterlink(pub [u8; 37], pub usize);

impl VoiceHeaderInterlink {
    /// A message holding only its magic.
    pub fn new() -> (r: Self)
        ensures
            r.1 == 37,
            has_magic(r.0@, MAGIC_VOICE_HEADER),
    {
        let mut bytes = [0u8; 37];
        bytes[0] = MAGIC_VOICE_HEADER[0];
        bytes[1] = MAGIC_VOICE_HEADER[1];
        bytes[2] = MAGIC_VOICE_HEADER[2];
        bytes[3] = MAGIC_VOICE_HEADER[3];
        assert(bytes@.subrange(0, 4) =~= MAGIC_VOICE_HEADER@);
        Self(bytes, 37)
    }

    /// Parse a datagram; `None` unless its length and integrity are right.
    pub fn from_bytes(b: &[u8]) -> (r: Option<Self>)
        ensures
            r is Some <==> voice_header_interlink_parses(b@),
            r is Some ==> r->Some_0.1 == b@.len() && r->Some_0.0@ == padded(b@, 37),
    {
        let len = b.len();
        if len != 37 {
            return None;
        }
        let mut s = Self([0u8; 37], len);
        write_bytes(&mut s.0, 0, b);
        assert(s.0@ =~= padded(b@, 37));
        if !s.verify_integrity() {
            return None;
        }
        Some(s)
    }

    /// The datagram's bytes.
    pub fn as_bytes(&self) -> (r: &[u8])
        requires
            self.1 <= 37,
        ensures
            r@ == self.0@.subrange(0, self.1 as int),
    {
        &self.0[0..self.1]
    }

    /// The CRC covers everything before it; the relay flag after it is not covered.
    pub fn verify_integrity(&self) -> (r: bool)
        ensures
            r == voice_header_interlink_intact(self.0@, self.1 as int),
    {
        crc_of_range(&self.0, 0, 36) == 0
    }

    /// Rewrite the CRC, which covers everything before it.
    pub fn recalculate_crc(&mut self)
        ensures
            final(self).0@ == with_crc_at(old(self).0@, 36),
            final(self).1 == old(self).1,
            voice_header_interlink_intact(final(self).0@, final(self).1 as int),
    {
        write_crc_at(&mut self.0, 36);
    }

    pub fn stream_id(&self) -> (r: u16)
        ensures
            r == u16_at(self.0@, 4),
    {
        u16_from(&self.0, 4)
    }

    pub fn set_stream_id(&mut self, id: u16)
        ensures
            final(self).0@ == with_crc_at(with_u16(old(self).0@, 4, id), 36),
            final(self).1 == old(self).1,
    {
        write_u16(&mut self.0, 4, id);
        self.recalculate_crc();
    }

    /// The LSF: the 28 bytes carried here followed by a fresh CRC.
    pub fn link_setup_frame(&self) -> (r: LsfFrame)
        ensures
            r.0@ == with_crc(self.0@.subrange(6, 34)),
    {
        link_setup_from(&self.0, 6)
    }

    /// Carry the first 28 bytes of `lsf`.
    pub fn set_link_setup_frame(&mut self, lsf: &LsfFrame)
        ensures
            final(self).0@ == with_crc_at(with_bytes(old(self).0@, 6, lsf.0@.subrange(0, 28)), 36),
            final(self).1 == old(self).1,
    {
        write_bytes(&mut self.0, 6, &lsf.0[0..28]);
        self.recalculate_crc();
    }

    /// The relay flag, the last byte, outside the CRC.
    pub fn is_relayed(&self) -> (r: bool)
        ensures
            r == (self.0@[36] != 0),
    {
        self.0[36] != 0
    }

    pub fn set_relayed(&mut self, relayed: bool)
        ensures
            final(self).0@ == with_crc_at(old(self).0@.update(36, if relayed { 1u8 } else { 0u8 }), 36),
            final(self).1 == old(self).1,
    {
        self.0[36] = if relayed { 1 } else { 0 };
        self.recalculate_crc();
    }

}

/// Whether bytes `b`, of which the first `len` are the datagram, form an
/// intact `VoiceDataInterlink`.
pub open spec fn voice_data_interlink_intact(b: Seq<u8>, len: int) -> bool {
    crc16(b.subrange(0, 26)) == 0
}

/// Whether a datagram parses as `VoiceDataInterlink`.
pub open spec fn voice_data_interlink_parses(b: Seq<u8>) -> bool {
    27 <= b.len() <= 27 && voice_data_interlink_intact(padded(b, 27), b.len() as int)
}

pub struct VoiceDataInterlink(pub [u8; 27], pub usize);

impl VoiceDataInterlink {
    /// A message holding only its magic.
    pub fn new() -> (r: Self)
        ensures
            r.1 == 27,
            has_magic(r.0@, MAGIC_VOICE_DATA),
    {
        let mut bytes = [0u8; 27];
        bytes[0] = MAGIC_VOICE_DATA[0];
        bytes[1] = MAGIC_VOICE_DATA[1];
        bytes[2] = MAGIC_VOICE_DATA[2];
        bytes[3] = MAGIC_VOICE_DATA[3];
        assert(bytes@.subrange(0, 4) =~= MAGIC_VOICE_DATA@);
        Self(bytes, 27)
    }

    /// Parse a datagram; `None` unless its length and integrity are right.
    pub fn from_bytes(b: &[u8]) -> (r: Option<Self>)
        ensures
            r is Some <==> voice_data_interlink_parses(b@),
            r is Some ==> r->Some_0.1 == b@.len() && r->Some_0.0@ == padded(b@, 27),
    {
        let len = b.len();
        if len != 27 {
            return None;
        }
        let mut s = Self([0u8; 27], len);
        write_bytes(&mut s.0, 0, b);
        assert(s.0@ =~= padded(b@, 27));
        if !s.verify_integrity() {
            return None;
        }
        Some(s)
    }

    /// The datagram's bytes.
    pub fn as_bytes(&self) -> (r: &[u8])
        requires
            self.1 <= 27,
        ensures
            r@ == self.0@.subrange(0, self.1 as int),
    {
        &self.0[0..self.1]
    }

    /// The CRC covers everything before it; the relay flag after it is not covered.
    pub fn verify_integrity(&self) -> (r: bool)
        ensures
            r == voice_data_interlink_intact(self.0@, self.1 as int),
    {
        crc_of_range(&self.0, 0, 26) == 0
    }

    /// Rewrite the CRC, which covers everything before it.
    pub fn recalculate_crc(&mut self)
        ensures
            final(self).0@ == with_crc_at(old(self).0@, 26),
            final(self).1 == old(self).1,
            voice_data_interlink_intact(final(self).0@, final(self).1 as int),
    {
        write_crc_at(&mut self.0, 26);
    }

    pub fn stream_id(&self) -> (r: u16)
        ensures
            r == u16_at(self.0@, 4),
    {
        u16_from(&self.0, 4)
    }

    pub fn set_stream_id(&mut self, id: u16)
        ensures
            final(self).0@ == with_crc_at(with_u16(old(self).0@, 4, id), 26),
            final(self).1 == old(self).1,
    {
        write_u16(&mut self.0, 4, id);
        self.recalculate_crc();
    }

    pub fn frame_number(&self) -> (r: u16)
        ensures
            r == u16_at(self.0@, 6) & 0x7fffu16,
    {
        u16_from(&self.0, 6) & 0x7fffu16
    }

    pub fn is_end_of_stream(&self) -> (r: bool)
        ensures
            r == (u16_at(self.0@, 6) & 0x8000u16 != 0),
    {
        u16_from(&self.0, 6) & 0x8000u16 != 0
    }

    /// Set the frame number to the low 15 bits of `number`; the end of stream
    /// flag is kept.
    pub fn set_frame_number(&mut self, number: u16)
        ensures
            final(self).0@ == with_crc_at(with_u16(old(self).0@, 6, ((u16_at(old(self).0@, 6) & 0x8000u16) | (number & 0x7fffu16)) as u16), 26),
            final(self).1 == old(self).1,
    {
        let existing_eos = u16_from(&self.0, 6) & 0x8000u16;
        write_u16(&mut self.0, 6, existing_eos | (number & 0x7fffu16));
        self.recalculate_crc();
    }

    /// Set the end of stream flag; the frame number is kept.
    pub fn set_end_of_stream(&mut self, eos: bool)
        ensures
            final(self).0@ == with_crc_at(with_u16(old(self).0@, 6, ((u16_at(old(self).0@, 6) & 0x7fffu16) | if eos { 0x8000u16 } else { 0u16 }) as u16), 26),
            final(self).1 == old(self).1,
    {
        let existing_fn = u16_from(&self.0, 6) & 0x7fffu16;
        write_u16(&mut self.0, 6, existing_fn | if eos { 0x8000u16 } else { 0u16 });
        self.recalculate_crc();
    }

    pub fn payload(&self) -> (r: &[u8])
        ensures
            r@ == self.0@.subrange(8, 24),
    {
        &self.0[8..24]
    }

    pub fn set_payload(&mut self, bytes: &[u8])
        requires
            bytes@.len() == 16,
        ensures
            final(self).0@ == with_crc_at(with_bytes(old(self).0@, 8, bytes@), 26),
            final(self).1 == old(self).1,
    {
        write_bytes(&mut self.0, 8, bytes);
        self.recalculate_crc();
    }

    /// The relay flag, the last byte, outside the CRC.
    pub fn is_relayed(&self) -> (r: bool)
        ensures
            r == (self.0@[26] != 0),
    {
        self.0[26] != 0
    }

    pub fn set_relayed(&mut self, relayed: bool)
        ensures
            final(self).0@ == with_crc_at(old(self).0@.update(26, if relayed { 1u8 } else { 0u8 }), 26),
            final(self).1 == old(self).1,
    {
        self.0[26] = if relayed { 1 } else { 0 };
        self.recalculate_crc();
    }

}

/// Whether bytes `b`, of which the first `len` are the datagram, form an
/// intact `PacketInterlink`.
pub open spec fn packet_interlink_intact(b: Seq<u8>, len: int) -> bool {
    packet_parts_intact(b, len - 1)
}

/// Whether a datagram parses as `PacketInterlink`.
pub open spec fn packet_interlink_parses(b: Seq<u8>) -> bool {
    39 <= b.len() <= 860 && packet_interlink_intact(padded(b, 860), b.len() as int)
}

pub struct PacketInterlink(pub [u8; 860], pub usize);

impl PacketInterlink {
    /// A message holding only its magic.
    pub fn new() -> (r: Self)
        ensures
            r.1 == 860,
            has_magic(r.0@, MAGIC_PACKET),
    {
        let mut bytes = [0u8; 860];
        bytes[0] = MAGIC_PACKET[0];
        bytes[1] = MAGIC_PACKET[1];
        bytes[2] = MAGIC_PACKET[2];
        bytes[3] = MAGIC_PACKET[3];
        assert(bytes@.subrange(0, 4) =~= MAGIC_PACKET@);
        Self(bytes, 860)
    }

    /// Parse a datagram; `None` unless its length and integrity are right.
    pub fn from_bytes(b: &[u8]) -> (r: Option<Self>)
        ensures
            r is Some <==> packet_interlink_parses(b@),
            r is Some ==> r->Some_0.1 == b@.len() && r->Some_0.0@ == padded(b@, 860),
    {
        let len = b.len();
        if len > 860 || len < 39 {
            return None;
        }
        let mut s = Self([0u8; 860], len);
        write_bytes(&mut s.0, 0, b);
        assert(s.0@ =~= padded(b@, 860));
        if !s.verify_integrity() {
            return None;
        }
        Some(s)
    }

    /// The datagram's bytes.
    pub fn as_bytes(&self) -> (r: &[u8])
        requires
            self.1 <= 860,
        ensures
            r@ == self.0@.subrange(0, self.1 as int),
    {
        &self.0[0..self.1]
    }

    /// The packet payload: type prefix, data and CRC.
    pub fn payload(&self) -> (r: &[u8])
        requires
            35 <= self.1 <= 860,
        ensures
            r@ == packet_payload(self.0@, self.1 - 1),
    {
        &self.0[34..self.1 - 1]
    }

    /// Replace the payload, which must fit after the LSF.
    pub fn set_payload(&mut self, bytes: &[u8])
        requires
            34 + bytes@.len() <= 859,
        ensures
            final(self).1 == 34 + bytes@.len() + 1,
            final(self).0@.subrange(34, 34 + bytes@.len() as int) == bytes@,
            final(self).0@.subrange(0, 34) == old(self).0@.subrange(0, 34),
            final(self).0@[final(self).1 - 1] == if 1 <= old(self).1 <= 860 { old(self).0@[old(self).1 - 1] } else { 0u8 },
    {
        let relayed = if self.1 >= 1 && self.1 <= 860 { self.0[self.1 - 1] } else { 0 };
        write_bytes(&mut self.0, 34, bytes);
        self.1 = 34 + bytes.len() + 1;
        self.0[self.1 - 1] = relayed;
        assert(self.0@.subrange(34, 34 + bytes@.len() as int) =~= bytes@);
        assert(self.0@.subrange(0, 34) =~= old(self).0@.subrange(0, 34));
    }

    /// The LSF checks out, and the payload has at least four bytes and checks out.
    pub fn verify_integrity(&self) -> (r: bool)
        ensures
            (39 <= self.1 <= 860) ==> r == packet_interlink_intact(self.0@, self.1 as int),
            !(39 <= self.1 <= 860) ==> !r,
    {
        if self.1 < 39 || self.1 > 860 {
            return false;
        }
        let end = self.1 - 1;
        crc_of_range(&self.0, 4, 34) == 0 && end - 34 >= 4 && crc_of_range(&self.0, 34, end) == 0
    }

    /// The LSF and payload carry their own CRCs, checked on construction:
    /// nothing to do.
    pub fn recalculate_crc(&mut self)
        ensures
            final(self).0@ == old(self).0@,
            final(self).1 == old(self).1,
    {
    }

    /// The full 30-byte LSF carried here.
    pub fn link_setup_frame(&self) -> (r: LsfFrame)
        ensures
            r.0@ == self.0@.subrange(4, 34),
    {
        link_setup_frame_from(&self.0, 4)
    }

    /// Carry `lsf`, which should have a valid CRC.
    pub fn set_link_setup_frame(&mut self, lsf: &LsfFrame)
        ensures
            final(self).0@ == with_bytes(old(self).0@, 4, lsf.0@),
            final(self).1 == old(self).1,
    {
        write_bytes(&mut self.0, 4, &lsf.0);
        self.recalculate_crc();
    }

    /// The relay flag, the last byte of the datagram.
    pub fn is_relayed(&self) -> (r: bool)
        requires
            1 <= self.1 <= 860,
        ensures
            r == (self.0@[self.1 - 1] != 0),
    {
        self.0[self.1 - 1] != 0
    }

    pub fn set_relayed(&mut self, relayed: bool)
        requires
            1 <= old(self).1 <= 860,
        ensures
            final(self).0@ == old(self).0@.update(old(self).1 - 1, if relayed { 1u8 } else { 0u8 }),
            final(self).1 == old(self).1,
    {
        self.0[self.1 - 1] = if relayed { 1 } else { 0 };
    }

}

/// Whether bytes `b`, of which the first `len` are the datagram, form an
/// intact `ConnectInterlink`.
pub open spec fn connect_interlink_intact(b: Seq<u8>, len: int) -> bool {
    true
}

/// Whether a datagram parses as `ConnectInterlink`.
pub open spec fn connect_interlink_parses(b: Seq<u8>) -> bool {
    37 <= b.len() <= 37 && connect_interlink_intact(padded(b, 37), b.len() as int)
}

pub struct ConnectInterlink(pub [u8; 37], pub usize);

impl ConnectInterlink {
    /// A message holding only its magic.
    pub fn new() -> (r: Self)
        ensures
            r.1 == 37,
            has_magic(r.0@, MAGIC_CONNECT),
    {
        let mut bytes = [0u8; 37];
        bytes[0] = MAGIC_CONNECT[0];
        bytes[1] = MAGIC_CONNECT[1];
        bytes[2] = MAGIC_CONNECT[2];
        bytes[3] = MAGIC_CONNECT[3];
        assert(bytes@.subrange(0, 4) =~= MAGIC_CONNECT@);
        Self(bytes, 37)
    }

    /// Parse a datagram; `None` unless its length and integrity are right.
    pub fn from_bytes(b: &[u8]) -> (r: Option<Self>)
        ensures
            r is Some <==> connect_interlink_parses(b@),
            r is Some ==> r->Some_0.1 == b@.len() && r->Some_0.0@ == padded(b@, 37),
    {
        let len = b.len();
        if len != 37 {
            return None;
        }
        let mut s = Self([0u8; 37], len);
        write_bytes(&mut s.0, 0, b);
        assert(s.0@ =~= padded(b@, 37));
        if !s.verify_integrity() {
            return None;
        }
        Some(s)
    }

    /// The datagram's bytes.
    pub fn as_bytes(&self) -> (r: &[u8])
        requires
            self.1 <= 37,
        ensures
            r@ == self.0@.subrange(0, self.1 as int),
    {
        &self.0[0..self.1]
    }

    /// This message carries no CRC.
    pub fn verify_integrity(&self) -> (r: bool)
        ensures
            r,
    {
        true
    }

    /// This message carries no CRC: nothing to do.
    pub fn recalculate_crc(&mut self)
        ensures
            final(self).0@ == old(self).0@,
            final(self).1 == old(self).1,
    {
    }

    pub fn address(&self) -> (r: Address)
        ensures
            decoded_address(be48(self.0@.subrange(4, 10)), r),
    {
        address_from(&self.0, 4)
    }

    pub fn set_address(&mut self, address: Address)
        ensures
            final(self).0@ == with_bytes(old(self).0@, 4, be48_bytes(address_value(address))),
            final(self).1 == old(self).1,
    {
        let encoded = encode_address(&address);
        write_bytes(&mut self.0, 4, &encoded);
        self.recalculate_crc();
    }

    /// The module letters, up to a terminating zero.
    pub fn modules(&self) -> (r: ModulesIterator<'_>)
        ensures
            r.view() == self.0@.subrange(10, 37),
            r.position() == 0,
    {
        ModulesIterator::new(&self.0[10..37])
    }

    /// Store a list of module letters, followed by a terminating zero.
    pub fn set_modules(&mut self, list: &[u8])
        requires
            list@.len() < 27,
        ensures
            final(self).0@ == with_bytes(old(self).0@, 10, list@ + seq![0u8]),
            final(self).1 == old(self).1,
    {
        let ghost before = self.0@;
        write_bytes(&mut self.0, 10, list);
        self.0[10 + list.len()] = 0;
        assert(self.0@ =~= with_bytes(before, 10, list@ + seq![0u8]));
        self.recalculate_crc();
    }

}

/// Whether bytes `b`, of which the first `len` are the datagram, form an
/// intact `ConnectInterlinkAcknowledge`.
pub open spec fn connect_interlink_acknowledge_intact(b: Seq<u8>, len: int) -> bool {
    true
}

/// Whether a datagram parses as `ConnectInterlinkAcknowledge`.
pub open spec fn connect_interlink_acknowledge_parses(b: Seq<u8>) -> bool {
    37 <= b.len() <= 37 && connect_interlink_acknowledge_intact(padded(b, 37), b.len() as int)
}

pub struct ConnectInterlinkAcknowledge(pub [u8; 37], pub usize);

impl ConnectInterlinkAcknowledge {
    /// A message holding only its magic.
    pub fn new() -> (r: Self)
        ensures
            r.1 == 37,
            has_magic(r.0@, MAGIC_ACKNOWLEDGE),
    {
        let mut bytes = [0u8; 37];
        bytes[0] = MAGIC_ACKNOWLEDGE[0];
        bytes[1] = MAGIC_ACKNOWLEDGE[1];
        bytes[2] = MAGIC_ACKNOWLEDGE[2];
        bytes[3] = MAGIC_ACKNOWLEDGE[3];
        assert(bytes@.subrange(0, 4) =~= MAGIC_ACKNOWLEDGE@);
        Self(bytes, 37)
    }

    /// Parse a datagram; `None` unless its length and integrity are right.
    pub fn from_bytes(b: &[u8]) -> (r: Option<Self>)
        ensures
            r is Some <==> connect_interlink_acknowledge_parses(b@),
            r is Some ==> r->Some_0.1 == b@.len() && r->Some_0.0@ == padded(b@, 37),
    {
        let len = b.len();
        if len != 37 {
            return None;
        }
        let mut s = Self([0u8; 37], len);
        write_bytes(&mut s.0, 0, b);
        assert(s.0@ =~= padded(b@, 37));
        if !s.verify_integrity() {
            return None;
        }
        Some(s)
    }

    /// The datagram's bytes.
    pub fn as_bytes(&self) -> (r: &[u8])
        requires
            self.1 <= 37,
        ensures
            r@ == self.0@.subrange(0, self.1 as int),
    {
        &self.0[0..self.1]
    }

    /// This message carries no CRC.
    pub fn verify_integrity(&self) -> (r: bool)
        ensures
            r,
    {
        true
    }

    /// This message carries no CRC: nothing to do.
    pub fn recalculate_crc(&mut self)
        ensures
            final(self).0@ == old(self).0@,
            final(self).1 == old(self).1,
    {
    }

    pub fn address(&self) -> (r: Address)
        ensures
            decoded_address(be48(self.0@.subrange(4, 10)), r),
    {
        address_from(&self.0, 4)
    }

    pub fn set_address(&mut self, address: Address)
        ensures
            final(self).0@ == with_bytes(old(self).0@, 4, be48_bytes(address_value(address))),
            final(self).1 == old(self).1,
    {
        let encoded = encode_address(&address);
        write_bytes(&mut self.0, 4, &encoded);
        self.recalculate_crc();
    }

    /// The module letters, up to a terminating zero.
    pub fn modules(&self) -> (r: ModulesIterator<'_>)
        ensures
            r.view() == self.0@.subrange(10, 37),
            r.position() == 0,
    {
        ModulesIterator::new(&self.0[10..37])
    }

    /// Store a list of module letters, followed by a terminating zero.
    pub fn set_modules(&mut self, list: &[u8])
        requires
            list@.len() < 27,
        ensures
            final(self).0@ == with_bytes(old(self).0@, 10, list@ + seq![0u8]),
            final(self).1 == old(self).1,
    {
        let ghost before = self.0@;
        write_bytes(&mut self.0, 10, list);
        self.0[10 + list.len()] = 0;
        assert(self.0@ =~= with_bytes(before, 10, list@ + seq![0u8]));
        self.recalculate_crc();
    }

}

/// Whether bytes `b`, of which the first `len` are the datagram, form an
/// intact `DisconnectInterlink`.
pub open spec fn disconnect_interlink_intact(b: Seq<u8>, len: int) -> bool {
    true
}

/// Whether a datagram parses as `DisconnectInterlink`.
pub open spec fn disconnect_interlink_parses(b: Seq<u8>) -> bool {
    10 <= b.len() <= 10 && disconnect_interlink_intact(padded(b, 10), b.len() as int)
}

pub struct DisconnectInterlink(pub [u8; 10], pub usize);

impl DisconnectInterlink {
    /// A message holding only its magic.
    pub fn new() -> (r: Self)
        ensures
            r.1 == 10,
            has_magic(r.0@, MAGIC_DISCONNECT),
    {
        let mut bytes = [0u8; 10];
        bytes[0] = MAGIC_DISCONNECT[0];
        bytes[1] = MAGIC_DISCONNECT[1];
        bytes[2] = MAGIC_DISCONNECT[2];
        bytes[3] = MAGIC_DISCONNECT[3];
        assert(bytes@.subrange(0, 4) =~= MAGIC_DISCONNECT@);
        Self(bytes, 10)
    }

    /// Parse a datagram; `None` unless its length and integrity are right.
    pub fn from_bytes(b: &[u8]) -> (r: Option<Self>)
        ensures
            r is Some <==> disconnect_interlink_parses(b@),
            r is Some ==> r->Some_0.1 == b@.len() && r->Some_0.0@ == padded(b@, 10),
    {
        let len = b.len();
        if len != 10 {
            return None;
        }
        let mut s = Self([0u8; 10], len);
        write_bytes(&mut s.0, 0, b);
        assert(s.0@ =~= padded(b@, 10));
        if !s.verify_integrity() {
            return None;
        }
        Some(s)
    }

    /// The datagram's bytes.
    pub fn as_bytes(&self) -> (r: &[u8])
        requires
            self.1 <= 10,
        ensures
            r@ == self.0@.subrange(0, self.1 as int),
    {
        &self.0[0..self.1]
    }

    /// This message carries no CRC.
    pub fn verify_integrity(&self) -> (r: bool)
        ensures
            r,
    {
        true
    }

    /// This message carries no CRC: nothing to do.
    pub fn recalculate_crc(&mut self)
        ensures
            final(self).0@ == old(self).0@,
            final(self).1 == old(self).1,
    {
    }

    pub fn address(&self) -> (r: Address)
        ensures
            decoded_address(be48(self.0@.subrange(4, 10)), r),
    {
        address_from(&self.0, 4)
    }

    pub fn set_address(&mut self, address: Address)
        ensures
            final(self).0@ == with_bytes(old(self).0@, 4, be48_bytes(address_value(address))),
            final(self).1 == old(self).1,
    {
        let encoded = encode_address(&address);
        write_bytes(&mut self.0, 4, &encoded);
        self.recalculate_crc();
    }

}

/// Messages sent from a station to a reflector.
pub enum ClientMessage {
    Voice(Voice),
    VoiceHeader(VoiceHeader),
    VoiceData(VoiceData),
    Packet(Packet),
    Pong(Pong),
    Connect(Connect),
    Listen(Listen),
    Disconnect(Disconnect),
}

impl ClientMessage {
    /// Parse a datagram by its magic; `None` if the magic is unknown or the
    /// message does not parse.
    pub fn parse(bytes: &[u8]) -> (r: Option<Self>)
        ensures
            bytes@.len() < 4 ==> r is None,
            has_magic(bytes@, MAGIC_VOICE) ==> (r is Some <==> voice_parses(bytes@)) && (r is Some ==> r->Some_0 is Voice && r->Some_0->Voice_0.0@ == padded(bytes@, 54) && r->Some_0->Voice_0.1 == bytes@.len()),
            has_magic(bytes@, MAGIC_VOICE_HEADER) ==> (r is Some <==> voice_header_parses(bytes@)) && (r is Some ==> r->Some_0 is VoiceHeader && r->Some_0->VoiceHeader_0.0@ == padded(bytes@, 36) && r->Some_0->VoiceHeader_0.1 == bytes@.len()),
            has_magic(bytes@, MAGIC_VOICE_DATA) ==> (r is Some <==> voice_data_parses(bytes@)) && (r is Some ==> r->Some_0 is VoiceData && r->Some_0->VoiceData_0.0@ == padded(bytes@, 26) && r->Some_0->VoiceData_0.1 == bytes@.len()),
            has_magic(bytes@, MAGIC_PACKET) ==> (r is Some <==> packet_parses(bytes@)) && (r is Some ==> r->Some_0 is Packet && r->Some_0->Packet_0.0@ == padded(bytes@, 859) && r->Some_0->Packet_0.1 == bytes@.len()),
            has_magic(bytes@, MAGIC_PONG) ==> (r is Some <==> pong_parses(bytes@)) && (r is Some ==> r->Some_0 is Pong && r->Some_0->Pong_0.0@ == padded(bytes@, 10) && r->Some_0->Pong_0.1 == bytes@.len()),
            has_magic(bytes@, MAGIC_CONNECT) ==> (r is Some <==> connect_parses(bytes@)) && (r is Some ==> r->Some_0 is Connect && r->Some_0->Connect_0.0@ == padded(bytes@, 11) && r->Some_0->Connect_0.1 == bytes@.len()),
            has_magic(bytes@, MAGIC_LISTEN) ==> (r is Some <==> listen_parses(bytes@)) && (r is Some ==> r->Some_0 is Listen && r->Some_0->Listen_0.0@ == padded(bytes@, 11) && r->Some_0->Listen_0.1 == bytes@.len()),
            has_magic(bytes@, MAGIC_DISCONNECT) ==> (r is Some <==> disconnect_parses(bytes@)) && (r is Some ==> r->Some_0 is Disconnect && r->Some_0->Disconnect_0.0@ == padded(bytes@, 10) && r->Some_0->Disconnect_0.1 == bytes@.len()),
            bytes@.len() >= 4 && !has_magic(bytes@, MAGIC_CONNECT) && !has_magic(bytes@, MAGIC_DISCONNECT) && !has_magic(bytes@, MAGIC_LISTEN) && !has_magic(bytes@, MAGIC_PACKET) && !has_magic(bytes@, MAGIC_PONG) && !has_magic(bytes@, MAGIC_VOICE) && !has_magic(bytes@, MAGIC_VOICE_DATA) && !has_magic(bytes@, MAGIC_VOICE_HEADER) ==> r is None,
    {
        if bytes.len() < 4 {
            return None;
        }
        if magic_is(bytes, &MAGIC_VOICE) {
            match Voice::from_bytes(bytes) {
                Some(m) => Some(Self::Voice(m)),
                None => None,
            }
        } else if magic_is(bytes, &MAGIC_VOICE_HEADER) {
            match VoiceHeader::from_bytes(bytes) {
                Some(m) => Some(Self::VoiceHeader(m)),
                None => None,
            }
        } else if magic_is(bytes, &MAGIC_VOICE_DATA) {
            match VoiceData::from_bytes(bytes) {
                Some(m) => Some(Self::VoiceData(m)),
                None => None,
            }
        } else if magic_is(bytes, &MAGIC_PACKET) {
            match Packet::from_bytes(bytes) {
                Some(m) => Some(Self::Packet(m)),
                None => None,
            }
        } else if magic_is(bytes, &MAGIC_PONG) {
            match Pong::from_bytes(bytes) {
                Some(m) => Some(Self::Pong(m)),
                None => None,
            }
        } else if magic_is(bytes, &MAGIC_CONNECT) {
            match Connect::from_bytes(bytes) {
                Some(m) => Some(Self::Connect(m)),
                None => None,
            }
        } else if magic_is(bytes, &MAGIC_LISTEN) {
            match Listen::from_bytes(bytes) {
                Some(m) => Some(Self::Listen(m)),
                None => None,
            }
        } else if magic_is(bytes, &MAGIC_DISCONNECT) {
            match Disconnect::from_bytes(bytes) {
                Some(m) => Some(Self::Disconnect(m)),
                None => None,
            }
        } else {
            None
        }
    }
}

/// Messages sent from a reflector to a station.
pub enum ServerMessage {
    Voice(Voice),
    VoiceHeader(VoiceHeader),
    VoiceData(VoiceData),
    Packet(Packet),
    Ping(Ping),
    DisconnectAcknowledge(DisconnectAcknowledge),
    ForceDisconnect(ForceDisconnect),
    ConnectAcknowledge(ConnectAcknowledge),
    ConnectNack(ConnectNack),
}

impl ServerMessage {
    /// Parse a datagram by its magic; `None` if the magic is unknown or the
    /// message does not parse.
    pub fn parse(bytes: &[u8]) -> (r: Option<Self>)
        ensures
            bytes@.len() < 4 ==> r is None,
            has_magic(bytes@, MAGIC_VOICE) ==> (r is Some <==> voice_parses(bytes@)) && (r is Some ==> r->Some_0 is Voice && r->Some_0->Voice_0.0@ == padded(bytes@, 54) && r->Some_0->Voice_0.1 == bytes@.len()),
            has_magic(bytes@, MAGIC_VOICE_HEADER) ==> (r is Some <==> voice_header_parses(bytes@)) && (r is Some ==> r->Some_0 is VoiceHeader && r->Some_0->VoiceHeader_0.0@ == padded(bytes@, 36) && r->Some_0->VoiceHeader_0.1 == bytes@.len()),
            has_magic(bytes@, MAGIC_VOICE_DATA) ==> (r is Some <==> voice_data_parses(bytes@)) && (r is Some ==> r->Some_0 is VoiceData && r->Some_0->VoiceData_0.0@ == padded(bytes@, 26) && r->Some_0->VoiceData_0.1 == bytes@.len()),
            has_magic(bytes@, MAGIC_PACKET) ==> (r is Some <==> packet_parses(bytes@)) && (r is Some ==> r->Some_0 is Packet && r->Some_0->Packet_0.0@ == padded(bytes@, 859) && r->Some_0->Packet_0.1 == bytes@.len()),
            has_magic(bytes@, MAGIC_PING) ==> (r is Some <==> ping_parses(bytes@)) && (r is Some ==> r->Some_0 is Ping && r->Some_0->Ping_0.0@ == padded(bytes@, 10) && r->Some_0->Ping_0.1 == bytes@.len()),
            has_magic(bytes@, MAGIC_DISCONNECT) && bytes@.len() == 4 ==> (r is Some <==> disconnect_acknowledge_parses(bytes@)) && (r is Some ==> r->Some_0 is DisconnectAcknowledge && r->Some_0->DisconnectAcknowledge_0.0@ == padded(bytes@, 4) && r->Some_0->DisconnectAcknowledge_0.1 == bytes@.len()),
            has_magic(bytes@, MAGIC_DISCONNECT) && bytes@.len() != 4 ==> (r is Some <==> force_disconnect_parses(bytes@)) && (r is Some ==> r->Some_0 is ForceDisconnect && r->Some_0->ForceDisconnect_0.0@ == padded(bytes@, 10) && r->Some_0->ForceDisconnect_0.1 == bytes@.len()),
            has_magic(bytes@, MAGIC_ACKNOWLEDGE) ==> (r is Some <==> connect_acknowledge_parses(bytes@)) && (r is Some ==> r->Some_0 is ConnectAcknowledge && r->Some_0->ConnectAcknowledge_0.0@ == padded(bytes@, 4) && r->Some_0->ConnectAcknowledge_0.1 == bytes@.len()),
            has_magic(bytes@, MAGIC_NACK) ==> (r is Some <==> connect_nack_parses(bytes@)) && (r is Some ==> r->Some_0 is ConnectNack && r->Some_0->ConnectNack_0.0@ == padded(bytes@, 4) && r->Some_0->ConnectNack_0.1 == bytes@.len()),
            bytes@.len() >= 4 && !has_magic(bytes@, MAGIC_ACKNOWLEDGE) && !has_magic(bytes@, MAGIC_DISCONNECT) && !has_magic(bytes@, MAGIC_NACK) && !has_magic(bytes@, MAGIC_PACKET) && !has_magic(bytes@, MAGIC_PING) && !has_magic(bytes@, MAGIC_VOICE) && !has_magic(bytes@, MAGIC_VOICE_DATA) && !has_magic(bytes@, MAGIC_VOICE_HEADER) ==> r is None,
    {
        if bytes.len() < 4 {
            return None;
        }
        if magic_is(bytes, &MAGIC_VOICE) {
            match Voice::from_bytes(bytes) {
                Some(m) => Some(Self::Voice(m)),
                None => None,
            }
        } else if magic_is(bytes, &MAGIC_VOICE_HEADER) {
            match VoiceHeader::from_bytes(bytes) {
                Some(m) => Some(Self::VoiceHeader(m)),
                None => None,
            }
        } else if magic_is(bytes, &MAGIC_VOICE_DATA) {
            match VoiceData::from_bytes(bytes) {
                Some(m) => Some(Self::VoiceData(m)),
                None => None,
            }
        } else if magic_is(bytes, &MAGIC_PACKET) {
            match Packet::from_bytes(bytes) {
                Some(m) => Some(Self::Packet(m)),
                None => None,
            }
        } else if magic_is(bytes, &MAGIC_PING) {
            match Ping::from_bytes(bytes) {
                Some(m) => Some(Self::Ping(m)),
                None => None,
            }
        } else if magic_is(bytes, &MAGIC_DISCONNECT) && bytes.len() == 4 {
            match DisconnectAcknowledge::from_bytes(bytes) {
                Some(m) => Some(Self::DisconnectAcknowledge(m)),
                None => None,
            }
        } else if magic_is(bytes, &MAGIC_DISCONNECT) {
            match ForceDisconnect::from_bytes(bytes) {
                Some(m) => Some(Self::ForceDisconnect(m)),
                None => None,
            }
        } else if magic_is(bytes, &MAGIC_ACKNOWLEDGE) {
            match ConnectAcknowledge::from_bytes(bytes) {
                Some(m) => Some(Self::ConnectAcknowledge(m)),
                None => None,
            }
        } else if magic_is(bytes, &MAGIC_NACK) {
            match ConnectNack::from_bytes(bytes) {
                Some(m) => Some(Self::ConnectNack(m)),
                None => None,
            }
        } else {
            None
        }
    }
}

/// Messages exchanged between reflectors.
pub enum InterlinkMessage {
    VoiceInterlink(VoiceInterlink),
    VoiceHeaderInterlink(VoiceHeaderInterlink),
    VoiceDataInterlink(VoiceDataInterlink),
    PacketInterlink(PacketInterlink),
    Ping(Ping),
    ConnectInterlink(ConnectInterlink),
    ConnectInterlinkAcknowledge(ConnectInterlinkAcknowledge),
    ConnectNack(ConnectNack),
    DisconnectInterlink(DisconnectInterlink),
}

impl InterlinkMessage {
    /// Parse a datagram by its magic; `None` if the magic is unknown or the
    /// message does not parse.
    pub fn parse(bytes: &[u8]) -> (r: Option<Self>)
        ensures
            bytes@.len() < 4 ==> r is None,
            has_magic(bytes@, MAGIC_VOICE) ==> (r is Some <==> voice_interlink_parses(bytes@)) && (r is Some ==> r->Some_0 is VoiceInterlink && r->Some_0->VoiceInterlink_0.0@ == padded(bytes@, 55) && r->Some_0->VoiceInterlink_0.1 == bytes@.len()),
            has_magic(bytes@, MAGIC_VOICE_HEADER) ==> (r is Some <==> voice_header_interlink_parses(bytes@)) && (r is Some ==> r->Some_0 is VoiceHeaderInterlink && r->Some_0->VoiceHeaderInterlink_0.0@ == padded(bytes@, 37) && r->Some_0->VoiceHeaderInterlink_0.1 == bytes@.len()),
            has_magic(bytes@, MAGIC_VOICE_DATA) ==> (r is Some <==> voice_data_interlink_parses(bytes@)) && (r is Some ==> r->Some_0 is VoiceDataInterlink && r->Some_0->VoiceDataInterlink_0.0@ == padded(bytes@, 27) && r->Some_0->VoiceDataInterlink_0.1 == bytes@.len()),
            has_magic(bytes@, MAGIC_PACKET) ==> (r is Some <==> packet_interlink_parses(bytes@)) && (r is Some ==> r->Some_0 is PacketInterlink && r->Some_0->PacketInterlink_0.0@ == padded(bytes@, 860) && r->Some_0->PacketInterlink_0.1 == bytes@.len()),
            has_magic(bytes@, MAGIC_PING) ==> (r is Some <==> ping_parses(bytes@)) && (r is Some ==> r->Some_0 is Ping && r->Some_0->Ping_0.0@ == padded(bytes@, 10) && r->Some_0->Ping_0.1 == bytes@.len()),
            has_magic(bytes@, MAGIC_CONNECT) ==> (r is Some <==> connect_interlink_parses(bytes@)) && (r is Some ==> r->Some_0 is ConnectInterlink && r->Some_0->ConnectInterlink_0.0@ == padded(bytes@, 37) && r->Some_0->ConnectInterlink_0.1 == bytes@.len()),
            has_magic(bytes@, MAGIC_ACKNOWLEDGE) ==> (r is Some <==> connect_interlink_acknowledge_parses(bytes@)) && (r is Some ==> r->Some_0 is ConnectInterlinkAcknowledge && r->Some_0->ConnectInterlinkAcknowledge_0.0@ == padded(bytes@, 37) && r->Some_0->ConnectInterlinkAcknowledge_0.1 == bytes@.len()),
            has_magic(bytes@, MAGIC_NACK) ==> (r is Some <==> connect_nack_parses(bytes@)) && (r is Some ==> r->Some_0 is ConnectNack && r->Some_0->ConnectNack_0.0@ == padded(bytes@, 4) && r->Some_0->ConnectNack_0.1 == bytes@.len()),
            has_magic(bytes@, MAGIC_DISCONNECT) ==> (r is Some <==> disconnect_interlink_parses(bytes@)) && (r is Some ==> r->Some_0 is DisconnectInterlink && r->Some_0->DisconnectInterlink_0.0@ == padded(bytes@, 10) && r->Some_0->DisconnectInterlink_0.1 == bytes@.len()),
            bytes@.len() >= 4 && !has_magic(bytes@, MAGIC_ACKNOWLEDGE) && !has_magic(bytes@, MAGIC_CONNECT) && !has_magic(bytes@, MAGIC_DISCONNECT) && !has_magic(bytes@, MAGIC_NACK) && !has_magic(bytes@, MAGIC_PACKET) && !has_magic(bytes@, MAGIC_PING) && !has_magic(bytes@, MAGIC_VOICE) && !has_magic(bytes@, MAGIC_VOICE_DATA) && !has_magic(bytes@, MAGIC_VOICE_HEADER) ==> r is None,
    {
        if bytes.len() < 4 {
            return None;
        }
        if magic_is(bytes, &MAGIC_VOICE) {
            match VoiceInterlink::from_bytes(bytes) {
                Some(m) => Some(Self::VoiceInterlink(m)),
                None => None,
            }
        } else if magic_is(bytes, &MAGIC_VOICE_HEADER) {
            match VoiceHeaderInterlink::from_bytes(bytes) {
                Some(m) => Some(Self::VoiceHeaderInterlink(m)),
                None => None,
            }
        } else if magic_is(bytes, &MAGIC_VOICE_DATA) {
            match VoiceDataInterlink::from_bytes(bytes) {
                Some(m) => Some(Self::VoiceDataInterlink(m)),
                None => None,
            }
        } else if magic_is(bytes, &MAGIC_PACKET) {
            match PacketInterlink::from_bytes(bytes) {
                Some(m) => Some(Self::PacketInterlink(m)),
                None => None,
            }
        } else if magic_is(bytes, &MAGIC_PING) {
            match Ping::from_bytes(bytes) {
                Some(m) => Some(Self::Ping(m)),
                None => None,
            }
        } else if magic_is(bytes, &MAGIC_CONNECT) {
            match ConnectInterlink::from_bytes(bytes) {
                Some(m) => Some(Self::ConnectInterlink(m)),
                None => None,
            }
        } else if magic_is(bytes, &MAGIC_ACKNOWLEDGE) {
            match ConnectInterlinkAcknowledge::from_bytes(bytes) {
                Some(m) => Some(Self::ConnectInterlinkAcknowledge(m)),
                None => None,
            }
        } else if magic_is(bytes, &MAGIC_NACK) {
            match ConnectNack::from_bytes(bytes) {
                Some(m) => Some(Self::ConnectNack(m)),
                None => None,
            }
        } else if magic_is(bytes, &MAGIC_DISCONNECT) {
            match DisconnectInterlink::from_bytes(bytes) {
                Some(m) => Some(Self::DisconnectInterlink(m)),
                None => None,
            }
        } else {
            None
        }
    }
}
} // verus!
