//! Frames of the M17 air interface: the Link Setup Frame, stream and packet
//! frames, and the collection of LICH parts that rebuilds an LSF.

use vstd::prelude::*;
use crate::address::{Address, encode_address, decode_address, decoded_address, be48, be48_bytes, address_value};
use crate::crc::{crc16, be16, m17_crc, crc_of_range, lemma_crc_residue};

verus! {

pub const LSF_SYNC: [i8; 8] = [1, 1, 1, 1, -1, -1, 1, -1];
pub const BERT_SYNC: [i8; 8] = [-1, 1, -1, -1, 1, 1, 1, 1];
pub const STREAM_SYNC: [i8; 8] = [-1, -1, -1, -1, 1, 1, -1, 1];
pub const PACKET_SYNC: [i8; 8] = [1, -1, 1, 1, -1, -1, -1, -1];
pub const PREAMBLE: [i8; 8] = [1, -1, 1, -1, 1, -1, 1, -1];
pub const END_OF_TRANSMISSION: [i8; 8] = [1, 1, 1, 1, 1, 1, -1, 1];

#[derive(Debug, Clone, Copy, PartialEq, Eq)]
pub enum Mode {
    Packet,
    Stream,
}

#[derive(Debug, Clone, Copy, PartialEq, Eq)]
pub enum DataType {
    Reserved,
    Data,
    Voice,
    VoiceAndData,
}

#[derive(Debug, Clone, Copy, PartialEq, Eq)]
pub enum EncryptionType {
    Unencrypted,
    Scrambler,
    Aes,
    Other,
}

/// A frame decoded by the modem.
#[derive(Debug, Clone, Copy, PartialEq, Eq)]
pub enum Frame {
    Lsf(LsfFrame),
    Stream(StreamFrame),
    Packet(PacketFrame),
}

/// The type of a packet, carried as a prefix of its payload.
#[derive(Debug, Clone, Copy, PartialEq, Eq)]
pub enum PacketType {
    /// RAW
    Raw,
    /// AX.25
    Ax25,
    /// APRS
    Aprs,
    /// 6LoWPAN
    SixLowPan,
    /// IPv4
    Ipv4,
    /// SMS
    Sms,
    /// Winlink
    Winlink,
    /// Custom identifier
    Other(char),
}

/// The UTF-8 encoding of a character.
pub open spec fn utf8_of(c: char) -> Seq<u8> {
    let v = c as u32;
    if v < 0x80 {
        seq![v as u8]
    } else if v < 0x800 {
        seq![(0xC0 | (v >> 6)) as u8, (0x80 | (v & 0x3F)) as u8]
    } else if v < 0x10000 {
        seq![(0xE0 | (v >> 12)) as u8, (0x80 | ((v >> 6) & 0x3F)) as u8, (0x80 | (v & 0x3F)) as u8]
    } else {
        seq![
            (0xF0 | (v >> 18)) as u8,
            (0x80 | ((v >> 12) & 0x3F)) as u8,
            (0x80 | ((v >> 6) & 0x3F)) as u8,
            (0x80 | (v & 0x3F)) as u8,
        ]
    }
}

/// The prefix bytes of a packet type.
pub open spec fn packet_type_prefix(t: PacketType) -> Seq<u8> {
    match t {
        PacketType::Raw => seq![0u8],
        PacketType::Ax25 => seq![1u8],
        PacketType::Aprs => seq![2u8],
        PacketType::SixLowPan => seq![3u8],
        PacketType::Ipv4 => seq![4u8],
        PacketType::Sms => seq![5u8],
        PacketType::Winlink => seq![6u8],
        PacketType::Other(c) => utf8_of(c),
    }
}

/// Whether `b` continues a UTF-8 sequence.
pub open spec fn is_cont(b: u8) -> bool {
    0x80 <= b <= 0xBF
}

/// The code point and length of the UTF-8 character at the start of `b`, if
/// a valid one starts there.
pub open spec fn utf8_first(b: Seq<u8>) -> Option<(u32, int)> {
    if b.len() == 0 {
        None
    } else if b[0] < 0x80 {
        Some((b[0] as u32, 1))
    } else if 0xC2 <= b[0] <= 0xDF {
        if b.len() >= 2 && is_cont(b[1]) {
            Some(((((b[0] & 0x1F) as u32) << 6u32) | ((b[1] & 0x3F) as u32), 2))
        } else {
            None
        }
    } else if 0xE0 <= b[0] <= 0xEF {
        if b.len() >= 3 && is_cont(b[1]) && is_cont(b[2]) && !(b[0] == 0xE0 && b[1] < 0xA0)
            && !(b[0] == 0xED && b[1] > 0x9F) {
            Some(((((b[0] & 0x0F) as u32) << 12u32) | (((b[1] & 0x3F) as u32) << 6u32) | ((b[2]
                & 0x3F) as u32), 3))
        } else {
            None
        }
    } else if 0xF0 <= b[0] <= 0xF4 {
        if b.len() >= 4 && is_cont(b[1]) && is_cont(b[2]) && is_cont(b[3]) && !(b[0] == 0xF0
            && b[1] < 0x90) && !(b[0] == 0xF4 && b[1] > 0x8F) {
            Some(((((b[0] & 0x07) as u32) << 18u32) | (((b[1] & 0x3F) as u32) << 12u32) | (((b[2]
                & 0x3F) as u32) << 6u32) | ((b[3] & 0x3F) as u32), 4))
        } else {
            None
        }
    } else {
        None
    }
}

/// Relies on `char::from_u32`: `Some` exactly for Unicode scalar values,
/// holding that value.
#[verifier::external_body]
fn char_from_u32(v: u32) -> (r: Option<char>)
    ensures
        (v <= 0x10FFFF && !(0xD800 <= v <= 0xDFFF)) <==> r is Some,
        r is Some ==> r->Some_0 as u32 == v,
{
    char::from_u32(v)
}

/// Decode the UTF-8 character at `b[at..]`, with its length.
pub fn decode_utf8_at(b: &[u8], at: usize) -> (r: Option<(char, usize)>)
    requires
        at <= b@.len(),
    ensures
        match utf8_first(b@.subrange(at as int, b@.len() as int)) {
            Some((v, n)) => r is Some && r->Some_0.0 as u32 == v && r->Some_0.1 == n,
            None => r is None,
        },
{
    let ghost t = b@.subrange(at as int, b@.len() as int);
    let len = b.len() - at;
    if len == 0 {
        return None;
    }
    let b0 = b[at];
    let (v, n): (u32, usize) = if b0 < 0x80 {
        (b0 as u32, 1)
    } else if 0xC2 <= b0 && b0 <= 0xDF {
        if len >= 2 && 0x80 <= b[at + 1] && b[at + 1] <= 0xBF {
            ((((b0 & 0x1F) as u32) << 6u32) | ((b[at + 1] & 0x3F) as u32), 2)
        } else {
            return None;
        }
    } else if 0xE0 <= b0 && b0 <= 0xEF {
        if len >= 3 && 0x80 <= b[at + 1] && b[at + 1] <= 0xBF && 0x80 <= b[at + 2] && b[at + 2] <= 0xBF
            && !(b0 == 0xE0 && b[at + 1] < 0xA0) && !(b0 == 0xED && b[at + 1] > 0x9F) {
            ((((b0 & 0x0F) as u32) << 12u32) | (((b[at + 1] & 0x3F) as u32) << 6u32) | ((b[at + 2]
                & 0x3F) as u32), 3)
        } else {
            return None;
        }
    } else if 0xF0 <= b0 && b0 <= 0xF4 {
        if len >= 4 && 0x80 <= b[at + 1] && b[at + 1] <= 0xBF && 0x80 <= b[at + 2] && b[at + 2] <= 0xBF
            && 0x80 <= b[at + 3] && b[at + 3] <= 0xBF && !(b0 == 0xF0 && b[at + 1] < 0x90) && !(b0
            == 0xF4 && b[at + 1] > 0x8F) {
            ((((b0 & 0x07) as u32) << 18u32) | (((b[at + 1] & 0x3F) as u32) << 12u32) | (((b[at + 2]
                & 0x3F) as u32) << 6u32) | ((b[at + 3] & 0x3F) as u32), 4)
        } else {
            return None;
        }
    } else {
        return None;
    };
    assert(utf8_first(t) == Some((v, n as int)));
    proof {
        lemma_utf8_scalar(t);
    }
    match char_from_u32(v) {
        Some(c) => Some((c, n)),
        None => None,
    }
}

/// What `utf8_first` decodes is always a Unicode scalar value.
proof fn lemma_utf8_scalar(b: Seq<u8>)
    requires
        utf8_first(b) is Some,
    ensures
        utf8_first(b)->Some_0.0 <= 0x10FFFF,
        !(0xD800 <= utf8_first(b)->Some_0.0 <= 0xDFFF),
{
    let b0 = b[0];
    if 0xC2 <= b0 <= 0xDF {
        let b1 = b[1];
        assert(((((b0 & 0x1F) as u32) << 6u32) | ((b1 & 0x3F) as u32)) < 0x800) by (bit_vector);
    } else if 0xE0 <= b0 <= 0xEF {
        let b1 = b[1];
        let b2 = b[2];
        assert(((((b0 & 0x0F) as u32) << 12u32) | (((b1 & 0x3F) as u32) << 6u32) | ((b2 & 0x3F) as u32)) <= 0xFFFF
            && (b0 == 0xED && 0x80 <= b1 <= 0x9F ==> ((((b0 & 0x0F) as u32) << 12u32) | (((b1 & 0x3F) as u32) << 6u32) | ((b2 & 0x3F) as u32)) < 0xD800)
            && (b0 != 0xED && 0xE0 <= b0 <= 0xEF ==> !(0xD800 <= ((((b0 & 0x0F) as u32) << 12u32) | (((b1 & 0x3F) as u32) << 6u32) | ((b2 & 0x3F) as u32)) <= 0xDFFF))) by (bit_vector);
    } else if 0xF0 <= b0 <= 0xF4 {
        let b1 = b[1];
        let b2 = b[2];
        let b3 = b[3];
        assert((0xF0 <= b0 <= 0xF4 && !(b0 == 0xF4 && b1 > 0x8F) && !(b0 == 0xF0 && b1 < 0x90) && 0x80 <= b1 <= 0xBF) ==> (((((b0 & 0x07) as u32) << 18u32) | (((b1 & 0x3F) as u32) << 12u32) | (((b2 & 0x3F) as u32) << 6u32) | ((b3 & 0x3F) as u32)) <= 0x10FFFF
            && ((((b0 & 0x07) as u32) << 18u32) | (((b1 & 0x3F) as u32) << 12u32) | (((b2 & 0x3F) as u32) << 6u32) | ((b3 & 0x3F) as u32)) >= 0x10000)) by (bit_vector);
    }
}

impl PacketType {
    /// The packet type named by the prefix at the start of `buf`, with the
    /// prefix's length: one byte for the standard types, a UTF-8 character
    /// otherwise. `None` when no valid character starts the buffer.
    pub fn from_proto(buf: &[u8]) -> (r: Option<(Self, usize)>)
        ensures
            match utf8_first(buf@) {
                None => r is None,
                Some((v, n)) => r is Some && r->Some_0.1 == n && packet_type_prefix(r->Some_0.0)
                    == buf@.subrange(0, n) && (v <= 6 ==> !(r->Some_0.0 is Other))
                    && (v > 6 ==> r->Some_0.0 is Other && r->Some_0.0->Other_0 as u32 == v),
            },
    {
        assert(buf@.subrange(0, buf@.len() as int) =~= buf@);
        match decode_utf8_at(buf, 0) {
            None => None,
            Some((c, n)) => {
                let v = c as u32;
                let t = if v == 0 {
                    PacketType::Raw
                } else if v == 1 {
                    PacketType::Ax25
                } else if v == 2 {
                    PacketType::Aprs
                } else if v == 3 {
                    PacketType::SixLowPan
                } else if v == 4 {
                    PacketType::Ipv4
                } else if v == 5 {
                    PacketType::Sms
                } else if v == 6 {
                    PacketType::Winlink
                } else {
                    PacketType::Other(c)
                };
                proof {
                    lemma_utf8_encode_decode(buf@, c);
                }
                Some((t, n))
            },
        }
    }

    /// The prefix bytes of this packet type, in a 4-byte buffer, and how
    /// many of them are used.
    pub fn as_proto(&self) -> (r: ([u8; 4], usize))
        ensures
            1 <= r.1 <= 4,
            r.0@.subrange(0, r.1 as int) == packet_type_prefix(*self),
    {
        let mut buf = [0u8; 4];
        let len: usize = match self {
            PacketType::Raw => { buf[0] = 0; 1 },
            PacketType::Ax25 => { buf[0] = 1; 1 },
            PacketType::Aprs => { buf[0] = 2; 1 },
            PacketType::SixLowPan => { buf[0] = 3; 1 },
            PacketType::Ipv4 => { buf[0] = 4; 1 },
            PacketType::Sms => { buf[0] = 5; 1 },
            PacketType::Winlink => { buf[0] = 6; 1 },
            PacketType::Other(c) => {
                let v = *c as u32;
                if v < 0x80 {
                    buf[0] = v as u8;
                    1
                } else if v < 0x800 {
                    buf[0] = (0xC0 | (v >> 6)) as u8;
                    buf[1] = (0x80 | (v & 0x3F)) as u8;
                    2
                } else if v < 0x10000 {
                    buf[0] = (0xE0 | (v >> 12)) as u8;
                    buf[1] = (0x80 | ((v >> 6) & 0x3F)) as u8;
                    buf[2] = (0x80 | (v & 0x3F)) as u8;
                    3
                } else {
                    buf[0] = (0xF0 | (v >> 18)) as u8;
                    buf[1] = (0x80 | ((v >> 12) & 0x3F)) as u8;
                    buf[2] = (0x80 | ((v >> 6) & 0x3F)) as u8;
                    buf[3] = (0x80 | (v & 0x3F)) as u8;
                    4
                }
            },
        };
        assert(buf@.subrange(0, len as int) =~= packet_type_prefix(*self));
        (buf, len)
    }
}

/// Encoding a decoded character gives back its bytes.
proof fn lemma_utf8_encode_decode(b: Seq<u8>, c: char)
    requires
        utf8_first(b) is Some,
        c as u32 == utf8_first(b)->Some_0.0,
    ensures
        utf8_of(c) == b.subrange(0, utf8_first(b)->Some_0.1),
{
    let v = c as u32;
    let n = utf8_first(b)->Some_0.1;
    let b0 = b[0];
    if n == 1 {
        assert(utf8_of(c) =~= b.subrange(0, 1));
    } else if n == 2 {
        let b1 = b[1];
        assert(v == ((((b0 & 0x1F) as u32) << 6u32) | ((b1 & 0x3F) as u32)));
        assert(0xC2 <= b0 <= 0xDF && 0x80 <= b1 <= 0xBF && v == ((((b0 & 0x1F) as u32) << 6u32) | ((b1 & 0x3F) as u32))
            ==> 0x80 <= v && v < 0x800 && (0xC0 | (v >> 6)) as u8 == b0 && (0x80 | (v & 0x3F)) as u8 == b1) by (bit_vector);
        assert(utf8_of(c) =~= b.subrange(0, 2));
    } else if n == 3 {
        let b1 = b[1];
        let b2 = b[2];
        assert(0xE0 <= b0 <= 0xEF && 0x80 <= b1 <= 0xBF && 0x80 <= b2 <= 0xBF && !(b0 == 0xE0 && b1 < 0xA0)
            && v == ((((b0 & 0x0F) as u32) << 12u32) | (((b1 & 0x3F) as u32) << 6u32) | ((b2 & 0x3F) as u32))
            ==> 0x800 <= v && v < 0x10000 && (0xE0 | (v >> 12)) as u8 == b0 && (0x80 | ((v >> 6) & 0x3F)) as u8 == b1
            && (0x80 | (v & 0x3F)) as u8 == b2) by (bit_vector);
        assert(utf8_of(c) =~= b.subrange(0, 3));
    } else {
        let b1 = b[1];
        let b2 = b[2];
        let b3 = b[3];
        assert(0xF0 <= b0 <= 0xF4 && 0x80 <= b1 <= 0xBF && 0x80 <= b2 <= 0xBF && 0x80 <= b3 <= 0xBF
            && !(b0 == 0xF0 && b1 < 0x90) && v == ((((b0 & 0x07) as u32) << 18u32) | (((b1 & 0x3F) as u32) << 12u32)
            | (((b2 & 0x3F) as u32) << 6u32) | ((b3 & 0x3F) as u32))
            ==> 0x10000 <= v && (0xF0 | (v >> 18)) as u8 == b0 && (0x80 | ((v >> 12) & 0x3F)) as u8 == b1
            && (0x80 | ((v >> 6) & 0x3F)) as u8 == b2 && (0x80 | (v & 0x3F)) as u8 == b3) by (bit_vector);
        assert(utf8_of(c) =~= b.subrange(0, 4));
    }
}

/// The 16-bit TYPE field of an LSF: bytes 12 and 13, big-endian.
pub open spec fn lsf_type(s: Seq<u8>) -> u16 {
    ((s[12] as u16) << 8u16) | (s[13] as u16)
}

/// `s` with its TYPE field replaced by `t`.
pub open spec fn with_type(s: Seq<u8>, t: u16) -> Seq<u8> {
    s.update(12, (t >> 8u16) as u8).update(13, t as u8)
}

/// The first 28 bytes of `s` followed by their CRC.
pub open spec fn with_crc(s: Seq<u8>) -> Seq<u8> {
    s.subrange(0, 28) + be16(crc16(s.subrange(0, 28)))
}

/// The mode bit of a TYPE field.
pub open spec fn mode_of(t: u16) -> Mode {
    if t & 1u16 == 1u16 {
        Mode::Stream
    } else {
        Mode::Packet
    }
}

pub open spec fn data_type_of(t: u16) -> DataType {
    let d = (t >> 1u16) & 3u16;
    if d == 0 {
        DataType::Reserved
    } else if d == 1 {
        DataType::Data
    } else if d == 2 {
        DataType::Voice
    } else {
        DataType::VoiceAndData
    }
}

pub open spec fn encryption_type_of(t: u16) -> EncryptionType {
    let e = (t >> 3u16) & 3u16;
    if e == 0 {
        EncryptionType::Unencrypted
    } else if e == 1 {
        EncryptionType::Scrambler
    } else if e == 2 {
        EncryptionType::Aes
    } else {
        EncryptionType::Other
    }
}

/// The channel access number held in bits 7..10 of a TYPE field.
pub open spec fn can_of(t: u16) -> u8 {
    ((t >> 7u16) & 0xfu16) as u8
}

pub open spec fn mode_bits(m: Mode) -> u16 {
    match m {
        Mode::Packet => 0,
        Mode::Stream => 1,
    }
}

pub open spec fn data_type_bits(d: DataType) -> u16 {
    match d {
        DataType::Reserved => 0,
        DataType::Data => 2,
        DataType::Voice => 4,
        DataType::VoiceAndData => 6,
    }
}

pub open spec fn encryption_type_bits(e: EncryptionType) -> u16 {
    match e {
        EncryptionType::Unencrypted => 0,
        EncryptionType::Scrambler => 8,
        EncryptionType::Aes => 16,
        EncryptionType::Other => 24,
    }
}

/// The TYPE field `t` with the bits of `mask` replaced by `part`.
pub open spec fn type_with(t: u16, mask: u16, part: u16) -> u16 {
    (t & !mask) | part
}

/// The TYPE field `t` with channel access number `n` (its low four bits).
pub open spec fn type_with_can(t: u16, n: u8) -> u16 {
    type_with(t, 0x0780u16, (((n & 0xfu8) as u16) << 7u16) as u16)
}

/// The bytes of an LSF whose first 28 bytes are those of `s` with the TYPE
/// field replaced by `t`, followed by a fresh CRC.
pub open spec fn lsf_with_type(s: Seq<u8>, t: u16) -> Seq<u8> {
    with_crc(with_type(s, t))
}

/// `s` with the six bytes at `start` replaced by the encoding of `a`.
pub open spec fn with_address(s: Seq<u8>, start: int, a: Address) -> Seq<u8> {
    let b = be48_bytes(address_value(a));
    Seq::new(s.len(), |i: int| if start <= i < start + 6 { b[i - start] } else { s[i] })
}

/// The bytes of a new LSF: the given addresses and TYPE field, zero META, and
/// a valid CRC.
pub open spec fn new_lsf_bytes(source: Address, destination: Address, t: u16) -> Seq<u8> {
    with_crc(
        with_type(
            with_address(with_address(Seq::new(30, |i: int| 0u8), 6, source), 0, destination),
            t,
        ),
    )
}

proof fn lemma_type_bytes(s: Seq<u8>, t: u16)
    requires
        s.len() == 30,
    ensures
        lsf_type(with_type(s, t)) == t,
        lsf_type(with_crc(with_type(s, t))) == t,
        with_crc(with_type(s, t)).len() == 30,
        crc16(with_crc(with_type(s, t))) == 0,
        forall|i: int|
            0 <= i < 28 && i != 12 && i != 13 ==> #[trigger] with_crc(with_type(s, t))[i] == s[i],
{
    let hi = (t >> 8u16) as u8;
    let lo = t as u8;
    assert((((hi as u16) << 8u16) | (lo as u16)) == t) by (bit_vector)
        requires hi == (t >> 8u16) as u8, lo == t as u8;
    lemma_with_crc(with_type(s, t));
}

proof fn lemma_with_crc(s: Seq<u8>)
    requires
        s.len() >= 28,
    ensures
        with_crc(s).len() == 30,
        crc16(with_crc(s)) == 0,
        forall|i: int| 0 <= i < 28 ==> #[trigger] with_crc(s)[i] == s[i],
{
    lemma_crc_residue(s.subrange(0, 28));
}

/// An LSF whose CRC checks out holds the CRC of its first 28 bytes.
pub proof fn lemma_valid_lsf(s: Seq<u8>)
    requires
        s.len() == 30,
        crc16(s) == 0,
    ensures
        with_crc(s) == s,
{
    let body = s.subrange(0, 28);
    assert(body.push(s[28]).push(s[29]) =~= s);
    crate::crc::lemma_crc_zero_suffix(body, s[28], s[29]);
    assert(with_crc(s) =~= s);
}

/// A Link Setup Frame: DST, SRC, TYPE, META and CRC, 30 bytes in all.
#[derive(Debug, Clone, Copy, PartialEq, Eq)]
pub struct LsfFrame(pub [u8; 30]);

impl LsfFrame {
    /// A voice stream LSF from `source` to `destination`.
    pub fn new_voice(source: &Address, destination: &Address) -> (r: Self)
        ensures
            r.0@ == new_lsf_bytes(*source, *destination, 5u16),
            crc16(r.0@) == 0,
    {
        Self::new_with_type(source, destination, 5u16)
    }

    /// A data packet LSF from `source` to `destination`.
    pub fn new_packet(source: &Address, destination: &Address) -> (r: Self)
        ensures
            r.0@ == new_lsf_bytes(*source, *destination, 2u16),
            crc16(r.0@) == 0,
    {
        Self::new_with_type(source, destination, 2u16)
    }

    fn new_with_type(source: &Address, destination: &Address, t: u16) -> (r: Self)
        ensures
            r.0@ == new_lsf_bytes(*source, *destination, t),
            crc16(r.0@) == 0,
    {
        let mut out = Self([0u8; 30]);
        let src = encode_address(source);
        let dst = encode_address(destination);
        let mut i: usize = 0;
        while i < 6
            invariant
                0 <= i <= 6,
                src@ == be48_bytes(address_value(*source)),
                dst@ == be48_bytes(address_value(*destination)),
                forall|j: int| 0 <= j < i ==> out.0@[j] == dst@[j] && out.0@[6 + j] == src@[j],
                forall|j: int| 12 <= j < 30 ==> out.0@[j] == 0u8,
            decreases 6 - i,
        {
            out.0[i] = dst[i];
            out.0[6 + i] = src[i];
            i = i + 1;
        }
        let ghost zero = Seq::new(30, |i: int| 0u8);
        assert(out.0@ =~= with_address(with_address(zero, 6, *source), 0, *destination));
        out.write_type(t);
        proof {
            lemma_type_bytes(with_address(with_address(zero, 6, *source), 0, *destination), t);
        }
        out
    }

    /// CRC of the entire frame: zero if it is valid.
    pub fn check_crc(&self) -> (r: u16)
        ensures
            r == crc16(self.0@),
    {
        m17_crc(&self.0)
    }

    fn address_at(&self, start: usize) -> (r: Address)
        requires
            start == 0 || start == 6,
        ensures
            decoded_address(be48(self.0@.subrange(start as int, start as int + 6)), r),
    {
        let b = [
            self.0[start],
            self.0[start + 1],
            self.0[start + 2],
            self.0[start + 3],
            self.0[start + 4],
            self.0[start + 5],
        ];
        assert(b@ =~= self.0@.subrange(start as int, start as int + 6));
        decode_address(b)
    }

    pub fn destination(&self) -> (r: Address)
        ensures
            decoded_address(be48(self.0@.subrange(0, 6)), r),
    {
        self.address_at(0)
    }

    pub fn source(&self) -> (r: Address)
        ensures
            decoded_address(be48(self.0@.subrange(6, 12)), r),
    {
        self.address_at(6)
    }

    fn lsf_type(&self) -> (r: u16)
        ensures
            r == lsf_type(self.0@),
    {
        ((self.0[12] as u16) << 8u16) | (self.0[13] as u16)
    }

    pub fn mode(&self) -> (r: Mode)
        ensures
            r == mode_of(lsf_type(self.0@)),
    {
        if self.lsf_type() & 1u16 == 1u16 {
            Mode::Stream
        } else {
            Mode::Packet
        }
    }

    pub fn data_type(&self) -> (r: DataType)
        ensures
            r == data_type_of(lsf_type(self.0@)),
    {
        let d = (self.lsf_type() >> 1u16) & 3u16;
        if d == 0 {
            DataType::Reserved
        } else if d == 1 {
            DataType::Data
        } else if d == 2 {
            DataType::Voice
        } else {
            DataType::VoiceAndData
        }
    }

    pub fn encryption_type(&self) -> (r: EncryptionType)
        ensures
            r == encryption_type_of(lsf_type(self.0@)),
    {
        let e = (self.lsf_type() >> 3u16) & 3u16;
        if e == 0 {
            EncryptionType::Unencrypted
        } else if e == 1 {
            EncryptionType::Scrambler
        } else if e == 2 {
            EncryptionType::Aes
        } else {
            EncryptionType::Other
        }
    }

    pub fn channel_access_number(&self) -> (r: u8)
        ensures
            r == can_of(lsf_type(self.0@)),
            r <= 15,
    {
        let t = self.lsf_type();
        assert(((t >> 7u16) & 0xfu16) <= 15) by (bit_vector);
        ((t >> 7u16) & 0xfu16) as u8
    }

    pub fn meta(&self) -> (r: [u8; 14])
        ensures
            r@ == self.0@.subrange(14, 28),
    {
        let mut r = [0u8; 14];
        let mut i: usize = 0;
        while i < 14
            invariant
                0 <= i <= 14,
                forall|j: int| 0 <= j < i ==> r@[j] == self.0@[14 + j],
            decreases 14 - i,
        {
            r[i] = self.0[14 + i];
            i = i + 1;
        }
        assert(r@ =~= self.0@.subrange(14, 28));
        r
    }

    fn set_address_at(&mut self, start: usize, a: &Address)
        requires
            start == 0 || start == 6,
        ensures
            final(self).0@ == with_crc(with_address(old(self).0@, start as int, *a)),
    {
        let b = encode_address(a);
        let mut i: usize = 0;
        while i < 6
            invariant
                0 <= i <= 6,
                start == 0 || start == 6,
                b@ == be48_bytes(address_value(*a)),
                forall|j: int| 0 <= j < i ==> self.0@[start + j] == b@[j],
                forall|j: int|
                    0 <= j < 30 && !(start <= j < start + i) ==> self.0@[j] == old(self).0@[j],
            decreases 6 - i,
        {
            self.0[start + i] = b[i];
            i = i + 1;
        }
        assert(self.0@ =~= with_address(old(self).0@, start as int, *a));
        self.recalculate_crc();
    }

    pub fn set_destination(&mut self, destination: &Address)
        ensures
            final(self).0@ == with_crc(with_address(old(self).0@, 0, *destination)),
    {
        self.set_address_at(0, destination);
    }

    pub fn set_source(&mut self, source: &Address)
        ensures
            final(self).0@ == with_crc(with_address(old(self).0@, 6, *source)),
    {
        self.set_address_at(6, source);
    }

    fn write_type(&mut self, t: u16)
        ensures
            final(self).0@ == lsf_with_type(old(self).0@, t),
    {
        self.0[12] = (t >> 8u16) as u8;
        self.0[13] = t as u8;
        self.recalculate_crc();
    }

    pub fn set_mode(&mut self, mode: Mode)
        ensures
            final(self).0@ == lsf_with_type(
                old(self).0@,
                type_with(lsf_type(old(self).0@), 1u16, mode_bits(mode)),
            ),
    {
        let part: u16 = match mode {
            Mode::Packet => 0,
            Mode::Stream => 1,
        };
        let t = (self.lsf_type() & !1u16) | part;
        self.write_type(t);
    }

    pub fn set_data_type(&mut self, data_type: DataType)
        ensures
            final(self).0@ == lsf_with_type(
                old(self).0@,
                type_with(lsf_type(old(self).0@), 6u16, data_type_bits(data_type)),
            ),
    {
        let part: u16 = match data_type {
            DataType::Reserved => 0,
            DataType::Data => 2,
            DataType::Voice => 4,
            DataType::VoiceAndData => 6,
        };
        let t = (self.lsf_type() & !6u16) | part;
        self.write_type(t);
    }

    pub fn set_encryption_type(&mut self, encryption_type: EncryptionType)
        ensures
            final(self).0@ == lsf_with_type(
                old(self).0@,
                type_with(lsf_type(old(self).0@), 0x18u16, encryption_type_bits(encryption_type)),
            ),
    {
        let part: u16 = match encryption_type {
            EncryptionType::Unencrypted => 0,
            EncryptionType::Scrambler => 8,
            EncryptionType::Aes => 16,
            EncryptionType::Other => 24,
        };
        let t = (self.lsf_type() & !0x18u16) | part;
        self.write_type(t);
    }

    /// Set the channel access number to the low four bits of `number`.
    pub fn set_channel_access_number(&mut self, number: u8)
        ensures
            final(self).0@ == lsf_with_type(old(self).0@, type_with_can(lsf_type(old(self).0@), number)),
    {
        let t = (self.lsf_type() & !0x0780u16) | (((number & 0xfu8) as u16) << 7u16);
        self.write_type(t);
    }

    /// Rewrite the trailing CRC to match the first 28 bytes.
    pub fn recalculate_crc(&mut self)
        ensures
            final(self).0@ == with_crc(old(self).0@),
            crc16(final(self).0@) == 0,
    {
        let c = crc_of_range(&self.0, 0, 28);
        self.0[28] = (c >> 8u16) as u8;
        self.0[29] = c as u8;
        assert(self.0@ =~= with_crc(old(self).0@));
        proof {
            lemma_with_crc(old(self).0@);
        }
    }
}

/// Setting the channel access number to any value up to 15 and reading it
/// back gives that value. The other fields of TYPE, the addresses and META
/// are unchanged, and the CRC is valid.
pub proof fn lemma_can_round_trip(s: Seq<u8>, n: u8)
    requires
        s.len() == 30,
        n <= 15,
    ensures
        ({
            let r = lsf_with_type(s, type_with_can(lsf_type(s), n));
            let t = lsf_type(s);
            let u = lsf_type(r);
            &&& can_of(u) == n
            &&& mode_of(u) == mode_of(t)
            &&& data_type_of(u) == data_type_of(t)
            &&& encryption_type_of(u) == encryption_type_of(t)
            &&& u & !0x0780u16 == t & !0x0780u16
            &&& r.subrange(0, 12) == s.subrange(0, 12)
            &&& r.subrange(14, 28) == s.subrange(14, 28)
            &&& crc16(r) == 0
        }),
{
    let t = lsf_type(s);
    let u = type_with_can(t, n);
    lemma_type_bytes(s, u);
    let r = lsf_with_type(s, u);
    assert(r.subrange(0, 12) =~= s.subrange(0, 12));
    assert(r.subrange(14, 28) =~= s.subrange(14, 28));
    assert(((((u >> 7u16) & 0xfu16) as u8) == n) && (u & 1u16 == t & 1u16) && ((u >> 1u16) & 3u16
        == (t >> 1u16) & 3u16) && ((u >> 3u16) & 3u16 == (t >> 3u16) & 3u16) && (u & !0x0780u16
        == t & !0x0780u16)) by (bit_vector)
        requires
            u == (t & !0x0780u16) | (((n & 0xfu8) as u16) << 7u16),
            n <= 15,
    ;
}

/// A stream frame after FEC decoding.
#[derive(Debug, Clone, Copy, PartialEq, Eq)]
pub struct StreamFrame {
    /// Which LICH segment is given in this frame, from 0 to 5 inclusive
    pub lich_idx: u8,
    /// Decoded LICH segment
    pub lich_part: [u8; 5],
    /// Which frame in the transmission this is, starting from 0
    pub frame_number: u16,
    /// Is this the last frame in the transmission?
    pub end_of_stream: bool,
    /// Raw application data in this frame
    pub stream_data: [u8; 16],
}

impl StreamFrame {
    /// A frame with every field zero.
    pub fn empty() -> (r: Self)
        ensures
            r.lich_idx == 0,
            r.lich_part@ == seq![0u8; 5],
            r.frame_number == 0,
            !r.end_of_stream,
            r.stream_data@ == seq![0u8; 16],
    {
        let r = StreamFrame {
            lich_idx: 0,
            lich_part: [0u8; 5],
            frame_number: 0,
            end_of_stream: false,
            stream_data: [0u8; 16],
        };
        assert(r.lich_part@ =~= seq![0u8; 5]);
        assert(r.stream_data@ =~= seq![0u8; 16]);
        r
    }
}

/// One 25-byte chunk of a packet superframe.
#[derive(Debug, Clone, Copy, PartialEq, Eq)]
pub struct PacketFrame {
    /// Application packet payload (chunk)
    pub payload: [u8; 25],
    /// Frame counter: the index of a full frame, or the length of the final one.
    pub counter: PacketFrameCounter,
}

#[derive(Debug, Clone, Copy, PartialEq, Eq)]
pub enum PacketFrameCounter {
    /// A frame that is not the last: all 25 bytes of the payload are filled.
    /// The index runs from 0 to 31.
    Frame { index: usize },
    /// The final frame: the number of payload bytes that are filled.
    FinalFrame { payload_len: usize },
}

/// The six LICH slots of an LSF, filled as they arrive.
#[derive(Clone, Copy)]
pub struct LichCollection(pub [Option<[u8; 5]>; 6]);

/// The number of filled slots among the first `n`.
pub open spec fn filled_count(s: Seq<Option<[u8; 5]>>, n: int) -> nat
    decreases n,
{
    if n <= 0 {
        0
    } else {
        filled_count(s, n - 1) + if s[n - 1] is Some {
            1nat
        } else {
            0nat
        }
    }
}

/// The 30 bytes that six filled slots assemble into.
pub open spec fn assembled(s: Seq<Option<[u8; 5]>>) -> Seq<u8> {
    Seq::new(30, |k: int| s[k / 5]->Some_0@[k % 5])
}

/// Six LICH parts of an LSF, each in its own slot, assemble into that LSF;
/// so when the LSF was valid, the assembled candidate passes its CRC.
pub proof fn lemma_lich_assembly(lsf: Seq<u8>, slots: Seq<Option<[u8; 5]>>)
    requires
        lsf.len() == 30,
        slots.len() == 6,
        forall|i: int| 0 <= i < 6 ==> (#[trigger] slots[i]) is Some && slots[i]->Some_0@ == lsf.subrange(5 * i, 5 * i + 5),
    ensures
        assembled(slots) == lsf,
        crc16(lsf) == 0 ==> crc16(assembled(slots)) == 0,
{
    assert forall|k: int| 0 <= k < 30 implies assembled(slots)[k] == lsf[k] by {
        let i = k / 5;
        assert(slots[i]->Some_0@ == lsf.subrange(5 * i, 5 * i + 5));
        assert(lsf.subrange(5 * i, 5 * i + 5)[k % 5] == lsf[k]);
    }
    assert(assembled(slots) =~= lsf);
}

impl LichCollection {
    pub fn new() -> (r: Self)
        ensures
            forall|i: int| 0 <= i < 6 ==> r.0@[i] is None,
    {
        Self([None; 6])
    }

    /// How many slots are filled.
    pub fn valid_segments(&self) -> (r: usize)
        ensures
            r == filled_count(self.0@, 6),
    {
        let mut n: usize = 0;
        let mut i: usize = 0;
        while i < 6
            invariant
                0 <= i <= 6,
                n == filled_count(self.0@, i as int),
                n <= i,
            decreases 6 - i,
        {
            if self.0[i].is_some() {
                n = n + 1;
            }
            i = i + 1;
        }
        n
    }

    /// Fill slot `counter` with `part`. A counter beyond the last slot is ignored.
    pub fn set_segment(&mut self, counter: u8, part: [u8; 5])
        ensures
            counter < 6 ==> final(self).0@ == old(self).0@.update(counter as int, Some(part)),
            counter >= 6 ==> final(self).0@ == old(self).0@,
    {
        if counter < 6 {
            self.0[counter as usize] = Some(part);
        }
    }

    /// The assembled LSF candidate, once every slot is filled.
    pub fn try_assemble(&self) -> (r: Option<[u8; 30]>)
        ensures
            (forall|i: int| 0 <= i < 6 ==> (#[trigger] self.0@[i]) is Some) <==> r is Some,
            r is Some ==> r->Some_0@ == assembled(self.0@),
    {
        let mut out = [0u8; 30];
        let mut i: usize = 0;
        while i < 6
            invariant
                0 <= i <= 6,
                forall|j: int| 0 <= j < i ==> (#[trigger] self.0@[j]) is Some,
                forall|k: int| 0 <= k < 5 * i ==> out@[k] == assembled(self.0@)[k],
            decreases 6 - i,
        {
            match self.0[i] {
                None => {
                    return None;
                },
                Some(segment) => {
                    let mut j: usize = 0;
                    while j < 5
                        invariant
                            0 <= i < 6,
                            0 <= j <= 5,
                            self.0@[i as int] == Some(segment),
                            forall|k: int| 0 <= k < 5 * i + j ==> out@[k] == assembled(self.0@)[k],
                        decreases 5 - j,
                    {
                        out[i * 5 + j] = segment[j];
                        proof {
                            let k = 5 * i + j;
                            assert(k / 5 == i && k % 5 == j);
                        }
                        j = j + 1;
                    }
                },
            }
            i = i + 1;
        }
        assert(out@ =~= assembled(self.0@));
        Some(out)
    }
}

} // verus!
