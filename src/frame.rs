//! Frames as bytes before interleaving: the type-1 layouts of stream and
//! packet frames, and the 46 coded bytes of each frame type.

use vstd::prelude::*;
use crate::bits::bit_of;
use crate::fec::{Puncture, encode, encoded_bits, TYPE3_BITS};
use crate::lich::{encode_lich, lich_bytes};
use crate::protocol::{LsfFrame, PacketFrame, PacketFrameCounter, StreamFrame};

verus! {

/// The 18 type-1 bytes of a stream frame: frame number with the end of stream
/// flag on top, then the 16 data bytes.
pub open spec fn stream_type1_bytes(f: StreamFrame) -> Seq<u8> {
    let n = (f.frame_number | if f.end_of_stream { 0x8000u16 } else { 0u16 }) as u16;
    seq![(n >> 8u16) as u8, n as u8] + f.stream_data@
}

/// The 26 type-1 bytes of a packet frame: 25 payload bytes (zero past the
/// length of a final frame), then the counter byte: the index, or the final
/// length, in bits 7..3, and bit 2 set on the final frame.
pub open spec fn packet_type1_bytes(f: PacketFrame) -> Seq<u8> {
    match f.counter {
        PacketFrameCounter::Frame { index } => f.payload@ + seq![((index as u8) << 3u8) as u8],
        PacketFrameCounter::FinalFrame { payload_len } => Seq::new(
            25,
            |i: int| if i < payload_len { f.payload@[i] } else { 0u8 },
        ) + seq![(((payload_len as u8) << 3u8) | 0x04u8) as u8],
    }
}

/// The type-1 bytes of a stream frame.
pub fn stream_type1(frame: &StreamFrame) -> (r: [u8; 18])
    ensures
        r@ == stream_type1_bytes(*frame),
{
    let n = frame.frame_number | if frame.end_of_stream { 0x8000u16 } else { 0u16 };
    let mut r = [0u8; 18];
    r[0] = (n >> 8u16) as u8;
    r[1] = n as u8;
    let mut k: usize = 0;
    while k < 16
        invariant
            0 <= k <= 16,
            r@[0] == (n >> 8u16) as u8,
            r@[1] == n as u8,
            forall|q: int| 0 <= q < k ==> r@[2 + q] == frame.stream_data@[q],
        decreases 16 - k,
    {
        r[2 + k] = frame.stream_data[k];
        k = k + 1;
    }
    assert(r@ =~= stream_type1_bytes(*frame));
    r
}

/// Frame number, end of stream flag and data from type-1 stream bytes.
pub fn parse_stream_type1(type1: &[u8; 30]) -> (r: (u16, bool, [u8; 16]))
    ensures
        r.0 == (((type1@[0] as u16) << 8u16) | (type1@[1] as u16)) & 0x7fffu16,
        r.1 == (type1@[0] & 0x80u8 != 0),
        r.2@ == type1@.subrange(2, 18),
{
    let b0 = type1[0];
    let b1 = type1[1];
    let n = ((b0 as u16) << 8u16) | (b1 as u16);
    let mut data = [0u8; 16];
    let mut k: usize = 0;
    while k < 16
        invariant
            0 <= k <= 16,
            forall|q: int| 0 <= q < k ==> data@[q] == type1@[2 + q],
        decreases 16 - k,
    {
        data[k] = type1[2 + k];
        k = k + 1;
    }
    assert(data@ =~= type1@.subrange(2, 18));
    (n & 0x7fffu16, b0 & 0x80u8 != 0, data)
}

/// Whether a packet frame's counter can be carried: an index up to 31, or
/// a final length from 1 to 25.
pub open spec fn packet_frame_valid(f: PacketFrame) -> bool {
    match f.counter {
        PacketFrameCounter::Frame { index } => index <= 31,
        PacketFrameCounter::FinalFrame { payload_len } => 1 <= payload_len <= 25,
    }
}

/// The type-1 bytes of a packet frame.
pub fn packet_type1(frame: &PacketFrame) -> (r: [u8; 26])
    requires
        packet_frame_valid(*frame),
    ensures
        r@ == packet_type1_bytes(*frame),
{
    let mut r = [0u8; 26];
    let (len, counter) = match frame.counter {
        PacketFrameCounter::Frame { index } => (25usize, ((index as u8) << 3u8)),
        PacketFrameCounter::FinalFrame { payload_len } => (payload_len, ((payload_len as u8) << 3u8) | 0x04u8),
    };
    let mut k: usize = 0;
    while k < len
        invariant
            0 <= k <= len <= 25,
            forall|q: int| 0 <= q < k ==> r@[q] == frame.payload@[q],
            forall|q: int| k <= q < 26 ==> r@[q] == 0u8,
        decreases len - k,
    {
        r[k] = frame.payload[k];
        k = k + 1;
    }
    r[25] = counter;
    assert(r@ =~= packet_type1_bytes(*frame));
    r
}

/// The packet frame that type-1 bytes carry.
pub fn parse_packet_type1(type1: &[u8; 30]) -> (r: PacketFrame)
    ensures
        r.payload@ == type1@.subrange(0, 25),
        type1@[25] & 0x04u8 != 0 ==> r.counter == (PacketFrameCounter::FinalFrame { payload_len: (type1@[25] >> 3u8) as usize }),
        type1@[25] & 0x04u8 == 0 ==> r.counter == (PacketFrameCounter::Frame { index: (type1@[25] >> 3u8) as usize }),
{
    let mut payload = [0u8; 25];
    let mut k: usize = 0;
    while k < 25
        invariant
            0 <= k <= 25,
            forall|q: int| 0 <= q < k ==> payload@[q] == type1@[q],
        decreases 25 - k,
    {
        payload[k] = type1[k];
        k = k + 1;
    }
    assert(payload@ =~= type1@.subrange(0, 25));
    let number = (type1[25] >> 3u8) as usize;
    let counter = if type1[25] & 0x04u8 != 0 {
        PacketFrameCounter::FinalFrame { payload_len: number }
    } else {
        PacketFrameCounter::Frame { index: number }
    };
    PacketFrame { payload, counter }
}

/// Laying out a packet frame and parsing it back gives the frame, up to the
/// payload bytes past a final frame's length, which are zero.
pub proof fn lemma_packet_type1_round_trip(f: PacketFrame, t: Seq<u8>, g: PacketFrame)
    requires
        packet_frame_valid(f),
        t.len() == 30,
        t.subrange(0, 26) == packet_type1_bytes(f),
        g.payload@ == t.subrange(0, 25),
        t[25] & 0x04u8 != 0 ==> g.counter == (PacketFrameCounter::FinalFrame { payload_len: (t[25] >> 3u8) as usize }),
        t[25] & 0x04u8 == 0 ==> g.counter == (PacketFrameCounter::Frame { index: (t[25] >> 3u8) as usize }),
    ensures
        g.counter == f.counter,
        forall|i: int| 0 <= i < 25 ==> g.payload@[i] == packet_type1_bytes(f)[i],
{
    let b = packet_type1_bytes(f)[25];
    assert(t[25] == b) by {
        assert(t.subrange(0, 26)[25] == t[25]);
    }
    match f.counter {
        PacketFrameCounter::Frame { index } => {
            let x = index as u8;
            assert(x <= 31 ==> ((x << 3u8) & 0x04u8) == 0 && (x << 3u8) >> 3u8 == x) by (bit_vector);
        },
        PacketFrameCounter::FinalFrame { payload_len } => {
            let x = payload_len as u8;
            assert(x <= 31 ==> (((x << 3u8) | 0x04u8) & 0x04u8) != 0 && ((x << 3u8) | 0x04u8) >> 3u8 == x) by (bit_vector);
        },
    }
    assert forall|i: int| 0 <= i < 25 implies g.payload@[i] == packet_type1_bytes(f)[i] by {
        assert(t.subrange(0, 26)[i] == t[i]);
    }
}

/// Laying out a stream frame and parsing it back gives its frame number, end
/// of stream flag and data.
pub proof fn lemma_stream_type1_round_trip(f: StreamFrame, t: Seq<u8>)
    requires
        f.frame_number <= 0x7fff,
        t.len() == 30,
        t.subrange(0, 18) == stream_type1_bytes(f),
    ensures
        (((t[0] as u16) << 8u16) | (t[1] as u16)) & 0x7fffu16 == f.frame_number,
        (t[0] & 0x80u8 != 0) == f.end_of_stream,
        t.subrange(2, 18) == f.stream_data@,
{
    assert(t[0] == stream_type1_bytes(f)[0] && t[1] == stream_type1_bytes(f)[1]) by {
        assert(t.subrange(0, 18)[0] == t[0]);
        assert(t.subrange(0, 18)[1] == t[1]);
    }
    let fnum = f.frame_number;
    let e = f.end_of_stream;
    let n = (fnum | if e { 0x8000u16 } else { 0u16 }) as u16;
    let hi = (n >> 8u16) as u8;
    let lo = n as u8;
    assert((((hi as u16) << 8u16) | (lo as u16)) & 0x7fffu16 == fnum && ((hi & 0x80u8 != 0) == e)) by (bit_vector)
        requires
            fnum <= 0x7fff,
            n == (fnum | if e { 0x8000u16 } else { 0u16 }),
            hi == (n >> 8u16) as u8,
            lo == n as u8,
    ;
    assert(t.subrange(2, 18) =~= stream_type1_bytes(f).subrange(2, 18));
}

/// The 46 coded bytes of an LSF.
pub fn encode_lsf_type3(lsf: &LsfFrame) -> (r: [u8; 46])
    ensures
        ({
            let bits = encoded_bits(lsf.0@, 240, Puncture::P1, 244);
            &&& forall|i: int| 0 <= i < TYPE3_BITS && i < bits.len() ==> bit_of(r@, i) == bits[i]
            &&& forall|i: int| bits.len() <= i < TYPE3_BITS ==> bit_of(r@, i) == 0
        }),
{
    encode(&lsf.0, 240, Puncture::P1)
}

/// The 46 coded bytes of a stream frame: the encoded LICH, then the 34
/// coded bytes of the type-1 bytes.
pub fn encode_stream_type3(frame: &StreamFrame) -> (r: [u8; 46])
    requires
        frame.lich_idx < 8,
    ensures
        r@.subrange(0, 12) == lich_bytes(frame.lich_idx, frame.lich_part@),
        ({
            let bits = encoded_bits(stream_type1_bytes(*frame), 144, Puncture::P2, 148);
            forall|i: int| 0 <= i < 272 && i < bits.len() ==> bit_of(r@.subrange(12, 46), i) == bits[i]
        }),
{
    let lich = encode_lich(frame.lich_idx, &frame.lich_part);
    let type1 = stream_type1(frame);
    let coded = encode(&type1, 144, Puncture::P2);
    let mut r = [0u8; 46];
    let mut k: usize = 0;
    while k < 12
        invariant
            0 <= k <= 12,
            forall|q: int| 0 <= q < k ==> r@[q] == lich@[q],
        decreases 12 - k,
    {
        r[k] = lich[k];
        k = k + 1;
    }
    let mut k: usize = 0;
    while k < 34
        invariant
            0 <= k <= 34,
            forall|q: int| 0 <= q < 12 ==> r@[q] == lich@[q],
            forall|q: int| 0 <= q < k ==> r@[12 + q] == coded@[q],
        decreases 34 - k,
    {
        r[12 + k] = coded[k];
        k = k + 1;
    }
    assert(r@.subrange(0, 12) =~= lich@);
    let ghost bits = encoded_bits(stream_type1_bytes(*frame), 144, Puncture::P2, 148);
    assert(type1@ == stream_type1_bytes(*frame));
    assert forall|i: int| 0 <= i < 272 && i < bits.len() implies bit_of(r@.subrange(12, 46), i) == bits[i] by {
        assert(r@.subrange(12, 46)[i / 8] == coded@[i / 8]);
        assert(bit_of(coded@, i) == bits[i]);
    }
    r
}

/// The 46 coded bytes of a packet frame.
pub fn encode_packet_type3(frame: &PacketFrame) -> (r: [u8; 46])
    requires
        packet_frame_valid(*frame),
    ensures
        ({
            let bits = encoded_bits(packet_type1_bytes(*frame), 206, Puncture::P3, 210);
            &&& forall|i: int| 0 <= i < TYPE3_BITS && i < bits.len() ==> bit_of(r@, i) == bits[i]
            &&& forall|i: int| bits.len() <= i < TYPE3_BITS ==> bit_of(r@, i) == 0
        }),
{
    let type1 = packet_type1(frame);
    let r = encode(&type1, 206, Puncture::P3);
    assert(type1@ == packet_type1_bytes(*frame));
    r
}

} // verus!
