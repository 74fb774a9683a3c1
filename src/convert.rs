//! Conversion of voice streams between reflector datagrams and the LSF and
//! stream frames that cross the KISS boundary.

use vstd::prelude::*;
use crate::crc::be16;
use crate::protocol::{LsfFrame, StreamFrame, with_crc};
use crate::reflector::{
    Voice, MAGIC_VOICE, u16_at, with_crc_at, voice_intact, write_bytes, write_u16, write_crc_at,
};

verus! {

/// The frame number field of a stream frame: 15 bits and the end of stream
/// flag on top.
pub open spec fn frame_number_field(f: StreamFrame) -> u16 {
    ((f.frame_number & 0x7fffu16) | if f.end_of_stream { 0x8000u16 } else { 0u16 }) as u16
}

/// The bytes of the `Voice` datagram for stream frame `f` of the stream with
/// the given id and LSF, before its CRC.
pub open spec fn voice_body(id: u16, lsf: LsfFrame, f: StreamFrame) -> Seq<u8> {
    MAGIC_VOICE@ + be16(id) + lsf.0@.subrange(0, 28) + be16(frame_number_field(f)) + f.stream_data@
        + seq![0u8, 0u8]
}

/// The stream frame that `Voice` datagram bytes `v` give, as LICH part
/// `idx` of LSF `lsf`.
pub open spec fn stream_from_voice(v: Seq<u8>, lsf: Seq<u8>, idx: int, f: StreamFrame) -> bool {
    &&& f.lich_idx == idx
    &&& f.lich_part@ == lsf.subrange(idx * 5, idx * 5 + 5)
    &&& f.frame_number == u16_at(v, 34) & 0x7fffu16
    &&& f.end_of_stream == (u16_at(v, 34) & 0x8000u16 != 0)
    &&& f.stream_data@ == v.subrange(36, 52)
}

/// Accepts `Voice` datagrams from a reflector and turns them into LSF and
/// stream frames, rebuilding the LICH parts.
pub struct VoiceToRf {
    /// LSF of the stream in progress.
    lsf: Option<LsfFrame>,
    /// Which LICH part comes next, 0 to 5.
    lich_cnt: usize,
}

impl VoiceToRf {
    pub closed spec fn current_lsf(&self) -> Option<LsfFrame> {
        self.lsf
    }

    pub closed spec fn lich_counter(&self) -> int {
        self.lich_cnt as int
    }

    pub closed spec fn wf(&self) -> bool {
        self.lich_cnt < 6
    }

    pub fn new() -> (r: Self)
        ensures
            r.wf(),
            r.current_lsf() is None,
            r.lich_counter() == 0,
    {
        Self { lsf: None, lich_cnt: 0 }
    }

    /// For a `Voice` datagram, the frames that go on air: the LSF first when
    /// it starts a new or different stream, then the stream frame.
    pub fn next(&mut self, voice: &Voice) -> (r: (Option<LsfFrame>, StreamFrame))
        requires
            old(self).wf(),
        ensures
            final(self).wf(),
            ({
                let this_lsf = with_crc(voice.0@.subrange(6, 34));
                let new_stream = old(self).current_lsf() is None || old(self).current_lsf()->Some_0.0@ != this_lsf;
                let idx = if new_stream { 0 } else { old(self).lich_counter() };
                &&& new_stream ==> r.0 is Some && r.0->Some_0.0@ == this_lsf
                &&& !new_stream ==> r.0 is None
                &&& stream_from_voice(voice.0@, this_lsf, idx, r.1)
                &&& final(self).lich_counter() == (idx + 1) % 6
                &&& r.1.end_of_stream ==> final(self).current_lsf() is None
                &&& !r.1.end_of_stream ==> final(self).current_lsf() is Some
                    && final(self).current_lsf()->Some_0.0@ == this_lsf
            }),
    {
        let this_lsf = voice.link_setup_frame();
        let emit_lsf = match self.lsf {
            Some(l) => !lsf_equal(&l, &this_lsf),
            None => true,
        };
        if emit_lsf {
            self.lsf = Some(this_lsf);
            self.lich_cnt = 0;
        }
        let cnt = self.lich_cnt;
        let mut lich_part = [0u8; 5];
        let mut k: usize = 0;
        while k < 5
            invariant
                0 <= k <= 5,
                cnt < 6,
                forall|q: int| 0 <= q < k ==> lich_part@[q] == this_lsf.0@[cnt * 5 + q],
            decreases 5 - k,
        {
            lich_part[k] = this_lsf.0[cnt * 5 + k];
            k = k + 1;
        }
        let payload = voice.payload();
        let mut stream_data = [0u8; 16];
        let mut k: usize = 0;
        while k < 16
            invariant
                0 <= k <= 16,
                payload@ == voice.0@.subrange(36, 52),
                forall|q: int| 0 <= q < k ==> stream_data@[q] == payload@[q],
            decreases 16 - k,
        {
            stream_data[k] = payload[k];
            k = k + 1;
        }
        let stream = StreamFrame {
            lich_idx: cnt as u8,
            lich_part,
            frame_number: voice.frame_number(),
            end_of_stream: voice.is_end_of_stream(),
            stream_data,
        };
        assert(stream.lich_part@ =~= this_lsf.0@.subrange(cnt * 5, cnt * 5 + 5));
        assert(stream.stream_data@ =~= voice.0@.subrange(36, 52));
        let lsf = if emit_lsf { Some(this_lsf) } else { None };
        self.lich_cnt = (cnt + 1) % 6;
        if stream.end_of_stream {
            self.lsf = None;
        }
        (lsf, stream)
    }
}

/// Whether two LSFs hold the same bytes.
pub fn lsf_equal(a: &LsfFrame, b: &LsfFrame) -> (r: bool)
    ensures
        r == (a.0@ == b.0@),
{
    let mut k: usize = 0;
    while k < 30
        invariant
            0 <= k <= 30,
            forall|q: int| 0 <= q < k ==> a.0@[q] == b.0@[q],
        decreases 30 - k,
    {
        if a.0[k] != b.0[k] {
            return false;
        }
        k = k + 1;
    }
    assert(a.0@ =~= b.0@);
    true
}

/// Accepts LSF and stream frames and merges them into `Voice` datagrams for
/// a reflector. Reused across transmissions, it gives each new LSF a new
/// stream id.
pub struct RfToVoice {
    lsf: LsfFrame,
    stream_id: u16,
}

impl RfToVoice {
    pub closed spec fn lsf(&self) -> LsfFrame {
        self.lsf
    }

    pub closed spec fn stream_id(&self) -> u16 {
        self.stream_id
    }

    /// Start with `lsf`; the first stream id is taken from the LSF's CRC so
    /// that different stations tend to start from different ids.
    pub fn new(lsf: LsfFrame) -> (r: Self)
        ensures
            r.lsf() == lsf,
            r.stream_id() == u16_at(lsf.0@, 28),
    {
        let stream_id = ((lsf.0[28] as u16) << 8u16) | (lsf.0[29] as u16);
        Self { lsf, stream_id }
    }

    /// A new transmission: take its LSF and move to the next stream id.
    pub fn process_lsf(&mut self, lsf: LsfFrame)
        ensures
            final(self).lsf() == lsf,
            final(self).stream_id() == (if old(self).stream_id() == u16::MAX { 0 } else { old(self).stream_id() + 1 }),
    {
        self.lsf = lsf;
        self.stream_id = self.stream_id.wrapping_add(1);
    }

    /// The `Voice` datagram that carries `stream`.
    pub fn process_stream(&self, stream: &StreamFrame) -> (r: Voice)
        ensures
            r.1 == 54,
            r.0@ == with_crc_at(voice_body(self.stream_id(), self.lsf(), *stream), 54),
            voice_intact(r.0@, 54),
    {
        let mut v = Voice::new();
        let ghost b0 = v.0@;
        write_u16(&mut v.0, 4, self.stream_id);
        write_bytes(&mut v.0, 6, &self.lsf.0[0..28]);
        let field = (stream.frame_number & 0x7fffu16) | if stream.end_of_stream { 0x8000u16 } else { 0u16 };
        write_u16(&mut v.0, 34, field);
        write_bytes(&mut v.0, 36, &stream.stream_data);
        v.0[52] = 0;
        v.0[53] = 0;
        assert(v.0@ =~= voice_body(self.stream_id, self.lsf, *stream)) by {
            assert(b0.subrange(0, 4) == MAGIC_VOICE@);
            assert forall|i: int| 0 <= i < 4 implies v.0@[i] == MAGIC_VOICE@[i] by {
                assert(b0.subrange(0, 4)[i] == b0[i]);
            }
        }
        write_crc_at(&mut v.0, 54);
        assert(v.0@.subrange(0, 54) =~= v.0@);
        v
    }
}

/// A single-frame transmission survives the trip to a reflector datagram
/// and back: `VoiceToRf`, fresh, gives back the LSF and the stream frame
/// that `RfToVoice` was given, for any LSF whose CRC checks out.
pub proof fn lemma_reflector_round_trip(
    id: u16,
    lsf: LsfFrame,
    f: StreamFrame,
    out_lsf: LsfFrame,
    out: StreamFrame,
)
    requires
        crate::crc::crc16(lsf.0@) == 0,
        f.lich_idx == 0,
        f.lich_part@ == lsf.0@.subrange(0, 5),
        f.frame_number <= 0x7fff,
        out_lsf.0@ == with_crc(with_crc_at(voice_body(id, lsf, f), 54).subrange(6, 34)),
        stream_from_voice(with_crc_at(voice_body(id, lsf, f), 54), out_lsf.0@, 0, out),
    ensures
        out_lsf == lsf,
        out == f,
{
    let v = with_crc_at(voice_body(id, lsf, f), 54);
    let body = voice_body(id, lsf, f);
    assert(v.subrange(6, 34) =~= lsf.0@.subrange(0, 28));
    assert(lsf.0@.subrange(0, 28).subrange(0, 28) =~= lsf.0@.subrange(0, 28));
    crate::protocol::lemma_valid_lsf(lsf.0@);
    assert(out_lsf.0 =~= lsf.0);
    let fld = frame_number_field(f);
    assert(v[34] == body[34] && v[35] == body[35]);
    assert(body[34] == (fld >> 8u16) as u8 && body[35] == fld as u8);
    let hi = (fld >> 8u16) as u8;
    let lo = fld as u8;
    let n = f.frame_number;
    let e = f.end_of_stream;
    assert(((((hi as u16) << 8u16) | (lo as u16)) & 0x7fffu16) == n && (((((hi as u16)
        << 8u16) | (lo as u16)) & 0x8000u16 != 0) == e)) by (bit_vector)
        requires
            hi == (fld >> 8u16) as u8,
            lo == fld as u8,
            fld == ((n & 0x7fffu16) | if e { 0x8000u16 } else { 0u16 }),
            n <= 0x7fff,
    ;
    assert(out.lich_part =~= f.lich_part);
    assert(v.subrange(36, 52) =~= f.stream_data@);
    assert(out.stream_data =~= f.stream_data);
}

} // verus!
