//! The TNC: receives decoded frames and hands KISS frames to the host, takes
//! KISS frames from the host and hands frames to the modulator, with CSMA
//! channel access and PTT timing.

use vstd::prelude::*;
use crate::address::{Address, Callsign};
use crate::crc::{crc16, be16, crc_of_range};
use crate::kiss::{
    KissBuffer, KissCommand, KissFrame, PORT_PACKET_BASIC, PORT_PACKET_FULL, PORT_STREAM, FEND,
    escaped, header, stream_data_payload, MAX_FRAME_LEN, command_of, unescaped, buffer_frames,
    aligned, leading_frame_len, lemma_leading_frame,
};
use crate::modem::ModulatorFrame;
use crate::protocol::{
    Frame, LichCollection, LsfFrame, Mode, PacketFrame, PacketFrameCounter, StreamFrame,
    mode_of, lsf_type, assembled,
};

verus! {

/// Number of packets the transmit queue holds.
pub const PACKET_QUEUE_LEN: usize = 4;
/// Number of stream frames the transmit queue holds.
pub const STREAM_QUEUE_LEN: usize = 8;
/// Largest packet superframe: 33 frames of 25 bytes.
pub const PACKET_MAX: usize = 825;
/// Samples between two CSMA checks: one 40 ms frame at 48 kHz.
pub const CSMA_INTERVAL: u64 = 1920;

/// Source callsign of packets sent in basic mode: "M17RT-PKT".
pub open spec fn basic_source_bytes() -> Seq<u8> {
    seq![77u8, 49u8, 55u8, 82u8, 84u8, 45u8, 80u8, 75u8, 84u8]
}

/// The LSF bytes of packets sent in basic mode: from "M17RT-PKT" to
/// broadcast. (An LSF depends on an address only through its 48-bit value.)
pub open spec fn basic_lsf_bytes() -> Seq<u8> {
    crate::protocol::new_lsf_bytes(
        Address::Reserved(crate::address::base40_value(basic_source_bytes()) as u64),
        Address::Broadcast,
        2,
    )
}

/// The LSF holding the given 30 bytes.
pub open spec fn lsf_of(b: Seq<u8>) -> LsfFrame {
    choose|l: LsfFrame| l.0@ == b
}

/// The stream frame that a 26-byte KISS stream payload describes.
pub open spec fn stream_of(p: Seq<u8>) -> StreamFrame {
    choose|f: StreamFrame| parsed_stream_frame(p, f)
}

proof fn lemma_lsf_of(l: LsfFrame)
    ensures
        lsf_of(l.0@) == l,
{
    assert(exists|x: LsfFrame| #[trigger] x.0@ == l.0@) by {
        assert(l.0@ == l.0@);
    }
    let c = lsf_of(l.0@);
    assert(c.0 =~= l.0);
}

proof fn lemma_stream_of(p: Seq<u8>, f: StreamFrame)
    requires
        parsed_stream_frame(p, f),
    ensures
        stream_of(p) == f,
{
    assert(exists|x: StreamFrame| #[trigger] parsed_stream_frame(p, x));
    let c = stream_of(p);
    assert(c.lich_part =~= f.lich_part);
    assert(c.stream_data =~= f.stream_data);
}

/// A queued packet as seen from outside: its LSF still to send, its body,
/// and how much of the body has been sent.
pub open spec fn packet_view(p: PendingPacket) -> (Option<LsfFrame>, Seq<u8>, int) {
    (p.lsf(), p.data(), p.sent())
}

/// The transmit queues and settings that KISS frames from the host change.
pub struct TxSide {
    pub packets: Seq<(Option<LsfFrame>, Seq<u8>, int)>,
    pub streams: Seq<StreamFrame>,
    pub pending_lsf: Option<LsfFrame>,
    pub tx_delay: u8,
    pub full_duplex: bool,
}

pub open spec fn with_packet(m: TxSide, p: (Option<LsfFrame>, Seq<u8>, int)) -> TxSide {
    TxSide { packets: m.packets.push(p), streams: m.streams, pending_lsf: m.pending_lsf, tx_delay: m.tx_delay, full_duplex: m.full_duplex }
}

/// A DATA frame on the basic packet port: RAW prefix and CRC are added, and
/// the packet queued from "M17RT-PKT" to broadcast, unless too long or the
/// queue is full.
pub open spec fn basic_effect(m: TxSide, pl: Seq<u8>) -> TxSide {
    if pl.len() <= 822 && m.packets.len() < PACKET_QUEUE_LEN {
        with_packet(m, (Some(lsf_of(basic_lsf_bytes())), basic_packet_body(pl), 0))
    } else {
        m
    }
}

/// A DATA frame on the full packet port: a valid LSF and at least three body
/// bytes are queued (at most 855 payload bytes are read), unless the queue
/// is full.
pub open spec fn full_effect(m: TxSide, pl: Seq<u8>) -> TxSide {
    let n = if pl.len() < 855 { pl.len() as int } else { 855 };
    if n >= 33 && crc16(pl.subrange(0, 30)) == 0 && m.packets.len() < PACKET_QUEUE_LEN {
        with_packet(m, (Some(lsf_of(pl.subrange(0, 30))), pl.subrange(30, n), 0))
    } else {
        m
    }
}

/// A DATA frame on the stream port: a valid 30-byte LSF becomes the pending
/// stream LSF; a 26-byte stream frame whose CRC checks out is queued unless
/// the queue is full.
pub open spec fn stream_effect(m: TxSide, pl: Seq<u8>) -> TxSide {
    if pl.len() == 30 && crc16(pl) == 0 {
        TxSide { packets: m.packets, streams: m.streams, pending_lsf: Some(lsf_of(pl)), tx_delay: m.tx_delay, full_duplex: m.full_duplex }
    } else if pl.len() == 26 && crc16(pl.subrange(6, 26)) == 0 && m.streams.len() < STREAM_QUEUE_LEN {
        TxSide { packets: m.packets, streams: m.streams.push(stream_of(pl)), pending_lsf: m.pending_lsf, tx_delay: m.tx_delay, full_duplex: m.full_duplex }
    } else {
        m
    }
}

/// What one KISS frame from the host, with header byte `h` and unescaped
/// payload `pl`, does to the transmit side. Unsupported ports and commands
/// change nothing.
pub open spec fn kiss_effect(m: TxSide, h: u8, pl: Seq<u8>) -> TxSide {
    let port = h >> 4u8;
    let cmd = command_of(h & 0x0fu8);
    if port > 2 || cmd is None {
        m
    } else if cmd == Some(KissCommand::TxDelay) {
        if pl.len() == 1 {
            TxSide { packets: m.packets, streams: m.streams, pending_lsf: m.pending_lsf, tx_delay: pl[0], full_duplex: m.full_duplex }
        } else {
            m
        }
    } else if cmd == Some(KissCommand::FullDuplex) {
        if pl.len() == 1 {
            TxSide { packets: m.packets, streams: m.streams, pending_lsf: m.pending_lsf, tx_delay: m.tx_delay, full_duplex: pl[0] != 0 }
        } else {
            m
        }
    } else if cmd == Some(KissCommand::P) {
        m
    } else if port == PORT_PACKET_BASIC {
        basic_effect(m, pl)
    } else if port == PORT_PACKET_FULL {
        full_effect(m, pl)
    } else {
        stream_effect(m, pl)
    }
}

/// What a frame `FEND h payload FEND`, given by its bytes, does.
pub open spec fn frame_bytes_effect(m: TxSide, b: Seq<u8>) -> TxSide {
    kiss_effect(m, b[1], unescaped(b.subrange(2, b.len() - 1)))
}

/// The effect of a sequence of frames, applied in order.
pub open spec fn apply_frames(m: TxSide, fs: Seq<Seq<u8>>) -> TxSide
    decreases fs.len(),
{
    if fs.len() == 0 {
        m
    } else {
        apply_frames(frame_bytes_effect(m, fs[0]), fs.drop_first())
    }
}

/// What a KISS frame does: nothing unless it has a header byte and a closing FEND.
pub open spec fn kiss_frame_effect(m: TxSide, f: KissFrame) -> TxSide {
    if f.well_framed() {
        kiss_effect(m, f.data@[f.header_index()], f.payload())
    } else {
        m
    }
}

fn basic_packet_source() -> (r: Callsign)
    ensures
        r.0@ == basic_source_bytes(),
{
    let r = Callsign([77, 49, 55, 82, 84, 45, 80, 75, 84]);
    assert(r.0@ =~= basic_source_bytes());
    r
}

/// The body of a packet sent in basic mode: RAW type prefix, data, CRC.
pub open spec fn basic_packet_body(data: Seq<u8>) -> Seq<u8> {
    seq![0u8] + data + be16(crc16(seq![0u8] + data))
}

/// `f` is the stream frame that a 26-byte KISS stream payload describes.
pub open spec fn parsed_stream_frame(p: Seq<u8>, f: StreamFrame) -> bool {
    &&& f.lich_part@ == p.subrange(0, 5)
    &&& f.lich_idx == p[5] >> 5u8
    &&& f.frame_number == (((p[6] as u16) << 8u16) | (p[7] as u16)) & 0x7fffu16
    &&& f.end_of_stream == (p[6] & 0x80u8 != 0)
    &&& f.stream_data@ == p.subrange(8, 24)
}

/// Current RX or TX function of the TNC.
#[derive(Clone, Copy)]
pub enum State {
    /// Nothing happening. TX data may be queued, waiting for the channel.
    Idle,
    /// Stream data arrived without its LSF: assembling the LSF from LICH parts.
    RxAcquiringStream(LichCollection),
    /// Receiving an identified stream; `index` is the next frame number expected.
    RxStream { lsf: LsfFrame, index: u16 },
    /// Receiving a packet: `count` frames of 25 bytes so far.
    RxPacket { lsf: LsfFrame, packet: [u8; PACKET_MAX], count: usize },
    /// PTT is on for a stream transmission.
    TxStream,
    /// The last frame of the stream has been handed out.
    TxStreamSentEndOfStream,
    /// PTT is on for a packet transmission.
    TxPacket,
    /// End Of Transmission handed out; waiting to learn when it will be sent.
    TxEnding,
    /// PTT stays on until the given sample time.
    TxEndingAtTime(u64),
}

impl State {
    /// Receiving or idle: the TNC may start a transmission from here.
    pub open spec fn is_rx_or_idle(&self) -> bool {
        self is Idle || self is RxAcquiringStream || self is RxStream || self is RxPacket
    }
}

/// A packet waiting for transmission.
#[derive(Clone, Copy)]
pub struct PendingPacket {
    lsf: Option<LsfFrame>,
    app_data: [u8; PACKET_MAX],
    app_data_len: usize,
    app_data_transmitted: usize,
}

impl PendingPacket {
    pub closed spec fn lsf(&self) -> Option<LsfFrame> {
        self.lsf
    }

    /// The packet body: type prefix, data and CRC.
    pub closed spec fn data(&self) -> Seq<u8> {
        self.app_data@.subrange(0, self.app_data_len as int)
    }

    /// How many bytes of the body have been handed out.
    pub closed spec fn sent(&self) -> int {
        self.app_data_transmitted as int
    }

    pub closed spec fn wf(&self) -> bool {
        self.app_data_transmitted <= self.app_data_len <= PACKET_MAX
    }

    fn new() -> (r: Self)
        ensures
            r.wf(),
            r.lsf() is None,
            r.data() == Seq::<u8>::empty(),
            r.sent() == 0,
    {
        let r = Self { lsf: None, app_data: [0u8; PACKET_MAX], app_data_len: 0, app_data_transmitted: 0 };
        assert(r.data() =~= Seq::<u8>::empty());
        r
    }

    /// The next frame to transmit, LSF first, not counting preamble or EOT.
    /// `None` once every data frame has been handed out.
    fn next_frame(&mut self) -> (r: Option<ModulatorFrame>)
        requires
            old(self).wf(),
        ensures
            final(self).wf(),
            is_next_frame(*old(self), *final(self), r),
    {
        if self.lsf.is_some() {
            let lsf = self.lsf.unwrap();
            self.lsf = None;
            return Some(ModulatorFrame::Lsf(lsf));
        }
        if self.app_data_len == self.app_data_transmitted {
            return None;
        }
        let remaining = self.app_data_len - self.app_data_transmitted;
        let (counter, data_len) = if remaining <= 25 {
            (PacketFrameCounter::FinalFrame { payload_len: remaining }, remaining)
        } else {
            (PacketFrameCounter::Frame { index: self.app_data_transmitted / 25 }, 25)
        };
        let mut payload = [0u8; 25];
        let start = self.app_data_transmitted;
        let mut k: usize = 0;
        while k < data_len
            invariant
                0 <= k <= data_len <= 25,
                start + data_len <= self.app_data_len <= PACKET_MAX,
                forall|q: int| 0 <= q < k ==> payload@[q] == self.app_data@[start + q],
            decreases data_len - k,
        {
            payload[k] = self.app_data[start + k];
            k = k + 1;
        }
        self.app_data_transmitted = start + data_len;
        assert(payload@.subrange(0, data_len as int) =~= self.data().subrange(
            start as int,
            start + data_len,
        ));
        Some(ModulatorFrame::Packet(PacketFrame { payload, counter }))
    }
}

/// Whether a pending packet still has a frame to hand out.
pub open spec fn has_frame(p: PendingPacket) -> bool {
    p.lsf() is Some || p.sent() < p.data().len()
}

/// `r` is the next frame of packet `p`, which is `q` afterwards: the LSF
/// first, then 25-byte frames, and a final frame with what is left.
pub open spec fn is_next_frame(p: PendingPacket, q: PendingPacket, r: Option<ModulatorFrame>) -> bool {
    &&& q.data() == p.data()
    &&& q.lsf() is None
    &&& p.lsf() is Some ==> r == Some(ModulatorFrame::Lsf(p.lsf()->Some_0)) && q.sent() == p.sent()
    &&& p.lsf() is None && p.sent() >= p.data().len() ==> r is None && q.sent() == p.sent()
    &&& p.lsf() is None && p.sent() < p.data().len() ==> ({
        let rem = p.data().len() - p.sent();
        let n = if rem <= 25 { rem } else { 25 };
        &&& r is Some && r->Some_0 is Packet
        &&& r->Some_0->Packet_0.counter == if rem <= 25 {
            PacketFrameCounter::FinalFrame { payload_len: rem as usize }
        } else {
            PacketFrameCounter::Frame { index: (p.sent() / 25) as usize }
        }
        &&& r->Some_0->Packet_0.payload@.subrange(0, n) == p.data().subrange(p.sent(), p.sent() + n)
        &&& q.sent() == p.sent() + n
    })
}

/// The index of the first packet with a frame left, or the length if none has.
pub open spec fn first_with_frame(q: Seq<PendingPacket>) -> int
    decreases q.len(),
{
    if q.len() == 0 {
        0
    } else if has_frame(q[0]) {
        0
    } else {
        1 + first_with_frame(q.drop_first())
    }
}

/// A KISS frame on its way to the host, and how much of it has been read.
#[derive(Clone, Copy)]
struct OutgoingKiss {
    kiss_frame: KissFrame,
    sent: usize,
}

/// Handles the KISS protocol and frame management for a modulator and
/// demodulator.
pub struct SoftTnc {
    /// Frames the KISS commands that arrive from the host in arbitrary chunks.
    kiss_buffer: KissBuffer,
    /// KISS frame that is to be sent to the host.
    outgoing_kiss: Option<OutgoingKiss>,
    /// Current RX or TX function.
    state: State,
    /// Latest data carrier detect from the demodulator.
    dcd: bool,
    /// When CSMA deferred, the sample time of the next check.
    next_csma_check: Option<u64>,
    /// Current monotonic time, in samples.
    now: u64,
    /// Ring buffer of packets enqueued for transmission.
    packet_queue: [PendingPacket; PACKET_QUEUE_LEN],
    /// Next slot to fill.
    packet_next: usize,
    /// Packet being transmitted, or next to be.
    packet_curr: usize,
    /// Distinguishes a full queue from an empty one when `packet_next == packet_curr`.
    packet_full: bool,
    /// LSF of a stream we are going to start transmitting.
    stream_pending_lsf: Option<LsfFrame>,
    /// Ring buffer of stream frames enqueued for transmission.
    stream_queue: [StreamFrame; STREAM_QUEUE_LEN],
    /// Next slot to fill.
    stream_next: usize,
    /// Next frame to send.
    stream_curr: usize,
    /// Distinguishes a full queue from an empty one when `stream_next == stream_curr`.
    stream_full: bool,
    /// Whether PTT should be on.
    ptt: bool,
    /// TxDelay in units of 10 ms.
    tx_delay: u8,
    /// On a full duplex channel there is no need for DCD or CSMA.
    full_duplex: bool,
    /// State of the generator mixed into each p-persistence draw.
    rng: u32,
}

/// One xorshift step of the generator behind the CSMA draws.
pub open spec fn next_rand(x: u32) -> u32 {
    let a = x ^ (x << 13u32);
    let b = a ^ (a >> 17u32);
    b ^ (b << 5u32)
}

/// The p-persistence draw with probability 1/4: the low bits of the sample
/// clock mixed with the generator's next value.
pub open spec fn csma_coin(now: u64, r: u32) -> bool {
    (now ^ (next_rand(r) as u64)) & 3u64 == 3u64
}

fn next_rand_exec(x: u32) -> (r: u32)
    ensures
        r == next_rand(x),
{
    let a = x ^ (x << 13u32);
    let b = a ^ (a >> 17u32);
    b ^ (b << 5u32)
}

/// The KISS frame that announces a received stream.
pub open spec fn stream_setup_bytes(lsf: LsfFrame) -> Seq<u8> {
    seq![FEND, header(PORT_STREAM, 0)] + escaped(lsf.0@) + seq![FEND]
}

/// The KISS frame that carries one received stream frame.
pub open spec fn stream_data_bytes(f: StreamFrame) -> Seq<u8> {
    seq![FEND, header(PORT_STREAM, 0)] + escaped(stream_data_payload(f)) + seq![FEND]
}

/// The KISS frame that carries a received packet: LSF, then body.
pub open spec fn full_packet_bytes(lsf: LsfFrame, body: Seq<u8>) -> Seq<u8> {
    seq![FEND, header(PORT_PACKET_FULL, 0)] + escaped(lsf.0@ + body) + seq![FEND]
}

/// The packet bytes received so far in an `RxPacket` state.
pub open spec fn received_so_far(packet: [u8; PACKET_MAX], count: usize) -> Seq<u8> {
    packet@.subrange(0, 25 * count as int)
}

/// The frame number expected after `n`.
pub open spec fn after(n: u16) -> u16 {
    if n < u16::MAX {
        (n + 1) as u16
    } else {
        n
    }
}

/// A LICH collection holding only the given part.
pub open spec fn lich_only(idx: u8, part: [u8; 5]) -> Seq<Option<[u8; 5]>> {
    let empty = Seq::new(6, |i: int| None::<[u8; 5]>);
    if idx < 6 {
        empty.update(idx as int, Some(part))
    } else {
        empty
    }
}

/// The LICH collection after storing a part.
pub open spec fn lich_with(l: Seq<Option<[u8; 5]>>, idx: u8, part: [u8; 5]) -> Seq<Option<[u8; 5]>> {
    if idx < 6 {
        l.update(idx as int, Some(part))
    } else {
        l
    }
}

/// Whether every LICH slot is filled.
pub open spec fn lich_complete(l: Seq<Option<[u8; 5]>>) -> bool {
    forall|i: int| 0 <= i < 6 ==> (#[trigger] l[i]) is Some
}

fn stream_setup_frame(lsf: &LsfFrame) -> (r: KissFrame)
    ensures
        0 < r.len <= MAX_FRAME_LEN,
        r.bytes() == stream_setup_bytes(*lsf),
{
    match KissFrame::new_stream_setup(&lsf.0) {
        Ok(k) => {
            assert(k.bytes().len() == k.len);
            k
        },
        Err(_) => KissFrame::new_empty(),
    }
}

fn stream_data_frame(frame: &StreamFrame) -> (r: KissFrame)
    ensures
        0 < r.len <= MAX_FRAME_LEN,
        r.bytes() == stream_data_bytes(*frame),
{
    match KissFrame::new_stream_data(frame) {
        Ok(k) => {
            assert(k.bytes().len() == k.len);
            k
        },
        Err(_) => KissFrame::new_empty(),
    }
}

proof fn lemma_push_side(a: SoftTnc, b: SoftTnc, p: PendingPacket)
    requires
        b.packets() == a.packets().push(p),
        b.streams() == a.streams(),
        b.pending_stream_lsf() == a.pending_stream_lsf(),
        b.tx_delay_units() == a.tx_delay_units(),
        b.duplex() == a.duplex(),
    ensures
        b.tx_side() == with_packet(a.tx_side(), packet_view(p)),
{
    assert(b.tx_side().packets =~= a.tx_side().packets.push(packet_view(p)));
}

/// What `read_tx_frame` does: from TNC `o` to `n`, handing out `r`.
pub open spec fn tx_frame_post(o: SoftTnc, n: SoftTnc, r: Option<ModulatorFrame>) -> bool {
    &&& (n.outgoing() == o.outgoing())
    &&& (n.clock() == o.clock())
    &&& (n.carrier() == o.carrier())
    &&& (n.tx_delay_units() == o.tx_delay_units())
    &&& (n.duplex() == o.duplex())
    &&& (n.kiss_input() == o.kiss_input())
    // the generator advances exactly at each p-persistence draw
    &&& (n.rng_state() == if o.state().is_rx_or_idle() && (o.pending_stream_lsf() is Some
            || o.packets().len() > 0) && !o.duplex() && o.next_check() is Some
            && o.clock() >= o.next_check()->Some_0 && !o.carrier() {
            next_rand(o.rng_state())
        } else {
            o.rng_state()
        })
    // PTT is only ever switched on here.
    &&& (o.ptt_on() ==> n.ptt_on())
    // Carrier sense: a busy channel holds a half-duplex TNC back.
    &&& (o.state().is_rx_or_idle() && !o.duplex() && o.carrier() ==> r is None)
    // A transmission starts with exactly one preamble.
    &&& ((r is Some && r->Some_0 is Preamble) <==> (o.state().is_rx_or_idle() && r is Some))
    &&& (o.state().is_rx_or_idle() ==> ({
            let wants = o.pending_stream_lsf() is Some || o.packets().len() > 0;
            let granted = wants && (o.duplex() || match o.next_check() {
                None => !o.carrier(),
                Some(t) => o.clock() >= t && !o.carrier() && csma_coin(o.clock(), o.rng_state()),
            });
            let later = if o.clock() <= u64::MAX - CSMA_INTERVAL {
                (o.clock() + CSMA_INTERVAL) as u64
            } else {
                u64::MAX
            };
            &&& n.packets() == o.packets()
            &&& n.streams() == o.streams()
            &&& n.pending_stream_lsf() == o.pending_stream_lsf()
            &&& granted ==> r == Some(ModulatorFrame::Preamble { tx_delay: o.tx_delay_units() })
                && n.ptt_on()
                && (if o.pending_stream_lsf() is Some { n.state() is TxStream } else { n.state() is TxPacket })
                && (o.duplex() ==> n.next_check() == o.next_check())
                && (!o.duplex() ==> n.next_check() is None)
            &&& !granted ==> r is None && n.state() == o.state()
                && n.ptt_on() == o.ptt_on()
            &&& !wants ==> n.next_check() == o.next_check()
            &&& wants && !o.duplex() && o.next_check() is None && o.carrier()
                ==> n.next_check() == Some(later)
            &&& wants && !o.duplex() && o.next_check() is Some
                && o.clock() < o.next_check()->Some_0 ==> n.next_check() == o.next_check()
            &&& wants && !o.duplex() && o.next_check() is Some && !granted
                && o.clock() >= o.next_check()->Some_0 ==> n.next_check() == Some(later)
        }))
    &&& (o.state() is TxStream ==> ({
            &&& n.packets() == o.packets()
            &&& n.ptt_on() == o.ptt_on()
            &&& n.next_check() == o.next_check()
            &&& o.streams().len() == 0 ==> r is None && n.state() is TxStream
                && n.streams() == o.streams()
                && n.pending_stream_lsf() == o.pending_stream_lsf()
            &&& o.streams().len() > 0 && o.pending_stream_lsf() is Some ==> r == Some(
                ModulatorFrame::Lsf(o.pending_stream_lsf()->Some_0),
            ) && n.pending_stream_lsf() is None && n.streams() == o.streams()
                && n.state() is TxStream
            &&& o.streams().len() > 0 && o.pending_stream_lsf() is None ==> r == Some(
                ModulatorFrame::Stream(o.streams()[0]),
            ) && n.streams() == o.streams().drop_first()
                && n.pending_stream_lsf() is None
                && (if o.streams()[0].end_of_stream {
                    n.state() is TxStreamSentEndOfStream
                } else {
                    n.state() is TxStream
                })
        }))
    &&& (o.state() is TxStreamSentEndOfStream ==> r == Some(ModulatorFrame::EndOfTransmission)
            && n.state() is TxEnding && n.packets() == o.packets()
            && n.streams() == o.streams()
            && n.ptt_on() == o.ptt_on())
    &&& (o.state() is TxPacket ==> ({
            let q = o.packets();
            let k = first_with_frame(q);
            &&& n.streams() == o.streams()
            &&& n.pending_stream_lsf() == o.pending_stream_lsf()
            &&& n.ptt_on() == o.ptt_on()
            &&& n.next_check() == o.next_check()
            &&& q.len() == 0 ==> r is None && n.state() is TxPacket && n.packets() == q
            &&& q.len() > 0 && k >= q.len() ==> r == Some(ModulatorFrame::EndOfTransmission)
                && n.state() is TxEnding && n.packets().len() == 0
            &&& q.len() > 0 && k < q.len() ==> n.state() is TxPacket
                && n.packets().len() == q.len() - k
                && n.packets().drop_first() == q.subrange(k + 1, q.len() as int)
                && is_next_frame(q[k], n.packets()[0], r)
        }))
    &&& ((o.state() is TxEnding || o.state() is TxEndingAtTime) ==> r is None
            && n.state() == o.state() && n.packets() == o.packets()
            && n.streams() == o.streams()
            && n.ptt_on() == o.ptt_on())
}

/// What `set_tx_end_time` does: from TNC `o` to `n`, told that the
/// transmission ends `in_samples` from now.
pub open spec fn tx_end_post(o: SoftTnc, n: SoftTnc, in_samples: usize) -> bool {
    &&& (o.state() is TxEnding ==> n.state() is TxEndingAtTime
            && n.state()->TxEndingAtTime_0 == if o.clock() + in_samples <= u64::MAX {
                (o.clock() + in_samples) as u64
            } else {
                u64::MAX
            })
    &&& (!(o.state() is TxEnding) ==> n.state() == o.state())
    &&& (n.ptt_on() == o.ptt_on())
    &&& (n.clock() == o.clock())
    &&& (n.outgoing() == o.outgoing())
    &&& (n.packets() == o.packets())
    &&& (n.streams() == o.streams())
    &&& (n.tx_side() == o.tx_side())
    &&& (n.kiss_input() == o.kiss_input())
    &&& (n.carrier() == o.carrier())
    &&& (n.next_check() == o.next_check())
    &&& (n.rng_state() == o.rng_state())
}

/// Number of items in a ring buffer.
pub open spec fn ring_len(curr: usize, next: usize, full: bool, cap: usize) -> int {
    if full {
        cap as int
    } else if next >= curr {
        next - curr
    } else {
        next + cap - curr
    }
}

impl SoftTnc {
    pub closed spec fn state(&self) -> &State {
        &self.state
    }

    /// The bytes still to be read by the host, if a KISS frame is waiting.
    pub closed spec fn outgoing(&self) -> Option<Seq<u8>> {
        match self.outgoing_kiss {
            Some(o) => Some(o.kiss_frame.data@.subrange(o.sent as int, o.kiss_frame.len as int)),
            None => None,
        }
    }

    /// The packets queued for transmission, oldest first.
    pub closed spec fn packets(&self) -> Seq<PendingPacket> {
        Seq::new(
            ring_len(self.packet_curr, self.packet_next, self.packet_full, PACKET_QUEUE_LEN) as nat,
            |k: int| self.packet_queue@[(self.packet_curr + k) % (PACKET_QUEUE_LEN as int)],
        )
    }

    /// The stream frames queued for transmission, oldest first.
    pub closed spec fn streams(&self) -> Seq<StreamFrame> {
        Seq::new(
            ring_len(self.stream_curr, self.stream_next, self.stream_full, STREAM_QUEUE_LEN) as nat,
            |k: int| self.stream_queue@[(self.stream_curr + k) % (STREAM_QUEUE_LEN as int)],
        )
    }

    pub closed spec fn pending_stream_lsf(&self) -> Option<LsfFrame> {
        self.stream_pending_lsf
    }

    pub closed spec fn ptt_on(&self) -> bool {
        self.ptt
    }

    pub closed spec fn clock(&self) -> u64 {
        self.now
    }

    pub closed spec fn carrier(&self) -> bool {
        self.dcd
    }

    pub closed spec fn next_check(&self) -> Option<u64> {
        self.next_csma_check
    }

    pub closed spec fn tx_delay_units(&self) -> u8 {
        self.tx_delay
    }

    pub closed spec fn rng_state(&self) -> u32 {
        self.rng
    }

    pub closed spec fn duplex(&self) -> bool {
        self.full_duplex
    }

    pub closed spec fn kiss_input(&self) -> KissBuffer {
        self.kiss_buffer
    }

    /// The transmit queues and settings.
    pub open spec fn tx_side(&self) -> TxSide {
        TxSide {
            packets: self.packets().map_values(|p: PendingPacket| packet_view(p)),
            streams: self.streams(),
            pending_lsf: self.pending_stream_lsf(),
            tx_delay: self.tx_delay_units(),
            full_duplex: self.duplex(),
        }
    }

    /// Everything but the receive state and the KISS output is as in `o`.
    pub open spec fn same_tx_side(&self, o: &SoftTnc) -> bool {
        &&& self.packets() == o.packets()
        &&& self.streams() == o.streams()
        &&& self.pending_stream_lsf() == o.pending_stream_lsf()
        &&& self.ptt_on() == o.ptt_on()
        &&& self.clock() == o.clock()
        &&& self.carrier() == o.carrier()
        &&& self.next_check() == o.next_check()
        &&& self.tx_delay_units() == o.tx_delay_units()
        &&& self.duplex() == o.duplex()
        &&& self.rng_state() == o.rng_state()
    }

    pub closed spec fn wf(&self) -> bool {
        &&& self.kiss_buffer.wf()
        &&& self.packet_next < PACKET_QUEUE_LEN
        &&& self.packet_curr < PACKET_QUEUE_LEN
        &&& self.packet_full ==> self.packet_next == self.packet_curr
        &&& self.stream_next < STREAM_QUEUE_LEN
        &&& self.stream_curr < STREAM_QUEUE_LEN
        &&& self.stream_full ==> self.stream_next == self.stream_curr
        &&& forall|i: int| 0 <= i < PACKET_QUEUE_LEN ==> (#[trigger] self.packet_queue@[i]).wf()
        &&& match self.outgoing_kiss {
            Some(o) => o.sent < o.kiss_frame.len <= MAX_FRAME_LEN,
            None => true,
        }
        &&& match self.state {
            State::RxPacket { count, .. } => count <= 32,
            _ => true,
        }
    }

    pub fn new() -> (r: Self)
        ensures
            r.wf(),
            r.state() is Idle,
            r.outgoing() is None,
            r.packets().len() == 0,
            r.streams().len() == 0,
            r.pending_stream_lsf() is None,
            !r.ptt_on(),
            r.clock() == 0,
            !r.carrier(),
            r.next_check() is None,
            r.tx_delay_units() == 0,
            !r.duplex(),
            r.kiss_input().view() == Seq::<u8>::empty(),
            !r.kiss_input().pending(),
    {
        Self {
            kiss_buffer: KissBuffer::new(),
            outgoing_kiss: None,
            state: State::Idle,
            dcd: false,
            next_csma_check: None,
            now: 0,
            packet_queue: [PendingPacket::new(), PendingPacket::new(), PendingPacket::new(), PendingPacket::new()],
            packet_next: 0,
            packet_curr: 0,
            packet_full: false,
            stream_pending_lsf: None,
            stream_queue: [StreamFrame::empty(); STREAM_QUEUE_LEN],
            stream_next: 0,
            stream_curr: 0,
            stream_full: false,
            ptt: false,
            tx_delay: 0,
            full_duplex: false,
            rng: 0x2545_F491,
        }
    }

    fn kiss_to_host(&mut self, kiss_frame: KissFrame)
        requires
            old(self).wf(),
            0 < kiss_frame.len <= MAX_FRAME_LEN,
        ensures
            final(self).wf(),
            final(self).outgoing() == Some(kiss_frame.bytes()),
            final(self).state() == old(self).state(),
            final(self).same_tx_side(old(self)),
            final(self).kiss_input() == old(self).kiss_input(),
    {
        self.outgoing_kiss = Some(OutgoingKiss { kiss_frame, sent: 0 });
    }

    /// Process a frame decoded by the modem. Ignored while transmitting.
    pub fn handle_frame(&mut self, frame: Frame)
        requires
            old(self).wf(),
        ensures
            final(self).wf(),
            final(self).same_tx_side(old(self)),
            final(self).kiss_input() == old(self).kiss_input(),
            old(self).ptt_on() ==> final(self).state() == old(self).state() && final(self).outgoing()
                == old(self).outgoing(),
            !old(self).ptt_on() ==> match frame {
                Frame::Lsf(lsf) => if mode_of(lsf_type(lsf.0@)) is Packet {
                    &&& final(self).state() is RxPacket
                    &&& final(self).state()->RxPacket_lsf == lsf
                    &&& final(self).state()->RxPacket_count == 0
                    &&& final(self).outgoing() == old(self).outgoing()
                } else {
                    &&& final(self).state() == State::RxStream { lsf, index: 0 }
                    &&& final(self).outgoing() == Some(stream_setup_bytes(lsf))
                },
                Frame::Packet(p) => match *old(self).state() {
                    State::RxPacket { lsf, packet, count } => match p.counter {
                        PacketFrameCounter::Frame { index } => if index == count && index < 32 {
                            &&& final(self).state() is RxPacket
                            &&& final(self).state()->RxPacket_lsf == lsf
                            &&& final(self).state()->RxPacket_count == count + 1
                            &&& received_so_far(final(self).state()->RxPacket_packet, (count + 1) as usize)
                                == received_so_far(packet, count) + p.payload@
                            &&& final(self).outgoing() == old(self).outgoing()
                        } else {
                            final(self).state() is Idle && final(self).outgoing() == old(self).outgoing()
                        },
                        PacketFrameCounter::FinalFrame { payload_len } => if payload_len <= 25 {
                            &&& final(self).state() is Idle
                            &&& final(self).outgoing() == Some(full_packet_bytes(
                                lsf,
                                received_so_far(packet, count) + p.payload@.subrange(0, payload_len as int),
                            ))
                        } else {
                            final(self).state() is Idle && final(self).outgoing() == old(self).outgoing()
                        },
                    },
                    _ => final(self).state() is Idle && final(self).outgoing() == old(self).outgoing(),
                },
                Frame::Stream(s) => match *old(self).state() {
                    State::RxStream { lsf, index } => if s.frame_number < index {
                        &&& final(self).state() is RxAcquiringStream
                        &&& final(self).state()->RxAcquiringStream_0.0@ == lich_only(s.lich_idx, s.lich_part)
                        &&& final(self).outgoing() == old(self).outgoing()
                    } else {
                        &&& final(self).outgoing() == Some(stream_data_bytes(s))
                        &&& s.end_of_stream ==> final(self).state() is Idle
                        &&& !s.end_of_stream ==> final(self).state() == State::RxStream {
                            lsf,
                            index: after(s.frame_number),
                        }
                    },
                    State::RxAcquiringStream(lich) => {
                        let l = lich_with(lich.0@, s.lich_idx, s.lich_part);
                        if lich_complete(l) && crc16(assembled(l)) == 0 {
                            &&& final(self).state() is RxStream
                            &&& final(self).state()->RxStream_lsf.0@ == assembled(l)
                            &&& final(self).state()->RxStream_index == after(s.frame_number)
                            &&& final(self).outgoing() == Some(stream_setup_bytes(final(self).state()->RxStream_lsf))
                        } else {
                            &&& final(self).state() is RxAcquiringStream
                            &&& final(self).state()->RxAcquiringStream_0.0@ == l
                            &&& final(self).outgoing() == old(self).outgoing()
                        }
                    },
                    _ => {
                        &&& final(self).state() is RxAcquiringStream
                        &&& final(self).state()->RxAcquiringStream_0.0@ == lich_only(s.lich_idx, s.lich_part)
                        &&& final(self).outgoing() == old(self).outgoing()
                    },
                },
            },
    {
        if self.ptt {
            return;
        }
        match frame {
            Frame::Lsf(lsf) => self.handle_lsf(lsf),
            Frame::Packet(p) => self.handle_packet(p),
            Frame::Stream(s) => self.handle_stream(s),
        }
    }

    fn handle_lsf(&mut self, lsf: LsfFrame)
        requires
            old(self).wf(),
            !old(self).ptt_on(),
        ensures
            final(self).wf(),
            final(self).same_tx_side(old(self)),
            final(self).kiss_input() == old(self).kiss_input(),
            if mode_of(lsf_type(lsf.0@)) is Packet {
                &&& final(self).state() is RxPacket
                &&& final(self).state()->RxPacket_lsf == lsf
                &&& final(self).state()->RxPacket_count == 0
                &&& final(self).outgoing() == old(self).outgoing()
            } else {
                &&& final(self).state() == State::RxStream { lsf, index: 0 }
                &&& final(self).outgoing() == Some(stream_setup_bytes(lsf))
            },
    {
        match lsf.mode() {
            Mode::Packet => {
                self.state = State::RxPacket { lsf, packet: [0u8; PACKET_MAX], count: 0 };
            },
            Mode::Stream => {
                let kiss = stream_setup_frame(&lsf);
                self.kiss_to_host(kiss);
                self.state = State::RxStream { lsf, index: 0 };
            },
        }
    }

    fn handle_packet(&mut self, packet_frame: PacketFrame)
        requires
            old(self).wf(),
            !old(self).ptt_on(),
        ensures
            final(self).wf(),
            final(self).same_tx_side(old(self)),
            final(self).kiss_input() == old(self).kiss_input(),
            match *old(self).state() {
                State::RxPacket { lsf, packet, count } => match packet_frame.counter {
                    PacketFrameCounter::Frame { index } => if index == count && index < 32 {
                        &&& final(self).state() is RxPacket
                        &&& final(self).state()->RxPacket_lsf == lsf
                        &&& final(self).state()->RxPacket_count == count + 1
                        &&& received_so_far(final(self).state()->RxPacket_packet, (count + 1) as usize)
                            == received_so_far(packet, count) + packet_frame.payload@
                        &&& final(self).outgoing() == old(self).outgoing()
                    } else {
                        final(self).state() is Idle && final(self).outgoing() == old(self).outgoing()
                    },
                    PacketFrameCounter::FinalFrame { payload_len } => if payload_len <= 25 {
                        &&& final(self).state() is Idle
                        &&& final(self).outgoing() == Some(full_packet_bytes(
                            lsf,
                            received_so_far(packet, count) + packet_frame.payload@.subrange(0, payload_len as int),
                        ))
                    } else {
                        final(self).state() is Idle && final(self).outgoing() == old(self).outgoing()
                    },
                },
                _ => final(self).state() is Idle && final(self).outgoing() == old(self).outgoing(),
            },
    {
        match self.state {
            State::RxPacket { lsf, packet, count } => {
                let mut packet = packet;
                match packet_frame.counter {
                    PacketFrameCounter::Frame { index } => {
                        if index == count && index < 32 {
                            let start = 25 * index;
                            let mut k: usize = 0;
                            while k < 25
                                invariant
                                    0 <= k <= 25,
                                    start == 25 * count,
                                    count < 32,
                                    forall|q: int| 0 <= q < start ==> packet@[q] == old(self).state()->RxPacket_packet@[q],
                                    forall|q: int| 0 <= q < k ==> packet@[start + q] == packet_frame.payload@[q],
                                decreases 25 - k,
                            {
                                packet[start + k] = packet_frame.payload[k];
                                k = k + 1;
                            }
                            assert(received_so_far(packet, (count + 1) as usize) =~= received_so_far(
                                old(self).state()->RxPacket_packet,
                                count,
                            ) + packet_frame.payload@);
                            self.state = State::RxPacket { lsf, packet, count: count + 1 };
                        } else {
                            self.state = State::Idle;
                        }
                    },
                    PacketFrameCounter::FinalFrame { payload_len } => {
                        if payload_len <= 25 {
                            let start = 25 * count;
                            let mut k: usize = 0;
                            while k < payload_len
                                invariant
                                    0 <= k <= payload_len <= 25,
                                    start == 25 * count,
                                    count <= 32,
                                    forall|q: int| 0 <= q < start ==> packet@[q] == old(self).state()->RxPacket_packet@[q],
                                    forall|q: int| 0 <= q < k ==> packet@[start + q] == packet_frame.payload@[q],
                                decreases payload_len - k,
                            {
                                packet[start + k] = packet_frame.payload[k];
                                k = k + 1;
                            }
                            let end = start + payload_len;
                            let body = &packet[0..end];
                            assert(body@ =~= received_so_far(old(self).state()->RxPacket_packet, count)
                                + packet_frame.payload@.subrange(0, payload_len as int));
                            match KissFrame::new_full_packet(&lsf.0, body) {
                                Ok(kiss) => {
                                    assert(kiss.bytes().len() == kiss.len);
                                    self.kiss_to_host(kiss);
                                },
                                Err(_) => {},
                            }
                        }
                        self.state = State::Idle;
                    },
                }
            },
            _ => {
                self.state = State::Idle;
            },
        }
    }

    fn handle_stream(&mut self, stream: StreamFrame)
        requires
            old(self).wf(),
            !old(self).ptt_on(),
        ensures
            final(self).wf(),
            final(self).same_tx_side(old(self)),
            final(self).kiss_input() == old(self).kiss_input(),
            match *old(self).state() {
                State::RxStream { lsf, index } => if stream.frame_number < index {
                    &&& final(self).state() is RxAcquiringStream
                    &&& final(self).state()->RxAcquiringStream_0.0@ == lich_only(stream.lich_idx, stream.lich_part)
                    &&& final(self).outgoing() == old(self).outgoing()
                } else {
                    &&& final(self).outgoing() == Some(stream_data_bytes(stream))
                    &&& stream.end_of_stream ==> final(self).state() is Idle
                    &&& !stream.end_of_stream ==> final(self).state() == State::RxStream {
                        lsf,
                        index: after(stream.frame_number),
                    }
                },
                State::RxAcquiringStream(lich) => {
                    let l = lich_with(lich.0@, stream.lich_idx, stream.lich_part);
                    if lich_complete(l) && crc16(assembled(l)) == 0 {
                        &&& final(self).state() is RxStream
                        &&& final(self).state()->RxStream_lsf.0@ == assembled(l)
                        &&& final(self).state()->RxStream_index == after(stream.frame_number)
                        &&& final(self).outgoing() == Some(stream_setup_bytes(final(self).state()->RxStream_lsf))
                    } else {
                        &&& final(self).state() is RxAcquiringStream
                        &&& final(self).state()->RxAcquiringStream_0.0@ == l
                        &&& final(self).outgoing() == old(self).outgoing()
                    }
                },
                _ => {
                    &&& final(self).state() is RxAcquiringStream
                    &&& final(self).state()->RxAcquiringStream_0.0@ == lich_only(stream.lich_idx, stream.lich_part)
                    &&& final(self).outgoing() == old(self).outgoing()
                },
            },
    {
        match self.state {
            State::RxStream { lsf, index } => {
                if stream.frame_number < index {
                    let mut lich = LichCollection::new();
                    lich.set_segment(stream.lich_idx, stream.lich_part);
                    assert(lich.0@ =~= lich_only(stream.lich_idx, stream.lich_part));
                    self.state = State::RxAcquiringStream(lich);
                } else {
                    let kiss = stream_data_frame(&stream);
                    self.kiss_to_host(kiss);
                    if stream.end_of_stream {
                        self.state = State::Idle;
                    } else {
                        self.state = State::RxStream { lsf, index: stream.frame_number.saturating_add(1) };
                    }
                }
            },
            State::RxAcquiringStream(lich) => {
                let mut lich = lich;
                lich.set_segment(stream.lich_idx, stream.lich_part);
                match lich.try_assemble() {
                    Some(bytes) => {
                        let lsf = LsfFrame(bytes);
                        if lsf.check_crc() == 0 {
                            let kiss = stream_setup_frame(&lsf);
                            self.kiss_to_host(kiss);
                            self.state = State::RxStream { lsf, index: stream.frame_number.saturating_add(1) };
                        } else {
                            self.state = State::RxAcquiringStream(lich);
                        }
                    },
                    None => {
                        self.state = State::RxAcquiringStream(lich);
                    },
                }
            },
            _ => {
                let mut lich = LichCollection::new();
                lich.set_segment(stream.lich_idx, stream.lich_part);
                assert(lich.0@ =~= lich_only(stream.lich_idx, stream.lich_part));
                self.state = State::RxAcquiringStream(lich);
            },
        }
    }

    pub fn set_data_carrier_detect(&mut self, dcd: bool)
        requires
            old(self).wf(),
        ensures
            final(self).wf(),
            final(self).carrier() == dcd,
            final(self).state() == old(self).state(),
            final(self).outgoing() == old(self).outgoing(),
            final(self).packets() == old(self).packets(),
            final(self).streams() == old(self).streams(),
            final(self).ptt_on() == old(self).ptt_on(),
            final(self).clock() == old(self).clock(),
            final(self).next_check() == old(self).next_check(),
            final(self).rng_state() == old(self).rng_state(),
            final(self).tx_side() == old(self).tx_side(),
            final(self).kiss_input() == old(self).kiss_input(),
    {
        self.dcd = dcd;
    }

    /// Advance the clock. Once the time given by the modulator for the end
    /// of a transmission is reached, PTT is released.
    pub fn set_now(&mut self, now_samples: u64)
        requires
            old(self).wf(),
        ensures
            final(self).wf(),
            final(self).clock() == now_samples,
            (old(self).state() is TxEndingAtTime && now_samples >= old(self).state()->TxEndingAtTime_0)
                ==> final(self).state() is Idle && !final(self).ptt_on(),
            !(old(self).state() is TxEndingAtTime && now_samples >= old(self).state()->TxEndingAtTime_0)
                ==> final(self).state() == old(self).state() && final(self).ptt_on() == old(self).ptt_on(),
            final(self).outgoing() == old(self).outgoing(),
            final(self).packets() == old(self).packets(),
            final(self).streams() == old(self).streams(),
            final(self).tx_side() == old(self).tx_side(),
            final(self).kiss_input() == old(self).kiss_input(),
            final(self).carrier() == old(self).carrier(),
            final(self).next_check() == old(self).next_check(),
            final(self).rng_state() == old(self).rng_state(),
    {
        self.now = now_samples;
        if let State::TxEndingAtTime(time) = self.state {
            if now_samples >= time {
                self.ptt = false;
                self.state = State::Idle;
            }
        }
    }

    /// Whether PTT should be on.
    pub fn ptt(&self) -> (r: bool)
        ensures
            r == self.ptt_on(),
    {
        self.ptt
    }

    /// The modulator reports that the End Of Transmission will have been
    /// sent `in_samples` from now.
    pub fn set_tx_end_time(&mut self, in_samples: usize)
        requires
            old(self).wf(),
        ensures
            final(self).wf(),
            tx_end_post(*old(self), *final(self), in_samples),
    {
        if let State::TxEnding = self.state {
            self.state = State::TxEndingAtTime(self.now.saturating_add(in_samples as u64));
        }
    }

    /// Read the KISS frame waiting for the host into `target_buf`, as much as
    /// fits; return how many bytes were read. Zero when nothing is waiting.
    pub fn read_kiss(&mut self, target_buf: &mut [u8]) -> (r: usize)
        requires
            old(self).wf(),
        ensures
            final(self).wf(),
            final(target_buf)@.len() == old(target_buf)@.len(),
            final(target_buf)@.subrange(r as int, final(target_buf)@.len() as int) == old(target_buf)@.subrange(
                r as int,
                old(target_buf)@.len() as int,
            ),
            old(self).outgoing() is None ==> r == 0 && final(self).outgoing() is None,
            old(self).outgoing() is Some ==> ({
                let rest = old(self).outgoing()->Some_0;
                &&& r == if rest.len() < old(target_buf)@.len() { rest.len() as int } else { old(target_buf)@.len() as int }
                &&& final(target_buf)@.subrange(0, r as int) == rest.subrange(0, r as int)
                &&& r == rest.len() ==> final(self).outgoing() is None
                &&& r < rest.len() ==> final(self).outgoing() == Some(rest.subrange(r as int, rest.len() as int))
            }),
            final(self).state() == old(self).state(),
            final(self).same_tx_side(old(self)),
            final(self).kiss_input() == old(self).kiss_input(),
    {
        match self.outgoing_kiss {
            Some(outgoing) => {
                let avail = outgoing.kiss_frame.len - outgoing.sent;
                let n = if avail < target_buf.len() { avail } else { target_buf.len() };
                let mut k: usize = 0;
                while k < n
                    invariant
                        0 <= k <= n <= target_buf@.len(),
                        target_buf@.len() == old(target_buf)@.len(),
                        outgoing.sent + n <= outgoing.kiss_frame.len <= MAX_FRAME_LEN,
                        forall|q: int| 0 <= q < k ==> target_buf@[q] == outgoing.kiss_frame.data@[outgoing.sent + q],
                        forall|q: int| k <= q < target_buf@.len() ==> target_buf@[q] == old(target_buf)@[q],
                    decreases n - k,
                {
                    target_buf[k] = outgoing.kiss_frame.data[outgoing.sent + k];
                    k = k + 1;
                }
                let sent = outgoing.sent + n;
                if sent == outgoing.kiss_frame.len {
                    self.outgoing_kiss = None;
                } else {
                    self.outgoing_kiss = Some(OutgoingKiss { kiss_frame: outgoing.kiss_frame, sent });
                    assert(self.outgoing()->Some_0 =~= old(self).outgoing()->Some_0.subrange(n as int, avail as int));
                }
                assert(target_buf@.subrange(0, n as int) =~= old(self).outgoing()->Some_0.subrange(0, n as int));
                assert(target_buf@.subrange(n as int, target_buf@.len() as int) =~= old(target_buf)@.subrange(
                    n as int,
                    old(target_buf)@.len() as int,
                ));
                n
            },
            None => {
                assert(target_buf@.subrange(0, target_buf@.len() as int) =~= old(target_buf)@.subrange(
                    0,
                    old(target_buf)@.len() as int,
                ));
                0
            },
        }
    }
}


impl SoftTnc {
    fn packet_push(&mut self, p: PendingPacket)
        requires
            old(self).wf(),
            !old(self).packet_full,
            p.wf(),
        ensures
            final(self).wf(),
            final(self).packets() == old(self).packets().push(p),
            final(self).state() == old(self).state(),
            final(self).outgoing() == old(self).outgoing(),
            final(self).streams() == old(self).streams(),
            final(self).pending_stream_lsf() == old(self).pending_stream_lsf(),
            final(self).ptt_on() == old(self).ptt_on(),
            final(self).clock() == old(self).clock(),
            final(self).carrier() == old(self).carrier(),
            final(self).next_check() == old(self).next_check(),
            final(self).rng_state() == old(self).rng_state(),
            final(self).tx_delay_units() == old(self).tx_delay_units(),
            final(self).duplex() == old(self).duplex(),
            final(self).kiss_input() == old(self).kiss_input(),
    {
        let ghost q = self.packets();
        self.packet_queue[self.packet_next] = p;
        self.packet_next = (self.packet_next + 1) % PACKET_QUEUE_LEN;
        if self.packet_next == self.packet_curr {
            self.packet_full = true;
        }
        assert(self.packets() =~= q.push(p));
    }

    fn packet_pop(&mut self)
        requires
            old(self).wf(),
            old(self).packets().len() > 0,
        ensures
            final(self).wf(),
            final(self).packets() == old(self).packets().drop_first(),
            final(self).state() == old(self).state(),
            final(self).outgoing() == old(self).outgoing(),
            final(self).streams() == old(self).streams(),
            final(self).pending_stream_lsf() == old(self).pending_stream_lsf(),
            final(self).ptt_on() == old(self).ptt_on(),
            final(self).clock() == old(self).clock(),
            final(self).carrier() == old(self).carrier(),
            final(self).next_check() == old(self).next_check(),
            final(self).rng_state() == old(self).rng_state(),
            final(self).tx_delay_units() == old(self).tx_delay_units(),
            final(self).duplex() == old(self).duplex(),
            final(self).kiss_input() == old(self).kiss_input(),
    {
        let ghost q = self.packets();
        self.packet_curr = (self.packet_curr + 1) % PACKET_QUEUE_LEN;
        self.packet_full = false;
        assert(self.packets() =~= q.drop_first());
    }

    fn stream_push(&mut self, f: StreamFrame)
        requires
            old(self).wf(),
            !old(self).stream_full,
        ensures
            final(self).wf(),
            final(self).streams() == old(self).streams().push(f),
            final(self).state() == old(self).state(),
            final(self).outgoing() == old(self).outgoing(),
            final(self).packets() == old(self).packets(),
            final(self).pending_stream_lsf() == old(self).pending_stream_lsf(),
            final(self).ptt_on() == old(self).ptt_on(),
            final(self).clock() == old(self).clock(),
            final(self).carrier() == old(self).carrier(),
            final(self).next_check() == old(self).next_check(),
            final(self).rng_state() == old(self).rng_state(),
            final(self).tx_delay_units() == old(self).tx_delay_units(),
            final(self).duplex() == old(self).duplex(),
            final(self).kiss_input() == old(self).kiss_input(),
    {
        let ghost q = self.streams();
        self.stream_queue[self.stream_next] = f;
        self.stream_next = (self.stream_next + 1) % STREAM_QUEUE_LEN;
        if self.stream_next == self.stream_curr {
            self.stream_full = true;
        }
        assert(self.streams() =~= q.push(f));
    }

    fn stream_pop(&mut self) -> (r: StreamFrame)
        requires
            old(self).wf(),
            old(self).streams().len() > 0,
        ensures
            final(self).wf(),
            r == old(self).streams()[0],
            final(self).streams() == old(self).streams().drop_first(),
            final(self).state() == old(self).state(),
            final(self).outgoing() == old(self).outgoing(),
            final(self).packets() == old(self).packets(),
            final(self).pending_stream_lsf() == old(self).pending_stream_lsf(),
            final(self).ptt_on() == old(self).ptt_on(),
            final(self).clock() == old(self).clock(),
            final(self).carrier() == old(self).carrier(),
            final(self).next_check() == old(self).next_check(),
            final(self).rng_state() == old(self).rng_state(),
            final(self).tx_delay_units() == old(self).tx_delay_units(),
            final(self).duplex() == old(self).duplex(),
            final(self).kiss_input() == old(self).kiss_input(),
    {
        let ghost q = self.streams();
        let r = self.stream_queue[self.stream_curr];
        self.stream_curr = (self.stream_curr + 1) % STREAM_QUEUE_LEN;
        self.stream_full = false;
        assert(self.streams() =~= q.drop_first());
        r
    }
}

impl SoftTnc {
    /// The next frame for the modulator, if any: the transmit side of the
    /// TNC, with CSMA channel access and PTT.
    pub fn read_tx_frame(&mut self) -> (r: Option<ModulatorFrame>)
        requires
            old(self).wf(),
        ensures
            final(self).wf(),
            tx_frame_post(*old(self), *final(self), r),
    {
        match self.state {
            State::TxStream => {
                if !self.stream_full && self.stream_next == self.stream_curr {
                    return None;
                }
                if self.stream_pending_lsf.is_some() {
                    let lsf = self.stream_pending_lsf.unwrap();
                    self.stream_pending_lsf = None;
                    return Some(ModulatorFrame::Lsf(lsf));
                }
                let frame = self.stream_pop();
                if frame.end_of_stream {
                    self.state = State::TxStreamSentEndOfStream;
                }
                Some(ModulatorFrame::Stream(frame))
            },
            State::TxStreamSentEndOfStream => {
                self.state = State::TxEnding;
                Some(ModulatorFrame::EndOfTransmission)
            },
            State::TxPacket => {
                if !self.packet_full && self.packet_next == self.packet_curr {
                    return None;
                }
                let ghost q = self.packets();
                let ghost mut skipped: int = 0;
                while self.packet_full || self.packet_next != self.packet_curr
                    invariant
                        self.wf(),
                        0 <= skipped <= q.len(),
                        self.packets() == q.subrange(skipped, q.len() as int),
                        forall|j: int| 0 <= j < skipped ==> !has_frame(#[trigger] q[j]),
                        self.state is TxPacket,
                        old(self).state is TxPacket,
                        self.streams() == old(self).streams(),
                        self.pending_stream_lsf() == old(self).pending_stream_lsf(),
                        self.ptt == old(self).ptt,
                        self.next_csma_check == old(self).next_csma_check,
                        self.rng == old(self).rng,
                        self.outgoing() == old(self).outgoing(),
                        self.now == old(self).now,
                        self.dcd == old(self).dcd,
                        self.tx_delay == old(self).tx_delay,
                        self.full_duplex == old(self).full_duplex,
                        self.kiss_buffer == old(self).kiss_buffer,
                        q == old(self).packets(),
                    decreases q.len() - skipped,
                {
                    let mut pending = self.packet_queue[self.packet_curr];
                    let ghost before = self.packets();
                    assert(before.len() > 0);
                    assert(before[0] == pending);
                    let frame = pending.next_frame();
                    if frame.is_some() {
                        self.packet_queue[self.packet_curr] = pending;
                        proof {
                            assert(q[skipped] == before[0]);
                            lemma_first_with_frame_at(q, skipped);
                            assert(self.packets() =~= before.update(0, pending));
                            assert(self.packets().drop_first() =~= q.subrange(skipped + 1, q.len() as int));
                        }
                        return frame;
                    }
                    self.packet_pop();
                    proof {
                        assert(!has_frame(q[skipped]));
                        skipped = skipped + 1;
                        assert(self.packets() =~= q.subrange(skipped, q.len() as int));
                    }
                }
                proof {
                    lemma_first_with_frame_none(q);
                }
                self.state = State::TxEnding;
                Some(ModulatorFrame::EndOfTransmission)
            },
            State::TxEnding | State::TxEndingAtTime(_) => None,
            _ => {
                let stream_wants_to_tx = self.stream_pending_lsf.is_some();
                let packet_wants_to_tx = self.packet_full || (self.packet_next != self.packet_curr);
                if !stream_wants_to_tx && !packet_wants_to_tx {
                    return None;
                }
                if !self.full_duplex {
                    match self.next_csma_check {
                        None => {
                            if self.dcd {
                                self.next_csma_check = Some(self.now.saturating_add(CSMA_INTERVAL));
                                return None;
                            }
                        },
                        Some(at_time) => {
                            if self.now < at_time {
                                return None;
                            }
                            if self.dcd {
                                self.next_csma_check = Some(self.now.saturating_add(CSMA_INTERVAL));
                                return None;
                            }
                            // p-persistence of 1/4: the sample clock mixed with the generator
                            self.rng = next_rand_exec(self.rng);
                            if (self.now ^ (self.rng as u64)) & 3u64 != 3u64 {
                                self.next_csma_check = Some(self.now.saturating_add(CSMA_INTERVAL));
                                return None;
                            }
                            self.next_csma_check = None;
                        },
                    }
                }
                if stream_wants_to_tx {
                    self.state = State::TxStream;
                } else {
                    self.state = State::TxPacket;
                }
                self.ptt = true;
                Some(ModulatorFrame::Preamble { tx_delay: self.tx_delay })
            },
        }
    }
}

proof fn lemma_first_with_frame_at(q: Seq<PendingPacket>, k: int)
    requires
        0 <= k < q.len(),
        has_frame(q[k]),
        forall|j: int| 0 <= j < k ==> !has_frame(#[trigger] q[j]),
    ensures
        first_with_frame(q) == k,
    decreases k,
{
    if k > 0 {
        assert(!has_frame(q[0]));
        assert forall|j: int| 0 <= j < k - 1 implies !has_frame(#[trigger] q.drop_first()[j]) by {
            assert(q.drop_first()[j] == q[j + 1]);
        }
        lemma_first_with_frame_at(q.drop_first(), k - 1);
    }
}

proof fn lemma_first_with_frame_none(q: Seq<PendingPacket>)
    requires
        forall|j: int| 0 <= j < q.len() ==> !has_frame(#[trigger] q[j]),
    ensures
        first_with_frame(q) >= q.len(),
    decreases q.len(),
{
    if q.len() > 0 {
        assert forall|j: int| 0 <= j < q.len() - 1 implies !has_frame(#[trigger] q.drop_first()[j]) by {
            assert(q.drop_first()[j] == q[j + 1]);
        }
        lemma_first_with_frame_none(q.drop_first());
    }
}

impl SoftTnc {
    /// Act on one KISS frame from the host: settings, packets and stream
    /// data for transmission. Anything malformed or unsupported is dropped.
    pub fn handle_kiss_frame(&mut self, kiss_frame: &KissFrame)
        requires
            old(self).wf(),
        ensures
            final(self).wf(),
            final(self).state() == old(self).state(),
            final(self).outgoing() == old(self).outgoing(),
            final(self).ptt_on() == old(self).ptt_on(),
            final(self).clock() == old(self).clock(),
            final(self).carrier() == old(self).carrier(),
            final(self).next_check() == old(self).next_check(),
            final(self).rng_state() == old(self).rng_state(),
            final(self).kiss_input() == old(self).kiss_input(),
            final(self).tx_side() == kiss_frame_effect(old(self).tx_side(), *kiss_frame),
    {
        let port = match kiss_frame.port() {
            Ok(p) => p,
            Err(_) => {
                return;
            },
        };
        let command = match kiss_frame.command() {
            Ok(c) => c,
            Err(_) => {
                return;
            },
        };
        if port != PORT_PACKET_BASIC && port != PORT_PACKET_FULL && port != PORT_STREAM {
            return;
        }
        match command {
            KissCommand::TxDelay => {
                let mut new_delay = [0u8; 2];
                match kiss_frame.decode_payload(&mut new_delay) {
                    Ok(n) => {
                        if n == 1 {
                            assert(new_delay@.subrange(0, 1)[0] == new_delay@[0]);
                            assert(kiss_frame.payload().subrange(0, 1)[0] == kiss_frame.payload()[0]);
                            self.tx_delay = new_delay[0];
                        }
                    },
                    Err(_) => {},
                }
            },
            KissCommand::FullDuplex => {
                let mut new_duplex = [0u8; 2];
                match kiss_frame.decode_payload(&mut new_duplex) {
                    Ok(n) => {
                        if n == 1 {
                            assert(new_duplex@.subrange(0, 1)[0] == new_duplex@[0]);
                            assert(kiss_frame.payload().subrange(0, 1)[0] == kiss_frame.payload()[0]);
                            self.full_duplex = new_duplex[0] != 0;
                        }
                    },
                    Err(_) => {},
                }
            },
            KissCommand::P => {},
            KissCommand::DataFrame => {
                if port == PORT_PACKET_BASIC {
                    self.enqueue_basic_packet(kiss_frame);
                } else if port == PORT_PACKET_FULL {
                    self.enqueue_full_packet(kiss_frame);
                } else {
                    self.enqueue_stream(kiss_frame);
                }
            },
        }
    }

    fn enqueue_basic_packet(&mut self, kiss_frame: &KissFrame)
        requires
            old(self).wf(),
        ensures
            final(self).wf(),
            final(self).state() == old(self).state(),
            final(self).outgoing() == old(self).outgoing(),
            final(self).ptt_on() == old(self).ptt_on(),
            final(self).clock() == old(self).clock(),
            final(self).carrier() == old(self).carrier(),
            final(self).next_check() == old(self).next_check(),
            final(self).rng_state() == old(self).rng_state(),
            final(self).tx_delay_units() == old(self).tx_delay_units(),
            final(self).duplex() == old(self).duplex(),
            final(self).kiss_input() == old(self).kiss_input(),
            final(self).streams() == old(self).streams(),
            final(self).pending_stream_lsf() == old(self).pending_stream_lsf(),
            kiss_frame.well_framed() ==> final(self).tx_side() == basic_effect(old(self).tx_side(), kiss_frame.payload()),
            !kiss_frame.well_framed() ==> final(self).tx_side() == old(self).tx_side(),
    {
        if self.packet_full {
            return;
        }
        let mut body = [0u8; 823];
        let len = match kiss_frame.decode_payload(&mut body) {
            Ok(n) => n,
            Err(_) => {
                return;
            },
        };
        if len > 822 {
            return;
        }
        let ghost pl = kiss_frame.payload();
        let mut pending = PendingPacket::new();
        pending.app_data_transmitted = 0;
        pending.app_data[0] = 0x00;
        let mut k: usize = 0;
        while k < len
            invariant
                0 <= k <= len <= 822,
                pending.app_data@[0] == 0u8,
                pending.app_data_transmitted == 0,
                body@.subrange(0, len as int) == pl.subrange(0, len as int),
                forall|q: int| 0 <= q < k ==> pending.app_data@[1 + q] == body@[q],
            decreases len - k,
        {
            pending.app_data[1 + k] = body[k];
            k = k + 1;
        }
        assert(len == pl.len());
        assert forall|q: int| 0 <= q < len implies pending.app_data@[1 + q] == pl[q] by {
            assert(body@.subrange(0, len as int)[q] == body@[q]);
        }
        assert(pending.app_data@.subrange(0, len as int + 1) =~= seq![0u8] + pl);
        let c = crc_of_range(&pending.app_data, 0, len + 1);
        pending.app_data[len + 1] = (c >> 8u16) as u8;
        pending.app_data[len + 2] = c as u8;
        pending.app_data_len = len + 3;
        let source = basic_packet_source();
        let lsf = LsfFrame::new_packet(&Address::Callsign(source), &Address::Broadcast);
        assert(lsf.0@ == basic_lsf_bytes());
        pending.lsf = Some(lsf);
        assert(pending.data() =~= basic_packet_body(pl));
        self.packet_push(pending);
        proof {
            lemma_lsf_of(lsf);
            lemma_push_side(*old(self), *self, pending);
        }
    }

    fn enqueue_full_packet(&mut self, kiss_frame: &KissFrame)
        requires
            old(self).wf(),
        ensures
            final(self).wf(),
            final(self).state() == old(self).state(),
            final(self).outgoing() == old(self).outgoing(),
            final(self).ptt_on() == old(self).ptt_on(),
            final(self).clock() == old(self).clock(),
            final(self).carrier() == old(self).carrier(),
            final(self).next_check() == old(self).next_check(),
            final(self).rng_state() == old(self).rng_state(),
            final(self).tx_delay_units() == old(self).tx_delay_units(),
            final(self).duplex() == old(self).duplex(),
            final(self).kiss_input() == old(self).kiss_input(),
            final(self).streams() == old(self).streams(),
            final(self).pending_stream_lsf() == old(self).pending_stream_lsf(),
            kiss_frame.well_framed() ==> final(self).tx_side() == full_effect(old(self).tx_side(), kiss_frame.payload()),
            !kiss_frame.well_framed() ==> final(self).tx_side() == old(self).tx_side(),
    {
        if self.packet_full {
            return;
        }
        let mut payload = [0u8; 855];
        let len = match kiss_frame.decode_payload(&mut payload) {
            Ok(n) => n,
            Err(_) => {
                return;
            },
        };
        if len < 33 {
            return;
        }
        let ghost pl = kiss_frame.payload();
        let mut lsf = LsfFrame([0u8; 30]);
        let mut k: usize = 0;
        while k < 30
            invariant
                0 <= k <= 30,
                33 <= len <= 855,
                forall|q: int| 0 <= q < k ==> lsf.0@[q] == payload@[q],
            decreases 30 - k,
        {
            lsf.0[k] = payload[k];
            k = k + 1;
        }
        assert(lsf.0@ =~= pl.subrange(0, 30)) by {
            assert(payload@.subrange(0, len as int) == pl.subrange(0, len as int));
            assert forall|q: int| 0 <= q < 30 implies lsf.0@[q] == pl[q] by {
                assert(payload@.subrange(0, len as int)[q] == payload@[q]);
            }
        }
        if lsf.check_crc() != 0 {
            return;
        }
        let mut pending = PendingPacket::new();
        pending.app_data_transmitted = 0;
        pending.lsf = Some(lsf);
        let app_data_len = len - 30;
        let mut k: usize = 0;
        while k < app_data_len
            invariant
                0 <= k <= app_data_len,
                app_data_len == len - 30,
                pending.app_data_transmitted == 0,
                pending.lsf == Some(lsf),
                33 <= len <= 855,
                forall|q: int| 0 <= q < k ==> pending.app_data@[q] == payload@[30 + q],
            decreases app_data_len - k,
        {
            pending.app_data[k] = payload[30 + k];
            k = k + 1;
        }
        pending.app_data_len = app_data_len;
        assert(pending.data() =~= pl.subrange(30, len as int)) by {
            assert(payload@.subrange(0, len as int) == pl.subrange(0, len as int));
            assert forall|q: int| 0 <= q < app_data_len implies pending.data()[q] == pl[30 + q] by {
                assert(payload@.subrange(0, len as int)[30 + q] == payload@[30 + q]);
            }
        }
        self.packet_push(pending);
        proof {
            lemma_lsf_of(lsf);
            lemma_push_side(*old(self), *self, pending);
        }
    }

    fn enqueue_stream(&mut self, kiss_frame: &KissFrame)
        requires
            old(self).wf(),
        ensures
            final(self).wf(),
            final(self).state() == old(self).state(),
            final(self).outgoing() == old(self).outgoing(),
            final(self).ptt_on() == old(self).ptt_on(),
            final(self).clock() == old(self).clock(),
            final(self).carrier() == old(self).carrier(),
            final(self).next_check() == old(self).next_check(),
            final(self).rng_state() == old(self).rng_state(),
            final(self).tx_delay_units() == old(self).tx_delay_units(),
            final(self).duplex() == old(self).duplex(),
            final(self).kiss_input() == old(self).kiss_input(),
            final(self).packets() == old(self).packets(),
            kiss_frame.well_framed() ==> final(self).tx_side() == stream_effect(old(self).tx_side(), kiss_frame.payload()),
            !kiss_frame.well_framed() ==> final(self).tx_side() == old(self).tx_side(),
    {
        let mut payload = [0u8; 31];
        let len = match kiss_frame.decode_payload(&mut payload) {
            Ok(n) => n,
            Err(_) => {
                return;
            },
        };
        let ghost pl = kiss_frame.payload();
        proof {
            assert forall|q: int| 0 <= q < len implies payload@[q] == pl[q] by {
                assert(payload@.subrange(0, len as int)[q] == payload@[q]);
            }
        }
        if len == 30 {
            let mut lsf = LsfFrame([0u8; 30]);
            let mut k: usize = 0;
            while k < 30
                invariant
                    0 <= k <= 30,
                    forall|q: int| 0 <= q < k ==> lsf.0@[q] == payload@[q],
                decreases 30 - k,
            {
                lsf.0[k] = payload[k];
                k = k + 1;
            }
            assert(lsf.0@ =~= pl);
            if lsf.check_crc() != 0 {
                return;
            }
            self.stream_pending_lsf = Some(lsf);
            proof {
                lemma_lsf_of(lsf);
                assert(self.tx_side().packets =~= old(self).tx_side().packets);
            }
        } else if len == 26 {
            if self.stream_full {
                return;
            }
            assert(payload@.subrange(6, 26) =~= pl.subrange(6, 26));
            if crc_of_range(&payload, 6, 26) != 0 {
                return;
            }
            let mut lich_part = [0u8; 5];
            let mut stream_data = [0u8; 16];
            let mut k: usize = 0;
            while k < 5
                invariant
                    0 <= k <= 5,
                    forall|q: int| 0 <= q < k ==> lich_part@[q] == payload@[q],
                decreases 5 - k,
            {
                lich_part[k] = payload[k];
                k = k + 1;
            }
            let mut k: usize = 0;
            while k < 16
                invariant
                    0 <= k <= 16,
                    forall|q: int| 0 <= q < k ==> stream_data@[q] == payload@[8 + q],
                decreases 16 - k,
            {
                stream_data[k] = payload[8 + k];
                k = k + 1;
            }
            let frame_num_part = ((payload[6] as u16) << 8u16) | (payload[7] as u16);
            let frame = StreamFrame {
                lich_idx: payload[5] >> 5u8,
                lich_part,
                frame_number: frame_num_part & 0x7fffu16,
                end_of_stream: payload[6] & 0x80u8 != 0,
                stream_data,
            };
            assert(frame.lich_part@ =~= pl.subrange(0, 5));
            assert(frame.stream_data@ =~= pl.subrange(8, 24));
            self.stream_push(frame);
            proof {
                lemma_stream_of(pl, frame);
                assert(self.tx_side().packets =~= old(self).tx_side().packets);
            }
        }
    }


    /// Space in the KISS input buffer once a frame handed out is dropped and
    /// an overfull buffer is reset.
    pub open spec fn kiss_space(&self) -> int {
        if self.kiss_input().flushed().len() == MAX_FRAME_LEN {
            MAX_FRAME_LEN as int
        } else {
            MAX_FRAME_LEN - self.kiss_input().flushed().len()
        }
    }

    /// The host sends KISS data. Takes as much as the input buffer has room
    /// for, acts on every complete frame, and returns how much was taken.
    pub fn write_kiss(&mut self, buf: &[u8]) -> (r: usize)
        requires
            old(self).wf(),
        ensures
            final(self).wf(),
            r == if buf@.len() < old(self).kiss_space() { buf@.len() as int } else { old(self).kiss_space() },
            // every complete frame has been taken out and acted on, in order
            ({
                let fl = old(self).kiss_input().flushed();
                let base = if fl.len() == MAX_FRAME_LEN { Seq::<u8>::empty() } else { fl };
                let c0 = base + buf@.subrange(0, r as int);
                final(self).tx_side() == apply_frames(old(self).tx_side(), buffer_frames(c0, false, (c0.len() + 1) as nat))
            }),
            !final(self).kiss_input().pending(),
            leading_frame_len(final(self).kiss_input().view()) == 0,
            final(self).state() == old(self).state(),
            final(self).outgoing() == old(self).outgoing(),
            final(self).ptt_on() == old(self).ptt_on(),
            final(self).clock() == old(self).clock(),
            final(self).carrier() == old(self).carrier(),
            final(self).next_check() == old(self).next_check(),
            final(self).rng_state() == old(self).rng_state(),
    {
        let space = self.kiss_buffer.buf_remaining();
        assert(space == old(self).kiss_space());
        let n = if buf.len() < space { buf.len() } else { space };
        let chunk = &buf[0..n];
        self.kiss_buffer.write_remaining(0, chunk);
        self.kiss_buffer.did_write(n);
        let ghost c0 = self.kiss_buffer.view();
        let ghost target = apply_frames(old(self).tx_side(), buffer_frames(c0, false, (c0.len() + 1) as nat));
        assert(c0 =~= (if old(self).kiss_input().flushed().len() == MAX_FRAME_LEN { Seq::<u8>::empty() } else { old(self).kiss_input().flushed() }) + buf@.subrange(0, n as int));
        let ghost mut fuel: nat = (c0.len() + 1) as nat;
        loop
            invariant_except_break
                fuel >= self.kiss_buffer.view().len() + if self.kiss_buffer.pending() { 0int } else { 1int },
                apply_frames(self.tx_side(), buffer_frames(self.kiss_buffer.view(), self.kiss_buffer.pending(), fuel)) == target,
            invariant
                self.wf(),
                self.state() == old(self).state(),
                self.outgoing() == old(self).outgoing(),
                self.ptt_on() == old(self).ptt_on(),
                self.clock() == old(self).clock(),
                self.carrier() == old(self).carrier(),
                self.next_check() == old(self).next_check(),
                self.rng_state() == old(self).rng_state(),
            ensures
                self.wf(),
                self.state() == old(self).state(),
                self.outgoing() == old(self).outgoing(),
                self.ptt_on() == old(self).ptt_on(),
                self.clock() == old(self).clock(),
                self.carrier() == old(self).carrier(),
                self.next_check() == old(self).next_check(),
                self.rng_state() == old(self).rng_state(),
                self.tx_side() == target,
                !self.kiss_buffer.pending(),
                leading_frame_len(self.kiss_buffer.view()) == 0,
            decreases self.kiss_buffer.view().len() + if self.kiss_buffer.pending() { 0int } else { 1int },
        {
            let ghost kb = self.kiss_buffer;
            let ghost m = self.tx_side();
            proof {
                kb.lemma_pending_nonempty();
            }
            match self.kiss_buffer.next_frame() {
                Some(kiss_frame) => {
                    proof {
                        let a = aligned(kb.flushed());
                        crate::kiss::lemma_first_of_bounds(a, FEND, 2);
                        lemma_leading_frame(a, kiss_frame);
                        let rest = buffer_frames(a, true, (fuel - 1) as nat);
                        assert(buffer_frames(kb.view(), kb.pending(), fuel) == seq![a.subrange(0, leading_frame_len(a))] + rest);
                        let fs = seq![a.subrange(0, leading_frame_len(a))] + rest;
                        assert(fs.drop_first() =~= rest);
                        let b = a.subrange(0, leading_frame_len(a));
                        assert(b.subrange(2, b.len() - 1) =~= a.subrange(2, kiss_frame.len - 1));
                    }
                    self.handle_kiss_frame(&kiss_frame);
                    proof {
                        fuel = (fuel - 1) as nat;
                    }
                },
                None => {
                    proof {
                        assert(fuel >= 1);
                        assert(leading_frame_len(aligned(kb.flushed())) <= 0);
                        assert(buffer_frames(kb.view(), kb.pending(), fuel) =~= Seq::<Seq<u8>>::empty());
                        assert(apply_frames(self.tx_side(), Seq::<Seq<u8>>::empty()) == self.tx_side());
                    }
                    break;
                },
            }
        }
        n
    }
}

} // verus!
