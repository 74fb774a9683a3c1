//! Decisions of the host application around a TNC: its lifecycle, the
//! packets it hands over for transmission, and the events it takes from the
//! KISS frames the TNC sends back.

use vstd::prelude::*;
use crate::crc::{crc16, be16, m17_crc};
use crate::kiss::{KissCommand, KissFrame, PORT_PACKET_FULL, PORT_STREAM, escaped, header, FEND, command_of, MAX_FRAME_LEN};
use crate::link_setup::{LinkSetup, M17Error};
use crate::protocol::{
    EncryptionType, LsfFrame, PacketType, encryption_type_of, lsf_type, packet_type_prefix,
    utf8_first,
};

verus! {

/// Lifecycle of an app: adapters are added in `Setup`, the TNC runs in
/// `Started`, and nothing more happens once `Closed`.
#[derive(Debug, Clone, Copy, PartialEq, Eq)]
pub enum Lifecycle {
    Setup,
    Started,
    Closed,
}

/// Starting is valid only from `Setup`.
pub fn start_transition(current: Lifecycle) -> (r: Result<Lifecycle, M17Error>)
    ensures
        current is Setup ==> r == Ok::<Lifecycle, M17Error>(Lifecycle::Started),
        !(current is Setup) ==> r == Err::<Lifecycle, M17Error>(M17Error::InvalidStart),
{
    match current {
        Lifecycle::Setup => Ok(Lifecycle::Started),
        _ => Err(M17Error::InvalidStart),
    }
}

/// Closing is valid only from `Started`.
pub fn close_transition(current: Lifecycle) -> (r: Result<Lifecycle, M17Error>)
    ensures
        current is Started ==> r == Ok::<Lifecycle, M17Error>(Lifecycle::Closed),
        !(current is Started) ==> r == Err::<Lifecycle, M17Error>(M17Error::InvalidClose),
{
    match current {
        Lifecycle::Started => Ok(Lifecycle::Closed),
        _ => Err(M17Error::InvalidClose),
    }
}

/// Largest packet body before its CRC: type prefix and data.
pub const PACKET_BODY_MAX: usize = 823;

/// A packet body: type prefix, data, and a CRC over both.
pub open spec fn packet_body(t: PacketType, payload: Seq<u8>) -> Seq<u8> {
    packet_type_prefix(t) + payload + be16(crc16(packet_type_prefix(t) + payload))
}

/// The KISS frame that asks the TNC to transmit a packet: a full-packet
/// frame holding the LSF and the body.
pub fn packet_kiss_frame(link_setup: &LinkSetup, packet_type: PacketType, payload: &[u8]) -> (r: Result<KissFrame, M17Error>)
    ensures
        packet_type_prefix(packet_type).len() + payload@.len() > PACKET_BODY_MAX ==> r == Err::<KissFrame, M17Error>(
            M17Error::PacketTooLarge {
                provided: payload@.len() as usize,
                capacity: (PACKET_BODY_MAX - packet_type_prefix(packet_type).len()) as usize,
            },
        ),
        packet_type_prefix(packet_type).len() + payload@.len() <= PACKET_BODY_MAX ==> r is Ok
            && r->Ok_0.len <= MAX_FRAME_LEN
            && r->Ok_0.bytes() == seq![FEND, header(PORT_PACKET_FULL, 0)] + escaped(
                link_setup.lsf().0@ + packet_body(packet_type, payload@),
            ) + seq![FEND],
{
    let (prefix, prefix_len) = packet_type.as_proto();
    if payload.len() > PACKET_BODY_MAX - prefix_len {
        return Err(M17Error::PacketTooLarge { provided: payload.len(), capacity: PACKET_BODY_MAX - prefix_len });
    }
    let mut body: Vec<u8> = Vec::new();
    let mut k: usize = 0;
    while k < prefix_len
        invariant
            0 <= k <= prefix_len <= 4,
            body@ == prefix@.subrange(0, k as int),
        decreases prefix_len - k,
    {
        body.push(prefix[k]);
        k = k + 1;
        assert(body@ =~= prefix@.subrange(0, k as int));
    }
    let mut k: usize = 0;
    while k < payload.len()
        invariant
            0 <= k <= payload@.len(),
            body@ == packet_type_prefix(packet_type) + payload@.subrange(0, k as int),
        decreases payload@.len() - k,
    {
        body.push(payload[k]);
        k = k + 1;
        assert(body@ =~= packet_type_prefix(packet_type) + payload@.subrange(0, k as int));
    }
    assert(payload@.subrange(0, payload@.len() as int) =~= payload@);
    let c = m17_crc(body.as_slice());
    body.push((c >> 8u16) as u8);
    body.push(c as u8);
    assert(body@ =~= packet_body(packet_type, payload@));
    let lsf = link_setup.raw();
    match KissFrame::new_full_packet(&lsf.0, body.as_slice()) {
        Ok(f) => Ok(f),
        Err(_) => Err(M17Error::PacketTooLarge { provided: payload.len(), capacity: PACKET_BODY_MAX - prefix_len }),
    }
}

/// What a KISS frame from the TNC means to the host.
pub enum HostEvent {
    /// A packet arrived: its LSF, type, and data without prefix or CRC.
    Packet { lsf: LsfFrame, packet_type: PacketType, payload: Vec<u8> },
    /// A stream began with this LSF.
    StreamBegan(LsfFrame),
    /// A frame of the running stream.
    StreamData { frame_number: u16, is_final: bool, data: [u8; 16] },
}

/// Interpret a KISS frame from the TNC. `stream_running` says whether a
/// stream has begun and not yet ended; the new value is returned with the
/// event. Frames that are malformed, fail a CRC, are encrypted, or carry
/// stream data outside a stream give no event.
pub fn interpret_tnc_frame(frame: &KissFrame, stream_running: bool) -> (r: (Option<HostEvent>, bool))
    ensures
        ({
            let h = frame.header_index();
            let data = h < MAX_FRAME_LEN && command_of(frame.data@[h] & 0x0fu8) == Some(KissCommand::DataFrame)
                && frame.well_framed();
            let port = frame.data@[h] >> 4u8;
            let pl = frame.payload();
            &&& !data ==> r.0 is None && r.1 == stream_running
            &&& data && port != PORT_PACKET_FULL && port != PORT_STREAM ==> r.0 is None && r.1 == stream_running
            &&& data && port == PORT_PACKET_FULL ==> r.1 == stream_running && ({
                let n = if pl.len() < 855 { pl.len() as int } else { 855 };
                let body = pl.subrange(30, n);
                let ok = n >= 33 && crc16(pl.subrange(0, 30)) == 0
                    && encryption_type_of(lsf_type(pl.subrange(0, 30))) is Unencrypted
                    && utf8_first(body) is Some && n - 30 - utf8_first(body)->Some_0.1 >= 2
                    && crc16(body) == 0;
                &&& !ok ==> r.0 is None
                &&& ok ==> r.0 is Some && r.0->Some_0 is Packet
                    && r.0->Some_0->Packet_lsf.0@ == pl.subrange(0, 30)
                    && packet_type_prefix(r.0->Some_0->Packet_packet_type) == body.subrange(0, utf8_first(body)->Some_0.1)
                    && r.0->Some_0->Packet_payload@ == body.subrange(utf8_first(body)->Some_0.1, body.len() - 2)
            })
            &&& data && port == PORT_STREAM ==> ({
                let n = if pl.len() < 32 { pl.len() as int } else { 32 };
                &&& n == 30 && crc16(pl.subrange(0, 30)) == 0 ==> r.0 is Some && r.0->Some_0 is StreamBegan
                    && r.0->Some_0->StreamBegan_0.0@ == pl.subrange(0, 30) && r.1
                &&& n == 26 && stream_running && crc16(pl.subrange(6, 26)) == 0 ==> r.0 is Some
                    && r.0->Some_0 is StreamData
                    && r.0->Some_0->StreamData_frame_number == (((pl[6] as u16) << 8u16) | (pl[7] as u16)) & 0x7fffu16
                    && r.0->Some_0->StreamData_is_final == (pl[6] & 0x80u8 != 0)
                    && r.0->Some_0->StreamData_data@ == pl.subrange(8, 24)
                    && r.1 == !(pl[6] & 0x80u8 != 0)
                &&& !(n == 30 && crc16(pl.subrange(0, 30)) == 0) && !(n == 26 && stream_running && crc16(pl.subrange(6, 26)) == 0)
                    ==> r.0 is None && r.1 == stream_running
            })
        }),
{
    match frame.command() {
        Ok(KissCommand::DataFrame) => {},
        _ => {
            return (None, stream_running);
        },
    }
    let port = match frame.port() {
        Ok(p) => p,
        Err(_) => {
            return (None, stream_running);
        },
    };
    if port == PORT_PACKET_FULL {
        let mut payload = [0u8; 855];
        let n = match frame.decode_payload(&mut payload) {
            Ok(n) => n,
            Err(_) => {
                return (None, stream_running);
            },
        };
        let ghost pl = frame.payload();
        if n < 33 {
            return (None, stream_running);
        }
        proof {
            assert forall|q: int| 0 <= q < n implies payload@[q] == pl[q] by {
                assert(payload@.subrange(0, n as int)[q] == payload@[q]);
            }
        }
        let mut lsf = LsfFrame([0u8; 30]);
        let mut k: usize = 0;
        while k < 30
            invariant
                0 <= k <= 30,
                33 <= n <= 855,
                forall|q: int| 0 <= q < k ==> lsf.0@[q] == payload@[q],
            decreases 30 - k,
        {
            lsf.0[k] = payload[k];
            k = k + 1;
        }
        assert(lsf.0@ =~= pl.subrange(0, 30));
        if lsf.check_crc() != 0 {
            return (None, stream_running);
        }
        match lsf.encryption_type() {
            EncryptionType::Unencrypted => {},
            _ => {
                return (None, stream_running);
            },
        }
        let body = &payload[30..n];
        assert(body@ =~= pl.subrange(30, n as int));
        let (packet_type, type_len) = match PacketType::from_proto(body) {
            Some(x) => x,
            None => {
                return (None, stream_running);
            },
        };
        if n - 30 - type_len < 2 {
            return (None, stream_running);
        }
        if m17_crc(body) != 0 {
            return (None, stream_running);
        }
        let mut data: Vec<u8> = Vec::new();
        let start = 30 + type_len;
        let end = n - 2;
        let mut k: usize = start;
        while k < end
            invariant
                start <= k <= end,
                end == n - 2,
                n <= 855,
                data@ == payload@.subrange(start as int, k as int),
            decreases end - k,
        {
            data.push(payload[k]);
            k = k + 1;
            assert(data@ =~= payload@.subrange(start as int, k as int));
        }
        assert(data@ =~= body@.subrange(type_len as int, body@.len() - 2));
        return (Some(HostEvent::Packet { lsf, packet_type, payload: data }), stream_running);
    } else if port == PORT_STREAM {
        let mut payload = [0u8; 32];
        let n = match frame.decode_payload(&mut payload) {
            Ok(n) => n,
            Err(_) => {
                return (None, stream_running);
            },
        };
        let ghost pl = frame.payload();
        proof {
            assert forall|q: int| 0 <= q < n implies payload@[q] == pl[q] by {
                assert(payload@.subrange(0, n as int)[q] == payload@[q]);
            }
        }
        if n == 30 {
            let mut lsf = LsfFrame([0u8; 30]);
            let mut k: usize = 0;
            while k < 30
                invariant
                    0 <= k <= 30,
                    forall|q: int| 0 <= q < k ==> lsf.0@[q] == payload@[q],
                decreases 30 - k,
            {
                lsf.0[k] = payload[k];
                k = k + 1;
            }
            assert(lsf.0@ =~= pl.subrange(0, 30));
            if lsf.check_crc() != 0 {
                return (None, stream_running);
            }
            return (Some(HostEvent::StreamBegan(lsf)), true);
        } else if n == 26 {
            if !stream_running {
                return (None, stream_running);
            }
            assert(payload@.subrange(6, 26) =~= pl.subrange(6, 26));
            if crate::crc::crc_of_range(&payload, 6, 26) != 0 {
                return (None, stream_running);
            }
            let frame_number = ((payload[6] as u16) << 8u16) | (payload[7] as u16);
            let is_final = payload[6] & 0x80u8 != 0;
            let mut data = [0u8; 16];
            let mut k: usize = 0;
            while k < 16
                invariant
                    0 <= k <= 16,
                    forall|q: int| 0 <= q < k ==> data@[q] == payload@[8 + q],
                decreases 16 - k,
            {
                data[k] = payload[8 + k];
                k = k + 1;
            }
            assert(data@ =~= pl.subrange(8, 24));
            return (Some(HostEvent::StreamData { frame_number: frame_number & 0x7fffu16, is_final, data }), !is_final);
        }
        (None, stream_running)
    } else {
        (None, stream_running)
    }
}

} // verus!
