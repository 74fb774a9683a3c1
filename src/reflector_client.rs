//! Decisions of a TNC that talks to a reflector over UDP instead of RF: what
//! each event of a connection leads to, and how host KISS frames become
//! `Voice` datagrams. The driver performs the I/O and hands events in.

use vstd::prelude::*;
use crate::address::{Address, be48_bytes, address_value};
use crate::convert::{RfToVoice, VoiceToRf, voice_body, stream_from_voice};
use crate::kiss::{KissCommand, KissFrame, PORT_STREAM, MAX_FRAME_LEN, command_of, FEND, header, escaped};
use crate::protocol::{LsfFrame, StreamFrame, with_crc};
use crate::reflector::{Connect, Pong, ServerMessage, Voice, with_crc_at, MAGIC_CONNECT, MAGIC_PONG, has_magic};
use crate::tnc::{stream_data_bytes, parsed_stream_frame};

verus! {

/// Connection status reported by a reflector client.
#[derive(Debug, Clone, Copy, PartialEq, Eq)]
pub enum TncStatus {
    Disconnected,
    Connecting,
    Connected,
    ConnectRejected,
    ForceDisconnect,
    Closed,
}

/// Seconds to wait before trying a reflector again after its name did not resolve.
pub const RETRY_SECS: u64 = 10;

/// What happened in the client's outer loop.
#[derive(Debug, Clone, Copy, PartialEq, Eq)]
pub enum RunnerEvent {
    /// The loop is about to try (again) to reach the reflector.
    Attempt,
    /// The reflector's host name did not resolve to an address.
    ResolveFailed,
    /// The host name resolved.
    Resolved,
    /// A connection ended (rejected, forced off, timed out or closed).
    ConnectionEnded,
}

/// What the client's outer loop does next.
#[derive(Debug, Clone, Copy, PartialEq, Eq)]
pub enum RunnerAction {
    /// Stop the loop.
    Stop,
    /// Resolve the reflector's host name.
    Resolve,
    /// Wait this many seconds, then try again.
    RetryAfterSecs(u64),
    /// Bind a socket and connect to the resolved address.
    Connect,
    /// Go back to the top of the loop.
    Restart,
}

/// The outer loop of a reflector client: once closed it stops; otherwise it
/// resolves, connects, and after a failed resolution waits and retries.
pub fn runner_step(closed: bool, ev: RunnerEvent) -> (r: (Option<TncStatus>, RunnerAction))
    ensures
        closed ==> r == (Some(TncStatus::Closed), RunnerAction::Stop),
        !closed && ev == RunnerEvent::Attempt ==> r == (Some(TncStatus::Connecting), RunnerAction::Resolve),
        !closed && ev == RunnerEvent::ResolveFailed ==> r == (Some(TncStatus::Disconnected), RunnerAction::RetryAfterSecs(RETRY_SECS)),
        !closed && ev == RunnerEvent::Resolved ==> r == (None::<TncStatus>, RunnerAction::Connect),
        !closed && ev == RunnerEvent::ConnectionEnded ==> r == (Some(TncStatus::Disconnected), RunnerAction::Restart),
{
    if closed {
        return (Some(TncStatus::Closed), RunnerAction::Stop);
    }
    match ev {
        RunnerEvent::Attempt => (Some(TncStatus::Connecting), RunnerAction::Resolve),
        RunnerEvent::ResolveFailed => (Some(TncStatus::Disconnected), RunnerAction::RetryAfterSecs(RETRY_SECS)),
        RunnerEvent::Resolved => (None, RunnerAction::Connect),
        RunnerEvent::ConnectionEnded => (Some(TncStatus::Disconnected), RunnerAction::Restart),
    }
}

/// An event of a reflector connection.
pub enum ClientEvent {
    /// The host closes the TNC.
    Close,
    /// A datagram from the reflector.
    Received(ServerMessage),
    /// A voice datagram built from host KISS frames, to send to the reflector.
    TransmitVoice(Voice),
}

/// What the driver does after an event.
pub struct ClientStep {
    /// Status to report, if it changed.
    pub status: Option<TncStatus>,
    /// Datagram to send to the reflector.
    pub send: Option<Vec<u8>>,
    /// KISS frames to hand to the host, in order.
    pub to_host: Vec<KissFrame>,
    /// Whether this connection ends.
    pub end: bool,
    /// The stream frame taken from a voice datagram, as handed to the host.
    pub stream: Option<StreamFrame>,
}

/// The datagram that asks a reflector to connect `local` to `module`.
pub fn connect_datagram(local: &Address, module: char) -> (r: Connect)
    ensures
        r.1 == 11,
        has_magic(r.0@, MAGIC_CONNECT),
        r.0@.subrange(4, 10) == be48_bytes(address_value(*local)),
        r.0@[10] == module as u8,
{
    let mut c = Connect::new();
    let ghost m0 = c.0@;
    c.set_address(*local);
    c.set_module(module);
    assert(c.0@.subrange(0, 4) =~= m0.subrange(0, 4));
    assert(c.0@.subrange(4, 10) =~= be48_bytes(address_value(*local)));
    c
}

/// Act on one event of a connection. `local` is this station's address,
/// used to answer pings.
pub fn handle_event(converter: &mut VoiceToRf, local: &Address, event: ClientEvent) -> (r: ClientStep)
    requires
        old(converter).wf(),
    ensures
        final(converter).wf(),
        match event {
            ClientEvent::Close => r.end && r.status is None && r.send is None && r.to_host@.len() == 0,
            ClientEvent::TransmitVoice(v) => {
                &&& !r.end && r.status is None && r.to_host@.len() == 0
                &&& v.1 <= 54 ==> r.send is Some && r.send->Some_0@ == v.0@.subrange(0, v.1 as int)
                &&& v.1 > 54 ==> r.send is None
            },
            ClientEvent::Received(m) => match m {
                ServerMessage::ConnectAcknowledge(_) => !r.end && r.status == Some(TncStatus::Connected)
                    && r.send is None && r.to_host@.len() == 0,
                ServerMessage::ConnectNack(_) => r.end && r.status == Some(TncStatus::ConnectRejected)
                    && r.send is None && r.to_host@.len() == 0,
                ServerMessage::ForceDisconnect(_) => r.end && r.status == Some(TncStatus::ForceDisconnect)
                    && r.send is None && r.to_host@.len() == 0,
                ServerMessage::Ping(_) => !r.end && r.status is None && r.to_host@.len() == 0 && r.send is Some
                    && has_magic(r.send->Some_0@, MAGIC_PONG) && r.send->Some_0@.len() == 10
                    && r.send->Some_0@.subrange(4, 10) == be48_bytes(address_value(*local)),
                ServerMessage::Voice(v) => {
                    let this_lsf = with_crc(v.0@.subrange(6, 34));
                    let new_stream = old(converter).current_lsf() is None
                        || old(converter).current_lsf()->Some_0.0@ != this_lsf;
                    let idx = if new_stream { 0 } else { old(converter).lich_counter() };
                    &&& !r.end && r.status is None && r.send is None
                    &&& new_stream ==> r.to_host@.len() == 2 && r.to_host@[0].bytes() == seq![FEND, header(PORT_STREAM, 0)]
                        + escaped(this_lsf) + seq![FEND]
                    &&& !new_stream ==> r.to_host@.len() == 1
                    &&& r.stream is Some && stream_from_voice(v.0@, this_lsf, idx, r.stream->Some_0)
                    &&& r.to_host@.last().bytes() == stream_data_bytes(r.stream->Some_0)
                },
                _ => !r.end && r.status is None && r.send is None && r.to_host@.len() == 0,
            },
        },
{
    let mut step = ClientStep { status: None, send: None, to_host: Vec::new(), end: false, stream: None };
    match event {
        ClientEvent::Close => {
            step.end = true;
        },
        ClientEvent::TransmitVoice(v) => {
            if v.1 <= 54 {
                step.send = Some(vstd::slice::slice_to_vec(v.as_bytes()));
            }
        },
        ClientEvent::Received(m) => match m {
            ServerMessage::ConnectAcknowledge(_) => {
                step.status = Some(TncStatus::Connected);
            },
            ServerMessage::ConnectNack(_) => {
                step.status = Some(TncStatus::ConnectRejected);
                step.end = true;
            },
            ServerMessage::ForceDisconnect(_) => {
                step.status = Some(TncStatus::ForceDisconnect);
                step.end = true;
            },
            ServerMessage::Voice(voice) => {
                let ghost before = *converter;
                let (lsf, stream) = converter.next(&voice);
                match lsf {
                    Some(lsf) => {
                        match KissFrame::new_stream_setup(&lsf.0) {
                            Ok(k) => step.to_host.push(k),
                            Err(_) => {},
                        }
                    },
                    None => {},
                }
                match KissFrame::new_stream_data(&stream) {
                    Ok(k) => step.to_host.push(k),
                    Err(_) => {},
                }
                assert(stream_data_bytes(stream) == step.to_host@.last().bytes());
                step.stream = Some(stream);
                proof {
                    let this_lsf = with_crc(voice.0@.subrange(6, 34));
                    let new_stream = before.current_lsf() is None || before.current_lsf()->Some_0.0@ != this_lsf;
                    let idx = if new_stream { 0 } else { before.lich_counter() };
                    assert(stream_from_voice(voice.0@, this_lsf, idx, stream));
                }
            },
            ServerMessage::Ping(_) => {
                let mut pong = Pong::new();
                let ghost m0 = pong.0@;
                pong.set_address(*local);
                assert(pong.0@.subrange(0, 4) =~= m0.subrange(0, 4));
                assert(pong.0@.subrange(4, 10) =~= be48_bytes(address_value(*local)));
                step.send = Some(vstd::slice::slice_to_vec(pong.as_bytes()));
                assert(pong.0@.subrange(0, 10) =~= pong.0@);
            },
            _ => {},
        },
    }
    step
}

/// Feed a KISS frame from the host into the uplink. A stream LSF (30-byte
/// payload with a valid CRC) starts a new stream id; stream data (26-byte
/// payload) becomes a `Voice` datagram once an LSF has been seen. Anything
/// else is ignored.
pub fn host_frame_to_voice(frame: &KissFrame, uplink: &mut Option<RfToVoice>) -> (r: Option<Voice>)
    ensures
        ({
            let h = frame.header_index();
            let stream_data = h < MAX_FRAME_LEN && command_of(frame.data@[h] & 0x0fu8) == Some(KissCommand::DataFrame)
                && frame.data@[h] >> 4u8 == PORT_STREAM && frame.well_framed();
            let pl = frame.payload();
            let n = if pl.len() < 30 { pl.len() as int } else { 30 };
            &&& !stream_data ==> r is None && *final(uplink) == *old(uplink)
            &&& stream_data && n == 30 && crate::crc::crc16(pl.subrange(0, 30)) == 0 ==> r is None
                && (*final(uplink)) is Some && (*final(uplink))->Some_0.lsf().0@ == pl.subrange(0, 30)
                && ((*old(uplink)) is Some ==> (*final(uplink))->Some_0.stream_id() == (if (*old(uplink))->Some_0.stream_id() == u16::MAX {
                    0
                } else {
                    (*old(uplink))->Some_0.stream_id() + 1
                }))
            &&& stream_data && n == 26 ==> *final(uplink) == *old(uplink) && ((*old(uplink)) is None ==> r is None)
                && ((*old(uplink)) is Some ==> r is Some && exists|f: StreamFrame| #[trigger] parsed_stream_frame(pl, f)
                    && r->Some_0.0@ == with_crc_at(voice_body((*old(uplink))->Some_0.stream_id(), (*old(uplink))->Some_0.lsf(), f), 54))
            &&& stream_data && n != 26 && !(n == 30 && crate::crc::crc16(pl.subrange(0, 30)) == 0) ==> r is None && *final(uplink) == *old(uplink)
        }),
{
    match frame.command() {
        Ok(KissCommand::DataFrame) => {},
        _ => {
            return None;
        },
    }
    match frame.port() {
        Ok(p) => {
            if p != PORT_STREAM {
                return None;
            }
        },
        Err(_) => {
            return None;
        },
    }
    let mut payload = [0u8; 30];
    let len = match frame.decode_payload(&mut payload) {
        Ok(n) => n,
        Err(_) => {
            return None;
        },
    };
    let ghost pl = frame.payload();
    proof {
        assert forall|q: int| 0 <= q < len implies payload@[q] == pl[q] by {
            assert(payload@.subrange(0, len as int)[q] == payload@[q]);
        }
    }
    if len == 30 {
        let lsf = LsfFrame(payload);
        assert(lsf.0@ =~= pl.subrange(0, 30));
        if lsf.check_crc() != 0 {
            return None;
        }
        match uplink {
            Some(to_voice) => to_voice.process_lsf(lsf),
            None => {
                *uplink = Some(RfToVoice::new(lsf));
            },
        }
        None
    } else if len == 26 {
        let mut lich_part = [0u8; 5];
        let mut k: usize = 0;
        while k < 5
            invariant
                0 <= k <= 5,
                forall|q: int| 0 <= q < k ==> lich_part@[q] == payload@[q],
            decreases 5 - k,
        {
            lich_part[k] = payload[k];
            k = k + 1;
        }
        let mut stream_data = [0u8; 16];
        let mut k: usize = 0;
        while k < 16
            invariant
                0 <= k <= 16,
                forall|q: int| 0 <= q < k ==> stream_data@[q] == payload@[8 + q],
            decreases 16 - k,
        {
            stream_data[k] = payload[8 + k];
            k = k + 1;
        }
        let frame_num_part = ((payload[6] as u16) << 8u16) | (payload[7] as u16);
        let f = StreamFrame {
            lich_idx: payload[5] >> 5u8,
            lich_part,
            frame_number: frame_num_part & 0x7fffu16,
            end_of_stream: payload[6] & 0x80u8 != 0,
            stream_data,
        };
        assert(f.lich_part@ =~= pl.subrange(0, 5));
        assert(f.stream_data@ =~= pl.subrange(8, 24));
        assert(parsed_stream_frame(pl, f));
        match uplink {
            Some(to_voice) => Some(to_voice.process_stream(&f)),
            None => None,
        }
    } else {
        None
    }
}

} // verus!
