//! Decisions of the soundmodem driver that joins a TNC and a modulator: when
//! to switch PTT, how the sample clock is counted, and how the modulator's
//! requests reach the TNC. The driver performs the audio and PTT I/O.

use vstd::prelude::*;
use crate::modem::{ModulatorAction, ModulatorFrame, ModulatorSchedule};
use crate::tnc::{SoftTnc, tx_frame_post, tx_end_post};

verus! {

/// Sample rate of the baseband, in samples per second.
pub const SAMPLE_RATE: u64 = 48000;

/// The PTT line must change when the TNC's PTT differs from the line's
/// state: `Some(on)` to switch it, `None` to leave it.
pub fn ptt_edge(was_on: bool, now_on: bool) -> (r: Option<bool>)
    ensures
        r == if was_on != now_on { Some(now_on) } else { None::<bool> },
{
    if was_on != now_on {
        Some(now_on)
    } else {
        None
    }
}

/// The sample clock after `secs` seconds and `nanos` nanoseconds, at 48 kHz
/// (20833 ns per sample), saturating.
pub fn sample_clock(secs: u64, nanos: u32) -> (r: u64)
    ensures
        r == if SAMPLE_RATE * secs + nanos / 20833 <= u64::MAX {
            (SAMPLE_RATE * secs + nanos / 20833) as u64
        } else {
            u64::MAX
        },
{
    let whole = secs.checked_mul(SAMPLE_RATE);
    match whole {
        Some(w) => w.saturating_add((nanos / 20833) as u64),
        None => u64::MAX,
    }
}

/// What the driver does next, on behalf of the modulator.
#[derive(Debug, Clone, Copy, PartialEq, Eq)]
pub enum DriverAction {
    /// Set the output buffer's idle flag.
    SetIdle(bool),
    /// Move the current frame's samples into the output buffer.
    ReadOutput,
    /// Modulate this frame from the TNC, then report its length with
    /// `ModulatorSchedule::frame_loaded`.
    Modulate(ModulatorFrame),
    /// The TNC had nothing to send.
    NoFrame,
    /// The TNC was told when the transmission ends.
    EndTimeSet(usize),
}

/// One step of the modulator's requests. A frame request goes to the TNC's
/// `read_tx_frame`; the end time of a transmission goes to the TNC's
/// `set_tx_end_time`; reading output and the idle flag go to the driver.
/// `None` when the modulator has nothing to do.
pub fn drive(tnc: &mut SoftTnc, m: &mut ModulatorSchedule) -> (r: Option<DriverAction>)
    requires
        old(tnc).wf(),
        old(m).wf(),
    ensures
        final(tnc).wf(),
        final(m).wf(),
        old(m).end_report() is Some ==> r == Some(DriverAction::EndTimeSet(old(m).end_report()->Some_0))
            && tx_end_post(*old(tnc), *final(tnc), old(m).end_report()->Some_0),
        old(m).end_report() is None && old(m).frame_read() < old(m).frame_len() ==> r == Some(
            DriverAction::ReadOutput,
        ) && *final(tnc) == *old(tnc),
        old(m).end_report() is None && old(m).frame_read() >= old(m).frame_len() && old(m).idle_report() is Some
            ==> r == Some(DriverAction::SetIdle(old(m).idle_report()->Some_0)) && *final(tnc) == *old(tnc),
        old(m).end_report() is None && old(m).frame_read() >= old(m).frame_len() && old(m).idle_report() is None
            && old(m).wants_frame() ==> ({
            ||| r == Some(DriverAction::NoFrame) && tx_frame_post(*old(tnc), *final(tnc), None)
                && !final(m).wants_frame()
            ||| r is Some && r->Some_0 is Modulate && tx_frame_post(
                *old(tnc),
                *final(tnc),
                Some(r->Some_0->Modulate_0),
            ) && final(m).wants_frame()
        }),
        old(m).end_report() is None && old(m).frame_read() >= old(m).frame_len() && old(m).idle_report() is None
            && !old(m).wants_frame() ==> r is None && *final(tnc) == *old(tnc),
{
    match m.run() {
        None => None,
        Some(ModulatorAction::TransmissionWillEnd(k)) => {
            tnc.set_tx_end_time(k);
            Some(DriverAction::EndTimeSet(k))
        },
        Some(ModulatorAction::ReadOutput) => Some(DriverAction::ReadOutput),
        Some(ModulatorAction::SetIdle(b)) => Some(DriverAction::SetIdle(b)),
        Some(ModulatorAction::GetNextFrame) => match tnc.read_tx_frame() {
            Some(f) => Some(DriverAction::Modulate(f)),
            None => {
                m.no_frame();
                Some(DriverAction::NoFrame)
            },
        },
    }
}

} // verus!
