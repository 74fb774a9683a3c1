//! The interface between the TNC and a modulator: the frames it hands over
//! and the actions a modulator asks its driver to take.

use vstd::prelude::*;
use crate::protocol::{LsfFrame, PacketFrame, StreamFrame};

verus! {

/// What a modulator asks of the code that drives it.
#[derive(Debug, Clone, Copy, PartialEq, Eq)]
pub enum ModulatorAction {
    /// If true, once all samples are used up output reverts to equilibrium;
    /// if false, running out of samples is an underrun.
    SetIdle(bool),
    /// Ask the TNC for the next frame to transmit.
    GetNextFrame,
    /// Samples are ready for the output buffer.
    ReadOutput,
    /// The End Of Transmission will have been sent after this many samples;
    /// PTT may be released then.
    TransmissionWillEnd(usize),
}

/// Frames for transmission, emitted by the TNC in order and modulated by the
/// modulator straight after any frames it was given before.
#[derive(Debug, Clone, Copy, PartialEq, Eq)]
pub enum ModulatorFrame {
    /// Preamble, with the TNC's TxDelay in units of 10 ms.
    Preamble { tx_delay: u8 },
    Lsf(LsfFrame),
    Stream(StreamFrame),
    Packet(PacketFrame),
    EndOfTransmission,
}

/// Samples of one symbol-rate frame at 48 kHz with ten samples per symbol.
pub const FRAME_SAMPLES: usize = 1920;
/// Samples that flush the filter after an End Of Transmission frame.
pub const EOT_FLUSH_SAMPLES: usize = 80;
/// Samples per TxDelay unit of 10 ms at 48 kHz.
pub const SAMPLES_PER_TX_DELAY_UNIT: usize = 480;
/// Free space in the output buffer needed before asking for another frame.
pub const FRAME_SPACE: usize = 2000;

/// The modulator's timing decisions: when to ask for frames, how much
/// silence TxDelay needs, and when the end of a transmission is reported.
/// The samples of the current frame are produced elsewhere; this tracks how
/// many there are and how many have been read out.
pub struct ModulatorSchedule {
    /// Samples in the current frame.
    next_len: usize,
    /// Samples of the current frame already read out.
    next_read: usize,
    /// Zero samples still to emit before the preamble, for TxDelay.
    tx_delay_padding: usize,
    /// Whether the idle state must be reported.
    update_idle: bool,
    /// The idle state to report.
    idle: bool,
    /// An EOT frame was loaded: compute the end time at the next buffer update.
    calculate_tx_end: bool,
    /// End of transmission to report, in samples from now.
    report_tx_end: Option<usize>,
    /// Whether to ask the TNC for another frame.
    try_get_frame: bool,
    /// Expected delay beyond the buffer to reach the DAC, in samples.
    output_latency: usize,
    /// Samples in the output buffer not yet picked up.
    samples_in_buf: usize,
    /// Size the output buffer may grow to.
    buf_capacity: usize,
}

impl ModulatorSchedule {
    pub closed spec fn frame_len(&self) -> usize {
        self.next_len
    }

    pub closed spec fn frame_read(&self) -> usize {
        self.next_read
    }

    pub closed spec fn padding(&self) -> usize {
        self.tx_delay_padding
    }

    pub closed spec fn end_pending(&self) -> bool {
        self.calculate_tx_end
    }

    pub closed spec fn end_report(&self) -> Option<usize> {
        self.report_tx_end
    }

    pub closed spec fn wants_frame(&self) -> bool {
        self.try_get_frame
    }

    pub closed spec fn idle_report(&self) -> Option<bool> {
        if self.update_idle {
            Some(self.idle)
        } else {
            None
        }
    }
    pub closed spec fn latency(&self) -> usize {
        self.output_latency
    }

    pub closed spec fn wf(&self) -> bool {
        self.next_read <= self.next_len
    }

    pub fn new() -> (r: Self)
        ensures
            r.wf(),
            r.frame_len() == 0,
            r.frame_read() == 0,
            r.padding() == 0,
            !r.end_pending(),
            r.end_report() is None,
            !r.wants_frame(),
            r.idle_report() == Some(true),
            r.latency() == 0,
    {
        Self {
            next_len: 0,
            next_read: 0,
            tx_delay_padding: 0,
            update_idle: true,
            idle: true,
            calculate_tx_end: false,
            report_tx_end: None,
            try_get_frame: false,
            output_latency: 0,
            samples_in_buf: 0,
            buf_capacity: 0,
        }
    }

    /// The sound card reports the samples still queued, the buffer's
    /// capacity and the latency beyond it. After an EOT was loaded, the end
    /// of the transmission is then known: queued samples plus latency.
    pub fn update_output_buffer(&mut self, samples_to_play: usize, capacity: usize, output_latency: usize)
        requires
            old(self).wf(),
        ensures
            final(self).wf(),
            final(self).latency() == output_latency,
            !final(self).end_pending(),
            old(self).end_pending() ==> final(self).end_report() == Some(
                if samples_to_play + output_latency <= usize::MAX { (samples_to_play + output_latency) as usize } else { usize::MAX },
            ),
            !old(self).end_pending() ==> final(self).end_report() == old(self).end_report(),
            final(self).wants_frame() == (old(self).wants_frame() || (capacity >= samples_to_play
                && capacity - samples_to_play >= FRAME_SPACE)),
            final(self).frame_len() == old(self).frame_len(),
            final(self).frame_read() == old(self).frame_read(),
            final(self).padding() == old(self).padding(),
            final(self).idle_report() == old(self).idle_report(),
    {
        self.output_latency = output_latency;
        self.buf_capacity = capacity;
        self.samples_in_buf = samples_to_play;
        if self.calculate_tx_end {
            self.calculate_tx_end = false;
            self.report_tx_end = Some(samples_to_play.saturating_add(output_latency));
        }
        if capacity >= samples_to_play && capacity - samples_to_play >= FRAME_SPACE {
            self.try_get_frame = true;
        }
    }

    /// The TNC had no frame to give.
    pub fn no_frame(&mut self)
        ensures
            !final(self).wants_frame(),
            final(self).frame_len() == old(self).frame_len(),
            final(self).frame_read() == old(self).frame_read(),
            final(self).padding() == old(self).padding(),
            final(self).end_pending() == old(self).end_pending(),
            final(self).end_report() == old(self).end_report(),
            final(self).idle_report() == old(self).idle_report(),
            final(self).latency() == old(self).latency(),
            old(self).wf() ==> final(self).wf(),
    {
        self.try_get_frame = false;
    }

    /// A frame was modulated and replaces the current one: 1920 samples, and
    /// 80 more after an End Of Transmission to flush the filter.
    /// A preamble brings TxDelay padding, less what the latency already
    /// gives; an EOT makes the end time due at the next buffer update.
    pub fn frame_loaded(&mut self, frame: &ModulatorFrame, len: usize)
        requires
            len == FRAME_SAMPLES + if frame is EndOfTransmission { EOT_FLUSH_SAMPLES } else { 0 },
        ensures
            final(self).wf(),
            final(self).frame_len() == len,
            final(self).frame_read() == 0,
            match frame {
                ModulatorFrame::Preamble { tx_delay } => final(self).padding() == if tx_delay * SAMPLES_PER_TX_DELAY_UNIT
                    >= old(self).latency() {
                    (tx_delay * SAMPLES_PER_TX_DELAY_UNIT - old(self).latency()) as usize
                } else {
                    0
                } && final(self).end_pending() == old(self).end_pending(),
                ModulatorFrame::EndOfTransmission => final(self).padding() == old(self).padding() && final(self).end_pending(),
                _ => final(self).padding() == old(self).padding() && final(self).end_pending() == old(self).end_pending(),
            },
            final(self).end_report() == old(self).end_report(),
            final(self).wants_frame() == old(self).wants_frame(),
            final(self).idle_report() == old(self).idle_report(),
            final(self).latency() == old(self).latency(),
    {
        self.next_len = len;
        self.next_read = 0;
        match frame {
            ModulatorFrame::Preamble { tx_delay } => {
                let samples = (*tx_delay as usize) * SAMPLES_PER_TX_DELAY_UNIT;
                self.tx_delay_padding = samples.saturating_sub(self.output_latency);
            },
            ModulatorFrame::EndOfTransmission => {
                self.calculate_tx_end = true;
            },
            _ => {},
        }
    }

    /// Room for `room` output samples: first the TxDelay silence, then the
    /// current frame. Returns how many zeros and how many frame samples (from
    /// `frame_read()` on) go out.
    pub fn take_output(&mut self, room: usize) -> (r: (usize, usize))
        requires
            old(self).wf(),
        ensures
            final(self).wf(),
            r.0 == if room < old(self).padding() { room } else { old(self).padding() },
            r.1 == if room - r.0 < old(self).frame_len() - old(self).frame_read() {
                room - r.0
            } else {
                old(self).frame_len() - old(self).frame_read()
            },
            final(self).padding() == old(self).padding() - r.0,
            final(self).frame_read() == old(self).frame_read() + r.1,
            final(self).frame_len() == old(self).frame_len(),
            final(self).end_pending() == old(self).end_pending(),
            final(self).end_report() == old(self).end_report(),
            final(self).wants_frame() == old(self).wants_frame(),
            final(self).idle_report() == old(self).idle_report(),
            final(self).latency() == old(self).latency(),
    {
        let zeros = if room < self.tx_delay_padding { room } else { self.tx_delay_padding };
        self.tx_delay_padding = self.tx_delay_padding - zeros;
        let left = room - zeros;
        let remaining = self.next_len - self.next_read;
        let samples = if left < remaining { left } else { remaining };
        self.next_read = self.next_read + samples;
        (zeros, samples)
    }

    /// The next action for the driver, most urgent first: the end time of a
    /// transmission, output to read, the idle state, a frame to fetch.
    pub fn run(&mut self) -> (r: Option<ModulatorAction>)
        requires
            old(self).wf(),
        ensures
            final(self).wf(),
            old(self).end_report() is Some ==> r == Some(ModulatorAction::TransmissionWillEnd(old(self).end_report()->Some_0))
                && final(self).end_report() is None && final(self).idle_report() == old(self).idle_report(),
            old(self).end_report() is None && old(self).frame_read() < old(self).frame_len() ==> r == Some(ModulatorAction::ReadOutput)
                && final(self).idle_report() == old(self).idle_report(),
            old(self).end_report() is None && old(self).frame_read() >= old(self).frame_len() && old(self).idle_report() is Some
                ==> r == Some(ModulatorAction::SetIdle(old(self).idle_report()->Some_0)) && final(self).idle_report() is None,
            old(self).end_report() is None && old(self).frame_read() >= old(self).frame_len() && old(self).idle_report() is None
                ==> r == (if old(self).wants_frame() { Some(ModulatorAction::GetNextFrame) } else { None::<ModulatorAction> })
                && final(self).idle_report() is None,
            final(self).frame_len() == old(self).frame_len(),
            final(self).frame_read() == old(self).frame_read(),
            final(self).padding() == old(self).padding(),
            final(self).end_pending() == old(self).end_pending(),
            final(self).wants_frame() == old(self).wants_frame(),
            final(self).latency() == old(self).latency(),
            old(self).end_report() is None ==> final(self).end_report() is None,
    {
        if self.report_tx_end.is_some() {
            let end = self.report_tx_end.unwrap();
            self.report_tx_end = None;
            return Some(ModulatorAction::TransmissionWillEnd(end));
        }
        if self.next_read < self.next_len {
            return Some(ModulatorAction::ReadOutput);
        }
        if self.update_idle {
            self.update_idle = false;
            return Some(ModulatorAction::SetIdle(self.idle));
        }
        if self.try_get_frame {
            return Some(ModulatorAction::GetNextFrame);
        }
        None
    }
}

} // verus!
