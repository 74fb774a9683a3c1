use m17core::address::{Address, Callsign};
use m17core::convert::{RfToVoice, VoiceToRf};
use m17core::crc::m17_crc;
use m17core::kiss::{KissCommand, KissFrame, FEND, MAX_FRAME_LEN, PORT_PACKET_FULL, PORT_STREAM};
use m17core::modem::{ModulatorAction, ModulatorFrame, ModulatorSchedule};
use m17core::protocol::{Frame, LsfFrame, PacketFrame, PacketFrameCounter, PacketType, StreamFrame};
use m17core::reflector_client::{runner_step, RunnerAction, RunnerEvent, TncStatus};
use m17core::soundmodem::{drive, ptt_edge, sample_clock, DriverAction};
use m17core::tnc::SoftTnc;

#[test]
fn convert_roundtrip() {
    let lsf = LsfFrame::new_voice(
        &Address::Callsign(Callsign(*b"VK7XT    ")),
        &Address::Broadcast,
    );
    let stream = StreamFrame {
        lich_idx: 0,
        lich_part: lsf.0[0..5].try_into().unwrap(),
        frame_number: 0,
        end_of_stream: false,
        stream_data: [1u8; 16],
    };
    let rf_to_voice = RfToVoice::new(lsf.clone());
    let voice = rf_to_voice.process_stream(&stream);

    let mut voice_to_rf = VoiceToRf::new();
    let (lsf2, stream2) = voice_to_rf.next(&voice);
    assert_eq!(lsf2, Some(lsf));
    assert_eq!(stream2, stream);
}

#[test]
fn tnc_receive_single_frame_packet() {
    let lsf = LsfFrame::new_packet(
        &Address::Callsign(Callsign(*b"VK7XT    ")),
        &Address::Broadcast,
    );
    let mut payload = [0u8; 25];
    let (pt, pt_len) = PacketType::Sms.as_proto();
    payload[0..pt_len].copy_from_slice(&pt[0..pt_len]);
    payload[pt_len] = 0x41; // a message
    let crc = m17_crc(&payload[0..=pt_len]).to_be_bytes();
    payload[pt_len + 1] = crc[0];
    payload[pt_len + 2] = crc[1];

    let packet = PacketFrame {
        payload,
        counter: PacketFrameCounter::FinalFrame {
            payload_len: pt_len + 3,
        },
    };
    let mut tnc = SoftTnc::new();
    let mut kiss = KissFrame::new_empty();

    // TNC consumes LSF but has nothing to report yet
    tnc.handle_frame(Frame::Lsf(lsf));
    assert_eq!(tnc.read_kiss(&mut kiss.data), 0);


    tnc.handle_frame(Frame::Packet(packet));
    kiss.len = tnc.read_kiss(&mut kiss.data);
    assert_eq!(kiss.command().unwrap(), KissCommand::DataFrame);
    assert_eq!(kiss.port().unwrap(), PORT_PACKET_FULL);

    let mut payload_buf = [0u8; 2048];
    let n = kiss.decode_payload(&mut payload_buf).unwrap();
    assert_eq!(n, 30 + 1 + pt_len + 2);

    // did we receive our message? (after the LSF)
    assert_eq!(payload_buf[pt_len + 30], 0x41);
}

#[test]
fn tnc_receive_multiple_frame_packet() {
    let lsf = LsfFrame::new_packet(
        &Address::Callsign(Callsign(*b"VK7XT    ")),
        &Address::Broadcast,
    );
    let mut payload = [0x41u8; 26]; // spans two frames
    let (pt, pt_len) = PacketType::Sms.as_proto();
    payload[0..pt_len].copy_from_slice(&pt[0..pt_len]);
    let crc = m17_crc(&payload[0..24]).to_be_bytes();
    payload[24] = crc[0];
    payload[25] = crc[1];

    let packet1 = PacketFrame {
        payload: payload[0..25].try_into().unwrap(),
        counter: PacketFrameCounter::Frame { index: 0 },
    };
    let mut payload2 = [0u8; 25];
    payload2[0] = payload[25];
    let packet2 = PacketFrame {
        payload: payload2,
        counter: PacketFrameCounter::FinalFrame { payload_len: 1 },
    };

    let mut tnc = SoftTnc::new();
    let mut kiss = KissFrame::new_empty();

    // Nothing to report until second final packet frame received
    tnc.handle_frame(Frame::Lsf(lsf));
    assert_eq!(tnc.read_kiss(&mut kiss.data), 0);
    tnc.handle_frame(Frame::Packet(packet1));
    assert_eq!(tnc.read_kiss(&mut kiss.data), 0);

    tnc.handle_frame(Frame::Packet(packet2));
    kiss.len = tnc.read_kiss(&mut kiss.data);
    assert_eq!(kiss.command().unwrap(), KissCommand::DataFrame);
    assert_eq!(kiss.port().unwrap(), PORT_PACKET_FULL);

    let mut payload_buf = [0u8; 2048];
    let n = kiss.decode_payload(&mut payload_buf).unwrap();
    assert_eq!(n, 30 + 26);

    // did we receive our message? (after the LSF)
    assert_eq!(payload_buf[pt_len + 30], 0x41);
}

#[test]
fn tnc_receive_partial_packet() {
    let lsf = LsfFrame::new_packet(
        &Address::Callsign(Callsign(*b"VK7XT    ")),
        &Address::Broadcast,
    );
    let mut payload = [0x41u8; 26]; // spans two frames
    let (pt, pt_len) = PacketType::Sms.as_proto();
    payload[0..pt_len].copy_from_slice(&pt[0..pt_len]);
    let crc = m17_crc(&payload[0..24]).to_be_bytes();
    payload[24] = crc[0];
    payload[25] = crc[1];

    let packet1 = PacketFrame {
        payload: payload[0..25].try_into().unwrap(),
        counter: PacketFrameCounter::Frame { index: 0 },
    };
    // final frame of this transmission is dropped

    let lsf2 = LsfFrame::new_packet(
        &Address::Callsign(Callsign(*b"VK7XT    ")),
        &Address::Broadcast,
    );
    let mut payload = [0u8; 25];
    let (pt, pt_len) = PacketType::Sms.as_proto();
    payload[0..pt_len].copy_from_slice(&pt[0..pt_len]);
    payload[pt_len] = 0x42;
    let crc = m17_crc(&payload[0..=pt_len]).to_be_bytes();
    payload[pt_len + 1] = crc[0];
    payload[pt_len + 2] = crc[1];

    let packet2 = PacketFrame {
        payload: payload[0..25].try_into().unwrap(),
        counter: PacketFrameCounter::FinalFrame {
            payload_len: pt_len + 3,
        },
    };

    let mut tnc = SoftTnc::new();
    let mut kiss = KissFrame::new_empty();

    // Nothing to report until second packet received in its entirety
    tnc.handle_frame(Frame::Lsf(lsf));
    assert_eq!(tnc.read_kiss(&mut kiss.data), 0);
    tnc.handle_frame(Frame::Packet(packet1));
    assert_eq!(tnc.read_kiss(&mut kiss.data), 0);
    tnc.handle_frame(Frame::Lsf(lsf2));
    assert_eq!(tnc.read_kiss(&mut kiss.data), 0);
    tnc.handle_frame(Frame::Packet(packet2));

    kiss.len = tnc.read_kiss(&mut kiss.data);
    assert_eq!(kiss.command().unwrap(), KissCommand::DataFrame);
    assert_eq!(kiss.port().unwrap(), PORT_PACKET_FULL);

    let mut payload_buf = [0u8; 2048];
    let n = kiss.decode_payload(&mut payload_buf).unwrap();
    assert_eq!(n, 30 + 1 + pt_len + 2);
    // we have received the second packet which has 0x42 in it
    assert_eq!(payload_buf[pt_len + 30], 0x42);
}

#[test]
fn tnc_receive_stream() {
    let lsf = LsfFrame([
        255, 255, 255, 255, 255, 255, 0, 0, 0, 159, 221, 81, 5, 5, 0, 0, 0, 0, 0, 0, 0, 0, 0,
        0, 0, 0, 0, 0, 131, 53,
    ]);
    let stream1 = StreamFrame {
        lich_idx: 0,
        lich_part: [255, 255, 255, 255, 255],
        frame_number: 0,
        end_of_stream: false,
        stream_data: [
            128, 0, 119, 115, 220, 252, 41, 235, 8, 0, 116, 195, 94, 244, 45, 75,
        ],
    };
    let stream2 = StreamFrame {
        lich_idx: 1,
        lich_part: [255, 0, 0, 0, 159],
        frame_number: 1,
        end_of_stream: true,
        stream_data: [
            17, 0, 94, 82, 216, 135, 181, 15, 30, 0, 125, 195, 152, 183, 41, 57,
        ],
    };
    let mut tnc = SoftTnc::new();
    let mut kiss = KissFrame::new_empty();
    assert_eq!(tnc.read_kiss(&mut kiss.data), 0);

    tnc.handle_frame(Frame::Lsf(lsf));
    kiss.len = tnc.read_kiss(&mut kiss.data);
    assert_eq!(kiss.command().unwrap(), KissCommand::DataFrame);
    assert_eq!(kiss.port().unwrap(), PORT_STREAM);

    let mut payload_buf = [0u8; 2048];
    let n = kiss.decode_payload(&mut payload_buf).unwrap();
    assert_eq!(n, 30);

    tnc.handle_frame(Frame::Stream(stream1));
    kiss.len = tnc.read_kiss(&mut kiss.data);
    assert_eq!(kiss.command().unwrap(), KissCommand::DataFrame);
    assert_eq!(kiss.port().unwrap(), PORT_STREAM);

    let n = kiss.decode_payload(&mut payload_buf).unwrap();
    assert_eq!(n, 26);

    tnc.handle_frame(Frame::Stream(stream2));
    kiss.len = tnc.read_kiss(&mut kiss.data);
    assert_eq!(kiss.command().unwrap(), KissCommand::DataFrame);
    assert_eq!(kiss.port().unwrap(), PORT_STREAM);

    let n = kiss.decode_payload(&mut payload_buf).unwrap();
    assert_eq!(n, 26);
}

#[test]
fn tnc_acquire_stream() {
    let frames = [
        StreamFrame {
            lich_idx: 0,
            lich_part: [255, 255, 255, 255, 255],
            frame_number: 0,
            end_of_stream: false,
            stream_data: [
                128, 0, 119, 115, 220, 252, 41, 235, 8, 0, 116, 195, 94, 244, 45, 75,
            ],
        },
        StreamFrame {
            lich_idx: 1,
            lich_part: [255, 0, 0, 0, 159],
            frame_number: 1,
            end_of_stream: false,
            stream_data: [
                17, 0, 94, 82, 216, 135, 181, 15, 30, 0, 125, 195, 152, 183, 41, 57,
            ],
        },
        StreamFrame {
            lich_idx: 2,
            lich_part: [221, 81, 5, 5, 0],
            frame_number: 2,
            end_of_stream: false,
            stream_data: [
                17, 128, 93, 74, 154, 167, 169, 11, 20, 0, 116, 91, 158, 220, 45, 111,
            ],
        },
        StreamFrame {
            lich_idx: 3,
            lich_part: [0, 0, 0, 0, 0],
            frame_number: 3,
            end_of_stream: false,
            stream_data: [
                15, 128, 114, 83, 218, 252, 59, 111, 31, 128, 116, 91, 84, 231, 45, 105,
            ],
        },
        StreamFrame {
            lich_idx: 4,
            lich_part: [0, 0, 0, 0, 0],
            frame_number: 4,
            end_of_stream: false,
            stream_data: [
                9, 128, 119, 115, 220, 220, 57, 15, 48, 128, 124, 83, 158, 236, 181, 91,
            ],
        },
        StreamFrame {
            lich_idx: 5,
            lich_part: [0, 0, 0, 131, 53],
            frame_number: 5,
            end_of_stream: false,
            stream_data: [
                52, 0, 116, 90, 152, 167, 225, 216, 32, 0, 116, 83, 156, 212, 33, 216,
            ],
        },
    ];

    let mut tnc = SoftTnc::new();
    let mut kiss = KissFrame::new_empty();
    for f in frames {
        tnc.handle_frame(Frame::Stream(f));
    }
    kiss.len = tnc.read_kiss(&mut kiss.data);
    let mut payload_buf = [0u8; 2048];
    let n = kiss.decode_payload(&mut payload_buf).unwrap();
    assert_eq!(n, 30);
    assert_eq!(
        &payload_buf[0..30],
        [
            255, 255, 255, 255, 255, 255, 0, 0, 0, 159, 221, 81, 5, 5, 0, 0, 0, 0, 0, 0, 0, 0,
            0, 0, 0, 0, 0, 0, 131, 53,
        ]
    );
}

#[test]
fn tnc_handle_skipped_stream_frame() {
    let lsf = LsfFrame([
        255, 255, 255, 255, 255, 255, 0, 0, 0, 159, 221, 81, 5, 5, 0, 0, 0, 0, 0, 0, 0, 0, 0,
        0, 0, 0, 0, 0, 131, 53,
    ]);
    let stream1 = StreamFrame {
        lich_idx: 0,
        lich_part: [255, 255, 255, 255, 255],
        frame_number: 0,
        end_of_stream: false,
        stream_data: [
            128, 0, 119, 115, 220, 252, 41, 235, 8, 0, 116, 195, 94, 244, 45, 75,
        ],
    };
    let stream3 = StreamFrame {
        lich_idx: 2,
        lich_part: [221, 81, 5, 5, 0],
        frame_number: 2,
        end_of_stream: false,
        stream_data: [
            17, 128, 93, 74, 154, 167, 169, 11, 20, 0, 116, 91, 158, 220, 45, 111,
        ],
    };
    let mut tnc = SoftTnc::new();
    let mut kiss = KissFrame::new_empty();
    assert_eq!(tnc.read_kiss(&mut kiss.data), 0);

    tnc.handle_frame(Frame::Lsf(lsf));
    kiss.len = tnc.read_kiss(&mut kiss.data);
    assert_eq!(kiss.command().unwrap(), KissCommand::DataFrame);
    assert_eq!(kiss.port().unwrap(), PORT_STREAM);

    let mut payload_buf = [0u8; 2048];
    let n = kiss.decode_payload(&mut payload_buf).unwrap();
    assert_eq!(n, 30);

    tnc.handle_frame(Frame::Stream(stream1));
    kiss.len = tnc.read_kiss(&mut kiss.data);
    assert_eq!(kiss.command().unwrap(), KissCommand::DataFrame);
    assert_eq!(kiss.port().unwrap(), PORT_STREAM);

    let n = kiss.decode_payload(&mut payload_buf).unwrap();
    assert_eq!(n, 26);

    tnc.handle_frame(Frame::Stream(stream3));
    kiss.len = tnc.read_kiss(&mut kiss.data);
    assert_eq!(kiss.command().unwrap(), KissCommand::DataFrame);
    assert_eq!(kiss.port().unwrap(), PORT_STREAM);

    let n = kiss.decode_payload(&mut payload_buf).unwrap();
    assert_eq!(n, 26);
}

fn packet_lsf() -> LsfFrame {
    LsfFrame::new_packet(
        &Address::Callsign(Callsign(*b"VK7XT    ")),
        &Address::Broadcast,
    )
}

#[test]
fn tnc_packet_tx_sequencing() {
    let lsf = packet_lsf();
    let body = [0x42u8; 60];
    let kiss = KissFrame::new_full_packet(&lsf.0, &body).unwrap();
    let mut tnc = SoftTnc::new();
    assert_eq!(tnc.write_kiss(kiss.as_bytes()), kiss.len);
    assert_eq!(tnc.read_tx_frame(), Some(ModulatorFrame::Preamble { tx_delay: 0 }));
    assert!(tnc.ptt());
    assert_eq!(tnc.read_tx_frame(), Some(ModulatorFrame::Lsf(lsf)));
    match tnc.read_tx_frame() {
        Some(ModulatorFrame::Packet(p)) => {
            assert_eq!(p.counter, PacketFrameCounter::Frame { index: 0 });
            assert_eq!(p.payload, [0x42u8; 25]);
        }
        _ => panic!("expected first packet frame"),
    }
    match tnc.read_tx_frame() {
        Some(ModulatorFrame::Packet(p)) => {
            assert_eq!(p.counter, PacketFrameCounter::Frame { index: 1 })
        }
        _ => panic!("expected second packet frame"),
    }
    match tnc.read_tx_frame() {
        Some(ModulatorFrame::Packet(p)) => {
            assert_eq!(p.counter, PacketFrameCounter::FinalFrame { payload_len: 10 });
            assert_eq!(&p.payload[0..10], &[0x42u8; 10]);
        }
        _ => panic!("expected final packet frame"),
    }
    assert_eq!(tnc.read_tx_frame(), Some(ModulatorFrame::EndOfTransmission));
    assert_eq!(tnc.read_tx_frame(), None);
    assert!(tnc.ptt());
}

#[test]
fn tnc_ptt_released_at_reported_end() {
    let lsf = packet_lsf();
    let kiss = KissFrame::new_full_packet(&lsf.0, &[1u8; 5]).unwrap();
    let mut tnc = SoftTnc::new();
    tnc.write_kiss(kiss.as_bytes());
    while let Some(f) = tnc.read_tx_frame() {
        if f == ModulatorFrame::EndOfTransmission {
            break;
        }
    }
    tnc.set_now(1000);
    tnc.set_tx_end_time(500);
    tnc.set_now(1499);
    assert!(tnc.ptt());
    tnc.set_now(1500);
    assert!(!tnc.ptt());
}

#[test]
fn tnc_csma_defers_while_busy() {
    let lsf = packet_lsf();
    let kiss = KissFrame::new_full_packet(&lsf.0, &[1u8; 5]).unwrap();
    let mut tnc = SoftTnc::new();
    tnc.write_kiss(kiss.as_bytes());
    tnc.set_data_carrier_detect(true);
    for t in [0u64, 100, 1920, 1923, 3843, 10000] {
        tnc.set_now(t);
        assert_eq!(tnc.read_tx_frame(), None);
        assert!(!tnc.ptt());
    }
    tnc.set_data_carrier_detect(false);
    // the clock advances one sample per call; a later slot lets the
    // transmission start, with exactly one preamble before the LSF
    let mut t = 20000u64;
    let first = loop {
        tnc.set_now(t);
        if let Some(f) = tnc.read_tx_frame() {
            break f;
        }
        assert!(!tnc.ptt());
        t += 1;
        assert!(t < 20000 + 1920 * 64, "channel never granted");
    };
    assert_eq!(first, ModulatorFrame::Preamble { tx_delay: 0 });
    assert_eq!(tnc.read_tx_frame(), Some(ModulatorFrame::Lsf(lsf)));
}

#[test]
fn tnc_full_duplex_skips_csma() {
    let lsf = packet_lsf();
    let mut tnc = SoftTnc::new();
    tnc.write_kiss(KissFrame::set_full_duplex(0, true).as_bytes());
    tnc.write_kiss(KissFrame::new_set_tx_delay(0, 25).as_bytes());
    tnc.write_kiss(KissFrame::new_full_packet(&lsf.0, &[1u8; 5]).unwrap().as_bytes());
    tnc.set_data_carrier_detect(true);
    assert_eq!(tnc.read_tx_frame(), Some(ModulatorFrame::Preamble { tx_delay: 25 }));
}

#[test]
fn tnc_basic_packet_gets_raw_prefix_and_crc() {
    let mut tnc = SoftTnc::new();
    tnc.write_kiss(KissFrame::new_basic_packet(&[0x41, 0x42]).unwrap().as_bytes());
    match tnc.read_tx_frame() {
        Some(ModulatorFrame::Preamble { .. }) => {}
        _ => panic!("expected preamble"),
    }
    match tnc.read_tx_frame() {
        Some(ModulatorFrame::Lsf(l)) => {
            assert_eq!(l.check_crc(), 0);
            assert_eq!(l.source(), Address::Callsign(Callsign(*b"M17RT-PKT")));
            assert_eq!(l.destination(), Address::Broadcast);
        }
        _ => panic!("expected lsf"),
    }
    match tnc.read_tx_frame() {
        Some(ModulatorFrame::Packet(p)) => {
            assert_eq!(p.counter, PacketFrameCounter::FinalFrame { payload_len: 5 });
            assert_eq!(&p.payload[0..3], &[0x00, 0x41, 0x42]);
            assert_eq!(m17_crc(&p.payload[0..5]), 0);
        }
        _ => panic!("expected packet"),
    }
}

#[test]
fn tnc_stream_tx_sequencing() {
    let lsf = LsfFrame::new_voice(
        &Address::Callsign(Callsign(*b"VK7XT    ")),
        &Address::Broadcast,
    );
    let mut tnc = SoftTnc::new();
    tnc.write_kiss(KissFrame::new_stream_setup(&lsf.0).unwrap().as_bytes());
    let f1 = StreamFrame {
        lich_idx: 0,
        lich_part: lsf.0[0..5].try_into().unwrap(),
        frame_number: 0,
        end_of_stream: false,
        stream_data: [7u8; 16],
    };
    let f2 = StreamFrame {
        lich_idx: 1,
        lich_part: lsf.0[5..10].try_into().unwrap(),
        frame_number: 1,
        end_of_stream: true,
        stream_data: [0xC0u8; 16],
    };
    tnc.write_kiss(KissFrame::new_stream_data(&f1).unwrap().as_bytes());
    tnc.write_kiss(KissFrame::new_stream_data(&f2).unwrap().as_bytes());
    assert_eq!(tnc.read_tx_frame(), Some(ModulatorFrame::Preamble { tx_delay: 0 }));
    assert_eq!(tnc.read_tx_frame(), Some(ModulatorFrame::Lsf(lsf)));
    assert_eq!(tnc.read_tx_frame(), Some(ModulatorFrame::Stream(f1)));
    assert_eq!(tnc.read_tx_frame(), Some(ModulatorFrame::Stream(f2)));
    assert_eq!(tnc.read_tx_frame(), Some(ModulatorFrame::EndOfTransmission));
    assert_eq!(tnc.read_tx_frame(), None);
}

#[test]
fn tnc_ignores_frames_while_transmitting() {
    let lsf = packet_lsf();
    let mut tnc = SoftTnc::new();
    tnc.write_kiss(KissFrame::new_full_packet(&lsf.0, &[1u8; 5]).unwrap().as_bytes());
    assert!(tnc.read_tx_frame().is_some());
    assert!(tnc.ptt());
    let voice = LsfFrame::new_voice(&Address::Broadcast, &Address::Broadcast);
    tnc.handle_frame(Frame::Lsf(voice));
    let mut buf = [0u8; 64];
    assert_eq!(tnc.read_kiss(&mut buf), 0);
}

#[test]
fn tnc_rejects_lsf_with_bad_crc() {
    let mut lsf = packet_lsf();
    lsf.0[29] ^= 1;
    let mut tnc = SoftTnc::new();
    tnc.write_kiss(KissFrame::new_full_packet(&lsf.0, &[1u8; 5]).unwrap().as_bytes());
    assert_eq!(tnc.read_tx_frame(), None);
}

#[test]
fn tnc_kiss_output_in_pieces() {
    let lsf = LsfFrame::new_voice(&Address::Broadcast, &Address::Broadcast);
    let expected = KissFrame::new_stream_setup(&lsf.0).unwrap();
    let mut tnc = SoftTnc::new();
    tnc.handle_frame(Frame::Lsf(lsf));
    let mut got = Vec::new();
    let mut buf = [0u8; 7];
    loop {
        let n = tnc.read_kiss(&mut buf);
        if n == 0 {
            break;
        }
        got.extend_from_slice(&buf[0..n]);
    }
    assert_eq!(got, expected.as_bytes());
}


#[test]
fn voice_to_rf_cycles_lich_and_ends_stream() {
    let lsf = LsfFrame::new_voice(
        &Address::Callsign(Callsign(*b"VK7XT    ")),
        &Address::Broadcast,
    );
    let mut rf_to_voice = RfToVoice::new(lsf);
    let mut voice_to_rf = VoiceToRf::new();
    for n in 0..8u16 {
        let f = StreamFrame {
            lich_idx: 0,
            lich_part: [0; 5],
            frame_number: n,
            end_of_stream: n == 7,
            stream_data: [n as u8; 16],
        };
        let (l, s) = voice_to_rf.next(&rf_to_voice.process_stream(&f));
        assert_eq!(l.is_some(), n == 0);
        let idx = (n % 6) as usize;
        assert_eq!(s.lich_idx as usize, idx);
        assert_eq!(&s.lich_part[..], &lsf.0[idx * 5..idx * 5 + 5]);
        assert_eq!(s.frame_number, n);
        assert_eq!(s.stream_data, [n as u8; 16]);
    }
    // after the end of stream, the same LSF starts a new stream
    let first = rf_to_voice.process_stream(&StreamFrame::empty());
    let (l, s) = voice_to_rf.next(&first);
    assert_eq!(l, Some(lsf));
    assert_eq!(s.lich_idx, 0);
    let id = rf_to_voice.process_stream(&StreamFrame::empty()).stream_id();
    rf_to_voice.process_lsf(lsf);
    assert_eq!(
        rf_to_voice.process_stream(&StreamFrame::empty()).stream_id(),
        id.wrapping_add(1)
    );
}

#[test]
fn tnc_ignores_malformed_host_frames() {
    let lsf = packet_lsf();
    let mut tnc = SoftTnc::new();
    // TxDelay with two bytes, a stream payload of 27 bytes, port 3 data, command P
    tnc.write_kiss(&[FEND, 0x01, 5, 6, FEND]);
    tnc.write_kiss(&[FEND, 0x20, 1, 2, 3, 4, 5, 6, 7, 8, 9, 10, 11, 12, 13, 14, 15, 16, 17, 18, 19, 20, 21, 22, 23, 24, 25, 26, 27, FEND]);
    tnc.write_kiss(&[FEND, 0x30, 1, 2, 3, FEND]);
    tnc.write_kiss(KissFrame::new_set_p(0, 9).as_bytes());
    assert_eq!(tnc.read_tx_frame(), None);
    // a long write is taken in part
    let big = vec![0u8; 4000];
    // one FEND from the last frame stays in the buffer as the start of the next
    assert_eq!(tnc.write_kiss(&big), MAX_FRAME_LEN - 1);
    tnc.write_kiss(KissFrame::new_full_packet(&lsf.0, &[1u8; 5]).unwrap().as_bytes());
    assert_eq!(tnc.read_tx_frame(), Some(ModulatorFrame::Preamble { tx_delay: 0 }));
}

#[test]
fn tnc_drops_packet_when_queue_full() {
    let lsf = packet_lsf();
    let mut tnc = SoftTnc::new();
    for i in 0..5u8 {
        tnc.write_kiss(KissFrame::new_full_packet(&lsf.0, &[i; 3]).unwrap().as_bytes());
    }
    assert!(matches!(tnc.read_tx_frame(), Some(ModulatorFrame::Preamble { .. })));
    let mut firsts = Vec::new();
    while let Some(f) = tnc.read_tx_frame() {
        if let ModulatorFrame::Packet(p) = f {
            firsts.push(p.payload[0]);
        }
    }
    assert_eq!(firsts, vec![0, 1, 2, 3]);
}

#[test]
fn modulator_schedule_tx_delay_and_end_time() {
    let mut m = ModulatorSchedule::new();
    assert_eq!(m.run(), Some(ModulatorAction::SetIdle(true)));
    assert_eq!(m.run(), None);
    m.update_output_buffer(0, 4000, 1000);
    assert_eq!(m.run(), Some(ModulatorAction::GetNextFrame));
    // TxDelay of 5 units is 2400 samples, of which the latency covers 1000
    m.frame_loaded(&ModulatorFrame::Preamble { tx_delay: 5 }, 1920);
    assert_eq!(m.run(), Some(ModulatorAction::ReadOutput));
    assert_eq!(m.take_output(1000), (1000, 0));
    assert_eq!(m.take_output(1000), (400, 600));
    assert_eq!(m.take_output(5000), (0, 1320));
    m.frame_loaded(&ModulatorFrame::EndOfTransmission, 2000);
    assert_eq!(m.take_output(2000), (0, 2000));
    m.update_output_buffer(1500, 4000, 700);
    assert_eq!(m.run(), Some(ModulatorAction::TransmissionWillEnd(2200)));
    assert_eq!(m.run(), Some(ModulatorAction::GetNextFrame));
    m.no_frame();
    assert_eq!(m.run(), None);
    // latency larger than the requested delay: no padding
    m.frame_loaded(&ModulatorFrame::Preamble { tx_delay: 1 }, 1920);
    assert_eq!(m.take_output(10), (0, 10));
}

#[test]
fn soundmodem_driver_routes_modulator_requests() {
    let lsf = packet_lsf();
    let mut tnc = SoftTnc::new();
    let mut m = ModulatorSchedule::new();
    assert_eq!(ptt_edge(false, tnc.ptt()), None);
    tnc.write_kiss(KissFrame::new_full_packet(&lsf.0, &[1u8; 5]).unwrap().as_bytes());
    assert_eq!(drive(&mut tnc, &mut m), Some(DriverAction::SetIdle(true)));
    assert_eq!(drive(&mut tnc, &mut m), None);
    m.update_output_buffer(0, 48000, 0);
    let mut frames = Vec::new();
    let mut ptt_line = false;
    loop {
        match drive(&mut tnc, &mut m) {
            Some(DriverAction::Modulate(f)) => {
                if let Some(on) = ptt_edge(ptt_line, tnc.ptt()) {
                    ptt_line = on;
                }
                let len = if f == ModulatorFrame::EndOfTransmission { 2000 } else { 1920 };
                m.frame_loaded(&f, len);
                frames.push(f);
            }
            Some(DriverAction::ReadOutput) => {
                let _ = m.take_output(4000);
            }
            Some(DriverAction::NoFrame) => break,
            Some(_) => {}
            None => break,
        }
    }
    assert!(ptt_line);
    assert_eq!(frames.first(), Some(&ModulatorFrame::Preamble { tx_delay: 0 }));
    assert_eq!(frames.last(), Some(&ModulatorFrame::EndOfTransmission));
    // the buffer update after EOT gives the end time, which reaches the TNC
    tnc.set_now(100);
    m.update_output_buffer(300, 48000, 50);
    assert_eq!(drive(&mut tnc, &mut m), Some(DriverAction::EndTimeSet(350)));
    tnc.set_now(449);
    assert!(tnc.ptt());
    tnc.set_now(450);
    assert_eq!(ptt_edge(ptt_line, tnc.ptt()), Some(false));
    assert_eq!(sample_clock(2, 41666), 96002);
    assert_eq!(sample_clock(u64::MAX, 0), u64::MAX);
}

#[test]
fn reflector_runner_steps() {
    assert_eq!(runner_step(true, RunnerEvent::Attempt), (Some(TncStatus::Closed), RunnerAction::Stop));
    assert_eq!(runner_step(false, RunnerEvent::Attempt), (Some(TncStatus::Connecting), RunnerAction::Resolve));
    assert_eq!(
        runner_step(false, RunnerEvent::ResolveFailed),
        (Some(TncStatus::Disconnected), RunnerAction::RetryAfterSecs(10))
    );
    assert_eq!(runner_step(false, RunnerEvent::Resolved), (None, RunnerAction::Connect));
    assert_eq!(
        runner_step(false, RunnerEvent::ConnectionEnded),
        (Some(TncStatus::Disconnected), RunnerAction::Restart)
    );
}
