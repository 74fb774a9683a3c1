use m17core::address::{Address, Callsign};
use m17core::bits::{get_bit, set_bit};
use m17core::crc::m17_crc;
use m17core::fec::{decode, encode, Puncture};
use m17core::frame::{
    encode_lsf_type3, encode_packet_type3, encode_stream_type3, packet_type1, parse_packet_type1,
    parse_stream_type1, stream_type1,
};
use m17core::host::{
    close_transition, interpret_tnc_frame, packet_kiss_frame, start_transition, HostEvent,
    Lifecycle,
};
use m17core::kiss::KissFrame;
use m17core::interleave::interleave;
use m17core::lich::{decode_lich, encode_lich};
use m17core::link_setup::{LinkSetup, M17Address, M17Error};
use m17core::protocol::{LsfFrame, PacketFrame, PacketFrameCounter, PacketType, StreamFrame};
use m17core::reflector::{
    ClientMessage, ConnectInterlink, InterlinkMessage, Packet, PacketInterlink, Pong,
    ServerMessage, Voice, VoiceDataInterlink, VoiceInterlink,
};

const LSF: [u8; 30] = [
    255, 255, 255, 255, 255, 255, 0, 0, 0, 159, 221, 81, 5, 5, 0, 0, 0, 0, 0, 0, 0, 0, 0, 0, 0, 0,
    0, 0, 131, 53,
];

#[test]
fn lsf_fec_round_trip() {
    let lsf = LSF;
    let expected_encoded = [
        222, 73, 36, 146, 73, 37, 182, 219, 109, 76, 0, 0, 0, 5, 191, 47, 25, 186, 30, 214, 237,
        110, 0, 0, 0, 0, 0, 0, 0, 0, 0, 0, 0, 0, 0, 0, 0, 0, 0, 0, 0, 0, 42, 153, 208, 119,
    ];
    let encoded = encode(&lsf, 240, Puncture::P1);
    assert_eq!(encoded, expected_encoded);
    let decoded = decode(&encoded, 240, Puncture::P1);
    assert_eq!(decoded, Some(lsf));
}

#[test]
fn fec_damage() {
    let lsf = LSF;
    let mut encoded = encode(&lsf, 240, Puncture::P1);

    // progressively flip more bits
    for idx in [50, 90, 51, 200, 15, 7, 100] {
        let bit = get_bit(&encoded, idx);
        set_bit(&mut encoded, idx, if bit == 1 { 0 } else { 1 });
        let decoded = decode(&encoded, 240, Puncture::P1);
        if idx == 100 {
            assert_eq!(decoded, None); // 7 bits is too much damage
        } else {
            assert_eq!(decoded, Some(lsf)); // recovered from errors
        }
    }
}

fn pseudo_random(seed: u32, len: usize) -> Vec<u8> {
    let mut x = seed;
    (0..len)
        .map(|_| {
            x = x.wrapping_mul(1664525).wrapping_add(1013904223);
            (x >> 24) as u8
        })
        .collect()
}

#[test]
fn fec_round_trip_all_schedules() {
    for seed in 0..20u32 {
        let data = pseudo_random(seed, 30);
        let mut lsf = [0u8; 30];
        lsf.copy_from_slice(&data);
        let enc = encode(&lsf, 240, Puncture::P1);
        assert_eq!(decode(&enc, 240, Puncture::P1), Some(lsf));

        let mut stream = [0u8; 30];
        stream[0..18].copy_from_slice(&data[0..18]);
        let enc = encode(&stream[0..18], 144, Puncture::P2);
        assert_eq!(decode(&enc[0..34], 144, Puncture::P2), Some(stream));

        let mut packet = [0u8; 30];
        packet[0..26].copy_from_slice(&data[0..26]);
        packet[25] &= 0xFC; // only 206 bits are carried
        let enc = encode(&packet[0..26], 206, Puncture::P3);
        assert_eq!(decode(&enc, 206, Puncture::P3), Some(packet));
    }
}

#[test]
fn fec_six_flips_always_recover() {
    let lsf = LSF;
    let clean = encode(&lsf, 240, Puncture::P1);
    for start in 0..40usize {
        let mut damaged = clean;
        for k in 0..6 {
            let idx = (start * 7 + k * 53) % 368;
            let bit = get_bit(&damaged, idx);
            set_bit(&mut damaged, idx, 1 - bit);
        }
        assert_eq!(decode(&damaged, 240, Puncture::P1), Some(lsf));
    }
}

#[test]
fn lich_encode() {
    let input = [221, 81, 5, 5, 0];
    let counter = 2;
    let expected_output = [221, 82, 162, 16, 85, 200, 5, 14, 254, 4, 13, 153];
    assert_eq!(encode_lich(counter, &input), expected_output);
}

#[test]
fn lich_round_trip() {
    let input = [1, 255, 0, 90, 10];
    let counter = 0;
    assert_eq!(decode_lich(&encode_lich(counter, &input)), Some((counter, input)));
}

#[test]
fn test_lich_decode() {
    let input = [221, 82, 162, 16, 85, 200, 5, 14, 254, 4, 13, 153];
    let expected_counter = 2;
    let expected_part = [221, 81, 5, 5, 0];
    assert_eq!(decode_lich(&input), Some((expected_counter, expected_part)));
}

#[test]
fn lich_corrects_and_rejects() {
    let mut coded = encode_lich(5, &[9, 8, 7, 6, 5]);
    coded[0] ^= 0x01;
    coded[4] ^= 0x80;
    assert_eq!(decode_lich(&coded), Some((5, [9, 8, 7, 6, 5])));
    let mut bad = encode_lich(5, &[9, 8, 7, 6, 5]);
    bad[0] ^= 0xF0;
    bad[1] ^= 0x0F;
    assert_eq!(decode_lich(&bad), None);
}

#[test]
fn packet_payload_len() {
    let ls = LinkSetup::new_packet(&M17Address::new_broadcast(), &M17Address::new_broadcast());
    let res = packet_kiss_frame(&ls, PacketType::Raw, &[0u8; 100]);
    assert!(res.is_ok());
    let res = packet_kiss_frame(&ls, PacketType::Raw, &[0u8; 900]);
    assert!(matches!(
        res,
        Err(M17Error::PacketTooLarge {
            provided: 900,
            capacity: 822
        })
    ));
    let res = packet_kiss_frame(&ls, PacketType::Raw, &[0u8; 822]);
    assert!(res.is_ok());
    let res = packet_kiss_frame(&ls, PacketType::Other('\u{20ac}'), &[0u8; 821]);
    assert_eq!(
        res.err(),
        Some(M17Error::PacketTooLarge { provided: 821, capacity: 820 })
    );
}

#[test]
fn packet_frame_round_trip_through_host() {
    let ls = LinkSetup::new_packet(
        &M17Address::from_callsign("vk7xt").unwrap(),
        &M17Address::new_broadcast(),
    );
    let frame = packet_kiss_frame(&ls, PacketType::Sms, b"hello").unwrap();
    let (event, running) = interpret_tnc_frame(&frame, false);
    assert!(!running);
    match event {
        Some(HostEvent::Packet { lsf, packet_type, payload }) => {
            assert_eq!(lsf, ls.raw());
            assert_eq!(packet_type, PacketType::Sms);
            assert_eq!(payload, b"hello".to_vec());
        }
        _ => panic!("expected a packet"),
    }
}

#[test]
fn stream_frames_through_host() {
    let lsf = LsfFrame(LSF);
    let setup = KissFrame::new_stream_setup(&lsf.0).unwrap();
    let data = StreamFrame {
        lich_idx: 1,
        lich_part: [1, 2, 3, 4, 5],
        frame_number: 7,
        end_of_stream: true,
        stream_data: [3u8; 16],
    };
    let data_frame = KissFrame::new_stream_data(&data).unwrap();
    // data before an LSF is ignored
    let (event, running) = interpret_tnc_frame(&data_frame, false);
    assert!(event.is_none() && !running);
    let (event, running) = interpret_tnc_frame(&setup, false);
    assert!(matches!(event, Some(HostEvent::StreamBegan(l)) if l == lsf));
    assert!(running);
    let (event, running) = interpret_tnc_frame(&data_frame, running);
    match event {
        Some(HostEvent::StreamData { frame_number, is_final, data }) => {
            assert_eq!(frame_number, 7);
            assert!(is_final);
            assert_eq!(data, [3u8; 16]);
        }
        _ => panic!("expected stream data"),
    }
    assert!(!running);
}

#[test]
fn lifecycle_transitions() {
    assert_eq!(start_transition(Lifecycle::Setup), Ok(Lifecycle::Started));
    assert_eq!(start_transition(Lifecycle::Started), Err(M17Error::InvalidStart));
    assert_eq!(start_transition(Lifecycle::Closed), Err(M17Error::InvalidStart));
    assert_eq!(close_transition(Lifecycle::Started), Ok(Lifecycle::Closed));
    assert_eq!(close_transition(Lifecycle::Setup), Err(M17Error::InvalidClose));
    assert_eq!(close_transition(Lifecycle::Closed), Err(M17Error::InvalidClose));
}

#[test]
fn callsign_parsing() {
    let a = M17Address::from_callsign("  vk7xt ").unwrap();
    assert_eq!(*a.address(), Address::Callsign(Callsign(*b"VK7XT    ")));
    assert_eq!(
        M17Address::from_callsign("ABCDEFGHIJ").err(),
        Some(M17Error::CallsignTooLong(10))
    );
    assert_eq!(
        M17Address::from_callsign("AB!").err(),
        Some(M17Error::InvalidCallsignCharacters('!'))
    );
    assert_eq!(
        M17Address::from_callsign("A\u{e9}").err(),
        Some(M17Error::InvalidCallsignCharacters('\u{c9}'))
    );
    let ls = LinkSetup::new_voice(&a, &M17Address::new_broadcast());
    assert_eq!(ls.source().address(), a.address());
    assert_eq!(*ls.destination().address(), Address::Broadcast);
    assert_eq!(ls.lich_part(0), [255; 5]);
    let mut ls = ls;
    ls.set_channel_access_number(3);
    assert_eq!(ls.raw().channel_access_number(), 3);
}

#[test]
fn packet_type_from_proto() {
    assert_eq!(PacketType::from_proto(&[5, 0x41]), Some((PacketType::Sms, 1)));
    assert_eq!(PacketType::from_proto(&[0x41]), Some((PacketType::Other('A'), 1)));
    assert_eq!(
        PacketType::from_proto(&[0xE2, 0x82, 0xAC, 0]),
        Some((PacketType::Other('\u{20ac}'), 3))
    );
    assert_eq!(PacketType::from_proto(&[0xE2, 0x82]), None);
    assert_eq!(PacketType::from_proto(&[0xFF]), None);
    assert_eq!(PacketType::from_proto(&[]), None);
    assert_eq!(PacketType::from_proto(&[0xED, 0xA0, 0x80]), None);
}

#[test]
fn reflector_parse_dispatch() {
    let mut v = Voice::new();
    v.set_stream_id(0x1234);
    v.set_frame_number(9);
    v.set_end_of_stream(true);
    v.set_payload(&[7u8; 16]);
    match ServerMessage::parse(v.as_bytes()) {
        Some(ServerMessage::Voice(p)) => {
            assert_eq!(p.stream_id(), 0x1234);
            assert_eq!(p.frame_number(), 9);
            assert!(p.is_end_of_stream());
            assert_eq!(p.payload(), &[7u8; 16]);
        }
        _ => panic!("expected voice"),
    }
    let mut bad = v.as_bytes().to_vec();
    bad[40] ^= 1;
    assert!(ServerMessage::parse(&bad).is_none());
    assert!(ClientMessage::parse(&[0x4d, 0x31]).is_none());
    assert!(ClientMessage::parse(b"XXXX").is_none());

    let mut pong = Pong::new();
    pong.set_address(Address::Callsign(Callsign(*b"VK7XT    ")));
    match ClientMessage::parse(pong.as_bytes()) {
        Some(ClientMessage::Pong(p)) => {
            assert_eq!(p.address(), Address::Callsign(Callsign(*b"VK7XT    ")))
        }
        _ => panic!("expected pong"),
    }
    assert!(matches!(ServerMessage::parse(b"DISC"), Some(ServerMessage::DisconnectAcknowledge(_))));
    assert!(matches!(
        ServerMessage::parse(b"DISC\xff\xff\xff\xff\xff\xff"),
        Some(ServerMessage::ForceDisconnect(_))
    ));
    assert!(matches!(ServerMessage::parse(b"ACKN"), Some(ServerMessage::ConnectAcknowledge(_))));
    assert!(matches!(ServerMessage::parse(b"NACK"), Some(ServerMessage::ConnectNack(_))));
}

#[test]
fn reflector_packet_integrity() {
    let lsf = LsfFrame(LSF);
    let mut body = vec![5u8, 0x41];
    let crc = m17_crc(&body);
    body.extend_from_slice(&crc.to_be_bytes());
    let mut p = Packet::new();
    p.set_link_setup_frame(&lsf);
    p.set_payload(&body);
    assert!(p.verify_integrity());
    assert_eq!(p.payload(), &body[..]);
    assert!(matches!(ClientMessage::parse(p.as_bytes()), Some(ClientMessage::Packet(_))));
    let mut short = Packet::new();
    short.set_link_setup_frame(&lsf);
    short.set_payload(&[1, 2, 3]);
    assert!(!short.verify_integrity());

    let mut pi = PacketInterlink::new();
    pi.set_link_setup_frame(&lsf);
    pi.set_payload(&body);
    pi.set_relayed(true);
    assert!(pi.is_relayed());
    assert!(pi.verify_integrity());
    assert!(matches!(
        InterlinkMessage::parse(pi.as_bytes()),
        Some(InterlinkMessage::PacketInterlink(_))
    ));
}

#[test]
fn reflector_interlink_fields() {
    let mut v = VoiceInterlink::new();
    v.set_relayed(true);
    v.set_stream_id(3);
    assert!(v.verify_integrity());
    assert!(v.is_relayed());
    v.0[54] = 0;
    assert!(v.verify_integrity()); // the relay flag is outside the CRC
    let mut c = ConnectInterlink::new();
    c.set_modules(b"ABC");
    let mut it = c.modules();
    assert_eq!(it.next(), Some('A'));
    assert_eq!(it.next(), Some('B'));
    assert_eq!(it.next(), Some('C'));
    assert_eq!(it.next(), None);
}

#[test]
fn reflector_voice_lsf_is_rebuilt() {
    let lsf = LsfFrame(LSF);
    let mut v = Voice::new();
    v.set_link_setup_frame(&lsf);
    assert_eq!(v.link_setup_frame(), lsf);
}

#[test]
fn interleave_twice_is_identity() {
    for seed in 0..10u32 {
        let data = pseudo_random(seed, 46);
        let mut x = [0u8; 46];
        x.copy_from_slice(&data);
        let y = interleave(&x);
        assert_ne!(y, x);
        assert_eq!(interleave(&y), x);
    }
    let mut one = [0u8; 46];
    one[0] = 0x40; // bit 1
    let moved = interleave(&one);
    // output bit i takes input bit (45 i + 92 i^2) mod 368; that is 1 for i = 1 only when 137 == 1
    // so find the position whose image is 1
    let pos = (0..368usize).find(|&i| (45 * i + 92 * i * i) % 368 == 1).unwrap();
    assert_eq!(get_bit(&moved, pos), 1);
    assert_eq!(moved.iter().map(|b| b.count_ones()).sum::<u32>(), 1);
}

#[test]
fn voice_data_interlink_crc_sits_before_relay_flag() {
    let mut v = VoiceDataInterlink::new();
    v.set_stream_id(0x0102);
    v.set_frame_number(5);
    v.set_payload(&[9u8; 16]);
    v.set_relayed(true);
    assert_eq!(v.payload(), &[9u8; 16]);
    let bytes = v.as_bytes().to_vec();
    assert_eq!(bytes.len(), 27);
    assert_eq!(m17_crc(&bytes[0..26]), 0);
    assert_eq!(&bytes[24..26], &m17_crc(&bytes[0..24]).to_be_bytes());
    assert!(matches!(
        InterlinkMessage::parse(&bytes),
        Some(InterlinkMessage::VoiceDataInterlink(_))
    ));
    let mut bad = bytes.clone();
    bad[25] ^= 1;
    assert!(InterlinkMessage::parse(&bad).is_none());
    let mut flag_changed = bytes.clone();
    flag_changed[26] = 0;
    assert!(InterlinkMessage::parse(&flag_changed).is_some());
}

#[test]
fn callsign_trims_unicode_whitespace() {
    let a = M17Address::from_callsign("\u{a0}AB\u{3000}").unwrap();
    assert_eq!(*a.address(), Address::Callsign(Callsign(*b"AB       ")));
    // upper-casing can lengthen: "\u{df}" becomes "SS"
    let b = M17Address::from_callsign("stra\u{df}e").unwrap();
    assert_eq!(*b.address(), Address::Callsign(Callsign(*b"STRASSE  ")));
}

#[test]
fn callsign_reports_first_bad_character() {
    assert_eq!(
        M17Address::from_callsign("AB!#").err(),
        Some(M17Error::InvalidCallsignCharacters('!'))
    );
    assert_eq!(
        M17Address::from_callsign("ab#").err(),
        Some(M17Error::InvalidCallsignCharacters('#'))
    );
}

#[test]
fn frame_type1_layouts_round_trip() {
    let stream = StreamFrame {
        lich_idx: 5,
        lich_part: [1, 2, 3, 4, 5],
        frame_number: 50,
        end_of_stream: true,
        stream_data: [7u8; 16],
    };
    let t1 = stream_type1(&stream);
    assert_eq!(&t1[0..2], &[0x80, 50]);
    let mut wide = [0u8; 30];
    wide[0..18].copy_from_slice(&t1);
    assert_eq!(parse_stream_type1(&wide), (50, true, [7u8; 16]));

    // through the FEC and the LICH, as on air before interleaving
    let coded = encode_stream_type3(&stream);
    assert_eq!(&coded[0..12], &encode_lich(5, &[1, 2, 3, 4, 5]));
    assert_eq!(decode_lich(&coded[0..12]), Some((5, [1, 2, 3, 4, 5])));
    let body = decode(&coded[12..46], 144, Puncture::P2).unwrap();
    assert_eq!(parse_stream_type1(&body), (50, true, [7u8; 16]));

    let packet = PacketFrame { payload: [41u8; 25], counter: PacketFrameCounter::Frame { index: 3 } };
    let coded = encode_packet_type3(&packet);
    let back = parse_packet_type1(&decode(&coded, 206, Puncture::P3).unwrap());
    assert_eq!(back, packet);

    let mut payload = [0u8; 25];
    payload[0..10].copy_from_slice(&[9u8; 10]);
    let last = PacketFrame { payload, counter: PacketFrameCounter::FinalFrame { payload_len: 10 } };
    assert_eq!(packet_type1(&last)[25], (10 << 3) | 0x04);
    let back = parse_packet_type1(&decode(&encode_packet_type3(&last), 206, Puncture::P3).unwrap());
    assert_eq!(back, last);

    let lsf = LsfFrame(LSF);
    assert_eq!(decode(&encode_lsf_type3(&lsf), 240, Puncture::P1), Some(LSF));
}
