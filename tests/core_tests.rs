use m17core::address::{decode_address, encode_address, Address, Callsign};
use m17core::bits::{get_bit, set_bit, Bits};
use m17core::crc::m17_crc;
use m17core::kiss::{
    escape, unescape, KissBuffer, KissCommand, KissError, KissFrame, FEND, FESC, MAX_FRAME_LEN,
    TFEND, TFESC,
};
use m17core::protocol::{LichCollection, LsfFrame, Mode, DataType, EncryptionType, PacketType};

#[test]
fn address_encode() {
    let encoded = encode_address(&Address::Callsign(Callsign(*b"AB1CD    ")));
    assert_eq!(encoded, [0x00, 0x00, 0x00, 0x9f, 0xdd, 0x51]);
}

#[test]
fn address_decode() {
    let decoded = decode_address([0x00, 0x00, 0x00, 0x9f, 0xdd, 0x51]);
    assert_eq!(decoded, Address::Callsign(Callsign(*b"AB1CD    ")));
}

#[test]
fn address_ranges() {
    assert_eq!(decode_address([0, 0, 0, 0, 0, 0]), Address::Invalid);
    assert_eq!(decode_address([0xff; 6]), Address::Broadcast);
    assert_eq!(
        decode_address([0xEE, 0x6B, 0x28, 0, 0, 0]),
        Address::Reserved(0xEE6B28000000)
    );
    assert_eq!(
        decode_address([0xFF, 0xFF, 0xFF, 0xFF, 0xFF, 0xFE]),
        Address::Reserved(0xFFFFFFFFFFFE)
    );
    assert!(matches!(
        decode_address([0xEE, 0x6B, 0x27, 0xFF, 0xFF, 0xFF]),
        Address::Callsign(_)
    ));
    assert_eq!(encode_address(&Address::Broadcast), [0xff; 6]);
    assert_eq!(encode_address(&Address::Invalid), [0; 6]);
}

#[test]
fn address_round_trip_examples() {
    for call in [*b"VK7XT    ", *b"M17RT-PKT", *b"A        ", *b"9/.-0ZZ99"] {
        let a = Address::Callsign(Callsign(call));
        assert_eq!(decode_address(encode_address(&a)), a);
    }
    // lower case is folded, unknown characters are skipped
    assert_eq!(
        encode_address(&Address::Callsign(Callsign(*b"ab1cd    "))),
        [0x00, 0x00, 0x00, 0x9f, 0xdd, 0x51]
    );
    assert_eq!(
        encode_address(&Address::Callsign(Callsign(*b"AB1CD   !"))),
        [0x00, 0x00, 0x00, 0x9f, 0xdd, 0x51]
    );
}

#[test]
fn bits_readonly() {
    let data: [u8; 2] = [0b00001111, 0b10101010];
    let bits = Bits::new(&data);
    assert_eq!(bits.get_bit(0), 0);
    assert_eq!(bits.get_bit(1), 0);
    assert_eq!(bits.get_bit(4), 1);
    assert_eq!(bits.get_bit(8), 1);
    assert_eq!(bits.get_bit(9), 0);
}

#[test]
fn bits_modifying() {
    let mut data: [u8; 2] = [0b00001111, 0b10101010];

    assert_eq!(get_bit(&data, 0), 0);
    set_bit(&mut data, 0, 1);
    assert_eq!(get_bit(&data, 0), 1);

    assert_eq!(get_bit(&data, 4), 1);
    set_bit(&mut data, 4, 0);
    assert_eq!(get_bit(&data, 4), 0);

    assert_eq!(get_bit(&data, 9), 0);
    set_bit(&mut data, 9, 1);
    assert_eq!(get_bit(&data, 9), 1);

    assert_eq!(data, [0b10000111, 0b11101010]);
}

#[test]
fn bits_iter() {
    let data: [u8; 2] = [0b00110111, 0b10101010];
    let bits = Bits::new(&data);
    let mut it = bits.iter();
    assert_eq!(it.next(), Some(0));
    assert_eq!(it.next(), Some(0));
    assert_eq!(it.next(), Some(1));
    assert_eq!(it.next(), Some(1));
    assert_eq!(it.next(), Some(0));
    assert_eq!(it.next(), Some(1));
    for _ in 0..8 {
        let _ = it.next();
    }
    assert_eq!(it.next(), Some(1));
    assert_eq!(it.next(), Some(0));
    assert_eq!(it.next(), None);
}

#[test]
fn crc_test_vectors() {
    assert_eq!(m17_crc(&[]), 0xFFFF);
    assert_eq!(m17_crc("A".as_bytes()), 0x206E);
    assert_eq!(m17_crc("123456789".as_bytes()), 0x772B);
    let bytes: Vec<u8> = (0x00..=0xFF).collect();
    assert_eq!(m17_crc(&bytes), 0x1C31);
}

#[test]
fn crc_residue_examples() {
    for input in [&b""[..], &b"A"[..], &b"123456789"[..], &[0xC0, 0xDB, 0x00][..]] {
        let mut v = input.to_vec();
        let c = m17_crc(&v);
        v.extend_from_slice(&c.to_be_bytes());
        assert_eq!(m17_crc(&v), 0);
    }
}

#[test]
fn test_escape() {
    let mut buf = [0u8; 1024];

    let src = [0, 1, 2, 3, 4, 5];
    let n = escape(&src, &mut buf);
    assert_eq!(n, 6);
    assert_eq!(&buf[0..6], src);

    let src = [0, 1, TFESC, 3, TFEND, 5];
    let n = escape(&src, &mut buf);
    assert_eq!(n, 6);
    assert_eq!(&buf[0..6], src);

    let src = [0, 1, FEND, 3, 4, 5];
    let n = escape(&src, &mut buf);
    assert_eq!(n, 7);
    assert_eq!(&buf[0..7], &[0, 1, FESC, TFEND, 3, 4, 5]);

    let src = [0, 1, 2, 3, 4, FESC];
    let n = escape(&src, &mut buf);
    assert_eq!(n, 7);
    assert_eq!(&buf[0..7], &[0, 1, 2, 3, 4, FESC, TFESC]);
}

#[test]
fn test_unescape() {
    let mut buf = [0u8; 1024];

    let src = [0, 1, 2, 3, 4, 5];
    let n = unescape(&src, &mut buf);
    assert_eq!(n, 6);
    assert_eq!(&buf[0..6], src);

    let src = [0, 1, TFESC, 3, TFEND, 5];
    let n = unescape(&src, &mut buf);
    assert_eq!(n, 6);
    assert_eq!(&buf[0..6], src);

    let src = [0, 1, FESC, TFEND, 3, 4, 5];
    let n = unescape(&src, &mut buf);
    assert_eq!(n, 6);
    assert_eq!(&buf[0..6], &[0, 1, FEND, 3, 4, 5]);

    let src = [0, 1, 2, 3, 4, FESC, TFESC];
    let n = unescape(&src, &mut buf);
    assert_eq!(n, 6);
    assert_eq!(&buf[0..6], &[0, 1, 2, 3, 4, FESC]);
}

#[test]
fn unescape_truncates_and_drops_trailing_escape() {
    let mut small = [0u8; 2];
    assert_eq!(unescape(&[1, 2, 3], &mut small), 2);
    assert_eq!(small, [1, 2]);
    let mut buf = [0u8; 8];
    assert_eq!(unescape(&[7, FESC], &mut buf), 1);
    assert_eq!(buf[0], 7);
}

#[test]
fn basic_packet_roundtrip() {
    let f = KissFrame::new_basic_packet(&[0, 1, 2, 3]).unwrap();
    assert_eq!(f.as_bytes(), &[FEND, 0, 0, 1, 2, 3, FEND]);
    let mut buf = [0u8; 1024];
    let n = f.decode_payload(&mut buf).unwrap();
    assert_eq!(&buf[..n], &[0, 1, 2, 3]);
}

#[test]
fn kiss_frame_errors() {
    assert_eq!(
        KissFrame::new_basic_packet(&[0u8; 823]).err(),
        Some(KissError::PayloadTooBig)
    );
    assert!(KissFrame::new_basic_packet(&[0u8; 822]).is_ok());
    assert_eq!(
        KissFrame::new_full_packet(&[0u8; 29], &[0u8; 10]).err(),
        Some(KissError::LsfWrongSize)
    );
    assert_eq!(
        KissFrame::new_full_packet(&[0u8; 30], &[0u8; 826]).err(),
        Some(KissError::PayloadTooBig)
    );
    assert_eq!(
        KissFrame::new_stream_setup(&[0u8; 31]).err(),
        Some(KissError::LsfWrongSize)
    );
    let zeros = KissFrame::new_empty();
    assert_eq!(zeros.port(), Ok(0));
    let mut empty = KissFrame::new_empty();
    empty.data = [FEND; MAX_FRAME_LEN];
    assert_eq!(empty.port(), Err(KissError::MalformedKissFrame));
    assert_eq!(empty.command(), Err(KissError::MalformedKissFrame));
    let mut out = [0u8; 4];
    assert_eq!(empty.decode_payload(&mut out), Err(KissError::MalformedKissFrame));
    let p = KissFrame::new_set_p(0, 9);
    assert_eq!(p.as_bytes(), &[FEND, 0x02, 9, FEND]);
    assert_eq!(p.command(), Ok(KissCommand::P));
    let mut bad = KissFrame::new_set_p(0, 9);
    bad.data[1] = 0x03;
    assert_eq!(bad.command(), Err(KissError::UnsupportedKissCommand));
}

#[test]
fn kiss_settings_frames() {
    let f = KissFrame::new_set_tx_delay(2, 30);
    assert_eq!(f.as_bytes(), &[FEND, 0x21, 30, FEND]);
    assert_eq!(f.port(), Ok(2));
    assert_eq!(f.command(), Ok(KissCommand::TxDelay));
    let f = KissFrame::set_full_duplex(1, true);
    assert_eq!(f.as_bytes(), &[FEND, 0x15, 1, FEND]);
    assert_eq!(f.command(), Ok(KissCommand::FullDuplex));
}

#[test]
fn full_packet_escapes_payload() {
    let lsf = [FEND; 30];
    let f = KissFrame::new_full_packet(&lsf, &[FESC, 1]).unwrap();
    assert_eq!(f.len, 2 + 60 + 3 + 1);
    let mut out = [0u8; 64];
    let n = f.decode_payload(&mut out).unwrap();
    assert_eq!(n, 32);
    assert_eq!(&out[0..30], &lsf);
    assert_eq!(&out[30..32], &[FESC, 1]);
}

fn feed(buffer: &mut KissBuffer, bytes: &[u8]) {
    let space = buffer.buf_remaining();
    assert!(bytes.len() <= space);
    buffer.write_remaining(0, bytes);
    buffer.did_write(bytes.len());
}

#[test]
fn test_buffer_basic() {
    let mut buffer = KissBuffer::new();

    // initial write is not a complete frame
    feed(&mut buffer, &[FEND]);
    assert!(buffer.next_frame().is_none());

    // complete the frame
    feed(&mut buffer, &[0x10, 0x01, FEND]);

    // everything should parse
    let next = buffer.next_frame().unwrap();
    assert_eq!(next.len, 4);
    assert_eq!(&next.data[0..4], &[FEND, 0x10, 0x01, FEND]);
    assert_eq!(next.port().unwrap(), 1);
    assert_eq!(next.command().unwrap(), KissCommand::DataFrame);
    let mut payload_buf = [0u8; 1024];
    let n = next.decode_payload(&mut payload_buf).unwrap();
    assert_eq!(n, 1);
    assert_eq!(&payload_buf[0..n], &[0x01]);
}

#[test]
fn test_buffer_double() {
    let mut buffer = KissBuffer::new();
    feed(&mut buffer, &[FEND, 0x10, 0x01, FEND, FEND, 0x20, 0x02, FEND]);

    let next = buffer.next_frame().unwrap();
    assert_eq!(next.port().unwrap(), 1);
    let next = buffer.next_frame().unwrap();
    assert_eq!(next.port().unwrap(), 2);
    assert!(buffer.next_frame().is_none());
}

#[test]
fn test_buffer_double_shared_fend() {
    let mut buffer = KissBuffer::new();
    feed(&mut buffer, &[FEND, 0x10, 0x01, FEND, 0x20, 0x02, FEND]);

    let next = buffer.next_frame().unwrap();
    assert_eq!(next.port().unwrap(), 1);
    let next = buffer.next_frame().unwrap();
    assert_eq!(next.port().unwrap(), 2);
    assert!(buffer.next_frame().is_none());
}

#[test]
fn test_buffer_extra_fend() {
    let mut buffer = KissBuffer::new();
    feed(
        &mut buffer,
        &[FEND, FEND, FEND, 0x10, 0x01, FEND, FEND, 0x20, 0x02, FEND],
    );

    let next = buffer.next_frame().unwrap();
    assert_eq!(next.port().unwrap(), 1);
    let next = buffer.next_frame().unwrap();
    assert_eq!(next.port().unwrap(), 2);
    assert!(buffer.next_frame().is_none());
}

#[test]
fn test_buffer_oversize_frame() {
    let mut buffer = KissBuffer::new();
    let len = buffer.buf_remaining();
    assert_eq!(len, MAX_FRAME_LEN);
    buffer.write_remaining(0, &[FEND]);
    buffer.did_write(len);
    assert!(buffer.next_frame().is_none());

    let len = buffer.buf_remaining();
    assert_eq!(len, MAX_FRAME_LEN); // should have flushed
    let zeros = vec![0u8; len / 2];
    buffer.write_remaining(0, &zeros);
    buffer.did_write(len / 2);
    assert!(buffer.next_frame().is_none());

    // confirm we resync if input goes back to normal
    feed(&mut buffer, &[FEND, 0x10, 0x01, FEND]);
    let next = buffer.next_frame().unwrap();
    assert_eq!(next.port().unwrap(), 1);
    assert!(buffer.next_frame().is_none());
}

#[test]
fn buffer_any_chunking_gives_same_frames() {
    let stream = [FEND, FEND, 0x10, 0xAA, FEND, FEND, FEND, 0x20, 0xBB, 0xCC, FEND, FEND];
    for chunk in 1..=stream.len() {
        let mut buffer = KissBuffer::new();
        let mut frames: Vec<Vec<u8>> = Vec::new();
        for part in stream.chunks(chunk) {
            feed(&mut buffer, part);
            while let Some(f) = buffer.next_frame() {
                frames.push(f.as_bytes().to_vec());
            }
        }
        assert_eq!(
            frames,
            vec![vec![FEND, 0x10, 0xAA, FEND], vec![FEND, 0x20, 0xBB, 0xCC, FEND]],
            "chunk size {chunk}"
        );
    }
}

#[test]
fn set_can() {
    let mut frame = LsfFrame([0u8; 30]);
    frame.set_channel_access_number(11);
    assert_eq!(frame.channel_access_number(), 11);
}

#[test]
fn can_round_trip_keeps_other_fields() {
    let mut lsf = LsfFrame::new_voice(
        &Address::Callsign(Callsign(*b"VK7XT    ")),
        &Address::Broadcast,
    );
    lsf.set_encryption_type(EncryptionType::Scrambler);
    for can in 0..=15u8 {
        let mut f = lsf;
        f.set_channel_access_number(can);
        assert_eq!(f.channel_access_number(), can);
        assert_eq!(f.mode(), Mode::Stream);
        assert_eq!(f.data_type(), DataType::Voice);
        assert_eq!(f.encryption_type(), EncryptionType::Scrambler);
        assert_eq!(f.source(), lsf.source());
        assert_eq!(f.destination(), Address::Broadcast);
        assert_eq!(f.meta(), lsf.meta());
        assert_eq!(f.check_crc(), 0);
    }
}

#[test]
fn lsf_example_fields() {
    let lsf = LsfFrame([
        255, 255, 255, 255, 255, 255, 0, 0, 0, 159, 221, 81, 5, 5, 0, 0, 0, 0, 0, 0, 0, 0, 0, 0,
        0, 0, 0, 0, 131, 53,
    ]);
    assert_eq!(lsf.check_crc(), 0);
    assert_eq!(lsf.destination(), Address::Broadcast);
    assert_eq!(lsf.source(), Address::Callsign(Callsign(*b"AB1CD    ")));
    assert_eq!(lsf.mode(), Mode::Stream);
    assert_eq!(lsf.data_type(), DataType::Voice);
    assert_eq!(lsf.encryption_type(), EncryptionType::Unencrypted);
    assert_eq!(lsf.channel_access_number(), 10);
    let mut rebuilt = LsfFrame::new_voice(
        &Address::Callsign(Callsign(*b"AB1CD    ")),
        &Address::Broadcast,
    );
    rebuilt.set_channel_access_number(10);
    assert_eq!(rebuilt, lsf);
    let p = LsfFrame::new_packet(&Address::Broadcast, &Address::Broadcast);
    assert_eq!(p.mode(), Mode::Packet);
    assert_eq!(p.data_type(), DataType::Data);
}

#[test]
fn lich_assembly_of_known_lsf() {
    let lsf: [u8; 30] = [
        255, 255, 255, 255, 255, 255, 0, 0, 0, 159, 221, 81, 5, 5, 0, 0, 0, 0, 0, 0, 0, 0, 0, 0,
        0, 0, 0, 0, 131, 53,
    ];
    let mut lich = LichCollection::new();
    for i in [3usize, 0, 5, 1, 4] {
        lich.set_segment(i as u8, lsf[i * 5..i * 5 + 5].try_into().unwrap());
        assert!(lich.try_assemble().is_none());
    }
    lich.set_segment(7, [1, 2, 3, 4, 5]);
    assert_eq!(lich.valid_segments(), 5);
    lich.set_segment(2, lsf[10..15].try_into().unwrap());
    assert_eq!(lich.valid_segments(), 6);
    let assembled = lich.try_assemble().unwrap();
    assert_eq!(assembled, lsf);
    assert_eq!(LsfFrame(assembled).check_crc(), 0);
}

#[test]
fn packet_type_prefixes() {
    assert_eq!(PacketType::Sms.as_proto(), ([5, 0, 0, 0], 1));
    assert_eq!(PacketType::Other('A').as_proto(), ([0x41, 0, 0, 0], 1));
    assert_eq!(PacketType::Other('\u{e9}').as_proto(), ([0xC3, 0xA9, 0, 0], 2));
    assert_eq!(PacketType::Other('\u{20ac}').as_proto(), ([0xE2, 0x82, 0xAC, 0], 3));
    assert_eq!(PacketType::Other('\u{1F600}').as_proto(), ([0xF0, 0x9F, 0x98, 0x80], 4));
}
