use reticulum::buffer::OutputBuffer;
use reticulum::error::RnsError;
use reticulum::iface::ax25;
use reticulum::iface::hdlc::{Hdlc, HdlcDecoder};
use reticulum::iface::ifac;
use reticulum::iface::ifac::IfacKey;
use reticulum::iface::kiss;
use reticulum::iface::kiss::{CsmaParams, KissDecoder, KissEvent, KissInterface, KissMode};
use reticulum::iface::kiss::{SerialPortConfig, CMD_READY, FEND, HW_MTU};

#[test]
fn pack_ax25_frame_matches_python_reference() {
    let frame = ax25::pack_ax25_frame(&[0xde, 0xad, 0xbe, 0xef], "N0CALL", 7);
    assert_eq!(
        frame,
        vec![
            0x82, 0xa0, 0xb4, 0xa4, 0x9c, 0xa6, 0x60, 0x9c, 0x60, 0x86, 0x82, 0x98, 0x98, 0x6f,
            0x03, 0xf0, 0xde, 0xad, 0xbe, 0xef
        ]
    );
}

#[test]
fn pack_ax25_frame_pads_short_callsigns() {
    let frame = ax25::pack_ax25_frame(&[0x01], "AB1C", 0);
    assert_eq!(
        frame,
        vec![
            0x82, 0xa0, 0xb4, 0xa4, 0x9c, 0xa6, 0x60, 0x82, 0x84, 0x62, 0x86, 0x20, 0x20, 0x61,
            0x03, 0xf0, 0x01
        ]
    );
}

#[test]
fn kiss_frame_with_ax25_header_matches_python_reference() {
    let frame = kiss::encode_frame(&ax25::pack_ax25_frame(&[0xde, 0xad], "N0CALL", 7));
    let expected = vec![
        0xc0, 0x00, 0x82, 0xa0, 0xb4, 0xa4, 0x9c, 0xa6, 0x60, 0x9c, 0x60, 0x86, 0x82, 0x98, 0x98,
        0x6f, 0x03, 0xf0, 0xde, 0xad, 0xc0,
    ];
    assert_eq!(frame, expected);
}

#[test]
fn strip_header_drops_short_frames() {
    let frame = [0u8; ax25::HEADER_SIZE];
    assert!(ax25::strip_ax25_header(&frame).is_none());

    let frame = [0u8; ax25::HEADER_SIZE + 1];
    assert_eq!(
        ax25::strip_ax25_header(&frame),
        Some(&frame[ax25::HEADER_SIZE..][..1])
    );
}

#[test]
fn callsign_validation_matches_python() {
    assert!(ax25::validate_callsign("N0CALL", 7).is_ok());
    assert!(ax25::validate_callsign("AB1C", 0).is_ok());
    assert!(ax25::validate_callsign("TOOLONGCALL", 0).is_err());
    assert!(ax25::validate_callsign("AB", 0).is_err());
    assert!(ax25::validate_callsign("N0CALL", 16).is_err());
}

#[test]
fn address_round_trip() {
    let frame = ax25::pack_ax25_frame(&[1], "N0CALL", 7);
    let (dst, dst_ssid) = ax25::decode_address(frame[..7].try_into().unwrap());
    let (src, src_ssid) = ax25::decode_address(frame[7..14].try_into().unwrap());
    assert_eq!(dst, "APZRNS");
    assert_eq!(dst_ssid, 0);
    assert_eq!(src, "N0CALL");
    assert_eq!(src_ssid, 7);
}

#[test]
fn callsigns_are_upper_cased() {
    let serial = SerialPortConfig::new("/dev/ttyUSB0", 9600).with_format(7, "E", 2);
    assert_eq!(serial.parity, "E");
    assert_eq!(serial.databits, 7);
    let iface =
        KissInterface::new_ax25("n0call", 3, serial.clone(), CsmaParams::default(), true).unwrap();
    assert_eq!(
        iface.mode,
        KissMode::Ax25 {
            callsign: "N0CALL".to_string(),
            ssid: 3
        }
    );
    // the upper-cased form decides
    let sharp = KissInterface::new_ax25("\u{df}a", 0, serial.clone(), CsmaParams::default(), true);
    assert!(sharp.is_ok());
    let accented = KissInterface::new_ax25("\u{e9}ab", 0, serial, CsmaParams::default(), true);
    assert_eq!(accented.err(), Some(RnsError::InvalidArgument));
}

#[test]
fn hdlc_escape_matches_python_reference() {
    let mut buffer = [0u8; 8];
    let mut output = OutputBuffer::new(&mut buffer[..]);
    Hdlc::escape(&[0x7e, 0x7d, 0x01], &mut output).unwrap();
    assert_eq!(output.as_slice(), [0x7d, 0x5e, 0x7d, 0x5d, 0x01]);
}

#[test]
fn frame_vec_matches_python_reference() {
    assert_eq!(
        Hdlc::encode_frame_vec(&[0x7e, 0x7d, 0x01]),
        vec![0x7e, 0x7d, 0x5e, 0x7d, 0x5d, 0x01, 0x7e]
    );
}

#[test]
fn hdlc_decoder_round_trip() {
    let frame = Hdlc::encode_frame_vec(&[0x7e, 0x7d, 0xc0, 0xdb, 0x00, 0xff]);
    let mut decoder = HdlcDecoder::new(564);

    let mut frames: Vec<Vec<u8>> = Vec::new();
    for chunk in frame.chunks(3) {
        frames.extend(decoder.feed(chunk));
    }

    assert_eq!(frames, vec![vec![0x7e, 0x7d, 0xc0, 0xdb, 0x00, 0xff]]);
}

#[test]
fn decoder_ignores_garbage_and_empty_frames() {
    let mut decoder = HdlcDecoder::new(564);
    let stream = [
        &[0x00u8, 0x11, 0x22][..],
        &[0x7e, 0x7e],
        &Hdlc::encode_frame_vec(&[1, 2, 3])[..],
    ]
    .concat();

    let frames = decoder.feed(&stream);

    assert_eq!(frames, vec![Vec::<u8>::new(), vec![1, 2, 3]]);
}

#[test]
fn hdlc_buffers() {
    let mut buffer = [0u8; 16];
    let mut output = OutputBuffer::new(&mut buffer[..]);
    assert_eq!(Hdlc::encode(&[0x7e, 1], &mut output), Ok(5));
    assert_eq!(output.as_slice(), [0x7e, 0x7d, 0x5e, 1, 0x7e]);
    assert_eq!(Hdlc::find(&[9, 0x7e, 1, 2, 0x7e, 3]), Some((1, 4)));
    assert_eq!(Hdlc::find(&[9, 0x7e, 1, 2]), None);

    let mut plain = [0u8; 4];
    let mut decoded = OutputBuffer::new(&mut plain[..]);
    assert_eq!(Hdlc::decode(&[0x7e, 0x7d, 0x5e, 1, 0x7e], &mut decoded), Ok(2));
    assert_eq!(decoded.as_slice(), [0x7e, 1]);
    // no end of frame
    assert_eq!(
        Hdlc::decode(&[0x7e, 5], &mut decoded),
        Err(RnsError::OutOfMemory)
    );

    let mut small = [0u8; 3];
    let mut output = OutputBuffer::new(&mut small[..]);
    assert_eq!(
        Hdlc::encode_frame(&[1, 2, 3], &mut output),
        Err(RnsError::OutOfMemory)
    );
}

#[test]
fn hdlc_buffers_keep_what_fits() {
    let mut small = [0u8; 4];
    let mut output = OutputBuffer::new(&mut small[..]);
    assert_eq!(Hdlc::encode_frame(&[1, 2, 3], &mut output), Err(RnsError::OutOfMemory));
    assert_eq!(output.as_slice(), [0x7e, 1, 2, 3]);

    let mut small = [0u8; 4];
    let mut output = OutputBuffer::new(&mut small[..]);
    assert_eq!(Hdlc::encode(&[1, 2, 0x7e, 3], &mut output), Err(RnsError::OutOfMemory));
    assert_eq!(output.as_slice(), [0x7e, 1, 2]);

    let mut small = [0u8; 2];
    let mut output = OutputBuffer::new(&mut small[..]);
    assert_eq!(Hdlc::escape(&[1, 0x7d], &mut output), Err(RnsError::OutOfMemory));
    assert_eq!(output.as_slice(), [1]);

    let mut small = [0u8; 0];
    let mut output = OutputBuffer::new(&mut small[..]);
    assert_eq!(Hdlc::encode(&[1], &mut output), Err(RnsError::OutOfMemory));
    assert!(output.as_slice().is_empty());

    let mut small = [0u8; 2];
    let mut output = OutputBuffer::new(&mut small[..]);
    assert_eq!(
        Hdlc::decode(&[0x7e, 1, 0x7d, 0x5e, 3, 0x7e], &mut output),
        Err(RnsError::OutOfMemory)
    );
    assert_eq!(output.as_slice(), [1, 0x7e]);

    let mut large = [0u8; 8];
    let mut output = OutputBuffer::new(&mut large[..]);
    assert_eq!(Hdlc::decode(&[0x7e, 5, 6], &mut output), Err(RnsError::OutOfMemory));
    assert_eq!(output.as_slice(), [5, 6]);
}

#[test]
fn escapes_flip_any_byte() {
    let mut decoder = HdlcDecoder::new(564);
    assert_eq!(decoder.feed(&[0x7e, 0x7d, 0x41, 0x7e]), vec![vec![0x61]]);
    assert_eq!(decoder.feed(&[0x7e, 0x7d, 0x7d, 0x5e, 0x7e]), vec![vec![0x5d, 0x5e]]);
    assert_eq!(decoder.feed(&[0x7e, 0x01, 0x7d, 0x7e, 0x7e, 0x02, 0x7e]), vec![vec![1], vec![2]]);
}

#[test]
fn hdlc_decoder_cuts_long_frames_and_resets() {
    let mut decoder = HdlcDecoder::new(2);
    assert_eq!(
        decoder.feed(&Hdlc::encode_frame_vec(&[1, 2, 3])),
        vec![vec![1, 2]]
    );
    assert!(decoder.feed(&[0x7e, 1]).is_empty());
    decoder.reset();
    assert!(decoder.feed(&[0x7e]).is_empty());
    assert_eq!(decoder.feed(&[4, 0x7e]), vec![vec![4]]);
}

#[test]
fn roundtrip_and_rejection() {
    let key = IfacKey::derive(Some("ifac-test-network"), Some("correct horse"), 8);

    let raw: Vec<u8> = (0..128u8).collect();

    let wrapped = key.apply(&raw);
    assert_eq!(wrapped.len(), raw.len() + key.size);
    assert_eq!(wrapped[0] & 0x80, 0x80);

    let unwrapped = key.strip(&wrapped).expect("valid ifac");
    assert_eq!(unwrapped, raw);

    let mut tampered = wrapped.clone();
    let last = tampered.len() - 1;
    tampered[last] ^= 1;
    assert!(key.strip(&tampered).is_none());

    let other = IfacKey::derive(Some("other-network"), Some("correct horse"), 8);
    assert!(other.strip(&wrapped).is_none());

    let mut unflagged = wrapped.clone();
    unflagged[0] &= 0x7f;
    assert!(key.strip(&unflagged).is_none());
}

#[test]
fn deterministic_derivation() {
    let a = IfacKey::derive(Some("net"), Some("pass"), 8);
    let b = IfacKey::derive(Some("net"), Some("pass"), 8);
    let c = IfacKey::derive(None, Some("pass"), 8);

    let raw = [7u8; 64];
    assert_eq!(a.apply(&raw), b.apply(&raw));
    assert_ne!(a.apply(&raw), c.apply(&raw));
    let wire = a.apply(&raw);
    assert_eq!(b.apply(&b.strip(&wire).unwrap()), wire);

    let small = IfacKey::derive(Some("net"), None, 0);
    assert_eq!(small.size, ifac::IFAC_MIN_SIZE);
}

#[test]
fn matches_python_reference() {
    let key = IfacKey::derive(Some("net"), Some("pass"), 8);

    let raw: Vec<u8> = (0..64u8).collect();
    let wrapped = key.apply(&raw);

    let expected = hex_literal_vec(
        "b94fbf92d8e36218fc0d178bd37991243588d582da13d7bb61b78afbd82b852d\
         1c365683eaaa4583cb20d65a4aa39ac8fe3c008fa3ee0ee2506a9aa46cdce860\
         74a17d45e6248626",
    );
    assert_eq!(wrapped, expected);

    assert_eq!(key.strip(&expected), Some(raw));
}

fn hex_literal_vec(s: &str) -> Vec<u8> {
    let clean: String = s.chars().filter(|c| c.is_ascii_hexdigit()).collect();
    (0..clean.len() / 2)
        .map(|i| u8::from_str_radix(&clean[i * 2..i * 2 + 2], 16).unwrap())
        .collect()
}

#[test]
fn unconfigured_access_codes_pass_packets_through() {
    assert_eq!(ifac::encode(&[1, 2, 3], None), vec![1, 2, 3]);
    assert_eq!(ifac::decode(&[1, 2, 3], None), Some(vec![1, 2, 3]));
    let key = IfacKey::derive(Some("net"), None, ifac::DEFAULT_IFAC_SIZE);
    let wire = ifac::encode(&[1, 2, 3], Some(&key));
    assert_eq!(wire.len(), 5);
    assert_eq!(ifac::decode(&wire, Some(&key)), Some(vec![1, 2, 3]));
    // nothing behind the access code
    assert_eq!(ifac::decode(&[0x80, 0, 1, 2], Some(&key)), None);
    assert_eq!(ifac::decode(&[], Some(&key)), None);
}

#[test]
fn kiss_escape_matches_python_reference() {
    assert_eq!(
        kiss::escape(&[0x7e, 0x7d, 0x01, 0xc0, 0xdb, 0xdc, 0xdd]),
        vec![0x7e, 0x7d, 0x01, 0xdb, 0xdc, 0xdb, 0xdd, 0xdc, 0xdd]
    );
}

#[test]
fn encode_frame_matches_python_reference() {
    assert_eq!(
        kiss::encode_frame(&[0x7e, 0x7d, 0x01, 0xc0, 0xdb, 0xdc, 0xdd]),
        vec![0xc0, 0x00, 0x7e, 0x7d, 0x01, 0xdb, 0xdc, 0xdb, 0xdd, 0xdc, 0xdd, 0xc0]
    );

    assert_eq!(kiss::encode_frame(&[]), vec![0xc0, 0x00, 0xc0]);
}

#[test]
fn csma_commands_match_python_reference() {
    assert_eq!(kiss::set_preamble(350), vec![0xc0, 0x01, 0x23, 0xc0]);
    assert_eq!(kiss::set_preamble(3000), vec![0xc0, 0x01, 0xff, 0xc0]);
    assert_eq!(kiss::set_txtail(20), vec![0xc0, 0x04, 0x02, 0xc0]);
    assert_eq!(kiss::set_persistence(64), vec![0xc0, 0x02, 0x40, 0xc0]);
    assert_eq!(kiss::set_slottime(20), vec![0xc0, 0x03, 0x02, 0xc0]);
    assert_eq!(kiss::set_flow_control(true), vec![0xc0, 0x0f, 0x01, 0xc0]);
}

#[test]
fn csma_defaults_match_python_reference() {
    assert_eq!(
        CsmaParams::default().commands(),
        vec![
            vec![0xc0, 0x01, 0x23, 0xc0],
            vec![0xc0, 0x04, 0x02, 0xc0],
            vec![0xc0, 0x02, 0x40, 0xc0],
            vec![0xc0, 0x03, 0x02, 0xc0],
            vec![0xc0, 0x0f, 0x01, 0xc0],
        ]
    );
}

#[test]
fn kiss_decoder_round_trip() {
    let payload = vec![0x7e, 0x7d, 0xc0, 0xdb, 0x00, 0xff];
    let frame = kiss::encode_frame(&payload);

    let mut decoder = KissDecoder::new(HW_MTU);
    let mut events = Vec::new();
    for chunk in frame.chunks(3) {
        events.extend(decoder.feed(chunk));
    }

    assert_eq!(events, vec![KissEvent::Data(payload)]);
}

#[test]
fn decoder_strips_port_nibble_and_ignores_other_commands() {
    let mut decoder = KissDecoder::new(HW_MTU);

    let not_data = vec![FEND, 0x05, 0x01, 0x02, FEND];
    assert!(decoder.feed(&not_data).is_empty());

    let ready = vec![FEND, CMD_READY, 0x01, FEND];
    assert_eq!(decoder.feed(&ready), vec![KissEvent::Ready]);

    let data = kiss::encode_frame(&[0xaa, 0xbb]);
    assert_eq!(decoder.feed(&data), vec![KissEvent::Data(vec![0xaa, 0xbb])]);
}

#[test]
fn rest_of_a_ready_frame_is_ignored() {
    let mut decoder = KissDecoder::new(HW_MTU);
    let ready = vec![FEND, CMD_READY, 0x01, 0x00, 0x41, FEND];
    assert_eq!(decoder.feed(&ready), vec![KissEvent::Ready]);
    // the upper half of the command byte is the port
    assert_eq!(
        decoder.feed(&[FEND, 0x30, 7, FEND]),
        vec![KissEvent::Data(vec![7])]
    );
}

#[test]
fn kiss_packets_travel_in_both_modes() {
    let ax = KissMode::Ax25 {
        callsign: "N0CALL".to_string(),
        ssid: 1,
    };
    for mode in [KissMode::Kiss, ax] {
        let mut decoder = mode.decoder();
        let key = IfacKey::derive(Some("net"), None, 4);
        let wire = ifac::encode(&[1, 0xc0, 3], Some(&key));
        let events = decoder.feed(&mode.encode(&wire));
        assert_eq!(events.len(), 1);
        let KissEvent::Data(frame) = &events[0] else {
            panic!("no data")
        };
        assert_eq!(
            mode.receive(frame, Some(&key)),
            (true, Some(vec![1, 0xc0, 3]))
        );
        let other = IfacKey::derive(Some("other"), None, 4);
        assert_eq!(mode.receive(frame, Some(&other)), (true, None));
    }
    let ax = KissMode::Ax25 {
        callsign: "N0CALL".to_string(),
        ssid: 1,
    };
    assert_eq!(ax.receive(&[0; 16], None), (false, None));
}

#[test]
fn flow_control_sends_one_frame_per_ready() {
    let serial = SerialPortConfig::new("/dev/ttyUSB0", 9600);
    let iface = KissInterface::new(serial, CsmaParams::new(1, 2, 3, 4), true);
    assert_eq!(iface.lifecycle().policy.lost_wait, 5_000_000_000);
    let mut tx = iface.transmitter();
    let write = tx.begin(Some(vec![1]), 10).unwrap();
    assert_eq!(write.frame, kiss::encode_frame(&[1]));
    assert_eq!(write.payload_len, 1);
    assert!(tx.wrote(true, 11).is_none());
    // not ready: queued
    assert!(tx.begin(Some(vec![2]), 12).is_none());
    assert!(tx.begin(Some(vec![3]), 13).is_none());
    tx.on_ready();
    let write = tx.begin(None, 14).unwrap();
    assert_eq!(write.frame, kiss::encode_frame(&[2]));
    assert_eq!(write.payload_len, 0);
    // a failed write keeps the terminal ready
    assert!(tx.wrote(false, 15).is_none());
    assert_eq!(tx.begin(None, 16).unwrap().frame, kiss::encode_frame(&[3]));
}

#[test]
fn beacons_follow_traffic() {
    let iface = KissInterface::from_stream(KissMode::Kiss, CsmaParams::default(), false)
        .with_beacon(2, b"ID".to_vec());
    assert!(iface.lifecycle().online() && !iface.lifecycle().policy.opens);
    let mut tx = iface.transmitter();
    assert!(tx.begin(Some(vec![9]), 0).is_some());
    assert!(tx.wrote(true, 100).is_none());
    // exactly at the interval it is not due yet
    assert_eq!(
        tx.begin(Some(vec![8]), 2_000_000_100).unwrap().frame,
        kiss::encode_frame(&[8])
    );
    assert!(tx.wrote(true, 2_000_000_101).is_none());
    let beacon = tx.begin(Some(vec![7]), 2_000_000_101).unwrap();
    let mut padded = b"ID".to_vec();
    padded.resize(15, 0);
    assert_eq!(beacon.frame, kiss::encode_frame(&padded));
    assert_eq!(beacon.payload_len, 15);
    let packet = tx.wrote(true, 2_000_000_200).unwrap();
    assert_eq!(packet.frame, kiss::encode_frame(&[7]));
    assert!(tx.wrote(true, 2_000_000_300).is_none());
    tx.on_reopen();
    assert_eq!(
        tx.begin(Some(vec![6]), 9_000_000_000).unwrap().frame,
        kiss::encode_frame(&[6])
    );
}
