//! Serial, radio, pipe, I2P, backbone and shared-instance interfaces.

use reticulum::error::RnsError;
use reticulum::iface::backbone::{BackboneClient, FastFlapTable};
use reticulum::iface::hdlc::HdlcDecoder;
use reticulum::iface::i2p::{
    accept_command, connect_command, destination_b32, encode_b32, finish_line, hello_command,
    i2p_b64_decode, session_command, I2pPeer, LineReader, LineStep, SamReply,
};
use reticulum::iface::ifac::IfacKey;
use reticulum::iface::kiss::{CsmaParams, KissMode, SerialPortConfig};
use reticulum::iface::lifecycle::{Lifecycle, Medium, Stage};
use reticulum::iface::local::{
    encode_auth_frame, parse_auth_frame, AuthStep, Authentication, LocalClient, LocalServer,
    SharedInstanceAccessConfig, SharedInstanceAddress,
};
use reticulum::iface::pipe::{split_command, PipeInterface};
use reticulum::iface::rnode::{
    detect_request, kiss_frame, leave_request, reset_request, RnodeEchoState, RnodeRadioConfig,
    RnodeStatus, CMD_DATA, CMD_DETECT, CMD_FREQUENCY, CMD_FW_VERSION, CMD_INT_DATA, CMD_READY,
    CMD_SEL_INT, CMD_STAT_RSSI, CMD_STAT_SNR, DETECT_RESP, RADIO_STATE_OFF, RADIO_STATE_ON,
};
use reticulum::iface::rnode_parser::{RnodeEvent, RnodeParser};
use reticulum::iface::rnode_session::{
    firmware_supported, open_wait, vport_transmit_frames, HandshakeStep, LinkInput, LinkKind,
    RnodeHandshake, RnodeInterface, RnodeMultiInterface, RnodeShared, RnodeVport, DETECT_TIME,
};
use reticulum::iface::serial::{parity_of, Parity, SerialInterface};
use reticulum::iface::stream::{StreamKind, StreamReceiver};
use reticulum::iface::transmit::KissInterface;

#[test]
fn split_command_matches_shlex() {
    assert_eq!(split_command("/bin/cat").unwrap(), vec!["/bin/cat".to_string()]);

    assert_eq!(
        split_command("sh -c 'echo \"hello world\"'").unwrap(),
        vec!["sh".to_string(), "-c".to_string(), "echo \"hello world\"".to_string(),]
    );

    assert_eq!(
        split_command("tee /tmp/a\\ b.txt").unwrap(),
        vec!["tee".to_string(), "/tmp/a b.txt".to_string(),]
    );

    assert_eq!(
        split_command("script --opt=\"value with spaces\"").unwrap(),
        vec!["script".to_string(), "--opt=value with spaces".to_string(),]
    );

    assert_eq!(split_command("   ").unwrap(), Vec::<String>::new());
    assert!(split_command("sh -c 'unterminated").is_err());
}

#[test]
fn backslashes_in_double_quotes_stay() {
    let split = |command: &str| split_command(command).unwrap();
    assert_eq!(split("\"a\\nb\""), vec!["a\\nb".to_string()]);
    assert_eq!(split("\"a\\\"b\\\\c\""), vec!["a\"b\\c".to_string()]);
    assert_eq!(split("a\\nb '\\n'"), vec!["anb".to_string(), "\\n".to_string()]);
    assert!(split_command("\"a\\\"").is_err());
    assert_eq!(split("a\tb\rc\nd"), vec!["a", "b", "c", "d"]);
    assert_eq!(split("a\u{a0}b\u{b}c"), vec!["a\u{a0}b\u{b}c".to_string()]);
}

#[test]
fn pipes_run_their_command() {
    let pipe = PipeInterface::new("nc -l 'a b'").with_respawn_delay(7);
    assert_eq!(pipe.respawn_delay, 7);
    let (program, args) = pipe.program().unwrap();
    assert_eq!(program, "nc");
    assert_eq!(args, vec!["-l".to_string(), "a b".to_string()]);
    assert_eq!(PipeInterface::new("").program(), Err(RnsError::InvalidArgument));
}

#[test]
fn radio_state_and_multi_transmit_frames_match_protocol() {
    assert_eq!(RADIO_STATE_ON, 0x01);
    assert_eq!(RADIO_STATE_OFF, 0x00);

    let (select, data) = vport_transmit_frames(3, b"payload");
    assert_eq!(select, kiss_frame(CMD_SEL_INT, &[3]));
    assert_eq!(data, kiss_frame(CMD_DATA, b"payload"));
    assert_ne!(data, kiss_frame(CMD_INT_DATA[3], b"payload"));
}

#[test]
fn flow_control_waits_for_each_ready_event_and_observes_cancellation() {
    let mut shared = RnodeShared::default();
    assert!(!shared.may_transmit(true));
    assert!(shared.may_transmit(false));
    assert_eq!(shared.wait_for_interface_ready(true, false), None);
    shared.take_reports(&vec![RnodeEvent::Ready(true)]);
    assert!(shared.may_transmit(true));
    assert_eq!(shared.wait_for_interface_ready(true, false), Some(true));

    shared.transmitted(true);
    assert!(!shared.may_transmit(true));
    assert_eq!(shared.wait_for_interface_ready(true, false), None);
    assert_eq!(shared.wait_for_interface_ready(true, true), Some(false));
}

fn radio() -> RnodeRadioConfig {
    RnodeRadioConfig {
        frequency: 867_200_000,
        bandwidth: 125_000,
        txpower: 7,
        spreadingfactor: 8,
        codingrate: 5,
        st_alock: None,
        lt_alock: None,
    }
}

#[test]
fn requests_to_a_radio() {
    assert_eq!(detect_request()[..6], [0xc0, 0x08, 0x73, 0xc0, 0xc0, 0x50]);
    assert_eq!(leave_request(), vec![0xc0, 0x0a, 0xff, 0xc0]);
    assert_eq!(reset_request(), vec![0xc0, 0x55, 0xf8, 0xc0]);
    let frames = radio().configuration_frames(RADIO_STATE_ON);
    assert_eq!(frames[0], kiss_frame(CMD_FREQUENCY, &867_200_000u32.to_be_bytes()));
}

#[test]
fn radio_reports_are_parsed() {
    let mut parser = RnodeParser::new(false);
    let mut stream = kiss_frame(CMD_DATA, &[0xc0, 0xdb, 1]);
    stream.extend_from_slice(&kiss_frame(CMD_STAT_RSSI, &[70]));
    stream.extend_from_slice(&kiss_frame(CMD_STAT_SNR, &[0xf8]));
    let mut events = Vec::new();
    for byte in stream {
        events.extend(parser.feed(&[byte]));
    }
    assert_eq!(events.len(), 3);
    assert!(matches!(&events[0], RnodeEvent::Data { data, .. } if data == &vec![0xc0, 0xdb, 1]));
    assert!(matches!(&events[1], RnodeEvent::Status(status) if status.rssi == Some(70 - 157)));
    assert!(matches!(&events[2], RnodeEvent::Status(status) if status.snr == Some(-8)));
}

#[test]
fn echoed_settings_are_validated() {
    let mut echo = RnodeEchoState::default();
    assert!(radio().validate(&echo).is_err());
    let mut settings = RnodeEchoState::default();
    settings.frequency = Some(867_200_050);
    settings.bandwidth = Some(125_000);
    settings.txpower = Some(7);
    settings.spreadingfactor = Some(8);
    settings.codingrate = Some(5);
    settings.radio_state = Some(RADIO_STATE_ON);
    echo.merge(settings);
    assert!(radio().validate(&echo).is_ok());
    echo.spreadingfactor = Some(9);
    assert!(radio().validate(&echo).is_err());
}

#[test]
fn signal_quality_is_a_percentage() {
    let best = RnodeStatus::quality_for(100, Some(8)).unwrap();
    assert_eq!(best.num, 100 * best.den);
    let worst = RnodeStatus::quality_for(-200, Some(8)).unwrap();
    assert_eq!(worst.num, 0);
    assert!(RnodeStatus::quality_for(0, None).is_none());

    let snr = RnodeStatus { snr: Some(24), ..RnodeStatus::default() };
    let mut shared = RnodeShared::default();
    shared.take_reports(&vec![RnodeEvent::Status(snr)]);
    assert!(shared.status.quality.is_none());
    shared.echo.spreadingfactor = Some(8);
    shared.take_reports(&vec![RnodeEvent::Status(snr)]);
    let quality = shared.status.quality.unwrap();
    assert_eq!(quality.num, 100 * quality.den);
}

#[test]
fn handshake_detects_and_configures() {
    let mut handshake = RnodeHandshake::new(radio(), RnodeShared::default(), 0);
    assert!(matches!(handshake.poll(LinkInput::Done, 0), HandshakeStep::Read(_)));
    let mut reply = kiss_frame(CMD_DETECT, &[DETECT_RESP]);
    reply.extend_from_slice(&kiss_frame(CMD_FW_VERSION, &[1, 70]));
    let step = handshake.poll(LinkInput::Bytes(reply), 1);
    assert!(handshake.shared().detected);
    assert!(matches!(step, HandshakeStep::Configure(_)));
}

#[test]
fn handshake_gives_up_without_an_answer() {
    let mut handshake = RnodeHandshake::new(radio(), RnodeShared::default(), 0);
    assert!(matches!(handshake.poll(LinkInput::Done, 0), HandshakeStep::Read(_)));
    assert!(matches!(
        handshake.poll(LinkInput::Done, DETECT_TIME + 1),
        HandshakeStep::Failed(_)
    ));
    let mut handshake = RnodeHandshake::new(radio(), RnodeShared::default(), 0);
    assert!(matches!(handshake.poll(LinkInput::Closed, 1), HandshakeStep::Failed(_)));
    assert!(firmware_supported(Some((1, 52))));
    assert!(!firmware_supported(Some((1, 51))));
    assert_eq!(open_wait(0), Some(0));
    assert_eq!(open_wait(4), Some(800_000_000));
    assert_eq!(open_wait(5), None);
}

#[test]
fn ready_reports_come_with_a_frame() {
    let mut parser = RnodeParser::new(false);
    let events = parser.feed(&kiss_frame(CMD_READY, &[1]));
    assert!(matches!(events[..], [RnodeEvent::Ready(true)]));
    let network = RnodeInterface::tcp("10.0.0.1:7633", radio()).with_flow_control(true);
    assert!(network.flow_control && matches!(network.link(), LinkKind::Network));
    let ports = vec![RnodeVport { index: 1, config: radio() }];
    let multi = RnodeMultiInterface::serial("/dev/ttyUSB0", 115200, ports);
    assert!(matches!(multi.link(), LinkKind::Serial));
    assert_eq!(multi.first_config().frequency, 867_200_000);
}

#[test]
fn serial_formats() {
    assert_eq!(parity_of("even"), Parity::Even);
    assert_eq!(parity_of("o"), Parity::Odd);
    assert_eq!(parity_of("none"), Parity::Off);
    let config = SerialPortConfig::new("/dev/ttyS0", 9600).with_format(7, "E", 2);
    let format = config.format();
    assert_eq!((format.data_bits, format.two_stop_bits), (7, true));
    assert_eq!(format.parity, Parity::Even);
    assert_eq!(SerialInterface::new(config).lifecycle().stage, Stage::Opening);
    assert!(SerialInterface::from_stream().lifecycle().online());
}

#[test]
fn beacons_follow_traffic_on_kiss() {
    let config = SerialPortConfig::new("/dev/ttyS0", 9600);
    let interface = KissInterface::new(config, CsmaParams::default(), false)
        .with_beacon(10, b"HELLO".to_vec());
    let mut tx = interface.transmitter();
    assert!(tx.begin(None, 0).is_none());
    let write = tx.begin(Some(b"packet".to_vec()), 1).unwrap();
    assert_eq!(write.frame, KissMode::Kiss.encode(b"packet"));
    assert_eq!(write.payload_len, 6);
    assert!(tx.wrote(true, 1).is_none());
    let beacon = tx.begin(None, 12_000_000_000);
    assert!(beacon.is_some());
}

#[test]
fn streams_carry_packets_behind_access_codes() {
    let key = IfacKey::derive(Some("net"), Some("pass"), 16);
    let packet = b"\x01\x02 a packet of some length".to_vec();
    let (frame, _) = StreamKind::Backbone.seal_packet(&packet, Some(&key)).unwrap();
    let mut receiver = StreamReceiver::new(StreamKind::Backbone);
    let frames = receiver.receive(&frame);
    assert_eq!(frames.len(), 1);
    let (opened, _) = StreamKind::Backbone.open_frame(&frames[0], Some(&key)).unwrap();
    assert_eq!(opened, packet);
    let other = IfacKey::derive(Some("net"), Some("other"), 16);
    assert!(StreamKind::Backbone.open_frame(&frames[0], Some(&other)).is_none());
    assert!(StreamKind::Backbone.open_frame(&packet, Some(&key)).is_none());
}

#[test]
fn flapping_peers_are_blocked_for_a_while() {
    let mut table = FastFlapTable::new(true, 10, 2, 100);
    assert!(!table.is_blocked("peer", 0));
    for now in 0..4 {
        table.account_disconnect("peer", 1, now);
    }
    assert_eq!(table.flaps("peer"), 4);
    assert!(table.is_blocked("peer", 5));
    assert!(!table.is_blocked("other", 5));
    assert_eq!(table.clean(1000), 1);
    assert!(!table.is_blocked("peer", 1000));
    assert_eq!(table.blocked_count(), 0);
    let mut plain = FastFlapTable::default();
    assert_eq!(plain.account_disconnect("peer", 0, 0), 0);
    let mut off = FastFlapTable::new(false, 10, 2, 100);
    off.account_disconnect("peer", 1, 0);
    assert!(!off.is_blocked("peer", 1));
    assert!(BackboneClient::new("host:1").lifecycle().policy.opens);
    assert!(!BackboneClient::new_from_stream("peer".to_string()).lifecycle().policy.opens);
}

fn access() -> SharedInstanceAccessConfig {
    SharedInstanceAccessConfig {
        allow: vec!["nomadnet".to_string()],
        required_token: Some(b"secret".to_vec()),
        max_clients: Some(2),
    }
}

#[test]
fn clients_introduce_themselves() {
    let frame = encode_auth_frame("nomadnet", b"secret");
    let payload = &HdlcDecoder::new(2048).feed(&frame)[0];
    let (name, token) = parse_auth_frame(payload).unwrap();
    assert_eq!((name.as_str(), token.as_slice()), ("nomadnet", &b"secret"[..]));
    assert!(parse_auth_frame(b"").is_none());
    let greek = parse_auth_frame(b"RNSLIA1\x02\xce\xb1\x00\x01x").unwrap();
    assert_eq!((greek.0.as_str(), greek.1.as_slice()), ("\u{3b1}", &b"x"[..]));
    assert!(parse_auth_frame(b"RNSLIA1\x02\xb1\xce\x00\x01x").is_none());

    assert!(access().requires_handshake());
    assert!(access().accepts("nomadnet", b"secret"));
    assert!(!access().accepts("nomadnet", b"wrong"));
    assert!(!access().accepts("other", b"secret"));
    assert!(access().has_room(&Vec::new()));

    let mut good = Authentication::new(0);
    assert!(!good.is_over(0));
    let greeting = LocalClient::new_authenticated(
        "nomadnet",
        SharedInstanceAddress::tcp(37428),
        b"secret".to_vec(),
    )
    .greeting()
    .unwrap();
    assert!(matches!(good.take(&greeting[..3], &access()), AuthStep::Waiting));
    assert!(
        matches!(good.take(&greeting[3..], &access()), AuthStep::Accepted(name) if name == "nomadnet")
    );
    let mut bad = Authentication::new(0);
    let forged = encode_auth_frame("nomadnet", b"guess");
    assert!(matches!(bad.take(&forged, &access()), AuthStep::Rejected));
    assert!(bad.is_over(u64::MAX));
}

#[test]
fn shared_instances_have_addresses() {
    assert_eq!(SharedInstanceAddress::tcp(37428).describe(), "127.0.0.1:37428");
    let server = LocalServer::new(SharedInstanceAddress::unix_abstract("default"));
    assert!(!server.access_config().requires_handshake());
    let client = LocalClient::new("app", SharedInstanceAddress::tcp(1));
    assert!(client.greeting().is_none() && client.lifecycle().drops());
    assert!(LocalClient::new_from_stream("app").lifecycle().online());
}

#[test]
fn sam_replies_are_read() {
    let reply = SamReply::parse("SESSION STATUS RESULT=OK DESTINATION=abc~").unwrap();
    assert_eq!((reply.cmd.as_str(), reply.action.as_str()), ("SESSION", "STATUS"));
    assert!(reply.ok());
    assert_eq!(reply.option("DESTINATION"), Some("abc~"));
    assert_eq!(reply.session_destination().unwrap(), "abc~");
    let refused = SamReply::parse("HELLO REPLY RESULT=NOVERSION").unwrap();
    assert!(!refused.ok() && refused.confirmed().is_err());
    assert!(SamReply::parse("").is_none());

    let mut reader = LineReader::new();
    let mut last = LineStep::More;
    for byte in b"HELLO REPLY RESULT=OK\n" {
        last = reader.take(*byte);
    }
    assert!(matches!(last, LineStep::Reply(reply) if reply.ok()));
    assert!(matches!(finish_line(&b"\xff\xfe".to_vec()), LineStep::Failed(_)));
    match finish_line(&b"STREAM STATUS MESSAGE=a\xffb".to_vec()) {
        LineStep::Reply(reply) => assert_eq!(reply.opts[0].value, "a\u{fffd}b"),
        _ => panic!("no reply"),
    }
}

#[test]
fn sam_commands_end_with_a_line_feed() {
    assert!(hello_command().starts_with("HELLO VERSION") && hello_command().ends_with('\n'));
    assert!(session_command("id").contains("ID=id"));
    assert!(connect_command("id", "dest").contains("DESTINATION=dest"));
    assert!(accept_command("id").starts_with("STREAM ACCEPT"));
    let peer = I2pPeer::new_initiator("127.0.0.1:7656", "id", "dest");
    assert!(!peer.lifecycle().online() && I2pPeer::new_from_stream().lifecycle().online());
}

#[test]
fn i2p_addresses() {
    assert_eq!(i2p_b64_decode("AQID").unwrap(), vec![1, 2, 3]);
    assert_eq!(i2p_b64_decode("-~~~").unwrap(), vec![0xfb, 0xff, 0xff]);
    assert!(i2p_b64_decode("+///").is_none());
    let b32 = encode_b32(&[0; 32]);
    assert!(b32.starts_with("aaaaaaaa"));
    let address = destination_b32("AQID");
    assert_eq!(address.len(), 52);
    assert!(address != destination_b32("AQIE"));
}

#[test]
fn connections_live_by_their_policy() {
    let mut serial = Lifecycle::new(Medium::Serial, true);
    assert_eq!(serial.stage, Stage::Opening);
    assert_eq!(serial.policy.settle_wait, 500_000_000);
    serial.on_open(false);
    assert_eq!(serial.stage, Stage::Waiting(5_000_000_000));
    serial.on_waited();
    serial.on_open(true);
    assert!(serial.online());
    serial.on_write_failure();
    assert!(serial.online());
    serial.on_reader_end();
    assert_eq!(serial.stage, Stage::Waiting(5_000_000_000));

    let mut peer = Lifecycle::new(Medium::Backbone, false);
    peer.on_reader_end();
    assert_eq!(peer.stage, Stage::Serving { reading: false, writing: true });
    peer.on_write_failure();
    assert_eq!(peer.stage, Stage::Finished);
    peer.on_open(true);
    assert_eq!(peer.stage, Stage::Finished);

    let mut pipe = PipeInterface::new("cat").with_respawn_delay(3).lifecycle();
    pipe.on_open(true);
    pipe.on_write_failure();
    assert_eq!(pipe.stage, Stage::Waiting(3));

    let mut client = Lifecycle::new(Medium::Shared, true);
    client.on_open(true);
    assert!(!client.drops());
    client.on_reader_end();
    assert_eq!(client.stage, Stage::Opening);
    assert!(client.drops());
    client.on_cancel();
    assert_eq!(client.stage, Stage::Finished);
}
