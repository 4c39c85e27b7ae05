//! Discovery, flow of announces, counters and the interface manager.

use reticulum::hash::AddressHash;
use reticulum::iface::auto::{
    address_of_digest, discovery_token, mcast_discovery_address, parse_expanded_ipv6, suitable_interfaces,
    verify_discovery_token, DiscoveryScope, MulticastAddressType,
};
use reticulum::iface::auto_peers::{
    AutoInterface, AutoInterfaceConfig, AutoPeerEntry, AutoPeers, BeaconAction, MultiIfDeque,
};
use reticulum::iface::backbone::{BackboneClient, BackboneServer};
use reticulum::iface::control::{announce_emitted, packet_wire_len};
use reticulum::iface::dispatch::{interface_kind_name, kind_hw_mtu};
use reticulum::iface::i2p::{destination_b32, I2pPeer, I2pServer};
use reticulum::iface::local::{LocalClient, LocalServer};
use reticulum::iface::manager::{
    interface_address, InterfaceManager, InterfaceStats, TxMessage, TxMessageType,
};
use reticulum::iface::pipe::PipeInterface;
use reticulum::iface::rnode_session::{RnodeInterface, RnodeMultiInterface, RnodeVport};
use reticulum::iface::serial::SerialInterface;
use reticulum::iface::transmit::KissInterface;
use reticulum::iface::{IfaceControlState, Interface, InterfaceCounters, InterfaceMode};
use reticulum::packet::{
    DestinationType, Header, HeaderType, IfacFlag, Packet, PacketContext, PacketType,
    PropagationType,
};

const SECOND: u64 = 1_000_000_000;
const MILLI: u64 = 1_000_000;

#[test]
fn mcast_address_matches_python_reference() {
    assert_eq!(
        mcast_discovery_address(
            "reticulum",
            DiscoveryScope::Link,
            MulticastAddressType::Temporary
        ),
        "ff12:0:d70b:fb1c:16e4:5e39:485e:31e1"
    );
    assert_eq!(
        mcast_discovery_address("rstest", DiscoveryScope::Link, MulticastAddressType::Temporary),
        "ff12:0:5113:b862:4c6f:e1fa:8d3c:c5f6"
    );
    assert_eq!(
        mcast_discovery_address("rstest", DiscoveryScope::Site, MulticastAddressType::Permanent),
        "ff05:0:5113:b862:4c6f:e1fa:8d3c:c5f6"
    );
}

#[test]
fn discovery_token_matches_python_reference() {
    let expected: [u8; 32] = [
        0x97, 0xb2, 0x55, 0x76, 0x74, 0x9e, 0xa9, 0x36, 0xb0, 0xd8, 0xa8, 0x53, 0x6f, 0xfa, 0xf4,
        0x42, 0xd1, 0x57, 0xcf, 0x47, 0xd4, 0x60, 0xdc, 0xf1, 0x3c, 0x48, 0xb7, 0xbd, 0x18, 0xb6,
        0xc1, 0x63,
    ];
    assert_eq!(discovery_token("reticulum", "fe80::1"), expected);

    let expected: [u8; 32] = [
        0x50, 0x3c, 0x85, 0x3b, 0xdf, 0x31, 0xda, 0xc7, 0xda, 0x54, 0xfa, 0x3f, 0xec, 0x30, 0x88,
        0x82, 0x1d, 0x63, 0xda, 0x08, 0x6e, 0x0b, 0x88, 0xa6, 0xba, 0xa5, 0x22, 0x78, 0xcd, 0x79,
        0x74, 0x0d,
    ];
    assert_eq!(discovery_token("rstest", "fe80::2"), expected);
}

#[test]
fn verify_token_rejects_forged_beacons() {
    let token = discovery_token("reticulum", "fe80::42");

    assert!(verify_discovery_token("reticulum", "fe80::42", &token));
    assert!(!verify_discovery_token("reticulum", "fe80::43", &token));
    assert!(!verify_discovery_token("other", "fe80::42", &token));
    assert!(!verify_discovery_token("reticulum", "fe80::42", &token[..16]));
}

#[test]
fn parse_expanded_ipv6_from_proc() {
    let addr = parse_expanded_ipv6("fe800000000000000000000000000001").unwrap();
    let mut expected = [0u8; 16];
    expected[0] = 0xfe;
    expected[1] = 0x80;
    expected[15] = 1;
    assert_eq!(addr, expected);

    assert!(parse_expanded_ipv6("fe8000000000000000000000000000").is_err());
}

#[test]
fn mif_deque_suppresses_duplicates() {
    let mut deque = MultiIfDeque::default();

    assert!(deque.check(b"packet", 0));
    assert!(!deque.check(b"packet", 0));
    assert!(deque.check(b"other", 0));
    assert!(!deque.check(b"other", 0));
}

fn announce_packet(hops: u8, destination: [u8; 16], emitted: u64) -> Packet {
    let mut data = Vec::new();
    data.extend_from_slice(&[1u8; 32]);
    data.extend_from_slice(&[2u8; 32]);
    data.extend_from_slice(&[3u8; 10]);
    data.extend_from_slice(&[0u8; 5]);
    data.extend_from_slice(&emitted.to_be_bytes()[3..8]);
    data.extend_from_slice(&[4u8; 64]);

    Packet {
        header: Header {
            ifac_flag: IfacFlag::Open,
            context_flag: false,
            header_type: HeaderType::Type2,
            propagation_type: PropagationType::Broadcast,
            destination_type: DestinationType::Single,
            packet_type: PacketType::Announce,
            hops,
        },
        destination: AddressHash::new(destination),
        transport: None,
        context: PacketContext::Plain,
        data,
    }
}

#[test]
fn ingress_burst_activates_and_holds() {
    let t0 = 1_000 * SECOND;
    let mut state = IfaceControlState::new(t0);

    assert!(!state.should_ingress_limit(t0));

    for i in 0..10 {
        state.received_announce(t0 + 50 * MILLI * i);
    }

    assert!(state.should_ingress_limit(t0 + SECOND));

    let packet = announce_packet(1, [7; 16], 100);
    state.hold_announce(&packet, 128);
    assert_eq!(state.held_announces_len(), 1);

    assert!(state.release_held_announce(t0 + 2 * SECOND).is_none());
}

#[test]
fn held_announces_release_after_burst() {
    let t0 = 1_000 * SECOND;
    let mut state = IfaceControlState::new(t0);

    let later = t0 + 3 * 60 * 60 * SECOND;
    for i in 0..12 {
        state.received_announce(later + 60 * MILLI * i);
    }
    assert!(state.should_ingress_limit(later + SECOND));

    state.hold_announce(&announce_packet(2, [9; 16], 1), 128);
    state.hold_announce(&announce_packet(5, [8; 16], 1), 128);

    let release_at = later + 60 * SECOND;
    let released = state.release_held_announce(release_at).expect("held release");
    assert_eq!(released.header.hops, 2);

    assert!(state.release_held_announce(release_at).is_none());
    let second =
        state.release_held_announce(release_at + 6 * SECOND).expect("second release");
    assert_eq!(second.header.hops, 5);
}

#[test]
fn announce_cap_defers_and_queues() {
    let t0 = 1_000 * SECOND;
    let mut state = IfaceControlState::new(t0);
    state.bitrate = 1200;

    let packet = announce_packet(1, [1; 16], 100);
    let size = packet_wire_len(&packet);
    assert!(size > 0);

    assert!(state.try_transmit_announce(size, t0));
    assert!(!state.try_transmit_announce(size, t0 + MILLI));
    state.queue_announce(announce_packet(1, [1; 16], 100), t0 + MILLI);
    assert_eq!(state.queued_announces_len(), 1);

    let wait = state.queued_announce_wait(t0 + MILLI).unwrap();
    let taken = state.take_queued_announce(t0 + MILLI + wait).expect("queued announce released");
    assert_eq!(taken.destination, packet.destination);
}

#[test]
fn queued_announces_dedupe_keeps_newest_emitted() {
    let t0 = 1_000 * SECOND;
    let mut state = IfaceControlState::new(t0);

    let older = announce_packet(1, [4; 16], 1);
    let newer = announce_packet(3, [4; 16], 2);

    state.queue_announce(older, t0);
    state.queue_announce(newer, t0 + SECOND);
    assert_eq!(state.queued_announces_len(), 1);

    let taken = state.take_queued_announce(t0 + 2 * SECOND).unwrap();
    assert_eq!(announce_emitted(&taken), 2);
}

#[test]
fn queued_announces_prefer_lowest_hops() {
    let t0 = 1_000 * SECOND;
    let mut state = IfaceControlState::new(t0);

    state.queue_announce(announce_packet(4, [5; 16], 1), t0);
    state.queue_announce(announce_packet(2, [6; 16], 1), t0 + SECOND);
    state.queue_announce(announce_packet(2, [7; 16], 1), t0 + 2 * SECOND);

    let taken = state.take_queued_announce(t0 + 3 * SECOND).unwrap();
    assert_eq!(taken.destination.as_slice(), &[6u8; 16]);
}

#[test]
fn path_request_burst_limiting() {
    let t0 = 1_000 * SECOND;
    let mut state = IfaceControlState::new(t0);
    assert!(!state.should_ingress_limit_pr(t0));

    for i in 0..10 {
        state.received_path_request(t0 + 30 * MILLI * i);
    }
    assert!(state.should_ingress_limit_pr(t0 + SECOND));

    assert!(!state.should_egress_limit_pr(t0 + SECOND));

    state.egress_control = true;
    for i in 0..10 {
        state.sent_path_request(t0 + 2 * SECOND + 10 * MILLI * i);
    }
    assert!(state.should_egress_limit_pr(t0 + 3 * SECOND));
}

#[test]
fn mode_parsing() {
    assert_eq!(InterfaceMode::from_name("roaming"), Some(InterfaceMode::Roaming));
    assert_eq!(InterfaceMode::from_name("access_point"), Some(InterfaceMode::AccessPoint));
    assert_eq!(InterfaceMode::from_u8(0x06), Some(InterfaceMode::Gateway));
    assert_eq!(InterfaceMode::from_name("RoAMing"), Some(InterfaceMode::Roaming));
    assert_eq!(InterfaceMode::from_name("nope"), None);
    assert!(InterfaceMode::DISCOVER_PATHS_FOR.contains(&InterfaceMode::Roaming));
    assert!(!InterfaceMode::DISCOVER_PATHS_FOR.contains(&InterfaceMode::Boundary));
    assert!(InterfaceMode::BOUNDARY_SEARCH_MODES.contains(&InterfaceMode::Gateway));
}

#[test]
fn mode_names_ignore_case_and_come_back() {
    for value in 1..=7u8 {
        let mode = InterfaceMode::from_u8(value).unwrap();
        assert_eq!(InterfaceMode::from_name(mode.name()), Some(mode));
        assert_eq!(InterfaceMode::from_name(&mode.name().to_uppercase()), Some(mode));
    }
    assert_eq!(InterfaceMode::from_u8(0), None);
    assert_eq!(InterfaceMode::from_u8(8), None);
}

#[test]
fn radio_quality_counters_default_to_unreported() {
    let counters = InterfaceCounters::default();
    assert_eq!(counters.rssi(), None);
    assert_eq!(counters.snr(), None);
    assert_eq!(counters.quality(), None);

    let stats = InterfaceStats {
        address: AddressHash::new_empty(),
        name: "rnode".into(),
        kind: "RnodeInterface".into(),
        sent: 0,
        received: 0,
        tx_bytes: 0,
        rx_bytes: 0,
        online: true,
        announces_received: 0,
        announces_sent: 0,
        announce_bytes_received: 0,
        announce_bytes_sent: 0,
        path_requests_received: 0,
        path_requests_sent: 0,
        protocol_violations: 0,
        ifac_violations: 0,
        packet_filter_hits: 0,
        rssi: None,
        snr: None,
        quality: None,
    };
    assert_eq!(stats.rssi, None);
}

fn reading(bits: Option<u32>) -> Option<f32> {
    bits.map(f32::from_bits)
}

#[test]
fn radio_quality_publish_keeps_previous_readings() {
    let mut counters = InterfaceCounters::default();
    counters.set_radio_quality(Some(-87), Some(9.25f32.to_bits()), Some(75.0f32.to_bits()));
    assert_eq!(counters.rssi(), Some(-87));
    assert_eq!(reading(counters.snr()), Some(9.25));
    assert_eq!(reading(counters.quality()), Some(75.0));

    counters.set_radio_quality(Some(-90), None, None);
    assert_eq!(counters.rssi(), Some(-90));
    assert_eq!(reading(counters.snr()), Some(9.25));
    assert_eq!(reading(counters.quality()), Some(75.0));

    let mut counters = InterfaceCounters::default();
    counters.set_radio_quality(
        Some(-100),
        Some((-7.5f32).to_bits()),
        Some(0.0f32.to_bits()),
    );
    assert_eq!(counters.rssi(), Some(-100));
    assert_eq!(reading(counters.snr()), Some(-7.5));
    assert_eq!(reading(counters.quality()), Some(0.0));
}

#[test]
fn interface_stats_counters() {
    let mut manager = InterfaceManager::new();
    let address = manager.new_channel_named("test iface", "TestIface", 0);
    manager.ifaces[0].stats.set_online(true);

    let stats = manager.stats();
    assert_eq!(stats.len(), 1);
    let stats = &stats[0];
    assert_eq!(stats.name, "test iface");
    assert_eq!(stats.kind, "TestIface");
    assert_eq!(stats.address, address);
    assert!(stats.online);

    let mut packet = announce_packet(0, [0; 16], 0);
    packet.header.packet_type = PacketType::Data;
    let message = TxMessage { tx_type: TxMessageType::Broadcast(None), packet };
    assert_eq!(manager.send(&message, 0), vec![address]);
    manager.ifaces[0].stats.count_tx(128);

    let stats = &manager.stats()[0];
    assert_eq!(stats.sent, 1);
    assert_eq!(stats.tx_bytes, 128);

    assert!(manager.stop_iface(&address));
    assert!(manager.stats().is_empty());
}

#[test]
fn first_live_interface_is_found() {
    let mut manager = InterfaceManager::new();
    assert_eq!(manager.first_iface_address(), None);
    let a = manager.register("a", "AutoInterface", &[1; 16], 0);
    let b = manager.register("b", "BackboneClient", &[2; 16], 0);
    assert_eq!(manager.first_iface_address(), Some(a));
    assert_eq!(manager.first_iface_hw_mtu(), Some(1196));
    manager.mark_stopped(&a);
    assert_eq!(manager.first_iface_address(), Some(b));
    assert_eq!(manager.first_iface_hw_mtu(), Some(1_048_576));
    manager.mark_stopped(&b);
    assert_eq!(manager.first_iface_address(), None);
    assert_eq!(manager.first_iface_hw_mtu(), None);
}

#[test]
fn queues_without_a_budget_may_be_empty() {
    let t0 = 1_000 * SECOND;
    let mut manager = InterfaceManager::new();
    let idle = manager.register("a", "AutoInterface", &[1; 16], t0);
    let busy = manager.register("b", "BackboneClient", &[2; 16], t0);
    let control = manager.control_mut(&idle).unwrap();
    control.bitrate = 1200;
    control.announce_cap = 0;
    manager.control_mut(&busy).unwrap().queue_announce(announce_packet(1, [1; 16], 100), t0);
    assert!(manager.queues_ready(t0));
    let messages = manager.process_announce_queues(t0);
    assert_eq!(messages.len(), 1);
    assert!(messages[0].tx_type == TxMessageType::Direct(busy));
    manager.control_mut(&idle).unwrap().queue_announce(announce_packet(1, [1; 16], 100), t0);
    assert!(!manager.queues_ready(t0));
}

#[test]
fn packets_have_a_longest_length() {
    assert_eq!(AutoInterface::mtu(), 1196);
    assert_eq!(AutoPeerEntry::mtu(), 1196);
    assert_eq!(BackboneClient::mtu(), 32768);
    assert_eq!(BackboneServer::mtu(), 32768);
    assert_eq!(I2pPeer::mtu(), 1064);
    assert_eq!(I2pServer::mtu(), 1064);
    assert_eq!(KissInterface::mtu(), 564);
    assert_eq!(LocalClient::mtu(), 262144);
    assert_eq!(LocalServer::mtu(), 262144);
    assert_eq!(PipeInterface::mtu(), 1064);
    assert_eq!(RnodeInterface::mtu(), 500);
    assert_eq!(RnodeMultiInterface::mtu(), 500);
    assert_eq!(RnodeVport::mtu(), 500);
    assert_eq!(SerialInterface::mtu(), 564);
}

#[test]
fn servers_know_where_they_are() {
    assert_eq!(BackboneServer::new("0.0.0.0:4242").addr, "0.0.0.0:4242");
    let mut config = AutoInterfaceConfig::default();
    config.data_port = 7;
    assert_eq!(AutoInterface::new(config).config().data_port, 7);
    let mut server = I2pServer::new("127.0.0.1:7656", "rns");
    assert_eq!((server.sam_addr.as_str(), server.session_id.as_str()), ("127.0.0.1:7656", "rns"));
    assert_eq!((server.destination().as_str(), server.b32().as_str()), ("", ""));
    server.established("AAAA".to_string());
    assert_eq!(server.destination(), "AAAA");
    assert_eq!(server.b32(), destination_b32("AAAA"));
    server.lost();
    assert_eq!(server.destination(), "");
}

#[test]
fn digests_give_group_addresses() {
    let mut digest = [0u8; 32];
    for i in 0..32 {
        digest[i] = i as u8;
    }
    let address =
        address_of_digest(&digest, DiscoveryScope::Site, MulticastAddressType::Permanent);
    assert_eq!(address, "ff05:0:203:405:607:809:a0b:c0d");
}

#[test]
fn packets_go_where_they_are_sent() {
    let mut manager = InterfaceManager::new();
    let a = manager.register("a", "TcpClientInterface", &[1; 16], 0);
    let b = manager.register("b", "UdpInterface", &[2; 16], 0);
    assert!(a != b);
    assert_eq!(a, interface_address(1, &[1; 16]));

    let mut packet = announce_packet(0, [3; 16], 0);
    packet.header.packet_type = PacketType::Data;
    let direct = TxMessage { tx_type: TxMessageType::Direct(b), packet };
    assert_eq!(manager.send(&direct, 0), vec![b]);
    let mut packet = announce_packet(0, [3; 16], 0);
    packet.header.packet_type = PacketType::Data;
    let back = TxMessage { tx_type: TxMessageType::Broadcast(Some(a)), packet };
    assert_eq!(manager.send(&back, 0), vec![b]);

    manager.mark_stopped(&b);
    assert!(manager.send(&back, 0).is_empty());
    assert_eq!(manager.iface_mode(&a), InterfaceMode::Full);
    assert!(manager.set_iface_mode(&a, InterfaceMode::AccessPoint));
    assert_eq!(manager.iface_mode(&a), InterfaceMode::AccessPoint);
    assert!(manager.set_iface_local_client(&a));
    assert_eq!(manager.local_client_iface_addresses(), vec![a]);
    assert!(!manager.set_iface_bitrate(&AddressHash::new_empty(), 9600));
}

#[test]
fn announces_follow_the_modes() {
    let mut manager = InterfaceManager::new();
    let a = manager.register("a", "TcpClientInterface", &[1; 16], 0);
    let b = manager.register("b", "UdpInterface", &[2; 16], 0);
    assert!(manager.announce_forwarding_allowed(&b, Some(a)));
    manager.set_iface_mode(&b, InterfaceMode::Roaming);
    assert!(manager.announce_forwarding_allowed(&b, Some(a)));
    manager.set_iface_mode(&a, InterfaceMode::Boundary);
    assert!(!manager.announce_forwarding_allowed(&b, Some(a)));
    assert!(manager.announce_forwarding_allowed(&b, None));
    manager.set_iface_mode(&b, InterfaceMode::Boundary);
    assert!(manager.announce_forwarding_allowed(&b, Some(a)));
    manager.set_iface_mode(&a, InterfaceMode::Roaming);
    assert!(!manager.announce_forwarding_allowed(&b, Some(a)));
    manager.set_iface_mode(&b, InterfaceMode::Internal);
    assert!(!manager.announce_forwarding_allowed(&b, Some(a)));
    manager.control_mut(&a).unwrap().announces_to_internal = Some(true);
    assert!(manager.announce_forwarding_allowed(&b, Some(a)));
}

#[test]
fn kinds_have_names_and_limits() {
    assert_eq!(interface_kind_name("reticulum::iface::tcp::TcpClient"), "TcpClient");
    assert_eq!(kind_hw_mtu("Unknown"), None);
}

#[test]
fn beacons_make_peers() {
    let own = [1u8; 16];
    let other = [2u8; 16];
    let mut peers = AutoPeers::new("reticulum", vec![own], vec!["eth0".to_string()]);
    let token = discovery_token("reticulum", "fe80::2");
    assert!(!peers.on_data(b"early", other, 0));
    assert!(matches!(
        peers.on_beacon(&token, "fe80::3", other, "eth0", 1),
        BeaconAction::Forged
    ));
    assert!(!peers.on_data(b"forged", other, 1));
    let echo = discovery_token("reticulum", "fe80::1");
    assert!(matches!(peers.on_beacon(&echo, "fe80::1", own, "eth0", 1), BeaconAction::Echo));
    peers.on_beacon(&token, "fe80::2", other, "eth0", 2);
    assert!(peers.on_data(b"hello", other, 3));
    assert!(!peers.on_data(b"hello", other, 3));
}

#[test]
fn discovery_configuration() {
    let config = AutoInterfaceConfig::new("rstest");
    assert_eq!(config.discovery_address(), "ff12:0:5113:b862:4c6f:e1fa:8d3c:c5f6");
    assert_eq!(config.unicast_discovery_port(), config.discovery_port + 1);
    assert_eq!(DiscoveryScope::parse("SITE"), DiscoveryScope::Site);
    assert_eq!(DiscoveryScope::parse("anything"), DiscoveryScope::Link);
    assert_eq!(MulticastAddressType::parse("Permanent"), MulticastAddressType::Permanent);
}

#[test]
fn suitable_interfaces_are_link_local() {
    let list = "00000000000000000000000000000001 01 80 10 80       lo\n\
                fe800000000000000000000000000002 02 40 20 80     eth0\n\
                20010db8000000000000000000000003 03 40 00 80     eth1\n\
                fe800000000000000000000000000004 04 40 20 80    wlan0\n";
    let found = suitable_interfaces(list, &[], &["wlan0".to_string()], None);
    assert_eq!(found.len(), 1);
    assert_eq!(found[0].name, "eth0");
    assert_eq!(found[0].link_local[15], 2);
    let named = suitable_interfaces(list, &["wlan0".to_string()], &[], None);
    assert_eq!(named.len(), 1);
    assert_eq!(named[0].name, "wlan0");
}
