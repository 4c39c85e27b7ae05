//! Transfers of resources, requests and responses.

use reticulum::error::RnsError;
use reticulum::hash::AddressHash;
use reticulum::link::{Link, LinkPacket};
use reticulum::msgpack::NAN_BITS;
use reticulum::packet::{PacketContext, PacketType};
use reticulum::resource::advertisement::ResourceAdvertisement;
use reticulum::resource::inbound::IncomingResource;
use reticulum::resource::manager::{ResourceManager, ResourceStrategy, SplitAssembly};
use reticulum::resource::outbound::{make_flags, OutgoingResource, PendingSegment, Sealing};
use reticulum::resource::request::{
    msgpack_bin, pack_request, pack_response, request_id, request_of, response_of, unpack_request,
    unpack_response,
};
use reticulum::resource::{
    map_hash, parts_of, ResourceOptions, ResourceStatus, HASHMAP_IS_EXHAUSTED, MAPHASH_LEN,
    MAX_EFFICIENT_SIZE, METADATA_MAX_SIZE,
};

const SECOND: u64 = 1_000_000_000;

fn link() -> Link {
    Link {
        id: AddressHash::new([0x11; 16]),
        destination: AddressHash::new([0x22; 16]),
        mtu: 500,
        sdu: 464,
        rtt: 50_000_000,
        establishment_cost: 300,
        last_resource_window: None,
        last_resource_eifr: None,
    }
}

fn options() -> ResourceOptions {
    ResourceOptions {
        auto_compress: true,
        metadata: None,
        timeout: None,
        request_id: None,
        is_response: false,
    }
}

fn noise(length: usize) -> Vec<u8> {
    let mut state: u32 = 99;
    let mut out = Vec::new();
    for _ in 0..length {
        state = state.wrapping_mul(1664525).wrapping_add(1013904223);
        out.push((state >> 24) as u8);
    }
    out
}

/// A stand-in for the encryption of a link.
fn seal(data: &[u8]) -> Vec<u8> {
    data.iter().map(|b| b ^ 0x5a).collect()
}

fn sender_of(mut pending: PendingSegment, now: u64) -> OutgoingResource {
    loop {
        let sealed = seal(&pending.plaintext());
        match OutgoingResource::new_segment(pending, &sealed, &link(), now).unwrap() {
            Sealing::Ready(sender) => return sender,
            Sealing::Collision(again) => pending = again,
        }
    }
}

/// Carries packets back and forth until nothing is left to send, and returns what was received.
fn transfer(
    sender: &mut ResourceManager,
    receiver: &mut ResourceManager,
    mut to_receiver: Vec<LinkPacket>,
) -> Vec<Vec<u8>> {
    let link = link();
    let mut now = SECOND;
    let mut received = Vec::new();
    while !to_receiver.is_empty() {
        let mut to_sender = Vec::new();
        for packet in to_receiver {
            now += 1_000_000;
            match packet.context {
                PacketContext::ResourceAdvertisement => {
                    let tx = receiver.handle_advertisement(&link, &packet.data, None, now);
                    to_sender.extend(tx.packets);
                }
                PacketContext::Resource => {
                    let (mut tx, complete) = receiver.handle_part(&link, &packet.data, now);
                    if complete {
                        let at = receiver.next_to_assemble(&link).unwrap();
                        let opened = seal(&receiver.incoming[at].sealed_stream());
                        let done =
                            receiver.assemble_completed(&link, Some(opened), now, &mut tx);
                        if let Some((_, data)) = done {
                            received.push(data);
                        }
                    }
                    to_sender.extend(tx.packets);
                }
                PacketContext::ResourceHashUpdate => {
                    let tx = receiver.handle_hashmap_update(&link, &packet.data, now);
                    to_sender.extend(tx.packets);
                }
                _ => panic!("unexpected packet"),
            }
        }
        let mut next = Vec::new();
        for packet in to_sender {
            now += 1_000_000;
            match packet.context {
                PacketContext::ResourceRequest => {
                    next.extend(sender.handle_request_data(&link, &packet.data, now).packets);
                }
                PacketContext::ResourceProof => {
                    assert_eq!(packet.packet_type, PacketType::Proof);
                    for pending in sender.handle_proof(&link, &packet.data) {
                        let segment = sender_of(pending, now);
                        next.extend(sender.add_segment(segment, &link, now).packets);
                    }
                }
                _ => panic!("unexpected packet"),
            }
        }
        to_receiver = next;
    }
    received
}

fn deliver(data: Vec<u8>, opts: ResourceOptions) -> (Vec<Vec<u8>>, ResourceManager, ResourceManager) {
    let mut sender = ResourceManager::new();
    let mut receiver = ResourceManager::new();
    receiver.set_resource_strategy(link().id, ResourceStrategy::All);
    let pending = OutgoingResource::new(data, opts).unwrap();
    let outgoing = sender_of(pending, SECOND);
    let tx = sender.send_resource(outgoing, &link(), SECOND);
    let received = transfer(&mut sender, &mut receiver, tx.packets);
    (received, sender, receiver)
}

#[test]
fn small_resources_arrive() {
    let data = noise(3000);
    let (received, sender, receiver) = deliver(data.clone(), options());
    assert_eq!(received, vec![data]);
    assert_eq!(sender.out[0].status, ResourceStatus::Complete);
    assert_eq!(receiver.incoming[0].status, ResourceStatus::Complete);
}

#[test]
fn compressible_resources_arrive_with_metadata() {
    let data = vec![42u8; 100_000];
    let mut opts = options();
    opts.metadata = Some(b"name".to_vec());
    let (received, sender, receiver) = deliver(data.clone(), opts);
    assert_eq!(received, vec![data]);
    assert!(sender.out[0].compressed);
    assert!(sender.out[0].parts.len() < 10);
    assert_eq!(receiver.incoming[0].metadata, Some(b"name".to_vec()));
}

#[test]
fn long_hashmaps_are_sent_in_pieces() {
    let data = noise(120_000);
    let (received, sender, _) = deliver(data.clone(), options());
    assert_eq!(received, vec![data]);
    assert!(sender.out[0].parts.len() > 200);
}

#[test]
fn large_resources_arrive_in_segments() {
    let mut opts = options();
    opts.auto_compress = false;
    let mut data = noise(100_000);
    while data.len() < MAX_EFFICIENT_SIZE + 1000 {
        let more = data.clone();
        data.extend_from_slice(&more);
    }
    data.truncate(MAX_EFFICIENT_SIZE + 1000);
    let (received, sender, _) = deliver(data.clone(), opts);
    assert_eq!(received.len(), 1);
    assert!(received[0] == data);
    assert_eq!(sender.out.len(), 2);
}

#[test]
fn resources_are_ignored_without_a_strategy() {
    let mut sender = ResourceManager::new();
    let mut receiver = ResourceManager::new();
    let outgoing = sender_of(OutgoingResource::new(noise(100), options()).unwrap(), SECOND);
    let tx = sender.send_resource(outgoing, &link(), SECOND);
    assert_eq!(tx.packets.len(), 1);
    let packet = &tx.packets[0];
    let reply = receiver.handle_advertisement(&link(), &packet.data, None, SECOND);
    assert!(reply.packets.is_empty() && receiver.incoming.is_empty());
    receiver.set_resource_strategy(link().id, ResourceStrategy::App);
    let reply = receiver.handle_advertisement(&link(), &packet.data, Some(false), SECOND);
    assert!(receiver.incoming.is_empty());
    assert_eq!(reply.packets.len(), 1);
    assert_eq!(reply.packets[0].context, PacketContext::ResourceReceiverCancel);
    sender.handle_reject(&link(), &reply.packets[0].data);
    assert_eq!(sender.out[0].status, ResourceStatus::Rejected);
}

#[test]
fn requests_need_a_handler() {
    let id = AddressHash::new([7; 16]);
    let request = ResourceOptions { request_id: Some(id), ..options() };
    let outgoing = sender_of(OutgoingResource::new(noise(100), request).unwrap(), SECOND);
    let advertisement =
        ResourceManager::new().send_resource(outgoing, &link(), SECOND).packets.remove(0).data;
    let answer = |receiver: &mut ResourceManager| {
        let tx = receiver.handle_advertisement(&link(), &advertisement, None, SECOND);
        tx.packets[0].context
    };
    let mut receiver = ResourceManager::new();
    assert!(answer(&mut receiver) == PacketContext::ResourceReceiverCancel);
    receiver.register_request_handler(link().destination, "/a");
    receiver.register_request_handler(link().destination, "/b");
    receiver.deregister_request_handler(link().destination, "/a");
    receiver.deregister_request_handler(link().destination, "/c");
    assert!(answer(&mut receiver) == PacketContext::ResourceRequest);

    let mut receiver = ResourceManager::new();
    receiver.register_request_handler(link().destination, "/a");
    receiver.deregister_request_handler(link().destination, "/a");
    assert!(answer(&mut receiver) == PacketContext::ResourceReceiverCancel);
}

fn assembly(length: usize) -> SplitAssembly {
    SplitAssembly {
        data: vec![0; length],
        metadata: None,
        next_index: 2,
        total_segments: 3,
        data_size: 1000,
        last_activity: SECOND,
    }
}

#[test]
fn outgrown_assemblies_are_dropped() {
    let mut manager = ResourceManager::new();
    let (small, large) =
        (reticulum::hash::Hash::new([1; 32]), reticulum::hash::Hash::new([2; 32]));
    manager.split_assembly.insert(small, assembly(2024));
    manager.split_assembly.insert(large, assembly(2025));
    manager.cleanup(2 * SECOND);
    assert!(manager.split_assembly.contains(&small));
    assert!(!manager.split_assembly.contains(&large));
}

#[test]
fn statuses_are_ordered() {
    assert!(ResourceStatus::Idle < ResourceStatus::Queued);
    assert!(ResourceStatus::Assembling < ResourceStatus::Complete);
    assert!(ResourceStatus::Corrupt < ResourceStatus::Rejected);
}

#[test]
fn parts_find_their_slots() {
    let mut sender = ResourceManager::new();
    let mut receiver = ResourceManager::new();
    receiver.set_resource_strategy(link().id, ResourceStrategy::All);
    let outgoing = sender_of(OutgoingResource::new(noise(1700), options()).unwrap(), SECOND);
    let tx = sender.send_resource(outgoing, &link(), SECOND);
    let tx = receiver.handle_advertisement(&link(), &tx.packets[0].data, None, SECOND);
    let parts = sender.handle_request_data(&link(), &tx.packets[0].data, SECOND).packets;
    assert_eq!(parts.len(), 4);
    for (turn, at) in [0usize, 2, 2, 1, 3].iter().enumerate() {
        let (_, complete) = receiver.handle_part(&link(), &parts[*at].data, SECOND);
        assert_eq!(complete, turn == 4);
        assert_eq!(receiver.incoming[0].parts[*at].as_ref(), Some(&parts[*at].data));
    }
    let mut stream = Vec::new();
    for part in &parts {
        stream.extend_from_slice(&part.data);
    }
    assert_eq!(receiver.incoming[0].sealed_stream(), stream);
}

#[test]
fn parts_arrive_in_any_order() {
    for order in [[3usize, 2, 1, 0], [1, 2, 3, 0], [2, 1, 0, 3], [0, 3, 2, 1]] {
        let mut sender = ResourceManager::new();
        let mut receiver = ResourceManager::new();
        receiver.set_resource_strategy(link().id, ResourceStrategy::All);
        let outgoing = sender_of(OutgoingResource::new(noise(1700), options()).unwrap(), SECOND);
        let tx = sender.send_resource(outgoing, &link(), SECOND);
        let tx = receiver.handle_advertisement(&link(), &tx.packets[0].data, None, SECOND);
        let parts = sender.handle_request_data(&link(), &tx.packets[0].data, SECOND).packets;
        for (turn, at) in order.iter().enumerate() {
            let (_, complete) = receiver.handle_part(&link(), &parts[*at].data, SECOND);
            assert_eq!(complete, turn == 3);
            assert_eq!(receiver.incoming[0].parts[*at].as_ref(), Some(&parts[*at].data));
        }
        assert_eq!(receiver.incoming[0].consecutive_completed_height, 3);
    }
}

#[test]
fn the_first_missing_part_is_asked_for_again() {
    let mut sender = ResourceManager::new();
    let mut receiver = ResourceManager::new();
    receiver.set_resource_strategy(link().id, ResourceStrategy::All);
    let outgoing = sender_of(OutgoingResource::new(noise(1700), options()).unwrap(), SECOND);
    let first = outgoing.part_hashes[0];
    let tx = sender.send_resource(outgoing, &link(), SECOND);
    let tx = receiver.handle_advertisement(&link(), &tx.packets[0].data, None, SECOND);
    let parts = sender.handle_request_data(&link(), &tx.packets[0].data, SECOND).packets;
    receiver.handle_part(&link(), &parts[2].data, SECOND);
    receiver.handle_part(&link(), &parts[1].data, SECOND);
    assert_eq!(receiver.incoming[0].consecutive_completed_height, -1);
    let again = receiver.check(&vec![link()], 1000 * SECOND).packets;
    assert_eq!(again.len(), 1);
    assert_eq!(again[0].context, PacketContext::ResourceRequest);
    assert_eq!(again[0].data[33..37], first);
    let parts = sender.handle_request_data(&link(), &again[0].data, 1000 * SECOND).packets;
    assert_eq!(parts.len(), 1);
    let (tx, complete) = receiver.handle_part(&link(), &parts[0].data, 1001 * SECOND);
    assert!(!complete);
    assert_eq!(receiver.incoming[0].consecutive_completed_height, 2);
    let last = sender.handle_request_data(&link(), &tx.packets[0].data, 1001 * SECOND).packets;
    assert_eq!(last.len(), 1);
    assert!(receiver.handle_part(&link(), &last[0].data, 1002 * SECOND).1);
}

#[test]
fn windows_above_the_limit_shrink() {
    let mut sender = ResourceManager::new();
    let mut receiver = ResourceManager::new();
    let wide = Link { last_resource_window: Some(20), ..link() };
    receiver.set_resource_strategy(wide.id, ResourceStrategy::All);
    let outgoing = sender_of(OutgoingResource::new(noise(9000), options()).unwrap(), SECOND);
    let tx = sender.send_resource(outgoing, &wide, SECOND);
    receiver.handle_advertisement(&wide, &tx.packets[0].data, None, SECOND);
    assert_eq!((receiver.incoming[0].window, receiver.incoming[0].window_max), (20, 10));
    let again = receiver.check(&vec![wide], 1000 * SECOND).packets;
    assert_eq!(again.len(), 1);
    assert_eq!((receiver.incoming[0].window, receiver.incoming[0].window_max), (19, 9));
}

#[test]
fn first_segments_assemble_to_the_start_of_the_data() {
    let data = noise(MAX_EFFICIENT_SIZE + 1000);
    let outgoing = sender_of(OutgoingResource::new(data.clone(), options()).unwrap(), SECOND);
    let advertisement = outgoing.advertisement().pack();
    let mut receiver = IncomingResource::accept(&advertisement, &link(), SECOND).unwrap();
    for (at, part) in outgoing.parts.iter().enumerate() {
        receiver.parts[at] = Some(part.clone());
    }
    receiver.received_count = receiver.total_parts;
    receiver.consecutive_completed_height = receiver.total_parts as isize - 1;
    let opened = seal(&receiver.sealed_stream());
    let assembled = receiver.assemble(Some(opened), MAX_EFFICIENT_SIZE).unwrap();
    assert_eq!(assembled, data[..MAX_EFFICIENT_SIZE]);
    assert!(receiver.metadata.is_none());
}

#[test]
fn damaged_resources_are_refused() {
    let mut sender = ResourceManager::new();
    let mut receiver = ResourceManager::new();
    receiver.set_resource_strategy(link().id, ResourceStrategy::All);
    let outgoing = sender_of(OutgoingResource::new(noise(100), options()).unwrap(), SECOND);
    let tx = sender.send_resource(outgoing, &link(), SECOND);
    let tx = receiver.handle_advertisement(&link(), &tx.packets[0].data, None, SECOND);
    let tx = sender.handle_request_data(&link(), &tx.packets[0].data, SECOND);
    let (mut tx, complete) = receiver.handle_part(&link(), &tx.packets[0].data, SECOND);
    assert!(complete);
    let before = tx.packets.len();
    let done = receiver.assemble_completed(&link(), Some(vec![1, 2, 3, 4, 5]), SECOND, &mut tx);
    assert!(done.is_none());
    assert_eq!(receiver.incoming[0].status, ResourceStatus::Corrupt);
    for packet in &tx.packets[before..] {
        assert!(packet.context != PacketContext::ResourceProof);
    }
}

#[test]
fn wrong_proofs_do_not_complete() {
    let mut sender = ResourceManager::new();
    let outgoing = sender_of(OutgoingResource::new(noise(100), options()).unwrap(), SECOND);
    let hash = outgoing.hash;
    sender.send_resource(outgoing, &link(), SECOND);
    let mut proof = hash.as_slice().to_vec();
    proof.extend_from_slice(&[0u8; 32]);
    assert!(sender.handle_proof(&link(), &proof).is_empty());
    assert!(sender.out[0].status != ResourceStatus::Complete);
}

#[test]
fn one_resource_is_advertised_per_link() {
    let mut sender = ResourceManager::new();
    let first = sender_of(OutgoingResource::new(noise(100), options()).unwrap(), SECOND);
    let second = sender_of(OutgoingResource::new(noise(200), options()).unwrap(), SECOND);
    assert_eq!(sender.send_resource(first, &link(), SECOND).packets.len(), 1);
    assert!(sender.send_resource(second, &link(), SECOND).packets.is_empty());
    assert_eq!(sender.out[1].status, ResourceStatus::Queued);
}

#[test]
fn silent_peers_are_offered_the_resource_again() {
    let mut sender = ResourceManager::new();
    let outgoing = sender_of(OutgoingResource::new(noise(100), options()).unwrap(), SECOND);
    sender.send_resource(outgoing, &link(), SECOND);
    let links = vec![link()];
    assert!(sender.check(&links, SECOND + 1).packets.is_empty());
    let again = sender.check(&links, 100 * SECOND).packets;
    assert_eq!(again.len(), 1);
    assert_eq!(again[0].context, PacketContext::ResourceAdvertisement);
    assert_eq!(sender.out[0].status, ResourceStatus::Advertised);
}

#[test]
fn senders_give_up_when_requests_stay_out() {
    let mut sender = ResourceManager::new();
    let mut receiver = ResourceManager::new();
    receiver.set_resource_strategy(link().id, ResourceStrategy::All);
    let outgoing = sender_of(OutgoingResource::new(noise(9000), options()).unwrap(), SECOND);
    let tx = sender.send_resource(outgoing, &link(), SECOND);
    let tx = receiver.handle_advertisement(&link(), &tx.packets[0].data, None, SECOND);
    sender.handle_request_data(&link(), &tx.packets[0].data, SECOND);
    assert_eq!(sender.out[0].status, ResourceStatus::Transferring);
    sender.check(&vec![link()], 1000 * SECOND);
    assert_eq!(sender.out[0].status, ResourceStatus::Failed);
    receiver.check(&vec![link()], 1000 * SECOND);
    assert!(receiver.incoming[0].retries_left < receiver.incoming[0].max_retries);
}

#[test]
fn too_much_metadata_is_refused() {
    let mut opts = options();
    opts.metadata = Some(vec![0; METADATA_MAX_SIZE + 1]);
    assert!(matches!(
        OutgoingResource::new(vec![1], opts),
        Err(RnsError::ResourceMsg("resource metadata size exceeded"))
    ));
}

#[test]
fn advertisements_survive_packing() {
    let adv = ResourceAdvertisement {
        transfer_size: 5000,
        data_size: 4900,
        parts: 11,
        hash: reticulum::hash::Hash::new([1; 32]),
        random_hash: [1, 2, 3, 4],
        original_hash: reticulum::hash::Hash::new([2; 32]),
        segment_index: 1,
        total_segments: 2,
        request_id: Some(AddressHash::new([3; 16])),
        flags: make_flags(true, true, true, false, true, false),
        hashmap: vec![9; 44],
    };
    let again = ResourceAdvertisement::unpack(&adv.pack()).unwrap();
    assert_eq!(again.transfer_size, 5000);
    assert_eq!(again.data_size, 4900);
    assert_eq!(again.hash, reticulum::hash::Hash::new([1; 32]));
    assert_eq!(again.request_id, Some(AddressHash::new([3; 16])));
    assert_eq!(again.hashmap, vec![9; 44]);
    assert!(again.encrypted() && again.compressed() && again.split());
    assert!(again.is_request() && !again.is_response() && !again.has_metadata());
    assert!(ResourceAdvertisement::unpack(b"nonsense").is_err());
}

#[test]
fn parts_and_map_hashes() {
    assert_eq!(parts_of(1000, 464), 3);
    assert_eq!(parts_of(928, 464), 2);
    let full = reticulum::hash::Hash::new_from_slice(b"part\x01\x02\x03\x04");
    assert_eq!(map_hash(b"part", &[1, 2, 3, 4]), full.as_slice()[..4]);
}

#[test]
fn salting_changes_only_the_random_hash() {
    let pending = OutgoingResource::new(noise(100), options()).unwrap();
    let prepared = pending.prepared.clone();
    let salted = pending.salted(&reticulum::hash::Hash::new([9; 32]));
    assert_eq!(salted.random_hash, [9; 4]);
    assert_eq!(salted.prepared, prepared);
    assert_eq!(salted.plaintext()[..4], [9; 4]);
    assert_eq!(salted.plaintext()[4..], prepared);
}

#[test]
fn malformed_part_requests_are_ignored_without_state_changes() {
    let link = link();
    let mut manager = ResourceManager::new();
    let before = (manager.out.len(), manager.incoming.len());

    let malformed = [
        Vec::new(),
        vec![0],
        vec![HASHMAP_IS_EXHAUSTED],
        vec![HASHMAP_IS_EXHAUSTED; 1 + MAPHASH_LEN],
        vec![0; 32],
        vec![HASHMAP_IS_EXHAUSTED; 1 + MAPHASH_LEN + 31],
    ];
    for request in malformed {
        assert!(manager.handle_request_data(&link, &request, SECOND).packets.is_empty());
        assert_eq!((manager.out.len(), manager.incoming.len()), before);
    }

    let valid_normal = vec![0; 33];
    let valid_exhausted = vec![HASHMAP_IS_EXHAUSTED; 1 + MAPHASH_LEN + 32];
    assert!(manager.handle_request_data(&link, &valid_normal, SECOND).packets.is_empty());
    assert!(manager.handle_request_data(&link, &valid_exhausted, SECOND).packets.is_empty());
}

#[test]
fn response_unpack_unwraps_bins_keeps_other_elements_raw() {
    let mut packed = Vec::new();
    rmp::encode::write_array_len(&mut packed, 2).unwrap();
    rmp::encode::write_bin(&mut packed, &[0x22u8; 16]).unwrap();
    rmp::encode::write_bin(&mut packed, b"response-data").unwrap();
    let (rid, response) = unpack_response(&packed).unwrap();
    assert_eq!(rid.as_slice(), &[0x22u8; 16][..]);
    assert_eq!(response, b"response-data");

    let mut packed = Vec::new();
    rmp::encode::write_array_len(&mut packed, 2).unwrap();
    rmp::encode::write_bin(&mut packed, &[0x22u8; 16]).unwrap();
    rmp::encode::write_map_len(&mut packed, 1).unwrap();
    rmp::encode::write_bin(&mut packed, &[1u8; 16]).unwrap();
    rmp::encode::write_str(&mut packed, "x").unwrap();
    let (rid, response) = unpack_response(&packed).unwrap();
    assert_eq!(rid.as_slice(), &[0x22u8; 16][..]);
    assert!(response.starts_with(&[0x81]));
}

#[test]
fn request_unpack_accepts_nil_data() {
    let mut packed = Vec::new();
    rmp::encode::write_array_len(&mut packed, 3).unwrap();
    rmp::encode::write_f64(&mut packed, 12345.678).unwrap();
    rmp::encode::write_bin(&mut packed, &[0x11u8; 16]).unwrap();
    rmp::encode::write_nil(&mut packed).unwrap();
    let (time, path, data) = unpack_request(&packed).expect("nil data request");
    assert!((f64::from_bits(time) - 12345.678).abs() < 0.001);
    assert_eq!(path.as_slice(), &[0x11u8; 16][..]);
    assert!(data.is_empty());
}

#[test]
fn request_times_are_numbers_of_any_kind() {
    let mut tail = vec![0xc4, 16];
    tail.extend_from_slice(&[7; 16]);
    tail.push(0xc0);
    let time_of = |time: &[u8]| {
        let mut data = vec![0x93];
        data.extend_from_slice(time);
        data.extend_from_slice(&tail);
        unpack_request(&data).map(|request| request.0)
    };
    assert_eq!(time_of(&[0xca, 0x3f, 0x80, 0, 0]), Some(1.0f64.to_bits()));
    assert_eq!(time_of(&[0x05]), Some(5.0f64.to_bits()));
    assert_eq!(time_of(&[0xcb, 0xff, 0xf8, 0, 0, 0, 0, 0, 1]), Some(NAN_BITS));
    assert_eq!(time_of(&[0xcb, 0x7f, 0xf0, 0, 0, 0, 0, 0, 0]), Some(f64::INFINITY.to_bits()));
    assert_eq!(time_of(&[0xc3]), None);
    assert_eq!(time_of(&[0xcb, 0x7f]), None);
}

#[test]
fn requests_and_responses_survive_packing() {
    let packed = pack_request("/page/index", b"query", 2.5f64.to_bits());
    let (time, path, data) = unpack_request(&packed).unwrap();
    assert_eq!(f64::from_bits(time), 2.5);
    assert_eq!(path, AddressHash::new_from_slice(b"/page/index"));
    assert_eq!(data, b"query");
    let id = request_id(&packed);
    assert_eq!(id, AddressHash::new_from_slice(&packed));

    let packed = pack_response(&id, &msgpack_bin(b"answer"));
    let (again, data) = unpack_response(&packed).unwrap();
    assert_eq!(again, id);
    assert_eq!(data, b"answer");
    assert!(unpack_response(b"\x93").is_none());
    assert!(unpack_request(b"\x92").is_none());
    assert!(response_of(id, b"", None).is_none());
    let nil = reticulum::msgpack::Element::Nil;
    assert!(request_of(nil, reticulum::msgpack::Element::Nil, reticulum::msgpack::Element::Nil)
        .is_none());
}
