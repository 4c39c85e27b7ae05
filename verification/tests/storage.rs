//! Files, known destinations and ratchets.

use reticulum::error::RnsError;
use reticulum::hash::AddressHash;
use reticulum::identity::{Identity, PrivateIdentity};
use reticulum::storage::files::{pack_known_destinations, unpack_known_destinations};
use reticulum::storage::ratchet_files::{
    pack_destination_ratchets, pack_ratchet, pack_ratchet_list, unpack_destination_ratchets,
    unpack_ratchet, unpack_ratchet_list, RatchetFileData,
};
use reticulum::storage::ratchets::{accept_ratchets, RATCHET_EXPIRY};
use reticulum::storage::time::{from_ticks, to_ticks, TICKS_PER_SECOND};
use reticulum::storage::{
    clean_destination_ratchets, identity_from_public_file, load_destination_ratchets,
    private_identity_from_file, save_destination_ratchets, DestinationUses, FsStorage,
    IdentityFiles, KnownDestinations, KnownRatchets, MemoryStorage, Storage,
    KNOWN_DESTINATIONS_FILE,
};

fn ticks(seconds: f64) -> u64 {
    to_ticks(seconds.to_bits())
}

const NOW: f64 = 1_790_000_000.25;

#[test]
fn times_keep_their_doubles() {
    for seconds in [1_073_741_824.0f64, 1_790_000_000.25, 2_147_483_647.9999998] {
        assert_eq!(f64::from_bits(from_ticks(ticks(seconds))), seconds);
    }
    assert_eq!(ticks(1.0), TICKS_PER_SECOND);
    assert_eq!(ticks(0.0), 0);
    assert_eq!(ticks(-5.0), 0);
    assert_eq!(ticks(f64::INFINITY), u64::MAX);
    assert_eq!(f64::from_bits(from_ticks(TICKS_PER_SECOND / 2)), 0.5);
    let late = 4_000_000_000.123_f64;
    assert_eq!(f64::from_bits(from_ticks(ticks(late))), late);
    assert_eq!(to_ticks(from_ticks(ticks(late) + 1)), ticks(late));
    assert_eq!(ticks(1e-300), 0);
}

#[test]
fn memory_holds_files() {
    let mut storage = MemoryStorage::new();
    assert_eq!(storage.read("a/b"), None);
    storage.write("a/z", b"1").unwrap();
    storage.write("a/b", b"2").unwrap();
    storage.write("b/c", b"3").unwrap();
    storage.write("a/b", b"4").unwrap();
    assert_eq!(storage.read("a/b"), Some(b"4".to_vec()));
    assert_eq!(storage.list("a"), vec!["b".to_string(), "z".to_string()]);
    assert!(storage.list("c").is_empty());
    assert!(storage.remove("a/z"));
    assert!(!storage.remove("a/z"));
    assert_eq!(storage.list("a"), vec!["b".to_string()]);
}

#[test]
fn paths_in_a_file_system() {
    assert_eq!(FsStorage::new("/var/lib//").full("ratchets/x"), "/var/lib/ratchets/x");
    assert_eq!(FsStorage::new("base").full("f"), "base/f");
    assert_eq!(FsStorage::new("base").temporary("f"), "base/f.tmp");
}

fn remembered() -> KnownDestinations {
    let mut known = KnownDestinations::new();
    known.remember([1; 32], AddressHash::new([9; 16]), [2; 64], Some(b"app".to_vec()), ticks(NOW));
    known.remember([3; 32], AddressHash::new([4; 16]), [5; 64], None, ticks(NOW));
    known
}

#[test]
fn known_destinations_are_saved_and_loaded() {
    let mut known = remembered();
    known.mark_used(&AddressHash::new([9; 16]), ticks(NOW + 1.5));
    known.retain(&AddressHash::new([4; 16]));
    let mut storage = MemoryStorage::new();
    known.save(&mut storage).unwrap();
    let mut again = KnownDestinations::new();
    again.load(&storage).unwrap();
    assert_eq!(again.len(), 2);
    let entry = again.get(&AddressHash::new([9; 16])).unwrap();
    assert_eq!(entry.time, ticks(NOW));
    assert_eq!(entry.packet_hash, [1; 32]);
    assert_eq!(entry.public_key, [2; 64]);
    assert_eq!(entry.app_data, Some(b"app".to_vec()));
    assert_eq!(entry.uses, DestinationUses::LastUsed(ticks(NOW + 1.5)));
    let entry = again.get(&AddressHash::new([4; 16])).unwrap();
    assert_eq!(entry.app_data, None);
    assert!(entry.uses.is_retained());

    let file = storage.read(KNOWN_DESTINATIONS_FILE).unwrap();
    assert_eq!(file[..4], [0x82, 0xc4, 16, 4]);
    assert_eq!(again.pack().unwrap(), file);
}

#[test]
fn unchanged_destinations_are_not_written() {
    let mut known = remembered();
    let mut storage = MemoryStorage::new();
    known.save(&mut storage).unwrap();
    storage.write(KNOWN_DESTINATIONS_FILE, b"kept").unwrap();
    known.save(&mut storage).unwrap();
    assert_eq!(storage.read(KNOWN_DESTINATIONS_FILE), Some(b"kept".to_vec()));
    storage.remove(KNOWN_DESTINATIONS_FILE);
    known.save(&mut storage).unwrap();
    assert!(storage.read(KNOWN_DESTINATIONS_FILE).is_some());
    assert!(KnownDestinations::new().load(&MemoryStorage::new()).is_ok());
    storage.write(KNOWN_DESTINATIONS_FILE, b"kept").unwrap();
    assert_eq!(known.load(&storage), Err(RnsError::PacketError));
    assert_eq!(known.len(), 2);
}

#[test]
fn files_of_other_writers_are_read() {
    let mut raw = Vec::new();
    rmp::encode::write_map_len(&mut raw, 1).unwrap();
    rmp::encode::write_bin(&mut raw, &[7; 16]).unwrap();
    rmp::encode::write_array_len(&mut raw, 5).unwrap();
    rmp::encode::write_f64(&mut raw, NOW).unwrap();
    rmp::encode::write_bin(&mut raw, &[1; 32]).unwrap();
    rmp::encode::write_bin(&mut raw, &[2; 64]).unwrap();
    rmp::encode::write_nil(&mut raw).unwrap();
    let head = raw.clone();
    rmp::encode::write_sint(&mut raw, -1).unwrap();
    let entries = unpack_known_destinations(&raw).unwrap();
    assert_eq!(entries[0].0, AddressHash::new([7; 16]));
    assert_eq!(entries[0].1.time, ticks(NOW));
    assert_eq!(entries[0].1.uses, DestinationUses::Retained);
    assert_eq!(pack_known_destinations(&entries).unwrap(), raw);

    let mut raw = head.clone();
    rmp::encode::write_uint(&mut raw, 0).unwrap();
    assert_eq!(unpack_known_destinations(&raw).unwrap()[0].1.uses, DestinationUses::Never);
    let mut raw = head.clone();
    rmp::encode::write_uint(&mut raw, 5).unwrap();
    assert_eq!(
        unpack_known_destinations(&raw).unwrap()[0].1.uses,
        DestinationUses::LastUsed(5 * TICKS_PER_SECOND)
    );
    assert!(matches!(unpack_known_destinations(&head), Err(RnsError::PacketError)));
}

#[test]
fn identities_are_recalled() {
    let mut known = remembered();
    let hash = AddressHash::new([9; 16]);
    let identity = known.recall_no_use(&hash).unwrap();
    assert_eq!(known.get(&hash).unwrap().uses, DestinationUses::Never);
    assert_eq!(identity.to_bytes(), vec![2; 64]);
    assert_eq!(identity.address_hash(), AddressHash::new_from_slice(&[2; 64]));
    known.recall(&hash, 50);
    assert_eq!(known.get(&hash).unwrap().uses, DestinationUses::LastUsed(50));
    assert_eq!(known.recall_app_data(&hash, 60), Some(b"app".to_vec()));
    assert_eq!(known.get(&hash).unwrap().uses, DestinationUses::LastUsed(60));
    assert_eq!(known.recall_app_data(&AddressHash::new([4; 16]), 60), None);
    assert_eq!(known.get(&AddressHash::new([4; 16])).unwrap().uses, DestinationUses::Never);
    assert!(known.recall(&AddressHash::new([0; 16]), 70).is_none());

    assert!(known.retain_identity(&identity.address_hash()));
    assert!(!known.retain_identity(&AddressHash::new([0; 16])));
    assert!(known.get(&hash).unwrap().uses.is_retained());
    assert!(!known.mark_used(&hash, 80));
    assert!(known.unretain(&hash, 90));
    assert_eq!(known.get(&hash).unwrap().uses, DestinationUses::LastUsed(90));
}

#[test]
fn stale_destinations_go() {
    let mut known = remembered();
    let used = AddressHash::new([9; 16]);
    let unused = AddressHash::new([4; 16]);
    known.mark_used(&used, ticks(NOW));
    assert!(known.clean(ticks(NOW + 360.0), |_| false).is_empty());
    assert!(known.clean(ticks(NOW + 361.0), |hash| *hash == unused).is_empty());
    assert_eq!(known.clean(ticks(NOW + 361.0), |_| false), vec![unused]);
    assert!(known.contains(&used) && !known.contains(&unused));
    assert!(known.clean(ticks(NOW + 756000.0), |_| false).is_empty());
    known.retain(&used);
    assert!(known.clean(ticks(NOW + 756001.0), |_| false).is_empty());
    known.unretain(&used, ticks(NOW));
    assert_eq!(known.clean(ticks(NOW + 756001.0), |_| false), vec![used]);
    assert!(known.is_empty());
}

#[test]
fn entries_are_in_order() {
    let entries = remembered().entries();
    assert_eq!(entries[0].0, AddressHash::new([4; 16]));
    assert_eq!(entries[1].0, AddressHash::new([9; 16]));
}

#[test]
fn ratchets_are_remembered_until_they_expire() {
    let mut storage = MemoryStorage::new();
    let hash = AddressHash::new([0xab; 16]);
    let mut ratchets = KnownRatchets::new();
    ratchets.remember(&mut storage, hash, [7; 32], ticks(NOW)).unwrap();
    let path = "ratchets/abababababababababababababababab";
    let file = storage.read(path).unwrap();
    assert_eq!(file[..9], *b"\x82\xa7ratchet");
    ratchets.remember(&mut storage, hash, [7; 32], ticks(NOW + 5.0)).unwrap();
    assert_eq!(storage.read(path).unwrap(), file);

    let mut fresh = KnownRatchets::new();
    let end = ticks(NOW) + RATCHET_EXPIRY;
    assert_eq!(fresh.get(&storage, &hash, end), None);
    assert_eq!(fresh.get(&storage, &hash, end - 1), Some([7; 32]));
    assert_eq!(fresh.get(&storage, &hash, end), Some([7; 32]));
    let id = fresh.current_ratchet_id(&storage, &hash, end).unwrap();
    assert_eq!(id, AddressHash::new_from_slice(&[7; 32]).as_slice()[..10]);
    assert_eq!(fresh.current_ratchet_id(&storage, &AddressHash::new([0; 16]), end), None);
}

#[test]
fn dead_ratchets_are_cleaned() {
    let mut storage = MemoryStorage::new();
    let live = AddressHash::new([1; 16]);
    let unknown = AddressHash::new([2; 16]);
    let old = AddressHash::new([3; 16]);
    let mut ratchets = KnownRatchets::new();
    ratchets.remember(&mut storage, live, [1; 32], ticks(NOW)).unwrap();
    ratchets.remember(&mut storage, unknown, [2; 32], ticks(NOW)).unwrap();
    ratchets.remember(&mut storage, old, [3; 32], ticks(NOW) - RATCHET_EXPIRY).unwrap();
    storage.write("ratchets/04040404040404040404040404040404", b"junk").unwrap();
    storage.write("ratchets/noname", b"junk").unwrap();
    storage.write("other", b"kept").unwrap();
    assert_eq!(ratchets.clean(&mut storage, ticks(NOW), |hash| *hash != unknown), 4);
    assert_eq!(
        storage.list("ratchets"),
        vec!["01010101010101010101010101010101".to_string()]
    );
    assert!(storage.read("other").is_some());
    assert_eq!(ratchets.get(&storage, &live, ticks(NOW)), Some([1; 32]));
    assert_eq!(ratchets.get(&storage, &old, ticks(NOW)), None);
}

fn private_identity() -> PrivateIdentity {
    PrivateIdentity { private_key: [1; 32], sign_key: [2; 32] }
}

#[test]
fn own_ratchets_are_signed() {
    let mut storage = MemoryStorage::new();
    let identity = private_identity();
    let ratchets = vec![[5u8; 32], [6u8; 32]];
    assert_eq!(
        load_destination_ratchets(&storage, "own", &identity.as_identity()),
        Ok(Vec::new())
    );
    save_destination_ratchets(&mut storage, "own", &identity, &ratchets).unwrap();
    assert_eq!(
        load_destination_ratchets(&storage, "own", &identity.as_identity()),
        Ok(ratchets.clone())
    );
    let other = PrivateIdentity { sign_key: [9; 32], ..identity };
    assert_eq!(
        load_destination_ratchets(&storage, "own", &other.as_identity()),
        Err(RnsError::IncorrectSignature)
    );
    let list = pack_ratchet_list(&[[8u8; 32]]).unwrap();
    let forged = pack_destination_ratchets(&list, &identity.sign(b"else"));
    storage.write("own", &forged).unwrap();
    assert_eq!(
        load_destination_ratchets(&storage, "own", &identity.as_identity()),
        Err(RnsError::IncorrectSignature)
    );
    storage.write("own", b"junk").unwrap();
    assert_eq!(
        load_destination_ratchets(&storage, "own", &identity.as_identity()),
        Err(RnsError::PacketError)
    );
    assert_eq!(accept_ratchets(ratchets.clone(), true), Ok(ratchets));
    assert_eq!(accept_ratchets(vec![], false), Err(RnsError::IncorrectSignature));
    let none = Identity { public_key: [3; 32], verifying_key: [0xff; 32] };
    assert!(!none.verify(b"x", &[0; 64]));
}

#[test]
fn ratchet_files_survive_packing() {
    let data = RatchetFileData { ratchet: [4; 32], received: ticks(NOW) };
    let again = unpack_ratchet(&pack_ratchet(&data)).unwrap();
    assert_eq!((again.ratchet, again.received), ([4; 32], ticks(NOW)));
    assert!(unpack_ratchet(b"\x80").is_err());

    let mut raw = Vec::new();
    rmp::encode::write_map_len(&mut raw, 3).unwrap();
    rmp::encode::write_str(&mut raw, "received").unwrap();
    rmp::encode::write_f64(&mut raw, NOW).unwrap();
    rmp::encode::write_str(&mut raw, "note").unwrap();
    rmp::encode::write_str(&mut raw, "x").unwrap();
    rmp::encode::write_str(&mut raw, "ratchet").unwrap();
    rmp::encode::write_bin(&mut raw, &[4; 32]).unwrap();
    let again = unpack_ratchet(&raw).unwrap();
    assert_eq!((again.ratchet, again.received), ([4; 32], ticks(NOW)));

    let many = vec![[1u8; 32]; 20];
    let list = pack_ratchet_list(&many).unwrap();
    assert_eq!(unpack_ratchet_list(&list), Some(many.clone()));
    assert_eq!(unpack_ratchet_list(&list[..50]), None);
    let own = pack_destination_ratchets(&list, &[6; 64]);
    let (ratchets, signature) = unpack_destination_ratchets(&own).unwrap();
    assert_eq!(ratchets, many);
    assert_eq!(signature, [6; 64]);
}

#[test]
fn ratchet_lists_are_cut() {
    let mut many = vec![[1u8; 32]; 600];
    clean_destination_ratchets(&mut many, 1000);
    assert_eq!(many.len(), 512);
    clean_destination_ratchets(&mut many, 3);
    assert_eq!(many.len(), 3);
    clean_destination_ratchets(&mut many, 0);
    assert_eq!(many.len(), 1);
}

#[test]
fn identities_are_kept_in_files() {
    let mut storage = MemoryStorage::new();
    let identity = private_identity();
    identity.to_file(&mut storage, "secret").unwrap();
    identity.pub_to_file(&mut storage, "public").unwrap();
    let mut keys = [1u8; 64];
    keys[32..].copy_from_slice(&[2; 32]);
    assert_eq!(storage.read("secret"), Some(keys.to_vec()));
    assert_eq!(private_identity_from_file(&storage, "secret"), Ok(identity));
    assert_eq!(
        identity.as_identity().public_key,
        x25519_dalek::x25519([1; 32], x25519_dalek::X25519_BASEPOINT_BYTES)
    );
    let public = identity_from_public_file(&storage, "public").unwrap();
    assert_eq!(public, identity.as_identity());
    assert_eq!(public.to_file(&mut storage, "x"), Err(RnsError::Unsupported));
    public.pub_to_file(&mut storage, "again").unwrap();
    assert_eq!(storage.read("again"), storage.read("public"));
    assert_eq!(identity_from_public_file(&storage, "none"), Err(RnsError::Storage));
    storage.write("short", b"abc").unwrap();
    assert_eq!(identity_from_public_file(&storage, "short"), Err(RnsError::IncorrectHash));
    assert_eq!(private_identity_from_file(&storage, "short"), Err(RnsError::IncorrectHash));
    assert_eq!(private_identity_from_file(&storage, "none"), Err(RnsError::Storage));
}
