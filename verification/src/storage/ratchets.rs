//! Ratchets: the keys that other destinations announced last, and the keys that a destination of
//! ours has announced.

use vstd::prelude::*;

use crate::bytes;
use crate::error::RnsError;
use crate::hash;
use crate::hash::AddressHash;
use crate::identity::{Identity, PrivateIdentity};
use crate::signature::{ed25519_public, ed25519_signature, ed25519_verified};
use crate::storage::backend::{join_path, path_in, path_in_injective, Storage};
use crate::storage::files::{address_of, address_of_bytes};
use crate::storage::order;
use crate::storage::ratchet_files;
use crate::storage::ratchet_files::{
    list_view, packed_list, packed_own, packed_ratchet, unpacked_own, unpacked_ratchet,
    RatchetFileData,
};
use crate::storage::time;
use crate::table::Table;
use crate::text;

verus! {

/// The directory of ratchets.
pub const RATCHETS_DIR: &'static str = "ratchets";

/// How long a ratchet is used, in ticks: thirty days.
pub const RATCHET_EXPIRY: u64 = 10_871_635_968_000;

/// How many of its own ratchets a destination keeps at most.
pub const RATCHET_COUNT: usize = 512;

/// The ratchets of other destinations.
#[derive(Debug)]
pub struct KnownRatchets {
    ratchets: Table<AddressHash, [u8; 32]>,
}

impl View for KnownRatchets {
    type V = Map<AddressHash, Seq<u8>>;

    closed spec fn view(&self) -> Map<AddressHash, Seq<u8>> {
        self.ratchets@.map_values(|ratchet: [u8; 32]| ratchet@)
    }
}

/// The path of the file with the ratchet of a destination.
pub open spec fn ratchet_path(destination: AddressHash) -> Seq<char> {
    path_in(RATCHETS_DIR@, text::hex_bytes(destination@))
}

/// Whether a ratchet that came at `received` is used no longer.
pub open spec fn is_expired(received: u64, now: u64) -> bool {
    now >= received + RATCHET_EXPIRY
}

/// The ratchet of a destination: the one in memory, or else the one in the file, as long as it
/// is used.
pub open spec fn recalled(
    ratchets: Map<AddressHash, Seq<u8>>,
    files: Map<Seq<char>, Seq<u8>>,
    destination: AddressHash,
    now: u64,
) -> Option<Seq<u8>> {
    if ratchets.contains_key(destination) {
        Some(ratchets[destination])
    } else if !files.contains_key(ratchet_path(destination)) {
        None
    } else {
        match unpacked_ratchet(files[ratchet_path(destination)]) {
            Ok((ratchet, received)) => if is_expired(received, now) {
                None
            } else {
                Some(ratchet)
            },
            Err(_) => None,
        }
    }
}

/// The bytes that hexadecimal digits give, for as many as an address has.
pub open spec fn hex_address(name: Seq<char>) -> Option<Seq<u8>> {
    if name.len() == 32 && forall|i: int| 0 <= i < 32 ==> text::hex_value(#[trigger] name[i]) is Some {
        Some(
            Seq::new(
                16,
                |i: int|
                    (text::hex_value(name[2 * i])->0 * 16 + text::hex_value(name[2 * i + 1])->0) as u8,
            ),
        )
    } else {
        None
    }
}

/// Whether the file of a ratchet cannot be read or holds one that is used no longer.
pub open spec fn is_dead(files: Map<Seq<char>, Seq<u8>>, path: Seq<char>, now: u64) -> bool {
    if !files.contains_key(path) {
        true
    } else {
        match unpacked_ratchet(files[path]) {
            Ok((_, received)) => is_expired(received, now),
            Err(_) => true,
        }
    }
}

/// Whether a file in the directory of ratchets is to go: its name is no address, it holds no
/// ratchet that is used, or its destination is not known.
pub open spec fn is_condemned(
    files: Map<Seq<char>, Seq<u8>>,
    name: Seq<char>,
    now: u64,
    known: bool,
) -> bool {
    match hex_address(name) {
        None => true,
        Some(_) => is_dead(files, path_in(RATCHETS_DIR@, name), now) || !known,
    }
}

/// Whether each of the first `n` names that is an address was answered by a call of `known` with
/// it.
pub open spec fn are_answers<F: Fn(&AddressHash) -> bool>(
    known: F,
    names: Seq<Seq<char>>,
    n: int,
    answers: Seq<bool>,
) -> bool {
    forall|i: int|
        0 <= i < n && hex_address(#[trigger] names[i]) is Some ==> known.ensures(
            (&address_of(hex_address(names[i])->0),),
            answers[i],
        )
}

/// What is left of the files and the ratchets in memory after the first `n` names, and how many
/// files are gone, when `answers` tells of each name whether its destination is known.
pub open spec fn cleaned(
    names: Seq<Seq<char>>,
    n: int,
    files: Map<Seq<char>, Seq<u8>>,
    ratchets: Map<AddressHash, Seq<u8>>,
    now: u64,
    answers: Seq<bool>,
) -> (Map<Seq<char>, Seq<u8>>, Map<AddressHash, Seq<u8>>, nat)
    decreases n,
{
    if n <= 0 {
        (files, ratchets, 0)
    } else {
        let (left, kept, gone) = cleaned(names, n - 1, files, ratchets, now, answers);
        let name = names[n - 1];
        if is_condemned(left, name, now, answers[n - 1]) {
            (
                left.remove(path_in(RATCHETS_DIR@, name)),
                match hex_address(name) {
                    Some(data) => kept.remove(address_of(data)),
                    None => kept,
                },
                gone + 1,
            )
        } else {
            (left, kept, gone)
        }
    }
}

/// Whether names are those of the files in the directory of ratchets, in order.
pub open spec fn is_listed(names: Seq<Seq<char>>, files: Map<Seq<char>, Seq<u8>>) -> bool {
    &&& order::increasing(names.map_values(|name: Seq<char>| order::text_code(name)))
    &&& forall|i: int|
        0 <= i < names.len() ==> files.contains_key(path_in(RATCHETS_DIR@, #[trigger] names[i]))
    &&& forall|name: Seq<char>|
        #[trigger] files.contains_key(path_in(RATCHETS_DIR@, name)) && !name.contains('/')
            ==> names.contains(name)
}

/// The address that a name of hexadecimal digits gives.
fn parse_address(name: &str) -> (r: Option<AddressHash>)
    ensures
        r is Some <==> hex_address(name@) is Some,
        r is Some ==> r->0@ == hex_address(name@)->0,
{
    let chars: Vec<char> = text::characters(name);
    if chars.len() != 32 {
        return None;
    }
    let mut data: Vec<u8> = Vec::new();
    let mut i: usize = 0;
    while i < 16
        invariant
            i <= 16,
            chars@ == name@,
            chars@.len() == 32,
            data@.len() == i,
            forall|k: int| 0 <= k < 2 * i ==> text::hex_value(#[trigger] chars@[k]) is Some,
            forall|k: int|
                0 <= k < i ==> #[trigger] data@[k] == (text::hex_value(chars@[2 * k])->0 * 16
                    + text::hex_value(chars@[2 * k + 1])->0) as u8,
        decreases 16 - i,
    {
        let high: u8 = match text::hex_digit_value(chars[2 * i]) {
            Some(value) => value,
            None => return None,
        };
        let low: u8 = match text::hex_digit_value(chars[2 * i + 1]) {
            Some(value) => value,
            None => return None,
        };
        data.push(high * 16 + low);
        i += 1;
    }
    assert(data@ =~= hex_address(name@)->0);
    AddressHash::from_bytes(&data)
}

/// A byte in a text of hexadecimal digits.
proof fn hex_bytes_at(data: Seq<u8>, i: int)
    requires
        0 <= i < data.len(),
    ensures
        text::hex_bytes(data).len() == 2 * data.len(),
        text::hex_bytes(data)[2 * i] == text::hex_digit(data[i] as int / 16),
        text::hex_bytes(data)[2 * i + 1] == text::hex_digit(data[i] as int % 16),
    decreases data.len(),
{
    let head = data.drop_last();
    if head.len() == 0 {
        assert(text::hex_bytes(head).len() == 0);
    } else {
        hex_bytes_at(
            head,
            if i < head.len() {
                i
            } else {
                0
            },
        );
    }
}

/// The name of a ratchet's file gives the address of its destination.
pub proof fn names_give_addresses(destination: AddressHash)
    ensures
        hex_address(text::hex_bytes(destination@)) == Some(destination@),
{
    let name = text::hex_bytes(destination@);
    hex_bytes_at(destination@, 0);
    assert forall|i: int| 0 <= i < 32 implies text::hex_value(#[trigger] name[i]) is Some by {
        hex_bytes_at(destination@, i / 2);
        assert(i == 2 * (i / 2) || i == 2 * (i / 2) + 1);
    }
    assert forall|i: int| 0 <= i < 16 implies (text::hex_value(name[2 * i])->0 * 16
        + text::hex_value(name[2 * i + 1])->0) as u8 == #[trigger] destination@[i] by {
        hex_bytes_at(destination@, i);
    }
    assert(hex_address(name)->0 =~= destination@);
}

impl KnownRatchets {
    /// That no destination occurs twice.
    pub closed spec fn wf(&self) -> bool {
        self.ratchets.wf()
    }

    /// No ratchets.
    pub fn new() -> (r: Self)
        ensures
            r.wf(),
            r@ == Map::<AddressHash, Seq<u8>>::empty(),
    {
        let r = KnownRatchets { ratchets: Table::new() };
        assert(r@ =~= Map::<AddressHash, Seq<u8>>::empty());
        r
    }

    /// The path of the file with the ratchet of a destination.
    fn path_of(destination_hash: &AddressHash) -> (r: String)
        ensures
            r@ == ratchet_path(*destination_hash),
    {
        let name: String = text::to_hex(destination_hash.as_slice());
        join_path(RATCHETS_DIR, name.as_str())
    }

    /// Remembers the ratchet that a destination announced, and writes its file unless it is the
    /// one already known.
    pub fn remember<S: Storage>(
        &mut self,
        storage: &mut S,
        destination_hash: AddressHash,
        ratchet: [u8; 32],
        now: u64,
    ) -> (r: Result<(), RnsError>)
        requires
            old(self).wf(),
            old(storage).wf(),
        ensures
            final(self).wf(),
            final(storage).wf(),
            final(self)@ == old(self)@.insert(destination_hash, ratchet@),
            old(self)@.contains_key(destination_hash) && old(self)@[destination_hash] == ratchet@
                ==> r is Ok && final(storage).files() == old(storage).files(),
            !(old(self)@.contains_key(destination_hash) && old(self)@[destination_hash]
                == ratchet@) && r is Ok ==> final(storage).files() == old(storage).files().insert(
                ratchet_path(destination_hash),
                packed_ratchet(ratchet@, now),
            ),
    {
        if let Some(known) = self.ratchets.get(&destination_hash) {
            if bytes::equal(known, &ratchet) {
                assert(self@ =~= old(self)@.insert(destination_hash, ratchet@));
                return Ok(());
            }
        }
        self.ratchets.insert(destination_hash, ratchet);
        assert(self@ =~= old(self)@.insert(destination_hash, ratchet@));
        let data = RatchetFileData { ratchet, received: now };
        let path: String = KnownRatchets::path_of(&destination_hash);
        storage.write(path.as_str(), &ratchet_files::pack_ratchet(&data))
    }

    /// The ratchet of a destination, from its file when it is not in memory.
    pub fn get<S: Storage>(
        &mut self,
        storage: &S,
        destination_hash: &AddressHash,
        now: u64,
    ) -> (r: Option<[u8; 32]>)
        requires
            old(self).wf(),
            storage.wf(),
        ensures
            final(self).wf(),
            r is Some <==> recalled(old(self)@, storage.files(), *destination_hash, now) is Some,
            r is Some ==> r->0@ == recalled(
                old(self)@,
                storage.files(),
                *destination_hash,
                now,
            )->0,
            final(self)@ == (if r is Some {
                old(self)@.insert(*destination_hash, r->0@)
            } else {
                old(self)@
            }),
    {
        if let Some(ratchet) = self.ratchets.get(destination_hash) {
            assert(self@ =~= old(self)@.insert(*destination_hash, ratchet@));
            return Some(*ratchet);
        }
        let path: String = KnownRatchets::path_of(destination_hash);
        let raw: Vec<u8> = match storage.read(path.as_str()) {
            Some(raw) => raw,
            None => return None,
        };
        let data: RatchetFileData = match ratchet_files::unpack_ratchet(&raw) {
            Ok(data) => data,
            Err(_) => return None,
        };
        if expired(data.received, now) {
            return None;
        }
        self.ratchets.insert(*destination_hash, data.ratchet);
        assert(self@ =~= old(self)@.insert(*destination_hash, data.ratchet@));
        Some(data.ratchet)
    }

    /// The name of the ratchet of a destination: the first ten bytes of its hash.
    pub fn current_ratchet_id<S: Storage>(
        &mut self,
        storage: &S,
        destination_hash: &AddressHash,
        now: u64,
    ) -> (r: Option<[u8; 10]>)
        requires
            old(self).wf(),
            storage.wf(),
        ensures
            final(self).wf(),
            r is Some <==> recalled(old(self)@, storage.files(), *destination_hash, now) is Some,
            r is Some ==> r->0@ == hash::sha256_digest(
                recalled(old(self)@, storage.files(), *destination_hash, now)->0,
            ).subrange(0, 10),
            final(self)@ == (match recalled(old(self)@, storage.files(), *destination_hash, now) {
                Some(ratchet) => old(self)@.insert(*destination_hash, ratchet),
                None => old(self)@,
            }),
    {
        let ratchet: [u8; 32] = match self.get(storage, destination_hash, now) {
            Some(ratchet) => ratchet,
            None => return None,
        };
        let digest: [u8; 32] = hash::sha256(&ratchet);
        let mut id: [u8; 10] = [0; 10];
        let mut i: usize = 0;
        while i < 10
            invariant
                i <= 10,
                id@.len() == 10,
                digest@.len() == 32,
                forall|k: int| 0 <= k < i ==> id@[k] == digest@[k],
            decreases 10 - i,
        {
            id[i] = digest[i];
            i += 1;
        }
        assert(id@ =~= digest@.subrange(0, 10));
        Some(id)
    }

    /// Removes the files of ratchets that are used no longer, cannot be read or belong to no
    /// known destination. Returns how many are gone.
    pub fn clean<S: Storage, F: Fn(&AddressHash) -> bool>(
        &mut self,
        storage: &mut S,
        now: u64,
        known: F,
    ) -> (r: usize)
        requires
            old(self).wf(),
            old(storage).wf(),
            forall|hash: &AddressHash| known.requires((hash,)),
        ensures
            final(self).wf(),
            final(storage).wf(),
            exists|names: Seq<Seq<char>>, answers: Seq<bool>|
                is_listed(names, old(storage).files()) && answers.len() == names.len()
                    && #[trigger] are_answers(known, names, names.len() as int, answers) && (
                    final(storage).files(),
                    final(self)@,
                    r as nat,
                ) == cleaned(
                    names,
                    names.len() as int,
                    old(storage).files(),
                    old(self)@,
                    now,
                    answers,
                ),
    {
        let files: Vec<String> = storage.list(RATCHETS_DIR);
        let ghost names = files@.map_values(|name: String| name@);
        let ghost mut answers: Seq<bool> = Seq::empty();
        proof {
            assert(names.map_values(|name: Seq<char>| order::text_code(name)) =~= order::codes_of(
                files@,
            ));
            assert forall|name: Seq<char>| #[trigger]
                storage.files().contains_key(path_in(RATCHETS_DIR@, name)) && !name.contains(
                    '/',
                ) implies names.contains(name) by {
                let i = choose|i: int| 0 <= i < files@.len() && (#[trigger] files@[i])@ == name;
                assert(names[i] == name);
            }
            assert forall|i: int| 0 <= i < names.len() implies storage.files().contains_key(
                path_in(RATCHETS_DIR@, #[trigger] names[i]),
            ) by {
                assert(names[i] == files@[i]@);
            }
            assert(is_listed(names, old(storage).files()));
        }
        let mut removed: usize = 0;
        let mut i: usize = 0;
        while i < files.len()
            invariant
                self.wf(),
                storage.wf(),
                i <= files@.len(),
                removed <= i,
                names == files@.map_values(|name: String| name@),
                forall|hash: &AddressHash| known.requires((hash,)),
                answers.len() == i,
                are_answers(known, names, i as int, answers),
                (storage.files(), self@, removed as nat) == cleaned(
                    names,
                    i as int,
                    old(storage).files(),
                    old(self)@,
                    now,
                    answers,
                ),
            decreases files@.len() - i,
        {
            let ghost before_answers = answers;
            let name: &str = files[i].as_str();
            assert(names[i as int] == name@);
            let path: String = join_path(RATCHETS_DIR, name);
            match parse_address(name) {
                None => {
                    storage.remove(path.as_str());
                    removed += 1;
                    proof {
                        answers = answers.push(false);
                    }
                },
                Some(destination) => {
                    proof {
                        address_of_bytes(destination);
                    }
                    let dead: bool = match storage.read(path.as_str()) {
                        Some(raw) => match ratchet_files::unpack_ratchet(&raw) {
                            Ok(data) => expired(data.received, now),
                            Err(_) => true,
                        },
                        None => true,
                    };
                    assert(dead == is_dead(storage.files(), path@, now));
                    let alive: bool = known(&destination);
                    proof {
                        answers = answers.push(alive);
                    }
                    if dead || !alive {
                        let ghost before = self@;
                        storage.remove(path.as_str());
                        self.ratchets.remove(&destination);
                        assert(self@ =~= before.remove(destination));
                        removed += 1;
                    }
                },
            }
            proof {
                cleaned_by_answers(
                    names,
                    i as int,
                    old(storage).files(),
                    old(self)@,
                    now,
                    before_answers,
                    answers,
                );
                assert forall|k: int|
                    0 <= k < i + 1 && hex_address(#[trigger] names[k]) is Some implies known.ensures(
                    (&address_of(hex_address(names[k])->0),),
                    answers[k],
                ) by {
                    if k < i {
                        assert(answers[k] == before_answers[k]);
                    }
                }
            }
            i += 1;
        }
        assert(are_answers(known, names, names.len() as int, answers));
        removed
    }
}

/// What is left after the first names depends on the answers for those names alone.
proof fn cleaned_by_answers(
    names: Seq<Seq<char>>,
    n: int,
    files: Map<Seq<char>, Seq<u8>>,
    ratchets: Map<AddressHash, Seq<u8>>,
    now: u64,
    a: Seq<bool>,
    b: Seq<bool>,
)
    requires
        forall|k: int| 0 <= k < n ==> #[trigger] a[k] == b[k],
    ensures
        cleaned(names, n, files, ratchets, now, a) == cleaned(names, n, files, ratchets, now, b),
    decreases n,
{
    if n > 0 {
        cleaned_by_answers(names, n - 1, files, ratchets, now, a, b);
        assert(a[n - 1] == b[n - 1]);
    }
}

/// Whether a ratchet that came at `received` is used no longer.
fn expired(received: u64, now: u64) -> (r: bool)
    ensures
        r == is_expired(received, now),
{
    now >= RATCHET_EXPIRY && now - RATCHET_EXPIRY >= received
}

/// The ratchets of a destination of ours in the file at `path`, whose list must be signed under
/// `key`; none when there is no file.
pub open spec fn loaded_ratchets(
    files: Map<Seq<char>, Seq<u8>>,
    path: Seq<char>,
    key: Seq<u8>,
) -> Result<Seq<Seq<u8>>, RnsError> {
    if !files.contains_key(path) {
        Ok(Seq::empty())
    } else {
        match unpacked_own(files[path]) {
            Err(err) => Err(err),
            Ok((ratchets, signature)) => if ratchets.len() > ratchet_files::MAX_RATCHETS {
                Err(RnsError::OutOfMemory)
            } else if ed25519_verified(key, packed_list(ratchets), signature) {
                Ok(ratchets)
            } else {
                Err(RnsError::IncorrectSignature)
            },
        }
    }
}

/// What [`load_destination_ratchets`] returns for ratchets that were read, given whether their
/// signature is right.
pub fn accept_ratchets(ratchets: Vec<[u8; 32]>, verified: bool) -> (r: Result<
    Vec<[u8; 32]>,
    RnsError,
>)
    ensures
        verified ==> r == Ok::<Vec<[u8; 32]>, RnsError>(ratchets),
        !verified ==> r == Err::<Vec<[u8; 32]>, RnsError>(RnsError::IncorrectSignature),
{
    if verified {
        Ok(ratchets)
    } else {
        Err(RnsError::IncorrectSignature)
    }
}

/// Loads the ratchets of a destination of ours, which its identity must have signed.
pub fn load_destination_ratchets<S: Storage>(storage: &S, path: &str, identity: &Identity) -> (r:
    Result<Vec<[u8; 32]>, RnsError>)
    requires
        storage.wf(),
    ensures
        match loaded_ratchets(storage.files(), path@, identity.verifying_key@) {
            Ok(ratchets) => r is Ok && list_view(r->Ok_0@) == ratchets,
            Err(err) => r is Err && r->Err_0 == err,
        },
{
    let raw: Vec<u8> = match storage.read(path) {
        Some(raw) => raw,
        None => {
            let none: Vec<[u8; 32]> = Vec::new();
            assert(list_view(none@) =~= Seq::<Seq<u8>>::empty());
            return Ok(none);
        },
    };
    let (ratchets, signature): (Vec<[u8; 32]>, [u8; 64]) =
        match ratchet_files::unpack_destination_ratchets(&raw) {
        Ok(read) => read,
        Err(err) => return Err(err),
    };
    let packed: Vec<u8> = match ratchet_files::pack_ratchet_list(&ratchets) {
        Ok(packed) => packed,
        Err(err) => return Err(err),
    };
    accept_ratchets(ratchets, identity.verify(&packed, &signature))
}

/// Saves the ratchets of a destination of ours, signed by its identity.
pub fn save_destination_ratchets<S: Storage>(
    storage: &mut S,
    path: &str,
    identity: &PrivateIdentity,
    ratchets: &[[u8; 32]],
) -> (r: Result<(), RnsError>)
    requires
        old(storage).wf(),
    ensures
        final(storage).wf(),
        ratchets@.len() > ratchet_files::MAX_RATCHETS ==> r == Err::<(), RnsError>(
            RnsError::OutOfMemory,
        ) && final(storage).files() == old(storage).files(),
        r is Ok ==> ({
            let list = packed_list(list_view(ratchets@));
            let signature = ed25519_signature(identity.sign_key@, list);
            &&& ratchets@.len() <= ratchet_files::MAX_RATCHETS
            &&& final(storage).files() == old(storage).files().insert(
                path@,
                packed_own(list, signature),
            )
            &&& list.len() < 4294967296
            &&& signature.len() == 64
            &&& ed25519_verified(ed25519_public(identity.sign_key@), list, signature)
        }),
{
    let packed: Vec<u8> = match ratchet_files::pack_ratchet_list(ratchets) {
        Ok(packed) => packed,
        Err(err) => return Err(err),
    };
    let signature: [u8; 64] = identity.sign(&packed);
    let data: Vec<u8> = ratchet_files::pack_destination_ratchets(&packed, &signature);
    storage.write(path, &data)
}

/// Keeps the first ratchets of a list, as many as are to stay: at least one, at most
/// [`RATCHET_COUNT`].
pub fn clean_destination_ratchets(ratchets: &mut Vec<[u8; 32]>, retained: usize)
    ensures
        ({
            let stay = if retained < 1 {
                1
            } else if retained > RATCHET_COUNT {
                RATCHET_COUNT as int
            } else {
                retained as int
            };
            final(ratchets)@ == (if old(ratchets)@.len() <= stay {
                old(ratchets)@
            } else {
                old(ratchets)@.take(stay)
            })
        }),
{
    let stay: usize = if retained < 1 {
        1
    } else if retained > RATCHET_COUNT {
        RATCHET_COUNT
    } else {
        retained
    };
    if ratchets.len() > stay {
        ratchets.truncate(stay);
        assert(ratchets@ =~= old(ratchets)@.take(stay as int));
    }
}

/// What a destination saves of its ratchets, its identity loads again.
pub proof fn saved_ratchets_are_loaded(
    files: Map<Seq<char>, Seq<u8>>,
    path: Seq<char>,
    ratchets: Seq<Seq<u8>>,
    key: Seq<u8>,
    signature: Seq<u8>,
)
    requires
        ratchet_files::are_keys(ratchets),
        ratchets.len() <= ratchet_files::MAX_RATCHETS,
        packed_list(ratchets).len() < 4294967296,
        signature.len() == 64,
        ed25519_verified(key, packed_list(ratchets), signature),
    ensures
        loaded_ratchets(
            files.insert(path, packed_own(packed_list(ratchets), signature)),
            path,
            key,
        ) == Ok::<Seq<Seq<u8>>, RnsError>(ratchets),
{
    ratchet_files::own_round_trip(ratchets, signature);
}

/// A ratchet that was remembered is recalled from its file by any other store, until it is used
/// no longer.
pub proof fn remembered_is_recalled(
    ratchets: Map<AddressHash, Seq<u8>>,
    files: Map<Seq<char>, Seq<u8>>,
    destination: AddressHash,
    ratchet: Seq<u8>,
    received: u64,
    now: u64,
)
    requires
        !ratchets.contains_key(destination),
        ratchet.len() == 32,
        time::is_kept(received),
    ensures
        recalled(
            ratchets,
            files.insert(ratchet_path(destination), packed_ratchet(ratchet, received)),
            destination,
            now,
        ) == (if is_expired(received, now) {
            None
        } else {
            Some(ratchet)
        }),
{
    ratchet_files::ratchet_round_trip(ratchet, received);
}

/// Files only go.
proof fn cleaned_shrinks(
    names: Seq<Seq<char>>,
    n: int,
    files: Map<Seq<char>, Seq<u8>>,
    ratchets: Map<AddressHash, Seq<u8>>,
    now: u64,
    answers: Seq<bool>,
    path: Seq<char>,
)
    requires
        0 <= n <= names.len(),
    ensures
        ({
            let left = cleaned(names, n, files, ratchets, now, answers).0;
            &&& left.contains_key(path) ==> files.contains_key(path) && left[path] == files[path]
            &&& files.contains_key(path) && (forall|i: int|
                0 <= i < n ==> path_in(RATCHETS_DIR@, #[trigger] names[i]) != path)
                ==> left.contains_key(path)
        }),
    decreases n,
{
    if n > 0 {
        cleaned_shrinks(names, n - 1, files, ratchets, now, answers, path);
        if forall|i: int| 0 <= i < n ==> path_in(RATCHETS_DIR@, #[trigger] names[i]) != path {
            assert(path_in(RATCHETS_DIR@, names[n - 1]) != path);
        }
    }
}

/// Whether cleaning keeps a file depends on that file and the answer for it alone: it stays if it
/// is not condemned.
pub proof fn cleaning_is_exact(
    names: Seq<Seq<char>>,
    n: int,
    i: int,
    files: Map<Seq<char>, Seq<u8>>,
    ratchets: Map<AddressHash, Seq<u8>>,
    now: u64,
    answers: Seq<bool>,
)
    requires
        is_listed(names, files),
        0 <= i < n <= names.len(),
    ensures
        cleaned(names, n, files, ratchets, now, answers).0.contains_key(
            path_in(RATCHETS_DIR@, names[i]),
        ) <==> !is_condemned(files, names[i], now, answers[i]),
    decreases n,
{
    let path = path_in(RATCHETS_DIR@, names[i]);
    let (left, kept, gone) = cleaned(names, n - 1, files, ratchets, now, answers);
    if i < n - 1 {
        cleaning_is_exact(names, n - 1, i, files, ratchets, now, answers);
        paths_differ(names, i, n - 1);
    } else {
        cleaned_shrinks(names, n - 1, files, ratchets, now, answers, path);
        assert forall|k: int| 0 <= k < n - 1 implies path_in(RATCHETS_DIR@, #[trigger] names[k])
            != path by {
            paths_differ(names, k, i);
        }
        assert(files.contains_key(path));
        assert(left.contains_key(path) && left[path] == files[path]);
    }
}

/// Names in order have different paths.
proof fn paths_differ(names: Seq<Seq<char>>, i: int, j: int)
    requires
        order::increasing(names.map_values(|name: Seq<char>| order::text_code(name))),
        0 <= i < j < names.len(),
    ensures
        path_in(RATCHETS_DIR@, names[i]) != path_in(RATCHETS_DIR@, names[j]),
{
    let codes = names.map_values(|name: Seq<char>| order::text_code(name));
    order::increasing_is_distinct(codes, i, j);
    assert(codes[i] == order::text_code(names[i]));
    assert(codes[j] == order::text_code(names[j]));
    if path_in(RATCHETS_DIR@, names[i]) == path_in(RATCHETS_DIR@, names[j]) {
        path_in_injective(RATCHETS_DIR@, names[i], names[j]);
    }
}

} // verus!
