//! What holds of ratchets over several calls: how long they are used, which one is recalled, and
//! what a cleaning takes away.

use vstd::prelude::*;

use crate::error::RnsError;
use crate::hash::AddressHash;
use crate::signature::ed25519_verified;
use crate::storage::backend::path_in;
use crate::storage::files::address_of;
use crate::storage::ratchet_files::{packed_list, packed_ratchet, unpacked_own, unpacked_ratchet};
use crate::storage::ratchets::{
    cleaned, hex_address, is_condemned, is_expired, loaded_ratchets, ratchet_path,
    recalled, remembered_is_recalled,
};
use crate::storage::time;
use crate::text;

verus! {

/// A ratchet is used for thirty days from when it came, and no longer. (There are 4194304 ticks in a
/// second.)
pub proof fn ratchets_last_thirty_days(received: u64, now: u64)
    ensures
        is_expired(received, now) <==> now - received >= 30 * 24 * 60 * 60 * 4_194_304,
{
}

/// The ratchet in memory is the one that is recalled, whatever the file holds and however old it is.
pub proof fn memory_goes_first(
    ratchets: Map<AddressHash, Seq<u8>>,
    files: Map<Seq<char>, Seq<u8>>,
    destination: AddressHash,
    ratchet: Seq<u8>,
    now: u64,
)
    ensures
        recalled(ratchets.insert(destination, ratchet), files, destination, now) == Some(ratchet),
{
}

/// Without a ratchet in memory, that of the file is recalled for thirty days after it came; after
/// that, and where there is no file or none that can be read, there is none.
pub proof fn files_are_second(
    ratchets: Map<AddressHash, Seq<u8>>,
    files: Map<Seq<char>, Seq<u8>>,
    destination: AddressHash,
    now: u64,
)
    requires
        !ratchets.contains_key(destination),
    ensures
        ({
            let path = path_in("ratchets"@, text::hex_bytes(destination@));
            let found = recalled(ratchets, files, destination, now);
            &&& !files.contains_key(path) ==> found is None
            &&& files.contains_key(path) && unpacked_ratchet(files[path]) is Err ==> found is None
            &&& files.contains_key(path) && unpacked_ratchet(files[path]) is Ok ==> {
                let (ratchet, received) = unpacked_ratchet(files[path])->Ok_0;
                &&& now - received < 30 * 24 * 60 * 60 * 4_194_304 ==> found == Some(ratchet)
                &&& now - received >= 30 * 24 * 60 * 60 * 4_194_304 ==> found is None
            }
        }),
{
}

/// A ratchet that was written to its file is recalled from there for thirty days by a node that has
/// forgotten it, and not after.
pub proof fn written_ratchets_last(
    ratchets: Map<AddressHash, Seq<u8>>,
    files: Map<Seq<char>, Seq<u8>>,
    destination: AddressHash,
    ratchet: Seq<u8>,
    received: u64,
    now: u64,
)
    requires
        ratchet.len() == 32,
        time::is_kept(received),
    ensures
        recalled(
            ratchets.remove(destination),
            files.insert(ratchet_path(destination), packed_ratchet(ratchet, received)),
            destination,
            now,
        ) == (if now - received < 30 * 24 * 60 * 60 * 4_194_304 {
            Some(ratchet)
        } else {
            None
        }),
{
    remembered_is_recalled(
        ratchets.remove(destination),
        files,
        destination,
        ratchet,
        received,
        now,
    );
}

/// A cleaning leaves the file of a known destination with a ratchet that is not yet thirty days
/// old, and takes away every other: those with a name that is no address, those that cannot be
/// read, those that are too old and those of unknown destinations.
pub proof fn cleaning_leaves_what_is_used(
    files: Map<Seq<char>, Seq<u8>>,
    name: Seq<char>,
    now: u64,
    known: bool,
)
    requires
        files.contains_key(path_in("ratchets"@, name)),
    ensures
        ({
            let read = unpacked_ratchet(files[path_in("ratchets"@, name)]);
            let gone = is_condemned(files, name, now, known);
            &&& hex_address(name) is None ==> gone
            &&& !known ==> gone
            &&& read is Err ==> gone
            &&& read is Ok && now - (read->Ok_0).1 >= 30 * 24 * 60 * 60 * 4_194_304 ==> gone
            &&& hex_address(name) is Some && known && read is Ok && now - (read->Ok_0).1 < 30 * 24
                * 60 * 60 * 4_194_304 ==> !gone
        }),
{
}

/// A cleaning counts what it takes away, never more than there are names, and takes away nothing
/// where every file is to stay.
pub proof fn cleaning_counts(
    names: Seq<Seq<char>>,
    n: int,
    files: Map<Seq<char>, Seq<u8>>,
    ratchets: Map<AddressHash, Seq<u8>>,
    now: u64,
    answers: Seq<bool>,
)
    requires
        0 <= n <= names.len(),
    ensures
        cleaned(names, n, files, ratchets, now, answers).2 <= n,
        (forall|i: int|
            0 <= i < n ==> !is_condemned(files, #[trigger] names[i], now, answers[i])) ==> cleaned(
            names,
            n,
            files,
            ratchets,
            now,
            answers,
        ) == (files, ratchets, 0nat),
    decreases n,
{
    if n > 0 {
        cleaning_counts(names, n - 1, files, ratchets, now, answers);
        if forall|i: int| 0 <= i < n ==> !is_condemned(files, #[trigger] names[i], now, answers[i]) {
            assert(!is_condemned(files, names[n - 1], now, answers[n - 1]));
        }
    }
}

/// With the file of a destination its ratchet in memory goes too: after a cleaning that finds the
/// destination unknown, no ratchet of it is left.
pub proof fn cleaning_forgets(
    names: Seq<Seq<char>>,
    n: int,
    i: int,
    files: Map<Seq<char>, Seq<u8>>,
    ratchets: Map<AddressHash, Seq<u8>>,
    now: u64,
    answers: Seq<bool>,
)
    requires
        0 <= i < n <= names.len(),
        hex_address(names[i]) is Some,
        !answers[i],
    ensures
        !cleaned(names, n, files, ratchets, now, answers).1.contains_key(
            address_of(hex_address(names[i])->0),
        ),
    decreases n,
{
    if i < n - 1 {
        cleaning_forgets(names, n - 1, i, files, ratchets, now, answers);
    }
}

/// Own ratchets are loaded only under a signature of the identity over their list; a file that
/// holds another is refused, and one that is missing holds none.
pub proof fn loaded_ratchets_are_signed(
    files: Map<Seq<char>, Seq<u8>>,
    path: Seq<char>,
    key: Seq<u8>,
)
    ensures
        !files.contains_key(path) ==> loaded_ratchets(files, path, key) == Ok::<
            Seq<Seq<u8>>,
            RnsError,
        >(Seq::empty()),
        files.contains_key(path) && loaded_ratchets(files, path, key) is Ok ==> {
            let (ratchets, signature) = unpacked_own(files[path])->Ok_0;
            &&& unpacked_own(files[path]) is Ok
            &&& loaded_ratchets(files, path, key)->Ok_0 == ratchets
            &&& ed25519_verified(key, packed_list(ratchets), signature)
        },
        files.contains_key(path) && unpacked_own(files[path]) is Ok && !ed25519_verified(
            key,
            packed_list((unpacked_own(files[path])->Ok_0).0),
            (unpacked_own(files[path])->Ok_0).1,
        ) ==> loaded_ratchets(files, path, key) is Err,
{
}

/// A file goes when its name is no address, when it cannot be read, when its ratchet has expired, or
/// when its destination is not known; all others stay.
pub proof fn useless_files_go(
    files: Map<Seq<char>, Seq<u8>>,
    name: Seq<char>,
    now: u64,
    known: bool,
)
    requires
        files.contains_key("ratchets"@ + seq!['/'] + name),
    ensures
        ({
            let read = unpacked_ratchet(files["ratchets"@ + seq!['/'] + name]);
            &&& hex_address(name) is None
                ==> is_condemned(files, name, now, known)
            &&& read is Err ==> is_condemned(files, name, now, known)
            &&& read is Ok && now >= read->Ok_0.1 + 2_592_000 * 4_194_304
                ==> is_condemned(files, name, now, known)
            &&& !known ==> is_condemned(files, name, now, known)
            &&& hex_address(name) is Some && read is Ok && now
                < read->Ok_0.1 + 2_592_000 * 4_194_304 && known
                ==> !is_condemned(files, name, now, known)
        }),
{
    assert(path_in("ratchets"@, name) =~= "ratchets"@ + seq!['/'] + name);
}

/// The name of a file is an address when it has thirty-two hexadecimal digits, two for each byte.
pub proof fn names_are_addresses(name: Seq<char>, i: int)
    requires
        0 <= i < 16,
    ensures
        name.len() != 32 ==> hex_address(name) is None,
        hex_address(name) is Some ==> {
            let address = hex_address(name)->0;
            &&& address.len() == 16
            &&& text::hex_value(name[2 * i]) is Some
            &&& text::hex_value(name[2 * i + 1]) is Some
            &&& address[i] == text::hex_value(name[2 * i])->0 * 16 + text::hex_value(
                name[2 * i + 1],
            )->0
        },
        name.len() == 32 && (forall|k: int|
            0 <= k < 32 ==> text::hex_value(#[trigger] name[k]) is Some)
            ==> hex_address(name) is Some,
{
    if hex_address(name) is Some {
        assert(text::hex_value(name[2 * i]) is Some);
        assert(text::hex_value(name[2 * i + 1]) is Some);
        assert(text::hex_value(name[2 * i])->0 < 16);
        assert(text::hex_value(name[2 * i + 1])->0 < 16);
    }
}

} // verus!
