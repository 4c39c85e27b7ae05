//! What holds of the files of a node: how uses are written, what a damaged file does, and which keys
//! are taken from one.

use vstd::arithmetic::power2::pow2;
use vstd::prelude::*;

use crate::error::RnsError;
use crate::hash::AddressHash;
use crate::identity;
use crate::msgpack;
use crate::msgpack::{bin_encoding, double_encoding};
use crate::storage::backend::{path_in, without_slashes};
use crate::storage::files;
use crate::storage::files::{uses_of_bits, uses_of_seconds, DestinationUses, KnownView};
use crate::storage::identity_files::keys_in;
use crate::storage::known::{after_load, StoreView};
use crate::storage::order::before;
use crate::storage::ratchet_files::{packed_own, packed_ratchet, unpacked_own, unpacked_ratchet};
use crate::storage::time::double_of;

verus! {

/// A destination that was never used is written as zero, one that is kept as minus one, and one that
/// was used with the time of the use.
pub proof fn uses_are_written(at: u64)
    ensures
        files::uses_encoding(DestinationUses::Never) == seq![0u8],
        files::uses_encoding(DestinationUses::Retained) == seq![0xffu8],
        files::uses_encoding(DestinationUses::LastUsed(at)) == double_encoding(double_of(at)),
{
    reveal(msgpack::uint_encoding);
    reveal_with_fuel(crate::bytes::be_bytes, 2);
    assert(files::uses_encoding(DestinationUses::Never) =~= seq![0u8]);
}

/// Zero is read as never used and minus one as kept, in whole seconds and in doubles; other numbers
/// are times of use, whole seconds as 4194304 ticks each.
pub proof fn uses_are_read(seconds: u64, bits: u64)
    ensures
        uses_of_seconds(0) == DestinationUses::Never,
        seconds > 0 && seconds * 4194304 <= u64::MAX ==> uses_of_seconds(seconds)
            == DestinationUses::LastUsed((seconds * 4194304) as u64),
        seconds * 4194304 > u64::MAX ==> uses_of_seconds(seconds) == DestinationUses::LastUsed(
            u64::MAX,
        ),
        uses_of_bits(0) == DestinationUses::Never,
        uses_of_bits(0xbff0_0000_0000_0000) == DestinationUses::Retained,
        bits != 0 && bits != 0xbff0_0000_0000_0000 ==> uses_of_bits(bits)
            == DestinationUses::LastUsed(crate::storage::time::ticks_of(bits)),
{
}

/// What a file says of a destination: five fields behind its address, the time, the packet's hash,
/// the keys, the data of the application where there is any, and the use.
pub proof fn destinations_are_written(address: AddressHash, v: KnownView)
    ensures
        v.app_data is Some ==> files::entry_encoding((address, v)) == bin_encoding(address@) + (
        seq![0x95u8] + (double_encoding(double_of(v.time)) + (bin_encoding(v.packet_hash) + (
        bin_encoding(v.public_key) + (bin_encoding(v.app_data->0) + files::uses_encoding(v.uses)))))),
        v.app_data is None ==> files::entry_encoding((address, v)) == bin_encoding(address@) + (
        seq![0x95u8] + (double_encoding(double_of(v.time)) + (bin_encoding(v.packet_hash) + (
        bin_encoding(v.public_key) + (seq![0xc0u8] + files::uses_encoding(v.uses)))))),
{
}

/// Loading takes what the file holds in place of what was there, and leaves nothing to be saved. A
/// missing file leaves everything as it is, and so does a damaged one, which is an error.
pub proof fn damaged_files_change_nothing(store: StoreView, stored: Map<Seq<char>, Seq<u8>>)
    ensures
        !stored.contains_key("known_destinations"@) ==> after_load(store, stored) == (
            store,
            Ok::<(), RnsError>(()),
        ),
        stored.contains_key("known_destinations"@) && files::unpacked_known(
            stored["known_destinations"@],
        ) is Err ==> after_load(store, stored).0 == store && after_load(store, stored).1 is Err,
        stored.contains_key("known_destinations"@) && files::unpacked_known(
            stored["known_destinations"@],
        ) is Ok ==> {
            let (after, result) = after_load(store, stored);
            &&& result is Ok
            &&& !after.dirty
            &&& after.entries == crate::table::entries_map(
                files::unpacked_known(stored["known_destinations"@])->Ok_0,
            )
        },
{
}

/// Keys are sixty-four bytes: a missing file is a failure of the storage, and one of another length
/// holds no keys.
pub proof fn keys_are_sixty_four_bytes(stored: Map<Seq<char>, Seq<u8>>, path: Seq<char>)
    ensures
        !stored.contains_key(path) ==> keys_in(stored, path) == Err::<Seq<u8>, RnsError>(
            RnsError::Storage,
        ),
        stored.contains_key(path) && stored[path].len() != 64 ==> keys_in(stored, path) == Err::<
            Seq<u8>,
            RnsError,
        >(RnsError::IncorrectHash),
        stored.contains_key(path) && stored[path].len() == 64 ==> keys_in(stored, path) == Ok::<
            Seq<u8>,
            RnsError,
        >(stored[path]),
{
}

/// The address of an identity is the first half of the digest of its keys.
pub proof fn identities_have_addresses(keys: Seq<u8>)
    ensures
        identity::identity_address(keys) == crate::hash::sha256_digest(keys).subrange(0, 16),
{
}

/// A file of a ratchet is a table of two: the ratchet and when it was received.
pub proof fn ratchets_are_written(ratchet: Seq<u8>, received: u64)
    ensures
        packed_ratchet(ratchet, received) == seq![0x82u8] + (seq![
            0xa7u8,
            'r' as u8,
            'a' as u8,
            't' as u8,
            'c' as u8,
            'h' as u8,
            'e' as u8,
            't' as u8,
        ] + (bin_encoding(ratchet) + (seq![
            0xa8u8,
            'r' as u8,
            'e' as u8,
            'c' as u8,
            'e' as u8,
            'i' as u8,
            'v' as u8,
            'e' as u8,
            'd' as u8,
        ] + double_encoding(double_of(received))))),
{
    reveal(msgpack::str_encoding);
    assert(msgpack::str_encoding(files::RATCHET_ENTRY@) =~= seq![
        0xa7u8,
        'r' as u8,
        'a' as u8,
        't' as u8,
        'c' as u8,
        'h' as u8,
        'e' as u8,
        't' as u8,
    ]);
    assert(msgpack::str_encoding(files::RECEIVED_ENTRY@) =~= seq![
        0xa8u8,
        'r' as u8,
        'e' as u8,
        'c' as u8,
        'e' as u8,
        'i' as u8,
        'v' as u8,
        'e' as u8,
        'd' as u8,
    ]);
}

/// A file of a node's own ratchets is a table of two: the signature, and the list that it signs.
pub proof fn own_ratchets_are_written(list: Seq<u8>, signature: Seq<u8>)
    ensures
        packed_own(list, signature) == seq![0x82u8] + (seq![
            0xa9u8,
            's' as u8,
            'i' as u8,
            'g' as u8,
            'n' as u8,
            'a' as u8,
            't' as u8,
            'u' as u8,
            'r' as u8,
            'e' as u8,
        ] + (bin_encoding(signature) + (seq![
            0xa8u8,
            'r' as u8,
            'a' as u8,
            't' as u8,
            'c' as u8,
            'h' as u8,
            'e' as u8,
            't' as u8,
            's' as u8,
        ] + bin_encoding(list)))),
{
    reveal(msgpack::str_encoding);
    assert(msgpack::str_encoding(files::SIGNATURE_ENTRY@) =~= seq![
        0xa9u8,
        's' as u8,
        'i' as u8,
        'g' as u8,
        'n' as u8,
        'a' as u8,
        't' as u8,
        'u' as u8,
        'r' as u8,
        'e' as u8,
    ]);
    assert(msgpack::str_encoding(files::RATCHETS_ENTRY@) =~= seq![
        0xa8u8,
        'r' as u8,
        'a' as u8,
        't' as u8,
        'c' as u8,
        'h' as u8,
        'e' as u8,
        't' as u8,
        's' as u8,
    ]);
}

/// A file without a table in front holds no ratchets.
pub proof fn ratchets_are_in_tables(raw: Seq<u8>)
    ensures
        msgpack::map_len_at(raw) is None ==> unpacked_ratchet(raw) == Err::<(Seq<u8>, u64), RnsError>(
            RnsError::PacketError,
        ),
        msgpack::map_len_at(raw) is None ==> unpacked_own(raw) == Err::<
            (Seq<Seq<u8>>, Seq<u8>),
            RnsError,
        >(RnsError::PacketError),
{
}

/// A path is the directory, a slash and the name.
pub proof fn paths_have_slashes(dir: Seq<char>, name: Seq<char>)
    ensures
        path_in(dir, name) == dir + seq!['/'] + name,
{
    assert(path_in(dir, name) =~= dir + seq!['/'] + name);
}

/// Slashes at the end of a directory's name count for nothing.
pub proof fn slashes_at_the_end_are_dropped(text: Seq<char>, n: int)
    requires
        0 <= n <= text.len(),
    ensures
        ({
            let end = without_slashes(text, n);
            &&& 0 <= end <= n
            &&& forall|i: int| end <= i < n ==> (#[trigger] text[i]) == '/'
            &&& end > 0 ==> text[end - 1] != '/'
        }),
    decreases n,
{
    if n > 0 && text[n - 1] == '/' {
        slashes_at_the_end_are_dropped(text, n - 1);
    }
}

/// One text comes before another that goes on from it, and else by the first character in which they
/// differ; never before itself.
pub proof fn first_difference_decides(common: Seq<int>, a: Seq<int>, b: Seq<int>)
    ensures
        b.len() > 0 ==> before(common, common + b),
        !before(common + a, common),
        a.len() > 0 && b.len() > 0 && a[0] < b[0] ==> before(common + a, common + b),
        a.len() > 0 && b.len() > 0 && a[0] > b[0] ==> !before(common + a, common + b),
{
    decided_from(common, common + b, common.len() as int, 0);
    decided_from(common + a, common, common.len() as int, 0);
    decided_from(common + a, common + b, common.len() as int, 0);
}

proof fn decided_from(a: Seq<int>, b: Seq<int>, at: int, i: int)
    requires
        0 <= i <= at <= a.len(),
        at <= b.len(),
        forall|k: int| 0 <= k < at ==> a[k] == b[k],
    ensures
        crate::storage::order::before_from(a, b, i) == crate::storage::order::before_from(a, b, at),
    decreases at - i,
{
    if i < at {
        decided_from(a, b, at, i + 1);
    }
}

/// Times are in doubles of seconds and are counted in ticks, 4194304 to the second, without what is
/// left of one: a double of exponent `e` and mantissa `m` is `m` times the power `e - 1075` of two,
/// in seconds, and so the power `e - 1053` in ticks. Times before zero are zero.
pub proof fn ticks_are_counted_from_seconds(bits: u64)
    ensures
        ({
            let e = bits / 4503599627370496;
            let m = 4503599627370496 + bits % 4503599627370496;
            let ticks = crate::storage::time::ticks_of(bits);
            &&& bits >= 0x8000_0000_0000_0000 ==> ticks == 0
            &&& 1 <= e < 1053 ==> ticks * pow2((1053 - e) as nat) <= m < (ticks + 1) * pow2(
                (1053 - e) as nat,
            )
            &&& 1053 <= e < 2048 && m * pow2((e - 1053) as nat) <= u64::MAX ==> ticks == m * pow2(
                (e - 1053) as nat,
            )
            &&& 1053 <= e < 2048 && m * pow2((e - 1053) as nat) > u64::MAX ==> ticks == u64::MAX
        }),
{
    let e = bits / 4503599627370496;
    let m = 4503599627370496 + bits % 4503599627370496;
    if 1 <= e < 1053 {
        let p = pow2((1053 - e) as nat) as int;
        vstd::arithmetic::power2::lemma_pow2_pos((1053 - e) as nat);
        let q = m / p;
        assert(0 <= q <= m && q * p <= m < (q + 1) * p) by (nonlinear_arith)
            requires
                q == m / p,
                p >= 1,
                m >= 0,
        ;
    }
}

} // verus!
