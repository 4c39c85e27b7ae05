//! Ratchets in files.

use vstd::prelude::*;

use crate::bytes;
use crate::error::RnsError;
use crate::msgpack;
use crate::msgpack::{
    array_header, array_len_at, bin_at, bin_encoding, double_encoding, element_at, map_header,
    map_len_at, str_at, str_encoding,
};
use crate::storage::files::{
    array32, array64, read_sized_bin, read_time, sized_bin_at, sized_bin_round_trip, skip_prefix,
    time_at, time_round_trip, RATCHETS_ENTRY, RATCHET_ENTRY, RECEIVED_ENTRY, SIGNATURE_ENTRY,
};
use crate::storage::time;
use crate::storage::time::double_of;

verus! {

/// A ratchet of a destination and when it came, in ticks.
#[derive(Clone, Copy, Debug)]
pub struct RatchetFileData {
    pub ratchet: [u8; 32],
    pub received: u64,
}

/// The file of a ratchet.
pub open spec fn packed_ratchet(ratchet: Seq<u8>, received: u64) -> Seq<u8> {
    map_header(2) + (str_encoding(RATCHET_ENTRY@) + (bin_encoding(ratchet) + (str_encoding(
        RECEIVED_ENTRY@,
    ) + double_encoding(double_of(received)))))
}

/// The `n` entries at the head of `s`, on top of what was read before.
pub open spec fn ratchet_entries(
    s: Seq<u8>,
    n: nat,
    ratchet: Option<Seq<u8>>,
    received: Option<u64>,
) -> Option<(Option<Seq<u8>>, Option<u64>)>
    decreases n,
{
    if n == 0 {
        Some((ratchet, received))
    } else {
        match str_at(s) {
            None => None,
            Some((name, k)) => {
                let value = s.skip(k as int);
                let left = (n - 1) as nat;
                if name == RATCHET_ENTRY@ {
                    match sized_bin_at(value, 32) {
                        None => None,
                        Some((data, rest)) => ratchet_entries(rest, left, Some(data), received),
                    }
                } else if name == RECEIVED_ENTRY@ {
                    match time_at(value) {
                        None => None,
                        Some((at, rest)) => ratchet_entries(rest, left, ratchet, Some(at)),
                    }
                } else {
                    match element_at(value) {
                        None => None,
                        Some((_, k)) => ratchet_entries(
                            value.skip(k as int),
                            left,
                            ratchet,
                            received,
                        ),
                    }
                }
            },
        }
    }
}

/// The ratchet in a file and when it came.
pub open spec fn unpacked_ratchet(raw: Seq<u8>) -> Result<(Seq<u8>, u64), RnsError> {
    match map_len_at(raw) {
        None => Err(RnsError::PacketError),
        Some((n, k)) => match ratchet_entries(raw.skip(k as int), n, None, None) {
            Some((Some(ratchet), Some(received))) => Ok((ratchet, received)),
            _ => Err(RnsError::PacketError),
        },
    }
}

/// Writes the file of a ratchet.
pub fn pack_ratchet(data: &RatchetFileData) -> (r: Vec<u8>)
    ensures
        r@ == packed_ratchet(data.ratchet@, data.received),
{
    let mut out: Vec<u8> = Vec::new();
    msgpack::write_map_len(&mut out, 2);
    msgpack::write_str(&mut out, &RATCHET_ENTRY);
    msgpack::write_bin(&mut out, &data.ratchet);
    msgpack::write_str(&mut out, &RECEIVED_ENTRY);
    msgpack::write_double(&mut out, time::from_ticks(data.received));
    assert(out@ =~= packed_ratchet(data.ratchet@, data.received));
    out
}

/// Optional bytes, as a mathematical value.
spec fn array_view(data: Option<[u8; 32]>) -> Option<Seq<u8>> {
    match data {
        Some(data) => Some(data@),
        None => None,
    }
}

/// Reads the file of a ratchet.
pub fn unpack_ratchet(raw: &[u8]) -> (r: Result<RatchetFileData, RnsError>)
    ensures
        match unpacked_ratchet(raw@) {
            Ok((ratchet, received)) => {
                &&& r is Ok
                &&& r->Ok_0.ratchet@ == ratchet
                &&& r->Ok_0.received == received
            },
            Err(err) => r is Err && r->Err_0 == err,
        },
{
    let (length, start): (u32, &[u8]) = match msgpack::read_map_len(raw) {
        Some(read) => read,
        None => return Err(RnsError::PacketError),
    };
    let mut ratchet: Option<[u8; 32]> = None;
    let mut received: Option<u64> = None;
    let mut rest: &[u8] = start;
    let mut i: u32 = 0;
    let ghost all = ratchet_entries(start@, length as nat, None, None);
    while i < length
        invariant
            i <= length,
            all == ratchet_entries(
                rest@,
                (length - i) as nat,
                array_view(ratchet),
                received,
            ),
            map_len_at(raw@) is Some,
            all == ratchet_entries(
                raw@.skip((map_len_at(raw@)->0).1 as int),
                (map_len_at(raw@)->0).0,
                None,
                None,
            ),
        decreases length - i,
    {
        let (name, value): (Vec<u8>, &[u8]) = match msgpack::read_str(rest) {
            Some(read) => read,
            None => return Err(RnsError::PacketError),
        };
        if bytes::equal(&name, &RATCHET_ENTRY) {
            match read_sized_bin(value, 32) {
                Some((data, tail)) => {
                    ratchet = Some(array32(&data));
                    rest = tail;
                },
                None => return Err(RnsError::PacketError),
            }
        } else if bytes::equal(&name, &RECEIVED_ENTRY) {
            match read_time(value) {
                Some((at, tail)) => {
                    received = Some(at);
                    rest = tail;
                },
                None => return Err(RnsError::PacketError),
            }
        } else {
            match msgpack::read_element(value) {
                Some((_, tail)) => {
                    rest = tail;
                },
                None => return Err(RnsError::PacketError),
            }
        }
        i += 1;
    }
    match (ratchet, received) {
        (Some(ratchet), Some(received)) => Ok(RatchetFileData { ratchet, received }),
        _ => Err(RnsError::PacketError),
    }
}

/// The names of the entries differ.
proof fn names_differ()
    ensures
        RATCHET_ENTRY@ != RECEIVED_ENTRY@,
        SIGNATURE_ENTRY@ != RATCHETS_ENTRY@,
{
    assert(RATCHET_ENTRY@.len() == 7);
    assert(RECEIVED_ENTRY@.len() == 8);
    assert(SIGNATURE_ENTRY@.len() == 9);
    assert(RATCHETS_ENTRY@.len() == 8);
}

/// Reading a written name gives it back.
proof fn name_round_trip(name: Seq<u8>, tail: Seq<u8>)
    requires
        name.len() < 32,
    ensures
        str_at(str_encoding(name) + tail) == Some((name, str_encoding(name).len())),
        (str_encoding(name) + tail).skip(str_encoding(name).len() as int) == tail,
{
    msgpack::str_round_trip(name, tail);
    skip_prefix(str_encoding(name), tail);
}

/// A ratchet that was written to a file is read from it, with its time.
pub proof fn ratchet_round_trip(ratchet: Seq<u8>, received: u64)
    requires
        ratchet.len() == 32,
        time::is_kept(received),
    ensures
        unpacked_ratchet(packed_ratchet(ratchet, received)) == Ok::<(Seq<u8>, u64), RnsError>(
            (ratchet, received),
        ),
{
    let empty = Seq::<u8>::empty();
    let t3 = double_encoding(double_of(received));
    let t2 = str_encoding(RECEIVED_ENTRY@) + t3;
    let t1 = bin_encoding(ratchet) + t2;
    let t0 = str_encoding(RATCHET_ENTRY@) + t1;
    names_differ();
    msgpack::map_header_round_trip(2, t0);
    skip_prefix(map_header(2), t0);
    name_round_trip(RATCHET_ENTRY@, t1);
    sized_bin_round_trip(ratchet, t2);
    name_round_trip(RECEIVED_ENTRY@, t3);
    time_round_trip(received, empty);
    assert(t3 + empty =~= t3);
    reveal_with_fuel(ratchet_entries, 3);
}

/// Ratchets, one behind the other.
pub open spec fn ratchets_encoding(ratchets: Seq<Seq<u8>>) -> Seq<u8>
    decreases ratchets.len(),
{
    if ratchets.len() == 0 {
        Seq::empty()
    } else {
        ratchets_encoding(ratchets.drop_last()) + bin_encoding(ratchets.last())
    }
}

/// A list of ratchets.
pub open spec fn packed_list(ratchets: Seq<Seq<u8>>) -> Seq<u8> {
    array_header(ratchets.len()) + ratchets_encoding(ratchets)
}

/// Whether all ratchets have the length of a key.
pub open spec fn are_keys(ratchets: Seq<Seq<u8>>) -> bool {
    forall|i: int| 0 <= i < ratchets.len() ==> (#[trigger] ratchets[i]).len() == 32
}

/// The `n` ratchets at the head of `s`.
pub open spec fn ratchets_at(s: Seq<u8>, n: nat) -> Option<Seq<Seq<u8>>>
    decreases n,
{
    if n == 0 {
        Some(Seq::empty())
    } else {
        match sized_bin_at(s, 32) {
            None => None,
            Some((ratchet, rest)) => match ratchets_at(rest, (n - 1) as nat) {
                None => None,
                Some(ratchets) => Some(seq![ratchet] + ratchets),
            },
        }
    }
}

/// The ratchets in a list.
pub open spec fn unpacked_list(raw: Seq<u8>) -> Option<Seq<Seq<u8>>> {
    match array_len_at(raw) {
        None => None,
        Some((n, k)) => ratchets_at(raw.skip(k as int), n),
    }
}

/// Ratchets, as a mathematical value.
pub open spec fn list_view(ratchets: Seq<[u8; 32]>) -> Seq<Seq<u8>> {
    ratchets.map_values(|ratchet: [u8; 32]| ratchet@)
}

/// How many bytes ratchets take, one behind the other.
proof fn ratchets_len(ratchets: Seq<Seq<u8>>)
    requires
        are_keys(ratchets),
    ensures
        ratchets_encoding(ratchets).len() == 34 * ratchets.len(),
    decreases ratchets.len(),
{
    if ratchets.len() > 0 {
        let head = ratchets.drop_last();
        assert(are_keys(head)) by {
            assert forall|i: int| 0 <= i < head.len() implies (#[trigger] head[i]).len() == 32 by {
                assert(head[i] == ratchets[i]);
            }
        }
        ratchets_len(head);
        assert(ratchets.last().len() == 32);
        msgpack::bin_len(ratchets.last());
    }
}

/// Writes a list of ratchets.
pub fn pack_ratchet_list(ratchets: &[[u8; 32]]) -> (r: Result<Vec<u8>, RnsError>)
    ensures
        r is Ok <==> ratchets@.len() <= MAX_RATCHETS,
        r is Ok ==> r->Ok_0@ == packed_list(list_view(ratchets@)),
        r is Ok ==> r->Ok_0@.len() < 4294967296,
        r is Err ==> r->Err_0 == RnsError::OutOfMemory,
{
    let ghost view = list_view(ratchets@);
    if ratchets.len() > MAX_RATCHETS {
        return Err(RnsError::OutOfMemory);
    }
    let mut out: Vec<u8> = Vec::new();
    msgpack::write_array_len(&mut out, ratchets.len() as u32);
    assert(view.take(0) =~= Seq::<Seq<u8>>::empty());
    assert(out@ =~= array_header(view.len()) + ratchets_encoding(view.take(0)));
    let mut i: usize = 0;
    while i < ratchets.len()
        invariant
            i <= ratchets@.len(),
            view == list_view(ratchets@),
            out@ == array_header(view.len()) + ratchets_encoding(view.take(i as int)),
        decreases ratchets@.len() - i,
    {
        let ratchet: [u8; 32] = ratchets[i];
        msgpack::write_bin(&mut out, &ratchet);
        proof {
            let next = view.take(i + 1);
            assert(next.drop_last() =~= view.take(i as int));
            assert(next.last() == ratchet@);
            assert(out@ =~= array_header(view.len()) + ratchets_encoding(next));
        }
        i += 1;
    }
    proof {
        assert(view.take(i as int) =~= view);
        ratchets_len(view);
        bytes::be_len(view.len(), 2);
        bytes::be_len(view.len(), 4);
    }
    Ok(out)
}

/// The number of ratchets up to which a list fits into a file.
pub const MAX_RATCHETS: usize = 100_000_000;

/// Reads a list of ratchets.
pub fn unpack_ratchet_list(raw: &[u8]) -> (r: Option<Vec<[u8; 32]>>)
    ensures
        r is Some <==> unpacked_list(raw@) is Some,
        r is Some ==> list_view(r->0@) == unpacked_list(raw@)->0,
{
    let (length, start): (u32, &[u8]) = match msgpack::read_array_len(raw) {
        Some(read) => read,
        None => return None,
    };
    let mut ratchets: Vec<[u8; 32]> = Vec::new();
    let mut rest: &[u8] = start;
    let mut i: u32 = 0;
    let ghost all = ratchets_at(start@, length as nat);
    proof {
        assert(list_view(ratchets@) =~= Seq::<Seq<u8>>::empty());
        if all is Some {
            assert(list_view(ratchets@) + all->0 =~= all->0);
        }
    }
    while i < length
        invariant
            i <= length,
            all is Some <==> ratchets_at(rest@, (length - i) as nat) is Some,
            all is Some ==> all->0 == list_view(ratchets@) + ratchets_at(
                rest@,
                (length - i) as nat,
            )->0,
            array_len_at(raw@) is Some,
            all == ratchets_at(
                raw@.skip((array_len_at(raw@)->0).1 as int),
                (array_len_at(raw@)->0).0,
            ),
        decreases length - i,
    {
        let ghost done = list_view(ratchets@);
        match read_sized_bin(rest, 32) {
            Some((data, tail)) => {
                let ratchet: [u8; 32] = array32(&data);
                proof {
                    let next = ratchets_at(tail@, (length - i - 1) as nat);
                    assert(list_view(ratchets@.push(ratchet)) =~= done.push(data@));
                    if next is Some {
                        assert(done + (seq![data@] + next->0) =~= done.push(data@) + next->0);
                    }
                }
                ratchets.push(ratchet);
                rest = tail;
            },
            None => return None,
        }
        i += 1;
    }
    assert(all->0 =~= list_view(ratchets@));
    Some(ratchets)
}

/// Reading written ratchets gives them back.
proof fn ratchets_round_trip(ratchets: Seq<Seq<u8>>, from: int)
    requires
        are_keys(ratchets),
        0 <= from <= ratchets.len(),
    ensures
        ratchets_at(
            ratchets_encoding(ratchets).skip(34 * from),
            (ratchets.len() - from) as nat,
        ) == Some(ratchets.skip(from)),
    decreases ratchets.len() - from,
{
    let s = ratchets_encoding(ratchets).skip(34 * from);
    if from == ratchets.len() {
        assert(ratchets.skip(from) =~= Seq::<Seq<u8>>::empty());
    } else {
        ratchets_round_trip(ratchets, from + 1);
        ratchet_in_place(ratchets, from);
        let rest = ratchets_encoding(ratchets).skip(34 * (from + 1));
        sized_bin_round_trip(ratchets[from], rest);
        assert(ratchets.skip(from) =~= seq![ratchets[from]] + ratchets.skip(from + 1));
    }
}

/// The ratchet at a place of the list stands at its place in the bytes.
proof fn ratchet_in_place(ratchets: Seq<Seq<u8>>, at: int)
    requires
        are_keys(ratchets),
        0 <= at < ratchets.len(),
    ensures
        ratchets_encoding(ratchets).skip(34 * at) == bin_encoding(ratchets[at])
            + ratchets_encoding(ratchets).skip(34 * (at + 1)),
    decreases ratchets.len(),
{
    let head = ratchets.drop_last();
    let last = bin_encoding(ratchets.last());
    assert(are_keys(head)) by {
        assert forall|i: int| 0 <= i < head.len() implies (#[trigger] head[i]).len() == 32 by {
            assert(head[i] == ratchets[i]);
        }
    }
    ratchets_len(ratchets);
    ratchets_len(head);
    assert(ratchets.last().len() == 32);
    msgpack::bin_len(ratchets.last());
    let all = ratchets_encoding(ratchets);
    if at == ratchets.len() - 1 {
        assert(all.skip(34 * at) =~= last + all.skip(34 * (at + 1)));
    } else {
        ratchet_in_place(head, at);
        let before = ratchets_encoding(head);
        assert(all.skip(34 * at) =~= before.skip(34 * at) + last);
        assert(all.skip(34 * (at + 1)) =~= before.skip(34 * (at + 1)) + last);
        assert(all.skip(34 * at) =~= bin_encoding(ratchets[at]) + all.skip(34 * (at + 1)));
    }
}

/// A list of ratchets, read again, is the same.
pub proof fn list_round_trip(ratchets: Seq<Seq<u8>>)
    requires
        are_keys(ratchets),
        ratchets.len() < 4294967296,
    ensures
        unpacked_list(packed_list(ratchets)) == Some(ratchets),
{
    let s = ratchets_encoding(ratchets);
    msgpack::array_header_round_trip(ratchets.len(), s);
    skip_prefix(array_header(ratchets.len()), s);
    ratchets_round_trip(ratchets, 0);
    assert(s.skip(0) =~= s);
    assert(ratchets.skip(0) =~= ratchets);
}

/// The file of a destination's own ratchets.
pub open spec fn packed_own(list: Seq<u8>, signature: Seq<u8>) -> Seq<u8> {
    map_header(2) + (str_encoding(SIGNATURE_ENTRY@) + (bin_encoding(signature) + (str_encoding(
        RATCHETS_ENTRY@,
    ) + bin_encoding(list))))
}

/// The `n` entries at the head of `s`, on top of what was read before.
pub open spec fn own_entries(
    s: Seq<u8>,
    n: nat,
    signature: Option<Seq<u8>>,
    list: Option<Seq<u8>>,
) -> Option<(Option<Seq<u8>>, Option<Seq<u8>>)>
    decreases n,
{
    if n == 0 {
        Some((signature, list))
    } else {
        match str_at(s) {
            None => None,
            Some((name, k)) => {
                let value = s.skip(k as int);
                let left = (n - 1) as nat;
                if name == SIGNATURE_ENTRY@ {
                    match sized_bin_at(value, 64) {
                        None => None,
                        Some((data, rest)) => own_entries(rest, left, Some(data), list),
                    }
                } else if name == RATCHETS_ENTRY@ {
                    match bin_at(value) {
                        None => None,
                        Some((data, k)) => own_entries(
                            value.skip(k as int),
                            left,
                            signature,
                            Some(data),
                        ),
                    }
                } else {
                    match element_at(value) {
                        None => None,
                        Some((_, k)) => own_entries(value.skip(k as int), left, signature, list),
                    }
                }
            },
        }
    }
}

/// The ratchets in the file of a destination's own, and the signature of the list.
pub open spec fn unpacked_own(raw: Seq<u8>) -> Result<(Seq<Seq<u8>>, Seq<u8>), RnsError> {
    match map_len_at(raw) {
        None => Err(RnsError::PacketError),
        Some((n, k)) => match own_entries(raw.skip(k as int), n, None, None) {
            Some((Some(signature), Some(list))) => match unpacked_list(list) {
                Some(ratchets) => Ok((ratchets, signature)),
                None => Err(RnsError::PacketError),
            },
            _ => Err(RnsError::PacketError),
        },
    }
}

/// Writes the file of a destination's own ratchets.
pub fn pack_destination_ratchets(list: &[u8], signature: &[u8; 64]) -> (r: Vec<u8>)
    requires
        list@.len() < 4294967296,
    ensures
        r@ == packed_own(list@, signature@),
{
    let mut out: Vec<u8> = Vec::new();
    msgpack::write_map_len(&mut out, 2);
    msgpack::write_str(&mut out, &SIGNATURE_ENTRY);
    msgpack::write_bin(&mut out, signature);
    msgpack::write_str(&mut out, &RATCHETS_ENTRY);
    msgpack::write_bin(&mut out, list);
    assert(out@ =~= packed_own(list@, signature@));
    out
}

/// Optional bytes, as a mathematical value.
spec fn signature_view(data: Option<[u8; 64]>) -> Option<Seq<u8>> {
    match data {
        Some(data) => Some(data@),
        None => None,
    }
}

/// Reads the file of a destination's own ratchets.
pub fn unpack_destination_ratchets(raw: &[u8]) -> (r: Result<
    (Vec<[u8; 32]>, [u8; 64]),
    RnsError,
>)
    ensures
        match unpacked_own(raw@) {
            Ok((ratchets, signature)) => {
                &&& r is Ok
                &&& list_view((r->Ok_0).0@) == ratchets
                &&& (r->Ok_0).1@ == signature
            },
            Err(err) => r is Err && r->Err_0 == err,
        },
{
    let (length, start): (u32, &[u8]) = match msgpack::read_map_len(raw) {
        Some(read) => read,
        None => return Err(RnsError::PacketError),
    };
    let mut signature: Option<[u8; 64]> = None;
    let mut list: Option<Vec<u8>> = None;
    let mut rest: &[u8] = start;
    let mut i: u32 = 0;
    let ghost all = own_entries(start@, length as nat, None, None);
    while i < length
        invariant
            i <= length,
            all == own_entries(
                rest@,
                (length - i) as nat,
                signature_view(signature),
                crate::storage::files::data_view(list),
            ),
            map_len_at(raw@) is Some,
            all == own_entries(
                raw@.skip((map_len_at(raw@)->0).1 as int),
                (map_len_at(raw@)->0).0,
                None,
                None,
            ),
        decreases length - i,
    {
        let (name, value): (Vec<u8>, &[u8]) = match msgpack::read_str(rest) {
            Some(read) => read,
            None => return Err(RnsError::PacketError),
        };
        if bytes::equal(&name, &SIGNATURE_ENTRY) {
            match read_sized_bin(value, 64) {
                Some((data, tail)) => {
                    signature = Some(array64(&data));
                    rest = tail;
                },
                None => return Err(RnsError::PacketError),
            }
        } else if bytes::equal(&name, &RATCHETS_ENTRY) {
            match msgpack::read_bin(value) {
                Some((data, tail)) => {
                    list = Some(data);
                    rest = tail;
                },
                None => return Err(RnsError::PacketError),
            }
        } else {
            match msgpack::read_element(value) {
                Some((_, tail)) => {
                    rest = tail;
                },
                None => return Err(RnsError::PacketError),
            }
        }
        i += 1;
    }
    match (signature, list) {
        (Some(signature), Some(list)) => match unpack_ratchet_list(&list) {
            Some(ratchets) => Ok((ratchets, signature)),
            None => Err(RnsError::PacketError),
        },
        _ => Err(RnsError::PacketError),
    }
}

/// The file of a destination's own ratchets, read again, gives the ratchets and the signature.
pub proof fn own_round_trip(ratchets: Seq<Seq<u8>>, signature: Seq<u8>)
    requires
        are_keys(ratchets),
        packed_list(ratchets).len() < 4294967296,
        ratchets.len() < 4294967296,
        signature.len() == 64,
    ensures
        unpacked_own(packed_own(packed_list(ratchets), signature)) == Ok::<
            (Seq<Seq<u8>>, Seq<u8>),
            RnsError,
        >((ratchets, signature)),
{
    let empty = Seq::<u8>::empty();
    let list = packed_list(ratchets);
    let t3 = bin_encoding(list);
    let t2 = str_encoding(RATCHETS_ENTRY@) + t3;
    let t1 = bin_encoding(signature) + t2;
    let t0 = str_encoding(SIGNATURE_ENTRY@) + t1;
    names_differ();
    msgpack::map_header_round_trip(2, t0);
    skip_prefix(map_header(2), t0);
    name_round_trip(SIGNATURE_ENTRY@, t1);
    sized_bin_round_trip(signature, t2);
    name_round_trip(RATCHETS_ENTRY@, t3);
    msgpack::bin_round_trip(list, empty);
    assert(t3 + empty =~= t3);
    list_round_trip(ratchets);
    reveal_with_fuel(own_entries, 3);
}

} // verus!
