//! The files of known destinations and ratchets, in MessagePack.
//!
//! The known destinations are a map from destination hashes to lists of the time of the last
//! announce, its packet hash, the public key, the application data and the use. A ratchet file is
//! a map with the entries `ratchet` and `received`, a file of a destination's own ratchets one
//! with the entries `signature` and `ratchets`.

use vstd::prelude::*;

use crate::bytes;
use crate::error::RnsError;
use crate::hash::AddressHash;
use crate::msgpack;
use crate::msgpack::{
    array_header, array_len_at, bin_at, bin_encoding, double_encoding, element_at, map_header,
    map_len_at, uint_at, uint_encoding, Element, ElementView,
};
use crate::storage::time;
use crate::storage::time::{double_of, ticks_of};

verus! {

/// The length of a ratchet key.
pub const RATCHET_KEY_LENGTH: usize = 32;

/// The name of the entry with the ratchet.
pub const RATCHET_ENTRY: [u8; 7] = [0x72, 0x61, 0x74, 0x63, 0x68, 0x65, 0x74];

/// The name of the entry with the time at which a ratchet came.
pub const RECEIVED_ENTRY: [u8; 8] = [0x72, 0x65, 0x63, 0x65, 0x69, 0x76, 0x65, 0x64];

/// The name of the entry with the signature.
pub const SIGNATURE_ENTRY: [u8; 9] = [0x73, 0x69, 0x67, 0x6e, 0x61, 0x74, 0x75, 0x72, 0x65];

/// The name of the entry with the list of ratchets.
pub const RATCHETS_ENTRY: [u8; 8] = [0x72, 0x61, 0x74, 0x63, 0x68, 0x65, 0x74, 0x73];

/// The bits of the double minus one, which stands for data that is kept.
pub const RETAINED_BITS: u64 = 0xbff0_0000_0000_0000;

/// When data of a destination was last used.
#[derive(Clone, Copy, Debug, PartialEq, Eq, Structural)]
pub enum DestinationUses {
    /// Not at all.
    Never,
    /// At this time.
    LastUsed(u64),
    /// It is kept whether used or not.
    Retained,
}

impl DestinationUses {
    /// Whether the data is kept whether used or not.
    pub fn is_retained(&self) -> (r: bool)
        ensures
            r == (*self is Retained),
    {
        match self {
            DestinationUses::Retained => true,
            _ => false,
        }
    }

    /// For how long the data has not been used; none for data that was never used or is kept.
    pub fn unused_for(&self, now: u64) -> (r: Option<u64>)
        ensures
            r == (match *self {
                DestinationUses::LastUsed(at) => Some(
                    if now > at {
                        (now - at) as u64
                    } else {
                        0
                    },
                ),
                _ => None::<u64>,
            }),
    {
        match self {
            DestinationUses::LastUsed(at) => Some(now.saturating_sub(*at)),
            _ => None,
        }
    }
}

/// What is known of a destination.
#[derive(Debug)]
pub struct KnownDestinationData {
    /// When it was last announced, in ticks.
    pub time: u64,
    /// The hash of the announce packet.
    pub packet_hash: [u8; 32],
    /// The public keys of its identity.
    pub public_key: [u8; 64],
    /// The application data of the announce.
    pub app_data: Option<Vec<u8>>,
    /// When this was last used.
    pub uses: DestinationUses,
}

/// What is known of a destination, as a mathematical value.
#[verifier::ext_equal]
pub struct KnownView {
    pub time: u64,
    pub packet_hash: Seq<u8>,
    pub public_key: Seq<u8>,
    pub app_data: Option<Seq<u8>>,
    pub uses: DestinationUses,
}

/// Optional bytes, as a mathematical value.
pub open spec fn data_view(data: Option<Vec<u8>>) -> Option<Seq<u8>> {
    match data {
        Some(data) => Some(data@),
        None => None,
    }
}

impl View for KnownDestinationData {
    type V = KnownView;

    open spec fn view(&self) -> KnownView {
        KnownView {
            time: self.time,
            packet_hash: self.packet_hash@,
            public_key: self.public_key@,
            app_data: data_view(self.app_data),
            uses: self.uses,
        }
    }
}

impl Clone for KnownDestinationData {
    fn clone(&self) -> (r: Self)
        ensures
            r@ == self@,
    {
        KnownDestinationData {
            time: self.time,
            packet_hash: self.packet_hash,
            public_key: self.public_key,
            app_data: match &self.app_data {
                Some(data) => Some(bytes::to_vec(data)),
                None => None,
            },
            uses: self.uses,
        }
    }
}

/// Application data in a file.
pub open spec fn data_encoding(data: Option<Seq<u8>>) -> Seq<u8> {
    match data {
        Some(data) => bin_encoding(data),
        None => seq![0xc0u8],
    }
}

/// A use in a file: zero for never, minus one for kept, or else its time.
pub open spec fn uses_encoding(uses: DestinationUses) -> Seq<u8> {
    match uses {
        DestinationUses::Never => uint_encoding(0),
        DestinationUses::LastUsed(at) => double_encoding(double_of(at)),
        DestinationUses::Retained => seq![0xffu8],
    }
}

/// What is known of a destination, in a file.
pub open spec fn fields_encoding(v: KnownView) -> Seq<u8> {
    double_encoding(double_of(v.time)) + (bin_encoding(v.packet_hash) + (bin_encoding(v.public_key)
        + (data_encoding(v.app_data) + uses_encoding(v.uses))))
}

/// An entry of the file of known destinations.
pub open spec fn entry_encoding(e: (AddressHash, KnownView)) -> Seq<u8> {
    bin_encoding(e.0@) + (array_header(5) + fields_encoding(e.1))
}

/// Entries of the file of known destinations, one behind the other.
pub open spec fn entries_encoding(entries: Seq<(AddressHash, KnownView)>) -> Seq<u8>
    decreases entries.len(),
{
    if entries.len() == 0 {
        Seq::empty()
    } else {
        entry_encoding(entries[0]) + entries_encoding(entries.drop_first())
    }
}

/// The file of known destinations.
pub open spec fn packed_known(entries: Seq<(AddressHash, KnownView)>) -> Seq<u8> {
    map_header(entries.len()) + entries_encoding(entries)
}

/// Whether application data has a length that the format can give.
pub open spec fn data_fits(v: KnownView) -> bool {
    v.app_data is Some ==> v.app_data->0.len() < 4294967296
}

/// Whether entries have lengths that the format can give.
pub open spec fn known_fit(entries: Seq<(AddressHash, KnownView)>) -> bool {
    &&& entries.len() < 4294967296
    &&& forall|i: int| 0 <= i < entries.len() ==> data_fits((#[trigger] entries[i]).1)
}

/// The point in time at the head of `s`, and what follows.
pub open spec fn time_at(s: Seq<u8>) -> Option<(u64, Seq<u8>)> {
    match element_at(s) {
        Some((ElementView::Number(bits), n)) => Some((ticks_of(bits), s.skip(n as int))),
        _ => None,
    }
}

/// The binary string of the given length at the head of `s`, and what follows.
pub open spec fn sized_bin_at(s: Seq<u8>, length: nat) -> Option<(Seq<u8>, Seq<u8>)> {
    match bin_at(s) {
        Some((data, n)) => if data.len() == length {
            Some((data, s.skip(n as int)))
        } else {
            None
        },
        None => None,
    }
}

/// The application data at the head of `s`, and what follows.
pub open spec fn data_at(s: Seq<u8>) -> Option<(Option<Seq<u8>>, Seq<u8>)> {
    match element_at(s) {
        Some((ElementView::Nil, n)) => Some((None, s.skip(n as int))),
        Some((ElementView::Binary(data), n)) => Some((Some(data), s.skip(n as int))),
        _ => None,
    }
}

/// The use that a whole number of seconds stands for.
pub open spec fn uses_of_seconds(seconds: u64) -> DestinationUses {
    if seconds == 0 {
        DestinationUses::Never
    } else if seconds * time::TICKS_PER_SECOND > u64::MAX {
        DestinationUses::LastUsed(u64::MAX)
    } else {
        DestinationUses::LastUsed((seconds * time::TICKS_PER_SECOND) as u64)
    }
}

/// The use that a double stands for.
pub open spec fn uses_of_bits(bits: u64) -> DestinationUses {
    if bits == 0 {
        DestinationUses::Never
    } else if bits == RETAINED_BITS {
        DestinationUses::Retained
    } else {
        DestinationUses::LastUsed(ticks_of(bits))
    }
}

/// The use at the head of `s`, and what follows.
pub open spec fn uses_at(s: Seq<u8>) -> Option<(DestinationUses, Seq<u8>)> {
    match uint_at(s) {
        Some((seconds, n)) => Some((uses_of_seconds(seconds as u64), s.skip(n as int))),
        None => if s.len() > 0 && s[0] == 0xff {
            Some((DestinationUses::Retained, s.skip(1)))
        } else {
            match element_at(s) {
                Some((ElementView::Number(bits), n)) => Some((uses_of_bits(bits), s.skip(n as int))),
                _ => None,
            }
        },
    }
}

/// What is known of a destination, at the head of `s`, and what follows.
pub open spec fn fields_at(s: Seq<u8>) -> Option<(KnownView, Seq<u8>)> {
    match time_at(s) {
        None => None,
        Some((time, s1)) => match sized_bin_at(s1, 32) {
            None => None,
            Some((packet_hash, s2)) => match sized_bin_at(s2, 64) {
                None => None,
                Some((public_key, s3)) => match data_at(s3) {
                    None => None,
                    Some((app_data, s4)) => match uses_at(s4) {
                        None => None,
                        Some((uses, s5)) => Some(
                            (KnownView { time, packet_hash, public_key, app_data, uses }, s5),
                        ),
                    },
                },
            },
        },
    }
}

/// The address with the given bytes.
pub open spec fn address_of(data: Seq<u8>) -> AddressHash {
    choose|address: AddressHash| address@ == data
}

/// The entry at the head of `s`, and what follows.
pub open spec fn entry_at(s: Seq<u8>) -> Option<((AddressHash, KnownView), Seq<u8>)> {
    match sized_bin_at(s, 16) {
        None => None,
        Some((key, s1)) => match array_len_at(s1) {
            None => None,
            Some((length, n)) => if length != 5 {
                None
            } else {
                match fields_at(s1.skip(n as int)) {
                    None => None,
                    Some((fields, s2)) => Some(((address_of(key), fields), s2)),
                }
            },
        },
    }
}

/// The `n` entries at the head of `s`.
pub open spec fn entries_at(s: Seq<u8>, n: nat) -> Option<Seq<(AddressHash, KnownView)>>
    decreases n,
{
    if n == 0 {
        Some(Seq::empty())
    } else {
        match entry_at(s) {
            None => None,
            Some((entry, rest)) => match entries_at(rest, (n - 1) as nat) {
                None => None,
                Some(entries) => Some(seq![entry] + entries),
            },
        }
    }
}

/// The entries in a file of known destinations.
pub open spec fn unpacked_known(raw: Seq<u8>) -> Result<Seq<(AddressHash, KnownView)>, RnsError> {
    match map_len_at(raw) {
        None => Err(RnsError::PacketError),
        Some((length, n)) => match entries_at(raw.skip(n as int), length) {
            None => Err(RnsError::PacketError),
            Some(entries) => Ok(entries),
        },
    }
}

/// Entries, as a mathematical value.
pub open spec fn known_view(entries: Seq<(AddressHash, KnownDestinationData)>) -> Seq<
    (AddressHash, KnownView),
> {
    entries.map_values(|e: (AddressHash, KnownDestinationData)| (e.0, e.1@))
}

/// Appends a use.
fn write_uses(out: &mut Vec<u8>, uses: DestinationUses)
    ensures
        final(out)@ == old(out)@ + uses_encoding(uses),
{
    match uses {
        DestinationUses::Never => msgpack::write_uint(out, 0),
        DestinationUses::LastUsed(at) => msgpack::write_double(out, time::from_ticks(at)),
        DestinationUses::Retained => {
            out.push(0xff);
            assert(out@ =~= old(out)@ + seq![0xffu8]);
        },
    }
}

/// Appends application data.
fn write_data(out: &mut Vec<u8>, data: &Option<Vec<u8>>)
    requires
        *data is Some ==> data->0@.len() < 4294967296,
    ensures
        final(out)@ == old(out)@ + data_encoding(data_view(*data)),
{
    match data {
        Some(data) => msgpack::write_bin(out, data),
        None => {
            msgpack::write_nil(out);
            assert(out@ =~= old(out)@ + seq![0xc0u8]);
        },
    }
}

/// Appends an entry.
fn write_entry(out: &mut Vec<u8>, hash: &AddressHash, data: &KnownDestinationData)
    requires
        data_fits(data@),
    ensures
        final(out)@ == old(out)@ + entry_encoding((*hash, data@)),
{
    let ghost start = out@;
    msgpack::write_bin(out, hash.as_slice());
    msgpack::write_array_len(out, 5);
    msgpack::write_double(out, time::from_ticks(data.time));
    msgpack::write_bin(out, &data.packet_hash);
    msgpack::write_bin(out, &data.public_key);
    write_data(out, &data.app_data);
    write_uses(out, data.uses);
    assert(out@ =~= start + entry_encoding((*hash, data@)));
}

/// Encoding one more entry at the end.
proof fn entries_encoding_push(
    entries: Seq<(AddressHash, KnownView)>,
    last: (AddressHash, KnownView),
)
    ensures
        entries_encoding(entries.push(last)) == entries_encoding(entries) + entry_encoding(last),
    decreases entries.len(),
{
    let all = entries.push(last);
    if entries.len() == 0 {
        assert(all.drop_first() =~= Seq::<(AddressHash, KnownView)>::empty());
        assert(entries_encoding(all.drop_first()) =~= Seq::<u8>::empty());
        assert(entries_encoding(all) =~= entry_encoding(last));
        assert(entries_encoding(entries) + entry_encoding(last) =~= entry_encoding(last));
    } else {
        assert(all.drop_first() =~= entries.drop_first().push(last));
        entries_encoding_push(entries.drop_first(), last);
        assert(entries_encoding(all) =~= entries_encoding(entries) + entry_encoding(last));
    }
}

/// Writes the file of known destinations.
pub fn pack_known_destinations(entries: &Vec<(AddressHash, KnownDestinationData)>) -> (r: Result<
    Vec<u8>,
    RnsError,
>)
    ensures
        r is Ok <==> known_fit(known_view(entries@)),
        r is Ok ==> r->Ok_0@ == packed_known(known_view(entries@)),
        r is Err ==> r->Err_0 == RnsError::OutOfMemory,
{
    let ghost view = known_view(entries@);
    if entries.len() as u64 >= 4294967296 {
        return Err(RnsError::OutOfMemory);
    }
    let mut out: Vec<u8> = Vec::new();
    msgpack::write_map_len(&mut out, entries.len() as u32);
    proof {
        assert(view.take(0) =~= Seq::<(AddressHash, KnownView)>::empty());
        assert(out@ =~= map_header(view.len()) + entries_encoding(view.take(0)));
    }
    let mut i: usize = 0;
    while i < entries.len()
        invariant
            i <= entries@.len() < 4294967296,
            view == known_view(entries@),
            out@ == map_header(view.len()) + entries_encoding(view.take(i as int)),
            forall|k: int| 0 <= k < i ==> data_fits((#[trigger] view[k]).1),
        decreases entries@.len() - i,
    {
        assert(view[i as int] == (entries@[i as int].0, entries@[i as int].1@));
        match &entries[i].1.app_data {
            Some(data) => if data.len() as u64 >= 4294967296 {
                assert(!data_fits(view[i as int].1));
                return Err(RnsError::OutOfMemory);
            },
            None => {},
        }
        write_entry(&mut out, &entries[i].0, &entries[i].1);
        proof {
            entries_encoding_push(view.take(i as int), view[i as int]);
            assert(view.take(i as int).push(view[i as int]) =~= view.take(i + 1));
            assert(out@ =~= map_header(view.len()) + entries_encoding(view.take(i + 1)));
        }
        i += 1;
    }
    assert(view.take(i as int) =~= view);
    Ok(out)
}

/// Reads a point in time.
pub(crate) fn read_time(data: &[u8]) -> (r: Option<(u64, &[u8])>)
    ensures
        r is Some <==> time_at(data@) is Some,
        r is Some ==> ((r->0).0, (r->0).1@) == time_at(data@)->0,
{
    match msgpack::read_element(data) {
        Some((Element::Number(bits), rest)) => Some((time::to_ticks(bits), rest)),
        _ => None,
    }
}

/// Reads a binary string of the given length.
pub(crate) fn read_sized_bin(data: &[u8], length: usize) -> (r: Option<(Vec<u8>, &[u8])>)
    ensures
        r is Some <==> sized_bin_at(data@, length as nat) is Some,
        r is Some ==> ((r->0).0@, (r->0).1@) == sized_bin_at(data@, length as nat)->0,
{
    match msgpack::read_bin(data) {
        Some((content, rest)) => if content.len() == length {
            Some((content, rest))
        } else {
            None
        },
        None => None,
    }
}

/// Reads application data.
fn read_data(data: &[u8]) -> (r: Option<(Option<Vec<u8>>, &[u8])>)
    ensures
        r is Some <==> data_at(data@) is Some,
        r is Some ==> (data_view((r->0).0), (r->0).1@) == data_at(data@)->0,
{
    match msgpack::read_element(data) {
        Some((Element::Nil, rest)) => Some((None, rest)),
        Some((Element::Binary(content), rest)) => Some((Some(content), rest)),
        _ => None,
    }
}

/// Reads a use.
fn read_uses(data: &[u8]) -> (r: Option<(DestinationUses, &[u8])>)
    ensures
        r is Some <==> uses_at(data@) is Some,
        r is Some ==> ((r->0).0, (r->0).1@) == uses_at(data@)->0,
{
    if let Some((seconds, rest)) = msgpack::read_uint(data) {
        let uses: DestinationUses = if seconds == 0 {
            DestinationUses::Never
        } else if seconds > u64::MAX / time::TICKS_PER_SECOND {
            DestinationUses::LastUsed(u64::MAX)
        } else {
            DestinationUses::LastUsed(seconds * time::TICKS_PER_SECOND)
        };
        return Some((uses, rest));
    }
    if data.len() > 0 && data[0] == 0xff {
        let rest: &[u8] = &data[1..data.len()];
        assert(rest@ =~= data@.skip(1));
        return Some((DestinationUses::Retained, rest));
    }
    match msgpack::read_element(data) {
        Some((Element::Number(bits), rest)) => {
            let uses: DestinationUses = if bits == 0 {
                DestinationUses::Never
            } else if bits == RETAINED_BITS {
                DestinationUses::Retained
            } else {
                DestinationUses::LastUsed(time::to_ticks(bits))
            };
            Some((uses, rest))
        },
        _ => None,
    }
}

/// The first 32 bytes of a byte string of that length.
pub(crate) fn array32(data: &Vec<u8>) -> (r: [u8; 32])
    requires
        data@.len() == 32,
    ensures
        r@ == data@,
{
    let mut out: [u8; 32] = [0; 32];
    let mut i: usize = 0;
    while i < 32
        invariant
            i <= 32,
            data@.len() == 32,
            out@.len() == 32,
            forall|k: int| 0 <= k < i ==> out@[k] == data@[k],
        decreases 32 - i,
    {
        out[i] = data[i];
        i += 1;
    }
    assert(out@ =~= data@);
    out
}

/// The bytes of a byte string of length 64.
pub(crate) fn array64(data: &Vec<u8>) -> (r: [u8; 64])
    requires
        data@.len() == 64,
    ensures
        r@ == data@,
{
    let mut out: [u8; 64] = [0; 64];
    let mut i: usize = 0;
    while i < 64
        invariant
            i <= 64,
            data@.len() == 64,
            out@.len() == 64,
            forall|k: int| 0 <= k < i ==> out@[k] == data@[k],
        decreases 64 - i,
    {
        out[i] = data[i];
        i += 1;
    }
    assert(out@ =~= data@);
    out
}

/// An address is the one with its bytes.
pub(crate) proof fn address_of_bytes(address: AddressHash)
    ensures
        address_of(address@) == address,
{
    let other = address_of(address@);
    assert(other@ == address@);
    assert(other.0 =~= address.0);
}

/// Reads what is known of a destination.
fn read_fields(data: &[u8]) -> (r: Option<(KnownDestinationData, &[u8])>)
    ensures
        r is Some <==> fields_at(data@) is Some,
        r is Some ==> ((r->0).0@, (r->0).1@) == fields_at(data@)->0,
{
    let (time, rest): (u64, &[u8]) = match read_time(data) {
        Some(read) => read,
        None => return None,
    };
    let (packet_hash, rest): (Vec<u8>, &[u8]) = match read_sized_bin(rest, 32) {
        Some(read) => read,
        None => return None,
    };
    let (public_key, rest): (Vec<u8>, &[u8]) = match read_sized_bin(rest, 64) {
        Some(read) => read,
        None => return None,
    };
    let (app_data, rest): (Option<Vec<u8>>, &[u8]) = match read_data(rest) {
        Some(read) => read,
        None => return None,
    };
    let (uses, rest): (DestinationUses, &[u8]) = match read_uses(rest) {
        Some(read) => read,
        None => return None,
    };
    let data = KnownDestinationData {
        time,
        packet_hash: array32(&packet_hash),
        public_key: array64(&public_key),
        app_data,
        uses,
    };
    Some((data, rest))
}

/// Reads an entry.
fn read_entry(data: &[u8]) -> (r: Option<((AddressHash, KnownDestinationData), &[u8])>)
    ensures
        r is Some <==> entry_at(data@) is Some,
        r is Some ==> (((r->0).0.0, (r->0).0.1@), (r->0).1@) == entry_at(data@)->0,
{
    let (key, rest): (Vec<u8>, &[u8]) = match read_sized_bin(data, 16) {
        Some(read) => read,
        None => return None,
    };
    let address: AddressHash = match AddressHash::from_bytes(&key) {
        Some(address) => address,
        None => return None,
    };
    proof {
        address_of_bytes(address);
    }
    let (length, rest): (u32, &[u8]) = match msgpack::read_array_len(rest) {
        Some(read) => read,
        None => return None,
    };
    if length != 5 {
        return None;
    }
    match read_fields(rest) {
        Some((fields, rest)) => Some(((address, fields), rest)),
        None => None,
    }
}

/// Reads a file of known destinations.
pub fn unpack_known_destinations(raw: &[u8]) -> (r: Result<
    Vec<(AddressHash, KnownDestinationData)>,
    RnsError,
>)
    ensures
        match unpacked_known(raw@) {
            Ok(entries) => r is Ok && known_view(r->Ok_0@) == entries,
            Err(err) => r is Err && r->Err_0 == err,
        },
{
    let (length, start): (u32, &[u8]) = match msgpack::read_map_len(raw) {
        Some(read) => read,
        None => return Err(RnsError::PacketError),
    };
    let mut entries: Vec<(AddressHash, KnownDestinationData)> = Vec::new();
    let mut rest: &[u8] = start;
    let mut i: u32 = 0;
    let ghost all = entries_at(start@, length as nat);
    assert(known_view(entries@) =~= Seq::<(AddressHash, KnownView)>::empty());
    proof {
        if all is Some {
            assert(known_view(entries@) + all->0 =~= all->0);
        }
    }
    while i < length
        invariant
            i <= length,
            all is Some <==> entries_at(rest@, (length - i) as nat) is Some,
            all is Some ==> all->0 == known_view(entries@) + entries_at(
                rest@,
                (length - i) as nat,
            )->0,
            all == entries_at(raw@.skip((map_len_at(raw@)->0).1 as int), length as nat),
            map_len_at(raw@) is Some,
            (map_len_at(raw@)->0).0 == length,
        decreases length - i,
    {
        let ghost done = known_view(entries@);
        let ghost left = entries_at(rest@, (length - i) as nat);
        match read_entry(rest) {
            Some((entry, tail)) => {
                proof {
                    let next = entries_at(tail@, (length - i - 1) as nat);
                    assert(known_view(entries@.push(entry)) =~= done.push((entry.0, entry.1@)));
                    if next is Some {
                        assert(done + (seq![(entry.0, entry.1@)] + next->0) =~= done.push(
                            (entry.0, entry.1@),
                        ) + next->0);
                    }
                }
                entries.push(entry);
                rest = tail;
            },
            None => return Err(RnsError::PacketError),
        }
        i += 1;
    }
    proof {
        assert(all->0 =~= known_view(entries@));
    }
    Ok(entries)
}

/// What follows a prefix.
pub(crate) proof fn skip_prefix(a: Seq<u8>, b: Seq<u8>)
    ensures
        (a + b).skip(a.len() as int) == b,
{
    assert((a + b).skip(a.len() as int) =~= b);
}

/// Whether a destination's data is such that reading what was written gives it back: the times
/// are kept, and a use is not at the epoch.
pub open spec fn is_exact(v: KnownView) -> bool {
    &&& data_fits(v)
    &&& v.packet_hash.len() == 32
    &&& v.public_key.len() == 64
    &&& time::is_kept(v.time)
    &&& (v.uses matches DestinationUses::LastUsed(at) ==> 0 < at && time::is_kept(at))
}

/// Reading a written time gives it back.
pub(crate) proof fn time_round_trip(at: u64, tail: Seq<u8>)
    requires
        time::is_kept(at),
    ensures
        time_at(double_encoding(double_of(at)) + tail) == Some((at, tail)),
{
    time::double_is_finite(at);
    msgpack::double_round_trip(double_of(at), tail);
    skip_prefix(double_encoding(double_of(at)), tail);
}

/// Reading a written binary string gives it back.
pub(crate) proof fn sized_bin_round_trip(data: Seq<u8>, tail: Seq<u8>)
    requires
        data.len() < 4294967296,
    ensures
        sized_bin_at(bin_encoding(data) + tail, data.len()) == Some((data, tail)),
{
    msgpack::bin_round_trip(data, tail);
    skip_prefix(bin_encoding(data), tail);
}

/// Reading written application data gives it back.
proof fn data_round_trip(data: Option<Seq<u8>>, tail: Seq<u8>)
    requires
        data is Some ==> data->0.len() < 4294967296,
    ensures
        data_at(data_encoding(data) + tail) == Some((data, tail)),
{
    match data {
        Some(data) => {
            msgpack::bin_round_trip(data, tail);
            skip_prefix(bin_encoding(data), tail);
        },
        None => {
            skip_prefix(seq![0xc0u8], tail);
        },
    }
}

/// Reading a written use gives it back.
proof fn uses_round_trip(uses: DestinationUses, tail: Seq<u8>)
    requires
        uses matches DestinationUses::LastUsed(at) ==> 0 < at && time::is_kept(at),
    ensures
        uses_at(uses_encoding(uses) + tail) == Some((uses, tail)),
{
    let s = uses_encoding(uses) + tail;
    match uses {
        DestinationUses::Never => {
            msgpack::uint_round_trip(0, tail);
            skip_prefix(uint_encoding(0), tail);
        },
        DestinationUses::LastUsed(at) => {
            time::double_is_finite(at);
            msgpack::double_round_trip(double_of(at), tail);
            skip_prefix(double_encoding(double_of(at)), tail);
            reveal(uint_at);
        },
        DestinationUses::Retained => {
            reveal(uint_at);
            skip_prefix(seq![0xffu8], tail);
        },
    }
}

/// Reading written data of a destination gives it back.
proof fn fields_round_trip(v: KnownView, tail: Seq<u8>)
    requires
        is_exact(v),
    ensures
        fields_at(fields_encoding(v) + tail) == Some((v, tail)),
{
    let e0 = double_encoding(double_of(v.time));
    let e1 = bin_encoding(v.packet_hash);
    let e2 = bin_encoding(v.public_key);
    let e3 = data_encoding(v.app_data);
    let e4 = uses_encoding(v.uses);
    let t4 = e4 + tail;
    let t3 = e3 + t4;
    let t2 = e2 + t3;
    let t1 = e1 + t2;
    assert(fields_encoding(v) + tail =~= e0 + t1);
    time_round_trip(v.time, t1);
    sized_bin_round_trip(v.packet_hash, t2);
    sized_bin_round_trip(v.public_key, t3);
    data_round_trip(v.app_data, t4);
    uses_round_trip(v.uses, tail);
}

/// Reading a written entry gives it back.
proof fn entry_round_trip(e: (AddressHash, KnownView), tail: Seq<u8>)
    requires
        is_exact(e.1),
    ensures
        entry_at(entry_encoding(e) + tail) == Some((e, tail)),
{
    let t2 = fields_encoding(e.1) + tail;
    let t1 = array_header(5) + t2;
    assert(entry_encoding(e) + tail =~= bin_encoding(e.0@) + t1);
    sized_bin_round_trip(e.0@, t1);
    msgpack::array_header_round_trip(5, t2);
    skip_prefix(array_header(5), t2);
    fields_round_trip(e.1, tail);
    address_of_bytes(e.0);
}

/// Reading written entries gives them back.
proof fn entries_round_trip(entries: Seq<(AddressHash, KnownView)>)
    requires
        forall|i: int| 0 <= i < entries.len() ==> is_exact((#[trigger] entries[i]).1),
    ensures
        entries_at(entries_encoding(entries), entries.len()) == Some(entries),
    decreases entries.len(),
{
    if entries.len() > 0 {
        let rest = entries.drop_first();
        assert forall|i: int| 0 <= i < rest.len() implies is_exact((#[trigger] rest[i]).1) by {
            assert(rest[i] == entries[i + 1]);
        }
        entry_round_trip(entries[0], entries_encoding(rest));
        entries_round_trip(rest);
        assert(seq![entries[0]] + rest =~= entries);
    } else {
        assert(entries =~= Seq::<(AddressHash, KnownView)>::empty());
    }
}

/// A file of known destinations, read again, gives the entries that were written.
pub proof fn known_round_trip(entries: Seq<(AddressHash, KnownView)>)
    requires
        entries.len() < 4294967296,
        forall|i: int| 0 <= i < entries.len() ==> is_exact((#[trigger] entries[i]).1),
    ensures
        unpacked_known(packed_known(entries)) == Ok::<
            Seq<(AddressHash, KnownView)>,
            RnsError,
        >(entries),
{
    msgpack::map_header_round_trip(entries.len(), entries_encoding(entries));
    skip_prefix(map_header(entries.len()), entries_encoding(entries));
    entries_round_trip(entries);
}

} // verus!
