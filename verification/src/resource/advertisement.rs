//! The advertisement that opens a resource transfer, and its wire format.

use vstd::prelude::*;

use crate::bytes;
use crate::error::RnsError;
use crate::hash::AddressHash;
use crate::msgpack;
use crate::msgpack::{bin_at, bin_encoding, map_len_at, uint_at, uint_encoding};
use crate::packet::LINK_MDU;
use crate::resource::{MAPHASH_LEN, MAX_EFFICIENT_SIZE, WINDOW_MAX};

verus! {

/// Bytes that the advertisement map takes besides the hashmap slice.
pub const OVERHEAD: usize = 134;

/// Number of map hashes that fit into a single advertisement.
pub const HASHMAP_MAX_LEN: usize = (LINK_MDU - OVERHEAD) / MAPHASH_LEN;

/// Window around the currently requested map region that the sender keeps searchable for part
/// requests.
pub const COLLISION_GUARD_SIZE: usize = 2 * WINDOW_MAX + HASHMAP_MAX_LEN;

pub const FLAG_ENCRYPTED: u8 = 0x01;

pub const FLAG_COMPRESSED: u8 = 0x02;

pub const FLAG_SPLIT: u8 = 0x04;

pub const FLAG_IS_REQUEST: u8 = 0x08;

pub const FLAG_IS_RESPONSE: u8 = 0x10;

pub const FLAG_HAS_METADATA: u8 = 0x20;

/// Describes a resource that a sender offers.
#[derive(Debug, PartialEq, Eq)]
pub struct ResourceAdvertisement {
    /// Size of the encrypted stream.
    pub transfer_size: usize,
    /// Total size of the uncompressed data.
    pub data_size: usize,
    /// Number of parts.
    pub parts: usize,
    /// Resource hash.
    pub hash: crate::hash::Hash,
    /// Random hash that salts the map hashes.
    pub random_hash: [u8; 4],
    /// Hash of the first segment.
    pub original_hash: crate::hash::Hash,
    /// Segment index, counted from one.
    pub segment_index: usize,
    /// Total number of segments.
    pub total_segments: usize,
    /// The request that this resource belongs to.
    pub request_id: Option<AddressHash>,
    /// Flag bits.
    pub flags: u8,
    /// Map hashes of the first parts.
    pub hashmap: Vec<u8>,
}

/// The mathematical counterpart of [`ResourceAdvertisement`].
#[verifier::ext_equal]
pub struct AdvertisementView {
    pub transfer_size: nat,
    pub data_size: nat,
    pub parts: nat,
    pub hash: Seq<u8>,
    pub random_hash: Seq<u8>,
    pub original_hash: Seq<u8>,
    pub segment_index: nat,
    pub total_segments: nat,
    pub request_id: Option<Seq<u8>>,
    pub flags: u8,
    pub hashmap: Seq<u8>,
}

/// The bytes of an optional address.
pub open spec fn address_bytes(id: Option<AddressHash>) -> Option<Seq<u8>> {
    match id {
        Some(id) => Some(id@),
        None => None,
    }
}

impl View for ResourceAdvertisement {
    type V = AdvertisementView;

    open spec fn view(&self) -> AdvertisementView {
        AdvertisementView {
            transfer_size: self.transfer_size as nat,
            data_size: self.data_size as nat,
            parts: self.parts as nat,
            hash: self.hash@,
            random_hash: self.random_hash@,
            original_hash: self.original_hash@,
            segment_index: self.segment_index as nat,
            total_segments: self.total_segments as nat,
            request_id: address_bytes(self.request_id),
            flags: self.flags,
            hashmap: self.hashmap@,
        }
    }
}

impl Clone for ResourceAdvertisement {
    fn clone(&self) -> (r: Self)
        ensures
            r@ == self@,
    {
        ResourceAdvertisement {
            transfer_size: self.transfer_size,
            data_size: self.data_size,
            parts: self.parts,
            hash: self.hash,
            random_hash: self.random_hash,
            original_hash: self.original_hash,
            segment_index: self.segment_index,
            total_segments: self.total_segments,
            request_id: self.request_id,
            flags: self.flags,
            hashmap: bytes::to_vec(&self.hashmap),
        }
    }
}

/// One map entry: a one-letter key and an encoded value.
pub open spec fn entry(key: u8, value: Seq<u8>) -> Seq<u8> {
    seq![0xa1u8, key] + value
}

/// The encoding of an optional request id.
pub open spec fn request_id_encoding(id: Option<Seq<u8>>) -> Seq<u8> {
    match id {
        Some(id) => bin_encoding(id),
        None => seq![0xc0u8],
    }
}

/// The `n`-th map entry of an advertisement, counted from zero.
pub open spec fn nth_entry(a: AdvertisementView, n: nat) -> Seq<u8> {
    if n == 0 {
        entry(0x74, uint_encoding(a.transfer_size))
    } else if n == 1 {
        entry(0x64, uint_encoding(a.data_size))
    } else if n == 2 {
        entry(0x6e, uint_encoding(a.parts))
    } else if n == 3 {
        entry(0x68, bin_encoding(a.hash))
    } else if n == 4 {
        entry(0x72, bin_encoding(a.random_hash))
    } else if n == 5 {
        entry(0x6f, bin_encoding(a.original_hash))
    } else if n == 6 {
        entry(0x69, uint_encoding(a.segment_index))
    } else if n == 7 {
        entry(0x6c, uint_encoding(a.total_segments))
    } else if n == 8 {
        entry(0x71, request_id_encoding(a.request_id))
    } else if n == 9 {
        entry(0x66, uint_encoding(a.flags as nat))
    } else {
        entry(0x6d, bin_encoding(a.hashmap))
    }
}

/// The map entries from the `n`-th on.
pub open spec fn entries_from(a: AdvertisementView, n: nat) -> Seq<u8>
    decreases 11 - n,
{
    if n >= 11 {
        Seq::empty()
    } else {
        nth_entry(a, n) + entries_from(a, n + 1)
    }
}

/// The wire format of an advertisement: a map of eleven entries with one-letter keys.
pub open spec fn packed(a: AdvertisementView) -> Seq<u8> {
    seq![0x8bu8] + entries_from(a, 0)
}

/// The fields collected while an advertisement is read.
#[verifier::ext_equal]
pub struct FieldsView {
    pub transfer_size: Option<nat>,
    pub data_size: Option<nat>,
    pub parts: Option<nat>,
    pub hash: Option<Seq<u8>>,
    pub random_hash: Option<Seq<u8>>,
    pub original_hash: Option<Seq<u8>>,
    pub segment_index: Option<nat>,
    pub total_segments: Option<nat>,
    pub request_id: Option<Seq<u8>>,
    pub flags: Option<u8>,
    pub hashmap: Option<Seq<u8>>,
}

/// Nothing read yet.
pub open spec fn no_fields() -> FieldsView {
    FieldsView {
        transfer_size: None,
        data_size: None,
        parts: None,
        hash: None,
        random_hash: None,
        original_hash: None,
        segment_index: None,
        total_segments: None,
        request_id: None,
        flags: None,
        hashmap: None,
    }
}

/// A binary string of exactly `len` bytes at the head of `s`.
pub open spec fn fixed_bin_at(s: Seq<u8>, len: nat) -> Option<(Seq<u8>, nat)> {
    match bin_at(s) {
        Some((data, n)) => if data.len() == len {
            Some((data, n))
        } else {
            None
        },
        None => None,
    }
}

/// A number as a machine-sized one: itself wherever it fits.
pub open spec fn as_usize(x: nat) -> nat {
    (x as usize) as nat
}

/// The fields after the entry at the head of `s`, and the bytes that the entry takes.
pub open spec fn read_entry_at(s: Seq<u8>, f: FieldsView) -> Option<(FieldsView, nat)> {
    if s.len() < 2 || s[0] != 0xa1 {
        None
    } else {
        let v = s.skip(2);
        if s[1] == 0x74 || s[1] == 0x64 || s[1] == 0x6e || s[1] == 0x69 || s[1] == 0x6c || s[1]
            == 0x66 {
            match uint_at(v) {
                None => None,
                Some((x, n)) => Some(
                    (
                        if s[1] == 0x74 {
                            FieldsView { transfer_size: Some(as_usize(x)), ..f }
                        } else if s[1] == 0x64 {
                            FieldsView { data_size: Some(as_usize(x)), ..f }
                        } else if s[1] == 0x6e {
                            FieldsView { parts: Some(as_usize(x)), ..f }
                        } else if s[1] == 0x69 {
                            FieldsView { segment_index: Some(as_usize(x)), ..f }
                        } else if s[1] == 0x6c {
                            FieldsView { total_segments: Some(as_usize(x)), ..f }
                        } else {
                            FieldsView { flags: Some((x % 256) as u8), ..f }
                        },
                        2 + n,
                    ),
                ),
            }
        } else if s[1] == 0x68 || s[1] == 0x6f {
            match fixed_bin_at(v, 32) {
                None => None,
                Some((x, n)) => Some(
                    (
                        if s[1] == 0x68 {
                            FieldsView { hash: Some(x), ..f }
                        } else {
                            FieldsView { original_hash: Some(x), ..f }
                        },
                        2 + n,
                    ),
                ),
            }
        } else if s[1] == 0x72 {
            match fixed_bin_at(v, 4) {
                None => None,
                Some((x, n)) => Some((FieldsView { random_hash: Some(x), ..f }, 2 + n)),
            }
        } else if s[1] == 0x71 {
            if v.len() > 0 && v[0] == 0xc0 {
                Some((FieldsView { request_id: None, ..f }, 3))
            } else {
                match fixed_bin_at(v, 16) {
                    None => None,
                    Some((x, n)) => Some((FieldsView { request_id: Some(x), ..f }, 2 + n)),
                }
            }
        } else if s[1] == 0x6d {
            match bin_at(v) {
                None => None,
                Some((x, n)) => Some((FieldsView { hashmap: Some(x), ..f }, 2 + n)),
            }
        } else {
            None
        }
    }
}

/// The fields after `count` more entries from the head of `s`.
pub open spec fn read_entries_at(s: Seq<u8>, count: nat, f: FieldsView) -> Option<FieldsView>
    decreases count,
{
    if count == 0 {
        Some(f)
    } else {
        match read_entry_at(s, f) {
            Some((g, n)) => read_entries_at(s.skip(n as int), (count - 1) as nat, g),
            None => None,
        }
    }
}

/// `v`, or one when it is missing or zero.
pub open spec fn at_least_one(v: Option<nat>) -> nat {
    match v {
        Some(x) => if x == 0 {
            1
        } else {
            x
        },
        None => 1,
    }
}

/// The advertisement that the collected fields make up, when they suffice and the transfer is
/// not too large.
pub open spec fn complete(f: FieldsView) -> Option<AdvertisementView> {
    if f.hash is Some && f.original_hash is Some && f.transfer_size is Some && f.random_hash is Some
        && f.data_size is Some && f.parts is Some && f.transfer_size->0 <= MAX_EFFICIENT_SIZE * 3 {
        Some(
            AdvertisementView {
                transfer_size: f.transfer_size->0,
                data_size: f.data_size->0,
                parts: f.parts->0,
                hash: f.hash->0,
                random_hash: f.random_hash->0,
                original_hash: f.original_hash->0,
                segment_index: at_least_one(f.segment_index),
                total_segments: at_least_one(f.total_segments),
                request_id: f.request_id,
                flags: match f.flags {
                    Some(flags) => flags,
                    None => 0,
                },
                hashmap: match f.hashmap {
                    Some(hashmap) => hashmap,
                    None => Seq::empty(),
                },
            },
        )
    } else {
        None
    }
}

/// The advertisement that a byte string holds, if it holds one: a map of eleven entries in any
/// order; bytes behind the map are not looked at.
pub open spec fn unpacked(s: Seq<u8>) -> Option<AdvertisementView> {
    match map_len_at(s) {
        Some((count, n)) => if count == 11 {
            match read_entries_at(s.skip(n as int), 11, no_fields()) {
                Some(f) => complete(f),
                None => None,
            }
        } else {
            None
        },
        None => None,
    }
}

/// What has been read of an advertisement so far.
struct Fields {
    transfer_size: Option<usize>,
    data_size: Option<usize>,
    parts: Option<usize>,
    hash: Option<crate::hash::Hash>,
    random_hash: Option<[u8; 4]>,
    original_hash: Option<crate::hash::Hash>,
    segment_index: Option<usize>,
    total_segments: Option<usize>,
    request_id: Option<AddressHash>,
    flags: Option<u8>,
    hashmap: Option<Vec<u8>>,
}

spec fn opt_nat(v: Option<usize>) -> Option<nat> {
    match v {
        Some(x) => Some(x as nat),
        None => None,
    }
}

spec fn opt_hash(v: Option<crate::hash::Hash>) -> Option<Seq<u8>> {
    match v {
        Some(x) => Some(x@),
        None => None,
    }
}

impl Fields {
    spec fn view(&self) -> FieldsView {
        FieldsView {
            transfer_size: opt_nat(self.transfer_size),
            data_size: opt_nat(self.data_size),
            parts: opt_nat(self.parts),
            hash: opt_hash(self.hash),
            random_hash: match self.random_hash {
                Some(x) => Some(x@),
                None => None,
            },
            original_hash: opt_hash(self.original_hash),
            segment_index: opt_nat(self.segment_index),
            total_segments: opt_nat(self.total_segments),
            request_id: address_bytes(self.request_id),
            flags: self.flags,
            hashmap: match self.hashmap {
                Some(x) => Some(x@),
                None => None,
            },
        }
    }
}

/// Reads one map entry and hands back what follows it.
fn read_entry(data: &[u8], fields: Fields) -> (r: Option<(Fields, &[u8])>)
    ensures
        r is Some <==> read_entry_at(data@, fields@) is Some,
        r is Some ==> (r->0).0@ == (read_entry_at(data@, fields@)->0).0,
        r is Some ==> (r->0).1@ == data@.skip((read_entry_at(data@, fields@)->0).1 as int),
{
    reveal(uint_at);
    reveal(bin_at);
    let mut fields = fields;
    if data.len() < 2 || data[0] != 0xa1 {
        return None;
    }
    let key: u8 = data[1];
    let value: &[u8] = &data[2..data.len()];
    assert(value@ =~= data@.skip(2));
    assert forall|n: int| 0 <= n <= value@.len() implies #[trigger] value@.skip(n) =~= data@.skip(
        2 + n,
    ) by {}
    if key == 0x74 || key == 0x64 || key == 0x6e || key == 0x69 || key == 0x6c || key == 0x66 {
        match msgpack::read_uint(value) {
            None => None,
            Some((x, rest)) => {
                if key == 0x74 {
                    fields.transfer_size = Some(x as usize);
                } else if key == 0x64 {
                    fields.data_size = Some(x as usize);
                } else if key == 0x6e {
                    fields.parts = Some(x as usize);
                } else if key == 0x69 {
                    fields.segment_index = Some(x as usize);
                } else if key == 0x6c {
                    fields.total_segments = Some(x as usize);
                } else {
                    fields.flags = Some((x % 256) as u8);
                }
                Some((fields, rest))
            },
        }
    } else if key == 0x68 || key == 0x6f {
        match msgpack::read_bin(value) {
            None => None,
            Some((x, rest)) => {
                if x.len() != 32 {
                    return None;
                }
                let hash: Option<crate::hash::Hash> = crate::hash::Hash::from_prefix(&x, 0);
                assert(x@.subrange(0, 32) =~= x@);
                if key == 0x68 {
                    fields.hash = hash;
                } else {
                    fields.original_hash = hash;
                }
                Some((fields, rest))
            },
        }
    } else if key == 0x72 {
        match msgpack::read_bin(value) {
            None => None,
            Some((x, rest)) => {
                if x.len() != 4 {
                    return None;
                }
                let random_hash: [u8; 4] = [x[0], x[1], x[2], x[3]];
                assert(random_hash@ =~= x@);
                fields.random_hash = Some(random_hash);
                Some((fields, rest))
            },
        }
    } else if key == 0x71 {
        if value.len() > 0 && value[0] == 0xc0 {
            fields.request_id = None;
            let rest: &[u8] = &data[3..data.len()];
            assert(rest@ =~= data@.skip(3));
            return Some((fields, rest));
        }
        match msgpack::read_bin(value) {
            None => None,
            Some((x, rest)) => {
                if x.len() != 16 {
                    return None;
                }
                fields.request_id = AddressHash::from_bytes(&x);
                Some((fields, rest))
            },
        }
    } else if key == 0x6d {
        match msgpack::read_bin(value) {
            None => None,
            Some((x, rest)) => {
                fields.hashmap = Some(x);
                Some((fields, rest))
            },
        }
    } else {
        None
    }
}

/// The value of a positive count that may be missing.
fn count_or_one(v: Option<usize>) -> (r: usize)
    ensures
        r == at_least_one(opt_nat(v)),
{
    match v {
        Some(x) => if x == 0 {
            1
        } else {
            x
        },
        None => 1,
    }
}

impl ResourceAdvertisement {
    /// Whether a flag bit is set.
    pub open spec fn flag(&self, mask: u8) -> bool {
        self.flags & mask != 0
    }

    /// Whether the stream is encrypted.
    pub fn encrypted(&self) -> (r: bool)
        ensures
            r == self.flag(FLAG_ENCRYPTED),
    {
        self.flags & FLAG_ENCRYPTED != 0
    }

    /// Whether the data is compressed.
    pub fn compressed(&self) -> (r: bool)
        ensures
            r == self.flag(FLAG_COMPRESSED),
    {
        self.flags & FLAG_COMPRESSED != 0
    }

    /// Whether this is one segment of a larger resource.
    pub fn split(&self) -> (r: bool)
        ensures
            r == self.flag(FLAG_SPLIT),
    {
        self.flags & FLAG_SPLIT != 0
    }

    /// Whether the resource carries a request.
    pub fn is_request(&self) -> (r: bool)
        ensures
            r == (self.request_id is Some && self.flag(FLAG_IS_REQUEST)),
    {
        self.request_id.is_some() && self.flags & FLAG_IS_REQUEST != 0
    }

    /// Whether the resource carries a response.
    pub fn is_response(&self) -> (r: bool)
        ensures
            r == (self.request_id is Some && self.flag(FLAG_IS_RESPONSE)),
    {
        self.request_id.is_some() && self.flags & FLAG_IS_RESPONSE != 0
    }

    /// Whether metadata precedes the data.
    pub fn has_metadata(&self) -> (r: bool)
        ensures
            r == self.flag(FLAG_HAS_METADATA),
    {
        self.flags & FLAG_HAS_METADATA != 0
    }

    /// Packs the advertisement into its wire format.
    pub fn pack(&self) -> (out: Vec<u8>)
        requires
            self.hashmap@.len() < 4294967296,
        ensures
            out@ == packed(self@),
    {
        let ghost a = self@;
        let mut out: Vec<u8> = Vec::new();
        out.push(0x8b);
        assert(out@ + entries_from(a, 0) =~= packed(a));

        push_key(&mut out, 0x74);
        msgpack::write_uint(&mut out, self.transfer_size as u64);
        proof {
            entry_written(a, 0, seq![0x8bu8], 0x74, uint_encoding(a.transfer_size), out@);
        }
        let ghost before = out@;
        push_key(&mut out, 0x64);
        msgpack::write_uint(&mut out, self.data_size as u64);
        proof {
            entry_written(a, 1, before, 0x64, uint_encoding(a.data_size), out@);
        }
        let ghost before = out@;
        push_key(&mut out, 0x6e);
        msgpack::write_uint(&mut out, self.parts as u64);
        proof {
            entry_written(a, 2, before, 0x6e, uint_encoding(a.parts), out@);
        }
        let ghost before = out@;
        push_key(&mut out, 0x68);
        msgpack::write_bin(&mut out, self.hash.as_slice());
        proof {
            entry_written(a, 3, before, 0x68, bin_encoding(a.hash), out@);
        }
        let ghost before = out@;
        push_key(&mut out, 0x72);
        msgpack::write_bin(&mut out, &self.random_hash);
        proof {
            entry_written(a, 4, before, 0x72, bin_encoding(a.random_hash), out@);
        }
        let ghost before = out@;
        push_key(&mut out, 0x6f);
        msgpack::write_bin(&mut out, self.original_hash.as_slice());
        proof {
            entry_written(a, 5, before, 0x6f, bin_encoding(a.original_hash), out@);
        }
        let ghost before = out@;
        push_key(&mut out, 0x69);
        msgpack::write_uint(&mut out, self.segment_index as u64);
        proof {
            entry_written(a, 6, before, 0x69, uint_encoding(a.segment_index), out@);
        }
        let ghost before = out@;
        push_key(&mut out, 0x6c);
        msgpack::write_uint(&mut out, self.total_segments as u64);
        proof {
            entry_written(a, 7, before, 0x6c, uint_encoding(a.total_segments), out@);
        }
        let ghost before = out@;
        push_key(&mut out, 0x71);
        match &self.request_id {
            Some(id) => msgpack::write_bin(&mut out, id.as_slice()),
            None => msgpack::write_nil(&mut out),
        }
        proof {
            assert(out@ =~= before + seq![0xa1u8, 0x71u8] + request_id_encoding(a.request_id));
            entry_written(a, 8, before, 0x71, request_id_encoding(a.request_id), out@);
        }
        let ghost before = out@;
        push_key(&mut out, 0x66);
        msgpack::write_uint(&mut out, self.flags as u64);
        proof {
            entry_written(a, 9, before, 0x66, uint_encoding(a.flags as nat), out@);
        }
        let ghost before = out@;
        push_key(&mut out, 0x6d);
        msgpack::write_bin(&mut out, &self.hashmap);
        proof {
            entry_written(a, 10, before, 0x6d, bin_encoding(a.hashmap), out@);
            assert(out@ + entries_from(a, 11) =~= out@);
        }
        out
    }

    /// Unpacks an advertisement from its wire format.
    pub fn unpack(data: &[u8]) -> (r: Result<Self, RnsError>)
        ensures
            r is Ok <==> unpacked(data@) is Some,
            r is Ok ==> r->Ok_0@ == unpacked(data@)->0,
            r is Err ==> r->Err_0 == RnsError::PacketError,
    {
        let (count, rest) = match msgpack::read_map_len(data) {
            Some(header) => header,
            None => return Err(RnsError::PacketError),
        };
        if count != 11 {
            return Err(RnsError::PacketError);
        }
        let mut cursor: &[u8] = rest;
        let mut fields: Fields = Fields {
            transfer_size: None,
            data_size: None,
            parts: None,
            hash: None,
            random_hash: None,
            original_hash: None,
            segment_index: None,
            total_segments: None,
            request_id: None,
            flags: None,
            hashmap: None,
        };
        let ghost target = read_entries_at(rest@, 11, no_fields());
        assert(fields@ =~= no_fields());
        let mut i: usize = 0;
        while i < 11
            invariant
                i <= 11,
                target == read_entries_at(cursor@, (11 - i) as nat, fields@),
                map_len_at(data@) is Some,
                (map_len_at(data@)->0).0 == 11,
                target == read_entries_at(
                    data@.skip((map_len_at(data@)->0).1 as int),
                    11,
                    no_fields(),
                ),
            decreases 11 - i,
        {
            match read_entry(cursor, fields) {
                Some((next, rest)) => {
                    fields = next;
                    cursor = rest;
                },
                None => return Err(RnsError::PacketError),
            }
            i += 1;
        }
        let segment_index: usize = count_or_one(fields.segment_index);
        let total_segments: usize = count_or_one(fields.total_segments);
        match (
            fields.transfer_size,
            fields.data_size,
            fields.parts,
            fields.hash,
            fields.random_hash,
            fields.original_hash,
        ) {
            (
                Some(transfer_size),
                Some(data_size),
                Some(parts),
                Some(hash),
                Some(random_hash),
                Some(original_hash),
            ) => {
                if transfer_size > MAX_EFFICIENT_SIZE * 3 {
                    return Err(RnsError::PacketError);
                }
                Ok(
                    ResourceAdvertisement {
                        transfer_size,
                        data_size,
                        parts,
                        hash,
                        random_hash,
                        original_hash,
                        segment_index,
                        total_segments,
                        request_id: fields.request_id,
                        flags: match fields.flags {
                            Some(flags) => flags,
                            None => 0,
                        },
                        hashmap: match fields.hashmap {
                            Some(hashmap) => hashmap,
                            None => Vec::new(),
                        },
                    },
                )
            },
            _ => Err(RnsError::PacketError),
        }
    }
}

/// Appends a one-letter key.
fn push_key(out: &mut Vec<u8>, key: u8)
    ensures
        final(out)@ == old(out)@ + seq![0xa1u8, key],
{
    out.push(0xa1);
    out.push(key);
    assert(out@ =~= old(out)@ + seq![0xa1u8, key]);
}

/// Writing the `n`-th entry moves it from what is still to be written to what is.
proof fn entry_written(
    a: AdvertisementView,
    n: nat,
    before: Seq<u8>,
    key: u8,
    value: Seq<u8>,
    after: Seq<u8>,
)
    requires
        n < 11,
        nth_entry(a, n) == entry(key, value),
        before + entries_from(a, n) == packed(a),
        after == before + seq![0xa1u8, key] + value,
    ensures
        after + entries_from(a, n + 1) == packed(a),
{
    assert(after + entries_from(a, n + 1) =~= before + (entry(key, value) + entries_from(
        a,
        n + 1,
    )));
}

/// An advertisement that can be packed and read back without loss.
pub open spec fn packable(a: AdvertisementView) -> bool {
    &&& a.transfer_size <= MAX_EFFICIENT_SIZE * 3
    &&& a.data_size <= usize::MAX
    &&& a.parts <= usize::MAX
    &&& 1 <= a.segment_index <= usize::MAX
    &&& 1 <= a.total_segments <= usize::MAX
    &&& a.hash.len() == 32
    &&& a.random_hash.len() == 4
    &&& a.original_hash.len() == 32
    &&& a.request_id is Some ==> a.request_id->0.len() == 16
    &&& a.hashmap.len() < 4294967296
}

/// The fields that the first `n` entries of a packed advertisement yield.
spec fn fields_upto(a: AdvertisementView, n: nat) -> FieldsView {
    FieldsView {
        transfer_size: if n > 0 { Some(a.transfer_size) } else { None },
        data_size: if n > 1 { Some(a.data_size) } else { None },
        parts: if n > 2 { Some(a.parts) } else { None },
        hash: if n > 3 { Some(a.hash) } else { None },
        random_hash: if n > 4 { Some(a.random_hash) } else { None },
        original_hash: if n > 5 { Some(a.original_hash) } else { None },
        segment_index: if n > 6 { Some(a.segment_index) } else { None },
        total_segments: if n > 7 { Some(a.total_segments) } else { None },
        request_id: if n > 8 { a.request_id } else { None },
        flags: if n > 9 { Some(a.flags) } else { None },
        hashmap: if n > 10 { Some(a.hashmap) } else { None },
    }
}

/// An entry with an integer value is read back as one.
proof fn uint_entry_read_back(key: u8, x: nat, tail: Seq<u8>)
    requires
        x <= u64::MAX,
    ensures
        ({
            let s = entry(key, uint_encoding(x)) + tail;
            &&& s.len() >= 2 && s[0] == 0xa1 && s[1] == key
            &&& uint_at(s.skip(2)) == Some((x, uint_encoding(x).len()))
            &&& s.skip(2 + uint_encoding(x).len() as int) == tail
        }),
{
    let s = entry(key, uint_encoding(x)) + tail;
    assert(s.skip(2) =~= uint_encoding(x) + tail);
    assert(s.skip(2 + uint_encoding(x).len() as int) =~= tail);
    msgpack::uint_round_trip(x, tail);
}

/// An entry with a binary value is read back as one.
proof fn bin_entry_read_back(key: u8, x: Seq<u8>, tail: Seq<u8>)
    requires
        x.len() < 4294967296,
    ensures
        ({
            let s = entry(key, bin_encoding(x)) + tail;
            &&& s.len() >= 2 && s[0] == 0xa1 && s[1] == key
            &&& bin_at(s.skip(2)) == Some((x, bin_encoding(x).len()))
            &&& s.skip(2)[0] != 0xc0
            &&& s.skip(2 + bin_encoding(x).len() as int) == tail
        }),
{
    let s = entry(key, bin_encoding(x)) + tail;
    assert(s.skip(2) =~= bin_encoding(x) + tail);
    assert(s.skip(2 + bin_encoding(x).len() as int) =~= tail);
    msgpack::bin_round_trip(x, tail);
}

/// Reading the `n`-th entry of a packed advertisement adds its field.
proof fn entry_read_back(a: AdvertisementView, n: nat)
    requires
        packable(a),
        n < 11,
    ensures
        read_entry_at(entries_from(a, n), fields_upto(a, n)) == Some(
            (fields_upto(a, n + 1), nth_entry(a, n).len()),
        ),
        entries_from(a, n).skip(nth_entry(a, n).len() as int) == entries_from(a, n + 1),
{
    let tail = entries_from(a, n + 1);
    if n == 0 {
        uint_entry_read_back(0x74, a.transfer_size, tail);
    } else if n == 1 {
        uint_entry_read_back(0x64, a.data_size, tail);
    } else if n == 2 {
        uint_entry_read_back(0x6e, a.parts, tail);
    } else if n == 3 {
        bin_entry_read_back(0x68, a.hash, tail);
    } else if n == 4 {
        bin_entry_read_back(0x72, a.random_hash, tail);
    } else if n == 5 {
        bin_entry_read_back(0x6f, a.original_hash, tail);
    } else if n == 6 {
        uint_entry_read_back(0x69, a.segment_index, tail);
    } else if n == 7 {
        uint_entry_read_back(0x6c, a.total_segments, tail);
    } else if n == 8 {
        if a.request_id is Some {
            bin_entry_read_back(0x71, a.request_id->0, tail);
        } else {
            let s = entry(0x71, seq![0xc0u8]) + tail;
            assert(s.skip(2)[0] == 0xc0);
            assert(s.skip(3) =~= tail);
        }
    } else if n == 9 {
        uint_entry_read_back(0x66, a.flags as nat, tail);
    } else {
        bin_entry_read_back(0x6d, a.hashmap, tail);
    }
}

/// Reading the entries of a packed advertisement from the `n`-th on yields all of its fields.
proof fn entries_read_back(a: AdvertisementView, n: nat)
    requires
        packable(a),
        n <= 11,
    ensures
        read_entries_at(entries_from(a, n), (11 - n) as nat, fields_upto(a, n)) == Some(
            fields_upto(a, 11),
        ),
    decreases 11 - n,
{
    if n < 11 {
        entry_read_back(a, n);
        entries_read_back(a, n + 1);
    }
}

/// Unpacking a packed advertisement gives it back.
pub proof fn unpack_inverts_pack(a: AdvertisementView)
    requires
        packable(a),
    ensures
        unpacked(packed(a)) == Some(a),
{
    entries_read_back(a, 0);
    assert(packed(a).skip(1) =~= entries_from(a, 0));
    assert(fields_upto(a, 0) =~= no_fields());
}

/// Whatever unpacking accepts has a bounded transfer size and positive segment counts.
pub proof fn unpacked_is_bounded(s: Seq<u8>)
    requires
        unpacked(s) is Some,
    ensures
        unpacked(s)->0.transfer_size <= MAX_EFFICIENT_SIZE * 3,
        unpacked(s)->0.segment_index >= 1,
        unpacked(s)->0.total_segments >= 1,
{
}

/// A packed advertisement is short enough for a single packet.
pub proof fn packed_len(a: AdvertisementView)
    requires
        a.hash.len() == 32,
        a.random_hash.len() == 4,
        a.original_hash.len() == 32,
        a.request_id is Some ==> a.request_id->0.len() == 16,
        a.hashmap.len() <= 4 * HASHMAP_MAX_LEN,
    ensures
        packed(a).len() <= 512,
{
    reveal_with_fuel(entries_from, 12);
    msgpack::uint_len(a.transfer_size);
    msgpack::uint_len(a.data_size);
    msgpack::uint_len(a.parts);
    msgpack::uint_len(a.segment_index);
    msgpack::uint_len(a.total_segments);
    msgpack::uint_len(a.flags as nat);
    msgpack::bin_len(a.hash);
    msgpack::bin_len(a.random_hash);
    msgpack::bin_len(a.original_hash);
    msgpack::bin_len(a.hashmap);
    if a.request_id is Some {
        msgpack::bin_len(a.request_id->0);
    }
}

} // verus!
