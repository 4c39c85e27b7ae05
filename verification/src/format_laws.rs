//! What holds of the bytes that values travel as: which markers they begin with and how many bytes
//! follow.

use vstd::prelude::*;

use crate::bytes::be_bytes;
use crate::hash::sha256_digest;
use crate::msgpack::{
    array_header, array_len_at, bin_at, bin_encoding, canonical, double_encoding, element_at, map_header,
    map_len_at, str_at, str_encoding, uint_at, uint_encoding, ElementView,
};
use crate::resource::advertisement::{
    at_least_one, complete, nth_entry, packed, request_id_encoding, unpacked, AdvertisementView,
    FieldsView,
};
use crate::resource::outbound::flag_bits;
use crate::resource::request::{
    packed_request, packed_response, request_fields, unpacked_request, unpacked_response,
};

verus! {

/// The bytes of a number, the most significant first.
pub proof fn numbers_begin_with_their_highest_byte(v: nat, n: nat)
    ensures
        be_bytes(v, n + 1) == be_bytes(v / 256, n).push((v % 256) as u8),
        be_bytes(v, 0).len() == 0,
        v < 256 ==> be_bytes(v, 1) == seq![v as u8],
        v < 65536 ==> be_bytes(v, 2) == seq![(v / 256) as u8, (v % 256) as u8],
{
    reveal_with_fuel(be_bytes, 3);
}

/// An unsigned number takes the shortest of its forms: itself, or a marker and one, two, four or
/// eight bytes.
pub proof fn numbers_have_markers(v: nat)
    ensures
        v < 128 ==> uint_encoding(v) == seq![v as u8],
        128 <= v < 256 ==> uint_encoding(v) == seq![0xccu8] + be_bytes(v, 1),
        256 <= v < 65536 ==> uint_encoding(v) == seq![0xcdu8] + be_bytes(v, 2),
        65536 <= v < 4294967296 ==> uint_encoding(v) == seq![0xceu8] + be_bytes(v, 4),
        v >= 4294967296 ==> uint_encoding(v) == seq![0xcfu8] + be_bytes(v, 8),
{
    reveal(uint_encoding);
    reveal_with_fuel(be_bytes, 2);
}

/// A binary string is its marker, its length in one, two or four bytes, and its bytes.
pub proof fn binary_strings_have_markers(data: Seq<u8>)
    ensures
        data.len() < 256 ==> bin_encoding(data) == seq![0xc4u8] + be_bytes(data.len(), 1) + data,
        256 <= data.len() < 65536 ==> bin_encoding(data) == seq![0xc5u8] + be_bytes(data.len(), 2)
            + data,
        data.len() >= 65536 ==> bin_encoding(data) == seq![0xc6u8] + be_bytes(data.len(), 4) + data,
{
    reveal(bin_encoding);
}

/// A short text begins with its length above 0xa0; longer ones have a marker and a length.
pub proof fn texts_have_markers(data: Seq<u8>)
    ensures
        data.len() < 32 ==> str_encoding(data) == seq![(0xa0 + data.len()) as u8] + data,
        32 <= data.len() < 256 ==> str_encoding(data) == seq![0xd9u8] + be_bytes(data.len(), 1)
            + data,
        256 <= data.len() < 65536 ==> str_encoding(data) == seq![0xdau8] + be_bytes(data.len(), 2)
            + data,
        data.len() >= 65536 ==> str_encoding(data) == seq![0xdbu8] + be_bytes(data.len(), 4) + data,
{
    reveal(str_encoding);
}

/// Lists and tables begin with their length, short ones in one byte.
pub proof fn collections_have_markers(n: nat, bits: u64)
    ensures
        n < 16 ==> array_header(n) == seq![(0x90 + n) as u8],
        16 <= n < 65536 ==> array_header(n) == seq![0xdcu8] + be_bytes(n, 2),
        n >= 65536 ==> array_header(n) == seq![0xddu8] + be_bytes(n, 4),
        n < 16 ==> map_header(n) == seq![(0x80 + n) as u8],
        16 <= n < 65536 ==> map_header(n) == seq![0xdeu8] + be_bytes(n, 2),
        n >= 65536 ==> map_header(n) == seq![0xdfu8] + be_bytes(n, 4),
        double_encoding(bits) == seq![0xcbu8] + be_bytes(bits as nat, 8),
{
    reveal(double_encoding);
}

/// What is cut short, or begins with another marker, is not read.
pub proof fn other_values_are_refused(s: Seq<u8>)
    ensures
        s.len() == 0 ==> uint_at(s) is None && bin_at(s) is None && str_at(s) is None
            && array_len_at(s) is None && map_len_at(s) is None,
        uint_at(s) is Some ==> s[0] < 0x80 || 0xcc <= s[0] <= 0xcf || 0xd0 <= s[0] <= 0xd3,
        uint_at(s) is Some ==> (uint_at(s)->0).1 <= s.len(),
        bin_at(s) is Some ==> 0xc4 <= s[0] <= 0xc6 && (bin_at(s)->0).1 <= s.len(),
        str_at(s) is Some ==> 0xa0 <= s[0] <= 0xbf || 0xd9 <= s[0] <= 0xdb,
        array_len_at(s) is Some ==> 0x90 <= s[0] <= 0x9f || s[0] == 0xdc || s[0] == 0xdd,
        map_len_at(s) is Some ==> 0x80 <= s[0] <= 0x8f || s[0] == 0xde || s[0] == 0xdf,
        s.len() > 0 && s[0] == 0xc0 ==> element_at(s) == Some((ElementView::Nil, 1nat)),
{
    reveal(uint_at);
    reveal(bin_at);
    reveal(str_at);
}

/// A number with a sign is read where it is not negative.
pub proof fn negative_numbers_are_refused(s: Seq<u8>)
    requires
        s.len() >= 2,
        0xd0 <= s[0] <= 0xd3,
        s[1] >= 0x80,
    ensures
        uint_at(s) is None,
{
    reveal(uint_at);
}

/// Numbers stay as they are, but all that are no numbers become the same one.
pub proof fn no_numbers_are_alike(bits: u64)
    ensures
        bits / 4503599627370496 % 2048 == 2047 && bits % 4503599627370496 != 0 ==> canonical(
            ElementView::Number(bits),
        ) == ElementView::Number(0x7ff8_0000_0000_0000),
        bits / 4503599627370496 % 2048 != 2047 || bits % 4503599627370496 == 0 ==> canonical(
            ElementView::Number(bits),
        ) == ElementView::Number(bits),
        canonical(ElementView::Nil) == ElementView::Nil,
{
}

/// An advertisement is a table of eleven entries, each under one letter: t, d, n, h, r, o, i, l, q,
/// f and m, in this order.
pub proof fn advertisements_have_letters(a: AdvertisementView)
    ensures
        packed(a)[0] == 0x8b,
        nth_entry(a, 0) == seq![0xa1u8, 't' as u8] + uint_encoding(a.transfer_size),
        nth_entry(a, 1) == seq![0xa1u8, 'd' as u8] + uint_encoding(a.data_size),
        nth_entry(a, 2) == seq![0xa1u8, 'n' as u8] + uint_encoding(a.parts),
        nth_entry(a, 3) == seq![0xa1u8, 'h' as u8] + bin_encoding(a.hash),
        nth_entry(a, 4) == seq![0xa1u8, 'r' as u8] + bin_encoding(a.random_hash),
        nth_entry(a, 5) == seq![0xa1u8, 'o' as u8] + bin_encoding(a.original_hash),
        nth_entry(a, 6) == seq![0xa1u8, 'i' as u8] + uint_encoding(a.segment_index),
        nth_entry(a, 7) == seq![0xa1u8, 'l' as u8] + uint_encoding(a.total_segments),
        a.request_id is None ==> nth_entry(a, 8) == seq![0xa1u8, 'q' as u8] + seq![0xc0u8],
        a.request_id is Some ==> nth_entry(a, 8) == seq![0xa1u8, 'q' as u8] + bin_encoding(
            a.request_id->0,
        ),
        nth_entry(a, 9) == seq![0xa1u8, 'f' as u8] + uint_encoding(a.flags as nat),
        nth_entry(a, 10) == seq![0xa1u8, 'm' as u8] + bin_encoding(a.hashmap),
        packed(a) == seq![0x8bu8] + (nth_entry(a, 0) + (nth_entry(a, 1) + (nth_entry(a, 2) + (
        nth_entry(a, 3) + (nth_entry(a, 4) + (nth_entry(a, 5) + (nth_entry(a, 6) + (nth_entry(a, 7)
            + (nth_entry(a, 8) + (nth_entry(a, 9) + nth_entry(a, 10))))))))))),
{
    reveal_with_fuel(crate::resource::advertisement::entries_from, 12);
    assert(nth_entry(a, 10) + Seq::<u8>::empty() =~= nth_entry(a, 10));
}

/// An advertisement that lacks a size, a count or a hash is refused, and so is one of more than
/// three times 1048575 bytes. Segments are counted from one where nothing else is said.
pub proof fn advertisements_need_their_sizes(f: FieldsView)
    ensures
        complete(f) is Some <==> {
            &&& f.transfer_size is Some
            &&& f.data_size is Some
            &&& f.parts is Some
            &&& f.hash is Some
            &&& f.random_hash is Some
            &&& f.original_hash is Some
            &&& f.transfer_size->0 <= 3145725
        },
        complete(f) is Some ==> {
            let a = complete(f)->0;
            &&& a.transfer_size == f.transfer_size->0 && a.data_size == f.data_size->0 && a.parts
                == f.parts->0
            &&& a.hash == f.hash->0 && a.random_hash == f.random_hash->0 && a.original_hash
                == f.original_hash->0
            &&& a.request_id == f.request_id
            &&& a.segment_index >= 1 && a.total_segments >= 1
            &&& f.segment_index is Some && f.segment_index->0 >= 1 ==> a.segment_index
                == f.segment_index->0
            &&& f.segment_index is None || f.segment_index->0 == 0 ==> a.segment_index == 1
            &&& f.total_segments is Some && f.total_segments->0 >= 1 ==> a.total_segments
                == f.total_segments->0
            &&& f.total_segments is None || f.total_segments->0 == 0 ==> a.total_segments == 1
            &&& f.flags is Some ==> a.flags == f.flags->0
            &&& f.flags is None ==> a.flags == 0
            &&& f.hashmap is Some ==> a.hashmap == f.hashmap->0
            &&& f.hashmap is None ==> a.hashmap.len() == 0
        },
{
}

/// An advertisement of other than eleven entries is refused.
pub proof fn advertisements_have_eleven_entries(s: Seq<u8>)
    ensures
        unpacked(s) is Some ==> map_len_at(s) is Some && (map_len_at(s)->0).0 == 11,
{
}

/// The flags of an advertisement: one bit each for encryption, compression, splitting, requests,
/// responses and metadata, from the lowest up.
pub proof fn flags_have_bits(
    encrypted: bool,
    compressed: bool,
    split: bool,
    has_metadata: bool,
    request: bool,
    is_response: bool,
)
    ensures
        ({
            let flags = flag_bits(encrypted, compressed, split, has_metadata, request, is_response);
            &&& (flags & 1 != 0) == encrypted
            &&& (flags & 2 != 0) == compressed
            &&& (flags & 4 != 0) == split
            &&& (flags & 8 != 0) == (request && !is_response)
            &&& (flags & 16 != 0) == (request && is_response)
            &&& (flags & 32 != 0) == has_metadata
        }),
{
    crate::resource::outbound::flag_bits_independent(
        encrypted,
        compressed,
        split,
        has_metadata,
        request,
        is_response,
    );
}

/// A request is a list of its time, the hash of its path and its data; a response is one of the
/// request's number and the answer.
pub proof fn requests_and_responses_are_lists(
    time_bits: u64,
    path: Seq<u8>,
    data: Seq<u8>,
    id: Seq<u8>,
)
    ensures
        packed_request(time_bits, path, data) == seq![0x93u8] + (seq![0xcbu8] + be_bytes(
            time_bits as nat,
            8,
        )) + bin_encoding(sha256_digest(path).subrange(0, 16)) + bin_encoding(data),
        packed_response(id, data) == seq![0x92u8] + bin_encoding(id) + data,
{
}

/// The fields of a request: a number, sixteen bytes, and data that may be missing. Anything else is
/// no request.
pub proof fn requests_have_three_fields(
    time: ElementView,
    path: ElementView,
    payload: ElementView,
    bits: u64,
    hash: Seq<u8>,
    data: Seq<u8>,
)
    ensures
        hash.len() == 16 ==> request_fields(
            ElementView::Number(bits),
            ElementView::Binary(hash),
            ElementView::Binary(data),
        ) == Some((bits, hash, data)),
        hash.len() == 16 ==> request_fields(
            ElementView::Number(bits),
            ElementView::Binary(hash),
            ElementView::Nil,
        ) == Some((bits, hash, Seq::<u8>::empty())),
        request_fields(time, path, payload) is Some ==> {
            &&& time is Number
            &&& path is Binary
            &&& path->Binary_0.len() == 16
            &&& payload is Nil || payload is Binary
        },
{
}

/// What is no list of two, or names the request by other than sixteen bytes, is no response; what is
/// no list of three is no request.
pub proof fn other_lists_are_refused(data: Seq<u8>)
    ensures
        unpacked_response(data) is Some ==> {
            &&& array_len_at(data) is Some
            &&& (array_len_at(data)->0).0 == 2
            &&& (unpacked_response(data)->0).0.len() == 16
        },
        unpacked_request(data) is Some ==> {
            &&& array_len_at(data) is Some
            &&& (array_len_at(data)->0).0 == 3
            &&& (unpacked_request(data)->0).1.len() == 16
        },
{
}

} // verus!
