//! Requests and responses: their packing into MessagePack arrays.
//!
//! Timestamps are double-precision seconds, carried as the bits of the number.

use vstd::prelude::*;
use vstd::string::*;

use crate::bytes;
use crate::bytes::be_bytes;
use crate::hash::{sha256_digest, AddressHash};
use crate::msgpack;
use crate::msgpack::{
    array_header, array_len_at, bin_at, bin_encoding, element_at, Element, ElementView,
};

verus! {

/// The wire format of a response: an array of the request id and one element.
pub open spec fn packed_response(request_id: Seq<u8>, response: Seq<u8>) -> Seq<u8> {
    array_header(2) + bin_encoding(request_id) + response
}

/// The request id and the response in a packed response. A binary response is unwrapped; any
/// other element stays as it is encoded.
pub open spec fn unpacked_response(data: Seq<u8>) -> Option<(Seq<u8>, Seq<u8>)> {
    match array_len_at(data) {
        Some((count, n)) => match bin_at(data.skip(n as int)) {
            Some((id, m)) => if count != 2 || id.len() != 16 {
                None
            } else {
                let rest = data.skip(n as int).skip(m as int);
                match element_at(rest) {
                    Some((ElementView::Binary(response), _)) => Some((id, response)),
                    Some((_, len)) => Some((id, rest.take(len as int))),
                    None => None,
                }
            },
            None => None,
        },
        None => None,
    }
}

/// What a packed response becomes, given the element that its body decodes to and what follows
/// that element.
pub fn response_of(
    request_id: AddressHash,
    rest: &[u8],
    element: Option<(Element, &[u8])>,
) -> (r: Option<(AddressHash, Vec<u8>)>)
    requires
        element is Some ==> (element->0).1@.len() <= rest@.len(),
    ensures
        r is Some <==> element is Some,
        r is Some ==> (r->0).0 == request_id,
        r is Some ==> (r->0).1@ == (match (element->0).0@ {
            ElementView::Binary(response) => response,
            _ => rest@.take(rest@.len() - (element->0).1@.len()),
        }),
{
    let (element, tail) = element?;
    match element {
        Element::Binary(response) => Some((request_id, response)),
        _ => {
            let response: Vec<u8> = bytes::slice_to_vec(rest, 0, rest.len() - tail.len());
            assert(response@ =~= rest@.take(rest@.len() - tail@.len()));
            Some((request_id, response))
        },
    }
}

/// Unpacks a packed response.
pub fn unpack_response(data: &[u8]) -> (r: Option<(AddressHash, Vec<u8>)>)
    ensures
        match unpacked_response(data@) {
            Some((id, response)) => r is Some && (r->0).0@ == id && (r->0).1@ == response,
            None => r is None,
        },
{
    let (count, rest) = msgpack::read_array_len(data)?;
    if count != 2 {
        return None;
    }
    let (id, rest) = msgpack::read_bin(rest)?;
    let request_id: AddressHash = AddressHash::from_bytes(&id)?;
    let element: Option<(Element, &[u8])> = msgpack::read_element(rest);
    response_of(request_id, rest, element)
}

/// Wraps bytes as a binary element.
pub fn msgpack_bin(data: &[u8]) -> (out: Vec<u8>)
    requires
        data@.len() < 4294967296,
    ensures
        out@ == bin_encoding(data@),
{
    let mut out: Vec<u8> = Vec::new();
    msgpack::write_bin(&mut out, data);
    assert(out@ =~= bin_encoding(data@));
    out
}

/// The wire format of a request: an array of the time, the truncated hash of the path and the
/// payload.
pub open spec fn packed_request(time_bits: u64, path: Seq<u8>, data: Seq<u8>) -> Seq<u8> {
    array_header(3) + (seq![0xcbu8] + be_bytes(time_bits as nat, 8)) + bin_encoding(
        sha256_digest(path).subrange(0, 16),
    ) + bin_encoding(data)
}

/// Packs a request for `path` made at the time with the given bits.
pub fn pack_request(path: &str, data: &[u8], time_bits: u64) -> (out: Vec<u8>)
    requires
        data@.len() < 4294967296,
    ensures
        out@ == packed_request(time_bits, path.spec_bytes(), data@),
{
    let mut out: Vec<u8> = Vec::new();
    msgpack::write_array_len(&mut out, 3);
    msgpack::write_double(&mut out, time_bits);
    let path_hash: AddressHash = AddressHash::new_from_slice(path.as_bytes());
    msgpack::write_bin(&mut out, path_hash.as_slice());
    msgpack::write_bin(&mut out, data);
    assert(out@ =~= packed_request(time_bits, path.spec_bytes(), data@));
    out
}

/// The id of a packed request: its truncated hash.
pub fn request_id(packed_request: &[u8]) -> (r: AddressHash)
    ensures
        r@ == sha256_digest(packed_request@).subrange(0, 16),
{
    AddressHash::new_from_slice(packed_request)
}

/// The time, path hash and payload that three decoded elements make up.
pub open spec fn request_fields(time: ElementView, path: ElementView, payload: ElementView) -> Option<
    (u64, Seq<u8>, Seq<u8>),
> {
    match (time, path) {
        (ElementView::Number(bits), ElementView::Binary(path)) => if path.len() != 16 {
            None
        } else {
            match payload {
                ElementView::Nil => Some((bits, path, Seq::empty())),
                ElementView::Binary(payload) => Some((bits, path, payload)),
                _ => None,
            }
        },
        _ => None,
    }
}

/// The time, path hash and payload in a packed request; a nil payload is an empty one.
pub open spec fn unpacked_request(data: Seq<u8>) -> Option<(u64, Seq<u8>, Seq<u8>)> {
    match array_len_at(data) {
        None => None,
        Some((count, n)) => {
            let a = data.skip(n as int);
            match element_at(a) {
                None => None,
                Some((time, n1)) => {
                    let b = a.skip(n1 as int);
                    match element_at(b) {
                        None => None,
                        Some((path, n2)) => match element_at(b.skip(n2 as int)) {
                            None => None,
                            Some((payload, _)) => if count == 3 {
                                request_fields(time, path, payload)
                            } else {
                                None
                            },
                        },
                    }
                },
            }
        },
    }
}

/// Checks the decoded elements of a request.
pub fn request_of(time: Element, path: Element, payload: Element) -> (r: Option<
    (u64, AddressHash, Vec<u8>),
>)
    ensures
        match request_fields(time@, path@, payload@) {
            Some((bits, path, payload)) => r is Some && (r->0).0 == bits && (r->0).1@ == path && (
            r->0).2@ == payload,
            None => r is None,
        },
{
    match (time, path) {
        (Element::Number(bits), Element::Binary(path)) => {
            let path_hash: AddressHash = AddressHash::from_bytes(&path)?;
            match payload {
                Element::Nil => Some((bits, path_hash, Vec::new())),
                Element::Binary(payload) => Some((bits, path_hash, payload)),
                _ => None,
            }
        },
        _ => None,
    }
}

/// Unpacks a packed request into the bits of its time, the path hash and the payload.
pub fn unpack_request(data: &[u8]) -> (r: Option<(u64, AddressHash, Vec<u8>)>)
    ensures
        match unpacked_request(data@) {
            Some((bits, path, payload)) => r is Some && (r->0).0 == bits && (r->0).1@ == path && (
            r->0).2@ == payload,
            None => r is None,
        },
{
    let (count, rest) = msgpack::read_array_len(data)?;
    if count != 3 {
        return None;
    }
    let (time, rest) = msgpack::read_element(rest)?;
    let (path, rest) = msgpack::read_element(rest)?;
    let (payload, _) = msgpack::read_element(rest)?;
    request_of(time, path, payload)
}

/// Packs a response, which must be one encoded element already, for a request.
pub fn pack_response(request_id: &AddressHash, response: &[u8]) -> (out: Vec<u8>)
    ensures
        out@ == packed_response(request_id@, response@),
{
    let mut out: Vec<u8> = Vec::new();
    msgpack::write_array_len(&mut out, 2);
    msgpack::write_bin(&mut out, request_id.as_slice());
    bytes::append(&mut out, response);
    assert(out@ =~= packed_response(request_id@, response@));
    out
}

/// A binary element at the head of a byte string decodes to its content.
proof fn binary_element(data: Seq<u8>, tail: Seq<u8>)
    requires
        data.len() < 4294967296,
    ensures
        element_at(bin_encoding(data) + tail) == Some(
            (ElementView::Binary(data), bin_encoding(data).len()),
        ),
{
    msgpack::bin_round_trip(data, tail);
    let s = bin_encoding(data) + tail;
    assert(s[0] == bin_encoding(data)[0]);
}

/// A response that wraps bytes is unpacked to the request id and those bytes.
pub proof fn response_round_trip(id: Seq<u8>, response: Seq<u8>)
    requires
        id.len() == 16,
        response.len() < 4294967296,
    ensures
        unpacked_response(packed_response(id, bin_encoding(response))) == Some((id, response)),
{
    let data = packed_response(id, bin_encoding(response));
    let rest = bin_encoding(id) + bin_encoding(response);
    assert(data.skip(1) =~= rest);
    msgpack::bin_round_trip(id, bin_encoding(response));
    assert(rest.skip(bin_encoding(id).len() as int) =~= bin_encoding(response) + Seq::<
        u8,
    >::empty());
    binary_element(response, Seq::empty());
}

/// A time with these bits is a finite number.
pub open spec fn finite_time(bits: u64) -> bool {
    (bits / 4503599627370496) % 2048 != 2047
}

/// A request made at a finite time is unpacked to that time, the truncated hash of its path and
/// its payload.
pub proof fn request_round_trip(time_bits: u64, path: Seq<u8>, data: Seq<u8>)
    requires
        finite_time(time_bits),
        sha256_digest(path).len() == 32,
        data.len() < 4294967296,
    ensures
        unpacked_request(packed_request(time_bits, path, data)) == Some(
            (time_bits, sha256_digest(path).subrange(0, 16), data),
        ),
{
    let hash = sha256_digest(path).subrange(0, 16);
    let packed = packed_request(time_bits, path, data);
    let double = seq![0xcbu8] + be_bytes(time_bits as nat, 8);
    reveal_with_fuel(bytes::byte_span, 9);
    bytes::be_round_trip(time_bits as nat, 8);
    let a = double + (bin_encoding(hash) + bin_encoding(data));
    assert(packed.skip(1) =~= a);
    assert(a.subrange(1, 9) =~= be_bytes(time_bits as nat, 8));
    assert(msgpack::double_bits(a) == time_bits);
    let b = bin_encoding(hash) + bin_encoding(data);
    assert(a.skip(9) =~= b);
    binary_element(hash, bin_encoding(data));
    assert(b.skip(bin_encoding(hash).len() as int) =~= bin_encoding(data) + Seq::<u8>::empty());
    binary_element(data, Seq::empty());
}

} // verus!
