//! MessagePack elements: the encodings that the protocol uses, and the calls into `rmp` and
//! `rmpv` that produce and consume them.

use vstd::prelude::*;

use crate::bytes;
use crate::bytes::{be_bytes, be_value};

verus! {

/// The shortest MessagePack encoding of an unsigned integer.
#[verifier::opaque]
pub open spec fn uint_encoding(v: nat) -> Seq<u8> {
    if v < 128 {
        be_bytes(v, 1)
    } else if v < 256 {
        seq![0xccu8] + be_bytes(v, 1)
    } else if v < 65536 {
        seq![0xcdu8] + be_bytes(v, 2)
    } else if v < 4294967296 {
        seq![0xceu8] + be_bytes(v, 4)
    } else {
        seq![0xcfu8] + be_bytes(v, 8)
    }
}

/// The shortest MessagePack header of a binary string of length `n`.
pub open spec fn bin_header(n: nat) -> Seq<u8> {
    if n < 256 {
        seq![0xc4u8] + be_bytes(n, 1)
    } else if n < 65536 {
        seq![0xc5u8] + be_bytes(n, 2)
    } else {
        seq![0xc6u8] + be_bytes(n, 4)
    }
}

/// The MessagePack encoding of a binary string.
#[verifier::opaque]
pub open spec fn bin_encoding(data: Seq<u8>) -> Seq<u8> {
    bin_header(data.len()) + data
}

/// The MessagePack header of an array of `n` elements.
pub open spec fn array_header(n: nat) -> Seq<u8> {
    if n < 16 {
        seq![(0x90 + n) as u8]
    } else if n < 65536 {
        seq![0xdcu8] + be_bytes(n, 2)
    } else {
        seq![0xddu8] + be_bytes(n, 4)
    }
}

/// The big-endian number in the `width` bytes behind the marker, with the bytes read so far.
pub open spec fn number_behind_marker(s: Seq<u8>, width: nat) -> Option<(nat, nat)> {
    if s.len() < 1 + width {
        None
    } else {
        Some((be_value(s.subrange(1, 1 + width as int)), 1 + width))
    }
}

/// The non-negative integer at the head of `s`, with the bytes it takes. Signed encodings count
/// when their value is not negative.
#[verifier::opaque]
pub open spec fn uint_at(s: Seq<u8>) -> Option<(nat, nat)> {
    if s.len() == 0 {
        None
    } else if s[0] < 0x80 {
        Some((s[0] as nat, 1))
    } else if s[0] == 0xcc || s[0] == 0xd0 {
        signed_check(s, number_behind_marker(s, 1))
    } else if s[0] == 0xcd || s[0] == 0xd1 {
        signed_check(s, number_behind_marker(s, 2))
    } else if s[0] == 0xce || s[0] == 0xd2 {
        signed_check(s, number_behind_marker(s, 4))
    } else if s[0] == 0xcf || s[0] == 0xd3 {
        signed_check(s, number_behind_marker(s, 8))
    } else {
        None
    }
}

/// Drops a number whose marker is a signed one and whose sign bit is set.
pub open spec fn signed_check(s: Seq<u8>, number: Option<(nat, nat)>) -> Option<(nat, nat)> {
    if number is Some && s[0] >= 0xd0 && s[1] >= 0x80 {
        None
    } else {
        number
    }
}

/// The length in a binary header at the head of `s`, with the bytes the header takes.
pub open spec fn bin_len_at(s: Seq<u8>) -> Option<(nat, nat)> {
    if s.len() == 0 {
        None
    } else if s[0] == 0xc4 {
        number_behind_marker(s, 1)
    } else if s[0] == 0xc5 {
        number_behind_marker(s, 2)
    } else if s[0] == 0xc6 {
        number_behind_marker(s, 4)
    } else {
        None
    }
}

/// The binary string at the head of `s`, with the bytes it takes.
#[verifier::opaque]
pub open spec fn bin_at(s: Seq<u8>) -> Option<(Seq<u8>, nat)> {
    match bin_len_at(s) {
        Some((len, n)) => if n + len <= s.len() {
            Some((s.subrange(n as int, (n + len) as int), n + len))
        } else {
            None
        },
        None => None,
    }
}

/// The length in an array header at the head of `s`, with the bytes the header takes.
pub open spec fn array_len_at(s: Seq<u8>) -> Option<(nat, nat)> {
    if s.len() == 0 {
        None
    } else if 0x90 <= s[0] < 0xa0 {
        Some(((s[0] - 0x90) as nat, 1))
    } else if s[0] == 0xdc {
        number_behind_marker(s, 2)
    } else if s[0] == 0xdd {
        number_behind_marker(s, 4)
    } else {
        None
    }
}

/// The length in a map header at the head of `s`, with the bytes the header takes.
pub open spec fn map_len_at(s: Seq<u8>) -> Option<(nat, nat)> {
    if s.len() == 0 {
        None
    } else if 0x80 <= s[0] < 0x90 {
        Some(((s[0] - 0x80) as nat, 1))
    } else if s[0] == 0xde {
        number_behind_marker(s, 2)
    } else if s[0] == 0xdf {
        number_behind_marker(s, 4)
    } else {
        None
    }
}

/// The MessagePack header of a map of `n` entries.
pub open spec fn map_header(n: nat) -> Seq<u8> {
    if n < 16 {
        seq![(0x80 + n) as u8]
    } else if n < 65536 {
        seq![0xdeu8] + be_bytes(n, 2)
    } else {
        seq![0xdfu8] + be_bytes(n, 4)
    }
}

/// The shortest MessagePack header of a text of `n` bytes.
pub open spec fn str_header(n: nat) -> Seq<u8> {
    if n < 32 {
        seq![(0xa0 + n) as u8]
    } else if n < 256 {
        seq![0xd9u8] + be_bytes(n, 1)
    } else if n < 65536 {
        seq![0xdau8] + be_bytes(n, 2)
    } else {
        seq![0xdbu8] + be_bytes(n, 4)
    }
}

/// The MessagePack encoding of a text, given by its bytes.
#[verifier::opaque]
pub open spec fn str_encoding(data: Seq<u8>) -> Seq<u8> {
    str_header(data.len()) + data
}

/// The length in a text header at the head of `s`, with the bytes the header takes.
pub open spec fn str_len_at(s: Seq<u8>) -> Option<(nat, nat)> {
    if s.len() == 0 {
        None
    } else if 0xa0 <= s[0] < 0xc0 {
        Some(((s[0] - 0xa0) as nat, 1))
    } else if s[0] == 0xd9 {
        number_behind_marker(s, 1)
    } else if s[0] == 0xda {
        number_behind_marker(s, 2)
    } else if s[0] == 0xdb {
        number_behind_marker(s, 4)
    } else {
        None
    }
}

/// The bytes of the text at the head of `s`, with the bytes that it takes.
#[verifier::opaque]
pub open spec fn str_at(s: Seq<u8>) -> Option<(Seq<u8>, nat)> {
    match str_len_at(s) {
        Some((len, n)) => if n + len <= s.len() {
            Some((s.subrange(n as int, (n + len) as int), n + len))
        } else {
            None
        },
        None => None,
    }
}

/// The MessagePack encoding of a double-precision number, given by its bits.
#[verifier::opaque]
pub open spec fn double_encoding(bits: u64) -> Seq<u8> {
    seq![0xcbu8] + be_bytes(bits as nat, 8)
}

/// Appends a map header with `rmp::encode::write_map_len`.
#[verifier::external_body]
pub(crate) fn write_map_len(out: &mut Vec<u8>, len: u32)
    ensures
        final(out)@ == old(out)@ + map_header(len as nat),
{
    rmp::encode::write_map_len(out, len).unwrap();
}

/// Appends a text header with `rmp::encode::write_str_len`, the shortest for the length.
#[verifier::external_body]
pub(crate) fn write_str_len(out: &mut Vec<u8>, len: u32)
    ensures
        final(out)@ == old(out)@ + str_header(len as nat),
{
    rmp::encode::write_str_len(out, len).unwrap();
}

/// Reads a text header with `rmp::decode::read_str_len`, and hands back what follows it.
#[verifier::external_body]
pub(crate) fn read_str_len(data: &[u8]) -> (r: Option<(u32, &[u8])>)
    ensures
        r is Some <==> str_len_at(data@) is Some,
        r is Some ==> (r->0).0 == (str_len_at(data@)->0).0,
        r is Some ==> (r->0).1@ == data@.skip((str_len_at(data@)->0).1 as int),
{
    let mut cursor = data;
    match rmp::decode::read_str_len(&mut cursor) {
        Ok(len) => Some((len, cursor)),
        Err(_) => None,
    }
}

/// Appends an unsigned integer with `rmp::encode::write_uint`, which picks the shortest
/// encoding. Writing to a `Vec` cannot fail.
#[verifier::external_body]
pub(crate) fn write_uint(out: &mut Vec<u8>, v: u64)
    ensures
        final(out)@ == old(out)@ + uint_encoding(v as nat),
{
    rmp::encode::write_uint(out, v).unwrap();
}

/// Appends a binary string with `rmp::encode::write_bin`: the shortest header for its length,
/// then the bytes. The length is cut to 32 bits, so longer strings are left out.
#[verifier::external_body]
pub(crate) fn write_bin(out: &mut Vec<u8>, data: &[u8])
    requires
        data@.len() < 4294967296,
    ensures
        final(out)@ == old(out)@ + bin_encoding(data@),
{
    rmp::encode::write_bin(out, data).unwrap();
}

/// Appends the nil element with `rmp::encode::write_nil`: the single byte `0xc0`.
#[verifier::external_body]
pub(crate) fn write_nil(out: &mut Vec<u8>)
    ensures
        final(out)@ == old(out)@.push(0xc0),
{
    rmp::encode::write_nil(out).unwrap();
}

/// Appends an array header with `rmp::encode::write_array_len`.
#[verifier::external_body]
pub(crate) fn write_array_len(out: &mut Vec<u8>, len: u32)
    ensures
        final(out)@ == old(out)@ + array_header(len as nat),
{
    rmp::encode::write_array_len(out, len).unwrap();
}

/// Reads an unsigned integer with `rmp::decode::read_int`, and hands back what follows it. Every
/// integer encoding is accepted, as long as the value is not negative.
#[verifier::external_body]
pub(crate) fn read_uint(data: &[u8]) -> (r: Option<(u64, &[u8])>)
    ensures
        r is Some <==> uint_at(data@) is Some,
        r is Some ==> (r->0).0 == (uint_at(data@)->0).0,
        r is Some ==> (r->0).1@ == data@.skip((uint_at(data@)->0).1 as int),
{
    let mut cursor = data;
    match rmp::decode::read_int(&mut cursor) {
        Ok(value) => Some((value, cursor)),
        Err(_) => None,
    }
}

/// Reads a binary header with `rmp::decode::read_bin_len`, and hands back what follows it.
#[verifier::external_body]
pub(crate) fn read_bin_len(data: &[u8]) -> (r: Option<(u32, &[u8])>)
    ensures
        r is Some <==> bin_len_at(data@) is Some,
        r is Some ==> (r->0).0 == (bin_len_at(data@)->0).0,
        r is Some ==> (r->0).1@ == data@.skip((bin_len_at(data@)->0).1 as int),
{
    let mut cursor = data;
    match rmp::decode::read_bin_len(&mut cursor) {
        Ok(len) => Some((len, cursor)),
        Err(_) => None,
    }
}

/// Reads an array header with `rmp::decode::read_array_len`, and hands back what follows it.
#[verifier::external_body]
pub(crate) fn read_array_len(data: &[u8]) -> (r: Option<(u32, &[u8])>)
    ensures
        r is Some <==> array_len_at(data@) is Some,
        r is Some ==> (r->0).0 == (array_len_at(data@)->0).0,
        r is Some ==> (r->0).1@ == data@.skip((array_len_at(data@)->0).1 as int),
{
    let mut cursor = data;
    match rmp::decode::read_array_len(&mut cursor) {
        Ok(len) => Some((len, cursor)),
        Err(_) => None,
    }
}

/// Reads a map header with `rmp::decode::read_map_len`, and hands back what follows it.
#[verifier::external_body]
pub(crate) fn read_map_len(data: &[u8]) -> (r: Option<(u32, &[u8])>)
    ensures
        r is Some <==> map_len_at(data@) is Some,
        r is Some ==> (r->0).0 == (map_len_at(data@)->0).0,
        r is Some ==> (r->0).1@ == data@.skip((map_len_at(data@)->0).1 as int),
{
    let mut cursor = data;
    match rmp::decode::read_map_len(&mut cursor) {
        Ok(len) => Some((len, cursor)),
        Err(_) => None,
    }
}

/// What the library tells apart of a decoded element.
#[derive(Debug, PartialEq, Eq)]
pub enum Element {
    /// No value.
    Nil,
    /// A binary string.
    Binary(Vec<u8>),
    /// A number, as the bits of its double-precision value.
    Number(u64),
    /// Anything else: booleans, strings, arrays, maps and extensions.
    Other,
}

/// The mathematical counterpart of [`Element`].
pub enum ElementView {
    Nil,
    Binary(Seq<u8>),
    Number(u64),
    Other,
}

impl View for Element {
    type V = ElementView;

    open spec fn view(&self) -> ElementView {
        match *self {
            Element::Nil => ElementView::Nil,
            Element::Binary(data) => ElementView::Binary(data@),
            Element::Number(bits) => ElementView::Number(bits),
            Element::Other => ElementView::Other,
        }
    }
}

/// The bits that stand for every number that is not one.
pub const NAN_BITS: u64 = 0x7ff8_0000_0000_0000;

/// Whether a double with these bits is not a number.
pub open spec fn is_nan(bits: u64) -> bool {
    (bits / 4503599627370496) % 2048 == 2047 && bits % 4503599627370496 != 0
}

/// An element with the same bits in place of any that are not a number.
pub open spec fn canonical(element: ElementView) -> ElementView {
    match element {
        ElementView::Number(bits) => if is_nan(bits) {
            ElementView::Number(NAN_BITS)
        } else {
            element
        },
        _ => element,
    }
}

/// The element at the head of a byte string and the bytes it takes, as `rmpv` decodes it, in
/// canonical form; `None` where it cannot.
pub uninterp spec fn decoded_element(data: Seq<u8>) -> Option<(ElementView, nat)>;

/// The bits of a double-precision number behind its marker.
pub open spec fn double_bits(s: Seq<u8>) -> u64 {
    be_value(s.subrange(1, 9)) as u64
}

/// The element starts with a marker whose meaning is a line each: nil, a binary string, or a
/// finite double-precision number.
pub open spec fn is_simple(s: Seq<u8>) -> bool {
    &&& s.len() > 0
    &&& {
        ||| s[0] == 0xc0
        ||| s[0] == 0xc4 || s[0] == 0xc5 || s[0] == 0xc6
        ||| s[0] == 0xcb && s.len() >= 9 && (double_bits(s) / 4503599627370496) % 2048 != 2047
    }
}

/// The element at the head of `s` and the bytes it takes.
pub open spec fn element_at(s: Seq<u8>) -> Option<(ElementView, nat)> {
    if !is_simple(s) {
        decoded_element(s)
    } else if s[0] == 0xc0 {
        Some((ElementView::Nil, 1))
    } else if s[0] == 0xcb {
        Some((ElementView::Number(double_bits(s)), 9))
    } else {
        match bin_at(s) {
            Some((data, n)) => Some((ElementView::Binary(data), n)),
            None => None,
        }
    }
}

/// Decodes one element with `rmpv::decode::read_value`, and hands back what follows it. Nil,
/// binary strings and finite doubles are stated outright; what any other element decodes to is
/// named by [`decoded_element`]. An element takes at least one byte and none past the end. Nothing
/// is claimed of the bits of a number that is not one.
#[verifier::external_body]
fn decode_element(data: &[u8]) -> (r: Option<(Element, &[u8])>)
    ensures
        !is_simple(data@) ==> (r is Some <==> decoded_element(data@) is Some),
        r is Some <==> element_at(data@) is Some,
        r is Some ==> canonical((r->0).0@) == (element_at(data@)->0).0,
        r is Some ==> (r->0).1@ == data@.skip((element_at(data@)->0).1 as int),
        r is Some ==> 1 <= (element_at(data@)->0).1 <= data@.len(),
{
    let mut cursor = data;
    match rmpv::decode::read_value(&mut cursor) {
        Ok(rmpv::Value::Nil) => Some((Element::Nil, cursor)),
        Ok(rmpv::Value::Binary(bytes)) => Some((Element::Binary(bytes), cursor)),
        Ok(value) => match value.as_f64() {
            Some(number) => Some((Element::Number(number.to_bits()), cursor)),
            None => Some((Element::Other, cursor)),
        },
        Err(_) => None,
    }
}

/// Reads one element, and hands back what follows it. A number that is not one has the bits
/// [`NAN_BITS`].
pub(crate) fn read_element(data: &[u8]) -> (r: Option<(Element, &[u8])>)
    ensures
        r is Some <==> element_at(data@) is Some,
        r is Some ==> (r->0).0@ == (element_at(data@)->0).0,
        r is Some ==> (r->0).1@ == data@.skip((element_at(data@)->0).1 as int),
        r is Some ==> 1 <= (element_at(data@)->0).1 <= data@.len(),
{
    match decode_element(data) {
        Some((Element::Number(bits), rest)) => {
            if (bits / 4503599627370496) % 2048 == 2047 && bits % 4503599627370496 != 0 {
                Some((Element::Number(NAN_BITS), rest))
            } else {
                Some((Element::Number(bits), rest))
            }
        },
        other => other,
    }
}

/// Appends a double-precision number given by its bits: the marker `0xcb` and eight big-endian
/// bytes.
pub fn write_double(out: &mut Vec<u8>, bits: u64)
    ensures
        final(out)@ == old(out)@ + (seq![0xcbu8] + be_bytes(bits as nat, 8)),
        final(out)@ == old(out)@ + double_encoding(bits),
{
    reveal(double_encoding);
    out.push(0xcb);
    bytes::append_be64(out, bits);
    assert(out@ =~= old(out)@ + (seq![0xcbu8] + be_bytes(bits as nat, 8)));
}

/// Reads a whole binary string: its header and the bytes that the header promises.
pub fn read_bin(data: &[u8]) -> (r: Option<(Vec<u8>, &[u8])>)
    ensures
        r is Some <==> bin_at(data@) is Some,
        r is Some ==> (r->0).0@ == (bin_at(data@)->0).0,
        r is Some ==> (r->0).1@ == data@.skip((bin_at(data@)->0).1 as int),
{
    reveal(bin_at);
    match read_bin_len(data) {
        Some((len, rest)) => {
            let len: usize = len as usize;
            if rest.len() < len {
                return None;
            }
            let content: Vec<u8> = bytes::slice_to_vec(rest, 0, len);
            let tail: &[u8] = &rest[len..rest.len()];
            proof {
                let n = (bin_len_at(data@)->0).1 as int;
                assert(content@ =~= data@.subrange(n, n + len));
                assert(tail@ =~= data@.skip(n + len));
            }
            Some((content, tail))
        },
        None => None,
    }
}

/// Appends a text, given by its bytes.
pub fn write_str(out: &mut Vec<u8>, data: &[u8])
    requires
        data@.len() < 4294967296,
    ensures
        final(out)@ == old(out)@ + str_encoding(data@),
{
    reveal(str_encoding);
    write_str_len(out, data.len() as u32);
    bytes::append(out, data);
    assert(out@ =~= old(out)@ + str_encoding(data@));
}

/// Reads the bytes of a whole text.
pub fn read_str(data: &[u8]) -> (r: Option<(Vec<u8>, &[u8])>)
    ensures
        r is Some <==> str_at(data@) is Some,
        r is Some ==> (r->0).0@ == (str_at(data@)->0).0,
        r is Some ==> (r->0).1@ == data@.skip((str_at(data@)->0).1 as int),
{
    reveal(str_at);
    match read_str_len(data) {
        Some((len, rest)) => {
            let len: usize = len as usize;
            if rest.len() < len {
                return None;
            }
            let content: Vec<u8> = bytes::slice_to_vec(rest, 0, len);
            let tail: &[u8] = &rest[len..rest.len()];
            proof {
                let n = (str_len_at(data@)->0).1 as int;
                assert(content@ =~= data@.subrange(n, n + len));
                assert(tail@ =~= data@.skip(n + len));
            }
            Some((content, tail))
        },
        None => None,
    }
}

/// Decoding an encoded text gives it back, whatever follows.
pub proof fn str_round_trip(data: Seq<u8>, tail: Seq<u8>)
    requires
        data.len() < 32,
    ensures
        str_at(str_encoding(data) + tail) == Some((data, str_encoding(data).len())),
{
    reveal(str_at);
    reveal(str_encoding);
    let s = str_encoding(data) + tail;
    assert(s.subrange(1, 1 + data.len() as int) =~= data);
}

/// Decoding a map header gives its length back, whatever follows.
pub proof fn map_header_round_trip(n: nat, tail: Seq<u8>)
    requires
        n < 4294967296,
    ensures
        map_len_at(map_header(n) + tail) == Some((n, map_header(n).len())),
{
    let s = map_header(n) + tail;
    let width: nat = if n < 65536 {
        2
    } else {
        4
    };
    reveal_with_fuel(bytes::byte_span, 5);
    bytes::be_round_trip(n, width);
    if n >= 16 {
        assert(s.subrange(1, 1 + width as int) =~= be_bytes(n, width));
    }
}

/// Decoding an array header gives its length back, whatever follows.
pub proof fn array_header_round_trip(n: nat, tail: Seq<u8>)
    requires
        n < 4294967296,
    ensures
        array_len_at(array_header(n) + tail) == Some((n, array_header(n).len())),
{
    let s = array_header(n) + tail;
    let width: nat = if n < 65536 {
        2
    } else {
        4
    };
    reveal_with_fuel(bytes::byte_span, 5);
    bytes::be_round_trip(n, width);
    if n >= 16 {
        assert(s.subrange(1, 1 + width as int) =~= be_bytes(n, width));
    }
}

/// Decoding a finite double gives its bits back, whatever follows.
pub proof fn double_round_trip(bits: u64, tail: Seq<u8>)
    requires
        (bits / 4503599627370496) % 2048 != 2047,
    ensures
        element_at(double_encoding(bits) + tail) == Some((ElementView::Number(bits), 9nat)),
        double_encoding(bits).len() == 9,
        double_encoding(bits)[0] == 0xcb,
{
    reveal(double_encoding);
    let s = double_encoding(bits) + tail;
    reveal_with_fuel(bytes::byte_span, 9);
    bytes::be_round_trip(bits as nat, 8);
    bytes::be_len(bits as nat, 8);
    assert(s.subrange(1, 9) =~= be_bytes(bits as nat, 8));
}

/// Decoding an encoded unsigned integer gives it back, whatever follows.
pub proof fn uint_round_trip(v: nat, tail: Seq<u8>)
    requires
        v <= u64::MAX,
    ensures
        uint_at(uint_encoding(v) + tail) == Some((v, uint_encoding(v).len())),
{
    reveal(uint_at);
    reveal(uint_encoding);
    let s = uint_encoding(v) + tail;
    let width: nat = if v < 256 {
        1
    } else if v < 65536 {
        2
    } else if v < 4294967296 {
        4
    } else {
        8
    };
    reveal_with_fuel(bytes::byte_span, 9);
    bytes::be_round_trip(v, width);
    if v < 128 {
        reveal_with_fuel(be_bytes, 2);
    } else {
        assert(s.subrange(1, 1 + width as int) =~= be_bytes(v, width));
    }
}

/// Decoding an encoded binary string gives it back, whatever follows.
pub proof fn bin_round_trip(data: Seq<u8>, tail: Seq<u8>)
    requires
        data.len() < 4294967296,
    ensures
        bin_at(bin_encoding(data) + tail) == Some((data, bin_encoding(data).len())),
        bin_encoding(data).len() > 0,
        0xc4 <= bin_encoding(data)[0] <= 0xc6,
{
    reveal(bin_at);
    reveal(bin_encoding);
    let n = data.len();
    let s = bin_encoding(data) + tail;
    let width: nat = if n < 256 {
        1
    } else if n < 65536 {
        2
    } else {
        4
    };
    reveal_with_fuel(bytes::byte_span, 5);
    bytes::be_round_trip(n, width);
    assert(s.subrange(1, 1 + width as int) =~= be_bytes(n, width));
    assert(s.subrange(1 + width as int, 1 + width as int + n) =~= data);
}

/// An encoded unsigned integer takes at most nine bytes.
pub proof fn uint_len(v: nat)
    ensures
        1 <= uint_encoding(v).len() <= 9,
{
    reveal(uint_encoding);
    bytes::be_len(v, 1);
    bytes::be_len(v, 2);
    bytes::be_len(v, 4);
    bytes::be_len(v, 8);
}

/// An encoded binary string has a header of at most five bytes.
pub proof fn bin_len(data: Seq<u8>)
    ensures
        data.len() + 2 <= bin_encoding(data).len() <= data.len() + 5,
        data.len() < 256 ==> bin_encoding(data).len() == data.len() + 2,
{
    reveal(bin_encoding);
    bytes::be_len(data.len(), 1);
    bytes::be_len(data.len(), 2);
    bytes::be_len(data.len(), 4);
}

} // verus!
