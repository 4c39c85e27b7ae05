//! AX.25 addressing for KISS interfaces on packet radio.
//!
//! Outgoing data is prefixed with a 16-byte header: the destination and the source address, each
//! of six shifted characters and a station byte, then the control and protocol bytes of an
//! unnumbered information frame.

use vstd::prelude::*;
use vstd::string::*;

use crate::bytes;
use crate::error::RnsError;
use crate::text;

verus! {

/// Protocol byte of a frame without a layer three protocol.
pub const PID_NOLAYER3: u8 = 0xF0;

/// Control byte of an unnumbered information frame.
pub const CTRL_UI: u8 = 0x03;

/// Length of the header.
pub const HEADER_SIZE: usize = 16;

/// Destination station number.
pub const DEFAULT_DESTINATION_SSID: u8 = 0;

/// Destination callsign, `APZRNS`.
pub open spec fn default_destination() -> Seq<u8> {
    seq![0x41u8, 0x50, 0x5a, 0x52, 0x4e, 0x53]
}

/// Checks a source address: a callsign of three to six ASCII characters, and a station number
/// below sixteen.
pub fn validate_callsign(callsign: &str, ssid: u8) -> (r: Result<(), RnsError>)
    ensures
        r is Ok <==> 3 <= callsign.spec_bytes().len() <= 6 && callsign.is_ascii() && ssid <= 15,
        r is Err ==> r->Err_0 == RnsError::InvalidArgument,
{
    let len: usize = callsign.as_bytes().len();
    if len < 3 || len > 6 {
        return Err(RnsError::InvalidArgument);
    }
    if !callsign.is_ascii() {
        return Err(RnsError::InvalidArgument);
    }
    if ssid > 15 {
        return Err(RnsError::InvalidArgument);
    }
    Ok(())
}

/// The station byte of an address; the last address of a header is marked.
pub open spec fn station_byte(ssid: u8, last: bool) -> u8 {
    if last {
        0x60 | (ssid << 1) | 0x01
    } else {
        0x60 | (ssid << 1)
    }
}

/// An encoded address: six shifted characters, padded, and the station byte.
pub open spec fn address(callsign: Seq<u8>, ssid: u8, last: bool) -> Seq<u8> {
    Seq::new(
        7,
        |i: int|
            if i == 6 {
                station_byte(ssid, last)
            } else if i < callsign.len() {
                callsign[i] << 1
            } else {
                0x20
            },
    )
}

/// Encodes a callsign and a station number.
fn encode_address(callsign: &[u8], ssid: u8, last: bool) -> (r: [u8; 7])
    ensures
        r@ == address(callsign@, ssid, last),
{
    let mut r: [u8; 7] = [0x20; 7];
    let mut i: usize = 0;
    while i < 6 && i < callsign.len()
        invariant
            i <= 6,
            i <= callsign@.len(),
            r@.len() == 7,
            forall|j: int| 0 <= j < i ==> r@[j] == callsign@[j] << 1,
            forall|j: int| i <= j < 7 ==> r@[j] == 0x20,
        decreases 6 - i,
    {
        r[i] = callsign[i] << 1;
        i += 1;
    }
    let station: u8 = if last {
        0x60 | (ssid << 1) | 0x01
    } else {
        0x60 | (ssid << 1)
    };
    r[6] = station;
    assert(r@ =~= address(callsign@, ssid, last));
    r
}

/// The frame of a payload with the given addresses.
pub open spec fn packed_frame(
    data: Seq<u8>,
    src_call: Seq<u8>,
    src_ssid: u8,
    dst_call: Seq<u8>,
    dst_ssid: u8,
) -> Seq<u8> {
    address(dst_call, dst_ssid, false) + address(src_call, src_ssid, true) + seq![
        CTRL_UI,
        PID_NOLAYER3,
    ] + data
}

/// Packs `data` into a frame to the default destination.
pub fn pack_ax25_frame(data: &[u8], callsign: &str, ssid: u8) -> (frame: Vec<u8>)
    ensures
        frame@ == packed_frame(
            data@,
            callsign.spec_bytes(),
            ssid,
            default_destination(),
            DEFAULT_DESTINATION_SSID,
        ),
{
    let destination: [u8; 6] = [0x41, 0x50, 0x5a, 0x52, 0x4e, 0x53];
    assert(destination@ =~= default_destination());
    pack_ax25_frame_to(data, callsign.as_bytes(), ssid, &destination, DEFAULT_DESTINATION_SSID)
}

/// Packs `data` into a frame with explicit addresses.
pub fn pack_ax25_frame_to(
    data: &[u8],
    src_call: &[u8],
    src_ssid: u8,
    dst_call: &[u8],
    dst_ssid: u8,
) -> (frame: Vec<u8>)
    ensures
        frame@ == packed_frame(data@, src_call@, src_ssid, dst_call@, dst_ssid),
{
    let mut frame: Vec<u8> = Vec::new();
    bytes::append(&mut frame, &encode_address(dst_call, dst_ssid, false));
    bytes::append(&mut frame, &encode_address(src_call, src_ssid, true));
    frame.push(CTRL_UI);
    frame.push(PID_NOLAYER3);
    bytes::append(&mut frame, data);
    assert(frame@ =~= packed_frame(data@, src_call@, src_ssid, dst_call@, dst_ssid));
    frame
}

/// Strips the header off a received frame; a frame without anything behind the header carries no
/// data.
pub fn strip_ax25_header(frame: &[u8]) -> (r: Option<&[u8]>)
    ensures
        r is Some <==> frame@.len() > HEADER_SIZE,
        r is Some ==> r->0@ == frame@.skip(HEADER_SIZE as int),
{
    if frame.len() > HEADER_SIZE {
        let payload: &[u8] = &frame[HEADER_SIZE..frame.len()];
        assert(payload@ =~= frame@.skip(HEADER_SIZE as int));
        Some(payload)
    } else {
        None
    }
}

/// The characters of the first `n` bytes of an encoded address, without padding.
pub open spec fn address_chars(address: Seq<u8>, n: int) -> Seq<char>
    decreases n,
{
    if n <= 0 {
        Seq::empty()
    } else {
        let b = address[n - 1] >> 1;
        if b != 0x10 && b != 0x00 {
            address_chars(address, n - 1).push(b as char)
        } else {
            address_chars(address, n - 1)
        }
    }
}

/// Decodes an address back into a callsign and a station number.
pub fn decode_address(address: &[u8; 7]) -> (r: (String, u8))
    ensures
        r.0@ == address_chars(address@, 6),
        r.1 == (address@[6] >> 1) & 0x0F,
{
    let mut callsign: String = String::new();
    let mut i: usize = 0;
    assert(callsign@ =~= address_chars(address@, 0));
    while i < 6
        invariant
            i <= 6,
            address@.len() == 7,
            callsign@ == address_chars(address@, i as int),
        decreases 6 - i,
    {
        let byte: u8 = address[i] >> 1;
        if byte != 0x10 && byte != 0x00 {
            text::push_char(&mut callsign, byte as char);
        }
        i += 1;
    }
    let ssid: u8 = (address[6] >> 1) & 0x0F;
    (callsign, ssid)
}

/// Stripping the header off a packed frame gives its payload, unless that is empty.
pub proof fn strip_inverts_pack(
    data: Seq<u8>,
    src_call: Seq<u8>,
    src_ssid: u8,
    dst_call: Seq<u8>,
    dst_ssid: u8,
)
    ensures
        packed_frame(data, src_call, src_ssid, dst_call, dst_ssid).len() == HEADER_SIZE
            + data.len(),
        packed_frame(data, src_call, src_ssid, dst_call, dst_ssid).skip(HEADER_SIZE as int)
            == data,
{
    assert(packed_frame(data, src_call, src_ssid, dst_call, dst_ssid).skip(HEADER_SIZE as int)
        =~= data);
}

/// A character of a callsign that survives encoding: ASCII, and not one that reads as padding.
pub open spec fn encodable(b: u8) -> bool {
    b < 0x80 && b != 0x10 && b != 0x00
}

/// Decoding an encoded address gives the callsign and the station number back.
pub proof fn address_round_trip(callsign: Seq<u8>, ssid: u8, last: bool)
    requires
        callsign.len() <= 6,
        forall|i: int| 0 <= i < callsign.len() ==> encodable(#[trigger] callsign[i]),
        ssid <= 15,
    ensures
        address_chars(address(callsign, ssid, last), 6) == Seq::new(
            callsign.len(),
            |i: int| callsign[i] as char,
        ),
        (address(callsign, ssid, last)[6] >> 1) & 0x0F == ssid,
{
    chars_upto(callsign, ssid, last, 6);
    assert(callsign.take(callsign.len() as int) =~= callsign);
    assert(((0x60u8 | (ssid << 1) | 0x01) >> 1) & 0x0F == ssid && ((0x60u8 | (ssid << 1)) >> 1)
        & 0x0F == ssid) by (bit_vector)
        requires
            ssid <= 15,
    ;
    assert(address_chars(address(callsign, ssid, last), 6) =~= Seq::new(
        callsign.len(),
        |i: int| callsign[i] as char,
    ));
}

proof fn chars_upto(callsign: Seq<u8>, ssid: u8, last: bool, n: int)
    requires
        callsign.len() <= 6,
        forall|i: int| 0 <= i < callsign.len() ==> encodable(#[trigger] callsign[i]),
        0 <= n <= 6,
    ensures
        address_chars(address(callsign, ssid, last), n) == Seq::new(
            if n < callsign.len() {
                n as nat
            } else {
                callsign.len()
            },
            |i: int| callsign[i] as char,
        ),
    decreases n,
{
    let a = address(callsign, ssid, last);
    if n > 0 {
        chars_upto(callsign, ssid, last, n - 1);
        assert(0x20u8 >> 1 == 0x10) by (bit_vector);
        if n <= callsign.len() {
            let b = callsign[n - 1];
            assert(encodable(b));
            assert((b << 1) >> 1 == b) by (bit_vector)
                requires
                    b < 0x80,
            ;
        }
    }
    assert(address_chars(a, n) =~= Seq::new(
        if n < callsign.len() {
            n as nat
        } else {
            callsign.len()
        },
        |i: int| callsign[i] as char,
    ));
}

} // verus!
