//! Packets: header fields, addressing and payload.

use vstd::prelude::*;

use crate::bytes;
use crate::hash::AddressHash;

verus! {

/// Capacity of a packet's payload buffer in bytes.
pub const PACKET_MDU: usize = 2048;

/// Payload bytes that a packet carries at the protocol's default transfer unit.
pub const PACKET_PROTOCOL_MDU: usize = 464;

/// Plaintext bytes that one encrypted link packet carries.
pub const LINK_MDU: usize = 431;

/// Wire bytes in front of the payload of a packet without a transport address.
pub const HEADER_LEN: usize = 19;

/// Whether a packet carries an interface access code.
#[derive(Debug, Clone, Copy, PartialEq, Eq, Structural)]
pub enum IfacFlag {
    Open,
    Authenticated,
}

/// Whether the header has room for a transport address.
#[derive(Debug, Clone, Copy, PartialEq, Eq, Structural)]
pub enum HeaderType {
    Type1,
    Type2,
}

/// How a packet propagates.
#[derive(Debug, Clone, Copy, PartialEq, Eq, Structural)]
pub enum PropagationType {
    Broadcast,
    Transport,
}

/// What kind of destination a packet is addressed to.
#[derive(Debug, Clone, Copy, PartialEq, Eq, Structural)]
pub enum DestinationType {
    Single,
    Group,
    Plain,
    Link,
}

/// What kind of packet this is.
#[derive(Debug, Clone, Copy, PartialEq, Eq, Structural)]
pub enum PacketType {
    Data,
    Announce,
    LinkRequest,
    Proof,
}

/// What the payload of a packet is about.
#[derive(Debug, Clone, Copy, PartialEq, Eq, Structural)]
pub enum PacketContext {
    Plain,
    Resource,
    ResourceAdvertisement,
    ResourceRequest,
    ResourceHashUpdate,
    ResourceProof,
    ResourceInitiatorCancel,
    ResourceReceiverCancel,
    PathResponse,
    Channel,
}

/// The fixed fields of a packet.
#[derive(Debug, Clone, Copy, PartialEq, Eq, Structural)]
pub struct Header {
    pub ifac_flag: IfacFlag,
    pub context_flag: bool,
    pub header_type: HeaderType,
    pub propagation_type: PropagationType,
    pub destination_type: DestinationType,
    pub packet_type: PacketType,
    pub hops: u8,
}

/// A packet on its way through the node.
#[derive(Debug, PartialEq, Eq)]
pub struct Packet {
    pub header: Header,
    pub destination: AddressHash,
    pub transport: Option<AddressHash>,
    pub context: PacketContext,
    pub data: Vec<u8>,
}

/// The mathematical counterpart of [`Packet`].
pub struct PacketView {
    pub header: Header,
    pub destination: AddressHash,
    pub transport: Option<AddressHash>,
    pub context: PacketContext,
    pub data: Seq<u8>,
}

impl View for Packet {
    type V = PacketView;

    open spec fn view(&self) -> PacketView {
        PacketView {
            header: self.header,
            destination: self.destination,
            transport: self.transport,
            context: self.context,
            data: self.data@,
        }
    }
}

impl Clone for Packet {
    fn clone(&self) -> (r: Self)
        ensures
            r@ == self@,
    {
        Packet {
            header: self.header,
            destination: self.destination,
            transport: self.transport,
            context: self.context,
            data: bytes::to_vec(&self.data),
        }
    }
}

/// Wire bytes of a packet: two header bytes, the transport address where the header has one, the
/// destination, the context byte and the payload.
pub open spec fn wire_len(packet: PacketView) -> nat {
    HEADER_LEN as nat + (if packet.header.header_type == HeaderType::Type2
        && packet.transport is Some {
        16nat
    } else {
        0nat
    }) + packet.data.len()
}

} // verus!
