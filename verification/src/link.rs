//! What resource transfers know of the link they run over.

use vstd::prelude::*;

use crate::bytes;
use crate::error::RnsError;
use crate::hash::AddressHash;
use crate::packet::{PacketContext, PacketType, PACKET_MDU};

verus! {

/// The address of a link.
pub type LinkId = AddressHash;

/// Bytes that sealing adds to the padded plaintext: an initialisation vector and an
/// authentication code.
pub const TOKEN_OVERHEAD: usize = 48;

/// Block size to which a plaintext is padded before sealing.
pub const TOKEN_BLOCK: usize = 16;

/// A data rate: `bytes` in `nanos` nanoseconds.
#[derive(Debug, Clone, Copy, PartialEq, Eq, Structural)]
pub struct Rate {
    pub bytes: u64,
    pub nanos: u64,
}

/// The state of a link that resource transfers depend on. Times are in nanoseconds.
#[derive(Debug, Clone, Copy)]
pub struct Link {
    pub id: LinkId,
    /// Address of the destination that the link was established to.
    pub destination: AddressHash,
    /// Negotiated transfer unit, zero when unknown.
    pub mtu: usize,
    /// Part size that the transfer unit allows.
    pub sdu: usize,
    /// Measured round-trip time.
    pub rtt: u64,
    /// Bytes exchanged to establish the link.
    pub establishment_cost: u64,
    /// Window reached by the last resource on this link.
    pub last_resource_window: Option<usize>,
    /// Data rate reached by the last resource on this link.
    pub last_resource_eifr: Option<Rate>,
}

/// A packet to be sent over a link. The payload of a sealed packet is still plaintext: the link
/// encrypts it on the way out.
#[derive(Debug, PartialEq, Eq)]
pub struct LinkPacket {
    pub packet_type: PacketType,
    pub context: PacketContext,
    pub sealed: bool,
    pub data: Vec<u8>,
}

/// The mathematical counterpart of [`LinkPacket`].
pub struct LinkPacketView {
    pub packet_type: PacketType,
    pub context: PacketContext,
    pub sealed: bool,
    pub data: Seq<u8>,
}

impl View for LinkPacket {
    type V = LinkPacketView;

    open spec fn view(&self) -> LinkPacketView {
        LinkPacketView {
            packet_type: self.packet_type,
            context: self.context,
            sealed: self.sealed,
            data: self.data@,
        }
    }
}

impl Clone for LinkPacket {
    fn clone(&self) -> (r: Self)
        ensures
            r@ == self@,
    {
        LinkPacket {
            packet_type: self.packet_type,
            context: self.context,
            sealed: self.sealed,
            data: bytes::to_vec(&self.data),
        }
    }
}

/// Length of a sealed plaintext of `n` bytes: padded to whole blocks, at least one byte of
/// padding, plus the token overhead.
pub open spec fn sealed_len(n: nat) -> nat {
    (n / 16 + 1) * 16 + 48
}

/// A sealed data packet with the given context.
pub open spec fn sealed_packet(context: PacketContext, data: Seq<u8>) -> LinkPacketView {
    LinkPacketView { packet_type: PacketType::Data, context, sealed: true, data }
}

/// A packet whose payload goes out as it is.
pub open spec fn raw_packet(
    packet_type: PacketType,
    context: PacketContext,
    data: Seq<u8>,
) -> LinkPacketView {
    LinkPacketView { packet_type, context, sealed: false, data }
}

impl LinkPacket {
    /// Length of the payload on the wire.
    pub fn wire_data_len(&self) -> (r: usize)
        requires
            sealed_len(self.data@.len()) <= PACKET_MDU,
        ensures
            r == (if self.sealed {
                sealed_len(self.data@.len())
            } else {
                self.data@.len()
            }),
    {
        if self.sealed {
            (self.data.len() / TOKEN_BLOCK + 1) * TOKEN_BLOCK + TOKEN_OVERHEAD
        } else {
            self.data.len()
        }
    }
}

impl Link {
    /// The address of this link.
    pub fn id(&self) -> (r: &LinkId)
        ensures
            *r == self.id,
    {
        &self.id
    }

    /// A sealed data packet, or an error when the sealed payload exceeds the packet buffer.
    pub fn context_packet(&self, data: &[u8], context: PacketContext) -> (r: Result<
        LinkPacket,
        RnsError,
    >)
        ensures
            r is Ok <==> sealed_len(data@.len()) <= PACKET_MDU,
            r is Ok ==> r->Ok_0@ == sealed_packet(context, data@),
            r is Err ==> r->Err_0 == RnsError::OutOfMemory,
    {
        if data.len() > PACKET_MDU {
            return Err(RnsError::OutOfMemory);
        }
        if (data.len() / TOKEN_BLOCK + 1) * TOKEN_BLOCK + TOKEN_OVERHEAD > PACKET_MDU {
            return Err(RnsError::OutOfMemory);
        }
        Ok(
            LinkPacket {
                packet_type: PacketType::Data,
                context,
                sealed: true,
                data: bytes::to_vec(data),
            },
        )
    }

    /// A packet with an unencrypted payload, or an error when it exceeds the packet buffer.
    pub fn raw_packet(
        &self,
        data: &[u8],
        packet_type: PacketType,
        context: PacketContext,
    ) -> (r: Result<LinkPacket, RnsError>)
        ensures
            r is Ok <==> data@.len() <= PACKET_MDU,
            r is Ok ==> r->Ok_0@ == raw_packet(packet_type, context, data@),
            r is Err ==> r->Err_0 == RnsError::OutOfMemory,
    {
        if data.len() > PACKET_MDU {
            return Err(RnsError::OutOfMemory);
        }
        Ok(LinkPacket { packet_type, context, sealed: false, data: bytes::to_vec(data) })
    }
}

} // verus!
