//! Packets on byte streams: HDLC frames with access codes.
//!
//! The interfaces that run on byte streams differ in how long and how short their frames may be,
//! in what they count, and in what a failed write means.

use vstd::prelude::*;

use crate::iface::hdlc;
use crate::iface::hdlc::{DecoderView, Hdlc, HdlcDecoder};
use crate::iface::ifac;
use crate::iface::ifac::IfacKey;

verus! {

/// A kind of byte stream.
#[derive(Debug, Clone, Copy, PartialEq, Eq, Structural)]
pub enum StreamKind {
    Backbone,
    I2p,
    Local,
    Pipe,
    Serial,
}

/// The longest frame of a kind of stream.
pub open spec fn frame_limit(kind: StreamKind) -> nat {
    match kind {
        StreamKind::Backbone => 32768,
        StreamKind::I2p => 1064,
        StreamKind::Local => 262144,
        StreamKind::Pipe => 1064,
        StreamKind::Serial => 564,
    }
}

/// The length up to which frames of a kind of stream are ignored.
pub open spec fn ignored_len(kind: StreamKind) -> nat {
    match kind {
        StreamKind::Backbone => 2,
        StreamKind::I2p => 2,
        StreamKind::Local => 19,
        StreamKind::Pipe => 0,
        StreamKind::Serial => 0,
    }
}

/// The longest encoded frame that is sent on a kind of stream, where there is a limit.
pub open spec fn encoded_limit(kind: StreamKind) -> Option<nat> {
    match kind {
        StreamKind::Backbone => Some(2560),
        StreamKind::I2p => Some(2304),
        _ => None,
    }
}

/// Whether the plain packet is what counts as received, and not the frame.
pub open spec fn counts_packet(kind: StreamKind) -> bool {
    kind == StreamKind::Backbone || kind == StreamKind::I2p
}

/// Those of the first `n` frames that are not ignored.
pub open spec fn considered(kind: StreamKind, frames: Seq<Seq<u8>>, n: int) -> Seq<Seq<u8>>
    decreases n,
{
    if n <= 0 {
        Seq::empty()
    } else if frames[n - 1].len() > ignored_len(kind) {
        considered(kind, frames, n - 1).push(frames[n - 1])
    } else {
        considered(kind, frames, n - 1)
    }
}

impl StreamKind {
    /// The longest frame.
    pub fn mtu(self) -> (r: usize)
        ensures
            r == frame_limit(self),
    {
        match self {
            StreamKind::Backbone => 32768,
            StreamKind::I2p => 1064,
            StreamKind::Local => 262144,
            StreamKind::Pipe => 1064,
            StreamKind::Serial => 564,
        }
    }

    /// The length up to which frames are ignored.
    fn ignored(self) -> (r: usize)
        ensures
            r == ignored_len(self),
    {
        match self {
            StreamKind::Backbone => 2,
            StreamKind::I2p => 2,
            StreamKind::Local => 19,
            StreamKind::Pipe => 0,
            StreamKind::Serial => 0,
        }
    }

    /// The plain packet in a frame, and the length that counts as received; `None` when the access
    /// code is wrong.
    pub fn open_frame(self, frame: &[u8], key: Option<&IfacKey>) -> (r: Option<(Vec<u8>, usize)>)
        requires
            key is Some && ifac::carries_code(key->0.size as nat, frame@) ==> key->0.size
                <= ifac::SIGNATURE_SIZE && frame@.len() <= ifac::MAX_STREAM,
        ensures
            match ifac::decoded_wire(frame@, key) {
                Some(plain) => r is Some && (r->0).0@ == plain && (r->0).1 == (if counts_packet(
                    self,
                ) {
                    plain.len()
                } else {
                    frame@.len()
                }),
                None => r is None,
            },
    {
        match ifac::decode(frame, key) {
            Some(plain) => {
                let counted: usize = match self {
                    StreamKind::Backbone => plain.len(),
                    StreamKind::I2p => plain.len(),
                    _ => frame.len(),
                };
                Some((plain, counted))
            },
            None => None,
        }
    }

    /// The encoded frame of a packet, and the length that counts as sent; `None` when it is longer
    /// than what is sent, which ends the use of the stream.
    pub fn seal_packet(self, packet: &[u8], key: Option<&IfacKey>) -> (r: Option<(Vec<u8>, usize)>)
        requires
            key is Some ==> key->0.size <= ifac::SIGNATURE_SIZE && 2 <= packet@.len()
                && packet@.len() + key->0.size <= ifac::MAX_STREAM,
        ensures
            ({
                let wire = wire_of(packet@, key);
                let frame = hdlc::framed(wire);
                if encoded_limit(self) is Some && frame.len() > encoded_limit(self)->0 {
                    r is None
                } else {
                    r is Some && (r->0).0@ == frame && (r->0).1 == wire.len()
                }
            }),
    {
        let wire: Vec<u8> = ifac::encode(packet, key);
        let frame: Vec<u8> = Hdlc::encode_frame_vec(&wire);
        let too_long: bool = match self {
            StreamKind::Backbone => frame.len() > 2560,
            StreamKind::I2p => frame.len() > 2304,
            _ => false,
        };
        if too_long {
            None
        } else {
            Some((frame, wire.len()))
        }
    }
}

/// The wire bytes of a packet.
pub open spec fn wire_of(packet: Seq<u8>, key: Option<&IfacKey>) -> Seq<u8> {
    match key {
        Some(key) => ifac::wrapped(key.key(), key.size as nat, packet),
        None => packet,
    }
}

/// The receiving end of a byte stream.
pub struct StreamReceiver {
    kind: StreamKind,
    decoder: HdlcDecoder,
}

impl StreamReceiver {
    pub closed spec fn kind(&self) -> StreamKind {
        self.kind
    }

    pub closed spec fn decoder(&self) -> DecoderView {
        self.decoder@
    }

    /// The receiving end of a new stream.
    pub fn new(kind: StreamKind) -> (r: Self)
        ensures
            r.kind() == kind,
            r.decoder() == (DecoderView {
                frame: Seq::empty(),
                in_frame: false,
                escape: false,
                mtu: frame_limit(kind),
            }),
    {
        StreamReceiver { kind, decoder: HdlcDecoder::new(kind.mtu()) }
    }

    /// Takes stream bytes in. Returns the completed frames that are not ignored.
    pub fn receive(&mut self, data: &[u8]) -> (r: Vec<Vec<u8>>)
        ensures
            final(self).kind() == old(self).kind(),
            final(self).decoder() == hdlc::after_bytes(old(self).decoder(), data@),
            hdlc::frame_views(r@) == considered(
                old(self).kind(),
                hdlc::frames_of(old(self).decoder(), data@),
                hdlc::frames_of(old(self).decoder(), data@).len() as int,
            ),
    {
        let mut frames: Vec<Vec<u8>> = self.decoder.feed(data);
        let ghost all = hdlc::frame_views(frames@);
        let ghost mut seen: int = 0;
        let ignored: usize = self.kind.ignored();
        let mut i: usize = 0;
        assert(hdlc::frame_views(frames@) =~= considered(self.kind, all, 0) + all.skip(0));
        while i < frames.len()
            invariant
                0 <= seen <= all.len(),
                ignored == ignored_len(self.kind),
                i == considered(self.kind, all, seen).len(),
                hdlc::frame_views(frames@) == considered(self.kind, all, seen) + all.skip(seen),
            decreases all.len() - seen,
        {
            let ghost head = considered(self.kind, all, seen);
            let ghost current = hdlc::frame_views(frames@);
            proof {
                assert(current.len() == head.len() + all.len() - seen);
                assert(current[i as int] == all[seen]);
                assert(current[i as int] == frames@[i as int]@);
            }
            if frames[i].len() > ignored {
                i += 1;
                assert(hdlc::frame_views(frames@) =~= head.push(all[seen]) + all.skip(seen + 1));
            } else {
                let _ = frames.remove(i);
                assert(hdlc::frame_views(frames@) =~= current.remove(i as int));
                assert(hdlc::frame_views(frames@) =~= head + all.skip(seen + 1));
            }
            proof {
                seen = seen + 1;
            }
        }
        assert(hdlc::frame_views(frames@).len() == considered(self.kind, all, seen).len()
            + all.len() - seen);
        assert(hdlc::frame_views(frames@) =~= considered(self.kind, all, all.len() as int));
        frames
    }
}

/// Packets cross streams: where the wire bytes of a packet are neither too long nor ignored, the
/// other end gets one frame for it, which are those wire bytes, and with the same access key the
/// packet comes out of them.
pub proof fn packets_cross_streams(
    kind: StreamKind,
    d: DecoderView,
    packet: Seq<u8>,
    key: Option<&IfacKey>,
)
    requires
        d.mtu == frame_limit(kind),
        !d.in_frame,
        packet.len() >= 3,
        packet[0] < 0x80,
        key is Some ==> 1 <= key->0.size <= ifac::SIGNATURE_SIZE,
        packet.len() + (if key is Some {
            key->0.size as int
        } else {
            0
        }) <= frame_limit(kind),
        packet.len() > ignored_len(kind),
    ensures
        ({
            let wire = wire_of(packet, key);
            let frames = hdlc::frames_of(d, hdlc::framed(wire));
            &&& considered(kind, frames, frames.len() as int) == seq![wire]
            &&& !hdlc::after_bytes(d, hdlc::framed(wire)).in_frame
            &&& ifac::decoded_wire(wire, key) == Some(packet)
        }),
{
    if key is Some {
        ifac::strip_inverts_apply(key->0.key(), key->0.size as nat, packet);
    }
    let wire = wire_of(packet, key);
    hdlc::frame_round_trip(d, wire);
    reveal_with_fuel(considered, 2);
    assert(considered(kind, seq![wire], 1) =~= seq![wire]);
}

} // verus!
