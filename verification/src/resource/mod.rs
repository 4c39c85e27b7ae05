//! Resource transfers over links.
//!
//! A resource carries arbitrary amounts of data over a single link. The payload is encrypted
//! once, split into parts, and transferred with a windowed request and response scheme with
//! retries, hashmap updates for large transfers, compression and segmentation.
//!
//! Times and durations are integer nanoseconds, data rates are fractions, and encryption is the
//! link's: the transfer state machines take sealed and unsealed bytes as arguments.

pub mod admission;
pub mod advertisement;
pub mod assembly;
pub mod inbound;
pub mod manager;
pub mod manager_laws;
pub mod outbound;
pub mod receiver_laws;
pub mod request;
pub mod segment;
pub mod transfer;
pub mod watchdog;
pub mod watchdog_laws;

use vstd::prelude::*;

use crate::hash;
use crate::hash::AddressHash;
use crate::link::{LinkPacket, LinkPacketView};
use crate::packet::PACKET_PROTOCOL_MDU;

pub use crate::compress::{decompress, maybe_compress};
pub use crate::resource::advertisement::ResourceAdvertisement;

verus! {

/// The initial window size at the beginning of a transfer.
pub const WINDOW: usize = 4;

/// The smallest window size during a transfer.
pub const WINDOW_MIN: usize = 2;

/// The largest window size for transfers on slow links.
pub const WINDOW_MAX_SLOW: usize = 10;

/// The largest window size for transfers on very slow links.
pub const WINDOW_MAX_VERY_SLOW: usize = 4;

/// The largest window size for transfers on fast links.
pub const WINDOW_MAX_FAST: usize = 75;

/// The largest window size of all.
pub const WINDOW_MAX: usize = WINDOW_MAX_FAST;

/// Rounds of a fast rate after which the fast window size is allowed.
pub const FAST_RATE_THRESHOLD: usize = WINDOW_MAX_SLOW - WINDOW - 2;

/// Rounds of a very slow rate after which the window is capped.
pub const VERY_SLOW_RATE_THRESHOLD: usize = 2;

/// Rates above this many bytes per second are fast.
pub const RATE_FAST: u64 = 6250;

/// Rates below this many bytes per second are very slow.
pub const RATE_VERY_SLOW: u64 = 250;

/// The smallest allowed flexibility of the window size.
pub const WINDOW_FLEXIBILITY: usize = 4;

/// Number of bytes in a map hash.
pub const MAPHASH_LEN: usize = 4;

/// Part size when the link's transfer unit is unknown.
pub const SDU: usize = PACKET_PROTOCOL_MDU;

/// Number of bytes in the random hash of a resource.
pub const RANDOM_HASH_SIZE: usize = 4;

/// Largest size handled in one segment.
pub const MAX_EFFICIENT_SIZE: usize = 1024 * 1024 - 1;

/// One second in nanoseconds.
pub const SECOND: u64 = 1_000_000_000;

/// How long a responder may take besides the round trip.
pub const RESPONSE_MAX_GRACE_TIME: u64 = 10_000_000_000;

/// Largest metadata size: its length is sent in three bytes.
pub const METADATA_MAX_SIZE: usize = 16 * 1024 * 1024 - 1;

/// Largest size that is compressed before sending.
pub const AUTO_COMPRESS_MAX_SIZE: usize = 64 * 1024 * 1024;

/// Part timeout in expected transfer times, before a round trip has been measured.
pub const PART_TIMEOUT_FACTOR: u64 = 4;

/// Part timeout in expected transfer times, once a round trip has been measured.
pub const PART_TIMEOUT_FACTOR_AFTER_RTT: u64 = 2;

/// Proof timeout in round-trip times.
pub const PROOF_TIMEOUT_FACTOR: u64 = 3;

/// Twice the wait for a hashmap update, in transfer times of one part.
pub const HMU_WAIT_FACTOR_DOUBLED: u64 = 7;

/// Part request retries.
pub const MAX_RETRIES: usize = 16;

/// Advertisement retries.
pub const MAX_ADV_RETRIES: usize = 4;

/// How long a sender waits besides the round trips.
pub const SENDER_GRACE_TIME: u64 = 10_000_000_000;

/// Allowance for processing an advertisement.
pub const PROCESSING_GRACE: u64 = 1_000_000_000;

/// Allowance for a retry.
pub const RETRY_GRACE_TIME: u64 = 250_000_000;

/// Additional wait per retry.
pub const PER_RETRY_DELAY: u64 = 500_000_000;

/// Sum of the additional waits over all retries.
pub const TOTAL_RETRY_DELAY: u64 = 68_000_000_000;

/// Resource timeout in round-trip times.
pub const TRAFFIC_TIMEOUT_FACTOR: u64 = 6;

pub const HASHMAP_IS_NOT_EXHAUSTED: u8 = 0x00;

pub const HASHMAP_IS_EXHAUSTED: u8 = 0xFF;

/// Where a transfer stands.
#[derive(Debug, Clone, Copy, PartialEq, Eq, PartialOrd, Ord, Structural)]
pub enum ResourceStatus {
    /// Prepared, not yet offered.
    Idle,
    /// Waiting for another transfer on the same link.
    Queued,
    /// Offered to the receiver.
    Advertised,
    /// Parts are on their way.
    Transferring,
    /// All parts sent, proof outstanding.
    AwaitingProof,
    /// All parts received, assembly outstanding.
    Assembling,
    /// Done.
    Complete,
    /// Given up.
    Failed,
    /// Received data did not check out.
    Corrupt,
    /// Turned down by the receiver.
    Rejected,
}

impl ResourceStatus {
    /// A transfer in this status has ended.
    pub open spec fn concluded(self) -> bool {
        self == ResourceStatus::Complete || self == ResourceStatus::Failed || self
            == ResourceStatus::Corrupt || self == ResourceStatus::Rejected
    }

    /// Whether a transfer in this status has ended.
    pub fn is_concluded(&self) -> (r: bool)
        ensures
            r == self.concluded(),
    {
        matches!(
            *self,
            ResourceStatus::Complete
                | ResourceStatus::Failed
                | ResourceStatus::Corrupt
                | ResourceStatus::Rejected
        )
    }
}

/// A transfer progress: `done` out of `total`, never more than all of it.
#[derive(Debug, Clone, Copy, PartialEq, Eq, Structural)]
pub struct Progress {
    pub done: u128,
    pub total: u128,
}

impl Progress {
    /// Nothing done.
    pub open spec fn nothing() -> Progress {
        Progress { done: 0, total: 1 }
    }
}

/// Packets that a step of a transfer wants transmitted.
#[derive(Debug, PartialEq, Eq)]
pub struct ResourceTx {
    pub packets: Vec<LinkPacket>,
}

impl View for ResourceTx {
    type V = Seq<LinkPacketView>;

    open spec fn view(&self) -> Seq<LinkPacketView> {
        self.packets@.map_values(|p: LinkPacket| p@)
    }
}

impl Default for ResourceTx {
    fn default() -> (r: Self)
        ensures
            r@ == Seq::<LinkPacketView>::empty(),
    {
        let r: ResourceTx = ResourceTx { packets: Vec::new() };
        assert(r@ =~= Seq::<LinkPacketView>::empty());
        r
    }
}

impl ResourceTx {
    /// Adds a packet behind the others.
    pub fn push(&mut self, packet: LinkPacket)
        ensures
            final(self)@ == old(self)@.push(packet@),
    {
        self.packets.push(packet);
        assert(self@ =~= old(self)@.push(packet@));
    }

    /// Moves the packets of `other` behind the others.
    pub fn append(&mut self, other: ResourceTx)
        ensures
            final(self)@ == old(self)@ + other@,
    {
        let mut other = other;
        let ghost tail = other@;
        self.packets.append(&mut other.packets);
        assert(self@ =~= old(self)@ + tail);
    }
}

/// Options for creating an outbound resource.
#[derive(Debug)]
pub struct ResourceOptions {
    /// Compress where that helps.
    pub auto_compress: bool,
    /// Packed metadata to send in front of the data.
    pub metadata: Option<Vec<u8>>,
    /// Advertisement timeout, derived from the link when missing.
    pub timeout: Option<u64>,
    /// The request that this resource belongs to.
    pub request_id: Option<AddressHash>,
    /// Whether the resource answers that request.
    pub is_response: bool,
}

impl Default for ResourceOptions {
    fn default() -> (r: Self)
        ensures
            r == (ResourceOptions {
                auto_compress: true,
                metadata: None,
                timeout: None,
                request_id: None,
                is_response: false,
            }),
    {
        ResourceOptions {
            auto_compress: true,
            metadata: None,
            timeout: None,
            request_id: None,
            is_response: false,
        }
    }
}

/// The bytes of the map hash of a part.
pub open spec fn part_map_hash(data: Seq<u8>, random_hash: Seq<u8>) -> Seq<u8> {
    hash::sha256_digest(data + random_hash).subrange(0, 4)
}

/// The map hash of a part: the first four bytes of the hash of the part and the random hash.
pub fn map_hash(data: &[u8], random_hash: &[u8; 4]) -> (r: [u8; 4])
    ensures
        r@ == part_map_hash(data@, random_hash@),
{
    let digest: crate::hash::Hash = crate::hash::Hash::new_from_parts(data, random_hash);
    let r: [u8; 4] = [digest.0[0], digest.0[1], digest.0[2], digest.0[3]];
    assert(r@ =~= digest@.subrange(0, 4));
    r
}

/// Whether two map hashes are equal.
pub fn same_map_hash(a: &[u8; 4], b: &[u8; 4]) -> (r: bool)
    ensures
        r == (*a == *b),
{
    let r: bool = a[0] == b[0] && a[1] == b[1] && a[2] == b[2] && a[3] == b[3];
    assert(r ==> *a =~= *b);
    r
}

/// Number of parts of `sdu` bytes that `size` bytes make up.
pub open spec fn part_count(size: nat, sdu: nat) -> nat
    recommends
        sdu > 0,
{
    (size + sdu - 1) as nat / sdu
}

/// Number of parts of `sdu` bytes that `size` bytes make up.
pub fn parts_of(size: usize, sdu: usize) -> (r: usize)
    requires
        sdu > 0,
    ensures
        r == part_count(size as nat, sdu as nat),
{
    let whole: usize = size / sdu;
    proof {
        let (n, d) = (size as int, sdu as int);
        vstd::arithmetic::div_mod::lemma_fundamental_div_mod(n, d);
        let (q, m) = (n / d, n % d);
        if m == 0 {
            assert(n + d - 1 == q * d + (d - 1)) by (nonlinear_arith)
                requires
                    n == d * q + m,
                    m == 0,
            ;
            vstd::arithmetic::div_mod::lemma_fundamental_div_mod_converse(n + d - 1, d, q, d - 1);
        } else {
            assert(n + d - 1 == (q + 1) * d + (m - 1)) by (nonlinear_arith)
                requires
                    n == d * q + m,
            ;
            vstd::arithmetic::div_mod::lemma_fundamental_div_mod_converse(
                n + d - 1,
                d,
                q + 1,
                m - 1,
            );
            assert(q <= n) by (nonlinear_arith)
                requires
                    n == d * q + m,
                    d >= 1,
                    m >= 0,
                    q >= 0,
            ;
            if d == 1 {
                assert(m == 0);
            } else {
                assert(q < n) by (nonlinear_arith)
                    requires
                        n == d * q + m,
                        d >= 2,
                        m >= 1,
                        q >= 0,
                ;
            }
        }
    }
    if size % sdu == 0 {
        whole
    } else {
        whole + 1
    }
}

} // verus!
