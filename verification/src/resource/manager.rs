//! Resource state of a node: tracks outgoing and incoming resources per link, routes resource
//! packets and runs watchdog checks.
//!
//! Events for the application collect in the manager until they are taken. What only a link can
//! do, sealing and unsealing, happens between calls: the manager names the bytes to unseal and
//! the segments to seal.

use vstd::prelude::*;

use crate::bytes;
use crate::hash::AddressHash;
use crate::link::{Link, LinkId, LinkPacketView};
use crate::packet::PACKET_MDU;
use crate::resource::advertisement::{AdvertisementView, ResourceAdvertisement};
use crate::resource::inbound::{
    after_hashmap_packet, after_part, after_request_next, content, receiver_advertisement,
    IncomingResource, IncomingView,
};
use crate::resource::outbound::{
    advertised, advertisement_packet, advertisement_view, after_request, at_most_one,
    request_hash_at, sender_progress, OutgoingResource, OutgoingView, PendingSegment,
};
use crate::resource::{Progress, ResourceStatus, ResourceTx, HASHMAP_IS_EXHAUSTED};
use crate::table::Table;

verus! {

/// Default cap for the decompression of incoming resources.
pub const DEFAULT_MAX_DECOMPRESSED_SIZE: usize = 5 * 1024 * 1024;

/// Split assemblies whose sender disappears expire after this long without progress.
pub const SPLIT_ASSEMBLY_TIMEOUT: u64 = 300_000_000_000;

/// Bytes by which a split assembly may exceed its advertised size.
pub const SPLIT_ASSEMBLY_GRACE_BYTES: usize = 1024;

/// What happens to advertised resources that belong to no request.
#[derive(Debug, Clone, Copy, PartialEq, Eq, Structural)]
pub enum ResourceStrategy {
    /// They are ignored.
    Ignore,
    /// The application decides.
    App,
    /// They are accepted.
    All,
}

/// Something that happened to a resource.
#[derive(Debug)]
pub struct ResourceEvent {
    pub link_id: LinkId,
    pub hash: crate::hash::Hash,
    pub status: ResourceStatus,
    pub progress: Progress,
    /// The data of a completed incoming resource.
    pub data: Option<Vec<u8>>,
    /// The metadata of a completed incoming resource.
    pub metadata: Option<Vec<u8>>,
    pub advertisement: Option<ResourceAdvertisement>,
}

/// The mathematical counterpart of [`ResourceEvent`].
#[verifier::ext_equal]
pub struct EventView {
    pub link_id: LinkId,
    pub hash: crate::hash::Hash,
    pub status: ResourceStatus,
    pub progress: Progress,
    pub data: Option<Seq<u8>>,
    pub metadata: Option<Seq<u8>>,
    pub advertisement: Option<AdvertisementView>,
}

impl View for ResourceEvent {
    type V = EventView;

    open spec fn view(&self) -> EventView {
        EventView {
            link_id: self.link_id,
            hash: self.hash,
            status: self.status,
            progress: self.progress,
            data: content(self.data),
            metadata: content(self.metadata),
            advertisement: match self.advertisement {
                Some(advertisement) => Some(advertisement@),
                None => None,
            },
        }
    }
}

/// Something that happened to a request.
#[derive(Debug)]
pub enum RequestEvent {
    /// A response arrived.
    Response { request_id: AddressHash, data: Vec<u8>, metadata: Option<Vec<u8>> },
    /// A response is on its way.
    Progress { request_id: AddressHash, progress: Progress },
    /// The request failed or was rejected.
    Failed { request_id: AddressHash },
}

/// The mathematical counterpart of [`RequestEvent`].
pub enum RequestEventView {
    Response { request_id: Seq<u8>, data: Seq<u8>, metadata: Option<Seq<u8>> },
    Progress { request_id: Seq<u8>, progress: Progress },
    Failed { request_id: Seq<u8> },
}

impl View for RequestEvent {
    type V = RequestEventView;

    open spec fn view(&self) -> RequestEventView {
        match *self {
            RequestEvent::Response { request_id, data, metadata } => RequestEventView::Response {
                request_id: request_id@,
                data: data@,
                metadata: content(metadata),
            },
            RequestEvent::Progress { request_id, progress } => RequestEventView::Progress {
                request_id: request_id@,
                progress,
            },
            RequestEvent::Failed { request_id } => RequestEventView::Failed {
                request_id: request_id@,
            },
        }
    }
}

/// A request event and the link it happened on.
#[derive(Debug)]
pub struct RequestEventData {
    pub link_id: LinkId,
    pub event: RequestEvent,
}

/// The segments of a split resource that have arrived so far.
#[derive(Debug)]
pub struct SplitAssembly {
    pub data: Vec<u8>,
    pub metadata: Option<Vec<u8>>,
    /// The segment that has to come next.
    pub next_index: usize,
    pub total_segments: usize,
    pub data_size: usize,
    /// When the last segment was accepted.
    pub last_activity: u64,
}

/// The mathematical counterpart of [`SplitAssembly`].
#[verifier::ext_equal]
pub struct SplitView {
    pub data: Seq<u8>,
    pub metadata: Option<Seq<u8>>,
    pub next_index: usize,
    pub total_segments: usize,
    pub data_size: usize,
    pub last_activity: u64,
}

impl View for SplitAssembly {
    type V = SplitView;

    open spec fn view(&self) -> SplitView {
        SplitView {
            data: self.data@,
            metadata: content(self.metadata),
            next_index: self.next_index,
            total_segments: self.total_segments,
            data_size: self.data_size,
            last_activity: self.last_activity,
        }
    }
}

/// Resource state of a node.
#[derive(Debug)]
pub struct ResourceManager {
    /// Outgoing resources; those of one link stand in the order in which they were added.
    pub out: Vec<OutgoingResource>,
    /// Incoming resources; those of one link stand in the order in which they were accepted.
    pub incoming: Vec<IncomingResource>,
    pub strategies: Table<AddressHash, ResourceStrategy>,
    /// Hashes of the paths with a request handler, by destination.
    pub request_handlers: Table<AddressHash, Vec<AddressHash>>,
    /// Hashes of the paths with an asynchronous request handler, by destination.
    pub async_request_handlers: Table<AddressHash, Vec<AddressHash>>,
    /// Links of the requests that await a response.
    pub pending_requests: Table<AddressHash, AddressHash>,
    /// Responses that wait to be collected.
    pub completed_responses: Table<AddressHash, Option<Vec<u8>>>,
    /// Segments of split resources, by the hash of the first segment.
    pub split_assembly: Table<crate::hash::Hash, SplitAssembly>,
    pub events: Vec<ResourceEvent>,
    pub request_events: Vec<RequestEventData>,
    pub max_decompressed_size: usize,
    pub max_request_size: Option<usize>,
    pub max_response_size: Option<usize>,
}

/// Senders as mathematical values.
pub open spec fn sender_views(out: Seq<OutgoingResource>) -> Seq<OutgoingView> {
    out.map_values(|r: OutgoingResource| r@)
}

/// Receivers as mathematical values.
pub open spec fn receiver_views(incoming: Seq<IncomingResource>) -> Seq<IncomingView> {
    incoming.map_values(|r: IncomingResource| r@)
}

/// Events as mathematical values.
pub open spec fn event_views(events: Seq<ResourceEvent>) -> Seq<EventView> {
    events.map_values(|e: ResourceEvent| e@)
}

/// What a step makes of each sender.
pub open spec fn stepped_senders(
    out: Seq<OutgoingView>,
    step: spec_fn(OutgoingView) -> (OutgoingView, Seq<LinkPacketView>),
) -> Seq<OutgoingView> {
    Seq::new(out.len(), |i: int| step(out[i]).0)
}

/// The packets that a step over the first `n` senders produces.
pub open spec fn sender_packets(
    out: Seq<OutgoingView>,
    step: spec_fn(OutgoingView) -> (OutgoingView, Seq<LinkPacketView>),
    n: int,
) -> Seq<LinkPacketView>
    decreases n,
{
    if n <= 0 {
        Seq::empty()
    } else {
        sender_packets(out, step, n - 1) + step(out[n - 1]).1
    }
}

/// What a part request makes of one sender.
pub open spec fn request_step(
    v: OutgoingView,
    link_id: LinkId,
    hash: Seq<u8>,
    data: Seq<u8>,
    now: u64,
) -> (OutgoingView, Seq<LinkPacketView>) {
    if v.link_id == link_id && v.hash@ == hash && !v.status.concluded() {
        after_request(v, data, now)
    } else {
        (v, Seq::empty())
    }
}

/// The step of a part request.
pub open spec fn request_steps(link_id: LinkId, data: Seq<u8>, now: u64) -> spec_fn(
    OutgoingView,
) -> (OutgoingView, Seq<LinkPacketView>) {
    let at = request_hash_at(data);
    |v: OutgoingView| request_step(v, link_id, data.subrange(at, at + 32), data, now)
}

impl ResourceManager {
    /// The senders as mathematical values.
    pub open spec fn senders(&self) -> Seq<OutgoingView> {
        sender_views(self.out@)
    }

    /// The receivers as mathematical values.
    pub open spec fn receivers(&self) -> Seq<IncomingView> {
        receiver_views(self.incoming@)
    }

    /// What every operation on the manager keeps true.
    pub open spec fn wf(&self) -> bool {
        &&& forall|i: int| 0 <= i < self.out@.len() ==> (#[trigger] self.out@[i]).wf()
        &&& forall|i: int| 0 <= i < self.incoming@.len() ==> (#[trigger] self.incoming@[i]).wf()
        &&& self.strategies.wf()
        &&& self.request_handlers.wf()
        &&& self.async_request_handlers.wf()
        &&& self.pending_requests.wf()
        &&& self.completed_responses.wf()
        &&& self.split_assembly.wf()
    }

    /// Handles a part request for a link.
    pub fn handle_request_data(&mut self, link: &Link, plaintext: &[u8], now: u64) -> (tx:
        ResourceTx)
        requires
            old(self).wf(),
        ensures
            final(self).wf(),
            *final(self) == (ResourceManager { out: final(self).out, ..*old(self) }),
            plaintext@.len() < request_hash_at(plaintext@) + 32 ==> final(self).senders()
                == old(self).senders() && tx@ == Seq::<LinkPacketView>::empty(),
            plaintext@.len() >= request_hash_at(plaintext@) + 32 ==> final(self).senders()
                == stepped_senders(
                old(self).senders(),
                request_steps(link.id, plaintext@, now),
            ) && tx@ == sender_packets(
                old(self).senders(),
                request_steps(link.id, plaintext@, now),
                old(self).senders().len() as int,
            ),
    {
        let mut tx: ResourceTx = ResourceTx::default();
        let at: usize = if plaintext.len() > 0 && plaintext[0] == HASHMAP_IS_EXHAUSTED {
            5
        } else {
            1
        };
        let ghost before = self.senders();
        let ghost steps = request_steps(link.id, plaintext@, now);
        match crate::hash::Hash::from_prefix(plaintext, at) {
            None => {},
            Some(resource_hash) => {
                let mut i: usize = 0;
                while i < self.out.len()
                    invariant
                        i <= self.out@.len(),
                        self.wf(),
                        *self == (ResourceManager { out: self.out, ..*old(self) }),
                        before == old(self).senders(),
                        self.out@.len() == before.len(),
                        at == request_hash_at(plaintext@),
                        resource_hash@ == plaintext@.subrange(at as int, at + 32),
                        steps == request_steps(link.id, plaintext@, now),
                        forall|j: int|
                            0 <= j < i ==> (#[trigger] self.out@[j])@ == steps(before[j]).0,
                        forall|j: int|
                            i <= j < before.len() ==> (#[trigger] self.out@[j])@ == before[j],
                        tx@ == sender_packets(before, steps, i as int),
                    decreases self.out@.len() - i,
                {
                    let ghost v = self.out@[i as int]@;
                    let same_link: bool = self.out[i].link_id.same(&link.id);
                    let same_hash: bool = self.out[i].hash.same(&resource_hash);
                    let concluded: bool = self.out[i].status.is_concluded();
                    proof {
                        if v.hash@ == resource_hash@ {
                            assert(v.hash.0 =~= resource_hash.0);
                        }
                    }
                    if same_link && same_hash && !concluded {
                        self.out[i].request(link, plaintext, now, &mut tx);
                    } else {
                        assert(tx@ =~= tx@ + Seq::<LinkPacketView>::empty());
                    }
                    i += 1;
                }
                assert(self.senders() =~= stepped_senders(before, steps));
            },
        }
        tx
    }
}

/// What a step makes of each receiver.
pub open spec fn stepped_receivers(
    incoming: Seq<IncomingView>,
    step: spec_fn(IncomingView) -> (IncomingView, Seq<LinkPacketView>, bool),
) -> Seq<IncomingView> {
    Seq::new(incoming.len(), |i: int| step(incoming[i]).0)
}

/// The packets that a step over the first `n` receivers produces.
pub open spec fn receiver_packets(
    incoming: Seq<IncomingView>,
    step: spec_fn(IncomingView) -> (IncomingView, Seq<LinkPacketView>, bool),
    n: int,
) -> Seq<LinkPacketView>
    decreases n,
{
    if n <= 0 {
        Seq::empty()
    } else {
        receiver_packets(incoming, step, n - 1) + step(incoming[n - 1]).1
    }
}

/// What a part makes of one receiver.
pub open spec fn part_step(
    v: IncomingView,
    link_id: LinkId,
    data: Seq<u8>,
    link_rtt: u64,
    now: u64,
) -> (IncomingView, Seq<LinkPacketView>, bool) {
    if v.link_id == link_id && !v.status.concluded() {
        after_part(v, data, link_rtt, now)
    } else {
        (v, Seq::empty(), false)
    }
}

/// The step of a part.
pub open spec fn part_steps(link: Link, data: Seq<u8>, now: u64) -> spec_fn(IncomingView) -> (
    IncomingView,
    Seq<LinkPacketView>,
    bool,
) {
    |v: IncomingView| part_step(v, link.id, data, link.rtt, now)
}

/// The first receiver on a link with this resource hash, or the number of receivers.
pub open spec fn find_receiver(
    incoming: Seq<IncomingView>,
    link_id: LinkId,
    hash: Seq<u8>,
    from: int,
) -> int
    decreases incoming.len() - from,
{
    if from < 0 || from >= incoming.len() {
        incoming.len() as int
    } else if incoming[from].link_id == link_id && incoming[from].hash@ == hash {
        from
    } else {
        find_receiver(incoming, link_id, hash, from + 1)
    }
}

/// The event of a resource that ended without data.
pub open spec fn ended_event(
    link_id: LinkId,
    hash: crate::hash::Hash,
    status: ResourceStatus,
    progress: Progress,
    advertisement: AdvertisementView,
) -> EventView {
    EventView {
        link_id,
        hash,
        status,
        progress,
        data: None,
        metadata: None,
        advertisement: Some(advertisement),
    }
}

/// The sender is the one that a proof on a link is for, and it has not been completed yet.
pub open spec fn proves(v: OutgoingView, link_id: LinkId, proof_data: Seq<u8>) -> bool {
    &&& proof_data.len() == 64
    &&& v.link_id == link_id
    &&& v.hash@ == proof_data.subrange(0, 32)
    &&& v.status != ResourceStatus::Complete
    &&& proof_data.subrange(32, 64) == v.expected_proof@
}

/// A sender that a proof has completed.
pub open spec fn proven(v: OutgoingView) -> OutgoingView {
    OutgoingView { status: ResourceStatus::Complete, ..v }
}

/// What a proof makes of one sender.
pub open spec fn proof_step(v: OutgoingView, link_id: LinkId, proof_data: Seq<u8>) -> OutgoingView {
    if proves(v, link_id, proof_data) {
        proven(v)
    } else {
        v
    }
}

/// The events of the first `n` senders that a proof completes.
pub open spec fn proof_events(
    out: Seq<OutgoingView>,
    link_id: LinkId,
    proof_data: Seq<u8>,
    n: int,
) -> Seq<EventView>
    decreases n,
{
    if n <= 0 {
        Seq::empty()
    } else if proves(out[n - 1], link_id, proof_data) {
        proof_events(out, link_id, proof_data, n - 1).push(
            ended_event(
                link_id,
                out[n - 1].hash,
                ResourceStatus::Complete,
                at_most_one(sender_progress(proven(out[n - 1]))),
                advertisement_view(proven(out[n - 1])),
            ),
        )
    } else {
        proof_events(out, link_id, proof_data, n - 1)
    }
}

/// A proof calls for the segment that follows this sender's.
pub open spec fn calls_for_next(v: OutgoingView, link_id: LinkId, proof_data: Seq<u8>) -> bool {
    proves(v, link_id, proof_data) && v.segment_index < v.total_segments
}

/// The senders among the first `n` whose following segment a proof calls for.
pub open spec fn called_for(
    out: Seq<OutgoingView>,
    link_id: LinkId,
    proof_data: Seq<u8>,
    n: int,
) -> Seq<OutgoingView>
    decreases n,
{
    if n <= 0 {
        Seq::empty()
    } else if calls_for_next(out[n - 1], link_id, proof_data) {
        called_for(out, link_id, proof_data, n - 1).push(out[n - 1])
    } else {
        called_for(out, link_id, proof_data, n - 1)
    }
}

/// A segment that follows the one of a sender.
pub open spec fn follows(p: PendingSegment, v: OutgoingView) -> bool {
    &&& p.wf()
    &&& p.stream@ == v.original_stream
    &&& p.segment_index == v.segment_index + 1
    &&& p.original_hash == Some(v.original_hash)
    &&& p.auto_compress == v.auto_compress
    &&& p.has_metadata == v.has_metadata
    &&& p.metadata_size == v.metadata_size
    &&& p.timeout == v.requested_timeout
    &&& p.request_id == v.request_id
    &&& p.is_response == v.is_response
}

/// A resource on a link has the hash at the head of a payload and has not ended.
pub open spec fn addressed(
    link_id: LinkId,
    hash: Seq<u8>,
    status: ResourceStatus,
    to: LinkId,
    data: Seq<u8>,
) -> bool {
    data.len() >= 32 && link_id == to && hash == data.subrange(0, 32) && !status.concluded()
}

/// What a cancellation makes of one receiver.
pub open spec fn cancel_step(v: IncomingView, link_id: LinkId, data: Seq<u8>) -> IncomingView {
    if addressed(v.link_id, v.hash@, v.status, link_id, data) {
        IncomingView { status: ResourceStatus::Failed, ..v }
    } else {
        v
    }
}

/// The events of the first `n` receivers that a cancellation ends.
pub open spec fn cancel_events(
    incoming: Seq<IncomingView>,
    link_id: LinkId,
    data: Seq<u8>,
    n: int,
) -> Seq<EventView>
    decreases n,
{
    if n <= 0 {
        Seq::empty()
    } else {
        let v = incoming[n - 1];
        if addressed(v.link_id, v.hash@, v.status, link_id, data) {
            cancel_events(incoming, link_id, data, n - 1).push(
                ended_event(
                    link_id,
                    v.hash,
                    ResourceStatus::Failed,
                    Progress::nothing(),
                    receiver_advertisement(v),
                ),
            )
        } else {
            cancel_events(incoming, link_id, data, n - 1)
        }
    }
}

/// What a rejection makes of one sender.
pub open spec fn reject_step(v: OutgoingView, link_id: LinkId, data: Seq<u8>) -> OutgoingView {
    if addressed(v.link_id, v.hash@, v.status, link_id, data) {
        OutgoingView { status: ResourceStatus::Rejected, ..v }
    } else {
        v
    }
}

/// The events of the first `n` senders that a rejection ends.
pub open spec fn reject_events(
    out: Seq<OutgoingView>,
    link_id: LinkId,
    data: Seq<u8>,
    n: int,
) -> Seq<EventView>
    decreases n,
{
    if n <= 0 {
        Seq::empty()
    } else {
        let v = out[n - 1];
        if addressed(v.link_id, v.hash@, v.status, link_id, data) {
            reject_events(out, link_id, data, n - 1).push(
                ended_event(
                    link_id,
                    v.hash,
                    ResourceStatus::Rejected,
                    Progress::nothing(),
                    advertisement_view(v),
                ),
            )
        } else {
            reject_events(out, link_id, data, n - 1)
        }
    }
}

/// A transfer on this link has not ended.
pub open spec fn link_busy(out: Seq<OutgoingView>, link_id: LinkId) -> bool {
    exists|i: int|
        0 <= i < out.len() && (#[trigger] out[i]).link_id == link_id && !out[i].status.concluded()
}

impl ResourceManager {
    /// Handles a part. Returns the packets to send and whether a transfer is ready to be
    /// assembled.
    pub fn handle_part(&mut self, link: &Link, data: &[u8], now: u64) -> (r: (ResourceTx, bool))
        requires
            old(self).wf(),
            data@.len() <= PACKET_MDU,
        ensures
            final(self).wf(),
            *final(self) == (ResourceManager { incoming: final(self).incoming, ..*old(self) }),
            final(self).receivers() == stepped_receivers(
                old(self).receivers(),
                part_steps(*link, data@, now),
            ),
            r.0@ == receiver_packets(
                old(self).receivers(),
                part_steps(*link, data@, now),
                old(self).receivers().len() as int,
            ),
            r.1 == exists|i: int|
                0 <= i < old(self).receivers().len() && part_steps(*link, data@, now)(
                    #[trigger] old(self).receivers()[i],
                ).2,
    {
        let mut tx: ResourceTx = ResourceTx::default();
        let mut assembled: bool = false;
        let ghost before = self.receivers();
        let ghost steps = part_steps(*link, data@, now);
        let mut i: usize = 0;
        while i < self.incoming.len()
            invariant
                i <= self.incoming@.len(),
                data@.len() <= PACKET_MDU,
                self.wf(),
                *self == (ResourceManager { incoming: self.incoming, ..*old(self) }),
                before == old(self).receivers(),
                self.incoming@.len() == before.len(),
                steps == part_steps(*link, data@, now),
                forall|j: int| 0 <= j < i ==> (#[trigger] self.incoming@[j])@ == steps(before[j]).0,
                forall|j: int|
                    i <= j < before.len() ==> (#[trigger] self.incoming@[j])@ == before[j],
                tx@ == receiver_packets(before, steps, i as int),
                assembled == exists|j: int| 0 <= j < i && steps(#[trigger] before[j]).2,
            decreases self.incoming@.len() - i,
        {
            let same_link: bool = self.incoming[i].link_id.same(&link.id);
            let concluded: bool = self.incoming[i].status.is_concluded();
            let ghost was = assembled;
            if same_link && !concluded {
                let done: bool = self.incoming[i].receive_part(data, link, now, &mut tx);
                if done {
                    assembled = true;
                }
                assert(done == steps(before[i as int]).2);
            } else {
                assert(tx@ =~= tx@ + Seq::<LinkPacketView>::empty());
                assert(!steps(before[i as int]).2);
            }
            i += 1;
        }
        assert(self.receivers() =~= stepped_receivers(before, steps));
        (tx, assembled)
    }

    /// The first receiver on a link with the hash at the head of a payload.
    fn receiver_for(&self, link: &Link, plaintext: &[u8]) -> (r: usize)
        requires
            plaintext@.len() >= 32,
        ensures
            r == find_receiver(self.receivers(), link.id, plaintext@.subrange(0, 32), 0),
            r <= self.incoming@.len(),
    {
        let ghost views = self.receivers();
        let mut i: usize = 0;
        while i < self.incoming.len()
            invariant
                i <= self.incoming@.len(),
                plaintext@.len() >= 32,
                views == self.receivers(),
                find_receiver(views, link.id, plaintext@.subrange(0, 32), 0) == find_receiver(
                    views,
                    link.id,
                    plaintext@.subrange(0, 32),
                    i as int,
                ),
            decreases self.incoming@.len() - i,
        {
            assert(views[i as int] == self.incoming@[i as int]@);
            let same_link: bool = self.incoming[i].link_id.same(&link.id);
            if same_link && bytes::equal(&plaintext[0..32], self.incoming[i].hash.as_slice()) {
                return i;
            }
            i += 1;
        }
        i
    }

    /// Handles a hashmap update.
    pub fn handle_hashmap_update(&mut self, link: &Link, plaintext: &[u8], now: u64) -> (tx:
        ResourceTx)
        requires
            old(self).wf(),
        ensures
            final(self).wf(),
            *final(self) == (ResourceManager { incoming: final(self).incoming, ..*old(self) }),
            ({
                let before = old(self).receivers();
                let k = find_receiver(before, link.id, plaintext@.subrange(0, 32), 0);
                if plaintext@.len() < 32 || k >= before.len() {
                    final(self).receivers() == before && tx@ == Seq::<LinkPacketView>::empty()
                } else {
                    let (v, packets) = after_request_next(
                        after_hashmap_packet(before[k], plaintext@, now),
                        now,
                    );
                    final(self).receivers() == before.update(k, v) && tx@ == packets
                }
            }),
    {
        let mut tx: ResourceTx = ResourceTx::default();
        if plaintext.len() < 32 {
            return tx;
        }
        let k: usize = self.receiver_for(link, plaintext);
        if k < self.incoming.len() {
            let ghost before = self.receivers();
            assert(before[k as int] == self.incoming@[k as int]@);
            self.incoming[k].hashmap_update_packet(plaintext, now);
            self.incoming[k].request_next(link, now, &mut tx);
            assert(self.receivers() =~= before.update(k as int, self.incoming@[k as int]@));
            assert(tx@ =~= after_request_next(
                after_hashmap_packet(before[k as int], plaintext@, now),
                now,
            ).1);
        }
        tx
    }

    /// Records an event.
    pub(crate) fn emit(&mut self, event: ResourceEvent)
        requires
            old(self).wf(),
        ensures
            final(self).wf(),
            *final(self) == (ResourceManager { events: final(self).events, ..*old(self) }),
            event_views(final(self).events@) == event_views(old(self).events@).push(event@),
    {
        self.events.push(event);
        assert(event_views(self.events@) =~= event_views(old(self).events@).push(event@));
    }

    /// Handles a proof: the proven sender is complete. Returns the segments that have to be
    /// sealed and sent next.
    pub fn handle_proof(&mut self, link: &Link, proof_data: &[u8]) -> (next: Vec<PendingSegment>)
        requires
            old(self).wf(),
        ensures
            final(self).wf(),
            *final(self) == (ResourceManager {
                out: final(self).out,
                events: final(self).events,
                ..*old(self)
            }),
            final(self).senders() == old(self).senders().map_values(
                |v: OutgoingView| proof_step(v, link.id, proof_data@),
            ),
            event_views(final(self).events@) == event_views(old(self).events@) + proof_events(
                old(self).senders(),
                link.id,
                proof_data@,
                old(self).senders().len() as int,
            ),
            ({
                let called = called_for(
                    old(self).senders(),
                    link.id,
                    proof_data@,
                    old(self).senders().len() as int,
                );
                &&& next@.len() == called.len()
                &&& forall|i: int| 0 <= i < next@.len() ==> follows(#[trigger] next@[i], called[i])
            }),
    {
        let ghost before = self.senders();
        let mut next: Vec<PendingSegment> = Vec::new();
        let mut i: usize = 0;
        let ghost events = event_views(self.events@);
        assert(events + Seq::<EventView>::empty() =~= events);
        while i < self.out.len()
            invariant
                i <= self.out@.len(),
                self.wf(),
                *self == (ResourceManager { out: self.out, events: self.events, ..*old(self) }),
                before == old(self).senders(),
                self.out@.len() == before.len(),
                events == event_views(old(self).events@),
                forall|j: int|
                    0 <= j < i ==> (#[trigger] self.out@[j])@ == proof_step(
                        before[j],
                        link.id,
                        proof_data@,
                    ),
                forall|j: int| i <= j < before.len() ==> (#[trigger] self.out@[j])@ == before[j],
                event_views(self.events@) == events + proof_events(
                    before,
                    link.id,
                    proof_data@,
                    i as int,
                ),
                next@.len() == called_for(before, link.id, proof_data@, i as int).len(),
                forall|j: int|
                    0 <= j < next@.len() ==> follows(
                        #[trigger] next@[j],
                        called_for(before, link.id, proof_data@, i as int)[j],
                    ),
            decreases self.out@.len() - i,
        {
            let ghost v = self.out@[i as int]@;
            let same_link: bool = self.out[i].link_id.same(&link.id);
            let complete: bool = self.out[i].status == ResourceStatus::Complete;
            if proof_data.len() == 64 && same_link && !complete && bytes::equal(
                &proof_data[0..32],
                self.out[i].hash.as_slice(),
            ) {
                let valid: bool = self.out[i].validate_proof(proof_data);
                if valid {
                    assert(proves(v, link.id, proof_data@));
                    assert(self.out@[i as int]@ == proven(v));
                    let event: ResourceEvent = ResourceEvent {
                        link_id: link.id,
                        hash: self.out[i].hash,
                        status: ResourceStatus::Complete,
                        progress: self.out[i].progress(),
                        data: None,
                        metadata: None,
                        advertisement: Some(self.out[i].advertisement()),
                    };
                    match self.out[i].prepare_next_segment() {
                        Some(segment) => next.push(segment),
                        None => {},
                    }
                    self.emit(event);
                    assert(event_views(self.events@) =~= events + proof_events(
                        before,
                        link.id,
                        proof_data@,
                        i + 1,
                    ));
                }
            }
            i += 1;
        }
        assert(self.senders() =~= before.map_values(
            |v: OutgoingView| proof_step(v, link.id, proof_data@),
        ));
        next
    }

    /// Advertises the sealed next segment of a split resource.
    pub fn add_segment(&mut self, sender: OutgoingResource, link: &Link, now: u64) -> (tx:
        ResourceTx)
        requires
            old(self).wf(),
            sender.wf(),
        ensures
            final(self).wf(),
            *final(self) == (ResourceManager { out: final(self).out, ..*old(self) }),
            final(self).senders() == old(self).senders().push(advertised(sender@, now)),
            tx@ == seq![advertisement_packet(sender@)],
    {
        let mut tx: ResourceTx = ResourceTx::default();
        let mut sender = sender;
        let ghost v = sender@;
        let _ = sender.advertise(link, now, &mut tx);
        self.out.push(sender);
        assert(self.senders() =~= old(self).senders().push(advertised(v, now)));
        assert(tx@ =~= seq![advertisement_packet(v)]);
        tx
    }

    /// Whether a transfer on this link has not ended.
    fn is_link_busy(&self, link_id: &LinkId) -> (r: bool)
        ensures
            r == link_busy(self.senders(), *link_id),
    {
        let ghost views = self.senders();
        let mut i: usize = 0;
        while i < self.out.len()
            invariant
                i <= self.out@.len(),
                views == self.senders(),
                forall|j: int|
                    0 <= j < i ==> !((#[trigger] views[j]).link_id == *link_id
                        && !views[j].status.concluded()),
            decreases self.out@.len() - i,
        {
            assert(views[i as int] == self.out@[i as int]@);
            let same_link: bool = self.out[i].link_id.same(link_id);
            if same_link && !self.out[i].status.is_concluded() {
                return true;
            }
            i += 1;
        }
        false
    }

    /// Takes on a sealed resource: advertises it, or queues it while another transfer on the link
    /// has not ended.
    pub fn send_resource(&mut self, sender: OutgoingResource, link: &Link, now: u64) -> (tx:
        ResourceTx)
        requires
            old(self).wf(),
            sender.wf(),
        ensures
            final(self).wf(),
            *final(self) == (ResourceManager { out: final(self).out, ..*old(self) }),
            link_busy(old(self).senders(), link.id) ==> final(self).senders() == old(
                self,
            ).senders().push((OutgoingView { status: ResourceStatus::Queued, ..sender@ })) && tx@
                == Seq::<LinkPacketView>::empty(),
            !link_busy(old(self).senders(), link.id) ==> final(self).senders() == old(
                self,
            ).senders().push(advertised(sender@, now)) && tx@ == seq![
                advertisement_packet(sender@),
            ],
    {
        if self.is_link_busy(&link.id) {
            let mut sender = sender;
            let ghost v = sender@;
            sender.status = ResourceStatus::Queued;
            self.out.push(sender);
            assert(self.senders() =~= old(self).senders().push(
                OutgoingView { status: ResourceStatus::Queued, ..v },
            ));
            ResourceTx::default()
        } else {
            self.add_segment(sender, link, now)
        }
    }

    /// Handles a cancellation by the sender.
    pub fn handle_cancel(&mut self, link: &Link, plaintext: &[u8])
        requires
            old(self).wf(),
        ensures
            final(self).wf(),
            *final(self) == (ResourceManager {
                incoming: final(self).incoming,
                events: final(self).events,
                ..*old(self)
            }),
            final(self).receivers() == old(self).receivers().map_values(
                |v: IncomingView| cancel_step(v, link.id, plaintext@),
            ),
            event_views(final(self).events@) == event_views(old(self).events@) + cancel_events(
                old(self).receivers(),
                link.id,
                plaintext@,
                old(self).receivers().len() as int,
            ),
    {
        let ghost before = self.receivers();
        let ghost events = event_views(self.events@);
        assert(events + Seq::<EventView>::empty() =~= events);
        let mut i: usize = 0;
        while i < self.incoming.len()
            invariant
                i <= self.incoming@.len(),
                self.wf(),
                *self == (ResourceManager {
                    incoming: self.incoming,
                    events: self.events,
                    ..*old(self)
                }),
                before == old(self).receivers(),
                self.incoming@.len() == before.len(),
                events == event_views(old(self).events@),
                forall|j: int|
                    0 <= j < i ==> (#[trigger] self.incoming@[j])@ == cancel_step(
                        before[j],
                        link.id,
                        plaintext@,
                    ),
                forall|j: int|
                    i <= j < before.len() ==> (#[trigger] self.incoming@[j])@ == before[j],
                event_views(self.events@) == events + cancel_events(
                    before,
                    link.id,
                    plaintext@,
                    i as int,
                ),
            decreases self.incoming@.len() - i,
        {
            let ghost v = self.incoming@[i as int]@;
            let same_link: bool = self.incoming[i].link_id.same(&link.id);
            let concluded: bool = self.incoming[i].status.is_concluded();
            if plaintext.len() >= 32 && same_link && !concluded && bytes::equal(
                &plaintext[0..32],
                self.incoming[i].hash.as_slice(),
            ) {
                let event: ResourceEvent = ResourceEvent {
                    link_id: link.id,
                    hash: self.incoming[i].hash,
                    status: ResourceStatus::Failed,
                    progress: Progress { done: 0, total: 1 },
                    data: None,
                    metadata: None,
                    advertisement: Some(self.incoming[i].advertisement_of()),
                };
                self.incoming[i].status = ResourceStatus::Failed;
                self.emit(event);
                assert(event_views(self.events@) =~= events + cancel_events(
                    before,
                    link.id,
                    plaintext@,
                    i + 1,
                ));
            }
            i += 1;
        }
        assert(self.receivers() =~= before.map_values(
            |v: IncomingView| cancel_step(v, link.id, plaintext@),
        ));
    }

    /// Handles a rejection by the receiver.
    pub fn handle_reject(&mut self, link: &Link, plaintext: &[u8])
        requires
            old(self).wf(),
        ensures
            final(self).wf(),
            *final(self) == (ResourceManager {
                out: final(self).out,
                events: final(self).events,
                ..*old(self)
            }),
            final(self).senders() == old(self).senders().map_values(
                |v: OutgoingView| reject_step(v, link.id, plaintext@),
            ),
            event_views(final(self).events@) == event_views(old(self).events@) + reject_events(
                old(self).senders(),
                link.id,
                plaintext@,
                old(self).senders().len() as int,
            ),
    {
        let ghost before = self.senders();
        let ghost events = event_views(self.events@);
        assert(events + Seq::<EventView>::empty() =~= events);
        let mut i: usize = 0;
        while i < self.out.len()
            invariant
                i <= self.out@.len(),
                self.wf(),
                *self == (ResourceManager { out: self.out, events: self.events, ..*old(self) }),
                before == old(self).senders(),
                self.out@.len() == before.len(),
                events == event_views(old(self).events@),
                forall|j: int|
                    0 <= j < i ==> (#[trigger] self.out@[j])@ == reject_step(
                        before[j],
                        link.id,
                        plaintext@,
                    ),
                forall|j: int| i <= j < before.len() ==> (#[trigger] self.out@[j])@ == before[j],
                event_views(self.events@) == events + reject_events(
                    before,
                    link.id,
                    plaintext@,
                    i as int,
                ),
            decreases self.out@.len() - i,
        {
            let ghost v = self.out@[i as int]@;
            let same_link: bool = self.out[i].link_id.same(&link.id);
            let concluded: bool = self.out[i].status.is_concluded();
            if plaintext.len() >= 32 && same_link && !concluded && bytes::equal(
                &plaintext[0..32],
                self.out[i].hash.as_slice(),
            ) {
                let event: ResourceEvent = ResourceEvent {
                    link_id: link.id,
                    hash: self.out[i].hash,
                    status: ResourceStatus::Rejected,
                    progress: Progress { done: 0, total: 1 },
                    data: None,
                    metadata: None,
                    advertisement: Some(self.out[i].advertisement()),
                };
                self.out[i].status = ResourceStatus::Rejected;
                self.emit(event);
                assert(event_views(self.events@) =~= events + reject_events(
                    before,
                    link.id,
                    plaintext@,
                    i + 1,
                ));
            }
            i += 1;
        }
        assert(self.senders() =~= before.map_values(
            |v: OutgoingView| reject_step(v, link.id, plaintext@),
        ));
    }
}

} // verus!
