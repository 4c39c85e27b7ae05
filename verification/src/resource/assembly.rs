//! Assembly of completed incoming resources.

use vstd::prelude::*;

use crate::bytes;
use crate::error::RnsError;
use crate::hash::AddressHash;
use crate::link::{raw_packet, Link, LinkId, LinkPacketView};
use crate::packet::{PacketContext, PacketType};
use crate::resource::inbound::{
    after_assembly, content, proof_payload, receiver_advertisement, receiver_progress, IncomingView,
};
use crate::resource::manager::{
    ended_event, event_views, EventView, RequestEvent, RequestEventData, RequestEventView,
    ResourceEvent, ResourceManager, SplitAssembly, SplitView, SPLIT_ASSEMBLY_GRACE_BYTES,
};
use crate::resource::request::{unpack_response, unpacked_response};
use crate::resource::{Progress, ResourceStatus, ResourceTx};

verus! {

/// The receiver has all parts and awaits assembly.
pub open spec fn awaits_assembly(v: IncomingView, link_id: LinkId) -> bool {
    v.link_id == link_id && v.assembled is None && v.status == ResourceStatus::Assembling
}

/// The first receiver on a link that awaits assembly, or the number of receivers.
pub open spec fn find_assembling(incoming: Seq<IncomingView>, link_id: LinkId, from: int) -> int
    decreases incoming.len() - from,
{
    if from < 0 || from >= incoming.len() {
        incoming.len() as int
    } else if awaits_assembly(incoming[from], link_id) {
        from
    } else {
        find_assembling(incoming, link_id, from + 1)
    }
}

/// A split assembly that has taken in a segment; `None` when the segment is not the next one of
/// the same transfer, or when it would make the assembly outgrow its advertised size.
pub open spec fn absorbed(
    prior: Option<SplitView>,
    v: IncomingView,
    data: Seq<u8>,
    now: u64,
) -> Option<SplitView> {
    let base = match prior {
        Some(assembly) => assembly,
        None => SplitView {
            data: Seq::empty(),
            metadata: None,
            next_index: 1,
            total_segments: v.total_segments,
            data_size: v.total_size,
            last_activity: now,
        },
    };
    if v.segment_index != base.next_index || v.total_segments != base.total_segments
        || v.total_size != base.data_size || base.data.len() + data.len() > base.data_size
        + SPLIT_ASSEMBLY_GRACE_BYTES {
        None
    } else {
        Some(
            SplitView {
                data: base.data + data,
                metadata: if v.segment_index == 1 && base.metadata is None {
                    v.metadata
                } else {
                    base.metadata
                },
                next_index: base.next_index.saturating_add(1),
                last_activity: now,
                ..base
            },
        )
    }
}

/// A split assembly never outgrows its advertised size by more than the tolerance.
pub proof fn assemblies_are_bounded(
    prior: Option<SplitView>,
    v: IncomingView,
    data: Seq<u8>,
    now: u64,
)
    ensures
        absorbed(prior, v, data, now) matches Some(assembly) ==> assembly.data.len()
            <= v.total_size + SPLIT_ASSEMBLY_GRACE_BYTES && assembly.data_size == v.total_size,
{
}

/// What became of a receiver that awaited assembly.
#[verifier::ext_equal]
pub struct AssemblyOutcome {
    pub receiver: IncomingView,
    pub packets: Seq<LinkPacketView>,
    pub event: EventView,
    /// The split assembly afterwards.
    pub split: Option<SplitView>,
    /// The complete data, once there is.
    pub full: Option<Seq<u8>>,
    /// The metadata of the complete data.
    pub metadata: Option<Seq<u8>>,
}

/// The event of a segment or resource that is complete.
pub open spec fn completed_event(
    link_id: LinkId,
    v: IncomingView,
    data: Option<Seq<u8>>,
    metadata: Option<Seq<u8>>,
) -> EventView {
    EventView {
        link_id,
        hash: v.hash,
        status: ResourceStatus::Complete,
        progress: receiver_progress(v),
        data,
        metadata,
        advertisement: Some(receiver_advertisement(v)),
    }
}

/// What becomes of a receiver whose data is complete and verified.
pub open spec fn completed_outcome(
    link_id: LinkId,
    w: IncomingView,
    data: Seq<u8>,
    prior: Option<SplitView>,
    now: u64,
) -> AssemblyOutcome {
    let x = IncomingView { status: ResourceStatus::Complete, last_activity: now, ..w };
    let packets = seq![
        raw_packet(
            PacketType::Proof,
            PacketContext::ResourceProof,
            proof_payload(w.hash@, w.assembled->0),
        ),
    ];
    if !w.split {
        AssemblyOutcome {
            receiver: x,
            packets,
            event: completed_event(link_id, x, Some(data), w.metadata),
            split: prior,
            full: Some(data),
            metadata: w.metadata,
        }
    } else {
        match absorbed(prior, w, data, now) {
            None => AssemblyOutcome {
                receiver: IncomingView { status: ResourceStatus::Corrupt, ..x },
                packets,
                event: ended_event(
                    link_id,
                    x.hash,
                    ResourceStatus::Corrupt,
                    Progress::nothing(),
                    receiver_advertisement(x),
                ),
                split: None,
                full: None,
                metadata: None,
            },
            Some(assembly) => if w.segment_index == w.total_segments {
                AssemblyOutcome {
                    receiver: x,
                    packets,
                    event: completed_event(link_id, x, Some(assembly.data), assembly.metadata),
                    split: None,
                    full: Some(assembly.data),
                    metadata: assembly.metadata,
                }
            } else {
                AssemblyOutcome {
                    receiver: x,
                    packets,
                    event: completed_event(link_id, x, None, None),
                    split: Some(assembly),
                    full: None,
                    metadata: None,
                }
            },
        }
    }
}

/// What becomes of a receiver that awaited assembly.
pub open spec fn assembly_outcome(
    link_id: LinkId,
    v: IncomingView,
    unsealed: Option<Seq<u8>>,
    max_size: usize,
    prior: Option<SplitView>,
    now: u64,
) -> AssemblyOutcome {
    match after_assembly(v, unsealed, max_size) {
        (w, Ok(data)) => completed_outcome(link_id, w, data, prior, now),
        (w, Err(_)) => {
            let x = IncomingView { status: ResourceStatus::Corrupt, ..w };
            AssemblyOutcome {
                receiver: x,
                packets: Seq::empty(),
                event: ended_event(
                    link_id,
                    x.hash,
                    ResourceStatus::Corrupt,
                    receiver_progress(x),
                    receiver_advertisement(x),
                ),
                split: if v.split {
                    None
                } else {
                    prior
                },
                full: None,
                metadata: None,
            }
        },
    }
}

/// The split assembly of a first-segment hash.
pub open spec fn split_at(
    table: Map<crate::hash::Hash, SplitAssembly>,
    hash: crate::hash::Hash,
) -> Option<SplitView> {
    if table.dom().contains(hash) {
        Some(table[hash]@)
    } else {
        None
    }
}

/// Only the split assembly of one hash may differ.
pub open spec fn same_splits_but(
    a: Map<crate::hash::Hash, SplitAssembly>,
    b: Map<crate::hash::Hash, SplitAssembly>,
    hash: crate::hash::Hash,
) -> bool {
    forall|h: crate::hash::Hash| h != hash ==> #[trigger] split_at(a, h) == split_at(b, h)
}

/// The request event of a complete response resource.
pub open spec fn response_event(
    request_id: Seq<u8>,
    full: Seq<u8>,
    metadata: Option<Seq<u8>>,
) -> RequestEventView {
    match unpacked_response(full) {
        Some((id, response)) => RequestEventView::Response {
            request_id: id,
            data: response,
            metadata,
        },
        None => if metadata is Some {
            RequestEventView::Response { request_id, data: full, metadata }
        } else {
            RequestEventView::Failed { request_id }
        },
    }
}

/// The response that is retained for the request: the unpacked one when it names the request, or
/// the raw data of a resource with metadata.
pub open spec fn retained_response(
    request_id: Seq<u8>,
    full: Seq<u8>,
    metadata: Option<Seq<u8>>,
) -> Option<Seq<u8>> {
    match unpacked_response(full) {
        Some((id, response)) => if id == request_id {
            Some(response)
        } else {
            None
        },
        None => if metadata is Some {
            Some(full)
        } else {
            None
        },
    }
}

/// The request that a completed receiver answers.
pub open spec fn answered_request(v: IncomingView, full: Option<Seq<u8>>) -> Option<AddressHash> {
    if v.is_response && v.segment_index == v.total_segments && full is Some {
        v.request_id
    } else {
        None
    }
}

/// A copy of an optional byte string.
pub fn copy_content(data: &Option<Vec<u8>>) -> (r: Option<Vec<u8>>)
    ensures
        content(r) == content(*data),
{
    match data {
        Some(data) => Some(bytes::to_vec(data)),
        None => None,
    }
}

/// What taking in a segment of a split resource led to.
enum Absorbed {
    Inconsistent,
    More,
    Done(Vec<u8>, Option<Vec<u8>>),
}

impl ResourceManager {
    /// The first receiver on a link that awaits assembly, by its place among the receivers. Its
    /// sealed stream is what the link has to unseal.
    pub fn next_to_assemble(&self, link: &Link) -> (r: Option<usize>)
        ensures
            match r {
                Some(k) => k == find_assembling(self.receivers(), link.id, 0) && k
                    < self.incoming@.len(),
                None => find_assembling(self.receivers(), link.id, 0) == self.incoming@.len(),
            },
    {
        let ghost views = self.receivers();
        let mut i: usize = 0;
        while i < self.incoming.len()
            invariant
                i <= self.incoming@.len(),
                views == self.receivers(),
                find_assembling(views, link.id, 0) == find_assembling(views, link.id, i as int),
            decreases self.incoming@.len() - i,
        {
            assert(views[i as int] == self.incoming@[i as int]@);
            let same_link: bool = self.incoming[i].link_id.same(&link.id);
            if same_link && self.incoming[i].assembled.is_none() && self.incoming[i].status
                == ResourceStatus::Assembling {
                return Some(i);
            }
            i += 1;
        }
        None
    }

    /// Takes a segment of a split resource in.
    fn absorb(&mut self, k: usize, data: Vec<u8>, now: u64) -> (r: Absorbed)
        requires
            old(self).wf(),
            k < old(self).incoming@.len(),
        ensures
            final(self).wf(),
            *final(self) == (ResourceManager {
                split_assembly: final(self).split_assembly,
                ..*old(self)
            }),
            ({
                let v = old(self).incoming@[k as int]@;
                let hash = v.original_hash;
                let prior = split_at(old(self).split_assembly@, hash);
                let after = split_at(final(self).split_assembly@, hash);
                &&& same_splits_but(
                    old(self).split_assembly@,
                    final(self).split_assembly@,
                    hash,
                )
                &&& match absorbed(prior, v, data@, now) {
                    None => r is Inconsistent && after is None,
                    Some(assembly) => if v.segment_index == v.total_segments {
                        after is None && match r {
                            Absorbed::Done(full, metadata) => full@ == assembly.data && content(
                                metadata,
                            ) == assembly.metadata,
                            _ => false,
                        }
                    } else {
                        r is More && after == Some(assembly)
                    },
                }
            }),
    {
        let hash: crate::hash::Hash = self.incoming[k].original_hash;
        let segment_index: usize = self.incoming[k].segment_index;
        let total_segments: usize = self.incoming[k].total_segments;
        let data_size: usize = self.incoming[k].total_size;
        let metadata: Option<Vec<u8>> = copy_content(&self.incoming[k].metadata);
        let mut assembly: SplitAssembly = match self.split_assembly.remove(&hash) {
            Some(assembly) => assembly,
            None => SplitAssembly {
                data: Vec::new(),
                metadata: None,
                next_index: 1,
                total_segments,
                data_size,
                last_activity: now,
            },
        };
        if segment_index != assembly.next_index || total_segments != assembly.total_segments
            || data_size != assembly.data_size || assembly.data.len() as u128 + data.len() as u128
            > data_size as u128 + SPLIT_ASSEMBLY_GRACE_BYTES as u128 {
            return Absorbed::Inconsistent;
        }
        if segment_index == 1 && assembly.metadata.is_none() {
            assembly.metadata = metadata;
        }
        bytes::append(&mut assembly.data, &data);
        assembly.next_index = assembly.next_index.saturating_add(1);
        assembly.last_activity = now;
        if segment_index == total_segments {
            return Absorbed::Done(assembly.data, assembly.metadata);
        }
        self.split_assembly.insert(hash, assembly);
        Absorbed::More
    }

    /// Tells of a complete response resource: retains the response and records the event.
    fn settle_response(
        &mut self,
        link: &Link,
        request_id: AddressHash,
        full: &Vec<u8>,
        metadata: &Option<Vec<u8>>,
    )
        requires
            old(self).wf(),
        ensures
            final(self).wf(),
            *final(self) == (ResourceManager {
                completed_responses: final(self).completed_responses,
                pending_requests: final(self).pending_requests,
                request_events: final(self).request_events,
                ..*old(self)
            }),
            final(self).pending_requests@ == old(self).pending_requests@.remove(request_id),
            final(self).request_events@.len() == old(self).request_events@.len() + 1,
            final(self).request_events@.drop_last() == old(self).request_events@,
            final(self).request_events@.last().link_id == link.id,
            final(self).request_events@.last().event@ == response_event(
                request_id@,
                full@,
                content(*metadata),
            ),
            match retained_response(request_id@, full@, content(*metadata)) {
                Some(response) => {
                    &&& final(self).completed_responses@.dom().contains(request_id)
                    &&& content(final(self).completed_responses@[request_id]) == Some(response)
                    &&& final(self).completed_responses@.remove(request_id) == old(
                        self,
                    ).completed_responses@.remove(request_id)
                },
                None => final(self).completed_responses@ == old(self).completed_responses@,
            },
    {
        let event: RequestEvent = match unpack_response(full) {
            Some((id, response)) => {
                if id.same(&request_id) {
                    self.completed_responses.insert(request_id, Some(bytes::to_vec(&response)));
                    assert(self.completed_responses@.remove(request_id) =~= old(
                        self,
                    ).completed_responses@.remove(request_id));
                } else {
                    assert(id@ != request_id@) by {
                        if id@ == request_id@ {
                            assert(id.0 =~= request_id.0);
                        }
                    }
                }
                RequestEvent::Response {
                    request_id: id,
                    data: response,
                    metadata: copy_content(metadata),
                }
            },
            None => {
                if metadata.is_some() {
                    self.completed_responses.insert(request_id, Some(bytes::to_vec(full)));
                    assert(self.completed_responses@.remove(request_id) =~= old(
                        self,
                    ).completed_responses@.remove(request_id));
                    RequestEvent::Response {
                        request_id,
                        data: bytes::to_vec(full),
                        metadata: copy_content(metadata),
                    }
                } else {
                    RequestEvent::Failed { request_id }
                }
            },
        };
        self.request_events.push(RequestEventData { link_id: link.id, event });
        let _ = self.pending_requests.remove(&request_id);
        assert(self.request_events@.drop_last() =~= old(self).request_events@);
    }
}

/// The state that telling of a response changes: what it leaves and what it records.
pub open spec fn response_settled(
    before: ResourceManager,
    after: ResourceManager,
    link_id: LinkId,
    request_id: AddressHash,
    full: Seq<u8>,
    metadata: Option<Seq<u8>>,
) -> bool {
    &&& after.pending_requests@ == before.pending_requests@.remove(request_id)
    &&& after.request_events@.len() == before.request_events@.len() + 1
    &&& after.request_events@.drop_last() == before.request_events@
    &&& after.request_events@.last().link_id == link_id
    &&& after.request_events@.last().event@ == response_event(request_id@, full, metadata)
    &&& match retained_response(request_id@, full, metadata) {
        Some(response) => {
            &&& after.completed_responses@.dom().contains(request_id)
            &&& content(after.completed_responses@[request_id]) == Some(response)
            &&& after.completed_responses@.remove(request_id)
                == before.completed_responses@.remove(request_id)
        },
        None => after.completed_responses@ == before.completed_responses@,
    }
}

/// Nothing about requests and responses has changed.
pub open spec fn responses_unchanged(before: ResourceManager, after: ResourceManager) -> bool {
    &&& after.completed_responses == before.completed_responses
    &&& after.pending_requests == before.pending_requests
    &&& after.request_events == before.request_events
}

/// What assembling makes of the receivers, the split assemblies and the events.
pub open spec fn outcome_applied(
    before: ResourceManager,
    after: ResourceManager,
    k: int,
    o: AssemblyOutcome,
) -> bool {
    let hash = before.receivers()[k].original_hash;
    &&& after.receivers() == before.receivers().update(k, o.receiver)
    &&& event_views(after.events@) == event_views(before.events@).push(o.event)
    &&& split_at(after.split_assembly@, hash) == o.split
    &&& same_splits_but(before.split_assembly@, after.split_assembly@, hash)
}

impl ResourceManager {
    /// Gives up on a receiver whose data did not check out.
    fn fail_assembly(&mut self, k: usize, link: &Link)
        requires
            old(self).wf(),
            k < old(self).incoming@.len(),
        ensures
            final(self).wf(),
            *final(self) == (ResourceManager {
                incoming: final(self).incoming,
                split_assembly: final(self).split_assembly,
                events: final(self).events,
                ..*old(self)
            }),
            ({
                let w = old(self).incoming@[k as int]@;
                let x = IncomingView { status: ResourceStatus::Corrupt, ..w };
                &&& final(self).receivers() == old(self).receivers().update(k as int, x)
                &&& event_views(final(self).events@) == event_views(old(self).events@).push(
                    ended_event(
                        link.id,
                        x.hash,
                        ResourceStatus::Corrupt,
                        receiver_progress(x),
                        receiver_advertisement(x),
                    ),
                )
                &&& split_at(final(self).split_assembly@, w.original_hash) == (if w.split {
                    None
                } else {
                    split_at(old(self).split_assembly@, w.original_hash)
                })
                &&& same_splits_but(
                    old(self).split_assembly@,
                    final(self).split_assembly@,
                    w.original_hash,
                )
            }),
    {
        let ghost before = self.receivers();
        self.incoming[k].status = ResourceStatus::Corrupt;
        assert(self.receivers() =~= before.update(k as int, self.incoming@[k as int]@));
        let original_hash: crate::hash::Hash = self.incoming[k].original_hash;
        if self.incoming[k].split {
            let _ = self.split_assembly.remove(&original_hash);
        }
        let event: ResourceEvent = ResourceEvent {
            link_id: link.id,
            hash: self.incoming[k].hash,
            status: ResourceStatus::Corrupt,
            progress: self.incoming[k].progress(),
            data: None,
            metadata: None,
            advertisement: Some(self.incoming[k].advertisement_of()),
        };
        self.emit(event);
    }

    /// Proves a receiver whose data is complete and verified, and marks it so.
    fn prove_receiver(&mut self, k: usize, link: &Link, now: u64, tx: &mut ResourceTx)
        requires
            old(self).wf(),
            k < old(self).incoming@.len(),
            old(self).incoming@[k as int]@.assembled is Some,
        ensures
            final(self).wf(),
            *final(self) == (ResourceManager { incoming: final(self).incoming, ..*old(self) }),
            ({
                let w = old(self).incoming@[k as int]@;
                let x = IncomingView { status: ResourceStatus::Complete, last_activity: now, ..w };
                &&& final(self).receivers() == old(self).receivers().update(k as int, x)
                &&& final(self).incoming@.len() == old(self).incoming@.len()
                &&& final(self).incoming@[k as int]@ == x
                &&& final(tx)@ == old(tx)@ + seq![
                    raw_packet(
                        PacketType::Proof,
                        PacketContext::ResourceProof,
                        proof_payload(w.hash@, w.assembled->0),
                    ),
                ]
            }),
    {
        let ghost before = self.receivers();
        let ghost w = self.incoming@[k as int]@;
        let assembled: Option<Vec<u8>> = copy_content(&self.incoming[k].assembled);
        let data: Vec<u8> = match assembled {
            Some(data) => data,
            None => Vec::new(),
        };
        assert(data@ == w.assembled->0);
        self.incoming[k].prove(link, &data, tx);
        self.incoming[k].last_activity = now;
        assert(self.receivers() =~= before.update(k as int, self.incoming@[k as int]@));
        assert(tx@ =~= old(tx)@ + seq![
            raw_packet(
                PacketType::Proof,
                PacketContext::ResourceProof,
                proof_payload(w.hash@, w.assembled->0),
            ),
        ]);
    }

    /// Records the event of a segment or resource that is complete.
    fn emit_completed(
        &mut self,
        k: usize,
        link: &Link,
        data: Option<Vec<u8>>,
        metadata: Option<Vec<u8>>,
    )
        requires
            old(self).wf(),
            k < old(self).incoming@.len(),
        ensures
            final(self).wf(),
            *final(self) == (ResourceManager { events: final(self).events, ..*old(self) }),
            event_views(final(self).events@) == event_views(old(self).events@).push(
                completed_event(
                    link.id,
                    old(self).incoming@[k as int]@,
                    content(data),
                    content(metadata),
                ),
            ),
    {
        let event: ResourceEvent = ResourceEvent {
            link_id: link.id,
            hash: self.incoming[k].hash,
            status: ResourceStatus::Complete,
            progress: self.incoming[k].progress(),
            data,
            metadata,
            advertisement: Some(self.incoming[k].advertisement_of()),
        };
        self.emit(event);
    }

    /// Completes a receiver whose data is verified. Returns the complete data and its metadata,
    /// once there is.
    fn complete_assembly(
        &mut self,
        k: usize,
        data: Vec<u8>,
        link: &Link,
        now: u64,
        tx: &mut ResourceTx,
    ) -> (r: Option<(Vec<u8>, Option<Vec<u8>>)>)
        requires
            old(self).wf(),
            k < old(self).incoming@.len(),
            old(self).incoming@[k as int]@.assembled is Some,
        ensures
            final(self).wf(),
            *final(self) == (ResourceManager {
                incoming: final(self).incoming,
                split_assembly: final(self).split_assembly,
                events: final(self).events,
                ..*old(self)
            }),
            ({
                let w = old(self).incoming@[k as int]@;
                let prior = split_at(old(self).split_assembly@, w.original_hash);
                let o = completed_outcome(link.id, w, data@, prior, now);
                &&& outcome_applied(*old(self), *final(self), k as int, o)
                &&& final(tx)@ == old(tx)@ + o.packets
                &&& match o.full {
                    Some(full) => r is Some && (r->0).0@ == full && content((r->0).1)
                        == o.metadata,
                    None => r is None,
                }
            }),
    {
        let ghost w = self.incoming@[k as int]@;
        let ghost views = self.receivers();
        assert(views[k as int] == w);
        self.prove_receiver(k, link, now, tx);
        if !self.incoming[k].split {
            let metadata: Option<Vec<u8>> = copy_content(&self.incoming[k].metadata);
            self.emit_completed(
                k,
                link,
                Some(bytes::to_vec(&data)),
                copy_content(&self.incoming[k].metadata),
            );
            return Some((data, metadata));
        }
        let ghost x = self.incoming@[k as int]@;
        let ghost prior = split_at(self.split_assembly@, w.original_hash);
        assert(absorbed(prior, x, data@, now) == absorbed(prior, w, data@, now));
        match self.absorb(k, data, now) {
            Absorbed::Inconsistent => {
                let event: ResourceEvent = ResourceEvent {
                    link_id: link.id,
                    hash: self.incoming[k].hash,
                    status: ResourceStatus::Corrupt,
                    progress: Progress { done: 0, total: 1 },
                    data: None,
                    metadata: None,
                    advertisement: Some(self.incoming[k].advertisement_of()),
                };
                let ghost proven = self.receivers();
                self.incoming[k].status = ResourceStatus::Corrupt;
                assert(self.receivers() =~= proven.update(k as int, self.incoming@[k as int]@));
                assert(proven =~= views.update(k as int, x));
                assert(self.receivers() =~= views.update(k as int, self.incoming@[k as int]@));
                self.emit(event);
                None
            },
            Absorbed::More => {
                self.emit_completed(k, link, None, None);
                None
            },
            Absorbed::Done(full, metadata) => {
                self.emit_completed(
                    k,
                    link,
                    Some(bytes::to_vec(&full)),
                    copy_content(&metadata),
                );
                Some((full, metadata))
            },
        }
    }

    /// Assembles the first receiver on a link that awaits it, given what the link made of its
    /// sealed stream. Proves it to the sender and records events; returns the complete data once
    /// the last segment is in.
    pub fn assemble_completed(
        &mut self,
        link: &Link,
        unsealed: Option<Vec<u8>>,
        now: u64,
        tx: &mut ResourceTx,
    ) -> (r: Option<(crate::hash::Hash, Vec<u8>)>)
        requires
            old(self).wf(),
        ensures
            final(self).wf(),
            *final(self) == (ResourceManager {
                incoming: final(self).incoming,
                split_assembly: final(self).split_assembly,
                events: final(self).events,
                completed_responses: final(self).completed_responses,
                pending_requests: final(self).pending_requests,
                request_events: final(self).request_events,
                ..*old(self)
            }),
            ({
                let k = find_assembling(old(self).receivers(), link.id, 0);
                let v = old(self).receivers()[k];
                let o = assembly_outcome(
                    link.id,
                    v,
                    content(unsealed),
                    old(self).max_decompressed_size,
                    split_at(old(self).split_assembly@, v.original_hash),
                    now,
                );
                if k >= old(self).receivers().len() {
                    *final(self) == *old(self) && final(tx)@ == old(tx)@ && r is None
                } else {
                    &&& outcome_applied(*old(self), *final(self), k, o)
                    &&& final(tx)@ == old(tx)@ + o.packets
                    &&& match o.full {
                        Some(full) => r is Some && (r->0).0 == v.hash && (r->0).1@ == full,
                        None => r is None,
                    }
                    &&& match answered_request(v, o.full) {
                        Some(request_id) => response_settled(
                            *old(self),
                            *final(self),
                            link.id,
                            request_id,
                            o.full->0,
                            o.metadata,
                        ),
                        None => responses_unchanged(*old(self), *final(self)),
                    }
                }
            }),
    {
        let k: usize = match self.next_to_assemble(link) {
            Some(k) => k,
            None => return None,
        };
        let ghost views = self.receivers();
        let ghost v = views[k as int];
        assert(v == self.incoming@[k as int]@);
        let max_size: usize = self.max_decompressed_size;
        let result: Result<Vec<u8>, RnsError> = self.incoming[k].assemble(unsealed, max_size);
        let ghost w = self.incoming@[k as int]@;
        assert(self.receivers() =~= views.update(k as int, w));
        match result {
            Err(_) => {
                self.fail_assembly(k, link);
                assert(self.receivers() =~= views.update(
                    k as int,
                    IncomingView { status: ResourceStatus::Corrupt, ..w },
                ));
                assert(tx@ =~= old(tx)@ + Seq::<LinkPacketView>::empty());
                None
            },
            Ok(data) => {
                let hash: crate::hash::Hash = self.incoming[k].hash;
                let answers: bool = self.incoming[k].is_response && self.incoming[k].segment_index
                    == self.incoming[k].total_segments;
                let request_id: Option<AddressHash> = self.incoming[k].request_id;
                let full: Option<(Vec<u8>, Option<Vec<u8>>)> = self.complete_assembly(
                    k,
                    data,
                    link,
                    now,
                    tx,
                );
                assert(self.receivers() =~= views.update(k as int, self.receivers()[k as int]));
                match full {
                    None => None,
                    Some((full, metadata)) => {
                        if answers {
                            if let Some(request_id) = request_id {
                                self.settle_response(link, request_id, &full, &metadata);
                            }
                        }
                        Some((hash, full))
                    },
                }
            },
        }
    }
}

} // verus!
