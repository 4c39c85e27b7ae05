//! Watchdog passes over the resources of a node.

use vstd::prelude::*;

use crate::link::{Link, LinkId, LinkPacketView};
use crate::resource::inbound::{
    after_receiver_check, receiver_advertisement, receiver_progress, receiver_wf,
    IncomingView,
};
use crate::resource::manager::{
    ended_event, event_views, EventView, ResourceEvent, ResourceManager, SplitAssembly, SplitView,
    SPLIT_ASSEMBLY_GRACE_BYTES, SPLIT_ASSEMBLY_TIMEOUT,
};
use crate::resource::outbound::{
    advertised, advertisement_packet, advertisement_view, after_check, at_most_one, sender_progress,
    OutgoingView,
};
use crate::resource::{ResourceStatus, ResourceTx};

verus! {

/// A transfer on this link is under way.
pub open spec fn link_active(out: Seq<OutgoingView>, link_id: LinkId) -> bool {
    exists|i: int|
        0 <= i < out.len() && (#[trigger] out[i]).link_id == link_id && !out[i].status.concluded()
            && out[i].status != ResourceStatus::Queued
}

/// What a watchdog pass makes of one sender, the packets it sends, and the events.
pub open spec fn sender_check_step(
    v: OutgoingView,
    link: Link,
    now: u64,
    may_advertise: bool,
) -> (OutgoingView, Seq<LinkPacketView>, Seq<EventView>) {
    if v.link_id != link.id || v.status.concluded() {
        (v, Seq::empty(), Seq::empty())
    } else if v.status == ResourceStatus::Queued {
        if may_advertise {
            (advertised(v, now), seq![advertisement_packet(v)], Seq::empty())
        } else {
            (v, Seq::empty(), Seq::empty())
        }
    } else {
        let (w, packets, failed) = after_check(v, link.rtt, now);
        (
            w,
            packets,
            if failed {
                seq![
                    ended_event(
                        link.id,
                        w.hash,
                        ResourceStatus::Failed,
                        at_most_one(sender_progress(w)),
                        advertisement_view(w),
                    ),
                ]
            } else {
                Seq::empty()
            },
        )
    }
}

/// A watchdog pass over the senders of a link.
#[verifier::ext_equal]
pub struct SenderSweep {
    pub out: Seq<OutgoingView>,
    pub packets: Seq<LinkPacketView>,
    pub events: Seq<EventView>,
    /// A queued sender has been advertised.
    pub advertised: bool,
}

/// A watchdog pass over the first `n` senders: at most one queued sender of the link is
/// advertised, the oldest, and none while a transfer on the link is under way.
pub open spec fn sender_sweep(out: Seq<OutgoingView>, link: Link, now: u64, n: int) -> SenderSweep
    decreases n,
{
    if n <= 0 {
        SenderSweep {
            out: Seq::empty(),
            packets: Seq::empty(),
            events: Seq::empty(),
            advertised: false,
        }
    } else {
        let prior = sender_sweep(out, link, now, n - 1);
        let may_advertise = !link_active(out, link.id) && !prior.advertised;
        let v = out[n - 1];
        let (w, packets, events) = sender_check_step(v, link, now, may_advertise);
        SenderSweep {
            out: prior.out.push(w),
            packets: prior.packets + packets,
            events: prior.events + events,
            advertised: prior.advertised || (may_advertise && v.link_id == link.id && v.status
                == ResourceStatus::Queued),
        }
    }
}

/// Watchdog passes over the senders of the first `n` links, one after the other.
pub open spec fn sender_sweeps(out: Seq<OutgoingView>, links: Seq<Link>, now: u64, n: int) -> (
    Seq<OutgoingView>,
    Seq<LinkPacketView>,
    Seq<EventView>,
)
    decreases n,
{
    if n <= 0 {
        (out, Seq::empty(), Seq::empty())
    } else {
        let (prior, packets, events) = sender_sweeps(out, links, now, n - 1);
        let sweep = sender_sweep(prior, links[n - 1], now, prior.len() as int);
        (sweep.out, packets + sweep.packets, events + sweep.events)
    }
}

/// What a watchdog pass makes of one receiver, the packets it sends, and the events.
pub open spec fn receiver_check_step(v: IncomingView, link: Link, now: u64) -> (
    IncomingView,
    Seq<LinkPacketView>,
    Seq<EventView>,
) {
    if v.link_id != link.id || v.status.concluded() {
        (v, Seq::empty(), Seq::empty())
    } else {
        let (w, packets, failed) = after_receiver_check(v, link, now);
        (
            w,
            packets,
            if failed {
                seq![
                    ended_event(
                        link.id,
                        w.hash,
                        ResourceStatus::Failed,
                        receiver_progress(w),
                        receiver_advertisement(w),
                    ),
                ]
            } else {
                Seq::empty()
            },
        )
    }
}

/// A watchdog pass over the first `n` receivers, for one link.
pub open spec fn receiver_sweep(incoming: Seq<IncomingView>, link: Link, now: u64, n: int) -> (
    Seq<IncomingView>,
    Seq<LinkPacketView>,
    Seq<EventView>,
)
    decreases n,
{
    if n <= 0 {
        (Seq::empty(), Seq::empty(), Seq::empty())
    } else {
        let (prior, packets, events) = receiver_sweep(incoming, link, now, n - 1);
        let (w, more_packets, more_events) = receiver_check_step(incoming[n - 1], link, now);
        (prior.push(w), packets + more_packets, events + more_events)
    }
}

/// Watchdog passes over the receivers of the first `n` links, one after the other.
pub open spec fn receiver_sweeps(incoming: Seq<IncomingView>, links: Seq<Link>, now: u64, n: int) -> (
    Seq<IncomingView>,
    Seq<LinkPacketView>,
    Seq<EventView>,
)
    decreases n,
{
    if n <= 0 {
        (incoming, Seq::empty(), Seq::empty())
    } else {
        let (prior, packets, events) = receiver_sweeps(incoming, links, now, n - 1);
        let (after, more_packets, more_events) = receiver_sweep(
            prior,
            links[n - 1],
            now,
            prior.len() as int,
        );
        (after, packets + more_packets, events + more_events)
    }
}

impl ResourceManager {
    /// Whether a transfer on this link is under way.
    fn is_link_active(&self, link_id: &LinkId) -> (r: bool)
        ensures
            r == link_active(self.senders(), *link_id),
    {
        let ghost views = self.senders();
        let mut i: usize = 0;
        while i < self.out.len()
            invariant
                i <= self.out@.len(),
                views == self.senders(),
                forall|j: int|
                    0 <= j < i ==> !((#[trigger] views[j]).link_id == *link_id
                        && !views[j].status.concluded() && views[j].status
                        != ResourceStatus::Queued),
            decreases self.out@.len() - i,
        {
            assert(views[i as int] == self.out@[i as int]@);
            let same_link: bool = self.out[i].link_id.same(link_id);
            if same_link && !self.out[i].status.is_concluded() && self.out[i].status
                != ResourceStatus::Queued {
                return true;
            }
            i += 1;
        }
        false
    }

    /// Watchdog pass over one sender. Returns whether it was queued and has been advertised.
    fn check_sender(
        &mut self,
        i: usize,
        link: &Link,
        now: u64,
        may_advertise: bool,
        tx: &mut ResourceTx,
    ) -> (r: bool)
        requires
            old(self).wf(),
            i < old(self).out@.len(),
        ensures
            final(self).wf(),
            *final(self) == (ResourceManager {
                out: final(self).out,
                events: final(self).events,
                ..*old(self)
            }),
            ({
                let v = old(self).out@[i as int]@;
                let (w, packets, events) = sender_check_step(v, *link, now, may_advertise);
                &&& final(self).senders() == old(self).senders().update(i as int, w)
                &&& final(tx)@ == old(tx)@ + packets
                &&& event_views(final(self).events@) == event_views(old(self).events@) + events
                &&& r == (may_advertise && v.link_id == link.id && v.status
                    == ResourceStatus::Queued)
            }),
    {
        let ghost v = self.out@[i as int]@;
        let ghost before = self.senders();
        let ghost events = event_views(self.events@);
        assert(before[i as int] == v);
        assert(tx@ =~= old(tx)@ + Seq::<LinkPacketView>::empty());
        assert(events =~= events + Seq::<EventView>::empty());
        assert(before =~= before.update(i as int, v));
        let same_link: bool = self.out[i].link_id.same(&link.id);
        let status: ResourceStatus = self.out[i].status;
        if !same_link || status.is_concluded() {
            return false;
        }
        if status == ResourceStatus::Queued {
            if may_advertise {
                let _ = self.out[i].advertise(link, now, tx);
                assert(self.senders() =~= before.update(i as int, advertised(v, now)));
                assert(tx@ =~= old(tx)@ + seq![advertisement_packet(v)]);
                return true;
            }
            return false;
        }
        let failed: bool = self.out[i].check(link, now, tx);
        let ghost w = after_check(v, link.rtt, now).0;
        assert(self.senders() =~= before.update(i as int, w));
        if failed {
            let event: ResourceEvent = ResourceEvent {
                link_id: link.id,
                hash: self.out[i].hash,
                status: ResourceStatus::Failed,
                progress: self.out[i].progress(),
                data: None,
                metadata: None,
                advertisement: Some(self.out[i].advertisement()),
            };
            let ghost event_view = event@;
            self.emit(event);
            assert(event_views(self.events@) =~= events + seq![event_view]);
        }
        false
    }

    /// Watchdog pass over the senders of a link.
    fn check_senders(&mut self, link: &Link, now: u64, tx: &mut ResourceTx)
        requires
            old(self).wf(),
        ensures
            final(self).wf(),
            *final(self) == (ResourceManager {
                out: final(self).out,
                events: final(self).events,
                ..*old(self)
            }),
            ({
                let before = old(self).senders();
                let sweep = sender_sweep(before, *link, now, before.len() as int);
                &&& final(self).senders() == sweep.out
                &&& final(tx)@ == old(tx)@ + sweep.packets
                &&& event_views(final(self).events@) == event_views(old(self).events@)
                    + sweep.events
            }),
    {
        let ghost before = self.senders();
        let ghost events = event_views(self.events@);
        let active: bool = self.is_link_active(&link.id);
        let mut advertised_any: bool = false;
        let mut i: usize = 0;
        assert(tx@ =~= old(tx)@ + Seq::<LinkPacketView>::empty());
        assert(events =~= events + Seq::<EventView>::empty());
        while i < self.out.len()
            invariant
                i <= self.out@.len(),
                self.wf(),
                *self == (ResourceManager { out: self.out, events: self.events, ..*old(self) }),
                before == old(self).senders(),
                events == event_views(old(self).events@),
                self.out@.len() == before.len(),
                active == link_active(before, link.id),
                advertised_any == sender_sweep(before, *link, now, i as int).advertised,
                sender_sweep(before, *link, now, i as int).out.len() == i,
                forall|j: int|
                    0 <= j < i ==> (#[trigger] self.senders()[j]) == sender_sweep(
                        before,
                        *link,
                        now,
                        i as int,
                    ).out[j],
                forall|j: int|
                    i <= j < before.len() ==> (#[trigger] self.senders()[j]) == before[j],
                tx@ == old(tx)@ + sender_sweep(before, *link, now, i as int).packets,
                event_views(self.events@) == events + sender_sweep(
                    before,
                    *link,
                    now,
                    i as int,
                ).events,
            decreases self.out@.len() - i,
        {
            let ghost prior = sender_sweep(before, *link, now, i as int);
            let ghost was = self.senders();
            assert(was[i as int] == before[i as int]);
            assert(was[i as int] == self.out@[i as int]@);
            let now_advertised: bool = self.check_sender(
                i,
                link,
                now,
                !active && !advertised_any,
                tx,
            );
            advertised_any = advertised_any || now_advertised;
            assert(self.senders().len() == self.out@.len());
            i += 1;
            proof {
                let next = sender_sweep(before, *link, now, i as int);
                assert(tx@ =~= old(tx)@ + next.packets);
                assert(event_views(self.events@) =~= events + next.events);
                assert forall|j: int| 0 <= j < i implies (#[trigger] self.senders()[j])
                    == next.out[j] by {
                    if j < i - 1 {
                        assert(was[j] == prior.out[j]);
                    }
                }
                assert forall|j: int| i <= j < before.len() implies (#[trigger] self.senders()[j])
                    == before[j] by {
                    assert(was[j] == before[j]);
                }
            }
        }
        assert(self.senders() =~= sender_sweep(before, *link, now, i as int).out);
    }

    /// Watchdog pass over one receiver.
    fn check_receiver(&mut self, i: usize, link: &Link, now: u64, tx: &mut ResourceTx)
        requires
            old(self).wf(),
            i < old(self).incoming@.len(),
        ensures
            final(self).wf(),
            *final(self) == (ResourceManager {
                incoming: final(self).incoming,
                events: final(self).events,
                ..*old(self)
            }),
            ({
                let v = old(self).incoming@[i as int]@;
                let (w, packets, events) = receiver_check_step(v, *link, now);
                &&& final(self).receivers() == old(self).receivers().update(i as int, w)
                &&& final(tx)@ == old(tx)@ + packets
                &&& event_views(final(self).events@) == event_views(old(self).events@) + events
            }),
    {
        let ghost v = self.incoming@[i as int]@;
        let ghost before = self.receivers();
        let ghost events = event_views(self.events@);
        assert(before[i as int] == v);
        assert(tx@ =~= old(tx)@ + Seq::<LinkPacketView>::empty());
        assert(events =~= events + Seq::<EventView>::empty());
        assert(before =~= before.update(i as int, v));
        let same_link: bool = self.incoming[i].link_id.same(&link.id);
        let concluded: bool = self.incoming[i].status.is_concluded();
        if !same_link || concluded {
            return;
        }
        let failed: bool = self.incoming[i].check(link, now, tx);
        let ghost w = after_receiver_check(v, *link, now).0;
        assert(self.receivers() =~= before.update(i as int, w));
        if failed {
            let event: ResourceEvent = ResourceEvent {
                link_id: link.id,
                hash: self.incoming[i].hash,
                status: ResourceStatus::Failed,
                progress: self.incoming[i].progress(),
                data: None,
                metadata: None,
                advertisement: Some(self.incoming[i].advertisement_of()),
            };
            let ghost event_view = event@;
            self.emit(event);
            assert(event_views(self.events@) =~= events + seq![event_view]);
        }
    }

    /// Watchdog pass over the receivers of a link.
    fn check_receivers(&mut self, link: &Link, now: u64, tx: &mut ResourceTx)
        requires
            old(self).wf(),
        ensures
            final(self).wf(),
            *final(self) == (ResourceManager {
                incoming: final(self).incoming,
                events: final(self).events,
                ..*old(self)
            }),
            ({
                let before = old(self).receivers();
                let (after, packets, events) = receiver_sweep(
                    before,
                    *link,
                    now,
                    before.len() as int,
                );
                &&& final(self).receivers() == after
                &&& final(tx)@ == old(tx)@ + packets
                &&& event_views(final(self).events@) == event_views(old(self).events@) + events
            }),
    {
        let ghost before = self.receivers();
        let ghost events = event_views(self.events@);
        let mut i: usize = 0;
        assert(tx@ =~= old(tx)@ + Seq::<LinkPacketView>::empty());
        assert(events =~= events + Seq::<EventView>::empty());
        while i < self.incoming.len()
            invariant
                i <= self.incoming@.len(),
                self.wf(),
                *self == (ResourceManager {
                    incoming: self.incoming,
                    events: self.events,
                    ..*old(self)
                }),
                before == old(self).receivers(),
                events == event_views(old(self).events@),
                self.incoming@.len() == before.len(),
                receiver_sweep(before, *link, now, i as int).0.len() == i,
                forall|j: int|
                    0 <= j < i ==> (#[trigger] self.receivers()[j]) == receiver_sweep(
                        before,
                        *link,
                        now,
                        i as int,
                    ).0[j],
                forall|j: int|
                    i <= j < before.len() ==> (#[trigger] self.receivers()[j]) == before[j],
                tx@ == old(tx)@ + receiver_sweep(before, *link, now, i as int).1,
                event_views(self.events@) == events + receiver_sweep(
                    before,
                    *link,
                    now,
                    i as int,
                ).2,
            decreases self.incoming@.len() - i,
        {
            let ghost prior = receiver_sweep(before, *link, now, i as int);
            let ghost was = self.receivers();
            assert(was[i as int] == before[i as int]);
            assert(was[i as int] == self.incoming@[i as int]@);
            self.check_receiver(i, link, now, tx);
            assert(self.receivers().len() == self.incoming@.len());
            i += 1;
            proof {
                let next = receiver_sweep(before, *link, now, i as int);
                assert(tx@ =~= old(tx)@ + next.1);
                assert(event_views(self.events@) =~= events + next.2);
                assert forall|j: int| 0 <= j < i implies (#[trigger] self.receivers()[j])
                    == next.0[j] by {
                    if j < i - 1 {
                        assert(was[j] == prior.0[j]);
                    }
                }
                assert forall|j: int| i <= j < before.len() implies (#[trigger] self.receivers()[j])
                    == before[j] by {
                    assert(was[j] == before[j]);
                }
            }
        }
        assert(self.receivers() =~= receiver_sweep(before, *link, now, i as int).0);
    }

    /// Watchdog pass over all resources on the links that are at hand.
    pub fn check(&mut self, links: &Vec<Link>, now: u64) -> (tx: ResourceTx)
        requires
            old(self).wf(),
        ensures
            final(self).wf(),
            *final(self) == (ResourceManager {
                out: final(self).out,
                incoming: final(self).incoming,
                events: final(self).events,
                ..*old(self)
            }),
            ({
                let n = links@.len() as int;
                let (out, packets, events) = sender_sweeps(old(self).senders(), links@, now, n);
                let (incoming, more_packets, more_events) = receiver_sweeps(
                    old(self).receivers(),
                    links@,
                    now,
                    n,
                );
                &&& final(self).senders() == out
                &&& final(self).receivers() == incoming
                &&& tx@ == packets + more_packets
                &&& event_views(final(self).events@) == event_views(old(self).events@) + events
                    + more_events
            }),
    {
        let mut tx: ResourceTx = ResourceTx::default();
        let ghost senders = self.senders();
        let ghost events = event_views(self.events@);
        let mut i: usize = 0;
        assert(events =~= events + Seq::<EventView>::empty());
        while i < links.len()
            invariant
                i <= links@.len(),
                self.wf(),
                *self == (ResourceManager { out: self.out, events: self.events, ..*old(self) }),
                senders == old(self).senders(),
                events == event_views(old(self).events@),
                self.senders() == sender_sweeps(senders, links@, now, i as int).0,
                tx@ == sender_sweeps(senders, links@, now, i as int).1,
                event_views(self.events@) == events + sender_sweeps(
                    senders,
                    links@,
                    now,
                    i as int,
                ).2,
            decreases links@.len() - i,
        {
            self.check_senders(&links[i], now, &mut tx);
            i += 1;
            assert(event_views(self.events@) =~= events + sender_sweeps(
                senders,
                links@,
                now,
                i as int,
            ).2);
        }
        let ghost receivers = self.receivers();
        let ghost sent = tx@;
        let ghost told = event_views(self.events@);
        let ghost out_after = self.out;
        let mut i: usize = 0;
        assert(tx@ =~= sent + Seq::<LinkPacketView>::empty());
        assert(told =~= told + Seq::<EventView>::empty());
        while i < links.len()
            invariant
                i <= links@.len(),
                self.wf(),
                *self == (ResourceManager {
                    out: out_after,
                    incoming: self.incoming,
                    events: self.events,
                    ..*old(self)
                }),
                self.receivers() == receiver_sweeps(receivers, links@, now, i as int).0,
                tx@ == sent + receiver_sweeps(receivers, links@, now, i as int).1,
                event_views(self.events@) == told + receiver_sweeps(
                    receivers,
                    links@,
                    now,
                    i as int,
                ).2,
            decreases links@.len() - i,
        {
            self.check_receivers(&links[i], now, &mut tx);
            i += 1;
            assert(tx@ =~= sent + receiver_sweeps(receivers, links@, now, i as int).1);
            assert(event_views(self.events@) =~= told + receiver_sweeps(
                receivers,
                links@,
                now,
                i as int,
            ).2);
        }
        tx
    }
}

/// A receiver of a split resource that has ended without success.
pub open spec fn is_abandoned(v: IncomingView) -> bool {
    v.split && (v.status == ResourceStatus::Failed || v.status == ResourceStatus::Corrupt
        || v.status == ResourceStatus::Rejected)
}

/// Some receiver of the split resource with this first-segment hash has ended without success.
pub open spec fn abandoned(incoming: Seq<IncomingView>, hash: crate::hash::Hash) -> bool {
    exists|i: int|
        0 <= i < incoming.len() && is_abandoned(#[trigger] incoming[i]) && incoming[i].original_hash
            == hash
}

/// A split assembly is still of use: it has not outgrown its advertised size, and its last
/// segment is not too long ago.
pub open spec fn assembly_alive(assembly: SplitView, now: u64) -> bool {
    &&& assembly.next_index > 0
    &&& assembly.data.len() <= assembly.data_size + SPLIT_ASSEMBLY_GRACE_BYTES
    &&& now < assembly.last_activity + SPLIT_ASSEMBLY_TIMEOUT
}

/// The split assembly of a hash stays.
pub open spec fn assembly_stays(
    incoming: Seq<IncomingView>,
    hash: crate::hash::Hash,
    assembly: SplitView,
    now: u64,
) -> bool {
    !abandoned(incoming, hash) && assembly_alive(assembly, now)
}

/// Whether a split assembly is still of use.
fn is_alive(assembly: &SplitAssembly, now: u64) -> (r: bool)
    ensures
        r == assembly_alive(assembly@, now),
{
    assembly.next_index > 0 && assembly.data.len() as u128 <= assembly.data_size as u128
        + SPLIT_ASSEMBLY_GRACE_BYTES as u128 && (now as u128) < assembly.last_activity as u128
        + SPLIT_ASSEMBLY_TIMEOUT as u128
}

impl ResourceManager {
    /// Whether some receiver of this split resource has ended without success.
    fn is_given_up(&self, hash: &crate::hash::Hash) -> (r: bool)
        ensures
            r == abandoned(self.receivers(), *hash),
    {
        let ghost views = self.receivers();
        let mut i: usize = 0;
        while i < self.incoming.len()
            invariant
                i <= self.incoming@.len(),
                views == self.receivers(),
                forall|j: int|
                    0 <= j < i ==> !(is_abandoned(#[trigger] views[j]) && views[j].original_hash
                        == *hash),
            decreases self.incoming@.len() - i,
        {
            assert(views[i as int] == self.incoming@[i as int]@);
            let status: ResourceStatus = self.incoming[i].status;
            if self.incoming[i].split && (status == ResourceStatus::Failed || status
                == ResourceStatus::Corrupt || status == ResourceStatus::Rejected) {
                if self.incoming[i].original_hash.same(hash) {
                    return true;
                }
            }
            i += 1;
        }
        false
    }

    /// The split assemblies that are no longer of use.
    fn stale_assemblies(&self, now: u64) -> (r: Vec<crate::hash::Hash>)
        requires
            self.wf(),
        ensures
            forall|h: crate::hash::Hash|
                r@.contains(h) <==> self.split_assembly@.dom().contains(h) && !assembly_stays(
                    self.receivers(),
                    h,
                    self.split_assembly@[h]@,
                    now,
                ),
    {
        let mut r: Vec<crate::hash::Hash> = Vec::new();
        let mut i: usize = 0;
        let ghost keys = self.split_assembly.keys();
        while i < self.split_assembly.len()
            invariant
                self.wf(),
                keys == self.split_assembly.keys(),
                i <= keys.len(),
                forall|j: int|
                    0 <= j < r@.len() ==> keys.contains(#[trigger] r@[j]) && !assembly_stays(
                        self.receivers(),
                        r@[j],
                        self.split_assembly@[r@[j]]@,
                        now,
                    ),
                forall|j: int|
                    0 <= j < i && !assembly_stays(
                        self.receivers(),
                        keys[j],
                        self.split_assembly@[keys[j]]@,
                        now,
                    ) ==> r@.contains(#[trigger] keys[j]),
            decreases keys.len() - i,
        {
            let hash: crate::hash::Hash = self.split_assembly.key_at(i);
            assert(keys[i as int] == hash);
            let ghost before = r@;
            let alive: bool = match self.split_assembly.get(&hash) {
                Some(assembly) => is_alive(assembly, now),
                None => false,
            };
            if !alive || self.is_given_up(&hash) {
                r.push(hash);
                assert(r@[r@.len() - 1] == hash);
                assert forall|j: int|
                    0 <= j < i && !assembly_stays(
                        self.receivers(),
                        keys[j],
                        self.split_assembly@[keys[j]]@,
                        now,
                    ) implies r@.contains(#[trigger] keys[j]) by {
                    assert(before.contains(keys[j]));
                    let k = choose|k: int| 0 <= k < before.len() && before[k] == keys[j];
                    assert(r@[k] == keys[j]);
                }
            }
            i += 1;
        }
        proof {
            self.split_assembly.keys_are_domain();
            assert forall|h: crate::hash::Hash|
                r@.contains(h) <==> self.split_assembly@.dom().contains(h) && !assembly_stays(
                    self.receivers(),
                    h,
                    self.split_assembly@[h]@,
                    now,
                ) by {
                if r@.contains(h) {
                    let k = choose|k: int| 0 <= k < r@.len() && r@[k] == h;
                    assert(keys.contains(r@[k]));
                }
                if self.split_assembly@.dom().contains(h) && !assembly_stays(
                    self.receivers(),
                    h,
                    self.split_assembly@[h]@,
                    now,
                ) {
                    assert(keys.contains(h));
                    let j = choose|j: int| 0 <= j < keys.len() && keys[j] == h;
                    assert(r@.contains(keys[j]));
                }
            }
        }
        r
    }

    /// Drops the senders that have ended.
    fn drop_ended_senders(&mut self)
        requires
            old(self).wf(),
        ensures
            final(self).wf(),
            *final(self) == (ResourceManager { out: final(self).out, ..*old(self) }),
            final(self).senders() == old(self).senders().filter(
                |v: OutgoingView| !v.status.concluded(),
            ),
    {
        let ghost before = self.senders();
        let ghost keep = |v: OutgoingView| !v.status.concluded();
        let mut i: usize = 0;
        let ghost mut seen: int = 0;
        proof {
            reveal(Seq::filter);
            assert(before.take(0).filter(keep) =~= Seq::<OutgoingView>::empty());
        }
        while i < self.out.len()
            invariant
                i <= self.out@.len(),
                i <= seen <= before.len(),
                self.wf(),
                *self == (ResourceManager { out: self.out, ..*old(self) }),
                self.out@.len() - i == before.len() - seen,
                keep == (|v: OutgoingView| !v.status.concluded()),
                self.senders().take(i as int) == before.take(seen).filter(keep),
                forall|j: int|
                    0 <= j < before.len() - seen ==> (#[trigger] before[seen + j])
                        == self.out@[i + j]@,
            decreases self.out@.len() - i,
        {
            let ghost was = self.senders();
            assert(before[seen + 0] == self.out@[i + 0]@);
            let ended: bool = self.out[i].status.is_concluded();
            proof {
                reveal(Seq::filter);
                assert(before.take(seen + 1).drop_last() =~= before.take(seen));
            }
            if ended {
                let _ = self.out.remove(i);
                assert(self.senders().take(i as int) =~= was.take(i as int));
            } else {
                i += 1;
                assert(self.senders().take(i as int) =~= was.take(i - 1).push(was[i - 1]));
            }
            proof {
                assert forall|j: int| 0 <= j < before.len() - (seen + 1) implies (
                #[trigger] before[seen + 1 + j]) == self.out@[i + j]@ by {
                    assert(before[seen + (1 + j)] == was[if ended {
                        i + 1 + j
                    } else {
                        i + j
                    }]);
                }
                seen = seen + 1;
            }
        }
        assert(before.take(seen) =~= before);
        assert(self.senders().take(i as int) =~= self.senders());
    }

    /// Drops the receivers that have ended.
    fn drop_ended_receivers(&mut self)
        requires
            old(self).wf(),
        ensures
            final(self).wf(),
            *final(self) == (ResourceManager { incoming: final(self).incoming, ..*old(self) }),
            final(self).receivers() == old(self).receivers().filter(
                |v: IncomingView| !v.status.concluded(),
            ),
    {
        let ghost before = self.receivers();
        let ghost keep = |v: IncomingView| !v.status.concluded();
        let mut i: usize = 0;
        let ghost mut seen: int = 0;
        proof {
            reveal(Seq::filter);
            assert(before.take(0).filter(keep) =~= Seq::<IncomingView>::empty());
        }
        while i < self.incoming.len()
            invariant
                i <= self.incoming@.len(),
                i <= seen <= before.len(),
                self.wf(),
                *self == (ResourceManager { incoming: self.incoming, ..*old(self) }),
                self.incoming@.len() - i == before.len() - seen,
                keep == (|v: IncomingView| !v.status.concluded()),
                self.receivers().take(i as int) == before.take(seen).filter(keep),
                forall|j: int|
                    0 <= j < before.len() - seen ==> (#[trigger] before[seen + j])
                        == self.incoming@[i + j]@,
            decreases self.incoming@.len() - i,
        {
            let ghost was = self.receivers();
            assert(before[seen + 0] == self.incoming@[i + 0]@);
            let ended: bool = self.incoming[i].status.is_concluded();
            proof {
                reveal(Seq::filter);
                assert(before.take(seen + 1).drop_last() =~= before.take(seen));
            }
            if ended {
                let _ = self.incoming.remove(i);
                assert(self.receivers().take(i as int) =~= was.take(i as int));
            } else {
                i += 1;
                assert(self.receivers().take(i as int) =~= was.take(i - 1).push(was[i - 1]));
            }
            proof {
                assert forall|j: int| 0 <= j < before.len() - (seen + 1) implies (
                #[trigger] before[seen + 1 + j]) == self.incoming@[i + j]@ by {
                    assert(before[seen + (1 + j)] == was[if ended {
                        i + 1 + j
                    } else {
                        i + j
                    }]);
                }
                seen = seen + 1;
            }
        }
        assert(before.take(seen) =~= before);
        assert(self.receivers().take(i as int) =~= self.receivers());
    }

    /// Drops ended resources, and split assemblies that are no longer of use.
    pub fn cleanup(&mut self, now: u64)
        requires
            old(self).wf(),
        ensures
            final(self).wf(),
            *final(self) == (ResourceManager {
                out: final(self).out,
                incoming: final(self).incoming,
                split_assembly: final(self).split_assembly,
                ..*old(self)
            }),
            final(self).senders() == old(self).senders().filter(
                |v: OutgoingView| !v.status.concluded(),
            ),
            final(self).receivers() == old(self).receivers().filter(
                |v: IncomingView| !v.status.concluded(),
            ),
            forall|h: crate::hash::Hash| #[trigger]
                final(self).split_assembly@.dom().contains(h) <==> old(
                    self,
                ).split_assembly@.dom().contains(h) && assembly_stays(
                    old(self).receivers(),
                    h,
                    old(self).split_assembly@[h]@,
                    now,
                ),
            forall|h: crate::hash::Hash|
                final(self).split_assembly@.dom().contains(h) ==> #[trigger] final(
                    self
                ).split_assembly@[h] == old(self).split_assembly@[h],
    {
        let stale: Vec<crate::hash::Hash> = self.stale_assemblies(now);
        let ghost before = self.split_assembly@;
        let mut i: usize = 0;
        while i < stale.len()
            invariant
                i <= stale@.len(),
                self.wf(),
                *self == (ResourceManager { split_assembly: self.split_assembly, ..*old(self) }),
                before == old(self).split_assembly@,
                forall|h: crate::hash::Hash| #[trigger]
                    self.split_assembly@.dom().contains(h) <==> before.dom().contains(h)
                        && !stale@.take(i as int).contains(h),
                forall|h: crate::hash::Hash|
                    self.split_assembly@.dom().contains(h) ==> #[trigger] self.split_assembly@[h]
                        == before[h],
            decreases stale@.len() - i,
        {
            let ghost was = self.split_assembly@;
            let _ = self.split_assembly.remove(&stale[i]);
            i += 1;
            proof {
                let seen = stale@.take(i - 1);
                let now_seen = stale@.take(i as int);
                assert(now_seen =~= seen.push(stale@[i - 1]));
                assert forall|h: crate::hash::Hash| #[trigger]
                    self.split_assembly@.dom().contains(h) <==> before.dom().contains(h)
                        && !now_seen.contains(h) by {
                    assert(was.dom().contains(h) <==> before.dom().contains(h) && !seen.contains(
                        h,
                    ));
                    assert(now_seen[i - 1] == stale@[i - 1]);
                    if seen.contains(h) {
                        let k = choose|k: int| 0 <= k < seen.len() && seen[k] == h;
                        assert(now_seen[k] == h);
                    }
                    if now_seen.contains(h) && h != stale@[i - 1] {
                        let k = choose|k: int| 0 <= k < now_seen.len() && now_seen[k] == h;
                        assert(seen[k] == h);
                    }
                }
            }
        }
        assert(stale@.take(i as int) =~= stale@);
        self.drop_ended_senders();
        self.drop_ended_receivers();
    }
}

} // verus!
