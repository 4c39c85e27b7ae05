//! Which advertised resources a node takes on.

use vstd::prelude::*;

use crate::bytes;
use crate::hash::{sha256_digest, AddressHash};
use crate::link::{raw_packet, Link, LinkId, LinkPacketView};
use crate::packet::{PacketContext, PacketType};
use crate::resource::advertisement::{
    unpacked, AdvertisementView, ResourceAdvertisement, FLAG_IS_REQUEST, FLAG_IS_RESPONSE,
};
use crate::resource::inbound::{
    accepted, after_hashmap, after_request_next, link_usable, IncomingResource, IncomingView,
};
use crate::resource::manager::{
    event_views, EventView, RequestEvent, RequestEventData, RequestEventView, ResourceEvent,
    ResourceManager, ResourceStrategy, DEFAULT_MAX_DECOMPRESSED_SIZE,
};
use crate::resource::{Progress, ResourceTx};
use crate::table::Table;
use vstd::string::*;

verus! {

/// What to do about an advertisement.
#[derive(Debug, Clone, Copy, PartialEq, Eq, Structural)]
pub enum Admission {
    /// Nothing.
    Ignore,
    /// Turn it down.
    Reject,
    /// Turn it down, and with it the request that it answers.
    RejectResponse,
    /// Take it on.
    Accept,
}

/// The advertisement carries a request.
pub open spec fn carries_request(a: AdvertisementView) -> bool {
    a.request_id is Some && a.flags & FLAG_IS_REQUEST != 0
}

/// The advertisement carries a response.
pub open spec fn carries_response(a: AdvertisementView) -> bool {
    a.request_id is Some && a.flags & FLAG_IS_RESPONSE != 0
}

/// A size is within a limit, if there is one.
pub open spec fn within(size: nat, limit: Option<usize>) -> bool {
    match limit {
        Some(limit) => size <= limit,
        None => true,
    }
}

/// Whether a request handler is registered for some path of a destination.
pub open spec fn has_handlers(m: ResourceManager, destination: AddressHash) -> bool {
    m.request_handlers@.dom().contains(destination) && m.request_handlers@[destination]@.len() > 0
}

/// What to do about an advertisement: requests need a handler at the link's destination,
/// responses a pending request, both within their size limits; for anything else the strategy of
/// the link decides, and with it the application.
pub open spec fn admission(
    m: ResourceManager,
    adv: ResourceAdvertisement,
    link: Link,
    app_accepts: Option<bool>,
) -> Admission {
    if carries_request(adv@) {
        if within(adv.data_size as nat, m.max_request_size)
            && has_handlers(m, link.destination) {
            Admission::Accept
        } else {
            Admission::Reject
        }
    } else if carries_response(adv@) {
        if within(adv.data_size as nat, m.max_response_size)
            && m.pending_requests@.dom().contains(adv.request_id->0) {
            Admission::Accept
        } else {
            Admission::RejectResponse
        }
    } else {
        match strategy_for(m, link.id) {
            ResourceStrategy::Ignore => Admission::Ignore,
            ResourceStrategy::All => Admission::Accept,
            ResourceStrategy::App => if app_accepts == Some(true) {
                Admission::Accept
            } else {
                Admission::Reject
            },
        }
    }
}

/// The strategy of a link: as set, or to ignore.
pub open spec fn strategy_for(m: ResourceManager, link_id: LinkId) -> ResourceStrategy {
    if m.strategies@.dom().contains(link_id) {
        m.strategies@[link_id]
    } else {
        ResourceStrategy::Ignore
    }
}

/// A transfer with this resource hash is known on the link.
pub open spec fn known_on_link(incoming: Seq<IncomingView>, link_id: LinkId, hash: Seq<u8>) -> bool {
    exists|i: int|
        0 <= i < incoming.len() && (#[trigger] incoming[i]).link_id == link_id && incoming[i].hash@
            == hash
}

/// The packet that turns an advertisement down.
pub open spec fn rejection(a: AdvertisementView) -> LinkPacketView {
    raw_packet(PacketType::Data, PacketContext::ResourceReceiverCancel, a.hash)
}

/// A receiver that has taken its map from the advertisement and asked for the first parts, and
/// the packets it sent.
pub open spec fn started(v: IncomingView, a: AdvertisementView, now: u64) -> (
    IncomingView,
    Seq<LinkPacketView>,
) {
    after_request_next(after_hashmap(v, 0, a.hashmap), now)
}

/// The event of an accepted advertisement.
pub open spec fn started_event(v: IncomingView, a: AdvertisementView) -> EventView {
    EventView {
        link_id: v.link_id,
        hash: v.hash,
        status: v.status,
        progress: Progress::nothing(),
        data: None,
        metadata: None,
        advertisement: Some(a),
    }
}

/// What taking an advertisement on changes: unless its transfer is known, a receiver is added
/// that has asked for its first parts.
pub open spec fn taken_on(
    before: ResourceManager,
    after: ResourceManager,
    a: AdvertisementView,
    link: Link,
    now: u64,
    packets: Seq<LinkPacketView>,
) -> bool {
    if known_on_link(before.receivers(), link.id, a.hash) {
        after == before && packets == Seq::<LinkPacketView>::empty()
    } else {
        &&& after == (ResourceManager { incoming: after.incoming, events: after.events, ..before })
        &&& exists|v: IncomingView|
            {
                &&& #[trigger] accepted(a, link, now, v)
                &&& after.receivers() == before.receivers().push(started(v, a, now).0)
                &&& packets == started(v, a, now).1
                &&& event_views(after.events@) == event_views(before.events@).push(
                    started_event(started(v, a, now).0, a),
                )
            }
    }
}

/// A request of this id failed.
pub open spec fn request_failed(
    before: ResourceManager,
    after: ResourceManager,
    link_id: LinkId,
    request_id: AddressHash,
) -> bool {
    &&& after == (ResourceManager { request_events: after.request_events, ..before })
    &&& after.request_events@.len() == before.request_events@.len() + 1
    &&& after.request_events@.drop_last() == before.request_events@
    &&& after.request_events@.last().link_id == link_id
    &&& after.request_events@.last().event@ == (RequestEventView::Failed {
        request_id: request_id@,
    })
}

impl ResourceManager {
    /// A manager without resources.
    pub fn new() -> (r: Self)
        ensures
            r.wf(),
            r.out@.len() == 0,
            r.incoming@.len() == 0,
            r.strategies@ == Map::<AddressHash, ResourceStrategy>::empty(),
            r.request_handlers@ == Map::<AddressHash, Vec<AddressHash>>::empty(),
            r.async_request_handlers@ == Map::<AddressHash, Vec<AddressHash>>::empty(),
            r.pending_requests@ == Map::<AddressHash, AddressHash>::empty(),
            r.completed_responses@ == Map::<AddressHash, Option<Vec<u8>>>::empty(),
            r.split_assembly@.dom() == Set::<crate::hash::Hash>::empty(),
            r.events@.len() == 0,
            r.request_events@.len() == 0,
            r.max_decompressed_size == DEFAULT_MAX_DECOMPRESSED_SIZE,
            r.max_request_size is None,
            r.max_response_size is None,
    {
        ResourceManager {
            out: Vec::new(),
            incoming: Vec::new(),
            strategies: Table::new(),
            request_handlers: Table::new(),
            async_request_handlers: Table::new(),
            pending_requests: Table::new(),
            completed_responses: Table::new(),
            split_assembly: Table::new(),
            events: Vec::new(),
            request_events: Vec::new(),
            max_decompressed_size: DEFAULT_MAX_DECOMPRESSED_SIZE,
            max_request_size: None,
            max_response_size: None,
        }
    }

    /// Sets the strategy of a link.
    pub fn set_resource_strategy(&mut self, link_id: LinkId, strategy: ResourceStrategy)
        requires
            old(self).wf(),
        ensures
            final(self).wf(),
            *final(self) == (ResourceManager { strategies: final(self).strategies, ..*old(self) }),
            final(self).strategies@ == old(self).strategies@.insert(link_id, strategy),
    {
        self.strategies.insert(link_id, strategy);
    }

    /// The strategy of a link.
    pub fn resource_strategy(&self, link_id: LinkId) -> (r: ResourceStrategy)
        requires
            self.wf(),
        ensures
            r == strategy_for(*self, link_id),
    {
        match self.strategies.get(&link_id) {
            Some(strategy) => *strategy,
            None => ResourceStrategy::Ignore,
        }
    }

    /// Whether any request handler is registered for the link's destination.
    fn has_request_handlers(&self, link: &Link) -> (r: bool)
        requires
            self.wf(),
        ensures
            r == has_handlers(*self, link.destination),
    {
        match self.request_handlers.get(&link.destination) {
            Some(paths) => paths.len() > 0,
            None => false,
        }
    }

    /// What to do about an advertisement.
    pub fn judge(
        &self,
        adv: &ResourceAdvertisement,
        link: &Link,
        app_accepts: Option<bool>,
    ) -> (r: Admission)
        requires
            self.wf(),
        ensures
            r == admission(*self, *adv, *link, app_accepts),
    {
        if adv.is_request() {
            let size_ok: bool = match self.max_request_size {
                Some(max) => adv.data_size <= max,
                None => true,
            };
            return if size_ok && self.has_request_handlers(link) {
                Admission::Accept
            } else {
                Admission::Reject
            };
        }
        if adv.is_response() {
            let size_ok: bool = match self.max_response_size {
                Some(max) => adv.data_size <= max,
                None => true,
            };
            let pending: bool = match &adv.request_id {
                Some(request_id) => self.pending_requests.contains(request_id),
                None => false,
            };
            return if size_ok && pending {
                Admission::Accept
            } else {
                Admission::RejectResponse
            };
        }
        match self.resource_strategy(link.id) {
            ResourceStrategy::Ignore => Admission::Ignore,
            ResourceStrategy::All => Admission::Accept,
            ResourceStrategy::App => match app_accepts {
                Some(true) => Admission::Accept,
                _ => Admission::Reject,
            },
        }
    }

    /// Whether a transfer with this resource hash is known on the link.
    fn is_known(&self, link: &Link, hash: &crate::hash::Hash) -> (r: bool)
        ensures
            r == known_on_link(self.receivers(), link.id, hash@),
    {
        let ghost views = self.receivers();
        let mut i: usize = 0;
        while i < self.incoming.len()
            invariant
                i <= self.incoming@.len(),
                views == self.receivers(),
                forall|j: int|
                    0 <= j < i ==> !((#[trigger] views[j]).link_id == link.id && views[j].hash@
                        == hash@),
            decreases self.incoming@.len() - i,
        {
            assert(views[i as int] == self.incoming@[i as int]@);
            let same_link: bool = self.incoming[i].link_id.same(&link.id);
            if same_link && bytes::equal(self.incoming[i].hash.as_slice(), hash.as_slice()) {
                return true;
            }
            i += 1;
        }
        false
    }

    /// Takes an advertisement on, unless its transfer is known.
    fn accept(&mut self, adv: &ResourceAdvertisement, link: &Link, now: u64) -> (tx: ResourceTx)
        requires
            old(self).wf(),
            link_usable(*link),
            adv.transfer_size <= crate::resource::MAX_EFFICIENT_SIZE * 3,
            adv.segment_index >= 1,
            adv.total_segments >= 1,
        ensures
            final(self).wf(),
            taken_on(*old(self), *final(self), adv@, *link, now, tx@),
    {
        let mut tx: ResourceTx = ResourceTx::default();
        if self.is_known(link, &adv.hash) {
            return tx;
        }
        let mut receiver: IncomingResource = IncomingResource::accept_advertisement(
            adv,
            link,
            now,
        );
        let ghost v = receiver@;
        let ghost views = self.receivers();
        receiver.hashmap_update(0, &adv.hashmap);
        receiver.request_next(link, now, &mut tx);
        let event: ResourceEvent = ResourceEvent {
            link_id: link.id,
            hash: receiver.hash,
            status: receiver.status,
            progress: Progress { done: 0, total: 1 },
            data: None,
            metadata: None,
            advertisement: Some(adv.clone()),
        };
        self.emit(event);
        self.incoming.push(receiver);
        proof {
            assert(accepted(adv@, *link, now, v));
            assert(self.receivers() =~= views.push(started(v, adv@, now).0));
            assert(tx@ =~= started(v, adv@, now).1);
        }
        tx
    }

    /// Handles an advertisement. `app_accepts` is what the application's callback for the link
    /// says of it, where there is one.
    pub fn handle_advertisement(
        &mut self,
        link: &Link,
        plaintext: &[u8],
        app_accepts: Option<bool>,
        now: u64,
    ) -> (tx: ResourceTx)
        requires
            old(self).wf(),
            link_usable(*link),
        ensures
            final(self).wf(),
            unpacked(plaintext@) is None ==> *final(self) == *old(self) && tx@ == Seq::<
                LinkPacketView,
            >::empty(),
            unpacked(plaintext@) is Some ==> exists|adv: ResourceAdvertisement|
                {
                    &&& adv@ == unpacked(plaintext@)->0
                    &&& match #[trigger] admission(*old(self), adv, *link, app_accepts) {
                        Admission::Ignore => *final(self) == *old(self) && tx@ == Seq::<
                            LinkPacketView,
                        >::empty(),
                        Admission::Reject => *final(self) == *old(self) && tx@ == seq![
                            rejection(adv@),
                        ],
                        Admission::RejectResponse => request_failed(
                            *old(self),
                            *final(self),
                            link.id,
                            adv.request_id->0,
                        ) && tx@ == seq![rejection(adv@)],
                        Admission::Accept => taken_on(
                            *old(self),
                            *final(self),
                            adv@,
                            *link,
                            now,
                            tx@,
                        ),
                    }
                },
    {
        let adv: ResourceAdvertisement = match ResourceAdvertisement::unpack(plaintext) {
            Ok(adv) => adv,
            Err(_) => return ResourceTx::default(),
        };
        proof {
            crate::resource::advertisement::unpacked_is_bounded(plaintext@);
        }
        let decision: Admission = self.judge(&adv, link, app_accepts);
        assert(decision == admission(*self, adv, *link, app_accepts));
        match decision {
            Admission::Ignore => ResourceTx::default(),
            Admission::Reject => IncomingResource::reject_packet_for(&adv, link),
            Admission::RejectResponse => {
                if let Some(request_id) = adv.request_id {
                    self.request_events.push(
                        RequestEventData {
                            link_id: link.id,
                            event: RequestEvent::Failed { request_id },
                        },
                    );
                    assert(self.request_events@.drop_last() =~= old(self).request_events@);
                }
                IncomingResource::reject_packet_for(&adv, link)
            },
            Admission::Accept => self.accept(&adv, link, now),
        }
    }

    /// Registers a request handler for a path of a destination.
    pub fn register_request_handler(&mut self, destination: AddressHash, path: &str)
        requires
            old(self).wf(),
        ensures
            final(self).wf(),
            *final(self) == (ResourceManager {
                request_handlers: final(self).request_handlers,
                ..*old(self)
            }),
            registered(
                old(self).request_handlers@,
                final(self).request_handlers@,
                destination,
                path.spec_bytes(),
            ),
    {
        let path_hash: AddressHash = AddressHash::new_from_slice(path.as_bytes());
        let paths: Vec<AddressHash> = with_path(self.request_handlers.get(&destination), path_hash);
        self.request_handlers.insert(destination, paths);
        assert(self.request_handlers@.remove(destination) =~= old(
            self,
        ).request_handlers@.remove(destination));
    }

    /// Removes the request handler of a path.
    pub fn deregister_request_handler(&mut self, destination: AddressHash, path: &str)
        requires
            old(self).wf(),
        ensures
            final(self).wf(),
            *final(self) == (ResourceManager {
                request_handlers: final(self).request_handlers,
                ..*old(self)
            }),
            ({
                let before = old(self).request_handlers@;
                let after = final(self).request_handlers@;
                let hash = sha256_digest(path.spec_bytes()).subrange(0, 16);
                if before.dom().contains(destination) {
                    &&& after.dom() == before.dom()
                    &&& after.remove(destination) == before.remove(destination)
                    &&& forall|h: AddressHash|
                        after[destination]@.contains(h) <==> before[destination]@.contains(h) && h@
                            != hash
                } else {
                    after == before
                }
            }),
    {
        let path_hash: AddressHash = AddressHash::new_from_slice(path.as_bytes());
        let found: Option<Vec<AddressHash>> = match self.request_handlers.get(&destination) {
            Some(paths) => Some(without_path(paths, path_hash)),
            None => None,
        };
        if let Some(paths) = found {
            self.request_handlers.insert(destination, paths);
            assert(self.request_handlers@.dom() =~= old(self).request_handlers@.dom());
            assert(self.request_handlers@.remove(destination) =~= old(
                self,
            ).request_handlers@.remove(destination));
            assert forall|h: AddressHash| h@ == path_hash@ implies h == path_hash by {
                assert(h.0 =~= path_hash.0);
            }
        }
    }

    /// Registers an asynchronous request handler for a path of a destination.
    pub fn register_async_request_handler(&mut self, destination: AddressHash, path: &str)
        requires
            old(self).wf(),
        ensures
            final(self).wf(),
            *final(self) == (ResourceManager {
                async_request_handlers: final(self).async_request_handlers,
                ..*old(self)
            }),
            registered(
                old(self).async_request_handlers@,
                final(self).async_request_handlers@,
                destination,
                path.spec_bytes(),
            ),
    {
        let path_hash: AddressHash = AddressHash::new_from_slice(path.as_bytes());
        let paths: Vec<AddressHash> = with_path(
            self.async_request_handlers.get(&destination),
            path_hash,
        );
        self.async_request_handlers.insert(destination, paths);
        assert(self.async_request_handlers@.remove(destination) =~= old(
            self,
        ).async_request_handlers@.remove(destination));
    }

    /// Whether an asynchronous handler is registered for a path of a destination.
    pub fn async_request_handler(
        &self,
        destination: &AddressHash,
        path_hash: &AddressHash,
    ) -> (r: bool)
        requires
            self.wf(),
        ensures
            r == (self.async_request_handlers@.dom().contains(*destination)
                && self.async_request_handlers@[*destination]@.contains(*path_hash)),
    {
        match self.async_request_handlers.get(destination) {
            Some(paths) => has_path(paths, path_hash),
            None => false,
        }
    }
}

/// A request for a destination is rejected where no path of it has a handler, as once the last one
/// was removed, whatever the application or the strategy of the link say.
pub proof fn requests_need_handlers(
    m: ResourceManager,
    adv: ResourceAdvertisement,
    link: Link,
    app_accepts: Option<bool>,
)
    requires
        carries_request(adv@),
        m.request_handlers@.dom().contains(link.destination) ==> forall|h: AddressHash|
            !(#[trigger] m.request_handlers@[link.destination]@.contains(h)),
    ensures
        admission(m, adv, link, app_accepts) == Admission::Reject,
{
    let paths = m.request_handlers@[link.destination]@;
    if m.request_handlers@.dom().contains(link.destination) && paths.len() > 0 {
        assert(paths.contains(paths[0]));
    }
}

/// The paths of one destination have gained a path; nothing else has changed.
pub open spec fn registered(
    before: Map<AddressHash, Vec<AddressHash>>,
    after: Map<AddressHash, Vec<AddressHash>>,
    destination: AddressHash,
    path: Seq<u8>,
) -> bool {
    &&& after.dom() == before.dom().insert(destination)
    &&& after.remove(destination) == before.remove(destination)
    &&& forall|h: AddressHash|
        after[destination]@.contains(h) <==> h@ == sha256_digest(path).subrange(0, 16) || (
        before.dom().contains(destination) && before[destination]@.contains(h))
}

/// Whether a path is among those of a destination.
fn has_path(paths: &Vec<AddressHash>, path_hash: &AddressHash) -> (r: bool)
    ensures
        r == paths@.contains(*path_hash),
{
    let mut i: usize = 0;
    while i < paths.len()
        invariant
            i <= paths@.len(),
            forall|j: int| 0 <= j < i ==> paths@[j] != *path_hash,
        decreases paths@.len() - i,
    {
        if paths[i].same(path_hash) {
            assert(paths@[i as int] == *path_hash);
            return true;
        }
        i += 1;
    }
    false
}

/// The paths of a destination and one more.
fn with_path(paths: Option<&Vec<AddressHash>>, path_hash: AddressHash) -> (r: Vec<AddressHash>)
    ensures
        forall|h: AddressHash|
            r@.contains(h) <==> h@ == path_hash@ || (paths is Some && paths->0@.contains(h)),
{
    let mut r: Vec<AddressHash> = Vec::new();
    assert forall|h: AddressHash| h@ == path_hash@ implies h == path_hash by {
        assert(h.0 =~= path_hash.0);
    }
    if let Some(paths) = paths {
        let mut i: usize = 0;
        while i < paths.len()
            invariant
                i <= paths@.len(),
                r@ == paths@.take(i as int),
            decreases paths@.len() - i,
        {
            r.push(paths[i]);
            i += 1;
            assert(r@ =~= paths@.take(i as int));
        }
        assert(r@ =~= paths@);
        if has_path(paths, &path_hash) {
            return r;
        }
    }
    let ghost before = r@;
    r.push(path_hash);
    proof {
        let known = if paths is Some {
            paths->0@
        } else {
            Seq::<AddressHash>::empty()
        };
        assert(before == known);
        assert forall|h: AddressHash|
            r@.contains(h) <==> h@ == path_hash@ || (paths is Some && paths->0@.contains(h)) by {
            if known.contains(h) {
                let i = choose|i: int| 0 <= i < known.len() && known[i] == h;
                assert(r@[i] == h);
            }
            assert(r@[r@.len() - 1] == path_hash);
            if r@.contains(h) {
                let i = choose|i: int| 0 <= i < r@.len() && r@[i] == h;
                if i < known.len() {
                    assert(known[i] == h);
                }
            }
        }
    }
    r
}

/// The paths of a destination without one of them.
fn without_path(paths: &Vec<AddressHash>, path_hash: AddressHash) -> (r: Vec<AddressHash>)
    ensures
        forall|h: AddressHash| r@.contains(h) <==> paths@.contains(h) && h != path_hash,
{
    let mut r: Vec<AddressHash> = Vec::new();
    let mut i: usize = 0;
    while i < paths.len()
        invariant
            i <= paths@.len(),
            forall|h: AddressHash|
                #![trigger r@.contains(h)]
                #![trigger paths@.take(i as int).contains(h)]
                r@.contains(h) <==> paths@.take(i as int).contains(h) && h != path_hash,
        decreases paths@.len() - i,
    {
        let ghost before = r@;
        let ghost seen = paths@.take(i as int);
        if !paths[i].same(&path_hash) {
            r.push(paths[i]);
        }
        i += 1;
        assert forall|h: AddressHash|
            #![trigger r@.contains(h)]
            #![trigger paths@.take(i as int).contains(h)]
            r@.contains(h) <==> paths@.take(i as int).contains(h) && h != path_hash by {
            let now = paths@.take(i as int);
            assert(now =~= seen.push(paths@[i - 1]));
            assert(before.contains(h) <==> seen.contains(h) && h != path_hash);
            if seen.contains(h) {
                let k = choose|k: int| 0 <= k < seen.len() && seen[k] == h;
                assert(now[k] == h);
            }
            if before.contains(h) {
                let k = choose|k: int| 0 <= k < before.len() && before[k] == h;
                assert(r@[k] == h);
            }
            if h == paths@[i - 1] {
                assert(now[i - 1] == h);
                if h != path_hash {
                    assert(r@[r@.len() - 1] == h);
                }
            }
            if now.contains(h) && h != paths@[i - 1] {
                let k = choose|k: int| 0 <= k < now.len() && now[k] == h;
                assert(seen[k] == h);
            }
            if r@.contains(h) && !before.contains(h) {
                let k = choose|k: int| 0 <= k < r@.len() && r@[k] == h;
                if k < before.len() {
                    assert(before[k] == h);
                }
            }
        }
    }
    assert(paths@.take(i as int) =~= paths@);
    r
}

} // verus!
