//! One worker of the fleet as the pool records it.
use crate::balancer::peer_addr::PeerAddr;
use crate::balancer::permits::count_permits;
use crate::balancer::permits::merge_permits;
use crate::balancer::permits::permit_count;
use crate::balancer::permits::permit_origin;
use crate::balancer::permits::split_permits;
use crate::balancer::ranking::ranks_before;
use crate::balancer::ranking::PeerView;
use crate::balancer::status_update::text_of;
use crate::balancer::status_update::StatusUpdate;
use crate::balancer::timestamp::Timestamp;
use crate::errors::PoolError;
use std::cmp::Ordering;
use tokio::sync::OwnedSemaphorePermit;
use vstd::prelude::*;
use vstd::std_specs::cmp::PartialEqSpecImpl;
use vstd::std_specs::cmp::PartialOrdSpecImpl;

verus! {

/// A worker: what its agent last reported of it, when that was, until when
/// it is quarantined, and the admission permits of the requests that were
/// sent to it and have not ended yet.
#[derive(Debug)]
pub struct UpstreamPeer {
    pub agent_id: String,
    pub agent_name: Option<String>,
    pub error: Option<String>,
    pub external_llamacpp_addr: PeerAddr,
    /// `None` means undetermined, probably due to an error.
    pub is_authorized: Option<bool>,
    /// `None` means undetermined, probably due to an error.
    pub is_slots_endpoint_enabled: Option<bool>,
    pub last_update: Timestamp,
    pub quarantined_until: Option<Timestamp>,
    pub slots_idle: usize,
    pub slots_processing: usize,
    pub slots_permissions: Option<OwnedSemaphorePermit>,
}

/// What a request keeps of the peer it was given: who it is, where it
/// listens, and the peer's `last_update` as the request last saw it.
#[derive(Debug)]
pub struct UpstreamPeerInfo {
    pub agent_id: String,
    pub external_llamacpp_addr: PeerAddr,
    pub last_update: Timestamp,
}

/// The descriptor of a peer as a mathematical value.
pub struct PeerInfoView {
    pub agent_id: Seq<char>,
    pub external_llamacpp_addr: PeerAddr,
    pub last_update: Timestamp,
}

impl View for UpstreamPeerInfo {
    type V = PeerInfoView;

    open spec fn view(&self) -> PeerInfoView {
        PeerInfoView {
            agent_id: self.agent_id@,
            external_llamacpp_addr: self.external_llamacpp_addr,
            last_update: self.last_update,
        }
    }
}

impl PeerView {
    /// The descriptor that a request is given of this peer.
    pub open spec fn info(self) -> PeerInfoView {
        PeerInfoView {
            agent_id: self.agent_id,
            external_llamacpp_addr: self.external_llamacpp_addr,
            last_update: self.last_update,
        }
    }
}

/// The number of permits in a custody: those of the bundle, if there is one.
pub open spec fn permits_held(custody: Option<OwnedSemaphorePermit>) -> nat {
    match custody {
        Some(bundle) => permit_count(bundle),
        None => 0,
    }
}

/// The semaphore that issued what is in a custody, if anything is.
pub open spec fn origin_held(custody: Option<OwnedSemaphorePermit>) -> Option<int> {
    match custody {
        Some(bundle) => Some(permit_origin(bundle)),
        None => None,
    }
}

impl View for UpstreamPeer {
    type V = PeerView;

    open spec fn view(&self) -> PeerView {
        PeerView {
            agent_id: self.agent_id@,
            agent_name: text_of(self.agent_name),
            error: text_of(self.error),
            external_llamacpp_addr: self.external_llamacpp_addr,
            is_authorized: self.is_authorized,
            is_slots_endpoint_enabled: self.is_slots_endpoint_enabled,
            last_update: self.last_update,
            quarantined_until: self.quarantined_until,
            slots_idle: self.slots_idle as nat,
            slots_processing: self.slots_processing as nat,
            permits: permits_held(self.slots_permissions),
        }
    }
}

/// How the order of preference places `a` relative to `b`.
pub open spec fn rank_ordering(a: PeerView, b: PeerView) -> Ordering {
    if ranks_before(a, b) {
        Ordering::Less
    } else if ranks_before(b, a) {
        Ordering::Greater
    } else {
        Ordering::Equal
    }
}

/// Two peers compare as equal iff they agree in whether they are usable, in
/// both counters and in the address; nothing else of a peer is looked at.
pub proof fn lemma_equal_rank(a: PeerView, b: PeerView)
    ensures
        rank_ordering(a, b) == Ordering::Equal <==> {
            &&& a.is_usable() == b.is_usable()
            &&& a.slots_idle == b.slots_idle
            &&& a.slots_processing == b.slots_processing
            &&& a.external_llamacpp_addr == b.external_llamacpp_addr
        },
        rank_ordering(a, b) == Ordering::Less <==> rank_ordering(b, a) == Ordering::Greater,
{
    a.external_llamacpp_addr.lemma_order_tells_apart(b.external_llamacpp_addr);
}

impl UpstreamPeer {
    /// The semaphore that issued the permits in custody, if any are.
    pub open spec fn custody_origin(&self) -> Option<int> {
        origin_held(self.slots_permissions)
    }

    /// The slots of the peer can be counted in a `usize`.
    pub open spec fn wf(&self) -> bool {
        self.slots_idle + self.slots_processing <= usize::MAX
    }

    /// A peer as of `now`, not quarantined and with no permit in custody.
    pub fn new_at(
        agent_id: String,
        agent_name: Option<String>,
        error: Option<String>,
        external_llamacpp_addr: PeerAddr,
        is_authorized: Option<bool>,
        is_slots_endpoint_enabled: Option<bool>,
        slots_idle: usize,
        slots_processing: usize,
        now: Timestamp,
    ) -> (peer: UpstreamPeer)
        ensures
            peer@ == (PeerView {
                agent_id: agent_id@,
                agent_name: text_of(agent_name),
                error: text_of(error),
                external_llamacpp_addr,
                is_authorized,
                is_slots_endpoint_enabled,
                last_update: now,
                quarantined_until: None,
                slots_idle: slots_idle as nat,
                slots_processing: slots_processing as nat,
                permits: 0,
            }),
            peer.slots_permissions is None,
    {
        UpstreamPeer {
            agent_id,
            agent_name,
            error,
            external_llamacpp_addr,
            is_authorized,
            is_slots_endpoint_enabled,
            last_update: now,
            quarantined_until: None,
            slots_idle,
            slots_processing,
            slots_permissions: None,
        }
    }

    /// A peer as of the current reading of the clock.
    pub fn new(
        agent_id: String,
        agent_name: Option<String>,
        error: Option<String>,
        external_llamacpp_addr: PeerAddr,
        is_authorized: Option<bool>,
        is_slots_endpoint_enabled: Option<bool>,
        slots_idle: usize,
        slots_processing: usize,
    ) -> (peer: UpstreamPeer)
        ensures
            peer@ == (PeerView {
                agent_id: agent_id@,
                agent_name: text_of(agent_name),
                error: text_of(error),
                external_llamacpp_addr,
                is_authorized,
                is_slots_endpoint_enabled,
                last_update: peer.last_update,
                quarantined_until: None,
                slots_idle: slots_idle as nat,
                slots_processing: slots_processing as nat,
                permits: 0,
            }),
            peer.last_update.wf(),
            peer.slots_permissions is None,
    {
        UpstreamPeer::new_at(
            agent_id,
            agent_name,
            error,
            external_llamacpp_addr,
            is_authorized,
            is_slots_endpoint_enabled,
            slots_idle,
            slots_processing,
            Timestamp::now(),
        )
    }

    /// The peer that the first report of an agent creates, as of `now`.
    pub fn new_from_status_update_at(agent_id: String, status_update: StatusUpdate, now: Timestamp) -> (peer:
        UpstreamPeer)
        ensures
            peer@ == PeerView::registered(agent_id@, status_update@, now),
            peer.slots_permissions is None,
    {
        UpstreamPeer::new_at(
            agent_id,
            status_update.agent_name,
            status_update.error,
            status_update.external_llamacpp_addr,
            status_update.is_authorized,
            status_update.is_slots_endpoint_enabled,
            status_update.idle_slots_count,
            status_update.processing_slots_count,
            now,
        )
    }

    /// The peer that the first report of an agent creates, as of the current
    /// reading of the clock.
    pub fn new_from_status_update(agent_id: String, status_update: StatusUpdate) -> (peer: UpstreamPeer)
        ensures
            peer@ == PeerView::registered(agent_id@, status_update@, peer.last_update),
            peer.last_update.wf(),
            peer.slots_permissions is None,
    {
        UpstreamPeer::new_from_status_update_at(agent_id, status_update, Timestamp::now())
    }

    /// The descriptor that a request keeps of this peer.
    pub fn info(&self) -> (info: UpstreamPeerInfo)
        ensures
            info@ == self@.info(),
    {
        UpstreamPeerInfo {
            agent_id: self.agent_id.clone(),
            external_llamacpp_addr: self.external_llamacpp_addr,
            last_update: self.last_update,
        }
    }

    /// Whether the peer can be given a request.
    pub fn is_usable(&self) -> (usable: bool)
        ensures
            usable == self@.is_usable(),
    {
        self.slots_idle > 0 && self.quarantined_until.is_none() && self.error.is_none() && (match self.is_authorized {
            Some(authorized) => authorized,
            None => false,
        })
    }

    /// The number of permits in custody.
    pub fn permits_count(&self) -> (n: usize)
        ensures
            n == self@.permits,
    {
        match &self.slots_permissions {
            Some(bundle) => count_permits(bundle),
            None => 0,
        }
    }

    /// A request leaves a busy slot, as of `now`.
    pub fn release_slot_at(&mut self, now: Timestamp)
        requires
            old(self).slots_processing > 0,
            old(self).slots_idle < usize::MAX,
        ensures
            final(self)@ == old(self)@.released_slot(now),
            final(self).custody_origin() == old(self).custody_origin(),
    {
        self.last_update = now;
        self.slots_idle = self.slots_idle + 1;
        self.slots_processing = self.slots_processing - 1;
    }

    /// A request leaves a busy slot, as of the current reading of the clock.
    pub fn release_slot(&mut self)
        requires
            old(self).slots_processing > 0,
            old(self).slots_idle < usize::MAX,
        ensures
            final(self)@ == old(self)@.released_slot(final(self).last_update),
            final(self).last_update.wf(),
            final(self).custody_origin() == old(self).custody_origin(),
    {
        self.release_slot_at(Timestamp::now());
    }

    /// Lets `n` permits out of the custody, back to the semaphore that
    /// issued them. Where the custody holds fewer than `n`, none leaves it.
    pub fn release_permits(&mut self, n: usize) -> (released: Result<(), PoolError>)
        ensures
            n <= old(self)@.permits ==> released == Ok::<(), PoolError>(()) && final(self)@ == old(
                self,
            )@.released_permits(n as nat),
            n > old(self)@.permits ==> released == Err::<(), PoolError>(PoolError::PermitShortfall) && final(self)@
                == old(self)@,
            final(self).custody_origin() == old(self).custody_origin(),
    {
        let held = self.slots_permissions.take();
        match held {
            Some(mut bundle) => {
                let part = split_permits(&mut bundle, n);
                self.slots_permissions = Some(bundle);
                match part {
                    Some(_) => Ok(()),
                    None => Err(PoolError::PermitShortfall),
                }
            },
            None => {
                if n == 0 {
                    Ok(())
                } else {
                    Err(PoolError::PermitShortfall)
                }
            },
        }
    }

    /// A report replaces what was known of the peer, as of `now`. The
    /// permits of the requests that the report shows to have ended upstream
    /// leave the custody. Where the custody holds fewer, none leaves it:
    /// the report still replaces what was known, and the answer is
    /// `PermitShortfall`.
    pub fn update_status_at(&mut self, status_update: StatusUpdate, now: Timestamp) -> (updated: Result<
        (),
        PoolError,
    >)
        ensures
            final(self)@ == old(self)@.updated(status_update@, now),
            final(self).custody_origin() == old(self).custody_origin(),
            updated == (if old(self)@.falls_short(status_update@) {
                Err::<(), PoolError>(PoolError::PermitShortfall)
            } else {
                Ok::<(), PoolError>(())
            }),
    {
        let released = if status_update.processing_slots_count < self.slots_processing {
            let slots_to_release: usize = self.slots_processing - status_update.processing_slots_count;
            self.release_permits(slots_to_release)
        } else {
            Ok(())
        };
        self.agent_name = status_update.agent_name;
        self.error = status_update.error;
        self.external_llamacpp_addr = status_update.external_llamacpp_addr;
        self.is_authorized = status_update.is_authorized;
        self.is_slots_endpoint_enabled = status_update.is_slots_endpoint_enabled;
        self.last_update = now;
        self.quarantined_until = None;
        self.slots_idle = status_update.idle_slots_count;
        self.slots_processing = status_update.processing_slots_count;
        released
    }

    /// A report replaces what was known of the peer, as of the current
    /// reading of the clock.
    pub fn update_status(&mut self, status_update: StatusUpdate) -> (updated: Result<(), PoolError>)
        ensures
            final(self)@ == old(self)@.updated(status_update@, final(self).last_update),
            final(self).last_update.wf(),
            final(self).custody_origin() == old(self).custody_origin(),
            updated == (if old(self)@.falls_short(status_update@) {
                Err::<(), PoolError>(PoolError::PermitShortfall)
            } else {
                Ok::<(), PoolError>(())
            }),
    {
        self.update_status_at(status_update, Timestamp::now())
    }

    /// A request occupies an idle slot, as of `now`.
    pub fn take_slot_at(&mut self, now: Timestamp)
        requires
            old(self).slots_idle > 0,
            old(self).slots_processing < usize::MAX,
        ensures
            final(self)@ == old(self)@.took_slot(now),
            final(self).custody_origin() == old(self).custody_origin(),
    {
        self.last_update = now;
        self.slots_idle = self.slots_idle - 1;
        self.slots_processing = self.slots_processing + 1;
    }

    /// A request occupies an idle slot, as of the current reading of the
    /// clock.
    pub fn take_slot(&mut self)
        requires
            old(self).slots_idle > 0,
            old(self).slots_processing < usize::MAX,
        ensures
            final(self)@ == old(self)@.took_slot(final(self).last_update),
            final(self).last_update.wf(),
            final(self).custody_origin() == old(self).custody_origin(),
    {
        self.take_slot_at(Timestamp::now());
    }

    /// Whether `permit` can enter the custody: the custody is empty, or the
    /// same semaphore issued both and a bundle can hold them together.
    pub open spec fn accepts(&self, permit: OwnedSemaphorePermit) -> bool {
        match self.slots_permissions {
            Some(bundle) => permit_origin(bundle) == permit_origin(permit) && permit_count(bundle) + permit_count(
                permit,
            ) <= usize::MAX,
            None => true,
        }
    }

    /// Takes `permit` into custody, together with what is there already.
    pub fn store_permit(&mut self, permit: OwnedSemaphorePermit)
        requires
            old(self).accepts(permit),
        ensures
            final(self)@ == old(self)@.stored_permits(permit_count(permit)),
            final(self).custody_origin() == Some(permit_origin(permit)),
    {
        let held = self.slots_permissions.take();
        match held {
            Some(mut bundle) => {
                merge_permits(&mut bundle, permit);
                self.slots_permissions = Some(bundle);
            },
            None => {
                self.slots_permissions = Some(permit);
            },
        }
    }

    /// The capacity of the peer: its idle and its busy slots.
    pub fn slots_count(&self) -> (n: usize)
        requires
            self.wf(),
        ensures
            n == self@.slots_count(),
    {
        self.slots_idle + self.slots_processing
    }

    /// What the peer adds to the size of the admission semaphore: its
    /// capacity if it is known to be authorized, nothing otherwise.
    pub fn admitted_slots(&self) -> (n: usize)
        requires
            self.wf(),
        ensures
            n == self@.admitted_slots(),
    {
        match self.is_authorized {
            Some(true) => self.slots_count(),
            _ => 0,
        }
    }

    /// Whether `self` is preferred to `other`.
    pub fn outranks(&self, other: &UpstreamPeer) -> (before: bool)
        ensures
            before == ranks_before(self@, other@),
    {
        let mine: bool = self.is_usable();
        let theirs: bool = other.is_usable();
        if mine != theirs {
            mine
        } else if self.slots_idle != other.slots_idle {
            self.slots_idle > other.slots_idle
        } else if self.slots_processing != other.slots_processing {
            self.slots_processing < other.slots_processing
        } else {
            self.external_llamacpp_addr.precedes(&other.external_llamacpp_addr)
        }
    }

    /// Where the order of preference places `self` relative to `other`.
    pub fn cmp(&self, other: &UpstreamPeer) -> (o: Ordering)
        ensures
            o == rank_ordering(self@, other@),
    {
        if self.outranks(other) {
            Ordering::Less
        } else if other.outranks(self) {
            Ordering::Greater
        } else {
            Ordering::Equal
        }
    }
}

impl PartialEq for UpstreamPeer {
    /// Two records are of the same peer iff they carry the same agent id.
    fn eq(&self, other: &UpstreamPeer) -> (same: bool) {
        self.agent_id == other.agent_id
    }
}

impl PartialEqSpecImpl for UpstreamPeer {
    open spec fn obeys_eq_spec() -> bool {
        true
    }

    open spec fn eq_spec(&self, other: &UpstreamPeer) -> bool {
        self.agent_id@ == other.agent_id@
    }
}

impl Eq for UpstreamPeer {

}

impl PartialOrd for UpstreamPeer {
    fn partial_cmp(&self, other: &UpstreamPeer) -> (o: Option<Ordering>) {
        Some(self.cmp(other))
    }
}

impl PartialOrdSpecImpl for UpstreamPeer {
    open spec fn obeys_partial_cmp_spec() -> bool {
        true
    }

    open spec fn partial_cmp_spec(&self, other: &UpstreamPeer) -> Option<Ordering> {
        Some(rank_ordering(self@, other@))
    }
}

} // verus!
