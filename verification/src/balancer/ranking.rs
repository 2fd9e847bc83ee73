//! A peer as a mathematical value, what the pool's operations make of it,
//! and the order in which peers are preferred.
use crate::balancer::peer_addr::PeerAddr;
use crate::balancer::status_update::StatusUpdateView;
use crate::balancer::timestamp::Timestamp;
use vstd::prelude::*;

verus! {

/// A peer as a mathematical value. `permits` is the number of admission
/// permits that the peer has in custody.
pub struct PeerView {
    pub agent_id: Seq<char>,
    pub agent_name: Option<Seq<char>>,
    pub error: Option<Seq<char>>,
    pub external_llamacpp_addr: PeerAddr,
    pub is_authorized: Option<bool>,
    pub is_slots_endpoint_enabled: Option<bool>,
    pub last_update: Timestamp,
    pub quarantined_until: Option<Timestamp>,
    pub slots_idle: nat,
    pub slots_processing: nat,
    pub permits: nat,
}

impl PeerView {
    /// The peer that a first report of an agent creates: not quarantined,
    /// with no permit in custody.
    pub open spec fn registered(agent_id: Seq<char>, update: StatusUpdateView, now: Timestamp) -> PeerView {
        PeerView {
            agent_id,
            agent_name: update.agent_name,
            error: update.error,
            external_llamacpp_addr: update.external_llamacpp_addr,
            is_authorized: update.is_authorized,
            is_slots_endpoint_enabled: update.is_slots_endpoint_enabled,
            last_update: now,
            quarantined_until: None,
            slots_idle: update.idle_slots_count,
            slots_processing: update.processing_slots_count,
            permits: 0,
        }
    }

    /// A peer can be given a request iff it has an idle slot, is not
    /// quarantined, reports no error and is known to be authorized.
    pub open spec fn is_usable(self) -> bool {
        &&& self.slots_idle > 0
        &&& self.quarantined_until is None
        &&& self.error is None
        &&& self.is_authorized == Some(true)
    }

    /// The capacity of the peer: its idle and its busy slots.
    pub open spec fn slots_count(self) -> nat {
        self.slots_idle + self.slots_processing
    }

    /// What the peer adds to the size of the admission semaphore: its
    /// capacity if it is known to be authorized, nothing otherwise.
    pub open spec fn admitted_slots(self) -> nat {
        if self.is_authorized == Some(true) {
            self.slots_count()
        } else {
            0
        }
    }

    /// The peer after a request has occupied one of its idle slots.
    pub open spec fn took_slot(self, now: Timestamp) -> PeerView {
        PeerView {
            last_update: now,
            slots_idle: (self.slots_idle - 1) as nat,
            slots_processing: self.slots_processing + 1,
            ..self
        }
    }

    /// The peer after a request has left one of its busy slots.
    pub open spec fn released_slot(self, now: Timestamp) -> PeerView {
        PeerView {
            last_update: now,
            slots_idle: self.slots_idle + 1,
            slots_processing: (self.slots_processing - 1) as nat,
            ..self
        }
    }

    /// The peer after `n` permits have left its custody.
    pub open spec fn released_permits(self, n: nat) -> PeerView {
        PeerView { permits: (self.permits - n) as nat, ..self }
    }

    /// The peer after `n` permits have entered its custody.
    pub open spec fn stored_permits(self, n: nat) -> PeerView {
        PeerView { permits: self.permits + n, ..self }
    }

    /// The number of requests that a report shows to have ended at the
    /// worker without the proxy having seen them end: by how much the
    /// reported number of busy slots is below the recorded one.
    pub open spec fn finished_upstream(self, update: StatusUpdateView) -> nat {
        if update.processing_slots_count < self.slots_processing {
            (self.slots_processing - update.processing_slots_count) as nat
        } else {
            0
        }
    }

    /// Whether the custody holds fewer permits than a report shows requests
    /// to have ended upstream. The pool has then lost count of this peer's
    /// permits.
    pub open spec fn falls_short(self, update: StatusUpdateView) -> bool {
        self.finished_upstream(update) > self.permits
    }

    /// The peer after a report has replaced what was known of it: the
    /// permits of the requests that ended upstream have left its custody,
    /// the quarantine is over, and the report's contents stand in place of
    /// the old ones. Where the custody falls short, no permit leaves it.
    pub open spec fn updated(self, update: StatusUpdateView, now: Timestamp) -> PeerView {
        PeerView {
            agent_id: self.agent_id,
            agent_name: update.agent_name,
            error: update.error,
            external_llamacpp_addr: update.external_llamacpp_addr,
            is_authorized: update.is_authorized,
            is_slots_endpoint_enabled: update.is_slots_endpoint_enabled,
            last_update: now,
            quarantined_until: None,
            slots_idle: update.idle_slots_count,
            slots_processing: update.processing_slots_count,
            permits: if self.falls_short(update) {
                self.permits
            } else {
                (self.permits - self.finished_upstream(update)) as nat
            },
        }
    }

    /// The peer, kept out of selection until `until`.
    pub open spec fn quarantined(self, until: Timestamp) -> PeerView {
        PeerView { quarantined_until: Some(until), ..self }
    }

    /// Whether the three counters of two peers agree: idle slots, busy slots
    /// and permits in custody.
    pub open spec fn same_counters(self, other: PeerView) -> bool {
        &&& self.slots_idle == other.slots_idle
        &&& self.slots_processing == other.slots_processing
        &&& self.permits == other.permits
    }
}

/// The order of preference: a usable peer before one that is not; among
/// those, the one with more idle slots; among those, the one with fewer busy
/// slots; among those, the one with the smaller address.
pub open spec fn ranks_before(a: PeerView, b: PeerView) -> bool {
    if a.is_usable() != b.is_usable() {
        a.is_usable()
    } else if a.slots_idle != b.slots_idle {
        a.slots_idle > b.slots_idle
    } else if a.slots_processing != b.slots_processing {
        a.slots_processing < b.slots_processing
    } else {
        a.external_llamacpp_addr.sorts_before(b.external_llamacpp_addr)
    }
}

/// Two peers that the order of preference does not tell apart: they agree
/// in whether they are usable, in both counters and in the address.
pub open spec fn same_rank(a: PeerView, b: PeerView) -> bool {
    &&& a.is_usable() == b.is_usable()
    &&& a.slots_idle == b.slots_idle
    &&& a.slots_processing == b.slots_processing
    &&& a.external_llamacpp_addr.sorts_with(b.external_llamacpp_addr)
}

/// No peer is preferred to itself.
pub proof fn lemma_rank_irreflexive(a: PeerView)
    ensures
        !ranks_before(a, a),
        same_rank(a, a),
{
}

/// Of two peers exactly one holds: the first is preferred, the second is
/// preferred, or the order does not tell them apart.
pub proof fn lemma_rank_trichotomy(a: PeerView, b: PeerView)
    ensures
        ranks_before(a, b) || ranks_before(b, a) || same_rank(a, b),
        !(ranks_before(a, b) && ranks_before(b, a)),
        !(ranks_before(a, b) && same_rank(a, b)),
        !(ranks_before(b, a) && same_rank(a, b)),
{
}

/// Preference carries over: if `a` is preferred to `b` and `b` to `c`, then
/// `a` is preferred to `c`.
pub proof fn lemma_rank_transitive(a: PeerView, b: PeerView, c: PeerView)
    requires
        ranks_before(a, b),
        ranks_before(b, c),
    ensures
        ranks_before(a, c),
{
}

/// Being of the same rank is an equivalence, and peers of the same rank
/// stand alike to every other peer.
pub proof fn lemma_same_rank_equivalence(a: PeerView, b: PeerView, c: PeerView)
    ensures
        same_rank(a, b) == same_rank(b, a),
        same_rank(a, b) && same_rank(b, c) ==> same_rank(a, c),
        same_rank(a, b) ==> ranks_before(a, c) == ranks_before(b, c),
        same_rank(a, b) ==> ranks_before(c, a) == ranks_before(c, b),
{
}

} // verus!
