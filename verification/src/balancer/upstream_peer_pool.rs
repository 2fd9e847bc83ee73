//! The pool of peers: the one place where slots are counted and permits are
//! kept.
use crate::balancer::integrity::drained;
use crate::balancer::integrity::reconciliation;
use crate::balancer::integrity::Reconciliation;
use crate::balancer::permits::add_permits;
use crate::balancer::permits::count_permits;
use crate::balancer::permits::forget_permits;
use crate::balancer::permits::issuer;
use crate::balancer::permits::new_semaphore;
use crate::balancer::permits::permit_count;
use crate::balancer::permits::permit_origin;
use crate::balancer::permits::same_semaphore;
use crate::balancer::permits::semaphore_capacity;
use crate::balancer::permits::semaphore_identity;
use crate::balancer::permits::MAX_PERMITS;
use crate::balancer::pool_view::admitted_slots;
use crate::balancer::pool_view::lemma_admitted_prefix;
use crate::balancer::pool_view::lemma_admitted_share;
use crate::balancer::pool_view::lemma_best_is;
use crate::balancer::pool_view::lemma_position;
use crate::balancer::pool_view::lemma_push_peer;
use crate::balancer::pool_view::lemma_remove_peer;
use crate::balancer::pool_view::lemma_replace_peer;
use crate::balancer::pool_view::PoolView;
use crate::balancer::ranking::ranks_before;
use crate::balancer::ranking::PeerView;
use crate::balancer::status_update::StatusUpdate;
use crate::balancer::text::same_text;
use crate::balancer::timestamp::Timestamp;
use crate::balancer::timestamp::QUARANTINE_SECS;
use crate::balancer::upstream_peer::UpstreamPeer;
use crate::balancer::upstream_peer::UpstreamPeerInfo;
use crate::errors::PoolError;
use std::sync::Arc;
use tokio::sync::OwnedSemaphorePermit;
use tokio::sync::Semaphore;
use vstd::prelude::*;

verus! {

/// The peers of the fleet, the admission semaphore, and the number of
/// permits that the pool has put into the semaphore and not taken out again.
#[derive(Debug)]
pub struct UpstreamPeerPool {
    peers: Vec<UpstreamPeer>,
    upstream_slots_permits: Arc<Semaphore>,
    total_slots: usize,
}

impl View for UpstreamPeerPool {
    type V = PoolView;

    closed spec fn view(&self) -> PoolView {
        PoolView {
            peers: Seq::new(self.peers.len() as nat, |i: int| self.peers[i]@),
            total_slots: self.total_slots as nat,
        }
    }
}

impl UpstreamPeerPool {
    /// Which semaphore the pool admits requests with.
    pub closed spec fn semaphore_id(&self) -> int {
        semaphore_identity(*self.upstream_slots_permits)
    }

    /// Whether the pool's semaphore issued `permit`.
    pub open spec fn issued(&self, permit: OwnedSemaphorePermit) -> bool {
        permit_origin(permit) == self.semaphore_id()
    }

    /// What the pool keeps to itself: its count of the semaphore's permits
    /// is right, and every permit in custody is one of its semaphore.
    pub closed spec fn inv(&self) -> bool {
        &&& self.total_slots == semaphore_capacity(*self.upstream_slots_permits)
        &&& forall|i: int|
            0 <= i < self.peers.len() ==> match (#[trigger] self.peers[i]).custody_origin() {
                Some(origin) => origin == self.semaphore_id(),
                None => true,
            }
    }

    /// The pool is in order.
    pub open spec fn wf(&self) -> bool {
        self@.wf() && self.inv()
    }

    /// A pool without peers, with a semaphore that admits nothing yet.
    pub fn new() -> (pool: UpstreamPeerPool)
        ensures
            pool.wf(),
            pool@.peers.len() == 0,
            pool@.total_slots == 0,
    {
        UpstreamPeerPool { peers: Vec::new(), upstream_slots_permits: new_semaphore(0), total_slots: 0 }
    }

    /// The admission semaphore. A request that uses a slot acquires one
    /// permit of it before it asks for a peer.
    pub fn upstream_slots_permits(&self) -> (semaphore: &Arc<Semaphore>)
        ensures
            semaphore_identity(**semaphore) == self.semaphore_id(),
            self.inv() ==> semaphore_capacity(**semaphore) == self@.total_slots,
    {
        &self.upstream_slots_permits
    }

    /// The number of permits that the semaphore accounts for.
    pub fn total_slots(&self) -> (n: usize)
        ensures
            n == self@.total_slots,
    {
        self.total_slots
    }

    /// The peers, in the order in which they joined.
    pub fn peers(&self) -> (peers: &Vec<UpstreamPeer>)
        ensures
            peers.len() == self@.peers.len(),
            forall|i: int| 0 <= i < peers.len() ==> (#[trigger] peers[i])@ == self@.peers[i],
    {
        &self.peers
    }

    /// Whether the pool's semaphore issued `permit`.
    pub fn owns(&self, permit: &OwnedSemaphorePermit) -> (own: bool)
        ensures
            own == self.issued(*permit),
    {
        same_semaphore(issuer(permit), &self.upstream_slots_permits)
    }

    fn find_index(&self, agent_id: &str) -> (found: Option<usize>)
        requires
            self@.wf(),
        ensures
            match found {
                Some(i) => {
                    &&& i < self.peers.len()
                    &&& self.peers[i as int].agent_id@ == agent_id@
                    &&& self@.contains(agent_id@)
                    &&& self@.position(agent_id@) == i
                    &&& self@.peer(agent_id@) == self.peers[i as int]@
                },
                None => !self@.contains(agent_id@),
            },
    {
        let mut i: usize = 0;
        while i < self.peers.len()
            invariant
                i <= self.peers.len(),
                self@.wf(),
                forall|j: int| 0 <= j < i ==> (#[trigger] self.peers[j]).agent_id@ != agent_id@,
            decreases self.peers.len() - i,
        {
            if same_text(self.peers[i].agent_id.as_str(), agent_id) {
                proof {
                    lemma_position(self@, i as int);
                }
                return Some(i);
            }
            i = i + 1;
        }
        proof {
            assert forall|j: int| 0 <= j < self@.peers.len() implies (#[trigger] self@.peers[j]).agent_id
                != agent_id@ by {
                assert(self.peers[j].agent_id@ != agent_id@);
            }
        }
        None
    }

    /// The peer with this agent id, if it is in the pool.
    pub fn get(&self, agent_id: &str) -> (peer: Option<&UpstreamPeer>)
        requires
            self.wf(),
        ensures
            match peer {
                Some(found) => self@.contains(agent_id@) && found@ == self@.peer(agent_id@),
                None => !self@.contains(agent_id@),
            },
    {
        match self.find_index(agent_id) {
            Some(i) => Some(&self.peers[i]),
            None => None,
        }
    }

    /// The size that the semaphore is to have: the slots of the peers that
    /// are known to be authorized.
    pub fn target_slots(&self) -> (target: usize)
        requires
            self.wf(),
        ensures
            target == self@.target(),
            target <= MAX_PERMITS,
    {
        let mut sum: usize = 0;
        let mut i: usize = 0;
        while i < self.peers.len()
            invariant
                i <= self.peers.len(),
                self@.wf(),
                sum == admitted_slots(self@.peers.take(i as int)),
            decreases self.peers.len() - i,
        {
            proof {
                lemma_admitted_prefix(self@.peers, i as int);
                lemma_admitted_prefix(self@.peers, i + 1);
                assert(self@.peers[i as int].slots_count() <= usize::MAX);
            }
            sum = sum + self.peers[i].admitted_slots();
            i = i + 1;
        }
        proof {
            assert(self@.peers.take(i as int) =~= self@.peers);
        }
        sum
    }

    /// Whether the semaphore accounts for exactly the slots of the
    /// authorized peers.
    pub fn has_integrity(&self) -> (whole: bool)
        requires
            self.wf(),
        ensures
            whole == self@.has_integrity(),
    {
        self.total_slots == self.target_slots()
    }

    /// Brings the semaphore to the size that the peers call for. A deficit
    /// is added. Of a surplus the semaphore gives up what is free at the
    /// moment; what it keeps is returned, and is drained by a later call
    /// once the permits have come back.
    pub fn restore_integrity(&mut self) -> (residual: usize)
        requires
            old(self).wf(),
        ensures
            final(self).wf(),
            final(self).semaphore_id() == old(self).semaphore_id(),
            old(self)@.restores(residual as nat, final(self)@),
    {
        let target: usize = self.target_slots();
        match reconciliation(self.total_slots, target) {
            Reconciliation::Balanced => 0,
            Reconciliation::Add(deficit) => {
                add_permits(&mut self.upstream_slots_permits, deficit);
                self.total_slots = target;
                assert(self@.peers =~= old(self)@.peers);
                0
            },
            Reconciliation::Drain(surplus) => {
                let forgotten: usize = forget_permits(&mut self.upstream_slots_permits, surplus);
                let left: (usize, usize) = drained(self.total_slots, surplus, forgotten);
                self.total_slots = left.0;
                assert(self@.peers =~= old(self)@.peers);
                left.1
            },
        }
    }

    /// A report of the agent `agent_id` arrives at `now`. The report
    /// replaces what was known of the agent's peer, or adds a peer, and the
    /// semaphore is reconciled. A report that the pool has no room for
    /// changes nothing.
    pub fn apply_status_update_at(&mut self, agent_id: String, status_update: StatusUpdate, now: Timestamp) -> (applied:
        Result<(), PoolError>)
        requires
            old(self).wf(),
        ensures
            final(self).wf(),
            final(self).semaphore_id() == old(self).semaphore_id(),
            old(self)@.applies_update(agent_id@, status_update@, now, applied, final(self)@),
    {
        let ghost before = self@;
        let ghost id = agent_id@;
        let ghost update = status_update@;
        let idle: usize = status_update.idle_slots_count;
        let busy: usize = status_update.processing_slots_count;
        if idle > usize::MAX - busy {
            return Err(PoolError::CapacityExceeded);
        }
        let admitted_new: usize = match status_update.is_authorized {
            Some(true) => idle + busy,
            _ => 0,
        };
        let target: usize = self.target_slots();
        let found = self.find_index(agent_id.as_str());
        let admitted_old: usize = match found {
            Some(i) => {
                proof {
                    lemma_admitted_share(self@.peers, i as int);
                    assert(self@.peers[i as int].slots_count() <= usize::MAX);
                }
                self.peers[i].admitted_slots()
            },
            None => 0,
        };
        let rest: usize = target - admitted_old;
        if admitted_new > MAX_PERMITS - rest {
            return Err(PoolError::CapacityExceeded);
        }
        assert(before.has_room_for(id, update));
        let applied = match found {
            Some(i) => {
                let updated = self.peers[i].update_status_at(status_update, now);
                proof {
                    let changed = before.peers[i as int].updated(update, now);
                    lemma_replace_peer(before, i as int, changed);
                    assert(self@.peers =~= before.peers.update(i as int, changed));
                }
                updated
            },
            None => {
                let peer = UpstreamPeer::new_from_status_update_at(agent_id, status_update, now);
                proof {
                    lemma_push_peer(before, peer@);
                }
                self.peers.push(peer);
                assert(self@.peers =~= before.peers.push(PeerView::registered(id, update, now)));
                Ok(())
            },
        };
        let _ = self.restore_integrity();
        applied
    }

    /// A report of the agent `agent_id` arrives at the current reading of
    /// the clock.
    pub fn apply_status_update(&mut self, agent_id: String, status_update: StatusUpdate) -> (applied: Result<
        (),
        PoolError,
    >)
        requires
            old(self).wf(),
        ensures
            final(self).wf(),
            final(self).semaphore_id() == old(self).semaphore_id(),
            exists|now: Timestamp| now.wf() && #[trigger]
                old(self)@.applies_update(agent_id@, status_update@, now, applied, final(self)@),
    {
        self.apply_status_update_at(agent_id, status_update, Timestamp::now())
    }

    /// What a request keeps of the peer that it is given: the preferred
    /// peer, if that peer can be given a request. Nothing changes in the
    /// pool.
    pub fn use_best_peer(&self) -> (chosen: Option<UpstreamPeerInfo>)
        ensures
            match chosen {
                Some(info) => self@.best() == Some(info@),
                None => self@.best() is None,
            },
            self@.wf() ==> match chosen {
                Some(info) => self@.contains(info@.agent_id) && self@.peer(info@.agent_id).info() == info@,
                None => true,
            },
    {
        if self.peers.len() == 0 {
            return None;
        }
        let mut best: usize = 0;
        let mut i: usize = 1;
        while i < self.peers.len()
            invariant
                1 <= i <= self.peers.len(),
                best < i,
                forall|j: int| 0 <= j < i ==> !ranks_before(#[trigger] self@.peers[j], self@.peers[best as int]),
                forall|j: int| 0 <= j < best ==> ranks_before(self@.peers[best as int], #[trigger] self@.peers[j]),
            decreases self.peers.len() - i,
        {
            if self.peers[i].outranks(&self.peers[best]) {
                best = i;
            }
            i = i + 1;
        }
        proof {
            lemma_best_is(self@, best as int);
            if self@.wf() {
                lemma_position(self@, best as int);
            }
        }
        if self.peers[best].is_usable() {
            Some(self.peers[best].info())
        } else {
            None
        }
    }

    /// A request occupies an idle slot of the peer `agent_id` at `now`.
    pub fn take_slot_at(&mut self, agent_id: &str, now: Timestamp) -> (taken: Result<(), PoolError>)
        requires
            old(self).wf(),
        ensures
            final(self).wf(),
            final(self).semaphore_id() == old(self).semaphore_id(),
            old(self)@.takes_slot(agent_id@, now, taken, final(self)@),
    {
        let ghost before = self@;
        match self.find_index(agent_id) {
            None => Err(PoolError::PeerNotFound),
            Some(i) => {
                if self.peers[i].slots_idle == 0 {
                    return Err(PoolError::NoIdleSlot);
                }
                proof {
                    assert(before.peers[i as int].slots_count() <= usize::MAX);
                    let changed = before.peers[i as int].took_slot(now);
                    lemma_replace_peer(before, i as int, changed);
                }
                self.peers[i].take_slot_at(now);
                assert(self@.peers =~= before.peers.update(i as int, before.peers[i as int].took_slot(now)));
                Ok(())
            },
        }
    }

    /// A request occupies an idle slot of the peer `agent_id` at the current
    /// reading of the clock.
    pub fn take_slot(&mut self, agent_id: &str) -> (taken: Result<(), PoolError>)
        requires
            old(self).wf(),
        ensures
            final(self).wf(),
            final(self).semaphore_id() == old(self).semaphore_id(),
            exists|now: Timestamp| now.wf() && #[trigger] old(self)@.takes_slot(agent_id@, now, taken, final(self)@),
    {
        self.take_slot_at(agent_id, Timestamp::now())
    }

    /// A request that last saw the peer's `last_update` as
    /// `expected_last_update` leaves its slot of the peer `agent_id` at
    /// `now`. Where the peer has changed since, the release is stale: the
    /// pool stays as it is and the answer is `false`.
    pub fn release_slot_at(&mut self, agent_id: &str, expected_last_update: Timestamp, now: Timestamp) -> (released:
        Result<bool, PoolError>)
        requires
            old(self).wf(),
        ensures
            final(self).wf(),
            final(self).semaphore_id() == old(self).semaphore_id(),
            old(self)@.releases_slot(agent_id@, expected_last_update, now, released, final(self)@),
    {
        let ghost before = self@;
        match self.find_index(agent_id) {
            None => Err(PoolError::PeerNotFound),
            Some(i) => {
                if self.peers[i].last_update != expected_last_update {
                    return Ok(false);
                }
                if self.peers[i].slots_processing == 0 {
                    return Err(PoolError::NoProcessingSlot);
                }
                proof {
                    assert(before.peers[i as int].slots_count() <= usize::MAX);
                    let changed = before.peers[i as int].released_slot(now);
                    lemma_replace_peer(before, i as int, changed);
                }
                self.peers[i].release_slot_at(now);
                assert(self@.peers =~= before.peers.update(i as int, before.peers[i as int].released_slot(now)));
                Ok(true)
            },
        }
    }

    /// As `release_slot_at`, at the current reading of the clock.
    pub fn release_slot(&mut self, agent_id: &str, expected_last_update: Timestamp) -> (released: Result<
        bool,
        PoolError,
    >)
        requires
            old(self).wf(),
        ensures
            final(self).wf(),
            final(self).semaphore_id() == old(self).semaphore_id(),
            exists|now: Timestamp| now.wf() && #[trigger]
                old(self)@.releases_slot(agent_id@, expected_last_update, now, released, final(self)@),
    {
        self.release_slot_at(agent_id, expected_last_update, Timestamp::now())
    }

    /// One permit leaves the custody of the peer `agent_id` and returns to
    /// the semaphore.
    pub fn release_one_permit(&mut self, agent_id: &str) -> (released: Result<(), PoolError>)
        requires
            old(self).wf(),
        ensures
            final(self).wf(),
            final(self).semaphore_id() == old(self).semaphore_id(),
            old(self)@.releases_permit(agent_id@, released, final(self)@),
    {
        let ghost before = self@;
        match self.find_index(agent_id) {
            None => Err(PoolError::PeerNotFound),
            Some(i) => {
                proof {
                    assert(before.peers[i as int].slots_count() <= usize::MAX);
                    let changed = before.peers[i as int].released_permits(1);
                    lemma_replace_peer(before, i as int, changed);
                }
                match self.peers[i].release_permits(1) {
                    Ok(()) => {
                        assert(self@.peers =~= before.peers.update(
                            i as int,
                            before.peers[i as int].released_permits(1),
                        ));
                        Ok(())
                    },
                    Err(e) => {
                        assert(self@.peers =~= before.peers);
                        Err(e)
                    },
                }
            },
        }
    }

    /// The peer `agent_id` takes `permit` into custody. The answer is
    /// `false`, and the permit returns to its semaphore, where the peer is
    /// gone. A permit that the peer cannot take returns to its semaphore
    /// too.
    pub fn store_permit(&mut self, agent_id: &str, permit: OwnedSemaphorePermit) -> (stored: Result<bool, PoolError>)
        requires
            old(self).wf(),
        ensures
            final(self).wf(),
            final(self).semaphore_id() == old(self).semaphore_id(),
            old(self)@.stores_permit(agent_id@, permit_count(permit), old(self).issued(permit), stored, final(self)@),
    {
        let ghost before = self@;
        match self.find_index(agent_id) {
            None => Ok(false),
            Some(i) => {
                if !self.owns(&permit) {
                    return Err(PoolError::PermitRejected);
                }
                let held: usize = self.peers[i].permits_count();
                let incoming: usize = count_permits(&permit);
                if incoming > usize::MAX - held {
                    return Err(PoolError::PermitRejected);
                }
                proof {
                    assert(before.peers[i as int].slots_count() <= usize::MAX);
                    let changed = before.peers[i as int].stored_permits(incoming as nat);
                    lemma_replace_peer(before, i as int, changed);
                }
                self.peers[i].store_permit(permit);
                assert(self@.peers =~= before.peers.update(
                    i as int,
                    before.peers[i as int].stored_permits(incoming as nat),
                ));
                Ok(true)
            },
        }
    }

    /// The peer `agent_id` failed at `now` and is kept out of selection for
    /// a while. The answer is `true` iff the peer is in the pool and was not
    /// quarantined already.
    pub fn quarantine_peer_at(&mut self, agent_id: &str, now: Timestamp) -> (done: bool)
        requires
            old(self).wf(),
        ensures
            final(self).wf(),
            final(self).semaphore_id() == old(self).semaphore_id(),
            old(self)@.quarantines(agent_id@, now, done, final(self)@),
    {
        let ghost before = self@;
        match self.find_index(agent_id) {
            None => false,
            Some(i) => {
                if self.peers[i].quarantined_until.is_some() {
                    return false;
                }
                let until: Timestamp = now.add_secs(QUARANTINE_SECS);
                proof {
                    assert(before.peers[i as int].slots_count() <= usize::MAX);
                    let changed = before.peers[i as int].quarantined(until);
                    lemma_replace_peer(before, i as int, changed);
                }
                self.peers[i].quarantined_until = Some(until);
                assert(self@.peers =~= before.peers.update(i as int, before.peers[i as int].quarantined(until)));
                true
            },
        }
    }

    /// As `quarantine_peer_at`, at the current reading of the clock.
    pub fn quarantine_peer(&mut self, agent_id: &str) -> (done: bool)
        requires
            old(self).wf(),
        ensures
            final(self).wf(),
            final(self).semaphore_id() == old(self).semaphore_id(),
            exists|now: Timestamp| now.wf() && #[trigger] old(self)@.quarantines(agent_id@, now, done, final(self)@),
    {
        self.quarantine_peer_at(agent_id, Timestamp::now())
    }

    /// The peer `agent_id` leaves the pool. The permits it had in custody
    /// return to the semaphore, and the semaphore is brought to the new
    /// target. The answer is `true` iff the peer was in the pool.
    pub fn remove_peer(&mut self, agent_id: &str) -> (done: bool)
        requires
            old(self).wf(),
        ensures
            final(self).wf(),
            final(self).semaphore_id() == old(self).semaphore_id(),
            old(self)@.removes(agent_id@, done, final(self)@),
    {
        let ghost before = self@;
        match self.find_index(agent_id) {
            None => false,
            Some(i) => {
                proof {
                    lemma_remove_peer(before, i as int);
                }
                let _ = self.peers.remove(i);
                assert(self@.peers =~= before.peers.remove(i as int));
                let _ = self.restore_integrity();
                true
            },
        }
    }
}

} // verus!
