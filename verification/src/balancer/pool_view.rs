//! The pool as a mathematical value: its peers in the order in which they
//! joined, and the number of permits that its semaphore accounts for.
use crate::balancer::permits::max_permits;
use crate::balancer::ranking::ranks_before;
use crate::balancer::ranking::PeerView;
use crate::balancer::status_update::StatusUpdateView;
use crate::balancer::timestamp::Timestamp;
use crate::balancer::timestamp::QUARANTINE_SECS;
use crate::balancer::upstream_peer::PeerInfoView;
use crate::errors::PoolError;
use vstd::prelude::*;

verus! {

/// The pool as a mathematical value.
pub struct PoolView {
    /// The peers, in the order in which they joined the pool.
    pub peers: Seq<PeerView>,
    /// The number of permits that the admission semaphore accounts for.
    pub total_slots: nat,
}

/// The size that the admission semaphore is to have for these peers: the
/// capacities of those that are known to be authorized, added up.
pub open spec fn admitted_slots(peers: Seq<PeerView>) -> nat
    decreases peers.len(),
{
    if peers.len() == 0 {
        0
    } else {
        admitted_slots(peers.drop_last()) + peers.last().admitted_slots()
    }
}

/// Whether `i` is the place of the peer that selection prefers: no peer
/// ranks before it, and of the peers that rank with it, it joined first.
pub open spec fn is_best(peers: Seq<PeerView>, i: int) -> bool {
    &&& 0 <= i < peers.len()
    &&& forall|j: int| 0 <= j < peers.len() ==> !ranks_before(#[trigger] peers[j], peers[i])
    &&& forall|j: int| 0 <= j < i ==> ranks_before(peers[i], #[trigger] peers[j])
}

/// What a surplus of the semaphore may have become after the pool has tried
/// to drain it: the semaphore gives up the permits that are free at that
/// moment, so the new size lies between the wanted one and the old one.
pub open spec fn settled(before: nat, target: nat, after: nat) -> bool {
    if before <= target {
        after == target
    } else {
        target <= after <= before
    }
}

impl PoolView {
    /// No two peers share an agent id, every peer's slots can be counted,
    /// and neither the semaphore nor what it is to hold exceeds what a
    /// semaphore can account for.
    pub open spec fn wf(self) -> bool {
        &&& forall|i: int, j: int|
            0 <= i < j < self.peers.len() ==> (#[trigger] self.peers[i]).agent_id != (
            #[trigger] self.peers[j]).agent_id
        &&& forall|i: int| 0 <= i < self.peers.len() ==> (#[trigger] self.peers[i]).slots_count() <= usize::MAX
        &&& admitted_slots(self.peers) <= max_permits()
        &&& self.total_slots <= max_permits()
    }

    /// Whether a peer with this agent id is in the pool.
    pub open spec fn contains(self, agent_id: Seq<char>) -> bool {
        exists|i: int| 0 <= i < self.peers.len() && (#[trigger] self.peers[i]).agent_id == agent_id
    }

    /// The place of the peer with this agent id.
    pub open spec fn position(self, agent_id: Seq<char>) -> int {
        choose|i: int| 0 <= i < self.peers.len() && (#[trigger] self.peers[i]).agent_id == agent_id
    }

    /// The peer with this agent id.
    pub open spec fn peer(self, agent_id: Seq<char>) -> PeerView {
        self.peers[self.position(agent_id)]
    }

    /// The pool with `peer` in the place of the peer with this agent id.
    pub open spec fn with_peer(self, agent_id: Seq<char>, peer: PeerView) -> PoolView {
        PoolView { peers: self.peers.update(self.position(agent_id), peer), total_slots: self.total_slots }
    }

    /// The pool without the peer with this agent id.
    pub open spec fn without_peer(self, agent_id: Seq<char>) -> PoolView {
        PoolView { peers: self.peers.remove(self.position(agent_id)), total_slots: self.total_slots }
    }

    /// The size that the semaphore is to have.
    pub open spec fn target(self) -> nat {
        admitted_slots(self.peers)
    }

    /// The semaphore accounts for exactly the slots of the authorized peers.
    pub open spec fn has_integrity(self) -> bool {
        self.total_slots == self.target()
    }

    /// The peers after a report of the agent `agent_id`: the report
    /// replaces what was known of its peer, or adds a peer at the end.
    pub open spec fn peers_after_update(self, agent_id: Seq<char>, update: StatusUpdateView, now: Timestamp) -> Seq<
        PeerView,
    > {
        if self.contains(agent_id) {
            self.peers.update(self.position(agent_id), self.peer(agent_id).updated(update, now))
        } else {
            self.peers.push(PeerView::registered(agent_id, update, now))
        }
    }

    /// What the semaphore is to hold after a report of the agent
    /// `agent_id`.
    pub open spec fn target_after_update(self, agent_id: Seq<char>, update: StatusUpdateView) -> int {
        let before: nat = if self.contains(agent_id) {
            self.peer(agent_id).admitted_slots()
        } else {
            0
        };
        let after: nat = if update.is_authorized == Some(true) {
            update.slots_count()
        } else {
            0
        };
        self.target() - before + after
    }

    /// Whether the pool has room for a report: the slots it speaks of can be
    /// counted, and the semaphore can account for the fleet that results.
    pub open spec fn has_room_for(self, agent_id: Seq<char>, update: StatusUpdateView) -> bool {
        &&& update.slots_count() <= usize::MAX
        &&& self.target_after_update(agent_id, update) <= max_permits()
    }

    /// Whether any peer can be given a request.
    pub open spec fn any_usable(self) -> bool {
        exists|i: int| 0 <= i < self.peers.len() && (#[trigger] self.peers[i]).is_usable()
    }

    /// The place of the peer that selection prefers.
    pub open spec fn best_position(self) -> int {
        choose|i: int| is_best(self.peers, i)
    }

    /// The peer that a request is given: the preferred peer, if it can be
    /// given one.
    pub open spec fn best(self) -> Option<PeerInfoView> {
        if self.any_usable() {
            Some(self.peers[self.best_position()].info())
        } else {
            None
        }
    }

    /// Whether the counters of every peer are those of the peer in the same
    /// place of `other`: idle slots, busy slots and permits in custody.
    pub open spec fn same_counters(self, other: PoolView) -> bool {
        &&& self.peers.len() == other.peers.len()
        &&& forall|i: int|
            0 <= i < self.peers.len() ==> (#[trigger] self.peers[i]).same_counters(other.peers[i])
    }
}

impl PoolView {
    /// What a report of the agent `agent_id` makes of the pool. A report
    /// that the pool has no room for is refused with `CapacityExceeded` and
    /// leaves the pool as it was. Any other report replaces what was known
    /// of the peer, or adds a peer, and the semaphore is brought to the new
    /// target as far as it gives way. The answer is `PermitShortfall` where
    /// the peer's custody held fewer permits than the report shows requests
    /// to have ended upstream.
    pub open spec fn applies_update(
        self,
        agent_id: Seq<char>,
        update: StatusUpdateView,
        now: Timestamp,
        applied: Result<(), PoolError>,
        after: PoolView,
    ) -> bool {
        if !self.has_room_for(agent_id, update) {
            applied == Err::<(), PoolError>(PoolError::CapacityExceeded) && after == self
        } else {
            &&& after.peers == self.peers_after_update(agent_id, update, now)
            &&& settled(self.total_slots, after.target(), after.total_slots)
            &&& applied == (if self.contains(agent_id) && self.peer(agent_id).falls_short(update) {
                Err::<(), PoolError>(PoolError::PermitShortfall)
            } else {
                Ok::<(), PoolError>(())
            })
        }
    }

    /// What taking a slot of the peer `agent_id` makes of the pool.
    pub open spec fn takes_slot(
        self,
        agent_id: Seq<char>,
        now: Timestamp,
        taken: Result<(), PoolError>,
        after: PoolView,
    ) -> bool {
        match taken {
            Ok(_) => {
                &&& self.contains(agent_id)
                &&& self.peer(agent_id).slots_idle > 0
                &&& after == self.with_peer(agent_id, self.peer(agent_id).took_slot(now))
            },
            Err(PoolError::PeerNotFound) => !self.contains(agent_id) && after == self,
            Err(PoolError::NoIdleSlot) => self.contains(agent_id) && self.peer(agent_id).slots_idle == 0 && after
                == self,
            Err(_) => false,
        }
    }

    /// What releasing a slot of the peer `agent_id` makes of the pool, for
    /// a request that last saw the peer's `last_update` as `expected`. A
    /// release that a later change of the peer has overtaken changes
    /// nothing and is answered with `false`.
    pub open spec fn releases_slot(
        self,
        agent_id: Seq<char>,
        expected: Timestamp,
        now: Timestamp,
        released: Result<bool, PoolError>,
        after: PoolView,
    ) -> bool {
        match released {
            Ok(true) => {
                &&& self.contains(agent_id)
                &&& self.peer(agent_id).last_update == expected
                &&& self.peer(agent_id).slots_processing > 0
                &&& after == self.with_peer(agent_id, self.peer(agent_id).released_slot(now))
            },
            Ok(false) => {
                &&& self.contains(agent_id)
                &&& self.peer(agent_id).last_update != expected
                &&& after == self
            },
            Err(PoolError::PeerNotFound) => !self.contains(agent_id) && after == self,
            Err(PoolError::NoProcessingSlot) => {
                &&& self.contains(agent_id)
                &&& self.peer(agent_id).last_update == expected
                &&& self.peer(agent_id).slots_processing == 0
                &&& after == self
            },
            Err(_) => false,
        }
    }

    /// What letting one permit out of the custody of the peer `agent_id`
    /// makes of the pool.
    pub open spec fn releases_permit(self, agent_id: Seq<char>, released: Result<(), PoolError>, after: PoolView) -> bool {
        match released {
            Ok(_) => {
                &&& self.contains(agent_id)
                &&& self.peer(agent_id).permits >= 1
                &&& after == self.with_peer(agent_id, self.peer(agent_id).released_permits(1))
            },
            Err(PoolError::PeerNotFound) => !self.contains(agent_id) && after == self,
            Err(PoolError::PermitShortfall) => self.contains(agent_id) && self.peer(agent_id).permits == 0 && after
                == self,
            Err(_) => false,
        }
    }

    /// What handing a bundle of `count` permits to the peer `agent_id`
    /// makes of the pool. `own` says whether the pool's semaphore issued
    /// the bundle. A bundle of another semaphore, or one that would make
    /// the custody larger than a bundle can be, is refused.
    pub open spec fn stores_permit(
        self,
        agent_id: Seq<char>,
        count: nat,
        own: bool,
        stored: Result<bool, PoolError>,
        after: PoolView,
    ) -> bool {
        let fits = own && self.peer(agent_id).permits + count <= usize::MAX;
        match stored {
            Ok(true) => {
                &&& self.contains(agent_id)
                &&& fits
                &&& after == self.with_peer(agent_id, self.peer(agent_id).stored_permits(count))
            },
            Ok(false) => !self.contains(agent_id) && after == self,
            Err(PoolError::PermitRejected) => self.contains(agent_id) && !fits && after == self,
            Err(_) => false,
        }
    }

    /// What quarantining the peer `agent_id` makes of the pool: a peer that
    /// is in the pool and not quarantined yet is kept out of selection for
    /// `QUARANTINE_SECS` seconds from `now`.
    pub open spec fn quarantines(self, agent_id: Seq<char>, now: Timestamp, done: bool, after: PoolView) -> bool {
        if self.contains(agent_id) && self.peer(agent_id).quarantined_until is None {
            done && after == self.with_peer(
                agent_id,
                self.peer(agent_id).quarantined(now.plus_secs(QUARANTINE_SECS)),
            )
        } else {
            !done && after == self
        }
    }

    /// What reconciling the semaphore makes of the pool: the peers stay,
    /// a deficit of the semaphore is made up, and a surplus is drained as
    /// far as the semaphore gives way. `residual` is the surplus that is
    /// left.
    pub open spec fn restores(self, residual: nat, after: PoolView) -> bool {
        &&& after.peers == self.peers
        &&& settled(self.total_slots, self.target(), after.total_slots)
        &&& after.total_slots == self.target() + residual
    }

    /// The pool has come to hold `peers`, and its semaphore has been brought
    /// to what they call for as far as it gave way.
    pub open spec fn becomes(self, peers: Seq<PeerView>, after: PoolView) -> bool {
        &&& after.peers == peers
        &&& settled(self.total_slots, admitted_slots(peers), after.total_slots)
    }

    /// What purging the peer `agent_id` makes of the pool: the peer is
    /// gone, with the permits it had in custody given back, and the
    /// semaphore is brought to the new target as far as it gives way.
    pub open spec fn removes(self, agent_id: Seq<char>, done: bool, after: PoolView) -> bool {
        if self.contains(agent_id) {
            &&& done
            &&& after.peers == self.without_peer(agent_id).peers
            &&& settled(self.total_slots, after.target(), after.total_slots)
        } else {
            !done && after == self
        }
    }
}

/// In a well-formed pool the place of a peer is the one place at which its
/// agent id stands.
pub proof fn lemma_position(pool: PoolView, i: int)
    requires
        pool.wf(),
        0 <= i < pool.peers.len(),
    ensures
        pool.contains(pool.peers[i].agent_id),
        pool.position(pool.peers[i].agent_id) == i,
        pool.peer(pool.peers[i].agent_id) == pool.peers[i],
{
    let id = pool.peers[i].agent_id;
    let k = pool.position(id);
    assert(0 <= k < pool.peers.len() && pool.peers[k].agent_id == id);
    if k < i {
        assert(pool.peers[k].agent_id != pool.peers[i].agent_id);
    }
    if i < k {
        assert(pool.peers[i].agent_id != pool.peers[k].agent_id);
    }
}

/// A peer may be replaced by any peer of the same agent id whose slots can
/// be counted, as long as the target stays within what a semaphore can
/// account for.
pub proof fn lemma_replace_peer(pool: PoolView, i: int, peer: PeerView)
    requires
        pool.wf(),
        0 <= i < pool.peers.len(),
        peer.agent_id == pool.peers[i].agent_id,
        peer.slots_count() <= usize::MAX,
        pool.target() - pool.peers[i].admitted_slots() + peer.admitted_slots() <= max_permits(),
    ensures
        pool.with_peer(peer.agent_id, peer).peers == pool.peers.update(i, peer),
        pool.with_peer(peer.agent_id, peer).wf(),
        pool.with_peer(peer.agent_id, peer).target() == pool.target() - pool.peers[i].admitted_slots()
            + peer.admitted_slots(),
{
    lemma_position(pool, i);
    lemma_admitted_update(pool.peers, i, peer);
    let after = pool.with_peer(peer.agent_id, peer);
    assert forall|a: int, b: int| 0 <= a < b < after.peers.len() implies (#[trigger] after.peers[a]).agent_id != (
    #[trigger] after.peers[b]).agent_id by {
        assert(after.peers[a].agent_id == pool.peers[a].agent_id);
        assert(after.peers[b].agent_id == pool.peers[b].agent_id);
    }
    assert forall|a: int| 0 <= a < after.peers.len() implies (#[trigger] after.peers[a]).slots_count()
        <= usize::MAX by {
        if a != i {
            assert(after.peers[a] == pool.peers[a]);
        }
    }
}

/// A peer with a new agent id may join, as long as its slots can be counted
/// and the target stays within what a semaphore can account for.
pub proof fn lemma_push_peer(pool: PoolView, peer: PeerView)
    requires
        pool.wf(),
        !pool.contains(peer.agent_id),
        peer.slots_count() <= usize::MAX,
        pool.target() + peer.admitted_slots() <= max_permits(),
    ensures
        (PoolView { peers: pool.peers.push(peer), total_slots: pool.total_slots }).wf(),
        admitted_slots(pool.peers.push(peer)) == pool.target() + peer.admitted_slots(),
{
    lemma_admitted_push(pool.peers, peer);
    let after = pool.peers.push(peer);
    assert forall|a: int, b: int| 0 <= a < b < after.len() implies (#[trigger] after[a]).agent_id != (
    #[trigger] after[b]).agent_id by {
        assert(after[a] == pool.peers[a]);
        if b < pool.peers.len() {
            assert(after[b] == pool.peers[b]);
        }
    }
    assert forall|a: int| 0 <= a < after.len() implies (#[trigger] after[a]).slots_count() <= usize::MAX by {
        if a < pool.peers.len() {
            assert(after[a] == pool.peers[a]);
        }
    }
}

/// Any peer may leave.
pub proof fn lemma_remove_peer(pool: PoolView, i: int)
    requires
        pool.wf(),
        0 <= i < pool.peers.len(),
    ensures
        pool.without_peer(pool.peers[i].agent_id).peers == pool.peers.remove(i),
        pool.without_peer(pool.peers[i].agent_id).wf(),
        pool.without_peer(pool.peers[i].agent_id).target() + pool.peers[i].admitted_slots() == pool.target(),
        !pool.without_peer(pool.peers[i].agent_id).contains(pool.peers[i].agent_id),
{
    lemma_position(pool, i);
    lemma_admitted_remove(pool.peers, i);
    let after = pool.peers.remove(i);
    assert forall|a: int| 0 <= a < after.len() implies #[trigger] after[a] == pool.peers[if a < i {
        a
    } else {
        a + 1
    }] by {}
    assert forall|a: int, b: int| 0 <= a < b < after.len() implies (#[trigger] after[a]).agent_id != (
    #[trigger] after[b]).agent_id by {
        let a0 = if a < i { a } else { a + 1 };
        let b0 = if b < i { b } else { b + 1 };
        assert(after[a] == pool.peers[a0]);
        assert(after[b] == pool.peers[b0]);
    }
    assert forall|a: int| 0 <= a < after.len() implies (#[trigger] after[a]).slots_count() <= usize::MAX by {
        let a0 = if a < i { a } else { a + 1 };
        assert(after[a] == pool.peers[a0]);
    }
    assert forall|a: int| 0 <= a < after.len() implies (#[trigger] after[a]).agent_id != pool.peers[i].agent_id by {
        let a0 = if a < i { a } else { a + 1 };
        assert(after[a] == pool.peers[a0]);
        if a0 < i {
            assert(pool.peers[a0].agent_id != pool.peers[i].agent_id);
        } else {
            assert(pool.peers[i].agent_id != pool.peers[a0].agent_id);
        }
    }
}

/// No peer admits more than the target.
pub proof fn lemma_admitted_share(peers: Seq<PeerView>, i: int)
    requires
        0 <= i < peers.len(),
    ensures
        peers[i].admitted_slots() <= admitted_slots(peers),
{
    let none = PeerView { is_authorized: None, ..peers[i] };
    lemma_admitted_update(peers, i, none);
}

/// A peer that joins adds its admitted slots to the target.
pub proof fn lemma_admitted_push(peers: Seq<PeerView>, peer: PeerView)
    ensures
        admitted_slots(peers.push(peer)) == admitted_slots(peers) + peer.admitted_slots(),
{
    assert(peers.push(peer).drop_last() =~= peers);
}

/// Replacing a peer changes the target by the difference of what the two
/// add to it.
pub proof fn lemma_admitted_update(peers: Seq<PeerView>, i: int, peer: PeerView)
    requires
        0 <= i < peers.len(),
    ensures
        admitted_slots(peers.update(i, peer)) + peers[i].admitted_slots() == admitted_slots(peers)
            + peer.admitted_slots(),
    decreases peers.len(),
{
    if i == peers.len() - 1 {
        assert(peers.update(i, peer).drop_last() =~= peers.drop_last());
    } else {
        assert(peers.update(i, peer).drop_last() =~= peers.drop_last().update(i, peer));
        lemma_admitted_update(peers.drop_last(), i, peer);
    }
}

/// A peer that leaves takes its admitted slots out of the target.
pub proof fn lemma_admitted_remove(peers: Seq<PeerView>, i: int)
    requires
        0 <= i < peers.len(),
    ensures
        admitted_slots(peers.remove(i)) + peers[i].admitted_slots() == admitted_slots(peers),
    decreases peers.len(),
{
    if i == peers.len() - 1 {
        assert(peers.remove(i) =~= peers.drop_last());
    } else {
        assert(peers.remove(i).drop_last() =~= peers.drop_last().remove(i));
        assert(peers.remove(i).last() == peers.last());
        lemma_admitted_remove(peers.drop_last(), i);
    }
}

/// The first `k` peers admit no more than all of them, and the next peer
/// adds its own share.
pub proof fn lemma_admitted_prefix(peers: Seq<PeerView>, k: int)
    requires
        0 <= k <= peers.len(),
    ensures
        admitted_slots(peers.take(k)) <= admitted_slots(peers),
        k < peers.len() ==> admitted_slots(peers.take(k + 1)) == admitted_slots(peers.take(k))
            + peers[k].admitted_slots(),
    decreases peers.len(),
{
    if k == peers.len() {
        assert(peers.take(k) =~= peers);
    } else {
        assert(peers.take(k) =~= peers.drop_last().take(k));
        lemma_admitted_prefix(peers.drop_last(), k);
        assert(peers.take(k + 1).drop_last() =~= peers.take(k));
        assert(peers.take(k + 1).last() == peers[k]);
    }
}

/// Among any peers there is a preferred place.
pub proof fn lemma_best_exists(peers: Seq<PeerView>)
    requires
        peers.len() > 0,
    ensures
        exists|i: int| is_best(peers, i),
    decreases peers.len(),
{
    if peers.len() == 1 {
        assert(is_best(peers, 0));
    } else {
        let front = peers.drop_last();
        lemma_best_exists(front);
        let b = choose|i: int| is_best(front, i);
        let c = peers.len() - 1;
        assert forall|j: int| 0 <= j < front.len() implies #[trigger] front[j] == peers[j] by {}
        if ranks_before(peers[c], peers[b]) {
            assert forall|j: int| 0 <= j < peers.len() implies !ranks_before(#[trigger] peers[j], peers[c]) by {
                if j < c {
                    assert(!ranks_before(front[j], front[b]));
                }
            }
            assert forall|j: int| 0 <= j < c implies ranks_before(peers[c], #[trigger] peers[j]) by {
                assert(!ranks_before(front[j], front[b]));
            }
            assert(is_best(peers, c));
        } else {
            assert forall|j: int| 0 <= j < peers.len() implies !ranks_before(#[trigger] peers[j], peers[b]) by {
                if j < c {
                    assert(!ranks_before(front[j], front[b]));
                }
            }
            assert forall|j: int| 0 <= j < b implies ranks_before(peers[b], #[trigger] peers[j]) by {
                assert(ranks_before(front[b], front[j]));
            }
            assert(is_best(peers, b));
        }
    }
}

/// There is at most one preferred place.
pub proof fn lemma_best_unique(peers: Seq<PeerView>, i: int, j: int)
    requires
        is_best(peers, i),
        is_best(peers, j),
    ensures
        i == j,
{
    if i < j {
        assert(ranks_before(peers[j], peers[i]));
        assert(!ranks_before(peers[j], peers[i]));
    }
    if j < i {
        assert(ranks_before(peers[i], peers[j]));
        assert(!ranks_before(peers[i], peers[j]));
    }
}

/// A place that is seen to be the preferred one is the one that selection
/// takes, and the peer there is usable iff any peer is.
pub proof fn lemma_best_is(pool: PoolView, i: int)
    requires
        is_best(pool.peers, i),
    ensures
        pool.best_position() == i,
        pool.any_usable() == pool.peers[i].is_usable(),
        pool.peers[i].is_usable() ==> pool.best() == Some(pool.peers[i].info()),
        !pool.peers[i].is_usable() ==> pool.best() is None,
{
    lemma_best_unique(pool.peers, i, pool.best_position());
    if pool.any_usable() {
        let j = choose|j: int| 0 <= j < pool.peers.len() && (#[trigger] pool.peers[j]).is_usable();
        assert(!ranks_before(pool.peers[j], pool.peers[i]));
    }
}

} // verus!
