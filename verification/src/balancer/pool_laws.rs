//! What holds of the pool whatever is done with it.
use crate::balancer::pool_view::lemma_position;
use crate::balancer::pool_view::lemma_replace_peer;
use crate::balancer::pool_view::PoolView;
use crate::balancer::ranking::PeerView;
use crate::balancer::status_update::StatusUpdateView;
use crate::balancer::timestamp::Timestamp;
use crate::errors::PoolError;
use vstd::prelude::*;

verus! {

/// By how much the permits in a peer's custody exceed its busy slots.
pub open spec fn custody_excess(peer: PeerView) -> int {
    peer.permits - peer.slots_processing
}

/// Reconciling the semaphore leaves it with exactly the slots of the
/// authorized peers iff nothing of a surplus is left over. A deficit is
/// always made up in full, and a surplus never grows.
pub proof fn lemma_restore_reaches_integrity(before: PoolView, residual: nat, after: PoolView)
    requires
        before.restores(residual, after),
    ensures
        after.has_integrity() <==> residual == 0,
        before.total_slots <= before.target() ==> after.has_integrity(),
        before.total_slots > before.target() ==> residual <= before.total_slots - before.target(),
        after.target() == before.target(),
{
}

/// Reconciling a pool whose semaphore is as it should be changes nothing.
pub proof fn lemma_restore_idempotent(before: PoolView, residual: nat, after: PoolView)
    requires
        before.has_integrity(),
        before.restores(residual, after),
    ensures
        after == before,
        residual == 0,
{
}

/// Taking a slot changes neither what the semaphore holds nor what it is to
/// hold.
pub proof fn lemma_take_slot_keeps_integrity(
    before: PoolView,
    agent_id: Seq<char>,
    now: Timestamp,
    taken: Result<(), PoolError>,
    after: PoolView,
)
    requires
        before.wf(),
        before.takes_slot(agent_id, now, taken, after),
    ensures
        after.total_slots == before.total_slots,
        after.target() == before.target(),
        before.has_integrity() ==> after.has_integrity(),
{
    if taken is Ok {
        let i = before.position(agent_id);
        lemma_position(before, i);
        lemma_replace_peer(before, i, before.peer(agent_id).took_slot(now));
    }
}

/// Releasing a slot changes neither what the semaphore holds nor what it
/// is to hold.
pub proof fn lemma_release_slot_keeps_integrity(
    before: PoolView,
    agent_id: Seq<char>,
    expected: Timestamp,
    now: Timestamp,
    released: Result<bool, PoolError>,
    after: PoolView,
)
    requires
        before.wf(),
        before.releases_slot(agent_id, expected, now, released, after),
    ensures
        after.total_slots == before.total_slots,
        after.target() == before.target(),
        before.has_integrity() ==> after.has_integrity(),
{
    if released == Ok::<bool, PoolError>(true) {
        let i = before.position(agent_id);
        lemma_position(before, i);
        lemma_replace_peer(before, i, before.peer(agent_id).released_slot(now));
    }
}

/// Permits that enter or leave a custody, and a quarantine, change neither
/// what the semaphore holds nor what it is to hold.
pub proof fn lemma_custody_keeps_integrity(before: PoolView, agent_id: Seq<char>, peer: PeerView, after: PoolView)
    requires
        before.wf(),
        before.contains(agent_id),
        after == before.with_peer(agent_id, peer),
        peer.agent_id == agent_id,
        peer.is_authorized == before.peer(agent_id).is_authorized,
        peer.slots_idle == before.peer(agent_id).slots_idle,
        peer.slots_processing == before.peer(agent_id).slots_processing,
    ensures
        after.wf(),
        after.total_slots == before.total_slots,
        after.target() == before.target(),
        before.has_integrity() ==> after.has_integrity(),
{
    let i = before.position(agent_id);
    lemma_position(before, i);
    lemma_replace_peer(before, i, peer);
}

/// After a report the semaphore holds no less than it should, and exactly
/// what it should unless the fleet has shrunk below what the semaphore
/// held before.
pub proof fn lemma_update_reaches_integrity(
    before: PoolView,
    agent_id: Seq<char>,
    update: StatusUpdateView,
    now: Timestamp,
    applied: Result<(), PoolError>,
    after: PoolView,
)
    requires
        before.has_room_for(agent_id, update),
        before.applies_update(agent_id, update, now, applied, after),
    ensures
        after.target() <= after.total_slots,
        before.total_slots <= after.target() ==> after.has_integrity(),
        after.total_slots <= before.total_slots || after.has_integrity(),
{
}

/// A release that carries another `last_update` than the peer's is of no
/// effect: the pool stays as it was, counters and all.
pub proof fn lemma_stale_release_changes_nothing(
    before: PoolView,
    agent_id: Seq<char>,
    expected: Timestamp,
    now: Timestamp,
    released: Result<bool, PoolError>,
    after: PoolView,
)
    requires
        before.releases_slot(agent_id, expected, now, released, after),
        before.contains(agent_id),
        before.peer(agent_id).last_update != expected,
    ensures
        released == Ok::<bool, PoolError>(false),
        after == before,
{
}

/// A report that shows `k` requests to have ended upstream takes exactly
/// `k` permits out of the custody of its peer, and none out of any other.
pub proof fn lemma_update_returns_permits(
    before: PoolView,
    agent_id: Seq<char>,
    update: StatusUpdateView,
    now: Timestamp,
    after: PoolView,
)
    requires
        before.wf(),
        before.contains(agent_id),
        before.applies_update(agent_id, update, now, Ok(()), after),
    ensures
        after.peers.len() == before.peers.len(),
        after.contains(agent_id),
        after.position(agent_id) == before.position(agent_id),
        after.peer(agent_id).permits + before.peer(agent_id).finished_upstream(update) == before.peer(
            agent_id,
        ).permits,
        forall|i: int|
            0 <= i < before.peers.len() && i != before.position(agent_id) ==> #[trigger] after.peers[i]
                == before.peers[i],
{
    let i = before.position(agent_id);
    lemma_position(before, i);
    let changed = before.peer(agent_id).updated(update, now);
    lemma_replace_peer(before, i, changed);
    let replaced = before.with_peer(agent_id, changed);
    assert(after.peers == replaced.peers);
    lemma_position(replaced, i);
    assert(after.contains(agent_id) == replaced.contains(agent_id));
    assert(after.position(agent_id) == replaced.position(agent_id));
}

/// The permits in custody follow the requests. A request that is given a
/// peer adds its permit, so that the custody is one ahead of the busy
/// slots until the request has taken its slot; when the request gives back
/// its slot the custody is one ahead again until the permit has left; and
/// after that the peer's counters are what they were before the request.
pub proof fn lemma_custody_follows_requests(peer: PeerView, connected: Timestamp, ended: Timestamp)
    requires
        peer.slots_idle > 0,
    ensures
        custody_excess(peer.stored_permits(1)) == custody_excess(peer) + 1,
        custody_excess(peer.stored_permits(1).took_slot(connected)) == custody_excess(peer),
        custody_excess(peer.stored_permits(1).took_slot(connected).released_slot(ended)) == custody_excess(peer)
            + 1,
        peer.stored_permits(1).took_slot(connected).released_slot(ended).released_permits(1).same_counters(peer),
{
}

/// The permits in custody follow the reports: a report that shows requests
/// to have ended upstream takes as many permits out of the custody as it
/// takes busy slots off the peer, as long as the custody does not fall
/// short.
pub proof fn lemma_custody_follows_reports(peer: PeerView, update: StatusUpdateView, now: Timestamp)
    requires
        update.processing_slots_count <= peer.slots_processing,
        !peer.falls_short(update),
    ensures
        custody_excess(peer.updated(update, now)) == custody_excess(peer),
{
}

} // verus!
