//! What holds of every request.
use crate::balancer::pool_view::lemma_best_exists;
use crate::balancer::pool_view::lemma_position;
use crate::balancer::pool_view::lemma_replace_peer;
use crate::balancer::pool_view::PoolView;
use crate::balancer::request_view::classifies;
use crate::balancer::request_view::connects;
use crate::balancer::request_view::dispatches;
use crate::balancer::request_view::fails_midway;
use crate::balancer::request_view::fails_to_connect;
use crate::balancer::request_view::streams;
use crate::balancer::request_view::wants_permit;
use crate::balancer::request_view::ContextView;
use crate::balancer::proxy_service::ProxyFailure;
use crate::balancer::peer_addr::PeerAddr;
use crate::balancer::timestamp::Timestamp;
use crate::balancer::upstream_peer::PeerInfoView;
use crate::errors::ProxyError;
use vstd::prelude::*;

verus! {

/// A request that uses no slot never asks for a permit.
pub proof fn lemma_unslotted_needs_no_permit(ctx: ContextView)
    requires
        !ctx.uses_slots,
    ensures
        !wants_permit(ctx),
{
}

/// Being given a peer leaves the pool untouched for a request that uses no
/// slot, and the request stays one that uses no slot.
pub proof fn lemma_unslotted_dispatch(
    pool: PoolView,
    ctx: ContextView,
    permit: Option<(nat, bool)>,
    answer: Result<PeerAddr, ProxyError>,
    pool_after: PoolView,
    ctx_after: ContextView,
)
    requires
        !ctx.uses_slots,
        dispatches(pool, ctx, permit, answer, pool_after, ctx_after),
    ensures
        pool_after == pool,
        !ctx_after.uses_slots,
        ctx_after.slot_taken == ctx.slot_taken,
{
}

/// A connection, a piece of the response and an error while the response is
/// passed on leave the pool and the context untouched for a request that
/// uses no slot.
pub proof fn lemma_unslotted_traffic(
    pool: PoolView,
    ctx: ContextView,
    now: Timestamp,
    end_of_stream: bool,
    client_reused: bool,
    retry_buffer_truncated: bool,
    answer: Result<(), ProxyError>,
    verdict: ProxyFailure,
    pool_after: PoolView,
    ctx_after: ContextView,
)
    requires
        !ctx.uses_slots,
        connects(pool, ctx, now, answer, pool_after, ctx_after) || streams(
            pool,
            ctx,
            end_of_stream,
            now,
            answer,
            pool_after,
            ctx_after,
        ) || fails_midway(
            pool,
            ctx,
            client_reused,
            retry_buffer_truncated,
            now,
            verdict,
            pool_after,
            ctx_after,
        ),
    ensures
        pool_after == pool,
        ctx_after == ctx,
{
}

/// A failed connect changes no counter of any peer, whatever the request:
/// it changes the quarantine of one peer and nothing else in the peers.
pub proof fn lemma_failed_connect_keeps_counters(
    pool: PoolView,
    ctx: ContextView,
    now: Timestamp,
    retry: bool,
    pool_after: PoolView,
    ctx_after: ContextView,
)
    requires
        pool.wf(),
        fails_to_connect(pool, ctx, now, retry, pool_after, ctx_after),
    ensures
        pool_after.same_counters(pool),
        ctx_after.uses_slots == ctx.uses_slots,
        ctx_after.slot_taken == ctx.slot_taken,
{
    match ctx.selected_peer {
        Some(peer) => {
            if pool.contains(peer.agent_id) {
                lemma_position(pool, pool.position(peer.agent_id));
            }
        },
        None => {},
    }
    assert forall|i: int| 0 <= i < pool_after.peers.len() implies (#[trigger] pool_after.peers[i]).same_counters(
        pool.peers[i],
    ) by {}
}

/// A request that uses a slot, is given a peer for its one permit, takes
/// its slot and runs to the end of the response leaves every counter of
/// every peer as it found it: the idle slots, the busy slots and the permits
/// in custody. A semaphore that was as large as the fleet is so again.
pub proof fn lemma_request_restores_counters(
    pool: PoolView,
    ctx: ContextView,
    address: PeerAddr,
    dispatched: PoolView,
    ctx_dispatched: ContextView,
    connected_at: Timestamp,
    connected: PoolView,
    ctx_connected: ContextView,
    ended_at: Timestamp,
    ended: PoolView,
    ctx_ended: ContextView,
)
    requires
        pool.wf(),
        ctx.uses_slots,
        !ctx.slot_taken,
        ctx.selected_peer is None,
        dispatches(pool, ctx, Some((1nat, true)), Ok(address), dispatched, ctx_dispatched),
        connects(dispatched, ctx_dispatched, connected_at, Ok(()), connected, ctx_connected),
        streams(connected, ctx_connected, true, ended_at, Ok(()), ended, ctx_ended),
    ensures
        ended.same_counters(pool),
        !ctx_ended.slot_taken,
        pool.has_integrity() ==> ended.has_integrity(),
{
    let chosen = pool.best()->0;
    let id = chosen.agent_id;
    let i = pool.best_position();
    lemma_best_exists(pool.peers);
    lemma_position(pool, i);
    let stored = pool.peers[i].stored_permits(1);
    lemma_replace_peer(pool, i, stored);
    lemma_position(dispatched, i);
    let took = stored.took_slot(connected_at);
    lemma_replace_peer(dispatched, i, took);
    let taken = dispatched.with_peer(id, took);
    assert(connected.peers == taken.peers);
    let connected_wf = PoolView { peers: connected.peers, total_slots: taken.total_slots };
    assert(connected_wf == taken);
    lemma_position(taken, i);
    assert(connected.position(id) == taken.position(id));
    assert(connected.contains(id) == taken.contains(id));
    let gave = took.released_slot(ended_at);
    lemma_replace_peer(taken, i, gave);
    let returned = taken.with_peer(id, gave);
    lemma_position(returned, i);
    let left = gave.released_permits(1);
    lemma_replace_peer(returned, i, left);
    assert(ended.peers =~= pool.peers.update(i, left));
    assert forall|k: int| 0 <= k < ended.peers.len() implies (#[trigger] ended.peers[k]).same_counters(
        pool.peers[k],
    ) by {}
}

/// Every step of a request keeps its context in order, and so does the
/// classification of a request that occupies no slot.
pub proof fn lemma_context_stays_in_order(
    pool: PoolView,
    ctx: ContextView,
    now: Timestamp,
    permit: Option<(nat, bool)>,
    end_of_stream: bool,
    client_reused: bool,
    retry_buffer_truncated: bool,
    slots_endpoint_enable: bool,
    path: Seq<char>,
    classified: Result<bool, ProxyError>,
    address: Result<PeerAddr, ProxyError>,
    answer: Result<(), ProxyError>,
    verdict: ProxyFailure,
    retry: bool,
    pool_after: PoolView,
    ctx_after: ContextView,
)
    requires
        ctx.in_order(),
        (!ctx.slot_taken && classifies(slots_endpoint_enable, ctx, path, classified, ctx_after)) || dispatches(
            pool,
            ctx,
            permit,
            address,
            pool_after,
            ctx_after,
        ) || connects(pool, ctx, now, answer, pool_after, ctx_after) || streams(
            pool,
            ctx,
            end_of_stream,
            now,
            answer,
            pool_after,
            ctx_after,
        ) || fails_midway(
            pool,
            ctx,
            client_reused,
            retry_buffer_truncated,
            now,
            verdict,
            pool_after,
            ctx_after,
        ) || fails_to_connect(pool, ctx, now, retry, pool_after, ctx_after),
    ensures
        ctx_after.in_order(),
{
}

/// The end of the last request in flight leaves the pool at rest. Given a
/// pool whose semaphore is as large as the fleet, and a request that
/// occupies a slot of its peer, where the peer has not changed since the
/// slot was taken, still counts the request's slot as busy, and holds the
/// one permit in custody that there is: with the last piece of the
/// response the answer is `Ok`, the slot is idle again, no peer has a
/// permit in custody, and the semaphore is as large as the fleet.
pub proof fn lemma_last_request_leaves_pool_at_rest(
    pool: PoolView,
    ctx: ContextView,
    peer: PeerInfoView,
    now: Timestamp,
    answer: Result<(), ProxyError>,
    pool_after: PoolView,
    ctx_after: ContextView,
)
    requires
        pool.wf(),
        ctx.in_order(),
        pool.has_integrity(),
        ctx.slot_taken,
        ctx.selected_peer == Some(peer),
        pool.contains(peer.agent_id),
        pool.peer(peer.agent_id).last_update == peer.last_update,
        pool.peer(peer.agent_id).slots_processing >= 1,
        pool.peer(peer.agent_id).permits == 1,
        forall|i: int|
            0 <= i < pool.peers.len() && i != pool.position(peer.agent_id) ==> (#[trigger] pool.peers[i]).permits
                == 0,
        streams(pool, ctx, true, now, answer, pool_after, ctx_after),
    ensures
        answer is Ok,
        ctx_after == (ContextView { slot_taken: false, ..ctx }),
        pool_after.has_integrity(),
        pool_after.peers.len() == pool.peers.len(),
        forall|i: int| 0 <= i < pool_after.peers.len() ==> (#[trigger] pool_after.peers[i]).permits == 0,
        pool_after.contains(peer.agent_id),
        pool_after.peer(peer.agent_id) == pool.peer(peer.agent_id).released_slot(now).released_permits(1),
        forall|i: int|
            0 <= i < pool.peers.len() && i != pool.position(peer.agent_id) ==> #[trigger] pool_after.peers[i]
                == pool.peers[i],
{
    let id = peer.agent_id;
    let i = pool.position(id);
    lemma_position(pool, i);
    let gave = pool.peer(id).released_slot(now);
    lemma_replace_peer(pool, i, gave);
    let returned = pool.with_peer(id, gave);
    lemma_position(returned, i);
    let left = gave.released_permits(1);
    lemma_replace_peer(returned, i, left);
    let ended = returned.with_peer(id, left);
    lemma_position(ended, i);
    assert(pool_after.peers == ended.peers);
    assert(pool_after.contains(id) == ended.contains(id));
    assert(pool_after.position(id) == ended.position(id));
    assert forall|k: int| 0 <= k < pool_after.peers.len() implies (#[trigger] pool_after.peers[k]).permits == 0 by {
        if k != i {
            assert(pool_after.peers[k] == pool.peers[k]);
        }
    }
}

/// A release that a change of the peer has overtaken still gives up the
/// request's permit, once. Given a request that occupies a slot of its
/// peer, where the peer has changed since the request last saw it and has
/// a permit in custody: with the last piece of the response the answer is
/// `Ok`, the peer's slots are as they were, one permit has left its
/// custody, no other peer has changed, and the request occupies no slot
/// any more.
pub proof fn lemma_overtaken_release_gives_up_permit(
    pool: PoolView,
    ctx: ContextView,
    peer: PeerInfoView,
    now: Timestamp,
    answer: Result<(), ProxyError>,
    pool_after: PoolView,
    ctx_after: ContextView,
)
    requires
        pool.wf(),
        ctx.in_order(),
        ctx.slot_taken,
        ctx.selected_peer == Some(peer),
        pool.contains(peer.agent_id),
        pool.peer(peer.agent_id).last_update != peer.last_update,
        pool.peer(peer.agent_id).permits >= 1,
        streams(pool, ctx, true, now, answer, pool_after, ctx_after),
    ensures
        answer is Ok,
        ctx_after == (ContextView { slot_taken: false, ..ctx }),
        pool_after.peers.len() == pool.peers.len(),
        pool_after.contains(peer.agent_id),
        pool_after.peer(peer.agent_id) == pool.peer(peer.agent_id).released_permits(1),
        pool_after.peer(peer.agent_id).slots_idle == pool.peer(peer.agent_id).slots_idle,
        pool_after.peer(peer.agent_id).slots_processing == pool.peer(peer.agent_id).slots_processing,
        pool_after.peer(peer.agent_id).permits == pool.peer(peer.agent_id).permits - 1,
        forall|i: int|
            0 <= i < pool.peers.len() && i != pool.position(peer.agent_id) ==> #[trigger] pool_after.peers[i]
                == pool.peers[i],
        pool.has_integrity() ==> pool_after.has_integrity(),
{
    let id = peer.agent_id;
    let i = pool.position(id);
    lemma_position(pool, i);
    let left = pool.peer(id).released_permits(1);
    lemma_replace_peer(pool, i, left);
    let ended = pool.with_peer(id, left);
    lemma_position(ended, i);
    assert(pool_after.peers == ended.peers);
    assert(pool_after.contains(id) == ended.contains(id));
    assert(pool_after.position(id) == ended.position(id));
}

} // verus!
