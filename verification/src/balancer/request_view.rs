//! A request as a mathematical value, and what each step of a request
//! makes of the pool and of the request.
use crate::balancer::peer_addr::PeerAddr;
use crate::balancer::pool_view::lemma_position;
use crate::balancer::pool_view::lemma_replace_peer;
use crate::balancer::pool_view::PoolView;
use crate::balancer::proxy_service::ProxyFailure;
use crate::balancer::timestamp::Timestamp;
use crate::balancer::timestamp::QUARANTINE_SECS;
use crate::balancer::upstream_peer::PeerInfoView;
use crate::errors::PoolError;
use crate::errors::ProxyError;
use vstd::prelude::*;

verus! {

/// The context of a request as a mathematical value.
pub struct ContextView {
    /// The request occupies a slot of the selected peer.
    pub slot_taken: bool,
    /// The peer the request was given, as the request last saw it.
    pub selected_peer: Option<PeerInfoView>,
    /// The request is one that occupies a slot while it runs.
    pub uses_slots: bool,
}

impl ContextView {
    /// The context is in order: a request that occupies a slot is one that
    /// uses slots. A new context is in order, and every step of a request
    /// keeps it so; classifying anew a request that occupies a slot is the
    /// one thing that could undo it.
    pub open spec fn in_order(self) -> bool {
        self.slot_taken ==> self.uses_slots
    }
}

/// The paths whose requests occupy a slot while they run.
pub open spec fn path_uses_slots(path: Seq<char>) -> bool {
    ||| path == "/chat/completions"@
    ||| path == "/completion"@
    ||| path == "/v1/chat/completions"@
}

/// The path that shows the slots of a worker.
pub open spec fn path_is_slots(path: Seq<char>) -> bool {
    path == "/slots"@
}

/// Whether a request in this state needs a permit before it is given a
/// peer.
pub open spec fn wants_permit(ctx: ContextView) -> bool {
    ctx.selected_peer is None && ctx.uses_slots
}

/// The descriptor of a peer after the request has seen the peer change at
/// `now`.
pub open spec fn seen_at(peer: PeerInfoView, now: Timestamp) -> PeerInfoView {
    PeerInfoView { last_update: now, ..peer }
}

/// What classifying a request by its path makes of its context.
pub open spec fn classifies(
    slots_endpoint_enable: bool,
    ctx: ContextView,
    path: Seq<char>,
    answer: Result<bool, ProxyError>,
    after: ContextView,
) -> bool {
    if path_is_slots(path) && !slots_endpoint_enable {
        answer == Err::<bool, ProxyError>(ProxyError::SlotsEndpointDisabled) && after == ctx
    } else {
        answer == Ok::<bool, ProxyError>(false) && after == (ContextView {
            uses_slots: path_uses_slots(path),
            ..ctx
        })
    }
}

/// What giving a request its peer makes of the pool and of the context.
/// `permit` is what the request holds of the admission semaphore: how many
/// permits, and whether the pool's semaphore issued them.
///
/// A request that has a peer keeps it. A request that uses no slot is given
/// the preferred peer and nothing changes in the pool. A request that uses
/// a slot must hold a permit; it is given the preferred peer, and the
/// permit enters that peer's custody.
pub open spec fn dispatches(
    pool: PoolView,
    ctx: ContextView,
    permit: Option<(nat, bool)>,
    answer: Result<PeerAddr, ProxyError>,
    pool_after: PoolView,
    ctx_after: ContextView,
) -> bool {
    match ctx.selected_peer {
        Some(peer) => {
            &&& answer == Ok::<PeerAddr, ProxyError>(peer.external_llamacpp_addr)
            &&& pool_after == pool
            &&& ctx_after == ctx
        },
        None => match pool.best() {
            None => {
                &&& answer == Err::<PeerAddr, ProxyError>(
                    if ctx.uses_slots {
                        ProxyError::Internal
                    } else {
                        ProxyError::NoPeerAvailable
                    },
                )
                &&& pool_after == pool
                &&& ctx_after == ctx
            },
            Some(peer) => {
                if !ctx.uses_slots {
                    &&& answer == Ok::<PeerAddr, ProxyError>(peer.external_llamacpp_addr)
                    &&& pool_after == pool
                    &&& ctx_after == (ContextView { selected_peer: Some(peer), ..ctx })
                } else {
                    match permit {
                        None => {
                            &&& answer == Err::<PeerAddr, ProxyError>(ProxyError::Internal)
                            &&& pool_after == pool
                            &&& ctx_after == ctx
                        },
                        Some((count, own)) => {
                            &&& ctx_after == (ContextView { selected_peer: Some(peer), ..ctx })
                            &&& if own && pool.peer(peer.agent_id).permits + count <= usize::MAX {
                                &&& answer == Ok::<PeerAddr, ProxyError>(peer.external_llamacpp_addr)
                                &&& pool_after == pool.with_peer(
                                    peer.agent_id,
                                    pool.peer(peer.agent_id).stored_permits(count),
                                )
                            } else {
                                &&& answer == Err::<PeerAddr, ProxyError>(ProxyError::Internal)
                                &&& pool_after == pool
                            }
                        },
                    }
                }
            },
        },
    }
}

/// Whether the peer `agent_id` is in the pool and has a permit in custody.
pub open spec fn holds_permit(pool: PoolView, agent_id: Seq<char>) -> bool {
    pool.contains(agent_id) && pool.peer(agent_id).permits >= 1
}

/// The pool after a request that has failed has given up its permit: one
/// permit has left the custody of the request's peer, if the peer is still
/// there and has one.
pub open spec fn permit_dropped(pool: PoolView, agent_id: Seq<char>) -> PoolView {
    if holds_permit(pool, agent_id) {
        pool.with_peer(agent_id, pool.peer(agent_id).released_permits(1))
    } else {
        pool
    }
}

/// What a connection to the peer makes of the pool and of the context: a
/// request that uses a slot and has none yet takes one of its peer, and
/// from then on knows the peer as of `now`. Where the peer is gone or has
/// no idle slot the request fails and gives up its permit.
pub open spec fn connects(
    pool: PoolView,
    ctx: ContextView,
    now: Timestamp,
    answer: Result<(), ProxyError>,
    pool_after: PoolView,
    ctx_after: ContextView,
) -> bool {
    match ctx.selected_peer {
        Some(peer) if ctx.uses_slots && !ctx.slot_taken => {
            if pool.contains(peer.agent_id) && pool.peer(peer.agent_id).slots_idle > 0 {
                &&& answer is Ok
                &&& pool.becomes(
                    pool.with_peer(peer.agent_id, pool.peer(peer.agent_id).took_slot(now)).peers,
                    pool_after,
                )
                &&& ctx_after == (ContextView {
                    slot_taken: true,
                    selected_peer: Some(seen_at(peer, now)),
                    uses_slots: true,
                })
            } else {
                &&& answer == Err::<(), ProxyError>(ProxyError::Internal)
                &&& pool_after == permit_dropped(pool, peer.agent_id)
                &&& ctx_after == ctx
            }
        },
        _ => answer is Ok && pool_after == pool && ctx_after == ctx,
    }
}

/// Whether the slot of a request can be given back: its peer is in the
/// pool, and has a busy slot unless the release is stale.
pub open spec fn slot_can_return(pool: PoolView, peer: PeerInfoView) -> bool {
    &&& pool.contains(peer.agent_id)
    &&& pool.peer(peer.agent_id).last_update == peer.last_update ==> pool.peer(peer.agent_id).slots_processing > 0
}

/// The peer of a request after the request has given back its slot at
/// `now`: unchanged where the release is stale.
pub open spec fn slot_returned(pool: PoolView, peer: PeerInfoView, now: Timestamp) -> PoolView {
    if pool.peer(peer.agent_id).last_update == peer.last_update {
        pool.with_peer(peer.agent_id, pool.peer(peer.agent_id).released_slot(now))
    } else {
        pool
    }
}

/// What the end of a request's use of its slot makes of the pool and of the
/// context. With `keep_permit` the permit stays in the peer's custody for
/// another attempt; without it one permit leaves the custody. `done` says
/// whether all of it took place. Where the slot cannot be given back the
/// request has failed and gives up its permit; where the slot was given
/// back and no permit is left to give up, the slot stays given back.
pub open spec fn finishes(
    pool: PoolView,
    ctx: ContextView,
    keep_permit: bool,
    now: Timestamp,
    done: bool,
    pool_after: PoolView,
    ctx_after: ContextView,
) -> bool {
    match ctx.selected_peer {
        Some(peer) => {
            if !slot_can_return(pool, peer) {
                &&& !done
                &&& pool_after == permit_dropped(pool, peer.agent_id)
                &&& ctx_after == (if holds_permit(pool, peer.agent_id) {
                    ContextView { slot_taken: false, ..ctx }
                } else {
                    ctx
                })
            } else {
                let returned = slot_returned(pool, peer, now);
                &&& ctx_after == (ContextView { slot_taken: false, ..ctx })
                &&& if keep_permit {
                    done && pool.becomes(returned.peers, pool_after)
                } else if returned.peer(peer.agent_id).permits >= 1 {
                    done && pool.becomes(
                        returned.with_peer(peer.agent_id, returned.peer(peer.agent_id).released_permits(1)).peers,
                        pool_after,
                    )
                } else {
                    !done && pool.becomes(returned.peers, pool_after)
                }
            }
        },
        None => done && pool_after == pool && ctx_after == ctx,
    }
}

/// What a piece of the response makes of the pool and of the context: with
/// the last piece, a request that occupies a slot gives back the slot and
/// its permit. Where that fails the answer is the internal error.
pub open spec fn streams(
    pool: PoolView,
    ctx: ContextView,
    end_of_stream: bool,
    now: Timestamp,
    answer: Result<(), ProxyError>,
    pool_after: PoolView,
    ctx_after: ContextView,
) -> bool {
    if ctx.uses_slots && ctx.slot_taken && end_of_stream {
        &&& finishes(pool, ctx, false, now, answer is Ok, pool_after, ctx_after)
        &&& answer is Err ==> answer == Err::<(), ProxyError>(ProxyError::Internal)
    } else {
        answer is Ok && pool_after == pool && ctx_after == ctx
    }
}

/// What an error while the response was passed on makes of the pool and of
/// the context. The request may be sent once more iff the client's
/// connection had been used before and all of the request is still at hand;
/// then the permit stays for the next attempt, and only the slot is given
/// back.
pub open spec fn fails_midway(
    pool: PoolView,
    ctx: ContextView,
    client_reused: bool,
    retry_buffer_truncated: bool,
    now: Timestamp,
    answer: ProxyFailure,
    pool_after: PoolView,
    ctx_after: ContextView,
) -> bool {
    let retry = client_reused && !retry_buffer_truncated;
    if ctx.uses_slots && ctx.slot_taken {
        &&& finishes(pool, ctx, retry, now, answer != ProxyFailure::Internal, pool_after, ctx_after)
        &&& answer != ProxyFailure::Internal ==> answer == (ProxyFailure::Passed { retry })
    } else {
        &&& answer == (ProxyFailure::Passed { retry })
        &&& pool_after == pool
        &&& ctx_after == ctx
    }
}

/// What a failed connect makes of the pool and of the context. A request
/// that has a peer forgets it, and the answer is `true`: the request is to
/// be tried with another peer. The peer is quarantined from `now` on, unless
/// it is quarantined already or gone from the pool; then the pool stays as
/// it is. For a request that has no peer nothing changes and the answer is
/// `false`.
pub open spec fn fails_to_connect(
    pool: PoolView,
    ctx: ContextView,
    now: Timestamp,
    retry: bool,
    pool_after: PoolView,
    ctx_after: ContextView,
) -> bool {
    match ctx.selected_peer {
        Some(peer) => {
            &&& retry
            &&& ctx_after == (ContextView { selected_peer: None, ..ctx })
            &&& if pool.contains(peer.agent_id) && pool.peer(peer.agent_id).quarantined_until is None {
                pool.becomes(
                    pool.with_peer(
                        peer.agent_id,
                        pool.peer(peer.agent_id).quarantined(now.plus_secs(QUARANTINE_SECS)),
                    ).peers,
                    pool_after,
                )
            } else {
                pool_after == pool
            }
        },
        None => !retry && pool_after == pool && ctx_after == ctx,
    }
}

/// Giving back the slot leaves the peer in its place, with its permits, and
/// the target as it was.
pub proof fn lemma_slot_returned(pool: PoolView, peer: PeerInfoView, now: Timestamp)
    requires
        pool.wf(),
        slot_can_return(pool, peer),
    ensures
        slot_returned(pool, peer, now).wf(),
        slot_returned(pool, peer, now).total_slots == pool.total_slots,
        slot_returned(pool, peer, now).target() == pool.target(),
        slot_returned(pool, peer, now).contains(peer.agent_id),
        slot_returned(pool, peer, now).peer(peer.agent_id).permits == pool.peer(peer.agent_id).permits,
        slot_returned(pool, peer, now).peer(peer.agent_id).agent_id == peer.agent_id,
{
    let i = pool.position(peer.agent_id);
    lemma_position(pool, i);
    if pool.peer(peer.agent_id).last_update == peer.last_update {
        let changed = pool.peer(peer.agent_id).released_slot(now);
        lemma_replace_peer(pool, i, changed);
        lemma_position(slot_returned(pool, peer, now), i);
    }
}

/// A permit that leaves a custody leaves the target as it was.
pub proof fn lemma_permit_left(pool: PoolView, agent_id: Seq<char>)
    requires
        pool.wf(),
        pool.contains(agent_id),
    ensures
        pool.with_peer(agent_id, pool.peer(agent_id).released_permits(1)).wf(),
        pool.with_peer(agent_id, pool.peer(agent_id).released_permits(1)).target() == pool.target(),
{
    let i = pool.position(agent_id);
    lemma_position(pool, i);
    lemma_replace_peer(pool, i, pool.peer(agent_id).released_permits(1));
}

/// Giving back the slot and then the permit is the whole end of a request's
/// use of its slot.
pub proof fn lemma_finish_then_release(
    pool: PoolView,
    ctx: ContextView,
    now: Timestamp,
    mid: PoolView,
    ctx_mid: ContextView,
    released: Result<(), PoolError>,
    after: PoolView,
    ctx_after: ContextView,
)
    requires
        pool.wf(),
        finishes(pool, ctx, true, now, true, mid, ctx_mid),
        match ctx_mid.selected_peer {
            Some(peer) => mid.releases_permit(peer.agent_id, released, after) && ctx_after == (if released is Ok {
                ContextView { slot_taken: false, ..ctx_mid }
            } else {
                ctx_mid
            }),
            None => released is Ok && after == mid && ctx_after == ctx_mid,
        },
    ensures
        finishes(pool, ctx, false, now, released is Ok, after, ctx_after),
{
    match ctx.selected_peer {
        Some(peer) => {
            lemma_slot_returned(pool, peer, now);
            let returned = slot_returned(pool, peer, now);
            assert(mid.peers == returned.peers);
            assert(mid.contains(peer.agent_id) == returned.contains(peer.agent_id));
            assert(mid.position(peer.agent_id) == returned.position(peer.agent_id));
            assert(mid.peer(peer.agent_id) == returned.peer(peer.agent_id));
            lemma_permit_left(returned, peer.agent_id);
        },
        None => {},
    }
}

} // verus!
