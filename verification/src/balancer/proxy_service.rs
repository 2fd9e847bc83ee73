//! The state machine of one proxied request.
//!
//! The transport calls one function of [`ProxyService`] at each step of a
//! request: when the request has been read, when it needs a peer, when the
//! connection to the peer stands, for each piece of the response, and when
//! something fails. Each function changes the pool and the request's context
//! and answers what the transport has to do next.
use crate::balancer::peer_addr::PeerAddr;
use crate::balancer::permits::permit_count;
use crate::balancer::pool_view::PoolView;
use crate::balancer::request_view::classifies;
use crate::balancer::request_view::connects;
use crate::balancer::request_view::dispatches;
use crate::balancer::request_view::fails_midway;
use crate::balancer::request_view::fails_to_connect;
use crate::balancer::request_view::finishes;
use crate::balancer::request_view::lemma_finish_then_release;
use crate::balancer::request_view::streams;
use crate::balancer::request_view::wants_permit;
use crate::balancer::request_view::ContextView;
use crate::balancer::timestamp::Timestamp;
use crate::balancer::text::same_text;
use crate::balancer::upstream_peer::UpstreamPeerInfo;
use crate::balancer::upstream_peer_pool::UpstreamPeerPool;
use crate::errors::PoolError;
use crate::errors::ProxyError;
use tokio::sync::OwnedSemaphorePermit;
use vstd::prelude::*;

verus! {

/// What a request carries from step to step.
#[derive(Debug)]
pub struct LlamaCppContext {
    slot_taken: bool,
    selected_peer: Option<UpstreamPeerInfo>,
    uses_slots: bool,
}

impl View for LlamaCppContext {
    type V = ContextView;

    closed spec fn view(&self) -> ContextView {
        ContextView {
            slot_taken: self.slot_taken,
            selected_peer: match self.selected_peer {
                Some(peer) => Some(peer@),
                None => None,
            },
            uses_slots: self.uses_slots,
        }
    }
}

impl LlamaCppContext {
    /// The context is in order: a request that occupies a slot is one that
    /// uses slots.
    pub open spec fn wf(&self) -> bool {
        self@.in_order()
    }

    /// Whether the request occupies a slot of the selected peer.
    pub fn slot_taken(&self) -> (taken: bool)
        ensures
            taken == self@.slot_taken,
    {
        self.slot_taken
    }

    /// Whether the request is one that occupies a slot while it runs.
    pub fn uses_slots(&self) -> (uses: bool)
        ensures
            uses == self@.uses_slots,
    {
        self.uses_slots
    }

    /// The peer the request was given, as the request last saw it.
    pub fn selected_peer(&self) -> (peer: Option<&UpstreamPeerInfo>)
        ensures
            match peer {
                Some(info) => self@.selected_peer == Some(info@),
                None => self@.selected_peer is None,
            },
    {
        self.selected_peer.as_ref()
    }
}

/// What the transport does with an error that came up while the response
/// was passed on.
#[derive(Clone, Copy, Debug, PartialEq, Eq, Structural)]
pub enum ProxyFailure {
    /// The error goes on to the client. With `retry` the transport may
    /// send the request once more, to the same peer.
    Passed { retry: bool },
    /// The pool and the request disagree; an internal error takes the
    /// place of the error that came up.
    Internal,
}

/// The proxy: its two switches and the pool it dispatches to.
#[derive(Debug)]
pub struct ProxyService {
    rewrite_host_header: bool,
    slots_endpoint_enable: bool,
    upstream_peer_pool: UpstreamPeerPool,
}

impl ProxyService {
    /// Whether the `Host` header of a forwarded request names the peer.
    pub closed spec fn rewrites_host(&self) -> bool {
        self.rewrite_host_header
    }

    /// Whether `/slots` may be asked for.
    pub closed spec fn slots_endpoint_enabled(&self) -> bool {
        self.slots_endpoint_enable
    }

    /// The pool in its own right.
    pub closed spec fn pool_of(&self) -> UpstreamPeerPool {
        self.upstream_peer_pool
    }

    /// The pool as a mathematical value.
    pub open spec fn pool(&self) -> PoolView {
        self.pool_of()@
    }

    /// The proxy is in order iff its pool is.
    pub open spec fn wf(&self) -> bool {
        self.pool_of().wf()
    }

    /// Whether a later state `after` of the proxy has the switches and the
    /// semaphore of this one.
    pub open spec fn same_setup(&self, after: &ProxyService) -> bool {
        &&& after.rewrites_host() == self.rewrites_host()
        &&& after.slots_endpoint_enabled() == self.slots_endpoint_enabled()
        &&& after.pool_of().semaphore_id() == self.pool_of().semaphore_id()
    }

    /// A proxy over `upstream_peer_pool`.
    pub fn new(rewrite_host_header: bool, slots_endpoint_enable: bool, upstream_peer_pool: UpstreamPeerPool) -> (service:
        ProxyService)
        ensures
            service.rewrites_host() == rewrite_host_header,
            service.slots_endpoint_enabled() == slots_endpoint_enable,
            service.pool_of() == upstream_peer_pool,
    {
        ProxyService { rewrite_host_header, slots_endpoint_enable, upstream_peer_pool }
    }

    /// The pool, to look at.
    pub fn upstream_peer_pool(&self) -> (pool: &UpstreamPeerPool)
        ensures
            *pool == self.pool_of(),
    {
        &self.upstream_peer_pool
    }

    /// The pool, to change: for the reports of the agents, and to purge
    /// peers. The proxy is in order again once the pool is.
    pub fn upstream_peer_pool_mut(&mut self) -> (pool: &mut UpstreamPeerPool)
        ensures
            *pool == old(self).pool_of(),
            final(self).pool_of() == *final(pool),
            final(self).rewrites_host() == old(self).rewrites_host(),
            final(self).slots_endpoint_enabled() == old(self).slots_endpoint_enabled(),
    {
        &mut self.upstream_peer_pool
    }

    /// The context of a request that has just arrived.
    pub fn new_ctx(&self) -> (ctx: LlamaCppContext)
        ensures
            ctx@ == (ContextView { slot_taken: false, selected_peer: None, uses_slots: false }),
            ctx.wf(),
    {
        LlamaCppContext { selected_peer: None, slot_taken: false, uses_slots: false }
    }

    /// Classifies a request by the path of its URI, character for
    /// character. The answer `Ok(false)` lets the request go on.
    pub fn request_filter(&self, ctx: &mut LlamaCppContext, path: &str) -> (answer: Result<bool, ProxyError>)
        ensures
            classifies(self.slots_endpoint_enabled(), old(ctx)@, path@, answer, final(ctx)@),
            !old(ctx)@.slot_taken ==> final(ctx).wf(),
    {
        proof {
            reveal_strlit("/slots");
            reveal_strlit("/chat/completions");
            reveal_strlit("/completion");
            reveal_strlit("/v1/chat/completions");
            assert("/slots"@.len() == 6);
            assert("/chat/completions"@.len() == 17);
            assert("/completion"@.len() == 11);
            assert("/v1/chat/completions"@.len() == 20);
        }
        if same_text(path, "/slots") {
            if !self.slots_endpoint_enable {
                return Err(ProxyError::SlotsEndpointDisabled);
            }
            ctx.uses_slots = false;
        } else if same_text(path, "/chat/completions") {
            ctx.uses_slots = true;
        } else if same_text(path, "/completion") {
            ctx.uses_slots = true;
        } else if same_text(path, "/v1/chat/completions") {
            ctx.uses_slots = true;
        } else {
            ctx.uses_slots = false;
        }
        Ok(false)
    }

    /// Whether the request has to acquire a permit of the admission
    /// semaphore before `upstream_peer` is called for it.
    pub fn needs_permit(&self, ctx: &LlamaCppContext) -> (needed: bool)
        ensures
            needed == wants_permit(ctx@),
    {
        ctx.selected_peer.is_none() && ctx.uses_slots
    }

    /// The address to which the request is to be sent. `permit` is the
    /// permit that the request has acquired, if it had to. A permit that
    /// does not enter a custody returns to its semaphore.
    pub fn upstream_peer(&mut self, ctx: &mut LlamaCppContext, permit: Option<OwnedSemaphorePermit>) -> (answer:
        Result<PeerAddr, ProxyError>)
        requires
            old(self).wf(),
        ensures
            final(self).wf(),
            old(self).same_setup(final(self)),
            old(ctx).wf() ==> final(ctx).wf(),
            dispatches(
                old(self).pool(),
                old(ctx)@,
                match permit {
                    Some(bundle) => Some((permit_count(bundle), old(self).pool_of().issued(bundle))),
                    None => None,
                },
                answer,
                final(self).pool(),
                final(ctx)@,
            ),
    {
        match &ctx.selected_peer {
            Some(peer) => {
                return Ok(peer.external_llamacpp_addr);
            },
            None => {},
        }
        let chosen = self.upstream_peer_pool.use_best_peer();
        match chosen {
            None => {
                if ctx.uses_slots {
                    Err(ProxyError::Internal)
                } else {
                    Err(ProxyError::NoPeerAvailable)
                }
            },
            Some(peer) => {
                let addr: PeerAddr = peer.external_llamacpp_addr;
                if !ctx.uses_slots {
                    ctx.selected_peer = Some(peer);
                    return Ok(addr);
                }
                match permit {
                    None => Err(ProxyError::Internal),
                    Some(bundle) => {
                        let stored = self.upstream_peer_pool.store_permit(peer.agent_id.as_str(), bundle);
                        ctx.selected_peer = Some(peer);
                        match stored {
                            Ok(true) => Ok(addr),
                            _ => Err(ProxyError::Internal),
                        }
                    },
                }
            },
        }
    }

    /// The address that the `Host` header of the forwarded request is to
    /// name, if the header is to be rewritten: that of the selected peer.
    pub fn upstream_request_filter(&self, ctx: &LlamaCppContext) -> (host: Option<PeerAddr>)
        ensures
            host == (if self.rewrites_host() {
                match ctx@.selected_peer {
                    Some(peer) => Some(peer.external_llamacpp_addr),
                    None => None,
                }
            } else {
                None
            }),
    {
        if self.rewrite_host_header {
            match &ctx.selected_peer {
                Some(peer) => Some(peer.external_llamacpp_addr),
                None => None,
            }
        } else {
            None
        }
    }

    /// A slot of the selected peer is taken for the request at `now`. A
    /// request that cannot take its slot gives up its permit.
    fn take_slot(&mut self, ctx: &mut LlamaCppContext, now: Timestamp) -> (taken: Result<(), PoolError>)
        requires
            old(self).wf(),
            old(ctx)@.uses_slots,
            !old(ctx)@.slot_taken,
        ensures
            final(self).wf(),
            old(self).same_setup(final(self)),
            old(ctx).wf() ==> final(ctx).wf(),
            connects(
                old(self).pool(),
                old(ctx)@,
                now,
                if taken is Ok {
                    Ok::<(), ProxyError>(())
                } else {
                    Err::<(), ProxyError>(ProxyError::Internal)
                },
                final(self).pool(),
                final(ctx)@,
            ),
    {
        let held = ctx.selected_peer.take();
        match held {
            Some(mut peer) => {
                match self.upstream_peer_pool.take_slot_at(peer.agent_id.as_str(), now) {
                    Ok(()) => {
                        let _ = self.upstream_peer_pool.restore_integrity();
                        peer.last_update = now;
                        ctx.selected_peer = Some(peer);
                        ctx.slot_taken = true;
                        Ok(())
                    },
                    Err(e) => {
                        ctx.selected_peer = Some(peer);
                        let _ = self.release_permit(ctx);
                        Err(e)
                    },
                }
            },
            None => Ok(()),
        }
    }

    /// The request gives back its slot of the selected peer at `now`. A
    /// request that cannot give back its slot gives up its permit.
    fn release_slot(&mut self, ctx: &mut LlamaCppContext, now: Timestamp) -> (released: Result<(), PoolError>)
        requires
            old(self).wf(),
        ensures
            final(self).wf(),
            old(self).same_setup(final(self)),
            old(ctx).wf() ==> final(ctx).wf(),
            finishes(old(self).pool(), old(ctx)@, true, now, released is Ok, final(self).pool(), final(ctx)@),
    {
        match &ctx.selected_peer {
            Some(peer) => {
                match self.upstream_peer_pool.release_slot_at(peer.agent_id.as_str(), peer.last_update, now) {
                    Ok(_) => {},
                    Err(e) => {
                        let _ = self.release_permit(ctx);
                        return Err(e);
                    },
                }
                let _ = self.upstream_peer_pool.restore_integrity();
                ctx.slot_taken = false;
            },
            None => {},
        }
        Ok(())
    }

    /// One permit leaves the custody of the selected peer.
    fn release_permit(&mut self, ctx: &mut LlamaCppContext) -> (released: Result<(), PoolError>)
        requires
            old(self).wf(),
        ensures
            final(self).wf(),
            old(self).same_setup(final(self)),
            old(ctx).wf() ==> final(ctx).wf(),
            match old(ctx)@.selected_peer {
                Some(peer) => old(self).pool().releases_permit(peer.agent_id, released, final(self).pool())
                    && final(ctx)@ == (if released is Ok {
                    ContextView { slot_taken: false, ..old(ctx)@ }
                } else {
                    old(ctx)@
                }),
                None => released is Ok && final(self).pool() == old(self).pool() && final(ctx)@ == old(ctx)@,
            },
    {
        match &ctx.selected_peer {
            Some(peer) => {
                match self.upstream_peer_pool.release_one_permit(peer.agent_id.as_str()) {
                    Ok(()) => {},
                    Err(e) => {
                        return Err(e);
                    },
                }
                ctx.slot_taken = false;
            },
            None => {},
        }
        Ok(())
    }

    /// The connection to the peer stands, at `now`.
    pub fn connected_to_upstream_at(&mut self, ctx: &mut LlamaCppContext, now: Timestamp) -> (answer: Result<
        (),
        ProxyError,
    >)
        requires
            old(self).wf(),
        ensures
            final(self).wf(),
            old(self).same_setup(final(self)),
            old(ctx).wf() ==> final(ctx).wf(),
            connects(old(self).pool(), old(ctx)@, now, answer, final(self).pool(), final(ctx)@),
    {
        if ctx.uses_slots && !ctx.slot_taken {
            match self.take_slot(ctx, now) {
                Ok(()) => Ok(()),
                Err(_) => Err(ProxyError::Internal),
            }
        } else {
            Ok(())
        }
    }

    /// The connection to the peer stands, at the current reading of the
    /// clock.
    pub fn connected_to_upstream(&mut self, ctx: &mut LlamaCppContext) -> (answer: Result<(), ProxyError>)
        requires
            old(self).wf(),
        ensures
            final(self).wf(),
            old(self).same_setup(final(self)),
            old(ctx).wf() ==> final(ctx).wf(),
            exists|now: Timestamp| now.wf() && #[trigger]
                connects(old(self).pool(), old(ctx)@, now, answer, final(self).pool(), final(ctx)@),
    {
        self.connected_to_upstream_at(ctx, Timestamp::now())
    }

    /// A piece of the response has arrived, at `now`; `end_of_stream` says
    /// whether it is the last.
    pub fn response_body_filter_at(&mut self, ctx: &mut LlamaCppContext, end_of_stream: bool, now: Timestamp) -> (answer:
        Result<(), ProxyError>)
        requires
            old(self).wf(),
        ensures
            final(self).wf(),
            old(self).same_setup(final(self)),
            old(ctx).wf() ==> final(ctx).wf(),
            streams(old(self).pool(), old(ctx)@, end_of_stream, now, answer, final(self).pool(), final(ctx)@),
    {
        if ctx.uses_slots && ctx.slot_taken && end_of_stream {
            match self.release_slot(ctx, now) {
                Ok(()) => {},
                Err(_) => {
                    return Err(ProxyError::Internal);
                },
            }
            let ghost mid = self.pool();
            let ghost ctx_mid = ctx@;
            let released = self.release_permit(ctx);
            proof {
                lemma_finish_then_release(
                    old(self).pool(),
                    old(ctx)@,
                    now,
                    mid,
                    ctx_mid,
                    released,
                    self.pool(),
                    ctx@,
                );
            }
            match released {
                Ok(()) => {},
                Err(_) => {
                    return Err(ProxyError::Internal);
                },
            }
        }
        Ok(())
    }

    /// A piece of the response has arrived, at the current reading of the
    /// clock.
    pub fn response_body_filter(&mut self, ctx: &mut LlamaCppContext, end_of_stream: bool) -> (answer: Result<
        (),
        ProxyError,
    >)
        requires
            old(self).wf(),
        ensures
            final(self).wf(),
            old(self).same_setup(final(self)),
            old(ctx).wf() ==> final(ctx).wf(),
            exists|now: Timestamp| now.wf() && #[trigger]
                streams(old(self).pool(), old(ctx)@, end_of_stream, now, answer, final(self).pool(), final(ctx)@),
    {
        self.response_body_filter_at(ctx, end_of_stream, Timestamp::now())
    }

    /// An error came up at `now` while the response was passed on.
    /// `client_reused` says whether the client's connection had served a
    /// request before, `retry_buffer_truncated` whether part of the request
    /// is no longer at hand.
    pub fn error_while_proxy_at(
        &mut self,
        ctx: &mut LlamaCppContext,
        client_reused: bool,
        retry_buffer_truncated: bool,
        now: Timestamp,
    ) -> (answer: ProxyFailure)
        requires
            old(self).wf(),
        ensures
            final(self).wf(),
            old(self).same_setup(final(self)),
            old(ctx).wf() ==> final(ctx).wf(),
            fails_midway(
                old(self).pool(),
                old(ctx)@,
                client_reused,
                retry_buffer_truncated,
                now,
                answer,
                final(self).pool(),
                final(ctx)@,
            ),
    {
        let retry: bool = client_reused && !retry_buffer_truncated;
        if ctx.uses_slots && ctx.slot_taken {
            match self.release_slot(ctx, now) {
                Ok(()) => {},
                Err(_) => {
                    return ProxyFailure::Internal;
                },
            }
            if !retry {
                let ghost mid = self.pool();
                let ghost ctx_mid = ctx@;
                let released = self.release_permit(ctx);
                proof {
                    lemma_finish_then_release(
                        old(self).pool(),
                        old(ctx)@,
                        now,
                        mid,
                        ctx_mid,
                        released,
                        self.pool(),
                        ctx@,
                    );
                }
                match released {
                    Ok(()) => {},
                    Err(_) => {
                        return ProxyFailure::Internal;
                    },
                }
            }
        }
        ProxyFailure::Passed { retry }
    }

    /// An error came up while the response was passed on, at the current
    /// reading of the clock.
    pub fn error_while_proxy(&mut self, ctx: &mut LlamaCppContext, client_reused: bool, retry_buffer_truncated: bool) -> (answer:
        ProxyFailure)
        requires
            old(self).wf(),
        ensures
            final(self).wf(),
            old(self).same_setup(final(self)),
            old(ctx).wf() ==> final(ctx).wf(),
            exists|now: Timestamp| now.wf() && #[trigger]
                fails_midway(
                    old(self).pool(),
                    old(ctx)@,
                    client_reused,
                    retry_buffer_truncated,
                    now,
                    answer,
                    final(self).pool(),
                    final(ctx)@,
                ),
    {
        self.error_while_proxy_at(ctx, client_reused, retry_buffer_truncated, Timestamp::now())
    }

    /// The connection to the selected peer could not be made, at `now`. The
    /// peer is quarantined, the request forgets it, and the answer says
    /// whether the request is to be tried with another peer: it is, unless
    /// it had no peer.
    pub fn fail_to_connect_at(&mut self, ctx: &mut LlamaCppContext, now: Timestamp) -> (retry: bool)
        requires
            old(self).wf(),
        ensures
            final(self).wf(),
            old(self).same_setup(final(self)),
            old(ctx).wf() ==> final(ctx).wf(),
            fails_to_connect(old(self).pool(), old(ctx)@, now, retry, final(self).pool(), final(ctx)@),
    {
        match ctx.selected_peer.take() {
            Some(peer) => {
                if self.upstream_peer_pool.quarantine_peer_at(peer.agent_id.as_str(), now) {
                    let _ = self.upstream_peer_pool.restore_integrity();
                }
                true
            },
            None => false,
        }
    }

    /// The connection to the selected peer could not be made, at the
    /// current reading of the clock.
    pub fn fail_to_connect(&mut self, ctx: &mut LlamaCppContext) -> (retry: bool)
        requires
            old(self).wf(),
        ensures
            final(self).wf(),
            old(self).same_setup(final(self)),
            old(ctx).wf() ==> final(ctx).wf(),
            exists|now: Timestamp| now.wf() && #[trigger]
                fails_to_connect(old(self).pool(), old(ctx)@, now, retry, final(self).pool(), final(ctx)@),
    {
        self.fail_to_connect_at(ctx, Timestamp::now())
    }
}

} // verus!
