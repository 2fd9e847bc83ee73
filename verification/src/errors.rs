//! Error values of the pool and of the request state machine.
use vstd::prelude::*;

verus! {

/// Why a pool operation did not take place.
#[derive(Clone, Copy, Debug, PartialEq, Eq, Structural)]
pub enum PoolError {
    /// No peer with the given agent id is in the pool.
    PeerNotFound,
    /// A slot was to be taken from a peer that has no idle slot.
    NoIdleSlot,
    /// A slot was to be released on a peer that processes nothing.
    NoProcessingSlot,
    /// More permits were to be released than the peer has in custody.
    PermitShortfall,
    /// A permit was handed in that another semaphore issued, or that would
    /// make the custody larger than a bundle can be.
    PermitRejected,
    /// The slots of the authorized peers would exceed what the admission
    /// semaphore can hold.
    CapacityExceeded,
}

/// Why a step of a proxied request failed.
#[derive(Clone, Copy, Debug, PartialEq, Eq, Structural)]
pub enum ProxyError {
    /// `/slots` was asked for while that endpoint is switched off. The
    /// fault lies with the client; nothing is forwarded.
    SlotsEndpointDisabled,
    /// No peer can be given the request.
    NoPeerAvailable,
    /// The pool and the request disagree: the fault lies with the proxy.
    Internal,
}

impl ProxyError {
    /// What the client is told.
    pub open spec fn text(self) -> Seq<char> {
        match self {
            ProxyError::SlotsEndpointDisabled => "Slots endpoint is disabled"@,
            ProxyError::NoPeerAvailable => "No peer available"@,
            ProxyError::Internal => "Internal error"@,
        }
    }

    /// What the client is told.
    pub fn message(&self) -> (message: &'static str)
        ensures
            message@ == self.text(),
    {
        match self {
            ProxyError::SlotsEndpointDisabled => "Slots endpoint is disabled",
            ProxyError::NoPeerAvailable => "No peer available",
            ProxyError::Internal => "Internal error",
        }
    }
}

} // verus!
