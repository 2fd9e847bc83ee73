//! What an agent reports of its worker.
use crate::balancer::peer_addr::PeerAddr;
use vstd::prelude::*;

verus! {

/// One report of an agent: who the worker is, whether it can be used, and
/// how many of its slots are idle and busy.
#[derive(Debug)]
pub struct StatusUpdate {
    pub agent_name: Option<String>,
    pub error: Option<String>,
    pub external_llamacpp_addr: PeerAddr,
    /// `None` where the agent could not determine it.
    pub is_authorized: Option<bool>,
    /// `None` where the agent could not determine it.
    pub is_slots_endpoint_enabled: Option<bool>,
    pub idle_slots_count: usize,
    pub processing_slots_count: usize,
}

/// A report as a mathematical value.
pub struct StatusUpdateView {
    pub agent_name: Option<Seq<char>>,
    pub error: Option<Seq<char>>,
    pub external_llamacpp_addr: PeerAddr,
    pub is_authorized: Option<bool>,
    pub is_slots_endpoint_enabled: Option<bool>,
    pub idle_slots_count: nat,
    pub processing_slots_count: nat,
}

/// The characters of an optional text.
pub open spec fn text_of(text: Option<String>) -> Option<Seq<char>> {
    match text {
        Some(s) => Some(s@),
        None => None,
    }
}

impl View for StatusUpdate {
    type V = StatusUpdateView;

    open spec fn view(&self) -> StatusUpdateView {
        StatusUpdateView {
            agent_name: text_of(self.agent_name),
            error: text_of(self.error),
            external_llamacpp_addr: self.external_llamacpp_addr,
            is_authorized: self.is_authorized,
            is_slots_endpoint_enabled: self.is_slots_endpoint_enabled,
            idle_slots_count: self.idle_slots_count as nat,
            processing_slots_count: self.processing_slots_count as nat,
        }
    }
}

impl StatusUpdateView {
    /// The slots that the report speaks of, idle and busy together.
    pub open spec fn slots_count(self) -> nat {
        self.idle_slots_count + self.processing_slots_count
    }
}

} // verus!
