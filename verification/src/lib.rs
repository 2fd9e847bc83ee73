//! Slot-aware admission and dispatch for a fleet of inference workers.
//!
//! Every worker advertises a small number of generation slots. The pool in
//! [`balancer::upstream_peer_pool`] ranks the workers, accounts for the slots a
//! request occupies, keeps the admission permits a request was let in with,
//! and keeps the admission semaphore as large as the fleet. The request state
//! machine in [`balancer::proxy_service`] decides, for each step of a proxied
//! request, what happens to the pool and what the transport has to do next.
pub mod balancer;
pub mod errors;
