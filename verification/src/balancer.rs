//! The balancer: peers, their pool, admission permits and the per-request
//! state machine.
pub mod integrity;
pub mod peer_addr;
pub mod permits;
pub mod pool_laws;
pub mod pool_view;
pub mod proxy_service;
pub mod ranking;
pub mod ranking_laws;
pub mod request_laws;
pub mod request_view;
pub mod status_update;
pub mod text;
pub mod timestamp;
pub mod upstream_peer;
pub mod upstream_peer_pool;
