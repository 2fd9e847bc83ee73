use slot_balancer::balancer::peer_addr::PeerAddr;
use slot_balancer::balancer::proxy_service::LlamaCppContext;
use slot_balancer::balancer::proxy_service::ProxyFailure;
use slot_balancer::balancer::proxy_service::ProxyService;
use slot_balancer::balancer::status_update::StatusUpdate;
use slot_balancer::balancer::timestamp::Timestamp;
use slot_balancer::balancer::upstream_peer_pool::UpstreamPeerPool;
use slot_balancer::errors::ProxyError;
use std::sync::Arc;
use tokio::sync::OwnedSemaphorePermit;
use tokio::sync::Semaphore;

fn at(secs: u64) -> Timestamp {
    Timestamp { secs, nanos: 0 }
}

fn addr(last: u32) -> PeerAddr {
    PeerAddr::V4 { ip: 0xc0a8_0000 + last, port: 8080 }
}

fn report(last: u32, idle: usize, busy: usize) -> StatusUpdate {
    StatusUpdate {
        agent_name: None,
        error: None,
        external_llamacpp_addr: addr(last),
        is_authorized: Some(true),
        is_slots_endpoint_enabled: Some(true),
        idle_slots_count: idle,
        processing_slots_count: busy,
    }
}

fn service_with(peers: &[(&str, u32, usize, usize)]) -> ProxyService {
    let mut pool = UpstreamPeerPool::new();
    for (id, last, idle, busy) in peers.iter() {
        pool.apply_status_update_at(id.to_string(), report(*last, *idle, *busy), at(10)).unwrap();
    }
    ProxyService::new(true, true, pool)
}

fn semaphore(service: &ProxyService) -> Arc<Semaphore> {
    service.upstream_peer_pool().upstream_slots_permits().clone()
}

fn try_permit(service: &ProxyService) -> Option<OwnedSemaphorePermit> {
    semaphore(service).try_acquire_owned().ok()
}

fn counters(service: &ProxyService, id: &str) -> (usize, usize, usize) {
    let p = service.upstream_peer_pool().get(id).unwrap();
    (p.slots_idle, p.slots_processing, p.permits_count())
}

fn classified(service: &ProxyService, path: &str) -> LlamaCppContext {
    let mut ctx = service.new_ctx();
    assert_eq!(service.request_filter(&mut ctx, path), Ok(false));
    ctx
}

fn dispatch(service: &mut ProxyService, ctx: &mut LlamaCppContext) -> Result<PeerAddr, ProxyError> {
    let permit = if service.needs_permit(ctx) { try_permit(service) } else { None };
    service.upstream_peer(ctx, permit)
}

#[test]
fn a_new_context_is_blank() {
    let service = service_with(&[]);
    let ctx = service.new_ctx();
    assert!(!ctx.uses_slots());
    assert!(!ctx.slot_taken());
    assert!(ctx.selected_peer().is_none());
    assert!(!service.needs_permit(&ctx));
}

#[test]
fn paths_are_classified_exactly() {
    let service = service_with(&[]);
    for path in ["/chat/completions", "/completion", "/v1/chat/completions"] {
        let ctx = classified(&service, path);
        assert!(ctx.uses_slots());
        assert!(service.needs_permit(&ctx));
    }
    for path in [
        "/slots",
        "/",
        "",
        "/health",
        "/Completion",
        "/completion/",
        "/completions",
        "/v1/chat/completion",
        "/v1/completions",
        "/chat/completions?x=1",
        "chat/completions",
        "/SLOTS",
    ] {
        let ctx = classified(&service, path);
        assert!(!ctx.uses_slots());
        assert!(!service.needs_permit(&ctx));
    }
}

#[test]
fn classification_can_be_repeated() {
    let service = service_with(&[]);
    let mut ctx = service.new_ctx();
    assert_eq!(service.request_filter(&mut ctx, "/completion"), Ok(false));
    assert!(ctx.uses_slots());
    assert_eq!(service.request_filter(&mut ctx, "/health"), Ok(false));
    assert!(!ctx.uses_slots());
}

#[test]
fn slots_endpoint_disabled_is_a_downstream_error() {
    let mut service = ProxyService::new(false, false, UpstreamPeerPool::new());
    service.upstream_peer_pool_mut().apply_status_update_at("P".to_string(), report(1, 1, 0), at(10)).unwrap();
    let mut ctx = service.new_ctx();
    assert_eq!(service.request_filter(&mut ctx, "/completion"), Ok(false));
    assert_eq!(service.request_filter(&mut ctx, "/slots"), Err(ProxyError::SlotsEndpointDisabled));
    assert!(ctx.uses_slots());
    assert!(ctx.selected_peer().is_none());
    let mut fresh = service.new_ctx();
    assert_eq!(service.request_filter(&mut fresh, "/slots"), Err(ProxyError::SlotsEndpointDisabled));
    assert!(!service.needs_permit(&fresh));
    assert_eq!(counters(&service, "P"), (1, 0, 0));
    assert_eq!(semaphore(&service).available_permits(), 1);
    assert_eq!(service.request_filter(&mut fresh, "/slots/"), Ok(false));
}

#[test]
fn single_peer_single_request() {
    let mut service = service_with(&[("P", 1, 1, 0)]);
    let sem = semaphore(&service);
    assert_eq!(sem.available_permits(), 1);
    let mut ctx = classified(&service, "/completion");
    assert!(service.needs_permit(&ctx));
    let permit = try_permit(&service);
    assert!(permit.is_some());
    assert_eq!(sem.available_permits(), 0);
    assert_eq!(service.upstream_peer(&mut ctx, permit), Ok(addr(1)));
    assert_eq!(ctx.selected_peer().unwrap().agent_id, "P");
    assert_eq!(counters(&service, "P"), (1, 0, 1));
    assert!(!service.needs_permit(&ctx));
    assert_eq!(service.upstream_request_filter(&ctx), Some(addr(1)));
    assert_eq!(service.connected_to_upstream_at(&mut ctx, at(20)), Ok(()));
    assert!(ctx.slot_taken());
    assert_eq!(ctx.selected_peer().unwrap().last_update, at(20));
    assert_eq!(counters(&service, "P"), (0, 1, 1));
    assert_eq!(service.response_body_filter_at(&mut ctx, false, at(21)), Ok(()));
    assert_eq!(counters(&service, "P"), (0, 1, 1));
    assert!(ctx.slot_taken());
    assert_eq!(sem.available_permits(), 0);
    assert_eq!(service.response_body_filter_at(&mut ctx, true, at(22)), Ok(()));
    assert!(!ctx.slot_taken());
    assert_eq!(counters(&service, "P"), (1, 0, 0));
    assert_eq!(sem.available_permits(), 1);
    assert_eq!(service.upstream_peer_pool().total_slots(), 1);
    assert_eq!(service.response_body_filter_at(&mut ctx, true, at(23)), Ok(()));
    assert_eq!(counters(&service, "P"), (1, 0, 0));
    assert_eq!(sem.available_permits(), 1);
}

#[test]
fn saturation_makes_the_second_request_wait() {
    let mut service = service_with(&[("P", 1, 1, 0)]);
    let mut first = classified(&service, "/completion");
    let mut second = classified(&service, "/completion");
    assert_eq!(dispatch(&mut service, &mut first), Ok(addr(1)));
    assert_eq!(service.connected_to_upstream_at(&mut first, at(20)), Ok(()));
    assert!(service.needs_permit(&second));
    assert!(try_permit(&service).is_none());
    assert_eq!(service.response_body_filter_at(&mut first, true, at(21)), Ok(()));
    let permit = try_permit(&service);
    assert!(permit.is_some());
    assert_eq!(service.upstream_peer(&mut second, permit), Ok(addr(1)));
    assert_eq!(second.selected_peer().unwrap().agent_id, "P");
    assert_eq!(service.connected_to_upstream_at(&mut second, at(22)), Ok(()));
    assert_eq!(counters(&service, "P"), (0, 1, 1));
    assert!(try_permit(&service).is_none());
    assert_eq!(service.response_body_filter_at(&mut second, true, at(23)), Ok(()));
    assert_eq!(counters(&service, "P"), (1, 0, 0));
    assert_eq!(semaphore(&service).available_permits(), 1);
}

#[test]
fn a_request_goes_to_the_peer_with_more_idle_slots() {
    let mut service = service_with(&[("A", 1, 2, 3), ("B", 2, 5, 0)]);
    let mut ctx = classified(&service, "/chat/completions");
    assert_eq!(dispatch(&mut service, &mut ctx), Ok(addr(2)));
    assert_eq!(ctx.selected_peer().unwrap().agent_id, "B");
    assert_eq!(counters(&service, "B"), (5, 0, 1));
    assert_eq!(counters(&service, "A"), (2, 3, 0));
}

#[test]
fn a_failed_connect_quarantines_and_retries_elsewhere() {
    let mut service = service_with(&[("A", 1, 9, 0), ("B", 2, 1, 0)]);
    let mut ctx = classified(&service, "/completion");
    assert_eq!(dispatch(&mut service, &mut ctx), Ok(addr(1)));
    assert!(service.fail_to_connect_at(&mut ctx, at(30)));
    assert!(ctx.selected_peer().is_none());
    assert!(!ctx.slot_taken());
    let a = service.upstream_peer_pool().get("A").unwrap();
    assert_eq!(a.quarantined_until, Some(at(40)));
    assert!(!a.is_usable());
    assert_eq!(counters(&service, "A"), (9, 0, 1));
    assert!(service.needs_permit(&ctx));
    assert_eq!(dispatch(&mut service, &mut ctx), Ok(addr(2)));
    assert_eq!(service.connected_to_upstream_at(&mut ctx, at(31)), Ok(()));
    assert_eq!(counters(&service, "B"), (0, 1, 1));
    assert_eq!(service.response_body_filter_at(&mut ctx, true, at(32)), Ok(()));
    assert_eq!(counters(&service, "B"), (1, 0, 0));
    let mut next = classified(&service, "/completion");
    assert_eq!(dispatch(&mut service, &mut next), Ok(addr(2)));
    assert_eq!(next.selected_peer().unwrap().agent_id, "B");
}

#[test]
fn a_failed_connect_asks_for_a_retry_whatever_became_of_the_peer() {
    let mut service = service_with(&[("A", 1, 2, 0), ("B", 2, 1, 0)]);
    let mut ctx = classified(&service, "/completion");
    assert_eq!(dispatch(&mut service, &mut ctx), Ok(addr(1)));
    assert!(service.upstream_peer_pool_mut().quarantine_peer_at("A", at(29)));
    assert!(service.fail_to_connect_at(&mut ctx, at(30)));
    assert!(ctx.selected_peer().is_none());
    assert!(ctx.uses_slots());
    assert!(!ctx.slot_taken());
    assert_eq!(service.upstream_peer_pool().get("A").unwrap().quarantined_until, Some(at(39)));
    assert_eq!(counters(&service, "A"), (2, 0, 1));
    assert_eq!(counters(&service, "B"), (1, 0, 0));
    assert!(service.needs_permit(&ctx));
    assert_eq!(dispatch(&mut service, &mut ctx), Ok(addr(2)));
    assert_eq!(ctx.selected_peer().unwrap().agent_id, "B");
    assert!(service.upstream_peer_pool_mut().remove_peer("B"));
    assert!(service.fail_to_connect(&mut ctx));
    assert!(ctx.selected_peer().is_none());
    assert_eq!(service.upstream_peer_pool().peers().len(), 1);
    assert_eq!(counters(&service, "A"), (2, 0, 1));
    assert_eq!(service.upstream_peer_pool().get("A").unwrap().quarantined_until, Some(at(39)));
}

#[test]
fn a_failed_connect_of_a_request_without_a_peer_changes_nothing() {
    let mut service = service_with(&[("A", 1, 2, 0)]);
    let mut none = classified(&service, "/completion");
    assert!(!service.fail_to_connect_at(&mut none, at(30)));
    assert!(!service.fail_to_connect(&mut none));
    assert!(none.selected_peer().is_none());
    assert!(none.uses_slots());
    assert_eq!(service.upstream_peer_pool().get("A").unwrap().quarantined_until, None);
    assert_eq!(counters(&service, "A"), (2, 0, 0));
    assert_eq!(semaphore(&service).available_permits(), 2);
}

#[test]
fn a_request_without_slots_touches_no_counter() {
    let mut service = service_with(&[("A", 1, 2, 1)]);
    let sem = semaphore(&service);
    let mut ctx = classified(&service, "/health");
    assert!(!service.needs_permit(&ctx));
    assert_eq!(service.upstream_peer(&mut ctx, None), Ok(addr(1)));
    assert_eq!(ctx.selected_peer().unwrap().agent_id, "A");
    assert_eq!(service.connected_to_upstream_at(&mut ctx, at(20)), Ok(()));
    assert!(!ctx.slot_taken());
    assert_eq!(service.response_body_filter_at(&mut ctx, true, at(21)), Ok(()));
    assert_eq!(service.error_while_proxy_at(&mut ctx, true, false, at(22)), ProxyFailure::Passed { retry: true });
    assert_eq!(counters(&service, "A"), (2, 1, 0));
    assert_eq!(service.upstream_peer_pool().get("A").unwrap().last_update, at(10));
    assert_eq!(sem.available_permits(), 3);
    assert!(service.fail_to_connect_at(&mut ctx, at(23)));
    assert_eq!(counters(&service, "A"), (2, 1, 0));
    assert_eq!(sem.available_permits(), 3);
    assert_eq!(service.upstream_peer(&mut ctx, None), Err(ProxyError::NoPeerAvailable));
    assert!(ctx.selected_peer().is_none());
}

#[test]
fn a_permit_handed_to_a_request_without_slots_returns() {
    let mut service = service_with(&[("A", 1, 2, 0)]);
    let mut ctx = classified(&service, "/slots");
    let permit = try_permit(&service);
    assert_eq!(semaphore(&service).available_permits(), 1);
    assert_eq!(service.upstream_peer(&mut ctx, permit), Ok(addr(1)));
    assert_eq!(counters(&service, "A"), (2, 0, 0));
    assert_eq!(semaphore(&service).available_permits(), 2);
}

#[test]
fn a_dispatched_request_keeps_its_peer() {
    let mut service = service_with(&[("A", 1, 1, 0), ("B", 2, 1, 0)]);
    let mut ctx = classified(&service, "/completion");
    assert_eq!(dispatch(&mut service, &mut ctx), Ok(addr(1)));
    service.upstream_peer_pool_mut().apply_status_update_at("B".to_string(), report(2, 7, 0), at(11)).unwrap();
    assert_eq!(service.upstream_peer(&mut ctx, None), Ok(addr(1)));
    assert_eq!(counters(&service, "A"), (1, 0, 1));
    assert_eq!(counters(&service, "B"), (7, 0, 0));
}

#[test]
fn dispatch_fails_without_permit_or_peer() {
    let mut service = service_with(&[("A", 1, 1, 0)]);
    let mut ctx = classified(&service, "/completion");
    assert_eq!(service.upstream_peer(&mut ctx, None), Err(ProxyError::Internal));
    assert!(ctx.selected_peer().is_none());
    assert_eq!(counters(&service, "A"), (1, 0, 0));
    let permit = try_permit(&service);
    service.upstream_peer_pool_mut().quarantine_peer_at("A", at(11));
    assert_eq!(service.upstream_peer(&mut ctx, permit), Err(ProxyError::Internal));
    assert!(ctx.selected_peer().is_none());
    assert_eq!(semaphore(&service).available_permits(), 1);
    let mut plain = classified(&service, "/metrics");
    assert_eq!(service.upstream_peer(&mut plain, None), Err(ProxyError::NoPeerAvailable));
    let mut empty = service_with(&[]);
    let mut other = classified(&empty, "/other");
    assert_eq!(empty.upstream_peer(&mut other, None), Err(ProxyError::NoPeerAvailable));
}

#[test]
fn dispatch_rejects_a_permit_of_another_semaphore() {
    let mut service = service_with(&[("A", 1, 1, 0)]);
    let other = Arc::new(Semaphore::new(1));
    let foreign = other.clone().try_acquire_owned().unwrap();
    let mut ctx = classified(&service, "/completion");
    assert_eq!(service.upstream_peer(&mut ctx, Some(foreign)), Err(ProxyError::Internal));
    assert_eq!(counters(&service, "A"), (1, 0, 0));
    assert_eq!(other.available_permits(), 1);
    assert_eq!(ctx.selected_peer().unwrap().agent_id, "A");
}

#[test]
fn connecting_fails_when_the_peer_has_no_idle_slot_left() {
    let mut service = service_with(&[("A", 1, 1, 0)]);
    let mut ctx = classified(&service, "/completion");
    assert_eq!(dispatch(&mut service, &mut ctx), Ok(addr(1)));
    service.upstream_peer_pool_mut().apply_status_update_at("A".to_string(), report(1, 0, 1), at(15)).unwrap();
    assert_eq!(counters(&service, "A"), (0, 1, 1));
    assert_eq!(semaphore(&service).available_permits(), 0);
    assert_eq!(service.connected_to_upstream_at(&mut ctx, at(20)), Err(ProxyError::Internal));
    assert!(!ctx.slot_taken());
    assert_eq!(counters(&service, "A"), (0, 1, 0));
    assert_eq!(semaphore(&service).available_permits(), 1);
    assert_eq!(service.connected_to_upstream_at(&mut ctx, at(21)), Err(ProxyError::Internal));
    assert_eq!(counters(&service, "A"), (0, 1, 0));
    assert!(service.upstream_peer_pool_mut().remove_peer("A"));
    assert_eq!(service.connected_to_upstream(&mut ctx), Err(ProxyError::Internal));
    let mut unselected = classified(&service, "/completion");
    assert_eq!(service.connected_to_upstream_at(&mut unselected, at(21)), Ok(()));
    assert!(!unselected.slot_taken());
}

#[test]
fn connecting_twice_takes_one_slot() {
    let mut service = service_with(&[("A", 1, 3, 0)]);
    let mut ctx = classified(&service, "/completion");
    assert_eq!(dispatch(&mut service, &mut ctx), Ok(addr(1)));
    assert_eq!(service.connected_to_upstream(&mut ctx), Ok(()));
    assert_eq!(service.connected_to_upstream(&mut ctx), Ok(()));
    assert_eq!(counters(&service, "A"), (2, 1, 1));
    assert_eq!(service.response_body_filter(&mut ctx, true), Ok(()));
    assert_eq!(counters(&service, "A"), (3, 0, 0));
}

#[test]
fn an_error_that_allows_a_retry_keeps_the_permit() {
    let mut service = service_with(&[("A", 1, 1, 0)]);
    let mut ctx = classified(&service, "/completion");
    assert_eq!(dispatch(&mut service, &mut ctx), Ok(addr(1)));
    assert_eq!(service.connected_to_upstream_at(&mut ctx, at(20)), Ok(()));
    assert_eq!(service.error_while_proxy_at(&mut ctx, true, false, at(21)), ProxyFailure::Passed { retry: true });
    assert!(!ctx.slot_taken());
    assert_eq!(counters(&service, "A"), (1, 0, 1));
    assert_eq!(semaphore(&service).available_permits(), 0);
    assert!(!service.needs_permit(&ctx));
    assert_eq!(service.upstream_peer(&mut ctx, None), Ok(addr(1)));
    assert_eq!(service.connected_to_upstream_at(&mut ctx, at(22)), Ok(()));
    assert_eq!(counters(&service, "A"), (0, 1, 1));
    assert_eq!(service.response_body_filter_at(&mut ctx, true, at(23)), Ok(()));
    assert_eq!(counters(&service, "A"), (1, 0, 0));
    assert_eq!(semaphore(&service).available_permits(), 1);
}

#[test]
fn an_error_that_allows_no_retry_releases_slot_and_permit() {
    for (reused, truncated) in [(false, false), (true, true), (false, true)] {
        let mut service = service_with(&[("A", 1, 1, 0)]);
        let mut ctx = classified(&service, "/completion");
        assert_eq!(dispatch(&mut service, &mut ctx), Ok(addr(1)));
        assert_eq!(service.connected_to_upstream_at(&mut ctx, at(20)), Ok(()));
        assert_eq!(
            service.error_while_proxy_at(&mut ctx, reused, truncated, at(21)),
            ProxyFailure::Passed { retry: false }
        );
        assert!(!ctx.slot_taken());
        assert_eq!(counters(&service, "A"), (1, 0, 0));
        assert_eq!(semaphore(&service).available_permits(), 1);
    }
}

#[test]
fn an_error_before_the_slot_is_taken_releases_nothing() {
    let mut service = service_with(&[("A", 1, 1, 0)]);
    let mut ctx = classified(&service, "/completion");
    assert_eq!(dispatch(&mut service, &mut ctx), Ok(addr(1)));
    assert_eq!(service.error_while_proxy(&mut ctx, false, false), ProxyFailure::Passed { retry: false });
    assert_eq!(counters(&service, "A"), (1, 0, 1));
    assert_eq!(service.error_while_proxy(&mut ctx, true, false), ProxyFailure::Passed { retry: true });
}

#[test]
fn releasing_on_a_peer_that_is_gone_is_an_internal_error() {
    let mut service = service_with(&[("A", 1, 1, 0)]);
    let mut ctx = classified(&service, "/completion");
    assert_eq!(dispatch(&mut service, &mut ctx), Ok(addr(1)));
    assert_eq!(service.connected_to_upstream_at(&mut ctx, at(20)), Ok(()));
    assert!(service.upstream_peer_pool_mut().remove_peer("A"));
    assert_eq!(service.response_body_filter_at(&mut ctx, true, at(21)), Err(ProxyError::Internal));
    assert!(ctx.slot_taken());
    assert_eq!(service.error_while_proxy_at(&mut ctx, true, false, at(22)), ProxyFailure::Internal);
    assert!(ctx.slot_taken());
}

#[test]
fn a_status_update_in_flight_fences_the_release() {
    let mut service = service_with(&[("A", 1, 2, 0)]);
    let mut first = classified(&service, "/completion");
    let mut second = classified(&service, "/completion");
    assert_eq!(dispatch(&mut service, &mut first), Ok(addr(1)));
    assert_eq!(service.connected_to_upstream_at(&mut first, at(20)), Ok(()));
    assert_eq!(dispatch(&mut service, &mut second), Ok(addr(1)));
    assert_eq!(service.connected_to_upstream_at(&mut second, at(21)), Ok(()));
    assert_eq!(counters(&service, "A"), (0, 2, 2));
    let sem = semaphore(&service);
    assert_eq!(sem.available_permits(), 0);
    service.upstream_peer_pool_mut().apply_status_update_at("A".to_string(), report(1, 1, 1), at(30)).unwrap();
    assert_eq!(counters(&service, "A"), (1, 1, 1));
    assert_eq!(sem.available_permits(), 1);
    assert_eq!(service.response_body_filter_at(&mut second, true, at(31)), Ok(()));
    assert!(!second.slot_taken());
    assert_eq!(counters(&service, "A"), (1, 1, 0));
    assert_eq!(sem.available_permits(), 2);
    assert_eq!(service.response_body_filter_at(&mut first, true, at(32)), Err(ProxyError::Internal));
    assert_eq!(counters(&service, "A"), (1, 1, 0));
    assert_eq!(sem.available_permits(), 2);
    assert_eq!(service.upstream_peer_pool().total_slots(), 2);
}

#[test]
fn the_host_header_names_the_selected_peer_when_asked_to() {
    let mut service = service_with(&[("A", 7, 1, 0)]);
    let mut ctx = classified(&service, "/completion");
    assert_eq!(service.upstream_request_filter(&ctx), None);
    assert_eq!(dispatch(&mut service, &mut ctx), Ok(addr(7)));
    assert_eq!(service.upstream_request_filter(&ctx), Some(addr(7)));
    let mut pool = UpstreamPeerPool::new();
    pool.apply_status_update_at("A".to_string(), report(7, 1, 0), at(10)).unwrap();
    let mut plain = ProxyService::new(false, true, pool);
    let mut other = classified(&plain, "/completion");
    assert_eq!(dispatch(&mut plain, &mut other), Ok(addr(7)));
    assert_eq!(plain.upstream_request_filter(&other), None);
}

#[test]
fn a_request_that_cannot_give_back_its_slot_gives_up_its_permit() {
    let mut service = service_with(&[("A", 1, 1, 0)]);
    let spare = try_permit(&service).unwrap();
    service.upstream_peer_pool_mut().apply_status_update_at("A".to_string(), report(1, 2, 0), at(11)).unwrap();
    assert_eq!(service.upstream_peer_pool_mut().store_permit("A", spare), Ok(true));
    let mut ctx = classified(&service, "/completion");
    assert_eq!(dispatch(&mut service, &mut ctx), Ok(addr(1)));
    assert_eq!(service.connected_to_upstream_at(&mut ctx, at(20)), Ok(()));
    assert_eq!(counters(&service, "A"), (1, 1, 2));
    service.upstream_peer_pool_mut().apply_status_update_at("A".to_string(), report(1, 2, 0), at(20)).unwrap();
    assert_eq!(counters(&service, "A"), (2, 0, 1));
    assert_eq!(semaphore(&service).available_permits(), 1);
    assert_eq!(service.response_body_filter_at(&mut ctx, true, at(21)), Err(ProxyError::Internal));
    assert!(!ctx.slot_taken());
    assert_eq!(counters(&service, "A"), (2, 0, 0));
    assert_eq!(semaphore(&service).available_permits(), 2);
    assert_eq!(service.response_body_filter_at(&mut ctx, true, at(22)), Ok(()));
    assert_eq!(counters(&service, "A"), (2, 0, 0));
}

#[test]
fn an_error_on_a_slot_that_cannot_be_given_back_is_internal() {
    let mut service = service_with(&[("A", 1, 1, 0)]);
    let mut ctx = classified(&service, "/completion");
    assert_eq!(dispatch(&mut service, &mut ctx), Ok(addr(1)));
    assert_eq!(service.connected_to_upstream_at(&mut ctx, at(20)), Ok(()));
    service.upstream_peer_pool_mut().apply_status_update_at("A".to_string(), report(1, 1, 0), at(20)).unwrap();
    assert_eq!(counters(&service, "A"), (1, 0, 0));
    assert_eq!(service.error_while_proxy_at(&mut ctx, true, false, at(21)), ProxyFailure::Internal);
    assert!(ctx.slot_taken());
    assert_eq!(counters(&service, "A"), (1, 0, 0));
    assert_eq!(semaphore(&service).available_permits(), 1);
}

#[test]
fn an_overtaken_release_still_gives_up_the_permit_once() {
    let mut service = service_with(&[("A", 1, 1, 0)]);
    let mut ctx = classified(&service, "/completion");
    assert_eq!(dispatch(&mut service, &mut ctx), Ok(addr(1)));
    assert_eq!(service.connected_to_upstream_at(&mut ctx, at(20)), Ok(()));
    assert_eq!(counters(&service, "A"), (0, 1, 1));
    service.upstream_peer_pool_mut().apply_status_update_at("A".to_string(), report(1, 1, 1), at(30)).unwrap();
    assert_eq!(counters(&service, "A"), (1, 1, 1));
    assert_eq!(service.response_body_filter_at(&mut ctx, true, at(31)), Ok(()));
    assert!(!ctx.slot_taken());
    assert_eq!(counters(&service, "A"), (1, 1, 0));
    assert_eq!(service.upstream_peer_pool().get("A").unwrap().last_update, at(30));
    assert_eq!(service.response_body_filter_at(&mut ctx, true, at(32)), Ok(()));
    assert_eq!(counters(&service, "A"), (1, 1, 0));
    assert_eq!(semaphore(&service).available_permits(), 2);
    assert!(service.upstream_peer_pool().has_integrity());
}

#[test]
fn the_last_request_leaves_the_pool_at_rest() {
    let mut service = service_with(&[("A", 1, 2, 1), ("B", 2, 1, 0)]);
    assert!(service.upstream_peer_pool().has_integrity());
    let mut ctx = classified(&service, "/v1/chat/completions");
    assert_eq!(dispatch(&mut service, &mut ctx), Ok(addr(1)));
    assert_eq!(service.connected_to_upstream_at(&mut ctx, at(20)), Ok(()));
    assert_eq!(counters(&service, "A"), (1, 2, 1));
    assert_eq!(semaphore(&service).available_permits(), 3);
    assert_eq!(service.response_body_filter_at(&mut ctx, true, at(21)), Ok(()));
    assert_eq!(counters(&service, "A"), (2, 1, 0));
    assert_eq!(counters(&service, "B"), (1, 0, 0));
    assert!(service.upstream_peer_pool().has_integrity());
    assert_eq!(service.upstream_peer_pool().total_slots(), 4);
    assert_eq!(semaphore(&service).available_permits(), 4);
}
