use slot_balancer::balancer::peer_addr::PeerAddr;
use slot_balancer::balancer::status_update::StatusUpdate;
use slot_balancer::balancer::timestamp::Timestamp;
use slot_balancer::balancer::timestamp::QUARANTINE_SECS;
use slot_balancer::balancer::upstream_peer::UpstreamPeer;
use slot_balancer::errors::PoolError;
use std::cmp::Ordering;
use std::sync::Arc;
use tokio::sync::Semaphore;

fn at(secs: u64) -> Timestamp {
    Timestamp { secs, nanos: 0 }
}

fn v4(last: u32, port: u16) -> PeerAddr {
    PeerAddr::V4 { ip: 0x7f00_0000 + last, port }
}

fn peer(id: &str, idle: usize, busy: usize) -> UpstreamPeer {
    UpstreamPeer::new_at(id.to_string(), None, None, v4(1, 8080), Some(true), Some(true), idle, busy, at(100))
}

fn report(idle: usize, busy: usize) -> StatusUpdate {
    StatusUpdate {
        agent_name: Some("worker".to_string()),
        error: None,
        external_llamacpp_addr: v4(2, 9090),
        is_authorized: Some(true),
        is_slots_endpoint_enabled: Some(false),
        idle_slots_count: idle,
        processing_slots_count: busy,
    }
}

#[test]
fn new_at_keeps_what_it_is_given() {
    let p = UpstreamPeer::new_at(
        "a1".to_string(),
        Some("alpha".to_string()),
        Some("boom".to_string()),
        v4(7, 81),
        None,
        Some(true),
        3,
        4,
        Timestamp { secs: 9, nanos: 5 },
    );
    assert_eq!(p.agent_id, "a1");
    assert_eq!(p.agent_name, Some("alpha".to_string()));
    assert_eq!(p.error, Some("boom".to_string()));
    assert_eq!(p.external_llamacpp_addr, v4(7, 81));
    assert_eq!(p.is_authorized, None);
    assert_eq!(p.is_slots_endpoint_enabled, Some(true));
    assert_eq!(p.last_update, Timestamp { secs: 9, nanos: 5 });
    assert_eq!(p.quarantined_until, None);
    assert_eq!(p.slots_idle, 3);
    assert_eq!(p.slots_processing, 4);
    assert!(p.slots_permissions.is_none());
    assert_eq!(p.permits_count(), 0);
}

#[test]
fn new_reads_the_clock() {
    let before = Timestamp::now();
    let p = UpstreamPeer::new("a".to_string(), None, None, v4(1, 1), Some(true), None, 1, 2);
    assert!(p.last_update.secs >= before.secs);
    assert!(p.last_update.secs > 1_600_000_000);
    assert_eq!(p.slots_idle, 1);
    assert_eq!(p.slots_processing, 2);
    assert_eq!(p.quarantined_until, None);
}

#[test]
fn new_from_status_update_takes_over_the_report() {
    let p = UpstreamPeer::new_from_status_update_at("a".to_string(), report(4, 1), at(7));
    assert_eq!(p.agent_id, "a");
    assert_eq!(p.agent_name, Some("worker".to_string()));
    assert_eq!(p.error, None);
    assert_eq!(p.external_llamacpp_addr, v4(2, 9090));
    assert_eq!(p.is_authorized, Some(true));
    assert_eq!(p.is_slots_endpoint_enabled, Some(false));
    assert_eq!(p.slots_idle, 4);
    assert_eq!(p.slots_processing, 1);
    assert_eq!(p.last_update, at(7));
    assert_eq!(p.quarantined_until, None);
    assert_eq!(p.permits_count(), 0);
    let q = UpstreamPeer::new_from_status_update("b".to_string(), report(2, 0));
    assert_eq!(q.agent_id, "b");
    assert_eq!(q.slots_idle, 2);
}

#[test]
fn info_is_id_address_and_last_update() {
    let p = peer("a", 1, 0);
    let info = p.info();
    assert_eq!(info.agent_id, "a");
    assert_eq!(info.external_llamacpp_addr, v4(1, 8080));
    assert_eq!(info.last_update, at(100));
}

#[test]
fn usable_needs_idle_slot_no_quarantine_no_error_and_authorization() {
    assert!(peer("a", 1, 0).is_usable());
    assert!(!peer("a", 0, 3).is_usable());
    let mut quarantined = peer("a", 1, 0);
    quarantined.quarantined_until = Some(at(110));
    assert!(!quarantined.is_usable());
    let mut failed = peer("a", 1, 0);
    failed.error = Some("down".to_string());
    assert!(!failed.is_usable());
    let mut refused = peer("a", 1, 0);
    refused.is_authorized = Some(false);
    assert!(!refused.is_usable());
    let mut unknown = peer("a", 1, 0);
    unknown.is_authorized = None;
    assert!(!unknown.is_usable());
}

#[test]
fn take_and_release_move_one_slot() {
    let mut p = peer("a", 2, 5);
    p.take_slot_at(at(101));
    assert_eq!((p.slots_idle, p.slots_processing, p.last_update), (1, 6, at(101)));
    p.release_slot_at(at(102));
    assert_eq!((p.slots_idle, p.slots_processing, p.last_update), (2, 5, at(102)));
    p.take_slot();
    assert_eq!((p.slots_idle, p.slots_processing), (1, 6));
    p.release_slot();
    assert_eq!((p.slots_idle, p.slots_processing), (2, 5));
    assert_eq!(p.slots_count(), 7);
}

#[test]
fn slots_count_and_admitted_slots() {
    let mut p = peer("a", 3, 4);
    assert_eq!(p.slots_count(), 7);
    assert_eq!(p.admitted_slots(), 7);
    p.is_authorized = Some(false);
    assert_eq!(p.admitted_slots(), 0);
    p.is_authorized = None;
    assert_eq!(p.admitted_slots(), 0);
    assert_eq!(p.slots_count(), 7);
}

#[test]
fn custody_merges_and_splits_permits() {
    let sem = Arc::new(Semaphore::new(5));
    let mut p = peer("a", 5, 0);
    p.store_permit(sem.clone().try_acquire_owned().unwrap());
    assert_eq!(p.permits_count(), 1);
    p.store_permit(sem.clone().try_acquire_many_owned(2).unwrap());
    assert_eq!(p.permits_count(), 3);
    assert_eq!(sem.available_permits(), 2);
    assert_eq!(p.release_permits(2), Ok(()));
    assert_eq!(p.permits_count(), 1);
    assert_eq!(sem.available_permits(), 4);
    assert_eq!(p.release_permits(2), Err(PoolError::PermitShortfall));
    assert_eq!(p.permits_count(), 1);
    assert_eq!(sem.available_permits(), 4);
    assert_eq!(p.release_permits(0), Ok(()));
    assert_eq!(p.release_permits(1), Ok(()));
    assert_eq!(p.permits_count(), 0);
    assert_eq!(sem.available_permits(), 5);
}

#[test]
fn releasing_from_an_empty_custody_is_a_shortfall() {
    let mut p = peer("a", 1, 1);
    assert_eq!(p.release_permits(1), Err(PoolError::PermitShortfall));
    assert_eq!(p.release_permits(0), Ok(()));
    assert!(p.slots_permissions.is_none());
}

#[test]
fn update_status_replaces_telemetry_and_ends_quarantine() {
    let mut p = peer("a", 1, 0);
    p.quarantined_until = Some(at(100 + QUARANTINE_SECS));
    assert_eq!(p.update_status_at(report(6, 2), at(200)), Ok(()));
    assert_eq!(p.agent_id, "a");
    assert_eq!(p.agent_name, Some("worker".to_string()));
    assert_eq!(p.external_llamacpp_addr, v4(2, 9090));
    assert_eq!(p.is_slots_endpoint_enabled, Some(false));
    assert_eq!(p.slots_idle, 6);
    assert_eq!(p.slots_processing, 2);
    assert_eq!(p.last_update, at(200));
    assert_eq!(p.quarantined_until, None);
}

#[test]
fn update_status_returns_the_permits_of_requests_that_ended_upstream() {
    let sem = Arc::new(Semaphore::new(4));
    let mut p = peer("a", 0, 3);
    p.store_permit(sem.clone().try_acquire_many_owned(3).unwrap());
    assert_eq!(sem.available_permits(), 1);
    assert_eq!(p.update_status_at(report(2, 1), at(200)), Ok(()));
    assert_eq!(p.permits_count(), 1);
    assert_eq!(sem.available_permits(), 3);
    assert_eq!((p.slots_idle, p.slots_processing), (2, 1));
    assert_eq!(p.update_status_at(report(0, 3), at(201)), Ok(()));
    assert_eq!(p.permits_count(), 1);
    assert_eq!(sem.available_permits(), 3);
    assert_eq!(p.update_status(report(1, 2)), Ok(()));
    assert_eq!(p.permits_count(), 0);
    assert_eq!(sem.available_permits(), 4);
    assert_eq!((p.slots_idle, p.slots_processing), (1, 2));
}

#[test]
fn update_status_with_too_few_permits_releases_none_and_says_so() {
    let sem = Arc::new(Semaphore::new(4));
    let mut p = peer("a", 0, 3);
    p.store_permit(sem.clone().try_acquire_owned().unwrap());
    assert_eq!(p.update_status_at(report(2, 1), at(200)), Err(PoolError::PermitShortfall));
    assert_eq!(p.permits_count(), 1);
    assert_eq!(sem.available_permits(), 3);
    assert_eq!((p.slots_idle, p.slots_processing), (2, 1));
    assert_eq!(p.last_update, at(200));
    assert_eq!(p.agent_name, Some("worker".to_string()));
    assert_eq!(p.external_llamacpp_addr, v4(2, 9090));
    let mut empty = peer("b", 0, 1);
    assert_eq!(empty.update_status_at(report(1, 0), at(200)), Err(PoolError::PermitShortfall));
    assert_eq!((empty.slots_idle, empty.slots_processing, empty.permits_count()), (1, 0, 0));
    assert_eq!(empty.update_status_at(report(1, 0), at(201)), Ok(()));
}

#[test]
fn usable_peers_rank_first() {
    let usable = peer("a", 1, 9);
    let mut busy = peer("b", 50, 0);
    busy.is_authorized = Some(false);
    assert_eq!(usable.cmp(&busy), Ordering::Less);
    assert_eq!(busy.cmp(&usable), Ordering::Greater);
    assert!(usable.outranks(&busy));
    assert!(!busy.outranks(&usable));
    assert!(usable < busy);
}

#[test]
fn more_idle_slots_rank_first_then_fewer_busy_slots() {
    let a = peer("a", 2, 3);
    let b = peer("b", 5, 0);
    assert_eq!(b.cmp(&a), Ordering::Less);
    assert_eq!(a.cmp(&b), Ordering::Greater);
    let c = peer("c", 5, 1);
    assert_eq!(b.cmp(&c), Ordering::Less);
    assert_eq!(c.cmp(&b), Ordering::Greater);
    assert_eq!(a.partial_cmp(&b), Some(Ordering::Greater));
}

#[test]
fn address_breaks_ties_and_same_rank_is_equal() {
    let mut a = peer("a", 2, 2);
    let mut b = peer("b", 2, 2);
    a.external_llamacpp_addr = v4(1, 80);
    b.external_llamacpp_addr = v4(1, 81);
    assert_eq!(a.cmp(&b), Ordering::Less);
    assert_eq!(b.cmp(&a), Ordering::Greater);
    b.external_llamacpp_addr = v4(1, 80);
    assert_eq!(a.cmp(&b), Ordering::Equal);
    assert_eq!(a.partial_cmp(&b), Some(Ordering::Equal));
    assert!(a != b);
    a.external_llamacpp_addr = PeerAddr::V6 { ip: 1, port: 80, flowinfo: 0, scope_id: 0 };
    assert_eq!(a.cmp(&b), Ordering::Greater);
    b.external_llamacpp_addr = PeerAddr::V6 { ip: 1, port: 80, flowinfo: 0, scope_id: 1 };
    assert_eq!(a.cmp(&b), Ordering::Less);
    assert_eq!(b.cmp(&a), Ordering::Greater);
    b.external_llamacpp_addr = PeerAddr::V6 { ip: 1, port: 80, flowinfo: 2, scope_id: 0 };
    assert_eq!(a.cmp(&b), Ordering::Less);
    assert_eq!(a.partial_cmp(&b), Some(Ordering::Less));
    b.external_llamacpp_addr = a.external_llamacpp_addr;
    assert_eq!(a.cmp(&b), Ordering::Equal);
}

#[test]
fn the_clock_stamps_well_formed_instants() {
    let mut p = UpstreamPeer::new("a".to_string(), None, None, v4(1, 1), Some(true), None, 1, 1);
    assert!(p.last_update.nanos < 1_000_000_000);
    p.take_slot();
    assert!(p.last_update.nanos < 1_000_000_000);
    p.release_slot();
    assert!(p.last_update.nanos < 1_000_000_000);
    assert_eq!(p.update_status(report(1, 1)), Ok(()));
    assert!(p.last_update.nanos < 1_000_000_000);
    let q = UpstreamPeer::new_from_status_update("b".to_string(), report(1, 1));
    assert!(q.last_update.nanos < 1_000_000_000);
}

#[test]
fn the_order_is_total_on_a_sample() {
    let mut fleet = vec![peer("a", 0, 1), peer("b", 3, 1), peer("c", 3, 0), peer("d", 1, 1), peer("e", 3, 1)];
    fleet[3].error = Some("x".to_string());
    fleet[4].external_llamacpp_addr = v4(0, 1);
    for x in fleet.iter() {
        assert_eq!(x.cmp(x), Ordering::Equal);
        for y in fleet.iter() {
            assert_eq!(x.cmp(y), y.cmp(x).reverse());
            for z in fleet.iter() {
                if x.cmp(y) != Ordering::Greater && y.cmp(z) != Ordering::Greater {
                    assert!(x.cmp(z) != Ordering::Greater);
                }
            }
        }
    }
    let mut ranked: Vec<usize> = vec![0, 1, 2, 3, 4];
    ranked.sort_by(|i, j| fleet[*i].cmp(&fleet[*j]));
    assert_eq!(ranked, vec![2, 4, 1, 3, 0]);
}

#[test]
fn peers_are_the_same_iff_their_agent_ids_are() {
    let a = peer("a", 1, 0);
    let mut other = peer("a", 9, 9);
    other.external_llamacpp_addr = v4(200, 1);
    assert!(a == other);
    assert!(a != peer("b", 1, 0));
}
