use lease_runtime::lease::{
    create_deadline, lease_id_from_server, lease_id_to_server, plan_after_grant, ttl_from_server,
    GrantPlan, KeepAlive, KeepAliveAction, KeepAliveEvent, Lease, LeaseError, RestartPolicy,
    SupervisorAction,
};

#[test]
fn deadline_is_ttl_seconds_later() {
    assert_eq!(create_deadline(1_000, 10), Ok(11_000));
    assert_eq!(create_deadline(0, 0), Ok(0));
    assert_eq!(create_deadline(u64::MAX, 1), Err(LeaseError::DeadlineOverflow));
    assert_eq!(create_deadline(u64::MAX - 5_000, 5), Ok(u64::MAX));
    assert_eq!(create_deadline(u64::MAX - 4_999, 5), Err(LeaseError::DeadlineOverflow));
}

#[test]
fn single_heartbeat_keeps_lease() {
    let mut k = KeepAlive::start(7, 10, 0).unwrap();
    assert_eq!(k.deadline, 10_000);
    assert_eq!(k.next_action(0), KeepAliveAction::Wait(5));
    assert_eq!(k.on_event(KeepAliveEvent::Tick, 5_000), KeepAliveAction::SendHeartbeat);
    assert_eq!(k.on_event(KeepAliveEvent::HeartbeatSent, 5_000), KeepAliveAction::Wait(5));
    assert_eq!(k.on_event(KeepAliveEvent::Response(10), 5_100), KeepAliveAction::Wait(5));
    assert_eq!(k.deadline, 15_100);
    assert_eq!(k.next_action(11_000), KeepAliveAction::Wait(5));
    assert_eq!(k.lease_id, 7);
}

#[test]
fn cancellation_revokes() {
    let mut k = KeepAlive::start(7, 10, 0).unwrap();
    let before = k;
    assert_eq!(k.on_event(KeepAliveEvent::Cancelled, 2_000), KeepAliveAction::Revoke);
    assert_eq!(k, before);
}

#[test]
fn silent_server_loses_lease_at_deadline() {
    let mut k = KeepAlive::start(1, 6, 0).unwrap();
    assert_eq!(k.on_event(KeepAliveEvent::Tick, 3_000), KeepAliveAction::SendHeartbeat);
    assert_eq!(k.on_event(KeepAliveEvent::HeartbeatFailed, 3_000), KeepAliveAction::Wait(0));
    assert_eq!(k.ttl, 0);
    assert_eq!(k.on_event(KeepAliveEvent::Tick, 5_999), KeepAliveAction::SendHeartbeat);
    assert_eq!(k.on_event(KeepAliveEvent::HeartbeatSent, 5_999), KeepAliveAction::Wait(0));
    assert_eq!(k.on_event(KeepAliveEvent::Tick, 6_000), KeepAliveAction::SendHeartbeat);
    assert_eq!(
        k.on_event(KeepAliveEvent::HeartbeatFailed, 7_000),
        KeepAliveAction::Fail(LeaseError::DeadlineExceeded)
    );
    assert_eq!(k.next_action(7_000), KeepAliveAction::Fail(LeaseError::DeadlineExceeded));
}

#[test]
fn stream_errors_stop_the_driver() {
    let mut k = KeepAlive::start(1, 6, 0).unwrap();
    assert_eq!(k.on_event(KeepAliveEvent::Response(0), 10), KeepAliveAction::Fail(LeaseError::Expired));
    assert_eq!(k.on_event(KeepAliveEvent::StreamClosed, 10), KeepAliveAction::Fail(LeaseError::StreamClosed));
    assert_eq!(k.on_event(KeepAliveEvent::StreamFailed, 10), KeepAliveAction::Fail(LeaseError::StreamFailed));
    assert_eq!(
        k.on_event(KeepAliveEvent::Response(u64::MAX), 10),
        KeepAliveAction::Fail(LeaseError::DeadlineOverflow)
    );
    assert_eq!(KeepAlive::start(1, u64::MAX, 0), Err(LeaseError::DeadlineOverflow));
}

#[test]
fn supervisor_decisions() {
    let p = RestartPolicy { max_restarts: 2, delay_secs: 1 };
    assert_eq!(p.after_exit(0, Ok(())), SupervisorAction::Finish);
    assert_eq!(p.after_exit(0, Err(LeaseError::StreamClosed)), SupervisorAction::Restart(1));
    assert_eq!(p.after_exit(1, Err(LeaseError::StreamFailed)), SupervisorAction::Restart(1));
    assert_eq!(p.after_exit(2, Err(LeaseError::StreamFailed)), SupervisorAction::CancelParent);
    assert_eq!(p.after_exit(0, Err(LeaseError::DeadlineExceeded)), SupervisorAction::CancelParent);
    assert_eq!(p.after_exit(0, Err(LeaseError::Expired)), SupervisorAction::CancelParent);
    let never = RestartPolicy::never();
    assert_eq!(never.after_exit(0, Err(LeaseError::StreamClosed)), SupervisorAction::CancelParent);
}

#[test]
fn grant_plans() {
    assert_eq!(plan_after_grant(5, 10, true, 0), Ok(GrantPlan::Revoke(5)));
    assert_eq!(
        plan_after_grant(5, 10, false, 1_000),
        Ok(GrantPlan::Keep(KeepAlive { lease_id: 5, ttl: 10, deadline: 11_000 }))
    );
    assert_eq!(
        plan_after_grant(5, -1, false, 1_000),
        Ok(GrantPlan::Keep(KeepAlive { lease_id: 5, ttl: 0, deadline: 1_000 }))
    );
    assert_eq!(plan_after_grant(5, i64::MAX, false, 0), Err(LeaseError::DeadlineOverflow));
}

#[test]
fn lease_ids_and_ttls() {
    assert_eq!(lease_id_from_server(42), 42);
    assert_eq!(lease_id_from_server(-1), u64::MAX);
    assert_eq!(lease_id_to_server(u64::MAX), -1);
    assert_eq!(lease_id_to_server(lease_id_from_server(i64::MIN)), i64::MIN);
    assert_eq!(ttl_from_server(30), 30);
    assert_eq!(ttl_from_server(-1), 0);
    assert_eq!(ttl_from_server(0), 0);
}

#[test]
fn lease_validity() {
    let l = Lease::new(3);
    assert_eq!(l.id(), 3);
    assert!(!Lease::must_query_server(true));
    assert!(Lease::must_query_server(false));
    assert!(Lease::is_valid_given(false, 4));
    assert!(!Lease::is_valid_given(false, 0));
    assert!(!Lease::is_valid_given(true, 4));
}

#[test]
fn restart_count_resets_after_an_answered_run() {
    assert_eq!(RestartPolicy::restarts_in_a_row(2, true), 0);
    assert_eq!(RestartPolicy::restarts_in_a_row(2, false), 2);
}
