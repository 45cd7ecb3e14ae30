use auto_switch_ha::group_commit::CommitOutcome;
use auto_switch_ha::group_commit::GroupCommitRequest;
use auto_switch_ha::ha_service::AutoSwitchHAService;
use auto_switch_ha::ha_service::HAError;
use auto_switch_ha::ha_service::Role;
use auto_switch_ha::ha_service::ServiceState;

fn running_master(quorum_size: i32, slave_ok_lag: i64) -> AutoSwitchHAService {
    let mut svc = AutoSwitchHAService::new(quorum_size, slave_ok_lag);
    svc.start().expect("fresh service starts");
    svc
}

#[test]
fn start_with_empty_epoch_log_yields_master_epoch_zero() {
    let mut svc = AutoSwitchHAService::new(1, 0);
    assert_eq!(svc.state, ServiceState::Uninitialized);
    svc.start().expect("fresh service starts");
    assert_eq!(svc.state, ServiceState::Running);
    assert_eq!(svc.role, Role::Master);
    assert_eq!(svc.current_epoch, 0);

    svc.update_local_committed_offset(42);
    assert_eq!(svc.change_to_master(5), Ok(false));
    assert_eq!(svc.current_epoch, 5);
    assert_eq!(svc.role, Role::Master);
    let last = *svc.epoch_log.last().expect("record appended");
    assert_eq!(last.epoch, 5);
    assert_eq!(last.start_offset, 42);

    assert_eq!(svc.change_to_master(3), Err(HAError::StaleEpoch));
    assert_eq!(svc.change_to_master(5), Err(HAError::StaleEpoch));
    assert_eq!(svc.current_epoch, 5);
    assert_eq!(svc.epoch_log.len(), 1);
}

#[test]
fn start_twice_is_refused() {
    let mut svc = AutoSwitchHAService::new(1, 0);
    svc.start().expect("fresh service starts");
    assert_eq!(svc.start(), Err(HAError::AlreadyStarted));
}

#[test]
fn transitions_before_start_are_refused() {
    let mut svc = AutoSwitchHAService::new(1, 0);
    assert_eq!(svc.change_to_master(1), Err(HAError::NotStarted));
    assert_eq!(
        svc.change_to_slave("master-a", 1, None, true, 0),
        Err(HAError::NotStarted)
    );
    assert_eq!(
        svc.change_to_slave_when_master_not_change("master-a", 1),
        Err(HAError::NotStarted)
    );
    assert_eq!(
        svc.change_to_master_when_last_role_is_master(1),
        Err(HAError::NotStarted)
    );
}

#[test]
fn epoch_log_recovery_and_validation() {
    let mut svc = AutoSwitchHAService::new(1, 0);
    svc.load_epoch_entry(2, 10).expect("first record loads");
    svc.load_epoch_entry(5, 20).expect("monotonic record loads");
    assert_eq!(
        svc.load_epoch_entry(4, 30),
        Err(HAError::ProtocolViolation)
    );
    assert_eq!(
        svc.load_epoch_entry(6, 5),
        Err(HAError::ProtocolViolation)
    );
    svc.start().expect("recovered service starts");
    assert_eq!(svc.current_epoch, 5);
    assert_eq!(svc.role, Role::Master);
    assert_eq!(svc.load_epoch_entry(9, 90), Err(HAError::AlreadyStarted));
}

#[test]
fn put_request_completes_immediately_when_quorum_is_met() {
    let mut svc = running_master(1, 0);
    assert_eq!(svc.change_to_master(5), Ok(false));
    let conn = svc
        .add_connection("replica-1", Some(1), 5, 0)
        .expect("running master accepts replicas");
    svc.on_ack_received(conn, 100, 1).expect("in-order ack");

    let first = svc.put_request(GroupCommitRequest { target_offset: 100, deadline: 1_000 });
    let done = svc.take_completed();
    assert_eq!(done.len(), 1);
    assert_eq!(done[0].request_id, first);
    assert_eq!(done[0].target_offset, 100);
    assert_eq!(done[0].outcome, CommitOutcome::Success);

    let second = svc.put_request(GroupCommitRequest { target_offset: 150, deadline: 1_000 });
    assert!(svc.take_completed().is_empty());

    svc.on_ack_received(conn, 150, 2).expect("in-order ack");
    let done = svc.take_completed();
    assert_eq!(done.len(), 1);
    assert_eq!(done[0].request_id, second);
    assert_eq!(done[0].outcome, CommitOutcome::Success);
}

#[test]
fn quorum_advance_releases_in_ascending_offset_order() {
    let mut svc = running_master(1, 0);
    let conn = svc
        .add_connection("replica-1", Some(1), 0, 0)
        .expect("running master accepts replicas");
    let high = svc.put_request(GroupCommitRequest { target_offset: 200, deadline: 1_000 });
    let low = svc.put_request(GroupCommitRequest { target_offset: 100, deadline: 1_000 });
    assert!(svc.take_completed().is_empty());

    svc.on_ack_received(conn, 250, 1).expect("in-order ack");
    let done = svc.take_completed();
    assert_eq!(done.len(), 2);
    assert_eq!(done[0].request_id, low);
    assert_eq!(done[0].target_offset, 100);
    assert_eq!(done[1].request_id, high);
    assert_eq!(done[1].target_offset, 200);
    assert!(done[0].target_offset <= done[1].target_offset);
    assert_eq!(done[0].outcome, CommitOutcome::Success);
    assert_eq!(done[1].outcome, CommitOutcome::Success);
}

#[test]
fn partial_progress_releases_only_the_satisfied_prefix() {
    let mut svc = running_master(1, 0);
    let conn = svc
        .add_connection("replica-1", Some(1), 0, 0)
        .expect("running master accepts replicas");
    let low = svc.put_request(GroupCommitRequest { target_offset: 100, deadline: 1_000 });
    let _high = svc.put_request(GroupCommitRequest { target_offset: 200, deadline: 1_000 });

    svc.on_ack_received(conn, 120, 1).expect("in-order ack");
    let done = svc.take_completed();
    assert_eq!(done.len(), 1);
    assert_eq!(done[0].request_id, low);
    assert_eq!(done[0].outcome, CommitOutcome::Success);
}

#[test]
fn request_past_deadline_times_out_regardless_of_quorum() {
    let mut svc = running_master(1, 0);
    let expired = svc.put_request(GroupCommitRequest { target_offset: 100, deadline: 10 });
    let alive = svc.put_request(GroupCommitRequest { target_offset: 200, deadline: 50 });
    svc.evaluate_timeouts(20);
    let done = svc.take_completed();
    assert_eq!(done.len(), 1);
    assert_eq!(done[0].request_id, expired);
    assert_eq!(done[0].outcome, CommitOutcome::Timeout);
    svc.evaluate_timeouts(60);
    let done = svc.take_completed();
    assert_eq!(done.len(), 1);
    assert_eq!(done[0].request_id, alive);
    assert_eq!(done[0].outcome, CommitOutcome::Timeout);
}

#[test]
fn shutdown_releases_all_pending_and_drops_connections() {
    let mut svc = running_master(1, 0);
    svc.add_connection("replica-1", Some(1), 0, 0)
        .expect("running master accepts replicas");
    let a = svc.put_request(GroupCommitRequest { target_offset: 100, deadline: 1_000 });
    let b = svc.put_request(GroupCommitRequest { target_offset: 200, deadline: 1_000 });
    svc.shutdown(1_000);
    assert_eq!(svc.state, ServiceState::Stopped);
    assert_eq!(svc.get_connection_count(), 0);
    let done = svc.take_completed();
    assert_eq!(done.len(), 2);
    assert_eq!(done[0].request_id, a);
    assert_eq!(done[0].outcome, CommitOutcome::Shutdown);
    assert_eq!(done[1].request_id, b);
    assert_eq!(done[1].outcome, CommitOutcome::Shutdown);

    let late = svc.put_request(GroupCommitRequest { target_offset: 10, deadline: 10 });
    let done = svc.take_completed();
    assert_eq!(done.len(), 1);
    assert_eq!(done[0].request_id, late);
    assert_eq!(done[0].outcome, CommitOutcome::Shutdown);
}

#[test]
fn role_change_releases_pending_with_role_changed() {
    let mut svc = running_master(1, 0);
    let a = svc.put_request(GroupCommitRequest { target_offset: 100, deadline: 1_000 });
    assert_eq!(svc.change_to_master(7), Ok(false));
    let done = svc.take_completed();
    assert_eq!(done.len(), 1);
    assert_eq!(done[0].request_id, a);
    assert_eq!(done[0].outcome, CommitOutcome::RoleChanged);
}

#[test]
fn out_of_order_ack_is_a_protocol_violation_and_drops_the_connection() {
    let mut svc = running_master(1, 0);
    let conn = svc
        .add_connection("replica-1", Some(1), 0, 0)
        .expect("running master accepts replicas");
    svc.on_ack_received(conn, 100, 1).expect("in-order ack");
    assert_eq!(
        svc.on_ack_received(conn, 50, 2),
        Err(HAError::ProtocolViolation)
    );
    assert_eq!(svc.get_connection_count(), 0);
    svc.on_ack_received(conn, 60, 3).expect("unknown connection is ignored");
}

#[test]
fn in_sync_replicas_counts_connections_and_the_master_itself() {
    let mut svc = running_master(1, 0);
    let c1 = svc
        .add_connection("replica-1", Some(1), 0, 0)
        .expect("running master accepts replicas");
    let c2 = svc
        .add_connection("replica-2", Some(2), 0, 0)
        .expect("running master accepts replicas");
    svc.on_ack_received(c1, 100, 1).expect("in-order ack");
    svc.on_ack_received(c2, 200, 1).expect("in-order ack");
    svc.update_local_committed_offset(150);

    assert_eq!(svc.in_sync_replicas_nums(100), 3);
    assert_eq!(svc.in_sync_replicas_nums(150), 2);
    assert_eq!(svc.in_sync_replicas_nums(151), 1);
    assert_eq!(svc.in_sync_replicas_nums(201), 0);
    let mut previous = svc.in_sync_replicas_nums(0);
    for offset in [50i64, 100, 150, 200, 250] {
        let now = svc.in_sync_replicas_nums(offset);
        assert!(now <= previous);
        previous = now;
    }
    assert_eq!(svc.get_push_to_slave_max_offset(), 200);
}

#[test]
fn change_to_slave_builds_the_master_link() {
    let mut svc = running_master(1, 10);
    assert_eq!(svc.change_to_slave("master-a", 5, Some(2), true, 7), Ok(true));
    assert_eq!(svc.role, Role::Slave);
    assert_eq!(svc.current_epoch, 5);
    assert_eq!(svc.master_address, "master-a");
    let client = svc.get_ha_client().expect("slave holds its master link");
    assert_eq!(client.peer_address, "master-a");
    assert_eq!(client.slave_id, Some(2));
    assert_eq!(client.negotiated_epoch, 5);
    assert_eq!(client.last_active, 7);
    assert!(client.alive);
}

#[test]
fn failed_connect_rolls_back_role_but_keeps_the_epoch() {
    let mut svc = running_master(1, 0);
    assert_eq!(
        svc.change_to_slave("master-a", 5, None, false, 0),
        Err(HAError::ConnectFailed)
    );
    assert_eq!(svc.role, Role::Master);
    assert_eq!(svc.current_epoch, 5);
    assert_eq!(svc.epoch_log.last().map(|e| e.epoch), Some(5));
    assert_eq!(svc.get_connection_count(), 0);
    assert_eq!(
        svc.change_to_slave("master-b", 3, None, true, 0),
        Err(HAError::StaleEpoch)
    );
}

#[test]
fn epoch_only_advance_keeps_the_existing_master_link() {
    let mut svc = running_master(1, 10);
    assert_eq!(svc.change_to_slave("master-a", 5, Some(2), true, 0), Ok(true));
    svc.update_local_committed_offset(100);
    let before = svc.get_ha_client().expect("slave holds its master link");
    let ok_before = svc.is_slave_ok(105);
    let lagging_before = svc.is_slave_ok(200);

    assert_eq!(
        svc.change_to_slave_when_master_not_change("master-a", 6),
        Ok(false)
    );
    assert_eq!(svc.current_epoch, 6);
    assert_eq!(svc.role, Role::Slave);
    assert_eq!(svc.get_connection_count(), 1);
    let after = svc.get_ha_client().expect("link survives the epoch advance");
    assert_eq!(after.connection_id, before.connection_id);
    assert_eq!(after.peer_address, before.peer_address);
    assert_eq!(svc.is_slave_ok(105), ok_before);
    assert_eq!(svc.is_slave_ok(200), lagging_before);
    assert!(ok_before);
    assert!(!lagging_before);
}

#[test]
fn reconfirmed_master_keeps_connections_and_pending() {
    let mut svc = running_master(2, 0);
    svc.add_connection("replica-1", Some(1), 0, 0)
        .expect("running master accepts replicas");
    let waiting = svc.put_request(GroupCommitRequest { target_offset: 100, deadline: 1_000 });
    assert_eq!(svc.change_to_master_when_last_role_is_master(9), Ok(false));
    assert_eq!(svc.current_epoch, 9);
    assert_eq!(svc.get_connection_count(), 1);
    assert!(svc.take_completed().is_empty());
    assert_eq!(svc.pending.len(), 1);
    assert_eq!(svc.pending[0].request_id, waiting);
}

#[test]
fn liveness_sweep_drops_stale_connections_only() {
    let mut svc = running_master(1, 0);
    let stale = svc
        .add_connection("replica-1", Some(1), 0, 0)
        .expect("running master accepts replicas");
    let fresh = svc
        .add_connection("replica-2", Some(2), 0, 100)
        .expect("running master accepts replicas");
    assert_eq!(svc.remove_inactive_connections(150, 100), 1);
    assert_eq!(svc.get_connection_count(), 1);
    let list = svc.get_connection_list();
    assert_eq!(list.len(), 1);
    assert_eq!(list[0].connection_id, fresh);
    assert_ne!(list[0].connection_id, stale);
    assert_eq!(svc.remove_inactive_connections(150, 100), 0);
}

#[test]
fn state_observers_wake_on_connection_events() {
    let mut svc = running_master(1, 0);
    let ticket = svc.put_group_connection_state_request();
    assert!(svc.take_notified().is_empty());
    let conn = svc
        .add_connection("replica-1", Some(1), 0, 0)
        .expect("running master accepts replicas");
    assert_eq!(svc.take_notified(), vec![ticket]);

    let second = svc.put_group_connection_state_request();
    assert!(svc.remove_connection(conn));
    assert_eq!(svc.take_notified(), vec![second]);
    assert!(!svc.remove_connection(conn));
}

#[test]
fn runtime_info_reports_the_replication_snapshot() {
    let mut svc = running_master(1, 0);
    let c1 = svc
        .add_connection("replica-1", Some(1), 0, 0)
        .expect("running master accepts replicas");
    let c2 = svc
        .add_connection("replica-2", Some(2), 0, 0)
        .expect("running master accepts replicas");
    svc.on_ack_received(c1, 100, 1).expect("in-order ack");
    svc.on_ack_received(c2, 200, 1).expect("in-order ack");
    svc.update_local_committed_offset(150);
    let info = svc.get_runtime_info(100);
    assert_eq!(info.connection_count, 2);
    assert_eq!(info.in_sync_replicas, 3);
    assert_eq!(info.push_to_slave_max_offset, 200);
    assert_eq!(info.acked_offsets, vec![100, 200]);
}

#[test]
fn master_addresses_update_without_reconnect() {
    let mut svc = running_master(1, 0);
    svc.update_master_address("10.0.0.1:10912");
    svc.update_ha_master_address("10.0.0.1:10913");
    assert_eq!(svc.master_address, "10.0.0.1:10912");
    assert_eq!(svc.ha_master_address, "10.0.0.1:10913");
    assert_eq!(svc.get_connection_count(), 0);
}
