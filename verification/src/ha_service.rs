//! The auto-switch high-availability service: the controller owning the
//! current role and epoch, the replica connection registry, and the pending
//! group commit requests. Role transitions enforce strict epoch
//! monotonicity; replication progress releases pending requests in
//! ascending target-offset order.
//!
//! The controller is a pure state machine: callers perform the outside
//! work (network connects, timers, delivering completions to issuers) and
//! hand the outcomes in as plain values.

use vstd::prelude::*;
use crate::epoch::EpochEntry;
use crate::epoch::epoch_log_wf;
use crate::group_commit::CommitOutcome;
use crate::group_commit::CompletedRequest;
use crate::group_commit::GroupCommitRequest;
use crate::group_commit::PendingRequest;
use crate::group_commit::completed_of;
use crate::group_commit::ids_distinct;
use crate::group_commit::in_sync_count;
use crate::group_commit::insert_pos;
use crate::group_commit::keep_live;
use crate::group_commit::lemma_deadline_split_bounds;
use crate::group_commit::lemma_deadline_split_contains;
use crate::group_commit::lemma_insert_pos_characterize;
use crate::group_commit::lemma_insert_pos_splits;
use crate::group_commit::lemma_sat_prefix_characterize;
use crate::group_commit::lemma_timed_out_distinct;
use crate::group_commit::lemma_keep_live_wf;
use crate::group_commit::lemma_release_order;
use crate::group_commit::lemma_sat_prefix_iff;
use crate::group_commit::quorum_ok;
use crate::group_commit::released;
use crate::group_commit::sat_prefix_len;
use crate::group_commit::sorted_by_offset;
use crate::group_commit::timed_out;
use crate::replica_connection::ReplicaConnection;
use crate::replica_connection::alive_acked_offsets;
use crate::replica_connection::alive_connections;
use crate::replica_connection::lemma_retain_active_wf;
use crate::replica_connection::retain_active;
use crate::replica_connection::count_alive;
use crate::replica_connection::count_in_sync;
use crate::replica_connection::lemma_count_alive_le_len;
use crate::replica_connection::lemma_count_in_sync_le_len;
use crate::replica_connection::lemma_count_in_sync_monotonic;
use crate::replica_connection::max_acked_offset;

verus! {

broadcast use vstd::seq_lib::lemma_seq_skip_index, vstd::seq_lib::lemma_seq_skip_len, vstd::seq_lib::lemma_seq_take_index, vstd::seq_lib::lemma_seq_take_len;

/// The replication role of this node.
#[derive(Debug, Clone, Copy, PartialEq, Eq, Structural)]
pub enum Role {
    Master,
    Slave,
    Transitioning,
}

/// Lifecycle of the service as a whole.
#[derive(Debug, Clone, Copy, PartialEq, Eq, Structural)]
pub enum ServiceState {
    Uninitialized,
    Running,
    Stopped,
}

/// Why an operation was refused.
#[derive(Debug, Clone, Copy, PartialEq, Eq, Structural)]
pub enum HAError {
    AlreadyStarted,
    NotStarted,
    StaleEpoch,
    ConnectFailed,
    ProtocolViolation,
}

/// Observability snapshot assembled for monitoring callers.
#[derive(Debug, Clone)]
pub struct HARuntimeInfo {
    pub connection_count: i32,
    pub in_sync_replicas: i32,
    pub push_to_slave_max_offset: i64,
    pub acked_offsets: Vec<i64>,
}

/// The auto-switch high-availability service controller.
#[derive(Debug)]
pub struct AutoSwitchHAService {
    pub state: ServiceState,
    pub role: Role,
    pub current_epoch: i32,
    pub epoch_log: Vec<EpochEntry>,
    pub connections: Vec<ReplicaConnection>,
    pub pending: Vec<PendingRequest>,
    pub completed: Vec<CompletedRequest>,
    pub state_waiters: Vec<u64>,
    pub notified_waiters: Vec<u64>,
    pub master_address: String,
    pub ha_master_address: String,
    pub local_committed_offset: i64,
    pub next_connection_id: u64,
    pub next_request_id: u64,
    pub quorum_size: i32,
    pub slave_ok_lag: i64,
}

/// Upper bound on registry size, so counts fit an `i32`.
pub open spec fn max_connections() -> int {
    0x7fff_fffe
}

impl AutoSwitchHAService {
    /// Everything the controller relies on between calls.
    pub open spec fn wf(self) -> bool {
        &&& epoch_log_wf(self.epoch_log@)
        &&& self.current_epoch >= 0
        &&& (self.epoch_log@.len() > 0 ==> self.current_epoch == self.epoch_log@.last().epoch)
        &&& (self.epoch_log@.len() == 0 ==> self.current_epoch == 0)
        &&& (self.epoch_log@.len() > 0 ==> self.local_committed_offset
            >= self.epoch_log@.last().start_offset)
        &&& self.local_committed_offset >= 0
        &&& self.connections@.len() <= max_connections()
        &&& forall|i: int|
            0 <= i < self.connections@.len() ==> (#[trigger] self.connections@[i]).wf()
                && self.connections@[i].alive
                && self.connections@[i].connection_id < self.next_connection_id
        &&& forall|i: int, j: int|
            0 <= i < j < self.connections@.len() ==> (#[trigger] self.connections@[i]).connection_id
                != (#[trigger] self.connections@[j]).connection_id
        &&& sorted_by_offset(self.pending@)
        &&& ids_distinct(self.pending@)
        &&& forall|i: int|
            0 <= i < self.pending@.len() ==> (#[trigger] self.pending@[i]).request_id
                < self.next_request_id && self.pending@[i].target_offset >= 0
                && self.pending@[i].deadline >= 0
        &&& forall|i: int|
            0 <= i < self.completed@.len() ==> (#[trigger] self.completed@[i]).request_id
                < self.next_request_id
        &&& forall|i: int, j: int|
            0 <= i < self.completed@.len() && 0 <= j < self.pending@.len() ==> (
            #[trigger] self.completed@[i]).request_id != (#[trigger] self.pending@[j]).request_id
        &&& forall|i: int, j: int|
            0 <= i < j < self.completed@.len() ==> (#[trigger] self.completed@[i]).request_id != (
            #[trigger] self.completed@[j]).request_id
        &&& forall|i: int|
            0 <= i < self.state_waiters@.len() ==> (#[trigger] self.state_waiters@[i])
                < self.next_request_id
        &&& forall|i: int, j: int|
            0 <= i < j < self.state_waiters@.len() ==> (#[trigger] self.state_waiters@[i]) != (
            #[trigger] self.state_waiters@[j])
        &&& self.quorum_size >= 1
        &&& self.slave_ok_lag >= 0
        &&& self.role != Role::Transitioning
        &&& (self.state != ServiceState::Running ==> self.connections@.len() == 0
            && self.pending@.len() == 0)
    }

    /// The in-sync replica count of this state for `offset`.
    pub open spec fn spec_in_sync(self, offset: int) -> int {
        in_sync_count(
            self.connections@,
            self.role == Role::Master,
            self.local_committed_offset as int,
            offset,
        )
    }

    /// Whether this state reaches quorum for `offset`.
    pub open spec fn spec_quorum_ok(self, offset: int) -> bool {
        quorum_ok(
            self.connections@,
            self.role == Role::Master,
            self.local_committed_offset as int,
            self.quorum_size as int,
            offset,
        )
    }

    /// The controller's configuration and identity fields, unchanged.
    pub open spec fn same_config(self, other: Self) -> bool {
        &&& self.quorum_size == other.quorum_size
        &&& self.slave_ok_lag == other.slave_ok_lag
    }

    /// A fresh, not yet started controller.
    pub fn new(quorum_size: i32, slave_ok_lag: i64) -> (s: Self)
        requires
            quorum_size >= 1,
            slave_ok_lag >= 0,
        ensures
            s.wf(),
            s.state == ServiceState::Uninitialized,
            s.role == Role::Master,
            s.current_epoch == 0,
            s.epoch_log@.len() == 0,
            s.connections@.len() == 0,
            s.pending@.len() == 0,
            s.completed@.len() == 0,
            s.state_waiters@.len() == 0,
            s.notified_waiters@.len() == 0,
            s.local_committed_offset == 0,
            s.next_connection_id == 0,
            s.next_request_id == 0,
            s.master_address@.len() == 0,
            s.ha_master_address@.len() == 0,
            s.quorum_size == quorum_size,
            s.slave_ok_lag == slave_ok_lag,
    {
        AutoSwitchHAService {
            state: ServiceState::Uninitialized,
            role: Role::Master,
            current_epoch: 0,
            epoch_log: Vec::new(),
            connections: Vec::new(),
            pending: Vec::new(),
            completed: Vec::new(),
            state_waiters: Vec::new(),
            notified_waiters: Vec::new(),
            master_address: String::new(),
            ha_master_address: String::new(),
            local_committed_offset: 0,
            next_connection_id: 0,
            next_request_id: 0,
            quorum_size,
            slave_ok_lag: slave_ok_lag,
        }
    }

    /// Replays one persisted epoch record during recovery, before `start`.
    /// An entry that would break the log's monotonicity, or one replayed
    /// after startup, is refused and changes nothing.
    pub fn load_epoch_entry(&mut self, epoch: i32, start_offset: i64) -> (r: Result<(), HAError>)
        requires
            old(self).wf(),
        ensures
            final(self).wf(),
            old(self).state != ServiceState::Uninitialized ==> r == Err::<(), HAError>(
                HAError::AlreadyStarted,
            ) && *final(self) == *old(self),
            old(self).state == ServiceState::Uninitialized && !old(self).accepts_epoch_entry(
                epoch,
                start_offset,
            ) ==> r == Err::<(), HAError>(HAError::ProtocolViolation) && *final(self) == *old(self),
            old(self).state == ServiceState::Uninitialized && old(self).accepts_epoch_entry(
                epoch,
                start_offset,
            ) ==> {
                &&& r == Ok::<(), HAError>(())
                &&& final(self).epoch_log@ == old(self).epoch_log@.push(
                    (EpochEntry { epoch, start_offset }),
                )
                &&& final(self).current_epoch == epoch
                &&& final(self).local_committed_offset == (if old(self).local_committed_offset
                    >= start_offset {
                    old(self).local_committed_offset as int
                } else {
                    start_offset as int
                })
                &&& final(self).state == old(self).state
                &&& final(self).role == old(self).role
                &&& final(self).same_config(*old(self))
            },
    {
        if !matches!(self.state, ServiceState::Uninitialized) {
            return Err(HAError::AlreadyStarted);
        }
        let valid = if epoch < 0 || start_offset < 0 {
            false
        } else if self.epoch_log.len() == 0 {
            true
        } else {
            let last = self.epoch_log[self.epoch_log.len() - 1];
            epoch > last.epoch && start_offset >= last.start_offset
        };
        if !valid {
            return Err(HAError::ProtocolViolation);
        }
        self.epoch_log.push(EpochEntry { epoch, start_offset });
        self.current_epoch = epoch;
        if start_offset > self.local_committed_offset {
            self.local_committed_offset = start_offset;
        }
        Ok(())
    }

    /// Whether a replayed epoch record extends the log monotonically.
    pub open spec fn accepts_epoch_entry(self, epoch: i32, start_offset: i64) -> bool {
        &&& epoch >= 0
        &&& start_offset >= 0
        &&& (self.epoch_log@.len() > 0 ==> epoch > self.epoch_log@.last().epoch && start_offset
            >= self.epoch_log@.last().start_offset)
    }

    /// Starts the service on the recovered history: the node comes up as
    /// master at the highest recovered epoch, or at epoch 0 with an empty
    /// log. Starting twice is refused.
    pub fn start(&mut self) -> (r: Result<(), HAError>)
        requires
            old(self).wf(),
        ensures
            final(self).wf(),
            old(self).state != ServiceState::Uninitialized ==> r == Err::<(), HAError>(
                HAError::AlreadyStarted,
            ) && *final(self) == *old(self),
            old(self).state == ServiceState::Uninitialized ==> {
                &&& r == Ok::<(), HAError>(())
                &&& final(self).state == ServiceState::Running
                &&& final(self).role == Role::Master
                &&& final(self).current_epoch == old(self).current_epoch
                &&& final(self).epoch_log == old(self).epoch_log
                &&& final(self).connections@.len() == 0
                &&& final(self).pending@.len() == 0
                &&& final(self).completed == old(self).completed
                &&& final(self).local_committed_offset == old(self).local_committed_offset
                &&& final(self).next_connection_id == old(self).next_connection_id
                &&& final(self).next_request_id == old(self).next_request_id
                &&& final(self).completed == old(self).completed
                &&& final(self).state_waiters == old(self).state_waiters
                &&& final(self).notified_waiters == old(self).notified_waiters
                &&& final(self).same_config(*old(self))
            },
    {
        if !matches!(self.state, ServiceState::Uninitialized) {
            return Err(HAError::AlreadyStarted);
        }
        self.state = ServiceState::Running;
        self.role = Role::Master;
        Ok(())
    }

    /// The count of alive replica connections.
    pub fn get_connection_count(&self) -> (r: i32)
        requires
            self.wf(),
        ensures
            r as int == count_alive(self.connections@),
    {
        proof {
            lemma_count_alive_le_len(self.connections@);
        }
        let mut n: i32 = 0;
        let mut i: usize = 0;
        while i < self.connections.len()
            invariant
                self.wf(),
                0 <= i <= self.connections@.len(),
                n as int == count_alive(self.connections@.take(i as int)),
                n as int <= i as int,
            decreases self.connections@.len() - i,
        {
            proof {
                assert(self.connections@.take(i + 1).drop_last() =~= self.connections@.take(
                    i as int,
                ));
                assert(self.connections@.take(i + 1).last() == self.connections@[i as int]);
                lemma_count_alive_le_len(self.connections@.take(i as int));
            }
            if self.connections[i].alive {
                n = n + 1;
            }
            i = i + 1;
        }
        proof {
            assert(self.connections@.take(self.connections@.len() as int) =~= self.connections@);
        }
        n
    }

    /// The in-sync replica count for `master_put_where`: alive connections
    /// that have acknowledged at least that offset, plus this node itself
    /// when it is master and its committed offset has reached it.
    pub fn in_sync_replicas_nums(&self, master_put_where: i64) -> (r: i32)
        requires
            self.wf(),
        ensures
            r as int == self.spec_in_sync(master_put_where as int),
    {
        proof {
            lemma_count_in_sync_le_len(self.connections@, master_put_where as int);
        }
        let mut n: i32 = 0;
        let mut i: usize = 0;
        while i < self.connections.len()
            invariant
                self.wf(),
                0 <= i <= self.connections@.len(),
                n as int == count_in_sync(self.connections@.take(i as int), master_put_where as int),
                n as int <= i as int,
            decreases self.connections@.len() - i,
        {
            proof {
                assert(self.connections@.take(i + 1).drop_last() =~= self.connections@.take(
                    i as int,
                ));
                assert(self.connections@.take(i + 1).last() == self.connections@[i as int]);
                lemma_count_in_sync_le_len(self.connections@.take(i as int), master_put_where as int);
            }
            if self.connections[i].alive && self.connections[i].acked_offset >= master_put_where {
                n = n + 1;
            }
            i = i + 1;
        }
        proof {
            assert(self.connections@.take(self.connections@.len() as int) =~= self.connections@);
        }
        if matches!(self.role, Role::Master) && self.local_committed_offset >= master_put_where {
            n = n + 1;
        }
        n
    }

    /// The highest offset acknowledged by at least one alive slave
    /// connection; 0 when there is none.
    pub fn get_push_to_slave_max_offset(&self) -> (r: i64)
        requires
            self.wf(),
        ensures
            r as int == max_acked_offset(self.connections@),
    {
        let mut m: i64 = 0;
        let mut i: usize = 0;
        while i < self.connections.len()
            invariant
                self.wf(),
                0 <= i <= self.connections@.len(),
                m as int == max_acked_offset(self.connections@.take(i as int)),
                m >= 0,
            decreases self.connections@.len() - i,
        {
            proof {
                assert(self.connections@.take(i + 1).drop_last() =~= self.connections@.take(
                    i as int,
                ));
                assert(self.connections@.take(i + 1).last() == self.connections@[i as int]);
            }
            if self.connections[i].alive && self.connections[i].acked_offset > m {
                m = self.connections[i].acked_offset;
            }
            i = i + 1;
        }
        proof {
            assert(self.connections@.take(self.connections@.len() as int) =~= self.connections@);
        }
        m
    }

    /// Whether, as a slave, this node has caught up to `master_put_where`
    /// within the configured acceptable lag.
    pub fn is_slave_ok(&self, master_put_where: i64) -> (r: bool)
        requires
            self.wf(),
            master_put_where >= 0,
        ensures
            r == (self.state == ServiceState::Running && self.role == Role::Slave
                && master_put_where - self.local_committed_offset <= self.slave_ok_lag),
    {
        if !matches!(self.state, ServiceState::Running) || !matches!(self.role, Role::Slave) {
            return false;
        }
        if master_put_where <= self.local_committed_offset {
            true
        } else {
            master_put_where - self.local_committed_offset <= self.slave_ok_lag
        }
    }

    /// Force-completes every pending group commit request with `outcome`,
    /// in queue (ascending target-offset) order.
    fn complete_all_pending(&mut self, outcome: CommitOutcome)
        ensures
            final(self).pending@.len() == 0,
            final(self).completed@ == old(self).completed@ + released(old(self).pending@, outcome),
            final(self).state == old(self).state,
            final(self).role == old(self).role,
            final(self).current_epoch == old(self).current_epoch,
            final(self).epoch_log == old(self).epoch_log,
            final(self).connections == old(self).connections,
            final(self).state_waiters == old(self).state_waiters,
            final(self).notified_waiters == old(self).notified_waiters,
            final(self).master_address == old(self).master_address,
            final(self).ha_master_address == old(self).ha_master_address,
            final(self).local_committed_offset == old(self).local_committed_offset,
            final(self).next_connection_id == old(self).next_connection_id,
            final(self).next_request_id == old(self).next_request_id,
            final(self).same_config(*old(self)),
    {
        let ghost orig_pending = self.pending@;
        let ghost orig_completed = self.completed@;
        proof {
            vstd::std_specs::vec::axiom_spec_len(&self.pending);
        }
        let mut i: usize = 0;
        while self.pending.len() > 0
            invariant
                orig_pending == old(self).pending@,
                orig_pending.len() <= usize::MAX,
                i as int == orig_pending.len() - self.pending@.len(),
                0 <= i as int <= orig_pending.len(),
                self.pending@ == orig_pending.skip(i as int),
                self.completed@ == orig_completed + released(orig_pending.take(i as int), outcome),
                self.state == old(self).state,
                self.role == old(self).role,
                self.current_epoch == old(self).current_epoch,
                self.epoch_log == old(self).epoch_log,
                self.connections == old(self).connections,
                self.state_waiters == old(self).state_waiters,
                self.notified_waiters == old(self).notified_waiters,
                self.master_address == old(self).master_address,
                self.ha_master_address == old(self).ha_master_address,
                self.local_committed_offset == old(self).local_committed_offset,
                self.next_connection_id == old(self).next_connection_id,
                self.next_request_id == old(self).next_request_id,
                self.same_config(*old(self)),
            decreases self.pending@.len(),
        {
            let ghost before = self.pending@;
            let p = self.pending.remove(0);
            proof {
                assert(before == orig_pending.skip(i as int));
                assert(orig_pending.skip(i as int)[0] == orig_pending[0 + i as int]);
                assert(p == orig_pending[i as int]);
                assert(self.pending@ =~= orig_pending.skip(i + 1)) by {
                    assert(self.pending@ == before.remove(0));
                    assert forall|j: int|
                        0 <= j < self.pending@.len() implies self.pending@[j] == orig_pending.skip(
                        i + 1,
                    )[j] by {
                        assert(before.remove(0)[j] == before[j + 1]);
                        assert(orig_pending.skip(i as int)[j + 1] == orig_pending[j + 1
                            + i as int]);
                        assert(orig_pending.skip(i + 1)[j] == orig_pending[j + i + 1]);
                    }
                }
            }
            self.completed.push(
                CompletedRequest {
                    request_id: p.request_id,
                    target_offset: p.target_offset,
                    outcome,
                },
            );
            proof {
                assert(orig_completed + released(orig_pending.take(i + 1), outcome) =~= (
                orig_completed + released(orig_pending.take(i as int), outcome)).push(
                    completed_of(orig_pending[i as int], outcome),
                ));
            }
            i = i + 1;
        }
        proof {
            assert(orig_pending.take(orig_pending.len() as int) =~= orig_pending);
        }
    }

    /// Hands every registered connection-state observer its notification:
    /// called on each connect, disconnect or acknowledgment event.
    fn notify_state_waiters(&mut self)
        ensures
            final(self).state_waiters@.len() == 0,
            final(self).notified_waiters@ == old(self).notified_waiters@ + old(
                self,
            ).state_waiters@,
            final(self).state == old(self).state,
            final(self).role == old(self).role,
            final(self).current_epoch == old(self).current_epoch,
            final(self).epoch_log == old(self).epoch_log,
            final(self).connections == old(self).connections,
            final(self).pending == old(self).pending,
            final(self).completed == old(self).completed,
            final(self).master_address == old(self).master_address,
            final(self).ha_master_address == old(self).ha_master_address,
            final(self).local_committed_offset == old(self).local_committed_offset,
            final(self).next_connection_id == old(self).next_connection_id,
            final(self).next_request_id == old(self).next_request_id,
            final(self).same_config(*old(self)),
    {
        let mut moved: Vec<u64> = Vec::new();
        core::mem::swap(&mut moved, &mut self.state_waiters);
        self.notified_waiters.append(&mut moved);
    }

    /// Becomes master at `master_epoch`: refused as `StaleEpoch` whenever
    /// `master_epoch` does not exceed the current epoch, leaving the state
    /// untouched. On success the epoch record is appended, every existing
    /// connection is torn down, every pending group commit request is
    /// released with `RoleChanged`, and the result says whether the role
    /// actually changed.
    pub fn change_to_master(&mut self, master_epoch: i32) -> (r: Result<bool, HAError>)
        requires
            old(self).wf(),
        ensures
            final(self).wf(),
            old(self).state != ServiceState::Running ==> r == Err::<bool, HAError>(
                HAError::NotStarted,
            ) && *final(self) == *old(self),
            old(self).state == ServiceState::Running && master_epoch <= old(self).current_epoch
                ==> r == Err::<bool, HAError>(HAError::StaleEpoch) && *final(self) == *old(self),
            old(self).state == ServiceState::Running && master_epoch > old(self).current_epoch
                ==> {
                &&& r == Ok::<bool, HAError>(old(self).role != Role::Master)
                &&& final(self).state == ServiceState::Running
                &&& final(self).role == Role::Master
                &&& final(self).current_epoch == master_epoch
                &&& final(self).epoch_log@ == old(self).epoch_log@.push(
                    (EpochEntry { epoch: master_epoch, start_offset: old(self).local_committed_offset }),
                )
                &&& final(self).connections@.len() == 0
                &&& final(self).pending@.len() == 0
                &&& final(self).completed@ == old(self).completed@ + released(
                    old(self).pending@,
                    CommitOutcome::RoleChanged,
                )
                &&& final(self).state_waiters@.len() == 0
                &&& final(self).notified_waiters@ == old(self).notified_waiters@ + old(
                    self,
                ).state_waiters@
                &&& final(self).local_committed_offset == old(self).local_committed_offset
                &&& final(self).master_address == old(self).master_address
                &&& final(self).ha_master_address == old(self).ha_master_address
                &&& final(self).next_request_id == old(self).next_request_id
                &&& final(self).next_connection_id == old(self).next_connection_id
                &&& final(self).same_config(*old(self))
            },
    {
        if !matches!(self.state, ServiceState::Running) {
            return Err(HAError::NotStarted);
        }
        if master_epoch <= self.current_epoch {
            return Err(HAError::StaleEpoch);
        }
        let changed = !matches!(self.role, Role::Master);
        self.role = Role::Transitioning;
        self.epoch_log.push(
            EpochEntry { epoch: master_epoch, start_offset: self.local_committed_offset },
        );
        self.current_epoch = master_epoch;
        self.connections.clear();
        self.complete_all_pending(CommitOutcome::RoleChanged);
        self.notify_state_waiters();
        self.role = Role::Master;
        Ok(changed)
    }

    /// Advances the epoch of a node that stays master (a re-confirmed
    /// leadership): the same strict monotonicity and epoch-record append as
    /// a full transition, but live replica connections and pending
    /// requests are preserved rather than torn down.
    pub fn change_to_master_when_last_role_is_master(&mut self, master_epoch: i32) -> (r: Result<
        bool,
        HAError,
    >)
        requires
            old(self).wf(),
        ensures
            final(self).wf(),
            old(self).state != ServiceState::Running ==> r == Err::<bool, HAError>(
                HAError::NotStarted,
            ) && *final(self) == *old(self),
            old(self).state == ServiceState::Running && master_epoch <= old(self).current_epoch
                ==> r == Err::<bool, HAError>(HAError::StaleEpoch) && *final(self) == *old(self),
            old(self).state == ServiceState::Running && master_epoch > old(self).current_epoch
                ==> {
                &&& r == Ok::<bool, HAError>(old(self).role != Role::Master)
                &&& final(self).state == ServiceState::Running
                &&& final(self).role == Role::Master
                &&& final(self).current_epoch == master_epoch
                &&& final(self).epoch_log@ == old(self).epoch_log@.push(
                    (EpochEntry { epoch: master_epoch, start_offset: old(self).local_committed_offset }),
                )
                &&& final(self).connections == old(self).connections
                &&& final(self).pending == old(self).pending
                &&& final(self).completed == old(self).completed
                &&& final(self).state_waiters == old(self).state_waiters
                &&& final(self).notified_waiters == old(self).notified_waiters
                &&& final(self).local_committed_offset == old(self).local_committed_offset
                &&& final(self).master_address == old(self).master_address
                &&& final(self).ha_master_address == old(self).ha_master_address
                &&& final(self).next_request_id == old(self).next_request_id
                &&& final(self).next_connection_id == old(self).next_connection_id
                &&& final(self).same_config(*old(self))
            },
    {
        if !matches!(self.state, ServiceState::Running) {
            return Err(HAError::NotStarted);
        }
        if master_epoch <= self.current_epoch {
            return Err(HAError::StaleEpoch);
        }
        let changed = !matches!(self.role, Role::Master);
        self.epoch_log.push(
            EpochEntry { epoch: master_epoch, start_offset: self.local_committed_offset },
        );
        self.current_epoch = master_epoch;
        self.role = Role::Master;
        Ok(changed)
    }

    /// Becomes a slave of the master at `new_master_addr` under
    /// `new_master_epoch`. A lower epoch than the current one is refused as
    /// `StaleEpoch` with nothing changed; an equal epoch is allowed. The
    /// caller performs the actual network connect and passes its outcome
    /// in as `connect_ok`; on a failed connect the role rolls back, but
    /// the epoch history keeps the attempted epoch — observing a higher
    /// epoch is itself durable, by design.
    pub fn change_to_slave(
        &mut self,
        new_master_addr: &str,
        new_master_epoch: i32,
        slave_id: Option<i64>,
        connect_ok: bool,
        now: i64,
    ) -> (r: Result<bool, HAError>)
        requires
            old(self).wf(),
            now >= 0,
            old(self).next_connection_id < u64::MAX,
        ensures
            final(self).wf(),
            old(self).state != ServiceState::Running ==> r == Err::<bool, HAError>(
                HAError::NotStarted,
            ) && *final(self) == *old(self),
            old(self).state == ServiceState::Running && new_master_epoch < old(self).current_epoch
                ==> r == Err::<bool, HAError>(HAError::StaleEpoch) && *final(self) == *old(self),
            old(self).state == ServiceState::Running && new_master_epoch >= old(
                self,
            ).current_epoch ==> {
                &&& final(self).state == ServiceState::Running
                &&& final(self).current_epoch == new_master_epoch
                &&& (new_master_epoch > old(self).current_epoch ==> final(self).epoch_log@ == old(
                    self,
                ).epoch_log@.push(
                    (EpochEntry { epoch: new_master_epoch, start_offset: old(self).local_committed_offset }),
                ))
                &&& (new_master_epoch == old(self).current_epoch ==> final(self).epoch_log == old(
                    self,
                ).epoch_log)
                &&& final(self).pending@.len() == 0
                &&& final(self).completed@ == old(self).completed@ + released(
                    old(self).pending@,
                    CommitOutcome::RoleChanged,
                )
                &&& final(self).state_waiters@.len() == 0
                &&& final(self).notified_waiters@ == old(self).notified_waiters@ + old(
                    self,
                ).state_waiters@
                &&& final(self).master_address@ == new_master_addr@
                &&& final(self).ha_master_address == old(self).ha_master_address
                &&& final(self).local_committed_offset == old(self).local_committed_offset
                &&& final(self).next_request_id == old(self).next_request_id
                &&& final(self).same_config(*old(self))
                &&& (connect_ok ==> {
                    &&& r == Ok::<bool, HAError>(old(self).role != Role::Slave)
                    &&& final(self).role == Role::Slave
                    &&& final(self).connections@.len() == 1
                    &&& final(self).connections@[0].connection_id == old(self).next_connection_id
                    &&& final(self).connections@[0].peer_address@ == new_master_addr@
                    &&& final(self).connections@[0].slave_id == slave_id
                    &&& final(self).connections@[0].negotiated_epoch == new_master_epoch
                    &&& final(self).connections@[0].acked_offset == 0
                    &&& final(self).connections@[0].last_active == now
                    &&& final(self).connections@[0].alive
                    &&& final(self).next_connection_id == old(self).next_connection_id + 1
                })
                &&& (!connect_ok ==> {
                    &&& r == Err::<bool, HAError>(HAError::ConnectFailed)
                    &&& final(self).role == old(self).role
                    &&& final(self).connections@.len() == 0
                    &&& final(self).next_connection_id == old(self).next_connection_id
                })
            },
    {
        if !matches!(self.state, ServiceState::Running) {
            return Err(HAError::NotStarted);
        }
        if new_master_epoch < self.current_epoch {
            return Err(HAError::StaleEpoch);
        }
        let was_slave = matches!(self.role, Role::Slave);
        let previous_role = self.role;
        self.role = Role::Transitioning;
        if new_master_epoch > self.current_epoch {
            self.epoch_log.push(
                EpochEntry { epoch: new_master_epoch, start_offset: self.local_committed_offset },
            );
            self.current_epoch = new_master_epoch;
        }
        self.connections.clear();
        self.complete_all_pending(CommitOutcome::RoleChanged);
        self.notify_state_waiters();
        self.master_address = new_master_addr.to_string();
        if connect_ok {
            let id = self.next_connection_id;
            self.next_connection_id = id + 1;
            self.connections.push(
                ReplicaConnection {
                    connection_id: id,
                    peer_address: new_master_addr.to_string(),
                    slave_id,
                    negotiated_epoch: new_master_epoch,
                    acked_offset: 0,
                    last_active: now,
                    alive: true,
                },
            );
            self.role = Role::Slave;
            Ok(!was_slave)
        } else {
            self.role = previous_role;
            Err(HAError::ConnectFailed)
        }
    }

    /// Re-validates the existing slave link against the same master when
    /// only the epoch advanced: the epoch moves to `new_master_epoch`
    /// (recorded when it actually advances), while the role, the live
    /// connections and the pending requests are all left untouched — no
    /// teardown, no reconnect.
    pub fn change_to_slave_when_master_not_change(
        &mut self,
        new_master_addr: &str,
        new_master_epoch: i32,
    ) -> (r: Result<bool, HAError>)
        requires
            old(self).wf(),
        ensures
            final(self).wf(),
            old(self).state != ServiceState::Running ==> r == Err::<bool, HAError>(
                HAError::NotStarted,
            ) && *final(self) == *old(self),
            old(self).state == ServiceState::Running && new_master_epoch < old(self).current_epoch
                ==> r == Err::<bool, HAError>(HAError::StaleEpoch) && *final(self) == *old(self),
            old(self).state == ServiceState::Running && new_master_epoch >= old(
                self,
            ).current_epoch ==> {
                &&& r == Ok::<bool, HAError>(false)
                &&& final(self).state == ServiceState::Running
                &&& final(self).role == old(self).role
                &&& final(self).current_epoch == new_master_epoch
                &&& (new_master_epoch > old(self).current_epoch ==> final(self).epoch_log@ == old(
                    self,
                ).epoch_log@.push(
                    (EpochEntry { epoch: new_master_epoch, start_offset: old(self).local_committed_offset }),
                ))
                &&& (new_master_epoch == old(self).current_epoch ==> final(self).epoch_log == old(
                    self,
                ).epoch_log)
                &&& final(self).connections == old(self).connections
                &&& final(self).pending == old(self).pending
                &&& final(self).completed == old(self).completed
                &&& final(self).state_waiters == old(self).state_waiters
                &&& final(self).notified_waiters == old(self).notified_waiters
                &&& final(self).master_address@ == new_master_addr@
                &&& final(self).ha_master_address == old(self).ha_master_address
                &&& final(self).local_committed_offset == old(self).local_committed_offset
                &&& final(self).next_connection_id == old(self).next_connection_id
                &&& final(self).next_request_id == old(self).next_request_id
                &&& final(self).same_config(*old(self))
            },
    {
        if !matches!(self.state, ServiceState::Running) {
            return Err(HAError::NotStarted);
        }
        if new_master_epoch < self.current_epoch {
            return Err(HAError::StaleEpoch);
        }
        if new_master_epoch > self.current_epoch {
            self.epoch_log.push(
                EpochEntry { epoch: new_master_epoch, start_offset: self.local_committed_offset },
            );
            self.current_epoch = new_master_epoch;
        }
        self.master_address = new_master_addr.to_string();
        Ok(false)
    }

    /// Stops the service: every replica connection is torn down, every
    /// pending group commit request is force-completed with `Shutdown`,
    /// and the state becomes terminal. The caller owns the best-effort
    /// wait of up to `await_millis` for in-flight work; the state change
    /// itself is immediate.
    #[allow(unused_variables)]
    pub fn shutdown(&mut self, await_millis: u64)
        requires
            old(self).wf(),
        ensures
            final(self).wf(),
            final(self).state == ServiceState::Stopped,
            final(self).role == old(self).role,
            final(self).current_epoch == old(self).current_epoch,
            final(self).epoch_log == old(self).epoch_log,
            final(self).connections@.len() == 0,
            final(self).pending@.len() == 0,
            final(self).completed@ == old(self).completed@ + released(
                old(self).pending@,
                CommitOutcome::Shutdown,
            ),
            final(self).state_waiters@.len() == 0,
            final(self).notified_waiters@ == old(self).notified_waiters@ + old(
                self,
            ).state_waiters@,
            final(self).local_committed_offset == old(self).local_committed_offset,
            final(self).master_address == old(self).master_address,
            final(self).ha_master_address == old(self).ha_master_address,
            final(self).next_request_id == old(self).next_request_id,
            final(self).same_config(*old(self)),
    {
        self.connections.clear();
        self.complete_all_pending(CommitOutcome::Shutdown);
        self.notify_state_waiters();
        self.state = ServiceState::Stopped;
    }

    /// Whether `i` is the index of the connection with the given id.
    pub open spec fn conn_with_id(self, id: u64, i: int) -> bool {
        0 <= i < self.connections@.len() && self.connections@[i].connection_id == id
    }

    /// Whether some registered connection carries the given id.
    pub open spec fn has_conn(self, id: u64) -> bool {
        exists|i: int|
            0 <= i < self.connections@.len() && (#[trigger] self.connections@[i]).connection_id
                == id
    }

    /// The satisfied prefix length of this state's own pending queue.
    pub open spec fn spec_sat_prefix(self) -> nat {
        sat_prefix_len(
            self.connections@,
            self.role == Role::Master,
            self.local_committed_offset as int,
            self.quorum_size as int,
            self.pending@,
        )
    }

    /// Releases, in ascending target-offset order, every pending request
    /// whose target offset the current replication state satisfies: the
    /// satisfied requests form exactly the front of the ordered queue, and
    /// each is completed with `Success`.
    fn release_satisfied(&mut self)
        requires
            old(self).wf(),
        ensures
            final(self).wf(),
            final(self).pending@ == old(self).pending@.skip(old(self).spec_sat_prefix() as int),
            final(self).completed@ == old(self).completed@ + released(
                old(self).pending@.take(old(self).spec_sat_prefix() as int),
                CommitOutcome::Success,
            ),
            final(self).state == old(self).state,
            final(self).role == old(self).role,
            final(self).current_epoch == old(self).current_epoch,
            final(self).epoch_log == old(self).epoch_log,
            final(self).connections == old(self).connections,
            final(self).state_waiters == old(self).state_waiters,
            final(self).notified_waiters == old(self).notified_waiters,
            final(self).master_address == old(self).master_address,
            final(self).ha_master_address == old(self).ha_master_address,
            final(self).local_committed_offset == old(self).local_committed_offset,
            final(self).next_connection_id == old(self).next_connection_id,
            final(self).next_request_id == old(self).next_request_id,
            final(self).same_config(*old(self)),
    {
        let ghost orig_pending = self.pending@;
        let ghost orig_completed = self.completed@;
        proof {
            vstd::std_specs::vec::axiom_spec_len(&self.pending);
        }
        let mut i: usize = 0;
        while self.pending.len() > 0 && self.in_sync_replicas_nums(
            self.pending[0].target_offset,
        ) >= self.quorum_size
            invariant
                old(self).wf(),
                self.wf(),
                orig_pending == old(self).pending@,
                orig_completed == old(self).completed@,
                orig_pending.len() <= usize::MAX,
                0 <= i as int <= orig_pending.len(),
                i as int == orig_pending.len() - self.pending@.len(),
                self.pending@ == orig_pending.skip(i as int),
                self.completed@ == orig_completed + released(
                    orig_pending.take(i as int),
                    CommitOutcome::Success,
                ),
                forall|j: int|
                    0 <= j < i as int ==> quorum_ok(
                        old(self).connections@,
                        old(self).role == Role::Master,
                        old(self).local_committed_offset as int,
                        old(self).quorum_size as int,
                        (#[trigger] orig_pending[j]).target_offset as int,
                    ),
                self.state == old(self).state,
                self.role == old(self).role,
                self.current_epoch == old(self).current_epoch,
                self.epoch_log == old(self).epoch_log,
                self.connections == old(self).connections,
                self.state_waiters == old(self).state_waiters,
                self.notified_waiters == old(self).notified_waiters,
                self.master_address == old(self).master_address,
                self.ha_master_address == old(self).ha_master_address,
                self.local_committed_offset == old(self).local_committed_offset,
                self.next_connection_id == old(self).next_connection_id,
                self.next_request_id == old(self).next_request_id,
                self.same_config(*old(self)),
            decreases self.pending@.len(),
        {
            let ghost before = self.pending@;
            let p = self.pending.remove(0);
            proof {
                assert(orig_pending.skip(i as int)[0] == orig_pending[0 + i as int]);
                assert(p == orig_pending[i as int]);
                assert(self.pending@ =~= orig_pending.skip(i + 1)) by {
                    assert(self.pending@ == before.remove(0));
                    assert forall|j: int|
                        0 <= j < self.pending@.len() implies self.pending@[j] == orig_pending.skip(
                        i + 1,
                    )[j] by {
                        assert(before.remove(0)[j] == before[j + 1]);
                        assert(orig_pending.skip(i as int)[j + 1] == orig_pending[j + 1
                            + i as int]);
                        assert(orig_pending.skip(i + 1)[j] == orig_pending[j + i + 1]);
                    }
                }
            }
            self.completed.push(
                CompletedRequest {
                    request_id: p.request_id,
                    target_offset: p.target_offset,
                    outcome: CommitOutcome::Success,
                },
            );
            proof {
                assert(orig_completed + released(
                    orig_pending.take(i + 1),
                    CommitOutcome::Success,
                ) =~= (orig_completed + released(
                    orig_pending.take(i as int),
                    CommitOutcome::Success,
                )).push(completed_of(orig_pending[i as int], CommitOutcome::Success)));
                assert forall|a: int, b: int|
                    0 <= a < b < self.pending@.len() implies (
                #[trigger] self.pending@[a]).target_offset <= (
                #[trigger] self.pending@[b]).target_offset by {
                    assert(self.pending@[a] == orig_pending[a + i + 1]);
                    assert(self.pending@[b] == orig_pending[b + i + 1]);
                    assert(old(self).pending@[a + i + 1].target_offset <= old(self).pending@[b + i
                        + 1].target_offset);
                }
                assert forall|a: int, b: int|
                    0 <= a < b < self.pending@.len() implies (
                #[trigger] self.pending@[a]).request_id != (
                #[trigger] self.pending@[b]).request_id by {
                    assert(self.pending@[a] == orig_pending[a + i + 1]);
                    assert(self.pending@[b] == orig_pending[b + i + 1]);
                    assert(old(self).pending@[a + i + 1].request_id != old(self).pending@[b + i
                        + 1].request_id);
                }
                assert forall|a: int|
                    0 <= a < self.pending@.len() implies (#[trigger] self.pending@[a]).request_id
                    < self.next_request_id && self.pending@[a].target_offset >= 0
                    && self.pending@[a].deadline >= 0 by {
                    assert(self.pending@[a] == orig_pending[a + i + 1]);
                    assert(old(self).pending@[a + i + 1].request_id < old(self).next_request_id);
                }
                assert forall|a: int, b: int|
                    0 <= a < self.completed@.len() && 0 <= b < self.pending@.len() implies (
                #[trigger] self.completed@[a]).request_id != (
                #[trigger] self.pending@[b]).request_id by {
                    assert(self.pending@[b] == orig_pending[b + i + 1]);
                    if a < orig_completed.len() {
                        assert(self.completed@[a] == orig_completed[a]);
                        assert(old(self).completed@[a].request_id != old(self).pending@[b + i
                            + 1].request_id);
                    } else {
                        assert(self.completed@[a] == completed_of(
                            orig_pending[a - orig_completed.len()],
                            CommitOutcome::Success,
                        ));
                        assert(old(self).pending@[a - orig_completed.len()].request_id != old(
                            self,
                        ).pending@[b + i + 1].request_id);
                    }
                }
                assert forall|a: int, b: int|
                    0 <= a < b < self.completed@.len() implies (
                #[trigger] self.completed@[a]).request_id != (
                #[trigger] self.completed@[b]).request_id by {
                    if b >= orig_completed.len() {
                        assert(self.completed@[b] == completed_of(
                            orig_pending[b - orig_completed.len()],
                            CommitOutcome::Success,
                        ));
                        if a < orig_completed.len() {
                            assert(self.completed@[a] == orig_completed[a]);
                            assert(old(self).completed@[a].request_id != old(self).pending@[b
                                - orig_completed.len()].request_id);
                        } else {
                            assert(self.completed@[a] == completed_of(
                                orig_pending[a - orig_completed.len()],
                                CommitOutcome::Success,
                            ));
                            assert(old(self).pending@[a - orig_completed.len()].request_id != old(
                                self,
                            ).pending@[b - orig_completed.len()].request_id);
                        }
                    }
                }
                assert forall|a: int|
                    0 <= a < self.completed@.len() implies (
                #[trigger] self.completed@[a]).request_id < self.next_request_id by {
                    if a < orig_completed.len() {
                        assert(self.completed@[a] == orig_completed[a]);
                        assert(old(self).completed@[a].request_id < old(self).next_request_id);
                    } else {
                        assert(self.completed@[a] == completed_of(
                            orig_pending[a - orig_completed.len()],
                            CommitOutcome::Success,
                        ));
                        assert(old(self).pending@[a - orig_completed.len()].request_id < old(
                            self,
                        ).next_request_id);
                    }
                }
            }
            i = i + 1;
        }
        proof {
            let m = old(self).role == Role::Master;
            let l = old(self).local_committed_offset as int;
            let q = old(self).quorum_size as int;
            if self.pending.len() > 0 {
                assert(orig_pending.skip(i as int)[0] == orig_pending[0 + i as int]);
                assert(!quorum_ok(
                    old(self).connections@,
                    m,
                    l,
                    q,
                    orig_pending[i as int].target_offset as int,
                ));
            }
            lemma_sat_prefix_characterize(
                old(self).connections@,
                m,
                l,
                q,
                orig_pending,
                i as int,
            );
        }
    }

    /// Registers a group commit request and hands back its ticket. When
    /// the current replication state already satisfies the target offset
    /// the request completes immediately with `Success`; when the service
    /// is not running it completes immediately with `Shutdown`; otherwise
    /// it joins the pending queue at its target-offset position and waits.
    pub fn put_request(&mut self, request: GroupCommitRequest) -> (r: u64)
        requires
            old(self).wf(),
            old(self).next_request_id < u64::MAX,
            request.target_offset >= 0,
            request.deadline >= 0,
        ensures
            final(self).wf(),
            r == old(self).next_request_id,
            final(self).next_request_id == old(self).next_request_id + 1,
            old(self).state != ServiceState::Running ==> final(self).pending == old(self).pending
                && final(self).completed@ == old(self).completed@.push(
                (CompletedRequest {
                    request_id: r,
                    target_offset: request.target_offset,
                    outcome: CommitOutcome::Shutdown,
                }),
            ),
            old(self).state == ServiceState::Running && old(self).spec_quorum_ok(
                request.target_offset as int,
            ) ==> final(self).pending == old(self).pending && final(self).completed@ == old(
                self,
            ).completed@.push(
                (CompletedRequest {
                    request_id: r,
                    target_offset: request.target_offset,
                    outcome: CommitOutcome::Success,
                }),
            ),
            old(self).state == ServiceState::Running && !old(self).spec_quorum_ok(
                request.target_offset as int,
            ) ==> final(self).completed == old(self).completed && final(self).pending@ == old(
                self,
            ).pending@.insert(
                insert_pos(old(self).pending@, request.target_offset as int) as int,
                (PendingRequest {
                    request_id: r,
                    target_offset: request.target_offset,
                    deadline: request.deadline,
                }),
            ),
            final(self).state == old(self).state,
            final(self).role == old(self).role,
            final(self).current_epoch == old(self).current_epoch,
            final(self).epoch_log == old(self).epoch_log,
            final(self).connections == old(self).connections,
            final(self).state_waiters == old(self).state_waiters,
            final(self).notified_waiters == old(self).notified_waiters,
            final(self).master_address == old(self).master_address,
            final(self).ha_master_address == old(self).ha_master_address,
            final(self).local_committed_offset == old(self).local_committed_offset,
            final(self).next_connection_id == old(self).next_connection_id,
            final(self).same_config(*old(self)),
    {
        let id = self.next_request_id;
        self.next_request_id = id + 1;
        if !matches!(self.state, ServiceState::Running) {
            self.completed.push(
                CompletedRequest {
                    request_id: id,
                    target_offset: request.target_offset,
                    outcome: CommitOutcome::Shutdown,
                },
            );
            return id;
        }
        let n = self.in_sync_replicas_nums(request.target_offset);
        if n >= self.quorum_size {
            self.completed.push(
                CompletedRequest {
                    request_id: id,
                    target_offset: request.target_offset,
                    outcome: CommitOutcome::Success,
                },
            );
            return id;
        }
        proof {
            vstd::std_specs::vec::axiom_spec_len(&self.pending);
        }
        let mut pos: usize = 0;
        while pos < self.pending.len() && self.pending[pos].target_offset <= request.target_offset
            invariant
                old(self).wf(),
                self.pending == old(self).pending,
                self.pending@.len() <= usize::MAX,
                0 <= pos as int <= self.pending@.len(),
                forall|j: int|
                    0 <= j < pos as int ==> (#[trigger] self.pending@[j]).target_offset
                        <= request.target_offset,
            decreases self.pending@.len() - pos,
        {
            pos = pos + 1;
        }
        proof {
            lemma_insert_pos_characterize(
                self.pending@,
                request.target_offset as int,
                pos as int,
            );
            lemma_insert_pos_splits(self.pending@, request.target_offset as int);
        }
        let pr = PendingRequest {
            request_id: id,
            target_offset: request.target_offset,
            deadline: request.deadline,
        };
        let ghost before = self.pending@;
        self.pending.insert(pos, pr);
        proof {
            assert forall|a: int, b: int|
                0 <= a < b < self.pending@.len() implies (
            #[trigger] self.pending@[a]).target_offset <= (
            #[trigger] self.pending@[b]).target_offset by {
                if a < pos as int && b < pos as int {
                    assert(self.pending@[a] == before[a] && self.pending@[b] == before[b]);
                } else if a < pos as int && b == pos as int {
                    assert(self.pending@[a] == before[a]);
                } else if a < pos as int && b > pos as int {
                    assert(self.pending@[a] == before[a] && self.pending@[b] == before[b - 1]);
                } else if a == pos as int {
                    assert(self.pending@[b] == before[b - 1]);
                } else {
                    assert(self.pending@[a] == before[a - 1] && self.pending@[b] == before[b - 1]);
                }
            }
            assert forall|a: int, b: int|
                0 <= a < b < self.pending@.len() implies (#[trigger] self.pending@[a]).request_id
                != (#[trigger] self.pending@[b]).request_id by {
                assert(self.pending@[a] == if a < pos as int {
                    before[a]
                } else if a == pos as int {
                    pr
                } else {
                    before[a - 1]
                });
                assert(self.pending@[b] == if b < pos as int {
                    before[b]
                } else if b == pos as int {
                    pr
                } else {
                    before[b - 1]
                });
            }
            assert forall|a: int|
                0 <= a < self.pending@.len() implies (#[trigger] self.pending@[a]).request_id
                < self.next_request_id && self.pending@[a].target_offset >= 0
                && self.pending@[a].deadline >= 0 by {
                assert(self.pending@[a] == if a < pos as int {
                    before[a]
                } else if a == pos as int {
                    pr
                } else {
                    before[a - 1]
                });
            }
            assert forall|a: int, b: int|
                0 <= a < self.completed@.len() && 0 <= b < self.pending@.len() implies (
            #[trigger] self.completed@[a]).request_id != (#[trigger] self.pending@[b]).request_id by {
                assert(self.pending@[b] == if b < pos as int {
                    before[b]
                } else if b == pos as int {
                    pr
                } else {
                    before[b - 1]
                });
            }
        }
        id
    }

    /// Raises this node's own committed offset (it never moves backwards)
    /// and releases whatever front segment of the pending queue the new
    /// state satisfies.
    pub fn update_local_committed_offset(&mut self, offset: i64)
        requires
            old(self).wf(),
            offset >= 0,
        ensures
            final(self).wf(),
            final(self).local_committed_offset == (if offset > old(self).local_committed_offset {
                offset as int
            } else {
                old(self).local_committed_offset as int
            }),
            final(self).pending@ == old(self).pending@.skip(
                sat_prefix_len(
                    old(self).connections@,
                    old(self).role == Role::Master,
                    final(self).local_committed_offset as int,
                    old(self).quorum_size as int,
                    old(self).pending@,
                ) as int,
            ),
            final(self).completed@ == old(self).completed@ + released(
                old(self).pending@.take(
                    sat_prefix_len(
                        old(self).connections@,
                        old(self).role == Role::Master,
                        final(self).local_committed_offset as int,
                        old(self).quorum_size as int,
                        old(self).pending@,
                    ) as int,
                ),
                CommitOutcome::Success,
            ),
            final(self).state == old(self).state,
            final(self).role == old(self).role,
            final(self).current_epoch == old(self).current_epoch,
            final(self).epoch_log == old(self).epoch_log,
            final(self).connections == old(self).connections,
            final(self).state_waiters == old(self).state_waiters,
            final(self).notified_waiters == old(self).notified_waiters,
            final(self).master_address == old(self).master_address,
            final(self).ha_master_address == old(self).ha_master_address,
            final(self).next_connection_id == old(self).next_connection_id,
            final(self).next_request_id == old(self).next_request_id,
            final(self).same_config(*old(self)),
    {
        if offset > self.local_committed_offset {
            self.local_committed_offset = offset;
        }
        self.release_satisfied();
    }

    /// Feeds one replication acknowledgment from the peer behind
    /// `connection_id` into the controller: the connection's progress and
    /// activity stamp advance, newly satisfied pending requests are
    /// released in ascending target-offset order, and registered state
    /// observers are notified. An acknowledgment running backwards is a
    /// protocol violation: that connection is dropped, the service stays
    /// up. An acknowledgment for an unknown connection changes nothing.
    pub fn on_ack_received(&mut self, connection_id: u64, offset: i64, now: i64) -> (r: Result<
        (),
        HAError,
    >)
        requires
            old(self).wf(),
            offset >= 0,
            now >= 0,
        ensures
            final(self).wf(),
            !old(self).has_conn(connection_id) ==> r == Ok::<(), HAError>(()) && *final(self)
                == *old(self),
            forall|i: int|
                old(self).conn_with_id(connection_id, i) && offset < old(self).connections@[
                    i
                ].acked_offset ==> {
                    &&& r == Err::<(), HAError>(HAError::ProtocolViolation)
                    &&& final(self).connections@ == old(self).connections@.remove(i)
                    &&& final(self).pending == old(self).pending
                    &&& final(self).completed == old(self).completed
                    &&& final(self).state_waiters@.len() == 0
                    &&& final(self).notified_waiters@ == old(self).notified_waiters@ + old(
                        self,
                    ).state_waiters@
                },
            forall|i: int|
                old(self).conn_with_id(connection_id, i) && offset >= old(self).connections@[
                    i
                ].acked_offset ==> {
                    &&& r == Ok::<(), HAError>(())
                    &&& final(self).connections@ == old(self).connections@.update(
                        i,
                        (ReplicaConnection {
                            connection_id,
                            peer_address: final(self).connections@[i].peer_address,
                            slave_id: old(self).connections@[i].slave_id,
                            negotiated_epoch: old(self).connections@[i].negotiated_epoch,
                            acked_offset: offset,
                            last_active: now,
                            alive: true,
                        }),
                    )
                    &&& final(self).connections@[i].peer_address == old(self).connections@[
                        i
                    ].peer_address
                    &&& final(self).pending@ == old(self).pending@.skip(
                        sat_prefix_len(
                            final(self).connections@,
                            old(self).role == Role::Master,
                            old(self).local_committed_offset as int,
                            old(self).quorum_size as int,
                            old(self).pending@,
                        ) as int,
                    )
                    &&& final(self).completed@ == old(self).completed@ + released(
                        old(self).pending@.take(
                            sat_prefix_len(
                                final(self).connections@,
                                old(self).role == Role::Master,
                                old(self).local_committed_offset as int,
                                old(self).quorum_size as int,
                                old(self).pending@,
                            ) as int,
                        ),
                        CommitOutcome::Success,
                    )
                    &&& final(self).state_waiters@.len() == 0
                    &&& final(self).notified_waiters@ == old(self).notified_waiters@ + old(
                        self,
                    ).state_waiters@
                },
            final(self).state == old(self).state,
            final(self).role == old(self).role,
            final(self).current_epoch == old(self).current_epoch,
            final(self).epoch_log == old(self).epoch_log,
            final(self).master_address == old(self).master_address,
            final(self).ha_master_address == old(self).ha_master_address,
            final(self).local_committed_offset == old(self).local_committed_offset,
            final(self).next_connection_id == old(self).next_connection_id,
            final(self).next_request_id == old(self).next_request_id,
            final(self).same_config(*old(self)),
    {
        let mut idx: usize = 0;
        let mut found = false;
        while idx < self.connections.len() && !found
            invariant
                old(self).wf(),
                self.connections == old(self).connections,
                0 <= idx as int <= self.connections@.len(),
                !found ==> forall|j: int|
                    0 <= j < idx as int ==> (#[trigger] self.connections@[j]).connection_id
                        != connection_id,
                found ==> (idx as int) < self.connections@.len() && self.connections@[
                    idx as int
                ].connection_id == connection_id,
            decreases self.connections@.len() - idx + (if found {
                0int
            } else {
                1int
            }),
        {
            if self.connections[idx].connection_id == connection_id {
                found = true;
            } else {
                idx = idx + 1;
            }
        }
        if !found {
            return Ok(());
        }
        let ghost i = idx as int;
        proof {
            assert(old(self).conn_with_id(connection_id, i));
            assert forall|j: int|
                old(self).conn_with_id(connection_id, j) implies j == i by {
                if j != i {
                    assert(old(self).connections@[i].connection_id != old(self).connections@[
                        j
                    ].connection_id);
                }
            }
        }
        if offset < self.connections[idx].acked_offset {
            let ghost before = self.connections@;
            self.connections.remove(idx);
            proof {
                assert forall|a: int|
                    0 <= a < self.connections@.len() implies (
                #[trigger] self.connections@[a]).wf() && self.connections@[a].alive
                    && self.connections@[a].connection_id < self.next_connection_id by {
                    assert(self.connections@[a] == if a < i {
                        before[a]
                    } else {
                        before[a + 1]
                    });
                }
                assert forall|a: int, b: int|
                    0 <= a < b < self.connections@.len() implies (
                #[trigger] self.connections@[a]).connection_id != (
                #[trigger] self.connections@[b]).connection_id by {
                    assert(self.connections@[a] == if a < i {
                        before[a]
                    } else {
                        before[a + 1]
                    });
                    assert(self.connections@[b] == if b < i {
                        before[b]
                    } else {
                        before[b + 1]
                    });
                }
            }
            self.notify_state_waiters();
            return Err(HAError::ProtocolViolation);
        }
        let kept = self.connections[idx].snapshot();
        let updated = ReplicaConnection {
            connection_id: kept.connection_id,
            peer_address: kept.peer_address,
            slave_id: kept.slave_id,
            negotiated_epoch: kept.negotiated_epoch,
            acked_offset: offset,
            last_active: now,
            alive: kept.alive,
        };
        let ghost before = self.connections@;
        self.connections.remove(idx);
        self.connections.insert(idx, updated);
        proof {
            assert(self.connections@ =~= before.update(i, updated));
            assert forall|a: int|
                0 <= a < self.connections@.len() implies (#[trigger] self.connections@[a]).wf()
                && self.connections@[a].alive && self.connections@[a].connection_id
                < self.next_connection_id by {
                if a != i {
                    assert(self.connections@[a] == before[a]);
                }
            }
            assert forall|a: int, b: int|
                0 <= a < b < self.connections@.len() implies (
            #[trigger] self.connections@[a]).connection_id != (
            #[trigger] self.connections@[b]).connection_id by {
                assert(before[a].connection_id != before[b].connection_id);
            }
        }
        self.release_satisfied();
        self.notify_state_waiters();
        Ok(())
    }

    /// Completes, with `Timeout`, every pending request whose deadline has
    /// passed at `now`, regardless of quorum state; the rest stay pending,
    /// in order.
    pub fn evaluate_timeouts(&mut self, now: i64)
        requires
            old(self).wf(),
            now >= 0,
        ensures
            final(self).wf(),
            final(self).pending@ == keep_live(old(self).pending@, now as int),
            final(self).completed@ == old(self).completed@ + released(
                timed_out(old(self).pending@, now as int),
                CommitOutcome::Timeout,
            ),
            final(self).state == old(self).state,
            final(self).role == old(self).role,
            final(self).current_epoch == old(self).current_epoch,
            final(self).epoch_log == old(self).epoch_log,
            final(self).connections == old(self).connections,
            final(self).state_waiters == old(self).state_waiters,
            final(self).notified_waiters == old(self).notified_waiters,
            final(self).master_address == old(self).master_address,
            final(self).ha_master_address == old(self).ha_master_address,
            final(self).local_committed_offset == old(self).local_committed_offset,
            final(self).next_connection_id == old(self).next_connection_id,
            final(self).next_request_id == old(self).next_request_id,
            final(self).same_config(*old(self)),
    {
        let ghost orig_pending = self.pending@;
        let ghost orig_completed = self.completed@;
        proof {
            vstd::std_specs::vec::axiom_spec_len(&self.pending);
        }
        let mut kept: Vec<PendingRequest> = Vec::new();
        proof {
            assert(orig_pending.skip(0) =~= orig_pending);
            assert(kept@ + keep_live(orig_pending, now as int) =~= keep_live(
                orig_pending,
                now as int,
            ));
        }
        let mut i: usize = 0;
        while self.pending.len() > 0
            invariant
                old(self).wf(),
                orig_pending == old(self).pending@,
                orig_completed == old(self).completed@,
                orig_pending.len() <= usize::MAX,
                0 <= i as int <= orig_pending.len(),
                i as int == orig_pending.len() - self.pending@.len(),
                self.pending@ == orig_pending.skip(i as int),
                kept@ + keep_live(orig_pending.skip(i as int), now as int) == keep_live(
                    orig_pending,
                    now as int,
                ),
                self.completed@ + released(
                    timed_out(orig_pending.skip(i as int), now as int),
                    CommitOutcome::Timeout,
                ) == orig_completed + released(
                    timed_out(orig_pending, now as int),
                    CommitOutcome::Timeout,
                ),
                self.state == old(self).state,
                self.role == old(self).role,
                self.current_epoch == old(self).current_epoch,
                self.epoch_log == old(self).epoch_log,
                self.connections == old(self).connections,
                self.state_waiters == old(self).state_waiters,
                self.notified_waiters == old(self).notified_waiters,
                self.master_address == old(self).master_address,
                self.ha_master_address == old(self).ha_master_address,
                self.local_committed_offset == old(self).local_committed_offset,
                self.next_connection_id == old(self).next_connection_id,
                self.next_request_id == old(self).next_request_id,
                self.same_config(*old(self)),
            decreases self.pending@.len(),
        {
            let ghost before = self.pending@;
            let p = self.pending.remove(0);
            proof {
                assert(orig_pending.skip(i as int)[0] == orig_pending[0 + i as int]);
                assert(p == orig_pending[i as int]);
                assert(self.pending@ =~= orig_pending.skip(i + 1)) by {
                    assert(self.pending@ == before.remove(0));
                    assert forall|j: int|
                        0 <= j < self.pending@.len() implies self.pending@[j] == orig_pending.skip(
                        i + 1,
                    )[j] by {
                        assert(before.remove(0)[j] == before[j + 1]);
                        assert(orig_pending.skip(i as int)[j + 1] == orig_pending[j + 1
                            + i as int]);
                        assert(orig_pending.skip(i + 1)[j] == orig_pending[j + i + 1]);
                    }
                }
                assert(orig_pending.skip(i as int).drop_first() =~= orig_pending.skip(i + 1));
            }
            if p.deadline >= now {
                let ghost kept_before = kept@;
                kept.push(p);
                proof {
                    assert(keep_live(orig_pending.skip(i as int), now as int) == seq![p]
                        + keep_live(orig_pending.skip(i + 1), now as int));
                    assert(kept@ + keep_live(orig_pending.skip(i + 1), now as int)
                        =~= kept_before + keep_live(orig_pending.skip(i as int), now as int));
                    assert(timed_out(orig_pending.skip(i as int), now as int) == timed_out(
                        orig_pending.skip(i + 1),
                        now as int,
                    ));
                }
            } else {
                let ghost completed_before = self.completed@;
                self.completed.push(
                    CompletedRequest {
                        request_id: p.request_id,
                        target_offset: p.target_offset,
                        outcome: CommitOutcome::Timeout,
                    },
                );
                proof {
                    assert(keep_live(orig_pending.skip(i as int), now as int) == keep_live(
                        orig_pending.skip(i + 1),
                        now as int,
                    ));
                    assert(timed_out(orig_pending.skip(i as int), now as int) == seq![p]
                        + timed_out(orig_pending.skip(i + 1), now as int));
                    assert(released(
                        seq![p] + timed_out(orig_pending.skip(i + 1), now as int),
                        CommitOutcome::Timeout,
                    ) =~= seq![completed_of(p, CommitOutcome::Timeout)] + released(
                        timed_out(orig_pending.skip(i + 1), now as int),
                        CommitOutcome::Timeout,
                    ));
                    assert(self.completed@ + released(
                        timed_out(orig_pending.skip(i + 1), now as int),
                        CommitOutcome::Timeout,
                    ) =~= completed_before + released(
                        timed_out(orig_pending.skip(i as int), now as int),
                        CommitOutcome::Timeout,
                    ));
                }
            }
            i = i + 1;
        }
        proof {
            assert(orig_pending.skip(orig_pending.len() as int) =~= Seq::<PendingRequest>::empty());
            assert(kept@ + keep_live(orig_pending.skip(orig_pending.len() as int), now as int)
                =~= kept@);
            assert(self.completed@ + released(
                timed_out(orig_pending.skip(orig_pending.len() as int), now as int),
                CommitOutcome::Timeout,
            ) =~= self.completed@);
        }
        self.pending = kept;
        proof {
            let live = keep_live(orig_pending, now as int);
            let dead = timed_out(orig_pending, now as int);
            lemma_keep_live_wf(orig_pending, now as int);
            lemma_timed_out_distinct(orig_pending, now as int);
            lemma_deadline_split_contains(orig_pending, now as int);
            lemma_deadline_split_bounds(orig_pending, now as int);
            assert forall|a: int|
                0 <= a < live.len() implies (#[trigger] live[a]).request_id < self.next_request_id
                && live[a].target_offset >= 0 && live[a].deadline >= 0 by {
                assert(live.contains(live[a]));
                assert(orig_pending.contains(live[a]));
                let w = choose|w: int| 0 <= w < orig_pending.len() && orig_pending[w] == live[a];
                assert(old(self).pending@[w].request_id < old(self).next_request_id);
            }
            assert forall|a: int|
                0 <= a < dead.len() implies (#[trigger] dead[a]).request_id
                < self.next_request_id by {
                assert(dead.contains(dead[a]));
                assert(orig_pending.contains(dead[a]));
                let w = choose|w: int| 0 <= w < orig_pending.len() && orig_pending[w] == dead[a];
                assert(old(self).pending@[w].request_id < old(self).next_request_id);
            }
            assert forall|a: int, b: int|
                0 <= a < self.completed@.len() && 0 <= b < live.len() implies (
            #[trigger] self.completed@[a]).request_id != (#[trigger] live[b]).request_id by {
                assert(live.contains(live[b]));
                assert(orig_pending.contains(live[b]));
                let w1 = choose|w: int| 0 <= w < orig_pending.len() && orig_pending[w] == live[b];
                if a < orig_completed.len() {
                    assert(self.completed@[a] == orig_completed[a]);
                    assert(old(self).completed@[a].request_id != old(self).pending@[
                        w1
                    ].request_id);
                } else {
                    assert(self.completed@[a] == completed_of(
                        dead[a - orig_completed.len()],
                        CommitOutcome::Timeout,
                    ));
                    let d = dead[a - orig_completed.len()];
                    assert(dead.contains(d));
                    assert(orig_pending.contains(d));
                    let w2 = choose|w: int| 0 <= w < orig_pending.len() && orig_pending[w] == d;
                    if w1 == w2 {
                        assert(live[b].deadline >= now && d.deadline < now);
                    } else {
                        assert(old(self).pending@[w1].request_id != old(self).pending@[
                            w2
                        ].request_id);
                    }
                }
            }
            assert forall|a: int, b: int|
                0 <= a < b < self.completed@.len() implies (
            #[trigger] self.completed@[a]).request_id != (
            #[trigger] self.completed@[b]).request_id by {
                if b >= orig_completed.len() {
                    let db = dead[b - orig_completed.len()];
                    assert(self.completed@[b] == completed_of(db, CommitOutcome::Timeout));
                    assert(dead.contains(db));
                    assert(orig_pending.contains(db));
                    let w2 = choose|w: int| 0 <= w < orig_pending.len() && orig_pending[w] == db;
                    if a < orig_completed.len() {
                        assert(self.completed@[a] == orig_completed[a]);
                        assert(old(self).completed@[a].request_id != old(self).pending@[
                            w2
                        ].request_id);
                    } else {
                        assert(self.completed@[a] == completed_of(
                            dead[a - orig_completed.len()],
                            CommitOutcome::Timeout,
                        ));
                        assert(dead[a - orig_completed.len()].request_id != db.request_id);
                    }
                }
            }
        }
    }

    /// Registers a newly accepted replica connection and hands back its
    /// connection id. Accepted only while the service runs; a connection
    /// state change notifies registered observers, and any pending request
    /// the grown registry now satisfies is released.
    pub fn add_connection(
        &mut self,
        peer_address: &str,
        slave_id: Option<i64>,
        negotiated_epoch: i32,
        now: i64,
    ) -> (r: Result<u64, HAError>)
        requires
            old(self).wf(),
            now >= 0,
            negotiated_epoch >= 0,
            old(self).next_connection_id < u64::MAX,
            old(self).connections@.len() < max_connections(),
        ensures
            final(self).wf(),
            old(self).state != ServiceState::Running ==> r == Err::<u64, HAError>(
                HAError::NotStarted,
            ) && *final(self) == *old(self),
            old(self).state == ServiceState::Running ==> {
                &&& r == Ok::<u64, HAError>(old(self).next_connection_id)
                &&& final(self).connections@.len() == old(self).connections@.len() + 1
                &&& final(self).connections@ == old(self).connections@.push(
                    final(self).connections@.last(),
                )
                &&& final(self).connections@.last().connection_id == old(self).next_connection_id
                &&& final(self).connections@.last().peer_address@ == peer_address@
                &&& final(self).connections@.last().slave_id == slave_id
                &&& final(self).connections@.last().negotiated_epoch == negotiated_epoch
                &&& final(self).connections@.last().acked_offset == 0
                &&& final(self).connections@.last().last_active == now
                &&& final(self).connections@.last().alive
                &&& final(self).next_connection_id == old(self).next_connection_id + 1
                &&& final(self).pending@ == old(self).pending@.skip(
                    sat_prefix_len(
                        final(self).connections@,
                        old(self).role == Role::Master,
                        old(self).local_committed_offset as int,
                        old(self).quorum_size as int,
                        old(self).pending@,
                    ) as int,
                )
                &&& final(self).completed@ == old(self).completed@ + released(
                    old(self).pending@.take(
                        sat_prefix_len(
                            final(self).connections@,
                            old(self).role == Role::Master,
                            old(self).local_committed_offset as int,
                            old(self).quorum_size as int,
                            old(self).pending@,
                        ) as int,
                    ),
                    CommitOutcome::Success,
                )
                &&& final(self).state_waiters@.len() == 0
                &&& final(self).notified_waiters@ == old(self).notified_waiters@ + old(
                    self,
                ).state_waiters@
            },
            final(self).state == old(self).state,
            final(self).role == old(self).role,
            final(self).current_epoch == old(self).current_epoch,
            final(self).epoch_log == old(self).epoch_log,
            final(self).master_address == old(self).master_address,
            final(self).ha_master_address == old(self).ha_master_address,
            final(self).local_committed_offset == old(self).local_committed_offset,
            final(self).next_request_id == old(self).next_request_id,
            final(self).same_config(*old(self)),
    {
        if !matches!(self.state, ServiceState::Running) {
            return Err(HAError::NotStarted);
        }
        let id = self.next_connection_id;
        self.next_connection_id = id + 1;
        self.connections.push(
            ReplicaConnection {
                connection_id: id,
                peer_address: peer_address.to_string(),
                slave_id,
                negotiated_epoch,
                acked_offset: 0,
                last_active: now,
                alive: true,
            },
        );
        self.release_satisfied();
        self.notify_state_waiters();
        Ok(id)
    }

    /// Removes the connection carrying `connection_id` (a disconnect),
    /// notifying registered state observers; says whether it was present.
    pub fn remove_connection(&mut self, connection_id: u64) -> (r: bool)
        requires
            old(self).wf(),
        ensures
            final(self).wf(),
            r == old(self).has_conn(connection_id),
            !old(self).has_conn(connection_id) ==> *final(self) == *old(self),
            forall|i: int|
                old(self).conn_with_id(connection_id, i) ==> {
                    &&& final(self).connections@ == old(self).connections@.remove(i)
                    &&& final(self).state_waiters@.len() == 0
                    &&& final(self).notified_waiters@ == old(self).notified_waiters@ + old(
                        self,
                    ).state_waiters@
                },
            final(self).pending == old(self).pending,
            final(self).completed == old(self).completed,
            final(self).state == old(self).state,
            final(self).role == old(self).role,
            final(self).current_epoch == old(self).current_epoch,
            final(self).epoch_log == old(self).epoch_log,
            final(self).master_address == old(self).master_address,
            final(self).ha_master_address == old(self).ha_master_address,
            final(self).local_committed_offset == old(self).local_committed_offset,
            final(self).next_connection_id == old(self).next_connection_id,
            final(self).next_request_id == old(self).next_request_id,
            final(self).same_config(*old(self)),
    {
        let mut idx: usize = 0;
        let mut found = false;
        while idx < self.connections.len() && !found
            invariant
                old(self).wf(),
                self.connections == old(self).connections,
                0 <= idx as int <= self.connections@.len(),
                !found ==> forall|j: int|
                    0 <= j < idx as int ==> (#[trigger] self.connections@[j]).connection_id
                        != connection_id,
                found ==> (idx as int) < self.connections@.len() && self.connections@[
                    idx as int
                ].connection_id == connection_id,
            decreases self.connections@.len() - idx + (if found {
                0int
            } else {
                1int
            }),
        {
            if self.connections[idx].connection_id == connection_id {
                found = true;
            } else {
                idx = idx + 1;
            }
        }
        if !found {
            return false;
        }
        let ghost i = idx as int;
        proof {
            assert(old(self).conn_with_id(connection_id, i));
            assert forall|j: int|
                old(self).conn_with_id(connection_id, j) implies j == i by {
                if j != i {
                    assert(old(self).connections@[i].connection_id != old(self).connections@[
                        j
                    ].connection_id);
                }
            }
        }
        let ghost before = self.connections@;
        self.connections.remove(idx);
        proof {
            assert forall|a: int|
                0 <= a < self.connections@.len() implies (#[trigger] self.connections@[a]).wf()
                && self.connections@[a].alive && self.connections@[a].connection_id
                < self.next_connection_id by {
                assert(self.connections@[a] == if a < i {
                    before[a]
                } else {
                    before[a + 1]
                });
            }
            assert forall|a: int, b: int|
                0 <= a < b < self.connections@.len() implies (
            #[trigger] self.connections@[a]).connection_id != (
            #[trigger] self.connections@[b]).connection_id by {
                assert(self.connections@[a] == if a < i {
                    before[a]
                } else {
                    before[a + 1]
                });
                assert(self.connections@[b] == if b < i {
                    before[b]
                } else {
                    before[b + 1]
                });
            }
        }
        self.notify_state_waiters();
        true
    }

    /// The liveness sweep: drops every connection whose last activity lies
    /// before `now - keep_alive_millis`, notifying state observers when
    /// anything was dropped, and says how many connections were removed.
    /// A shrunken registry can delay pending requests but releases none,
    /// and completed requests are untouched.
    pub fn remove_inactive_connections(&mut self, now: i64, keep_alive_millis: i64) -> (removed:
        usize)
        requires
            old(self).wf(),
            now >= 0,
            keep_alive_millis >= 0,
        ensures
            final(self).wf(),
            final(self).connections@ == retain_active(
                old(self).connections@,
                now - keep_alive_millis,
            ),
            removed as int == old(self).connections@.len() - final(self).connections@.len(),
            removed > 0 ==> final(self).state_waiters@.len() == 0 && final(self).notified_waiters@
                == old(self).notified_waiters@ + old(self).state_waiters@,
            removed == 0 ==> final(self).state_waiters == old(self).state_waiters && final(self).notified_waiters == old(self).notified_waiters,
            final(self).pending == old(self).pending,
            final(self).completed == old(self).completed,
            final(self).state == old(self).state,
            final(self).role == old(self).role,
            final(self).current_epoch == old(self).current_epoch,
            final(self).epoch_log == old(self).epoch_log,
            final(self).master_address == old(self).master_address,
            final(self).ha_master_address == old(self).ha_master_address,
            final(self).local_committed_offset == old(self).local_committed_offset,
            final(self).next_connection_id == old(self).next_connection_id,
            final(self).next_request_id == old(self).next_request_id,
            final(self).same_config(*old(self)),
    {
        let ghost orig_conns = self.connections@;
        let ghost cutoff: int = now - keep_alive_millis;
        proof {
            vstd::std_specs::vec::axiom_spec_len(&self.connections);
        }
        let mut kept: Vec<ReplicaConnection> = Vec::new();
        proof {
            assert(orig_conns.skip(0) =~= orig_conns);
            assert(kept@ + retain_active(orig_conns, cutoff) =~= retain_active(
                orig_conns,
                cutoff,
            ));
        }
        let mut i: usize = 0;
        while self.connections.len() > 0
            invariant
                old(self).wf(),
                now >= 0,
                keep_alive_millis >= 0,
                cutoff == now - keep_alive_millis,
                orig_conns == old(self).connections@,
                orig_conns.len() <= usize::MAX,
                0 <= i as int <= orig_conns.len(),
                i as int == orig_conns.len() - self.connections@.len(),
                self.connections@ == orig_conns.skip(i as int),
                kept@.len() <= i as int,
                kept@ + retain_active(orig_conns.skip(i as int), cutoff) == retain_active(
                    orig_conns,
                    cutoff,
                ),
                self.state == old(self).state,
                self.role == old(self).role,
                self.current_epoch == old(self).current_epoch,
                self.epoch_log == old(self).epoch_log,
                self.pending == old(self).pending,
                self.completed == old(self).completed,
                self.state_waiters == old(self).state_waiters,
                self.notified_waiters == old(self).notified_waiters,
                self.master_address == old(self).master_address,
                self.ha_master_address == old(self).ha_master_address,
                self.local_committed_offset == old(self).local_committed_offset,
                self.next_connection_id == old(self).next_connection_id,
                self.next_request_id == old(self).next_request_id,
                self.same_config(*old(self)),
            decreases self.connections@.len(),
        {
            let ghost before = self.connections@;
            let c = self.connections.remove(0);
            proof {
                assert(orig_conns.skip(i as int)[0] == orig_conns[0 + i as int]);
                assert(c == orig_conns[i as int]);
                assert(self.connections@ =~= orig_conns.skip(i + 1)) by {
                    assert(self.connections@ == before.remove(0));
                    assert forall|j: int|
                        0 <= j < self.connections@.len() implies self.connections@[j]
                        == orig_conns.skip(i + 1)[j] by {
                        assert(before.remove(0)[j] == before[j + 1]);
                        assert(orig_conns.skip(i as int)[j + 1] == orig_conns[j + 1 + i as int]);
                        assert(orig_conns.skip(i + 1)[j] == orig_conns[j + i + 1]);
                    }
                }
                assert(orig_conns.skip(i as int).drop_first() =~= orig_conns.skip(i + 1));
            }
            let keep = if keep_alive_millis > now {
                true
            } else {
                c.last_active >= now - keep_alive_millis
            };
            proof {
                assert(keep == (c.last_active >= cutoff));
            }
            if keep {
                let ghost kept_before = kept@;
                kept.push(c);
                proof {
                    assert(retain_active(orig_conns.skip(i as int), cutoff) == seq![c]
                        + retain_active(orig_conns.skip(i + 1), cutoff));
                    assert(kept@ + retain_active(orig_conns.skip(i + 1), cutoff) =~= kept_before
                        + retain_active(orig_conns.skip(i as int), cutoff));
                }
            } else {
                proof {
                    assert(retain_active(orig_conns.skip(i as int), cutoff) == retain_active(
                        orig_conns.skip(i + 1),
                        cutoff,
                    ));
                }
            }
            i = i + 1;
        }
        proof {
            assert(orig_conns.skip(orig_conns.len() as int)
                =~= Seq::<ReplicaConnection>::empty());
            assert(kept@ + retain_active(orig_conns.skip(orig_conns.len() as int), cutoff)
                =~= kept@);
            lemma_retain_active_wf(orig_conns, cutoff);
            assert forall|a: int|
                0 <= a < kept@.len() implies (#[trigger] kept@[a]).wf() && kept@[a].alive
                && kept@[a].connection_id < self.next_connection_id by {
                assert(kept@.contains(kept@[a]));
                assert(orig_conns.contains(kept@[a]));
                let w = choose|w: int| 0 <= w < orig_conns.len() && orig_conns[w] == kept@[a];
                assert(old(self).connections@[w].wf());
            }
        }
        let removed = self.connections.len() + i - kept.len();
        proof {
            assert(self.connections@.len() == 0);
        }
        let had_any = kept.len() < i;
        self.connections = kept;
        if had_any {
            self.notify_state_waiters();
        }
        removed
    }

    /// Registers an observer to be woken on the next connection state
    /// change (connect, disconnect or acknowledgment progress), returning
    /// its ticket.
    pub fn put_group_connection_state_request(&mut self) -> (r: u64)
        requires
            old(self).wf(),
            old(self).next_request_id < u64::MAX,
        ensures
            final(self).wf(),
            r == old(self).next_request_id,
            final(self).next_request_id == old(self).next_request_id + 1,
            final(self).state_waiters@ == old(self).state_waiters@.push(r),
            final(self).notified_waiters == old(self).notified_waiters,
            final(self).pending == old(self).pending,
            final(self).completed == old(self).completed,
            final(self).connections == old(self).connections,
            final(self).state == old(self).state,
            final(self).role == old(self).role,
            final(self).current_epoch == old(self).current_epoch,
            final(self).epoch_log == old(self).epoch_log,
            final(self).master_address == old(self).master_address,
            final(self).ha_master_address == old(self).ha_master_address,
            final(self).local_committed_offset == old(self).local_committed_offset,
            final(self).next_connection_id == old(self).next_connection_id,
            final(self).same_config(*old(self)),
    {
        let id = self.next_request_id;
        self.next_request_id = id + 1;
        self.state_waiters.push(id);
        id
    }

    /// Drains the completed group commit requests, in completion order,
    /// for the caller to hand back to their issuers.
    pub fn take_completed(&mut self) -> (r: Vec<CompletedRequest>)
        requires
            old(self).wf(),
        ensures
            final(self).wf(),
            r@ == old(self).completed@,
            final(self).completed@.len() == 0,
            final(self).pending == old(self).pending,
            final(self).connections == old(self).connections,
            final(self).state_waiters == old(self).state_waiters,
            final(self).notified_waiters == old(self).notified_waiters,
            final(self).state == old(self).state,
            final(self).role == old(self).role,
            final(self).current_epoch == old(self).current_epoch,
            final(self).epoch_log == old(self).epoch_log,
            final(self).master_address == old(self).master_address,
            final(self).ha_master_address == old(self).ha_master_address,
            final(self).local_committed_offset == old(self).local_committed_offset,
            final(self).next_connection_id == old(self).next_connection_id,
            final(self).next_request_id == old(self).next_request_id,
            final(self).same_config(*old(self)),
    {
        let mut out: Vec<CompletedRequest> = Vec::new();
        core::mem::swap(&mut out, &mut self.completed);
        out
    }

    /// Drains the woken connection-state observers, for the caller to
    /// deliver their notifications.
    pub fn take_notified(&mut self) -> (r: Vec<u64>)
        requires
            old(self).wf(),
        ensures
            final(self).wf(),
            r@ == old(self).notified_waiters@,
            final(self).notified_waiters@.len() == 0,
            final(self).completed == old(self).completed,
            final(self).pending == old(self).pending,
            final(self).connections == old(self).connections,
            final(self).state_waiters == old(self).state_waiters,
            final(self).state == old(self).state,
            final(self).role == old(self).role,
            final(self).current_epoch == old(self).current_epoch,
            final(self).epoch_log == old(self).epoch_log,
            final(self).master_address == old(self).master_address,
            final(self).ha_master_address == old(self).ha_master_address,
            final(self).local_committed_offset == old(self).local_committed_offset,
            final(self).next_connection_id == old(self).next_connection_id,
            final(self).next_request_id == old(self).next_request_id,
            final(self).same_config(*old(self)),
    {
        let mut out: Vec<u64> = Vec::new();
        core::mem::swap(&mut out, &mut self.notified_waiters);
        out
    }

    /// A point-in-time copy of the alive replica connections — never a
    /// live view, so callers iterate without holding the registry.
    pub fn get_connection_list(&self) -> (r: Vec<ReplicaConnection>)
        requires
            self.wf(),
        ensures
            r@ == alive_connections(self.connections@),
    {
        let mut out: Vec<ReplicaConnection> = Vec::new();
        let mut i: usize = 0;
        while i < self.connections.len()
            invariant
                self.wf(),
                0 <= i as int <= self.connections@.len(),
                out@ == alive_connections(self.connections@.take(i as int)),
            decreases self.connections@.len() - i,
        {
            proof {
                assert(self.connections@.take(i + 1).drop_last() =~= self.connections@.take(
                    i as int,
                ));
                assert(self.connections@.take(i + 1).last() == self.connections@[i as int]);
            }
            if self.connections[i].alive {
                out.push(self.connections[i].snapshot());
            }
            i = i + 1;
        }
        proof {
            assert(self.connections@.take(self.connections@.len() as int) =~= self.connections@);
        }
        out
    }

    /// The master link as a slave sees it: a copy of the connection this
    /// node holds to its master, when there is one.
    pub fn get_ha_client(&self) -> (r: Option<ReplicaConnection>)
        requires
            self.wf(),
        ensures
            self.role == Role::Slave && self.connections@.len() > 0 ==> r == Some(
                self.connections@[0],
            ),
            !(self.role == Role::Slave && self.connections@.len() > 0) ==> r is None,
    {
        if matches!(self.role, Role::Slave) && self.connections.len() > 0 {
            Some(self.connections[0].snapshot())
        } else {
            None
        }
    }

    /// Assembles the observability snapshot: alive connection count, the
    /// in-sync count at `master_put_where`, the push-to-slave watermark,
    /// and each alive connection's acknowledged offset.
    pub fn get_runtime_info(&self, master_put_where: i64) -> (r: HARuntimeInfo)
        requires
            self.wf(),
        ensures
            r.connection_count as int == count_alive(self.connections@),
            r.in_sync_replicas as int == self.spec_in_sync(master_put_where as int),
            r.push_to_slave_max_offset as int == max_acked_offset(self.connections@),
            r.acked_offsets@ == alive_acked_offsets(self.connections@),
    {
        let mut offsets: Vec<i64> = Vec::new();
        let mut i: usize = 0;
        while i < self.connections.len()
            invariant
                self.wf(),
                0 <= i as int <= self.connections@.len(),
                offsets@ == alive_acked_offsets(self.connections@.take(i as int)),
            decreases self.connections@.len() - i,
        {
            proof {
                assert(self.connections@.take(i + 1).drop_last() =~= self.connections@.take(
                    i as int,
                ));
                assert(self.connections@.take(i + 1).last() == self.connections@[i as int]);
            }
            if self.connections[i].alive {
                offsets.push(self.connections[i].acked_offset);
            }
            i = i + 1;
        }
        proof {
            assert(self.connections@.take(self.connections@.len() as int) =~= self.connections@);
        }
        HARuntimeInfo {
            connection_count: self.get_connection_count(),
            in_sync_replicas: self.in_sync_replicas_nums(master_put_where),
            push_to_slave_max_offset: self.get_push_to_slave_max_offset(),
            acked_offsets: offsets,
        }
    }

    /// Updates the address used for the next master (re)connect attempt.
    pub fn update_master_address(&mut self, new_addr: &str)
        requires
            old(self).wf(),
        ensures
            final(self).wf(),
            final(self).master_address@ == new_addr@,
            final(self).ha_master_address == old(self).ha_master_address,
            final(self).state == old(self).state,
            final(self).role == old(self).role,
            final(self).current_epoch == old(self).current_epoch,
            final(self).epoch_log == old(self).epoch_log,
            final(self).connections == old(self).connections,
            final(self).pending == old(self).pending,
            final(self).completed == old(self).completed,
            final(self).state_waiters == old(self).state_waiters,
            final(self).notified_waiters == old(self).notified_waiters,
            final(self).local_committed_offset == old(self).local_committed_offset,
            final(self).next_connection_id == old(self).next_connection_id,
            final(self).next_request_id == old(self).next_request_id,
            final(self).same_config(*old(self)),
    {
        self.master_address = new_addr.to_string();
    }

    /// Updates the address used for the replication control channel, when
    /// configured separately from the data channel.
    pub fn update_ha_master_address(&mut self, new_addr: &str)
        requires
            old(self).wf(),
        ensures
            final(self).wf(),
            final(self).ha_master_address@ == new_addr@,
            final(self).master_address == old(self).master_address,
            final(self).state == old(self).state,
            final(self).role == old(self).role,
            final(self).current_epoch == old(self).current_epoch,
            final(self).epoch_log == old(self).epoch_log,
            final(self).connections == old(self).connections,
            final(self).pending == old(self).pending,
            final(self).completed == old(self).completed,
            final(self).state_waiters == old(self).state_waiters,
            final(self).notified_waiters == old(self).notified_waiters,
            final(self).local_committed_offset == old(self).local_committed_offset,
            final(self).next_connection_id == old(self).next_connection_id,
            final(self).next_request_id == old(self).next_request_id,
            final(self).same_config(*old(self)),
    {
        self.ha_master_address = new_addr.to_string();
    }
}

/// The in-sync replica count is monotonically non-increasing in the
/// offset asked about: raising the watermark can only shrink the set of
/// replicas counted as in sync.
pub proof fn lemma_in_sync_monotonic(s: AutoSwitchHAService, o1: int, o2: int)
    requires
        o1 <= o2,
    ensures
        s.spec_in_sync(o2) <= s.spec_in_sync(o1),
{
    lemma_count_in_sync_monotonic(s.connections@, o1, o2);
}

/// A pending request is released exactly when quorum for its target
/// offset is reached: on the ordered queue of a well-formed controller,
/// membership in the satisfied front segment is equivalent to the current
/// state satisfying that request's own target offset.
pub proof fn lemma_released_iff_quorum(s: AutoSwitchHAService, i: int)
    requires
        s.wf(),
        0 <= i < s.pending@.len(),
    ensures
        (i < s.spec_sat_prefix()) <==> s.spec_quorum_ok(s.pending@[i].target_offset as int),
{
    lemma_sat_prefix_iff(
        s.connections@,
        s.role == Role::Master,
        s.local_committed_offset as int,
        s.quorum_size as int,
        s.pending@,
    );
}

/// A group commit request never completes twice: in a well-formed
/// controller no two completions share a ticket, and no completed ticket
/// is still pending.
pub proof fn lemma_no_double_completion(s: AutoSwitchHAService, i: int, j: int)
    requires
        s.wf(),
        0 <= i < s.completed@.len(),
        0 <= j < s.completed@.len(),
        i != j,
    ensures
        s.completed@[i].request_id != s.completed@[j].request_id,
{
}

/// A completed ticket cannot also be waiting: completions and the pending
/// queue of a well-formed controller never share a request id.
pub proof fn lemma_completed_not_pending(s: AutoSwitchHAService, i: int, j: int)
    requires
        s.wf(),
        0 <= i < s.completed@.len(),
        0 <= j < s.pending@.len(),
    ensures
        s.completed@[i].request_id != s.pending@[j].request_id,
{
}

/// Pending requests are released in ascending target-offset order: any
/// front segment of a well-formed controller's queue, completed with
/// `Success`, is ordered by target offset.
pub proof fn lemma_release_ascending(s: AutoSwitchHAService, k: int)
    requires
        s.wf(),
        0 <= k <= s.pending@.len(),
    ensures
        crate::group_commit::completed_ascending(
            released(s.pending@.take(k), CommitOutcome::Success),
        ),
{
    lemma_release_order(s.pending@, k, CommitOutcome::Success);
}

} // verus!
