//! Replica connections: one record per replication peer (a slave seen from
//! the master, or the master link seen from a slave), tracking the peer's
//! acknowledged offset and liveness; and the quorum arithmetic over a set
//! of such records.

use vstd::prelude::*;

verus! {

/// Per-peer replication session state.
#[derive(Debug, Clone)]
pub struct ReplicaConnection {
    pub connection_id: u64,
    pub peer_address: String,
    pub slave_id: Option<i64>,
    pub negotiated_epoch: i32,
    pub acked_offset: i64,
    pub last_active: i64,
    pub alive: bool,
}

impl ReplicaConnection {
    pub open spec fn wf(self) -> bool {
        &&& self.negotiated_epoch >= 0
        &&& self.acked_offset >= 0
        &&& self.last_active >= 0
    }

    /// A copy whose every field equals this connection's.
    pub fn snapshot(&self) -> (r: Self)
        ensures
            r == *self,
    {
        ReplicaConnection {
            connection_id: self.connection_id,
            peer_address: self.peer_address.clone(),
            slave_id: self.slave_id,
            negotiated_epoch: self.negotiated_epoch,
            acked_offset: self.acked_offset,
            last_active: self.last_active,
            alive: self.alive,
        }
    }
}

/// How many of the given connections are alive and have acknowledged at
/// least `offset`.
pub open spec fn count_in_sync(conns: Seq<ReplicaConnection>, offset: int) -> int
    decreases conns.len(),
{
    if conns.len() == 0 {
        0
    } else {
        count_in_sync(conns.drop_last(), offset) + if conns.last().alive
            && conns.last().acked_offset >= offset {
            1int
        } else {
            0int
        }
    }
}

/// How many of the given connections are alive.
pub open spec fn count_alive(conns: Seq<ReplicaConnection>) -> int
    decreases conns.len(),
{
    if conns.len() == 0 {
        0
    } else {
        count_alive(conns.drop_last()) + if conns.last().alive {
            1int
        } else {
            0int
        }
    }
}

/// The highest offset acknowledged by an alive connection, or 0 when there
/// is none.
pub open spec fn max_acked_offset(conns: Seq<ReplicaConnection>) -> int
    decreases conns.len(),
{
    if conns.len() == 0 {
        0
    } else {
        let rest = max_acked_offset(conns.drop_last());
        if conns.last().alive && conns.last().acked_offset > rest {
            conns.last().acked_offset as int
        } else {
            rest
        }
    }
}

/// The alive connections, in registry order.
pub open spec fn alive_connections(conns: Seq<ReplicaConnection>) -> Seq<ReplicaConnection>
    decreases conns.len(),
{
    if conns.len() == 0 {
        Seq::empty()
    } else if conns.last().alive {
        alive_connections(conns.drop_last()).push(conns.last())
    } else {
        alive_connections(conns.drop_last())
    }
}

/// The acknowledged offsets of the alive connections, in registry order.
pub open spec fn alive_acked_offsets(conns: Seq<ReplicaConnection>) -> Seq<i64>
    decreases conns.len(),
{
    if conns.len() == 0 {
        Seq::empty()
    } else if conns.last().alive {
        alive_acked_offsets(conns.drop_last()).push(conns.last().acked_offset)
    } else {
        alive_acked_offsets(conns.drop_last())
    }
}

/// The connections whose last activity is at or after `cutoff`, in order:
/// what a liveness sweep keeps.
pub open spec fn retain_active(conns: Seq<ReplicaConnection>, cutoff: int) -> Seq<ReplicaConnection>
    decreases conns.len(),
{
    if conns.len() == 0 {
        Seq::empty()
    } else if conns[0].last_active >= cutoff {
        seq![conns[0]] + retain_active(conns.drop_first(), cutoff)
    } else {
        retain_active(conns.drop_first(), cutoff)
    }
}

/// A liveness sweep only discards: whatever it keeps was in the registry,
/// no connection is kept twice, and the kept part is never longer than the
/// registry was.
pub proof fn lemma_retain_active_wf(conns: Seq<ReplicaConnection>, cutoff: int)
    ensures
        retain_active(conns, cutoff).len() <= conns.len(),
        forall|x: ReplicaConnection| retain_active(conns, cutoff).contains(x) ==> conns.contains(x),
        (forall|i: int, j: int|
            0 <= i < j < conns.len() ==> (#[trigger] conns[i]).connection_id != (
            #[trigger] conns[j]).connection_id) ==> forall|i: int, j: int|
            0 <= i < j < retain_active(conns, cutoff).len() ==> (#[trigger] retain_active(
                conns,
                cutoff,
            )[i]).connection_id != (#[trigger] retain_active(conns, cutoff)[j]).connection_id,
    decreases conns.len(),
{
    if conns.len() > 0 {
        let rest = conns.drop_first();
        assert(forall|i: int| 0 <= i < rest.len() ==> #[trigger] rest[i] == conns[i + 1]);
        lemma_retain_active_wf(rest, cutoff);
        let s = retain_active(conns, cutoff);
        let srest = retain_active(rest, cutoff);
        assert forall|x: ReplicaConnection| s.contains(x) implies conns.contains(x) by {
            let i = choose|i: int| 0 <= i < s.len() && s[i] == x;
            if conns[0].last_active >= cutoff {
                if i == 0 {
                    assert(conns[0] == x);
                } else {
                    assert(srest[i - 1] == x);
                    assert(srest.contains(x));
                }
            } else {
                assert(srest[i] == x);
                assert(srest.contains(x));
            }
            if srest.contains(x) {
                assert(rest.contains(x));
                let w = choose|w: int| 0 <= w < rest.len() && rest[w] == x;
                assert(rest[w] == x);
                assert(conns[w + 1] == x);
            }
        }
        if forall|i: int, j: int|
            0 <= i < j < conns.len() ==> (#[trigger] conns[i]).connection_id != (
            #[trigger] conns[j]).connection_id {
            assert(forall|i: int, j: int|
                0 <= i < j < rest.len() ==> (#[trigger] rest[i]).connection_id != (
                #[trigger] rest[j]).connection_id);
            if conns[0].last_active >= cutoff {
                assert(s[0] == conns[0]);
                assert(forall|i: int| 1 <= i < s.len() ==> #[trigger] s[i] == srest[i - 1]);
                assert forall|i: int, j: int|
                    0 <= i < j < s.len() implies (#[trigger] s[i]).connection_id != (
                #[trigger] s[j]).connection_id by {
                    if i == 0 {
                        assert(srest.contains(s[j])) by {
                            assert(srest[j - 1] == s[j]);
                        }
                        assert(rest.contains(s[j]));
                        let w = choose|w: int| 0 <= w < rest.len() && rest[w] == s[j];
                        assert(rest[w] == s[j]);
                        assert(conns[w + 1] == s[j]);
                    }
                }
            } else {
                assert(forall|i: int| 0 <= i < s.len() ==> #[trigger] s[i] == srest[i]);
            }
        }
    }
}

pub proof fn lemma_count_in_sync_le_len(conns: Seq<ReplicaConnection>, offset: int)
    ensures
        0 <= count_in_sync(conns, offset) <= conns.len(),
    decreases conns.len(),
{
    if conns.len() > 0 {
        lemma_count_in_sync_le_len(conns.drop_last(), offset);
    }
}

pub proof fn lemma_count_alive_le_len(conns: Seq<ReplicaConnection>)
    ensures
        0 <= count_alive(conns) <= conns.len(),
    decreases conns.len(),
{
    if conns.len() > 0 {
        lemma_count_alive_le_len(conns.drop_last());
    }
}

/// Raising the offset can only shrink the set of connections counted as
/// in sync: the in-sync count is monotonically non-increasing in the
/// offset asked about.
pub proof fn lemma_count_in_sync_monotonic(conns: Seq<ReplicaConnection>, o1: int, o2: int)
    requires
        o1 <= o2,
    ensures
        count_in_sync(conns, o2) <= count_in_sync(conns, o1),
    decreases conns.len(),
{
    if conns.len() > 0 {
        lemma_count_in_sync_monotonic(conns.drop_last(), o1, o2);
    }
}

} // verus!
