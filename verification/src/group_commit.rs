//! Group commit requests: durability requests from the storage flush path
//! that wait until replication progress reaches their target offset, time
//! out at their deadline, or are force-completed on shutdown or role
//! change. This module holds the request bookkeeping: the pending queue
//! ordered by target offset and the arithmetic deciding which requests a
//! given replication state satisfies.

use vstd::prelude::*;
use crate::replica_connection::ReplicaConnection;
use crate::replica_connection::count_in_sync;
use crate::replica_connection::lemma_count_in_sync_monotonic;

verus! {

/// A durability request as the flush path issues it.
#[derive(Debug, Clone, Copy, PartialEq, Eq, Structural)]
pub struct GroupCommitRequest {
    pub target_offset: i64,
    pub deadline: i64,
}

/// How a group commit request ended.
#[derive(Debug, Clone, Copy, PartialEq, Eq, Structural)]
pub enum CommitOutcome {
    Success,
    Timeout,
    RoleChanged,
    Shutdown,
}

/// A registered request still waiting for quorum.
#[derive(Debug, Clone, Copy, PartialEq, Eq, Structural)]
pub struct PendingRequest {
    pub request_id: u64,
    pub target_offset: i64,
    pub deadline: i64,
}

/// A finished request, ready to be handed back to its issuer.
#[derive(Debug, Clone, Copy, PartialEq, Eq, Structural)]
pub struct CompletedRequest {
    pub request_id: u64,
    pub target_offset: i64,
    pub outcome: CommitOutcome,
}

/// The pending queue is kept ordered by target offset, easiest first.
pub open spec fn sorted_by_offset(p: Seq<PendingRequest>) -> bool {
    forall|i: int, j: int|
        0 <= i < j < p.len() ==> (#[trigger] p[i]).target_offset <= (#[trigger] p[j]).target_offset
}

/// No two requests in the sequence share a request id.
pub open spec fn ids_distinct(p: Seq<PendingRequest>) -> bool {
    forall|i: int, j: int|
        0 <= i < j < p.len() ==> (#[trigger] p[i]).request_id != (#[trigger] p[j]).request_id
}

/// Completions ordered by ascending target offset.
pub open spec fn completed_ascending(c: Seq<CompletedRequest>) -> bool {
    forall|i: int, j: int|
        0 <= i < j < c.len() ==> (#[trigger] c[i]).target_offset <= (#[trigger] c[j]).target_offset
}

/// The completion a pending request turns into under the given outcome.
pub open spec fn completed_of(p: PendingRequest, outcome: CommitOutcome) -> CompletedRequest {
    CompletedRequest { request_id: p.request_id, target_offset: p.target_offset, outcome }
}

/// The completions of a whole sequence of pending requests, in order.
pub open spec fn released(p: Seq<PendingRequest>, outcome: CommitOutcome) -> Seq<CompletedRequest> {
    p.map_values(|q: PendingRequest| completed_of(q, outcome))
}

/// The in-sync replica count for `offset`: alive connections that have
/// acknowledged at least `offset`, plus the local node when it is master
/// and its own committed offset has reached `offset`.
pub open spec fn in_sync_count(
    conns: Seq<ReplicaConnection>,
    local_is_master: bool,
    local_offset: int,
    offset: int,
) -> int {
    count_in_sync(conns, offset) + if local_is_master && local_offset >= offset {
        1int
    } else {
        0int
    }
}

/// Whether the replication state reaches quorum for `offset`.
pub open spec fn quorum_ok(
    conns: Seq<ReplicaConnection>,
    local_is_master: bool,
    local_offset: int,
    quorum: int,
    offset: int,
) -> bool {
    in_sync_count(conns, local_is_master, local_offset, offset) >= quorum
}

/// Quorum is downward closed: a state that satisfies an offset satisfies
/// every smaller offset too.
pub proof fn lemma_quorum_downward_closed(
    conns: Seq<ReplicaConnection>,
    local_is_master: bool,
    local_offset: int,
    quorum: int,
    o1: int,
    o2: int,
)
    requires
        o1 <= o2,
        quorum_ok(conns, local_is_master, local_offset, quorum, o2),
    ensures
        quorum_ok(conns, local_is_master, local_offset, quorum, o1),
{
    lemma_count_in_sync_monotonic(conns, o1, o2);
}

/// How many requests at the front of the pending queue the given
/// replication state satisfies.
pub open spec fn sat_prefix_len(
    conns: Seq<ReplicaConnection>,
    local_is_master: bool,
    local_offset: int,
    quorum: int,
    p: Seq<PendingRequest>,
) -> nat
    decreases p.len(),
{
    if p.len() == 0 {
        0
    } else if quorum_ok(conns, local_is_master, local_offset, quorum, p[0].target_offset as int) {
        (1 + sat_prefix_len(conns, local_is_master, local_offset, quorum, p.drop_first())) as nat
    } else {
        0
    }
}

pub proof fn lemma_sat_prefix_le_len(
    conns: Seq<ReplicaConnection>,
    local_is_master: bool,
    local_offset: int,
    quorum: int,
    p: Seq<PendingRequest>,
)
    ensures
        sat_prefix_len(conns, local_is_master, local_offset, quorum, p) <= p.len(),
    decreases p.len(),
{
    if p.len() > 0 {
        lemma_sat_prefix_le_len(conns, local_is_master, local_offset, quorum, p.drop_first());
    }
}

/// On a queue ordered by target offset, the requests the state satisfies
/// are exactly the front segment: a pending request is released if and
/// only if quorum for its target offset is reached.
pub proof fn lemma_sat_prefix_iff(
    conns: Seq<ReplicaConnection>,
    local_is_master: bool,
    local_offset: int,
    quorum: int,
    p: Seq<PendingRequest>,
)
    requires
        sorted_by_offset(p),
    ensures
        forall|i: int|
            0 <= i < p.len() ==> (i < sat_prefix_len(conns, local_is_master, local_offset, quorum, p)
                <==> quorum_ok(conns, local_is_master, local_offset, quorum, (#[trigger] p[i]).target_offset as int)),
    decreases p.len(),
{
    lemma_sat_prefix_le_len(conns, local_is_master, local_offset, quorum, p);
    if p.len() > 0 {
        let rest = p.drop_first();
        assert(sorted_by_offset(rest)) by {
            assert(forall|i: int, j: int|
                0 <= i < j < rest.len() ==> (#[trigger] rest[i]).target_offset
                    <= (#[trigger] rest[j]).target_offset) by {
                assert(forall|i: int| 0 <= i < rest.len() ==> #[trigger] rest[i] == p[i + 1]);
            }
        }
        lemma_sat_prefix_iff(conns, local_is_master, local_offset, quorum, rest);
        let k = sat_prefix_len(conns, local_is_master, local_offset, quorum, p);
        if quorum_ok(conns, local_is_master, local_offset, quorum, p[0].target_offset as int) {
            assert(forall|i: int| 1 <= i < p.len() ==> #[trigger] p[i] == rest[i - 1]);
        } else {
            assert forall|i: int| 0 <= i < p.len() implies !quorum_ok(
                conns,
                local_is_master,
                local_offset,
                quorum,
                (#[trigger] p[i]).target_offset as int,
            ) by {
                if quorum_ok(conns, local_is_master, local_offset, quorum, p[i].target_offset as int) {
                    lemma_quorum_downward_closed(
                        conns,
                        local_is_master,
                        local_offset,
                        quorum,
                        p[0].target_offset as int,
                        p[i].target_offset as int,
                    );
                }
            }
        }
    }
}

/// The satisfied front segment is pinned down by its endpoints: if every
/// request before `k` is satisfied and the one at `k` (when there is one)
/// is not, then `k` is exactly the satisfied prefix length.
pub proof fn lemma_sat_prefix_characterize(
    conns: Seq<ReplicaConnection>,
    local_is_master: bool,
    local_offset: int,
    quorum: int,
    p: Seq<PendingRequest>,
    k: int,
)
    requires
        0 <= k <= p.len(),
        forall|i: int|
            0 <= i < k ==> quorum_ok(conns, local_is_master, local_offset, quorum, (
            #[trigger] p[i]).target_offset as int),
        k < p.len() ==> !quorum_ok(conns, local_is_master, local_offset, quorum, p[k].target_offset as int),
    ensures
        sat_prefix_len(conns, local_is_master, local_offset, quorum, p) == k,
    decreases p.len(),
{
    if p.len() > 0 {
        let rest = p.drop_first();
        assert(forall|i: int| 0 <= i < rest.len() ==> #[trigger] rest[i] == p[i + 1]);
        if k == 0 {
        } else {
            assert(quorum_ok(conns, local_is_master, local_offset, quorum, p[0].target_offset as int));
            lemma_sat_prefix_characterize(conns, local_is_master, local_offset, quorum, rest, k - 1);
        }
    }
}

/// The insertion point is pinned down the same way: if every request
/// before `k` is at or below `offset` and the one at `k` (when there is
/// one) is above it, then `k` is exactly the insertion point.
pub proof fn lemma_insert_pos_characterize(p: Seq<PendingRequest>, offset: int, k: int)
    requires
        0 <= k <= p.len(),
        forall|i: int| 0 <= i < k ==> (#[trigger] p[i]).target_offset <= offset,
        k < p.len() ==> p[k].target_offset > offset,
    ensures
        insert_pos(p, offset) == k,
    decreases p.len(),
{
    if p.len() > 0 {
        let rest = p.drop_first();
        assert(forall|i: int| 0 <= i < rest.len() ==> #[trigger] rest[i] == p[i + 1]);
        if k == 0 {
        } else {
            lemma_insert_pos_characterize(rest, offset, k - 1);
        }
    }
}

/// Dropping still-live requests leaves the timed-out ones with distinct
/// request ids too.
pub proof fn lemma_timed_out_distinct(p: Seq<PendingRequest>, now: int)
    requires
        ids_distinct(p),
    ensures
        ids_distinct(timed_out(p, now)),
    decreases p.len(),
{
    if p.len() > 0 {
        let rest = p.drop_first();
        assert(forall|i: int| 0 <= i < rest.len() ==> #[trigger] rest[i] == p[i + 1]);
        lemma_timed_out_distinct(rest, now);
        lemma_deadline_split_contains(rest, now);
        if p[0].deadline < now {
            let s = timed_out(p, now);
            let srest = timed_out(rest, now);
            assert(s[0] == p[0]);
            assert(forall|i: int| 1 <= i < s.len() ==> #[trigger] s[i] == srest[i - 1]);
            assert forall|i: int, j: int|
                0 <= i < j < s.len() implies (#[trigger] s[i]).request_id != (
            #[trigger] s[j]).request_id by {
                if i == 0 {
                    assert(srest.contains(s[j])) by {
                        assert(srest[j - 1] == s[j]);
                    }
                    assert(rest.contains(s[j]));
                    let w = choose|w: int| 0 <= w < rest.len() && rest[w] == s[j];
                    assert(rest[w] == s[j]);
                    assert(p[w + 1] == s[j]);
                }
            }
        }
    }
}

/// Pending requests are released in ascending target-offset order: any
/// front segment of the ordered queue, turned into completions, is itself
/// ordered by target offset.
pub proof fn lemma_release_order(p: Seq<PendingRequest>, k: int, outcome: CommitOutcome)
    requires
        sorted_by_offset(p),
        0 <= k <= p.len(),
    ensures
        completed_ascending(released(p.take(k), outcome)),
{
    assert(forall|i: int|
        0 <= i < k ==> (#[trigger] released(p.take(k), outcome)[i]).target_offset == p[i].target_offset);
}

/// Where a request for `offset` enters the ordered queue: after every
/// pending request with a target offset no larger than its own.
pub open spec fn insert_pos(p: Seq<PendingRequest>, offset: int) -> nat
    decreases p.len(),
{
    if p.len() == 0 {
        0
    } else if p[0].target_offset <= offset {
        (1 + insert_pos(p.drop_first(), offset)) as nat
    } else {
        0
    }
}

pub proof fn lemma_insert_pos_le_len(p: Seq<PendingRequest>, offset: int)
    ensures
        insert_pos(p, offset) <= p.len(),
    decreases p.len(),
{
    if p.len() > 0 {
        lemma_insert_pos_le_len(p.drop_first(), offset);
    }
}

/// The insertion point splits the ordered queue cleanly: everything before
/// it is at or below `offset`, everything from it on is above.
pub proof fn lemma_insert_pos_splits(p: Seq<PendingRequest>, offset: int)
    requires
        sorted_by_offset(p),
    ensures
        forall|i: int| 0 <= i < insert_pos(p, offset) ==> (#[trigger] p[i]).target_offset <= offset,
        forall|i: int|
            insert_pos(p, offset) <= i < p.len() ==> (#[trigger] p[i]).target_offset > offset,
    decreases p.len(),
{
    lemma_insert_pos_le_len(p, offset);
    if p.len() > 0 {
        let rest = p.drop_first();
        assert(sorted_by_offset(rest)) by {
            assert(forall|i: int| 0 <= i < rest.len() ==> #[trigger] rest[i] == p[i + 1]);
        }
        lemma_insert_pos_splits(rest, offset);
        assert(forall|i: int| 1 <= i < p.len() ==> #[trigger] p[i] == rest[i - 1]);
    }
}

/// The pending requests still inside their deadline at `now`, in order.
pub open spec fn keep_live(p: Seq<PendingRequest>, now: int) -> Seq<PendingRequest>
    decreases p.len(),
{
    if p.len() == 0 {
        Seq::empty()
    } else if p[0].deadline >= now {
        seq![p[0]] + keep_live(p.drop_first(), now)
    } else {
        keep_live(p.drop_first(), now)
    }
}

/// The pending requests whose deadline has passed at `now`, in order.
pub open spec fn timed_out(p: Seq<PendingRequest>, now: int) -> Seq<PendingRequest>
    decreases p.len(),
{
    if p.len() == 0 {
        Seq::empty()
    } else if p[0].deadline >= now {
        timed_out(p.drop_first(), now)
    } else {
        seq![p[0]] + timed_out(p.drop_first(), now)
    }
}

/// Every request kept or timed out comes from the queue itself, and the
/// two parts cover it exactly.
pub proof fn lemma_deadline_split_contains(p: Seq<PendingRequest>, now: int)
    ensures
        keep_live(p, now).len() + timed_out(p, now).len() == p.len(),
        forall|x: PendingRequest| keep_live(p, now).contains(x) ==> p.contains(x),
        forall|x: PendingRequest| timed_out(p, now).contains(x) ==> p.contains(x),
    decreases p.len(),
{
    if p.len() > 0 {
        let rest = p.drop_first();
        lemma_deadline_split_contains(rest, now);
        assert forall|x: PendingRequest| rest.contains(x) implies p.contains(x) by {
            let i = choose|i: int| 0 <= i < rest.len() && rest[i] == x;
            assert(p[i + 1] == x);
        }
        assert forall|x: PendingRequest| keep_live(p, now).contains(x) implies p.contains(x) by {
            let s = keep_live(p, now);
            let i = choose|i: int| 0 <= i < s.len() && s[i] == x;
            if p[0].deadline >= now {
                if i == 0 {
                    assert(p[0] == x);
                } else {
                    assert(keep_live(rest, now)[i - 1] == x);
                    assert(keep_live(rest, now).contains(x));
                }
            } else {
                assert(keep_live(rest, now).contains(x));
            }
        }
        assert forall|x: PendingRequest| timed_out(p, now).contains(x) implies p.contains(x) by {
            let s = timed_out(p, now);
            let i = choose|i: int| 0 <= i < s.len() && s[i] == x;
            if p[0].deadline < now {
                if i == 0 {
                    assert(p[0] == x);
                } else {
                    assert(timed_out(rest, now)[i - 1] == x);
                    assert(timed_out(rest, now).contains(x));
                }
            } else {
                assert(timed_out(rest, now).contains(x));
            }
        }
    }
}

/// The deadline split is sharp: everything kept is still inside its
/// deadline, everything timed out is past it.
pub proof fn lemma_deadline_split_bounds(p: Seq<PendingRequest>, now: int)
    ensures
        forall|i: int|
            0 <= i < keep_live(p, now).len() ==> (#[trigger] keep_live(p, now)[i]).deadline >= now,
        forall|i: int|
            0 <= i < timed_out(p, now).len() ==> (#[trigger] timed_out(p, now)[i]).deadline < now,
    decreases p.len(),
{
    if p.len() > 0 {
        let rest = p.drop_first();
        lemma_deadline_split_bounds(rest, now);
        let s = keep_live(p, now);
        let srest = keep_live(rest, now);
        let t = timed_out(p, now);
        let trest = timed_out(rest, now);
        assert forall|i: int| 0 <= i < s.len() implies (#[trigger] s[i]).deadline >= now by {
            if p[0].deadline >= now {
                if i > 0 {
                    assert(s[i] == srest[i - 1]);
                }
            } else {
                assert(s[i] == srest[i]);
            }
        }
        assert forall|i: int| 0 <= i < t.len() implies (#[trigger] t[i]).deadline < now by {
            if p[0].deadline < now {
                if i > 0 {
                    assert(t[i] == trest[i - 1]);
                }
            } else {
                assert(t[i] == trest[i]);
            }
        }
    }
}

/// Every target offset in the queue bounds the kept part from below too.
pub proof fn lemma_keep_live_lower_bound(p: Seq<PendingRequest>, now: int, lo: int)
    requires
        forall|i: int| 0 <= i < p.len() ==> (#[trigger] p[i]).target_offset >= lo,
    ensures
        forall|i: int|
            0 <= i < keep_live(p, now).len() ==> (#[trigger] keep_live(p, now)[i]).target_offset >= lo,
    decreases p.len(),
{
    if p.len() > 0 {
        let rest = p.drop_first();
        assert(forall|i: int| 0 <= i < rest.len() ==> #[trigger] rest[i] == p[i + 1]);
        lemma_keep_live_lower_bound(rest, now, lo);
        let s = keep_live(p, now);
        let srest = keep_live(rest, now);
        assert forall|i: int| 0 <= i < s.len() implies (#[trigger] s[i]).target_offset >= lo by {
            if p[0].deadline >= now {
                if i == 0 {
                    assert(s[0] == p[0]);
                } else {
                    assert(s[i] == srest[i - 1]);
                }
            } else {
                assert(s[i] == srest[i]);
            }
        }
    }
}

/// Dropping timed-out requests keeps the queue ordered by target offset
/// and keeps its request ids distinct.
pub proof fn lemma_keep_live_wf(p: Seq<PendingRequest>, now: int)
    requires
        sorted_by_offset(p),
        ids_distinct(p),
    ensures
        sorted_by_offset(keep_live(p, now)),
        ids_distinct(keep_live(p, now)),
    decreases p.len(),
{
    if p.len() > 0 {
        let rest = p.drop_first();
        assert(forall|i: int| 0 <= i < rest.len() ==> #[trigger] rest[i] == p[i + 1]);
        lemma_keep_live_wf(rest, now);
        lemma_deadline_split_contains(rest, now);
        if p[0].deadline >= now {
            let s = keep_live(p, now);
            let srest = keep_live(rest, now);
            assert(s[0] == p[0]);
            assert(forall|i: int| 1 <= i < s.len() ==> #[trigger] s[i] == srest[i - 1]);
            lemma_keep_live_lower_bound(rest, now, p[0].target_offset as int);
            assert forall|i: int, j: int|
                0 <= i < j < s.len() implies (#[trigger] s[i]).request_id != (
            #[trigger] s[j]).request_id by {
                if i == 0 {
                    assert(srest.contains(s[j])) by {
                        assert(srest[j - 1] == s[j]);
                    }
                    assert(rest.contains(s[j]));
                    let w = choose|w: int| 0 <= w < rest.len() && rest[w] == s[j];
                    assert(rest[w] == s[j]);
                    assert(p[w + 1] == s[j]);
                }
            }
        }
    }
}

} // verus!
