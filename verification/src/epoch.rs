//! Epoch records: the append-only history of master terms. Each entry pairs
//! a generation number with the storage offset at which that generation
//! began; entries are never mutated, epoch numbers grow strictly and start
//! offsets never go backwards.

use vstd::prelude::*;

verus! {

/// One entry of the epoch log: an epoch number and the offset at which
/// that epoch began.
#[derive(Debug, Clone, Copy, PartialEq, Eq, Structural)]
pub struct EpochEntry {
    pub epoch: i32,
    pub start_offset: i64,
}

/// Well-formedness of an epoch log: non-negative entries, strictly
/// increasing epoch numbers, non-decreasing start offsets.
pub open spec fn epoch_log_wf(log: Seq<EpochEntry>) -> bool {
    &&& forall|i: int| 0 <= i < log.len() ==> (#[trigger] log[i]).epoch >= 0 && log[i].start_offset >= 0
    &&& forall|i: int, j: int|
        0 <= i < j < log.len() ==> (#[trigger] log[i]).epoch < (#[trigger] log[j]).epoch
            && log[i].start_offset <= log[j].start_offset
}

/// Epoch numbers observed across a node's history are strictly increasing:
/// in a well-formed epoch log, any earlier entry carries a strictly smaller
/// epoch number (and a start offset no larger) than any later one.
pub proof fn lemma_epoch_history_strictly_increasing(log: Seq<EpochEntry>, i: int, j: int)
    requires
        epoch_log_wf(log),
        0 <= i < j < log.len(),
    ensures
        log[i].epoch < log[j].epoch,
        log[i].start_offset <= log[j].start_offset,
{
}

} // verus!
