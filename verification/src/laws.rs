//! The scheduler's standing guarantees, stated on their own.  Each holds of
//! every well-formed farm, and every operation of the library returns a
//! well-formed farm, so these hold after any sequence of admissions and
//! removals.

use vstd::prelude::*;

use crate::batch::{max_duration, sum_x, sum_y, sum_z};
use crate::farm::Farm;

verus! {

/// The combined footprint of the jobs admitted into any batch never exceeds
/// the batch's capacity, on any of the three axes taken independently.
pub proof fn lemma_batch_within_capacity(f: Farm, m: int, b: int)
    requires
        f.wf(),
        0 <= m < f.machines@.len(),
        0 <= b < f.machines@[m].schedule@.len(),
    ensures
        sum_x(f.machines@[m].schedule@[b].items@) <= f.machines@[m].schedule@[b].capacity.0,
        sum_y(f.machines@[m].schedule@[b].items@) <= f.machines@[m].schedule@[b].capacity.1,
        sum_z(f.machines@[m].schedule@[b].items@) <= f.machines@[m].schedule@[b].capacity.2,
{
    assert(f.machines@[m].wf());
    assert(f.machines@[m].schedule@[b].wf());
}

/// Any two jobs sharing a batch have equal family configuration mappings.
pub proof fn lemma_batch_items_compatible(f: Farm, m: int, b: int, i: int, j: int)
    requires
        f.wf(),
        0 <= m < f.machines@.len(),
        0 <= b < f.machines@[m].schedule@.len(),
        0 <= i < f.machines@[m].schedule@[b].items@.len(),
        0 <= j < f.machines@[m].schedule@[b].items@.len(),
    ensures
        f.machines@[m].schedule@[b].items@[i].family@ == f.machines@[m].schedule@[b].items@[j].family@,
{
    assert(f.machines@[m].wf());
    assert(f.machines@[m].schedule@[b].wf());
    assert(f.machines@[m].schedule@[b].items@[i].family@ == f.machines@[m].schedule@[b].family@);
    assert(f.machines@[m].schedule@[b].items@[j].family@ == f.machines@[m].schedule@[b].family@);
}

/// Every queue is completion-ordered: each batch after the first starts
/// exactly when its predecessor is estimated to finish.
pub proof fn lemma_queue_ordering(f: Farm, m: int, i: int)
    requires
        f.wf(),
        0 <= m < f.machines@.len(),
        1 <= i < f.machines@[m].schedule@.len(),
    ensures
        f.machines@[m].schedule@[i].start_time == f.machines@[m].schedule@[i - 1].start_time
            + f.machines@[m].schedule@[i - 1].print_time,
{
    assert(f.machines@[m].wf());
}

/// A batch's recorded duration is the longest print duration among its jobs,
/// so its estimated completion time is its start time plus that maximum —
/// and its bare start time while it is empty.
pub proof fn lemma_completion_is_start_plus_max(f: Farm, m: int, b: int)
    requires
        f.wf(),
        0 <= m < f.machines@.len(),
        0 <= b < f.machines@[m].schedule@.len(),
    ensures
        f.machines@[m].schedule@[b].print_time == max_duration(f.machines@[m].schedule@[b].items@),
        f.machines@[m].schedule@[b].items@.len() == 0 ==> f.machines@[m].schedule@[b].print_time
            == 0,
{
    assert(f.machines@[m].wf());
    assert(f.machines@[m].schedule@[b].wf());
}

} // verus!
