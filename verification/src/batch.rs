//! Print jobs and batches.  A batch groups jobs of one process family for a
//! single machine run: the combined footprint of its jobs never exceeds its
//! capacity on any axis, and its print duration is the maximum duration among
//! its jobs, since the run ends when the slowest job finishes.

use vstd::prelude::*;

use crate::clock::now_millis;
use crate::error::ScheduleError;
use crate::family::JobFamily;
use crate::model::Dimensions;

verus! {

/// One unit of work: a footprint, a due date, an estimated print duration in
/// milliseconds, and the process family it belongs to.
#[derive(Debug)]
pub struct PrintItem {
    pub dims: Dimensions,
    pub due_date: u64,
    pub print_time: u64,
    pub family: JobFamily,
}

/// Combined x-extent of a sequence of jobs.
pub open spec fn sum_x(items: Seq<PrintItem>) -> int
    decreases items.len(),
{
    if items.len() == 0 {
        0
    } else {
        sum_x(items.drop_last()) + items.last().dims.0
    }
}

/// Combined y-extent of a sequence of jobs.
pub open spec fn sum_y(items: Seq<PrintItem>) -> int
    decreases items.len(),
{
    if items.len() == 0 {
        0
    } else {
        sum_y(items.drop_last()) + items.last().dims.1
    }
}

/// Combined z-extent of a sequence of jobs.
pub open spec fn sum_z(items: Seq<PrintItem>) -> int
    decreases items.len(),
{
    if items.len() == 0 {
        0
    } else {
        sum_z(items.drop_last()) + items.last().dims.2
    }
}

/// Longest print duration among the jobs; zero for no jobs.
pub open spec fn max_duration(items: Seq<PrintItem>) -> int
    decreases items.len(),
{
    if items.len() == 0 {
        0
    } else {
        let rest = max_duration(items.drop_last());
        if items.last().print_time >= rest {
            items.last().print_time as int
        } else {
            rest
        }
    }
}

/// Footprint sums and the duration maximum are never negative.
pub proof fn lemma_sums_nonneg(items: Seq<PrintItem>)
    ensures
        sum_x(items) >= 0,
        sum_y(items) >= 0,
        sum_z(items) >= 0,
        max_duration(items) >= 0,
    decreases items.len(),
{
    if items.len() > 0 {
        lemma_sums_nonneg(items.drop_last());
    }
}

/// Appending a job adds its extents to the sums and joins its duration into
/// the maximum.
pub proof fn lemma_sum_push(items: Seq<PrintItem>, job: PrintItem)
    ensures
        sum_x(items.push(job)) == sum_x(items) + job.dims.0,
        sum_y(items.push(job)) == sum_y(items) + job.dims.1,
        sum_z(items.push(job)) == sum_z(items) + job.dims.2,
        max_duration(items.push(job)) == if job.print_time >= max_duration(items) {
            job.print_time as int
        } else {
            max_duration(items)
        },
{
    assert(items.push(job).drop_last() =~= items);
    assert(items.push(job).last() == job);
}

/// One step of a left-to-right walk over the jobs.
pub proof fn lemma_sum_take_step(items: Seq<PrintItem>, i: int)
    requires
        0 <= i < items.len(),
    ensures
        sum_x(items.take(i + 1)) == sum_x(items.take(i)) + items[i].dims.0,
        sum_y(items.take(i + 1)) == sum_y(items.take(i)) + items[i].dims.1,
        sum_z(items.take(i + 1)) == sum_z(items.take(i)) + items[i].dims.2,
        max_duration(items.take(i + 1)) == if items[i].print_time >= max_duration(items.take(i)) {
            items[i].print_time as int
        } else {
            max_duration(items.take(i))
        },
{
    assert(items.take(i + 1).drop_last() =~= items.take(i));
    assert(items.take(i + 1).last() == items[i]);
}

/// A prefix never exceeds the whole, on any axis or in duration.
pub proof fn lemma_sum_take_le(items: Seq<PrintItem>, i: int)
    requires
        0 <= i <= items.len(),
    ensures
        sum_x(items.take(i)) <= sum_x(items),
        sum_y(items.take(i)) <= sum_y(items),
        sum_z(items.take(i)) <= sum_z(items),
        max_duration(items.take(i)) <= max_duration(items),
    decreases items.len() - i,
{
    if i == items.len() {
        assert(items.take(i) =~= items);
    } else {
        lemma_sum_take_step(items, i);
        lemma_sum_take_le(items, i + 1);
    }
}

/// Removing a job subtracts its extents and can only lower the maximum.
pub proof fn lemma_sum_remove(items: Seq<PrintItem>, j: int)
    requires
        0 <= j < items.len(),
    ensures
        sum_x(items.remove(j)) == sum_x(items) - items[j].dims.0,
        sum_y(items.remove(j)) == sum_y(items) - items[j].dims.1,
        sum_z(items.remove(j)) == sum_z(items) - items[j].dims.2,
        max_duration(items.remove(j)) <= max_duration(items),
    decreases items.len(),
{
    if j == items.len() - 1 {
        assert(items.remove(j) =~= items.drop_last());
    } else {
        assert(items.remove(j).drop_last() =~= items.drop_last().remove(j));
        assert(items.remove(j).last() == items.last());
        assert(items.drop_last()[j] == items[j]);
        lemma_sum_remove(items.drop_last(), j);
    }
}

impl PrintItem {
    /// A job due `time_till_due` milliseconds from now.  The due date depends
    /// on the wall clock, so only what holds of every reading is promised: it
    /// is at least the offset.  It never enters a scheduling decision.
    pub fn new(dims: Dimensions, time_till_due: u64, print_time: u64, family: JobFamily) -> (r:
        PrintItem)
        ensures
            r.dims == dims,
            r.print_time == print_time,
            r.family == family,
            r.due_date >= time_till_due,
    {
        let now: u64 = now_millis();
        let due_date: u64 = if now <= u64::MAX - time_till_due {
            now + time_till_due
        } else {
            u64::MAX
        };
        PrintItem { dims, due_date, print_time, family }
    }
}

/// An ordered group of compatible jobs processed together in one machine run.
#[derive(Debug)]
pub struct Batch {
    pub items: Vec<PrintItem>,
    pub start_time: u64,
    pub print_time: u64,
    pub capacity: Dimensions,
    pub family: JobFamily,
}

/// How a batch changes when a job is admitted into it: the job is appended,
/// the duration becomes the maximum of old duration and the job's, and an
/// empty batch takes its family from this first job.
pub open spec fn batch_with_job(pre: Batch, post: Batch, job: PrintItem) -> bool {
    &&& post.items@ == pre.items@.push(job)
    &&& post.capacity == pre.capacity
    &&& post.start_time == pre.start_time
    &&& post.print_time == if job.print_time > pre.print_time {
        job.print_time as int
    } else {
        pre.print_time as int
    }
    &&& post.family.name == (if pre.items@.len() == 0 {
        job.family.name
    } else {
        pre.family.name
    })
    &&& post.family.config@ == (if pre.items@.len() == 0 {
        job.family.config@
    } else {
        pre.family.config@
    })
    &&& post.family@ == (if pre.items@.len() == 0 {
        job.family@
    } else {
        pre.family@
    })
    &&& pre.items@.len() > 0 ==> post.family == pre.family
}

impl Batch {
    /// The batch invariants: every job's family configuration equals the
    /// batch's, the combined footprint fits the capacity on every axis, the
    /// recorded duration is the maximum job duration, and the completion time
    /// is representable.
    pub open spec fn wf(self) -> bool {
        &&& self.family.wf()
        &&& forall|i: int|
            0 <= i < self.items@.len() ==> (#[trigger] self.items@[i]).family.wf()
        &&& forall|i: int|
            0 <= i < self.items@.len() ==> (#[trigger] self.items@[i]).family@ == self.family@
        &&& sum_x(self.items@) <= self.capacity.0
        &&& sum_y(self.items@) <= self.capacity.1
        &&& sum_z(self.items@) <= self.capacity.2
        &&& self.print_time == max_duration(self.items@)
        &&& self.start_time + self.print_time <= u64::MAX
    }

    /// An empty batch with the given capacity and start time.  Its family is
    /// a placeholder until the first admitted job fixes it.
    pub fn new(capacity: Dimensions, start_time: u64) -> (r: Batch)
        ensures
            r.wf(),
            r.items@.len() == 0,
            r.capacity == capacity,
            r.start_time == start_time,
            r.print_time == 0,
    {
        Batch {
            items: Vec::new(),
            start_time,
            print_time: 0,
            capacity,
            family: JobFamily::new("Job Family 1".to_owned()),
        }
    }

    /// Whether a job of footprint `dims` still fits: the combined footprint
    /// of the present jobs plus `dims` must not exceed the capacity on any of
    /// the three axes, each axis checked independently.
    pub fn can_fit(&self, dims: &Dimensions) -> (r: bool)
        requires
            self.wf(),
        ensures
            r == (sum_x(self.items@) + dims.0 <= self.capacity.0 && sum_y(self.items@) + dims.1
                <= self.capacity.1 && sum_z(self.items@) + dims.2 <= self.capacity.2),
    {
        let mut sx: u64 = 0;
        let mut sy: u64 = 0;
        let mut sz: u64 = 0;
        let mut i: usize = 0;
        while i < self.items.len()
            invariant
                i <= self.items@.len(),
                self.wf(),
                sx == sum_x(self.items@.take(i as int)),
                sy == sum_y(self.items@.take(i as int)),
                sz == sum_z(self.items@.take(i as int)),
                sx <= u32::MAX,
                sy <= u32::MAX,
                sz <= u32::MAX,
            decreases self.items@.len() - i,
        {
            proof {
                lemma_sum_take_step(self.items@, i as int);
                lemma_sum_take_le(self.items@, i + 1 as int);
                lemma_sums_nonneg(self.items@.take(i + 1 as int));
            }
            sx = sx + self.items[i].dims.0 as u64;
            sy = sy + self.items[i].dims.1 as u64;
            sz = sz + self.items[i].dims.2 as u64;
            i += 1;
        }
        proof {
            assert(self.items@.take(self.items@.len() as int) =~= self.items@);
        }
        sx + dims.0 as u64 <= self.capacity.0 as u64 && sy + dims.1 as u64 <= self.capacity.1
            as u64 && sz + dims.2 as u64 <= self.capacity.2 as u64
    }

    /// When this batch's run will end: its start time plus its duration,
    /// which for a well-formed batch is the maximum job duration — and the
    /// bare start time for an empty batch.
    pub fn est_completion_time(&self) -> (r: u64)
        requires
            self.start_time + self.print_time <= u64::MAX,
        ensures
            r == self.start_time + self.print_time,
            self.wf() ==> r == self.start_time + max_duration(self.items@),
            self.wf() && self.items@.len() == 0 ==> r == self.start_time,
    {
        self.start_time + self.print_time
    }

    /// Admit a job: append it, raise the duration to the maximum of old and
    /// new, and let the first job of an empty batch fix the family.
    pub fn add(&mut self, item: PrintItem)
        requires
            old(self).wf(),
            item.family.wf(),
            old(self).items@.len() == 0 || item.family@ == old(self).family@,
            sum_x(old(self).items@) + item.dims.0 <= old(self).capacity.0,
            sum_y(old(self).items@) + item.dims.1 <= old(self).capacity.1,
            sum_z(old(self).items@) + item.dims.2 <= old(self).capacity.2,
            old(self).start_time + item.print_time <= u64::MAX,
        ensures
            final(self).wf(),
            batch_with_job(*old(self), *final(self), item),
    {
        if self.items.len() == 0 {
            self.family = item.family.duplicate();
        }
        if item.print_time > self.print_time {
            self.print_time = item.print_time;
        }
        proof {
            lemma_sum_push(self.items@, item);
        }
        self.items.push(item);
        proof {
            assert forall|i: int| 0 <= i < self.items@.len() implies (#[trigger] self.items@[i]).family@
                == self.family@ && self.items@[i].family.wf() by {
                if i < self.items@.len() - 1 {
                    assert(self.items@[i] == old(self).items@[i]);
                } else {
                    assert(self.items@[i] == item);
                }
            }
        }
    }

    /// Remove the job at `index`, shrinking the duration back to the maximum
    /// over the remaining jobs; reports the invalid position otherwise.
    pub fn remove(&mut self, index: usize) -> (r: Result<(), ScheduleError>)
        requires
            old(self).wf(),
        ensures
            final(self).wf(),
            index >= old(self).items@.len() ==> r == Err::<(), ScheduleError>(
                ScheduleError::IndexOutOfRange,
            ) && *final(self) == *old(self),
            index < old(self).items@.len() ==> {
                &&& r == Ok::<(), ScheduleError>(())
                &&& final(self).items@ == old(self).items@.remove(index as int)
                &&& final(self).capacity == old(self).capacity
                &&& final(self).start_time == old(self).start_time
                &&& final(self).family == old(self).family
                &&& final(self).print_time == max_duration(final(self).items@)
                &&& final(self).print_time <= old(self).print_time
            },
    {
        if index >= self.items.len() {
            return Err(ScheduleError::IndexOutOfRange);
        }
        proof {
            lemma_sum_remove(self.items@, index as int);
            lemma_sums_nonneg(self.items@.remove(index as int));
        }
        self.items.remove(index);
        let ghost mid = *self;
        let mut mx: u64 = 0;
        let mut i: usize = 0;
        while i < self.items.len()
            invariant
                *self == mid,
                i <= self.items@.len(),
                mx == max_duration(self.items@.take(i as int)),
            decreases self.items@.len() - i,
        {
            proof {
                lemma_sum_take_step(self.items@, i as int);
            }
            let pt: u64 = self.items[i].print_time;
            if pt > mx {
                mx = pt;
            }
            i += 1;
        }
        proof {
            assert(self.items@.take(self.items@.len() as int) =~= self.items@);
        }
        self.print_time = mx;
        proof {
            assert forall|i: int| 0 <= i < self.items@.len() implies (#[trigger] self.items@[i]).family@
                == self.family@ && self.items@[i].family.wf() by {
                if i < index {
                    assert(self.items@[i] == old(self).items@[i]);
                } else {
                    assert(self.items@[i] == old(self).items@[i + 1]);
                }
            }
        }
        Ok(())
    }
}

} // verus!
