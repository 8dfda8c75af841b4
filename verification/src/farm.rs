//! The fleet and its admission engine.  A farm owns an ordered sequence of
//! machines; a submitted job joins the first batch, in machine order then
//! queue order, whose family matches and whose remaining capacity holds it.
//! When no open batch admits the job, a new batch is opened at the tail of a
//! machine chosen by the farm's placement policy; a job too large for every
//! machine's raw capacity is rejected outright.

use vstd::prelude::*;

use crate::batch::{
    Batch, PrintItem, batch_with_job, lemma_sums_nonneg, max_duration, sum_x,
    sum_y, sum_z,
};
use crate::error::ScheduleError;
use crate::machine::{
    Machine, batch_retimed, lemma_chain, lemma_retimed_wf, lemma_sum_durs_agree,
    lemma_sum_durs_nonneg, queue_ordered, spec_completion, sum_durs,
};
use crate::model::{Dimensions, spec_fits};

verus! {

/// Which machine receives a new batch when no open batch admits a job.
#[derive(Debug, Clone, Copy, PartialEq, Eq, Structural)]
pub enum NewBatchPolicy {
    /// The first machine, in farm order, whose raw capacity holds the job.
    FirstEligible,
    /// Among machines whose raw capacity holds the job, the one whose queue
    /// ends soonest; the earlier machine on ties.
    EarliestCompletion,
}

/// The batch admits the job: its family matches (an empty batch matches any
/// family, which the first admitted job then fixes) and the combined
/// footprint of its jobs plus the new one fits its capacity on every axis.
pub open spec fn batch_accepts(b: Batch, job: PrintItem) -> bool {
    &&& b.items@.len() == 0 || b.family@ == job.family@
    &&& sum_x(b.items@) + job.dims.0 <= b.capacity.0
    &&& sum_y(b.items@) + job.dims.1 <= b.capacity.1
    &&& sum_z(b.items@) + job.dims.2 <= b.capacity.2
}

/// No batch queued on the machine admits the job.
pub open spec fn no_batch_accepts(m: Machine, job: PrintItem) -> bool {
    forall|j: int| 0 <= j < m.schedule@.len() ==> !batch_accepts(#[trigger] m.schedule@[j], job)
}

/// The machine's raw capacity holds the job alone, in an empty batch.
pub open spec fn eligible(m: Machine, job: PrintItem) -> bool {
    spec_fits(job.dims, m.cap())
}

/// Some machine of the farm could hold the job, at worst alone in a fresh
/// batch.  Exactly when this fails, admission reports `JobTooLarge`.
pub open spec fn exists_eligible(f: Farm, job: PrintItem) -> bool {
    exists|mi: int| 0 <= mi < f.machines@.len() && eligible(#[trigger] f.machines@[mi], job)
}

/// Some already-open batch of the farm admits the job.
pub open spec fn exists_fit(f: Farm, job: PrintItem) -> bool {
    exists|mi: int|
        0 <= mi < f.machines@.len() && !no_batch_accepts(#[trigger] f.machines@[mi], job)
}

/// Batch `bi` of machine `mi` is the first batch, in machine order then
/// queue order, that admits the job.
pub open spec fn is_first_fit(f: Farm, job: PrintItem, mi: int, bi: int) -> bool {
    &&& 0 <= mi < f.machines@.len()
    &&& 0 <= bi < f.machines@[mi].schedule@.len()
    &&& batch_accepts(f.machines@[mi].schedule@[bi], job)
    &&& forall|m: int| 0 <= m < mi ==> no_batch_accepts(#[trigger] f.machines@[m], job)
    &&& forall|j: int|
        0 <= j < bi ==> !batch_accepts(#[trigger] f.machines@[mi].schedule@[j], job)
}

/// Machine `mi` is the first, in farm order, whose raw capacity holds the job.
pub open spec fn is_first_eligible(f: Farm, job: PrintItem, mi: int) -> bool {
    &&& 0 <= mi < f.machines@.len()
    &&& eligible(f.machines@[mi], job)
    &&& forall|m: int| 0 <= m < mi ==> !eligible(#[trigger] f.machines@[m], job)
}

/// Machine `mi` holds the job and its queue ends no later than any other
/// machine's that does; earlier machines on ties end strictly later.
pub open spec fn is_earliest_eligible(f: Farm, job: PrintItem, mi: int) -> bool {
    &&& 0 <= mi < f.machines@.len()
    &&& eligible(f.machines@[mi], job)
    &&& forall|m: int|
        0 <= m < f.machines@.len() && eligible(#[trigger] f.machines@[m], job) ==> spec_completion(
            f.machines@[mi],
        ) <= spec_completion(f.machines@[m])
    &&& forall|m: int|
        0 <= m < mi && eligible(#[trigger] f.machines@[m], job) ==> spec_completion(
            f.machines@[m],
        ) > spec_completion(f.machines@[mi])
}

/// The machine the farm's policy selects for a new batch.
pub open spec fn policy_choice(f: Farm, job: PrintItem, mi: int) -> bool {
    match f.policy {
        NewBatchPolicy::FirstEligible => is_first_eligible(f, job, mi),
        NewBatchPolicy::EarliestCompletion => is_earliest_eligible(f, job, mi),
    }
}

/// Where an admitted job must land: the first fitting batch when one exists,
/// otherwise a new batch (`bi` one past the queue) on the policy's machine.
pub open spec fn spec_target(f: Farm, job: PrintItem, mi: int, bi: int) -> bool {
    if exists_fit(f, job) {
        is_first_fit(f, job, mi, bi)
    } else {
        policy_choice(f, job, mi) && bi == f.machines@[mi].schedule@.len()
    }
}

/// How machine `mi` changes when the job is admitted at queue position `bi`:
/// either an existing batch gains the job and the batches after it are
/// re-timed to keep the queue completion-ordered, or a new one-job batch of
/// the machine's capacity opens at the tail, starting when the queue ends.
pub open spec fn machine_admits_to(pre: Machine, post: Machine, job: PrintItem, bi: int) -> bool {
    &&& post.name == pre.name
    &&& post.is_running == pre.is_running
    &&& post.config == pre.config
    &&& 0 <= bi <= pre.schedule@.len()
    &&& if bi < pre.schedule@.len() {
        &&& post.schedule@.len() == pre.schedule@.len()
        &&& forall|i: int| 0 <= i < bi ==> post.schedule@[i] == pre.schedule@[i]
        &&& batch_with_job(pre.schedule@[bi], post.schedule@[bi], job)
        &&& forall|i: int|
            bi < i < pre.schedule@.len() ==> batch_retimed(
                pre.schedule@[i],
                #[trigger] post.schedule@[i],
            )
        &&& forall|i: int|
            bi < i < post.schedule@.len() ==> (#[trigger] post.schedule@[i]).start_time
                == post.schedule@[i - 1].start_time + post.schedule@[i - 1].print_time
    } else {
        &&& post.schedule@.len() == pre.schedule@.len() + 1
        &&& forall|i: int| 0 <= i < pre.schedule@.len() ==> post.schedule@[i] == pre.schedule@[i]
        &&& post.schedule@[bi].items@.len() == 1
        &&& post.schedule@[bi].items@[0] == job
        &&& post.schedule@[bi].capacity == pre.cap()
        &&& post.schedule@[bi].start_time == spec_completion(pre)
        &&& post.schedule@[bi].print_time == job.print_time
        &&& post.schedule@[bi].family.name == job.family.name
        &&& post.schedule@[bi].family.config@ == job.family.config@
        &&& post.schedule@[bi].family@ == job.family@
    }
}

/// How the farm changes when the job is admitted on machine `mi` at queue
/// position `bi`: every other machine is untouched.
pub open spec fn admits_to(pre: Farm, post: Farm, job: PrintItem, mi: int, bi: int) -> bool {
    &&& 0 <= mi < pre.machines@.len()
    &&& post.machines@.len() == pre.machines@.len()
    &&& forall|m: int|
        0 <= m < pre.machines@.len() && m != mi ==> post.machines@[m] == #[trigger] pre.machines@[m]
    &&& machine_admits_to(pre.machines@[mi], post.machines@[mi], job, bi)
}

/// How a batch changes when the job at position `ji` is removed: the job
/// leaves, the duration shrinks back to the maximum over the remaining jobs,
/// and nothing else moves.
pub open spec fn batch_without_item(pre: Batch, post: Batch, ji: int) -> bool {
    &&& post.items@ == pre.items@.remove(ji)
    &&& post.capacity == pre.capacity
    &&& post.start_time == pre.start_time
    &&& post.family == pre.family
    &&& post.print_time == max_duration(post.items@)
}

/// How machine `mi` changes when job `ji` of batch `bi` is removed: that
/// batch loses the job and the batches behind it are re-timed to keep the
/// queue completion-ordered.
pub open spec fn machine_removes_to(pre: Machine, post: Machine, bi: int, ji: int) -> bool {
    &&& post.name == pre.name
    &&& post.is_running == pre.is_running
    &&& post.config == pre.config
    &&& post.schedule@.len() == pre.schedule@.len()
    &&& forall|i: int| 0 <= i < bi ==> post.schedule@[i] == pre.schedule@[i]
    &&& batch_without_item(pre.schedule@[bi], post.schedule@[bi], ji)
    &&& forall|i: int|
        bi < i < pre.schedule@.len() ==> batch_retimed(
            pre.schedule@[i],
            #[trigger] post.schedule@[i],
        )
    &&& forall|i: int|
        bi < i < post.schedule@.len() ==> (#[trigger] post.schedule@[i]).start_time
            == post.schedule@[i - 1].start_time + post.schedule@[i - 1].print_time
}

/// How the farm changes when job `ji` of batch `bi` on machine `mi` is
/// removed: every other machine is untouched.
pub open spec fn removes_to(pre: Farm, post: Farm, mi: int, bi: int, ji: int) -> bool {
    &&& 0 <= mi < pre.machines@.len()
    &&& post.machines@.len() == pre.machines@.len()
    &&& forall|m: int|
        0 <= m < pre.machines@.len() && m != mi ==> post.machines@[m] == #[trigger] pre.machines@[m]
    &&& machine_removes_to(pre.machines@[mi], post.machines@[mi], bi, ji)
}

/// A machine whose batch `bi` lost a job (turning schedule `s1`) and whose
/// later batches were then re-timed is well-formed and is exactly what
/// removal promises of it.
proof fn lemma_remove_machine(m0: Machine, s1: Seq<Batch>, m1: Machine, bi: int, ji: int)
    requires
        m0.wf(),
        0 <= bi < m0.schedule@.len(),
        s1.len() == m0.schedule@.len(),
        forall|i: int| 0 <= i < s1.len() && i != bi ==> #[trigger] s1[i] == m0.schedule@[i],
        batch_without_item(m0.schedule@[bi], s1[bi], ji),
        s1[bi].wf(),
        m1.name == m0.name,
        m1.is_running == m0.is_running,
        m1.config == m0.config,
        m1.schedule@.len() == s1.len(),
        forall|i: int| 0 <= i < bi + 1 ==> #[trigger] m1.schedule@[i] == s1[i],
        forall|i: int| bi + 1 <= i < s1.len() ==> batch_retimed(s1[i], #[trigger] m1.schedule@[i]),
        forall|i: int|
            bi + 1 <= i < s1.len() ==> (#[trigger] m1.schedule@[i]).start_time
                == m1.schedule@[i - 1].start_time + m1.schedule@[i - 1].print_time,
        forall|i: int|
            bi + 1 <= i < s1.len() ==> (#[trigger] m1.schedule@[i]).start_time
                + m1.schedule@[i].print_time <= u64::MAX,
    ensures
        m1.wf(),
        machine_removes_to(m0, m1, bi, ji),
{
    let s2 = m1.schedule@;
    assert forall|i: int| 0 <= i < bi implies #[trigger] s2[i] == m0.schedule@[i] by {
        assert(s1[i] == m0.schedule@[i]);
    }
    assert(batch_without_item(m0.schedule@[bi], s2[bi], ji));
    assert forall|i: int|
        bi < i < s2.len() implies batch_retimed(m0.schedule@[i], #[trigger] s2[i]) by {
        assert(batch_retimed(s1[i], s2[i]));
        assert(s1[i] == m0.schedule@[i]);
    }
    assert forall|i: int| 0 <= i < s2.len() implies (#[trigger] s2[i]).wf() by {
        if i < bi {
            assert(s2[i] == m0.schedule@[i]);
            assert(m0.schedule@[i].wf());
        } else if i == bi {
            assert(s2[i] == s1[bi]);
        } else {
            assert(m0.schedule@[i].wf());
            lemma_retimed_wf(m0.schedule@[i], s2[i]);
        }
    }
    assert forall|i: int| 0 <= i < s2.len() implies (#[trigger] s2[i]).capacity == m1.cap() by {
        assert(s2[0].capacity == m0.schedule@[0].capacity);
        assert(s2[i].capacity == m0.schedule@[i].capacity);
    }
    assert(queue_ordered(s2)) by {
        assert forall|i: int|
            1 <= i < s2.len() implies (#[trigger] s2[i]).start_time == s2[i - 1].start_time + s2[i
            - 1].print_time by {
            if i <= bi {
                assert(s2[i].start_time == m0.schedule@[i].start_time);
                assert(s2[i - 1].start_time == m0.schedule@[i - 1].start_time);
                assert(s2[i - 1].print_time == m0.schedule@[i - 1].print_time);
                assert(m0.schedule@[i].start_time == m0.schedule@[i - 1].start_time + m0.schedule@[i
                    - 1].print_time);
            }
        }
    }
}

/// A machine whose batch `bi` gained a job (turning schedule `s1`) and whose
/// later batches were then re-timed is well-formed and is exactly what
/// admission promises of it.
proof fn lemma_admit_machine(m0: Machine, s1: Seq<Batch>, m1: Machine, job: PrintItem, bi: int)
    requires
        m0.wf(),
        0 <= bi < m0.schedule@.len(),
        s1.len() == m0.schedule@.len(),
        forall|i: int| 0 <= i < s1.len() && i != bi ==> #[trigger] s1[i] == m0.schedule@[i],
        batch_with_job(m0.schedule@[bi], s1[bi], job),
        s1[bi].wf(),
        m1.name == m0.name,
        m1.is_running == m0.is_running,
        m1.config == m0.config,
        m1.schedule@.len() == s1.len(),
        forall|i: int| 0 <= i < bi + 1 ==> #[trigger] m1.schedule@[i] == s1[i],
        forall|i: int| bi + 1 <= i < s1.len() ==> batch_retimed(s1[i], #[trigger] m1.schedule@[i]),
        forall|i: int|
            bi + 1 <= i < s1.len() ==> (#[trigger] m1.schedule@[i]).start_time
                == m1.schedule@[i - 1].start_time + m1.schedule@[i - 1].print_time,
        forall|i: int|
            bi + 1 <= i < s1.len() ==> (#[trigger] m1.schedule@[i]).start_time
                + m1.schedule@[i].print_time <= u64::MAX,
    ensures
        m1.wf(),
        machine_admits_to(m0, m1, job, bi),
{
    let s2 = m1.schedule@;
    assert forall|i: int| 0 <= i < bi implies #[trigger] s2[i] == m0.schedule@[i] by {
        assert(s1[i] == m0.schedule@[i]);
    }
    assert(batch_with_job(m0.schedule@[bi], s2[bi], job));
    assert forall|i: int|
        bi < i < s2.len() implies batch_retimed(m0.schedule@[i], #[trigger] s2[i]) by {
        assert(batch_retimed(s1[i], s2[i]));
        assert(s1[i] == m0.schedule@[i]);
    }
    assert forall|i: int| 0 <= i < s2.len() implies (#[trigger] s2[i]).wf() by {
        if i < bi {
            assert(s2[i] == m0.schedule@[i]);
            assert(m0.schedule@[i].wf());
        } else if i == bi {
            assert(s2[i] == s1[bi]);
        } else {
            assert(m0.schedule@[i].wf());
            lemma_retimed_wf(m0.schedule@[i], s2[i]);
        }
    }
    assert forall|i: int| 0 <= i < s2.len() implies (#[trigger] s2[i]).capacity == m1.cap() by {
        assert(s2[0].capacity == m0.schedule@[0].capacity);
        assert(s2[i].capacity == m0.schedule@[i].capacity);
    }
    assert(queue_ordered(s2)) by {
        assert forall|i: int|
            1 <= i < s2.len() implies (#[trigger] s2[i]).start_time == s2[i - 1].start_time + s2[i
            - 1].print_time by {
            if i <= bi {
                assert(s2[i].start_time == m0.schedule@[i].start_time);
                assert(s2[i - 1].start_time == m0.schedule@[i - 1].start_time);
                assert(s2[i - 1].print_time == m0.schedule@[i - 1].print_time);
                assert(m0.schedule@[i].start_time == m0.schedule@[i - 1].start_time + m0.schedule@[i
                    - 1].print_time);
            }
        }
    }
}

/// Replacing machine `mi` of a well-formed farm by a well-formed machine
/// that admitted the job leaves the farm well-formed, and the farm change is
/// exactly what admission promises.
proof fn lemma_admit_farm(pre: Farm, post: Farm, m1: Machine, job: PrintItem, mi: int, bi: int)
    requires
        pre.wf(),
        0 <= mi < pre.machines@.len(),
        post.machines@ == pre.machines@.update(mi, m1),
        m1.wf(),
        machine_admits_to(pre.machines@[mi], m1, job, bi),
    ensures
        post.wf(),
        post.machines@.len() == pre.machines@.len(),
        admits_to(pre, post, job, mi, bi),
{
    assert(post.machines@[mi] == m1);
    assert forall|i: int|
        0 <= i < post.machines@.len() implies (#[trigger] post.machines@[i]).wf() by {
        if i != mi {
            assert(post.machines@[i] == pre.machines@[i]);
        }
    }
}

/// Replacing machine `mi` of a well-formed farm by a well-formed machine
/// that lost a job leaves the farm well-formed, and the farm change is
/// exactly what removal promises.
proof fn lemma_remove_farm(pre: Farm, post: Farm, m1: Machine, mi: int, bi: int, ji: int)
    requires
        pre.wf(),
        0 <= mi < pre.machines@.len(),
        post.machines@ == pre.machines@.update(mi, m1),
        m1.wf(),
        machine_removes_to(pre.machines@[mi], m1, bi, ji),
    ensures
        post.wf(),
        post.machines@.len() == pre.machines@.len(),
        removes_to(pre, post, mi, bi, ji),
{
    assert(post.machines@[mi] == m1);
    assert forall|i: int|
        0 <= i < post.machines@.len() implies (#[trigger] post.machines@[i]).wf() by {
        if i != mi {
            assert(post.machines@[i] == pre.machines@[i]);
        }
    }
}

/// The fleet: an ordered sequence of machines, searched in order on every
/// admission, and the placement policy for new batches.
#[derive(Debug)]
pub struct Farm {
    pub machines: Vec<Machine>,
    pub policy: NewBatchPolicy,
}

impl Farm {
    /// Every machine of the farm is well-formed.
    pub open spec fn wf(self) -> bool {
        forall|i: int| 0 <= i < self.machines@.len() ==> (#[trigger] self.machines@[i]).wf()
    }

    /// An empty farm placing new batches on the first machine that can hold
    /// the job.
    pub fn new() -> (r: Farm)
        ensures
            r.wf(),
            r.machines@.len() == 0,
            r.policy == NewBatchPolicy::FirstEligible,
    {
        Farm { machines: Vec::new(), policy: NewBatchPolicy::FirstEligible }
    }

    /// An empty farm with an explicit placement policy for new batches.
    pub fn with_policy(policy: NewBatchPolicy) -> (r: Farm)
        ensures
            r.wf(),
            r.machines@.len() == 0,
            r.policy == policy,
    {
        Farm { machines: Vec::new(), policy }
    }

    /// Append a machine; it becomes the last searched on admission.
    pub fn add_machine(&mut self, machine: Machine)
        ensures
            final(self).machines@ == old(self).machines@.push(machine),
            final(self).policy == old(self).policy,
            old(self).wf() && machine.wf() ==> final(self).wf(),
    {
        self.machines.push(machine);
        proof {
            if old(self).wf() && machine.wf() {
                assert forall|i: int|
                    0 <= i < self.machines@.len() implies (#[trigger] self.machines@[i]).wf() by {
                    if i < self.machines@.len() - 1 {
                        assert(self.machines@[i] == old(self).machines@[i]);
                    }
                }
            }
        }
    }

    /// Remove the machine at `index` and its whole queue; reports the
    /// invalid position otherwise.
    pub fn remove_machine(&mut self, index: usize) -> (r: Result<(), ScheduleError>)
        ensures
            final(self).policy == old(self).policy,
            index < old(self).machines@.len() ==> r == Ok::<(), ScheduleError>(())
                && final(self).machines@ == old(self).machines@.remove(index as int),
            index >= old(self).machines@.len() ==> r == Err::<(), ScheduleError>(
                ScheduleError::IndexOutOfRange,
            ) && *final(self) == *old(self),
            old(self).wf() ==> final(self).wf(),
    {
        if index >= self.machines.len() {
            return Err(ScheduleError::IndexOutOfRange);
        }
        self.machines.remove(index);
        proof {
            if old(self).wf() {
                assert forall|i: int|
                    0 <= i < self.machines@.len() implies (#[trigger] self.machines@[i]).wf() by {
                    if i < index {
                        assert(self.machines@[i] == old(self).machines@[i]);
                    } else {
                        assert(self.machines@[i] == old(self).machines@[i + 1]);
                    }
                }
            }
        }
        Ok(())
    }

    /// Remove one job, named by machine position, batch position in that
    /// machine's queue, and item position in that batch.  The batch's
    /// duration shrinks back to the maximum over its remaining jobs and the
    /// batches behind it are re-timed; any invalid position is reported and
    /// changes nothing.
    pub fn remove_job(&mut self, machine: usize, batch: usize, item: usize) -> (r: Result<
        (),
        ScheduleError,
    >)
        requires
            old(self).wf(),
        ensures
            final(self).wf(),
            final(self).policy == old(self).policy,
            !((machine as int) < old(self).machines@.len()
                && (batch as int) < old(self).machines@[machine as int].schedule@.len()
                && (item as int)
                < old(self).machines@[machine as int].schedule@[batch as int].items@.len())
                ==> r == Err::<(), ScheduleError>(ScheduleError::IndexOutOfRange)
                && *final(self) == *old(self),
            ((machine as int) < old(self).machines@.len()
                && (batch as int) < old(self).machines@[machine as int].schedule@.len()
                && (item as int)
                < old(self).machines@[machine as int].schedule@[batch as int].items@.len())
                ==> r == Ok::<(), ScheduleError>(())
                && removes_to(*old(self), *final(self), machine as int, batch as int, item as int),
    {
        if machine >= self.machines.len() {
            return Err(ScheduleError::IndexOutOfRange);
        }
        if batch >= self.machines[machine].schedule.len() {
            return Err(ScheduleError::IndexOutOfRange);
        }
        if item >= self.machines[machine].schedule[batch].items.len() {
            return Err(ScheduleError::IndexOutOfRange);
        }
        let ghost pre = *self;
        let ghost m0 = pre.machines@[machine as int];
        let ghost b0 = m0.schedule@[batch as int];
        proof {
            assert(m0.wf());
            assert(b0.wf());
            lemma_chain(m0.schedule@, batch as int);
            assert(m0.schedule@[m0.schedule@.len() - 1].wf());
        }
        let mref = &mut self.machines[machine];
        {
            let bref = &mut mref.schedule[batch];
            let _ = bref.remove(item);
        }
        let ghost s1 = mref.schedule@;
        proof {
            assert(s1 == m0.schedule@.update(batch as int, s1[batch as int]));
            assert(batch_without_item(b0, s1[batch as int], item as int));
            lemma_sum_durs_agree(s1, m0.schedule@, batch as int + 1);
            assert(sum_durs(s1, batch as int) == s1[batch as int].print_time + sum_durs(
                s1,
                batch as int + 1,
            ));
            assert(sum_durs(m0.schedule@, batch as int) == b0.print_time + sum_durs(
                m0.schedule@,
                batch as int + 1,
            ));
            assert(s1[batch as int].start_time + sum_durs(s1, batch as int) <= u64::MAX);
        }
        let n: usize = mref.schedule.len();
        assert(batch < n);
        mref.reflow(batch + 1);
        proof {
            assert forall|i: int|
                0 <= i < s1.len() && i != batch as int implies #[trigger] s1[i]
                == m0.schedule@[i] by {}
            lemma_remove_machine(m0, s1, *mref, batch as int, item as int);
        }
        proof {
            assert(self.machines@ == pre.machines@.update(
                machine as int,
                self.machines@[machine as int],
            ));
            lemma_remove_farm(
                pre,
                *self,
                self.machines@[machine as int],
                machine as int,
                batch as int,
                item as int,
            );
        }
        Ok(())
    }

    /// Admit a job.
    ///
    /// The job joins the first batch, in machine order then queue order,
    /// whose family matches and whose remaining capacity holds it; the
    /// batches behind it are re-timed so each still starts when its
    /// predecessor ends.  When no open batch admits the job, a new batch
    /// opens at the tail of the machine the policy selects.  The call
    /// returns `Ok` exactly when some machine's raw capacity could hold the
    /// job, and `JobTooLarge`, changing nothing, otherwise.
    pub fn add_job(&mut self, job: PrintItem) -> (r: Result<(), ScheduleError>)
        requires
            old(self).wf(),
            job.family.wf(),
            forall|m: int|
                0 <= m < old(self).machines@.len() ==> spec_completion(
                    #[trigger] old(self).machines@[m],
                ) + job.print_time <= u64::MAX,
        ensures
            final(self).wf(),
            final(self).policy == old(self).policy,
            final(self).machines@.len() == old(self).machines@.len(),
            (r == Ok::<(), ScheduleError>(())) == exists_eligible(*old(self), job),
            r is Err ==> *final(self) == *old(self) && r == Err::<(), ScheduleError>(
                ScheduleError::JobTooLarge,
            ),
            r is Ok ==> exists|mi: int, bi: int|
                spec_target(*old(self), job, mi, bi) && #[trigger] admits_to(
                    *old(self),
                    *final(self),
                    job,
                    mi,
                    bi,
                ),
    {
        let ghost pre = *self;
        // First-fit search over machines in farm order, batches in queue order.
        let mut mi: usize = 0;
        while mi < self.machines.len()
            invariant
                *self == pre,
                pre == *old(self),
                pre.wf(),
                job.family.wf(),
                mi <= pre.machines@.len(),
                forall|m: int|
                    0 <= m < pre.machines@.len() ==> spec_completion(#[trigger] pre.machines@[m])
                        + job.print_time <= u64::MAX,
                forall|m: int| 0 <= m < mi ==> no_batch_accepts(#[trigger] pre.machines@[m], job),
            decreases pre.machines@.len() - mi,
        {
            let mut bi: usize = 0;
            let nb: usize = self.machines[mi].schedule.len();
            while bi < nb
                invariant
                    *self == pre,
                    pre == *old(self),
                    pre.wf(),
                    job.family.wf(),
                    mi < pre.machines@.len(),
                    nb == pre.machines@[mi as int].schedule@.len(),
                    bi <= nb,
                    forall|m: int|
                        0 <= m < pre.machines@.len() ==> spec_completion(
                            #[trigger] pre.machines@[m],
                        ) + job.print_time <= u64::MAX,
                    forall|m: int|
                        0 <= m < mi ==> no_batch_accepts(#[trigger] pre.machines@[m], job),
                    forall|j: int|
                        0 <= j < bi ==> !batch_accepts(
                            #[trigger] pre.machines@[mi as int].schedule@[j],
                            job,
                        ),
                decreases nb - bi,
            {
                proof {
                    assert(pre.machines@[mi as int].wf());
                    assert(pre.machines@[mi as int].schedule@[bi as int].wf());
                }
                let compat: bool;
                {
                    let b = &self.machines[mi].schedule[bi];
                    compat = if b.items.len() == 0 {
                        true
                    } else {
                        job.family.compatible(&b.family)
                    };
                }
                let fits: bool;
                {
                    let b = &self.machines[mi].schedule[bi];
                    fits = b.can_fit(&job.dims);
                }
                if compat && fits {
                    proof {
                        assert(batch_accepts(pre.machines@[mi as int].schedule@[bi as int], job));
                        lemma_sums_nonneg(pre.machines@[mi as int].schedule@[bi as int].items@);
                        assert(pre.machines@[mi as int].wf());
                        assert(eligible(pre.machines@[mi as int], job));
                        assert(exists_eligible(pre, job));
                        assert(!no_batch_accepts(pre.machines@[mi as int], job));
                        assert(exists_fit(pre, job));
                        assert(is_first_fit(pre, job, mi as int, bi as int));
                    }
                    self.admit_at(job, mi, bi);
                    proof {
                        assert(spec_target(pre, job, mi as int, bi as int) && admits_to(
                            pre,
                            *self,
                            job,
                            mi as int,
                            bi as int,
                        ));
                    }
                    return Ok(());
                }
                proof {
                    assert(!batch_accepts(pre.machines@[mi as int].schedule@[bi as int], job));
                }
                bi += 1;
            }
            mi += 1;
        }
        // No open batch admits the job: open a new batch on the machine the
        // policy selects, or reject a job no machine could ever hold.
        proof {
            assert(!exists_fit(pre, job));
        }
        let mut found: bool = false;
        let mut sel: usize = 0;
        match self.policy {
            NewBatchPolicy::FirstEligible => {
                let mut m: usize = 0;
                while m < self.machines.len() && !found
                    invariant
                        *self == pre,
                        pre == *old(self),
                        pre.wf(),
                        m <= pre.machines@.len(),
                        !found ==> forall|k: int|
                            0 <= k < m ==> !eligible(#[trigger] pre.machines@[k], job),
                        found ==> is_first_eligible(pre, job, sel as int),
                    decreases pre.machines@.len() - m,
                {
                    proof {
                        assert(pre.machines@[m as int].wf());
                    }
                    let cap = self.machines[m].schedule[0].capacity;
                    if job.dims.fits(cap) {
                        sel = m;
                        found = true;
                    }
                    m += 1;
                }
            },
            NewBatchPolicy::EarliestCompletion => {
                let mut m: usize = 0;
                let mut best: u64 = 0;
                while m < self.machines.len()
                    invariant
                        *self == pre,
                        pre == *old(self),
                        pre.wf(),
                        m <= pre.machines@.len(),
                        !found ==> forall|k: int|
                            0 <= k < m ==> !eligible(#[trigger] pre.machines@[k], job),
                        found ==> {
                            &&& (sel as int) < pre.machines@.len()
                            &&& eligible(pre.machines@[sel as int], job)
                            &&& best == spec_completion(pre.machines@[sel as int])
                            &&& forall|k: int|
                                0 <= k < m && eligible(#[trigger] pre.machines@[k], job)
                                    ==> spec_completion(pre.machines@[sel as int])
                                    <= spec_completion(pre.machines@[k])
                            &&& forall|k: int|
                                0 <= k < sel && eligible(#[trigger] pre.machines@[k], job)
                                    ==> spec_completion(pre.machines@[k]) > spec_completion(
                                    pre.machines@[sel as int],
                                )
                        },
                    decreases pre.machines@.len() - m,
                {
                    proof {
                        assert(pre.machines@[m as int].wf());
                    }
                    let cap = self.machines[m].schedule[0].capacity;
                    if job.dims.fits(cap) {
                        let li: usize = self.machines[m].schedule.len() - 1;
                        let c: u64 = self.machines[m].schedule[li].est_completion_time();
                        proof {
                            assert(pre.machines@[m as int].schedule@[li as int]
                                == pre.machines@[m as int].schedule@.last());
                            assert(c == spec_completion(pre.machines@[m as int]));
                        }
                        if !found || c < best {
                            sel = m;
                            best = c;
                            found = true;
                        }
                    }
                    m += 1;
                }
            },
        }
        if !found {
            proof {
                assert(!exists_eligible(pre, job));
            }
            return Err(ScheduleError::JobTooLarge);
        }
        proof {
            assert(policy_choice(pre, job, sel as int));
            assert(eligible(pre.machines@[sel as int], job));
            assert(exists_eligible(pre, job));
        }
        let ghost target_bi = pre.machines@[sel as int].schedule@.len() as int;
        self.admit_new_batch(job, sel);
        proof {
            assert(spec_target(pre, job, sel as int, target_bi) && admits_to(
                pre,
                *self,
                job,
                sel as int,
                target_bi,
            ));
        }
        Ok(())
    }

    /// Admit the job into existing batch `bi` of machine `mi` and re-time the
    /// batches queued behind it.
    #[verifier::rlimit(100)]
    #[verifier::spinoff_prover]
    fn admit_at(&mut self, job: PrintItem, mi: usize, bi: usize)
        requires
            old(self).wf(),
            job.family.wf(),
            (mi as int) < old(self).machines@.len(),
            (bi as int) < old(self).machines@[mi as int].schedule@.len(),
            batch_accepts(old(self).machines@[mi as int].schedule@[bi as int], job),
            spec_completion(old(self).machines@[mi as int]) + job.print_time <= u64::MAX,
        ensures
            final(self).wf(),
            final(self).policy == old(self).policy,
            final(self).machines@.len() == old(self).machines@.len(),
            admits_to(*old(self), *final(self), job, mi as int, bi as int),
    {
        let ghost pre = *self;
        let ghost m0 = pre.machines@[mi as int];
        let ghost b0 = m0.schedule@[bi as int];
        proof {
            assert(m0.wf());
            assert(b0.wf());
            lemma_chain(m0.schedule@, bi as int);
            lemma_sum_durs_nonneg(m0.schedule@, bi as int + 1);
            assert(sum_durs(m0.schedule@, bi as int) == b0.print_time + sum_durs(
                m0.schedule@,
                bi as int + 1,
            ));
            assert(b0.start_time + job.print_time <= u64::MAX);
        }
        let mref = &mut self.machines[mi];
        {
            let bref = &mut mref.schedule[bi];
            bref.add(job);
        }
        let ghost s1 = mref.schedule@;
        proof {
            assert(s1 == m0.schedule@.update(bi as int, s1[bi as int]));
            assert(batch_with_job(b0, s1[bi as int], job));
            lemma_sum_durs_agree(s1, m0.schedule@, bi as int + 1);
            assert(sum_durs(s1, bi as int) == s1[bi as int].print_time + sum_durs(
                s1,
                bi as int + 1,
            ));
            assert(s1[bi as int].start_time + sum_durs(s1, bi as int) <= u64::MAX);
        }
        let n: usize = mref.schedule.len();
        assert(bi < n);
        mref.reflow(bi + 1);
        proof {
            assert forall|i: int|
                0 <= i < s1.len() && i != bi as int implies #[trigger] s1[i]
                == m0.schedule@[i] by {}
            lemma_admit_machine(m0, s1, *mref, job, bi as int);
        }
        proof {
            assert(self.machines@ == pre.machines@.update(mi as int, self.machines@[mi as int]));
            lemma_admit_farm(
                pre,
                *self,
                self.machines@[mi as int],
                job,
                mi as int,
                bi as int,
            );
        }
    }

    /// Open a new batch at the tail of machine `mi`, starting when its queue
    /// ends, and admit the job into it.
    fn admit_new_batch(&mut self, job: PrintItem, mi: usize)
        requires
            old(self).wf(),
            job.family.wf(),
            (mi as int) < old(self).machines@.len(),
            eligible(old(self).machines@[mi as int], job),
            spec_completion(old(self).machines@[mi as int]) + job.print_time <= u64::MAX,
        ensures
            final(self).wf(),
            final(self).policy == old(self).policy,
            final(self).machines@.len() == old(self).machines@.len(),
            admits_to(
                *old(self),
                *final(self),
                job,
                mi as int,
                old(self).machines@[mi as int].schedule@.len() as int,
            ),
    {
        let ghost pre = *self;
        let ghost m0 = pre.machines@[mi as int];
        proof {
            assert(m0.wf());
            assert(m0.schedule@[m0.schedule@.len() - 1].wf());
            lemma_sums_nonneg(m0.schedule@[m0.schedule@.len() - 1].items@);
        }
        let mref = &mut self.machines[mi];
        let li: usize = mref.schedule.len() - 1;
        let st: u64 = mref.schedule[li].est_completion_time();
        proof {
            assert(m0.schedule@[li as int] == m0.schedule@.last());
            assert(st == spec_completion(m0));
        }
        let cap = mref.schedule[0].capacity;
        let mut nb = Batch::new(cap, st);
        proof {
            assert(cap == m0.cap());
            assert(spec_fits(job.dims, m0.cap()));
            assert(sum_x(nb.items@) == 0);
            assert(sum_y(nb.items@) == 0);
            assert(sum_z(nb.items@) == 0);
        }
        nb.add(job);
        proof {
            assert(nb.wf());
            assert(nb.items@ == Seq::<PrintItem>::empty().push(job));
            assert(nb.items@.len() == 1 && nb.items@[0] == job);
            assert(nb.print_time == job.print_time);
            assert(nb.family@ == job.family@);
        }
        mref.schedule.push(nb);
        proof {
            let m1 = *mref;
            let s2 = m1.schedule@;
            assert(s2 == m0.schedule@.push(nb));
            assert forall|i: int| 0 <= i < m0.schedule@.len() implies s2[i] == m0.schedule@[i] by {}
            assert forall|i: int| 0 <= i < s2.len() implies (#[trigger] s2[i]).wf() by {
                if i < s2.len() - 1 {
                    assert(s2[i] == m0.schedule@[i]);
                    assert(m0.schedule@[i].wf());
                }
            }
            assert forall|i: int|
                0 <= i < s2.len() implies (#[trigger] s2[i]).capacity == m1.cap() by {
                assert(s2[0].capacity == m0.schedule@[0].capacity);
                if i < s2.len() - 1 {
                    assert(s2[i].capacity == m0.schedule@[i].capacity);
                }
            }
            assert(queue_ordered(s2)) by {
                assert forall|i: int|
                    1 <= i < s2.len() implies (#[trigger] s2[i]).start_time == s2[i
                    - 1].start_time + s2[i - 1].print_time by {
                    if i < s2.len() - 1 {
                        assert(s2[i] == m0.schedule@[i]);
                        assert(s2[i - 1] == m0.schedule@[i - 1]);
                        assert(m0.schedule@[i].start_time == m0.schedule@[i - 1].start_time
                            + m0.schedule@[i - 1].print_time);
                    } else {
                        assert(s2[i] == nb);
                        assert(s2[i - 1] == m0.schedule@.last());
                    }
                }
            }
            assert(m1.wf());
            assert(machine_admits_to(m0, m1, job, m0.schedule@.len() as int));
        }
        proof {
            assert(self.machines@ == pre.machines@.update(mi as int, self.machines@[mi as int]));
            assert forall|i: int|
                0 <= i < self.machines@.len() implies (#[trigger] self.machines@[i]).wf() by {
                if i != mi as int {
                    assert(self.machines@[i] == pre.machines@[i]);
                }
            }
            assert(admits_to(pre, *self, job, mi as int, m0.schedule@.len() as int));
        }
    }
}

} // verus!
