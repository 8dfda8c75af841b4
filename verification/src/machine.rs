//! One physical printer: a name, a run flag, and an ordered queue of batches.
//! The queue is completion-ordered: each batch starts exactly when the batch
//! before it is estimated to finish.  A machine always holds at least one
//! batch — it is created with a single open batch of its stated capacity.

use vstd::prelude::*;

use crate::batch::Batch;
use crate::clock::now_millis;
use crate::model::Dimensions;

verus! {

/// Each batch after the first starts when its predecessor ends.
pub open spec fn queue_ordered(s: Seq<Batch>) -> bool {
    forall|i: int|
        1 <= i < s.len() ==> (#[trigger] s[i]).start_time == s[i - 1].start_time + s[i
            - 1].print_time
}

/// Combined print duration of the batches from index `from` on.
pub open spec fn sum_durs(s: Seq<Batch>, from: int) -> int
    decreases s.len() - from,
{
    if from < 0 || from >= s.len() {
        0
    } else {
        s[from].print_time + sum_durs(s, from + 1)
    }
}

/// A batch whose queue position was re-timed: only the start time may differ.
pub open spec fn batch_retimed(pre: Batch, post: Batch) -> bool {
    &&& post.items == pre.items
    &&& post.capacity == pre.capacity
    &&& post.print_time == pre.print_time
    &&& post.family == pre.family
}

pub proof fn lemma_sum_durs_nonneg(s: Seq<Batch>, from: int)
    ensures
        sum_durs(s, from) >= 0,
    decreases s.len() - from,
{
    if 0 <= from && from < s.len() {
        lemma_sum_durs_nonneg(s, from + 1);
    }
}

/// Re-timing a well-formed batch keeps it well-formed as long as its new
/// completion time is representable.
pub proof fn lemma_retimed_wf(pre: Batch, post: Batch)
    requires
        batch_retimed(pre, post),
        pre.wf(),
        post.start_time + post.print_time <= u64::MAX,
    ensures
        post.wf(),
{
    assert(post.items@ == pre.items@);
}

/// The duration tail sum reads only the batches from `from` on.
pub proof fn lemma_sum_durs_agree(s1: Seq<Batch>, s2: Seq<Batch>, from: int)
    requires
        s1.len() == s2.len(),
        forall|j: int| from <= j < s1.len() ==> s1[j] == #[trigger] s2[j],
    ensures
        sum_durs(s1, from) == sum_durs(s2, from),
    decreases s1.len() - from,
{
    if 0 <= from && from < s1.len() {
        assert(s1[from] == s2[from]);
        lemma_sum_durs_agree(s1, s2, from + 1);
    }
}

/// In an ordered queue, any batch's start time plus the durations after it
/// reaches the completion time of the last batch.
pub proof fn lemma_chain(s: Seq<Batch>, k: int)
    requires
        queue_ordered(s),
        0 <= k < s.len(),
    ensures
        s[k].start_time + sum_durs(s, k) == s[s.len() - 1].start_time + s[s.len() - 1].print_time,
    decreases s.len() - k,
{
    if k == s.len() - 1 {
        assert(sum_durs(s, k + 1) == 0);
    } else {
        lemma_chain(s, k + 1);
        assert(s[k + 1].start_time == s[k].start_time + s[k].print_time);
    }
}

/// One printer and its schedule of batches.
#[derive(Debug)]
pub struct Machine {
    pub name: String,
    pub is_running: bool,
    pub schedule: Vec<Batch>,
    pub config: Vec<(String, String)>,
}

/// When the machine's last queued batch is estimated to finish: the earliest
/// moment a newly opened batch could start.
pub open spec fn spec_completion(m: Machine) -> int {
    m.schedule@.last().start_time + m.schedule@.last().print_time
}

impl Machine {
    /// The machine's raw capacity: the capacity its batches are created with.
    pub open spec fn cap(self) -> Dimensions {
        self.schedule@[0].capacity
    }

    /// The machine invariants: at least one batch, every batch well-formed
    /// and of the machine's capacity, and the queue completion-ordered.
    pub open spec fn wf(self) -> bool {
        &&& self.schedule@.len() >= 1
        &&& forall|i: int| 0 <= i < self.schedule@.len() ==> (#[trigger] self.schedule@[i]).wf()
        &&& forall|i: int|
            0 <= i < self.schedule@.len() ==> (#[trigger] self.schedule@[i]).capacity == self.cap()
        &&& queue_ordered(self.schedule@)
    }

    /// A machine with one open, empty batch of the given capacity, starting
    /// now; not running.
    pub fn with_name(capacity: Dimensions, name: String) -> (r: Machine)
        ensures
            r.wf(),
            r.name == name,
            r.is_running == false,
            r.config@.len() == 0,
            r.schedule@.len() == 1,
            r.schedule@[0].items@.len() == 0,
            r.schedule@[0].print_time == 0,
            r.cap() == capacity,
    {
        let start: u64 = now_millis();
        let mut schedule: Vec<Batch> = Vec::new();
        schedule.push(Batch::new(capacity, start));
        Machine { name, is_running: false, schedule, config: Vec::new() }
    }

    /// `with_name`, under the default name.
    pub fn new(capacity: Dimensions) -> (r: Machine)
        ensures
            r.wf(),
            r.name@ == "Untitled"@,
            r.is_running == false,
            r.config@.len() == 0,
            r.schedule@.len() == 1,
            r.schedule@[0].items@.len() == 0,
            r.schedule@[0].print_time == 0,
            r.cap() == capacity,
    {
        Machine::with_name(capacity, "Untitled".to_owned())
    }

    /// Restore completion ordering from position `from` on, after the
    /// duration of an earlier batch changed: each batch's start time becomes
    /// its predecessor's estimated completion time.  Nothing else changes.
    pub fn reflow(&mut self, from: usize)
        requires
            1 <= from <= old(self).schedule@.len(),
            old(self).schedule@[from - 1].start_time + sum_durs(
                old(self).schedule@,
                from as int - 1,
            ) <= u64::MAX,
        ensures
            final(self).name == old(self).name,
            final(self).is_running == old(self).is_running,
            final(self).config == old(self).config,
            final(self).schedule@.len() == old(self).schedule@.len(),
            forall|i: int| 0 <= i < from ==> final(self).schedule@[i] == old(self).schedule@[i],
            forall|i: int|
                from <= i < old(self).schedule@.len() ==> batch_retimed(
                    old(self).schedule@[i],
                    #[trigger] final(self).schedule@[i],
                ),
            forall|i: int|
                from <= i < old(self).schedule@.len() ==> (#[trigger] final(self).schedule@[i]).start_time
                    == final(self).schedule@[i - 1].start_time
                    + final(self).schedule@[i - 1].print_time,
            forall|i: int|
                from <= i < old(self).schedule@.len() ==> (#[trigger] final(self).schedule@[i]).start_time
                    + final(self).schedule@[i].print_time <= u64::MAX,
    {
        let ghost orig = *self;
        let mut i: usize = from;
        while i < self.schedule.len()
            invariant
                1 <= from <= i <= self.schedule@.len(),
                self.schedule@.len() == orig.schedule@.len(),
                self.name == orig.name,
                self.is_running == orig.is_running,
                self.config == orig.config,
                forall|j: int| 0 <= j < from ==> self.schedule@[j] == orig.schedule@[j],
                forall|j: int| i <= j < self.schedule@.len() ==> self.schedule@[j] == orig.schedule@[j],
                forall|j: int|
                    from <= j < i ==> batch_retimed(
                        orig.schedule@[j],
                        #[trigger] self.schedule@[j],
                    ),
                forall|j: int|
                    from <= j < i ==> (#[trigger] self.schedule@[j]).start_time
                        == self.schedule@[j - 1].start_time + self.schedule@[j - 1].print_time,
                forall|j: int|
                    from <= j < i ==> (#[trigger] self.schedule@[j]).start_time
                        + self.schedule@[j].print_time <= u64::MAX,
                self.schedule@[i - 1].start_time + sum_durs(orig.schedule@, i as int - 1)
                    <= u64::MAX,
            decreases self.schedule@.len() - i,
        {
            proof {
                lemma_sum_durs_nonneg(orig.schedule@, i as int);
                lemma_sum_durs_nonneg(orig.schedule@, i as int + 1);
                assert(self.schedule@[i as int - 1].print_time == orig.schedule@[i as int
                    - 1].print_time);
                assert(sum_durs(orig.schedule@, i as int - 1) == orig.schedule@[i as int
                    - 1].print_time + sum_durs(orig.schedule@, i as int));
                assert(sum_durs(orig.schedule@, i as int) == orig.schedule@[i as int].print_time
                    + sum_durs(orig.schedule@, i as int + 1));
            }
            let prev_start: u64 = self.schedule[i - 1].start_time;
            let prev_dur: u64 = self.schedule[i - 1].print_time;
            let t: u64 = prev_start + prev_dur;
            let b = &mut self.schedule[i];
            b.start_time = t;
            i += 1;
        }
    }
}

} // verus!
