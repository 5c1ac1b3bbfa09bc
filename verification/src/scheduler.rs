//! The cooperative scheduler: a task table keyed by task identifier,
//! advanced only when the host explicitly triggers one step.  A step
//! polls exactly one task; a task leaves the table exactly when its poll
//! reports it finished.

use vstd::prelude::*;

verus! {

/// Whether a task identifier is in the table.
pub open spec fn task_present(s: Seq<u64>, id: u64) -> bool {
    exists|i: int| 0 <= i < s.len() && #[trigger] s[i] == id
}

/// The table without the first occurrence of `id`.
pub open spec fn spec_remove_task(s: Seq<u64>, id: u64) -> Seq<u64>
    decreases s.len(),
{
    if s.len() == 0 {
        s
    } else if s[0] == id {
        s.skip(1)
    } else {
        seq![s[0]] + spec_remove_task(s.skip(1), id)
    }
}

/// Task identifiers are pairwise distinct.
pub open spec fn unique_tasks(s: Seq<u64>) -> bool {
    forall|i: int, j: int| 0 <= i < j < s.len() ==> s[i] != s[j]
}

/// With unique identifiers, a removed task is gone.
pub proof fn lemma_remove_task_removes(s: Seq<u64>, id: u64)
    requires
        unique_tasks(s),
    ensures
        !task_present(spec_remove_task(s, id), id),
    decreases s.len(),
{
    if s.len() > 0 {
        assert(forall|i: int| 0 <= i < s.skip(1).len() ==> #[trigger] s.skip(1)[i] == s[i + 1]);
        if s[0] == id {
            if task_present(s.skip(1), id) {
                let i = choose|i: int| 0 <= i < s.skip(1).len() && #[trigger] s.skip(1)[i] == id;
                assert(s[i + 1] == s[0]);
                assert(false);
            }
        } else {
            lemma_remove_task_removes(s.skip(1), id);
            let r = seq![s[0]] + spec_remove_task(s.skip(1), id);
            if task_present(r, id) {
                let i = choose|i: int| 0 <= i < r.len() && #[trigger] r[i] == id;
                assert(i >= 1);
                assert(r[i] == spec_remove_task(s.skip(1), id)[i - 1]);
                assert(task_present(spec_remove_task(s.skip(1), id), id));
                assert(false);
            }
        }
    }
}

/// Every task that survives a removal was in the table before.
pub proof fn lemma_remove_task_subset(s: Seq<u64>, id: u64)
    ensures
        forall|i: int|
            0 <= i < spec_remove_task(s, id).len() ==> task_present(
                s,
                #[trigger] spec_remove_task(s, id)[i],
            ),
    decreases s.len(),
{
    if s.len() > 0 {
        lemma_remove_task_subset(s.skip(1), id);
        assert(forall|i: int| 0 <= i < s.skip(1).len() ==> #[trigger] s.skip(1)[i] == s[i + 1]);
        assert(forall|x: u64| task_present(s.skip(1), x) ==> task_present(s, x)) by {
            assert forall|x: u64| task_present(s.skip(1), x) implies task_present(s, x) by {
                let i = choose|i: int| 0 <= i < s.skip(1).len() && #[trigger] s.skip(1)[i] == x;
                assert(s[i + 1] == x);
            }
        }
        if s[0] == id {
        } else {
            let r = seq![s[0]] + spec_remove_task(s.skip(1), id);
            assert forall|i: int| 0 <= i < r.len() implies task_present(s, #[trigger] r[i]) by {
                if i == 0 {
                    assert(s[0] == r[0]);
                } else {
                    assert(r[i] == spec_remove_task(s.skip(1), id)[i - 1]);
                }
            }
        }
    }
}

/// What polling one task reported: finished (successfully or not), or
/// suspended waiting for its next wake.
#[derive(Clone, Copy, Debug, PartialEq, Eq, Structural)]
pub enum PollOutcome {
    /// The task's future resolved.
    Ready,
    /// The task is parked; its own wake notification re-requests a step.
    NotReady,
    /// The task's future failed.
    Failed,
}

/// What one step does to the table: a finished task leaves, a parked one
/// stays.
pub open spec fn spec_step(s: Seq<u64>, id: u64, outcome: PollOutcome) -> Seq<u64> {
    match outcome {
        PollOutcome::NotReady => s,
        _ => spec_remove_task(s, id),
    }
}

/// The table after a whole run of steps on one task.
pub open spec fn spec_steps(s: Seq<u64>, id: u64, outcomes: Seq<PollOutcome>) -> Seq<u64>
    decreases outcomes.len(),
{
    if outcomes.len() == 0 {
        s
    } else {
        spec_steps(spec_step(s, id, outcomes[0]), id, outcomes.skip(1))
    }
}

/// A unit of work for the host.
#[derive(Clone, Copy, Debug, PartialEq, Eq, Structural)]
pub struct Microtask {
    /// The task the step shall poll.
    pub task_id: u64,
}

/// The single-threaded task table.  It never polls on its own: every
/// step is driven by the host through a `Microtask`.
#[derive(Debug)]
pub struct Scheduler {
    next_id: u64,
    tasks: Vec<u64>,
}

impl Scheduler {
    /// The identifiers of the tasks in the table.
    pub closed spec fn view(self) -> Seq<u64> {
        self.tasks@
    }

    /// The identifier the next scheduled task will get.
    pub closed spec fn spec_next_id(self) -> u64 {
        self.next_id
    }

    /// Identifiers are unique and below the allocation counter.
    pub closed spec fn wf(self) -> bool {
        &&& unique_tasks(self@)
        &&& forall|i: int| 0 <= i < self@.len() ==> self@[i] < self.next_id
    }

    /// An empty scheduler.
    pub fn new() -> (r: Self)
        ensures
            r@ == Seq::<u64>::empty(),
            r.wf(),
            r.spec_next_id() == 0,
    {
        Scheduler { next_id: 0, tasks: Vec::new() }
    }

    /// How many tasks are in the table.
    pub fn task_count(&self) -> (n: usize)
        ensures
            n == self@.len(),
    {
        self.tasks.len()
    }

    /// Whether `id` is in the table.
    pub fn contains(&self, id: u64) -> (r: bool)
        ensures
            r == task_present(self@, id),
    {
        let mut i: usize = 0;
        while i < self.tasks.len()
            invariant
                i <= self@.len(),
                forall|j: int| 0 <= j < i ==> self@[j] != id,
            decreases self@.len() - i,
        {
            if self.tasks[i] == id {
                return true;
            }
            i = i + 1;
        }
        false
    }

    /// Stores one task under a fresh identifier and asks the host to run
    /// its first step.  Nothing runs synchronously in the caller's stack.
    pub fn schedule(&mut self) -> (r: (u64, Microtask))
        requires
            old(self).wf(),
            old(self).spec_next_id() < u64::MAX,
        ensures
            final(self).wf(),
            r.0 == old(self).spec_next_id(),
            !task_present(old(self)@, r.0),
            final(self)@ == old(self)@.push(r.0),
            final(self).spec_next_id() == r.0 + 1,
            task_present(final(self)@, r.0),
            r.1.task_id == r.0,
    {
        let id = self.next_id;
        self.tasks.push(id);
        self.next_id = self.next_id + 1;
        proof {
            assert(forall|i: int|
                0 <= i < old(self)@.len() ==> #[trigger] self@[i] == old(self)@[i]);
            assert(self@[old(self)@.len() as int] == id);
        }
        (id, Microtask { task_id: id })
    }

    /// A task's wake notification: asks the host for another step of the
    /// same task.  Only a task still in the table may be woken.
    pub fn notify(&self, id: u64) -> (r: Microtask)
        requires
            task_present(self@, id),
        ensures
            r.task_id == id,
    {
        Microtask { task_id: id }
    }

    /// One externally driven step: the host polled task `id` and reports
    /// the outcome.  A finished or failed task leaves the table; a parked
    /// one stays, and nothing else moves.
    pub fn run_step(&mut self, id: u64, outcome: PollOutcome) -> (removed: bool)
        requires
            old(self).wf(),
            task_present(old(self)@, id),
        ensures
            final(self).wf(),
            final(self)@ == spec_step(old(self)@, id, outcome),
            removed == !(outcome is NotReady),
            outcome is NotReady ==> final(self)@ == old(self)@,
            !(outcome is NotReady) ==> !task_present(final(self)@, id),
            final(self).spec_next_id() == old(self).spec_next_id(),
    {
        match outcome {
            PollOutcome::NotReady => false,
            _ => {
                let ghost s0 = self@;
                let mut i: usize = 0;
                let n = self.tasks.len();
                loop
                    invariant
                        i <= n == self@.len(),
                        self@ == s0,
                        s0 == old(self)@,
                        unique_tasks(s0),
                        task_present(s0, id),
                        !(outcome is NotReady),
                        self.spec_next_id() == old(self).spec_next_id(),
                        forall|j: int| 0 <= j < s0.len() ==> s0[j] < self.spec_next_id(),
                        forall|j: int| 0 <= j < i ==> s0[j] != id,
                    decreases n - i,
                {
                    if i == n {
                        proof {
                            let w = choose|w: int| 0 <= w < s0.len() && #[trigger] s0[w] == id;
                            assert(false);
                        }
                    }
                    if self.tasks[i] == id {
                        self.tasks.remove(i);
                        proof {
                            lemma_first_task_match(s0, id, i as int);
                            lemma_remove_task_removes(s0, id);
                            lemma_remove_task_subset(s0, id);
                            assert(self@ =~= s0.remove(i as int));
                            assert(unique_tasks(spec_remove_task(s0, id))) by {
                                lemma_remove_task_unique(s0, id);
                            }
                            assert(self@ == spec_remove_task(s0, id));
                            assert forall|j: int| 0 <= j < self@.len() implies self@[j]
                                < self.spec_next_id() by {
                                assert(task_present(s0, self@[j]));
                                let w = choose|w: int|
                                    0 <= w < s0.len() && #[trigger] s0[w] == self@[j];
                            }
                        }
                        return true;
                    }
                    i = i + 1;
                }
            },
        }
    }
}

/// When index `k` is the first occurrence, removal takes entry `k` out.
pub proof fn lemma_first_task_match(s: Seq<u64>, id: u64, k: int)
    requires
        0 <= k < s.len(),
        s[k] == id,
        forall|j: int| 0 <= j < k ==> s[j] != id,
    ensures
        spec_remove_task(s, id) =~= s.remove(k),
    decreases s.len(),
{
    if k == 0 {
        assert(s.skip(1) =~= s.remove(0));
    } else {
        assert(forall|j: int| 0 <= j < s.skip(1).len() ==> #[trigger] s.skip(1)[j] == s[j + 1]);
        lemma_first_task_match(s.skip(1), id, k - 1);
        assert(seq![s[0]] + s.skip(1).remove(k - 1) =~= s.remove(k));
    }
}

/// Removal keeps task identifiers unique.
pub proof fn lemma_remove_task_unique(s: Seq<u64>, id: u64)
    requires
        unique_tasks(s),
    ensures
        unique_tasks(spec_remove_task(s, id)),
    decreases s.len(),
{
    if s.len() > 0 {
        assert(forall|i: int| 0 <= i < s.skip(1).len() ==> #[trigger] s.skip(1)[i] == s[i + 1]);
        if s[0] != id {
            lemma_remove_task_unique(s.skip(1), id);
            lemma_remove_task_subset(s.skip(1), id);
            let r = seq![s[0]] + spec_remove_task(s.skip(1), id);
            assert forall|i: int, j: int| 0 <= i < j < r.len() implies r[i] != r[j] by {
                if i == 0 {
                    assert(r[j] == spec_remove_task(s.skip(1), id)[j - 1]);
                    assert(task_present(s.skip(1), r[j]));
                    let w = choose|w: int|
                        0 <= w < s.skip(1).len() && #[trigger] s.skip(1)[w] == r[j];
                    assert(s[w + 1] == r[j]);
                } else {
                    assert(r[i] == spec_remove_task(s.skip(1), id)[i - 1]);
                    assert(r[j] == spec_remove_task(s.skip(1), id)[j - 1]);
                }
            }
        }
    }
}

/// Steps that report the task parked leave the table exactly as it was.
pub proof fn lemma_parked_steps_keep_table(s: Seq<u64>, id: u64, outcomes: Seq<PollOutcome>)
    requires
        forall|k: int| 0 <= k < outcomes.len() ==> outcomes[k] is NotReady,
    ensures
        spec_steps(s, id, outcomes) == s,
    decreases outcomes.len(),
{
    if outcomes.len() > 0 {
        assert(forall|k: int|
            0 <= k < outcomes.skip(1).len() ==> #[trigger] outcomes.skip(1)[k] == outcomes[k
                + 1]);
        lemma_parked_steps_keep_table(s, id, outcomes.skip(1));
    }
}

/// A task that becomes ready on its last step is removed by exactly that
/// step and by none before it: after every earlier step it is still in
/// the table, and after the last it is gone.
pub proof fn lemma_scheduler_liveness(s: Seq<u64>, id: u64, outcomes: Seq<PollOutcome>)
    requires
        unique_tasks(s),
        task_present(s, id),
        outcomes.len() >= 1,
        forall|k: int| 0 <= k < outcomes.len() - 1 ==> outcomes[k] is NotReady,
        outcomes.last() is Ready,
    ensures
        forall|k: int|
            0 <= k < outcomes.len() ==> task_present(
                #[trigger] spec_steps(s, id, outcomes.take(k)),
                id,
            ),
        !task_present(spec_steps(s, id, outcomes), id),
{
    assert forall|k: int| 0 <= k < outcomes.len() implies task_present(
        #[trigger] spec_steps(s, id, outcomes.take(k)),
        id,
    ) by {
        lemma_parked_steps_keep_table(s, id, outcomes.take(k));
    }
    lemma_steps_split_last(s, id, outcomes);
    lemma_parked_steps_keep_table(s, id, outcomes.take(outcomes.len() - 1));
    lemma_remove_task_removes(s, id);
}

/// A run of steps is the run of all but the last, then the last.
pub proof fn lemma_steps_split_last(s: Seq<u64>, id: u64, outcomes: Seq<PollOutcome>)
    requires
        outcomes.len() >= 1,
    ensures
        spec_steps(s, id, outcomes) == spec_step(
            spec_steps(s, id, outcomes.take(outcomes.len() - 1)),
            id,
            outcomes.last(),
        ),
    decreases outcomes.len(),
{
    if outcomes.len() == 1 {
        assert(outcomes.take(0) =~= Seq::<PollOutcome>::empty());
        assert(outcomes.skip(1) =~= Seq::<PollOutcome>::empty());
        assert(spec_steps(s, id, outcomes.take(outcomes.len() - 1)) == s);
        assert(outcomes.last() == outcomes[0]);
        assert(spec_steps(s, id, outcomes) == spec_steps(
            spec_step(s, id, outcomes[0]),
            id,
            outcomes.skip(1),
        ));
        assert(spec_steps(spec_step(s, id, outcomes[0]), id, outcomes.skip(1)) == spec_step(
            s,
            id,
            outcomes[0],
        ));
    } else {
        lemma_steps_split_last(spec_step(s, id, outcomes[0]), id, outcomes.skip(1));
        assert(outcomes.skip(1).take(outcomes.skip(1).len() - 1) =~= outcomes.take(
            outcomes.len() - 1,
        ).skip(1));
        assert(outcomes.skip(1).last() == outcomes.last());
        assert(outcomes.take(outcomes.len() - 1)[0] == outcomes[0]);
        assert(outcomes.take(outcomes.len() - 1).len() >= 1);
        assert(spec_steps(s, id, outcomes.take(outcomes.len() - 1)) == spec_steps(
            spec_step(s, id, outcomes[0]),
            id,
            outcomes.take(outcomes.len() - 1).skip(1),
        ));
        assert(spec_steps(s, id, outcomes) == spec_steps(
            spec_step(s, id, outcomes[0]),
            id,
            outcomes.skip(1),
        ));
    }
}

} // verus!
