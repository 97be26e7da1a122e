//! The task engine: submission, at-most-once acceptance, and completion of
//! units of work.
//!
//! A task is `Pending` once submitted, `Processing` once exactly one
//! processor has accepted it, and `Completed` once a result for it is
//! recorded. Completion does not check that the task was being processed:
//! out-of-order completion is silently accepted. There is no failed or
//! timed-out state, and a task's timeout field is never enforced.

use vstd::prelude::*;
use vstd::pervasive::VecAdditionalExecFns;
use vstd::string::StringExecFns;

use crate::types::{Task, TaskView, TaskId, TaskResult, TaskResultView, TaskStatus, clone_bytes};
use crate::text::str_eq;
use crate::crypto::{sha256, sha256_of};

verus! {

/// The fixed identity that the in-process executor works under.
pub open spec fn local_processor_did() -> Seq<char> {
    "did:duxnet:processor"@
}

/// Some pending task carries the identifier.
pub open spec fn has_pending(s: Seq<TaskView>, id: Seq<char>) -> bool {
    exists|i: int| 0 <= i < s.len() && s[i].id == id
}

/// The pending task carrying the identifier.
pub open spec fn pending_of(s: Seq<TaskView>, id: Seq<char>) -> TaskView
    recommends
        has_pending(s, id),
{
    s[choose|i: int| 0 <= i < s.len() && s[i].id == id]
}

/// The pending task at an id-carrying index is the pending task of that id.
pub proof fn lemma_pending_at(s: Seq<TaskView>, id: Seq<char>, i: int)
    requires
        forall|p: int, q: int| 0 <= p < q < s.len() ==> s[p].id != s[q].id,
        0 <= i < s.len(),
        s[i].id == id,
    ensures
        has_pending(s, id),
        pending_of(s, id) == s[i],
{
    let j = choose|j: int| 0 <= j < s.len() && s[j].id == id;
}

/// Some processing entry carries the identifier.
pub open spec fn has_processing(s: Seq<(Seq<char>, Seq<char>)>, id: Seq<char>) -> bool {
    exists|i: int| 0 <= i < s.len() && s[i].0 == id
}

/// The processor bound to a processing task.
pub open spec fn processor_of(s: Seq<(Seq<char>, Seq<char>)>, id: Seq<char>) -> Seq<char>
    recommends
        has_processing(s, id),
{
    s[choose|i: int| 0 <= i < s.len() && s[i].0 == id].1
}

/// The entry at an id-carrying index binds that id's processor.
pub proof fn lemma_processing_at(s: Seq<(Seq<char>, Seq<char>)>, id: Seq<char>, i: int)
    requires
        forall|p: int, q: int| 0 <= p < q < s.len() ==> s[p].0 != s[q].0,
        0 <= i < s.len(),
        s[i].0 == id,
    ensures
        has_processing(s, id),
        processor_of(s, id) == s[i].1,
{
    let j = choose|j: int| 0 <= j < s.len() && s[j].0 == id;
}

/// Some result is recorded for the identifier.
pub open spec fn has_completed(s: Seq<TaskResultView>, id: Seq<char>) -> bool {
    exists|i: int| 0 <= i < s.len() && s[i].task_id == id
}

/// The recorded result of a completed task.
pub open spec fn completed_of(s: Seq<TaskResultView>, id: Seq<char>) -> TaskResultView
    recommends
        has_completed(s, id),
{
    s[choose|i: int| 0 <= i < s.len() && s[i].task_id == id]
}

/// The result at an id-carrying index is the result of that id.
pub proof fn lemma_completed_at(s: Seq<TaskResultView>, id: Seq<char>, i: int)
    requires
        forall|p: int, q: int| 0 <= p < q < s.len() ==> s[p].task_id != s[q].task_id,
        0 <= i < s.len(),
        s[i].task_id == id,
    ensures
        has_completed(s, id),
        completed_of(s, id) == s[i],
{
    let j = choose|j: int| 0 <= j < s.len() && s[j].task_id == id;
}

/// Where a task stands: membership is checked in the order pending,
/// processing, completed; anything else is unknown.
pub open spec fn spec_status(v: TaskEngineView, id: Seq<char>) -> TaskStatus {
    if has_pending(v.pending, id) {
        TaskStatus::Pending
    } else if has_processing(v.processing, id) {
        TaskStatus::Processing
    } else if has_completed(v.completed, id) {
        TaskStatus::Completed
    } else {
        TaskStatus::NotFound
    }
}

/// The simulated result text for a processed task.
pub open spec fn processed_message(id: Seq<char>, processor: Seq<char>) -> Seq<char> {
    "Processed task "@ + id + " by "@ + processor
}

/// The views of a task list.
pub open spec fn views_of_tasks(s: Seq<Task>) -> Seq<TaskView> {
    s.map_values(|t: Task| t@)
}

/// The views of a result list.
pub open spec fn views_of_results(s: Seq<TaskResult>) -> Seq<TaskResultView> {
    s.map_values(|r: TaskResult| r@)
}

/// The views of a processing list.
pub open spec fn views_of_processing(s: Seq<(TaskId, String)>) -> Seq<(Seq<char>, Seq<char>)> {
    s.map_values(|p: (TaskId, String)| (p.0@, p.1@))
}

/// Mathematical image of the engine.
pub struct TaskEngineView {
    pub pending: Seq<TaskView>,
    pub processing: Seq<(Seq<char>, Seq<char>)>,
    pub completed: Seq<TaskResultView>,
}

/// The task engine: the pending, processing, and completed sets.
pub struct TaskEngine {
    pub pending_tasks: Vec<Task>,
    pub processing_tasks: Vec<(TaskId, String)>,
    pub completed_tasks: Vec<TaskResult>,
}

impl View for TaskEngine {
    type V = TaskEngineView;

    open spec fn view(&self) -> TaskEngineView {
        TaskEngineView {
            pending: views_of_tasks(self.pending_tasks@),
            processing: views_of_processing(self.processing_tasks@),
            completed: views_of_results(self.completed_tasks@),
        }
    }
}

/// The index of a pending task, if any.
fn find_pending_index(tasks: &Vec<Task>, id: &str) -> (r: Option<usize>)
    ensures
        r matches Some(i) ==> i < tasks@.len() && tasks@[i as int]@.id == id@,
        r is None ==> forall|j: int| 0 <= j < tasks@.len() ==> tasks@[j]@.id != id@,
{
    let mut i: usize = 0;
    while i < tasks.len()
        invariant
            i <= tasks@.len(),
            forall|j: int| 0 <= j < i ==> tasks@[j]@.id != id@,
        decreases tasks@.len() - i,
    {
        if str_eq(tasks[i].id.0.as_str(), id) {
            return Some(i);
        }
        i += 1;
    }
    None
}

/// The index of a processing entry, if any.
fn find_processing_index(entries: &Vec<(TaskId, String)>, id: &str) -> (r: Option<usize>)
    ensures
        r matches Some(i) ==> i < entries@.len() && entries@[i as int].0@ == id@,
        r is None ==> forall|j: int| 0 <= j < entries@.len() ==> entries@[j].0@ != id@,
{
    let mut i: usize = 0;
    while i < entries.len()
        invariant
            i <= entries@.len(),
            forall|j: int| 0 <= j < i ==> entries@[j].0@ != id@,
        decreases entries@.len() - i,
    {
        if str_eq(entries[i].0.0.as_str(), id) {
            return Some(i);
        }
        i += 1;
    }
    None
}

/// The index of a recorded result, if any.
fn find_completed_index(results: &Vec<TaskResult>, id: &str) -> (r: Option<usize>)
    ensures
        r matches Some(i) ==> i < results@.len() && results@[i as int]@.task_id == id@,
        r is None ==> forall|j: int| 0 <= j < results@.len() ==> results@[j]@.task_id != id@,
{
    let mut i: usize = 0;
    while i < results.len()
        invariant
            i <= results@.len(),
            forall|j: int| 0 <= j < i ==> results@[j]@.task_id != id@,
        decreases results@.len() - i,
    {
        if str_eq(results[i].task_id.0.as_str(), id) {
            return Some(i);
        }
        i += 1;
    }
    None
}

impl TaskEngine {
    /// Internal consistency: no duplicate task identifier within any of the
    /// three sets.
    pub open spec fn wf(&self) -> bool {
        &&& forall|i: int, j: int|
            0 <= i < j < self@.pending.len() ==> self@.pending[i].id != self@.pending[j].id
        &&& forall|i: int, j: int|
            0 <= i < j < self@.processing.len() ==> self@.processing[i].0 != self@.processing[j].0
        &&& forall|i: int, j: int|
            0 <= i < j < self@.completed.len() ==> self@.completed[i].task_id
                != self@.completed[j].task_id
    }

    /// An empty engine.
    pub fn new() -> (r: Self)
        ensures
            r.wf(),
            r@.pending.len() == 0,
            r@.processing.len() == 0,
            r@.completed.len() == 0,
    {
        let r = TaskEngine {
            pending_tasks: Vec::new(),
            processing_tasks: Vec::new(),
            completed_tasks: Vec::new(),
        };
        proof {
            assert(r@.pending =~= Seq::<TaskView>::empty());
            assert(r@.processing =~= Seq::<(Seq<char>, Seq<char>)>::empty());
            assert(r@.completed =~= Seq::<TaskResultView>::empty());
        }
        r
    }

    /// Inserts a task into the pending set, overwriting any pending task
    /// with the same identifier.
    pub fn submit_task(&mut self, task: Task)
        requires
            old(self).wf(),
        ensures
            final(self).wf(),
            final(self)@.processing == old(self)@.processing,
            final(self)@.completed == old(self)@.completed,
            has_pending(final(self)@.pending, task@.id),
            pending_of(final(self)@.pending, task@.id) == task@,
            forall|k: Seq<char>|
                has_pending(final(self)@.pending, k) <==> has_pending(old(self)@.pending, k) || k
                    == task@.id,
            forall|k: Seq<char>|
                k != task@.id && has_pending(old(self)@.pending, k) ==> #[trigger] pending_of(
                    final(self)@.pending,
                    k,
                ) == pending_of(old(self)@.pending, k),
    {
        let ghost p0 = self@.pending;
        let ghost tv = task@;
        match find_pending_index(&self.pending_tasks, task.id.0.as_str()) {
            Some(i) => {
                self.pending_tasks.set(i, task);
                proof {
                    let p1 = self@.pending;
                    assert(p1 =~= p0.update(i as int, tv));
                    assert(p0[i as int].id == tv.id);
                    assert(forall|p: int| 0 <= p < p1.len() ==> p1[p].id == p0[p].id);
                    assert forall|p: int, q: int| 0 <= p < q < p1.len() implies p1[p].id
                        != p1[q].id by {
                        assert(p1[p].id == p0[p].id && p1[q].id == p0[q].id);
                    }
                    lemma_pending_at(p1, tv.id, i as int);
                    assert forall|k: Seq<char>|
                        has_pending(p1, k) <==> has_pending(p0, k) || k == tv.id by {
                        if has_pending(p1, k) {
                            let p = choose|p: int| 0 <= p < p1.len() && p1[p].id == k;
                            assert(p0[p].id == k);
                        }
                        if has_pending(p0, k) {
                            let p = choose|p: int| 0 <= p < p0.len() && p0[p].id == k;
                            assert(p1[p].id == k);
                        }
                    }
                    assert forall|k: Seq<char>| k != tv.id && has_pending(p0, k) implies
                        pending_of(p1, k) == pending_of(p0, k) by {
                        let p = choose|p: int| 0 <= p < p0.len() && p0[p].id == k;
                        assert(p != i) by {
                            lemma_pending_at(p0, tv.id, i as int);
                        }
                        lemma_pending_at(p0, k, p);
                        lemma_pending_at(p1, k, p);
                    }
                    assert(self@.processing == old(self)@.processing);
                    assert(self@.completed == old(self)@.completed);
                    assert(self.wf());
                }
            },
            None => {
                self.pending_tasks.push(task);
                proof {
                    let p1 = self@.pending;
                    assert(p1 =~= p0.push(tv));
                    assert forall|p: int| 0 <= p < p0.len() implies p0[p].id != tv.id by {
                        assert(p0[p].id == old(self).pending_tasks@[p]@.id);
                    }
                    assert forall|p: int, q: int| 0 <= p < q < p1.len() implies p1[p].id
                        != p1[q].id by {
                        if q < p0.len() {
                            assert(p1[p] == p0[p] && p1[q] == p0[q]);
                        } else {
                            assert(p1[q].id == tv.id);
                            assert(p1[p] == p0[p]);
                        }
                    }
                    lemma_pending_at(p1, tv.id, p0.len() as int);
                    assert forall|k: Seq<char>|
                        has_pending(p1, k) <==> has_pending(p0, k) || k == tv.id by {
                        if has_pending(p1, k) {
                            let p = choose|p: int| 0 <= p < p1.len() && p1[p].id == k;
                            if p < p0.len() {
                                assert(p0[p].id == k);
                            }
                        }
                        if has_pending(p0, k) {
                            let p = choose|p: int| 0 <= p < p0.len() && p0[p].id == k;
                            assert(p1[p].id == k);
                        }
                    }
                    assert forall|k: Seq<char>| k != tv.id && has_pending(p0, k) implies
                        pending_of(p1, k) == pending_of(p0, k) by {
                        let p = choose|p: int| 0 <= p < p0.len() && p0[p].id == k;
                        lemma_pending_at(p0, k, p);
                        lemma_pending_at(p1, k, p);
                    }
                    assert(self@.processing == old(self)@.processing);
                    assert(self@.completed == old(self)@.completed);
                    assert(self.wf());
                }
            },
        }
    }

    /// Accepts a pending task for a processor: the task leaves the pending
    /// set, the processor is recorded for it, and the task comes back.
    /// Acceptance is at most once per task: an identifier that is not
    /// pending (already accepted, completed, or unknown) yields nothing and
    /// changes nothing.
    pub fn accept_task(&mut self, task_id: &TaskId, processor_did: String) -> (r: Option<Task>)
        requires
            old(self).wf(),
        ensures
            final(self).wf(),
            final(self)@.completed == old(self)@.completed,
            r is Some <==> has_pending(old(self)@.pending, task_id@),
            r is None ==> *final(self) == *old(self),
            r matches Some(t) ==> ({
                &&& t@ == pending_of(old(self)@.pending, task_id@)
                &&& final(self)@.pending.len() == old(self)@.pending.len() - 1
                &&& !has_pending(final(self)@.pending, task_id@)
                &&& forall|k: Seq<char>|
                    k != task_id@ ==> (has_pending(final(self)@.pending, k) <==> has_pending(
                        old(self)@.pending,
                        k,
                    ))
                &&& forall|k: Seq<char>|
                    k != task_id@ && has_pending(old(self)@.pending, k) ==> #[trigger] pending_of(
                        final(self)@.pending,
                        k,
                    ) == pending_of(old(self)@.pending, k)
                &&& has_processing(final(self)@.processing, task_id@)
                &&& processor_of(final(self)@.processing, task_id@) == processor_did@
                &&& forall|k: Seq<char>|
                    has_processing(final(self)@.processing, k) <==> has_processing(
                        old(self)@.processing,
                        k,
                    ) || k == task_id@
                &&& forall|k: Seq<char>|
                    k != task_id@ && has_processing(old(self)@.processing, k)
                        ==> #[trigger] processor_of(final(self)@.processing, k) == processor_of(
                        old(self)@.processing,
                        k,
                    )
            }),
    {
        let ghost p0 = self@.pending;
        let ghost pr0 = self@.processing;
        match find_pending_index(&self.pending_tasks, task_id.0.as_str()) {
            Some(i) => {
                proof {
                    lemma_pending_at(p0, task_id@, i as int);
                }
                let task = self.pending_tasks.remove(i);
                proof {
                    let p1 = self@.pending;
                    assert(p1 =~= p0.remove(i as int));
                    assert(forall|j: int| 0 <= j < i ==> p1[j] == p0[j]);
                    assert(forall|j: int| i <= j < p1.len() ==> p1[j] == p0[j + 1]);
                    assert forall|p: int, q: int| 0 <= p < q < p1.len() implies p1[p].id
                        != p1[q].id by {
                        let p2 = if p < i { p } else { p + 1 };
                        let q2 = if q < i { q } else { q + 1 };
                        assert(p1[p] == p0[p2] && p1[q] == p0[q2]);
                    }
                    assert forall|p: int| 0 <= p < p1.len() implies p1[p].id != task_id@ by {
                        if p < i {
                            assert(p0[p].id != p0[i as int].id);
                        } else {
                            assert(p0[p + 1].id != p0[i as int].id);
                        }
                    }
                    assert forall|k: Seq<char>|
                        k != task_id@ implies (has_pending(p1, k) <==> has_pending(p0, k)) by {
                        if has_pending(p1, k) {
                            let p = choose|p: int| 0 <= p < p1.len() && p1[p].id == k;
                            if p < i {
                                assert(p0[p].id == k);
                            } else {
                                assert(p0[p + 1].id == k);
                            }
                        }
                        if has_pending(p0, k) {
                            let p = choose|p: int| 0 <= p < p0.len() && p0[p].id == k;
                            if p < i {
                                assert(p1[p].id == k);
                            } else {
                                assert(p != i);
                                assert(p1[p - 1].id == k);
                            }
                        }
                    }
                    assert forall|k: Seq<char>| k != task_id@ && has_pending(p0, k) implies
                        pending_of(p1, k) == pending_of(p0, k) by {
                        let p = choose|p: int| 0 <= p < p0.len() && p0[p].id == k;
                        lemma_pending_at(p0, k, p);
                        if p < i {
                            lemma_pending_at(p1, k, p);
                        } else {
                            assert(p != i);
                            lemma_pending_at(p1, k, p - 1);
                        }
                    }
                }
                let ghost procv = processor_did@;
                match find_processing_index(&self.processing_tasks, task_id.0.as_str()) {
                    Some(j) => {
                        self.processing_tasks.set(j, (task_id.clone(), processor_did));
                        proof {
                            let pr1 = self@.processing;
                            assert(pr1 =~= pr0.update(j as int, (task_id@, procv)));
                            assert(pr0[j as int].0 == task_id@);
                            assert(forall|p: int| 0 <= p < pr1.len() ==> pr1[p].0 == pr0[p].0);
                            assert forall|p: int, q: int| 0 <= p < q < pr1.len() implies pr1[p].0
                                != pr1[q].0 by {
                                assert(pr1[p].0 == pr0[p].0 && pr1[q].0 == pr0[q].0);
                            }
                            lemma_processing_at(pr1, task_id@, j as int);
                            assert forall|k: Seq<char>|
                                has_processing(pr1, k) <==> has_processing(pr0, k) || k
                                    == task_id@ by {
                                if has_processing(pr1, k) {
                                    let p = choose|p: int| 0 <= p < pr1.len() && pr1[p].0 == k;
                                    assert(pr0[p].0 == k);
                                }
                                if has_processing(pr0, k) {
                                    let p = choose|p: int| 0 <= p < pr0.len() && pr0[p].0 == k;
                                    assert(pr1[p].0 == k);
                                }
                            }
                            assert forall|k: Seq<char>|
                                k != task_id@ && has_processing(pr0, k) implies processor_of(
                                pr1,
                                k,
                            ) == processor_of(pr0, k) by {
                                let p = choose|p: int| 0 <= p < pr0.len() && pr0[p].0 == k;
                                lemma_processing_at(pr0, k, p);
                                lemma_processing_at(pr1, k, p);
                            }
                        }
                    },
                    None => {
                        self.processing_tasks.push((task_id.clone(), processor_did));
                        proof {
                            let pr1 = self@.processing;
                            assert(pr1 =~= pr0.push((task_id@, procv)));
                            assert forall|p: int| 0 <= p < pr0.len() implies pr0[p].0
                                != task_id@ by {
                                assert(pr0[p].0 == self.processing_tasks@[p].0@);
                            }
                            assert forall|p: int, q: int| 0 <= p < q < pr1.len() implies pr1[p].0
                                != pr1[q].0 by {
                                if q < pr0.len() {
                                    assert(pr1[p] == pr0[p] && pr1[q] == pr0[q]);
                                } else {
                                    assert(pr1[q].0 == task_id@);
                                    assert(pr1[p] == pr0[p]);
                                }
                            }
                            lemma_processing_at(pr1, task_id@, pr0.len() as int);
                            assert forall|k: Seq<char>|
                                has_processing(pr1, k) <==> has_processing(pr0, k) || k
                                    == task_id@ by {
                                if has_processing(pr1, k) {
                                    let p = choose|p: int| 0 <= p < pr1.len() && pr1[p].0 == k;
                                    if p < pr0.len() {
                                        assert(pr0[p].0 == k);
                                    }
                                }
                                if has_processing(pr0, k) {
                                    let p = choose|p: int| 0 <= p < pr0.len() && pr0[p].0 == k;
                                    assert(pr1[p].0 == k);
                                }
                            }
                            assert forall|k: Seq<char>|
                                k != task_id@ && has_processing(pr0, k) implies processor_of(
                                pr1,
                                k,
                            ) == processor_of(pr0, k) by {
                                let p = choose|p: int| 0 <= p < pr0.len() && pr0[p].0 == k;
                                lemma_processing_at(pr0, k, p);
                                lemma_processing_at(pr1, k, p);
                            }
                        }
                    },
                }
                proof {
                    assert(self@.completed == old(self)@.completed);
                    assert(self.wf());
                }
                Some(task)
            },
            None => {
                proof {
                    assert forall|p: int| 0 <= p < p0.len() implies p0[p].id != task_id@ by {
                        assert(p0[p].id == self.pending_tasks@[p]@.id);
                    }
                }
                None
            },
        }
    }

    /// Records a result in the completed set, keyed by the result's task
    /// identifier, and drops any processing entry for that identifier — with
    /// no check that the task was actually being processed.
    pub fn complete_task(&mut self, result: TaskResult)
        requires
            old(self).wf(),
        ensures
            final(self).wf(),
            final(self)@.pending == old(self)@.pending,
            has_completed(final(self)@.completed, result@.task_id),
            completed_of(final(self)@.completed, result@.task_id) == result@,
            forall|k: Seq<char>|
                has_completed(final(self)@.completed, k) <==> has_completed(
                    old(self)@.completed,
                    k,
                ) || k == result@.task_id,
            forall|k: Seq<char>|
                k != result@.task_id && has_completed(old(self)@.completed, k)
                    ==> #[trigger] completed_of(final(self)@.completed, k) == completed_of(
                    old(self)@.completed,
                    k,
                ),
            !has_processing(final(self)@.processing, result@.task_id),
            forall|k: Seq<char>|
                k != result@.task_id ==> (has_processing(final(self)@.processing, k)
                    <==> has_processing(old(self)@.processing, k)),
            forall|k: Seq<char>|
                k != result@.task_id && has_processing(old(self)@.processing, k)
                    ==> #[trigger] processor_of(final(self)@.processing, k) == processor_of(
                    old(self)@.processing,
                    k,
                ),
    {
        let ghost c0 = self@.completed;
        let ghost rv = result@;
        let id_string = result.task_id.0.clone();
        match find_completed_index(&self.completed_tasks, id_string.as_str()) {
            Some(i) => {
                self.completed_tasks.set(i, result);
                proof {
                    let c1 = self@.completed;
                    assert(c1 =~= c0.update(i as int, rv));
                    assert(c0[i as int].task_id == rv.task_id);
                    assert(forall|p: int| 0 <= p < c1.len() ==> c1[p].task_id == c0[p].task_id);
                    assert forall|p: int, q: int| 0 <= p < q < c1.len() implies c1[p].task_id
                        != c1[q].task_id by {
                        assert(c1[p].task_id == c0[p].task_id && c1[q].task_id == c0[q].task_id);
                    }
                    lemma_completed_at(c1, rv.task_id, i as int);
                    assert forall|k: Seq<char>|
                        has_completed(c1, k) <==> has_completed(c0, k) || k == rv.task_id by {
                        if has_completed(c1, k) {
                            let p = choose|p: int| 0 <= p < c1.len() && c1[p].task_id == k;
                            assert(c0[p].task_id == k);
                        }
                        if has_completed(c0, k) {
                            let p = choose|p: int| 0 <= p < c0.len() && c0[p].task_id == k;
                            assert(c1[p].task_id == k);
                        }
                    }
                    assert forall|k: Seq<char>| k != rv.task_id && has_completed(c0, k) implies
                        completed_of(c1, k) == completed_of(c0, k) by {
                        let p = choose|p: int| 0 <= p < c0.len() && c0[p].task_id == k;
                        assert(p != i) by {
                            lemma_completed_at(c0, rv.task_id, i as int);
                        }
                        lemma_completed_at(c0, k, p);
                        lemma_completed_at(c1, k, p);
                    }
                }
            },
            None => {
                self.completed_tasks.push(result);
                proof {
                    let c1 = self@.completed;
                    assert(c1 =~= c0.push(rv));
                    assert forall|p: int| 0 <= p < c0.len() implies c0[p].task_id != rv.task_id by {
                        assert(c0[p].task_id == old(self).completed_tasks@[p]@.task_id);
                    }
                    assert forall|p: int, q: int| 0 <= p < q < c1.len() implies c1[p].task_id
                        != c1[q].task_id by {
                        if q < c0.len() {
                            assert(c1[p] == c0[p] && c1[q] == c0[q]);
                        } else {
                            assert(c1[q].task_id == rv.task_id);
                            assert(c1[p] == c0[p]);
                        }
                    }
                    lemma_completed_at(c1, rv.task_id, c0.len() as int);
                    assert forall|k: Seq<char>|
                        has_completed(c1, k) <==> has_completed(c0, k) || k == rv.task_id by {
                        if has_completed(c1, k) {
                            let p = choose|p: int| 0 <= p < c1.len() && c1[p].task_id == k;
                            if p < c0.len() {
                                assert(c0[p].task_id == k);
                            }
                        }
                        if has_completed(c0, k) {
                            let p = choose|p: int| 0 <= p < c0.len() && c0[p].task_id == k;
                            assert(c1[p].task_id == k);
                        }
                    }
                    assert forall|k: Seq<char>| k != rv.task_id && has_completed(c0, k) implies
                        completed_of(c1, k) == completed_of(c0, k) by {
                        let p = choose|p: int| 0 <= p < c0.len() && c0[p].task_id == k;
                        lemma_completed_at(c0, k, p);
                        lemma_completed_at(c1, k, p);
                    }
                }
            },
        }
        let ghost pr0 = self@.processing;
        proof {
            assert(pr0 == old(self)@.processing);
        }
        match find_processing_index(&self.processing_tasks, id_string.as_str()) {
            Some(j) => {
                proof {
                    assert(pr0[j as int].0 == id_string@);
                }
                self.processing_tasks.remove(j);
                proof {
                    let pr1 = self@.processing;
                    assert(pr1 =~= pr0.remove(j as int));
                    assert(forall|p: int| 0 <= p < j ==> pr1[p] == pr0[p]);
                    assert(forall|p: int| j <= p < pr1.len() ==> pr1[p] == pr0[p + 1]);
                    assert forall|p: int, q: int| 0 <= p < q < pr1.len() implies pr1[p].0
                        != pr1[q].0 by {
                        let p2 = if p < j { p } else { p + 1 };
                        let q2 = if q < j { q } else { q + 1 };
                        assert(pr1[p] == pr0[p2] && pr1[q] == pr0[q2]);
                    }
                    assert forall|p: int| 0 <= p < pr1.len() implies pr1[p].0 != rv.task_id by {
                        if p < j {
                            assert(pr0[p].0 != pr0[j as int].0);
                        } else {
                            assert(pr0[p + 1].0 != pr0[j as int].0);
                        }
                    }
                    assert forall|k: Seq<char>|
                        k != rv.task_id implies (has_processing(pr1, k) <==> has_processing(
                        pr0,
                        k,
                    )) by {
                        if has_processing(pr1, k) {
                            let p = choose|p: int| 0 <= p < pr1.len() && pr1[p].0 == k;
                            if p < j {
                                assert(pr0[p].0 == k);
                            } else {
                                assert(pr0[p + 1].0 == k);
                            }
                        }
                        if has_processing(pr0, k) {
                            let p = choose|p: int| 0 <= p < pr0.len() && pr0[p].0 == k;
                            if p < j {
                                assert(pr1[p].0 == k);
                            } else {
                                assert(p != j);
                                assert(pr1[p - 1].0 == k);
                            }
                        }
                    }
                    assert forall|k: Seq<char>| k != rv.task_id && has_processing(pr0, k) implies
                        processor_of(pr1, k) == processor_of(pr0, k) by {
                        let p = choose|p: int| 0 <= p < pr0.len() && pr0[p].0 == k;
                        lemma_processing_at(pr0, k, p);
                        if p < j {
                            lemma_processing_at(pr1, k, p);
                        } else {
                            assert(p != j);
                            lemma_processing_at(pr1, k, p - 1);
                        }
                    }
                }
            },
            None => {
                proof {
                    assert forall|p: int| 0 <= p < pr0.len() implies pr0[p].0 != rv.task_id by {
                        assert(pr0[p].0 == self.processing_tasks@[p].0@);
                    }
                }
            },
        }
        proof {
            assert(self@.pending == old(self)@.pending);
            assert(self.wf());
        }
    }

    /// Drives every currently pending task to completion in one pass: each
    /// is assigned to the fixed in-process executor, processed synchronously,
    /// and completed. This models a single local executor, not distributed
    /// dispatch across the network.
    pub fn process_pending_tasks(&mut self, now: u64)
        requires
            old(self).wf(),
        ensures
            final(self).wf(),
            final(self)@.pending.len() == 0,
            forall|k: Seq<char>|
                has_completed(final(self)@.completed, k) <==> has_completed(
                    old(self)@.completed,
                    k,
                ) || has_pending(old(self)@.pending, k),
            forall|k: Seq<char>|
                has_pending(old(self)@.pending, k) ==> #[trigger] completed_of(
                    final(self)@.completed,
                    k,
                ).processor_did == local_processor_did(),
            forall|k: Seq<char>|
                !has_pending(old(self)@.pending, k) && has_completed(old(self)@.completed, k)
                    ==> #[trigger] completed_of(final(self)@.completed, k) == completed_of(
                    old(self)@.completed,
                    k,
                ),
            forall|k: Seq<char>|
                has_processing(final(self)@.processing, k) <==> has_processing(
                    old(self)@.processing,
                    k,
                ) && !has_pending(old(self)@.pending, k),
            forall|k: Seq<char>|
                has_processing(final(self)@.processing, k) ==> #[trigger] processor_of(
                    final(self)@.processing,
                    k,
                ) == processor_of(old(self)@.processing, k),
    {
        while self.pending_tasks.len() > 0
            invariant
                self.wf(),
                forall|k: Seq<char>|
                    has_pending(self@.pending, k) ==> has_pending(old(self)@.pending, k)
                        && #[trigger] pending_of(self@.pending, k) == pending_of(
                        old(self)@.pending,
                        k,
                    ),
                forall|k: Seq<char>|
                    has_completed(self@.completed, k) <==> has_completed(old(self)@.completed, k)
                        || (has_pending(old(self)@.pending, k) && !has_pending(self@.pending, k)),
                forall|k: Seq<char>|
                    has_pending(old(self)@.pending, k) && !has_pending(self@.pending, k)
                        ==> #[trigger] completed_of(self@.completed, k).processor_did
                        == local_processor_did(),
                forall|k: Seq<char>|
                    !(has_pending(old(self)@.pending, k) && !has_pending(self@.pending, k))
                        && has_completed(old(self)@.completed, k) ==> #[trigger] completed_of(
                        self@.completed,
                        k,
                    ) == completed_of(old(self)@.completed, k),
                forall|k: Seq<char>|
                    has_processing(self@.processing, k) <==> has_processing(
                        old(self)@.processing,
                        k,
                    ) && !(has_pending(old(self)@.pending, k) && !has_pending(self@.pending, k)),
                forall|k: Seq<char>|
                    has_processing(self@.processing, k) ==> #[trigger] processor_of(
                        self@.processing,
                        k,
                    ) == processor_of(old(self)@.processing, k),
            decreases self@.pending.len(),
        {
            let id = self.pending_tasks[0].id.clone();
            let ghost pre = self@;
            proof {
                assert(pre.pending[0].id == id@);
                lemma_pending_at(pre.pending, id@, 0);
            }
            let accepted = self.accept_task(&id, String::from_str("did:duxnet:processor"));
            let ghost mid = self@;
            let task = accepted.unwrap();
            let result = self.process_task(task, String::from_str("did:duxnet:processor"), now);
            let ghost rv = result@;
            proof {
                assert(rv.task_id == id@);
                assert(rv.processor_did == local_processor_did());
            }
            self.complete_task(result);
            proof {
                let cur = self@;
                assert forall|k: Seq<char>|
                    has_pending(cur.pending, k) implies has_pending(old(self)@.pending, k)
                        && pending_of(cur.pending, k) == pending_of(old(self)@.pending, k) by {
                    assert(k != id@);
                    assert(cur.pending == mid.pending);
                    assert(has_pending(pre.pending, k));
                    assert(pending_of(mid.pending, k) == pending_of(pre.pending, k));
                    assert(pending_of(pre.pending, k) == pending_of(old(self)@.pending, k));
                }
                assert forall|k: Seq<char>|
                    has_completed(cur.completed, k) <==> (has_completed(old(self)@.completed, k)
                        || (has_pending(old(self)@.pending, k) && !has_pending(
                        cur.pending,
                        k,
                    ))) by {
                    if k == id@ {
                        assert(has_completed(cur.completed, k));
                        assert(has_pending(old(self)@.pending, k));
                        assert(!has_pending(cur.pending, k));
                    } else {
                        assert(has_completed(cur.completed, k) <==> has_completed(
                            mid.completed,
                            k,
                        ));
                        assert(has_pending(cur.pending, k) <==> has_pending(pre.pending, k));
                    }
                }
                assert forall|k: Seq<char>|
                    has_pending(old(self)@.pending, k) && !has_pending(cur.pending, k) implies
                    completed_of(cur.completed, k).processor_did == local_processor_did() by {
                    if k == id@ {
                        assert(completed_of(cur.completed, k) == rv);
                    } else {
                        assert(completed_of(cur.completed, k) == completed_of(mid.completed, k));
                    }
                }
                assert forall|k: Seq<char>|
                    !(has_pending(old(self)@.pending, k) && !has_pending(cur.pending, k))
                        && has_completed(old(self)@.completed, k) implies completed_of(
                    cur.completed,
                    k,
                ) == completed_of(old(self)@.completed, k) by {
                    assert(k != id@);
                    assert(has_pending(cur.pending, k) <==> has_pending(pre.pending, k));
                }
                assert forall|k: Seq<char>|
                    has_processing(cur.processing, k) <==> (has_processing(
                        old(self)@.processing,
                        k,
                    ) && !(has_pending(old(self)@.pending, k) && !has_pending(
                        cur.pending,
                        k,
                    ))) by {
                    if k == id@ {
                        assert(!has_processing(cur.processing, k));
                        assert(has_pending(old(self)@.pending, k));
                        assert(!has_pending(cur.pending, k));
                    } else {
                        assert(has_processing(cur.processing, k) <==> has_processing(
                            mid.processing,
                            k,
                        ));
                        assert(has_processing(mid.processing, k) <==> has_processing(
                            pre.processing,
                            k,
                        ) || k == id@);
                        assert(has_pending(cur.pending, k) <==> has_pending(pre.pending, k));
                    }
                }
                assert forall|k: Seq<char>|
                    has_processing(cur.processing, k) implies processor_of(cur.processing, k)
                        == processor_of(old(self)@.processing, k) by {
                    assert(k != id@);
                    assert(processor_of(cur.processing, k) == processor_of(mid.processing, k));
                    assert(has_processing(pre.processing, k));
                    assert(processor_of(mid.processing, k) == processor_of(pre.processing, k));
                }
            }
        }
        proof {
            assert(self@.pending.len() == 0);
            assert(forall|k: Seq<char>| !has_pending(self@.pending, k));
        }
    }

    /// Simulates one execution step: the result text binds the task and the
    /// processor, and the proof is a hash over payload and result bytes — a
    /// commitment binding output to input, not a correctness proof.
    pub fn process_task(&self, task: Task, processor_did: String, now: u64) -> (r: TaskResult)
        ensures
            r@.task_id == task@.id,
            r@.processor_did == processor_did@,
            r@.result == vstd::utf8::encode_utf8(processed_message(task@.id, processor_did@)),
            r@.proof_bytes == sha256_of(task@.payload + r@.result),
            r@.completed_at == now,
    {
        let message = String::from_str("Processed task ").concat(task.id.0.as_str()).concat(
            " by ",
        ).concat(processor_did.as_str());
        let result_bytes = message.as_str().as_bytes_vec();
        let mut bound: Vec<u8> = clone_bytes(&task.payload);
        let mut k: usize = 0;
        while k < result_bytes.len()
            invariant
                k <= result_bytes@.len(),
                bound@ == task@.payload + result_bytes@.take(k as int),
            decreases result_bytes@.len() - k,
        {
            bound.push(result_bytes[k]);
            k += 1;
            proof {
                assert(bound@ =~= task@.payload + result_bytes@.take(k as int));
            }
        }
        proof {
            assert(bound@ =~= task@.payload + result_bytes@);
        }
        let proof_bytes = sha256(bound.as_slice());
        TaskResult {
            task_id: task.id,
            processor_did,
            result: result_bytes,
            proof_bytes,
            completed_at: now,
        }
    }

    /// Where a task stands: pending, processing, completed, or unknown.
    pub fn get_task_status(&self, task_id: &TaskId) -> (r: TaskStatus)
        ensures
            r == spec_status(self@, task_id@),
    {
        if let Some(i) = find_pending_index(&self.pending_tasks, task_id.0.as_str()) {
            proof {
                assert(self@.pending[i as int].id == task_id@);
                assert(has_pending(self@.pending, task_id@));
            }
            return TaskStatus::Pending;
        }
        proof {
            assert forall|p: int| 0 <= p < self@.pending.len() implies self@.pending[p].id
                != task_id@ by {
                assert(self@.pending[p].id == self.pending_tasks@[p]@.id);
            }
        }
        if let Some(i) = find_processing_index(&self.processing_tasks, task_id.0.as_str()) {
            proof {
                assert(self@.processing[i as int].0 == task_id@);
                assert(has_processing(self@.processing, task_id@));
            }
            return TaskStatus::Processing;
        }
        proof {
            assert forall|p: int| 0 <= p < self@.processing.len() implies self@.processing[p].0
                != task_id@ by {
                assert(self@.processing[p].0 == self.processing_tasks@[p].0@);
            }
        }
        if let Some(i) = find_completed_index(&self.completed_tasks, task_id.0.as_str()) {
            proof {
                assert(self@.completed[i as int].task_id == task_id@);
                assert(has_completed(self@.completed, task_id@));
            }
            return TaskStatus::Completed;
        }
        proof {
            assert forall|p: int| 0 <= p < self@.completed.len() implies self@.completed[p].task_id
                != task_id@ by {
                assert(self@.completed[p].task_id == self.completed_tasks@[p]@.task_id);
            }
        }
        TaskStatus::NotFound
    }

    /// The pending tasks, in storage order.
    pub fn get_pending_tasks(&self) -> (r: Vec<Task>)
        ensures
            views_of_tasks(r@) == self@.pending,
    {
        let mut out: Vec<Task> = Vec::new();
        let mut i: usize = 0;
        while i < self.pending_tasks.len()
            invariant
                i <= self@.pending.len(),
                out@.len() == i,
                forall|j: int| 0 <= j < i ==> out@[j]@ == self@.pending[j],
            decreases self@.pending.len() - i,
        {
            out.push(self.pending_tasks[i].clone());
            i += 1;
        }
        proof {
            assert(views_of_tasks(out@) =~= self@.pending);
        }
        out
    }

    /// The recorded results, in storage order.
    pub fn get_completed_tasks(&self) -> (r: Vec<TaskResult>)
        ensures
            views_of_results(r@) == self@.completed,
    {
        let mut out: Vec<TaskResult> = Vec::new();
        let mut i: usize = 0;
        while i < self.completed_tasks.len()
            invariant
                i <= self@.completed.len(),
                out@.len() == i,
                forall|j: int| 0 <= j < i ==> out@[j]@ == self@.completed[j],
            decreases self@.completed.len() - i,
        {
            out.push(self.completed_tasks[i].clone());
            i += 1;
        }
        proof {
            assert(views_of_results(out@) =~= self@.completed);
        }
        out
    }

    /// The processing bindings, in storage order.
    pub fn get_processing_tasks(&self) -> (r: Vec<(TaskId, String)>)
        ensures
            views_of_processing(r@) == self@.processing,
    {
        let mut out: Vec<(TaskId, String)> = Vec::new();
        let mut i: usize = 0;
        while i < self.processing_tasks.len()
            invariant
                i <= self@.processing.len(),
                out@.len() == i,
                forall|j: int|
                    0 <= j < i ==> out@[j].0@ == self@.processing[j].0 && out@[j].1@
                        == self@.processing[j].1,
            decreases self@.processing.len() - i,
        {
            let id = self.processing_tasks[i].0.clone();
            let did = self.processing_tasks[i].1.clone();
            out.push((id, did));
            i += 1;
        }
        proof {
            assert(views_of_processing(out@) =~= self@.processing);
        }
        out
    }

    /// Counts of pending, processing, and completed tasks, and their sum.
    pub fn get_stats(&self) -> (r: TaskStats)
        requires
            self@.pending.len() + self@.processing.len() + self@.completed.len() <= usize::MAX,
        ensures
            r.pending_count == self@.pending.len(),
            r.processing_count == self@.processing.len(),
            r.completed_count == self@.completed.len(),
            r.total_tasks == self@.pending.len() + self@.processing.len() + self@.completed.len(),
    {
        let pending_count = self.pending_tasks.len();
        let processing_count = self.processing_tasks.len();
        let completed_count = self.completed_tasks.len();
        TaskStats {
            pending_count,
            processing_count,
            completed_count,
            total_tasks: pending_count + processing_count + completed_count,
        }
    }
}

/// Counts surfaced to the API boundary.
#[derive(Debug, Clone, Copy, PartialEq, Eq, Structural)]
pub struct TaskStats {
    pub pending_count: usize,
    pub processing_count: usize,
    pub completed_count: usize,
    pub total_tasks: usize,
}

} // verus!
