//! The registry of periodic export tasks: which task types are running.
//! The timers and the jobs themselves stay with the caller.

use vstd::prelude::*;
use crate::text::str_eq;

verus! {

/// A task type is registered.
pub open spec fn has_task(s: Seq<String>, t: Seq<char>) -> bool {
    exists|i: int| 0 <= i < s.len() && (#[trigger] s[i])@ == t
}

/// No task type appears twice.
pub open spec fn tasks_unique(s: Seq<String>) -> bool {
    forall|i: int, j: int| 0 <= i < j < s.len() ==> (#[trigger] s[i])@ != (#[trigger] s[j])@
}

/// The process-wide scheduler registry, one entry per running task type.
pub struct SchedulerState {
    pub tasks: Vec<String>,
}

/// One task's running state, as reported to the caller.
#[derive(Debug, Clone)]
pub struct SchedulerStatus {
    pub task_type: String,
    pub running: bool,
}

impl SchedulerState {
    /// At most one running task per task type.
    pub open spec fn wf(self) -> bool {
        tasks_unique(self.tasks@)
    }

    pub fn new() -> (r: SchedulerState)
        ensures
            r.wf(),
            r.tasks@.len() == 0,
    {
        SchedulerState { tasks: Vec::new() }
    }

    /// Whether a task type is currently registered.
    pub fn is_running(&self, task_type: &str) -> (r: bool)
        ensures
            r == has_task(self.tasks@, task_type@),
    {
        let mut i: usize = 0;
        while i < self.tasks.len()
            invariant
                i <= self.tasks@.len(),
                forall|j: int| 0 <= j < i ==> (#[trigger] self.tasks@[j])@ != task_type@,
            decreases self.tasks@.len() - i,
        {
            if str_eq(self.tasks[i].as_str(), task_type) {
                return true;
            }
            i = i + 1;
        }
        proof {
            if has_task(self.tasks@, task_type@) {
                let w = choose|j: int|
                    0 <= j < self.tasks@.len() && (#[trigger] self.tasks@[j])@ == task_type@;
                assert(self.tasks@[w]@ != task_type@);
            }
        }
        false
    }

    /// Register a task type; starting twice is a no-op, so at most one
    /// timer ever runs per task type.
    pub fn start_task(&mut self, task_type: &str) -> (r: bool)
        requires
            old(self).wf(),
        ensures
            final(self).wf(),
            r == !has_task(old(self).tasks@, task_type@),
            has_task(final(self).tasks@, task_type@),
            forall|t: Seq<char>| t != task_type@ ==> #[trigger] has_task(final(self).tasks@, t)
                == has_task(old(self).tasks@, t),
    {
        if self.is_running(task_type) {
            return false;
        }
        let ghost pre = self.tasks@;
        let owned = task_type.to_owned();
        self.tasks.push(owned);
        proof {
            assert(self.tasks@[pre.len() as int]@ == task_type@);
            assert forall|i: int, j: int| 0 <= i < j < self.tasks@.len() implies (
            #[trigger] self.tasks@[i])@ != (#[trigger] self.tasks@[j])@ by {
                if j < pre.len() {
                    assert(pre[i]@ != pre[j]@);
                } else {
                    assert(self.tasks@[j]@ == task_type@);
                    if has_task(pre, task_type@) {
                        let w = choose|k: int|
                            0 <= k < pre.len() && (#[trigger] pre[k])@ == task_type@;
                    }
                    assert(pre[i]@ != task_type@);
                }
            }
            assert forall|t: Seq<char>| t != task_type@ implies #[trigger] has_task(
                self.tasks@,
                t,
            ) == has_task(pre, t) by {
                if has_task(self.tasks@, t) {
                    let w = choose|k: int|
                        0 <= k < self.tasks@.len() && (#[trigger] self.tasks@[k])@ == t;
                    if w < pre.len() {
                        assert(pre[w]@ == t);
                    }
                }
                if has_task(pre, t) {
                    let w = choose|k: int| 0 <= k < pre.len() && (#[trigger] pre[k])@ == t;
                    assert(self.tasks@[w]@ == t);
                }
            }
        }
        true
    }

    /// Remove a task type; stopping twice is a no-op.
    pub fn stop_task(&mut self, task_type: &str) -> (r: bool)
        requires
            old(self).wf(),
        ensures
            final(self).wf(),
            r == has_task(old(self).tasks@, task_type@),
            !has_task(final(self).tasks@, task_type@),
            forall|t: Seq<char>| t != task_type@ ==> #[trigger] has_task(final(self).tasks@, t)
                == has_task(old(self).tasks@, t),
    {
        let ghost pre = self.tasks@;
        let mut i: usize = 0;
        while i < self.tasks.len()
            invariant
                i <= self.tasks@.len(),
                self.tasks@ == pre,
                pre == old(self).tasks@,
                tasks_unique(pre),
                forall|j: int| 0 <= j < i ==> (#[trigger] pre[j])@ != task_type@,
            decreases self.tasks@.len() - i,
        {
            if str_eq(self.tasks[i].as_str(), task_type) {
                self.tasks.remove(i);
                proof {
                    assert(self.tasks@ =~= pre.subrange(0, i as int) + pre.subrange(
                        i + 1,
                        pre.len() as int,
                    ));
                    assert forall|a: int, b: int|
                        0 <= a < b < self.tasks@.len() implies (#[trigger] self.tasks@[a])@ != (
                    #[trigger] self.tasks@[b])@ by {
                        let ai: int = if a < i { a } else { a + 1 };
                        let bi: int = if b < i { b } else { b + 1 };
                        assert(self.tasks@[a] == pre[ai]);
                        assert(self.tasks@[b] == pre[bi]);
                    }
                    assert(!has_task(self.tasks@, task_type@)) by {
                        if has_task(self.tasks@, task_type@) {
                            let w = choose|k: int|
                                0 <= k < self.tasks@.len() && (#[trigger] self.tasks@[k])@
                                    == task_type@;
                            let wi: int = if w < i { w } else { w + 1 };
                            assert(pre[wi]@ == task_type@);
                            assert(pre[i as int]@ == task_type@);
                        }
                    }
                    assert forall|t: Seq<char>| t != task_type@ implies #[trigger] has_task(
                        self.tasks@,
                        t,
                    ) == has_task(pre, t) by {
                        if has_task(self.tasks@, t) {
                            let w = choose|k: int|
                                0 <= k < self.tasks@.len() && (#[trigger] self.tasks@[k])@ == t;
                            let wi: int = if w < i { w } else { w + 1 };
                            assert(pre[wi]@ == t);
                        }
                        if has_task(pre, t) {
                            let w = choose|k: int|
                                0 <= k < pre.len() && (#[trigger] pre[k])@ == t;
                            if w < i {
                                assert(self.tasks@[w]@ == t);
                            } else {
                                assert(w != i);
                                assert(self.tasks@[w - 1]@ == t);
                            }
                        }
                    }
                    assert(has_task(pre, task_type@)) by {
                        assert(pre[i as int]@ == task_type@);
                    }
                }
                return true;
            }
            i = i + 1;
        }
        proof {
            if has_task(pre, task_type@) {
                let w = choose|k: int| 0 <= k < pre.len() && (#[trigger] pre[k])@ == task_type@;
                assert(pre[w]@ != task_type@);
            }
        }
        false
    }
}

} // verus!
