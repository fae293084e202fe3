//! The cooperative scheduler's bookkeeping: a table of pending I/O tasks
//! with stable handles. Progress is made only when the owner polls; tasks
//! suspend by staying in the table and are cancelled by removal.

use vstd::prelude::*;

verus! {

/// What a pending task is waiting for, and on which queue.
#[derive(Clone, Copy, Debug, PartialEq, Eq, Structural)]
pub enum TaskKind {
    /// Waiting for incoming bytes on this queue descriptor.
    Pop(u32),
    /// Waiting for the acknowledgment that drains a push on this queue.
    Push(u32),
    /// Waiting for the close of this queue to complete.
    Close(u32),
}

/// A handle naming one inserted task.
#[derive(Clone, Copy, Debug, PartialEq, Eq, Structural)]
pub struct TaskHandle {
    pub id: u64,
}

/// Everything `Scheduler::remove` promises: a live handle's task leaves the
/// table and comes back; a stale handle changes nothing and yields nothing.
pub open spec fn spec_remove_post(
    pre: Scheduler,
    post: Scheduler,
    handle: TaskHandle,
    r: Option<TaskKind>,
) -> bool {
    &&& post.wf()
    &&& post.next_id == pre.next_id
    &&& pre.find(handle.id) is None ==> r is None && post == pre
    &&& (pre.find(handle.id) matches Some(i) ==> {
        &&& r == Some(pre.tasks@[i].1)
        &&& post.tasks@ == pre.tasks@.remove(i)
    })
}

/// The task table of one worker's scheduler.
pub struct Scheduler {
    /// Pending tasks, in insertion order, with their handles.
    pub tasks: Vec<(u64, TaskKind)>,
    /// The next handle to hand out; larger than every handle in the table.
    pub next_id: u64,
}

impl Scheduler {
    /// Task ids are unique: strictly increasing in table order, all below
    /// the next id to be issued.
    pub open spec fn wf(self) -> bool {
        &&& forall|i: int, j: int| 0 <= i < j < self.tasks@.len()
            ==> (#[trigger] self.tasks@[i]).0 < (#[trigger] self.tasks@[j]).0
        &&& forall|i: int| 0 <= i < self.tasks@.len()
            ==> (#[trigger] self.tasks@[i]).0 < self.next_id
    }

    /// An empty task table.
    pub fn new() -> (r: Scheduler)
        ensures
            r.wf(),
            r.tasks@.len() == 0,
            r.next_id == 0,
    {
        Scheduler { tasks: Vec::new(), next_id: 0 }
    }

    /// How many tasks are pending.
    pub fn len(&self) -> (r: usize)
        ensures
            r == self.tasks@.len(),
    {
        self.tasks.len()
    }

    /// Inserts a task and returns its fresh handle. Fails only when the
    /// handle space is exhausted.
    pub fn insert(&mut self, kind: TaskKind) -> (r: Option<TaskHandle>)
        requires
            old(self).wf(),
        ensures
            final(self).wf(),
            old(self).next_id < u64::MAX ==> {
                &&& (r matches Some(h) && h.id == old(self).next_id)
                &&& final(self).tasks@
                    == old(self).tasks@.push((old(self).next_id, kind))
                &&& final(self).next_id == old(self).next_id + 1
            },
            old(self).next_id == u64::MAX ==> r is None && *final(self) == *old(self),
    {
        if self.next_id == u64::MAX {
            return None;
        }
        let id = self.next_id;
        self.tasks.push((id, kind));
        self.next_id = self.next_id + 1;
        proof {
            assert forall|i: int, j: int| 0 <= i < j < self.tasks@.len()
                implies (#[trigger] self.tasks@[i]).0 < (#[trigger] self.tasks@[j]).0 by {
                if j < self.tasks@.len() - 1 {
                    assert(old(self).tasks@[i].0 < old(self).tasks@[j].0);
                } else {
                    assert(old(self).tasks@[i].0 < old(self).next_id);
                }
            }
        }
        Some(TaskHandle { id })
    }

    /// The position of a handle's task, if it is still pending.
    pub open spec fn find(self, id: u64) -> Option<int> {
        if exists|i: int| 0 <= i < self.tasks@.len() && (#[trigger] self.tasks@[i]).0 == id {
            Some(choose|i: int| 0 <= i < self.tasks@.len()
                && (#[trigger] self.tasks@[i]).0 == id)
        } else {
            None::<int>
        }
    }

    /// Looks up a pending task by handle.
    pub fn from_task_id(&self, id: u64) -> (r: Option<TaskKind>)
        requires
            self.wf(),
        ensures
            (r is Some) == (self.find(id) is Some),
            r matches Some(k) ==> (self.find(id) matches Some(i)
                && self.tasks@[i].1 == k),
    {
        let n = self.tasks.len();
        for i in 0..n
            invariant
                n == self.tasks@.len(),
                self.wf(),
                forall|j: int| 0 <= j < i ==> (#[trigger] self.tasks@[j]).0 != id,
        {
            if self.tasks[i].0 == id {
                proof {
                    assert(self.tasks@[i as int].0 == id);
                    assert(exists|k: int| 0 <= k < self.tasks@.len()
                        && (#[trigger] self.tasks@[k]).0 == id);
                    let w = choose|k: int| 0 <= k < self.tasks@.len()
                        && (#[trigger] self.tasks@[k]).0 == id;
                    assert(0 <= w < self.tasks@.len() && self.tasks@[w].0 == id);
                    if w != i {
                        if w < i {
                            assert(self.tasks@[w].0 < self.tasks@[i as int].0);
                        } else {
                            assert(self.tasks@[i as int].0 < self.tasks@[w].0);
                        }
                    }
                }
                return Some(self.tasks[i].1);
            }
        }
        proof {
            if self.find(id) is Some {
                let w = choose|i: int| 0 <= i < self.tasks@.len()
                    && (#[trigger] self.tasks@[i]).0 == id;
                assert(self.tasks@[w].0 == id);
            }
        }
        None
    }

    /// Removes a handle's task, cancelling it; returns what it was waiting
    /// for, or nothing when the handle is stale.
    pub fn remove(&mut self, handle: TaskHandle) -> (r: Option<TaskKind>)
        requires
            old(self).wf(),
        ensures
            spec_remove_post(*old(self), *final(self), handle, r),
    {
        let n = self.tasks.len();
        for i in 0..n
            invariant
                n == self.tasks@.len(),
                *self == *old(self),
                old(self).wf(),
                forall|j: int| 0 <= j < i ==> (#[trigger] self.tasks@[j]).0 != handle.id,
        {
            if self.tasks[i].0 == handle.id {
                proof {
                    assert(self.tasks@[i as int].0 == handle.id);
                    assert(exists|k: int| 0 <= k < self.tasks@.len()
                        && (#[trigger] self.tasks@[k]).0 == handle.id);
                    let w = choose|k: int| 0 <= k < self.tasks@.len()
                        && (#[trigger] self.tasks@[k]).0 == handle.id;
                    assert(0 <= w < self.tasks@.len() && self.tasks@[w].0 == handle.id);
                    if w != i {
                        if w < i {
                            assert(self.tasks@[w].0 < self.tasks@[i as int].0);
                        } else {
                            assert(self.tasks@[i as int].0 < self.tasks@[w].0);
                        }
                    }
                }
                let entry = self.tasks.remove(i);
                proof {
                    assert forall|a: int, b: int| 0 <= a < b < self.tasks@.len()
                        implies (#[trigger] self.tasks@[a]).0
                            < (#[trigger] self.tasks@[b]).0 by {
                        if b < i {
                            assert(old(self).tasks@[a].0 < old(self).tasks@[b].0);
                        } else if a < i {
                            assert(old(self).tasks@[a].0 < old(self).tasks@[b + 1].0);
                        } else {
                            assert(old(self).tasks@[a + 1].0 < old(self).tasks@[b + 1].0);
                        }
                    }
                    assert forall|a: int| 0 <= a < self.tasks@.len()
                        implies (#[trigger] self.tasks@[a]).0 < self.next_id by {
                        if a < i {
                            assert(old(self).tasks@[a].0 < old(self).next_id);
                        } else {
                            assert(old(self).tasks@[a + 1].0 < old(self).next_id);
                        }
                    }
                }
                return Some(entry.1);
            }
        }
        proof {
            if old(self).find(handle.id) is Some {
                let w = choose|k: int| 0 <= k < old(self).tasks@.len()
                    && (#[trigger] old(self).tasks@[k]).0 == handle.id;
                assert(old(self).tasks@[w].0 == handle.id);
            }
        }
        None
    }
}

} // verus!
