//! Subtask lifecycle: appended creation under a task, partial updates of
//! title and done flag, and deletion.

use vstd::prelude::*;

use crate::model::{dup_subtask, CreateSubtaskRequest, StoreError, Subtask, UpdateSubtaskRequest};
use crate::ordering::{append_key, compute_append_key};
use crate::store::Store;

verus! {

/// Sort keys of the subtasks of task `tid`, in table order.
pub open spec fn subtask_keys_in(s: Seq<Subtask>, tid: i64) -> Seq<i64>
    decreases s.len(),
{
    if s.len() == 0 {
        Seq::empty()
    } else if s.last().task_id == tid {
        subtask_keys_in(s.drop_last(), tid).push(s.last().sort_order)
    } else {
        subtask_keys_in(s.drop_last(), tid)
    }
}

impl Store {
    /// Creates a subtask at the end of the task's list, not yet done, with
    /// an appended sort key scoped to that task.  An unknown task reports
    /// not-found; an empty title is refused.
    pub fn create_subtask(&mut self, task_id: i64, req: CreateSubtaskRequest) -> (r: Result<
        Subtask,
        StoreError,
    >)
        requires
            old(self).wf(),
            old(self).next_subtask_id < i64::MAX,
            forall|i: int|
                0 <= i < old(self).subtasks@.len() ==> old(self).subtasks@[i].sort_order
                    <= i64::MAX - 1000,
        ensures
            final(self).wf(),
            req.title@.len() == 0 ==> r == Err::<Subtask, StoreError>(StoreError::Validation)
                && *final(self) == *old(self),
            req.title@.len() > 0 && !old(self).has_task(task_id) ==> r == Err::<
                Subtask,
                StoreError,
            >(StoreError::NotFound) && *final(self) == *old(self),
            req.title@.len() > 0 && old(self).has_task(task_id) ==> (r matches Ok(st) && {
                &&& st.id == old(self).next_subtask_id
                &&& st.task_id == task_id
                &&& st.title == req.title
                &&& st.done == false
                &&& st.sort_order as int == append_key(
                    subtask_keys_in(old(self).subtasks@, task_id),
                )
                &&& final(self).subtasks@ == old(self).subtasks@.push(st)
                &&& final(self).next_subtask_id == old(self).next_subtask_id + 1
                &&& final(self).same_projects(*old(self))
                &&& final(self).same_columns(*old(self))
                &&& final(self).same_tasks(*old(self))
                &&& final(self).same_tags(*old(self))
                &&& final(self).same_bindings(*old(self))
            }),
    {
        if req.title.as_str().is_empty() {
            return Err(StoreError::Validation);
        }
        if self.find_task(task_id).is_none() {
            return Err(StoreError::NotFound);
        }
        let mut keys: Vec<i64> = Vec::new();
        let mut i: usize = 0;
        while i < self.subtasks.len()
            invariant
                i <= self.subtasks@.len(),
                keys@ == subtask_keys_in(self.subtasks@.take(i as int), task_id),
                forall|j: int|
                    0 <= j < self.subtasks@.len() ==> self.subtasks@[j].sort_order <= i64::MAX
                        - 1000,
                forall|j: int| 0 <= j < keys@.len() ==> #[trigger] keys@[j] <= i64::MAX - 1000,
            decreases self.subtasks@.len() - i,
        {
            proof {
                assert(self.subtasks@.take(i + 1).drop_last() =~= self.subtasks@.take(i as int));
                assert(self.subtasks@.take(i + 1).last() == self.subtasks@[i as int]);
            }
            if self.subtasks[i].task_id == task_id {
                keys.push(self.subtasks[i].sort_order);
            }
            i = i + 1;
        }
        proof {
            assert(self.subtasks@.take(self.subtasks@.len() as int) =~= self.subtasks@);
        }
        let sort_order = compute_append_key(&keys);
        let id = self.next_subtask_id;
        let st = Subtask { id, task_id, title: req.title, done: false, sort_order };
        self.subtasks.push(dup_subtask(&st));
        self.next_subtask_id = id + 1;
        proof {
            let pre = *old(self);
            assert forall|k: int| 0 <= k < self.subtasks@.len() implies self.has_task(
                self.subtasks@[k].task_id,
            ) by {
                if k < pre.subtasks@.len() {
                    assert(pre.has_task(pre.subtasks@[k].task_id));
                    Store::lemma_has_task_prefix(pre, *self, pre.subtasks@[k].task_id);
                } else {
                    Store::lemma_has_task_prefix(pre, *self, task_id);
                }
            }
        }
        Ok(st)
    }

    /// Partially updates a subtask; a `None` field of the request keeps the
    /// current value.  An empty title is refused; an unknown id reports
    /// not-found.
    pub fn update_subtask(&mut self, id: i64, req: UpdateSubtaskRequest) -> (r: Result<
        Subtask,
        StoreError,
    >)
        requires
            old(self).wf(),
        ensures
            final(self).wf(),
            (req.title matches Some(t) && t@.len() == 0) ==> r == Err::<Subtask, StoreError>(
                StoreError::Validation,
            ) && *final(self) == *old(self),
            !(req.title matches Some(t) && t@.len() == 0) && !old(self).has_subtask(id) ==> r
                == Err::<Subtask, StoreError>(StoreError::NotFound) && *final(self) == *old(self),
            !(req.title matches Some(t) && t@.len() == 0) && old(self).has_subtask(id) ==> (r
                matches Ok(n) && exists|i: int|
                {
                    &&& 0 <= i < old(self).subtasks@.len()
                    &&& (#[trigger] old(self).subtasks@[i]).id == id
                    &&& {
                        let o = old(self).subtasks@[i];
                        &&& n.id == id
                        &&& n.task_id == o.task_id
                        &&& n.title == (if req.title is Some {
                            req.title->0
                        } else {
                            o.title
                        })
                        &&& n.done == (if req.done is Some {
                            req.done->0
                        } else {
                            o.done
                        })
                        &&& n.sort_order == o.sort_order
                        &&& final(self).subtasks@ == old(self).subtasks@.update(i, n)
                    }
                } && final(self).next_subtask_id == old(self).next_subtask_id
                && final(self).same_projects(*old(self)) && final(self).same_columns(*old(self))
                && final(self).same_tasks(*old(self)) && final(self).same_tags(*old(self))
                && final(self).same_bindings(*old(self))),
    {
        match &req.title {
            Some(t) => {
                if t.as_str().is_empty() {
                    return Err(StoreError::Validation);
                }
            },
            None => {},
        }
        let i = match self.find_subtask(id) {
            None => {
                return Err(StoreError::NotFound);
            },
            Some(i) => i,
        };
        let mut st = self.subtasks.remove(i);
        match req.title {
            Some(s) => {
                st.title = s;
            },
            None => {},
        }
        match req.done {
            Some(d) => {
                st.done = d;
            },
            None => {},
        }
        let ret = dup_subtask(&st);
        self.subtasks.insert(i, st);
        proof {
            let pre = *old(self);
            assert(self.subtasks@ =~= pre.subtasks@.update(i as int, self.subtasks@[i as int]));
            assert(ret == self.subtasks@[i as int]);
            assert forall|k: int|
                0 <= k < self.subtasks@.len() implies (#[trigger] self.subtasks@[k]).id
                == pre.subtasks@[k].id && self.subtasks@[k].task_id
                == pre.subtasks@[k].task_id by {}
            assert forall|k: int| 0 <= k < self.subtasks@.len() implies self.has_task(
                self.subtasks@[k].task_id,
            ) by {
                assert(self.subtasks@[k].task_id == pre.subtasks@[k].task_id);
                assert(pre.has_task(pre.subtasks@[k].task_id));
                Store::lemma_has_task_prefix(pre, *self, pre.subtasks@[k].task_id);
            }
        }
        Ok(ret)
    }

    /// Deletes a subtask.  An unknown id reports not-found and changes
    /// nothing.
    pub fn delete_subtask(&mut self, id: i64) -> (r: Result<(), StoreError>)
        requires
            old(self).wf(),
        ensures
            final(self).wf(),
            !old(self).has_subtask(id) ==> r == Err::<(), StoreError>(StoreError::NotFound)
                && *final(self) == *old(self),
            old(self).has_subtask(id) ==> r == Ok::<(), StoreError>(()) && {
                &&& exists|i: int|
                    0 <= i < old(self).subtasks@.len() && (#[trigger] old(self).subtasks@[i]).id
                        == id && final(self).subtasks@ == old(self).subtasks@.remove(i)
                &&& final(self).next_subtask_id == old(self).next_subtask_id
                &&& final(self).same_projects(*old(self))
                &&& final(self).same_columns(*old(self))
                &&& final(self).same_tasks(*old(self))
                &&& final(self).same_tags(*old(self))
                &&& final(self).same_bindings(*old(self))
            },
    {
        let idx = match self.find_subtask(id) {
            None => {
                return Err(StoreError::NotFound);
            },
            Some(i) => i,
        };
        self.subtasks.remove(idx);
        proof {
            let pre = *old(self);
            pre.subtasks@.remove_ensures(idx as int);
            assert forall|a: int, b: int|
                0 <= a < b < self.subtasks@.len() implies self.subtasks@[a].id
                != self.subtasks@[b].id by {
                assert(self.subtasks@[a] == if a < idx as int {
                    pre.subtasks@[a]
                } else {
                    pre.subtasks@[a + 1]
                });
                assert(self.subtasks@[b] == if b < idx as int {
                    pre.subtasks@[b]
                } else {
                    pre.subtasks@[b + 1]
                });
            }
            assert forall|a: int| 0 <= a < self.subtasks@.len() implies 1
                <= #[trigger] self.subtasks@[a].id < self.next_subtask_id by {
                assert(self.subtasks@[a] == if a < idx as int {
                    pre.subtasks@[a]
                } else {
                    pre.subtasks@[a + 1]
                });
            }
            assert forall|a: int| 0 <= a < self.subtasks@.len() implies self.has_task(
                self.subtasks@[a].task_id,
            ) by {
                assert(self.subtasks@[a] == if a < idx as int {
                    pre.subtasks@[a]
                } else {
                    pre.subtasks@[a + 1]
                });
                assert(pre.has_task(self.subtasks@[a].task_id));
                Store::lemma_has_task_prefix(pre, *self, self.subtasks@[a].task_id);
            }
            assert(0 <= idx && (idx as int) < pre.subtasks@.len() && pre.subtasks@[idx as int].id
                == id && self.subtasks@ == pre.subtasks@.remove(idx as int));
            assert forall|k: int| 0 <= k < self.columns@.len() implies self.has_project(
                self.columns@[k].project_id,
            ) by {
                assert(pre.has_project(pre.columns@[k].project_id));
                Store::lemma_has_project_prefix(pre, *self, pre.columns@[k].project_id);
            }
            assert forall|k: int| 0 <= k < self.tasks@.len() implies self.has_project(
                self.tasks@[k].project_id,
            ) by {
                assert(pre.has_project(pre.tasks@[k].project_id));
                Store::lemma_has_project_prefix(pre, *self, pre.tasks@[k].project_id);
            }
            assert forall|k: int| 0 <= k < self.tasks@.len() implies self.has_column_in(
                self.tasks@[k].column_id,
                self.tasks@[k].project_id,
            ) by {
                assert(pre.has_column_in(pre.tasks@[k].column_id, pre.tasks@[k].project_id));
                Store::lemma_has_column_in_prefix(
                    pre,
                    *self,
                    pre.tasks@[k].column_id,
                    pre.tasks@[k].project_id,
                );
            }
            assert(self.projects_wf());
            assert(self.columns_wf());
            assert(self.tasks_wf());
            assert(self.subtasks_wf());
            assert(self.tags_wf());
            assert(self.bindings_wf());
        }
        Ok(())
    }
}

} // verus!
