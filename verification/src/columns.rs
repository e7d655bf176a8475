//! Column lifecycle: appended creation within a project, renaming,
//! cascading deletion, and the project-scoped transactional bulk reorder.

use vstd::prelude::*;

use crate::cascade::{seq_has_task, subtasks_with_live_tasks, tasks_without_column};
use crate::model::{
    dup_column, Column, CreateColumnRequest, StoreError, Subtask, Task, UpdateColumnRequest,
};
use crate::ordering::{append_key, compute_append_key, last_key_for, mentions, ReorderItem};
use crate::store::Store;

verus! {

/// Sort keys of the columns of project `pid`, in table order.
pub open spec fn column_keys_in(s: Seq<Column>, pid: i64) -> Seq<i64>
    decreases s.len(),
{
    if s.len() == 0 {
        Seq::empty()
    } else if s.last().project_id == pid {
        column_keys_in(s.drop_last(), pid).push(s.last().sort_order)
    } else {
        column_keys_in(s.drop_last(), pid)
    }
}

impl Store {
    /// Index of the column with this id inside project `pid`, if any.
    pub fn find_column_of(&self, id: i64, pid: i64) -> (r: Option<usize>)
        ensures
            match r {
                Some(i) => i < self.columns@.len() && self.columns@[i as int].id == id
                    && self.columns@[i as int].project_id == pid,
                None => !self.has_column_in(id, pid),
            },
    {
        let mut i: usize = 0;
        while i < self.columns.len()
            invariant
                i <= self.columns@.len(),
                forall|j: int|
                    0 <= j < i ==> !((#[trigger] self.columns@[j]).id == id
                        && self.columns@[j].project_id == pid),
            decreases self.columns@.len() - i,
        {
            if self.columns[i].id == id && self.columns[i].project_id == pid {
                return Some(i);
            }
            i = i + 1;
        }
        None
    }

    /// Creates a column at the end of the project's board, with an appended
    /// sort key scoped to that project.  An unknown project reports
    /// not-found; an empty name is refused.
    pub fn create_column(&mut self, project_id: i64, req: CreateColumnRequest, created_at: &str) -> (r:
        Result<Column, StoreError>)
        requires
            old(self).wf(),
            old(self).next_column_id < i64::MAX,
            forall|i: int|
                0 <= i < old(self).columns@.len() ==> old(self).columns@[i].sort_order <= i64::MAX
                    - 1000,
        ensures
            final(self).wf(),
            req.name@.len() == 0 ==> r == Err::<Column, StoreError>(StoreError::Validation)
                && *final(self) == *old(self),
            req.name@.len() > 0 && !old(self).has_project(project_id) ==> r == Err::<
                Column,
                StoreError,
            >(StoreError::NotFound) && *final(self) == *old(self),
            req.name@.len() > 0 && old(self).has_project(project_id) ==> (r matches Ok(c) && {
                &&& c.id == old(self).next_column_id
                &&& c.project_id == project_id
                &&& c.name == req.name
                &&& c.sort_order as int == append_key(column_keys_in(old(self).columns@, project_id))
                &&& c.created_at@ == created_at@
                &&& final(self).columns@ == old(self).columns@.push(c)
                &&& final(self).next_column_id == old(self).next_column_id + 1
                &&& final(self).same_projects(*old(self))
                &&& final(self).same_tasks(*old(self))
                &&& final(self).same_subtasks(*old(self))
                &&& final(self).same_tags(*old(self))
                &&& final(self).same_bindings(*old(self))
            }),
    {
        if req.name.as_str().is_empty() {
            return Err(StoreError::Validation);
        }
        if self.find_project(project_id).is_none() {
            return Err(StoreError::NotFound);
        }
        let mut keys: Vec<i64> = Vec::new();
        let mut i: usize = 0;
        while i < self.columns.len()
            invariant
                i <= self.columns@.len(),
                keys@ == column_keys_in(self.columns@.take(i as int), project_id),
                forall|j: int|
                    0 <= j < self.columns@.len() ==> self.columns@[j].sort_order <= i64::MAX
                        - 1000,
                forall|j: int| 0 <= j < keys@.len() ==> #[trigger] keys@[j] <= i64::MAX - 1000,
            decreases self.columns@.len() - i,
        {
            proof {
                assert(self.columns@.take(i + 1).drop_last() =~= self.columns@.take(i as int));
                assert(self.columns@.take(i + 1).last() == self.columns@[i as int]);
            }
            if self.columns[i].project_id == project_id {
                keys.push(self.columns[i].sort_order);
            }
            i = i + 1;
        }
        proof {
            assert(self.columns@.take(self.columns@.len() as int) =~= self.columns@);
        }
        let sort_order = compute_append_key(&keys);
        let id = self.next_column_id;
        let c = Column {
            id,
            project_id,
            name: req.name,
            sort_order,
            created_at: created_at.to_owned(),
        };
        self.columns.push(dup_column(&c));
        self.next_column_id = id + 1;
        proof {
            let pre = *old(self);
            assert forall|k: int| 0 <= k < self.columns@.len() implies self.has_project(
                self.columns@[k].project_id,
            ) by {
                if k < pre.columns@.len() {
                    assert(pre.has_project(pre.columns@[k].project_id));
                    Store::lemma_has_project_prefix(pre, *self, pre.columns@[k].project_id);
                } else {
                    Store::lemma_has_project_prefix(pre, *self, project_id);
                }
            }
            assert forall|k: int| 0 <= k < self.tasks@.len() implies self.has_project(
                self.tasks@[k].project_id,
            ) by {
                assert(pre.has_project(pre.tasks@[k].project_id));
                Store::lemma_has_project_prefix(pre, *self, pre.tasks@[k].project_id);
            }
            assert forall|k: int| 0 <= k < self.tasks@.len() implies self.has_column_in(
                self.tasks@[k].column_id,
                self.tasks@[k].project_id,
            ) by {
                assert(pre.has_column_in(pre.tasks@[k].column_id, pre.tasks@[k].project_id));
                Store::lemma_has_column_in_prefix(
                    pre,
                    *self,
                    pre.tasks@[k].column_id,
                    pre.tasks@[k].project_id,
                );
            }
            assert forall|k: int|
                0 <= k < self.bindings@.len() implies self.has_project(
                self.bindings@[k].project_id,
            ) by {
                assert(pre.has_project(pre.bindings@[k].project_id));
                Store::lemma_has_project_prefix(pre, *self, pre.bindings@[k].project_id);
            }
            assert forall|k: int|
                0 <= k < self.bindings@.len()
                    && (#[trigger] self.bindings@[k].default_column_id) is Some implies self.has_column_in(
                self.bindings@[k].default_column_id->0,
                self.bindings@[k].project_id,
            ) by {
                assert(pre.has_column_in(
                    pre.bindings@[k].default_column_id->0,
                    pre.bindings@[k].project_id,
                ));
                Store::lemma_has_column_in_prefix(
                    pre,
                    *self,
                    pre.bindings@[k].default_column_id->0,
                    pre.bindings@[k].project_id,
                );
            }
            assert forall|k: int| 0 <= k < self.subtasks@.len() implies self.has_task(
                self.subtasks@[k].task_id,
            ) by {
                assert(pre.has_task(pre.subtasks@[k].task_id));
                Store::lemma_has_task_prefix(pre, *self, pre.subtasks@[k].task_id);
            }
        }
        Ok(c)
    }

    /// Renames a column.  An empty name is refused; an unknown id reports
    /// not-found.  Nothing else about the board changes.
    pub fn update_column(&mut self, id: i64, req: UpdateColumnRequest) -> (r: Result<
        Column,
        StoreError,
    >)
        requires
            old(self).wf(),
        ensures
            final(self).wf(),
            req.name@.len() == 0 ==> r == Err::<Column, StoreError>(StoreError::Validation)
                && *final(self) == *old(self),
            req.name@.len() > 0 && !old(self).has_column(id) ==> r == Err::<Column, StoreError>(
                StoreError::NotFound,
            ) && *final(self) == *old(self),
            req.name@.len() > 0 && old(self).has_column(id) ==> (r matches Ok(c) && {
                &&& c.id == id
                &&& c.name == req.name
                &&& exists|i: int|
                    {
                        &&& 0 <= i < old(self).columns@.len()
                        &&& (#[trigger] old(self).columns@[i]).id == id
                        &&& c.project_id == old(self).columns@[i].project_id
                        &&& c.sort_order == old(self).columns@[i].sort_order
                        &&& c.created_at == old(self).columns@[i].created_at
                        &&& final(self).columns@ == old(self).columns@.update(i, c)
                    }
                &&& final(self).next_column_id == old(self).next_column_id
                &&& final(self).same_projects(*old(self))
                &&& final(self).same_tasks(*old(self))
                &&& final(self).same_subtasks(*old(self))
                &&& final(self).same_tags(*old(self))
                &&& final(self).same_bindings(*old(self))
            }),
    {
        if req.name.as_str().is_empty() {
            return Err(StoreError::Validation);
        }
        match self.find_column(id) {
            None => Err(StoreError::NotFound),
            Some(i) => {
                let mut c = self.columns.remove(i);
                c.name = req.name;
                let ret = dup_column(&c);
                self.columns.insert(i, c);
                proof {
                    let pre = *old(self);
                    assert(self.columns@ =~= pre.columns@.update(
                        i as int,
                        self.columns@[i as int],
                    ));
                    assert(ret == self.columns@[i as int]);
                    assert forall|k: int|
                        0 <= k < self.columns@.len() implies (#[trigger] self.columns@[k]).id
                        == pre.columns@[k].id && self.columns@[k].project_id
                        == pre.columns@[k].project_id by {}
                    assert forall|k: int| 0 <= k < self.columns@.len() implies self.has_project(
                        self.columns@[k].project_id,
                    ) by {
                        assert(pre.has_project(pre.columns@[k].project_id));
                        Store::lemma_has_project_prefix(pre, *self, pre.columns@[k].project_id);
                    }
                    assert forall|k: int| 0 <= k < self.tasks@.len() implies self.has_project(
                        self.tasks@[k].project_id,
                    ) by {
                        assert(pre.has_project(pre.tasks@[k].project_id));
                        Store::lemma_has_project_prefix(pre, *self, pre.tasks@[k].project_id);
                    }
                    assert forall|k: int| 0 <= k < self.tasks@.len() implies self.has_column_in(
                        self.tasks@[k].column_id,
                        self.tasks@[k].project_id,
                    ) by {
                        assert(pre.has_column_in(
                            pre.tasks@[k].column_id,
                            pre.tasks@[k].project_id,
                        ));
                        Store::lemma_has_column_in_same_ids(
                            pre,
                            *self,
                            pre.tasks@[k].column_id,
                            pre.tasks@[k].project_id,
                        );
                    }
                    assert forall|k: int|
                        0 <= k < self.bindings@.len() implies self.has_project(
                        self.bindings@[k].project_id,
                    ) by {
                        assert(pre.has_project(pre.bindings@[k].project_id));
                        Store::lemma_has_project_prefix(pre, *self, pre.bindings@[k].project_id);
                    }
                    assert forall|k: int|
                        0 <= k < self.bindings@.len() && (
                    #[trigger] self.bindings@[k].default_column_id) is Some implies self.has_column_in(
                        self.bindings@[k].default_column_id->0,
                        self.bindings@[k].project_id,
                    ) by {
                        assert(pre.has_column_in(
                            pre.bindings@[k].default_column_id->0,
                            pre.bindings@[k].project_id,
                        ));
                        Store::lemma_has_column_in_same_ids(
                            pre,
                            *self,
                            pre.bindings@[k].default_column_id->0,
                            pre.bindings@[k].project_id,
                        );
                    }
                    assert forall|k: int| 0 <= k < self.subtasks@.len() implies self.has_task(
                        self.subtasks@[k].task_id,
                    ) by {
                        assert(pre.has_task(pre.subtasks@[k].task_id));
                        Store::lemma_has_task_prefix(pre, *self, pre.subtasks@[k].task_id);
                    }
                }
                Ok(ret)
            },
        }
    }

    /// Deletes a column and cascades: the tasks sitting in it and their
    /// subtasks are removed; a path binding whose default column it was
    /// keeps the binding but loses the default.  An unknown id reports
    /// not-found and changes nothing.
    pub fn delete_column(&mut self, id: i64) -> (r: Result<(), StoreError>)
        requires
            old(self).wf(),
        ensures
            final(self).wf(),
            !old(self).has_column(id) ==> r == Err::<(), StoreError>(StoreError::NotFound)
                && *final(self) == *old(self),
            old(self).has_column(id) ==> r == Ok::<(), StoreError>(()) && {
                &&& exists|i: int|
                    0 <= i < old(self).columns@.len() && (#[trigger] old(self).columns@[i]).id
                        == id && final(self).columns@ == old(self).columns@.remove(i)
                &&& final(self).tasks@ == old(self).tasks@.filter(|t: Task| t.column_id != id)
                &&& final(self).subtasks@ == old(self).subtasks@.filter(
                    |st: Subtask|
                        seq_has_task(
                            old(self).tasks@.filter(|t: Task| t.column_id != id),
                            st.task_id,
                        ),
                )
                &&& final(self).bindings@.len() == old(self).bindings@.len()
                &&& (forall|a: int|
                    0 <= a < old(self).bindings@.len() ==> {
                        let o = old(self).bindings@[a];
                        let n = #[trigger] final(self).bindings@[a];
                        &&& n.id == o.id
                        &&& n.project_id == o.project_id
                        &&& n.path == o.path
                        &&& n.hostname == o.hostname
                        &&& n.created_at == o.created_at
                        &&& n.default_column_id == (if o.default_column_id == Some(id) {
                            None::<i64>
                        } else {
                            o.default_column_id
                        })
                    })
                &&& final(self).same_projects(*old(self))
                &&& final(self).same_tags(*old(self))
                &&& final(self).next_column_id == old(self).next_column_id
                &&& final(self).next_task_id == old(self).next_task_id
                &&& final(self).next_subtask_id == old(self).next_subtask_id
                &&& final(self).next_binding_id == old(self).next_binding_id
            },
    {
        let idx = match self.find_column(id) {
            None => {
                return Err(StoreError::NotFound);
            },
            Some(i) => i,
        };
        self.columns.remove(idx);
        let (new_tasks, tsrc) = tasks_without_column(&self.tasks, id);
        self.tasks = new_tasks;
        let (new_subs, ssrc) = subtasks_with_live_tasks(&self.subtasks, &self.tasks);
        self.subtasks = new_subs;
        let new_binds = crate::cascade::bindings_with_default_cleared(&self.bindings, id);
        self.bindings = new_binds;
        proof {
            let pre = *old(self);
            let ts = tsrc@;
            let ss = ssrc@;
            pre.columns@.remove_ensures(idx as int);
            let taskpred = |t: Task| t.column_id != id;

            // columns: uniqueness and bounds survive the removal
            assert forall|a: int, b: int|
                0 <= a < b < self.columns@.len() implies self.columns@[a].id
                != self.columns@[b].id by {
                assert(self.columns@[a] == if a < idx as int {
                    pre.columns@[a]
                } else {
                    pre.columns@[a + 1]
                });
                assert(self.columns@[b] == if b < idx as int {
                    pre.columns@[b]
                } else {
                    pre.columns@[b + 1]
                });
            }
            assert forall|a: int| 0 <= a < self.columns@.len() implies 1
                <= #[trigger] self.columns@[a].id < self.next_column_id by {
                assert(self.columns@[a] == if a < idx as int {
                    pre.columns@[a]
                } else {
                    pre.columns@[a + 1]
                });
            }
            assert forall|a: int| 0 <= a < self.columns@.len() implies self.has_project(
                self.columns@[a].project_id,
            ) by {
                assert(self.columns@[a] == if a < idx as int {
                    pre.columns@[a]
                } else {
                    pre.columns@[a + 1]
                });
                assert(pre.has_project(self.columns@[a].project_id));
                Store::lemma_has_project_prefix(pre, *self, self.columns@[a].project_id);
            }

            // a column other than the removed one can still be found
            assert forall|cid: i64, pid: i64|
                cid != id && pre.has_column_in(cid, pid) implies self.has_column_in(cid, pid) by {
                let w = choose|w: int|
                    0 <= w < pre.columns@.len() && pre.columns@[w].id == cid
                        && pre.columns@[w].project_id == pid;
                if w < idx as int {
                    assert(self.columns@[w].id == cid && self.columns@[w].project_id == pid);
                } else {
                    assert(self.columns@[w - 1].id == cid && self.columns@[w - 1].project_id
                        == pid);
                }
            }

            // tasks: uniqueness, bounds, and both foreign keys
            assert forall|a: int, b: int|
                0 <= a < b < self.tasks@.len() implies self.tasks@[a].id != self.tasks@[b].id by {
                assert(self.tasks@[a] == pre.tasks@[ts[a]]);
                assert(self.tasks@[b] == pre.tasks@[ts[b]]);
            }
            assert forall|a: int| 0 <= a < self.tasks@.len() implies 1
                <= #[trigger] self.tasks@[a].id < self.next_task_id by {
                assert(self.tasks@[a] == pre.tasks@[ts[a]]);
            }
            assert forall|a: int| 0 <= a < self.tasks@.len() implies self.has_project(
                self.tasks@[a].project_id,
            ) by {
                assert(self.tasks@[a] == pre.tasks@[ts[a]]);
                assert(pre.has_project(pre.tasks@[ts[a]].project_id));
                Store::lemma_has_project_prefix(pre, *self, pre.tasks@[ts[a]].project_id);
            }
            assert forall|a: int| 0 <= a < self.tasks@.len() implies self.has_column_in(
                self.tasks@[a].column_id,
                self.tasks@[a].project_id,
            ) by {
                pre.tasks@.lemma_filter_pred(taskpred, a);
                assert(self.tasks@[a] == pre.tasks@[ts[a]]);
                assert(pre.has_column_in(
                    pre.tasks@[ts[a]].column_id,
                    pre.tasks@[ts[a]].project_id,
                ));
            }

            // subtasks: uniqueness, bounds, and the surviving-task reference
            assert forall|a: int, b: int|
                0 <= a < b < self.subtasks@.len() implies self.subtasks@[a].id
                != self.subtasks@[b].id by {
                assert(self.subtasks@[a] == pre.subtasks@[ss[a]]);
                assert(self.subtasks@[b] == pre.subtasks@[ss[b]]);
            }
            assert forall|a: int| 0 <= a < self.subtasks@.len() implies 1
                <= #[trigger] self.subtasks@[a].id < self.next_subtask_id by {
                assert(self.subtasks@[a] == pre.subtasks@[ss[a]]);
            }
            let livepred = |st: Subtask| seq_has_task(self.tasks@, st.task_id);
            assert forall|a: int| 0 <= a < self.subtasks@.len() implies self.has_task(
                self.subtasks@[a].task_id,
            ) by {
                pre.subtasks@.lemma_filter_pred(livepred, a);
            }

            // bindings: rows keep their identity; a surviving default column
            // is still a column of the binding's project
            assert forall|a: int, b: int|
                0 <= a < b < self.bindings@.len() implies self.bindings@[a].id
                != self.bindings@[b].id by {}
            assert forall|a: int, b: int|
                0 <= a < b < self.bindings@.len() implies self.bindings@[a].path@
                != self.bindings@[b].path@ by {}
            assert forall|a: int| 0 <= a < self.bindings@.len() implies self.has_project(
                self.bindings@[a].project_id,
            ) by {
                assert(pre.has_project(pre.bindings@[a].project_id));
                Store::lemma_has_project_prefix(pre, *self, pre.bindings@[a].project_id);
            }
            assert forall|a: int|
                0 <= a < self.bindings@.len() && (#[trigger] self.bindings@[a].default_column_id)
                    is Some implies self.has_column_in(
                self.bindings@[a].default_column_id->0,
                self.bindings@[a].project_id,
            ) by {
                let d = self.bindings@[a].default_column_id->0;
                assert(pre.bindings@[a].default_column_id == Some(d));
                assert(d != id);
                assert(pre.has_column_in(d, pre.bindings@[a].project_id));
            }

            assert(0 <= idx && (idx as int) < pre.columns@.len() && pre.columns@[idx as int].id
                == id && self.columns@ == pre.columns@.remove(idx as int));
        }
        Ok(())
    }

    /// Applies a caller-supplied total order to the columns of one project,
    /// atomically: either every listed column receives its new key or, when
    /// any listed id is not a column of that project, nothing changes.
    /// Columns not mentioned keep their keys, and a column of another
    /// project is never touched, whatever ids the request holds.  The
    /// supplied keys themselves are not validated.
    pub fn reorder_columns(&mut self, project_id: i64, items: &Vec<ReorderItem>) -> (r: Result<
        (),
        StoreError,
    >)
        requires
            old(self).wf(),
        ensures
            final(self).wf(),
            final(self).columns@.len() == old(self).columns@.len(),
            forall|j: int|
                0 <= j < old(self).columns@.len() && (#[trigger] old(self).columns@[j]).project_id
                    != project_id ==> final(self).columns@[j] == old(self).columns@[j],
            (exists|k: int|
                0 <= k < items@.len() && !old(self).has_column_in(
                    (#[trigger] items@[k]).id,
                    project_id,
                )) ==> r == Err::<(), StoreError>(StoreError::NotFound) && *final(self) == *old(
                self,
            ),
            (forall|k: int|
                0 <= k < items@.len() ==> old(self).has_column_in(
                    (#[trigger] items@[k]).id,
                    project_id,
                )) ==> r == Ok::<(), StoreError>(()) && {
                &&& (forall|j: int|
                    0 <= j < old(self).columns@.len() ==> {
                        let o = old(self).columns@[j];
                        let n = #[trigger] final(self).columns@[j];
                        &&& n.id == o.id
                        &&& n.project_id == o.project_id
                        &&& n.name == o.name
                        &&& n.created_at == o.created_at
                        &&& n.sort_order == (if o.project_id == project_id && mentions(
                            items@,
                            o.id,
                        ) {
                            last_key_for(items@, o.id)
                        } else {
                            o.sort_order
                        })
                    })
                &&& final(self).next_column_id == old(self).next_column_id
                &&& final(self).same_projects(*old(self))
                &&& final(self).same_tasks(*old(self))
                &&& final(self).same_subtasks(*old(self))
                &&& final(self).same_tags(*old(self))
                &&& final(self).same_bindings(*old(self))
            },
    {
        // first pass: the whole batch must lie inside the project's scope
        let mut k: usize = 0;
        while k < items.len()
            invariant
                k <= items@.len(),
                *self == *old(self),
                self.wf(),
                forall|j: int|
                    0 <= j < k ==> self.has_column_in((#[trigger] items@[j]).id, project_id),
            decreases items@.len() - k,
        {
            if self.find_column_of(items[k].id, project_id).is_none() {
                return Err(StoreError::NotFound);
            }
            k = k + 1;
        }
        // second pass: apply every key; order matters only among duplicates
        let ghost pre = *old(self);
        let mut k: usize = 0;
        while k < items.len()
            invariant
                k <= items@.len(),
                pre == *old(self),
                pre.wf(),
                forall|j: int|
                    0 <= j < items@.len() ==> pre.has_column_in(
                        (#[trigger] items@[j]).id,
                        project_id,
                    ),
                self.columns@.len() == pre.columns@.len(),
                forall|j: int|
                    0 <= j < pre.columns@.len() ==> {
                        let o = pre.columns@[j];
                        let n = #[trigger] self.columns@[j];
                        &&& n.id == o.id
                        &&& n.project_id == o.project_id
                        &&& n.name == o.name
                        &&& n.created_at == o.created_at
                        &&& n.sort_order == (if o.project_id == project_id && mentions(
                            items@.take(k as int),
                            o.id,
                        ) {
                            last_key_for(items@.take(k as int), o.id)
                        } else {
                            o.sort_order
                        })
                    },
                self.next_column_id == pre.next_column_id,
                self.same_projects(pre),
                self.same_tasks(pre),
                self.same_subtasks(pre),
                self.same_tags(pre),
                self.same_bindings(pre),
            decreases items@.len() - k,
        {
            proof {
                assert(pre.has_column_in(items@[k as int].id, project_id));
                Store::lemma_has_column_in_same_ids(pre, *self, items@[k as int].id, project_id);
            }
            let j = match self.find_column_of(items[k].id, project_id) {
                Some(j) => j,
                None => {
                    proof {
                        assert(false);
                    }
                    return Err(StoreError::NotFound);
                },
            };
            let ghost mid = self.columns@;
            let mut c = self.columns.remove(j);
            c.sort_order = items[k].sort_order;
            self.columns.insert(j, c);
            proof {
                assert(self.columns@ =~= mid.update(j as int, self.columns@[j as int]));
                assert(items@.take(k as int + 1).drop_last() =~= items@.take(k as int));
                assert(items@.take(k as int + 1).last() == items@[k as int]);
                assert forall|j2: int| 0 <= j2 < pre.columns@.len() implies {
                    let o = pre.columns@[j2];
                    let n = #[trigger] self.columns@[j2];
                    &&& n.id == o.id
                    &&& n.project_id == o.project_id
                    &&& n.name == o.name
                    &&& n.created_at == o.created_at
                    &&& n.sort_order == (if o.project_id == project_id && mentions(
                        items@.take(k as int + 1),
                        o.id,
                    ) {
                        last_key_for(items@.take(k as int + 1), o.id)
                    } else {
                        o.sort_order
                    })
                } by {
                    let o = pre.columns@[j2];
                    if j2 == j as int {
                        assert(o.id == items@[k as int].id);
                        assert(o.project_id == project_id);
                        assert(mentions(items@.take(k as int + 1), o.id));
                        assert(last_key_for(items@.take(k as int + 1), o.id)
                            == items@[k as int].sort_order);
                    } else {
                        assert(self.columns@[j2] == mid[j2]);
                        assert(!(o.id == items@[k as int].id && o.project_id == project_id)) by {
                            assert(mid[j as int].id == items@[k as int].id);
                            assert(mid[j2].id == o.id);
                            if o.id == items@[k as int].id {
                                assert(self.columns@[j2].id == self.columns@[j as int].id);
                            }
                        }
                    }
                }
            }
            k = k + 1;
        }
        proof {
            assert(items@.take(items@.len() as int) =~= items@);
            assert forall|a: int, b: int|
                0 <= a < b < self.columns@.len() implies self.columns@[a].id
                != self.columns@[b].id by {
                assert(self.columns@[a].id == pre.columns@[a].id);
                assert(self.columns@[b].id == pre.columns@[b].id);
            }
            assert forall|a: int| 0 <= a < self.columns@.len() implies 1
                <= #[trigger] self.columns@[a].id < self.next_column_id by {
                assert(self.columns@[a].id == pre.columns@[a].id);
            }
            assert forall|a: int| 0 <= a < self.columns@.len() implies self.has_project(
                self.columns@[a].project_id,
            ) by {
                assert(self.columns@[a].project_id == pre.columns@[a].project_id);
                assert(pre.has_project(pre.columns@[a].project_id));
                Store::lemma_has_project_prefix(pre, *self, pre.columns@[a].project_id);
            }
            assert forall|a: int| 0 <= a < self.tasks@.len() implies self.has_column_in(
                self.tasks@[a].column_id,
                self.tasks@[a].project_id,
            ) by {
                assert(pre.has_column_in(pre.tasks@[a].column_id, pre.tasks@[a].project_id));
                Store::lemma_has_column_in_same_ids(
                    pre,
                    *self,
                    pre.tasks@[a].column_id,
                    pre.tasks@[a].project_id,
                );
            }
            assert forall|a: int|
                0 <= a < self.bindings@.len() && (#[trigger] self.bindings@[a].default_column_id)
                    is Some implies self.has_column_in(
                self.bindings@[a].default_column_id->0,
                self.bindings@[a].project_id,
            ) by {
                assert(pre.has_column_in(
                    pre.bindings@[a].default_column_id->0,
                    pre.bindings@[a].project_id,
                ));
                Store::lemma_has_column_in_same_ids(
                    pre,
                    *self,
                    pre.bindings@[a].default_column_id->0,
                    pre.bindings@[a].project_id,
                );
            }
        }
        Ok(())
    }
}

} // verus!
