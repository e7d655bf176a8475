//! Task lifecycle: appended creation within a project, partial updates
//! (a column move is an update of `column_id`), cascading deletion, and the
//! project-scoped transactional bulk reorder.

use vstd::prelude::*;

use crate::cascade::subtasks_without_task;
use crate::model::{dup_task, CreateTaskRequest, StoreError, Subtask, Task, UpdateTaskRequest};
use crate::ordering::{append_key, compute_append_key, last_key_for, mentions, ReorderItem};
use crate::store::Store;

verus! {

/// There is a task with this id belonging to project `pid`.
pub open spec fn seq_has_task_of(s: Seq<Task>, id: i64, pid: i64) -> bool {
    exists|i: int| 0 <= i < s.len() && (#[trigger] s[i]).id == id && s[i].project_id == pid
}

/// Sort keys of the tasks of project `pid`, in table order.
pub open spec fn task_keys_in(s: Seq<Task>, pid: i64) -> Seq<i64>
    decreases s.len(),
{
    if s.len() == 0 {
        Seq::empty()
    } else if s.last().project_id == pid {
        task_keys_in(s.drop_last(), pid).push(s.last().sort_order)
    } else {
        task_keys_in(s.drop_last(), pid)
    }
}

impl Store {
    /// Index of the task with this id inside project `pid`, if any.
    pub fn find_task_of(&self, id: i64, pid: i64) -> (r: Option<usize>)
        ensures
            match r {
                Some(i) => i < self.tasks@.len() && self.tasks@[i as int].id == id
                    && self.tasks@[i as int].project_id == pid,
                None => !seq_has_task_of(self.tasks@, id, pid),
            },
    {
        let mut i: usize = 0;
        while i < self.tasks.len()
            invariant
                i <= self.tasks@.len(),
                forall|j: int|
                    0 <= j < i ==> !((#[trigger] self.tasks@[j]).id == id
                        && self.tasks@[j].project_id == pid),
            decreases self.tasks@.len() - i,
        {
            if self.tasks[i].id == id && self.tasks[i].project_id == pid {
                return Some(i);
            }
            i = i + 1;
        }
        None
    }

    /// The task with this id, as an owned copy.
    pub fn get_task(&self, id: i64) -> (r: Result<Task, StoreError>)
        ensures
            !self.has_task(id) ==> r == Err::<Task, StoreError>(StoreError::NotFound),
            self.has_task(id) ==> (r matches Ok(t) && t.id == id && exists|i: int|
                0 <= i < self.tasks@.len() && t == #[trigger] self.tasks@[i]),
    {
        match self.find_task(id) {
            None => Err(StoreError::NotFound),
            Some(i) => {
                let t = dup_task(&self.tasks[i]);
                proof {
                    assert(t == self.tasks@[i as int]);
                }
                Ok(t)
            },
        }
    }

    /// Creates a task at the end of the project's task order, in the given
    /// column.  The column must belong to the same project: a cross-project
    /// column (or an unknown one) reports not-found, as does an unknown
    /// project.  An empty title is refused.
    pub fn create_task(&mut self, project_id: i64, req: CreateTaskRequest, created_at: &str) -> (r:
        Result<Task, StoreError>)
        requires
            old(self).wf(),
            old(self).next_task_id < i64::MAX,
            forall|i: int|
                0 <= i < old(self).tasks@.len() ==> old(self).tasks@[i].sort_order <= i64::MAX
                    - 1000,
        ensures
            final(self).wf(),
            req.title@.len() == 0 ==> r == Err::<Task, StoreError>(StoreError::Validation)
                && *final(self) == *old(self),
            req.title@.len() > 0 && !old(self).has_project(project_id) ==> r == Err::<
                Task,
                StoreError,
            >(StoreError::NotFound) && *final(self) == *old(self),
            req.title@.len() > 0 && old(self).has_project(project_id) && !old(self).has_column_in(
                req.column_id,
                project_id,
            ) ==> r == Err::<Task, StoreError>(StoreError::NotFound) && *final(self) == *old(self),
            req.title@.len() > 0 && old(self).has_project(project_id) && old(self).has_column_in(
                req.column_id,
                project_id,
            ) ==> (r matches Ok(t) && {
                &&& t.id == old(self).next_task_id
                &&& t.project_id == project_id
                &&& t.column_id == req.column_id
                &&& t.title == req.title
                &&& t.description == req.description
                &&& t.priority is None
                &&& t.source_tag == req.source_tag
                &&& t.sort_order as int == append_key(task_keys_in(old(self).tasks@, project_id))
                &&& t.created_at matches Some(ca) && ca@ == created_at@
                &&& final(self).tasks@ == old(self).tasks@.push(t)
                &&& final(self).next_task_id == old(self).next_task_id + 1
                &&& final(self).same_projects(*old(self))
                &&& final(self).same_columns(*old(self))
                &&& final(self).same_subtasks(*old(self))
                &&& final(self).same_tags(*old(self))
                &&& final(self).same_bindings(*old(self))
            }),
    {
        if req.title.as_str().is_empty() {
            return Err(StoreError::Validation);
        }
        if self.find_project(project_id).is_none() {
            return Err(StoreError::NotFound);
        }
        if self.find_column_of(req.column_id, project_id).is_none() {
            return Err(StoreError::NotFound);
        }
        let mut keys: Vec<i64> = Vec::new();
        let mut i: usize = 0;
        while i < self.tasks.len()
            invariant
                i <= self.tasks@.len(),
                keys@ == task_keys_in(self.tasks@.take(i as int), project_id),
                forall|j: int|
                    0 <= j < self.tasks@.len() ==> self.tasks@[j].sort_order <= i64::MAX - 1000,
                forall|j: int| 0 <= j < keys@.len() ==> #[trigger] keys@[j] <= i64::MAX - 1000,
            decreases self.tasks@.len() - i,
        {
            proof {
                assert(self.tasks@.take(i + 1).drop_last() =~= self.tasks@.take(i as int));
                assert(self.tasks@.take(i + 1).last() == self.tasks@[i as int]);
            }
            if self.tasks[i].project_id == project_id {
                keys.push(self.tasks[i].sort_order);
            }
            i = i + 1;
        }
        proof {
            assert(self.tasks@.take(self.tasks@.len() as int) =~= self.tasks@);
        }
        let sort_order = compute_append_key(&keys);
        let id = self.next_task_id;
        let t = Task {
            id,
            project_id,
            column_id: req.column_id,
            title: req.title,
            description: req.description,
            priority: None,
            sort_order,
            source_tag: req.source_tag,
            created_at: Some(created_at.to_owned()),
        };
        self.tasks.push(dup_task(&t));
        self.next_task_id = id + 1;
        proof {
            let pre = *old(self);
            assert forall|k: int| 0 <= k < self.tasks@.len() implies self.has_project(
                self.tasks@[k].project_id,
            ) by {
                if k < pre.tasks@.len() {
                    assert(pre.has_project(pre.tasks@[k].project_id));
                    Store::lemma_has_project_prefix(pre, *self, pre.tasks@[k].project_id);
                } else {
                    Store::lemma_has_project_prefix(pre, *self, project_id);
                }
            }
            assert forall|k: int| 0 <= k < self.tasks@.len() implies self.has_column_in(
                self.tasks@[k].column_id,
                self.tasks@[k].project_id,
            ) by {
                if k < pre.tasks@.len() {
                    assert(pre.has_column_in(pre.tasks@[k].column_id, pre.tasks@[k].project_id));
                    Store::lemma_has_column_in_prefix(
                        pre,
                        *self,
                        pre.tasks@[k].column_id,
                        pre.tasks@[k].project_id,
                    );
                } else {
                    Store::lemma_has_column_in_prefix(pre, *self, req.column_id, project_id);
                }
            }
            assert forall|k: int| 0 <= k < self.columns@.len() implies self.has_project(
                self.columns@[k].project_id,
            ) by {
                assert(pre.has_project(pre.columns@[k].project_id));
                Store::lemma_has_project_prefix(pre, *self, pre.columns@[k].project_id);
            }
            assert forall|k: int| 0 <= k < self.subtasks@.len() implies self.has_task(
                self.subtasks@[k].task_id,
            ) by {
                assert(pre.has_task(pre.subtasks@[k].task_id));
                Store::lemma_has_task_prefix(pre, *self, pre.subtasks@[k].task_id);
            }
            assert forall|k: int|
                0 <= k < self.bindings@.len() implies self.has_project(
                self.bindings@[k].project_id,
            ) by {
                assert(pre.has_project(pre.bindings@[k].project_id));
                Store::lemma_has_project_prefix(pre, *self, pre.bindings@[k].project_id);
            }
            assert forall|k: int|
                0 <= k < self.bindings@.len()
                    && (#[trigger] self.bindings@[k].default_column_id) is Some implies self.has_column_in(
                self.bindings@[k].default_column_id->0,
                self.bindings@[k].project_id,
            ) by {
                assert(pre.has_column_in(
                    pre.bindings@[k].default_column_id->0,
                    pre.bindings@[k].project_id,
                ));
                Store::lemma_has_column_in_prefix(
                    pre,
                    *self,
                    pre.bindings@[k].default_column_id->0,
                    pre.bindings@[k].project_id,
                );
            }
        }
        Ok(t)
    }

    /// Partially updates a task; a `None` field of the request keeps the
    /// current value.  Setting `column_id` moves the task, and the target
    /// column must belong to the task's own project: a cross-project move is
    /// refused with not-found.  An empty title is refused.
    pub fn update_task(&mut self, id: i64, req: UpdateTaskRequest) -> (r: Result<Task, StoreError>)
        requires
            old(self).wf(),
        ensures
            final(self).wf(),
            (req.title matches Some(t) && t@.len() == 0) ==> r == Err::<Task, StoreError>(
                StoreError::Validation,
            ) && *final(self) == *old(self),
            !(req.title matches Some(t) && t@.len() == 0) && !old(self).has_task(id) ==> r == Err::<
                Task,
                StoreError,
            >(StoreError::NotFound) && *final(self) == *old(self),
            !(req.title matches Some(t) && t@.len() == 0) && old(self).has_task(id) ==> exists|
                i: int,
            |
                {
                    &&& 0 <= i < old(self).tasks@.len()
                    &&& (#[trigger] old(self).tasks@[i]).id == id
                    &&& {
                        let o = old(self).tasks@[i];
                        if req.column_id matches Some(c) && !old(self).has_column_in(
                            c,
                            o.project_id,
                        ) {
                            r == Err::<Task, StoreError>(StoreError::NotFound) && *final(self)
                                == *old(self)
                        } else {
                            r matches Ok(n) && {
                                &&& n.id == id
                                &&& n.project_id == o.project_id
                                &&& n.column_id == (if req.column_id is Some {
                                    req.column_id->0
                                } else {
                                    o.column_id
                                })
                                &&& n.title == (if req.title is Some {
                                    req.title->0
                                } else {
                                    o.title
                                })
                                &&& n.description == (if req.description is Some {
                                    req.description
                                } else {
                                    o.description
                                })
                                &&& n.priority == (if req.priority is Some {
                                    req.priority
                                } else {
                                    o.priority
                                })
                                &&& n.source_tag == (if req.source_tag is Some {
                                    req.source_tag
                                } else {
                                    o.source_tag
                                })
                                &&& n.sort_order == o.sort_order
                                &&& n.created_at == o.created_at
                                &&& final(self).tasks@ == old(self).tasks@.update(i, n)
                                &&& final(self).next_task_id == old(self).next_task_id
                                &&& final(self).same_projects(*old(self))
                                &&& final(self).same_columns(*old(self))
                                &&& final(self).same_subtasks(*old(self))
                                &&& final(self).same_tags(*old(self))
                                &&& final(self).same_bindings(*old(self))
                            }
                        }
                    }
                },
    {
        match &req.title {
            Some(t) => {
                if t.as_str().is_empty() {
                    return Err(StoreError::Validation);
                }
            },
            None => {},
        }
        let i = match self.find_task(id) {
            None => {
                return Err(StoreError::NotFound);
            },
            Some(i) => i,
        };
        let project_id = self.tasks[i].project_id;
        let column_id = match req.column_id {
            Some(c) => {
                if self.find_column_of(c, project_id).is_none() {
                    return Err(StoreError::NotFound);
                }
                c
            },
            None => self.tasks[i].column_id,
        };
        let mut t = self.tasks.remove(i);
        t.column_id = column_id;
        match req.title {
            Some(s) => {
                t.title = s;
            },
            None => {},
        }
        match req.description {
            Some(s) => {
                t.description = Some(s);
            },
            None => {},
        }
        match req.priority {
            Some(s) => {
                t.priority = Some(s);
            },
            None => {},
        }
        match req.source_tag {
            Some(s) => {
                t.source_tag = Some(s);
            },
            None => {},
        }
        let ret = dup_task(&t);
        self.tasks.insert(i, t);
        proof {
            let pre = *old(self);
            assert(self.tasks@ =~= pre.tasks@.update(i as int, self.tasks@[i as int]));
            assert(ret == self.tasks@[i as int]);
            assert forall|k: int|
                0 <= k < self.tasks@.len() implies (#[trigger] self.tasks@[k]).id
                == pre.tasks@[k].id && self.tasks@[k].project_id == pre.tasks@[k].project_id by {}
            assert forall|k: int| 0 <= k < self.tasks@.len() implies self.has_project(
                self.tasks@[k].project_id,
            ) by {
                assert(pre.has_project(pre.tasks@[k].project_id));
                Store::lemma_has_project_prefix(pre, *self, pre.tasks@[k].project_id);
            }
            assert forall|k: int| 0 <= k < self.tasks@.len() implies self.has_column_in(
                self.tasks@[k].column_id,
                self.tasks@[k].project_id,
            ) by {
                if k == i as int {
                    assert(pre.has_column_in(self.tasks@[k].column_id, project_id));
                    Store::lemma_has_column_in_prefix(
                        pre,
                        *self,
                        self.tasks@[k].column_id,
                        project_id,
                    );
                } else {
                    assert(pre.has_column_in(pre.tasks@[k].column_id, pre.tasks@[k].project_id));
                    Store::lemma_has_column_in_prefix(
                        pre,
                        *self,
                        pre.tasks@[k].column_id,
                        pre.tasks@[k].project_id,
                    );
                }
            }
            assert forall|k: int| 0 <= k < self.subtasks@.len() implies self.has_task(
                self.subtasks@[k].task_id,
            ) by {
                assert(pre.has_task(pre.subtasks@[k].task_id));
                Store::lemma_has_task_same_ids(pre, *self, pre.subtasks@[k].task_id);
            }
        }
        Ok(ret)
    }

    /// Deletes a task and cascades to its subtasks.  An unknown id reports
    /// not-found and changes nothing.
    pub fn delete_task(&mut self, id: i64) -> (r: Result<(), StoreError>)
        requires
            old(self).wf(),
        ensures
            final(self).wf(),
            !old(self).has_task(id) ==> r == Err::<(), StoreError>(StoreError::NotFound)
                && *final(self) == *old(self),
            old(self).has_task(id) ==> r == Ok::<(), StoreError>(()) && {
                &&& exists|i: int|
                    0 <= i < old(self).tasks@.len() && (#[trigger] old(self).tasks@[i]).id == id
                        && final(self).tasks@ == old(self).tasks@.remove(i)
                &&& final(self).subtasks@ == old(self).subtasks@.filter(
                    |st: Subtask| st.task_id != id,
                )
                &&& final(self).same_projects(*old(self))
                &&& final(self).same_columns(*old(self))
                &&& final(self).same_tags(*old(self))
                &&& final(self).same_bindings(*old(self))
                &&& final(self).next_task_id == old(self).next_task_id
                &&& final(self).next_subtask_id == old(self).next_subtask_id
            },
    {
        let idx = match self.find_task(id) {
            None => {
                return Err(StoreError::NotFound);
            },
            Some(i) => i,
        };
        self.tasks.remove(idx);
        let (new_subs, ssrc) = subtasks_without_task(&self.subtasks, id);
        self.subtasks = new_subs;
        proof {
            let pre = *old(self);
            let ss = ssrc@;
            pre.tasks@.remove_ensures(idx as int);
            let subpred = |st: Subtask| st.task_id != id;
            assert forall|a: int, b: int|
                0 <= a < b < self.tasks@.len() implies self.tasks@[a].id != self.tasks@[b].id by {
                assert(self.tasks@[a] == if a < idx as int {
                    pre.tasks@[a]
                } else {
                    pre.tasks@[a + 1]
                });
                assert(self.tasks@[b] == if b < idx as int {
                    pre.tasks@[b]
                } else {
                    pre.tasks@[b + 1]
                });
            }
            assert forall|a: int| 0 <= a < self.tasks@.len() implies 1
                <= #[trigger] self.tasks@[a].id < self.next_task_id by {
                assert(self.tasks@[a] == if a < idx as int {
                    pre.tasks@[a]
                } else {
                    pre.tasks@[a + 1]
                });
            }
            assert forall|a: int| 0 <= a < self.tasks@.len() implies self.has_project(
                self.tasks@[a].project_id,
            ) by {
                assert(self.tasks@[a] == if a < idx as int {
                    pre.tasks@[a]
                } else {
                    pre.tasks@[a + 1]
                });
                assert(pre.has_project(self.tasks@[a].project_id));
                Store::lemma_has_project_prefix(pre, *self, self.tasks@[a].project_id);
            }
            assert forall|a: int| 0 <= a < self.tasks@.len() implies self.has_column_in(
                self.tasks@[a].column_id,
                self.tasks@[a].project_id,
            ) by {
                assert(self.tasks@[a] == if a < idx as int {
                    pre.tasks@[a]
                } else {
                    pre.tasks@[a + 1]
                });
                assert(pre.has_column_in(self.tasks@[a].column_id, self.tasks@[a].project_id));
                Store::lemma_has_column_in_prefix(
                    pre,
                    *self,
                    self.tasks@[a].column_id,
                    self.tasks@[a].project_id,
                );
            }
            assert forall|a: int, b: int|
                0 <= a < b < self.subtasks@.len() implies self.subtasks@[a].id
                != self.subtasks@[b].id by {
                assert(self.subtasks@[a] == pre.subtasks@[ss[a]]);
                assert(self.subtasks@[b] == pre.subtasks@[ss[b]]);
            }
            assert forall|a: int| 0 <= a < self.subtasks@.len() implies 1
                <= #[trigger] self.subtasks@[a].id < self.next_subtask_id by {
                assert(self.subtasks@[a] == pre.subtasks@[ss[a]]);
            }
            assert forall|a: int| 0 <= a < self.subtasks@.len() implies self.has_task(
                self.subtasks@[a].task_id,
            ) by {
                pre.subtasks@.lemma_filter_pred(subpred, a);
                assert(self.subtasks@[a] == pre.subtasks@[ss[a]]);
                assert(pre.has_task(pre.subtasks@[ss[a]].task_id));
                let w = choose|w: int|
                    0 <= w < pre.tasks@.len() && pre.tasks@[w].id
                        == pre.subtasks@[ss[a]].task_id;
                if w < idx as int {
                    assert(self.tasks@[w].id == pre.subtasks@[ss[a]].task_id);
                } else {
                    assert(self.tasks@[w - 1].id == pre.subtasks@[ss[a]].task_id);
                }
            }
            assert(0 <= idx && (idx as int) < pre.tasks@.len() && pre.tasks@[idx as int].id == id
                && self.tasks@ == pre.tasks@.remove(idx as int));
        }
        Ok(())
    }

    /// Applies a caller-supplied total order to the tasks of one project,
    /// atomically: either every listed task receives its new key or, when
    /// any listed id is not a task of that project, nothing changes.  Tasks
    /// not mentioned keep their keys, and a task of another project is never
    /// touched, whatever ids the request holds.  The supplied keys
    /// themselves are not validated.
    pub fn reorder_tasks(&mut self, project_id: i64, items: &Vec<ReorderItem>) -> (r: Result<
        (),
        StoreError,
    >)
        requires
            old(self).wf(),
        ensures
            final(self).wf(),
            final(self).tasks@.len() == old(self).tasks@.len(),
            forall|j: int|
                0 <= j < old(self).tasks@.len() && (#[trigger] old(self).tasks@[j]).project_id
                    != project_id ==> final(self).tasks@[j] == old(self).tasks@[j],
            (exists|k: int|
                0 <= k < items@.len() && !seq_has_task_of(
                    old(self).tasks@,
                    (#[trigger] items@[k]).id,
                    project_id,
                )) ==> r == Err::<(), StoreError>(StoreError::NotFound) && *final(self) == *old(
                self,
            ),
            (forall|k: int|
                0 <= k < items@.len() ==> seq_has_task_of(
                    old(self).tasks@,
                    (#[trigger] items@[k]).id,
                    project_id,
                )) ==> r == Ok::<(), StoreError>(()) && {
                &&& (forall|j: int|
                    0 <= j < old(self).tasks@.len() ==> {
                        let o = old(self).tasks@[j];
                        let n = #[trigger] final(self).tasks@[j];
                        &&& n.id == o.id
                        &&& n.project_id == o.project_id
                        &&& n.column_id == o.column_id
                        &&& n.title == o.title
                        &&& n.description == o.description
                        &&& n.priority == o.priority
                        &&& n.source_tag == o.source_tag
                        &&& n.created_at == o.created_at
                        &&& n.sort_order == (if o.project_id == project_id && mentions(
                            items@,
                            o.id,
                        ) {
                            last_key_for(items@, o.id)
                        } else {
                            o.sort_order
                        })
                    })
                &&& final(self).next_task_id == old(self).next_task_id
                &&& final(self).same_projects(*old(self))
                &&& final(self).same_columns(*old(self))
                &&& final(self).same_subtasks(*old(self))
                &&& final(self).same_tags(*old(self))
                &&& final(self).same_bindings(*old(self))
            },
    {
        // first pass: the whole batch must lie inside the project's scope
        let mut k: usize = 0;
        while k < items.len()
            invariant
                k <= items@.len(),
                *self == *old(self),
                self.wf(),
                forall|j: int|
                    0 <= j < k ==> seq_has_task_of(
                        old(self).tasks@,
                        (#[trigger] items@[j]).id,
                        project_id,
                    ),
            decreases items@.len() - k,
        {
            match self.find_task_of(items[k].id, project_id) {
                None => {
                    return Err(StoreError::NotFound);
                },
                Some(i) => {
                    proof {
                        assert(old(self).tasks@[i as int].id == items@[k as int].id
                            && old(self).tasks@[i as int].project_id == project_id);
                        assert(seq_has_task_of(old(self).tasks@, items@[k as int].id, project_id));
                    }
                },
            }
            k = k + 1;
        }
        // second pass: apply every key; order matters only among duplicates
        let ghost pre = *old(self);
        let mut k: usize = 0;
        while k < items.len()
            invariant
                k <= items@.len(),
                pre == *old(self),
                pre.wf(),
                forall|j: int|
                    0 <= j < items@.len() ==> seq_has_task_of(
                        old(self).tasks@,
                        (#[trigger] items@[j]).id,
                        project_id,
                    ),
                self.tasks@.len() == pre.tasks@.len(),
                forall|j: int|
                    0 <= j < pre.tasks@.len() ==> {
                        let o = pre.tasks@[j];
                        let n = #[trigger] self.tasks@[j];
                        &&& n.id == o.id
                        &&& n.project_id == o.project_id
                        &&& n.column_id == o.column_id
                        &&& n.title == o.title
                        &&& n.description == o.description
                        &&& n.priority == o.priority
                        &&& n.source_tag == o.source_tag
                        &&& n.created_at == o.created_at
                        &&& n.sort_order == (if o.project_id == project_id && mentions(
                            items@.take(k as int),
                            o.id,
                        ) {
                            last_key_for(items@.take(k as int), o.id)
                        } else {
                            o.sort_order
                        })
                    },
                self.next_task_id == pre.next_task_id,
                self.same_projects(pre),
                self.same_columns(pre),
                self.same_subtasks(pre),
                self.same_tags(pre),
                self.same_bindings(pre),
            decreases items@.len() - k,
        {
            proof {
                assert(seq_has_task_of(old(self).tasks@, items@[k as int].id, project_id));
                let w = choose|w: int|
                    0 <= w < old(self).tasks@.len() && (#[trigger] old(self).tasks@[w]).id
                        == items@[k as int].id && old(self).tasks@[w].project_id == project_id;
                assert(pre.tasks@[w].id == items@[k as int].id && pre.tasks@[w].project_id
                    == project_id);
                assert(self.tasks@[w].id == items@[k as int].id && self.tasks@[w].project_id
                    == project_id);
                assert(seq_has_task_of(self.tasks@, items@[k as int].id, project_id));
            }
            let j = match self.find_task_of(items[k].id, project_id) {
                Some(j) => j,
                None => {
                    proof {
                        assert(false);
                    }
                    return Err(StoreError::NotFound);
                },
            };
            let ghost mid = self.tasks@;
            let mut t = self.tasks.remove(j);
            t.sort_order = items[k].sort_order;
            self.tasks.insert(j, t);
            proof {
                assert(self.tasks@ =~= mid.update(j as int, self.tasks@[j as int]));
                assert(items@.take(k as int + 1).drop_last() =~= items@.take(k as int));
                assert(items@.take(k as int + 1).last() == items@[k as int]);
                assert forall|j2: int| 0 <= j2 < pre.tasks@.len() implies {
                    let o = pre.tasks@[j2];
                    let n = #[trigger] self.tasks@[j2];
                    &&& n.id == o.id
                    &&& n.project_id == o.project_id
                    &&& n.column_id == o.column_id
                    &&& n.title == o.title
                    &&& n.description == o.description
                    &&& n.priority == o.priority
                    &&& n.source_tag == o.source_tag
                    &&& n.created_at == o.created_at
                    &&& n.sort_order == (if o.project_id == project_id && mentions(
                        items@.take(k as int + 1),
                        o.id,
                    ) {
                        last_key_for(items@.take(k as int + 1), o.id)
                    } else {
                        o.sort_order
                    })
                } by {
                    let o = pre.tasks@[j2];
                    if j2 == j as int {
                        assert(o.id == items@[k as int].id);
                        assert(o.project_id == project_id);
                        assert(mentions(items@.take(k as int + 1), o.id));
                        assert(last_key_for(items@.take(k as int + 1), o.id)
                            == items@[k as int].sort_order);
                    } else {
                        assert(self.tasks@[j2] == mid[j2]);
                        assert(!(o.id == items@[k as int].id && o.project_id == project_id)) by {
                            assert(mid[j as int].id == items@[k as int].id);
                            assert(mid[j2].id == o.id);
                            if o.id == items@[k as int].id {
                                assert(self.tasks@[j2].id == self.tasks@[j as int].id);
                            }
                        }
                    }
                }
            }
            k = k + 1;
        }
        proof {
            assert(items@.take(items@.len() as int) =~= items@);
            assert forall|a: int, b: int|
                0 <= a < b < self.tasks@.len() implies self.tasks@[a].id != self.tasks@[b].id by {
                assert(self.tasks@[a].id == pre.tasks@[a].id);
                assert(self.tasks@[b].id == pre.tasks@[b].id);
            }
            assert forall|a: int| 0 <= a < self.tasks@.len() implies 1
                <= #[trigger] self.tasks@[a].id < self.next_task_id by {
                assert(self.tasks@[a].id == pre.tasks@[a].id);
            }
            assert forall|a: int| 0 <= a < self.tasks@.len() implies self.has_project(
                self.tasks@[a].project_id,
            ) by {
                assert(self.tasks@[a].project_id == pre.tasks@[a].project_id);
                assert(pre.has_project(pre.tasks@[a].project_id));
                Store::lemma_has_project_prefix(pre, *self, pre.tasks@[a].project_id);
            }
            assert forall|a: int| 0 <= a < self.tasks@.len() implies self.has_column_in(
                self.tasks@[a].column_id,
                self.tasks@[a].project_id,
            ) by {
                assert(pre.has_column_in(pre.tasks@[a].column_id, pre.tasks@[a].project_id));
                Store::lemma_has_column_in_prefix(
                    pre,
                    *self,
                    pre.tasks@[a].column_id,
                    pre.tasks@[a].project_id,
                );
            }
            assert forall|a: int| 0 <= a < self.subtasks@.len() implies self.has_task(
                self.subtasks@[a].task_id,
            ) by {
                assert(pre.has_task(pre.subtasks@[a].task_id));
                Store::lemma_has_task_same_ids(pre, *self, pre.subtasks@[a].task_id);
            }
        }
        Ok(())
    }
}

} // verus!
