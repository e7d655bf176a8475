//! Project lifecycle: creation with the five default columns, renaming,
//! cascading deletion, and transactional bulk reorder.

use vstd::prelude::*;

use crate::cascade::{
    bindings_without_project, columns_without_project, seq_has_task, subtasks_with_live_tasks,
    tasks_without_project,
};
use crate::model::{
    dup_project, Column, CreateProjectRequest, LinkedPath, Project, StoreError, Subtask, Task,
    UpdateProjectRequest,
};
use crate::ordering::{
    append_key, compute_append_key, last_key_for_project, mentions_project, ReorderProjectItem,
};
use crate::store::Store;

verus! {

/// Sort keys of the project rows, in table order.
pub open spec fn project_keys(s: Seq<Project>) -> Seq<i64> {
    s.map_values(|p: Project| p.sort_order)
}

/// Names of the five columns every new project starts with.
pub open spec fn default_column_name(k: int) -> Seq<char> {
    if k == 0 {
        "Backlog"@
    } else if k == 1 {
        "To Do"@
    } else if k == 2 {
        "In Progress"@
    } else if k == 3 {
        "Testing"@
    } else {
        "Done"@
    }
}

impl Store {
    /// Creates a project with an appended sort key and, in the same atomic
    /// unit, its five default columns "Backlog", "To Do", "In Progress",
    /// "Testing", "Done" with sort keys 1000..5000.  An empty name is
    /// refused, and then nothing is created: a project with zero columns is
    /// never observable.
    pub fn create_project(&mut self, req: CreateProjectRequest, created_at: &str) -> (r: Result<
        Project,
        StoreError,
    >)
        requires
            old(self).wf(),
            old(self).next_project_id < i64::MAX,
            old(self).next_column_id <= i64::MAX - 5,
            forall|i: int|
                0 <= i < old(self).projects@.len() ==> old(self).projects@[i].sort_order
                    <= i64::MAX - 1000,
        ensures
            final(self).wf(),
            req.name@.len() == 0 ==> r == Err::<Project, StoreError>(StoreError::Validation)
                && *final(self) == *old(self),
            req.name@.len() > 0 ==> (r matches Ok(p) && {
                &&& p.id == old(self).next_project_id
                &&& p.name == req.name
                &&& p.sort_order as int == append_key(project_keys(old(self).projects@))
                &&& p.created_at@ == created_at@
                &&& final(self).projects@ == old(self).projects@.push(p)
                &&& final(self).next_project_id == old(self).next_project_id + 1
                &&& final(self).columns@.len() == old(self).columns@.len() + 5
                &&& (forall|k: int|
                    0 <= k < old(self).columns@.len() ==> final(self).columns@[k] == old(
                        self,
                    ).columns@[k])
                &&& (forall|k: int|
                    old(self).columns@.len() <= k < old(self).columns@.len() + 5 ==> {
                        let n = k - old(self).columns@.len();
                        let c = #[trigger] final(self).columns@[k];
                        &&& c.id == old(self).next_column_id + n
                        &&& c.project_id == p.id
                        &&& c.name@ == default_column_name(n)
                        &&& c.sort_order == 1000 * (n + 1)
                        &&& c.created_at@ == created_at@
                    })
                &&& final(self).next_column_id == old(self).next_column_id + 5
                &&& final(self).same_tasks(*old(self))
                &&& final(self).same_subtasks(*old(self))
                &&& final(self).same_tags(*old(self))
                &&& final(self).same_bindings(*old(self))
            }),
    {
        if req.name.as_str().is_empty() {
            return Err(StoreError::Validation);
        }
        let mut keys: Vec<i64> = Vec::new();
        let mut i: usize = 0;
        while i < self.projects.len()
            invariant
                i <= self.projects@.len(),
                keys@.len() == i,
                forall|j: int| 0 <= j < i ==> keys@[j] == self.projects@[j].sort_order,
            decreases self.projects@.len() - i,
        {
            keys.push(self.projects[i].sort_order);
            i = i + 1;
        }
        proof {
            assert(keys@ =~= project_keys(self.projects@));
        }
        let sort_order = compute_append_key(&keys);
        let id = self.next_project_id;
        let cid0 = self.next_column_id;
        let p = Project { id, name: req.name, sort_order, created_at: created_at.to_owned() };
        self.projects.push(dup_project(&p));
        self.next_project_id = id + 1;
        self.columns.push(
            Column {
                id: cid0,
                project_id: id,
                name: "Backlog".to_owned(),
                sort_order: 1000,
                created_at: created_at.to_owned(),
            },
        );
        self.columns.push(
            Column {
                id: cid0 + 1,
                project_id: id,
                name: "To Do".to_owned(),
                sort_order: 2000,
                created_at: created_at.to_owned(),
            },
        );
        self.columns.push(
            Column {
                id: cid0 + 2,
                project_id: id,
                name: "In Progress".to_owned(),
                sort_order: 3000,
                created_at: created_at.to_owned(),
            },
        );
        self.columns.push(
            Column {
                id: cid0 + 3,
                project_id: id,
                name: "Testing".to_owned(),
                sort_order: 4000,
                created_at: created_at.to_owned(),
            },
        );
        self.columns.push(
            Column {
                id: cid0 + 4,
                project_id: id,
                name: "Done".to_owned(),
                sort_order: 5000,
                created_at: created_at.to_owned(),
            },
        );
        self.next_column_id = cid0 + 5;
        proof {
            let pre = *old(self);
            assert forall|k: int| 0 <= k < self.columns@.len() implies self.has_project(
                self.columns@[k].project_id,
            ) by {
                if k < pre.columns@.len() {
                    assert(pre.has_project(pre.columns@[k].project_id));
                    let w = choose|w: int|
                        0 <= w < pre.projects@.len() && pre.projects@[w].id
                            == pre.columns@[k].project_id;
                    assert(self.projects@[w].id == self.columns@[k].project_id);
                } else {
                    assert(self.projects@[pre.projects@.len() as int].id == id);
                }
            }
            assert forall|k: int| 0 <= k < self.tasks@.len() implies self.has_project(
                self.tasks@[k].project_id,
            ) by {
                assert(pre.has_project(pre.tasks@[k].project_id));
                let w = choose|w: int|
                    0 <= w < pre.projects@.len() && pre.projects@[w].id
                        == pre.tasks@[k].project_id;
                assert(self.projects@[w].id == self.tasks@[k].project_id);
            }
            assert forall|k: int| 0 <= k < self.tasks@.len() implies self.has_column_in(
                self.tasks@[k].column_id,
                self.tasks@[k].project_id,
            ) by {
                assert(pre.has_column_in(pre.tasks@[k].column_id, pre.tasks@[k].project_id));
                let w = choose|w: int|
                    0 <= w < pre.columns@.len() && pre.columns@[w].id == pre.tasks@[k].column_id
                        && pre.columns@[w].project_id == pre.tasks@[k].project_id;
                assert(self.columns@[w] == pre.columns@[w]);
            }
            assert forall|k: int|
                0 <= k < self.bindings@.len() implies self.has_project(
                self.bindings@[k].project_id,
            ) by {
                assert(pre.has_project(pre.bindings@[k].project_id));
                let w = choose|w: int|
                    0 <= w < pre.projects@.len() && pre.projects@[w].id
                        == pre.bindings@[k].project_id;
                assert(self.projects@[w].id == self.bindings@[k].project_id);
            }
            assert forall|k: int|
                0 <= k < self.bindings@.len()
                    && (#[trigger] self.bindings@[k].default_column_id) is Some implies self.has_column_in(
                self.bindings@[k].default_column_id->0,
                self.bindings@[k].project_id,
            ) by {
                assert(pre.has_column_in(
                    pre.bindings@[k].default_column_id->0,
                    pre.bindings@[k].project_id,
                ));
                let w = choose|w: int|
                    0 <= w < pre.columns@.len() && pre.columns@[w].id
                        == pre.bindings@[k].default_column_id->0 && pre.columns@[w].project_id
                        == pre.bindings@[k].project_id;
                assert(self.columns@[w] == pre.columns@[w]);
            }
        }
        Ok(p)
    }

    /// Renames a project.  An empty name is refused; an unknown id reports
    /// not-found.  Nothing else about the board changes.
    pub fn update_project(&mut self, id: i64, req: UpdateProjectRequest) -> (r: Result<
        Project,
        StoreError,
    >)
        requires
            old(self).wf(),
        ensures
            final(self).wf(),
            req.name@.len() == 0 ==> r == Err::<Project, StoreError>(StoreError::Validation)
                && *final(self) == *old(self),
            req.name@.len() > 0 && !old(self).has_project(id) ==> r == Err::<Project, StoreError>(
                StoreError::NotFound,
            ) && *final(self) == *old(self),
            req.name@.len() > 0 && old(self).has_project(id) ==> (r matches Ok(p) && {
                &&& p.id == id
                &&& p.name == req.name
                &&& exists|i: int|
                    {
                        &&& 0 <= i < old(self).projects@.len()
                        &&& (#[trigger] old(self).projects@[i]).id == id
                        &&& p.sort_order == old(self).projects@[i].sort_order
                        &&& p.created_at == old(self).projects@[i].created_at
                        &&& final(self).projects@ == old(self).projects@.update(i, p)
                    }
                &&& final(self).next_project_id == old(self).next_project_id
                &&& final(self).same_columns(*old(self))
                &&& final(self).same_tasks(*old(self))
                &&& final(self).same_subtasks(*old(self))
                &&& final(self).same_tags(*old(self))
                &&& final(self).same_bindings(*old(self))
            }),
    {
        if req.name.as_str().is_empty() {
            return Err(StoreError::Validation);
        }
        match self.find_project(id) {
            None => Err(StoreError::NotFound),
            Some(i) => {
                let mut p = self.projects.remove(i);
                p.name = req.name;
                let ret = dup_project(&p);
                self.projects.insert(i, p);
                proof {
                    let pre = *old(self);
                    assert(self.projects@ =~= pre.projects@.update(
                        i as int,
                        self.projects@[i as int],
                    ));
                    assert(ret == self.projects@[i as int]);
                    assert forall|k: int|
                        0 <= k < self.projects@.len() implies #[trigger] self.projects@[k].id
                        == pre.projects@[k].id by {}
                    assert forall|k: int| 0 <= k < self.columns@.len() implies self.has_project(
                        self.columns@[k].project_id,
                    ) by {
                        assert(pre.has_project(pre.columns@[k].project_id));
                        let w = choose|w: int|
                            0 <= w < pre.projects@.len() && pre.projects@[w].id
                                == pre.columns@[k].project_id;
                        assert(self.projects@[w].id == self.columns@[k].project_id);
                    }
                    assert forall|k: int| 0 <= k < self.tasks@.len() implies self.has_project(
                        self.tasks@[k].project_id,
                    ) by {
                        assert(pre.has_project(pre.tasks@[k].project_id));
                        let w = choose|w: int|
                            0 <= w < pre.projects@.len() && pre.projects@[w].id
                                == pre.tasks@[k].project_id;
                        assert(self.projects@[w].id == self.tasks@[k].project_id);
                    }
                    assert forall|k: int|
                        0 <= k < self.bindings@.len() implies self.has_project(
                        self.bindings@[k].project_id,
                    ) by {
                        assert(pre.has_project(pre.bindings@[k].project_id));
                        let w = choose|w: int|
                            0 <= w < pre.projects@.len() && pre.projects@[w].id
                                == pre.bindings@[k].project_id;
                        assert(self.projects@[w].id == self.bindings@[k].project_id);
                    }
                }
                Ok(ret)
            },
        }
    }

    /// Deletes a project and cascades: its columns, its tasks, the subtasks
    /// of those tasks and its path bindings are removed with it.  An unknown
    /// id reports not-found and changes nothing.
    pub fn delete_project(&mut self, id: i64) -> (r: Result<(), StoreError>)
        requires
            old(self).wf(),
        ensures
            final(self).wf(),
            !old(self).has_project(id) ==> r == Err::<(), StoreError>(StoreError::NotFound)
                && *final(self) == *old(self),
            old(self).has_project(id) ==> r == Ok::<(), StoreError>(()) && {
                &&& exists|i: int|
                    0 <= i < old(self).projects@.len() && (#[trigger] old(self).projects@[i]).id
                        == id && final(self).projects@ == old(self).projects@.remove(i)
                &&& final(self).columns@ == old(self).columns@.filter(
                    |c: Column| c.project_id != id,
                )
                &&& final(self).tasks@ == old(self).tasks@.filter(|t: Task| t.project_id != id)
                &&& final(self).subtasks@ == old(self).subtasks@.filter(
                    |st: Subtask|
                        seq_has_task(
                            old(self).tasks@.filter(|t: Task| t.project_id != id),
                            st.task_id,
                        ),
                )
                &&& final(self).bindings@ == old(self).bindings@.filter(
                    |b: LinkedPath| b.project_id != id,
                )
                &&& final(self).same_tags(*old(self))
                &&& final(self).next_project_id == old(self).next_project_id
                &&& final(self).next_column_id == old(self).next_column_id
                &&& final(self).next_task_id == old(self).next_task_id
                &&& final(self).next_subtask_id == old(self).next_subtask_id
                &&& final(self).next_binding_id == old(self).next_binding_id
            },
    {
        let idx = match self.find_project(id) {
            None => {
                return Err(StoreError::NotFound);
            },
            Some(i) => i,
        };
        self.projects.remove(idx);
        let (new_cols, csrc) = columns_without_project(&self.columns, id);
        self.columns = new_cols;
        let (new_tasks, tsrc) = tasks_without_project(&self.tasks, id);
        self.tasks = new_tasks;
        let (new_subs, ssrc) = subtasks_with_live_tasks(&self.subtasks, &self.tasks);
        self.subtasks = new_subs;
        let (new_binds, bsrc) = bindings_without_project(&self.bindings, id);
        self.bindings = new_binds;
        proof {
            let pre = *old(self);
            let cs = csrc@;
            let ts = tsrc@;
            let ss = ssrc@;
            let bs = bsrc@;
            pre.projects@.remove_ensures(idx as int);
            let colpred = |c: Column| c.project_id != id;
            let taskpred = |t: Task| t.project_id != id;
            let bindpred = |b: LinkedPath| b.project_id != id;

            // projects: uniqueness and bounds survive the removal
            assert forall|a: int, b: int|
                0 <= a < b < self.projects@.len() implies self.projects@[a].id
                != self.projects@[b].id by {
                assert(self.projects@[b] == if b < idx as int {
                    pre.projects@[b]
                } else {
                    pre.projects@[b + 1]
                });
                assert(self.projects@[a] == if a < idx as int {
                    pre.projects@[a]
                } else {
                    pre.projects@[a + 1]
                });
            }
            assert forall|a: int| 0 <= a < self.projects@.len() implies 1
                <= #[trigger] self.projects@[a].id < self.next_project_id by {
                assert(self.projects@[a] == if a < idx as int {
                    pre.projects@[a]
                } else {
                    pre.projects@[a + 1]
                });
            }

            // a surviving project keeps its position up to the removal shift
            assert forall|pid: i64|
                pid != id && pre.has_project(pid) implies self.has_project(pid) by {
                let w = choose|w: int|
                    0 <= w < pre.projects@.len() && pre.projects@[w].id == pid;
                if w < idx as int {
                    assert(self.projects@[w].id == pid);
                } else {
                    assert(self.projects@[w - 1].id == pid);
                }
            }

            // columns: uniqueness, bounds, and surviving-project references
            assert forall|a: int, b: int|
                0 <= a < b < self.columns@.len() implies self.columns@[a].id
                != self.columns@[b].id by {
                assert(self.columns@[a] == pre.columns@[cs[a]]);
                assert(self.columns@[b] == pre.columns@[cs[b]]);
            }
            assert forall|a: int| 0 <= a < self.columns@.len() implies 1
                <= #[trigger] self.columns@[a].id < self.next_column_id by {
                assert(self.columns@[a] == pre.columns@[cs[a]]);
            }
            assert forall|a: int| 0 <= a < self.columns@.len() implies self.has_project(
                self.columns@[a].project_id,
            ) by {
                pre.columns@.lemma_filter_pred(colpred, a);
                assert(self.columns@[a] == pre.columns@[cs[a]]);
                assert(pre.has_project(pre.columns@[cs[a]].project_id));
            }

            // a surviving column can still be found by (id, project)
            assert forall|cid: i64, pid: i64|
                pid != id && pre.has_column_in(cid, pid) implies self.has_column_in(cid, pid) by {
                let w = choose|w: int|
                    0 <= w < pre.columns@.len() && pre.columns@[w].id == cid
                        && pre.columns@[w].project_id == pid;
                pre.columns@.lemma_filter_contains(colpred, w);
                let w2 = choose|w2: int|
                    0 <= w2 < self.columns@.len() && self.columns@[w2] == pre.columns@[w];
                assert(self.columns@[w2].id == cid && self.columns@[w2].project_id == pid);
            }

            // tasks: uniqueness, bounds, and both foreign keys
            assert forall|a: int, b: int|
                0 <= a < b < self.tasks@.len() implies self.tasks@[a].id != self.tasks@[b].id by {
                assert(self.tasks@[a] == pre.tasks@[ts[a]]);
                assert(self.tasks@[b] == pre.tasks@[ts[b]]);
            }
            assert forall|a: int| 0 <= a < self.tasks@.len() implies 1
                <= #[trigger] self.tasks@[a].id < self.next_task_id by {
                assert(self.tasks@[a] == pre.tasks@[ts[a]]);
            }
            assert forall|a: int| 0 <= a < self.tasks@.len() implies self.has_project(
                self.tasks@[a].project_id,
            ) by {
                pre.tasks@.lemma_filter_pred(taskpred, a);
                assert(self.tasks@[a] == pre.tasks@[ts[a]]);
                assert(pre.has_project(pre.tasks@[ts[a]].project_id));
            }
            assert forall|a: int| 0 <= a < self.tasks@.len() implies self.has_column_in(
                self.tasks@[a].column_id,
                self.tasks@[a].project_id,
            ) by {
                pre.tasks@.lemma_filter_pred(taskpred, a);
                assert(self.tasks@[a] == pre.tasks@[ts[a]]);
                assert(pre.has_column_in(
                    pre.tasks@[ts[a]].column_id,
                    pre.tasks@[ts[a]].project_id,
                ));
            }

            // subtasks: uniqueness, bounds, and the surviving-task reference
            assert forall|a: int, b: int|
                0 <= a < b < self.subtasks@.len() implies self.subtasks@[a].id
                != self.subtasks@[b].id by {
                assert(self.subtasks@[a] == pre.subtasks@[ss[a]]);
                assert(self.subtasks@[b] == pre.subtasks@[ss[b]]);
            }
            assert forall|a: int| 0 <= a < self.subtasks@.len() implies 1
                <= #[trigger] self.subtasks@[a].id < self.next_subtask_id by {
                assert(self.subtasks@[a] == pre.subtasks@[ss[a]]);
            }
            let livepred = |st: Subtask| seq_has_task(self.tasks@, st.task_id);
            assert forall|a: int| 0 <= a < self.subtasks@.len() implies self.has_task(
                self.subtasks@[a].task_id,
            ) by {
                pre.subtasks@.lemma_filter_pred(livepred, a);
            }

            // bindings: uniqueness of ids and paths, bounds, both references
            assert forall|a: int, b: int|
                0 <= a < b < self.bindings@.len() implies self.bindings@[a].id
                != self.bindings@[b].id by {
                assert(self.bindings@[a] == pre.bindings@[bs[a]]);
                assert(self.bindings@[b] == pre.bindings@[bs[b]]);
            }
            assert forall|a: int, b: int|
                0 <= a < b < self.bindings@.len() implies self.bindings@[a].path@
                != self.bindings@[b].path@ by {
                assert(self.bindings@[a] == pre.bindings@[bs[a]]);
                assert(self.bindings@[b] == pre.bindings@[bs[b]]);
            }
            assert forall|a: int| 0 <= a < self.bindings@.len() implies 1
                <= #[trigger] self.bindings@[a].id < self.next_binding_id by {
                assert(self.bindings@[a] == pre.bindings@[bs[a]]);
            }
            assert forall|a: int| 0 <= a < self.bindings@.len() implies self.has_project(
                self.bindings@[a].project_id,
            ) by {
                pre.bindings@.lemma_filter_pred(bindpred, a);
                assert(self.bindings@[a] == pre.bindings@[bs[a]]);
                assert(pre.has_project(pre.bindings@[bs[a]].project_id));
            }
            assert forall|a: int|
                0 <= a < self.bindings@.len() && (#[trigger] self.bindings@[a].default_column_id)
                    is Some implies self.has_column_in(
                self.bindings@[a].default_column_id->0,
                self.bindings@[a].project_id,
            ) by {
                pre.bindings@.lemma_filter_pred(bindpred, a);
                assert(self.bindings@[a] == pre.bindings@[bs[a]]);
                assert(pre.has_column_in(
                    pre.bindings@[bs[a]].default_column_id->0,
                    pre.bindings@[bs[a]].project_id,
                ));
            }

            assert(0 <= idx && (idx as int) < pre.projects@.len() && pre.projects@[idx as int].id
                == id && self.projects@ == pre.projects@.remove(idx as int));
        }
        Ok(())
    }

    /// Applies a caller-supplied total order to the projects, atomically:
    /// either every listed project receives its new key or, when any listed
    /// id is unknown, nothing changes.  Projects not mentioned keep their
    /// keys.  The supplied keys themselves are not validated.
    pub fn reorder_projects(&mut self, items: &Vec<ReorderProjectItem>) -> (r: Result<
        (),
        StoreError,
    >)
        requires
            old(self).wf(),
        ensures
            final(self).wf(),
            (exists|k: int|
                0 <= k < items@.len() && !old(self).has_project(#[trigger] items@[k].id)) ==> r
                == Err::<(), StoreError>(StoreError::NotFound) && *final(self) == *old(self),
            (forall|k: int| 0 <= k < items@.len() ==> old(self).has_project(#[trigger] items@[k].id))
                ==> r == Ok::<(), StoreError>(()) && {
                &&& final(self).projects@.len() == old(self).projects@.len()
                &&& (forall|j: int|
                    0 <= j < old(self).projects@.len() ==> {
                        let o = old(self).projects@[j];
                        let n = #[trigger] final(self).projects@[j];
                        &&& n.id == o.id
                        &&& n.name == o.name
                        &&& n.created_at == o.created_at
                        &&& n.sort_order == (if mentions_project(items@, o.id) {
                            last_key_for_project(items@, o.id)
                        } else {
                            o.sort_order
                        })
                    })
                &&& final(self).next_project_id == old(self).next_project_id
                &&& final(self).same_columns(*old(self))
                &&& final(self).same_tasks(*old(self))
                &&& final(self).same_subtasks(*old(self))
                &&& final(self).same_tags(*old(self))
                &&& final(self).same_bindings(*old(self))
            },
    {
        // first pass: the whole batch must refer to known projects
        let mut k: usize = 0;
        while k < items.len()
            invariant
                k <= items@.len(),
                *self == *old(self),
                self.wf(),
                forall|j: int| 0 <= j < k ==> self.has_project(#[trigger] items@[j].id),
            decreases items@.len() - k,
        {
            if self.find_project(items[k].id).is_none() {
                return Err(StoreError::NotFound);
            }
            k = k + 1;
        }
        // second pass: apply every key; order matters only among duplicates
        let ghost pre = *old(self);
        let mut k: usize = 0;
        while k < items.len()
            invariant
                k <= items@.len(),
                pre == *old(self),
                pre.wf(),
                forall|j: int| 0 <= j < items@.len() ==> pre.has_project(#[trigger] items@[j].id),
                self.projects@.len() == pre.projects@.len(),
                forall|j: int|
                    0 <= j < pre.projects@.len() ==> {
                        let o = pre.projects@[j];
                        let n = #[trigger] self.projects@[j];
                        &&& n.id == o.id
                        &&& n.name == o.name
                        &&& n.created_at == o.created_at
                        &&& n.sort_order == (if mentions_project(items@.take(k as int), o.id) {
                            last_key_for_project(items@.take(k as int), o.id)
                        } else {
                            o.sort_order
                        })
                    },
                self.next_project_id == pre.next_project_id,
                self.same_columns(pre),
                self.same_tasks(pre),
                self.same_subtasks(pre),
                self.same_tags(pre),
                self.same_bindings(pre),
            decreases items@.len() - k,
        {
            proof {
                assert(pre.has_project(items@[k as int].id));
                let w = choose|w: int|
                    0 <= w < pre.projects@.len() && pre.projects@[w].id == items@[k as int].id;
                assert(self.projects@[w].id == items@[k as int].id);
            }
            let j = match self.find_project(items[k].id) {
                Some(j) => j,
                None => {
                    proof {
                        assert(false);
                    }
                    return Err(StoreError::NotFound);
                },
            };
            let ghost mid = self.projects@;
            let mut p = self.projects.remove(j);
            p.sort_order = items[k].sort_order;
            self.projects.insert(j, p);
            proof {
                assert(self.projects@ =~= mid.update(j as int, self.projects@[j as int]));
                assert(items@.take(k as int + 1).drop_last() =~= items@.take(k as int));
                assert(items@.take(k as int + 1).last() == items@[k as int]);
                assert forall|j2: int| 0 <= j2 < pre.projects@.len() implies {
                    let o = pre.projects@[j2];
                    let n = #[trigger] self.projects@[j2];
                    &&& n.id == o.id
                    &&& n.name == o.name
                    &&& n.created_at == o.created_at
                    &&& n.sort_order == (if mentions_project(items@.take(k as int + 1), o.id) {
                        last_key_for_project(items@.take(k as int + 1), o.id)
                    } else {
                        o.sort_order
                    })
                } by {
                    let o = pre.projects@[j2];
                    if j2 == j as int {
                        assert(o.id == items@[k as int].id);
                        assert(mentions_project(items@.take(k as int + 1), o.id));
                        assert(last_key_for_project(items@.take(k as int + 1), o.id)
                            == items@[k as int].sort_order);
                    } else {
                        assert(self.projects@[j2] == mid[j2]);
                        assert(o.id != items@[k as int].id) by {
                            assert(mid[j as int].id == items@[k as int].id);
                            assert(mid[j2].id == o.id);
                            if o.id == items@[k as int].id {
                                assert(self.projects@[j2].id == self.projects@[j as int].id);
                            }
                        }
                    }
                }
            }
            k = k + 1;
        }
        proof {
            assert(items@.take(items@.len() as int) =~= items@);
            assert forall|a: int, b: int|
                0 <= a < b < self.projects@.len() implies self.projects@[a].id
                != self.projects@[b].id by {
                assert(self.projects@[a].id == pre.projects@[a].id);
                assert(self.projects@[b].id == pre.projects@[b].id);
            }
            assert forall|a: int| 0 <= a < self.projects@.len() implies 1
                <= #[trigger] self.projects@[a].id < self.next_project_id by {
                assert(self.projects@[a].id == pre.projects@[a].id);
            }
            assert forall|a: int| 0 <= a < self.columns@.len() implies self.has_project(
                self.columns@[a].project_id,
            ) by {
                assert(pre.has_project(pre.columns@[a].project_id));
                let w = choose|w: int|
                    0 <= w < pre.projects@.len() && pre.projects@[w].id
                        == pre.columns@[a].project_id;
                assert(self.projects@[w].id == pre.projects@[w].id);
            }
            assert forall|a: int| 0 <= a < self.tasks@.len() implies self.has_project(
                self.tasks@[a].project_id,
            ) by {
                assert(pre.has_project(pre.tasks@[a].project_id));
                let w = choose|w: int|
                    0 <= w < pre.projects@.len() && pre.projects@[w].id
                        == pre.tasks@[a].project_id;
                assert(self.projects@[w].id == pre.projects@[w].id);
            }
            assert forall|a: int| 0 <= a < self.bindings@.len() implies self.has_project(
                self.bindings@[a].project_id,
            ) by {
                assert(pre.has_project(pre.bindings@[a].project_id));
                let w = choose|w: int|
                    0 <= w < pre.projects@.len() && pre.projects@[w].id
                        == pre.bindings@[a].project_id;
                assert(self.projects@[w].id == pre.projects@[w].id);
            }
        }
        Ok(())
    }
}

} // verus!
