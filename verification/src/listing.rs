//! Read-side composition: rows handed back in display order, and the
//! expanded project view (columns ordered by sort key, each with the
//! project's tasks of that column).
//!
//! The task lists are filtered by project id directly, never inferred from
//! the column alone: every task in an expanded project belongs to that
//! project.

use vstd::prelude::*;

use crate::model::{
    dup_binding, dup_column, dup_project, dup_tag, dup_task, Column, ColumnWithTasks, LinkedPath,
    Project, ProjectWithDetails, StoreError, Tag, Task,
};
use crate::sorting::sort_by_key;
use crate::store::Store;

verus! {

/// The column part of one entry of an expanded project.
pub open spec fn column_of_cwt(cw: ColumnWithTasks) -> Column {
    Column {
        id: cw.id,
        project_id: cw.project_id,
        name: cw.name,
        sort_order: cw.sort_order,
        created_at: cw.created_at,
    }
}

impl Store {
    /// All projects, ordered by sort key.
    pub fn list_projects(&self) -> (r: Vec<Project>)
        ensures
            r@.to_multiset() == self.projects@.to_multiset(),
            forall|i: int, j: int|
                0 <= i < j < r@.len() ==> (#[trigger] r@[i]).sort_order
                    <= (#[trigger] r@[j]).sort_order,
    {
        let mut out: Vec<Project> = Vec::new();
        let mut i: usize = 0;
        while i < self.projects.len()
            invariant
                i <= self.projects@.len(),
                out@ == self.projects@.take(i as int),
            decreases self.projects@.len() - i,
        {
            out.push(dup_project(&self.projects[i]));
            proof {
                assert(out@ =~= self.projects@.take(i as int + 1));
            }
            i = i + 1;
        }
        proof {
            assert(self.projects@.take(self.projects@.len() as int) =~= self.projects@);
        }
        sort_by_key(&mut out);
        out
    }

    /// The columns of one project, ordered by sort key.
    pub fn list_columns(&self, project_id: i64) -> (r: Vec<Column>)
        ensures
            r@.to_multiset() == self.columns@.filter(
                |c: Column| c.project_id == project_id,
            ).to_multiset(),
            forall|i: int, j: int|
                0 <= i < j < r@.len() ==> (#[trigger] r@[i]).sort_order
                    <= (#[trigger] r@[j]).sort_order,
            forall|i: int| 0 <= i < r@.len() ==> (#[trigger] r@[i]).project_id == project_id,
    {
        let mut out: Vec<Column> = Vec::new();
        let mut i: usize = 0;
        while i < self.columns.len()
            invariant
                i <= self.columns@.len(),
                out@ == self.columns@.take(i as int).filter(
                    |c: Column| c.project_id == project_id,
                ),
            decreases self.columns@.len() - i,
        {
            proof {
                reveal_with_fuel(Seq::filter, 2);
                assert(self.columns@.take(i + 1).drop_last() =~= self.columns@.take(i as int));
                assert(self.columns@.take(i + 1).last() == self.columns@[i as int]);
            }
            if self.columns[i].project_id == project_id {
                out.push(dup_column(&self.columns[i]));
            }
            i = i + 1;
        }
        proof {
            assert(self.columns@.take(self.columns@.len() as int) =~= self.columns@);
        }
        let ghost collected = out@;
        sort_by_key(&mut out);
        proof {
            broadcast use vstd::seq_lib::group_to_multiset_ensures;

            assert forall|i: int| 0 <= i < out@.len() implies (#[trigger] out@[i]).project_id
                == project_id by {
                assert(out@.to_multiset().contains(out@[i]));
                assert(collected.contains(out@[i]));
                let w = choose|w: int| 0 <= w < collected.len() && collected[w] == out@[i];
                assert(collected == self.columns@.filter(|c: Column| c.project_id == project_id));
                self.columns@.lemma_filter_pred(|c: Column| c.project_id == project_id, w);
            }
        }
        out
    }

    /// The tasks of one project, ordered by sort key.
    pub fn list_tasks(&self, project_id: i64) -> (r: Vec<Task>)
        ensures
            r@.to_multiset() == self.tasks@.filter(
                |t: Task| t.project_id == project_id,
            ).to_multiset(),
            forall|i: int, j: int|
                0 <= i < j < r@.len() ==> (#[trigger] r@[i]).sort_order
                    <= (#[trigger] r@[j]).sort_order,
    {
        let mut out: Vec<Task> = Vec::new();
        let mut i: usize = 0;
        while i < self.tasks.len()
            invariant
                i <= self.tasks@.len(),
                out@ == self.tasks@.take(i as int).filter(|t: Task| t.project_id == project_id),
            decreases self.tasks@.len() - i,
        {
            proof {
                reveal_with_fuel(Seq::filter, 2);
                assert(self.tasks@.take(i + 1).drop_last() =~= self.tasks@.take(i as int));
                assert(self.tasks@.take(i + 1).last() == self.tasks@[i as int]);
            }
            if self.tasks[i].project_id == project_id {
                out.push(dup_task(&self.tasks[i]));
            }
            i = i + 1;
        }
        proof {
            assert(self.tasks@.take(self.tasks@.len() as int) =~= self.tasks@);
        }
        sort_by_key(&mut out);
        out
    }

    /// The tasks of one project sitting in one column, ordered by sort key.
    pub fn tasks_of_column(&self, project_id: i64, column_id: i64) -> (r: Vec<Task>)
        ensures
            r@.to_multiset() == self.tasks@.filter(
                |t: Task| t.project_id == project_id && t.column_id == column_id,
            ).to_multiset(),
            forall|i: int, j: int|
                0 <= i < j < r@.len() ==> (#[trigger] r@[i]).sort_order
                    <= (#[trigger] r@[j]).sort_order,
    {
        let mut out: Vec<Task> = Vec::new();
        let mut i: usize = 0;
        while i < self.tasks.len()
            invariant
                i <= self.tasks@.len(),
                out@ == self.tasks@.take(i as int).filter(
                    |t: Task| t.project_id == project_id && t.column_id == column_id,
                ),
            decreases self.tasks@.len() - i,
        {
            proof {
                reveal_with_fuel(Seq::filter, 2);
                assert(self.tasks@.take(i + 1).drop_last() =~= self.tasks@.take(i as int));
                assert(self.tasks@.take(i + 1).last() == self.tasks@[i as int]);
            }
            if self.tasks[i].project_id == project_id && self.tasks[i].column_id == column_id {
                out.push(dup_task(&self.tasks[i]));
            }
            i = i + 1;
        }
        proof {
            assert(self.tasks@.take(self.tasks@.len() as int) =~= self.tasks@);
        }
        sort_by_key(&mut out);
        out
    }

    /// All tags, ordered by name.
    pub fn list_tags(&self) -> (r: Vec<Tag>)
        ensures
            r@.to_multiset() == self.tags@.to_multiset(),
            forall|i: int, j: int|
                0 <= i < j < r@.len() ==> crate::strutil::lex_le(
                    (#[trigger] r@[i]).name@,
                    (#[trigger] r@[j]).name@,
                ),
    {
        let mut out: Vec<Tag> = Vec::new();
        let mut i: usize = 0;
        while i < self.tags.len()
            invariant
                i <= self.tags@.len(),
                out@ == self.tags@.take(i as int),
            decreases self.tags@.len() - i,
        {
            out.push(dup_tag(&self.tags[i]));
            proof {
                assert(out@ =~= self.tags@.take(i as int + 1));
            }
            i = i + 1;
        }
        proof {
            assert(self.tags@.take(self.tags@.len() as int) =~= self.tags@);
        }
        sort_by_key(&mut out);
        out
    }

    /// The path bindings of one project, ordered by path.
    pub fn list_linked_paths(&self, project_id: i64) -> (r: Vec<LinkedPath>)
        ensures
            r@.to_multiset() == self.bindings@.filter(
                |b: LinkedPath| b.project_id == project_id,
            ).to_multiset(),
            forall|i: int, j: int|
                0 <= i < j < r@.len() ==> crate::strutil::lex_le(
                    (#[trigger] r@[i]).path@,
                    (#[trigger] r@[j]).path@,
                ),
    {
        let mut out: Vec<LinkedPath> = Vec::new();
        let mut i: usize = 0;
        while i < self.bindings.len()
            invariant
                i <= self.bindings@.len(),
                out@ == self.bindings@.take(i as int).filter(
                    |b: LinkedPath| b.project_id == project_id,
                ),
            decreases self.bindings@.len() - i,
        {
            proof {
                reveal_with_fuel(Seq::filter, 2);
                assert(self.bindings@.take(i + 1).drop_last() =~= self.bindings@.take(i as int));
                assert(self.bindings@.take(i + 1).last() == self.bindings@[i as int]);
            }
            if self.bindings[i].project_id == project_id {
                out.push(dup_binding(&self.bindings[i]));
            }
            i = i + 1;
        }
        proof {
            assert(self.bindings@.take(self.bindings@.len() as int) =~= self.bindings@);
        }
        sort_by_key(&mut out);
        out
    }

    /// One project expanded: its columns ordered by sort key and, under
    /// each, the project's tasks of that column ordered by sort key.  An
    /// unknown id reports not-found.
    pub fn get_project(&self, id: i64) -> (r: Result<ProjectWithDetails, StoreError>)
        ensures
            !self.has_project(id) ==> r == Err::<ProjectWithDetails, StoreError>(
                StoreError::NotFound,
            ),
            self.has_project(id) ==> (r matches Ok(d) && {
                &&& d.id == id
                &&& exists|w: int|
                    0 <= w < self.projects@.len() && (#[trigger] self.projects@[w]).id == id
                        && d.name == self.projects@[w].name && d.created_at
                        == self.projects@[w].created_at
                &&& d.columns@.map_values(|cw: ColumnWithTasks| column_of_cwt(cw)).to_multiset()
                    == self.columns@.filter(|c: Column| c.project_id == id).to_multiset()
                &&& (forall|i: int, j: int|
                    0 <= i < j < d.columns@.len() ==> (#[trigger] d.columns@[i]).sort_order
                        <= (#[trigger] d.columns@[j]).sort_order)
                &&& (forall|k: int|
                    0 <= k < d.columns@.len() ==> {
                        let cw = #[trigger] d.columns@[k];
                        &&& cw.project_id == id
                        &&& cw.tasks@.to_multiset() == self.tasks@.filter(
                            |t: Task| t.project_id == id && t.column_id == cw.id,
                        ).to_multiset()
                        &&& (forall|a: int, b: int|
                            0 <= a < b < cw.tasks@.len() ==> (#[trigger] cw.tasks@[a]).sort_order
                                <= (#[trigger] cw.tasks@[b]).sort_order)
                    })
            }),
    {
        let w = match self.find_project(id) {
            None => {
                return Err(StoreError::NotFound);
            },
            Some(w) => w,
        };
        let cols = self.list_columns(id);
        let mut out: Vec<ColumnWithTasks> = Vec::new();
        let mut k: usize = 0;
        while k < cols.len()
            invariant
                k <= cols@.len(),
                out@.len() == k,
                forall|a: int|
                    0 <= a < k ==> {
                        let cw = #[trigger] out@[a];
                        &&& cw.id == cols@[a].id
                        &&& cw.project_id == cols@[a].project_id
                        &&& cw.name == cols@[a].name
                        &&& cw.sort_order == cols@[a].sort_order
                        &&& cw.created_at == cols@[a].created_at
                        &&& cw.tasks@.to_multiset() == self.tasks@.filter(
                            |t: Task| t.project_id == id && t.column_id == cw.id,
                        ).to_multiset()
                        &&& (forall|x: int, y: int|
                            0 <= x < y < cw.tasks@.len() ==> (#[trigger] cw.tasks@[x]).sort_order
                                <= (#[trigger] cw.tasks@[y]).sort_order)
                    },
            decreases cols@.len() - k,
        {
            let cid = cols[k].id;
            let tasks_k = self.tasks_of_column(id, cid);
            let c = &cols[k];
            out.push(
                ColumnWithTasks {
                    id: c.id,
                    project_id: c.project_id,
                    name: c.name.clone(),
                    sort_order: c.sort_order,
                    created_at: c.created_at.clone(),
                    tasks: tasks_k,
                },
            );
            k = k + 1;
        }
        let name = self.projects[w].name.clone();
        let created_at = self.projects[w].created_at.clone();
        proof {
            assert(out@.map_values(|cw: ColumnWithTasks| column_of_cwt(cw)) =~= cols@);
        }
        Ok(ProjectWithDetails { id, name, created_at, columns: out })
    }
}

} // verus!
