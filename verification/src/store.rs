//! The in-memory hierarchy store: one value holding every table of the
//! board, with the well-formedness invariant that all operations preserve.
//!
//! Deletion policy: deleting a project, column or task cascades to its
//! dependents (columns and tasks of a project, tasks of a column, subtasks
//! of a task, and path bindings of a project; a binding whose default column
//! is deleted keeps the binding but loses the default).  The cascade is the
//! store's own, explicit rule, not an artifact of the backing storage.

use vstd::prelude::*;

use crate::model::{Column, LinkedPath, Project, Subtask, Tag, Task};

verus! {

/// The whole board.  Each table is a vector of rows; `next_*` counters
/// assign fresh identifiers, unique within their table.
#[derive(Debug)]
pub struct Store {
    pub projects: Vec<Project>,
    pub columns: Vec<Column>,
    pub tasks: Vec<Task>,
    pub subtasks: Vec<Subtask>,
    pub tags: Vec<Tag>,
    pub bindings: Vec<LinkedPath>,
    pub next_project_id: i64,
    pub next_column_id: i64,
    pub next_task_id: i64,
    pub next_subtask_id: i64,
    pub next_tag_id: i64,
    pub next_binding_id: i64,
}

impl Store {
    /// There is a project with this id.
    pub open spec fn has_project(self, id: i64) -> bool {
        exists|i: int| 0 <= i < self.projects@.len() && self.projects@[i].id == id
    }

    /// There is a column with this id.
    pub open spec fn has_column(self, id: i64) -> bool {
        exists|i: int| 0 <= i < self.columns@.len() && self.columns@[i].id == id
    }

    /// There is a column with this id belonging to project `pid`.
    pub open spec fn has_column_in(self, id: i64, pid: i64) -> bool {
        exists|i: int|
            0 <= i < self.columns@.len() && self.columns@[i].id == id && self.columns@[i].project_id
                == pid
    }

    /// There is a task with this id.
    pub open spec fn has_task(self, id: i64) -> bool {
        exists|i: int| 0 <= i < self.tasks@.len() && self.tasks@[i].id == id
    }

    /// There is a subtask with this id.
    pub open spec fn has_subtask(self, id: i64) -> bool {
        exists|i: int| 0 <= i < self.subtasks@.len() && self.subtasks@[i].id == id
    }

    /// There is a tag with this id.
    pub open spec fn has_tag(self, id: i64) -> bool {
        exists|i: int| 0 <= i < self.tags@.len() && self.tags@[i].id == id
    }

    /// There is a tag with this name.
    pub open spec fn has_tag_named(self, name: Seq<char>) -> bool {
        exists|i: int| 0 <= i < self.tags@.len() && self.tags@[i].name@ == name
    }

    /// There is a binding with this id.
    pub open spec fn has_binding(self, id: i64) -> bool {
        exists|i: int| 0 <= i < self.bindings@.len() && self.bindings@[i].id == id
    }

    /// There is a binding for this literal path.
    pub open spec fn has_binding_path(self, path: Seq<char>) -> bool {
        exists|i: int| 0 <= i < self.bindings@.len() && self.bindings@[i].path@ == path
    }

    pub open spec fn projects_wf(self) -> bool {
        &&& self.next_project_id >= 1
        &&& forall|i: int, j: int|
            0 <= i < j < self.projects@.len() ==> self.projects@[i].id != self.projects@[j].id
        &&& forall|i: int|
            0 <= i < self.projects@.len() ==> 1 <= #[trigger] self.projects@[i].id
                < self.next_project_id
    }

    pub open spec fn columns_wf(self) -> bool {
        &&& self.next_column_id >= 1
        &&& forall|i: int, j: int|
            0 <= i < j < self.columns@.len() ==> self.columns@[i].id != self.columns@[j].id
        &&& forall|i: int|
            0 <= i < self.columns@.len() ==> 1 <= #[trigger] self.columns@[i].id
                < self.next_column_id
        &&& forall|i: int|
            0 <= i < self.columns@.len() ==> self.has_project(
                #[trigger] self.columns@[i].project_id,
            )
    }

    /// Every task's column exists and belongs to the task's own project.
    pub open spec fn tasks_wf(self) -> bool {
        &&& self.next_task_id >= 1
        &&& forall|i: int, j: int|
            0 <= i < j < self.tasks@.len() ==> self.tasks@[i].id != self.tasks@[j].id
        &&& forall|i: int|
            0 <= i < self.tasks@.len() ==> 1 <= #[trigger] self.tasks@[i].id < self.next_task_id
        &&& forall|i: int|
            0 <= i < self.tasks@.len() ==> self.has_project(#[trigger] self.tasks@[i].project_id)
        &&& forall|i: int|
            0 <= i < self.tasks@.len() ==> self.has_column_in(
                #[trigger] self.tasks@[i].column_id,
                self.tasks@[i].project_id,
            )
    }

    pub open spec fn subtasks_wf(self) -> bool {
        &&& self.next_subtask_id >= 1
        &&& forall|i: int, j: int|
            0 <= i < j < self.subtasks@.len() ==> self.subtasks@[i].id != self.subtasks@[j].id
        &&& forall|i: int|
            0 <= i < self.subtasks@.len() ==> 1 <= #[trigger] self.subtasks@[i].id
                < self.next_subtask_id
        &&& forall|i: int|
            0 <= i < self.subtasks@.len() ==> self.has_task(#[trigger] self.subtasks@[i].task_id)
    }

    /// Tag names are globally unique.
    pub open spec fn tags_wf(self) -> bool {
        &&& self.next_tag_id >= 1
        &&& forall|i: int, j: int|
            0 <= i < j < self.tags@.len() ==> self.tags@[i].id != self.tags@[j].id
        &&& forall|i: int|
            0 <= i < self.tags@.len() ==> 1 <= #[trigger] self.tags@[i].id < self.next_tag_id
        &&& forall|i: int, j: int|
            0 <= i < j < self.tags@.len() ==> self.tags@[i].name@ != self.tags@[j].name@
    }

    /// Binding paths are unique; every binding points at a live project, and
    /// its default column (if any) belongs to that project.
    pub open spec fn bindings_wf(self) -> bool {
        &&& self.next_binding_id >= 1
        &&& forall|i: int, j: int|
            0 <= i < j < self.bindings@.len() ==> self.bindings@[i].id != self.bindings@[j].id
        &&& forall|i: int|
            0 <= i < self.bindings@.len() ==> 1 <= #[trigger] self.bindings@[i].id
                < self.next_binding_id
        &&& forall|i: int, j: int|
            0 <= i < j < self.bindings@.len() ==> self.bindings@[i].path@
                != self.bindings@[j].path@
        &&& forall|i: int|
            0 <= i < self.bindings@.len() ==> self.has_project(
                #[trigger] self.bindings@[i].project_id,
            )
        &&& forall|i: int|
            0 <= i < self.bindings@.len() ==> (#[trigger] self.bindings@[i].default_column_id)
                is Some ==> self.has_column_in(
                self.bindings@[i].default_column_id->0,
                self.bindings@[i].project_id,
            )
    }

    /// Well-formedness of the whole store: unique identifiers below their
    /// counter, referential integrity across the hierarchy, unique tag
    /// names, unique binding paths.
    pub open spec fn wf(self) -> bool {
        &&& self.projects_wf()
        &&& self.columns_wf()
        &&& self.tasks_wf()
        &&& self.subtasks_wf()
        &&& self.tags_wf()
        &&& self.bindings_wf()
    }

    /// Frame predicates: the named table and its id counter are unchanged.
    pub open spec fn same_projects(self, o: Store) -> bool {
        self.projects@ == o.projects@ && self.next_project_id == o.next_project_id
    }

    pub open spec fn same_columns(self, o: Store) -> bool {
        self.columns@ == o.columns@ && self.next_column_id == o.next_column_id
    }

    pub open spec fn same_tasks(self, o: Store) -> bool {
        self.tasks@ == o.tasks@ && self.next_task_id == o.next_task_id
    }

    pub open spec fn same_subtasks(self, o: Store) -> bool {
        self.subtasks@ == o.subtasks@ && self.next_subtask_id == o.next_subtask_id
    }

    pub open spec fn same_tags(self, o: Store) -> bool {
        self.tags@ == o.tags@ && self.next_tag_id == o.next_tag_id
    }

    pub open spec fn same_bindings(self, o: Store) -> bool {
        self.bindings@ == o.bindings@ && self.next_binding_id == o.next_binding_id
    }

    /// A project lookup survives when the table only grew at the end.
    pub proof fn lemma_has_project_prefix(pre: Store, post: Store, id: i64)
        requires
            pre.projects@.len() <= post.projects@.len(),
            forall|k: int| 0 <= k < pre.projects@.len() ==> post.projects@[k] == pre.projects@[k],
            pre.has_project(id),
        ensures
            post.has_project(id),
    {
        let w = choose|w: int| 0 <= w < pre.projects@.len() && pre.projects@[w].id == id;
        assert(post.projects@[w].id == id);
    }

    /// A scoped column lookup survives when the table only grew at the end.
    pub proof fn lemma_has_column_in_prefix(pre: Store, post: Store, id: i64, pid: i64)
        requires
            pre.columns@.len() <= post.columns@.len(),
            forall|k: int| 0 <= k < pre.columns@.len() ==> post.columns@[k] == pre.columns@[k],
            pre.has_column_in(id, pid),
        ensures
            post.has_column_in(id, pid),
    {
        let w = choose|w: int|
            0 <= w < pre.columns@.len() && pre.columns@[w].id == id && pre.columns@[w].project_id
                == pid;
        assert(post.columns@[w].id == id && post.columns@[w].project_id == pid);
    }

    /// A scoped column lookup survives when every row keeps its id and its
    /// project.
    pub proof fn lemma_has_column_in_same_ids(pre: Store, post: Store, id: i64, pid: i64)
        requires
            post.columns@.len() == pre.columns@.len(),
            forall|k: int|
                0 <= k < pre.columns@.len() ==> (#[trigger] post.columns@[k]).id
                    == pre.columns@[k].id && post.columns@[k].project_id
                    == pre.columns@[k].project_id,
            pre.has_column_in(id, pid),
        ensures
            post.has_column_in(id, pid),
    {
        let w = choose|w: int|
            0 <= w < pre.columns@.len() && pre.columns@[w].id == id && pre.columns@[w].project_id
                == pid;
        assert(post.columns@[w].id == id && post.columns@[w].project_id == pid);
    }

    /// A task lookup survives when the table only grew at the end.
    pub proof fn lemma_has_task_prefix(pre: Store, post: Store, id: i64)
        requires
            pre.tasks@.len() <= post.tasks@.len(),
            forall|k: int| 0 <= k < pre.tasks@.len() ==> post.tasks@[k] == pre.tasks@[k],
            pre.has_task(id),
        ensures
            post.has_task(id),
    {
        let w = choose|w: int| 0 <= w < pre.tasks@.len() && pre.tasks@[w].id == id;
        assert(post.tasks@[w].id == id);
    }

    /// A task lookup survives when every row keeps its id.
    pub proof fn lemma_has_task_same_ids(pre: Store, post: Store, id: i64)
        requires
            post.tasks@.len() == pre.tasks@.len(),
            forall|k: int|
                0 <= k < pre.tasks@.len() ==> (#[trigger] post.tasks@[k]).id == pre.tasks@[k].id,
            pre.has_task(id),
        ensures
            post.has_task(id),
    {
        let w = choose|w: int| 0 <= w < pre.tasks@.len() && pre.tasks@[w].id == id;
        assert(post.tasks@[w].id == id);
    }

    /// The parts of the invariant that do not speak of the bindings table
    /// survive any change of the bindings alone.
    pub proof fn lemma_wf_core_untouched(pre: Store, post: Store)
        requires
            pre.wf(),
            post.projects@ == pre.projects@,
            post.columns@ == pre.columns@,
            post.tasks@ == pre.tasks@,
            post.subtasks@ == pre.subtasks@,
            post.tags@ == pre.tags@,
            post.next_project_id == pre.next_project_id,
            post.next_column_id == pre.next_column_id,
            post.next_task_id == pre.next_task_id,
            post.next_subtask_id == pre.next_subtask_id,
            post.next_tag_id == pre.next_tag_id,
        ensures
            post.projects_wf(),
            post.columns_wf(),
            post.tasks_wf(),
            post.subtasks_wf(),
            post.tags_wf(),
    {
        assert forall|k: int| 0 <= k < post.columns@.len() implies post.has_project(
            post.columns@[k].project_id,
        ) by {
            assert(pre.has_project(pre.columns@[k].project_id));
            Store::lemma_has_project_prefix(pre, post, pre.columns@[k].project_id);
        }
        assert forall|k: int| 0 <= k < post.tasks@.len() implies post.has_project(
            post.tasks@[k].project_id,
        ) by {
            assert(pre.has_project(pre.tasks@[k].project_id));
            Store::lemma_has_project_prefix(pre, post, pre.tasks@[k].project_id);
        }
        assert forall|k: int| 0 <= k < post.tasks@.len() implies post.has_column_in(
            post.tasks@[k].column_id,
            post.tasks@[k].project_id,
        ) by {
            assert(pre.has_column_in(pre.tasks@[k].column_id, pre.tasks@[k].project_id));
            Store::lemma_has_column_in_prefix(
                pre,
                post,
                pre.tasks@[k].column_id,
                pre.tasks@[k].project_id,
            );
        }
        assert forall|k: int| 0 <= k < post.subtasks@.len() implies post.has_task(
            post.subtasks@[k].task_id,
        ) by {
            assert(pre.has_task(pre.subtasks@[k].task_id));
            Store::lemma_has_task_prefix(pre, post, pre.subtasks@[k].task_id);
        }
    }

    /// An empty board.
    pub fn new() -> (s: Store)
        ensures
            s.wf(),
            s.projects@.len() == 0,
            s.columns@.len() == 0,
            s.tasks@.len() == 0,
            s.subtasks@.len() == 0,
            s.tags@.len() == 0,
            s.bindings@.len() == 0,
            s.next_project_id == 1,
            s.next_column_id == 1,
            s.next_task_id == 1,
            s.next_subtask_id == 1,
            s.next_tag_id == 1,
            s.next_binding_id == 1,
    {
        Store {
            projects: Vec::new(),
            columns: Vec::new(),
            tasks: Vec::new(),
            subtasks: Vec::new(),
            tags: Vec::new(),
            bindings: Vec::new(),
            next_project_id: 1,
            next_column_id: 1,
            next_task_id: 1,
            next_subtask_id: 1,
            next_tag_id: 1,
            next_binding_id: 1,
        }
    }

    /// Index of the project with this id, if any.
    pub fn find_project(&self, id: i64) -> (r: Option<usize>)
        ensures
            match r {
                Some(i) => i < self.projects@.len() && self.projects@[i as int].id == id,
                None => !self.has_project(id),
            },
    {
        let mut i: usize = 0;
        while i < self.projects.len()
            invariant
                i <= self.projects@.len(),
                forall|j: int| 0 <= j < i ==> self.projects@[j].id != id,
            decreases self.projects@.len() - i,
        {
            if self.projects[i].id == id {
                return Some(i);
            }
            i = i + 1;
        }
        None
    }

    /// Index of the column with this id, if any.
    pub fn find_column(&self, id: i64) -> (r: Option<usize>)
        ensures
            match r {
                Some(i) => i < self.columns@.len() && self.columns@[i as int].id == id,
                None => !self.has_column(id),
            },
    {
        let mut i: usize = 0;
        while i < self.columns.len()
            invariant
                i <= self.columns@.len(),
                forall|j: int| 0 <= j < i ==> self.columns@[j].id != id,
            decreases self.columns@.len() - i,
        {
            if self.columns[i].id == id {
                return Some(i);
            }
            i = i + 1;
        }
        None
    }

    /// Index of the task with this id, if any.
    pub fn find_task(&self, id: i64) -> (r: Option<usize>)
        ensures
            match r {
                Some(i) => i < self.tasks@.len() && self.tasks@[i as int].id == id,
                None => !self.has_task(id),
            },
    {
        let mut i: usize = 0;
        while i < self.tasks.len()
            invariant
                i <= self.tasks@.len(),
                forall|j: int| 0 <= j < i ==> self.tasks@[j].id != id,
            decreases self.tasks@.len() - i,
        {
            if self.tasks[i].id == id {
                return Some(i);
            }
            i = i + 1;
        }
        None
    }

    /// Index of the subtask with this id, if any.
    pub fn find_subtask(&self, id: i64) -> (r: Option<usize>)
        ensures
            match r {
                Some(i) => i < self.subtasks@.len() && self.subtasks@[i as int].id == id,
                None => !self.has_subtask(id),
            },
    {
        let mut i: usize = 0;
        while i < self.subtasks.len()
            invariant
                i <= self.subtasks@.len(),
                forall|j: int| 0 <= j < i ==> self.subtasks@[j].id != id,
            decreases self.subtasks@.len() - i,
        {
            if self.subtasks[i].id == id {
                return Some(i);
            }
            i = i + 1;
        }
        None
    }

    /// Index of the tag with this id, if any.
    pub fn find_tag(&self, id: i64) -> (r: Option<usize>)
        ensures
            match r {
                Some(i) => i < self.tags@.len() && self.tags@[i as int].id == id,
                None => !self.has_tag(id),
            },
    {
        let mut i: usize = 0;
        while i < self.tags.len()
            invariant
                i <= self.tags@.len(),
                forall|j: int| 0 <= j < i ==> self.tags@[j].id != id,
            decreases self.tags@.len() - i,
        {
            if self.tags[i].id == id {
                return Some(i);
            }
            i = i + 1;
        }
        None
    }

    /// Index of the binding with this id, if any.
    pub fn find_binding(&self, id: i64) -> (r: Option<usize>)
        ensures
            match r {
                Some(i) => i < self.bindings@.len() && self.bindings@[i as int].id == id,
                None => !self.has_binding(id),
            },
    {
        let mut i: usize = 0;
        while i < self.bindings.len()
            invariant
                i <= self.bindings@.len(),
                forall|j: int| 0 <= j < i ==> self.bindings@[j].id != id,
            decreases self.bindings@.len() - i,
        {
            if self.bindings[i].id == id {
                return Some(i);
            }
            i = i + 1;
        }
        None
    }
}

} // verus!
