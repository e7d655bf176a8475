//! The flat tag catalog: creation under a global unique-name constraint,
//! and deletion.

use vstd::prelude::*;

use crate::model::{dup_tag, CreateTagRequest, StoreError, Tag};
use crate::store::Store;

verus! {

impl Store {
    /// Index of the tag with this name, if any.
    pub fn find_tag_by_name(&self, name: &String) -> (r: Option<usize>)
        ensures
            match r {
                Some(i) => i < self.tags@.len() && self.tags@[i as int].name@ == name@,
                None => !self.has_tag_named(name@),
            },
    {
        let mut i: usize = 0;
        while i < self.tags.len()
            invariant
                i <= self.tags@.len(),
                forall|j: int| 0 <= j < i ==> self.tags@[j].name@ != name@,
            decreases self.tags@.len() - i,
        {
            if self.tags[i].name == *name {
                return Some(i);
            }
            i = i + 1;
        }
        None
    }

    /// Creates a tag.  A name that collides with an existing tag's name is
    /// refused with a conflict — distinct from any other failure — and the
    /// existing tag is untouched.  An empty name is refused.
    pub fn create_tag(&mut self, req: CreateTagRequest) -> (r: Result<Tag, StoreError>)
        requires
            old(self).wf(),
            old(self).next_tag_id < i64::MAX,
        ensures
            final(self).wf(),
            req.name@.len() == 0 ==> r == Err::<Tag, StoreError>(StoreError::Validation)
                && *final(self) == *old(self),
            req.name@.len() > 0 && old(self).has_tag_named(req.name@) ==> r == Err::<
                Tag,
                StoreError,
            >(StoreError::Conflict) && *final(self) == *old(self),
            req.name@.len() > 0 && !old(self).has_tag_named(req.name@) ==> (r matches Ok(t) && {
                &&& t.id == old(self).next_tag_id
                &&& t.name == req.name
                &&& t.color == req.color
                &&& final(self).tags@ == old(self).tags@.push(t)
                &&& final(self).next_tag_id == old(self).next_tag_id + 1
                &&& final(self).same_projects(*old(self))
                &&& final(self).same_columns(*old(self))
                &&& final(self).same_tasks(*old(self))
                &&& final(self).same_subtasks(*old(self))
                &&& final(self).same_bindings(*old(self))
            }),
    {
        if req.name.as_str().is_empty() {
            return Err(StoreError::Validation);
        }
        if self.find_tag_by_name(&req.name).is_some() {
            return Err(StoreError::Conflict);
        }
        let id = self.next_tag_id;
        let t = Tag { id, name: req.name, color: req.color };
        self.tags.push(dup_tag(&t));
        self.next_tag_id = id + 1;
        proof {
            let pre = *old(self);
            assert forall|a: int, b: int|
                0 <= a < b < self.tags@.len() implies self.tags@[a].id != self.tags@[b].id
                && self.tags@[a].name@ != self.tags@[b].name@ by {
                if b == pre.tags@.len() as int {
                    assert(self.tags@[a] == pre.tags@[a]);
                    assert(!pre.has_tag_named(t.name@));
                }
            }
            assert forall|k: int| 0 <= k < self.columns@.len() implies self.has_project(
                self.columns@[k].project_id,
            ) by {
                assert(pre.has_project(pre.columns@[k].project_id));
                Store::lemma_has_project_prefix(pre, *self, pre.columns@[k].project_id);
            }
            assert forall|k: int| 0 <= k < self.tasks@.len() implies self.has_project(
                self.tasks@[k].project_id,
            ) by {
                assert(pre.has_project(pre.tasks@[k].project_id));
                Store::lemma_has_project_prefix(pre, *self, pre.tasks@[k].project_id);
            }
            assert forall|k: int| 0 <= k < self.tasks@.len() implies self.has_column_in(
                self.tasks@[k].column_id,
                self.tasks@[k].project_id,
            ) by {
                assert(pre.has_column_in(pre.tasks@[k].column_id, pre.tasks@[k].project_id));
                Store::lemma_has_column_in_prefix(
                    pre,
                    *self,
                    pre.tasks@[k].column_id,
                    pre.tasks@[k].project_id,
                );
            }
            assert forall|k: int| 0 <= k < self.subtasks@.len() implies self.has_task(
                self.subtasks@[k].task_id,
            ) by {
                assert(pre.has_task(pre.subtasks@[k].task_id));
                Store::lemma_has_task_prefix(pre, *self, pre.subtasks@[k].task_id);
            }
            assert forall|k: int|
                0 <= k < self.bindings@.len() implies self.has_project(
                self.bindings@[k].project_id,
            ) by {
                assert(pre.has_project(pre.bindings@[k].project_id));
                Store::lemma_has_project_prefix(pre, *self, pre.bindings@[k].project_id);
            }
            assert forall|k: int|
                0 <= k < self.bindings@.len()
                    && (#[trigger] self.bindings@[k].default_column_id) is Some implies self.has_column_in(
                self.bindings@[k].default_column_id->0,
                self.bindings@[k].project_id,
            ) by {
                assert(pre.has_column_in(
                    pre.bindings@[k].default_column_id->0,
                    pre.bindings@[k].project_id,
                ));
                Store::lemma_has_column_in_prefix(
                    pre,
                    *self,
                    pre.bindings@[k].default_column_id->0,
                    pre.bindings@[k].project_id,
                );
            }
        }
        Ok(t)
    }

    /// Deletes a tag.  An unknown id reports not-found — never a silent
    /// success — and changes nothing.
    pub fn delete_tag(&mut self, id: i64) -> (r: Result<(), StoreError>)
        requires
            old(self).wf(),
        ensures
            final(self).wf(),
            !old(self).has_tag(id) ==> r == Err::<(), StoreError>(StoreError::NotFound)
                && *final(self) == *old(self),
            old(self).has_tag(id) ==> r == Ok::<(), StoreError>(()) && {
                &&& exists|i: int|
                    0 <= i < old(self).tags@.len() && (#[trigger] old(self).tags@[i]).id == id
                        && final(self).tags@ == old(self).tags@.remove(i)
                &&& final(self).next_tag_id == old(self).next_tag_id
                &&& final(self).same_projects(*old(self))
                &&& final(self).same_columns(*old(self))
                &&& final(self).same_tasks(*old(self))
                &&& final(self).same_subtasks(*old(self))
                &&& final(self).same_bindings(*old(self))
            },
    {
        let idx = match self.find_tag(id) {
            None => {
                return Err(StoreError::NotFound);
            },
            Some(i) => i,
        };
        self.tags.remove(idx);
        proof {
            let pre = *old(self);
            pre.tags@.remove_ensures(idx as int);
            assert forall|a: int, b: int|
                0 <= a < b < self.tags@.len() implies self.tags@[a].id != self.tags@[b].id
                && self.tags@[a].name@ != self.tags@[b].name@ by {
                assert(self.tags@[a] == if a < idx as int {
                    pre.tags@[a]
                } else {
                    pre.tags@[a + 1]
                });
                assert(self.tags@[b] == if b < idx as int {
                    pre.tags@[b]
                } else {
                    pre.tags@[b + 1]
                });
            }
            assert forall|a: int| 0 <= a < self.tags@.len() implies 1
                <= #[trigger] self.tags@[a].id < self.next_tag_id by {
                assert(self.tags@[a] == if a < idx as int {
                    pre.tags@[a]
                } else {
                    pre.tags@[a + 1]
                });
            }
            assert(0 <= idx && (idx as int) < pre.tags@.len() && pre.tags@[idx as int].id == id
                && self.tags@ == pre.tags@.remove(idx as int));
            assert forall|k: int| 0 <= k < self.columns@.len() implies self.has_project(
                self.columns@[k].project_id,
            ) by {
                assert(pre.has_project(pre.columns@[k].project_id));
                Store::lemma_has_project_prefix(pre, *self, pre.columns@[k].project_id);
            }
            assert forall|k: int| 0 <= k < self.tasks@.len() implies self.has_project(
                self.tasks@[k].project_id,
            ) by {
                assert(pre.has_project(pre.tasks@[k].project_id));
                Store::lemma_has_project_prefix(pre, *self, pre.tasks@[k].project_id);
            }
            assert forall|k: int| 0 <= k < self.tasks@.len() implies self.has_column_in(
                self.tasks@[k].column_id,
                self.tasks@[k].project_id,
            ) by {
                assert(pre.has_column_in(pre.tasks@[k].column_id, pre.tasks@[k].project_id));
                Store::lemma_has_column_in_prefix(
                    pre,
                    *self,
                    pre.tasks@[k].column_id,
                    pre.tasks@[k].project_id,
                );
            }
            assert forall|k: int| 0 <= k < self.subtasks@.len() implies self.has_task(
                self.subtasks@[k].task_id,
            ) by {
                assert(pre.has_task(pre.subtasks@[k].task_id));
                Store::lemma_has_task_prefix(pre, *self, pre.subtasks@[k].task_id);
            }
            assert forall|k: int|
                0 <= k < self.bindings@.len() implies self.has_project(
                self.bindings@[k].project_id,
            ) by {
                assert(pre.has_project(pre.bindings@[k].project_id));
                Store::lemma_has_project_prefix(pre, *self, pre.bindings@[k].project_id);
            }
            assert forall|k: int|
                0 <= k < self.bindings@.len()
                    && (#[trigger] self.bindings@[k].default_column_id) is Some implies self.has_column_in(
                self.bindings@[k].default_column_id->0,
                self.bindings@[k].project_id,
            ) by {
                assert(pre.has_column_in(
                    pre.bindings@[k].default_column_id->0,
                    pre.bindings@[k].project_id,
                ));
                Store::lemma_has_column_in_prefix(
                    pre,
                    *self,
                    pre.bindings@[k].default_column_id->0,
                    pre.bindings@[k].project_id,
                );
            }
        }
        Ok(())
    }
}

} // verus!
