//! The path-binding registry and its resolver.
//!
//! A binding maps a filesystem path string — the natural key, unique among
//! live bindings — to a project, with an optional hostname qualifier and an
//! optional default column.  Resolution takes a query path and picks, among
//! the bindings whose path is a literal character prefix of the query, the
//! one with the longest path.  The hostname is informational metadata
//! carried alongside; it does not take part in the match, so a binding made
//! on one machine works from any other.

use vstd::prelude::*;

use crate::model::{
    dup_binding, CreateLinkedPathRequest, LinkedPath, LookupQuery, LookupResponse, StoreError,
};
use crate::store::Store;
use crate::strutil::{str_eq, str_is_prefix};

verus! {

/// Whether a binding applies to this query path: its path is a literal
/// character prefix of the query's.
pub open spec fn binding_matches(b: LinkedPath, q: Seq<char>) -> bool {
    b.path@.is_prefix_of(q)
}

/// There is a binding in `s` that applies to this query path.
pub open spec fn some_binding_matches(s: Seq<LinkedPath>, q: Seq<char>) -> bool {
    exists|i: int| 0 <= i < s.len() && binding_matches(#[trigger] s[i], q)
}

impl Store {
    /// Index of the binding for this literal path, if any.
    pub fn find_binding_by_path(&self, path: &str) -> (r: Option<usize>)
        ensures
            match r {
                Some(i) => i < self.bindings@.len() && self.bindings@[i as int].path@ == path@,
                None => !self.has_binding_path(path@),
            },
    {
        let mut i: usize = 0;
        while i < self.bindings.len()
            invariant
                i <= self.bindings@.len(),
                forall|j: int| 0 <= j < i ==> self.bindings@[j].path@ != path@,
            decreases self.bindings@.len() - i,
        {
            if str_eq(self.bindings[i].path.as_str(), path) {
                return Some(i);
            }
            i = i + 1;
        }
        None
    }

    /// Binds a path to a project: an upsert by path.  A path that is
    /// already bound keeps its row (same id, same recorded path and
    /// creation time) and only has its project, hostname and default column
    /// replaced; no duplicate entry is ever created.  The project must
    /// exist, and the default column, if given, must belong to it; else
    /// not-found is reported and nothing changes.
    pub fn create_linked_path(
        &mut self,
        project_id: i64,
        req: CreateLinkedPathRequest,
        created_at: &str,
    ) -> (r: Result<LinkedPath, StoreError>)
        requires
            old(self).wf(),
            old(self).next_binding_id < i64::MAX,
        ensures
            final(self).wf(),
            !old(self).has_project(project_id) ==> r == Err::<LinkedPath, StoreError>(
                StoreError::NotFound,
            ) && *final(self) == *old(self),
            old(self).has_project(project_id) && (req.default_column_id matches Some(c)
                && !old(self).has_column_in(c, project_id)) ==> r == Err::<LinkedPath, StoreError>(
                StoreError::NotFound,
            ) && *final(self) == *old(self),
            old(self).has_project(project_id) && (req.default_column_id is Some ==> old(
                self,
            ).has_column_in(req.default_column_id->0, project_id)) ==> (r matches Ok(b) && {
                &&& b.project_id == project_id
                &&& b.path@ == req.path@
                &&& b.hostname == req.hostname
                &&& b.default_column_id == req.default_column_id
                &&& (old(self).has_binding_path(req.path@) ==> exists|i: int|
                    {
                        &&& 0 <= i < old(self).bindings@.len()
                        &&& (#[trigger] old(self).bindings@[i]).path@ == req.path@
                        &&& b.id == old(self).bindings@[i].id
                        &&& b.created_at == old(self).bindings@[i].created_at
                        &&& final(self).bindings@ == old(self).bindings@.update(i, b)
                    })
                &&& (!old(self).has_binding_path(req.path@) ==> {
                    &&& b.id == old(self).next_binding_id
                    &&& b.created_at@ == created_at@
                    &&& final(self).bindings@ == old(self).bindings@.push(b)
                    &&& final(self).next_binding_id == old(self).next_binding_id + 1
                })
                &&& (old(self).has_binding_path(req.path@) ==> final(self).next_binding_id == old(
                    self,
                ).next_binding_id)
                &&& final(self).same_projects(*old(self))
                &&& final(self).same_columns(*old(self))
                &&& final(self).same_tasks(*old(self))
                &&& final(self).same_subtasks(*old(self))
                &&& final(self).same_tags(*old(self))
            }),
    {
        if self.find_project(project_id).is_none() {
            return Err(StoreError::NotFound);
        }
        match req.default_column_id {
            Some(c) => {
                if self.find_column_of(c, project_id).is_none() {
                    return Err(StoreError::NotFound);
                }
            },
            None => {},
        }
        match self.find_binding_by_path(req.path.as_str()) {
            Some(i) => {
                let mut b = self.bindings.remove(i);
                b.project_id = project_id;
                b.hostname = req.hostname;
                b.default_column_id = req.default_column_id;
                let ret = dup_binding(&b);
                self.bindings.insert(i, b);
                proof {
                    let pre = *old(self);
                    assert(self.bindings@ =~= pre.bindings@.update(
                        i as int,
                        self.bindings@[i as int],
                    ));
                    assert(ret == self.bindings@[i as int]);
                    Store::lemma_wf_core_untouched(pre, *self);
                    assert forall|k: int|
                        0 <= k < self.bindings@.len() implies (#[trigger] self.bindings@[k]).id
                        == pre.bindings@[k].id && self.bindings@[k].path@
                        == pre.bindings@[k].path@ by {}
                    assert forall|k: int|
                        0 <= k < self.bindings@.len() implies self.has_project(
                        self.bindings@[k].project_id,
                    ) by {
                        if k == i as int {
                            assert(pre.has_project(project_id));
                            Store::lemma_has_project_prefix(pre, *self, project_id);
                        } else {
                            assert(pre.has_project(pre.bindings@[k].project_id));
                            Store::lemma_has_project_prefix(
                                pre,
                                *self,
                                pre.bindings@[k].project_id,
                            );
                        }
                    }
                    assert forall|k: int|
                        0 <= k < self.bindings@.len() && (
                    #[trigger] self.bindings@[k].default_column_id) is Some implies self.has_column_in(
                        self.bindings@[k].default_column_id->0,
                        self.bindings@[k].project_id,
                    ) by {
                        if k == i as int {
                            assert(pre.has_column_in(
                                self.bindings@[k].default_column_id->0,
                                project_id,
                            ));
                            Store::lemma_has_column_in_prefix(
                                pre,
                                *self,
                                self.bindings@[k].default_column_id->0,
                                project_id,
                            );
                        } else {
                            assert(pre.has_column_in(
                                pre.bindings@[k].default_column_id->0,
                                pre.bindings@[k].project_id,
                            ));
                            Store::lemma_has_column_in_prefix(
                                pre,
                                *self,
                                pre.bindings@[k].default_column_id->0,
                                pre.bindings@[k].project_id,
                            );
                        }
                    }
                }
                Ok(ret)
            },
            None => {
                let id = self.next_binding_id;
                let b = LinkedPath {
                    id,
                    project_id,
                    path: req.path,
                    hostname: req.hostname,
                    default_column_id: req.default_column_id,
                    created_at: created_at.to_owned(),
                };
                self.bindings.push(dup_binding(&b));
                self.next_binding_id = id + 1;
                proof {
                    let pre = *old(self);
                    Store::lemma_wf_core_untouched(pre, *self);
                    assert forall|a: int, b2: int|
                        0 <= a < b2 < self.bindings@.len() implies self.bindings@[a].path@
                        != self.bindings@[b2].path@ by {
                        if b2 == pre.bindings@.len() as int {
                            assert(self.bindings@[a] == pre.bindings@[a]);
                            assert(!pre.has_binding_path(b.path@));
                        }
                    }
                    assert forall|k: int|
                        0 <= k < self.bindings@.len() implies self.has_project(
                        self.bindings@[k].project_id,
                    ) by {
                        if k < pre.bindings@.len() {
                            assert(pre.has_project(pre.bindings@[k].project_id));
                            Store::lemma_has_project_prefix(
                                pre,
                                *self,
                                pre.bindings@[k].project_id,
                            );
                        } else {
                            assert(pre.has_project(project_id));
                            Store::lemma_has_project_prefix(pre, *self, project_id);
                        }
                    }
                    assert forall|k: int|
                        0 <= k < self.bindings@.len() && (
                    #[trigger] self.bindings@[k].default_column_id) is Some implies self.has_column_in(
                        self.bindings@[k].default_column_id->0,
                        self.bindings@[k].project_id,
                    ) by {
                        if k < pre.bindings@.len() {
                            assert(pre.has_column_in(
                                pre.bindings@[k].default_column_id->0,
                                pre.bindings@[k].project_id,
                            ));
                            Store::lemma_has_column_in_prefix(
                                pre,
                                *self,
                                pre.bindings@[k].default_column_id->0,
                                pre.bindings@[k].project_id,
                            );
                        } else {
                            assert(pre.has_column_in(
                                self.bindings@[k].default_column_id->0,
                                project_id,
                            ));
                            Store::lemma_has_column_in_prefix(
                                pre,
                                *self,
                                self.bindings@[k].default_column_id->0,
                                project_id,
                            );
                        }
                    }
                }
                Ok(b)
            },
        }
    }

    /// Unbinds by id.  An unknown id reports not-found and changes nothing.
    pub fn delete_linked_path(&mut self, id: i64) -> (r: Result<(), StoreError>)
        requires
            old(self).wf(),
        ensures
            final(self).wf(),
            !old(self).has_binding(id) ==> r == Err::<(), StoreError>(StoreError::NotFound)
                && *final(self) == *old(self),
            old(self).has_binding(id) ==> r == Ok::<(), StoreError>(()) && {
                &&& exists|i: int|
                    0 <= i < old(self).bindings@.len() && (#[trigger] old(self).bindings@[i]).id
                        == id && final(self).bindings@ == old(self).bindings@.remove(i)
                &&& final(self).next_binding_id == old(self).next_binding_id
                &&& final(self).same_projects(*old(self))
                &&& final(self).same_columns(*old(self))
                &&& final(self).same_tasks(*old(self))
                &&& final(self).same_subtasks(*old(self))
                &&& final(self).same_tags(*old(self))
            },
    {
        let idx = match self.find_binding(id) {
            None => {
                return Err(StoreError::NotFound);
            },
            Some(i) => i,
        };
        self.bindings.remove(idx);
        proof {
            self.lemma_bindings_shrunk(*old(self), idx as int);
            let pre = *old(self);
            assert(0 <= idx && (idx as int) < pre.bindings@.len() && pre.bindings@[idx as int].id
                == id && self.bindings@ == pre.bindings@.remove(idx as int));
        }
        Ok(())
    }

    /// Unbinds by literal path string.  An unknown path reports not-found
    /// and changes nothing.
    pub fn delete_linked_path_by_path(&mut self, path: &str) -> (r: Result<(), StoreError>)
        requires
            old(self).wf(),
        ensures
            final(self).wf(),
            !old(self).has_binding_path(path@) ==> r == Err::<(), StoreError>(StoreError::NotFound)
                && *final(self) == *old(self),
            old(self).has_binding_path(path@) ==> r == Ok::<(), StoreError>(()) && {
                &&& exists|i: int|
                    0 <= i < old(self).bindings@.len() && (#[trigger] old(
                        self,
                    ).bindings@[i]).path@ == path@ && final(self).bindings@ == old(
                        self,
                    ).bindings@.remove(i)
                &&& final(self).next_binding_id == old(self).next_binding_id
                &&& final(self).same_projects(*old(self))
                &&& final(self).same_columns(*old(self))
                &&& final(self).same_tasks(*old(self))
                &&& final(self).same_subtasks(*old(self))
                &&& final(self).same_tags(*old(self))
            },
    {
        let idx = match self.find_binding_by_path(path) {
            None => {
                return Err(StoreError::NotFound);
            },
            Some(i) => i,
        };
        self.bindings.remove(idx);
        proof {
            self.lemma_bindings_shrunk(*old(self), idx as int);
            let pre = *old(self);
            assert(0 <= idx && (idx as int) < pre.bindings@.len()
                && pre.bindings@[idx as int].path@ == path@ && self.bindings@
                == pre.bindings@.remove(idx as int));
        }
        Ok(())
    }

    /// The invariant survives removing one binding row: bindings reference
    /// nothing and nothing references them.
    proof fn lemma_bindings_shrunk(self, pre: Store, idx: int)
        requires
            pre.wf(),
            0 <= idx < pre.bindings@.len(),
            self.bindings@ == pre.bindings@.remove(idx),
            self.projects@ == pre.projects@,
            self.columns@ == pre.columns@,
            self.tasks@ == pre.tasks@,
            self.subtasks@ == pre.subtasks@,
            self.tags@ == pre.tags@,
            self.next_project_id == pre.next_project_id,
            self.next_column_id == pre.next_column_id,
            self.next_task_id == pre.next_task_id,
            self.next_subtask_id == pre.next_subtask_id,
            self.next_tag_id == pre.next_tag_id,
            self.next_binding_id == pre.next_binding_id,
        ensures
            self.wf(),
    {
        Store::lemma_wf_core_untouched(pre, self);
        pre.bindings@.remove_ensures(idx);
        assert forall|a: int, b: int|
            0 <= a < b < self.bindings@.len() implies self.bindings@[a].id != self.bindings@[b].id
            && self.bindings@[a].path@ != self.bindings@[b].path@ by {
            assert(self.bindings@[a] == if a < idx {
                pre.bindings@[a]
            } else {
                pre.bindings@[a + 1]
            });
            assert(self.bindings@[b] == if b < idx {
                pre.bindings@[b]
            } else {
                pre.bindings@[b + 1]
            });
        }
        assert forall|a: int| 0 <= a < self.bindings@.len() implies 1
            <= #[trigger] self.bindings@[a].id < self.next_binding_id by {
            assert(self.bindings@[a] == if a < idx {
                pre.bindings@[a]
            } else {
                pre.bindings@[a + 1]
            });
        }
        assert forall|a: int| 0 <= a < self.bindings@.len() implies self.has_project(
            self.bindings@[a].project_id,
        ) by {
            assert(self.bindings@[a] == if a < idx {
                pre.bindings@[a]
            } else {
                pre.bindings@[a + 1]
            });
            assert(pre.has_project(self.bindings@[a].project_id));
            Store::lemma_has_project_prefix(pre, self, self.bindings@[a].project_id);
        }
        assert forall|a: int|
            0 <= a < self.bindings@.len() && (#[trigger] self.bindings@[a].default_column_id)
                is Some implies self.has_column_in(
            self.bindings@[a].default_column_id->0,
            self.bindings@[a].project_id,
        ) by {
            assert(self.bindings@[a] == if a < idx {
                pre.bindings@[a]
            } else {
                pre.bindings@[a + 1]
            });
            assert(pre.has_column_in(
                self.bindings@[a].default_column_id->0,
                self.bindings@[a].project_id,
            ));
            Store::lemma_has_column_in_prefix(
                pre,
                self,
                self.bindings@[a].default_column_id->0,
                self.bindings@[a].project_id,
            );
        }
        assert forall|k: int| 0 <= k < self.columns@.len() implies self.has_project(
            self.columns@[k].project_id,
        ) by {
            assert(pre.has_project(pre.columns@[k].project_id));
            Store::lemma_has_project_prefix(pre, self, pre.columns@[k].project_id);
        }
        assert forall|k: int| 0 <= k < self.tasks@.len() implies self.has_project(
            self.tasks@[k].project_id,
        ) by {
            assert(pre.has_project(pre.tasks@[k].project_id));
            Store::lemma_has_project_prefix(pre, self, pre.tasks@[k].project_id);
        }
        assert forall|k: int| 0 <= k < self.tasks@.len() implies self.has_column_in(
            self.tasks@[k].column_id,
            self.tasks@[k].project_id,
        ) by {
            assert(pre.has_column_in(pre.tasks@[k].column_id, pre.tasks@[k].project_id));
            Store::lemma_has_column_in_prefix(
                pre,
                self,
                pre.tasks@[k].column_id,
                pre.tasks@[k].project_id,
            );
        }
        assert forall|k: int| 0 <= k < self.subtasks@.len() implies self.has_task(
            self.subtasks@[k].task_id,
        ) by {
            assert(pre.has_task(pre.subtasks@[k].task_id));
            Store::lemma_has_task_prefix(pre, self, pre.subtasks@[k].task_id);
        }
    }

    /// Resolves a query path to the most specific binding: among the
    /// bindings whose path is a literal prefix of the query path, the one
    /// with the longest path wins.  When none matches, not-found is
    /// reported.  The response carries the project's display name so the
    /// caller needs no second lookup.  The query's hostname plays no part
    /// in the match.
    pub fn lookup_linked_path(&self, query: &LookupQuery) -> (r: Result<LookupResponse, StoreError>)
        requires
            self.wf(),
        ensures
            !some_binding_matches(self.bindings@, query.path@) ==> r == Err::<
                LookupResponse,
                StoreError,
            >(StoreError::NotFound),
            some_binding_matches(self.bindings@, query.path@) ==> (r matches Ok(resp) && {
                &&& exists|i: int|
                    0 <= i < self.bindings@.len() && resp.linked_path == #[trigger] self.bindings@[i]
                &&& binding_matches(resp.linked_path, query.path@)
                &&& (forall|j: int|
                    0 <= j < self.bindings@.len() && binding_matches(
                        #[trigger] self.bindings@[j],
                        query.path@,
                    ) ==> self.bindings@[j].path@.len() <= resp.linked_path.path@.len())
                &&& exists|w: int|
                    0 <= w < self.projects@.len() && (#[trigger] self.projects@[w]).id
                        == resp.linked_path.project_id && resp.project_name
                        == self.projects@[w].name
            }),
    {
        let mut best: Option<usize> = None;
        let mut i: usize = 0;
        while i < self.bindings.len()
            invariant
                i <= self.bindings@.len(),
                match best {
                    Some(b) => {
                        &&& b < i
                        &&& binding_matches(self.bindings@[b as int], query.path@)
                        &&& forall|j: int|
                            0 <= j < i && binding_matches(
                                #[trigger] self.bindings@[j],
                                query.path@,
                            ) ==> self.bindings@[j].path@.len()
                                <= self.bindings@[b as int].path@.len()
                    },
                    None => forall|j: int|
                        0 <= j < i ==> !binding_matches(#[trigger] self.bindings@[j], query.path@),
                },
            decreases self.bindings@.len() - i,
        {
            if str_is_prefix(self.bindings[i].path.as_str(), query.path.as_str()) {
                let better = match best {
                    None => true,
                    Some(b) => self.bindings[i].path.as_str().unicode_len()
                        > self.bindings[b].path.as_str().unicode_len(),
                };
                if better {
                    best = Some(i);
                }
            }
            i = i + 1;
        }
        match best {
            None => Err(StoreError::NotFound),
            Some(b) => {
                let binding = dup_binding(&self.bindings[b]);
                let w = match self.find_project(binding.project_id) {
                    Some(w) => w,
                    None => {
                        proof {
                            assert(self.has_project(self.bindings@[b as int].project_id));
                            assert(false);
                        }
                        return Err(StoreError::NotFound);
                    },
                };
                let name = self.projects[w].name.clone();
                proof {
                    assert(binding == self.bindings@[b as int]);
                    assert(self.projects@[w as int].id == binding.project_id);
                }
                Ok(LookupResponse { linked_path: binding, project_name: name })
            },
        }
    }
}

} // verus!
