//! Row-level helpers behind the store's cascading deletes: filtered copies
//! of one table.
//!
//! Besides the `filter` equation, every helper hands back a ghost map from
//! result positions to source positions (strictly increasing), which is what
//! callers use to carry uniqueness and referential-integrity facts across
//! the cascade.

use vstd::prelude::*;

use crate::model::{dup_binding, dup_column, dup_subtask, dup_task, Column, LinkedPath, Subtask, Task};

verus! {

/// There is a task with this id in `s`.
pub open spec fn seq_has_task(s: Seq<Task>, id: i64) -> bool {
    exists|i: int| 0 <= i < s.len() && s[i].id == id
}

/// The result `r` is the rows of `xs` kept by a filter, and `src` maps each
/// result position to the (strictly increasing) source position it came
/// from.
pub open spec fn picked_from<T>(r: Seq<T>, xs: Seq<T>, src: Seq<int>) -> bool {
    &&& src.len() == r.len()
    &&& forall|a: int| 0 <= a < r.len() ==> 0 <= #[trigger] src[a] < xs.len() && r[a] == xs[src[a]]
    &&& forall|a: int, b: int| 0 <= a < b < src.len() ==> src[a] < src[b]
}

/// The columns of `cols` that do not belong to project `pid`.
pub fn columns_without_project(cols: &Vec<Column>, pid: i64) -> (res: (Vec<Column>, Ghost<
    Seq<int>,
>))
    ensures
        res.0@ == cols@.filter(|c: Column| c.project_id != pid),
        picked_from(res.0@, cols@, res.1@),
{
    let mut out: Vec<Column> = Vec::new();
    let ghost mut src: Seq<int> = Seq::empty();
    let mut i: usize = 0;
    while i < cols.len()
        invariant
            i <= cols@.len(),
            out@ == cols@.take(i as int).filter(|c: Column| c.project_id != pid),
            src.len() == out@.len(),
            forall|a: int|
                0 <= a < out@.len() ==> 0 <= #[trigger] src[a] < i && out@[a] == cols@[src[a]],
            forall|a: int, b: int| 0 <= a < b < src.len() ==> src[a] < src[b],
        decreases cols@.len() - i,
    {
        let c = &cols[i];
        if c.project_id != pid {
            out.push(dup_column(c));
            proof {
                src = src.push(i as int);
            }
        }
        proof {
            reveal_with_fuel(Seq::filter, 2);
            assert(cols@.take(i + 1).drop_last() =~= cols@.take(i as int));
            assert(cols@.take(i + 1).last() == cols@[i as int]);
        }
        i = i + 1;
    }
    proof {
        assert(cols@.take(cols@.len() as int) =~= cols@);
    }
    (out, Ghost(src))
}

/// The tasks of `tasks` that do not belong to project `pid`.
pub fn tasks_without_project(tasks: &Vec<Task>, pid: i64) -> (res: (Vec<Task>, Ghost<Seq<int>>))
    ensures
        res.0@ == tasks@.filter(|t: Task| t.project_id != pid),
        picked_from(res.0@, tasks@, res.1@),
{
    let mut out: Vec<Task> = Vec::new();
    let ghost mut src: Seq<int> = Seq::empty();
    let mut i: usize = 0;
    while i < tasks.len()
        invariant
            i <= tasks@.len(),
            out@ == tasks@.take(i as int).filter(|t: Task| t.project_id != pid),
            src.len() == out@.len(),
            forall|a: int|
                0 <= a < out@.len() ==> 0 <= #[trigger] src[a] < i && out@[a] == tasks@[src[a]],
            forall|a: int, b: int| 0 <= a < b < src.len() ==> src[a] < src[b],
        decreases tasks@.len() - i,
    {
        let t = &tasks[i];
        if t.project_id != pid {
            out.push(dup_task(t));
            proof {
                src = src.push(i as int);
            }
        }
        proof {
            reveal_with_fuel(Seq::filter, 2);
            assert(tasks@.take(i + 1).drop_last() =~= tasks@.take(i as int));
            assert(tasks@.take(i + 1).last() == tasks@[i as int]);
        }
        i = i + 1;
    }
    proof {
        assert(tasks@.take(tasks@.len() as int) =~= tasks@);
    }
    (out, Ghost(src))
}

/// The tasks of `tasks` that do not sit in column `cid`.
pub fn tasks_without_column(tasks: &Vec<Task>, cid: i64) -> (res: (Vec<Task>, Ghost<Seq<int>>))
    ensures
        res.0@ == tasks@.filter(|t: Task| t.column_id != cid),
        picked_from(res.0@, tasks@, res.1@),
{
    let mut out: Vec<Task> = Vec::new();
    let ghost mut src: Seq<int> = Seq::empty();
    let mut i: usize = 0;
    while i < tasks.len()
        invariant
            i <= tasks@.len(),
            out@ == tasks@.take(i as int).filter(|t: Task| t.column_id != cid),
            src.len() == out@.len(),
            forall|a: int|
                0 <= a < out@.len() ==> 0 <= #[trigger] src[a] < i && out@[a] == tasks@[src[a]],
            forall|a: int, b: int| 0 <= a < b < src.len() ==> src[a] < src[b],
        decreases tasks@.len() - i,
    {
        let t = &tasks[i];
        if t.column_id != cid {
            out.push(dup_task(t));
            proof {
                src = src.push(i as int);
            }
        }
        proof {
            reveal_with_fuel(Seq::filter, 2);
            assert(tasks@.take(i + 1).drop_last() =~= tasks@.take(i as int));
            assert(tasks@.take(i + 1).last() == tasks@[i as int]);
        }
        i = i + 1;
    }
    proof {
        assert(tasks@.take(tasks@.len() as int) =~= tasks@);
    }
    (out, Ghost(src))
}

/// Whether `tasks` holds a task with this id.
pub fn task_id_present(tasks: &Vec<Task>, id: i64) -> (r: bool)
    ensures
        r == seq_has_task(tasks@, id),
{
    let mut i: usize = 0;
    while i < tasks.len()
        invariant
            i <= tasks@.len(),
            forall|j: int| 0 <= j < i ==> tasks@[j].id != id,
        decreases tasks@.len() - i,
    {
        if tasks[i].id == id {
            return true;
        }
        i = i + 1;
    }
    false
}

/// The subtasks of `subs` whose task still exists in `tasks`.
pub fn subtasks_with_live_tasks(subs: &Vec<Subtask>, tasks: &Vec<Task>) -> (res: (Vec<Subtask>,
    Ghost<Seq<int>>,
))
    ensures
        res.0@ == subs@.filter(|st: Subtask| seq_has_task(tasks@, st.task_id)),
        picked_from(res.0@, subs@, res.1@),
{
    let mut out: Vec<Subtask> = Vec::new();
    let ghost mut src: Seq<int> = Seq::empty();
    let mut i: usize = 0;
    while i < subs.len()
        invariant
            i <= subs@.len(),
            out@ == subs@.take(i as int).filter(|st: Subtask| seq_has_task(tasks@, st.task_id)),
            src.len() == out@.len(),
            forall|a: int|
                0 <= a < out@.len() ==> 0 <= #[trigger] src[a] < i && out@[a] == subs@[src[a]],
            forall|a: int, b: int| 0 <= a < b < src.len() ==> src[a] < src[b],
        decreases subs@.len() - i,
    {
        let st = &subs[i];
        if task_id_present(tasks, st.task_id) {
            out.push(dup_subtask(st));
            proof {
                src = src.push(i as int);
            }
        }
        proof {
            reveal_with_fuel(Seq::filter, 2);
            assert(subs@.take(i + 1).drop_last() =~= subs@.take(i as int));
            assert(subs@.take(i + 1).last() == subs@[i as int]);
        }
        i = i + 1;
    }
    proof {
        assert(subs@.take(subs@.len() as int) =~= subs@);
    }
    (out, Ghost(src))
}

/// The subtasks of `subs` that do not belong to task `tid`.
pub fn subtasks_without_task(subs: &Vec<Subtask>, tid: i64) -> (res: (Vec<Subtask>, Ghost<
    Seq<int>,
>))
    ensures
        res.0@ == subs@.filter(|st: Subtask| st.task_id != tid),
        picked_from(res.0@, subs@, res.1@),
{
    let mut out: Vec<Subtask> = Vec::new();
    let ghost mut src: Seq<int> = Seq::empty();
    let mut i: usize = 0;
    while i < subs.len()
        invariant
            i <= subs@.len(),
            out@ == subs@.take(i as int).filter(|st: Subtask| st.task_id != tid),
            src.len() == out@.len(),
            forall|a: int|
                0 <= a < out@.len() ==> 0 <= #[trigger] src[a] < i && out@[a] == subs@[src[a]],
            forall|a: int, b: int| 0 <= a < b < src.len() ==> src[a] < src[b],
        decreases subs@.len() - i,
    {
        let st = &subs[i];
        if st.task_id != tid {
            out.push(dup_subtask(st));
            proof {
                src = src.push(i as int);
            }
        }
        proof {
            reveal_with_fuel(Seq::filter, 2);
            assert(subs@.take(i + 1).drop_last() =~= subs@.take(i as int));
            assert(subs@.take(i + 1).last() == subs@[i as int]);
        }
        i = i + 1;
    }
    proof {
        assert(subs@.take(subs@.len() as int) =~= subs@);
    }
    (out, Ghost(src))
}

/// The bindings of `binds` that do not point at project `pid`.
pub fn bindings_without_project(binds: &Vec<LinkedPath>, pid: i64) -> (res: (Vec<LinkedPath>,
    Ghost<Seq<int>>,
))
    ensures
        res.0@ == binds@.filter(|b: LinkedPath| b.project_id != pid),
        picked_from(res.0@, binds@, res.1@),
{
    let mut out: Vec<LinkedPath> = Vec::new();
    let ghost mut src: Seq<int> = Seq::empty();
    let mut i: usize = 0;
    while i < binds.len()
        invariant
            i <= binds@.len(),
            out@ == binds@.take(i as int).filter(|b: LinkedPath| b.project_id != pid),
            src.len() == out@.len(),
            forall|a: int|
                0 <= a < out@.len() ==> 0 <= #[trigger] src[a] < i && out@[a] == binds@[src[a]],
            forall|a: int, b: int| 0 <= a < b < src.len() ==> src[a] < src[b],
        decreases binds@.len() - i,
    {
        let b = &binds[i];
        if b.project_id != pid {
            out.push(dup_binding(b));
            proof {
                src = src.push(i as int);
            }
        }
        proof {
            reveal_with_fuel(Seq::filter, 2);
            assert(binds@.take(i + 1).drop_last() =~= binds@.take(i as int));
            assert(binds@.take(i + 1).last() == binds@[i as int]);
        }
        i = i + 1;
    }
    proof {
        assert(binds@.take(binds@.len() as int) =~= binds@);
    }
    (out, Ghost(src))
}

/// A copy of `binds` in which every binding whose default column is `cid`
/// loses that default; everything else is untouched.
pub fn bindings_with_default_cleared(binds: &Vec<LinkedPath>, cid: i64) -> (r: Vec<LinkedPath>)
    ensures
        r@.len() == binds@.len(),
        forall|a: int|
            0 <= a < binds@.len() ==> {
                let o = binds@[a];
                let n = #[trigger] r@[a];
                &&& n.id == o.id
                &&& n.project_id == o.project_id
                &&& n.path == o.path
                &&& n.hostname == o.hostname
                &&& n.created_at == o.created_at
                &&& n.default_column_id == (if o.default_column_id == Some(cid) {
                    None::<i64>
                } else {
                    o.default_column_id
                })
            },
{
    let mut out: Vec<LinkedPath> = Vec::new();
    let mut i: usize = 0;
    while i < binds.len()
        invariant
            i <= binds@.len(),
            out@.len() == i,
            forall|a: int|
                0 <= a < i ==> {
                    let o = binds@[a];
                    let n = #[trigger] out@[a];
                    &&& n.id == o.id
                    &&& n.project_id == o.project_id
                    &&& n.path == o.path
                    &&& n.hostname == o.hostname
                    &&& n.created_at == o.created_at
                    &&& n.default_column_id == (if o.default_column_id == Some(cid) {
                        None::<i64>
                    } else {
                        o.default_column_id
                    })
                },
        decreases binds@.len() - i,
    {
        let mut b = dup_binding(&binds[i]);
        let clear = match b.default_column_id {
            Some(d) => d == cid,
            None => false,
        };
        if clear {
            b.default_column_id = None;
        }
        out.push(b);
        i = i + 1;
    }
    out
}

} // verus!
