//! Properties that hold across the operations of a store.

use vstd::prelude::*;
use crate::store::{is_blocked, has_id, is_first_with_id, first_with_id, lemma_first_with_id, TaskModel, TaskFileModel};
use crate::ops::{added, after_edit, removed, stripped, without};

verus! {

/// One command against a store, in model form.
pub enum Step {
    Add(Seq<char>, Option<Seq<u32>>),
    Edit(u32, Option<Seq<char>>, Option<Seq<u32>>),
    Remove(u32),
}

/// The store after one step.
pub open spec fn apply(m: TaskFileModel, step: Step) -> TaskFileModel {
    match step {
        Step::Add(description, depends) => added(m, description, depends),
        Step::Edit(id, description, depends) => after_edit(m, id, description, depends),
        Step::Remove(id) => removed(m, id),
    }
}

/// The number of adds among `steps`.
pub open spec fn count_adds(steps: Seq<Step>) -> nat
    decreases steps.len(),
{
    if steps.len() == 0 {
        0
    } else {
        (if steps[0] is Add { 1nat } else { 0nat }) + count_adds(steps.drop_first())
    }
}

/// The ids that the adds among `steps` assign, in order, run from `m`.
pub open spec fn assigned_ids(m: TaskFileModel, steps: Seq<Step>) -> Seq<u32>
    decreases steps.len(),
{
    if steps.len() == 0 {
        Seq::empty()
    } else {
        let rest = assigned_ids(apply(m, steps[0]), steps.drop_first());
        if steps[0] is Add {
            seq![m.counter].add(rest)
        } else {
            rest
        }
    }
}

/// Ids count up: run from a store whose counter is `c`, the adds among any
/// steps, removals and edits between them included, are given the ids
/// `c, c + 1, c + 2, ...` in order, so no id is handed out twice.
pub proof fn lemma_ids_count_up(m: TaskFileModel, steps: Seq<Step>)
    requires
        m.counter + count_adds(steps) <= u32::MAX,
    ensures
        assigned_ids(m, steps) == Seq::new(count_adds(steps), |k: int| (m.counter + k) as u32),
        forall|a: int, b: int|
            0 <= a < b < assigned_ids(m, steps).len() ==> assigned_ids(m, steps)[a] != assigned_ids(m, steps)[b],
    decreases steps.len(),
{
    if steps.len() > 0 {
        let next = apply(m, steps[0]);
        if steps[0] is Add {
            assert(next.counter == m.counter + 1);
        } else {
            assert(next.counter == m.counter);
        }
        lemma_ids_count_up(next, steps.drop_first());
    }
    assert(assigned_ids(m, steps) =~= Seq::new(count_adds(steps), |k: int| (m.counter + k) as u32));
}

/// No two tasks share an id.
pub open spec fn ids_unique(tasks: Seq<TaskModel>) -> bool {
    forall|a: int, b: int| 0 <= a < b < tasks.len() ==> #[trigger] tasks[a].id != #[trigger] tasks[b].id
}

/// Taking `x` out of a list of ids keeps exactly the other ids.
pub proof fn lemma_without_contains(s: Seq<u32>, x: u32, y: u32)
    ensures
        without(s, x).contains(y) <==> (s.contains(y) && y != x),
    decreases s.len(),
{
    if s.len() > 0 {
        let p = s.drop_last();
        let l = s.last();
        let w = without(p, x);
        lemma_without_contains(p, x, y);
        if s.contains(y) && y != l {
            let k = choose|k: int| 0 <= k < s.len() && s[k] == y;
            assert(p[k] == y);
        }
        if p.contains(y) {
            let k = choose|k: int| 0 <= k < p.len() && p[k] == y;
            assert(s[k] == y);
        }
        if y == l {
            assert(s[s.len() - 1] == y);
        }
        if l != x {
            assert(without(s, x) == w.push(l));
            if w.contains(y) {
                let k = choose|k: int| 0 <= k < w.len() && w[k] == y;
                assert(w.push(l)[k] == y);
            }
            if y == l {
                assert(w.push(l)[w.len() as int] == y);
            }
            if w.push(l).contains(y) && y != l {
                let k = choose|k: int| 0 <= k < w.len() + 1 && w.push(l)[k] == y;
                assert(w[k] == y);
            }
        }
    }
}

/// In a store whose ids are unique, a task's position is the first one with its id.
proof fn lemma_unique_is_first(tasks: Seq<TaskModel>, i: int)
    requires
        ids_unique(tasks),
        0 <= i < tasks.len(),
    ensures
        has_id(tasks, tasks[i].id),
        first_with_id(tasks, tasks[i].id) == i,
{
    assert(is_first_with_id(tasks, tasks[i].id, i)) by {
        assert forall|k: int| 0 <= k < i implies #[trigger] tasks[k].id != tasks[i].id by {
            assert(tasks[k].id != tasks[i].id);
        }
    }
    lemma_first_with_id(tasks, tasks[i].id, i);
}

/// Removal cascades: after removing a task of a store whose ids are unique,
/// no task carries its id and no task depends on it.
pub proof fn lemma_remove_cascades(m: TaskFileModel, id: u32)
    requires
        ids_unique(m.tasks),
        has_id(m.tasks, id),
    ensures
        !has_id(removed(m, id).tasks, id),
        forall|k: int| 0 <= k < removed(m, id).tasks.len() ==>
            match (#[trigger] removed(m, id).tasks[k]).depends {
                Some(d) => !d.contains(id),
                None => true,
            },
{
    let i = choose|k: int| 0 <= k < m.tasks.len() && #[trigger] m.tasks[k].id == id;
    lemma_unique_is_first(m.tasks, i);
    let r = removed(m, id).tasks;
    assert forall|k: int| 0 <= k < r.len() implies r[k].id != id && match (#[trigger] r[k]).depends {
        Some(d) => !d.contains(id),
        None => true,
    } by {
        let t = m.tasks.remove(i)[k];
        assert(r[k] == stripped(t, id));
        if k < i {
            assert(m.tasks[k].id != m.tasks[i].id);
        } else {
            assert(m.tasks[i].id != m.tasks[k + 1].id);
        }
        match t.depends {
            Some(d) => lemma_without_contains(d, id, id),
            None => {},
        }
    }
}

/// Blocking follows the store: a task that depends on exactly one other task
/// of the store is blocked, and once that task is removed it no longer is.
pub proof fn lemma_blocked_until_removed(m: TaskFileModel, a: int, b: int)
    requires
        ids_unique(m.tasks),
        0 <= a < m.tasks.len(),
        0 <= b < m.tasks.len(),
        a != b,
        m.tasks[a].depends == Some(seq![m.tasks[b].id]),
    ensures
        is_blocked(m.tasks[a], m.tasks),
        ({
            let r = removed(m, m.tasks[b].id).tasks;
            let a2 = if a < b { a } else { a - 1 };
            &&& 0 <= a2 < r.len()
            &&& r[a2].id == m.tasks[a].id
            &&& r[a2].description == m.tasks[a].description
            &&& !is_blocked(r[a2], r)
        }),
{
    let id = m.tasks[b].id;
    assert(seq![id].contains(m.tasks[b].id)) by {
        assert(seq![id][0] == id);
    }
    lemma_unique_is_first(m.tasks, b);
    let r = removed(m, id).tasks;
    let a2 = if a < b { a } else { a - 1 };
    assert(r[a2] == stripped(m.tasks[a], id));
    assert(seq![id].drop_last() =~= Seq::<u32>::empty());
    assert(without(seq![id], id) =~= Seq::<u32>::empty()) by {
        assert(without(Seq::<u32>::empty(), id) == Seq::<u32>::empty());
    }
}

} // verus!
