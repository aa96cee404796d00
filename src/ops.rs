//! The operations on a loaded store: add, edit, remove, close and list.

use vstd::prelude::*;
use crate::store::{is_blocked, tasks_view, Task, TaskFile, TaskModel, TaskFileModel, has_id, first_with_id, lemma_first_with_id, lemma_has_first};

verus! {

/// The store after adding a task: it gets the counter's value as its id and
/// the counter moves on by one.
pub open spec fn added(m: TaskFileModel, description: Seq<char>, depends: Option<Seq<u32>>) -> TaskFileModel {
    TaskFileModel {
        version: m.version,
        counter: (m.counter + 1) as u32,
        tasks: m.tasks.push(TaskModel { id: m.counter, description, depends }),
    }
}

/// A task after an edit: each given field replaces the old one whole.
pub open spec fn edited(t: TaskModel, description: Option<Seq<char>>, depends: Option<Seq<u32>>) -> TaskModel {
    TaskModel {
        id: t.id,
        description: match description {
            Some(d) => d,
            None => t.description,
        },
        depends: match depends {
            Some(d) => Some(d),
            None => t.depends,
        },
    }
}

/// `s` with every occurrence of `x` taken out, the rest in order.
pub open spec fn without(s: Seq<u32>, x: u32) -> Seq<u32>
    decreases s.len(),
{
    if s.len() == 0 {
        s
    } else if s.last() == x {
        without(s.drop_last(), x)
    } else {
        without(s.drop_last(), x).push(s.last())
    }
}

/// A task with the id `id` taken out of its dependencies.
pub open spec fn stripped(t: TaskModel, id: u32) -> TaskModel {
    TaskModel {
        id: t.id,
        description: t.description,
        depends: match t.depends {
            Some(d) => Some(without(d, id)),
            None => None,
        },
    }
}

/// The store after removing the task with the id `id`: the first task with
/// that id leaves, and the id leaves every remaining task's dependencies. A
/// store without such a task stays as it is.
pub open spec fn removed(m: TaskFileModel, id: u32) -> TaskFileModel {
    if has_id(m.tasks, id) {
        TaskFileModel {
            version: m.version,
            counter: m.counter,
            tasks: m.tasks.remove(first_with_id(m.tasks, id)).map_values(|t: TaskModel| stripped(t, id)),
        }
    } else {
        m
    }
}

/// The store after editing the task with the id `id`: the first task with
/// that id takes the given fields. A store without such a task stays as it is.
pub open spec fn after_edit(
    m: TaskFileModel,
    id: u32,
    description: Option<Seq<char>>,
    depends: Option<Seq<u32>>,
) -> TaskFileModel {
    if has_id(m.tasks, id) {
        let i = first_with_id(m.tasks, id);
        TaskFileModel {
            version: m.version,
            counter: m.counter,
            tasks: m.tasks.update(i, edited(m.tasks[i], description, depends)),
        }
    } else {
        m
    }
}

/// The ids of `deps` but `x`, in order.
fn without_id(deps: &Vec<u32>, x: u32) -> (r: Vec<u32>)
    ensures
        r@ == without(deps@, x),
{
    let mut r: Vec<u32> = Vec::new();
    let mut i: usize = 0;
    while i < deps.len()
        invariant
            0 <= i <= deps.len(),
            r@ == without(deps@.subrange(0, i as int), x),
        decreases deps.len() - i,
    {
        assert(deps@.subrange(0, i + 1).drop_last() =~= deps@.subrange(0, i as int));
        if deps[i] != x {
            r.push(deps[i]);
        }
        i += 1;
    }
    assert(deps@.subrange(0, deps@.len() as int) =~= deps@);
    r
}

/// A copy of a list of ids.
fn copy_ids(v: &Vec<u32>) -> (r: Vec<u32>)
    ensures
        r@ == v@,
{
    let r = v.clone();
    assert(r@ =~= v@);
    r
}

/// Adds a task with the given description and dependencies, under the id
/// that the counter holds; the counter moves on by one.
pub fn add_task(task_file: &mut TaskFile, task: &String, depends: &Option<Vec<u32>>)
    requires
        old(task_file).counter < u32::MAX,
    ensures
        final(task_file)@ == added(old(task_file)@, task@, match depends {
            Some(d) => Some(d@),
            None => None,
        }),
{
    let depends_copy: Option<Vec<u32>> = match depends {
        Some(values) => Some(copy_ids(values)),
        None => None,
    };
    let task_entry = Task { id: task_file.counter, description: task.clone(), depends: depends_copy };
    task_file.tasks.push(task_entry);
    task_file.counter += 1;
    assert(task_file@.tasks =~= added(old(task_file)@, task@, match depends {
        Some(d) => Some(d@),
        None => None,
    }).tasks);
}

/// The model of an optional text argument.
pub open spec fn opt_text(v: Option<String>) -> Option<Seq<char>> {
    match v {
        Some(s) => Some(s@),
        None => None,
    }
}

/// The model of an optional list of ids.
pub open spec fn opt_ids(v: Option<Vec<u32>>) -> Option<Seq<u32>> {
    match v {
        Some(d) => Some(d@),
        None => None,
    }
}

/// Edits the first task with the id `task_id`: a given description replaces
/// the old one, given dependencies replace the old ones whole. Returns
/// whether such a task was found; when none was, the store is unchanged.
pub fn edit_task(
    task_file: &mut TaskFile,
    task_id: &u32,
    task: &Option<String>,
    depends: &Option<Vec<u32>>,
) -> (found: bool)
    ensures
        found == has_id(old(task_file)@.tasks, *task_id),
        final(task_file)@ == after_edit(old(task_file)@, *task_id, opt_text(*task), opt_ids(*depends)),
        task.is_none() && depends.is_none() ==> final(task_file)@ == old(task_file)@,
{
    let found = match task_file.task_for_id(task_id) {
        Some(task_entry) => {
            match task {
                Some(task_description) => {
                    task_entry.description = task_description.clone();
                },
                None => {},
            }
            match depends {
                Some(dependencies) => {
                    task_entry.depends = Some(copy_ids(dependencies));
                },
                None => {},
            }
            true
        },
        None => false,
    };
    proof {
        let m = old(task_file)@;
        if has_id(m.tasks, *task_id) {
            lemma_has_first(m.tasks, *task_id);
            let i = first_with_id(m.tasks, *task_id);
            assert(m.tasks.update(i, edited(m.tasks[i], None, None)) =~= m.tasks);
        }
    }
    found
}

/// Removes the first task with the id `task_id`, and takes that id out of
/// the dependencies of every remaining task. Returns whether such a task was
/// found; when none was, the store is unchanged.
pub fn remove_task(task_file: &mut TaskFile, task_id: &u32) -> (found: bool)
    ensures
        found == has_id(old(task_file)@.tasks, *task_id),
        final(task_file)@ == removed(old(task_file)@, *task_id),
{
    match task_file.position_of(*task_id) {
        Some(index) => {
            proof {
                lemma_first_with_id(task_file@.tasks, *task_id, index as int);
            }
            task_file.tasks.remove(index);
            let ghost left = task_file@.tasks;
            assert(left =~= old(task_file)@.tasks.remove(index as int));
            let mut j: usize = 0;
            while j < task_file.tasks.len()
                invariant
                    0 <= j <= task_file.tasks.len(),
                    task_file.tasks.len() == left.len(),
                    task_file.version == old(task_file).version,
                    task_file.counter == old(task_file).counter,
                    forall|k: int| 0 <= k < j ==> #[trigger] task_file@.tasks[k] == stripped(left[k], *task_id),
                    forall|k: int| j <= k < left.len() ==> #[trigger] task_file@.tasks[k] == left[k],
                decreases task_file.tasks.len() - j,
            {
                let new_depends = match &task_file.tasks[j].depends {
                    Some(deps) => Some(without_id(deps, *task_id)),
                    None => None,
                };
                assert(task_file@.tasks[j as int] == left[j as int]);
                assert(opt_ids(new_depends) == stripped(left[j as int], *task_id).depends);
                let ghost before = task_file.tasks@;
                let ghost before_view = task_file@.tasks;
                task_file.tasks[j].depends = new_depends;
                assert(task_file.tasks@[j as int].id == before[j as int].id);
                assert(task_file.tasks@[j as int].description == before[j as int].description);
                assert(task_file.tasks@[j as int].depends == new_depends);
                assert(task_file@.tasks[j as int] == stripped(left[j as int], *task_id));
                assert forall|k: int| 0 <= k < task_file.tasks.len() && k != j implies
                    #[trigger] task_file@.tasks[k] == before_view[k] by {
                    assert(task_file.tasks@[k] == before[k]);
                    assert(tasks_view(before)[k] == before[k]@);
                }
                j += 1;
            }
            assert(task_file@.tasks =~= removed(old(task_file)@, *task_id).tasks);
            true
        },
        None => false,
    }
}

/// Closes the task with the id `task_id`: closing is removing.
pub fn close_task(task_file: &mut TaskFile, task_id: &u32) -> (found: bool)
    ensures
        found == has_id(old(task_file)@.tasks, *task_id),
        final(task_file)@ == removed(old(task_file)@, *task_id),
{
    remove_task(task_file, task_id)
}

/// One line of a listing: a task and whether it is blocked.
pub struct ListEntry {
    pub blocked: bool,
    pub task: Task,
}

impl View for ListEntry {
    type V = (bool, TaskModel);

    open spec fn view(&self) -> (bool, TaskModel) {
        (self.blocked, self.task@)
    }
}

/// The tasks of `tasks` whose blocked state against `all` is `blocked`, in
/// their order, each with that state.
pub open spec fn listed_part(tasks: Seq<TaskModel>, all: Seq<TaskModel>, blocked: bool) -> Seq<(bool, TaskModel)>
    decreases tasks.len(),
{
    if tasks.len() == 0 {
        Seq::empty()
    } else {
        let rest = listed_part(tasks.drop_last(), all, blocked);
        if is_blocked(tasks.last(), all) == blocked {
            rest.push((blocked, tasks.last()))
        } else {
            rest
        }
    }
}

/// A listing of `tasks`: the unblocked tasks, then the blocked ones, each
/// group in store order.
pub open spec fn listing(tasks: Seq<TaskModel>) -> Seq<(bool, TaskModel)> {
    listed_part(tasks, tasks, false) + listed_part(tasks, tasks, true)
}

/// A copy of a task.
fn copy_task(t: &Task) -> (r: Task)
    ensures
        r@ == t@,
{
    let depends = match &t.depends {
        Some(d) => Some(copy_ids(d)),
        None => None,
    };
    Task { id: t.id, description: t.description.clone(), depends }
}

/// Appends to `out` the tasks of the store whose blocked state is `blocked`.
fn push_listed(task_file: &TaskFile, blocked: bool, out: &mut Vec<ListEntry>)
    ensures
        final(out)@.map_values(|e: ListEntry| e@) == old(out)@.map_values(|e: ListEntry| e@)
            + listed_part(task_file@.tasks, task_file@.tasks, blocked),
{
    let ghost start = out@.map_values(|e: ListEntry| e@);
    let mut i: usize = 0;
    while i < task_file.tasks.len()
        invariant
            0 <= i <= task_file.tasks.len(),
            out@.map_values(|e: ListEntry| e@) == start
                + listed_part(task_file@.tasks.subrange(0, i as int), task_file@.tasks, blocked),
        decreases task_file.tasks.len() - i,
    {
        let ghost done = out@;
        assert(task_file@.tasks.subrange(0, i + 1).drop_last() =~= task_file@.tasks.subrange(0, i as int));
        let b = task_file.tasks[i].has_dependencies(task_file);
        if b == blocked {
            let entry = ListEntry { blocked, task: copy_task(&task_file.tasks[i]) };
            out.push(entry);
            assert(out@.map_values(|e: ListEntry| e@) =~= done.map_values(|e: ListEntry| e@).push((blocked, task_file@.tasks[i as int])));
        }
        i += 1;
    }
    assert(task_file@.tasks.subrange(0, task_file@.tasks.len() as int) =~= task_file@.tasks);
}

/// The tasks of the store for listing: the unblocked ones first, then the
/// blocked ones, each group in store order, each task with its blocked state.
/// An empty store gives an empty listing.
pub fn list_tasks(task_file: &TaskFile) -> (r: Vec<ListEntry>)
    ensures
        r@.map_values(|e: ListEntry| e@) == listing(task_file@.tasks),
{
    let mut out: Vec<ListEntry> = Vec::new();
    assert(out@.map_values(|e: ListEntry| e@) =~= Seq::<(bool, TaskModel)>::empty());
    push_listed(task_file, false, &mut out);
    push_listed(task_file, true, &mut out);
    assert(out@.map_values(|e: ListEntry| e@) =~= listing(task_file@.tasks));
    out
}

} // verus!
