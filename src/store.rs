//! The task store: the tasks, the format version and the id counter.

use vstd::prelude::*;

verus! {

/// The mathematical value of a task.
pub struct TaskModel {
    pub id: u32,
    pub description: Seq<char>,
    pub depends: Option<Seq<u32>>,
}

/// The mathematical value of a store.
pub struct TaskFileModel {
    pub version: i8,
    pub counter: u32,
    pub tasks: Seq<TaskModel>,
}

/// One task: its id, its description and the ids it depends on.
pub struct Task {
    pub id: u32,
    pub description: String,
    pub depends: Option<Vec<u32>>,
}

/// The whole store: format version, next id to assign, and the tasks.
pub struct TaskFile {
    pub version: i8,
    pub counter: u32,
    pub tasks: Vec<Task>,
}

impl View for Task {
    type V = TaskModel;

    open spec fn view(&self) -> TaskModel {
        TaskModel {
            id: self.id,
            description: self.description@,
            depends: match self.depends {
                Some(d) => Some(d@),
                None => None,
            },
        }
    }
}

/// The models of a sequence of tasks.
pub open spec fn tasks_view(tasks: Seq<Task>) -> Seq<TaskModel> {
    tasks.map_values(|t: Task| t@)
}

impl View for TaskFile {
    type V = TaskFileModel;

    open spec fn view(&self) -> TaskFileModel {
        TaskFileModel { version: self.version, counter: self.counter, tasks: tasks_view(self.tasks@) }
    }
}

/// Whether some task of `tasks` carries the id `id`.
pub open spec fn has_id(tasks: Seq<TaskModel>, id: u32) -> bool {
    exists|k: int| 0 <= k < tasks.len() && #[trigger] tasks[k].id == id
}

/// `i` is the position of the first task of `tasks` with the id `id`.
pub open spec fn is_first_with_id(tasks: Seq<TaskModel>, id: u32, i: int) -> bool {
    &&& 0 <= i < tasks.len()
    &&& tasks[i].id == id
    &&& forall|k: int| 0 <= k < i ==> #[trigger] tasks[k].id != id
}

/// A task is blocked when its dependency ids include the id of a task of
/// `tasks`: a dependency on an id that no task carries does not block.
pub open spec fn is_blocked(task: TaskModel, tasks: Seq<TaskModel>) -> bool {
    match task.depends {
        Some(deps) => exists|k: int| 0 <= k < tasks.len() && deps.contains(#[trigger] tasks[k].id),
        None => false,
    }
}

/// The position of the first task with the id `id` (meaningful when one has it).
pub open spec fn first_with_id(tasks: Seq<TaskModel>, id: u32) -> int {
    choose|i: int| is_first_with_id(tasks, id, i)
}

/// The first task with a given id is the one position that holds it first.
pub proof fn lemma_first_with_id(tasks: Seq<TaskModel>, id: u32, i: int)
    requires
        is_first_with_id(tasks, id, i),
    ensures
        has_id(tasks, id),
        first_with_id(tasks, id) == i,
{
    let j = first_with_id(tasks, id);
    assert(is_first_with_id(tasks, id, j));
    if j < i {
        assert(tasks[j].id != id);
    } else if i < j {
        assert(tasks[i].id != id);
    }
}

/// A store that holds some task with the id `id` has a first one.
pub proof fn lemma_has_first(tasks: Seq<TaskModel>, id: u32)
    requires
        has_id(tasks, id),
    ensures
        is_first_with_id(tasks, id, first_with_id(tasks, id)),
{
    let k = choose|k: int| 0 <= k < tasks.len() && #[trigger] tasks[k].id == id;
    lemma_first_at_or_below(tasks, id, k);
}

/// A task with the id `id` at `k` means that a first one stands at or before `k`.
proof fn lemma_first_at_or_below(tasks: Seq<TaskModel>, id: u32, k: int)
    requires
        0 <= k < tasks.len(),
        tasks[k].id == id,
    ensures
        exists|i: int| is_first_with_id(tasks, id, i),
    decreases k,
{
    if exists|j: int| 0 <= j < k && #[trigger] tasks[j].id == id {
        let j = choose|j: int| 0 <= j < k && #[trigger] tasks[j].id == id;
        lemma_first_at_or_below(tasks, id, j);
    } else {
        assert(is_first_with_id(tasks, id, k));
    }
}

/// Replacing one task replaces its model.
proof fn lemma_view_of_update(tasks: Seq<Task>, i: int, t: Task)
    requires
        0 <= i < tasks.len(),
    ensures
        tasks_view(tasks.update(i, t)) == tasks_view(tasks).update(i, t@),
{
    assert(tasks_view(tasks.update(i, t)) =~= tasks_view(tasks).update(i, t@));
}

impl Task {
    /// Whether a task of `task_file` blocks this one.
    pub fn has_dependencies(&self, task_file: &TaskFile) -> (r: bool)
        ensures
            r == is_blocked(self@, task_file@.tasks),
    {
        match &self.depends {
            Some(dependencies) => {
                let mut i: usize = 0;
                while i < task_file.tasks.len()
                    invariant
                        0 <= i <= task_file.tasks.len(),
                        self.depends == Some(*dependencies),
                        forall|k: int| 0 <= k < i ==> !dependencies@.contains(#[trigger] task_file@.tasks[k].id),
                    decreases task_file.tasks.len() - i,
                {
                    let id = task_file.tasks[i].id;
                    assert(id == task_file@.tasks[i as int].id);
                    let mut j: usize = 0;
                    while j < dependencies.len()
                        invariant
                            0 <= j <= dependencies.len(),
                            0 <= i < task_file.tasks.len(),
                            self.depends == Some(*dependencies),
                            id == task_file@.tasks[i as int].id,
                            forall|m: int| 0 <= m < j ==> dependencies@[m] != id,
                        decreases dependencies.len() - j,
                    {
                        if dependencies[j] == id {
                            assert(dependencies@[j as int] == id);
                            assert(dependencies@.contains(task_file@.tasks[i as int].id));
                            return true;
                        }
                        j += 1;
                    }
                    assert(!dependencies@.contains(id));
                    i += 1;
                }
                false
            },
            None => false,
        }
    }
}

impl TaskFile {
    /// A fresh store: version 1, counter 0, no tasks.
    pub fn new() -> (r: TaskFile)
        ensures
            r@.version == 1,
            r@.counter == 0,
            r@.tasks.len() == 0,
    {
        TaskFile { version: 1, counter: 0, tasks: Vec::new() }
    }

    /// The first task with the id `task_id`, if any, to be changed in place.
    pub fn task_for_id(&mut self, task_id: &u32) -> (r: Option<&mut Task>)
        ensures
            match r {
                Some(t) => {
                    &&& has_id(old(self)@.tasks, *task_id)
                    &&& t@ == old(self)@.tasks[first_with_id(old(self)@.tasks, *task_id)]
                    &&& final(self)@ == (TaskFileModel {
                        tasks: old(self)@.tasks.update(first_with_id(old(self)@.tasks, *task_id), final(t)@),
                        ..old(self)@
                    })
                },
                None => !has_id(old(self)@.tasks, *task_id) && final(self)@ == old(self)@,
            },
    {
        match self.position_of(*task_id) {
            Some(i) => {
                proof {
                    lemma_first_with_id(self@.tasks, *task_id, i as int);
                }
                let ghost before = self.tasks@;
                let t = &mut self.tasks[i];
                proof {
                    lemma_view_of_update(before, i as int, *final(t));
                }
                Some(t)
            },
            None => None,
        }
    }

    /// The position of the first task with the id `task_id`, if any.
    pub fn position_of(&self, task_id: u32) -> (r: Option<usize>)
        ensures
            match r {
                Some(i) => is_first_with_id(self@.tasks, task_id, i as int),
                None => !has_id(self@.tasks, task_id),
            },
    {
        let mut i: usize = 0;
        while i < self.tasks.len()
            invariant
                0 <= i <= self.tasks.len(),
                forall|k: int| 0 <= k < i ==> #[trigger] self@.tasks[k].id != task_id,
            decreases self.tasks.len() - i,
        {
            if self.tasks[i].id == task_id {
                return Some(i);
            }
            i += 1;
        }
        None
    }
}

} // verus!
