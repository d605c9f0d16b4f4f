//! Tasks as the views read them, and the ordered map of tasks by uuid that
//! the task store hands out (an `indexmap::IndexMap`).
use indexmap::IndexMap;
use vstd::prelude::*;
use crate::text::string_views;

verus! {

/// A task, with the fields that the views read.
pub struct Task {
    /// The working-set number of the task.
    pub id: u64,
    pub uuid: String,
    pub description: String,
    pub tags: Option<Vec<String>>,
    pub project: Option<String>,
    /// When the task was started, if it runs.
    pub start: Option<String>,
}

/// The mathematical value of a task.
pub struct TaskView {
    pub id: u64,
    pub uuid: Seq<char>,
    pub description: Seq<char>,
    pub tags: Option<Seq<Seq<char>>>,
    pub project: Option<Seq<char>>,
    pub start: Option<Seq<char>>,
}

/// The view of an optional text.
pub open spec fn opt_view(o: Option<String>) -> Option<Seq<char>> {
    match o {
        Some(s) => Some(s@),
        None => None,
    }
}

/// The view of an optional list of texts.
pub open spec fn opt_views(o: Option<Vec<String>>) -> Option<Seq<Seq<char>>> {
    match o {
        Some(v) => Some(string_views(v@)),
        None => None,
    }
}

impl View for Task {
    type V = TaskView;

    open spec fn view(&self) -> TaskView {
        TaskView {
            id: self.id,
            uuid: self.uuid@,
            description: self.description@,
            tags: opt_views(self.tags),
            project: opt_view(self.project),
            start: opt_view(self.start),
        }
    }
}

/// A copy of an optional text.
pub fn copy_opt(o: &Option<String>) -> (r: Option<String>)
    ensures
        opt_view(r) == opt_view(*o),
{
    match o {
        Some(s) => Some(s.clone()),
        None => None,
    }
}

/// A copy of a list of texts.
pub fn copy_strings(v: &Vec<String>) -> (r: Vec<String>)
    ensures
        string_views(r@) == string_views(v@),
{
    let mut r: Vec<String> = Vec::new();
    let mut i: usize = 0;
    while i < v.len()
        invariant
            i <= v@.len(),
            r@.len() == i,
            string_views(r@) == string_views(v@).take(i as int),
        decreases v@.len() - i,
    {
        let ghost before = r@;
        let c = v[i].clone();
        assert(c@ == v@[i as int]@);
        r.push(c);
        assert(r@ == before.push(c));
        assert(string_views(r@) =~= string_views(v@).take(i + 1)) by {
            assert forall|j: int| 0 <= j < i + 1 implies #[trigger] string_views(r@)[j] == string_views(v@).take(i + 1)[j] by {
                if j < i {
                    assert(string_views(before)[j] == string_views(v@).take(i as int)[j]);
                }
            }
        }
        i = i + 1;
    }
    assert(string_views(v@).take(v@.len() as int) =~= string_views(v@));
    r
}

impl Task {
    /// A copy of the task.
    pub fn duplicate(&self) -> (t: Task)
        ensures
            t@ == self@,
    {
        let tags = match &self.tags {
            Some(v) => Some(copy_strings(v)),
            None => None,
        };
        Task {
            id: self.id,
            uuid: self.uuid.clone(),
            description: self.description.clone(),
            tags,
            project: copy_opt(&self.project),
            start: copy_opt(&self.start),
        }
    }
}

#[verifier::external_type_specification]
#[verifier::external_body]
#[verifier::reject_recursive_types(K)]
#[verifier::reject_recursive_types(V)]
#[verifier::reject_recursive_types(S)]
pub struct ExIndexMap<K, V, S>(IndexMap<K, V, S>);

/// The entries of a map of tasks, in the map's order: each key with the view
/// of its task.
pub uninterp spec fn task_entries(m: IndexMap<String, Task>) -> Seq<(Seq<char>, TaskView)>;

/// The tasks of the entries, in order.
pub open spec fn entry_tasks(e: Seq<(Seq<char>, TaskView)>) -> Seq<TaskView> {
    e.map_values(|p: (Seq<char>, TaskView)| p.1)
}

/// Calls `IndexMap::len`: the number of entries.
#[verifier::external_body]
pub(crate) fn task_count(m: &IndexMap<String, Task>) -> (n: usize)
    ensures
        n == task_entries(*m).len(),
{
    m.len()
}

/// Calls `IndexMap::get_index`: the entry at position `i` in the map's order,
/// or `None` past the last one.
#[verifier::external_body]
pub(crate) fn task_at(m: &IndexMap<String, Task>, i: usize) -> (r: Option<(&String, &Task)>)
    ensures
        match r {
            Some(e) => i < task_entries(*m).len() && task_entries(*m)[i as int] == (e.0@, e.1@),
            None => i >= task_entries(*m).len(),
        },
{
    m.get_index(i)
}

/// Assigns through `IndexMut<usize>` of `IndexMap`: the task at position `i`
/// becomes `t`; keys, order and the other entries stay.
#[verifier::external_body]
pub(crate) fn replace_task_at(m: &mut IndexMap<String, Task>, i: usize, t: Task)
    requires
        i < task_entries(*old(m)).len(),
    ensures
        task_entries(*final(m)) == task_entries(*old(m)).update(
            i as int,
            (task_entries(*old(m))[i as int].0, t@),
        ),
{
    m[i] = t;
}

/// Whether the task runs.
pub open spec fn is_active(t: TaskView) -> bool {
    t.start is Some
}

/// The first running task of the map, with its key (as the front page and
/// the task list show it), or `None` when no task runs.
pub fn find_active_task(tasks: &IndexMap<String, Task>) -> (r: Option<(&String, &Task)>)
    ensures
        match r {
            Some(e) => exists|i: int|
                0 <= i < task_entries(*tasks).len() && task_entries(*tasks)[i] == (e.0@, e.1@)
                    && is_active(e.1@) && forall|j: int|
                    0 <= j < i ==> !is_active(#[trigger] task_entries(*tasks)[j].1),
            None => forall|j: int|
                0 <= j < task_entries(*tasks).len() ==> !is_active(#[trigger] task_entries(*tasks)[j].1),
        },
{
    let n = task_count(tasks);
    let mut i: usize = 0;
    while i < n
        invariant
            n == task_entries(*tasks).len(),
            i <= n,
            forall|j: int| 0 <= j < i ==> !is_active(#[trigger] task_entries(*tasks)[j].1),
        decreases n - i,
    {
        match task_at(tasks, i) {
            Some(e) => {
                if e.1.start.is_some() {
                    return Some(e);
                }
            },
            None => {},
        }
        i = i + 1;
    }
    None
}

} // verus!
