//! The task tree: a named, timed unit of work with nested subtasks.
//!
//! A frame is simply a task at tree depth 0, named after a sequential
//! frame counter. Durations are counts of nanoseconds; the order of
//! `subtasks` reflects start order.

use vstd::prelude::*;

verus! {

broadcast use vstd::std_specs::vec::group_vec_axioms;

/// A named, timed unit of work that may contain nested sub-tasks.
///
/// `duration` is a count of nanoseconds.
#[derive(Debug)]
pub struct TaskData {
    pub name: String,
    pub duration: u64,
    pub subtasks: Vec<TaskData>,
}

/// The mathematical shape of a task tree: what the contracts of this
/// crate speak about.
#[verifier::ext_equal]
pub struct TaskView {
    pub name: Seq<char>,
    pub duration: u64,
    pub subtasks: Seq<TaskView>,
}

/// The view of a task tree, recursively.
pub open spec fn task_view(t: TaskData) -> TaskView
    decreases t, 0int, 0int,
{
    TaskView {
        name: t.name@,
        duration: t.duration,
        subtasks: task_views_from(t.subtasks, 0),
    }
}

/// The views of the tasks of `v` from index `i` on; a helper for
/// `task_view`, recursing directly on the vector so that termination
/// follows from the structure of the tree.
pub open spec fn task_views_from(v: Vec<TaskData>, i: int) -> Seq<TaskView>
    decreases v, 1int, v@.len() - i,
{
    if 0 <= i < v@.len() {
        seq![task_view(v[i])] + task_views_from(v, i + 1)
    } else {
        Seq::empty()
    }
}

impl View for TaskData {
    type V = TaskView;

    open spec fn view(&self) -> TaskView {
        task_view(*self)
    }
}

/// The views of a sequence of tasks, element by element.
pub open spec fn tasks_view(ts: Seq<TaskData>) -> Seq<TaskView> {
    Seq::new(ts.len(), |i: int| ts[i]@)
}

proof fn lemma_task_views_from(v: Vec<TaskData>, i: int)
    requires
        0 <= i <= v@.len(),
    ensures
        task_views_from(v, i) == tasks_view(v@).skip(i),
    decreases v@.len() - i,
{
    if i < v@.len() {
        lemma_task_views_from(v, i + 1);
    }
    assert(task_views_from(v, i) =~= tasks_view(v@).skip(i));
}

/// A task's view is its fields' views: its subtasks' views, element by
/// element.
pub broadcast proof fn lemma_task_view_fields(t: TaskData)
    ensures
        #[trigger] task_view(t).subtasks == tasks_view(t.subtasks@),
        task_view(t).subtasks.len() == t.subtasks@.len(),
        forall|j: int|
            0 <= j < t.subtasks@.len() ==> task_view(t).subtasks[j] == t.subtasks@[j]@,
{
    lemma_task_views_from(t.subtasks, 0);
    assert(tasks_view(t.subtasks@).skip(0) =~= tasks_view(t.subtasks@));
}

/// Appending a task appends its view.
pub broadcast proof fn lemma_tasks_view_push(ts: Seq<TaskData>, t: TaskData)
    ensures
        #[trigger] tasks_view(ts.push(t)) == tasks_view(ts).push(t@),
{
    assert(tasks_view(ts.push(t)) =~= tasks_view(ts).push(t@));
}

} // verus!
