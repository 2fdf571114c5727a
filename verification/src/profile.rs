//! The viewer-facing shape of a stored profile: plain data that the
//! presentation layer reads, and its over-budget predicate.

use crate::task::{tasks_view, TaskData};
use vstd::prelude::*;

verus! {

broadcast use vstd::std_specs::vec::group_vec_axioms, crate::task::lemma_task_view_fields;

/// The frame budget in nanoseconds: one sixtieth of a second. Tasks
/// longer than this are flagged as over budget.
pub const FRAME_BUDGET_NS: u64 = 16666670;

/// Whether a task of duration `duration_ns` is over the frame budget.
pub fn over_budget(duration_ns: u64) -> (r: bool)
    ensures
        r == (duration_ns > FRAME_BUDGET_NS),
{
    duration_ns > FRAME_BUDGET_NS
}

/// One frame as the viewer reads it: its duration beside its
/// top-level tasks.
#[derive(Debug)]
pub struct FrameData {
    pub duration: u64,
    pub tasks: Vec<TaskData>,
}

/// A stored profile: its frames in completion order.
pub struct ProfileData {
    pub frames: Vec<FrameData>,
}

impl ProfileData {
    /// Splits decoded frame trees into the viewer's shape, frame by
    /// frame: each tree's duration beside its top-level tasks.
    pub fn from_frames(frames: Vec<TaskData>) -> (r: ProfileData)
        ensures
            r.frames@.len() == frames@.len(),
            forall|i: int|
                0 <= i < frames@.len() ==> {
                    &&& (#[trigger] r.frames@[i]).duration == frames@[i]@.duration
                    &&& tasks_view(r.frames@[i].tasks@) == frames@[i]@.subtasks
                },
    {
        let ghost orig = frames@;
        let mut rest = frames;
        let mut out: Vec<FrameData> = Vec::new();
        while rest.len() > 0
            invariant
                out@.len() + rest@.len() == orig.len(),
                rest@ == orig.skip(out@.len() as int),
                forall|i: int|
                    0 <= i < out@.len() ==> {
                        &&& (#[trigger] out@[i]).duration == orig[i]@.duration
                        &&& tasks_view(out@[i].tasks@) == orig[i]@.subtasks
                    },
            decreases rest@.len(),
        {
            let t = rest.remove(0);
            proof {
                assert(t == orig[out@.len() as int]);
                assert(rest@ =~= orig.skip(out@.len() + 1 as int));
            }
            out.push(FrameData { duration: t.duration, tasks: t.subtasks });
        }
        ProfileData { frames: out }
    }
}

/// A handle to one task's data, as the viewer's list models hold it.
pub struct TaskObject {
    pub data: TaskData,
}

impl TaskObject {
    /// Wraps one task's data.
    pub fn new(data: TaskData) -> (r: TaskObject)
        ensures
            r.data == data,
    {
        TaskObject { data }
    }

    /// The task held.
    pub fn get(&self) -> (r: &TaskData)
        ensures
            r == &self.data,
    {
        &self.data
    }
}

/// The state behind one frame bar of the timeline: the frame it
/// shows, if any.
pub struct Frame {
    pub data: Option<FrameData>,
}

impl Frame {
    /// A bar showing nothing yet.
    pub fn new() -> (r: Frame)
        ensures
            r.data is None,
    {
        Frame { data: None }
    }

    /// Shows `data` in this bar.
    pub fn set_data(&mut self, data: Option<FrameData>)
        ensures
            final(self).data == data,
    {
        self.data = data;
    }
}

} // verus!
