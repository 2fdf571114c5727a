//! The tree builder: reconstructs nested task trees from the flat
//! stream of start/end events, one completed frame at a time.

use crate::event::{Event, EventView};
use crate::label::{make_frame_label, spec_frame_label};
use crate::task::{tasks_view, TaskData, TaskView};
use vstd::prelude::*;

verus! {

broadcast use vstd::std_specs::vec::group_vec_axioms, crate::task::lemma_task_view_fields;

/// A still-open task: its name and the subtasks completed under it so
/// far. Its duration is unknown until its End event arrives.
pub struct OpenTask {
    pub name: String,
    pub subtasks: Vec<TaskData>,
}

/// The mathematical shape of a still-open task.
#[verifier::ext_equal]
pub struct OpenView {
    pub name: Seq<char>,
    pub subtasks: Seq<TaskView>,
}

impl View for OpenTask {
    type V = OpenView;

    open spec fn view(&self) -> OpenView {
        OpenView { name: self.name@, subtasks: tasks_view(self.subtasks@) }
    }
}

/// The parent stack and frame counter of a tree builder.
#[verifier::ext_equal]
pub struct BuilderView {
    pub open: Seq<OpenView>,
    pub frames_done: nat,
}

/// A frame with no recorded events yet: no name (it is named only on
/// completion) and no subtasks.
pub open spec fn fresh_open() -> OpenView {
    OpenView { name: Seq::empty(), subtasks: Seq::empty() }
}

/// The builder state at the start of a frame, after `frames_done`
/// completed frames: the parent stack holds only the frame root.
pub open spec fn spec_init(frames_done: nat) -> BuilderView {
    BuilderView { open: seq![fresh_open()], frames_done }
}

/// One step of the tree builder: the state after processing `e`, and
/// the frame completed by `e`, if any.
///
/// A Start opens a task under the innermost open task. An End closes
/// the innermost open task; if that was the frame root itself, the
/// frame is complete: it is given the next sequential name and emitted,
/// and the builder resets for the next frame.
pub open spec fn spec_step(s: BuilderView, e: EventView) -> (BuilderView, Option<TaskView>) {
    match e {
        EventView::Start(name) => (
            BuilderView { open: s.open.push(OpenView { name, subtasks: Seq::empty() }), ..s },
            None,
        ),
        EventView::End(d) => {
            if s.open.len() <= 1 {
                let subs = if s.open.len() == 1 {
                    s.open[0].subtasks
                } else {
                    Seq::empty()
                };
                let frame = TaskView {
                    name: spec_frame_label(s.frames_done + 1),
                    duration: d,
                    subtasks: subs,
                };
                (spec_init(s.frames_done + 1), Some(frame))
            } else {
                let top = s.open.last();
                let done = TaskView { name: top.name, duration: d, subtasks: top.subtasks };
                let parent = s.open[s.open.len() - 2];
                let open2 = s.open.take(s.open.len() - 2).push(
                    OpenView { name: parent.name, subtasks: parent.subtasks.push(done) },
                );
                (BuilderView { open: open2, ..s }, None)
            }
        },
    }
}

/// The tree builder. It consumes events in arrival order and emits a
/// completed frame tree whenever the parent stack returns to its base
/// depth.
pub struct TreeBuilder {
    open: Vec<OpenTask>,
    frames_done: u64,
}

impl View for TreeBuilder {
    type V = BuilderView;

    closed spec fn view(&self) -> BuilderView {
        BuilderView {
            open: Seq::new(self.open@.len(), |i: int| self.open@[i]@),
            frames_done: self.frames_done as nat,
        }
    }
}

impl TreeBuilder {
    /// The parent stack always holds at least the frame root.
    pub open spec fn wf(&self) -> bool {
        self@.open.len() >= 1
    }

    /// A builder ready for its first frame.
    pub fn new() -> (r: TreeBuilder)
        ensures
            r.wf(),
            r@ == spec_init(0),
    {
        let mut open: Vec<OpenTask> = Vec::new();
        open.push(OpenTask { name: String::new(), subtasks: Vec::new() });
        let r = TreeBuilder { open, frames_done: 0 };
        proof {
            assert(r@.open =~~= seq![fresh_open()]);
            assert(r@ =~= spec_init(0));
        }
        r
    }

    /// The number of frames completed so far.
    pub fn frames_done(&self) -> (r: u64)
        ensures
            r == self@.frames_done,
    {
        self.frames_done
    }

    /// Whether the current frame has tasks still open.
    pub fn mid_frame(&self) -> (r: bool)
        ensures
            r == (self@.open.len() > 1),
    {
        self.open.len() > 1
    }

    /// Processes one event, returning the frame it completed, if any.
    pub fn process(&mut self, e: Event) -> (completed: Option<TaskData>)
        requires
            old(self).wf(),
            old(self)@.frames_done < u64::MAX,
        ensures
            final(self).wf(),
            final(self)@ == spec_step(old(self)@, e@).0,
            (match completed {
                Some(t) => spec_step(old(self)@, e@).1 == Some(t@),
                None => spec_step(old(self)@, e@).1 is None,
            }),
    {
        match e {
            Event::TaskStart { name } => {
                self.open.push(OpenTask { name, subtasks: Vec::new() });
                proof {
                    assert(tasks_view(Seq::<TaskData>::empty()) =~= Seq::<TaskView>::empty());
                    assert(self@.open =~= spec_step(old(self)@, e@).0.open);
                    assert(self@ =~= spec_step(old(self)@, e@).0);
                }
                None
            },
            Event::TaskEnd { elapsed_ns } => {
                let top = self.open.pop().unwrap();
                if self.open.len() == 0 {
                    let name = make_frame_label(self.frames_done + 1);
                    self.frames_done = self.frames_done + 1;
                    self.open.push(OpenTask { name: String::new(), subtasks: Vec::new() });
                    let frame = TaskData { name, duration: elapsed_ns, subtasks: top.subtasks };
                    proof {
                        assert(tasks_view(Seq::<TaskData>::empty()) =~= Seq::<TaskView>::empty());
                        assert(self@.open =~= seq![fresh_open()]);
                        assert(self@ =~= spec_step(old(self)@, e@).0);
                        assert(old(self)@.open[0].subtasks == tasks_view(top.subtasks@));
                        assert(frame@ =~= spec_step(old(self)@, e@).1.unwrap());
                    }
                    Some(frame)
                } else {
                    let mut parent = self.open.pop().unwrap();
                    let done = TaskData {
                        name: top.name,
                        duration: elapsed_ns,
                        subtasks: top.subtasks,
                    };
                    proof {
                        assert(done@ =~= spec_step(old(self)@, e@).0.open.last().subtasks.last());
                    }
                    parent.subtasks.push(done);
                    self.open.push(parent);
                    proof {
                        assert(self@.open =~~= spec_step(old(self)@, e@).0.open);
                        assert(self@ =~= spec_step(old(self)@, e@).0);
                    }
                    None
                }
            },
        }
    }
}

/// The frame a step emitted, as a sequence of zero or one frames.
pub open spec fn opt_seq(o: Option<TaskView>) -> Seq<TaskView> {
    match o {
        Some(t) => seq![t],
        None => Seq::empty(),
    }
}

/// The builder state and the emitted frames after processing `es`,
/// starting from state `s`.
pub open spec fn spec_run_from(s: BuilderView, es: Seq<EventView>) -> (BuilderView, Seq<TaskView>)
    decreases es.len(),
{
    if es.len() == 0 {
        (s, Seq::empty())
    } else {
        let (s1, out0) = spec_step(s, es[0]);
        let (s2, rest) = spec_run_from(s1, es.skip(1));
        (s2, opt_seq(out0) + rest)
    }
}

/// The builder state and the emitted frames after a fresh builder
/// processes `es`.
pub open spec fn spec_run(es: Seq<EventView>) -> (BuilderView, Seq<TaskView>) {
    spec_run_from(spec_init(0), es)
}

/// Processing `es1 + es2` is processing `es1`, then `es2` from the
/// state `es1` left behind; the emitted frames concatenate likewise.
pub proof fn lemma_run_from_concat(s: BuilderView, es1: Seq<EventView>, es2: Seq<EventView>)
    ensures
        spec_run_from(s, es1 + es2).0 == spec_run_from(spec_run_from(s, es1).0, es2).0,
        spec_run_from(s, es1 + es2).1 == spec_run_from(s, es1).1 + spec_run_from(
            spec_run_from(s, es1).0,
            es2,
        ).1,
    decreases es1.len(),
{
    if es1.len() == 0 {
        assert(es1 + es2 =~= es2);
        assert(spec_run_from(s, es1).1 + spec_run_from(s, es2).1 =~= spec_run_from(s, es2).1);
    } else {
        let s1 = spec_step(s, es1[0]).0;
        let out0 = spec_step(s, es1[0]).1;
        assert((es1 + es2)[0] == es1[0]);
        assert((es1 + es2).skip(1) =~= es1.skip(1) + es2);
        lemma_run_from_concat(s1, es1.skip(1), es2);
        assert(opt_seq(out0) + (spec_run_from(s1, es1.skip(1)).1 + spec_run_from(
            spec_run_from(s1, es1.skip(1)).0,
            es2,
        ).1) =~= (opt_seq(out0) + spec_run_from(s1, es1.skip(1)).1) + spec_run_from(
            spec_run_from(s1, es1.skip(1)).0,
            es2,
        ).1);
    }
}

/// The canonical event sequence of a task on a single logical call
/// stack: its Start, its subtasks' events in order, then its End.
pub open spec fn task_events(t: TaskView) -> Seq<EventView>
    decreases t, 0int,
{
    seq![EventView::Start(t.name)] + tasks_events(t.subtasks) + seq![EventView::End(t.duration)]
}

/// The canonical event sequences of the tasks of `ts`, in order.
pub open spec fn tasks_events(ts: Seq<TaskView>) -> Seq<EventView>
    decreases ts, 1int,
{
    if ts.len() == 0 {
        Seq::empty()
    } else {
        task_events(ts[0]) + tasks_events(ts.subrange(1, ts.len() as int))
    }
}

/// Replaying the events of one task attaches exactly that task as the
/// next child of the innermost open task, and emits no frame.
pub proof fn lemma_task_replay(s: BuilderView, t: TaskView)
    requires
        s.open.len() >= 1,
    ensures
        spec_run_from(s, task_events(t)).0 == (BuilderView {
            open: s.open.drop_last().push(
                OpenView {
                    name: s.open.last().name,
                    subtasks: s.open.last().subtasks.push(t),
                },
            ),
            frames_done: s.frames_done,
        }),
        spec_run_from(s, task_events(t)).1 == Seq::<TaskView>::empty(),
    decreases t, 0int,
{
    reveal_with_fuel(spec_run_from, 3);
    let start = seq![EventView::Start(t.name)];
    let mids = tasks_events(t.subtasks);
    let end = seq![EventView::End(t.duration)];
    assert(task_events(t) == start + mids + end);
    assert(task_events(t) =~= start + (mids + end));
    let s1 = spec_step(s, EventView::Start(t.name)).0;
    assert(spec_run_from(s, start).0 == s1 && spec_run_from(s, start).1
        == opt_seq(None) + Seq::<TaskView>::empty()) by {
        assert(start.skip(1) =~= Seq::<EventView>::empty());
    }
    lemma_run_from_concat(s, start, mids + end);
    lemma_run_from_concat(s1, mids, end);
    lemma_tasks_replay(s1, t.subtasks);
    let s2 = spec_run_from(s1, mids).0;
    assert(s2.open =~= s.open.push(OpenView { name: t.name, subtasks: t.subtasks })) by {
        assert(s1.open.last().subtasks + t.subtasks =~= t.subtasks);
        assert(s1.open.drop_last() =~= s.open);
    }
    let s3 = spec_run_from(s2, end).0;
    assert(end.skip(1) =~= Seq::<EventView>::empty());
    assert(s2.open.len() == s.open.len() + 1 >= 2);
    assert(s2.open.last() == OpenView { name: t.name, subtasks: t.subtasks });
    assert(s2.open[s2.open.len() - 2] == s.open.last());
    assert(s3.open =~= s.open.drop_last().push(
        OpenView {
            name: s.open.last().name,
            subtasks: s.open.last().subtasks.push(
                TaskView { name: t.name, duration: t.duration, subtasks: t.subtasks },
            ),
        },
    )) by {
        assert(s2.open.take(s2.open.len() - 2) =~= s.open.drop_last());
    }
    assert(TaskView { name: t.name, duration: t.duration, subtasks: t.subtasks } =~= t);
    assert(spec_run_from(s, task_events(t)).0 == s3);
    assert(spec_run_from(s2, end).1 =~= Seq::<TaskView>::empty());
    assert(spec_run_from(s, task_events(t)).1 =~= Seq::<TaskView>::empty());
}

/// Replaying the events of a list of tasks appends exactly those tasks,
/// in order, to the innermost open task, and emits no frame.
pub proof fn lemma_tasks_replay(s: BuilderView, ts: Seq<TaskView>)
    requires
        s.open.len() >= 1,
    ensures
        spec_run_from(s, tasks_events(ts)).0 == (BuilderView {
            open: s.open.drop_last().push(
                OpenView { name: s.open.last().name, subtasks: s.open.last().subtasks + ts },
            ),
            frames_done: s.frames_done,
        }),
        spec_run_from(s, tasks_events(ts)).1 == Seq::<TaskView>::empty(),
    decreases ts, 1int,
{
    if ts.len() == 0 {
        assert(s.open.last().subtasks + ts =~= s.open.last().subtasks);
        assert(s.open.drop_last().push(
            OpenView { name: s.open.last().name, subtasks: s.open.last().subtasks + ts },
        ) =~~= s.open);
    } else {
        let rest = ts.subrange(1, ts.len() as int);
        lemma_run_from_concat(s, task_events(ts[0]), tasks_events(rest));
        lemma_task_replay(s, ts[0]);
        let s1 = spec_run_from(s, task_events(ts[0])).0;
        lemma_tasks_replay(s1, rest);
        assert(s1.open.last().name == s.open.last().name);
        assert(s1.open.drop_last() =~= s.open.drop_last());
        assert(s.open.last().subtasks.push(ts[0]) + rest =~= s.open.last().subtasks + ts);
        assert(spec_run_from(s, tasks_events(ts)).1 =~= Seq::<TaskView>::empty());
    }
}

/// Nesting fidelity: for any well-nested sequence of start/end events
/// — the canonical events of the trees `ts` in call order, then the
/// frame's own End — the builder at the start of its `k + 1`-th frame
/// emits exactly one frame: named sequentially, with duration `d`, and
/// with exactly `ts` as its subtasks, so names, nesting depth and
/// child order mirror call order.
pub proof fn lemma_nesting_fidelity(k: nat, ts: Seq<TaskView>, d: u64)
    ensures
        spec_run_from(spec_init(k), tasks_events(ts) + seq![EventView::End(d)]).0 == spec_init(
            k + 1,
        ),
        spec_run_from(spec_init(k), tasks_events(ts) + seq![EventView::End(d)]).1 == seq![
            TaskView { name: spec_frame_label(k + 1), duration: d, subtasks: ts },
        ],
{
    reveal_with_fuel(spec_run_from, 3);
    let s = spec_init(k);
    let end = seq![EventView::End(d)];
    lemma_run_from_concat(s, tasks_events(ts), end);
    lemma_tasks_replay(s, ts);
    let s1 = spec_run_from(s, tasks_events(ts)).0;
    assert(s1.open =~= seq![OpenView { name: Seq::empty(), subtasks: ts }]) by {
        assert(Seq::<TaskView>::empty() + ts =~= ts);
        assert(s.open.drop_last() =~= Seq::<OpenView>::empty());
    }
    assert(end.skip(1) =~= Seq::<EventView>::empty());
    assert(spec_run_from(s1, end).0 == spec_init(k + 1));
    assert(spec_run_from(s, tasks_events(ts) + end).1 =~= seq![
        TaskView { name: spec_frame_label(k + 1), duration: d, subtasks: ts },
    ]);
}

proof fn lemma_numbering_from(s: BuilderView, es: Seq<EventView>)
    ensures
        spec_run_from(s, es).0.frames_done == s.frames_done + spec_run_from(s, es).1.len(),
        forall|i: int|
            0 <= i < spec_run_from(s, es).1.len() ==> (#[trigger] spec_run_from(s, es).1[i]).name
                == spec_frame_label((s.frames_done + 1 + i) as nat),
    decreases es.len(),
{
    if es.len() > 0 {
        let s1 = spec_step(s, es[0]).0;
        let out0 = spec_step(s, es[0]).1;
        lemma_numbering_from(s1, es.skip(1));
        let rest = spec_run_from(s1, es.skip(1)).1;
        let out = spec_run_from(s, es).1;
        assert(out == opt_seq(out0) + rest);
        assert forall|i: int| 0 <= i < out.len() implies (#[trigger] out[i]).name
            == spec_frame_label((s.frames_done + 1 + i) as nat) by {
            if out0 is Some {
                if i == 0 {
                    assert(out[0] == out0.unwrap());
                } else {
                    assert(out[i] == rest[i - 1]);
                }
            } else {
                assert(out[i] == rest[i]);
            }
        }
    }
}

/// Sequential frame numbering: the `i`-th frame a fresh builder emits
/// (counting from zero) is named for frame number `i + 1`, and the
/// frame counter equals the number of emitted frames, so numbers are
/// never reused within a run.
pub proof fn lemma_frame_numbering(es: Seq<EventView>)
    ensures
        spec_run(es).0.frames_done == spec_run(es).1.len(),
        forall|i: int|
            0 <= i < spec_run(es).1.len() ==> (#[trigger] spec_run(es).1[i]).name
                == spec_frame_label((i + 1) as nat),
{
    lemma_numbering_from(spec_init(0), es);
}

/// One more event: how the run over `es.push(x)` extends the run over
/// `es`. This is the shape of the consumer loop's step.
pub proof fn lemma_run_snoc(es: Seq<EventView>, x: EventView)
    ensures
        spec_run(es.push(x)).0 == spec_step(spec_run(es).0, x).0,
        spec_run(es.push(x)).1 == spec_run(es).1 + opt_seq(spec_step(spec_run(es).0, x).1),
{
    reveal_with_fuel(spec_run_from, 3);
    assert(es.push(x) =~= es + seq![x]);
    lemma_run_from_concat(spec_init(0), es, seq![x]);
    assert(seq![x].skip(1) =~= Seq::<EventView>::empty());
    assert(spec_run_from(spec_run(es).0, seq![x]).1 =~= opt_seq(
        spec_step(spec_run(es).0, x).1,
    ));
}

/// Drain before exit: the frames emitted for an event sequence are a
/// prefix of the frames emitted for any extension of it, so a frame
/// completed by events already enqueued is never lost by whatever
/// events follow.
pub proof fn lemma_run_monotone(es: Seq<EventView>, more: Seq<EventView>)
    ensures
        spec_run(es).1.is_prefix_of(spec_run(es + more).1),
{
    lemma_run_from_concat(spec_init(0), es, more);
    assert(spec_run(es).1 =~= spec_run(es + more).1.take(spec_run(es).1.len() as int));
}

} // verus!
