//! Events carried from scope guards to the tree builder, and the
//! guards' timing records.

use vstd::prelude::*;

verus! {

/// A message from a scope guard to the tree builder.
///
/// A task guard enqueues `TaskStart` when it is created; every guard
/// (task or frame) enqueues `TaskEnd` when it is released. A frame
/// guard enqueues no start: a frame is implicitly the root of the tree
/// for its recording cycle.
pub enum Event {
    TaskStart { name: String },
    TaskEnd { elapsed_ns: u64 },
}

/// The mathematical shape of an event.
#[verifier::ext_equal]
pub enum EventView {
    Start(Seq<char>),
    End(u64),
}

impl View for Event {
    type V = EventView;

    open spec fn view(&self) -> EventView {
        match self {
            Event::TaskStart { name } => EventView::Start(name@),
            Event::TaskEnd { elapsed_ns } => EventView::End(*elapsed_ns),
        }
    }
}

/// The elapsed time from clock reading `start_ns` to clock reading
/// `now_ns`, zero if the clock did not advance.
pub open spec fn spec_elapsed(start_ns: u64, now_ns: u64) -> u64 {
    if now_ns >= start_ns {
        (now_ns - start_ns) as u64
    } else {
        0
    }
}

/// A scope guard's timing record: the reading of a monotonic
/// nanosecond clock at the moment its task started.
///
/// Closing the record consumes it, so the task it brackets can be
/// ended exactly once through it.
pub struct TaskRecord {
    pub start_ns: u64,
}

impl TaskRecord {
    /// Opens a record at clock reading `now_ns`.
    pub fn begin(now_ns: u64) -> (r: TaskRecord)
        ensures
            r.start_ns == now_ns,
    {
        TaskRecord { start_ns: now_ns }
    }

    /// Closes the record at clock reading `now_ns`, yielding the End
    /// event that reports the elapsed time.
    pub fn finish(self, now_ns: u64) -> (e: Event)
        ensures
            e@ == EventView::End(spec_elapsed(self.start_ns, now_ns)),
    {
        let elapsed_ns = if now_ns >= self.start_ns {
            now_ns - self.start_ns
        } else {
            0
        };
        Event::TaskEnd { elapsed_ns }
    }
}

} // verus!
