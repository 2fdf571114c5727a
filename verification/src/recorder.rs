//! The background consumer: the event loop that drains the channel,
//! builds frame trees, and ends naturally when every sender is gone;
//! and the producer side's hand-off into the channel.

use crate::builder::{
    lemma_frame_numbering, lemma_run_snoc, opt_seq, spec_run, TreeBuilder,
};
use crate::event::{Event, EventView, TaskRecord};
use crate::label::spec_frame_label;
use crate::lifecycle::ProfileError;
use crate::task::{tasks_view, TaskData};
use vstd::prelude::*;

verus! {

broadcast use vstd::std_specs::vec::group_vec_axioms, crate::task::lemma_tasks_view_push;

/// flume's sending half, opaque to the verifier.
#[verifier::external_type_specification]
#[verifier::external_body]
#[verifier::reject_recursive_types(T)]
pub struct ExSender<T>(flume::Sender<T>);

/// flume's receiving half, opaque to the verifier.
#[verifier::external_type_specification]
#[verifier::external_body]
#[verifier::reject_recursive_types(T)]
pub struct ExReceiver<T>(flume::Receiver<T>);

/// Relies on flume::Sender::send: enqueues the message — never
/// blocking on an unbounded channel — and fails exactly when every
/// receiver is dropped. Nothing more can be stated of the shared
/// channel's state.
#[verifier::external_body]
fn send_event(tx: &flume::Sender<Event>, e: Event) -> (ok: bool) {
    tx.send(e).is_ok()
}

/// Relies on flume::Receiver::recv: blocks for the next message, and
/// returns nothing exactly when every sender is dropped and the queue
/// is drained — the shutdown signal. Which message arrives cannot be
/// stated: it depends on the producers.
#[verifier::external_body]
fn recv_event(rx: &flume::Receiver<Event>) -> (r: Option<Event>) {
    rx.recv().ok()
}

/// Opens a task scope on the producer side: announces the task's
/// start to the tree builder and returns the guard that times it.
/// Returns nothing if recording has shut down (the consumer is gone);
/// the caller decides whether that is fatal.
pub fn announce_task(tx: &flume::Sender<Event>, name: String, now_ns: u64) -> (r: Option<
    TaskRecord,
>)
    ensures
        r matches Some(g) ==> g.start_ns == now_ns,
{
    if send_event(tx, Event::TaskStart { name }) {
        Some(TaskRecord::begin(now_ns))
    } else {
        None
    }
}

/// Hands a guard's End event to the tree builder. Returns whether the
/// consumer was still there to take it.
pub fn announce_end(tx: &flume::Sender<Event>, record: TaskRecord, now_ns: u64) -> (ok: bool) {
    send_event(tx, record.finish(now_ns))
}

/// What a recording session's drain produced: the completed frames,
/// in completion order, and the violation to report if the channel
/// closed while tasks were still open (starts without matching ends).
pub struct RecorderOutcome {
    pub frames: Vec<TaskData>,
    pub violation: Option<ProfileError>,
}

/// Runs the tree builder over the channel until every sender is
/// dropped: the background worker's event loop.
///
/// The frames returned are exactly what the builder emits for the
/// events received, in order — no frame completed by a received
/// event is dropped — and they are named "Frame #1", "Frame #2", ...
/// sequentially. A close mid-frame is reported as a protocol
/// violation, never ignored.
pub fn run_recorder(rx: &flume::Receiver<Event>) -> (out: RecorderOutcome)
    ensures
        exists|es: Seq<EventView>|
            {
                &&& tasks_view(out.frames@) == (#[trigger] spec_run(es)).1
                &&& (out.violation is None <==> spec_run(es).0.open.len() == 1)
            },
        out.violation is Some ==> out.violation == Some(ProfileError::ProtocolViolation),
        forall|i: int|
            0 <= i < out.frames@.len() ==> (#[trigger] out.frames@[i])@.name == spec_frame_label(
                (i + 1) as nat,
            ),
{
    let mut builder = TreeBuilder::new();
    let mut frames: Vec<TaskData> = Vec::new();
    let ghost mut events: Seq<EventView> = Seq::empty();
    let mut seen: u64 = 0;
    proof {
        assert(tasks_view(frames@) =~= Seq::empty());
    }
    loop
        invariant
            builder.wf(),
            builder@ == spec_run(events).0,
            tasks_view(frames@) == spec_run(events).1,
        ensures
            builder.wf(),
            builder@ == spec_run(events).0,
            tasks_view(frames@) == spec_run(events).1,
        decreases u64::MAX - seen,
    {
        if seen == u64::MAX {
            // The event counter is exhausted; recording cannot go on.
            break ;
        }
        match recv_event(rx) {
            None => {
                break ;
            },
            Some(e) => {
                seen = seen + 1;
                if builder.frames_done() == u64::MAX {
                    // The frame counter is exhausted: recording cannot
                    // continue with fresh sequential names.
                    break ;
                }
                proof {
                    lemma_run_snoc(events, e@);
                }
                let completed = builder.process(e);
                proof {
                    events = events.push(e@);
                }
                match completed {
                    Some(f) => {
                        proof {
                            assert(tasks_view(frames@).push(f@) =~= tasks_view(frames@) + opt_seq(
                                Some(f@),
                            ));
                        }
                        frames.push(f);
                    },
                    None => {
                        proof {
                            assert(tasks_view(frames@) + opt_seq(None) =~= tasks_view(frames@));
                        }
                    },
                }
            },
        }
    }
    let violation = if builder.mid_frame() {
        Some(ProfileError::ProtocolViolation)
    } else {
        None
    };
    proof {
        lemma_frame_numbering(events);
        assert forall|i: int| 0 <= i < frames@.len() implies (#[trigger] frames@[i])@.name
            == spec_frame_label((i + 1) as nat) by {
            assert(tasks_view(frames@)[i] == frames@[i]@);
            assert(spec_run(events).1[i] == tasks_view(frames@)[i]);
        }
    }
    RecorderOutcome { frames, violation }
}

} // verus!
