//! The recording session: guards, the channel drain, the lifecycle,
//! and the viewer model.

use wtf::event::TaskRecord;
use wtf::lifecycle::take_handle;
use wtf::profile::{over_budget, ProfileData, FRAME_BUDGET_NS};
use wtf::recorder::{announce_end, announce_task, run_recorder};
use wtf::task::TaskData;
use wtf::{Event, Frame, FrameData, Lifecycle, ProfileError, TaskObject};

fn leaf(name: &str, duration: u64) -> TaskData {
    TaskData { name: String::from(name), duration, subtasks: Vec::new() }
}

#[test]
fn drain_keeps_every_frame_enqueued_before_shutdown() {
    let (tx, rx) = flume::unbounded::<Event>();
    // Two complete frames, enqueued strictly before shutdown.
    tx.send(Event::TaskStart { name: String::from("update") }).unwrap();
    tx.send(Event::TaskEnd { elapsed_ns: 5 }).unwrap();
    tx.send(Event::TaskEnd { elapsed_ns: 9 }).unwrap();
    tx.send(Event::TaskEnd { elapsed_ns: 2 }).unwrap();
    // Shutdown: the send side closes; the consumer drains what is
    // queued and then stops.
    drop(tx);
    let out = run_recorder(&rx);
    assert!(out.violation.is_none());
    assert_eq!(out.frames.len(), 2);
    assert_eq!(out.frames[0].name, "Frame #1");
    assert_eq!(out.frames[0].duration, 9);
    assert_eq!(out.frames[0].subtasks.len(), 1);
    assert_eq!(out.frames[0].subtasks[0].name, "update");
    assert_eq!(out.frames[0].subtasks[0].duration, 5);
    assert_eq!(out.frames[1].name, "Frame #2");
    assert_eq!(out.frames[1].duration, 2);
    assert!(out.frames[1].subtasks.is_empty());
}

#[test]
fn close_mid_frame_is_a_protocol_violation() {
    let (tx, rx) = flume::unbounded::<Event>();
    tx.send(Event::TaskEnd { elapsed_ns: 4 }).unwrap();
    tx.send(Event::TaskStart { name: String::from("unfinished") }).unwrap();
    drop(tx);
    let out = run_recorder(&rx);
    assert!(matches!(out.violation, Some(ProfileError::ProtocolViolation)));
    // The frame completed before the violation is still there.
    assert_eq!(out.frames.len(), 1);
    assert_eq!(out.frames[0].name, "Frame #1");
}

#[test]
fn guards_time_their_scope() {
    let (tx, rx) = flume::unbounded::<Event>();
    let guard = announce_task(&tx, String::from("work"), 100).expect("consumer is alive");
    assert!(announce_end(&tx, guard, 250));
    tx.send(Event::TaskEnd { elapsed_ns: 300 }).unwrap();
    drop(tx);
    let out = run_recorder(&rx);
    assert!(out.violation.is_none());
    assert_eq!(out.frames[0].subtasks[0].name, "work");
    assert_eq!(out.frames[0].subtasks[0].duration, 150);
}

#[test]
fn announcing_after_the_consumer_is_gone_fails() {
    let (tx, rx) = flume::unbounded::<Event>();
    drop(rx);
    assert!(announce_task(&tx, String::from("late"), 0).is_none());
    let record = TaskRecord::begin(10);
    assert!(!announce_end(&tx, record, 20));
}

#[test]
fn guard_elapsed_never_underflows() {
    let record = TaskRecord::begin(500);
    match record.finish(400) {
        Event::TaskEnd { elapsed_ns } => assert_eq!(elapsed_ns, 0),
        Event::TaskStart { .. } => panic!("a finished record is an End event"),
    }
}

#[test]
fn lifecycle_starts_once_and_stays_finished() {
    let mut lc = Lifecycle::new();
    assert!(!lc.is_running());
    assert!(lc.ensure_started());
    assert!(lc.is_running());
    assert!(!lc.ensure_started());
    assert!(lc.is_running());
    assert!(lc.shutdown().is_ok());
    assert!(lc.is_finished());
    assert!(!lc.ensure_started());
    assert!(lc.is_finished());
    assert!(!lc.is_running());
}

#[test]
fn double_shutdown_rejected() {
    let mut lc = Lifecycle::new();
    lc.ensure_started();
    assert!(lc.shutdown().is_ok());
    match lc.shutdown() {
        Err(ProfileError::DoubleShutdown) => {},
        _ => panic!("a second shutdown must fail loudly"),
    }
    // And the state is untouched: still finished, not restarted.
    assert!(lc.is_finished());
}

#[test]
fn take_handle_is_exactly_once() {
    let mut slot: Option<u32> = Some(42);
    assert_eq!(take_handle(&mut slot).unwrap(), 42);
    assert!(slot.is_none());
    match take_handle(&mut slot) {
        Err(ProfileError::DoubleShutdown) => {},
        _ => panic!("a second take must fail loudly"),
    }
}

#[test]
fn over_budget_threshold_is_strict() {
    assert!(!over_budget(0));
    assert!(!over_budget(FRAME_BUDGET_NS));
    assert!(over_budget(FRAME_BUDGET_NS + 1));
}

#[test]
fn profile_data_splits_frames() {
    let frames = vec![
        TaskData {
            name: String::from("Frame #1"),
            duration: 10,
            subtasks: vec![leaf("a", 1), leaf("b", 2)],
        },
        TaskData { name: String::from("Frame #2"), duration: 20, subtasks: Vec::new() },
    ];
    let profile = ProfileData::from_frames(frames);
    assert_eq!(profile.frames.len(), 2);
    assert_eq!(profile.frames[0].duration, 10);
    assert_eq!(profile.frames[0].tasks.len(), 2);
    assert_eq!(profile.frames[0].tasks[1].name, "b");
    assert_eq!(profile.frames[1].duration, 20);
    assert!(profile.frames[1].tasks.is_empty());
}

#[test]
fn task_object_hands_back_its_task() {
    let obj = TaskObject::new(leaf("held", 7));
    assert_eq!(obj.get().name, "held");
    assert_eq!(obj.get().duration, 7);
}

#[test]
fn frame_widget_state_shows_what_was_set() {
    let mut f = Frame::new();
    assert!(f.data.is_none());
    f.set_data(Some(FrameData { duration: 5, tasks: Vec::new() }));
    assert_eq!(f.data.as_ref().unwrap().duration, 5);
    f.set_data(None);
    assert!(f.data.is_none());
}
