//! The tree builder: nesting, empty frames, sequential numbering.

use wtf::builder::TreeBuilder;
use wtf::task::TaskData;
use wtf::Event;

fn start(name: &str) -> Event {
    Event::TaskStart { name: String::from(name) }
}

fn end(elapsed_ns: u64) -> Event {
    Event::TaskEnd { elapsed_ns }
}

fn task_eq(a: &TaskData, b: &TaskData) -> bool {
    a.name == b.name && a.duration == b.duration && a.subtasks.len() == b.subtasks.len()
        && a.subtasks.iter().zip(b.subtasks.iter()).all(|(x, y)| task_eq(x, y))
}

fn leaf(name: &str, duration: u64) -> TaskData {
    TaskData { name: String::from(name), duration, subtasks: Vec::new() }
}

fn node(name: &str, duration: u64, subtasks: Vec<TaskData>) -> TaskData {
    TaskData { name: String::from(name), duration, subtasks }
}

#[test]
fn nesting_mirrors_call_order() {
    let mut b = TreeBuilder::new();
    assert!(b.process(start("update")).is_none());
    assert!(b.process(start("physics")).is_none());
    assert!(b.process(end(5_000_000)).is_none());
    assert!(b.process(end(12_000_000)).is_none());
    let frame = b.process(end(12_000_000)).expect("frame should complete");
    let expected = node(
        "Frame #1",
        12_000_000,
        vec![node("update", 12_000_000, vec![leaf("physics", 5_000_000)])],
    );
    assert!(task_eq(&frame, &expected));
}

#[test]
fn siblings_keep_start_order() {
    let mut b = TreeBuilder::new();
    b.process(start("first"));
    b.process(end(1));
    b.process(start("second"));
    b.process(end(2));
    b.process(start("third"));
    b.process(end(3));
    let frame = b.process(end(10)).expect("frame should complete");
    assert_eq!(frame.subtasks.len(), 3);
    assert_eq!(frame.subtasks[0].name, "first");
    assert_eq!(frame.subtasks[1].name, "second");
    assert_eq!(frame.subtasks[2].name, "third");
    assert_eq!(frame.subtasks[0].duration, 1);
    assert_eq!(frame.subtasks[1].duration, 2);
    assert_eq!(frame.subtasks[2].duration, 3);
}

#[test]
fn empty_frame() {
    let mut b = TreeBuilder::new();
    let frame = b.process(end(2_000_000)).expect("frame should complete");
    assert_eq!(frame.name, "Frame #1");
    assert_eq!(frame.duration, 2_000_000);
    assert!(frame.subtasks.is_empty());
}

#[test]
fn sequential_frame_numbering() {
    let mut b = TreeBuilder::new();
    let mut names = Vec::new();
    for i in 0..12u64 {
        b.process(start("work"));
        b.process(end(i));
        let frame = b.process(end(i + 1)).expect("frame should complete");
        names.push(frame.name);
    }
    assert_eq!(names[0], "Frame #1");
    assert_eq!(names[8], "Frame #9");
    assert_eq!(names[9], "Frame #10");
    assert_eq!(names[10], "Frame #11");
    assert_eq!(names[11], "Frame #12");
}

#[test]
fn frames_done_counts_completions() {
    let mut b = TreeBuilder::new();
    assert_eq!(b.frames_done(), 0);
    assert!(!b.mid_frame());
    b.process(start("a"));
    assert!(b.mid_frame());
    b.process(end(1));
    assert!(!b.mid_frame());
    b.process(end(2));
    assert_eq!(b.frames_done(), 1);
    b.process(end(3));
    assert_eq!(b.frames_done(), 2);
}

#[test]
fn duration_zero_is_kept() {
    let mut b = TreeBuilder::new();
    b.process(start("instant"));
    b.process(end(0));
    let frame = b.process(end(0)).expect("frame should complete");
    assert_eq!(frame.duration, 0);
    assert_eq!(frame.subtasks[0].duration, 0);
}
