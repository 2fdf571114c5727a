//! The stored format: encode/decode round trips, truncation, and
//! malformed streams.

use wtf::codec::{decode_frames, encode_frames, encode_task};
use wtf::stream::{encode_profile, DecodeFailure};
use wtf::task::TaskData;
use wtf::read_profile_data;

fn leaf(name: &str, duration: u64) -> TaskData {
    TaskData { name: String::from(name), duration, subtasks: Vec::new() }
}

fn node(name: &str, duration: u64, subtasks: Vec<TaskData>) -> TaskData {
    TaskData { name: String::from(name), duration, subtasks }
}

fn task_eq(a: &TaskData, b: &TaskData) -> bool {
    a.name == b.name && a.duration == b.duration && a.subtasks.len() == b.subtasks.len()
        && a.subtasks.iter().zip(b.subtasks.iter()).all(|(x, y)| task_eq(x, y))
}

fn frames_eq(a: &[TaskData], b: &[TaskData]) -> bool {
    a.len() == b.len() && a.iter().zip(b.iter()).all(|(x, y)| task_eq(x, y))
}

fn sample_frames() -> Vec<TaskData> {
    vec![
        node(
            "Frame #1",
            12_000_000,
            vec![
                node("update", 7_000_000, vec![leaf("physics", 5_000_000), leaf("ai", 0)]),
                leaf("render", 4_000_000),
            ],
        ),
        node("Frame #2", u64::MAX, vec![leaf("", 1)]),
        node("Frame #3", 2_000_000, Vec::new()),
    ]
}

#[test]
fn profile_round_trip() {
    let frames = sample_frames();
    let stored = encode_profile(&frames);
    let back = read_profile_data(&stored).expect("a stored profile should decode");
    assert!(frames_eq(&back, &frames));
}

#[test]
fn empty_profile_round_trip() {
    let frames: Vec<TaskData> = Vec::new();
    let stored = encode_profile(&frames);
    let back = read_profile_data(&stored).expect("an empty profile should decode");
    assert!(back.is_empty());
}

#[test]
fn unicode_names_round_trip() {
    let frames = vec![node(
        "Frame #1",
        5,
        vec![leaf("поиск", 1), leaf("渲染", 2), leaf("naïve λ", 3)],
    )];
    let stored = encode_profile(&frames);
    let back = read_profile_data(&stored).expect("unicode names should decode");
    assert!(frames_eq(&back, &frames));
}

#[test]
fn deep_nesting_round_trip() {
    let mut t = leaf("innermost", 1);
    for i in 2..40u64 {
        t = node("layer", i, vec![t]);
    }
    let frames = vec![node("Frame #1", 40, vec![t])];
    let stored = encode_profile(&frames);
    let back = read_profile_data(&stored).expect("deep nesting should decode");
    assert!(frames_eq(&back, &frames));
}

#[test]
fn raw_records_round_trip() {
    let frames = sample_frames();
    let raw = encode_frames(&frames);
    let (back, clean) = decode_frames(&raw);
    assert!(clean);
    assert!(frames_eq(&back, &frames));
}

#[test]
fn truncated_mid_record_reports_earlier_frames() {
    let first = node("Frame #1", 3, vec![leaf("update", 2)]);
    let second = node("Frame #2", 4, vec![leaf("render", 1)]);
    let mut raw = encode_task(&first);
    let second_bytes = encode_task(&second);
    // Keep enough of the second record to get past its leading length
    // field, then cut it off inside.
    raw.extend_from_slice(&second_bytes[..second_bytes.len() - 5]);
    let (frames, clean) = decode_frames(&raw);
    assert!(!clean);
    assert_eq!(frames.len(), 1);
    assert!(task_eq(&frames[0], &first));
}

#[test]
fn truncated_leading_length_field_is_end_of_stream() {
    let first = node("Frame #1", 3, vec![leaf("update", 2)]);
    let mut raw = encode_task(&first);
    // Fewer bytes than the next record's leading length field needs:
    // the authoritative no-more-frames signal, not an error.
    raw.extend_from_slice(&[7, 7, 7]);
    let (frames, clean) = decode_frames(&raw);
    assert!(clean);
    assert_eq!(frames.len(), 1);
    assert!(task_eq(&frames[0], &first));
}

#[test]
fn truncated_compressed_profile_is_an_error() {
    let first = node("Frame #1", 3, vec![leaf("update", 2)]);
    let second = node("Frame #2", 4, Vec::new());
    let mut raw = encode_task(&first);
    let second_bytes = encode_task(&second);
    raw.extend_from_slice(&second_bytes[..second_bytes.len() - 5]);
    // Compress the truncated stream the way the writer would, so the
    // failure comes from the records, not the compression wrapper.
    let mut enc = snap::write::FrameEncoder::new(Vec::new());
    std::io::Write::write_all(&mut enc, &raw).unwrap();
    let stored = enc.into_inner().unwrap();
    let err = read_profile_data(&stored).expect_err("a truncated record should be an error");
    assert!(matches!(err.failure, DecodeFailure::MalformedRecord));
    assert_eq!(err.frames.len(), 1);
    assert!(task_eq(&err.frames[0], &first));
}

#[test]
fn garbage_bytes_are_corrupt_compression() {
    let stored = vec![1u8, 2, 3, 4, 5];
    let err = read_profile_data(&stored).expect_err("garbage should be an error");
    assert!(matches!(err.failure, DecodeFailure::CorruptCompression));
    assert!(err.frames.is_empty());
}

#[test]
fn invalid_utf8_name_is_malformed() {
    // A record claiming a one-byte name holding 0xFF: not UTF-8.
    let mut raw = Vec::new();
    raw.extend_from_slice(&1u64.to_le_bytes());
    raw.push(0xFF);
    raw.extend_from_slice(&5u64.to_le_bytes());
    raw.extend_from_slice(&0u64.to_le_bytes());
    let (frames, clean) = decode_frames(&raw);
    assert!(!clean);
    assert!(frames.is_empty());
}

#[test]
fn name_length_past_the_end_is_malformed() {
    let mut raw = Vec::new();
    raw.extend_from_slice(&1000u64.to_le_bytes());
    raw.extend_from_slice(&[0u8; 24]);
    let (frames, clean) = decode_frames(&raw);
    assert!(!clean);
    assert!(frames.is_empty());
}

#[test]
fn stored_profile_is_really_compressed() {
    // A highly repetitive profile must come out smaller than its raw
    // records; and the stored bytes differ from the raw ones.
    let frames = vec![node(
        "Frame #1",
        99,
        (0..200).map(|_| leaf("aaaaaaaaaaaaaaaaaaaaaaaaaaaaaaaa", 7)).collect(),
    )];
    let raw = encode_frames(&frames);
    let stored = encode_profile(&frames);
    assert_ne!(raw, stored);
    assert!(stored.len() < raw.len());
}
