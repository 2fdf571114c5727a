//! The binary record format for task trees.
//!
//! A record is a recursively defined encoding of one task:
//! a length-prefixed UTF-8 name, the duration as a 64-bit unsigned
//! count of nanoseconds, and a length-prefixed sequence of the
//! subtasks' records. All integers are 8-byte little-endian. A stored
//! profile is a sequence of such records back to back, with no outer
//! count: the reader stops when fewer bytes remain than a leading
//! length field requires.

use crate::task::{lemma_task_view_fields, lemma_tasks_view_push, tasks_view, TaskData, TaskView};
use vstd::bytes::{
    lemma_auto_spec_u64_to_from_le_bytes, spec_u64_from_le_bytes, spec_u64_to_le_bytes,
    u64_from_le_bytes, u64_to_le_bytes,
};
use vstd::prelude::*;
use vstd::slice::{slice_subrange, slice_to_vec};
use vstd::utf8::{decode_utf8, encode_utf8, valid_utf8};

verus! {

broadcast use
    vstd::std_specs::vec::group_vec_axioms,
    vstd::utf8::group_utf8_lib,
    lemma_task_view_fields,
    lemma_tasks_view_push;

/// The record of one task: name length, name bytes, duration,
/// subtask count, then the subtasks' records.
pub open spec fn spec_encode_task(t: TaskView) -> Seq<u8>
    decreases t, 0int,
{
    spec_u64_to_le_bytes(encode_utf8(t.name).len() as u64) + encode_utf8(t.name)
        + spec_u64_to_le_bytes(t.duration) + spec_u64_to_le_bytes(t.subtasks.len() as u64)
        + spec_encode_tasks(t.subtasks)
}

/// The records of the tasks of `ts`, back to back.
pub open spec fn spec_encode_tasks(ts: Seq<TaskView>) -> Seq<u8>
    decreases ts, 1int,
{
    if ts.len() == 0 {
        Seq::empty()
    } else {
        spec_encode_task(ts[0]) + spec_encode_tasks(ts.subrange(1, ts.len() as int))
    }
}

/// Whether a task tree's name lengths and subtask counts fit their
/// length fields. Every tree held in memory satisfies this; it bounds
/// the arbitrary trees that the round-trip law quantifies over.
pub open spec fn wf_task(t: TaskView) -> bool
    decreases t, 0int,
{
    &&& encode_utf8(t.name).len() <= u64::MAX
    &&& t.subtasks.len() <= u64::MAX
    &&& wf_tasks(t.subtasks)
}

/// Whether every task of `ts` is well-formed.
pub open spec fn wf_tasks(ts: Seq<TaskView>) -> bool
    decreases ts, 1int,
{
    forall|i: int| 0 <= i < ts.len() ==> wf_task(#[trigger] ts[i])
}

/// Decodes one record at `pos`: the task and the position just past
/// its record, or nothing if the bytes there are not a whole,
/// well-formed record.
pub open spec fn spec_decode_task(b: Seq<u8>, pos: int) -> Option<(TaskView, int)>
    decreases b.len() - pos, 0int,
{
    if pos < 0 || pos + 24 > b.len() {
        None
    } else {
        let nlen = spec_u64_from_le_bytes(b.subrange(pos, pos + 8)) as int;
        if nlen > b.len() - pos - 24 {
            None
        } else {
            let nbytes = b.subrange(pos + 8, pos + 8 + nlen);
            if !valid_utf8(nbytes) {
                None
            } else {
                let duration = spec_u64_from_le_bytes(
                    b.subrange(pos + 8 + nlen, pos + 16 + nlen),
                );
                let cnt = spec_u64_from_le_bytes(b.subrange(pos + 16 + nlen, pos + 24 + nlen));
                match spec_decode_tasks(b, pos + 24 + nlen, cnt as int) {
                    Some(r) => Some(
                        (TaskView { name: decode_utf8(nbytes), duration, subtasks: r.0 }, r.1),
                    ),
                    None => None,
                }
            }
        }
    }
}

/// Decodes `cnt` records back to back from `pos`: the tasks and the
/// position just past the last record. The guard on the position a
/// record reports cannot fire (a record is at least its three length
/// fields long); it keeps the recursion visibly well-founded.
pub open spec fn spec_decode_tasks(b: Seq<u8>, pos: int, cnt: int) -> Option<
    (Seq<TaskView>, int),
>
    decreases b.len() - pos, 1int + if cnt > 0 { cnt } else { 0int },
{
    if cnt <= 0 {
        Some((Seq::empty(), pos))
    } else {
        match spec_decode_task(b, pos) {
            None => None,
            Some(r) => {
                if r.1 <= pos || r.1 > b.len() {
                    None
                } else {
                    match spec_decode_tasks(b, r.1, cnt - 1) {
                        None => None,
                        Some(rr) => Some((seq![r.0] + rr.0, rr.1)),
                    }
                }
            },
        }
    }
}

/// Decodes records back to back from `pos` until fewer bytes remain
/// than a leading length field requires (the end-of-stream
/// convention): the frames decoded, and whether the stream ended
/// cleanly rather than in a malformed or truncated record.
pub open spec fn spec_decode_stream(b: Seq<u8>, pos: int) -> (Seq<TaskView>, bool)
    decreases b.len() - pos,
{
    if pos < 0 || pos > b.len() {
        (Seq::empty(), false)
    } else if b.len() - pos < 8 {
        (Seq::empty(), true)
    } else {
        match spec_decode_task(b, pos) {
            None => (Seq::empty(), false),
            Some(r) => {
                if r.1 <= pos || r.1 > b.len() {
                    (Seq::empty(), false)
                } else {
                    let rest = spec_decode_stream(b, r.1);
                    (seq![r.0] + rest.0, rest.1)
                }
            },
        }
    }
}

/// A record is never shorter than its three length fields.
pub proof fn lemma_encode_task_len(t: TaskView)
    ensures
        spec_encode_task(t).len() == 24 + encode_utf8(t.name).len() + spec_encode_tasks(
            t.subtasks,
        ).len(),
{
    lemma_auto_spec_u64_to_from_le_bytes();
}

/// Encoding concatenates: the records of `xs + ys` are the records of
/// `xs` then the records of `ys`.
pub proof fn lemma_encode_tasks_concat(xs: Seq<TaskView>, ys: Seq<TaskView>)
    ensures
        spec_encode_tasks(xs + ys) == spec_encode_tasks(xs) + spec_encode_tasks(ys),
    decreases xs.len(),
{
    if xs.len() == 0 {
        assert(xs + ys =~= ys);
        assert(spec_encode_tasks(xs) + spec_encode_tasks(ys) =~= spec_encode_tasks(ys));
    } else {
        assert((xs + ys)[0] == xs[0]);
        assert((xs + ys).subrange(1, (xs + ys).len() as int) =~= xs.subrange(
            1,
            xs.len() as int,
        ) + ys);
        lemma_encode_tasks_concat(xs.subrange(1, xs.len() as int), ys);
        assert(spec_encode_task(xs[0]) + (spec_encode_tasks(xs.subrange(1, xs.len() as int))
            + spec_encode_tasks(ys)) =~= (spec_encode_task(xs[0]) + spec_encode_tasks(
            xs.subrange(1, xs.len() as int),
        )) + spec_encode_tasks(ys));
    }
}

/// Every task's record is at least as long as one task, and no
/// element's record outgrows the whole list's.
proof fn lemma_encode_tasks_elem_len(ts: Seq<TaskView>, i: int)
    requires
        0 <= i < ts.len(),
    ensures
        spec_encode_task(ts[i]).len() <= spec_encode_tasks(ts).len(),
        ts.len() <= spec_encode_tasks(ts).len(),
    decreases ts.len(),
{
    let rest = ts.subrange(1, ts.len() as int);
    lemma_encode_task_len(ts[0]);
    if i == 0 {
        if rest.len() > 0 {
            lemma_encode_tasks_elem_len(rest, 0);
        }
    } else {
        lemma_encode_tasks_elem_len(rest, i - 1);
        assert(rest[i - 1] == ts[i]);
    }
}

/// Any task whose record's length fits a 64-bit count — in
/// particular, any record held in memory — is well-formed: its name
/// length and subtask count fit their length fields, recursively.
pub proof fn lemma_bounded_encoding_wf_task(t: TaskView)
    requires
        spec_encode_task(t).len() <= u64::MAX,
    ensures
        wf_task(t),
    decreases t, 0int,
{
    lemma_encode_task_len(t);
    lemma_bounded_encoding_wf_tasks(t.subtasks);
    if t.subtasks.len() > 0 {
        lemma_encode_tasks_elem_len(t.subtasks, 0);
    }
}

/// Any task list whose records' total length fits a 64-bit count is
/// well-formed throughout.
pub proof fn lemma_bounded_encoding_wf_tasks(ts: Seq<TaskView>)
    requires
        spec_encode_tasks(ts).len() <= u64::MAX,
    ensures
        wf_tasks(ts),
    decreases ts, 1int,
{
    assert forall|i: int| 0 <= i < ts.len() implies wf_task(#[trigger] ts[i]) by {
        lemma_encode_tasks_elem_len(ts, i);
        lemma_bounded_encoding_wf_task(ts[i]);
    }
}

/// Bytes equal within an embedded block: where `e` sits at `pos` in
/// `b`, any slice of `e` equals the corresponding slice of `b`.
proof fn lemma_subrange_within(b: Seq<u8>, pos: int, e: Seq<u8>, x: int, y: int)
    requires
        0 <= pos,
        pos + e.len() <= b.len(),
        b.subrange(pos, pos + e.len() as int) == e,
        0 <= x <= y <= e.len(),
    ensures
        b.subrange(pos + x, pos + y) == e.subrange(x, y),
{
    assert forall|j: int| 0 <= j < y - x implies b.subrange(pos + x, pos + y)[j] == e.subrange(
        x,
        y,
    )[j] by {
        assert(e[x + j] == b.subrange(pos, pos + e.len() as int)[x + j]);
    }
    assert(b.subrange(pos + x, pos + y) =~= e.subrange(x, y));
}

/// Decoding inverts encoding, record by record: wherever a well-formed
/// task's record sits in a byte stream, decoding there yields exactly
/// that task and consumes exactly its record.
pub proof fn lemma_decode_encode_task(b: Seq<u8>, pos: int, t: TaskView)
    requires
        wf_task(t),
        0 <= pos,
        pos + spec_encode_task(t).len() <= b.len(),
        b.subrange(pos, pos + spec_encode_task(t).len() as int) == spec_encode_task(t),
    ensures
        spec_decode_task(b, pos) == Some(
            (t, pos + spec_encode_task(t).len()),
        ),
    decreases t, 0int,
{
    lemma_auto_spec_u64_to_from_le_bytes();
    lemma_encode_task_len(t);
    let e = spec_encode_task(t);
    let nb = encode_utf8(t.name);
    let nlen = nb.len() as int;
    let a = spec_u64_to_le_bytes(nb.len() as u64);
    let dby = spec_u64_to_le_bytes(t.duration);
    let cby = spec_u64_to_le_bytes(t.subtasks.len() as u64);
    let subs = spec_encode_tasks(t.subtasks);
    assert(e == a + nb + dby + cby + subs);
    assert(e.subrange(0, 8) =~= a);
    assert(e.subrange(8, 8 + nlen) =~= nb);
    assert(e.subrange(8 + nlen, 16 + nlen) =~= dby);
    assert(e.subrange(16 + nlen, 24 + nlen) =~= cby);
    assert(e.subrange(24 + nlen, e.len() as int) =~= subs);
    lemma_subrange_within(b, pos, e, 0, 8);
    lemma_subrange_within(b, pos, e, 8, 8 + nlen);
    lemma_subrange_within(b, pos, e, 8 + nlen, 16 + nlen);
    lemma_subrange_within(b, pos, e, 16 + nlen, 24 + nlen);
    lemma_subrange_within(b, pos, e, 24 + nlen, e.len() as int);
    assert(spec_u64_from_le_bytes(b.subrange(pos, pos + 8)) as int == nlen);
    assert(pos + 24 <= b.len());
    assert(nlen <= b.len() - pos - 24);
    assert(b.subrange(pos + 8, pos + 8 + nlen) == nb);
    assert(valid_utf8(nb));
    assert(decode_utf8(nb) == t.name);
    assert(spec_u64_from_le_bytes(b.subrange(pos + 8 + nlen, pos + 16 + nlen)) == t.duration);
    assert(spec_u64_from_le_bytes(b.subrange(pos + 16 + nlen, pos + 24 + nlen)) as int
        == t.subtasks.len());
    lemma_decode_encode_tasks(b, pos + 24 + nlen, t.subtasks);
    assert(spec_decode_tasks(b, pos + 24 + nlen, t.subtasks.len() as int) == Some(
        (t.subtasks, pos + 24 + nlen + subs.len()),
    ));
    assert(spec_decode_task(b, pos).unwrap().0 =~= t);
}

/// Decoding inverts encoding for a list of records sitting back to
/// back in a byte stream.
pub proof fn lemma_decode_encode_tasks(b: Seq<u8>, pos: int, ts: Seq<TaskView>)
    requires
        wf_tasks(ts),
        0 <= pos,
        pos + spec_encode_tasks(ts).len() <= b.len(),
        b.subrange(pos, pos + spec_encode_tasks(ts).len() as int) == spec_encode_tasks(ts),
    ensures
        spec_decode_tasks(b, pos, ts.len() as int) == Some(
            (ts, pos + spec_encode_tasks(ts).len()),
        ),
    decreases ts, 1int,
{
    if ts.len() == 0 {
        assert(spec_decode_tasks(b, pos, 0) == Some((Seq::<TaskView>::empty(), pos)));
        assert(Seq::<TaskView>::empty() =~= ts);
    } else {
        let rest = ts.subrange(1, ts.len() as int);
        let e = spec_encode_tasks(ts);
        let e0 = spec_encode_task(ts[0]);
        let er = spec_encode_tasks(rest);
        assert(e == e0 + er);
        assert(e.subrange(0, e0.len() as int) =~= e0);
        assert(e.subrange(e0.len() as int, e.len() as int) =~= er);
        lemma_subrange_within(b, pos, e, 0, e0.len() as int);
        lemma_subrange_within(b, pos, e, e0.len() as int, e.len() as int);
        assert(wf_task(ts[0]));
        lemma_decode_encode_task(b, pos, ts[0]);
        lemma_encode_task_len(ts[0]);
        let mid = pos + e0.len() as int;
        assert(b.subrange(mid, mid + er.len() as int) == er);
        assert(wf_tasks(rest));
        lemma_decode_encode_tasks(b, mid, rest);
        assert(seq![ts[0]] + rest =~= ts);
    }
}

/// Relies on String::from_utf8: returns the string whose UTF-8
/// encoding is the given bytes, and rejects bytes that are not valid
/// UTF-8. vstd's `valid_utf8` and `decode_utf8` specify exactly that
/// encoding (vstd states `str::as_bytes` and `str::from_utf8_unchecked`
/// in the same terms).
#[verifier::external_body]
fn string_from_utf8(bytes: Vec<u8>) -> (r: Option<String>)
    ensures
        match r {
            Some(s) => valid_utf8(bytes@) && s@ == decode_utf8(bytes@),
            None => !valid_utf8(bytes@),
        },
{
    String::from_utf8(bytes).ok()
}

/// Appends the bytes of `s` to `out`.
fn push_bytes(out: &mut Vec<u8>, s: &[u8])
    ensures
        final(out)@ == old(out)@ + s@,
{
    let mut i: usize = 0;
    while i < s.len()
        invariant
            i <= s@.len(),
            out@ == old(out)@ + s@.take(i as int),
        decreases s@.len() - i,
    {
        let byte = *vstd::slice::slice_index_get(s, i);
        out.push(byte);
        proof {
            assert(s@.take(i + 1 as int) =~= s@.take(i as int).push(s@[i as int]));
            assert(out@ =~= old(out)@ + s@.take(i + 1 as int));
        }
        i = i + 1;
    }
    proof {
        assert(s@.take(s@.len() as int) =~= s@);
    }
}

/// One record of a single task list: used to relate the encoder's loop
/// to `spec_encode_tasks`, one task at a time.
proof fn lemma_encode_tasks_snoc(ts: Seq<TaskView>, i: int)
    requires
        0 <= i < ts.len(),
    ensures
        spec_encode_tasks(ts.take(i + 1)) == spec_encode_tasks(ts.take(i)) + spec_encode_task(
            ts[i],
        ),
{
    assert(ts.take(i + 1) =~= ts.take(i) + seq![ts[i]]);
    lemma_encode_tasks_concat(ts.take(i), seq![ts[i]]);
    assert(spec_encode_tasks(seq![ts[i]]) == spec_encode_task(ts[i])) by {
        reveal_with_fuel(spec_encode_tasks, 2);
        assert(seq![ts[i]].subrange(1, 1) =~= Seq::<TaskView>::empty());
        assert(spec_encode_task(ts[i]) + Seq::<u8>::empty() =~= spec_encode_task(ts[i]));
    }
}

/// Serializes one task's record, appending it to `out`.
pub fn encode_task_into(t: &TaskData, out: &mut Vec<u8>)
    ensures
        final(out)@ == old(out)@ + spec_encode_task(t@),
    decreases t,
{
    let name_bytes: &[u8] = t.name.as_str().as_bytes();
    let nlen_bytes = u64_to_le_bytes(name_bytes.len() as u64);
    push_bytes(out, nlen_bytes.as_slice());
    push_bytes(out, name_bytes);
    let dur_bytes = u64_to_le_bytes(t.duration);
    push_bytes(out, dur_bytes.as_slice());
    let cnt_bytes = u64_to_le_bytes(t.subtasks.len() as u64);
    push_bytes(out, cnt_bytes.as_slice());
    let ghost base = out@;
    let ghost views = tasks_view(t.subtasks@);
    let mut i: usize = 0;
    while i < t.subtasks.len()
        invariant
            i <= t.subtasks@.len(),
            views == tasks_view(t.subtasks@),
            out@ == base + spec_encode_tasks(views.take(i as int)),
        decreases t.subtasks@.len() - i,
    {
        proof {
            assert(decreases_to!(t => t.subtasks));
            assert(decreases_to!(t.subtasks => t.subtasks[i as int]));
        }
        encode_task_into(&t.subtasks[i], out);
        proof {
            lemma_encode_tasks_snoc(views, i as int);
            assert(views[i as int] == t.subtasks@[i as int]@);
            assert(out@ =~= base + spec_encode_tasks(views.take(i + 1 as int)));
        }
        i = i + 1;
    }
    proof {
        assert(views.take(t.subtasks@.len() as int) =~= views);
        assert(t@.subtasks == views);
        assert(t@.name == t.name@);
        assert(out@ =~= old(out)@ + spec_encode_task(t@));
    }
}

/// Serializes one task's record.
pub fn encode_task(t: &TaskData) -> (r: Vec<u8>)
    ensures
        r@ == spec_encode_task(t@),
{
    let mut out: Vec<u8> = Vec::new();
    encode_task_into(t, &mut out);
    proof {
        assert(Seq::<u8>::empty() + spec_encode_task(t@) =~= spec_encode_task(t@));
    }
    out
}

/// Serializes a sequence of frames, back to back: the stored stream,
/// before compression.
pub fn encode_frames(frames: &Vec<TaskData>) -> (r: Vec<u8>)
    ensures
        r@ == spec_encode_tasks(tasks_view(frames@)),
{
    let mut out: Vec<u8> = Vec::new();
    let ghost views = tasks_view(frames@);
    let mut i: usize = 0;
    while i < frames.len()
        invariant
            i <= frames@.len(),
            views == tasks_view(frames@),
            out@ == spec_encode_tasks(views.take(i as int)),
        decreases frames@.len() - i,
    {
        encode_task_into(&frames[i], &mut out);
        proof {
            lemma_encode_tasks_snoc(views, i as int);
            assert(views[i as int] == frames@[i as int]@);
        }
        i = i + 1;
    }
    proof {
        assert(views.take(frames@.len() as int) =~= views);
    }
    out
}

/// Prefixing already-decoded tasks onto a decoder's remaining result.
spec fn cons_result(front: Seq<TaskView>, r: Option<(Seq<TaskView>, int)>) -> Option<
    (Seq<TaskView>, int),
> {
    match r {
        None => None,
        Some(p) => Some((front + p.0, p.1)),
    }
}

/// Prefixing already-decoded frames onto a stream decoder's remaining
/// result.
spec fn cons_stream(front: Seq<TaskView>, r: (Seq<TaskView>, bool)) -> (Seq<TaskView>, bool) {
    (front + r.0, r.1)
}

/// Decodes one record at `pos`, returning the task and the position
/// just past its record, or nothing if the bytes there are not a
/// whole, well-formed record.
#[verifier::loop_isolation(false)]
pub fn decode_task_at(b: &[u8], pos: usize) -> (r: Option<(TaskData, usize)>)
    requires
        pos <= b@.len(),
    ensures
        match r {
            Some(p) => spec_decode_task(b@, pos as int) == Some((p.0@, p.1 as int)) && pos < p.1
                <= b@.len(),
            None => spec_decode_task(b@, pos as int) is None,
        },
    decreases b@.len() - pos,
{
    let n = b.len();
    if n - pos < 24 {
        return None;
    }
    let nlen64 = u64_from_le_bytes(slice_subrange(b, pos, pos + 8));
    if nlen64 > (n - pos - 24) as u64 {
        return None;
    }
    let nlen = nlen64 as usize;
    let name_vec = slice_to_vec(slice_subrange(b, pos + 8, pos + 8 + nlen));
    let name = match string_from_utf8(name_vec) {
        Some(s) => s,
        None => {
            return None;
        },
    };
    let duration = u64_from_le_bytes(slice_subrange(b, pos + 8 + nlen, pos + 16 + nlen));
    let cnt64 = u64_from_le_bytes(slice_subrange(b, pos + 16 + nlen, pos + 24 + nlen));
    let first = pos + 24 + nlen;
    let mut subs: Vec<TaskData> = Vec::new();
    let mut cur: usize = first;
    let mut i: u64 = 0;
    while i < cnt64
        invariant
            pos <= b@.len(),
            pos < first <= cur <= b@.len(),
            i <= cnt64,
            spec_decode_tasks(b@, first as int, cnt64 as int) == cons_result(
                tasks_view(subs@),
                spec_decode_tasks(b@, cur as int, cnt64 - i),
            ),
        decreases cnt64 - i,
    {
        match decode_task_at(b, cur) {
            None => {
                return None;
            },
            Some(p) => {
                let (t, end) = p;
                proof {
                    let front = tasks_view(subs@);
                    let rest = spec_decode_tasks(b@, end as int, cnt64 - i - 1);
                    assert(spec_decode_tasks(b@, cur as int, cnt64 - i) == cons_result(
                        seq![t@],
                        rest,
                    ));
                    if rest is Some {
                        assert(front + (seq![t@] + rest.unwrap().0) =~= front.push(t@)
                            + rest.unwrap().0);
                    }
                    assert(cons_result(front, cons_result(seq![t@], rest)) == cons_result(
                        front.push(t@),
                        rest,
                    ));
                }
                subs.push(t);
                cur = end;
            },
        }
        i = i + 1;
    }
    proof {
        assert(spec_decode_tasks(b@, cur as int, 0) == Some((Seq::<TaskView>::empty(), cur as int)));
        assert(tasks_view(subs@) + Seq::<TaskView>::empty() =~= tasks_view(subs@));
        assert(spec_decode_tasks(b@, first as int, cnt64 as int) == Some(
            (tasks_view(subs@), cur as int),
        ));
    }
    let task = TaskData { name, duration, subtasks: subs };
    proof {
        assert(task@ =~= spec_decode_task(b@, pos as int).unwrap().0);
    }
    Some((task, cur))
}

/// Decodes a whole decompressed stream: the frames read back to back,
/// and whether the stream ended cleanly (at a record boundary, or out
/// of bytes within a leading length field) rather than inside a
/// record.
pub fn decode_frames(b: &[u8]) -> (r: (Vec<TaskData>, bool))
    ensures
        tasks_view(r.0@) == spec_decode_stream(b@, 0).0,
        r.1 == spec_decode_stream(b@, 0).1,
{
    let mut frames: Vec<TaskData> = Vec::new();
    let mut cur: usize = 0;
    while b.len() - cur >= 8
        invariant
            cur <= b@.len(),
            spec_decode_stream(b@, 0) == cons_stream(
                tasks_view(frames@),
                spec_decode_stream(b@, cur as int),
            ),
        decreases b@.len() - cur,
    {
        match decode_task_at(b, cur) {
            None => {
                proof {
                    assert(spec_decode_stream(b@, cur as int) == (Seq::<TaskView>::empty(), false));
                    assert(tasks_view(frames@) + Seq::<TaskView>::empty() =~= tasks_view(frames@));
                }
                return (frames, false);
            },
            Some(p) => {
                let (t, end) = p;
                proof {
                    let front = tasks_view(frames@);
                    let rest = spec_decode_stream(b@, end as int);
                    assert(spec_decode_stream(b@, cur as int) == cons_stream(seq![t@], rest));
                    assert(front + (seq![t@] + rest.0) =~= front.push(t@) + rest.0);
                    assert(cons_stream(front, cons_stream(seq![t@], rest)) == cons_stream(
                        front.push(t@),
                        rest,
                    ));
                }
                frames.push(t);
                cur = end;
            },
        }
    }
    proof {
        assert(spec_decode_stream(b@, cur as int) == (Seq::<TaskView>::empty(), true));
        assert(tasks_view(frames@) + Seq::<TaskView>::empty() =~= tasks_view(frames@));
    }
    (frames, true)
}

/// The round trip for a whole stored stream: decoding the records of
/// well-formed frames, written back to back, yields exactly those
/// frames and a clean end of stream.
pub proof fn lemma_stream_round_trip(frames: Seq<TaskView>)
    requires
        wf_tasks(frames),
    ensures
        spec_decode_stream(spec_encode_tasks(frames), 0) == (frames, true),
{
    let b = spec_encode_tasks(frames);
    assert(b.subrange(0, b.len() as int) =~= b);
    lemma_decode_stream_from(b, 0, frames);
}

proof fn lemma_decode_stream_from(b: Seq<u8>, pos: int, frames: Seq<TaskView>)
    requires
        wf_tasks(frames),
        0 <= pos,
        pos + spec_encode_tasks(frames).len() == b.len(),
        b.subrange(pos, b.len() as int) == spec_encode_tasks(frames),
    ensures
        spec_decode_stream(b, pos) == (frames, true),
    decreases frames.len(),
{
    if frames.len() == 0 {
        assert(spec_decode_stream(b, pos) == (Seq::<TaskView>::empty(), true));
        assert(Seq::<TaskView>::empty() =~= frames);
    } else {
        let rest = frames.subrange(1, frames.len() as int);
        let e = spec_encode_tasks(frames);
        let e0 = spec_encode_task(frames[0]);
        let er = spec_encode_tasks(rest);
        assert(e == e0 + er);
        assert(e.subrange(0, e0.len() as int) =~= e0);
        assert(e.subrange(e0.len() as int, e.len() as int) =~= er);
        assert(b.subrange(pos, pos + e.len() as int) == e);
        lemma_subrange_within(b, pos, e, 0, e0.len() as int);
        lemma_subrange_within(b, pos, e, e0.len() as int, e.len() as int);
        assert(wf_task(frames[0]));
        lemma_decode_encode_task(b, pos, frames[0]);
        lemma_encode_task_len(frames[0]);
        let mid = pos + e0.len() as int;
        assert(b.subrange(mid, b.len() as int) == er);
        assert(wf_tasks(rest));
        lemma_decode_stream_from(b, mid, rest);
        assert(b.len() - pos >= 8);
        assert(seq![frames[0]] + rest =~= frames);
    }
}

} // verus!
