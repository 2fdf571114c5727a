//! Stored profile streams: the records of completed frames, back to
//! back, wrapped end to end in Snappy frame compression; and the
//! reader that turns such a stream back into frame trees.

use crate::codec::{
    decode_frames, encode_frames, spec_decode_stream, spec_encode_tasks,
};
use crate::task::{tasks_view, TaskData};
use vstd::prelude::*;

verus! {

/// The compressed image of a byte stream, as snap's frame encoder
/// writes it.
pub uninterp spec fn snappy_frame_of(b: Seq<u8>) -> Seq<u8>;

/// What snap's frame decoder reads out of a byte stream: the carried
/// bytes, or nothing if the stream is not a well-formed Snappy frame
/// stream.
pub uninterp spec fn snappy_unframe_of(b: Seq<u8>) -> Option<Seq<u8>>;

/// Relies on snap::write::FrameEncoder: compresses bytes into the
/// Snappy frame format. The format is lossless and
/// snap::read::FrameDecoder reads exactly what the encoder wrote, so
/// decompressing the result yields the input again.
#[verifier::external_body]
fn snappy_compress(b: &Vec<u8>) -> (r: Vec<u8>)
    ensures
        r@ == snappy_frame_of(b@),
        snappy_unframe_of(r@) == Some(b@),
{
    let mut enc = snap::write::FrameEncoder::new(Vec::new());
    std::io::Write::write_all(&mut enc, b.as_slice()).expect("writing to a Vec cannot fail");
    enc.into_inner().expect("flushing into a Vec cannot fail")
}

/// Relies on snap::read::FrameDecoder: decompresses a Snappy frame
/// stream, rejecting a malformed or truncated one.
#[verifier::external_body]
fn snappy_decompress(b: &Vec<u8>) -> (r: Option<Vec<u8>>)
    ensures
        (match r {
            Some(v) => snappy_unframe_of(b@) == Some(v@),
            None => snappy_unframe_of(b@) is None,
        }),
{
    let mut dec = snap::read::FrameDecoder::new(b.as_slice());
    let mut out = Vec::new();
    match std::io::Read::read_to_end(&mut dec, &mut out) {
        Ok(_) => Some(out),
        Err(_) => None,
    }
}

/// Why decoding a stored profile failed.
#[derive(Debug)]
pub enum DecodeFailure {
    /// The compressed wrapper was malformed or truncated.
    CorruptCompression,
    /// The decompressed stream ended inside a record, or held a
    /// malformed record.
    MalformedRecord,
}

/// A failed decode: the frames decoded before the failure — nothing
/// read successfully is fabricated or thrown away — and why it
/// failed.
#[derive(Debug)]
pub struct DecodeError {
    pub frames: Vec<TaskData>,
    pub failure: DecodeFailure,
}

/// Writes completed frames as a stored profile: their records back to
/// back, compressed.
pub fn encode_profile(frames: &Vec<TaskData>) -> (r: Vec<u8>)
    ensures
        r@ == snappy_frame_of(spec_encode_tasks(tasks_view(frames@))),
        snappy_unframe_of(r@) == Some(spec_encode_tasks(tasks_view(frames@))),
{
    let raw = encode_frames(frames);
    snappy_compress(&raw)
}

/// Reads a stored profile back into its frame trees: decompresses the
/// byte stream, then decodes records until fewer bytes remain than a
/// record's leading length field — that, not a count, is the end of
/// the stream. A malformed or truncated record yields the frames
/// decoded before it plus an explicit error, never fabricated data.
pub fn read_profile_data(bytes: &Vec<u8>) -> (r: Result<Vec<TaskData>, DecodeError>)
    ensures
        (match snappy_unframe_of(bytes@) {
            Some(raw) => {
                let decoded = spec_decode_stream(raw, 0);
                match r {
                    Ok(frames) => decoded.1 && tasks_view(frames@) == decoded.0,
                    Err(e) => !decoded.1 && e.failure is MalformedRecord && tasks_view(e.frames@)
                        == decoded.0,
                }
            },
            None => r matches Err(e) && e.failure is CorruptCompression && e.frames@.len() == 0,
        }),
{
    match snappy_decompress(bytes) {
        None => Err(
            DecodeError { frames: Vec::new(), failure: DecodeFailure::CorruptCompression },
        ),
        Some(raw) => {
            let (frames, clean) = decode_frames(raw.as_slice());
            if clean {
                Ok(frames)
            } else {
                Err(DecodeError { frames, failure: DecodeFailure::MalformedRecord })
            }
        },
    }
}

} // verus!
