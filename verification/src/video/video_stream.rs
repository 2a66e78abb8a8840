use vstd::prelude::*;
use vstd::bytes::{
    spec_u128_from_le_bytes, spec_u128_to_le_bytes, u128_from_le_bytes, u128_to_le_bytes,
    lemma_auto_spec_u128_to_from_le_bytes,
};
use vstd::slice::slice_subrange;

use crate::audio::audio_stream::{NANOS_PER_SECOND, spec_start_after};
use crate::video::video_format::VideoFormat;

verus! {

/// Bytes of the capture-time prefix of a frame message.
pub const TIME_PREFIX_LEN: usize = 16;

/// Presentation timestamp, in frames, of a frame captured at `ts`
/// nanoseconds when the stream started at `start`.
pub open spec fn spec_frame_pts(start: u128, ts: u128, fps: i32) -> int {
    ((ts - start) * (fps as u128)) / (NANOS_PER_SECOND as int)
}

/// Splits a frame message into its capture time (the first 16 bytes, a
/// little-endian count of nanoseconds) and the pixel data after it.
pub fn split_time(data: &[u8]) -> (r: (u128, &[u8]))
    requires
        data@.len() >= TIME_PREFIX_LEN,
    ensures
        r.0 == spec_u128_from_le_bytes(data@.take(16)),
        r.1@ == data@.skip(16),
{
    let head = slice_subrange(data, 0, TIME_PREFIX_LEN);
    let ts = u128_from_le_bytes(head);
    assert(head@ == data@.take(16));
    (ts, slice_subrange(data, TIME_PREFIX_LEN, data.len()))
}

/// Frame message for pixel data captured at `ts` nanoseconds: the capture
/// time as 16 little-endian bytes, then the pixels.
pub fn join_time(ts: u128, bytes: &[u8]) -> (r: Vec<u8>)
    ensures
        r@ == spec_u128_to_le_bytes(ts) + bytes@,
        r@.len() == 16 + bytes@.len(),
{
    proof {
        lemma_auto_spec_u128_to_from_le_bytes();
    }
    let mut data = u128_to_le_bytes(ts);
    let mut tail = vstd::slice::slice_to_vec(bytes);
    data.append(&mut tail);
    data
}

/// Splitting a joined frame message gives back the capture time and pixels.
pub proof fn lemma_split_join(ts: u128, bytes: Seq<u8>)
    ensures
        spec_u128_from_le_bytes((spec_u128_to_le_bytes(ts) + bytes).take(16)) == ts,
        (spec_u128_to_le_bytes(ts) + bytes).skip(16) == bytes,
{
    lemma_auto_spec_u128_to_from_le_bytes();
    let s = spec_u128_to_le_bytes(ts);
    assert((s + bytes).take(16) =~= s);
    assert((s + bytes).skip(16) =~= bytes);
}

/// Joining the two parts of a frame message gives back the message.
pub proof fn lemma_join_split(data: Seq<u8>)
    requires
        data.len() >= 16,
    ensures
        spec_u128_to_le_bytes(spec_u128_from_le_bytes(data.take(16))) + data.skip(16) == data,
{
    lemma_auto_spec_u128_to_from_le_bytes();
    assert(data.take(16).len() == 16);
    assert(spec_u128_to_le_bytes(spec_u128_from_le_bytes(data.take(16))) == data.take(16));
    assert(data.take(16) + data.skip(16) =~= data);
}

/// The encoder-side clock of a video stream.
pub struct VideoStream {
    format: VideoFormat,
    start: u128,
}

impl VideoStream {
    pub closed spec fn spec_format(&self) -> VideoFormat {
        self.format
    }

    /// Capture time of the first frame written, or 0 before it.
    pub closed spec fn spec_start(&self) -> u128 {
        self.start
    }

    /// Whether a frame captured at `ts` can be stamped: the clock does not
    /// run back past the stream's start and the arithmetic fits in `u128`.
    pub open spec fn stampable(&self, ts: u128) -> bool {
        let start = spec_start_after(self.spec_start(), ts);
        &&& ts >= start
        &&& (ts - start) * (self.spec_format().fps as u128) <= u128::MAX
    }

    pub fn new(format: VideoFormat) -> (r: Self)
        ensures
            r.spec_format() == format,
            r.spec_start() == 0,
    {
        VideoStream { format, start: 0 }
    }

    /// Capture time of the first frame written, or 0 before it.
    pub fn start(&self) -> (r: u128)
        ensures
            r == self.spec_start(),
    {
        self.start
    }

    pub fn format(&self) -> (r: &VideoFormat)
        ensures
            *r == self.spec_format(),
    {
        &self.format
    }

    /// Presentation timestamp, in frames, of a frame captured at `ts`
    /// nanoseconds since the epoch; the first frame fixes the stream's start.
    pub fn write(&mut self, ts: u128) -> (r: i64)
        requires
            old(self).stampable(ts),
        ensures
            final(self).spec_format() == old(self).spec_format(),
            final(self).spec_start() == spec_start_after(old(self).spec_start(), ts),
            r == spec_frame_pts(final(self).spec_start(), ts, old(self).spec_format().fps) as i64,
    {
        if self.start == 0 {
            self.start = ts;
        }
        let pts = (ts - self.start) * (self.format.fps as u128) / NANOS_PER_SECOND;
        pts as i64
    }
}

/// Video timestamps never go back: a later capture gets a timestamp no
/// smaller than an earlier one.
pub proof fn lemma_frame_pts_monotone(start: u128, t1: u128, t2: u128, fps: i32)
    requires
        start <= t1 <= t2,
        (t2 - start) * (fps as u128) <= u128::MAX,
    ensures
        spec_frame_pts(start, t1, fps) <= spec_frame_pts(start, t2, fps),
{
    let f = fps as u128;
    let a = (t1 - start) as int;
    let b = (t2 - start) as int;
    assert(a * f <= b * f) by (nonlinear_arith)
        requires
            0 <= a <= b,
            f >= 0,
    ;
    assert((a * f) / 1_000_000_000 <= (b * f) / 1_000_000_000) by (nonlinear_arith)
        requires
            0 <= a * f <= b * f,
    ;
}

} // verus!
