use vstd::prelude::*;

use crate::audio::audio_format::{AudioFormat, SAMPLE_FMT_FLTP, SAMPLE_FMT_NONE};

verus! {

/// Nanoseconds per second: capture timestamps are in nanoseconds.
pub const NANOS_PER_SECOND: u128 = 1_000_000_000;

/// Presentation timestamp, in samples, of a capture made `ts` nanoseconds
/// after the epoch when the stream started at `start`.
pub open spec fn spec_sample_pts(start: u128, ts: u128, sample_rate: i32) -> int {
    ((ts - start) * (sample_rate as u128)) / (NANOS_PER_SECOND as int)
}

/// A capture made `ts - start` nanoseconds after the start is as many whole
/// samples in as fit in that time: `pts` samples last `pts * 10^9 / rate`
/// nanoseconds, so `pts * 10^9 <= (ts - start) * rate < (pts + 1) * 10^9`
/// (48 kHz, one second after the start: sample 48000).
pub proof fn lemma_sample_pts_whole_samples(start: u128, ts: u128, sample_rate: i32)
    requires
        start <= ts,
    ensures
        spec_sample_pts(start, ts, sample_rate) >= 0,
        spec_sample_pts(start, ts, sample_rate) * 1_000_000_000 <= (ts - start) * (
        sample_rate as u128),
        (ts - start) * (sample_rate as u128) < (spec_sample_pts(start, ts, sample_rate) + 1)
            * 1_000_000_000,
{
    let x: int = (ts - start) * (sample_rate as u128);
    assert(x >= 0) by (nonlinear_arith)
        requires
            ts - start >= 0,
            (sample_rate as u128) >= 0,
            x == (ts - start) * (sample_rate as u128),
    ;
    let q = x / 1_000_000_000;
    assert(q * 1_000_000_000 <= x < (q + 1) * 1_000_000_000 && q >= 0) by (nonlinear_arith)
        requires
            x >= 0,
            q == x / 1_000_000_000,
    ;
}

/// The start time after a frame captured at `ts`: the first frame's time.
pub open spec fn spec_start_after(start: u128, ts: u128) -> u128 {
    if start == 0 {
        ts
    } else {
        start
    }
}

pub open spec fn spec_max(a: int, b: int) -> int {
    if a > b {
        a
    } else {
        b
    }
}

/// The sample format an encoder is opened with: the first one it lists,
/// or planar float when it lists none.
pub open spec fn spec_select_sample_format(first_supported: Option<i32>) -> i32 {
    match first_supported {
        Some(f) => if f == SAMPLE_FMT_NONE {
            SAMPLE_FMT_FLTP
        } else {
            f
        },
        None => SAMPLE_FMT_FLTP,
    }
}

/// Sample format for an audio encoder, given the first entry of the list of
/// sample formats it supports (`None` when it publishes no list).
pub fn select_sample_format(first_supported: Option<i32>) -> (r: i32)
    ensures
        r == spec_select_sample_format(first_supported),
{
    match first_supported {
        Some(f) => if f == SAMPLE_FMT_NONE {
            SAMPLE_FMT_FLTP
        } else {
            f
        },
        None => SAMPLE_FMT_FLTP,
    }
}

/// The encoder-side state of an audio stream: per-channel byte queues that
/// collect resampled audio until a whole encoder frame is available, and the
/// clock that stamps the frames.
pub struct AudioStream {
    format: AudioFormat,
    frame_size: i32,
    start: u128,
    next: u128,
    buffer: Vec<Vec<u8>>,
}

impl AudioStream {
    /// Format of the audio the encoder takes.
    pub closed spec fn spec_format(&self) -> AudioFormat {
        self.format
    }

    /// Samples per channel in one encoder frame.
    pub closed spec fn spec_frame_size(&self) -> i32 {
        self.frame_size
    }

    /// Capture time of the first frame written, or 0 before it.
    pub closed spec fn spec_start(&self) -> u128 {
        self.start
    }

    /// Timestamp the next frame gets at the earliest.
    pub closed spec fn spec_next(&self) -> u128 {
        self.next
    }

    /// Bytes waiting in each channel's queue.
    pub closed spec fn buffered(&self) -> Seq<Seq<u8>> {
        self.buffer@.map_values(|v: Vec<u8>| v@)
    }

    /// Every channel's queue holds the same number of bytes. This holds of
    /// every stream: it is the type's invariant.
    #[verifier::type_invariant]
    pub open spec fn wf(self) -> bool {
        forall|c: int|
            #![trigger self.buffered()[c]]
            0 <= c < self.buffered().len() ==> self.buffered()[c].len() == self.buffered()[0].len()
    }

    /// Bytes each channel contributes to one encoder frame.
    pub open spec fn spec_required(&self) -> int {
        ((self.spec_frame_size() * self.spec_format().bytes_per_sample) as usize) as int
    }

    /// Whether pushing `planes` completes an encoder frame.
    pub open spec fn emits(&self, planes: Seq<Seq<u8>>) -> bool {
        self.buffered()[0].len() + planes[0].len() >= self.spec_required()
    }

    /// The planes accepted by `push`: one per channel, all of one length.
    pub open spec fn accepts(&self, planes: Seq<Seq<u8>>) -> bool {
        &&& self.buffered().len() > 0
        &&& planes.len() == self.buffered().len()
        &&& forall|c: int| #![trigger planes[c]] 0 <= c < planes.len() ==> planes[c].len() == planes[0].len()
        &&& i32::MIN <= self.spec_frame_size() * self.spec_format().bytes_per_sample <= i32::MAX
    }

    /// A stream for an encoder that takes `format` in frames of
    /// `frame_size` samples, with an empty queue for each of `channels`.
    pub fn new(format: AudioFormat, frame_size: i32, channels: i32) -> (r: Self)
        requires
            channels >= 0,
        ensures
            r.wf(),
            r.spec_format() == format,
            r.spec_frame_size() == frame_size,
            r.spec_start() == 0,
            r.spec_next() == 0,
            r.buffered().len() == channels,
            forall|c: int| #![trigger r.buffered()[c]] 0 <= c < channels ==> r.buffered()[c].len() == 0,
    {
        let channels = channels as usize;
        let mut buffer: Vec<Vec<u8>> = Vec::new();
        let mut c: usize = 0;
        while c < channels
            invariant
                c <= channels,
                buffer@.len() == c,
                forall|d: int| #![trigger buffer@[d]] 0 <= d < c ==> buffer@[d]@.len() == 0,
            decreases channels - c,
        {
            buffer.push(Vec::new());
            c = c + 1;
        }
        AudioStream { format, frame_size, start: 0, next: 0, buffer }
    }

    /// Capture time of the first frame written, or 0 before it.
    pub fn start(&self) -> (r: u128)
        ensures
            r == self.spec_start(),
    {
        self.start
    }

    /// Timestamp the next frame gets at the earliest.
    pub fn next(&self) -> (r: u128)
        ensures
            r == self.spec_next(),
    {
        self.next
    }

    /// Bytes waiting in the first channel's queue.
    pub fn queued_bytes(&self) -> (r: usize)
        requires
            self.buffered().len() > 0,
        ensures
            r == self.buffered()[0].len(),
    {
        self.buffer[0].len()
    }

    /// Bytes each channel contributes to one encoder frame.
    pub fn required_bytes(&self) -> (r: usize)
        requires
            i32::MIN <= self.spec_frame_size() * self.spec_format().bytes_per_sample <= i32::MAX,
        ensures
            r == self.spec_required(),
    {
        (self.frame_size * self.format.bytes_per_sample) as usize
    }

    /// Number of channel queues.
    pub fn channels(&self) -> (r: usize)
        ensures
            r == self.buffered().len(),
    {
        self.buffer.len()
    }

    /// Format of the audio the encoder takes.
    pub fn format(&self) -> (r: &AudioFormat)
        ensures
            *r == self.spec_format(),
    {
        &self.format
    }

    /// Appends each channel's plane to its queue; once the first queue holds
    /// a whole encoder frame, takes that frame's bytes off the front of every
    /// queue and returns them.
    pub fn push(&mut self, planes: Vec<Vec<u8>>) -> (r: Option<Vec<Vec<u8>>>)
        requires
            old(self).accepts(planes@.map_values(|v: Vec<u8>| v@)),
        ensures
            final(self).wf(),
            final(self).spec_format() == old(self).spec_format(),
            final(self).spec_frame_size() == old(self).spec_frame_size(),
            final(self).spec_start() == old(self).spec_start(),
            final(self).spec_next() == old(self).spec_next(),
            final(self).buffered().len() == old(self).buffered().len(),
            r is Some <==> old(self).emits(planes@.map_values(|v: Vec<u8>| v@)),
            r is None ==> forall|c: int|
                #![trigger final(self).buffered()[c]]
                0 <= c < old(self).buffered().len() ==> final(self).buffered()[c] == old(
                    self,
                ).buffered()[c] + planes@[c]@,
            r matches Some(out) ==> {
                &&& out@.len() == old(self).buffered().len()
                &&& forall|c: int|
                    #![trigger out@[c]]
                    0 <= c < out@.len() ==> {
                        &&& out@[c]@ == (old(self).buffered()[c] + planes@[c]@).take(
                            old(self).spec_required(),
                        )
                        &&& final(self).buffered()[c] == (old(self).buffered()[c]
                            + planes@[c]@).skip(old(self).spec_required())
                        &&& out@[c]@ + final(self).buffered()[c] == old(self).buffered()[c]
                            + planes@[c]@
                    }
            },
    {
        proof {
            use_type_invariant(&*self);
        }
        let ghost old_buf = self.buffered();
        let ghost pl = planes@.map_values(|v: Vec<u8>| v@);
        let channels = self.buffer.len();
        let mut planes = planes;
        let mut old_queues = Vec::new();
        std::mem::swap(&mut old_queues, &mut self.buffer);
        let mut queues: Vec<Vec<u8>> = Vec::new();
        let mut c: usize = 0;
        while c < channels
            invariant
                channels == old_buf.len(),
                old_queues@.len() == channels,
                planes@.len() == channels,
                pl.len() == channels,
                c <= channels,
                queues@.len() == c,
                forall|d: int|
                    #![trigger old_queues@[d]]
                    c <= d < channels ==> old_queues@[d]@ == old_buf[d],
                forall|d: int|
                    #![trigger planes@[d]]
                    c <= d < channels ==> planes@[d]@ == pl[d],
                forall|d: int|
                    #![trigger queues@[d]]
                    0 <= d < c ==> queues@[d]@ == old_buf[d] + pl[d],
            decreases channels - c,
        {
            let mut q = Vec::new();
            std::mem::swap(&mut q, &mut old_queues[c]);
            let mut p = Vec::new();
            std::mem::swap(&mut p, &mut planes[c]);
            q.append(&mut p);
            queues.push(q);
            c = c + 1;
        }
        let required = (self.frame_size * self.format.bytes_per_sample) as usize;
        proof {
            assert(queues@[0]@ == old_buf[0] + pl[0]);
        }
        if queues[0].len() < required {
            self.buffer = queues;
            proof {
                assert(self.buffered() =~= Seq::new(channels as nat, |d: int| old_buf[d] + pl[d]));
            }
            return None;
        }
        let mut out: Vec<Vec<u8>> = Vec::new();
        let mut rest: Vec<Vec<u8>> = Vec::new();
        let mut c: usize = 0;
        while c < channels
            invariant
                channels == old_buf.len(),
                channels == queues@.len(),
                pl.len() == channels,
                c <= channels,
                out@.len() == c,
                rest@.len() == c,
                required <= old_buf[0].len() + pl[0].len(),
                forall|d: int| #![trigger old_buf[d]] 0 <= d < channels ==> old_buf[d].len() == old_buf[0].len(),
                forall|d: int| #![trigger pl[d]] 0 <= d < channels ==> pl[d].len() == pl[0].len(),
                forall|d: int|
                    #![trigger queues@[d]]
                    c <= d < channels ==> queues@[d]@ == old_buf[d] + pl[d],
                forall|d: int|
                    #![trigger out@[d]]
                    0 <= d < c ==> out@[d]@ == (old_buf[d] + pl[d]).take(required as int),
                forall|d: int|
                    #![trigger rest@[d]]
                    0 <= d < c ==> rest@[d]@ == (old_buf[d] + pl[d]).skip(required as int),
            decreases channels - c,
        {
            let mut q = Vec::new();
            std::mem::swap(&mut q, &mut queues[c]);
            assert(q@ == old_buf[c as int] + pl[c as int]);
            assert(old_buf[c as int].len() == old_buf[0].len());
            assert(pl[c as int].len() == pl[0].len());
            let tail = q.split_off(required);
            out.push(q);
            rest.push(tail);
            c = c + 1;
        }
        self.buffer = rest;
        proof {
            assert forall|d: int|
                #![trigger out@[d]]
                0 <= d < out@.len() implies out@[d]@ + self.buffered()[d] == old_buf[d] + pl[d] by {
                assert(self.buffered()[d] == rest@[d]@);
                assert(out@[d]@ + rest@[d]@ =~= old_buf[d] + pl[d]);
            }
            assert forall|d: int|
                #![trigger self.buffer@[d]]
                0 <= d < self.buffer@.len() implies self.buffer@[d]@.len() == self.buffer@[0]@.len() by {
                assert(old_buf[d].len() == old_buf[0].len());
                assert(pl[d].len() == pl[0].len());
            }
        }
        Some(out)
    }

    /// Whether a frame completed by `planes` at capture time `ts` can be
    /// stamped: the clock does not run backwards past the stream's start and
    /// the sample arithmetic stays within `u128`.
    pub open spec fn stampable(&self, ts: u128) -> bool {
        let start = spec_start_after(self.spec_start(), ts);
        &&& ts >= start
        &&& (ts - start) * (self.spec_format().sample_rate as u128) <= u128::MAX
        &&& spec_max(self.spec_next() as int, spec_sample_pts(start, ts, self.spec_format().sample_rate))
            + (self.spec_frame_size() as u128) <= u128::MAX
    }

    /// Queues `planes` captured at `ts` (nanoseconds since the epoch); when
    /// that completes an encoder frame, returns the frame's planes with its
    /// presentation timestamp in samples. The first frame fixes the stream's
    /// start; a frame is stamped with its capture time converted to samples,
    /// or later if the previous frame's samples reach past that, so that
    /// stamps never go back and frames never overlap.
    pub fn write(&mut self, ts: u128, planes: Vec<Vec<u8>>) -> (r: Option<(Vec<Vec<u8>>, i64)>)
        requires
            old(self).accepts(planes@.map_values(|v: Vec<u8>| v@)),
            old(self).emits(planes@.map_values(|v: Vec<u8>| v@)) ==> old(self).stampable(ts),
        ensures
            final(self).wf(),
            final(self).spec_format() == old(self).spec_format(),
            final(self).spec_frame_size() == old(self).spec_frame_size(),
            final(self).buffered().len() == old(self).buffered().len(),
            r is Some <==> old(self).emits(planes@.map_values(|v: Vec<u8>| v@)),
            r is None ==> {
                &&& final(self).spec_start() == old(self).spec_start()
                &&& final(self).spec_next() == old(self).spec_next()
                &&& forall|c: int|
                    #![trigger final(self).buffered()[c]]
                    0 <= c < old(self).buffered().len() ==> final(self).buffered()[c] == old(
                        self,
                    ).buffered()[c] + planes@[c]@
            },
            r matches Some(out) ==> {
                let start = spec_start_after(old(self).spec_start(), ts);
                let stamp = spec_max(
                    old(self).spec_next() as int,
                    spec_sample_pts(start, ts, old(self).spec_format().sample_rate),
                );
                &&& final(self).spec_start() == start
                &&& (stamp + 1) * 1_000_000_000 > (ts - start) * (old(self).spec_format().sample_rate as u128)
                &&& out.1 == stamp as i64
                &&& stamp >= old(self).spec_next()
                &&& final(self).spec_next() == stamp + (old(self).spec_frame_size() as u128)
                &&& out.0@.len() == old(self).buffered().len()
                &&& forall|c: int|
                    #![trigger out.0@[c]]
                    0 <= c < out.0@.len() ==> {
                        &&& out.0@[c]@ == (old(self).buffered()[c] + planes@[c]@).take(
                            old(self).spec_required(),
                        )
                        &&& out.0@[c]@ + final(self).buffered()[c] == old(self).buffered()[c]
                            + planes@[c]@
                    }
            },
    {
        let frame = self.push(planes);
        proof {
            use_type_invariant(&*self);
        }
        match frame {
            None => None,
            Some(out) => {
                if self.start == 0 {
                    self.start = ts;
                }
                let pts = (ts - self.start) * (self.format.sample_rate as u128) / NANOS_PER_SECOND;
                if pts > self.next {
                    self.next = pts;
                }
                proof {
                    lemma_sample_pts_whole_samples(self.start, ts, self.format.sample_rate);
                }
                let stamp = self.next as i64;
                self.next = self.next + self.frame_size as u128;
                Some((out, stamp))
            },
        }
    }
}

} // verus!
