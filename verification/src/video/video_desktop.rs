use vstd::prelude::*;
use vstd::slice::{slice_subrange, slice_to_vec};

verus! {

/// Bytes per pixel of a captured BGRA frame.
pub const BYTES_PER_PIXEL: usize = 4;

/// Byte `j` of a tightly packed frame whose rows of `row` bytes are read
/// out of a mapped texture whose rows start `pitch` bytes apart.
pub open spec fn packed_byte(mapped: Seq<u8>, pitch: int, row: int, j: int) -> u8 {
    mapped[(j / row) * pitch + j % row]
}

/// Nanoseconds between delivered frames at a rate of `fps` per second.
pub open spec fn spec_frame_interval(fps: u64) -> u64 {
    (1_000_000_000u64 / fps) as u64
}

/// Time from `last` to `now`, or 0 when the clock reads earlier than `last`.
pub open spec fn spec_elapsed(last: u128, now: u128) -> int {
    if now >= last {
        now - last
    } else {
        0
    }
}

/// One decision of a limiter with target rate `fps` whose last delivered
/// frame came at `last`, for a frame arriving at `now`: whether it is
/// delivered, and the time of the last delivered frame afterwards.
pub open spec fn spec_accept(fps: u64, last: u128, now: u128) -> (bool, u128) {
    if fps == 0 {
        (true, last)
    } else if spec_elapsed(last, now) >= spec_frame_interval(fps) {
        (true, now)
    } else {
        (false, last)
    }
}

/// Paces delivered frames to at most a target rate. Times are nanoseconds
/// on a monotonic clock whose origin is when the limiter was made.
pub struct FrameLimiter {
    fps: u64,
    last: u128,
}

impl FrameLimiter {
    /// Target rate; 0 means no limit.
    pub closed spec fn spec_fps(&self) -> u64 {
        self.fps
    }

    /// Time of the last delivered frame (initially the origin).
    pub closed spec fn spec_last(&self) -> u128 {
        self.last
    }

    pub fn new(fps: u64) -> (r: Self)
        ensures
            r.spec_fps() == fps,
            r.spec_last() == 0,
    {
        FrameLimiter { fps, last: 0 }
    }

    /// Decides whether a frame arriving at `now` is delivered: with a target
    /// rate, only when at least one frame interval has passed since the last
    /// delivered frame (a clock reading earlier than that counts as no time
    /// passed); without one, always.
    pub fn accept_frame(&mut self, now: u128) -> (r: bool)
        ensures
            final(self).spec_fps() == old(self).spec_fps(),
            old(self).spec_fps() == 0 ==> r && final(self).spec_last() == old(self).spec_last(),
            old(self).spec_fps() > 0 ==> {
                &&& r <==> spec_elapsed(old(self).spec_last(), now) >= spec_frame_interval(
                    old(self).spec_fps(),
                )
                &&& r ==> final(self).spec_last() == now
                &&& !r ==> final(self).spec_last() == old(self).spec_last()
            },
            (r, final(self).spec_last()) == spec_accept(old(self).spec_fps(), old(self).spec_last(), now),
    {
        if self.fps > 0 {
            let interval = 1_000_000_000u64 / self.fps;
            let elapsed: u128 = if now >= self.last {
                now - self.last
            } else {
                0
            };
            if elapsed < interval as u128 {
                return false;
            }
            self.last = now;
        }
        true
    }
}

/// Which frames a limiter with target rate `fps`, whose last delivered
/// frame came at `last`, delivers out of frames arriving at `arrivals`.
pub open spec fn deliveries(fps: u64, last: u128, arrivals: Seq<u128>) -> Seq<bool>
    decreases arrivals.len(),
{
    if arrivals.len() == 0 {
        Seq::empty()
    } else {
        let step = spec_accept(fps, last, arrivals[0]);
        seq![step.0] + deliveries(fps, step.1, arrivals.drop_first())
    }
}

/// Frame pacing: without a target rate (or with one so high that its
/// interval is 0) every frame is delivered; with one, every delivered frame
/// comes at least one frame interval after the limiter's previous delivery
/// (initially its origin), and any two delivered frames are at least one
/// interval apart.
pub proof fn lemma_frame_pacing(fps: u64, last: u128, arrivals: Seq<u128>)
    ensures
        deliveries(fps, last, arrivals).len() == arrivals.len(),
        fps == 0 || spec_frame_interval(fps) == 0 ==> forall|i: int|
            #![trigger deliveries(fps, last, arrivals)[i]]
            0 <= i < arrivals.len() ==> deliveries(fps, last, arrivals)[i],
        fps > 0 && spec_frame_interval(fps) > 0 ==> forall|i: int|
            #![trigger deliveries(fps, last, arrivals)[i]]
            0 <= i < arrivals.len() && deliveries(fps, last, arrivals)[i] ==> arrivals[i] >= last
                + spec_frame_interval(fps),
        fps > 0 && spec_frame_interval(fps) > 0 ==> forall|i: int, j: int|
            #![trigger deliveries(fps, last, arrivals)[i], deliveries(fps, last, arrivals)[j]]
            0 <= i < j < arrivals.len() && deliveries(fps, last, arrivals)[i] && deliveries(
                fps,
                last,
                arrivals,
            )[j] ==> arrivals[j] >= arrivals[i] + spec_frame_interval(fps),
    decreases arrivals.len(),
{
    if arrivals.len() > 0 {
        let step = spec_accept(fps, last, arrivals[0]);
        let tail = arrivals.drop_first();
        lemma_frame_pacing(fps, step.1, tail);
        let d = deliveries(fps, last, arrivals);
        let dt = deliveries(fps, step.1, tail);
        assert(d == seq![step.0] + dt);
        let iv = spec_frame_interval(fps);
        assert forall|i: int| #![trigger d[i]] 1 <= i < arrivals.len() implies d[i] == dt[i - 1]
            && arrivals[i] == tail[i - 1] by {}
        if fps > 0 && iv > 0 {
            assert(step.1 >= last);
            assert forall|i: int| #![trigger d[i]] 0 <= i < arrivals.len() && d[i] implies arrivals[i]
                >= last + iv by {
                if i > 0 {
                    assert(dt[i - 1]);
                    assert(tail[i - 1] >= step.1 + iv);
                }
            }
            assert forall|i: int, j: int| #![trigger d[i], d[j]] 0 <= i < j < arrivals.len() && d[i]
                && d[j] implies arrivals[j] >= arrivals[i] + iv by {
                assert(dt[j - 1]);
                if i == 0 {
                    assert(step.1 == arrivals[0]);
                    assert(tail[j - 1] >= step.1 + iv);
                } else {
                    assert(dt[i - 1]);
                    assert(tail[j - 1] >= tail[i - 1] + iv);
                }
            }
        }
    }
}

/// The size and pacing of a captured display.
pub struct VideoDesktop {
    width: usize,
    height: usize,
    target_fps: u64,
}

impl VideoDesktop {
    pub closed spec fn spec_width(&self) -> usize {
        self.width
    }

    pub closed spec fn spec_height(&self) -> usize {
        self.height
    }

    pub closed spec fn spec_target_fps(&self) -> u64 {
        self.target_fps
    }

    /// A display of the given size, with no frame rate limit.
    pub fn new(width: usize, height: usize) -> (r: Self)
        ensures
            r.spec_width() == width,
            r.spec_height() == height,
            r.spec_target_fps() == 0,
    {
        VideoDesktop { width, height, target_fps: 0 }
    }

    /// Picks monitor `index` out of the enumerated monitors.
    pub fn with_index<T: Copy>(index: usize, monitors: &Vec<T>) -> (r: Result<T, String>)
        ensures
            index < monitors@.len() ==> r == Ok::<T, String>(monitors@[index as int]),
            index >= monitors@.len() ==> (r matches Err(e) && e@ == "Monitor index out of bounds"@),
    {
        if index >= monitors.len() {
            return Err(String::from_str("Monitor index out of bounds"));
        }
        Ok(monitors[index])
    }

    /// Limits delivered frames to `fps` per second (0: no limit).
    pub fn set_fps_limit(&mut self, fps: u64) -> (r: &mut Self)
        ensures
            r.spec_target_fps() == fps,
            r.spec_width() == old(self).spec_width(),
            r.spec_height() == old(self).spec_height(),
            *final(self) == *final(r),
    {
        self.target_fps = fps;
        self
    }

    pub fn width(&self) -> (r: usize)
        ensures
            r == self.spec_width(),
    {
        self.width
    }

    pub fn height(&self) -> (r: usize)
        ensures
            r == self.spec_height(),
    {
        self.height
    }

    pub fn target_fps(&self) -> (r: u64)
        ensures
            r == self.spec_target_fps(),
    {
        self.target_fps
    }

    /// Bit rate of the raw 32-bit frames at `fps` frames per second.
    pub fn bit_rate(&self, fps: usize) -> (r: usize)
        requires
            self.spec_width() * self.spec_height() * 32 * fps <= usize::MAX,
        ensures
            r == self.spec_width() * self.spec_height() * 32 * fps,
    {
        proof {
            let w = self.width as int;
            let h = self.height as int;
            let f = fps as int;
            assert(w * h <= w * h * 32 * f || f == 0) by (nonlinear_arith)
                requires
                    w >= 0,
                    h >= 0,
                    f >= 0,
            ;
            assert(w * h * 32 <= w * h * 32 * f || f == 0) by (nonlinear_arith)
                requires
                    w >= 0,
                    h >= 0,
                    f >= 0,
            ;
        }
        if fps == 0 {
            proof {
                assert(self.width * self.height * 32 * fps == 0) by (nonlinear_arith)
                    requires
                        fps == 0,
                ;
            }
            return 0;
        }
        self.width * self.height * 32 * fps
    }

    /// Frame pacing for this display's target rate.
    pub fn frame_limiter(&self) -> (r: FrameLimiter)
        ensures
            r.spec_fps() == self.spec_target_fps(),
            r.spec_last() == 0,
    {
        FrameLimiter::new(self.target_fps)
    }

    /// Copies a `width` x `height` BGRA frame out of a mapped texture whose
    /// rows start `pitch` bytes apart, into rows of exactly `width * 4`
    /// bytes.
    pub fn to_bytes(mapped: &[u8], width: usize, height: usize, pitch: usize) -> (r: Vec<u8>)
        requires
            width * 4 <= usize::MAX,
            width * 4 * height <= usize::MAX,
            height > 0 ==> (height - 1) * pitch + width * 4 <= mapped@.len(),
        ensures
            r@.len() == width * 4 * height,
            forall|j: int|
                #![trigger r@[j]]
                0 <= j < r@.len() ==> r@[j] == packed_byte(mapped@, pitch as int, width * 4, j),
    {
        let row = width * BYTES_PER_PIXEL;
        let mut data: Vec<u8> = Vec::new();
        let mut y: usize = 0;
        assert(mapped@.len() == mapped.len());
        proof {
            assert(row * y == 0);
        }
        while y < height
            invariant
                row == width * 4,
                row * height <= usize::MAX,
                mapped@.len() <= usize::MAX,
                height > 0 ==> (height - 1) * pitch + row <= mapped@.len(),
                y <= height,
                data@.len() == row * y,
                forall|j: int|
                    #![trigger data@[j]]
                    0 <= j < data@.len() ==> data@[j] == packed_byte(
                        mapped@,
                        pitch as int,
                        row as int,
                        j,
                    ),
            decreases height - y,
        {
            proof {
                assert(y * pitch + row <= (height - 1) * pitch + row) by (nonlinear_arith)
                    requires
                        y < height,
                ;
                assert(row * (y + 1) <= row * height) by (nonlinear_arith)
                    requires
                        y < height,
                ;
                assert(row * (y + 1) == row * y + row) by (nonlinear_arith);
            }
            let from = y * pitch;
            let mut line = slice_to_vec(slice_subrange(mapped, from, from + row));
            let ghost prev = data@;
            data.append(&mut line);
            proof {
                assert forall|j: int| #![trigger data@[j]] 0 <= j < data@.len() implies data@[j]
                    == packed_byte(mapped@, pitch as int, row as int, j) by {
                    if j >= prev.len() {
                        let x = j - row * y;
                        assert(j / (row as int) == y && j % (row as int) == x) by (nonlinear_arith)
                            requires
                                j == row * y + x,
                                0 <= x < row,
                        ;
                        assert(data@[j] == mapped@[y * pitch + x]);
                    } else {
                        assert(data@[j] == prev[j]);
                    }
                }
            }
            y = y + 1;
        }
        proof {
            assert(row * height == width * 4 * height) by (nonlinear_arith)
                requires
                    row == width * 4,
            ;
        }
        data
    }
}

} // verus!
