use vstd::prelude::*;
use vstd::slice::slice_to_vec;

verus! {

/// Sample format codes, numbered as in FFmpeg's `enum AVSampleFormat`.
pub const SAMPLE_FMT_NONE: i32 = -1;
pub const SAMPLE_FMT_U8: i32 = 0;
pub const SAMPLE_FMT_S16: i32 = 1;
pub const SAMPLE_FMT_S32: i32 = 2;
pub const SAMPLE_FMT_FLT: i32 = 3;
pub const SAMPLE_FMT_DBL: i32 = 4;
pub const SAMPLE_FMT_U8P: i32 = 5;
pub const SAMPLE_FMT_S16P: i32 = 6;
pub const SAMPLE_FMT_S32P: i32 = 7;
pub const SAMPLE_FMT_FLTP: i32 = 8;
pub const SAMPLE_FMT_DBLP: i32 = 9;
pub const SAMPLE_FMT_S64: i32 = 10;
pub const SAMPLE_FMT_S64P: i32 = 11;

/// `wFormatTag` of a WAVEFORMATEX that carries IEEE float samples.
pub const WAVE_FORMAT_IEEE_FLOAT: u16 = 3;

/// Rust's truncating integer division (`/` on signed integers).
pub open spec fn trunc_div(a: int, b: int) -> int {
    if a == 0 {
        0
    } else if a > 0 && b > 0 {
        a / b
    } else if a < 0 && b < 0 {
        (-a) / (-b)
    } else if a < 0 {
        -((-a) / b)
    } else {
        -(a / (-b))
    }
}

/// The interleaved position of byte `j` of channel `c`'s plane lies within
/// the `nb` whole sample frames.
proof fn lemma_planar_index_in_bounds(j: int, bps: int, channels: int, c: int, nb: int)
    requires
        0 <= j < nb * bps,
        bps > 0,
        0 <= c < channels,
    ensures
        0 <= (j / bps) * channels + c < nb * channels * bps,
        0 <= ((j / bps) * channels + c) * bps + j % bps < nb * channels * bps,
{
    let q = j / bps;
    let m = j % bps;
    assert(j == q * bps + m && 0 <= m < bps) by (nonlinear_arith)
        requires
            q == j / bps,
            m == j % bps,
            bps > 0,
    ;
    assert(0 <= q < nb) by (nonlinear_arith)
        requires
            j == q * bps + m,
            0 <= m < bps,
            0 <= j < nb * bps,
            bps > 0,
    ;
    assert(0 <= (q * channels + c) * bps + m < nb * channels * bps) by (nonlinear_arith)
        requires
            0 <= q < nb,
            0 <= c < channels,
            0 <= m < bps,
            bps > 0,
    ;
    assert(q * channels + c <= (q * channels + c) * bps) by (nonlinear_arith)
        requires
            0 <= q,
            0 <= c,
            bps >= 1,
            channels >= 0,
    ;
}

/// A truncated quotient never has a larger magnitude than its dividend.
proof fn lemma_trunc_div_bounded(a: int, b: int)
    requires
        b != 0,
    ensures
        -(if a >= 0 { a } else { -a }) <= trunc_div(a, b) <= (if a >= 0 { a } else { -a }),
        (b >= 2 || b <= -2) ==> -(if a >= 0 { a } else { -a }) / 2 <= trunc_div(a, b) <= (if a
            >= 0 { a } else { -a }) / 2,
{
    let na = if a >= 0 { a } else { -a };
    let nb = if b >= 0 { b } else { -b };
    assert(0 <= na / nb <= na) by (nonlinear_arith)
        requires
            na >= 0,
            nb >= 1,
    ;
    assert(nb >= 2 ==> na / nb <= na / 2) by (nonlinear_arith)
        requires
            na >= 0,
            nb >= 1,
    ;
    assert(na / nb == (if a >= 0 { a } else { -a }) / (if b >= 0 { b } else { -b }));
}

/// The sample format chosen for a capture device from its bit depth and
/// format tag.
pub open spec fn spec_sample_format(bits_per_sample: i32, w_format_tag: u16) -> i32 {
    if bits_per_sample == 32 && w_format_tag == WAVE_FORMAT_IEEE_FLOAT {
        SAMPLE_FMT_FLT
    } else if bits_per_sample == 8 {
        SAMPLE_FMT_U8
    } else if bits_per_sample == 16 {
        SAMPLE_FMT_S16
    } else if bits_per_sample == 24 || bits_per_sample == 32 {
        SAMPLE_FMT_S32
    } else {
        SAMPLE_FMT_NONE
    }
}

/// Bytes taken by one sample of the given format; 0 for an unknown format.
pub open spec fn spec_sample_format_bytes(fmt: i32) -> i32 {
    if fmt == SAMPLE_FMT_U8 || fmt == SAMPLE_FMT_U8P {
        1
    } else if fmt == SAMPLE_FMT_S16 || fmt == SAMPLE_FMT_S16P {
        2
    } else if fmt == SAMPLE_FMT_S32 || fmt == SAMPLE_FMT_S32P || fmt == SAMPLE_FMT_FLT
        || fmt == SAMPLE_FMT_FLTP {
        4
    } else if fmt == SAMPLE_FMT_DBL || fmt == SAMPLE_FMT_DBLP || fmt == SAMPLE_FMT_S64
        || fmt == SAMPLE_FMT_S64P {
        8
    } else {
        0
    }
}

/// Whether the format stores each channel in a plane of its own.
pub open spec fn spec_sample_format_is_planar(fmt: i32) -> bool {
    fmt == SAMPLE_FMT_U8P || fmt == SAMPLE_FMT_S16P || fmt == SAMPLE_FMT_S32P || fmt
        == SAMPLE_FMT_FLTP || fmt == SAMPLE_FMT_DBLP || fmt == SAMPLE_FMT_S64P
}

/// Byte `j` of the plane of channel `c`, read out of interleaved samples.
pub open spec fn planar_byte(bytes: Seq<u8>, channels: int, bps: int, c: int, j: int) -> u8 {
    bytes[((j / bps) * channels + c) * bps + j % bps]
}

/// Bytes per sample of a sample format (FFmpeg's `av_get_bytes_per_sample`).
pub fn sample_format_bytes(fmt: i32) -> (r: i32)
    ensures
        r == spec_sample_format_bytes(fmt),
{
    if fmt == SAMPLE_FMT_U8 || fmt == SAMPLE_FMT_U8P {
        1
    } else if fmt == SAMPLE_FMT_S16 || fmt == SAMPLE_FMT_S16P {
        2
    } else if fmt == SAMPLE_FMT_S32 || fmt == SAMPLE_FMT_S32P || fmt == SAMPLE_FMT_FLT || fmt
        == SAMPLE_FMT_FLTP {
        4
    } else if fmt == SAMPLE_FMT_DBL || fmt == SAMPLE_FMT_DBLP || fmt == SAMPLE_FMT_S64 || fmt
        == SAMPLE_FMT_S64P {
        8
    } else {
        0
    }
}

/// Whether a sample format is planar (FFmpeg's `av_sample_fmt_is_planar`).
pub fn sample_format_is_planar(fmt: i32) -> (r: bool)
    ensures
        r == spec_sample_format_is_planar(fmt),
{
    fmt == SAMPLE_FMT_U8P || fmt == SAMPLE_FMT_S16P || fmt == SAMPLE_FMT_S32P || fmt
        == SAMPLE_FMT_FLTP || fmt == SAMPLE_FMT_DBLP || fmt == SAMPLE_FMT_S64P
}

/// Shape of an audio stream: rates, channel count and sample encoding.
#[derive(Clone, Copy, Debug, PartialEq, Eq, Structural)]
pub struct AudioFormat {
    pub bit_rate: i64,
    pub sample_rate: i32,
    pub channels: i32,
    pub bytes_per_sample: i32,
    pub sample_format: i32,
}

impl AudioFormat {
    pub fn new(
        bit_rate: i64,
        sample_rate: i32,
        channels: i32,
        bytes_per_sample: i32,
        sample_format: i32,
    ) -> (r: Self)
        ensures
            r.bit_rate == bit_rate,
            r.sample_rate == sample_rate,
            r.channels == channels,
            r.bytes_per_sample == bytes_per_sample,
            r.sample_format == sample_format,
    {
        AudioFormat { bit_rate, sample_rate, channels, bytes_per_sample, sample_format }
    }

    /// Sample format of a capture device with the given bit depth and
    /// `wFormatTag`.
    pub fn sample_format(bits_per_sample: i32, w_format_tag: u16) -> (r: i32)
        ensures
            r == spec_sample_format(bits_per_sample, w_format_tag),
    {
        if bits_per_sample == 32 && w_format_tag == WAVE_FORMAT_IEEE_FLOAT {
            SAMPLE_FMT_FLT
        } else if bits_per_sample == 8 {
            SAMPLE_FMT_U8
        } else if bits_per_sample == 16 {
            SAMPLE_FMT_S16
        } else if bits_per_sample == 24 || bits_per_sample == 32 {
            SAMPLE_FMT_S32
        } else {
            SAMPLE_FMT_NONE
        }
    }

    /// Bytes of one sample frame (one sample of every channel).
    pub open spec fn spec_frame_bytes(self) -> int {
        self.channels * self.bytes_per_sample
    }

    /// Number of whole sample frames in `length` bytes of interleaved audio.
    pub fn nb_samples(&self, length: i32) -> (r: i32)
        requires
            self.spec_frame_bytes() != 0,
            i32::MIN <= self.spec_frame_bytes() <= i32::MAX,
            !(length == i32::MIN && self.spec_frame_bytes() == -1),
        ensures
            r == trunc_div(length as int, self.spec_frame_bytes()),
    {
        let per_frame = self.channels * self.bytes_per_sample;
        proof {
            lemma_trunc_div_bounded(length as int, per_frame as int);
        }
        match length.checked_div(per_frame) {
            Some(n) => n,
            None => 0,
        }
    }

    /// Audio format described by the fields of a WAVEFORMATEX.
    pub fn from_wave_format(
        avg_bytes_per_sec: u32,
        samples_per_sec: u32,
        channels: u16,
        bits_per_sample: u16,
        format_tag: u16,
    ) -> (r: Self)
        requires
            avg_bytes_per_sec * 8 <= u32::MAX,
        ensures
            r.bit_rate == avg_bytes_per_sec * 8,
            r.sample_rate == samples_per_sec as i32,
            r.channels == channels as i32,
            r.bytes_per_sample == (bits_per_sample / 8) as i32,
            r.sample_format == spec_sample_format(bits_per_sample as i32, format_tag),
    {
        let sample_format = Self::sample_format(bits_per_sample as i32, format_tag);
        Self::new(
            (avg_bytes_per_sec * 8) as i64,
            samples_per_sec as i32,
            channels as i32,
            (bits_per_sample / 8) as i32,
            sample_format,
        )
    }

    /// Audio format of an encoder from its bit rate, sample rate, channel
    /// count and sample format.
    pub fn from_codec(bit_rate: i64, sample_rate: i32, channels: i32, sample_format: i32) -> (r:
        Self)
        ensures
            r.bit_rate == bit_rate,
            r.sample_rate == sample_rate,
            r.channels == channels,
            r.bytes_per_sample == spec_sample_format_bytes(sample_format),
            r.sample_format == sample_format,
    {
        Self::new(bit_rate, sample_rate, channels, sample_format_bytes(sample_format), sample_format)
    }

    /// Number of whole sample frames in `len` bytes, for a positive frame size.
    pub open spec fn spec_frames_in(self, len: int) -> int {
        len / self.spec_frame_bytes()
    }

    /// Byte planes that hold `bytes` of interleaved audio in this format: one
    /// plane per channel for a planar format, each holding that channel's
    /// samples of the whole sample frames in `bytes`; otherwise a single
    /// plane with all of `bytes`.
    pub fn from_bytes(&self, bytes: &[u8]) -> (r: Vec<Vec<u8>>)
        requires
            self.channels > 0,
            self.bytes_per_sample > 0,
            self.spec_frame_bytes() <= i32::MAX,
            bytes@.len() <= i32::MAX,
            spec_sample_format_is_planar(self.sample_format) ==> self.channels <= 8,
        ensures
            spec_sample_format_is_planar(self.sample_format) ==> {
                &&& r@.len() == self.channels
                &&& forall|c: int|
                    #![trigger r@[c]]
                    0 <= c < self.channels ==> r@[c]@.len() == self.spec_frames_in(
                        bytes@.len() as int,
                    ) * self.bytes_per_sample
                &&& forall|c: int, j: int|
                    #![trigger r@[c]@[j]]
                    0 <= c < self.channels && 0 <= j < r@[c]@.len() ==> r@[c]@[j] == planar_byte(
                        bytes@,
                        self.channels as int,
                        self.bytes_per_sample as int,
                        c,
                        j,
                    )
            },
            !spec_sample_format_is_planar(self.sample_format) ==> r@.len() == 1 && r@[0]@
                == bytes@,
    {
        proof {
            assert(self.channels * self.bytes_per_sample > 0) by (nonlinear_arith)
                requires
                    self.channels > 0,
                    self.bytes_per_sample > 0,
            ;
        }
        let nb = self.nb_samples(bytes.len() as i32);
        let channels = self.channels as usize;
        let bps = self.bytes_per_sample as usize;
        let mut planes: Vec<Vec<u8>> = Vec::new();
        if !sample_format_is_planar(self.sample_format) {
            planes.push(slice_to_vec(bytes));
            return planes;
        }
        let ghost len = bytes@.len() as int;
        assert(len == bytes.len());
        let ghost fb = self.spec_frame_bytes();
        proof {
            assert(nb == len / fb);
            assert(0 <= nb * fb <= len) by (nonlinear_arith)
                requires
                    nb == len / fb,
                    fb > 0,
                    len >= 0,
            ;
            assert(nb * fb == nb * channels * bps) by (nonlinear_arith)
                requires
                    fb == channels * bps,
            ;
            assert(nb * bps <= nb * channels * bps) by (nonlinear_arith)
                requires
                    nb >= 0,
                    channels >= 1,
                    bps >= 1,
            ;
        }
        let plane_len = nb as usize * bps;
        let mut c: usize = 0;
        while c < channels
            invariant
                channels == self.channels,
                bps == self.bytes_per_sample,
                bps > 0,
                channels > 0,
                nb >= 0,
                plane_len == nb * bps,
                nb * channels * bps <= len,
                len == bytes@.len(),
                len <= usize::MAX,
                c <= channels,
                planes@.len() == c,
                forall|d: int| #![trigger planes@[d]] 0 <= d < c ==> planes@[d]@.len() == plane_len,
                forall|d: int, j: int|
                    #![trigger planes@[d]@[j]]
                    0 <= d < c && 0 <= j < plane_len ==> planes@[d]@[j] == planar_byte(
                        bytes@,
                        channels as int,
                        bps as int,
                        d,
                        j,
                    ),
            decreases channels - c,
        {
            let mut plane: Vec<u8> = Vec::new();
            let mut j: usize = 0;
            while j < plane_len
                invariant
                    channels == self.channels,
                    bps == self.bytes_per_sample,
                    bps > 0,
                    channels > 0,
                    nb >= 0,
                    c < channels,
                    plane_len == nb * bps,
                    nb * channels * bps <= len,
                    len == bytes@.len(),
                    len <= usize::MAX,
                    j <= plane_len,
                    plane@.len() == j,
                    forall|k: int|
                        #![trigger plane@[k]]
                        0 <= k < j ==> plane@[k] == planar_byte(
                            bytes@,
                            channels as int,
                            bps as int,
                            c as int,
                            k,
                        ),
                decreases plane_len - j,
            {
                let q = j / bps;
                let m = j % bps;
                proof {
                    lemma_planar_index_in_bounds(j as int, bps as int, channels as int, c as int, nb as int);
                }
                let idx = (q * channels + c) * bps + m;
                plane.push(bytes[idx]);
                j = j + 1;
            }
            planes.push(plane);
            c = c + 1;
        }
        planes
    }
}

} // verus!
