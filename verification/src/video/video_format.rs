use vstd::prelude::*;

verus! {

/// Shape of a video stream: frame size, bit rate, pixel format and rate.
#[derive(Clone, Copy, Debug, PartialEq, Eq, Structural)]
pub struct VideoFormat {
    pub width: i32,
    pub height: i32,
    pub bit_rate: i64,
    pub pix_fmt: i32,
    pub fps: i32,
}

impl VideoFormat {
    /// Bytes in one row of a packed 32-bit-per-pixel frame of this width.
    pub fn line_size(&self) -> (r: i32)
        requires
            i32::MIN <= self.width * 4 <= i32::MAX,
        ensures
            r == self.width * 4,
    {
        self.width * 4
    }
}

} // verus!
