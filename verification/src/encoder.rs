use vstd::prelude::*;

verus! {

/// Muxer flag (FFmpeg `AVFMT_GLOBALHEADER`): the container wants codec
/// headers once, out of band.
pub const FORMAT_GLOBAL_HEADER: i32 = 0x0040;

/// Codec flag (FFmpeg `AV_CODEC_FLAG_GLOBAL_HEADER`): put headers in
/// extradata instead of every keyframe.
pub const CODEC_FLAG_GLOBAL_HEADER: i32 = 0x0040_0000;

/// Codec flags for an encoder writing into a container with
/// `format_flags`: global headers are requested when the container wants
/// them; other flags are kept.
pub fn codec_flags(format_flags: i32, flags: i32) -> (r: i32)
    ensures
        (format_flags & FORMAT_GLOBAL_HEADER) != 0 ==> r == flags | CODEC_FLAG_GLOBAL_HEADER,
        (format_flags & FORMAT_GLOBAL_HEADER) == 0 ==> r == flags,
{
    if format_flags & FORMAT_GLOBAL_HEADER != 0 {
        flags | CODEC_FLAG_GLOBAL_HEADER
    } else {
        flags
    }
}

} // verus!
