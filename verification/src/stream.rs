use vstd::prelude::*;
use vstd::string::*;

use crate::decimal::{append_signed_decimal, signed_decimal};

verus! {

/// Muxer flag (FFmpeg `AVFMT_NOFILE`): the container does its own I/O.
pub const FORMAT_NO_FILE: i32 = 0x0001;

/// Whether the output URL must be opened before the header is written:
/// unless the container does its own I/O.
pub fn needs_io_open(format_flags: i32) -> (r: bool)
    ensures
        r == ((format_flags & FORMAT_NO_FILE) == 0),
{
    format_flags & FORMAT_NO_FILE == 0
}

/// The error reported when the output URL cannot be opened.
pub open spec fn open_error_message(url: Seq<char>) -> Seq<char> {
    "Failed to open output URL: "@ + url
}

/// The error reported when the stream header cannot be written.
pub open spec fn header_error_message(code: int) -> Seq<char> {
    "Failed to write stream header: "@ + signed_decimal(code)
}

/// Outcome of opening the output `url`, given the code the open returned:
/// FFmpeg reports failure with a negative code.
pub fn open_outcome(code: i32, url: &str) -> (r: Result<(), String>)
    ensures
        r is Ok <==> code >= 0,
        r matches Err(m) ==> m@ == open_error_message(url@),
{
    if code < 0 {
        let mut m = String::from_str("Failed to open output URL: ");
        proof {
            reveal_strlit("Failed to open output URL: ");
        }
        m.append(url);
        Err(m)
    } else {
        Ok(())
    }
}

/// Outcome of writing the stream header, given the code the write
/// returned: a negative code is a failure, reported with the code.
pub fn header_outcome(code: i32) -> (r: Result<(), String>)
    ensures
        r is Ok <==> code >= 0,
        r matches Err(m) ==> m@ == header_error_message(code as int),
{
    if code < 0 {
        let mut m = String::from_str("Failed to write stream header: ");
        proof {
            reveal_strlit("Failed to write stream header: ");
        }
        append_signed_decimal(&mut m, code);
        Err(m)
    } else {
        Ok(())
    }
}

} // verus!
