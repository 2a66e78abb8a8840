use vstd::prelude::*;

use crate::audio::audio_format::AudioFormat;

verus! {

/// Audio endpoint directions (Win32 `EDataFlow`).
pub const FLOW_RENDER: i32 = 0;
pub const FLOW_CAPTURE: i32 = 1;

/// Win32 `AUDCLNT_STREAMFLAGS_LOOPBACK`: capture what an output device plays.
pub const STREAMFLAGS_LOOPBACK: u32 = 0x0002_0000;

/// Buffer duration requested from the audio engine, in 100 ns units (1 s).
pub const HNS_BUFFER_DURATION: i64 = 10_000_000;

/// Stream flags an audio client is opened with for an endpoint of the given
/// direction: a microphone is captured directly, an output device through
/// loopback; any other direction is refused.
pub fn stream_flags(flow: i32) -> (r: Result<u32, String>)
    ensures
        flow == FLOW_CAPTURE ==> r == Ok::<u32, String>(0),
        flow == FLOW_RENDER ==> r == Ok::<u32, String>(STREAMFLAGS_LOOPBACK),
        flow != FLOW_CAPTURE && flow != FLOW_RENDER ==> (r matches Err(e) && e@
            == "Unsupported data flow"@),
{
    if flow == FLOW_CAPTURE {
        Ok(0)
    } else if flow == FLOW_RENDER {
        Ok(STREAMFLAGS_LOOPBACK)
    } else {
        Err(String::from_str("Unsupported data flow"))
    }
}

impl AudioFormat {
    /// Bytes in a captured packet of `frames` sample frames.
    pub fn packet_bytes(&self, frames: u32) -> (r: usize)
        requires
            self.channels >= 0,
            self.bytes_per_sample >= 0,
            frames * self.channels * self.bytes_per_sample <= usize::MAX,
        ensures
            r == frames * self.channels * self.bytes_per_sample,
    {
        let f = frames as usize;
        let c = self.channels as usize;
        let b = self.bytes_per_sample as usize;
        proof {
            assert(f * c <= f * c * b || b == 0) by (nonlinear_arith)
                requires
                    f >= 0,
                    c >= 0,
                    b >= 0,
            ;
        }
        if b == 0 {
            proof {
                assert(f * c * b == 0) by (nonlinear_arith)
                    requires
                        b == 0,
                ;
            }
            return 0;
        }
        f * c * b
    }
}

} // verus!
