use vstd::prelude::*;
use vstd::string::*;

verus! {

/// What a mixing round does next. A round captures from the first input,
/// then from the second, then mixes the two; it yields silence as soon as
/// a capture comes back empty.
#[derive(Debug, Clone, Copy, PartialEq, Eq, Structural)]
pub enum MixAction {
    CaptureA,
    CaptureB,
    Silence,
    Mix,
}

/// The error reported when a round starts before both resamplers are set.
pub open spec fn resampler_missing_message() -> Seq<char> {
    "Resampler not set up for one or both inputs"@
}

/// First step of a mixing round: fails unless both inputs have a
/// resampler, and otherwise captures from the first input.
pub fn mix_start(a_ready: bool, b_ready: bool) -> (r: Result<MixAction, String>)
    ensures
        r is Ok <==> a_ready && b_ready,
        r matches Ok(action) ==> action == MixAction::CaptureA,
        r matches Err(m) ==> m@ == resampler_missing_message(),
{
    if a_ready && b_ready {
        Ok(MixAction::CaptureA)
    } else {
        proof {
            reveal_strlit("Resampler not set up for one or both inputs");
        }
        Err(String::from_str("Resampler not set up for one or both inputs"))
    }
}

/// Step after a capture of `captured` bytes, from the second input when
/// `from_b`: silence for an empty capture, else the second capture or the
/// mix.
pub fn mix_after_capture(from_b: bool, captured: usize) -> (r: MixAction)
    ensures
        r == (if captured == 0 {
            MixAction::Silence
        } else if from_b {
            MixAction::Mix
        } else {
            MixAction::CaptureB
        }),
{
    if captured == 0 {
        MixAction::Silence
    } else if from_b {
        MixAction::Mix
    } else {
        MixAction::CaptureB
    }
}

} // verus!
