use vstd::prelude::*;

verus! {

/// A source of captured audio: interleaved sample bytes in the source's own
/// format. Errors are reported as messages.
pub trait AudioInput {
    fn start(&self) -> Result<(), String>;

    fn capture(&mut self) -> Result<Vec<u8>, String>;

    fn stop(&self) -> Result<(), String>;
}

} // verus!
