//! Pacing of the network callbacks: they are run on every third frame.

use vstd::prelude::*;

verus! {

/// The callbacks are run once in this many frames.
pub const FRAMES_PER_CALLBACK_RUN: u32 = 3;

/// Counts the frames since the network callbacks were last run.
#[derive(Clone, Copy, Debug, PartialEq, Eq, Structural)]
pub struct CallbackPacer {
    pub frames_since_callback_run: u32,
}

impl CallbackPacer {
    /// Creates a pacer that has counted no frame.
    pub fn new() -> (pacer: CallbackPacer)
        ensures
            pacer.frames_since_callback_run == 0,
    {
        CallbackPacer { frames_since_callback_run: 0 }
    }

    /// Counts one frame and says whether the callbacks are to be run in it:
    /// they are when this is the third frame or a later one since the last
    /// run. The count then starts again.
    pub fn frame(&mut self) -> (run: bool)
        ensures
            run == (old(self).frames_since_callback_run + 1 >= FRAMES_PER_CALLBACK_RUN),
            final(self).frames_since_callback_run == if run {
                0
            } else {
                old(self).frames_since_callback_run + 1
            },
    {
        if self.frames_since_callback_run >= FRAMES_PER_CALLBACK_RUN - 1 {
            self.frames_since_callback_run = 0;
            true
        } else {
            self.frames_since_callback_run += 1;
            false
        }
    }
}

} // verus!
