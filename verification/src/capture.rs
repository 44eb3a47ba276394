//! Screenshot mode: the overlay counts its frames and asks for a capture
//! once it has settled.

use vstd::prelude::*;

verus! {

/// The frame on which screenshot mode asks for a capture.
pub const CAPTURE_FRAME: u32 = 20;

/// One frame of screenshot mode: the count goes up by one, and the capture
/// is asked for when the count reaches `CAPTURE_FRAME`.
pub fn screenshot_frame_step(frame: u32) -> (r: (u32, bool))
    requires
        frame < u32::MAX,
    ensures
        r.0 == frame + 1,
        r.1 == (frame + 1 == CAPTURE_FRAME),
{
    let next = frame + 1;
    (next, next == CAPTURE_FRAME)
}

} // verus!
