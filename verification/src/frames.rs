//! The frame-advance decision of sprite animations: which frame comes
//! next within a range, and whether the animation just ran off its
//! end. Timers and the drawing of frames stay with the driver.

use vstd::prelude::*;

verus! {

/// The next frame after `current` in `[range_start, range_end]`, and
/// whether the end was passed this step: past the end, a replaying
/// animation rewinds to the range start and a one-shot one rests on
/// the range end.
pub open spec fn spec_frame_step(
    current: int, range_start: int, range_end: int, replay: bool,
) -> (int, bool) {
    let next = current + 1;
    if next > range_end {
        if replay {
            (range_start, true)
        } else {
            (range_end, true)
        }
    } else {
        (next, false)
    }
}

/// Advance an animation by one frame; the second result reports that
/// the range's end was passed, which fires the animation's end hook.
pub fn frame_step(current: usize, range_start: usize, range_end: usize, replay: bool) -> (r: (
    usize,
    bool,
))
    requires
        current < usize::MAX,
    ensures
        ({
            let (next, ended) = spec_frame_step(
                current as int, range_start as int, range_end as int, replay,
            );
            r.0 == next && r.1 == ended
        }),
{
    let next: usize = current + 1;
    if next > range_end {
        if replay {
            (range_start, true)
        } else {
            (range_end, true)
        }
    } else {
        (next, false)
    }
}

} // verus!
