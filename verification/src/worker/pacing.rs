//! When the next frame is due. Times are in nanoseconds.
use vstd::prelude::*;

verus! {

/// How long a frame lasts.
pub const EMULATOR_FRAME_DURATION: u64 = 16_000_000;

/// How often the frame socket looks for a new picture.
pub const FRAME_SOCKET_POLL_INTERVAL: u64 = 7_000_000;

/// Moves the deadline on by one frame and says how long to sleep until then. Where the deadline has
/// passed there is no sleep, and where it has passed by more than a frame it starts over from now.
pub fn schedule_next_frame_sleep(next_frame_at: &mut u64, now: u64, frame_duration: u64) -> (
sleep_for: Option<u64>)
    requires
        *old(next_frame_at) + frame_duration <= u64::MAX,
    ensures
        ({
            let due = *old(next_frame_at) + frame_duration;
            &&& sleep_for == if now < due {
                Some((due - now) as u64)
            } else {
                None
            }
            &&& *final(next_frame_at) == if now > due + frame_duration {
                now as int
            } else {
                due
            }
        }),
{
    *next_frame_at = *next_frame_at + frame_duration;
    if now < *next_frame_at {
        return Some(*next_frame_at - now);
    }
    if now - *next_frame_at > frame_duration {
        *next_frame_at = now;
    }
    None
}

} // verus!
