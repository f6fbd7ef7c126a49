//! Frame pacing: when the next frame is due, and how long to wait for it.
use vstd::prelude::*;

verus! {

/// Tracks the time between frames, in nanoseconds on a monotonic clock.
pub struct FrameTracker {
    now: u64,
    next: u64,
    frame_duration: u64,
}

/// The times a [`FrameTracker`] holds: the start of the current frame,
/// when the next one is due, and the length of a frame.
pub struct FrameTrackerView {
    pub now: u64,
    pub next: u64,
    pub frame_duration: u64,
}

impl View for FrameTracker {
    type V = FrameTrackerView;

    closed spec fn view(&self) -> FrameTrackerView {
        FrameTrackerView { now: self.now, next: self.next, frame_duration: self.frame_duration }
    }
}

impl FrameTracker {
    /// The next frame is due one frame after the current one started.
    #[verifier::type_invariant]
    spec fn inv(&self) -> bool {
        self.next == self.now + self.frame_duration
    }

    /// Creates a new `FrameTracker` whose frames last `frame_duration`,
    /// starting at `now`. A duration of zero runs as fast as possible.
    pub fn new(frame_duration: u64, now: u64) -> (r: Self)
        requires
            now + frame_duration <= u64::MAX,
        ensures
            r@.now == now,
            r@.next == now + frame_duration,
            r@.frame_duration == frame_duration,
    {
        FrameTracker { now, next: now + frame_duration, frame_duration }
    }

    /// Ends the current frame at time `now`: gives how long to sleep until
    /// the next frame is due (zero where it is already due), and starts the
    /// next frame at `now`.
    pub fn end_frame(&mut self, now: u64) -> (sleep: u64)
        requires
            now + old(self)@.frame_duration <= u64::MAX,
        ensures
            sleep == if old(self)@.next > now { old(self)@.next - now } else { 0 },
            final(self)@.now == now,
            final(self)@.next == now + old(self)@.frame_duration,
            final(self)@.frame_duration == old(self)@.frame_duration,
            old(self)@.next == old(self)@.now + old(self)@.frame_duration,
            now >= old(self)@.now ==> sleep <= old(self)@.frame_duration,
    {
        proof {
            use_type_invariant(&*self);
        }
        let sleep = if self.next > now { self.next - now } else { 0 };
        *self = FrameTracker { now, next: now + self.frame_duration, frame_duration: self.frame_duration };
        sleep
    }
}

} // verus!
