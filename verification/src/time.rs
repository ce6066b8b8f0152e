//! Frame timing over clock readings in nanoseconds. Reading the clock is the
//! caller's part.

use vstd::prelude::*;

verus! {

/// Time tracking for the frame loop. A clock reading is the number of
/// nanoseconds since the loop started.
#[derive(Debug)]
pub struct Time {
    last_frame_nanos: u64,
    delta_nanos: u64,
    total_nanos: u64,
    frame_count: u64,
}

/// The mathematical state of the frame timer.
pub struct TimeState {
    /// The clock reading of the last frame.
    pub last_frame: nat,
    /// The time between the last two frames.
    pub delta: nat,
    /// The time from the start to the last frame.
    pub total: nat,
    /// The frames counted.
    pub frames: nat,
}

impl TimeState {
    pub open spec fn start() -> Self {
        TimeState { last_frame: 0, delta: 0, total: 0, frames: 0 }
    }

    /// The state after a frame that starts at clock reading `now`. A reading
    /// that lies before the last one counts as no time passed.
    pub open spec fn update(self, now: nat) -> Self {
        TimeState {
            last_frame: now,
            delta: if now >= self.last_frame {
                (now - self.last_frame) as nat
            } else {
                0
            },
            total: now,
            frames: self.frames + 1,
        }
    }
}

impl Time {
    pub closed spec fn view(&self) -> TimeState {
        TimeState {
            last_frame: self.last_frame_nanos as nat,
            delta: self.delta_nanos as nat,
            total: self.total_nanos as nat,
            frames: self.frame_count as nat,
        }
    }

    /// A timer at the start of the loop: no frame yet, no time passed.
    pub fn new() -> (time: Self)
        ensures
            time@ == TimeState::start(),
    {
        Time { last_frame_nanos: 0, delta_nanos: 0, total_nanos: 0, frame_count: 0 }
    }

    /// Call at the start of each frame, with the clock reading.
    pub fn update(&mut self, now_nanos: u64)
        requires
            old(self)@.frames < u64::MAX,
        ensures
            final(self)@ == old(self)@.update(now_nanos as nat),
    {
        self.delta_nanos = if now_nanos >= self.last_frame_nanos {
            now_nanos - self.last_frame_nanos
        } else {
            0
        };
        self.total_nanos = now_nanos;
        self.last_frame_nanos = now_nanos;
        self.frame_count = self.frame_count + 1;
    }

    /// Time between the last two frames, in nanoseconds.
    pub fn delta_duration(&self) -> (nanos: u64)
        ensures
            nanos == self@.delta,
    {
        self.delta_nanos
    }

    /// Time from the start to the last frame, in nanoseconds.
    pub fn total_duration(&self) -> (nanos: u64)
        ensures
            nanos == self@.total,
    {
        self.total_nanos
    }

    /// Total frames counted.
    pub fn frame_count(&self) -> (frames: u64)
        ensures
            frames == self@.frames,
    {
        self.frame_count
    }
}

} // verus!
