//! Frame timing: the time between frames and the frame rate.

use vstd::prelude::*;

verus! {

/// Nanoseconds per second.
pub const NANOS_PER_SEC: u64 = 1_000_000_000;

/// How often the frame rate is measured, in nanoseconds.
pub const FRAMERATE_UPDATE_STEP: u64 = 100_000_000;

/// `frames` frames in `elapsed` nanoseconds, as frames per second rounded to
/// the nearest whole number (halves up).
pub open spec fn rounded_rate(frames: int, elapsed: int) -> int {
    (2 * frames * NANOS_PER_SEC + elapsed) / (2 * elapsed)
}

/// Frame timing state; times are nanoseconds since a fixed origin.
pub struct Debug {
    current_time: u64,
    last_time: u64,
    last_framerate_measure: u64,
    delta_time: u64,
    frames_count: u32,
    framerate: u32,
}

impl Default for Debug {
    fn default() -> (r: Self)
        ensures
            r.wf(),
            r.last_time_view() == 0,
            r.measure_view() == 0,
            r.frames_view() == 0,
            r.framerate_view() == 0,
            r.delta_view() == 0,
    {
        Debug {
            current_time: 0,
            last_time: 0,
            last_framerate_measure: 0,
            delta_time: 0,
            frames_count: 0,
            framerate: 0,
        }
    }
}

impl Debug {
    /// The last frame comes no earlier than the last measurement.
    pub closed spec fn wf(&self) -> bool {
        self.current_time == self.last_time && self.last_framerate_measure <= self.last_time
    }

    pub closed spec fn last_time_view(&self) -> u64 {
        self.last_time
    }

    pub closed spec fn measure_view(&self) -> u64 {
        self.last_framerate_measure
    }

    pub closed spec fn frames_view(&self) -> u32 {
        self.frames_count
    }

    pub closed spec fn framerate_view(&self) -> u32 {
        self.framerate
    }

    pub closed spec fn delta_view(&self) -> u64 {
        self.delta_time
    }

    /// The frame rate at the last measurement, in frames per second.
    pub fn framerate(&self) -> (r: u32)
        ensures
            r == self.framerate_view(),
    {
        self.framerate
    }

    /// The time between the last two frames, in nanoseconds.
    pub fn delta_time(&self) -> (r: u64)
        ensures
            r == self.delta_view(),
    {
        self.delta_time
    }

    /// The time of the last recorded frame, in nanoseconds.
    pub fn last_time(&self) -> (r: u64)
        ensures
            r == self.last_time_view(),
    {
        self.last_time
    }

    /// The frames counted since the last measurement.
    pub fn frames_count(&self) -> (r: u32)
        ensures
            r == self.frames_view(),
    {
        self.frames_count
    }

    /// Records a frame at time `now`. Once `FRAMERATE_UPDATE_STEP` has passed
    /// since the last measurement, the frame rate becomes the frames counted
    /// since then over the time passed (capped at `u32::MAX`), and counting restarts.
    pub fn update_framerate(&mut self, now: u64)
        requires
            old(self).wf(),
            now >= old(self).last_time_view(),
            old(self).frames_view() < u32::MAX,
        ensures
            final(self).wf(),
            final(self).last_time_view() == now,
            final(self).delta_view() == now - old(self).last_time_view(),
            now - old(self).measure_view() >= FRAMERATE_UPDATE_STEP ==> {
                &&& final(self).framerate_view() as int == if rounded_rate(
                    old(self).frames_view() + 1,
                    now - old(self).measure_view(),
                ) > u32::MAX {
                    u32::MAX as int
                } else {
                    rounded_rate(old(self).frames_view() + 1, now - old(self).measure_view())
                }
                &&& final(self).frames_view() == 0
                &&& final(self).measure_view() == now
            },
            now - old(self).measure_view() < FRAMERATE_UPDATE_STEP ==> {
                &&& final(self).framerate_view() == old(self).framerate_view()
                &&& final(self).frames_view() == old(self).frames_view() + 1
                &&& final(self).measure_view() == old(self).measure_view()
            },
    {
        self.current_time = now;
        self.delta_time = self.current_time - self.last_time;
        self.last_time = self.current_time;
        self.frames_count += 1;
        let elapsed = self.current_time - self.last_framerate_measure;
        if elapsed >= FRAMERATE_UPDATE_STEP {
            let frames = self.frames_count as u128;
            proof {
                assert(2 * frames * 1_000_000_000 <= 2 * 0xffff_ffff * 1_000_000_000nat)
                    by (nonlinear_arith)
                    requires
                        frames <= 0xffff_ffff,
                ;
            }
            let num = 2 * frames * (NANOS_PER_SEC as u128) + elapsed as u128;
            let rate = num / (2 * elapsed as u128);
            self.framerate = if rate > u32::MAX as u128 {
                u32::MAX
            } else {
                rate as u32
            };
            self.frames_count = 0;
            self.last_framerate_measure = self.current_time;
        }
    }
}

} // verus!
