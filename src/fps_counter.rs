use vstd::prelude::*;

verus! {

/// Frames between two reports.
pub const REPORT_EVERY: u64 = 100;

/// Frames after which the count and the start time are reset.
pub const RESET_EVERY: u64 = 180;

/// Counts frames since a start time, given in microseconds.
pub struct FpsCounter {
    pub count: u64,
    pub time: u64,
}

/// What a report hands to the log: frames counted and time elapsed since the start.
#[derive(Clone, Copy, Debug, PartialEq, Eq, Structural)]
pub struct FpsReport {
    pub frames: u64,
    pub elapsed_micros: u64,
}

/// A counter with no frames, started at `now`.
pub fn default_counter(now: u64) -> (r: FpsCounter)
    ensures
        r.count == 0,
        r.time == now,
{
    FpsCounter { count: 0, time: now }
}

impl FpsCounter {
    /// Counts one frame.
    pub fn frame(&mut self)
        requires
            old(self).count < u64::MAX,
        ensures
            final(self).count == old(self).count + 1,
            final(self).time == old(self).time,
    {
        self.count = self.count + 1;
    }

    /// Every `REPORT_EVERY` frames, returns the frames and the time elapsed up
    /// to `now` (zero if `now` is before the start); every `RESET_EVERY`
    /// frames, restarts the count at `now`.
    pub fn report(&mut self, now: u64) -> (r: Option<FpsReport>)
        ensures
            r == (if old(self).count % REPORT_EVERY == 0 {
                Some(
                    FpsReport {
                        frames: old(self).count,
                        elapsed_micros: if now >= old(self).time {
                            (now - old(self).time) as u64
                        } else {
                            0
                        },
                    },
                )
            } else {
                None::<FpsReport>
            }),
            old(self).count % RESET_EVERY == 0 ==> final(self).count == 0 && final(self).time == now,
            old(self).count % RESET_EVERY != 0 ==> final(self).count == old(self).count
                && final(self).time == old(self).time,
    {
        let r = if self.count % REPORT_EVERY == 0 {
            let elapsed = if now >= self.time {
                now - self.time
            } else {
                0
            };
            Some(FpsReport { frames: self.count, elapsed_micros: elapsed })
        } else {
            None
        };
        if self.count % RESET_EVERY == 0 {
            self.count = 0;
            self.time = now;
        }
        r
    }
}

} // verus!
