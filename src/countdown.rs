use vstd::prelude::*;

verus! {

/// A one-shot countdown measured in microseconds: it accrues elapsed time up
/// to its duration and is finished once the whole duration has elapsed.
#[derive(Clone, Copy, Debug, PartialEq, Eq, Structural)]
pub struct Countdown {
    pub duration: u64,
    pub elapsed: u64,
}

impl Countdown {
    pub open spec fn wf(self) -> bool {
        self.elapsed <= self.duration
    }

    pub open spec fn is_finished(self) -> bool {
        self.elapsed >= self.duration
    }

    /// The countdown after `delta` more microseconds, capped at its duration.
    pub open spec fn ticked(self, delta: u64) -> Countdown {
        Countdown {
            duration: self.duration,
            elapsed: if self.elapsed + delta >= self.duration {
                self.duration
            } else {
                (self.elapsed + delta) as u64
            },
        }
    }

    /// The countdown started over.
    pub open spec fn restarted(self) -> Countdown {
        Countdown { duration: self.duration, elapsed: 0 }
    }

    pub fn from_micros(duration: u64) -> (r: Countdown)
        ensures
            r == (Countdown { duration, elapsed: 0 }),
    {
        Countdown { duration, elapsed: 0 }
    }

    pub fn tick(&mut self, delta: u64)
        requires
            old(self).wf(),
        ensures
            *final(self) == old(self).ticked(delta),
            final(self).wf(),
    {
        if delta >= self.duration - self.elapsed {
            self.elapsed = self.duration;
        } else {
            self.elapsed = self.elapsed + delta;
        }
    }

    pub fn finished(&self) -> (r: bool)
        ensures
            r == self.is_finished(),
    {
        self.elapsed >= self.duration
    }

    pub fn reset(&mut self)
        ensures
            *final(self) == old(self).restarted(),
    {
        self.elapsed = 0;
    }
}

} // verus!
