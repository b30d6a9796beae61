use vstd::prelude::*;

verus! {

/// Longest period a timer may be built with, in milliseconds.
pub const MAX_DURATION_MS: u32 = 1000000;

/// A one-shot countdown over integer milliseconds. Once elapsed time reaches
/// the duration the timer is finished and stays so until it is reset.
#[derive(Clone, Copy, PartialEq, Eq, Structural, Debug)]
pub struct Timer {
    pub elapsed_ms: u32,
    pub duration_ms: u32,
}

impl Timer {
    pub open spec fn elapsed(self) -> int {
        self.elapsed_ms as int
    }

    pub open spec fn duration(self) -> int {
        self.duration_ms as int
    }

    pub open spec fn wf(self) -> bool {
        1 <= self.duration() <= MAX_DURATION_MS && 0 <= self.elapsed() <= self.duration()
    }

    /// The timer has completed its period.
    pub open spec fn spec_finished(self) -> bool {
        self.elapsed() >= self.duration()
    }

    /// Elapsed time after advancing by `delta`, capped at the duration.
    pub open spec fn advanced(self, delta: int) -> int {
        if self.elapsed() + delta >= self.duration() {
            self.duration()
        } else {
            self.elapsed() + delta
        }
    }

    pub fn from_millis(duration_ms: u32) -> (r: Timer)
        requires
            1 <= duration_ms <= MAX_DURATION_MS,
        ensures
            r.elapsed() == 0,
            r.duration() == duration_ms,
            r.wf(),
    {
        Timer { elapsed_ms: 0, duration_ms }
    }

    /// Advance by `delta_ms` of real time; elapsed time saturates at the
    /// duration, so a finished timer stays exactly at its period.
    pub fn tick(&mut self, delta_ms: u32)
        requires
            old(self).wf(),
        ensures
            final(self).wf(),
            final(self).duration() == old(self).duration(),
            final(self).elapsed() == old(self).advanced(delta_ms as int),
    {
        if delta_ms >= self.duration_ms - self.elapsed_ms {
            self.elapsed_ms = self.duration_ms;
        } else {
            self.elapsed_ms = self.elapsed_ms + delta_ms;
        }
    }

    /// Wind back to the start of a fresh period.
    pub fn reset(&mut self)
        requires
            old(self).wf(),
        ensures
            final(self).wf(),
            final(self).duration() == old(self).duration(),
            final(self).elapsed() == 0,
    {
        self.elapsed_ms = 0;
    }

    /// Begin a fresh period of a new duration.
    pub fn restart(&mut self, duration_ms: u32)
        requires
            1 <= duration_ms <= MAX_DURATION_MS,
        ensures
            final(self).wf(),
            final(self).duration() == duration_ms,
            final(self).elapsed() == 0,
    {
        self.duration_ms = duration_ms;
        self.elapsed_ms = 0;
    }

    pub fn finished(&self) -> (r: bool)
        ensures
            r == self.spec_finished(),
    {
        self.elapsed_ms >= self.duration_ms
    }

    pub fn elapsed_millis(&self) -> (r: u32)
        ensures
            r == self.elapsed(),
    {
        self.elapsed_ms
    }

    pub fn duration_millis(&self) -> (r: u32)
        ensures
            r == self.duration(),
    {
        self.duration_ms
    }
}

} // verus!
