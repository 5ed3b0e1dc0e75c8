//! A repeating timer counting elapsed seconds in fixed point.

use vstd::prelude::*;

verus! {

/// A repeating timer: `elapsed` grows with each tick and wraps at
/// `duration`, reporting on every tick whether a period was completed.
#[derive(Clone, Copy, PartialEq, Eq, Structural, Debug)]
pub struct RepeatingTimer {
    pub duration: i64,
    pub elapsed: i64,
    pub just_finished: bool,
}

impl RepeatingTimer {
    /// A sound timer state: a positive period, with the elapsed part
    /// strictly inside it.
    pub open spec fn wf(self) -> bool {
        0 < self.duration && 0 <= self.elapsed < self.duration
    }

    /// A fresh timer with the given period.
    pub fn from_seconds(duration: i64) -> (r: RepeatingTimer)
        requires
            0 < duration,
        ensures
            r == (RepeatingTimer { duration, elapsed: 0, just_finished: false }),
            r.wf(),
    {
        RepeatingTimer { duration, elapsed: 0, just_finished: false }
    }

    /// Advances the timer by `delta` seconds.  The timer reports a
    /// completion exactly when the accumulated time reaches the period,
    /// and keeps the remainder.
    pub fn tick(&mut self, delta: i64)
        requires
            old(self).wf(),
            0 <= delta,
            old(self).elapsed + delta <= i64::MAX,
        ensures
            final(self).wf(),
            final(self).duration == old(self).duration,
            final(self).just_finished == (old(self).elapsed + delta >= old(self).duration),
            final(self).elapsed == (old(self).elapsed + delta) % (old(self).duration as int),
    {
        let total: i64 = self.elapsed + delta;
        if total >= self.duration {
            self.just_finished = true;
            self.elapsed = ((total as u64) % (self.duration as u64)) as i64;
            proof {
                vstd::arithmetic::div_mod::lemma_mod_bound(total as int, self.duration as int);
            }
        } else {
            self.just_finished = false;
            self.elapsed = total;
            proof {
                vstd::arithmetic::div_mod::lemma_small_mod(total as nat, self.duration as nat);
            }
        }
    }

    /// Rewinds the timer to the start of its period.
    pub fn reset(&mut self)
        ensures
            *final(self) == (RepeatingTimer {
                duration: old(self).duration,
                elapsed: 0,
                just_finished: false,
            }),
    {
        self.elapsed = 0;
        self.just_finished = false;
    }
}

} // verus!
