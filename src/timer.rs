use vstd::prelude::*;

verus! {

/// Twice `rto`, or the largest value when that does not fit.
pub open spec fn doubled(rto: u64) -> u64 {
    if 2 * rto <= u64::MAX { (2 * rto) as u64 } else { u64::MAX }
}

/// A retransmission countdown with exponential backoff, driven by
/// explicitly supplied elapsed time.
pub struct Timer {
    pub is_running: bool,
    pub initial_rto: u64,
    pub rto: u64,
    pub elapsed_time: u64,
}

impl Timer {
    /// A stopped timer with the given initial timeout.
    pub open spec fn new_spec(initial_rto: u64) -> Timer {
        Timer { is_running: false, initial_rto, rto: initial_rto, elapsed_time: 0 }
    }

    pub fn new(initial_rto: u64) -> (r: Self)
        ensures
            r == Timer::new_spec(initial_rto),
    {
        Timer { is_running: false, initial_rto, rto: initial_rto, elapsed_time: 0 }
    }

    /// Doubles the timeout (saturating at the largest value) and restarts
    /// the count of elapsed time.
    pub fn double_rto(&mut self)
        ensures
            final(self).rto == doubled(old(self).rto),
            final(self).elapsed_time == 0,
            final(self).is_running == old(self).is_running,
            final(self).initial_rto == old(self).initial_rto,
    {
        self.rto = if self.rto <= u64::MAX / 2 { self.rto * 2 } else { u64::MAX };
        self.elapsed_time = 0;
    }

    pub fn elapsed_time(&self) -> (r: u64)
        ensures
            r == self.elapsed_time,
    {
        self.elapsed_time
    }

    /// Lets `ms_since_last_tick` pass; true when a running timer has
    /// reached its timeout. A stopped timer does not count.
    pub fn increment(&mut self, ms_since_last_tick: u64) -> (fired: bool)
        ensures
            old(self).is_running ==> final(self).elapsed_time == if old(self).elapsed_time
                + ms_since_last_tick <= u64::MAX {
                old(self).elapsed_time + ms_since_last_tick
            } else {
                u64::MAX as int
            },
            !old(self).is_running ==> final(self).elapsed_time == old(self).elapsed_time,
            fired == (old(self).is_running && final(self).elapsed_time >= old(self).rto),
            final(self).is_running == old(self).is_running,
            final(self).rto == old(self).rto,
            final(self).initial_rto == old(self).initial_rto,
    {
        if self.is_running {
            self.elapsed_time = self.elapsed_time.saturating_add(ms_since_last_tick);
            self.rto <= self.elapsed_time
        } else {
            false
        }
    }

    pub fn is_running(&self) -> (r: bool)
        ensures
            r == self.is_running,
    {
        self.is_running
    }

    /// Back to the initial timeout with no time elapsed; running or not
    /// is left as it was.
    pub fn reset(&mut self)
        ensures
            final(self).rto == old(self).initial_rto,
            final(self).elapsed_time == 0,
            final(self).is_running == old(self).is_running,
            final(self).initial_rto == old(self).initial_rto,
    {
        self.rto = self.initial_rto;
        self.elapsed_time = 0;
    }

    /// Starts a stopped timer afresh; a running one is left alone.
    pub fn start(&mut self)
        ensures
            old(self).is_running ==> *final(self) == *old(self),
            !old(self).is_running ==> final(self).is_running && final(self).rto
                == old(self).initial_rto && final(self).elapsed_time == 0 && final(self).initial_rto
                == old(self).initial_rto,
    {
        if !self.is_running {
            self.is_running = true;
            self.reset();
        }
    }

    pub fn stop(&mut self)
        ensures
            !final(self).is_running,
            final(self).rto == old(self).rto,
            final(self).elapsed_time == old(self).elapsed_time,
            final(self).initial_rto == old(self).initial_rto,
    {
        self.is_running = false;
    }
}

} // verus!
