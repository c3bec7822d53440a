use vstd::prelude::*;
use rand::rngs::StdRng;
use crate::random::draw_range;
use crate::trace::MAX_ADVANCE;

verus! {

/// The arrival clock: seconds since the Unix epoch, never moving backward.
pub struct EventClock {
    now: u64,
}

impl View for EventClock {
    type V = int;

    closed spec fn view(&self) -> int {
        self.now as int
    }
}

impl EventClock {
    pub fn new(start: u64) -> (r: EventClock)
        ensures
            r@ == start,
    {
        EventClock { now: start }
    }

    pub fn now(&self) -> (r: u64)
        ensures
            r == self@,
    {
        self.now
    }

    /// Moves the clock forward by `step` and returns the new time.
    pub fn advance_by(&mut self, step: u64) -> (r: u64)
        requires
            old(self)@ + step <= u64::MAX,
        ensures
            final(self)@ == old(self)@ + step,
            r == final(self)@,
    {
        self.now = self.now + step;
        self.now
    }

    /// Moves the clock forward by a random step below `MAX_ADVANCE` and
    /// returns the new time.
    pub fn advance(&mut self, rng: &mut StdRng) -> (r: u64)
        requires
            old(self)@ + MAX_ADVANCE <= u64::MAX,
        ensures
            old(self)@ <= final(self)@ < old(self)@ + MAX_ADVANCE,
            r == final(self)@,
    {
        let step = draw_range(rng, 0, MAX_ADVANCE);
        self.advance_by(step)
    }
}

} // verus!
