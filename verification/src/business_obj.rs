//! Raw interval samples of one ball.

use vstd::prelude::*;

verus! {

/// The bare list of occurrence intervals observed for one ball.
#[derive(Clone, Debug)]
pub struct BallOccurInterval {
    pub ball: u8,
    pub intervals: Vec<u32>,
}

impl BallOccurInterval {
    pub fn new(ball: u8) -> (r: Self)
        ensures
            r.ball == ball,
            r.intervals@ == Seq::<u32>::empty(),
    {
        BallOccurInterval { ball, intervals: Vec::new() }
    }

    pub fn ball(&self) -> (r: u8)
        ensures
            r == self.ball,
    {
        self.ball
    }

    pub fn add_interval(&mut self, interval: u32)
        ensures
            final(self).ball == old(self).ball,
            final(self).intervals@ == old(self).intervals@.push(interval),
    {
        self.intervals.push(interval);
    }

    pub fn intervals(&self) -> (r: &Vec<u32>)
        ensures
            r == &self.intervals,
    {
        &self.intervals
    }
}

} // verus!
