//! Per-ball working records that analysis stages place on the blackboard.

use vstd::prelude::*;

verus! {

/// Interval statistics of one ball, keyed by the ball elsewhere.
#[derive(Clone, Copy, Debug, PartialEq, Eq, Structural)]
pub struct OccurDetail {
    pub average_interval: usize,
    pub occurrence_count: usize,
    pub latest_occur_seq: usize,
    pub count_based_on_average_interval: usize,
}

impl OccurDetail {
    pub fn average_interval(&self) -> (r: usize)
        ensures
            r == self.average_interval,
    {
        self.average_interval
    }

    pub fn set_average_interval(&mut self, average_interval: usize)
        ensures
            *final(self) == (OccurDetail { average_interval, ..*old(self) }),
    {
        self.average_interval = average_interval;
    }

    pub fn occurrence_count(&self) -> (r: usize)
        ensures
            r == self.occurrence_count,
    {
        self.occurrence_count
    }

    pub fn set_occurrence_count(&mut self, occurrence_count: usize)
        ensures
            *final(self) == (OccurDetail { occurrence_count, ..*old(self) }),
    {
        self.occurrence_count = occurrence_count
    }

    pub fn set_latest_occur_seq(&mut self, latest_occur_seq: usize)
        ensures
            *final(self) == (OccurDetail { latest_occur_seq, ..*old(self) }),
    {
        self.latest_occur_seq = latest_occur_seq
    }

    pub fn latest_occur_seq(&self) -> (r: usize)
        ensures
            r == self.latest_occur_seq,
    {
        self.latest_occur_seq
    }

    pub fn count_based_on_average_interval(&self) -> (r: usize)
        ensures
            r == self.count_based_on_average_interval,
    {
        self.count_based_on_average_interval
    }

    pub fn set_count_based_on_average_interval(&mut self, count_based_on_average_interval: usize)
        ensures
            *final(self) == (OccurDetail { count_based_on_average_interval, ..*old(self) }),
    {
        self.count_based_on_average_interval = count_based_on_average_interval;
    }
}

impl Default for OccurDetail {
    /// The all-zero entry that balls without any occurrence receive.
    fn default() -> (r: Self)
        ensures
            r == (OccurDetail {
                average_interval: 0,
                occurrence_count: 0,
                latest_occur_seq: 0,
                count_based_on_average_interval: 0,
            }),
    {
        OccurDetail {
            average_interval: 0,
            occurrence_count: 0,
            latest_occur_seq: 0,
            count_based_on_average_interval: 0,
        }
    }
}

/// Extended occurrence statistics of one ball, with the raw interval samples
/// kept alongside the aggregates. The expected next occurrence index is the
/// last occurrence index minus the average interval; it may be negative for
/// long-overdue balls.
#[derive(Debug)]
pub struct BallOccurInfo {
    pub ball: usize,
    pub intervals: Vec<usize>,
    pub max_interval: usize,
    pub min_interval: usize,
    pub average_interval: usize,
    pub occur_count: usize,
    pub last_occur_index: usize,
    pub possible_next_occur_index: i64,
}

/// Whether two per-ball records carry the same data.
pub open spec fn info_eq(a: BallOccurInfo, b: BallOccurInfo) -> bool {
    &&& a.ball == b.ball
    &&& a.intervals@ == b.intervals@
    &&& a.max_interval == b.max_interval
    &&& a.min_interval == b.min_interval
    &&& a.average_interval == b.average_interval
    &&& a.occur_count == b.occur_count
    &&& a.last_occur_index == b.last_occur_index
    &&& a.possible_next_occur_index == b.possible_next_occur_index
}

impl Clone for BallOccurInfo {
    fn clone(&self) -> (res: Self)
        ensures
            info_eq(res, *self),
    {
        let intervals = self.intervals.clone();
        proof {
            assert(intervals@ =~= self.intervals@);
        }
        BallOccurInfo {
            ball: self.ball,
            intervals,
            max_interval: self.max_interval,
            min_interval: self.min_interval,
            average_interval: self.average_interval,
            occur_count: self.occur_count,
            last_occur_index: self.last_occur_index,
            possible_next_occur_index: self.possible_next_occur_index,
        }
    }
}

impl BallOccurInfo {
    pub fn new(ball: usize) -> (r: Self)
        ensures
            r == (BallOccurInfo {
                ball,
                intervals: r.intervals,
                max_interval: 0,
                min_interval: 0,
                average_interval: 0,
                occur_count: 0,
                last_occur_index: 0,
                possible_next_occur_index: 0,
            }),
            r.intervals@ == Seq::<usize>::empty(),
    {
        BallOccurInfo {
            ball,
            intervals: Vec::new(),
            max_interval: 0,
            min_interval: 0,
            average_interval: 0,
            occur_count: 0,
            last_occur_index: 0,
            possible_next_occur_index: 0,
        }
    }

    pub fn ball(&self) -> (r: usize)
        ensures
            r == self.ball,
    {
        self.ball
    }

    pub fn add_interval(&mut self, interval: usize)
        ensures
            final(self).intervals@ == old(self).intervals@.push(interval),
            *final(self) == (BallOccurInfo { intervals: final(self).intervals, ..*old(self) }),
    {
        self.intervals.push(interval);
    }

    pub fn intervals(&self) -> (r: &Vec<usize>)
        ensures
            r == &self.intervals,
    {
        &self.intervals
    }

    pub fn set_max_interval(&mut self, max_interval: usize)
        ensures
            *final(self) == (BallOccurInfo { max_interval, ..*old(self) }),
    {
        self.max_interval = max_interval;
    }

    pub fn max_interval(&self) -> (r: usize)
        ensures
            r == self.max_interval,
    {
        self.max_interval
    }

    pub fn min_interval(&self) -> (r: usize)
        ensures
            r == self.min_interval,
    {
        self.min_interval
    }

    pub fn set_min_interval(&mut self, min_interval: usize)
        ensures
            *final(self) == (BallOccurInfo { min_interval, ..*old(self) }),
    {
        self.min_interval = min_interval;
    }

    pub fn average_interval(&self) -> (r: usize)
        ensures
            r == self.average_interval,
    {
        self.average_interval
    }

    pub fn set_average_interval(&mut self, average_interval: usize)
        ensures
            *final(self) == (BallOccurInfo { average_interval, ..*old(self) }),
    {
        self.average_interval = average_interval;
    }

    pub fn occur_count(&self) -> (r: usize)
        ensures
            r == self.occur_count,
    {
        self.occur_count
    }

    pub fn set_occur_count(&mut self, occur_count: usize)
        ensures
            *final(self) == (BallOccurInfo { occur_count, ..*old(self) }),
    {
        self.occur_count = occur_count
    }

    pub fn set_last_occur_index(&mut self, last_occur_index: usize)
        ensures
            *final(self) == (BallOccurInfo { last_occur_index, ..*old(self) }),
    {
        self.last_occur_index = last_occur_index
    }

    pub fn last_occur_index(&self) -> (r: usize)
        ensures
            r == self.last_occur_index,
    {
        self.last_occur_index
    }

    pub fn set_possible_next_occur_index(&mut self, possible_next_occur_index: i64)
        ensures
            *final(self) == (BallOccurInfo { possible_next_occur_index, ..*old(self) }),
    {
        self.possible_next_occur_index = possible_next_occur_index
    }

    pub fn possible_next_occur_index(&self) -> (r: i64)
        ensures
            r == self.possible_next_occur_index,
    {
        self.possible_next_occur_index
    }
}

} // verus!
