//! The two ball domains, calendar dates and validated draw records.

use vstd::prelude::*;

use crate::error::Error;

verus! {

/// Number of members of the blue-ball domain.
pub const BLUE_BALL_COUNT: u8 = 16;

/// Number of members of the red-ball domain.
pub const RED_BALL_COUNT: u8 = 33;

/// A member of the blue-ball domain: an integer in `1..=16`.
#[derive(Clone, Copy, Debug, PartialEq, Eq, Structural)]
pub struct BlueBall {
    pub value: u8,
}

/// A member of the red-ball domain: an integer in `1..=33`.
#[derive(Clone, Copy, Debug, PartialEq, Eq, Structural)]
pub struct RedBall {
    pub value: u8,
}

/// A ball of either domain; it is never ambiguous which domain a value
/// belongs to.
#[derive(Clone, Copy, Debug, PartialEq, Eq, Structural)]
pub enum Ball {
    Blue(BlueBall),
    Red(RedBall),
}

impl BlueBall {
    /// Which integers are members of the blue-ball domain.
    pub open spec fn spec_valid(value: u8) -> bool {
        1 <= value <= BLUE_BALL_COUNT
    }

    pub open spec fn spec_value(self) -> u8 {
        self.value
    }

    pub open spec fn wf(self) -> bool {
        Self::spec_valid(self.value)
    }

    /// Builds a blue ball, rejecting values outside the domain.
    pub fn new(value: u8) -> (r: Result<Self, Error>)
        ensures
            Self::spec_valid(value) <==> r is Ok,
            r matches Ok(b) ==> b == (BlueBall { value }) && b.wf(),
            r matches Err(e) ==> e matches Error::InvalidBallValue(v) && v == value,
    {
        if 1 <= value && value <= BLUE_BALL_COUNT {
            Ok(BlueBall { value })
        } else {
            Err(Error::InvalidBallValue(value))
        }
    }

    pub fn value(self) -> (v: u8)
        ensures
            v == self.spec_value(),
    {
        self.value
    }

    /// Every member of the blue-ball domain, in ascending order.
    pub fn all() -> (r: Vec<BlueBall>)
        ensures
            r@.len() == BLUE_BALL_COUNT,
            forall|i: int|
                0 <= i < r@.len() ==> (#[trigger] r@[i]).value == i + 1 && r@[i].wf(),
    {
        let mut r: Vec<BlueBall> = Vec::new();
        let mut v: u8 = 1;
        while v <= BLUE_BALL_COUNT
            invariant
                1 <= v <= BLUE_BALL_COUNT + 1,
                r@.len() == v - 1,
                forall|i: int|
                    0 <= i < r@.len() ==> (#[trigger] r@[i]).value == i + 1 && r@[i].wf(),
            decreases BLUE_BALL_COUNT + 1 - v,
        {
            r.push(BlueBall { value: v });
            v = v + 1;
        }
        r
    }
}

impl RedBall {
    /// Which integers are members of the red-ball domain.
    pub open spec fn spec_valid(value: u8) -> bool {
        1 <= value <= RED_BALL_COUNT
    }

    pub open spec fn spec_value(self) -> u8 {
        self.value
    }

    pub open spec fn wf(self) -> bool {
        Self::spec_valid(self.value)
    }

    /// Builds a red ball, rejecting values outside the domain.
    pub fn new(value: u8) -> (r: Result<Self, Error>)
        ensures
            Self::spec_valid(value) <==> r is Ok,
            r matches Ok(b) ==> b == (RedBall { value }) && b.wf(),
            r matches Err(e) ==> e matches Error::InvalidBallValue(v) && v == value,
    {
        if 1 <= value && value <= RED_BALL_COUNT {
            Ok(RedBall { value })
        } else {
            Err(Error::InvalidBallValue(value))
        }
    }

    pub fn value(self) -> (v: u8)
        ensures
            v == self.spec_value(),
    {
        self.value
    }

    /// Every member of the red-ball domain, in ascending order.
    pub fn all() -> (r: Vec<RedBall>)
        ensures
            r@.len() == RED_BALL_COUNT,
            forall|i: int|
                0 <= i < r@.len() ==> (#[trigger] r@[i]).value == i + 1 && r@[i].wf(),
    {
        let mut r: Vec<RedBall> = Vec::new();
        let mut v: u8 = 1;
        while v <= RED_BALL_COUNT
            invariant
                1 <= v <= RED_BALL_COUNT + 1,
                r@.len() == v - 1,
                forall|i: int|
                    0 <= i < r@.len() ==> (#[trigger] r@[i]).value == i + 1 && r@[i].wf(),
            decreases RED_BALL_COUNT + 1 - v,
        {
            r.push(RedBall { value: v });
            v = v + 1;
        }
        r
    }
}

impl Ball {
    pub open spec fn wf(self) -> bool {
        match self {
            Ball::Blue(b) => b.wf(),
            Ball::Red(r) => r.wf(),
        }
    }
}

/// A calendar date, held as plain year, month and day numbers. Dates are
/// ordered by their numeric key `year * 10000 + month * 100 + day`.
#[derive(Clone, Copy, Debug, PartialEq, Eq, Structural)]
pub struct DrawDate {
    pub year: u16,
    pub month: u8,
    pub day: u8,
}

impl DrawDate {
    pub open spec fn wf(self) -> bool {
        1 <= self.month <= 12 && 1 <= self.day <= 31
    }

    /// The date's position in the total order on dates.
    pub open spec fn spec_key(self) -> int {
        self.year * 10000 + self.month * 100 + self.day
    }

    /// Builds a date, rejecting month and day numbers no calendar has.
    pub fn new(year: u16, month: u8, day: u8) -> (r: Result<Self, Error>)
        ensures
            r is Ok <==> (DrawDate { year, month, day }).wf(),
            r matches Ok(d) ==> d == (DrawDate { year, month, day }),
            r matches Err(e) ==> e is OtherFailure,
    {
        if 1 <= month && month <= 12 && 1 <= day && day <= 31 {
            Ok(DrawDate { year, month, day })
        } else {
            Err(Error::OtherFailure("month or day out of range".to_owned()))
        }
    }

    pub fn key(&self) -> (k: u32)
        ensures
            k == self.spec_key(),
    {
        (self.year as u32) * 10000 + (self.month as u32) * 100 + (self.day as u32)
    }

    pub fn le(&self, other: &DrawDate) -> (r: bool)
        ensures
            r == (self.spec_key() <= other.spec_key()),
    {
        self.key() <= other.key()
    }
}

/// One validated draw record: a unique sequence index, a date, a weekday
/// label, one blue ball and six pairwise distinct red balls.
///
/// Sequence indices are assigned in chronological order, so ascending index
/// means ascending draw date; the analyzers rely on that convention.
#[derive(Debug)]
pub struct PrBusinessObj {
    pub code: String,
    pub seq: usize,
    pub date: DrawDate,
    pub day: String,
    pub blue_ball: BlueBall,
    pub red_balls: [RedBall; 6],
}

/// Whether six red balls are pairwise distinct.
pub open spec fn reds_distinct(rs: Seq<RedBall>) -> bool {
    forall|i: int, j: int| 0 <= i < j < rs.len() ==> rs[i] != rs[j]
}

impl Clone for PrBusinessObj {
    fn clone(&self) -> (res: Self)
        ensures
            res == *self,
    {
        PrBusinessObj {
            code: self.code.clone(),
            seq: self.seq,
            date: self.date,
            day: self.day.clone(),
            blue_ball: self.blue_ball,
            red_balls: self.red_balls,
        }
    }
}

impl PrBusinessObj {
    /// The record's well-formedness: both domains respected and the six red
    /// balls pairwise distinct.
    pub open spec fn wf(self) -> bool {
        &&& self.blue_ball.wf()
        &&& forall|i: int| 0 <= i < 6 ==> (#[trigger] self.red_balls[i]).wf()
        &&& reds_distinct(self.red_balls@)
    }

    /// Builds a record, rejecting out-of-domain ball values and red balls
    /// that are not pairwise distinct.
    pub fn new(
        code: String,
        seq: usize,
        date: DrawDate,
        day: String,
        blue_ball: BlueBall,
        red_balls: [RedBall; 6],
    ) -> (r: Result<Self, Error>)
        ensures
            r is Ok <==> (PrBusinessObj { code, seq, date, day, blue_ball, red_balls }).wf(),
            r matches Ok(rec) ==> rec == (PrBusinessObj {
                code,
                seq,
                date,
                day,
                blue_ball,
                red_balls,
            }),
    {
        if !(1 <= blue_ball.value && blue_ball.value <= BLUE_BALL_COUNT) {
            return Err(Error::InvalidBallValue(blue_ball.value));
        }
        let mut i: usize = 0;
        while i < 6
            invariant
                i <= 6,
                forall|k: int| 0 <= k < i ==> (#[trigger] red_balls[k]).wf(),
                forall|k: int, l: int| 0 <= k < l < i ==> red_balls[k] != red_balls[l],
            decreases 6 - i,
        {
            if !(1 <= red_balls[i].value && red_balls[i].value <= RED_BALL_COUNT) {
                return Err(Error::InvalidBallValue(red_balls[i].value));
            }
            let mut j: usize = 0;
            while j < i
                invariant
                    i < 6,
                    j <= i,
                    forall|k: int| 0 <= k < j ==> red_balls[k] != red_balls[i as int],
                decreases i - j,
            {
                if red_balls[j].value == red_balls[i].value {
                    return Err(Error::OtherFailure("duplicate red ball".to_owned()));
                }
                j = j + 1;
            }
            i = i + 1;
        }
        Ok(PrBusinessObj { code, seq, date, day, blue_ball, red_balls })
    }

    /// Whether the given red-ball value was drawn in this record.
    pub open spec fn spec_has_red(self, v: u8) -> bool {
        exists|i: int| 0 <= i < 6 && (#[trigger] self.red_balls[i]).value == v
    }

    pub fn has_red(&self, v: u8) -> (r: bool)
        ensures
            r == self.spec_has_red(v),
    {
        let mut i: usize = 0;
        while i < 6
            invariant
                i <= 6,
                forall|k: int| 0 <= k < i ==> (#[trigger] self.red_balls[k]).value != v,
            decreases 6 - i,
        {
            if self.red_balls[i].value == v {
                return true;
            }
            i = i + 1;
        }
        false
    }
}

/// Whether a sequence of records carries pairwise distinct sequence indices,
/// as the upstream collector guarantees.
pub open spec fn seqs_distinct(records: Seq<PrBusinessObj>) -> bool {
    forall|i: int, j: int| 0 <= i < j < records.len() ==> records[i].seq != records[j].seq
}

/// Whether every record of a sequence is well-formed.
pub open spec fn records_wf(records: Seq<PrBusinessObj>) -> bool {
    forall|i: int| 0 <= i < records.len() ==> (#[trigger] records[i]).wf()
}

impl PrBusinessObj {
    /// Checks the record's well-formedness at run time.
    pub fn check_wf(&self) -> (b: bool)
        ensures
            b == self.wf(),
    {
        if !(1 <= self.blue_ball.value && self.blue_ball.value <= BLUE_BALL_COUNT) {
            return false;
        }
        let mut i: usize = 0;
        while i < 6
            invariant
                i <= 6,
                1 <= self.blue_ball.value <= BLUE_BALL_COUNT,
                forall|k: int| 0 <= k < i ==> (#[trigger] self.red_balls[k]).wf(),
                forall|k: int, l: int| 0 <= k < l < i ==> self.red_balls[k] != self.red_balls[l],
            decreases 6 - i,
        {
            if !(1 <= self.red_balls[i].value && self.red_balls[i].value <= RED_BALL_COUNT) {
                return false;
            }
            let mut j: usize = 0;
            while j < i
                invariant
                    i < 6,
                    j <= i,
                    forall|k: int| 0 <= k < j ==> self.red_balls[k] != self.red_balls[i as int],
                decreases i - j,
            {
                if self.red_balls[j].value == self.red_balls[i].value {
                    return false;
                }
                j = j + 1;
            }
            i = i + 1;
        }
        true
    }
}

/// Checks at run time that every record is well-formed.
pub fn check_records_wf(records: &Vec<PrBusinessObj>) -> (b: bool)
    ensures
        b == records_wf(records@),
{
    let mut i: usize = 0;
    while i < records.len()
        invariant
            i <= records@.len(),
            forall|k: int| 0 <= k < i ==> (#[trigger] records@[k]).wf(),
        decreases records@.len() - i,
    {
        if !records[i].check_wf() {
            return false;
        }
        i = i + 1;
    }
    true
}

/// Checks at run time that every sequence index leaves room above it.
pub fn check_seq_bounds(records: &Vec<PrBusinessObj>) -> (b: bool)
    ensures
        b == forall|i: int| 0 <= i < records@.len() ==> (#[trigger] records@[i]).seq < usize::MAX,
{
    let mut i: usize = 0;
    while i < records.len()
        invariant
            i <= records@.len(),
            forall|k: int| 0 <= k < i ==> (#[trigger] records@[k]).seq < usize::MAX,
        decreases records@.len() - i,
    {
        if records[i].seq == usize::MAX {
            return false;
        }
        i = i + 1;
    }
    true
}

} // verus!
