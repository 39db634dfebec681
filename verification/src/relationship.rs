//! Pairwise co-occurrence counts between and within the two ball domains.

use vstd::prelude::*;

use crate::domain::{BLUE_BALL_COUNT, BlueBall, PrBusinessObj, RED_BALL_COUNT, RedBall};

verus! {

/// Zero counters against every blue ball: entry `i` counts blue ball `i + 1`.
pub fn zero_blue_counters() -> (r: Vec<usize>)
    ensures
        r@.len() == BLUE_BALL_COUNT,
        forall|i: int| 0 <= i < r@.len() ==> r@[i] == 0,
{
    let mut r: Vec<usize> = Vec::new();
    let mut i: usize = 0;
    while i < BLUE_BALL_COUNT as usize
        invariant
            i <= BLUE_BALL_COUNT,
            r@.len() == i,
            forall|k: int| 0 <= k < r@.len() ==> r@[k] == 0,
        decreases BLUE_BALL_COUNT - i,
    {
        r.push(0);
        i = i + 1;
    }
    r
}

/// Zero counters against every red ball: entry `i` counts red ball `i + 1`.
pub fn zero_red_counters() -> (r: Vec<usize>)
    ensures
        r@.len() == RED_BALL_COUNT,
        forall|i: int| 0 <= i < r@.len() ==> r@[i] == 0,
{
    let mut r: Vec<usize> = Vec::new();
    let mut i: usize = 0;
    while i < RED_BALL_COUNT as usize
        invariant
            i <= RED_BALL_COUNT,
            r@.len() == i,
            forall|k: int| 0 <= k < r@.len() ==> r@[k] == 0,
        decreases RED_BALL_COUNT - i,
    {
        r.push(0);
        i = i + 1;
    }
    r
}

/// Bumps counter `value - 1` of a counter vector, saturating instead of
/// overflowing; out-of-range values leave the counters unchanged, as an
/// absent map entry would.
fn bump_counter(counters: &mut Vec<usize>, value: u8)
    ensures
        final(counters)@.len() == old(counters)@.len(),
        1 <= value && value <= old(counters)@.len() ==> final(counters)@ == old(counters)@.update(value - 1, add_saturating(old(counters)@[value - 1])),
        !(1 <= value && value <= old(counters)@.len()) ==> *final(counters) == *old(counters),
{
    if 1 <= value && (value as usize) <= counters.len() {
        let i = (value - 1) as usize;
        let c = counters[i];
        if c < usize::MAX {
            counters.set(i, c + 1);
        }
        proof {
            assert(final(counters)@ =~= old(counters)@.update(
                value - 1,
                add_saturating(old(counters)@[value - 1]),
            ));
        }
    }
}

/// One more than `c`, capped at the largest representable count.
pub open spec fn add_saturating(c: usize) -> usize {
    if c < usize::MAX {
        (c + 1) as usize
    } else {
        c
    }
}

/// The co-occurrence counters of one ball: a blue ball counts every red ball
/// drawn beside it; a red ball counts the blue ball drawn beside it and every
/// other red ball drawn beside it.
#[derive(Clone, Debug)]
pub enum Relationship {
    Blue { ball: BlueBall, detail: Vec<usize> },
    Red { ball: RedBall, blue_ball_detail: Vec<usize>, red_ball_detail: Vec<usize> },
}

impl Relationship {
    pub open spec fn wf(self) -> bool {
        match self {
            Relationship::Blue { ball, detail } => ball.wf() && detail@.len() == RED_BALL_COUNT,
            Relationship::Red { ball, blue_ball_detail, red_ball_detail } => {
                &&& ball.wf()
                &&& blue_ball_detail@.len() == BLUE_BALL_COUNT
                &&& red_ball_detail@.len() == RED_BALL_COUNT
            },
        }
    }

    /// A blue ball's counters, all zero.
    pub fn new_blue(ball: BlueBall) -> (r: Self)
        ensures
            r matches Relationship::Blue { ball: b, detail } && b == ball && detail@.len()
                == RED_BALL_COUNT && (forall|i: int| 0 <= i < detail@.len() ==> detail@[i] == 0),
            ball.wf() ==> r.wf(),
    {
        Relationship::Blue { ball, detail: zero_red_counters() }
    }

    /// A red ball's counters, all zero.
    pub fn new_red(ball: RedBall) -> (r: Self)
        ensures
            r matches Relationship::Red { ball: b, blue_ball_detail, red_ball_detail } && b == ball
                && blue_ball_detail@.len() == BLUE_BALL_COUNT && red_ball_detail@.len()
                == RED_BALL_COUNT && (forall|i: int|
                0 <= i < blue_ball_detail@.len() ==> blue_ball_detail@[i] == 0) && (forall|i: int|
                0 <= i < red_ball_detail@.len() ==> red_ball_detail@[i] == 0),
            ball.wf() ==> r.wf(),
    {
        Relationship::Red {
            ball,
            blue_ball_detail: zero_blue_counters(),
            red_ball_detail: zero_red_counters(),
        }
    }

    /// Counts one more co-occurrence with the given blue ball. Only a red
    /// ball holds counters against blue balls; on a blue ball this changes
    /// nothing.
    pub fn increase_relationship_with_blue(&mut self, target_ball: BlueBall)
        requires
            old(self).wf(),
            target_ball.wf(),
        ensures
            final(self).wf(),
            match (*old(self), *final(self)) {
                (
                    Relationship::Red { ball, blue_ball_detail, red_ball_detail },
                    Relationship::Red { ball: b2, blue_ball_detail: bd2, red_ball_detail: rd2 },
                ) => {
                    &&& b2 == ball
                    &&& rd2 == red_ball_detail
                    &&& bd2@ == blue_ball_detail@.update(
                        target_ball.value - 1,
                        add_saturating(blue_ball_detail@[target_ball.value - 1]),
                    )
                },
                (Relationship::Blue { .. }, _) => *final(self) == *old(self),
                _ => false,
            },
    {
        match self {
            Relationship::Red { blue_ball_detail, .. } => {
                bump_counter(blue_ball_detail, target_ball.value());
            },
            Relationship::Blue { .. } => {},
        }
    }

    /// Counts one more co-occurrence with the given red ball. A red entry
    /// never counts its own ball: that increment changes nothing.
    pub fn increase_relationship_with_red(&mut self, target_ball: RedBall)
        requires
            old(self).wf(),
            target_ball.wf(),
        ensures
            final(self).wf(),
            match (*old(self), *final(self)) {
                (
                    Relationship::Blue { ball, detail },
                    Relationship::Blue { ball: b2, detail: d2 },
                ) => {
                    &&& b2 == ball
                    &&& d2@ == detail@.update(
                        target_ball.value - 1,
                        add_saturating(detail@[target_ball.value - 1]),
                    )
                },
                (
                    Relationship::Red { ball, blue_ball_detail, red_ball_detail },
                    Relationship::Red { ball: b2, blue_ball_detail: bd2, red_ball_detail: rd2 },
                ) => {
                    &&& b2 == ball
                    &&& bd2 == blue_ball_detail
                    &&& rd2@ == if ball.value == target_ball.value {
                        red_ball_detail@
                    } else {
                        red_ball_detail@.update(
                            target_ball.value - 1,
                            add_saturating(red_ball_detail@[target_ball.value - 1]),
                        )
                    }
                },
                _ => false,
            },
    {
        match self {
            Relationship::Blue { detail, .. } => {
                bump_counter(detail, target_ball.value());
            },
            Relationship::Red { ball, red_ball_detail, .. } => {
                if ball.value != target_ball.value {
                    bump_counter(red_ball_detail, target_ball.value());
                }
            },
        }
    }
}

/// One blue ball's co-occurrence counts against every red ball: entry `i` of
/// `related_red_ball_counts` counts red ball `i + 1`.
#[derive(Clone, Debug)]
pub struct BlueBallRelationship {
    pub blue_ball: u8,
    pub related_red_ball_counts: Vec<usize>,
}

impl BlueBallRelationship {
    pub open spec fn wf(self) -> bool {
        self.related_red_ball_counts@.len() == RED_BALL_COUNT
    }

    pub fn new(blue_ball: u8) -> (r: Self)
        ensures
            r.wf(),
            r.blue_ball == blue_ball,
            forall|i: int|
                0 <= i < r.related_red_ball_counts@.len() ==> r.related_red_ball_counts@[i] == 0,
    {
        BlueBallRelationship { blue_ball, related_red_ball_counts: zero_red_counters() }
    }

    pub fn blue_ball(&self) -> (r: u8)
        ensures
            r == self.blue_ball,
    {
        self.blue_ball
    }

    pub fn related_red_ball_counts(&self) -> (r: &Vec<usize>)
        ensures
            r == &self.related_red_ball_counts,
    {
        &self.related_red_ball_counts
    }

    /// Counts one more co-occurrence with the given red ball; values outside
    /// the red domain change nothing.
    pub fn increase_related_red_ball_count(&mut self, red_ball: u8)
        requires
            old(self).wf(),
        ensures
            final(self).wf(),
            final(self).blue_ball == old(self).blue_ball,
            1 <= red_ball <= RED_BALL_COUNT ==> final(self).related_red_ball_counts@ == old(self).related_red_ball_counts@.update(
                red_ball - 1,
                add_saturating(old(self).related_red_ball_counts@[red_ball - 1]),
            ),
            !(1 <= red_ball <= RED_BALL_COUNT) ==> *final(self) == *old(self),
    {
        bump_counter(&mut self.related_red_ball_counts, red_ball);
    }
}

/// One red ball's co-occurrence counts against every other red ball and every
/// blue ball; the counter of the ball itself stays zero.
#[derive(Clone, Debug)]
pub struct RedBallRelationship {
    pub red_ball: u8,
    pub related_red_ball_counts: Vec<usize>,
    pub related_blue_ball_counts: Vec<usize>,
}

impl RedBallRelationship {
    pub open spec fn wf(self) -> bool {
        self.related_red_ball_counts@.len() == RED_BALL_COUNT
            && self.related_blue_ball_counts@.len() == BLUE_BALL_COUNT
    }

    pub fn new(red_ball: u8) -> (r: Self)
        ensures
            r.wf(),
            r.red_ball == red_ball,
            forall|i: int|
                0 <= i < r.related_red_ball_counts@.len() ==> r.related_red_ball_counts@[i] == 0,
            forall|i: int|
                0 <= i < r.related_blue_ball_counts@.len() ==> r.related_blue_ball_counts@[i] == 0,
    {
        RedBallRelationship {
            red_ball,
            related_red_ball_counts: zero_red_counters(),
            related_blue_ball_counts: zero_blue_counters(),
        }
    }

    pub fn red_ball(&self) -> (r: u8)
        ensures
            r == self.red_ball,
    {
        self.red_ball
    }

    pub fn related_red_ball_counts(&self) -> (r: &Vec<usize>)
        ensures
            r == &self.related_red_ball_counts,
    {
        &self.related_red_ball_counts
    }

    pub fn related_blue_ball_counts(&self) -> (r: &Vec<usize>)
        ensures
            r == &self.related_blue_ball_counts,
    {
        &self.related_blue_ball_counts
    }

    /// Counts one more co-occurrence with the given red ball; the ball's own
    /// value and values outside the red domain change nothing.
    pub fn increase_related_red_ball_count(&mut self, red_ball: u8)
        requires
            old(self).wf(),
        ensures
            final(self).wf(),
            final(self).red_ball == old(self).red_ball,
            final(self).related_blue_ball_counts == old(self).related_blue_ball_counts,
            red_ball != old(self).red_ball && 1 <= red_ball <= RED_BALL_COUNT ==> final(self).related_red_ball_counts@ == old(self).related_red_ball_counts@.update(
                red_ball - 1,
                add_saturating(old(self).related_red_ball_counts@[red_ball - 1]),
            ),
            !(red_ball != old(self).red_ball && 1 <= red_ball <= RED_BALL_COUNT) ==> *final(self)
                == *old(self),
    {
        if self.red_ball == red_ball {
            return ;
        }
        bump_counter(&mut self.related_red_ball_counts, red_ball);
    }

    /// Counts one more co-occurrence with the given blue ball; values outside
    /// the blue domain change nothing.
    pub fn increase_related_blue_ball_count(&mut self, blue_ball: u8)
        requires
            old(self).wf(),
        ensures
            final(self).wf(),
            final(self).red_ball == old(self).red_ball,
            final(self).related_red_ball_counts == old(self).related_red_ball_counts,
            1 <= blue_ball <= BLUE_BALL_COUNT ==> final(self).related_blue_ball_counts@ == old(self).related_blue_ball_counts@.update(
                blue_ball - 1,
                add_saturating(old(self).related_blue_ball_counts@[blue_ball - 1]),
            ),
            !(1 <= blue_ball <= BLUE_BALL_COUNT) ==> *final(self) == *old(self),
    {
        bump_counter(&mut self.related_blue_ball_counts, blue_ball);
    }
}

/// How many records carry both the given blue ball and the given red ball.
pub open spec fn co_count(records: Seq<PrBusinessObj>, blue: u8, red: u8) -> int
    decreases records.len(),
{
    if records.len() == 0 {
        0
    } else {
        co_count(records.drop_last(), blue, red) + if records.last().blue_ball.value == blue
            && records.last().spec_has_red(red) {
            1int
        } else {
            0int
        }
    }
}

/// How many records carry both of the given red balls.
pub open spec fn red_pair_count(records: Seq<PrBusinessObj>, r1: u8, r2: u8) -> int
    decreases records.len(),
{
    if records.len() == 0 {
        0
    } else {
        red_pair_count(records.drop_last(), r1, r2) + if records.last().spec_has_red(r1)
            && records.last().spec_has_red(r2) {
            1int
        } else {
            0int
        }
    }
}

proof fn lemma_co_count_bounds(records: Seq<PrBusinessObj>, blue: u8, red: u8)
    ensures
        0 <= co_count(records, blue, red) <= records.len(),
    decreases records.len(),
{
    if records.len() > 0 {
        lemma_co_count_bounds(records.drop_last(), blue, red);
    }
}

proof fn lemma_red_pair_count_bounds(records: Seq<PrBusinessObj>, r1: u8, r2: u8)
    ensures
        0 <= red_pair_count(records, r1, r2) <= records.len(),
    decreases records.len(),
{
    if records.len() > 0 {
        lemma_red_pair_count_bounds(records.drop_last(), r1, r2);
    }
}

/// Whether the blue-ball entries hold exactly the co-occurrence counts of the
/// given records: entry `i` belongs to blue ball `i + 1`, and its counter `j`
/// says with how many draws of blue ball `i + 1` red ball `j + 1` was drawn.
pub open spec fn blue_counts_ok(blues: Seq<BlueBallRelationship>, records: Seq<PrBusinessObj>) -> bool {
    &&& blues.len() == BLUE_BALL_COUNT
    &&& forall|i: int| 0 <= i < blues.len() ==> (#[trigger] blues[i]).wf() && blues[i].blue_ball == i + 1
    &&& forall|i: int, j: int|
        0 <= i < BLUE_BALL_COUNT && 0 <= j < RED_BALL_COUNT
            ==> #[trigger] blues[i].related_red_ball_counts@[j] == co_count(
            records,
            (i + 1) as u8,
            (j + 1) as u8,
        )
}

/// Whether the red-ball entries hold exactly the co-occurrence counts of the
/// given records: entry `i` belongs to red ball `i + 1`; its blue counter `j`
/// counts the draws carrying red ball `i + 1` and blue ball `j + 1`; its red
/// counter `j` counts the draws carrying red balls `i + 1` and `j + 1`
/// together, the ball's own counter staying zero.
pub open spec fn red_counts_ok(reds: Seq<RedBallRelationship>, records: Seq<PrBusinessObj>) -> bool {
    &&& reds.len() == RED_BALL_COUNT
    &&& forall|i: int| 0 <= i < reds.len() ==> (#[trigger] reds[i]).wf() && reds[i].red_ball == i + 1
    &&& forall|i: int, j: int|
        0 <= i < RED_BALL_COUNT && 0 <= j < BLUE_BALL_COUNT
            ==> #[trigger] reds[i].related_blue_ball_counts@[j] == co_count(
            records,
            (j + 1) as u8,
            (i + 1) as u8,
        )
    &&& forall|i: int, j: int|
        0 <= i < RED_BALL_COUNT && 0 <= j < RED_BALL_COUNT
            ==> #[trigger] reds[i].related_red_ball_counts@[j] == if i == j {
            0int
        } else {
            red_pair_count(records, (i + 1) as u8, (j + 1) as u8)
        }
}

fn blue_entry_mut(v: &mut Vec<BlueBallRelationship>, i: usize) -> (e: &mut BlueBallRelationship)
    requires
        i < old(v)@.len(),
    ensures
        *e == old(v)@[i as int],
        final(v)@ == old(v)@.update(i as int, *final(e)),
{
    &mut v[i]
}

fn red_entry_mut(v: &mut Vec<RedBallRelationship>, i: usize) -> (e: &mut RedBallRelationship)
    requires
        i < old(v)@.len(),
    ensures
        *e == old(v)@[i as int],
        final(v)@ == old(v)@.update(i as int, *final(e)),
{
    &mut v[i]
}

/// Adds one record's co-occurrences to the counters.
fn apply_record(
    blues: &mut Vec<BlueBallRelationship>,
    reds: &mut Vec<RedBallRelationship>,
    rec: &PrBusinessObj,
)
    requires
        rec.wf(),
        old(blues)@.len() == BLUE_BALL_COUNT,
        old(reds)@.len() == RED_BALL_COUNT,
        forall|i: int|
            0 <= i < BLUE_BALL_COUNT ==> (#[trigger] old(blues)@[i]).wf() && old(blues)@[i].blue_ball == i + 1,
        forall|i: int|
            0 <= i < RED_BALL_COUNT ==> (#[trigger] old(reds)@[i]).wf() && old(reds)@[i].red_ball
                == i + 1,
        forall|i: int, j: int|
            0 <= i < BLUE_BALL_COUNT && 0 <= j < RED_BALL_COUNT ==> #[trigger] old(blues)@[i].related_red_ball_counts@[j] < usize::MAX,
        forall|i: int, j: int|
            0 <= i < RED_BALL_COUNT && 0 <= j < BLUE_BALL_COUNT ==> #[trigger] old(reds)@[i].related_blue_ball_counts@[j] < usize::MAX,
        forall|i: int, j: int|
            0 <= i < RED_BALL_COUNT && 0 <= j < RED_BALL_COUNT ==> #[trigger] old(reds)@[i].related_red_ball_counts@[j] < usize::MAX,
    ensures
        final(blues)@.len() == BLUE_BALL_COUNT,
        final(reds)@.len() == RED_BALL_COUNT,
        forall|i: int|
            0 <= i < BLUE_BALL_COUNT ==> (#[trigger] final(blues)@[i]).wf() && final(blues)@[i].blue_ball == i + 1,
        forall|i: int|
            0 <= i < RED_BALL_COUNT ==> (#[trigger] final(reds)@[i]).wf() && final(reds)@[i].red_ball == i + 1,
        forall|i: int, j: int|
            0 <= i < BLUE_BALL_COUNT && 0 <= j < RED_BALL_COUNT ==> #[trigger] final(blues)@[i].related_red_ball_counts@[j] == old(blues)@[i].related_red_ball_counts@[j] + (
            if rec.blue_ball.value == i + 1 && rec.spec_has_red((j + 1) as u8) {
                1int
            } else {
                0int
            }),
        forall|i: int, j: int|
            0 <= i < RED_BALL_COUNT && 0 <= j < BLUE_BALL_COUNT ==> #[trigger] final(reds)@[i].related_blue_ball_counts@[j] == old(reds)@[i].related_blue_ball_counts@[j] + (
            if rec.spec_has_red((i + 1) as u8) && rec.blue_ball.value == j + 1 {
                1int
            } else {
                0int
            }),
        forall|i: int, j: int|
            0 <= i < RED_BALL_COUNT && 0 <= j < RED_BALL_COUNT ==> #[trigger] final(reds)@[i].related_red_ball_counts@[j] == old(reds)@[i].related_red_ball_counts@[j] + (
            if i != j && rec.spec_has_red((i + 1) as u8) && rec.spec_has_red((j + 1) as u8) {
                1int
            } else {
                0int
            }),
{
    let b = rec.blue_ball.value;
    let mut t: u8 = 1;
    while t <= RED_BALL_COUNT
        invariant
            rec.wf(),
            b == rec.blue_ball.value,
            1 <= b <= BLUE_BALL_COUNT,
            1 <= t <= RED_BALL_COUNT + 1,
            reds@ == old(reds)@,
            blues@.len() == BLUE_BALL_COUNT,
            forall|i: int|
                0 <= i < BLUE_BALL_COUNT ==> (#[trigger] blues@[i]).wf() && blues@[i].blue_ball == i
                    + 1,
            forall|i: int| 0 <= i < BLUE_BALL_COUNT && i + 1 != b ==> #[trigger] blues@[i] == old(blues)@[i],
            forall|j: int|
                0 <= j < RED_BALL_COUNT ==> #[trigger] blues@[b - 1].related_red_ball_counts@[j]
                    == old(blues)@[b - 1].related_red_ball_counts@[j] + (if j + 1 < t
                    && rec.spec_has_red((j + 1) as u8) {
                    1int
                } else {
                    0int
                }),
            forall|i: int, j: int|
                0 <= i < BLUE_BALL_COUNT && 0 <= j < RED_BALL_COUNT ==> #[trigger] old(blues)@[i].related_red_ball_counts@[j] < usize::MAX,
        decreases RED_BALL_COUNT + 1 - t,
    {
        if rec.has_red(t) {
            let e = blue_entry_mut(blues, (b - 1) as usize);
            e.increase_related_red_ball_count(t);
        }
        t = t + 1;
    }
    proof {
        assert forall|i2: int, j2: int|
            0 <= i2 < BLUE_BALL_COUNT && 0 <= j2 < RED_BALL_COUNT
                implies #[trigger] blues@[i2].related_red_ball_counts@[j2] == old(
            blues,
        )@[i2].related_red_ball_counts@[j2] + (if rec.blue_ball.value == i2 + 1
            && rec.spec_has_red((j2 + 1) as u8) {
            1int
        } else {
            0int
        }) by {
            if i2 == b - 1 {
                assert(blues@[b - 1].related_red_ball_counts@[j2] == old(
                    blues,
                )@[b - 1].related_red_ball_counts@[j2] + (if rec.spec_has_red((j2 + 1) as u8) {
                    1int
                } else {
                    0int
                }));
            } else {
                assert(blues@[i2] == old(blues)@[i2]);
            }
        }
    }
    let ghost blues1 = blues@;
    let mut i: u8 = 1;
    while i <= RED_BALL_COUNT
        invariant
            rec.wf(),
            b == rec.blue_ball.value,
            1 <= b <= BLUE_BALL_COUNT,
            1 <= i <= RED_BALL_COUNT + 1,
            blues@ == blues1,
            reds@.len() == RED_BALL_COUNT,
            forall|k: int|
                0 <= k < RED_BALL_COUNT ==> (#[trigger] reds@[k]).wf() && reds@[k].red_ball == k
                    + 1,
            forall|k: int, j: int|
                0 <= k < RED_BALL_COUNT && 0 <= j < BLUE_BALL_COUNT ==> #[trigger] reds@[k].related_blue_ball_counts@[j]
                    == old(reds)@[k].related_blue_ball_counts@[j] + (if k + 1 < i
                    && rec.spec_has_red((k + 1) as u8) && b == j + 1 {
                    1int
                } else {
                    0int
                }),
            forall|k: int, j: int|
                0 <= k < RED_BALL_COUNT && 0 <= j < RED_BALL_COUNT ==> #[trigger] reds@[k].related_red_ball_counts@[j]
                    == old(reds)@[k].related_red_ball_counts@[j] + (if k + 1 < i && k != j
                    && rec.spec_has_red((k + 1) as u8) && rec.spec_has_red((j + 1) as u8) {
                    1int
                } else {
                    0int
                }),
            forall|k: int, j: int|
                0 <= k < RED_BALL_COUNT && 0 <= j < BLUE_BALL_COUNT ==> #[trigger] old(reds)@[k].related_blue_ball_counts@[j] < usize::MAX,
            forall|k: int, j: int|
                0 <= k < RED_BALL_COUNT && 0 <= j < RED_BALL_COUNT ==> #[trigger] old(reds)@[k].related_red_ball_counts@[j] < usize::MAX,
        decreases RED_BALL_COUNT + 1 - i,
    {
        if rec.has_red(i) {
            let e = red_entry_mut(reds, (i - 1) as usize);
            e.increase_related_blue_ball_count(b);
            let mut j: u8 = 1;
            let ghost reds_mid = reds@;
            while j <= RED_BALL_COUNT
                invariant
                    rec.wf(),
                    1 <= i <= RED_BALL_COUNT,
                    rec.spec_has_red(i as u8),
                    1 <= j <= RED_BALL_COUNT + 1,
                    reds@.len() == RED_BALL_COUNT,
                    forall|k: int| 0 <= k < RED_BALL_COUNT && k != i - 1 ==> #[trigger] reds@[k]
                        == reds_mid[k],
                    reds@[i - 1].wf(),
                    reds@[i - 1].red_ball == reds_mid[i - 1].red_ball,
                    reds@[i - 1].related_blue_ball_counts == reds_mid[i - 1].related_blue_ball_counts,
                    forall|t2: int|
                        0 <= t2 < RED_BALL_COUNT ==> #[trigger] reds@[i - 1].related_red_ball_counts@[t2]
                            == reds_mid[i - 1].related_red_ball_counts@[t2] + (if t2 + 1 < j && t2
                            != i - 1 && rec.spec_has_red((t2 + 1) as u8) {
                            1int
                        } else {
                            0int
                        }),
                    forall|t2: int|
                        0 <= t2 < RED_BALL_COUNT ==> #[trigger] reds_mid[i - 1].related_red_ball_counts@[t2]
                            < usize::MAX,
                    reds_mid[i - 1].red_ball == i - 1 + 1,
                decreases RED_BALL_COUNT + 1 - j,
            {
                if j != i && rec.has_red(j) {
                    let e2 = red_entry_mut(reds, (i - 1) as usize);
                    e2.increase_related_red_ball_count(j);
                }
                j = j + 1;
            }
        }
        i = i + 1;
    }
}

/// The relationship-analysis stage.
pub struct RelationshipProcessor;

impl RelationshipProcessor {
    /// Counts, for every ball of both domains, its co-occurrences: each blue
    /// ball against every red ball, and each red ball against every blue ball
    /// and every other red ball.
    pub fn analyze(records: &Vec<PrBusinessObj>) -> (r: (
        Vec<BlueBallRelationship>,
        Vec<RedBallRelationship>,
    ))
        requires
            crate::domain::records_wf(records@),
            records@.len() < usize::MAX,
        ensures
            blue_counts_ok(r.0@, records@),
            red_counts_ok(r.1@, records@),
    {
        let mut blues: Vec<BlueBallRelationship> = Vec::new();
        let mut v: u8 = 1;
        while v <= BLUE_BALL_COUNT
            invariant
                1 <= v <= BLUE_BALL_COUNT + 1,
                blues@.len() == v - 1,
                forall|i: int|
                    0 <= i < blues@.len() ==> (#[trigger] blues@[i]).wf() && blues@[i].blue_ball
                        == i + 1,
                forall|i: int, j: int|
                    0 <= i < blues@.len() && 0 <= j < RED_BALL_COUNT
                        ==> #[trigger] blues@[i].related_red_ball_counts@[j] == 0,
            decreases BLUE_BALL_COUNT + 1 - v,
        {
            blues.push(BlueBallRelationship::new(v));
            v = v + 1;
        }
        let mut reds: Vec<RedBallRelationship> = Vec::new();
        let mut w: u8 = 1;
        while w <= RED_BALL_COUNT
            invariant
                1 <= w <= RED_BALL_COUNT + 1,
                reds@.len() == w - 1,
                forall|i: int|
                    0 <= i < reds@.len() ==> (#[trigger] reds@[i]).wf() && reds@[i].red_ball == i
                        + 1,
                forall|i: int, j: int|
                    0 <= i < reds@.len() && 0 <= j < BLUE_BALL_COUNT
                        ==> #[trigger] reds@[i].related_blue_ball_counts@[j] == 0,
                forall|i: int, j: int|
                    0 <= i < reds@.len() && 0 <= j < RED_BALL_COUNT
                        ==> #[trigger] reds@[i].related_red_ball_counts@[j] == 0,
            decreases RED_BALL_COUNT + 1 - w,
        {
            reds.push(RedBallRelationship::new(w));
            w = w + 1;
        }
        proof {
            assert(blue_counts_ok(blues@, records@.take(0int)));
            assert(red_counts_ok(reds@, records@.take(0int)));
        }
        let mut k: usize = 0;
        while k < records.len()
            invariant
                crate::domain::records_wf(records@),
                records@.len() < usize::MAX,
                k <= records@.len(),
                blue_counts_ok(blues@, records@.take(k as int)),
                red_counts_ok(reds@, records@.take(k as int)),
            decreases records@.len() - k,
        {
            proof {
                assert forall|i: int, j: int|
                    0 <= i < BLUE_BALL_COUNT && 0 <= j < RED_BALL_COUNT implies #[trigger] blues@[i].related_red_ball_counts@[j]
                    < usize::MAX by {
                    lemma_co_count_bounds(records@.take(k as int), (i + 1) as u8, (j + 1) as u8);
                }
                assert forall|i: int, j: int|
                    0 <= i < RED_BALL_COUNT && 0 <= j < BLUE_BALL_COUNT implies #[trigger] reds@[i].related_blue_ball_counts@[j]
                    < usize::MAX by {
                    lemma_co_count_bounds(records@.take(k as int), (j + 1) as u8, (i + 1) as u8);
                }
                assert forall|i: int, j: int|
                    0 <= i < RED_BALL_COUNT && 0 <= j < RED_BALL_COUNT implies #[trigger] reds@[i].related_red_ball_counts@[j]
                    < usize::MAX by {
                    lemma_red_pair_count_bounds(
                        records@.take(k as int),
                        (i + 1) as u8,
                        (j + 1) as u8,
                    );
                }
            }
            let ghost blues0 = blues@;
            let ghost reds0 = reds@;
            apply_record(&mut blues, &mut reds, &records[k]);
            proof {
                assert(records@.take(k + 1).drop_last() =~= records@.take(k as int));
                assert(records@.take(k + 1).last() == records@[k as int]);
                assert forall|i: int, j: int|
                    0 <= i < BLUE_BALL_COUNT && 0 <= j < RED_BALL_COUNT
                        implies #[trigger] blues@[i].related_red_ball_counts@[j] == co_count(
                    records@.take(k + 1),
                    (i + 1) as u8,
                    (j + 1) as u8,
                ) by {
                    assert(blues0[i].related_red_ball_counts@[j] == co_count(
                        records@.take(k as int),
                        (i + 1) as u8,
                        (j + 1) as u8,
                    ));
                }
                assert forall|i: int, j: int|
                    0 <= i < RED_BALL_COUNT && 0 <= j < BLUE_BALL_COUNT
                        implies #[trigger] reds@[i].related_blue_ball_counts@[j] == co_count(
                    records@.take(k + 1),
                    (j + 1) as u8,
                    (i + 1) as u8,
                ) by {
                    assert(reds0[i].related_blue_ball_counts@[j] == co_count(
                        records@.take(k as int),
                        (j + 1) as u8,
                        (i + 1) as u8,
                    ));
                }
                assert forall|i: int, j: int|
                    0 <= i < RED_BALL_COUNT && 0 <= j < RED_BALL_COUNT
                        implies #[trigger] reds@[i].related_red_ball_counts@[j] == (if i == j {
                    0int
                } else {
                    red_pair_count(records@.take(k + 1), (i + 1) as u8, (j + 1) as u8)
                }) by {
                    assert(reds0[i].related_red_ball_counts@[j] == (if i == j {
                        0int
                    } else {
                        red_pair_count(records@.take(k as int), (i + 1) as u8, (j + 1) as u8)
                    }));
                }
            }
            k = k + 1;
        }
        proof {
            assert(records@.take(records@.len() as int) =~= records@);
        }
        (blues, reds)
    }
}

} // verus!
