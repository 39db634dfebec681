//! Per-ball prize counts and their ranked form.

use vstd::prelude::*;

use crate::domain::{BLUE_BALL_COUNT, PrBusinessObj, RED_BALL_COUNT, records_wf};
use crate::relationship::{zero_blue_counters, zero_red_counters};
use crate::sorting::{sort_by_count_desc, sorted_by_count_desc};

verus! {

/// How many records carry the given blue ball.
pub open spec fn blue_count(records: Seq<PrBusinessObj>, blue: u8) -> int
    decreases records.len(),
{
    if records.len() == 0 {
        0
    } else {
        blue_count(records.drop_last(), blue) + if records.last().blue_ball.value == blue {
            1int
        } else {
            0int
        }
    }
}

/// How many records carry the given red ball.
pub open spec fn red_count(records: Seq<PrBusinessObj>, red: u8) -> int
    decreases records.len(),
{
    if records.len() == 0 {
        0
    } else {
        red_count(records.drop_last(), red) + if records.last().spec_has_red(red) {
            1int
        } else {
            0int
        }
    }
}

proof fn lemma_blue_count_bounds(records: Seq<PrBusinessObj>, blue: u8)
    ensures
        0 <= blue_count(records, blue) <= records.len(),
    decreases records.len(),
{
    if records.len() > 0 {
        lemma_blue_count_bounds(records.drop_last(), blue);
    }
}

proof fn lemma_red_count_bounds(records: Seq<PrBusinessObj>, red: u8)
    ensures
        0 <= red_count(records, red) <= records.len(),
    decreases records.len(),
{
    if records.len() > 0 {
        lemma_red_count_bounds(records.drop_last(), red);
    }
}

/// Whether the counters hold each blue ball's draw count.
pub open spec fn blue_counts_of(v: Seq<usize>, records: Seq<PrBusinessObj>) -> bool {
    &&& v.len() == BLUE_BALL_COUNT
    &&& forall|i: int|
        0 <= i < BLUE_BALL_COUNT ==> #[trigger] v[i] == blue_count(records, (i + 1) as u8)
}

/// Whether the counters hold each red ball's draw count.
pub open spec fn red_counts_of(v: Seq<usize>, records: Seq<PrBusinessObj>) -> bool {
    &&& v.len() == RED_BALL_COUNT
    &&& forall|i: int|
        0 <= i < RED_BALL_COUNT ==> #[trigger] v[i] == red_count(records, (i + 1) as u8)
}

/// Counts how often each blue ball was drawn.
pub struct CountPrizedBlueballProcessor;

impl CountPrizedBlueballProcessor {
    /// Entry `i` of the result counts the draws of blue ball `i + 1`.
    pub fn analyze(records: &Vec<PrBusinessObj>) -> (r: Vec<usize>)
        requires
            records_wf(records@),
            records@.len() < usize::MAX,
        ensures
            r@.len() == BLUE_BALL_COUNT,
            forall|i: int|
                0 <= i < BLUE_BALL_COUNT ==> #[trigger] r@[i] == blue_count(
                    records@,
                    (i + 1) as u8,
                ),
    {
        let mut counts = zero_blue_counters();
        let mut k: usize = 0;
        while k < records.len()
            invariant
                records_wf(records@),
                records@.len() < usize::MAX,
                k <= records@.len(),
                counts@.len() == BLUE_BALL_COUNT,
                forall|i: int|
                    0 <= i < BLUE_BALL_COUNT ==> #[trigger] counts@[i] == blue_count(
                        records@.take(k as int),
                        (i + 1) as u8,
                    ),
            decreases records@.len() - k,
        {
            let b = records[k].blue_ball.value;
            proof {
                assert(records@[k as int].wf());
                lemma_blue_count_bounds(records@.take(k as int), b);
            }
            let c = counts[(b - 1) as usize];
            counts.set((b - 1) as usize, c + 1);
            proof {
                assert(records@.take(k + 1).drop_last() =~= records@.take(k as int));
                assert(records@.take(k + 1).last() == records@[k as int]);
                assert forall|i: int|
                    0 <= i < BLUE_BALL_COUNT implies #[trigger] counts@[i] == blue_count(
                    records@.take(k + 1),
                    (i + 1) as u8,
                ) by {
                    if i != b - 1 {
                        assert(counts@[i] == blue_count(records@.take(k as int), (i + 1) as u8));
                    }
                }
            }
            k = k + 1;
        }
        proof {
            assert(records@.take(records@.len() as int) =~= records@);
        }
        counts
    }
}

/// Counts how often each red ball was drawn.
pub struct CountPrizedRedballProcessor;

impl CountPrizedRedballProcessor {
    /// Entry `i` of the result counts the draws carrying red ball `i + 1`.
    pub fn analyze(records: &Vec<PrBusinessObj>) -> (r: Vec<usize>)
        requires
            records_wf(records@),
            records@.len() < usize::MAX,
        ensures
            r@.len() == RED_BALL_COUNT,
            forall|i: int|
                0 <= i < RED_BALL_COUNT ==> #[trigger] r@[i] == red_count(records@, (i + 1) as u8),
    {
        let mut counts = zero_red_counters();
        let mut k: usize = 0;
        while k < records.len()
            invariant
                records_wf(records@),
                records@.len() < usize::MAX,
                k <= records@.len(),
                counts@.len() == RED_BALL_COUNT,
                forall|i: int|
                    0 <= i < RED_BALL_COUNT ==> #[trigger] counts@[i] == red_count(
                        records@.take(k as int),
                        (i + 1) as u8,
                    ),
            decreases records@.len() - k,
        {
            let ghost counts0 = counts@;
            let mut t: u8 = 1;
            while t <= RED_BALL_COUNT
                invariant
                    records_wf(records@),
                    records@.len() < usize::MAX,
                    k < records@.len(),
                    1 <= t <= RED_BALL_COUNT + 1,
                    counts@.len() == RED_BALL_COUNT,
                    forall|i: int|
                        0 <= i < RED_BALL_COUNT ==> #[trigger] counts0[i] == red_count(
                            records@.take(k as int),
                            (i + 1) as u8,
                        ),
                    forall|i: int|
                        0 <= i < RED_BALL_COUNT ==> #[trigger] counts@[i] == counts0[i] + (if i + 1
                            < t && records@[k as int].spec_has_red((i + 1) as u8) {
                            1int
                        } else {
                            0int
                        }),
                decreases RED_BALL_COUNT + 1 - t,
            {
                if records[k].has_red(t) {
                    proof {
                        lemma_red_count_bounds(records@.take(k as int), t);
                    }
                    let c = counts[(t - 1) as usize];
                    counts.set((t - 1) as usize, c + 1);
                }
                t = t + 1;
            }
            proof {
                assert(records@.take(k + 1).drop_last() =~= records@.take(k as int));
                assert(records@.take(k + 1).last() == records@[k as int]);
                assert forall|i: int|
                    0 <= i < RED_BALL_COUNT implies #[trigger] counts@[i] == red_count(
                    records@.take(k + 1),
                    (i + 1) as u8,
                ) by {
                    assert(counts0[i] == red_count(records@.take(k as int), (i + 1) as u8));
                }
            }
            k = k + 1;
        }
        proof {
            assert(records@.take(records@.len() as int) =~= records@);
        }
        counts
    }
}

/// The counters paired with their balls, in ball order: entry `i` of
/// `counts` belongs to ball `i + 1`.
pub open spec fn ball_count_pairs(counts: Seq<usize>) -> Seq<(u8, usize)> {
    Seq::new(counts.len(), |i: int| ((((i + 1) as u8)), counts[i]))
}

/// Ranks per-ball counts: count descending, ties by ball ascending.
pub struct SummaryTopCountsProcessor;

impl SummaryTopCountsProcessor {
    /// Pairs each ball with its count and sorts the pairs by count
    /// descending: the result holds exactly the (ball, count) pairs of the
    /// counters, in the canonical descending order.
    pub fn rank(counts: &Vec<usize>) -> (r: Vec<(u8, usize)>)
        requires
            counts@.len() <= 254,
        ensures
            r@.len() == counts@.len(),
            sorted_by_count_desc(r@),
            r@.to_multiset() == ball_count_pairs(counts@).to_multiset(),
    {
        let mut pairs: Vec<(u8, usize)> = Vec::new();
        let mut i: usize = 0;
        while i < counts.len()
            invariant
                counts@.len() <= 254,
                i <= counts@.len(),
                pairs@.len() == i,
                forall|k: int|
                    0 <= k < i ==> #[trigger] pairs@[k] == ((((k + 1) as u8), counts@[k])),
            decreases counts@.len() - i,
        {
            pairs.push(((i + 1) as u8, counts[i]));
            i = i + 1;
        }
        proof {
            assert(pairs@ =~= ball_count_pairs(counts@));
        }
        sort_by_count_desc(&mut pairs);
        pairs
    }
}

} // verus!
