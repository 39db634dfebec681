//! Per-ball occurrence-interval statistics.
//!
//! For every ball of both domains the analyzer gathers the sequence indices
//! of the draws the ball occurred in, in ascending order (by the library's
//! convention ascending index means ascending draw date), and derives from
//! them the occurrence count, the average interval, a projected occurrence
//! count and the most recent occurrence index.

use vstd::prelude::*;

use vstd::relations::total_ordering;
use vstd::relations::sorted_by;

use crate::domain::{BLUE_BALL_COUNT, Ball, BlueBall, PrBusinessObj, RED_BALL_COUNT, RedBall};
use crate::sorting::{sort_asc, sorted_asc, sorted_asc_at};

verus! {

/// Interval statistics of one ball: how often it occurred, the average gap
/// between occurrences, how often the average gap says it should have
/// occurred, and the most recent occurrence index.
#[derive(Clone, Copy, Debug, PartialEq, Eq, Structural)]
pub struct OccurrenceDetail {
    pub average_occur_interval: usize,
    pub occurrence_count_by_official_data: usize,
    pub latest_occur_seq: usize,
    pub occurrence_count_by_average_interval: usize,
}

impl OccurrenceDetail {
    pub open spec fn spec_average_occur_interval(self) -> usize {
        self.average_occur_interval
    }

    pub open spec fn spec_occurrence_count(self) -> usize {
        self.occurrence_count_by_official_data
    }

    pub open spec fn spec_latest_occur_seq(self) -> usize {
        self.latest_occur_seq
    }

    pub open spec fn spec_projected_count(self) -> usize {
        self.occurrence_count_by_average_interval
    }

    pub fn average_occur_interval(&self) -> (r: usize)
        ensures
            r == self.spec_average_occur_interval(),
    {
        self.average_occur_interval
    }

    pub fn set_average_occur_interval(&mut self, average_occur_interval: usize)
        ensures
            *final(self) == (OccurrenceDetail { average_occur_interval, ..*old(self) }),
    {
        self.average_occur_interval = average_occur_interval;
    }

    pub fn occurrence_count_by_official_data(&self) -> (r: usize)
        ensures
            r == self.spec_occurrence_count(),
    {
        self.occurrence_count_by_official_data
    }

    pub fn set_occurrence_count_by_official_data(
        &mut self,
        occurrence_count_by_official_data: usize,
    )
        ensures
            *final(self) == (OccurrenceDetail {
                occurrence_count_by_official_data,
                ..*old(self)
            }),
    {
        self.occurrence_count_by_official_data = occurrence_count_by_official_data
    }

    pub fn set_latest_occur_seq(&mut self, latest_occur_seq: usize)
        ensures
            *final(self) == (OccurrenceDetail { latest_occur_seq, ..*old(self) }),
    {
        self.latest_occur_seq = latest_occur_seq
    }

    pub fn latest_occur_seq(&self) -> (r: usize)
        ensures
            r == self.spec_latest_occur_seq(),
    {
        self.latest_occur_seq
    }

    pub fn occurrence_count_by_average_interval(&self) -> (r: usize)
        ensures
            r == self.spec_projected_count(),
    {
        self.occurrence_count_by_average_interval
    }

    pub fn set_occurrence_count_by_average_interval(
        &mut self,
        occurrence_count_by_average_interval: usize,
    )
        ensures
            *final(self) == (OccurrenceDetail {
                occurrence_count_by_average_interval,
                ..*old(self)
            }),
    {
        self.occurrence_count_by_average_interval = occurrence_count_by_average_interval;
    }
}

impl Default for OccurrenceDetail {
    /// The all-zero entry that balls without any occurrence receive.
    fn default() -> (r: Self)
        ensures
            r.spec_average_occur_interval() == 0,
            r.spec_occurrence_count() == 0,
            r.spec_latest_occur_seq() == 0,
            r.spec_projected_count() == 0,
    {
        OccurrenceDetail {
            average_occur_interval: 0,
            occurrence_count_by_official_data: 0,
            latest_occur_seq: 0,
            occurrence_count_by_average_interval: 0,
        }
    }
}

/// Occurrence statistics for every member of both ball domains: entry `i` of
/// `blue` belongs to blue ball `i + 1`, entry `i` of `red` to red ball
/// `i + 1`.
#[derive(Clone, Debug)]
pub struct BallOccurrences {
    pub blue: Vec<OccurrenceDetail>,
    pub red: Vec<OccurrenceDetail>,
}

impl BallOccurrences {
    pub open spec fn wf(self) -> bool {
        self.blue@.len() == BLUE_BALL_COUNT && self.red@.len() == RED_BALL_COUNT
    }

    /// The entry of the given ball.
    pub open spec fn spec_get(self, ball: Ball) -> OccurrenceDetail {
        match ball {
            Ball::Blue(b) => self.blue@[b.value - 1],
            Ball::Red(r) => self.red@[r.value - 1],
        }
    }

    pub fn get(&self, ball: Ball) -> (r: &OccurrenceDetail)
        requires
            self.wf(),
            ball.wf(),
        ensures
            *r == self.spec_get(ball),
    {
        match ball {
            Ball::Blue(b) => &self.blue[(b.value - 1) as usize],
            Ball::Red(r) => &self.red[(r.value - 1) as usize],
        }
    }
}

/// Whether the ball was drawn in the record.
pub open spec fn ball_in_record(rec: PrBusinessObj, ball: Ball) -> bool {
    match ball {
        Ball::Blue(b) => rec.blue_ball == b,
        Ball::Red(r) => rec.spec_has_red(r.value),
    }
}

/// The sequence indices of the records the ball occurred in, in record order.
pub open spec fn occ_seqs(records: Seq<PrBusinessObj>, ball: Ball) -> Seq<usize>
    decreases records.len(),
{
    if records.len() == 0 {
        Seq::empty()
    } else {
        let rest = occ_seqs(records.drop_last(), ball);
        if ball_in_record(records.last(), ball) {
            rest.push(records.last().seq)
        } else {
            rest
        }
    }
}

/// The occurrence-index list of the ball, ascending.
pub open spec fn sorted_occ(records: Seq<PrBusinessObj>, ball: Ball) -> Seq<usize> {
    occ_seqs(records, ball).sort_by(|x: usize, y: usize| x <= y)
}

/// The sum of the consecutive differences of the list.
pub open spec fn gaps_sum(occ: Seq<usize>) -> int
    decreases occ.len(),
{
    if occ.len() < 2 {
        0
    } else {
        gaps_sum(occ.drop_last()) + (occ.last() - occ[occ.len() - 2])
    }
}

/// The interval samples' sum: the consecutive differences of the ascending
/// occurrence-index list, except that a single occurrence contributes its own
/// index as the only sample.
pub open spec fn interval_samples_sum(occ: Seq<usize>) -> int {
    if occ.len() < 2 {
        if occ.len() == 0 {
            0
        } else {
            occ[0] as int
        }
    } else {
        gaps_sum(occ)
    }
}

/// Consecutive differences telescope: their sum is last minus first.
pub proof fn lemma_gaps_sum_telescopes(occ: Seq<usize>)
    requires
        occ.len() >= 2,
    ensures
        gaps_sum(occ) == occ.last() - occ[0],
    decreases occ.len(),
{
    if occ.len() == 2 {
        assert(gaps_sum(occ.drop_last()) == 0);
    } else {
        lemma_gaps_sum_telescopes(occ.drop_last());
    }
}

/// What the occurrence statistics of one ball must be, given its ascending
/// occurrence-index list `occ` and the total number of records:
/// - a ball that never occurred keeps the all-zero entry;
/// - the occurrence count is the length of the list;
/// - the average interval divides the interval samples' sum by the occurrence
///   count (not by the number of samples: the historical formula is kept for
///   output compatibility);
/// - the projected count divides the record total by the average interval
///   plus one;
/// - the most recent occurrence index is the last of the ascending list.
pub open spec fn detail_matches(d: OccurrenceDetail, occ: Seq<usize>, total: nat) -> bool {
    if occ.len() == 0 {
        d == (OccurrenceDetail {
            average_occur_interval: 0,
            occurrence_count_by_official_data: 0,
            latest_occur_seq: 0,
            occurrence_count_by_average_interval: 0,
        })
    } else {
        &&& d.occurrence_count_by_official_data == occ.len()
        &&& d.latest_occur_seq == occ.last()
        &&& d.average_occur_interval == interval_samples_sum(occ) / (occ.len() as int)
        &&& d.occurrence_count_by_average_interval == total as int / (
        d.average_occur_interval + 1)
    }
}

/// Whether the occurrence map holds, for every ball of both domains, exactly
/// the statistics of the given records.
pub open spec fn occurrences_of(occs: BallOccurrences, records: Seq<PrBusinessObj>) -> bool {
    &&& occs.wf()
    &&& forall|i: int|
        0 <= i < BLUE_BALL_COUNT ==> detail_matches(
            #[trigger] occs.blue@[i],
            sorted_occ(records, Ball::Blue(BlueBall { value: (i + 1) as u8 })),
            records.len(),
        )
    &&& forall|i: int|
        0 <= i < RED_BALL_COUNT ==> detail_matches(
            #[trigger] occs.red@[i],
            sorted_occ(records, Ball::Red(RedBall { value: (i + 1) as u8 })),
            records.len(),
        )
}

/// Collects the occurrence indices of the ball, in record order.
fn collect_occ_seqs(records: &Vec<PrBusinessObj>, ball: Ball) -> (r: Vec<usize>)
    ensures
        r@ == occ_seqs(records@, ball),
{
    let mut r: Vec<usize> = Vec::new();
    let mut i: usize = 0;
    while i < records.len()
        invariant
            i <= records@.len(),
            r@ == occ_seqs(records@.take(i as int), ball),
        decreases records@.len() - i,
    {
        proof {
            assert(records@.take(i + 1).drop_last() =~= records@.take(i as int));
            assert(records@.take(i + 1).last() == records@[i as int]);
        }
        let hit = match ball {
            Ball::Blue(b) => records[i].blue_ball.value == b.value,
            Ball::Red(rb) => records[i].has_red(rb.value),
        };
        proof {
            if ball is Blue {
                assert(hit == ball_in_record(records@[i as int], ball));
            }
        }
        if hit {
            r.push(records[i].seq);
        }
        i = i + 1;
    }
    proof {
        assert(records@.take(records@.len() as int) =~= records@);
    }
    r
}

/// Builds the statistics of one ball from its ascending occurrence-index
/// list.
fn detail_from_occ(occ: &Vec<usize>, total: usize) -> (d: OccurrenceDetail)
    requires
        sorted_asc(occ@),
        forall|k: int| 0 <= k < occ@.len() ==> occ@[k] < usize::MAX,
    ensures
        detail_matches(d, occ@, total as nat),
{
    let count = occ.len();
    if count == 0 {
        return OccurrenceDetail::default();
    }
    let first = occ[0];
    let latest = occ[count - 1];
    let sample_sum = if count < 2 {
        first
    } else {
        proof {
            lemma_gaps_sum_telescopes(occ@);
            assert(sorted_asc_at(occ@[0], occ@[count - 1]));
        }
        latest - first
    };
    let average_occur_interval = sample_sum / count;
    let occurrence_count_by_average_interval = total / (average_occur_interval + 1);
    OccurrenceDetail {
        average_occur_interval,
        occurrence_count_by_official_data: count,
        latest_occur_seq: latest,
        occurrence_count_by_average_interval,
    }
}

/// Sorts the collected occurrence indices ascending and relates the result to
/// the specification-level sorted list.
pub fn sorted_occ_of(records: &Vec<PrBusinessObj>, ball: Ball) -> (r: Vec<usize>)
    ensures
        r@ == sorted_occ(records@, ball),
        sorted_asc(r@),
{
    let mut occ = collect_occ_seqs(records, ball);
    sort_asc(&mut occ);
    proof {
        let leq = |x: usize, y: usize| x <= y;
        assert(total_ordering(leq));
        occ_seqs(records@, ball).lemma_sort_by_ensures(leq);
        assert forall|a: int, b: int| 0 <= a < b < occ@.len() implies leq(occ@[a], occ@[b]) by {
            assert(sorted_asc_at(occ@[a], occ@[b]));
        }
        assert(sorted_by(occ@, leq));
        vstd::seq_lib::lemma_sorted_unique(occ@, sorted_occ(records@, ball), leq);
        assert(occ@ =~= sorted_occ(records@, ball));
    }
    occ
}

/// The occurrence-statistics stage.
pub struct OccurProcessor;

/// Computes the occurrence statistics of every ball of both domains.
pub fn analyze_ball_occurrences(records: &Vec<PrBusinessObj>) -> (r: BallOccurrences)
    requires
        forall|i: int| 0 <= i < records@.len() ==> (#[trigger] records@[i]).seq < usize::MAX,
    ensures
        r.wf(),
        forall|i: int|
            0 <= i < BLUE_BALL_COUNT ==> detail_matches(
                #[trigger] r.blue@[i],
                sorted_occ(records@, Ball::Blue(BlueBall { value: (i + 1) as u8 })),
                records@.len(),
            ),
        forall|i: int|
            0 <= i < RED_BALL_COUNT ==> detail_matches(
                #[trigger] r.red@[i],
                sorted_occ(records@, Ball::Red(RedBall { value: (i + 1) as u8 })),
                records@.len(),
            ),
{
    let total = records.len();
    let mut blue: Vec<OccurrenceDetail> = Vec::new();
    let mut v: u8 = 1;
    while v <= BLUE_BALL_COUNT
        invariant
            1 <= v <= BLUE_BALL_COUNT + 1,
            blue@.len() == v - 1,
            total == records@.len(),
            forall|i: int| 0 <= i < records@.len() ==> (#[trigger] records@[i]).seq < usize::MAX,
            forall|i: int|
                0 <= i < blue@.len() ==> detail_matches(
                    #[trigger] blue@[i],
                    sorted_occ(records@, Ball::Blue(BlueBall { value: (i + 1) as u8 })),
                    records@.len(),
                ),
        decreases BLUE_BALL_COUNT + 1 - v,
    {
        let ball = Ball::Blue(BlueBall { value: v });
        let occ = sorted_occ_of(records, ball);
        proof {
            lemma_sorted_occ_bounded(records@, ball);
        }
        let d = detail_from_occ(&occ, total);
        blue.push(d);
        v = v + 1;
    }
    let mut red: Vec<OccurrenceDetail> = Vec::new();
    let mut w: u8 = 1;
    while w <= RED_BALL_COUNT
        invariant
            1 <= w <= RED_BALL_COUNT + 1,
            red@.len() == w - 1,
            total == records@.len(),
            forall|i: int| 0 <= i < records@.len() ==> (#[trigger] records@[i]).seq < usize::MAX,
            forall|i: int|
                0 <= i < red@.len() ==> detail_matches(
                    #[trigger] red@[i],
                    sorted_occ(records@, Ball::Red(RedBall { value: (i + 1) as u8 })),
                    records@.len(),
                ),
        decreases RED_BALL_COUNT + 1 - w,
    {
        let ball = Ball::Red(RedBall { value: w });
        let occ = sorted_occ_of(records, ball);
        proof {
            lemma_sorted_occ_bounded(records@, ball);
        }
        let d = detail_from_occ(&occ, total);
        red.push(d);
        w = w + 1;
    }
    BallOccurrences { blue, red }
}

/// Every occurrence index is the sequence index of some record, so the bound
/// on record indices carries over to the sorted list.
proof fn lemma_occ_seqs_bounded(records: Seq<PrBusinessObj>, ball: Ball)
    requires
        forall|i: int| 0 <= i < records.len() ==> (#[trigger] records[i]).seq < usize::MAX,
    ensures
        forall|k: int|
            0 <= k < occ_seqs(records, ball).len() ==> #[trigger] occ_seqs(records, ball)[k]
                < usize::MAX,
    decreases records.len(),
{
    if records.len() > 0 {
        assert(forall|i: int|
            0 <= i < records.drop_last().len() ==> (#[trigger] records.drop_last()[i]).seq
                < usize::MAX);
        lemma_occ_seqs_bounded(records.drop_last(), ball);
        let rest = occ_seqs(records.drop_last(), ball);
        assert forall|k: int|
            0 <= k < occ_seqs(records, ball).len() implies #[trigger] occ_seqs(records, ball)[k]
            < usize::MAX by {
            assert(records[records.len() - 1].seq < usize::MAX);
            if ball_in_record(records.last(), ball) {
                assert(occ_seqs(records, ball) == rest.push(records.last().seq));
                if k < rest.len() {
                    assert(rest[k] < usize::MAX);
                }
            } else {
                assert(occ_seqs(records, ball) == rest);
                assert(rest[k] < usize::MAX);
            }
        }
    }
}

pub proof fn lemma_sorted_occ_bounded(records: Seq<PrBusinessObj>, ball: Ball)
    requires
        forall|i: int| 0 <= i < records.len() ==> (#[trigger] records[i]).seq < usize::MAX,
    ensures
        forall|k: int|
            0 <= k < sorted_occ(records, ball).len() ==> #[trigger] sorted_occ(records, ball)[k]
                < usize::MAX,
{
    let leq = |x: usize, y: usize| x <= y;
    let occ = occ_seqs(records, ball);
    lemma_occ_seqs_bounded(records, ball);
    assert(total_ordering(leq));
    occ.lemma_sort_by_ensures(leq);
    assert forall|k: int|
        0 <= k < sorted_occ(records, ball).len() implies #[trigger] sorted_occ(records, ball)[k]
        < usize::MAX by {
        assert(sorted_occ(records, ball).contains(sorted_occ(records, ball)[k]));
        assert(occ.contains(sorted_occ(records, ball)[k]));
    }
}

} // verus!
