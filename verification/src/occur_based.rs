//! The extended per-ball occurrence stage: raw interval samples with their
//! aggregates, and the ranking stage built on them.

use vstd::prelude::*;

use crate::business_obj::BallOccurInterval;
use crate::context_obj::{BallOccurInfo, info_eq};
use crate::domain::{BLUE_BALL_COUNT, Ball, BlueBall, PrBusinessObj, RED_BALL_COUNT, RedBall};
use crate::occur::{interval_samples_sum, lemma_gaps_sum_telescopes, sorted_occ, sorted_occ_of};
use crate::sorting::sorted_asc;
use crate::summary::{rank_keys_desc, ranked_keys_desc, spec_diff_key};

verus! {

/// The interval samples of an ascending occurrence-index list: the
/// consecutive differences, except that a single occurrence contributes its
/// own index as the only sample.
pub open spec fn spec_intervals(occ: Seq<usize>) -> Seq<usize> {
    if occ.len() == 0 {
        Seq::empty()
    } else if occ.len() == 1 {
        seq![occ[0]]
    } else {
        Seq::new((occ.len() - 1) as nat, |i: int| (occ[i + 1] - occ[i]) as usize)
    }
}

/// The largest value of the list.
pub fn max_of(v: &Vec<usize>) -> (m: usize)
    requires
        v@.len() > 0,
    ensures
        v@.contains(m),
        forall|k: int| 0 <= k < v@.len() ==> v@[k] <= m,
{
    let mut m = v[0];
    proof {
        assert(v@.contains(v@[0]));
    }
    let mut i: usize = 1;
    while i < v.len()
        invariant
            v@.len() > 0,
            1 <= i <= v@.len(),
            v@.contains(m),
            forall|k: int| 0 <= k < i ==> v@[k] <= m,
        decreases v@.len() - i,
    {
        if v[i] > m {
            m = v[i];
            proof {
                assert(v@.contains(v@[i as int]));
            }
        }
        i = i + 1;
    }
    m
}

/// The smallest value of the list.
pub fn min_of(v: &Vec<usize>) -> (m: usize)
    requires
        v@.len() > 0,
    ensures
        v@.contains(m),
        forall|k: int| 0 <= k < v@.len() ==> v@[k] >= m,
{
    let mut m = v[0];
    proof {
        assert(v@.contains(v@[0]));
    }
    let mut i: usize = 1;
    while i < v.len()
        invariant
            v@.len() > 0,
            1 <= i <= v@.len(),
            v@.contains(m),
            forall|k: int| 0 <= k < i ==> v@[k] >= m,
        decreases v@.len() - i,
    {
        if v[i] < m {
            m = v[i];
            proof {
                assert(v@.contains(v@[i as int]));
            }
        }
        i = i + 1;
    }
    m
}

/// What the extended record of one ball must hold, given its ascending
/// occurrence-index list: the raw samples, their extremes, the average by the
/// historical divide-by-count formula, and the expected next occurrence index
/// (last index minus average, clamped into the signed range).
pub open spec fn occur_info_matches(info: BallOccurInfo, ball: usize, occ: Seq<usize>) -> bool {
    &&& info.ball == ball
    &&& info.intervals@ == spec_intervals(occ)
    &&& info.occur_count == occ.len()
    &&& if occ.len() == 0 {
        &&& info.max_interval == 0
        &&& info.min_interval == 0
        &&& info.average_interval == 0
        &&& info.last_occur_index == 0
        &&& info.possible_next_occur_index == 0
    } else {
        &&& info.last_occur_index == occ.last()
        &&& spec_intervals(occ).contains(info.max_interval)
        &&& (forall|k: int|
            0 <= k < spec_intervals(occ).len() ==> #[trigger] spec_intervals(occ)[k]
                <= info.max_interval)
        &&& spec_intervals(occ).contains(info.min_interval)
        &&& (forall|k: int|
            0 <= k < spec_intervals(occ).len() ==> #[trigger] spec_intervals(occ)[k]
                >= info.min_interval)
        &&& info.average_interval == interval_samples_sum(occ) / (occ.len() as int)
        &&& info.possible_next_occur_index == spec_diff_key(occ.last(), info.average_interval)
    }
}

/// Builds the extended record of one ball from its ascending occurrence-index
/// list.
fn info_from_occ(ball: usize, occ: &Vec<usize>) -> (info: BallOccurInfo)
    requires
        sorted_asc(occ@),
        forall|k: int| 0 <= k < occ@.len() ==> occ@[k] < usize::MAX,
    ensures
        occur_info_matches(info, ball, occ@),
{
    let count = occ.len();
    if count == 0 {
        return BallOccurInfo::new(ball);
    }
    let first = occ[0];
    let latest = occ[count - 1];
    let mut intervals: Vec<usize> = Vec::new();
    if count == 1 {
        intervals.push(first);
        proof {
            assert(intervals@ =~= spec_intervals(occ@));
        }
    } else {
        let mut i: usize = 0;
        while i < count - 1
            invariant
                sorted_asc(occ@),
                count == occ@.len() >= 2,
                i <= count - 1,
                intervals@.len() == i,
                forall|k: int|
                    0 <= k < i ==> #[trigger] intervals@[k] == (occ@[k + 1] - occ@[k]) as usize,
            decreases count - 1 - i,
        {
            proof {
                assert(crate::sorting::sorted_asc_at(occ@[i as int], occ@[i + 1]));
            }
            intervals.push(occ[i + 1] - occ[i]);
            i = i + 1;
        }
        proof {
            assert(intervals@ =~= spec_intervals(occ@));
        }
    }
    let max_interval = max_of(&intervals);
    let min_interval = min_of(&intervals);
    let sample_sum = if count < 2 {
        first
    } else {
        proof {
            lemma_gaps_sum_telescopes(occ@);
            assert(crate::sorting::sorted_asc_at(occ@[0], occ@[count - 1]));
        }
        latest - first
    };
    let average_interval = sample_sum / count;
    let possible_next_occur_index = crate::summary::diff_key(latest, average_interval);
    BallOccurInfo {
        ball,
        intervals,
        max_interval,
        min_interval,
        average_interval,
        occur_count: count,
        last_occur_index: latest,
        possible_next_occur_index,
    }
}

/// Whether the records hold the extended statistics of every blue ball.
pub open spec fn blue_infos_of(v: Seq<BallOccurInfo>, records: Seq<PrBusinessObj>) -> bool {
    &&& v.len() == BLUE_BALL_COUNT
    &&& forall|i: int|
        0 <= i < BLUE_BALL_COUNT ==> occur_info_matches(
            #[trigger] v[i],
            (i + 1) as usize,
            sorted_occ(records, Ball::Blue(BlueBall { value: (i + 1) as u8 })),
        )
}

/// Whether the records hold the extended statistics of every red ball.
pub open spec fn red_infos_of(v: Seq<BallOccurInfo>, records: Seq<PrBusinessObj>) -> bool {
    &&& v.len() == RED_BALL_COUNT
    &&& forall|i: int|
        0 <= i < RED_BALL_COUNT ==> occur_info_matches(
            #[trigger] v[i],
            (i + 1) as usize,
            sorted_occ(records, Ball::Red(RedBall { value: (i + 1) as u8 })),
        )
}

/// Whether the entries hold the capped interval samples of every blue ball.
pub open spec fn blue_intervals_of(v: Seq<BallOccurInterval>, records: Seq<PrBusinessObj>) -> bool {
    &&& v.len() == BLUE_BALL_COUNT
    &&& forall|i: int|
        0 <= i < BLUE_BALL_COUNT ==> interval_entry_matches(
            #[trigger] v[i],
            (i + 1) as u8,
            sorted_occ(records, Ball::Blue(BlueBall { value: (i + 1) as u8 })),
        )
}

/// Whether the entries hold the capped interval samples of every red ball.
pub open spec fn red_intervals_of(v: Seq<BallOccurInterval>, records: Seq<PrBusinessObj>) -> bool {
    &&& v.len() == RED_BALL_COUNT
    &&& forall|i: int|
        0 <= i < RED_BALL_COUNT ==> interval_entry_matches(
            #[trigger] v[i],
            (i + 1) as u8,
            sorted_occ(records, Ball::Red(RedBall { value: (i + 1) as u8 })),
        )
}

/// The extended occurrence stage: one record per ball of each domain.
pub struct BallOccurProcessor;

impl BallOccurProcessor {
    /// Entry `i` of the first result describes blue ball `i + 1`, entry `i`
    /// of the second red ball `i + 1`, each against its ascending
    /// occurrence-index list.
    pub fn analyze(records: &Vec<PrBusinessObj>) -> (r: (Vec<BallOccurInfo>, Vec<BallOccurInfo>))
        requires
            forall|i: int| 0 <= i < records@.len() ==> (#[trigger] records@[i]).seq < usize::MAX,
        ensures
            r.0@.len() == BLUE_BALL_COUNT,
            forall|i: int|
                0 <= i < BLUE_BALL_COUNT ==> occur_info_matches(
                    #[trigger] r.0@[i],
                    (i + 1) as usize,
                    sorted_occ(records@, Ball::Blue(BlueBall { value: (i + 1) as u8 })),
                ),
            r.1@.len() == RED_BALL_COUNT,
            forall|i: int|
                0 <= i < RED_BALL_COUNT ==> occur_info_matches(
                    #[trigger] r.1@[i],
                    (i + 1) as usize,
                    sorted_occ(records@, Ball::Red(RedBall { value: (i + 1) as u8 })),
                ),
    {
        let mut blue: Vec<BallOccurInfo> = Vec::new();
        let mut v: u8 = 1;
        while v <= BLUE_BALL_COUNT
            invariant
                1 <= v <= BLUE_BALL_COUNT + 1,
                blue@.len() == v - 1,
                forall|i: int| 0 <= i < records@.len() ==> (#[trigger] records@[i]).seq
                    < usize::MAX,
                forall|i: int|
                    0 <= i < blue@.len() ==> occur_info_matches(
                        #[trigger] blue@[i],
                        (i + 1) as usize,
                        sorted_occ(records@, Ball::Blue(BlueBall { value: (i + 1) as u8 })),
                    ),
            decreases BLUE_BALL_COUNT + 1 - v,
        {
            let ball = Ball::Blue(BlueBall { value: v });
            let occ = sorted_occ_of(records, ball);
            proof {
                crate::occur::lemma_sorted_occ_bounded(records@, ball);
            }
            blue.push(info_from_occ(v as usize, &occ));
            v = v + 1;
        }
        let mut red: Vec<BallOccurInfo> = Vec::new();
        let mut w: u8 = 1;
        while w <= RED_BALL_COUNT
            invariant
                1 <= w <= RED_BALL_COUNT + 1,
                red@.len() == w - 1,
                forall|i: int| 0 <= i < records@.len() ==> (#[trigger] records@[i]).seq
                    < usize::MAX,
                forall|i: int|
                    0 <= i < red@.len() ==> occur_info_matches(
                        #[trigger] red@[i],
                        (i + 1) as usize,
                        sorted_occ(records@, Ball::Red(RedBall { value: (i + 1) as u8 })),
                    ),
            decreases RED_BALL_COUNT + 1 - w,
        {
            let ball = Ball::Red(RedBall { value: w });
            let occ = sorted_occ_of(records, ball);
            proof {
                crate::occur::lemma_sorted_occ_bounded(records@, ball);
            }
            red.push(info_from_occ(w as usize, &occ));
            w = w + 1;
        }
        (blue, red)
    }
}

/// The raw interval-sample stage: the bare sample lists per ball, capped into
/// the narrow sample type.
pub struct BallOccurIntervalProcessor;

impl BallOccurIntervalProcessor {
    /// Entry `i` of each result holds the interval samples of ball `i + 1` of
    /// its domain, each sample saturated at the largest narrow value.
    pub fn analyze(records: &Vec<PrBusinessObj>) -> (r: (
        Vec<BallOccurInterval>,
        Vec<BallOccurInterval>,
    ))
        requires
            forall|i: int| 0 <= i < records@.len() ==> (#[trigger] records@[i]).seq < usize::MAX,
        ensures
            r.0@.len() == BLUE_BALL_COUNT,
            forall|i: int|
                0 <= i < BLUE_BALL_COUNT ==> interval_entry_matches(
                    #[trigger] r.0@[i],
                    (i + 1) as u8,
                    sorted_occ(records@, Ball::Blue(BlueBall { value: (i + 1) as u8 })),
                ),
            r.1@.len() == RED_BALL_COUNT,
            forall|i: int|
                0 <= i < RED_BALL_COUNT ==> interval_entry_matches(
                    #[trigger] r.1@[i],
                    (i + 1) as u8,
                    sorted_occ(records@, Ball::Red(RedBall { value: (i + 1) as u8 })),
                ),
    {
        let mut blue: Vec<BallOccurInterval> = Vec::new();
        let mut v: u8 = 1;
        while v <= BLUE_BALL_COUNT
            invariant
                1 <= v <= BLUE_BALL_COUNT + 1,
                blue@.len() == v - 1,
                forall|i: int| 0 <= i < records@.len() ==> (#[trigger] records@[i]).seq
                    < usize::MAX,
                forall|i: int|
                    0 <= i < blue@.len() ==> interval_entry_matches(
                        #[trigger] blue@[i],
                        (i + 1) as u8,
                        sorted_occ(records@, Ball::Blue(BlueBall { value: (i + 1) as u8 })),
                    ),
            decreases BLUE_BALL_COUNT + 1 - v,
        {
            let ball = Ball::Blue(BlueBall { value: v });
            let occ = sorted_occ_of(records, ball);
            blue.push(Self::entry_from_occ(v, &occ));
            v = v + 1;
        }
        let mut red: Vec<BallOccurInterval> = Vec::new();
        let mut w: u8 = 1;
        while w <= RED_BALL_COUNT
            invariant
                1 <= w <= RED_BALL_COUNT + 1,
                red@.len() == w - 1,
                forall|i: int| 0 <= i < records@.len() ==> (#[trigger] records@[i]).seq
                    < usize::MAX,
                forall|i: int|
                    0 <= i < red@.len() ==> interval_entry_matches(
                        #[trigger] red@[i],
                        (i + 1) as u8,
                        sorted_occ(records@, Ball::Red(RedBall { value: (i + 1) as u8 })),
                    ),
            decreases RED_BALL_COUNT + 1 - w,
        {
            let ball = Ball::Red(RedBall { value: w });
            let occ = sorted_occ_of(records, ball);
            red.push(Self::entry_from_occ(w, &occ));
            w = w + 1;
        }
        (blue, red)
    }

    fn entry_from_occ(ball: u8, occ: &Vec<usize>) -> (e: BallOccurInterval)
        requires
            sorted_asc(occ@),
        ensures
            interval_entry_matches(e, ball, occ@),
    {
        let mut e = BallOccurInterval::new(ball);
        if occ.len() == 0 {
            proof {
                assert(e.intervals@ =~= spec_intervals(occ@).map_values(|x: usize| cap_u32(x)));
            }
            return e;
        }
        if occ.len() == 1 {
            e.add_interval(cap_to_u32(occ[0]));
            proof {
                assert(e.intervals@ =~= spec_intervals(occ@).map_values(|x: usize| cap_u32(x)));
            }
            return e;
        }
        let count = occ.len();
        let mut i: usize = 0;
        while i < count - 1
            invariant
                sorted_asc(occ@),
                count == occ@.len() >= 2,
                i <= count - 1,
                e.ball == ball,
                e.intervals@.len() == i,
                forall|k: int|
                    0 <= k < i ==> #[trigger] e.intervals@[k] == cap_u32(
                        (occ@[k + 1] - occ@[k]) as usize,
                    ),
            decreases count - 1 - i,
        {
            proof {
                assert(crate::sorting::sorted_asc_at(occ@[i as int], occ@[i + 1]));
            }
            e.add_interval(cap_to_u32(occ[i + 1] - occ[i]));
            i = i + 1;
        }
        proof {
            assert(e.intervals@ =~= spec_intervals(occ@).map_values(|x: usize| cap_u32(x)));
        }
        e
    }
}

/// The value squeezed into the narrow sample type, saturating at its top.
pub open spec fn cap_u32(x: usize) -> u32 {
    if x > u32::MAX {
        u32::MAX
    } else {
        x as u32
    }
}

fn cap_to_u32(x: usize) -> (r: u32)
    ensures
        r == cap_u32(x),
{
    if x as u64 > u32::MAX as u64 {
        u32::MAX
    } else {
        x as u32
    }
}

/// What the raw sample entry of one ball must hold.
pub open spec fn interval_entry_matches(e: BallOccurInterval, ball: u8, occ: Seq<usize>) -> bool {
    &&& e.ball == ball
    &&& e.intervals@ == spec_intervals(occ).map_values(|x: usize| cap_u32(x))
}

/// The occurrence-based ranking stage: orders the per-ball records so that
/// the balls most overdue by their expected next occurrence index come first.
pub struct OccurBasedSummaryProcessor;

impl OccurBasedSummaryProcessor {
    /// Sorts the records by expected next occurrence index descending, ties
    /// by entry position ascending.
    pub fn sort_ball_occurs(infos: &Vec<BallOccurInfo>) -> (r: Vec<BallOccurInfo>)
        ensures
            r@.len() == infos@.len(),
            forall|k: int|
                0 <= k < r@.len() ==> info_eq(
                    #[trigger] r@[k],
                    infos@[ranked_keys_desc(next_index_pairs(infos@))[k].0 as int],
                ),
    {
        let mut pairs: Vec<(usize, i64)> = Vec::new();
        let mut i: usize = 0;
        while i < infos.len()
            invariant
                i <= infos@.len(),
                pairs@ == next_index_pairs(infos@.take(i as int)),
            decreases infos@.len() - i,
        {
            pairs.push((i, infos[i].possible_next_occur_index()));
            proof {
                assert(pairs@ =~= next_index_pairs(infos@.take(i + 1)));
            }
            i = i + 1;
        }
        proof {
            assert(infos@.take(infos@.len() as int) =~= infos@);
        }
        rank_keys_desc(&mut pairs);
        proof {
            broadcast use vstd::seq_lib::group_to_multiset_ensures;

            assert forall|k: int| 0 <= k < pairs@.len() implies (#[trigger] pairs@[k]).0
                < infos@.len() by {
                assert(pairs@.contains(pairs@[k]));
                assert(pairs@.to_multiset().count(pairs@[k]) > 0);
                assert(next_index_pairs(infos@).to_multiset().count(pairs@[k]) > 0);
                assert(next_index_pairs(infos@).contains(pairs@[k]));
                let w = choose|w: int|
                    0 <= w < next_index_pairs(infos@).len() && next_index_pairs(infos@)[w]
                        == pairs@[k];
            }
        }
        let mut r: Vec<BallOccurInfo> = Vec::new();
        let mut k: usize = 0;
        while k < pairs.len()
            invariant
                pairs@.len() == infos@.len(),
                pairs@ == ranked_keys_desc(next_index_pairs(infos@)),
                forall|t: int| 0 <= t < pairs@.len() ==> (#[trigger] pairs@[t]).0 < infos@.len(),
                k <= pairs@.len(),
                r@.len() == k,
                forall|t: int|
                    0 <= t < k ==> info_eq(#[trigger] r@[t], infos@[pairs@[t].0 as int]),
            decreases pairs@.len() - k,
        {
            r.push(infos[pairs[k].0].clone());
            k = k + 1;
        }
        r
    }
}

/// The expected-next-occurrence keys of the records.
pub open spec fn next_index_pairs(infos: Seq<BallOccurInfo>) -> Seq<(usize, i64)> {
    Seq::new(infos.len(), |i: int| (i as usize, infos[i].possible_next_occur_index))
}

} // verus!
