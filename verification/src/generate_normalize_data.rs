//! Per-record rows that relate each draw to the signals computed for it.

use vstd::prelude::*;

use vstd::relations::sorted_by;
use vstd::relations::total_ordering;

use crate::domain::{Ball, BlueBall, DrawDate, PrBusinessObj, RED_BALL_COUNT, RedBall, records_wf};
use crate::mining::GroupPatterns;
use crate::occur::BallOccurrences;
use crate::sorting::{dedup_first, lemma_spec_dedup_properties, sort_asc_u8, spec_dedup};
use crate::summary::{ranked_desc, take_front};

verus! {

/// One normalized report row: the draw itself beside the occurrence
/// statistics of its blue ball and the red balls the mining stage relates to
/// that blue ball. `matched_count` out of six predicted red balls were drawn.
#[derive(Clone, Debug)]
pub struct NormalizedRow {
    pub code: String,
    pub date: DrawDate,
    pub blue_ball: BlueBall,
    pub red_balls: [RedBall; 6],
    pub average_occur_interval: usize,
    pub expected_count: usize,
    pub actual_count: usize,
    pub top_related_red_balls: Vec<RedBall>,
    pub matched_count: usize,
}

/// How many of the given red balls were drawn in the record.
pub open spec fn count_matched(tops: Seq<RedBall>, rec: PrBusinessObj) -> int
    decreases tops.len(),
{
    if tops.len() == 0 {
        0
    } else {
        count_matched(tops.drop_last(), rec) + if rec.spec_has_red(tops.last().value) {
            1int
        } else {
            0int
        }
    }
}

proof fn lemma_count_matched_bounds(tops: Seq<RedBall>, rec: PrBusinessObj)
    ensures
        0 <= count_matched(tops, rec) <= tops.len(),
    decreases tops.len(),
{
    if tops.len() > 0 {
        lemma_count_matched_bounds(tops.drop_last(), rec);
    }
}

/// The patterns' (index, inverted-support) ranking keys: a small support
/// gets a large weight, so the canonical descending order ranks supports
/// ascending.
pub open spec fn asc_support_pairs(ps: Seq<crate::mining::FrequentPattern>) -> Seq<(usize, usize)> {
    Seq::new(ps.len(), |i: int| (i as usize, (usize::MAX - ps[i].1) as usize))
}

/// The red-ball values a group recommends for the report: the items of its
/// six lowest-support patterns (ties by pattern position), the first six
/// distinct values among them, ascending.
pub open spec fn spec_normalize_reds(g: GroupPatterns) -> Seq<u8> {
    crate::final_result::sorted_values(
        take_front(
            spec_dedup(
                crate::final_result::harvested_items(
                    g.patterns@,
                    take_front(ranked_desc(asc_support_pairs(g.patterns@)), 6),
                ),
            ),
            6,
        ),
    )
}

/// What one normalized row must hold against its record, the occurrence
/// statistics and the mining groups: the draw itself, the occurrence figures
/// of its blue ball, up to six distinct ascending red balls out of the
/// mined patterns of that blue ball, and how many of them the draw matched.
pub open spec fn row_matches(
    row: NormalizedRow,
    rec: PrBusinessObj,
    occs: BallOccurrences,
    grouped: Seq<GroupPatterns>,
) -> bool {
    &&& row.code@ == rec.code@
    &&& row.date == rec.date
    &&& row.blue_ball == rec.blue_ball
    &&& row.red_balls@ == rec.red_balls@
    &&& row.average_occur_interval == occs.spec_get(
        Ball::Blue(rec.blue_ball),
    ).average_occur_interval
    &&& row.expected_count == occs.spec_get(
        Ball::Blue(rec.blue_ball),
    ).occurrence_count_by_average_interval
    &&& row.actual_count == occs.spec_get(
        Ball::Blue(rec.blue_ball),
    ).occurrence_count_by_official_data
    &&& row.top_related_red_balls@.len() == spec_normalize_reds(
        grouped[rec.blue_ball.value - 1],
    ).len()
    &&& row.top_related_red_balls@.len() <= 6
    &&& (forall|a: int|
        0 <= a < row.top_related_red_balls@.len() ==> (
        #[trigger] row.top_related_red_balls@[a]).value == spec_normalize_reds(
            grouped[rec.blue_ball.value - 1],
        )[a])
    &&& (forall|a: int, b: int|
        0 <= a < b < row.top_related_red_balls@.len() ==> row.top_related_red_balls@[a].value
            != row.top_related_red_balls@[b].value)
    &&& (forall|a: int|
        0 <= a < row.top_related_red_balls@.len() ==> (
        #[trigger] row.top_related_red_balls@[a]).wf() && crate::final_result::group_item(
            grouped[rec.blue_ball.value - 1],
            row.top_related_red_balls@[a].value,
        ))
    &&& row.matched_count == count_matched(row.top_related_red_balls@, rec)
}

/// The normalization stage: one report row per draw record.
pub struct GenerateNormalizeDataProcessor;

impl GenerateNormalizeDataProcessor {
    pub fn new() -> (r: Self)
        ensures
            true,
    {
        GenerateNormalizeDataProcessor
    }

    /// Up to six distinct red balls out of the group's patterns, ranked by
    /// support ascending, ascending by value.
    fn top_related_of_group(g: &GroupPatterns) -> (r: Vec<RedBall>)
        requires
            forall|p: int, q: int|
                0 <= p < g.patterns@.len() && 0 <= q < (#[trigger] g.patterns@[p]).0@.len() ==> 1
                    <= #[trigger] g.patterns@[p].0@[q] <= RED_BALL_COUNT,
        ensures
            r@.len() == spec_normalize_reds(*g).len(),
            r@.len() <= 6,
            forall|a: int| 0 <= a < r@.len() ==> (#[trigger] r@[a]).value == spec_normalize_reds(
                *g,
            )[a],
            forall|a: int, b: int| 0 <= a < b < r@.len() ==> r@[a].value != r@[b].value,
            forall|a: int|
                0 <= a < r@.len() ==> (#[trigger] r@[a]).wf() && crate::final_result::group_item(
                    *g,
                    r@[a].value,
                ),
    {
        let n = g.patterns.len();
        let mut by_support: Vec<(usize, usize)> = Vec::new();
        let mut p: usize = 0;
        while p < n
            invariant
                n == g.patterns@.len(),
                p <= n,
                by_support@ == asc_support_pairs(g.patterns@.take(p as int)),
                forall|k: int| 0 <= k < by_support@.len() ==> (#[trigger] by_support@[k]).0 < n,
            decreases n - p,
        {
            let support = g.patterns[p].1;
            by_support.push((p, usize::MAX - support));
            proof {
                assert(by_support@ =~= asc_support_pairs(g.patterns@.take(p + 1)));
            }
            p = p + 1;
        }
        proof {
            assert(g.patterns@.take(n as int) =~= g.patterns@);
        }
        let ghost before = by_support@;
        crate::summary::rank_pairs_desc(&mut by_support);
        proof {
            broadcast use vstd::seq_lib::group_to_multiset_ensures;

            assert forall|k: int| 0 <= k < by_support@.len() implies (#[trigger] by_support@[k]).0
                < n by {
                assert(by_support@.contains(by_support@[k]));
                assert(by_support@.to_multiset().count(by_support@[k]) > 0);
                assert(before.contains(by_support@[k]));
                let w = choose|w: int| 0 <= w < before.len() && before[w] == by_support@[k];
            }
        }
        let mut items: Vec<u8> = Vec::new();
        let mut e: usize = 0;
        while e < by_support.len() && e < 6
            invariant
                n == g.patterns@.len(),
                forall|p2: int, q2: int|
                    0 <= p2 < g.patterns@.len() && 0 <= q2 < (#[trigger] g.patterns@[p2]).0@.len()
                        ==> 1 <= #[trigger] g.patterns@[p2].0@[q2] <= RED_BALL_COUNT,
                forall|k: int| 0 <= k < by_support@.len() ==> (#[trigger] by_support@[k]).0 < n,
                e <= by_support@.len(),
                e <= 6,
                items@ == crate::final_result::harvested_items(
                    g.patterns@,
                    by_support@.take(e as int),
                ),
                forall|k: int|
                    0 <= k < items@.len() ==> crate::final_result::group_item(
                        *g,
                        #[trigger] items@[k],
                    ) && 1 <= items@[k] <= RED_BALL_COUNT,
            decreases by_support@.len() - e,
        {
            let ghost items0 = items@;
            let idx = by_support[e].0;
            let mut q: usize = 0;
            while q < g.patterns[idx].0.len()
                invariant
                    n == g.patterns@.len(),
                    idx < n,
                    forall|p2: int, q2: int|
                        0 <= p2 < g.patterns@.len() && 0 <= q2 < (
                        #[trigger] g.patterns@[p2]).0@.len() ==> 1 <= #[trigger] g.patterns@[p2].0@[q2]
                            <= RED_BALL_COUNT,
                    q <= g.patterns@[idx as int].0@.len(),
                    items@ == items0 + g.patterns@[idx as int].0@.take(q as int),
                    forall|k: int|
                        0 <= k < items@.len() ==> crate::final_result::group_item(
                            *g,
                            #[trigger] items@[k],
                        ) && 1 <= items@[k] <= RED_BALL_COUNT,
                decreases g.patterns@[idx as int].0@.len() - q,
            {
                items.push(g.patterns[idx].0[q]);
                proof {
                    assert(crate::final_result::group_item(
                        *g,
                        g.patterns@[idx as int].0@[q as int],
                    ));
                    assert(items@ =~= items0 + g.patterns@[idx as int].0@.take(q + 1));
                }
                q = q + 1;
            }
            proof {
                assert(g.patterns@[idx as int].0@.take(g.patterns@[idx as int].0@.len() as int)
                    =~= g.patterns@[idx as int].0@);
                assert(by_support@.take(e + 1).drop_last() =~= by_support@.take(e as int));
                assert(by_support@.take(e + 1).last() == by_support@[e as int]);
                assert(items@ == crate::final_result::harvested_items(
                    g.patterns@,
                    by_support@.take(e + 1),
                ));
            }
            e = e + 1;
        }
        proof {
            if by_support@.len() <= 6 {
                assert(e == by_support@.len());
                assert(by_support@.take(e as int) =~= by_support@);
            } else {
                assert(e == 6);
            }
            assert(by_support@.take(e as int) == take_front(by_support@, 6));
        }
        let mut values = dedup_first(&items);
        proof {
            lemma_spec_dedup_properties(items@);
        }
        let ghost dedup_view = values@;
        values.truncate(6);
        proof {
            if 6 <= dedup_view.len() {
                assert(values@ == dedup_view.take(6));
            } else {
                assert(values@ == dedup_view);
            }
            assert(values@ == take_front(dedup_view, 6));
            assert(forall|a: int|
                0 <= a < values@.len() ==> #[trigger] values@[a] == dedup_view[a]);
        }
        let ghost truncated0 = values@;
        sort_asc_u8(&mut values);
        proof {
            broadcast use vstd::seq_lib::group_to_multiset_ensures;

            assert(truncated0.no_duplicates()) by {
                assert(forall|a: int, b: int|
                    0 <= a < b < truncated0.len() ==> truncated0[a] == dedup_view[a]
                        && truncated0[b] == dedup_view[b]);
            }
            let leq = |x: u8, y: u8| x <= y;
            assert(total_ordering(leq));
            truncated0.lemma_sort_by_ensures(leq);
            assert forall|a2: int, b2: int| 0 <= a2 < b2 < values@.len() implies leq(
                values@[a2],
                values@[b2],
            ) by {
                assert(crate::sorting::sorted_asc_u8_at(values@[a2], values@[b2]));
            }
            assert(sorted_by(values@, leq));
            vstd::seq_lib::lemma_sorted_unique(values@, truncated0.sort_by(leq), leq);
            assert(values@ =~= crate::final_result::sorted_values(truncated0));
            assert(values@ == spec_normalize_reds(*g));
            truncated0.lemma_multiset_has_no_duplicates();
            values@.lemma_multiset_has_no_duplicates_conv();
            assert forall|k: int|
                0 <= k < values@.len() implies crate::final_result::group_item(
                *g,
                #[trigger] values@[k],
            ) && 1 <= values@[k] <= RED_BALL_COUNT by {
                assert(values@.contains(values@[k]));
                assert(values@.to_multiset().count(values@[k]) > 0);
                assert(truncated0.contains(values@[k]));
                let w0 = choose|w0: int| 0 <= w0 < truncated0.len() && truncated0[w0] == values@[k];
                assert(dedup_view[w0] == values@[k]);
                assert(dedup_view.contains(values@[k]));
                assert(items@.contains(values@[k]));
                let w = choose|w: int| 0 <= w < items@.len() && items@[w] == values@[k];
            }
        }
        let mut r: Vec<RedBall> = Vec::new();
        let mut k: usize = 0;
        while k < values.len()
            invariant
                values@.len() <= 6,
                values@.no_duplicates(),
                forall|t: int|
                    0 <= t < values@.len() ==> crate::final_result::group_item(
                        *g,
                        #[trigger] values@[t],
                    ) && 1 <= values@[t] <= RED_BALL_COUNT,
                k <= values@.len(),
                r@.len() == k,
                forall|t: int| 0 <= t < k ==> (#[trigger] r@[t]).value == values@[t],
            decreases values@.len() - k,
        {
            r.push(RedBall { value: values[k] });
            k = k + 1;
        }
        r
    }

    /// Builds one normalized row per record.
    pub fn analyze(
        records: &Vec<PrBusinessObj>,
        occs: &BallOccurrences,
        grouped: &Vec<GroupPatterns>,
    ) -> (r: Vec<NormalizedRow>)
        requires
            records_wf(records@),
            occs.wf(),
            grouped@.len() == crate::domain::BLUE_BALL_COUNT,
            forall|gk: int, p: int, q: int|
                0 <= gk < grouped@.len() && 0 <= p < (#[trigger] grouped@[gk]).patterns@.len() && 0
                    <= q < (#[trigger] grouped@[gk].patterns@[p]).0@.len() ==> 1
                    <= #[trigger] grouped@[gk].patterns@[p].0@[q] <= RED_BALL_COUNT,
        ensures
            r@.len() == records@.len(),
            forall|k: int|
                0 <= k < r@.len() ==> row_matches(#[trigger] r@[k], records@[k], *occs, grouped@),
    {
        let mut rows: Vec<NormalizedRow> = Vec::new();
        let mut k: usize = 0;
        while k < records.len()
            invariant
                records_wf(records@),
                occs.wf(),
                grouped@.len() == crate::domain::BLUE_BALL_COUNT,
                forall|gk: int, p: int, q: int|
                    0 <= gk < grouped@.len() && 0 <= p < (#[trigger] grouped@[gk]).patterns@.len()
                        && 0 <= q < (#[trigger] grouped@[gk].patterns@[p]).0@.len() ==> 1
                        <= #[trigger] grouped@[gk].patterns@[p].0@[q] <= RED_BALL_COUNT,
                k <= records@.len(),
                rows@.len() == k,
                forall|t: int|
                    0 <= t < k ==> row_matches(#[trigger] rows@[t], records@[t], *occs, grouped@),
            decreases records@.len() - k,
        {
            let rec = &records[k];
            proof {
                assert(records@[k as int].wf());
            }
            let blue = rec.blue_ball;
            let detail = occs.get(Ball::Blue(blue));
            let average_occur_interval = detail.average_occur_interval();
            let expected_count = detail.occurrence_count_by_average_interval();
            let actual_count = detail.occurrence_count_by_official_data();
            let tops = Self::top_related_of_group(&grouped[(blue.value - 1) as usize]);
            let mut matched_count: usize = 0;
            let mut t: usize = 0;
            while t < tops.len()
                invariant
                    tops@.len() <= 6,
                    t <= tops@.len(),
                    matched_count == count_matched(tops@.take(t as int), records@[k as int]),
                    k < records@.len(),
                    *rec == records@[k as int],
                decreases tops@.len() - t,
            {
                proof {
                    assert(tops@.take(t + 1).drop_last() =~= tops@.take(t as int));
                    assert(tops@.take(t + 1).last() == tops@[t as int]);
                    lemma_count_matched_bounds(tops@.take(t as int), records@[k as int]);
                }
                if rec.has_red(tops[t].value) {
                    matched_count = matched_count + 1;
                }
                t = t + 1;
            }
            proof {
                assert(tops@.take(tops@.len() as int) =~= tops@);
            }
            let row = NormalizedRow {
                code: rec.code.clone(),
                date: rec.date,
                blue_ball: blue,
                red_balls: rec.red_balls,
                average_occur_interval,
                expected_count,
                actual_count,
                top_related_red_balls: tops,
                matched_count,
            };
            rows.push(row);
            k = k + 1;
        }
        rows
    }
}

} // verus!
