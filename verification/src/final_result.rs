//! The cross-domain synthesis stage: pairs the blue balls most likely to
//! follow the most recent draw with the red balls that the mining stage
//! relates to them.

use vstd::prelude::*;

use crate::domain::{BLUE_BALL_COUNT, BlueBall, PrBusinessObj, RED_BALL_COUNT, RedBall, records_wf};
use crate::error::Error;
use crate::mining::{FrequentPattern, GroupPatterns, chronological_blues};
use crate::processor::FinalProcessorChainResult;
use crate::sorting::{dedup_first, lemma_spec_dedup_properties, sort_asc_u8, spec_dedup};
use crate::summary::{rank_pairs_desc, ranked_desc, take_front, top_related_reds};

verus! {

/// Whether the value occurs in some pattern of the group.
pub open spec fn group_item(g: GroupPatterns, x: u8) -> bool {
    exists|p: int, q: int|
        0 <= p < g.patterns@.len() && 0 <= q < g.patterns@[p].0@.len() && g.patterns@[p].0@[q] == x
}


/// What the final recommendations promise: at most the requested number of
/// picks, no blue ball twice, every pick well-formed with ascending red
/// balls, every blue ball an actual successor of the most recent draw's blue
/// ball by the successor counts, and every red ball an item of the mined
/// pattern group of its blue ball.
pub open spec fn final_picks_ok(
    picks: Seq<FinalProcessorChainResult>,
    records: Seq<PrBusinessObj>,
    following: Seq<Vec<usize>>,
    grouped: Seq<GroupPatterns>,
    final_result_size: usize,
) -> bool {
    &&& picks.len() <= final_result_size
    &&& forall|p: int|
        0 <= p < picks.len() ==> (#[trigger] picks[p]).blue_ball.value
            == spec_selected_successors(
            following[chronological_blues(records).last() - 1]@,
        )[p]
    &&& forall|a: int, b: int|
        0 <= a < b < picks.len() ==> (#[trigger] picks[a]).blue_ball != (
        #[trigger] picks[b]).blue_ball
    &&& forall|p: int|
        0 <= p < picks.len() ==> {
            &&& (#[trigger] picks[p]).wf()
            &&& following[chronological_blues(records).last() - 1]@[picks[p].blue_ball.value - 1]
                > 0
            &&& forall|a: int, b: int|
                0 <= a < b < 6 ==> picks[p].red_balls[a].value < picks[p].red_balls[b].value
            &&& forall|a: int|
                0 <= a < 6 ==> (#[trigger] picks[p].red_balls[a]).value == take_front(
                    sorted_values(spec_group_reds(grouped[picks[p].blue_ball.value - 1])),
                    6,
                )[a]
        }
}


/// The summed support of the patterns.
pub open spec fn supports_sum(ps: Seq<FrequentPattern>) -> int
    decreases ps.len(),
{
    if ps.len() == 0 {
        0
    } else {
        supports_sum(ps.drop_last()) + ps.last().1
    }
}

/// The group's average support: the summed support divided by the pattern
/// count.
pub open spec fn spec_group_average(ps: Seq<FrequentPattern>) -> int
    recommends
        ps.len() > 0,
{
    supports_sum(ps) / (ps.len() as int)
}

/// The (index, support) pairs of the patterns whose support exceeds the
/// given bound, in pattern order.
pub open spec fn eligible_pairs(ps: Seq<FrequentPattern>, bound: int) -> Seq<(usize, usize)>
    decreases ps.len(),
{
    if ps.len() == 0 {
        Seq::empty()
    } else {
        let rest = eligible_pairs(ps.drop_last(), bound);
        if ps.last().1 > bound {
            rest.push((((ps.len() - 1) as usize), ps.last().1))
        } else {
            rest
        }
    }
}

/// The items of the picked patterns, pattern by pattern in pick order.
pub open spec fn harvested_items(ps: Seq<FrequentPattern>, picks: Seq<(usize, usize)>) -> Seq<u8>
    decreases picks.len(),
{
    if picks.len() == 0 {
        Seq::empty()
    } else {
        harvested_items(ps, picks.drop_last()) + (if picks.last().0 < ps.len() {
            ps[picks.last().0 as int].0@
        } else {
            Seq::empty()
        })
    }
}

/// The values in ascending order.
pub open spec fn sorted_values(s: Seq<u8>) -> Seq<u8> {
    s.sort_by(|x: u8, y: u8| x <= y)
}

/// The distinct red-ball values a group contributes: the items of its top
/// six above-average-support patterns (support descending, ties by pattern
/// position), each value kept once, in first-seen order.
pub open spec fn spec_group_reds(g: GroupPatterns) -> Seq<u8> {
    spec_dedup(
        harvested_items(
            g.patterns@,
            take_front(
                ranked_desc(eligible_pairs(g.patterns@, spec_group_average(g.patterns@))),
                6,
            ),
        ),
    )
}

/// The balls of a ranked candidate list that the successor counters actually
/// saw, in ranked order.
pub open spec fn keep_hit(balls: Seq<u8>, row: Seq<usize>) -> Seq<u8>
    decreases balls.len(),
{
    if balls.len() == 0 {
        Seq::empty()
    } else {
        let rest = keep_hit(balls.drop_last(), row);
        if 0 < balls.last() <= row.len() && row[balls.last() - 1] > 0 {
            rest.push(balls.last())
        } else {
            rest
        }
    }
}

/// The blue balls the final stage selects, in order: the successor counters
/// of the most recent draw's blue ball, ranked by count descending (ties by
/// ball ascending), kept where the count is positive, each ball once.
pub open spec fn spec_selected_successors(row: Seq<usize>) -> Seq<u8> {
    crate::sorting::spec_dedup(
        keep_hit(crate::summary::spec_top_related(row, BLUE_BALL_COUNT as usize), row),
    )
}

/// The final-recommendation stage.
pub struct FinalResultsProcessor {
    pub final_result_size: usize,
}

impl FinalResultsProcessor {
    pub fn new(final_result_size: usize) -> (r: Self)
        ensures
            r.final_result_size == final_result_size,
    {
        FinalResultsProcessor { final_result_size }
    }

    /// The six smallest distinct items of the best patterns of one group: the
    /// patterns whose support exceeds the group's average support, ranked by
    /// support descending, contribute their items.
    ///
    /// Fails when the group has no pattern at all, or fewer than six distinct
    /// items survive.
    fn reds_of_group(g: &GroupPatterns) -> (r: Result<Vec<u8>, Error>)
        requires
            forall|p: int, q: int|
                0 <= p < g.patterns@.len() && 0 <= q < (#[trigger] g.patterns@[p]).0@.len() ==> 1
                    <= #[trigger] g.patterns@[p].0@[q] <= RED_BALL_COUNT,
        ensures
            r is Ok <==> g.patterns@.len() > 0 && spec_group_reds(*g).len() >= 6,
            r matches Ok(reds) ==> {
                &&& reds@.len() == 6
                &&& reds@.no_duplicates()
                &&& reds@ == take_front(sorted_values(spec_group_reds(*g)), 6)
                &&& forall|a: int, b: int| 0 <= a < b < 6 ==> reds@[a] < reds@[b]
                &&& forall|a: int| 0 <= a < 6 ==> group_item(*g, #[trigger] reds@[a])
            },
            r matches Err(e) ==> e is OtherFailure,
    {
        let n = g.patterns.len();
        if n == 0 {
            return Err(Error::OtherFailure("no frequent pattern for this ball".to_owned()));
        }
        let mut sum: u128 = 0;
        let mut i: usize = 0;
        while i < n
            invariant
                n == g.patterns@.len(),
                i <= n,
                sum <= (i as int) * (usize::MAX as int),
                sum as int == supports_sum(g.patterns@.take(i as int)),
            decreases n - i,
        {
            proof {
                assert(g.patterns@.take(i + 1).drop_last() =~= g.patterns@.take(i as int));
                assert(g.patterns@.take(i + 1).last() == g.patterns@[i as int]);
                assert((i as int) * (usize::MAX as int) + (usize::MAX as int) == ((i + 1) as int)
                    * (usize::MAX as int)) by (nonlinear_arith);
                assert(((i + 1) as int) * (usize::MAX as int) <= (n as int) * (usize::MAX as int))
                    by (nonlinear_arith)
                    requires
                        0 <= i < n,
                ;
                assert((n as int) * (usize::MAX as int) < u128::MAX) by (nonlinear_arith)
                    requires
                        0 < n <= usize::MAX,
                ;
            }
            sum = sum + (g.patterns[i].1 as u128);
            i = i + 1;
        }
        proof {
            assert(g.patterns@.take(n as int) =~= g.patterns@);
        }
        let avg = sum / (n as u128);
        proof {
            assert(avg as int == spec_group_average(g.patterns@));
        }
        let mut eligible: Vec<(usize, usize)> = Vec::new();
        let mut p: usize = 0;
        while p < n
            invariant
                n == g.patterns@.len(),
                p <= n,
                avg as int == spec_group_average(g.patterns@),
                eligible@ == eligible_pairs(g.patterns@.take(p as int), avg as int),
                forall|k: int| 0 <= k < eligible@.len() ==> (#[trigger] eligible@[k]).0 < n,
            decreases n - p,
        {
            proof {
                assert(g.patterns@.take(p + 1).drop_last() =~= g.patterns@.take(p as int));
                assert(g.patterns@.take(p + 1).last() == g.patterns@[p as int]);
            }
            if (g.patterns[p].1 as u128) > avg {
                eligible.push((p, g.patterns[p].1));
            }
            p = p + 1;
        }
        proof {
            assert(g.patterns@.take(n as int) =~= g.patterns@);
            assert(eligible@ == eligible_pairs(g.patterns@, spec_group_average(g.patterns@)));
        }
        proof {
            broadcast use vstd::seq_lib::group_to_multiset_ensures;
        }
        let ghost eligible0 = eligible@;
        rank_pairs_desc(&mut eligible);
        proof {
            assert forall|k: int| 0 <= k < eligible@.len() implies (#[trigger] eligible@[k]).0
                < n by {
                assert(eligible@.contains(eligible@[k]));
                assert(eligible@.to_multiset().count(eligible@[k]) > 0);
                assert(eligible0.contains(eligible@[k]));
                let w = choose|w: int| 0 <= w < eligible0.len() && eligible0[w] == eligible@[k];
            }
        }
        let mut items: Vec<u8> = Vec::new();
        let mut e: usize = 0;
        while e < eligible.len() && e < 6
            invariant
                n == g.patterns@.len(),
                forall|p2: int, q2: int|
                    0 <= p2 < g.patterns@.len() && 0 <= q2 < (#[trigger] g.patterns@[p2]).0@.len()
                        ==> 1 <= #[trigger] g.patterns@[p2].0@[q2] <= RED_BALL_COUNT,
                forall|k: int| 0 <= k < eligible@.len() ==> (#[trigger] eligible@[k]).0 < n,
                e <= eligible@.len(),
                e <= 6,
                items@ == harvested_items(g.patterns@, eligible@.take(e as int)),
                forall|k: int|
                    0 <= k < items@.len() ==> group_item(*g, #[trigger] items@[k]) && 1
                        <= items@[k] <= RED_BALL_COUNT,
            decreases eligible@.len() - e,
        {
            let ghost items0 = items@;
            let idx = eligible[e].0;
            let pat = &g.patterns[idx];
            let mut q: usize = 0;
            while q < pat.0.len()
                invariant
                    n == g.patterns@.len(),
                    idx < n,
                    pat == &g.patterns@[idx as int],
                    forall|p2: int, q2: int|
                        0 <= p2 < g.patterns@.len() && 0 <= q2 < (
                        #[trigger] g.patterns@[p2]).0@.len() ==> 1 <= #[trigger] g.patterns@[p2].0@[q2]
                            <= RED_BALL_COUNT,
                    q <= pat.0@.len(),
                    items@ == items0 + g.patterns@[idx as int].0@.take(q as int),
                    forall|k: int|
                        0 <= k < items@.len() ==> group_item(*g, #[trigger] items@[k]) && 1
                            <= items@[k] <= RED_BALL_COUNT,
                decreases pat.0@.len() - q,
            {
                items.push(pat.0[q]);
                proof {
                    assert(group_item(*g, g.patterns@[idx as int].0@[q as int]));
                    assert(items@ =~= items0 + g.patterns@[idx as int].0@.take(q + 1));
                }
                q = q + 1;
            }
            proof {
                assert(g.patterns@[idx as int].0@.take(pat.0@.len() as int) =~= g.patterns@[idx as int].0@);
                assert(eligible@.take(e + 1).drop_last() =~= eligible@.take(e as int));
                assert(eligible@.take(e + 1).last() == eligible@[e as int]);
                assert(items@ == harvested_items(g.patterns@, eligible@.take(e + 1)));
            }
            e = e + 1;
        }
        proof {
            if eligible@.len() <= 6 {
                assert(e == eligible@.len());
                assert(eligible@.take(e as int) =~= eligible@);
            } else {
                assert(e == 6);
            }
            assert(eligible@.take(e as int) == take_front(eligible@, 6));
            assert(items@ == harvested_items(
                g.patterns@,
                take_front(
                    ranked_desc(eligible_pairs(g.patterns@, spec_group_average(g.patterns@))),
                    6,
                ),
            ));
        }
        let mut reds = dedup_first(&items);
        proof {
            lemma_spec_dedup_properties(items@);
        }
        if reds.len() < 6 {
            return Err(
                Error::OtherFailure("fewer than six distinct related red balls".to_owned()),
            );
        }
        let ghost deduped = reds@;
        sort_asc_u8(&mut reds);
        proof {
            broadcast use vstd::seq_lib::group_to_multiset_ensures;

            deduped.lemma_multiset_has_no_duplicates();
            reds@.lemma_multiset_has_no_duplicates_conv();
            let leq = |x: u8, y: u8| x <= y;
            assert(vstd::relations::total_ordering(leq));
            deduped.lemma_sort_by_ensures(leq);
            assert forall|a: int, b: int| 0 <= a < b < reds@.len() implies leq(
                reds@[a],
                reds@[b],
            ) by {
                assert(crate::sorting::sorted_asc_u8_at(reds@[a], reds@[b]));
            }
            assert(vstd::relations::sorted_by(reds@, leq));
            vstd::seq_lib::lemma_sorted_unique(reds@, deduped.sort_by(leq), leq);
            assert(reds@ =~= sorted_values(deduped));
            assert(reds@ == sorted_values(spec_group_reds(*g)));
            assert forall|k: int|
                0 <= k < reds@.len() implies group_item(*g, #[trigger] reds@[k]) && 1 <= reds@[k]
                <= RED_BALL_COUNT by {
                assert(reds@.contains(reds@[k]));
                assert(reds@.to_multiset().count(reds@[k]) > 0);
                assert(deduped.contains(reds@[k]));
                assert(items@.contains(reds@[k]));
                let w = choose|w: int| 0 <= w < items@.len() && items@[w] == reds@[k];
            }
        }
        let ghost sorted_all = reds@;
        reds.truncate(6);
        proof {
            assert(reds@ == sorted_all.subrange(0, 6));
            assert(reds@ =~= sorted_all.take(6));
            assert(reds@ == take_front(sorted_values(spec_group_reds(*g)), 6));
            assert(reds@.no_duplicates()) by {
                assert(forall|a: int, b: int|
                    0 <= a < b < reds@.len() ==> reds@[a] == sorted_all[a] && reds@[b]
                        == sorted_all[b]);
            }
            assert forall|a: int, b: int| 0 <= a < b < 6 implies reds@[a] < reds@[b] by {
                assert(crate::sorting::sorted_asc_u8_at(sorted_all[a], sorted_all[b]));
            }
        }
        Ok(reds)
    }

    /// Builds the final recommendations: the blue balls that most often
    /// followed the most recent draw's blue ball, each paired with six red
    /// balls taken from the frequent patterns mined for it.
    ///
    /// Every returned pick is well-formed, its red balls ascend, its blue
    /// ball actually followed the most recent blue ball at least once by the
    /// given successor counts, and its red balls occur in the given pattern
    /// group of that blue ball. At most `final_result_size` picks are
    /// returned, each blue ball at most once. An empty history is rejected.
    pub fn synthesize(
        &self,
        records: &Vec<PrBusinessObj>,
        following: &Vec<Vec<usize>>,
        grouped: &Vec<GroupPatterns>,
    ) -> (r: Result<Vec<FinalProcessorChainResult>, Error>)
        requires
            records_wf(records@),
            following@.len() == BLUE_BALL_COUNT,
            forall|c: int| 0 <= c < following@.len() ==> (#[trigger] following@[c])@.len()
                == BLUE_BALL_COUNT,
            grouped@.len() == BLUE_BALL_COUNT,
            forall|gk: int, p: int, q: int|
                0 <= gk < grouped@.len() && 0 <= p < (#[trigger] grouped@[gk]).patterns@.len() && 0
                    <= q < (#[trigger] grouped@[gk].patterns@[p]).0@.len() ==> 1
                    <= #[trigger] grouped@[gk].patterns@[p].0@[q] <= RED_BALL_COUNT,
        ensures
            r matches Ok(picks) ==> records@.len() > 0 && final_picks_ok(
                picks@,
                records@,
                following@,
                grouped@,
                self.final_result_size,
            ),
            r matches Err(e) ==> e is OtherFailure,
            records@.len() == 0 ==> r is Err,
            ({
                &&& records@.len() > 0
                &&& forall|b: int|
                    0 <= b < BLUE_BALL_COUNT && #[trigger] following@[chronological_blues(
                        records@,
                    ).last() - 1]@[b] > 0 ==> grouped@[b].patterns@.len() > 0 && spec_group_reds(
                        grouped@[b],
                    ).len() >= 6
            }) ==> r is Ok,
    {
        let blues = crate::mining::collect_chronological_blues(records);
        if blues.len() == 0 {
            return Err(Error::OtherFailure("an empty history names no latest blue ball".to_owned()));
        }
        let last_blue = blues[blues.len() - 1];
        proof {
            assert(blues@[blues@.len() - 1] == chronological_blues(records@).last());
        }
        let row = &following[(last_blue - 1) as usize];
        let candidates = top_related_reds(row, BLUE_BALL_COUNT as usize);
        let mut selected: Vec<u8> = Vec::new();
        let mut k: usize = 0;
        while k < candidates.len()
            invariant
                row@.len() == BLUE_BALL_COUNT,
                candidates@ == crate::summary::spec_top_related(row@, BLUE_BALL_COUNT as usize),
                forall|t: int| 0 <= t < candidates@.len() ==> 1 <= #[trigger] candidates@[t]
                    <= BLUE_BALL_COUNT,
                k <= candidates@.len(),
                selected@ == keep_hit(candidates@.take(k as int), row@),
                selected@.len() <= k,
                forall|t: int|
                    0 <= t < selected@.len() ==> 1 <= #[trigger] selected@[t] <= BLUE_BALL_COUNT
                        && row@[selected@[t] - 1] > 0,
            decreases candidates@.len() - k,
        {
            proof {
                assert(candidates@.take(k + 1).drop_last() =~= candidates@.take(k as int));
                assert(candidates@.take(k + 1).last() == candidates@[k as int]);
            }
            let ball = candidates[k];
            if row[(ball - 1) as usize] > 0 {
                selected.push(ball);
            }
            k = k + 1;
        }
        proof {
            assert(candidates@.take(candidates@.len() as int) =~= candidates@);
            assert(selected@ == keep_hit(
                crate::summary::spec_top_related(row@, BLUE_BALL_COUNT as usize),
                row@,
            ));
        }
        let distinct = dedup_first(&selected);
        proof {
            assert(distinct@ == spec_selected_successors(row@));
            lemma_spec_dedup_properties(selected@);
            assert forall|t: int|
                0 <= t < distinct@.len() implies 1 <= #[trigger] distinct@[t] <= BLUE_BALL_COUNT
                && row@[distinct@[t] - 1] > 0 by {
                assert(distinct@.contains(distinct@[t]));
                assert(selected@.contains(distinct@[t]));
                let w = choose|w: int| 0 <= w < selected@.len() && selected@[w] == distinct@[t];
            }
        }
        let mut picks: Vec<FinalProcessorChainResult> = Vec::new();
        let mut s: usize = 0;
        while s < distinct.len() && picks.len() < self.final_result_size
            invariant
                records_wf(records@),
                grouped@.len() == BLUE_BALL_COUNT,
                forall|gk: int, p: int, q: int|
                    0 <= gk < grouped@.len() && 0 <= p < (#[trigger] grouped@[gk]).patterns@.len()
                        && 0 <= q < (#[trigger] grouped@[gk].patterns@[p]).0@.len() ==> 1
                        <= #[trigger] grouped@[gk].patterns@[p].0@[q] <= RED_BALL_COUNT,
                row == &following@[chronological_blues(records@).last() - 1],
                row@.len() == BLUE_BALL_COUNT,
                distinct@.no_duplicates(),
                forall|t: int|
                    0 <= t < distinct@.len() ==> 1 <= #[trigger] distinct@[t] <= BLUE_BALL_COUNT
                        && row@[distinct@[t] - 1] > 0,
                s <= distinct@.len(),
                picks@.len() <= s,
                picks@.len() <= self.final_result_size,
                forall|p: int|
                    0 <= p < picks@.len() ==> {
                        &&& (#[trigger] picks@[p]).wf()
                        &&& row@[picks@[p].blue_ball.value - 1] > 0
                        &&& forall|a: int, b: int|
                            0 <= a < b < 6 ==> picks@[p].red_balls[a].value
                                < picks@[p].red_balls[b].value
                        &&& forall|a: int|
                            0 <= a < 6 ==> (#[trigger] picks@[p].red_balls[a]).value == take_front(
                                sorted_values(
                                    spec_group_reds(grouped@[picks@[p].blue_ball.value - 1]),
                                ),
                                6,
                            )[a]
                    },
                forall|a: int, b: int|
                    0 <= a < b < picks@.len() ==> (#[trigger] picks@[a]).blue_ball != (
                    #[trigger] picks@[b]).blue_ball,
                picks@.len() == s,
                distinct@ == spec_selected_successors(row@),
                forall|p: int|
                    0 <= p < picks@.len() ==> (#[trigger] picks@[p]).blue_ball.value
                        == distinct@[p],
                forall|p: int|
                    0 <= p < picks@.len() ==> exists|t: int|
                        0 <= t < s && distinct@[t] == (#[trigger] picks@[p]).blue_ball.value,
            decreases distinct@.len() - s,
        {
            let blue = distinct[s];
            let reds = match Self::reds_of_group(&grouped[(blue - 1) as usize]) {
                Ok(reds) => reds,
                Err(e) => {
                    proof {
                        if records@.len() > 0 && (forall|b: int|
                            0 <= b < BLUE_BALL_COUNT && #[trigger] following@[chronological_blues(
                                records@,
                            ).last() - 1]@[b] > 0 ==> grouped@[b].patterns@.len() > 0
                                && spec_group_reds(grouped@[b]).len() >= 6) {
                            assert(following@[chronological_blues(records@).last() - 1]@[blue - 1]
                                > 0);
                            assert(grouped@[blue - 1].patterns@.len() > 0 && spec_group_reds(
                                grouped@[blue - 1],
                            ).len() >= 6);
                            assert(false);
                        }
                    }
                    return Err(e);
                },
            };
            let pick = FinalProcessorChainResult::new(
                BlueBall { value: blue },
                [
                    RedBall { value: reds[0] },
                    RedBall { value: reds[1] },
                    RedBall { value: reds[2] },
                    RedBall { value: reds[3] },
                    RedBall { value: reds[4] },
                    RedBall { value: reds[5] },
                ],
            );
            proof {
                assert(pick.wf()) by {
                    assert(forall|a: int, b: int|
                        0 <= a < b < 6 ==> reds@[a] < reds@[b] && pick.red_balls[a].value
                            == reds@[a] && pick.red_balls[b].value == reds@[b]);
                }
                assert forall|p: int|
                    0 <= p < picks@.len() implies (#[trigger] picks@[p]).blue_ball
                    != pick.blue_ball by {
                    let t = choose|t: int|
                        0 <= t < s && distinct@[t] == (#[trigger] picks@[p]).blue_ball.value;
                    assert(distinct@[t] != distinct@[s as int]);
                }
            }
            picks.push(pick);
            proof {
                assert forall|p: int|
                    0 <= p < picks@.len() implies exists|t: int|
                        0 <= t < s + 1 && distinct@[t] == (#[trigger] picks@[p]).blue_ball.value by {
                    if p < picks@.len() - 1 {
                        let t = choose|t: int|
                            0 <= t < s && distinct@[t] == picks@[p].blue_ball.value;
                        assert(0 <= t < s + 1 && distinct@[t] == picks@[p].blue_ball.value);
                    } else {
                        assert(distinct@[s as int] == picks@[p].blue_ball.value);
                    }
                }
            }
            s = s + 1;
        }
        Ok(picks)
    }
}

} // verus!
