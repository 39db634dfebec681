//! Ranking stages built on the relationship counters: picks derived from the
//! most promising blue balls' strongest red-ball companions.

use vstd::prelude::*;

use crate::context_obj::BallOccurInfo;
use crate::domain::{BLUE_BALL_COUNT, RED_BALL_COUNT};
use crate::error::Error;
use crate::processor::{FinalProcessorChainResult, make_pick};
use crate::relationship::BlueBallRelationship;
use crate::sorting::{dedup_first, sort_asc_u8, sorted_asc_u8_at};
use crate::summary::{concat_u8s, final_selection, rank_keys_desc, rank_pairs_desc, top_related_reds};

verus! {

/// Whether a pick holds six ascending red balls.
pub open spec fn pick_sorted(p: FinalProcessorChainResult) -> bool {
    forall|a: int, b: int| 0 <= a < b < 6 ==> p.red_balls[a].value < p.red_balls[b].value
}

/// The relationship-based synthesis stage: selects promising blue balls from
/// the extended occurrence records and pairs each with red balls drawn from
/// its relationship counters and the red-domain ranking.
pub struct RelationshipBasedProcessor;

impl RelationshipBasedProcessor {
    /// Builds up to five picks; it always succeeds. The blue balls come from
    /// the top of the given (pre-ranked) blue records by expected next
    /// occurrence index and by occurrence count; each is paired with six red
    /// balls drawn at random from its top related red balls and the leading
    /// red records. Records naming out-of-domain balls are passed over.
    pub fn analyze(
        blue_infos: &Vec<BallOccurInfo>,
        red_infos: &Vec<BallOccurInfo>,
        blue_rels: &Vec<BlueBallRelationship>,
    ) -> (r: Result<Vec<FinalProcessorChainResult>, Error>)
        requires
            blue_rels@.len() == BLUE_BALL_COUNT,
            forall|i: int| 0 <= i < blue_rels@.len() ==> (#[trigger] blue_rels@[i]).wf(),
        ensures
            r is Ok,
            r matches Ok(picks) ==> {
                &&& picks@.len() <= 5
                &&& forall|p: int|
                    0 <= p < picks@.len() ==> (#[trigger] picks@[p]).wf() && pick_sorted(
                        picks@[p],
                    )
            },
    {
        let mut by_next: Vec<(usize, i64)> = Vec::new();
        let mut by_count: Vec<(usize, usize)> = Vec::new();
        let mut i: usize = 0;
        while i < blue_infos.len()
            invariant
                i <= blue_infos@.len(),
                by_next@.len() == i,
                by_count@.len() == i,
                forall|k: int| 0 <= k < i ==> (#[trigger] by_next@[k]).0 == k,
                forall|k: int| 0 <= k < i ==> (#[trigger] by_count@[k]).0 == k,
            decreases blue_infos@.len() - i,
        {
            by_next.push((i, blue_infos[i].possible_next_occur_index()));
            by_count.push((i, blue_infos[i].occur_count()));
            i = i + 1;
        }
        rank_keys_desc(&mut by_next);
        rank_pairs_desc(&mut by_count);
        let mut pool: Vec<u8> = Vec::new();
        let mut a: usize = 0;
        while a < by_next.len() && a < 5
            invariant
                a <= by_next@.len(),
                forall|k: int| 0 <= k < pool@.len() ==> 1 <= #[trigger] pool@[k]
                    <= BLUE_BALL_COUNT,
            decreases by_next@.len() - a,
        {
            let idx = by_next[a].0;
            if idx < blue_infos.len() {
                let ball = blue_infos[idx].ball();
                if 1 <= ball && ball <= BLUE_BALL_COUNT as usize {
                    pool.push(ball as u8);
                }
            }
            a = a + 1;
        }
        let mut b: usize = 0;
        while b < by_count.len() && b < 5
            invariant
                b <= by_count@.len(),
                forall|k: int| 0 <= k < pool@.len() ==> 1 <= #[trigger] pool@[k]
                    <= BLUE_BALL_COUNT,
            decreases by_count@.len() - b,
        {
            let idx = by_count[b].0;
            if idx < blue_infos.len() {
                let ball = blue_infos[idx].ball();
                if 1 <= ball && ball <= BLUE_BALL_COUNT as usize {
                    pool.push(ball as u8);
                }
            }
            b = b + 1;
        }
        let distinct = dedup_first(&pool);
        proof {
            crate::sorting::lemma_spec_dedup_properties(pool@);
            assert forall|k: int| 0 <= k < distinct@.len() implies 1 <= #[trigger] distinct@[k]
                <= BLUE_BALL_COUNT by {
                assert(distinct@.contains(distinct@[k]));
                assert(pool@.contains(distinct@[k]));
                let w = choose|w: int| 0 <= w < pool@.len() && pool@[w] == distinct@[k];
            }
        }
        let ghost distinct_view = distinct@;
        let selected = final_selection(distinct, 5);
        proof {
            assert forall|k: int| 0 <= k < selected@.len() implies 1 <= #[trigger] selected@[k]
                <= BLUE_BALL_COUNT by {
                assert(distinct_view.contains(selected@[k]));
                let w = choose|w: int|
                    0 <= w < distinct_view.len() && distinct_view[w] == selected@[k];
            }
        }
        let mut leading_reds: Vec<u8> = Vec::new();
        let mut c: usize = 0;
        while c < red_infos.len() && c < 6
            invariant
                c <= red_infos@.len(),
                forall|k: int| 0 <= k < leading_reds@.len() ==> 1 <= #[trigger] leading_reds@[k]
                    <= RED_BALL_COUNT,
            decreases red_infos@.len() - c,
        {
            let ball = red_infos[c].ball();
            if 1 <= ball && ball <= RED_BALL_COUNT as usize {
                leading_reds.push(ball as u8);
            }
            c = c + 1;
        }
        let mut picks: Vec<FinalProcessorChainResult> = Vec::new();
        let mut s: usize = 0;
        while s < selected.len()
            invariant
                blue_rels@.len() == BLUE_BALL_COUNT,
                forall|i2: int| 0 <= i2 < blue_rels@.len() ==> (#[trigger] blue_rels@[i2]).wf(),
                forall|k: int| 0 <= k < selected@.len() ==> 1 <= #[trigger] selected@[k]
                    <= BLUE_BALL_COUNT,
                forall|k: int| 0 <= k < leading_reds@.len() ==> 1 <= #[trigger] leading_reds@[k]
                    <= RED_BALL_COUNT,
                selected@.len() <= 5,
                s <= selected@.len(),
                picks@.len() == s,
                forall|p: int|
                    0 <= p < s ==> (#[trigger] picks@[p]).wf() && pick_sorted(picks@[p]),
            decreases selected@.len() - s,
        {
            let blue = selected[s];
            let related = top_related_reds(
                &blue_rels[(blue - 1) as usize].related_red_ball_counts,
                6,
            );
            proof {
                assert(blue_rels@[blue - 1].wf());
            }
            let merged = concat_u8s(&related, &leading_reds);
            let red_pool = dedup_first(&merged);
            proof {
                crate::sorting::lemma_spec_dedup_properties(merged@);
                assert(red_pool@.len() >= 6) by {
                    assert forall|k: int|
                        0 <= k < related@.len() implies red_pool@.contains(
                        #[trigger] related@[k],
                    ) by {
                        assert(merged@[k] == related@[k]);
                        assert(merged@.contains(merged@[k]));
                    }
                    crate::sorting::lemma_distinct_coverage(red_pool@, related@);
                }
            }
            let ghost red_pool_view = red_pool@;
            let reds = final_selection(red_pool, 6);
            proof {
                assert forall|k: int| 0 <= k < reds@.len() implies 1 <= #[trigger] reds@[k]
                    <= RED_BALL_COUNT by {
                    assert(red_pool_view.contains(reds@[k]));
                    assert(merged@.contains(reds@[k]));
                    let w = choose|w: int| 0 <= w < merged@.len() && merged@[w] == reds@[k];
                    if w < related@.len() {
                        assert(merged@[w] == related@[w]);
                    } else {
                        assert(merged@[w] == leading_reds@[w - related@.len()]);
                    }
                }
                assert forall|a2: int, b2: int|
                    0 <= a2 < b2 < reds@.len() implies reds@[a2] != reds@[b2] by {
                    assert(sorted_asc_u8_at(reds@[a2], reds@[b2]));
                }
            }
            let pick = FinalProcessorChainResult::new(
                crate::domain::BlueBall { value: blue },
                [
                    crate::domain::RedBall { value: reds[0] },
                    crate::domain::RedBall { value: reds[1] },
                    crate::domain::RedBall { value: reds[2] },
                    crate::domain::RedBall { value: reds[3] },
                    crate::domain::RedBall { value: reds[4] },
                    crate::domain::RedBall { value: reds[5] },
                ],
            );
            proof {
                assert(pick.wf()) by {
                    assert(forall|a2: int|
                        0 <= a2 < 6 ==> (#[trigger] pick.red_balls[a2]).value == reds@[a2]);
                }
                lemma_sorted_pick(pick, reds@);
            }
            picks.push(pick);
            s = s + 1;
        }
        Ok(picks)
    }
}

/// Picks built from the hottest and the coldest blue ball's strongest red
/// companions.
pub struct SummaryTopBlueBallRelationshipProcessor;

impl SummaryTopBlueBallRelationshipProcessor {
    /// Builds four picks out of the ranked per-blue-ball counts: the hottest
    /// and the coldest blue ball, each with its own and with the other's top
    /// six related red balls. The ranked count list and the relationship
    /// entries are validated, not trusted.
    pub fn analyze(
        sorted_blue_counts: &Vec<(u8, usize)>,
        blue_rels: &Vec<BlueBallRelationship>,
    ) -> (r: Result<Vec<FinalProcessorChainResult>, Error>)
        requires
            blue_rels@.len() == BLUE_BALL_COUNT,
            forall|i: int| 0 <= i < blue_rels@.len() ==> (#[trigger] blue_rels@[i]).wf(),
        ensures
            r matches Ok(picks) ==> {
                &&& picks@.len() == 4
                &&& forall|p: int|
                    0 <= p < picks@.len() ==> (#[trigger] picks@[p]).wf() && pick_sorted(
                        picks@[p],
                    )
            },
            sorted_blue_counts@.len() == 0 ==> r is Err,
            ({
                &&& sorted_blue_counts@.len() > 0
                &&& 1 <= sorted_blue_counts@[0].0 <= BLUE_BALL_COUNT
                &&& 1 <= sorted_blue_counts@[sorted_blue_counts@.len() - 1].0 <= BLUE_BALL_COUNT
            }) ==> r is Ok,
    {
        if sorted_blue_counts.len() == 0 {
            return Err(Error::OtherFailure("no ranked blue-ball counts".to_owned()));
        }
        let top_blue = sorted_blue_counts[0].0;
        let bottom_blue = sorted_blue_counts[sorted_blue_counts.len() - 1].0;
        if !(1 <= top_blue && top_blue <= BLUE_BALL_COUNT && 1 <= bottom_blue && bottom_blue
            <= BLUE_BALL_COUNT) {
            return Err(Error::OtherFailure("a ranked count names no blue ball".to_owned()));
        }
        let top_reds = Self::related_six(blue_rels, top_blue);
        let bottom_reds = Self::related_six(blue_rels, bottom_blue);
        let p1 = make_pick(top_blue, &top_reds)?;
        let p2 = make_pick(bottom_blue, &bottom_reds)?;
        let p3 = make_pick(top_blue, &bottom_reds)?;
        let p4 = make_pick(bottom_blue, &top_reds)?;
        proof {
            lemma_sorted_pick(p1, top_reds@);
            lemma_sorted_pick(p2, bottom_reds@);
            lemma_sorted_pick(p3, bottom_reds@);
            lemma_sorted_pick(p4, top_reds@);
        }
        let mut picks: Vec<FinalProcessorChainResult> = Vec::new();
        picks.push(p1);
        picks.push(p2);
        picks.push(p3);
        picks.push(p4);
        Ok(picks)
    }

    /// The six strongest related red balls of one blue ball, ascending.
    fn related_six(blue_rels: &Vec<BlueBallRelationship>, blue: u8) -> (reds: Vec<u8>)
        requires
            blue_rels@.len() == BLUE_BALL_COUNT,
            forall|i: int| 0 <= i < blue_rels@.len() ==> (#[trigger] blue_rels@[i]).wf(),
            1 <= blue <= BLUE_BALL_COUNT,
        ensures
            reds@.len() == 6,
            crate::sorting::sorted_asc_u8(reds@),
            reds@.no_duplicates(),
            forall|k: int| 0 <= k < 6 ==> 1 <= #[trigger] reds@[k] <= RED_BALL_COUNT,
    {
        proof {
            assert(blue_rels@[blue - 1].wf());
        }
        let related = top_related_reds(&blue_rels[(blue - 1) as usize].related_red_ball_counts, 6);
        let mut reds = crate::summary::copy_u8s(&related);
        let ghost before = reds@;
        sort_asc_u8(&mut reds);
        proof {
            broadcast use vstd::seq_lib::group_to_multiset_ensures;

            before.lemma_multiset_has_no_duplicates();
            reds@.lemma_multiset_has_no_duplicates_conv();
            assert forall|k: int| 0 <= k < reds@.len() implies 1 <= #[trigger] reds@[k]
                <= RED_BALL_COUNT by {
                assert(reds@.contains(reds@[k]));
                assert(reds@.to_multiset().count(reds@[k]) > 0);
                assert(related@.contains(reds@[k]));
                let w = choose|w: int| 0 <= w < related@.len() && related@[w] == reds@[k];
            }
        }
        reds
    }
}


proof fn lemma_sorted_pick(p: FinalProcessorChainResult, reds: Seq<u8>)
    requires
        reds.len() == 6,
        crate::sorting::sorted_asc_u8(reds),
        p.wf(),
        forall|a: int| 0 <= a < 6 ==> (#[trigger] p.red_balls[a]).value == reds[a],
    ensures
        pick_sorted(p),
{
    assert forall|a: int, b: int|
        0 <= a < b < 6 implies p.red_balls[a].value < p.red_balls[b].value by {
        assert(sorted_asc_u8_at(reds[a], reds[b]));
        assert(p.red_balls[a] != p.red_balls[b]);
    }
}

/// Picks built from the hottest and the coldest blue ball beside the hottest
/// and the coldest six red balls.
pub struct SummaryTopRedBallRelationshipProcessor;

impl SummaryTopRedBallRelationshipProcessor {
    /// Builds four picks: the hottest and the coldest blue ball, each beside
    /// the six hottest and the six coldest red balls of the ranked red-count
    /// list. The ranked lists are validated, not trusted.
    pub fn analyze(
        sorted_blue_counts: &Vec<(u8, usize)>,
        sorted_red_counts: &Vec<(u8, usize)>,
    ) -> (r: Result<Vec<FinalProcessorChainResult>, Error>)
        ensures
            r matches Ok(picks) ==> {
                &&& picks@.len() == 4
                &&& forall|p: int|
                    0 <= p < picks@.len() ==> (#[trigger] picks@[p]).wf() && pick_sorted(
                        picks@[p],
                    )
            },
            sorted_blue_counts@.len() == 0 ==> r is Err,
            sorted_red_counts@.len() != RED_BALL_COUNT ==> r is Err,
            ({
                &&& sorted_red_counts@.len() == RED_BALL_COUNT
                &&& sorted_blue_counts@.len() > 0
                &&& 1 <= sorted_blue_counts@[0].0 <= BLUE_BALL_COUNT
                &&& 1 <= sorted_blue_counts@[sorted_blue_counts@.len() - 1].0 <= BLUE_BALL_COUNT
                &&& (forall|k: int|
                    0 <= k < 6 ==> 1 <= (#[trigger] sorted_red_counts@[k]).0 <= RED_BALL_COUNT)
                &&& (forall|k: int, l: int|
                    0 <= k < l < 6 ==> sorted_red_counts@[k].0 != sorted_red_counts@[l].0)
                &&& (forall|k: int|
                    27 <= k < 33 ==> 1 <= (#[trigger] sorted_red_counts@[k]).0 <= RED_BALL_COUNT)
                &&& (forall|k: int, l: int|
                    27 <= k < l < 33 ==> sorted_red_counts@[k].0 != sorted_red_counts@[l].0)
            }) ==> r is Ok,
    {
        if sorted_red_counts.len() != RED_BALL_COUNT as usize {
            return Err(Error::OtherFailure("the ranked red counts must cover the domain".to_owned()));
        }
        if sorted_blue_counts.len() == 0 {
            return Err(Error::OtherFailure("no ranked blue-ball counts".to_owned()));
        }
        let top_blue = sorted_blue_counts[0].0;
        let bottom_blue = sorted_blue_counts[sorted_blue_counts.len() - 1].0;
        let mut top_reds: Vec<u8> = Vec::new();
        let mut i: usize = 0;
        while i < 6
            invariant
                sorted_red_counts@.len() == RED_BALL_COUNT,
                i <= 6,
                top_reds@.len() == i,
                forall|k: int| 0 <= k < i ==> #[trigger] top_reds@[k]
                    == sorted_red_counts@[k].0,
            decreases 6 - i,
        {
            top_reds.push(sorted_red_counts[i].0);
            i = i + 1;
        }
        let mut bottom_reds: Vec<u8> = Vec::new();
        let mut j: usize = 27;
        while j < 33
            invariant
                sorted_red_counts@.len() == RED_BALL_COUNT,
                27 <= j <= 33,
                bottom_reds@.len() == j - 27,
                forall|k: int| 0 <= k < j - 27 ==> #[trigger] bottom_reds@[k]
                    == sorted_red_counts@[k + 27].0,
            decreases 33 - j,
        {
            bottom_reds.push(sorted_red_counts[j].0);
            j = j + 1;
        }
        let ghost top_before = top_reds@;
        let ghost bottom_before = bottom_reds@;
        sort_asc_u8(&mut top_reds);
        sort_asc_u8(&mut bottom_reds);
        proof {
            broadcast use vstd::seq_lib::group_to_multiset_ensures;

            if (forall|k: int|
                0 <= k < 6 ==> 1 <= (#[trigger] sorted_red_counts@[k]).0 <= RED_BALL_COUNT)
                && (forall|k: int, l: int|
                0 <= k < l < 6 ==> sorted_red_counts@[k].0 != sorted_red_counts@[l].0) {
                assert(top_before.no_duplicates()) by {
                    assert(forall|k: int, l: int|
                        0 <= k < l < 6 ==> top_before[k] == sorted_red_counts@[k].0
                            && top_before[l] == sorted_red_counts@[l].0);
                }
                top_before.lemma_multiset_has_no_duplicates();
                top_reds@.lemma_multiset_has_no_duplicates_conv();
                assert forall|k: int| 0 <= k < top_reds@.len() implies 1 <= #[trigger] top_reds@[k]
                    <= RED_BALL_COUNT by {
                    assert(top_reds@.contains(top_reds@[k]));
                    assert(top_reds@.to_multiset().count(top_reds@[k]) > 0);
                    assert(top_before.contains(top_reds@[k]));
                    let w = choose|w: int|
                        0 <= w < top_before.len() && top_before[w] == top_reds@[k];
                    assert(top_before[w] == sorted_red_counts@[w].0);
                }
            }
            if (forall|k: int|
                27 <= k < 33 ==> 1 <= (#[trigger] sorted_red_counts@[k]).0 <= RED_BALL_COUNT)
                && (forall|k: int, l: int|
                27 <= k < l < 33 ==> sorted_red_counts@[k].0 != sorted_red_counts@[l].0) {
                assert(bottom_before.no_duplicates()) by {
                    assert(forall|k: int, l: int|
                        0 <= k < l < 6 ==> bottom_before[k] == sorted_red_counts@[k + 27].0
                            && bottom_before[l] == sorted_red_counts@[l + 27].0);
                }
                bottom_before.lemma_multiset_has_no_duplicates();
                bottom_reds@.lemma_multiset_has_no_duplicates_conv();
                assert forall|k: int|
                    0 <= k < bottom_reds@.len() implies 1 <= #[trigger] bottom_reds@[k]
                    <= RED_BALL_COUNT by {
                    assert(bottom_reds@.contains(bottom_reds@[k]));
                    assert(bottom_reds@.to_multiset().count(bottom_reds@[k]) > 0);
                    assert(bottom_before.contains(bottom_reds@[k]));
                    let w = choose|w: int|
                        0 <= w < bottom_before.len() && bottom_before[w] == bottom_reds@[k];
                    assert(bottom_before[w] == sorted_red_counts@[w + 27].0);
                }
            }
        }
        let p1 = make_pick(top_blue, &top_reds)?;
        let p2 = make_pick(top_blue, &bottom_reds)?;
        let p3 = make_pick(bottom_blue, &top_reds)?;
        let p4 = make_pick(bottom_blue, &bottom_reds)?;
        proof {
            lemma_sorted_pick(p1, top_reds@);
            lemma_sorted_pick(p2, bottom_reds@);
            lemma_sorted_pick(p3, top_reds@);
            lemma_sorted_pick(p4, bottom_reds@);
        }
        let mut picks: Vec<FinalProcessorChainResult> = Vec::new();
        picks.push(p1);
        picks.push(p2);
        picks.push(p3);
        picks.push(p4);
        Ok(picks)
    }
}

} // verus!
