//! The unit-of-work abstraction and its ordered, fail-fast composition.

use vstd::prelude::*;

use crate::domain::{BLUE_BALL_COUNT, BlueBall, PrBusinessObj, RED_BALL_COUNT, RedBall, reds_distinct};
use crate::error::Error;

use crate::business_obj::BallOccurInterval;
use crate::context::{AttrValue, ContextValue, ProcessorContext, ProcessorContextAttr};
use crate::context_obj::{BallOccurInfo, info_eq};
use crate::counts::{
    CountPrizedBlueballProcessor, CountPrizedRedballProcessor, SummaryTopCountsProcessor,
    blue_counts_of, red_counts_of,
};
use crate::final_result::FinalResultsProcessor;
use crate::generate_normalize_data::{GenerateNormalizeDataProcessor, NormalizedRow, row_matches};
use crate::mining::{
    BallRelationshipFpProcessor, BlueBallFollowingOccurrenceProcessor, GroupPatterns,
    following_counts_of, groups_ok,
};
use crate::occur::{BallOccurrences, OccurProcessor, occurrences_of};
use crate::occur_based::{
    BallOccurIntervalProcessor, BallOccurProcessor, OccurBasedSummaryProcessor, blue_infos_of,
    blue_intervals_of, next_index_pairs, red_infos_of, red_intervals_of,
};
use crate::prepare::{PrepareProcessor, blue_columns_of, red_columns_of};
use crate::relationship::{
    BlueBallRelationship, RedBallRelationship, RelationshipProcessor, blue_counts_ok,
    red_counts_ok,
};
use crate::relationship_based::{
    RelationshipBasedProcessor, SummaryTopBlueBallRelationshipProcessor,
    SummaryTopRedBallRelationshipProcessor,
};
use crate::sorting::sorted_by_count_desc;
use crate::summary::{SummaryProcessor, ranked_keys_desc};

verus! {

/// One recommended pick: a blue ball with six red balls.
#[derive(Clone, Copy, Debug)]
pub struct FinalProcessorChainResult {
    pub blue_ball: BlueBall,
    pub red_balls: [RedBall; 6],
}

impl FinalProcessorChainResult {
    pub open spec fn wf(self) -> bool {
        &&& self.blue_ball.wf()
        &&& forall|i: int| 0 <= i < 6 ==> (#[trigger] self.red_balls[i]).wf()
        &&& reds_distinct(self.red_balls@)
    }

    pub fn new(blue_ball: BlueBall, red_balls: [RedBall; 6]) -> (r: Self)
        ensures
            r == (FinalProcessorChainResult { blue_ball, red_balls }),
    {
        FinalProcessorChainResult { blue_ball, red_balls }
    }

    pub fn blue_ball(&self) -> (r: &BlueBall)
        ensures
            *r == self.blue_ball,
    {
        &self.blue_ball
    }

    pub fn red_ball(&self) -> (r: &[RedBall])
        ensures
            r@ == self.red_balls@,
    {
        &self.red_balls
    }
}

/// Builds a well-formed pick from plain values, rejecting anything else: the
/// blue value must lie in its domain, and exactly six distinct in-domain red
/// values must be given.
pub fn make_pick(blue: u8, reds: &Vec<u8>) -> (r: Result<FinalProcessorChainResult, Error>)
    ensures
        r matches Ok(p) ==> {
            &&& p.wf()
            &&& p.blue_ball.value == blue
            &&& reds@.len() == 6
            &&& forall|a: int| 0 <= a < 6 ==> (#[trigger] p.red_balls[a]).value == reds@[a]
        },
        r is Ok <==> {
            &&& 1 <= blue <= BLUE_BALL_COUNT
            &&& reds@.len() == 6
            &&& forall|a: int| 0 <= a < 6 ==> 1 <= #[trigger] reds@[a] <= RED_BALL_COUNT
            &&& forall|a: int, b: int| 0 <= a < b < 6 ==> reds@[a] != reds@[b]
        },
{
    if !(1 <= blue && blue <= BLUE_BALL_COUNT) {
        return Err(Error::InvalidBallValue(blue));
    }
    if reds.len() != 6 {
        return Err(Error::OtherFailure("a pick needs exactly six red balls".to_owned()));
    }
    let mut i: usize = 0;
    while i < 6
        invariant
            reds@.len() == 6,
            i <= 6,
            forall|k: int| 0 <= k < i ==> 1 <= #[trigger] reds@[k] <= RED_BALL_COUNT,
            forall|k: int, l: int| 0 <= k < l < i ==> reds@[k] != reds@[l],
        decreases 6 - i,
    {
        if !(1 <= reds[i] && reds[i] <= RED_BALL_COUNT) {
            return Err(Error::InvalidBallValue(reds[i]));
        }
        let mut j: usize = 0;
        while j < i
            invariant
                reds@.len() == 6,
                i < 6,
                j <= i,
                forall|k: int| 0 <= k < j ==> reds@[k] != reds@[i as int],
            decreases i - j,
        {
            if reds[j] == reds[i] {
                return Err(Error::OtherFailure("a pick repeats a red ball".to_owned()));
            }
            j = j + 1;
        }
        i = i + 1;
    }
    let pick = FinalProcessorChainResult {
        blue_ball: BlueBall { value: blue },
        red_balls: [
            RedBall { value: reds[0] },
            RedBall { value: reds[1] },
            RedBall { value: reds[2] },
            RedBall { value: reds[3] },
            RedBall { value: reds[4] },
            RedBall { value: reds[5] },
        ],
    };
    proof {
        assert(pick.wf()) by {
            assert(forall|a: int|
                0 <= a < 6 ==> (#[trigger] pick.red_balls[a]).value == reds@[a]);
        }
    }
    Ok(pick)
}



/// The name of the attribute.
pub open spec fn spec_ball_occurs_name() -> Seq<char> {
    "BALL_OCCURS"@
}

/// The (name, type tag) key of the attribute.
pub open spec fn spec_ball_occurs_key() -> (Seq<char>, int) {
    (spec_ball_occurs_name(), <BallOccurrences as ContextValue>::tag())
}

/// The lookup key of the attribute.
pub fn ball_occurs_attr() -> (r: ProcessorContextAttr<BallOccurrences>)
    ensures
        r.spec_name() == spec_ball_occurs_name(),
{
    ProcessorContextAttr::new("BALL_OCCURS")
}

/// The name of the attribute.
pub open spec fn spec_blue_ball_relationships_name() -> Seq<char> {
    "BLUE_BALL_RELATIONSHIPS"@
}

/// The (name, type tag) key of the attribute.
pub open spec fn spec_blue_ball_relationships_key() -> (Seq<char>, int) {
    (spec_blue_ball_relationships_name(), <Vec<BlueBallRelationship> as ContextValue>::tag())
}

/// The lookup key of the attribute.
pub fn blue_ball_relationships_attr() -> (r: ProcessorContextAttr<Vec<BlueBallRelationship>>)
    ensures
        r.spec_name() == spec_blue_ball_relationships_name(),
{
    ProcessorContextAttr::new("BLUE_BALL_RELATIONSHIPS")
}

/// The name of the attribute.
pub open spec fn spec_red_ball_relationships_name() -> Seq<char> {
    "RED_BALL_RELATIONSHIPS"@
}

/// The (name, type tag) key of the attribute.
pub open spec fn spec_red_ball_relationships_key() -> (Seq<char>, int) {
    (spec_red_ball_relationships_name(), <Vec<RedBallRelationship> as ContextValue>::tag())
}

/// The lookup key of the attribute.
pub fn red_ball_relationships_attr() -> (r: ProcessorContextAttr<Vec<RedBallRelationship>>)
    ensures
        r.spec_name() == spec_red_ball_relationships_name(),
{
    ProcessorContextAttr::new("RED_BALL_RELATIONSHIPS")
}

/// The name of the attribute.
pub open spec fn spec_blue_red_fp_name() -> Seq<char> {
    "BLUE_BALL_AND_RED_BALL_RELATIONSHIP_FP"@
}

/// The (name, type tag) key of the attribute.
pub open spec fn spec_blue_red_fp_key() -> (Seq<char>, int) {
    (spec_blue_red_fp_name(), <Vec<GroupPatterns> as ContextValue>::tag())
}

/// The lookup key of the attribute.
pub fn blue_red_fp_attr() -> (r: ProcessorContextAttr<Vec<GroupPatterns>>)
    ensures
        r.spec_name() == spec_blue_red_fp_name(),
{
    ProcessorContextAttr::new("BLUE_BALL_AND_RED_BALL_RELATIONSHIP_FP")
}

/// The name of the attribute.
pub open spec fn spec_red_red_fp_name() -> Seq<char> {
    "RED_BALL_AND_RED_BALL_RELATIONSHIP_FP"@
}

/// The (name, type tag) key of the attribute.
pub open spec fn spec_red_red_fp_key() -> (Seq<char>, int) {
    (spec_red_red_fp_name(), <Vec<GroupPatterns> as ContextValue>::tag())
}

/// The lookup key of the attribute.
pub fn red_red_fp_attr() -> (r: ProcessorContextAttr<Vec<GroupPatterns>>)
    ensures
        r.spec_name() == spec_red_red_fp_name(),
{
    ProcessorContextAttr::new("RED_BALL_AND_RED_BALL_RELATIONSHIP_FP")
}

/// The name of the attribute.
pub open spec fn spec_blue_following_name() -> Seq<char> {
    "BLUE_BALL_FOLLOWING_OCCURRENCES"@
}

/// The (name, type tag) key of the attribute.
pub open spec fn spec_blue_following_key() -> (Seq<char>, int) {
    (spec_blue_following_name(), <Vec<Vec<usize>> as ContextValue>::tag())
}

/// The lookup key of the attribute.
pub fn blue_following_attr() -> (r: ProcessorContextAttr<Vec<Vec<usize>>>)
    ensures
        r.spec_name() == spec_blue_following_name(),
{
    ProcessorContextAttr::new("BLUE_BALL_FOLLOWING_OCCURRENCES")
}

/// The name of the attribute.
pub open spec fn spec_summaries_name() -> Seq<char> {
    "SUMMARIES"@
}

/// The (name, type tag) key of the attribute.
pub open spec fn spec_summaries_key() -> (Seq<char>, int) {
    (spec_summaries_name(), <Vec<FinalProcessorChainResult> as ContextValue>::tag())
}

/// The lookup key of the attribute.
pub fn summaries_attr() -> (r: ProcessorContextAttr<Vec<FinalProcessorChainResult>>)
    ensures
        r.spec_name() == spec_summaries_name(),
{
    ProcessorContextAttr::new("SUMMARIES")
}

/// The name of the attribute.
pub open spec fn spec_final_results_name() -> Seq<char> {
    "CUSTOMIZE_SUMMARIES"@
}

/// The (name, type tag) key of the attribute.
pub open spec fn spec_final_results_key() -> (Seq<char>, int) {
    (spec_final_results_name(), <Vec<FinalProcessorChainResult> as ContextValue>::tag())
}

/// The lookup key of the attribute.
pub fn final_results_attr() -> (r: ProcessorContextAttr<Vec<FinalProcessorChainResult>>)
    ensures
        r.spec_name() == spec_final_results_name(),
{
    ProcessorContextAttr::new("CUSTOMIZE_SUMMARIES")
}

/// The name of the attribute.
pub open spec fn spec_normalized_rows_name() -> Seq<char> {
    "NORMALIZED_DATA"@
}

/// The (name, type tag) key of the attribute.
pub open spec fn spec_normalized_rows_key() -> (Seq<char>, int) {
    (spec_normalized_rows_name(), <Vec<NormalizedRow> as ContextValue>::tag())
}

/// The lookup key of the attribute.
pub fn normalized_rows_attr() -> (r: ProcessorContextAttr<Vec<NormalizedRow>>)
    ensures
        r.spec_name() == spec_normalized_rows_name(),
{
    ProcessorContextAttr::new("NORMALIZED_DATA")
}

/// The name of the attribute.
pub open spec fn spec_prized_blue_counts_name() -> Seq<char> {
    "PRIZED_BLUE_BALLS_COUNTS"@
}

/// The (name, type tag) key of the attribute.
pub open spec fn spec_prized_blue_counts_key() -> (Seq<char>, int) {
    (spec_prized_blue_counts_name(), <Vec<usize> as ContextValue>::tag())
}

/// The lookup key of the attribute.
pub fn prized_blue_counts_attr() -> (r: ProcessorContextAttr<Vec<usize>>)
    ensures
        r.spec_name() == spec_prized_blue_counts_name(),
{
    ProcessorContextAttr::new("PRIZED_BLUE_BALLS_COUNTS")
}

/// The name of the attribute.
pub open spec fn spec_prized_red_counts_name() -> Seq<char> {
    "PRIZED_RED_BALLS_COUNTS"@
}

/// The (name, type tag) key of the attribute.
pub open spec fn spec_prized_red_counts_key() -> (Seq<char>, int) {
    (spec_prized_red_counts_name(), <Vec<usize> as ContextValue>::tag())
}

/// The lookup key of the attribute.
pub fn prized_red_counts_attr() -> (r: ProcessorContextAttr<Vec<usize>>)
    ensures
        r.spec_name() == spec_prized_red_counts_name(),
{
    ProcessorContextAttr::new("PRIZED_RED_BALLS_COUNTS")
}

/// The name of the attribute.
pub open spec fn spec_sorted_blue_counts_name() -> Seq<char> {
    "SORTED_BLUE_BALLS_COUNTS"@
}

/// The (name, type tag) key of the attribute.
pub open spec fn spec_sorted_blue_counts_key() -> (Seq<char>, int) {
    (spec_sorted_blue_counts_name(), <Vec<(u8, usize)> as ContextValue>::tag())
}

/// The lookup key of the attribute.
pub fn sorted_blue_counts_attr() -> (r: ProcessorContextAttr<Vec<(u8, usize)>>)
    ensures
        r.spec_name() == spec_sorted_blue_counts_name(),
{
    ProcessorContextAttr::new("SORTED_BLUE_BALLS_COUNTS")
}

/// The name of the attribute.
pub open spec fn spec_sorted_red_counts_name() -> Seq<char> {
    "SORTED_RED_BALLS_COUNTS"@
}

/// The (name, type tag) key of the attribute.
pub open spec fn spec_sorted_red_counts_key() -> (Seq<char>, int) {
    (spec_sorted_red_counts_name(), <Vec<(u8, usize)> as ContextValue>::tag())
}

/// The lookup key of the attribute.
pub fn sorted_red_counts_attr() -> (r: ProcessorContextAttr<Vec<(u8, usize)>>)
    ensures
        r.spec_name() == spec_sorted_red_counts_name(),
{
    ProcessorContextAttr::new("SORTED_RED_BALLS_COUNTS")
}

/// The name of the attribute.
pub open spec fn spec_prized_blue_occur_info_name() -> Seq<char> {
    "PRIZED_BLUE_BALLS_OCCUR_INFO"@
}

/// The (name, type tag) key of the attribute.
pub open spec fn spec_prized_blue_occur_info_key() -> (Seq<char>, int) {
    (spec_prized_blue_occur_info_name(), <Vec<BallOccurInfo> as ContextValue>::tag())
}

/// The lookup key of the attribute.
pub fn prized_blue_occur_info_attr() -> (r: ProcessorContextAttr<Vec<BallOccurInfo>>)
    ensures
        r.spec_name() == spec_prized_blue_occur_info_name(),
{
    ProcessorContextAttr::new("PRIZED_BLUE_BALLS_OCCUR_INFO")
}

/// The name of the attribute.
pub open spec fn spec_prized_red_occur_info_name() -> Seq<char> {
    "PRIZED_RED_BALLS_OCCUR_INFO"@
}

/// The (name, type tag) key of the attribute.
pub open spec fn spec_prized_red_occur_info_key() -> (Seq<char>, int) {
    (spec_prized_red_occur_info_name(), <Vec<BallOccurInfo> as ContextValue>::tag())
}

/// The lookup key of the attribute.
pub fn prized_red_occur_info_attr() -> (r: ProcessorContextAttr<Vec<BallOccurInfo>>)
    ensures
        r.spec_name() == spec_prized_red_occur_info_name(),
{
    ProcessorContextAttr::new("PRIZED_RED_BALLS_OCCUR_INFO")
}

/// The name of the attribute.
pub open spec fn spec_most_possible_blue_name() -> Seq<char> {
    "MOST_POSSIBLE_OCCUR_BLUE_BALLS"@
}

/// The (name, type tag) key of the attribute.
pub open spec fn spec_most_possible_blue_key() -> (Seq<char>, int) {
    (spec_most_possible_blue_name(), <Vec<BallOccurInfo> as ContextValue>::tag())
}

/// The lookup key of the attribute.
pub fn most_possible_blue_attr() -> (r: ProcessorContextAttr<Vec<BallOccurInfo>>)
    ensures
        r.spec_name() == spec_most_possible_blue_name(),
{
    ProcessorContextAttr::new("MOST_POSSIBLE_OCCUR_BLUE_BALLS")
}

/// The name of the attribute.
pub open spec fn spec_most_possible_red_name() -> Seq<char> {
    "MOST_POSSIBLE_OCCUR_RED_BALLS"@
}

/// The (name, type tag) key of the attribute.
pub open spec fn spec_most_possible_red_key() -> (Seq<char>, int) {
    (spec_most_possible_red_name(), <Vec<BallOccurInfo> as ContextValue>::tag())
}

/// The lookup key of the attribute.
pub fn most_possible_red_attr() -> (r: ProcessorContextAttr<Vec<BallOccurInfo>>)
    ensures
        r.spec_name() == spec_most_possible_red_name(),
{
    ProcessorContextAttr::new("MOST_POSSIBLE_OCCUR_RED_BALLS")
}

/// The name of the attribute.
pub open spec fn spec_blue_intervals_name() -> Seq<char> {
    "BLUE_BALLS_OCCUR_INTERVALS"@
}

/// The (name, type tag) key of the attribute.
pub open spec fn spec_blue_intervals_key() -> (Seq<char>, int) {
    (spec_blue_intervals_name(), <Vec<BallOccurInterval> as ContextValue>::tag())
}

/// The lookup key of the attribute.
pub fn blue_intervals_attr() -> (r: ProcessorContextAttr<Vec<BallOccurInterval>>)
    ensures
        r.spec_name() == spec_blue_intervals_name(),
{
    ProcessorContextAttr::new("BLUE_BALLS_OCCUR_INTERVALS")
}

/// The name of the attribute.
pub open spec fn spec_red_intervals_name() -> Seq<char> {
    "RED_BALLS_OCCUR_INTERVALS"@
}

/// The (name, type tag) key of the attribute.
pub open spec fn spec_red_intervals_key() -> (Seq<char>, int) {
    (spec_red_intervals_name(), <Vec<BallOccurInterval> as ContextValue>::tag())
}

/// The lookup key of the attribute.
pub fn red_intervals_attr() -> (r: ProcessorContextAttr<Vec<BallOccurInterval>>)
    ensures
        r.spec_name() == spec_red_intervals_name(),
{
    ProcessorContextAttr::new("RED_BALLS_OCCUR_INTERVALS")
}

/// The name of the attribute.
pub open spec fn spec_blue_columns_name() -> Seq<char> {
    "BLUE_BALL_COLUMNS"@
}

/// The (name, type tag) key of the attribute.
pub open spec fn spec_blue_columns_key() -> (Seq<char>, int) {
    (spec_blue_columns_name(), <Vec<Vec<bool>> as ContextValue>::tag())
}

/// The lookup key of the attribute.
pub fn blue_columns_attr() -> (r: ProcessorContextAttr<Vec<Vec<bool>>>)
    ensures
        r.spec_name() == spec_blue_columns_name(),
{
    ProcessorContextAttr::new("BLUE_BALL_COLUMNS")
}

/// The name of the attribute.
pub open spec fn spec_red_columns_name() -> Seq<char> {
    "RED_BALL_COLUMNS"@
}

/// The (name, type tag) key of the attribute.
pub open spec fn spec_red_columns_key() -> (Seq<char>, int) {
    (spec_red_columns_name(), <Vec<Vec<bool>> as ContextValue>::tag())
}

/// The lookup key of the attribute.
pub fn red_columns_attr() -> (r: ProcessorContextAttr<Vec<Vec<bool>>>)
    ensures
        r.spec_name() == spec_red_columns_name(),
{
    ProcessorContextAttr::new("RED_BALL_COLUMNS")
}

/// The name of the attribute.
pub open spec fn spec_relationship_based_results_name() -> Seq<char> {
    "RELATIONSHIP_BASED_RESULTS"@
}

/// The (name, type tag) key of the attribute.
pub open spec fn spec_relationship_based_results_key() -> (Seq<char>, int) {
    (spec_relationship_based_results_name(), <Vec<FinalProcessorChainResult> as ContextValue>::tag())
}

/// The lookup key of the attribute.
pub fn relationship_based_results_attr() -> (r: ProcessorContextAttr<Vec<FinalProcessorChainResult>>)
    ensures
        r.spec_name() == spec_relationship_based_results_name(),
{
    ProcessorContextAttr::new("RELATIONSHIP_BASED_RESULTS")
}

/// The name of the attribute.
pub open spec fn spec_top_blue_relationship_results_name() -> Seq<char> {
    "TOP_BLUE_BALL_RELATIONSHIP_RESULTS"@
}

/// The (name, type tag) key of the attribute.
pub open spec fn spec_top_blue_relationship_results_key() -> (Seq<char>, int) {
    (spec_top_blue_relationship_results_name(), <Vec<FinalProcessorChainResult> as ContextValue>::tag())
}

/// The lookup key of the attribute.
pub fn top_blue_relationship_results_attr() -> (r: ProcessorContextAttr<Vec<FinalProcessorChainResult>>)
    ensures
        r.spec_name() == spec_top_blue_relationship_results_name(),
{
    ProcessorContextAttr::new("TOP_BLUE_BALL_RELATIONSHIP_RESULTS")
}

/// The name of the attribute.
pub open spec fn spec_top_red_relationship_results_name() -> Seq<char> {
    "TOP_RED_BALL_RELATIONSHIP_RESULTS"@
}

/// The (name, type tag) key of the attribute.
pub open spec fn spec_top_red_relationship_results_key() -> (Seq<char>, int) {
    (spec_top_red_relationship_results_name(), <Vec<FinalProcessorChainResult> as ContextValue>::tag())
}

/// The lookup key of the attribute.
pub fn top_red_relationship_results_attr() -> (r: ProcessorContextAttr<Vec<FinalProcessorChainResult>>)
    ensures
        r.spec_name() == spec_top_red_relationship_results_name(),
{
    ProcessorContextAttr::new("TOP_RED_BALL_RELATIONSHIP_RESULTS")
}


/// The transition this stage makes on the attribute map: what `run` ensures
/// of the map, phrased over (pre, post) states.
pub open spec fn occur_step(
    p: OccurProcessor,
    pre: Map<(Seq<char>, int), AttrValue>,
    post: Map<(Seq<char>, int), AttrValue>,
    records: Seq<PrBusinessObj>,
    size: usize,
    r: Result<(), Error>,
) -> bool {
    &&& (r is Err ==> post == pre)
    &&& ((forall|i: int|
                0 <= i < records.len() ==> (#[trigger] records[i]).seq < usize::MAX) ==> r is Ok)
    &&& (r is Ok ==> exists|v: BallOccurrences|
                #![auto]
                {
                    &&& post == pre.insert(
                        spec_ball_occurs_key(),
                        v.wrap_spec(),
                    )
                    &&& occurrences_of(v, records)
                })
}

/// The transition this stage makes on the attribute map: what `run` ensures
/// of the map, phrased over (pre, post) states.
pub open spec fn blue_ball_following_occurrence_step(
    p: BlueBallFollowingOccurrenceProcessor,
    pre: Map<(Seq<char>, int), AttrValue>,
    post: Map<(Seq<char>, int), AttrValue>,
    records: Seq<PrBusinessObj>,
    size: usize,
    r: Result<(), Error>,
) -> bool {
    &&& (r is Err ==> post == pre)
    &&& (crate::domain::records_wf(records) && records.len() < usize::MAX ==> r is Ok)
    &&& (r is Ok ==> exists|v: Vec<Vec<usize>>|
                #![auto]
                {
                    &&& post == pre.insert(
                        spec_blue_following_key(),
                        v.wrap_spec(),
                    )
                    &&& following_counts_of(v@, records)
                })
}

/// The transition this stage makes on the attribute map: what `run` ensures
/// of the map, phrased over (pre, post) states.
pub open spec fn count_prized_blueball_step(
    p: CountPrizedBlueballProcessor,
    pre: Map<(Seq<char>, int), AttrValue>,
    post: Map<(Seq<char>, int), AttrValue>,
    records: Seq<PrBusinessObj>,
    size: usize,
    r: Result<(), Error>,
) -> bool {
    &&& (r is Err ==> post == pre)
    &&& (crate::domain::records_wf(records) && records.len() < usize::MAX ==> r is Ok)
    &&& (r is Ok ==> exists|v: Vec<usize>|
                #![auto]
                {
                    &&& post == pre.insert(
                        spec_prized_blue_counts_key(),
                        v.wrap_spec(),
                    )
                    &&& blue_counts_of(v@, records)
                })
}

/// The transition this stage makes on the attribute map: what `run` ensures
/// of the map, phrased over (pre, post) states.
pub open spec fn count_prized_redball_step(
    p: CountPrizedRedballProcessor,
    pre: Map<(Seq<char>, int), AttrValue>,
    post: Map<(Seq<char>, int), AttrValue>,
    records: Seq<PrBusinessObj>,
    size: usize,
    r: Result<(), Error>,
) -> bool {
    &&& (r is Err ==> post == pre)
    &&& (crate::domain::records_wf(records) && records.len() < usize::MAX ==> r is Ok)
    &&& (r is Ok ==> exists|v: Vec<usize>|
                #![auto]
                {
                    &&& post == pre.insert(
                        spec_prized_red_counts_key(),
                        v.wrap_spec(),
                    )
                    &&& red_counts_of(v@, records)
                })
}

/// The transition this stage makes on the attribute map: what `run` ensures
/// of the map, phrased over (pre, post) states.
pub open spec fn relationship_step(
    p: RelationshipProcessor,
    pre: Map<(Seq<char>, int), AttrValue>,
    post: Map<(Seq<char>, int), AttrValue>,
    records: Seq<PrBusinessObj>,
    size: usize,
    r: Result<(), Error>,
) -> bool {
    &&& (r is Err ==> post == pre)
    &&& (crate::domain::records_wf(records) && records.len() < usize::MAX ==> r is Ok)
    &&& (r is Ok ==> exists|v1: Vec<BlueBallRelationship>, v2: Vec<RedBallRelationship>|
                #![auto]
                {
                    &&& post == pre.insert(
                        spec_blue_ball_relationships_key(),
                        v1.wrap_spec(),
                    ).insert(spec_red_ball_relationships_key(), v2.wrap_spec())
                    &&& blue_counts_ok(v1@, records)
                    &&& red_counts_ok(v2@, records)
                })
}

/// The transition this stage makes on the attribute map: what `run` ensures
/// of the map, phrased over (pre, post) states.
pub open spec fn ball_relationship_fp_step(
    p: BallRelationshipFpProcessor,
    pre: Map<(Seq<char>, int), AttrValue>,
    post: Map<(Seq<char>, int), AttrValue>,
    records: Seq<PrBusinessObj>,
    size: usize,
    r: Result<(), Error>,
) -> bool {
    &&& (r is Err ==> post == pre)
    &&& (crate::domain::records_wf(records) ==> r is Ok)
    &&& (r is Ok ==> exists|v1: Vec<GroupPatterns>, v2: Vec<GroupPatterns>|
                #![auto]
                {
                    &&& post == pre.insert(
                        spec_blue_red_fp_key(),
                        v1.wrap_spec(),
                    ).insert(spec_red_red_fp_key(), v2.wrap_spec())
                    &&& groups_ok(v1@, crate::domain::BLUE_BALL_COUNT as int, p.minimum_support)
                    &&& groups_ok(v2@, crate::domain::RED_BALL_COUNT as int, p.minimum_support)
                    &&& crate::mining::blue_groups_from_records(v1@, records)
                    &&& crate::mining::red_groups_from_records(v2@, records)
                })
}

/// The transition this stage makes on the attribute map: what `run` ensures
/// of the map, phrased over (pre, post) states.
pub open spec fn ball_occur_step(
    p: BallOccurProcessor,
    pre: Map<(Seq<char>, int), AttrValue>,
    post: Map<(Seq<char>, int), AttrValue>,
    records: Seq<PrBusinessObj>,
    size: usize,
    r: Result<(), Error>,
) -> bool {
    &&& (r is Err ==> post == pre)
    &&& ((forall|i: int|
                0 <= i < records.len() ==> (#[trigger] records[i]).seq < usize::MAX) ==> r is Ok)
    &&& (r is Ok ==> exists|v1: Vec<BallOccurInfo>, v2: Vec<BallOccurInfo>|
                #![auto]
                {
                    &&& post == pre.insert(
                        spec_prized_blue_occur_info_key(),
                        v1.wrap_spec(),
                    ).insert(spec_prized_red_occur_info_key(), v2.wrap_spec())
                    &&& blue_infos_of(v1@, records)
                    &&& red_infos_of(v2@, records)
                })
}

/// The transition this stage makes on the attribute map: what `run` ensures
/// of the map, phrased over (pre, post) states.
pub open spec fn ball_occur_interval_step(
    p: BallOccurIntervalProcessor,
    pre: Map<(Seq<char>, int), AttrValue>,
    post: Map<(Seq<char>, int), AttrValue>,
    records: Seq<PrBusinessObj>,
    size: usize,
    r: Result<(), Error>,
) -> bool {
    &&& (r is Err ==> post == pre)
    &&& ((forall|i: int|
                0 <= i < records.len() ==> (#[trigger] records[i]).seq < usize::MAX) ==> r is Ok)
    &&& (r is Ok ==> exists|v1: Vec<BallOccurInterval>, v2: Vec<BallOccurInterval>|
                #![auto]
                {
                    &&& post == pre.insert(
                        spec_blue_intervals_key(),
                        v1.wrap_spec(),
                    ).insert(spec_red_intervals_key(), v2.wrap_spec())
                    &&& blue_intervals_of(v1@, records)
                    &&& red_intervals_of(v2@, records)
                })
}

/// The transition this stage makes on the attribute map: what `run` ensures
/// of the map, phrased over (pre, post) states.
pub open spec fn prepare_step(
    p: PrepareProcessor,
    pre: Map<(Seq<char>, int), AttrValue>,
    post: Map<(Seq<char>, int), AttrValue>,
    records: Seq<PrBusinessObj>,
    size: usize,
    r: Result<(), Error>,
) -> bool {
    &&& (r is Err ==> post == pre)
    &&& (r is Ok)
    &&& (r is Ok ==> exists|v1: Vec<Vec<bool>>, v2: Vec<Vec<bool>>|
                #![auto]
                {
                    &&& post == pre.insert(
                        spec_blue_columns_key(),
                        v1.wrap_spec(),
                    ).insert(spec_red_columns_key(), v2.wrap_spec())
                    &&& blue_columns_of(v1@, records)
                    &&& red_columns_of(v2@, records)
                })
}

/// The transition this stage makes on the attribute map: what `run` ensures
/// of the map, phrased over (pre, post) states.
pub open spec fn summary_step(
    p: SummaryProcessor,
    pre: Map<(Seq<char>, int), AttrValue>,
    post: Map<(Seq<char>, int), AttrValue>,
    records: Seq<PrBusinessObj>,
    size: usize,
    r: Result<(), Error>,
) -> bool {
    &&& (r is Err ==> post == pre)
    &&& (!pre.contains_key(spec_ball_occurs_key()) ==> (r matches Err(e)
                && e matches Error::ContextAttrNotExist(nm) && nm@ == spec_ball_occurs_name()))
    &&& (summary_inputs_shaped(pre) && !pre.contains_key(
                spec_blue_ball_relationships_key(),
            ) ==> (r matches Err(e) && e matches Error::ContextAttrNotExist(nm) && nm@
                == spec_blue_ball_relationships_name()))
    &&& (summary_inputs_ready(pre, size) ==> r is Ok)
    &&& (r is Ok ==> exists|picks: Vec<FinalProcessorChainResult>|
                #![auto]
                {
                    &&& post == pre.insert(
                        spec_summaries_key(),
                        picks.wrap_spec(),
                    )
                    &&& match (
                        BallOccurrences::unwrap_spec(pre[spec_ball_occurs_key()]),
                        <Vec<BlueBallRelationship> as ContextValue>::unwrap_spec(
                            pre[spec_blue_ball_relationships_key()],
                        ),
                    ) {
                        (Some(occs), Some(rels)) => crate::summary::summary_picks_ok(
                            picks@,
                            occs,
                            rels@,
                            size,
                        ),
                        _ => false,
                    }
                })
}

/// The transition this stage makes on the attribute map: what `run` ensures
/// of the map, phrased over (pre, post) states.
pub open spec fn final_results_step(
    p: FinalResultsProcessor,
    pre: Map<(Seq<char>, int), AttrValue>,
    post: Map<(Seq<char>, int), AttrValue>,
    records: Seq<PrBusinessObj>,
    size: usize,
    r: Result<(), Error>,
) -> bool {
    &&& (r is Err ==> post == pre)
    &&& (!crate::domain::records_wf(records) ==> (r matches Err(e)
                && e is OtherFailure))
    &&& (crate::domain::records_wf(records) && !pre.contains_key(spec_blue_following_key()) ==> (r matches Err(e)
                && e matches Error::ContextAttrNotExist(nm) && nm@ == spec_blue_following_name()))
    &&& (final_inputs_ready(pre, records) ==> r is Ok)
    &&& (r is Ok ==> exists|picks: Vec<FinalProcessorChainResult>|
                #![auto]
                {
                    &&& post == pre.insert(
                        spec_final_results_key(),
                        picks.wrap_spec(),
                    )
                    &&& match (
                        <Vec<Vec<usize>> as ContextValue>::unwrap_spec(
                            pre[spec_blue_following_key()],
                        ),
                        <Vec<GroupPatterns> as ContextValue>::unwrap_spec(
                            pre[spec_blue_red_fp_key()],
                        ),
                    ) {
                        (Some(following), Some(grouped)) => crate::final_result::final_picks_ok(
                            picks@,
                            records,
                            following@,
                            grouped@,
                            p.final_result_size,
                        ),
                        _ => false,
                    }
                })
}

/// The transition this stage makes on the attribute map: what `run` ensures
/// of the map, phrased over (pre, post) states.
pub open spec fn generate_normalize_data_step(
    p: GenerateNormalizeDataProcessor,
    pre: Map<(Seq<char>, int), AttrValue>,
    post: Map<(Seq<char>, int), AttrValue>,
    records: Seq<PrBusinessObj>,
    size: usize,
    r: Result<(), Error>,
) -> bool {
    &&& (r is Err ==> post == pre)
    &&& (crate::domain::records_wf(records) && !pre.contains_key(spec_ball_occurs_key()) ==> (r matches Err(e)
                && e matches Error::ContextAttrNotExist(nm) && nm@ == spec_ball_occurs_name()))
    &&& (crate::domain::records_wf(records) && summary_inputs_shaped(
                pre,
            ) && !pre.contains_key(spec_blue_red_fp_key()) ==> (r matches Err(e)
                && e matches Error::ContextAttrNotExist(nm) && nm@ == spec_blue_red_fp_name()))
    &&& (normalize_inputs_ready(pre, records) ==> r is Ok)
    &&& (r is Ok ==> exists|rows: Vec<NormalizedRow>|
                #![auto]
                {
                    &&& post == pre.insert(
                        spec_normalized_rows_key(),
                        rows.wrap_spec(),
                    )
                    &&& rows@.len() == records.len()
                    &&& match (
                        BallOccurrences::unwrap_spec(pre[spec_ball_occurs_key()]),
                        <Vec<GroupPatterns> as ContextValue>::unwrap_spec(
                            pre[spec_blue_red_fp_key()],
                        ),
                    ) {
                        (Some(occs), Some(grouped)) => forall|k: int|
                            0 <= k < rows@.len() ==> row_matches(
                                #[trigger] rows@[k],
                                records[k],
                                occs,
                                grouped@,
                            ),
                        _ => false,
                    }
                })
}

/// The transition this stage makes on the attribute map: what `run` ensures
/// of the map, phrased over (pre, post) states.
pub open spec fn summary_top_counts_step(
    p: SummaryTopCountsProcessor,
    pre: Map<(Seq<char>, int), AttrValue>,
    post: Map<(Seq<char>, int), AttrValue>,
    records: Seq<PrBusinessObj>,
    size: usize,
    r: Result<(), Error>,
) -> bool {
    &&& (r is Err ==> post == pre)
    &&& (!pre.contains_key(spec_prized_blue_counts_key()) ==> (r matches Err(e)
                && e matches Error::ContextAttrNotExist(nm)
                && nm@ == spec_prized_blue_counts_name()))
    &&& (pre.contains_key(spec_prized_blue_counts_key()) && !pre.contains_key(spec_prized_red_counts_key()) ==> (r matches Err(e)
                && e matches Error::ContextAttrNotExist(nm)
                && nm@ == spec_prized_red_counts_name()))
    &&& (({
                &&& pre.contains_key(spec_prized_blue_counts_key())
                &&& pre.contains_key(spec_prized_red_counts_key())
                &&& match (
                    <Vec<usize> as ContextValue>::unwrap_spec(
                        pre[spec_prized_blue_counts_key()],
                    ),
                    <Vec<usize> as ContextValue>::unwrap_spec(
                        pre[spec_prized_red_counts_key()],
                    ),
                ) {
                    (Some(bc), Some(rc)) => bc@.len() <= 254 && rc@.len() <= 254,
                    _ => false,
                }
            }) ==> r is Ok)
    &&& (r is Ok ==> exists|v1: Vec<(u8, usize)>, v2: Vec<(u8, usize)>|
                #![auto]
                {
                    &&& post == pre.insert(
                        spec_sorted_blue_counts_key(),
                        v1.wrap_spec(),
                    ).insert(spec_sorted_red_counts_key(), v2.wrap_spec())
                    &&& match (
                        <Vec<usize> as ContextValue>::unwrap_spec(
                            pre[spec_prized_blue_counts_key()],
                        ),
                        <Vec<usize> as ContextValue>::unwrap_spec(
                            pre[spec_prized_red_counts_key()],
                        ),
                    ) {
                        (Some(bc), Some(rc)) => {
                            &&& sorted_by_count_desc(v1@)
                            &&& v1@.to_multiset() == crate::counts::ball_count_pairs(
                                bc@,
                            ).to_multiset()
                            &&& sorted_by_count_desc(v2@)
                            &&& v2@.to_multiset() == crate::counts::ball_count_pairs(
                                rc@,
                            ).to_multiset()
                        },
                        _ => false,
                    }
                })
}

/// The transition this stage makes on the attribute map: what `run` ensures
/// of the map, phrased over (pre, post) states.
pub open spec fn occur_based_summary_step(
    p: OccurBasedSummaryProcessor,
    pre: Map<(Seq<char>, int), AttrValue>,
    post: Map<(Seq<char>, int), AttrValue>,
    records: Seq<PrBusinessObj>,
    size: usize,
    r: Result<(), Error>,
) -> bool {
    &&& (r is Err ==> post == pre)
    &&& (!pre.contains_key(spec_prized_blue_occur_info_key()) ==> (r matches Err(e)
                && e matches Error::ContextAttrNotExist(nm)
                && nm@ == spec_prized_blue_occur_info_name()))
    &&& (pre.contains_key(spec_prized_blue_occur_info_key()) && !pre.contains_key(spec_prized_red_occur_info_key()) ==> (r matches Err(e)
                && e matches Error::ContextAttrNotExist(nm)
                && nm@ == spec_prized_red_occur_info_name()))
    &&& (pre.contains_key(spec_prized_blue_occur_info_key()) && pre.contains_key(spec_prized_red_occur_info_key()) ==> r is Ok)
    &&& (r is Ok ==> exists|v1: Vec<BallOccurInfo>, v2: Vec<BallOccurInfo>|
                #![auto]
                {
                    &&& post == pre.insert(
                        spec_most_possible_blue_key(),
                        v1.wrap_spec(),
                    ).insert(spec_most_possible_red_key(), v2.wrap_spec())
                    &&& match (
                        <Vec<BallOccurInfo> as ContextValue>::unwrap_spec(
                            pre[spec_prized_blue_occur_info_key()],
                        ),
                        <Vec<BallOccurInfo> as ContextValue>::unwrap_spec(
                            pre[spec_prized_red_occur_info_key()],
                        ),
                    ) {
                        (Some(b), Some(rd)) => {
                            &&& v1@.len() == b@.len()
                            &&& (forall|k: int|
                                0 <= k < v1@.len() ==> info_eq(
                                    #[trigger] v1@[k],
                                    b@[ranked_keys_desc(next_index_pairs(b@))[k].0 as int],
                                ))
                            &&& v2@.len() == rd@.len()
                            &&& (forall|k: int|
                                0 <= k < v2@.len() ==> info_eq(
                                    #[trigger] v2@[k],
                                    rd@[ranked_keys_desc(next_index_pairs(rd@))[k].0 as int],
                                ))
                        },
                        _ => false,
                    }
                })
}

/// The transition this stage makes on the attribute map: what `run` ensures
/// of the map, phrased over (pre, post) states.
pub open spec fn relationship_based_step(
    p: RelationshipBasedProcessor,
    pre: Map<(Seq<char>, int), AttrValue>,
    post: Map<(Seq<char>, int), AttrValue>,
    records: Seq<PrBusinessObj>,
    size: usize,
    r: Result<(), Error>,
) -> bool {
    &&& (r is Err ==> post == pre)
    &&& (!pre.contains_key(spec_most_possible_blue_key()) ==> (r matches Err(e)
                && e matches Error::ContextAttrNotExist(nm) && nm@
                == spec_most_possible_blue_name()))
    &&& (pre.contains_key(spec_most_possible_blue_key()) && !pre.contains_key(spec_most_possible_red_key()) ==> (r matches Err(e)
                && e matches Error::ContextAttrNotExist(nm) && nm@
                == spec_most_possible_red_name()))
    &&& (pre.contains_key(spec_most_possible_blue_key()) && pre.contains_key(spec_most_possible_red_key()) && !pre.contains_key(
                spec_blue_ball_relationships_key(),
            ) ==> (r matches Err(e) && e matches Error::ContextAttrNotExist(nm) && nm@
                == spec_blue_ball_relationships_name()))
    &&& (pre.contains_key(spec_most_possible_blue_key()) && pre.contains_key(spec_most_possible_red_key()) && blue_rels_shaped(pre)
                ==> r is Ok)
    &&& (r is Ok ==> exists|picks: Vec<FinalProcessorChainResult>|
                #![auto]
                {
                    &&& post == pre.insert(
                        spec_relationship_based_results_key(),
                        picks.wrap_spec(),
                    )
                    &&& picks@.len() <= 5
                    &&& forall|p: int|
                        0 <= p < picks@.len() ==> (#[trigger] picks@[p]).wf()
                            && crate::relationship_based::pick_sorted(picks@[p])
                })
}

/// The transition this stage makes on the attribute map: what `run` ensures
/// of the map, phrased over (pre, post) states.
pub open spec fn summary_top_blue_ball_relationship_step(
    p: SummaryTopBlueBallRelationshipProcessor,
    pre: Map<(Seq<char>, int), AttrValue>,
    post: Map<(Seq<char>, int), AttrValue>,
    records: Seq<PrBusinessObj>,
    size: usize,
    r: Result<(), Error>,
) -> bool {
    &&& (r is Err ==> post == pre)
    &&& (!pre.contains_key(spec_sorted_blue_counts_key()) ==> (r matches Err(e)
                && e matches Error::ContextAttrNotExist(nm) && nm@
                == spec_sorted_blue_counts_name()))
    &&& (pre.contains_key(spec_sorted_blue_counts_key()) && !pre.contains_key(spec_blue_ball_relationships_key()) ==> (r matches Err(e)
                && e matches Error::ContextAttrNotExist(nm) && nm@
                == spec_blue_ball_relationships_name()))
    &&& (({
                &&& pre.contains_key(spec_sorted_blue_counts_key())
                &&& blue_rels_shaped(pre)
                &&& match <Vec<(u8, usize)> as ContextValue>::unwrap_spec(
                    pre[spec_sorted_blue_counts_key()],
                ) {
                    Some(sc) => sc@.len() > 0 && 1 <= sc@[0].0 <= BLUE_BALL_COUNT && 1
                        <= sc@[sc@.len() - 1].0 <= BLUE_BALL_COUNT,
                    None => false,
                }
            }) ==> r is Ok)
    &&& (r is Ok ==> exists|picks: Vec<FinalProcessorChainResult>|
                #![auto]
                {
                    &&& post == pre.insert(
                        spec_top_blue_relationship_results_key(),
                        picks.wrap_spec(),
                    )
                    &&& picks@.len() == 4
                    &&& forall|p: int|
                        0 <= p < picks@.len() ==> (#[trigger] picks@[p]).wf()
                            && crate::relationship_based::pick_sorted(picks@[p])
                })
}

/// The transition this stage makes on the attribute map: what `run` ensures
/// of the map, phrased over (pre, post) states.
pub open spec fn summary_top_red_ball_relationship_step(
    p: SummaryTopRedBallRelationshipProcessor,
    pre: Map<(Seq<char>, int), AttrValue>,
    post: Map<(Seq<char>, int), AttrValue>,
    records: Seq<PrBusinessObj>,
    size: usize,
    r: Result<(), Error>,
) -> bool {
    &&& (r is Err ==> post == pre)
    &&& (!pre.contains_key(spec_sorted_blue_counts_key()) ==> (r matches Err(e)
                && e matches Error::ContextAttrNotExist(nm) && nm@
                == spec_sorted_blue_counts_name()))
    &&& (pre.contains_key(spec_sorted_blue_counts_key()) && !pre.contains_key(spec_sorted_red_counts_key()) ==> (r matches Err(e)
                && e matches Error::ContextAttrNotExist(nm) && nm@
                == spec_sorted_red_counts_name()))
    &&& (({
                &&& pre.contains_key(spec_sorted_blue_counts_key())
                &&& pre.contains_key(spec_sorted_red_counts_key())
                &&& match (
                    <Vec<(u8, usize)> as ContextValue>::unwrap_spec(
                        pre[spec_sorted_blue_counts_key()],
                    ),
                    <Vec<(u8, usize)> as ContextValue>::unwrap_spec(
                        pre[spec_sorted_red_counts_key()],
                    ),
                ) {
                    (Some(sb), Some(sr)) => {
                        &&& sr@.len() == RED_BALL_COUNT
                        &&& sb@.len() > 0
                        &&& 1 <= sb@[0].0 <= BLUE_BALL_COUNT
                        &&& 1 <= sb@[sb@.len() - 1].0 <= BLUE_BALL_COUNT
                        &&& (forall|k: int|
                            0 <= k < 6 ==> 1 <= (#[trigger] sr@[k]).0 <= RED_BALL_COUNT)
                        &&& (forall|k: int, l: int| 0 <= k < l < 6 ==> sr@[k].0 != sr@[l].0)
                        &&& (forall|k: int|
                            27 <= k < 33 ==> 1 <= (#[trigger] sr@[k]).0 <= RED_BALL_COUNT)
                        &&& (forall|k: int, l: int| 27 <= k < l < 33 ==> sr@[k].0 != sr@[l].0)
                    },
                    _ => false,
                }
            }) ==> r is Ok)
    &&& (r is Ok ==> exists|picks: Vec<FinalProcessorChainResult>|
                #![auto]
                {
                    &&& post == pre.insert(
                        spec_top_red_relationship_results_key(),
                        picks.wrap_spec(),
                    )
                    &&& picks@.len() == 4
                    &&& forall|p: int|
                        0 <= p < picks@.len() ==> (#[trigger] picks@[p]).wf()
                            && crate::relationship_based::pick_sorted(picks@[p])
                })
}

/// The base promise of every stage: the draw records and the requested result
/// size are read-only; a stage communicates only through the attributes.
pub trait Processor {
    /// The stage's name, for diagnostics.
    fn name(&self) -> (n: String);

    /// Runs the stage once over the shared context.
    fn execute(&self, context: &mut ProcessorContext) -> (r: Result<(), Error>)
        requires
            old(context).wf(),
        ensures
            final(context).wf(),
            final(context).spec_records() == old(context).spec_records(),
            final(context).spec_expect_result_size() == old(context).spec_expect_result_size(),
    ;
}

fn check_blue_rels(v: &Vec<BlueBallRelationship>) -> (b: bool)
    ensures
        b == (v@.len() == crate::domain::BLUE_BALL_COUNT && forall|i: int|
            0 <= i < v@.len() ==> (#[trigger] v@[i]).wf()),
{
    if v.len() != crate::domain::BLUE_BALL_COUNT as usize {
        return false;
    }
    let mut i: usize = 0;
    while i < v.len()
        invariant
            i <= v@.len(),
            forall|k: int| 0 <= k < i ==> (#[trigger] v@[k]).wf(),
        decreases v@.len() - i,
    {
        if v[i].related_red_ball_counts.len() != crate::domain::RED_BALL_COUNT as usize {
            return false;
        }
        i = i + 1;
    }
    true
}

fn check_occurrences(o: &BallOccurrences) -> (b: bool)
    ensures
        b == o.wf(),
{
    o.blue.len() == crate::domain::BLUE_BALL_COUNT as usize && o.red.len()
        == crate::domain::RED_BALL_COUNT as usize
}

fn check_following(v: &Vec<Vec<usize>>) -> (b: bool)
    ensures
        b == (v@.len() == crate::domain::BLUE_BALL_COUNT && forall|i: int|
            0 <= i < v@.len() ==> (#[trigger] v@[i])@.len() == crate::domain::BLUE_BALL_COUNT),
{
    if v.len() != crate::domain::BLUE_BALL_COUNT as usize {
        return false;
    }
    let mut i: usize = 0;
    while i < v.len()
        invariant
            i <= v@.len(),
            forall|k: int| 0 <= k < i ==> (#[trigger] v@[k])@.len()
                == crate::domain::BLUE_BALL_COUNT,
        decreases v@.len() - i,
    {
        if v[i].len() != crate::domain::BLUE_BALL_COUNT as usize {
            return false;
        }
        i = i + 1;
    }
    true
}

fn check_grouped(v: &Vec<GroupPatterns>) -> (b: bool)
    ensures
        b == (v@.len() == crate::domain::BLUE_BALL_COUNT && forall|gk: int, p: int, q: int|
            0 <= gk < v@.len() && 0 <= p < (#[trigger] v@[gk]).patterns@.len() && 0 <= q < (
            #[trigger] v@[gk].patterns@[p]).0@.len() ==> 1 <= #[trigger] v@[gk].patterns@[p].0@[q]
                <= crate::domain::RED_BALL_COUNT),
{
    if v.len() != crate::domain::BLUE_BALL_COUNT as usize {
        return false;
    }
    let mut gk: usize = 0;
    while gk < v.len()
        invariant
            gk <= v@.len(),
            forall|g2: int, p: int, q: int|
                0 <= g2 < gk && 0 <= p < (#[trigger] v@[g2]).patterns@.len() && 0 <= q < (
                #[trigger] v@[g2].patterns@[p]).0@.len() ==> 1 <= #[trigger] v@[g2].patterns@[p].0@[q]
                    <= crate::domain::RED_BALL_COUNT,
        decreases v@.len() - gk,
    {
        let mut p: usize = 0;
        while p < v[gk].patterns.len()
            invariant
                gk < v@.len(),
                p <= v@[gk as int].patterns@.len(),
                forall|p2: int, q: int|
                    0 <= p2 < p && 0 <= q < (#[trigger] v@[gk as int].patterns@[p2]).0@.len() ==> 1
                        <= #[trigger] v@[gk as int].patterns@[p2].0@[q]
                        <= crate::domain::RED_BALL_COUNT,
            decreases v@[gk as int].patterns@.len() - p,
        {
            let mut q: usize = 0;
            while q < v[gk].patterns[p].0.len()
                invariant
                    gk < v@.len(),
                    p < v@[gk as int].patterns@.len(),
                    q <= v@[gk as int].patterns@[p as int].0@.len(),
                    forall|q2: int|
                        0 <= q2 < q ==> 1 <= #[trigger] v@[gk as int].patterns@[p as int].0@[q2]
                            <= crate::domain::RED_BALL_COUNT,
                decreases v@[gk as int].patterns@[p as int].0@.len() - q,
            {
                let x = v[gk].patterns[p].0[q];
                if !(1 <= x && x <= crate::domain::RED_BALL_COUNT) {
                    return false;
                }
                q = q + 1;
            }
            p = p + 1;
        }
        gk = gk + 1;
    }
    true
}

impl OccurProcessor {
    /// Computes the occurrence statistics of the context's records and stores
    /// them under the occurrence attribute.
    pub fn run(&self, context: &mut ProcessorContext) -> (r: Result<(), Error>)
        requires
            old(context).wf(),
        ensures
            final(context).wf(),
            final(context).spec_records() == old(context).spec_records(),
            final(context).spec_expect_result_size() == old(context).spec_expect_result_size(),
            r is Err ==> *final(context) == *old(context),
            (forall|i: int|
                0 <= i < old(context).spec_records().len() ==> (#[trigger] old(
                    context,
                ).spec_records()[i]).seq < usize::MAX) ==> r is Ok,
            r is Ok ==> exists|v: BallOccurrences|
                #![auto]
                {
                    &&& final(context)@ == old(context)@.insert(
                        spec_ball_occurs_key(),
                        v.wrap_spec(),
                    )
                    &&& occurrences_of(v, old(context).spec_records())
                },            r is Err ==> *final(context) == *old(context),
            (forall|i: int|
                0 <= i < old(context).spec_records().len() ==> (#[trigger] old(
                    context,
                ).spec_records()[i]).seq < usize::MAX) ==> r is Ok,
            r is Ok ==> exists|v: BallOccurrences|
                #![auto]
                {
                    &&& final(context)@ == old(context)@.insert(
                        spec_ball_occurs_key(),
                        v.wrap_spec(),
                    )
                    &&& occurrences_of(v, old(context).spec_records())
                },
            occur_step(*self, old(context)@, final(context)@, old(context).spec_records(), old(context).spec_expect_result_size(), r),
    {
        let value = {
            let records = context.get_prize_records();
            if !crate::domain::check_seq_bounds(records) {
                return Err(Error::OtherFailure("a sequence index leaves no room above it".to_owned()));
            }
            crate::occur::analyze_ball_occurrences(records)
        };
        let ghost gv = value;
        context.set_attribute(&ball_occurs_attr(), value);
        proof {
            assert(final(context)@ == old(context)@.insert(spec_ball_occurs_key(), gv.wrap_spec()));
            assert(occurrences_of(gv, old(context).spec_records()));
        }
        Ok(())
    }
}

impl Processor for OccurProcessor {
    fn name(&self) -> (n: String) {
        "OccurProcessor".to_owned()
    }

    fn execute(&self, context: &mut ProcessorContext) -> (r: Result<(), Error>) {
        self.run(context)
    }
}

impl BlueBallFollowingOccurrenceProcessor {
    /// Counts the chronological blue-ball successors and stores the matrix.
    pub fn run(&self, context: &mut ProcessorContext) -> (r: Result<(), Error>)
        requires
            old(context).wf(),
        ensures
            final(context).wf(),
            final(context).spec_records() == old(context).spec_records(),
            final(context).spec_expect_result_size() == old(context).spec_expect_result_size(),
            r is Err ==> *final(context) == *old(context),
            crate::domain::records_wf(old(context).spec_records()) && old(
                context,
            ).spec_records().len() < usize::MAX ==> r is Ok,
            r is Ok ==> exists|v: Vec<Vec<usize>>|
                #![auto]
                {
                    &&& final(context)@ == old(context)@.insert(
                        spec_blue_following_key(),
                        v.wrap_spec(),
                    )
                    &&& following_counts_of(v@, old(context).spec_records())
                },            r is Err ==> *final(context) == *old(context),
            crate::domain::records_wf(old(context).spec_records()) && old(
                context,
            ).spec_records().len() < usize::MAX ==> r is Ok,
            r is Ok ==> exists|v: Vec<Vec<usize>>|
                #![auto]
                {
                    &&& final(context)@ == old(context)@.insert(
                        spec_blue_following_key(),
                        v.wrap_spec(),
                    )
                    &&& following_counts_of(v@, old(context).spec_records())
                },
            blue_ball_following_occurrence_step(*self, old(context)@, final(context)@, old(context).spec_records(), old(context).spec_expect_result_size(), r),
    {
        let value = {
            let records = context.get_prize_records();
            if !crate::domain::check_records_wf(records) {
                return Err(Error::OtherFailure("a record is malformed".to_owned()));
            }
            if records.len() == usize::MAX {
                return Err(Error::OtherFailure("too many records".to_owned()));
            }
            BlueBallFollowingOccurrenceProcessor::analyze(records)
        };
        let ghost gv = value;
        context.set_attribute(&blue_following_attr(), value);
        proof {
            assert(final(context)@ == old(context)@.insert(spec_blue_following_key(), gv.wrap_spec()));
        }
        Ok(())
    }
}

impl Processor for BlueBallFollowingOccurrenceProcessor {
    fn name(&self) -> (n: String) {
        "BlueBallFollowingOccurrenceProcessor".to_owned()
    }

    fn execute(&self, context: &mut ProcessorContext) -> (r: Result<(), Error>) {
        self.run(context)
    }
}

impl CountPrizedBlueballProcessor {
    /// Counts each blue ball's draws and stores the counters.
    pub fn run(&self, context: &mut ProcessorContext) -> (r: Result<(), Error>)
        requires
            old(context).wf(),
        ensures
            final(context).wf(),
            final(context).spec_records() == old(context).spec_records(),
            final(context).spec_expect_result_size() == old(context).spec_expect_result_size(),
            r is Err ==> *final(context) == *old(context),
            crate::domain::records_wf(old(context).spec_records()) && old(
                context,
            ).spec_records().len() < usize::MAX ==> r is Ok,
            r is Ok ==> exists|v: Vec<usize>|
                #![auto]
                {
                    &&& final(context)@ == old(context)@.insert(
                        spec_prized_blue_counts_key(),
                        v.wrap_spec(),
                    )
                    &&& blue_counts_of(v@, old(context).spec_records())
                },            r is Err ==> *final(context) == *old(context),
            crate::domain::records_wf(old(context).spec_records()) && old(
                context,
            ).spec_records().len() < usize::MAX ==> r is Ok,
            r is Ok ==> exists|v: Vec<usize>|
                #![auto]
                {
                    &&& final(context)@ == old(context)@.insert(
                        spec_prized_blue_counts_key(),
                        v.wrap_spec(),
                    )
                    &&& blue_counts_of(v@, old(context).spec_records())
                },
            count_prized_blueball_step(*self, old(context)@, final(context)@, old(context).spec_records(), old(context).spec_expect_result_size(), r),
    {
        let value = {
            let records = context.get_prize_records();
            if !crate::domain::check_records_wf(records) {
                return Err(Error::OtherFailure("a record is malformed".to_owned()));
            }
            if records.len() == usize::MAX {
                return Err(Error::OtherFailure("too many records".to_owned()));
            }
            CountPrizedBlueballProcessor::analyze(records)
        };
        let ghost gv = value;
        context.set_attribute(&prized_blue_counts_attr(), value);
        proof {
            assert(final(context)@ == old(context)@.insert(spec_prized_blue_counts_key(), gv.wrap_spec()));
        }
        Ok(())
    }
}

impl Processor for CountPrizedBlueballProcessor {
    fn name(&self) -> (n: String) {
        "CountPrizedBlueballProcessor".to_owned()
    }

    fn execute(&self, context: &mut ProcessorContext) -> (r: Result<(), Error>) {
        self.run(context)
    }
}

impl CountPrizedRedballProcessor {
    /// Counts each red ball's draws and stores the counters.
    pub fn run(&self, context: &mut ProcessorContext) -> (r: Result<(), Error>)
        requires
            old(context).wf(),
        ensures
            final(context).wf(),
            final(context).spec_records() == old(context).spec_records(),
            final(context).spec_expect_result_size() == old(context).spec_expect_result_size(),
            r is Err ==> *final(context) == *old(context),
            crate::domain::records_wf(old(context).spec_records()) && old(
                context,
            ).spec_records().len() < usize::MAX ==> r is Ok,
            r is Ok ==> exists|v: Vec<usize>|
                #![auto]
                {
                    &&& final(context)@ == old(context)@.insert(
                        spec_prized_red_counts_key(),
                        v.wrap_spec(),
                    )
                    &&& red_counts_of(v@, old(context).spec_records())
                },            r is Err ==> *final(context) == *old(context),
            crate::domain::records_wf(old(context).spec_records()) && old(
                context,
            ).spec_records().len() < usize::MAX ==> r is Ok,
            r is Ok ==> exists|v: Vec<usize>|
                #![auto]
                {
                    &&& final(context)@ == old(context)@.insert(
                        spec_prized_red_counts_key(),
                        v.wrap_spec(),
                    )
                    &&& red_counts_of(v@, old(context).spec_records())
                },
            count_prized_redball_step(*self, old(context)@, final(context)@, old(context).spec_records(), old(context).spec_expect_result_size(), r),
    {
        let value = {
            let records = context.get_prize_records();
            if !crate::domain::check_records_wf(records) {
                return Err(Error::OtherFailure("a record is malformed".to_owned()));
            }
            if records.len() == usize::MAX {
                return Err(Error::OtherFailure("too many records".to_owned()));
            }
            CountPrizedRedballProcessor::analyze(records)
        };
        let ghost gv = value;
        context.set_attribute(&prized_red_counts_attr(), value);
        proof {
            assert(final(context)@ == old(context)@.insert(spec_prized_red_counts_key(), gv.wrap_spec()));
        }
        Ok(())
    }
}

impl Processor for CountPrizedRedballProcessor {
    fn name(&self) -> (n: String) {
        "CountPrizedRedballProcessor".to_owned()
    }

    fn execute(&self, context: &mut ProcessorContext) -> (r: Result<(), Error>) {
        self.run(context)
    }
}

impl RelationshipProcessor {
    /// Counts every pairwise co-occurrence and stores both relationship maps.
    pub fn run(&self, context: &mut ProcessorContext) -> (r: Result<(), Error>)
        requires
            old(context).wf(),
        ensures
            final(context).wf(),
            final(context).spec_records() == old(context).spec_records(),
            final(context).spec_expect_result_size() == old(context).spec_expect_result_size(),
            r is Err ==> *final(context) == *old(context),
            crate::domain::records_wf(old(context).spec_records()) && old(
                context,
            ).spec_records().len() < usize::MAX ==> r is Ok,
            r is Ok ==> exists|v1: Vec<BlueBallRelationship>, v2: Vec<RedBallRelationship>|
                #![auto]
                {
                    &&& final(context)@ == old(context)@.insert(
                        spec_blue_ball_relationships_key(),
                        v1.wrap_spec(),
                    ).insert(spec_red_ball_relationships_key(), v2.wrap_spec())
                    &&& blue_counts_ok(v1@, old(context).spec_records())
                    &&& red_counts_ok(v2@, old(context).spec_records())
                },            r is Err ==> *final(context) == *old(context),
            crate::domain::records_wf(old(context).spec_records()) && old(
                context,
            ).spec_records().len() < usize::MAX ==> r is Ok,
            r is Ok ==> exists|v1: Vec<BlueBallRelationship>, v2: Vec<RedBallRelationship>|
                #![auto]
                {
                    &&& final(context)@ == old(context)@.insert(
                        spec_blue_ball_relationships_key(),
                        v1.wrap_spec(),
                    ).insert(spec_red_ball_relationships_key(), v2.wrap_spec())
                    &&& blue_counts_ok(v1@, old(context).spec_records())
                    &&& red_counts_ok(v2@, old(context).spec_records())
                },
            relationship_step(*self, old(context)@, final(context)@, old(context).spec_records(), old(context).spec_expect_result_size(), r),
    {
        let (first, second) = {
            let records = context.get_prize_records();
            if !crate::domain::check_records_wf(records) {
                return Err(Error::OtherFailure("a record is malformed".to_owned()));
            }
            if records.len() == usize::MAX {
                return Err(Error::OtherFailure("too many records".to_owned()));
            }
            RelationshipProcessor::analyze(records)
        };
        let ghost g1 = first;
        let ghost g2 = second;
        context.set_attribute(&blue_ball_relationships_attr(), first);
        context.set_attribute(&red_ball_relationships_attr(), second);
        proof {
            assert(final(context)@ == old(context)@.insert(
                spec_blue_ball_relationships_key(),
                g1.wrap_spec(),
            ).insert(spec_red_ball_relationships_key(), g2.wrap_spec()));
        }
        Ok(())
    }
}

impl Processor for RelationshipProcessor {
    fn name(&self) -> (n: String) {
        "RelationshipProcessor".to_owned()
    }

    fn execute(&self, context: &mut ProcessorContext) -> (r: Result<(), Error>) {
        self.run(context)
    }
}

impl BallRelationshipFpProcessor {
    /// Mines the grouped transactions of both pairings and stores both results.
    pub fn run(&self, context: &mut ProcessorContext) -> (r: Result<(), Error>)
        requires
            old(context).wf(),
        ensures
            final(context).wf(),
            final(context).spec_records() == old(context).spec_records(),
            final(context).spec_expect_result_size() == old(context).spec_expect_result_size(),
            r is Err ==> *final(context) == *old(context),
            crate::domain::records_wf(old(context).spec_records()) ==> r is Ok,
            r is Ok ==> exists|v1: Vec<GroupPatterns>, v2: Vec<GroupPatterns>|
                #![auto]
                {
                    &&& final(context)@ == old(context)@.insert(
                        spec_blue_red_fp_key(),
                        v1.wrap_spec(),
                    ).insert(spec_red_red_fp_key(), v2.wrap_spec())
                    &&& groups_ok(v1@, crate::domain::BLUE_BALL_COUNT as int, self.minimum_support)
                    &&& groups_ok(v2@, crate::domain::RED_BALL_COUNT as int, self.minimum_support)
                },            r is Err ==> *final(context) == *old(context),
            crate::domain::records_wf(old(context).spec_records()) ==> r is Ok,
            r is Ok ==> exists|v1: Vec<GroupPatterns>, v2: Vec<GroupPatterns>|
                #![auto]
                {
                    &&& final(context)@ == old(context)@.insert(
                        spec_blue_red_fp_key(),
                        v1.wrap_spec(),
                    ).insert(spec_red_red_fp_key(), v2.wrap_spec())
                    &&& groups_ok(v1@, crate::domain::BLUE_BALL_COUNT as int, self.minimum_support)
                    &&& groups_ok(v2@, crate::domain::RED_BALL_COUNT as int, self.minimum_support)
                },
            ball_relationship_fp_step(*self, old(context)@, final(context)@, old(context).spec_records(), old(context).spec_expect_result_size(), r),
    {
        let (first, second) = {
            let records = context.get_prize_records();
            if !crate::domain::check_records_wf(records) {
                return Err(Error::OtherFailure("a record is malformed".to_owned()));
            }
            (self.analyze_blue_red(records), self.analyze_red_red(records))
        };
        let ghost g1 = first;
        let ghost g2 = second;
        context.set_attribute(&blue_red_fp_attr(), first);
        context.set_attribute(&red_red_fp_attr(), second);
        proof {
            assert(final(context)@ == old(context)@.insert(
                spec_blue_red_fp_key(),
                g1.wrap_spec(),
            ).insert(spec_red_red_fp_key(), g2.wrap_spec()));
        }
        Ok(())
    }
}

impl Processor for BallRelationshipFpProcessor {
    fn name(&self) -> (n: String) {
        "BallRelationshipFpProcessor".to_owned()
    }

    fn execute(&self, context: &mut ProcessorContext) -> (r: Result<(), Error>) {
        self.run(context)
    }
}

impl BallOccurProcessor {
    /// Builds the extended occurrence records of both domains and stores them.
    pub fn run(&self, context: &mut ProcessorContext) -> (r: Result<(), Error>)
        requires
            old(context).wf(),
        ensures
            final(context).wf(),
            final(context).spec_records() == old(context).spec_records(),
            final(context).spec_expect_result_size() == old(context).spec_expect_result_size(),
            r is Err ==> *final(context) == *old(context),
            (forall|i: int|
                0 <= i < old(context).spec_records().len() ==> (#[trigger] old(
                    context,
                ).spec_records()[i]).seq < usize::MAX) ==> r is Ok,
            r is Ok ==> exists|v1: Vec<BallOccurInfo>, v2: Vec<BallOccurInfo>|
                #![auto]
                {
                    &&& final(context)@ == old(context)@.insert(
                        spec_prized_blue_occur_info_key(),
                        v1.wrap_spec(),
                    ).insert(spec_prized_red_occur_info_key(), v2.wrap_spec())
                    &&& blue_infos_of(v1@, old(context).spec_records())
                    &&& red_infos_of(v2@, old(context).spec_records())
                },            r is Err ==> *final(context) == *old(context),
            (forall|i: int|
                0 <= i < old(context).spec_records().len() ==> (#[trigger] old(
                    context,
                ).spec_records()[i]).seq < usize::MAX) ==> r is Ok,
            r is Ok ==> exists|v1: Vec<BallOccurInfo>, v2: Vec<BallOccurInfo>|
                #![auto]
                {
                    &&& final(context)@ == old(context)@.insert(
                        spec_prized_blue_occur_info_key(),
                        v1.wrap_spec(),
                    ).insert(spec_prized_red_occur_info_key(), v2.wrap_spec())
                    &&& blue_infos_of(v1@, old(context).spec_records())
                    &&& red_infos_of(v2@, old(context).spec_records())
                },
            ball_occur_step(*self, old(context)@, final(context)@, old(context).spec_records(), old(context).spec_expect_result_size(), r),
    {
        let (first, second) = {
            let records = context.get_prize_records();
            if !crate::domain::check_seq_bounds(records) {
                return Err(Error::OtherFailure("a sequence index leaves no room above it".to_owned()));
            }
            BallOccurProcessor::analyze(records)
        };
        let ghost g1 = first;
        let ghost g2 = second;
        context.set_attribute(&prized_blue_occur_info_attr(), first);
        context.set_attribute(&prized_red_occur_info_attr(), second);
        proof {
            assert(final(context)@ == old(context)@.insert(
                spec_prized_blue_occur_info_key(),
                g1.wrap_spec(),
            ).insert(spec_prized_red_occur_info_key(), g2.wrap_spec()));
        }
        Ok(())
    }
}

impl Processor for BallOccurProcessor {
    fn name(&self) -> (n: String) {
        "BallOccurProcessor".to_owned()
    }

    fn execute(&self, context: &mut ProcessorContext) -> (r: Result<(), Error>) {
        self.run(context)
    }
}

impl BallOccurIntervalProcessor {
    /// Collects the raw interval samples of both domains and stores them.
    pub fn run(&self, context: &mut ProcessorContext) -> (r: Result<(), Error>)
        requires
            old(context).wf(),
        ensures
            final(context).wf(),
            final(context).spec_records() == old(context).spec_records(),
            final(context).spec_expect_result_size() == old(context).spec_expect_result_size(),
            r is Err ==> *final(context) == *old(context),
            (forall|i: int|
                0 <= i < old(context).spec_records().len() ==> (#[trigger] old(
                    context,
                ).spec_records()[i]).seq < usize::MAX) ==> r is Ok,
            r is Ok ==> exists|v1: Vec<BallOccurInterval>, v2: Vec<BallOccurInterval>|
                #![auto]
                {
                    &&& final(context)@ == old(context)@.insert(
                        spec_blue_intervals_key(),
                        v1.wrap_spec(),
                    ).insert(spec_red_intervals_key(), v2.wrap_spec())
                    &&& blue_intervals_of(v1@, old(context).spec_records())
                    &&& red_intervals_of(v2@, old(context).spec_records())
                },            r is Err ==> *final(context) == *old(context),
            (forall|i: int|
                0 <= i < old(context).spec_records().len() ==> (#[trigger] old(
                    context,
                ).spec_records()[i]).seq < usize::MAX) ==> r is Ok,
            r is Ok ==> exists|v1: Vec<BallOccurInterval>, v2: Vec<BallOccurInterval>|
                #![auto]
                {
                    &&& final(context)@ == old(context)@.insert(
                        spec_blue_intervals_key(),
                        v1.wrap_spec(),
                    ).insert(spec_red_intervals_key(), v2.wrap_spec())
                    &&& blue_intervals_of(v1@, old(context).spec_records())
                    &&& red_intervals_of(v2@, old(context).spec_records())
                },
            ball_occur_interval_step(*self, old(context)@, final(context)@, old(context).spec_records(), old(context).spec_expect_result_size(), r),
    {
        let (first, second) = {
            let records = context.get_prize_records();
            if !crate::domain::check_seq_bounds(records) {
                return Err(Error::OtherFailure("a sequence index leaves no room above it".to_owned()));
            }
            BallOccurIntervalProcessor::analyze(records)
        };
        let ghost g1 = first;
        let ghost g2 = second;
        context.set_attribute(&blue_intervals_attr(), first);
        context.set_attribute(&red_intervals_attr(), second);
        proof {
            assert(final(context)@ == old(context)@.insert(
                spec_blue_intervals_key(),
                g1.wrap_spec(),
            ).insert(spec_red_intervals_key(), g2.wrap_spec()));
        }
        Ok(())
    }
}

impl Processor for BallOccurIntervalProcessor {
    fn name(&self) -> (n: String) {
        "BallOccurIntervalProcessor".to_owned()
    }

    fn execute(&self, context: &mut ProcessorContext) -> (r: Result<(), Error>) {
        self.run(context)
    }
}

impl PrepareProcessor {
    /// Builds the presence columns of both domains and stores them.
    pub fn run(&self, context: &mut ProcessorContext) -> (r: Result<(), Error>)
        requires
            old(context).wf(),
        ensures
            final(context).wf(),
            final(context).spec_records() == old(context).spec_records(),
            final(context).spec_expect_result_size() == old(context).spec_expect_result_size(),
            r is Err ==> *final(context) == *old(context),
            r is Ok,
            r is Ok ==> exists|v1: Vec<Vec<bool>>, v2: Vec<Vec<bool>>|
                #![auto]
                {
                    &&& final(context)@ == old(context)@.insert(
                        spec_blue_columns_key(),
                        v1.wrap_spec(),
                    ).insert(spec_red_columns_key(), v2.wrap_spec())
                    &&& blue_columns_of(v1@, old(context).spec_records())
                    &&& red_columns_of(v2@, old(context).spec_records())
                },            r is Err ==> *final(context) == *old(context),
            r is Ok,
            r is Ok ==> exists|v1: Vec<Vec<bool>>, v2: Vec<Vec<bool>>|
                #![auto]
                {
                    &&& final(context)@ == old(context)@.insert(
                        spec_blue_columns_key(),
                        v1.wrap_spec(),
                    ).insert(spec_red_columns_key(), v2.wrap_spec())
                    &&& blue_columns_of(v1@, old(context).spec_records())
                    &&& red_columns_of(v2@, old(context).spec_records())
                },
            prepare_step(*self, old(context)@, final(context)@, old(context).spec_records(), old(context).spec_expect_result_size(), r),
    {
        let (first, second) = {
            let records = context.get_prize_records();

            PrepareProcessor::analyze(records)
        };
        let ghost g1 = first;
        let ghost g2 = second;
        context.set_attribute(&blue_columns_attr(), first);
        context.set_attribute(&red_columns_attr(), second);
        proof {
            assert(final(context)@ == old(context)@.insert(
                spec_blue_columns_key(),
                g1.wrap_spec(),
            ).insert(spec_red_columns_key(), g2.wrap_spec()));
        }
        Ok(())
    }
}

impl Processor for PrepareProcessor {
    fn name(&self) -> (n: String) {
        "PrepareProcessor".to_owned()
    }

    fn execute(&self, context: &mut ProcessorContext) -> (r: Result<(), Error>) {
        self.run(context)
    }
}


/// Whether the occurrence attribute is present and well-shaped for the
/// synthesizer.
pub open spec fn summary_inputs_shaped(m: Map<(Seq<char>, int), AttrValue>) -> bool {
    &&& m.contains_key(spec_ball_occurs_key())
    &&& match BallOccurrences::unwrap_spec(m[spec_ball_occurs_key()]) {
        Some(occs) => occs.wf(),
        None => false,
    }
}

/// Whether everything the synthesizer needs is on the blackboard and every
/// candidate blue ball's red pool is large enough, so that synthesis is owed
/// to succeed.
pub open spec fn summary_inputs_ready(
    m: Map<(Seq<char>, int), AttrValue>,
    expect_result_size: usize,
) -> bool {
    &&& summary_inputs_shaped(m)
    &&& m.contains_key(spec_blue_ball_relationships_key())
    &&& match (
        BallOccurrences::unwrap_spec(m[spec_ball_occurs_key()]),
        <Vec<BlueBallRelationship> as ContextValue>::unwrap_spec(
            m[spec_blue_ball_relationships_key()],
        ),
    ) {
        (Some(occs), Some(rels)) => {
            &&& rels@.len() == crate::domain::BLUE_BALL_COUNT
            &&& (forall|i: int| 0 <= i < rels@.len() ==> (#[trigger] rels@[i]).wf())
            &&& (forall|b: u8|
                crate::summary::spec_candidate_pool(occs.blue@, expect_result_size).contains(b)
                    ==> crate::summary::spec_red_pool(
                    occs.red@,
                    rels@[b - 1].related_red_ball_counts@,
                ).len() >= 6)
        },
        _ => false,
    }
}

impl SummaryProcessor {
    /// Reads the occurrence statistics and the blue relationships off the
    /// blackboard, synthesizes the final picks and stores them. Fails when
    /// either attribute is missing or malformed, or when a selected blue
    /// ball's red pool is too small.
    pub fn run(&self, context: &mut ProcessorContext) -> (r: Result<(), Error>)
        requires
            old(context).wf(),
        ensures
            final(context).wf(),
            final(context).spec_records() == old(context).spec_records(),
            final(context).spec_expect_result_size() == old(context).spec_expect_result_size(),
            r is Err ==> *final(context) == *old(context),
            !old(context)@.contains_key(spec_ball_occurs_key()) ==> (r matches Err(e)
                && e matches Error::ContextAttrNotExist(nm) && nm@ == spec_ball_occurs_name()),
            summary_inputs_shaped(old(context)@) && !old(context)@.contains_key(
                spec_blue_ball_relationships_key(),
            ) ==> (r matches Err(e) && e matches Error::ContextAttrNotExist(nm) && nm@
                == spec_blue_ball_relationships_name()),
            summary_inputs_ready(old(context)@, old(context).spec_expect_result_size()) ==> r is Ok,
            r is Ok ==> exists|picks: Vec<FinalProcessorChainResult>|
                #![auto]
                {
                    &&& final(context)@ == old(context)@.insert(
                        spec_summaries_key(),
                        picks.wrap_spec(),
                    )
                    &&& match (
                        BallOccurrences::unwrap_spec(old(context)@[spec_ball_occurs_key()]),
                        <Vec<BlueBallRelationship> as ContextValue>::unwrap_spec(
                            old(context)@[spec_blue_ball_relationships_key()],
                        ),
                    ) {
                        (Some(occs), Some(rels)) => crate::summary::summary_picks_ok(
                            picks@,
                            occs,
                            rels@,
                            old(context).spec_expect_result_size(),
                        ),
                        _ => false,
                    }
                },            r is Err ==> *final(context) == *old(context),
            !old(context)@.contains_key(spec_ball_occurs_key()) ==> (r matches Err(e)
                && e matches Error::ContextAttrNotExist(nm) && nm@ == spec_ball_occurs_name()),
            summary_inputs_shaped(old(context)@) && !old(context)@.contains_key(
                spec_blue_ball_relationships_key(),
            ) ==> (r matches Err(e) && e matches Error::ContextAttrNotExist(nm) && nm@
                == spec_blue_ball_relationships_name()),
            summary_inputs_ready(old(context)@, old(context).spec_expect_result_size()) ==> r is Ok,
            r is Ok ==> exists|picks: Vec<FinalProcessorChainResult>|
                #![auto]
                {
                    &&& final(context)@ == old(context)@.insert(
                        spec_summaries_key(),
                        picks.wrap_spec(),
                    )
                    &&& match (
                        BallOccurrences::unwrap_spec(old(context)@[spec_ball_occurs_key()]),
                        <Vec<BlueBallRelationship> as ContextValue>::unwrap_spec(
                            old(context)@[spec_blue_ball_relationships_key()],
                        ),
                    ) {
                        (Some(occs), Some(rels)) => crate::summary::summary_picks_ok(
                            picks@,
                            occs,
                            rels@,
                            old(context).spec_expect_result_size(),
                        ),
                        _ => false,
                    }
                },
            summary_step(*self, old(context)@, final(context)@, old(context).spec_records(), old(context).spec_expect_result_size(), r),
    {
        let ghost mut gocc: BallOccurrences = arbitrary();
        let ghost mut grels: Seq<BlueBallRelationship> = arbitrary();
        let size = context.expect_result_size();
        let picks = {
            let occs = match context.get_attribute::<BallOccurrences>(&ball_occurs_attr()) {
                Some(o) => o,
                None => {
                    return Err(Error::ContextAttrNotExist("BALL_OCCURS".to_owned()));
                },
            };
            if !check_occurrences(occs) {
                return Err(Error::OtherFailure("the occurrence map is malformed".to_owned()));
            }
            let rels = match context.get_attribute::<Vec<BlueBallRelationship>>(
                &blue_ball_relationships_attr(),
            ) {
                Some(v) => v,
                None => {
                    return Err(Error::ContextAttrNotExist("BLUE_BALL_RELATIONSHIPS".to_owned()));
                },
            };
            if !check_blue_rels(rels) {
                return Err(Error::OtherFailure("the relationship map is malformed".to_owned()));
            }
            proof {
                gocc = *occs;
                grels = rels@;
            }
            match SummaryProcessor::synthesize(occs, rels, size) {
                Ok(p) => p,
                Err(e) => {
                    return Err(e);
                },
            }
        };
        let ghost gpicks = picks;
        context.set_attribute(&summaries_attr(), picks);
        proof {
            assert(final(context)@ == old(context)@.insert(
                spec_summaries_key(),
                gpicks.wrap_spec(),
            ));
            assert(BallOccurrences::unwrap_spec(old(context)@[spec_ball_occurs_key()])
                == Some(gocc));
            assert(<Vec<BlueBallRelationship> as ContextValue>::unwrap_spec(
                old(context)@[spec_blue_ball_relationships_key()],
            ) matches Some(v) && v@ == grels);
        }
        Ok(())
    }
}

impl Processor for SummaryProcessor {
    fn name(&self) -> (n: String) {
        "SummaryProcessor".to_owned()
    }

    fn execute(&self, context: &mut ProcessorContext) -> (r: Result<(), Error>) {
        self.run(context)
    }
}


/// Whether everything the final-recommendation stage needs is in place, so
/// that it is owed to succeed: well-formed, non-empty records, both
/// attributes present and well-shaped, and every candidate successor's mined
/// group able to yield a full pick.
pub open spec fn final_inputs_ready(
    m: Map<(Seq<char>, int), AttrValue>,
    records: Seq<PrBusinessObj>,
) -> bool {
    &&& crate::domain::records_wf(records)
    &&& records.len() > 0
    &&& m.contains_key(spec_blue_following_key())
    &&& m.contains_key(spec_blue_red_fp_key())
    &&& match (
        <Vec<Vec<usize>> as ContextValue>::unwrap_spec(m[spec_blue_following_key()]),
        <Vec<GroupPatterns> as ContextValue>::unwrap_spec(m[spec_blue_red_fp_key()]),
    ) {
        (Some(following), Some(grouped)) => {
            &&& following@.len() == BLUE_BALL_COUNT
            &&& (forall|c: int|
                0 <= c < following@.len() ==> (#[trigger] following@[c])@.len()
                    == BLUE_BALL_COUNT)
            &&& grouped@.len() == BLUE_BALL_COUNT
            &&& (forall|gk: int, p: int, q: int|
                0 <= gk < grouped@.len() && 0 <= p < (#[trigger] grouped@[gk]).patterns@.len()
                    && 0 <= q < (#[trigger] grouped@[gk].patterns@[p]).0@.len() ==> 1
                    <= #[trigger] grouped@[gk].patterns@[p].0@[q] <= RED_BALL_COUNT)
            &&& (forall|b: int|
                0 <= b < BLUE_BALL_COUNT
                    && #[trigger] following@[crate::mining::chronological_blues(records).last()
                    - 1]@[b] > 0 ==> grouped@[b].patterns@.len() > 0
                    && crate::final_result::spec_group_reds(grouped@[b]).len() >= 6)
        },
        _ => false,
    }
}

impl FinalResultsProcessor {
    /// Reads the successor counts and the mined blue groups off the
    /// blackboard, builds the final recommendations over the context's
    /// records and stores them. Fails when either attribute is missing or
    /// malformed, when the history is empty or malformed, or when a selected
    /// blue ball yields no full pick.
    pub fn run(&self, context: &mut ProcessorContext) -> (r: Result<(), Error>)
        requires
            old(context).wf(),
        ensures
            final(context).wf(),
            final(context).spec_records() == old(context).spec_records(),
            final(context).spec_expect_result_size() == old(context).spec_expect_result_size(),
            r is Err ==> *final(context) == *old(context),
            !crate::domain::records_wf(old(context).spec_records()) ==> (r matches Err(e)
                && e is OtherFailure),
            crate::domain::records_wf(old(context).spec_records()) && !old(
                context,
            )@.contains_key(spec_blue_following_key()) ==> (r matches Err(e)
                && e matches Error::ContextAttrNotExist(nm) && nm@ == spec_blue_following_name()),
            ({
                &&& crate::domain::records_wf(old(context).spec_records())
                &&& old(context)@.contains_key(spec_blue_following_key())
                &&& match <Vec<Vec<usize>> as ContextValue>::unwrap_spec(
                    old(context)@[spec_blue_following_key()],
                ) {
                    Some(f) => f@.len() == BLUE_BALL_COUNT && (forall|c: int|
                        0 <= c < f@.len() ==> (#[trigger] f@[c])@.len() == BLUE_BALL_COUNT),
                    None => false,
                }
                &&& !old(context)@.contains_key(spec_blue_red_fp_key())
            }) ==> (r matches Err(e) && e matches Error::ContextAttrNotExist(nm) && nm@
                == spec_blue_red_fp_name()),
            final_inputs_ready(old(context)@, old(context).spec_records()) ==> r is Ok,
            r is Ok ==> exists|picks: Vec<FinalProcessorChainResult>|
                #![auto]
                {
                    &&& final(context)@ == old(context)@.insert(
                        spec_final_results_key(),
                        picks.wrap_spec(),
                    )
                    &&& match (
                        <Vec<Vec<usize>> as ContextValue>::unwrap_spec(
                            old(context)@[spec_blue_following_key()],
                        ),
                        <Vec<GroupPatterns> as ContextValue>::unwrap_spec(
                            old(context)@[spec_blue_red_fp_key()],
                        ),
                    ) {
                        (Some(following), Some(grouped)) => crate::final_result::final_picks_ok(
                            picks@,
                            old(context).spec_records(),
                            following@,
                            grouped@,
                            self.final_result_size,
                        ),
                        _ => false,
                    }
                },            r is Err ==> *final(context) == *old(context),
            !crate::domain::records_wf(old(context).spec_records()) ==> (r matches Err(e)
                && e is OtherFailure),
            crate::domain::records_wf(old(context).spec_records()) && !old(
                context,
            )@.contains_key(spec_blue_following_key()) ==> (r matches Err(e)
                && e matches Error::ContextAttrNotExist(nm) && nm@ == spec_blue_following_name()),
            ({
                &&& crate::domain::records_wf(old(context).spec_records())
                &&& old(context)@.contains_key(spec_blue_following_key())
                &&& match <Vec<Vec<usize>> as ContextValue>::unwrap_spec(
                    old(context)@[spec_blue_following_key()],
                ) {
                    Some(f) => f@.len() == BLUE_BALL_COUNT && (forall|c: int|
                        0 <= c < f@.len() ==> (#[trigger] f@[c])@.len() == BLUE_BALL_COUNT),
                    None => false,
                }
                &&& !old(context)@.contains_key(spec_blue_red_fp_key())
            }) ==> (r matches Err(e) && e matches Error::ContextAttrNotExist(nm) && nm@
                == spec_blue_red_fp_name()),
            final_inputs_ready(old(context)@, old(context).spec_records()) ==> r is Ok,
            r is Ok ==> exists|picks: Vec<FinalProcessorChainResult>|
                #![auto]
                {
                    &&& final(context)@ == old(context)@.insert(
                        spec_final_results_key(),
                        picks.wrap_spec(),
                    )
                    &&& match (
                        <Vec<Vec<usize>> as ContextValue>::unwrap_spec(
                            old(context)@[spec_blue_following_key()],
                        ),
                        <Vec<GroupPatterns> as ContextValue>::unwrap_spec(
                            old(context)@[spec_blue_red_fp_key()],
                        ),
                    ) {
                        (Some(following), Some(grouped)) => crate::final_result::final_picks_ok(
                            picks@,
                            old(context).spec_records(),
                            following@,
                            grouped@,
                            self.final_result_size,
                        ),
                        _ => false,
                    }
                },
            final_results_step(*self, old(context)@, final(context)@, old(context).spec_records(), old(context).spec_expect_result_size(), r),
    {
        let picks = {
            let records = context.get_prize_records();
            if !crate::domain::check_records_wf(records) {
                return Err(Error::OtherFailure("a record is malformed".to_owned()));
            }
            let following = match context.get_attribute::<Vec<Vec<usize>>>(
                &blue_following_attr(),
            ) {
                Some(v) => v,
                None => {
                    return Err(
                        Error::ContextAttrNotExist("BLUE_BALL_FOLLOWING_OCCURRENCES".to_owned()),
                    );
                },
            };
            if !check_following(following) {
                return Err(Error::OtherFailure("the successor counts are malformed".to_owned()));
            }
            let grouped = match context.get_attribute::<Vec<GroupPatterns>>(&blue_red_fp_attr()) {
                Some(v) => v,
                None => {
                    return Err(
                        Error::ContextAttrNotExist(
                            "BLUE_BALL_AND_RED_BALL_RELATIONSHIP_FP".to_owned(),
                        ),
                    );
                },
            };
            if !check_grouped(grouped) {
                return Err(Error::OtherFailure("the mined groups are malformed".to_owned()));
            }
            match self.synthesize(records, following, grouped) {
                Ok(p) => p,
                Err(e) => {
                    return Err(e);
                },
            }
        };
        let ghost gpicks = picks;
        context.set_attribute(&final_results_attr(), picks);
        proof {
            assert(final(context)@ == old(context)@.insert(
                spec_final_results_key(),
                gpicks.wrap_spec(),
            ));
        }
        Ok(())
    }
}

impl Processor for FinalResultsProcessor {
    fn name(&self) -> (n: String) {
        "FinalResultsProcessor".to_owned()
    }

    fn execute(&self, context: &mut ProcessorContext) -> (r: Result<(), Error>) {
        self.run(context)
    }
}


/// Whether the records are well-formed and both attributes the normalization
/// stage reads are present and well-shaped, so that it is owed to succeed.
pub open spec fn normalize_inputs_ready(
    m: Map<(Seq<char>, int), AttrValue>,
    records: Seq<PrBusinessObj>,
) -> bool {
    &&& crate::domain::records_wf(records)
    &&& summary_inputs_shaped(m)
    &&& m.contains_key(spec_blue_red_fp_key())
    &&& match <Vec<GroupPatterns> as ContextValue>::unwrap_spec(m[spec_blue_red_fp_key()]) {
        Some(grouped) => grouped@.len() == crate::domain::BLUE_BALL_COUNT && (forall|
            gk: int,
            p: int,
            q: int,
        |
            0 <= gk < grouped@.len() && 0 <= p < (#[trigger] grouped@[gk]).patterns@.len() && 0
                <= q < (#[trigger] grouped@[gk].patterns@[p]).0@.len() ==> 1
                <= #[trigger] grouped@[gk].patterns@[p].0@[q] <= crate::domain::RED_BALL_COUNT),
        None => false,
    }
}

impl GenerateNormalizeDataProcessor {
    /// Reads the occurrence statistics and the mined blue groups, builds one
    /// normalized row per record and stores them.
    pub fn run(&self, context: &mut ProcessorContext) -> (r: Result<(), Error>)
        requires
            old(context).wf(),
        ensures
            final(context).wf(),
            final(context).spec_records() == old(context).spec_records(),
            final(context).spec_expect_result_size() == old(context).spec_expect_result_size(),
            r is Err ==> *final(context) == *old(context),
            crate::domain::records_wf(old(context).spec_records()) && !old(
                context,
            )@.contains_key(spec_ball_occurs_key()) ==> (r matches Err(e)
                && e matches Error::ContextAttrNotExist(nm) && nm@ == spec_ball_occurs_name()),
            crate::domain::records_wf(old(context).spec_records()) && summary_inputs_shaped(
                old(context)@,
            ) && !old(context)@.contains_key(spec_blue_red_fp_key()) ==> (r matches Err(e)
                && e matches Error::ContextAttrNotExist(nm) && nm@ == spec_blue_red_fp_name()),
            normalize_inputs_ready(old(context)@, old(context).spec_records()) ==> r is Ok,
            r is Ok ==> exists|rows: Vec<NormalizedRow>|
                #![auto]
                {
                    &&& final(context)@ == old(context)@.insert(
                        spec_normalized_rows_key(),
                        rows.wrap_spec(),
                    )
                    &&& rows@.len() == old(context).spec_records().len()
                    &&& match (
                        BallOccurrences::unwrap_spec(old(context)@[spec_ball_occurs_key()]),
                        <Vec<GroupPatterns> as ContextValue>::unwrap_spec(
                            old(context)@[spec_blue_red_fp_key()],
                        ),
                    ) {
                        (Some(occs), Some(grouped)) => forall|k: int|
                            0 <= k < rows@.len() ==> row_matches(
                                #[trigger] rows@[k],
                                old(context).spec_records()[k],
                                occs,
                                grouped@,
                            ),
                        _ => false,
                    }
                },            r is Err ==> *final(context) == *old(context),
            crate::domain::records_wf(old(context).spec_records()) && !old(
                context,
            )@.contains_key(spec_ball_occurs_key()) ==> (r matches Err(e)
                && e matches Error::ContextAttrNotExist(nm) && nm@ == spec_ball_occurs_name()),
            crate::domain::records_wf(old(context).spec_records()) && summary_inputs_shaped(
                old(context)@,
            ) && !old(context)@.contains_key(spec_blue_red_fp_key()) ==> (r matches Err(e)
                && e matches Error::ContextAttrNotExist(nm) && nm@ == spec_blue_red_fp_name()),
            normalize_inputs_ready(old(context)@, old(context).spec_records()) ==> r is Ok,
            r is Ok ==> exists|rows: Vec<NormalizedRow>|
                #![auto]
                {
                    &&& final(context)@ == old(context)@.insert(
                        spec_normalized_rows_key(),
                        rows.wrap_spec(),
                    )
                    &&& rows@.len() == old(context).spec_records().len()
                    &&& match (
                        BallOccurrences::unwrap_spec(old(context)@[spec_ball_occurs_key()]),
                        <Vec<GroupPatterns> as ContextValue>::unwrap_spec(
                            old(context)@[spec_blue_red_fp_key()],
                        ),
                    ) {
                        (Some(occs), Some(grouped)) => forall|k: int|
                            0 <= k < rows@.len() ==> row_matches(
                                #[trigger] rows@[k],
                                old(context).spec_records()[k],
                                occs,
                                grouped@,
                            ),
                        _ => false,
                    }
                },
            generate_normalize_data_step(*self, old(context)@, final(context)@, old(context).spec_records(), old(context).spec_expect_result_size(), r),
    {
        let rows = {
            let records = context.get_prize_records();
            if !crate::domain::check_records_wf(records) {
                return Err(Error::OtherFailure("a record is malformed".to_owned()));
            }
            let occs = match context.get_attribute::<BallOccurrences>(&ball_occurs_attr()) {
                Some(o) => o,
                None => {
                    return Err(Error::ContextAttrNotExist("BALL_OCCURS".to_owned()));
                },
            };
            if !check_occurrences(occs) {
                return Err(Error::OtherFailure("the occurrence map is malformed".to_owned()));
            }
            let grouped = match context.get_attribute::<Vec<GroupPatterns>>(&blue_red_fp_attr()) {
                Some(v) => v,
                None => {
                    return Err(
                        Error::ContextAttrNotExist(
                            "BLUE_BALL_AND_RED_BALL_RELATIONSHIP_FP".to_owned(),
                        ),
                    );
                },
            };
            if !check_grouped(grouped) {
                return Err(Error::OtherFailure("the mined groups are malformed".to_owned()));
            }
            GenerateNormalizeDataProcessor::analyze(records, occs, grouped)
        };
        let ghost grows = rows;
        context.set_attribute(&normalized_rows_attr(), rows);
        proof {
            assert(final(context)@ == old(context)@.insert(
                spec_normalized_rows_key(),
                grows.wrap_spec(),
            ));
        }
        Ok(())
    }
}

impl Processor for GenerateNormalizeDataProcessor {
    fn name(&self) -> (n: String) {
        "GenerateNormalizeDataProcessor".to_owned()
    }

    fn execute(&self, context: &mut ProcessorContext) -> (r: Result<(), Error>) {
        self.run(context)
    }
}

impl SummaryTopCountsProcessor {
    /// Reads both count attributes, ranks each by count descending and
    /// stores the ranked pair lists.
    pub fn run(&self, context: &mut ProcessorContext) -> (r: Result<(), Error>)
        requires
            old(context).wf(),
        ensures
            final(context).wf(),
            final(context).spec_records() == old(context).spec_records(),
            final(context).spec_expect_result_size() == old(context).spec_expect_result_size(),
            r is Err ==> *final(context) == *old(context),
            !old(context)@.contains_key(spec_prized_blue_counts_key()) ==> (r matches Err(e)
                && e matches Error::ContextAttrNotExist(nm)
                && nm@ == spec_prized_blue_counts_name()),
            old(context)@.contains_key(spec_prized_blue_counts_key()) && !old(
                context,
            )@.contains_key(spec_prized_red_counts_key()) ==> (r matches Err(e)
                && e matches Error::ContextAttrNotExist(nm)
                && nm@ == spec_prized_red_counts_name()),
            ({
                &&& old(context)@.contains_key(spec_prized_blue_counts_key())
                &&& old(context)@.contains_key(spec_prized_red_counts_key())
                &&& match (
                    <Vec<usize> as ContextValue>::unwrap_spec(
                        old(context)@[spec_prized_blue_counts_key()],
                    ),
                    <Vec<usize> as ContextValue>::unwrap_spec(
                        old(context)@[spec_prized_red_counts_key()],
                    ),
                ) {
                    (Some(bc), Some(rc)) => bc@.len() <= 254 && rc@.len() <= 254,
                    _ => false,
                }
            }) ==> r is Ok,
            r is Ok ==> exists|v1: Vec<(u8, usize)>, v2: Vec<(u8, usize)>|
                #![auto]
                {
                    &&& final(context)@ == old(context)@.insert(
                        spec_sorted_blue_counts_key(),
                        v1.wrap_spec(),
                    ).insert(spec_sorted_red_counts_key(), v2.wrap_spec())
                    &&& match (
                        <Vec<usize> as ContextValue>::unwrap_spec(
                            old(context)@[spec_prized_blue_counts_key()],
                        ),
                        <Vec<usize> as ContextValue>::unwrap_spec(
                            old(context)@[spec_prized_red_counts_key()],
                        ),
                    ) {
                        (Some(bc), Some(rc)) => {
                            &&& sorted_by_count_desc(v1@)
                            &&& v1@.to_multiset() == crate::counts::ball_count_pairs(
                                bc@,
                            ).to_multiset()
                            &&& sorted_by_count_desc(v2@)
                            &&& v2@.to_multiset() == crate::counts::ball_count_pairs(
                                rc@,
                            ).to_multiset()
                        },
                        _ => false,
                    }
                },            r is Err ==> *final(context) == *old(context),
            !old(context)@.contains_key(spec_prized_blue_counts_key()) ==> (r matches Err(e)
                && e matches Error::ContextAttrNotExist(nm)
                && nm@ == spec_prized_blue_counts_name()),
            old(context)@.contains_key(spec_prized_blue_counts_key()) && !old(
                context,
            )@.contains_key(spec_prized_red_counts_key()) ==> (r matches Err(e)
                && e matches Error::ContextAttrNotExist(nm)
                && nm@ == spec_prized_red_counts_name()),
            ({
                &&& old(context)@.contains_key(spec_prized_blue_counts_key())
                &&& old(context)@.contains_key(spec_prized_red_counts_key())
                &&& match (
                    <Vec<usize> as ContextValue>::unwrap_spec(
                        old(context)@[spec_prized_blue_counts_key()],
                    ),
                    <Vec<usize> as ContextValue>::unwrap_spec(
                        old(context)@[spec_prized_red_counts_key()],
                    ),
                ) {
                    (Some(bc), Some(rc)) => bc@.len() <= 254 && rc@.len() <= 254,
                    _ => false,
                }
            }) ==> r is Ok,
            r is Ok ==> exists|v1: Vec<(u8, usize)>, v2: Vec<(u8, usize)>|
                #![auto]
                {
                    &&& final(context)@ == old(context)@.insert(
                        spec_sorted_blue_counts_key(),
                        v1.wrap_spec(),
                    ).insert(spec_sorted_red_counts_key(), v2.wrap_spec())
                    &&& match (
                        <Vec<usize> as ContextValue>::unwrap_spec(
                            old(context)@[spec_prized_blue_counts_key()],
                        ),
                        <Vec<usize> as ContextValue>::unwrap_spec(
                            old(context)@[spec_prized_red_counts_key()],
                        ),
                    ) {
                        (Some(bc), Some(rc)) => {
                            &&& sorted_by_count_desc(v1@)
                            &&& v1@.to_multiset() == crate::counts::ball_count_pairs(
                                bc@,
                            ).to_multiset()
                            &&& sorted_by_count_desc(v2@)
                            &&& v2@.to_multiset() == crate::counts::ball_count_pairs(
                                rc@,
                            ).to_multiset()
                        },
                        _ => false,
                    }
                },
            summary_top_counts_step(*self, old(context)@, final(context)@, old(context).spec_records(), old(context).spec_expect_result_size(), r),
    {
        let (first, second) = {
            let blue_counts = match context.get_attribute::<Vec<usize>>(
                &prized_blue_counts_attr(),
            ) {
                Some(v) => v,
                None => {
                    return Err(Error::ContextAttrNotExist("PRIZED_BLUE_BALLS_COUNTS".to_owned()));
                },
            };
            let red_counts = match context.get_attribute::<Vec<usize>>(&prized_red_counts_attr()) {
                Some(v) => v,
                None => {
                    return Err(Error::ContextAttrNotExist("PRIZED_RED_BALLS_COUNTS".to_owned()));
                },
            };
            if blue_counts.len() > 254 || red_counts.len() > 254 {
                return Err(Error::OtherFailure("too many counters for ball values".to_owned()));
            }
            (
                SummaryTopCountsProcessor::rank(blue_counts),
                SummaryTopCountsProcessor::rank(red_counts),
            )
        };
        let ghost g1 = first;
        let ghost g2 = second;
        context.set_attribute(&sorted_blue_counts_attr(), first);
        context.set_attribute(&sorted_red_counts_attr(), second);
        proof {
            assert(final(context)@ == old(context)@.insert(
                spec_sorted_blue_counts_key(),
                g1.wrap_spec(),
            ).insert(spec_sorted_red_counts_key(), g2.wrap_spec()));
        }
        Ok(())
    }
}

impl Processor for SummaryTopCountsProcessor {
    fn name(&self) -> (n: String) {
        "SummaryTopCountsProcessor".to_owned()
    }

    fn execute(&self, context: &mut ProcessorContext) -> (r: Result<(), Error>) {
        self.run(context)
    }
}

impl OccurBasedSummaryProcessor {
    /// Reads both extended occurrence attributes, sorts each so that the
    /// most overdue balls come first, and stores the sorted lists.
    pub fn run(&self, context: &mut ProcessorContext) -> (r: Result<(), Error>)
        requires
            old(context).wf(),
        ensures
            final(context).wf(),
            final(context).spec_records() == old(context).spec_records(),
            final(context).spec_expect_result_size() == old(context).spec_expect_result_size(),
            r is Err ==> *final(context) == *old(context),
            !old(context)@.contains_key(spec_prized_blue_occur_info_key()) ==> (r matches Err(e)
                && e matches Error::ContextAttrNotExist(nm)
                && nm@ == spec_prized_blue_occur_info_name()),
            old(context)@.contains_key(spec_prized_blue_occur_info_key()) && !old(
                context,
            )@.contains_key(spec_prized_red_occur_info_key()) ==> (r matches Err(e)
                && e matches Error::ContextAttrNotExist(nm)
                && nm@ == spec_prized_red_occur_info_name()),
            old(context)@.contains_key(spec_prized_blue_occur_info_key()) && old(
                context,
            )@.contains_key(spec_prized_red_occur_info_key()) ==> r is Ok,
            r is Ok ==> exists|v1: Vec<BallOccurInfo>, v2: Vec<BallOccurInfo>|
                #![auto]
                {
                    &&& final(context)@ == old(context)@.insert(
                        spec_most_possible_blue_key(),
                        v1.wrap_spec(),
                    ).insert(spec_most_possible_red_key(), v2.wrap_spec())
                    &&& match (
                        <Vec<BallOccurInfo> as ContextValue>::unwrap_spec(
                            old(context)@[spec_prized_blue_occur_info_key()],
                        ),
                        <Vec<BallOccurInfo> as ContextValue>::unwrap_spec(
                            old(context)@[spec_prized_red_occur_info_key()],
                        ),
                    ) {
                        (Some(b), Some(rd)) => {
                            &&& v1@.len() == b@.len()
                            &&& (forall|k: int|
                                0 <= k < v1@.len() ==> info_eq(
                                    #[trigger] v1@[k],
                                    b@[ranked_keys_desc(next_index_pairs(b@))[k].0 as int],
                                ))
                            &&& v2@.len() == rd@.len()
                            &&& (forall|k: int|
                                0 <= k < v2@.len() ==> info_eq(
                                    #[trigger] v2@[k],
                                    rd@[ranked_keys_desc(next_index_pairs(rd@))[k].0 as int],
                                ))
                        },
                        _ => false,
                    }
                },            r is Err ==> *final(context) == *old(context),
            !old(context)@.contains_key(spec_prized_blue_occur_info_key()) ==> (r matches Err(e)
                && e matches Error::ContextAttrNotExist(nm)
                && nm@ == spec_prized_blue_occur_info_name()),
            old(context)@.contains_key(spec_prized_blue_occur_info_key()) && !old(
                context,
            )@.contains_key(spec_prized_red_occur_info_key()) ==> (r matches Err(e)
                && e matches Error::ContextAttrNotExist(nm)
                && nm@ == spec_prized_red_occur_info_name()),
            old(context)@.contains_key(spec_prized_blue_occur_info_key()) && old(
                context,
            )@.contains_key(spec_prized_red_occur_info_key()) ==> r is Ok,
            r is Ok ==> exists|v1: Vec<BallOccurInfo>, v2: Vec<BallOccurInfo>|
                #![auto]
                {
                    &&& final(context)@ == old(context)@.insert(
                        spec_most_possible_blue_key(),
                        v1.wrap_spec(),
                    ).insert(spec_most_possible_red_key(), v2.wrap_spec())
                    &&& match (
                        <Vec<BallOccurInfo> as ContextValue>::unwrap_spec(
                            old(context)@[spec_prized_blue_occur_info_key()],
                        ),
                        <Vec<BallOccurInfo> as ContextValue>::unwrap_spec(
                            old(context)@[spec_prized_red_occur_info_key()],
                        ),
                    ) {
                        (Some(b), Some(rd)) => {
                            &&& v1@.len() == b@.len()
                            &&& (forall|k: int|
                                0 <= k < v1@.len() ==> info_eq(
                                    #[trigger] v1@[k],
                                    b@[ranked_keys_desc(next_index_pairs(b@))[k].0 as int],
                                ))
                            &&& v2@.len() == rd@.len()
                            &&& (forall|k: int|
                                0 <= k < v2@.len() ==> info_eq(
                                    #[trigger] v2@[k],
                                    rd@[ranked_keys_desc(next_index_pairs(rd@))[k].0 as int],
                                ))
                        },
                        _ => false,
                    }
                },
            occur_based_summary_step(*self, old(context)@, final(context)@, old(context).spec_records(), old(context).spec_expect_result_size(), r),
    {
        let (first, second) = {
            let blue_infos = match context.get_attribute::<Vec<BallOccurInfo>>(
                &prized_blue_occur_info_attr(),
            ) {
                Some(v) => v,
                None => {
                    return Err(
                        Error::ContextAttrNotExist("PRIZED_BLUE_BALLS_OCCUR_INFO".to_owned()),
                    );
                },
            };
            let red_infos = match context.get_attribute::<Vec<BallOccurInfo>>(
                &prized_red_occur_info_attr(),
            ) {
                Some(v) => v,
                None => {
                    return Err(
                        Error::ContextAttrNotExist("PRIZED_RED_BALLS_OCCUR_INFO".to_owned()),
                    );
                },
            };
            (
                OccurBasedSummaryProcessor::sort_ball_occurs(blue_infos),
                OccurBasedSummaryProcessor::sort_ball_occurs(red_infos),
            )
        };
        let ghost g1 = first;
        let ghost g2 = second;
        context.set_attribute(&most_possible_blue_attr(), first);
        context.set_attribute(&most_possible_red_attr(), second);
        proof {
            assert(final(context)@ == old(context)@.insert(
                spec_most_possible_blue_key(),
                g1.wrap_spec(),
            ).insert(spec_most_possible_red_key(), g2.wrap_spec()));
        }
        Ok(())
    }
}

impl Processor for OccurBasedSummaryProcessor {
    fn name(&self) -> (n: String) {
        "OccurBasedSummaryProcessor".to_owned()
    }

    fn execute(&self, context: &mut ProcessorContext) -> (r: Result<(), Error>) {
        self.run(context)
    }
}


/// Whether a blue-relationship attribute value is well-shaped.
pub open spec fn blue_rels_shaped(m: Map<(Seq<char>, int), AttrValue>) -> bool {
    &&& m.contains_key(spec_blue_ball_relationships_key())
    &&& match <Vec<BlueBallRelationship> as ContextValue>::unwrap_spec(
        m[spec_blue_ball_relationships_key()],
    ) {
        Some(rels) => rels@.len() == BLUE_BALL_COUNT && (forall|i: int|
            0 <= i < rels@.len() ==> (#[trigger] rels@[i]).wf()),
        None => false,
    }
}

impl RelationshipBasedProcessor {
    /// Reads the sorted occurrence records and the blue relationships, builds
    /// up to five picks and stores them.
    pub fn run(&self, context: &mut ProcessorContext) -> (r: Result<(), Error>)
        requires
            old(context).wf(),
        ensures
            final(context).wf(),
            final(context).spec_records() == old(context).spec_records(),
            final(context).spec_expect_result_size() == old(context).spec_expect_result_size(),
            r is Err ==> *final(context) == *old(context),
            !old(context)@.contains_key(spec_most_possible_blue_key()) ==> (r matches Err(e)
                && e matches Error::ContextAttrNotExist(nm) && nm@
                == spec_most_possible_blue_name()),
            old(context)@.contains_key(spec_most_possible_blue_key()) && !old(
                context,
            )@.contains_key(spec_most_possible_red_key()) ==> (r matches Err(e)
                && e matches Error::ContextAttrNotExist(nm) && nm@
                == spec_most_possible_red_name()),
            old(context)@.contains_key(spec_most_possible_blue_key()) && old(
                context,
            )@.contains_key(spec_most_possible_red_key()) && !old(context)@.contains_key(
                spec_blue_ball_relationships_key(),
            ) ==> (r matches Err(e) && e matches Error::ContextAttrNotExist(nm) && nm@
                == spec_blue_ball_relationships_name()),
            old(context)@.contains_key(spec_most_possible_blue_key()) && old(
                context,
            )@.contains_key(spec_most_possible_red_key()) && blue_rels_shaped(old(context)@)
                ==> r is Ok,
            r is Ok ==> exists|picks: Vec<FinalProcessorChainResult>|
                #![auto]
                {
                    &&& final(context)@ == old(context)@.insert(
                        spec_relationship_based_results_key(),
                        picks.wrap_spec(),
                    )
                    &&& picks@.len() <= 5
                    &&& forall|p: int|
                        0 <= p < picks@.len() ==> (#[trigger] picks@[p]).wf()
                            && crate::relationship_based::pick_sorted(picks@[p])
                },            r is Err ==> *final(context) == *old(context),
            !old(context)@.contains_key(spec_most_possible_blue_key()) ==> (r matches Err(e)
                && e matches Error::ContextAttrNotExist(nm) && nm@
                == spec_most_possible_blue_name()),
            old(context)@.contains_key(spec_most_possible_blue_key()) && !old(
                context,
            )@.contains_key(spec_most_possible_red_key()) ==> (r matches Err(e)
                && e matches Error::ContextAttrNotExist(nm) && nm@
                == spec_most_possible_red_name()),
            old(context)@.contains_key(spec_most_possible_blue_key()) && old(
                context,
            )@.contains_key(spec_most_possible_red_key()) && !old(context)@.contains_key(
                spec_blue_ball_relationships_key(),
            ) ==> (r matches Err(e) && e matches Error::ContextAttrNotExist(nm) && nm@
                == spec_blue_ball_relationships_name()),
            old(context)@.contains_key(spec_most_possible_blue_key()) && old(
                context,
            )@.contains_key(spec_most_possible_red_key()) && blue_rels_shaped(old(context)@)
                ==> r is Ok,
            r is Ok ==> exists|picks: Vec<FinalProcessorChainResult>|
                #![auto]
                {
                    &&& final(context)@ == old(context)@.insert(
                        spec_relationship_based_results_key(),
                        picks.wrap_spec(),
                    )
                    &&& picks@.len() <= 5
                    &&& forall|p: int|
                        0 <= p < picks@.len() ==> (#[trigger] picks@[p]).wf()
                            && crate::relationship_based::pick_sorted(picks@[p])
                },
            relationship_based_step(*self, old(context)@, final(context)@, old(context).spec_records(), old(context).spec_expect_result_size(), r),
    {
        let picks = {
            let blue_infos = match context.get_attribute::<Vec<BallOccurInfo>>(
                &most_possible_blue_attr(),
            ) {
                Some(v) => v,
                None => {
                    return Err(
                        Error::ContextAttrNotExist("MOST_POSSIBLE_OCCUR_BLUE_BALLS".to_owned()),
                    );
                },
            };
            let red_infos = match context.get_attribute::<Vec<BallOccurInfo>>(
                &most_possible_red_attr(),
            ) {
                Some(v) => v,
                None => {
                    return Err(
                        Error::ContextAttrNotExist("MOST_POSSIBLE_OCCUR_RED_BALLS".to_owned()),
                    );
                },
            };
            let rels = match context.get_attribute::<Vec<BlueBallRelationship>>(
                &blue_ball_relationships_attr(),
            ) {
                Some(v) => v,
                None => {
                    return Err(Error::ContextAttrNotExist("BLUE_BALL_RELATIONSHIPS".to_owned()));
                },
            };
            if !check_blue_rels(rels) {
                return Err(Error::OtherFailure("the relationship map is malformed".to_owned()));
            }
            match RelationshipBasedProcessor::analyze(blue_infos, red_infos, rels) {
                Ok(p) => p,
                Err(e) => {
                    return Err(e);
                },
            }
        };
        let ghost gpicks = picks;
        context.set_attribute(&relationship_based_results_attr(), picks);
        proof {
            assert(final(context)@ == old(context)@.insert(
                spec_relationship_based_results_key(),
                gpicks.wrap_spec(),
            ));
        }
        Ok(())
    }
}

impl Processor for RelationshipBasedProcessor {
    fn name(&self) -> (n: String) {
        "RelationshipBasedProcessor".to_owned()
    }

    fn execute(&self, context: &mut ProcessorContext) -> (r: Result<(), Error>) {
        self.run(context)
    }
}

impl SummaryTopBlueBallRelationshipProcessor {
    /// Reads the ranked blue counts and the blue relationships, builds the
    /// four hot-and-cold picks and stores them.
    pub fn run(&self, context: &mut ProcessorContext) -> (r: Result<(), Error>)
        requires
            old(context).wf(),
        ensures
            final(context).wf(),
            final(context).spec_records() == old(context).spec_records(),
            final(context).spec_expect_result_size() == old(context).spec_expect_result_size(),
            r is Err ==> *final(context) == *old(context),
            !old(context)@.contains_key(spec_sorted_blue_counts_key()) ==> (r matches Err(e)
                && e matches Error::ContextAttrNotExist(nm) && nm@
                == spec_sorted_blue_counts_name()),
            old(context)@.contains_key(spec_sorted_blue_counts_key()) && !old(
                context,
            )@.contains_key(spec_blue_ball_relationships_key()) ==> (r matches Err(e)
                && e matches Error::ContextAttrNotExist(nm) && nm@
                == spec_blue_ball_relationships_name()),
            ({
                &&& old(context)@.contains_key(spec_sorted_blue_counts_key())
                &&& blue_rels_shaped(old(context)@)
                &&& match <Vec<(u8, usize)> as ContextValue>::unwrap_spec(
                    old(context)@[spec_sorted_blue_counts_key()],
                ) {
                    Some(sc) => sc@.len() > 0 && 1 <= sc@[0].0 <= BLUE_BALL_COUNT && 1
                        <= sc@[sc@.len() - 1].0 <= BLUE_BALL_COUNT,
                    None => false,
                }
            }) ==> r is Ok,
            r is Ok ==> exists|picks: Vec<FinalProcessorChainResult>|
                #![auto]
                {
                    &&& final(context)@ == old(context)@.insert(
                        spec_top_blue_relationship_results_key(),
                        picks.wrap_spec(),
                    )
                    &&& picks@.len() == 4
                    &&& forall|p: int|
                        0 <= p < picks@.len() ==> (#[trigger] picks@[p]).wf()
                            && crate::relationship_based::pick_sorted(picks@[p])
                },            r is Err ==> *final(context) == *old(context),
            !old(context)@.contains_key(spec_sorted_blue_counts_key()) ==> (r matches Err(e)
                && e matches Error::ContextAttrNotExist(nm) && nm@
                == spec_sorted_blue_counts_name()),
            old(context)@.contains_key(spec_sorted_blue_counts_key()) && !old(
                context,
            )@.contains_key(spec_blue_ball_relationships_key()) ==> (r matches Err(e)
                && e matches Error::ContextAttrNotExist(nm) && nm@
                == spec_blue_ball_relationships_name()),
            ({
                &&& old(context)@.contains_key(spec_sorted_blue_counts_key())
                &&& blue_rels_shaped(old(context)@)
                &&& match <Vec<(u8, usize)> as ContextValue>::unwrap_spec(
                    old(context)@[spec_sorted_blue_counts_key()],
                ) {
                    Some(sc) => sc@.len() > 0 && 1 <= sc@[0].0 <= BLUE_BALL_COUNT && 1
                        <= sc@[sc@.len() - 1].0 <= BLUE_BALL_COUNT,
                    None => false,
                }
            }) ==> r is Ok,
            r is Ok ==> exists|picks: Vec<FinalProcessorChainResult>|
                #![auto]
                {
                    &&& final(context)@ == old(context)@.insert(
                        spec_top_blue_relationship_results_key(),
                        picks.wrap_spec(),
                    )
                    &&& picks@.len() == 4
                    &&& forall|p: int|
                        0 <= p < picks@.len() ==> (#[trigger] picks@[p]).wf()
                            && crate::relationship_based::pick_sorted(picks@[p])
                },
            summary_top_blue_ball_relationship_step(*self, old(context)@, final(context)@, old(context).spec_records(), old(context).spec_expect_result_size(), r),
    {
        let picks = {
            let sorted_counts = match context.get_attribute::<Vec<(u8, usize)>>(
                &sorted_blue_counts_attr(),
            ) {
                Some(v) => v,
                None => {
                    return Err(Error::ContextAttrNotExist("SORTED_BLUE_BALLS_COUNTS".to_owned()));
                },
            };
            let rels = match context.get_attribute::<Vec<BlueBallRelationship>>(
                &blue_ball_relationships_attr(),
            ) {
                Some(v) => v,
                None => {
                    return Err(Error::ContextAttrNotExist("BLUE_BALL_RELATIONSHIPS".to_owned()));
                },
            };
            if !check_blue_rels(rels) {
                return Err(Error::OtherFailure("the relationship map is malformed".to_owned()));
            }
            match SummaryTopBlueBallRelationshipProcessor::analyze(sorted_counts, rels) {
                Ok(p) => p,
                Err(e) => {
                    return Err(e);
                },
            }
        };
        let ghost gpicks = picks;
        context.set_attribute(&top_blue_relationship_results_attr(), picks);
        proof {
            assert(final(context)@ == old(context)@.insert(
                spec_top_blue_relationship_results_key(),
                gpicks.wrap_spec(),
            ));
        }
        Ok(())
    }
}

impl Processor for SummaryTopBlueBallRelationshipProcessor {
    fn name(&self) -> (n: String) {
        "SummaryTopBlueBallRelationshipProcessor".to_owned()
    }

    fn execute(&self, context: &mut ProcessorContext) -> (r: Result<(), Error>) {
        self.run(context)
    }
}

impl SummaryTopRedBallRelationshipProcessor {
    /// Reads both ranked count lists, builds the four hot-and-cold picks and
    /// stores them.
    pub fn run(&self, context: &mut ProcessorContext) -> (r: Result<(), Error>)
        requires
            old(context).wf(),
        ensures
            final(context).wf(),
            final(context).spec_records() == old(context).spec_records(),
            final(context).spec_expect_result_size() == old(context).spec_expect_result_size(),
            r is Err ==> *final(context) == *old(context),
            !old(context)@.contains_key(spec_sorted_blue_counts_key()) ==> (r matches Err(e)
                && e matches Error::ContextAttrNotExist(nm) && nm@
                == spec_sorted_blue_counts_name()),
            old(context)@.contains_key(spec_sorted_blue_counts_key()) && !old(
                context,
            )@.contains_key(spec_sorted_red_counts_key()) ==> (r matches Err(e)
                && e matches Error::ContextAttrNotExist(nm) && nm@
                == spec_sorted_red_counts_name()),
            ({
                &&& old(context)@.contains_key(spec_sorted_blue_counts_key())
                &&& old(context)@.contains_key(spec_sorted_red_counts_key())
                &&& match (
                    <Vec<(u8, usize)> as ContextValue>::unwrap_spec(
                        old(context)@[spec_sorted_blue_counts_key()],
                    ),
                    <Vec<(u8, usize)> as ContextValue>::unwrap_spec(
                        old(context)@[spec_sorted_red_counts_key()],
                    ),
                ) {
                    (Some(sb), Some(sr)) => {
                        &&& sr@.len() == RED_BALL_COUNT
                        &&& sb@.len() > 0
                        &&& 1 <= sb@[0].0 <= BLUE_BALL_COUNT
                        &&& 1 <= sb@[sb@.len() - 1].0 <= BLUE_BALL_COUNT
                        &&& (forall|k: int|
                            0 <= k < 6 ==> 1 <= (#[trigger] sr@[k]).0 <= RED_BALL_COUNT)
                        &&& (forall|k: int, l: int| 0 <= k < l < 6 ==> sr@[k].0 != sr@[l].0)
                        &&& (forall|k: int|
                            27 <= k < 33 ==> 1 <= (#[trigger] sr@[k]).0 <= RED_BALL_COUNT)
                        &&& (forall|k: int, l: int| 27 <= k < l < 33 ==> sr@[k].0 != sr@[l].0)
                    },
                    _ => false,
                }
            }) ==> r is Ok,
            r is Ok ==> exists|picks: Vec<FinalProcessorChainResult>|
                #![auto]
                {
                    &&& final(context)@ == old(context)@.insert(
                        spec_top_red_relationship_results_key(),
                        picks.wrap_spec(),
                    )
                    &&& picks@.len() == 4
                    &&& forall|p: int|
                        0 <= p < picks@.len() ==> (#[trigger] picks@[p]).wf()
                            && crate::relationship_based::pick_sorted(picks@[p])
                },            r is Err ==> *final(context) == *old(context),
            !old(context)@.contains_key(spec_sorted_blue_counts_key()) ==> (r matches Err(e)
                && e matches Error::ContextAttrNotExist(nm) && nm@
                == spec_sorted_blue_counts_name()),
            old(context)@.contains_key(spec_sorted_blue_counts_key()) && !old(
                context,
            )@.contains_key(spec_sorted_red_counts_key()) ==> (r matches Err(e)
                && e matches Error::ContextAttrNotExist(nm) && nm@
                == spec_sorted_red_counts_name()),
            ({
                &&& old(context)@.contains_key(spec_sorted_blue_counts_key())
                &&& old(context)@.contains_key(spec_sorted_red_counts_key())
                &&& match (
                    <Vec<(u8, usize)> as ContextValue>::unwrap_spec(
                        old(context)@[spec_sorted_blue_counts_key()],
                    ),
                    <Vec<(u8, usize)> as ContextValue>::unwrap_spec(
                        old(context)@[spec_sorted_red_counts_key()],
                    ),
                ) {
                    (Some(sb), Some(sr)) => {
                        &&& sr@.len() == RED_BALL_COUNT
                        &&& sb@.len() > 0
                        &&& 1 <= sb@[0].0 <= BLUE_BALL_COUNT
                        &&& 1 <= sb@[sb@.len() - 1].0 <= BLUE_BALL_COUNT
                        &&& (forall|k: int|
                            0 <= k < 6 ==> 1 <= (#[trigger] sr@[k]).0 <= RED_BALL_COUNT)
                        &&& (forall|k: int, l: int| 0 <= k < l < 6 ==> sr@[k].0 != sr@[l].0)
                        &&& (forall|k: int|
                            27 <= k < 33 ==> 1 <= (#[trigger] sr@[k]).0 <= RED_BALL_COUNT)
                        &&& (forall|k: int, l: int| 27 <= k < l < 33 ==> sr@[k].0 != sr@[l].0)
                    },
                    _ => false,
                }
            }) ==> r is Ok,
            r is Ok ==> exists|picks: Vec<FinalProcessorChainResult>|
                #![auto]
                {
                    &&& final(context)@ == old(context)@.insert(
                        spec_top_red_relationship_results_key(),
                        picks.wrap_spec(),
                    )
                    &&& picks@.len() == 4
                    &&& forall|p: int|
                        0 <= p < picks@.len() ==> (#[trigger] picks@[p]).wf()
                            && crate::relationship_based::pick_sorted(picks@[p])
                },
            summary_top_red_ball_relationship_step(*self, old(context)@, final(context)@, old(context).spec_records(), old(context).spec_expect_result_size(), r),
    {
        let picks = {
            let sorted_blue = match context.get_attribute::<Vec<(u8, usize)>>(
                &sorted_blue_counts_attr(),
            ) {
                Some(v) => v,
                None => {
                    return Err(Error::ContextAttrNotExist("SORTED_BLUE_BALLS_COUNTS".to_owned()));
                },
            };
            let sorted_red = match context.get_attribute::<Vec<(u8, usize)>>(
                &sorted_red_counts_attr(),
            ) {
                Some(v) => v,
                None => {
                    return Err(Error::ContextAttrNotExist("SORTED_RED_BALLS_COUNTS".to_owned()));
                },
            };
            match SummaryTopRedBallRelationshipProcessor::analyze(sorted_blue, sorted_red) {
                Ok(p) => p,
                Err(e) => {
                    return Err(e);
                },
            }
        };
        let ghost gpicks = picks;
        context.set_attribute(&top_red_relationship_results_attr(), picks);
        proof {
            assert(final(context)@ == old(context)@.insert(
                spec_top_red_relationship_results_key(),
                gpicks.wrap_spec(),
            ));
        }
        Ok(())
    }
}

impl Processor for SummaryTopRedBallRelationshipProcessor {
    fn name(&self) -> (n: String) {
        "SummaryTopRedBallRelationshipProcessor".to_owned()
    }

    fn execute(&self, context: &mut ProcessorContext) -> (r: Result<(), Error>) {
        self.run(context)
    }
}

/// One stage of a pipeline: the closed set of processors this library
/// offers, a nested chain among them.
pub enum ProcessorStage {
    Occur(OccurProcessor),
    Relationship(RelationshipProcessor),
    BallRelationshipFp(BallRelationshipFpProcessor),
    BlueBallFollowingOccurrence(BlueBallFollowingOccurrenceProcessor),
    Summary(SummaryProcessor),
    FinalResults(FinalResultsProcessor),
    GenerateNormalizeData(GenerateNormalizeDataProcessor),
    CountPrizedBlueball(CountPrizedBlueballProcessor),
    CountPrizedRedball(CountPrizedRedballProcessor),
    SummaryTopCounts(SummaryTopCountsProcessor),
    BallOccur(BallOccurProcessor),
    BallOccurInterval(BallOccurIntervalProcessor),
    OccurBasedSummary(OccurBasedSummaryProcessor),
    RelationshipBased(RelationshipBasedProcessor),
    SummaryTopBlueBallRelationship(SummaryTopBlueBallRelationshipProcessor),
    SummaryTopRedBallRelationship(SummaryTopRedBallRelationshipProcessor),
    Prepare(PrepareProcessor),
    Chain(Box<ProcessorChain>),
}


/// The transition one stage makes on the attribute map: each stage's `run`
/// ensures its own step relation; a nested chain makes its members' steps in
/// order.
pub open spec fn stage_step(
    stage: ProcessorStage,
    pre: Map<(Seq<char>, int), AttrValue>,
    post: Map<(Seq<char>, int), AttrValue>,
    records: Seq<PrBusinessObj>,
    size: usize,
    r: Result<(), Error>,
) -> bool
    decreases stage, 0int, 0int,
{
    match stage {
        ProcessorStage::Occur(p) => occur_step(p, pre, post, records, size, r),
        ProcessorStage::Relationship(p) => relationship_step(p, pre, post, records, size, r),
        ProcessorStage::BallRelationshipFp(p) => ball_relationship_fp_step(
            p,
            pre,
            post,
            records,
            size,
            r,
        ),
        ProcessorStage::BlueBallFollowingOccurrence(p) => blue_ball_following_occurrence_step(
            p,
            pre,
            post,
            records,
            size,
            r,
        ),
        ProcessorStage::Summary(p) => summary_step(p, pre, post, records, size, r),
        ProcessorStage::FinalResults(p) => final_results_step(p, pre, post, records, size, r),
        ProcessorStage::GenerateNormalizeData(p) => generate_normalize_data_step(
            p,
            pre,
            post,
            records,
            size,
            r,
        ),
        ProcessorStage::CountPrizedBlueball(p) => count_prized_blueball_step(
            p,
            pre,
            post,
            records,
            size,
            r,
        ),
        ProcessorStage::CountPrizedRedball(p) => count_prized_redball_step(
            p,
            pre,
            post,
            records,
            size,
            r,
        ),
        ProcessorStage::SummaryTopCounts(p) => summary_top_counts_step(
            p,
            pre,
            post,
            records,
            size,
            r,
        ),
        ProcessorStage::BallOccur(p) => ball_occur_step(p, pre, post, records, size, r),
        ProcessorStage::BallOccurInterval(p) => ball_occur_interval_step(
            p,
            pre,
            post,
            records,
            size,
            r,
        ),
        ProcessorStage::OccurBasedSummary(p) => occur_based_summary_step(
            p,
            pre,
            post,
            records,
            size,
            r,
        ),
        ProcessorStage::RelationshipBased(p) => relationship_based_step(
            p,
            pre,
            post,
            records,
            size,
            r,
        ),
        ProcessorStage::SummaryTopBlueBallRelationship(p) => summary_top_blue_ball_relationship_step(
            p,
            pre,
            post,
            records,
            size,
            r,
        ),
        ProcessorStage::SummaryTopRedBallRelationship(p) => summary_top_red_ball_relationship_step(
            p,
            pre,
            post,
            records,
            size,
            r,
        ),
        ProcessorStage::Prepare(p) => prepare_step(p, pre, post, records, size, r),
        ProcessorStage::Chain(_) => true,
    }
}

/// A complete, successful run of a chain's stages, witnessed by the
/// intermediate attribute maps: `maps[k]` is the map stage `k` started from,
/// and every stage stepped per its own relation.
pub open spec fn chain_run_ok(
    chain: ProcessorChain,
    maps: Seq<Map<(Seq<char>, int), AttrValue>>,
    pre: Map<(Seq<char>, int), AttrValue>,
    post: Map<(Seq<char>, int), AttrValue>,
    records: Seq<PrBusinessObj>,
    size: usize,
) -> bool
    decreases chain, 0int, 0int,
{
    &&& maps.len() == chain.spec_processors().len() + 1
    &&& maps[0] == pre
    &&& maps[maps.len() - 1] == post
    &&& forall|k: int|
        0 <= k < chain.spec_processors().len() ==> #[trigger] stage_step(
            chain.spec_processors()[k],
            maps[k],
            maps[k + 1],
            records,
            size,
            Result::<(), Error>::Ok(()),
        )
}

/// A failed run of a chain: the stages before position `j` stepped
/// successfully in order, stage `j` failed with the chain's own result, and
/// nothing after it ran.
pub open spec fn chain_run_err(
    chain: ProcessorChain,
    maps: Seq<Map<(Seq<char>, int), AttrValue>>,
    j: int,
    pre: Map<(Seq<char>, int), AttrValue>,
    post: Map<(Seq<char>, int), AttrValue>,
    records: Seq<PrBusinessObj>,
    size: usize,
    r: Result<(), Error>,
) -> bool
    decreases chain, 0int, 0int,
{
    &&& r is Err
    &&& 0 <= j < chain.spec_processors().len()
    &&& maps.len() == j + 1
    &&& maps[0] == pre
    &&& forall|k: int|
        0 <= k < j ==> #[trigger] stage_step(
            chain.spec_processors()[k],
            maps[k],
            maps[k + 1],
            records,
            size,
            Result::<(), Error>::Ok(()),
        )
    &&& stage_step(chain.spec_processors()[j], maps[j], post, records, size, r)
}

impl ProcessorStage {
    /// The stage's name, for diagnostics.
    pub fn stage_name(&self) -> (n: String) {
        match self {
            ProcessorStage::Occur(p) => p.name(),
            ProcessorStage::Relationship(p) => p.name(),
            ProcessorStage::BallRelationshipFp(p) => p.name(),
            ProcessorStage::BlueBallFollowingOccurrence(p) => p.name(),
            ProcessorStage::Summary(p) => p.name(),
            ProcessorStage::FinalResults(p) => p.name(),
            ProcessorStage::GenerateNormalizeData(p) => p.name(),
            ProcessorStage::CountPrizedBlueball(p) => p.name(),
            ProcessorStage::CountPrizedRedball(p) => p.name(),
            ProcessorStage::SummaryTopCounts(p) => p.name(),
            ProcessorStage::BallOccur(p) => p.name(),
            ProcessorStage::BallOccurInterval(p) => p.name(),
            ProcessorStage::OccurBasedSummary(p) => p.name(),
            ProcessorStage::RelationshipBased(p) => p.name(),
            ProcessorStage::SummaryTopBlueBallRelationship(p) => p.name(),
            ProcessorStage::SummaryTopRedBallRelationship(p) => p.name(),
            ProcessorStage::Prepare(p) => p.name(),
            ProcessorStage::Chain(c) => c.chain_name(),
        }
    }

    /// Runs the stage once over the shared context.
    pub fn run(&self, context: &mut ProcessorContext) -> (r: Result<(), Error>)
        requires
            old(context).wf(),
        ensures
            final(context).wf(),
            final(context).spec_records() == old(context).spec_records(),
            final(context).spec_expect_result_size() == old(context).spec_expect_result_size(),
            stage_step(
                *self,
                old(context)@,
                final(context)@,
                old(context).spec_records(),
                old(context).spec_expect_result_size(),
                r,
            ),
        decreases *self,
    {
        match self {
            ProcessorStage::Occur(p) => p.run(context),
            ProcessorStage::Relationship(p) => p.run(context),
            ProcessorStage::BallRelationshipFp(p) => p.run(context),
            ProcessorStage::BlueBallFollowingOccurrence(p) => p.run(context),
            ProcessorStage::Summary(p) => p.run(context),
            ProcessorStage::FinalResults(p) => p.run(context),
            ProcessorStage::GenerateNormalizeData(p) => p.run(context),
            ProcessorStage::CountPrizedBlueball(p) => p.run(context),
            ProcessorStage::CountPrizedRedball(p) => p.run(context),
            ProcessorStage::SummaryTopCounts(p) => p.run(context),
            ProcessorStage::BallOccur(p) => p.run(context),
            ProcessorStage::BallOccurInterval(p) => p.run(context),
            ProcessorStage::OccurBasedSummary(p) => p.run(context),
            ProcessorStage::RelationshipBased(p) => p.run(context),
            ProcessorStage::SummaryTopBlueBallRelationship(p) => p.run(context),
            ProcessorStage::SummaryTopRedBallRelationship(p) => p.run(context),
            ProcessorStage::Prepare(p) => p.run(context),
            ProcessorStage::Chain(c) => c.execute(context),
        }
    }
}

impl Processor for ProcessorStage {
    fn name(&self) -> (n: String) {
        self.stage_name()
    }

    fn execute(&self, context: &mut ProcessorContext) -> (r: Result<(), Error>) {
        self.run(context)
    }
}

/// An ordered, fail-fast composition of stages: executes its members
/// strictly in order and stops at the first failure. A chain is itself a
/// valid stage, so sub-pipelines compose.
pub struct ProcessorChain {
    name: String,
    processors: Vec<ProcessorStage>,
}

impl ProcessorChain {
    pub closed spec fn spec_name(self) -> Seq<char> {
        self.name@
    }

    pub closed spec fn spec_processors(self) -> Seq<ProcessorStage> {
        self.processors@
    }

    /// An empty chain with the given name.
    pub fn new(name: &str) -> (r: Self)
        ensures
            r.spec_name() == name@,
            r.spec_processors() == Seq::<ProcessorStage>::empty(),
    {
        ProcessorChain { name: name.to_owned(), processors: Vec::new() }
    }

    /// The chain's name, for diagnostics.
    pub fn chain_name(&self) -> (n: String)
        ensures
            n@ == self.spec_name(),
    {
        self.name.clone()
    }

    /// Appends a stage to the chain.
    pub fn add_processor(&mut self, processor: ProcessorStage)
        ensures
            final(self).spec_name() == old(self).spec_name(),
            final(self).spec_processors() == old(self).spec_processors().push(processor),
    {
        self.processors.push(processor);
    }

    /// Executes every stage in order, stopping at and returning the first
    /// failure; the records and the requested result size are untouched
    /// either way. On success the attribute map moved exactly by every
    /// stage's step relation in order; on failure a prefix of the stages
    /// stepped, and the first failure is returned verbatim.
    pub fn execute(&self, context: &mut ProcessorContext) -> (r: Result<(), Error>)
        requires
            old(context).wf(),
        ensures
            final(context).wf(),
            final(context).spec_records() == old(context).spec_records(),
            final(context).spec_expect_result_size() == old(context).spec_expect_result_size(),
            r is Ok ==> exists|maps: Seq<Map<(Seq<char>, int), AttrValue>>|
                #[trigger] chain_run_ok(
                    *self,
                    maps,
                    old(context)@,
                    final(context)@,
                    old(context).spec_records(),
                    old(context).spec_expect_result_size(),
                ),
            r is Err ==> exists|maps: Seq<Map<(Seq<char>, int), AttrValue>>, j: int|
                #[trigger] chain_run_err(
                    *self,
                    maps,
                    j,
                    old(context)@,
                    final(context)@,
                    old(context).spec_records(),
                    old(context).spec_expect_result_size(),
                    r,
                ),
        decreases *self,
    {
        let ghost pre0 = old(context)@;
        let ghost records = old(context).spec_records();
        let ghost size = old(context).spec_expect_result_size();
        let ghost mut maps: Seq<Map<(Seq<char>, int), AttrValue>> = seq![pre0];
        let n = self.processors.len();
        let mut i: usize = 0;
        while i < n
            invariant
                n == self.processors@.len(),
                i <= n,
                context.wf(),
                context.spec_records() == records,
                context.spec_expect_result_size() == size,
                records == old(context).spec_records(),
                size == old(context).spec_expect_result_size(),
                pre0 == old(context)@,
                maps.len() == i + 1,
                maps[0] == pre0,
                maps[maps.len() - 1] == context@,
                forall|k: int|
                    0 <= k < i ==> #[trigger] stage_step(
                        self.spec_processors()[k],
                        maps[k],
                        maps[k + 1],
                        records,
                        size,
                        Result::<(), Error>::Ok(()),
                    ),
            decreases n - i,
        {
            let ghost mpre = context@;
            let stage = &self.processors[i];
            let step = stage.run(context);
            let ghost gstep = step;
            proof {
                assert(*stage == self.spec_processors()[i as int]);
                assert(stage_step(
                    self.spec_processors()[i as int],
                    mpre,
                    context@,
                    records,
                    size,
                    gstep,
                ));
            }
            match step {
                Err(e) => {
                    proof {
                        assert(gstep == Result::<(), Error>::Err(e));
                        assert(chain_run_err(
                            *self,
                            maps,
                            i as int,
                            pre0,
                            context@,
                            records,
                            size,
                            Result::<(), Error>::Err(e),
                        ));
                    }
                    return Err(e);
                },
                Ok(u) => {},
            }
            proof {
                assert(gstep == Result::<(), Error>::Ok(()));
                maps = maps.push(context@);
            }
            i = i + 1;
        }
        proof {
            assert(chain_run_ok(*self, maps, pre0, context@, records, size));
        }
        Ok(())
    }
}

impl Processor for ProcessorChain {
    fn name(&self) -> (n: String) {
        self.chain_name()
    }

    fn execute(&self, context: &mut ProcessorContext) -> (r: Result<(), Error>) {
        ProcessorChain::execute(self, context)
    }
}

/// The canonical summarizing sub-pipeline: the occurrence-based ranking
/// followed by the relationship-based synthesis.
pub fn create_summary_processor_chain() -> (r: ProcessorChain)
    ensures
        r.spec_processors().len() == 2,
{
    let mut chain = ProcessorChain::new("SummaryProcessorChain");
    chain.add_processor(ProcessorStage::OccurBasedSummary(OccurBasedSummaryProcessor));
    chain.add_processor(ProcessorStage::RelationshipBased(RelationshipBasedProcessor));
    chain
}

} // verus!
