use ssq_tool::business_obj::BallOccurInterval;
use ssq_tool::context_obj::{BallOccurInfo, OccurDetail};
use ssq_tool::counts::SummaryTopCountsProcessor;
use ssq_tool::domain::{BlueBall, DrawDate, PrBusinessObj, RedBall};
use ssq_tool::error::Error;
use ssq_tool::final_result::FinalResultsProcessor;
use ssq_tool::generate_normalize_data::GenerateNormalizeDataProcessor;
use ssq_tool::mining::GroupPatterns;
use ssq_tool::occur::{OccurrenceDetail, analyze_ball_occurrences};
use ssq_tool::occur_based::{BallOccurIntervalProcessor, OccurBasedSummaryProcessor};
use ssq_tool::official::{OfficialPrizeGrade, OfficialPrizeGradeType};
use ssq_tool::relationship::BlueBallRelationship;
use ssq_tool::relationship_based::{
    SummaryTopBlueBallRelationshipProcessor, SummaryTopRedBallRelationshipProcessor,
};

fn reds(v: [u8; 6]) -> [RedBall; 6] {
    [
        RedBall { value: v[0] },
        RedBall { value: v[1] },
        RedBall { value: v[2] },
        RedBall { value: v[3] },
        RedBall { value: v[4] },
        RedBall { value: v[5] },
    ]
}

fn record(seq: usize, blue: u8, red: [u8; 6]) -> PrBusinessObj {
    PrBusinessObj {
        code: format!("{seq}"),
        seq,
        date: DrawDate { year: 2024, month: 1, day: (seq + 1) as u8 },
        day: "Tue".to_string(),
        blue_ball: BlueBall { value: blue },
        red_balls: reds(red),
    }
}

fn empty_groups() -> Vec<GroupPatterns> {
    (1..=16u8).map(|key| GroupPatterns { key, patterns: Vec::new() }).collect()
}

#[test]
fn occurrence_detail_setters_and_getters_round_trip() {
    let mut d = OccurrenceDetail::default();
    d.set_average_occur_interval(3);
    d.set_occurrence_count_by_official_data(4);
    d.set_latest_occur_seq(9);
    d.set_occurrence_count_by_average_interval(2);
    assert_eq!(d.average_occur_interval(), 3);
    assert_eq!(d.occurrence_count_by_official_data(), 4);
    assert_eq!(d.latest_occur_seq(), 9);
    assert_eq!(d.occurrence_count_by_average_interval(), 2);

    let mut o = OccurDetail::default();
    o.set_average_interval(5);
    o.set_occurrence_count(6);
    o.set_latest_occur_seq(7);
    o.set_count_based_on_average_interval(8);
    assert_eq!(o.average_interval(), 5);
    assert_eq!(o.occurrence_count(), 6);
    assert_eq!(o.latest_occur_seq(), 7);
    assert_eq!(o.count_based_on_average_interval(), 8);
}

#[test]
fn ball_occur_info_setters_and_getters_round_trip() {
    let mut info = BallOccurInfo::new(12);
    assert_eq!(info.ball(), 12);
    info.add_interval(4);
    info.add_interval(2);
    assert_eq!(info.intervals(), &vec![4usize, 2]);
    info.set_max_interval(4);
    info.set_min_interval(2);
    info.set_average_interval(3);
    info.set_occur_count(2);
    info.set_last_occur_index(8);
    info.set_possible_next_occur_index(5);
    assert_eq!(info.max_interval(), 4);
    assert_eq!(info.min_interval(), 2);
    assert_eq!(info.average_interval(), 3);
    assert_eq!(info.occur_count(), 2);
    assert_eq!(info.last_occur_index(), 8);
    assert_eq!(info.possible_next_occur_index(), 5);
}

#[test]
fn interval_entries_collect_samples() {
    let mut e = BallOccurInterval::new(4);
    assert_eq!(e.ball(), 4);
    e.add_interval(10);
    e.add_interval(20);
    assert_eq!(e.intervals(), &vec![10u32, 20]);
}

#[test]
fn interval_stage_mirrors_the_samples() {
    let records = vec![
        record(0, 7, [1, 2, 3, 4, 5, 6]),
        record(1, 1, [1, 2, 3, 4, 5, 6]),
        record(2, 7, [1, 2, 3, 4, 5, 6]),
        record(3, 1, [1, 2, 3, 4, 5, 6]),
        record(4, 1, [1, 2, 3, 4, 5, 6]),
        record(5, 7, [1, 2, 3, 4, 5, 6]),
    ];
    let (blue, red) = BallOccurIntervalProcessor::analyze(&records);
    assert_eq!(blue.len(), 16);
    assert_eq!(red.len(), 33);
    assert_eq!(blue[6].intervals(), &vec![2u32, 3]);
    // A ball with a single occurrence keeps its index as the only sample.
    assert_eq!(red[0].intervals(), &vec![1u32; 5]);
}

#[test]
fn official_grades_map_levels_both_ways() {
    assert!(OfficialPrizeGradeType::from_level(0).is_err());
    assert!(OfficialPrizeGradeType::from_level(8).is_err());
    for level in 1..=7u8 {
        let g = OfficialPrizeGradeType::from_level(level).unwrap();
        assert_eq!(g.level(), level);
    }
    let grade = OfficialPrizeGrade {
        prize_type: OfficialPrizeGradeType::Level1,
        prize_type_number: 3,
        prize_type_money: "10000000".to_string(),
    };
    assert_eq!(grade.prize_type.level(), 1);
    assert_eq!(grade.prize_type_number, 3);
}

#[test]
fn ranked_counts_pair_balls_with_their_counts() {
    let counts = vec![2usize, 9, 4];
    let ranked = SummaryTopCountsProcessor::rank(&counts);
    assert_eq!(ranked, vec![(2u8, 9usize), (3u8, 4usize), (1u8, 2usize)]);
}

#[test]
fn occurrence_ranking_orders_by_expected_next_index() {
    let mut a = BallOccurInfo::new(1);
    a.set_possible_next_occur_index(3);
    let mut b = BallOccurInfo::new(2);
    b.set_possible_next_occur_index(9);
    let mut c = BallOccurInfo::new(3);
    c.set_possible_next_occur_index(-4);
    let sorted = OccurBasedSummaryProcessor::sort_ball_occurs(&vec![a, b, c]);
    let order: Vec<usize> = sorted.iter().map(|i| i.ball()).collect();
    assert_eq!(order, vec![2, 1, 3]);
}

#[test]
fn hot_and_cold_blue_picks_use_the_strongest_companions() {
    let mut rels: Vec<BlueBallRelationship> = (1..=16u8).map(BlueBallRelationship::new).collect();
    for _ in 0..2 {
        for ball in [5u8, 6, 7, 8, 9, 10] {
            rels[2].increase_related_red_ball_count(ball);
        }
    }
    let sorted_counts: Vec<(u8, usize)> = vec![(3, 9), (8, 4), (14, 0)];
    let picks = SummaryTopBlueBallRelationshipProcessor::analyze(&sorted_counts, &rels).unwrap();
    assert_eq!(picks.len(), 4);
    // The hottest blue ball, with its own strongest companions.
    assert_eq!(picks[0].blue_ball().value(), 3);
    let values: Vec<u8> = picks[0].red_ball().iter().map(|r| r.value()).collect();
    assert_eq!(values, vec![5, 6, 7, 8, 9, 10]);
    // The coldest blue ball with no counts falls back to the smallest reds.
    assert_eq!(picks[1].blue_ball().value(), 14);
    let cold: Vec<u8> = picks[1].red_ball().iter().map(|r| r.value()).collect();
    assert_eq!(cold, vec![1, 2, 3, 4, 5, 6]);
    assert!(SummaryTopBlueBallRelationshipProcessor::analyze(&Vec::new(), &rels).is_err());
}

#[test]
fn hot_and_cold_red_picks_use_the_count_extremes() {
    let sorted_blue: Vec<(u8, usize)> = vec![(2, 7), (11, 1)];
    let sorted_red: Vec<(u8, usize)> = (0..33u8).map(|i| (i + 1, (33 - i) as usize)).collect();
    let picks =
        SummaryTopRedBallRelationshipProcessor::analyze(&sorted_blue, &sorted_red).unwrap();
    assert_eq!(picks.len(), 4);
    assert_eq!(picks[0].blue_ball().value(), 2);
    let hottest: Vec<u8> = picks[0].red_ball().iter().map(|r| r.value()).collect();
    assert_eq!(hottest, vec![1, 2, 3, 4, 5, 6]);
    let coldest: Vec<u8> = picks[1].red_ball().iter().map(|r| r.value()).collect();
    assert_eq!(coldest, vec![28, 29, 30, 31, 32, 33]);
    let short: Vec<(u8, usize)> = vec![(1, 1)];
    assert!(SummaryTopRedBallRelationshipProcessor::analyze(&sorted_blue, &short).is_err());
}

#[test]
fn final_recommendations_follow_the_successors_and_patterns() {
    let records = vec![
        record(0, 3, [1, 2, 3, 4, 5, 6]),
        record(1, 7, [1, 2, 3, 4, 5, 6]),
    ];
    // Ball 2 followed the most recent blue ball (7) twice; nothing else did.
    let mut following = vec![vec![0usize; 16]; 16];
    following[6][1] = 2;
    // The mined group of blue 2: two strong patterns covering six red balls,
    // one weak pattern below the average support.
    let mut grouped = empty_groups();
    grouped[1].patterns = vec![
        (vec![10u8, 11, 12], 10),
        (vec![13u8, 14, 15], 9),
        (vec![16u8], 1),
    ];
    let picks = FinalResultsProcessor::new(3).synthesize(&records, &following, &grouped).unwrap();
    assert_eq!(picks.len(), 1);
    assert_eq!(picks[0].blue_ball().value(), 2);
    let values: Vec<u8> = picks[0].red_ball().iter().map(|r| r.value()).collect();
    assert_eq!(values, vec![10, 11, 12, 13, 14, 15]);
}

#[test]
fn final_recommendations_reject_an_empty_history() {
    let records: Vec<PrBusinessObj> = Vec::new();
    let following = vec![vec![0usize; 16]; 16];
    let grouped = empty_groups();
    let r = FinalResultsProcessor::new(3).synthesize(&records, &following, &grouped);
    assert!(matches!(r, Err(Error::OtherFailure(_))));
}

#[test]
fn normalized_rows_mirror_their_records() {
    let records = vec![
        record(0, 2, [1, 2, 3, 4, 5, 6]),
        record(1, 2, [1, 2, 3, 4, 5, 7]),
    ];
    let occs = analyze_ball_occurrences(&records);
    let mut grouped = empty_groups();
    grouped[1].patterns = vec![(vec![1u8, 2, 3], 2), (vec![30u8], 1)];
    let rows = GenerateNormalizeDataProcessor::analyze(&records, &occs, &grouped);
    assert_eq!(rows.len(), 2);
    assert_eq!(rows[0].code, "0");
    assert_eq!(rows[0].blue_ball.value(), 2);
    // Blue 2 occurred at 0 and 1: count 2, average (1) / 2 = 0.
    assert_eq!(rows[0].actual_count, 2);
    assert_eq!(rows[0].average_occur_interval, 0);
    // The group's items, deduplicated and ascending.
    let tops: Vec<u8> = rows[0].top_related_red_balls.iter().map(|r| r.value()).collect();
    assert_eq!(tops, vec![1, 2, 3, 30]);
    // Record 0 drew reds 1, 2 and 3, but not 30.
    assert_eq!(rows[0].matched_count, 3);
    assert_eq!(rows[1].matched_count, 3);
}
