use ssq_tool::domain::{BlueBall, DrawDate, PrBusinessObj, RedBall};
use ssq_tool::occur::analyze_ball_occurrences;
use ssq_tool::occur_based::BallOccurProcessor;

fn reds(v: [u8; 6]) -> [RedBall; 6] {
    [
        RedBall { value: v[0] },
        RedBall { value: v[1] },
        RedBall { value: v[2] },
        RedBall { value: v[3] },
        RedBall { value: v[4] },
        RedBall { value: v[5] },
    ]
}

fn record(seq: usize, blue: u8, red: [u8; 6]) -> PrBusinessObj {
    PrBusinessObj {
        code: format!("{seq}"),
        seq,
        date: DrawDate { year: 2024, month: 1, day: (seq + 1) as u8 },
        day: "Tue".to_string(),
        blue_ball: BlueBall { value: blue },
        red_balls: reds(red),
    }
}

/// Blue ball 7 occurs at indices 5, 2 and 0 (most recent first): the
/// ascending list is [0, 2, 5], the intervals are [2, 3], and the average
/// divides their sum by the occurrence count: (2 + 3) / 3 = 1.
#[test]
fn three_occurrences_average_by_count_not_by_gap_count() {
    let records = vec![
        record(0, 7, [1, 2, 3, 4, 5, 6]),
        record(1, 1, [1, 2, 3, 4, 5, 6]),
        record(2, 7, [1, 2, 3, 4, 5, 6]),
        record(3, 1, [1, 2, 3, 4, 5, 6]),
        record(4, 1, [1, 2, 3, 4, 5, 6]),
        record(5, 7, [1, 2, 3, 4, 5, 6]),
    ];
    let occs = analyze_ball_occurrences(&records);
    let d = &occs.blue[6];
    assert_eq!(d.occurrence_count_by_official_data(), 3);
    assert_eq!(d.average_occur_interval(), 1);
    assert_eq!(d.latest_occur_seq(), 5);
    // projected count: 6 records / (average 1 + 1)
    assert_eq!(d.occurrence_count_by_average_interval(), 3);
}

/// A single occurrence at index 7 contributes its own index as the only
/// interval sample: the average interval is 7 / 1 = 7.
#[test]
fn a_single_occurrence_is_its_own_interval_sample() {
    let mut records = Vec::new();
    for seq in 0..8 {
        let blue = if seq == 7 { 9 } else { 1 };
        records.push(record(seq, blue, [1, 2, 3, 4, 5, 6]));
    }
    let occs = analyze_ball_occurrences(&records);
    let d = &occs.blue[8];
    assert_eq!(d.occurrence_count_by_official_data(), 1);
    assert_eq!(d.average_occur_interval(), 7);
    assert_eq!(d.latest_occur_seq(), 7);
    // projected count: 8 records / (average 7 + 1)
    assert_eq!(d.occurrence_count_by_average_interval(), 1);
}

#[test]
fn a_ball_that_never_occurred_keeps_the_zero_entry() {
    let records = vec![record(0, 1, [1, 2, 3, 4, 5, 6])];
    let occs = analyze_ball_occurrences(&records);
    let d = &occs.blue[15];
    assert_eq!(d.occurrence_count_by_official_data(), 0);
    assert_eq!(d.average_occur_interval(), 0);
    assert_eq!(d.latest_occur_seq(), 0);
    assert_eq!(d.occurrence_count_by_average_interval(), 0);
}

#[test]
fn red_ball_statistics_follow_the_same_formulas() {
    let records = vec![
        record(0, 1, [1, 2, 3, 4, 5, 6]),
        record(1, 1, [1, 2, 3, 4, 5, 7]),
        record(2, 1, [2, 3, 4, 5, 6, 7]),
    ];
    let occs = analyze_ball_occurrences(&records);
    // red 1 occurs at 0 and 1: intervals [1], average 1 / 2 = 0.
    let d1 = &occs.red[0];
    assert_eq!(d1.occurrence_count_by_official_data(), 2);
    assert_eq!(d1.average_occur_interval(), 0);
    assert_eq!(d1.latest_occur_seq(), 1);
    // red 6 occurs at 0 and 2: intervals [2], average 2 / 2 = 1.
    let d6 = &occs.red[5];
    assert_eq!(d6.average_occur_interval(), 1);
}

#[test]
fn extended_records_carry_samples_and_extremes() {
    let records = vec![
        record(0, 7, [1, 2, 3, 4, 5, 6]),
        record(1, 1, [1, 2, 3, 4, 5, 6]),
        record(2, 7, [1, 2, 3, 4, 5, 6]),
        record(3, 1, [1, 2, 3, 4, 5, 6]),
        record(4, 1, [1, 2, 3, 4, 5, 6]),
        record(5, 7, [1, 2, 3, 4, 5, 6]),
    ];
    let (blue, _red) = BallOccurProcessor::analyze(&records);
    let info = &blue[6];
    assert_eq!(info.ball(), 7);
    assert_eq!(info.intervals(), &vec![2usize, 3]);
    assert_eq!(info.max_interval(), 3);
    assert_eq!(info.min_interval(), 2);
    assert_eq!(info.average_interval(), 1);
    assert_eq!(info.occur_count(), 3);
    assert_eq!(info.last_occur_index(), 5);
    // expected next occurrence: last index 5 minus average 1.
    assert_eq!(info.possible_next_occur_index(), 4);
}
