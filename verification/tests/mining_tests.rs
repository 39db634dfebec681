use ssq_tool::domain::{BlueBall, DrawDate, PrBusinessObj, RedBall};
use ssq_tool::mining::{
    BlueBallFollowingOccurrenceProcessor, build_grouped_transactions, build_windowed_transactions,
    collect_chronological_blues, mine,
};

fn reds(v: [u8; 6]) -> [RedBall; 6] {
    [
        RedBall { value: v[0] },
        RedBall { value: v[1] },
        RedBall { value: v[2] },
        RedBall { value: v[3] },
        RedBall { value: v[4] },
        RedBall { value: v[5] },
    ]
}

fn record(seq: usize, blue: u8, red: [u8; 6]) -> PrBusinessObj {
    PrBusinessObj {
        code: format!("{seq}"),
        seq,
        date: DrawDate { year: 2024, month: 1, day: (seq + 1) as u8 },
        day: "Tue".to_string(),
        blue_ball: BlueBall { value: blue },
        red_balls: reds(red),
    }
}

fn sorted_items(pattern: &(Vec<u8>, usize)) -> Vec<u8> {
    let mut items = pattern.0.clone();
    items.sort();
    items
}

/// Transactions [[1,2,3],[1,2,4]] with minimum support 2 must yield the
/// itemset {1,2} with support 2, must not yield {1,3} or {2,4}, and must
/// yield the singletons {1} and {2} with support 2 each.
#[test]
fn mining_respects_the_support_threshold() {
    let transactions = vec![vec![1u8, 2, 3], vec![1u8, 2, 4]];
    let patterns = mine(&transactions, 2);
    assert!(patterns.iter().any(|p| sorted_items(p) == vec![1, 2] && p.1 == 2));
    assert!(!patterns.iter().any(|p| sorted_items(p) == vec![1, 3]));
    assert!(!patterns.iter().any(|p| sorted_items(p) == vec![2, 4]));
    assert!(patterns.iter().any(|p| sorted_items(p) == vec![1] && p.1 == 2));
    assert!(patterns.iter().any(|p| sorted_items(p) == vec![2] && p.1 == 2));
    for p in &patterns {
        assert!(p.1 >= 2);
        assert!(!p.0.is_empty());
    }
}

#[test]
fn grouped_transactions_take_the_red_sets_of_one_blue_ball() {
    let records = vec![
        record(0, 5, [1, 2, 3, 4, 5, 6]),
        record(1, 9, [7, 8, 9, 10, 11, 12]),
        record(2, 5, [1, 2, 3, 4, 5, 7]),
    ];
    let txns = build_grouped_transactions(&records, 5);
    assert_eq!(txns.len(), 2);
    assert_eq!(txns[0], vec![1, 2, 3, 4, 5, 6]);
    assert_eq!(txns[1], vec![1, 2, 3, 4, 5, 7]);
    assert_eq!(build_grouped_transactions(&records, 9).len(), 1);
    assert_eq!(build_grouped_transactions(&records, 3).len(), 0);
}

#[test]
fn windowed_transactions_slide_over_the_values() {
    let values = vec![1u8, 2, 3, 4];
    let windows = build_windowed_transactions(&values, 2);
    assert_eq!(windows, vec![vec![1, 2], vec![2, 3], vec![3, 4]]);
    let wide = build_windowed_transactions(&values, 4);
    assert_eq!(wide, vec![vec![1, 2, 3, 4]]);
    let too_wide = build_windowed_transactions(&values, 5);
    assert!(too_wide.is_empty());
}

#[test]
fn chronological_blues_follow_the_sequence_index() {
    // Records supplied most recent first, as a collector would.
    let records = vec![
        record(2, 9, [1, 2, 3, 4, 5, 6]),
        record(1, 4, [1, 2, 3, 4, 5, 6]),
        record(0, 7, [1, 2, 3, 4, 5, 6]),
    ];
    let blues = collect_chronological_blues(&records);
    assert_eq!(blues, vec![7, 4, 9]);
}

#[test]
fn successor_counts_follow_the_chronological_order() {
    let records = vec![
        record(0, 3, [1, 2, 3, 4, 5, 6]),
        record(1, 5, [1, 2, 3, 4, 5, 6]),
        record(2, 3, [1, 2, 3, 4, 5, 6]),
        record(3, 5, [1, 2, 3, 4, 5, 6]),
    ];
    let m = BlueBallFollowingOccurrenceProcessor::analyze(&records);
    // 3 -> 5 happened twice, 5 -> 3 once.
    assert_eq!(m[2][4], 2);
    assert_eq!(m[4][2], 1);
    assert_eq!(m[2][2], 0);
}
