use ssq_tool::domain::{BlueBall, DrawDate, PrBusinessObj, RedBall};
use ssq_tool::relationship::{Relationship, RelationshipProcessor};

fn reds(v: [u8; 6]) -> [RedBall; 6] {
    [
        RedBall { value: v[0] },
        RedBall { value: v[1] },
        RedBall { value: v[2] },
        RedBall { value: v[3] },
        RedBall { value: v[4] },
        RedBall { value: v[5] },
    ]
}

fn record(seq: usize, blue: u8, red: [u8; 6]) -> PrBusinessObj {
    PrBusinessObj {
        code: format!("{seq}"),
        seq,
        date: DrawDate { year: 2024, month: 1, day: (seq + 1) as u8 },
        day: "Tue".to_string(),
        blue_ball: BlueBall { value: blue },
        red_balls: reds(red),
    }
}

/// Two draws, (blue 5, reds 1..=6) then (blue 5, reds {1,2,3,4,5,7}): blue 5
/// was drawn twice beside red 1 and once beside red 7; reds 1 and 2 were
/// drawn together twice; reds 6 and 7 never met.
#[test]
fn pairwise_counts_of_two_draws() {
    let records = vec![
        record(0, 5, [1, 2, 3, 4, 5, 6]),
        record(1, 5, [1, 2, 3, 4, 5, 7]),
    ];
    let (blues, reds) = RelationshipProcessor::analyze(&records);
    assert_eq!(blues[4].related_red_ball_counts()[0], 2);
    assert_eq!(blues[4].related_red_ball_counts()[6], 1);
    assert_eq!(reds[0].related_red_ball_counts()[1], 2);
    assert_eq!(reds[5].related_red_ball_counts()[6], 0);
    // And each drawn red saw blue 5 every time it was drawn.
    assert_eq!(reds[0].related_blue_ball_counts()[4], 2);
    assert_eq!(reds[6].related_blue_ball_counts()[4], 1);
    // A ball never counts itself.
    assert_eq!(reds[0].related_red_ball_counts()[0], 0);
}

#[test]
fn counters_of_unrelated_balls_stay_zero() {
    let records = vec![record(0, 5, [1, 2, 3, 4, 5, 6])];
    let (blues, reds) = RelationshipProcessor::analyze(&records);
    assert_eq!(blues[0].related_red_ball_counts()[0], 0);
    assert_eq!(reds[9].related_blue_ball_counts()[4], 0);
    assert_eq!(blues[4].blue_ball(), 5);
    assert_eq!(reds[9].red_ball(), 10);
}

#[test]
fn relationship_entries_count_only_their_domain() {
    let mut blue_entry = Relationship::new_blue(BlueBall { value: 3 });
    blue_entry.increase_relationship_with_red(RedBall { value: 7 });
    blue_entry.increase_relationship_with_red(RedBall { value: 7 });
    // Increasing against a blue ball changes nothing on a blue entry.
    blue_entry.increase_relationship_with_blue(BlueBall { value: 4 });
    match blue_entry {
        Relationship::Blue { ball, detail } => {
            assert_eq!(ball.value(), 3);
            assert_eq!(detail[6], 2);
            assert_eq!(detail[0], 0);
        },
        Relationship::Red { .. } => panic!("a blue entry must stay blue"),
    }
    let mut red_entry = Relationship::new_red(RedBall { value: 9 });
    red_entry.increase_relationship_with_blue(BlueBall { value: 4 });
    red_entry.increase_relationship_with_red(RedBall { value: 2 });
    // A red entry never counts its own ball.
    red_entry.increase_relationship_with_red(RedBall { value: 9 });
    match red_entry {
        Relationship::Red { ball, blue_ball_detail, red_ball_detail } => {
            assert_eq!(ball.value(), 9);
            assert_eq!(blue_ball_detail[3], 1);
            assert_eq!(red_ball_detail[1], 1);
            assert_eq!(red_ball_detail[8], 0);
        },
        Relationship::Blue { .. } => panic!("a red entry must stay red"),
    }
}
