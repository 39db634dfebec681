use ssq_tool::collector::{RawPrizePage, RawPrizeRecord, collect_business_obj};
use ssq_tool::domain::{BlueBall, DrawDate, PrBusinessObj, RedBall};
use ssq_tool::error::Error;
use ssq_tool::service::{
    FilterByDateRangeRequest, FilterBySeqRangeRequest, FilterByWeekRequest, filter_by_date_range,
    filter_by_day, filter_by_seq_range, str_contains_sub,
};

fn reds(v: [u8; 6]) -> [RedBall; 6] {
    [
        RedBall { value: v[0] },
        RedBall { value: v[1] },
        RedBall { value: v[2] },
        RedBall { value: v[3] },
        RedBall { value: v[4] },
        RedBall { value: v[5] },
    ]
}

fn record(seq: usize, blue: u8, red: [u8; 6], day: &str) -> PrBusinessObj {
    PrBusinessObj {
        code: format!("2024{:03}", seq),
        seq,
        date: DrawDate { year: 2024, month: 1, day: (seq + 1) as u8 },
        day: day.to_string(),
        blue_ball: BlueBall { value: blue },
        red_balls: reds(red),
    }
}

#[test]
fn blue_ball_rejects_out_of_domain_values() {
    assert!(BlueBall::new(0).is_err());
    assert!(BlueBall::new(17).is_err());
    assert_eq!(BlueBall::new(16).unwrap().value, 16);
    assert!(matches!(BlueBall::new(0), Err(Error::InvalidBallValue(0))));
}

#[test]
fn red_ball_rejects_out_of_domain_values() {
    assert!(RedBall::new(0).is_err());
    assert!(RedBall::new(34).is_err());
    assert_eq!(RedBall::new(33).unwrap().value, 33);
}

#[test]
fn ball_domains_are_enumerable() {
    let blues = BlueBall::all();
    assert_eq!(blues.len(), 16);
    assert_eq!(blues[0].value, 1);
    assert_eq!(blues[15].value, 16);
    let reds = RedBall::all();
    assert_eq!(reds.len(), 33);
    assert_eq!(reds[32].value, 33);
}

#[test]
fn record_construction_rejects_duplicate_reds() {
    let date = DrawDate { year: 2024, month: 3, day: 5 };
    let dup = PrBusinessObj::new(
        "001".to_string(),
        0,
        date,
        "Tue".to_string(),
        BlueBall { value: 3 },
        reds([1, 2, 3, 3, 5, 6]),
    );
    assert!(matches!(dup, Err(Error::OtherFailure(_))));
    let ok = PrBusinessObj::new(
        "001".to_string(),
        0,
        date,
        "Tue".to_string(),
        BlueBall { value: 3 },
        reds([1, 2, 3, 4, 5, 6]),
    );
    assert!(ok.is_ok());
}

#[test]
fn record_construction_rejects_out_of_domain_balls() {
    let date = DrawDate { year: 2024, month: 3, day: 5 };
    let bad_blue = PrBusinessObj::new(
        "001".to_string(),
        0,
        date,
        "Tue".to_string(),
        BlueBall { value: 0 },
        reds([1, 2, 3, 4, 5, 6]),
    );
    assert!(matches!(bad_blue, Err(Error::InvalidBallValue(0))));
    let bad_red = PrBusinessObj::new(
        "001".to_string(),
        0,
        date,
        "Tue".to_string(),
        BlueBall { value: 1 },
        reds([1, 2, 3, 4, 5, 34]),
    );
    assert!(matches!(bad_red, Err(Error::InvalidBallValue(34))));
}

#[test]
fn date_rejects_impossible_calendar_values() {
    assert!(DrawDate::new(2024, 0, 1).is_err());
    assert!(DrawDate::new(2024, 13, 1).is_err());
    assert!(DrawDate::new(2024, 1, 32).is_err());
    let d = DrawDate::new(2024, 2, 29).unwrap();
    assert_eq!(d.key(), 20240229);
    let e = DrawDate::new(2024, 3, 1).unwrap();
    assert!(d.le(&e));
    assert!(!e.le(&d));
}

#[test]
fn substring_search_finds_needles() {
    assert!(str_contains_sub("Tuesday", "ues"));
    assert!(str_contains_sub("Tuesday", ""));
    assert!(!str_contains_sub("Tuesday", "mon"));
    assert!(!str_contains_sub("", "a"));
    assert!(str_contains_sub("aaab", "aab"));
}

#[test]
fn filters_select_matching_records() {
    let records = vec![
        record(0, 1, [1, 2, 3, 4, 5, 6], "Tuesday"),
        record(1, 2, [1, 2, 3, 4, 5, 7], "Thursday"),
        record(2, 3, [2, 3, 4, 5, 6, 7], "Sunday"),
    ];
    let by_day = filter_by_day(&records, &FilterByWeekRequest { day: "urs".to_string() });
    assert_eq!(by_day.len(), 1);
    assert_eq!(by_day[0].seq, 1);

    let by_seq = filter_by_seq_range(&records, &FilterBySeqRangeRequest { start: 1, end: 2 });
    assert_eq!(by_seq.len(), 2);
    assert_eq!(by_seq[0].seq, 1);
    assert_eq!(by_seq[1].seq, 2);

    let by_date = filter_by_date_range(
        &records,
        &FilterByDateRangeRequest {
            start: DrawDate { year: 2024, month: 1, day: 2 },
            end: DrawDate { year: 2024, month: 1, day: 3 },
        },
    );
    assert_eq!(by_date.len(), 2);
}

#[test]
fn collector_converts_valid_rows() {
    let page = RawPrizePage {
        total: 2,
        prize_records: vec![
            RawPrizeRecord {
                code: "a".to_string(),
                date: DrawDate { year: 2024, month: 1, day: 1 },
                week: "Tue".to_string(),
                red: vec![1, 2, 3, 4, 5, 6],
                blue: 9,
            },
            RawPrizeRecord {
                code: "b".to_string(),
                date: DrawDate { year: 2024, month: 1, day: 3 },
                week: "Thu".to_string(),
                red: vec![7, 8, 9, 10, 11, 12],
                blue: 16,
            },
        ],
    };
    let out = collect_business_obj(&page, None).unwrap();
    assert_eq!(out.len(), 2);
    assert_eq!(out[0].seq, 0);
    assert_eq!(out[1].seq, 1);
    assert_eq!(out[0].blue_ball.value, 9);
    assert_eq!(out[1].red_balls[5].value, 12);
    assert_eq!(out[0].day, "Tue");
}

#[test]
fn collector_takes_the_requested_count() {
    let row = RawPrizeRecord {
        code: "a".to_string(),
        date: DrawDate { year: 2024, month: 1, day: 1 },
        week: "Tue".to_string(),
        red: vec![1, 2, 3, 4, 5, 6],
        blue: 1,
    };
    let page = RawPrizePage {
        total: 3,
        prize_records: vec![row.clone(), row.clone(), row.clone()],
    };
    let out = collect_business_obj(&page, Some(2)).unwrap();
    assert_eq!(out.len(), 2);
}

#[test]
fn collector_rejects_invalid_rows() {
    let page = RawPrizePage {
        total: 1,
        prize_records: vec![RawPrizeRecord {
            code: "a".to_string(),
            date: DrawDate { year: 2024, month: 1, day: 1 },
            week: "Tue".to_string(),
            red: vec![1, 2, 3, 4, 5],
            blue: 1,
        }],
    };
    assert!(matches!(collect_business_obj(&page, None), Err(Error::OtherFailure(_))));
    let page2 = RawPrizePage {
        total: 1,
        prize_records: vec![RawPrizeRecord {
            code: "a".to_string(),
            date: DrawDate { year: 2024, month: 1, day: 1 },
            week: "Tue".to_string(),
            red: vec![1, 2, 3, 4, 5, 6],
            blue: 17,
        }],
    };
    assert!(matches!(collect_business_obj(&page2, None), Err(Error::InvalidBallValue(17))));
}
