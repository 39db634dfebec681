use ssq_tool::context::{ProcessorContext, ProcessorContextAttr};
use ssq_tool::occur::{BallOccurrences, OccurrenceDetail};
use ssq_tool::processor::{ball_occurs_attr, prized_blue_counts_attr};

fn sample_occurrences(marker: usize) -> BallOccurrences {
    let mut blue = Vec::new();
    for _ in 0..16 {
        let mut d = OccurrenceDetail::default();
        d.set_latest_occur_seq(marker);
        blue.push(d);
    }
    let mut red = Vec::new();
    for _ in 0..33 {
        red.push(OccurrenceDetail::default());
    }
    BallOccurrences { blue, red }
}

#[test]
fn set_then_get_with_the_identical_key_returns_the_value() {
    let mut ctx = ProcessorContext::new(Vec::new(), 5);
    let prev = ctx.set_attribute(&ball_occurs_attr(), sample_occurrences(7));
    assert!(prev.is_none());
    let got = ctx.get_attribute(&ball_occurs_attr()).expect("the stored value must be found");
    assert_eq!(got.blue[0].latest_occur_seq(), 7);
}

#[test]
fn get_with_the_same_name_but_another_type_is_absent() {
    let mut ctx = ProcessorContext::new(Vec::new(), 5);
    ctx.set_attribute(&ball_occurs_attr(), sample_occurrences(1));
    // Same name as the occurrence attribute, but a different value type.
    let other: ProcessorContextAttr<Vec<usize>> = ProcessorContextAttr::new("BALL_OCCURS");
    assert!(ctx.get_attribute(&other).is_none());
}

/// Keys are (name, type) pairs: values of different types under one name
/// occupy different slots, so neither set replaces or reveals the other.
#[test]
fn values_of_different_types_coexist_under_one_name() {
    let mut ctx = ProcessorContext::new(Vec::new(), 5);
    let counts_key: ProcessorContextAttr<Vec<usize>> = ProcessorContextAttr::new("SHARED");
    let pairs_key: ProcessorContextAttr<Vec<(u8, usize)>> = ProcessorContextAttr::new("SHARED");
    assert!(ctx.set_attribute(&counts_key, vec![1usize, 2]).is_none());
    // Setting at the same name but another type returns no previous value...
    assert!(ctx.set_attribute(&pairs_key, vec![(3u8, 4usize)]).is_none());
    // ...and both entries survive, each reachable at its own type.
    assert_eq!(ctx.get_attribute(&counts_key).unwrap(), &vec![1usize, 2]);
    assert_eq!(ctx.get_attribute(&pairs_key).unwrap(), &vec![(3u8, 4usize)]);
}

#[test]
fn get_of_a_missing_name_is_absent() {
    let ctx = ProcessorContext::new(Vec::new(), 5);
    assert!(ctx.get_attribute(&ball_occurs_attr()).is_none());
    assert!(ctx.get_attribute(&prized_blue_counts_attr()).is_none());
}

#[test]
fn setting_twice_replaces_and_returns_the_previous_value() {
    let mut ctx = ProcessorContext::new(Vec::new(), 5);
    assert!(ctx.set_attribute(&ball_occurs_attr(), sample_occurrences(1)).is_none());
    let prev = ctx.set_attribute(&ball_occurs_attr(), sample_occurrences(2));
    assert!(prev.is_some());
    let got = ctx.get_attribute(&ball_occurs_attr()).unwrap();
    assert_eq!(got.blue[0].latest_occur_seq(), 2);
}

#[test]
fn distinct_names_hold_distinct_values() {
    let mut ctx = ProcessorContext::new(Vec::new(), 5);
    ctx.set_attribute(&prized_blue_counts_attr(), vec![1usize, 2, 3]);
    let other: ProcessorContextAttr<Vec<usize>> = ProcessorContextAttr::new("ANOTHER_NAME");
    ctx.set_attribute(&other, vec![9usize]);
    assert_eq!(ctx.get_attribute(&prized_blue_counts_attr()).unwrap(), &vec![1usize, 2, 3]);
    assert_eq!(ctx.get_attribute(&other).unwrap(), &vec![9usize]);
}

#[test]
fn the_context_keeps_records_and_result_size() {
    let ctx = ProcessorContext::new(Vec::new(), 42);
    assert_eq!(ctx.expect_result_size(), 42);
    assert_eq!(ctx.get_prize_records().len(), 0);
}
