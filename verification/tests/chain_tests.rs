use ssq_tool::context::ProcessorContext;
use ssq_tool::counts::{CountPrizedBlueballProcessor, CountPrizedRedballProcessor};
use ssq_tool::domain::{BlueBall, DrawDate, PrBusinessObj, RedBall};
use ssq_tool::error::Error;
use ssq_tool::mining::{BallRelationshipFpProcessor, BlueBallFollowingOccurrenceProcessor};
use ssq_tool::occur::OccurProcessor;
use ssq_tool::occur_based::BallOccurProcessor;
use ssq_tool::prepare::{PrepareProcessor, generate_data_storage};
use ssq_tool::processor::{
    Processor, ProcessorChain, ProcessorStage, create_summary_processor_chain,
    relationship_based_results_attr, summaries_attr,
};
use ssq_tool::relationship::RelationshipProcessor;
use ssq_tool::summary::SummaryProcessor;

fn reds(v: [u8; 6]) -> [RedBall; 6] {
    [
        RedBall { value: v[0] },
        RedBall { value: v[1] },
        RedBall { value: v[2] },
        RedBall { value: v[3] },
        RedBall { value: v[4] },
        RedBall { value: v[5] },
    ]
}

fn record(seq: usize, blue: u8, red: [u8; 6]) -> PrBusinessObj {
    PrBusinessObj {
        code: format!("{seq}"),
        seq,
        date: DrawDate { year: 2024, month: 1, day: (seq + 1) as u8 },
        day: "Tue".to_string(),
        blue_ball: BlueBall { value: blue },
        red_balls: reds(red),
    }
}

fn ten_records() -> Vec<PrBusinessObj> {
    vec![
        record(0, 1, [1, 2, 3, 4, 5, 6]),
        record(1, 5, [1, 2, 3, 4, 5, 7]),
        record(2, 9, [2, 3, 4, 5, 6, 8]),
        record(3, 5, [1, 2, 3, 4, 6, 9]),
        record(4, 12, [10, 11, 12, 13, 14, 15]),
        record(5, 1, [1, 2, 3, 5, 6, 7]),
        record(6, 7, [20, 21, 22, 23, 24, 25]),
        record(7, 5, [1, 2, 4, 5, 6, 7]),
        record(8, 16, [28, 29, 30, 31, 32, 33]),
        record(9, 3, [1, 3, 4, 5, 6, 7]),
    ]
}

/// The standard pipeline over a fixed ten-record history yields exactly the
/// configured number of picks, each with distinct blue balls and six
/// distinct ascending red balls.
#[test]
fn the_full_chain_produces_the_configured_result_size() {
    let mut chain = ProcessorChain::new("AnalysisChain");
    chain.add_processor(ProcessorStage::Occur(OccurProcessor));
    chain.add_processor(ProcessorStage::Relationship(RelationshipProcessor));
    chain.add_processor(ProcessorStage::BallRelationshipFp(BallRelationshipFpProcessor::new(2)));
    chain.add_processor(
        ProcessorStage::BlueBallFollowingOccurrence(BlueBallFollowingOccurrenceProcessor),
    );
    chain.add_processor(ProcessorStage::Summary(SummaryProcessor));
    let mut ctx = ProcessorContext::new(ten_records(), 5);
    chain.execute(&mut ctx).expect("the full chain must succeed");
    let picks = ctx.get_attribute(&summaries_attr()).expect("the summaries must be stored");
    assert_eq!(picks.len(), 5);
    let mut blues = std::collections::HashSet::new();
    for pick in picks.iter() {
        assert!(blues.insert(pick.blue_ball().value()));
        let values: Vec<u8> = pick.red_ball().iter().map(|r| r.value()).collect();
        for w in values.windows(2) {
            assert!(w[0] < w[1]);
        }
        for v in &values {
            assert!((1..=33).contains(v));
        }
    }
}

/// Omitting the occurrence stage starves the synthesizer: the chain fails
/// with the missing-attribute error and reports the attribute's name.
#[test]
fn an_omitted_occurrence_stage_fails_the_chain() {
    let mut chain = ProcessorChain::new("Broken");
    chain.add_processor(ProcessorStage::Relationship(RelationshipProcessor));
    chain.add_processor(ProcessorStage::Summary(SummaryProcessor));
    let mut ctx = ProcessorContext::new(ten_records(), 5);
    let err = chain.execute(&mut ctx).unwrap_err();
    match err {
        Error::ContextAttrNotExist(name) => assert_eq!(name, "BALL_OCCURS"),
        other => panic!("expected a missing-attribute failure, got {other:?}"),
    }
}

/// Omitting the relationship stage starves the synthesizer just the same.
#[test]
fn an_omitted_relationship_stage_fails_the_chain() {
    let mut chain = ProcessorChain::new("Broken");
    chain.add_processor(ProcessorStage::Occur(OccurProcessor));
    chain.add_processor(ProcessorStage::Summary(SummaryProcessor));
    let mut ctx = ProcessorContext::new(ten_records(), 5);
    let err = chain.execute(&mut ctx).unwrap_err();
    assert!(matches!(err, Error::ContextAttrNotExist(_)));
}

/// A chain is itself a stage: the summarizing sub-chain nests inside an
/// outer chain.
#[test]
fn chains_nest_as_stages() {
    let mut chain = ProcessorChain::new("Outer");
    chain.add_processor(ProcessorStage::Relationship(RelationshipProcessor));
    chain.add_processor(ProcessorStage::BallOccur(BallOccurProcessor));
    chain.add_processor(ProcessorStage::Chain(Box::new(create_summary_processor_chain())));
    let mut ctx = ProcessorContext::new(ten_records(), 5);
    chain.execute(&mut ctx).expect("the nested chain must succeed");
    let picks = ctx
        .get_attribute(&relationship_based_results_attr())
        .expect("the nested chain's results must be stored");
    assert!(picks.len() <= 5);
    for pick in picks.iter() {
        let values: Vec<u8> = pick.red_ball().iter().map(|r| r.value()).collect();
        for w in values.windows(2) {
            assert!(w[0] < w[1]);
        }
    }
}

#[test]
fn stage_names_identify_the_processors() {
    let stage = ProcessorStage::Occur(OccurProcessor);
    assert_eq!(stage.stage_name(), "OccurProcessor");
    let chain = ProcessorChain::new("MyChain");
    assert_eq!(chain.chain_name(), "MyChain");
}

#[test]
fn counting_stages_count_draws() {
    let records = ten_records();
    let blue_counts = CountPrizedBlueballProcessor::analyze(&records);
    assert_eq!(blue_counts[0], 2); // blue 1 drawn twice
    assert_eq!(blue_counts[4], 3); // blue 5 drawn three times
    assert_eq!(blue_counts[1], 0);
    let red_counts = CountPrizedRedballProcessor::analyze(&records);
    assert_eq!(red_counts[0], 6); // red 1
    assert_eq!(red_counts[32], 1); // red 33
}

#[test]
fn presence_columns_mark_the_draws() {
    let records = ten_records();
    let (blue_cols, red_cols) = PrepareProcessor::analyze(&records);
    assert_eq!(blue_cols.len(), 16);
    assert_eq!(red_cols.len(), 33);
    assert!(blue_cols[0][0]); // blue 1 in record 0
    assert!(!blue_cols[0][1]);
    assert!(red_cols[0][0]); // red 1 in record 0
    assert!(!red_cols[0][2]);
}

#[test]
fn storage_columns_follow_draw_positions() {
    let records = ten_records();
    let cols = generate_data_storage(&records);
    assert_eq!(cols.len(), 6);
    assert_eq!(cols[0][0], 1);
    assert_eq!(cols[5][0], 6);
    assert_eq!(cols[5][8], 33);
}
