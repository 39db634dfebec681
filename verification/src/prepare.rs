//! Normalization of the draw history into per-ball presence columns.

use vstd::prelude::*;

use crate::domain::{BLUE_BALL_COUNT, PrBusinessObj, RED_BALL_COUNT};

verus! {

/// The presence column of one blue ball: entry `k` says whether the ball was
/// drawn in record `k`.
pub open spec fn blue_column(records: Seq<PrBusinessObj>, blue: u8) -> Seq<bool> {
    Seq::new(records.len(), |k: int| records[k].blue_ball.value == blue)
}

/// The presence column of one red ball.
pub open spec fn red_column(records: Seq<PrBusinessObj>, red: u8) -> Seq<bool> {
    Seq::new(records.len(), |k: int| records[k].spec_has_red(red))
}

/// Whether the columns are the blue domain's presence columns.
pub open spec fn blue_columns_of(v: Seq<Vec<bool>>, records: Seq<PrBusinessObj>) -> bool {
    &&& v.len() == BLUE_BALL_COUNT
    &&& forall|i: int|
        0 <= i < BLUE_BALL_COUNT ==> #[trigger] v[i]@ == blue_column(records, (i + 1) as u8)
}

/// Whether the columns are the red domain's presence columns.
pub open spec fn red_columns_of(v: Seq<Vec<bool>>, records: Seq<PrBusinessObj>) -> bool {
    &&& v.len() == RED_BALL_COUNT
    &&& forall|i: int|
        0 <= i < RED_BALL_COUNT ==> #[trigger] v[i]@ == red_column(records, (i + 1) as u8)
}

/// Turns the draw history into per-ball boolean presence columns, one column
/// per ball of each domain, ready for a tabular consumer.
pub struct PrepareProcessor;

impl PrepareProcessor {
    /// Column `i` of the first result marks the records drawing blue ball
    /// `i + 1`; column `i` of the second marks those carrying red ball
    /// `i + 1`.
    pub fn analyze(records: &Vec<PrBusinessObj>) -> (r: (Vec<Vec<bool>>, Vec<Vec<bool>>))
        ensures
            r.0@.len() == BLUE_BALL_COUNT,
            forall|i: int|
                0 <= i < BLUE_BALL_COUNT ==> #[trigger] r.0@[i]@ == blue_column(
                    records@,
                    (i + 1) as u8,
                ),
            r.1@.len() == RED_BALL_COUNT,
            forall|i: int|
                0 <= i < RED_BALL_COUNT ==> #[trigger] r.1@[i]@ == red_column(
                    records@,
                    (i + 1) as u8,
                ),
    {
        let mut blue_cols: Vec<Vec<bool>> = Vec::new();
        let mut v: u8 = 1;
        while v <= BLUE_BALL_COUNT
            invariant
                1 <= v <= BLUE_BALL_COUNT + 1,
                blue_cols@.len() == v - 1,
                forall|i: int|
                    0 <= i < blue_cols@.len() ==> #[trigger] blue_cols@[i]@ == blue_column(
                        records@,
                        (i + 1) as u8,
                    ),
            decreases BLUE_BALL_COUNT + 1 - v,
        {
            let mut col: Vec<bool> = Vec::new();
            let mut k: usize = 0;
            while k < records.len()
                invariant
                    k <= records@.len(),
                    col@.len() == k,
                    forall|t: int|
                        0 <= t < k ==> #[trigger] col@[t] == (records@[t].blue_ball.value == v),
                decreases records@.len() - k,
            {
                col.push(records[k].blue_ball.value == v);
                k = k + 1;
            }
            proof {
                assert(col@ =~= blue_column(records@, v));
            }
            blue_cols.push(col);
            v = v + 1;
        }
        let mut red_cols: Vec<Vec<bool>> = Vec::new();
        let mut w: u8 = 1;
        while w <= RED_BALL_COUNT
            invariant
                1 <= w <= RED_BALL_COUNT + 1,
                red_cols@.len() == w - 1,
                forall|i: int|
                    0 <= i < red_cols@.len() ==> #[trigger] red_cols@[i]@ == red_column(
                        records@,
                        (i + 1) as u8,
                    ),
            decreases RED_BALL_COUNT + 1 - w,
        {
            let mut col: Vec<bool> = Vec::new();
            let mut k: usize = 0;
            while k < records.len()
                invariant
                    k <= records@.len(),
                    col@.len() == k,
                    forall|t: int| 0 <= t < k ==> #[trigger] col@[t] == records@[t].spec_has_red(w),
                decreases records@.len() - k,
            {
                col.push(records[k].has_red(w));
                k = k + 1;
            }
            proof {
                assert(col@ =~= red_column(records@, w));
            }
            red_cols.push(col);
            w = w + 1;
        }
        (blue_cols, red_cols)
    }
}

/// The red balls of the history arranged by draw position: column `i` of the
/// result holds, for every record, the record's red ball at position `i`.
pub fn generate_data_storage(records: &Vec<PrBusinessObj>) -> (r: Vec<Vec<u8>>)
    ensures
        r@.len() == 6,
        forall|i: int| 0 <= i < 6 ==> (#[trigger] r@[i])@.len() == records@.len(),
        forall|i: int, k: int|
            0 <= i < 6 && 0 <= k < records@.len() ==> #[trigger] r@[i]@[k]
                == records@[k].red_balls[i].value,
{
    let mut r: Vec<Vec<u8>> = Vec::new();
    let mut i: usize = 0;
    while i < 6
        invariant
            i <= 6,
            r@.len() == i,
            forall|t: int| 0 <= t < i ==> (#[trigger] r@[t])@.len() == records@.len(),
            forall|t: int, k: int|
                0 <= t < i && 0 <= k < records@.len() ==> #[trigger] r@[t]@[k]
                    == records@[k].red_balls[t].value,
        decreases 6 - i,
    {
        let mut col: Vec<u8> = Vec::new();
        let mut k: usize = 0;
        while k < records.len()
            invariant
                i < 6,
                k <= records@.len(),
                col@.len() == k,
                forall|t: int| 0 <= t < k ==> #[trigger] col@[t]
                    == records@[t].red_balls[i as int].value,
            decreases records@.len() - k,
        {
            col.push(records[k].red_balls[i].value);
            k = k + 1;
        }
        r.push(col);
        i = i + 1;
    }
    r
}

} // verus!
