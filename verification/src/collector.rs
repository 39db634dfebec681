//! Conversion of raw draw-page rows into validated business records.
//!
//! Fetching the page itself (from a file or the network) lives outside the
//! library; the rows arrive here as plain values.

use vstd::prelude::*;

use crate::domain::{
    BLUE_BALL_COUNT, BlueBall, DrawDate, PrBusinessObj, RED_BALL_COUNT, RedBall,
};
use crate::error::Error;

verus! {

/// Where a draw page comes from.
pub enum Collector {
    Local,
    Remote,
}

/// One raw row of a draw page, as parsed from the wire.
#[derive(Clone, Debug)]
pub struct RawPrizeRecord {
    pub code: String,
    pub date: DrawDate,
    pub week: String,
    pub red: Vec<u8>,
    pub blue: u8,
}

/// A raw draw page: the declared total and the rows.
#[derive(Clone, Debug)]
pub struct RawPrizePage {
    pub total: usize,
    pub prize_records: Vec<RawPrizeRecord>,
}

/// Whether a raw row can become a valid record: six red values, every ball
/// in its domain, the red values pairwise distinct.
pub open spec fn row_valid(row: RawPrizeRecord) -> bool {
    &&& row.red@.len() == 6
    &&& 1 <= row.blue <= BLUE_BALL_COUNT
    &&& forall|i: int| 0 <= i < 6 ==> 1 <= #[trigger] row.red@[i] <= RED_BALL_COUNT
    &&& forall|i: int, j: int| 0 <= i < j < 6 ==> row.red@[i] != row.red@[j]
}

/// Whether a record faithfully mirrors a raw row under the given sequence
/// index.
pub open spec fn record_of_row(rec: PrBusinessObj, row: RawPrizeRecord, seq: int) -> bool {
    &&& rec.wf()
    &&& rec.code@ == row.code@
    &&& rec.seq == seq
    &&& rec.date == row.date
    &&& rec.day@ == row.week@
    &&& rec.blue_ball.value == row.blue
    &&& forall|i: int| 0 <= i < 6 ==> (#[trigger] rec.red_balls[i]).value == row.red@[i]
}

/// How many rows the conversion takes: the requested count, or the page's
/// declared total when none is requested; at least one row is taken from a
/// non-empty page.
pub open spec fn collected_len(rows: int, record_size: int) -> int {
    if rows == 0 {
        0
    } else if record_size < 1 {
        if rows < 1 {
            rows
        } else {
            1
        }
    } else if rows < record_size {
        rows
    } else {
        record_size
    }
}

/// The requested row count: the caller's, or the page's declared total.
pub open spec fn spec_requested(recent: Option<usize>, total: usize) -> usize {
    if recent is Some {
        recent->0
    } else {
        total
    }
}

/// Whether every row the conversion takes is valid.
pub open spec fn taken_rows_valid(page: RawPrizePage, record_size: usize) -> bool {
    forall|k: int|
        0 <= k < collected_len(page.prize_records@.len() as int, record_size as int)
            ==> row_valid(#[trigger] page.prize_records@[k])
}

/// Turns the raw rows into validated records, assigning sequence indices in
/// row order. Succeeds exactly when every taken row is valid; the first
/// invalid row's fault is reported.
pub fn collect_business_obj(page: &RawPrizePage, recent_record_size: Option<usize>) -> (r: Result<
    Vec<PrBusinessObj>,
    Error,
>)
    ensures
        ({
            let record_size = spec_requested(recent_record_size, page.total);
            let n = collected_len(page.prize_records@.len() as int, record_size as int);
            &&& (r is Ok <==> taken_rows_valid(*page, record_size))
            &&& r matches Ok(v) ==> {
                &&& v@.len() == n
                &&& forall|k: int|
                    0 <= k < n ==> record_of_row(#[trigger] v@[k], page.prize_records@[k], k)
            }
        }),
{
    let record_size = match recent_record_size {
        Some(n) => n,
        None => page.total,
    };
    proof {
        assert(record_size == spec_requested(recent_record_size, page.total));
    }
    let ghost n = collected_len(page.prize_records@.len() as int, record_size as int);
    let mut out: Vec<PrBusinessObj> = Vec::new();
    let mut seq: usize = 0;
    let rows = &page.prize_records;
    while seq < rows.len()
        invariant_except_break
            seq < n || seq >= rows@.len() || n == 0,
        invariant
            rows == &page.prize_records,
            record_size == spec_requested(recent_record_size, page.total),
            n == collected_len(rows@.len() as int, record_size as int),
            seq <= rows@.len(),
            seq <= n,
            out@.len() == seq,
            forall|k: int| 0 <= k < seq ==> record_of_row(#[trigger] out@[k], rows@[k], k),
            forall|k: int| 0 <= k < seq ==> row_valid(#[trigger] rows@[k]),
        ensures
            rows == &page.prize_records,
            seq == n,
            out@.len() == n,
            forall|k: int| 0 <= k < n ==> record_of_row(#[trigger] out@[k], rows@[k], k),
            forall|k: int| 0 <= k < n ==> row_valid(#[trigger] rows@[k]),
        decreases rows@.len() - seq,
    {
        proof {
            assert(0 <= seq < n);
        }
        let row = &rows[seq];
        if row.red.len() != 6 {
            proof {
                assert(!row_valid(rows@[seq as int]));
                assert(!taken_rows_valid(*page, record_size)) by {
                    assert(0 <= seq < n && !row_valid(page.prize_records@[seq as int]));
                }
            }
            return Err(Error::OtherFailure("a draw row must carry six red balls".to_owned()));
        }
        let blue_ball = match BlueBall::new(row.blue) {
            Ok(b) => b,
            Err(e) => {
                proof {
                    assert(!row_valid(rows@[seq as int]));
                    assert(!taken_rows_valid(*page, record_size)) by {
                        assert(0 <= seq < n && !row_valid(page.prize_records@[seq as int]));
                    }
                }
                return Err(e);
            },
        };
        let red_balls = [
            RedBall { value: row.red[0] },
            RedBall { value: row.red[1] },
            RedBall { value: row.red[2] },
            RedBall { value: row.red[3] },
            RedBall { value: row.red[4] },
            RedBall { value: row.red[5] },
        ];
        let rec = match PrBusinessObj::new(
            row.code.clone(),
            seq,
            row.date,
            row.week.clone(),
            blue_ball,
            red_balls,
        ) {
            Ok(rec) => rec,
            Err(e) => {
                proof {
                    assert(!row_valid(rows@[seq as int])) by {
                        if row_valid(rows@[seq as int]) {
                            assert(forall|i: int|
                                0 <= i < 6 ==> (#[trigger] red_balls[i]).value
                                    == rows@[seq as int].red@[i]);
                            assert(forall|i: int, j: int|
                                0 <= i < j < 6 ==> red_balls[i] != red_balls[j]);
                            assert(forall|i: int| 0 <= i < 6 ==> (#[trigger] red_balls[i]).wf());
                        }
                    }
                    assert(!taken_rows_valid(*page, record_size)) by {
                        assert(0 <= seq < n && !row_valid(page.prize_records@[seq as int]));
                    }
                }
                return Err(e);
            },
        };
        proof {
            assert(row_valid(rows@[seq as int]));
        }
        out.push(rec);
        seq = seq + 1;
        if seq >= record_size {
            proof {
                assert(seq == n);
            }
            break ;
        }
    }
    proof {
        assert(taken_rows_valid(*page, record_size));
    }
    Ok(out)
}

} // verus!
