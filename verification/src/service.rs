//! Record-selection queries over a draw history: by weekday label, by
//! sequence-index range and by date range.

use vstd::prelude::*;

use crate::domain::{DrawDate, PrBusinessObj};

verus! {

/// Selects records whose weekday label contains the given text.
pub struct FilterByWeekRequest {
    pub day: String,
}

/// Selects records whose sequence index lies in `start..=end`.
pub struct FilterBySeqRangeRequest {
    pub start: usize,
    pub end: usize,
}

/// Selects records whose date lies between `start` and `end`, inclusive.
pub struct FilterByDateRangeRequest {
    pub start: DrawDate,
    pub end: DrawDate,
}

/// Whether `needle` occurs in `hay` starting at position `i`.
pub open spec fn contains_at(hay: Seq<char>, needle: Seq<char>, i: int) -> bool {
    0 <= i && i + needle.len() <= hay.len() && hay.subrange(i, i + needle.len()) == needle
}

/// Whether `needle` occurs anywhere in `hay`.
pub open spec fn spec_contains_sub(hay: Seq<char>, needle: Seq<char>) -> bool {
    exists|i: int| contains_at(hay, needle, i)
}

/// The characters of a string as a vector.
fn chars_of(s: &str) -> (v: Vec<char>)
    ensures
        v@ == s@,
{
    let mut v: Vec<char> = Vec::new();
    for c in it: s.chars()
        invariant
            v@ == it.seq().take(it.index() as int),
    {
        v.push(c);
    }
    assert(v@ =~= s@);
    v
}

/// Substring search: whether `needle` occurs in `hay`.
pub fn str_contains_sub(hay: &str, needle: &str) -> (r: bool)
    ensures
        r == spec_contains_sub(hay@, needle@),
{
    let hv = chars_of(hay);
    let nv = chars_of(needle);
    if nv.len() > hv.len() {
        assert(!spec_contains_sub(hay@, needle@));
        return false;
    }
    let mut i: usize = 0;
    while i <= hv.len() - nv.len()
        invariant
            nv.len() <= hv.len(),
            hv@ == hay@,
            nv@ == needle@,
            i <= hv.len() - nv.len() + 1,
            forall|k: int| 0 <= k < i ==> !contains_at(hay@, needle@, k),
        decreases hv.len() - nv.len() + 1 - i,
    {
        let mut j: usize = 0;
        let mut matched: bool = true;
        let ghost mut mis: int = 0;
        while j < nv.len()
            invariant
                nv.len() <= hv.len(),
                i + nv.len() <= hv.len(),
                hv@ == hay@,
                nv@ == needle@,
                j <= nv.len(),
                matched ==> (forall|k: int| 0 <= k < j ==> hay@[i + k] == needle@[k]),
                !matched ==> j == nv.len() && 0 <= mis < needle@.len() && hay@[i + mis]
                    != needle@[mis],
            decreases nv.len() - j,
        {
            if hv[i + j] != nv[j] {
                matched = false;
                proof {
                    mis = j as int;
                }
                j = nv.len();
            } else {
                j = j + 1;
            }
        }
        if matched {
            assert(contains_at(hay@, needle@, i as int)) by {
                assert(hay@.subrange(i as int, i + needle@.len()) =~= needle@);
            }
            return true;
        }
        proof {
            if contains_at(hay@, needle@, i as int) {
                assert(hay@.subrange(i as int, i + needle@.len())[mis] == needle@[mis]);
                assert(false);
            }
        }
        i = i + 1;
    }
    assert forall|k: int| contains_at(hay@, needle@, k) implies false by {
        assert(0 <= k <= hv.len() - nv.len());
        assert(!contains_at(hay@, needle@, k));
    }
    false
}

/// Whether a record's weekday label contains the requested text.
pub open spec fn day_selected(rec: PrBusinessObj, day: Seq<char>) -> bool {
    spec_contains_sub(rec.day@, day)
}

/// Whether a record's sequence index lies in the requested range.
pub open spec fn seq_selected(rec: PrBusinessObj, start: usize, end: usize) -> bool {
    start <= rec.seq <= end
}

/// Whether a record's date lies in the requested range.
pub open spec fn date_selected(rec: PrBusinessObj, start: DrawDate, end: DrawDate) -> bool {
    start.spec_key() <= rec.date.spec_key() <= end.spec_key()
}

/// Returns the records whose weekday label contains the requested text, in
/// their original order.
pub fn filter_by_day(records: &Vec<PrBusinessObj>, request: &FilterByWeekRequest) -> (r: Vec<
    PrBusinessObj,
>)
    ensures
        r@ == records@.filter(|rec: PrBusinessObj| day_selected(rec, request.day@)),
{
    let mut r: Vec<PrBusinessObj> = Vec::new();
    let mut i: usize = 0;
    while i < records.len()
        invariant
            i <= records@.len(),
            r@ == records@.take(i as int).filter(
                |rec: PrBusinessObj| day_selected(rec, request.day@),
            ),
        decreases records@.len() - i,
    {
        proof {
            assert(records@.take(i + 1) =~= records@.take(i as int).push(records@[i as int]));
            records@.take(i as int).lemma_filter_push(
                records@[i as int],
                |rec: PrBusinessObj| day_selected(rec, request.day@),
            );
        }
        if str_contains_sub(records[i].day.as_str(), request.day.as_str()) {
            r.push(records[i].clone());
        }
        i = i + 1;
    }
    proof {
        assert(records@.take(records@.len() as int) =~= records@);
    }
    r
}

/// Returns the records whose sequence index lies in `start..=end`, in their
/// original order.
pub fn filter_by_seq_range(records: &Vec<PrBusinessObj>, request: &FilterBySeqRangeRequest) -> (r:
    Vec<PrBusinessObj>)
    ensures
        r@ == records@.filter(
            |rec: PrBusinessObj| seq_selected(rec, request.start, request.end),
        ),
{
    let mut r: Vec<PrBusinessObj> = Vec::new();
    let mut i: usize = 0;
    while i < records.len()
        invariant
            i <= records@.len(),
            r@ == records@.take(i as int).filter(
                |rec: PrBusinessObj| seq_selected(rec, request.start, request.end),
            ),
        decreases records@.len() - i,
    {
        proof {
            assert(records@.take(i + 1) =~= records@.take(i as int).push(records@[i as int]));
            records@.take(i as int).lemma_filter_push(
                records@[i as int],
                |rec: PrBusinessObj| seq_selected(rec, request.start, request.end),
            );
        }
        if request.start <= records[i].seq && records[i].seq <= request.end {
            r.push(records[i].clone());
        }
        i = i + 1;
    }
    proof {
        assert(records@.take(records@.len() as int) =~= records@);
    }
    r
}

/// Returns the records whose date lies between `start` and `end` inclusive,
/// in their original order.
pub fn filter_by_date_range(records: &Vec<PrBusinessObj>, request: &FilterByDateRangeRequest) -> (
    r: Vec<PrBusinessObj>)
    ensures
        r@ == records@.filter(
            |rec: PrBusinessObj| date_selected(rec, request.start, request.end),
        ),
{
    let mut r: Vec<PrBusinessObj> = Vec::new();
    let mut i: usize = 0;
    while i < records.len()
        invariant
            i <= records@.len(),
            r@ == records@.take(i as int).filter(
                |rec: PrBusinessObj| date_selected(rec, request.start, request.end),
            ),
        decreases records@.len() - i,
    {
        proof {
            assert(records@.take(i + 1) =~= records@.take(i as int).push(records@[i as int]));
            records@.take(i as int).lemma_filter_push(
                records@[i as int],
                |rec: PrBusinessObj| date_selected(rec, request.start, request.end),
            );
        }
        if request.start.le(&records[i].date) && records[i].date.le(&request.end) {
            r.push(records[i].clone());
        }
        i = i + 1;
    }
    proof {
        assert(records@.take(records@.len() as int) =~= records@);
    }
    r
}

} // verus!
