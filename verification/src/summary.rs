//! The result-synthesis stage: merges occurrence statistics and relationship
//! counts into a deduplicated, ranked, size-bounded candidate set, with a
//! randomized tie-break before truncation.

use vstd::prelude::*;

use vstd::multiset::Multiset;
use vstd::relations::sorted_by;
use vstd::relations::total_ordering;

use crate::domain::{BLUE_BALL_COUNT, BlueBall, RED_BALL_COUNT, RedBall};
use crate::error::Error;
use crate::occur::{BallOccurrences, OccurrenceDetail};
use crate::processor::FinalProcessorChainResult;
use crate::relationship::BlueBallRelationship;
use crate::sorting::{
    dedup_first, sort_asc_u8, sort_index_keys_desc, sort_index_pairs_desc, sorted_asc_u8,
    sorted_asc_u8_at, sorted_index_keys_desc_at, sorted_index_pairs_desc_at, spec_dedup,
    lemma_spec_dedup_properties,
};

verus! {

/// The (index, weight) pairs in the canonical descending order: weight
/// descending, ties by index ascending.
pub open spec fn ranked_desc(pairs: Seq<(usize, usize)>) -> Seq<(usize, usize)> {
    pairs.sort_by(
        |x: (usize, usize), y: (usize, usize)| x.1 > y.1 || (x.1 == y.1 && x.0 <= y.0),
    )
}

/// The (index, key) pairs in the canonical descending order: key descending,
/// ties by index ascending.
pub open spec fn ranked_keys_desc(pairs: Seq<(usize, i64)>) -> Seq<(usize, i64)> {
    pairs.sort_by(|x: (usize, i64), y: (usize, i64)| x.1 > y.1 || (x.1 == y.1 && x.0 <= y.0))
}

/// Sorts (index, weight) pairs into the canonical descending order.
pub fn rank_pairs_desc(v: &mut Vec<(usize, usize)>)
    ensures
        final(v)@ == ranked_desc(old(v)@),
        final(v)@.len() == old(v)@.len(),
        final(v)@.to_multiset() == old(v)@.to_multiset(),
{
    let ghost unsorted = v@;
    sort_index_pairs_desc(v);
    proof {
        let leq = |x: (usize, usize), y: (usize, usize)| x.1 > y.1 || (x.1 == y.1 && x.0 <= y.0);
        assert(total_ordering(leq));
        unsorted.lemma_sort_by_ensures(leq);
        assert forall|a: int, b: int| 0 <= a < b < v@.len() implies leq(v@[a], v@[b]) by {
            assert(sorted_index_pairs_desc_at(v@[a], v@[b]));
        }
        assert(sorted_by(v@, leq));
        vstd::seq_lib::lemma_sorted_unique(v@, unsorted.sort_by(leq), leq);
        assert(v@ =~= ranked_desc(unsorted));
    }
}

/// Sorts (index, key) pairs into the canonical descending order.
pub fn rank_keys_desc(v: &mut Vec<(usize, i64)>)
    ensures
        final(v)@ == ranked_keys_desc(old(v)@),
        final(v)@.len() == old(v)@.len(),
        final(v)@.to_multiset() == old(v)@.to_multiset(),
{
    let ghost unsorted = v@;
    sort_index_keys_desc(v);
    proof {
        let leq = |x: (usize, i64), y: (usize, i64)| x.1 > y.1 || (x.1 == y.1 && x.0 <= y.0);
        assert(total_ordering(leq));
        unsorted.lemma_sort_by_ensures(leq);
        assert forall|a: int, b: int| 0 <= a < b < v@.len() implies leq(v@[a], v@[b]) by {
            assert(sorted_index_keys_desc_at(v@[a], v@[b]));
        }
        assert(sorted_by(v@, leq));
        vstd::seq_lib::lemma_sorted_unique(v@, unsorted.sort_by(leq), leq);
        assert(v@ =~= ranked_keys_desc(unsorted));
    }
}

/// The difference `projected - actual`, clamped into the signed key range.
pub open spec fn spec_diff_key(projected: usize, actual: usize) -> int {
    let d = projected - actual;
    if d > i64::MAX {
        i64::MAX as int
    } else if d < i64::MIN {
        i64::MIN as int
    } else {
        d
    }
}

pub fn diff_key(projected: usize, actual: usize) -> (k: i64)
    ensures
        k == spec_diff_key(projected, actual),
{
    if projected >= actual {
        let d = projected - actual;
        if d as u64 > i64::MAX as u64 {
            i64::MAX
        } else {
            d as i64
        }
    } else {
        let d = actual - projected;
        if d as u64 > i64::MAX as u64 {
            i64::MIN
        } else {
            -(d as i64)
        }
    }
}

/// Relies on `rand::random_range` over `0..bound`: a value below the bound,
/// drawn from the thread-local generator. Nothing else is promised of it.
#[verifier::external_body]
fn random_below(bound: usize) -> (r: usize)
    requires
        bound >= 1,
    ensures
        r < bound,
{
    rand::random_range(0..bound)
}

/// Shuffles the values randomly: the result holds exactly the values given,
/// kept with their multiplicities, in an order nothing is promised about.
pub fn shuffle_balls(v: &mut Vec<u8>)
    ensures
        final(v)@.len() == old(v)@.len(),
        final(v)@.to_multiset() == old(v)@.to_multiset(),
{
    broadcast use vstd::seq_lib::group_to_multiset_ensures;

    let mut out: Vec<u8> = Vec::new();
    proof {
        assert(out@.to_multiset().add(v@.to_multiset()) =~= old(v)@.to_multiset()) by {
            assert(out@.to_multiset() =~= Multiset::<u8>::empty());
        }
    }
    while v.len() > 0
        invariant
            out@.to_multiset().add(v@.to_multiset()) == old(v)@.to_multiset(),
            out@.len() + v@.len() == old(v)@.len(),
        decreases v@.len(),
    {
        broadcast use vstd::seq_lib::group_to_multiset_ensures;

        let ghost vpre = v@;
        let ghost outpre = out@;
        let idx = random_below(v.len());
        let x = v.remove(idx);
        out.push(x);
        proof {
            assert(vpre.contains(vpre[idx as int]));
            assert(vpre.to_multiset().count(x) > 0);
            assert(v@.to_multiset() == vpre.to_multiset().remove(x));
            assert(out@.to_multiset() == outpre.to_multiset().insert(x));
            assert(out@.to_multiset().add(v@.to_multiset()) =~= outpre.to_multiset().add(
                vpre.to_multiset(),
            ));
        }
    }
    proof {
        assert(v@.to_multiset() =~= Multiset::<u8>::empty());
        assert(out@.to_multiset() =~= out@.to_multiset().add(v@.to_multiset()));
    }
    *v = out;
}

/// Randomly selects `size` of the given values (all of them if fewer), and
/// returns them sorted ascending. Distinct inputs give distinct outputs.
pub fn final_selection(pool: Vec<u8>, size: usize) -> (r: Vec<u8>)
    ensures
        r@.len() == if size <= pool@.len() {
            size as int
        } else {
            pool@.len() as int
        },
        sorted_asc_u8(r@),
        forall|k: int| 0 <= k < r@.len() ==> pool@.contains(#[trigger] r@[k]),
        pool@.no_duplicates() ==> r@.no_duplicates(),
{
    broadcast use vstd::seq_lib::group_to_multiset_ensures;

    let ghost pool0 = pool@;
    let mut work = pool;
    shuffle_balls(&mut work);
    proof {
        assert forall|x: u8| work@.contains(x) implies pool0.contains(x) by {
            assert(work@.to_multiset().count(x) > 0);
        }
        if pool0.no_duplicates() {
            pool0.lemma_multiset_has_no_duplicates();
            work@.lemma_multiset_has_no_duplicates_conv();
        }
    }
    let ghost shuffled = work@;
    work.truncate(size);
    proof {
        if size <= shuffled.len() {
            assert(work@ == shuffled.subrange(0, size as int));
        }
        assert forall|x: u8| work@.contains(x) implies pool0.contains(x) by {
            let k = choose|k: int| 0 <= k < work@.len() && work@[k] == x;
            assert(shuffled[k] == x);
            assert(shuffled.contains(x));
        }
        if pool0.no_duplicates() {
            assert(work@.no_duplicates()) by {
                if size <= shuffled.len() {
                    assert(forall|a: int, b: int|
                        0 <= a < b < work@.len() ==> work@[a] == shuffled[a] && work@[b]
                            == shuffled[b]);
                }
            }
        }
    }
    let ghost truncated = work@;
    sort_asc_u8(&mut work);
    proof {
        assert forall|k: int| 0 <= k < work@.len() implies pool0.contains(#[trigger] work@[k]) by {
            assert(work@.contains(work@[k]));
            assert(work@.to_multiset().count(work@[k]) > 0);
            assert(truncated.contains(work@[k]));
        }
        if pool0.no_duplicates() {
            truncated.lemma_multiset_has_no_duplicates();
            work@.lemma_multiset_has_no_duplicates_conv();
        }
    }
    work
}

/// The three ranked blue-ball candidate lists of the synthesizer, merged and
/// deduplicated: by average interval ascending, by the margin of projected
/// over actual occurrences descending, and by occurrence count descending,
/// each cut to the requested size. Ties rank the smaller ball first. Ball
/// `i + 1` stands for entry `i`.
pub open spec fn spec_candidate_pool(details: Seq<OccurrenceDetail>, n: usize) -> Seq<u8> {
    let by_interval = ranked_desc(interval_rank_pairs(details));
    let by_diff = ranked_keys_desc(diff_rank_pairs(details));
    let by_count = ranked_desc(count_rank_pairs(details));
    spec_dedup(
        balls_of_pairs(take_front(by_interval, n)) + balls_of_key_pairs(take_front(by_diff, n))
            + balls_of_pairs(take_front(by_count, n)),
    )
}

/// The first `n` entries, or all of them if fewer.
pub open spec fn take_front<A>(s: Seq<A>, n: usize) -> Seq<A> {
    if n <= s.len() {
        s.take(n as int)
    } else {
        s
    }
}

/// Average-interval ranking keys: large weight for a small interval, so that
/// the canonical descending order ranks short intervals first.
pub open spec fn interval_rank_pairs(details: Seq<OccurrenceDetail>) -> Seq<(usize, usize)> {
    Seq::new(
        details.len(),
        |i: int| (i as usize, (usize::MAX - details[i].average_occur_interval) as usize),
    )
}

/// Projected-minus-actual ranking keys.
pub open spec fn diff_rank_pairs(details: Seq<OccurrenceDetail>) -> Seq<(usize, i64)> {
    Seq::new(
        details.len(),
        |i: int|
            (
                i as usize,
                spec_diff_key(
                    details[i].occurrence_count_by_average_interval,
                    details[i].occurrence_count_by_official_data,
                ) as i64,
            ),
    )
}

/// Occurrence-count ranking keys.
pub open spec fn count_rank_pairs(details: Seq<OccurrenceDetail>) -> Seq<(usize, usize)> {
    Seq::new(details.len(), |i: int| (i as usize, details[i].occurrence_count_by_official_data))
}

/// The ball values of ranked (index, weight) pairs.
pub open spec fn balls_of_pairs(pairs: Seq<(usize, usize)>) -> Seq<u8> {
    Seq::new(pairs.len(), |i: int| (pairs[i].0 + 1) as u8)
}

/// The ball values of ranked (index, key) pairs.
pub open spec fn balls_of_key_pairs(pairs: Seq<(usize, i64)>) -> Seq<u8> {
    Seq::new(pairs.len(), |i: int| (pairs[i].0 + 1) as u8)
}

fn truncate_pairs(v: &mut Vec<(usize, usize)>, n: usize)
    ensures
        final(v)@ == take_front(old(v)@, n),
{
    v.truncate(n);
    proof {
        if n <= old(v)@.len() {
            assert(final(v)@ =~= old(v)@.take(n as int));
        }
    }
}

fn truncate_key_pairs(v: &mut Vec<(usize, i64)>, n: usize)
    ensures
        final(v)@ == take_front(old(v)@, n),
{
    v.truncate(n);
    proof {
        if n <= old(v)@.len() {
            assert(final(v)@ =~= old(v)@.take(n as int));
        }
    }
}

/// Builds the merged, deduplicated candidate pool of one domain from its
/// occurrence statistics. Entry `i` of `details` belongs to ball `i + 1`; the
/// returned values are therefore ball values of that domain, each once.
pub fn select_candidates(details: &Vec<OccurrenceDetail>, n: usize) -> (r: Vec<u8>)
    requires
        details@.len() <= 254,
    ensures
        r@ == spec_candidate_pool(details@, n),
        r@.no_duplicates(),
        forall|k: int| 0 <= k < r@.len() ==> 1 <= #[trigger] r@[k] <= details@.len(),
{
    let len = details.len();
    let mut by_interval: Vec<(usize, usize)> = Vec::new();
    let mut by_diff: Vec<(usize, i64)> = Vec::new();
    let mut by_count: Vec<(usize, usize)> = Vec::new();
    let mut i: usize = 0;
    while i < len
        invariant
            len == details@.len(),
            i <= len,
            by_interval@ == interval_rank_pairs(details@.take(i as int)),
            by_diff@ == diff_rank_pairs(details@.take(i as int)),
            by_count@ == count_rank_pairs(details@.take(i as int)),
        decreases len - i,
    {
        let d = &details[i];
        by_interval.push((i, usize::MAX - d.average_occur_interval()));
        by_diff.push(
            (
                i,
                diff_key(
                    d.occurrence_count_by_average_interval(),
                    d.occurrence_count_by_official_data(),
                ),
            ),
        );
        by_count.push((i, d.occurrence_count_by_official_data()));
        proof {
            assert(by_interval@ =~= interval_rank_pairs(details@.take(i + 1)));
            assert(by_diff@ =~= diff_rank_pairs(details@.take(i + 1)));
            assert(by_count@ =~= count_rank_pairs(details@.take(i + 1)));
        }
        i = i + 1;
    }
    proof {
        assert(details@.take(details@.len() as int) =~= details@);
    }
    rank_pairs_desc(&mut by_interval);
    rank_keys_desc(&mut by_diff);
    rank_pairs_desc(&mut by_count);
    truncate_pairs(&mut by_interval, n);
    truncate_key_pairs(&mut by_diff, n);
    truncate_pairs(&mut by_count, n);
    proof {
        broadcast use vstd::seq_lib::group_to_multiset_ensures;

        assert forall|k: int|
            0 <= k < by_interval@.len() implies 0 <= (#[trigger] by_interval@[k]).0 < len by {
            lemma_take_front_element(ranked_desc(interval_rank_pairs(details@)), n, k);
            assert(ranked_desc(interval_rank_pairs(details@)).contains(by_interval@[k]));
            lemma_ranked_desc_members(interval_rank_pairs(details@), by_interval@[k]);
            let w = choose|w: int|
                0 <= w < interval_rank_pairs(details@).len() && interval_rank_pairs(details@)[w]
                    == by_interval@[k];
        }
        assert forall|k: int| 0 <= k < by_diff@.len() implies 0 <= (#[trigger] by_diff@[k]).0
            < len by {
            lemma_take_front_element(ranked_keys_desc(diff_rank_pairs(details@)), n, k);
            assert(ranked_keys_desc(diff_rank_pairs(details@)).contains(by_diff@[k]));
            lemma_ranked_keys_desc_members(diff_rank_pairs(details@), by_diff@[k]);
            let w = choose|w: int|
                0 <= w < diff_rank_pairs(details@).len() && diff_rank_pairs(details@)[w]
                    == by_diff@[k];
        }
        assert forall|k: int|
            0 <= k < by_count@.len() implies 0 <= (#[trigger] by_count@[k]).0 < len by {
            lemma_take_front_element(ranked_desc(count_rank_pairs(details@)), n, k);
            assert(ranked_desc(count_rank_pairs(details@)).contains(by_count@[k]));
            lemma_ranked_desc_members(count_rank_pairs(details@), by_count@[k]);
            let w = choose|w: int|
                0 <= w < count_rank_pairs(details@).len() && count_rank_pairs(details@)[w]
                    == by_count@[k];
        }
    }
    let mut merged: Vec<u8> = Vec::new();
    let mut a: usize = 0;
    while a < by_interval.len()
        invariant
            forall|k: int| 0 <= k < by_interval@.len() ==> (#[trigger] by_interval@[k]).0 < len,
            len == details@.len() <= 254,
            a <= by_interval@.len(),
            merged@.len() == a,
            forall|k: int| 0 <= k < a ==> #[trigger] merged@[k] == (by_interval@[k].0 + 1) as u8,
        decreases by_interval@.len() - a,
    {
        merged.push((by_interval[a].0 + 1) as u8);
        a = a + 1;
    }
    let mut b: usize = 0;
    let ghost merged1 = merged@;
    while b < by_diff.len()
        invariant
            forall|k: int| 0 <= k < by_diff@.len() ==> (#[trigger] by_diff@[k]).0 < len,
            len == details@.len() <= 254,
            b <= by_diff@.len(),
            merged@.len() == merged1.len() + b,
            forall|k: int| 0 <= k < merged1.len() ==> #[trigger] merged@[k] == merged1[k],
            forall|k: int|
                0 <= k < b ==> #[trigger] merged@[merged1.len() + k] == (by_diff@[k].0 + 1) as u8,
        decreases by_diff@.len() - b,
    {
        merged.push((by_diff[b].0 + 1) as u8);
        b = b + 1;
    }
    let mut c: usize = 0;
    let ghost merged2 = merged@;
    while c < by_count.len()
        invariant
            forall|k: int| 0 <= k < by_count@.len() ==> (#[trigger] by_count@[k]).0 < len,
            len == details@.len() <= 254,
            c <= by_count@.len(),
            merged@.len() == merged2.len() + c,
            forall|k: int| 0 <= k < merged2.len() ==> #[trigger] merged@[k] == merged2[k],
            forall|k: int|
                0 <= k < c ==> #[trigger] merged@[merged2.len() + k] == (by_count@[k].0 + 1) as u8,
        decreases by_count@.len() - c,
    {
        merged.push((by_count[c].0 + 1) as u8);
        c = c + 1;
    }
    proof {
        let target = balls_of_pairs(by_interval@) + balls_of_key_pairs(by_diff@) + balls_of_pairs(
            by_count@,
        );
        assert forall|j: int| 0 <= j < merged@.len() implies merged@[j] == target[j] by {
            if j < merged1.len() {
            } else if j < merged2.len() {
                assert(merged@[merged1.len() + (j - merged1.len())] == (by_diff@[j
                    - merged1.len()].0 + 1) as u8);
            } else {
                assert(merged@[merged2.len() + (j - merged2.len())] == (by_count@[j
                    - merged2.len()].0 + 1) as u8);
            }
        }
        assert(merged@ =~= target);
    }
    let r = dedup_first(&merged);
    proof {
        lemma_spec_dedup_properties(merged@);
        assert forall|k: int| 0 <= k < r@.len() implies 1 <= #[trigger] r@[k]
            <= details@.len() by {
            assert(r@.contains(r@[k]));
            assert(merged@.contains(r@[k]));
            let w = choose|w: int| 0 <= w < merged@.len() && merged@[w] == r@[k];
        }
    }
    r
}

proof fn lemma_take_front_element<A>(s: Seq<A>, n: usize, k: int)
    requires
        0 <= k < take_front(s, n).len(),
    ensures
        take_front(s, n)[k] == s[k],
        s.contains(s[k]),
{
}

proof fn lemma_ranked_desc_members(pairs: Seq<(usize, usize)>, p: (usize, usize))
    requires
        ranked_desc(pairs).contains(p),
    ensures
        pairs.contains(p),
{
    broadcast use vstd::seq_lib::group_to_multiset_ensures;

    let leq = |x: (usize, usize), y: (usize, usize)| x.1 > y.1 || (x.1 == y.1 && x.0 <= y.0);
    assert(total_ordering(leq));
    pairs.lemma_sort_by_ensures(leq);
    assert(pairs.sort_by(leq).to_multiset().count(p) > 0);
}

proof fn lemma_ranked_keys_desc_members(pairs: Seq<(usize, i64)>, p: (usize, i64))
    requires
        ranked_keys_desc(pairs).contains(p),
    ensures
        pairs.contains(p),
{
    broadcast use vstd::seq_lib::group_to_multiset_ensures;

    let leq = |x: (usize, i64), y: (usize, i64)| x.1 > y.1 || (x.1 == y.1 && x.0 <= y.0);
    assert(total_ordering(leq));
    pairs.lemma_sort_by_ensures(leq);
    assert(pairs.sort_by(leq).to_multiset().count(p) > 0);
}

/// The (index, count) pairs of a counter vector.
pub open spec fn count_pairs_of(counts: Seq<usize>) -> Seq<(usize, usize)> {
    Seq::new(counts.len(), |i: int| (i as usize, counts[i]))
}

/// The top `n` balls of a counter vector, by count descending, ties by ball
/// ascending: ball `i + 1` stands for counter `i`.
pub open spec fn spec_top_related(counts: Seq<usize>, n: usize) -> Seq<u8> {
    balls_of_pairs(take_front(ranked_desc(count_pairs_of(counts)), n))
}

/// Ranking keeps one entry per counter, so the top related balls are
/// pairwise distinct and as many as the cut and the counters allow.
pub proof fn lemma_top_related_distinct(counts: Seq<usize>, n: usize)
    requires
        counts.len() <= 254,
    ensures
        spec_top_related(counts, n).no_duplicates(),
        spec_top_related(counts, n).len() == (if n <= counts.len() {
            n as int
        } else {
            counts.len() as int
        }),
{
    broadcast use vstd::seq_lib::group_to_multiset_ensures;

    let pairs = count_pairs_of(counts);
    let ranked = ranked_desc(pairs);
    let leq = |x: (usize, usize), y: (usize, usize)| x.1 > y.1 || (x.1 == y.1 && x.0 <= y.0);
    assert(vstd::relations::total_ordering(leq));
    pairs.lemma_sort_by_ensures(leq);
    assert(ranked.len() == pairs.len()) by {
        assert(ranked.to_multiset().len() == pairs.to_multiset().len());
    }
    assert(pairs.no_duplicates()) by {
        assert forall|a: int, b: int| 0 <= a < b < pairs.len() implies pairs[a] != pairs[b] by {
            assert(pairs[a].0 == a && pairs[b].0 == b);
        }
    }
    pairs.lemma_multiset_has_no_duplicates();
    ranked.lemma_multiset_has_no_duplicates_conv();
    assert forall|k: int|
        0 <= k < ranked.len() implies (#[trigger] ranked[k]).0 < counts.len() && ranked[k]
        == pairs[ranked[k].0 as int] by {
        assert(ranked.contains(ranked[k]));
        assert(ranked.to_multiset().count(ranked[k]) > 0);
        assert(pairs.contains(ranked[k]));
        let w = choose|w: int| 0 <= w < pairs.len() && pairs[w] == ranked[k];
        assert(pairs[w].0 == w);
    }
    let front = take_front(ranked, n);
    assert forall|a: int, b: int|
        0 <= a < b < front.len() implies (#[trigger] front[a]).0 != (#[trigger] front[b]).0 by {
        if front[a].0 == front[b].0 {
            assert(ranked[a] == pairs[ranked[a].0 as int]);
            assert(ranked[b] == pairs[ranked[b].0 as int]);
            assert(ranked[a] == ranked[b]);
        }
    }
}

/// Selects the top `n` balls of a counter vector by count descending.
pub fn top_related_reds(counts: &Vec<usize>, n: usize) -> (r: Vec<u8>)
    requires
        counts@.len() <= 254,
    ensures
        r@ == spec_top_related(counts@, n),
        r@.no_duplicates(),
        r@.len() == (if n <= counts@.len() {
            n as int
        } else {
            counts@.len() as int
        }),
        forall|k: int| 0 <= k < r@.len() ==> 1 <= #[trigger] r@[k] <= counts@.len(),
{
    proof {
        lemma_top_related_distinct(counts@, n);
    }
    let mut pairs: Vec<(usize, usize)> = Vec::new();
    let mut i: usize = 0;
    while i < counts.len()
        invariant
            i <= counts@.len(),
            pairs@ == count_pairs_of(counts@.take(i as int)),
        decreases counts@.len() - i,
    {
        pairs.push((i, counts[i]));
        proof {
            assert(pairs@ =~= count_pairs_of(counts@.take(i + 1)));
        }
        i = i + 1;
    }
    proof {
        assert(counts@.take(counts@.len() as int) =~= counts@);
    }
    rank_pairs_desc(&mut pairs);
    truncate_pairs(&mut pairs, n);
    proof {
        assert forall|k: int| 0 <= k < pairs@.len() implies 0 <= (#[trigger] pairs@[k]).0
            < counts@.len() by {
            lemma_take_front_element(ranked_desc(count_pairs_of(counts@)), n, k);
            assert(ranked_desc(count_pairs_of(counts@)).contains(pairs@[k]));
            lemma_ranked_desc_members(count_pairs_of(counts@), pairs@[k]);
            let w = choose|w: int|
                0 <= w < count_pairs_of(counts@).len() && count_pairs_of(counts@)[w] == pairs@[k];
        }
    }
    let mut r: Vec<u8> = Vec::new();
    let mut a: usize = 0;
    while a < pairs.len()
        invariant
            forall|k: int| 0 <= k < pairs@.len() ==> (#[trigger] pairs@[k]).0 < counts@.len(),
            counts@.len() <= 254,
            a <= pairs@.len(),
            r@.len() == a,
            forall|k: int| 0 <= k < a ==> #[trigger] r@[k] == (pairs@[k].0 + 1) as u8,
        decreases pairs@.len() - a,
    {
        r.push((pairs[a].0 + 1) as u8);
        a = a + 1;
    }
    proof {
        assert(r@ =~= balls_of_pairs(pairs@));
    }
    r
}

/// Copies a value list.
pub fn copy_u8s(v: &Vec<u8>) -> (r: Vec<u8>)
    ensures
        r@ == v@,
{
    let mut r: Vec<u8> = Vec::new();
    let mut i: usize = 0;
    while i < v.len()
        invariant
            i <= v@.len(),
            r@ == v@.take(i as int),
        decreases v@.len() - i,
    {
        r.push(v[i]);
        proof {
            assert(r@ =~= v@.take(i + 1));
        }
        i = i + 1;
    }
    proof {
        assert(v@.take(v@.len() as int) =~= v@);
    }
    r
}

/// Appends the values of `b` to a copy of `a`.
pub fn concat_u8s(a: &Vec<u8>, b: &Vec<u8>) -> (r: Vec<u8>)
    ensures
        r@ == a@ + b@,
{
    let mut r = copy_u8s(a);
    let mut i: usize = 0;
    while i < b.len()
        invariant
            i <= b@.len(),
            r@ == a@ + b@.take(i as int),
        decreases b@.len() - i,
    {
        r.push(b[i]);
        proof {
            assert(r@ =~= a@ + b@.take(i + 1));
        }
        i = i + 1;
    }
    proof {
        assert(a@ + b@.take(b@.len() as int) =~= a@ + b@);
    }
    r
}

/// The deduplicated red-ball pool of one blue ball: the red-domain candidates
/// merged with the blue ball's top related red balls.
pub open spec fn spec_red_pool(
    red_details: Seq<OccurrenceDetail>,
    rel_counts: Seq<usize>,
) -> Seq<u8> {
    spec_dedup(spec_candidate_pool(red_details, 6) + spec_top_related(rel_counts, 6))
}


/// What the synthesizer's picks promise: as many picks as the blue pool and
/// the requested size allow; each pick well-formed, its blue ball drawn from
/// the blue candidate pool, its six red balls ascending and drawn from that
/// blue ball's red pool.
pub open spec fn summary_picks_ok(
    picks: Seq<FinalProcessorChainResult>,
    occs: BallOccurrences,
    blue_rels: Seq<BlueBallRelationship>,
    expect_result_size: usize,
) -> bool {
    &&& picks.len() == (if expect_result_size <= spec_candidate_pool(
        occs.blue@,
        expect_result_size,
    ).len() {
        expect_result_size as int
    } else {
        spec_candidate_pool(occs.blue@, expect_result_size).len() as int
    })
    &&& (forall|a: int, b: int|
        0 <= a < b < picks.len() ==> picks[a].blue_ball.value < picks[b].blue_ball.value)
    &&& forall|p: int|
        0 <= p < picks.len() ==> {
            &&& (#[trigger] picks[p]).wf()
            &&& spec_candidate_pool(occs.blue@, expect_result_size).contains(
                picks[p].blue_ball.value,
            )
            &&& forall|a: int, b: int|
                0 <= a < b < 6 ==> picks[p].red_balls[a].value < picks[p].red_balls[b].value
            &&& forall|a: int|
                0 <= a < 6 ==> spec_red_pool(
                    occs.red@,
                    blue_rels[picks[p].blue_ball.value - 1].related_red_ball_counts@,
                ).contains((#[trigger] picks[p].red_balls[a]).value)
        }
}

/// The result-synthesis stage: ranks both domains' candidates, pairs each
/// randomly selected blue ball with six red balls drawn from the red-domain
/// candidates and the blue ball's top related red balls.
pub struct SummaryProcessor;

impl SummaryProcessor {
    /// Synthesizes the final picks.
    ///
    /// Up to `expect_result_size` blue balls are selected at random from the
    /// deduplicated union of the three blue rankings; each is paired with six
    /// red balls selected at random from its red pool. The count of picks,
    /// the origin of every ball, the well-formedness of every pick and the
    /// ascending order of its red balls are promised; which members of the
    /// pools are picked is the one randomized step. A pick fails only when
    /// some selected blue ball's red pool holds fewer than six values.
    pub fn synthesize(
        occs: &BallOccurrences,
        blue_rels: &Vec<BlueBallRelationship>,
        expect_result_size: usize,
    ) -> (r: Result<Vec<FinalProcessorChainResult>, Error>)
        requires
            occs.wf(),
            blue_rels@.len() == BLUE_BALL_COUNT,
            forall|i: int| 0 <= i < blue_rels@.len() ==> (#[trigger] blue_rels@[i]).wf(),
        ensures
            r matches Ok(picks) ==> summary_picks_ok(
                picks@,
                *occs,
                blue_rels@,
                expect_result_size,
            ),
            r matches Err(e) ==> e is OtherFailure,
            (forall|b: u8|
                spec_candidate_pool(occs.blue@, expect_result_size).contains(b) ==> spec_red_pool(
                    occs.red@,
                    blue_rels@[b - 1].related_red_ball_counts@,
                ).len() >= 6) ==> r is Ok,
    {
        let ghost blue_pool_spec = spec_candidate_pool(occs.blue@, expect_result_size);
        let blue_pool = select_candidates(&occs.blue, expect_result_size);
        let selected = final_selection(blue_pool, expect_result_size);
        let red_candidates = select_candidates(&occs.red, 6);
        let mut picks: Vec<FinalProcessorChainResult> = Vec::new();
        let mut s: usize = 0;
        while s < selected.len()
            invariant
                occs.wf(),
                blue_rels@.len() == BLUE_BALL_COUNT,
                forall|i: int| 0 <= i < blue_rels@.len() ==> (#[trigger] blue_rels@[i]).wf(),
                blue_pool_spec == spec_candidate_pool(occs.blue@, expect_result_size),
                red_candidates@ == spec_candidate_pool(occs.red@, 6),
                forall|k: int|
                    0 <= k < red_candidates@.len() ==> 1 <= #[trigger] red_candidates@[k]
                        <= RED_BALL_COUNT,
                forall|k: int|
                    0 <= k < selected@.len() ==> 1 <= #[trigger] selected@[k] <= BLUE_BALL_COUNT
                        && blue_pool_spec.contains(selected@[k]),
                s <= selected@.len(),
                sorted_asc_u8(selected@),
                selected@.no_duplicates(),
                picks@.len() == s,
                forall|p: int| 0 <= p < s ==> (#[trigger] picks@[p]).blue_ball.value
                    == selected@[p],
                forall|p: int|
                    0 <= p < s ==> {
                        &&& (#[trigger] picks@[p]).wf()
                        &&& blue_pool_spec.contains(picks@[p].blue_ball.value)
                        &&& forall|a: int, b: int|
                            0 <= a < b < 6 ==> picks@[p].red_balls[a].value
                                < picks@[p].red_balls[b].value
                        &&& forall|a: int|
                            0 <= a < 6 ==> spec_red_pool(
                                occs.red@,
                                blue_rels@[picks@[p].blue_ball.value - 1].related_red_ball_counts@,
                            ).contains((#[trigger] picks@[p].red_balls[a]).value)
                    },
            decreases selected@.len() - s,
        {
            let blue = selected[s];
            let related = top_related_reds(
                &blue_rels[(blue - 1) as usize].related_red_ball_counts,
                6,
            );
            let merged = concat_u8s(&red_candidates, &related);
            let pool = dedup_first(&merged);
            proof {
                lemma_spec_dedup_properties(merged@);
                assert(pool@ == spec_red_pool(
                    occs.red@,
                    blue_rels@[blue - 1].related_red_ball_counts@,
                ));
                assert(blue_pool_spec.contains(blue));
            }
            if pool.len() < 6 {
                proof {
                    if forall|b: u8|
                        spec_candidate_pool(occs.blue@, expect_result_size).contains(b)
                            ==> spec_red_pool(
                            occs.red@,
                            blue_rels@[b - 1].related_red_ball_counts@,
                        ).len() >= 6 {
                        assert(spec_candidate_pool(occs.blue@, expect_result_size).contains(
                            blue,
                        ));
                        assert(spec_red_pool(
                            occs.red@,
                            blue_rels@[blue - 1].related_red_ball_counts@,
                        ).len() >= 6);
                        assert(false);
                    }
                }
                return Err(
                    Error::OtherFailure("red candidate pool smaller than a full pick".to_owned()),
                );
            }
            let ghost pool_view = pool@;
            let reds = final_selection(pool, 6);
            proof {
                assert(reds@.len() == 6);
                assert forall|a: int| 0 <= a < 6 implies 1 <= #[trigger] reds@[a]
                    <= RED_BALL_COUNT by {
                    assert(pool_view.contains(reds@[a]));
                    assert(merged@.contains(reds@[a]));
                    let w = choose|w: int| 0 <= w < merged@.len() && merged@[w] == reds@[a];
                    if w < red_candidates@.len() {
                        assert(merged@[w] == red_candidates@[w]);
                        assert(1 <= red_candidates@[w] <= occs.red@.len());
                    } else {
                        assert(merged@[w] == related@[w - red_candidates@.len()]);
                        assert(1 <= related@[w - red_candidates@.len()] <= blue_rels@[blue
                            - 1].related_red_ball_counts@.len());
                        assert(blue_rels@[blue - 1].wf());
                    }
                }
                assert forall|a: int, b: int| 0 <= a < b < 6 implies reds@[a] < reds@[b] by {
                    assert(crate::sorting::sorted_asc_u8_at(reds@[a], reds@[b]));
                    if reds@[a] == reds@[b] {
                        assert(false);
                    }
                }
            }
            let pick = FinalProcessorChainResult::new(
                BlueBall { value: blue },
                [
                    RedBall { value: reds[0] },
                    RedBall { value: reds[1] },
                    RedBall { value: reds[2] },
                    RedBall { value: reds[3] },
                    RedBall { value: reds[4] },
                    RedBall { value: reds[5] },
                ],
            );
            proof {
                assert(pick.wf()) by {
                    assert(forall|a: int, b: int|
                        0 <= a < b < 6 ==> pick.red_balls[a].value != pick.red_balls[b].value);
                }
            }
            picks.push(pick);
            s = s + 1;
        }
        proof {
            assert forall|a: int, b: int|
                0 <= a < b < picks@.len() implies picks@[a].blue_ball.value
                < picks@[b].blue_ball.value by {
                assert(sorted_asc_u8_at(selected@[a], selected@[b]));
                assert(selected@[a] != selected@[b]);
            }
        }
        Ok(picks)
    }
}

} // verus!
