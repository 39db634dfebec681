//! Frequent-pattern mining over transactions built from the draw history.
//!
//! Transactions are built in two ways: grouped, partitioning the draws by one
//! ball and taking the ball sets drawn alongside it, and windowed, taking
//! contiguous runs of one domain's values in chronological order. Mining
//! itself is delegated to the outside FP-Growth implementation; everything
//! around it is verified.

use vstd::prelude::*;

use vstd::relations::sorted_by;
use vstd::relations::total_ordering;

use crate::domain::{BLUE_BALL_COUNT, PrBusinessObj, RED_BALL_COUNT, records_wf};
use crate::sorting::{sort_seq_pairs_asc, sorted_seq_pairs_asc_at};

verus! {

/// A frequent pattern: a set of ball values together with its support count.
pub type FrequentPattern = (Vec<u8>, usize);

/// The mining result of one group: the group key (a ball value) and the
/// frequent patterns found among the transactions of that group.
#[derive(Clone, Debug)]
pub struct GroupPatterns {
    pub key: u8,
    pub patterns: Vec<FrequentPattern>,
}

/// Whether the value occurs in some transaction of the list.
pub open spec fn item_in_txn_vec(item: u8, txns: Seq<Vec<u8>>) -> bool {
    exists|t: int, q: int| 0 <= t < txns.len() && 0 <= q < txns[t]@.len() && txns[t]@[q] == item
}

/// What is known of one mined pattern: it is a non-empty itemset without
/// repeats, drawn from the transactions' items, and its support reaches the
/// minimum-support threshold.
pub open spec fn pattern_ok(pat: FrequentPattern, txns: Seq<Vec<u8>>, minimum_support: usize) -> bool {
    &&& pat.0@.len() >= 1
    &&& pat.0@.no_duplicates()
    &&& pat.1 >= minimum_support
    &&& forall|q: int| 0 <= q < pat.0@.len() ==> item_in_txn_vec(#[trigger] pat.0@[q], txns)
}

/// What is known of a mining result as a whole.
pub open spec fn patterns_ok(
    patterns: Seq<FrequentPattern>,
    txns: Seq<Vec<u8>>,
    minimum_support: usize,
) -> bool {
    forall|p: int| 0 <= p < patterns.len() ==> pattern_ok(#[trigger] patterns[p], txns, minimum_support)
}

/// Relies on `fp_growth::algorithm::FPGrowth::find_frequent_patterns`: every
/// pattern it returns starts from a tree item extended by a suffix it does
/// not already contain (so it is non-empty and repeats no item), its items
/// come from the transactions the tree was built of, and it is kept only when
/// its support reaches the minimum-support threshold. The order of the
/// returned patterns is not specified.
#[verifier::external_body]
fn fp_growth_frequent_patterns(transactions: &Vec<Vec<u8>>, minimum_support: usize) -> (r: Vec<
    FrequentPattern,
>)
    ensures
        patterns_ok(r@, transactions@, minimum_support),
{
    let fp = fp_growth::algorithm::FPGrowth::new(transactions.clone(), minimum_support);
    fp.find_frequent_patterns().frequent_patterns()
}

/// Discovers itemsets that recur together across the transactions at least
/// `minimum_support` times, singleton itemsets included. The iteration order
/// of the result is not canonical: a consumer that needs a reproducible order
/// must sort explicitly.
pub fn mine(transactions: &Vec<Vec<u8>>, minimum_support: usize) -> (r: Vec<FrequentPattern>)
    ensures
        patterns_ok(r@, transactions@, minimum_support),
{
    fp_growth_frequent_patterns(transactions, minimum_support)
}

/// The six red-ball values of a record.
pub open spec fn red_values(rec: PrBusinessObj) -> Seq<u8> {
    Seq::new(6, |i: int| rec.red_balls[i].value)
}

/// The red-ball sets drawn alongside the given blue ball, in record order.
pub open spec fn grouped_transactions(records: Seq<PrBusinessObj>, blue: u8) -> Seq<Seq<u8>>
    decreases records.len(),
{
    if records.len() == 0 {
        Seq::empty()
    } else {
        let rest = grouped_transactions(records.drop_last(), blue);
        if records.last().blue_ball.value == blue {
            rest.push(red_values(records.last()))
        } else {
            rest
        }
    }
}

/// The values of the list with every occurrence of `x` dropped, in order.
pub open spec fn seq_without(s: Seq<u8>, x: u8) -> Seq<u8>
    decreases s.len(),
{
    if s.len() == 0 {
        Seq::empty()
    } else if s.last() == x {
        seq_without(s.drop_last(), x)
    } else {
        seq_without(s.drop_last(), x).push(s.last())
    }
}

/// Every value the removal keeps comes from the list and differs from the
/// removed one.
pub proof fn lemma_seq_without_elements(s: Seq<u8>, x: u8)
    ensures
        seq_without(s, x).len() <= s.len(),
        forall|k: int|
            0 <= k < seq_without(s, x).len() ==> s.contains(#[trigger] seq_without(s, x)[k])
                && seq_without(s, x)[k] != x,
    decreases s.len(),
{
    if s.len() > 0 {
        lemma_seq_without_elements(s.drop_last(), x);
        let d = seq_without(s.drop_last(), x);
        assert(forall|y: u8| s.drop_last().contains(y) ==> s.contains(y)) by {
            assert forall|y: u8| s.drop_last().contains(y) implies s.contains(y) by {
                let w = choose|w: int| 0 <= w < s.drop_last().len() && s.drop_last()[w] == y;
                assert(s[w] == y);
            }
        }
        if s.last() != x {
            assert(s.contains(s.last()));
            assert forall|k: int|
                0 <= k < seq_without(s, x).len() implies s.contains(
                #[trigger] seq_without(s, x)[k],
            ) && seq_without(s, x)[k] != x by {
                if k < d.len() {
                    assert(seq_without(s, x)[k] == d[k]);
                } else {
                    assert(seq_without(s, x)[k] == s.last());
                }
            }
        }
    }
}

/// The other red balls of a record: its red values with the given one
/// dropped.
pub open spec fn other_reds(rec: PrBusinessObj, red: u8) -> Seq<u8> {
    seq_without(red_values(rec), red)
}

/// The other red balls drawn alongside the given red ball, one transaction
/// per record containing it, in record order.
pub open spec fn red_grouped_transactions(records: Seq<PrBusinessObj>, red: u8) -> Seq<Seq<u8>>
    decreases records.len(),
{
    if records.len() == 0 {
        Seq::empty()
    } else {
        let rest = red_grouped_transactions(records.drop_last(), red);
        if records.last().spec_has_red(red) {
            rest.push(other_reds(records.last(), red))
        } else {
            rest
        }
    }
}

fn red_values_of(rec: &PrBusinessObj) -> (r: Vec<u8>)
    ensures
        r@ == red_values(*rec),
{
    let mut r: Vec<u8> = Vec::new();
    let mut i: usize = 0;
    while i < 6
        invariant
            i <= 6,
            r@.len() == i,
            forall|k: int| 0 <= k < i ==> r@[k] == rec.red_balls[k].value,
        decreases 6 - i,
    {
        r.push(rec.red_balls[i].value);
        i = i + 1;
    }
    proof {
        assert(r@ =~= red_values(*rec));
    }
    r
}

fn other_red_values_of(rec: &PrBusinessObj, red: u8) -> (r: Vec<u8>)
    ensures
        r@ == other_reds(*rec, red),
{
    let rv = red_values_of(rec);
    let mut r: Vec<u8> = Vec::new();
    let mut i: usize = 0;
    while i < rv.len()
        invariant
            rv@ == red_values(*rec),
            i <= rv@.len(),
            r@ == seq_without(rv@.take(i as int), red),
        decreases rv@.len() - i,
    {
        proof {
            assert(rv@.take(i + 1).drop_last() =~= rv@.take(i as int));
            assert(rv@.take(i + 1).last() == rv@[i as int]);
        }
        if rv[i] != red {
            r.push(rv[i]);
        }
        i = i + 1;
    }
    proof {
        assert(rv@.take(rv@.len() as int) =~= rv@);
    }
    r
}

/// Builds the grouped transactions of one blue ball: the red-ball sets of the
/// records that carry it.
pub fn build_grouped_transactions(records: &Vec<PrBusinessObj>, blue: u8) -> (r: Vec<Vec<u8>>)
    ensures
        r@.len() == grouped_transactions(records@, blue).len(),
        forall|i: int|
            0 <= i < r@.len() ==> #[trigger] r@[i]@ == grouped_transactions(records@, blue)[i],
        records_wf(records@) ==> forall|i: int, q: int|
            0 <= i < r@.len() && 0 <= q < r@[i]@.len() ==> 1 <= #[trigger] r@[i]@[q]
                <= RED_BALL_COUNT,
{
    let mut r: Vec<Vec<u8>> = Vec::new();
    let mut i: usize = 0;
    while i < records.len()
        invariant
            i <= records@.len(),
            r@.len() == grouped_transactions(records@.take(i as int), blue).len(),
            forall|k: int|
                0 <= k < r@.len() ==> #[trigger] r@[k]@ == grouped_transactions(
                    records@.take(i as int),
                    blue,
                )[k],
            records_wf(records@) ==> forall|k: int, q: int|
                0 <= k < r@.len() && 0 <= q < r@[k]@.len() ==> 1 <= #[trigger] r@[k]@[q]
                    <= RED_BALL_COUNT,
        decreases records@.len() - i,
    {
        proof {
            assert(records@.take(i + 1).drop_last() =~= records@.take(i as int));
            assert(records@.take(i + 1).last() == records@[i as int]);
        }
        if records[i].blue_ball.value == blue {
            let rv = red_values_of(&records[i]);
            r.push(rv);
        }
        i = i + 1;
    }
    proof {
        assert(records@.take(records@.len() as int) =~= records@);
    }
    r
}

/// Builds the grouped transactions of one red ball: for every record that
/// carries it, the other red balls of that record.
pub fn build_red_grouped_transactions(records: &Vec<PrBusinessObj>, red: u8) -> (r: Vec<Vec<u8>>)
    ensures
        r@.len() == red_grouped_transactions(records@, red).len(),
        forall|i: int|
            0 <= i < r@.len() ==> #[trigger] r@[i]@ == red_grouped_transactions(records@, red)[i],
        records_wf(records@) ==> forall|i: int, q: int|
            0 <= i < r@.len() && 0 <= q < r@[i]@.len() ==> 1 <= #[trigger] r@[i]@[q]
                <= RED_BALL_COUNT,
{
    let mut r: Vec<Vec<u8>> = Vec::new();
    let mut i: usize = 0;
    while i < records.len()
        invariant
            i <= records@.len(),
            r@.len() == red_grouped_transactions(records@.take(i as int), red).len(),
            forall|k: int|
                0 <= k < r@.len() ==> #[trigger] r@[k]@ == red_grouped_transactions(
                    records@.take(i as int),
                    red,
                )[k],
            records_wf(records@) ==> forall|k: int, q: int|
                0 <= k < r@.len() && 0 <= q < r@[k]@.len() ==> 1 <= #[trigger] r@[k]@[q]
                    <= RED_BALL_COUNT,
        decreases records@.len() - i,
    {
        proof {
            assert(records@.take(i + 1).drop_last() =~= records@.take(i as int));
            assert(records@.take(i + 1).last() == records@[i as int]);
        }
        if records[i].has_red(red) {
            let rv = other_red_values_of(&records[i], red);
            proof {
                if records_wf(records@) {
                    lemma_seq_without_elements(red_values(records@[i as int]), red);
                    assert forall|q: int| 0 <= q < rv@.len() implies 1 <= #[trigger] rv@[q]
                        <= RED_BALL_COUNT by {
                        assert(red_values(records@[i as int]).contains(rv@[q]));
                        let w = choose|w: int|
                            0 <= w < red_values(records@[i as int]).len() && red_values(
                                records@[i as int],
                            )[w] == rv@[q];
                        assert(records@[i as int].red_balls[w].wf());
                    }
                }
            }
            r.push(rv);
        }
        i = i + 1;
    }
    proof {
        assert(records@.take(records@.len() as int) =~= records@);
    }
    r
}

/// The contiguous windows of the given size over the values: window `i` holds
/// the values at positions `i .. i + window_size`.
pub open spec fn windowed_spec(values: Seq<u8>, window_size: usize) -> Seq<Seq<u8>> {
    if values.len() < window_size {
        Seq::empty()
    } else {
        Seq::new(
            (values.len() - window_size + 1) as nat,
            |i: int| values.subrange(i, i + window_size),
        )
    }
}

/// Builds the windowed transactions: contiguous runs of `window_size` values.
pub fn build_windowed_transactions(values: &Vec<u8>, window_size: usize) -> (r: Vec<Vec<u8>>)
    requires
        window_size >= 1,
    ensures
        r@.len() == windowed_spec(values@, window_size).len(),
        forall|i: int|
            0 <= i < r@.len() ==> #[trigger] r@[i]@ == windowed_spec(values@, window_size)[i],
{
    let mut r: Vec<Vec<u8>> = Vec::new();
    if values.len() < window_size {
        return r;
    }
    let count = values.len() - window_size + 1;
    let mut i: usize = 0;
    while i < count
        invariant
            values@.len() <= usize::MAX,
            window_size >= 1,
            count == values@.len() - window_size + 1,
            values@.len() >= window_size,
            i <= count,
            r@.len() == i,
            forall|k: int|
                0 <= k < i ==> #[trigger] r@[k]@ == values@.subrange(k, k + window_size),
        decreases count - i,
    {
        let mut w: Vec<u8> = Vec::new();
        let mut q: usize = 0;
        while q < window_size
            invariant
                values@.len() <= usize::MAX,
                i + window_size <= values@.len(),
                q <= window_size,
                w@.len() == q,
                forall|k: int| 0 <= k < q ==> w@[k] == values@[i + k],
            decreases window_size - q,
        {
            w.push(values[i + q]);
            q = q + 1;
        }
        proof {
            assert(w@ =~= values@.subrange(i as int, i + window_size));
        }
        r.push(w);
        i = i + 1;
    }
    proof {
        assert forall|k: int|
            0 <= k < r@.len() implies #[trigger] r@[k]@ == windowed_spec(values@, window_size)[k]
        by {
            assert(r@[k]@ == values@.subrange(k, k + window_size));
        }
    }
    r
}

/// Whether the value occurs in some transaction of the list, at the
/// specification level.
pub open spec fn item_in_transactions(item: u8, txns: Seq<Seq<u8>>) -> bool {
    exists|t: int, q: int| 0 <= t < txns.len() && 0 <= q < txns[t].len() && txns[t][q] == item
}

/// Whether every pattern of every blue group draws its items from that blue
/// ball's own transactions.
pub open spec fn blue_groups_from_records(
    groups: Seq<GroupPatterns>,
    records: Seq<PrBusinessObj>,
) -> bool {
    forall|g: int, p: int, q: int|
        0 <= g < groups.len() && 0 <= p < (#[trigger] groups[g]).patterns@.len() && 0 <= q < (
        #[trigger] groups[g].patterns@[p]).0@.len() ==> item_in_transactions(
            #[trigger] groups[g].patterns@[p].0@[q],
            grouped_transactions(records, (g + 1) as u8),
        )
}

/// Whether every pattern of every red group draws its items from that red
/// ball's own companion transactions.
pub open spec fn red_groups_from_records(
    groups: Seq<GroupPatterns>,
    records: Seq<PrBusinessObj>,
) -> bool {
    forall|g: int, p: int, q: int|
        0 <= g < groups.len() && 0 <= p < (#[trigger] groups[g]).patterns@.len() && 0 <= q < (
        #[trigger] groups[g].patterns@[p]).0@.len() ==> item_in_transactions(
            #[trigger] groups[g].patterns@[p].0@[q],
            red_grouped_transactions(records, (g + 1) as u8),
        )
}

/// Whether a grouped mining result covers one ball per group over the given
/// domain size, every pattern being a non-empty, repeat-free itemset of
/// in-domain red values whose support reaches the threshold.
pub open spec fn groups_ok(groups: Seq<GroupPatterns>, domain_size: int, minimum_support: usize) -> bool {
    &&& groups.len() == domain_size
    &&& forall|g: int| 0 <= g < groups.len() ==> (#[trigger] groups[g]).key == g + 1
    &&& forall|g: int, p: int|
        0 <= g < groups.len() && 0 <= p < groups[g].patterns@.len() ==> {
            &&& (#[trigger] groups[g].patterns@[p]).0@.len() >= 1
            &&& groups[g].patterns@[p].0@.no_duplicates()
            &&& groups[g].patterns@[p].1 >= minimum_support
            &&& forall|q: int|
                0 <= q < groups[g].patterns@[p].0@.len() ==> 1
                    <= #[trigger] groups[g].patterns@[p].0@[q] <= RED_BALL_COUNT
        }
}

/// Whether the matrix holds the chronological successor counts of the blue
/// domain for the given records.
pub open spec fn following_counts_of(m: Seq<Vec<usize>>, records: Seq<PrBusinessObj>) -> bool {
    &&& m.len() == BLUE_BALL_COUNT
    &&& forall|c: int| 0 <= c < m.len() ==> (#[trigger] m[c])@.len() == BLUE_BALL_COUNT
    &&& forall|c: int, n: int|
        0 <= c < BLUE_BALL_COUNT && 0 <= n < BLUE_BALL_COUNT ==> #[trigger] m[c]@[n]
            == successor_count(chronological_blues(records), (c + 1) as u8, (n + 1) as u8)
}

/// The (sequence index, blue-ball value) pairs of the records, in record
/// order.
pub open spec fn seq_blue_pairs(records: Seq<PrBusinessObj>) -> Seq<(usize, u8)> {
    Seq::new(records.len(), |i: int| (records[i].seq, records[i].blue_ball.value))
}

/// The blue-ball values of the draw history in chronological order: the
/// records' (index, blue) pairs sorted ascending by index, then projected to
/// the blue values.
pub open spec fn chronological_blues(records: Seq<PrBusinessObj>) -> Seq<u8> {
    seq_blue_pairs(records).sort_by(
        |x: (usize, u8), y: (usize, u8)| x.0 < y.0 || (x.0 == y.0 && x.1 <= y.1),
    ).map_values(|p: (usize, u8)| p.1)
}

/// Collects the blue-ball values in chronological order.
pub fn collect_chronological_blues(records: &Vec<PrBusinessObj>) -> (r: Vec<u8>)
    ensures
        r@ == chronological_blues(records@),
        r@.len() == records@.len(),
        records_wf(records@) ==> forall|k: int|
            0 <= k < r@.len() ==> 1 <= #[trigger] r@[k] <= BLUE_BALL_COUNT,
{
    let ghost leq = |x: (usize, u8), y: (usize, u8)| x.0 < y.0 || (x.0 == y.0 && x.1 <= y.1);
    let mut pairs: Vec<(usize, u8)> = Vec::new();
    let mut i: usize = 0;
    while i < records.len()
        invariant
            i <= records@.len(),
            pairs@.len() == i,
            forall|k: int|
                0 <= k < i ==> #[trigger] pairs@[k] == (records@[k].seq,
                records@[k].blue_ball.value),
        decreases records@.len() - i,
    {
        pairs.push((records[i].seq, records[i].blue_ball.value));
        i = i + 1;
    }
    proof {
        assert(pairs@ =~= seq_blue_pairs(records@));
    }
    let ghost unsorted = pairs@;
    sort_seq_pairs_asc(&mut pairs);
    proof {
        assert(total_ordering(leq));
        unsorted.lemma_sort_by_ensures(leq);
        assert forall|a: int, b: int|
            0 <= a < b < pairs@.len() implies leq(pairs@[a], pairs@[b]) by {
            assert(sorted_seq_pairs_asc_at(pairs@[a], pairs@[b]));
        }
        assert(sorted_by(pairs@, leq));
        vstd::seq_lib::lemma_sorted_unique(pairs@, unsorted.sort_by(leq), leq);
        assert(pairs@ =~= unsorted.sort_by(leq));
    }
    let mut r: Vec<u8> = Vec::new();
    let mut k: usize = 0;
    while k < pairs.len()
        invariant
            k <= pairs@.len(),
            r@.len() == k,
            forall|t: int| 0 <= t < k ==> #[trigger] r@[t] == pairs@[t].1,
        decreases pairs@.len() - k,
    {
        r.push(pairs[k].1);
        k = k + 1;
    }
    proof {
        assert(r@ =~= chronological_blues(records@));
        if records_wf(records@) {
            broadcast use vstd::seq_lib::group_to_multiset_ensures;

            assert forall|t: int|
                0 <= t < r@.len() implies 1 <= #[trigger] r@[t] <= BLUE_BALL_COUNT by {
                assert(pairs@.contains(pairs@[t]));
                assert(unsorted.contains(pairs@[t]));
                let w = choose|w: int| 0 <= w < unsorted.len() && unsorted[w] == pairs@[t];
                assert(records@[w].wf());
            }
        }
    }
    r
}

/// How often the second value immediately follows the first in the list.
pub open spec fn successor_count(blues: Seq<u8>, cur: u8, nxt: u8) -> int
    decreases blues.len(),
{
    if blues.len() < 2 {
        0
    } else {
        successor_count(blues.drop_last(), cur, nxt) + if blues[blues.len() - 2] == cur
            && blues.last() == nxt {
            1int
        } else {
            0int
        }
    }
}

proof fn lemma_successor_count_bounds(blues: Seq<u8>, cur: u8, nxt: u8)
    ensures
        0 <= successor_count(blues, cur, nxt) <= blues.len(),
    decreases blues.len(),
{
    if blues.len() >= 2 {
        lemma_successor_count_bounds(blues.drop_last(), cur, nxt);
    }
}

fn row_mut(v: &mut Vec<Vec<usize>>, i: usize) -> (e: &mut Vec<usize>)
    requires
        i < old(v)@.len(),
    ensures
        *e == old(v)@[i as int],
        final(v)@ == old(v)@.update(i as int, *final(e)),
{
    &mut v[i]
}

/// The windowed co-occurrence stage over the blue domain: counts, for every
/// ordered pair of blue balls, how often the second was drawn in the draw
/// immediately after one of the first.
pub struct BlueBallFollowingOccurrenceProcessor;

impl BlueBallFollowingOccurrenceProcessor {
    /// Counts the chronological successors of every blue ball: entry `[c][n]`
    /// of the result says how often blue ball `n + 1` was drawn right after
    /// blue ball `c + 1`.
    pub fn analyze(records: &Vec<PrBusinessObj>) -> (r: Vec<Vec<usize>>)
        requires
            records_wf(records@),
            records@.len() < usize::MAX,
        ensures
            r@.len() == BLUE_BALL_COUNT,
            forall|c: int| 0 <= c < r@.len() ==> (#[trigger] r@[c])@.len() == BLUE_BALL_COUNT,
            forall|c: int, n: int|
                0 <= c < BLUE_BALL_COUNT && 0 <= n < BLUE_BALL_COUNT ==> #[trigger] r@[c]@[n]
                    == successor_count(chronological_blues(records@), (c + 1) as u8, (n + 1) as u8),
    {
        let blues = collect_chronological_blues(records);
        let mut r: Vec<Vec<usize>> = Vec::new();
        let mut c: usize = 0;
        while c < BLUE_BALL_COUNT as usize
            invariant
                c <= BLUE_BALL_COUNT,
                r@.len() == c,
                forall|k: int| 0 <= k < c ==> (#[trigger] r@[k])@.len() == BLUE_BALL_COUNT,
                forall|k: int, n: int|
                    0 <= k < c && 0 <= n < BLUE_BALL_COUNT ==> #[trigger] r@[k]@[n] == 0,
            decreases BLUE_BALL_COUNT - c,
        {
            r.push(crate::relationship::zero_blue_counters());
            c = c + 1;
        }
        if blues.len() == 0 {
            proof {
                assert forall|c2: int, n2: int|
                    0 <= c2 < BLUE_BALL_COUNT && 0 <= n2 < BLUE_BALL_COUNT
                        implies #[trigger] r@[c2]@[n2] == successor_count(
                    blues@,
                    (c2 + 1) as u8,
                    (n2 + 1) as u8,
                ) by {
                    assert(blues@.len() < 2);
                }
            }
            return r;
        }
        let mut m: usize = 1;
        proof {
            assert forall|c2: int, n2: int|
                0 <= c2 < BLUE_BALL_COUNT && 0 <= n2 < BLUE_BALL_COUNT implies #[trigger] r@[c2]@[n2]
                == successor_count(blues@.take(1int), (c2 + 1) as u8, (n2 + 1) as u8) by {
                assert(blues@.take(1int).len() < 2);
            }
        }
        while m < blues.len()
            invariant
                records_wf(records@),
                blues@ == chronological_blues(records@),
                forall|k: int| 0 <= k < blues@.len() ==> 1 <= #[trigger] blues@[k] <= BLUE_BALL_COUNT,
                blues@.len() < usize::MAX,
                1 <= m <= blues@.len(),
                r@.len() == BLUE_BALL_COUNT,
                forall|k: int| 0 <= k < BLUE_BALL_COUNT ==> (#[trigger] r@[k])@.len()
                    == BLUE_BALL_COUNT,
                forall|c2: int, n2: int|
                    0 <= c2 < BLUE_BALL_COUNT && 0 <= n2 < BLUE_BALL_COUNT ==> #[trigger] r@[c2]@[n2]
                        == successor_count(blues@.take(m as int), (c2 + 1) as u8, (n2 + 1) as u8),
            decreases blues@.len() - m,
        {
            let cur = blues[m - 1];
            let nxt = blues[m];
            proof {
                lemma_successor_count_bounds(blues@.take(m as int), cur, nxt);
            }
            let ghost r0 = r@;
            let row = row_mut(&mut r, (cur - 1) as usize);
            let old_count = row[(nxt - 1) as usize];
            row.set((nxt - 1) as usize, old_count + 1);
            proof {
                assert(blues@.take(m + 1).drop_last() =~= blues@.take(m as int));
                assert(blues@.take(m + 1).last() == blues@[m as int]);
                assert(blues@.take(m + 1)[blues@.take(m + 1).len() - 2] == blues@[m - 1]);
                assert forall|c2: int, n2: int|
                    0 <= c2 < BLUE_BALL_COUNT && 0 <= n2 < BLUE_BALL_COUNT
                        implies #[trigger] r@[c2]@[n2] == successor_count(
                    blues@.take(m + 1),
                    (c2 + 1) as u8,
                    (n2 + 1) as u8,
                ) by {
                    assert(r0[c2]@[n2] == successor_count(
                        blues@.take(m as int),
                        (c2 + 1) as u8,
                        (n2 + 1) as u8,
                    ));
                    if c2 == cur - 1 && n2 == nxt - 1 {
                        assert(r@[c2]@[n2] == r0[c2]@[n2] + 1);
                    } else if c2 == cur - 1 {
                        assert(r@[c2]@[n2] == r0[c2]@[n2]);
                    } else {
                        assert(r@[c2] == r0[c2]);
                    }
                }
            }
            m = m + 1;
        }
        proof {
            assert(blues@.take(blues@.len() as int) =~= blues@);
        }
        r
    }
}

/// The grouped frequent-pattern stage: mines, for every ball of one domain,
/// the sets of balls recurring in the draws that carry it.
pub struct BallRelationshipFpProcessor {
    pub minimum_support: usize,
}

impl BallRelationshipFpProcessor {
    pub fn new(minimum_support: usize) -> (r: Self)
        ensures
            r.minimum_support == minimum_support,
    {
        BallRelationshipFpProcessor { minimum_support }
    }

    /// Mines the red-ball sets grouped by blue ball: one mining result per
    /// blue ball, over the transactions of the draws carrying that ball.
    pub fn analyze_blue_red(&self, records: &Vec<PrBusinessObj>) -> (r: Vec<GroupPatterns>)
        requires
            records_wf(records@),
        ensures
            r@.len() == BLUE_BALL_COUNT,
            forall|g: int| 0 <= g < r@.len() ==> (#[trigger] r@[g]).key == g + 1,
            forall|g: int, p: int|
                0 <= g < r@.len() && 0 <= p < r@[g].patterns@.len() ==> {
                    &&& (#[trigger] r@[g].patterns@[p]).0@.len() >= 1
                    &&& r@[g].patterns@[p].0@.no_duplicates()
                    &&& r@[g].patterns@[p].1 >= self.minimum_support
                    &&& forall|q: int|
                        0 <= q < r@[g].patterns@[p].0@.len() ==> 1 <= #[trigger] r@[g].patterns@[p].0@[q]
                            <= RED_BALL_COUNT
                },
            blue_groups_from_records(r@, records@),
    {
        let mut r: Vec<GroupPatterns> = Vec::new();
        let mut v: u8 = 1;
        while v <= BLUE_BALL_COUNT
            invariant
                records_wf(records@),
                1 <= v <= BLUE_BALL_COUNT + 1,
                r@.len() == v - 1,
                forall|g: int| 0 <= g < r@.len() ==> (#[trigger] r@[g]).key == g + 1,
                forall|g: int, p: int|
                    0 <= g < r@.len() && 0 <= p < r@[g].patterns@.len() ==> {
                        &&& (#[trigger] r@[g].patterns@[p]).0@.len() >= 1
                        &&& r@[g].patterns@[p].0@.no_duplicates()
                        &&& r@[g].patterns@[p].1 >= self.minimum_support
                        &&& forall|q: int|
                            0 <= q < r@[g].patterns@[p].0@.len() ==> 1
                                <= #[trigger] r@[g].patterns@[p].0@[q] <= RED_BALL_COUNT
                    },
                blue_groups_from_records(r@, records@),
            decreases BLUE_BALL_COUNT + 1 - v,
        {
            let txns = build_grouped_transactions(records, v);
            let patterns = mine(&txns, self.minimum_support);
            proof {
                assert forall|p: int, q: int|
                    0 <= p < patterns@.len() && 0 <= q < patterns@[p].0@.len() implies 1
                    <= #[trigger] patterns@[p].0@[q] <= RED_BALL_COUNT && item_in_transactions(
                    patterns@[p].0@[q],
                    grouped_transactions(records@, v),
                ) by {
                    assert(pattern_ok(patterns@[p], txns@, self.minimum_support));
                    assert(item_in_txn_vec(patterns@[p].0@[q], txns@));
                    let (t, q2) = choose|t: int, q2: int|
                        0 <= t < txns@.len() && 0 <= q2 < txns@[t]@.len() && txns@[t]@[q2]
                            == patterns@[p].0@[q];
                    assert(txns@[t]@ == grouped_transactions(records@, v)[t]);
                    assert(grouped_transactions(records@, v)[t][q2] == patterns@[p].0@[q]);
                }
            }
            r.push(GroupPatterns { key: v, patterns });
            v = v + 1;
        }
        r
    }

    /// Mines the companion red balls grouped by red ball: one mining result
    /// per red ball, over the other-red transactions of the draws carrying
    /// that ball.
    pub fn analyze_red_red(&self, records: &Vec<PrBusinessObj>) -> (r: Vec<GroupPatterns>)
        requires
            records_wf(records@),
        ensures
            r@.len() == RED_BALL_COUNT,
            forall|g: int| 0 <= g < r@.len() ==> (#[trigger] r@[g]).key == g + 1,
            forall|g: int, p: int|
                0 <= g < r@.len() && 0 <= p < r@[g].patterns@.len() ==> {
                    &&& (#[trigger] r@[g].patterns@[p]).0@.len() >= 1
                    &&& r@[g].patterns@[p].0@.no_duplicates()
                    &&& r@[g].patterns@[p].1 >= self.minimum_support
                    &&& forall|q: int|
                        0 <= q < r@[g].patterns@[p].0@.len() ==> 1 <= #[trigger] r@[g].patterns@[p].0@[q]
                            <= RED_BALL_COUNT
                },
            red_groups_from_records(r@, records@),
    {
        let mut r: Vec<GroupPatterns> = Vec::new();
        let mut v: u8 = 1;
        while v <= RED_BALL_COUNT
            invariant
                records_wf(records@),
                1 <= v <= RED_BALL_COUNT + 1,
                r@.len() == v - 1,
                forall|g: int| 0 <= g < r@.len() ==> (#[trigger] r@[g]).key == g + 1,
                forall|g: int, p: int|
                    0 <= g < r@.len() && 0 <= p < r@[g].patterns@.len() ==> {
                        &&& (#[trigger] r@[g].patterns@[p]).0@.len() >= 1
                        &&& r@[g].patterns@[p].0@.no_duplicates()
                        &&& r@[g].patterns@[p].1 >= self.minimum_support
                        &&& forall|q: int|
                            0 <= q < r@[g].patterns@[p].0@.len() ==> 1
                                <= #[trigger] r@[g].patterns@[p].0@[q] <= RED_BALL_COUNT
                    },
                red_groups_from_records(r@, records@),
            decreases RED_BALL_COUNT + 1 - v,
        {
            let txns = build_red_grouped_transactions(records, v);
            let patterns = mine(&txns, self.minimum_support);
            proof {
                assert forall|p: int, q: int|
                    0 <= p < patterns@.len() && 0 <= q < patterns@[p].0@.len() implies 1
                    <= #[trigger] patterns@[p].0@[q] <= RED_BALL_COUNT && item_in_transactions(
                    patterns@[p].0@[q],
                    red_grouped_transactions(records@, v),
                ) by {
                    assert(pattern_ok(patterns@[p], txns@, self.minimum_support));
                    assert(item_in_txn_vec(patterns@[p].0@[q], txns@));
                    let (t, q2) = choose|t: int, q2: int|
                        0 <= t < txns@.len() && 0 <= q2 < txns@[t]@.len() && txns@[t]@[q2]
                            == patterns@[p].0@[q];
                    assert(txns@[t]@ == red_grouped_transactions(records@, v)[t]);
                    assert(red_grouped_transactions(records@, v)[t][q2] == patterns@[p].0@[q]);
                }
            }
            r.push(GroupPatterns { key: v, patterns });
            v = v + 1;
        }
        r
    }
}

} // verus!
