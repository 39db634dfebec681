use ssq_tool::occur::OccurrenceDetail;
use ssq_tool::processor::make_pick;
use ssq_tool::sorting::{dedup_first, sort_asc, sort_asc_u8, sort_by_count_desc};
use ssq_tool::summary::{concat_u8s, diff_key, final_selection, select_candidates, shuffle_balls, top_related_reds};

/// Overlapping candidate lists [1,2,2,3] and [2,3,4] merge into exactly the
/// distinct pool {1,2,3,4}.
#[test]
fn merged_pools_are_deduplicated() {
    let a = vec![1u8, 2, 2, 3];
    let b = vec![2u8, 3, 4];
    let merged = concat_u8s(&a, &b);
    assert_eq!(dedup_first(&merged), vec![1, 2, 3, 4]);
}

#[test]
fn deduplication_keeps_first_occurrences_in_order() {
    assert_eq!(dedup_first(&vec![5u8, 1, 5, 2, 1, 9]), vec![5, 1, 2, 9]);
    assert_eq!(dedup_first(&vec![]), Vec::<u8>::new());
}

#[test]
fn sorts_order_their_inputs() {
    let mut v = vec![5usize, 1, 4, 1];
    sort_asc(&mut v);
    assert_eq!(v, vec![1, 1, 4, 5]);
    let mut w = vec![9u8, 3, 7];
    sort_asc_u8(&mut w);
    assert_eq!(w, vec![3, 7, 9]);
    let mut pairs = vec![(2u8, 5usize), (1u8, 9usize), (3u8, 5usize)];
    sort_by_count_desc(&mut pairs);
    assert_eq!(pairs, vec![(1, 9), (2, 5), (3, 5)]);
}

#[test]
fn final_selection_bounds_sorts_and_keeps_members() {
    let pool = vec![9u8, 2, 13, 4, 7];
    let picked = final_selection(pool.clone(), 3);
    assert_eq!(picked.len(), 3);
    for w in picked.windows(2) {
        assert!(w[0] < w[1]);
    }
    for x in &picked {
        assert!(pool.contains(x));
    }
    // Asking for more than the pool holds returns the whole pool, sorted.
    let all = final_selection(pool.clone(), 10);
    assert_eq!(all, vec![2, 4, 7, 9, 13]);
}

#[test]
fn shuffling_keeps_exactly_the_same_values() {
    let pool = vec![3u8, 1, 4, 1, 5, 9, 2, 6];
    let mut shuffled = pool.clone();
    shuffle_balls(&mut shuffled);
    assert_eq!(shuffled.len(), pool.len());
    let mut a = pool.clone();
    let mut b = shuffled.clone();
    a.sort();
    b.sort();
    assert_eq!(a, b);
}

#[test]
fn diff_keys_order_margins() {
    assert_eq!(diff_key(10, 3), 7);
    assert_eq!(diff_key(3, 10), -7);
    assert_eq!(diff_key(5, 5), 0);
}

#[test]
fn top_related_reds_rank_by_count() {
    // Counter i belongs to ball i + 1.
    let mut counts = vec![0usize; 33];
    counts[7] = 9;  // ball 8
    counts[2] = 5;  // ball 3
    counts[30] = 5; // ball 31
    counts[0] = 1;  // ball 1
    let top = top_related_reds(&counts, 3);
    assert_eq!(top, vec![8, 3, 31]);
}

#[test]
fn candidate_pools_are_distinct_and_in_domain() {
    let mut details = Vec::new();
    for i in 0..16usize {
        let mut d = OccurrenceDetail::default();
        d.set_average_occur_interval(i);
        d.set_occurrence_count_by_official_data(16 - i);
        d.set_occurrence_count_by_average_interval(i * 2);
        d.set_latest_occur_seq(i);
        details.push(d);
    }
    let pool = select_candidates(&details, 5);
    assert!(pool.len() >= 5);
    let mut seen = std::collections::HashSet::new();
    for b in &pool {
        assert!((1..=16).contains(b));
        assert!(seen.insert(*b));
    }
}

#[test]
fn picks_are_validated() {
    assert!(make_pick(5, &vec![1, 2, 3, 4, 5, 6]).is_ok());
    assert!(make_pick(0, &vec![1, 2, 3, 4, 5, 6]).is_err());
    assert!(make_pick(5, &vec![1, 2, 3, 4, 5]).is_err());
    assert!(make_pick(5, &vec![1, 2, 3, 4, 5, 5]).is_err());
    assert!(make_pick(5, &vec![1, 2, 3, 4, 5, 34]).is_err());
    let p = make_pick(5, &vec![6, 5, 4, 3, 2, 1]).unwrap();
    assert_eq!(p.blue_ball().value(), 5);
    assert_eq!(p.red_ball().iter().map(|r| r.value()).collect::<Vec<u8>>(), vec![6, 5, 4, 3, 2, 1]);
}
