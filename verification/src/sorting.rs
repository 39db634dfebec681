//! Verified ordering and deduplication helpers shared by the analysis and
//! synthesis stages.

use vstd::prelude::*;

use vstd::seq_lib::group_to_multiset_ensures;

verus! {

/// The order: whether `x` may stand before `y`.
pub open spec fn sorted_asc_at(x: usize, y: usize) -> bool {
    x <= y
}

/// Whether the values stand in the order `sort_asc` establishes.
pub open spec fn sorted_asc(s: Seq<usize>) -> bool {
    forall|a: int, b: int| 0 <= a < b < s.len() ==> sorted_asc_at(s[a], s[b])
}

/// Sorts the values ascending. The result holds exactly the values given, kept with their
/// multiplicities.
pub fn sort_asc(v: &mut Vec<usize>)
    ensures
        final(v)@.len() == old(v)@.len(),
        final(v)@.to_multiset() == old(v)@.to_multiset(),
        sorted_asc(final(v)@),
{
    let mut out: Vec<usize> = Vec::new();
    proof {
        assert(out@ =~= v@.take(0int));
    }
    let mut i: usize = 0;
    while i < v.len()
        invariant
            v@ == old(v)@,
            i <= v@.len(),
            out@.len() == i,
            out@.to_multiset() == v@.take(i as int).to_multiset(),
            sorted_asc(out@),
        decreases v@.len() - i,
    {
        let x = v[i];
        let mut pos: usize = 0;
        while pos < out.len() && (out[pos] <= x)
            invariant
                pos <= out@.len(),
                forall|a: int| 0 <= a < pos ==> sorted_asc_at(out@[a], x),
            decreases out@.len() - pos,
        {
            pos = pos + 1;
        }
        let ghost out0 = out@;
        out.insert(pos, x);
        proof {
            broadcast use group_to_multiset_ensures;

            assert(v@.take(i + 1) =~= v@.take(i as int).push(x));
            assert(out@.to_multiset() == out0.to_multiset().insert(x));
            assert(forall|k: int|
                0 <= k < out@.len() ==> #[trigger] out@[k] == (if k < pos {
                    out0[k]
                } else if k == pos {
                    x
                } else {
                    out0[k - 1]
                })) by {
                assert(out@ == out0.subrange(0, pos as int).push(x) + out0.subrange(
                    pos as int,
                    out0.len() as int,
                ));
            }
            assert forall|a: int, b: int|
                0 <= a < b < out@.len() implies sorted_asc_at(out@[a], out@[b]) by {
                assert(out@[a] == (if a < pos {
                    out0[a]
                } else if a == pos {
                    x
                } else {
                    out0[a - 1]
                }));
                assert(out@[b] == (if b < pos {
                    out0[b]
                } else if b == pos {
                    x
                } else {
                    out0[b - 1]
                }));
                if b < pos {
                    assert(sorted_asc_at(out0[a], out0[b]));
                } else if b == pos {
                    assert(sorted_asc_at(out0[a], x));
                } else if a < pos {
                    assert(sorted_asc_at(out0[a], out0[b - 1]));
                } else if a == pos {
                    assert(pos < out0.len());
                    assert(sorted_asc_at(x, out0[pos as int]));
                    if pos < b - 1 {
                        assert(sorted_asc_at(out0[pos as int], out0[b - 1]));
                    }
                } else {
                    assert(sorted_asc_at(out0[a - 1], out0[b - 1]));
                }
            }
        }
        i = i + 1;
    }
    proof {
        assert(v@.take(v@.len() as int) =~= v@);
    }
    *v = out;
}

/// The order: whether `x` may stand before `y`.
pub open spec fn sorted_seq_pairs_asc_at(x: (usize, u8), y: (usize, u8)) -> bool {
    x.0 < y.0 || (x.0 == y.0 && x.1 <= y.1)
}

/// Whether the values stand in the order `sort_seq_pairs_asc` establishes.
pub open spec fn sorted_seq_pairs_asc(s: Seq<(usize, u8)>) -> bool {
    forall|a: int, b: int| 0 <= a < b < s.len() ==> sorted_seq_pairs_asc_at(s[a], s[b])
}

/// Sorts (index, value) pairs ascending by index, ties by value. The result
/// holds exactly the pairs given, kept with their multiplicities.
pub fn sort_seq_pairs_asc(v: &mut Vec<(usize, u8)>)
    ensures
        final(v)@.len() == old(v)@.len(),
        final(v)@.to_multiset() == old(v)@.to_multiset(),
        sorted_seq_pairs_asc(final(v)@),
{
    let mut out: Vec<(usize, u8)> = Vec::new();
    proof {
        assert(out@ =~= v@.take(0int));
    }
    let mut i: usize = 0;
    while i < v.len()
        invariant
            v@ == old(v)@,
            i <= v@.len(),
            out@.len() == i,
            out@.to_multiset() == v@.take(i as int).to_multiset(),
            sorted_seq_pairs_asc(out@),
        decreases v@.len() - i,
    {
        let x = v[i];
        let mut pos: usize = 0;
        while pos < out.len() && (out[pos].0 < x.0 || (out[pos].0 == x.0 && out[pos].1 <= x.1))
            invariant
                pos <= out@.len(),
                forall|a: int| 0 <= a < pos ==> sorted_seq_pairs_asc_at(out@[a], x),
            decreases out@.len() - pos,
        {
            pos = pos + 1;
        }
        let ghost out0 = out@;
        out.insert(pos, x);
        proof {
            broadcast use group_to_multiset_ensures;

            assert(v@.take(i + 1) =~= v@.take(i as int).push(x));
            assert(out@.to_multiset() == out0.to_multiset().insert(x));
            assert(forall|k: int|
                0 <= k < out@.len() ==> #[trigger] out@[k] == (if k < pos {
                    out0[k]
                } else if k == pos {
                    x
                } else {
                    out0[k - 1]
                })) by {
                assert(out@ == out0.subrange(0, pos as int).push(x) + out0.subrange(
                    pos as int,
                    out0.len() as int,
                ));
            }
            assert forall|a: int, b: int|
                0 <= a < b < out@.len() implies sorted_seq_pairs_asc_at(out@[a], out@[b]) by {
                assert(out@[a] == (if a < pos {
                    out0[a]
                } else if a == pos {
                    x
                } else {
                    out0[a - 1]
                }));
                assert(out@[b] == (if b < pos {
                    out0[b]
                } else if b == pos {
                    x
                } else {
                    out0[b - 1]
                }));
                if b < pos {
                    assert(sorted_seq_pairs_asc_at(out0[a], out0[b]));
                } else if b == pos {
                    assert(sorted_seq_pairs_asc_at(out0[a], x));
                } else if a < pos {
                    assert(sorted_seq_pairs_asc_at(out0[a], out0[b - 1]));
                } else if a == pos {
                    assert(pos < out0.len());
                    assert(sorted_seq_pairs_asc_at(x, out0[pos as int]));
                    if pos < b - 1 {
                        assert(sorted_seq_pairs_asc_at(out0[pos as int], out0[b - 1]));
                    }
                } else {
                    assert(sorted_seq_pairs_asc_at(out0[a - 1], out0[b - 1]));
                }
            }
        }
        i = i + 1;
    }
    proof {
        assert(v@.take(v@.len() as int) =~= v@);
    }
    *v = out;
}

/// The order: whether `x` may stand before `y`.
pub open spec fn sorted_asc_u8_at(x: u8, y: u8) -> bool {
    x <= y
}

/// Whether the values stand in the order `sort_asc_u8` establishes.
pub open spec fn sorted_asc_u8(s: Seq<u8>) -> bool {
    forall|a: int, b: int| 0 <= a < b < s.len() ==> sorted_asc_u8_at(s[a], s[b])
}

/// Sorts the values ascending. The result holds exactly the values given, kept with their
/// multiplicities.
pub fn sort_asc_u8(v: &mut Vec<u8>)
    ensures
        final(v)@.len() == old(v)@.len(),
        final(v)@.to_multiset() == old(v)@.to_multiset(),
        sorted_asc_u8(final(v)@),
{
    let mut out: Vec<u8> = Vec::new();
    proof {
        assert(out@ =~= v@.take(0int));
    }
    let mut i: usize = 0;
    while i < v.len()
        invariant
            v@ == old(v)@,
            i <= v@.len(),
            out@.len() == i,
            out@.to_multiset() == v@.take(i as int).to_multiset(),
            sorted_asc_u8(out@),
        decreases v@.len() - i,
    {
        let x = v[i];
        let mut pos: usize = 0;
        while pos < out.len() && (out[pos] <= x)
            invariant
                pos <= out@.len(),
                forall|a: int| 0 <= a < pos ==> sorted_asc_u8_at(out@[a], x),
            decreases out@.len() - pos,
        {
            pos = pos + 1;
        }
        let ghost out0 = out@;
        out.insert(pos, x);
        proof {
            broadcast use group_to_multiset_ensures;

            assert(v@.take(i + 1) =~= v@.take(i as int).push(x));
            assert(out@.to_multiset() == out0.to_multiset().insert(x));
            assert(forall|k: int|
                0 <= k < out@.len() ==> #[trigger] out@[k] == (if k < pos {
                    out0[k]
                } else if k == pos {
                    x
                } else {
                    out0[k - 1]
                })) by {
                assert(out@ == out0.subrange(0, pos as int).push(x) + out0.subrange(
                    pos as int,
                    out0.len() as int,
                ));
            }
            assert forall|a: int, b: int|
                0 <= a < b < out@.len() implies sorted_asc_u8_at(out@[a], out@[b]) by {
                assert(out@[a] == (if a < pos {
                    out0[a]
                } else if a == pos {
                    x
                } else {
                    out0[a - 1]
                }));
                assert(out@[b] == (if b < pos {
                    out0[b]
                } else if b == pos {
                    x
                } else {
                    out0[b - 1]
                }));
                if b < pos {
                    assert(sorted_asc_u8_at(out0[a], out0[b]));
                } else if b == pos {
                    assert(sorted_asc_u8_at(out0[a], x));
                } else if a < pos {
                    assert(sorted_asc_u8_at(out0[a], out0[b - 1]));
                } else if a == pos {
                    assert(pos < out0.len());
                    assert(sorted_asc_u8_at(x, out0[pos as int]));
                    if pos < b - 1 {
                        assert(sorted_asc_u8_at(out0[pos as int], out0[b - 1]));
                    }
                } else {
                    assert(sorted_asc_u8_at(out0[a - 1], out0[b - 1]));
                }
            }
        }
        i = i + 1;
    }
    proof {
        assert(v@.take(v@.len() as int) =~= v@);
    }
    *v = out;
}

/// The order: whether `x` may stand before `y`.
pub open spec fn sorted_by_count_desc_at(x: (u8, usize), y: (u8, usize)) -> bool {
    x.1 > y.1 || (x.1 == y.1 && x.0 <= y.0)
}

/// Whether the values stand in the order `sort_by_count_desc` establishes.
pub open spec fn sorted_by_count_desc(s: Seq<(u8, usize)>) -> bool {
    forall|a: int, b: int| 0 <= a < b < s.len() ==> sorted_by_count_desc_at(s[a], s[b])
}

/// Sorts (ball, count) pairs by count descending, ties by ball ascending. The result holds exactly the values given, kept with their
/// multiplicities.
pub fn sort_by_count_desc(v: &mut Vec<(u8, usize)>)
    ensures
        final(v)@.len() == old(v)@.len(),
        final(v)@.to_multiset() == old(v)@.to_multiset(),
        sorted_by_count_desc(final(v)@),
{
    let mut out: Vec<(u8, usize)> = Vec::new();
    proof {
        assert(out@ =~= v@.take(0int));
    }
    let mut i: usize = 0;
    while i < v.len()
        invariant
            v@ == old(v)@,
            i <= v@.len(),
            out@.len() == i,
            out@.to_multiset() == v@.take(i as int).to_multiset(),
            sorted_by_count_desc(out@),
        decreases v@.len() - i,
    {
        let x = v[i];
        let mut pos: usize = 0;
        while pos < out.len() && (out[pos].1 > x.1 || (out[pos].1 == x.1 && out[pos].0 <= x.0))
            invariant
                pos <= out@.len(),
                forall|a: int| 0 <= a < pos ==> sorted_by_count_desc_at(out@[a], x),
            decreases out@.len() - pos,
        {
            pos = pos + 1;
        }
        let ghost out0 = out@;
        out.insert(pos, x);
        proof {
            broadcast use group_to_multiset_ensures;

            assert(v@.take(i + 1) =~= v@.take(i as int).push(x));
            assert(out@.to_multiset() == out0.to_multiset().insert(x));
            assert(forall|k: int|
                0 <= k < out@.len() ==> #[trigger] out@[k] == (if k < pos {
                    out0[k]
                } else if k == pos {
                    x
                } else {
                    out0[k - 1]
                })) by {
                assert(out@ == out0.subrange(0, pos as int).push(x) + out0.subrange(
                    pos as int,
                    out0.len() as int,
                ));
            }
            assert forall|a: int, b: int|
                0 <= a < b < out@.len() implies sorted_by_count_desc_at(out@[a], out@[b]) by {
                assert(out@[a] == (if a < pos {
                    out0[a]
                } else if a == pos {
                    x
                } else {
                    out0[a - 1]
                }));
                assert(out@[b] == (if b < pos {
                    out0[b]
                } else if b == pos {
                    x
                } else {
                    out0[b - 1]
                }));
                if b < pos {
                    assert(sorted_by_count_desc_at(out0[a], out0[b]));
                } else if b == pos {
                    assert(sorted_by_count_desc_at(out0[a], x));
                } else if a < pos {
                    assert(sorted_by_count_desc_at(out0[a], out0[b - 1]));
                } else if a == pos {
                    assert(pos < out0.len());
                    assert(sorted_by_count_desc_at(x, out0[pos as int]));
                    if pos < b - 1 {
                        assert(sorted_by_count_desc_at(out0[pos as int], out0[b - 1]));
                    }
                } else {
                    assert(sorted_by_count_desc_at(out0[a - 1], out0[b - 1]));
                }
            }
        }
        i = i + 1;
    }
    proof {
        assert(v@.take(v@.len() as int) =~= v@);
    }
    *v = out;
}

/// The order: whether `x` may stand before `y`.
pub open spec fn sorted_index_pairs_desc_at(x: (usize, usize), y: (usize, usize)) -> bool {
    x.1 > y.1 || (x.1 == y.1 && x.0 <= y.0)
}

/// Whether the values stand in the order `sort_index_pairs_desc` establishes.
pub open spec fn sorted_index_pairs_desc(s: Seq<(usize, usize)>) -> bool {
    forall|a: int, b: int| 0 <= a < b < s.len() ==> sorted_index_pairs_desc_at(s[a], s[b])
}

/// Sorts (index, weight) pairs by weight descending, ties by index ascending. The result holds exactly the values given, kept with their
/// multiplicities.
pub fn sort_index_pairs_desc(v: &mut Vec<(usize, usize)>)
    ensures
        final(v)@.len() == old(v)@.len(),
        final(v)@.to_multiset() == old(v)@.to_multiset(),
        sorted_index_pairs_desc(final(v)@),
{
    let mut out: Vec<(usize, usize)> = Vec::new();
    proof {
        assert(out@ =~= v@.take(0int));
    }
    let mut i: usize = 0;
    while i < v.len()
        invariant
            v@ == old(v)@,
            i <= v@.len(),
            out@.len() == i,
            out@.to_multiset() == v@.take(i as int).to_multiset(),
            sorted_index_pairs_desc(out@),
        decreases v@.len() - i,
    {
        let x = v[i];
        let mut pos: usize = 0;
        while pos < out.len() && (out[pos].1 > x.1 || (out[pos].1 == x.1 && out[pos].0 <= x.0))
            invariant
                pos <= out@.len(),
                forall|a: int| 0 <= a < pos ==> sorted_index_pairs_desc_at(out@[a], x),
            decreases out@.len() - pos,
        {
            pos = pos + 1;
        }
        let ghost out0 = out@;
        out.insert(pos, x);
        proof {
            broadcast use group_to_multiset_ensures;

            assert(v@.take(i + 1) =~= v@.take(i as int).push(x));
            assert(out@.to_multiset() == out0.to_multiset().insert(x));
            assert(forall|k: int|
                0 <= k < out@.len() ==> #[trigger] out@[k] == (if k < pos {
                    out0[k]
                } else if k == pos {
                    x
                } else {
                    out0[k - 1]
                })) by {
                assert(out@ == out0.subrange(0, pos as int).push(x) + out0.subrange(
                    pos as int,
                    out0.len() as int,
                ));
            }
            assert forall|a: int, b: int|
                0 <= a < b < out@.len() implies sorted_index_pairs_desc_at(out@[a], out@[b]) by {
                assert(out@[a] == (if a < pos {
                    out0[a]
                } else if a == pos {
                    x
                } else {
                    out0[a - 1]
                }));
                assert(out@[b] == (if b < pos {
                    out0[b]
                } else if b == pos {
                    x
                } else {
                    out0[b - 1]
                }));
                if b < pos {
                    assert(sorted_index_pairs_desc_at(out0[a], out0[b]));
                } else if b == pos {
                    assert(sorted_index_pairs_desc_at(out0[a], x));
                } else if a < pos {
                    assert(sorted_index_pairs_desc_at(out0[a], out0[b - 1]));
                } else if a == pos {
                    assert(pos < out0.len());
                    assert(sorted_index_pairs_desc_at(x, out0[pos as int]));
                    if pos < b - 1 {
                        assert(sorted_index_pairs_desc_at(out0[pos as int], out0[b - 1]));
                    }
                } else {
                    assert(sorted_index_pairs_desc_at(out0[a - 1], out0[b - 1]));
                }
            }
        }
        i = i + 1;
    }
    proof {
        assert(v@.take(v@.len() as int) =~= v@);
    }
    *v = out;
}

/// The order: whether `x` may stand before `y`.
pub open spec fn sorted_index_keys_desc_at(x: (usize, i64), y: (usize, i64)) -> bool {
    x.1 > y.1 || (x.1 == y.1 && x.0 <= y.0)
}

/// Whether the values stand in the order `sort_index_keys_desc` establishes.
pub open spec fn sorted_index_keys_desc(s: Seq<(usize, i64)>) -> bool {
    forall|a: int, b: int| 0 <= a < b < s.len() ==> sorted_index_keys_desc_at(s[a], s[b])
}

/// Sorts (index, key) pairs by key descending, ties by index ascending. The result holds exactly the values given, kept with their
/// multiplicities.
pub fn sort_index_keys_desc(v: &mut Vec<(usize, i64)>)
    ensures
        final(v)@.len() == old(v)@.len(),
        final(v)@.to_multiset() == old(v)@.to_multiset(),
        sorted_index_keys_desc(final(v)@),
{
    let mut out: Vec<(usize, i64)> = Vec::new();
    proof {
        assert(out@ =~= v@.take(0int));
    }
    let mut i: usize = 0;
    while i < v.len()
        invariant
            v@ == old(v)@,
            i <= v@.len(),
            out@.len() == i,
            out@.to_multiset() == v@.take(i as int).to_multiset(),
            sorted_index_keys_desc(out@),
        decreases v@.len() - i,
    {
        let x = v[i];
        let mut pos: usize = 0;
        while pos < out.len() && (out[pos].1 > x.1 || (out[pos].1 == x.1 && out[pos].0 <= x.0))
            invariant
                pos <= out@.len(),
                forall|a: int| 0 <= a < pos ==> sorted_index_keys_desc_at(out@[a], x),
            decreases out@.len() - pos,
        {
            pos = pos + 1;
        }
        let ghost out0 = out@;
        out.insert(pos, x);
        proof {
            broadcast use group_to_multiset_ensures;

            assert(v@.take(i + 1) =~= v@.take(i as int).push(x));
            assert(out@.to_multiset() == out0.to_multiset().insert(x));
            assert(forall|k: int|
                0 <= k < out@.len() ==> #[trigger] out@[k] == (if k < pos {
                    out0[k]
                } else if k == pos {
                    x
                } else {
                    out0[k - 1]
                })) by {
                assert(out@ == out0.subrange(0, pos as int).push(x) + out0.subrange(
                    pos as int,
                    out0.len() as int,
                ));
            }
            assert forall|a: int, b: int|
                0 <= a < b < out@.len() implies sorted_index_keys_desc_at(out@[a], out@[b]) by {
                assert(out@[a] == (if a < pos {
                    out0[a]
                } else if a == pos {
                    x
                } else {
                    out0[a - 1]
                }));
                assert(out@[b] == (if b < pos {
                    out0[b]
                } else if b == pos {
                    x
                } else {
                    out0[b - 1]
                }));
                if b < pos {
                    assert(sorted_index_keys_desc_at(out0[a], out0[b]));
                } else if b == pos {
                    assert(sorted_index_keys_desc_at(out0[a], x));
                } else if a < pos {
                    assert(sorted_index_keys_desc_at(out0[a], out0[b - 1]));
                } else if a == pos {
                    assert(pos < out0.len());
                    assert(sorted_index_keys_desc_at(x, out0[pos as int]));
                    if pos < b - 1 {
                        assert(sorted_index_keys_desc_at(out0[pos as int], out0[b - 1]));
                    }
                } else {
                    assert(sorted_index_keys_desc_at(out0[a - 1], out0[b - 1]));
                }
            }
        }
        i = i + 1;
    }
    proof {
        assert(v@.take(v@.len() as int) =~= v@);
    }
    *v = out;
}

/// Whether `x` occurs in the vector.
pub fn contains_u8(v: &Vec<u8>, x: u8) -> (r: bool)
    ensures
        r == v@.contains(x),
{
    let mut i: usize = 0;
    while i < v.len()
        invariant
            i <= v@.len(),
            forall|k: int| 0 <= k < i ==> v@[k] != x,
        decreases v@.len() - i,
    {
        if v[i] == x {
            return true;
        }
        i = i + 1;
    }
    false
}

proof fn lemma_push_contains<A>(s: Seq<A>, e: A, x: A)
    ensures
        s.push(e).contains(x) <==> (s.contains(x) || x == e),
{
    if s.contains(x) {
        let k = choose|k: int| 0 <= k < s.len() && s[k] == x;
        assert(s.push(e)[k] == x);
    }
    assert(s.push(e)[s.len() as int] == e);
    if s.push(e).contains(x) {
        let k = choose|k: int| 0 <= k < s.push(e).len() && s.push(e)[k] == x;
        if k < s.len() {
            assert(s[k] == x);
        }
    }
}

proof fn lemma_drop_last_contains<A>(s: Seq<A>, x: A)
    requires
        s.len() > 0,
    ensures
        s.contains(x) <==> (s.drop_last().contains(x) || x == s.last()),
{
    if s.drop_last().contains(x) {
        let k = choose|k: int| 0 <= k < s.drop_last().len() && s.drop_last()[k] == x;
        assert(s[k] == x);
    }
    if x == s.last() {
        assert(s[s.len() - 1] == x);
    }
    if s.contains(x) {
        let k = choose|k: int| 0 <= k < s.len() && s[k] == x;
        if k < s.len() - 1 {
            assert(s.drop_last()[k] == x);
        }
    }
}

/// The sequence with every repeated value dropped: each value keeps its first
/// occurrence, in order.
pub open spec fn spec_dedup(s: Seq<u8>) -> Seq<u8>
    decreases s.len(),
{
    if s.len() == 0 {
        Seq::empty()
    } else if s.drop_last().contains(s.last()) {
        spec_dedup(s.drop_last())
    } else {
        spec_dedup(s.drop_last()).push(s.last())
    }
}

/// Deduplication keeps exactly the values of its input, each once.
pub proof fn lemma_spec_dedup_properties(s: Seq<u8>)
    ensures
        spec_dedup(s).no_duplicates(),
        forall|x: u8| spec_dedup(s).contains(x) <==> s.contains(x),
        spec_dedup(s).len() <= s.len(),
    decreases s.len(),
{
    if s.len() > 0 {
        let d = s.drop_last();
        let e = s.last();
        lemma_spec_dedup_properties(d);
        assert forall|x: u8| spec_dedup(s).contains(x) <==> s.contains(x) by {
            lemma_drop_last_contains(s, x);
            if !d.contains(e) {
                lemma_push_contains(spec_dedup(d), e, x);
            }
        }
        if !d.contains(e) {
            let dd = spec_dedup(d);
            assert(spec_dedup(s) == dd.push(e));
            assert(spec_dedup(s).no_duplicates()) by {
                assert forall|a: int, b: int|
                    0 <= a < b < dd.push(e).len() implies dd.push(e)[a] != dd.push(e)[b] by {
                    if b < dd.len() {
                        assert(dd[a] == dd.push(e)[a] && dd[b] == dd.push(e)[b]);
                    } else {
                        assert(dd.push(e)[b] == e);
                        assert(dd[a] == dd.push(e)[a]);
                        assert(dd.contains(dd[a]));
                    }
                }
            }
        }
    }
}

/// A repeat-free list that contains every value of another repeat-free list
/// is at least as long.
pub proof fn lemma_distinct_coverage(s: Seq<u8>, vals: Seq<u8>)
    requires
        s.no_duplicates(),
        vals.no_duplicates(),
        forall|k: int| 0 <= k < vals.len() ==> s.contains(#[trigger] vals[k]),
    ensures
        s.len() >= vals.len(),
{
    broadcast use vstd::set_lib::group_set_lib_default;

    s.unique_seq_to_set();
    vals.unique_seq_to_set();
    assert(vals.to_set().subset_of(s.to_set())) by {
        assert forall|x: u8| vals.to_set().contains(x) implies s.to_set().contains(x) by {
            assert(vals.contains(x));
            let w = choose|w: int| 0 <= w < vals.len() && vals[w] == x;
            assert(s.contains(vals[w]));
        }
    }
    vstd::set_lib::lemma_len_subset(vals.to_set(), s.to_set());
}

/// Returns the values of `v` with every repeated value dropped; each value
/// keeps its first occurrence, in order.
pub fn dedup_first(v: &Vec<u8>) -> (r: Vec<u8>)
    ensures
        r@ == spec_dedup(v@),
        r@.no_duplicates(),
        forall|x: u8| r@.contains(x) <==> v@.contains(x),
{
    let mut r: Vec<u8> = Vec::new();
    let mut i: usize = 0;
    while i < v.len()
        invariant
            i <= v@.len(),
            r@ == spec_dedup(v@.take(i as int)),
        decreases v@.len() - i,
    {
        proof {
            assert(v@.take(i + 1).drop_last() =~= v@.take(i as int));
            assert(v@.take(i + 1).last() == v@[i as int]);
            lemma_spec_dedup_properties(v@.take(i as int));
        }
        if !contains_u8(&r, v[i]) {
            r.push(v[i]);
        }
        i = i + 1;
    }
    proof {
        assert(v@.take(v@.len() as int) =~= v@);
        lemma_spec_dedup_properties(v@);
    }
    r
}

} // verus!
