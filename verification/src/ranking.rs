//! Ranking of rows by an integer key, largest first: the positions of the
//! first `limit` rows in the order "key descending, then earlier row first".
use vstd::prelude::*;

verus! {

/// Row `i` comes before row `j`: its key is larger, or the keys are equal
/// and `i` is the earlier row.
pub open spec fn precedes(keys: Seq<i64>, i: int, j: int) -> bool {
    keys[i] > keys[j] || (keys[i] == keys[j] && i < j)
}

/// The smaller of two numbers.
pub open spec fn min_nat(a: nat, b: nat) -> nat {
    if a <= b {
        a
    } else {
        b
    }
}

/// `r` lists the first `limit` rows (or all of them, when there are fewer) in
/// the order of `precedes`: positions of rows, each valid, in strictly
/// increasing order, and every row left out comes after every row listed.
pub open spec fn is_top_ranking(keys: Seq<i64>, limit: nat, r: Seq<usize>) -> bool {
    &&& r.len() == min_nat(limit, keys.len())
    &&& forall|k: int| 0 <= k < r.len() ==> #[trigger] r[k] < keys.len()
    &&& forall|a: int, b: int|
        0 <= a < b < r.len() ==> precedes(keys, #[trigger] r[a] as int, #[trigger] r[b] as int)
    &&& forall|j: usize, a: int|
        j < keys.len() && !#[trigger] r.contains(j) && 0 <= a < r.len() ==> precedes(
            keys,
            #[trigger] r[a] as int,
            j as int,
        )
}

/// `precedes` never holds of a row and itself.
pub proof fn lemma_precedes_irreflexive(keys: Seq<i64>, i: int)
    ensures
        !precedes(keys, i, i),
{
}

/// `precedes` is transitive.
pub proof fn lemma_precedes_transitive(keys: Seq<i64>, i: int, j: int, k: int)
    requires
        precedes(keys, i, j),
        precedes(keys, j, k),
    ensures
        precedes(keys, i, k),
{
}

/// Of two different rows, one comes before the other.
pub proof fn lemma_precedes_total(keys: Seq<i64>, i: int, j: int)
    requires
        i != j,
    ensures
        precedes(keys, i, j) || precedes(keys, j, i),
{
}

/// The ranking is determined: two lists that both rank the first `limit`
/// rows of the same keys are the same list.
pub proof fn lemma_top_ranking_unique(keys: Seq<i64>, limit: nat, r1: Seq<usize>, r2: Seq<usize>)
    requires
        is_top_ranking(keys, limit, r1),
        is_top_ranking(keys, limit, r2),
    ensures
        r1 == r2,
{
    lemma_top_ranking_prefix(keys, limit, limit, r1, r2);
    assert(r1 =~= r2);
}

/// A shorter ranking of the same keys is the beginning of a longer one: the
/// first `k1` rows are the first entries of the first `k2` rows whenever the
/// first list is no longer than the second.
pub proof fn lemma_top_ranking_prefix(
    keys: Seq<i64>,
    k1: nat,
    k2: nat,
    r1: Seq<usize>,
    r2: Seq<usize>,
)
    requires
        min_nat(k1, keys.len()) <= min_nat(k2, keys.len()),
        is_top_ranking(keys, k1, r1),
        is_top_ranking(keys, k2, r2),
    ensures
        r1.len() <= r2.len(),
        r1 == r2.take(r1.len() as int),
{
    if r1.len() > 0 {
        lemma_rankings_agree_at(keys, k1, k2, r1, r2, r1.len() - 1);
    }
    assert(r1 =~= r2.take(r1.len() as int));
}

/// The entries up to position `m` of two rankings of the same keys agree,
/// proved by induction on `m`.
proof fn lemma_rankings_agree_at(
    keys: Seq<i64>,
    k1: nat,
    k2: nat,
    r1: Seq<usize>,
    r2: Seq<usize>,
    m: int,
)
    requires
        min_nat(k1, keys.len()) <= min_nat(k2, keys.len()),
        is_top_ranking(keys, k1, r1),
        is_top_ranking(keys, k2, r2),
        0 <= m < r1.len(),
    ensures
        forall|p: int| 0 <= p <= m ==> r1[p] == r2[p],
    decreases m,
{
    if m > 0 {
        lemma_rankings_agree_at(keys, k1, k2, r1, r2, m - 1);
    }
    let x = r1[m];
    let y = r2[m];
    if x != y {
        lemma_precedes_total(keys, x as int, y as int);
        if precedes(keys, x as int, y as int) {
            // x is listed in r2 or comes after every entry of r2.
            if r2.contains(x) {
                let q = choose|q: int| 0 <= q < r2.len() && r2[q] == x;
                if q < m {
                    // r2[q] == r1[q], so x would appear twice in r1.
                    assert(r1[q] == x);
                    assert(precedes(keys, r1[q] as int, r1[m] as int));
                } else if q > m {
                    assert(precedes(keys, r2[m] as int, r2[q] as int));
                }
            } else {
                assert(precedes(keys, r2[m] as int, x as int));
            }
        } else {
            if r1.contains(y) {
                let q = choose|q: int| 0 <= q < r1.len() && r1[q] == y;
                if q < m {
                    assert(r2[q] == y);
                    assert(precedes(keys, r2[q] as int, r2[m] as int));
                } else if q > m {
                    assert(precedes(keys, r1[m] as int, r1[q] as int));
                }
            } else {
                assert(precedes(keys, r1[m] as int, y as int));
            }
        }
    }
}

/// A ranking whose limit reaches the number of rows lists every row.
pub proof fn lemma_top_ranking_complete(keys: Seq<i64>, limit: nat, r: Seq<usize>)
    requires
        is_top_ranking(keys, limit, r),
        keys.len() <= limit,
    ensures
        r.len() == keys.len(),
        forall|j: usize| j < keys.len() ==> #[trigger] r.contains(j),
{
    let n = keys.len() as int;
    let s = r.map_values(|x: usize| x as int);
    assert forall|a: int, b: int| 0 <= a < s.len() && 0 <= b < s.len() && a != b implies s[a]
        != s[b] by {
        if a < b {
            assert(precedes(keys, r[a] as int, r[b] as int));
        } else {
            assert(precedes(keys, r[b] as int, r[a] as int));
        }
    }
    assert(s.no_duplicates());
    s.unique_seq_to_set();
    let whole = vstd::set_lib::set_int_range(0, n);
    vstd::set_lib::lemma_int_range(0, n);
    assert(s.to_set().subset_of(whole)) by {
        assert forall|x: int| s.to_set().contains(x) implies whole.contains(x) by {
            let k = choose|k: int| 0 <= k < s.len() && s[k] == x;
            assert(r[k] < keys.len());
        }
    }
    vstd::set_lib::lemma_len_subset(s.to_set(), whole);
    vstd::set_lib::lemma_subset_equality(s.to_set(), whole);
    assert forall|j: usize| j < keys.len() implies #[trigger] r.contains(j) by {
        assert(whole.contains(j as int));
        assert(s.to_set().contains(j as int));
        let k = choose|k: int| 0 <= k < s.len() && s[k] == j as int;
        assert(r[k] == j);
    }
}

/// Whether row `i` comes before row `j` in the ranking of `keys`.
fn comes_before(keys: &Vec<i64>, i: usize, j: usize) -> (r: bool)
    requires
        i < keys@.len(),
        j < keys@.len(),
    ensures
        r == precedes(keys@, i as int, j as int),
{
    keys[i] > keys[j] || (keys[i] == keys[j] && i < j)
}

/// `s` lists rows of `keys` in strictly increasing ranking order.
pub open spec fn ranked_in_order(keys: Seq<i64>, s: Seq<usize>) -> bool {
    &&& forall|k: int| 0 <= k < s.len() ==> #[trigger] s[k] < keys.len()
    &&& forall|a: int, b: int|
        0 <= a < b < s.len() ==> precedes(keys, #[trigger] s[a] as int, #[trigger] s[b] as int)
}

/// Merges two lists ranked in order, with no row in both, into one list
/// ranked in order holding the rows of both.
fn merge_ranked(keys: &Vec<i64>, left: &Vec<usize>, right: &Vec<usize>) -> (out: Vec<usize>)
    requires
        ranked_in_order(keys@, left@),
        ranked_in_order(keys@, right@),
        forall|p: int, q: int|
            0 <= p < left@.len() && 0 <= q < right@.len() ==> #[trigger] left@[p] != #[trigger] right@[q],
    ensures
        out@.len() == left@.len() + right@.len(),
        ranked_in_order(keys@, out@),
        forall|p: int| 0 <= p < left@.len() ==> out@.contains(#[trigger] left@[p]),
        forall|q: int| 0 <= q < right@.len() ==> out@.contains(#[trigger] right@[q]),
{
    let mut out: Vec<usize> = Vec::new();
    let mut i: usize = 0;
    let mut j: usize = 0;
    while i < left.len() || j < right.len()
        invariant
            ranked_in_order(keys@, left@),
            ranked_in_order(keys@, right@),
            forall|p: int, q: int|
                0 <= p < left@.len() && 0 <= q < right@.len() ==> #[trigger] left@[p]
                    != #[trigger] right@[q],
            i <= left@.len(),
            j <= right@.len(),
            out@.len() == i + j,
            ranked_in_order(keys@, out@),
            forall|a: int, p: int|
                0 <= a < out@.len() && i <= p < left@.len() ==> precedes(
                    keys@,
                    #[trigger] out@[a] as int,
                    #[trigger] left@[p] as int,
                ),
            forall|a: int, q: int|
                0 <= a < out@.len() && j <= q < right@.len() ==> precedes(
                    keys@,
                    #[trigger] out@[a] as int,
                    #[trigger] right@[q] as int,
                ),
            forall|p: int| 0 <= p < i ==> out@.contains(#[trigger] left@[p]),
            forall|q: int| 0 <= q < j ==> out@.contains(#[trigger] right@[q]),
        decreases left@.len() + right@.len() - i - j,
    {
        let take_left = if i < left.len() && j < right.len() {
            comes_before(keys, left[i], right[j])
        } else {
            i < left.len()
        };
        let ghost old_out = out@;
        if take_left {
            let x = left[i];
            out.push(x);
            proof {
                if j < right@.len() {
                    lemma_precedes_total(keys@, x as int, right@[j as int] as int);
                }
                assert forall|a: int, b: int| 0 <= a < b < out@.len() implies precedes(
                    keys@,
                    #[trigger] out@[a] as int,
                    #[trigger] out@[b] as int,
                ) by {
                    if b < old_out.len() {
                        assert(out@[a] == old_out[a]);
                        assert(out@[b] == old_out[b]);
                    } else {
                        assert(out@[a] == old_out[a]);
                    }
                }
                assert forall|a: int, p: int|
                    0 <= a < out@.len() && i + 1 <= p < left@.len() implies precedes(
                    keys@,
                    #[trigger] out@[a] as int,
                    #[trigger] left@[p] as int,
                ) by {
                    if a < old_out.len() {
                        assert(out@[a] == old_out[a]);
                    }
                }
                assert forall|a: int, q: int|
                    0 <= a < out@.len() && j <= q < right@.len() implies precedes(
                    keys@,
                    #[trigger] out@[a] as int,
                    #[trigger] right@[q] as int,
                ) by {
                    if a < old_out.len() {
                        assert(out@[a] == old_out[a]);
                    } else if q > j {
                        lemma_precedes_transitive(
                            keys@,
                            x as int,
                            right@[j as int] as int,
                            right@[q] as int,
                        );
                    }
                }
                assert forall|p: int| 0 <= p < i + 1 implies out@.contains(#[trigger] left@[p]) by {
                    if p < i {
                        let k = choose|k: int| 0 <= k < old_out.len() && old_out[k] == left@[p];
                        assert(out@[k] == left@[p]);
                    } else {
                        assert(out@[old_out.len() as int] == left@[p]);
                    }
                }
                assert forall|q: int| 0 <= q < j implies out@.contains(#[trigger] right@[q]) by {
                    let k = choose|k: int| 0 <= k < old_out.len() && old_out[k] == right@[q];
                    assert(out@[k] == right@[q]);
                }
            }
            i = i + 1;
        } else {
            let y = right[j];
            out.push(y);
            proof {
                if i < left@.len() {
                    assert(left@[i as int] != right@[j as int]);
                    lemma_precedes_total(keys@, left@[i as int] as int, y as int);
                }
                assert forall|a: int, b: int| 0 <= a < b < out@.len() implies precedes(
                    keys@,
                    #[trigger] out@[a] as int,
                    #[trigger] out@[b] as int,
                ) by {
                    if b < old_out.len() {
                        assert(out@[a] == old_out[a]);
                        assert(out@[b] == old_out[b]);
                    } else {
                        assert(out@[a] == old_out[a]);
                    }
                }
                assert forall|a: int, q: int|
                    0 <= a < out@.len() && j + 1 <= q < right@.len() implies precedes(
                    keys@,
                    #[trigger] out@[a] as int,
                    #[trigger] right@[q] as int,
                ) by {
                    if a < old_out.len() {
                        assert(out@[a] == old_out[a]);
                    }
                }
                assert forall|a: int, p: int|
                    0 <= a < out@.len() && i <= p < left@.len() implies precedes(
                    keys@,
                    #[trigger] out@[a] as int,
                    #[trigger] left@[p] as int,
                ) by {
                    if a < old_out.len() {
                        assert(out@[a] == old_out[a]);
                    } else if p > i {
                        lemma_precedes_transitive(
                            keys@,
                            y as int,
                            left@[i as int] as int,
                            left@[p] as int,
                        );
                    }
                }
                assert forall|q: int| 0 <= q < j + 1 implies out@.contains(#[trigger] right@[q]) by {
                    if q < j {
                        let k = choose|k: int| 0 <= k < old_out.len() && old_out[k] == right@[q];
                        assert(out@[k] == right@[q]);
                    } else {
                        assert(out@[old_out.len() as int] == right@[q]);
                    }
                }
                assert forall|p: int| 0 <= p < i implies out@.contains(#[trigger] left@[p]) by {
                    let k = choose|k: int| 0 <= k < old_out.len() && old_out[k] == left@[p];
                    assert(out@[k] == left@[p]);
                }
            }
            j = j + 1;
        }
    }
    out
}

/// The rows `lo..hi` of `keys` in ranking order (merge sort).
fn rank_range(keys: &Vec<i64>, lo: usize, hi: usize) -> (r: Vec<usize>)
    requires
        lo <= hi <= keys@.len(),
    ensures
        r@.len() == hi - lo,
        ranked_in_order(keys@, r@),
        forall|k: int| 0 <= k < r@.len() ==> lo <= #[trigger] r@[k] < hi,
        forall|j: usize| lo <= j < hi ==> #[trigger] r@.contains(j),
    decreases hi - lo,
{
    if hi - lo <= 1 {
        let mut r: Vec<usize> = Vec::new();
        if hi > lo {
            r.push(lo);
            assert forall|j: usize| lo <= j < hi implies #[trigger] r@.contains(j) by {
                assert(r@[0] == j);
            }
        }
        return r;
    }
    let mid = lo + (hi - lo) / 2;
    let left = rank_range(keys, lo, mid);
    let right = rank_range(keys, mid, hi);
    assert forall|p: int, q: int|
        0 <= p < left@.len() && 0 <= q < right@.len() implies #[trigger] left@[p]
        != #[trigger] right@[q] by {
        assert(left@[p] < mid);
        assert(mid <= right@[q]);
    }
    let r = merge_ranked(keys, &left, &right);
    proof {
        assert forall|k: int| 0 <= k < r@.len() implies lo <= #[trigger] r@[k] < hi by {
            // Every entry of the merge is one of the `hi - lo` distinct rows of
            // the two halves; count them through the halves' membership.
            lemma_ranked_entry_in_range(keys@, left@, right@, r@, lo, mid, hi, k);
        }
        assert forall|j: usize| lo <= j < hi implies #[trigger] r@.contains(j) by {
            if j < mid {
                assert(left@.contains(j));
                let p = choose|p: int| 0 <= p < left@.len() && left@[p] == j;
                assert(r@.contains(left@[p]));
            } else {
                assert(right@.contains(j));
                let q = choose|q: int| 0 <= q < right@.len() && right@[q] == j;
                assert(r@.contains(right@[q]));
            }
        }
    }
    r
}

/// An entry of a merge of the rows `lo..mid` and `mid..hi` lies in `lo..hi`:
/// the merge holds every one of those `hi - lo` rows and has only `hi - lo`
/// entries, all distinct, so it holds nothing else.
proof fn lemma_ranked_entry_in_range(
    keys: Seq<i64>,
    left: Seq<usize>,
    right: Seq<usize>,
    r: Seq<usize>,
    lo: usize,
    mid: usize,
    hi: usize,
    k: int,
)
    requires
        lo <= mid <= hi,
        left.len() == mid - lo,
        right.len() == hi - mid,
        forall|j: usize| lo <= j < mid ==> #[trigger] left.contains(j),
        forall|j: usize| mid <= j < hi ==> #[trigger] right.contains(j),
        forall|p: int| 0 <= p < left.len() ==> r.contains(#[trigger] left[p]),
        forall|q: int| 0 <= q < right.len() ==> r.contains(#[trigger] right[q]),
        r.len() == hi - lo,
        ranked_in_order(keys, r),
        0 <= k < r.len(),
    ensures
        lo <= r[k] < hi,
{
    let s = r.map_values(|x: usize| x as int);
    assert forall|a: int, b: int| 0 <= a < s.len() && 0 <= b < s.len() && a != b implies s[a]
        != s[b] by {
        if a < b {
            assert(precedes(keys, r[a] as int, r[b] as int));
        } else {
            assert(precedes(keys, r[b] as int, r[a] as int));
        }
    }
    assert(s.no_duplicates());
    s.unique_seq_to_set();
    let range = vstd::set_lib::set_int_range(lo as int, hi as int);
    vstd::set_lib::lemma_int_range(lo as int, hi as int);
    assert(range.subset_of(s.to_set())) by {
        assert forall|x: int| range.contains(x) implies s.to_set().contains(x) by {
            let j = x as usize;
            if j < mid {
                assert(left.contains(j));
                let p = choose|p: int| 0 <= p < left.len() && left[p] == j;
                assert(r.contains(left[p]));
                let q = choose|q: int| 0 <= q < r.len() && r[q] == left[p];
                assert(s[q] == x);
            } else {
                assert(right.contains(j));
                let p = choose|p: int| 0 <= p < right.len() && right[p] == j;
                assert(r.contains(right[p]));
                let q = choose|q: int| 0 <= q < r.len() && r[q] == right[p];
                assert(s[q] == x);
            }
        }
    }
    vstd::set_lib::lemma_len_subset(range, s.to_set());
    vstd::set_lib::lemma_subset_equality(range, s.to_set());
    assert(s.to_set().contains(s[k]));
    assert(range.contains(s[k]));
}

/// The positions of the first `limit` rows of `keys` in the order "largest
/// key first, earlier row first among equal keys".
pub fn top_ranked(keys: &Vec<i64>, limit: usize) -> (r: Vec<usize>)
    ensures
        is_top_ranking(keys@, limit as nat, r@),
{
    let n = keys.len();
    let all = rank_range(keys, 0, n);
    let count = if limit < n {
        limit
    } else {
        n
    };
    let mut r: Vec<usize> = Vec::new();
    for k in 0..count
        invariant
            count <= all@.len(),
            r@ == all@.take(k as int),
    {
        r.push(all[k]);
        assert(all@.take(k + 1) == all@.take(k as int).push(all@[k as int]));
    }
    proof {
        assert(r@ == all@.take(count as int));
        assert forall|k: int| 0 <= k < r@.len() implies #[trigger] r@[k] < keys@.len() by {
            assert(r@[k] == all@[k]);
        }
        assert forall|a: int, b: int| 0 <= a < b < r@.len() implies precedes(
            keys@,
            #[trigger] r@[a] as int,
            #[trigger] r@[b] as int,
        ) by {
            assert(r@[a] == all@[a]);
            assert(r@[b] == all@[b]);
        }
        assert forall|j: usize, a: int|
            j < keys@.len() && !#[trigger] r@.contains(j) && 0 <= a < r@.len() implies precedes(
            keys@,
            #[trigger] r@[a] as int,
            j as int,
        ) by {
            assert(all@.contains(j));
            let q = choose|q: int| 0 <= q < all@.len() && all@[q] == j;
            if q < count {
                assert(r@[q] == j);
            }
            assert(r@[a] == all@[a]);
        }
    }
    r
}

} // verus!
