//! Counting and ranking over the stored links and clicks: the number of
//! links, the total of their clicks, the most clicked links and the most
//! recent clicks of a link.
use vstd::prelude::*;
use crate::model::{ClickLog, Link};
use crate::ranking::{
    is_top_ranking, lemma_top_ranking_complete, lemma_top_ranking_prefix, lemma_top_ranking_unique, min_nat, precedes,
    top_ranked,
};

verus! {

/// How many links the analytics show as the most clicked.
pub const TOP_LIMIT: usize = 5;

/// How many clicks the statistics of a link show at most.
pub const RECENT_CLICKS_LIMIT: usize = 20;

/// The click counts of `rows`, in order.
pub open spec fn click_counts(rows: Seq<Link>) -> Seq<i64> {
    rows.map_values(|l: Link| l.clicks)
}

/// The ids of the click records `rows`, in order.
pub open spec fn click_ids(rows: Seq<ClickLog>) -> Seq<i64> {
    rows.map_values(|c: ClickLog| c.id)
}

/// The links of `rows` at the positions `idx`.
pub open spec fn links_at(rows: Seq<Link>, idx: Seq<usize>) -> Seq<Link> {
    idx.map_values(|i: usize| rows[i as int])
}

/// The click records of `rows` at the positions `idx`.
pub open spec fn clicks_at(rows: Seq<ClickLog>, idx: Seq<usize>) -> Seq<ClickLog> {
    idx.map_values(|i: usize| rows[i as int])
}

/// `r` is the `limit` most clicked links of `rows`, most clicked first; among
/// links with as many clicks, the one that comes first in `rows` comes first.
pub open spec fn is_most_clicked(rows: Seq<Link>, limit: nat, r: Seq<Link>) -> bool {
    exists|idx: Seq<usize>| is_top_ranking(click_counts(rows), limit, idx) && r == links_at(rows, idx)
}

/// `r` is the `limit` click records of `rows` with the largest ids, largest
/// id first.
pub open spec fn is_most_recent(rows: Seq<ClickLog>, limit: nat, r: Seq<ClickLog>) -> bool {
    exists|idx: Seq<usize>| is_top_ranking(click_ids(rows), limit, idx) && r == clicks_at(rows, idx)
}

/// The sum of the click counts of `rows`.
pub open spec fn clicks_sum(rows: Seq<Link>) -> int
    decreases rows.len(),
{
    if rows.len() == 0 {
        0
    } else {
        clicks_sum(rows.drop_last()) + rows.last().clicks
    }
}

/// The click counts of `rows` added up in order in 64-bit arithmetic, or
/// `None` when a running total leaves the range of `i64`.
pub open spec fn running_total(rows: Seq<Link>) -> Option<i64>
    decreases rows.len(),
{
    if rows.len() == 0 {
        Some(0)
    } else {
        match running_total(rows.drop_last()) {
            Some(t) => {
                let u = t + rows.last().clicks;
                if i64::MIN <= u && u <= i64::MAX {
                    Some(u as i64)
                } else {
                    None
                }
            },
            None => None,
        }
    }
}

/// The number of links in `rows` as an `i64`, or `None` if it does not fit.
pub open spec fn link_count(rows: Seq<Link>) -> Option<i64> {
    if rows.len() <= i64::MAX {
        Some(rows.len() as i64)
    } else {
        None
    }
}

/// The links of `rows` at the positions `idx`, in that order.
fn gather_links(rows: &Vec<Link>, idx: &Vec<usize>) -> (r: Vec<Link>)
    requires
        forall|k: int| 0 <= k < idx@.len() ==> #[trigger] idx@[k] < rows@.len(),
    ensures
        r@ == links_at(rows@, idx@),
{
    let mut r: Vec<Link> = Vec::new();
    for k in 0..idx.len()
        invariant
            forall|j: int| 0 <= j < idx@.len() ==> #[trigger] idx@[j] < rows@.len(),
            r@ == links_at(rows@, idx@.take(k as int)),
    {
        let l = rows[idx[k]].duplicate();
        r.push(l);
        assert(links_at(rows@, idx@.take(k + 1)) == links_at(rows@, idx@.take(k as int)).push(
            rows@[idx@[k as int] as int],
        ));
    }
    assert(idx@.take(idx@.len() as int) == idx@);
    r
}

/// The click records of `rows` at the positions `idx`, in that order.
fn gather_clicks(rows: &Vec<ClickLog>, idx: &Vec<usize>) -> (r: Vec<ClickLog>)
    requires
        forall|k: int| 0 <= k < idx@.len() ==> #[trigger] idx@[k] < rows@.len(),
    ensures
        r@ == clicks_at(rows@, idx@),
{
    let mut r: Vec<ClickLog> = Vec::new();
    for k in 0..idx.len()
        invariant
            forall|j: int| 0 <= j < idx@.len() ==> #[trigger] idx@[j] < rows@.len(),
            r@ == clicks_at(rows@, idx@.take(k as int)),
    {
        let c = rows[idx[k]].duplicate();
        r.push(c);
        assert(clicks_at(rows@, idx@.take(k + 1)) == clicks_at(rows@, idx@.take(k as int)).push(
            rows@[idx@[k as int] as int],
        ));
    }
    assert(idx@.take(idx@.len() as int) == idx@);
    r
}

/// The `limit` most clicked links of `rows`, most clicked first.
pub fn most_clicked(rows: &Vec<Link>, limit: usize) -> (r: Vec<Link>)
    ensures
        is_most_clicked(rows@, limit as nat, r@),
{
    let mut keys: Vec<i64> = Vec::new();
    for k in 0..rows.len()
        invariant
            keys@ == click_counts(rows@.take(k as int)),
    {
        keys.push(rows[k].clicks);
        assert(click_counts(rows@.take(k + 1)) == click_counts(rows@.take(k as int)).push(
            rows@[k as int].clicks,
        ));
    }
    assert(rows@.take(rows@.len() as int) == rows@);
    let idx = top_ranked(&keys, limit);
    let r = gather_links(rows, &idx);
    assert(is_top_ranking(click_counts(rows@), limit as nat, idx@) && r@ == links_at(rows@, idx@));
    r
}

/// The `limit` click records of `rows` with the largest ids, largest first.
pub fn most_recent(rows: &Vec<ClickLog>, limit: usize) -> (r: Vec<ClickLog>)
    ensures
        is_most_recent(rows@, limit as nat, r@),
{
    let mut keys: Vec<i64> = Vec::new();
    for k in 0..rows.len()
        invariant
            keys@ == click_ids(rows@.take(k as int)),
    {
        keys.push(rows[k].id);
        assert(click_ids(rows@.take(k + 1)) == click_ids(rows@.take(k as int)).push(
            rows@[k as int].id,
        ));
    }
    assert(rows@.take(rows@.len() as int) == rows@);
    let idx = top_ranked(&keys, limit);
    let r = gather_clicks(rows, &idx);
    assert(is_top_ranking(click_ids(rows@), limit as nat, idx@) && r@ == clicks_at(rows@, idx@));
    r
}

/// The click counts of `rows` added up in order, or `None` when a running
/// total overflows `i64`.
pub fn total_clicks(rows: &Vec<Link>) -> (r: Option<i64>)
    ensures
        r == running_total(rows@),
{
    let mut acc: i64 = 0;
    let mut k: usize = 0;
    while k < rows.len()
        invariant
            k <= rows@.len(),
            running_total(rows@.take(k as int)) == Some(acc),
        decreases rows@.len() - k,
    {
        assert(rows@.take(k + 1).drop_last() == rows@.take(k as int));
        match acc.checked_add(rows[k].clicks) {
            Some(next) => {
                acc = next;
            },
            None => {
                proof {
                    lemma_running_total_none_extends(rows@, k as int + 1);
                }
                return None;
            },
        }
        k = k + 1;
    }
    assert(rows@.take(k as int) == rows@);
    Some(acc)
}

/// Once a running total has overflowed, the total of every longer prefix is
/// `None` too.
proof fn lemma_running_total_none_extends(rows: Seq<Link>, k: int)
    requires
        0 <= k <= rows.len(),
        running_total(rows.take(k)) is None,
    ensures
        running_total(rows) is None,
    decreases rows.len() - k,
{
    if k < rows.len() {
        assert(rows.take(k + 1).drop_last() == rows.take(k));
        lemma_running_total_none_extends(rows, k + 1);
    } else {
        assert(rows.take(k) == rows);
    }
}

/// The number of links in `rows`, or `None` if it does not fit in an `i64`.
pub fn count_links(rows: &Vec<Link>) -> (r: Option<i64>)
    ensures
        r == link_count(rows@),
        r matches Some(n) ==> n as int == rows@.len(),
        rows@.len() <= i64::MAX ==> r is Some,
{
    let n = rows.len() as u64;
    if n <= 9223372036854775807u64 {
        Some(n as i64)
    } else {
        None
    }
}

// ---------------------------------------------------------------------------
// Laws
// ---------------------------------------------------------------------------

/// The most clicked links are listed most clicked first, there are `limit`
/// of them (or all links, when there are fewer), each is one of the links,
/// and no link left out has more clicks than any link listed.
pub proof fn law_most_clicked_ranked(rows: Seq<Link>, limit: nat, r: Seq<Link>)
    requires
        is_most_clicked(rows, limit, r),
    ensures
        r.len() == min_nat(limit, rows.len()),
        forall|a: int, b: int| 0 <= a < b < r.len() ==> r[a].clicks >= r[b].clicks,
        forall|a: int| 0 <= a < r.len() ==> rows.contains(#[trigger] r[a]),
        forall|j: usize, a: int|
            j < rows.len() && !r.contains(#[trigger] rows[j as int]) && 0 <= a < r.len()
                ==> #[trigger] r[a].clicks >= rows[j as int].clicks,
{
    let idx = choose|idx: Seq<usize>|
        is_top_ranking(click_counts(rows), limit, idx) && r == links_at(rows, idx);
    let keys = click_counts(rows);
    assert forall|a: int, b: int| 0 <= a < b < r.len() implies r[a].clicks >= r[b].clicks by {
        assert(precedes(keys, idx[a] as int, idx[b] as int));
    }
    assert forall|a: int| 0 <= a < r.len() implies rows.contains(#[trigger] r[a]) by {
        assert(rows[idx[a] as int] == r[a]);
    }
    assert forall|j: usize, a: int|
        j < rows.len() && !r.contains(#[trigger] rows[j as int]) && 0 <= a < r.len()
            implies #[trigger] r[a].clicks >= rows[j as int].clicks by {
        if idx.contains(j) {
            let q = choose|q: int| 0 <= q < idx.len() && idx[q] == j;
            assert(r[q] == rows[j as int]);
        }
        assert(precedes(keys, idx[a] as int, j as int));
    }
}

/// Ranking with a limit that reaches the number of links lists every link:
/// as many entries as links, and every link among them.
pub proof fn law_most_clicked_complete(rows: Seq<Link>, limit: nat, r: Seq<Link>)
    requires
        is_most_clicked(rows, limit, r),
        rows.len() <= limit,
    ensures
        r.len() == rows.len(),
        forall|j: usize| j < rows.len() ==> r.contains(#[trigger] rows[j as int]),
{
    let idx = choose|idx: Seq<usize>|
        is_top_ranking(click_counts(rows), limit, idx) && r == links_at(rows, idx);
    lemma_top_ranking_complete(click_counts(rows), limit, idx);
    assert forall|j: usize| j < rows.len() implies r.contains(#[trigger] rows[j as int]) by {
        assert(idx.contains(j));
        let q = choose|q: int| 0 <= q < idx.len() && idx[q] == j;
        assert(r[q] == rows[j as int]);
    }
}

/// The most clicked links are determined by the links: two answers for the
/// same links and limit are the same.
pub proof fn law_most_clicked_unique(rows: Seq<Link>, limit: nat, r1: Seq<Link>, r2: Seq<Link>)
    requires
        is_most_clicked(rows, limit, r1),
        is_most_clicked(rows, limit, r2),
    ensures
        r1 == r2,
{
    let i1 = choose|idx: Seq<usize>|
        is_top_ranking(click_counts(rows), limit, idx) && r1 == links_at(rows, idx);
    let i2 = choose|idx: Seq<usize>|
        is_top_ranking(click_counts(rows), limit, idx) && r2 == links_at(rows, idx);
    lemma_top_ranking_unique(click_counts(rows), limit, i1, i2);
}

/// A shorter list of the most clicked links is the beginning of a longer
/// one: the top links of the analytics are the first entries of the full
/// listing.
pub proof fn law_most_clicked_prefix(
    rows: Seq<Link>,
    k1: nat,
    k2: nat,
    r1: Seq<Link>,
    r2: Seq<Link>,
)
    requires
        min_nat(k1, rows.len()) <= min_nat(k2, rows.len()),
        is_most_clicked(rows, k1, r1),
        is_most_clicked(rows, k2, r2),
    ensures
        r1.len() <= r2.len(),
        r1 == r2.take(r1.len() as int),
{
    let i1 = choose|idx: Seq<usize>|
        is_top_ranking(click_counts(rows), k1, idx) && r1 == links_at(rows, idx);
    let i2 = choose|idx: Seq<usize>|
        is_top_ranking(click_counts(rows), k2, idx) && r2 == links_at(rows, idx);
    lemma_top_ranking_prefix(click_counts(rows), k1, k2, i1, i2);
    assert(r1 =~= r2.take(r1.len() as int));
}

/// The most recent clicks are listed newest (largest id) first, there are
/// `limit` of them (or all, when there are fewer), each is one of the
/// records, and no record left out is newer than any record listed.
pub proof fn law_most_recent_ranked(rows: Seq<ClickLog>, limit: nat, r: Seq<ClickLog>)
    requires
        is_most_recent(rows, limit, r),
    ensures
        r.len() == min_nat(limit, rows.len()),
        forall|a: int, b: int| 0 <= a < b < r.len() ==> r[a].id >= r[b].id,
        forall|a: int| 0 <= a < r.len() ==> rows.contains(#[trigger] r[a]),
        forall|j: usize, a: int|
            j < rows.len() && !r.contains(#[trigger] rows[j as int]) && 0 <= a < r.len()
                ==> #[trigger] r[a].id >= rows[j as int].id,
{
    let idx = choose|idx: Seq<usize>|
        is_top_ranking(click_ids(rows), limit, idx) && r == clicks_at(rows, idx);
    let keys = click_ids(rows);
    assert forall|a: int, b: int| 0 <= a < b < r.len() implies r[a].id >= r[b].id by {
        assert(precedes(keys, idx[a] as int, idx[b] as int));
    }
    assert forall|a: int| 0 <= a < r.len() implies rows.contains(#[trigger] r[a]) by {
        assert(rows[idx[a] as int] == r[a]);
    }
    assert forall|j: usize, a: int|
        j < rows.len() && !r.contains(#[trigger] rows[j as int]) && 0 <= a < r.len()
            implies #[trigger] r[a].id >= rows[j as int].id by {
        if idx.contains(j) {
            let q = choose|q: int| 0 <= q < idx.len() && idx[q] == j;
            assert(r[q] == rows[j as int]);
        }
        assert(precedes(keys, idx[a] as int, j as int));
    }
}

/// The most recent clicks are determined by the records.
pub proof fn law_most_recent_unique(
    rows: Seq<ClickLog>,
    limit: nat,
    r1: Seq<ClickLog>,
    r2: Seq<ClickLog>,
)
    requires
        is_most_recent(rows, limit, r1),
        is_most_recent(rows, limit, r2),
    ensures
        r1 == r2,
{
    let i1 = choose|idx: Seq<usize>|
        is_top_ranking(click_ids(rows), limit, idx) && r1 == clicks_at(rows, idx);
    let i2 = choose|idx: Seq<usize>|
        is_top_ranking(click_ids(rows), limit, idx) && r2 == clicks_at(rows, idx);
    lemma_top_ranking_unique(click_ids(rows), limit, i1, i2);
}

/// The number of links is the number of rows read, whatever the rows hold:
/// rows of the same length count the same, and one row more counts one more.
pub proof fn law_link_count_is_length(rows: Seq<Link>, other: Seq<Link>, extra: Link)
    ensures
        link_count(rows) matches Some(n) ==> n as int == rows.len(),
        rows.len() <= i64::MAX ==> link_count(rows) == Some(rows.len() as i64),
        rows.len() == other.len() ==> link_count(rows) == link_count(other),
        link_count(rows) matches Some(n) ==> (n < i64::MAX ==> link_count(rows.push(extra))
            == Some((n + 1) as i64)),
{
}

/// A total that did not overflow is the sum of the click counts.
pub proof fn law_running_total_is_sum(rows: Seq<Link>)
    ensures
        running_total(rows) matches Some(t) ==> t == clicks_sum(rows),
    decreases rows.len(),
{
    if rows.len() > 0 {
        law_running_total_is_sum(rows.drop_last());
    }
}

/// When no link has a negative click count and the sum fits in an `i64`,
/// the total does not overflow.
pub proof fn law_running_total_fits(rows: Seq<Link>)
    requires
        forall|i: int| 0 <= i < rows.len() ==> #[trigger] rows[i].clicks >= 0,
        clicks_sum(rows) <= i64::MAX,
    ensures
        running_total(rows) == Some(clicks_sum(rows) as i64),
    decreases rows.len(),
{
    if rows.len() > 0 {
        let init = rows.drop_last();
        assert forall|i: int| 0 <= i < init.len() implies #[trigger] init[i].clicks >= 0 by {
            assert(init[i] == rows[i]);
        }
        lemma_clicks_sum_nonnegative(init);
        assert(rows.last().clicks >= 0);
        law_running_total_fits(init);
    }
}

/// The sum of click counts that are not negative is not negative.
proof fn lemma_clicks_sum_nonnegative(rows: Seq<Link>)
    requires
        forall|i: int| 0 <= i < rows.len() ==> #[trigger] rows[i].clicks >= 0,
    ensures
        clicks_sum(rows) >= 0,
    decreases rows.len(),
{
    if rows.len() > 0 {
        let init = rows.drop_last();
        assert forall|i: int| 0 <= i < init.len() implies #[trigger] init[i].clicks >= 0 by {
            assert(init[i] == rows[i]);
        }
        lemma_clicks_sum_nonnegative(init);
        assert(rows[rows.len() - 1].clicks >= 0);
    }
}

} // verus!
