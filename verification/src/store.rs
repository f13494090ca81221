//! A model of the two database tables, `links` and `clicks`, and of the
//! statements the server runs on them, with the properties that hold across
//! endpoints: a created link redirects to its URL, a click shows in the
//! statistics, a deleted link is gone with its clicks.
//!
//! The server keeps these tables in SQLite; each model operation below
//! describes one SQL statement it runs, and the endpoint steps of
//! `crate::service` take what those statements give back.
use vstd::prelude::*;
use crate::analytics::{is_most_recent, law_most_recent_ranked};
use crate::model::{ClickLog, Link};

verus! {

/// A row of the `links` table.
pub struct LinkRow {
    pub id: int,
    pub code: Seq<char>,
    pub original_url: Seq<char>,
    pub clicks: int,
    pub created_at: Seq<char>,
}

/// A row of the `clicks` table.
pub struct ClickRow {
    pub id: int,
    pub code: Seq<char>,
    pub user_agent: Seq<char>,
    pub clicked_at: Seq<char>,
}

/// Both tables, in id order, and the ids the next inserted rows get.
pub struct Tables {
    pub links: Seq<LinkRow>,
    pub clicks: Seq<ClickRow>,
    pub next_link_id: int,
    pub next_click_id: int,
}

/// The row a link read from the database stands for.
pub open spec fn link_row(l: Link) -> LinkRow {
    LinkRow {
        id: l.id as int,
        code: l.code@,
        original_url: l.original_url@,
        clicks: l.clicks as int,
        created_at: l.created_at@,
    }
}

/// The row a click record read from the database stands for.
pub open spec fn click_row(c: ClickLog) -> ClickRow {
    ClickRow { id: c.id as int, code: c.code@, user_agent: c.user_agent@, clicked_at: c.clicked_at@ }
}

/// Some link has the code `c`.
pub open spec fn has_code(links: Seq<LinkRow>, c: Seq<char>) -> bool {
    exists|i: int| 0 <= i < links.len() && #[trigger] links[i].code == c
}

/// The tables are consistent: no two links share a code (the `UNIQUE`
/// constraint), and every id is below the next one to be given out.
pub open spec fn well_formed(t: Tables) -> bool {
    &&& forall|i: int, j: int|
        0 <= i < j < t.links.len() ==> #[trigger] t.links[i].code != #[trigger] t.links[j].code
    &&& forall|i: int| 0 <= i < t.links.len() ==> #[trigger] t.links[i].id < t.next_link_id
    &&& forall|i: int| 0 <= i < t.clicks.len() ==> #[trigger] t.clicks[i].id < t.next_click_id
}

/// `SELECT ... FROM links WHERE code = ?`: the link with code `c`, if any.
pub open spec fn link_with_code(t: Tables, c: Seq<char>) -> Option<LinkRow> {
    if has_code(t.links, c) {
        Some(t.links[choose|i: int| 0 <= i < t.links.len() && t.links[i].code == c])
    } else {
        None
    }
}

/// `SELECT original_url FROM links WHERE code = ?`.
pub open spec fn target_of(t: Tables, c: Seq<char>) -> Option<Seq<char>> {
    match link_with_code(t, c) {
        Some(l) => Some(l.original_url),
        None => None,
    }
}

/// `INSERT INTO links (code, original_url) VALUES (?, ?)` at time `now`:
/// refused (`None`) when a link already has the code.
pub open spec fn insert_link(t: Tables, code: Seq<char>, url: Seq<char>, now: Seq<char>) -> Option<
    Tables,
> {
    if has_code(t.links, code) {
        None
    } else {
        Some(
            Tables {
                links: t.links.push(
                    LinkRow { id: t.next_link_id, code, original_url: url, clicks: 0, created_at: now },
                ),
                next_link_id: t.next_link_id + 1,
                ..t
            },
        )
    }
}

/// `INSERT INTO clicks (code, user_agent) VALUES (?, ?)` at time `now`.
pub open spec fn insert_click(t: Tables, code: Seq<char>, user_agent: Seq<char>, now: Seq<char>) -> Tables {
    Tables {
        clicks: t.clicks.push(
            ClickRow { id: t.next_click_id, code, user_agent, clicked_at: now },
        ),
        next_click_id: t.next_click_id + 1,
        ..t
    }
}

/// `UPDATE links SET clicks = clicks + 1 WHERE code = ?`.
pub open spec fn increment_clicks(t: Tables, code: Seq<char>) -> Tables {
    Tables {
        links: t.links.map_values(
            |l: LinkRow|
                if l.code == code {
                    LinkRow { clicks: l.clicks + 1, ..l }
                } else {
                    l
                },
        ),
        ..t
    }
}

/// The links without those of code `c`.
pub open spec fn links_without(links: Seq<LinkRow>, c: Seq<char>) -> Seq<LinkRow>
    decreases links.len(),
{
    if links.len() == 0 {
        links
    } else if links.last().code == c {
        links_without(links.drop_last(), c)
    } else {
        links_without(links.drop_last(), c).push(links.last())
    }
}

/// How many links have code `c`.
pub open spec fn links_with_count(links: Seq<LinkRow>, c: Seq<char>) -> nat
    decreases links.len(),
{
    if links.len() == 0 {
        0
    } else if links.last().code == c {
        links_with_count(links.drop_last(), c) + 1
    } else {
        links_with_count(links.drop_last(), c)
    }
}

/// The click records of code `c`, in order.
pub open spec fn clicks_with(clicks: Seq<ClickRow>, c: Seq<char>) -> Seq<ClickRow>
    decreases clicks.len(),
{
    if clicks.len() == 0 {
        clicks
    } else if clicks.last().code == c {
        clicks_with(clicks.drop_last(), c).push(clicks.last())
    } else {
        clicks_with(clicks.drop_last(), c)
    }
}

/// The click records not of code `c`, in order.
pub open spec fn clicks_without(clicks: Seq<ClickRow>, c: Seq<char>) -> Seq<ClickRow>
    decreases clicks.len(),
{
    if clicks.len() == 0 {
        clicks
    } else if clicks.last().code == c {
        clicks_without(clicks.drop_last(), c)
    } else {
        clicks_without(clicks.drop_last(), c).push(clicks.last())
    }
}

/// `SELECT ... FROM clicks WHERE code = ? ORDER BY id`.
pub open spec fn clicks_for(t: Tables, c: Seq<char>) -> Seq<ClickRow> {
    clicks_with(t.clicks, c)
}

/// `DELETE FROM links WHERE code = ?`: the tables after, and the number of
/// rows removed.
pub open spec fn delete_links(t: Tables, c: Seq<char>) -> (Tables, nat) {
    (Tables { links: links_without(t.links, c), ..t }, links_with_count(t.links, c))
}

/// `DELETE FROM clicks WHERE code = ?`.
pub open spec fn delete_clicks(t: Tables, c: Seq<char>) -> Tables {
    Tables { clicks: clicks_without(t.clicks, c), ..t }
}

// ---------------------------------------------------------------------------
// Lemmas
// ---------------------------------------------------------------------------

/// Without any link of code `c`, removing them changes nothing and counts
/// none.
proof fn lemma_links_without_absent(links: Seq<LinkRow>, c: Seq<char>)
    requires
        !has_code(links, c),
    ensures
        links_without(links, c) == links,
        links_with_count(links, c) == 0,
    decreases links.len(),
{
    if links.len() > 0 {
        let init = links.drop_last();
        assert(!has_code(init, c)) by {
            if has_code(init, c) {
                let i = choose|i: int| 0 <= i < init.len() && #[trigger] init[i].code == c;
                assert(links[i].code == c);
            }
        }
        assert(links.last().code != c) by {
            assert(links[links.len() - 1].code == links.last().code);
        }
        lemma_links_without_absent(init, c);
        assert(init.push(links.last()) =~= links);
    }
}

/// After removing the links of code `c`, none is left.
proof fn lemma_links_without_removes(links: Seq<LinkRow>, c: Seq<char>)
    ensures
        !has_code(links_without(links, c), c),
    decreases links.len(),
{
    if links.len() > 0 {
        lemma_links_without_removes(links.drop_last(), c);
        let rest = links_without(links.drop_last(), c);
        if links.last().code != c {
            assert forall|i: int| 0 <= i < rest.push(links.last()).len() implies #[trigger] rest.push(
                links.last(),
            )[i].code != c by {
                if i < rest.len() {
                    assert(rest.push(links.last())[i] == rest[i]);
                }
            }
        }
    }
}

/// Without any click of code `c`, removing them changes nothing.
proof fn lemma_clicks_without_absent(clicks: Seq<ClickRow>, c: Seq<char>)
    requires
        forall|i: int| 0 <= i < clicks.len() ==> #[trigger] clicks[i].code != c,
    ensures
        clicks_without(clicks, c) == clicks,
    decreases clicks.len(),
{
    if clicks.len() > 0 {
        let init = clicks.drop_last();
        assert forall|i: int| 0 <= i < init.len() implies #[trigger] init[i].code != c by {
            assert(init[i] == clicks[i]);
        }
        assert(clicks[clicks.len() - 1] == clicks.last());
        lemma_clicks_without_absent(init, c);
        assert(init.push(clicks.last()) =~= clicks);
    }
}

/// Every click record of code `c` is one of the records.
proof fn lemma_clicks_with_from(clicks: Seq<ClickRow>, c: Seq<char>)
    ensures
        forall|k: int|
            0 <= k < clicks_with(clicks, c).len() ==> clicks.contains(
                #[trigger] clicks_with(clicks, c)[k],
            ),
    decreases clicks.len(),
{
    if clicks.len() > 0 {
        let init = clicks.drop_last();
        lemma_clicks_with_from(init, c);
        let rest = clicks_with(init, c);
        assert forall|k: int|
            0 <= k < clicks_with(clicks, c).len() implies clicks.contains(
            #[trigger] clicks_with(clicks, c)[k],
        ) by {
            if k < rest.len() {
                assert(clicks_with(clicks, c)[k] == rest[k]);
                let q = choose|q: int| 0 <= q < init.len() && init[q] == rest[k];
                assert(clicks[q] == init[q]);
            } else {
                assert(clicks_with(clicks, c)[k] == clicks.last());
                assert(clicks[clicks.len() - 1] == clicks.last());
            }
        }
    }
}

/// With unique codes, the link found for a code is the one at any position
/// holding that code.
proof fn lemma_link_with_code_at(t: Tables, c: Seq<char>, i: int)
    requires
        well_formed(t),
        0 <= i < t.links.len(),
        t.links[i].code == c,
    ensures
        link_with_code(t, c) == Some(t.links[i]),
{
    assert(has_code(t.links, c));
    let k = choose|k: int| 0 <= k < t.links.len() && t.links[k].code == c;
    if k != i {
        if k < i {
            assert(t.links[k].code != t.links[i].code);
        } else {
            assert(t.links[i].code != t.links[k].code);
        }
    }
}

// ---------------------------------------------------------------------------
// Laws
// ---------------------------------------------------------------------------

/// Every statement keeps the tables consistent.
pub proof fn law_statements_keep_tables_well_formed(
    t: Tables,
    c: Seq<char>,
    url: Seq<char>,
    agent: Seq<char>,
    now: Seq<char>,
)
    requires
        well_formed(t),
    ensures
        insert_link(t, c, url, now) matches Some(t2) ==> well_formed(t2),
        well_formed(insert_click(t, c, agent, now)),
        well_formed(increment_clicks(t, c)),
        well_formed(delete_links(t, c).0),
        well_formed(delete_clicks(t, c)),
{
    if let Some(t2) = insert_link(t, c, url, now) {
        assert forall|i: int, j: int|
            0 <= i < j < t2.links.len() implies #[trigger] t2.links[i].code
            != #[trigger] t2.links[j].code by {
            if j == t.links.len() {
                assert(t2.links[i] == t.links[i]);
                if t.links[i].code == c {
                    assert(has_code(t.links, c));
                }
            } else {
                assert(t2.links[i] == t.links[i]);
                assert(t2.links[j] == t.links[j]);
            }
        }
        assert forall|i: int| 0 <= i < t2.links.len() implies #[trigger] t2.links[i].id
            < t2.next_link_id by {
            if i < t.links.len() {
                assert(t2.links[i] == t.links[i]);
            }
        }
    }
    let tc = insert_click(t, c, agent, now);
    assert forall|i: int| 0 <= i < tc.clicks.len() implies #[trigger] tc.clicks[i].id
        < tc.next_click_id by {
        if i < t.clicks.len() {
            assert(tc.clicks[i] == t.clicks[i]);
        }
    }
    let ti = increment_clicks(t, c);
    assert forall|i: int, j: int|
        0 <= i < j < ti.links.len() implies #[trigger] ti.links[i].code
        != #[trigger] ti.links[j].code by {
        assert(ti.links[i].code == t.links[i].code);
        assert(ti.links[j].code == t.links[j].code);
    }
    assert forall|i: int| 0 <= i < ti.links.len() implies #[trigger] ti.links[i].id
        < ti.next_link_id by {
        assert(ti.links[i].id == t.links[i].id);
    }
    lemma_links_without_well_formed(t.links, c, t.next_link_id);
    lemma_clicks_without_ids(t.clicks, c, t.next_click_id);
}

/// Removing links keeps codes unique and ids below `next`.
proof fn lemma_links_without_well_formed(links: Seq<LinkRow>, c: Seq<char>, next: int)
    requires
        forall|i: int, j: int|
            0 <= i < j < links.len() ==> #[trigger] links[i].code != #[trigger] links[j].code,
        forall|i: int| 0 <= i < links.len() ==> #[trigger] links[i].id < next,
    ensures
        forall|i: int, j: int|
            0 <= i < j < links_without(links, c).len() ==> #[trigger] links_without(links, c)[i].code
                != #[trigger] links_without(links, c)[j].code,
        forall|i: int|
            0 <= i < links_without(links, c).len() ==> #[trigger] links_without(links, c)[i].id < next,
        forall|i: int|
            0 <= i < links_without(links, c).len() ==> #[trigger] has_code(
                links,
                links_without(links, c)[i].code,
            ),
    decreases links.len(),
{
    if links.len() > 0 {
        let init = links.drop_last();
        assert forall|i: int, j: int| 0 <= i < j < init.len() implies #[trigger] init[i].code
            != #[trigger] init[j].code by {
            assert(init[i] == links[i]);
            assert(init[j] == links[j]);
        }
        assert forall|i: int| 0 <= i < init.len() implies #[trigger] init[i].id < next by {
            assert(init[i] == links[i]);
        }
        lemma_links_without_well_formed(init, c, next);
        let rest = links_without(init, c);
        let last = links.last();
        assert(links[links.len() - 1] == last);
        assert forall|i: int| 0 <= i < rest.len() implies #[trigger] has_code(links, rest[i].code) by {
            assert(has_code(init, rest[i].code));
            let k = choose|k: int| 0 <= k < init.len() && #[trigger] init[k].code == rest[i].code;
            assert(links[k] == init[k]);
        }
        if last.code != c {
            let out = rest.push(last);
            assert forall|i: int, j: int| 0 <= i < j < out.len() implies #[trigger] out[i].code
                != #[trigger] out[j].code by {
                if j == rest.len() {
                    assert(out[i] == rest[i]);
                    assert(has_code(init, rest[i].code));
                    let k = choose|k: int| 0 <= k < init.len() && #[trigger] init[k].code
                        == rest[i].code;
                    assert(links[k] == init[k]);
                } else {
                    assert(out[i] == rest[i]);
                    assert(out[j] == rest[j]);
                }
            }
            assert forall|i: int| 0 <= i < out.len() implies #[trigger] out[i].id < next by {
                if i < rest.len() {
                    assert(out[i] == rest[i]);
                }
            }
            assert forall|i: int| 0 <= i < out.len() implies #[trigger] has_code(links, out[i].code) by {
                if i < rest.len() {
                    assert(out[i] == rest[i]);
                } else {
                    assert(links[links.len() - 1].code == out[i].code);
                }
            }
        }
    }
}

/// Removing click records keeps ids below `next`.
proof fn lemma_clicks_without_ids(clicks: Seq<ClickRow>, c: Seq<char>, next: int)
    requires
        forall|i: int| 0 <= i < clicks.len() ==> #[trigger] clicks[i].id < next,
    ensures
        forall|i: int|
            0 <= i < clicks_without(clicks, c).len() ==> #[trigger] clicks_without(clicks, c)[i].id
                < next,
    decreases clicks.len(),
{
    if clicks.len() > 0 {
        let init = clicks.drop_last();
        assert forall|i: int| 0 <= i < init.len() implies #[trigger] init[i].id < next by {
            assert(init[i] == clicks[i]);
        }
        lemma_clicks_without_ids(init, c, next);
        let rest = clicks_without(init, c);
        assert(clicks[clicks.len() - 1] == clicks.last());
        if clicks.last().code != c {
            assert forall|i: int| 0 <= i < rest.push(clicks.last()).len() implies #[trigger] rest.push(
                clicks.last(),
            )[i].id < next by {
                if i < rest.len() {
                    assert(rest.push(clicks.last())[i] == rest[i]);
                }
            }
        }
    }
}

/// A created link redirects to exactly the URL it was created for: once the
/// insert of `code` and `url` went through, looking up `code` gives `url`
/// (and `service::redirect_link` then redirects there).
pub proof fn law_created_link_redirects(t: Tables, code: Seq<char>, url: Seq<char>, now: Seq<char>)
    requires
        well_formed(t),
        insert_link(t, code, url, now) is Some,
    ensures
        target_of(insert_link(t, code, url, now).unwrap(), code) == Some(url),
{
    let t2 = insert_link(t, code, url, now).unwrap();
    law_statements_keep_tables_well_formed(t, code, url, Seq::empty(), now);
    lemma_link_with_code_at(t2, code, t.links.len() as int);
}

/// A deleted link is gone: after `DELETE FROM links WHERE code = ?` looking
/// up the code finds nothing (and `service::redirect_link` answers 404), and
/// deleting it again removes nothing (and `service::delete_link` answers
/// 404).
pub proof fn law_deleted_link_is_gone(t: Tables, code: Seq<char>)
    ensures
        target_of(delete_links(t, code).0, code) is None,
        target_of(delete_clicks(delete_links(t, code).0, code), code) is None,
        delete_links(delete_links(t, code).0, code).1 == 0,
{
    lemma_links_without_removes(t.links, code);
    lemma_links_without_absent(links_without(t.links, code), code);
}

/// Creating a link and deleting it leaves the tables as they were, when no
/// link and no click of that code existed before: the delete removes one
/// link, and both tables hold again exactly their earlier rows.
pub proof fn law_create_then_delete_restores(
    t: Tables,
    code: Seq<char>,
    url: Seq<char>,
    now: Seq<char>,
)
    requires
        well_formed(t),
        !has_code(t.links, code),
        forall|i: int| 0 <= i < t.clicks.len() ==> #[trigger] t.clicks[i].code != code,
    ensures
        insert_link(t, code, url, now) is Some,
        delete_links(insert_link(t, code, url, now).unwrap(), code).1 == 1,
        delete_clicks(delete_links(insert_link(t, code, url, now).unwrap(), code).0, code).links
            == t.links,
        delete_clicks(delete_links(insert_link(t, code, url, now).unwrap(), code).0, code).clicks
            == t.clicks,
{
    let t2 = insert_link(t, code, url, now).unwrap();
    let last = t2.links.last();
    assert(t2.links.drop_last() =~= t.links);
    assert(last.code == code);
    lemma_links_without_absent(t.links, code);
    lemma_clicks_without_absent(t.clicks, code);
}

/// A redirect shows in the statistics: after the click of a redirect is
/// recorded and counted, the link has one click more, and the newest of its
/// click records, the first the statistics list, is that click with the
/// redirect's user agent.
pub proof fn law_click_shows_in_stats(
    t: Tables,
    code: Seq<char>,
    agent: Seq<char>,
    now: Seq<char>,
    fetched: Seq<ClickLog>,
    recent: Seq<ClickLog>,
    limit: nat,
)
    requires
        well_formed(t),
        has_code(t.links, code),
        limit > 0,
        fetched.len() <= usize::MAX,
        fetched.map_values(|c: ClickLog| click_row(c)) == clicks_for(
            increment_clicks(insert_click(t, code, agent, now), code),
            code,
        ),
        is_most_recent(fetched, limit, recent),
    ensures
        link_with_code(increment_clicks(insert_click(t, code, agent, now), code), code) == Some(
            LinkRow {
                clicks: link_with_code(t, code).unwrap().clicks + 1,
                ..link_with_code(t, code).unwrap()
            },
        ),
        recent.len() > 0,
        click_row(recent[0]).user_agent == agent,
        click_row(recent[0]).code == code,
        click_row(recent[0]).id == t.next_click_id,
{
    let t1 = insert_click(t, code, agent, now);
    let t2 = increment_clicks(t1, code);
    // The link with one click more.
    let i = choose|i: int| 0 <= i < t.links.len() && #[trigger] t.links[i].code == code;
    lemma_link_with_code_at(t, code, i);
    law_statements_keep_tables_well_formed(t, code, Seq::empty(), agent, now);
    law_statements_keep_tables_well_formed(t1, code, Seq::empty(), agent, now);
    assert(t2.links[i].code == code);
    lemma_link_with_code_at(t2, code, i);
    // The newest click record.
    let new_click = ClickRow { id: t.next_click_id, code, user_agent: agent, clicked_at: now };
    let rows = clicks_for(t2, code);
    assert(t1.clicks.drop_last() =~= t.clicks);
    assert(t1.clicks.last() == new_click);
    assert(rows == clicks_with(t.clicks, code).push(new_click));
    lemma_clicks_with_from(t.clicks, code);
    let last = rows.len() - 1;
    assert(rows[last] == new_click);
    assert(fetched.len() == rows.len());
    law_most_recent_ranked(fetched, limit, recent);
    assert(recent.len() > 0);
    let k = choose|k: int| 0 <= k < fetched.len() && fetched[k] == recent[0];
    assert(click_row(fetched[k]) == rows[k]);
    assert(click_row(fetched[last as int]) == new_click);
    // recent[0] has an id at least that of the new click.
    assert(recent[0].id >= fetched[last as int].id) by {
        if recent.contains(fetched[last as int]) {
            let b = choose|b: int| 0 <= b < recent.len() && recent[b] == fetched[last as int];
            if b > 0 {
                assert(recent[0].id >= recent[b].id);
            }
        } else {
            let j = last as usize;
            assert(j as int == last);
            assert(!recent.contains(fetched[j as int]));
            assert(recent[0].id >= fetched[j as int].id);
        }
    }
    if k != last {
        assert(rows[k] == clicks_with(t.clicks, code)[k]);
        assert(t.clicks.contains(clicks_with(t.clicks, code)[k]));
        let q = choose|q: int| 0 <= q < t.clicks.len() && t.clicks[q] == clicks_with(
            t.clicks,
            code,
        )[k];
        assert(t.clicks[q].id < t.next_click_id);
    }
}

} // verus!
