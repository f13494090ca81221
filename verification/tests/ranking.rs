use snipurl::analytics::{count_links, most_clicked, most_recent, total_clicks};
use snipurl::model::{ClickLog, Link};
use snipurl::ranking::top_ranked;

fn link(id: i64, code: &str, clicks: i64) -> Link {
    Link {
        id,
        code: code.to_string(),
        original_url: format!("https://example.com/{}", code),
        clicks,
        created_at: "2024-01-01 00:00:00".to_string(),
    }
}

fn click(id: i64) -> ClickLog {
    ClickLog {
        id,
        code: "home".to_string(),
        user_agent: "curl".to_string(),
        clicked_at: "2024-01-01 00:00:00".to_string(),
    }
}

#[test]
fn ranking_orders_by_key_then_position() {
    assert_eq!(top_ranked(&vec![3, 7, 7, 1, 9], 10), vec![4, 1, 2, 0, 3]);
    assert_eq!(top_ranked(&vec![3, 7, 7, 1, 9], 2), vec![4, 1]);
    assert_eq!(top_ranked(&vec![], 5), Vec::<usize>::new());
    assert_eq!(top_ranked(&vec![5, 5, 5], 0), Vec::<usize>::new());
}

#[test]
fn most_clicked_links_first() {
    let rows = vec![link(1, "a", 2), link(2, "b", 10), link(3, "c", 5), link(4, "d", 10)];
    let top = most_clicked(&rows, 3);
    let codes: Vec<&str> = top.iter().map(|l| l.code.as_str()).collect();
    assert_eq!(codes, vec!["b", "d", "c"]);
    assert_eq!(top[0].clicks, 10);
    assert_eq!(top[2].original_url, "https://example.com/c");
}

#[test]
fn top_five_lead_the_listing() {
    let rows: Vec<Link> = (0..12).map(|i| link(i, &format!("c{}", i), (i * 7) % 5)).collect();
    let listed = most_clicked(&rows, 100);
    let top = most_clicked(&rows, 5);
    assert_eq!(listed.len(), 12);
    assert_eq!(top.len(), 5);
    for k in 0..5 {
        assert_eq!(top[k].code, listed[k].code);
    }
    for w in listed.windows(2) {
        assert!(w[0].clicks >= w[1].clicks);
    }
}

#[test]
fn most_recent_clicks_newest_first() {
    let rows: Vec<ClickLog> = (1..=25).map(click).collect();
    let recent = most_recent(&rows, 20);
    assert_eq!(recent.len(), 20);
    assert_eq!(recent[0].id, 25);
    assert_eq!(recent[19].id, 6);
}

#[test]
fn totals_add_up() {
    let rows = vec![link(1, "a", 2), link(2, "b", 10), link(3, "c", 5)];
    assert_eq!(count_links(&rows), Some(3));
    assert_eq!(total_clicks(&rows), Some(17));
    assert_eq!(total_clicks(&Vec::new()), Some(0));
    let big = vec![link(1, "a", i64::MAX), link(2, "b", 1)];
    assert_eq!(total_clicks(&big), None);
    let back = vec![link(1, "a", i64::MAX), link(2, "b", -1)];
    assert_eq!(total_clicks(&back), Some(i64::MAX - 1));
}

#[test]
fn ranking_is_unique_and_stable_on_ties() {
    let rows = vec![link(1, "x", 1), link(2, "y", 1), link(3, "z", 1)];
    let a = most_clicked(&rows, 2);
    let b = most_clicked(&rows, 2);
    assert_eq!(a.iter().map(|l| l.id).collect::<Vec<_>>(), vec![1, 2]);
    assert_eq!(a.iter().map(|l| l.id).collect::<Vec<_>>(), b.iter().map(|l| l.id).collect::<Vec<_>>());
}

#[test]
fn left_out_links_have_no_more_clicks() {
    let rows: Vec<Link> = (0..30).map(|i| link(i, &format!("k{}", i), (i * 13) % 11)).collect();
    let top = most_clicked(&rows, 5);
    let least = top.iter().map(|l| l.clicks).min().unwrap();
    for r in &rows {
        if !top.iter().any(|t| t.id == r.id) {
            assert!(r.clicks <= least);
        }
    }
}

#[test]
fn large_table_ranks_quickly() {
    let rows: Vec<Link> = (0..20000).map(|i| link(i, "c", (i * 7919) % 1000)).collect();
    let listed = most_clicked(&rows, rows.len());
    assert_eq!(listed.len(), 20000);
    for w in listed.windows(2) {
        assert!(w[0].clicks > w[1].clicks || (w[0].clicks == w[1].clicks && w[0].id < w[1].id));
    }
}
