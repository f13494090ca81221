use snipurl::text::{decimal_u64, parse_u16};
use snipurl::code::{code_from_indices, generate_code, CODE_ALPHABET};
use snipurl::config::{listen_address, load_config};
use snipurl::model::{ClickLog, Link, ShortenRequest, Status};
use snipurl::page::{index, render_index, INDEX_HTML};
use snipurl::service::{
    check_auth, choose_code, database_error, delete_link, delete_link_outcome, global_analytics,
    health, link_stats, Authorized,
    link_stats_outcome, list_links, not_found, redirect_link, shorten_url, shorten_url_outcome,
    user_agent_or_unknown, NewLink,
};

fn link(id: i64, code: &str, clicks: i64) -> Link {
    Link {
        id,
        code: code.to_string(),
        original_url: format!("https://example.com/{}", code),
        clicks,
        created_at: "2024-01-01 00:00:00".to_string(),
    }
}

fn request(url: &str, custom: Option<&str>) -> ShortenRequest {
    ShortenRequest { url: url.to_string(), custom_code: custom.map(|c| c.to_string()) }
}

fn admitted() -> Authorized {
    match check_auth(Some("k"), "k") {
        Ok(a) => a,
        Err(_) => panic!("the key was refused"),
    }
}

#[test]
fn auth_accepts_only_the_key() {
    assert!(check_auth(Some("secret"), "secret").is_ok());
    let e = check_auth(Some("wrong"), "secret").err().unwrap();
    assert_eq!(e.status, Status::Unauthorized);
    assert_eq!(e.status.code(), 401);
    assert_eq!(e.message, "invalid or missing API key");
    assert_eq!(check_auth(None, "secret").err().unwrap().status, Status::Unauthorized);
    assert!(check_auth(None, "").is_ok());
}

#[test]
fn generated_codes_are_six_alphabet_characters() {
    for _ in 0..200 {
        let c = generate_code();
        assert_eq!(c.chars().count(), 6);
        assert!(c.chars().all(|ch| CODE_ALPHABET.contains(ch)), "code {:?}", c);
    }
    let all: Vec<usize> = (0..36).collect();
    assert_eq!(code_from_indices(&all), CODE_ALPHABET);
}

#[test]
fn shorten_with_custom_code() {
    let link = shorten_url(Some("k"), "k", &request("https://example.com", Some("home"))).unwrap();
    assert_eq!(link.code, "home");
    assert_eq!(link.original_url, "https://example.com");
    let (status, body) =
        shorten_url_outcome("http://localhost:3000", &link, &Ok(())).unwrap();
    assert_eq!(status, Status::Created);
    assert_eq!(status.code(), 201);
    assert_eq!(body.code, "home");
    assert_eq!(body.short_url, "http://localhost:3000/home");
    assert_eq!(body.original_url, "https://example.com");
}

#[test]
fn shorten_generates_a_code_when_none_or_empty() {
    let a = shorten_url(Some("k"), "k", &request("http://x.org/a", None)).unwrap();
    assert_eq!(a.code.len(), 6);
    let b = shorten_url(Some("k"), "k", &request("http://x.org/a", Some(""))).unwrap();
    assert_eq!(b.code.len(), 6);
    assert!(b.code.chars().all(|ch| CODE_ALPHABET.contains(ch)));
    assert_eq!(choose_code(&Some("mine".to_string())), "mine");
}

#[test]
fn shorten_refusals() {
    let e = shorten_url(Some("bad"), "k", &request("ftp://x", None)).unwrap_err();
    assert_eq!(e.status, Status::Unauthorized);
    let e = shorten_url(Some("k"), "k", &request("ftp://x", None)).unwrap_err();
    assert_eq!(e.status, Status::BadRequest);
    assert_eq!(e.status.code(), 400);
    assert_eq!(e.message, "URL must start with http:// or https://");
}

#[test]
fn shorten_insert_failures() {
    let link = NewLink { code: "home".to_string(), original_url: "https://e.com".to_string() };
    let e = shorten_url_outcome(
        "http://b",
        &link,
        &Err("error returned from database: (code: 2067) UNIQUE constraint failed: links.code"
            .to_string()),
    )
    .unwrap_err();
    assert_eq!(e.status, Status::Conflict);
    assert_eq!(e.status.code(), 409);
    assert_eq!(e.message, "code 'home' is already taken, try a different custom_code");
    let e = shorten_url_outcome("http://b", &link, &Err("pool timed out".to_string())).unwrap_err();
    assert_eq!(e.status, Status::InternalServerError);
    assert_eq!(e.status.code(), 500);
    assert_eq!(e.message, "database error: pool timed out");
}

#[test]
fn redirect_decisions() {
    let ok = redirect_link("home", &Ok(Some("https://e.com".to_string())), Some("curl/8"))
        .unwrap();
    assert_eq!(ok.code, "home");
    assert_eq!(ok.target, "https://e.com");
    assert_eq!(ok.user_agent, "curl/8");
    let ok = redirect_link("home", &Ok(Some("https://e.com".to_string())), None).unwrap();
    assert_eq!(ok.user_agent, "unknown");
    let e = redirect_link("nope", &Ok(None), None).unwrap_err();
    assert_eq!(e.status, Status::NotFound);
    assert_eq!(e.message, "no link found for 'nope'");
    let e = redirect_link("x", &Err("disk I/O error".to_string()), None).unwrap_err();
    assert_eq!(e.message, "database error: disk I/O error");
    assert_eq!(user_agent_or_unknown(Some("")), "");
}

#[test]
fn listing_holds_every_link() {
    let rows: Vec<Link> = (0..150).map(|i| link(i, &format!("l{}", i), (i * 17) % 23)).collect();
    let listed = list_links(&admitted(), "k", &Ok(rows)).unwrap();
    assert_eq!(listed.len(), 150);
    let mut ids: Vec<i64> = listed.iter().map(|l| l.id).collect();
    for w in listed.windows(2) {
        assert!(w[0].clicks >= w[1].clicks);
    }
    ids.sort();
    assert_eq!(ids, (0..150).collect::<Vec<i64>>());
}

#[test]
fn listing_and_analytics() {
    let rows = vec![link(1, "a", 1), link(2, "b", 4), link(3, "c", 4)];
    let listed = list_links(&admitted(), "k", &Ok(rows)).unwrap();
    let codes: Vec<&str> = listed.iter().map(|l| l.code.as_str()).collect();
    assert_eq!(codes, vec!["b", "c", "a"]);
    assert_eq!(list_links(&admitted(), "k", &Err("boom".to_string())).unwrap_err().message, "database error: boom");

    let rows: Vec<Link> = (1..=8).map(|i| link(i, &format!("l{}", i), i)).collect();
    let stats = global_analytics(&admitted(), "k", &Ok(rows)).unwrap();
    assert_eq!(stats.total_links, 8);
    assert_eq!(stats.total_clicks, 36);
    let top: Vec<i64> = stats.top_links.iter().map(|l| l.clicks).collect();
    assert_eq!(top, vec![8, 7, 6, 5, 4]);

    let empty = global_analytics(&admitted(), "k", &Ok(Vec::new())).unwrap();
    assert_eq!((empty.total_links, empty.total_clicks, empty.top_links.len()), (0, 0, 0));

    let over = vec![link(1, "a", i64::MAX), link(2, "b", 1)];
    let e = global_analytics(&admitted(), "k", &Ok(over)).unwrap_err();
    assert_eq!(e.status, Status::InternalServerError);
    assert_eq!(e.message, "database error: error returned from database: (code: 1) integer overflow");
}

#[test]
fn stats_steps() {
    let e = link_stats(&admitted(), "k", "zz", Ok(None)).unwrap_err();
    assert_eq!(e.status, Status::NotFound);
    assert_eq!(e.message, "link 'zz' not found");
    let found = link_stats(&admitted(), "k", "a", Ok(Some(link(1, "a", 3)))).unwrap();
    assert_eq!(found.code, "a");
    let clicks: Vec<ClickLog> = (1..=30)
        .map(|i| ClickLog {
            id: i,
            code: "a".to_string(),
            user_agent: "ua".to_string(),
            clicked_at: "t".to_string(),
        })
        .collect();
    let stats = link_stats_outcome(found, &Ok(clicks)).unwrap();
    assert_eq!(stats.link.clicks, 3);
    assert_eq!(stats.recent_clicks.len(), 20);
    assert_eq!(stats.recent_clicks[0].id, 30);
    assert_eq!(stats.recent_clicks[19].id, 11);
    let e = link_stats_outcome(link(1, "a", 3), &Err("gone".to_string())).unwrap_err();
    assert_eq!(e.message, "database error: gone");
}

#[test]
fn delete_steps() {
    assert!(delete_link(&admitted(), "k", "home", &Ok(1)).is_ok());
    let e = delete_link(&admitted(), "k", "home", &Ok(0)).err().unwrap();
    assert_eq!(e.status, Status::NotFound);
    assert_eq!(e.message, "link 'home' not found");
    let e = delete_link(&admitted(), "k", "home", &Err("x".to_string())).err().unwrap();
    assert_eq!(e.status.code(), 500);
    assert_eq!(delete_link_outcome("home", &Ok(3)).unwrap().message, "link 'home' deleted");
    assert_eq!(delete_link_outcome("home", &Ok(0)).unwrap().message, "link 'home' deleted");
    let e = delete_link_outcome("home", &Err("(code: 5) database is locked".to_string()))
        .unwrap_err();
    assert_eq!(e.status, Status::InternalServerError);
    assert_eq!(e.message, "database error: (code: 5) database is locked");
}

#[test]
fn fixed_answers() {
    assert_eq!(health().message, "ok");
    let e = not_found();
    assert_eq!(e.status, Status::NotFound);
    assert_eq!(e.status.code(), 404);
    assert_eq!(e.message, "not found");
    assert_eq!(database_error("x").message, "database error: x");
    assert_eq!(Status::Success.code(), 200);
}

#[test]
fn home_page_fills_totals() {
    let page = render_index(12, -3);
    assert_eq!(page, INDEX_HTML.replace("TOTAL_LINKS", "12").replace("TOTAL_CLICKS", "-3"));
    assert!(page.contains("<div class=\"num\">12</div>"));
    assert_eq!(index(Some(2), Some(7)), render_index(2, 7));
    assert_eq!(index(None, None), render_index(0, 0));
    assert_eq!(index(Some(2), None), render_index(2, 0));
    assert_eq!(index(None, Some(9)), render_index(0, 9));
}

#[test]
fn configuration() {
    assert!(load_config(None, None, None, None).is_none());
    let c = load_config(Some("k".to_string()), None, None, None).unwrap();
    assert_eq!(c.api_key, "k");
    assert_eq!(c.base_url, "http://localhost:3000");
    assert_eq!(c.database_url, "sqlite:snipurl.db?mode=rwc");
    assert_eq!(c.port, 3000);
    let c = load_config(
        Some("k".to_string()),
        Some("https://s.io".to_string()),
        Some("sqlite:/data/s.db".to_string()),
        Some("8080".to_string()),
    )
    .unwrap();
    assert_eq!(c.base_url, "https://s.io");
    assert_eq!(c.database_url, "sqlite:/data/s.db");
    assert_eq!(c.port, 8080);
    let c = load_config(Some("k".to_string()), None, None, Some("http".to_string())).unwrap();
    assert_eq!(c.port, 3000);
    assert_eq!(listen_address(8080), "0.0.0.0:8080");
    assert_eq!(listen_address(0), "0.0.0.0:0");
}

#[test]
fn port_round_trip() {
    for p in [0u16, 1, 80, 443, 3000, 8080, 65535] {
        assert_eq!(parse_u16(&decimal_u64(p as u64)), Some(p));
    }
}

#[test]
fn database_errors_are_passed_through() {
    let e = redirect_link("c", &Err("(code: 5) database is locked".to_string()), None).unwrap_err();
    assert_eq!(e.status.code(), 500);
    assert_eq!(e.message, "database error: (code: 5) database is locked");
    let e = global_analytics(&admitted(), "k", &Err("closed".to_string())).unwrap_err();
    assert_eq!(e.message, "database error: closed");
    let e = link_stats(&admitted(), "k", "c", Err("io".to_string())).unwrap_err();
    assert_eq!(e.message, "database error: io");
}

#[test]
fn permission_for_another_key_is_refused() {
    let other = match check_auth(Some("old"), "old") {
        Ok(a) => a,
        Err(_) => panic!("the key was refused"),
    };
    let rows = vec![link(1, "a", 1)];
    let e = list_links(&other, "k", &Ok(rows)).unwrap_err();
    assert_eq!(e.status, Status::Unauthorized);
    assert_eq!(e.message, "invalid or missing API key");
    assert_eq!(global_analytics(&other, "k", &Ok(Vec::new())).unwrap_err().status.code(), 401);
    assert_eq!(link_stats(&other, "k", "a", Ok(None)).unwrap_err().status.code(), 401);
    let e = delete_link(&other, "k", "a", &Ok(1)).err().unwrap();
    assert_eq!(e.status, Status::Unauthorized);
}
