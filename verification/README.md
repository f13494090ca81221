# snipurl

A self-hosted URL shortener with per-link click analytics. The decisions of
every endpoint are a Verus-verified library; the HTTP server around them
(axum, SQLite through sqlx, tokio) is ordinary Rust.

- `src/text.rs` – prefix and substring tests, replacement of every
  occurrence of a pattern, decimal rendering and parsing.
- `src/ranking.rs` – the first `limit` rows by a key, largest first (a merge
  sort), and the laws that make that ranking unique and prefix-closed.
- `src/analytics.rs` – most clicked links, most recent clicks, link count and
  click total.
- `src/code.rs` – random six-character codes.
- `src/service.rs` – authentication, shortening, redirecting, listing,
  statistics, analytics and deletion, each as steps around the database.
- `src/page.rs` – the home page with its totals.
- `src/config.rs` – settings from the environment variables.
- `src/store.rs` – a model of the two database tables and of the statements
  the server runs, with the properties that hold across endpoints.
- `src/laws.rs` – properties that tie endpoints together.
- `app/main.rs` – routes, JSON bodies, the database and the server loop.
