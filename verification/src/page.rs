//! The home page: a form for shortening links and the live totals.
use vstd::prelude::*;
use crate::text::{decimal_i64, law_signed_decimal_injective, replace_all, replaced, signed_decimal};

verus! {

/// The home page, with `TOTAL_LINKS` and `TOTAL_CLICKS` standing for the
/// totals.
pub const INDEX_HTML: &'static str = r#"<!DOCTYPE html>
<html lang="en">
<head>
<meta charset="UTF-8">
<meta name="viewport" content="width=device-width, initial-scale=1.0">
<title>SnipURL</title>
<style>
*, *::before, *::after { box-sizing: border-box; margin: 0; padding: 0; }
body { font-family: -apple-system, BlinkMacSystemFont, 'Segoe UI', system-ui, sans-serif; background: #0d0d0d; color: #e2e2e2; min-height: 100vh; display: flex; flex-direction: column; align-items: center; justify-content: center; padding: 2rem; }
.card { background: #161616; border: 1px solid #252525; border-radius: 14px; padding: 2.25rem; width: 100%; max-width: 460px; }
h1 { font-size: 1.75rem; font-weight: 700; letter-spacing: -0.02em; margin-bottom: 0.3rem; }
.sub { color: #666; font-size: 0.875rem; margin-bottom: 1.75rem; }
label { display: block; font-size: 0.8rem; font-weight: 500; color: #888; margin-bottom: 0.35rem; margin-top: 0.9rem; }
label:first-of-type { margin-top: 0; }
input { width: 100%; padding: 0.6rem 0.9rem; background: #0d0d0d; border: 1px solid #252525; border-radius: 8px; color: #e2e2e2; font-size: 0.9rem; outline: none; transition: border-color 0.15s; }
input:focus { border-color: #4f98a3; }
button { width: 100%; margin-top: 1.25rem; padding: 0.7rem; background: #4f98a3; border: none; border-radius: 8px; color: #fff; font-size: 0.9rem; font-weight: 600; cursor: pointer; transition: background 0.15s; }
button:hover { background: #3a7f8a; }
.result { margin-top: 1rem; padding: 0.75rem 0.9rem; background: #0d0d0d; border: 1px solid #252525; border-radius: 8px; font-size: 0.875rem; word-break: break-all; display: none; line-height: 1.5; }
.result a { color: #4f98a3; text-decoration: none; }
.result a:hover { text-decoration: underline; }
.stats { display: grid; grid-template-columns: 1fr 1fr; gap: 0.75rem; margin-top: 1.5rem; }
.stat { background: #0d0d0d; border: 1px solid #252525; border-radius: 8px; padding: 0.9rem 1rem; text-align: center; }
.stat .num { font-size: 1.6rem; font-weight: 700; color: #4f98a3; letter-spacing: -0.02em; }
.stat .lbl { font-size: 0.75rem; color: #555; margin-top: 0.15rem; }
.err { color: #e57373; }
.ok { color: #81c784; }
.divider { border: none; border-top: 1px solid #1f1f1f; margin: 1.5rem 0 0; }
.api-note { font-size: 0.78rem; color: #555; margin-top: 1rem; line-height: 1.5; }
.api-note code { background: #111; padding: 0.1rem 0.35rem; border-radius: 4px; font-size: 0.76rem; color: #888; }
</style>
</head>
<body>
<div class="card">
  <h1>SnipURL</h1>
  <p class="sub">URL shortener with click analytics</p>
  <label>Long URL</label>
  <input id="url" type="url" placeholder="https://example.com/very/long/url" />
  <label>Custom code <span style="color:#3a3a3a">(optional)</span></label>
  <input id="code" type="text" placeholder="e.g. my-link" />
  <label>API key</label>
  <input id="key" type="password" placeholder="required to create links" />
  <button onclick="shorten()">Shorten URL</button>
  <div class="result" id="result"></div>
  <div class="stats">
    <div class="stat">
      <div class="num">TOTAL_LINKS</div>
      <div class="lbl">links created</div>
    </div>
    <div class="stat">
      <div class="num">TOTAL_CLICKS</div>
      <div class="lbl">total clicks</div>
    </div>
  </div>
  <hr class="divider">
  <p class="api-note">API: <code>POST /shorten</code> &middot; <code>GET /links</code> &middot; <code>GET /analytics</code> &middot; <code>GET /stats/:code</code> &middot; <code>DELETE /links/:code</code></p>
</div>
<script>
async function shorten() {
    const url = document.getElementById('url').value.trim();
    const code = document.getElementById('code').value.trim();
    const key = document.getElementById('key').value.trim();
    const res = document.getElementById('result');
    res.style.display = 'block';
    if (!url) { res.innerHTML = '<span class="err">URL is required</span>'; return; }
    const body = { url };
    if (code) body.custom_code = code;
    try {
        const r = await fetch('/shorten', {
            method: 'POST',
            headers: { 'Content-Type': 'application/json', 'x-api-key': key },
            body: JSON.stringify(body)
        });
        const data = await r.json();
        if (r.ok) {
            res.innerHTML = '<span class="ok">Created</span> &rarr; <a href="' + data.short_url + '" target="_blank">' + data.short_url + '</a>';
        } else {
            res.innerHTML = '<span class="err">' + data.message + '</span>';
        }
    } catch(e) {
        res.innerHTML = '<span class="err">Request failed</span>';
    }
}
document.getElementById('url').addEventListener('keydown', function(e) {
    if (e.key === 'Enter') shorten();
});
</script>
</body>
</html>"#;

/// The home page showing `total_links` links and `total_clicks` clicks: the
/// template with every `TOTAL_LINKS` replaced by the first number and then
/// every `TOTAL_CLICKS` by the second, both in decimal.
pub open spec fn index_page(total_links: i64, total_clicks: i64) -> Seq<char> {
    replaced(
        replaced(INDEX_HTML@, "TOTAL_LINKS"@, signed_decimal(total_links as int)),
        "TOTAL_CLICKS"@,
        signed_decimal(total_clicks as int),
    )
}

/// A figure shown on the home page: the figure read, or 0 when reading it
/// failed.
pub open spec fn shown(figure: Option<i64>) -> i64 {
    match figure {
        Some(n) => n,
        None => 0,
    }
}

/// Each slot of the home page holds the decimal of its own figure: the page
/// for any pair of figures is the template with every `TOTAL_LINKS` replaced
/// by the decimal of the number of links and then every `TOTAL_CLICKS` by
/// the decimal of the number of clicks, so pages for two click figures
/// differ only where the click figures are written, and two figures are
/// written alike only when they are equal.
pub proof fn law_home_page_slots(total_links: i64, clicks1: i64, clicks2: i64)
    ensures
        index_page(total_links, clicks1) == replaced(
            replaced(INDEX_HTML@, "TOTAL_LINKS"@, signed_decimal(total_links as int)),
            "TOTAL_CLICKS"@,
            signed_decimal(clicks1 as int),
        ),
        index_page(total_links, clicks2) == replaced(
            replaced(INDEX_HTML@, "TOTAL_LINKS"@, signed_decimal(total_links as int)),
            "TOTAL_CLICKS"@,
            signed_decimal(clicks2 as int),
        ),
        signed_decimal(clicks1 as int) == signed_decimal(clicks2 as int) <==> clicks1 == clicks2,
        shown(Some(clicks1)) == clicks1,
        shown(None) == 0,
{
    law_signed_decimal_injective(clicks1 as int, clicks2 as int);
}

/// The home page with the given totals filled in.
pub fn render_index(total_links: i64, total_clicks: i64) -> (page: String)
    ensures
        page@ == index_page(total_links, total_clicks),
        page@ == replaced(
            replaced(INDEX_HTML@, "TOTAL_LINKS"@, signed_decimal(total_links as int)),
            "TOTAL_CLICKS"@,
            signed_decimal(total_clicks as int),
        ),
{
    proof {
        reveal_strlit("TOTAL_LINKS");
        reveal_strlit("TOTAL_CLICKS");
    }
    let links = decimal_i64(total_links);
    let clicks = decimal_i64(total_clicks);
    let first = replace_all(INDEX_HTML, "TOTAL_LINKS", links.as_str());
    replace_all(first.as_str(), "TOTAL_CLICKS", clicks.as_str())
}

/// The home page for the number of links and the total of their clicks as
/// read from the database, each `None` when its own read failed; a figure
/// that could not be read shows as 0 and the other is shown as read.
pub fn index(total_links: Option<i64>, total_clicks: Option<i64>) -> (page: String)
    ensures
        page@ == index_page(shown(total_links), shown(total_clicks)),
        page@ == replaced(
            replaced(
                INDEX_HTML@,
                "TOTAL_LINKS"@,
                signed_decimal(
                    match total_links {
                        Some(n) => n as int,
                        None => 0,
                    },
                ),
            ),
            "TOTAL_CLICKS"@,
            signed_decimal(
                match total_clicks {
                    Some(t) => t as int,
                    None => 0,
                },
            ),
        ),
{
    let n = match total_links {
        Some(n) => n,
        None => 0,
    };
    let t = match total_clicks {
        Some(t) => t,
        None => 0,
    };
    render_index(n, t)
}

} // verus!
