//! The HTTP front's decisions: which built-in endpoint a path names, which
//! static file it may serve, the session cookie, the bodies of the built-in
//! pages and replies, and the live-reload summary. Sockets and files are the
//! caller's work.

use vstd::prelude::*;
use crate::config::{join_path, path_join};
use crate::text::{
    all_ascii, ascii_lower_char, chars_of, contains, contains_seq, has_prefix, nat_decimal, nat_hex,
    push_all, push_decimal, push_hex, push_str, replace_all, replace_spec, starts_with, string_of,
    trim_chars, trim_spec, uppercase,
};

verus! {

/// The script added to every HTML page: in-page navigation, form submits
/// and hot reloading.
pub const TURBO_CLIENT_SCRIPT: &'static str = r#"
<script>
(function() {
  const bar = document.createElement('div');
  bar.id = '__titanium_progress';
  bar.style.cssText = 'position:fixed;top:0;left:0;height:3px;background:#38bdf8;width:0%;transition:width 0.2s ease, opacity 0.3s ease;z-index:999999;pointer-events:none;box-shadow:0 0 8px #38bdf8;';
  document.documentElement.appendChild(bar);

  function startProgress() { bar.style.opacity = '1'; bar.style.width = '30%'; setTimeout(() => { if (bar.style.width === '30%') bar.style.width = '70%'; }, 150); }
  function finishProgress() { bar.style.width = '100%'; setTimeout(() => { bar.style.opacity = '0'; setTimeout(() => { bar.style.width = '0%'; }, 300); }, 150); }

  function showHmrBadge(message) {
    let badge = document.getElementById('__titanium_hmr_badge');
    if (!badge) {
      badge = document.createElement('div');
      badge.id = '__titanium_hmr_badge';
      badge.style.cssText = 'position:fixed;bottom:16px;right:16px;background:rgba(9,13,22,0.92);backdrop-filter:blur(10px);color:#38bdf8;border:1px solid rgba(56,189,248,0.3);padding:6px 14px;border-radius:20px;font-size:12px;font-family:system-ui,-apple-system,sans-serif;font-weight:600;display:flex;align-items:center;gap:6px;box-shadow:0 8px 24px rgba(0,0,0,0.5);z-index:999999;transition:all 0.3s cubic-bezier(0.16, 1, 0.3, 1);transform:translateY(40px);opacity:0;pointer-events:none;';
      document.documentElement.appendChild(badge);
    }
    badge.innerHTML = message;
    badge.style.transform = 'translateY(0)';
    badge.style.opacity = '1';
    clearTimeout(badge._timer);
    badge._timer = setTimeout(() => {
      badge.style.transform = 'translateY(40px)';
      badge.style.opacity = '0';
    }, 1600);
  }

  async function applyHtml(htmlText, pushUrl, preserveScroll = false) {
    const prevScrollX = window.scrollX;
    const prevScrollY = window.scrollY;

    const parser = new DOMParser();
    const doc = parser.parseFromString(htmlText, 'text/html');
    if (doc.title) document.title = doc.title;
    document.body.innerHTML = doc.body.innerHTML;
    document.querySelectorAll('script').forEach(oldScript => {
      if (oldScript.src) return;
      const newScript = document.createElement('script');
      newScript.textContent = oldScript.textContent;
      document.body.appendChild(newScript);
    });

    if (pushUrl && window.location.href !== pushUrl) {
      window.history.pushState({}, '', pushUrl);
    }

    if (preserveScroll) {
      window.scrollTo({ left: prevScrollX, top: prevScrollY, behavior: 'instant' });
    } else {
      window.scrollTo({ top: 0, behavior: 'instant' });
    }
  }

  document.addEventListener('click', async (e) => {
    const link = e.target.closest('a');
    if (!link || !link.href) return;
    if (link.target && link.target !== '_self') return;
    if (link.hasAttribute('download') || link.getAttribute('rel') === 'external' || link.href.includes('/__titanium_studio')) return;

    const url = new URL(link.href, window.location.origin);
    if (url.origin !== window.location.origin) return;
    if (url.pathname === window.location.pathname && url.search === window.location.search && url.hash) return;

    e.preventDefault();
    startProgress();
    const isSamePage = (url.pathname === window.location.pathname && url.search === window.location.search);
    const shouldPreserve = link.hasAttribute('data-preserve-scroll') || isSamePage;

    try {
      const res = await fetch(url.href, { headers: { 'X-Titanium-Request': 'true' } });
      const text = await res.text();
      await applyHtml(text, res.redirected ? res.url : url.href, shouldPreserve);
    } catch {
      window.location.href = url.href;
    } finally {
      finishProgress();
    }
  });

  document.addEventListener('submit', async (e) => {
    const form = e.target;
    if (!form || !(form instanceof HTMLFormElement) || form.hasAttribute('data-native')) return;

    const rawAction = form.getAttribute('action');
    const action = (rawAction !== null && rawAction !== '') ? rawAction : window.location.href;
    const url = new URL(action, window.location.origin);
    if (url.origin !== window.location.origin) return;

    e.preventDefault();
    startProgress();

    const rawMethod = form.getAttribute('method');
    const method = (rawMethod || 'GET').toUpperCase();
    const formData = new FormData(form);

    try {
      let res;
      if (method === 'GET') {
        const params = new URLSearchParams(formData);
        url.search = params.toString();
        res = await fetch(url.href, { headers: { 'X-Titanium-Request': 'true' } });
      } else {
        const body = new URLSearchParams();
        for (const [k, v] of formData.entries()) {
          body.append(k, v);
        }
        res = await fetch(url.href, {
          method: 'POST',
          headers: { 'Content-Type': 'application/x-www-form-urlencoded', 'X-Titanium-Request': 'true' },
          body: body.toString()
        });
      }
      const text = await res.text();
      const targetUrl = new URL(res.redirected ? res.url : url.href, window.location.origin);
      const isSamePage = targetUrl.pathname === window.location.pathname;
      const preserve = form.hasAttribute('data-preserve-scroll') || isSamePage || method === 'POST';

      await applyHtml(text, res.redirected ? res.url : url.href, preserve);
    } catch {
      HTMLFormElement.prototype.submit.call(form);
    } finally {
      finishProgress();
    }
  });

  window.addEventListener('popstate', async () => {
    startProgress();
    try {
      const res = await fetch(window.location.href);
      const text = await res.text();
      await applyHtml(text, null, false);
    } catch {
      window.location.reload();
    } finally {
      finishProgress();
    }
  });

  // ⚡ Titanium HMR (Hot Module Replacement Engine)
  let lastMtime = null;
  async function checkHmr() {
    try {
      const res = await fetch('/__titanium_live', { cache: 'no-store' });
      if (res.ok) {
        const data = await res.json();
        if (lastMtime !== null && data.mtime && data.mtime > lastMtime) {
          if (data.change_type === 'css') {
            // CSS HMR: Instantly hot-reload all stylesheets without altering DOM or JS state
            const links = document.querySelectorAll('link[rel="stylesheet"]');
            links.forEach(link => {
              const url = new URL(link.href, window.location.origin);
              url.searchParams.set('hmr', Date.now());
              link.href = url.href;
            });
            showHmrBadge('🎨 HMR: Hot-swapped CSS (' + (data.file || 'style') + ')');
          } else {
            // DOM HMR: Capture active focus & input values, patch DOM, and restore
            const activeEl = document.activeElement;
            const activeId = activeEl && activeEl.id ? activeEl.id : null;
            const activeName = activeEl && activeEl.name ? activeEl.name : null;
            const activeVal = (activeEl && ('value' in activeEl)) ? activeEl.value : null;

            const fresh = await fetch(window.location.href, { cache: 'no-store', headers: { 'X-Titanium-HMR': 'true' } });
            const text = await fresh.text();
            await applyHtml(text, null, true);

            // Restore active input focus and draft value
            if (activeId) {
              const el = document.getElementById(activeId);
              if (el && 'value' in el) { el.value = activeVal; el.focus(); }
            } else if (activeName) {
              const el = document.querySelector('[name="' + activeName + '"]');
              if (el && 'value' in el) { el.value = activeVal; el.focus(); }
            }

            showHmrBadge('⚡ HMR: Hot-updated ' + (data.file || 'component'));
          }
        }
        lastMtime = data.mtime;
      }
    } catch (_) {}
    setTimeout(checkHmr, 200);
  }
  setTimeout(checkHmr, 200);
})();
</script>
"#;

/// What the server is told to run.
pub struct ServerConfig {
    pub root_dir: String,
    pub host: String,
    pub port: u16,
    pub db_path: Option<String>,
    pub workers: usize,
    pub queue_workers: usize,
}

/// The built-in endpoints, and the rest.
pub enum Endpoint {
    Live,
    Studio,
    StudioTables,
    StudioQuery,
    StudioCache,
    StudioQueue,
    StudioPubsub,
    Health,
    Other,
}

/// The endpoint that a request path names.
pub open spec fn endpoint_of(path: Seq<char>) -> Endpoint {
    if path == "/__titanium_live"@ {
        Endpoint::Live
    } else if path == "/__titanium_studio"@ {
        Endpoint::Studio
    } else if path == "/__titanium_studio/api/tables"@ {
        Endpoint::StudioTables
    } else if path == "/__titanium_studio/api/query"@ {
        Endpoint::StudioQuery
    } else if path == "/__titanium_studio/api/cache"@ {
        Endpoint::StudioCache
    } else if path == "/__titanium_studio/api/queue"@ {
        Endpoint::StudioQueue
    } else if path == "/__titanium_studio/api/pubsub"@ {
        Endpoint::StudioPubsub
    } else if path == "/__titanium_health"@ {
        Endpoint::Health
    } else {
        Endpoint::Other
    }
}

fn text_is(s: &str, lit: &str) -> (b: bool)
    ensures
        b == (s@ == lit@),
{
    let a = chars_of(s);
    crate::text::str_eq_chars(lit, &a)
}

/// The endpoint that a request path names.
pub fn classify_path(path: &str) -> (e: Endpoint)
    ensures
        e == endpoint_of(path@),
{
    if text_is(path, "/__titanium_live") {
        Endpoint::Live
    } else if text_is(path, "/__titanium_studio") {
        Endpoint::Studio
    } else if text_is(path, "/__titanium_studio/api/tables") {
        Endpoint::StudioTables
    } else if text_is(path, "/__titanium_studio/api/query") {
        Endpoint::StudioQuery
    } else if text_is(path, "/__titanium_studio/api/cache") {
        Endpoint::StudioCache
    } else if text_is(path, "/__titanium_studio/api/queue") {
        Endpoint::StudioQueue
    } else if text_is(path, "/__titanium_studio/api/pubsub") {
        Endpoint::StudioPubsub
    } else if text_is(path, "/__titanium_health") {
        Endpoint::Health
    } else {
        Endpoint::Other
    }
}

/// How a request is answered.
pub enum RequestPlan {
    /// By the built-in endpoint the path names.
    Builtin,
    /// By a file under `public/`.
    StaticFile,
    /// By the page that the router matched.
    Page,
    /// By a 404 page.
    NotFound,
}

/// The order in which a request is answered: a built-in endpoint first,
/// then a file under `public/`, then a routed page, else 404.
pub open spec fn plan_request_spec(endpoint: Endpoint, static_found: bool, route_found: bool) -> RequestPlan {
    if !(endpoint is Other) {
        RequestPlan::Builtin
    } else if static_found {
        RequestPlan::StaticFile
    } else if route_found {
        RequestPlan::Page
    } else {
        RequestPlan::NotFound
    }
}

/// How a request for a path of the given endpoint is answered, given
/// whether a public file and a route were found for it.
pub fn plan_request(endpoint: &Endpoint, static_found: bool, route_found: bool) -> (p: RequestPlan)
    ensures
        p == plan_request_spec(*endpoint, static_found, route_found),
{
    match endpoint {
        Endpoint::Other => if static_found {
            RequestPlan::StaticFile
        } else if route_found {
            RequestPlan::Page
        } else {
            RequestPlan::NotFound
        },
        _ => RequestPlan::Builtin,
    }
}

/// The kinds of answer a component or a middleware gives.
pub enum ReplyKind {
    Html,
    Json,
    Redirect,
    View,
    Sse,
    Raw,
}

/// An HTTP reply: its status, its headers in order, and its body text
/// (`None` where the answer's bytes are sent as they are).
pub struct Reply {
    pub status: u16,
    pub headers: Vec<(String, String)>,
    pub body: Option<String>,
}

/// The header list of one pair.
pub open spec fn one_header(name: Seq<char>, value: Seq<char>) -> Seq<(Seq<char>, Seq<char>)> {
    seq![(name, value)]
}

/// The reply for an answer of `kind` with `status`. `text` is the HTML or
/// event-stream body, the JSON text, the redirect's location, or the raw
/// bytes' content type. A component's HTML gets the client script; a
/// middleware's answer is passed on only as HTML, JSON or a redirect, and
/// otherwise as a plain `OK`.
pub open spec fn reply_spec(kind: ReplyKind, status: u16, text: Seq<char>, from_middleware: bool) -> (
    u16,
    Seq<(Seq<char>, Seq<char>)>,
    Option<Seq<char>>,
) {
    match kind {
        ReplyKind::Html => (
            status,
            one_header("Content-Type"@, "text/html; charset=utf-8"@),
            Some(
                if from_middleware {
                    text
                } else {
                    with_turbo_spec(text)
                },
            ),
        ),
        ReplyKind::Json => (status, one_header("Content-Type"@, "application/json"@), Some(text)),
        ReplyKind::Redirect => (status, one_header("Location"@, text), Some("Redirecting to "@ + text)),
        ReplyKind::Sse => if from_middleware {
            (200, Seq::empty(), Some("OK"@))
        } else {
            (
                status,
                seq![
                    ("Content-Type"@, "text/event-stream"@),
                    ("Cache-Control"@, "no-cache"@),
                    ("Connection"@, "keep-alive"@),
                ],
                Some(text),
            )
        },
        ReplyKind::Raw => if from_middleware {
            (200, Seq::empty(), Some("OK"@))
        } else {
            (status, one_header("Content-Type"@, text), None)
        },
        ReplyKind::View => (200, Seq::empty(), Some("OK"@)),
    }
}

fn header_pair(name: &str, value: &str) -> (r: (String, String))
    ensures
        r.0@ == name@,
        r.1@ == value@,
{
    (name.to_string(), value.to_string())
}

/// Builds the reply for an answer (see [`reply_spec`]).
pub fn http_reply(kind: ReplyKind, status: u16, text: &str, from_middleware: bool) -> (r: Reply)
    ensures
        r.status == reply_spec(kind, status, text@, from_middleware).0,
        crate::router::pair_views(r.headers@) == reply_spec(kind, status, text@, from_middleware).1,
        crate::router::opt_view(r.body) == reply_spec(kind, status, text@, from_middleware).2,
{
    let mut headers: Vec<(String, String)> = Vec::new();
    let ok = Reply { status: 200, headers: Vec::new(), body: Some("OK".to_string()) };
    let r = match kind {
        ReplyKind::Html => {
            headers.push(header_pair("Content-Type", "text/html; charset=utf-8"));
            let body = if from_middleware {
                text.to_string()
            } else {
                inject_turbo(text)
            };
            Reply { status, headers, body: Some(body) }
        },
        ReplyKind::Json => {
            headers.push(header_pair("Content-Type", "application/json"));
            Reply { status, headers, body: Some(text.to_string()) }
        },
        ReplyKind::Redirect => {
            headers.push(header_pair("Location", text));
            Reply { status, headers, body: Some(redirect_body(text)) }
        },
        ReplyKind::Sse => if from_middleware {
            ok
        } else {
            headers.push(header_pair("Content-Type", "text/event-stream"));
            headers.push(header_pair("Cache-Control", "no-cache"));
            headers.push(header_pair("Connection", "keep-alive"));
            Reply { status, headers, body: Some(text.to_string()) }
        },
        ReplyKind::Raw => if from_middleware {
            ok
        } else {
            headers.push(header_pair("Content-Type", text));
            Reply { status, headers, body: None }
        },
        ReplyKind::View => ok,
    };
    proof {
        let want = reply_spec(kind, status, text@, from_middleware).1;
        assert(crate::router::pair_views(r.headers@) =~= want);
    }
    r
}

/// The health endpoint's reply.
pub fn health_body() -> (r: &'static str)
    ensures
        r@ == "{\"status\":\"healthy\",\"version\":\"6.0.0\",\"engine\":\"Titanium (Ti22) Omniverse\",\"sqlite\":\"WAL\",\"cache\":true,\"queue\":true,\"pubsub\":true,\"vector\":true,\"media\":true}"@,
{
    "{\"status\":\"healthy\",\"version\":\"6.0.0\",\"engine\":\"Titanium (Ti22) Omniverse\",\"sqlite\":\"WAL\",\"cache\":true,\"queue\":true,\"pubsub\":true,\"vector\":true,\"media\":true}"
}

/// The live-reload endpoint's reply.
pub open spec fn live_body_spec(mtime: u64, change_type: Seq<char>, file: Seq<char>) -> Seq<char> {
    "{\"mtime\":"@ + nat_decimal(mtime as nat) + ",\"change_type\":\""@ + change_type + "\",\"file\":\""@
        + file + "\",\"version\":\"6.0.0\"}"@
}

/// The live-reload endpoint's reply.
pub fn live_body(mtime: u64, change_type: &str, file: &str) -> (r: String)
    ensures
        r@ == live_body_spec(mtime, change_type@, file@),
{
    let mut out: Vec<char> = Vec::new();
    push_str(&mut out, "{\"mtime\":");
    push_decimal(&mut out, mtime);
    push_str(&mut out, ",\"change_type\":\"");
    push_str(&mut out, change_type);
    push_str(&mut out, "\",\"file\":\"");
    push_str(&mut out, file);
    push_str(&mut out, "\",\"version\":\"6.0.0\"}");
    string_of(&out)
}

/// Whether a studio statement reads rather than writes: once trimmed and
/// upper-cased it starts with `SELECT`, `PRAGMA` or `EXPLAIN`.
pub open spec fn is_read_statement(sql: Seq<char>) -> bool {
    let u = uppercase(trim_spec(sql));
    has_prefix(u, "SELECT"@) || has_prefix(u, "PRAGMA"@) || has_prefix(u, "EXPLAIN"@)
}

/// The string member `key` of a JSON object, where `body` parses as JSON
/// (by `serde_json`) and that member is a string.
pub uninterp spec fn json_str_member(body: Seq<u8>, key: Seq<char>) -> Option<Seq<char>>;

/// Parses `body` with `serde_json::from_slice::<serde_json::Value>` and takes
/// the member `key` through `serde_json::Value`'s indexing and `as_str`.
/// What it finds is named, not stated.
#[verifier::external_body]
fn json_str_member_of(body: &[u8], key: &str) -> (r: Option<String>)
    ensures
        match r {
            Some(s) => json_str_member(body@, key@) == Some(s@),
            None => json_str_member(body@, key@) is None,
        },
{
    match serde_json::from_slice::<serde_json::Value>(body) {
        Ok(v) => v[key].as_str().map(String::from),
        Err(_) => None,
    }
}

/// The statement that the Studio's SQL runner is asked to run: the string
/// member `sql` of the JSON request body, empty where the body is not JSON
/// or has no such string.
pub fn studio_query_sql(body: &[u8]) -> (r: String)
    ensures
        r@ == match json_str_member(body@, "sql"@) {
            Some(s) => s,
            None => Seq::<char>::empty(),
        },
{
    match json_str_member_of(body, "sql") {
        Some(s) => s,
        None => String::new(),
    }
}

/// Whether a studio statement reads rather than writes.
pub fn is_select_statement(sql: &str) -> (b: bool)
    ensures
        b == is_read_statement(sql@),
{
    let raw = chars_of(sql);
    let t = string_of(&trim_chars(&raw));
    let u = chars_of(crate::text::to_upper(t.as_str()).as_str());
    starts_with(&u, &chars_of("SELECT")) || starts_with(&u, &chars_of("PRAGMA")) || starts_with(
        &u,
        &chars_of("EXPLAIN"),
    )
}

/// `s` without its leading `/` characters.
pub open spec fn trim_leading_slashes(s: Seq<char>) -> Seq<char>
    decreases s.len(),
{
    if s.len() > 0 && s[0] == '/' {
        trim_leading_slashes(s.skip(1))
    } else {
        s
    }
}

/// The file under the public directory that a path may name: none for a
/// path with `..` in it or with nothing after its leading slashes.
pub open spec fn static_file_spec(public_dir: Seq<char>, path: Seq<char>) -> Option<Seq<char>> {
    let rel = trim_leading_slashes(path);
    if contains_seq(path, ".."@) || rel.len() == 0 {
        None
    } else {
        Some(path_join(public_dir, rel))
    }
}

/// The file under the public directory that a path may name.
pub fn static_file_path(public_dir: &str, path: &str) -> (r: Option<String>)
    ensures
        crate::router::opt_view(r) == static_file_spec(public_dir@, path@),
{
    let p = chars_of(path);
    if contains(&p, &chars_of("..")) {
        return None;
    }
    let mut i: usize = 0;
    assert(p@.skip(0) =~= p@);
    while i < p.len() && p[i] == '/'
        invariant
            i <= p.len(),
            trim_leading_slashes(p@.skip(i as int)) == trim_leading_slashes(path@),
            p@ == path@,
        decreases p.len() - i,
    {
        assert(p@.skip(i as int).skip(1) =~= p@.skip(i + 1));
        i = i + 1;
    }
    assert(trim_leading_slashes(p@.skip(i as int)) == p@.skip(i as int));
    if i == p.len() {
        return None;
    }
    let rel = string_of(&crate::text::slice(&p, i, p.len()));
    assert(rel@ =~= p@.skip(i as int));
    Some(join_path(public_dir, rel.as_str()))
}

/// The page for a path that no route matches.
pub open spec fn not_found_spec(path: Seq<char>) -> Seq<char> {
    "<!DOCTYPE html>\n<html><head><title>404 Not Found - Titanium</title></head>\n<body style=\"font-family:system-ui;background:#090d16;color:#f8fafc;display:grid;place-content:center;height:90vh;text-align:center;\">\n  <h1 style=\"font-size:4rem;margin:0;color:#38bdf8;\">404</h1>\n  <p style=\"font-size:1.25rem;color:#94a3b8;\">Page not found: <code>"@
        + path + "</code></p>\n  <a href=\"/\" style=\"color:#38bdf8;text-decoration:none;\">\u{2190} Return Home</a>\n</body></html>"@
}

/// The page for a path that no route matches.
pub fn not_found_page(path: &str) -> (r: String)
    ensures
        r@ == not_found_spec(path@),
{
    let mut out: Vec<char> = Vec::new();
    push_str(&mut out, "<!DOCTYPE html>\n<html><head><title>404 Not Found - Titanium</title></head>\n<body style=\"font-family:system-ui;background:#090d16;color:#f8fafc;display:grid;place-content:center;height:90vh;text-align:center;\">\n  <h1 style=\"font-size:4rem;margin:0;color:#38bdf8;\">404</h1>\n  <p style=\"font-size:1.25rem;color:#94a3b8;\">Page not found: <code>");
    push_str(&mut out, path);
    push_str(&mut out, "</code></p>\n  <a href=\"/\" style=\"color:#38bdf8;text-decoration:none;\">\u{2190} Return Home</a>\n</body></html>");
    string_of(&out)
}

/// The page for a component that failed.
pub open spec fn error_page_spec(component: Seq<char>, message: Seq<char>) -> Seq<char> {
    "<!DOCTYPE html>\n<html>\n<head>\n  <title>Runtime Error - Titanium Engine</title>\n  <style>\n    body { background: #090d16; color: #f8fafc; font-family: system-ui, sans-serif; padding: 40px; margin: 0; }\n    .err-card { background: #0f172a; border: 1px solid #ef4444; border-radius: 12px; padding: 24px; max-width: 800px; margin: 40px auto; box-shadow: 0 10px 30px rgba(239,68,68,0.2); }\n    h1 { color: #ef4444; margin-top: 0; font-size: 20px; display: flex; align-items: center; gap: 8px; }\n    pre { background: #050811; padding: 16px; border-radius: 8px; overflow-x: auto; font-family: monospace; color: #fca5a5; font-size: 14px; line-height: 1.5; }\n    .badge { background: rgba(239,68,68,0.2); color: #f87171; padding: 4px 8px; border-radius: 4px; font-size: 12px; font-weight: bold; }\n  </style>\n</head>\n<body>\n  <div class=\"err-card\">\n    <div style=\"display:flex; justify-content:space-between; align-items:center;\">\n      <h1><span>\u{26a0}\u{fe0f}</span> Titanium Runtime Exception</h1>\n      <span class=\"badge\">500 Internal Error</span>\n    </div>\n    <p style=\"color:#94a3b8; font-size:14px;\">An exception occurred while evaluating component: <code>"@
        + component + "</code></p>\n    <pre><code>"@ + message
        + "</code></pre>\n  </div>\n</body>\n</html>"@
}

/// The page for a component that failed.
pub fn error_page(component: &str, message: &str) -> (r: String)
    ensures
        r@ == error_page_spec(component@, message@),
{
    let mut out: Vec<char> = Vec::new();
    push_str(&mut out, "<!DOCTYPE html>\n<html>\n<head>\n  <title>Runtime Error - Titanium Engine</title>\n  <style>\n    body { background: #090d16; color: #f8fafc; font-family: system-ui, sans-serif; padding: 40px; margin: 0; }\n    .err-card { background: #0f172a; border: 1px solid #ef4444; border-radius: 12px; padding: 24px; max-width: 800px; margin: 40px auto; box-shadow: 0 10px 30px rgba(239,68,68,0.2); }\n    h1 { color: #ef4444; margin-top: 0; font-size: 20px; display: flex; align-items: center; gap: 8px; }\n    pre { background: #050811; padding: 16px; border-radius: 8px; overflow-x: auto; font-family: monospace; color: #fca5a5; font-size: 14px; line-height: 1.5; }\n    .badge { background: rgba(239,68,68,0.2); color: #f87171; padding: 4px 8px; border-radius: 4px; font-size: 12px; font-weight: bold; }\n  </style>\n</head>\n<body>\n  <div class=\"err-card\">\n    <div style=\"display:flex; justify-content:space-between; align-items:center;\">\n      <h1><span>\u{26a0}\u{fe0f}</span> Titanium Runtime Exception</h1>\n      <span class=\"badge\">500 Internal Error</span>\n    </div>\n    <p style=\"color:#94a3b8; font-size:14px;\">An exception occurred while evaluating component: <code>");
    push_str(&mut out, component);
    push_str(&mut out, "</code></p>\n    <pre><code>");
    push_str(&mut out, message);
    push_str(&mut out, "</code></pre>\n  </div>\n</body>\n</html>");
    string_of(&out)
}

/// An HTML page with the client script: put before each `</body>`, or at
/// the end where there is none.
pub open spec fn with_turbo_spec(body: Seq<char>) -> Seq<char> {
    if contains_seq(body, "</body>"@) {
        replace_spec(body, "</body>"@, TURBO_CLIENT_SCRIPT@ + "\n</body>"@)
    } else {
        body + TURBO_CLIENT_SCRIPT@
    }
}

/// Adds the client script to an HTML page.
pub fn inject_turbo(body: &str) -> (r: String)
    ensures
        r@ == with_turbo_spec(body@),
{
    let b = chars_of(body);
    let close = chars_of("</body>");
    proof {
        reveal_strlit("</body>");
    }
    if contains(&b, &close) {
        let mut rep = chars_of(TURBO_CLIENT_SCRIPT);
        push_str(&mut rep, "\n</body>");
        string_of(&replace_all(&b, &close, &rep))
    } else {
        let mut out = b;
        push_str(&mut out, TURBO_CLIENT_SCRIPT);
        string_of(&out)
    }
}

/// The body of a redirect reply.
pub fn redirect_body(location: &str) -> (r: String)
    ensures
        r@ == "Redirecting to "@ + location@,
{
    crate::text::concat_str("Redirecting to ", location)
}

/// The `Set-Cookie` value that starts a session.
pub fn session_cookie(sid: &str) -> (r: String)
    ensures
        r@ == "titanium_session="@ + sid@ + "; Path=/; HttpOnly; SameSite=Lax"@,
{
    let mut out: Vec<char> = Vec::new();
    push_str(&mut out, "titanium_session=");
    push_str(&mut out, sid);
    push_str(&mut out, "; Path=/; HttpOnly; SameSite=Lax");
    string_of(&out)
}

/// A new session id: the lowercase hex of the nanoseconds since the epoch.
pub fn new_session_id(nanos: u128) -> (r: String)
    ensures
        r@ == nat_hex(nanos as nat),
{
    let mut out: Vec<char> = Vec::new();
    push_hex(&mut out, nanos);
    string_of(&out)
}

/// The name and value of each cookie that `cookie::Cookie::split_parse`
/// reads from a `Cookie` header, in order, skipping those it cannot parse.
pub uninterp spec fn parsed_cookies(header: Seq<char>) -> Seq<(Seq<char>, Seq<char>)>;

/// The views of a list of string pairs.
pub open spec fn pair_texts(v: Seq<(String, String)>) -> Seq<(Seq<char>, Seq<char>)> {
    Seq::new(v.len(), |i: int| (v[i].0@, v[i].1@))
}

/// Calls `cookie::Cookie::split_parse` on a `Cookie` header and keeps the
/// name and value of each cookie it parses. Claimed: the list is a function
/// of the header, named `parsed_cookies`.
#[verifier::external_body]
fn cookie_pairs(header: &str) -> (r: Vec<(String, String)>)
    ensures
        pair_texts(r@) == parsed_cookies(header@),
{
    let mut out = Vec::new();
    for c in cookie::Cookie::split_parse(header) {
        if let Ok(c) = c {
            out.push((c.name().to_string(), c.value().to_string()));
        }
    }
    out
}

/// Whether a cookie carries the session id.
pub open spec fn is_session_cookie(name: Seq<char>) -> bool {
    name == "titanium_session"@ || name == "carbon_session"@
}

/// The value of the first session cookie among the pairs.
pub open spec fn first_session(pairs: Seq<(Seq<char>, Seq<char>)>) -> Option<Seq<char>>
    decreases pairs.len(),
{
    if pairs.len() == 0 {
        None
    } else if is_session_cookie(pairs[0].0) {
        Some(pairs[0].1)
    } else {
        first_session(pairs.skip(1))
    }
}

/// The session id that the first session cookie among the pairs carries.
pub fn session_from_pairs(pairs: &Vec<(String, String)>) -> (r: Option<String>)
    ensures
        crate::router::opt_view(r) == first_session(pair_texts(pairs@)),
{
    let ghost all = pair_texts(pairs@);
    let mut i: usize = 0;
    assert(all.skip(0) =~= all);
    while i < pairs.len()
        invariant
            i <= pairs.len(),
            all == pair_texts(pairs@),
            first_session(all) == first_session(all.skip(i as int)),
        decreases pairs.len() - i,
    {
        let ghost rest = all.skip(i as int);
        assert(rest[0] == (pairs@[i as int].0@, pairs@[i as int].1@));
        if text_is(pairs[i].0.as_str(), "titanium_session") || text_is(pairs[i].0.as_str(), "carbon_session") {
            return Some(pairs[i].1.clone());
        }
        assert(rest.skip(1) =~= all.skip(i + 1));
        i = i + 1;
    }
    None
}

/// The session id in a request's `Cookie` header, if any.
pub fn session_id_from_cookies(cookie_header: Option<&str>) -> (r: Option<String>)
    ensures
        crate::router::opt_view(r) == match cookie_header {
            Some(h) => first_session(parsed_cookies(h@)),
            None => None,
        },
{
    match cookie_header {
        Some(h) => {
            let pairs = cookie_pairs(h);
            session_from_pairs(&pairs)
        },
        None => None,
    }
}

/// Whether two texts are equal ignoring ASCII case.
pub open spec fn eq_ignore_ascii_case(a: Seq<char>, b: Seq<char>) -> bool {
    a.len() == b.len() && forall|i: int| 0 <= i < a.len() ==> ascii_lower_char(#[trigger] a[i]) == ascii_lower_char(b[i])
}

fn lower_ascii(c: char) -> (r: char)
    ensures
        r == ascii_lower_char(c),
{
    if 'A' <= c && c <= 'Z' {
        ((c as u8) + 32) as char
    } else {
        c
    }
}

/// Whether two texts are equal ignoring ASCII case.
pub fn same_ignoring_ascii_case(a: &str, b: &str) -> (r: bool)
    ensures
        r == eq_ignore_ascii_case(a@, b@),
{
    let x = chars_of(a);
    let y = chars_of(b);
    if x.len() != y.len() {
        return false;
    }
    let mut i: usize = 0;
    while i < x.len()
        invariant
            i <= x.len(),
            x.len() == y.len(),
            x@ == a@,
            y@ == b@,
            forall|j: int| 0 <= j < i ==> ascii_lower_char(#[trigger] x@[j]) == ascii_lower_char(y@[j]),
        decreases x.len() - i,
    {
        if lower_ascii(x[i]) != lower_ascii(y[i]) {
            return false;
        }
        i = i + 1;
    }
    true
}

/// The value of the first header whose name is `name`, ignoring ASCII case.
pub open spec fn header_value(headers: Seq<(Seq<char>, Seq<char>)>, name: Seq<char>) -> Option<Seq<char>>
    decreases headers.len(),
{
    if headers.len() == 0 {
        None
    } else if eq_ignore_ascii_case(headers[0].0, name) {
        Some(headers[0].1)
    } else {
        header_value(headers.skip(1), name)
    }
}

/// The value of the first header called `name`, ignoring ASCII case.
pub fn find_header(headers: &Vec<(String, String)>, name: &str) -> (r: Option<String>)
    ensures
        crate::router::opt_view(r) == header_value(pair_texts(headers@), name@),
{
    let ghost all = pair_texts(headers@);
    let mut i: usize = 0;
    assert(all.skip(0) =~= all);
    while i < headers.len()
        invariant
            i <= headers.len(),
            all == pair_texts(headers@),
            header_value(all, name@) == header_value(all.skip(i as int), name@),
        decreases headers.len() - i,
    {
        let ghost rest = all.skip(i as int);
        assert(rest[0] == (headers@[i as int].0@, headers@[i as int].1@));
        if same_ignoring_ascii_case(headers[i].0.as_str(), name) {
            return Some(headers[i].1.clone());
        }
        assert(rest.skip(1) =~= all.skip(i + 1));
        i = i + 1;
    }
    None
}

/// Whether some header named `Content-Type` (any ASCII case) has
/// `application/json` in its value.
pub open spec fn json_body_spec(headers: Seq<(Seq<char>, Seq<char>)>) -> bool {
    exists|i: int|
        0 <= i < headers.len() && eq_ignore_ascii_case(#[trigger] headers[i].0, "Content-Type"@)
            && contains_seq(headers[i].1, "application/json"@)
}

/// Whether the request says that its body is JSON.
pub fn is_json_body(headers: &Vec<(String, String)>) -> (b: bool)
    ensures
        b == json_body_spec(pair_texts(headers@)),
{
    let ghost all = pair_texts(headers@);
    let needle = chars_of("application/json");
    let mut i: usize = 0;
    while i < headers.len()
        invariant
            i <= headers.len(),
            all == pair_texts(headers@),
            needle@ == "application/json"@,
            forall|j: int|
                0 <= j < i ==> !(eq_ignore_ascii_case(#[trigger] all[j].0, "Content-Type"@) && contains_seq(
                    all[j].1,
                    "application/json"@,
                )),
        decreases headers.len() - i,
    {
        assert(all[i as int] == (headers@[i as int].0@, headers@[i as int].1@));
        if same_ignoring_ascii_case(headers[i].0.as_str(), "Content-Type") && contains(
            &chars_of(headers[i].1.as_str()),
            &needle,
        ) {
            assert(eq_ignore_ascii_case(all[i as int].0, "Content-Type"@) && contains_seq(
                all[i as int].1,
                "application/json"@,
            ));
            return true;
        }
        i = i + 1;
    }
    false
}

/// Whether a request of this method carries a body: `POST`, `PUT` or
/// `PATCH`.
pub fn has_body(method: &str) -> (b: bool)
    ensures
        b == (method@ == "POST"@ || method@ == "PUT"@ || method@ == "PATCH"@),
{
    text_is(method, "POST") || text_is(method, "PUT") || text_is(method, "PATCH")
}

/// The middleware component: the first of `_middleware.titanium` and
/// `_middleware.ti` under the pages directory that exists, else
/// `_middleware.carbon`.
pub fn middleware_path(root_dir: &str, titanium_exists: bool, ti_exists: bool) -> (r: String)
    ensures
        r@ == path_join(
            path_join(root_dir@, "pages"@),
            if titanium_exists {
                "_middleware.titanium"@
            } else if ti_exists {
                "_middleware.ti"@
            } else {
                "_middleware.carbon"@
            },
        ),
{
    let pages = join_path(root_dir, "pages");
    if titanium_exists {
        join_path(pages.as_str(), "_middleware.titanium")
    } else if ti_exists {
        join_path(pages.as_str(), "_middleware.ti")
    } else {
        join_path(pages.as_str(), "_middleware.carbon")
    }
}

/// The number of request threads: `workers`, or 4 for 0.
pub fn worker_threads(workers: usize) -> (n: usize)
    ensures
        n == if workers == 0 {
            4
        } else {
            workers
        },
{
    if workers == 0 {
        4
    } else {
        workers
    }
}

/// The address to bind: host, `:` and port.
pub fn bind_address(host: &str, port: u16) -> (r: String)
    ensures
        r@ == host@ + ":"@ + nat_decimal(port as nat),
{
    let mut out: Vec<char> = Vec::new();
    push_str(&mut out, host);
    push_str(&mut out, ":");
    push_decimal(&mut out, port as u64);
    string_of(&out)
}

/// A file seen by the live-reload scan: its modification time in
/// milliseconds, its name and its extension.
pub struct FileStamp {
    pub mtime_ms: u64,
    pub file_name: String,
    pub extension: String,
}

/// What a change to a file of this extension asks the page to do: `css`
/// for style sheets, `dom` for components and HTML, `static` for the rest
/// (extensions compared ignoring ASCII case).
pub open spec fn change_type_of(ext: Seq<char>) -> Seq<char> {
    if eq_ignore_ascii_case(ext, "css"@) {
        "css"@
    } else if eq_ignore_ascii_case(ext, "titanium"@) || eq_ignore_ascii_case(ext, "ti"@)
        || eq_ignore_ascii_case(ext, "html"@) || eq_ignore_ascii_case(ext, "carbon"@) {
        "dom"@
    } else {
        "static"@
    }
}

/// The newest change among the files seen so far: time, kind and file
/// name, starting from time 0, kind `dom` and no name. A file counts only
/// when it is strictly newer than the newest so far.
pub open spec fn latest_change(files: Seq<(u64, Seq<char>, Seq<char>)>) -> (u64, Seq<char>, Seq<char>)
    decreases files.len(),
{
    if files.len() == 0 {
        (0, "dom"@, Seq::empty())
    } else {
        let prev = latest_change(files.drop_last());
        let f = files.last();
        if f.0 > prev.0 {
            (f.0, change_type_of(f.2), f.1)
        } else {
            prev
        }
    }
}

/// The stamps as values.
pub open spec fn stamp_views(v: Seq<FileStamp>) -> Seq<(u64, Seq<char>, Seq<char>)> {
    Seq::new(v.len(), |i: int| (v[i].mtime_ms, v[i].file_name@, v[i].extension@))
}

fn change_type_exec(ext: &str) -> (r: String)
    ensures
        r@ == change_type_of(ext@),
{
    if same_ignoring_ascii_case(ext, "css") {
        "css".to_owned()
    } else if same_ignoring_ascii_case(ext, "titanium") || same_ignoring_ascii_case(ext, "ti")
        || same_ignoring_ascii_case(ext, "html") || same_ignoring_ascii_case(ext, "carbon") {
        "dom".to_owned()
    } else {
        "static".to_owned()
    }
}

/// The newest change under the watched directories, and then the project's
/// `titanium.toml`: its time in milliseconds, its kind and the file's name.
/// `files` lists the files of `pages`, `public`, `layouts` and `components`
/// in the order the scan met them; `config_mtime` is the time of
/// `titanium.toml` where it could be read.
pub fn get_latest_mtime_details(files: &Vec<FileStamp>, config_mtime: Option<u64>) -> (r: (u64, String, String))
    ensures
        ({
            let l = latest_change(stamp_views(files@));
            match config_mtime {
                Some(m) => if m > l.0 {
                    r.0 == m && r.1@ == "dom"@ && r.2@ == "titanium.toml"@
                } else {
                    r.0 == l.0 && r.1@ == l.1 && r.2@ == l.2
                },
                None => r.0 == l.0 && r.1@ == l.1 && r.2@ == l.2,
            }
        }),
{
    let mut latest: u64 = 0;
    let mut change = "dom".to_owned();
    let mut file = String::new();
    let mut i: usize = 0;
    while i < files.len()
        invariant
            i <= files.len(),
            latest_change(stamp_views(files@).take(i as int)) == (latest, change@, file@),
        decreases files.len() - i,
    {
        assert(stamp_views(files@).take(i + 1).drop_last() =~= stamp_views(files@).take(i as int));
        let f = &files[i];
        if f.mtime_ms > latest {
            latest = f.mtime_ms;
            change = change_type_exec(f.extension.as_str());
            file = f.file_name.clone();
        }
        i = i + 1;
    }
    assert(stamp_views(files@).take(i as int) =~= stamp_views(files@));
    match config_mtime {
        Some(m) => {
            if m > latest {
                return (m, "dom".to_owned(), "titanium.toml".to_owned());
            }
        },
        None => {},
    }
    (latest, change, file)
}

} // verus!

verus! {

/// The `Content-Type` of a static file: the type `mime_guess` guesses from
/// its path, else `application/octet-stream`.
pub fn content_type_of(file_path: &str) -> (r: String)
    ensures
        r@ == crate::media::guessed_mime(file_path@),
{
    crate::media::mime_for_path(file_path)
}

} // verus!

verus! {

/// Leading slashes are all taken off.
pub proof fn lemma_trim_leading_slashes(s: Seq<char>)
    ensures
        trim_leading_slashes(s).len() > 0 ==> trim_leading_slashes(s)[0] != '/',
    decreases s.len(),
{
    if s.len() > 0 && s[0] == '/' {
        lemma_trim_leading_slashes(s.skip(1));
    }
}

/// Static files stay under the public directory: a path with `..` in it
/// names no file, and any file a path names is the public directory with
/// a relative path appended.
pub proof fn law_static_files_stay_public(public_dir: Seq<char>, path: Seq<char>)
    ensures
        contains_seq(path, ".."@) ==> static_file_spec(public_dir, path) is None,
        static_file_spec(public_dir, path) matches Some(f) ==> has_prefix(f, public_dir) && f.len()
            > public_dir.len(),
{
    lemma_trim_leading_slashes(path);
    let rel = trim_leading_slashes(path);
    if let Some(f) = static_file_spec(public_dir, path) {
        assert(rel.len() > 0 && rel[0] != '/');
        if public_dir.len() == 0 || public_dir.last() == '/' {
            assert(f == public_dir + rel);
        } else {
            assert(f == public_dir + seq!['/'] + rel);
        }
        assert(f.take(public_dir.len() as int) =~= public_dir);
    }
}

} // verus!

verus! {

/// The name and value pairs of a form-encoded request body, decoded.
pub fn form_body_pairs(body: &str) -> (r: Vec<(String, String)>)
    ensures
        pair_texts(r@) == crate::router::form_pairs(body@),
{
    let r = crate::router::form_decode(body);
    assert(pair_texts(r@) =~= crate::router::pair_views(r@));
    r
}

/// The path and the decoded query pairs of a URL, as `url::Url::parse`
/// reads it; `None` where it does not parse.
pub uninterp spec fn url_parts(url: Seq<char>) -> Option<(Seq<char>, Seq<(Seq<char>, Seq<char>)>)>;

/// The parts of a parsed URL as values.
pub open spec fn parts_view(r: Option<(String, Vec<(String, String)>)>) -> Option<(Seq<char>, Seq<(Seq<char>, Seq<char>)>)> {
    match r {
        Some((p, q)) => Some((p@, pair_texts(q@))),
        None => None,
    }
}

/// Calls `url::Url::parse` and, where it succeeds, takes the URL's path and
/// its query pairs. Claimed: the result is a function of the text, named
/// `url_parts`.
#[verifier::external_body]
fn parse_url(url: &str) -> (r: Option<(String, Vec<(String, String)>)>)
    ensures
        parts_view(r) == url_parts(url@),
{
    match url::Url::parse(url) {
        Ok(u) => Some((u.path().to_string(), u.query_pairs().map(|(k, v)| (k.into_owned(), v.into_owned())).collect())),
        Err(_) => None,
    }
}

/// The path and query pairs of a request target, read as a URL on
/// `http://localhost`; `None` where it does not parse (the server answers
/// 400 then).
pub fn parse_request_url(raw_url: &str) -> (r: Option<(String, Vec<(String, String)>)>)
    ensures
        parts_view(r) == url_parts("http://localhost"@ + raw_url@),
{
    let full = crate::text::concat_str("http://localhost", raw_url);
    parse_url(full.as_str())
}

} // verus!
