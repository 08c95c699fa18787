use titanium::cli::{parse_args, parse_port, resolve_server_config, studio_url, CliCommand};
use titanium::config::{ServerConfig as ServerTable, TitaniumConfig};
use titanium::server::{
    bind_address, classify_path, error_page, find_header, get_latest_mtime_details, has_body,
    health_body, inject_turbo, is_json_body, is_select_statement, live_body, middleware_path,
    new_session_id, not_found_page, redirect_body, same_ignoring_ascii_case, session_cookie,
    http_reply, plan_request, session_id_from_cookies, static_file_path, studio_query_sql, ReplyKind, RequestPlan, worker_threads, Endpoint, FileStamp,
    TURBO_CLIENT_SCRIPT,
};
use titanium::sql::{
    blob_text, delete_sql, find_sql, insert_sql, migration_order, row_int_of, search_pattern,
    search_sql, sort_names, update_sql, ModelDef, QueryBuilder,
};
use titanium::value::Value;

fn strings(v: &[&str]) -> Vec<String> {
    v.iter().map(|s| s.to_string()).collect()
}

#[test]
fn endpoints_by_path() {
    assert!(matches!(classify_path("/__titanium_live"), Endpoint::Live));
    assert!(matches!(classify_path("/__titanium_studio"), Endpoint::Studio));
    assert!(matches!(classify_path("/__titanium_studio/api/query"), Endpoint::StudioQuery));
    assert!(matches!(classify_path("/__titanium_studio/api/pubsub"), Endpoint::StudioPubsub));
    assert!(matches!(classify_path("/__titanium_health"), Endpoint::Health));
    assert!(matches!(classify_path("/__titanium_health/"), Endpoint::Other));
    assert!(matches!(classify_path("/"), Endpoint::Other));
    assert!(health_body().starts_with("{\"status\":\"healthy\""));
}

#[test]
fn live_reload_body() {
    assert_eq!(
        live_body(17, "css", "app.css"),
        "{\"mtime\":17,\"change_type\":\"css\",\"file\":\"app.css\",\"version\":\"6.0.0\"}"
    );
}

#[test]
fn studio_statements() {
    assert!(is_select_statement("  select * from t"));
    assert!(is_select_statement("PRAGMA table_info(x)"));
    assert!(is_select_statement("explain query plan select 1"));
    assert!(!is_select_statement("DELETE FROM t"));
    assert!(!is_select_statement(""));
}

#[test]
fn static_files() {
    assert_eq!(static_file_path("/r/public", "/app.css").as_deref(), Some("/r/public/app.css"));
    assert_eq!(static_file_path("/r/public", "//img/a.png").as_deref(), Some("/r/public/img/a.png"));
    assert_eq!(static_file_path("/r/public", "/"), None);
    assert_eq!(static_file_path("/r/public", "/../secret"), None);
    assert_eq!(static_file_path("/r/public", "/a..b"), None);
}

#[test]
fn pages_and_replies() {
    let nf = not_found_page("/x");
    assert!(nf.starts_with("<!DOCTYPE html>"));
    assert!(nf.contains("Page not found: <code>/x</code>"));
    assert!(nf.contains("← Return Home"));
    let err = error_page("pages/a.ti", "bad thing");
    assert!(err.contains("evaluating component: <code>pages/a.ti</code>"));
    assert!(err.contains("<pre><code>bad thing</code></pre>"));
    assert!(err.contains("⚠️"));
    assert_eq!(redirect_body("/home"), "Redirecting to /home");
    assert_eq!(session_cookie("abc"), "titanium_session=abc; Path=/; HttpOnly; SameSite=Lax");
    assert_eq!(new_session_id(255), "ff");
    assert_eq!(new_session_id(0), "0");
}

#[test]
fn turbo_script_injection() {
    let page = inject_turbo("<html><body>x</body></html>");
    assert_eq!(page, format!("<html><body>x{}\n</body></html>", TURBO_CLIENT_SCRIPT));
    let frag = inject_turbo("<p>x</p>");
    assert_eq!(frag, format!("<p>x</p>{}", TURBO_CLIENT_SCRIPT));
}

#[test]
fn session_cookie_lookup() {
    assert_eq!(session_id_from_cookies(Some("a=1; titanium_session=xyz; b=2")).as_deref(), Some("xyz"));
    assert_eq!(session_id_from_cookies(Some("carbon_session=old")).as_deref(), Some("old"));
    assert_eq!(session_id_from_cookies(Some("a=1")), None);
    assert_eq!(session_id_from_cookies(None), None);
}

#[test]
fn headers() {
    let h = vec![
        ("Host".to_string(), "x".to_string()),
        ("content-type".to_string(), "application/json; charset=utf-8".to_string()),
        ("COOKIE".to_string(), "a=b".to_string()),
    ];
    assert_eq!(find_header(&h, "Cookie").as_deref(), Some("a=b"));
    assert_eq!(find_header(&h, "Accept"), None);
    assert!(is_json_body(&h));
    assert!(!is_json_body(&vec![("Content-Type".to_string(), "text/plain".to_string())]));
    assert!(same_ignoring_ascii_case("Content-Type", "CONTENT-type"));
    assert!(!same_ignoring_ascii_case("a", "ab"));
    assert!(has_body("POST") && has_body("PUT") && has_body("PATCH"));
    assert!(!has_body("GET") && !has_body("post"));
}

#[test]
fn server_settings() {
    assert_eq!(middleware_path("/r", false, true), "/r/pages/_middleware.ti");
    assert_eq!(middleware_path("/r", true, true), "/r/pages/_middleware.titanium");
    assert_eq!(middleware_path("/r", false, false), "/r/pages/_middleware.carbon");
    assert_eq!(worker_threads(0), 4);
    assert_eq!(worker_threads(7), 7);
    assert_eq!(bind_address("127.0.0.1", 8080), "127.0.0.1:8080");
}

fn stamp(m: u64, name: &str, ext: &str) -> FileStamp {
    FileStamp { mtime_ms: m, file_name: name.to_string(), extension: ext.to_string() }
}

#[test]
fn latest_change_detection() {
    let files = vec![stamp(5, "a.ti", "ti"), stamp(9, "s.CSS", "CSS"), stamp(9, "b.png", "png"), stamp(3, "c", "")];
    let (m, kind, file) = get_latest_mtime_details(&files, None);
    assert_eq!((m, kind.as_str(), file.as_str()), (9, "css", "s.CSS"));
    let (m, kind, file) = get_latest_mtime_details(&files, Some(10));
    assert_eq!((m, kind.as_str(), file.as_str()), (10, "dom", "titanium.toml"));
    let (m, kind, file) = get_latest_mtime_details(&files, Some(9));
    assert_eq!((m, kind.as_str(), file.as_str()), (9, "css", "s.CSS"));
    let (m, kind, file) = get_latest_mtime_details(&vec![stamp(2, "x.bin", "bin")], None);
    assert_eq!((m, kind.as_str(), file.as_str()), (2, "static", "x.bin"));
    let (m, kind, file) = get_latest_mtime_details(&vec![], None);
    assert_eq!((m, kind.as_str(), file.as_str()), (0, "dom", ""));
}

#[test]
fn command_line() {
    let args = strings(&["titanium", "-S", "0.0.0.0:9000", "--db", "x.db", "dev", "site"]);
    let a = parse_args(&args, "/cwd", &vec![false; 7]);
    assert_eq!(a.host.as_deref(), Some("0.0.0.0"));
    assert_eq!(a.port, Some(9000));
    assert_eq!(a.db_path.as_deref(), Some("x.db"));
    assert_eq!(a.root_dir, "site");
    assert!(matches!(a.command, CliCommand::Serve));

    let a = parse_args(&strings(&["t", "-S", "localhost:abc"]), "/cwd", &vec![]);
    assert_eq!(a.host.as_deref(), Some("localhost"));
    assert_eq!(a.port, Some(8080));
    let a = parse_args(&strings(&["t", "-S", "myhost"]), "/cwd", &vec![]);
    assert_eq!(a.host.as_deref(), Some("myhost"));
    assert_eq!(a.port, None);

    let a = parse_args(&strings(&["t", "studio"]), "/cwd", &vec![]);
    assert!(matches!(a.command, CliCommand::Studio(ref t) if t == "/cwd"));
    let a = parse_args(&strings(&["t", "build", "proj"]), "/cwd", &vec![]);
    assert!(matches!(a.command, CliCommand::Build(ref t) if t == "proj"));
    let a = parse_args(&strings(&["t", "migrate", "--db"]), "/cwd", &vec![]);
    assert!(matches!(a.command, CliCommand::Migrate(ref t) if t == "/cwd"));
    let a = parse_args(&strings(&["t", "new", "--weird"]), "/cwd", &vec![]);
    assert!(matches!(a.command, CliCommand::New(ref t) if t == "--weird"));
    let a = parse_args(&strings(&["t", "-h"]), "/cwd", &vec![]);
    assert!(matches!(a.command, CliCommand::Help));
    let a = parse_args(&strings(&["t", "proj", "other"]), "/cwd", &vec![false, true, false]);
    assert_eq!(a.root_dir, "proj");
    let a = parse_args(&strings(&["t", "-d", "d1", "--unknown", "info"]), "/cwd", &vec![]);
    assert!(matches!(a.command, CliCommand::Info(ref t) if t == "d1"));
    assert_eq!(parse_port("65535"), 65535);
    assert_eq!(parse_port("65536"), 8080);
    assert_eq!(parse_port("+80"), 80);
}

#[test]
fn server_config_resolution() {
    let cfg = TitaniumConfig {
        server: Some(ServerTable { host: Some("h".to_string()), port: None, workers: Some(8) }),
        ..TitaniumConfig::default()
    };
    let c = resolve_server_config("/r", &None, None, &None, &cfg);
    assert_eq!(c.host, "h");
    assert_eq!(c.port, 8080);
    assert_eq!(c.db_path.as_deref(), Some("/r/.titanium/app.sqlite"));
    assert_eq!(c.workers, 8);
    assert_eq!(c.queue_workers, 2);
    let c = resolve_server_config("/r", &Some("a".to_string()), Some(1), &Some("d.db".to_string()), &cfg);
    assert_eq!((c.host.as_str(), c.port, c.db_path.as_deref()), ("a", 1, Some("d.db")));
    assert_eq!(studio_url("h", 80), "http://h:80/__titanium_studio");
}

#[test]
fn sql_statements() {
    assert_eq!(
        insert_sql("users", &strings(&["name", "email"])),
        Ok("INSERT INTO users (name, email) VALUES (?, ?)".to_string())
    );
    assert_eq!(insert_sql("users", &vec![]), Err("Cannot insert empty data map".to_string()));
    assert_eq!(
        update_sql("users", &strings(&["name"])),
        Ok("UPDATE users SET name = ? WHERE id = ?".to_string())
    );
    assert_eq!(update_sql("users", &vec![]), Err("Cannot update with empty data map".to_string()));
    assert_eq!(delete_sql("t"), "DELETE FROM t WHERE id = ?");
    assert_eq!(find_sql("t"), "SELECT * FROM t WHERE id = ? LIMIT 1");
    assert_eq!(
        search_sql("t", &strings(&["a", "b"])),
        "SELECT * FROM t WHERE a LIKE ? OR b LIKE ? ORDER BY id DESC LIMIT 50"
    );
    assert_eq!(search_sql("t", &vec![]), "SELECT * FROM t WHERE 1=1 ORDER BY id DESC LIMIT 50");
    assert_eq!(search_pattern("ab"), "%ab%");
    assert_eq!(blob_text(12), "<blob: 12 bytes>");
}

#[test]
fn query_builder_sql() {
    let mut q: QueryBuilder<i64> = QueryBuilder::new("posts");
    q.where_eq("author", 7);
    q.where_op("score", ">", 10);
    q.order_by_clause("id", "DESC");
    q.set_limit(5);
    q.set_offset(10);
    let (sql, params) = q.build_select_sql(false);
    assert_eq!(sql, "SELECT * FROM posts WHERE author = ? AND score > ? ORDER BY id DESC LIMIT 5 OFFSET 10");
    assert_eq!(params, vec![&7, &10]);
    let (first, _) = q.build_select_sql(true);
    assert_eq!(first, "SELECT * FROM posts WHERE author = ? AND score > ? ORDER BY id DESC LIMIT 1");
    assert_eq!(q.count_sql().0, "SELECT COUNT(*) as count FROM posts WHERE author = ? AND score > ?");
    assert_eq!(q.delete_sql().0, "DELETE FROM posts WHERE author = ? AND score > ?");
    let (u, ps) = q.update_sql(&strings(&["title", "body"])).unwrap();
    assert_eq!(u, "UPDATE posts SET title = ?, body = ? WHERE author = ? AND score > ?");
    assert_eq!(ps.len(), 2);
    assert!(q.update_sql(&vec![]).is_none());
    let plain: QueryBuilder<i64> = QueryBuilder::new("t");
    assert_eq!(plain.build_select_sql(false).0, "SELECT * FROM t");
    assert_eq!(plain.count_sql().0, "SELECT COUNT(*) as count FROM t");
}

#[test]
fn models() {
    let m = ModelDef::new("users");
    assert_eq!(m.all_sql(), "SELECT * FROM users ORDER BY id DESC");
    assert_eq!(m.find_sql(), "SELECT * FROM users WHERE id = ? LIMIT 1");
    assert_eq!(m.count_sql(), "SELECT COUNT(*) as count FROM users");
    let k = ModelDef::with_pk("items", "sku");
    assert_eq!(k.find_sql(), "SELECT * FROM items WHERE sku = ? LIMIT 1");
    let q: QueryBuilder<i64> = k.query_builder();
    assert_eq!(q.table, "items");
    let row = Value::Object(vec![("count".to_string(), Value::Int(3))]);
    assert_eq!(row_int_of(&row, "count"), 3);
    assert_eq!(row_int_of(&row, "changes"), 0);
    assert_eq!(row_int_of(&Value::Unit, "count"), 0);
    let text = Value::Object(vec![("count".to_string(), Value::Str("3".to_string()))]);
    assert_eq!(row_int_of(&text, "count"), 0);
}

#[test]
fn migrations_are_sql_files_in_order() {
    let names = strings(&["002_b.sql", "notes.txt", "001_a.sql", "010_c.SQL", ".sql", "003.sql.bak", "000.sql"]);
    assert_eq!(migration_order(&names), strings(&["000.sql", "001_a.sql", "002_b.sql"]));
    assert_eq!(sort_names(strings(&["b", "a", "ab", "B"])), strings(&["B", "a", "ab", "b"]));
}

#[test]
fn migration_error_text() {
    assert_eq!(titanium::sql::migration_error("001.sql", "near x"), "Migration error in 001.sql: near x");
}

#[test]
fn request_targets_and_form_bodies() {
    let (path, query) = titanium::server::parse_request_url("/a/b?x=1&y=two+words&z=%41").unwrap();
    assert_eq!(path, "/a/b");
    assert_eq!(
        query,
        vec![
            ("x".to_string(), "1".to_string()),
            ("y".to_string(), "two words".to_string()),
            ("z".to_string(), "A".to_string())
        ]
    );
    let (root, none) = titanium::server::parse_request_url("/").unwrap();
    assert_eq!(root, "/");
    assert!(none.is_empty());
    assert_eq!(
        titanium::server::form_body_pairs("name=Ann+Lee&email=a%40b.c&&flag"),
        vec![
            ("name".to_string(), "Ann Lee".to_string()),
            ("email".to_string(), "a@b.c".to_string()),
            ("flag".to_string(), "".to_string())
        ]
    );
}

#[test]
fn studio_query_takes_the_sql_member() {
    assert_eq!(studio_query_sql(br#"{"sql":"SELECT 1"}"#), "SELECT 1");
    assert_eq!(studio_query_sql(br#"{"sql":5}"#), "");
    assert_eq!(studio_query_sql(br#"{"query":"SELECT 1"}"#), "");
    assert_eq!(studio_query_sql(b"not json"), "");
    assert_eq!(studio_query_sql(b""), "");
}

#[test]
fn request_plan_order() {
    let live = classify_path("/__titanium_live");
    assert!(matches!(plan_request(&live, true, true), RequestPlan::Builtin));
    let other = classify_path("/about");
    assert!(matches!(plan_request(&other, true, true), RequestPlan::StaticFile));
    assert!(matches!(plan_request(&other, false, true), RequestPlan::Page));
    assert!(matches!(plan_request(&other, false, false), RequestPlan::NotFound));
}

fn hv(r: &titanium::server::Reply) -> Vec<(&str, &str)> {
    r.headers.iter().map(|(k, v)| (k.as_str(), v.as_str())).collect()
}

#[test]
fn http_reply_shapes() {
    let r = http_reply(ReplyKind::Html, 201, "<p>x</p>", false);
    assert_eq!(r.status, 201);
    assert_eq!(hv(&r), vec![("Content-Type", "text/html; charset=utf-8")]);
    assert_eq!(r.body.as_deref(), Some(format!("<p>x</p>{}", TURBO_CLIENT_SCRIPT).as_str()));
    let r = http_reply(ReplyKind::Html, 200, "<p>x</p>", true);
    assert_eq!(r.body.as_deref(), Some("<p>x</p>"));
    let r = http_reply(ReplyKind::Redirect, 302, "/login", true);
    assert_eq!(hv(&r), vec![("Location", "/login")]);
    assert_eq!(r.body.as_deref(), Some("Redirecting to /login"));
    let r = http_reply(ReplyKind::Json, 200, "{}", false);
    assert_eq!(hv(&r), vec![("Content-Type", "application/json")]);
    let r = http_reply(ReplyKind::Sse, 200, "data: a\n\n", false);
    assert_eq!(r.headers.len(), 3);
    assert_eq!(r.body.as_deref(), Some("data: a\n\n"));
    let r = http_reply(ReplyKind::Sse, 200, "data", true);
    assert_eq!((r.status, r.headers.len(), r.body.as_deref()), (200, 0, Some("OK")));
    let r = http_reply(ReplyKind::Raw, 200, "image/png", false);
    assert_eq!(hv(&r), vec![("Content-Type", "image/png")]);
    assert!(r.body.is_none());
    let r = http_reply(ReplyKind::View, 404, "", false);
    assert_eq!((r.status, r.body.as_deref()), (200, Some("OK")));
}
