use titanium::config::{DatabaseConfig, QueueConfig, ServerConfig, TitaniumConfig};
use titanium::router::{decode_param, is_page_path, Router, Segment};
use titanium::session::{md5_simple, SessionStore};
use titanium::value::Value;

fn pages(files: &[&str]) -> Vec<(String, String)> {
    files
        .iter()
        .map(|f| (f.to_string(), format!("/site/pages/{}", f)))
        .collect()
}

fn scanned() -> Router {
    let mut r = Router::new();
    r.scan_dir(pages(&[
        "index.titanium",
        "about.ti",
        "users/[id].titanium",
        "api/users.titanium",
        "blog/index.html",
        "notes.md",
        "users/[id]/posts/[post].carbon",
    ]));
    r
}

#[test]
fn scan_dir_builds_routes_from_page_files() {
    let r = scanned();
    let patterns: Vec<&str> = r.routes.iter().map(|x| x.pattern.as_str()).collect();
    assert_eq!(patterns, vec!["/api/users", "/about", "/blog", "/", "/users/[id]/posts/[post]", "/users/[id]"]);
    let api = &r.routes[0];
    assert!(api.is_api);
    assert!(!api.is_dynamic);
    assert_eq!(api.file_path, "/site/pages/api/users.titanium");
    let user = &r.routes[5];
    assert!(user.is_dynamic);
    assert_eq!(user.segments, vec![Segment::Static("users".to_string()), Segment::Param("id".to_string())]);
}

#[test]
fn page_extensions_are_recognised() {
    assert!(is_page_path("a.titanium"));
    assert!(is_page_path("dir/b.cbn"));
    assert!(is_page_path("x.co"));
    assert!(!is_page_path("notes.md"));
    assert!(!is_page_path(".titanium"));
    assert!(!is_page_path("noext"));
}

#[test]
fn match_path_static_and_dynamic() {
    let r = scanned();
    let (route, params) = r.match_path("/users/42").unwrap();
    assert_eq!(route.pattern, "/users/[id]");
    assert_eq!(params, vec![("id".to_string(), "42".to_string())]);

    let (route, params) = r.match_path("/users/7/posts/hello").unwrap();
    assert_eq!(route.pattern, "/users/[id]/posts/[post]");
    assert_eq!(
        params,
        vec![("id".to_string(), "7".to_string()), ("post".to_string(), "hello".to_string())]
    );

    let (route, params) = r.match_path("/").unwrap();
    assert_eq!(route.pattern, "/");
    assert!(params.is_empty());

    assert!(r.match_path("/nope").is_none());
    assert!(r.match_path("/users").is_none());
}

#[test]
fn match_path_ignores_trailing_slash() {
    let r = scanned();
    assert_eq!(r.match_path("/about/").unwrap().0.pattern, "/about");
    assert_eq!(r.match_path("/about").unwrap().0.pattern, "/about");
    assert_eq!(r.match_path("/blog/").unwrap().0.pattern, "/blog");
}

#[test]
fn static_route_wins_over_dynamic() {
    let mut r = Router::new();
    r.scan_dir(pages(&["users/[id].ti", "users/new.ti"]));
    assert_eq!(r.match_path("/users/new").unwrap().0.pattern, "/users/new");
    assert_eq!(r.match_path("/users/5").unwrap().0.pattern, "/users/[id]");
}

#[test]
fn params_are_percent_decoded() {
    let r = scanned();
    let (_, params) = r.match_path("/users/a%20b").unwrap();
    assert_eq!(params[0].1, "a b");
    assert_eq!(decode_param("x+y"), "x y");
    assert_eq!(decode_param("plain"), "plain");
    assert_eq!(decode_param(""), "");
}

#[test]
fn config_getters_and_defaults() {
    let empty = TitaniumConfig::empty();
    assert_eq!(empty.host("127.0.0.1"), "127.0.0.1");
    assert_eq!(empty.port(8080), 8080);
    assert_eq!(empty.workers(4), 4);
    assert_eq!(empty.queue_workers(2), 2);
    assert_eq!(empty.db_path("/p"), "/p/.titanium/app.sqlite");

    let cfg = TitaniumConfig {
        server: Some(ServerConfig { host: Some("0.0.0.0".to_string()), port: Some(9000), workers: None }),
        database: Some(DatabaseConfig { path: Some("data/x.db".to_string()), wal_mode: None }),
        cache: None,
        queue: Some(QueueConfig { worker_threads: Some(6) }),
    };
    assert_eq!(cfg.host("127.0.0.1"), "0.0.0.0");
    assert_eq!(cfg.port(8080), 9000);
    assert_eq!(cfg.workers(4), 4);
    assert_eq!(cfg.queue_workers(2), 6);
    assert_eq!(cfg.db_path("/p/"), "/p/data/x.db");
    assert_eq!(cfg.db_path("/p"), "/p/data/x.db");
    let abs = TitaniumConfig {
        database: Some(DatabaseConfig { path: Some("/abs/x.db".to_string()), wal_mode: None }),
        ..TitaniumConfig::default()
    };
    assert_eq!(abs.db_path("/p"), "/abs/x.db");
}

#[test]
fn config_files_and_first_parsed() {
    assert_eq!(
        TitaniumConfig::config_files("/proj"),
        vec!["/proj/titanium.toml", "/proj/cobalt.toml", "/proj/carbon.toml"]
    );
    let second = TitaniumConfig {
        server: Some(ServerConfig { host: None, port: Some(1234), workers: None }),
        ..TitaniumConfig::default()
    };
    let c = TitaniumConfig::load_from_dir(vec![None, Some(second), Some(TitaniumConfig::default())]);
    assert_eq!(c.port(8080), 1234);
    let none = TitaniumConfig::load_from_dir(vec![None, None, None]);
    assert!(none.server.is_none() && none.database.is_none());
}

#[test]
fn session_get_after_set_and_isolation() {
    let mut store = SessionStore::new();
    let a = store.get_session("a");
    let b = store.get_session("b");
    a.set(&mut store, "user", Value::Str("ann".to_string()));
    assert!(matches!(a.get(&store, "user"), Some(Value::Str(s)) if s == "ann"));
    assert!(b.get(&store, "user").is_none());
    a.set(&mut store, "user", Value::Int(5));
    assert!(matches!(a.get(&store, "user"), Some(Value::Int(5))));
    a.remove(&mut store, "user");
    assert!(a.get(&store, "user").is_none());
    assert_eq!(a.id(), "a");
}

#[test]
fn flash_is_read_once() {
    let mut store = SessionStore::new();
    let s = store.get_session("s1");
    s.flash_set(&mut store, "msg", Value::Str("saved".to_string()));
    assert!(matches!(s.flash_get(&mut store, "msg"), Some(Value::Str(m)) if m == "saved"));
    assert!(s.flash_get(&mut store, "msg").is_none());
    assert!(s.get(&store, "msg").is_none());
}

fn fnv(input: &str) -> u128 {
    let mut h: u128 = 0xcbf29ce484222325;
    for b in input.bytes() {
        h ^= b as u128;
        h = h.wrapping_mul(0x100000001b3);
    }
    h
}

#[test]
fn csrf_token_is_derived_and_stable() {
    let mut store = SessionStore::new();
    let s = store.get_session("abc");
    let t1 = s.csrf_token(&mut store);
    assert_eq!(t1, format!("{:x}", fnv("titanium_csrf_abc")));
    let t2 = s.csrf_token(&mut store);
    assert_eq!(t1, t2);
    assert!(matches!(s.get(&store, "_csrf"), Some(Value::Str(x)) if *x == t1));
    let other = store.get_session("other");
    other.set(&mut store, "_csrf", Value::Str("given".to_string()));
    assert_eq!(other.csrf_token(&mut store), "given");
}

#[test]
fn fnv_hash_matches_reference() {
    assert_eq!(md5_simple(""), 0xcbf29ce484222325);
    assert_eq!(md5_simple("hello"), fnv("hello"));
    assert_eq!(md5_simple("héllo"), fnv("héllo"));
}

#[test]
fn session_to_map_lists_each_key_once() {
    let mut store = SessionStore::new();
    let s = store.get_session("m");
    assert!(s.to_map(&store).is_empty());
    s.set(&mut store, "a", Value::Int(1));
    s.set(&mut store, "b", Value::Bool(true));
    s.set(&mut store, "a", Value::Int(2));
    let m = s.to_map(&store);
    assert_eq!(m.len(), 2);
    assert!(m.iter().any(|(k, v)| k.as_str() == "a" && matches!(v, Value::Int(2))));
    assert!(m.iter().any(|(k, v)| k.as_str() == "b" && matches!(v, Value::Bool(true))));
}

#[test]
fn value_texts() {
    assert_eq!(Value::Str("hi".to_string()).to_text(), "hi");
    assert_eq!(Value::Str("hi".to_string()).debug_text(), "\"hi\"");
    assert_eq!(Value::Int(-12).to_text(), "-12");
    assert_eq!(Value::Bool(false).to_text(), "false");
    assert_eq!(Value::Unit.to_text(), "");
    assert_eq!(Value::Unit.debug_text(), "()");
    let arr = Value::Array(vec![Value::Int(1), Value::Str("x".to_string())]);
    assert_eq!(arr.to_text(), "[1, \"x\"]");
    assert!(Value::Unit.is_unit());
    assert!(!Value::Int(0).is_unit());
}

#[test]
fn every_page_matches_its_own_pattern() {
    let r = scanned();
    for route in &r.routes {
        let (found, _) = r.match_path(&route.pattern).unwrap();
        assert!(found.segments.len() == route.segments.len());
    }
    let (found, params) = r.match_path("/users/[id]").unwrap();
    assert_eq!(found.pattern, "/users/[id]");
    assert_eq!(params, vec![("id".to_string(), "[id]".to_string())]);
}

#[test]
fn page_path_extension_as_std_finds_it() {
    // On Unix-like systems a backslash is part of the file name.
    assert!(is_page_path("x\\.titanium"));
    assert!(is_page_path("docs/v1.2/page.html"));
    assert!(!is_page_path("dir.titanium/readme"));
}

#[test]
fn match_path_sees_only_segments() {
    let r = scanned();
    assert_eq!(r.match_path("//about").unwrap().0.pattern, "/about");
    assert_eq!(r.match_path("/users//42/").unwrap().1, r.match_path("/users/42").unwrap().1);
    assert_eq!(r.match_path("//").unwrap().0.pattern, "/");
}
