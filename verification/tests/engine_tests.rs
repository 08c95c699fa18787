use titanium::engine::{
    array_chunk, array_group_by, array_pluck, clamp, crypto_hash, crypto_random_token, crypto_verify,
    find_view, json_validate, layout_candidates, page_action, sse_payload, PageAction, ScriptResult, layout_source, mask_string, parse_int, parse_titanium_file,
    redact, resolve_layout, run_validation, should_wrap_layout, sse_event, sse_stream, str_slug,
    view_candidates, SseEvent,
};
use titanium::value::Value;

fn s(x: &str) -> Value {
    Value::Str(x.to_string())
}

fn obj(pairs: &[(&str, Value)]) -> Vec<(String, Value)> {
    let mut v = Vec::new();
    for (k, val) in pairs {
        v.push((k.to_string(), clone_value(val)));
    }
    v
}

fn clone_value(v: &Value) -> Value {
    match v {
        Value::Unit => Value::Unit,
        Value::Bool(b) => Value::Bool(*b),
        Value::Int(i) => Value::Int(*i),
        Value::Char(c) => Value::Char(*c),
        Value::Str(x) => Value::Str(x.clone()),
        Value::Float { bits, text, debug } => Value::Float { bits: *bits, text: text.clone(), debug: debug.clone() },
        Value::Array(items) => Value::Array(items.iter().map(clone_value).collect()),
        Value::Object(e) => Value::Object(e.iter().map(|(k, x)| (k.clone(), clone_value(x))).collect()),
        Value::Other { text, debug } => Value::Other { text: text.clone(), debug: debug.clone() },
    }
}

#[test]
fn component_file_is_split_at_fences() {
    let (script, tmpl) = parse_titanium_file("  ---\nlet a = 1;\n---\n  <h1>Hi</h1>", false);
    assert_eq!(script.as_deref(), Some("let a = 1;"));
    assert_eq!(tmpl.as_deref(), Some("<h1>Hi</h1>"));

    let (script, tmpl) = parse_titanium_file("<p>plain</p>", false);
    assert!(script.is_none());
    assert_eq!(tmpl.as_deref(), Some("<p>plain</p>"));

    let (script, tmpl) = parse_titanium_file("---\nno closing", false);
    assert!(script.is_none());
    assert_eq!(tmpl.as_deref(), Some("---\nno closing"));

    let (script, tmpl) = parse_titanium_file("---x---y", true);
    assert_eq!(script.as_deref(), Some("---x---y"));
    assert!(tmpl.is_none());
}

#[test]
fn masking_keeps_the_tail() {
    assert_eq!(mask_string("1234567890", 4), "••••••7890");
    assert_eq!(mask_string("abc", 4), "abc");
    assert_eq!(mask_string("abcd", 0), "••••");
    assert_eq!(mask_string("", 2), "");
}

#[test]
fn layout_slots_and_wrapping() {
    assert_eq!(layout_source("<main><slot /></main>"), "<main>{{ content | safe }}</main>");
    assert_eq!(layout_source("<slot></slot>|<slot />"), "{{ content | safe }}|{{ content | safe }}");
    assert!(should_wrap_layout(&None, "<p>x</p>"));
    assert!(!should_wrap_layout(&Some("none".to_string()), "<p>x</p>"));
    assert!(!should_wrap_layout(&None, "<!DOCTYPE html><p>x</p>"));
    assert!(should_wrap_layout(&Some("admin".to_string()), "<p>x</p>"));
}

#[test]
fn layout_candidates_and_resolution() {
    let c = layout_candidates("/r", None);
    assert_eq!(
        c,
        vec![
            "/r/layouts/default.titanium",
            "/r/layouts/default.ti",
            "/r/layouts/default.html",
            "/r/layouts/default.carbon",
            "/r/pages/_layout_default.titanium",
            "/r/pages/_layout_default.ti",
            "/r/pages/_layout_default.carbon",
            "/r/pages/_layout.titanium",
            "/r/pages/_layout.ti",
            "/r/pages/_layout.carbon",
        ]
    );
    let c2 = layout_candidates("/r", Some("admin"));
    assert_eq!(c2[0], "/r/layouts/admin.titanium");
    assert_eq!(c2[4], "/r/pages/_layout_admin.titanium");
    let mut exists = vec![false; 10];
    assert_eq!(resolve_layout("/r", None, &exists), None);
    exists[8] = true;
    exists[9] = true;
    assert_eq!(resolve_layout("/r", None, &exists).as_deref(), Some("/r/pages/_layout.ti"));
    assert_eq!(resolve_layout("/r", None, &vec![true]).as_deref(), Some("/r/layouts/default.titanium"));
}

#[test]
fn view_lookup() {
    let c = view_candidates("/r", "shop/item.html.ti");
    assert_eq!(c[0], "/r/app/views/shop/item.html.html");
    assert_eq!(c[5], "/r/views/shop/item.html.ti");
    let c = view_candidates("/r", "home.html.html");
    assert_eq!(c[0], "/r/app/views/home.html");
    let mut exists = vec![false; 6];
    assert_eq!(find_view("/r", "home", &exists), Err("MVC View not found: home".to_string()));
    exists[4] = true;
    assert_eq!(find_view("/r", "home", &exists), Ok("/r/views/home.titanium".to_string()));
}

#[test]
fn validation_rules() {
    let data = obj(&[("name", s("")), ("email", s("ann@example")), ("bio", s("hello world"))]);
    let rules = obj(&[
        ("name", s("required")),
        ("email", s("required|email")),
        ("bio", s("min:3|max:5")),
        ("age", s("min:2")),
    ]);
    let r = run_validation(&data, &rules);
    assert!(!r.is_valid);
    assert_eq!(
        r.errors,
        vec![
            ("name".to_string(), "name is required".to_string()),
            ("email".to_string(), "email must be a valid email".to_string()),
            ("bio".to_string(), "bio must not exceed 5 characters".to_string()),
        ]
    );
    let ok = run_validation(&obj(&[("email", s("a@b.c"))]), &obj(&[("email", s(" required | email "))]));
    assert!(ok.is_valid);
    assert!(ok.errors.is_empty());
    let short = run_validation(&obj(&[("pw", s("ab"))]), &obj(&[("pw", s("min:3"))]));
    assert_eq!(short.errors[0].1, "pw must be at least 3 characters");
    let unit = run_validation(&obj(&[("x", Value::Unit)]), &obj(&[("x", s("required"))]));
    assert_eq!(unit.errors[0].1, "x is required");
}

#[test]
fn slugs() {
    assert_eq!(str_slug("Hello, World!"), "hello-world");
    assert_eq!(str_slug("  --A  b--"), "a-b");
    assert_eq!(str_slug(""), "");
    assert_eq!(str_slug("Ünïcode Straße"), "ünïcode-straße");
}

#[test]
fn server_sent_events() {
    assert_eq!(sse_event("tick", "1"), "event: tick\ndata: 1\n\n");
    let evs = vec![
        SseEvent { name: Some("a".to_string()), data: "x".to_string() },
        SseEvent { name: None, data: "y".to_string() },
    ];
    assert_eq!(sse_stream(&evs), "event: a\ndata: x\n\nevent: message\ndata: y\n\n");
}

#[test]
fn hashing_and_verification() {
    assert_eq!(crypto_hash("abc"), "ba7816bf8f01cfea414140de5dae2223b00361a396177a9cb410ff61f20015ad");
    let h = crypto_hash("secret");
    assert!(crypto_verify("secret", &h));
    assert!(!crypto_verify("Secret", &h));
    assert_eq!(h.len(), 64);
}

#[test]
fn random_tokens() {
    let t = crypto_random_token(16, 12345);
    assert_eq!(t.chars().count(), 16);
    assert!(t.chars().all(|c| c.is_ascii_alphanumeric()));
    assert_eq!(crypto_random_token(16, 12345), t);
    assert_eq!(crypto_random_token(0, 1).chars().count(), 32);
    assert_eq!(crypto_random_token(-3, 1).chars().count(), 32);
}

#[test]
fn json_and_numbers() {
    assert!(json_validate("{\"a\": [1, 2]}"));
    assert!(!json_validate("{a: 1}"));
    assert_eq!(clamp(5, 1, 3), 3);
    assert_eq!(clamp(-5, 1, 3), 1);
    assert_eq!(clamp(2, 1, 3), 2);
    assert_eq!(parse_int(" 42 "), 42);
    assert_eq!(parse_int("-7"), -7);
    assert_eq!(parse_int("+8"), 8);
    assert_eq!(parse_int("abc"), 0);
    assert_eq!(parse_int("-"), 0);
    assert_eq!(parse_int(""), 0);
    assert_eq!(parse_int("9223372036854775807"), i64::MAX);
    assert_eq!(parse_int("-9223372036854775808"), i64::MIN);
    assert_eq!(parse_int("9223372036854775808"), 0);
    assert_eq!(parse_int("12a"), 0);
}

#[test]
fn array_helpers() {
    let items = vec![
        Value::Object(obj(&[("k", s("a")), ("n", Value::Int(1))])),
        Value::Int(3),
        Value::Object(obj(&[("k", s("b"))])),
        Value::Object(obj(&[("k", s("a")), ("n", Value::Int(2))])),
    ];
    let plucked = array_pluck(items.iter().map(clone_value).collect(), "n");
    assert_eq!(plucked.len(), 2);
    assert!(matches!(plucked[0], Value::Int(1)));
    assert!(matches!(plucked[1], Value::Int(2)));

    let chunks = array_chunk((1..=5).map(Value::Int).collect(), 2);
    let sizes: Vec<usize> = chunks.iter().map(|c| c.len()).collect();
    assert_eq!(sizes, vec![2, 2, 1]);
    let ones = array_chunk((1..=3).map(Value::Int).collect(), 0);
    assert_eq!(ones.len(), 3);
    assert!(array_chunk(Vec::new(), 3).is_empty());

    let groups = array_group_by(items, "k");
    let keys: Vec<&str> = groups.iter().map(|(k, _)| k.as_str()).collect();
    assert_eq!(keys, vec!["a", "b", "unknown"]);
    assert_eq!(groups[0].1.len(), 2);
    assert_eq!(groups[1].1.len(), 1);
    assert_eq!(groups[2].1.len(), 1);
}

#[test]
fn redaction() {
    let m = obj(&[("password", s("hunter2")), ("user", s("ann")), ("token", Value::Int(5))]);
    let r = redact(m, &vec![s("password"), s("token"), s("absent")]);
    assert_eq!(r.len(), 3);
    assert!(matches!(&r[0].1, Value::Str(x) if x == "********"));
    assert!(matches!(&r[1].1, Value::Str(x) if x == "ann"));
    assert!(matches!(&r[2].1, Value::Str(x) if x == "********"));
    assert_eq!(r[2].0, "token");
}

#[test]
fn parse_int_reads_back_printed_integers() {
    for n in [0i64, 1, -1, 9, 10, -10, 123456789, i64::MAX, i64::MIN, i64::MIN + 1] {
        assert_eq!(parse_int(&n.to_string()), n);
    }
}

#[test]
fn slugs_are_well_formed() {
    for text in ["--a--b--", "Hello,,  World", "!!!", "x", "Ça va? Très bien!"] {
        let slug = str_slug(text);
        assert!(!slug.starts_with('-'));
        assert!(!slug.ends_with('-'));
        assert!(!slug.contains("--"));
    }
    assert_eq!(str_slug("!!!"), "");
}

#[test]
fn char_values_print_like_the_runtime() {
    assert_eq!(Value::Char('a').debug_text(), "'a'");
    assert_eq!(Value::Char('\n').debug_text(), "'\\n'");
    assert_eq!(Value::Char('a').to_text(), "a");
    assert_eq!(Value::Str("a\"b".to_string()).debug_text(), "\"a\\\"b\"");
}

#[test]
fn page_action_order() {
    assert!(matches!(page_action(ScriptResult::ViewResponse, false, true), PageAction::RenderView));
    assert!(matches!(page_action(ScriptResult::Response, true, true), PageAction::SendResponse));
    assert!(matches!(page_action(ScriptResult::Value, true, true), PageAction::SendJson));
    assert!(matches!(page_action(ScriptResult::Unit, true, true), PageAction::RenderTemplate));
    assert!(matches!(page_action(ScriptResult::Value, false, true), PageAction::RenderTemplate));
    assert!(matches!(page_action(ScriptResult::Value, false, false), PageAction::EmptyPage));
    assert!(matches!(page_action(ScriptResult::NoScript, true, false), PageAction::EmptyPage));
}

#[test]
fn sse_payload_forms() {
    assert_eq!(sse_payload(&s("hi"), Some("\"hi\"".to_string())), "hi");
    assert_eq!(sse_payload(&Value::Int(5), Some("5".to_string())), "5");
    assert_eq!(sse_payload(&Value::Bool(true), None), "true");
    assert_eq!(sse_payload(&Value::Unit, Some("null".to_string())), "null");
}

#[test]
fn slug_of_ascii_text() {
    assert_eq!(str_slug("Hello, World! 2024"), "hello-world-2024");
    assert_eq!(str_slug("--A  b--"), "a-b");
    assert_eq!(str_slug("!!!"), "");
}
