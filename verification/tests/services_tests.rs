use titanium::ai::{
    generate_stream_chunks, generation_error, local_smart_generate, ollama_reply, openai_reply,
    provider_route, rag_prompt, stream_messages, system_prompt, AiProvider, AiRoute, CODE_REPLY, GREETING_REPLY, RING_REPLY, WATCH_REPLY,
};
use titanium::cache::CacheStore;
use titanium::cluster::{count_healthy, ClusterMesh, ClusterNode};
use titanium::media::{djb2_hash, MediaUtils};
use titanium::pubsub::PubSubHub;
use titanium::queue::{worker_count, JobQueue};
use titanium::ratelimit::RateLimiter;
use titanium::value::Value;
use titanium::websocket::WebSocketHub;

#[test]
fn cache_ttl_and_delete() {
    let mut c: CacheStore<i64> = CacheStore::new();
    c.set("a", 1, Some(10), 100);
    c.set("b", 2, None, 100);
    c.set("z", 3, Some(0), 100);
    assert_eq!(c.get("a", 109), Some(&1));
    assert!(c.has("a", 100));
    assert_eq!(c.get("a", 110), None);
    assert!(!c.has("a", 110));
    assert_eq!(c.get("b", 1_000_000), Some(&2));
    assert_eq!(c.get("z", 1_000_000), Some(&3));
    assert!(c.delete("b"));
    assert!(!c.delete("b"));
    assert_eq!(c.get("b", 100), None);
    c.set("e", 4, Some(5), 0);
    assert_eq!(c.keys(3), vec!["z".to_string(), "e".to_string()]);
    assert_eq!(c.stats(5), 1);
    c.clear();
    assert_eq!(c.stats(0), 0);
}

#[test]
fn pubsub_history_is_newest_first_and_capped() {
    let mut hub: PubSubHub<i64> = PubSubHub::new();
    for i in 0..60 {
        hub.publish("news", i, 1000 + i as u64);
    }
    hub.publish("other", -1, 5);
    let h = hub.history("news", 3);
    let vals: Vec<i64> = h.iter().map(|m| m.message).collect();
    assert_eq!(vals, vec![59, 58, 57]);
    assert_eq!(h[0].timestamp, 1059);
    assert_eq!(h[0].topic, "news");
    assert_eq!(hub.history("news", 0).len(), 20);
    assert_eq!(hub.history("news", 1000).len(), 50);
    assert_eq!(hub.history("news", 1000).last().unwrap().message, 10);
    assert!(hub.history("missing", 5).is_empty());
    assert_eq!(hub.list_topics(), vec!["news".to_string(), "other".to_string()]);
}

#[test]
fn job_queue_counts() {
    assert_eq!(worker_count(0), 2);
    assert_eq!(worker_count(3), 3);
    let mut q: JobQueue<i64> = JobQueue::new();
    let j1 = q.dispatch("email", 1);
    let j2 = q.dispatch("sms", 2);
    assert_eq!(j1.name, "email");
    {
        let s = q.stats();
        assert_eq!(s.queued, 2);
        assert_eq!(s.completed, 0);
        assert!(s.recent.is_empty());
    }
    q.complete(j1);
    q.complete(j2);
    let s = q.stats();
    assert_eq!(s.queued, 0);
    assert_eq!(s.completed, 2);
    assert_eq!(s.recent.len(), 2);
    assert_eq!(s.recent[1].name, "sms");
    assert_eq!(s.recent[1].status, "completed");
    assert_eq!(s.recent[1].payload, 2);
}

#[test]
fn job_queue_keeps_twenty_recent() {
    let mut q: JobQueue<i64> = JobQueue::new();
    for i in 0..25 {
        let j = q.dispatch("job", i);
        q.complete(j);
    }
    let s = q.stats();
    assert_eq!(s.recent.len(), 20);
    assert_eq!(s.recent[0].payload, 5);
    assert_eq!(s.completed, 25);
}

#[test]
fn rate_limiter_window() {
    let mut rl = RateLimiter::new();
    let a = rl.rate_limit("ip", 2, 10, 100);
    assert!(a.allowed);
    assert_eq!(a.remaining, 1);
    assert_eq!(a.reset_in, 10);
    let b = rl.rate_limit("ip", 2, 10, 101);
    assert!(b.allowed);
    assert_eq!(b.remaining, 0);
    let c = rl.rate_limit("ip", 2, 10, 105);
    assert!(!c.allowed);
    assert_eq!(c.remaining, 0);
    assert_eq!(c.reset_in, 5);
    let d = rl.rate_limit("ip", 2, 10, 110);
    assert!(d.allowed);
    let other = rl.rate_limit("other", 0, 0, 110);
    assert!(other.allowed);
    assert_eq!(other.remaining, 59);
    assert_eq!(other.reset_in, 60);
}

fn node(id: &str, status: &str, last: u64) -> ClusterNode {
    ClusterNode {
        id: id.to_string(),
        address: format!("{}:1", id),
        role: "replica".to_string(),
        status: status.to_string(),
        latency_ms: 3,
        last_heartbeat: last,
        active_connections: 0,
    }
}

#[test]
fn cluster_health_and_syncs() {
    let mut mesh: ClusterMesh<i64> = ClusterMesh::new("me", "127.0.0.1:8080", true, 1000);
    assert_eq!(mesh.node_id(), "me");
    assert!(mesh.is_primary());
    mesh.set_primary(false);
    assert!(!mesh.is_primary());
    mesh.register_heartbeat(node("p1", "healthy", 990));
    mesh.register_heartbeat(node("p2", "healthy", 900));
    let list = mesh.nodes_list(1000);
    let st: Vec<(&str, &str)> = list.iter().map(|n| (n.id.as_str(), n.status.as_str())).collect();
    assert_eq!(st, vec![("me", "healthy"), ("p1", "healthy"), ("p2", "degraded")]);
    assert_eq!(list[0].role, "primary");
    assert_eq!(count_healthy(&list), 2);
    let later = mesh.nodes_list(5000);
    assert_eq!(later[0].status, "healthy");
    assert_eq!(later[1].status, "degraded");
    let stats = mesh.stats_map(1000);
    assert_eq!(stats.total_nodes, 3);
    assert_eq!(stats.healthy_nodes, 2);
    assert_eq!(stats.version, "10.0.0");
    for i in 0..105u64 {
        let m = mesh.record_sync("wal_sync", i as i64, 2000 + i);
        assert_eq!(m.id, format!("sync_{}", 2000 + i));
        assert_eq!(m.from_node, "me");
        assert_eq!(m.payload, i as i64);
    }
}

#[test]
fn websocket_bookkeeping() {
    let mut hub: WebSocketHub<u32, i64> = WebSocketHub::new();
    hub.subscribe("chat", 1);
    hub.subscribe("chat", 2);
    hub.subscribe("news", 3);
    hub.subscribe_global(9);
    assert_eq!(hub.client_count("chat"), 2);
    assert_eq!(hub.client_count("none"), 0);
    assert_eq!(hub.total_clients(), 4);
    assert_eq!(hub.channels_list(), vec!["chat".to_string(), "news".to_string()]);
    let m = hub.broadcast("chat", 7, 1234);
    assert_eq!(m.id, "ws_1234");
    assert_eq!(m.channel, "chat");
    assert_eq!(m.payload, 7);
    hub.retain_channel("chat", &vec![false, true]);
    assert_eq!(hub.channel_listeners("chat").unwrap(), &vec![2]);
    hub.retain_global(&vec![]);
    assert!(hub.global_listeners().is_empty());
    assert_eq!(hub.total_clients(), 2);
    for i in 0..120 {
        hub.broadcast("x", i, i as u64);
    }
    assert_eq!(hub.recent_history().len(), 100);
    assert_eq!(hub.recent_history()[0].payload, 20);
}

#[test]
fn identicon_svg() {
    assert_eq!(djb2_hash(""), 5381);
    assert_eq!(djb2_hash("a"), 5381 * 33 + 97);
    let h = djb2_hash("alice");
    let svg = MediaUtils::generate_identicon_svg("alice", 0);
    assert!(svg.starts_with("<svg xmlns=\"http://www.w3.org/2000/svg\" width=\"120\" height=\"120\" viewBox=\"0 0 120 120\""));
    assert!(svg.ends_with("</svg>"));
    let mut expected = 0;
    for k in 0..15u64 {
        if (h >> k) & 1 == 1 {
            expected += if k / 5 == 2 { 1 } else { 2 };
        }
    }
    assert_eq!(svg.matches("<rect ").count(), expected);
    let hue = h % 360;
    if expected > 0 {
        assert!(svg.contains(&format!("fill=\"hsl({}, 70%, 50%)\"", hue)));
        assert!(svg.contains("width=\"24\" height=\"24\""));
    }
    let big = MediaUtils::generate_identicon_svg("alice", 50);
    assert!(big.contains("width=\"50\""));
}

#[test]
fn file_info_and_data_uri() {
    let info = MediaUtils::file_info("/x/photo.PNG", Some(10));
    assert!(info.exists);
    assert_eq!(info.size_bytes, 10);
    assert_eq!(info.extension, "PNG");
    assert_eq!(info.mime, "image/png");
    let missing = MediaUtils::file_info("/x/none.txt", None);
    assert!(!missing.exists);
    assert_eq!(missing.size_bytes, 0);
    assert_eq!(missing.extension, "");
    assert_eq!(missing.mime, "");
    let noext = MediaUtils::file_info("/x/README", Some(1));
    assert_eq!(noext.extension, "");
    assert_eq!(noext.mime, "application/octet-stream");
    assert_eq!(MediaUtils::to_data_uri("a.txt", Some(&b"hi"[..])), "data:text/plain;base64,aGk=");
    assert_eq!(MediaUtils::to_data_uri("a.txt", None), "");
}

#[test]
fn ai_routing_and_local_replies() {
    match provider_route("openai", None, Some("k")) {
        AiRoute::OpenAi { url, token } => {
            assert_eq!(url, "https://api.openai.com/v1/chat/completions");
            assert_eq!(token, "k");
        },
        _ => panic!("expected openai"),
    }
    match provider_route("ollama", Some("http://h/api"), None) {
        AiRoute::Ollama { url } => assert_eq!(url, "http://h/api"),
        _ => panic!("expected ollama"),
    }
    assert!(matches!(provider_route("other", None, None), AiRoute::Local));
    let mut p = AiProvider::new(None, None);
    assert!(matches!(p.route(), AiRoute::Local));
    p.set_provider("custom", "m", Some("http://c".to_string()), None);
    match p.route() {
        AiRoute::OpenAi { url, token } => {
            assert_eq!(url, "http://c");
            assert_eq!(token, "");
        },
        _ => panic!("expected custom"),
    }
    assert_eq!(local_smart_generate("Show me a WATCH"), WATCH_REPLY);
    assert_eq!(local_smart_generate("wedding bands"), RING_REPLY);
    assert_eq!(local_smart_generate("Hello there"), GREETING_REPLY);
    assert_eq!(local_smart_generate("rhai snippet"), CODE_REPLY);
    assert_eq!(
        local_smart_generate("  xyz  "),
        "Titanium Singularity AI Agent Analysis:\nProcessed prompt: \"xyz\"\nContext: System operational. Real-time RAG semantic embeddings and SQLite store connected with zero latency."
    );
    assert_eq!(generation_error("boom"), "AI Generation Error: boom");
    assert_eq!(system_prompt(None), "You are a helpful AI assistant.");
    assert_eq!(system_prompt(Some("s")), "s");
}

#[test]
fn stream_chunks_cover_the_text() {
    let c = generate_stream_chunks("a b c d e");
    assert_eq!(c, vec!["a b ", "c ", "d e"]);
    assert_eq!(c.concat(), "a b c d e");
    assert_eq!(generate_stream_chunks("one"), vec!["one"]);
    assert_eq!(generate_stream_chunks(""), vec![""]);
    let t = "the quick brown fox jumps over the lazy dog";
    assert_eq!(generate_stream_chunks(t).concat(), t);
}

#[test]
fn rag_prompt_text() {
    assert_eq!(
        rag_prompt(&vec![], "q?"),
        "CONTEXT INFORMATION:\nNo direct vector documents found for this query.\n\nUSER QUESTION:\nq?\n\nAnswer the user's question accurately using only the provided context."
    );
    let p = rag_prompt(&vec!["- a".to_string(), "- b".to_string()], "why");
    assert!(p.starts_with("CONTEXT INFORMATION:\n- a\n- b\n\nUSER QUESTION:\nwhy"));
}

#[test]
fn openai_reply_takes_the_message_content() {
    let body = r#"{"choices":[{"message":{"role":"assistant","content":"hi there"}}]}"#;
    assert_eq!(openai_reply(body), Ok("hi there".to_string()));
}

#[test]
fn openai_reply_without_content() {
    assert_eq!(openai_reply(r#"{"choices":[]}"#), Ok("No content returned".to_string()));
    assert_eq!(
        openai_reply(r#"{"choices":[{"message":{"content":7}}]}"#),
        Ok("No content returned".to_string())
    );
}

#[test]
fn openai_reply_refuses_broken_json() {
    let r = openai_reply("{not json");
    match r {
        Err(e) => assert!(e.starts_with("Invalid JSON response: ") && e.len() > 23),
        Ok(_) => panic!("broken JSON accepted"),
    }
}

#[test]
fn ollama_reply_takes_the_response() {
    assert_eq!(ollama_reply(r#"{"model":"m","response":"hello"}"#), Ok("hello".to_string()));
    assert_eq!(ollama_reply(r#"{"model":"m"}"#), Ok(String::new()));
    match ollama_reply("") {
        Err(e) => assert!(e.starts_with("Invalid Ollama JSON: ")),
        Ok(_) => panic!("empty body accepted"),
    }
}

#[test]
fn job_queue_counters_over_an_interleaved_run() {
    let mut q: JobQueue<i64> = JobQueue::new();
    let a = q.dispatch("a", 1);
    let b = q.dispatch("b", 2);
    let c = q.dispatch("c", 3);
    q.complete(a);
    let d = q.dispatch("d", 4);
    q.complete(b);
    let s = q.stats();
    assert_eq!(s.queued, 2);
    assert_eq!(s.completed, 2);
    let names: Vec<&str> = s.recent.iter().map(|r| r.name.as_str()).collect();
    assert_eq!(names, vec!["a", "b"]);
    drop(s);
    q.complete(c);
    q.complete(d);
    let s = q.stats();
    assert_eq!(s.queued, 0);
    assert_eq!(s.completed, 4);
    assert_eq!(s.recent.len(), 4);
}

#[test]
fn rate_limiter_sliding_window_over_a_run() {
    let mut rl = RateLimiter::new();
    let mut stamps: Vec<u64> = Vec::new();
    for t in 1..=40u64 {
        if rl.rate_limit("k", 3, 10, t).allowed {
            stamps.push(t);
        }
        let o = rl.rate_limit("other", 1, 5, t);
        assert!(o.allowed == (t % 5 == 1));
    }
    for t in 0..=45u64 {
        let start = t.saturating_sub(10);
        let n = stamps.iter().filter(|&&s| s > start && s <= t).count();
        assert!(n <= 3);
    }
    assert_eq!(stamps, vec![1, 2, 3, 11, 12, 13, 21, 22, 23, 31, 32, 33]);
}

#[test]
fn rate_limiter_does_not_count_second_zero() {
    let mut rl = RateLimiter::new();
    assert!(rl.rate_limit("k", 1, 10, 0).allowed);
    assert!(rl.rate_limit("k", 1, 10, 0).allowed);
    assert!(rl.rate_limit("k", 1, 10, 1).allowed);
    assert!(!rl.rate_limit("k", 1, 10, 1).allowed);
}

#[test]
fn stream_messages_number_the_chunks() {
    let chunks = vec!["Hello ".to_string(), "world ".to_string()];
    let msgs = stream_messages(&chunks);
    assert_eq!(msgs.len(), 3);
    match &msgs[1] {
        Value::Object(e) => {
            assert_eq!(e.len(), 3);
            assert_eq!(e[0].0, "index");
            assert!(matches!(e[0].1, Value::Int(1)));
            assert_eq!(e[1].0, "token");
            assert!(matches!(&e[1].1, Value::Str(t) if t == "world "));
            assert_eq!(e[2].0, "type");
            assert!(matches!(&e[2].1, Value::Str(t) if t == "token"));
        }
        _ => panic!("not an object"),
    }
    match &msgs[2] {
        Value::Object(e) => {
            assert_eq!(e[0].0, "total_tokens");
            assert!(matches!(e[0].1, Value::Int(2)));
            assert!(matches!(&e[1].1, Value::Str(t) if t == "done"));
        }
        _ => panic!("not an object"),
    }
}

#[test]
fn data_uri_base64_groups() {
    assert_eq!(MediaUtils::to_data_uri("a.txt", Some(&b"Man"[..])), "data:text/plain;base64,TWFu");
    assert_eq!(MediaUtils::to_data_uri("a.txt", Some(&b"hello"[..])), "data:text/plain;base64,aGVsbG8=");
    assert_eq!(MediaUtils::to_data_uri("a.txt", Some(&[0xffu8, 0xfe, 0x3e][..])), "data:text/plain;base64,//4+");
}
