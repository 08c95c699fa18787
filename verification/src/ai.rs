//! The AI assistant's own logic: which provider a request goes to, the
//! built-in local replies, how a reply is cut into streamed chunks, and the
//! retrieval-augmented prompt. The HTTP calls are the caller's work.

use vstd::prelude::*;
use crate::text::{
    chars_of, contains, contains_seq, join_spec, lowercase, push_all, push_str, split_all,
    split_pieces, string_of, to_lower, trim_chars, trim_spec, views_of, concat_str,
};
use crate::engine::json_valid;
use crate::value::Value;

verus! {

/// One message of a chat.
pub struct AiChatMessage {
    /// `system`, `user` or `assistant`.
    pub role: String,
    pub content: String,
}

/// The provider settings of the assistant.
pub struct AiProvider {
    /// `local`, `ollama`, `openai` or `custom`.
    pub provider: String,
    pub model: String,
    pub api_key: Option<String>,
    pub endpoint: Option<String>,
}

/// Where a generation request goes.
pub enum AiRoute {
    /// An OpenAI-compatible chat endpoint, with its bearer token.
    OpenAi { url: String, token: String },
    /// An Ollama generate endpoint.
    Ollama { url: String },
    /// The built-in local replies.
    Local,
}

/// The default OpenAI endpoint.
pub const OPENAI_URL: &'static str = "https://api.openai.com/v1/chat/completions";

/// The default Ollama endpoint.
pub const OLLAMA_URL: &'static str = "http://127.0.0.1:11434/api/generate";

/// The reply about watches.
pub const WATCH_REPLY: &'static str = "I highly recommend our **Titanium Stealth Chrono Watch** ($349.99). Crafted from Grade 5 aerospace-grade titanium alloy with sapphire crystal face and 200M water resistance. It is currently in stock with free express shipping!";

/// The reply about rings and jewelry.
pub const RING_REPLY: &'static str = "Check out the **Ceramic & Titanium Hybrid Ring** ($189.00). It combines mirror-polished titanium edges with an ultra-durable matte ceramic inner core — lightweight and hypoallergenic.";

/// The reply about products and prices.
pub const CATALOG_REPLY: &'static str = "Based on the Titanium catalog analysis: Our top recommendation is the **Titanium Stealth Chrono Watch** ($349.99) followed by the **Ceramic Hybrid Ring** ($189.00) and **Minimalist EDC Bolt-Action Pen** ($89.00). All items are ready for dispatch!";

/// The reply about orders.
pub const ORDER_REPLY: &'static str = "I verified the Titanium live order ledger. Your recent transaction is currently in **Processing** and scheduled for carrier dispatch within 24 hours. You will receive live status notifications.";

/// The reply to a greeting.
pub const GREETING_REPLY: &'static str = "Greetings! I am the **Titanium Singularity AI Agent**, embedded directly in the Ti22 native web runtime. I can assist with product search, inventory intelligence, semantic RAG queries, and live store workflows.";

/// The reply about code.
pub const CODE_REPLY: &'static str = "In Titanium v9.0.0, you can invoke real-time AI and streaming directly in Rhai:\n```rust\nlet response = ai_generate(\"Recommend a product\");\nws_broadcast(\"ai_feed\", #{ answer: response });\n```";

/// The system prompt of a retrieval-augmented answer.
pub const RAG_SYSTEM: &'static str = "You are the Titanium Singularity AI Assistant. Ground your answers strictly in the retrieved knowledge base.";

/// The system prompt that OpenAI-compatible requests use when none is given.
pub const DEFAULT_SYSTEM: &'static str = "You are a helpful AI assistant.";

/// The text of an optional string.
pub open spec fn opt_text(o: Option<&str>) -> Option<Seq<char>> {
    match o {
        Some(s) => Some(s@),
        None => None,
    }
}

/// The route as values: `(kind, url, token)` with kind 0 for OpenAI, 1 for
/// Ollama, 2 for local.
pub open spec fn route_spec(provider: Seq<char>, endpoint: Option<Seq<char>>, api_key: Option<Seq<char>>) -> (
    nat,
    Seq<char>,
    Seq<char>,
) {
    if provider == "openai"@ || provider == "custom"@ {
        (
            0,
            match endpoint {
                Some(e) => e,
                None => OPENAI_URL@,
            },
            match api_key {
                Some(k) => k,
                None => Seq::empty(),
            },
        )
    } else if provider == "ollama"@ {
        (
            1,
            match endpoint {
                Some(e) => e,
                None => OLLAMA_URL@,
            },
            Seq::empty(),
        )
    } else {
        (2, Seq::empty(), Seq::empty())
    }
}

/// The route as values.
pub open spec fn route_view(r: AiRoute) -> (nat, Seq<char>, Seq<char>) {
    match r {
        AiRoute::OpenAi { url, token } => (0, url@, token@),
        AiRoute::Ollama { url } => (1, url@, Seq::empty()),
        AiRoute::Local => (2, Seq::empty(), Seq::empty()),
    }
}

fn text_is(s: &str, lit: &str) -> (b: bool)
    ensures
        b == (s@ == lit@),
{
    let a = chars_of(s);
    crate::text::str_eq_chars(lit, &a)
}

/// Where a request goes: `openai` and `custom` to an OpenAI-compatible
/// endpoint (the given one, else OpenAI's) with the key as token (else
/// none), `ollama` to an Ollama endpoint (the given one, else the local
/// default), anything else to the built-in replies.
pub fn provider_route(provider: &str, endpoint: Option<&str>, api_key: Option<&str>) -> (r: AiRoute)
    ensures
        route_view(r) == route_spec(provider@, opt_text(endpoint), opt_text(api_key)),
{
    if text_is(provider, "openai") || text_is(provider, "custom") {
        let url = match endpoint {
            Some(e) => e.to_owned(),
            None => OPENAI_URL.to_owned(),
        };
        let token = match api_key {
            Some(k) => k.to_owned(),
            None => String::new(),
        };
        AiRoute::OpenAi { url, token }
    } else if text_is(provider, "ollama") {
        let url = match endpoint {
            Some(e) => e.to_owned(),
            None => OLLAMA_URL.to_owned(),
        };
        AiRoute::Ollama { url }
    } else {
        AiRoute::Local
    }
}

impl AiProvider {
    /// The default settings: the local provider and model, with the key and
    /// endpoint found in the environment.
    pub fn new(api_key: Option<String>, endpoint: Option<String>) -> (p: Self)
        ensures
            p.provider@ == "local"@,
            p.model@ == "titanium-singularity-1b"@,
            p.api_key == api_key,
            p.endpoint == endpoint,
    {
        AiProvider { provider: "local".to_owned(), model: "titanium-singularity-1b".to_owned(), api_key, endpoint }
    }

    /// Switches provider and model, with their endpoint and key.
    pub fn set_provider(&mut self, provider: &str, model: &str, endpoint: Option<String>, api_key: Option<String>)
        ensures
            final(self).provider@ == provider@,
            final(self).model@ == model@,
            final(self).endpoint == endpoint,
            final(self).api_key == api_key,
    {
        self.provider = provider.to_owned();
        self.model = model.to_owned();
        self.endpoint = endpoint;
        self.api_key = api_key;
    }

    /// Where this provider's requests go.
    pub fn route(&self) -> (r: AiRoute)
        ensures
            route_view(r) == route_spec(
                self.provider@,
                crate::router::opt_view(self.endpoint),
                crate::router::opt_view(self.api_key),
            ),
    {
        let endpoint: Option<&str> = match &self.endpoint {
            Some(e) => Some(e.as_str()),
            None => None,
        };
        let api_key: Option<&str> = match &self.api_key {
            Some(k) => Some(k.as_str()),
            None => None,
        };
        provider_route(self.provider.as_str(), endpoint, api_key)
    }
}

/// The built-in reply to a prompt: chosen by words in its lowercase form,
/// else a summary quoting the trimmed prompt.
pub open spec fn local_reply(prompt: Seq<char>) -> Seq<char> {
    let p = lowercase(prompt);
    if contains_seq(p, "watch"@) || contains_seq(p, "chrono"@) {
        WATCH_REPLY@
    } else if contains_seq(p, "ring"@) || contains_seq(p, "wedding"@) || contains_seq(p, "jewelry"@) {
        RING_REPLY@
    } else if contains_seq(p, "product"@) || contains_seq(p, "recommend"@) || contains_seq(p, "buy"@)
        || contains_seq(p, "price"@) || contains_seq(p, "gear"@) {
        CATALOG_REPLY@
    } else if contains_seq(p, "status"@) || contains_seq(p, "order"@) || contains_seq(p, "track"@) {
        ORDER_REPLY@
    } else if contains_seq(p, "hello"@) || contains_seq(p, "hi"@) || contains_seq(p, "hey"@)
        || contains_seq(p, "who are you"@) {
        GREETING_REPLY@
    } else if contains_seq(p, "code"@) || contains_seq(p, "rhai"@) || contains_seq(p, "titanium"@) {
        CODE_REPLY@
    } else {
        "Titanium Singularity AI Agent Analysis:\nProcessed prompt: \""@ + trim_spec(prompt)
            + "\"\nContext: System operational. Real-time RAG semantic embeddings and SQLite store connected with zero latency."@
    }
}

fn has(p: &Vec<char>, word: &str) -> (b: bool)
    ensures
        b == contains_seq(p@, word@),
{
    contains(p, &chars_of(word))
}

/// The built-in reply to a prompt.
pub fn local_smart_generate(prompt: &str) -> (r: String)
    ensures
        r@ == local_reply(prompt@),
{
    let p = chars_of(to_lower(prompt).as_str());
    if has(&p, "watch") || has(&p, "chrono") {
        WATCH_REPLY.to_owned()
    } else if has(&p, "ring") || has(&p, "wedding") || has(&p, "jewelry") {
        RING_REPLY.to_owned()
    } else if has(&p, "product") || has(&p, "recommend") || has(&p, "buy") || has(&p, "price") || has(&p, "gear") {
        CATALOG_REPLY.to_owned()
    } else if has(&p, "status") || has(&p, "order") || has(&p, "track") {
        ORDER_REPLY.to_owned()
    } else if has(&p, "hello") || has(&p, "hi") || has(&p, "hey") || has(&p, "who are you") {
        GREETING_REPLY.to_owned()
    } else if has(&p, "code") || has(&p, "rhai") || has(&p, "titanium") {
        CODE_REPLY.to_owned()
    } else {
        let mut out: Vec<char> = Vec::new();
        push_str(&mut out, "Titanium Singularity AI Agent Analysis:\nProcessed prompt: \"");
        let t = trim_chars(&chars_of(prompt));
        push_all(&mut out, &t);
        push_str(&mut out, "\"\nContext: System operational. Real-time RAG semantic embeddings and SQLite store connected with zero latency.");
        string_of(&out)
    }
}

/// The text streamed in place of a reply that failed.
pub fn generation_error(e: &str) -> (r: String)
    ensures
        r@ == "AI Generation Error: "@ + e@,
{
    crate::text::concat_str("AI Generation Error: ", e)
}

/// The chunks of the words from index `i` on: two words at each index that
/// is a multiple of three, else one, joined by spaces, each followed by a
/// space except the last.
pub open spec fn chunk_tokens(words: Seq<Seq<char>>, i: nat) -> Seq<Seq<char>>
    decreases words.len() - i,
{
    if i >= words.len() {
        Seq::empty()
    } else {
        let size: nat = if i % 3 == 0 {
            2
        } else {
            1
        };
        let end: nat = if i + size < words.len() {
            i + size
        } else {
            words.len()
        };
        let slice = join_spec(words.subrange(i as int, end as int), " "@);
        let token = if end == words.len() {
            slice
        } else {
            slice + " "@
        };
        seq![token] + chunk_tokens(words, end)
    }
}

/// The chunks in which a reply is streamed: its space-separated words cut
/// as [`chunk_tokens`] says, or the whole text where that yields none.
pub open spec fn stream_chunks_spec(text: Seq<char>) -> Seq<Seq<char>> {
    let c = chunk_tokens(split_pieces(text, ' '), 0);
    if c.len() == 0 {
        seq![text]
    } else {
        c
    }
}

/// Cuts a reply into the chunks in which it is streamed.
pub fn generate_stream_chunks(full_text: &str) -> (r: Vec<String>)
    ensures
        crate::text::string_views(r@) == stream_chunks_spec(full_text@),
{
    let text = chars_of(full_text);
    let words = split_all(&text, ' ');
    let ghost ws = views_of(words@);
    let mut out: Vec<String> = Vec::new();
    let mut i: usize = 0;
    assert(crate::text::string_views(out@) =~= Seq::<Seq<char>>::empty());
    while i < words.len()
        invariant
            i <= words.len(),
            ws == views_of(words@),
            ws == split_pieces(full_text@, ' '),
            crate::text::string_views(out@) + chunk_tokens(ws, i as nat) == chunk_tokens(ws, 0),
        decreases words.len() - i,
    {
        let size: usize = if i % 3 == 0 {
            2
        } else {
            1
        };
        let end: usize = if i + size < words.len() {
            i + size
        } else {
            words.len()
        };
        let mut slice: Vec<char> = Vec::new();
        push_all(&mut slice, &words[i]);
        proof {
            reveal_with_fuel(join_spec, 2);
        }
        if end - i == 2 {
            push_str(&mut slice, " ");
            push_all(&mut slice, &words[i + 1]);
            assert(ws.subrange(i as int, end as int) =~= seq![ws[i as int], ws[i + 1]]);
            assert(seq![ws[i as int], ws[i + 1]].drop_last() =~= seq![ws[i as int]]);
        } else {
            assert(ws.subrange(i as int, end as int) =~= seq![ws[i as int]]);
        }
        assert(slice@ == join_spec(ws.subrange(i as int, end as int), " "@));
        if end != words.len() {
            push_str(&mut slice, " ");
        }
        let ghost before = crate::text::string_views(out@);
        let token = string_of(&slice);
        let ghost tv = token@;
        out.push(token);
        assert(crate::text::string_views(out@) =~= before.push(tv));
        assert(chunk_tokens(ws, i as nat) == seq![tv] + chunk_tokens(ws, end as nat));
        assert(before + chunk_tokens(ws, i as nat) =~= before.push(tv) + chunk_tokens(ws, end as nat));
        i = end;
    }
    assert(chunk_tokens(ws, i as nat) =~= Seq::<Seq<char>>::empty());
    assert(crate::text::string_views(out@) =~= chunk_tokens(ws, 0));
    if out.len() == 0 {
        out.push(full_text.to_owned());
        assert(crate::text::string_views(out@) =~= seq![full_text@]);
    }
    out
}

/// The prompt of a retrieval-augmented answer: the context lines (or a
/// note that none was found) and the question.
pub open spec fn rag_prompt_spec(snippets: Seq<Seq<char>>, query: Seq<char>) -> Seq<char> {
    let context = if snippets.len() == 0 {
        "No direct vector documents found for this query."@
    } else {
        join_spec(snippets, "\n"@)
    };
    "CONTEXT INFORMATION:\n"@ + context + "\n\nUSER QUESTION:\n"@ + query
        + "\n\nAnswer the user's question accurately using only the provided context."@
}

/// The prompt of a retrieval-augmented answer, from one context line per
/// retrieved document.
pub fn rag_prompt(snippets: &Vec<String>, query: &str) -> (r: String)
    ensures
        r@ == rag_prompt_spec(crate::text::string_views(snippets@), query@),
{
    let mut out: Vec<char> = Vec::new();
    push_str(&mut out, "CONTEXT INFORMATION:\n");
    if snippets.len() == 0 {
        push_str(&mut out, "No direct vector documents found for this query.");
    } else {
        let mut pieces: Vec<Vec<char>> = Vec::new();
        let mut i: usize = 0;
        while i < snippets.len()
            invariant
                i <= snippets.len(),
                views_of(pieces@) == crate::text::string_views(snippets@).take(i as int),
            decreases snippets.len() - i,
        {
            let p = chars_of(snippets[i].as_str());
            let ghost before = pieces@;
            let ghost pv = p@;
            pieces.push(p);
            assert(views_of(pieces@) =~= views_of(before).push(pv));
            i = i + 1;
            assert(views_of(pieces@) =~= crate::text::string_views(snippets@).take(i as int));
        }
        assert(crate::text::string_views(snippets@).take(i as int) =~= crate::text::string_views(snippets@));
        let joined = crate::text::join_chars(&pieces, &chars_of("\n"));
        push_all(&mut out, &joined);
    }
    push_str(&mut out, "\n\nUSER QUESTION:\n");
    push_str(&mut out, query);
    push_str(&mut out, "\n\nAnswer the user's question accurately using only the provided context.");
    string_of(&out)
}

/// The system prompt of an OpenAI-compatible request.
pub fn system_prompt(system: Option<&str>) -> (r: &str)
    ensures
        r@ == match system {
            Some(s) => s@,
            None => DEFAULT_SYSTEM@,
        },
{
    match system {
        Some(s) => s,
        None => DEFAULT_SYSTEM,
    }
}

} // verus!

verus! {

/// Joining two non-empty lists of pieces is joining each and putting the
/// separator between.
pub proof fn lemma_join_append(a: Seq<Seq<char>>, b: Seq<Seq<char>>, sep: Seq<char>)
    requires
        a.len() > 0,
        b.len() > 0,
    ensures
        join_spec(a + b, sep) == join_spec(a, sep) + sep + join_spec(b, sep),
    decreases b.len(),
{
    if b.len() == 1 {
        assert((a + b).drop_last() =~= a);
        assert((a + b).last() == b[0]);
    } else {
        lemma_join_append(a, b.drop_last(), sep);
        assert((a + b).drop_last() =~= a + b.drop_last());
        assert((a + b).last() == b.last());
        assert(join_spec(a, sep) + sep + join_spec(b.drop_last(), sep) + sep + b.last() =~= join_spec(a, sep) + sep
            + (join_spec(b.drop_last(), sep) + sep + b.last()));
    }
}

/// Splitting at a character and joining with it gives the text back.
pub proof fn lemma_join_split(t: Seq<char>, c: char)
    ensures
        split_pieces(t, c).len() > 0,
        join_spec(split_pieces(t, c), seq![c]) == t,
    decreases t.len(),
{
    if t.len() == 0 {
        assert(join_spec(split_pieces(t, c), seq![c]) =~= t);
    } else {
        let u = t.drop_last();
        lemma_join_split(u, c);
        let p = split_pieces(u, c);
        let x = t.last();
        if x == c {
            assert(split_pieces(t, c) == p.push(Seq::<char>::empty()));
            assert(p.push(Seq::<char>::empty()).drop_last() =~= p);
            assert(u + seq![c] + Seq::<char>::empty() =~= t);
        } else {
            let q = p.update(p.len() - 1, p.last().push(x));
            assert(split_pieces(t, c) == q);
            if p.len() == 1 {
                assert(join_spec(q, seq![c]) == q[0]);
                assert(p.last().push(x) =~= t);
            } else {
                assert(q.drop_last() =~= p.drop_last());
                assert(join_spec(p, seq![c]) == join_spec(p.drop_last(), seq![c]) + seq![c] + p.last());
                assert(join_spec(q, seq![c]) =~= join_spec(p, seq![c]).push(x));
                assert(u.push(x) =~= t);
            }
        }
    }
}

/// The chunks from index `i` on, put together, are the words from `i` on
/// joined by spaces.
pub proof fn lemma_chunk_tokens_concat(w: Seq<Seq<char>>, i: nat)
    requires
        i < w.len(),
    ensures
        chunk_tokens(w, i).flatten() == join_spec(w.subrange(i as int, w.len() as int), " "@),
    decreases w.len() - i,
{
    let size: nat = if i % 3 == 0 {
        2
    } else {
        1
    };
    let end: nat = if i + size < w.len() {
        i + size
    } else {
        w.len()
    };
    let slice = join_spec(w.subrange(i as int, end as int), " "@);
    let c = chunk_tokens(w, i);
    if end == w.len() {
        assert(chunk_tokens(w, end) =~= Seq::<Seq<char>>::empty());
        assert(c =~= seq![slice]);
        assert(c.drop_first() =~= Seq::<Seq<char>>::empty());
        assert(c.drop_first().flatten() == Seq::<char>::empty());
        assert(c.first() == slice);
        assert(c.flatten() =~= slice + Seq::<char>::empty());
    } else {
        lemma_chunk_tokens_concat(w, end);
        assert(c.first() == slice + " "@);
        assert(c.drop_first() =~= chunk_tokens(w, end));
        assert(w.subrange(i as int, w.len() as int) =~= w.subrange(i as int, end as int) + w.subrange(
            end as int,
            w.len() as int,
        ));
        lemma_join_append(w.subrange(i as int, end as int), w.subrange(end as int, w.len() as int), " "@);
        assert(c.flatten() =~= slice + " "@ + join_spec(w.subrange(end as int, w.len() as int), " "@));
    }
}

/// Streaming loses and reorders nothing: the chunks of a reply, put
/// together, are the reply.
pub proof fn law_stream_chunks_concat(text: Seq<char>)
    ensures
        stream_chunks_spec(text).flatten() == text,
{
    let w = split_pieces(text, ' ');
    lemma_join_split(text, ' ');
    lemma_chunk_tokens_concat(w, 0);
    assert(w.subrange(0, w.len() as int) =~= w);
    assert(" "@ == seq![' ']) by {
        reveal_strlit(" ");
    }
    assert(chunk_tokens(w, 0).len() > 0);
}


/// The message of the error that `serde_json` gives when it refuses a text
/// (the `Display` text of `serde_json::Error`).
pub uninterp spec fn json_error_text(text: Seq<char>) -> Seq<char>;

/// Parses a text with `serde_json::from_str::<serde_json::Value>`. `None`
/// when it parses; otherwise the error's `Display` text, which is named.
#[verifier::external_body]
fn json_parse_error(text: &str) -> (r: Option<String>)
    ensures
        r is None <==> json_valid(text@),
        r matches Some(e) ==> e@ == json_error_text(text@),
{
    match serde_json::from_str::<serde_json::Value>(text) {
        Ok(_) => None,
        Err(e) => Some(e.to_string()),
    }
}

/// The string at `choices[0].message.content` of a chat-completion reply,
/// where the text parses as JSON and that member is a string.
pub uninterp spec fn openai_content_of(text: Seq<char>) -> Option<Seq<char>>;

/// Parses a text with `serde_json` and takes the string at
/// `choices[0].message.content` through `serde_json::Value`'s indexing and
/// `as_str`. What it finds is named, not stated.
#[verifier::external_body]
fn openai_content_field(text: &str) -> (r: Option<String>)
    ensures
        match r {
            Some(s) => openai_content_of(text@) == Some(s@),
            None => openai_content_of(text@) is None,
        },
{
    match serde_json::from_str::<serde_json::Value>(text) {
        Ok(v) => v["choices"][0]["message"]["content"].as_str().map(String::from),
        Err(_) => None,
    }
}

/// The string at the top-level `response` member of an Ollama reply, where
/// the text parses as JSON and that member is a string.
pub uninterp spec fn ollama_response_of(text: Seq<char>) -> Option<Seq<char>>;

/// Parses a text with `serde_json` and takes the string at `response`
/// through `serde_json::Value`'s indexing and `as_str`. What it finds is
/// named, not stated.
#[verifier::external_body]
fn ollama_response_field(text: &str) -> (r: Option<String>)
    ensures
        match r {
            Some(s) => ollama_response_of(text@) == Some(s@),
            None => ollama_response_of(text@) is None,
        },
{
    match serde_json::from_str::<serde_json::Value>(text) {
        Ok(v) => v["response"].as_str().map(String::from),
        Err(_) => None,
    }
}

/// The answer in the body of a chat-completion reply: an error when the body
/// is not JSON, else the string at `choices[0].message.content`, or
/// `No content returned` where there is none.
pub fn openai_reply(text: &str) -> (r: Result<String, String>)
    ensures
        r is Err <==> !json_valid(text@),
        r matches Err(e) ==> e@ == "Invalid JSON response: "@ + json_error_text(text@),
        r matches Ok(s) ==> s@ == match openai_content_of(text@) {
            Some(c) => c,
            None => "No content returned"@,
        },
{
    match json_parse_error(text) {
        Some(e) => Err(concat_str("Invalid JSON response: ", &e)),
        None => match openai_content_field(text) {
            Some(c) => Ok(c),
            None => Ok("No content returned".to_string()),
        },
    }
}

/// The answer in the body of an Ollama reply: an error when the body is not
/// JSON, else the string at `response`, or empty where there is none.
pub fn ollama_reply(text: &str) -> (r: Result<String, String>)
    ensures
        r is Err <==> !json_valid(text@),
        r matches Err(e) ==> e@ == "Invalid Ollama JSON: "@ + json_error_text(text@),
        r matches Ok(s) ==> s@ == match ollama_response_of(text@) {
            Some(c) => c,
            None => Seq::<char>::empty(),
        },
{
    match json_parse_error(text) {
        Some(e) => Err(concat_str("Invalid Ollama JSON: ", &e)),
        None => match ollama_response_field(text) {
            Some(c) => Ok(c),
            None => Ok(String::new()),
        },
    }
}

/// Whether `v` is the object `#{index: i, token: chunk, type: "token"}`
/// (keys in ascending order, as script objects keep them).
pub open spec fn is_token_message(v: Value, i: int, chunk: Seq<char>) -> bool {
    &&& v matches Value::Object(e)
    &&& e@.len() == 3
    &&& e@[0].0@ == "index"@ && e@[0].1 == Value::Int(i as i64)
    &&& e@[1].0@ == "token"@ && (e@[1].1 matches Value::Str(s) && s@ == chunk)
    &&& e@[2].0@ == "type"@ && (e@[2].1 matches Value::Str(s) && s@ == "token"@)
}

/// Whether `v` is the object `#{total_tokens: n, type: "done"}`.
pub open spec fn is_done_message(v: Value, n: int) -> bool {
    &&& v matches Value::Object(e)
    &&& e@.len() == 2
    &&& e@[0].0@ == "total_tokens"@ && e@[0].1 == Value::Int(n as i64)
    &&& e@[1].0@ == "type"@ && (e@[1].1 matches Value::Str(s) && s@ == "done"@)
}

fn text_value(s: &str) -> (v: Value)
    ensures
        v matches Value::Str(t) && t@ == s@,
{
    Value::Str(s.to_string())
}

/// The messages that a streamed reply is broadcast as: one token message
/// per chunk, numbered from 0 in order, then a done message with the number
/// of chunks.
pub fn stream_messages(chunks: &Vec<String>) -> (r: Vec<Value>)
    requires
        chunks@.len() < i64::MAX,
    ensures
        r@.len() == chunks@.len() + 1,
        forall|i: int| 0 <= i < chunks@.len() ==> is_token_message(#[trigger] r@[i], i, chunks@[i]@),
        is_done_message(r@[chunks@.len() as int], chunks@.len() as int),
{
    let mut out: Vec<Value> = Vec::new();
    let mut i: usize = 0;
    while i < chunks.len()
        invariant
            i <= chunks@.len(),
            chunks@.len() < i64::MAX,
            out@.len() == i,
            forall|j: int| 0 <= j < i ==> is_token_message(#[trigger] out@[j], j, chunks@[j]@),
        decreases chunks@.len() - i,
    {
        let mut e: Vec<(String, Value)> = Vec::new();
        e.push(("index".to_string(), Value::Int(i as i64)));
        e.push(("token".to_string(), text_value(chunks[i].as_str())));
        e.push(("type".to_string(), text_value("token")));
        out.push(Value::Object(e));
        i = i + 1;
    }
    let mut e: Vec<(String, Value)> = Vec::new();
    e.push(("total_tokens".to_string(), Value::Int(chunks.len() as i64)));
    e.push(("type".to_string(), text_value("done")));
    out.push(Value::Object(e));
    out
}

} // verus!

verus! {

/// The built-in replies differ from one another (each starts differently).
pub proof fn law_local_replies_distinct()
    ensures
        WATCH_REPLY@ != RING_REPLY@,
        WATCH_REPLY@ != CATALOG_REPLY@,
        WATCH_REPLY@ != ORDER_REPLY@,
        WATCH_REPLY@ != GREETING_REPLY@,
        WATCH_REPLY@ != CODE_REPLY@,
        RING_REPLY@ != CATALOG_REPLY@,
        RING_REPLY@ != ORDER_REPLY@,
        RING_REPLY@ != GREETING_REPLY@,
        RING_REPLY@ != CODE_REPLY@,
        CATALOG_REPLY@ != ORDER_REPLY@,
        CATALOG_REPLY@ != GREETING_REPLY@,
        CATALOG_REPLY@ != CODE_REPLY@,
        ORDER_REPLY@ != GREETING_REPLY@,
        ORDER_REPLY@ != CODE_REPLY@,
        GREETING_REPLY@ != CODE_REPLY@,
{
    reveal_strlit("I highly recommend our **Titanium Stealth Chrono Watch** ($349.99). Crafted from Grade 5 aerospace-grade titanium alloy with sapphire crystal face and 200M water resistance. It is currently in stock with free express shipping!");
    reveal_strlit("Check out the **Ceramic & Titanium Hybrid Ring** ($189.00). It combines mirror-polished titanium edges with an ultra-durable matte ceramic inner core — lightweight and hypoallergenic.");
    reveal_strlit("Based on the Titanium catalog analysis: Our top recommendation is the **Titanium Stealth Chrono Watch** ($349.99) followed by the **Ceramic Hybrid Ring** ($189.00) and **Minimalist EDC Bolt-Action Pen** ($89.00). All items are ready for dispatch!");
    reveal_strlit("I verified the Titanium live order ledger. Your recent transaction is currently in **Processing** and scheduled for carrier dispatch within 24 hours. You will receive live status notifications.");
    reveal_strlit("Greetings! I am the **Titanium Singularity AI Agent**, embedded directly in the Ti22 native web runtime. I can assist with product search, inventory intelligence, semantic RAG queries, and live store workflows.");
    reveal_strlit("In Titanium v9.0.0, you can invoke real-time AI and streaming directly in Rhai:\n```rust\nlet response = ai_generate(\"Recommend a product\");\nws_broadcast(\"ai_feed\", #{ answer: response });\n```");
    assert(WATCH_REPLY@[2] != ORDER_REPLY@[2]);
    assert(WATCH_REPLY@[1] != CODE_REPLY@[1]);
    assert(ORDER_REPLY@[1] != CODE_REPLY@[1]);
    assert(WATCH_REPLY@[0] != RING_REPLY@[0]);
    assert(WATCH_REPLY@[0] != CATALOG_REPLY@[0]);
    assert(WATCH_REPLY@[0] != GREETING_REPLY@[0]);
    assert(RING_REPLY@[0] != CATALOG_REPLY@[0]);
    assert(RING_REPLY@[0] != ORDER_REPLY@[0]);
    assert(RING_REPLY@[0] != GREETING_REPLY@[0]);
    assert(RING_REPLY@[0] != CODE_REPLY@[0]);
    assert(CATALOG_REPLY@[0] != ORDER_REPLY@[0]);
    assert(CATALOG_REPLY@[0] != GREETING_REPLY@[0]);
    assert(CATALOG_REPLY@[0] != CODE_REPLY@[0]);
    assert(ORDER_REPLY@[0] != GREETING_REPLY@[0]);
    assert(GREETING_REPLY@[0] != CODE_REPLY@[0]);
}

/// Whether the text mentions a watch.
pub open spec fn asks_watch(p: Seq<char>) -> bool {
    contains_seq(p, "watch"@) || contains_seq(p, "chrono"@)
}

/// Whether the text mentions a ring or jewelry.
pub open spec fn asks_ring(p: Seq<char>) -> bool {
    contains_seq(p, "ring"@) || contains_seq(p, "wedding"@) || contains_seq(p, "jewelry"@)
}

/// Whether the text asks about products or prices.
pub open spec fn asks_catalog(p: Seq<char>) -> bool {
    contains_seq(p, "product"@) || contains_seq(p, "recommend"@) || contains_seq(p, "buy"@)
        || contains_seq(p, "price"@) || contains_seq(p, "gear"@)
}

/// Whether the text asks about an order.
pub open spec fn asks_order(p: Seq<char>) -> bool {
    contains_seq(p, "status"@) || contains_seq(p, "order"@) || contains_seq(p, "track"@)
}

/// Whether the text greets the assistant.
pub open spec fn asks_greeting(p: Seq<char>) -> bool {
    contains_seq(p, "hello"@) || contains_seq(p, "hi"@) || contains_seq(p, "hey"@) || contains_seq(
        p,
        "who are you"@,
    )
}

/// Whether the text asks about code.
pub open spec fn asks_code(p: Seq<char>) -> bool {
    contains_seq(p, "code"@) || contains_seq(p, "rhai"@) || contains_seq(p, "titanium"@)
}

/// The local assistant answers by topic, the first topic that the lowercase
/// prompt mentions winning in the order watch, ring, catalog, order: a
/// prompt about an order's status or tracking that mentions none of the
/// earlier topics gets the order reply, never the catalog reply; one about
/// products gets the catalog reply; and so on.
pub proof fn law_local_reply_by_topic(prompt: Seq<char>)
    ensures
        ({
            let p = lowercase(prompt);
            let r = local_reply(prompt);
            &&& asks_watch(p) ==> r == WATCH_REPLY@
            &&& !asks_watch(p) && asks_ring(p) ==> r == RING_REPLY@
            &&& !asks_watch(p) && !asks_ring(p) && asks_catalog(p) ==> r == CATALOG_REPLY@
            &&& !asks_watch(p) && !asks_ring(p) && !asks_catalog(p) && asks_order(p) ==> r
                == ORDER_REPLY@ && r != CATALOG_REPLY@
            &&& asks_order(p) ==> r != GREETING_REPLY@ && r != CODE_REPLY@
            &&& !asks_watch(p) && !asks_ring(p) && !asks_catalog(p) && !asks_order(p) && asks_greeting(p)
                ==> r == GREETING_REPLY@
            &&& !asks_watch(p) && !asks_ring(p) && !asks_catalog(p) && !asks_order(p) && !asks_greeting(p)
                && asks_code(p) ==> r == CODE_REPLY@
            &&& !asks_watch(p) && !asks_ring(p) && !asks_catalog(p) && !asks_order(p) && !asks_greeting(p)
                && !asks_code(p) ==> r == "Titanium Singularity AI Agent Analysis:\nProcessed prompt: \""@
                + trim_spec(prompt)
                + "\"\nContext: System operational. Real-time RAG semantic embeddings and SQLite store connected with zero latency."@
        }),
{
    law_local_replies_distinct();
}

/// Provider routing: `openai` and `custom` go the same way, to the given
/// endpoint or else OpenAI's chat-completions URL, with the given key or
/// else no token; `ollama` goes to the given endpoint or else the local
/// Ollama generate URL, with no token; every other provider name, `local`
/// among them, gets the built-in replies.
pub proof fn law_provider_route(provider: Seq<char>, endpoint: Option<Seq<char>>, api_key: Option<Seq<char>>, url: Seq<char>, key: Seq<char>)
    ensures
        route_spec("openai"@, endpoint, api_key) == route_spec("custom"@, endpoint, api_key),
        route_spec("openai"@, None, None) == (0nat, "https://api.openai.com/v1/chat/completions"@, Seq::<char>::empty()),
        route_spec("openai"@, Some(url), Some(key)) == (0nat, url, key),
        route_spec("ollama"@, None, api_key) == (1nat, "http://127.0.0.1:11434/api/generate"@, Seq::<char>::empty()),
        route_spec("ollama"@, Some(url), api_key) == (1nat, url, Seq::<char>::empty()),
        provider != "openai"@ && provider != "custom"@ && provider != "ollama"@ ==> route_spec(
            provider,
            endpoint,
            api_key,
        ) == (2nat, Seq::<char>::empty(), Seq::<char>::empty()),
        route_spec("local"@, endpoint, api_key).0 == 2,
{
    reveal_strlit("openai");
    reveal_strlit("custom");
    reveal_strlit("ollama");
    reveal_strlit("local");
    assert("ollama"@[1] != "openai"@[1]);
    assert("ollama"@[0] != "custom"@[0]);
    assert("local"@.len() != "openai"@.len());
    assert("local"@.len() != "custom"@.len());
    assert("local"@.len() != "ollama"@.len());
}

} // verus!
