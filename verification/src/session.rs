//! Cookie sessions: per-session values, one-shot flash messages and the CSRF
//! token.

use vstd::prelude::*;
use crate::keymap::KeyMap;
use crate::text::{chars_of, nat_hex, push_hex, string_of};
use crate::value::Value;

verus! {

/// The values of every session, and the pending flash messages of every
/// session, each keyed by session id.
pub struct SessionStore {
    sessions: KeyMap<KeyMap<Value>>,
    flashes: KeyMap<KeyMap<Value>>,
}

/// The maps that a store of per-session maps denotes.
pub open spec fn nested_view(m: KeyMap<KeyMap<Value>>) -> Map<Seq<char>, Map<Seq<char>, Value>> {
    Map::new(|sid: Seq<char>| m@.contains_key(sid), |sid: Seq<char>| m@[sid]@)
}

/// Whether an outer map and all its inner maps are consistent.
pub open spec fn nested_wf(m: KeyMap<KeyMap<Value>>) -> bool {
    m.wf() && forall|sid: Seq<char>| #[trigger] m@.contains_key(sid) ==> m@[sid].wf()
}

/// The values that a session holds under each key (none when the session
/// has never been written).
pub open spec fn session_values(
    m: Map<Seq<char>, Map<Seq<char>, Value>>,
    sid: Seq<char>,
) -> Map<Seq<char>, Value> {
    if m.contains_key(sid) {
        m[sid]
    } else {
        Map::empty()
    }
}

impl SessionStore {
    /// The store's internal consistency.
    pub closed spec fn wf(&self) -> bool {
        nested_wf(self.sessions) && nested_wf(self.flashes)
    }

    /// Session values, by session id and key.
    pub closed spec fn values(&self) -> Map<Seq<char>, Map<Seq<char>, Value>> {
        nested_view(self.sessions)
    }

    /// Pending flash messages, by session id and key.
    pub closed spec fn flash_values(&self) -> Map<Seq<char>, Map<Seq<char>, Value>> {
        nested_view(self.flashes)
    }

    /// An empty store.
    pub fn new() -> (s: Self)
        ensures
            s.wf(),
            s.values() == Map::<Seq<char>, Map<Seq<char>, Value>>::empty(),
            s.flash_values() == Map::<Seq<char>, Map<Seq<char>, Value>>::empty(),
    {
        let s = SessionStore { sessions: KeyMap::new(), flashes: KeyMap::new() };
        assert(s.values() =~= Map::<Seq<char>, Map<Seq<char>, Value>>::empty());
        assert(s.flash_values() =~= Map::<Seq<char>, Map<Seq<char>, Value>>::empty());
        s
    }

    /// A handle on the session with the given id.
    pub fn get_session(&self, session_id: &str) -> (h: SessionHandle)
        ensures
            h.session_id@ == session_id@,
    {
        SessionHandle { session_id: session_id.to_owned() }
    }
}

fn nested_insert(m: &mut KeyMap<KeyMap<Value>>, sid: &str, key: &str, value: Value)
    requires
        nested_wf(*old(m)),
    ensures
        nested_wf(*final(m)),
        nested_view(*final(m)) == nested_view(*old(m)).insert(
            sid@,
            session_values(nested_view(*old(m)), sid@).insert(key@, value),
        ),
{
    let ghost before = nested_view(*m);
    let mut inner = match m.remove(sid) {
        Some(x) => x,
        None => KeyMap::new(),
    };
    assert(inner@ == session_values(before, sid@));
    inner.insert(key, value);
    let ghost inner_view = inner@;
    m.insert(sid, inner);
    assert(nested_view(*m) =~= before.insert(sid@, inner_view));
}

/// A handle on one session.
pub struct SessionHandle {
    pub session_id: String,
}

/// The 128-bit FNV-1a hash of a byte sequence.
pub open spec fn fnv1a_128(bytes: Seq<u8>) -> u128
    decreases bytes.len(),
{
    if bytes.len() == 0 {
        0xcbf29ce484222325u128
    } else {
        let h = fnv1a_128(bytes.drop_last()) ^ (bytes.last() as u128);
        ((h as nat * 0x100000001b3nat) % 0x1_0000_0000_0000_0000_0000_0000_0000_0000nat) as u128
    }
}

/// The CSRF token generated for a session: the lowercase hex of the FNV-1a
/// hash of `titanium_csrf_` followed by the session id, in UTF-8.
pub open spec fn csrf_token_for(session_id: Seq<char>) -> Seq<char> {
    nat_hex(fnv1a_128(vstd::utf8::encode_utf8("titanium_csrf_"@ + session_id)) as nat)
}

/// The 128-bit FNV-1a hash of the UTF-8 bytes of `input`.
pub fn md5_simple(input: &str) -> (h: u128)
    ensures
        h == fnv1a_128(vstd::utf8::encode_utf8(input@)),
{
    let bytes = input.as_bytes();
    let mut hash: u128 = 0xcbf29ce484222325;
    let mut i: usize = 0;
    while i < bytes.len()
        invariant
            i <= bytes@.len(),
            bytes@ == vstd::utf8::encode_utf8(input@),
            hash == fnv1a_128(bytes@.take(i as int)),
        decreases bytes.len() - i,
    {
        assert(bytes@.take(i + 1).drop_last() =~= bytes@.take(i as int));
        hash = hash ^ (bytes[i] as u128);
        hash = hash.wrapping_mul(0x100000001b3);
        i = i + 1;
    }
    assert(bytes@.take(bytes@.len() as int) =~= bytes@);
    hash
}

impl SessionHandle {
    /// The session's id.
    pub fn id(&self) -> (s: String)
        ensures
            s@ == self.session_id@,
    {
        self.session_id.clone()
    }

    /// The value stored under `key` in this session.
    pub fn get<'a>(&self, store: &'a SessionStore, key: &str) -> (r: Option<&'a Value>)
        requires
            store.wf(),
        ensures
            match r {
                Some(v) => session_values(store.values(), self.session_id@).contains_key(key@)
                    && *v == session_values(store.values(), self.session_id@)[key@],
                None => !session_values(store.values(), self.session_id@).contains_key(key@),
            },
    {
        match store.sessions.get(self.session_id.as_str()) {
            Some(m) => m.get(key),
            None => None,
        }
    }

    /// Stores `value` under `key` in this session.
    pub fn set(&self, store: &mut SessionStore, key: &str, value: Value)
        requires
            old(store).wf(),
        ensures
            final(store).wf(),
            final(store).values() == old(store).values().insert(
                self.session_id@,
                session_values(old(store).values(), self.session_id@).insert(key@, value),
            ),
            final(store).flash_values() == old(store).flash_values(),
    {
        nested_insert(&mut store.sessions, self.session_id.as_str(), key, value);
    }

    /// Removes the value under `key` from this session.
    pub fn remove(&self, store: &mut SessionStore, key: &str)
        requires
            old(store).wf(),
        ensures
            final(store).wf(),
            old(store).values().contains_key(self.session_id@) ==> final(store).values()
                == old(store).values().insert(
                self.session_id@,
                old(store).values()[self.session_id@].remove(key@),
            ),
            !old(store).values().contains_key(self.session_id@) ==> final(store).values()
                == old(store).values(),
            final(store).flash_values() == old(store).flash_values(),
    {
        let ghost before = nested_view(store.sessions);
        match store.sessions.remove(self.session_id.as_str()) {
            Some(mut inner) => {
                inner.remove(key);
                let ghost iv = inner@;
                store.sessions.insert(self.session_id.as_str(), inner);
                assert(nested_view(store.sessions) =~= before.insert(self.session_id@, iv));
            },
            None => {
                assert(nested_view(store.sessions) =~= before);
            },
        }
    }

    /// Queues a flash message under `key` for this session.
    pub fn flash_set(&self, store: &mut SessionStore, key: &str, value: Value)
        requires
            old(store).wf(),
        ensures
            final(store).wf(),
            final(store).flash_values() == old(store).flash_values().insert(
                self.session_id@,
                session_values(old(store).flash_values(), self.session_id@).insert(key@, value),
            ),
            final(store).values() == old(store).values(),
    {
        nested_insert(&mut store.flashes, self.session_id.as_str(), key, value);
    }

    /// Takes the flash message under `key`: it is returned once and removed.
    pub fn flash_get(&self, store: &mut SessionStore, key: &str) -> (r: Option<Value>)
        requires
            old(store).wf(),
        ensures
            final(store).wf(),
            match r {
                Some(v) => session_values(old(store).flash_values(), self.session_id@).contains_key(
                    key@,
                ) && v == session_values(old(store).flash_values(), self.session_id@)[key@],
                None => !session_values(old(store).flash_values(), self.session_id@).contains_key(
                    key@,
                ),
            },
            old(store).flash_values().contains_key(self.session_id@) ==> final(store).flash_values()
                == old(store).flash_values().insert(
                self.session_id@,
                old(store).flash_values()[self.session_id@].remove(key@),
            ),
            !old(store).flash_values().contains_key(self.session_id@) ==> final(store).flash_values() == old(store).flash_values(),
            final(store).values() == old(store).values(),
    {
        let ghost before = nested_view(store.flashes);
        match store.flashes.remove(self.session_id.as_str()) {
            Some(mut inner) => {
                let r = inner.remove(key);
                let ghost iv = inner@;
                store.flashes.insert(self.session_id.as_str(), inner);
                assert(nested_view(store.flashes) =~= before.insert(self.session_id@, iv));
                r
            },
            None => {
                assert(nested_view(store.flashes) =~= before);
                None
            },
        }
    }

    /// The session's CSRF token: the string stored under `_csrf` if there is
    /// one; otherwise a token derived from the session id, which is stored
    /// under `_csrf` and returned.
    pub fn csrf_token(&self, store: &mut SessionStore) -> (t: String)
        requires
            old(store).wf(),
        ensures
            final(store).wf(),
            final(store).flash_values() == old(store).flash_values(),
            match session_values(old(store).values(), self.session_id@).get("_csrf"@) {
                Some(Value::Str(s)) => t@ == s@ && final(store).values() == old(store).values(),
                _ => t@ == csrf_token_for(self.session_id@) && final(store).values() == old(store).values().insert(
                    self.session_id@,
                    session_values(old(store).values(), self.session_id@).insert(
                        "_csrf"@,
                        Value::Str(t),
                    ),
                ),
            },
    {
        if let Some(Value::Str(s)) = self.get(store, "_csrf") {
            return s.clone();
        }
        let mut input = "titanium_csrf_".to_owned();
        input.append(self.session_id.as_str());
        let h = md5_simple(input.as_str());
        let mut out: Vec<char> = Vec::new();
        push_hex(&mut out, h);
        assert(out@ =~= csrf_token_for(self.session_id@));
        let token = string_of(&out);
        let stored = token.clone();
        self.set(store, "_csrf", Value::Str(stored));
        token
    }

    /// The session's values, each key once.
    pub fn to_map<'a>(&self, store: &'a SessionStore) -> (r: Vec<(&'a String, &'a Value)>)
        requires
            store.wf(),
        ensures
            r@.len() == session_values(store.values(), self.session_id@).len(),
            forall|i: int|
                0 <= i < r@.len() ==> {
                    &&& session_values(store.values(), self.session_id@).contains_key((#[trigger] r@[i]).0@)
                    &&& *r@[i].1 == session_values(store.values(), self.session_id@)[r@[i].0@]
                },
            forall|i: int, j: int| 0 <= i < j < r@.len() ==> (#[trigger] r@[i]).0@ != (#[trigger] r@[j]).0@,
    {
        let mut out: Vec<(&'a String, &'a Value)> = Vec::new();
        match store.sessions.get(self.session_id.as_str()) {
            Some(inner) => {
                proof {
                    inner.lemma_key_order();
                }
                let n = inner.entry_count();
                let mut i: usize = 0;
                while i < n
                    invariant
                        inner.wf(),
                        n == inner.key_order().len(),
                        inner.key_order().no_duplicates(),
                        i <= n,
                        out@.len() == i,
                        forall|k: int| 0 <= k < i ==> (#[trigger] out@[k]).0@ == inner.key_order()[k],
                        forall|k: int|
                            0 <= k < i ==> {
                                &&& inner@.contains_key((#[trigger] out@[k]).0@)
                                &&& *out@[k].1 == inner@[out@[k].0@]
                            },
                    decreases n - i,
                {
                    let (k, v) = inner.entry_at(i);
                    out.push((k, v));
                    i = i + 1;
                }
                assert(forall|a: int, b: int| 0 <= a < b < out@.len() ==> (#[trigger] out@[a]).0@ != (#[trigger] out@[b]).0@) by {
                    assert forall|a: int, b: int| 0 <= a < b < out@.len() implies (#[trigger] out@[a]).0@ != (#[trigger] out@[b]).0@ by {
                        assert(out@[a].0@ == inner.key_order()[a]);
                        assert(out@[b].0@ == inner.key_order()[b]);
                    }
                }
            },
            None => {
                assert(session_values(store.values(), self.session_id@) =~= Map::<Seq<char>, Value>::empty());
            },
        }
        out
    }
}

} // verus!

verus! {

/// Read your write: after `set(key, value)` on a session, `get(key)` on
/// that session gives `value`, and every other session is unchanged.
pub proof fn law_session_get_after_set(
    m: Map<Seq<char>, Map<Seq<char>, Value>>,
    sid: Seq<char>,
    key: Seq<char>,
    value: Value,
    other: Seq<char>,
)
    ensures
        ({
            let after = m.insert(sid, session_values(m, sid).insert(key, value));
            &&& session_values(after, sid).contains_key(key)
            &&& session_values(after, sid)[key] == value
            &&& other != sid ==> session_values(after, other) == session_values(m, other)
        }),
{
}

/// A flash message is read once: after `flash_set(key, value)`, the next
/// `flash_get(key)` gives `value`, and the one after that gives nothing.
pub proof fn law_flash_is_read_once(
    f: Map<Seq<char>, Map<Seq<char>, Value>>,
    sid: Seq<char>,
    key: Seq<char>,
    value: Value,
)
    ensures
        ({
            let queued = f.insert(sid, session_values(f, sid).insert(key, value));
            let taken = queued.insert(sid, queued[sid].remove(key));
            &&& session_values(queued, sid).contains_key(key)
            &&& session_values(queued, sid)[key] == value
            &&& queued.contains_key(sid)
            &&& !session_values(taken, sid).contains_key(key)
        }),
{
}

/// The CSRF token is stable: once `csrf_token` has stored a token, the next
/// call finds it and returns it again.
pub proof fn law_csrf_token_is_stable(m: Map<Seq<char>, Map<Seq<char>, Value>>, sid: Seq<char>, token: String)
    ensures
        ({
            let after = m.insert(sid, session_values(m, sid).insert("_csrf"@, Value::Str(token)));
            session_values(after, sid).get("_csrf"@) == Some(Value::Str(token))
        }),
{
}

} // verus!
