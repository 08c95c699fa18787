//! The publish/subscribe hub: per-topic message history, newest kept.

use vstd::prelude::*;
use crate::keymap::KeyMap;

verus! {

/// How many messages each topic keeps.
pub const HISTORY_CAP: usize = 50;

/// A published message.
pub struct Message<V> {
    pub topic: String,
    pub message: V,
    /// Seconds since the Unix epoch at publication.
    pub timestamp: i64,
}

/// The hub: each topic's messages, oldest first.
pub struct PubSubHub<V> {
    topics: KeyMap<Vec<Message<V>>>,
}

/// The history after appending `m` to `h`, dropping the oldest message when
/// the history is full.
pub open spec fn bounded_push<T>(h: Seq<T>, m: T, cap: nat) -> Seq<T> {
    if h.len() >= cap {
        h.subrange(1, h.len() as int).push(m)
    } else {
        h.push(m)
    }
}

/// The number of messages a history request returns: `limit`, or 20 when
/// `limit` is not positive.
pub open spec fn take_count(limit: i64) -> int {
    if limit <= 0 {
        20
    } else {
        (limit as usize) as int
    }
}

/// The newest `n` messages of `h`, newest first.
pub open spec fn newest_first<T>(h: Seq<T>, n: int) -> Seq<T> {
    let k = if n < h.len() {
        n
    } else {
        h.len() as int
    };
    Seq::new(k as nat, |i: int| h[h.len() - 1 - i])
}

/// The histories that the store denotes.
pub open spec fn history_view<V>(m: KeyMap<Vec<Message<V>>>) -> Map<Seq<char>, Seq<Message<V>>> {
    Map::new(|t: Seq<char>| m@.contains_key(t), |t: Seq<char>| m@[t]@)
}

/// The history of a topic (empty when nothing was published to it).
pub open spec fn topic_history<V>(h: Map<Seq<char>, Seq<Message<V>>>, topic: Seq<char>) -> Seq<
    Message<V>,
> {
    if h.contains_key(topic) {
        h[topic]
    } else {
        Seq::empty()
    }
}

impl<V> PubSubHub<V> {
    /// The hub's internal consistency: no history exceeds the cap.
    pub closed spec fn wf(&self) -> bool {
        &&& self.topics.wf()
        &&& forall|t: Seq<char>| #[trigger]
            self.topics@.contains_key(t) ==> self.topics@[t]@.len() <= HISTORY_CAP
    }

    /// Each topic's messages, oldest first.
    pub closed spec fn histories(&self) -> Map<Seq<char>, Seq<Message<V>>> {
        history_view(self.topics)
    }

    /// The topics in the order they were first published to.
    pub closed spec fn topic_order(&self) -> Seq<Seq<char>> {
        self.topics.key_order()
    }

    /// A topic keeps at most [`HISTORY_CAP`] messages, whatever was published.
    pub proof fn law_history_capped(&self)
        requires
            self.wf(),
        ensures
            forall|t: Seq<char>| #[trigger] self.histories().contains_key(t) ==> self.histories()[t].len() <= HISTORY_CAP,
    {
    }

    /// An empty hub.
    pub fn new() -> (h: Self)
        ensures
            h.wf(),
            h.histories() == Map::<Seq<char>, Seq<Message<V>>>::empty(),
    {
        let h = PubSubHub { topics: KeyMap::new() };
        assert(h.histories() =~= Map::<Seq<char>, Seq<Message<V>>>::empty());
        h
    }

    /// Publishes `message` on `topic` at second `now`; a full history drops
    /// its oldest message.
    pub fn publish(&mut self, topic: &str, message: V, now: u64)
        requires
            old(self).wf(),
        ensures
            final(self).wf(),
            final(self).histories().contains_key(topic@),
            ({
                let m = final(self).histories()[topic@].last();
                &&& m.topic@ == topic@
                &&& m.message == message
                &&& m.timestamp == now as i64
                &&& final(self).histories() == old(self).histories().insert(
                    topic@,
                    bounded_push(topic_history(old(self).histories(), topic@), m, HISTORY_CAP as nat),
                )
            }),
    {
        let ghost before = self.histories();
        let mut list = match self.topics.remove(topic) {
            Some(l) => l,
            None => Vec::new(),
        };
        let ghost h0 = list@;
        assert(h0 == topic_history(before, topic@));
        if list.len() >= HISTORY_CAP {
            list.remove(0);
        }
        let m = Message { topic: topic.to_owned(), message, timestamp: now as i64 };
        let ghost mg = m;
        list.push(m);
        assert(list@ =~= bounded_push(h0, mg, HISTORY_CAP as nat));
        let ghost lv = list@;
        self.topics.insert(topic, list);
        assert(self.histories() =~= before.insert(topic@, lv));
        assert(self.histories()[topic@] == lv);
        assert(lv.last() == mg);
    }

    /// The newest messages of `topic`, newest first: `limit` of them, or 20
    /// when `limit` is not positive.
    pub fn history(&self, topic: &str, limit: i64) -> (r: Vec<&Message<V>>)
        requires
            self.wf(),
        ensures
            r@.len() == newest_first(topic_history(self.histories(), topic@), take_count(limit)).len(),
            forall|i: int| 0 <= i < r@.len() ==> *r@[i] == newest_first(topic_history(self.histories(), topic@), take_count(limit))[i],
    {
        let mut out: Vec<&Message<V>> = Vec::new();
        match self.topics.get(topic) {
            Some(list) => {
                let take: usize = if limit <= 0 {
                    20
                } else {
                    limit as usize
                };
                let ghost h = list@;
                let ghost want = newest_first(h, take_count(limit));
                assert(h == topic_history(self.histories(), topic@));
                let mut i: usize = 0;
                while i < take && i < list.len()
                    invariant
                        h == list@,
                        want == newest_first(h, take as int),
                        i <= list.len(),
                        i <= take,
                        out@.len() == i,
                        forall|j: int| 0 <= j < i ==> *out@[j] == want[j],
                    decreases list.len() - i,
                {
                    out.push(&list[list.len() - 1 - i]);
                    i = i + 1;
                }
                assert(i == want.len());
            },
            None => {},
        }
        out
    }

    /// The topics that have been published to, each once.
    pub fn list_topics(&self) -> (ts: Vec<String>)
        requires
            self.wf(),
        ensures
            crate::text::string_views(ts@) == self.topic_order(),
    {
        self.topics.keys()
    }
}

} // verus!

verus! {

/// A capped log keeps its cap and its order: appending to a log within its
/// cap gives a log within the cap, whose newest entry is the one appended,
/// and which is the newest entries of the log followed by the new one.
pub proof fn law_bounded_push<T>(h: Seq<T>, m: T, cap: nat)
    requires
        0 < cap,
        h.len() <= cap,
    ensures
        bounded_push(h, m, cap).len() <= cap,
        bounded_push(h, m, cap).last() == m,
        bounded_push(h, m, cap) == h.push(m).skip(h.push(m).len() - bounded_push(h, m, cap).len()),
{
    if h.len() >= cap {
        assert(h.subrange(1, h.len() as int).push(m) =~= h.push(m).skip(1));
    } else {
        assert(h.push(m) =~= h.push(m).skip(0));
    }
}

/// What was published last is read first: after `publish(topic, m)`, the
/// newest-first history of the topic starts with `m`, for any positive
/// count, and holds at most [`HISTORY_CAP`] messages. (A count above
/// `u32::MAX` may wrap to 0 where `usize` has 32 bits, and is left out.)
pub proof fn law_history_newest_first<V>(h: Seq<Message<V>>, m: Message<V>, limit: i64)
    requires
        h.len() <= HISTORY_CAP,
        limit <= u32::MAX,
    ensures
        newest_first(bounded_push(h, m, HISTORY_CAP as nat), take_count(limit)).len() >= 1,
        newest_first(bounded_push(h, m, HISTORY_CAP as nat), take_count(limit))[0] == m,
        newest_first(bounded_push(h, m, HISTORY_CAP as nat), take_count(limit)).len() <= HISTORY_CAP,
{
    law_bounded_push(h, m, HISTORY_CAP as nat);
    let b = bounded_push(h, m, HISTORY_CAP as nat);
    assert(take_count(limit) >= 1);
    assert(newest_first(b, take_count(limit))[0] == b[b.len() - 1]);
}

} // verus!

verus! {

/// The last `cap` entries of `s`, in order (all of them when there are
/// fewer).
pub open spec fn last_n<T>(s: Seq<T>, cap: nat) -> Seq<T> {
    if s.len() > cap {
        s.subrange(s.len() - cap, s.len() as int)
    } else {
        s
    }
}

/// The messages that a run of publishes put on `topic`, in the order they
/// were published. Each event is a topic and the message published on it.
pub open spec fn published_to<V>(events: Seq<(Seq<char>, Message<V>)>, topic: Seq<char>) -> Seq<
    Message<V>,
>
    decreases events.len(),
{
    if events.len() == 0 {
        Seq::empty()
    } else {
        let rest = published_to(events.drop_last(), topic);
        if events.last().0 == topic {
            rest.push(events.last().1)
        } else {
            rest
        }
    }
}

/// Whether `hs` are the histories a hub goes through while the publishes of
/// `events` are made in order, each as [`PubSubHub::publish`] states it.
pub open spec fn is_publish_run<V>(
    hs: Seq<Map<Seq<char>, Seq<Message<V>>>>,
    events: Seq<(Seq<char>, Message<V>)>,
) -> bool {
    &&& hs.len() == events.len() + 1
    &&& forall|i: int|
        0 < i <= events.len() ==> #[trigger] hs[i] == hs[i - 1].insert(
            events[i - 1].0,
            bounded_push(topic_history(hs[i - 1], events[i - 1].0), events[i - 1].1, HISTORY_CAP as nat),
        )
}

pub(crate) proof fn lemma_bounded_push_last_n<T>(s: Seq<T>, x: T, cap: nat)
    requires
        cap > 0,
    ensures
        bounded_push(last_n(s, cap), x, cap) == last_n(s.push(x), cap),
{
    let t = last_n(s, cap);
    if s.len() >= cap {
        assert(t.subrange(1, t.len() as int).push(x) =~= last_n(s.push(x), cap));
    } else {
        assert(t.push(x) =~= last_n(s.push(x), cap));
    }
}

proof fn lemma_publish_run_prefix<V>(
    hs: Seq<Map<Seq<char>, Seq<Message<V>>>>,
    events: Seq<(Seq<char>, Message<V>)>,
    topic: Seq<char>,
    k: int,
)
    requires
        is_publish_run(hs, events),
        !hs[0].contains_key(topic),
        0 <= k <= events.len(),
    ensures
        topic_history(hs[k], topic) == last_n(published_to(events.take(k), topic), HISTORY_CAP as nat),
    decreases k,
{
    if k == 0 {
        assert(events.take(0) =~= Seq::<(Seq<char>, Message<V>)>::empty());
        assert(published_to(events.take(0), topic) =~= Seq::<Message<V>>::empty());
    } else {
        lemma_publish_run_prefix(hs, events, topic, k - 1);
        let e = events[k - 1];
        assert(events.take(k).drop_last() =~= events.take(k - 1));
        assert(events.take(k).last() == e);
        assert(hs[k] == hs[k - 1].insert(
            e.0,
            bounded_push(topic_history(hs[k - 1], e.0), e.1, HISTORY_CAP as nat),
        ));
        if e.0 == topic {
            lemma_bounded_push_last_n(published_to(events.take(k - 1), topic), e.1, HISTORY_CAP as nat);
        } else {
            assert(topic_history(hs[k], topic) == topic_history(hs[k - 1], topic));
        }
    }
}

/// History over a run of publishes: after messages `m1..mn` were published
/// on a topic that had none (with any publishes on other topics between
/// them), the topic keeps exactly the last 50 of them, oldest first, and a
/// history request returns them newest first: `mn`, `mn-1`, ..., as many as
/// the count asks for (`limit`, or 20 when it is not positive) and no more
/// than are kept. A topic never published to reads as empty.
pub proof fn law_history_over_publishes<V>(
    hs: Seq<Map<Seq<char>, Seq<Message<V>>>>,
    events: Seq<(Seq<char>, Message<V>)>,
    topic: Seq<char>,
    limit: i64,
)
    requires
        is_publish_run(hs, events),
        !hs[0].contains_key(topic),
    ensures
        ({
            let ms = published_to(events, topic);
            let kept = topic_history(hs.last(), topic);
            let r = newest_first(kept, take_count(limit));
            &&& kept == last_n(ms, HISTORY_CAP as nat)
            &&& r.len() == vstd::math::min(
                take_count(limit),
                vstd::math::min(ms.len() as int, HISTORY_CAP as int),
            )
            &&& forall|i: int| 0 <= i < r.len() ==> #[trigger] r[i] == ms[ms.len() - 1 - i]
        }),
{
    lemma_publish_run_prefix(hs, events, topic, events.len() as int);
    assert(events.take(events.len() as int) =~= events);
    assert(hs.last() == hs[events.len() as int]);
    let ms = published_to(events, topic);
    let kept = topic_history(hs.last(), topic);
    assert(take_count(limit) >= 0);
    assert forall|i: int| 0 <= i < newest_first(kept, take_count(limit)).len() implies #[trigger] newest_first(
        kept,
        take_count(limit),
    )[i] == ms[ms.len() - 1 - i] by {
        if ms.len() > HISTORY_CAP {
            assert(kept[kept.len() - 1 - i] == ms[ms.len() - HISTORY_CAP + (kept.len() - 1 - i)]);
        }
    }
}

} // verus!
