//! The WebSocket hub's bookkeeping: who listens on which channel, and the
//! log of recent broadcasts. Delivering a message is the caller's work: it
//! tries each listener and reports which ones are still connected.

use vstd::prelude::*;
use crate::keymap::KeyMap;
use crate::pubsub::bounded_push;
use crate::text::{nat_decimal, push_decimal, push_str, string_of};

verus! {

/// How many broadcasts the hub keeps.
pub const WS_HISTORY_CAP: usize = 100;

/// A broadcast message.
pub struct WsMessage<P> {
    pub id: String,
    pub channel: String,
    pub payload: P,
    /// Milliseconds since the Unix epoch.
    pub timestamp: u64,
}

/// The hub: listeners per channel, listeners on every channel, and recent
/// messages. `S` is whatever reaches one listener.
pub struct WebSocketHub<S, P> {
    channels: KeyMap<Vec<S>>,
    global_listeners: Vec<S>,
    history: Vec<WsMessage<P>>,
}

/// The listeners whose flag is set, in order; a missing flag counts as
/// unset.
pub open spec fn kept<S>(items: Seq<S>, keep: Seq<bool>) -> Seq<S>
    decreases items.len(),
{
    if items.len() == 0 {
        Seq::empty()
    } else {
        let i = items.len() - 1;
        kept(items.drop_last(), keep) + if i < keep.len() && keep[i] {
            seq![items.last()]
        } else {
            Seq::empty()
        }
    }
}

/// The sum of the listener counts of the channels in `order`.
pub open spec fn listener_total<S>(lists: Map<Seq<char>, Seq<S>>, order: Seq<Seq<char>>) -> nat
    decreases order.len(),
{
    if order.len() == 0 {
        0
    } else {
        listener_total(lists, order.drop_last()) + lists[order.last()].len()
    }
}

/// `n`, or `u64::MAX` where `n` exceeds it.
pub open spec fn capped(n: nat) -> u64 {
    if n > u64::MAX {
        u64::MAX
    } else {
        n as u64
    }
}

/// Keeps the items whose flag is set.
fn retain_flagged<S>(items: Vec<S>, keep: &Vec<bool>) -> (r: Vec<S>)
    ensures
        r@ == kept(items@, keep@),
{
    let mut items = items;
    let ghost all = items@;
    let mut rev: Vec<S> = Vec::new();
    while items.len() > 0
        invariant
            items@ == all.take(items@.len() as int),
            items@.len() <= all.len(),
            kept(all, keep@) == kept(items@, keep@) + rev@.reverse(),
        decreases items.len(),
    {
        let i = items.len() - 1;
        let ghost before = items@;
        let x = items.pop().unwrap();
        assert(items@ == before.drop_last());
        assert(items@ =~= all.take(i as int));
        if i < keep.len() && keep[i] {
            let ghost r0 = rev@;
            rev.push(x);
            assert(rev@.reverse() =~= seq![x] + r0.reverse());
        }
    }
    let mut out: Vec<S> = Vec::new();
    let ghost want = rev@.reverse();
    while rev.len() > 0
        invariant
            want == out@ + rev@.reverse(),
        decreases rev.len(),
    {
        let ghost r0 = rev@;
        let x = rev.pop().unwrap();
        assert(r0.reverse() =~= seq![x] + rev@.reverse());
        out.push(x);
    }
    assert(out@ =~= want);
    out
}

impl<S, P> WebSocketHub<S, P> {
    /// The hub's consistency: the log holds at most its cap.
    pub closed spec fn wf(&self) -> bool {
        &&& self.channels.wf()
        &&& self.history@.len() <= WS_HISTORY_CAP
    }

    /// The listeners of each channel that has had one.
    pub closed spec fn listeners(&self) -> Map<Seq<char>, Seq<S>> {
        Map::new(|c: Seq<char>| self.channels@.contains_key(c), |c: Seq<char>| self.channels@[c]@)
    }

    /// The channels, in the order of their first listener.
    pub closed spec fn channel_order(&self) -> Seq<Seq<char>> {
        self.channels.key_order()
    }

    /// The listeners on every channel.
    pub closed spec fn global(&self) -> Seq<S> {
        self.global_listeners@
    }

    /// The recent messages, oldest first.
    pub closed spec fn recent(&self) -> Seq<WsMessage<P>> {
        self.history@
    }

    /// The log keeps at most [`WS_HISTORY_CAP`] messages, whatever was
    /// broadcast.
    pub proof fn law_history_capped(&self)
        requires
            self.wf(),
        ensures
            self.recent().len() <= WS_HISTORY_CAP,
    {
    }

    /// An empty hub.
    pub fn new() -> (h: Self)
        ensures
            h.wf(),
            h.listeners() == Map::<Seq<char>, Seq<S>>::empty(),
            h.channel_order() == Seq::<Seq<char>>::empty(),
            h.global() == Seq::<S>::empty(),
            h.recent() == Seq::<WsMessage<P>>::empty(),
    {
        let h = WebSocketHub { channels: KeyMap::new(), global_listeners: Vec::new(), history: Vec::new() };
        assert(h.listeners() =~= Map::<Seq<char>, Seq<S>>::empty());
        h
    }

    /// Adds a listener to `channel`.
    pub fn subscribe(&mut self, channel: &str, tx: S)
        requires
            old(self).wf(),
        ensures
            final(self).wf(),
            final(self).listeners() == old(self).listeners().insert(
                channel@,
                if old(self).listeners().contains_key(channel@) {
                    old(self).listeners()[channel@]
                } else {
                    Seq::empty()
                }.push(tx),
            ),
            final(self).global() == old(self).global(),
            final(self).recent() == old(self).recent(),
    {
        let ghost before = self.listeners();
        let mut list = match self.channels.remove(channel) {
            Some(l) => l,
            None => Vec::new(),
        };
        let ghost tv = tx;
        list.push(tx);
        let ghost lv = list@;
        self.channels.insert(channel, list);
        assert(self.listeners() =~= before.insert(channel@, lv));
    }

    /// Adds a listener to every channel.
    pub fn subscribe_global(&mut self, tx: S)
        requires
            old(self).wf(),
        ensures
            final(self).wf(),
            final(self).global() == old(self).global().push(tx),
            final(self).listeners() == old(self).listeners(),
            final(self).channel_order() == old(self).channel_order(),
            final(self).recent() == old(self).recent(),
    {
        self.global_listeners.push(tx);
    }

    /// Logs a message on `channel` at millisecond `now`, with the id `ws_`
    /// and the millisecond; a full log drops its oldest message. Returns the
    /// message, for the caller to deliver.
    pub fn broadcast(&mut self, channel: &str, payload: P, now: u64) -> (r: &WsMessage<P>)
        requires
            old(self).wf(),
        ensures
            final(self).wf(),
            r.id@ == "ws_"@ + nat_decimal(now as nat),
            r.channel@ == channel@,
            r.payload == payload,
            r.timestamp == now,
            final(self).recent() == bounded_push(old(self).recent(), *r, WS_HISTORY_CAP as nat),
            final(self).listeners() == old(self).listeners(),
            final(self).channel_order() == old(self).channel_order(),
            final(self).global() == old(self).global(),
    {
        let mut id: Vec<char> = Vec::new();
        push_str(&mut id, "ws_");
        push_decimal(&mut id, now);
        let msg = WsMessage { id: string_of(&id), channel: channel.to_owned(), payload, timestamp: now };
        let ghost before = self.history@;
        let ghost mg = msg;
        if self.history.len() >= WS_HISTORY_CAP {
            self.history.remove(0);
        }
        self.history.push(msg);
        assert(self.history@ =~= bounded_push(before, mg, WS_HISTORY_CAP as nat));
        let last = self.history.len() - 1;
        &self.history[last]
    }

    /// The listeners of `channel`, if it has had any.
    pub fn channel_listeners(&self, channel: &str) -> (r: Option<&Vec<S>>)
        requires
            self.wf(),
        ensures
            match r {
                Some(l) => self.listeners().contains_key(channel@) && l@ == self.listeners()[channel@],
                None => !self.listeners().contains_key(channel@),
            },
    {
        self.channels.get(channel)
    }

    /// The listeners on every channel.
    pub fn global_listeners(&self) -> (r: &Vec<S>)
        ensures
            r@ == self.global(),
    {
        &self.global_listeners
    }

    /// Drops the listeners of `channel` that are gone: `alive[i]` says
    /// whether the `i`-th is still connected.
    pub fn retain_channel(&mut self, channel: &str, alive: &Vec<bool>)
        requires
            old(self).wf(),
        ensures
            final(self).wf(),
            final(self).listeners() == if old(self).listeners().contains_key(channel@) {
                old(self).listeners().insert(channel@, kept(old(self).listeners()[channel@], alive@))
            } else {
                old(self).listeners()
            },
            final(self).global() == old(self).global(),
            final(self).recent() == old(self).recent(),
    {
        let ghost before = self.listeners();
        match self.channels.remove(channel) {
            Some(list) => {
                let kept_list = retain_flagged(list, alive);
                let ghost kv = kept_list@;
                self.channels.insert(channel, kept_list);
                assert(self.listeners() =~= before.insert(channel@, kv));
            },
            None => {
                assert(self.listeners() =~= before);
            },
        }
    }

    /// Drops the global listeners that are gone.
    pub fn retain_global(&mut self, alive: &Vec<bool>)
        requires
            old(self).wf(),
        ensures
            final(self).wf(),
            final(self).global() == kept(old(self).global(), alive@),
            final(self).listeners() == old(self).listeners(),
            final(self).channel_order() == old(self).channel_order(),
            final(self).recent() == old(self).recent(),
    {
        let mut g: Vec<S> = Vec::new();
        std::mem::swap(&mut g, &mut self.global_listeners);
        self.global_listeners = retain_flagged(g, alive);
    }

    /// The number of listeners on `channel` (0 for a channel never
    /// subscribed to).
    pub fn client_count(&self, channel: &str) -> (n: usize)
        requires
            self.wf(),
        ensures
            n == if self.listeners().contains_key(channel@) {
                self.listeners()[channel@].len()
            } else {
                0
            },
    {
        match self.channels.get(channel) {
            Some(l) => l.len(),
            None => 0,
        }
    }

    /// The number of listeners: the global ones and those of each channel
    /// (at most `u64::MAX`).
    pub fn total_clients(&self) -> (n: u64)
        requires
            self.wf(),
        ensures
            n == capped(self.global().len() + listener_total(self.listeners(), self.channel_order())),
    {
        let count = self.channels.entry_count();
        let mut total: u64 = self.global_listeners.len() as u64;
        let mut i: usize = 0;
        while i < count
            invariant
                self.wf(),
                count == self.channel_order().len(),
                i <= count,
                total == capped(self.global().len() + listener_total(
                    self.listeners(),
                    self.channel_order().take(i as int),
                )),
            decreases count - i,
        {
            let (k, l) = self.channels.entry_at(i);
            assert(self.channel_order().take(i + 1).drop_last() =~= self.channel_order().take(i as int));
            assert(self.listeners()[k@] == l@);
            total = total.saturating_add(l.len() as u64);
            i = i + 1;
        }
        assert(self.channel_order().take(i as int) =~= self.channel_order());
        total
    }

    /// The channels, in the order of their first listener.
    pub fn channels_list(&self) -> (r: Vec<String>)
        requires
            self.wf(),
        ensures
            crate::text::string_views(r@) == self.channel_order(),
    {
        self.channels.keys()
    }

    /// The recent messages, oldest first.
    pub fn recent_history(&self) -> (r: &Vec<WsMessage<P>>)
        ensures
            r@ == self.recent(),
    {
        &self.history
    }
}

} // verus!
