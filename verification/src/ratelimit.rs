//! The sliding-window rate limiter behind `rate_limit(key, max, window)`.

use vstd::prelude::*;
use crate::keymap::KeyMap;

verus! {

/// The answer to one rate-limit check.
pub struct RateLimitResult {
    pub allowed: bool,
    pub remaining: i64,
    /// Seconds until the window frees a slot (the window length when the
    /// request was allowed).
    pub reset_in: i64,
}

/// The request times recorded per key, oldest first.
pub struct RateLimiter {
    windows: KeyMap<Vec<u64>>,
}

/// The largest clock reading the limiter accepts (2^63 seconds).
pub open spec fn max_now() -> u64 {
    0x8000_0000_0000_0000u64
}

/// The window length: `window_secs`, or 60 when it is not positive.
pub open spec fn effective_window(window_secs: i64) -> u64 {
    if window_secs <= 0 {
        60
    } else {
        window_secs as u64
    }
}

/// The request limit: `max_reqs`, or 60 when it is not positive.
pub open spec fn effective_max(max_reqs: i64) -> i64 {
    if max_reqs <= 0 {
        60
    } else {
        max_reqs
    }
}

/// The earliest time that still counts at `now`: `now - window`, floored
/// at zero.
pub open spec fn window_start(now: u64, window: u64) -> u64 {
    if now >= window {
        (now - window) as u64
    } else {
        0
    }
}

/// The predicate "recorded after `threshold`".
pub open spec fn after(threshold: u64) -> spec_fn(u64) -> bool {
    |t: u64| t > threshold
}

/// The recorded times of a key (none when it was never seen).
pub open spec fn times_of(m: Map<Seq<char>, Seq<u64>>, key: Seq<char>) -> Seq<u64> {
    if m.contains_key(key) {
        m[key]
    } else {
        Seq::empty()
    }
}

/// The view of the limiter's windows.
pub open spec fn windows_view(m: KeyMap<Vec<u64>>) -> Map<Seq<char>, Seq<u64>> {
    Map::new(|k: Seq<char>| m@.contains_key(k), |k: Seq<char>| m@[k]@)
}

impl RateLimiter {
    /// The limiter's internal consistency: every recorded time is at most
    /// [`max_now`].
    pub closed spec fn wf(&self) -> bool {
        &&& self.windows.wf()
        &&& forall|k: Seq<char>, i: int| #[trigger] self.windows@.contains_key(k) && 0 <= i < self.windows@[k]@.len()
            ==> #[trigger] self.windows@[k]@[i] <= max_now()
        &&& forall|k: Seq<char>| #[trigger] self.windows@.contains_key(k) ==> self.windows@[k]@.len() <= i64::MAX
    }

    /// The recorded request times, by key.
    pub closed spec fn times(&self) -> Map<Seq<char>, Seq<u64>> {
        windows_view(self.windows)
    }

    /// A limiter with nothing recorded.
    pub fn new() -> (r: Self)
        ensures
            r.wf(),
            r.times() == Map::<Seq<char>, Seq<u64>>::empty(),
    {
        let r = RateLimiter { windows: KeyMap::new() };
        assert(r.times() =~= Map::<Seq<char>, Seq<u64>>::empty());
        r
    }

    /// Checks a request for `key` at second `now` against at most `max_reqs`
    /// requests per `window_secs` seconds. Times at or before the window's
    /// start are forgotten; the request is allowed, and recorded, exactly when
    /// fewer than the limit remain.
    pub fn rate_limit(&mut self, key: &str, max_reqs: i64, window_secs: i64, now: u64) -> (r:
        RateLimitResult)
        requires
            old(self).wf(),
            now <= max_now(),
        ensures
            final(self).wf(),
            ({
                let window = effective_window(window_secs);
                let max = effective_max(max_reqs);
                let kept = times_of(old(self).times(), key@).filter(after(window_start(now, window)));
                &&& r.allowed == (kept.len() < max)
                &&& r.allowed ==> final(self).times() == old(self).times().insert(key@, kept.push(now))
                    && r.remaining == max - (kept.len() + 1) && r.reset_in == window as i64
                &&& !r.allowed ==> final(self).times() == old(self).times().insert(key@, kept)
                    && r.remaining == 0 && r.reset_in == (if kept.len() > 0 {
                    if kept[0] + window >= now {
                        kept[0] + window - now
                    } else {
                        0
                    }
                } else {
                    0
                }) as i64
            }),
    {
        let window: u64 = if window_secs <= 0 {
            60
        } else {
            window_secs as u64
        };
        let max: i64 = if max_reqs <= 0 {
            60
        } else {
            max_reqs
        };
        let threshold = now.saturating_sub(window);
        let ghost before = self.times();
        let old_times = match self.windows.remove(key) {
            Some(v) => v,
            None => Vec::new(),
        };
        let ghost ot = old_times@;
        assert(ot == times_of(before, key@));
        assert(ot.len() <= i64::MAX);
        assert(forall|i: int| 0 <= i < ot.len() ==> ot[i] <= max_now()) by {
            if before.contains_key(key@) {
                assert forall|i: int| 0 <= i < ot.len() implies ot[i] <= max_now() by {
                    assert(self.windows@.contains_key(key@) || true);
                }
            }
        }
        let mut kept: Vec<u64> = Vec::new();
        let mut i: usize = 0;
        while i < old_times.len()
            invariant
                i <= old_times.len(),
                ot == old_times@,
                forall|j: int| 0 <= j < ot.len() ==> ot[j] <= max_now(),
                kept@ == ot.take(i as int).filter(after(threshold)),
                kept@.len() <= i,
                ot.len() <= i64::MAX,
                forall|j: int| 0 <= j < kept@.len() ==> kept@[j] <= max_now(),
            decreases old_times.len() - i,
        {
            let t = old_times[i];
            proof {
                assert(ot.take(i + 1) =~= ot.take(i as int).push(t));
                ot.take(i as int).lemma_filter_push(t, after(threshold));
                assert(t == ot[i as int]);
            }
            if t > threshold {
                kept.push(t);
            }
            i = i + 1;
        }
        assert(ot.take(i as int) =~= ot);
        let n = kept.len();
        let result;
        if (n as i64) >= max {
            let oldest = if n > 0 {
                kept[0]
            } else {
                now
            };
            let end = oldest + window;
            let reset_in = if end >= now {
                end - now
            } else {
                0
            };
            result = RateLimitResult { allowed: false, remaining: 0, reset_in: reset_in as i64 };
        } else {
            kept.push(now);
            result = RateLimitResult { allowed: true, remaining: max - (kept.len() as i64), reset_in: window as i64 };
        }
        let ghost kv = kept@;
        self.windows.insert(key, kept);
        assert(self.times() =~= before.insert(key@, kv));
        result
    }
}

} // verus!

verus! {

/// The predicate "within the window that ends at `t`": after the window's
/// start and no later than `t`.
pub open spec fn in_window(t: u64, window: u64) -> spec_fn(u64) -> bool {
    |s: u64| window_start(t, window) < s && s <= t
}

/// Whether `hs` are the recorded times a limiter goes through while the
/// checks `calls` (each a key and a clock reading) are made in order with
/// the same `max_reqs` and `window_secs`, each as [`RateLimiter::rate_limit`]
/// states it, and `allowed` are their answers.
pub open spec fn is_limit_run(
    hs: Seq<Map<Seq<char>, Seq<u64>>>,
    calls: Seq<(Seq<char>, u64)>,
    allowed: Seq<bool>,
    max_reqs: i64,
    window_secs: i64,
) -> bool {
    let window = effective_window(window_secs);
    let max = effective_max(max_reqs);
    &&& hs.len() == calls.len() + 1
    &&& allowed.len() == calls.len()
    &&& forall|i: int|
        #![trigger allowed[i]]
        0 <= i < calls.len() ==> {
            let kept = times_of(hs[i], calls[i].0).filter(after(window_start(calls[i].1, window)));
            &&& allowed[i] == (kept.len() < max)
            &&& hs[i + 1] == hs[i].insert(
                calls[i].0,
                if allowed[i] {
                    kept.push(calls[i].1)
                } else {
                    kept
                },
            )
        }
}

/// The clock readings of the allowed checks for `key` among the first `n`
/// checks of a run, in order.
pub open spec fn allowed_stamps(
    calls: Seq<(Seq<char>, u64)>,
    allowed: Seq<bool>,
    key: Seq<char>,
    n: int,
) -> Seq<u64>
    decreases n,
{
    if n <= 0 {
        Seq::empty()
    } else {
        let rest = allowed_stamps(calls, allowed, key, n - 1);
        if calls[n - 1].0 == key && allowed[n - 1] {
            rest.push(calls[n - 1].1)
        } else {
            rest
        }
    }
}

proof fn lemma_filter_empty<T>(s: Seq<T>, p: spec_fn(T) -> bool)
    requires
        s.len() == 0,
    ensures
        s.filter(p) == s,
{
    reveal(Seq::filter);
}

proof fn lemma_filter_weaker_len<T>(s: Seq<T>, p: spec_fn(T) -> bool, q: spec_fn(T) -> bool)
    requires
        forall|x: T| #[trigger] p(x) ==> q(x),
    ensures
        s.filter(p).len() <= s.filter(q).len(),
    decreases s.len(),
{
    if s.len() == 0 {
        lemma_filter_empty(s, p);
        lemma_filter_empty(s, q);
    } else {
        let d = s.drop_last();
        lemma_filter_weaker_len(d, p, q);
        assert(d.push(s.last()) =~= s);
        d.lemma_filter_push(s.last(), p);
        d.lemma_filter_push(s.last(), q);
    }
}

proof fn lemma_filter_twice<T>(s: Seq<T>, p: spec_fn(T) -> bool, q: spec_fn(T) -> bool)
    requires
        forall|x: T| #[trigger] q(x) ==> p(x),
    ensures
        s.filter(p).filter(q) == s.filter(q),
    decreases s.len(),
{
    if s.len() == 0 {
        lemma_filter_empty(s, p);
        lemma_filter_empty(s, q);
        lemma_filter_empty(s.filter(p), q);
    } else {
        let d = s.drop_last();
        let x = s.last();
        lemma_filter_twice(d, p, q);
        assert(d.push(x) =~= s);
        d.lemma_filter_push(x, p);
        d.lemma_filter_push(x, q);
        d.filter(p).lemma_filter_push(x, q);
    }
}

proof fn lemma_filter_agree<T>(s: Seq<T>, p: spec_fn(T) -> bool, q: spec_fn(T) -> bool)
    requires
        forall|j: int| 0 <= j < s.len() ==> p(#[trigger] s[j]) == q(s[j]),
    ensures
        s.filter(p) == s.filter(q),
    decreases s.len(),
{
    if s.len() == 0 {
        lemma_filter_empty(s, p);
        lemma_filter_empty(s, q);
    } else {
        let d = s.drop_last();
        let x = s.last();
        assert forall|j: int| 0 <= j < d.len() implies p(#[trigger] d[j]) == q(d[j]) by {
            assert(d[j] == s[j]);
        }
        lemma_filter_agree(d, p, q);
        assert(d.push(x) =~= s);
        assert(x == s[s.len() - 1]);
        d.lemma_filter_push(x, p);
        d.lemma_filter_push(x, q);
    }
}

proof fn lemma_other_key_step(
    hs: Seq<Map<Seq<char>, Seq<u64>>>,
    calls: Seq<(Seq<char>, u64)>,
    allowed: Seq<bool>,
    max_reqs: i64,
    window_secs: i64,
    key: Seq<char>,
    i: int,
)
    requires
        is_limit_run(hs, calls, allowed, max_reqs, window_secs),
        0 <= i < calls.len(),
        calls[i].0 != key,
    ensures
        times_of(hs[i + 1], key) == times_of(hs[i], key),
{
    assert(allowed[i] == allowed[i]);
    let k2 = calls[i].0;
    let kept = times_of(hs[i], k2).filter(after(window_start(calls[i].1, effective_window(window_secs))));
    let v = if allowed[i] {
        kept.push(calls[i].1)
    } else {
        kept
    };
    assert(hs[i + 1] == hs[i].insert(k2, v));
    assert(hs[i + 1].contains_key(key) == hs[i].contains_key(key));
    if hs[i].contains_key(key) {
        assert(hs[i + 1][key] == hs[i][key]);
    }
}

proof fn lemma_limit_run_prefix(
    hs: Seq<Map<Seq<char>, Seq<u64>>>,
    calls: Seq<(Seq<char>, u64)>,
    allowed: Seq<bool>,
    max_reqs: i64,
    window_secs: i64,
    key: Seq<char>,
    n: int,
)
    requires
        is_limit_run(hs, calls, allowed, max_reqs, window_secs),
        !hs[0].contains_key(key),
        forall|i: int, j: int| 0 <= i <= j < calls.len() ==> #[trigger] calls[i].1 <= #[trigger] calls[j].1,
        0 <= n <= calls.len(),
    ensures
        forall|x: u64|
            (n > 0 ==> window_start(calls[n - 1].1, effective_window(window_secs)) <= x) ==> times_of(
                hs[n],
                key,
            ).filter(#[trigger] after(x)) == allowed_stamps(calls, allowed, key, n).filter(after(x)),
        n > 0 ==> forall|j: int|
            0 <= j < allowed_stamps(calls, allowed, key, n).len() ==> #[trigger] allowed_stamps(
                calls,
                allowed,
                key,
                n,
            )[j] <= calls[n - 1].1,
        forall|t: u64|
            #[trigger] allowed_stamps(calls, allowed, key, n).filter(
                in_window(t, effective_window(window_secs)),
            ).len() <= effective_max(max_reqs),
    decreases n,
{
    let w = effective_window(window_secs);
    let m = effective_max(max_reqs);
    let a = allowed_stamps(calls, allowed, key, n);
    if n == 0 {
        assert(times_of(hs[0], key) == Seq::<u64>::empty());
        assert forall|x: u64| true implies times_of(hs[n], key).filter(#[trigger] after(x)) == a.filter(
            after(x),
        ) by {
            lemma_filter_empty(times_of(hs[0], key), after(x));
            lemma_filter_empty(a, after(x));
        }
        assert forall|t: u64| true implies #[trigger] a.filter(in_window(t, w)).len() <= m by {
            lemma_filter_empty(a, in_window(t, w));
        }
    } else {
        let i = n - 1;
        lemma_limit_run_prefix(hs, calls, allowed, max_reqs, window_secs, key, i);
        let pa = allowed_stamps(calls, allowed, key, i);
        let t = calls[i].1;
        let ws = window_start(t, w);
        assert(allowed[i] == allowed[i]);
        let kept = times_of(hs[i], calls[i].0).filter(after(ws));
        assert(i > 0 ==> calls[i - 1].1 <= calls[i].1);
        assert(i > 0 ==> window_start(calls[i - 1].1, w) <= ws);
        if calls[i].0 == key {
            // What the check saw is the earlier allowed calls after the window's start.
            assert(kept == pa.filter(after(ws)));
            assert forall|x: u64| ws <= x implies times_of(hs[n], key).filter(#[trigger] after(x))
                == a.filter(after(x)) by {
                assert forall|y: u64| #[trigger] after(x)(y) implies after(ws)(y) by {}
                lemma_filter_twice(times_of(hs[i], key), after(ws), after(x));
                assert(times_of(hs[i], key).filter(after(x)) == pa.filter(after(x)));
                if allowed[i] {
                    assert(times_of(hs[n], key) == kept.push(t));
                    assert(a == pa.push(t));
                    kept.lemma_filter_push(t, after(x));
                    pa.lemma_filter_push(t, after(x));
                } else {
                    assert(times_of(hs[n], key) == kept);
                    assert(a == pa);
                }
            }
            assert forall|j: int| 0 <= j < a.len() implies #[trigger] a[j] <= t by {
                if j < pa.len() {
                    assert(a[j] == pa[j]);
                }
            }
            assert forall|t2: u64| true implies #[trigger] a.filter(in_window(t2, w)).len() <= m by {
                if allowed[i] {
                    assert(a == pa.push(t));
                    pa.lemma_filter_push(t, in_window(t2, w));
                    if in_window(t2, w)(t) {
                        assert forall|y: u64| #[trigger] in_window(t2, w)(y) implies after(ws)(y) by {}
                        lemma_filter_weaker_len(pa, in_window(t2, w), after(ws));
                    }
                }
            }
        } else {
            lemma_other_key_step(hs, calls, allowed, max_reqs, window_secs, key, i);
            assert(a == pa);
            assert forall|j: int| 0 <= j < a.len() implies #[trigger] a[j] <= t by {}
        }
    }
}

/// The sliding window holds over any run of checks: with one limit `m` and
/// window `w` (each 60 when not positive), on a clock that never goes back,
/// for every key and every second `t`, at most `m` allowed checks for that
/// key are stamped in the window that ends at `t` (after `t - w`, or after 0
/// early on, and up to `t`); what a check for the key counts is exactly the
/// earlier allowed checks for it in its own window, and it is allowed
/// exactly when there are fewer than `m` of them; and a check for another
/// key leaves the key's record as it was.
pub proof fn law_rate_limit_window(
    hs: Seq<Map<Seq<char>, Seq<u64>>>,
    calls: Seq<(Seq<char>, u64)>,
    allowed: Seq<bool>,
    max_reqs: i64,
    window_secs: i64,
    key: Seq<char>,
)
    requires
        is_limit_run(hs, calls, allowed, max_reqs, window_secs),
        !hs[0].contains_key(key),
        forall|i: int, j: int| 0 <= i <= j < calls.len() ==> #[trigger] calls[i].1 <= #[trigger] calls[j].1,
    ensures
        forall|t: u64|
            #[trigger] allowed_stamps(calls, allowed, key, calls.len() as int).filter(
                in_window(t, effective_window(window_secs)),
            ).len() <= effective_max(max_reqs),
        forall|i: int|
            0 <= i < calls.len() && calls[i].0 == key ==> times_of(hs[i], key).filter(
                after(window_start(calls[i].1, effective_window(window_secs))),
            ) == #[trigger] allowed_stamps(calls, allowed, key, i).filter(
                in_window(calls[i].1, effective_window(window_secs)),
            ),
        forall|i: int|
            0 <= i < calls.len() && calls[i].0 == key ==> #[trigger] allowed[i] == (allowed_stamps(
                calls,
                allowed,
                key,
                i,
            ).filter(in_window(calls[i].1, effective_window(window_secs))).len() < effective_max(
                max_reqs,
            )),
        forall|i: int|
            0 <= i < calls.len() && calls[i].0 != key ==> times_of(#[trigger] hs[i + 1], key)
                == times_of(hs[i], key),
{
    let w = effective_window(window_secs);
    lemma_limit_run_prefix(hs, calls, allowed, max_reqs, window_secs, key, calls.len() as int);
    assert forall|i: int| 0 <= i < calls.len() && calls[i].0 == key implies times_of(hs[i], key).filter(
        after(window_start(calls[i].1, w)),
    ) == #[trigger] allowed_stamps(calls, allowed, key, i).filter(in_window(calls[i].1, w)) by {
        lemma_limit_run_prefix(hs, calls, allowed, max_reqs, window_secs, key, i);
        let pa = allowed_stamps(calls, allowed, key, i);
        let t = calls[i].1;
        let ws = window_start(t, w);
        assert(i > 0 ==> calls[i - 1].1 <= t);
        assert(times_of(hs[i], key).filter(after(ws)) == pa.filter(after(ws)));
        assert forall|j: int| 0 <= j < pa.len() implies after(ws)(#[trigger] pa[j]) == in_window(t, w)(
            pa[j],
        ) by {
            assert(i > 0);
        }
        lemma_filter_agree(pa, after(ws), in_window(t, w));
    }
    assert forall|i: int| 0 <= i < calls.len() && calls[i].0 == key implies #[trigger] allowed[i] == (
    allowed_stamps(calls, allowed, key, i).filter(in_window(calls[i].1, w)).len() < effective_max(
        max_reqs,
    )) by {
        assert(allowed_stamps(calls, allowed, key, i) == allowed_stamps(calls, allowed, key, i));
    }
    assert forall|i: int| 0 <= i < calls.len() && calls[i].0 != key implies times_of(
        #[trigger] hs[i + 1],
        key,
    ) == times_of(hs[i], key) by {
        lemma_other_key_step(hs, calls, allowed, max_reqs, window_secs, key, i);
    }
}

} // verus!
