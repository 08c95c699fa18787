//! The background job queue's bookkeeping. Worker threads and the channel
//! that feeds them live in the application; this is the state they update.

use vstd::prelude::*;
use vstd::wrapping::usize_specs::{wrapping_add, wrapping_sub};
use crate::pubsub::{bounded_push, last_n};

verus! {

/// How many finished jobs are remembered.
pub const RECENT_CAP: usize = 20;

/// A job handed to the workers.
pub struct JobMessage<V> {
    pub name: String,
    pub payload: V,
}

/// A finished job as the statistics report it.
pub struct JobRecord<V> {
    pub name: String,
    pub status: String,
    pub payload: V,
}

/// Counters and the most recent finished jobs.
pub struct JobQueue<V> {
    queued: usize,
    completed: usize,
    recent: Vec<JobRecord<V>>,
}

/// The statistics snapshot.
pub struct QueueStats<'a, V> {
    pub queued: i64,
    pub completed: i64,
    pub recent: Vec<&'a JobRecord<V>>,
}

/// The number of worker threads for a configured count (0 means 2).
pub open spec fn spec_worker_count(num_workers: usize) -> usize {
    if num_workers == 0 {
        2
    } else {
        num_workers
    }
}

/// The bookkeeping of a queue: jobs queued, jobs completed, and the recent
/// finished jobs, oldest first.
pub struct QueueState<V> {
    pub queued: usize,
    pub completed: usize,
    pub recent: Seq<JobRecord<V>>,
}

/// One event of the bookkeeping: `None` is a dispatch, `Some(r)` a worker
/// finishing a job, which is recorded as `r`.
pub open spec fn queue_step<V>(s: QueueState<V>, e: Option<JobRecord<V>>) -> QueueState<V> {
    match e {
        None => QueueState { queued: wrapping_add(s.queued, 1), completed: s.completed, recent: s.recent },
        Some(r) => QueueState {
            queued: wrapping_sub(s.queued, 1),
            completed: wrapping_add(s.completed, 1),
            recent: bounded_push(s.recent, r, RECENT_CAP as nat),
        },
    }
}

/// The bookkeeping after a run of events on a new queue.
pub open spec fn queue_run<V>(events: Seq<Option<JobRecord<V>>>) -> QueueState<V>
    decreases events.len(),
{
    if events.len() == 0 {
        QueueState { queued: 0, completed: 0, recent: Seq::empty() }
    } else {
        queue_step(queue_run(events.drop_last()), events.last())
    }
}

/// The number of dispatches in a run.
pub open spec fn dispatches<V>(events: Seq<Option<JobRecord<V>>>) -> nat
    decreases events.len(),
{
    if events.len() == 0 {
        0
    } else {
        dispatches(events.drop_last()) + if events.last() is None {
            1nat
        } else {
            0nat
        }
    }
}

/// The jobs finished in a run, in the order they finished.
pub open spec fn finished<V>(events: Seq<Option<JobRecord<V>>>) -> Seq<JobRecord<V>>
    decreases events.len(),
{
    if events.len() == 0 {
        Seq::empty()
    } else {
        match events.last() {
            Some(r) => finished(events.drop_last()).push(r),
            None => finished(events.drop_last()),
        }
    }
}

/// The number of worker threads to start for a configured count.
pub fn worker_count(num_workers: usize) -> (n: usize)
    ensures
        n == spec_worker_count(num_workers),
        n > 0,
{
    if num_workers == 0 {
        2
    } else {
        num_workers
    }
}

impl<V> JobQueue<V> {
    /// The number of jobs dispatched and not yet finished.
    pub closed spec fn queued_count(&self) -> usize {
        self.queued
    }

    /// The number of jobs finished.
    pub closed spec fn completed_count(&self) -> usize {
        self.completed
    }

    /// The most recent finished jobs, oldest first.
    pub closed spec fn recent_jobs(&self) -> Seq<JobRecord<V>> {
        self.recent@
    }

    /// The bookkeeping as one value.
    pub open spec fn state(&self) -> QueueState<V> {
        QueueState {
            queued: self.queued_count(),
            completed: self.completed_count(),
            recent: self.recent_jobs(),
        }
    }

    /// The queue's internal consistency: at most [`RECENT_CAP`] recent jobs.
    pub closed spec fn wf(&self) -> bool {
        self.recent@.len() <= RECENT_CAP
    }

    /// A queue with nothing dispatched.
    pub fn new() -> (q: Self)
        ensures
            q.wf(),
            q.queued_count() == 0,
            q.completed_count() == 0,
            q.recent_jobs() == Seq::<JobRecord<V>>::empty(),
    {
        JobQueue { queued: 0, completed: 0, recent: Vec::new() }
    }

    /// Records a dispatched job and returns the message to hand to the
    /// workers.
    pub fn dispatch(&mut self, name: &str, payload: V) -> (m: JobMessage<V>)
        requires
            old(self).wf(),
        ensures
            final(self).wf(),
            final(self).queued_count() == vstd::wrapping::usize_specs::wrapping_add(old(self).queued_count(), 1),
            final(self).completed_count() == old(self).completed_count(),
            final(self).recent_jobs() == old(self).recent_jobs(),
            final(self).state() == queue_step(old(self).state(), None),
            m.name@ == name@,
            m.payload == payload,
    {
        self.queued = self.queued.wrapping_add(1);
        JobMessage { name: name.to_owned(), payload }
    }

    /// Records that a worker finished `job`: one fewer queued, one more
    /// completed, and the job joins the recent list (dropping the oldest
    /// when the list is full).
    pub fn complete(&mut self, job: JobMessage<V>)
        requires
            old(self).wf(),
        ensures
            final(self).wf(),
            final(self).queued_count() == vstd::wrapping::usize_specs::wrapping_sub(old(self).queued_count(), 1),
            final(self).completed_count() == vstd::wrapping::usize_specs::wrapping_add(old(self).completed_count(), 1),
            final(self).recent_jobs().len() > 0,
            final(self).recent_jobs() == crate::pubsub::bounded_push(
                old(self).recent_jobs(),
                final(self).recent_jobs().last(),
                RECENT_CAP as nat,
            ),
            final(self).recent_jobs().last().name@ == job.name@,
            final(self).recent_jobs().last().status@ == "completed"@,
            final(self).recent_jobs().last().payload == job.payload,
            final(self).state() == queue_step(old(self).state(), Some(final(self).recent_jobs().last())),
    {
        self.queued = self.queued.wrapping_sub(1);
        self.completed = self.completed.wrapping_add(1);
        let ghost before = self.recent@;
        if self.recent.len() >= RECENT_CAP {
            self.recent.remove(0);
        }
        let r = JobRecord { name: job.name, status: "completed".to_owned(), payload: job.payload };
        let ghost rg = r;
        self.recent.push(r);
        assert(self.recent@ =~= crate::pubsub::bounded_push(before, rg, RECENT_CAP as nat));
        assert(rg.name@ == job.name@ && rg.status@ == "completed"@ && rg.payload == job.payload
            && self.recent@ == crate::pubsub::bounded_push(before, rg, RECENT_CAP as nat));
    }

    /// The counters and the recent jobs, oldest first.
    pub fn stats(&self) -> (s: QueueStats<'_, V>)
        requires
            self.wf(),
        ensures
            s.queued == self.queued_count() as i64,
            s.completed == self.completed_count() as i64,
            s.recent@.len() == self.recent_jobs().len(),
            forall|i: int| 0 <= i < s.recent@.len() ==> *s.recent@[i] == self.recent_jobs()[i],
    {
        let mut recent: Vec<&JobRecord<V>> = Vec::new();
        let mut i: usize = 0;
        while i < self.recent.len()
            invariant
                i <= self.recent.len(),
                recent@.len() == i,
                forall|j: int| 0 <= j < i ==> *recent@[j] == self.recent@[j],
            decreases self.recent.len() - i,
        {
            recent.push(&self.recent[i]);
            i = i + 1;
        }
        QueueStats { queued: self.queued as i64, completed: self.completed as i64, recent }
    }
}

} // verus!

verus! {

proof fn lemma_queue_run_prefix<V>(events: Seq<Option<JobRecord<V>>>, k: int)
    requires
        0 <= k <= events.len(),
        dispatches(events.take(k)) <= usize::MAX,
        forall|j: int|
            0 <= j <= events.len() ==> finished(#[trigger] events.take(j)).len() <= dispatches(
                events.take(j),
            ),
    ensures
        queue_run(events.take(k)) == (QueueState {
            queued: (dispatches(events.take(k)) - finished(events.take(k)).len()) as usize,
            completed: finished(events.take(k)).len() as usize,
            recent: last_n(finished(events.take(k)), RECENT_CAP as nat),
        }),
    decreases k,
{
    let p = events.take(k);
    if k == 0 {
        assert(p =~= Seq::<Option<JobRecord<V>>>::empty());
        assert(last_n(finished(p), RECENT_CAP as nat) =~= Seq::<JobRecord<V>>::empty());
    } else {
        let q = events.take(k - 1);
        assert(p.drop_last() =~= q);
        assert(p.last() == events[k - 1]);
        assert(finished(q).len() <= dispatches(q));
        assert(finished(p).len() <= dispatches(p));
        lemma_queue_run_prefix(events, k - 1);
        match events[k - 1] {
            Some(r) => {
                crate::pubsub::lemma_bounded_push_last_n(finished(q), r, RECENT_CAP as nat);
            },
            None => {},
        }
    }
}

/// The queue's counters over a run: starting from a new queue, after `d`
/// dispatches and `c` completions in any order in which no job finishes
/// before it was dispatched (at every point no more completions than
/// dispatches), `queued` is `d - c`, `completed` is `c`, and the recent list
/// is the last 20 finished jobs in the order they finished. So when every
/// dispatched job has finished, `queued` is 0 and `completed` is `d`. The
/// counts are as `stats` reports them where `d` fits its `i64`.
pub proof fn law_queue_counters<V>(events: Seq<Option<JobRecord<V>>>)
    requires
        dispatches(events) <= usize::MAX,
        dispatches(events) <= i64::MAX,
        forall|j: int|
            0 <= j <= events.len() ==> finished(#[trigger] events.take(j)).len() <= dispatches(
                events.take(j),
            ),
    ensures
        queue_run(events).queued == dispatches(events) - finished(events).len(),
        queue_run(events).completed == finished(events).len(),
        queue_run(events).queued as i64 == dispatches(events) - finished(events).len(),
        queue_run(events).completed as i64 == finished(events).len(),
        queue_run(events).recent == last_n(finished(events), RECENT_CAP as nat),
{
    assert(events.take(events.len() as int) =~= events);
    lemma_queue_run_prefix(events, events.len() as int);
}

} // verus!
