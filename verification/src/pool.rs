//! The worker pool's bookkeeping: one queue of jobs, a fixed number of workers
//! that draw from it, and the rule by which it shuts down.
//!
//! A `ThreadPool` is a plain value. It decides; it starts no thread and runs no
//! job. A server keeps it behind a lock, calls `run` for each unit of work,
//! and lets each of its worker threads call `next_step` under that lock to
//! learn what to do.

use std::collections::VecDeque;
use vstd::prelude::*;
use itertools::Itertools;

verus! {

/// A pool as mathematical values.
pub struct PoolModel<J> {
    /// The number of workers, fixed when the pool is made.
    pub workers: nat,
    /// The jobs accepted and not yet handed to a worker, oldest first.
    pub pending: Seq<J>,
    /// Whether jobs are still accepted.
    pub open: bool,
}

/// What a worker is told to do, as mathematical values.
pub enum StepModel<J> {
    Run(J),
    Wait,
    Exit,
}

/// What can happen to a pool.
pub enum Event<J> {
    /// A job is submitted.
    Submit(J),
    /// A worker asks for its next step.
    Take,
    /// The submitting side shuts the pool down.
    Close,
}

impl<J> PoolModel<J> {
    /// A new pool. One without workers is closed from the start: nothing would
    /// ever run what it accepted.
    pub open spec fn created(threads: nat) -> Self {
        PoolModel { workers: threads, pending: Seq::empty(), open: threads > 0 }
    }

    /// The pool after a submission: the job joins the end of the queue, unless
    /// the pool is closed.
    pub open spec fn submit(self, job: J) -> Self {
        if self.open {
            PoolModel { pending: self.pending.push(job), ..self }
        } else {
            self
        }
    }

    /// What a worker that asks now is told: to run the oldest pending job; to
    /// wait, where none is pending and more may come; to exit, where none is
    /// pending and the pool is closed.
    pub open spec fn next(self) -> StepModel<J> {
        if self.pending.len() > 0 {
            StepModel::Run(self.pending[0])
        } else if self.open {
            StepModel::Wait
        } else {
            StepModel::Exit
        }
    }

    /// The pool after a worker asked: the job it was given has left the queue.
    pub open spec fn take(self) -> Self {
        if self.pending.len() > 0 {
            PoolModel { pending: self.pending.drop_first(), ..self }
        } else {
            self
        }
    }

    /// The pool after shutdown: what is pending stays, nothing more is taken in.
    pub open spec fn close(self) -> Self {
        PoolModel { open: false, ..self }
    }

    /// The pool after one event.
    pub open spec fn apply(self, event: Event<J>) -> Self {
        match event {
            Event::Submit(job) => self.submit(job),
            Event::Take => self.take(),
            Event::Close => self.close(),
        }
    }

    /// The pool after a run of events, in whatever order submitters and workers
    /// came to it.
    pub open spec fn after(self, events: Seq<Event<J>>) -> Self
        decreases events.len(),
    {
        if events.len() == 0 {
            self
        } else {
            self.after(events.drop_last()).apply(events.last())
        }
    }

    /// The jobs that a run of events got accepted, in order.
    pub open spec fn accepted(self, events: Seq<Event<J>>) -> Seq<J>
        decreases events.len(),
    {
        if events.len() == 0 {
            Seq::empty()
        } else {
            let before = self.after(events.drop_last());
            let so_far = self.accepted(events.drop_last());
            match events.last() {
                Event::Submit(job) if before.open => so_far.push(job),
                _ => so_far,
            }
        }
    }

    /// The jobs that a run of events handed to workers, in order.
    pub open spec fn handed(self, events: Seq<Event<J>>) -> Seq<J>
        decreases events.len(),
    {
        if events.len() == 0 {
            Seq::empty()
        } else {
            let before = self.after(events.drop_last());
            let so_far = self.handed(events.drop_last());
            match events.last() {
                Event::Take if before.pending.len() > 0 => so_far.push(before.pending[0]),
                _ => so_far,
            }
        }
    }
}

/// The jobs that a run of events submitted, accepted or not, in order.
pub open spec fn submitted<J>(events: Seq<Event<J>>) -> Seq<J>
    decreases events.len(),
{
    if events.len() == 0 {
        Seq::empty()
    } else {
        match events.last() {
            Event::Submit(job) => submitted(events.drop_last()).push(job),
            _ => submitted(events.drop_last()),
        }
    }
}

/// Whether a run of events holds no shutdown.
pub open spec fn never_closed<J>(events: Seq<Event<J>>) -> bool {
    forall|i: int| 0 <= i < events.len() ==> !(#[trigger] events[i] is Close)
}

/// No job is lost and none is handed out twice, in whatever order submitters
/// and workers take their turns: the jobs handed to workers, followed by those
/// still pending, are the jobs that were pending at first, followed by those
/// accepted since, each once and in the order of acceptance.
pub proof fn lemma_each_job_once<J>(pool: PoolModel<J>, events: Seq<Event<J>>)
    ensures
        pool.handed(events) + pool.after(events).pending == pool.pending + pool.accepted(events),
    decreases events.len(),
{
    if events.len() > 0 {
        let front = events.drop_last();
        lemma_each_job_once(pool, front);
        let before = pool.after(front);
        match events.last() {
            Event::Submit(job) => {
                if before.open {
                    assert(pool.handed(events) + pool.after(events).pending =~= (pool.handed(front)
                        + before.pending).push(job));
                    assert(pool.pending + pool.accepted(events) =~= (pool.pending + pool.accepted(
                        front,
                    )).push(job));
                }
            },
            Event::Take => {
                if before.pending.len() > 0 {
                    assert(pool.handed(events) + pool.after(events).pending =~= pool.handed(front)
                        + before.pending);
                }
            },
            Event::Close => {},
        }
    } else {
        assert(pool.handed(events) + pool.after(events).pending =~= pool.pending + pool.accepted(
            events,
        ));
    }
}

/// A pool with at least one worker that is never shut down accepts every job
/// submitted to it.
pub proof fn lemma_open_pool_accepts_all<J>(pool: PoolModel<J>, events: Seq<Event<J>>)
    requires
        pool.open,
        never_closed(events),
    ensures
        pool.after(events).open,
        pool.accepted(events) == submitted(events),
    decreases events.len(),
{
    if events.len() > 0 {
        let front = events.drop_last();
        assert forall|i: int| 0 <= i < front.len() implies !(#[trigger] front[i] is Close) by {
            assert(front[i] == events[i]);
        }
        lemma_open_pool_accepts_all(pool, front);
        assert(!(events[events.len() - 1] is Close));
    }
}

/// Every job runs exactly once: where a pool with at least one worker is never
/// shut down, then once nothing is pending the workers have been handed every
/// job submitted, each once, in the order of submission, however the
/// submissions and the workers' turns were interleaved.
pub proof fn lemma_every_job_runs_once<J>(threads: nat, events: Seq<Event<J>>)
    requires
        threads >= 1,
        never_closed(events),
        PoolModel::<J>::created(threads).after(events).pending.len() == 0,
    ensures
        PoolModel::<J>::created(threads).handed(events) == submitted(events),
{
    let pool = PoolModel::<J>::created(threads);
    lemma_each_job_once(pool, events);
    lemma_open_pool_accepts_all(pool, events);
    assert(pool.handed(events) =~= pool.handed(events) + pool.after(events).pending);
    assert(pool.accepted(events) =~= pool.pending + pool.accepted(events));
}

/// A closed pool stays closed and accepts nothing, whatever is tried on it.
pub proof fn lemma_closed_pool_accepts_nothing<J>(pool: PoolModel<J>, events: Seq<Event<J>>)
    requires
        !pool.open,
    ensures
        !pool.after(events).open,
        pool.accepted(events) == Seq::<J>::empty(),
    decreases events.len(),
{
    if events.len() > 0 {
        lemma_closed_pool_accepts_nothing(pool, events.drop_last());
    }
}

/// The number of workers never changes.
pub proof fn lemma_workers_are_fixed<J>(pool: PoolModel<J>, events: Seq<Event<J>>)
    ensures
        pool.after(events).workers == pool.workers,
    decreases events.len(),
{
    if events.len() > 0 {
        lemma_workers_are_fixed(pool, events.drop_last());
    }
}

/// The pool's state: how many workers it has, the jobs that wait for one, and
/// whether it still takes jobs in. `J` is the type of a job; the pool moves
/// jobs and never looks into one.
pub struct ThreadPool<J> {
    workers: usize,
    pending: VecDeque<J>,
    open: bool,
}

/// The refusal of a job by a closed pool. The job comes back unrun.
#[derive(Debug)]
pub struct SubmitError<J> {
    pub job: J,
}

/// What a worker is to do next.
#[derive(Debug)]
pub enum WorkerStep<J> {
    /// Leave the pool's lock, run this job to its end, then ask again.
    Run(J),
    /// Nothing is pending: wait until the pool changes, then ask again.
    Wait,
    /// Nothing is pending and nothing will come: end.
    Exit,
}

impl<J> View for WorkerStep<J> {
    type V = StepModel<J>;

    open spec fn view(&self) -> StepModel<J> {
        match self {
            WorkerStep::Run(job) => StepModel::Run(*job),
            WorkerStep::Wait => StepModel::Wait,
            WorkerStep::Exit => StepModel::Exit,
        }
    }
}

impl<J> View for ThreadPool<J> {
    type V = PoolModel<J>;

    closed spec fn view(&self) -> PoolModel<J> {
        PoolModel { workers: self.workers as nat, pending: self.pending@, open: self.open }
    }
}

/// `Itertools::collect_vec` on the range `0..count`: the numbers from `0` up to
/// `count`, `count` itself left out, in rising order. The method only collects
/// what the iterator yields into a `Vec`.
#[verifier::external_body]
fn count_up(count: usize) -> (numbers: Vec<usize>)
    ensures
        numbers@ == Seq::new(count as nat, |i: int| i as usize),
{
    (0..count).collect_vec()
}

impl<J> ThreadPool<J> {
    /// A pool for `threads` workers, with nothing pending. With no worker at
    /// all the pool is closed from the start, so that every submission is
    /// refused rather than kept for nobody.
    pub fn new(threads: usize) -> (pool: ThreadPool<J>)
        ensures
            pool@ == PoolModel::<J>::created(threads as nat),
    {
        ThreadPool { workers: threads, pending: VecDeque::new(), open: threads > 0 }
    }

    /// Submits a job. An open pool queues it behind all that is pending,
    /// however much that is; a closed pool hands it back in the error.
    pub fn run(&mut self, job: J) -> (outcome: Result<(), SubmitError<J>>)
        ensures
            final(self)@ == old(self)@.submit(job),
            outcome == if old(self)@.open {
                Ok::<(), SubmitError<J>>(())
            } else {
                Err::<(), SubmitError<J>>(SubmitError { job })
            },
    {
        if self.open {
            self.pending.push_back(job);
            Ok(())
        } else {
            Err(SubmitError { job })
        }
    }

    /// Tells a worker what to do next, and takes the job it is given out of
    /// the queue. Jobs leave in the order in which they came.
    pub fn next_step(&mut self) -> (step: WorkerStep<J>)
        ensures
            step@ == old(self)@.next(),
            final(self)@ == old(self)@.take(),
    {
        match self.pending.pop_front() {
            Some(job) => {
                assert(self.pending@ =~= old(self).pending@.drop_first());
                WorkerStep::Run(job)
            },
            None => if self.open {
                WorkerStep::Wait
            } else {
                WorkerStep::Exit
            },
        }
    }

    /// Shuts the pool down: from now on every submission is refused. Jobs
    /// that are pending are still handed out; after the last of them the
    /// workers are told to exit.
    pub fn close(&mut self)
        ensures
            final(self)@ == old(self)@.close(),
    {
        self.open = false;
    }

    /// The number of workers.
    pub fn size(&self) -> (workers: usize)
        ensures
            workers == self@.workers,
    {
        self.workers
    }

    /// Whether the pool still accepts jobs.
    pub fn is_open(&self) -> (open: bool)
        ensures
            open == self@.open,
    {
        self.open
    }

    /// The number of jobs that wait for a worker.
    pub fn queued(&self) -> (count: usize)
        ensures
            count == self@.pending.len(),
    {
        self.pending.len()
    }

    /// The identifiers of the workers to start: `0`, `1`, and so on, one for
    /// each worker.
    pub fn worker_ids(&self) -> (ids: Vec<usize>)
        ensures
            ids@.len() == self@.workers,
            forall|i: int| 0 <= i < ids@.len() ==> ids@[i] == i,
    {
        count_up(self.workers)
    }
}

} // verus!
