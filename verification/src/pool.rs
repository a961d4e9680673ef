//! A fixed-size worker pool with a graceful termination protocol.
//!
//! The pool owns a fixed set of workers and one FIFO job queue: each
//! message on the queue is delivered to exactly one worker, oldest
//! first.  Teardown sends one termination signal per worker and waits
//! until every worker has observed its signal and exited; a job the
//! queue accepted before teardown still runs exactly once.
//!
//! The threads themselves are execution contexts outside the library;
//! this module is the pool's bookkeeping, the part whose invariants
//! make the protocol correct.  A job is represented by its identity (a
//! plain integer): which closure body runs under an identity is the
//! caller's business, and a job is "executed" when its identity is
//! recorded on the completion log.

use vstd::pervasive::VecAdditionalExecFns;
use vstd::prelude::*;

verus! {

/// Whether lifecycle transitions are reported to the log; purely
/// observational, with no effect on correctness.
#[derive(Clone, Copy, Debug, PartialEq, Eq, Structural)]
pub enum Mode {
    Quiet,
    Verbose,
}

/// Why pool construction failed.
#[derive(Clone, Copy, Debug, PartialEq, Eq, Structural)]
pub enum PoolError {
    /// A pool must have at least one worker.
    ZeroSize,
}

/// One message on the shared queue: a job to run, or the signal to
/// exit.
#[derive(Clone, Copy, Debug, PartialEq, Eq, Structural)]
pub enum Message {
    NewJob(usize),
    Terminate,
}

/// What one worker is doing: waiting for a message, running a job, or
/// exited after observing its termination signal.
#[derive(Clone, Copy, Debug, PartialEq, Eq, Structural)]
pub enum WorkerState {
    Idle,
    Busy(usize),
    Done,
}

/// A long-lived execution context with an identity bound at pool
/// construction; workers are never recreated individually.
#[derive(Clone, Copy, Debug, PartialEq, Eq, Structural)]
pub struct Worker {
    pub id: usize,
    pub state: WorkerState,
}

impl Worker {
    /// A freshly spawned worker: idle, waiting on the shared queue.
    pub fn new(id: usize) -> (r: Worker)
        ensures
            r.id == id,
            r.state == WorkerState::Idle,
    {
        Worker { id, state: WorkerState::Idle }
    }
}

/// The job identities carried by a queue, oldest first; termination
/// signals carry no job.
pub open spec fn jobs_of(q: Seq<Message>) -> Seq<usize>
    decreases q.len(),
{
    if q.len() == 0 {
        Seq::empty()
    } else {
        jobs_of(q.drop_last()) + match q.last() {
            Message::NewJob(j) => seq![j],
            Message::Terminate => Seq::empty(),
        }
    }
}

/// True when the queue holds only jobs, no termination signal: the
/// state of the queue before teardown begins.
pub open spec fn all_jobs(q: Seq<Message>) -> bool {
    forall|i: int| 0 <= i < q.len() ==> (#[trigger] q[i]) is NewJob
}

/// How many of these workers are running a job right now.
pub open spec fn busy_count(ws: Seq<Worker>) -> nat
    decreases ws.len(),
{
    if ws.len() == 0 {
        0
    } else {
        busy_count(ws.drop_last()) + if ws.last().state is Busy {
            1nat
        } else {
            0nat
        }
    }
}

/// `k` termination signals in a row: what teardown appends to the
/// queue.
pub open spec fn term_seq(k: nat) -> Seq<Message>
    decreases k,
{
    if k == 0 {
        Seq::empty()
    } else {
        term_seq((k - 1) as nat).push(Message::Terminate)
    }
}

/// A run of termination signals is nothing but termination signals.
pub proof fn lemma_term_seq(k: nat)
    ensures
        term_seq(k).len() == k,
        forall|i: int| 0 <= i < k ==> #[trigger] term_seq(k)[i] == Message::Terminate,
    decreases k,
{
    if k > 0 {
        lemma_term_seq((k - 1) as nat);
    }
}

/// A fixed set of workers consuming one shared FIFO job queue.
pub struct ThreadPool {
    /// The workers, in construction order; the pool's size is fixed
    /// at construction and never changes.
    pub workers: Vec<Worker>,
    /// The shared queue, oldest message first.
    pub queue: Vec<Message>,
    /// The identities of the jobs that have executed, in execution
    /// order: the pool's completion log.
    pub completed: Vec<usize>,
    /// Whether lifecycle transitions are reported.
    pub mode: Mode,
    /// Whether teardown has begun; no job is accepted afterwards.
    pub terminating: bool,
}

impl ThreadPool {
    /// Well-formedness: at least one worker, each bearing the identity
    /// of its construction slot.
    pub open spec fn wf(self) -> bool {
        self.workers@.len() > 0 && forall|i: int|
            0 <= i < self.workers@.len() ==> (#[trigger] self.workers@[i]).id == i
    }

    /// Constructs `size` workers sharing one job queue.  Fails exactly
    /// when `size == 0`, before any worker is created.
    pub fn new(size: usize, mode: Mode) -> (r: Result<ThreadPool, PoolError>)
        ensures
            size == 0 ==> r == Err::<ThreadPool, PoolError>(PoolError::ZeroSize),
            size > 0 ==> (r matches Ok(p) && p.wf() && p.workers@.len() == size && forall|i: int|
                0 <= i < size ==> (#[trigger] p.workers@[i]).state == WorkerState::Idle),
            r matches Ok(p) ==> p.queue@ == Seq::<Message>::empty() && p.completed@
                == Seq::<usize>::empty() && p.mode == mode && !p.terminating,
    {
        if size == 0 {
            return Err(PoolError::ZeroSize);
        }
        let mut workers: Vec<Worker> = Vec::new();
        let mut id: usize = 0;
        while id < size
            invariant
                id <= size,
                workers@.len() == id,
                forall|i: int| 0 <= i < id ==> (#[trigger] workers@[i]).id == i,
                forall|i: int| 0 <= i < id ==> (#[trigger] workers@[i]).state == WorkerState::Idle,
            decreases size - id,
        {
            workers.push(Worker::new(id));
            id = id + 1;
        }
        Ok(ThreadPool { workers, queue: Vec::new(), completed: Vec::new(), mode, terminating: false })
    }

    /// Enqueues a job and returns immediately; the job executes later
    /// on whichever worker claims it, in FIFO queue order.
    pub fn execute(&mut self, job: usize)
        requires
            !old(self).terminating,
        ensures
            final(self).queue@ == old(self).queue@.push(Message::NewJob(job)),
            final(self).workers == old(self).workers,
            final(self).completed == old(self).completed,
            final(self).mode == old(self).mode,
            final(self).terminating == old(self).terminating,
    {
        self.queue.push(Message::NewJob(job));
    }

    /// Worker `w` claims the oldest message on the queue: a job makes
    /// it busy with that job, a termination signal makes it exit.
    pub fn claim(&mut self, w: usize) -> (m: Message)
        requires
            w < old(self).workers@.len(),
            old(self).workers@[w as int].state is Idle,
            old(self).queue@.len() > 0,
        ensures
            m == old(self).queue@[0],
            final(self).queue@ == old(self).queue@.drop_first(),
            final(self).workers@.len() == old(self).workers@.len(),
            forall|i: int|
                0 <= i < old(self).workers@.len() && i != w
                    ==> final(self).workers@[i] == old(self).workers@[i],
            final(self).workers@[w as int].id == old(self).workers@[w as int].id,
            (m matches Message::NewJob(j) ==> final(self).workers@[w as int].state
                == WorkerState::Busy(j)),
            (m is Terminate ==> final(self).workers@[w as int].state == WorkerState::Done),
            final(self).completed == old(self).completed,
            final(self).mode == old(self).mode,
            final(self).terminating == old(self).terminating,
    {
        let m = self.queue.remove(0);
        let wid = self.workers[w].id;
        match m {
            Message::NewJob(j) => {
                self.workers.set(w, Worker { id: wid, state: WorkerState::Busy(j) });
            },
            Message::Terminate => {
                self.workers.set(w, Worker { id: wid, state: WorkerState::Done });
            },
        }
        proof {
            assert(self.queue@ =~= old(self).queue@.drop_first());
        }
        m
    }

    /// Worker `w` finishes the job it is running: the job has now
    /// executed exactly once, and the worker survives to claim the
    /// next message.
    pub fn finish(&mut self, w: usize)
        requires
            w < old(self).workers@.len(),
            old(self).workers@[w as int].state is Busy,
        ensures
            final(self).workers@.len() == old(self).workers@.len(),
            forall|i: int|
                0 <= i < old(self).workers@.len() && i != w
                    ==> final(self).workers@[i] == old(self).workers@[i],
            final(self).workers@[w as int].id == old(self).workers@[w as int].id,
            final(self).workers@[w as int].state == WorkerState::Idle,
            (old(self).workers@[w as int].state matches WorkerState::Busy(j)
                ==> final(self).completed@ == old(self).completed@.push(j)),
            final(self).queue@ == old(self).queue@,
            final(self).mode == old(self).mode,
            final(self).terminating == old(self).terminating,
    {
        let wid = self.workers[w].id;
        match self.workers[w].state {
            WorkerState::Busy(j) => {
                self.completed.push(j);
            },
            _ => {},
        }
        self.workers.set(w, Worker { id: wid, state: WorkerState::Idle });
    }

    /// Teardown, triggered exactly once: sends one termination signal
    /// per worker into the queue, then lets the workers drain it until
    /// every one of them has observed its signal and exited.  Every
    /// job the queue had accepted executes exactly once, oldest first,
    /// before the signals are reached; no job is lost, none runs
    /// twice.
    pub fn shutdown(&mut self)
        requires
            old(self).wf(),
            !old(self).terminating,
            all_jobs(old(self).queue@),
            forall|i: int|
                0 <= i < old(self).workers@.len() ==> (#[trigger] old(self).workers@[i]).state
                    is Idle,
        ensures
            final(self).terminating,
            final(self).wf(),
            final(self).workers@.len() == old(self).workers@.len(),
            forall|i: int|
                0 <= i < final(self).workers@.len() ==> (#[trigger] final(self).workers@[i]).state
                    is Done,
            final(self).queue@.len() == 0,
            final(self).completed@ == old(self).completed@ + jobs_of(old(self).queue@),
            final(self).mode == old(self).mode,
    {
        self.terminating = true;
        let n = self.workers.len();
        let qlen = self.queue.len();
        let ghost q0 = self.queue@;
        let ghost c0 = self.completed@;
        let ghost ws0 = self.workers@;
        let mut k: usize = 0;
        while k < n
            invariant
                k <= n,
                self.queue@ == q0 + term_seq(k as nat),
                self.workers@ == ws0,
                self.completed@ == c0,
                self.mode == old(self).mode,
                self.terminating,
            decreases n - k,
        {
            self.queue.push(Message::Terminate);
            k = k + 1;
            proof {
                assert(self.queue@ =~= q0 + term_seq(k as nat));
            }
        }
        let ghost jn = q0.len() as int;
        let mut p: usize = 0;
        let mut d: usize = 0;
        while self.queue.len() > 0
            invariant
                self.workers@.len() == n,
                n == ws0.len(),
                n > 0,
                all_jobs(q0),
                jn == q0.len(),
                forall|i: int| 0 <= i < n ==> (#[trigger] self.workers@[i]).id == ws0[i].id,
                forall|i: int| 0 <= i < n ==> (#[trigger] ws0[i]).id == i,
                p <= jn,
                jn == qlen,
                d <= n,
                p < jn ==> d == 0,
                self.queue@ == q0.skip(p as int) + term_seq((n - d) as nat),
                self.completed@ == c0 + jobs_of(q0.take(p as int)),
                forall|i: int| 0 <= i < d ==> (#[trigger] self.workers@[i]).state is Done,
                forall|i: int| d <= i < n ==> (#[trigger] self.workers@[i]).state is Idle,
                self.mode == old(self).mode,
                self.terminating,
            decreases self.queue@.len(),
        {
            let ghost qcur = self.queue@;
            proof {
                lemma_term_seq((n - d) as nat);
            }
            let m = self.queue.remove(0);
            proof {
                assert(self.queue@ =~= qcur.drop_first());
            }
            match m {
                Message::NewJob(j) => {
                    proof {
                        if p as int == jn {
                            assert(q0.skip(jn).len() == 0);
                            assert(qcur[0] == term_seq((n - d) as nat)[0]);
                        }
                        assert(p < jn);
                        assert(qcur[0] == q0.skip(p as int)[0]);
                        assert(q0.skip(p as int)[0] == q0[p as int]);
                    }
                    self.completed.push(j);
                    let ghost pp = p as int;
                    p = p + 1;
                    proof {
                        assert(q0.take(pp + 1).drop_last() =~= q0.take(pp));
                        assert(q0.take(pp + 1).last() == q0[pp]);
                        assert(jobs_of(q0.take(pp + 1)) =~= jobs_of(q0.take(pp)).push(j));
                        assert(self.completed@ =~= c0 + jobs_of(q0.take(pp + 1)));
                        assert(self.queue@ =~= q0.skip(pp + 1) + term_seq((n - d) as nat));
                    }
                },
                Message::Terminate => {
                    proof {
                        if p < jn {
                            assert(qcur[0] == q0.skip(p as int)[0]);
                            assert(q0.skip(p as int)[0] == q0[p as int]);
                            assert(qcur[0] is NewJob);
                        }
                        assert(p == jn);
                        assert(qcur.len() == n - d);
                        assert(d < n);
                    }
                    let wid = self.workers[d].id;
                    self.workers.set(d, Worker { id: wid, state: WorkerState::Done });
                    let ghost dd = d as int;
                    d = d + 1;
                    proof {
                        lemma_term_seq((n - dd) as nat);
                        lemma_term_seq((n - d) as nat);
                        assert(self.queue@ =~= q0.skip(jn) + term_seq((n - d) as nat));
                    }
                },
            }
        }
        proof {
            lemma_term_seq((n - d) as nat);
            assert(p == jn && d == n) by {
                lemma_term_seq((n - d) as nat);
                if p < jn || d < n {
                    assert(self.queue@.len() > 0);
                }
            }
            assert(q0.take(jn) =~= q0);
            assert(self.completed@ == c0 + jobs_of(q0));
        }
    }
}

/// Law (no lost or duplicated work): start from a pool whose queue and
/// completion log are empty, accept any sequence of jobs, and tear the
/// pool down: the completion log is exactly that sequence of jobs —
/// every accepted job executed, each exactly once, in FIFO order.
pub proof fn lemma_every_job_runs_once(jobs: Seq<usize>, q: Seq<Message>, c0: Seq<usize>, c1: Seq<usize>)
    requires
        q == jobs.map_values(|j: usize| Message::NewJob(j)),
        c0 == Seq::<usize>::empty(),
        c1 == c0 + jobs_of(q),
    ensures
        c1 == jobs,
    decreases jobs.len(),
{
    if jobs.len() == 0 {
        assert(c1 =~= jobs);
    } else {
        let qp = jobs.drop_last().map_values(|j: usize| Message::NewJob(j));
        assert(q.drop_last() =~= qp);
        lemma_every_job_runs_once(jobs.drop_last(), qp, c0, c0 + jobs_of(qp));
        assert(q.last() == Message::NewJob(jobs.last()));
        assert(c1 =~= jobs.drop_last().push(jobs.last()));
        assert(jobs.drop_last().push(jobs.last()) =~= jobs);
    }
}

/// Law (bounded parallelism): the workers running jobs are always a
/// subset of the pool's fixed worker set, so at most `size` jobs
/// execute concurrently, where `size` is the count fixed at
/// construction.
pub proof fn lemma_bounded_concurrency(ws: Seq<Worker>)
    ensures
        busy_count(ws) <= ws.len(),
    decreases ws.len(),
{
    if ws.len() > 0 {
        lemma_bounded_concurrency(ws.drop_last());
    }
}

} // verus!
